//! The nodes of the resolved tree, as they are when they are built.

use crate::expr_places::lemma_expr_head;
use crate::model::{
    ArmBody, BinOp, BindKind, Binding, BindingOwner, Body, BuiltinCall, CallArg, CallTarget,
    DeepClonePlan, Expr, ExprCategory, ExprInfo, MatchArm, MethodTarget, OwnershipCapability, Param,
    Pattern, Place, PlaceInfo, ResolvedConversion, RuntimeCheckRequirement, Stmt, StorageRelation,
    StrPart, ValueCategory, with_info,
};
use crate::ownership_capabilities::category_capability;
use crate::runtime_checks::{array_index, array_place_index, constant_index};
use crate::storage_relations::initial_relation;
use crate::tree::{
    BuiltinView, CallView, InfoView, Label, MethodView, OwnerView, Tree, arg_tree, arg_trees,
    arm_tree, binding_tree, body_tree, branch_tree, branch_trees, call_view, capture_trees,
    expr_tree, expr_trees, info_view, match_trees, method_view, owner_view, param_trees, part,
    part_trees, pass_tree, pattern_view, place_tree, result_tree, return_tree, spanned, stmt_tree,
    stmt_trees, str_part_tree,
};
use crate::types::{
    AliasResult, BindingId, ErrorView, FunctionId, IntW, LoanId, Span, Ty, TyView, broken_at,
    broken_invariant, fault_of, told,
};
use crate::value_categories::{category_of, owns_dynamically};
use vstd::prelude::*;

verus! {

/// What an expression of the resolved tree is.
#[verifier::opaque]
pub open spec fn built_expr(expr: Expr) -> Tree {
    expr_tree(expr)
}

#[verifier::opaque]
pub open spec fn built_place(place: Place) -> Tree {
    place_tree(place)
}

#[verifier::opaque]
pub open spec fn built_stmt(stmt: Stmt) -> Tree {
    stmt_tree(stmt)
}

#[verifier::opaque]
pub open spec fn built_body(body: Body) -> Tree {
    body_tree(body)
}

#[verifier::opaque]
pub open spec fn built_arm(arm: MatchArm) -> Tree {
    arm_tree(arm)
}

#[verifier::opaque]
pub open spec fn built_part(piece: StrPart) -> Tree {
    str_part_tree(piece)
}

#[verifier::opaque]
pub open spec fn built_branch(branch: (Expr, Vec<Stmt>)) -> Tree {
    branch_tree(branch)
}

#[verifier::opaque]
pub open spec fn built_binding(binding: Binding) -> Tree {
    binding_tree(binding)
}

pub open spec fn built_exprs(list: Seq<Expr>) -> Seq<Tree> {
    Seq::new(list.len(), |i: int| built_expr(list[i]))
}

pub open spec fn built_parts(list: Seq<StrPart>) -> Seq<Tree> {
    Seq::new(list.len(), |i: int| built_part(list[i]))
}

pub open spec fn built_arms(list: Seq<MatchArm>) -> Seq<Tree> {
    Seq::new(list.len(), |i: int| built_arm(list[i]))
}

pub open spec fn built_stmts(list: Seq<Stmt>) -> Seq<Tree> {
    Seq::new(list.len(), |i: int| built_stmt(list[i]))
}

pub open spec fn built_branches(list: Seq<(Expr, Vec<Stmt>)>) -> Seq<Tree> {
    Seq::new(list.len(), |i: int| built_branch(list[i]))
}

/// An argument whose pass is not known yet.
#[verifier::opaque]
pub open spec fn built_arg(arg: CallArg) -> Tree {
    arg_tree(arg)
}

pub open spec fn built_args(list: Seq<CallArg>) -> Seq<Tree> {
    Seq::new(list.len(), |i: int| built_arg(list[i]))
}

pub open spec fn absent() -> Tree {
    part(Label::Absent, Seq::empty())
}

/// An expression on which only its type is recorded.
pub open spec fn bare(label: Label, span: Span, ty: TyView, kids: Seq<Tree>) -> Tree {
    Tree {
        label,
        span: Some(span),
        info: Some(
            InfoView { ty, category: None, ownership_capability: None, container_write: None },
        ),
        kids: kids.push(absent()),
    }
}

/// Nodes that hand out a fresh value together with its ownership, as long as no call is known
/// to do so.
pub open spec fn shape_owns(label: Label, ty: TyView) -> bool {
    match label {
        Label::Str => true,
        Label::This => true,
        Label::Typeof(_) => true,
        Label::ArrayLit => true,
        Label::FuncLit(_, _) => true,
        Label::Cast => owns_dynamically(ty),
        Label::Convert(mode) => mode is Convert && owns_dynamically(ty),
        Label::Call(target) => match target {
            CallView::StructConstructor(_, _) => true,
            CallView::ResultConstructor(_) => true,
            CallView::FunctionValue => false,
            CallView::Builtin(builtin) => match builtin {
                BuiltinView::DeepClone(plan) => !(plan is Inline),
                BuiltinView::ShallowClone(_) => true,
                _ => false,
            },
        },
        Label::MethodCall(target) => match target {
            MethodView::StringUpper => true,
            MethodView::StringLower => true,
            MethodView::StringTrim => true,
            MethodView::ArrayIterator => true,
            MethodView::ArrayPop => owns_dynamically(ty),
            _ => false,
        },
        Label::ReadPlace(plan) => !(plan is Inline),
        Label::Move => owns_dynamically(ty),
        _ => false,
    }
}

/// The category that the shape of a new node calls for. An identity conversion has the category
/// of what it converts.
#[verifier::opaque]
pub open spec fn shape_category(label: Label, ty: TyView, kids: Seq<Tree>) -> Option<
    ExprCategory,
> {
    match label {
        Label::Ident(_, Some(_)) => Some(ExprCategory::Place),
        Label::Field(_) => Some(ExprCategory::Place),
        Label::Index(_) => Some(ExprCategory::Place),
        Label::Convert(ResolvedConversion::Identity) => match kids[0].info {
            Some(info) => info.category,
            None => None,
        },
        _ => Some(
            ExprCategory::Value(
                if label is Borrow || label is Refer {
                    ValueCategory::BorrowedValue
                } else if shape_owns(label, ty) {
                    ValueCategory::OwnedTemporary
                } else if ty.is_inline() {
                    ValueCategory::InlineValue
                } else {
                    ValueCategory::General
                },
            ),
        ),
    }
}

/// The ownership that goes with a category, where there is one.
pub open spec fn shape_capability(category: Option<ExprCategory>) -> Option<OwnershipCapability> {
    match category {
        Some(category) => category_capability(category),
        None => None,
    }
}

/// A new node with its category and its ownership written down.
pub open spec fn settled_tree(tree: Tree) -> Tree {
    match tree.info {
        Some(info) => {
            let category = shape_category(tree.label, info.ty, tree.kids);
            Tree {
                info: Some(
                    InfoView {
                        category,
                        ownership_capability: shape_capability(category),
                        ..info
                    },
                ),
                ..tree
            }
        },
        None => tree,
    }
}

/// An expression as it is built: its type, its category and its ownership are recorded.
pub open spec fn plain(label: Label, span: Span, ty: TyView, kids: Seq<Tree>) -> Tree {
    settled_tree(bare(label, span, ty, kids))
}

/// A node on which nothing but its type is recorded.
pub open spec fn is_fresh(expr: Expr) -> bool {
    &&& expr.spec_info().category is None
    &&& expr.spec_info().ownership_capability is None
    &&& match expr {
        Expr::Call { result, .. } => result is None,
        Expr::MethodCall { result, .. } => result is None,
        _ => true,
    }
}

/// Recording the category and the ownership of a node changes nothing else.
proof fn lemma_with_info(expr: Expr, info: ExprInfo)
    requires
        info.return_pass == expr.spec_info().return_pass,
    ensures
        expr_tree(with_info(expr, info)) == (Tree {
            info: Some(info_view(info)),
            ..expr_tree(expr)
        }),
{
    reveal_with_fuel(expr_tree, 2);
}

/// The shape of a new node calls for the category that the node calls for.
proof fn lemma_shape(expr: Expr)
    requires
        is_fresh(expr),
    ensures
        shape_category(expr_tree(expr).label, expr.tyv(), expr_tree(expr).kids) == match category_of(
            expr,
        ) {
            Ok(category) => Some(category),
            Err(_) => None,
        },
{
    reveal(shape_category);
    match expr {
        Expr::Convert { expr: inner, .. } => {
            lemma_expr_head(*inner);
        },
        Expr::ReadPlace { plan, .. } => {
            assert(plan@ is Inline <==> plan is Inline);
        },
        Expr::Call { target, .. } => match target {
            CallTarget::Builtin(BuiltinCall::DeepClone(plan)) => {
                assert(plan@ is Inline <==> plan is Inline);
            },
            _ => {},
        },
        _ => {},
    }
}

/// Writes down the category and the ownership of a new node.
fn settled(expr: Expr) -> (r: Expr)
    requires
        is_fresh(expr),
    ensures
        built_expr(r) == settled_tree(built_expr(expr)),
{
    let mut expr = expr;
    proof {
        reveal(built_expr);
        lemma_shape(expr);
        lemma_expr_head(expr);
        let category = match category_of(expr) {
            Ok(category) => Some(category),
            Err(_) => None,
        };
        lemma_with_info(
            expr,
            ExprInfo {
                category,
                ownership_capability: shape_capability(category),
                ..expr.spec_info()
            },
        );
        lemma_with_info(expr, expr.spec_info());
    }
    match crate::value_categories::finalize(&mut expr) {
        Ok(()) => {
            let _ = crate::ownership_capabilities::finalize(&mut expr);
        },
        Err(_) => {},
    }
    expr
}

pub open spec fn arg_part(value: Tree) -> Tree {
    part(Label::Arg, seq![value, absent()])
}

pub open spec fn call_tree(
    callee: Tree,
    args: Seq<Tree>,
    target: CallView,
    span: Span,
    ty: TyView,
) -> Tree {
    plain(Label::Call(target), span, ty, seq![callee, part(Label::List, args), absent()])
}

pub open spec fn method_tree(
    recv: Tree,
    args: Seq<Tree>,
    target: MethodView,
    span: Span,
    ty: TyView,
) -> Tree {
    plain(
        Label::MethodCall(target),
        span,
        ty,
        seq![recv, absent(), part(Label::List, args), absent()],
    )
}

/// What is not known yet is absent.
proof fn lemma_absent()
    ensures
        return_tree(None) == absent(),
        result_tree(None) == absent(),
        pass_tree(None) == absent(),
{
}

pub fn new_info(ty: Ty) -> (r: ExprInfo)
    ensures
        r.ty == ty,
        r.category is None,
        r.ownership_capability is None,
        r.container_write is None,
        r.return_pass is None,
{
    ExprInfo {
        ty,
        category: None,
        ownership_capability: None,
        container_write: None,
        return_pass: None,
    }
}

pub fn int_node(value: u64, span: Span, ty: Ty) -> (r: Expr)
    ensures
        built_expr(r) == plain(Label::Int(value), span, ty@, Seq::empty()),
{
    proof {
        reveal(built_expr);
        lemma_absent();
    }
    settled(Expr::Int(value, span, new_info(ty)))
}

pub fn float_node(value: u64, span: Span, ty: Ty) -> (r: Expr)
    ensures
        built_expr(r) == plain(Label::Float(value), span, ty@, Seq::empty()),
{
    proof {
        reveal(built_expr);
        lemma_absent();
    }
    settled(Expr::Float(value, span, new_info(ty)))
}

pub fn bool_node(value: bool, span: Span, ty: Ty) -> (r: Expr)
    ensures
        built_expr(r) == plain(Label::Bool(value), span, ty@, Seq::empty()),
{
    proof {
        reveal(built_expr);
        lemma_absent();
    }
    settled(Expr::Bool(value, span, new_info(ty)))
}

pub fn ident_node(name: String, id: Option<BindingId>, span: Span, ty: Ty) -> (r: Expr)
    ensures
        built_expr(r) == plain(Label::Ident(name@, id), span, ty@, Seq::empty()),
{
    proof {
        reveal(built_expr);
        lemma_absent();
    }
    settled(Expr::Ident(name, id, span, new_info(ty)))
}

pub fn this_node(span: Span, ty: Ty) -> (r: Expr)
    ensures
        built_expr(r) == plain(Label::This, span, ty@, Seq::empty()),
{
    proof {
        reveal(built_expr);
        lemma_absent();
    }
    settled(Expr::This(span, new_info(ty)))
}

pub fn cast_node(inner: Expr, span: Span, ty: Ty) -> (r: Expr)
    ensures
        built_expr(r) == plain(Label::Cast, span, ty@, seq![built_expr(inner)]),
{
    proof {
        reveal(built_expr);
        lemma_absent();
    }
    settled(Expr::Cast { expr: Box::new(inner), span, info: new_info(ty) })
}

pub fn neg_node(inner: Expr, span: Span, ty: Ty) -> (r: Expr)
    ensures
        built_expr(r) == plain(Label::Neg, span, ty@, seq![built_expr(inner)]),
{
    proof {
        reveal(built_expr);
        lemma_absent();
    }
    settled(Expr::Neg { expr: Box::new(inner), span, info: new_info(ty) })
}

pub fn not_node(inner: Expr, span: Span, ty: Ty) -> (r: Expr)
    ensures
        built_expr(r) == plain(Label::Not, span, ty@, seq![built_expr(inner)]),
{
    proof {
        reveal(built_expr);
        lemma_absent();
    }
    settled(Expr::Not { expr: Box::new(inner), span, info: new_info(ty) })
}

pub fn bit_not_node(inner: Expr, span: Span, ty: Ty) -> (r: Expr)
    ensures
        built_expr(r) == plain(Label::BitNot, span, ty@, seq![built_expr(inner)]),
{
    proof {
        reveal(built_expr);
        lemma_absent();
    }
    settled(Expr::BitNot { expr: Box::new(inner), span, info: new_info(ty) })
}

pub fn propagate_node(inner: Expr, span: Span, ty: Ty) -> (r: Expr)
    ensures
        built_expr(r) == plain(Label::Propagate, span, ty@, seq![built_expr(inner)]),
{
    proof {
        reveal(built_expr);
        lemma_absent();
    }
    settled(Expr::Propagate { expr: Box::new(inner), span, info: new_info(ty) })
}

pub fn convert_node(inner: Expr, mode: ResolvedConversion, span: Span, ty: Ty) -> (r: Expr)
    ensures
        built_expr(r) == plain(Label::Convert(mode), span, ty@, seq![built_expr(inner)]),
{
    proof {
        reveal(built_expr);
        lemma_absent();
    }
    settled(Expr::Convert { expr: Box::new(inner), mode, span, info: new_info(ty) })
}

pub fn typeof_node(named: String, span: Span, ty: Ty) -> (r: Expr)
    ensures
        built_expr(r) == plain(Label::Typeof(named@), span, ty@, Seq::empty()),
{
    proof {
        reveal(built_expr);
        lemma_absent();
    }
    settled(Expr::Typeof { named, span, info: new_info(ty) })
}

pub fn binary_node(op: BinOp, left: Expr, right: Expr, span: Span, ty: Ty) -> (r: Expr)
    ensures
        built_expr(r) == plain(
            Label::Binary(op, None),
            span,
            ty@,
            seq![built_expr(left), built_expr(right)],
        ),
{
    proof {
        reveal(built_expr);
        lemma_absent();
    }
    settled(
        Expr::Binary {
            op,
            lhs: Box::new(left),
            rhs: Box::new(right),
            pointer_offset_source: None,
            span,
            info: new_info(ty),
        },
    )
}

/// The value of an index that is written out, as far as the tree of the index shows it.
pub open spec fn written_index(index: Tree) -> Option<int>
    decreases index,
{
    match (index.info, index.label) {
        (Some(info), Label::Int(value)) => if info.ty == TyView::Int(IntW::W32) && value
            <= i32::MAX {
            Some(value as int)
        } else {
            None
        },
        (Some(info), Label::Neg) => if info.ty == TyView::Int(IntW::W32) && index.kids.len() > 0 {
            match index.kids[0].label {
                Label::Int(value) => if -(value as int) >= i32::MIN {
                    Some(-(value as int))
                } else {
                    None
                },
                _ => None,
            }
        } else {
            None
        },
        (Some(info), Label::Convert(ResolvedConversion::Identity)) => if info.ty == TyView::Int(
            IntW::W32,
        ) && index.kids.len() > 0 {
            written_index(index.kids[0])
        } else {
            None
        },
        _ => None,
    }
}

/// Whether an index has to be tested when the program runs. Picking from an array that is written
/// out with an index that is written out needs no test, or never works.
pub open spec fn index_check(recv: Tree, index: Tree, span: Span) -> Result<
    RuntimeCheckRequirement,
    ErrorView,
> {
    match (recv.label, written_index(index)) {
        (Label::ArrayLit, Some(value)) => if 0 <= value < recv.kids.len() - 1 {
            Ok(RuntimeCheckRequirement::Proven)
        } else {
            Err(told(span, "数组字面量的常量下标越界"@))
        },
        _ => Ok(RuntimeCheckRequirement::Required),
    }
}

proof fn lemma_written_index(index: Expr)
    ensures
        written_index(expr_tree(index)) == constant_index(index),
    decreases index,
{
    lemma_expr_head(index);
    match index {
        Expr::Neg { expr: inner, .. } => {
            lemma_expr_head(*inner);
            assert(expr_tree(index).kids[0] == expr_tree(*inner));
            reveal_with_fuel(expr_tree, 2);
        },
        Expr::Convert { expr: inner, .. } => {
            lemma_written_index(*inner);
            assert(expr_tree(index).kids[0] == expr_tree(*inner));
        },
        _ => {},
    }
}

/// The tree of an array that is written out has a part for each element and one more.
proof fn lemma_elements(array: Expr)
    ensures
        expr_tree(array).label is ArrayLit <==> array is ArrayLit,
        array matches Expr::ArrayLit { elems, .. } ==> expr_tree(array).kids.len() == elems@.len()
            + 1,
{
    match array {
        Expr::ArrayLit { elems, .. } => {
            assert(expr_trees(elems@).len() == elems@.len());
        },
        _ => {},
    }
}

pub fn index_node(recv: Expr, idx: Expr, span: Span, ty: Ty) -> (r: AliasResult<Expr>)
    ensures
        match index_check(built_expr(recv), built_expr(idx), span) {
            Ok(check) => r matches Ok(node) && built_expr(node) == plain(
                Label::Index(check),
                span,
                ty@,
                seq![built_expr(recv), built_expr(idx)],
            ),
            Err(error) => fault_of(r) == Some(error),
        },
{
    proof {
        reveal(built_expr);
        lemma_absent();
        lemma_written_index(idx);
        lemma_elements(recv);
    }
    match array_index(&recv, &idx, span) {
        Ok(bounds_check) => Ok(
            settled(
                Expr::Index {
                    recv: Box::new(recv),
                    idx: Box::new(idx),
                    bounds_check,
                    span,
                    info: new_info(ty),
                },
            ),
        ),
        Err(error) => Err(error),
    }
}

pub fn ternary_node(cond: Expr, left: Expr, right: Expr, span: Span, ty: Ty) -> (r: Expr)
    ensures
        built_expr(r) == plain(
            Label::Ternary,
            span,
            ty@,
            seq![built_expr(cond), built_expr(left), built_expr(right)],
        ),
{
    proof {
        reveal(built_expr);
        lemma_absent();
    }
    settled(
        Expr::Ternary {
            cond: Box::new(cond),
            then_expr: Box::new(left),
            else_expr: Box::new(right),
            span,
            info: new_info(ty),
        },
    )
}

pub fn field_node(recv: Expr, field_index: usize, span: Span, ty: Ty) -> (r: Expr)
    ensures
        built_expr(r) == plain(Label::Field(field_index), span, ty@, seq![built_expr(recv)]),
{
    proof {
        reveal(built_expr);
        lemma_absent();
    }
    settled(Expr::Field { recv: Box::new(recv), field_index, span, info: new_info(ty) })
}

pub fn str_node(parts: Vec<StrPart>, span: Span, ty: Ty) -> (r: Expr)
    ensures
        built_expr(r) == plain(Label::Str, span, ty@, built_parts(parts@)),
{
    proof {
        reveal(built_expr);
        lemma_absent();
        reveal(built_part);
        assert(part_trees(parts@) =~= built_parts(parts@));
    }
    settled(Expr::Str(parts, span, new_info(ty)))
}

pub fn array_node(elems: Vec<Expr>, span: Span, ty: Ty) -> (r: Expr)
    ensures
        built_expr(r) == plain(Label::ArrayLit, span, ty@, built_exprs(elems@)),
{
    proof {
        reveal(built_expr);
        lemma_absent();
        assert(expr_trees(elems@) =~= built_exprs(elems@));
    }
    settled(Expr::ArrayLit { elems, span, info: new_info(ty) })
}

pub fn match_node(subject: Expr, arms: Vec<MatchArm>, span: Span, ty: Ty) -> (r: Expr)
    ensures
        built_expr(r) == plain(
            Label::Match,
            span,
            ty@,
            seq![built_expr(subject), part(Label::List, built_arms(arms@))],
        ),
{
    proof {
        reveal(built_expr);
        lemma_absent();
        reveal(built_arm);
        assert(match_trees(arms@) =~= built_arms(arms@));
    }
    settled(Expr::Match { subject: Box::new(subject), arms, span, info: new_info(ty) })
}

pub fn read_node(source: Place, plan: DeepClonePlan, span: Span, ty: Ty) -> (r: Expr)
    ensures
        built_expr(r) == plain(Label::ReadPlace(plan@), span, ty@, seq![built_place(source)]),
{
    proof {
        reveal(built_expr);
        lemma_absent();
        reveal(built_place);
    }
    settled(Expr::ReadPlace { source: Box::new(source), plan, span, info: new_info(ty) })
}

pub fn move_node(source: Place, span: Span, ty: Ty) -> (r: Expr)
    ensures
        built_expr(r) == plain(Label::Move, span, ty@, seq![built_place(source)]),
{
    proof {
        reveal(built_expr);
        lemma_absent();
        reveal(built_place);
    }
    settled(Expr::Move { source: Box::new(source), span, info: new_info(ty) })
}

pub fn borrow_node(loan_id: LoanId, source: Place, span: Span, ty: Ty) -> (r: Expr)
    ensures
        built_expr(r) == plain(
            Label::Borrow(loan_id, None),
            span,
            ty@,
            seq![built_place(source)],
        ),
{
    proof {
        reveal(built_expr);
        lemma_absent();
        reveal(built_place);
    }
    settled(
        Expr::Borrow { loan_id, source: Box::new(source), kind: None, span, info: new_info(ty) },
    )
}

pub fn call_node(callee: Expr, args: Vec<CallArg>, target: CallTarget, span: Span, ty: Ty) -> (r:
    Expr)
    ensures
        built_expr(r) == call_tree(
            built_expr(callee),
            built_args(args@),
            call_view(target),
            span,
            ty@,
        ),
{
    proof {
        reveal(built_expr);
        lemma_absent();
        reveal(built_arg);
        assert(arg_trees(args@) =~= built_args(args@));
    }
    settled(
        Expr::Call { callee: Box::new(callee), args, result: None, target, span, info: new_info(ty) },
    )
}

pub fn method_node(recv: Expr, args: Vec<CallArg>, target: MethodTarget, span: Span, ty: Ty) -> (r:
    Expr)
    ensures
        built_expr(r) == method_tree(
            built_expr(recv),
            built_args(args@),
            method_view(target),
            span,
            ty@,
        ),
{
    proof {
        reveal(built_expr);
        lemma_absent();
        reveal(built_arg);
        assert(arg_trees(args@) =~= built_args(args@));
    }
    settled(
        Expr::MethodCall {
            recv: Box::new(recv),
            receiver_pass: None,
            args,
            result: None,
            target,
            span,
            info: new_info(ty),
        },
    )
}

pub fn arg_node(value: Expr) -> (r: CallArg)
    ensures
        built_arg(r) == arg_part(built_expr(value)),
{
    proof {
        reveal(built_expr);
        lemma_absent();
        reveal(built_arg);
    }
    CallArg { value, pass: None }
}

pub fn function_node(
    function_id: FunctionId,
    params: Vec<Param>,
    body: Body,
    span: Span,
    ty: Ty,
) -> (r: Expr)
    ensures
        built_expr(r) == plain(
            Label::FuncLit(function_id, Seq::empty()),
            span,
            ty@,
            seq![
                part(Label::List, param_trees(params@)),
                part(Label::List, Seq::empty()),
                built_body(body),
            ],
        ),
{
    let implicit_bindings: Vec<BindingId> = Vec::new();
    let captures = Vec::new();
    proof {
        reveal(built_expr);
        lemma_absent();
        reveal(built_body);
        assert(implicit_bindings@ =~= Seq::empty());
        assert(capture_trees(captures@) =~= Seq::empty());
    }
    settled(
        Expr::FuncLit {
            function_id,
            params,
            implicit_bindings,
            captures,
            body: Box::new(body),
            span,
            info: new_info(ty),
        },
    )
}

pub fn local_place(binding_id: BindingId, ty: Ty, span: Span) -> (r: Place)
    ensures
        built_place(r) == spanned(Label::LocalPlace(binding_id, ty@), span, Seq::empty()),
{
    proof {
        reveal(built_place);
    }
    Place::Local { binding_id, info: PlaceInfo { ty, span } }
}

pub fn field_place(base: Place, field_index: usize, ty: Ty, span: Span) -> (r: Place)
    ensures
        built_place(r) == spanned(
            Label::FieldPlace(field_index, ty@),
            span,
            seq![built_place(base)],
        ),
{
    proof {
        reveal(built_place);
    }
    Place::Field { base: Box::new(base), field_index, info: PlaceInfo { ty, span } }
}

pub fn index_place(base: Place, index: Expr, ty: Ty, span: Span) -> (r: Place)
    ensures
        built_place(r) == spanned(
            Label::IndexPlace(ty@, RuntimeCheckRequirement::Required),
            span,
            seq![built_place(base), built_expr(index)],
        ),
{
    proof {
        reveal(built_place);
        reveal(built_expr);
        lemma_absent();
    }
    let bounds_check = array_place_index(&base, &index);
    Place::Index {
        base: Box::new(base),
        index: Box::new(index),
        bounds_check,
        info: PlaceInfo { ty, span },
    }
}

pub fn lit_part(text: String) -> (r: StrPart)
    ensures
        built_part(r) == part(Label::Lit(text@), Seq::empty()),
{
    proof {
        reveal(built_part);
    }
    StrPart::Lit(text)
}

pub fn hole_part(hole: Expr) -> (r: StrPart)
    ensures
        built_part(r) == part(Label::Hole, seq![built_expr(hole)]),
{
    proof {
        reveal(built_part);
        reveal(built_expr);
        lemma_absent();
    }
    StrPart::Hole(Box::new(hole))
}

proof fn lemma_stmts(list: Seq<Stmt>)
    ensures
        stmt_trees(list) == built_stmts(list),
{
    reveal(built_stmt);
    assert(stmt_trees(list) =~= built_stmts(list));
}

proof fn lemma_branches(list: Seq<(Expr, Vec<Stmt>)>)
    ensures
        branch_trees(list) == built_branches(list),
{
    reveal(built_branch);
    assert(branch_trees(list) =~= built_branches(list));
}

pub fn branch_node(cond: Expr, body: Vec<Stmt>) -> (r: (Expr, Vec<Stmt>))
    ensures
        built_branch(r) == part(
            Label::Branch,
            seq![built_expr(cond), part(Label::List, built_stmts(body@))],
        ),
{
    proof {
        reveal(built_branch);
        reveal(built_expr);
        lemma_absent();
        lemma_stmts(body@);
    }
    (cond, body)
}

pub open spec fn arm_label(pattern: Pattern, binding_id: Option<BindingId>) -> Label {
    Label::Arm(pattern_view(pattern), binding_id, None)
}

pub fn block_arm(pattern: Pattern, binding_id: Option<BindingId>, stmts: Vec<Stmt>) -> (r: MatchArm)
    ensures
        built_arm(r) == part(
            arm_label(pattern, binding_id),
            seq![part(Label::ArmBlock, built_stmts(stmts@))],
        ),
{
    proof {
        reveal(built_arm);
        lemma_stmts(stmts@);
    }
    MatchArm { pattern, binding_id, binding_operation: None, body: ArmBody::Block(stmts) }
}

pub fn value_arm(pattern: Pattern, binding_id: Option<BindingId>, value: Expr) -> (r: MatchArm)
    ensures
        built_arm(r) == part(
            arm_label(pattern, binding_id),
            seq![part(Label::ArmValue, seq![built_expr(value)])],
        ),
{
    proof {
        reveal(built_arm);
        reveal(built_expr);
        lemma_absent();
    }
    MatchArm { pattern, binding_id, binding_operation: None, body: ArmBody::Value(Box::new(value)) }
}

pub fn ret_arm(pattern: Pattern, binding_id: Option<BindingId>, value: Expr) -> (r: MatchArm)
    ensures
        built_arm(r) == part(
            arm_label(pattern, binding_id),
            seq![part(Label::ArmRet, seq![built_expr(value)])],
        ),
{
    proof {
        reveal(built_arm);
        reveal(built_expr);
        lemma_absent();
    }
    MatchArm { pattern, binding_id, binding_operation: None, body: ArmBody::Ret(Box::new(value)) }
}

pub fn block_body(stmts: Vec<Stmt>) -> (r: Body)
    ensures
        built_body(r) == part(Label::Block, built_stmts(stmts@)),
{
    proof {
        reveal(built_body);
        lemma_stmts(stmts@);
    }
    Body::Block(stmts)
}

pub fn single_body(stmt: Stmt) -> (r: Body)
    ensures
        built_body(r) == part(Label::Single, seq![built_stmt(stmt)]),
{
    proof {
        reveal(built_body);
        reveal(built_stmt);
    }
    Body::Single(Box::new(stmt))
}

pub open spec fn assign_tree(place: Tree, value: Tree) -> Tree {
    part(Label::Assign(None, None), seq![place, value])
}

pub fn assign_stmt(target: Place, value: Expr) -> (r: Stmt)
    ensures
        built_stmt(r) == assign_tree(built_place(target), built_expr(value)),
{
    proof {
        reveal(built_stmt);
        reveal(built_place);
        reveal(built_expr);
        lemma_absent();
    }
    Stmt::Assign { target, value, operation: None, destroy_plan: None }
}

pub fn binding_stmt(binding: Binding) -> (r: Stmt)
    ensures
        built_stmt(r) == part(Label::BindingStmt, seq![built_binding(binding)]),
{
    proof {
        reveal(built_stmt);
        reveal(built_binding);
    }
    Stmt::Binding(binding)
}

pub fn expr_stmt(expr: Expr) -> (r: Stmt)
    ensures
        built_stmt(r) == part(Label::ExprStmt, seq![built_expr(expr)]),
{
    proof {
        reveal(built_stmt);
        reveal(built_expr);
        lemma_absent();
    }
    Stmt::Expr { expr }
}

pub fn return_stmt(value: Option<Expr>) -> (r: Stmt)
    ensures
        built_stmt(r) == match value {
            Some(value) => part(Label::Return, seq![built_expr(value)]),
            None => part(Label::Return, Seq::empty()),
        },
{
    proof {
        reveal(built_stmt);
        reveal(built_expr);
        lemma_absent();
    }
    Stmt::Return { value }
}

proof fn lemma_if(branches: Vec<(Expr, Vec<Stmt>)>)
    ensures
        stmt_tree(Stmt::If { branches, else_body: None }) == part(
            Label::If,
            seq![part(Label::List, branch_trees(branches@)), absent()],
        ),
{
}

proof fn lemma_if_else(branches: Vec<(Expr, Vec<Stmt>)>, body: Vec<Stmt>)
    ensures
        stmt_tree(Stmt::If { branches, else_body: Some(body) }) == part(
            Label::If,
            seq![
                part(Label::List, branch_trees(branches@)),
                part(Label::List, stmt_trees(body@)),
            ],
        ),
{
}

pub fn if_stmt(branches: Vec<(Expr, Vec<Stmt>)>) -> (r: Stmt)
    ensures
        built_stmt(r) == part(
            Label::If,
            seq![part(Label::List, built_branches(branches@)), absent()],
        ),
{
    proof {
        lemma_branches(branches@);
        lemma_if(branches);
        reveal(built_stmt);
    }
    Stmt::If { branches, else_body: None }
}

pub fn if_else_stmt(branches: Vec<(Expr, Vec<Stmt>)>, body: Vec<Stmt>) -> (r: Stmt)
    ensures
        built_stmt(r) == part(
            Label::If,
            seq![
                part(Label::List, built_branches(branches@)),
                part(Label::List, built_stmts(body@)),
            ],
        ),
{
    proof {
        lemma_branches(branches@);
        lemma_stmts(body@);
        lemma_if_else(branches, body);
        reveal(built_stmt);
    }
    Stmt::If { branches, else_body: Some(body) }
}

pub fn while_stmt(cond: Expr, body: Vec<Stmt>) -> (r: Stmt)
    ensures
        built_stmt(r) == part(
            Label::While,
            seq![built_expr(cond), part(Label::List, built_stmts(body@))],
        ),
{
    proof {
        reveal(built_stmt);
        reveal(built_expr);
        lemma_absent();
        lemma_stmts(body@);
    }
    Stmt::While { cond, body }
}

pub fn for_stmt(
    binding_id: BindingId,
    ty: Ty,
    element_plan: DeepClonePlan,
    iterable: Expr,
    body: Vec<Stmt>,
    span: Span,
) -> (r: Stmt)
    ensures
        built_stmt(r) == spanned(
            Label::For(binding_id, ty@, element_plan@),
            span,
            seq![built_expr(iterable), part(Label::List, built_stmts(body@))],
        ),
{
    proof {
        reveal(built_stmt);
        reveal(built_expr);
        lemma_absent();
        lemma_stmts(body@);
    }
    Stmt::For { binding_id, ty, element_plan, iterable, body, span }
}

pub fn break_stmt() -> (r: Stmt)
    ensures
        built_stmt(r) == part(Label::Break, Seq::empty()),
{
    proof {
        reveal(built_stmt);
    }
    Stmt::Break
}

pub fn continue_stmt() -> (r: Stmt)
    ensures
        built_stmt(r) == part(Label::Continue, Seq::empty()),
{
    proof {
        reveal(built_stmt);
    }
    Stmt::Continue
}

/// What the slot of a variable holds, as far as its first value settles it.
pub open spec fn value_relation(value: Tree) -> Option<StorageRelation> {
    match value.info {
        Some(info) => match info.category {
            Some(ExprCategory::Value(ValueCategory::InlineValue)) => Some(StorageRelation::Owning),
            Some(ExprCategory::Value(ValueCategory::OwnedTemporary)) => Some(
                StorageRelation::Owning,
            ),
            Some(ExprCategory::Value(ValueCategory::BorrowedValue)) => Some(
                StorageRelation::Borrowed,
            ),
            Some(ExprCategory::Place) => if info.ty.is_inline() {
                Some(StorageRelation::Owning)
            } else {
                None
            },
            _ => None,
        },
        None => None,
    }
}

pub open spec fn fresh_binding(
    binding_id: BindingId,
    owner: OwnerView,
    kind: BindKind,
    ty: TyView,
    name: Seq<char>,
    span: Span,
    value: Tree,
) -> Tree {
    spanned(
        Label::Binding {
            binding_id,
            owner,
            kind,
            relation: value_relation(value),
            operation: None,
            destroy_plan: None,
            ty,
            name,
        },
        span,
        seq![value],
    )
}

pub fn binding_node(
    binding_id: BindingId,
    owner: BindingOwner,
    kind: BindKind,
    ty: Ty,
    name: String,
    value: Expr,
    span: Span,
) -> (r: Binding)
    ensures
        built_binding(r) == fresh_binding(
            binding_id,
            owner_view(owner),
            kind,
            ty@,
            name@,
            span,
            built_expr(value),
        ),
{
    proof {
        reveal(built_binding);
        reveal(built_expr);
        lemma_absent();
        lemma_expr_head(value);
    }
    let relation = match initial_relation(&value) {
        Ok(relation) => relation,
        Err(_) => None,
    };
    Binding {
        binding_id,
        owner,
        kind,
        relation,
        operation: None,
        destroy_plan: None,
        ty,
        name,
        value,
        span,
    }
}

/// The value of a method: a function literal that gets the receiver as its first parameter.
pub open spec fn method_value(owner: OwnerView, value: Tree, span: Span) -> Result<Tree, ErrorView> {
    match owner {
        OwnerView::Ordinary => Ok(value),
        OwnerView::Method(_, self_id, _) => match value.label {
            Label::FuncLit(function_id, implicit) => Ok(
                Tree { label: Label::FuncLit(function_id, implicit.push(self_id)), ..value },
            ),
            _ => Err(broken_at(span, "方法值不是 FuncLit"@)),
        },
    }
}

/// Gives a method its receiver.
pub fn add_self(owner: &BindingOwner, value: &mut Expr, span: Span) -> (r: AliasResult<()>)
    ensures
        match method_value(owner_view(*owner), built_expr(*old(value)), span) {
            Ok(tree) => r is Ok && built_expr(*final(value)) == tree,
            Err(error) => fault_of(r) == Some(error),
        },
{
    proof {
        reveal(built_expr);
        lemma_absent();
    }
    if let BindingOwner::Method { self_id, .. } = owner {
        match value {
            Expr::FuncLit { implicit_bindings, .. } => {
                implicit_bindings.push(*self_id);
            },
            _ => {
                return Err(broken_invariant(span, "方法值不是 FuncLit"));
            },
        }
    }
    Ok(())
}

/// The type of an expression is in its tree.
pub proof fn lemma_built_type(expr: Expr)
    ensures
        built_expr(expr).info is Some,
        (built_expr(expr).info->0).ty == expr.tyv(),
{
    reveal(built_expr);
    lemma_expr_head(expr);
}

} // verus!
