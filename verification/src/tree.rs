//! Programs as plain trees, and copies of them.

use crate::deep_clone::DeepPlanView;
use crate::destruction::DestroyView;
use crate::model::{
    ArgumentPass, ArmBody, AssignmentOperation, BinOp, BindKind, Binding, BindingOperation,
    BindingOwner, Body, BorrowKind, BuiltinCall, CallArg, CallResult, CallTarget, Capture, CtorKind,
    DestroyNode, DestroyPlan, Expr, ExprCategory, ExprInfo, MatchArm, MethodTarget,
    OwnershipCapability, OwningWrite, Param, Pattern, PatternBindingOperation, Place, PlaceInfo,
    PointerViewSource, ResolvedConversion, ReturnPass, RuntimeCheckRequirement, Stmt,
    StorageRelation, StrPart,
};
use crate::ownership_operations::destroy_view;
use crate::pattern_bindings::{OperationView, operation_view};
use crate::shallow_clone::ShallowPlanView;
use crate::types::{
    BindingId, FunctionId, LoanId, MethodId, ParamEffect, ReturnBorrowSource, ReturnEffect, Span,
    TyView, copy_effects, effects_view,
};
use vstd::prelude::*;

verus! {

/// The facts recorded on an expression, as plain values.
pub struct InfoView {
    pub ty: TyView,
    pub category: Option<ExprCategory>,
    pub ownership_capability: Option<OwnershipCapability>,
    pub container_write: Option<OwningWrite>,
}

pub enum BuiltinView {
    Print,
    Println,
    Increase,
    Decrease,
    DeepClone(DeepPlanView),
    ShallowClone(ShallowPlanView),
}

pub enum CallView {
    FunctionValue,
    StructConstructor(Seq<char>, Seq<usize>),
    ResultConstructor(CtorKind),
    Builtin(BuiltinView),
}

pub enum MethodView {
    Numeric(BinOp),
    BoolNot,
    StringLen,
    StringUpper,
    StringLower,
    StringTrim,
    ArrayLen,
    ArrayPush,
    ArrayPop,
    ArrayIterator,
    User(TyView, MethodId, Option<Seq<ParamEffect>>, Option<ReturnEffect>),
}

pub enum PatternView {
    Wildcard(Span),
    Binding(Seq<char>, Span),
    Int(i128, Span),
    Bool(bool, Span),
    Str(Seq<char>, Span),
    Constructor(CtorKind, Option<Seq<char>>, Span),
}

pub enum OwnerView {
    Ordinary,
    Method(MethodId, BindingId, TyView),
}

/// What a node of a tree is.
pub enum Label {
    Int(u64),
    Float(u64),
    Bool(bool),
    Str,
    Ident(Seq<char>, Option<BindingId>),
    This,
    Cast,
    Convert(ResolvedConversion),
    Typeof(Seq<char>),
    Binary(BinOp, Option<PointerViewSource>),
    Neg,
    Not,
    BitNot,
    Ternary,
    Call(CallView),
    MethodCall(MethodView),
    Field(usize),
    Index(RuntimeCheckRequirement),
    ArrayLit,
    FuncLit(FunctionId, Seq<BindingId>),
    Match,
    Propagate,
    ReadPlace(DeepPlanView),
    Borrow(LoanId, Option<BorrowKind>),
    Refer(LoanId, Option<BorrowKind>),
    Move,
    Absent,
    List,
    LocalPlace(BindingId, TyView),
    FieldPlace(usize, TyView),
    IndexPlace(TyView, RuntimeCheckRequirement),
    Lit(Seq<char>),
    Hole,
    Arg,
    PassInline,
    PassRead(LoanId),
    PassWrite(LoanId),
    PassTemporary(BorrowKind),
    PassOwned,
    ResultInline,
    ResultOwned,
    ResultBorrowed(LoanId, bool, Option<BorrowKind>),
    ReturnInline,
    ReturnOwned,
    ReturnTransfer,
    ReturnPlace(ReturnBorrowSource),
    ReturnValue(ReturnBorrowSource),
    Param(BindingId, TyView, Option<ParamEffect>),
    Capture(BindingId, LoanId, Option<BorrowKind>),
    Block,
    Single,
    ArmBlock,
    ArmValue,
    ArmRet,
    Arm(PatternView, Option<BindingId>, Option<OperationView>),
    BindingStmt,
    Binding {
        binding_id: BindingId,
        owner: OwnerView,
        kind: BindKind,
        relation: Option<StorageRelation>,
        operation: Option<BindingOperation>,
        destroy_plan: Option<Seq<DestroyView>>,
        ty: TyView,
        name: Seq<char>,
    },
    Assign(Option<AssignmentOperation>, Option<Seq<DestroyView>>),
    ExprStmt,
    Return,
    If,
    Branch,
    While,
    For(BindingId, TyView, DeepPlanView),
    Break,
    Continue,
}

/// A tree of plain values: what the node is, where it stands in the source, what is recorded on it,
/// and the nodes below it.
pub struct Tree {
    pub label: Label,
    pub span: Option<Span>,
    pub info: Option<InfoView>,
    pub kids: Seq<Tree>,
}

/// A node with nothing recorded on it.
pub open spec fn part(label: Label, kids: Seq<Tree>) -> Tree {
    Tree { label, span: None, info: None, kids }
}

pub open spec fn spanned(label: Label, span: Span, kids: Seq<Tree>) -> Tree {
    Tree { label, span: Some(span), info: None, kids }
}

pub open spec fn info_view(info: ExprInfo) -> InfoView {
    InfoView {
        ty: info.ty@,
        category: info.category,
        ownership_capability: info.ownership_capability,
        container_write: info.container_write,
    }
}

pub open spec fn builtin_view(builtin: BuiltinCall) -> BuiltinView {
    match builtin {
        BuiltinCall::Print => BuiltinView::Print,
        BuiltinCall::Println => BuiltinView::Println,
        BuiltinCall::Increase => BuiltinView::Increase,
        BuiltinCall::Decrease => BuiltinView::Decrease,
        BuiltinCall::DeepClone(plan) => BuiltinView::DeepClone(plan@),
        BuiltinCall::ShallowClone(plan) => BuiltinView::ShallowClone(plan@),
    }
}

pub open spec fn call_view(target: CallTarget) -> CallView {
    match target {
        CallTarget::FunctionValue => CallView::FunctionValue,
        CallTarget::StructConstructor { name, arg_field_indices } => CallView::StructConstructor(
            name@,
            arg_field_indices@,
        ),
        CallTarget::ResultConstructor(ctor) => CallView::ResultConstructor(ctor),
        CallTarget::Builtin(builtin) => CallView::Builtin(builtin_view(builtin)),
    }
}

pub open spec fn method_view(target: MethodTarget) -> MethodView {
    match target {
        MethodTarget::Numeric(op) => MethodView::Numeric(op),
        MethodTarget::BoolNot => MethodView::BoolNot,
        MethodTarget::StringLen => MethodView::StringLen,
        MethodTarget::StringUpper => MethodView::StringUpper,
        MethodTarget::StringLower => MethodView::StringLower,
        MethodTarget::StringTrim => MethodView::StringTrim,
        MethodTarget::ArrayLen => MethodView::ArrayLen,
        MethodTarget::ArrayPush => MethodView::ArrayPush,
        MethodTarget::ArrayPop => MethodView::ArrayPop,
        MethodTarget::ArrayIterator => MethodView::ArrayIterator,
        MethodTarget::User { receiver, id, param_effects, return_effect } => MethodView::User(
            receiver@,
            id,
            effects_view(param_effects),
            return_effect,
        ),
    }
}

pub open spec fn text_view(text: Option<String>) -> Option<Seq<char>> {
    match text {
        Some(text) => Some(text@),
        None => None,
    }
}

pub open spec fn pattern_view(pattern: Pattern) -> PatternView {
    match pattern {
        Pattern::Wildcard { span } => PatternView::Wildcard(span),
        Pattern::Binding { name, span } => PatternView::Binding(name@, span),
        Pattern::Int { value, span } => PatternView::Int(value, span),
        Pattern::Bool { value, span } => PatternView::Bool(value, span),
        Pattern::Str { value, span } => PatternView::Str(value@, span),
        Pattern::Constructor { ctor, binding, span } => PatternView::Constructor(
            ctor,
            text_view(binding),
            span,
        ),
    }
}

pub open spec fn owner_view(owner: BindingOwner) -> OwnerView {
    match owner {
        BindingOwner::Ordinary => OwnerView::Ordinary,
        BindingOwner::Method { method_id, self_id, receiver } => OwnerView::Method(
            method_id,
            self_id,
            receiver@,
        ),
    }
}

pub open spec fn place_tree(place: Place) -> Tree
    decreases place,
{
    match place {
        Place::Local { binding_id, info } => spanned(
            Label::LocalPlace(binding_id, info.ty@),
            info.span,
            Seq::empty(),
        ),
        Place::Field { base, field_index, info } => spanned(
            Label::FieldPlace(field_index, info.ty@),
            info.span,
            seq![place_tree(*base)],
        ),
        Place::Index { base, index, bounds_check, info } => spanned(
            Label::IndexPlace(info.ty@, bounds_check),
            info.span,
            seq![place_tree(*base), expr_tree(*index)],
        ),
    }
}

pub open spec fn pass_tree(pass: Option<ArgumentPass>) -> Tree
    decreases pass,
{
    match pass {
        None => part(Label::Absent, Seq::empty()),
        Some(pass) => match pass {
            ArgumentPass::Inline => part(Label::PassInline, Seq::empty()),
            ArgumentPass::ReadBorrow { loan_id, source } => part(
                Label::PassRead(loan_id),
                seq![place_tree(source)],
            ),
            ArgumentPass::WriteBorrow { loan_id, source } => part(
                Label::PassWrite(loan_id),
                seq![place_tree(source)],
            ),
            ArgumentPass::BorrowTemporary { kind } => part(
                Label::PassTemporary(kind),
                Seq::empty(),
            ),
            ArgumentPass::Owned => part(Label::PassOwned, Seq::empty()),
        },
    }
}

pub open spec fn result_tree(result: Option<Box<CallResult>>) -> Tree
    decreases result,
{
    match result {
        None => part(Label::Absent, Seq::empty()),
        Some(result) => match *result {
            CallResult::Inline => part(Label::ResultInline, Seq::empty()),
            CallResult::Owned => part(Label::ResultOwned, Seq::empty()),
            CallResult::Borrowed { loan_id, source, source_writable, kind } => part(
                Label::ResultBorrowed(loan_id, source_writable, kind),
                seq![place_tree(source)],
            ),
        },
    }
}

pub open spec fn return_tree(pass: Option<Box<ReturnPass>>) -> Tree
    decreases pass,
{
    match pass {
        None => part(Label::Absent, Seq::empty()),
        Some(pass) => match *pass {
            ReturnPass::Inline => part(Label::ReturnInline, Seq::empty()),
            ReturnPass::OwnedValue => part(Label::ReturnOwned, Seq::empty()),
            ReturnPass::OwnedTransfer { source } => part(
                Label::ReturnTransfer,
                seq![place_tree(source)],
            ),
            ReturnPass::BorrowPlace { source, origin } => part(
                Label::ReturnPlace(origin),
                seq![place_tree(source)],
            ),
            ReturnPass::BorrowValue { origin } => part(Label::ReturnValue(origin), Seq::empty()),
        },
    }
}

/// An expression: its node, what lies below it, and how it is returned.
pub open spec fn expr_node(
    label: Label,
    span: Span,
    info: ExprInfo,
    kids: Seq<Tree>,
    returned: Tree,
) -> Tree {
    Tree { label, span: Some(span), info: Some(info_view(info)), kids: kids.push(returned) }
}

pub open spec fn expr_tree(expr: Expr) -> Tree
    decreases expr,
{
    match expr {
        Expr::Int(value, span, info) => expr_node(
            Label::Int(value),
            span,
            info,
            Seq::empty(),
            return_tree(info.return_pass),
        ),
        Expr::Float(value, span, info) => expr_node(
            Label::Float(value),
            span,
            info,
            Seq::empty(),
            return_tree(info.return_pass),
        ),
        Expr::Bool(value, span, info) => expr_node(
            Label::Bool(value),
            span,
            info,
            Seq::empty(),
            return_tree(info.return_pass),
        ),
        Expr::Str(parts, span, info) => expr_node(
            Label::Str,
            span,
            info,
            part_trees(parts@),
            return_tree(info.return_pass),
        ),
        Expr::Ident(name, id, span, info) => expr_node(
            Label::Ident(name@, id),
            span,
            info,
            Seq::empty(),
            return_tree(info.return_pass),
        ),
        Expr::This(span, info) => expr_node(
            Label::This,
            span,
            info,
            Seq::empty(),
            return_tree(info.return_pass),
        ),
        Expr::Cast { expr: inner, span, info } => expr_node(
            Label::Cast,
            span,
            info,
            seq![expr_tree(*inner)],
            return_tree(info.return_pass),
        ),
        Expr::Convert { expr: inner, mode, span, info } => expr_node(
            Label::Convert(mode),
            span,
            info,
            seq![expr_tree(*inner)],
            return_tree(info.return_pass),
        ),
        Expr::Typeof { named, span, info } => expr_node(
            Label::Typeof(named@),
            span,
            info,
            Seq::empty(),
            return_tree(info.return_pass),
        ),
        Expr::Binary { op, lhs, rhs, pointer_offset_source, span, info } => expr_node(
            Label::Binary(op, pointer_offset_source),
            span,
            info,
            seq![expr_tree(*lhs), expr_tree(*rhs)],
            return_tree(info.return_pass),
        ),
        Expr::Neg { expr: inner, span, info } => expr_node(
            Label::Neg,
            span,
            info,
            seq![expr_tree(*inner)],
            return_tree(info.return_pass),
        ),
        Expr::Not { expr: inner, span, info } => expr_node(
            Label::Not,
            span,
            info,
            seq![expr_tree(*inner)],
            return_tree(info.return_pass),
        ),
        Expr::BitNot { expr: inner, span, info } => expr_node(
            Label::BitNot,
            span,
            info,
            seq![expr_tree(*inner)],
            return_tree(info.return_pass),
        ),
        Expr::Ternary { cond, then_expr, else_expr, span, info } => expr_node(
            Label::Ternary,
            span,
            info,
            seq![expr_tree(*cond), expr_tree(*then_expr), expr_tree(*else_expr)],
            return_tree(info.return_pass),
        ),
        Expr::Call { callee, args, result, target, span, info } => expr_node(
            Label::Call(call_view(target)),
            span,
            info,
            seq![
                expr_tree(*callee),
                part(Label::List, arg_trees(args@)),
                result_tree(result),
            ],
            return_tree(info.return_pass),
        ),
        Expr::MethodCall { recv, receiver_pass, args, result, target, span, info } => expr_node(
            Label::MethodCall(method_view(target)),
            span,
            info,
            seq![
                expr_tree(*recv),
                pass_tree(receiver_pass),
                part(Label::List, arg_trees(args@)),
                result_tree(result),
            ],
            return_tree(info.return_pass),
        ),
        Expr::Field { recv, field_index, span, info } => expr_node(
            Label::Field(field_index),
            span,
            info,
            seq![expr_tree(*recv)],
            return_tree(info.return_pass),
        ),
        Expr::Index { recv, idx, bounds_check, span, info } => expr_node(
            Label::Index(bounds_check),
            span,
            info,
            seq![expr_tree(*recv), expr_tree(*idx)],
            return_tree(info.return_pass),
        ),
        Expr::ArrayLit { elems, span, info } => expr_node(
            Label::ArrayLit,
            span,
            info,
            expr_trees(elems@),
            return_tree(info.return_pass),
        ),
        Expr::FuncLit { function_id, params, implicit_bindings, captures, body, span, info } =>
            expr_node(
                Label::FuncLit(function_id, implicit_bindings@),
                span,
                info,
                seq![
                    part(Label::List, param_trees(params@)),
                    part(Label::List, capture_trees(captures@)),
                    body_tree(*body),
                ],
                return_tree(info.return_pass),
            ),
        Expr::Match { subject, arms, span, info } => expr_node(
            Label::Match,
            span,
            info,
            seq![expr_tree(*subject), part(Label::List, match_trees(arms@))],
            return_tree(info.return_pass),
        ),
        Expr::Propagate { expr: inner, span, info } => expr_node(
            Label::Propagate,
            span,
            info,
            seq![expr_tree(*inner)],
            return_tree(info.return_pass),
        ),
        Expr::ReadPlace { source, plan, span, info } => expr_node(
            Label::ReadPlace(plan@),
            span,
            info,
            seq![place_tree(*source)],
            return_tree(info.return_pass),
        ),
        Expr::Borrow { loan_id, source, kind, span, info } => expr_node(
            Label::Borrow(loan_id, kind),
            span,
            info,
            seq![place_tree(*source)],
            return_tree(info.return_pass),
        ),
        Expr::Refer { loan_id, source, kind, span, info } => expr_node(
            Label::Refer(loan_id, kind),
            span,
            info,
            seq![place_tree(*source)],
            return_tree(info.return_pass),
        ),
        Expr::Move { source, span, info } => expr_node(
            Label::Move,
            span,
            info,
            seq![place_tree(*source)],
            return_tree(info.return_pass),
        ),
    }
}

pub open spec fn expr_trees(list: Seq<Expr>) -> Seq<Tree>
    decreases list,
{
    Seq::new(
        list.len(),
        |i: int|
            if 0 <= i < list.len() {
                expr_tree(list[i])
            } else {
                part(Label::Absent, Seq::empty())
            },
    )
}

pub open spec fn part_trees(list: Seq<StrPart>) -> Seq<Tree>
    decreases list,
{
    Seq::new(
        list.len(),
        |i: int|
            if 0 <= i < list.len() {
                str_part_tree(list[i])
            } else {
                part(Label::Absent, Seq::empty())
            },
    )
}

pub open spec fn str_part_tree(piece: StrPart) -> Tree
    decreases piece,
{
    match piece {
        StrPart::Lit(text) => part(Label::Lit(text@), Seq::empty()),
        StrPart::Hole(hole) => part(Label::Hole, seq![expr_tree(*hole)]),
    }
}

pub open spec fn arg_trees(list: Seq<CallArg>) -> Seq<Tree>
    decreases list,
{
    Seq::new(
        list.len(),
        |i: int|
            if 0 <= i < list.len() {
                arg_tree(list[i])
            } else {
                part(Label::Absent, Seq::empty())
            },
    )
}

pub open spec fn arg_tree(arg: CallArg) -> Tree
    decreases arg,
{
    part(Label::Arg, seq![expr_tree(arg.value), pass_tree(arg.pass)])
}

pub open spec fn param_tree(param: Param) -> Tree {
    part(Label::Param(param.binding_id, param.ty@, param.effect), Seq::empty())
}

pub open spec fn param_trees(list: Seq<Param>) -> Seq<Tree> {
    Seq::new(list.len(), |i: int| param_tree(list[i]))
}

pub open spec fn capture_tree(capture: Capture) -> Tree
    decreases capture,
{
    part(
        Label::Capture(capture.binding_id, capture.loan_id, capture.kind),
        seq![place_tree(capture.source)],
    )
}

pub open spec fn capture_trees(list: Seq<Capture>) -> Seq<Tree>
    decreases list,
{
    Seq::new(
        list.len(),
        |i: int|
            if 0 <= i < list.len() {
                capture_tree(list[i])
            } else {
                part(Label::Absent, Seq::empty())
            },
    )
}

pub open spec fn body_tree(body: Body) -> Tree
    decreases body,
{
    match body {
        Body::Block(stmts) => part(Label::Block, stmt_trees(stmts@)),
        Body::Single(stmt) => part(Label::Single, seq![stmt_tree(*stmt)]),
    }
}

pub open spec fn arm_body_tree(body: ArmBody) -> Tree
    decreases body,
{
    match body {
        ArmBody::Block(stmts) => part(Label::ArmBlock, stmt_trees(stmts@)),
        ArmBody::Value(value) => part(Label::ArmValue, seq![expr_tree(*value)]),
        ArmBody::Ret(value) => part(Label::ArmRet, seq![expr_tree(*value)]),
    }
}

pub open spec fn arm_tree(arm: MatchArm) -> Tree
    decreases arm,
{
    part(
        Label::Arm(
            pattern_view(arm.pattern),
            arm.binding_id,
            operation_view(arm.binding_operation),
        ),
        seq![arm_body_tree(arm.body)],
    )
}

pub open spec fn match_trees(list: Seq<MatchArm>) -> Seq<Tree>
    decreases list,
{
    Seq::new(
        list.len(),
        |i: int|
            if 0 <= i < list.len() {
                arm_tree(list[i])
            } else {
                part(Label::Absent, Seq::empty())
            },
    )
}

pub open spec fn stmt_trees(list: Seq<Stmt>) -> Seq<Tree>
    decreases list,
{
    Seq::new(
        list.len(),
        |i: int|
            if 0 <= i < list.len() {
                stmt_tree(list[i])
            } else {
                part(Label::Absent, Seq::empty())
            },
    )
}

pub open spec fn branch_tree(branch: (Expr, Vec<Stmt>)) -> Tree
    decreases branch,
{
    part(Label::Branch, seq![expr_tree(branch.0), part(Label::List, stmt_trees(branch.1@))])
}

pub open spec fn branch_trees(list: Seq<(Expr, Vec<Stmt>)>) -> Seq<Tree>
    decreases list,
{
    Seq::new(
        list.len(),
        |i: int|
            if 0 <= i < list.len() {
                branch_tree(list[i])
            } else {
                part(Label::Absent, Seq::empty())
            },
    )
}

pub open spec fn binding_tree(binding: Binding) -> Tree
    decreases binding,
{
    spanned(
        Label::Binding {
            binding_id: binding.binding_id,
            owner: owner_view(binding.owner),
            kind: binding.kind,
            relation: binding.relation,
            operation: binding.operation,
            destroy_plan: destroy_view(binding.destroy_plan),
            ty: binding.ty@,
            name: binding.name@,
        },
        binding.span,
        seq![expr_tree(binding.value)],
    )
}

pub open spec fn stmt_tree(stmt: Stmt) -> Tree
    decreases stmt,
{
    match stmt {
        Stmt::Binding(binding) => part(Label::BindingStmt, seq![binding_tree(binding)]),
        Stmt::Assign { target, value, operation, destroy_plan } => part(
            Label::Assign(operation, destroy_view(destroy_plan)),
            seq![place_tree(target), expr_tree(value)],
        ),
        Stmt::Expr { expr } => part(Label::ExprStmt, seq![expr_tree(expr)]),
        Stmt::Return { value } => match value {
            Some(value) => part(Label::Return, seq![expr_tree(value)]),
            None => part(Label::Return, Seq::empty()),
        },
        Stmt::If { branches, else_body } => match else_body {
            Some(body) => part(
                Label::If,
                seq![
                    part(Label::List, branch_trees(branches@)),
                    part(Label::List, stmt_trees(body@)),
                ],
            ),
            None => part(
                Label::If,
                seq![
                    part(Label::List, branch_trees(branches@)),
                    part(Label::Absent, Seq::empty()),
                ],
            ),
        },
        Stmt::While { cond, body } => part(
            Label::While,
            seq![expr_tree(cond), part(Label::List, stmt_trees(body@))],
        ),
        Stmt::For { binding_id, ty, element_plan, iterable, body, span } => spanned(
            Label::For(binding_id, ty@, element_plan@),
            span,
            seq![expr_tree(iterable), part(Label::List, stmt_trees(body@))],
        ),
        Stmt::Break => part(Label::Break, Seq::empty()),
        Stmt::Continue => part(Label::Continue, Seq::empty()),
    }
}

fn copy_place_info(info: &PlaceInfo) -> (r: PlaceInfo)
    ensures
        r.ty@ == info.ty@,
        r.span == info.span,
{
    PlaceInfo { ty: info.ty.clone(), span: info.span }
}

impl Clone for Place {
    fn clone(&self) -> (r: Place)
        ensures
            place_tree(r) == place_tree(*self),
        decreases self, 0nat,
    {
        match self {
            Place::Local { binding_id, info } => Place::Local {
                binding_id: *binding_id,
                info: copy_place_info(info),
            },
            Place::Field { base, field_index, info } => Place::Field {
                base: Box::new((&**base).clone()),
                field_index: *field_index,
                info: copy_place_info(info),
            },
            Place::Index { base, index, bounds_check, info } => Place::Index {
                base: Box::new((&**base).clone()),
                index: Box::new((&**index).clone()),
                bounds_check: *bounds_check,
                info: copy_place_info(info),
            },
        }
    }
}

/// Copies how an argument is passed.
pub fn copy_pass(pass: &Option<ArgumentPass>) -> (r: Option<ArgumentPass>)
    ensures
        pass_tree(r) == pass_tree(*pass),
        r is Some == pass is Some,
    decreases pass, 0nat,
{
    match pass {
        None => None,
        Some(pass) => Some(
            match pass {
                ArgumentPass::Inline => ArgumentPass::Inline,
                ArgumentPass::ReadBorrow { loan_id, source } => ArgumentPass::ReadBorrow {
                    loan_id: *loan_id,
                    source: source.clone(),
                },
                ArgumentPass::WriteBorrow { loan_id, source } => ArgumentPass::WriteBorrow {
                    loan_id: *loan_id,
                    source: source.clone(),
                },
                ArgumentPass::BorrowTemporary { kind } => ArgumentPass::BorrowTemporary {
                    kind: *kind,
                },
                ArgumentPass::Owned => ArgumentPass::Owned,
            },
        ),
    }
}

fn copy_result(result: &Option<Box<CallResult>>) -> (r: Option<Box<CallResult>>)
    ensures
        result_tree(r) == result_tree(*result),
    decreases result, 0nat,
{
    match result {
        None => None,
        Some(result) => Some(
            Box::new(
                match &**result {
                    CallResult::Inline => CallResult::Inline,
                    CallResult::Owned => CallResult::Owned,
                    CallResult::Borrowed { loan_id, source, source_writable, kind } =>
                        CallResult::Borrowed {
                            loan_id: *loan_id,
                            source: source.clone(),
                            source_writable: *source_writable,
                            kind: *kind,
                        },
                },
            ),
        ),
    }
}

fn copy_return(pass: &Option<Box<ReturnPass>>) -> (r: Option<Box<ReturnPass>>)
    ensures
        return_tree(r) == return_tree(*pass),
    decreases pass, 0nat,
{
    match pass {
        None => None,
        Some(pass) => Some(
            Box::new(
                match &**pass {
                    ReturnPass::Inline => ReturnPass::Inline,
                    ReturnPass::OwnedValue => ReturnPass::OwnedValue,
                    ReturnPass::OwnedTransfer { source } => ReturnPass::OwnedTransfer {
                        source: source.clone(),
                    },
                    ReturnPass::BorrowPlace { source, origin } => ReturnPass::BorrowPlace {
                        source: source.clone(),
                        origin: *origin,
                    },
                    ReturnPass::BorrowValue { origin } => ReturnPass::BorrowValue {
                        origin: *origin,
                    },
                },
            ),
        ),
    }
}

fn copy_info(info: &ExprInfo) -> (r: ExprInfo)
    ensures
        info_view(r) == info_view(*info),
        return_tree(r.return_pass) == return_tree(info.return_pass),
    decreases info, 0nat,
{
    ExprInfo {
        ty: info.ty.clone(),
        category: info.category,
        ownership_capability: info.ownership_capability,
        container_write: info.container_write,
        return_pass: copy_return(&info.return_pass),
    }
}

fn copy_target(target: &CallTarget) -> (r: CallTarget)
    ensures
        call_view(r) == call_view(*target),
{
    match target {
        CallTarget::FunctionValue => CallTarget::FunctionValue,
        CallTarget::StructConstructor { name, arg_field_indices } => {
            CallTarget::StructConstructor {
                name: name.clone(),
                arg_field_indices: copy_indices(arg_field_indices),
            }
        },
        CallTarget::ResultConstructor(ctor) => CallTarget::ResultConstructor(*ctor),
        CallTarget::Builtin(builtin) => CallTarget::Builtin(
            match builtin {
                BuiltinCall::Print => BuiltinCall::Print,
                BuiltinCall::Println => BuiltinCall::Println,
                BuiltinCall::Increase => BuiltinCall::Increase,
                BuiltinCall::Decrease => BuiltinCall::Decrease,
                BuiltinCall::DeepClone(plan) => BuiltinCall::DeepClone(plan.clone()),
                BuiltinCall::ShallowClone(plan) => BuiltinCall::ShallowClone(plan.clone()),
            },
        ),
    }
}

fn copy_indices(list: &Vec<usize>) -> (r: Vec<usize>)
    ensures
        r@ == list@,
{
    let mut copied: Vec<usize> = Vec::new();
    let mut i: usize = 0;
    while i < list.len()
        invariant
            i <= list.len(),
            copied@ =~= list@.take(i as int),
        decreases list.len() - i,
    {
        copied.push(list[i]);
        i += 1;
    }
    copied
}

fn copy_ids(list: &Vec<BindingId>) -> (r: Vec<BindingId>)
    ensures
        r@ == list@,
{
    let mut copied: Vec<BindingId> = Vec::new();
    let mut i: usize = 0;
    while i < list.len()
        invariant
            i <= list.len(),
            copied@ =~= list@.take(i as int),
        decreases list.len() - i,
    {
        copied.push(list[i]);
        i += 1;
    }
    copied
}

pub fn copy_method(target: &MethodTarget) -> (r: MethodTarget)
    ensures
        method_view(r) == method_view(*target),
{
    match target {
        MethodTarget::Numeric(op) => MethodTarget::Numeric(*op),
        MethodTarget::BoolNot => MethodTarget::BoolNot,
        MethodTarget::StringLen => MethodTarget::StringLen,
        MethodTarget::StringUpper => MethodTarget::StringUpper,
        MethodTarget::StringLower => MethodTarget::StringLower,
        MethodTarget::StringTrim => MethodTarget::StringTrim,
        MethodTarget::ArrayLen => MethodTarget::ArrayLen,
        MethodTarget::ArrayPush => MethodTarget::ArrayPush,
        MethodTarget::ArrayPop => MethodTarget::ArrayPop,
        MethodTarget::ArrayIterator => MethodTarget::ArrayIterator,
        MethodTarget::User { receiver, id, param_effects, return_effect } => MethodTarget::User {
            receiver: receiver.clone(),
            id: *id,
            param_effects: copy_effects(param_effects),
            return_effect: *return_effect,
        },
    }
}

pub fn copy_pattern(pattern: &Pattern) -> (r: Pattern)
    ensures
        pattern_view(r) == pattern_view(*pattern),
{
    match pattern {
        Pattern::Wildcard { span } => Pattern::Wildcard { span: *span },
        Pattern::Binding { name, span } => Pattern::Binding { name: name.clone(), span: *span },
        Pattern::Int { value, span } => Pattern::Int { value: *value, span: *span },
        Pattern::Bool { value, span } => Pattern::Bool { value: *value, span: *span },
        Pattern::Str { value, span } => Pattern::Str { value: value.clone(), span: *span },
        Pattern::Constructor { ctor, binding, span } => Pattern::Constructor {
            ctor: *ctor,
            binding: match binding {
                Some(name) => Some(name.clone()),
                None => None,
            },
            span: *span,
        },
    }
}

fn copy_operation(operation: &Option<PatternBindingOperation>) -> (r: Option<
    PatternBindingOperation,
>)
    ensures
        operation_view(r) == operation_view(*operation),
{
    match operation {
        None => None,
        Some(operation) => Some(
            match operation {
                PatternBindingOperation::InlineCopy => PatternBindingOperation::InlineCopy,
                PatternBindingOperation::DeepClone(plan) => PatternBindingOperation::DeepClone(
                    plan.clone(),
                ),
                PatternBindingOperation::OwnershipTransfer =>
                    PatternBindingOperation::OwnershipTransfer,
            },
        ),
    }
}

fn copy_node(node: &DestroyNode) -> (r: DestroyNode)
    ensures
        r@ == node@,
{
    match node {
        DestroyNode::Inline => DestroyNode::Inline,
        DestroyNode::String => DestroyNode::String,
        DestroyNode::Iterator => DestroyNode::Iterator,
        DestroyNode::Closure => DestroyNode::Closure,
        DestroyNode::Struct { name, fields } => DestroyNode::Struct {
            name: name.clone(),
            fields: copy_indices(fields),
        },
        DestroyNode::Array { element } => DestroyNode::Array { element: *element },
        DestroyNode::Result { ok, err } => DestroyNode::Result { ok: *ok, err: *err },
    }
}

fn copy_destroy_plan(plan: &Option<DestroyPlan>) -> (r: Option<DestroyPlan>)
    ensures
        destroy_view(r) == destroy_view(*plan),
{
    match plan {
        None => None,
        Some(plan) => {
            let mut nodes: Vec<DestroyNode> = Vec::new();
            let mut i: usize = 0;
            while i < plan.nodes.len()
                invariant
                    i <= plan.nodes.len(),
                    nodes@.len() == i,
                    forall|k: int| 0 <= k < i ==> (#[trigger] nodes@[k])@ == plan.nodes@[k]@,
                decreases plan.nodes.len() - i,
            {
                nodes.push(copy_node(&plan.nodes[i]));
                i += 1;
            }
            let copied = DestroyPlan { nodes };
            assert(copied@ =~= plan@);
            Some(copied)
        },
    }
}

fn copy_owner(owner: &BindingOwner) -> (r: BindingOwner)
    ensures
        owner_view(r) == owner_view(*owner),
{
    match owner {
        BindingOwner::Ordinary => BindingOwner::Ordinary,
        BindingOwner::Method { method_id, self_id, receiver } => BindingOwner::Method {
            method_id: *method_id,
            self_id: *self_id,
            receiver: receiver.clone(),
        },
    }
}

impl Clone for Binding {
    fn clone(&self) -> (r: Binding)
        ensures
            binding_tree(r) == binding_tree(*self),
        decreases self, 0nat,
    {
        Binding {
            binding_id: self.binding_id,
            owner: copy_owner(&self.owner),
            kind: self.kind,
            relation: self.relation,
            operation: self.operation,
            destroy_plan: copy_destroy_plan(&self.destroy_plan),
            ty: self.ty.clone(),
            name: self.name.clone(),
            value: self.value.clone(),
            span: self.span,
        }
    }
}

fn copy_param(param: &Param) -> (r: Param)
    ensures
        param_tree(r) == param_tree(*param),
{
    Param { binding_id: param.binding_id, ty: param.ty.clone(), effect: param.effect }
}

impl Clone for Capture {
    fn clone(&self) -> (r: Capture)
        ensures
            capture_tree(r) == capture_tree(*self),
        decreases self, 0nat,
    {
        Capture {
            binding_id: self.binding_id,
            loan_id: self.loan_id,
            source: self.source.clone(),
            kind: self.kind,
        }
    }
}

fn copy_part(piece: &StrPart) -> (r: StrPart)
    ensures
        str_part_tree(r) == str_part_tree(*piece),
    decreases piece, 0nat,
{
    match piece {
        StrPart::Lit(text) => StrPart::Lit(text.clone()),
        StrPart::Hole(hole) => StrPart::Hole(Box::new((&**hole).clone())),
    }
}

fn copy_arg(arg: &CallArg) -> (r: CallArg)
    ensures
        arg_tree(r) == arg_tree(*arg),
    decreases arg, 0nat,
{
    CallArg { value: arg.value.clone(), pass: copy_pass(&arg.pass) }
}

impl Clone for Body {
    fn clone(&self) -> (r: Body)
        ensures
            body_tree(r) == body_tree(*self),
        decreases self, 0nat,
    {
        match self {
            Body::Block(stmts) => Body::Block(copy_stmts(stmts)),
            Body::Single(stmt) => Body::Single(Box::new((&**stmt).clone())),
        }
    }
}

fn copy_arm(arm: &MatchArm) -> (r: MatchArm)
    ensures
        arm_tree(r) == arm_tree(*arm),
    decreases arm, 0nat,
{
    MatchArm {
        pattern: copy_pattern(&arm.pattern),
        binding_id: arm.binding_id,
        binding_operation: copy_operation(&arm.binding_operation),
        body: match &arm.body {
            ArmBody::Block(stmts) => ArmBody::Block(copy_stmts(stmts)),
            ArmBody::Value(value) => ArmBody::Value(Box::new((&**value).clone())),
            ArmBody::Ret(value) => ArmBody::Ret(Box::new((&**value).clone())),
        },
    }
}

fn copy_branch(branch: &(Expr, Vec<Stmt>)) -> (r: (Expr, Vec<Stmt>))
    ensures
        branch_tree(r) == branch_tree(*branch),
    decreases branch, 0nat,
{
    (branch.0.clone(), copy_stmts(&branch.1))
}

impl Clone for Stmt {
    fn clone(&self) -> (r: Stmt)
        ensures
            stmt_tree(r) == stmt_tree(*self),
        decreases self, 0nat,
    {
        match self {
            Stmt::Binding(binding) => Stmt::Binding(binding.clone()),
            Stmt::Assign { target, value, operation, destroy_plan } => Stmt::Assign {
                target: target.clone(),
                value: value.clone(),
                operation: *operation,
                destroy_plan: copy_destroy_plan(destroy_plan),
            },
            Stmt::Expr { expr } => Stmt::Expr { expr: expr.clone() },
            Stmt::Return { value } => Stmt::Return {
                value: match value {
                    Some(value) => Some(value.clone()),
                    None => None,
                },
            },
            Stmt::If { branches, else_body } => Stmt::If {
                branches: copy_branches(branches),
                else_body: match else_body {
                    Some(body) => Some(copy_stmts(body)),
                    None => None,
                },
            },
            Stmt::While { cond, body } => Stmt::While {
                cond: cond.clone(),
                body: copy_stmts(body),
            },
            Stmt::For { binding_id, ty, element_plan, iterable, body, span } => Stmt::For {
                binding_id: *binding_id,
                ty: ty.clone(),
                element_plan: element_plan.clone(),
                iterable: iterable.clone(),
                body: copy_stmts(body),
                span: *span,
            },
            Stmt::Break => Stmt::Break,
            Stmt::Continue => Stmt::Continue,
        }
    }
}

/// Copies expressions.
fn copy_exprs(list: &Vec<Expr>) -> (r: Vec<Expr>)
    ensures
        expr_trees(r@) == expr_trees(list@),
    decreases list@, 0nat,
{
    let mut copied: Vec<Expr> = Vec::new();
    let mut i: usize = 0;
    while i < list.len()
        invariant
            i <= list.len(),
            copied@.len() == i,
            forall|k: int| 0 <= k < i ==> expr_tree(#[trigger] copied@[k]) == expr_tree(list@[k]),
        decreases list.len() - i,
    {
        let item = list[i].clone();
        copied.push(item);
        i += 1;
    }
    assert(expr_trees(copied@) =~= expr_trees(list@));
    copied
}

/// Copies the parts of a string.
fn copy_parts(list: &Vec<StrPart>) -> (r: Vec<StrPart>)
    ensures
        part_trees(r@) == part_trees(list@),
    decreases list@, 0nat,
{
    let mut copied: Vec<StrPart> = Vec::new();
    let mut i: usize = 0;
    while i < list.len()
        invariant
            i <= list.len(),
            copied@.len() == i,
            forall|k: int| 0 <= k < i ==> str_part_tree(#[trigger] copied@[k]) == str_part_tree(list@[k]),
        decreases list.len() - i,
    {
        let item = copy_part(&list[i]);
        copied.push(item);
        i += 1;
    }
    assert(part_trees(copied@) =~= part_trees(list@));
    copied
}

/// Copies arguments.
fn copy_args(list: &Vec<CallArg>) -> (r: Vec<CallArg>)
    ensures
        arg_trees(r@) == arg_trees(list@),
    decreases list@, 0nat,
{
    let mut copied: Vec<CallArg> = Vec::new();
    let mut i: usize = 0;
    while i < list.len()
        invariant
            i <= list.len(),
            copied@.len() == i,
            forall|k: int| 0 <= k < i ==> arg_tree(#[trigger] copied@[k]) == arg_tree(list@[k]),
        decreases list.len() - i,
    {
        let item = copy_arg(&list[i]);
        copied.push(item);
        i += 1;
    }
    assert(arg_trees(copied@) =~= arg_trees(list@));
    copied
}

/// Copies parameters.
fn copy_params(list: &Vec<Param>) -> (r: Vec<Param>)
    ensures
        param_trees(r@) == param_trees(list@),
{
    let mut copied: Vec<Param> = Vec::new();
    let mut i: usize = 0;
    while i < list.len()
        invariant
            i <= list.len(),
            copied@.len() == i,
            forall|k: int| 0 <= k < i ==> param_tree(#[trigger] copied@[k]) == param_tree(list@[k]),
        decreases list.len() - i,
    {
        let item = copy_param(&list[i]);
        copied.push(item);
        i += 1;
    }
    assert(param_trees(copied@) =~= param_trees(list@));
    copied
}

/// Copies captures.
fn copy_captures(list: &Vec<Capture>) -> (r: Vec<Capture>)
    ensures
        capture_trees(r@) == capture_trees(list@),
    decreases list@, 0nat,
{
    let mut copied: Vec<Capture> = Vec::new();
    let mut i: usize = 0;
    while i < list.len()
        invariant
            i <= list.len(),
            copied@.len() == i,
            forall|k: int| 0 <= k < i ==> capture_tree(#[trigger] copied@[k]) == capture_tree(list@[k]),
        decreases list.len() - i,
    {
        let item = list[i].clone();
        copied.push(item);
        i += 1;
    }
    assert(capture_trees(copied@) =~= capture_trees(list@));
    copied
}

/// Copies the arms of a match.
fn copy_arms(list: &Vec<MatchArm>) -> (r: Vec<MatchArm>)
    ensures
        match_trees(r@) == match_trees(list@),
    decreases list@, 0nat,
{
    let mut copied: Vec<MatchArm> = Vec::new();
    let mut i: usize = 0;
    while i < list.len()
        invariant
            i <= list.len(),
            copied@.len() == i,
            forall|k: int| 0 <= k < i ==> arm_tree(#[trigger] copied@[k]) == arm_tree(list@[k]),
        decreases list.len() - i,
    {
        let item = copy_arm(&list[i]);
        copied.push(item);
        i += 1;
    }
    assert(match_trees(copied@) =~= match_trees(list@));
    copied
}

/// Copies statements.
fn copy_stmts(list: &Vec<Stmt>) -> (r: Vec<Stmt>)
    ensures
        stmt_trees(r@) == stmt_trees(list@),
    decreases list@, 0nat,
{
    let mut copied: Vec<Stmt> = Vec::new();
    let mut i: usize = 0;
    while i < list.len()
        invariant
            i <= list.len(),
            copied@.len() == i,
            forall|k: int| 0 <= k < i ==> stmt_tree(#[trigger] copied@[k]) == stmt_tree(list@[k]),
        decreases list.len() - i,
    {
        let item = list[i].clone();
        copied.push(item);
        i += 1;
    }
    assert(stmt_trees(copied@) =~= stmt_trees(list@));
    copied
}

/// Copies the branches of an `if`.
fn copy_branches(list: &Vec<(Expr, Vec<Stmt>)>) -> (r: Vec<(Expr, Vec<Stmt>)>)
    ensures
        branch_trees(r@) == branch_trees(list@),
    decreases list@, 0nat,
{
    let mut copied: Vec<(Expr, Vec<Stmt>)> = Vec::new();
    let mut i: usize = 0;
    while i < list.len()
        invariant
            i <= list.len(),
            copied@.len() == i,
            forall|k: int| 0 <= k < i ==> branch_tree(#[trigger] copied@[k]) == branch_tree(list@[k]),
        decreases list.len() - i,
    {
        let item = copy_branch(&list[i]);
        copied.push(item);
        i += 1;
    }
    assert(branch_trees(copied@) =~= branch_trees(list@));
    copied
}

impl Clone for Expr {
    fn clone(&self) -> (r: Expr)
        ensures
            expr_tree(r) == expr_tree(*self),
        decreases self, 1nat,
    {
        match self {
            Expr::Int(value, span, info) => Expr::Int(*value, *span, copy_info(info)),
            Expr::Float(value, span, info) => Expr::Float(*value, *span, copy_info(info)),
            Expr::Bool(value, span, info) => Expr::Bool(*value, *span, copy_info(info)),
            Expr::Ident(name, id, span, info) => Expr::Ident(
                name.clone(),
                *id,
                *span,
                copy_info(info),
            ),
            Expr::This(span, info) => Expr::This(*span, copy_info(info)),
            Expr::Typeof { named, span, info } => Expr::Typeof {
                named: named.clone(),
                span: *span,
                info: copy_info(info),
            },
            Expr::Cast { expr, span, info } => Expr::Cast {
                expr: Box::new((&**expr).clone()),
                span: *span,
                info: copy_info(info),
            },
            Expr::Neg { expr, span, info } => Expr::Neg {
                expr: Box::new((&**expr).clone()),
                span: *span,
                info: copy_info(info),
            },
            Expr::Not { expr, span, info } => Expr::Not {
                expr: Box::new((&**expr).clone()),
                span: *span,
                info: copy_info(info),
            },
            Expr::BitNot { expr, span, info } => Expr::BitNot {
                expr: Box::new((&**expr).clone()),
                span: *span,
                info: copy_info(info),
            },
            Expr::Propagate { expr, span, info } => Expr::Propagate {
                expr: Box::new((&**expr).clone()),
                span: *span,
                info: copy_info(info),
            },
            Expr::Convert { expr, mode, span, info } => Expr::Convert {
                expr: Box::new((&**expr).clone()),
                mode: *mode,
                span: *span,
                info: copy_info(info),
            },
            Expr::Field { recv, field_index, span, info } => Expr::Field {
                recv: Box::new((&**recv).clone()),
                field_index: *field_index,
                span: *span,
                info: copy_info(info),
            },
            _ => copy_composite(self),
        }
    }
}

/// Copies an expression with several parts.
fn copy_composite(expr: &Expr) -> (r: Expr)
    requires
        !(expr is Int || expr is Float || expr is Bool || expr is Ident || expr is This
            || expr is Typeof || expr is Cast || expr is Neg || expr is Not || expr is BitNot
            || expr is Propagate || expr is Convert || expr is Field),
    ensures
        expr_tree(r) == expr_tree(*expr),
    decreases expr, 0nat,
{
    match expr {
        Expr::Binary { op, lhs, rhs, pointer_offset_source, span, info } => Expr::Binary {
            op: *op,
            lhs: Box::new((&**lhs).clone()),
            rhs: Box::new((&**rhs).clone()),
            pointer_offset_source: *pointer_offset_source,
            span: *span,
            info: copy_info(info),
        },
        Expr::Ternary { cond, then_expr, else_expr, span, info } => Expr::Ternary {
            cond: Box::new((&**cond).clone()),
            then_expr: Box::new((&**then_expr).clone()),
            else_expr: Box::new((&**else_expr).clone()),
            span: *span,
            info: copy_info(info),
        },
        Expr::Index { recv, idx, bounds_check, span, info } => Expr::Index {
            recv: Box::new((&**recv).clone()),
            idx: Box::new((&**idx).clone()),
            bounds_check: *bounds_check,
            span: *span,
            info: copy_info(info),
        },
        Expr::Call { callee, args, result, target, span, info } => Expr::Call {
            callee: Box::new((&**callee).clone()),
            args: copy_args(args),
            result: copy_result(result),
            target: copy_target(target),
            span: *span,
            info: copy_info(info),
        },
        Expr::MethodCall { recv, receiver_pass, args, result, target, span, info } =>
            Expr::MethodCall {
                recv: Box::new((&**recv).clone()),
                receiver_pass: copy_pass(receiver_pass),
                args: copy_args(args),
                result: copy_result(result),
                target: copy_method(target),
                span: *span,
                info: copy_info(info),
            },
        Expr::Str(parts, span, info) => Expr::Str(copy_parts(parts), *span, copy_info(info)),
        Expr::ArrayLit { elems, span, info } => Expr::ArrayLit {
            elems: copy_exprs(elems),
            span: *span,
            info: copy_info(info),
        },
        Expr::FuncLit { function_id, params, implicit_bindings, captures, body, span, info } =>
            Expr::FuncLit {
                function_id: *function_id,
                params: copy_params(params),
                implicit_bindings: copy_ids(implicit_bindings),
                captures: copy_captures(captures),
                body: Box::new((&**body).clone()),
                span: *span,
                info: copy_info(info),
            },
        Expr::Match { subject, arms, span, info } => Expr::Match {
            subject: Box::new((&**subject).clone()),
            arms: copy_arms(arms),
            span: *span,
            info: copy_info(info),
        },
        Expr::ReadPlace { source, plan, span, info } => Expr::ReadPlace {
            source: Box::new((&**source).clone()),
            plan: plan.clone(),
            span: *span,
            info: copy_info(info),
        },
        Expr::Borrow { loan_id, source, kind, span, info } => Expr::Borrow {
            loan_id: *loan_id,
            source: Box::new((&**source).clone()),
            kind: *kind,
            span: *span,
            info: copy_info(info),
        },
        Expr::Refer { loan_id, source, kind, span, info } => Expr::Refer {
            loan_id: *loan_id,
            source: Box::new((&**source).clone()),
            kind: *kind,
            span: *span,
            info: copy_info(info),
        },
        Expr::Move { source, span, info } => Expr::Move {
            source: Box::new((&**source).clone()),
            span: *span,
            info: copy_info(info),
        },
        _ => Expr::Bool(false, expr.span(), copy_info(expr.info())),
    }
}

} // verus!
