//! What a lowered program has in common with the written one.
//!
//! A lowered node stands for one written node: it has its source range and the type that was noted
//! for it, and each of its operands stands for the written operand of the same name.

use crate::ast;
use crate::builders::{arg_part, method_value};
use crate::expr_places::lemma_expr_head;
use crate::facts::{ExprFact, FactsMap, PlaceFact, TargetView, found};
use crate::lowered::{
    lowered_args, lowered_arm, lowered_arms, lowered_base, lowered_binding, lowered_body,
    lowered_branch, lowered_branches, lowered_call, lowered_expr, lowered_exprs, lowered_indices,
    lowered_juxtapose, lowered_kind, lowered_method, lowered_owner, lowered_params, lowered_parts,
    lowered_place, lowered_stmt, lowered_stmts, without_expr,
};
use crate::model::{
    ArgumentPass, ArmBody, Binding, BindingOwner, Body, CallArg, CallResult, CallTarget, Expr,
    MatchArm, Param, Place, RuntimeCheckRequirement, Stmt, StrPart,
};
use crate::tree::{
    Label, Tree, arg_tree, arg_trees, arm_body_tree, arm_tree, binding_tree, body_tree, branch_tree,
    branch_trees, builtin_view, capture_trees, expr_tree, expr_trees, match_trees, method_view,
    param_tree, param_trees, part, part_trees, pass_tree, pattern_view, place_tree, result_tree,
    stmt_tree, stmt_trees, str_part_tree,
};
use crate::types::{BindingId, TyView, ty_name};
use vstd::prelude::*;

verus! {

/// Every entry of the one table is an entry of the other.
pub open spec fn kept<V>(fewer: Map<u32, V>, more: Map<u32, V>) -> bool {
    forall|k: u32| #[trigger]
        fewer.contains_key(k) ==> more.contains_key(k) && fewer[k] == more[k]
}

/// Every fact of the one collection is a fact of the other.
#[verifier::opaque]
pub open spec fn part_of(fewer: FactsMap, more: FactsMap) -> bool {
    &&& kept(fewer.exprs, more.exprs)
    &&& kept(fewer.bindings, more.bindings)
    &&& kept(fewer.binding_ids, more.binding_ids)
    &&& kept(fewer.receivers, more.receivers)
    &&& kept(fewer.method_ids, more.method_ids)
    &&& kept(fewer.method_self_ids, more.method_self_ids)
    &&& kept(fewer.field_indices, more.field_indices)
    &&& kept(fewer.assignment_places, more.assignment_places)
    &&& kept(fewer.move_places, more.move_places)
    &&& kept(fewer.borrow_places, more.borrow_places)
    &&& kept(fewer.owning_reads, more.owning_reads)
    &&& kept(fewer.ctor_arg_indices, more.ctor_arg_indices)
    &&& kept(fewer.params, more.params)
    &&& kept(fewer.param_ids, more.param_ids)
    &&& kept(fewer.fors, more.fors)
    &&& kept(fewer.for_plans, more.for_plans)
    &&& kept(fewer.for_ids, more.for_ids)
    &&& kept(fewer.match_binding_ids, more.match_binding_ids)
    &&& kept(fewer.expr_binding_ids, more.expr_binding_ids)
}

/// The type that was noted for an expression.
pub open spec fn noted(notes: FactsMap, e: ast::Expr) -> TyView {
    notes.exprs[e.id].ty
}

/// The place is the one that was noted, and it was written where the expression stands.
pub open spec fn place_stands_for(e: ast::Expr, fact: PlaceFact, p: Place, notes: FactsMap) -> bool
    decreases e, 1nat,
{
    match (e.kind, fact, p) {
        (
            ast::ExprKind::Ident(_),
            PlaceFact::Local { binding_id, ty },
            Place::Local { binding_id: id, info },
        ) => id == binding_id && info.ty@ == ty && info.span == e.span,
        (
            ast::ExprKind::Field { recv, .. },
            PlaceFact::Field { base: below, field_index, ty },
            Place::Field { base, field_index: index, info },
        ) => index == field_index && info.ty@ == ty && info.span == e.span && place_stands_for(
            *recv,
            *below,
            *base,
            notes,
        ),
        (
            ast::ExprKind::Index { recv, idx },
            PlaceFact::Index { base: below, ty },
            Place::Index { base, index, bounds_check, info },
        ) => {
            &&& info.ty@ == ty
            &&& info.span == e.span
            &&& bounds_check == RuntimeCheckRequirement::Required
            &&& place_stands_for(*recv, *below, *base, notes)
            &&& stands_for(*idx, *index, notes)
        },
        _ => false,
    }
}

/// The lowered name is the written one.
pub open spec fn same_name(e: ast::Expr, x: Expr, notes: FactsMap) -> bool {
    match (e.kind, x) {
        (ast::ExprKind::Ident(name), Expr::Ident(text, id, _, _)) => text@ == name@ && (id matches Some(
            id,
        ) ==> found(notes.expr_binding_ids, e.id) == Some(id)),
        (ast::ExprKind::This, Expr::This(_, _)) => true,
        _ => false,
    }
}

/// A call goes where it was noted to go, and the fields that a constructor fills were noted for its
/// arguments.
pub open spec fn same_target(
    noted: TargetView,
    args: Seq<ast::CallArg>,
    target: CallTarget,
    notes: FactsMap,
) -> bool {
    match (noted, target) {
        (TargetView::FunctionValue, CallTarget::FunctionValue) => true,
        (TargetView::ResultConstructor(a), CallTarget::ResultConstructor(b)) => a == b,
        (TargetView::Builtin(a), CallTarget::Builtin(b)) => a == builtin_view(b),
        (
            TargetView::StructConstructor(a),
            CallTarget::StructConstructor { name, arg_field_indices },
        ) => {
            &&& a == name@
            &&& arg_field_indices@.len() == args.len()
            &&& forall|i: int|
                0 <= i < args.len() ==> found(notes.ctor_arg_indices, args[i].id) == Some(
                    #[trigger] arg_field_indices@[i],
                )
        },
        _ => false,
    }
}

pub open spec fn args_stand_for(list: Seq<ast::CallArg>, xs: Seq<CallArg>, notes: FactsMap) -> bool
    decreases list,
{
    &&& xs.len() == list.len()
    &&& forall|i: int|
        0 <= i < list.len() ==> stands_for(list[i].value, (#[trigger] xs[i]).value, notes)
}

pub open spec fn exprs_stand_for(list: Seq<ast::Expr>, xs: Seq<Expr>, notes: FactsMap) -> bool
    decreases list,
{
    &&& xs.len() == list.len()
    &&& forall|i: int| 0 <= i < list.len() ==> stands_for(list[i], #[trigger] xs[i], notes)
}

pub open spec fn parts_stand_for(list: Seq<ast::StrPart>, xs: Seq<StrPart>, notes: FactsMap) -> bool
    decreases list,
{
    &&& xs.len() == list.len()
    &&& forall|i: int| 0 <= i < list.len() ==> part_stands_for(list[i], #[trigger] xs[i], notes)
}

pub open spec fn part_stands_for(written: ast::StrPart, x: StrPart, notes: FactsMap) -> bool
    decreases written,
{
    match (written, x) {
        (ast::StrPart::Lit(a), StrPart::Lit(b)) => a@ == b@,
        (ast::StrPart::Hole(a), StrPart::Hole(b)) => stands_for(*a, *b, notes),
        _ => false,
    }
}

pub open spec fn stmts_stand_for(list: Seq<ast::Stmt>, xs: Seq<Stmt>, notes: FactsMap) -> bool
    decreases list,
{
    &&& xs.len() == list.len()
    &&& forall|i: int| 0 <= i < list.len() ==> stmt_stands_for(list[i], #[trigger] xs[i], notes)
}

pub open spec fn body_stands_for(written: ast::Body, x: Body, notes: FactsMap) -> bool
    decreases written,
{
    match (written, x) {
        (ast::Body::Block(a), Body::Block(b)) => stmts_stand_for(a@, b@, notes),
        (ast::Body::Single(a), Body::Single(b)) => stmt_stands_for(*a, *b, notes),
        _ => false,
    }
}

pub open spec fn arms_stand_for(list: Seq<ast::MatchArm>, xs: Seq<MatchArm>, notes: FactsMap) -> bool
    decreases list,
{
    &&& xs.len() == list.len()
    &&& forall|i: int| 0 <= i < list.len() ==> arm_stands_for(list[i], #[trigger] xs[i], notes)
}

pub open spec fn arm_stands_for(written: ast::MatchArm, x: MatchArm, notes: FactsMap) -> bool
    decreases written,
{
    &&& pattern_view(x.pattern) == pattern_view(written.pattern)
    &&& x.binding_id matches Some(id) ==> found(notes.match_binding_ids, written.id) == Some(id)
    &&& match (written.body, x.body) {
        (ast::ArmBody::Block(a), ArmBody::Block(b)) => stmts_stand_for(a@, b@, notes),
        (ast::ArmBody::Value(a), ArmBody::Value(b)) => stands_for(*a, *b, notes),
        (ast::ArmBody::Ret(a), ArmBody::Ret(b)) => stands_for(*a, *b, notes),
        _ => false,
    }
}

pub open spec fn branches_stand_for(
    list: Seq<(ast::Expr, Vec<ast::Stmt>)>,
    xs: Seq<(Expr, Vec<Stmt>)>,
    notes: FactsMap,
) -> bool
    decreases list,
{
    &&& xs.len() == list.len()
    &&& forall|i: int| 0 <= i < list.len() ==> branch_stands_for(list[i], #[trigger] xs[i], notes)
}

pub open spec fn branch_stands_for(
    written: (ast::Expr, Vec<ast::Stmt>),
    x: (Expr, Vec<Stmt>),
    notes: FactsMap,
) -> bool
    decreases written,
{
    stands_for(written.0, x.0, notes) && stmts_stand_for(written.1@, x.1@, notes)
}

pub open spec fn binding_stands_for(written: ast::Binding, x: Binding, notes: FactsMap) -> bool
    decreases written,
{
    &&& x.name@ == written.name@
    &&& x.kind == written.kind
    &&& x.span == written.span
    &&& found(notes.binding_ids, written.id) == Some(x.binding_id)
    &&& found(notes.bindings, written.id) == Some(x.ty@)
    &&& match x.owner {
        BindingOwner::Ordinary => true,
        BindingOwner::Method { method_id, self_id, receiver } => {
            &&& found(notes.method_ids, written.id) == Some(method_id)
            &&& found(notes.method_self_ids, written.id) == Some(self_id)
            &&& found(notes.receivers, written.id) == Some(receiver@)
            &&& x.value matches Expr::FuncLit { implicit_bindings, .. }
            &&& implicit_bindings@.len() > 0
            &&& implicit_bindings@.last() == self_id
        },
    }
    &&& stands_for(written.value, x.value, notes)
}

pub open spec fn params_stand_for(list: Seq<ast::Param>, xs: Seq<Param>, notes: FactsMap) -> bool {
    &&& xs.len() == list.len()
    &&& forall|i: int|
        0 <= i < list.len() ==> found(notes.param_ids, list[i].id) == Some(
            (#[trigger] xs[i]).binding_id,
        ) && found(notes.params, list[i].id) == Some(xs[i].ty@) && xs[i].effect is None
}

/// A lowered statement stands for a written one.
pub open spec fn stmt_stands_for(written: ast::Stmt, x: Stmt, notes: FactsMap) -> bool
    decreases written,
{
    match (written.kind, x) {
        (ast::StmtKind::Binding(a), Stmt::Binding(b)) => binding_stands_for(*a, b, notes),
        (ast::StmtKind::Assign { value }, Stmt::Assign { target, value: v, .. }) => {
            &&& target matches Place::Local { binding_id, info }
            &&& info.span == written.span
            &&& found(notes.assignment_places, written.id) == Some(
                PlaceFact::Local { binding_id, ty: info.ty@ },
            )
            &&& stands_for(value, v, notes)
        },
        (ast::StmtKind::FieldAssign { recv, value }, Stmt::Assign { target, value: v, .. }) => {
            &&& target matches Place::Field { base, field_index, info }
            &&& info.span == written.span
            &&& found(notes.assignment_places, written.id) matches Some(
                PlaceFact::Field { base: below, field_index: index, ty },
            )
            &&& field_index == index
            &&& info.ty@ == ty
            &&& place_stands_for(recv, *below, *base, notes)
            &&& stands_for(value, v, notes)
        },
        (ast::StmtKind::Expr { expr }, Stmt::Expr { expr: v }) => stands_for(expr, v, notes),
        (ast::StmtKind::Return { value }, Stmt::Return { value: v }) => match (value, v) {
            (None, None) => true,
            (Some(a), Some(b)) => stands_for(a, b, notes),
            _ => false,
        },
        (ast::StmtKind::If { branches, else_body }, Stmt::If { branches: list, else_body: rest }) => {
            &&& branches_stand_for(branches@, list@, notes)
            &&& match (else_body, rest) {
                (None, None) => true,
                (Some(a), Some(b)) => stmts_stand_for(a@, b@, notes),
                _ => false,
            }
        },
        (ast::StmtKind::While { cond, body }, Stmt::While { cond: test, body: list }) =>
            stands_for(cond, test, notes) && stmts_stand_for(body@, list@, notes),
        (
            ast::StmtKind::For { iterable, body },
            Stmt::For { binding_id, ty, element_plan, iterable: source, body: list, span },
        ) => {
            &&& span == written.span
            &&& found(notes.for_ids, written.id) == Some(binding_id)
            &&& found(notes.fors, written.id) == Some(ty@)
            &&& found(notes.for_plans, written.id) == Some(element_plan@)
            &&& stands_for(iterable, source, notes)
            &&& stmts_stand_for(body@, list@, notes)
        },
        (ast::StmtKind::Break, Stmt::Break) => true,
        (ast::StmtKind::Continue, Stmt::Continue) => true,
        _ => false,
    }
}

/// A call with its arguments in brackets, lowered to what it was noted to mean.
pub open spec fn call_stands_for(e: ast::Expr, x: Expr, notes: FactsMap) -> bool
    decreases e, 0nat,
{
    match (e.kind, notes.exprs[e.id].call_target) {
        (ast::ExprKind::Call { callee, args }, Some(target)) => match (target, x) {
            (TargetView::ContextualConversion(a), Expr::Convert { expr, mode, .. }) => a == mode
                && args@.len() == 1 && stands_for(args@[0].value, *expr, notes),
            (TargetView::Typeof, Expr::Typeof { named, .. }) => args@.len() == 1 && named@
                == ty_name(noted(notes, args@[0].value)),
            (TargetView::Move, Expr::Move { source, .. }) => {
                &&& args@.len() == 1
                &&& found(notes.move_places, e.id) matches Some(place)
                &&& place_stands_for(args@[0].value, place, *source, notes)
            },
            (TargetView::Borrow, Expr::Borrow { loan_id, source, kind, .. }) => {
                &&& args@.len() == 1
                &&& kind is None
                &&& found(notes.borrow_places, e.id) matches Some(borrow)
                &&& loan_id == borrow.loan_id
                &&& place_stands_for(args@[0].value, borrow.place, *source, notes)
            },
            (_, Expr::Call { callee: head, args: list, result, target: goal, .. }) => {
                &&& result is None
                &&& stands_for(*callee, *head, notes)
                &&& args_stand_for(args@, list@, notes)
                &&& same_target(target, args@, goal, notes)
            },
            _ => false,
        },
        _ => false,
    }
}

/// A lowered expression that is no read of a place stands for a written one.
pub open spec fn kind_stands_for(e: ast::Expr, x: Expr, notes: FactsMap) -> bool
    decreases e, 1nat,
{
    match (e.kind, x) {
        (ast::ExprKind::Int(a), Expr::Int(b, _, _)) => a == b,
        (ast::ExprKind::Float(a), Expr::Float(b, _, _)) => a == b,
        (ast::ExprKind::Bool(a), Expr::Bool(b, _, _)) => a == b,
        (ast::ExprKind::Ident(_), Expr::Ident(..)) => same_name(e, x, notes),
        (ast::ExprKind::This, Expr::This(..)) => true,
        (ast::ExprKind::Str(a), Expr::Str(b, _, _)) => parts_stand_for(a@, b@, notes),
        (ast::ExprKind::Cast { expr, .. }, Expr::Cast { expr: v, .. }) => stands_for(
            *expr,
            *v,
            notes,
        ),
        (ast::ExprKind::Neg { expr }, Expr::Neg { expr: v, .. }) => stands_for(*expr, *v, notes),
        (ast::ExprKind::Not { expr }, Expr::Not { expr: v, .. }) => stands_for(*expr, *v, notes),
        (ast::ExprKind::BitNot { expr }, Expr::BitNot { expr: v, .. }) => stands_for(
            *expr,
            *v,
            notes,
        ),
        (ast::ExprKind::Propagate { expr }, Expr::Propagate { expr: v, .. }) => stands_for(
            *expr,
            *v,
            notes,
        ),
        (ast::ExprKind::Binary { op, lhs, rhs }, Expr::Binary { op: o, lhs: l, rhs: r, .. }) => op
            == o && stands_for(*lhs, *l, notes) && stands_for(*rhs, *r, notes),
        (
            ast::ExprKind::Ternary { cond, then_expr, else_expr },
            Expr::Ternary { cond: c, then_expr: t, else_expr: f, .. },
        ) => stands_for(*cond, *c, notes) && stands_for(*then_expr, *t, notes) && stands_for(
            *else_expr,
            *f,
            notes,
        ),
        (ast::ExprKind::Field { recv, .. }, Expr::Field { recv: v, field_index, .. }) => found(
            notes.field_indices,
            e.id,
        ) == Some(field_index) && stands_for(*recv, *v, notes),
        (ast::ExprKind::Index { recv, idx }, Expr::Index { recv: v, idx: i, .. }) => stands_for(
            *recv,
            *v,
            notes,
        ) && stands_for(*idx, *i, notes),
        (ast::ExprKind::ArrayLit { elems }, Expr::ArrayLit { elems: list, .. }) => exprs_stand_for(
            elems@,
            list@,
            notes,
        ),
        (ast::ExprKind::Match { subject, arms }, Expr::Match { subject: v, arms: list, .. }) =>
            stands_for(*subject, *v, notes) && arms_stand_for(arms@, list@, notes),
        (ast::ExprKind::Call { .. }, _) => call_stands_for(e, x, notes),
        (
            ast::ExprKind::Juxtapose { lhs, rhs },
            Expr::Call { callee, args, result, target, .. },
        ) => {
            &&& notes.exprs[e.id].call_target == Some(TargetView::FunctionValue)
            &&& target is FunctionValue
            &&& result is None
            &&& args@.len() == 1
            &&& stands_for(*lhs, *callee, notes)
            &&& stands_for(*rhs, args@[0].value, notes)
        },
        (
            ast::ExprKind::Juxtapose { lhs, .. },
            Expr::MethodCall { recv, receiver_pass, args, result, target, .. },
        ) => {
            &&& notes.exprs[e.id].call_target == Some(TargetView::Method(method_view(target)))
            &&& receiver_pass is None
            &&& result is None
            &&& args@.len() == 0
            &&& stands_for(*lhs, *recv, notes)
        },
        (
            ast::ExprKind::MethodCall { recv, args, .. },
            Expr::MethodCall { recv: v, receiver_pass, args: list, result, target, .. },
        ) => {
            &&& notes.exprs[e.id].call_target == Some(TargetView::Method(method_view(target)))
            &&& receiver_pass is None
            &&& result is None
            &&& stands_for(*recv, *v, notes)
            &&& args_stand_for(args@, list@, notes)
        },
        (
            ast::ExprKind::FuncLit { params, body },
            Expr::FuncLit { params: list, captures, body: inner, .. },
        ) => {
            &&& captures@.len() == 0
            &&& params_stand_for(params@, list@, notes)
            &&& body_stands_for(*body, *inner, notes)
        },
        _ => false,
    }
}

/// A lowered expression stands for a written one.
pub open spec fn stands_for(e: ast::Expr, x: Expr, notes: FactsMap) -> bool
    decreases e, 2nat,
{
    &&& notes.exprs.contains_key(e.id)
    &&& x.spec_span() == e.span
    &&& x.tyv() == noted(notes, e)
    &&& match (notes.exprs[e.id].implicit_zero_callee, x) {
        (Some(ty), Expr::Call { callee, args, result, target, .. }) => {
            &&& notes.exprs[e.id].call_target == Some(TargetView::FunctionValue)
            &&& target is FunctionValue
            &&& result is None
            &&& args@.len() == 0
            &&& same_name(e, *callee, notes)
            &&& callee.tyv() == ty
        },
        (Some(_), _) => false,
        (None, Expr::ReadPlace { source, plan, .. }) => {
            &&& found(notes.owning_reads, e.id) matches Some(read)
            &&& plan@ == read.plan
            &&& place_stands_for(e, read.place, *source, notes)
        },
        (None, _) => kind_stands_for(e, x, notes),
    }
}

/// What the facts say of a lowered expression, and what is left of them.
spec fn used(e: ast::Expr, facts: FactsMap, tree: Tree, after: FactsMap) -> bool {
    &&& part_of(after, facts)
    &&& facts.exprs.contains_key(e.id)
    &&& tree.span == Some(e.span)
    &&& tree.info matches Some(info)
    &&& info.ty == facts.exprs[e.id].ty
}

/// Facts that are left of what is left are left of the whole.
proof fn lemma_chain()
    ensures
        forall|a: FactsMap, b: FactsMap, c: FactsMap|
            #![trigger part_of(a, b), part_of(b, c)]
            part_of(a, b) && part_of(b, c) ==> part_of(a, c),
        forall|a: FactsMap| #[trigger] part_of(a, a),
{
    reveal(part_of);
}

/// Facts of which some are taken away are left of the whole.
proof fn lemma_taken(facts: FactsMap, id: u32)
    ensures
        part_of(FactsMap { field_indices: facts.field_indices.remove(id), ..facts }, facts),
        part_of(FactsMap { move_places: facts.move_places.remove(id), ..facts }, facts),
        part_of(FactsMap { borrow_places: facts.borrow_places.remove(id), ..facts }, facts),
        part_of(FactsMap { owning_reads: facts.owning_reads.remove(id), ..facts }, facts),
        part_of(FactsMap { expr_binding_ids: facts.expr_binding_ids.remove(id), ..facts }, facts),
        part_of(FactsMap { match_binding_ids: facts.match_binding_ids.remove(id), ..facts }, facts),
        part_of(FactsMap { assignment_places: facts.assignment_places.remove(id), ..facts }, facts),
        part_of(
            FactsMap {
                for_ids: facts.for_ids.remove(id),
                fors: facts.fors.remove(id),
                for_plans: facts.for_plans.remove(id),
                ..facts
            },
            facts,
        ),
        part_of(
            FactsMap {
                binding_ids: facts.binding_ids.remove(id),
                bindings: facts.bindings.remove(id),
                ..facts
            },
            facts,
        ),
        part_of(lowered_owner(id, facts).1, facts),
        part_of(without_expr(facts, id), facts),
        forall|n: u32| part_of(#[trigger] renumbered(facts, n), facts),
{
    reveal(part_of);
}

spec fn renumbered(facts: FactsMap, next_function: u32) -> FactsMap {
    FactsMap { next_function, ..facts }
}

proof fn lemma_exprs_used(list: Seq<ast::Expr>, facts: FactsMap, upto: nat)
    ensures
        lowered_exprs(list, facts, upto) matches Ok((_, after)) ==> part_of(after, facts),
    decreases list, upto,
{
    lemma_chain();
    if 0 < upto <= list.len() {
        lemma_exprs_used(list, facts, (upto - 1) as nat);
        match lowered_exprs(list, facts, (upto - 1) as nat) {
            Ok((_, so_far)) => {
                lemma_used(list[upto - 1], so_far);
            },
            Err(_) => {},
        }
    }
}

proof fn lemma_args_used(list: Seq<ast::CallArg>, facts: FactsMap, upto: nat)
    ensures
        lowered_args(list, facts, upto) matches Ok((_, after)) ==> part_of(after, facts),
    decreases list, upto,
{
    lemma_chain();
    if 0 < upto <= list.len() {
        lemma_args_used(list, facts, (upto - 1) as nat);
        match lowered_args(list, facts, (upto - 1) as nat) {
            Ok((_, so_far)) => {
                lemma_used(list[upto - 1].value, so_far);
            },
            Err(_) => {},
        }
    }
}

proof fn lemma_parts_used(list: Seq<ast::StrPart>, facts: FactsMap, upto: nat)
    ensures
        lowered_parts(list, facts, upto) matches Ok((_, after)) ==> part_of(after, facts),
    decreases list, upto,
{
    lemma_chain();
    if 0 < upto <= list.len() {
        lemma_parts_used(list, facts, (upto - 1) as nat);
        match lowered_parts(list, facts, (upto - 1) as nat) {
            Ok((_, so_far)) => {
                match list[upto - 1] {
                    ast::StrPart::Hole(hole) => lemma_used(*hole, so_far),
                    ast::StrPart::Lit(_) => {},
                }
            },
            Err(_) => {},
        }
    }
}

proof fn lemma_arms_used(list: Seq<ast::MatchArm>, facts: FactsMap, upto: nat)
    ensures
        lowered_arms(list, facts, upto) matches Ok((_, after)) ==> part_of(after, facts),
    decreases list, upto,
{
    lemma_chain();
    if 0 < upto <= list.len() {
        lemma_arms_used(list, facts, (upto - 1) as nat);
        match lowered_arms(list, facts, (upto - 1) as nat) {
            Ok((_, so_far)) => {
                lemma_arm_used(list[upto - 1], so_far);
            },
            Err(_) => {},
        }
    }
}

proof fn lemma_stmts_used(list: Seq<ast::Stmt>, facts: FactsMap, upto: nat)
    ensures
        lowered_stmts(list, facts, upto) matches Ok((_, after)) ==> part_of(after, facts),
    decreases list, upto,
{
    lemma_chain();
    if 0 < upto <= list.len() {
        lemma_stmts_used(list, facts, (upto - 1) as nat);
        match lowered_stmts(list, facts, (upto - 1) as nat) {
            Ok((_, so_far)) => {
                lemma_stmt_used(list[upto - 1], so_far);
            },
            Err(_) => {},
        }
    }
}

proof fn lemma_branches_used(list: Seq<(ast::Expr, Vec<ast::Stmt>)>, facts: FactsMap, upto: nat)
    ensures
        lowered_branches(list, facts, upto) matches Ok((_, after)) ==> part_of(after, facts),
    decreases list, upto,
{
    lemma_chain();
    if 0 < upto <= list.len() {
        lemma_branches_used(list, facts, (upto - 1) as nat);
        match lowered_branches(list, facts, (upto - 1) as nat) {
            Ok((_, so_far)) => {
                lemma_branch_used(list[upto - 1], so_far);
            },
            Err(_) => {},
        }
    }
}

proof fn lemma_indices_used(args: Seq<ast::CallArg>, facts: FactsMap, upto: nat)
    requires
        upto <= args.len(),
    ensures
        lowered_indices(args, facts, upto) matches Ok((list, after)) ==> part_of(after, facts)
            && list.len() == upto && forall|i: int|
            0 <= i < upto ==> found(facts.ctor_arg_indices, args[i].id) == Some(#[trigger] list[i]),
    decreases upto,
{
    reveal(part_of);
    if upto > 0 {
        lemma_indices_used(args, facts, (upto - 1) as nat);
    }
}

proof fn lemma_params_used(params: Seq<ast::Param>, facts: FactsMap, upto: nat)
    requires
        upto <= params.len(),
    ensures
        lowered_params(params, facts, upto) matches Ok((list, after)) ==> part_of(after, facts)
            && list.len() == upto && forall|i: int|
            0 <= i < upto ==> match (#[trigger] list[i]).label {
                Label::Param(id, ty, effect) => found(facts.param_ids, params[i].id) == Some(id)
                    && found(facts.params, params[i].id) == Some(ty) && effect is None,
                _ => false,
            },
    decreases upto,
{
    reveal(part_of);
    if upto > 0 {
        lemma_params_used(params, facts, (upto - 1) as nat);
    }
}

proof fn lemma_branch_used(branch: (ast::Expr, Vec<ast::Stmt>), facts: FactsMap)
    ensures
        lowered_branch(branch, facts) matches Ok((_, after)) ==> part_of(after, facts),
    decreases branch, 0nat,
{
    lemma_chain();
    lemma_used(branch.0, facts);
    match lowered_expr(branch.0, facts) {
        Ok((_, between)) => lemma_stmts_used(branch.1@, between, branch.1@.len()),
        Err(_) => {},
    }
}

proof fn lemma_arm_used(arm: ast::MatchArm, facts: FactsMap)
    ensures
        lowered_arm(arm, facts) matches Ok((_, after)) ==> part_of(after, facts),
    decreases arm, 0nat,
{
    lemma_chain();
    lemma_taken(facts, arm.id);
    let rest = FactsMap { match_binding_ids: facts.match_binding_ids.remove(arm.id), ..facts };
    match arm.body {
        ast::ArmBody::Block(stmts) => lemma_stmts_used(stmts@, rest, stmts@.len()),
        ast::ArmBody::Value(value) => lemma_used(*value, rest),
        ast::ArmBody::Ret(value) => lemma_used(*value, rest),
    }
}

proof fn lemma_body_used(body: ast::Body, facts: FactsMap)
    ensures
        lowered_body(body, facts) matches Ok((_, after)) ==> part_of(after, facts),
    decreases body, 0nat,
{
    lemma_chain();
    match body {
        ast::Body::Block(stmts) => lemma_stmts_used(stmts@, facts, stmts@.len()),
        ast::Body::Single(stmt) => lemma_stmt_used(*stmt, facts),
    }
}

proof fn lemma_binding_used(binding: ast::Binding, facts: FactsMap)
    ensures
        lowered_binding(binding, facts) matches Ok((_, after)) ==> part_of(after, facts),
    decreases binding, 0nat,
{
    lemma_chain();
    lemma_taken(facts, binding.id);
    let one = FactsMap {
        binding_ids: facts.binding_ids.remove(binding.id),
        bindings: facts.bindings.remove(binding.id),
        ..facts
    };
    lemma_taken(one, binding.id);
    lemma_used(binding.value, lowered_owner(binding.id, one).1);
}

proof fn lemma_stmt_used(stmt: ast::Stmt, facts: FactsMap)
    ensures
        lowered_stmt(stmt, facts) matches Ok((_, after)) ==> part_of(after, facts),
    decreases stmt, 1nat,
{
    lemma_chain();
    lemma_taken(facts, stmt.id);
    match stmt.kind {
        ast::StmtKind::Binding(binding) => lemma_binding_used(*binding, facts),
        ast::StmtKind::Assign { value } => {
            let rest = FactsMap {
                assignment_places: facts.assignment_places.remove(stmt.id),
                ..facts
            };
            lemma_used(value, rest);
        },
        ast::StmtKind::FieldAssign { recv, value } => {
            let rest = FactsMap {
                assignment_places: facts.assignment_places.remove(stmt.id),
                ..facts
            };
            match found(facts.assignment_places, stmt.id) {
                Some(PlaceFact::Field { base, .. }) => {
                    lemma_base_used(recv, *base, rest);
                    match lowered_base(recv, *base, rest) {
                        Ok((_, between)) => lemma_used(value, between),
                        Err(_) => {},
                    }
                },
                _ => {},
            }
        },
        ast::StmtKind::Expr { expr } => lemma_used(expr, facts),
        ast::StmtKind::Return { value } => match value {
            Some(value) => lemma_used(value, facts),
            None => {},
        },
        ast::StmtKind::If { branches, else_body } => {
            lemma_branches_used(branches@, facts, branches@.len());
            match (lowered_branches(branches@, facts, branches@.len()), else_body) {
                (Ok((_, between)), Some(body)) => lemma_stmts_used(body@, between, body@.len()),
                _ => {},
            }
        },
        ast::StmtKind::While { cond, body } => {
            lemma_used(cond, facts);
            match lowered_expr(cond, facts) {
                Ok((_, between)) => lemma_stmts_used(body@, between, body@.len()),
                Err(_) => {},
            }
        },
        ast::StmtKind::For { iterable, body } => {
            let rest = FactsMap {
                for_ids: facts.for_ids.remove(stmt.id),
                fors: facts.fors.remove(stmt.id),
                for_plans: facts.for_plans.remove(stmt.id),
                ..facts
            };
            lemma_used(iterable, rest);
            match lowered_expr(iterable, rest) {
                Ok((_, between)) => lemma_stmts_used(body@, between, body@.len()),
                Err(_) => {},
            }
        },
        _ => {},
    }
}

proof fn lemma_place_used(e: ast::Expr, place: PlaceFact, facts: FactsMap)
    ensures
        lowered_place(e, place, facts) matches Ok((_, after)) ==> part_of(after, facts),
    decreases e, 1nat,
{
    lemma_chain();
    lemma_taken(facts, e.id);
    match (place, e.kind) {
        (PlaceFact::Field { base, .. }, ast::ExprKind::Field { recv, .. }) => {
            let rest = FactsMap { field_indices: facts.field_indices.remove(e.id), ..facts };
            lemma_base_used(*recv, *base, rest);
        },
        (PlaceFact::Index { base, .. }, ast::ExprKind::Index { recv, idx }) => {
            lemma_base_used(*recv, *base, facts);
            match lowered_base(*recv, *base, facts) {
                Ok((_, between)) => lemma_used(*idx, between),
                Err(_) => {},
            }
        },
        _ => {},
    }
}

proof fn lemma_base_used(e: ast::Expr, place: PlaceFact, facts: FactsMap)
    ensures
        lowered_base(e, place, facts) matches Ok((_, after)) ==> part_of(after, facts),
    decreases e, 2nat,
{
    lemma_chain();
    lemma_taken(facts, e.id);
    lemma_place_used(e, place, without_expr(facts, e.id));
}

proof fn lemma_call_used(e: ast::Expr, fact: ExprFact, facts: FactsMap)
    ensures
        lowered_call(e, fact, facts) matches Ok((tree, after)) ==> part_of(after, facts)
            && tree.span == Some(e.span) && (tree.info matches Some(info) && info.ty == fact.ty),
    decreases e, 0nat,
{
    lemma_chain();
    match (e.kind, fact.call_target) {
        (ast::ExprKind::Call { callee, args }, Some(target)) => {
            lemma_used(*callee, facts);
            match lowered_expr(*callee, facts) {
                Ok((_, between)) => { lemma_taken(between, e.id); match target {
                    TargetView::ContextualConversion(_) | TargetView::Typeof => if args@.len() == 1 {
                        lemma_used(args@[0].value, between);
                    },
                    TargetView::Move => if args@.len() == 1 {
                        match found(between.move_places, e.id) {
                            Some(place) => lemma_base_used(
                                args@[0].value,
                                place,
                                FactsMap { move_places: between.move_places.remove(e.id), ..between },
                            ),
                            None => {},
                        }
                    },
                    TargetView::Borrow => if args@.len() == 1 {
                        match found(between.borrow_places, e.id) {
                            Some(borrow) => lemma_base_used(
                                args@[0].value,
                                borrow.place,
                                FactsMap {
                                    borrow_places: between.borrow_places.remove(e.id),
                                    ..between
                                },
                            ),
                            None => {},
                        }
                    },
                    _ => {
                        lemma_args_used(args@, between, args@.len());
                        match lowered_args(args@, between, args@.len()) {
                            Ok((_, two)) => lemma_indices_used(args@, two, args@.len()),
                            Err(_) => {},
                        }
                    },
                } },
                Err(_) => {},
            }
        },
        _ => {},
    }
}

proof fn lemma_unary_used(e: ast::Expr, fact: ExprFact, facts: FactsMap)
    requires
        e.kind is Cast || e.kind is Neg || e.kind is Not || e.kind is BitNot || e.kind is Propagate
            || e.kind is Field,
    ensures
        lowered_kind(e, fact, facts) matches Ok((tree, after)) ==> part_of(after, facts)
            && tree.span == Some(e.span) && (tree.info matches Some(info) && info.ty == fact.ty),
    decreases e, 0nat,
{
    lemma_chain();
    match e.kind {
        ast::ExprKind::Cast { expr, .. } => lemma_used(*expr, facts),
        ast::ExprKind::Neg { expr } => lemma_used(*expr, facts),
        ast::ExprKind::Not { expr } => lemma_used(*expr, facts),
        ast::ExprKind::BitNot { expr } => lemma_used(*expr, facts),
        ast::ExprKind::Propagate { expr } => lemma_used(*expr, facts),
        ast::ExprKind::Field { recv, .. } => {
            lemma_used(*recv, facts);
            match lowered_expr(*recv, facts) {
                Ok((_, after)) => lemma_taken(after, e.id),
                Err(_) => {},
            }
        },
        _ => {},
    }
}

proof fn lemma_pair_used(e: ast::Expr, fact: ExprFact, facts: FactsMap)
    requires
        e.kind is Binary || e.kind is Index || e.kind is Juxtapose,
    ensures
        lowered_kind(e, fact, facts) matches Ok((tree, after)) ==> part_of(after, facts)
            && tree.span == Some(e.span) && (tree.info matches Some(info) && info.ty == fact.ty),
    decreases e, 0nat,
{
    lemma_chain();
    match e.kind {
        ast::ExprKind::Binary { lhs, rhs, .. } => {
            lemma_used(*lhs, facts);
            match lowered_expr(*lhs, facts) {
                Ok((_, between)) => lemma_used(*rhs, between),
                Err(_) => {},
            }
        },
        ast::ExprKind::Index { recv, idx } => {
            lemma_used(*recv, facts);
            match lowered_expr(*recv, facts) {
                Ok((_, between)) => lemma_used(*idx, between),
                Err(_) => {},
            }
        },
        ast::ExprKind::Juxtapose { lhs, rhs } => {
            lemma_used(*lhs, facts);
            match lowered_expr(*lhs, facts) {
                Ok((_, between)) => lemma_used(*rhs, between),
                Err(_) => {},
            }
        },
        _ => {},
    }
}

proof fn lemma_ternary_used(e: ast::Expr, fact: ExprFact, facts: FactsMap)
    requires
        e.kind is Ternary,
    ensures
        lowered_kind(e, fact, facts) matches Ok((tree, after)) ==> part_of(after, facts)
            && tree.span == Some(e.span) && (tree.info matches Some(info) && info.ty == fact.ty),
    decreases e, 0nat,
{
    lemma_chain();
    match e.kind {
        ast::ExprKind::Ternary { cond, then_expr, else_expr } => {
            lemma_used(*cond, facts);
            match lowered_expr(*cond, facts) {
                Ok((_, one)) => {
                    lemma_used(*then_expr, one);
                    match lowered_expr(*then_expr, one) {
                        Ok((_, two)) => lemma_used(*else_expr, two),
                        Err(_) => {},
                    }
                },
                Err(_) => {},
            }
        },
        _ => {},
    }
}

proof fn lemma_list_used(e: ast::Expr, fact: ExprFact, facts: FactsMap)
    requires
        e.kind is Str || e.kind is ArrayLit,
    ensures
        lowered_kind(e, fact, facts) matches Ok((tree, after)) ==> part_of(after, facts)
            && tree.span == Some(e.span) && (tree.info matches Some(info) && info.ty == fact.ty),
    decreases e, 0nat,
{
    lemma_chain();
    match e.kind {
        ast::ExprKind::Str(parts) => lemma_parts_used(parts@, facts, parts@.len()),
        ast::ExprKind::ArrayLit { elems } => lemma_exprs_used(elems@, facts, elems@.len()),
        _ => {},
    }
}

proof fn lemma_match_used(e: ast::Expr, fact: ExprFact, facts: FactsMap)
    requires
        e.kind is Match,
    ensures
        lowered_kind(e, fact, facts) matches Ok((tree, after)) ==> part_of(after, facts)
            && tree.span == Some(e.span) && (tree.info matches Some(info) && info.ty == fact.ty),
    decreases e, 0nat,
{
    lemma_chain();
    match e.kind {
        ast::ExprKind::Match { subject, arms } => {
            lemma_used(*subject, facts);
            match lowered_expr(*subject, facts) {
                Ok((_, between)) => lemma_arms_used(arms@, between, arms@.len()),
                Err(_) => {},
            }
        },
        _ => {},
    }
}

proof fn lemma_method_used(e: ast::Expr, fact: ExprFact, facts: FactsMap)
    requires
        e.kind is MethodCall,
    ensures
        lowered_kind(e, fact, facts) matches Ok((tree, after)) ==> part_of(after, facts)
            && tree.span == Some(e.span) && (tree.info matches Some(info) && info.ty == fact.ty),
    decreases e, 0nat,
{
    lemma_chain();
    match e.kind {
        ast::ExprKind::MethodCall { recv, args, .. } => {
            lemma_used(*recv, facts);
            match lowered_expr(*recv, facts) {
                Ok((_, between)) => lemma_args_used(args@, between, args@.len()),
                Err(_) => {},
            }
        },
        _ => {},
    }
}

proof fn lemma_function_used(e: ast::Expr, fact: ExprFact, facts: FactsMap)
    requires
        e.kind is FuncLit,
    ensures
        lowered_kind(e, fact, facts) matches Ok((tree, after)) ==> part_of(after, facts)
            && tree.span == Some(e.span) && (tree.info matches Some(info) && info.ty == fact.ty),
    decreases e, 0nat,
{
    lemma_chain();
    lemma_taken(facts, e.id);
    match e.kind {
        ast::ExprKind::FuncLit { params, body } => if facts.next_function < u32::MAX {
            let started = renumbered(facts, (facts.next_function + 1) as u32);
            lemma_params_used(params@, started, params@.len());
            match lowered_params(params@, started, params@.len()) {
                Ok((_, between)) => lemma_body_used(*body, between),
                Err(_) => {},
            }
        },
        _ => {},
    }
}

proof fn lemma_kind_used(e: ast::Expr, fact: ExprFact, facts: FactsMap)
    ensures
        lowered_kind(e, fact, facts) matches Ok((tree, after)) ==> part_of(after, facts)
            && tree.span == Some(e.span) && (tree.info matches Some(info) && info.ty == fact.ty),
    decreases e, 1nat,
{
    match e.kind {
        ast::ExprKind::Cast { .. }
        | ast::ExprKind::Neg { .. }
        | ast::ExprKind::Not { .. }
        | ast::ExprKind::BitNot { .. }
        | ast::ExprKind::Propagate { .. }
        | ast::ExprKind::Field { .. } => lemma_unary_used(e, fact, facts),
        ast::ExprKind::Binary { .. }
        | ast::ExprKind::Index { .. }
        | ast::ExprKind::Juxtapose { .. } => lemma_pair_used(e, fact, facts),
        ast::ExprKind::Ternary { .. } => lemma_ternary_used(e, fact, facts),
        ast::ExprKind::Str(_) | ast::ExprKind::ArrayLit { .. } => lemma_list_used(e, fact, facts),
        ast::ExprKind::Match { .. } => lemma_match_used(e, fact, facts),
        ast::ExprKind::MethodCall { .. } => lemma_method_used(e, fact, facts),
        ast::ExprKind::FuncLit { .. } => lemma_function_used(e, fact, facts),
        ast::ExprKind::Call { .. } => lemma_call_used(e, fact, facts),
        _ => {
            lemma_chain();
            lemma_taken(facts, e.id);
        },
    }
}

proof fn lemma_used(e: ast::Expr, facts: FactsMap)
    ensures
        lowered_expr(e, facts) matches Ok((tree, after)) ==> used(e, facts, tree, after)
            && !without_expr(facts, e.id).exprs.contains_key(e.id),
    decreases e, 3nat,
{
    lemma_chain();
    lemma_taken(facts, e.id);
    lemma_taken(without_expr(facts, e.id), e.id);
    match found(facts.exprs, e.id) {
        Some(fact) => {
            let rest = without_expr(facts, e.id);
            lemma_kind_used(e, fact, rest);
            match found(rest.owning_reads, e.id) {
                Some(read) => lemma_place_used(
                    e,
                    read.place,
                    FactsMap { owning_reads: rest.owning_reads.remove(e.id), ..rest },
                ),
                None => {},
            }
        },
        None => {},
    }
}

/// Each element was lowered with facts that were left of the first ones.
proof fn lemma_exprs_at(list: Seq<ast::Expr>, facts: FactsMap, upto: nat, i: int) -> (f: FactsMap)
    requires
        0 <= i < upto <= list.len(),
        lowered_exprs(list, facts, upto) is Ok,
    ensures
        part_of(f, facts),
        lowered_exprs(list, facts, upto)->Ok_0.0.len() == upto,
        lowered_expr(list[i], f) matches Ok((tree, _)) && tree == lowered_exprs(list, facts, upto)->Ok_0.0[i],
    decreases upto,
{
    lemma_chain();
    let shorter = (upto - 1) as nat;
    lemma_exprs_used(list, facts, shorter);
    let f = if i == upto - 1 {
        if shorter > 0 {
            let _ = lemma_exprs_at(list, facts, shorter, 0);
        }
        lowered_exprs(list, facts, shorter)->Ok_0.1
    } else {
        lemma_exprs_at(list, facts, shorter, i)
    };
    f
}

/// Each element was lowered with facts that were left of the first ones.
proof fn lemma_stmts_at(list: Seq<ast::Stmt>, facts: FactsMap, upto: nat, i: int) -> (f: FactsMap)
    requires
        0 <= i < upto <= list.len(),
        lowered_stmts(list, facts, upto) is Ok,
    ensures
        part_of(f, facts),
        lowered_stmts(list, facts, upto)->Ok_0.0.len() == upto,
        lowered_stmt(list[i], f) matches Ok((tree, _)) && tree == lowered_stmts(list, facts, upto)->Ok_0.0[i],
    decreases upto,
{
    lemma_chain();
    let shorter = (upto - 1) as nat;
    lemma_stmts_used(list, facts, shorter);
    let f = if i == upto - 1 {
        if shorter > 0 {
            let _ = lemma_stmts_at(list, facts, shorter, 0);
        }
        lowered_stmts(list, facts, shorter)->Ok_0.1
    } else {
        lemma_stmts_at(list, facts, shorter, i)
    };
    f
}

/// Each element was lowered with facts that were left of the first ones.
proof fn lemma_arms_at(list: Seq<ast::MatchArm>, facts: FactsMap, upto: nat, i: int) -> (f: FactsMap)
    requires
        0 <= i < upto <= list.len(),
        lowered_arms(list, facts, upto) is Ok,
    ensures
        part_of(f, facts),
        lowered_arms(list, facts, upto)->Ok_0.0.len() == upto,
        lowered_arm(list[i], f) matches Ok((tree, _)) && tree == lowered_arms(list, facts, upto)->Ok_0.0[i],
    decreases upto,
{
    lemma_chain();
    let shorter = (upto - 1) as nat;
    lemma_arms_used(list, facts, shorter);
    let f = if i == upto - 1 {
        if shorter > 0 {
            let _ = lemma_arms_at(list, facts, shorter, 0);
        }
        lowered_arms(list, facts, shorter)->Ok_0.1
    } else {
        lemma_arms_at(list, facts, shorter, i)
    };
    f
}

/// Each element was lowered with facts that were left of the first ones.
proof fn lemma_branches_at(list: Seq<(ast::Expr, Vec<ast::Stmt>)>, facts: FactsMap, upto: nat, i: int) -> (f: FactsMap)
    requires
        0 <= i < upto <= list.len(),
        lowered_branches(list, facts, upto) is Ok,
    ensures
        part_of(f, facts),
        lowered_branches(list, facts, upto)->Ok_0.0.len() == upto,
        lowered_branch(list[i], f) matches Ok((tree, _)) && tree == lowered_branches(list, facts, upto)->Ok_0.0[i],
    decreases upto,
{
    lemma_chain();
    let shorter = (upto - 1) as nat;
    lemma_branches_used(list, facts, shorter);
    let f = if i == upto - 1 {
        if shorter > 0 {
            let _ = lemma_branches_at(list, facts, shorter, 0);
        }
        lowered_branches(list, facts, shorter)->Ok_0.1
    } else {
        lemma_branches_at(list, facts, shorter, i)
    };
    f
}

/// Each element was lowered with facts that were left of the first ones.
proof fn lemma_args_at(list: Seq<ast::CallArg>, facts: FactsMap, upto: nat, i: int) -> (f: FactsMap)
    requires
        0 <= i < upto <= list.len(),
        lowered_args(list, facts, upto) is Ok,
    ensures
        part_of(f, facts),
        lowered_args(list, facts, upto)->Ok_0.0.len() == upto,
        lowered_expr(list[i].value, f) matches Ok((tree, _)) && arg_part(tree) == lowered_args(
            list,
            facts,
            upto,
        )->Ok_0.0[i],
    decreases upto,
{
    lemma_chain();
    let shorter = (upto - 1) as nat;
    lemma_args_used(list, facts, shorter);
    let f = if i == upto - 1 {
        if shorter > 0 {
            let _ = lemma_args_at(list, facts, shorter, 0);
        }
        lowered_args(list, facts, shorter)->Ok_0.1
    } else {
        lemma_args_at(list, facts, shorter, i)
    };
    f
}

/// Each element was lowered with facts that were left of the first ones.
proof fn lemma_parts_at(list: Seq<ast::StrPart>, facts: FactsMap, upto: nat, i: int) -> (f: FactsMap)
    requires
        0 <= i < upto <= list.len(),
        lowered_parts(list, facts, upto) is Ok,
    ensures
        part_of(f, facts),
        lowered_parts(list, facts, upto)->Ok_0.0.len() == upto,
        match list[i] {
            ast::StrPart::Lit(text) => lowered_parts(list, facts, upto)->Ok_0.0[i] == part(
                Label::Lit(text@),
                Seq::empty(),
            ),
            ast::StrPart::Hole(hole) => lowered_expr(*hole, f) matches Ok((tree, _)) && part(
                Label::Hole,
                seq![tree],
            ) == lowered_parts(list, facts, upto)->Ok_0.0[i],
        },
    decreases upto,
{
    lemma_chain();
    let shorter = (upto - 1) as nat;
    lemma_parts_used(list, facts, shorter);
    let f = if i == upto - 1 {
        if shorter > 0 {
            let _ = lemma_parts_at(list, facts, shorter, 0);
        }
        lowered_parts(list, facts, shorter)->Ok_0.1
    } else {
        lemma_parts_at(list, facts, shorter, i)
    };
    f
}

proof fn lemma_exprs_len(list: Seq<ast::Expr>, facts: FactsMap, upto: nat)
    requires
        upto <= list.len(),
    ensures
        lowered_exprs(list, facts, upto) matches Ok((done, _)) ==> done.len() == upto,
    decreases upto,
{
    if upto > 0 {
        lemma_exprs_len(list, facts, (upto - 1) as nat);
    }
}

proof fn lemma_args_len(list: Seq<ast::CallArg>, facts: FactsMap, upto: nat)
    requires
        upto <= list.len(),
    ensures
        lowered_args(list, facts, upto) matches Ok((done, _)) ==> done.len() == upto,
    decreases upto,
{
    if upto > 0 {
        lemma_args_len(list, facts, (upto - 1) as nat);
    }
}

proof fn lemma_parts_len(list: Seq<ast::StrPart>, facts: FactsMap, upto: nat)
    requires
        upto <= list.len(),
    ensures
        lowered_parts(list, facts, upto) matches Ok((done, _)) ==> done.len() == upto,
    decreases upto,
{
    if upto > 0 {
        lemma_parts_len(list, facts, (upto - 1) as nat);
    }
}

proof fn lemma_stmts_len(list: Seq<ast::Stmt>, facts: FactsMap, upto: nat)
    requires
        upto <= list.len(),
    ensures
        lowered_stmts(list, facts, upto) matches Ok((done, _)) ==> done.len() == upto,
    decreases upto,
{
    if upto > 0 {
        lemma_stmts_len(list, facts, (upto - 1) as nat);
    }
}

proof fn lemma_arms_len(list: Seq<ast::MatchArm>, facts: FactsMap, upto: nat)
    requires
        upto <= list.len(),
    ensures
        lowered_arms(list, facts, upto) matches Ok((done, _)) ==> done.len() == upto,
    decreases upto,
{
    if upto > 0 {
        lemma_arms_len(list, facts, (upto - 1) as nat);
    }
}

proof fn lemma_branches_len(list: Seq<(ast::Expr, Vec<ast::Stmt>)>, facts: FactsMap, upto: nat)
    requires
        upto <= list.len(),
    ensures
        lowered_branches(list, facts, upto) matches Ok((done, _)) ==> done.len() == upto,
    decreases upto,
{
    if upto > 0 {
        lemma_branches_len(list, facts, (upto - 1) as nat);
    }
}

proof fn prove_exprs(list: Seq<ast::Expr>, facts: FactsMap, notes: FactsMap, xs: Seq<Expr>)
    requires
        part_of(facts, notes),
        lowered_exprs(list, facts, list.len()) is Ok,
        lowered_exprs(list, facts, list.len())->Ok_0.0.len() == xs.len(),
        forall|i: int|
            0 <= i < xs.len() ==> lowered_exprs(list, facts, list.len())->Ok_0.0[i] == expr_tree(
                #[trigger] xs[i],
            ),
    ensures
        exprs_stand_for(list, xs, notes),
    decreases list, 0nat,
{
    lemma_chain();
    lemma_exprs_len(list, facts, list.len());
    assert forall|i: int| 0 <= i < list.len() implies stands_for(list[i], #[trigger] xs[i], notes) by {
        let f = lemma_exprs_at(list, facts, list.len(), i);
        prove_expr(list[i], f, notes, xs[i]);
    }
}

proof fn prove_stmts(list: Seq<ast::Stmt>, facts: FactsMap, notes: FactsMap, xs: Seq<Stmt>)
    requires
        part_of(facts, notes),
        lowered_stmts(list, facts, list.len()) is Ok,
        lowered_stmts(list, facts, list.len())->Ok_0.0.len() == xs.len(),
        forall|i: int|
            0 <= i < xs.len() ==> lowered_stmts(list, facts, list.len())->Ok_0.0[i] == stmt_tree(
                #[trigger] xs[i],
            ),
    ensures
        stmts_stand_for(list, xs, notes),
    decreases list, 0nat,
{
    lemma_chain();
    lemma_stmts_len(list, facts, list.len());
    assert forall|i: int| 0 <= i < list.len() implies stmt_stands_for(list[i], #[trigger] xs[i], notes) by {
        let f = lemma_stmts_at(list, facts, list.len(), i);
        prove_stmt(list[i], f, notes, xs[i]);
    }
}

proof fn prove_arms(list: Seq<ast::MatchArm>, facts: FactsMap, notes: FactsMap, xs: Seq<MatchArm>)
    requires
        part_of(facts, notes),
        lowered_arms(list, facts, list.len()) is Ok,
        lowered_arms(list, facts, list.len())->Ok_0.0.len() == xs.len(),
        forall|i: int|
            0 <= i < xs.len() ==> lowered_arms(list, facts, list.len())->Ok_0.0[i] == arm_tree(
                #[trigger] xs[i],
            ),
    ensures
        arms_stand_for(list, xs, notes),
    decreases list, 0nat,
{
    lemma_chain();
    lemma_arms_len(list, facts, list.len());
    assert forall|i: int| 0 <= i < list.len() implies arm_stands_for(list[i], #[trigger] xs[i], notes) by {
        let f = lemma_arms_at(list, facts, list.len(), i);
        prove_arm(list[i], f, notes, xs[i]);
    }
}

proof fn prove_branches(list: Seq<(ast::Expr, Vec<ast::Stmt>)>, facts: FactsMap, notes: FactsMap, xs: Seq<(Expr, Vec<Stmt>)>)
    requires
        part_of(facts, notes),
        lowered_branches(list, facts, list.len()) is Ok,
        lowered_branches(list, facts, list.len())->Ok_0.0.len() == xs.len(),
        forall|i: int|
            0 <= i < xs.len() ==> lowered_branches(list, facts, list.len())->Ok_0.0[i] == branch_tree(
                #[trigger] xs[i],
            ),
    ensures
        branches_stand_for(list, xs, notes),
    decreases list, 0nat,
{
    lemma_chain();
    lemma_branches_len(list, facts, list.len());
    assert forall|i: int| 0 <= i < list.len() implies branch_stands_for(list[i], #[trigger] xs[i], notes) by {
        let f = lemma_branches_at(list, facts, list.len(), i);
        prove_branch(list[i], f, notes, xs[i]);
    }
}

proof fn prove_args(list: Seq<ast::CallArg>, facts: FactsMap, notes: FactsMap, xs: Seq<CallArg>)
    requires
        part_of(facts, notes),
        lowered_args(list, facts, list.len()) is Ok,
        lowered_args(list, facts, list.len())->Ok_0.0.len() == xs.len(),
        forall|i: int|
            0 <= i < xs.len() ==> lowered_args(list, facts, list.len())->Ok_0.0[i] == arg_tree(
                #[trigger] xs[i],
            ),
    ensures
        args_stand_for(list, xs, notes),
    decreases list, 0nat,
{
    lemma_chain();
    lemma_args_len(list, facts, list.len());
    assert forall|i: int| 0 <= i < list.len() implies stands_for(list[i].value, (#[trigger] xs[i]).value, notes) by {
        let f = lemma_args_at(list, facts, list.len(), i);
        let value = lowered_expr(list[i].value, f)->Ok_0.0;
        assert(arg_tree(xs[i]).kids[0] == arg_part(value).kids[0]);
        prove_expr(list[i].value, f, notes, xs[i].value);
    }
}

proof fn prove_parts(list: Seq<ast::StrPart>, facts: FactsMap, notes: FactsMap, xs: Seq<StrPart>)
    requires
        part_of(facts, notes),
        lowered_parts(list, facts, list.len()) is Ok,
        lowered_parts(list, facts, list.len())->Ok_0.0.len() == xs.len(),
        forall|i: int|
            0 <= i < xs.len() ==> lowered_parts(list, facts, list.len())->Ok_0.0[i] == str_part_tree(
                #[trigger] xs[i],
            ),
    ensures
        parts_stand_for(list, xs, notes),
    decreases list, 0nat,
{
    lemma_chain();
    lemma_parts_len(list, facts, list.len());
    assert forall|i: int| 0 <= i < list.len() implies part_stands_for(list[i], #[trigger] xs[i], notes) by {
        let f = lemma_parts_at(list, facts, list.len(), i);
        match (list[i], xs[i]) {
            (ast::StrPart::Hole(hole), StrPart::Hole(v)) => {
                let value = lowered_expr(*hole, f)->Ok_0.0;
                assert(str_part_tree(xs[i]).kids[0] == expr_tree(*v));
                assert(part(Label::Hole, seq![value]).kids[0] == value);
                prove_expr(*hole, f, notes, *v);
            },
            _ => {},
        }
    }
}

proof fn prove_branch(
    branch: (ast::Expr, Vec<ast::Stmt>),
    facts: FactsMap,
    notes: FactsMap,
    x: (Expr, Vec<Stmt>),
)
    requires
        part_of(facts, notes),
        lowered_branch(branch, facts) is Ok,
        lowered_branch(branch, facts)->Ok_0.0 == branch_tree(x),
    ensures
        branch_stands_for(branch, x, notes),
    decreases branch, 0nat,
{
    lemma_chain();
    lemma_used(branch.0, facts);
    let (cond, between) = lowered_expr(branch.0, facts)->Ok_0;
    let (body, _) = lowered_stmts(branch.1@, between, branch.1@.len())->Ok_0;
    let tree = part(Label::Branch, seq![cond, part(Label::List, body)]);
    assert(tree.kids[0] == cond && branch_tree(x).kids[0] == expr_tree(x.0));
    assert(tree.kids[1] == part(Label::List, body));
    assert(branch_tree(x).kids[1] == part(Label::List, stmt_trees(x.1@)));
    prove_expr(branch.0, facts, notes, x.0);
    prove_stmts(branch.1@, between, notes, x.1@);
}

proof fn prove_arm(arm: ast::MatchArm, facts: FactsMap, notes: FactsMap, x: MatchArm)
    requires
        part_of(facts, notes),
        lowered_arm(arm, facts) is Ok,
        lowered_arm(arm, facts)->Ok_0.0 == arm_tree(x),
    ensures
        arm_stands_for(arm, x, notes),
    decreases arm, 0nat,
{
    lemma_chain();
    lemma_taken(facts, arm.id);
    let rest = FactsMap { match_binding_ids: facts.match_binding_ids.remove(arm.id), ..facts };
    let tree = lowered_arm(arm, facts)->Ok_0.0;
    assert(tree.kids[0] == arm_body_tree(x.body));
    assert(found(facts.match_binding_ids, arm.id) is Some ==> found(notes.match_binding_ids, arm.id)
        == found(facts.match_binding_ids, arm.id)) by {
        reveal(part_of);
    }
    match (arm.body, x.body) {
        (ast::ArmBody::Block(a), ArmBody::Block(b)) => {
            let list = lowered_stmts(a@, rest, a@.len())->Ok_0.0;
            assert(tree.kids[0] == part(Label::ArmBlock, list));
            assert(list == stmt_trees(b@));
            prove_stmts(a@, rest, notes, b@);
        },
        (ast::ArmBody::Value(a), ArmBody::Value(b)) => {
            let value = lowered_expr(*a, rest)->Ok_0.0;
            assert(tree.kids[0] == part(Label::ArmValue, seq![value]));
            assert(seq![value][0] == seq![expr_tree(*b)][0]);
            prove_expr(*a, rest, notes, *b);
        },
        (ast::ArmBody::Ret(a), ArmBody::Ret(b)) => {
            let value = lowered_expr(*a, rest)->Ok_0.0;
            assert(tree.kids[0] == part(Label::ArmRet, seq![value]));
            assert(seq![value][0] == seq![expr_tree(*b)][0]);
            prove_expr(*a, rest, notes, *b);
        },
        _ => {},
    }
}

proof fn prove_body(body: ast::Body, facts: FactsMap, notes: FactsMap, x: Body)
    requires
        part_of(facts, notes),
        lowered_body(body, facts) is Ok,
        lowered_body(body, facts)->Ok_0.0 == body_tree(x),
    ensures
        body_stands_for(body, x, notes),
    decreases body, 0nat,
{
    let tree = lowered_body(body, facts)->Ok_0.0;
    match (body, x) {
        (ast::Body::Block(a), Body::Block(b)) => {
            assert(tree.kids == stmt_trees(b@));
            prove_stmts(a@, facts, notes, b@);
        },
        (ast::Body::Single(a), Body::Single(b)) => {
            assert(tree.kids[0] == stmt_tree(*b));
            prove_stmt(*a, facts, notes, *b);
        },
        _ => {},
    }
}

proof fn prove_binding(binding: ast::Binding, facts: FactsMap, notes: FactsMap, x: Binding)
    requires
        part_of(facts, notes),
        lowered_binding(binding, facts) is Ok,
        lowered_binding(binding, facts)->Ok_0.0 == binding_tree(x),
    ensures
        binding_stands_for(binding, x, notes),
    decreases binding, 0nat,
{
    lemma_chain();
    lemma_taken(facts, binding.id);
    let one = FactsMap {
        binding_ids: facts.binding_ids.remove(binding.id),
        bindings: facts.bindings.remove(binding.id),
        ..facts
    };
    lemma_taken(one, binding.id);
    let (owner, two) = lowered_owner(binding.id, one);
    let tree = lowered_binding(binding, facts)->Ok_0.0;
    let (value, _) = lowered_expr(binding.value, two)->Ok_0;
    assert(tree.kids[0] == method_value(owner->0, value, binding.span)->Ok_0);
    assert(binding_tree(x).kids[0] == expr_tree(x.value));
    reveal(part_of);
    match x.owner {
        BindingOwner::Ordinary => {
            prove_expr(binding.value, two, notes, x.value);
        },
        BindingOwner::Method { self_id, .. } => {
            assert(value.label is FuncLit);
            prove_method(binding.value, two, notes, x.value, self_id);
        },
    }
}

/// A method is the written function with its receiver added.
proof fn prove_method(
    e: ast::Expr,
    facts: FactsMap,
    notes: FactsMap,
    x: Expr,
    self_id: BindingId,
)
    requires
        part_of(facts, notes),
        lowered_expr(e, facts) is Ok,
        lowered_expr(e, facts)->Ok_0.0.label is FuncLit,
        expr_tree(x) == (Tree {
            label: Label::FuncLit(
                lowered_expr(e, facts)->Ok_0.0.label->FuncLit_0,
                lowered_expr(e, facts)->Ok_0.0.label->FuncLit_1.push(self_id),
            ),
            ..lowered_expr(e, facts)->Ok_0.0
        }),
    ensures
        stands_for(e, x, notes),
        x matches Expr::FuncLit { implicit_bindings, .. } && implicit_bindings@.len() > 0
            && implicit_bindings@.last() == self_id,
    decreases e, 3nat,
{
    lemma_chain();
    lemma_used(e, facts);
    lemma_taken(facts, e.id);
    lemma_expr_head(x);
    let fact = facts.exprs[e.id];
    let rest = without_expr(facts, e.id);
    assert(notes.exprs.contains_key(e.id) && notes.exprs[e.id] == fact) by {
        reveal(part_of);
    }
    assert(fact.implicit_zero_callee is None);
    assert(found(rest.owning_reads, e.id) is None);
    assert(e.kind is FuncLit) by {
        lemma_call_label(e, fact, rest);
    }
    prove_function(e, fact, rest, notes, x);
}

/// A call is never lowered to a function literal.
proof fn lemma_call_label(e: ast::Expr, fact: ExprFact, facts: FactsMap)
    ensures
        !(e.kind is FuncLit) ==> (lowered_kind(e, fact, facts) matches Ok((tree, _)) ==> !(tree.label
            is FuncLit)),
{
    reveal_with_fuel(lowered_kind, 2);
    reveal_with_fuel(lowered_call, 2);
    reveal_with_fuel(lowered_juxtapose, 2);
    reveal_with_fuel(lowered_method, 2);
}

proof fn prove_stmt(stmt: ast::Stmt, facts: FactsMap, notes: FactsMap, x: Stmt)
    requires
        part_of(facts, notes),
        lowered_stmt(stmt, facts) is Ok,
        lowered_stmt(stmt, facts)->Ok_0.0 == stmt_tree(x),
    ensures
        stmt_stands_for(stmt, x, notes),
    decreases stmt, 1nat,
{
    lemma_chain();
    lemma_taken(facts, stmt.id);
    let tree = lowered_stmt(stmt, facts)->Ok_0.0;
    let rest = FactsMap { assignment_places: facts.assignment_places.remove(stmt.id), ..facts };
    match stmt.kind {
        ast::StmtKind::Binding(a) => match x {
            Stmt::Binding(b) => {
                assert(tree.kids[0] == binding_tree(b));
                prove_binding(*a, facts, notes, b);
            },
            _ => {},
        },
        ast::StmtKind::Assign { value } => match x {
            Stmt::Assign { target, value: v, .. } => {
                assert(tree.kids[0] == place_tree(target) && tree.kids[1] == expr_tree(v));
                reveal(part_of);
                prove_expr(value, rest, notes, v);
            },
            _ => {},
        },
        ast::StmtKind::FieldAssign { .. } => prove_field_assign(stmt, facts, notes, x),
        ast::StmtKind::Expr { expr } => match x {
            Stmt::Expr { expr: v } => {
                assert(tree.kids[0] == expr_tree(v));
                prove_expr(expr, facts, notes, v);
            },
            _ => {},
        },
        ast::StmtKind::Return { value } => match x {
            Stmt::Return { value: v } => {
                match (value, v) {
                    (Some(a), Some(b)) => {
                        assert(tree.kids[0] == expr_tree(b));
                        prove_expr(a, facts, notes, b);
                    },
                    (None, Some(b)) => {
                        assert(tree.kids.len() == 0);
                        assert(stmt_tree(x).kids.len() == 1);
                    },
                    (Some(a), None) => {
                        assert(tree.kids.len() == 1);
                        assert(stmt_tree(x).kids.len() == 0);
                    },
                    _ => {},
                }
            },
            _ => {},
        },
        ast::StmtKind::If { .. } => prove_if(stmt, facts, notes, x),
        ast::StmtKind::While { cond, body } => match x {
            Stmt::While { cond: test, body: list } => {
                lemma_used(cond, facts);
                let (head, between) = lowered_expr(cond, facts)->Ok_0;
                assert(tree.kids[0] == expr_tree(test));
                assert(tree.kids[1].kids == stmt_trees(list@));
                prove_expr(cond, facts, notes, test);
                prove_stmts(body@, between, notes, list@);
            },
            _ => {},
        },
        ast::StmtKind::For { iterable, body } => match x {
            Stmt::For { iterable: source, body: list, .. } => {
                let left = FactsMap {
                    for_ids: facts.for_ids.remove(stmt.id),
                    fors: facts.fors.remove(stmt.id),
                    for_plans: facts.for_plans.remove(stmt.id),
                    ..facts
                };
                lemma_used(iterable, left);
                let (head, between) = lowered_expr(iterable, left)->Ok_0;
                assert(tree.kids[0] == expr_tree(source));
                assert(tree.kids[1].kids == stmt_trees(list@));
                reveal(part_of);
                prove_expr(iterable, left, notes, source);
                prove_stmts(body@, between, notes, list@);
            },
            _ => {},
        },
        _ => {},
    }
}

proof fn prove_if(stmt: ast::Stmt, facts: FactsMap, notes: FactsMap, x: Stmt)
    requires
        stmt.kind is If,
        part_of(facts, notes),
        lowered_stmt(stmt, facts) is Ok,
        lowered_stmt(stmt, facts)->Ok_0.0 == stmt_tree(x),
    ensures
        stmt_stands_for(stmt, x, notes),
    decreases stmt, 0nat,
{
    lemma_chain();
    let tree = lowered_stmt(stmt, facts)->Ok_0.0;
    match (stmt.kind, x) {
        (ast::StmtKind::If { branches, else_body }, Stmt::If { branches: list, else_body: rest }) => {
            lemma_branches_used(branches@, facts, branches@.len());
            let (done, between) = lowered_branches(branches@, facts, branches@.len())->Ok_0;
            assert(tree.kids[0] == part(Label::List, done));
            assert(stmt_tree(x).kids[0] == part(Label::List, branch_trees(list@)));
            prove_branches(branches@, facts, notes, list@);
            match (else_body, rest) {
                (Some(a), Some(b)) => {
                    assert(tree.kids[1].kids == stmt_trees(b@));
                    prove_stmts(a@, between, notes, b@);
                },
                (Some(a), None) => {
                    assert(stmt_tree(x).kids[1].label is Absent);
                },
                (None, Some(b)) => {
                    assert(stmt_tree(x).kids[1].label is List);
                },
                _ => {},
            }
        },
        _ => {},
    }
}

proof fn prove_field_assign(stmt: ast::Stmt, facts: FactsMap, notes: FactsMap, x: Stmt)
    requires
        stmt.kind is FieldAssign,
        part_of(facts, notes),
        lowered_stmt(stmt, facts) is Ok,
        lowered_stmt(stmt, facts)->Ok_0.0 == stmt_tree(x),
    ensures
        stmt_stands_for(stmt, x, notes),
    decreases stmt, 0nat,
{
    lemma_chain();
    lemma_taken(facts, stmt.id);
    let tree = lowered_stmt(stmt, facts)->Ok_0.0;
    let rest = FactsMap { assignment_places: facts.assignment_places.remove(stmt.id), ..facts };
    match (stmt.kind, x, found(facts.assignment_places, stmt.id)) {
        (
            ast::StmtKind::FieldAssign { recv, value },
            Stmt::Assign { target, value: v, .. },
            Some(PlaceFact::Field { base: below, field_index, ty }),
        ) => {
            lemma_base_used(recv, *below, rest);
            let (place, between) = lowered_base(recv, *below, rest)->Ok_0;
            assert(tree.kids[0] == place_tree(target) && tree.kids[1] == expr_tree(v));
            match target {
                Place::Field { base, .. } => {
                    assert(tree.kids[0].kids[0] == place_tree(*base));
                    prove_base(recv, *below, rest, notes, *base);
                },
                _ => {},
            }
            reveal(part_of);
            prove_expr(value, between, notes, v);
        },
        _ => {},
    }
}

proof fn prove_base(e: ast::Expr, fact: PlaceFact, facts: FactsMap, notes: FactsMap, p: Place)
    requires
        part_of(facts, notes),
        lowered_base(e, fact, facts) is Ok,
        lowered_base(e, fact, facts)->Ok_0.0 == place_tree(p),
    ensures
        place_stands_for(e, fact, p, notes),
    decreases e, 2nat,
{
    lemma_chain();
    lemma_taken(facts, e.id);
    prove_place(e, fact, without_expr(facts, e.id), notes, p);
}

proof fn prove_place(e: ast::Expr, fact: PlaceFact, facts: FactsMap, notes: FactsMap, p: Place)
    requires
        part_of(facts, notes),
        lowered_place(e, fact, facts) is Ok,
        lowered_place(e, fact, facts)->Ok_0.0 == place_tree(p),
    ensures
        place_stands_for(e, fact, p, notes),
    decreases e, 1nat,
{
    lemma_chain();
    lemma_taken(facts, e.id);
    let tree = lowered_place(e, fact, facts)->Ok_0.0;
    match (fact, e.kind, p) {
        (
            PlaceFact::Field { base: below, .. },
            ast::ExprKind::Field { recv, .. },
            Place::Field { base, .. },
        ) => {
            let rest = FactsMap { field_indices: facts.field_indices.remove(e.id), ..facts };
            assert(tree.kids[0] == place_tree(*base));
            prove_base(*recv, *below, rest, notes, *base);
        },
        (
            PlaceFact::Index { base: below, .. },
            ast::ExprKind::Index { recv, idx },
            Place::Index { base, index, .. },
        ) => {
            lemma_base_used(*recv, *below, facts);
            let (_, between) = lowered_base(*recv, *below, facts)->Ok_0;
            assert(tree.kids[0] == place_tree(*base) && tree.kids[1] == expr_tree(*index));
            prove_base(*recv, *below, facts, notes, *base);
            prove_expr(*idx, between, notes, *index);
        },
        _ => {},
    }
}

proof fn prove_unary(e: ast::Expr, fact: ExprFact, facts: FactsMap, notes: FactsMap, x: Expr)
    requires
        e.kind is Cast || e.kind is Neg || e.kind is Not || e.kind is BitNot || e.kind is Propagate
            || e.kind is Field,
        part_of(facts, notes),
        notes.exprs.contains_key(e.id),
        notes.exprs[e.id] == fact,
        lowered_kind(e, fact, facts) is Ok,
        lowered_kind(e, fact, facts)->Ok_0.0 == expr_tree(x),
    ensures
        kind_stands_for(e, x, notes),
    decreases e, 0nat,
{
    lemma_chain();
    let tree = lowered_kind(e, fact, facts)->Ok_0.0;
    match (e.kind, x) {
        (ast::ExprKind::Cast { expr, .. }, Expr::Cast { expr: v, .. }) => {
            assert(tree.kids[0] == expr_tree(*v));
            prove_expr(*expr, facts, notes, *v);
        },
        (ast::ExprKind::Neg { expr }, Expr::Neg { expr: v, .. }) => {
            assert(tree.kids[0] == expr_tree(*v));
            prove_expr(*expr, facts, notes, *v);
        },
        (ast::ExprKind::Not { expr }, Expr::Not { expr: v, .. }) => {
            assert(tree.kids[0] == expr_tree(*v));
            prove_expr(*expr, facts, notes, *v);
        },
        (ast::ExprKind::BitNot { expr }, Expr::BitNot { expr: v, .. }) => {
            assert(tree.kids[0] == expr_tree(*v));
            prove_expr(*expr, facts, notes, *v);
        },
        (ast::ExprKind::Propagate { expr }, Expr::Propagate { expr: v, .. }) => {
            assert(tree.kids[0] == expr_tree(*v));
            prove_expr(*expr, facts, notes, *v);
        },
        (ast::ExprKind::Field { recv, .. }, Expr::Field { recv: v, .. }) => {
            lemma_used(*recv, facts);
            assert(tree.kids[0] == expr_tree(*v));
            prove_expr(*recv, facts, notes, *v);
            reveal(part_of);
        },
        _ => {},
    }
}

proof fn prove_pair(e: ast::Expr, fact: ExprFact, facts: FactsMap, notes: FactsMap, x: Expr)
    requires
        e.kind is Binary || e.kind is Index,
        part_of(facts, notes),
        notes.exprs.contains_key(e.id),
        notes.exprs[e.id] == fact,
        lowered_kind(e, fact, facts) is Ok,
        lowered_kind(e, fact, facts)->Ok_0.0 == expr_tree(x),
    ensures
        kind_stands_for(e, x, notes),
    decreases e, 0nat,
{
    lemma_chain();
    let tree = lowered_kind(e, fact, facts)->Ok_0.0;
    match (e.kind, x) {
        (ast::ExprKind::Binary { lhs: a, rhs: b, .. }, Expr::Binary { lhs: l, rhs: r, .. })
        | (ast::ExprKind::Index { recv: a, idx: b }, Expr::Index { recv: l, idx: r, .. }) => {
            lemma_used(*a, facts);
            let (_, between) = lowered_expr(*a, facts)->Ok_0;
            assert(tree.kids[0] == expr_tree(*l) && tree.kids[1] == expr_tree(*r));
            prove_expr(*a, facts, notes, *l);
            prove_expr(*b, between, notes, *r);
        },
        _ => {},
    }
}

proof fn prove_ternary(e: ast::Expr, fact: ExprFact, facts: FactsMap, notes: FactsMap, x: Expr)
    requires
        e.kind is Ternary,
        part_of(facts, notes),
        notes.exprs.contains_key(e.id),
        notes.exprs[e.id] == fact,
        lowered_kind(e, fact, facts) is Ok,
        lowered_kind(e, fact, facts)->Ok_0.0 == expr_tree(x),
    ensures
        kind_stands_for(e, x, notes),
    decreases e, 0nat,
{
    lemma_chain();
    let tree = lowered_kind(e, fact, facts)->Ok_0.0;
    match (e.kind, x) {
        (
            ast::ExprKind::Ternary { cond, then_expr, else_expr },
            Expr::Ternary { cond: c, then_expr: t, else_expr: f, .. },
        ) => {
            lemma_used(*cond, facts);
            let (_, one) = lowered_expr(*cond, facts)->Ok_0;
            lemma_used(*then_expr, one);
            let (_, two) = lowered_expr(*then_expr, one)->Ok_0;
            assert(tree.kids[0] == expr_tree(*c));
            assert(tree.kids[1] == expr_tree(*t));
            assert(tree.kids[2] == expr_tree(*f));
            prove_expr(*cond, facts, notes, *c);
            prove_expr(*then_expr, one, notes, *t);
            prove_expr(*else_expr, two, notes, *f);
        },
        _ => {},
    }
}

proof fn prove_list(e: ast::Expr, fact: ExprFact, facts: FactsMap, notes: FactsMap, x: Expr)
    requires
        e.kind is Str || e.kind is ArrayLit,
        part_of(facts, notes),
        notes.exprs.contains_key(e.id),
        notes.exprs[e.id] == fact,
        lowered_kind(e, fact, facts) is Ok,
        lowered_kind(e, fact, facts)->Ok_0.0 == expr_tree(x),
    ensures
        kind_stands_for(e, x, notes),
    decreases e, 0nat,
{
    lemma_chain();
    let tree = lowered_kind(e, fact, facts)->Ok_0.0;
    match (e.kind, x) {
        (ast::ExprKind::Str(a), Expr::Str(b, _, _)) => {
            let done = lowered_parts(a@, facts, a@.len())->Ok_0.0;
            assert(tree.kids.drop_last() =~= done);
            assert(expr_tree(x).kids.drop_last() =~= part_trees(b@));
            prove_parts(a@, facts, notes, b@);
        },
        (ast::ExprKind::ArrayLit { elems }, Expr::ArrayLit { elems: list, .. }) => {
            let done = lowered_exprs(elems@, facts, elems@.len())->Ok_0.0;
            assert(tree.kids.drop_last() =~= done);
            assert(expr_tree(x).kids.drop_last() =~= expr_trees(list@));
            prove_exprs(elems@, facts, notes, list@);
        },
        _ => {},
    }
}

proof fn prove_match(e: ast::Expr, fact: ExprFact, facts: FactsMap, notes: FactsMap, x: Expr)
    requires
        e.kind is Match,
        part_of(facts, notes),
        notes.exprs.contains_key(e.id),
        notes.exprs[e.id] == fact,
        lowered_kind(e, fact, facts) is Ok,
        lowered_kind(e, fact, facts)->Ok_0.0 == expr_tree(x),
    ensures
        kind_stands_for(e, x, notes),
    decreases e, 0nat,
{
    lemma_chain();
    let tree = lowered_kind(e, fact, facts)->Ok_0.0;
    match (e.kind, x) {
        (ast::ExprKind::Match { subject, arms }, Expr::Match { subject: v, arms: list, .. }) => {
            lemma_used(*subject, facts);
            let (_, between) = lowered_expr(*subject, facts)->Ok_0;
            let done = lowered_arms(arms@, between, arms@.len())->Ok_0.0;
            assert(tree.kids[0] == expr_tree(*v));
            assert(tree.kids[1] == part(Label::List, done));
            assert(expr_tree(x).kids[1] == part(Label::List, match_trees(list@)));
            prove_expr(*subject, facts, notes, *v);
            prove_arms(arms@, between, notes, list@);
        },
        _ => {},
    }
}

/// What was not recorded yet is absent.
proof fn lemma_nothing()
    ensures
        forall|p: Option<ArgumentPass>| (#[trigger] pass_tree(p)).label is Absent <==> p is None,
        forall|p: Option<Box<CallResult>>|
            (#[trigger] result_tree(p)).label is Absent <==> p is None,
{
}

proof fn prove_method_call(e: ast::Expr, fact: ExprFact, facts: FactsMap, notes: FactsMap, x: Expr)
    requires
        e.kind is MethodCall,
        part_of(facts, notes),
        notes.exprs.contains_key(e.id),
        notes.exprs[e.id] == fact,
        lowered_kind(e, fact, facts) is Ok,
        lowered_kind(e, fact, facts)->Ok_0.0 == expr_tree(x),
    ensures
        kind_stands_for(e, x, notes),
    decreases e, 0nat,
{
    lemma_chain();
    let tree = lowered_kind(e, fact, facts)->Ok_0.0;
    lemma_nothing();
    match (e.kind, x) {
        (
            ast::ExprKind::MethodCall { recv, args, .. },
            Expr::MethodCall { recv: v, receiver_pass, args: list, result, target, .. },
        ) => {
            lemma_used(*recv, facts);
            let (_, between) = lowered_expr(*recv, facts)->Ok_0;
            let done = lowered_args(args@, between, args@.len())->Ok_0.0;
            assert(tree.kids[0] == expr_tree(*v));
            assert(tree.kids[1] == pass_tree(receiver_pass));
            assert(tree.kids[2] == part(Label::List, done));
            assert(expr_tree(x).kids[2] == part(Label::List, arg_trees(list@)));
            assert(tree.kids[3] == result_tree(result));
            prove_expr(*recv, facts, notes, *v);
            prove_args(args@, between, notes, list@);
        },
        _ => {},
    }
}

#[verifier::rlimit(60)]
#[verifier::spinoff_prover]
proof fn prove_beside_call(e: ast::Expr, fact: ExprFact, facts: FactsMap, notes: FactsMap, x: Expr)
    requires
        e.kind is Juxtapose,
        fact.call_target == Some(TargetView::FunctionValue),
        part_of(facts, notes),
        notes.exprs.contains_key(e.id),
        notes.exprs[e.id] == fact,
        lowered_kind(e, fact, facts) is Ok,
        lowered_kind(e, fact, facts)->Ok_0.0 == expr_tree(x),
    ensures
        kind_stands_for(e, x, notes),
    decreases e, 0nat,
{
    lemma_chain();
    let tree = lowered_kind(e, fact, facts)->Ok_0.0;
    lemma_nothing();
    match (e.kind, x) {
        (
            ast::ExprKind::Juxtapose { lhs, rhs },
            Expr::Call { callee, args, result, target, .. },
        ) => {
            lemma_used(*lhs, facts);
            let (_, between) = lowered_expr(*lhs, facts)->Ok_0;
            let value = lowered_expr(*rhs, between)->Ok_0.0;
            assert(tree.kids[0] == expr_tree(*callee));
            assert(tree.kids[1] == part(Label::List, seq![arg_part(value)]));
            assert(expr_tree(x).kids[1] == part(Label::List, arg_trees(args@)));
            assert(arg_trees(args@) == seq![arg_part(value)]);
            assert(args@.len() == 1);
            assert(arg_trees(args@)[0] == arg_tree(args@[0]));
            assert(arg_tree(args@[0]) == arg_part(value));
            assert(arg_part(value).kids[0] == value);
            assert(arg_tree(args@[0]).kids[0] == expr_tree(args@[0].value));
            assert(tree.kids[2] == result_tree(result));
            prove_expr(*lhs, facts, notes, *callee);
            prove_expr(*rhs, between, notes, args@[0].value);
        },
        _ => {},
    }
}

proof fn prove_beside_method(e: ast::Expr, fact: ExprFact, facts: FactsMap, notes: FactsMap, x: Expr)
    requires
        e.kind is Juxtapose,
        fact.call_target matches Some(TargetView::Method(_)),
        part_of(facts, notes),
        notes.exprs.contains_key(e.id),
        notes.exprs[e.id] == fact,
        lowered_kind(e, fact, facts) is Ok,
        lowered_kind(e, fact, facts)->Ok_0.0 == expr_tree(x),
    ensures
        kind_stands_for(e, x, notes),
    decreases e, 0nat,
{
    lemma_chain();
    let tree = lowered_kind(e, fact, facts)->Ok_0.0;
    lemma_nothing();
    match (e.kind, x) {
        (
            ast::ExprKind::Juxtapose { lhs, .. },
            Expr::MethodCall { recv, receiver_pass, args, result, target, .. },
        ) => {
            assert(tree.kids[0] == expr_tree(*recv));
            assert(tree.kids[1] == pass_tree(receiver_pass));
            assert(tree.kids[2] == part(Label::List, Seq::empty()));
            assert(expr_tree(x).kids[2] == part(Label::List, arg_trees(args@)));
            assert(arg_trees(args@).len() == args@.len());
            assert(tree.kids[3] == result_tree(result));
            prove_expr(*lhs, facts, notes, *recv);
        },
        _ => {},
    }
}

proof fn prove_function(e: ast::Expr, fact: ExprFact, facts: FactsMap, notes: FactsMap, x: Expr)
    requires
        e.kind is FuncLit,
        part_of(facts, notes),
        notes.exprs.contains_key(e.id),
        notes.exprs[e.id] == fact,
        lowered_kind(e, fact, facts) is Ok,
        expr_tree(x).label is FuncLit,
        lowered_kind(e, fact, facts)->Ok_0.0.kids == expr_tree(x).kids,
    ensures
        kind_stands_for(e, x, notes),
    decreases e, 0nat,
{
    lemma_chain();
    lemma_taken(facts, e.id);
    let tree = lowered_kind(e, fact, facts)->Ok_0.0;
    match (e.kind, x) {
        (
            ast::ExprKind::FuncLit { params, body },
            Expr::FuncLit { params: list, captures, body: inner, .. },
        ) => {
            let started = renumbered(facts, (facts.next_function + 1) as u32);
            lemma_params_used(params@, started, params@.len());
            let (done, between) = lowered_params(params@, started, params@.len())->Ok_0;
            assert(tree.kids[0] == part(Label::List, done));
            assert(expr_tree(x).kids[0] == part(Label::List, param_trees(list@)));
            assert(tree.kids[1] == part(Label::List, Seq::empty()));
            assert(expr_tree(x).kids[1] == part(Label::List, capture_trees(captures@)));
            assert(capture_trees(captures@).len() == captures@.len());
            assert(tree.kids[2] == body_tree(*inner));
            prove_body(*body, between, notes, *inner);
            assert(params_stand_for(params@, list@, notes)) by {
                reveal(part_of);
                assert forall|i: int| 0 <= i < params@.len() implies found(
                    notes.param_ids,
                    params@[i].id,
                ) == Some((#[trigger] list@[i]).binding_id) && found(notes.params, params@[i].id)
                    == Some(list@[i].ty@) && list@[i].effect is None by {
                    assert(done[i] == param_tree(list@[i]));
                }
            }
        },
        _ => {},
    }
}

proof fn prove_call(e: ast::Expr, fact: ExprFact, facts: FactsMap, notes: FactsMap, x: Expr)
    requires
        e.kind is Call,
        part_of(facts, notes),
        notes.exprs.contains_key(e.id),
        notes.exprs[e.id] == fact,
        lowered_kind(e, fact, facts) is Ok,
        lowered_kind(e, fact, facts)->Ok_0.0 == expr_tree(x),
    ensures
        kind_stands_for(e, x, notes),
    decreases e, 1nat,
{
    lemma_chain();
    let tree = lowered_kind(e, fact, facts)->Ok_0.0;
    lemma_nothing();
    match (e.kind, fact.call_target) {
        (ast::ExprKind::Call { callee, args }, Some(target)) => {
            lemma_used(*callee, facts);
            let (_, between) = lowered_expr(*callee, facts)->Ok_0;
            lemma_taken(between, e.id);
            match target {
                TargetView::ContextualConversion(_) => match x {
                    Expr::Convert { expr, .. } => {
                        assert(tree.kids[0] == expr_tree(*expr));
                        prove_expr(args@[0].value, between, notes, *expr);
                    },
                    _ => {},
                },
                TargetView::Typeof => {
                    lemma_used(args@[0].value, between);
                    reveal(part_of);
                },
                TargetView::Move => match x {
                    Expr::Move { source, .. } => {
                        let place = found(between.move_places, e.id)->0;
                        assert(tree.kids[0] == place_tree(*source));
                        prove_base(
                            args@[0].value,
                            place,
                            FactsMap { move_places: between.move_places.remove(e.id), ..between },
                            notes,
                            *source,
                        );
                        reveal(part_of);
                    },
                    _ => {},
                },
                TargetView::Borrow => match x {
                    Expr::Borrow { source, .. } => {
                        let borrow = found(between.borrow_places, e.id)->0;
                        assert(tree.kids[0] == place_tree(*source));
                        prove_base(
                            args@[0].value,
                            borrow.place,
                            FactsMap {
                                borrow_places: between.borrow_places.remove(e.id),
                                ..between
                            },
                            notes,
                            *source,
                        );
                        reveal(part_of);
                    },
                    _ => {},
                },
                _ => prove_plain_call(e, fact, facts, notes, x),
            }
        },
        _ => {},
    }
}

proof fn prove_plain_call(e: ast::Expr, fact: ExprFact, facts: FactsMap, notes: FactsMap, x: Expr)
    requires
        e.kind is Call,
        fact.call_target matches Some(target) && !(target is ContextualConversion) && !(target
            is Typeof) && !(target is Move) && !(target is Borrow),
        part_of(facts, notes),
        notes.exprs.contains_key(e.id),
        notes.exprs[e.id] == fact,
        lowered_kind(e, fact, facts) is Ok,
        lowered_kind(e, fact, facts)->Ok_0.0 == expr_tree(x),
    ensures
        kind_stands_for(e, x, notes),
    decreases e, 0nat,
{
    lemma_chain();
    let tree = lowered_kind(e, fact, facts)->Ok_0.0;
    lemma_nothing();
    match (e.kind, fact.call_target, x) {
        (
            ast::ExprKind::Call { callee, args },
            Some(target),
            Expr::Call { callee: head, args: list, result, target: goal, .. },
        ) => {
            lemma_used(*callee, facts);
            let (_, one) = lowered_expr(*callee, facts)->Ok_0;
            lemma_args_used(args@, one, args@.len());
            let (done, two) = lowered_args(args@, one, args@.len())->Ok_0;
            lemma_indices_used(args@, two, args@.len());
            assert(tree.kids[0] == expr_tree(*head));
            assert(tree.kids[1] == part(Label::List, done));
            assert(expr_tree(x).kids[1] == part(Label::List, arg_trees(list@)));
            assert(tree.kids[2] == result_tree(result));
            prove_expr(*callee, facts, notes, *head);
            prove_args(args@, one, notes, list@);
            assert(same_target(target, args@, goal, notes)) by {
                reveal(part_of);
            }
        },
        _ => {},
    }
}

proof fn prove_kind(e: ast::Expr, fact: ExprFact, facts: FactsMap, notes: FactsMap, x: Expr)
    requires
        part_of(facts, notes),
        notes.exprs.contains_key(e.id),
        notes.exprs[e.id] == fact,
        lowered_kind(e, fact, facts) is Ok,
        lowered_kind(e, fact, facts)->Ok_0.0 == expr_tree(x),
    ensures
        kind_stands_for(e, x, notes),
    decreases e, 2nat,
{
    match e.kind {
        ast::ExprKind::Cast { .. }
        | ast::ExprKind::Neg { .. }
        | ast::ExprKind::Not { .. }
        | ast::ExprKind::BitNot { .. }
        | ast::ExprKind::Propagate { .. }
        | ast::ExprKind::Field { .. } => prove_unary(e, fact, facts, notes, x),
        ast::ExprKind::Binary { .. } | ast::ExprKind::Index { .. } => prove_pair(
            e,
            fact,
            facts,
            notes,
            x,
        ),
        ast::ExprKind::Ternary { .. } => prove_ternary(e, fact, facts, notes, x),
        ast::ExprKind::Str(_) | ast::ExprKind::ArrayLit { .. } => prove_list(
            e,
            fact,
            facts,
            notes,
            x,
        ),
        ast::ExprKind::Match { .. } => prove_match(e, fact, facts, notes, x),
        ast::ExprKind::MethodCall { .. } => prove_method_call(e, fact, facts, notes, x),
        ast::ExprKind::Juxtapose { .. } => match fact.call_target {
            Some(TargetView::FunctionValue) => prove_beside_call(e, fact, facts, notes, x),
            Some(TargetView::Method(_)) => prove_beside_method(e, fact, facts, notes, x),
            _ => {},
        },
        ast::ExprKind::FuncLit { .. } => prove_function(e, fact, facts, notes, x),
        ast::ExprKind::Call { .. } => prove_call(e, fact, facts, notes, x),
        _ => {
            reveal(part_of);
        },
    }
}

proof fn prove_expr(e: ast::Expr, facts: FactsMap, notes: FactsMap, x: Expr)
    requires
        part_of(facts, notes),
        lowered_expr(e, facts) is Ok,
        lowered_expr(e, facts)->Ok_0.0 == expr_tree(x),
    ensures
        stands_for(e, x, notes),
    decreases e, 3nat,
{
    lemma_chain();
    lemma_used(e, facts);
    lemma_taken(facts, e.id);
    lemma_expr_head(x);
    lemma_nothing();
    let fact = facts.exprs[e.id];
    let rest = without_expr(facts, e.id);
    lemma_taken(rest, e.id);
    let tree = lowered_expr(e, facts)->Ok_0.0;
    assert(notes.exprs.contains_key(e.id) && notes.exprs[e.id] == fact) by {
        reveal(part_of);
    }
    match fact.implicit_zero_callee {
        Some(ty) => match x {
            Expr::Call { callee, args, result, .. } => {
                assert(tree.kids[0] == expr_tree(*callee));
                assert(tree.kids[1] == part(Label::List, Seq::empty()));
                assert(expr_tree(x).kids[1] == part(Label::List, arg_trees(args@)));
                assert(arg_trees(args@).len() == args@.len());
                assert(tree.kids[2] == result_tree(result));
                lemma_expr_head(*callee);
                reveal(part_of);
            },
            _ => {},
        },
        None => match found(rest.owning_reads, e.id) {
            Some(read) => match x {
                Expr::ReadPlace { source, .. } => {
                    assert(tree.kids[0] == place_tree(*source));
                    prove_place(
                        e,
                        read.place,
                        FactsMap { owning_reads: rest.owning_reads.remove(e.id), ..rest },
                        notes,
                        *source,
                    );
                    reveal(part_of);
                },
                _ => {},
            },
            None => {
                prove_kind(e, fact, rest, notes, x);
            },
        },
    }
}

/// A lowered expression stands for the written one: it has its source range and the noted type,
/// and each operand, name, number, target and place of it is the written or noted one.
pub proof fn law_lowered_exprs_stand_for_written_ones(e: ast::Expr, facts: FactsMap, x: Expr)
    requires
        lowered_expr(e, facts) is Ok,
        lowered_expr(e, facts)->Ok_0.0 == expr_tree(x),
    ensures
        stands_for(e, x, facts),
{
    lemma_chain();
    prove_expr(e, facts, facts, x);
}

/// A lowered statement stands for the written one.
pub proof fn law_lowered_stmts_stand_for_written_ones(stmt: ast::Stmt, facts: FactsMap, x: Stmt)
    requires
        lowered_stmt(stmt, facts) is Ok,
        lowered_stmt(stmt, facts)->Ok_0.0 == stmt_tree(x),
    ensures
        stmt_stands_for(stmt, x, facts),
{
    lemma_chain();
    prove_stmt(stmt, facts, facts, x);
}

/// A lowered binding stands for the written one.
pub proof fn law_lowered_bindings_stand_for_written_ones(
    binding: ast::Binding,
    facts: FactsMap,
    x: Binding,
)
    requires
        lowered_binding(binding, facts) is Ok,
        lowered_binding(binding, facts)->Ok_0.0 == binding_tree(x),
    ensures
        binding_stands_for(binding, x, facts),
{
    lemma_chain();
    prove_binding(binding, facts, facts, x);
}

/// A name keeps the variable that was noted for it, and no fact is used twice: what is left has
/// been there before, and the type of the expression is gone.
pub proof fn law_facts_are_used_once(e: ast::Expr, facts: FactsMap, x: Expr)
    requires
        lowered_expr(e, facts) is Ok,
        lowered_expr(e, facts)->Ok_0.0 == expr_tree(x),
    ensures
        part_of(lowered_expr(e, facts)->Ok_0.1, facts),
        x matches Expr::Ident(_, id, _, _) ==> e.kind is Ident ==> id == found(
            facts.expr_binding_ids,
            e.id,
        ),
{
    lemma_used(e, facts);
}

} // verus!
