//! Building the resolved program tree.

use crate::ast;
use crate::builders::{
    add_self, arg_node, arg_part, array_node, assign_stmt, binary_node, binding_node, binding_stmt,
    bit_not_node, block_arm, block_body, bool_node, borrow_node, branch_node, break_stmt,
    built_args, built_arm, built_arms, built_binding, built_body, built_branch, built_branches,
    built_expr, built_exprs, built_part, built_parts, built_place, built_stmt, built_stmts,
    call_node, cast_node, continue_stmt, convert_node, expr_stmt, field_node, field_place,
    float_node, for_stmt, function_node, hole_part, ident_node, if_else_stmt, if_stmt, index_node,
    index_place, int_node, lemma_built_type, lit_part, local_place, match_node, method_node,
    move_node, neg_node, not_node, propagate_node, read_node, ret_arm, return_stmt, single_body,
    str_node, ternary_node, this_node, typeof_node, value_arm, while_stmt,
};
use crate::facts::{
    ExprFact, FactsMap, LowerCallTarget, LowerExprInfo, LowerFacts, LowerPlaceInfo, found,
    maybe_view, take_required,
};
use crate::lowered::{
    Lowered, lowered_args, lowered_arm, lowered_arms, lowered_assign, lowered_base, lowered_binding,
    lowered_body, lowered_branch, lowered_branches, lowered_call, lowered_expr, lowered_exprs,
    lowered_field_assign, lowered_for, lowered_function, lowered_if, lowered_implicit,
    lowered_indices, lowered_juxtapose, lowered_kind, lowered_method, lowered_owner, lowered_params,
    lowered_parts, lowered_place, lowered_stmt, lowered_stmts, lowered_target, lowered_while,
    name_tree, without_expr,
};
use crate::model::{
    Binding, BindingOwner, Body, CallArg, CallTarget, Expr, MatchArm, Param, Place, Stmt, StrPart,
};
use crate::tree::{Label, Tree, call_view, copy_pattern, owner_view, param_trees, part};
use crate::types::{AliasResult, ErrorView, FunctionId, Span, Ty, broken_invariant, fault_of};
use vstd::prelude::*;

verus! {

/// A part of the tree was built as it should be.
pub open spec fn gives_expr(r: AliasResult<Expr>, after: FactsMap, goal: Lowered<Tree>) -> bool {
    match goal {
        Ok((tree, facts)) => r matches Ok(built) && built_expr(built) == tree && after == facts,
        Err(error) => fault_of(r) == Some(error),
    }
}

pub open spec fn gives_place(r: AliasResult<Place>, after: FactsMap, goal: Lowered<Tree>) -> bool {
    match goal {
        Ok((tree, facts)) => r matches Ok(built) && built_place(built) == tree && after == facts,
        Err(error) => fault_of(r) == Some(error),
    }
}

pub open spec fn gives_stmt(r: AliasResult<Stmt>, after: FactsMap, goal: Lowered<Tree>) -> bool {
    match goal {
        Ok((tree, facts)) => r matches Ok(built) && built_stmt(built) == tree && after == facts,
        Err(error) => fault_of(r) == Some(error),
    }
}

fn lower_name(e: &ast::Expr, ty: Ty, facts: &mut LowerFacts) -> (r: Option<Expr>)
    ensures
        match name_tree(*e, ty@, old(facts)@) {
            Some((tree, after)) => r matches Some(built) && built_expr(built) == tree
                && final(facts)@ == after,
            None => r is None,
        },
{
    match &e.kind {
        ast::ExprKind::Ident(name) => {
            let id = facts.expr_binding_ids.take(e.id);
            Some(ident_node(name.clone(), id, e.span, ty))
        },
        ast::ExprKind::This => Some(this_node(e.span, ty)),
        _ => None,
    }
}

fn lower_implicit(
    e: &ast::Expr,
    ty: Ty,
    target: Option<LowerCallTarget>,
    callee_ty: Ty,
    facts: &mut LowerFacts,
    Ghost(fact): Ghost<ExprFact>,
) -> (r: AliasResult<Expr>)
    requires
        fact.ty == ty@,
        fact.call_target == maybe_view(target),
    ensures
        gives_expr(r, final(facts)@, lowered_implicit(*e, fact, callee_ty@, old(facts)@)),
{
    match target {
        Some(LowerCallTarget::FunctionValue) => {},
        _ => {
            return Err(broken_invariant(e.span, "隐式零参调用缺少函数调用 target"));
        },
    }
    match lower_name(e, callee_ty, facts) {
        None => Err(
            broken_invariant(e.span, "隐式零参调用的 callee 不是直接函数引用"),
        ),
        Some(callee) => {
            let args: Vec<CallArg> = Vec::new();
            assert(built_args(args@) =~= Seq::empty());
            Ok(call_node(callee, args, CallTarget::FunctionValue, e.span, ty))
        },
    }
}

/// Builds an expression of the resolved tree.
pub fn lower_expr(e: &ast::Expr, facts: &mut LowerFacts) -> (r: AliasResult<Expr>)
    ensures
        gives_expr(r, final(facts)@, lowered_expr(*e, old(facts)@)),
    decreases e, 3nat,
{
    let info = match facts.exprs.take(e.id) {
        Some(info) => info,
        None => {
            return Err(broken_invariant(e.span, "表达式缺少静态类型"));
        },
    };
    assert(facts@ == without_expr(old(facts)@, e.id));
    let ghost fact = info@;
    let LowerExprInfo { ty, call_target, implicit_zero_callee } = info;
    let calls = match &e.kind {
        ast::ExprKind::Call { .. } => true,
        ast::ExprKind::Juxtapose { .. } => true,
        ast::ExprKind::MethodCall { .. } => true,
        _ => false,
    };
    if calls && call_target.is_none() {
        return Err(broken_invariant(e.span, "调用表达式缺少已解析目标"));
    }
    if let Some(callee_ty) = implicit_zero_callee {
        let ghost rest = facts@;
        let r = lower_implicit(e, ty, call_target, callee_ty, facts, Ghost(fact));
        assert(gives_expr(r, facts@, lowered_implicit(*e, fact, callee_ty@, rest)));
        return r;
    }
    if let Some(read) = facts.owning_reads.take(e.id) {
        return match lower_place(e, read.place, facts) {
            Err(error) => Err(error),
            Ok(source) => Ok(read_node(source, read.plan, e.span, ty)),
        };
    }
    assert(facts@ == without_expr(old(facts)@, e.id)) by {
        assert(facts@.owning_reads =~= old(facts)@.owning_reads);
    }
    let ghost rest = facts@;
    let r = lower_kind(e, ty, call_target, facts, Ghost(fact));
    assert(gives_expr(r, facts@, lowered_kind(*e, fact, rest)));
    r
}

/// Builds a place of the resolved tree, for an expression whose own fact has been used.
fn lower_place(e: &ast::Expr, place: LowerPlaceInfo, facts: &mut LowerFacts) -> (r: AliasResult<
    Place,
>)
    ensures
        gives_place(r, final(facts)@, lowered_place(*e, place@, old(facts)@)),
    decreases e, 2nat,
{
    match (place, &e.kind) {
        (LowerPlaceInfo::Local { binding_id, ty }, ast::ExprKind::Ident(_)) => {
            let _ = facts.expr_binding_ids.take(e.id);
            Ok(local_place(binding_id, ty, e.span))
        },
        (
            LowerPlaceInfo::Field { base, field_index, ty },
            ast::ExprKind::Field { recv, .. },
        ) => {
            let _ = facts.field_indices.take(e.id);
            match lower_base(recv, *base, facts) {
                Err(error) => Err(error),
                Ok(base) => Ok(field_place(base, field_index, ty, e.span)),
            }
        },
        (LowerPlaceInfo::Index { base, ty }, ast::ExprKind::Index { recv, idx }) => {
            let base = match lower_base(recv, *base, facts) {
                Err(error) => {
                    return Err(error);
                },
                Ok(base) => base,
            };
            match lower_expr(idx, facts) {
                Err(error) => Err(error),
                Ok(index) => Ok(index_place(base, index, ty, e.span)),
            }
        },
        _ => Err(broken_invariant(e.span, "Place 与表达式形状漂移")),
    }
}

fn lower_base(e: &ast::Expr, place: LowerPlaceInfo, facts: &mut LowerFacts) -> (r: AliasResult<
    Place,
>)
    ensures
        gives_place(r, final(facts)@, lowered_base(*e, place@, old(facts)@)),
    decreases e, 3nat,
{
    match facts.exprs.take(e.id) {
        None => Err(broken_invariant(e.span, "表达式缺少静态类型")),
        Some(_) => {
            assert(facts@ == without_expr(old(facts)@, e.id));
            lower_place(e, place, facts)
        },
    }
}

fn lower_kind(
    e: &ast::Expr,
    ty: Ty,
    target: Option<LowerCallTarget>,
    facts: &mut LowerFacts,
    Ghost(fact): Ghost<ExprFact>,
) -> (r: AliasResult<Expr>)
    requires
        fact.ty == ty@,
        fact.call_target == maybe_view(target),
    ensures
        gives_expr(r, final(facts)@, lowered_kind(*e, fact, old(facts)@)),
    decreases e, 1nat,
{
    match &e.kind {
        ast::ExprKind::Int(value) => Ok(int_node(*value, e.span, ty)),
        ast::ExprKind::Float(value) => Ok(float_node(*value, e.span, ty)),
        ast::ExprKind::Bool(value) => Ok(bool_node(*value, e.span, ty)),
        ast::ExprKind::Ident(_) | ast::ExprKind::This => match lower_name(e, ty, facts) {
            Some(name) => Ok(name),
            None => Err(broken_invariant(e.span, "表达式缺少静态类型")),
        },
        ast::ExprKind::Str(parts) => match lower_parts(parts, facts) {
            Err(error) => Err(error),
            Ok(parts) => Ok(str_node(parts, e.span, ty)),
        },
        ast::ExprKind::Cast { expr, .. } => match lower_expr(expr, facts) {
            Err(error) => Err(error),
            Ok(inner) => Ok(cast_node(inner, e.span, ty)),
        },
        ast::ExprKind::Neg { expr } => match lower_expr(expr, facts) {
            Err(error) => Err(error),
            Ok(inner) => Ok(neg_node(inner, e.span, ty)),
        },
        ast::ExprKind::Not { expr } => match lower_expr(expr, facts) {
            Err(error) => Err(error),
            Ok(inner) => Ok(not_node(inner, e.span, ty)),
        },
        ast::ExprKind::BitNot { expr } => match lower_expr(expr, facts) {
            Err(error) => Err(error),
            Ok(inner) => Ok(bit_not_node(inner, e.span, ty)),
        },
        ast::ExprKind::Propagate { expr } => match lower_expr(expr, facts) {
            Err(error) => Err(error),
            Ok(inner) => Ok(propagate_node(inner, e.span, ty)),
        },
        ast::ExprKind::Binary { .. } | ast::ExprKind::Index { .. } | ast::ExprKind::Ternary { .. } => {
            lower_operands(e, ty, facts, Ghost(fact))
        },
        ast::ExprKind::Field { recv, .. } => {
            let recv = match lower_expr(recv, facts) {
                Err(error) => {
                    return Err(error);
                },
                Ok(recv) => recv,
            };
            match take_required(&mut facts.field_indices, e.id, e.span, "字段访问索引") {
                Err(error) => Err(error),
                Ok(field_index) => Ok(field_node(recv, field_index, e.span, ty)),
            }
        },
        ast::ExprKind::ArrayLit { elems } => match lower_exprs(elems, facts) {
            Err(error) => Err(error),
            Ok(elems) => Ok(array_node(elems, e.span, ty)),
        },
        ast::ExprKind::Match { subject, arms } => {
            let subject = match lower_expr(subject, facts) {
                Err(error) => {
                    return Err(error);
                },
                Ok(subject) => subject,
            };
            match lower_arms(arms, facts) {
                Err(error) => Err(error),
                Ok(arms) => Ok(match_node(subject, arms, e.span, ty)),
            }
        },
        ast::ExprKind::Call { .. } => lower_call(e, ty, target, facts, Ghost(fact)),
        ast::ExprKind::Juxtapose { .. } => lower_juxtapose(e, ty, target, facts, Ghost(fact)),
        ast::ExprKind::MethodCall { .. } => lower_method(e, ty, target, facts, Ghost(fact)),
        ast::ExprKind::FuncLit { .. } => lower_function(e, ty, facts),
    }
}

fn lower_operands(
    e: &ast::Expr,
    ty: Ty,
    facts: &mut LowerFacts,
    Ghost(fact): Ghost<ExprFact>,
) -> (r: AliasResult<Expr>)
    requires
        e.kind is Binary || e.kind is Index || e.kind is Ternary,
        fact.ty == ty@,
    ensures
        gives_expr(r, final(facts)@, lowered_kind(*e, fact, old(facts)@)),
    decreases e, 0nat,
{
    match &e.kind {
        ast::ExprKind::Binary { op, lhs, rhs } => {
            let left = match lower_expr(lhs, facts) {
                Err(error) => {
                    return Err(error);
                },
                Ok(left) => left,
            };
            match lower_expr(rhs, facts) {
                Err(error) => Err(error),
                Ok(right) => Ok(binary_node(*op, left, right, e.span, ty)),
            }
        },
        ast::ExprKind::Index { recv, idx } => {
            let left = match lower_expr(recv, facts) {
                Err(error) => {
                    return Err(error);
                },
                Ok(left) => left,
            };
            match lower_expr(idx, facts) {
                Err(error) => Err(error),
                Ok(right) => index_node(left, right, e.span, ty),
            }
        },
        ast::ExprKind::Ternary { cond, then_expr, else_expr } => {
            let test = match lower_expr(cond, facts) {
                Err(error) => {
                    return Err(error);
                },
                Ok(test) => test,
            };
            let left = match lower_expr(then_expr, facts) {
                Err(error) => {
                    return Err(error);
                },
                Ok(left) => left,
            };
            match lower_expr(else_expr, facts) {
                Err(error) => Err(error),
                Ok(right) => Ok(ternary_node(test, left, right, e.span, ty)),
            }
        },
        _ => Err(broken_invariant(e.span, "表达式缺少静态类型")),
    }
}

proof fn lemma_indices_stop(args: Seq<ast::CallArg>, facts: FactsMap, at: nat, upto: nat)
    requires
        at <= upto,
        lowered_indices(args, facts, at) is Err,
    ensures
        lowered_indices(args, facts, upto) == lowered_indices(args, facts, at),
    decreases upto - at,
{
    if at < upto {
        lemma_indices_stop(args, facts, at, (upto - 1) as nat);
    }
}

/// At most the indices of constructor arguments have been used.
pub open spec fn only_indices_taken(before: FactsMap, after: FactsMap) -> bool {
    after == (FactsMap { ctor_arg_indices: after.ctor_arg_indices, ..before })
}

fn take_indices(args: &Vec<ast::CallArg>, facts: &mut LowerFacts) -> (r: AliasResult<Vec<usize>>)
    ensures
        match lowered_indices(args@, old(facts)@, args@.len()) {
            Ok((list, after)) => r matches Ok(built) && built@ == list && final(facts)@ == after,
            Err(error) => fault_of(r) == Some(error),
        },
        only_indices_taken(old(facts)@, final(facts)@),
{
    let ghost start = facts@;
    let mut list: Vec<usize> = Vec::new();
    let mut i: usize = 0;
    while i < args.len()
        invariant
            i <= args.len(),
            start == old(facts)@,
            only_indices_taken(start, facts@),
            lowered_indices(args@, start, i as nat) == Ok::<(Seq<usize>, FactsMap), ErrorView>(
                (list@, facts@),
            ),
        decreases args.len() - i,
    {
        match take_required(
            &mut facts.ctor_arg_indices,
            args[i].id,
            args[i].span,
            "构造器实参字段索引",
        ) {
            Ok(index) => {
                list.push(index);
            },
            Err(error) => {
                proof {
                    lemma_indices_stop(args@, start, (i + 1) as nat, args@.len());
                }
                return Err(error);
            },
        }
        i += 1;
    }
    Ok(list)
}

/// Builds what an ordinary call goes to.
pub fn lower_call_target(
    target: LowerCallTarget,
    args: &Vec<ast::CallArg>,
    facts: &mut LowerFacts,
    span: Span,
) -> (r: AliasResult<CallTarget>)
    ensures
        match lowered_target(target@, args@, old(facts)@, span) {
            Ok((view, after)) => r matches Ok(built) && call_view(built) == view && final(facts)@
                == after,
            Err(error) => fault_of(r) == Some(error),
        },
        r is Err && !(target is StructConstructor) ==> final(facts)@ == old(facts)@,
        only_indices_taken(old(facts)@, final(facts)@),
{
    match target {
        LowerCallTarget::StructConstructor(name) => match take_indices(args, facts) {
            Ok(arg_field_indices) => Ok(CallTarget::StructConstructor { name, arg_field_indices }),
            Err(error) => Err(error),
        },
        LowerCallTarget::Method(_) => Err(broken_invariant(span, "普通 Call 携带方法 target")),
        LowerCallTarget::FunctionValue => Ok(CallTarget::FunctionValue),
        LowerCallTarget::ResultConstructor(kind) => Ok(CallTarget::ResultConstructor(kind)),
        LowerCallTarget::Builtin(builtin) => Ok(CallTarget::Builtin(builtin)),
        LowerCallTarget::Typeof | LowerCallTarget::ContextualConversion(_)
        | LowerCallTarget::Borrow | LowerCallTarget::Move => Err(
            broken_invariant(span, "已解析静态操作进入普通 Call lowering"),
        ),
    }
}

fn lower_call(
    e: &ast::Expr,
    ty: Ty,
    target: Option<LowerCallTarget>,
    facts: &mut LowerFacts,
    Ghost(fact): Ghost<ExprFact>,
) -> (r: AliasResult<Expr>)
    requires
        fact.ty == ty@,
        fact.call_target == maybe_view(target),
    ensures
        gives_expr(r, final(facts)@, lowered_call(*e, fact, old(facts)@)),
    decreases e, 0nat,
{
    let (callee, args) = match &e.kind {
        ast::ExprKind::Call { callee, args } => (callee, args),
        _ => {
            return Err(broken_invariant(e.span, "Call 缺少 target"));
        },
    };
    let target = match target {
        Some(target) => target,
        None => {
            return Err(broken_invariant(e.span, "Call 缺少 target"));
        },
    };
    let alone = match &target {
        LowerCallTarget::ContextualConversion(_) => Some("上下文转换元数不是 1"),
        LowerCallTarget::Typeof => Some("typeof 元数不是 1"),
        LowerCallTarget::Move => Some("move 元数不是 1"),
        LowerCallTarget::Borrow => Some("borrow 元数不是 1"),
        _ => None,
    };
    if let Some(message) = alone {
        if args.len() != 1 {
            return Err(broken_invariant(e.span, message));
        }
    }
    let head = match lower_expr(callee, facts) {
        Ok(head) => head,
        Err(error) => {
            return Err(error);
        },
    };
    match target {
        LowerCallTarget::ContextualConversion(mode) => match lower_expr(&args[0].value, facts) {
            Err(error) => Err(error),
            Ok(value) => Ok(convert_node(value, mode, e.span, ty)),
        },
        LowerCallTarget::Typeof => match lower_expr(&args[0].value, facts) {
            Err(error) => Err(error),
            Ok(value) => {
                proof {
                    lemma_built_type(value);
                }
                Ok(typeof_node(value.ty().name(), e.span, ty))
            },
        },
        LowerCallTarget::Move => {
            let place = match take_required(&mut facts.move_places, e.id, e.span, "move Place") {
                Ok(place) => place,
                Err(error) => {
                    return Err(error);
                },
            };
            match lower_base(&args[0].value, place, facts) {
                Err(error) => Err(error),
                Ok(source) => Ok(move_node(source, e.span, ty)),
            }
        },
        LowerCallTarget::Borrow => {
            let borrow = match take_required(
                &mut facts.borrow_places,
                e.id,
                e.span,
                "borrow Place",
            ) {
                Ok(borrow) => borrow,
                Err(error) => {
                    return Err(error);
                },
            };
            match lower_base(&args[0].value, borrow.place, facts) {
                Err(error) => Err(error),
                Ok(source) => Ok(borrow_node(borrow.loan_id, source, e.span, ty)),
            }
        },
        other => {
            let list = match lower_args(args, facts) {
                Ok(list) => list,
                Err(error) => {
                    return Err(error);
                },
            };
            match lower_call_target(other, args, facts, e.span) {
                Err(error) => Err(error),
                Ok(goal) => Ok(call_node(head, list, goal, e.span, ty)),
            }
        },
    }
}

fn lower_juxtapose(
    e: &ast::Expr,
    ty: Ty,
    target: Option<LowerCallTarget>,
    facts: &mut LowerFacts,
    Ghost(fact): Ghost<ExprFact>,
) -> (r: AliasResult<Expr>)
    requires
        fact.ty == ty@,
        fact.call_target == maybe_view(target),
    ensures
        gives_expr(r, final(facts)@, lowered_juxtapose(*e, fact, old(facts)@)),
    decreases e, 0nat,
{
    let (lhs, rhs) = match &e.kind {
        ast::ExprKind::Juxtapose { lhs: left, rhs: right } => (left, right),
        _ => {
            return Err(broken_invariant(e.span, "两项无括号邻接未解析"));
        },
    };
    match target {
        Some(LowerCallTarget::FunctionValue) => {
            let head = match lower_expr(lhs, facts) {
                Ok(head) => head,
                Err(error) => {
                    return Err(error);
                },
            };
            match lower_expr(rhs, facts) {
                Err(error) => Err(error),
                Ok(value) => {
                    let mut args: Vec<CallArg> = Vec::new();
                    let ghost tree = built_expr(value);
                    args.push(arg_node(value));
                    assert(built_args(args@) =~= seq![arg_part(tree)]);
                    Ok(call_node(head, args, CallTarget::FunctionValue, e.span, ty))
                },
            }
        },
        Some(LowerCallTarget::Method(method)) => {
            match &rhs.kind {
                ast::ExprKind::Ident(_) => {},
                _ => {
                    return Err(broken_invariant(rhs.span, "零参方法中缀 RHS 不是方法名"));
                },
            }
            match lower_expr(lhs, facts) {
                Err(error) => Err(error),
                Ok(recv) => {
                    let args: Vec<CallArg> = Vec::new();
                    assert(built_args(args@) =~= Seq::empty());
                    Ok(method_node(recv, args, method, e.span, ty))
                },
            }
        },
        _ => Err(broken_invariant(e.span, "两项无括号邻接未解析")),
    }
}

fn lower_method(
    e: &ast::Expr,
    ty: Ty,
    target: Option<LowerCallTarget>,
    facts: &mut LowerFacts,
    Ghost(fact): Ghost<ExprFact>,
) -> (r: AliasResult<Expr>)
    requires
        fact.ty == ty@,
        fact.call_target == maybe_view(target),
    ensures
        gives_expr(r, final(facts)@, lowered_method(*e, fact, old(facts)@)),
    decreases e, 0nat,
{
    let (recv, args) = match &e.kind {
        ast::ExprKind::MethodCall { recv, args, .. } => (recv, args),
        _ => {
            return Err(broken_invariant(e.span, "MethodCall 缺少方法 target"));
        },
    };
    let head = match lower_expr(recv, facts) {
        Ok(head) => head,
        Err(error) => {
            return Err(error);
        },
    };
    let list = match lower_args(args, facts) {
        Ok(list) => list,
        Err(error) => {
            return Err(error);
        },
    };
    match target {
        Some(LowerCallTarget::Method(method)) => Ok(method_node(head, list, method, e.span, ty)),
        _ => Err(broken_invariant(e.span, "MethodCall 缺少方法 target")),
    }
}

proof fn lemma_params_stop(params: Seq<ast::Param>, facts: FactsMap, at: nat, upto: nat)
    requires
        at <= upto,
        lowered_params(params, facts, at) is Err,
    ensures
        lowered_params(params, facts, upto) == lowered_params(params, facts, at),
    decreases upto - at,
{
    if at < upto {
        lemma_params_stop(params, facts, at, (upto - 1) as nat);
    }
}

fn lower_params(params: &Vec<ast::Param>, facts: &mut LowerFacts) -> (r: AliasResult<Vec<Param>>)
    ensures
        match lowered_params(params@, old(facts)@, params@.len()) {
            Ok((list, after)) => r matches Ok(built) && param_trees(built@) == list
                && final(facts)@ == after,
            Err(error) => fault_of(r) == Some(error),
        },
{
    let ghost start = facts@;
    let mut list: Vec<Param> = Vec::new();
    let mut i: usize = 0;
    assert(param_trees(list@) =~= Seq::empty());
    while i < params.len()
        invariant
            i <= params.len(),
            start == old(facts)@,
            lowered_params(params@, start, i as nat) == Ok::<(Seq<Tree>, FactsMap), ErrorView>(
                (param_trees(list@), facts@),
            ),
        decreases params.len() - i,
    {
        let param = &params[i];
        let ghost done = list@;
        let binding_id = match take_required(
            &mut facts.param_ids,
            param.id,
            param.span,
            "函数参数 BindingId",
        ) {
            Ok(id) => id,
            Err(error) => {
                proof {
                    lemma_params_stop(params@, start, (i + 1) as nat, params@.len());
                }
                return Err(error);
            },
        };
        let ty = match facts.params.take(param.id) {
            Some(ty) => ty,
            None => {
                proof {
                    lemma_params_stop(params@, start, (i + 1) as nat, params@.len());
                }
                return Err(broken_invariant(param.span, "函数参数缺少静态类型"));
            },
        };
        let built = Param { binding_id, ty, effect: None };
        list.push(built);
        assert(param_trees(list@) =~= param_trees(done).push(
            part(Label::Param(binding_id, ty@, None), Seq::empty()),
        ));
        i += 1;
    }
    Ok(list)
}

fn lower_function(e: &ast::Expr, ty: Ty, facts: &mut LowerFacts) -> (r: AliasResult<Expr>)
    ensures
        gives_expr(r, final(facts)@, lowered_function(*e, ty@, old(facts)@)),
    decreases e, 0nat,
{
    let (params, body) = match &e.kind {
        ast::ExprKind::FuncLit { params, body } => (params, body),
        _ => {
            return Err(broken_invariant(e.span, "表达式缺少静态类型"));
        },
    };
    if facts.next_function == u32::MAX {
        return Err(broken_invariant(e.span, "FunctionId 数量超过编译器上限"));
    }
    let function_id = FunctionId(facts.next_function);
    facts.next_function = facts.next_function + 1;
    let list = match lower_params(params, facts) {
        Ok(list) => list,
        Err(error) => {
            return Err(error);
        },
    };
    match lower_body(body, facts) {
        Err(error) => Err(error),
        Ok(inner) => Ok(function_node(function_id, list, inner, e.span, ty)),
    }
}

proof fn lemma_exprs_stop(list: Seq<ast::Expr>, facts: FactsMap, at: nat, upto: nat)
    requires
        at <= upto <= list.len(),
        lowered_exprs(list, facts, at) is Err,
    ensures
        lowered_exprs(list, facts, upto) == lowered_exprs(list, facts, at),
    decreases upto - at,
{
    if at < upto {
        lemma_exprs_stop(list, facts, at, (upto - 1) as nat);
    }
}

fn lower_exprs(list: &Vec<ast::Expr>, facts: &mut LowerFacts) -> (r: AliasResult<Vec<Expr>>)
    ensures
        match lowered_exprs(list@, old(facts)@, list@.len()) {
            Ok((trees, after)) => r matches Ok(built) && built_exprs(built@) == trees && final(facts)@
                == after,
            Err(error) => fault_of(r) == Some(error),
        },
    decreases list, 0nat,
{
    let ghost start = facts@;
    let mut done: Vec<Expr> = Vec::new();
    let mut i: usize = 0;
    assert(built_exprs(done@) =~= Seq::empty());
    while i < list.len()
        invariant
            i <= list.len(),
            start == old(facts)@,
            lowered_exprs(list@, start, i as nat) == Ok::<(Seq<Tree>, FactsMap), ErrorView>(
                (built_exprs(done@), facts@),
            ),
        decreases list.len() - i,
    {
        let ghost before = done@;
        match lower_expr(&list[i], facts) {
            Ok(built) => {
                let ghost tree = built_expr(built);
                done.push(built);
                assert(built_exprs(done@) =~= built_exprs(before).push(tree));
            },
            Err(error) => {
                proof {
                    lemma_exprs_stop(list@, start, (i + 1) as nat, list@.len());
                }
                return Err(error);
            },
        }
        i += 1;
    }
    Ok(done)
}

proof fn lemma_args_stop(list: Seq<ast::CallArg>, facts: FactsMap, at: nat, upto: nat)
    requires
        at <= upto <= list.len(),
        lowered_args(list, facts, at) is Err,
    ensures
        lowered_args(list, facts, upto) == lowered_args(list, facts, at),
    decreases upto - at,
{
    if at < upto {
        lemma_args_stop(list, facts, at, (upto - 1) as nat);
    }
}

fn lower_args(list: &Vec<ast::CallArg>, facts: &mut LowerFacts) -> (r: AliasResult<Vec<CallArg>>)
    ensures
        match lowered_args(list@, old(facts)@, list@.len()) {
            Ok((trees, after)) => r matches Ok(built) && built_args(built@) == trees && final(facts)@
                == after,
            Err(error) => fault_of(r) == Some(error),
        },
    decreases list, 0nat,
{
    let ghost start = facts@;
    let mut done: Vec<CallArg> = Vec::new();
    let mut i: usize = 0;
    assert(built_args(done@) =~= Seq::empty());
    while i < list.len()
        invariant
            i <= list.len(),
            start == old(facts)@,
            lowered_args(list@, start, i as nat) == Ok::<(Seq<Tree>, FactsMap), ErrorView>(
                (built_args(done@), facts@),
            ),
        decreases list.len() - i,
    {
        let ghost before = done@;
        match lower_expr(&list[i].value, facts) {
            Ok(built) => {
                let ghost tree = arg_part(built_expr(built));
                done.push(arg_node(built));
                assert(built_args(done@) =~= built_args(before).push(tree));
            },
            Err(error) => {
                proof {
                    lemma_args_stop(list@, start, (i + 1) as nat, list@.len());
                }
                return Err(error);
            },
        }
        i += 1;
    }
    Ok(done)
}

proof fn lemma_parts_stop(list: Seq<ast::StrPart>, facts: FactsMap, at: nat, upto: nat)
    requires
        at <= upto <= list.len(),
        lowered_parts(list, facts, at) is Err,
    ensures
        lowered_parts(list, facts, upto) == lowered_parts(list, facts, at),
    decreases upto - at,
{
    if at < upto {
        lemma_parts_stop(list, facts, at, (upto - 1) as nat);
    }
}

fn lower_parts(list: &Vec<ast::StrPart>, facts: &mut LowerFacts) -> (r: AliasResult<Vec<StrPart>>)
    ensures
        match lowered_parts(list@, old(facts)@, list@.len()) {
            Ok((trees, after)) => r matches Ok(built) && built_parts(built@) == trees && final(facts)@
                == after,
            Err(error) => fault_of(r) == Some(error),
        },
    decreases list, 0nat,
{
    let ghost start = facts@;
    let mut done: Vec<StrPart> = Vec::new();
    let mut i: usize = 0;
    assert(built_parts(done@) =~= Seq::empty());
    while i < list.len()
        invariant
            i <= list.len(),
            start == old(facts)@,
            lowered_parts(list@, start, i as nat) == Ok::<(Seq<Tree>, FactsMap), ErrorView>(
                (built_parts(done@), facts@),
            ),
        decreases list.len() - i,
    {
        let ghost before = done@;
        match lower_part(&list[i], facts) {
            Ok(built) => {
                let ghost tree = built_part(built);
                done.push(built);
                assert(built_parts(done@) =~= built_parts(before).push(tree));
            },
            Err(error) => {
                proof {
                    lemma_parts_stop(list@, start, (i + 1) as nat, list@.len());
                }
                return Err(error);
            },
        }
        i += 1;
    }
    Ok(done)
}

proof fn lemma_arms_stop(list: Seq<ast::MatchArm>, facts: FactsMap, at: nat, upto: nat)
    requires
        at <= upto <= list.len(),
        lowered_arms(list, facts, at) is Err,
    ensures
        lowered_arms(list, facts, upto) == lowered_arms(list, facts, at),
    decreases upto - at,
{
    if at < upto {
        lemma_arms_stop(list, facts, at, (upto - 1) as nat);
    }
}

fn lower_arms(list: &Vec<ast::MatchArm>, facts: &mut LowerFacts) -> (r: AliasResult<Vec<MatchArm>>)
    ensures
        match lowered_arms(list@, old(facts)@, list@.len()) {
            Ok((trees, after)) => r matches Ok(built) && built_arms(built@) == trees && final(facts)@
                == after,
            Err(error) => fault_of(r) == Some(error),
        },
    decreases list, 0nat,
{
    let ghost start = facts@;
    let mut done: Vec<MatchArm> = Vec::new();
    let mut i: usize = 0;
    assert(built_arms(done@) =~= Seq::empty());
    while i < list.len()
        invariant
            i <= list.len(),
            start == old(facts)@,
            lowered_arms(list@, start, i as nat) == Ok::<(Seq<Tree>, FactsMap), ErrorView>(
                (built_arms(done@), facts@),
            ),
        decreases list.len() - i,
    {
        let ghost before = done@;
        match lower_match_arm(&list[i], facts) {
            Ok(built) => {
                let ghost tree = built_arm(built);
                done.push(built);
                assert(built_arms(done@) =~= built_arms(before).push(tree));
            },
            Err(error) => {
                proof {
                    lemma_arms_stop(list@, start, (i + 1) as nat, list@.len());
                }
                return Err(error);
            },
        }
        i += 1;
    }
    Ok(done)
}

proof fn lemma_stmts_stop(list: Seq<ast::Stmt>, facts: FactsMap, at: nat, upto: nat)
    requires
        at <= upto <= list.len(),
        lowered_stmts(list, facts, at) is Err,
    ensures
        lowered_stmts(list, facts, upto) == lowered_stmts(list, facts, at),
    decreases upto - at,
{
    if at < upto {
        lemma_stmts_stop(list, facts, at, (upto - 1) as nat);
    }
}

fn lower_stmts(list: &Vec<ast::Stmt>, facts: &mut LowerFacts) -> (r: AliasResult<Vec<Stmt>>)
    ensures
        match lowered_stmts(list@, old(facts)@, list@.len()) {
            Ok((trees, after)) => r matches Ok(built) && built_stmts(built@) == trees && final(facts)@
                == after,
            Err(error) => fault_of(r) == Some(error),
        },
    decreases list, 0nat,
{
    let ghost start = facts@;
    let mut done: Vec<Stmt> = Vec::new();
    let mut i: usize = 0;
    assert(built_stmts(done@) =~= Seq::empty());
    while i < list.len()
        invariant
            i <= list.len(),
            start == old(facts)@,
            lowered_stmts(list@, start, i as nat) == Ok::<(Seq<Tree>, FactsMap), ErrorView>(
                (built_stmts(done@), facts@),
            ),
        decreases list.len() - i,
    {
        let ghost before = done@;
        match lower_stmt(&list[i], facts) {
            Ok(built) => {
                let ghost tree = built_stmt(built);
                done.push(built);
                assert(built_stmts(done@) =~= built_stmts(before).push(tree));
            },
            Err(error) => {
                proof {
                    lemma_stmts_stop(list@, start, (i + 1) as nat, list@.len());
                }
                return Err(error);
            },
        }
        i += 1;
    }
    Ok(done)
}

proof fn lemma_branches_stop(list: Seq<(ast::Expr, Vec<ast::Stmt>)>, facts: FactsMap, at: nat, upto: nat)
    requires
        at <= upto <= list.len(),
        lowered_branches(list, facts, at) is Err,
    ensures
        lowered_branches(list, facts, upto) == lowered_branches(list, facts, at),
    decreases upto - at,
{
    if at < upto {
        lemma_branches_stop(list, facts, at, (upto - 1) as nat);
    }
}

fn lower_branches(list: &Vec<(ast::Expr, Vec<ast::Stmt>)>, facts: &mut LowerFacts) -> (r:
    AliasResult<Vec<(Expr, Vec<Stmt>)>>)
    ensures
        match lowered_branches(list@, old(facts)@, list@.len()) {
            Ok((trees, after)) => r matches Ok(built) && built_branches(built@) == trees && final(facts)@
                == after,
            Err(error) => fault_of(r) == Some(error),
        },
    decreases list, 0nat,
{
    let ghost start = facts@;
    let mut done: Vec<(Expr, Vec<Stmt>)> = Vec::new();
    let mut i: usize = 0;
    assert(built_branches(done@) =~= Seq::empty());
    while i < list.len()
        invariant
            i <= list.len(),
            start == old(facts)@,
            lowered_branches(list@, start, i as nat) == Ok::<(Seq<Tree>, FactsMap), ErrorView>(
                (built_branches(done@), facts@),
            ),
        decreases list.len() - i,
    {
        let ghost before = done@;
        match lower_branch(&list[i], facts) {
            Ok(built) => {
                let ghost tree = built_branch(built);
                done.push(built);
                assert(built_branches(done@) =~= built_branches(before).push(tree));
            },
            Err(error) => {
                proof {
                    lemma_branches_stop(list@, start, (i + 1) as nat, list@.len());
                }
                return Err(error);
            },
        }
        i += 1;
    }
    Ok(done)
}

fn lower_part(piece: &ast::StrPart, facts: &mut LowerFacts) -> (r: AliasResult<StrPart>)
    ensures
        match *piece {
            ast::StrPart::Lit(text) => r matches Ok(built) && built_part(built)
                == part(Label::Lit(text@), Seq::empty()) && final(facts)@ == old(facts)@,
            ast::StrPart::Hole(hole) => match lowered_expr(*hole, old(facts)@) {
                Ok((tree, after)) => r matches Ok(built) && built_part(built)
                    == part(Label::Hole, seq![tree]) && final(facts)@ == after,
                Err(error) => fault_of(r) == Some(error),
            },
        },
    decreases piece, 0nat,
{
    match piece {
        ast::StrPart::Lit(text) => Ok(lit_part(text.clone())),
        ast::StrPart::Hole(hole) => match lower_expr(hole, facts) {
            Ok(inner) => Ok(hole_part(inner)),
            Err(error) => Err(error),
        },
    }
}

fn lower_branch(branch: &(ast::Expr, Vec<ast::Stmt>), facts: &mut LowerFacts) -> (r: AliasResult<
    (Expr, Vec<Stmt>),
>)
    ensures
        match lowered_branch(*branch, old(facts)@) {
            Ok((tree, after)) => r matches Ok(built) && built_branch(built) == tree
                && final(facts)@ == after,
            Err(error) => fault_of(r) == Some(error),
        },
    decreases branch, 0nat,
{
    let cond = match lower_expr(&branch.0, facts) {
        Ok(cond) => cond,
        Err(error) => {
            return Err(error);
        },
    };
    match lower_stmts(&branch.1, facts) {
        Ok(body) => Ok(branch_node(cond, body)),
        Err(error) => Err(error),
    }
}

fn lower_match_arm(arm: &ast::MatchArm, facts: &mut LowerFacts) -> (r: AliasResult<MatchArm>)
    ensures
        match lowered_arm(*arm, old(facts)@) {
            Ok((tree, after)) => r matches Ok(built) && built_arm(built) == tree
                && final(facts)@ == after,
            Err(error) => fault_of(r) == Some(error),
        },
    decreases arm, 0nat,
{
    let pattern = copy_pattern(&arm.pattern);
    let binding_id = facts.match_binding_ids.take(arm.id);
    match &arm.body {
        ast::ArmBody::Block(stmts) => match lower_stmts(stmts, facts) {
            Ok(stmts) => Ok(block_arm(pattern, binding_id, stmts)),
            Err(error) => Err(error),
        },
        ast::ArmBody::Value(value) => match lower_expr(value, facts) {
            Ok(value) => Ok(value_arm(pattern, binding_id, value)),
            Err(error) => Err(error),
        },
        ast::ArmBody::Ret(value) => match lower_expr(value, facts) {
            Ok(value) => Ok(ret_arm(pattern, binding_id, value)),
            Err(error) => Err(error),
        },
    }
}

fn lower_body(body: &ast::Body, facts: &mut LowerFacts) -> (r: AliasResult<Body>)
    ensures
        match lowered_body(*body, old(facts)@) {
            Ok((tree, after)) => r matches Ok(built) && built_body(built) == tree && final(facts)@
                == after,
            Err(error) => fault_of(r) == Some(error),
        },
    decreases body, 0nat,
{
    match body {
        ast::Body::Block(stmts) => match lower_stmts(stmts, facts) {
            Ok(stmts) => Ok(block_body(stmts)),
            Err(error) => Err(error),
        },
        ast::Body::Single(stmt) => match lower_stmt(stmt, facts) {
            Ok(stmt) => Ok(single_body(stmt)),
            Err(error) => Err(error),
        },
    }
}

fn lower_assign(stmt: &ast::Stmt, value: &ast::Expr, facts: &mut LowerFacts) -> (r: AliasResult<
    Stmt,
>)
    ensures
        gives_stmt(r, final(facts)@, lowered_assign(*stmt, *value, old(facts)@)),
    decreases value, 4nat,
{
    let place = match take_required(
        &mut facts.assignment_places,
        stmt.id,
        stmt.span,
        "赋值 Place",
    ) {
        Ok(place) => place,
        Err(error) => {
            return Err(error);
        },
    };
    match place {
        LowerPlaceInfo::Local { binding_id, ty } => match lower_expr(value, facts) {
            Err(error) => Err(error),
            Ok(value) => Ok(assign_stmt(local_place(binding_id, ty, stmt.span), value)),
        },
        _ => Err(broken_invariant(stmt.span, "普通赋值携带字段 Place")),
    }
}

fn lower_field_assign(stmt: &ast::Stmt, facts: &mut LowerFacts) -> (r: AliasResult<Stmt>)
    ensures
        gives_stmt(r, final(facts)@, lowered_field_assign(*stmt, old(facts)@)),
    decreases stmt, 0nat,
{
    let (recv, value) = match &stmt.kind {
        ast::StmtKind::FieldAssign { recv, value } => (recv, value),
        _ => {
            return Err(broken_invariant(stmt.span, "表达式缺少静态类型"));
        },
    };
    let place = match take_required(
        &mut facts.assignment_places,
        stmt.id,
        stmt.span,
        "赋值 Place",
    ) {
        Ok(place) => place,
        Err(error) => {
            return Err(error);
        },
    };
    match place {
        LowerPlaceInfo::Field { base, field_index, ty } => {
            let base = match lower_base(recv, *base, facts) {
                Ok(base) => base,
                Err(error) => {
                    return Err(error);
                },
            };
            match lower_expr(value, facts) {
                Err(error) => Err(error),
                Ok(value) => Ok(assign_stmt(field_place(base, field_index, ty, stmt.span), value)),
            }
        },
        _ => Err(broken_invariant(stmt.span, "字段赋值携带 local Place")),
    }
}

fn lower_for(stmt: &ast::Stmt, facts: &mut LowerFacts) -> (r: AliasResult<Stmt>)
    ensures
        gives_stmt(r, final(facts)@, lowered_for(*stmt, old(facts)@)),
    decreases stmt, 0nat,
{
    let (iterable, body) = match &stmt.kind {
        ast::StmtKind::For { iterable, body } => (iterable, body),
        _ => {
            return Err(broken_invariant(stmt.span, "表达式缺少静态类型"));
        },
    };
    let binding_id = match take_required(
        &mut facts.for_ids,
        stmt.id,
        stmt.span,
        "for 循环变量 BindingId",
    ) {
        Ok(id) => id,
        Err(error) => {
            return Err(error);
        },
    };
    let ty = match facts.fors.take(stmt.id) {
        Some(ty) => ty,
        None => {
            return Err(broken_invariant(stmt.span, "for 循环变量缺少静态类型"));
        },
    };
    let element_plan = match take_required(
        &mut facts.for_plans,
        stmt.id,
        stmt.span,
        "for 元素计划",
    ) {
        Ok(plan) => plan,
        Err(error) => {
            return Err(error);
        },
    };
    let source = match lower_expr(iterable, facts) {
        Ok(source) => source,
        Err(error) => {
            return Err(error);
        },
    };
    match lower_stmts(body, facts) {
        Err(error) => Err(error),
        Ok(body) => Ok(for_stmt(binding_id, ty, element_plan, source, body, stmt.span)),
    }
}

fn lower_if(stmt: &ast::Stmt, facts: &mut LowerFacts) -> (r: AliasResult<Stmt>)
    ensures
        gives_stmt(r, final(facts)@, lowered_if(*stmt, old(facts)@)),
    decreases stmt, 0nat,
{
    match &stmt.kind {
        ast::StmtKind::If { branches, else_body } => {
            let branches = match lower_branches(branches, facts) {
                Ok(branches) => branches,
                Err(error) => {
                    return Err(error);
                },
            };
            match else_body {
                None => Ok(if_stmt(branches)),
                Some(body) => match lower_stmts(body, facts) {
                    Ok(body) => Ok(if_else_stmt(branches, body)),
                    Err(error) => Err(error),
                },
            }
        },
        _ => Err(broken_invariant(stmt.span, "表达式缺少静态类型")),
    }
}

fn lower_while(stmt: &ast::Stmt, facts: &mut LowerFacts) -> (r: AliasResult<Stmt>)
    ensures
        gives_stmt(r, final(facts)@, lowered_while(*stmt, old(facts)@)),
    decreases stmt, 0nat,
{
    match &stmt.kind {
        ast::StmtKind::While { cond, body } => {
            let cond = match lower_expr(cond, facts) {
                Ok(cond) => cond,
                Err(error) => {
                    return Err(error);
                },
            };
            match lower_stmts(body, facts) {
                Ok(body) => Ok(while_stmt(cond, body)),
                Err(error) => Err(error),
            }
        },
        _ => Err(broken_invariant(stmt.span, "表达式缺少静态类型")),
    }
}

/// Builds a statement of the resolved tree.
pub fn lower_stmt(stmt: &ast::Stmt, facts: &mut LowerFacts) -> (r: AliasResult<Stmt>)
    ensures
        gives_stmt(r, final(facts)@, lowered_stmt(*stmt, old(facts)@)),
    decreases stmt, 1nat,
{
    let ghost start = facts@;
    match &stmt.kind {
        ast::StmtKind::Binding(binding) => match lower_binding(binding, facts) {
            Ok(binding) => Ok(binding_stmt(binding)),
            Err(error) => Err(error),
        },
        ast::StmtKind::Assign { value } => {
            let r = lower_assign(stmt, value, facts);
            assert(gives_stmt(r, facts@, lowered_assign(*stmt, *value, start)));
            r
        },
        ast::StmtKind::FieldAssign { .. } => {
            let r = lower_field_assign(stmt, facts);
            assert(gives_stmt(r, facts@, lowered_field_assign(*stmt, start)));
            r
        },
        ast::StmtKind::Expr { expr } => match lower_expr(expr, facts) {
            Ok(expr) => Ok(expr_stmt(expr)),
            Err(error) => Err(error),
        },
        ast::StmtKind::Return { value } => match value {
            None => Ok(return_stmt(None)),
            Some(value) => match lower_expr(value, facts) {
                Ok(value) => Ok(return_stmt(Some(value))),
                Err(error) => Err(error),
            },
        },
        ast::StmtKind::If { .. } => {
            let r = lower_if(stmt, facts);
            assert(gives_stmt(r, facts@, lowered_if(*stmt, start)));
            r
        },
        ast::StmtKind::While { .. } => {
            let r = lower_while(stmt, facts);
            assert(gives_stmt(r, facts@, lowered_while(*stmt, start)));
            r
        },
        ast::StmtKind::For { .. } => {
            let r = lower_for(stmt, facts);
            assert(gives_stmt(r, facts@, lowered_for(*stmt, start)));
            r
        },
        ast::StmtKind::Break => Ok(break_stmt()),
        ast::StmtKind::Continue => Ok(continue_stmt()),
    }
}

fn take_owner(id: u32, facts: &mut LowerFacts) -> (r: Option<BindingOwner>)
    ensures
        ({
            let (owner, after) = lowered_owner(id, old(facts)@);
            &&& final(facts)@ == after
            &&& match owner {
                Some(view) => r matches Some(found) && owner_view(found) == view,
                None => r is None,
            }
        }),
{
    let receiver = facts.receivers.take(id);
    let method_id = facts.method_ids.take(id);
    let self_id = facts.method_self_ids.take(id);
    match (receiver, method_id, self_id) {
        (None, None, None) => Some(BindingOwner::Ordinary),
        (Some(receiver), Some(method_id), Some(self_id)) => Some(
            BindingOwner::Method { method_id, self_id, receiver },
        ),
        _ => None,
    }
}

/// Builds a binding of the resolved tree.
pub fn lower_binding(binding: &ast::Binding, facts: &mut LowerFacts) -> (r: AliasResult<Binding>)
    ensures
        match lowered_binding(*binding, old(facts)@) {
            Ok((tree, after)) => r matches Ok(built) && built_binding(built) == tree
                && final(facts)@ == after,
            Err(error) => fault_of(r) == Some(error),
        },
    decreases binding, 0nat,
{
    let binding_id = match take_required(
        &mut facts.binding_ids,
        binding.id,
        binding.span,
        "绑定 BindingId",
    ) {
        Ok(id) => id,
        Err(error) => {
            return Err(error);
        },
    };
    let ty = match facts.bindings.take(binding.id) {
        Some(ty) => ty,
        None => {
            return Err(broken_invariant(binding.span, "绑定缺少静态类型"));
        },
    };
    let owner = match take_owner(binding.id, facts) {
        Some(owner) => owner,
        None => {
            return Err(broken_invariant(binding.span, "方法绑定缺少 MethodId/self BindingId"));
        },
    };
    let mut value = match lower_expr(&binding.value, facts) {
        Ok(value) => value,
        Err(error) => {
            return Err(error);
        },
    };
    match add_self(&owner, &mut value, binding.span) {
        Ok(()) => {},
        Err(error) => {
            return Err(error);
        },
    }
    Ok(
        binding_node(
            binding_id,
            owner,
            binding.kind,
            ty,
            binding.name.clone(),
            value,
            binding.span,
        ),
    )
}

} // verus!
