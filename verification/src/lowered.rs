//! What the resolved program tree is.
//!
//! Every fact about a node is used exactly once. What a name, a call or a place means is taken
//! from the facts and never guessed from how it was written.

use crate::ast;
use crate::builders::{
    absent, arg_part, arm_label, assign_tree, bare, call_tree, fresh_binding, index_check,
    method_tree, method_value, plain, shape_category,
};
use crate::facts::{ExprFact, FactsMap, PlaceFact, TargetView, found, missing_fact};
use crate::model::{ResolvedConversion, RuntimeCheckRequirement};
use crate::ownership_capabilities::category_capability;
use crate::tree::{CallView, Label, OwnerView, Tree, part, spanned};
use crate::types::{BindingId, ErrorView, FunctionId, Span, TyView, broken_at, ty_name};
use vstd::prelude::*;

verus! {

/// What building a part of the tree comes to: the part, and the facts that are left.
pub type Lowered<T> = Result<(T, FactsMap), ErrorView>;

pub open spec fn is_call(kind: ast::ExprKind) -> bool {
    kind is Call || kind is Juxtapose || kind is MethodCall
}

/// The facts without what is known of an expression.
pub open spec fn without_expr(facts: FactsMap, id: u32) -> FactsMap {
    FactsMap { exprs: facts.exprs.remove(id), ..facts }
}

pub open spec fn untyped(span: Span) -> ErrorView {
    broken_at(span, "表达式缺少静态类型"@)
}

/// A variable or function name as a resolved expression.
pub open spec fn name_tree(e: ast::Expr, ty: TyView, facts: FactsMap) -> Option<(Tree, FactsMap)> {
    match e.kind {
        ast::ExprKind::Ident(name) => Some(
            (
                plain(
                    Label::Ident(name@, found(facts.expr_binding_ids, e.id)),
                    e.span,
                    ty,
                    Seq::empty(),
                ),
                FactsMap { expr_binding_ids: facts.expr_binding_ids.remove(e.id), ..facts },
            ),
        ),
        ast::ExprKind::This => Some((plain(Label::This, e.span, ty, Seq::empty()), facts)),
        _ => None,
    }
}

/// A name of a function without parameters that stands for a call.
pub open spec fn lowered_implicit(
    e: ast::Expr,
    fact: ExprFact,
    callee_ty: TyView,
    facts: FactsMap,
) -> Lowered<Tree> {
    if fact.call_target != Some(TargetView::FunctionValue) {
        Err(broken_at(e.span, "隐式零参调用缺少函数调用 target"@))
    } else {
        match name_tree(e, callee_ty, facts) {
            None => Err(broken_at(e.span, "隐式零参调用的 callee 不是直接函数引用"@)),
            Some((callee, rest)) => Ok(
                (
                    call_tree(callee, Seq::empty(), CallView::FunctionValue, e.span, fact.ty),
                    rest,
                ),
            ),
        }
    }
}

/// An expression of the resolved tree.
pub open spec fn lowered_expr(e: ast::Expr, facts: FactsMap) -> Lowered<Tree>
    decreases e, 3nat,
{
    match found(facts.exprs, e.id) {
        None => Err(untyped(e.span)),
        Some(fact) => {
            let rest = without_expr(facts, e.id);
            if is_call(e.kind) && fact.call_target is None {
                Err(broken_at(e.span, "调用表达式缺少已解析目标"@))
            } else {
                match fact.implicit_zero_callee {
                    Some(callee_ty) => lowered_implicit(e, fact, callee_ty, rest),
                    None => match found(rest.owning_reads, e.id) {
                        Some(read) => match lowered_place(
                            e,
                            read.place,
                            FactsMap { owning_reads: rest.owning_reads.remove(e.id), ..rest },
                        ) {
                            Err(error) => Err(error),
                            Ok((place, after)) => Ok(
                                (
                                    plain(
                                        Label::ReadPlace(read.plan),
                                        e.span,
                                        fact.ty,
                                        seq![place],
                                    ),
                                    after,
                                ),
                            ),
                        },
                        None => lowered_kind(e, fact, rest),
                    },
                }
            }
        },
    }
}

/// A place of the resolved tree, for an expression whose own fact has been used.
pub open spec fn lowered_place(e: ast::Expr, place: PlaceFact, facts: FactsMap) -> Lowered<Tree>
    decreases e, 2nat,
{
    match (place, e.kind) {
        (PlaceFact::Local { binding_id, ty }, ast::ExprKind::Ident(_)) => Ok(
            (
                spanned(Label::LocalPlace(binding_id, ty), e.span, Seq::empty()),
                FactsMap { expr_binding_ids: facts.expr_binding_ids.remove(e.id), ..facts },
            ),
        ),
        (PlaceFact::Field { base, field_index, ty }, ast::ExprKind::Field { recv, .. }) =>
            match lowered_base(
                *recv,
                *base,
                FactsMap { field_indices: facts.field_indices.remove(e.id), ..facts },
            ) {
                Err(error) => Err(error),
                Ok((tree, after)) => Ok(
                    (spanned(Label::FieldPlace(field_index, ty), e.span, seq![tree]), after),
                ),
            },
        (PlaceFact::Index { base, ty }, ast::ExprKind::Index { recv, idx }) => match lowered_base(
            *recv,
            *base,
            facts,
        ) {
            Err(error) => Err(error),
            Ok((tree, between)) => match lowered_expr(*idx, between) {
                Err(error) => Err(error),
                Ok((index, after)) => Ok(
                    (
                        spanned(
                            Label::IndexPlace(ty, RuntimeCheckRequirement::Required),
                            e.span,
                            seq![tree, index],
                        ),
                        after,
                    ),
                ),
            },
        },
        _ => Err(broken_at(e.span, "Place 与表达式形状漂移"@)),
    }
}

/// The place below a projection.
pub open spec fn lowered_base(e: ast::Expr, place: PlaceFact, facts: FactsMap) -> Lowered<Tree>
    decreases e, 3nat,
{
    match found(facts.exprs, e.id) {
        None => Err(untyped(e.span)),
        Some(_) => lowered_place(e, place, without_expr(facts, e.id)),
    }
}

/// What stands at an expression that is neither a read of a place nor a bare call.
pub open spec fn lowered_kind(e: ast::Expr, fact: ExprFact, facts: FactsMap) -> Lowered<Tree>
    decreases e, 1nat,
{
    let ty = fact.ty;
    match e.kind {
        ast::ExprKind::Int(value) => Ok(
            (plain(Label::Int(value), e.span, ty, Seq::empty()), facts),
        ),
        ast::ExprKind::Float(value) => Ok(
            (plain(Label::Float(value), e.span, ty, Seq::empty()), facts),
        ),
        ast::ExprKind::Bool(value) => Ok(
            (plain(Label::Bool(value), e.span, ty, Seq::empty()), facts),
        ),
        ast::ExprKind::Ident(_) => Ok(name_tree(e, ty, facts)->0),
        ast::ExprKind::This => Ok(name_tree(e, ty, facts)->0),
        ast::ExprKind::Str(parts) => match lowered_parts(parts@, facts, parts@.len()) {
            Err(error) => Err(error),
            Ok((kids, after)) => Ok((plain(Label::Str, e.span, ty, kids), after)),
        },
        ast::ExprKind::Cast { expr, .. } => match lowered_expr(*expr, facts) {
            Err(error) => Err(error),
            Ok((kid, after)) => Ok((plain(Label::Cast, e.span, ty, seq![kid]), after)),
        },
        ast::ExprKind::Neg { expr } => match lowered_expr(*expr, facts) {
            Err(error) => Err(error),
            Ok((kid, after)) => Ok((plain(Label::Neg, e.span, ty, seq![kid]), after)),
        },
        ast::ExprKind::Not { expr } => match lowered_expr(*expr, facts) {
            Err(error) => Err(error),
            Ok((kid, after)) => Ok((plain(Label::Not, e.span, ty, seq![kid]), after)),
        },
        ast::ExprKind::BitNot { expr } => match lowered_expr(*expr, facts) {
            Err(error) => Err(error),
            Ok((kid, after)) => Ok((plain(Label::BitNot, e.span, ty, seq![kid]), after)),
        },
        ast::ExprKind::Propagate { expr } => match lowered_expr(*expr, facts) {
            Err(error) => Err(error),
            Ok((kid, after)) => Ok((plain(Label::Propagate, e.span, ty, seq![kid]), after)),
        },
        ast::ExprKind::Binary { op, lhs, rhs } => match lowered_expr(*lhs, facts) {
            Err(error) => Err(error),
            Ok((left, between)) => match lowered_expr(*rhs, between) {
                Err(error) => Err(error),
                Ok((right, after)) => Ok(
                    (plain(Label::Binary(op, None), e.span, ty, seq![left, right]), after),
                ),
            },
        },
        ast::ExprKind::Ternary { cond, then_expr, else_expr } => match lowered_expr(*cond, facts) {
            Err(error) => Err(error),
            Ok((test, one)) => match lowered_expr(*then_expr, one) {
                Err(error) => Err(error),
                Ok((left, two)) => match lowered_expr(*else_expr, two) {
                    Err(error) => Err(error),
                    Ok((right, after)) => Ok(
                        (plain(Label::Ternary, e.span, ty, seq![test, left, right]), after),
                    ),
                },
            },
        },
        ast::ExprKind::Field { recv, .. } => match lowered_expr(*recv, facts) {
            Err(error) => Err(error),
            Ok((kid, after)) => match found(after.field_indices, e.id) {
                None => Err(missing_fact(e.span, "字段访问索引"@)),
                Some(index) => Ok(
                    (
                        plain(Label::Field(index), e.span, ty, seq![kid]),
                        FactsMap { field_indices: after.field_indices.remove(e.id), ..after },
                    ),
                ),
            },
        },
        ast::ExprKind::Index { recv, idx } => match lowered_expr(*recv, facts) {
            Err(error) => Err(error),
            Ok((left, between)) => match lowered_expr(*idx, between) {
                Err(error) => Err(error),
                Ok((right, after)) => match index_check(left, right, e.span) {
                    Err(error) => Err(error),
                    Ok(check) => Ok(
                        (plain(Label::Index(check), e.span, ty, seq![left, right]), after),
                    ),
                },
            },
        },
        ast::ExprKind::ArrayLit { elems } => match lowered_exprs(elems@, facts, elems@.len()) {
            Err(error) => Err(error),
            Ok((kids, after)) => Ok((plain(Label::ArrayLit, e.span, ty, kids), after)),
        },
        ast::ExprKind::Match { subject, arms } => match lowered_expr(*subject, facts) {
            Err(error) => Err(error),
            Ok((kid, between)) => match lowered_arms(arms@, between, arms@.len()) {
                Err(error) => Err(error),
                Ok((list, after)) => Ok(
                    (
                        plain(Label::Match, e.span, ty, seq![kid, part(Label::List, list)]),
                        after,
                    ),
                ),
            },
        },
        ast::ExprKind::Call { .. } => lowered_call(e, fact, facts),
        ast::ExprKind::Juxtapose { .. } => lowered_juxtapose(e, fact, facts),
        ast::ExprKind::MethodCall { .. } => lowered_method(e, fact, facts),
        ast::ExprKind::FuncLit { .. } => lowered_function(e, ty, facts),
    }
}

/// What the arguments of a constructor stand for.
pub open spec fn lowered_indices(args: Seq<ast::CallArg>, facts: FactsMap, upto: nat) -> Lowered<
    Seq<usize>,
>
    decreases upto,
{
    if upto == 0 {
        Ok((Seq::empty(), facts))
    } else {
        match lowered_indices(args, facts, (upto - 1) as nat) {
            Err(error) => Err(error),
            Ok((list, so_far)) => {
                let arg = args[upto - 1];
                match found(so_far.ctor_arg_indices, arg.id) {
                    None => Err(missing_fact(arg.span, "构造器实参字段索引"@)),
                    Some(index) => Ok(
                        (
                            list.push(index),
                            FactsMap {
                                ctor_arg_indices: so_far.ctor_arg_indices.remove(arg.id),
                                ..so_far
                            },
                        ),
                    ),
                }
            },
        }
    }
}

/// What an ordinary call goes to.
pub open spec fn lowered_target(
    target: TargetView,
    args: Seq<ast::CallArg>,
    facts: FactsMap,
    span: Span,
) -> Lowered<CallView> {
    match target {
        TargetView::StructConstructor(name) => match lowered_indices(args, facts, args.len()) {
            Err(error) => Err(error),
            Ok((list, after)) => Ok((CallView::StructConstructor(name, list), after)),
        },
        TargetView::Method(_) => Err(broken_at(span, "普通 Call 携带方法 target"@)),
        TargetView::FunctionValue => Ok((CallView::FunctionValue, facts)),
        TargetView::ResultConstructor(kind) => Ok((CallView::ResultConstructor(kind), facts)),
        TargetView::Builtin(builtin) => Ok((CallView::Builtin(builtin), facts)),
        _ => Err(broken_at(span, "已解析静态操作进入普通 Call lowering"@)),
    }
}

/// A call with its arguments in brackets.
pub open spec fn lowered_call(e: ast::Expr, fact: ExprFact, facts: FactsMap) -> Lowered<Tree>
    decreases e, 0nat,
{
    match (e.kind, fact.call_target) {
        (ast::ExprKind::Call { callee, args }, Some(target)) => match target {
            TargetView::ContextualConversion(mode) => if args@.len() != 1 {
                Err(broken_at(e.span, "上下文转换元数不是 1"@))
            } else {
                match lowered_expr(*callee, facts) {
                    Err(error) => Err(error),
                    Ok((_, between)) => match lowered_expr(args@[0].value, between) {
                        Err(error) => Err(error),
                        Ok((value, after)) => Ok(
                            (plain(Label::Convert(mode), e.span, fact.ty, seq![value]), after),
                        ),
                    },
                }
            },
            TargetView::Typeof => if args@.len() != 1 {
                Err(broken_at(e.span, "typeof 元数不是 1"@))
            } else {
                match lowered_expr(*callee, facts) {
                    Err(error) => Err(error),
                    Ok((_, between)) => match lowered_expr(args@[0].value, between) {
                        Err(error) => Err(error),
                        Ok((value, after)) => Ok(
                            (
                                plain(
                                    Label::Typeof(ty_name(value.info->0.ty)),
                                    e.span,
                                    fact.ty,
                                    Seq::empty(),
                                ),
                                after,
                            ),
                        ),
                    },
                }
            },
            TargetView::Move => if args@.len() != 1 {
                Err(broken_at(e.span, "move 元数不是 1"@))
            } else {
                match lowered_expr(*callee, facts) {
                    Err(error) => Err(error),
                    Ok((_, between)) => match found(between.move_places, e.id) {
                        None => Err(missing_fact(e.span, "move Place"@)),
                        Some(place) => match lowered_base(
                            args@[0].value,
                            place,
                            FactsMap { move_places: between.move_places.remove(e.id), ..between },
                        ) {
                            Err(error) => Err(error),
                            Ok((source, after)) => Ok(
                                (plain(Label::Move, e.span, fact.ty, seq![source]), after),
                            ),
                        },
                    },
                }
            },
            TargetView::Borrow => if args@.len() != 1 {
                Err(broken_at(e.span, "borrow 元数不是 1"@))
            } else {
                match lowered_expr(*callee, facts) {
                    Err(error) => Err(error),
                    Ok((_, between)) => match found(between.borrow_places, e.id) {
                        None => Err(missing_fact(e.span, "borrow Place"@)),
                        Some(borrow) => match lowered_base(
                            args@[0].value,
                            borrow.place,
                            FactsMap {
                                borrow_places: between.borrow_places.remove(e.id),
                                ..between
                            },
                        ) {
                            Err(error) => Err(error),
                            Ok((source, after)) => Ok(
                                (
                                    plain(
                                        Label::Borrow(borrow.loan_id, None),
                                        e.span,
                                        fact.ty,
                                        seq![source],
                                    ),
                                    after,
                                ),
                            ),
                        },
                    },
                }
            },
            _ => match lowered_expr(*callee, facts) {
                Err(error) => Err(error),
                Ok((head, one)) => match lowered_args(args@, one, args@.len()) {
                    Err(error) => Err(error),
                    Ok((list, two)) => match lowered_target(target, args@, two, e.span) {
                        Err(error) => Err(error),
                        Ok((goal, after)) => Ok(
                            (call_tree(head, list, goal, e.span, fact.ty), after),
                        ),
                    },
                },
            },
        },
        _ => Err(broken_at(e.span, "Call 缺少 target"@)),
    }
}

/// Two expressions side by side.
pub open spec fn lowered_juxtapose(e: ast::Expr, fact: ExprFact, facts: FactsMap) -> Lowered<Tree>
    decreases e, 0nat,
{
    match (e.kind, fact.call_target) {
        (ast::ExprKind::Juxtapose { lhs, rhs }, Some(TargetView::FunctionValue)) =>
            match lowered_expr(*lhs, facts) {
                Err(error) => Err(error),
                Ok((head, between)) => match lowered_expr(*rhs, between) {
                    Err(error) => Err(error),
                    Ok((value, after)) => Ok(
                        (
                            call_tree(
                                head,
                                seq![arg_part(value)],
                                CallView::FunctionValue,
                                e.span,
                                fact.ty,
                            ),
                            after,
                        ),
                    ),
                },
            },
        (ast::ExprKind::Juxtapose { lhs, rhs }, Some(TargetView::Method(target))) =>
            if !(rhs.kind is Ident) {
                Err(broken_at(rhs.span, "零参方法中缀 RHS 不是方法名"@))
            } else {
                match lowered_expr(*lhs, facts) {
                    Err(error) => Err(error),
                    Ok((recv, after)) => Ok(
                        (
                            method_tree(recv, Seq::empty(), target, e.span, fact.ty),
                            after,
                        ),
                    ),
                }
            },
        _ => Err(broken_at(e.span, "两项无括号邻接未解析"@)),
    }
}

pub open spec fn lowered_method(e: ast::Expr, fact: ExprFact, facts: FactsMap) -> Lowered<Tree>
    decreases e, 0nat,
{
    match e.kind {
        ast::ExprKind::MethodCall { recv, args, .. } => match lowered_expr(*recv, facts) {
            Err(error) => Err(error),
            Ok((head, between)) => match lowered_args(args@, between, args@.len()) {
                Err(error) => Err(error),
                Ok((list, after)) => match fact.call_target {
                    Some(TargetView::Method(target)) => Ok(
                        (
                            method_tree(head, list, target, e.span, fact.ty),
                            after,
                        ),
                    ),
                    _ => Err(broken_at(e.span, "MethodCall 缺少方法 target"@)),
                },
            },
        },
        _ => Err(broken_at(e.span, "MethodCall 缺少方法 target"@)),
    }
}

/// The parameters of a function.
pub open spec fn lowered_params(params: Seq<ast::Param>, facts: FactsMap, upto: nat) -> Lowered<
    Seq<Tree>,
>
    decreases upto,
{
    if upto == 0 {
        Ok((Seq::empty(), facts))
    } else {
        match lowered_params(params, facts, (upto - 1) as nat) {
            Err(error) => Err(error),
            Ok((list, so_far)) => {
                let param = params[upto - 1];
                match found(so_far.param_ids, param.id) {
                    None => Err(missing_fact(param.span, "函数参数 BindingId"@)),
                    Some(id) => match found(so_far.params, param.id) {
                        None => Err(broken_at(param.span, "函数参数缺少静态类型"@)),
                        Some(ty) => Ok(
                            (
                                list.push(part(Label::Param(id, ty, None), Seq::empty())),
                                FactsMap {
                                    param_ids: so_far.param_ids.remove(param.id),
                                    params: so_far.params.remove(param.id),
                                    ..so_far
                                },
                            ),
                        ),
                    },
                }
            },
        }
    }
}

/// A function literal. The functions are numbered in the order in which they begin.
pub open spec fn lowered_function(e: ast::Expr, ty: TyView, facts: FactsMap) -> Lowered<Tree>
    decreases e, 0nat,
{
    match e.kind {
        ast::ExprKind::FuncLit { params, body } => if facts.next_function == u32::MAX {
            Err(broken_at(e.span, "FunctionId 数量超过编译器上限"@))
        } else {
            let started = FactsMap {
                next_function: (facts.next_function + 1) as u32,
                ..facts
            };
            match lowered_params(params@, started, params@.len()) {
                Err(error) => Err(error),
                Ok((list, between)) => match lowered_body(*body, between) {
                    Err(error) => Err(error),
                    Ok((inner, after)) => Ok(
                        (
                            plain(
                                Label::FuncLit(FunctionId(facts.next_function), Seq::empty()),
                                e.span,
                                ty,
                                seq![
                                    part(Label::List, list),
                                    part(Label::List, Seq::empty()),
                                    inner,
                                ],
                            ),
                            after,
                        ),
                    ),
                },
            }
        },
        _ => Err(untyped(e.span)),
    }
}

pub open spec fn lowered_exprs(list: Seq<ast::Expr>, facts: FactsMap, upto: nat) -> Lowered<
    Seq<Tree>,
>
    decreases list, upto,
{
    if !(0 < upto <= list.len()) {
        Ok((Seq::empty(), facts))
    } else {
        match lowered_exprs(list, facts, (upto - 1) as nat) {
            Err(error) => Err(error),
            Ok((done, so_far)) => match lowered_expr(list[upto - 1], so_far) {
                Err(error) => Err(error),
                Ok((tree, after)) => Ok((done.push(tree), after)),
            },
        }
    }
}

pub open spec fn lowered_args(list: Seq<ast::CallArg>, facts: FactsMap, upto: nat) -> Lowered<
    Seq<Tree>,
>
    decreases list, upto,
{
    if !(0 < upto <= list.len()) {
        Ok((Seq::empty(), facts))
    } else {
        match lowered_args(list, facts, (upto - 1) as nat) {
            Err(error) => Err(error),
            Ok((done, so_far)) => match lowered_expr(list[upto - 1].value, so_far) {
                Err(error) => Err(error),
                Ok((tree, after)) => Ok((done.push(arg_part(tree)), after)),
            },
        }
    }
}

pub open spec fn lowered_parts(list: Seq<ast::StrPart>, facts: FactsMap, upto: nat) -> Lowered<
    Seq<Tree>,
>
    decreases list, upto,
{
    if !(0 < upto <= list.len()) {
        Ok((Seq::empty(), facts))
    } else {
        match lowered_parts(list, facts, (upto - 1) as nat) {
            Err(error) => Err(error),
            Ok((done, so_far)) => match list[upto - 1] {
                ast::StrPart::Lit(text) => Ok(
                    (done.push(part(Label::Lit(text@), Seq::empty())), so_far),
                ),
                ast::StrPart::Hole(hole) => match lowered_expr(*hole, so_far) {
                    Err(error) => Err(error),
                    Ok((tree, after)) => Ok((done.push(part(Label::Hole, seq![tree])), after)),
                },
            },
        }
    }
}

/// An arm of a match.
pub open spec fn lowered_arm(arm: ast::MatchArm, facts: FactsMap) -> Lowered<Tree>
    decreases arm, 0nat,
{
    let head = arm_label(arm.pattern, found(facts.match_binding_ids, arm.id));
    let rest = FactsMap { match_binding_ids: facts.match_binding_ids.remove(arm.id), ..facts };
    match arm.body {
        ast::ArmBody::Block(stmts) => match lowered_stmts(stmts@, rest, stmts@.len()) {
            Err(error) => Err(error),
            Ok((list, after)) => Ok((part(head, seq![part(Label::ArmBlock, list)]), after)),
        },
        ast::ArmBody::Value(value) => match lowered_expr(*value, rest) {
            Err(error) => Err(error),
            Ok((tree, after)) => Ok((part(head, seq![part(Label::ArmValue, seq![tree])]), after)),
        },
        ast::ArmBody::Ret(value) => match lowered_expr(*value, rest) {
            Err(error) => Err(error),
            Ok((tree, after)) => Ok((part(head, seq![part(Label::ArmRet, seq![tree])]), after)),
        },
    }
}

pub open spec fn lowered_arms(list: Seq<ast::MatchArm>, facts: FactsMap, upto: nat) -> Lowered<
    Seq<Tree>,
>
    decreases list, upto,
{
    if !(0 < upto <= list.len()) {
        Ok((Seq::empty(), facts))
    } else {
        match lowered_arms(list, facts, (upto - 1) as nat) {
            Err(error) => Err(error),
            Ok((done, so_far)) => match lowered_arm(list[upto - 1], so_far) {
                Err(error) => Err(error),
                Ok((tree, after)) => Ok((done.push(tree), after)),
            },
        }
    }
}

pub open spec fn lowered_body(body: ast::Body, facts: FactsMap) -> Lowered<Tree>
    decreases body, 0nat,
{
    match body {
        ast::Body::Block(stmts) => match lowered_stmts(stmts@, facts, stmts@.len()) {
            Err(error) => Err(error),
            Ok((list, after)) => Ok((part(Label::Block, list), after)),
        },
        ast::Body::Single(stmt) => match lowered_stmt(*stmt, facts) {
            Err(error) => Err(error),
            Ok((tree, after)) => Ok((part(Label::Single, seq![tree]), after)),
        },
    }
}

pub open spec fn lowered_stmts(list: Seq<ast::Stmt>, facts: FactsMap, upto: nat) -> Lowered<
    Seq<Tree>,
>
    decreases list, upto,
{
    if !(0 < upto <= list.len()) {
        Ok((Seq::empty(), facts))
    } else {
        match lowered_stmts(list, facts, (upto - 1) as nat) {
            Err(error) => Err(error),
            Ok((done, so_far)) => match lowered_stmt(list[upto - 1], so_far) {
                Err(error) => Err(error),
                Ok((tree, after)) => Ok((done.push(tree), after)),
            },
        }
    }
}

pub open spec fn lowered_branches(
    list: Seq<(ast::Expr, Vec<ast::Stmt>)>,
    facts: FactsMap,
    upto: nat,
) -> Lowered<Seq<Tree>>
    decreases list, upto,
{
    if !(0 < upto <= list.len()) {
        Ok((Seq::empty(), facts))
    } else {
        match lowered_branches(list, facts, (upto - 1) as nat) {
            Err(error) => Err(error),
            Ok((done, so_far)) => match lowered_branch(list[upto - 1], so_far) {
                Err(error) => Err(error),
                Ok((tree, after)) => Ok((done.push(tree), after)),
            },
        }
    }
}

pub open spec fn lowered_branch(branch: (ast::Expr, Vec<ast::Stmt>), facts: FactsMap) -> Lowered<
    Tree,
>
    decreases branch, 0nat,
{
    match lowered_expr(branch.0, facts) {
        Err(error) => Err(error),
        Ok((cond, between)) => match lowered_stmts(branch.1@, between, branch.1@.len()) {
            Err(error) => Err(error),
            Ok((body, after)) => Ok(
                (part(Label::Branch, seq![cond, part(Label::List, body)]), after),
            ),
        },
    }
}

/// An assignment to a variable.
pub open spec fn lowered_assign(stmt: ast::Stmt, value: ast::Expr, facts: FactsMap) -> Lowered<Tree>
    decreases value, 4nat,
{
    match found(facts.assignment_places, stmt.id) {
        None => Err(missing_fact(stmt.span, "赋值 Place"@)),
        Some(PlaceFact::Local { binding_id, ty }) => match lowered_expr(
            value,
            FactsMap { assignment_places: facts.assignment_places.remove(stmt.id), ..facts },
        ) {
            Err(error) => Err(error),
            Ok((tree, after)) => Ok(
                (
                    assign_tree(
                        spanned(Label::LocalPlace(binding_id, ty), stmt.span, Seq::empty()),
                        tree,
                    ),
                    after,
                ),
            ),
        },
        Some(_) => Err(broken_at(stmt.span, "普通赋值携带字段 Place"@)),
    }
}

/// An assignment to a field.
pub open spec fn lowered_field_assign(stmt: ast::Stmt, facts: FactsMap) -> Lowered<Tree>
    decreases stmt, 0nat,
{
    match stmt.kind {
        ast::StmtKind::FieldAssign { recv, value } => match found(
            facts.assignment_places,
            stmt.id,
        ) {
            None => Err(missing_fact(stmt.span, "赋值 Place"@)),
            Some(PlaceFact::Field { base, field_index, ty }) => match lowered_base(
                recv,
                *base,
                FactsMap { assignment_places: facts.assignment_places.remove(stmt.id), ..facts },
            ) {
                Err(error) => Err(error),
                Ok((place, between)) => match lowered_expr(value, between) {
                    Err(error) => Err(error),
                    Ok((tree, after)) => Ok(
                        (
                            assign_tree(
                                spanned(
                                    Label::FieldPlace(field_index, ty),
                                    stmt.span,
                                    seq![place],
                                ),
                                tree,
                            ),
                            after,
                        ),
                    ),
                },
            },
            Some(_) => Err(broken_at(stmt.span, "字段赋值携带 local Place"@)),
        },
        _ => Err(untyped(stmt.span)),
    }
}

/// A loop over the elements of a value.
pub open spec fn lowered_for(stmt: ast::Stmt, facts: FactsMap) -> Lowered<Tree>
    decreases stmt, 0nat,
{
    match stmt.kind {
        ast::StmtKind::For { iterable, body } => match found(facts.for_ids, stmt.id) {
            None => Err(missing_fact(stmt.span, "for 循环变量 BindingId"@)),
            Some(id) => match found(facts.fors, stmt.id) {
                None => Err(broken_at(stmt.span, "for 循环变量缺少静态类型"@)),
                Some(ty) => match found(facts.for_plans, stmt.id) {
                    None => Err(missing_fact(stmt.span, "for 元素计划"@)),
                    Some(plan) => {
                        let rest = FactsMap {
                            for_ids: facts.for_ids.remove(stmt.id),
                            fors: facts.fors.remove(stmt.id),
                            for_plans: facts.for_plans.remove(stmt.id),
                            ..facts
                        };
                        match lowered_expr(iterable, rest) {
                            Err(error) => Err(error),
                            Ok((source, between)) => match lowered_stmts(
                                body@,
                                between,
                                body@.len(),
                            ) {
                                Err(error) => Err(error),
                                Ok((list, after)) => Ok(
                                    (
                                        spanned(
                                            Label::For(id, ty, plan),
                                            stmt.span,
                                            seq![source, part(Label::List, list)],
                                        ),
                                        after,
                                    ),
                                ),
                            },
                        }
                    },
                },
            },
        },
        _ => Err(untyped(stmt.span)),
    }
}

/// A choice between blocks.
pub open spec fn lowered_if(stmt: ast::Stmt, facts: FactsMap) -> Lowered<Tree>
    decreases stmt, 0nat,
{
    match stmt.kind {
        ast::StmtKind::If { branches, else_body } => match lowered_branches(
            branches@,
            facts,
            branches@.len(),
        ) {
            Err(error) => Err(error),
            Ok((list, between)) => match else_body {
                None => Ok((part(Label::If, seq![part(Label::List, list), absent()]), between)),
                Some(body) => match lowered_stmts(body@, between, body@.len()) {
                    Err(error) => Err(error),
                    Ok((rest, after)) => Ok(
                        (
                            part(
                                Label::If,
                                seq![part(Label::List, list), part(Label::List, rest)],
                            ),
                            after,
                        ),
                    ),
                },
            },
        },
        _ => Err(untyped(stmt.span)),
    }
}

/// A loop with a condition.
pub open spec fn lowered_while(stmt: ast::Stmt, facts: FactsMap) -> Lowered<Tree>
    decreases stmt, 0nat,
{
    match stmt.kind {
        ast::StmtKind::While { cond, body } => match lowered_expr(cond, facts) {
            Err(error) => Err(error),
            Ok((test, between)) => match lowered_stmts(body@, between, body@.len()) {
                Err(error) => Err(error),
                Ok((list, after)) => Ok(
                    (part(Label::While, seq![test, part(Label::List, list)]), after),
                ),
            },
        },
        _ => Err(untyped(stmt.span)),
    }
}

/// A statement of the resolved tree.
pub open spec fn lowered_stmt(stmt: ast::Stmt, facts: FactsMap) -> Lowered<Tree>
    decreases stmt, 1nat,
{
    match stmt.kind {
        ast::StmtKind::Binding(binding) => match lowered_binding(*binding, facts) {
            Err(error) => Err(error),
            Ok((tree, after)) => Ok((part(Label::BindingStmt, seq![tree]), after)),
        },
        ast::StmtKind::Assign { value } => lowered_assign(stmt, value, facts),
        ast::StmtKind::FieldAssign { .. } => lowered_field_assign(stmt, facts),
        ast::StmtKind::Expr { expr } => match lowered_expr(expr, facts) {
            Err(error) => Err(error),
            Ok((tree, after)) => Ok((part(Label::ExprStmt, seq![tree]), after)),
        },
        ast::StmtKind::Return { value } => match value {
            None => Ok((part(Label::Return, Seq::empty()), facts)),
            Some(value) => match lowered_expr(value, facts) {
                Err(error) => Err(error),
                Ok((tree, after)) => Ok((part(Label::Return, seq![tree]), after)),
            },
        },
        ast::StmtKind::If { .. } => lowered_if(stmt, facts),
        ast::StmtKind::While { .. } => lowered_while(stmt, facts),
        ast::StmtKind::For { .. } => lowered_for(stmt, facts),
        ast::StmtKind::Break => Ok((part(Label::Break, Seq::empty()), facts)),
        ast::StmtKind::Continue => Ok((part(Label::Continue, Seq::empty()), facts)),
    }
}

/// Whose binding it is, and the facts that are left; nothing where the facts contradict each
/// other.
pub open spec fn lowered_owner(id: u32, facts: FactsMap) -> (Option<OwnerView>, FactsMap) {
    (
        match (
            found(facts.receivers, id),
            found(facts.method_ids, id),
            found(facts.method_self_ids, id),
        ) {
            (None, None, None) => Some(OwnerView::Ordinary),
            (Some(receiver), Some(method_id), Some(self_id)) => Some(
                OwnerView::Method(method_id, self_id, receiver),
            ),
            _ => None,
        },
        FactsMap {
            receivers: facts.receivers.remove(id),
            method_ids: facts.method_ids.remove(id),
            method_self_ids: facts.method_self_ids.remove(id),
            ..facts
        },
    )
}

pub open spec fn lowered_binding(binding: ast::Binding, facts: FactsMap) -> Lowered<Tree>
    decreases binding, 0nat,
{
    match found(facts.binding_ids, binding.id) {
        None => Err(missing_fact(binding.span, "绑定 BindingId"@)),
        Some(binding_id) => match found(facts.bindings, binding.id) {
            None => Err(broken_at(binding.span, "绑定缺少静态类型"@)),
            Some(ty) => {
                let one = FactsMap {
                    binding_ids: facts.binding_ids.remove(binding.id),
                    bindings: facts.bindings.remove(binding.id),
                    ..facts
                };
                let (owner, two) = lowered_owner(binding.id, one);
                match owner {
                    None => Err(
                        broken_at(binding.span, "方法绑定缺少 MethodId/self BindingId"@),
                    ),
                    Some(owner) => match lowered_expr(binding.value, two) {
                        Err(error) => Err(error),
                        Ok((value, after)) => match method_value(owner, value, binding.span) {
                            Err(error) => Err(error),
                            Ok(value) => Ok(
                                (
                                    fresh_binding(
                                        binding_id,
                                        owner,
                                        binding.kind,
                                        ty,
                                        binding.name@,
                                        binding.span,
                                        value,
                                    ),
                                    after,
                                ),
                            ),
                        },
                    },
                }
            },
        },
    }
}

/// The category of a value is recorded, and the ownership that goes with it.
pub open spec fn is_settled(tree: Tree) -> bool {
    tree.info matches Some(info) && info.category matches Some(category)
        && info.ownership_capability == category_capability(category)
}

proof fn lemma_plain_settled(label: Label, span: Span, ty: TyView, kids: Seq<Tree>)
    requires
        label == Label::Convert(ResolvedConversion::Identity) ==> kids.len() > 0 && is_settled(
            kids[0],
        ),
    ensures
        is_settled(plain(label, span, ty, kids)),
{
    reveal(shape_category);
    if kids.len() > 0 {
        assert(bare(label, span, ty, kids).kids[0] == kids[0]);
    }
}

proof fn lemma_others_settled()
    ensures
        forall|label: Label, span: Span, ty: TyView, kids: Seq<Tree>|
            !(label is Convert) ==> is_settled(#[trigger] plain(label, span, ty, kids)),
{
    assert forall|label: Label, span: Span, ty: TyView, kids: Seq<Tree>| !(label
        is Convert) implies is_settled(#[trigger] plain(label, span, ty, kids)) by {
        lemma_plain_settled(label, span, ty, kids);
    }
}

proof fn lemma_call_settled(e: ast::Expr, fact: ExprFact, facts: FactsMap)
    ensures
        lowered_call(e, fact, facts) matches Ok((tree, _)) ==> is_settled(tree),
    decreases e, 0nat,
{
    lemma_others_settled();
    match (e.kind, fact.call_target) {
        (
            ast::ExprKind::Call { callee, args },
            Some(TargetView::ContextualConversion(mode)),
        ) => if args@.len() == 1 {
            match lowered_expr(*callee, facts) {
                Ok((_, between)) => {
                    law_lowered_values_are_settled(args@[0].value, between);
                    match lowered_expr(args@[0].value, between) {
                        Ok((value, _)) => {
                            lemma_plain_settled(
                                Label::Convert(mode),
                                e.span,
                                fact.ty,
                                seq![value],
                            );
                        },
                        Err(_) => {},
                    }
                },
                Err(_) => {},
            }
        },
        _ => {},
    }
}

proof fn lemma_kind_settled(e: ast::Expr, fact: ExprFact, facts: FactsMap)
    ensures
        lowered_kind(e, fact, facts) matches Ok((tree, _)) ==> is_settled(tree),
    decreases e, 1nat,
{
    lemma_others_settled();
    lemma_call_settled(e, fact, facts);
    reveal_with_fuel(lowered_juxtapose, 2);
    reveal_with_fuel(lowered_method, 2);
    reveal_with_fuel(lowered_function, 2);
}

/// Every expression of the tree comes with its category and its ownership.
pub proof fn law_lowered_values_are_settled(e: ast::Expr, facts: FactsMap)
    ensures
        lowered_expr(e, facts) matches Ok((tree, _)) ==> is_settled(tree),
    decreases e, 3nat,
{
    lemma_others_settled();
    match found(facts.exprs, e.id) {
        Some(fact) => lemma_kind_settled(e, fact, without_expr(facts, e.id)),
        None => {},
    }
}

} // verus!
