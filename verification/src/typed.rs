//! The types of expressions.
//!
//! An expression is looked at either by itself or with a type that is expected of it. On the way
//! everything is recorded that the resolved tree needs.

use crate::ast;
use crate::checker_state::{
    ContextView, FaultView, FieldInfoView, NotesMap, SigView, VarView, alias_of, answer, field_at,
    in_scope, note_callee, note_implicit, note_literal, note_target, note_type, noted_type,
    struct_in, user_method,
};
use crate::deep_clone::{DeepPlanView, deep_clone_of};
use crate::facts::{BorrowFact, PlaceFact, ReadFact, TargetView, fact_root, fact_type, found};
use crate::literals::{SlotView, default_negative, default_positive, slot_view};
use crate::match_rules::{CoverView, joined_arm, no_cover, open_fault, pattern_step};
use crate::model::{BinOp, CtorKind, ResolvedConversion};
use crate::operators::{binary_fault, binary_type, converts, flows_expected};
use crate::shallow_clone::{ShallowPlanView, shallow_clone_of};
use crate::tree::{BuiltinView, MethodView};
use crate::types::{
    BindingId, ErrorView, FloatW, IntW, LoanId, Span, TyView, broken_at, decimal, fits, told,
    ty_name,
};
use vstd::prelude::*;

verus! {

pub type Env = Seq<(Seq<char>, VarView)>;

/// The type of an expression and what is recorded, or a diagnostic.
pub type Typed = Result<(TyView, NotesMap), ErrorView>;

/// The same where a type is expected.
pub type Expected = Result<(TyView, NotesMap), FaultView>;

pub open spec fn as_expected(r: Typed) -> Expected {
    match r {
        Ok(done) => Ok(done),
        Err(error) => Err(FaultView::Diagnostic(error)),
    }
}

pub open spec fn as_typed(r: Expected) -> Typed {
    match r {
        Ok(done) => Ok(done),
        Err(fault) => Err(alias_of(fault)),
    }
}

/// The functions that every program can use.
#[derive(Debug, Clone, Copy, PartialEq, Eq, Structural)]
pub enum CallBuiltin {
    Print,
    Println,
    Increase,
    Decrease,
    From,
    TryFrom,
    Typeof,
}

#[derive(Debug, Clone, Copy, PartialEq, Eq, Structural)]
pub enum OwnershipBuiltin {
    CloneValue,
    Shallow,
    Borrow,
    Move,
}

pub open spec fn call_builtin(name: Seq<char>) -> Option<CallBuiltin> {
    if name == "print"@ {
        Some(CallBuiltin::Print)
    } else if name == "println"@ {
        Some(CallBuiltin::Println)
    } else if name == "increase"@ {
        Some(CallBuiltin::Increase)
    } else if name == "decrease"@ {
        Some(CallBuiltin::Decrease)
    } else if name == "from"@ {
        Some(CallBuiltin::From)
    } else if name == "try_from"@ {
        Some(CallBuiltin::TryFrom)
    } else if name == "typeof"@ {
        Some(CallBuiltin::Typeof)
    } else {
        None
    }
}

pub open spec fn ownership_builtin(name: Seq<char>) -> Option<OwnershipBuiltin> {
    if name == "clone"@ {
        Some(OwnershipBuiltin::CloneValue)
    } else if name == "shallow"@ {
        Some(OwnershipBuiltin::Shallow)
    } else if name == "borrow"@ {
        Some(OwnershipBuiltin::Borrow)
    } else if name == "move"@ {
        Some(OwnershipBuiltin::Move)
    } else {
        None
    }
}

pub open spec fn result_constructor(name: Seq<char>) -> Option<CtorKind> {
    if name == "ok"@ {
        Some(CtorKind::OkCtor)
    } else if name == "err"@ {
        Some(CtorKind::ErrCtor)
    } else {
        None
    }
}

/// The expression is a bare name.
pub open spec fn is_name(e: ast::Expr) -> bool {
    e.kind is Ident || e.kind is This
}

pub open spec fn ident_of(e: ast::Expr) -> Option<Seq<char>> {
    match e.kind {
        ast::ExprKind::Ident(name) => Some(name@),
        _ => None,
    }
}

/// What a bare name stands for; a function is not called.
pub open spec fn name_type(e: ast::Expr, env: Env, notes: NotesMap) -> Typed {
    match e.kind {
        ast::ExprKind::Ident(name) => match in_scope(env, name@) {
            None => Err(told(e.span, "未定义的绑定 '"@ + name@ + "'"@)),
            Some(info) => Ok(
                (
                    info.ty,
                    note_type(
                        NotesMap {
                            expr_binding_ids: notes.expr_binding_ids.insert(e.id, info.id),
                            ..notes
                        },
                        e.id,
                        info.ty,
                    ),
                ),
            ),
        },
        _ => match in_scope(env, "this"@) {
            None => Err(told(e.span, "this 只能出现在 func 体内"@)),
            Some(info) => Ok((info.ty, note_type(notes, e.id, info.ty))),
        },
    }
}

/// A bare name of a function without parameters is a call of it.
pub open spec fn name_value(e: ast::Expr, env: Env, notes: NotesMap) -> Typed {
    match name_type(e, env, notes) {
        Err(error) => Err(error),
        Ok((ty, after)) => match ty {
            TyView::Func { params, ret, .. } => if params.len() == 0 {
                Ok((*ret, note_implicit(after, e.id, ty, *ret)))
            } else {
                Ok((ty, after))
            },
            _ => Ok((ty, after)),
        },
    }
}

pub open spec fn no_value(span: Span) -> ErrorView {
    told(span, "无返回值表达式不能用于值位置"@)
}

/// An expression that stands where a value is needed has one.
pub open spec fn with_value(r: Typed, span: Span) -> Typed {
    match r {
        Ok((ty, notes)) => if ty is Unit {
            Err(no_value(span))
        } else {
            Ok((ty, notes))
        },
        Err(error) => Err(error),
    }
}

/// A conversion to the type that is expected.
pub open spec fn conversion_of(e: ast::Expr) -> Option<(Seq<char>, ast::Expr)> {
    match e.kind {
        ast::ExprKind::Call { callee, args } => match callee.kind {
            ast::ExprKind::Ident(name) => if (name@ == "from"@ || name@ == "try_from"@)
                && args@.len() == 1 {
                Some((name@, args@[0].value))
            } else {
                None
            },
            _ => None,
        },
        _ => None,
    }
}

/// What is recorded of an expression once its type is known.
pub open spec fn settled_notes(notes: NotesMap, e: ast::Expr, ty: TyView) -> NotesMap {
    note_callee(note_type(notes, e.id, ty), e, ty)
}

pub open spec fn settled_literal_notes(notes: NotesMap, e: ast::Expr, ty: TyView) -> NotesMap {
    note_callee(note_literal(note_type(notes, e.id, ty), e, ty), e, ty)
}

/// The type of an expression by itself.
pub open spec fn typed(cx: ContextView, e: ast::Expr, env: Env, notes: NotesMap) -> Typed
    decreases e, 3nat,
{
    let r = if is_name(e) {
        name_value(e, env, notes)
    } else {
        typed_inner(cx, e, env, notes)
    };
    match r {
        Err(error) => Err(error),
        Ok((ty, after)) => Ok((ty, settled_notes(after, e, ty))),
    }
}

/// The type of an expression by itself; a bare name is not called.
pub open spec fn typed_raw(cx: ContextView, e: ast::Expr, env: Env, notes: NotesMap) -> Typed
    decreases e, 4nat,
{
    if is_name(e) {
        name_type(e, env, notes)
    } else {
        typed(cx, e, env, notes)
    }
}

pub open spec fn typed_value(cx: ContextView, e: ast::Expr, env: Env, notes: NotesMap) -> Typed
    decreases e, 4nat,
{
    with_value(typed(cx, e, env, notes), e.span)
}

/// A condition.
pub open spec fn typed_bool(
    cx: ContextView,
    e: ast::Expr,
    env: Env,
    what: Seq<char>,
    notes: NotesMap,
) -> Result<NotesMap, ErrorView>
    decreases e, 4nat,
{
    match typed(cx, e, env, notes) {
        Err(error) => Err(error),
        Ok((ty, after)) => if ty is Unknown || ty is Bool {
            Ok(after)
        } else {
            Err(told(e.span, what + "需要 bool, 实际 "@ + ty_name(ty)))
        },
    }
}

pub open spec fn typed_inner(cx: ContextView, e: ast::Expr, env: Env, notes: NotesMap) -> Typed
    decreases e, 2nat,
{
    match e.kind {
        ast::ExprKind::Int(value) => Ok((default_positive(value as nat), notes)),
        ast::ExprKind::Float(_) => Ok((TyView::Float(FloatW::F64), notes)),
        ast::ExprKind::Bool(_) => Ok((TyView::Bool, notes)),
        ast::ExprKind::Str(parts) => match typed_holes(cx, parts@, env, notes, parts@.len()) {
            Err(error) => Err(error),
            Ok(after) => Ok((TyView::Str, after)),
        },
        ast::ExprKind::Ident(_) => Err(broken_at(e.span, "直接名字绕过统一解析入口"@)),
        ast::ExprKind::This => Err(broken_at(e.span, "直接名字绕过统一解析入口"@)),
        ast::ExprKind::Cast { .. } => typed_unary(cx, e, env, notes),
        ast::ExprKind::Neg { .. } => typed_unary(cx, e, env, notes),
        ast::ExprKind::Not { .. } => typed_unary(cx, e, env, notes),
        ast::ExprKind::BitNot { .. } => typed_unary(cx, e, env, notes),
        ast::ExprKind::Binary { .. } => typed_binary(cx, e, env, notes),
        ast::ExprKind::Ternary { .. } => typed_ternary(cx, e, env, notes),
        ast::ExprKind::Call { .. } => typed_call(cx, e, env, notes),
        ast::ExprKind::Juxtapose { .. } => typed_juxtapose(cx, e, env, notes),
        ast::ExprKind::MethodCall { .. } => typed_method_call(cx, e, env, notes),
        ast::ExprKind::Index { .. } => typed_index(cx, e, env, notes),
        ast::ExprKind::ArrayLit { elems } => match typed_elems(
            cx,
            elems@,
            env,
            notes,
            elems@.len(),
        ) {
            Err(error) => Err(error),
            Ok((elem, after)) => Ok(
                (
                    TyView::Array(
                        Box::new(
                            match elem {
                                Some(ty) => ty,
                                None => TyView::Unknown,
                            },
                        ),
                    ),
                    after,
                ),
            ),
        },
        ast::ExprKind::Field { .. } => typed_field(cx, e, env, notes),
        ast::ExprKind::FuncLit { .. } => typed_function(cx, e, notes),
        ast::ExprKind::Match { .. } => as_typed(typed_match(cx, e, env, None, notes)),
        ast::ExprKind::Propagate { .. } => typed_propagate(cx, e, env, notes),
    }
}

/// The holes of a string.
pub open spec fn typed_holes(
    cx: ContextView,
    parts: Seq<ast::StrPart>,
    env: Env,
    notes: NotesMap,
    upto: nat,
) -> Result<NotesMap, ErrorView>
    decreases parts, upto,
{
    if !(0 < upto <= parts.len()) {
        Ok(notes)
    } else {
        match typed_holes(cx, parts, env, notes, (upto - 1) as nat) {
            Err(error) => Err(error),
            Ok(so_far) => match parts[upto - 1] {
                ast::StrPart::Lit(_) => Ok(so_far),
                ast::StrPart::Hole(hole) => if conversion_of(*hole) is Some {
                    match typed_expected(cx, *hole, env, TyView::Str, so_far) {
                        Err(fault) => Err(alias_of(fault)),
                        Ok((_, after)) => Ok(after),
                    }
                } else {
                    match typed_value(cx, *hole, env, so_far) {
                        Err(error) => Err(error),
                        Ok((_, after)) => Ok(after),
                    }
                },
            },
        }
    }
}

pub open spec fn typed_unary(cx: ContextView, e: ast::Expr, env: Env, notes: NotesMap) -> Typed
    decreases e, 1nat,
{
    match e.kind {
        ast::ExprKind::Cast { target, expr } => match answer(cx.slots, target.id, e.span) {
            Err(error) => Err(error),
            Ok(goal) => match typed_value(cx, *expr, env, notes) {
                Err(error) => Err(error),
                Ok((source, after)) => if converts(source, goal) {
                    Ok((goal, after))
                } else {
                    Err(
                        told(
                            e.span,
                            "不存在 "@ + ty_name(source) + " → "@ + ty_name(goal) + " 转换"@,
                        ),
                    )
                },
            },
        },
        ast::ExprKind::Neg { expr } => match expr.kind {
            ast::ExprKind::Int(magnitude) => match default_negative(magnitude as nat) {
                Some(ty) => Ok((ty, notes)),
                None => Err(told(expr.span, "负整数字面量超出 i64 表示范围"@)),
            },
            _ => match typed(cx, *expr, env, notes) {
                Err(error) => Err(error),
                Ok((ty, after)) => if ty is Unknown || ty is Int || ty is Float {
                    Ok((ty, after))
                } else {
                    Err(
                        told(expr.span, "取负需要有符号整数或浮点, 实际 "@ + ty_name(ty)),
                    )
                },
            },
        },
        ast::ExprKind::Not { expr } => match typed_bool(cx, *expr, env, "! 操作数"@, notes) {
            Err(error) => Err(error),
            Ok(after) => Ok((TyView::Bool, after)),
        },
        ast::ExprKind::BitNot { expr } => match typed(cx, *expr, env, notes) {
            Err(error) => Err(error),
            Ok((ty, after)) => if ty is Unknown || ty.is_integer() {
                Ok((ty, after))
            } else {
                Err(told(expr.span, "~ 操作数需要整数, 实际 "@ + ty_name(ty)))
            },
        },
        _ => Err(broken_at(e.span, "直接名字绕过统一解析入口"@)),
    }
}

pub open spec fn binary_typed(
    op: BinOp,
    left: TyView,
    right: TyView,
    span: Span,
    notes: NotesMap,
) -> Typed {
    match binary_type(op, left, right) {
        Some(ty) => Ok((ty, notes)),
        None => Err(binary_fault(op, left, right, span)),
    }
}

/// The right side of an operator whose left side is an integer: a literal takes the type of the
/// left side.
pub open spec fn typed_right(
    cx: ContextView,
    left: TyView,
    rhs: ast::Expr,
    env: Env,
    notes: NotesMap,
) -> Typed
    decreases rhs, 4nat,
{
    if !left.is_integer() {
        typed(cx, rhs, env, notes)
    } else {
        match slot_view(left, rhs) {
            SlotView::Other => typed(cx, rhs, env, notes),
            SlotView::Takes => Ok(
                (left, note_literal(note_type(notes, rhs.id, left), rhs, left)),
            ),
            SlotView::OutOfRange(literal) => Err(
                alias_of(
                    FaultView::LiteralOutOfRange { literal, expected: left, span: rhs.span },
                ),
            ),
        }
    }
}

pub open spec fn typed_binary(cx: ContextView, e: ast::Expr, env: Env, notes: NotesMap) -> Typed
    decreases e, 1nat,
{
    match e.kind {
        ast::ExprKind::Binary { op, lhs, rhs } => match typed(cx, *lhs, env, notes) {
            Err(error) => Err(error),
            Ok((left, between)) => match typed_right(cx, left, *rhs, env, between) {
                Err(error) => Err(error),
                Ok((right, after)) => binary_typed(op, left, right, e.span, after),
            },
        },
        _ => Err(broken_at(e.span, "直接名字绕过统一解析入口"@)),
    }
}

pub open spec fn typed_ternary(cx: ContextView, e: ast::Expr, env: Env, notes: NotesMap) -> Typed
    decreases e, 1nat,
{
    match e.kind {
        ast::ExprKind::Ternary { cond, then_expr, else_expr } => match typed_bool(
            cx,
            *cond,
            env,
            "?: 条件"@,
            notes,
        ) {
            Err(error) => Err(error),
            Ok(one) => match typed(cx, *then_expr, env, one) {
                Err(error) => Err(error),
                Ok((a, two)) => match typed(cx, *else_expr, env, two) {
                    Err(error) => Err(error),
                    Ok((b, after)) => if a is Unknown {
                        Ok((b, after))
                    } else if b is Unknown || fits(a, b) {
                        Ok((a, after))
                    } else {
                        Err(
                            told(
                                e.span,
                                "?: 两个值分支类型不一致: "@ + ty_name(a) + " 与 "@ + ty_name(b),
                            ),
                        )
                    },
                },
            },
        },
        _ => Err(broken_at(e.span, "直接名字绕过统一解析入口"@)),
    }
}

pub open spec fn typed_index(cx: ContextView, e: ast::Expr, env: Env, notes: NotesMap) -> Typed
    decreases e, 1nat,
{
    match e.kind {
        ast::ExprKind::Index { recv, idx } => match typed(cx, *recv, env, notes) {
            Err(error) => Err(error),
            Ok((ty, between)) => match ty {
                TyView::Unknown => Ok((TyView::Unknown, between)),
                TyView::Array(elem) => match typed(cx, *idx, env, between) {
                    Err(error) => Err(error),
                    Ok((index, after)) => if index is Unknown || index == TyView::Int(IntW::W32) {
                        Ok((*elem, after))
                    } else {
                        Err(told(idx.span, "下标需要 i32, 实际 "@ + ty_name(index)))
                    },
                },
                _ => Err(told(recv.span, "下标访问需要 array 类型, 实际 "@ + ty_name(ty))),
            },
        },
        _ => Err(broken_at(e.span, "直接名字绕过统一解析入口"@)),
    }
}

/// The place behind an expression that is read into a slot that owns its value. Conversions that
/// change nothing are looked through.
pub open spec fn owning_source(notes: NotesMap, e: ast::Expr) -> Option<ast::Expr>
    decreases e,
{
    match e.kind {
        ast::ExprKind::Call { args, .. } => if found(notes.exprs, e.id) matches Some(fact)
            && fact.call_target == Some(
            TargetView::ContextualConversion(ResolvedConversion::Identity),
        ) && args@.len() == 1 {
            owning_source(notes, args@[0].value)
        } else {
            None
        },
        _ => if is_path(e) {
            Some(e)
        } else {
            None
        },
    }
}

/// The expression is a variable with projections.
pub open spec fn is_path(e: ast::Expr) -> bool
    decreases e,
{
    match e.kind {
        ast::ExprKind::Ident(_) => true,
        ast::ExprKind::Field { recv, .. } => is_path(*recv),
        ast::ExprKind::Index { recv, .. } => is_path(*recv),
        _ => false,
    }
}

/// What is recorded of an expression that is read into a slot that owns its value.
pub open spec fn noted_read(cx: ContextView, e: ast::Expr, expected: TyView, notes: NotesMap) ->
    Result<NotesMap, ErrorView> {
    match owning_source(notes, e) {
        None => Ok(notes),
        Some(source) => match found(notes.exprs, source.id) {
            None => Err(
                broken_at(source.span, "owning-slot read 缺少表达式类型 fact"@),
            ),
            Some(fact) => if fact.implicit_zero_callee is Some {
                Ok(notes)
            } else if !fits(expected, fact.ty) {
                Err(broken_at(source.span, "owning-slot read 类型与目标槽不一致"@))
            } else {
                match answer(cx.places, source.id, source.span) {
                    Err(error) => Err(error),
                    Ok(place) => if !fits(fact_type(place), expected) {
                        Err(broken_at(source.span, "owning-slot read Place 类型漂移"@))
                    } else {
                        match deep_clone_of(expected, source.span, cx.types) {
                            Err(error) => Err(error),
                            Ok(plan) => Ok(
                                NotesMap {
                                    owning_reads: notes.owning_reads.insert(
                                        source.id,
                                        ReadFact { place, plan },
                                    ),
                                    ..notes
                                },
                            ),
                        }
                    },
                }
            },
        },
    }
}

/// The elements of an array.
pub open spec fn typed_elems(
    cx: ContextView,
    elems: Seq<ast::Expr>,
    env: Env,
    notes: NotesMap,
    upto: nat,
) -> Result<(Option<TyView>, NotesMap), ErrorView>
    decreases elems, upto,
{
    if !(0 < upto <= elems.len()) {
        Ok((None, notes))
    } else {
        match typed_elems(cx, elems, env, notes, (upto - 1) as nat) {
            Err(error) => Err(error),
            Ok((first, so_far)) => {
                let item = elems[upto - 1];
                match typed_value(cx, item, env, so_far) {
                    Err(error) => Err(error),
                    Ok((ty, read)) => match noted_read(cx, item, ty, read) {
                        Err(error) => Err(error),
                        Ok(after) => match first {
                            None => Ok((Some(ty), after)),
                            Some(known) => if fits(known, ty) {
                                Ok((first, after))
                            } else {
                                Err(
                                    told(
                                        item.span,
                                        "数组元素类型不一致: "@ + ty_name(known) + " 与 "@
                                            + ty_name(ty),
                                    ),
                                )
                            },
                        },
                    },
                }
            },
        }
    }
}

pub open spec fn no_field(owner: Seq<char>, name: Seq<char>, span: Span) -> ErrorView {
    told(span, "结构体 "@ + owner + " 没有字段 '"@ + name + "'"@)
}

pub open spec fn typed_field(cx: ContextView, e: ast::Expr, env: Env, notes: NotesMap) -> Typed
    decreases e, 1nat,
{
    match e.kind {
        ast::ExprKind::Field { recv, name } => match typed(cx, *recv, env, notes) {
            Err(error) => Err(error),
            Ok((ty, after)) => match ty {
                TyView::Unknown => Ok((TyView::Unknown, after)),
                TyView::Struct(owner) => match struct_in(cx.structs, owner) {
                    None => Err(no_field(owner, name@, e.span)),
                    Some(fields) => match field_at(fields, name@, 0) {
                        None => Err(no_field(owner, name@, e.span)),
                        Some(index) => Ok(
                            (
                                fields[index].ty,
                                NotesMap {
                                    field_indices: after.field_indices.insert(
                                        e.id,
                                        index as usize,
                                    ),
                                    ..after
                                },
                            ),
                        ),
                    },
                },
                _ => Err(told(e.span, ty_name(ty) + " 没有字段 '"@ + name@ + "'"@)),
            },
        },
        _ => Err(broken_at(e.span, "直接名字绕过统一解析入口"@)),
    }
}

/// What is recorded of the parameters of a function.
pub open spec fn noted_params(
    params: Seq<ast::Param>,
    types: Seq<TyView>,
    ids: Seq<BindingId>,
    notes: NotesMap,
    upto: nat,
) -> NotesMap
    decreases upto,
{
    if upto == 0 {
        notes
    } else {
        let so_far = noted_params(params, types, ids, notes, (upto - 1) as nat);
        let id = params[upto - 1].id;
        NotesMap {
            params: so_far.params.insert(id, types[upto - 1]),
            param_ids: so_far.param_ids.insert(id, ids[upto - 1]),
            ..so_far
        }
    }
}

/// A function literal, whose body has been looked at elsewhere.
pub open spec fn typed_function(cx: ContextView, e: ast::Expr, notes: NotesMap) -> Typed {
    match e.kind {
        ast::ExprKind::FuncLit { params, .. } => match answer(cx.functions, e.id, e.span) {
            Err(error) => Err(error),
            Ok(found) => match found.ty {
                TyView::Func { params: types, .. } => if types.len() != params@.len()
                    || found.ids.len() != params@.len() {
                    Err(broken_at(e.span, "函数参数 fact 数量不一致"@))
                } else {
                    Ok(
                        (
                            found.ty,
                            noted_params(params@, types, found.ids, notes, params@.len()),
                        ),
                    )
                },
                _ => Ok((found.ty, notes)),
            },
        },
        _ => Err(broken_at(e.span, "直接名字绕过统一解析入口"@)),
    }
}

pub open spec fn typed_propagate(cx: ContextView, e: ast::Expr, env: Env, notes: NotesMap) -> Typed
    decreases e, 1nat,
{
    match e.kind {
        ast::ExprKind::Propagate { expr } => match typed(cx, *expr, env, notes) {
            Err(error) => Err(error),
            Ok((ty, after)) => match propagated(ty, cx.fn_ret, e.span) {
                Err(error) => Err(error),
                Ok(value) => Ok((value, after)),
            },
        },
        _ => Err(broken_at(e.span, "直接名字绕过统一解析入口"@)),
    }
}

/// What is left of a result when its error is handed on by a function.
pub open spec fn propagated(ty: TyView, fn_ret: Option<TyView>, span: Span) -> Result<
    TyView,
    ErrorView,
> {
    match ty {
        TyView::Unknown => Ok(TyView::Unknown),
        TyView::Result(value, failure) => match fn_ret {
            None => Err(told(span, "? 需要所在函数返回 result 类型"@)),
            Some(ret) => match ret {
                TyView::Result(_, wanted) => if fits(*wanted, *failure) {
                    Ok(*value)
                } else {
                    Err(
                        told(
                            span,
                            "? 错误类型不匹配: 表达式错误为 "@ + ty_name(*failure)
                                + ", 所在函数错误为 "@ + ty_name(*wanted),
                        ),
                    )
                },
                _ => Err(
                    told(span, "? 需要所在函数返回 result 类型, 实际 "@ + ty_name(ret)),
                ),
            },
        },
        _ => Err(told(span, "? 只能作用于 result 值, 实际 "@ + ty_name(ty))),
    }
}

/// The first argument with a label.
pub open spec fn labelled(args: Seq<ast::CallArg>, from: int) -> Option<int>
    decreases args.len() - from,
{
    if from < 0 || from >= args.len() {
        None
    } else if args[from].label is Some {
        Some(from)
    } else {
        labelled(args, from + 1)
    }
}

pub open spec fn label_fault(args: Seq<ast::CallArg>, what: Seq<char>) -> Option<ErrorView> {
    match labelled(args, 0) {
        Some(i) => Some(told(args[i].span, what + " '"@ + (args[i].label->0)@ + "'"@)),
        None => None,
    }
}

pub open spec fn arg_fault(i: int, want: TyView, fault: FaultView, span: Span) -> ErrorView {
    match fault {
        FaultView::Mismatch { actual, .. } => told(
            span,
            "第 "@ + decimal((i + 1) as nat) + " 个实参需要 "@ + ty_name(want) + ", 实际 "@
                + ty_name(actual),
        ),
        _ => alias_of(fault),
    }
}

/// Arguments of which types are expected.
pub open spec fn typed_args(
    cx: ContextView,
    args: Seq<ast::CallArg>,
    wants: Seq<TyView>,
    env: Env,
    notes: NotesMap,
    upto: nat,
) -> Result<NotesMap, ErrorView>
    decreases args, upto,
{
    if !(0 < upto <= args.len()) {
        Ok(notes)
    } else {
        match typed_args(cx, args, wants, env, notes, (upto - 1) as nat) {
            Err(error) => Err(error),
            Ok(so_far) => match typed_expected(
                cx,
                args[upto - 1].value,
                env,
                wants[upto - 1],
                so_far,
            ) {
                Err(fault) => Err(
                    arg_fault(upto - 1, wants[upto - 1], fault, args[upto - 1].value.span),
                ),
                Ok((_, after)) => Ok(after),
            },
        }
    }
}

/// Arguments of which nothing is expected.
pub open spec fn typed_values(
    cx: ContextView,
    args: Seq<ast::CallArg>,
    env: Env,
    notes: NotesMap,
    upto: nat,
) -> Result<NotesMap, ErrorView>
    decreases args, upto,
{
    if !(0 < upto <= args.len()) {
        Ok(notes)
    } else {
        match typed_values(cx, args, env, notes, (upto - 1) as nat) {
            Err(error) => Err(error),
            Ok(so_far) => match typed_value(cx, args[upto - 1].value, env, so_far) {
                Err(error) => Err(error),
                Ok((_, after)) => Ok(after),
            },
        }
    }
}

pub open spec fn arity_fault(wanted: nat, given: nat, span: Span) -> ErrorView {
    told(span, "期望 "@ + decimal(wanted) + " 个参数, 实际 "@ + decimal(given) + " 个"@)
}

/// A call of a function value.
pub open spec fn typed_apply(cx: ContextView, e: ast::Expr, env: Env, notes: NotesMap) -> Typed
    decreases e, 0nat,
{
    match e.kind {
        ast::ExprKind::Call { callee, args } => match typed_raw(cx, *callee, env, notes) {
            Err(error) => Err(error),
            Ok((ty, between)) => match ty {
                TyView::Func { params, ret, .. } => if args@.len() != params.len() {
                    Err(arity_fault(params.len(), args@.len(), e.span))
                } else {
                    match typed_args(cx, args@, params, env, between, args@.len()) {
                        Err(error) => Err(error),
                        Ok(after) => Ok((*ret, after)),
                    }
                },
                TyView::FuncPoly => match typed_values(cx, args@, env, between, args@.len()) {
                    Err(error) => Err(error),
                    Ok(after) => Ok((TyView::Unknown, after)),
                },
                TyView::Unknown => match typed_values(cx, args@, env, between, args@.len()) {
                    Err(error) => Err(error),
                    Ok(after) => Ok((TyView::Unknown, after)),
                },
                _ => Err(told(e.span, ty_name(ty) + " 不是可调用值"@)),
            },
        },
        _ => Err(broken_at(e.span, "直接名字绕过统一解析入口"@)),
    }
}

pub open spec fn alone_fault(name: Seq<char>, span: Span) -> ErrorView {
    told(span, name + " 恰好接受 1 个参数"@)
}

/// A call of a function that every program can use.
pub open spec fn typed_builtin(
    cx: ContextView,
    builtin: CallBuiltin,
    name: Seq<char>,
    e: ast::Expr,
    env: Env,
    notes: NotesMap,
) -> Typed
    decreases e, 0nat,
{
    match e.kind {
        ast::ExprKind::Call { args, .. } => match builtin {
            CallBuiltin::Increase => Err(told(e.span, name + " 只能作为独立语句使用"@)),
            CallBuiltin::Decrease => Err(told(e.span, name + " 只能作为独立语句使用"@)),
            CallBuiltin::Print => if args@.len() != 1 {
                Err(alone_fault(name, e.span))
            } else {
                match typed_value(cx, args@[0].value, env, notes) {
                    Err(error) => Err(error),
                    Ok((_, after)) => Ok((TyView::Unit, after)),
                }
            },
            CallBuiltin::Println => if args@.len() != 1 {
                Err(alone_fault(name, e.span))
            } else {
                match typed_value(cx, args@[0].value, env, notes) {
                    Err(error) => Err(error),
                    Ok((_, after)) => Ok((TyView::Unit, after)),
                }
            },
            CallBuiltin::From => if args@.len() != 1 {
                Err(alone_fault(name, e.span))
            } else {
                match typed_value(cx, args@[0].value, env, notes) {
                    Err(error) => Err(error),
                    Ok(_) => Err(told(e.span, name + " 需要目标类型上下文"@)),
                }
            },
            CallBuiltin::TryFrom => if args@.len() != 1 {
                Err(alone_fault(name, e.span))
            } else {
                match typed_value(cx, args@[0].value, env, notes) {
                    Err(error) => Err(error),
                    Ok(_) => Err(told(e.span, name + " 需要目标类型上下文"@)),
                }
            },
            CallBuiltin::Typeof => if args@.len() != 1 {
                Err(alone_fault("typeof"@, e.span))
            } else {
                match with_value(
                    typed_raw(cx, args@[0].value, env, notes),
                    args@[0].value.span,
                ) {
                    Err(error) => Err(error),
                    Ok((ty, after)) => if ty.contains_unknown() {
                        Err(told(args@[0].value.span, "typeof 无法确定实参的静态类型"@))
                    } else {
                        Ok((TyView::Str, after))
                    },
                }
            },
        },
        _ => Err(broken_at(e.span, "直接名字绕过统一解析入口"@)),
    }
}

/// The arguments of a constructor, and the fields that they set.
pub open spec fn typed_inits(
    cx: ContextView,
    name: Seq<char>,
    fields: Seq<FieldInfoView>,
    args: Seq<ast::CallArg>,
    env: Env,
    notes: NotesMap,
    upto: nat,
) -> Result<(Set<int>, NotesMap), ErrorView>
    decreases args, upto,
{
    if !(0 < upto <= args.len()) {
        Ok((Set::empty(), notes))
    } else {
        match typed_inits(cx, name, fields, args, env, notes, (upto - 1) as nat) {
            Err(error) => Err(error),
            Ok((set, so_far)) => {
                let arg = args[upto - 1];
                match arg.label {
                    None => Err(
                        told(arg.span, "结构体 "@ + name + " 构造必须使用命名实参"@),
                    ),
                    Some(label) => match field_at(fields, label@, 0) {
                        None => Err(no_field(name, label@, arg.span)),
                        Some(index) => if set.contains(index) {
                            Err(
                                told(
                                    arg.span,
                                    "结构体 "@ + name + " 构造重复指定字段 '"@ + label@ + "'"@,
                                ),
                            )
                        } else {
                            let named = NotesMap {
                                ctor_arg_indices: so_far.ctor_arg_indices.insert(
                                    arg.id,
                                    index as usize,
                                ),
                                ..so_far
                            };
                            match typed_expected(cx, arg.value, env, fields[index].ty, named) {
                                Err(fault) => Err(
                                    init_fault(label@, fields[index].ty, fault, arg.value.span),
                                ),
                                Ok((_, after)) => Ok((set.insert(index), after)),
                            }
                        },
                    },
                }
            },
        }
    }
}

pub open spec fn init_fault(label: Seq<char>, want: TyView, fault: FaultView, span: Span) ->
    ErrorView {
    match fault {
        FaultView::Mismatch { actual, .. } => told(
            span,
            "字段 '"@ + label + "' 需要 "@ + ty_name(want) + ", 实际 "@ + ty_name(actual),
        ),
        _ => alias_of(fault),
    }
}

/// The first field that is neither set nor has a default.
pub open spec fn unset_field(fields: Seq<FieldInfoView>, set: Set<int>, from: int) -> Option<int>
    decreases fields.len() - from,
{
    if from < 0 || from >= fields.len() {
        None
    } else if !set.contains(from) && !fields[from].has_default {
        Some(from)
    } else {
        unset_field(fields, set, from + 1)
    }
}

/// The construction of a struct.
pub open spec fn typed_struct(
    cx: ContextView,
    name: Seq<char>,
    fields: Seq<FieldInfoView>,
    args: Seq<ast::CallArg>,
    span: Span,
    env: Env,
    notes: NotesMap,
) -> Typed
    decreases args, args.len() + 1,
{
    match typed_inits(cx, name, fields, args, env, notes, args.len()) {
        Err(error) => Err(error),
        Ok((set, after)) => match unset_field(fields, set, 0) {
            Some(i) => Err(
                told(
                    span,
                    "结构体 "@ + name + " 构造缺少字段 '"@ + fields[i].name + "'"@,
                ),
            ),
            None => Ok((TyView::Struct(name), after)),
        },
    }
}

/// The construction of a result.
pub open spec fn typed_result(
    cx: ContextView,
    name: Seq<char>,
    kind: CtorKind,
    e: ast::Expr,
    env: Env,
    notes: NotesMap,
) -> Typed
    decreases e, 0nat,
{
    match e.kind {
        ast::ExprKind::Call { args, .. } => if args@.len() != 1 {
            Err(told(e.span, name + " 构造恰好接受 1 个参数"@))
        } else if args@[0].label is Some {
            Err(told(args@[0].span, "result 构造不接受命名实参"@))
        } else {
            match typed_value(cx, args@[0].value, env, notes) {
                Err(error) => Err(error),
                Ok((ty, after)) => Ok(
                    (
                        match kind {
                            CtorKind::OkCtor => TyView::Result(
                                Box::new(ty),
                                Box::new(TyView::Unknown),
                            ),
                            CtorKind::ErrCtor => TyView::Result(
                                Box::new(TyView::Unknown),
                                Box::new(ty),
                            ),
                        },
                        after,
                    ),
                ),
            }
        },
        _ => Err(broken_at(e.span, "直接名字绕过统一解析入口"@)),
    }
}

/// A call that is no ownership operation. A variable hides a struct of the same name.
pub open spec fn typed_plain_call(cx: ContextView, e: ast::Expr, env: Env, notes: NotesMap) -> Typed
    decreases e, 1nat, 0nat,
{
    match e.kind {
        ast::ExprKind::Call { callee, args } => match ident_of(*callee) {
            Some(name) => if in_scope(env, name) is None && struct_in(cx.structs, name) is Some {
                typed_struct(
                    cx,
                    name,
                    struct_in(cx.structs, name)->0,
                    args@,
                    e.span,
                    env,
                    notes,
                )
            } else if result_constructor(name) is Some {
                typed_result(cx, name, result_constructor(name)->0, e, env, notes)
            } else {
                match label_fault(args@, "函数调用不接受命名实参"@) {
                    Some(error) => Err(error),
                    None => match call_builtin(name) {
                        Some(builtin) => typed_builtin(cx, builtin, name, e, env, notes),
                        None => typed_apply(cx, e, env, notes),
                    },
                }
            },
            None => match label_fault(args@, "函数调用不接受命名实参"@) {
                Some(error) => Err(error),
                None => typed_apply(cx, e, env, notes),
            },
        },
        _ => Err(broken_at(e.span, "直接名字绕过统一解析入口"@)),
    }
}

/// What an ordinary call goes to.
pub open spec fn call_target(cx: ContextView, callee: ast::Expr, env: Env) -> TargetView {
    match ident_of(callee) {
        None => TargetView::FunctionValue,
        Some(name) => if in_scope(env, name) is Some {
            TargetView::FunctionValue
        } else if struct_in(cx.structs, name) is Some {
            TargetView::StructConstructor(name)
        } else if result_constructor(name) is Some {
            TargetView::ResultConstructor(result_constructor(name)->0)
        } else {
            match call_builtin(name) {
                Some(CallBuiltin::Print) => TargetView::Builtin(BuiltinView::Print),
                Some(CallBuiltin::Println) => TargetView::Builtin(BuiltinView::Println),
                Some(CallBuiltin::Increase) => TargetView::Builtin(BuiltinView::Increase),
                Some(CallBuiltin::Decrease) => TargetView::Builtin(BuiltinView::Decrease),
                Some(CallBuiltin::Typeof) => TargetView::Typeof,
                _ => TargetView::FunctionValue,
            }
        },
    }
}

/// The one argument of an ownership operation.
pub open spec fn lone_fault(args: Seq<ast::CallArg>, name: Seq<char>, span: Span) -> Option<
    ErrorView,
> {
    if args.len() != 1 {
        Some(told(span, name + " 恰好接受 1 个参数"@))
    } else if args[0].label is Some {
        Some(told(args[0].span, name + " 不接受命名实参"@))
    } else {
        None
    }
}

/// The operand of a copy, which is not called where it is a bare name.
pub open spec fn typed_operand(
    cx: ContextView,
    name: Seq<char>,
    arg: ast::Expr,
    env: Env,
    expected: Option<TyView>,
    notes: NotesMap,
) -> Typed
    decreases arg, 10nat,
{
    match expected {
        Some(want) => if is_name(arg) {
            match with_value(typed_raw(cx, arg, env, notes), arg.span) {
                Err(error) => Err(error),
                Ok((got, after)) => if fits(want, got) {
                    Ok((want, after))
                } else {
                    Err(
                        told(
                            arg.span,
                            name + " 参数需要 "@ + ty_name(want) + ", 实际 "@ + ty_name(got),
                        ),
                    )
                },
            }
        } else {
            with_value(as_typed(typed_expected(cx, arg, env, want, notes)), arg.span)
        },
        None => with_value(typed_raw(cx, arg, env, notes), arg.span),
    }
}

pub open spec fn typed_clone(
    cx: ContextView,
    args: Seq<ast::CallArg>,
    span: Span,
    env: Env,
    expected: Option<TyView>,
    notes: NotesMap,
) -> Result<(TyView, DeepPlanView, NotesMap), ErrorView>
    decreases args, 0nat,
{
    match lone_fault(args, "clone"@, span) {
        Some(error) => Err(error),
        None => if args.len() == 1 {
            match typed_operand(cx, "clone"@, args[0].value, env, expected, notes) {
                Err(error) => Err(error),
                Ok((ty, after)) => match deep_clone_of(ty, span, cx.types) {
                    Err(error) => Err(error),
                    Ok(plan) => Ok((ty, plan, after)),
                },
            }
        } else {
            Err(told(span, "clone 恰好接受 1 个参数"@))
        },
    }
}

pub open spec fn typed_shallow(
    cx: ContextView,
    args: Seq<ast::CallArg>,
    span: Span,
    env: Env,
    expected: Option<TyView>,
    notes: NotesMap,
) -> Result<(TyView, ShallowPlanView, NotesMap), ErrorView>
    decreases args, 0nat,
{
    match lone_fault(args, "shallow"@, span) {
        Some(error) => Err(error),
        None => if args.len() == 1 {
            match typed_operand(cx, "shallow"@, args[0].value, env, expected, notes) {
                Err(error) => Err(error),
                Ok((ty, after)) => match shallow_clone_of(ty, span, cx.types) {
                    Err(error) => Err(error),
                    Ok(plan) => Ok((ty, plan, after)),
                },
            }
        } else {
            Err(told(span, "shallow 恰好接受 1 个参数"@))
        },
    }
}

/// The place that an operation works on, and its type.
pub open spec fn typed_place(
    cx: ContextView,
    name: Seq<char>,
    arg: ast::Expr,
    place: PlaceFact,
    env: Env,
    notes: NotesMap,
) -> Typed
    decreases arg, 5nat,
{
    match typed_raw(cx, arg, env, notes) {
        Err(error) => Err(error),
        Ok((ty, after)) => if ty == fact_type(place) {
            Ok((ty, after))
        } else {
            Err(broken_at(arg.span, name + " Place 类型与表达式类型不一致"@))
        },
    }
}

pub open spec fn typed_move(cx: ContextView, e: ast::Expr, env: Env, notes: NotesMap) -> Typed
    decreases e, 0nat,
{
    match e.kind {
        ast::ExprKind::Call { args, .. } => match lone_fault(args@, "move"@, e.span) {
            Some(error) => Err(error),
            None => if args@.len() == 1 {
                let arg = args@[0].value;
                match answer(cx.places, arg.id, arg.span) {
                    Err(error) => Err(error),
                    Ok(place) => if !(place is Local) {
                        Err(
                            told(
                                arg.span,
                                "普通 struct 字段和 array 元素不能被 move-out 后留下 hole"@,
                            ),
                        )
                    } else {
                        match typed_place(cx, "move"@, arg, place, env, notes) {
                            Err(error) => Err(error),
                            Ok((ty, after)) => Ok(
                                (
                                    ty,
                                    NotesMap {
                                        move_places: after.move_places.insert(e.id, place),
                                        ..after
                                    },
                                ),
                            ),
                        }
                    },
                }
            } else {
                Err(told(e.span, "move 恰好接受 1 个参数"@))
            },
        },
        _ => Err(broken_at(e.span, "直接名字绕过统一解析入口"@)),
    }
}

/// A new loan for an alias of a place.
pub open spec fn noted_loan(
    id: u32,
    place: PlaceFact,
    source_writable: bool,
    span: Span,
    notes: NotesMap,
) -> Result<NotesMap, ErrorView> {
    if notes.next_loan == u32::MAX {
        Err(told(span, "LoanId 数量超过编译器上限"@))
    } else {
        Ok(
            NotesMap {
                borrow_places: notes.borrow_places.insert(
                    id,
                    BorrowFact {
                        loan_id: LoanId(notes.next_loan),
                        place,
                        source_writable,
                    },
                ),
                next_loan: (notes.next_loan + 1) as u32,
                ..notes
            },
        )
    }
}

pub open spec fn typed_borrow(cx: ContextView, e: ast::Expr, env: Env, notes: NotesMap) -> Typed
    decreases e, 0nat,
{
    match e.kind {
        ast::ExprKind::Call { args, .. } => match lone_fault(args@, "borrow"@, e.span) {
            Some(error) => Err(error),
            None => if args@.len() == 1 {
                let arg = args@[0].value;
                match answer(cx.places, arg.id, arg.span) {
                    Err(error) => Err(error),
                    Ok(place) => if cx.borrowed.contains(fact_root(place)) {
                        Err(
                            told(
                                arg.span,
                                "borrow source 当前必须直接根植于 owning Place；borrowed alias 的 reborrow 尚未解析 canonical owner"@,
                            ),
                        )
                    } else {
                        match answer(cx.writable, arg.id, arg.span) {
                            Err(error) => Err(error),
                            Ok(flag) => match typed_place(cx, "borrow"@, arg, place, env, notes) {
                                Err(error) => Err(error),
                                Ok((ty, between)) => match noted_loan(
                                    e.id,
                                    place,
                                    flag,
                                    e.span,
                                    between,
                                ) {
                                    Err(error) => Err(error),
                                    Ok(after) => Ok((ty, after)),
                                },
                            },
                        }
                    },
                }
            } else {
                Err(told(e.span, "borrow 恰好接受 1 个参数"@))
            },
        },
        _ => Err(broken_at(e.span, "直接名字绕过统一解析入口"@)),
    }
}

/// A call: an ownership operation, or another.
pub open spec fn typed_call(cx: ContextView, e: ast::Expr, env: Env, notes: NotesMap) -> Typed
    decreases e, 1nat, 1nat,
{
    match e.kind {
        ast::ExprKind::Call { callee, args } => {
            let operation = match ident_of(*callee) {
                Some(name) => ownership_builtin(name),
                None => None,
            };
            match operation {
                Some(OwnershipBuiltin::CloneValue) => match typed_clone(
                    cx,
                    args@,
                    e.span,
                    env,
                    None,
                    notes,
                ) {
                    Err(error) => Err(error),
                    Ok((ty, plan, after)) => Ok(
                        (
                            ty,
                            note_target(
                                after,
                                e.id,
                                TargetView::Builtin(BuiltinView::DeepClone(plan)),
                            ),
                        ),
                    ),
                },
                Some(OwnershipBuiltin::Shallow) => match typed_shallow(
                    cx,
                    args@,
                    e.span,
                    env,
                    None,
                    notes,
                ) {
                    Err(error) => Err(error),
                    Ok((ty, plan, after)) => Ok(
                        (
                            ty,
                            note_target(
                                after,
                                e.id,
                                TargetView::Builtin(BuiltinView::ShallowClone(plan)),
                            ),
                        ),
                    ),
                },
                Some(OwnershipBuiltin::Borrow) => match typed_borrow(cx, e, env, notes) {
                    Err(error) => Err(error),
                    Ok((ty, after)) => Ok((ty, note_target(after, e.id, TargetView::Borrow))),
                },
                Some(OwnershipBuiltin::Move) => match typed_move(cx, e, env, notes) {
                    Err(error) => Err(error),
                    Ok((ty, after)) => Ok((ty, note_target(after, e.id, TargetView::Move))),
                },
                None => match typed_plain_call(cx, e, env, notes) {
                    Err(error) => Err(error),
                    Ok((ty, after)) => Ok(
                        (ty, note_target(after, e.id, call_target(cx, *callee, env))),
                    ),
                },
            }
        },
        _ => Err(broken_at(e.span, "直接名字绕过统一解析入口"@)),
    }
}

/// The method that a call means: a built-in one, or one that the program declares.
pub open spec fn method_sig(cx: ContextView, call: u32, recv: TyView, name: Seq<char>) -> Option<
    SigView,
> {
    match found(cx.builtins, call) {
        Some(sig) => Some(sig),
        None => match user_method(cx.methods, ty_name(recv), name) {
            None => None,
            Some(method) => Some(
                SigView {
                    params: method.params,
                    ret: method.ret,
                    target: Some(MethodView::User(recv, method.id, None, None)),
                },
            ),
        },
    }
}

/// What a method call goes to.
pub open spec fn method_target(
    cx: ContextView,
    call: u32,
    recv: TyView,
    name: Seq<char>,
    span: Span,
) -> Result<MethodView, ErrorView> {
    match method_sig(cx, call, recv, name) {
        Some(SigView { target: Some(target), .. }) => Ok(target),
        Some(_) => Err(
            broken_at(span, "内建方法 "@ + ty_name(recv) + "."@ + name + " 缺少 target"@),
        ),
        None => Err(
            broken_at(span, "用户方法 "@ + ty_name(recv) + "."@ + name + " 缺少 MethodId"@),
        ),
    }
}

/// The result of a method call without arguments.
pub open spec fn bare_method(
    cx: ContextView,
    call: u32,
    recv: TyView,
    name: Seq<char>,
    span: Span,
) -> Result<TyView, ErrorView> {
    if recv is Unknown {
        Ok(TyView::Unknown)
    } else {
        match method_sig(cx, call, recv, name) {
            None => Err(
                told(span, "类型 "@ + ty_name(recv) + " 上没有方法 '"@ + name + "'"@),
            ),
            Some(sig) => if sig.params.len() != 0 {
                Err(arity_fault(sig.params.len(), 0, span))
            } else {
                Ok(sig.ret)
            },
        }
    }
}

/// The arguments and the result of a method call.
pub open spec fn typed_method(
    cx: ContextView,
    call: u32,
    recv: TyView,
    name: Seq<char>,
    args: Seq<ast::CallArg>,
    span: Span,
    env: Env,
    notes: NotesMap,
) -> Typed
    decreases args, args.len() + 1,
{
    if recv is Unknown {
        Ok((TyView::Unknown, notes))
    } else {
        match label_fault(args, "方法调用不接受命名实参"@) {
            Some(error) => Err(error),
            None => match method_sig(cx, call, recv, name) {
                None => Err(
                    told(span, "类型 "@ + ty_name(recv) + " 上没有方法 '"@ + name + "'"@),
                ),
                Some(sig) => if args.len() != sig.params.len() {
                    Err(arity_fault(sig.params.len(), args.len(), span))
                } else {
                    match typed_args(cx, args, sig.params, env, notes, args.len()) {
                        Err(error) => Err(error),
                        Ok(after) => Ok((sig.ret, after)),
                    }
                },
            },
        }
    }
}

pub open spec fn typed_method_call(cx: ContextView, e: ast::Expr, env: Env, notes: NotesMap) -> Typed
    decreases e, 1nat,
{
    match e.kind {
        ast::ExprKind::MethodCall { recv, name, args } => match typed(cx, *recv, env, notes) {
            Err(error) => Err(error),
            Ok((receiver, between)) => match typed_method(
                cx,
                e.id,
                receiver,
                name@,
                args@,
                e.span,
                env,
                between,
            ) {
                Err(error) => Err(error),
                Ok((ty, after)) => match method_target(
                    cx,
                    e.id,
                    noted_type(after, recv.id),
                    name@,
                    e.span,
                ) {
                    Err(error) => Err(error),
                    Ok(target) => Ok((ty, note_target(after, e.id, TargetView::Method(target)))),
                },
            },
        },
        _ => Err(broken_at(e.span, "直接名字绕过统一解析入口"@)),
    }
}

/// Two expressions side by side.
pub open spec fn typed_juxtapose(cx: ContextView, e: ast::Expr, env: Env, notes: NotesMap) -> Typed
    decreases e, 1nat,
{
    match e.kind {
        ast::ExprKind::Juxtapose { lhs, rhs } => match typed_raw(cx, *lhs, env, notes) {
            Err(error) => Err(error),
            Ok((left, between)) => if left matches TyView::Func { params, .. } && params.len()
                == 1 {
                match typed_expected(cx, *rhs, env, left->Func_params[0], between) {
                    Err(fault) => Err(arg_fault(0, left->Func_params[0], fault, rhs.span)),
                    Ok((_, after)) => Ok(
                        (*left->ret, note_target(after, e.id, TargetView::FunctionValue)),
                    ),
                }
            } else if left is FuncPoly || left is Unknown {
                match typed_value(cx, *rhs, env, between) {
                    Err(error) => Err(error),
                    Ok((_, after)) => Ok(
                        (TyView::Unknown, note_target(after, e.id, TargetView::FunctionValue)),
                    ),
                }
            } else {
                match ident_of(*rhs) {
                    None => Err(told(e.span, ty_name(left) + " 不是可调用值"@)),
                    Some(name) => match bare_method(cx, e.id, left, name, e.span) {
                        Err(error) => Err(error),
                        Ok(ty) => match method_target(cx, e.id, left, name, e.span) {
                            Err(error) => Err(error),
                            Ok(target) => Ok(
                                (ty, note_target(between, e.id, TargetView::Method(target))),
                            ),
                        },
                    },
                }
            },
        },
        _ => Err(broken_at(e.span, "直接名字绕过统一解析入口"@)),
    }
}

/// A match, after its first arms.
pub struct MatchState {
    pub cover: CoverView,
    pub common: Option<TyView>,
    pub notes: NotesMap,
}

/// The names in an arm: one more, where its pattern binds a variable.
pub open spec fn arm_scope(
    arm: ast::MatchArm,
    bound: Option<(Seq<char>, TyView)>,
    env: Env,
    notes: NotesMap,
) -> Result<(Env, NotesMap), FaultView> {
    match bound {
        None => Ok((env, notes)),
        Some((name, ty)) => if notes.next_binding == u32::MAX {
            Err(
                FaultView::Diagnostic(
                    broken_at(arm.span, "BindingId 数量超过编译器上限"@),
                ),
            )
        } else {
            let id = BindingId(notes.next_binding);
            Ok(
                (
                    env.push((name, VarView { id, ty, mutable: false })),
                    NotesMap {
                        match_binding_ids: notes.match_binding_ids.insert(arm.id, id),
                        next_binding: (notes.next_binding + 1) as u32,
                        ..notes
                    },
                ),
            )
        },
    }
}

/// A value in an arm.
pub open spec fn typed_arm_value(
    cx: ContextView,
    e: ast::Expr,
    env: Env,
    expected: Option<TyView>,
    notes: NotesMap,
) -> Result<(Option<TyView>, NotesMap), FaultView>
    decreases e, 10nat,
{
    let r = match expected {
        Some(want) => typed_expected(cx, e, env, want, notes),
        None => as_expected(typed(cx, e, env, notes)),
    };
    match r {
        Err(fault) => Err(fault),
        Ok((ty, after)) => Ok((Some(ty), after)),
    }
}

/// The type that an arm gives, unless it leaves the function.
pub open spec fn typed_arm(
    cx: ContextView,
    arm: ast::MatchArm,
    env: Env,
    expected: Option<TyView>,
    notes: NotesMap,
) -> Result<(Option<TyView>, NotesMap), FaultView>
    decreases arm, 0nat,
{
    match arm.body {
        ast::ArmBody::Value(value) => typed_arm_value(cx, *value, env, expected, notes),
        ast::ArmBody::Ret(value) => match answer(cx.blocks, arm.id, value.span) {
            Err(error) => Err(FaultView::Diagnostic(error)),
            Ok(_) => Ok((None, notes)),
        },
        ast::ArmBody::Block(stmts) => match answer(cx.blocks, arm.id, arm.span) {
            Err(error) => Err(FaultView::Diagnostic(error)),
            Ok(block) => if block.terminates {
                Ok((None, notes))
            } else if stmts@.len() == 0 {
                Ok((Some(TyView::Unit), notes))
            } else {
                match stmts@[stmts@.len() - 1].kind {
                    ast::StmtKind::Expr { expr } => typed_arm_value(
                        cx,
                        expr,
                        env + block.names,
                        expected,
                        notes,
                    ),
                    _ => Ok((Some(TyView::Unit), notes)),
                }
            },
        },
    }
}

pub open spec fn typed_arms(
    cx: ContextView,
    st: TyView,
    arms: Seq<ast::MatchArm>,
    env: Env,
    expected: Option<TyView>,
    notes: NotesMap,
    upto: nat,
) -> Result<MatchState, FaultView>
    decreases arms, upto,
{
    if !(0 < upto <= arms.len()) {
        Ok(MatchState { cover: no_cover(), common: None, notes })
    } else {
        match typed_arms(cx, st, arms, env, expected, notes, (upto - 1) as nat) {
            Err(fault) => Err(fault),
            Ok(state) => {
                let arm = arms[upto - 1];
                match pattern_step(st, arm.pattern, state.cover) {
                    Err(error) => Err(FaultView::Diagnostic(error)),
                    Ok((bound, cover)) => match arm_scope(arm, bound, env, state.notes) {
                        Err(fault) => Err(fault),
                        Ok((local, started)) => match typed_arm(
                            cx,
                            arm,
                            local,
                            expected,
                            started,
                        ) {
                            Err(fault) => Err(fault),
                            Ok((ty, after)) => match joined_arms(
                                state.common,
                                ty,
                                expected,
                                arm.span,
                            ) {
                                Err(error) => Err(FaultView::Diagnostic(error)),
                                Ok(common) => Ok(MatchState { cover, common, notes: after }),
                            },
                        },
                    },
                }
            },
        }
    }
}

/// The type that the arms have in common; it plays no part where a type is expected.
pub open spec fn joined_arms(
    common: Option<TyView>,
    ty: Option<TyView>,
    expected: Option<TyView>,
    span: Span,
) -> Result<Option<TyView>, ErrorView> {
    match (expected, ty) {
        (None, Some(ty)) => match joined_arm(common, ty, span) {
            Ok(joined) => Ok(Some(joined)),
            Err(error) => Err(error),
        },
        _ => Ok(common),
    }
}

pub open spec fn typed_match(
    cx: ContextView,
    e: ast::Expr,
    env: Env,
    expected: Option<TyView>,
    notes: NotesMap,
) -> Expected
    decreases e, 1nat,
{
    match e.kind {
        ast::ExprKind::Match { subject, arms } => match typed_value(cx, *subject, env, notes) {
            Err(error) => Err(FaultView::Diagnostic(error)),
            Ok((st, started)) => if st is Unknown {
                Ok((TyView::Unknown, started))
            } else {
                match typed_arms(cx, st, arms@, env, expected, started, arms@.len()) {
                    Err(fault) => Err(fault),
                    Ok(state) => match open_fault(st, state.cover, e.span) {
                        Some(error) => Err(FaultView::Diagnostic(error)),
                        None => Ok(
                            (
                                match expected {
                                    Some(want) => want,
                                    None => match state.common {
                                        Some(ty) => ty,
                                        None => TyView::Unit,
                                    },
                                },
                                state.notes,
                            ),
                        ),
                    },
                }
            },
        },
        _ => Err(FaultView::Diagnostic(broken_at(e.span, "直接名字绕过统一解析入口"@))),
    }
}

pub open spec fn agreed(want: TyView, got: TyView, span: Span, notes: NotesMap) -> Expected {
    if fits(want, got) {
        Ok((want, notes))
    } else {
        Err(FaultView::Mismatch { expected: want, actual: got, span })
    }
}

/// An expression by itself, held against the type that is expected.
pub open spec fn typed_inferred(
    cx: ContextView,
    e: ast::Expr,
    env: Env,
    want: TyView,
    notes: NotesMap,
) -> Expected
    decreases e, 5nat,
{
    match typed_value(cx, e, env, notes) {
        Err(error) => Err(FaultView::Diagnostic(error)),
        Ok((got, after)) => agreed(want, got, e.span, after),
    }
}

/// The type of an expression of which a type is expected.
pub open spec fn typed_expected(
    cx: ContextView,
    e: ast::Expr,
    env: Env,
    want: TyView,
    notes: NotesMap,
) -> Expected
    decreases e, 9nat,
{
    match typed_expected_inner(cx, e, env, want, notes) {
        Err(fault) => Err(fault),
        Ok((ty, after)) => Ok((ty, settled_literal_notes(after, e, ty))),
    }
}

/// A conversion to the type that is expected: of the type of its operand, or of none.
pub open spec fn converted(
    cx: ContextView,
    name: Seq<char>,
    e: ast::Expr,
    arg: ast::Expr,
    env: Env,
    want: TyView,
    notes: NotesMap,
) -> Result<(Option<ResolvedConversion>, TyView, NotesMap), ErrorView>
    decreases arg, 5nat,
{
    match typed_value(cx, arg, env, notes) {
        Err(error) => Err(error),
        Ok((source, after)) => if converts(source, want) {
            Ok((Some(ResolvedConversion::Convert), source, after))
        } else if name == "from"@ {
            Err(
                told(
                    e.span,
                    "from 不存在 "@ + ty_name(source) + " → "@ + ty_name(want) + " 转换"@,
                ),
            )
        } else {
            Ok((Some(ResolvedConversion::Identity), source, after))
        },
    }
}

pub open spec fn typed_conversion(
    cx: ContextView,
    name: Seq<char>,
    e: ast::Expr,
    arg: ast::Expr,
    env: Env,
    want: TyView,
    notes: NotesMap,
) -> Expected
    decreases arg, 10nat,
{
    match converted(cx, name, e, arg, env, want, notes) {
        Err(error) => Err(FaultView::Diagnostic(error)),
        Ok((mode, _, after)) => {
            let marked = note_target(
                after,
                e.id,
                TargetView::ContextualConversion(mode->0),
            );
            if mode == Some(ResolvedConversion::Convert) {
                Ok((want, marked))
            } else {
                typed_inferred(cx, arg, env, want, marked)
            }
        },
    }
}

pub open spec fn typed_expected_inner(
    cx: ContextView,
    e: ast::Expr,
    env: Env,
    want: TyView,
    notes: NotesMap,
) -> Expected
    decreases e, 8nat,
{
    if (want is Func || want is FuncPoly) && is_name(e) {
        match with_value(typed_raw(cx, e, env, notes), e.span) {
            Err(error) => Err(FaultView::Diagnostic(error)),
            Ok((got, after)) => agreed(want, got, e.span, after),
        }
    } else if conversion_of(e) is Some {
        match e.kind {
            ast::ExprKind::Call { args, .. } => if args@.len() == 1 {
                typed_conversion(
                    cx,
                    (conversion_of(e)->0).0,
                    e,
                    args@[0].value,
                    env,
                    want,
                    notes,
                )
            } else {
                typed_inferred(cx, e, env, want, notes)
            },
            _ => typed_inferred(cx, e, env, want, notes),
        }
    } else {
        match slot_view(want, e) {
            SlotView::Takes => Ok((want, notes)),
            SlotView::OutOfRange(literal) => Err(
                FaultView::LiteralOutOfRange { literal, expected: want, span: e.span },
            ),
            SlotView::Other => typed_shape(cx, e, env, want, notes),
        }
    }
}

/// A copy of which a type is expected: its operand has that type.
pub open spec fn typed_copy(
    cx: ContextView,
    e: ast::Expr,
    env: Env,
    want: TyView,
    notes: NotesMap,
) -> Expected
    decreases e, 0nat,
{
    match e.kind {
        ast::ExprKind::Call { callee, args } => match ident_of(*callee) {
            Some(name) => if ownership_builtin(name) == Some(OwnershipBuiltin::CloneValue) {
                match typed_clone(cx, args@, e.span, env, Some(want), notes) {
                    Err(error) => Err(FaultView::Diagnostic(error)),
                    Ok((got, plan, after)) => agreed(
                        want,
                        got,
                        e.span,
                        note_target(
                            after,
                            e.id,
                            TargetView::Builtin(BuiltinView::DeepClone(plan)),
                        ),
                    ),
                }
            } else {
                match typed_shallow(cx, args@, e.span, env, Some(want), notes) {
                    Err(error) => Err(FaultView::Diagnostic(error)),
                    Ok((got, plan, after)) => agreed(
                        want,
                        got,
                        e.span,
                        note_target(
                            after,
                            e.id,
                            TargetView::Builtin(BuiltinView::ShallowClone(plan)),
                        ),
                    ),
                }
            },
            None => Err(FaultView::Diagnostic(broken_at(e.span, "直接名字绕过统一解析入口"@))),
        },
        _ => Err(FaultView::Diagnostic(broken_at(e.span, "直接名字绕过统一解析入口"@))),
    }
}

/// Expressions that hand on the type that is expected of them.
pub open spec fn typed_shape(
    cx: ContextView,
    e: ast::Expr,
    env: Env,
    want: TyView,
    notes: NotesMap,
) -> Expected
    decreases e, 7nat, 1nat,
{
    match e.kind {
        ast::ExprKind::Ternary { cond, then_expr, else_expr } => match typed_bool(
            cx,
            *cond,
            env,
            "?: 条件"@,
            notes,
        ) {
            Err(error) => Err(FaultView::Diagnostic(error)),
            Ok(one) => match typed_expected(cx, *then_expr, env, want, one) {
                Err(fault) => Err(fault),
                Ok((_, two)) => match typed_expected(cx, *else_expr, env, want, two) {
                    Err(fault) => Err(fault),
                    Ok((_, after)) => Ok((want, after)),
                },
            },
        },
        ast::ExprKind::Match { .. } => typed_match(cx, e, env, Some(want), notes),
        ast::ExprKind::Binary { op, .. } => if flows_expected(op, want) {
            match typed_context(cx, e, env, want, notes) {
                Err(fault) => Err(fault),
                Ok((got, after)) => agreed(want, got, e.span, after),
            }
        } else {
            typed_inferred(cx, e, env, want, notes)
        },
        ast::ExprKind::BitNot { expr } => if want.is_integer() {
            match typed_expected(cx, *expr, env, want, notes) {
                Err(fault) => Err(fault),
                Ok((_, after)) => Ok((want, after)),
            }
        } else {
            typed_inferred(cx, e, env, want, notes)
        },
        ast::ExprKind::ArrayLit { elems } => match want {
            TyView::Array(elem) => match typed_items(cx, elems@, *elem, env, notes, elems@.len()) {
                Err(fault) => Err(fault),
                Ok(after) => Ok((want, after)),
            },
            _ => typed_inferred(cx, e, env, want, notes),
        },
        ast::ExprKind::Call { callee, .. } => match (ident_of(*callee), want) {
            (Some(name), _) if ownership_builtin(name) == Some(OwnershipBuiltin::CloneValue)
                || ownership_builtin(name) == Some(OwnershipBuiltin::Shallow) => typed_copy(
                cx,
                e,
                env,
                want,
                notes,
            ),
            (Some(name), TyView::Result(ok, err)) => match result_constructor(name) {
                Some(kind) => typed_payload(
                    cx,
                    name,
                    kind,
                    e,
                    env,
                    want,
                    match kind {
                        CtorKind::OkCtor => *ok,
                        CtorKind::ErrCtor => *err,
                    },
                    notes,
                ),
                None => typed_inferred(cx, e, env, want, notes),
            },
            _ => typed_inferred(cx, e, env, want, notes),
        },
        _ => typed_inferred(cx, e, env, want, notes),
    }
}

/// The elements of an array of which a type is expected.
pub open spec fn typed_items(
    cx: ContextView,
    elems: Seq<ast::Expr>,
    want: TyView,
    env: Env,
    notes: NotesMap,
    upto: nat,
) -> Result<NotesMap, FaultView>
    decreases elems, upto,
{
    if !(0 < upto <= elems.len()) {
        Ok(notes)
    } else {
        match typed_items(cx, elems, want, env, notes, (upto - 1) as nat) {
            Err(fault) => Err(fault),
            Ok(so_far) => match typed_expected(cx, elems[upto - 1], env, want, so_far) {
                Ok((_, after)) => Ok(after),
                Err(FaultView::Mismatch { actual, .. }) => Err(
                    FaultView::Diagnostic(
                        told(
                            elems[upto - 1].span,
                            "数组元素类型不一致: "@ + ty_name(want) + " 与 "@ + ty_name(actual),
                        ),
                    ),
                ),
                Err(fault) => Err(fault),
            },
        }
    }
}

/// The construction of a result of which a type is expected.
pub open spec fn typed_payload(
    cx: ContextView,
    name: Seq<char>,
    kind: CtorKind,
    e: ast::Expr,
    env: Env,
    want: TyView,
    payload: TyView,
    notes: NotesMap,
) -> Expected
    decreases e, 0nat,
{
    let marked = note_target(notes, e.id, TargetView::ResultConstructor(kind));
    match e.kind {
        ast::ExprKind::Call { args, .. } => if args@.len() != 1 {
            Err(FaultView::Diagnostic(told(e.span, name + " 构造恰好接受 1 个参数"@)))
        } else if args@[0].label is Some {
            Err(FaultView::Diagnostic(told(args@[0].span, "result 构造不接受命名实参"@)))
        } else {
            match typed_expected(cx, args@[0].value, env, payload, marked) {
                Err(fault) => Err(fault),
                Ok((_, after)) => Ok((want, after)),
            }
        },
        _ => Err(FaultView::Diagnostic(broken_at(e.span, "直接名字绕过统一解析入口"@))),
    }
}

/// An operand of arithmetic: literals take the type that is expected, other values keep theirs.
pub open spec fn typed_context(
    cx: ContextView,
    e: ast::Expr,
    env: Env,
    want: TyView,
    notes: NotesMap,
) -> Expected
    decreases e, 7nat, 0nat,
{
    match typed_context_inner(cx, e, env, want, notes) {
        Err(fault) => Err(fault),
        Ok((ty, after)) => Ok((ty, settled_literal_notes(after, e, ty))),
    }
}

pub open spec fn typed_context_inner(
    cx: ContextView,
    e: ast::Expr,
    env: Env,
    want: TyView,
    notes: NotesMap,
) -> Expected
    decreases e, 6nat,
{
    match slot_view(want, e) {
        SlotView::Takes => Ok((want, notes)),
        SlotView::OutOfRange(literal) => Err(
            FaultView::LiteralOutOfRange { literal, expected: want, span: e.span },
        ),
        SlotView::Other => match e.kind {
            ast::ExprKind::Call { args, .. } => if conversion_of(e) is Some && args@.len() == 1 {
                match converted(
                    cx,
                    (conversion_of(e)->0).0,
                    e,
                    args@[0].value,
                    env,
                    want,
                    notes,
                ) {
                    Err(error) => Err(FaultView::Diagnostic(error)),
                    Ok((mode, source, after)) => Ok(
                        (
                            if mode == Some(ResolvedConversion::Convert) {
                                want
                            } else {
                                source
                            },
                            note_target(
                                after,
                                e.id,
                                TargetView::ContextualConversion(mode->0),
                            ),
                        ),
                    ),
                }
            } else {
                as_expected(typed(cx, e, env, notes))
            },
            ast::ExprKind::Binary { op, lhs, rhs } => if !flows_expected(op, want) {
                as_expected(typed(cx, e, env, notes))
            } else {
                match typed_context(cx, *lhs, env, want, notes) {
                    Err(fault) => Err(fault),
                    Ok((left, between)) => match typed_context(
                        cx,
                        *rhs,
                        env,
                        if left.is_numeric() {
                            left
                        } else {
                            want
                        },
                        between,
                    ) {
                        Err(fault) => Err(fault),
                        Ok((right, after)) => as_expected(
                            binary_typed(op, left, right, e.span, after),
                        ),
                    },
                }
            },
            _ => as_expected(typed(cx, e, env, notes)),
        },
    }
}

/// An expression of which a type is expected has this type, unless it is a match on something
/// whose type is not known.
pub proof fn law_expected_type_is_the_type(
    cx: ContextView,
    e: ast::Expr,
    env: Env,
    want: TyView,
    notes: NotesMap,
)
    ensures
        typed_expected(cx, e, env, want, notes) matches Ok((ty, _)) ==> ty == want || (e.kind
            is Match && ty is Unknown),
{
    reveal_with_fuel(typed_expected, 2);
    reveal_with_fuel(typed_expected_inner, 2);
    reveal_with_fuel(typed_shape, 2);
    reveal_with_fuel(typed_inferred, 2);
    reveal_with_fuel(typed_conversion, 2);
    reveal_with_fuel(typed_payload, 2);
    reveal_with_fuel(typed_copy, 2);
    reveal_with_fuel(typed_match, 2);
}

/// The node right below an expression that is recorded together with it is another node.
pub open spec fn own_node(e: ast::Expr) -> bool {
    match e.kind {
        ast::ExprKind::Call { callee, .. } => callee.id != e.id,
        ast::ExprKind::Neg { expr } => expr.id != e.id,
        _ => true,
    }
}

/// What is recorded of an expression is the type that it was found to have.
pub proof fn law_found_types_are_recorded(
    cx: ContextView,
    e: ast::Expr,
    env: Env,
    want: TyView,
    notes: NotesMap,
)
    requires
        own_node(e),
    ensures
        typed(cx, e, env, notes) matches Ok((ty, after)) ==> noted_type(after, e.id) == ty,
        typed_expected(cx, e, env, want, notes) matches Ok((ty, after)) ==> noted_type(
            after,
            e.id,
        ) == ty,
{
}

} // verus!
