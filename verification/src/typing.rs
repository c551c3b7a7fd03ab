//! Finding the types of expressions.

use crate::ast;
use crate::checker_state::{
    Context, ContextView, ExprCheckError, FaultView, FieldInfo, FieldInfoView, MethodSig, Notes,
    NotesMap, Scope, VarInfo, alias_of, answer, ask, find_field, find_method, info_views, is_text,
    note_target,
};
use crate::deep_clone::deep_clone_plan_with;
use crate::diagnostics::{error2, error3, error4, error5, error6};
use crate::facts::{
    LowerBorrowInfo, LowerCallTarget, LowerOwningReadInfo, LowerPlaceInfo, TargetView, found,
    maybe_view,
};
use crate::literals::{Slot, default_negative_int_ty, default_positive_int_ty, literal_slot_unify};
use crate::match_rules::{Cover, bound_view, check_covered, check_pattern, join_arm, pattern_step};
use crate::model::{
    BuiltinCall, CtorKind, DeepClonePlan, MethodTarget, ResolvedConversion, ShallowClonePlan,
};
use crate::operators::{binary_flows_expected, binary_result_type, conversion_exists, require_value};
use crate::shallow_clone::shallow_clone_root_plan_with;
use crate::tree::{copy_method, method_view};
use crate::typed::{
    CallBuiltin, Env, Expected, MatchState, OwnershipBuiltin, Typed, arg_fault, arity_fault,
    arm_scope, bare_method, call_builtin, call_target, conversion_of, converted, ident_of,
    init_fault, is_name, is_path, joined_arms, label_fault, labelled, lone_fault, method_sig,
    method_target, name_type, name_value, no_field, no_value, noted_loan, noted_params, noted_read,
    ownership_builtin, owning_source, propagated, result_constructor, typed, typed_apply,
    typed_args, typed_arm, typed_arm_value, typed_arms, typed_binary, typed_bool, typed_borrow,
    typed_builtin, typed_call, typed_clone, typed_context, typed_context_inner, typed_conversion,
    typed_copy, typed_elems, typed_expected, typed_expected_inner, typed_field, typed_function,
    typed_holes, typed_index, typed_inferred, typed_inits, typed_inner, typed_items,
    typed_juxtapose, typed_match, typed_method, typed_method_call, typed_move, typed_operand,
    typed_payload, typed_place, typed_plain_call, typed_propagate, typed_raw, typed_result,
    typed_right, typed_shallow, typed_shape, typed_struct, typed_ternary, typed_unary, typed_value,
    typed_values, unset_field,
};
use crate::types::{
    AliasError, AliasResult, BindingId, ErrorView, FloatW, IntW, LoanId, Span, Ty, TyView, broken,
    broken_at, broken_invariant, error, fault_of, fits, number_text, told, ty_name, ty_views,
    types_match,
};
use vstd::prelude::*;

verus! {

pub open spec fn gives(r: AliasResult<Ty>, after: NotesMap, goal: Typed) -> bool {
    match goal {
        Ok((ty, notes)) => r matches Ok(found) && found@ == ty && after == notes,
        Err(error) => fault_of(r) == Some(error),
    }
}

pub open spec fn gives_expected(
    r: Result<Ty, ExprCheckError>,
    after: NotesMap,
    goal: Expected,
) -> bool {
    match goal {
        Ok((ty, notes)) => r matches Ok(found) && found@ == ty && after == notes,
        Err(fault) => r matches Err(found) && found@ == fault,
    }
}

pub open spec fn gives_notes(
    r: AliasResult<()>,
    after: NotesMap,
    goal: Result<NotesMap, ErrorView>,
) -> bool {
    match goal {
        Ok(notes) => r is Ok && after == notes,
        Err(error) => fault_of(r) == Some(error),
    }
}

/// A function type as plain values.
pub proof fn lemma_function_view(ty: Ty)
    ensures
        ty matches Ty::Func { params, ret, .. } ==> ty@->Func_params == ty_views(params@)
            && *ty@->ret == (*ret)@,
{
    match ty {
        Ty::Func { params, .. } => {
            assert(ty@->Func_params =~= ty_views(params@));
        },
        _ => {},
    }
}

pub fn classify_call_builtin(name: &String) -> (r: Option<CallBuiltin>)
    ensures
        r == call_builtin(name@),
{
    if is_text(name, "print") {
        Some(CallBuiltin::Print)
    } else if is_text(name, "println") {
        Some(CallBuiltin::Println)
    } else if is_text(name, "increase") {
        Some(CallBuiltin::Increase)
    } else if is_text(name, "decrease") {
        Some(CallBuiltin::Decrease)
    } else if is_text(name, "from") {
        Some(CallBuiltin::From)
    } else if is_text(name, "try_from") {
        Some(CallBuiltin::TryFrom)
    } else if is_text(name, "typeof") {
        Some(CallBuiltin::Typeof)
    } else {
        None
    }
}

pub fn classify_ownership_builtin(name: &String) -> (r: Option<OwnershipBuiltin>)
    ensures
        r == ownership_builtin(name@),
{
    if is_text(name, "clone") {
        Some(OwnershipBuiltin::CloneValue)
    } else if is_text(name, "shallow") {
        Some(OwnershipBuiltin::Shallow)
    } else if is_text(name, "borrow") {
        Some(OwnershipBuiltin::Borrow)
    } else if is_text(name, "move") {
        Some(OwnershipBuiltin::Move)
    } else {
        None
    }
}

pub fn classify_result_constructor(name: &String) -> (r: Option<CtorKind>)
    ensures
        r == result_constructor(name@),
{
    if is_text(name, "ok") {
        Some(CtorKind::OkCtor)
    } else if is_text(name, "err") {
        Some(CtorKind::ErrCtor)
    } else {
        None
    }
}

fn ident_name(e: &ast::Expr) -> (r: Option<&String>)
    ensures
        match r {
            Some(name) => ident_of(*e) == Some(name@),
            None => ident_of(*e) is None,
        },
{
    match &e.kind {
        ast::ExprKind::Ident(name) => Some(name),
        _ => None,
    }
}

fn bare_name(e: &ast::Expr) -> (r: bool)
    ensures
        r == is_name(*e),
{
    match &e.kind {
        ast::ExprKind::Ident(_) => true,
        ast::ExprKind::This => true,
        _ => false,
    }
}

fn check_name(e: &ast::Expr, env: &Scope, notes: &mut Notes) -> (r: AliasResult<Ty>)
    ensures
        gives(r, final(notes)@, name_type(*e, env@, old(notes)@)),
{
    match &e.kind {
        ast::ExprKind::Ident(name) => match env.get(name) {
            None => Err(error3(e.span, "未定义的绑定 '", name.as_str(), "'")),
            Some(info) => {
                notes.expr_binding_ids.insert(e.id, info.id);
                let ty = info.ty.clone();
                notes.record_expr_type(e.id, ty.clone());
                Ok(ty)
            },
        },
        _ => {
            let name = String::from_str("this");
            match env.get(&name) {
                None => Err(error(e.span, "this 只能出现在 func 体内")),
                Some(info) => {
                    let ty = info.ty.clone();
                    notes.record_expr_type(e.id, ty.clone());
                    Ok(ty)
                },
            }
        },
    }
}

fn check_name_value(e: &ast::Expr, env: &Scope, notes: &mut Notes) -> (r: AliasResult<Ty>)
    ensures
        gives(r, final(notes)@, name_value(*e, env@, old(notes)@)),
{
    let ty = match check_name(e, env, notes) {
        Ok(ty) => ty,
        Err(error) => {
            return Err(error);
        },
    };
    proof {
        lemma_function_view(ty);
    }
    if let Ty::Func { params, ret, .. } = &ty {
        if params.len() == 0 {
            let result = (**ret).clone();
            notes.record_implicit_zero_call(e.id, ty.clone(), result.clone());
            return Ok(result);
        }
    }
    Ok(ty)
}

fn need_value(ty: Ty, span: Span) -> (r: AliasResult<Ty>)
    ensures
        ty@ is Unit ==> fault_of(r) == Some(no_value(span)),
        !(ty@ is Unit) ==> r == Ok::<Ty, AliasError>(ty),
{
    require_value(ty, span)
}

/// The conversion that an expression asks for.
pub fn contextual_conversion(e: &ast::Expr) -> (r: Option<(&String, &ast::Expr)>)
    ensures
        match r {
            Some((name, arg)) => conversion_of(*e) == Some((name@, *arg)) && e.kind is Call
                && e.kind->Call_args@.len() == 1 && e.kind->Call_args@[0].value == *arg,
            None => conversion_of(*e) is None,
        },
{
    match &e.kind {
        ast::ExprKind::Call { callee, args } => match &callee.kind {
            ast::ExprKind::Ident(name) => {
                if (is_text(name, "from") || is_text(name, "try_from")) && args.len() == 1 {
                    Some((name, &args[0].value))
                } else {
                    None
                }
            },
            _ => None,
        },
        _ => None,
    }
}

/// Finds the type of an expression by itself.
pub fn check_expr(cx: &Context, e: &ast::Expr, env: &Scope, notes: &mut Notes) -> (r: AliasResult<
    Ty,
>)
    ensures
        gives(r, final(notes)@, typed(cx@, *e, env@, old(notes)@)),
    decreases e, 3nat,
{
    let result = if bare_name(e) {
        check_name_value(e, env, notes)
    } else {
        expr_inner(cx, e, env, notes)
    };
    match result {
        Err(error) => Err(error),
        Ok(ty) => {
            notes.record_expr_type(e.id, ty.clone());
            notes.record_resolved_callee(e, &ty);
            Ok(ty)
        },
    }
}

/// Finds the type of an expression by itself; a bare name is not called.
pub fn expr_raw_callable(cx: &Context, e: &ast::Expr, env: &Scope, notes: &mut Notes) -> (r:
    AliasResult<Ty>)
    ensures
        gives(r, final(notes)@, typed_raw(cx@, *e, env@, old(notes)@)),
    decreases e, 4nat,
{
    if bare_name(e) {
        check_name(e, env, notes)
    } else {
        check_expr(cx, e, env, notes)
    }
}

fn check_value(cx: &Context, e: &ast::Expr, env: &Scope, notes: &mut Notes) -> (r: AliasResult<Ty>)
    ensures
        gives(r, final(notes)@, typed_value(cx@, *e, env@, old(notes)@)),
    decreases e, 4nat,
{
    match check_expr(cx, e, env, notes) {
        Err(error) => Err(error),
        Ok(ty) => need_value(ty, e.span),
    }
}

/// Checks a condition.
pub fn require_bool(
    cx: &Context,
    e: &ast::Expr,
    env: &Scope,
    what: &str,
    notes: &mut Notes,
) -> (r: AliasResult<()>)
    ensures
        gives_notes(r, final(notes)@, typed_bool(cx@, *e, env@, what@, old(notes)@)),
    decreases e, 4nat,
{
    match check_expr(cx, e, env, notes) {
        Err(error) => Err(error),
        Ok(ty) => match ty {
            Ty::Unknown => Ok(()),
            Ty::Bool => Ok(()),
            _ => Err(error3(e.span, what, "需要 bool, 实际 ", ty.name().as_str())),
        },
    }
}

fn bypassed(e: &ast::Expr) -> (r: AliasError)
    ensures
        r@ == broken_at(e.span, "直接名字绕过统一解析入口"@),
{
    broken_invariant(e.span, "直接名字绕过统一解析入口")
}

/// Finds the type of an expression that is no bare name.
pub fn expr_inner(cx: &Context, e: &ast::Expr, env: &Scope, notes: &mut Notes) -> (r: AliasResult<
    Ty,
>)
    ensures
        gives(r, final(notes)@, typed_inner(cx@, *e, env@, old(notes)@)),
    decreases e, 2nat,
{
    match &e.kind {
        ast::ExprKind::Int(value) => Ok(default_positive_int_ty(*value)),
        ast::ExprKind::Float(_) => Ok(Ty::Float(FloatW::F64)),
        ast::ExprKind::Bool(_) => Ok(Ty::Bool),
        ast::ExprKind::Str(parts) => match check_holes(cx, parts, env, notes) {
            Ok(()) => Ok(Ty::Str),
            Err(error) => Err(error),
        },
        ast::ExprKind::Ident(_) | ast::ExprKind::This => Err(bypassed(e)),
        ast::ExprKind::Cast { .. } | ast::ExprKind::Neg { .. } | ast::ExprKind::Not { .. }
        | ast::ExprKind::BitNot { .. } => check_unary(cx, e, env, notes),
        ast::ExprKind::Binary { .. } => check_binary(cx, e, env, notes),
        ast::ExprKind::Ternary { .. } => check_ternary(cx, e, env, notes),
        ast::ExprKind::Call { .. } => check_call(cx, e, env, notes),
        ast::ExprKind::Juxtapose { .. } => check_juxtapose(cx, e, env, notes),
        ast::ExprKind::MethodCall { .. } => method_call(cx, e, env, notes),
        ast::ExprKind::Index { .. } => check_index(cx, e, env, notes),
        ast::ExprKind::ArrayLit { elems } => match check_elems(cx, elems, env, notes) {
            Ok(Some(ty)) => Ok(Ty::Array(Box::new(ty))),
            Ok(None) => {
                assert(Ty::Unknown@ == TyView::Unknown);
                Ok(Ty::Array(Box::new(Ty::Unknown)))
            },
            Err(error) => Err(error),
        },
        ast::ExprKind::Field { .. } => check_field(cx, e, env, notes),
        ast::ExprKind::FuncLit { .. } => check_function(cx, e, notes),
        ast::ExprKind::Match { .. } => match match_expr(cx, e, env, None, notes) {
            Ok(ty) => Ok(ty),
            Err(fault) => Err(fault.into_alias()),
        },
        ast::ExprKind::Propagate { .. } => propagate(cx, e, env, notes),
    }
}

proof fn lemma_holes_stop(
    cx: ContextView,
    parts: Seq<ast::StrPart>,
    env: Env,
    notes: NotesMap,
    at: nat,
    upto: nat,
)
    requires
        at <= upto <= parts.len(),
        typed_holes(cx, parts, env, notes, at) is Err,
    ensures
        typed_holes(cx, parts, env, notes, upto) == typed_holes(cx, parts, env, notes, at),
    decreases upto - at,
{
    if at < upto {
        lemma_holes_stop(cx, parts, env, notes, at, (upto - 1) as nat);
    }
}

fn check_hole(cx: &Context, hole: &ast::Expr, env: &Scope, notes: &mut Notes) -> (r: AliasResult<
    (),
>)
    ensures
        gives_notes(
            r,
            final(notes)@,
            if conversion_of(*hole) is Some {
                match typed_expected(cx@, *hole, env@, TyView::Str, old(notes)@) {
                    Err(fault) => Err(alias_of(fault)),
                    Ok((_, after)) => Ok(after),
                }
            } else {
                match typed_value(cx@, *hole, env@, old(notes)@) {
                    Err(error) => Err(error),
                    Ok((_, after)) => Ok(after),
                }
            },
        ),
    decreases hole, 10nat,
{
    if contextual_conversion(hole).is_some() {
        match expr_expected(cx, hole, env, &Ty::Str, notes) {
            Ok(_) => Ok(()),
            Err(fault) => Err(fault.into_alias()),
        }
    } else {
        match check_value(cx, hole, env, notes) {
            Ok(_) => Ok(()),
            Err(error) => Err(error),
        }
    }
}

fn check_holes(cx: &Context, parts: &Vec<ast::StrPart>, env: &Scope, notes: &mut Notes) -> (r:
    AliasResult<()>)
    ensures
        gives_notes(
            r,
            final(notes)@,
            typed_holes(cx@, parts@, env@, old(notes)@, parts@.len()),
        ),
    decreases parts, 0nat,
{
    let ghost start = notes@;
    let mut i: usize = 0;
    while i < parts.len()
        invariant
            i <= parts.len(),
            start == old(notes)@,
            typed_holes(cx@, parts@, env@, start, i as nat) == Ok::<NotesMap, ErrorView>(notes@),
        decreases parts.len() - i,
    {
        if let ast::StrPart::Hole(hole) = &parts[i] {
            match check_hole(cx, hole, env, notes) {
                Ok(()) => {},
                Err(error) => {
                    proof {
                        lemma_holes_stop(
                            cx@,
                            parts@,
                            env@,
                            start,
                            (i + 1) as nat,
                            parts@.len(),
                        );
                    }
                    return Err(error);
                },
            }
        }
        i += 1;
    }
    Ok(())
}

fn check_unary(cx: &Context, e: &ast::Expr, env: &Scope, notes: &mut Notes) -> (r: AliasResult<Ty>)
    ensures
        gives(r, final(notes)@, typed_unary(cx@, *e, env@, old(notes)@)),
    decreases e, 1nat,
{
    match &e.kind {
        ast::ExprKind::Cast { target, expr } => {
            let goal = match ask(&cx.slots, target.id, e.span) {
                Ok(goal) => goal,
                Err(error) => {
                    return Err(error);
                },
            };
            match check_value(cx, expr, env, notes) {
                Err(error) => Err(error),
                Ok(source) => if conversion_exists(&source, goal) {
                    Ok(goal.clone())
                } else {
                    Err(
                        error5(
                            e.span,
                            "不存在 ",
                            source.name().as_str(),
                            " → ",
                            goal.name().as_str(),
                            " 转换",
                        ),
                    )
                },
            }
        },
        ast::ExprKind::Neg { expr } => match &expr.kind {
            ast::ExprKind::Int(magnitude) => match default_negative_int_ty(*magnitude) {
                Some(ty) => Ok(ty),
                None => Err(error(expr.span, "负整数字面量超出 i64 表示范围")),
            },
            _ => match check_expr(cx, expr, env, notes) {
                Err(error) => Err(error),
                Ok(ty) => match ty {
                    Ty::Unknown => Ok(Ty::Unknown),
                    Ty::Int(w) => Ok(Ty::Int(w)),
                    Ty::Float(w) => Ok(Ty::Float(w)),
                    _ => Err(
                        error2(
                            expr.span,
                            "取负需要有符号整数或浮点, 实际 ",
                            ty.name().as_str(),
                        ),
                    ),
                },
            },
        },
        ast::ExprKind::Not { expr } => match require_bool(cx, expr, env, "! 操作数", notes) {
            Ok(()) => Ok(Ty::Bool),
            Err(error) => Err(error),
        },
        ast::ExprKind::BitNot { expr } => match check_expr(cx, expr, env, notes) {
            Err(error) => Err(error),
            Ok(ty) => match ty {
                Ty::Unknown => Ok(Ty::Unknown),
                Ty::Int(w) => Ok(Ty::Int(w)),
                Ty::UInt(w) => Ok(Ty::UInt(w)),
                _ => Err(error2(expr.span, "~ 操作数需要整数, 实际 ", ty.name().as_str())),
            },
        },
        _ => Err(bypassed(e)),
    }
}

fn check_right(cx: &Context, left: &Ty, rhs: &ast::Expr, env: &Scope, notes: &mut Notes) -> (r:
    AliasResult<Ty>)
    ensures
        gives(r, final(notes)@, typed_right(cx@, left@, *rhs, env@, old(notes)@)),
    decreases rhs, 4nat,
{
    if !matches!(left, Ty::Int(_) | Ty::UInt(_)) {
        return check_expr(cx, rhs, env, notes);
    }
    match literal_slot_unify(left, rhs) {
        Slot::Other => check_expr(cx, rhs, env, notes),
        Slot::Takes => {
            let ty = left.clone();
            notes.record_expr_type(rhs.id, ty.clone());
            notes.record_literal_components(rhs, &ty);
            Ok(ty)
        },
        Slot::OutOfRange(literal) => Err(
            ExprCheckError::LiteralOutOfRange {
                literal,
                expected: left.clone(),
                span: rhs.span,
            }.into_alias(),
        ),
    }
}

fn check_binary(cx: &Context, e: &ast::Expr, env: &Scope, notes: &mut Notes) -> (r: AliasResult<Ty>)
    ensures
        gives(r, final(notes)@, typed_binary(cx@, *e, env@, old(notes)@)),
    decreases e, 1nat,
{
    match &e.kind {
        ast::ExprKind::Binary { op, lhs: first, rhs: second } => {
            let left = match check_expr(cx, first, env, notes) {
                Ok(left) => left,
                Err(error) => {
                    return Err(error);
                },
            };
            match check_right(cx, &left, second, env, notes) {
                Err(error) => Err(error),
                Ok(right) => binary_result_type(*op, &left, &right, e.span),
            }
        },
        _ => Err(bypassed(e)),
    }
}

fn check_ternary(cx: &Context, e: &ast::Expr, env: &Scope, notes: &mut Notes) -> (r: AliasResult<
    Ty,
>)
    ensures
        gives(r, final(notes)@, typed_ternary(cx@, *e, env@, old(notes)@)),
    decreases e, 1nat,
{
    match &e.kind {
        ast::ExprKind::Ternary { cond, then_expr, else_expr } => {
            match require_bool(cx, cond, env, "?: 条件", notes) {
                Ok(()) => {},
                Err(error) => {
                    return Err(error);
                },
            }
            let a = match check_expr(cx, then_expr, env, notes) {
                Ok(a) => a,
                Err(error) => {
                    return Err(error);
                },
            };
            match check_expr(cx, else_expr, env, notes) {
                Err(error) => Err(error),
                Ok(b) => {
                    if a.is_unknown() {
                        Ok(b)
                    } else if b.is_unknown() || types_match(&a, &b) {
                        Ok(a)
                    } else {
                        Err(
                            error4(
                                e.span,
                                "?: 两个值分支类型不一致: ",
                                a.name().as_str(),
                                " 与 ",
                                b.name().as_str(),
                            ),
                        )
                    }
                },
            }
        },
        _ => Err(bypassed(e)),
    }
}

fn check_index(cx: &Context, e: &ast::Expr, env: &Scope, notes: &mut Notes) -> (r: AliasResult<Ty>)
    ensures
        gives(r, final(notes)@, typed_index(cx@, *e, env@, old(notes)@)),
    decreases e, 1nat,
{
    match &e.kind {
        ast::ExprKind::Index { recv, idx } => {
            let ty = match check_expr(cx, recv, env, notes) {
                Ok(ty) => ty,
                Err(error) => {
                    return Err(error);
                },
            };
            match ty {
                Ty::Unknown => Ok(Ty::Unknown),
                Ty::Array(elem) => match check_expr(cx, idx, env, notes) {
                    Err(error) => Err(error),
                    Ok(index) => match index {
                        Ty::Unknown => Ok(*elem),
                        Ty::Int(IntW::W32) => Ok(*elem),
                        _ => Err(
                            error2(idx.span, "下标需要 i32, 实际 ", index.name().as_str()),
                        ),
                    },
                },
                _ => Err(
                    error2(recv.span, "下标访问需要 array 类型, 实际 ", ty.name().as_str()),
                ),
            }
        },
        _ => Err(bypassed(e)),
    }
}

fn on_path(e: &ast::Expr) -> (r: bool)
    ensures
        r == is_path(*e),
    decreases e,
{
    match &e.kind {
        ast::ExprKind::Ident(_) => true,
        ast::ExprKind::Field { recv, .. } => on_path(recv),
        ast::ExprKind::Index { recv, .. } => on_path(recv),
        _ => false,
    }
}

/// The place behind an expression that is read into a slot that owns its value.
pub fn owning_read_source<'a>(notes: &Notes, e: &'a ast::Expr) -> (r: Option<&'a ast::Expr>)
    ensures
        match owning_source(notes@, *e) {
            Some(source) => r matches Some(found) && *found == source,
            None => r is None,
        },
    decreases e,
{
    match &e.kind {
        ast::ExprKind::Call { args, .. } => {
            let same = match notes.exprs.get(e.id) {
                Some(info) => match &info.call_target {
                    Some(
                        LowerCallTarget::ContextualConversion(ResolvedConversion::Identity),
                    ) => true,
                    _ => false,
                },
                None => false,
            };
            if same && args.len() == 1 {
                owning_read_source(notes, &args[0].value)
            } else {
                None
            }
        },
        _ => if on_path(e) {
            Some(e)
        } else {
            None
        },
    }
}

fn copy_place(place: &LowerPlaceInfo) -> (r: LowerPlaceInfo)
    ensures
        r@ == place@,
    decreases place,
{
    match place {
        LowerPlaceInfo::Local { binding_id, ty } => LowerPlaceInfo::Local {
            binding_id: *binding_id,
            ty: ty.clone(),
        },
        LowerPlaceInfo::Field { base, field_index, ty } => LowerPlaceInfo::Field {
            base: Box::new(copy_place(base)),
            field_index: *field_index,
            ty: ty.clone(),
        },
        LowerPlaceInfo::Index { base, ty } => LowerPlaceInfo::Index {
            base: Box::new(copy_place(base)),
            ty: ty.clone(),
        },
    }
}

/// Records an expression that is read into a slot that owns its value.
pub fn record_owning_slot_read(cx: &Context, e: &ast::Expr, expected: &Ty, notes: &mut Notes) -> (r:
    AliasResult<()>)
    ensures
        gives_notes(r, final(notes)@, noted_read(cx@, *e, expected@, old(notes)@)),
{
    let source = match owning_read_source(notes, e) {
        Some(source) => source,
        None => {
            return Ok(());
        },
    };
    match notes.exprs.get(source.id) {
        None => {
            return Err(
                broken_invariant(source.span, "owning-slot read 缺少表达式类型 fact"),
            );
        },
        Some(info) => {
            if info.implicit_zero_callee.is_some() {
                return Ok(());
            }
            if !types_match(expected, &info.ty) {
                return Err(
                    broken_invariant(source.span, "owning-slot read 类型与目标槽不一致"),
                );
            }
        },
    }
    let place = match ask(&cx.places, source.id, source.span) {
        Ok(place) => place,
        Err(error) => {
            return Err(error);
        },
    };
    if !types_match(place.ty(), expected) {
        return Err(broken_invariant(source.span, "owning-slot read Place 类型漂移"));
    }
    match deep_clone_plan_with(expected, source.span, &cx.structs.types) {
        Err(error) => Err(error),
        Ok(plan) => {
            notes.owning_reads.insert(
                source.id,
                LowerOwningReadInfo { place: copy_place(place), plan },
            );
            Ok(())
        },
    }
}

proof fn lemma_elems_stop(
    cx: ContextView,
    elems: Seq<ast::Expr>,
    env: Env,
    notes: NotesMap,
    at: nat,
    upto: nat,
)
    requires
        at <= upto <= elems.len(),
        typed_elems(cx, elems, env, notes, at) is Err,
    ensures
        typed_elems(cx, elems, env, notes, upto) == typed_elems(cx, elems, env, notes, at),
    decreases upto - at,
{
    if at < upto {
        lemma_elems_stop(cx, elems, env, notes, at, (upto - 1) as nat);
    }
}

fn check_elem(
    cx: &Context,
    item: &ast::Expr,
    first: &Option<Ty>,
    env: &Scope,
    notes: &mut Notes,
) -> (r: AliasResult<Ty>)
    ensures
        match typed_value(cx@, *item, env@, old(notes)@) {
            Err(error) => fault_of(r) == Some(error),
            Ok((ty, read)) => match noted_read(cx@, *item, ty, read) {
                Err(error) => fault_of(r) == Some(error),
                Ok(after) => match maybe_view(*first) {
                    Some(known) => if fits(known, ty) {
                        r matches Ok(found) && found@ == ty && final(notes)@ == after
                    } else {
                        fault_of(r) == Some(
                            told(
                                item.span,
                                "数组元素类型不一致: "@ + ty_name(known) + " 与 "@ + ty_name(ty),
                            ),
                        )
                    },
                    None => r matches Ok(found) && found@ == ty && final(notes)@ == after,
                },
            },
        },
    decreases item, 5nat,
{
    let ty = match check_value(cx, item, env, notes) {
        Ok(ty) => ty,
        Err(error) => {
            return Err(error);
        },
    };
    match record_owning_slot_read(cx, item, &ty, notes) {
        Ok(()) => {},
        Err(error) => {
            return Err(error);
        },
    }
    if let Some(known) = first {
        if !types_match(known, &ty) {
            return Err(
                error4(
                    item.span,
                    "数组元素类型不一致: ",
                    known.name().as_str(),
                    " 与 ",
                    ty.name().as_str(),
                ),
            );
        }
    }
    Ok(ty)
}

fn check_elems(cx: &Context, elems: &Vec<ast::Expr>, env: &Scope, notes: &mut Notes) -> (r:
    AliasResult<Option<Ty>>)
    ensures
        match typed_elems(cx@, elems@, env@, old(notes)@, elems@.len()) {
            Ok((ty, after)) => r matches Ok(found) && maybe_view(found) == ty && final(notes)@
                == after,
            Err(error) => fault_of(r) == Some(error),
        },
    decreases elems, 0nat,
{
    let ghost start = notes@;
    let mut first: Option<Ty> = None;
    let mut i: usize = 0;
    while i < elems.len()
        invariant
            i <= elems.len(),
            start == old(notes)@,
            typed_elems(cx@, elems@, env@, start, i as nat) == Ok::<
                (Option<TyView>, NotesMap),
                ErrorView,
            >((maybe_view(first), notes@)),
        decreases elems.len() - i,
    {
        match check_elem(cx, &elems[i], &first, env, notes) {
            Ok(ty) => {
                if first.is_none() {
                    first = Some(ty);
                }
            },
            Err(error) => {
                proof {
                    lemma_elems_stop(cx@, elems@, env@, start, (i + 1) as nat, elems@.len());
                }
                return Err(error);
            },
        }
        i += 1;
    }
    Ok(first)
}

fn missing_field(owner: &String, name: &String, span: Span) -> (r: AliasError)
    ensures
        r@ == no_field(owner@, name@, span),
{
    error5(span, "结构体 ", owner.as_str(), " 没有字段 '", name.as_str(), "'")
}

fn check_field(cx: &Context, e: &ast::Expr, env: &Scope, notes: &mut Notes) -> (r: AliasResult<Ty>)
    ensures
        gives(r, final(notes)@, typed_field(cx@, *e, env@, old(notes)@)),
    decreases e, 1nat,
{
    match &e.kind {
        ast::ExprKind::Field { recv, name } => {
            let ty = match check_expr(cx, recv, env, notes) {
                Ok(ty) => ty,
                Err(error) => {
                    return Err(error);
                },
            };
            match &ty {
                Ty::Unknown => Ok(Ty::Unknown),
                Ty::Struct(owner) => match cx.structs.get(owner) {
                    None => Err(missing_field(owner, name, e.span)),
                    Some(fields) => match find_field(fields, name) {
                        None => Err(missing_field(owner, name, e.span)),
                        Some(index) => {
                            notes.field_indices.insert(e.id, index);
                            Ok(fields[index].ty.clone())
                        },
                    },
                },
                _ => Err(
                    error4(e.span, ty.name().as_str(), " 没有字段 '", name.as_str(), "'"),
                ),
            }
        },
        _ => Err(bypassed(e)),
    }
}

/// Records the parameters of a function.
pub fn record_params(
    params: &Vec<ast::Param>,
    types: &Vec<Ty>,
    ids: &Vec<BindingId>,
    skip: usize,
    notes: &mut Notes,
)
    requires
        types@.len() == skip + params@.len(),
        ids@.len() == skip + params@.len(),
    ensures
        final(notes)@ == noted_params(
            params@,
            ty_views(types@).skip(skip as int),
            ids@.skip(skip as int),
            old(notes)@,
            params@.len(),
        ),
{
    let ghost start = notes@;
    let ghost wants = ty_views(types@).skip(skip as int);
    let ghost vars = ids@.skip(skip as int);
    let mut i: usize = 0;
    while i < params.len()
        invariant
            i <= params.len(),
            start == old(notes)@,
            wants == ty_views(types@).skip(skip as int),
            vars == ids@.skip(skip as int),
            types.len() == skip + params@.len(),
            ids.len() == skip + params@.len(),
            notes@ == noted_params(params@, wants, vars, start, i as nat),
        decreases params.len() - i,
    {
        assert(wants[i as int] == types@[skip + i]@);
        assert(vars[i as int] == ids@[skip + i]);
        notes.params.insert(params[i].id, types[skip + i].clone());
        notes.param_ids.insert(params[i].id, ids[skip + i]);
        i += 1;
    }
}

fn check_function(cx: &Context, e: &ast::Expr, notes: &mut Notes) -> (r: AliasResult<Ty>)
    ensures
        gives(r, final(notes)@, typed_function(cx@, *e, old(notes)@)),
{
    match &e.kind {
        ast::ExprKind::FuncLit { params, .. } => {
            let answer = match ask(&cx.functions, e.id, e.span) {
                Ok(answer) => answer,
                Err(error) => {
                    return Err(error);
                },
            };
            proof {
                lemma_function_view(answer.ty);
            }
            if let Ty::Func { params: types, .. } = &answer.ty {
                if types.len() != params.len() || answer.ids.len() != params.len() {
                    return Err(broken_invariant(e.span, "函数参数 fact 数量不一致"));
                }
                proof {
                    assert(ty_views(types@).skip(0) =~= ty_views(types@));
                    assert(answer.ids@.skip(0) =~= answer.ids@);
                }
                record_params(params, types, &answer.ids, 0, notes);
            }
            Ok(answer.ty.clone())
        },
        _ => Err(bypassed(e)),
    }
}

fn hand_on(ty: Ty, fn_ret: &Option<Ty>, span: Span) -> (r: AliasResult<Ty>)
    ensures
        match propagated(ty@, maybe_view(*fn_ret), span) {
            Ok(value) => r matches Ok(found) && found@ == value,
            Err(error) => fault_of(r) == Some(error),
        },
{
    match ty {
        Ty::Unknown => Ok(Ty::Unknown),
        Ty::Result(value, failure) => match fn_ret {
            None => Err(error(span, "? 需要所在函数返回 result 类型")),
            Some(ret) => match ret {
                Ty::Result(_, wanted) => if types_match(wanted, &failure) {
                    Ok(*value)
                } else {
                    Err(
                        error4(
                            span,
                            "? 错误类型不匹配: 表达式错误为 ",
                            failure.name().as_str(),
                            ", 所在函数错误为 ",
                            wanted.name().as_str(),
                        ),
                    )
                },
                _ => Err(
                    error2(
                        span,
                        "? 需要所在函数返回 result 类型, 实际 ",
                        ret.name().as_str(),
                    ),
                ),
            },
        },
        _ => Err(error2(span, "? 只能作用于 result 值, 实际 ", ty.name().as_str())),
    }
}

/// Finds what is left of a result when its error is handed on.
pub fn propagate(cx: &Context, e: &ast::Expr, env: &Scope, notes: &mut Notes) -> (r: AliasResult<Ty>)
    ensures
        gives(r, final(notes)@, typed_propagate(cx@, *e, env@, old(notes)@)),
    decreases e, 1nat,
{
    match &e.kind {
        ast::ExprKind::Propagate { expr } => match check_expr(cx, expr, env, notes) {
            Err(error) => Err(error),
            Ok(ty) => hand_on(ty, &cx.fn_ret, e.span),
        },
        _ => Err(bypassed(e)),
    }
}

fn check_labels(args: &Vec<ast::CallArg>, what: &str) -> (r: AliasResult<()>)
    ensures
        fault_of(r) == label_fault(args@, what@),
{
    let mut i: usize = 0;
    while i < args.len()
        invariant
            i <= args.len(),
            labelled(args@, 0) == labelled(args@, i as int),
        decreases args.len() - i,
    {
        if let Some(label) = &args[i].label {
            return Err(error4(args[i].span, what, " '", label.as_str(), "'"));
        }
        i += 1;
    }
    Ok(())
}

fn arg_error(i: usize, want: &Ty, fault: ExprCheckError, span: Span) -> (r: AliasError)
    requires
        i < usize::MAX,
    ensures
        r@ == arg_fault(i as int, want@, fault@, span),
{
    match fault {
        ExprCheckError::Mismatch { actual, .. } => error6(
            span,
            "第 ",
            number_text(i as u64 + 1).as_str(),
            " 个实参需要 ",
            want.name().as_str(),
            ", 实际 ",
            actual.name().as_str(),
        ),
        other => other.into_alias(),
    }
}

proof fn lemma_args_stop(
    cx: ContextView,
    args: Seq<ast::CallArg>,
    wants: Seq<TyView>,
    env: Env,
    notes: NotesMap,
    at: nat,
    upto: nat,
)
    requires
        at <= upto <= args.len(),
        typed_args(cx, args, wants, env, notes, at) is Err,
    ensures
        typed_args(cx, args, wants, env, notes, upto) == typed_args(
            cx,
            args,
            wants,
            env,
            notes,
            at,
        ),
    decreases upto - at,
{
    if at < upto {
        lemma_args_stop(cx, args, wants, env, notes, at, (upto - 1) as nat);
    }
}

fn check_args(
    cx: &Context,
    args: &Vec<ast::CallArg>,
    wants: &Vec<Ty>,
    env: &Scope,
    notes: &mut Notes,
) -> (r: AliasResult<()>)
    requires
        args@.len() == wants@.len(),
    ensures
        gives_notes(
            r,
            final(notes)@,
            typed_args(cx@, args@, ty_views(wants@), env@, old(notes)@, args@.len()),
        ),
    decreases args, 0nat,
{
    let ghost start = notes@;
    let mut i: usize = 0;
    while i < args.len()
        invariant
            i <= args.len(),
            args@.len() == wants@.len(),
            start == old(notes)@,
            typed_args(cx@, args@, ty_views(wants@), env@, start, i as nat) == Ok::<
                NotesMap,
                ErrorView,
            >(notes@),
        decreases args.len() - i,
    {
        match expr_expected(cx, &args[i].value, env, &wants[i], notes) {
            Ok(_) => {},
            Err(fault) => {
                proof {
                    lemma_args_stop(
                        cx@,
                        args@,
                        ty_views(wants@),
                        env@,
                        start,
                        (i + 1) as nat,
                        args@.len(),
                    );
                }
                return Err(arg_error(i, &wants[i], fault, args[i].value.span));
            },
        }
        i += 1;
    }
    Ok(())
}

proof fn lemma_values_stop(
    cx: ContextView,
    args: Seq<ast::CallArg>,
    env: Env,
    notes: NotesMap,
    at: nat,
    upto: nat,
)
    requires
        at <= upto <= args.len(),
        typed_values(cx, args, env, notes, at) is Err,
    ensures
        typed_values(cx, args, env, notes, upto) == typed_values(cx, args, env, notes, at),
    decreases upto - at,
{
    if at < upto {
        lemma_values_stop(cx, args, env, notes, at, (upto - 1) as nat);
    }
}

fn check_values(cx: &Context, args: &Vec<ast::CallArg>, env: &Scope, notes: &mut Notes) -> (r:
    AliasResult<()>)
    ensures
        gives_notes(
            r,
            final(notes)@,
            typed_values(cx@, args@, env@, old(notes)@, args@.len()),
        ),
    decreases args, 0nat,
{
    let ghost start = notes@;
    let mut i: usize = 0;
    while i < args.len()
        invariant
            i <= args.len(),
            start == old(notes)@,
            typed_values(cx@, args@, env@, start, i as nat) == Ok::<NotesMap, ErrorView>(notes@),
        decreases args.len() - i,
    {
        match check_value(cx, &args[i].value, env, notes) {
            Ok(_) => {},
            Err(error) => {
                proof {
                    lemma_values_stop(cx@, args@, env@, start, (i + 1) as nat, args@.len());
                }
                return Err(error);
            },
        }
        i += 1;
    }
    Ok(())
}

fn arity_error(wanted: usize, given: usize, span: Span) -> (r: AliasError)
    ensures
        r@ == arity_fault(wanted as nat, given as nat, span),
{
    error5(
        span,
        "期望 ",
        number_text(wanted as u64).as_str(),
        " 个参数, 实际 ",
        number_text(given as u64).as_str(),
        " 个",
    )
}

fn apply(cx: &Context, e: &ast::Expr, env: &Scope, notes: &mut Notes) -> (r: AliasResult<Ty>)
    ensures
        gives(r, final(notes)@, typed_apply(cx@, *e, env@, old(notes)@)),
    decreases e, 0nat,
{
    match &e.kind {
        ast::ExprKind::Call { callee, args } => {
            let ty = match expr_raw_callable(cx, callee, env, notes) {
                Ok(ty) => ty,
                Err(error) => {
                    return Err(error);
                },
            };
            proof {
                lemma_function_view(ty);
            }
            match &ty {
                Ty::Func { params, ret, .. } => {
                    if args.len() != params.len() {
                        return Err(arity_error(params.len(), args.len(), e.span));
                    }
                    match check_args(cx, args, params, env, notes) {
                        Ok(()) => Ok((**ret).clone()),
                        Err(error) => Err(error),
                    }
                },
                Ty::FuncPoly | Ty::Unknown => match check_values(cx, args, env, notes) {
                    Ok(()) => Ok(Ty::Unknown),
                    Err(error) => Err(error),
                },
                _ => Err(error2(e.span, ty.name().as_str(), " 不是可调用值")),
            }
        },
        _ => Err(bypassed(e)),
    }
}

fn check_builtin(
    cx: &Context,
    builtin: CallBuiltin,
    name: &String,
    e: &ast::Expr,
    env: &Scope,
    notes: &mut Notes,
) -> (r: AliasResult<Ty>)
    ensures
        gives(r, final(notes)@, typed_builtin(cx@, builtin, name@, *e, env@, old(notes)@)),
    decreases e, 0nat,
{
    let args = match &e.kind {
        ast::ExprKind::Call { args, .. } => args,
        _ => {
            return Err(bypassed(e));
        },
    };
    match builtin {
        CallBuiltin::Increase | CallBuiltin::Decrease => Err(
            error2(e.span, name.as_str(), " 只能作为独立语句使用"),
        ),
        CallBuiltin::Print | CallBuiltin::Println => {
            if args.len() != 1 {
                return Err(error2(e.span, name.as_str(), " 恰好接受 1 个参数"));
            }
            match check_value(cx, &args[0].value, env, notes) {
                Ok(_) => Ok(Ty::Unit),
                Err(error) => Err(error),
            }
        },
        CallBuiltin::From | CallBuiltin::TryFrom => {
            if args.len() != 1 {
                return Err(error2(e.span, name.as_str(), " 恰好接受 1 个参数"));
            }
            match check_value(cx, &args[0].value, env, notes) {
                Ok(_) => Err(error2(e.span, name.as_str(), " 需要目标类型上下文")),
                Err(error) => Err(error),
            }
        },
        CallBuiltin::Typeof => {
            if args.len() != 1 {
                return Err(error2(e.span, "typeof", " 恰好接受 1 个参数"));
            }
            let ty = match expr_raw_callable(cx, &args[0].value, env, notes) {
                Ok(ty) => ty,
                Err(error) => {
                    return Err(error);
                },
            };
            match need_value(ty, args[0].value.span) {
                Err(error) => Err(error),
                Ok(ty) => if ty.contains_unknown() {
                    Err(error(args[0].value.span, "typeof 无法确定实参的静态类型"))
                } else {
                    Ok(Ty::Str)
                },
            }
        },
    }
}

proof fn lemma_inits_stop(
    cx: ContextView,
    name: Seq<char>,
    fields: Seq<FieldInfoView>,
    args: Seq<ast::CallArg>,
    env: Env,
    notes: NotesMap,
    at: nat,
    upto: nat,
)
    requires
        at <= upto <= args.len(),
        typed_inits(cx, name, fields, args, env, notes, at) is Err,
    ensures
        typed_inits(cx, name, fields, args, env, notes, upto) == typed_inits(
            cx,
            name,
            fields,
            args,
            env,
            notes,
            at,
        ),
    decreases upto - at,
{
    if at < upto {
        lemma_inits_stop(cx, name, fields, args, env, notes, at, (upto - 1) as nat);
    }
}

/// The fields that are set.
pub open spec fn set_of(flags: Seq<bool>) -> Set<int> {
    Set::new(|i: int| 0 <= i < flags.len() && flags[i])
}

fn init_error(label: &String, want: &Ty, fault: ExprCheckError, span: Span) -> (r: AliasError)
    ensures
        r@ == init_fault(label@, want@, fault@, span),
{
    match fault {
        ExprCheckError::Mismatch { actual, .. } => error6(
            span,
            "字段 '",
            label.as_str(),
            "' 需要 ",
            want.name().as_str(),
            ", 实际 ",
            actual.name().as_str(),
        ),
        other => other.into_alias(),
    }
}

fn check_inits(
    cx: &Context,
    name: &String,
    fields: &Vec<FieldInfo>,
    args: &Vec<ast::CallArg>,
    env: &Scope,
    notes: &mut Notes,
) -> (r: AliasResult<Vec<bool>>)
    ensures
        match typed_inits(
            cx@,
            name@,
            info_views(fields@),
            args@,
            env@,
            old(notes)@,
            args@.len(),
        ) {
            Ok((set, after)) => r matches Ok(flags) && set_of(flags@) == set && flags@.len()
                == fields@.len() && final(notes)@ == after,
            Err(error) => fault_of(r) == Some(error),
        },
    decreases args, 0nat,
{
    let ghost start = notes@;
    let ghost views = info_views(fields@);
    let mut flags: Vec<bool> = Vec::new();
    let mut k: usize = 0;
    while k < fields.len()
        invariant
            k <= fields.len(),
            flags@.len() == k,
            forall|j: int| 0 <= j < k ==> !flags@[j],
        decreases fields.len() - k,
    {
        flags.push(false);
        k += 1;
    }
    assert(set_of(flags@) =~= Set::empty());
    let mut i: usize = 0;
    while i < args.len()
        invariant
            i <= args.len(),
            start == old(notes)@,
            views == info_views(fields@),
            flags@.len() == fields@.len(),
            typed_inits(cx@, name@, views, args@, env@, start, i as nat) == Ok::<
                (Set<int>, NotesMap),
                ErrorView,
            >((set_of(flags@), notes@)),
        decreases args.len() - i,
    {
        let arg = &args[i];
        let ghost before = flags@;
        let label = match &arg.label {
            Some(label) => label,
            None => {
                proof {
                    lemma_inits_stop(
                        cx@,
                        name@,
                        views,
                        args@,
                        env@,
                        start,
                        (i + 1) as nat,
                        args@.len(),
                    );
                }
                return Err(
                    error3(arg.span, "结构体 ", name.as_str(), " 构造必须使用命名实参"),
                );
            },
        };
        let index = match find_field(fields, label) {
            Some(index) => index,
            None => {
                proof {
                    lemma_inits_stop(
                        cx@,
                        name@,
                        views,
                        args@,
                        env@,
                        start,
                        (i + 1) as nat,
                        args@.len(),
                    );
                }
                return Err(missing_field(name, label, arg.span));
            },
        };
        if flags[index] {
            proof {
                lemma_inits_stop(
                    cx@,
                    name@,
                    views,
                    args@,
                    env@,
                    start,
                    (i + 1) as nat,
                    args@.len(),
                );
            }
            return Err(
                error5(
                    arg.span,
                    "结构体 ",
                    name.as_str(),
                    " 构造重复指定字段 '",
                    label.as_str(),
                    "'",
                ),
            );
        }
        flags.set(index, true);
        notes.ctor_arg_indices.insert(arg.id, index);
        match expr_expected(cx, &arg.value, env, &fields[index].ty, notes) {
            Ok(_) => {},
            Err(fault) => {
                proof {
                    lemma_inits_stop(
                        cx@,
                        name@,
                        views,
                        args@,
                        env@,
                        start,
                        (i + 1) as nat,
                        args@.len(),
                    );
                }
                return Err(init_error(label, &fields[index].ty, fault, arg.value.span));
            },
        }
        assert(set_of(flags@) =~= set_of(before).insert(index as int));
        i += 1;
    }
    Ok(flags)
}

/// Checks the construction of a struct.
pub fn construct(
    cx: &Context,
    name: &String,
    fields: &Vec<FieldInfo>,
    args: &Vec<ast::CallArg>,
    span: Span,
    env: &Scope,
    notes: &mut Notes,
) -> (r: AliasResult<Ty>)
    ensures
        gives(
            r,
            final(notes)@,
            typed_struct(cx@, name@, info_views(fields@), args@, span, env@, old(notes)@),
        ),
    decreases args, 1nat,
{
    let flags = match check_inits(cx, name, fields, args, env, notes) {
        Ok(flags) => flags,
        Err(error) => {
            return Err(error);
        },
    };
    let ghost views = info_views(fields@);
    let ghost set = set_of(flags@);
    let mut i: usize = 0;
    while i < fields.len()
        invariant
            i <= fields.len(),
            views == info_views(fields@),
            set == set_of(flags@),
            flags@.len() == fields@.len(),
            unset_field(views, set, 0) == unset_field(views, set, i as int),
            typed_inits(cx@, name@, views, args@, env@, old(notes)@, args@.len()) == Ok::<
                (Set<int>, NotesMap),
                ErrorView,
            >((set, notes@)),
        decreases fields.len() - i,
    {
        if !flags[i] && !fields[i].has_default {
            return Err(
                error5(
                    span,
                    "结构体 ",
                    name.as_str(),
                    " 构造缺少字段 '",
                    fields[i].name.as_str(),
                    "'",
                ),
            );
        }
        i += 1;
    }
    Ok(Ty::Struct(name.clone()))
}

/// Checks the construction of a result.
pub fn result_ctor(
    cx: &Context,
    name: &String,
    kind: CtorKind,
    e: &ast::Expr,
    env: &Scope,
    notes: &mut Notes,
) -> (r: AliasResult<Ty>)
    ensures
        gives(r, final(notes)@, typed_result(cx@, name@, kind, *e, env@, old(notes)@)),
    decreases e, 0nat,
{
    match &e.kind {
        ast::ExprKind::Call { args, .. } => {
            if args.len() != 1 {
                return Err(error2(e.span, name.as_str(), " 构造恰好接受 1 个参数"));
            }
            if args[0].label.is_some() {
                return Err(error(args[0].span, "result 构造不接受命名实参"));
            }
            match check_value(cx, &args[0].value, env, notes) {
                Err(error) => Err(error),
                Ok(ty) => {
                    assert(Ty::Unknown@ == TyView::Unknown);
                    Ok(
                        match kind {
                            CtorKind::OkCtor => Ty::Result(Box::new(ty), Box::new(Ty::Unknown)),
                            CtorKind::ErrCtor => Ty::Result(Box::new(Ty::Unknown), Box::new(ty)),
                        },
                    )
                },
            }
        },
        _ => Err(bypassed(e)),
    }
}

/// Checks a call that is no ownership operation.
pub fn call(cx: &Context, e: &ast::Expr, env: &Scope, notes: &mut Notes) -> (r: AliasResult<Ty>)
    ensures
        gives(r, final(notes)@, typed_plain_call(cx@, *e, env@, old(notes)@)),
    decreases e, 1nat, 0nat,
{
    match &e.kind {
        ast::ExprKind::Call { callee, args } => {
            if let Some(name) = ident_name(callee) {
                if env.get(name).is_none() {
                    if let Some(fields) = cx.structs.get(name) {
                        return construct(cx, name, fields, args, e.span, env, notes);
                    }
                }
                if let Some(kind) = classify_result_constructor(name) {
                    return result_ctor(cx, name, kind, e, env, notes);
                }
                match check_labels(args, "函数调用不接受命名实参") {
                    Ok(()) => {},
                    Err(error) => {
                        return Err(error);
                    },
                }
                if let Some(builtin) = classify_call_builtin(name) {
                    return check_builtin(cx, builtin, name, e, env, notes);
                }
                return apply(cx, e, env, notes);
            }
            match check_labels(args, "函数调用不接受命名实参") {
                Ok(()) => apply(cx, e, env, notes),
                Err(error) => Err(error),
            }
        },
        _ => Err(bypassed(e)),
    }
}

/// Finds what an ordinary call goes to.
pub fn resolve_call_target(cx: &Context, callee: &ast::Expr, env: &Scope) -> (r: LowerCallTarget)
    ensures
        r@ == call_target(cx@, *callee, env@),
{
    let name = match ident_name(callee) {
        Some(name) => name,
        None => {
            return LowerCallTarget::FunctionValue;
        },
    };
    if env.get(name).is_some() {
        return LowerCallTarget::FunctionValue;
    }
    if cx.structs.get(name).is_some() {
        return LowerCallTarget::StructConstructor(name.clone());
    }
    if let Some(kind) = classify_result_constructor(name) {
        return LowerCallTarget::ResultConstructor(kind);
    }
    match classify_call_builtin(name) {
        Some(CallBuiltin::Print) => LowerCallTarget::Builtin(BuiltinCall::Print),
        Some(CallBuiltin::Println) => LowerCallTarget::Builtin(BuiltinCall::Println),
        Some(CallBuiltin::Increase) => LowerCallTarget::Builtin(BuiltinCall::Increase),
        Some(CallBuiltin::Decrease) => LowerCallTarget::Builtin(BuiltinCall::Decrease),
        Some(CallBuiltin::Typeof) => LowerCallTarget::Typeof,
        _ => LowerCallTarget::FunctionValue,
    }
}

pub fn check_lone(args: &Vec<ast::CallArg>, name: &str, span: Span) -> (r: AliasResult<()>)
    ensures
        fault_of(r) == lone_fault(args@, name@, span),
{
    if args.len() != 1 {
        return Err(error2(span, name, " 恰好接受 1 个参数"));
    }
    if args[0].label.is_some() {
        return Err(error2(args[0].span, name, " 不接受命名实参"));
    }
    Ok(())
}

fn check_operand(
    cx: &Context,
    name: &str,
    arg: &ast::Expr,
    env: &Scope,
    expected: Option<&Ty>,
    notes: &mut Notes,
) -> (r: AliasResult<Ty>)
    ensures
        gives(
            r,
            final(notes)@,
            typed_operand(
                cx@,
                name@,
                *arg,
                env@,
                match expected {
                    Some(want) => Some(want@),
                    None => None,
                },
                old(notes)@,
            ),
        ),
    decreases arg, 10nat,
{
    match expected {
        Some(want) => {
            if bare_name(arg) {
                let raw = match expr_raw_callable(cx, arg, env, notes) {
                    Ok(raw) => raw,
                    Err(error) => {
                        return Err(error);
                    },
                };
                match need_value(raw, arg.span) {
                    Err(error) => Err(error),
                    Ok(got) => if types_match(want, &got) {
                        Ok(want.clone())
                    } else {
                        Err(
                            error5(
                                arg.span,
                                name,
                                " 参数需要 ",
                                want.name().as_str(),
                                ", 实际 ",
                                got.name().as_str(),
                            ),
                        )
                    },
                }
            } else {
                match expr_expected(cx, arg, env, want, notes) {
                    Err(fault) => Err(fault.into_alias()),
                    Ok(ty) => need_value(ty, arg.span),
                }
            }
        },
        None => match expr_raw_callable(cx, arg, env, notes) {
            Err(error) => Err(error),
            Ok(ty) => need_value(ty, arg.span),
        },
    }
}

/// Checks the operand of `clone`, and makes the plan for copying it.
pub fn check_clone_call(
    cx: &Context,
    args: &Vec<ast::CallArg>,
    span: Span,
    env: &Scope,
    expected: Option<&Ty>,
    notes: &mut Notes,
) -> (r: AliasResult<(Ty, DeepClonePlan)>)
    ensures
        match typed_clone(
            cx@,
            args@,
            span,
            env@,
            match expected {
                Some(want) => Some(want@),
                None => None,
            },
            old(notes)@,
        ) {
            Ok((ty, plan, after)) => r matches Ok((found, made)) && found@ == ty && made@ == plan
                && final(notes)@ == after,
            Err(error) => fault_of(r) == Some(error),
        },
    decreases args, 0nat,
{
    match check_lone(args, "clone", span) {
        Ok(()) => {},
        Err(error) => {
            return Err(error);
        },
    }
    let ty = match check_operand(cx, "clone", &args[0].value, env, expected, notes) {
        Ok(ty) => ty,
        Err(error) => {
            return Err(error);
        },
    };
    match deep_clone_plan_with(&ty, span, &cx.structs.types) {
        Ok(plan) => Ok((ty, plan)),
        Err(error) => Err(error),
    }
}

/// Checks the operand of `shallow`, and makes the plan for copying it.
pub fn check_shallow_call(
    cx: &Context,
    args: &Vec<ast::CallArg>,
    span: Span,
    env: &Scope,
    expected: Option<&Ty>,
    notes: &mut Notes,
) -> (r: AliasResult<(Ty, ShallowClonePlan)>)
    ensures
        match typed_shallow(
            cx@,
            args@,
            span,
            env@,
            match expected {
                Some(want) => Some(want@),
                None => None,
            },
            old(notes)@,
        ) {
            Ok((ty, plan, after)) => r matches Ok((found, made)) && found@ == ty && made@ == plan
                && final(notes)@ == after,
            Err(error) => fault_of(r) == Some(error),
        },
    decreases args, 0nat,
{
    match check_lone(args, "shallow", span) {
        Ok(()) => {},
        Err(error) => {
            return Err(error);
        },
    }
    let ty = match check_operand(cx, "shallow", &args[0].value, env, expected, notes) {
        Ok(ty) => ty,
        Err(error) => {
            return Err(error);
        },
    };
    match shallow_clone_root_plan_with(&ty, span, &cx.structs.types) {
        Ok(plan) => Ok((ty, plan)),
        Err(error) => Err(error),
    }
}

pub fn check_place(
    cx: &Context,
    name: &str,
    arg: &ast::Expr,
    place: &LowerPlaceInfo,
    env: &Scope,
    notes: &mut Notes,
) -> (r: AliasResult<Ty>)
    ensures
        gives(r, final(notes)@, typed_place(cx@, name@, *arg, place@, env@, old(notes)@)),
    decreases arg, 5nat,
{
    match expr_raw_callable(cx, arg, env, notes) {
        Err(error) => Err(error),
        Ok(ty) => if ty.same(place.ty()) {
            Ok(ty)
        } else {
            let mut text: String = String::from_str("内部 sema 不变式被破坏: ");
            text.append(name);
            text.append(" Place 类型与表达式类型不一致");
            assert(text@ =~= broken(name@ + " Place 类型与表达式类型不一致"@));
            Err(AliasError { msg: text, span: arg.span })
        },
    }
}

/// Checks a transfer of ownership out of a place.
pub fn check_move_call(cx: &Context, e: &ast::Expr, env: &Scope, notes: &mut Notes) -> (r:
    AliasResult<Ty>)
    ensures
        gives(r, final(notes)@, typed_move(cx@, *e, env@, old(notes)@)),
    decreases e, 0nat,
{
    let args = match &e.kind {
        ast::ExprKind::Call { args, .. } => args,
        _ => {
            return Err(bypassed(e));
        },
    };
    match check_lone(args, "move", e.span) {
        Ok(()) => {},
        Err(error) => {
            return Err(error);
        },
    }
    let arg = &args[0].value;
    let place = match ask(&cx.places, arg.id, arg.span) {
        Ok(place) => place,
        Err(error) => {
            return Err(error);
        },
    };
    match place {
        LowerPlaceInfo::Local { .. } => {},
        _ => {
            return Err(
                error(arg.span, "普通 struct 字段和 array 元素不能被 move-out 后留下 hole"),
            );
        },
    }
    match check_place(cx, "move", arg, place, env, notes) {
        Err(error) => Err(error),
        Ok(ty) => {
            notes.move_places.insert(e.id, copy_place(place));
            Ok(ty)
        },
    }
}

pub fn take_loan(
    id: u32,
    place: &LowerPlaceInfo,
    source_writable: bool,
    span: Span,
    notes: &mut Notes,
) -> (r: AliasResult<()>)
    ensures
        gives_notes(
            r,
            final(notes)@,
            noted_loan(id, place@, source_writable, span, old(notes)@),
        ),
{
    if notes.next_loan == u32::MAX {
        return Err(error(span, "LoanId 数量超过编译器上限"));
    }
    let loan_id = LoanId(notes.next_loan);
    notes.next_loan = notes.next_loan + 1;
    notes.borrow_places.insert(
        id,
        LowerBorrowInfo { loan_id, place: copy_place(place), source_writable },
    );
    Ok(())
}

/// Checks a non-owning alias of a place.
pub fn check_borrow_call(cx: &Context, e: &ast::Expr, env: &Scope, notes: &mut Notes) -> (r:
    AliasResult<Ty>)
    ensures
        gives(r, final(notes)@, typed_borrow(cx@, *e, env@, old(notes)@)),
    decreases e, 0nat,
{
    let args = match &e.kind {
        ast::ExprKind::Call { args, .. } => args,
        _ => {
            return Err(bypassed(e));
        },
    };
    match check_lone(args, "borrow", e.span) {
        Ok(()) => {},
        Err(error) => {
            return Err(error);
        },
    }
    let arg = &args[0].value;
    let place = match ask(&cx.places, arg.id, arg.span) {
        Ok(place) => place,
        Err(error) => {
            return Err(error);
        },
    };
    if cx.borrowed.contains(place.root_binding_id()) {
        return Err(
            error(
                arg.span,
                "borrow source 当前必须直接根植于 owning Place；borrowed alias 的 reborrow 尚未解析 canonical owner",
            ),
        );
    }
    let flag = match ask(&cx.writable, arg.id, arg.span) {
        Ok(flag) => *flag,
        Err(error) => {
            return Err(error);
        },
    };
    let ty = match check_place(cx, "borrow", arg, place, env, notes) {
        Ok(ty) => ty,
        Err(error) => {
            return Err(error);
        },
    };
    match take_loan(e.id, place, flag, e.span, notes) {
        Ok(()) => Ok(ty),
        Err(error) => Err(error),
    }
}

fn check_call(cx: &Context, e: &ast::Expr, env: &Scope, notes: &mut Notes) -> (r: AliasResult<Ty>)
    ensures
        gives(r, final(notes)@, typed_call(cx@, *e, env@, old(notes)@)),
    decreases e, 1nat, 1nat,
{
    let (callee, args) = match &e.kind {
        ast::ExprKind::Call { callee, args } => (callee, args),
        _ => {
            return Err(bypassed(e));
        },
    };
    let operation = match ident_name(callee) {
        Some(name) => classify_ownership_builtin(name),
        None => None,
    };
    match operation {
        Some(OwnershipBuiltin::CloneValue) => match check_clone_call(
            cx,
            args,
            e.span,
            env,
            None,
            notes,
        ) {
            Err(error) => Err(error),
            Ok((ty, plan)) => {
                notes.record_call_target(
                    e.id,
                    LowerCallTarget::Builtin(BuiltinCall::DeepClone(plan)),
                );
                Ok(ty)
            },
        },
        Some(OwnershipBuiltin::Shallow) => match check_shallow_call(
            cx,
            args,
            e.span,
            env,
            None,
            notes,
        ) {
            Err(error) => Err(error),
            Ok((ty, plan)) => {
                notes.record_call_target(
                    e.id,
                    LowerCallTarget::Builtin(BuiltinCall::ShallowClone(plan)),
                );
                Ok(ty)
            },
        },
        Some(OwnershipBuiltin::Borrow) => match check_borrow_call(cx, e, env, notes) {
            Err(error) => Err(error),
            Ok(ty) => {
                notes.record_call_target(e.id, LowerCallTarget::Borrow);
                Ok(ty)
            },
        },
        Some(OwnershipBuiltin::Move) => match check_move_call(cx, e, env, notes) {
            Err(error) => Err(error),
            Ok(ty) => {
                notes.record_call_target(e.id, LowerCallTarget::Move);
                Ok(ty)
            },
        },
        None => match call(cx, e, env, notes) {
            Err(error) => Err(error),
            Ok(ty) => {
                notes.record_call_target(e.id, resolve_call_target(cx, callee, env));
                Ok(ty)
            },
        },
    }
}

fn copy_types(list: &Vec<Ty>) -> (r: Vec<Ty>)
    ensures
        ty_views(r@) == ty_views(list@),
{
    let mut out: Vec<Ty> = Vec::new();
    let mut i: usize = 0;
    while i < list.len()
        invariant
            i <= list.len(),
            out@.len() == i,
            forall|k: int| 0 <= k < i ==> (#[trigger] out@[k])@ == list@[k]@,
        decreases list.len() - i,
    {
        out.push(list[i].clone());
        i += 1;
    }
    assert(ty_views(out@) =~= ty_views(list@));
    out
}

fn find_sig(cx: &Context, call: u32, recv: &Ty, name: &String) -> (r: Option<MethodSig>)
    ensures
        maybe_view(r) == method_sig(cx@, call, recv@, name@),
{
    match cx.builtins.get(call) {
        Some(sig) => Some(
            MethodSig {
                params: copy_types(&sig.params),
                ret: sig.ret.clone(),
                target: match &sig.target {
                    Some(target) => Some(copy_method(target)),
                    None => None,
                },
            },
        ),
        None => {
            let receiver = recv.name();
            match find_method(&cx.methods, &receiver, name) {
                None => None,
                Some(method) => Some(
                    MethodSig {
                        params: copy_types(&method.params),
                        ret: method.ret.clone(),
                        target: Some(
                            MethodTarget::User {
                                receiver: recv.clone(),
                                id: method.id,
                                param_effects: None,
                                return_effect: None,
                            },
                        ),
                    },
                ),
            }
        },
    }
}

fn targetless(kind: &str, recv: &Ty, name: &String, what: &str, span: Span) -> (r: AliasError)
    ensures
        r@ == broken_at(span, kind@ + ty_name(recv@) + "."@ + name@ + what@),
{
    let mut text: String = String::from_str("内部 sema 不变式被破坏: ");
    text.append(kind);
    text.append(recv.name().as_str());
    text.append(".");
    text.append(name.as_str());
    text.append(what);
    assert(text@ =~= broken(kind@ + ty_name(recv@) + "."@ + name@ + what@));
    AliasError { msg: text, span }
}

/// Finds what a method call goes to.
pub fn resolve_method_target(cx: &Context, call: u32, recv: &Ty, name: &String, span: Span) -> (r:
    AliasResult<MethodTarget>)
    ensures
        match method_target(cx@, call, recv@, name@, span) {
            Ok(target) => r matches Ok(found) && method_view(found) == target,
            Err(error) => fault_of(r) == Some(error),
        },
{
    match find_sig(cx, call, recv, name) {
        Some(sig) => match sig.target {
            Some(target) => Ok(target),
            None => Err(targetless("内建方法 ", recv, name, " 缺少 target", span)),
        },
        None => Err(targetless("用户方法 ", recv, name, " 缺少 MethodId", span)),
    }
}

fn no_method(recv: &Ty, name: &String, span: Span) -> (r: AliasError)
    ensures
        r@ == told(span, "类型 "@ + ty_name(recv@) + " 上没有方法 '"@ + name@ + "'"@),
{
    error5(span, "类型 ", recv.name().as_str(), " 上没有方法 '", name.as_str(), "'")
}

fn check_bare_method(cx: &Context, call: u32, recv: &Ty, name: &String, span: Span) -> (r:
    AliasResult<Ty>)
    ensures
        match bare_method(cx@, call, recv@, name@, span) {
            Ok(ty) => r matches Ok(found) && found@ == ty,
            Err(error) => fault_of(r) == Some(error),
        },
{
    if recv.is_unknown() {
        return Ok(Ty::Unknown);
    }
    match find_sig(cx, call, recv, name) {
        None => Err(no_method(recv, name, span)),
        Some(sig) => if sig.params.len() != 0 {
            Err(arity_error(sig.params.len(), 0, span))
        } else {
            Ok(sig.ret)
        },
    }
}

/// Checks the arguments of a method call, and finds its result.
pub fn method_call_with_receiver_ty(
    cx: &Context,
    call: u32,
    recv: &Ty,
    name: &String,
    args: &Vec<ast::CallArg>,
    span: Span,
    env: &Scope,
    notes: &mut Notes,
) -> (r: AliasResult<Ty>)
    ensures
        gives(
            r,
            final(notes)@,
            typed_method(cx@, call, recv@, name@, args@, span, env@, old(notes)@),
        ),
    decreases args, 1nat,
{
    if recv.is_unknown() {
        return Ok(Ty::Unknown);
    }
    match check_labels(args, "方法调用不接受命名实参") {
        Ok(()) => {},
        Err(error) => {
            return Err(error);
        },
    }
    let sig = match find_sig(cx, call, recv, name) {
        Some(sig) => sig,
        None => {
            return Err(no_method(recv, name, span));
        },
    };
    if args.len() != sig.params.len() {
        return Err(arity_error(sig.params.len(), args.len(), span));
    }
    match check_args(cx, args, &sig.params, env, notes) {
        Ok(()) => Ok(sig.ret),
        Err(error) => Err(error),
    }
}

/// Checks a method call.
pub fn method_call(cx: &Context, e: &ast::Expr, env: &Scope, notes: &mut Notes) -> (r: AliasResult<
    Ty,
>)
    ensures
        gives(r, final(notes)@, typed_method_call(cx@, *e, env@, old(notes)@)),
    decreases e, 1nat,
{
    match &e.kind {
        ast::ExprKind::MethodCall { recv, name, args } => {
            let receiver = match check_expr(cx, recv, env, notes) {
                Ok(receiver) => receiver,
                Err(error) => {
                    return Err(error);
                },
            };
            let ty = match method_call_with_receiver_ty(
                cx,
                e.id,
                &receiver,
                name,
                args,
                e.span,
                env,
                notes,
            ) {
                Ok(ty) => ty,
                Err(error) => {
                    return Err(error);
                },
            };
            let recorded = notes.type_of(recv.id);
            match resolve_method_target(cx, e.id, &recorded, name, e.span) {
                Err(error) => Err(error),
                Ok(target) => {
                    notes.record_call_target(e.id, LowerCallTarget::Method(target));
                    Ok(ty)
                },
            }
        },
        _ => Err(bypassed(e)),
    }
}

fn check_applied(
    cx: &Context,
    e: &ast::Expr,
    want: &Ty,
    ret: &Ty,
    rhs: &ast::Expr,
    env: &Scope,
    notes: &mut Notes,
) -> (r: AliasResult<Ty>)
    ensures
        gives(
            r,
            final(notes)@,
            match typed_expected(cx@, *rhs, env@, want@, old(notes)@) {
                Err(fault) => Err(arg_fault(0, want@, fault, rhs.span)),
                Ok((_, after)) => Ok(
                    (ret@, note_target(after, e.id, TargetView::FunctionValue)),
                ),
            },
        ),
    decreases rhs, 10nat,
{
    match expr_expected(cx, rhs, env, want, notes) {
        Err(fault) => Err(arg_error(0, want, fault, rhs.span)),
        Ok(_) => {
            notes.record_call_target(e.id, LowerCallTarget::FunctionValue);
            Ok(ret.clone())
        },
    }
}

fn check_juxtapose(cx: &Context, e: &ast::Expr, env: &Scope, notes: &mut Notes) -> (r: AliasResult<
    Ty,
>)
    ensures
        gives(r, final(notes)@, typed_juxtapose(cx@, *e, env@, old(notes)@)),
    decreases e, 1nat,
{
    let (first, second) = match &e.kind {
        ast::ExprKind::Juxtapose { lhs: first, rhs: second } => (first, second),
        _ => {
            return Err(bypassed(e));
        },
    };
    let left = match expr_raw_callable(cx, first, env, notes) {
        Ok(left) => left,
        Err(error) => {
            return Err(error);
        },
    };
    proof {
        lemma_function_view(left);
    }
    match &left {
        Ty::Func { params, ret, .. } if params.len() == 1 => {
            assert(left@->Func_params[0] == params@[0]@);
            check_applied(cx, e, &params[0], ret, second, env, notes)
        },
        Ty::FuncPoly | Ty::Unknown => match check_value(cx, second, env, notes) {
            Err(error) => Err(error),
            Ok(_) => {
                notes.record_call_target(e.id, LowerCallTarget::FunctionValue);
                Ok(Ty::Unknown)
            },
        },
        _ => match ident_name(second) {
            None => Err(error2(e.span, left.name().as_str(), " 不是可调用值")),
            Some(name) => {
                let ty = match check_bare_method(cx, e.id, &left, name, e.span) {
                    Ok(ty) => ty,
                    Err(error) => {
                        return Err(error);
                    },
                };
                match resolve_method_target(cx, e.id, &left, name, e.span) {
                    Err(error) => Err(error),
                    Ok(target) => {
                        notes.record_call_target(e.id, LowerCallTarget::Method(target));
                        Ok(ty)
                    },
                }
            },
        },
    }
}

fn enter_arm(
    arm: &ast::MatchArm,
    bound: Option<(String, Ty)>,
    env: &Scope,
    notes: &mut Notes,
) -> (r: Result<Scope, ExprCheckError>)
    ensures
        match arm_scope(*arm, bound_view(bound), env@, old(notes)@) {
            Ok((local, after)) => r matches Ok(scope) && scope@ == local && final(notes)@ == after,
            Err(fault) => r matches Err(found) && found@ == fault,
        },
{
    let mut local = env.child();
    if let Some((name, ty)) = bound {
        if notes.next_binding == u32::MAX {
            return Err(
                ExprCheckError::Diagnostic(
                    broken_invariant(arm.span, "BindingId 数量超过编译器上限"),
                ),
            );
        }
        let id = BindingId(notes.next_binding);
        notes.next_binding = notes.next_binding + 1;
        notes.match_binding_ids.insert(arm.id, id);
        local.insert(name, VarInfo { id, ty, mutable: false });
    }
    Ok(local)
}

pub open spec fn gives_arm(
    r: Result<Option<Ty>, ExprCheckError>,
    after: NotesMap,
    goal: Result<(Option<TyView>, NotesMap), FaultView>,
) -> bool {
    match goal {
        Ok((ty, notes)) => r matches Ok(found) && maybe_view(found) == ty && after == notes,
        Err(fault) => r matches Err(found) && found@ == fault,
    }
}

fn check_arm_value(
    cx: &Context,
    e: &ast::Expr,
    env: &Scope,
    expected: Option<&Ty>,
    notes: &mut Notes,
) -> (r: Result<Option<Ty>, ExprCheckError>)
    ensures
        gives_arm(
            r,
            final(notes)@,
            typed_arm_value(
                cx@,
                *e,
                env@,
                match expected {
                    Some(want) => Some(want@),
                    None => None,
                },
                old(notes)@,
            ),
        ),
    decreases e, 10nat,
{
    match expected {
        Some(want) => match expr_expected(cx, e, env, want, notes) {
            Ok(ty) => Ok(Some(ty)),
            Err(fault) => Err(fault),
        },
        None => match check_expr(cx, e, env, notes) {
            Ok(ty) => Ok(Some(ty)),
            Err(error) => Err(ExprCheckError::Diagnostic(error)),
        },
    }
}

fn add_names(local: &Scope, names: &Scope) -> (r: Scope)
    ensures
        r@ == local@ + names@,
{
    let mut scope = local.child();
    let mut i: usize = 0;
    assert(scope@ =~= local@ + names@.take(0));
    while i < names.names.len()
        invariant
            i <= names.names.len(),
            scope@ == local@ + names@.take(i as int),
        decreases names.names.len() - i,
    {
        let (name, info) = &names.names[i];
        scope.insert(
            name.clone(),
            VarInfo { id: info.id, ty: info.ty.clone(), mutable: info.mutable },
        );
        assert(names@[i as int] == (name@, info@));
        assert(scope@ =~= local@ + names@.take(i + 1));
        i += 1;
    }
    assert(names@.take(i as int) =~= names@);
    scope
}

/// Checks an arm of a match.
pub fn match_arm(
    cx: &Context,
    arm: &ast::MatchArm,
    env: &Scope,
    expected: Option<&Ty>,
    notes: &mut Notes,
) -> (r: Result<Option<Ty>, ExprCheckError>)
    ensures
        gives_arm(
            r,
            final(notes)@,
            typed_arm(
                cx@,
                *arm,
                env@,
                match expected {
                    Some(want) => Some(want@),
                    None => None,
                },
                old(notes)@,
            ),
        ),
    decreases arm, 0nat,
{
    match &arm.body {
        ast::ArmBody::Value(value) => check_arm_value(cx, value, env, expected, notes),
        ast::ArmBody::Ret(value) => match ask(&cx.blocks, arm.id, value.span) {
            Ok(_) => Ok(None),
            Err(error) => Err(ExprCheckError::Diagnostic(error)),
        },
        ast::ArmBody::Block(stmts) => {
            let block = match ask(&cx.blocks, arm.id, arm.span) {
                Ok(block) => block,
                Err(error) => {
                    return Err(ExprCheckError::Diagnostic(error));
                },
            };
            if block.terminates {
                return Ok(None);
            }
            if stmts.len() == 0 {
                return Ok(Some(Ty::Unit));
            }
            match &stmts[stmts.len() - 1].kind {
                ast::StmtKind::Expr { expr } => {
                    let local = add_names(env, &block.names);
                    check_arm_value(cx, expr, &local, expected, notes)
                },
                _ => Ok(Some(Ty::Unit)),
            }
        },
    }
}

proof fn lemma_arms_stop(
    cx: ContextView,
    st: TyView,
    arms: Seq<ast::MatchArm>,
    env: Env,
    expected: Option<TyView>,
    notes: NotesMap,
    at: nat,
    upto: nat,
)
    requires
        at <= upto <= arms.len(),
        typed_arms(cx, st, arms, env, expected, notes, at) is Err,
    ensures
        typed_arms(cx, st, arms, env, expected, notes, upto) == typed_arms(
            cx,
            st,
            arms,
            env,
            expected,
            notes,
            at,
        ),
    decreases upto - at,
{
    if at < upto {
        lemma_arms_stop(cx, st, arms, env, expected, notes, at, (upto - 1) as nat);
    }
}

fn join_arms(common: Option<Ty>, ty: Option<Ty>, expected: bool, span: Span) -> (r: AliasResult<
    Option<Ty>,
>)
    ensures
        forall|want: Option<TyView>|
            want is Some == expected ==> match #[trigger] joined_arms(
                maybe_view(common),
                maybe_view(ty),
                want,
                span,
            ) {
                Ok(joined) => r matches Ok(found) && maybe_view(found) == joined,
                Err(error) => fault_of(r) == Some(error),
            },
{
    if expected {
        return Ok(common);
    }
    match ty {
        None => Ok(common),
        Some(ty) => match join_arm(common, ty, span) {
            Ok(joined) => Ok(Some(joined)),
            Err(error) => Err(error),
        },
    }
}

/// What one more arm of a match comes to.
pub open spec fn arm_step(
    cx: ContextView,
    st: TyView,
    arm: ast::MatchArm,
    env: Env,
    expected: Option<TyView>,
    state: MatchState,
) -> Result<MatchState, FaultView> {
    match pattern_step(st, arm.pattern, state.cover) {
        Err(error) => Err(FaultView::Diagnostic(error)),
        Ok((bound, cover)) => match arm_scope(arm, bound, env, state.notes) {
            Err(fault) => Err(fault),
            Ok((local, started)) => match typed_arm(cx, arm, local, expected, started) {
                Err(fault) => Err(fault),
                Ok((ty, after)) => match joined_arms(state.common, ty, expected, arm.span) {
                    Err(error) => Err(FaultView::Diagnostic(error)),
                    Ok(common) => Ok(MatchState { cover, common, notes: after }),
                },
            },
        },
    }
}

fn check_arm(
    cx: &Context,
    st: &Ty,
    arm: &ast::MatchArm,
    env: &Scope,
    expected: Option<&Ty>,
    cover: &mut Cover,
    common: Option<Ty>,
    notes: &mut Notes,
) -> (r: Result<Option<Ty>, ExprCheckError>)
    ensures
        match arm_step(
            cx@,
            st@,
            *arm,
            env@,
            match expected {
                Some(want) => Some(want@),
                None => None,
            },
            MatchState { cover: old(cover)@, common: maybe_view(common), notes: old(notes)@ },
        ) {
            Ok(state) => r matches Ok(found) && maybe_view(found) == state.common && final(cover)@
                == state.cover && final(notes)@ == state.notes,
            Err(fault) => r matches Err(found) && found@ == fault,
        },
    decreases arm, 1nat,
{
    let bound = match check_pattern(st, &arm.pattern, cover) {
        Ok(bound) => bound,
        Err(error) => {
            return Err(ExprCheckError::Diagnostic(error));
        },
    };
    let local = match enter_arm(arm, bound, env, notes) {
        Ok(local) => local,
        Err(fault) => {
            return Err(fault);
        },
    };
    let ty = match match_arm(cx, arm, &local, expected, notes) {
        Ok(ty) => ty,
        Err(fault) => {
            return Err(fault);
        },
    };
    let ghost want = match expected {
        Some(want) => Some(want@),
        None => None,
    };
    match join_arms(common, ty, expected.is_some(), arm.span) {
        Ok(common) => Ok(common),
        Err(error) => Err(ExprCheckError::Diagnostic(error)),
    }
}

fn check_arms(
    cx: &Context,
    st: &Ty,
    arms: &Vec<ast::MatchArm>,
    env: &Scope,
    expected: Option<&Ty>,
    notes: &mut Notes,
) -> (r: Result<(Cover, Option<Ty>), ExprCheckError>)
    ensures
        match typed_arms(
            cx@,
            st@,
            arms@,
            env@,
            match expected {
                Some(want) => Some(want@),
                None => None,
            },
            old(notes)@,
            arms@.len(),
        ) {
            Ok(state) => r matches Ok((cover, common)) && cover@ == state.cover && maybe_view(
                common,
            ) == state.common && final(notes)@ == state.notes,
            Err(fault) => r matches Err(found) && found@ == fault,
        },
    decreases arms, 0nat,
{
    let ghost start = notes@;
    let ghost want = match expected {
        Some(want) => Some(want@),
        None => None,
    };
    let mut cover = Cover::new();
    let mut common: Option<Ty> = None;
    let mut i: usize = 0;
    while i < arms.len()
        invariant
            i <= arms.len(),
            start == old(notes)@,
            want == match expected {
                Some(want) => Some(want@),
                None => None,
            },
            typed_arms(cx@, st@, arms@, env@, want, start, i as nat) == Ok::<
                MatchState,
                FaultView,
            >(MatchState { cover: cover@, common: maybe_view(common), notes: notes@ }),
        decreases arms.len() - i,
    {
        let ghost state = MatchState {
            cover: cover@,
            common: maybe_view(common),
            notes: notes@,
        };
        assert(typed_arms(cx@, st@, arms@, env@, want, start, (i + 1) as nat) == arm_step(
            cx@,
            st@,
            arms@[i as int],
            env@,
            want,
            state,
        ));
        match check_arm(cx, st, &arms[i], env, expected, &mut cover, common, notes) {
            Ok(joined) => {
                common = joined;
            },
            Err(fault) => {
                proof {
                    lemma_arms_stop(
                        cx@,
                        st@,
                        arms@,
                        env@,
                        want,
                        start,
                        (i + 1) as nat,
                        arms@.len(),
                    );
                }
                return Err(fault);
            },
        }
        i += 1;
    }
    Ok((cover, common))
}

/// Finds the type of a match.
pub fn match_expr(
    cx: &Context,
    e: &ast::Expr,
    env: &Scope,
    expected: Option<&Ty>,
    notes: &mut Notes,
) -> (r: Result<Ty, ExprCheckError>)
    ensures
        gives_expected(
            r,
            final(notes)@,
            typed_match(
                cx@,
                *e,
                env@,
                match expected {
                    Some(want) => Some(want@),
                    None => None,
                },
                old(notes)@,
            ),
        ),
    decreases e, 1nat,
{
    match &e.kind {
        ast::ExprKind::Match { subject, arms } => {
            let st = match check_value(cx, subject, env, notes) {
                Ok(st) => st,
                Err(error) => {
                    return Err(ExprCheckError::Diagnostic(error));
                },
            };
            if st.is_unknown() {
                return Ok(Ty::Unknown);
            }
            let (cover, common) = match check_arms(cx, &st, arms, env, expected, notes) {
                Ok(state) => state,
                Err(fault) => {
                    return Err(fault);
                },
            };
            match check_covered(&st, &cover, e.span) {
                Ok(()) => {},
                Err(error) => {
                    return Err(ExprCheckError::Diagnostic(error));
                },
            }
            match expected {
                Some(want) => Ok(want.clone()),
                None => match common {
                    Some(ty) => Ok(ty),
                    None => Ok(Ty::Unit),
                },
            }
        },
        _ => Err(ExprCheckError::Diagnostic(bypassed(e))),
    }
}

fn agree(want: &Ty, got: Ty, span: Span) -> (r: Result<Ty, ExprCheckError>)
    ensures
        if fits(want@, got@) {
            r matches Ok(ty) && ty@ == want@
        } else {
            r matches Err(fault) && fault@ == (FaultView::Mismatch {
                expected: want@,
                actual: got@,
                span,
            })
        },
{
    if types_match(want, &got) {
        Ok(want.clone())
    } else {
        Err(ExprCheckError::Mismatch { expected: want.clone(), actual: got, span })
    }
}

fn check_inferred_expected(
    cx: &Context,
    e: &ast::Expr,
    env: &Scope,
    expected: &Ty,
    notes: &mut Notes,
) -> (r: Result<Ty, ExprCheckError>)
    ensures
        gives_expected(
            r,
            final(notes)@,
            typed_inferred(cx@, *e, env@, expected@, old(notes)@),
        ),
    decreases e, 5nat,
{
    match check_value(cx, e, env, notes) {
        Err(error) => Err(ExprCheckError::Diagnostic(error)),
        Ok(got) => agree(expected, got, e.span),
    }
}

/// Finds the type of an expression of which a type is expected.
pub fn expr_expected(
    cx: &Context,
    e: &ast::Expr,
    env: &Scope,
    expected: &Ty,
    notes: &mut Notes,
) -> (r: Result<Ty, ExprCheckError>)
    ensures
        gives_expected(
            r,
            final(notes)@,
            typed_expected(cx@, *e, env@, expected@, old(notes)@),
        ),
    decreases e, 9nat,
{
    match expr_expected_inner(cx, e, env, expected, notes) {
        Err(fault) => Err(fault),
        Ok(ty) => {
            notes.record_expr_type(e.id, ty.clone());
            notes.record_literal_components(e, &ty);
            notes.record_resolved_callee(e, &ty);
            Ok(ty)
        },
    }
}

fn convert(
    cx: &Context,
    name: &String,
    e: &ast::Expr,
    arg: &ast::Expr,
    env: &Scope,
    want: &Ty,
    notes: &mut Notes,
) -> (r: AliasResult<(ResolvedConversion, Ty)>)
    ensures
        match converted(cx@, name@, *e, *arg, env@, want@, old(notes)@) {
            Ok((mode, source, after)) => r matches Ok((found, ty)) && mode == Some(found) && ty@
                == source && final(notes)@ == after,
            Err(error) => fault_of(r) == Some(error),
        },
    decreases arg, 5nat,
{
    let source = match check_value(cx, arg, env, notes) {
        Ok(source) => source,
        Err(error) => {
            return Err(error);
        },
    };
    if conversion_exists(&source, want) {
        return Ok((ResolvedConversion::Convert, source));
    }
    if is_text(name, "from") {
        return Err(
            error5(
                e.span,
                "from 不存在 ",
                source.name().as_str(),
                " → ",
                want.name().as_str(),
                " 转换",
            ),
        );
    }
    Ok((ResolvedConversion::Identity, source))
}

fn check_conversion(
    cx: &Context,
    name: &String,
    e: &ast::Expr,
    arg: &ast::Expr,
    env: &Scope,
    want: &Ty,
    notes: &mut Notes,
) -> (r: Result<Ty, ExprCheckError>)
    ensures
        gives_expected(
            r,
            final(notes)@,
            typed_conversion(cx@, name@, *e, *arg, env@, want@, old(notes)@),
        ),
    decreases arg, 10nat,
{
    match convert(cx, name, e, arg, env, want, notes) {
        Err(error) => Err(ExprCheckError::Diagnostic(error)),
        Ok((mode, _)) => {
            notes.record_call_target(e.id, LowerCallTarget::ContextualConversion(mode));
            match mode {
                ResolvedConversion::Convert => Ok(want.clone()),
                ResolvedConversion::Identity => check_inferred_expected(
                    cx,
                    arg,
                    env,
                    want,
                    notes,
                ),
            }
        },
    }
}

fn expr_expected_inner(
    cx: &Context,
    e: &ast::Expr,
    env: &Scope,
    expected: &Ty,
    notes: &mut Notes,
) -> (r: Result<Ty, ExprCheckError>)
    ensures
        gives_expected(
            r,
            final(notes)@,
            typed_expected_inner(cx@, *e, env@, expected@, old(notes)@),
        ),
    decreases e, 8nat,
{
    if matches!(expected, Ty::Func { .. } | Ty::FuncPoly) && bare_name(e) {
        let raw = match expr_raw_callable(cx, e, env, notes) {
            Ok(raw) => raw,
            Err(error) => {
                return Err(ExprCheckError::Diagnostic(error));
            },
        };
        return match need_value(raw, e.span) {
            Err(error) => Err(ExprCheckError::Diagnostic(error)),
            Ok(got) => agree(expected, got, e.span),
        };
    }
    if let Some((name, arg)) = contextual_conversion(e) {
        return check_conversion(cx, name, e, arg, env, expected, notes);
    }
    match literal_slot_unify(expected, e) {
        Slot::Takes => Ok(expected.clone()),
        Slot::OutOfRange(literal) => Err(
            ExprCheckError::LiteralOutOfRange {
                literal,
                expected: expected.clone(),
                span: e.span,
            },
        ),
        Slot::Other => check_shape(cx, e, env, expected, notes),
    }
}

fn check_branches(
    cx: &Context,
    e: &ast::Expr,
    env: &Scope,
    expected: &Ty,
    notes: &mut Notes,
) -> (r: Result<Ty, ExprCheckError>)
    requires
        e.kind is Ternary,
    ensures
        gives_expected(r, final(notes)@, typed_shape(cx@, *e, env@, expected@, old(notes)@)),
    decreases e, 7nat, 0nat,
{
    match &e.kind {
        ast::ExprKind::Ternary { cond, then_expr, else_expr } => {
            match require_bool(cx, cond, env, "?: 条件", notes) {
                Ok(()) => {},
                Err(error) => {
                    return Err(ExprCheckError::Diagnostic(error));
                },
            }
            match expr_expected(cx, then_expr, env, expected, notes) {
                Ok(_) => {},
                Err(fault) => {
                    return Err(fault);
                },
            }
            match expr_expected(cx, else_expr, env, expected, notes) {
                Ok(_) => Ok(expected.clone()),
                Err(fault) => Err(fault),
            }
        },
        _ => Err(ExprCheckError::Diagnostic(bypassed(e))),
    }
}

fn check_copy(
    cx: &Context,
    e: &ast::Expr,
    env: &Scope,
    expected: &Ty,
    notes: &mut Notes,
) -> (r: Result<Ty, ExprCheckError>)
    ensures
        gives_expected(r, final(notes)@, typed_copy(cx@, *e, env@, expected@, old(notes)@)),
    decreases e, 0nat,
{
    let (callee, args) = match &e.kind {
        ast::ExprKind::Call { callee, args } => (callee, args),
        _ => {
            return Err(ExprCheckError::Diagnostic(bypassed(e)));
        },
    };
    let name = match ident_name(callee) {
        Some(name) => name,
        None => {
            return Err(ExprCheckError::Diagnostic(bypassed(e)));
        },
    };
    match classify_ownership_builtin(name) {
        Some(OwnershipBuiltin::CloneValue) => match check_clone_call(
            cx,
            args,
            e.span,
            env,
            Some(expected),
            notes,
        ) {
            Err(error) => Err(ExprCheckError::Diagnostic(error)),
            Ok((got, plan)) => {
                notes.record_call_target(
                    e.id,
                    LowerCallTarget::Builtin(BuiltinCall::DeepClone(plan)),
                );
                agree(expected, got, e.span)
            },
        },
        _ => match check_shallow_call(cx, args, e.span, env, Some(expected), notes) {
            Err(error) => Err(ExprCheckError::Diagnostic(error)),
            Ok((got, plan)) => {
                notes.record_call_target(
                    e.id,
                    LowerCallTarget::Builtin(BuiltinCall::ShallowClone(plan)),
                );
                agree(expected, got, e.span)
            },
        },
    }
}

fn check_shape(
    cx: &Context,
    e: &ast::Expr,
    env: &Scope,
    expected: &Ty,
    notes: &mut Notes,
) -> (r: Result<Ty, ExprCheckError>)
    ensures
        gives_expected(r, final(notes)@, typed_shape(cx@, *e, env@, expected@, old(notes)@)),
    decreases e, 7nat, 1nat,
{
    match &e.kind {
        ast::ExprKind::Ternary { .. } => check_branches(cx, e, env, expected, notes),
        ast::ExprKind::Match { .. } => match_expr(cx, e, env, Some(expected), notes),
        ast::ExprKind::Binary { op, .. } => {
            if binary_flows_expected(*op, expected) {
                match expr_with_numeric_literal_context(cx, e, env, expected, notes) {
                    Err(fault) => Err(fault),
                    Ok(got) => agree(expected, got, e.span),
                }
            } else {
                check_inferred_expected(cx, e, env, expected, notes)
            }
        },
        ast::ExprKind::BitNot { expr } => {
            if matches!(expected, Ty::Int(_) | Ty::UInt(_)) {
                match expr_expected(cx, expr, env, expected, notes) {
                    Ok(_) => Ok(expected.clone()),
                    Err(fault) => Err(fault),
                }
            } else {
                check_inferred_expected(cx, e, env, expected, notes)
            }
        },
        ast::ExprKind::ArrayLit { elems } => match expected {
            Ty::Array(elem) => match check_items(cx, elems, elem, env, notes) {
                Ok(()) => Ok(expected.clone()),
                Err(fault) => Err(fault),
            },
            _ => check_inferred_expected(cx, e, env, expected, notes),
        },
        ast::ExprKind::Call { callee, .. } => {
            if let Some(name) = ident_name(callee) {
                match classify_ownership_builtin(name) {
                    Some(OwnershipBuiltin::CloneValue) | Some(OwnershipBuiltin::Shallow) => {
                        return check_copy(cx, e, env, expected, notes);
                    },
                    _ => {},
                }
            }
            if let Ty::Result(good, bad) = expected {
                if let Some(name) = ident_name(callee) {
                    if let Some(kind) = classify_result_constructor(name) {
                        let payload = match kind {
                            CtorKind::OkCtor => good,
                            CtorKind::ErrCtor => bad,
                        };
                        return check_payload(cx, name, kind, e, env, expected, payload, notes);
                    }
                }
            }
            check_inferred_expected(cx, e, env, expected, notes)
        },
        _ => check_inferred_expected(cx, e, env, expected, notes),
    }
}

proof fn lemma_items_stop(
    cx: ContextView,
    elems: Seq<ast::Expr>,
    want: TyView,
    env: Env,
    notes: NotesMap,
    at: nat,
    upto: nat,
)
    requires
        at <= upto <= elems.len(),
        typed_items(cx, elems, want, env, notes, at) is Err,
    ensures
        typed_items(cx, elems, want, env, notes, upto) == typed_items(
            cx,
            elems,
            want,
            env,
            notes,
            at,
        ),
    decreases upto - at,
{
    if at < upto {
        lemma_items_stop(cx, elems, want, env, notes, at, (upto - 1) as nat);
    }
}

fn item_error(want: &Ty, fault: ExprCheckError, span: Span) -> (r: ExprCheckError)
    ensures
        r@ == match fault@ {
            FaultView::Mismatch { actual, .. } => FaultView::Diagnostic(
                told(
                    span,
                    "数组元素类型不一致: "@ + ty_name(want@) + " 与 "@ + ty_name(actual),
                ),
            ),
            other => other,
        },
{
    match fault {
        ExprCheckError::Mismatch { actual, .. } => ExprCheckError::Diagnostic(
            error4(
                span,
                "数组元素类型不一致: ",
                want.name().as_str(),
                " 与 ",
                actual.name().as_str(),
            ),
        ),
        other => other,
    }
}

fn check_items(
    cx: &Context,
    elems: &Vec<ast::Expr>,
    want: &Ty,
    env: &Scope,
    notes: &mut Notes,
) -> (r: Result<(), ExprCheckError>)
    ensures
        match typed_items(cx@, elems@, want@, env@, old(notes)@, elems@.len()) {
            Ok(after) => r is Ok && final(notes)@ == after,
            Err(fault) => r matches Err(found) && found@ == fault,
        },
    decreases elems, 0nat,
{
    let ghost start = notes@;
    let mut i: usize = 0;
    while i < elems.len()
        invariant
            i <= elems.len(),
            start == old(notes)@,
            typed_items(cx@, elems@, want@, env@, start, i as nat) == Ok::<NotesMap, FaultView>(
                notes@,
            ),
        decreases elems.len() - i,
    {
        match expr_expected(cx, &elems[i], env, want, notes) {
            Ok(_) => {},
            Err(fault) => {
                proof {
                    lemma_items_stop(
                        cx@,
                        elems@,
                        want@,
                        env@,
                        start,
                        (i + 1) as nat,
                        elems@.len(),
                    );
                }
                return Err(item_error(want, fault, elems[i].span));
            },
        }
        i += 1;
    }
    Ok(())
}

fn check_payload(
    cx: &Context,
    name: &String,
    kind: CtorKind,
    e: &ast::Expr,
    env: &Scope,
    want: &Ty,
    payload: &Ty,
    notes: &mut Notes,
) -> (r: Result<Ty, ExprCheckError>)
    ensures
        gives_expected(
            r,
            final(notes)@,
            typed_payload(cx@, name@, kind, *e, env@, want@, payload@, old(notes)@),
        ),
    decreases e, 0nat,
{
    notes.record_call_target(e.id, LowerCallTarget::ResultConstructor(kind));
    match &e.kind {
        ast::ExprKind::Call { args, .. } => {
            if args.len() != 1 {
                return Err(
                    ExprCheckError::Diagnostic(
                        error2(e.span, name.as_str(), " 构造恰好接受 1 个参数"),
                    ),
                );
            }
            if args[0].label.is_some() {
                return Err(
                    ExprCheckError::Diagnostic(
                        error(args[0].span, "result 构造不接受命名实参"),
                    ),
                );
            }
            match expr_expected(cx, &args[0].value, env, payload, notes) {
                Ok(_) => Ok(want.clone()),
                Err(fault) => Err(fault),
            }
        },
        _ => Err(ExprCheckError::Diagnostic(bypassed(e))),
    }
}

fn expr_with_numeric_literal_context(
    cx: &Context,
    e: &ast::Expr,
    env: &Scope,
    expected: &Ty,
    notes: &mut Notes,
) -> (r: Result<Ty, ExprCheckError>)
    ensures
        gives_expected(
            r,
            final(notes)@,
            typed_context(cx@, *e, env@, expected@, old(notes)@),
        ),
    decreases e, 7nat, 0nat,
{
    match expr_with_numeric_literal_context_inner(cx, e, env, expected, notes) {
        Err(fault) => Err(fault),
        Ok(ty) => {
            notes.record_expr_type(e.id, ty.clone());
            notes.record_literal_components(e, &ty);
            notes.record_resolved_callee(e, &ty);
            Ok(ty)
        },
    }
}

fn plainly(r: AliasResult<Ty>) -> (out: Result<Ty, ExprCheckError>)
    ensures
        match r {
            Ok(ty) => out == Ok::<Ty, ExprCheckError>(ty),
            Err(error) => out matches Err(fault) && fault@ == FaultView::Diagnostic(error@),
        },
{
    match r {
        Ok(ty) => Ok(ty),
        Err(error) => Err(ExprCheckError::Diagnostic(error)),
    }
}

fn expr_with_numeric_literal_context_inner(
    cx: &Context,
    e: &ast::Expr,
    env: &Scope,
    expected: &Ty,
    notes: &mut Notes,
) -> (r: Result<Ty, ExprCheckError>)
    ensures
        gives_expected(
            r,
            final(notes)@,
            typed_context_inner(cx@, *e, env@, expected@, old(notes)@),
        ),
    decreases e, 6nat,
{
    match literal_slot_unify(expected, e) {
        Slot::Takes => {
            return Ok(expected.clone());
        },
        Slot::OutOfRange(literal) => {
            return Err(
                ExprCheckError::LiteralOutOfRange {
                    literal,
                    expected: expected.clone(),
                    span: e.span,
                },
            );
        },
        Slot::Other => {},
    }
    if let Some((name, arg)) = contextual_conversion(e) {
        return match convert(cx, name, e, arg, env, expected, notes) {
            Err(error) => Err(ExprCheckError::Diagnostic(error)),
            Ok((mode, source)) => {
                notes.record_call_target(e.id, LowerCallTarget::ContextualConversion(mode));
                match mode {
                    ResolvedConversion::Convert => Ok(expected.clone()),
                    ResolvedConversion::Identity => Ok(source),
                }
            },
        };
    }
    match &e.kind {
        ast::ExprKind::Binary { op, lhs: first, rhs: second } => {
            if !binary_flows_expected(*op, expected) {
                return plainly(check_expr(cx, e, env, notes));
            }
            let left = match expr_with_numeric_literal_context(cx, first, env, expected, notes) {
                Ok(left) => left,
                Err(fault) => {
                    return Err(fault);
                },
            };
            let want = if left.is_numeric() {
                &left
            } else {
                expected
            };
            match expr_with_numeric_literal_context(cx, second, env, want, notes) {
                Err(fault) => Err(fault),
                Ok(right) => plainly(binary_result_type(*op, &left, &right, e.span)),
            }
        },
        _ => plainly(check_expr(cx, e, env, notes)),
    }
}

} // verus!
