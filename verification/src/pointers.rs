//! Calls that make, free or reinterpret pointers, and calls that change a counter.

use crate::ast;
use crate::checker_state::{
    Context, ContextView, Notes, NotesMap, Scope, answer, ask, in_scope, note_type,
};
use crate::diagnostics::{error2, error3, error4};
use crate::facts::{LowerPlaceInfo, PlaceFact, fact_root, found};
use crate::model::PointerViewSource;
use crate::typed::{Env, Typed, lone_fault, noted_loan, typed, typed_place};
use crate::types::{
    AliasError, AliasResult, ErrorView, Span, Ty, TyView, error, fault_of, told, ty_name,
};
use crate::typing::{check_expr, check_lone, check_place, gives, take_loan};
use vstd::prelude::*;

verus! {

/// A place below another projection.
pub open spec fn is_nested(place: PlaceFact) -> bool {
    match place {
        PlaceFact::Local { .. } => false,
        PlaceFact::Field { base, .. } => !(*base is Local),
        PlaceFact::Index { base, .. } => !(*base is Local),
    }
}

/// A pointer to a place.
pub open spec fn typed_refer(
    cx: ContextView,
    call: u32,
    args: Seq<ast::CallArg>,
    span: Span,
    env: Env,
    notes: NotesMap,
) -> Typed {
    match lone_fault(args, "refer"@, span) {
        Some(error) => Err(error),
        None => {
            let arg = args[0].value;
            match answer(cx.places, arg.id, arg.span) {
                Err(error) => Err(error),
                Ok(place) => if is_nested(place) {
                    Err(
                        told(arg.span, "refer nested subplace 尚缺独立 heap object descriptor"@),
                    )
                } else if cx.borrowed.contains(fact_root(place)) {
                    Err(told(arg.span, "refer source 必须直接根植于 owning Place"@))
                } else {
                    match answer(cx.writable, arg.id, arg.span) {
                        Err(error) => Err(error),
                        Ok(flag) => match typed_place(cx, "refer"@, arg, place, env, notes) {
                            Err(error) => Err(error),
                            Ok((ty, between)) => if ty is Unit || ty is Unknown {
                                Err(
                                    told(
                                        arg.span,
                                        "refer 需要完整可寻址类型，实际 "@ + ty_name(ty),
                                    ),
                                )
                            } else {
                                match noted_loan(call, place, flag, span, between) {
                                    Err(error) => Err(error),
                                    Ok(after) => Ok(
                                        (
                                            TyView::Ptr {
                                                pointee: Box::new(ty),
                                                nullable: false,
                                            },
                                            after,
                                        ),
                                    ),
                                }
                            },
                        },
                    }
                },
            }
        },
    }
}

fn nested(place: &LowerPlaceInfo) -> (r: bool)
    ensures
        r == is_nested(place@),
{
    match place {
        LowerPlaceInfo::Local { .. } => false,
        LowerPlaceInfo::Field { base, .. } => {
            assert((**base)@ is Local <==> **base is Local);
            !matches!(**base, LowerPlaceInfo::Local { .. })
        },
        LowerPlaceInfo::Index { base, .. } => {
            assert((**base)@ is Local <==> **base is Local);
            !matches!(**base, LowerPlaceInfo::Local { .. })
        },
    }
}

/// Checks a pointer to a place.
pub fn check_refer_call(
    cx: &Context,
    call: u32,
    args: &Vec<ast::CallArg>,
    span: Span,
    env: &Scope,
    notes: &mut Notes,
) -> (r: AliasResult<Ty>)
    ensures
        gives(r, final(notes)@, typed_refer(cx@, call, args@, span, env@, old(notes)@)),
{
    match check_lone(args, "refer", span) {
        Ok(()) => {},
        Err(error) => {
            return Err(error);
        },
    }
    let arg = &args[0].value;
    let place = match ask(&cx.places, arg.id, arg.span) {
        Ok(place) => place,
        Err(error) => {
            return Err(error);
        },
    };
    if nested(place) {
        return Err(error(arg.span, "refer nested subplace 尚缺独立 heap object descriptor"));
    }
    if cx.borrowed.contains(place.root_binding_id()) {
        return Err(error(arg.span, "refer source 必须直接根植于 owning Place"));
    }
    let flag = match ask(&cx.writable, arg.id, arg.span) {
        Ok(flag) => *flag,
        Err(error) => {
            return Err(error);
        },
    };
    let ty = match check_place(cx, "refer", arg, place, env, notes) {
        Ok(ty) => ty,
        Err(error) => {
            return Err(error);
        },
    };
    if matches!(ty, Ty::Unit | Ty::Unknown) {
        return Err(
            error2(arg.span, "refer 需要完整可寻址类型，实际 ", ty.name().as_str()),
        );
    }
    match take_loan(call, place, flag, span, notes) {
        Ok(()) => Ok(Ty::Ptr { pointee: Box::new(ty), nullable: false }),
        Err(error) => Err(error),
    }
}

/// The type of a new allocation.
pub open spec fn typed_allocate(cx: ContextView, slot: ast::TypeSlot, given: nat, span: Span) ->
    Result<TyView, ErrorView> {
    if given != 0 {
        Err(
            told(
                span,
                "malloc<T>(count) 的源码整数类型合同尚未冻结；当前只开放 malloc<T>()"@,
            ),
        )
    } else {
        match answer(cx.slots, slot.id, span) {
            Err(error) => Err(error),
            Ok(ty) => Ok(TyView::Ptr { pointee: Box::new(ty), nullable: true }),
        }
    }
}

/// Checks a new allocation.
pub fn check_raw_allocate(
    cx: &Context,
    element_ty: ast::TypeSlot,
    args: &Vec<ast::CallArg>,
    span: Span,
) -> (r: AliasResult<Ty>)
    ensures
        match typed_allocate(cx@, element_ty, args@.len(), span) {
            Ok(ty) => r matches Ok(found) && found@ == ty,
            Err(error) => fault_of(r) == Some(error),
        },
{
    if args.len() != 0 {
        return Err(
            error(
                span,
                "malloc<T>(count) 的源码整数类型合同尚未冻结；当前只开放 malloc<T>()",
            ),
        );
    }
    match ask(&cx.slots, element_ty.id, span) {
        Err(error) => Err(error),
        Ok(ty) => Ok(Ty::Ptr { pointee: Box::new(ty.clone()), nullable: true }),
    }
}

/// The end of an allocation.
pub open spec fn typed_free(
    cx: ContextView,
    args: Seq<ast::CallArg>,
    span: Span,
    env: Env,
    notes: NotesMap,
) -> Typed {
    match lone_fault(args, "free"@, span) {
        Some(error) => Err(error),
        None => match typed(cx, args[0].value, env, notes) {
            Err(error) => Err(error),
            Ok((ty, after)) => if ty is Ptr {
                Ok((TyView::Unit, after))
            } else {
                Err(
                    told(
                        args[0].value.span,
                        "free 需要 allocation-root ptr，实际 "@ + ty_name(ty),
                    ),
                )
            },
        },
    }
}

/// Checks the end of an allocation.
pub fn check_raw_free(
    cx: &Context,
    args: &Vec<ast::CallArg>,
    span: Span,
    env: &Scope,
    notes: &mut Notes,
) -> (r: AliasResult<Ty>)
    ensures
        gives(r, final(notes)@, typed_free(cx@, args@, span, env@, old(notes)@)),
{
    match check_lone(args, "free", span) {
        Ok(()) => {},
        Err(error) => {
            return Err(error);
        },
    }
    match check_expr(cx, &args[0].value, env, notes) {
        Err(error) => Err(error),
        Ok(ty) => if matches!(ty, Ty::Ptr { .. }) {
            Ok(Ty::Unit)
        } else {
            Err(
                error2(
                    args[0].value.span,
                    "free 需要 allocation-root ptr，实际 ",
                    ty.name().as_str(),
                ),
            )
        },
    }
}

/// Where the address behind a pointer comes from.
pub open spec fn view_source(cx: ContextView, arg: ast::Expr, notes: NotesMap) -> Result<
    PointerViewSource,
    ErrorView,
> {
    match found(notes.pointer_views, arg.id) {
        Some(source) => Ok(source),
        None => match found(notes.borrow_places, arg.id) {
            Some(borrow) => Ok(PointerViewSource::Loan(borrow.loan_id)),
            None => match found(notes.expr_binding_ids, arg.id) {
                Some(id) => if cx.borrowed.contains(id) {
                    Ok(PointerViewSource::Binding(id))
                } else {
                    Err(
                        told(
                            arg.span,
                            "reinterpret<T> 当前只从 borrow-derived pointer view 派生"@,
                        ),
                    )
                },
                None => Err(
                    told(
                        arg.span,
                        "reinterpret<T> source 必须是 borrow-derived pointer view"@,
                    ),
                ),
            },
        },
    }
}

fn find_source(cx: &Context, arg: &ast::Expr, notes: &Notes) -> (r: AliasResult<PointerViewSource>)
    ensures
        match view_source(cx@, *arg, notes@) {
            Ok(source) => r == Ok::<PointerViewSource, AliasError>(source),
            Err(error) => fault_of(r) == Some(error),
        },
{
    if let Some(source) = notes.pointer_views.get(arg.id) {
        return Ok(*source);
    }
    if let Some(borrow) = notes.borrow_places.get(arg.id) {
        return Ok(PointerViewSource::Loan(borrow.loan_id));
    }
    match notes.expr_binding_ids.get(arg.id) {
        Some(id) => if cx.borrowed.contains(*id) {
            Ok(PointerViewSource::Binding(*id))
        } else {
            Err(
                error(arg.span, "reinterpret<T> 当前只从 borrow-derived pointer view 派生"),
            )
        },
        None => Err(error(arg.span, "reinterpret<T> source 必须是 borrow-derived pointer view")),
    }
}

/// A pointer that is looked at as a pointer to another type.
pub open spec fn typed_reinterpret(
    cx: ContextView,
    call: u32,
    slot: ast::TypeSlot,
    args: Seq<ast::CallArg>,
    span: Span,
    env: Env,
    notes: NotesMap,
) -> Typed {
    match lone_fault(args, "reinterpret<T>"@, span) {
        Some(error) => Err(error),
        None => match answer(cx.slots, slot.id, span) {
            Err(error) => Err(error),
            Ok(goal) => match typed(cx, args[0].value, env, notes) {
                Err(error) => Err(error),
                Ok((ty, between)) => if !(ty matches TyView::Ptr { nullable: false, .. }) {
                    Err(
                        told(
                            args[0].value.span,
                            "reinterpret<T> 需要 non-null ptr source，实际 "@ + ty_name(ty),
                        ),
                    )
                } else {
                    match view_source(cx, args[0].value, between) {
                        Err(error) => Err(error),
                        Ok(source) => Ok(
                            (
                                TyView::Ptr { pointee: Box::new(goal), nullable: false },
                                NotesMap {
                                    pointer_views: between.pointer_views.insert(call, source),
                                    ..between
                                },
                            ),
                        ),
                    }
                },
            },
        },
    }
}

/// Checks a pointer that is looked at as a pointer to another type.
pub fn check_reinterpret(
    cx: &Context,
    call: u32,
    slot: ast::TypeSlot,
    args: &Vec<ast::CallArg>,
    span: Span,
    env: &Scope,
    notes: &mut Notes,
) -> (r: AliasResult<Ty>)
    ensures
        gives(
            r,
            final(notes)@,
            typed_reinterpret(cx@, call, slot, args@, span, env@, old(notes)@),
        ),
{
    match check_lone(args, "reinterpret<T>", span) {
        Ok(()) => {},
        Err(error) => {
            return Err(error);
        },
    }
    let goal = match ask(&cx.slots, slot.id, span) {
        Ok(goal) => goal,
        Err(error) => {
            return Err(error);
        },
    };
    let arg = &args[0].value;
    let ty = match check_expr(cx, arg, env, notes) {
        Ok(ty) => ty,
        Err(error) => {
            return Err(error);
        },
    };
    if !matches!(ty, Ty::Ptr { nullable: false, .. }) {
        return Err(
            error2(
                arg.span,
                "reinterpret<T> 需要 non-null ptr source，实际 ",
                ty.name().as_str(),
            ),
        );
    }
    match find_source(cx, arg, notes) {
        Err(error) => Err(error),
        Ok(source) => {
            notes.pointer_views.insert(call, source);
            Ok(Ty::Ptr { pointee: Box::new(goal.clone()), nullable: false })
        },
    }
}

/// A statement that counts a variable up or down.
pub open spec fn typed_incdec(
    name: Seq<char>,
    args: Seq<ast::CallArg>,
    span: Span,
    env: Env,
    notes: NotesMap,
) -> Typed {
    if args.len() != 1 {
        Err(told(span, name + " 恰好接受 1 个参数"@))
    } else {
        let arg = args[0].value;
        match arg.kind {
            ast::ExprKind::Ident(target) => match in_scope(env, target@) {
                None => Err(told(arg.span, "'"@ + target@ + "' 未定义"@)),
                Some(info) => if !info.mutable {
                    Err(
                        told(arg.span, "'"@ + target@ + "' 是 val 绑定, 不能 "@ + name),
                    )
                } else if info.ty is Unknown || info.ty.is_numeric() {
                    Ok(
                        (
                            TyView::Unit,
                            note_type(
                                NotesMap {
                                    expr_binding_ids: notes.expr_binding_ids.insert(
                                        arg.id,
                                        info.id,
                                    ),
                                    ..notes
                                },
                                arg.id,
                                info.ty,
                            ),
                        ),
                    )
                } else {
                    Err(told(arg.span, name + " 需要数值类型, 实际 "@ + ty_name(info.ty)))
                },
            },
            _ => Err(told(span, name + " 的参数必须是可变绑定名"@)),
        }
    }
}

/// Checks a statement that counts a variable up or down.
pub fn incdec(
    name: &String,
    args: &Vec<ast::CallArg>,
    span: Span,
    env: &Scope,
    notes: &mut Notes,
) -> (r: AliasResult<Ty>)
    ensures
        gives(r, final(notes)@, typed_incdec(name@, args@, span, env@, old(notes)@)),
{
    if args.len() != 1 {
        return Err(error2(span, name.as_str(), " 恰好接受 1 个参数"));
    }
    let arg = &args[0].value;
    let target = match &arg.kind {
        ast::ExprKind::Ident(target) => target,
        _ => {
            return Err(error2(span, name.as_str(), " 的参数必须是可变绑定名"));
        },
    };
    match env.get(target) {
        None => Err(error3(arg.span, "'", target.as_str(), "' 未定义")),
        Some(info) => {
            if !info.mutable {
                return Err(
                    error4(
                        arg.span,
                        "'",
                        target.as_str(),
                        "' 是 val 绑定, 不能 ",
                        name.as_str(),
                    ),
                );
            }
            if info.ty.is_unknown() || info.ty.is_numeric() {
                notes.expr_binding_ids.insert(arg.id, info.id);
                notes.record_expr_type(arg.id, info.ty.clone());
                Ok(Ty::Unit)
            } else {
                Err(
                    error3(
                        arg.span,
                        name.as_str(),
                        " 需要数值类型, 实际 ",
                        info.ty.name().as_str(),
                    ),
                )
            }
        },
    }
}

/// A pointer that is made from a place is never null.
pub proof fn law_references_are_never_null(
    cx: ContextView,
    call: u32,
    args: Seq<ast::CallArg>,
    span: Span,
    env: Env,
    notes: NotesMap,
)
    ensures
        typed_refer(cx, call, args, span, env, notes) matches Ok((ty, _)) ==> ty matches
            TyView::Ptr { nullable: false, .. },
{
}

} // verus!
