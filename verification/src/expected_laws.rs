//! The typing rules of expressions of which a type is expected.

use crate::ast;
use crate::checker_state::{ContextView, NotesMap, user_method};
use crate::contract_laws::may_become;
use crate::facts::found;
use crate::literals::slot_view;
use crate::typed::{
    Env, conversion_of, converted, typed, typed_bool, typed_conversion, typed_expected,
    typed_expected_inner, typed_inferred, typed_inner, typed_items, typed_juxtapose, typed_raw,
    typed_shape, typed_value,
};
use crate::types::{TyView, fits, ty_name};
use crate::typing_laws::{goes_into, has, has_somewhere};
use vstd::prelude::*;

verus! {

/// Fields, elements, truth values, method calls and results that are handed on are looked at by
/// themselves: they go where a type is expected exactly when they have a type that fits.
pub proof fn law_values_go_where_they_fit(
    cx: ContextView,
    e: ast::Expr,
    env: Env,
    want: TyView,
    notes: NotesMap,
)
    requires
        e.kind is Field || e.kind is Index || e.kind is Bool || e.kind is MethodCall
            || e.kind is Propagate || e.kind is Not || e.kind is Cast,
    ensures
        typed_expected(cx, e, env, want, notes) is Ok <==> (typed_value(
            cx,
            e,
            env,
            notes,
        ) matches Ok((ty, _)) && fits(want, ty)),
{
    let inner = typed_expected_inner(cx, e, env, want, notes);
    assert(conversion_of(e) is None);
    assert(slot_view(want, e) is Other);
    let shape = typed_shape(cx, e, env, want, notes);
    assert(inner == shape);
    assert(shape == typed_inferred(cx, e, env, want, notes));
}

/// A choice of which a type is expected hands it on to both of its branches, and its condition is
/// a bool.
pub proof fn law_choices_hand_on_what_is_expected(
    cx: ContextView,
    e: ast::Expr,
    env: Env,
    want: TyView,
    notes: NotesMap,
)
    requires
        typed_expected(cx, e, env, want, notes) is Ok,
    ensures
        e.kind matches ast::ExprKind::Ternary { cond, then_expr, else_expr } ==> (has(
            typed(cx, *cond, env, notes),
            TyView::Bool,
        ) || has(typed(cx, *cond, env, notes), TyView::Unknown)) && goes_into(
            cx,
            *then_expr,
            env,
            want,
        ) && goes_into(cx, *else_expr, env, want),
{
    if let ast::ExprKind::Ternary { cond, then_expr, else_expr } = e.kind {
        let inner = typed_expected_inner(cx, e, env, want, notes);
        assert(conversion_of(e) is None);
        assert(slot_view(want, e) is Other);
        let shape = typed_shape(cx, e, env, want, notes);
        assert(inner == shape);
        let one = typed_bool(cx, *cond, env, "?: 条件"@, notes)->Ok_0;
        assert(typed_expected(cx, *then_expr, env, want, one) is Ok);
        let two = typed_expected(cx, *then_expr, env, want, one)->Ok_0.1;
        assert(typed_expected(cx, *else_expr, env, want, two) is Ok);
    }
}

proof fn lemma_items(
    cx: ContextView,
    elems: Seq<ast::Expr>,
    elem: TyView,
    env: Env,
    notes: NotesMap,
    upto: nat,
)
    requires
        upto <= elems.len(),
        typed_items(cx, elems, elem, env, notes, upto) is Ok,
    ensures
        forall|k: int| 0 <= k < upto ==> goes_into(cx, #[trigger] elems[k], env, elem),
    decreases upto,
{
    if upto > 0 {
        let less = (upto - 1) as nat;
        lemma_items(cx, elems, elem, env, notes, less);
        let so_far = typed_items(cx, elems, elem, env, notes, less)->Ok_0;
        assert(typed_expected(cx, elems[less as int], env, elem, so_far) is Ok);
    }
}

/// An array of which a type is expected hands the type of its elements on to each of them.
pub proof fn law_arrays_hand_on_what_is_expected(
    cx: ContextView,
    e: ast::Expr,
    env: Env,
    elem: TyView,
    notes: NotesMap,
)
    requires
        typed_expected(cx, e, env, TyView::Array(Box::new(elem)), notes) is Ok,
    ensures
        e.kind matches ast::ExprKind::ArrayLit { elems } ==> forall|k: int|
            0 <= k < elems@.len() ==> goes_into(cx, #[trigger] elems@[k], env, elem),
{
    if let ast::ExprKind::ArrayLit { elems } = e.kind {
        let want = TyView::Array(Box::new(elem));
        let inner = typed_expected_inner(cx, e, env, want, notes);
        assert(conversion_of(e) is None);
        assert(slot_view(want, e) is Other);
        let shape = typed_shape(cx, e, env, want, notes);
        assert(inner == shape);
        lemma_items(cx, elems@, elem, env, notes, elems@.len());
    }
}

/// A conversion gives the type that is expected. What `from` converts can become that type; what
/// `try_from` converts can become it or fits it as it is.
pub proof fn law_conversions_reach_the_expected_type(
    cx: ContextView,
    e: ast::Expr,
    env: Env,
    want: TyView,
    notes: NotesMap,
)
    requires
        typed_expected(cx, e, env, want, notes) is Ok,
    ensures
        e.kind matches ast::ExprKind::Call { callee, args } ==> callee.kind matches
            ast::ExprKind::Ident(name) ==> (name@ == "from"@ || name@ == "try_from"@)
            && args@.len() == 1 ==> typed_expected(cx, e, env, want, notes)->Ok_0.0 == want
            && match typed_value(cx, args@[0].value, env, notes) {
            Ok((source, _)) => may_become(source, want) || (name@ != "from"@ && exists|ty: TyView|
                #[trigger] has_somewhere(cx, args@[0].value, env, ty) && fits(want, ty)),
            Err(_) => false,
        },
{
    if let ast::ExprKind::Call { callee, args } = e.kind {
        if let ast::ExprKind::Ident(name) = callee.kind {
            if (name@ == "from"@ || name@ == "try_from"@) && args@.len() == 1 {
                let arg = args@[0].value;
                let inner = typed_expected_inner(cx, e, env, want, notes);
                let made = typed_conversion(cx, name@, e, arg, env, want, notes);
                assert(inner == made);
                let first = converted(cx, name@, e, arg, env, want, notes);
                assert(first is Ok);
                let (source, after) = typed_value(cx, arg, env, notes)->Ok_0;
                if !may_become(source, want) {
                    let marked = crate::checker_state::note_target(
                        after,
                        e.id,
                        crate::facts::TargetView::ContextualConversion(
                            crate::model::ResolvedConversion::Identity,
                        ),
                    );
                    assert(typed_inferred(cx, arg, env, want, marked) is Ok);
                    let ty = typed_value(cx, arg, env, marked)->Ok_0.0;
                    assert(has(typed_value(cx, arg, env, marked), ty));
                    assert(has_somewhere(cx, arg, env, ty));
                }
            }
        }
    }
}

/// Side by side, a function of one parameter is called with what stands to its right; anything
/// else that is no function has a method called that the name to its right stands for.
pub proof fn law_things_side_by_side(cx: ContextView, e: ast::Expr, env: Env, notes: NotesMap)
    requires
        typed(cx, e, env, notes) is Ok,
    ensures
        e.kind matches ast::ExprKind::Juxtapose { lhs, rhs } ==> match typed_raw(
            cx,
            *lhs,
            env,
            notes,
        ) {
            Ok((left, _)) => match left {
                TyView::Func { params, ret, .. } => params.len() == 1 ==> has(
                    typed(cx, e, env, notes),
                    *ret,
                ) && goes_into(cx, *rhs, env, params[0]),
                TyView::FuncPoly => has(typed(cx, e, env, notes), TyView::Unknown),
                TyView::Unknown => has(typed(cx, e, env, notes), TyView::Unknown),
                _ => match rhs.kind {
                    ast::ExprKind::Ident(name) => found(cx.builtins, e.id) is None ==> match user_method(
                        cx.methods,
                        ty_name(left),
                        name@,
                    ) {
                        Some(method) => method.params.len() == 0 && has(
                            typed(cx, e, env, notes),
                            method.ret,
                        ),
                        None => false,
                    },
                    _ => false,
                },
            },
            Err(_) => false,
        },
{
    if let ast::ExprKind::Juxtapose { lhs, rhs } = e.kind {
        assert(typed_inner(cx, e, env, notes) == typed_juxtapose(cx, e, env, notes));
        if let Ok((left, between)) = typed_raw(cx, *lhs, env, notes) {
            if let TyView::Func { params, .. } = left {
                if params.len() == 1 {
                    assert(typed_expected(cx, *rhs, env, params[0], between) is Ok);
                }
            }
        }
    }
}

} // verus!
