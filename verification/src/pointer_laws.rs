//! The typing rules of pointers, and of stepping a variable.

use crate::ast;
use crate::capture::{SeedView, capture_count, planned_captures};
use crate::checker_state::{ContextView, NotesMap};
use crate::facts::{PlaceFact, fact_root, found};
use crate::model::{BinOp, Expr, PointerViewSource, RuntimeCheckRequirement};
use crate::pointers::{typed_allocate, typed_free, typed_incdec, typed_refer, typed_reinterpret};
use crate::runtime_checks::{pointer_checks, refer_offset, written_integer};
use crate::tree::{Label, Tree};
use crate::typed::{Env, typed, typed_raw};
use crate::types::{LoanId, Span, TyView};
use crate::typing_laws::{has, innermost, lemma_innermost, number};
use vstd::prelude::*;

verus! {

/// To refer to a variable, or to a part of one, gives a pointer to what it holds that is never
/// null, under the next loan. Neither an alias nor a part of a part can be referred to.
pub proof fn law_referring_points_to_the_source(
    cx: ContextView,
    call: u32,
    args: Seq<ast::CallArg>,
    span: Span,
    env: Env,
    notes: NotesMap,
)
    requires
        typed_refer(cx, call, args, span, env, notes) is Ok,
    ensures
        args.len() == 1,
        args[0].label is None,
        match (typed_raw(cx, args[0].value, env, notes), found(cx.places, args[0].value.id)) {
            (Ok((ty, between)), Some(Ok(place))) => {
                &&& has(
                    typed_refer(cx, call, args, span, env, notes),
                    TyView::Ptr { pointee: Box::new(ty), nullable: false },
                )
                &&& !(ty is Unit) && !(ty is Unknown)
                &&& !cx.borrowed.contains(fact_root(place))
                &&& match place {
                    PlaceFact::Local { .. } => true,
                    PlaceFact::Field { base, .. } => *base is Local,
                    PlaceFact::Index { base, .. } => *base is Local,
                }
                &&& typed_refer(cx, call, args, span, env, notes)->Ok_0.1.next_loan
                    == between.next_loan + 1
            },
            _ => false,
        },
{
}

/// Storage that is asked for may not be had: the pointer to it may be null. What is given back is
/// a pointer, and nothing comes of it.
pub proof fn law_storage_is_asked_for_and_given_back(
    cx: ContextView,
    slot: ast::TypeSlot,
    given: nat,
    args: Seq<ast::CallArg>,
    span: Span,
    env: Env,
    notes: NotesMap,
)
    ensures
        typed_allocate(cx, slot, given, span) matches Ok(ty) ==> given == 0 && match found(
            cx.slots,
            slot.id,
        ) {
            Some(Ok(goal)) => ty == (TyView::Ptr { pointee: Box::new(goal), nullable: true }),
            _ => false,
        },
        typed_free(cx, args, span, env, notes) matches Ok((ty, _)) ==> args.len() == 1 && ty
            == TyView::Unit && match typed(cx, args[0].value, env, notes) {
            Ok((source, _)) => source is Ptr,
            Err(_) => false,
        },
{
}

/// A pointer is seen as one to another type only where it is never null and known to come from a
/// loan; it stays so, and is still known to come from there.
pub proof fn law_seen_pointers_keep_their_source(
    cx: ContextView,
    call: u32,
    slot: ast::TypeSlot,
    args: Seq<ast::CallArg>,
    span: Span,
    env: Env,
    notes: NotesMap,
)
    requires
        typed_reinterpret(cx, call, slot, args, span, env, notes) is Ok,
    ensures
        args.len() == 1,
        match (typed(cx, args[0].value, env, notes), found(cx.slots, slot.id)) {
            (Ok((TyView::Ptr { nullable, .. }, between)), Some(Ok(goal))) => {
                let after = typed_reinterpret(cx, call, slot, args, span, env, notes)->Ok_0.1;
                let arg = args[0].value;
                &&& !nullable
                &&& has(
                    typed_reinterpret(cx, call, slot, args, span, env, notes),
                    TyView::Ptr { pointee: Box::new(goal), nullable: false },
                )
                &&& match found(between.pointer_views, arg.id) {
                    Some(source) => found(after.pointer_views, call) == Some(source),
                    None => match found(between.borrow_places, arg.id) {
                        Some(borrow) => found(after.pointer_views, call) == Some(
                            PointerViewSource::Loan(borrow.loan_id),
                        ),
                        None => match found(between.expr_binding_ids, arg.id) {
                            Some(id) => cx.borrowed.contains(id) && found(
                                after.pointer_views,
                                call,
                            ) == Some(PointerViewSource::Binding(id)),
                            None => false,
                        },
                    },
                }
            },
            _ => false,
        },
{
}

/// Only a number that is declared to vary is stepped, and nothing comes of it.
pub proof fn law_only_varying_numbers_are_stepped(
    name: Seq<char>,
    args: Seq<ast::CallArg>,
    span: Span,
    env: Env,
    notes: NotesMap,
    k: int,
)
    requires
        typed_incdec(name, args, span, env, notes) is Ok,
    ensures
        args.len() == 1,
        has(typed_incdec(name, args, span, env, notes), TyView::Unit),
        match args[0].value.kind {
            ast::ExprKind::Ident(target) => innermost(env, target@, k) ==> env[k].1.mutable && (
            number(env[k].1.ty) || env[k].1.ty is Unknown),
            _ => false,
        },
{
    if let ast::ExprKind::Ident(target) = args[0].value.kind {
        if innermost(env, target@, k) {
            lemma_innermost(env, target@, k);
        }
    }
}

/// A pointer that is moved by a number known beforehand stays at what it points to or right behind
/// it; one that would go elsewhere is refused. Where the number is not known the bounds are checked
/// at run time.
pub proof fn law_moved_pointers_stay_in_bounds(op: BinOp, left: Expr, right: Expr)
    requires
        left.tyv() matches TyView::Ptr { nullable: false, .. },
        op is Add || op is Sub,
        right.tyv() is Int || right.tyv() is UInt,
    ensures
        match (refer_offset(left), written_integer(right)) {
            (Some(at), Some(by)) => {
                let to = if op is Add {
                    at + by
                } else {
                    at - by
                };
                &&& pointer_checks(op, left, right) is Ok <==> 0 <= to <= 1
                &&& pointer_checks(op, left, right) matches Ok(checks) ==> checks.bounds == Some(
                    RuntimeCheckRequirement::Proven,
                )
            },
            _ => pointer_checks(op, left, right) is Ok,
        },
        pointer_checks(op, left, right) matches Ok(checks) ==> checks.bounds is Some
            && checks.provenance is None && checks.alignment is None,
        written_integer(right) is None ==> (pointer_checks(op, left, right) matches Ok(checks)
            ==> checks.bounds == Some(RuntimeCheckRequirement::Required)),
{
    lemma_zero_is_written(right);
}

proof fn lemma_zero_is_written(expr: Expr)
    ensures
        crate::runtime_checks::written_zero(expr) ==> written_integer(expr) is Some,
    decreases expr,
{
    match expr {
        Expr::Convert { expr: inner, .. } => lemma_zero_is_written(*inner),
        _ => {},
    }
}

/// Where two pointers are compared or taken from one another, they must come from one place.
pub proof fn law_compared_pointers_come_from_one_place(op: BinOp, left: Expr, right: Expr)
    requires
        left.tyv() matches TyView::Ptr { nullable: false, .. },
        left.tyv() == right.tyv(),
    ensures
        pointer_checks(op, left, right) matches Ok(checks) && {
            &&& op is Lt || op is Le || op is Gt || op is Ge || op is Sub ==> checks.provenance
                == Some(RuntimeCheckRequirement::Required)
            &&& op is Sub <==> checks.alignment == Some(RuntimeCheckRequirement::Required)
            &&& checks.bounds is None
        },
{
}

/// The loan that a function captures a variable under.
pub open spec fn capture_loan(tree: Tree) -> Option<LoanId> {
    match tree.label {
        Label::Capture(_, loan, _) => Some(loan),
        _ => None,
    }
}

proof fn lemma_counts(seeds: Seq<Seq<SeedView>>, a: nat, b: nat)
    requires
        a < b <= seeds.len(),
    ensures
        capture_count(seeds, a) + seeds[a as int].len() <= capture_count(seeds, b),
    decreases b,
{
    if a + 1 < b {
        lemma_counts(seeds, a, (b - 1) as nat);
    }
}

/// Every captured variable gets a loan of its own: within a function and between functions no two
/// captures share one, and each captures the variable that was found to be used.
pub proof fn law_captures_get_loans_of_their_own(
    seeds: Seq<Seq<SeedView>>,
    first: u32,
    k: int,
    i: int,
    l: int,
    j: int,
)
    requires
        first + capture_count(seeds, seeds.len()) <= u32::MAX,
        0 <= k < seeds.len(),
        0 <= l < seeds.len(),
        0 <= i < seeds[k].len(),
        0 <= j < seeds[l].len(),
    ensures
        planned_captures(seeds, first, k).len() == seeds[k].len(),
        planned_captures(seeds, first, k)[i].label matches Label::Capture(id, loan, kind) && id
            == seeds[k][i].binding_id && first <= loan.0 && kind is None,
        planned_captures(seeds, first, k)[i].kids == seq![seeds[k][i].source],
        k != l || i != j ==> capture_loan(planned_captures(seeds, first, k)[i]) != capture_loan(
            planned_captures(seeds, first, l)[j],
        ),
{
    lemma_counts(seeds, k as nat, seeds.len());
    lemma_counts(seeds, l as nat, seeds.len());
    if k < l {
        lemma_counts(seeds, k as nat, l as nat);
    } else if l < k {
        lemma_counts(seeds, l as nat, k as nat);
    }
}

} // verus!
