//! What a match that is accepted does with the values of its subject.

use crate::ast;
use crate::checker_state::{ContextView, NotesMap};
use crate::match_rules::{CoverView, no_cover, pattern_step};
use crate::model::{CtorKind, Pattern};
use crate::typed::{Env, typed_arms, typed_match, typed_value};
use crate::types::TyView;
use crate::typing_laws::in_range;
use vstd::prelude::*;

verus! {

/// A value, as far as a pattern can tell it from others.
pub enum Datum {
    Number(int),
    Truth(bool),
    Text(Seq<char>),
    Success,
    Failure,
    Whole,
}

/// The values of a type.
pub open spec fn value_of(datum: Datum, ty: TyView) -> bool {
    match ty {
        TyView::Int(_) => datum matches Datum::Number(n) && in_range(ty, n),
        TyView::UInt(_) => datum matches Datum::Number(n) && in_range(ty, n),
        TyView::Bool => datum is Truth,
        TyView::Str => datum is Text,
        TyView::Result(_, _) => datum is Success || datum is Failure,
        _ => datum is Whole,
    }
}

/// The values that a pattern takes.
pub open spec fn accepts(pattern: Pattern, datum: Datum) -> bool {
    match pattern {
        Pattern::Wildcard { .. } => true,
        Pattern::Binding { .. } => true,
        Pattern::Int { value, .. } => datum == Datum::Number(value as int),
        Pattern::Bool { value, .. } => datum == Datum::Truth(value),
        Pattern::Str { value, .. } => datum == Datum::Text(value@),
        Pattern::Constructor { ctor, .. } => match ctor {
            CtorKind::OkCtor => datum is Success,
            CtorKind::ErrCtor => datum is Failure,
        },
    }
}

/// A pattern that takes every value.
pub open spec fn takes_all(pattern: Pattern) -> bool {
    pattern is Wildcard || pattern is Binding
}

/// A pattern takes some value of the type.
pub open spec fn takes_some(pattern: Pattern, ty: TyView) -> bool {
    exists|datum: Datum| value_of(datum, ty) && accepts(pattern, datum)
}

/// The values that the first arms take.
pub open spec fn accepted(arms: Seq<ast::MatchArm>, upto: nat, datum: Datum) -> bool {
    exists|i: int| 0 <= i < upto && accepts(#[trigger] arms[i].pattern, datum)
}

/// Some of the first arms takes the value, and not every value.
pub open spec fn listed(arms: Seq<ast::MatchArm>, upto: nat, datum: Datum) -> bool {
    exists|i: int|
        0 <= i < upto && accepts(#[trigger] arms[i].pattern, datum) && !takes_all(arms[i].pattern)
}

/// Some of the first arms takes every value.
pub open spec fn caught(arms: Seq<ast::MatchArm>, upto: nat) -> bool {
    exists|i: int| 0 <= i < upto && takes_all(#[trigger] arms[i].pattern)
}

/// What is known to be covered is what the first arms take.
spec fn agrees(cover: CoverView, st: TyView, arms: Seq<ast::MatchArm>, upto: nat) -> bool {
    &&& cover.ok <==> listed(arms, upto, Datum::Success)
    &&& cover.err <==> listed(arms, upto, Datum::Failure)
    &&& cover.yes <==> listed(arms, upto, Datum::Truth(true))
    &&& cover.no <==> listed(arms, upto, Datum::Truth(false))
    &&& forall|n: i128| #[trigger]
        cover.ints.contains(n) <==> listed(arms, upto, Datum::Number(n as int))
    &&& forall|text: Seq<char>| #[trigger]
        cover.texts.contains(text) <==> listed(arms, upto, Datum::Text(text))
    &&& cover.all <==> caught(arms, upto) || (st is Result && cover.ok && cover.err) || (st is Bool
        && cover.yes && cover.no)
}

proof fn lemma_listed(arms: Seq<ast::MatchArm>, upto: nat, datum: Datum)
    requires
        upto < arms.len(),
    ensures
        listed(arms, upto + 1, datum) <==> listed(arms, upto, datum) || (accepts(
            arms[upto as int].pattern,
            datum,
        ) && !takes_all(arms[upto as int].pattern)),
        caught(arms, upto + 1) <==> caught(arms, upto) || takes_all(arms[upto as int].pattern),
{
    if listed(arms, upto, datum) {
        let i = choose|i: int|
            0 <= i < upto && accepts(#[trigger] arms[i].pattern, datum) && !takes_all(
                arms[i].pattern,
            );
        assert(accepts(arms[i].pattern, datum));
    }
    if caught(arms, upto) {
        let i = choose|i: int| 0 <= i < upto && takes_all(#[trigger] arms[i].pattern);
        assert(takes_all(arms[i].pattern));
    }
}

proof fn lemma_pushed<A>(list: Seq<A>, item: A, other: A)
    ensures
        list.push(item).contains(other) <==> list.contains(other) || item == other,
{
    if list.contains(other) {
        let i = choose|i: int| 0 <= i < list.len() && list[i] == other;
        assert(list.push(item)[i] == other);
    }
    assert(list.push(item)[list.len() as int] == item);
}

proof fn lemma_step(st: TyView, arms: Seq<ast::MatchArm>, upto: nat, cover: CoverView)
    requires
        upto < arms.len(),
        agrees(cover, st, arms, upto),
        pattern_step(st, arms[upto as int].pattern, cover) is Ok,
    ensures
        agrees(pattern_step(st, arms[upto as int].pattern, cover)->Ok_0.1, st, arms, upto + 1),
        !caught(arms, upto),
        forall|datum: Datum|
            accepts(arms[upto as int].pattern, datum) && !takes_all(arms[upto as int].pattern)
                ==> !#[trigger] listed(arms, upto, datum),
        takes_some(arms[upto as int].pattern, st),
{
    let pattern = arms[upto as int].pattern;
    let after = pattern_step(st, pattern, cover)->Ok_0.1;
    lemma_listed(arms, upto, Datum::Success);
    lemma_listed(arms, upto, Datum::Failure);
    lemma_listed(arms, upto, Datum::Truth(true));
    lemma_listed(arms, upto, Datum::Truth(false));
    assert forall|n: i128| #[trigger] after.ints.contains(n) <==> listed(
        arms,
        upto + 1,
        Datum::Number(n as int),
    ) by {
        lemma_listed(arms, upto, Datum::Number(n as int));
        assert(cover.ints.contains(n) <==> listed(arms, upto, Datum::Number(n as int)));
        if let Pattern::Int { value, .. } = pattern {
            lemma_pushed(cover.ints, value, n);
        }
    }
    assert forall|text: Seq<char>| #[trigger] after.texts.contains(text) <==> listed(
        arms,
        upto + 1,
        Datum::Text(text),
    ) by {
        lemma_listed(arms, upto, Datum::Text(text));
        assert(cover.texts.contains(text) <==> listed(arms, upto, Datum::Text(text)));
        if let Pattern::Str { value, .. } = pattern {
            lemma_pushed(cover.texts, value@, text);
        }
    }
    match pattern {
        Pattern::Int { value, .. } => {
            assert(!cover.ints.contains(value));
            let datum = Datum::Number(value as int);
            assert(value_of(datum, st) && accepts(pattern, datum));
        },
        Pattern::Str { value, .. } => {
            assert(!cover.texts.contains(value@));
            let datum = Datum::Text(value@);
            assert(value_of(datum, st) && accepts(pattern, datum));
        },
        Pattern::Bool { value, .. } => {
            let datum = Datum::Truth(value);
            assert(value_of(datum, st) && accepts(pattern, datum));
        },
        Pattern::Constructor { ctor, .. } => {
            let datum = match ctor {
                CtorKind::OkCtor => Datum::Success,
                CtorKind::ErrCtor => Datum::Failure,
            };
            assert(value_of(datum, st) && accepts(pattern, datum));
        },
        _ => {
            let datum = match st {
                TyView::Int(_) => Datum::Number(0),
                TyView::UInt(_) => Datum::Number(0),
                TyView::Bool => Datum::Truth(true),
                TyView::Str => Datum::Text(Seq::empty()),
                TyView::Result(_, _) => Datum::Success,
                _ => Datum::Whole,
            };
            assert(value_of(datum, st) && accepts(pattern, datum));
        },
    }
}

/// The arms of a match that were looked at, one after the other.
spec fn looked_at(
    cx: ContextView,
    st: TyView,
    arms: Seq<ast::MatchArm>,
    env: Env,
    expected: Option<TyView>,
    notes: NotesMap,
    upto: nat,
) -> bool {
    &&& upto <= arms.len()
    &&& typed_arms(cx, st, arms, env, expected, notes, upto) is Ok
}

proof fn lemma_arms(
    cx: ContextView,
    st: TyView,
    arms: Seq<ast::MatchArm>,
    env: Env,
    expected: Option<TyView>,
    notes: NotesMap,
    upto: nat,
)
    requires
        looked_at(cx, st, arms, env, expected, notes, upto),
    ensures
        agrees(
            typed_arms(cx, st, arms, env, expected, notes, upto)->Ok_0.cover,
            st,
            arms,
            upto,
        ),
        forall|k: int|
            0 <= k < upto ==> !#[trigger] caught(arms, k as nat) && takes_some(
                arms[k].pattern,
                st,
            ),
        forall|k: int, datum: Datum|
            0 <= k < upto && accepts(arms[k].pattern, datum) && !takes_all(arms[k].pattern)
                ==> !#[trigger] listed(arms, k as nat, datum),
    decreases upto,
{
    if upto > 0 {
        let less = (upto - 1) as nat;
        lemma_arms(cx, st, arms, env, expected, notes, less);
        let cover = typed_arms(cx, st, arms, env, expected, notes, less)->Ok_0.cover;
        lemma_step(st, arms, less, cover);
        assert forall|k: int| 0 <= k < upto implies !#[trigger] caught(arms, k as nat)
            && takes_some(arms[k].pattern, st) by {
            if k == less {
                assert(k as nat == less);
            } else {
                assert(!caught(arms, k as nat));
            }
        }
    } else {
        let cover = no_cover();
        assert(forall|n: i128| !cover.ints.contains(n));
        assert(forall|text: Seq<char>| !cover.texts.contains(text));
    }
}

/// A match that is accepted takes every value of its subject: whichever comes, some arm takes it.
/// Every arm takes some value of the subject, no two arms name the same value, and nothing comes
/// after an arm that takes every value.
pub proof fn law_accepted_matches_take_every_value(
    cx: ContextView,
    e: ast::Expr,
    env: Env,
    expected: Option<TyView>,
    notes: NotesMap,
    st: TyView,
    datum: Datum,
)
    requires
        typed_match(cx, e, env, expected, notes) is Ok,
        !(st is Unknown),
        e.kind matches ast::ExprKind::Match { subject, .. } && (typed_value(
            cx,
            *subject,
            env,
            notes,
        ) matches Ok((ty, _)) && ty == st),
        value_of(datum, st),
    ensures
        e.kind matches ast::ExprKind::Match { arms, .. } && {
            &&& accepted(arms@, arms@.len(), datum)
            &&& forall|k: int|
                0 <= k < arms@.len() ==> !#[trigger] caught(arms@, k as nat) && takes_some(
                    arms@[k].pattern,
                    st,
                )
            &&& forall|k: int|
                0 <= k < arms@.len() && accepts(arms@[k].pattern, datum) && !takes_all(
                    arms@[k].pattern,
                ) ==> !#[trigger] listed(arms@, k as nat, datum)
        },
{
    if let ast::ExprKind::Match { subject, arms } = e.kind {
        let started = typed_value(cx, *subject, env, notes)->Ok_0.1;
        let n = arms@.len();
        assert(typed_arms(cx, st, arms@, env, expected, started, n) is Ok);
        assert(looked_at(cx, st, arms@, env, expected, started, n));
        lemma_arms(cx, st, arms@, env, expected, started, n);
        let cover = typed_arms(cx, st, arms@, env, expected, started, n)->Ok_0.cover;
        assert(cover.all);
        if caught(arms@, n) {
            let i = choose|i: int| 0 <= i < n && takes_all(#[trigger] arms@[i].pattern);
            assert(accepts(arms@[i].pattern, datum));
        } else {
            assert(listed(arms@, n, datum));
            let i = choose|i: int|
                0 <= i < n && accepts(#[trigger] arms@[i].pattern, datum) && !takes_all(
                    arms@[i].pattern,
                );
            assert(accepts(arms@[i].pattern, datum));
        }
    }
}

/// A match is refused for what it leaves open only where it does leave something open: not where
/// an arm takes every value, nor where both results or both truth values are named.
pub proof fn law_full_matches_are_not_refused(
    cx: ContextView,
    e: ast::Expr,
    env: Env,
    expected: Option<TyView>,
    notes: NotesMap,
    st: TyView,
    started: NotesMap,
)
    requires
        !(st is Unknown),
        e.kind matches ast::ExprKind::Match { subject, arms } && typed_value(
            cx,
            *subject,
            env,
            notes,
        ) matches Ok((ty, after)) && ty == st && after == started && typed_arms(
            cx,
            st,
            arms@,
            env,
            expected,
            started,
            arms@.len(),
        ) is Ok && (caught(arms@, arms@.len()) || (st is Result && listed(
            arms@,
            arms@.len(),
            Datum::Success,
        ) && listed(arms@, arms@.len(), Datum::Failure)) || (st is Bool && listed(
            arms@,
            arms@.len(),
            Datum::Truth(true),
        ) && listed(arms@, arms@.len(), Datum::Truth(false)))),
    ensures
        typed_match(cx, e, env, expected, notes) is Ok,
{
    if let ast::ExprKind::Match { subject, arms } = e.kind {
        let n = arms@.len();
        assert(looked_at(cx, st, arms@, env, expected, started, n));
        lemma_arms(cx, st, arms@, env, expected, started, n);
    }
}

/// A pattern with a name binds the whole value, one of a result its value or its error.
pub proof fn law_patterns_bind_what_they_take(st: TyView, pattern: Pattern, cover: CoverView)
    requires
        pattern_step(st, pattern, cover) is Ok,
    ensures
        pattern_step(st, pattern, cover)->Ok_0.0 == match pattern {
            Pattern::Binding { name, .. } => Some((name@, st)),
            Pattern::Constructor { ctor, binding: Some(name), .. } => match (ctor, st) {
                (CtorKind::OkCtor, TyView::Result(good, _)) => Some((name@, *good)),
                (CtorKind::ErrCtor, TyView::Result(_, bad)) => Some((name@, *bad)),
                _ => None,
            },
            _ => None::<(Seq<char>, TyView)>,
        },
{
}

} // verus!
