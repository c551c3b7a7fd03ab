//! What the relation of two places says about the storage that they name.

use crate::model::{Expr, Place, ResolvedConversion, place_root};
use crate::place_relation::{Step, path, path_relation, relation_of};
use crate::runtime_checks::constant_index;
use vstd::prelude::*;

verus! {

/// One step from a variable into the storage that it holds.
pub enum Into {
    Member(int),
    Element(int),
}

/// What index expressions are worth at some moment of a run.
pub type Reading = spec_fn(Expr) -> int;

/// A number that is written out is worth itself, and an identity conversion what it converts.
/// Every other index can be worth anything.
pub open spec fn honest(at: Reading) -> bool {
    forall|e: Expr|
        match e {
            Expr::Int(value, _, _) => #[trigger] at(e) == value,
            Expr::Neg { expr, .. } => match *expr {
                Expr::Int(value, _, _) => at(e) == -(value as int),
                _ => true,
            },
            Expr::Convert { expr, mode: ResolvedConversion::Identity, .. } => at(e) == at(*expr),
            _ => true,
        }
}

/// The storage that a place names at some moment, from its variable inwards.
pub open spec fn located(place: Place, at: Reading) -> Seq<Into>
    decreases place,
{
    match place {
        Place::Local { .. } => Seq::empty(),
        Place::Field { base, field_index, .. } => located(*base, at).push(
            Into::Member(field_index as int),
        ),
        Place::Index { base, index, .. } => located(*base, at).push(Into::Element(at(*index))),
    }
}

/// One piece of storage is the other, or a part of it.
pub open spec fn share(a: Seq<Into>, b: Seq<Into>) -> bool {
    forall|i: int| 0 <= i < a.len() && i < b.len() ==> #[trigger] a[i] == b[i]
}

/// At some moments of a run the two places name storage that they share.
pub open spec fn may_meet(l: Place, r: Place) -> bool {
    place_root(l) == place_root(r) && exists|x: Reading, y: Reading|
        #![trigger located(l, x), located(r, y)]
        honest(x) && honest(y) && share(located(l, x), located(r, y))
}

proof fn lemma_written_worth(e: Expr, at: Reading)
    requires
        honest(at),
        constant_index(e) is Some,
    ensures
        at(e) == constant_index(e)->0,
    decreases e,
{
    assert(at(e) == at(e));
    match e {
        Expr::Convert { expr, .. } => lemma_written_worth(*expr, at),
        _ => {},
    }
}

/// A step agrees with where it leads.
spec fn leads_to(step: Step, to: Into) -> bool {
    match (step, to) {
        (Step::Field(a), Into::Member(b)) => a == b,
        (Step::Index(Some(a)), Into::Element(b)) => a == b,
        (Step::Index(None), Into::Element(_)) => true,
        _ => false,
    }
}

proof fn lemma_located(place: Place, at: Reading)
    requires
        honest(at),
    ensures
        located(place, at).len() == path(place).len(),
        forall|i: int|
            0 <= i < path(place).len() ==> leads_to(
                #[trigger] path(place)[i],
                located(place, at)[i],
            ),
    decreases place,
{
    match place {
        Place::Local { .. } => {},
        Place::Field { base, .. } => lemma_located(*base, at),
        Place::Index { base, index, .. } => {
            lemma_located(*base, at);
            if constant_index(*index) is Some {
                lemma_written_worth(*index, at);
            }
        },
    }
}

spec fn same_way(a: Step, b: Step) -> bool {
    a is Field == b is Field
}

/// The two steps are known to lead to different storage.
pub open spec fn part_ways(a: Step, b: Step) -> bool {
    match (a, b) {
        (Step::Field(x), Step::Field(y)) => x != y,
        (Step::Index(Some(x)), Step::Index(Some(y))) => x != y,
        _ => false,
    }
}

spec fn parted_at(l: Seq<Step>, r: Seq<Step>, i: int) -> bool {
    &&& 0 <= i < l.len()
    &&& i < r.len()
    &&& part_ways(l[i], r[i])
    &&& forall|k: int| 0 <= k < i ==> same_way(#[trigger] l[k], r[k])
}

proof fn lemma_parted(l: Seq<Step>, r: Seq<Step>) -> (at: int)
    requires
        path_relation(l, r) is Disjoint,
    ensures
        parted_at(l, r, at),
    decreases l.len(),
{
    if part_ways(l[0], r[0]) {
        0
    } else {
        let k = lemma_parted(l.drop_first(), r.drop_first());
        assert forall|j: int| 0 <= j < k + 1 implies same_way(#[trigger] l[j], r[j]) by {
            if j > 0 {
                assert(same_way(l.drop_first()[j - 1], r.drop_first()[j - 1]));
            }
        }
        k + 1
    }
}

proof fn lemma_parted_back(l: Seq<Step>, r: Seq<Step>, at: int)
    requires
        parted_at(l, r, at),
    ensures
        path_relation(l, r) is Disjoint,
    decreases at,
{
    if at > 0 {
        assert(same_way(l[0], r[0]));
        assert forall|j: int| 0 <= j < at - 1 implies same_way(
            #[trigger] l.drop_first()[j],
            r.drop_first()[j],
        ) by {
            assert(same_way(l[j + 1], r[j + 1]));
        }
        lemma_parted_back(l.drop_first(), r.drop_first(), at - 1);
    }
}

proof fn lemma_equal_steps(l: Seq<Step>, r: Seq<Step>)
    requires
        path_relation(l, r) is Overlap,
    ensures
        forall|i: int|
            0 <= i < l.len() && i < r.len() ==> #[trigger] l[i] == r[i] && l[i] != Step::Index(
                None,
            ),
    decreases l.len(),
{
    if l.len() > 0 && r.len() > 0 {
        lemma_equal_steps(l.drop_first(), r.drop_first());
        assert forall|i: int| 0 <= i < l.len() && i < r.len() implies #[trigger] l[i] == r[i] && l[i]
            != Step::Index(None) by {
            if i > 0 {
                assert(l.drop_first()[i - 1] == r.drop_first()[i - 1]);
            }
        }
    }
}

proof fn lemma_equal_steps_back(l: Seq<Step>, r: Seq<Step>)
    requires
        forall|i: int|
            0 <= i < l.len() && i < r.len() ==> #[trigger] l[i] == r[i] && l[i] != Step::Index(
                None,
            ),
    ensures
        path_relation(l, r) is Overlap,
    decreases l.len(),
{
    if l.len() > 0 && r.len() > 0 {
        assert(l[0] == r[0]);
        assert forall|i: int|
            0 <= i < l.drop_first().len() && i < r.drop_first().len() implies #[trigger] l.drop_first()[i]
            == r.drop_first()[i] && l.drop_first()[i] != Step::Index(None) by {
            assert(l[i + 1] == r[i + 1]);
        }
        lemma_equal_steps_back(l.drop_first(), r.drop_first());
    }
}

/// Places that are found to be apart never share storage, whatever their indices are worth when
/// the one and when the other is used.
pub proof fn law_disjoint_places_never_meet(l: Place, r: Place)
    requires
        relation_of(l, r) is Disjoint,
    ensures
        !may_meet(l, r),
{
    if may_meet(l, r) {
        let (x, y) = choose|x: Reading, y: Reading|
            #![trigger located(l, x), located(r, y)]
            honest(x) && honest(y) && share(located(l, x), located(r, y));
        lemma_located(l, x);
        lemma_located(r, y);
        let at = lemma_parted(path(l), path(r));
        assert(leads_to(path(l)[at], located(l, x)[at]));
        assert(leads_to(path(r)[at], located(r, y)[at]));
        assert(located(l, x)[at] == located(r, y)[at]);
    }
}

/// Places that are found to overlap share storage at every moment.
pub proof fn law_overlapping_places_always_meet(l: Place, r: Place, x: Reading, y: Reading)
    requires
        relation_of(l, r) is Overlap,
        honest(x),
        honest(y),
    ensures
        place_root(l) == place_root(r),
        share(located(l, x), located(r, y)),
{
    lemma_located(l, x);
    lemma_located(r, y);
    lemma_equal_steps(path(l), path(r));
    assert forall|i: int|
        0 <= i < located(l, x).len() && i < located(r, y).len() implies #[trigger] located(l, x)[i]
        == located(r, y)[i] by {
        assert(path(l)[i] == path(r)[i]);
        assert(leads_to(path(l)[i], located(l, x)[i]));
        assert(leads_to(path(r)[i], located(r, y)[i]));
    }
}

/// Two places take the same kinds of steps from the same variable.
pub open spec fn same_shape(l: Place, r: Place) -> bool
    decreases l,
{
    match (l, r) {
        (Place::Local { binding_id: a, .. }, Place::Local { binding_id: b, .. }) => a == b,
        (Place::Field { base: a, .. }, Place::Field { base: b, .. }) => same_shape(*a, *b),
        (Place::Index { base: a, .. }, Place::Index { base: b, .. }) => same_shape(*a, *b),
        _ => false,
    }
}

/// Somewhere the two places take different fields, or different elements that are written out.
pub open spec fn known_apart(l: Place, r: Place) -> bool
    decreases l,
{
    match (l, r) {
        (
            Place::Field { base: a, field_index: i, .. },
            Place::Field { base: b, field_index: j, .. },
        ) => i != j || known_apart(*a, *b),
        (Place::Index { base: a, index: i, .. }, Place::Index { base: b, index: j, .. }) => (
        constant_index(*i) is Some && constant_index(*j) is Some && constant_index(*i)
            != constant_index(*j)) || known_apart(*a, *b),
        _ => false,
    }
}

/// No index of the place is left open.
pub open spec fn written_out(place: Place) -> bool
    decreases place,
{
    match place {
        Place::Local { .. } => true,
        Place::Field { base, .. } => written_out(*base),
        Place::Index { base, index, .. } => constant_index(*index) is Some && written_out(*base),
    }
}

proof fn lemma_shape(l: Place, r: Place)
    requires
        same_shape(l, r),
    ensures
        place_root(l) == place_root(r),
        path(l).len() == path(r).len(),
        forall|i: int| 0 <= i < path(l).len() ==> same_way(#[trigger] path(l)[i], path(r)[i]),
        known_apart(l, r) <==> exists|i: int|
            0 <= i < path(l).len() && part_ways(#[trigger] path(l)[i], path(r)[i]),
        written_out(l) ==> forall|i: int|
            0 <= i < path(l).len() ==> #[trigger] path(l)[i] != Step::Index(None),
        written_out(r) ==> forall|i: int|
            0 <= i < path(r).len() ==> #[trigger] path(r)[i] != Step::Index(None),
    decreases l,
{
    match (l, r) {
        (Place::Field { base: a, .. }, Place::Field { base: b, .. })
        | (Place::Index { base: a, .. }, Place::Index { base: b, .. }) => {
            lemma_shape(*a, *b);
            let n = path(*a).len() as int;
            assert(path(l).len() == n + 1);
            assert(forall|i: int| 0 <= i < n ==> path(l)[i] == #[trigger] path(*a)[i]);
            assert(forall|i: int| 0 <= i < n ==> path(r)[i] == #[trigger] path(*b)[i]);
            if exists|i: int| 0 <= i < path(l).len() && part_ways(#[trigger] path(l)[i], path(r)[i]) {
                let i = choose|i: int|
                    0 <= i < path(l).len() && part_ways(#[trigger] path(l)[i], path(r)[i]);
                if i < n {
                    assert(part_ways(path(*a)[i], path(*b)[i]));
                }
            }
            if known_apart(*a, *b) {
                let i = choose|i: int|
                    0 <= i < n && part_ways(#[trigger] path(*a)[i], path(*b)[i]);
                assert(part_ways(path(l)[i], path(r)[i]));
            }
            assert(path(l).last() == path(l)[n] && path(r).last() == path(r)[n]);
            match (l, r) {
                (Place::Index { index: i, .. }, Place::Index { index: j, .. }) => {
                    assert(path(l)[n] == Step::Index(constant_index(*i)));
                    assert(path(r)[n] == Step::Index(constant_index(*j)));
                },
                _ => {},
            }
            assert(known_apart(l, r) <==> part_ways(path(l)[n], path(r)[n]) || known_apart(*a, *b));
        },
        _ => {},
    }
}

/// Places of the same shape are found to be apart exactly where a field or a written-out index
/// tells them apart, and to overlap where all indices are written out and nothing does.
pub proof fn law_steps_decide_the_relation(l: Place, r: Place)
    requires
        same_shape(l, r),
    ensures
        relation_of(l, r) is Disjoint <==> known_apart(l, r),
        written_out(l) && written_out(r) && !known_apart(l, r) ==> relation_of(l, r) is Overlap,
        relation_of(l, r) is Overlap ==> written_out(l) && written_out(r),
{
    lemma_shape(l, r);
    if known_apart(l, r) {
        let i = choose|i: int|
            0 <= i < path(l).len() && part_ways(#[trigger] path(l)[i], path(r)[i]);
        assert(parted_at(path(l), path(r), i));
        lemma_parted_back(path(l), path(r), i);
    }
    if relation_of(l, r) is Disjoint {
        let at = lemma_parted(path(l), path(r));
        assert(part_ways(path(l)[at], path(r)[at]));
    }
    if written_out(l) && written_out(r) && !known_apart(l, r) {
        assert forall|i: int|
            0 <= i < path(l).len() && i < path(r).len() implies #[trigger] path(l)[i] == path(r)[i]
            && path(l)[i] != Step::Index(None) by {
            assert(same_way(path(l)[i], path(r)[i]));
            assert(!part_ways(path(l)[i], path(r)[i]));
            assert(path(r)[i] != Step::Index(None));
        }
        lemma_equal_steps_back(path(l), path(r));
    }
    if relation_of(l, r) is Overlap {
        lemma_equal_steps(path(l), path(r));
        lemma_written_out(l);
        assert forall|i: int| 0 <= i < path(r).len() implies #[trigger] path(r)[i] != Step::Index(
            None,
        ) by {
            assert(path(l)[i] == path(r)[i]);
        }
        lemma_written_out(r);
    }
}

proof fn lemma_written_out(place: Place)
    requires
        forall|i: int| 0 <= i < path(place).len() ==> #[trigger] path(place)[i] != Step::Index(
            None,
        ),
    ensures
        written_out(place),
    decreases place,
{
    match place {
        Place::Local { .. } => {},
        Place::Field { base, .. } | Place::Index { base, .. } => {
            let n = path(*base).len() as int;
            assert(path(place)[n] != Step::Index(None));
            assert forall|i: int| 0 <= i < n implies #[trigger] path(*base)[i] != Step::Index(
                None,
            ) by {
                assert(path(place)[i] == path(*base)[i]);
            }
            lemma_written_out(*base);
        },
    }
}

/// Parts of places that are apart are apart.
pub proof fn law_parts_stay_apart(whole: Place, part: Place, other: Place)
    requires
        match part {
            Place::Local { .. } => false,
            Place::Field { base, .. } => *base == whole,
            Place::Index { base, .. } => *base == whole,
        },
        relation_of(whole, other) is Disjoint,
    ensures
        relation_of(part, other) is Disjoint,
{
    if place_root(whole) == place_root(other) {
        let at = lemma_parted(path(whole), path(other));
        assert(forall|i: int|
            0 <= i < path(whole).len() ==> path(part)[i] == #[trigger] path(whole)[i]);
        assert forall|k: int| 0 <= k < at implies same_way(
            #[trigger] path(part)[k],
            path(other)[k],
        ) by {
            assert(same_way(path(whole)[k], path(other)[k]));
        }
        lemma_parted_back(path(part), path(other), at);
    }
}

} // verus!
