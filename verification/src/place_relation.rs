//! Whether two places share storage.

use crate::model::{Place, place_root};
use crate::runtime_checks::{constant_i32, constant_index, index_value};
use crate::types::BindingId;
use vstd::prelude::*;

verus! {

/// What is known of two places. `Unknown` counts as a conflict just as `Overlap` does; only
/// `Disjoint` allows two accesses side by side.
#[derive(Debug, Clone, Copy, PartialEq, Eq, Structural)]
pub enum PlaceRelation {
    Disjoint,
    Overlap,
    Unknown,
}

/// One step into a place.
#[derive(Debug, Clone, Copy, PartialEq, Eq, Structural)]
pub enum Projection {
    Field(usize),
    /// The index, where it is written out.
    Index(Option<i32>),
}

/// The mathematical value of a step.
pub enum Step {
    Field(int),
    Index(Option<int>),
}

impl View for Projection {
    type V = Step;

    open spec fn view(&self) -> Step {
        match *self {
            Projection::Field(field) => Step::Field(field as int),
            Projection::Index(constant) => Step::Index(index_value(constant)),
        }
    }
}

/// The steps from the root of a place to the place.
pub open spec fn path(place: Place) -> Seq<Step>
    decreases place,
{
    match place {
        Place::Local { .. } => Seq::empty(),
        Place::Field { base, field_index, .. } => path(*base).push(
            Step::Field(field_index as int),
        ),
        Place::Index { base, index, .. } => path(*base).push(Step::Index(constant_index(*index))),
    }
}

/// How two paths from one root relate. Different fields, and different written-out indices,
/// lead apart. An index that is not written out leaves the question open, unless a later step
/// leads apart. Where one path ends, both cover the same storage.
pub open spec fn path_relation(l: Seq<Step>, r: Seq<Step>) -> PlaceRelation
    decreases l.len(),
{
    if l.len() == 0 || r.len() == 0 {
        PlaceRelation::Overlap
    } else {
        let rest = path_relation(l.drop_first(), r.drop_first());
        match (l[0], r[0]) {
            (Step::Field(a), Step::Field(b)) => if a != b {
                PlaceRelation::Disjoint
            } else {
                rest
            },
            (Step::Index(Some(a)), Step::Index(Some(b))) => if a != b {
                PlaceRelation::Disjoint
            } else {
                rest
            },
            (Step::Index(_), Step::Index(_)) => open_relation(rest),
            _ => PlaceRelation::Unknown,
        }
    }
}

/// What is left of a relation behind an index that is not known.
pub open spec fn open_relation(rest: PlaceRelation) -> PlaceRelation {
    if rest is Disjoint {
        PlaceRelation::Disjoint
    } else {
        PlaceRelation::Unknown
    }
}

/// How two places relate.
pub open spec fn relation_of(l: Place, r: Place) -> PlaceRelation {
    if place_root(l) != place_root(r) {
        PlaceRelation::Disjoint
    } else {
        path_relation(path(l), path(r))
    }
}

pub open spec fn steps(list: Seq<Projection>) -> Seq<Step> {
    list.map_values(|projection: Projection| projection@)
}

/// Takes a place apart into its root and the steps from there.
pub fn decompose(place: &Place) -> (r: (BindingId, Vec<Projection>))
    ensures
        r.0 == place_root(*place),
        steps(r.1@) == path(*place),
{
    let mut outwards: Vec<Projection> = Vec::new();
    let mut current: &Place = place;
    let root: BindingId;
    loop
        invariant_except_break
            place_root(*current) == place_root(*place),
            path(*place) == path(*current) + steps(outwards@).reverse(),
        ensures
            root == place_root(*place),
            path(*place) == steps(outwards@).reverse(),
        decreases current,
    {
        match current {
            Place::Local { binding_id, .. } => {
                root = *binding_id;
                assert(path(*place) =~= steps(outwards@).reverse());
                break;
            },
            Place::Field { base, field_index, .. } => {
                let ghost before = steps(outwards@);
                outwards.push(Projection::Field(*field_index));
                proof {
                    assert(steps(outwards@) =~= before.push(Step::Field(*field_index as int)));
                    assert(path(*place) =~= path(**base) + steps(outwards@).reverse());
                }
                current = base;
            },
            Place::Index { base, index, .. } => {
                let ghost before = steps(outwards@);
                outwards.push(Projection::Index(constant_i32(index)));
                proof {
                    assert(steps(outwards@) =~= before.push(Step::Index(constant_index(**index))));
                    assert(path(*place) =~= path(**base) + steps(outwards@).reverse());
                }
                current = base;
            },
        }
    }
    let mut inwards: Vec<Projection> = Vec::new();
    let mut left: usize = outwards.len();
    while left > 0
        invariant
            left <= outwards.len(),
            inwards@ =~= outwards@.reverse().subrange(0, outwards@.len() - left),
        decreases left,
    {
        left -= 1;
        inwards.push(outwards[left]);
    }
    assert(steps(inwards@) =~= path(*place));
    (root, inwards)
}

/// How two places relate, from what is resolved alone: no address is ever compared.
pub fn relation(left: &Place, right: &Place) -> (r: PlaceRelation)
    ensures
        r == relation_of(*left, *right),
{
    let (left_root, left_path) = decompose(left);
    let (right_root, right_path) = decompose(right);
    if left_root != right_root {
        return PlaceRelation::Disjoint;
    }
    let ghost l = steps(left_path@);
    let ghost r = steps(right_path@);
    let mut uncertain = false;
    let mut i: usize = 0;
    assert(l.subrange(0, l.len() as int) =~= l);
    assert(r.subrange(0, r.len() as int) =~= r);
    while i < left_path.len() && i < right_path.len()
        invariant
            i <= left_path.len(),
            i <= right_path.len(),
            l == steps(left_path@),
            r == steps(right_path@),
            path_relation(l, r) == ({
                let rest = path_relation(
                    l.subrange(i as int, l.len() as int),
                    r.subrange(i as int, r.len() as int),
                );
                if uncertain {
                    open_relation(rest)
                } else {
                    rest
                }
            }),
            relation_of(*left, *right) == path_relation(l, r),
        decreases left_path.len() - i,
    {
        proof {
            let lrest = l.subrange(i as int, l.len() as int);
            let rrest = r.subrange(i as int, r.len() as int);
            assert(lrest.drop_first() =~= l.subrange(i + 1, l.len() as int));
            assert(rrest.drop_first() =~= r.subrange(i + 1, r.len() as int));
            assert(lrest[0] == left_path@[i as int]@);
            assert(rrest[0] == right_path@[i as int]@);
        }
        match (left_path[i], right_path[i]) {
            (Projection::Field(a), Projection::Field(b)) => {
                if a != b {
                    return PlaceRelation::Disjoint;
                }
            },
            (Projection::Index(Some(a)), Projection::Index(Some(b))) => {
                if a != b {
                    return PlaceRelation::Disjoint;
                }
            },
            (Projection::Index(_), Projection::Index(_)) => {
                uncertain = true;
            },
            _ => {
                return PlaceRelation::Unknown;
            },
        }
        i += 1;
    }
    if uncertain {
        PlaceRelation::Unknown
    } else {
        PlaceRelation::Overlap
    }
}

proof fn lemma_path_relation_symmetric(l: Seq<Step>, r: Seq<Step>)
    ensures
        path_relation(l, r) == path_relation(r, l),
    decreases l.len(),
{
    if l.len() > 0 && r.len() > 0 {
        lemma_path_relation_symmetric(l.drop_first(), r.drop_first());
    }
}

/// How two places relate does not depend on which is named first.
pub proof fn law_relation_is_symmetric(l: Place, r: Place)
    ensures
        relation_of(l, r) == relation_of(r, l),
{
    lemma_path_relation_symmetric(path(l), path(r));
}

proof fn lemma_prefix_not_disjoint(l: Seq<Step>, r: Seq<Step>)
    requires
        l.len() <= r.len(),
        l == r.subrange(0, l.len() as int),
    ensures
        !(path_relation(l, r) is Disjoint),
        (forall|i: int| 0 <= i < l.len() ==> #[trigger] l[i] != Step::Index(None))
            ==> path_relation(l, r) is Overlap,
    decreases l.len(),
{
    if l.len() > 0 {
        assert(l[0] == r[0]);
        assert(l.drop_first() =~= r.drop_first().subrange(0, l.drop_first().len() as int));
        lemma_prefix_not_disjoint(l.drop_first(), r.drop_first());
        assert(forall|i: int|
            0 <= i < l.drop_first().len() ==> #[trigger] l.drop_first()[i] == l[i + 1]);
    }
}

/// A place is never apart from itself, and it overlaps itself where all its indices are
/// written out.
pub proof fn law_place_meets_itself(place: Place)
    ensures
        !(relation_of(place, place) is Disjoint),
        (forall|i: int| 0 <= i < path(place).len() ==> #[trigger] path(place)[i] != Step::Index(None))
            ==> relation_of(place, place) is Overlap,
{
    assert(path(place) =~= path(place).subrange(0, path(place).len() as int));
    lemma_prefix_not_disjoint(path(place), path(place));
}

/// A place is never apart from a place that it is a part of.
pub proof fn law_part_meets_whole(part: Place)
    ensures
        match part {
            Place::Local { .. } => true,
            Place::Field { base, .. } => !(relation_of(*base, part) is Disjoint),
            Place::Index { base, .. } => !(relation_of(*base, part) is Disjoint),
        },
{
    match part {
        Place::Local { .. } => {},
        Place::Field { base, .. } => {
            assert(path(*base) =~= path(part).subrange(0, path(*base).len() as int));
            lemma_prefix_not_disjoint(path(*base), path(part));
        },
        Place::Index { base, .. } => {
            assert(path(*base) =~= path(part).subrange(0, path(*base).len() as int));
            lemma_prefix_not_disjoint(path(*base), path(part));
        },
    }
}

/// Places in different variables are apart.
pub proof fn law_different_roots_are_disjoint(l: Place, r: Place)
    requires
        place_root(l) != place_root(r),
    ensures
        relation_of(l, r) is Disjoint,
{
}

} // verus!
