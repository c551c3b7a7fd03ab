//! Small sets for the facts of the flow analysis.

use crate::types::{BindingId, LoanId};
use vstd::prelude::*;

verus! {

pub proof fn lemma_push_to_set<T>(list: Seq<T>, value: T)
    ensures
        list.push(value).to_set() == list.to_set().insert(value),
{
    let longer = list.push(value);
    assert forall|x: T| longer.to_set().contains(x) <==> list.to_set().insert(value).contains(
        x,
    ) by {
        if longer.contains(x) {
            let k = choose|k: int| 0 <= k < longer.len() && longer[k] == x;
            if k < list.len() {
                assert(list[k] == x);
            }
        }
        if list.contains(x) {
            let k = choose|k: int| 0 <= k < list.len() && list[k] == x;
            assert(longer[k] == x);
        }
        assert(longer[list.len() as int] == value);
    }
    assert(longer.to_set() =~= list.to_set().insert(value));
}

/// A set of variables.
#[derive(Debug)]
pub struct VarSet {
    pub list: Vec<BindingId>,
}

impl View for VarSet {
    type V = Set<BindingId>;

    open spec fn view(&self) -> Set<BindingId> {
        self.list@.to_set()
    }
}

impl VarSet {
    pub fn new() -> (r: VarSet)
        ensures
            r@ == Set::<BindingId>::empty(),
    {
        let r = VarSet { list: Vec::new() };
        assert(r@ =~= Set::empty());
        r
    }

    pub fn contains(&self, value: BindingId) -> (r: bool)
        ensures
            r == self@.contains(value),
    {
        let mut i: usize = 0;
        while i < self.list.len()
            invariant
                i <= self.list.len(),
                forall|k: int| 0 <= k < i ==> self.list@[k] != value,
            decreases self.list.len() - i,
        {
            if self.list[i] == value {
                assert(self.list@[i as int] == value);
                return true;
            }
            i += 1;
        }
        false
    }

    /// Adds an element; says whether it was not there before.
    pub fn insert(&mut self, value: BindingId) -> (r: bool)
        ensures
            final(self)@ == old(self)@.insert(value),
            r == !old(self)@.contains(value),
    {
        if self.contains(value) {
            assert(self@ =~= old(self)@.insert(value));
            return false;
        }
        self.list.push(value);
        proof {
            lemma_push_to_set(old(self).list@, value);
        }
        true
    }

    /// Adds all elements of another set; says whether that made a difference.
    pub fn absorb(&mut self, other: &VarSet) -> (r: bool)
        ensures
            final(self)@ == old(self)@.union(other@),
            r == !other@.subset_of(old(self)@),
    {
        let mut changed = false;
        let mut i: usize = 0;
        assert(other.list@.subrange(0, 0).to_set() =~= Set::empty());
        assert(self@ =~= old(self)@.union(other.list@.subrange(0, 0).to_set()));
        while i < other.list.len()
            invariant
                i <= other.list.len(),
                self@ == old(self)@.union(other.list@.subrange(0, i as int).to_set()),
                changed == !other.list@.subrange(0, i as int).to_set().subset_of(old(self)@),
            decreases other.list.len() - i,
        {
            let value = other.list[i];
            let ghost part = other.list@.subrange(0, i as int);
            if self.insert(value) {
                changed = true;
            }
            proof {
                assert(other.list@.subrange(0, i + 1) =~= part.push(value));
                lemma_push_to_set(part, value);
                assert(self@ =~= old(self)@.union(part.to_set().insert(value)));
                if changed {
                    if !part.to_set().subset_of(old(self)@) {
                        let x = choose|x: BindingId|
                            part.to_set().contains(x) && !old(self)@.contains(x);
                        assert(part.to_set().insert(value).contains(x));
                    } else {
                        assert(part.to_set().insert(value).contains(value));
                        assert(!old(self)@.contains(value));
                    }
                }
            }
            i += 1;
        }
        assert(other.list@.subrange(0, i as int) =~= other.list@);
        changed
    }

    pub fn copy(&self) -> (r: VarSet)
        ensures
            r@ == self@,
    {
        let mut r = VarSet::new();
        let _ = r.absorb(self);
        assert(r@ =~= self@);
        r
    }

    /// Whether every element is in another set.
    pub fn within(&self, other: &VarSet) -> (r: bool)
        ensures
            r == self@.subset_of(other@),
    {
        let mut i: usize = 0;
        while i < self.list.len()
            invariant
                i <= self.list.len(),
                forall|k: int| 0 <= k < i ==> other@.contains(#[trigger] self.list@[k]),
            decreases self.list.len() - i,
        {
            if !other.contains(self.list[i]) {
                assert(self@.contains(self.list@[i as int]));
                return false;
            }
            i += 1;
        }
        assert forall|x: BindingId| self@.contains(x) implies other@.contains(x) by {
            let k = choose|k: int| 0 <= k < self.list@.len() && self.list@[k] == x;
            assert(other@.contains(self.list@[k]));
        }
        true
    }

    pub fn remove(&mut self, value: BindingId)
        ensures
            final(self)@ == old(self)@.remove(value),
    {
        let mut kept: Vec<BindingId> = Vec::new();
        let mut i: usize = 0;
        while i < self.list.len()
            invariant
                i <= self.list.len(),
                forall|x: BindingId|
                    kept@.contains(x) <==> x != value && exists|k: int|
                        0 <= k < i && #[trigger] self.list@[k] == x,
            decreases self.list.len() - i,
        {
            let item = self.list[i];
            let ghost before = kept@;
            if item != value {
                kept.push(item);
            }
            proof {
                assert forall|x: BindingId|
                    kept@.contains(x) <==> x != value && exists|k: int|
                        0 <= k < i + 1 && #[trigger] self.list@[k] == x by {
                    if kept@.contains(x) {
                        if before.contains(x) {
                            let k = choose|k: int| 0 <= k < i && #[trigger] self.list@[k] == x;
                            assert(self.list@[k] == x);
                        } else {
                            let k = choose|k: int| 0 <= k < kept@.len() && kept@[k] == x;
                            if k < before.len() {
                                assert(before[k] == x);
                            }
                            assert(self.list@[i as int] == x);
                        }
                    }
                    if x != value && exists|k: int| 0 <= k < i + 1 && #[trigger] self.list@[k] == x {
                        let k = choose|k: int| 0 <= k < i + 1 && #[trigger] self.list@[k] == x;
                        if k < i {
                            assert(before.contains(x));
                            let m = choose|m: int| 0 <= m < before.len() && before[m] == x;
                            assert(kept@[m] == x);
                        } else {
                            assert(kept@[kept@.len() - 1] == x);
                        }
                    }
                }
            }
            i += 1;
        }
        self.list = kept;
        assert(self@ =~= old(self)@.remove(value));
    }
}

/// A set of aliases with the loans they may hold.
#[derive(Debug)]
pub struct PairSet {
    pub list: Vec<(BindingId, LoanId)>,
}

impl View for PairSet {
    type V = Set<(BindingId, LoanId)>;

    open spec fn view(&self) -> Set<(BindingId, LoanId)> {
        self.list@.to_set()
    }
}

impl PairSet {
    pub fn new() -> (r: PairSet)
        ensures
            r@ == Set::<(BindingId, LoanId)>::empty(),
    {
        let r = PairSet { list: Vec::new() };
        assert(r@ =~= Set::empty());
        r
    }

    pub fn contains(&self, value: (BindingId, LoanId)) -> (r: bool)
        ensures
            r == self@.contains(value),
    {
        let mut i: usize = 0;
        while i < self.list.len()
            invariant
                i <= self.list.len(),
                forall|k: int| 0 <= k < i ==> self.list@[k] != value,
            decreases self.list.len() - i,
        {
            if self.list[i].0 == value.0 && self.list[i].1 == value.1 {
                assert(self.list@[i as int] == value);
                return true;
            }
            i += 1;
        }
        false
    }

    /// Adds an element; says whether it was not there before.
    pub fn insert(&mut self, value: (BindingId, LoanId)) -> (r: bool)
        ensures
            final(self)@ == old(self)@.insert(value),
            r == !old(self)@.contains(value),
    {
        if self.contains(value) {
            assert(self@ =~= old(self)@.insert(value));
            return false;
        }
        self.list.push(value);
        proof {
            lemma_push_to_set(old(self).list@, value);
        }
        true
    }

    /// Adds all elements of another set; says whether that made a difference.
    pub fn absorb(&mut self, other: &PairSet) -> (r: bool)
        ensures
            final(self)@ == old(self)@.union(other@),
            r == !other@.subset_of(old(self)@),
    {
        let mut changed = false;
        let mut i: usize = 0;
        assert(other.list@.subrange(0, 0).to_set() =~= Set::empty());
        assert(self@ =~= old(self)@.union(other.list@.subrange(0, 0).to_set()));
        while i < other.list.len()
            invariant
                i <= other.list.len(),
                self@ == old(self)@.union(other.list@.subrange(0, i as int).to_set()),
                changed == !other.list@.subrange(0, i as int).to_set().subset_of(old(self)@),
            decreases other.list.len() - i,
        {
            let value = other.list[i];
            let ghost part = other.list@.subrange(0, i as int);
            if self.insert(value) {
                changed = true;
            }
            proof {
                assert(other.list@.subrange(0, i + 1) =~= part.push(value));
                lemma_push_to_set(part, value);
                assert(self@ =~= old(self)@.union(part.to_set().insert(value)));
                if changed {
                    if !part.to_set().subset_of(old(self)@) {
                        let x = choose|x: (BindingId, LoanId)|
                            part.to_set().contains(x) && !old(self)@.contains(x);
                        assert(part.to_set().insert(value).contains(x));
                    } else {
                        assert(part.to_set().insert(value).contains(value));
                        assert(!old(self)@.contains(value));
                    }
                }
            }
            i += 1;
        }
        assert(other.list@.subrange(0, i as int) =~= other.list@);
        changed
    }

    pub fn copy(&self) -> (r: PairSet)
        ensures
            r@ == self@,
    {
        let mut r = PairSet::new();
        let _ = r.absorb(self);
        assert(r@ =~= self@);
        r
    }

    /// Whether every element is in another set.
    pub fn within(&self, other: &PairSet) -> (r: bool)
        ensures
            r == self@.subset_of(other@),
    {
        let mut i: usize = 0;
        while i < self.list.len()
            invariant
                i <= self.list.len(),
                forall|k: int| 0 <= k < i ==> other@.contains(#[trigger] self.list@[k]),
            decreases self.list.len() - i,
        {
            if !other.contains(self.list[i]) {
                assert(self@.contains(self.list@[i as int]));
                return false;
            }
            i += 1;
        }
        assert forall|x: (BindingId, LoanId)| self@.contains(x) implies other@.contains(x) by {
            let k = choose|k: int| 0 <= k < self.list@.len() && self.list@[k] == x;
            assert(other@.contains(self.list@[k]));
        }
        true
    }

    /// Drops every loan of a variable.
    pub fn release(&mut self, binding: BindingId)
        ensures
            final(self)@ == old(self)@.filter(|pair: (BindingId, LoanId)| pair.0 != binding),
    {
        let mut kept: Vec<(BindingId, LoanId)> = Vec::new();
        let mut i: usize = 0;
        while i < self.list.len()
            invariant
                i <= self.list.len(),
                forall|x: (BindingId, LoanId)|
                    kept@.contains(x) <==> x.0 != binding && exists|k: int|
                        0 <= k < i && #[trigger] self.list@[k] == x,
            decreases self.list.len() - i,
        {
            let item = self.list[i];
            let ghost before = kept@;
            if item.0 != binding {
                kept.push(item);
            }
            proof {
                assert forall|x: (BindingId, LoanId)|
                    kept@.contains(x) <==> x.0 != binding && exists|k: int|
                        0 <= k < i + 1 && #[trigger] self.list@[k] == x by {
                    if kept@.contains(x) {
                        if before.contains(x) {
                            let k = choose|k: int| 0 <= k < i && #[trigger] self.list@[k] == x;
                            assert(self.list@[k] == x);
                        } else {
                            let k = choose|k: int| 0 <= k < kept@.len() && kept@[k] == x;
                            if k < before.len() {
                                assert(before[k] == x);
                            }
                            assert(self.list@[i as int] == x);
                        }
                    }
                    if x.0 != binding && exists|k: int|
                        0 <= k < i + 1 && #[trigger] self.list@[k] == x {
                        let k = choose|k: int| 0 <= k < i + 1 && #[trigger] self.list@[k] == x;
                        if k < i {
                            assert(before.contains(x));
                            let m = choose|m: int| 0 <= m < before.len() && before[m] == x;
                            assert(kept@[m] == x);
                        } else {
                            assert(kept@[kept@.len() - 1] == x);
                        }
                    }
                }
            }
            i += 1;
        }
        self.list = kept;
        assert(self@ =~= old(self)@.filter(|pair: (BindingId, LoanId)| pair.0 != binding));
    }
}

/// A set of loans.
#[derive(Debug)]
pub struct LoanSet {
    pub list: Vec<LoanId>,
}

impl View for LoanSet {
    type V = Set<LoanId>;

    open spec fn view(&self) -> Set<LoanId> {
        self.list@.to_set()
    }
}

impl LoanSet {
    pub fn new() -> (r: LoanSet)
        ensures
            r@ == Set::<LoanId>::empty(),
    {
        let r = LoanSet { list: Vec::new() };
        assert(r@ =~= Set::empty());
        r
    }

    pub fn contains(&self, value: LoanId) -> (r: bool)
        ensures
            r == self@.contains(value),
    {
        let mut i: usize = 0;
        while i < self.list.len()
            invariant
                i <= self.list.len(),
                forall|k: int| 0 <= k < i ==> self.list@[k] != value,
            decreases self.list.len() - i,
        {
            if self.list[i] == value {
                assert(self.list@[i as int] == value);
                return true;
            }
            i += 1;
        }
        false
    }

    /// Adds an element; says whether it was not there before.
    pub fn insert(&mut self, value: LoanId) -> (r: bool)
        ensures
            final(self)@ == old(self)@.insert(value),
            r == !old(self)@.contains(value),
    {
        if self.contains(value) {
            assert(self@ =~= old(self)@.insert(value));
            return false;
        }
        self.list.push(value);
        proof {
            lemma_push_to_set(old(self).list@, value);
        }
        true
    }

    /// Adds all elements of another set; says whether that made a difference.
    pub fn absorb(&mut self, other: &LoanSet) -> (r: bool)
        ensures
            final(self)@ == old(self)@.union(other@),
            r == !other@.subset_of(old(self)@),
    {
        let mut changed = false;
        let mut i: usize = 0;
        assert(other.list@.subrange(0, 0).to_set() =~= Set::empty());
        assert(self@ =~= old(self)@.union(other.list@.subrange(0, 0).to_set()));
        while i < other.list.len()
            invariant
                i <= other.list.len(),
                self@ == old(self)@.union(other.list@.subrange(0, i as int).to_set()),
                changed == !other.list@.subrange(0, i as int).to_set().subset_of(old(self)@),
            decreases other.list.len() - i,
        {
            let value = other.list[i];
            let ghost part = other.list@.subrange(0, i as int);
            if self.insert(value) {
                changed = true;
            }
            proof {
                assert(other.list@.subrange(0, i + 1) =~= part.push(value));
                lemma_push_to_set(part, value);
                assert(self@ =~= old(self)@.union(part.to_set().insert(value)));
                if changed {
                    if !part.to_set().subset_of(old(self)@) {
                        let x = choose|x: LoanId|
                            part.to_set().contains(x) && !old(self)@.contains(x);
                        assert(part.to_set().insert(value).contains(x));
                    } else {
                        assert(part.to_set().insert(value).contains(value));
                        assert(!old(self)@.contains(value));
                    }
                }
            }
            i += 1;
        }
        assert(other.list@.subrange(0, i as int) =~= other.list@);
        changed
    }

    pub fn copy(&self) -> (r: LoanSet)
        ensures
            r@ == self@,
    {
        let mut r = LoanSet::new();
        let _ = r.absorb(self);
        assert(r@ =~= self@);
        r
    }

    /// Whether every element is in another set.
    pub fn within(&self, other: &LoanSet) -> (r: bool)
        ensures
            r == self@.subset_of(other@),
    {
        let mut i: usize = 0;
        while i < self.list.len()
            invariant
                i <= self.list.len(),
                forall|k: int| 0 <= k < i ==> other@.contains(#[trigger] self.list@[k]),
            decreases self.list.len() - i,
        {
            if !other.contains(self.list[i]) {
                assert(self@.contains(self.list@[i as int]));
                return false;
            }
            i += 1;
        }
        assert forall|x: LoanId| self@.contains(x) implies other@.contains(x) by {
            let k = choose|k: int| 0 <= k < self.list@.len() && self.list@[k] == x;
            assert(other@.contains(self.list@[k]));
        }
        true
    }
}

} // verus!
