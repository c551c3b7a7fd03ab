//! Sets of variables, and what is known of each.

use crate::model::StorageRelation;
use crate::types::BindingId;
use std::collections::{HashMap, HashSet};
use vstd::prelude::*;

verus! {

/// A set of variables.
pub struct IdSet {
    pub raw: HashSet<u32>,
}

impl View for IdSet {
    type V = Set<BindingId>;

    open spec fn view(&self) -> Set<BindingId> {
        Set::new(|id: BindingId| self.raw@.contains(id.0))
    }
}

impl IdSet {
    pub fn new() -> (r: IdSet)
        ensures
            r@ == Set::<BindingId>::empty(),
    {
        broadcast use vstd::std_specs::hash::group_hash_axioms;

        let r = IdSet { raw: HashSet::new() };
        assert(r@ =~= Set::empty());
        r
    }

    pub fn contains(&self, id: BindingId) -> (r: bool)
        ensures
            r == self@.contains(id),
    {
        broadcast use vstd::std_specs::hash::group_hash_axioms;

        self.raw.contains(&id.0)
    }

    /// Adds a variable; says whether it was not there before.
    pub fn insert(&mut self, id: BindingId) -> (r: bool)
        ensures
            final(self)@ == old(self)@.insert(id),
            r == !old(self)@.contains(id),
    {
        broadcast use vstd::std_specs::hash::group_hash_axioms;

        let fresh = self.raw.insert(id.0);
        assert(self@ =~= old(self)@.insert(id));
        fresh
    }

    pub fn remove(&mut self, id: BindingId)
        ensures
            final(self)@ == old(self)@.remove(id),
    {
        broadcast use vstd::std_specs::hash::group_hash_axioms;

        let _ = self.raw.remove(&id.0);
        assert(self@ =~= old(self)@.remove(id));
    }
}

/// What the slots of variables hold.
pub struct RelationTable {
    pub raw: HashMap<u32, StorageRelation>,
}

impl View for RelationTable {
    type V = Map<BindingId, StorageRelation>;

    open spec fn view(&self) -> Map<BindingId, StorageRelation> {
        Map::new(|id: BindingId| self.raw@.contains_key(id.0), |id: BindingId| self.raw@[id.0])
    }
}

/// What a table says of a variable.
pub open spec fn relation_in(
    relations: Map<BindingId, StorageRelation>,
    id: BindingId,
) -> Option<StorageRelation> {
    if relations.contains_key(id) {
        Some(relations[id])
    } else {
        None
    }
}

impl RelationTable {
    pub fn new() -> (r: RelationTable)
        ensures
            r@ == Map::<BindingId, StorageRelation>::empty(),
    {
        broadcast use vstd::std_specs::hash::group_hash_axioms;

        let r = RelationTable { raw: HashMap::new() };
        assert(r@ =~= Map::empty());
        r
    }

    pub fn get(&self, id: BindingId) -> (r: Option<StorageRelation>)
        ensures
            r == relation_in(self@, id),
    {
        broadcast use vstd::std_specs::hash::group_hash_axioms;

        match self.raw.get(&id.0) {
            Some(relation) => Some(*relation),
            None => None,
        }
    }

    /// Whether the variable is known to be an alias.
    pub fn is_borrowed(&self, id: BindingId) -> (r: bool)
        ensures
            r == (relation_in(self@, id) == Some(StorageRelation::Borrowed)),
    {
        match self.get(id) {
            Some(relation) => relation == StorageRelation::Borrowed,
            None => false,
        }
    }

    /// Records a relation; says whether there was none before.
    pub fn insert(&mut self, id: BindingId, relation: StorageRelation) -> (r: bool)
        ensures
            final(self)@ == old(self)@.insert(id, relation),
            r == !old(self)@.contains_key(id),
    {
        broadcast use vstd::std_specs::hash::group_hash_axioms;

        let fresh = self.get(id).is_none();
        let _ = self.raw.insert(id.0, relation);
        assert(self@ =~= old(self)@.insert(id, relation));
        fresh
    }
}

} // verus!
