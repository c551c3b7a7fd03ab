//! The declared structs of a program and the types of their fields.

use crate::model::{CheckedProgram, Item, StructField};
use crate::types::{Ty, TyView, ty_views};
use vstd::prelude::*;

verus! {

/// Struct declarations in the order in which they were made.
#[derive(Debug)]
pub struct StructTable {
    pub defs: Vec<(String, Vec<Ty>)>,
}

/// The fields of each declared struct; a later declaration replaces an earlier one.
pub open spec fn defs_map(defs: Seq<(String, Vec<Ty>)>) -> Map<Seq<char>, Seq<TyView>>
    decreases defs.len(),
{
    if defs.len() == 0 {
        Map::empty()
    } else {
        defs_map(defs.drop_last()).insert(defs.last().0@, ty_views(defs.last().1@))
    }
}

impl View for StructTable {
    type V = Map<Seq<char>, Seq<TyView>>;

    open spec fn view(&self) -> Map<Seq<char>, Seq<TyView>> {
        defs_map(self.defs@)
    }
}

pub proof fn lemma_defs_finite(defs: Seq<(String, Vec<Ty>)>)
    ensures
        defs_map(defs).dom().finite(),
    decreases defs.len(),
{
    if defs.len() > 0 {
        lemma_defs_finite(defs.drop_last());
    }
}

impl StructTable {
    pub fn new() -> (r: StructTable)
        ensures
            r@ == Map::<Seq<char>, Seq<TyView>>::empty(),
    {
        StructTable { defs: Vec::new() }
    }

    /// Declares a struct.
    pub fn insert(&mut self, name: String, fields: Vec<Ty>)
        ensures
            final(self)@ == old(self)@.insert(name@, ty_views(fields@)),
    {
        self.defs.push((name, fields));
        assert(self.defs@.drop_last() =~= old(self).defs@);
    }

    /// The field types of a struct, if it is declared.
    pub fn get(&self, name: &String) -> (r: Option<&Vec<Ty>>)
        ensures
            match r {
                Some(fields) => self@.contains_key(name@) && self@[name@] == ty_views(fields@),
                None => !self@.contains_key(name@),
            },
    {
        let mut left: usize = self.defs.len();
        assert(self.defs@.subrange(0, left as int) =~= self.defs@);
        while left > 0
            invariant
                left <= self.defs.len(),
                self@.contains_key(name@) == defs_map(
                    self.defs@.subrange(0, left as int),
                ).contains_key(name@),
                self@.contains_key(name@) ==> self@[name@] == defs_map(
                    self.defs@.subrange(0, left as int),
                )[name@],
            decreases left,
        {
            let ghost prefix = self.defs@.subrange(0, left as int);
            left -= 1;
            assert(prefix.drop_last() =~= self.defs@.subrange(0, left as int));
            assert(prefix.last() == self.defs@[left as int]);
            if self.defs[left].0 == *name {
                return Some(&self.defs[left].1);
            }
        }
        None
    }
}

pub open spec fn field_types(fields: Seq<StructField>) -> Seq<TyView> {
    fields.map_values(|field: StructField| field.ty@)
}

/// The struct declarations among the first items of a program.
pub open spec fn items_map(items: Seq<Item>) -> Map<Seq<char>, Seq<TyView>>
    decreases items.len(),
{
    if items.len() == 0 {
        Map::empty()
    } else {
        let earlier = items_map(items.drop_last());
        match items.last() {
            Item::StructDef(def) => earlier.insert(def.name@, field_types(def.fields@)),
            Item::Binding(_) => earlier,
        }
    }
}

/// The struct declarations of a program.
pub fn struct_fields(program: &CheckedProgram) -> (r: StructTable)
    ensures
        r@ == items_map(program.items@),
{
    let mut table = StructTable::new();
    let mut i: usize = 0;
    assert(program.items@.subrange(0, 0) =~= Seq::<Item>::empty());
    while i < program.items.len()
        invariant
            i <= program.items.len(),
            table@ == items_map(program.items@.subrange(0, i as int)),
        decreases program.items.len() - i,
    {
        proof {
            let prefix = program.items@.subrange(0, i + 1);
            assert(prefix.drop_last() =~= program.items@.subrange(0, i as int));
            assert(prefix.last() == program.items@[i as int]);
        }
        if let Item::StructDef(def) = &program.items[i] {
            let mut types: Vec<Ty> = Vec::new();
            let mut j: usize = 0;
            while j < def.fields.len()
                invariant
                    j <= def.fields.len(),
                    types.len() == j,
                    forall|k: int| 0 <= k < j ==> (#[trigger] types@[k])@ == def.fields@[k].ty@,
                decreases def.fields.len() - j,
            {
                types.push(def.fields[j].ty.clone());
                j += 1;
            }
            assert(ty_views(types@) =~= field_types(def.fields@));
            table.insert(def.name.clone(), types);
        }
        i += 1;
    }
    assert(program.items@.subrange(0, i as int) =~= program.items@);
    table
}

/// Marking one more declared struct leaves fewer unmarked.
pub proof fn lemma_mark_shrinks(
    table: Map<Seq<char>, Seq<TyView>>,
    marked: Set<Seq<char>>,
    name: Seq<char>,
)
    requires
        table.dom().finite(),
        table.contains_key(name),
        !marked.contains(name),
    ensures
        table.dom().difference(marked.insert(name)).len() < table.dom().difference(marked).len(),
{
    let before = table.dom().difference(marked);
    let after = table.dom().difference(marked.insert(name));
    assert(after =~= before.remove(name));
    assert(before.contains(name));
    vstd::set_lib::lemma_len_difference(table.dom(), marked);
    assert(before.finite());
}

/// The struct names on a stack of declarations being expanded.
pub open spec fn names_of(stack: Seq<String>) -> Set<Seq<char>> {
    Set::new(|name: Seq<char>| exists|i: int| 0 <= i < stack.len() && (#[trigger] stack[i])@ == name)
}

pub proof fn lemma_names_push(stack: Seq<String>, name: String)
    ensures
        names_of(stack.push(name)) == names_of(stack).insert(name@),
{
    let longer = stack.push(name);
    assert forall|n: Seq<char>| names_of(longer).contains(n) <==> names_of(stack).insert(
        name@,
    ).contains(n) by {
        if names_of(longer).contains(n) {
            let i = choose|i: int| 0 <= i < longer.len() && (#[trigger] longer[i])@ == n;
            if i < stack.len() {
                assert(stack[i]@ == n);
            }
        }
        if names_of(stack).contains(n) {
            let i = choose|i: int| 0 <= i < stack.len() && (#[trigger] stack[i])@ == n;
            assert(longer[i]@ == n);
        }
        assert(longer[stack.len() as int]@ == name@);
    }
    assert(names_of(longer) =~= names_of(stack).insert(name@));
}

/// Whether a struct is on the stack of declarations being expanded.
pub fn stack_contains(stack: &Vec<String>, name: &String) -> (r: bool)
    ensures
        r == names_of(stack@).contains(name@),
{
    let mut i: usize = 0;
    while i < stack.len()
        invariant
            i <= stack.len(),
            forall|k: int| 0 <= k < i ==> (#[trigger] stack@[k])@ != name@,
        decreases stack.len() - i,
    {
        if stack[i] == *name {
            assert(stack@[i as int]@ == name@);
            return true;
        }
        i += 1;
    }
    false
}

} // verus!
