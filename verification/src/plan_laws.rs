//! What the plans for copying and destroying values do to a value.
//!
//! A plan is held against the type that it is for, part by part.

use crate::deep_clone::{DeepPlanView, deep_clone_of, deep_fields, deep_plan};
use crate::destruction::{DestroyView, fill, fill_fields, plan_of, room, run};
use crate::shallow_clone::{ShallowPlanView, shallow_clone_of, shallow_fields, shallow_plan};
use crate::structs::lemma_mark_shrinks;
use crate::types::{Span, TyView};
use vstd::prelude::*;

verus! {

/// The types of the fields of every struct.
pub type Fields = Map<Seq<char>, Seq<TyView>>;

/// The plan copies a value of the type, with all that it owns: text as text, the fields of a
/// struct each in its place, every element of an array, and whichever value a result holds.
pub open spec fn copies(plan: DeepPlanView, ty: TyView, table: Fields) -> bool
    decreases plan,
{
    match (plan, ty) {
        (DeepPlanView::Inline, TyView::Int(_)) => true,
        (DeepPlanView::Inline, TyView::UInt(_)) => true,
        (DeepPlanView::Inline, TyView::Float(_)) => true,
        (DeepPlanView::Inline, TyView::Bool) => true,
        (DeepPlanView::String, TyView::Str) => true,
        (DeepPlanView::Array(part), TyView::Array(elem)) => copies(*part, *elem, table),
        (
            DeepPlanView::Result { ok, err },
            TyView::Result(good, bad),
        ) => copies(*ok, *good, table) && copies(*err, *bad, table),
        (DeepPlanView::Struct { name, fields }, TyView::Struct(own)) => {
            &&& name == own
            &&& table.contains_key(name)
            &&& fields.len() == table[name].len()
            &&& forall|i: int|
                0 <= i < fields.len() ==> copies(#[trigger] fields[i], table[name][i], table)
        },
        _ => false,
    }
}

/// The plan copies the outer layer of a value: the fields of a struct and the value of a result,
/// down to scalars. Nothing that lives outside the value is copied.
pub open spec fn copies_layer(plan: ShallowPlanView, ty: TyView, table: Fields) -> bool
    decreases plan,
{
    match (plan, ty) {
        (ShallowPlanView::Inline, TyView::Int(_)) => true,
        (ShallowPlanView::Inline, TyView::UInt(_)) => true,
        (ShallowPlanView::Inline, TyView::Float(_)) => true,
        (ShallowPlanView::Inline, TyView::Bool) => true,
        (
            ShallowPlanView::Result { ok, err },
            TyView::Result(good, bad),
        ) => copies_layer(*ok, *good, table) && copies_layer(*err, *bad, table),
        (ShallowPlanView::Struct { name, fields }, TyView::Struct(own)) => {
            &&& name == own
            &&& table.contains_key(name)
            &&& fields.len() == table[name].len()
            &&& forall|i: int|
                0 <= i < fields.len() ==> copies_layer(#[trigger] fields[i], table[name][i], table)
        },
        _ => false,
    }
}

/// From a node on, the list tears down a value of the type. What the node refers to comes after
/// it and before the given end.
pub open spec fn tears_down(
    nodes: Seq<DestroyView>,
    at: int,
    ty: TyView,
    table: Fields,
    low: int,
    end: int,
) -> bool
    decreases end - low,
{
    &&& 0 <= at < low <= end <= nodes.len()
    &&& match (nodes[at], ty) {
        (DestroyView::Inline, TyView::Int(_)) => true,
        (DestroyView::Inline, TyView::UInt(_)) => true,
        (DestroyView::Inline, TyView::Float(_)) => true,
        (DestroyView::Inline, TyView::Bool) => true,
        (DestroyView::String, TyView::Str) => true,
        (DestroyView::Iterator, TyView::Iterator(_)) => true,
        (DestroyView::Closure, TyView::Func { .. }) => true,
        (DestroyView::Array { element }, TyView::Array(elem)) => low <= element < end
            && tears_down(nodes, element, *elem, table, element + 1, end),
        (
            DestroyView::Result { ok, err },
            TyView::Result(good, bad),
        ) => low <= ok < err < end && tears_down(nodes, ok, *good, table, err + 1, end)
            && tears_down(nodes, err, *bad, table, err + 1, end),
        (DestroyView::Struct { name, fields }, TyView::Struct(own)) => {
            &&& name == own
            &&& table.contains_key(name)
            &&& fields.len() == table[name].len()
            &&& fields.len() > 0 ==> {
                &&& low <= fields[0]
                &&& fields[0] + fields.len() <= end
                &&& forall|i: int| 0 <= i < fields.len() ==> #[trigger] fields[i] == fields[0] + i
                &&& forall|i: int|
                    0 <= i < fields.len() ==> tears_down(
                        nodes,
                        #[trigger] fields[i],
                        table[name][i],
                        table,
                        fields[0] + fields.len(),
                        end,
                    )
            }
        },
        _ => false,
    }
}

/// What a plan is for.
pub enum Purpose {
    Copying,
    CopyingALayer,
    Destroying,
}

/// The type can be taken apart for the purpose: structs are nested no deeper than some depth,
/// and every part is of a kind that the purpose allows.
pub open spec fn reaches(purpose: Purpose, ty: TyView, table: Fields, depth: nat) -> bool
    decreases depth, ty,
{
    match ty {
        TyView::Int(_) => true,
        TyView::UInt(_) => true,
        TyView::Float(_) => true,
        TyView::Bool => true,
        TyView::Str => !(purpose is CopyingALayer),
        TyView::Iterator(_) => purpose is Destroying,
        TyView::Func { .. } => purpose is Destroying,
        TyView::Array(elem) => !(purpose is CopyingALayer) && reaches(purpose, *elem, table, depth),
        TyView::Result(ok, err) => reaches(purpose, *ok, table, depth) && reaches(
            purpose,
            *err,
            table,
            depth,
        ),
        TyView::Struct(name) => depth > 0 && table.contains_key(name) && forall|i: int|
            0 <= i < table[name].len() ==> reaches(
                purpose,
                #[trigger] table[name][i],
                table,
                (depth - 1) as nat,
            ),
        _ => false,
    }
}

proof fn lemma_deeper(purpose: Purpose, ty: TyView, table: Fields, depth: nat, more: nat)
    requires
        reaches(purpose, ty, table, depth),
        depth <= more,
    ensures
        reaches(purpose, ty, table, more),
    decreases depth, ty,
{
    match ty {
        TyView::Array(elem) => lemma_deeper(purpose, *elem, table, depth, more),
        TyView::Result(ok, err) => {
            lemma_deeper(purpose, *ok, table, depth, more);
            lemma_deeper(purpose, *err, table, depth, more);
        },
        TyView::Struct(name) => {
            assert forall|i: int| 0 <= i < table[name].len() implies reaches(
                purpose,
                #[trigger] table[name][i],
                table,
                (more - 1) as nat,
            ) by {
                lemma_deeper(
                    purpose,
                    table[name][i],
                    table,
                    (depth - 1) as nat,
                    (more - 1) as nat,
                );
            }
        },
        _ => {},
    }
}

proof fn lemma_settled(purpose: Purpose, ty: TyView, table: Fields, depth: nat)
    requires
        !(purpose is Destroying),
        reaches(purpose, ty, table, depth),
    ensures
        !ty.contains_unknown(),
    decreases ty,
{
    match ty {
        TyView::Array(elem) => lemma_settled(purpose, *elem, table, depth),
        TyView::Result(ok, err) => {
            lemma_settled(purpose, *ok, table, depth);
            lemma_settled(purpose, *err, table, depth);
        },
        _ => {},
    }
}

/// The structs that are being taken apart are nested deeper than what is left.
spec fn out_of_reach(purpose: Purpose, table: Fields, visiting: Set<Seq<char>>, depth: nat) -> bool {
    forall|name: Seq<char>| #[trigger]
        visiting.contains(name) ==> !reaches(purpose, TyView::Struct(name), table, depth)
}

proof fn lemma_out_of_reach(
    purpose: Purpose,
    table: Fields,
    visiting: Set<Seq<char>>,
    name: Seq<char>,
    depth: nat,
)
    requires
        depth > 0,
        out_of_reach(purpose, table, visiting, depth),
        !reaches(purpose, TyView::Struct(name), table, (depth - 1) as nat),
    ensures
        out_of_reach(purpose, table, visiting.insert(name), (depth - 1) as nat),
{
    assert forall|other: Seq<char>| #[trigger] visiting.insert(name).contains(
        other,
    ) implies !reaches(purpose, TyView::Struct(other), table, (depth - 1) as nat) by {
        if other != name {
            assert(visiting.contains(other));
            if reaches(purpose, TyView::Struct(other), table, (depth - 1) as nat) {
                lemma_deeper(
                    purpose,
                    TyView::Struct(other),
                    table,
                    (depth - 1) as nat,
                    depth,
                );
            }
        }
    }
}

proof fn lemma_out_of_reach_less(
    purpose: Purpose,
    table: Fields,
    visiting: Set<Seq<char>>,
    depth: nat,
)
    requires
        depth > 0,
        out_of_reach(purpose, table, visiting, depth),
    ensures
        out_of_reach(purpose, table, visiting, (depth - 1) as nat),
{
    assert forall|other: Seq<char>| #[trigger] visiting.contains(other) implies !reaches(
        purpose,
        TyView::Struct(other),
        table,
        (depth - 1) as nat,
    ) by {
        if reaches(purpose, TyView::Struct(other), table, (depth - 1) as nat) {
            lemma_deeper(purpose, TyView::Struct(other), table, (depth - 1) as nat, depth);
        }
    }
}

proof fn lemma_deep(ty: TyView, span: Span, table: Fields, visiting: Set<Seq<char>>)
    requires
        table.dom().finite(),
    ensures
        deep_plan(ty, span, table, visiting) matches Ok(plan) ==> copies(plan, ty, table)
            && reaches(
            Purpose::Copying,
            ty,
            table,
            table.dom().difference(visiting).len(),
        ),
    decreases table.dom().difference(visiting).len(), ty,
{
    match ty {
        TyView::Array(elem) => lemma_deep(*elem, span, table, visiting),
        TyView::Result(ok, err) => {
            lemma_deep(*ok, span, table, visiting);
            lemma_deep(*err, span, table, visiting);
        },
        TyView::Struct(name) => {
            if !visiting.contains(name) && table.contains_key(name) {
                lemma_mark_shrinks(table, visiting, name);
                lemma_deep_fields(table[name], span, table, visiting.insert(name));
                if let Ok(fields) = deep_fields(table[name], span, table, visiting.insert(name)) {
                    let depth = table.dom().difference(visiting).len();
                    let less = table.dom().difference(visiting.insert(name)).len();
                    assert forall|i: int| 0 <= i < table[name].len() implies reaches(
                        Purpose::Copying,
                        #[trigger] table[name][i],
                        table,
                        (depth - 1) as nat,
                    ) by {
                        lemma_deeper(
                            Purpose::Copying,
                            table[name][i],
                            table,
                            less,
                            (depth - 1) as nat,
                        );
                    }
                    assert(forall|i: int|
                        0 <= i < fields.len() ==> copies(
                            #[trigger] fields[i],
                            table[name][i],
                            table,
                        ));
                }
            }
        },
        _ => {},
    }
}

proof fn lemma_deep_fields(
    types: Seq<TyView>,
    span: Span,
    table: Fields,
    visiting: Set<Seq<char>>,
)
    requires
        table.dom().finite(),
    ensures
        deep_fields(types, span, table, visiting) matches Ok(fields) ==> {
            &&& fields.len() == types.len()
            &&& forall|i: int|
                0 <= i < types.len() ==> copies(#[trigger] fields[i], types[i], table)
            &&& forall|i: int|
                0 <= i < types.len() ==> reaches(
                    Purpose::Copying,
                    #[trigger] types[i],
                    table,
                    table.dom().difference(visiting).len(),
                )
        },
    decreases table.dom().difference(visiting).len(), types,
{
    if types.len() > 0 {
        lemma_deep_fields(types.drop_last(), span, table, visiting);
        lemma_deep(types.last(), span, table, visiting);
        if let Ok(fields) = deep_fields(types, span, table, visiting) {
            let earlier = deep_fields(types.drop_last(), span, table, visiting)->Ok_0;
            assert forall|i: int| 0 <= i < types.len() implies copies(
                #[trigger] fields[i],
                types[i],
                table,
            ) by {
                if i < types.len() - 1 {
                    assert(fields[i] == earlier[i]);
                    assert(types.drop_last()[i] == types[i]);
                }
            }
            assert forall|i: int| 0 <= i < types.len() implies reaches(
                Purpose::Copying,
                #[trigger] types[i],
                table,
                table.dom().difference(visiting).len(),
            ) by {
                if i < types.len() - 1 {
                    assert(types.drop_last()[i] == types[i]);
                }
            }
        }
    }
}

proof fn lemma_deep_exists(
    ty: TyView,
    span: Span,
    table: Fields,
    visiting: Set<Seq<char>>,
    depth: nat,
)
    requires
        table.dom().finite(),
        reaches(Purpose::Copying, ty, table, depth),
        out_of_reach(Purpose::Copying, table, visiting, depth),
    ensures
        deep_plan(ty, span, table, visiting) is Ok,
    decreases depth, ty,
{
    match ty {
        TyView::Array(elem) => lemma_deep_exists(*elem, span, table, visiting, depth),
        TyView::Result(ok, err) => {
            lemma_deep_exists(*ok, span, table, visiting, depth);
            lemma_deep_exists(*err, span, table, visiting, depth);
        },
        TyView::Struct(name) => {
            let less = (depth - 1) as nat;
            if reaches(Purpose::Copying, ty, table, less) {
                lemma_out_of_reach_less(Purpose::Copying, table, visiting, depth);
                lemma_deep_exists(ty, span, table, visiting, less);
            } else {
                lemma_out_of_reach(Purpose::Copying, table, visiting, name, depth);
                lemma_mark_shrinks(table, visiting, name);
                lemma_deep_fields_exist(table[name], span, table, visiting.insert(name), less);
            }
        },
        _ => {},
    }
}

proof fn lemma_deep_fields_exist(
    types: Seq<TyView>,
    span: Span,
    table: Fields,
    visiting: Set<Seq<char>>,
    depth: nat,
)
    requires
        table.dom().finite(),
        forall|i: int|
            0 <= i < types.len() ==> reaches(Purpose::Copying, #[trigger] types[i], table, depth),
        out_of_reach(Purpose::Copying, table, visiting, depth),
    ensures
        deep_fields(types, span, table, visiting) is Ok,
    decreases depth, types,
{
    if types.len() > 0 {
        assert forall|i: int| 0 <= i < types.drop_last().len() implies reaches(
            Purpose::Copying,
            #[trigger] types.drop_last()[i],
            table,
            depth,
        ) by {
            assert(types.drop_last()[i] == types[i]);
        }
        lemma_deep_fields_exist(types.drop_last(), span, table, visiting, depth);
        assert(types.last() == types[types.len() - 1]);
        lemma_deep_exists(types.last(), span, table, visiting, depth);
    }
}

/// A plan for a deep copy copies every part of a value of its type, and there is a plan for
/// exactly the types that can be taken apart into scalars and text.
pub proof fn law_deep_plans_copy_every_part(ty: TyView, span: Span, table: Fields)
    requires
        table.dom().finite(),
    ensures
        deep_clone_of(ty, span, table) matches Ok(plan) ==> copies(plan, ty, table),
        deep_clone_of(ty, span, table) is Ok <==> exists|depth: nat|
            reaches(Purpose::Copying, ty, table, depth),
{
    lemma_deep(ty, span, table, Set::empty());
    if exists|depth: nat| reaches(Purpose::Copying, ty, table, depth) {
        let depth = choose|depth: nat| reaches(Purpose::Copying, ty, table, depth);
        lemma_settled(Purpose::Copying, ty, table, depth);
        lemma_deep_exists(ty, span, table, Set::empty(), depth);
    }
}

proof fn lemma_shallow(ty: TyView, span: Span, table: Fields, visiting: Set<Seq<char>>)
    requires
        table.dom().finite(),
    ensures
        shallow_plan(ty, span, table, visiting) matches Ok(plan) ==> copies_layer(plan, ty, table)
            && reaches(
            Purpose::CopyingALayer,
            ty,
            table,
            table.dom().difference(visiting).len(),
        ),
    decreases table.dom().difference(visiting).len(), ty,
{
    match ty {
        TyView::Result(ok, err) => {
            lemma_shallow(*ok, span, table, visiting);
            lemma_shallow(*err, span, table, visiting);
        },
        TyView::Struct(name) => {
            if !visiting.contains(name) && table.contains_key(name) {
                lemma_mark_shrinks(table, visiting, name);
                lemma_shallow_fields(table[name], span, table, visiting.insert(name));
                if let Ok(fields) = shallow_fields(
                    table[name],
                    span,
                    table,
                    visiting.insert(name),
                ) {
                    let depth = table.dom().difference(visiting).len();
                    let less = table.dom().difference(visiting.insert(name)).len();
                    assert forall|i: int| 0 <= i < table[name].len() implies reaches(
                        Purpose::CopyingALayer,
                        #[trigger] table[name][i],
                        table,
                        (depth - 1) as nat,
                    ) by {
                        lemma_deeper(
                            Purpose::CopyingALayer,
                            table[name][i],
                            table,
                            less,
                            (depth - 1) as nat,
                        );
                    }
                    assert(forall|i: int|
                        0 <= i < fields.len() ==> copies_layer(
                            #[trigger] fields[i],
                            table[name][i],
                            table,
                        ));
                }
            }
        },
        _ => {},
    }
}

proof fn lemma_shallow_fields(
    types: Seq<TyView>,
    span: Span,
    table: Fields,
    visiting: Set<Seq<char>>,
)
    requires
        table.dom().finite(),
    ensures
        shallow_fields(types, span, table, visiting) matches Ok(fields) ==> {
            &&& fields.len() == types.len()
            &&& forall|i: int|
                0 <= i < types.len() ==> copies_layer(#[trigger] fields[i], types[i], table)
            &&& forall|i: int|
                0 <= i < types.len() ==> reaches(
                    Purpose::CopyingALayer,
                    #[trigger] types[i],
                    table,
                    table.dom().difference(visiting).len(),
                )
        },
    decreases table.dom().difference(visiting).len(), types,
{
    if types.len() > 0 {
        lemma_shallow_fields(types.drop_last(), span, table, visiting);
        lemma_shallow(types.last(), span, table, visiting);
        if let Ok(fields) = shallow_fields(types, span, table, visiting) {
            let earlier = shallow_fields(types.drop_last(), span, table, visiting)->Ok_0;
            assert forall|i: int| 0 <= i < types.len() implies copies_layer(
                #[trigger] fields[i],
                types[i],
                table,
            ) by {
                if i < types.len() - 1 {
                    assert(fields[i] == earlier[i]);
                    assert(types.drop_last()[i] == types[i]);
                }
            }
            assert forall|i: int| 0 <= i < types.len() implies reaches(
                Purpose::CopyingALayer,
                #[trigger] types[i],
                table,
                table.dom().difference(visiting).len(),
            ) by {
                if i < types.len() - 1 {
                    assert(types.drop_last()[i] == types[i]);
                }
            }
        }
    }
}

proof fn lemma_shallow_exists(
    ty: TyView,
    span: Span,
    table: Fields,
    visiting: Set<Seq<char>>,
    depth: nat,
)
    requires
        table.dom().finite(),
        reaches(Purpose::CopyingALayer, ty, table, depth),
        out_of_reach(Purpose::CopyingALayer, table, visiting, depth),
    ensures
        shallow_plan(ty, span, table, visiting) is Ok,
    decreases depth, ty,
{
    match ty {
        TyView::Result(ok, err) => {
            lemma_shallow_exists(*ok, span, table, visiting, depth);
            lemma_shallow_exists(*err, span, table, visiting, depth);
        },
        TyView::Struct(name) => {
            let less = (depth - 1) as nat;
            if reaches(Purpose::CopyingALayer, ty, table, less) {
                lemma_out_of_reach_less(Purpose::CopyingALayer, table, visiting, depth);
                lemma_shallow_exists(ty, span, table, visiting, less);
            } else {
                lemma_out_of_reach(Purpose::CopyingALayer, table, visiting, name, depth);
                lemma_mark_shrinks(table, visiting, name);
                lemma_shallow_fields_exist(table[name], span, table, visiting.insert(name), less);
            }
        },
        _ => {},
    }
}

proof fn lemma_shallow_fields_exist(
    types: Seq<TyView>,
    span: Span,
    table: Fields,
    visiting: Set<Seq<char>>,
    depth: nat,
)
    requires
        table.dom().finite(),
        forall|i: int|
            0 <= i < types.len() ==> reaches(
                Purpose::CopyingALayer,
                #[trigger] types[i],
                table,
                depth,
            ),
        out_of_reach(Purpose::CopyingALayer, table, visiting, depth),
    ensures
        shallow_fields(types, span, table, visiting) is Ok,
    decreases depth, types,
{
    if types.len() > 0 {
        assert forall|i: int| 0 <= i < types.drop_last().len() implies reaches(
            Purpose::CopyingALayer,
            #[trigger] types.drop_last()[i],
            table,
            depth,
        ) by {
            assert(types.drop_last()[i] == types[i]);
        }
        lemma_shallow_fields_exist(types.drop_last(), span, table, visiting, depth);
        assert(types.last() == types[types.len() - 1]);
        lemma_shallow_exists(types.last(), span, table, visiting, depth);
    }
}

/// A plan for a shallow copy copies the outer layer of a value of its type. There is one for
/// exactly the structs and results that can be taken apart into scalars alone.
pub proof fn law_shallow_plans_copy_one_layer(ty: TyView, span: Span, table: Fields)
    requires
        table.dom().finite(),
    ensures
        shallow_clone_of(ty, span, table) matches Ok(plan) ==> copies_layer(plan, ty, table),
        shallow_clone_of(ty, span, table) is Ok <==> (ty is Struct || ty is Result)
            && exists|depth: nat| reaches(Purpose::CopyingALayer, ty, table, depth),
{
    lemma_shallow(ty, span, table, Set::empty());
    if exists|depth: nat| reaches(Purpose::CopyingALayer, ty, table, depth) {
        let depth = choose|depth: nat| reaches(Purpose::CopyingALayer, ty, table, depth);
        lemma_settled(Purpose::CopyingALayer, ty, table, depth);
        lemma_shallow_exists(ty, span, table, Set::empty(), depth);
    }
}

/// What tears down a value is not disturbed by nodes elsewhere, nor by more of them.
proof fn lemma_undisturbed(
    nodes: Seq<DestroyView>,
    after: Seq<DestroyView>,
    at: int,
    ty: TyView,
    table: Fields,
    low: int,
    end: int,
    wider: int,
)
    requires
        tears_down(nodes, at, ty, table, low, end),
        end <= wider <= after.len(),
        after[at] == nodes[at],
        forall|k: int| low <= k < end ==> #[trigger] after[k] == nodes[k],
    ensures
        tears_down(after, at, ty, table, low, wider),
    decreases end - low,
{
    match (nodes[at], ty) {
        (DestroyView::Array { element }, TyView::Array(elem)) => {
            lemma_undisturbed(nodes, after, element, *elem, table, element + 1, end, wider);
            assert(tears_down(after, at, ty, table, low, wider));
        },
        (DestroyView::Result { ok, err }, TyView::Result(good, bad)) => {
            lemma_undisturbed(nodes, after, ok, *good, table, err + 1, end, wider);
            lemma_undisturbed(nodes, after, err, *bad, table, err + 1, end, wider);
            assert(tears_down(after, at, ty, table, low, wider));
        },
        (DestroyView::Struct { name, fields }, TyView::Struct(_)) => {
            if fields.len() > 0 {
                assert forall|i: int| 0 <= i < fields.len() implies tears_down(
                    after,
                    #[trigger] fields[i],
                    table[name][i],
                    table,
                    fields[0] + fields.len(),
                    wider,
                ) by {
                    assert(tears_down(
                        nodes,
                        fields[i],
                        table[name][i],
                        table,
                        fields[0] + fields.len(),
                        end,
                    ));
                    lemma_undisturbed(
                        nodes,
                        after,
                        fields[i],
                        table[name][i],
                        table,
                        fields[0] + fields.len(),
                        end,
                        wider,
                    );
                }
            }
            assert(tears_down(after, at, ty, table, low, wider));
        },
        _ => {},
    }
}

proof fn lemma_lower(
    nodes: Seq<DestroyView>,
    at: int,
    ty: TyView,
    table: Fields,
    low: int,
    end: int,
    lower: int,
)
    requires
        tears_down(nodes, at, ty, table, low, end),
        at < lower <= low,
    ensures
        tears_down(nodes, at, ty, table, lower, end),
{
}

proof fn lemma_fill(
    nodes: Seq<DestroyView>,
    index: int,
    ty: TyView,
    span: Span,
    table: Fields,
    visiting: Set<Seq<char>>,
)
    requires
        table.dom().finite(),
        0 <= index < nodes.len(),
    ensures
        fill(nodes, index, ty, span, table, visiting) matches Ok(after) ==> {
            &&& after.len() >= nodes.len()
            &&& forall|k: int|
                0 <= k < nodes.len() && k != index ==> #[trigger] after[k] == nodes[k]
            &&& tears_down(after, index, ty, table, nodes.len() as int, after.len() as int)
            &&& reaches(Purpose::Destroying, ty, table, table.dom().difference(visiting).len())
        },
    decreases table.dom().difference(visiting).len(), ty,
{
    let start = nodes.len() as int;
    match ty {
        TyView::Struct(name) => {
            if !visiting.contains(name) && table.contains_key(name) {
                lemma_mark_shrinks(table, visiting, name);
                let count = table[name].len();
                let types = table[name];
                let node = DestroyView::Struct { name, fields: run(start, count) };
                let made = (nodes + room(count)).update(index, node);
                lemma_fill_fields(
                    made,
                    start,
                    types,
                    span,
                    table,
                    visiting.insert(name),
                    made.len() as int,
                );
                if let Ok(after) = fill(nodes, index, ty, span, table, visiting) {
                    let depth = table.dom().difference(visiting).len();
                    let less = table.dom().difference(visiting.insert(name)).len();
                    assert(after[index] == made[index]);
                    assert(made[index] == node);
                    assert forall|k: int| 0 <= k < nodes.len() && k != index implies #[trigger] after[k]
                        == nodes[k] by {
                        assert(after[k] == made[k]);
                    }
                    assert forall|i: int| 0 <= i < types.len() implies reaches(
                        Purpose::Destroying,
                        #[trigger] types[i],
                        table,
                        (depth - 1) as nat,
                    ) by {
                        lemma_deeper(
                            Purpose::Destroying,
                            types[i],
                            table,
                            less,
                            (depth - 1) as nat,
                        );
                    }
                    let fields = run(start, count);
                    assert forall|i: int| 0 <= i < fields.len() implies tears_down(
                        after,
                        #[trigger] fields[i],
                        table[name][i],
                        table,
                        fields[0] + fields.len(),
                        after.len() as int,
                    ) by {
                        assert(types[i] == table[name][i]);
                        assert(tears_down(
                            after,
                            start + i,
                            types[i],
                            table,
                            made.len() as int,
                            after.len() as int,
                        ));
                    }
                }
            }
        },
        TyView::Array(elem) => {
            let made = nodes.push(DestroyView::Inline).update(
                index,
                DestroyView::Array { element: start },
            );
            lemma_fill(made, start, *elem, span, table, visiting);
            if let Ok(after) = fill(nodes, index, ty, span, table, visiting) {
                assert(after[index] == made[index]);
                assert forall|k: int| 0 <= k < nodes.len() && k != index implies #[trigger] after[k]
                    == nodes[k] by {
                    assert(after[k] == made[k]);
                }
            }
        },
        TyView::Result(ok, err) => {
            let made = (nodes + room(2)).update(
                index,
                DestroyView::Result { ok: start, err: start + 1 },
            );
            lemma_fill(made, start, *ok, span, table, visiting);
            if let Ok(filled) = fill(made, start, *ok, span, table, visiting) {
                lemma_fill(filled, start + 1, *err, span, table, visiting);
                if let Ok(after) = fill(nodes, index, ty, span, table, visiting) {
                    assert(after[index] == filled[index]);
                    assert(filled[index] == made[index]);
                    assert(after[start] == filled[start]);
                    assert forall|k: int| 0 <= k < nodes.len() && k != index implies #[trigger] after[k]
                        == nodes[k] by {
                        assert(after[k] == filled[k]);
                        assert(filled[k] == made[k]);
                    }
                    lemma_undisturbed(
                        filled,
                        after,
                        start,
                        *ok,
                        table,
                        start + 2,
                        filled.len() as int,
                        after.len() as int,
                    );
                    lemma_lower(
                        after,
                        start + 1,
                        *err,
                        table,
                        filled.len() as int,
                        after.len() as int,
                        start + 2,
                    );
                }
            }
        },
        _ => {},
    }
}

proof fn lemma_fill_fields(
    nodes: Seq<DestroyView>,
    start: int,
    types: Seq<TyView>,
    span: Span,
    table: Fields,
    visiting: Set<Seq<char>>,
    low: int,
)
    requires
        table.dom().finite(),
        0 <= start,
        start + types.len() <= low <= nodes.len(),
    ensures
        fill_fields(nodes, start, types, span, table, visiting) matches Ok(after) ==> {
            &&& after.len() >= nodes.len()
            &&& forall|k: int|
                0 <= k < nodes.len() && !(start <= k < start + types.len()) ==> #[trigger] after[k]
                    == nodes[k]
            &&& forall|i: int|
                0 <= i < types.len() ==> tears_down(
                    after,
                    start + i,
                    #[trigger] types[i],
                    table,
                    low,
                    after.len() as int,
                )
            &&& forall|i: int|
                0 <= i < types.len() ==> reaches(
                    Purpose::Destroying,
                    #[trigger] types[i],
                    table,
                    table.dom().difference(visiting).len(),
                )
        },
    decreases table.dom().difference(visiting).len(), types,
{
    if types.len() > 0 {
        let less = types.drop_last();
        let at = start + types.len() - 1;
        lemma_fill_fields(nodes, start, less, span, table, visiting, low);
        if let Ok(filled) = fill_fields(nodes, start, less, span, table, visiting) {
            lemma_fill(filled, at, types.last(), span, table, visiting);
            if let Ok(after) = fill(filled, at, types.last(), span, table, visiting) {
                lemma_lower(
                    after,
                    at,
                    types.last(),
                    table,
                    filled.len() as int,
                    after.len() as int,
                    low,
                );
                assert forall|k: int|
                    0 <= k < nodes.len() && !(start <= k < start
                        + types.len()) implies #[trigger] after[k] == nodes[k] by {
                    assert(after[k] == filled[k]);
                    assert(filled[k] == nodes[k]);
                }
                assert forall|i: int| 0 <= i < types.len() implies tears_down(
                    after,
                    start + i,
                    #[trigger] types[i],
                    table,
                    low,
                    after.len() as int,
                ) by {
                    if i < types.len() - 1 {
                        assert(less[i] == types[i]);
                        lemma_undisturbed(
                            filled,
                            after,
                            start + i,
                            types[i],
                            table,
                            low,
                            filled.len() as int,
                            after.len() as int,
                        );
                    }
                }
                assert forall|i: int| 0 <= i < types.len() implies reaches(
                    Purpose::Destroying,
                    #[trigger] types[i],
                    table,
                    table.dom().difference(visiting).len(),
                ) by {
                    if i < types.len() - 1 {
                        assert(less[i] == types[i]);
                    }
                }
            }
        }
    }
}

proof fn lemma_fill_exists(
    nodes: Seq<DestroyView>,
    index: int,
    ty: TyView,
    span: Span,
    table: Fields,
    visiting: Set<Seq<char>>,
    depth: nat,
)
    requires
        table.dom().finite(),
        reaches(Purpose::Destroying, ty, table, depth),
        out_of_reach(Purpose::Destroying, table, visiting, depth),
    ensures
        fill(nodes, index, ty, span, table, visiting) is Ok,
    decreases depth, ty,
{
    let start = nodes.len() as int;
    match ty {
        TyView::Array(elem) => {
            let made = nodes.push(DestroyView::Inline).update(
                index,
                DestroyView::Array { element: start },
            );
            lemma_fill_exists(made, start, *elem, span, table, visiting, depth);
        },
        TyView::Result(ok, err) => {
            let made = (nodes + room(2)).update(
                index,
                DestroyView::Result { ok: start, err: start + 1 },
            );
            lemma_fill_exists(made, start, *ok, span, table, visiting, depth);
            let filled = fill(made, start, *ok, span, table, visiting)->Ok_0;
            lemma_fill_exists(filled, start + 1, *err, span, table, visiting, depth);
        },
        TyView::Struct(name) => {
            let less = (depth - 1) as nat;
            if reaches(Purpose::Destroying, ty, table, less) {
                lemma_out_of_reach_less(Purpose::Destroying, table, visiting, depth);
                lemma_fill_exists(nodes, index, ty, span, table, visiting, less);
            } else {
                lemma_out_of_reach(Purpose::Destroying, table, visiting, name, depth);
                lemma_mark_shrinks(table, visiting, name);
                let count = table[name].len();
                let made = (nodes + room(count)).update(
                    index,
                    DestroyView::Struct { name, fields: run(start, count) },
                );
                lemma_fill_fields_exist(
                    made,
                    start,
                    table[name],
                    span,
                    table,
                    visiting.insert(name),
                    less,
                );
            }
        },
        _ => {},
    }
}

proof fn lemma_fill_fields_exist(
    nodes: Seq<DestroyView>,
    start: int,
    types: Seq<TyView>,
    span: Span,
    table: Fields,
    visiting: Set<Seq<char>>,
    depth: nat,
)
    requires
        table.dom().finite(),
        forall|i: int|
            0 <= i < types.len() ==> reaches(
                Purpose::Destroying,
                #[trigger] types[i],
                table,
                depth,
            ),
        out_of_reach(Purpose::Destroying, table, visiting, depth),
    ensures
        fill_fields(nodes, start, types, span, table, visiting) is Ok,
    decreases depth, types,
{
    if types.len() > 0 {
        assert forall|i: int| 0 <= i < types.drop_last().len() implies reaches(
            Purpose::Destroying,
            #[trigger] types.drop_last()[i],
            table,
            depth,
        ) by {
            assert(types.drop_last()[i] == types[i]);
        }
        lemma_fill_fields_exist(nodes, start, types.drop_last(), span, table, visiting, depth);
        assert(types.last() == types[types.len() - 1]);
        let filled = fill_fields(nodes, start, types.drop_last(), span, table, visiting)->Ok_0;
        lemma_fill_exists(
            filled,
            start + types.len() - 1,
            types.last(),
            span,
            table,
            visiting,
            depth,
        );
    }
}

/// A plan for destroying a value tears down every part of it, from its first node on, and there
/// is a plan for exactly the types that can be taken apart into what is destroyed as a whole.
pub proof fn law_destruction_reaches_every_part(ty: TyView, span: Span, table: Fields)
    requires
        table.dom().finite(),
    ensures
        plan_of(ty, span, table) matches Ok(nodes) ==> tears_down(
            nodes,
            0,
            ty,
            table,
            1,
            nodes.len() as int,
        ),
        plan_of(ty, span, table) is Ok <==> exists|depth: nat|
            reaches(Purpose::Destroying, ty, table, depth),
{
    let first = seq![DestroyView::Inline];
    lemma_fill(first, 0, ty, span, table, Set::empty());
    if exists|depth: nat| reaches(Purpose::Destroying, ty, table, depth) {
        let depth = choose|depth: nat| reaches(Purpose::Destroying, ty, table, depth);
        lemma_fill_exists(first, 0, ty, span, table, Set::empty(), depth);
    }
}

} // verus!
