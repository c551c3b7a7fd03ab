//! The items of a lowered program stand for the written ones.

use crate::ast;
use crate::builders::{built_binding, built_expr};
use crate::facts::{FactsMap, found};
use crate::lower_program::{
    field_view, field_views, item_view, item_views, lowered_field, lowered_fields, lowered_item,
    lowered_items,
};
use crate::lowered::{lowered_binding, lowered_expr};
use crate::lowering_laws::{
    binding_stands_for, law_lowered_bindings_stand_for_written_ones,
    law_lowered_exprs_stand_for_written_ones, stands_for,
};
use crate::model::{Binding, Expr, Item, StructDef, StructField};
use crate::tree::{binding_tree, expr_tree};
use vstd::prelude::*;

verus! {

/// A field of a struct stands for a written one, by what is noted of it.
pub open spec fn field_stands_for(f: ast::StructField, x: StructField, notes: FactsMap) -> bool {
    &&& found(notes.fields, f.id) == Some(x.ty@)
    &&& x.mutable == f.mutable
    &&& x.span == f.span
    &&& match (f.default, x.default) {
        (None, None) => true,
        (Some(written), Some(value)) => expr_stands(written, value),
        _ => false,
    }
}

/// An expression stands for a written one, by what is noted somewhere.
pub open spec fn expr_stands(written: ast::Expr, value: Expr) -> bool {
    exists|left: FactsMap| #[trigger] stands_for(written, value, left)
}

/// A variable stands for a written one, by what is noted somewhere.
pub open spec fn binding_stands(written: ast::Binding, binding: Binding) -> bool {
    exists|notes: FactsMap| #[trigger] binding_stands_for(written, binding, notes)
}

/// A field stands for a written one, by what is noted somewhere.
pub open spec fn field_stands(f: ast::StructField, x: StructField) -> bool {
    exists|notes: FactsMap| #[trigger] field_stands_for(f, x, notes)
}

/// An item stands for a written one: a variable for a variable, a struct for a struct of the same
/// name with the same fields in the same order.
pub open spec fn item_stands_for(item: ast::Item, x: Item) -> bool {
    match (item, x) {
        (ast::Item::Binding(written), Item::Binding(binding)) => binding_stands(*written, *binding),
        (ast::Item::StructDef(written), Item::StructDef(def)) => {
            &&& def.name@ == written.name@
            &&& def.fields@.len() == written.fields@.len()
            &&& forall|i: int|
                0 <= i < def.fields@.len() ==> field_stands(
                    #[trigger] written.fields@[i],
                    def.fields@[i],
                )
        },
        _ => false,
    }
}

proof fn lemma_expr(written: ast::Expr, facts: FactsMap, value: Expr)
    requires
        lowered_expr(written, facts) is Ok,
        lowered_expr(written, facts)->Ok_0.0 == expr_tree(value),
    ensures
        expr_stands(written, value),
{
    law_lowered_exprs_stand_for_written_ones(written, facts, value);
}

proof fn lemma_binding(written: ast::Binding, facts: FactsMap, binding: Binding)
    requires
        lowered_binding(written, facts) is Ok,
        lowered_binding(written, facts)->Ok_0.0 == binding_tree(binding),
    ensures
        binding_stands(written, binding),
{
    law_lowered_bindings_stand_for_written_ones(written, facts, binding);
}

proof fn lemma_field(f: ast::StructField, facts: FactsMap, x: StructField)
    requires
        lowered_field(f, facts) is Ok,
        lowered_field(f, facts)->Ok_0.0 == field_view(x),
    ensures
        field_stands(f, x),
{
    if let (Some(written), Some(value)) = (f.default, x.default) {
        let rest = FactsMap { fields: facts.fields.remove(f.id), ..facts };
        assert(built_expr(value) == expr_tree(value)) by {
            reveal(built_expr);
        }
        lemma_expr(written, rest, value);
    }
    assert(field_stands_for(f, x, facts));
}

proof fn lemma_fields(
    list: Seq<ast::StructField>,
    facts: FactsMap,
    upto: nat,
    fields: Seq<StructField>,
)
    requires
        upto <= list.len(),
        fields.len() >= upto,
        lowered_fields(list, facts, upto) is Ok,
        forall|i: int|
            0 <= i < upto ==> lowered_fields(list, facts, upto)->Ok_0.0[i] == field_view(
                #[trigger] fields[i],
            ),
    ensures
        lowered_fields(list, facts, upto)->Ok_0.0.len() == upto,
        forall|i: int|
            0 <= i < upto ==> field_stands(#[trigger] list[i], fields[i]),
    decreases upto,
{
    if upto > 0 {
        let less = (upto - 1) as nat;
        let at = less as int;
        let (done, so_far) = lowered_fields(list, facts, less)->Ok_0;
        let all = lowered_fields(list, facts, upto)->Ok_0.0;
        lemma_fields_len(list, facts, less);
        assert forall|i: int| 0 <= i < less implies done[i] == field_view(#[trigger] fields[i]) by {
            assert(all[i] == done[i]);
        }
        lemma_fields(list, facts, less, fields);
        assert(all[at] == field_view(fields[at]));
        lemma_field(list[at], so_far, fields[at]);
    }
}

proof fn lemma_fields_len(list: Seq<ast::StructField>, facts: FactsMap, upto: nat)
    requires
        lowered_fields(list, facts, upto) is Ok,
    ensures
        lowered_fields(list, facts, upto)->Ok_0.0.len() == upto,
    decreases upto,
{
    if upto > 0 {
        lemma_fields_len(list, facts, (upto - 1) as nat);
    }
}

proof fn lemma_struct(written: ast::StructDef, facts: FactsMap, def: StructDef)
    requires
        lowered_fields(written.fields@, facts, written.fields@.len()) is Ok,
        lowered_fields(written.fields@, facts, written.fields@.len())->Ok_0.0 == field_views(
            def.fields@,
        ),
        def.name@ == written.name@,
    ensures
        item_stands_for(ast::Item::StructDef(written), Item::StructDef(def)),
{
    let n = written.fields@.len();
    let views = lowered_fields(written.fields@, facts, n)->Ok_0.0;
    lemma_fields_len(written.fields@, facts, n);
    assert(views.len() == def.fields@.len());
    assert forall|i: int| 0 <= i < n implies views[i] == field_view(#[trigger] def.fields@[i]) by {}
    lemma_fields(written.fields@, facts, n, def.fields@);
}

proof fn lemma_item(item: ast::Item, facts: FactsMap, x: Item)
    requires
        lowered_item(item, facts) is Ok,
        lowered_item(item, facts)->Ok_0.0 == item_view(x),
    ensures
        item_stands_for(item, x),
{
    match (item, x) {
        (ast::Item::Binding(written), Item::Binding(binding)) => {
            assert(built_binding(*binding) == binding_tree(*binding)) by {
                reveal(built_binding);
            }
            lemma_binding(*written, facts, *binding);
        },
        (ast::Item::StructDef(written), Item::StructDef(def)) => {
            lemma_struct(written, facts, def);
        },
        _ => {},
    }
}

proof fn lemma_items(list: Seq<ast::Item>, facts: FactsMap, upto: nat, i: int, x: Item)
    requires
        0 <= i < upto <= list.len(),
        lowered_items(list, facts, upto) is Ok,
        lowered_items(list, facts, upto)->Ok_0.0.len() == upto,
        lowered_items(list, facts, upto)->Ok_0.0[i] == item_view(x),
    ensures
        item_stands_for(list[i], x),
    decreases upto,
{
    let less = (upto - 1) as nat;
    let (done, so_far) = lowered_items(list, facts, less)->Ok_0;
    let all = lowered_items(list, facts, upto)->Ok_0.0;
    assert(done.len() == less);
    if i == less {
        lemma_item(list[i], so_far, x);
    } else {
        assert(all[i] == done[i]);
        lemma_items(list, facts, less, i, x);
    }
}

proof fn lemma_items_len(list: Seq<ast::Item>, facts: FactsMap, upto: nat)
    requires
        lowered_items(list, facts, upto) is Ok,
    ensures
        lowered_items(list, facts, upto)->Ok_0.0.len() == upto,
    decreases upto,
{
    if upto > 0 {
        lemma_items_len(list, facts, (upto - 1) as nat);
    }
}

/// A lowered program has the items of the written one, in the same order, and each stands for the
/// written one.
pub proof fn law_lowered_items_stand_for_written_ones(
    list: Seq<ast::Item>,
    facts: FactsMap,
    items: Seq<Item>,
    i: int,
)
    requires
        lowered_items(list, facts, list.len()) is Ok,
        lowered_items(list, facts, list.len())->Ok_0.0 == item_views(items),
    ensures
        items.len() == list.len(),
        0 <= i < items.len() ==> item_stands_for(list[i], items[i]),
{
    lemma_items_len(list, facts, list.len());
    assert(item_views(items).len() == items.len());
    if 0 <= i < items.len() {
        assert(item_views(items)[i] == item_view(items[i]));
        lemma_items(list, facts, list.len(), i, items[i]);
    }
}

} // verus!
