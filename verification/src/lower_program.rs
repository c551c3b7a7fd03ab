//! Building the resolved tree of a whole program.

use crate::ast;
use crate::body_effects::BodyEffects;
use crate::builders::{built_binding, built_expr};
use crate::capture::{
    capture_count, captures_written, exhausted, planned_captures, populate_captures, program_seeds,
};
use crate::capture_kinds::{FunctionKinds, kinds_checked};
use crate::effect_contract::effects_checked;
use crate::facts::{FactsMap, LowerFacts, ensure_facts_consumed, found, leftover_fault, leftovers};
use crate::gate::{
    gate_outcome, law_accepted_programs_pass_every_check, operation_checks, reference_checks,
    value_checks,
};
use crate::lower::{lower_binding, lower_expr};
use crate::lowered::{Lowered, lowered_binding, lowered_expr};
use crate::model::{CheckedProgram, Expr, Item, StructDef, StructField};
use crate::ownership_flow::KindTable;
use crate::passes::{law_settled_programs_are_accepted, settle, settled};
use crate::tree::Tree;
use crate::types::{
    AliasResult, BindingId, ErrorView, Span, TyView, broken_at, broken_invariant, fault_of,
};
use vstd::prelude::*;

verus! {

/// A field of a struct, as plain values.
pub struct FieldView {
    pub ty: TyView,
    pub mutable: bool,
    pub default: Option<Tree>,
    pub span: Span,
}

/// An item of the resolved tree, as plain values.
pub enum ItemView {
    Binding(Tree),
    StructDef(Seq<char>, Seq<FieldView>),
}

pub open spec fn default_view(field: StructField) -> Option<Tree> {
    match field.default {
        Some(value) => Some(built_expr(value)),
        None => None,
    }
}

pub open spec fn field_view(field: StructField) -> FieldView {
    FieldView {
        ty: field.ty@,
        mutable: field.mutable,
        default: default_view(field),
        span: field.span,
    }
}

pub open spec fn field_views(list: Seq<StructField>) -> Seq<FieldView> {
    Seq::new(list.len(), |i: int| field_view(list[i]))
}

pub open spec fn item_view(item: Item) -> ItemView {
    match item {
        Item::Binding(binding) => ItemView::Binding(built_binding(*binding)),
        Item::StructDef(def) => ItemView::StructDef(def.name@, field_views(def.fields@)),
    }
}

pub open spec fn item_views(list: Seq<Item>) -> Seq<ItemView> {
    Seq::new(list.len(), |i: int| item_view(list[i]))
}

pub open spec fn lowered_field(field: ast::StructField, facts: FactsMap) -> Lowered<FieldView> {
    match found(facts.fields, field.id) {
        None => Err(broken_at(field.span, "结构体字段缺少静态类型"@)),
        Some(ty) => {
            let rest = FactsMap { fields: facts.fields.remove(field.id), ..facts };
            match field.default {
                None => Ok(
                    (
                        FieldView { ty, mutable: field.mutable, default: None, span: field.span },
                        rest,
                    ),
                ),
                Some(value) => match lowered_expr(value, rest) {
                    Err(error) => Err(error),
                    Ok((tree, after)) => Ok(
                        (
                            FieldView {
                                ty,
                                mutable: field.mutable,
                                default: Some(tree),
                                span: field.span,
                            },
                            after,
                        ),
                    ),
                },
            }
        },
    }
}

pub open spec fn lowered_fields(list: Seq<ast::StructField>, facts: FactsMap, upto: nat) -> Lowered<
    Seq<FieldView>,
>
    decreases upto,
{
    if upto == 0 {
        Ok((Seq::empty(), facts))
    } else {
        match lowered_fields(list, facts, (upto - 1) as nat) {
            Err(error) => Err(error),
            Ok((done, so_far)) => match lowered_field(list[upto - 1], so_far) {
                Err(error) => Err(error),
                Ok((field, after)) => Ok((done.push(field), after)),
            },
        }
    }
}

pub open spec fn lowered_item(item: ast::Item, facts: FactsMap) -> Lowered<ItemView> {
    match item {
        ast::Item::Binding(binding) => match lowered_binding(*binding, facts) {
            Err(error) => Err(error),
            Ok((tree, after)) => Ok((ItemView::Binding(tree), after)),
        },
        ast::Item::StructDef(def) => match lowered_fields(
            def.fields@,
            facts,
            def.fields@.len(),
        ) {
            Err(error) => Err(error),
            Ok((fields, after)) => Ok((ItemView::StructDef(def.name@, fields), after)),
        },
    }
}

pub open spec fn lowered_items(list: Seq<ast::Item>, facts: FactsMap, upto: nat) -> Lowered<
    Seq<ItemView>,
>
    decreases upto,
{
    if upto == 0 {
        Ok((Seq::empty(), facts))
    } else {
        match lowered_items(list, facts, (upto - 1) as nat) {
            Err(error) => Err(error),
            Ok((done, so_far)) => match lowered_item(list[upto - 1], so_far) {
                Err(error) => Err(error),
                Ok((item, after)) => Ok((done.push(item), after)),
            },
        }
    }
}

proof fn lemma_fields_stop(list: Seq<ast::StructField>, facts: FactsMap, at: nat, upto: nat)
    requires
        at <= upto,
        lowered_fields(list, facts, at) is Err,
    ensures
        lowered_fields(list, facts, upto) == lowered_fields(list, facts, at),
    decreases upto - at,
{
    if at < upto {
        lemma_fields_stop(list, facts, at, (upto - 1) as nat);
    }
}

proof fn lemma_items_stop(list: Seq<ast::Item>, facts: FactsMap, at: nat, upto: nat)
    requires
        at <= upto,
        lowered_items(list, facts, at) is Err,
    ensures
        lowered_items(list, facts, upto) == lowered_items(list, facts, at),
    decreases upto - at,
{
    if at < upto {
        lemma_items_stop(list, facts, at, (upto - 1) as nat);
    }
}

fn lower_field(field: &ast::StructField, facts: &mut LowerFacts) -> (r: AliasResult<StructField>)
    ensures
        match lowered_field(*field, old(facts)@) {
            Ok((view, after)) => r matches Ok(built) && field_view(built) == view && final(facts)@
                == after,
            Err(error) => fault_of(r) == Some(error),
        },
{
    let ty = match facts.fields.take(field.id) {
        Some(ty) => ty,
        None => {
            return Err(broken_invariant(field.span, "结构体字段缺少静态类型"));
        },
    };
    match &field.default {
        None => Ok(
            StructField { ty, mutable: field.mutable, default: None, span: field.span },
        ),
        Some(value) => match lower_expr(value, facts) {
            Err(error) => Err(error),
            Ok(value) => Ok(
                StructField { ty, mutable: field.mutable, default: Some(value), span: field.span },
            ),
        },
    }
}

fn lower_fields(list: &Vec<ast::StructField>, facts: &mut LowerFacts) -> (r: AliasResult<
    Vec<StructField>,
>)
    ensures
        match lowered_fields(list@, old(facts)@, list@.len()) {
            Ok((views, after)) => r matches Ok(built) && field_views(built@) == views
                && final(facts)@ == after,
            Err(error) => fault_of(r) == Some(error),
        },
{
    let ghost start = facts@;
    let mut done: Vec<StructField> = Vec::new();
    let mut i: usize = 0;
    assert(field_views(done@) =~= Seq::empty());
    while i < list.len()
        invariant
            i <= list.len(),
            start == old(facts)@,
            lowered_fields(list@, start, i as nat) == Ok::<(Seq<FieldView>, FactsMap), ErrorView>(
                (field_views(done@), facts@),
            ),
        decreases list.len() - i,
    {
        let ghost before = done@;
        match lower_field(&list[i], facts) {
            Ok(built) => {
                done.push(built);
                assert(field_views(done@) =~= field_views(before).push(field_view(built)));
            },
            Err(error) => {
                proof {
                    lemma_fields_stop(list@, start, (i + 1) as nat, list@.len());
                }
                return Err(error);
            },
        }
        i += 1;
    }
    Ok(done)
}

/// Builds an item of the resolved tree.
pub fn lower_item(item: &ast::Item, facts: &mut LowerFacts) -> (r: AliasResult<Item>)
    ensures
        match lowered_item(*item, old(facts)@) {
            Ok((view, after)) => r matches Ok(built) && item_view(built) == view && final(facts)@
                == after,
            Err(error) => fault_of(r) == Some(error),
        },
{
    match item {
        ast::Item::Binding(binding) => match lower_binding(binding, facts) {
            Ok(binding) => Ok(Item::Binding(Box::new(binding))),
            Err(error) => Err(error),
        },
        ast::Item::StructDef(def) => match lower_fields(&def.fields, facts) {
            Ok(fields) => Ok(Item::StructDef(StructDef { name: def.name.clone(), fields })),
            Err(error) => Err(error),
        },
    }
}

fn lower_items(list: &Vec<ast::Item>, facts: &mut LowerFacts) -> (r: AliasResult<Vec<Item>>)
    ensures
        match lowered_items(list@, old(facts)@, list@.len()) {
            Ok((views, after)) => r matches Ok(built) && item_views(built@) == views
                && final(facts)@ == after,
            Err(error) => fault_of(r) == Some(error),
        },
{
    let ghost start = facts@;
    let mut done: Vec<Item> = Vec::new();
    let mut i: usize = 0;
    assert(item_views(done@) =~= Seq::empty());
    while i < list.len()
        invariant
            i <= list.len(),
            start == old(facts)@,
            lowered_items(list@, start, i as nat) == Ok::<(Seq<ItemView>, FactsMap), ErrorView>(
                (item_views(done@), facts@),
            ),
        decreases list.len() - i,
    {
        let ghost before = done@;
        match lower_item(&list[i], facts) {
            Ok(built) => {
                done.push(built);
                assert(item_views(done@) =~= item_views(before).push(item_view(built)));
            },
            Err(error) => {
                proof {
                    lemma_items_stop(list@, start, (i + 1) as nat, list@.len());
                }
                return Err(error);
            },
        }
        i += 1;
    }
    Ok(done)
}

/// The captures of a program that has just been built are written, or the loans run out.
pub open spec fn captures_settle(
    items: Seq<ItemView>,
    main_id: BindingId,
    first: u32,
    r: Result<(CheckedProgram, u32), ErrorView>,
) -> bool {
    exists|before: CheckedProgram| #[trigger]
        item_views(before.items@) == items && before.main_id == main_id && ({
            let seeds = program_seeds(&before);
            let last = first + capture_count(seeds, seeds.len());
            if last <= u32::MAX {
                r matches Ok((after, next)) && next == last && captures_written(
                    before,
                    after,
                    |k: int| planned_captures(seeds, first, k),
                )
            } else {
                r == Err::<(CheckedProgram, u32), ErrorView>(exhausted())
            }
        })
}

/// What building the resolved tree of a program comes to.
#[verifier::opaque]
pub open spec fn program_built(
    program: ast::Program,
    facts: FactsMap,
    main_id: BindingId,
    first: u32,
    r: Result<(CheckedProgram, u32), ErrorView>,
) -> bool {
    match lowered_items(program.items@, facts, program.items@.len()) {
        Err(error) => r == Err::<(CheckedProgram, u32), ErrorView>(error),
        Ok((items, left)) => match leftover_fault(leftovers(left)) {
            Some(error) => r == Err::<(CheckedProgram, u32), ErrorView>(error),
            None => captures_settle(items, main_id, first, r),
        },
    }
}

/// Builds the resolved tree of a program, uses up all facts, and finds out what every function
/// captures.
fn build(
    program: &ast::Program,
    facts: LowerFacts,
    main_id: BindingId,
    next_loan_id: &mut u32,
) -> (r: AliasResult<CheckedProgram>)
    ensures
        program_built(
            *program,
            facts@,
            main_id,
            *old(next_loan_id),
            match r {
                Ok(built) => Ok((built, *final(next_loan_id))),
                Err(error) => Err(error@),
            },
        ),
{
    proof {
        reveal(program_built);
    }
    let mut facts = facts;
    let items = match lower_items(&program.items, &mut facts) {
        Ok(items) => items,
        Err(error) => {
            return Err(error);
        },
    };
    match ensure_facts_consumed(&facts) {
        Ok(()) => {},
        Err(error) => {
            return Err(error);
        },
    }
    let mut checked = CheckedProgram { main_id, items };
    let ghost before = checked;
    let ghost views = item_views(before.items@);
    match populate_captures(&mut checked, next_loan_id) {
        Ok(()) => {
            assert(item_views(before.items@) == views);
            Ok(checked)
        },
        Err(error) => {
            assert(item_views(before.items@) == views);
            Err(error)
        },
    }
}

/// What lowering a program comes to: its tree is built, everything is settled, and the finished
/// tree has passed the final checks.
pub open spec fn program_lowered<
    K: Fn(&Expr, &KindTable) -> FunctionKinds,
    E: Fn(&Expr, &KindTable) -> BodyEffects,
>(
    infer_kinds: K,
    infer_effects: E,
    program: ast::Program,
    facts: FactsMap,
    main_id: BindingId,
    first: u32,
    r: Result<(CheckedProgram, u32), ErrorView>,
) -> bool {
    exists|mid: Result<(CheckedProgram, u32), ErrorView>| #[trigger]
        program_built(program, facts, main_id, first, mid) && match mid {
            Err(error) => r == Err::<(CheckedProgram, u32), ErrorView>(error),
            Ok((built, next)) => settled(infer_kinds, infer_effects, built, next, r),
        }
}

/// Builds the resolved tree of a program, uses up all facts, settles what the tree records, and
/// hands the tree out once it has passed the final checks.
///
/// `infer_kinds` finds the kinds of the loans of one function, and `infer_effects` what one
/// function does to its parameters.
pub fn lower<
    K: Fn(&Expr, &KindTable) -> FunctionKinds + Copy,
    E: Fn(&Expr, &KindTable) -> BodyEffects + Copy,
>(
    program: &ast::Program,
    facts: LowerFacts,
    main_id: BindingId,
    next_loan_id: &mut u32,
    infer_kinds: K,
    infer_effects: E,
) -> (r: AliasResult<CheckedProgram>)
    requires
        forall|function: Expr, table: KindTable| #[trigger]
            infer_kinds.requires((&function, &table)),
        forall|function: Expr, table: KindTable| #[trigger]
            infer_effects.requires((&function, &table)),
    ensures
        program_lowered(
            infer_kinds,
            infer_effects,
            *program,
            facts@,
            main_id,
            *old(next_loan_id),
            match r {
                Ok(built) => Ok((built, *final(next_loan_id))),
                Err(error) => Err(error@),
            },
        ),
        r matches Ok(built) ==> gate_outcome(infer_kinds, infer_effects, built, None),
{
    let ghost first = *next_loan_id;
    let ghost view = facts@;
    let mut built = match build(program, facts, main_id, next_loan_id) {
        Ok(built) => built,
        Err(error) => {
            assert(program_built(*program, view, main_id, first, Err(error@)));
            return Err(error);
        },
    };
    assert(program_built(*program, view, main_id, first, Ok((built, *next_loan_id))));
    match settle(&mut built, next_loan_id, infer_kinds, infer_effects) {
        Ok(()) => Ok(built),
        Err(error) => Err(error),
    }
}

/// What lowering hands out has passed every one of the final checks.
pub proof fn law_lowered_programs_pass_every_check<
    K: Fn(&Expr, &KindTable) -> FunctionKinds,
    E: Fn(&Expr, &KindTable) -> BodyEffects,
>(
    infer_kinds: K,
    infer_effects: E,
    program: ast::Program,
    facts: FactsMap,
    main_id: BindingId,
    first: u32,
    built: CheckedProgram,
    next: u32,
    i: int,
)
    requires
        program_lowered(
            infer_kinds,
            infer_effects,
            program,
            facts,
            main_id,
            first,
            Ok((built, next)),
        ),
    ensures
        0 <= i < value_checks(&built).len() ==> value_checks(&built)[i] is None,
        0 <= i < reference_checks(&built).len() ==> reference_checks(&built)[i] is None,
        0 <= i < operation_checks(&built).len() ==> operation_checks(&built)[i] is None,
        effects_checked(infer_kinds, infer_effects, built, None),
        kinds_checked(infer_kinds, built, None),
{
    let mid = choose|mid: Result<(CheckedProgram, u32), ErrorView>| #[trigger]
        program_built(program, facts, main_id, first, mid) && match mid {
            Err(error) => Ok::<(CheckedProgram, u32), ErrorView>((built, next)) == Err::<
                (CheckedProgram, u32),
                ErrorView,
            >(error),
            Ok((tree, start)) => settled(
                infer_kinds,
                infer_effects,
                tree,
                start,
                Ok((built, next)),
            ),
        };
    match mid {
        Ok((tree, start)) => {
            law_settled_programs_are_accepted(
                infer_kinds,
                infer_effects,
                tree,
                start,
                built,
                next,
            );
            law_accepted_programs_pass_every_check(infer_kinds, infer_effects, built, i);
        },
        Err(_) => {},
    }
}

} // verus!
