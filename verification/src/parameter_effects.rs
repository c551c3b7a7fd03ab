//! Working out what functions do to their parameters, and writing down what follows from it.

use crate::argument_passes::{LoanBook, SiteLoans};
use crate::body_effects::{BodyEffects, Inferred, bodies_found, infer_bodies};
use crate::call_plans::{PassView, all_passes, collect_pass_maps, planned_calls};
use crate::capture_kinds::FunctionKinds;
use crate::effect_contract::{expression_effect_map, final_lookup, outcome, value_effect_faults};
use crate::effects::{
    EffectTable, Lookup, covers, effects_in, infer_binding_effects, initial_effects, join_effect,
    joined, rank, starting_effects, stronger, variable_effects,
};
use crate::function_facts::{
    FactsView, ProgramFacts, bindings_known, collect_facts, effect_walk, function_id_of,
    program_facts,
};
use crate::marks::{Mark, apply_marks, tracks};
use crate::model::{CheckedProgram, Expr};
use crate::outcomes::{OutcomeView, all_outcomes, collect_return_maps, outcomes};
use crate::ownership_flow::KindTable;
use crate::ownership_operations::binding_at;
use crate::return_contract::{declaration, expression_return_effect_map, value_return_faults};
use crate::return_effects::{
    infer_return_effects, inferred_returns, main_return_fault, validate_main_return_effect,
};
use crate::signatures::{SignatureView, all_signatures, collect_signatures, signatures};
use crate::storage_relations::{initial_relation, relation_of};
use crate::types::{
    AliasResult, ErrorView, FunctionId, ParamEffect, broken_at, broken_invariant, copy_error,
    fault_of, first_fault, lemma_first_fault_at, lemma_no_fault,
};
use crate::visit::{Visit, Walk, program_nodes, program_walk};
use vstd::prelude::*;

verus! {

/// What is wrong with a function that has no effects.
pub open spec fn uncovered_fault(function: Expr, effects: Map<u32, Seq<ParamEffect>>) -> Option<
    ErrorView,
> {
    if function_id_of(function) matches Some(id) && effects.contains_key(id.0) {
        None
    } else {
        Some(broken_at(function.spec_span(), "effect map 缺少 FunctionId"@))
    }
}

pub open spec fn uncovered_faults<'a>(
    functions: Seq<&'a Expr>,
    effects: Map<u32, Seq<ParamEffect>>,
) -> Seq<Option<ErrorView>> {
    Seq::new(functions.len(), |i: int| uncovered_fault(*functions[i], effects))
}

fn check_covered<'a>(facts: &ProgramFacts<'a>, effects: &EffectTable) -> (r: AliasResult<()>)
    requires
        bindings_known(facts@),
    ensures
        fault_of(r) == first_fault(uncovered_faults(facts@.functions, effects@)),
        r is Ok ==> covers(effects@, facts@),
{
    let ghost faults = uncovered_faults(facts@.functions, effects@);
    let mut i: usize = 0;
    while i < facts.functions.len()
        invariant
            i <= facts.functions.len(),
            facts.functions@ == facts@.functions,
            faults == uncovered_faults(facts@.functions, effects@),
            forall|k: int| 0 <= k < i ==> (#[trigger] faults[k]) is None,
        decreases facts.functions.len() - i,
    {
        assert(faults[i as int] == uncovered_fault(*facts@.functions[i as int], effects@));
        let known = match facts.functions[i] {
            Expr::FuncLit { function_id, .. } => effects.get(function_id.0).is_some(),
            _ => false,
        };
        if !known {
            proof {
                lemma_first_fault_at(faults, i as int);
            }
            return Err(
                broken_invariant(facts.functions[i].span(), "effect map 缺少 FunctionId"),
            );
        }
        i += 1;
    }
    proof {
        lemma_no_fault(faults);
        assert forall|k: int| 0 <= k < facts@.bindings.len() implies (function_id_of(
            (#[trigger] facts@.bindings[k]).value,
        ) matches Some(id) ==> effects@.contains_key(id.0)) by {
            if function_id_of(facts@.bindings[k].value) is Some {
                let value = &facts@.bindings[k].value;
                let j = choose|j: int|
                    0 <= j < facts@.functions.len() && facts@.functions[j] == value;
                assert(faults[j] is None);
            }
        }
    }
    Ok(())
}

/// The effects of the variables of a program, once all functions have some.
pub open spec fn known_variables<'a>(
    facts: FactsView<'a>,
    effects: Map<u32, Seq<ParamEffect>>,
    strict: bool,
) -> Result<Map<u32, Seq<ParamEffect>>, ErrorView> {
    match first_fault(uncovered_faults(facts.functions, effects)) {
        Some(error) => Err(error),
        None => variable_effects(facts, effects, strict),
    }
}

fn know_variables<'a>(facts: &ProgramFacts<'a>, effects: &EffectTable, strict: bool) -> (r:
    AliasResult<EffectTable>)
    requires
        bindings_known(facts@),
    ensures
        match known_variables(facts@, effects@, strict) {
            Ok(known) => r matches Ok(found) && found@ == known,
            Err(error) => fault_of(r) == Some(error),
        },
{
    match check_covered(facts, effects) {
        Ok(()) => infer_binding_effects(facts, effects, strict),
        Err(error) => Err(error),
    }
}

/// How the calls of a program pass their arguments under provisional effects.
pub open spec fn round_plan<'a>(
    program: &'a CheckedProgram,
    effects: Map<u32, Seq<ParamEffect>>,
    book: LoanBook,
) -> Result<(Seq<Option<PassView>>, LoanBook), ErrorView> {
    match program_facts(program) {
        Err(error) => Err(error),
        Ok(facts) => match known_variables(facts, effects, false) {
            Err(error) => Err(error),
            Ok(bindings) => planned_calls(
                Lookup { facts, current: None, binding_effects: bindings, effects, strict: false },
                program_walk(effect_walk(), program),
                book,
                program_walk(effect_walk(), program).len(),
            ),
        },
    }
}

/// One program is the other with the passes of its calls written.
pub open spec fn passes_written(
    before: CheckedProgram,
    after: CheckedProgram,
    plans: Seq<Option<PassView>>,
) -> bool {
    &&& after.main_id == before.main_id
    &&& exists|marks: Seq<Mark>|
        all_passes(marks, plans) && #[trigger] tracks(
            program_walk(effect_walk(), &before),
            program_walk(effect_walk(), &after),
            marks,
        )
}

fn plan_marks(
    program: &CheckedProgram,
    effects: &EffectTable,
    loans: &mut SiteLoans,
    next_loan_id: &mut u32,
) -> (r: AliasResult<Vec<Mark>>)
    ensures
        match round_plan(
            program,
            effects@,
            LoanBook { loans: old(loans)@, next: *old(next_loan_id) },
        ) {
            Ok((plans, book)) => r matches Ok(marks) && all_passes(marks@, plans) && final(loans)@
                == book.loans && *final(next_loan_id) == book.next,
            Err(error) => fault_of(r) == Some(error),
        },
{
    let facts = match collect_facts(program) {
        Ok(facts) => facts,
        Err(error) => {
            return Err(error);
        },
    };
    let bindings = match know_variables(&facts, effects, false) {
        Ok(bindings) => bindings,
        Err(error) => {
            return Err(error);
        },
    };
    let nodes = program_nodes(
        Walk { every_callee: true, into_functions: true, value_first: true, subject_last: false },
        program,
    );
    collect_pass_maps(&nodes, &facts, effects, &bindings, loans, next_loan_id, false)
}

/// Plans how the calls of a program pass their arguments under provisional effects, and writes
/// it down.
pub fn plan_calls(
    program: &mut CheckedProgram,
    effects: &EffectTable,
    loans: &mut SiteLoans,
    next_loan_id: &mut u32,
) -> (r: AliasResult<()>)
    ensures
        match round_plan(
            old(program),
            effects@,
            LoanBook { loans: old(loans)@, next: *old(next_loan_id) },
        ) {
            Ok((plans, book)) => r is Ok && passes_written(*old(program), *final(program), plans)
                && final(loans)@ == book.loans && *final(next_loan_id) == book.next,
            Err(error) => fault_of(r) == Some(error) && *final(program) == *old(program),
        },
{
    let marks = match plan_marks(program, effects, loans, next_loan_id) {
        Ok(marks) => marks,
        Err(error) => {
            return Err(error);
        },
    };
    let ghost written = marks@;
    apply_marks(
        Walk { every_callee: true, into_functions: true, value_first: true, subject_last: false },
        program,
        marks,
    );
    assert(tracks(
        program_walk(effect_walk(), old(program)),
        program_walk(effect_walk(), program),
        written,
    ));
    Ok(())
}

/// The effects of a function joined with what its body was found to do.
pub open spec fn absorbed_one(
    function: Expr,
    inferred: Option<AliasResult<Vec<ParamEffect>>>,
    effects: Map<u32, Seq<ParamEffect>>,
) -> Result<Map<u32, Seq<ParamEffect>>, ErrorView> {
    let span = function.spec_span();
    let drift = broken_at(span, "inferred parameter effect 数量漂移"@);
    match inferred {
        None => Err(drift),
        Some(result) => match outcome(result) {
            Err(error) => Err(error),
            Ok(list) => match function_id_of(function) {
                None => Err(broken_at(span, "effect map 缺少 FunctionId"@)),
                Some(id) => match effects_in(effects, id.0) {
                    None => Err(broken_at(span, "effect map 缺少 FunctionId"@)),
                    Some(current) => if current.len() != list.len() {
                        Err(drift)
                    } else {
                        Ok(effects.insert(id.0, joined(current, list)))
                    },
                },
            },
        },
    }
}

pub open spec fn inferred_at(list: Seq<AliasResult<Vec<ParamEffect>>>, i: int) -> Option<
    AliasResult<Vec<ParamEffect>>,
> {
    if 0 <= i < list.len() {
        Some(list[i])
    } else {
        None
    }
}

/// The effects joined with what the bodies of the first functions were found to do.
pub open spec fn absorbed<'a>(
    functions: Seq<&'a Expr>,
    list: Seq<AliasResult<Vec<ParamEffect>>>,
    effects: Map<u32, Seq<ParamEffect>>,
    upto: nat,
) -> Result<Map<u32, Seq<ParamEffect>>, ErrorView>
    decreases upto,
{
    if upto == 0 {
        Ok(effects)
    } else {
        match absorbed(functions, list, effects, (upto - 1) as nat) {
            Err(error) => Err(error),
            Ok(so_far) => absorbed_one(
                *functions[upto - 1],
                inferred_at(list, upto - 1),
                so_far,
            ),
        }
    }
}

proof fn lemma_absorbed_stop<'a>(
    functions: Seq<&'a Expr>,
    list: Seq<AliasResult<Vec<ParamEffect>>>,
    effects: Map<u32, Seq<ParamEffect>>,
    at: nat,
    upto: nat,
)
    requires
        at <= upto,
        absorbed(functions, list, effects, at) is Err,
    ensures
        absorbed(functions, list, effects, upto) == absorbed(functions, list, effects, at),
    decreases upto - at,
{
    if at < upto {
        lemma_absorbed_stop(functions, list, effects, at, (upto - 1) as nat);
    }
}

/// No effect in the one map is weaker than in the other, and both know the same functions.
pub open spec fn at_least(
    after: Map<u32, Seq<ParamEffect>>,
    before: Map<u32, Seq<ParamEffect>>,
) -> bool {
    &&& after.dom() == before.dom()
    &&& forall|id: u32|
        #[trigger] before.contains_key(id) ==> after[id].len() == before[id].len() && forall|i: int|
            0 <= i < before[id].len() ==> rank(#[trigger] after[id][i]) >= rank(before[id][i])
}

/// Joining never weakens an effect.
pub proof fn law_rounds_only_strengthen<'a>(
    functions: Seq<&'a Expr>,
    list: Seq<AliasResult<Vec<ParamEffect>>>,
    effects: Map<u32, Seq<ParamEffect>>,
    upto: nat,
)
    ensures
        absorbed(functions, list, effects, upto) matches Ok(after) ==> at_least(after, effects),
    decreases upto,
{
    if upto > 0 {
        law_rounds_only_strengthen(functions, list, effects, (upto - 1) as nat);
        if absorbed(functions, list, effects, upto) is Ok {
            let so_far = absorbed(functions, list, effects, (upto - 1) as nat)->Ok_0;
            let after = absorbed(functions, list, effects, upto)->Ok_0;
            assert(after.dom() =~= so_far.dom());
            assert forall|k: u32| #[trigger] effects.contains_key(k) implies after[k].len()
                == effects[k].len() && forall|i: int|
                0 <= i < effects[k].len() ==> rank(#[trigger] after[k][i]) >= rank(
                    effects[k][i],
                ) by {
                assert(so_far.contains_key(k));
                assert forall|i: int| 0 <= i < effects[k].len() implies rank(
                    #[trigger] after[k][i],
                ) >= rank(effects[k][i]) by {
                    assert(rank(so_far[k][i]) >= rank(effects[k][i]));
                }
            }
        }
    }
}

/// How far some effects are from the strongest ones.
pub open spec fn headroom(list: Seq<ParamEffect>) -> nat
    decreases list.len(),
{
    if list.len() == 0 {
        0
    } else {
        headroom(list.drop_last()) + (2 - rank(list.last())) as nat
    }
}

pub open spec fn total_headroom(ids: Seq<u32>, effects: Map<u32, Seq<ParamEffect>>) -> nat
    decreases ids.len(),
{
    if ids.len() == 0 {
        0
    } else {
        total_headroom(ids.drop_last(), effects) + if effects.contains_key(ids.last()) {
            headroom(effects[ids.last()])
        } else {
            0
        }
    }
}

proof fn lemma_headroom(before: Seq<ParamEffect>, after: Seq<ParamEffect>)
    requires
        before.len() == after.len(),
        forall|i: int| 0 <= i < before.len() ==> rank(#[trigger] after[i]) >= rank(before[i]),
    ensures
        headroom(after) <= headroom(before),
        after != before ==> headroom(after) < headroom(before),
    decreases before.len(),
{
    if before.len() > 0 {
        let a = before.drop_last();
        let b = after.drop_last();
        assert forall|i: int| 0 <= i < a.len() implies rank(#[trigger] b[i]) >= rank(a[i]) by {
            assert(b[i] == after[i]);
        }
        lemma_headroom(a, b);
        assert(rank(after.last()) >= rank(before.last())) by {
            assert(after.last() == after[after.len() - 1]);
        }
        if a == b && before.last() == after.last() {
            assert(before =~= a.push(before.last()));
            assert(after =~= b.push(after.last()));
        }
    } else {
        assert(before =~= after);
    }
}

proof fn lemma_total_headroom(
    ids: Seq<u32>,
    before: Map<u32, Seq<ParamEffect>>,
    after: Map<u32, Seq<ParamEffect>>,
)
    requires
        at_least(after, before),
    ensures
        total_headroom(ids, after) <= total_headroom(ids, before),
        (exists|i: int|
            0 <= i < ids.len() && before.contains_key(#[trigger] ids[i]) && after[ids[i]]
                != before[ids[i]]) ==> total_headroom(ids, after) < total_headroom(ids, before),
    decreases ids.len(),
{
    if ids.len() > 0 {
        let rest = ids.drop_last();
        let id = ids.last();
        lemma_total_headroom(rest, before, after);
        if before.contains_key(id) {
            assert(after.dom().contains(id));
            lemma_headroom(before[id], after[id]);
        } else {
            assert(!after.dom().contains(id));
        }
        if exists|i: int|
            0 <= i < ids.len() && before.contains_key(#[trigger] ids[i]) && after[ids[i]]
                != before[ids[i]] {
            let i = choose|i: int|
                0 <= i < ids.len() && before.contains_key(#[trigger] ids[i]) && after[ids[i]]
                    != before[ids[i]];
            if i < rest.len() {
                assert(rest[i] == ids[i]);
            }
        }
    }
}

/// A round that changes an effect brings the effects nearer to the strongest ones. There are
/// only so many rounds that change something: at most two for every parameter.
pub proof fn law_rounds_come_to_an_end(
    ids: Seq<u32>,
    before: Map<u32, Seq<ParamEffect>>,
    after: Map<u32, Seq<ParamEffect>>,
)
    requires
        at_least(after, before),
        after != before,
        forall|id: u32| #[trigger] before.contains_key(id) ==> ids.contains(id),
    ensures
        total_headroom(ids, after) < total_headroom(ids, before),
{
    lemma_total_headroom(ids, before, after);
    if forall|id: u32| #[trigger] before.contains_key(id) ==> after[id] == before[id] {
        assert(after =~= before);
    } else {
        let id = choose|id: u32| #[trigger] before.contains_key(id) && after[id] != before[id];
        let i = choose|i: int| 0 <= i < ids.len() && ids[i] == id;
        assert(before.contains_key(ids[i]) && after[ids[i]] != before[ids[i]]);
    }
}

fn join_list(current: &Vec<ParamEffect>, inferred: &Vec<ParamEffect>) -> (r: (
    Vec<ParamEffect>,
    bool,
))
    requires
        current@.len() == inferred@.len(),
    ensures
        r.0@ == joined(current@, inferred@),
        r.1 == (joined(current@, inferred@) != current@),
{
    let mut list: Vec<ParamEffect> = Vec::new();
    let mut changed = false;
    let mut i: usize = 0;
    while i < current.len()
        invariant
            i <= current.len(),
            current@.len() == inferred@.len(),
            list@.len() == i,
            forall|k: int| 0 <= k < i ==> list@[k] == stronger(current@[k], inferred@[k]),
            changed == exists|k: int|
                0 <= k < i && stronger(#[trigger] current@[k], inferred@[k]) != current@[k],
        decreases current.len() - i,
    {
        let effect = join_effect(current[i], inferred[i]);
        if effect != current[i] {
            changed = true;
            assert(stronger(current@[i as int], inferred@[i as int]) != current@[i as int]);
        }
        list.push(effect);
        i += 1;
    }
    proof {
        let all = joined(current@, inferred@);
        assert(list@ =~= all);
        if changed {
            let k = choose|k: int|
                0 <= k < current@.len() && stronger(#[trigger] current@[k], inferred@[k])
                    != current@[k];
            assert(all[k] != current@[k]);
        } else {
            assert forall|k: int| 0 <= k < current@.len() implies all[k] == current@[k] by {
                assert(stronger(current@[k], inferred@[k]) == current@[k]);
            }
            assert(all =~= current@);
        }
    }
    (list, changed)
}

fn absorb_one(
    function: &Expr,
    inferred: Option<&AliasResult<Vec<ParamEffect>>>,
    effects: &mut EffectTable,
) -> (r: AliasResult<bool>)
    ensures
        match absorbed_one(
            *function,
            match inferred {
                Some(result) => Some(*result),
                None => None,
            },
            old(effects)@,
        ) {
            Ok(after) => r matches Ok(changed) && final(effects)@ == after && changed == (after
                != old(effects)@),
            Err(error) => fault_of(r) == Some(error),
        },
{
    let span = function.span();
    let list = match inferred {
        Some(Ok(list)) => list,
        Some(Err(error)) => {
            return Err(copy_error(error));
        },
        None => {
            return Err(broken_invariant(span, "inferred parameter effect 数量漂移"));
        },
    };
    let id = match function {
        Expr::FuncLit { function_id, .. } => *function_id,
        _ => {
            return Err(broken_invariant(span, "effect map 缺少 FunctionId"));
        },
    };
    let current = match effects.get(id.0) {
        Some(current) => current,
        None => {
            return Err(broken_invariant(span, "effect map 缺少 FunctionId"));
        },
    };
    if current.len() != list.len() {
        return Err(broken_invariant(span, "inferred parameter effect 数量漂移"));
    }
    let ghost before = effects@;
    let (next, changed) = join_list(current, list);
    let ghost new = next@;
    effects.insert(id.0, next);
    proof {
        if changed {
            assert(before.insert(id.0, new)[id.0] != before[id.0]);
        } else {
            assert(before.insert(id.0, new) =~= before);
        }
    }
    Ok(changed)
}

/// Joins the effects of all functions with what their bodies were found to do; tells whether an
/// effect has changed.
pub fn absorb<'a>(
    facts: &ProgramFacts<'a>,
    list: &Vec<AliasResult<Vec<ParamEffect>>>,
    effects: &mut EffectTable,
) -> (r: AliasResult<bool>)
    ensures
        match absorbed(facts@.functions, list@, old(effects)@, facts@.functions.len()) {
            Ok(after) => r matches Ok(changed) && final(effects)@ == after && changed == (after
                != old(effects)@),
            Err(error) => fault_of(r) == Some(error),
        },
{
    let ghost start = effects@;
    let mut changed = false;
    let mut i: usize = 0;
    while i < facts.functions.len()
        invariant
            i <= facts.functions.len(),
            start == old(effects)@,
            facts.functions@ == facts@.functions,
            absorbed(facts@.functions, list@, start, i as nat) == Ok::<
                Map<u32, Seq<ParamEffect>>,
                ErrorView,
            >(effects@),
            changed == (effects@ != start),
        decreases facts.functions.len() - i,
    {
        let ghost before = effects@;
        let result = absorb_one(
            facts.functions[i],
            if i < list.len() {
                Some(&list[i])
            } else {
                None
            },
            effects,
        );
        match result {
            Ok(more) => {
                proof {
                    law_rounds_only_strengthen(facts@.functions, list@, start, i as nat);
                    law_rounds_only_strengthen(facts@.functions, list@, start, (i + 1) as nat);
                    if more {
                        let id = (function_id_of(*facts@.functions[i as int])->0).0;
                        assert(effects@[id] != before[id]) by {
                            if effects@[id] == before[id] {
                                assert(effects@ =~= before);
                            }
                        }
                        assert(before.contains_key(id));
                        assert(start.dom().contains(id));
                        lemma_headroom(start[id], before[id]);
                        assert forall|k: int| 0 <= k < before[id].len() implies rank(
                            #[trigger] effects@[id][k],
                        ) >= rank(before[id][k]) by {}
                        lemma_headroom(before[id], effects@[id]);
                        assert(effects@[id] != start[id]);
                    }
                }
                changed = changed || more;
            },
            Err(error) => {
                proof {
                    lemma_absorbed_stop(
                        facts@.functions,
                        list@,
                        start,
                        (i + 1) as nat,
                        facts@.functions.len(),
                    );
                }
                return Err(error);
            },
        }
        i += 1;
    }
    Ok(changed)
}

/// How the calls of a program pass their arguments under the final effects.
pub open spec fn final_plan<'a>(
    program: &'a CheckedProgram,
    effects: Map<u32, Seq<ParamEffect>>,
    first: u32,
) -> Result<(Seq<Option<PassView>>, LoanBook), ErrorView> {
    let nodes = program_walk(effect_walk(), program);
    match program_facts(program) {
        Err(error) => Err(error),
        Ok(facts) => match known_variables(facts, effects, true) {
            Err(error) => Err(error),
            Ok(bindings) => {
                let look = final_lookup(facts, effects, bindings);
                match first_fault(value_effect_faults(look, nodes)) {
                    Some(error) => Err(error),
                    None => planned_calls(
                        look,
                        nodes,
                        LoanBook { loans: Seq::empty(), next: first },
                        nodes.len(),
                    ),
                }
            },
        },
    }
}

fn final_marks(program: &CheckedProgram, effects: &EffectTable, next_loan_id: &mut u32) -> (r:
    AliasResult<Vec<Mark>>)
    ensures
        match final_plan(program, effects@, *old(next_loan_id)) {
            Ok((plans, book)) => r matches Ok(marks) && all_passes(marks@, plans)
                && *final(next_loan_id) == book.next,
            Err(error) => fault_of(r) == Some(error),
        },
{
    let facts = match collect_facts(program) {
        Ok(facts) => facts,
        Err(error) => {
            return Err(error);
        },
    };
    let bindings = match know_variables(&facts, effects, true) {
        Ok(bindings) => bindings,
        Err(error) => {
            return Err(error);
        },
    };
    let nodes = program_nodes(
        Walk { every_callee: true, into_functions: true, value_first: true, subject_last: false },
        program,
    );
    match expression_effect_map(&nodes, &facts, effects, &bindings) {
        Ok(_) => {},
        Err(error) => {
            return Err(error);
        },
    }
    let mut loans = SiteLoans::new();
    collect_pass_maps(&nodes, &facts, effects, &bindings, &mut loans, next_loan_id, true)
}

/// What is written on function types, at calls and at returns under the final effects.
pub open spec fn return_plan<'a>(
    program: &'a CheckedProgram,
    effects: Map<u32, Seq<ParamEffect>>,
    next: u32,
) -> Result<(Seq<Option<SignatureView>>, Seq<Option<OutcomeView>>, u32), ErrorView> {
    let nodes = program_walk(effect_walk(), program);
    match program_facts(program) {
        Err(error) => Err(error),
        Ok(facts) => match inferred_returns(facts, effects) {
            Err(error) => Err(error),
            Ok(handed) => match main_return_fault(facts, handed) {
                Some(error) => Err(error),
                None => match first_fault(value_return_faults(facts, handed, nodes)) {
                    Some(error) => Err(error),
                    None => match outcomes(facts, effects, handed, nodes, next, nodes.len()) {
                        Err(error) => Err(error),
                        Ok((list, after)) => match known_variables(facts, effects, true) {
                            Err(error) => Err(error),
                            Ok(bindings) => {
                                let look = final_lookup(facts, effects, bindings);
                                match first_fault(value_effect_faults(look, nodes)) {
                                    Some(error) => Err(error),
                                    None => match signatures(look, handed, nodes, nodes.len()) {
                                        Err(error) => Err(error),
                                        Ok(signed) => Ok((signed, list, after)),
                                    },
                                }
                            },
                        },
                    },
                },
            },
        },
    }
}

fn return_marks(program: &CheckedProgram, effects: &EffectTable, next_loan_id: &mut u32) -> (r:
    AliasResult<(Vec<Mark>, Vec<Mark>)>)
    ensures
        match return_plan(program, effects@, *old(next_loan_id)) {
            Ok((signed, list, after)) => r matches Ok((first, second)) && all_signatures(
                first@,
                signed,
            ) && all_outcomes(second@, list) && *final(next_loan_id) == after,
            Err(error) => fault_of(r) == Some(error),
        },
{
    let facts = match collect_facts(program) {
        Ok(facts) => facts,
        Err(error) => {
            return Err(error);
        },
    };
    let handed = match infer_return_effects(&facts, effects) {
        Ok(handed) => handed,
        Err(error) => {
            return Err(error);
        },
    };
    match validate_main_return_effect(&facts, &handed) {
        Ok(()) => {},
        Err(error) => {
            return Err(error);
        },
    }
    let nodes = program_nodes(
        Walk { every_callee: true, into_functions: true, value_first: true, subject_last: false },
        program,
    );
    let value_returns = match expression_return_effect_map(&nodes, &facts, &handed) {
        Ok(list) => list,
        Err(error) => {
            return Err(error);
        },
    };
    let second = match collect_return_maps(&nodes, &facts, effects, &handed, next_loan_id) {
        Ok(marks) => marks,
        Err(error) => {
            return Err(error);
        },
    };
    let bindings = match know_variables(&facts, effects, true) {
        Ok(bindings) => bindings,
        Err(error) => {
            return Err(error);
        },
    };
    let values = match expression_effect_map(&nodes, &facts, effects, &bindings) {
        Ok(values) => values,
        Err(error) => {
            return Err(error);
        },
    };
    match collect_signatures(&nodes, &facts, effects, &handed, &bindings, &values, &value_returns) {
        Ok(first) => Ok((first, second)),
        Err(error) => Err(error),
    }
}

/// One program is the other with effects written on its function types.
pub open spec fn signatures_written(
    before: CheckedProgram,
    after: CheckedProgram,
    plans: Seq<Option<SignatureView>>,
) -> bool {
    &&& after.main_id == before.main_id
    &&& exists|marks: Seq<Mark>|
        all_signatures(marks, plans) && #[trigger] tracks(
            program_walk(effect_walk(), &before),
            program_walk(effect_walk(), &after),
            marks,
        )
}

/// One program is the other with what calls hand back and how values are returned written.
pub open spec fn outcomes_written(
    before: CheckedProgram,
    after: CheckedProgram,
    plans: Seq<Option<OutcomeView>>,
) -> bool {
    &&& after.main_id == before.main_id
    &&& exists|marks: Seq<Mark>|
        all_outcomes(marks, plans) && #[trigger] tracks(
            program_walk(effect_walk(), &before),
            program_walk(effect_walk(), &after),
            marks,
        )
}

/// What is written on the slot of a variable.
pub open spec fn slot_mark<'a>(visit: Visit<'a>) -> Result<Mark, ErrorView> {
    match binding_at(visit) {
        None => Ok(Mark::Keep),
        Some(binding) => match relation_of(binding.value) {
            Err(error) => Err(error),
            Ok(relation) => Ok(Mark::Relation(relation)),
        },
    }
}

pub open spec fn slot_faults<'a>(nodes: Seq<Visit<'a>>) -> Seq<Option<ErrorView>> {
    Seq::new(
        nodes.len(),
        |i: int|
            match slot_mark(nodes[i]) {
                Ok(_) => None,
                Err(error) => Some(error),
            },
    )
}

pub open spec fn slot_marks<'a>(nodes: Seq<Visit<'a>>) -> Seq<Mark> {
    Seq::new(nodes.len(), |i: int| slot_mark(nodes[i])->Ok_0)
}

fn relation_marks(program: &CheckedProgram) -> (r: AliasResult<Vec<Mark>>)
    ensures
        fault_of(r) == first_fault(slot_faults(program_walk(effect_walk(), program))),
        r matches Ok(marks) ==> marks@ == slot_marks(program_walk(effect_walk(), program)),
{
    let nodes = program_nodes(
        Walk { every_callee: true, into_functions: true, value_first: true, subject_last: false },
        program,
    );
    let ghost faults = slot_faults(nodes@);
    let mut marks: Vec<Mark> = Vec::new();
    let mut i: usize = 0;
    while i < nodes.len()
        invariant
            i <= nodes.len(),
            nodes@ == program_walk(effect_walk(), program),
            faults == slot_faults(nodes@),
            marks@.len() == i,
            forall|k: int| 0 <= k < i ==> (#[trigger] faults[k]) is None,
            forall|k: int| 0 <= k < i ==> #[trigger] marks@[k] == slot_mark(nodes@[k])->Ok_0,
        decreases nodes.len() - i,
    {
        assert(faults[i as int] == match slot_mark(nodes@[i as int]) {
            Ok(_) => None,
            Err(error) => Some(error),
        });
        match declaration(nodes[i]) {
            None => {
                marks.push(Mark::Keep);
            },
            Some(binding) => match initial_relation(&binding.value) {
                Ok(relation) => {
                    marks.push(Mark::Relation(relation));
                },
                Err(error) => {
                    proof {
                        lemma_first_fault_at(faults, i as int);
                    }
                    return Err(error);
                },
            },
        }
        i += 1;
    }
    proof {
        lemma_no_fault(faults);
        assert(marks@ =~= slot_marks(nodes@));
    }
    Ok(marks)
}

/// What comes of a program whose calls and returns are written down: the slots of its variables
/// are settled anew.
pub open spec fn slots_settle(
    program: CheckedProgram,
    next: u32,
    r: Result<(CheckedProgram, u32), ErrorView>,
) -> bool {
    let nodes = program_walk(effect_walk(), &program);
    match first_fault(slot_faults(nodes)) {
        Some(error) => r == Err::<(CheckedProgram, u32), ErrorView>(error),
        None => r matches Ok((after, last)) && last == next && after.main_id == program.main_id
            && tracks(nodes, program_walk(effect_walk(), &after), slot_marks(nodes)),
    }
}

/// Settles the slots of the variables anew.
pub fn refresh_binding_relations(program: &mut CheckedProgram) -> (r: AliasResult<()>)
    ensures
        match first_fault(slot_faults(program_walk(effect_walk(), old(program)))) {
            Some(error) => fault_of(r) == Some(error) && *final(program) == *old(program),
            None => r is Ok && final(program).main_id == old(program).main_id && tracks(
                program_walk(effect_walk(), old(program)),
                program_walk(effect_walk(), final(program)),
                slot_marks(program_walk(effect_walk(), old(program))),
            ),
        },
{
    match relation_marks(program) {
        Ok(marks) => {
            apply_marks(
                Walk {
                    every_callee: true,
                    into_functions: true,
                    value_first: true,
                    subject_last: false,
                },
                program,
                marks,
            );
            Ok(())
        },
        Err(error) => Err(error),
    }
}

/// What comes of a program whose arguments are written down.
pub open spec fn returns_settle(
    program: CheckedProgram,
    effects: Map<u32, Seq<ParamEffect>>,
    next: u32,
    r: Result<(CheckedProgram, u32), ErrorView>,
) -> bool {
    match return_plan(&program, effects, next) {
        Err(error) => r == Err::<(CheckedProgram, u32), ErrorView>(error),
        Ok((signed, list, after)) => exists|p2: CheckedProgram, p3: CheckedProgram|
            signatures_written(program, p2, signed) && #[trigger] outcomes_written(p2, p3, list)
                && slots_settle(p3, after, r),
    }
}

/// What comes of a program and the final effects of its functions: the arguments, the function
/// types, the results of calls, the returned values and the slots of variables are written down,
/// one after the other, and the number of the next loan is known; or the first thing is reported
/// that cannot be written.
pub open spec fn settles(
    program: CheckedProgram,
    effects: Map<u32, Seq<ParamEffect>>,
    first: u32,
    r: Result<(CheckedProgram, u32), ErrorView>,
) -> bool {
    match final_plan(&program, effects, first) {
        Err(error) => r == Err::<(CheckedProgram, u32), ErrorView>(error),
        Ok((plans, book)) => exists|p1: CheckedProgram| #[trigger]
            passes_written(program, p1, plans) && returns_settle(p1, effects, book.next, r),
    }
}

/// Writes down what follows from the final effects of the functions.
pub fn settle(program: &mut CheckedProgram, effects: &EffectTable, first_loan_id: u32) -> (r:
    AliasResult<u32>)
    ensures
        settles(
            *old(program),
            effects@,
            first_loan_id,
            match r {
                Ok(next) => Ok((*final(program), next)),
                Err(error) => Err(error@),
            },
        ),
{
    let mut next = first_loan_id;
    let marks = match final_marks(program, effects, &mut next) {
        Ok(marks) => marks,
        Err(error) => {
            return Err(error);
        },
    };
    let ghost passes = marks@;
    let ghost (plans, book) = final_plan(program, effects@, first_loan_id)->Ok_0;
    apply_marks(
        Walk { every_callee: true, into_functions: true, value_first: true, subject_last: false },
        program,
        marks,
    );
    let ghost p1 = *program;
    proof {
        assert(tracks(
            program_walk(effect_walk(), old(program)),
            program_walk(effect_walk(), &p1),
            passes,
        ));
        assert(passes_written(*old(program), p1, plans));
    }
    let (first, second) = match return_marks(program, effects, &mut next) {
        Ok(both) => both,
        Err(error) => {
            return Err(error);
        },
    };
    let ghost (signed, list, after) = return_plan(&p1, effects@, book.next)->Ok_0;
    let ghost types = first@;
    let ghost results = second@;
    apply_marks(
        Walk { every_callee: true, into_functions: true, value_first: true, subject_last: false },
        program,
        first,
    );
    let ghost p2 = *program;
    apply_marks(
        Walk { every_callee: true, into_functions: true, value_first: true, subject_last: false },
        program,
        second,
    );
    let ghost p3 = *program;
    proof {
        assert(tracks(
            program_walk(effect_walk(), &p1),
            program_walk(effect_walk(), &p2),
            types,
        ));
        assert(signatures_written(p1, p2, signed));
        assert(tracks(
            program_walk(effect_walk(), &p2),
            program_walk(effect_walk(), &p3),
            results,
        ));
        assert(outcomes_written(p2, p3, list));
    }
    match refresh_binding_relations(program) {
        Ok(()) => {
            proof {
                let end = Ok::<(CheckedProgram, u32), ErrorView>((*program, next));
                assert(slots_settle(p3, next, end));
                assert(returns_settle(p1, effects@, book.next, end));
            }
            Ok(next)
        },
        Err(error) => {
            proof {
                let end = Err::<(CheckedProgram, u32), ErrorView>(error@);
                assert(slots_settle(p3, next, end));
                assert(returns_settle(p1, effects@, book.next, end));
            }
            Err(error)
        },
    }
}

/// A program on the way to its final effects.
pub struct Stage {
    pub program: CheckedProgram,
    pub effects: Map<u32, Seq<ParamEffect>>,
    pub book: LoanBook,
}

pub open spec fn first_stage(program: CheckedProgram, next: u32) -> Result<Stage, ErrorView> {
    match program_facts(&program) {
        Err(error) => Err(error),
        Ok(facts) => Ok(
            Stage {
                program,
                effects: starting_effects(facts.functions),
                book: LoanBook { loans: Seq::empty(), next },
            },
        ),
    }
}

/// What the bodies of the functions add to the effects.
pub open spec fn absorbed_all(
    program: CheckedProgram,
    inferred: Inferred,
    effects: Map<u32, Seq<ParamEffect>>,
) -> Result<Map<u32, Seq<ParamEffect>>, ErrorView> {
    match inferred {
        Err(error) => Err(error@),
        Ok(list) => match program_facts(&program) {
            Err(error) => Err(error),
            Ok(facts) => absorbed(facts.functions, list@, effects, facts.functions.len()),
        },
    }
}

/// One round: the calls are planned, the bodies are looked at, the effects are joined.
pub open spec fn round_step<
    K: Fn(&Expr, &KindTable) -> FunctionKinds,
    E: Fn(&Expr, &KindTable) -> BodyEffects,
>(
    infer_kinds: K,
    infer_effects: E,
    before: Stage,
    after: Stage,
) -> bool {
    &&& round_plan(&before.program, before.effects, before.book) matches Ok((plans, book))
        && book == after.book && passes_written(before.program, after.program, plans)
    &&& exists|inferred: Inferred| #[trigger]
        bodies_found(infer_kinds, infer_effects, after.program, inferred) && absorbed_all(
            after.program,
            inferred,
            before.effects,
        ) == Ok::<Map<u32, Seq<ParamEffect>>, ErrorView>(after.effects)
}

/// The stages follow one another, one round at a time.
pub open spec fn rounds_of<
    K: Fn(&Expr, &KindTable) -> FunctionKinds,
    E: Fn(&Expr, &KindTable) -> BodyEffects,
>(
    infer_kinds: K,
    infer_effects: E,
    stages: Seq<Stage>,
) -> bool {
    forall|i: int|
        0 <= i < stages.len() - 1 ==> round_step(
            infer_kinds,
            infer_effects,
            #[trigger] stages[i],
            stages[i + 1],
        )
}

/// The last round changed no effect.
pub open spec fn is_stable(stages: Seq<Stage>) -> bool {
    stages.len() >= 2 && stages[stages.len() - 1].effects == stages[stages.len() - 2].effects
}

/// A round reports an error.
pub open spec fn round_fails<
    K: Fn(&Expr, &KindTable) -> FunctionKinds,
    E: Fn(&Expr, &KindTable) -> BodyEffects,
>(
    infer_kinds: K,
    infer_effects: E,
    stage: Stage,
    error: ErrorView,
) -> bool {
    match round_plan(&stage.program, stage.effects, stage.book) {
        Err(found) => found == error,
        Ok((plans, _)) => exists|after: CheckedProgram, inferred: Inferred|
            passes_written(stage.program, after, plans) && #[trigger] bodies_found(
                infer_kinds,
                infer_effects,
                after,
                inferred,
            ) && absorbed_all(after, inferred, stage.effects) == Err::<
                Map<u32, Seq<ParamEffect>>,
                ErrorView,
            >(error),
    }
}

/// What working out the effects of a program comes to.
pub open spec fn finalized<
    K: Fn(&Expr, &KindTable) -> FunctionKinds,
    E: Fn(&Expr, &KindTable) -> BodyEffects,
>(
    infer_kinds: K,
    infer_effects: E,
    program: CheckedProgram,
    first: u32,
    r: Result<(CheckedProgram, u32), ErrorView>,
) -> bool {
    match first_stage(program, first) {
        Err(error) => r == Err::<(CheckedProgram, u32), ErrorView>(error),
        Ok(start) => exists|stages: Seq<Stage>| #[trigger]
            rounds_of(infer_kinds, infer_effects, stages) && stages.len() > 0 && stages[0]
                == start && (if is_stable(stages) {
                settles(stages.last().program, stages.last().effects, first, r)
            } else {
                r matches Err(error) && round_fails(infer_kinds, infer_effects, stages.last(), error)
            }),
    }
}

fn start_effects(program: &CheckedProgram) -> (r: AliasResult<EffectTable>)
    ensures
        match program_facts(program) {
            Ok(facts) => r matches Ok(table) && table@ == starting_effects(facts.functions),
            Err(error) => fault_of(r) == Some(error),
        },
{
    match collect_facts(program) {
        Ok(facts) => Ok(initial_effects(&facts)),
        Err(error) => Err(error),
    }
}

fn absorb_all(program: &CheckedProgram, inferred: Inferred, effects: &mut EffectTable) -> (r:
    AliasResult<bool>)
    ensures
        match absorbed_all(*program, inferred, old(effects)@) {
            Ok(after) => r matches Ok(changed) && final(effects)@ == after && changed == (after
                != old(effects)@) && at_least(after, old(effects)@),
            Err(error) => fault_of(r) == Some(error),
        },
{
    let list = match inferred {
        Ok(list) => list,
        Err(error) => {
            return Err(error);
        },
    };
    match collect_facts(program) {
        Ok(facts) => {
            proof {
                law_rounds_only_strengthen(
                    facts@.functions,
                    list@,
                    effects@,
                    facts@.functions.len(),
                );
            }
            absorb(&facts, &list, effects)
        },
        Err(error) => Err(error),
    }
}

pub open spec fn function_numbers<'a>(functions: Seq<&'a Expr>) -> Seq<u32> {
    Seq::new(
        functions.len(),
        |i: int|
            match function_id_of(*functions[i]) {
                Some(id) => id.0,
                None => 0,
            },
    )
}

proof fn lemma_starting_ids<'a>(functions: Seq<&'a Expr>)
    ensures
        forall|id: u32| #[trigger]
            starting_effects(functions).contains_key(id) ==> function_numbers(functions).contains(
                id,
            ),
    decreases functions.len(),
{
    if functions.len() > 0 {
        let rest = functions.drop_last();
        lemma_starting_ids(rest);
        assert forall|id: u32| #[trigger] starting_effects(functions).contains_key(id) implies
            function_numbers(functions).contains(id) by {
            if function_id_of(*functions.last()) == Some(FunctionId(id)) {
                assert(function_numbers(functions)[functions.len() - 1] == id);
            } else {
                assert(starting_effects(rest).contains_key(id));
                let i = choose|i: int|
                    0 <= i < function_numbers(rest).len() && function_numbers(rest)[i] == id;
                assert(function_numbers(functions)[i] == id);
            }
        }
    }
}

/// Works out what all functions do to their parameters and hand back, and writes down what
/// follows from it.
///
/// What a body does to the parameters of its function depends on how its calls pass their
/// arguments, and that depends on the effects of the functions that are called. So the calls are
/// planned under the effects that are known, the bodies are looked at again, and this
/// goes on until no effect changes any more.
pub fn finalize<
    K: Fn(&Expr, &KindTable) -> FunctionKinds + Copy,
    E: Fn(&Expr, &KindTable) -> BodyEffects + Copy,
>(
    program: &mut CheckedProgram,
    next_loan_id: &mut u32,
    infer_kinds: K,
    infer_effects: E,
) -> (r: AliasResult<()>)
    requires
        forall|function: Expr, table: KindTable| #[trigger]
            infer_kinds.requires((&function, &table)),
        forall|function: Expr, table: KindTable| #[trigger]
            infer_effects.requires((&function, &table)),
    ensures
        finalized(
            infer_kinds,
            infer_effects,
            *old(program),
            *old(next_loan_id),
            match r {
                Ok(()) => Ok((*final(program), *final(next_loan_id))),
                Err(error) => Err(error@),
            },
        ),
        r is Err ==> *final(next_loan_id) == *old(next_loan_id),
{
    let first_loan_id = *next_loan_id;
    let mut effects = match start_effects(program) {
        Ok(effects) => effects,
        Err(error) => {
            return Err(error);
        },
    };
    let mut loans = SiteLoans::new();
    let mut provisional = first_loan_id;
    let ghost start = first_stage(*program, first_loan_id)->Ok_0;
    let ghost mut stages: Seq<Stage> = seq![start];
    let ghost ids = function_numbers(program_facts(program)->Ok_0.functions);
    proof {
        lemma_starting_ids(program_facts(program)->Ok_0.functions);
        assert(stages.last() == start);
    }
    let mut changed = true;
    while changed
        invariant
            forall|function: Expr, table: KindTable| #[trigger]
                infer_kinds.requires((&function, &table)),
            forall|function: Expr, table: KindTable| #[trigger]
                infer_effects.requires((&function, &table)),
            first_loan_id == *old(next_loan_id),
            *next_loan_id == first_loan_id,
            first_stage(*old(program), first_loan_id) == Ok::<Stage, ErrorView>(start),
            rounds_of(infer_kinds, infer_effects, stages),
            stages.len() > 0,
            stages[0] == start,
            stages.last() == (Stage {
                program: *program,
                effects: effects@,
                book: LoanBook { loans: loans@, next: provisional },
            }),
            changed ==> !is_stable(stages),
            !changed ==> is_stable(stages),
            forall|id: u32| #[trigger] effects@.contains_key(id) ==> ids.contains(id),
        decreases total_headroom(ids, effects@), changed as nat,
    {
        let ghost before = stages.last();
        match plan_calls(program, &effects, &mut loans, &mut provisional) {
            Ok(()) => {},
            Err(error) => {
                assert(round_fails(infer_kinds, infer_effects, before, error@));
                return Err(error);
            },
        }
        let inferred = infer_bodies(program, infer_kinds, infer_effects);
        let ghost known = effects@;
        let ghost found = inferred;
        match absorb_all(program, inferred, &mut effects) {
            Ok(more) => {
                proof {
                    let after = Stage {
                        program: *program,
                        effects: effects@,
                        book: LoanBook { loans: loans@, next: provisional },
                    };
                    assert(bodies_found(infer_kinds, infer_effects, after.program, found));
                    assert(round_step(infer_kinds, infer_effects, before, after));
                    let longer = stages.push(after);
                    assert forall|i: int| 0 <= i < longer.len() - 1 implies round_step(
                        infer_kinds,
                        infer_effects,
                        #[trigger] longer[i],
                        longer[i + 1],
                    ) by {
                        if i < stages.len() - 1 {
                            assert(longer[i] == stages[i]);
                            assert(longer[i + 1] == stages[i + 1]);
                        }
                    }
                    stages = longer;
                    if more {
                        law_rounds_come_to_an_end(ids, known, effects@);
                    }
                    assert forall|id: u32| #[trigger] effects@.contains_key(id) implies ids.contains(
                        id,
                    ) by {
                        assert(known.contains_key(id));
                    }
                }
                changed = more;
            },
            Err(error) => {
                proof {
                    let after = *program;
                    assert(bodies_found(infer_kinds, infer_effects, after, found));
                    assert(round_fails(infer_kinds, infer_effects, before, error@));
                }
                return Err(error);
            },
        }
    }
    match settle(program, &effects, first_loan_id) {
        Ok(next) => {
            *next_loan_id = next;
            Ok(())
        },
        Err(error) => Err(error),
    }
}

} // verus!
