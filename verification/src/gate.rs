//! The one check that a program passes before anything is generated from it.

use crate::body_effects::BodyEffects;
use crate::capture_kinds::{FunctionKinds, kinds_checked, validate_loan_kinds};
use crate::effect_contract::effects_checked;
use crate::model::{CheckedProgram, Expr};
use crate::ownership_flow::{KindTable, program_flow_fault};
use crate::types::{
    AliasResult, ErrorView, fault_of, first_fault, lemma_first_fault_at, lemma_no_fault,
};
use vstd::prelude::*;

verus! {

/// What the checks of single values and slots say of a program.
#[verifier::opaque]
pub open spec fn value_fault<'a>(program: &'a CheckedProgram) -> Option<ErrorView> {
    first_fault(value_checks(program))
}

pub open spec fn value_checks<'a>(program: &'a CheckedProgram) -> Seq<Option<ErrorView>> {
    seq![
        first_fault(crate::value_categories::program_faults(program)),
        first_fault(crate::ownership_capabilities::program_faults(program)),
        first_fault(crate::storage_relations::program_faults(program)),
    ]
}

/// What the checks of ownership, variables, types and references say of a program.
#[verifier::opaque]
pub open spec fn reference_fault<'a>(program: &'a CheckedProgram) -> Option<ErrorView> {
    first_fault(reference_checks(program))
}

pub open spec fn reference_checks<'a>(program: &'a CheckedProgram) -> Seq<Option<ErrorView>> {
    seq![
        program_flow_fault(program),
        crate::binding_contract::program_fault(program),
        first_fault(crate::typed_contract::program_faults(program)),
        crate::validate::program_fault(program),
    ]
}

/// What the checks of patterns, aliases, assignments and written-out operands say of a program.
#[verifier::opaque]
pub open spec fn operation_fault<'a>(program: &'a CheckedProgram) -> Option<ErrorView> {
    first_fault(operation_checks(program))
}

pub open spec fn operation_checks<'a>(program: &'a CheckedProgram) -> Seq<Option<ErrorView>> {
    seq![
        first_fault(crate::pattern_bindings::program_faults(program)),
        first_fault(crate::borrow_contract::program_faults(program)),
        crate::ownership_operations::program_fault(program),
        first_fault(crate::runtime_checks::program_faults(program)),
    ]
}

/// What the check of calls and functions can say of a program.
#[verifier::opaque]
pub open spec fn call_outcome<
    K: Fn(&Expr, &KindTable) -> FunctionKinds,
    E: Fn(&Expr, &KindTable) -> BodyEffects,
>(
    infer_kinds: K,
    infer_effects: E,
    program: CheckedProgram,
    calls: Option<ErrorView>,
) -> bool {
    effects_checked(infer_kinds, infer_effects, program, calls)
}

/// What the check of the captures can say of a program.
#[verifier::opaque]
pub open spec fn capture_outcome<K: Fn(&Expr, &KindTable) -> FunctionKinds>(
    infer_kinds: K,
    program: CheckedProgram,
    captures: Option<ErrorView>,
) -> bool {
    kinds_checked(infer_kinds, program, captures)
}

/// What the checks say that look at nothing but what is resolved, one after the other.
pub open spec fn resolved_fault<'a>(program: &'a CheckedProgram) -> Option<ErrorView> {
    if value_fault(program) is Some {
        value_fault(program)
    } else {
        reference_fault(program)
    }
}

/// What the checks before the calls say of a program, one after the other.
pub open spec fn early_fault<'a>(program: &'a CheckedProgram) -> Option<ErrorView> {
    if resolved_fault(program) is Some {
        resolved_fault(program)
    } else {
        operation_fault(program)
    }
}

/// What all checks can say of a program: the first thing that is wrong, or nothing.
pub open spec fn gate_outcome<
    K: Fn(&Expr, &KindTable) -> FunctionKinds,
    E: Fn(&Expr, &KindTable) -> BodyEffects,
>(
    infer_kinds: K,
    infer_effects: E,
    program: CheckedProgram,
    fault: Option<ErrorView>,
) -> bool {
    match early_fault(&program) {
        Some(error) => fault == Some(error),
        None => exists|calls: Option<ErrorView>| #[trigger]
            call_outcome(infer_kinds, infer_effects, program, calls) && match calls {
                Some(error) => fault == Some(error),
                None => capture_outcome(infer_kinds, program, fault),
            },
    }
}

fn check_values(program: &CheckedProgram) -> (r: AliasResult<()>)
    ensures
        fault_of(r) == value_fault(program),
{
    proof {
        reveal(value_fault);
    }
    let ghost checks = value_checks(program);
    let first = crate::value_categories::validate(program);
    if first.is_err() {
        proof {
            lemma_first_fault_at(checks, 0);
        }
        return first;
    }
    let second = crate::ownership_capabilities::validate(program);
    if second.is_err() {
        proof {
            lemma_first_fault_at(checks, 1);
        }
        return second;
    }
    let last = crate::storage_relations::validate(program);
    proof {
        if last is Err {
            lemma_first_fault_at(checks, 2);
        } else {
            lemma_no_fault(checks);
        }
    }
    last
}

fn check_references(program: &CheckedProgram) -> (r: AliasResult<()>)
    ensures
        fault_of(r) == reference_fault(program),
{
    proof {
        reveal(reference_fault);
    }
    let ghost checks = reference_checks(program);
    let first = crate::ownership_flow::validate(program);
    if first.is_err() {
        proof {
            lemma_first_fault_at(checks, 0);
        }
        return first;
    }
    let second = crate::binding_contract::validate(program);
    if second.is_err() {
        proof {
            lemma_first_fault_at(checks, 1);
        }
        return second;
    }
    let third = crate::typed_contract::validate(program);
    if third.is_err() {
        proof {
            lemma_first_fault_at(checks, 2);
        }
        return third;
    }
    let last = crate::validate::validate_resolved_hir(program);
    proof {
        if last is Err {
            lemma_first_fault_at(checks, 3);
        } else {
            lemma_no_fault(checks);
        }
    }
    last
}

fn check_operations(program: &CheckedProgram) -> (r: AliasResult<()>)
    ensures
        fault_of(r) == operation_fault(program),
{
    proof {
        reveal(operation_fault);
    }
    let ghost checks = operation_checks(program);
    let first = crate::pattern_bindings::validate(program);
    if first.is_err() {
        proof {
            lemma_first_fault_at(checks, 0);
        }
        return first;
    }
    let second = crate::borrow_contract::validate(program);
    if second.is_err() {
        proof {
            lemma_first_fault_at(checks, 1);
        }
        return second;
    }
    let third = crate::ownership_operations::validate(program);
    if third.is_err() {
        proof {
            lemma_first_fault_at(checks, 2);
        }
        return third;
    }
    let last = crate::runtime_checks::validate(program);
    proof {
        if last is Err {
            lemma_first_fault_at(checks, 3);
        } else {
            lemma_no_fault(checks);
        }
    }
    last
}

/// Checks what is resolved in a program: the categories, slots, variables, types and references.
pub fn validate_resolved(program: &CheckedProgram) -> (r: AliasResult<()>)
    ensures
        fault_of(r) == resolved_fault(program),
{
    let values = check_values(program);
    if values.is_err() {
        return values;
    }
    check_references(program)
}

fn check_calls<
    K: Fn(&Expr, &KindTable) -> FunctionKinds,
    E: Fn(&Expr, &KindTable) -> BodyEffects,
>(program: &CheckedProgram, infer_kinds: K, infer_effects: E) -> (r: AliasResult<()>)
    requires
        forall|function: Expr, table: KindTable| #[trigger]
            infer_kinds.requires((&function, &table)),
        forall|function: Expr, table: KindTable| #[trigger]
            infer_effects.requires((&function, &table)),
    ensures
        call_outcome(infer_kinds, infer_effects, *program, fault_of(r)),
{
    proof {
        reveal(call_outcome);
    }
    crate::effect_contract::validate(program, infer_kinds, infer_effects)
}

fn check_captures<K: Fn(&Expr, &KindTable) -> FunctionKinds>(
    program: &CheckedProgram,
    infer_kinds: K,
) -> (r: AliasResult<()>)
    requires
        forall|function: Expr, table: KindTable| #[trigger]
            infer_kinds.requires((&function, &table)),
    ensures
        capture_outcome(infer_kinds, *program, fault_of(r)),
{
    proof {
        reveal(capture_outcome);
    }
    validate_loan_kinds(program, infer_kinds)
}

/// Checks everything that is recorded in a program, and reports the first thing that is wrong.
///
/// `infer_kinds` finds the kinds of the loans of one function, and `infer_effects` what one
/// function does to its parameters.
pub fn validate_resolved_hir<
    K: Fn(&Expr, &KindTable) -> FunctionKinds + Copy,
    E: Fn(&Expr, &KindTable) -> BodyEffects,
>(program: &CheckedProgram, infer_kinds: K, infer_effects: E) -> (r: AliasResult<()>)
    requires
        forall|function: Expr, table: KindTable| #[trigger]
            infer_kinds.requires((&function, &table)),
        forall|function: Expr, table: KindTable| #[trigger]
            infer_effects.requires((&function, &table)),
    ensures
        gate_outcome(infer_kinds, infer_effects, *program, fault_of(r)),
{
    let resolved = validate_resolved(program);
    if resolved.is_err() {
        return resolved;
    }
    let operations = check_operations(program);
    if operations.is_err() {
        return operations;
    }
    let calls = check_calls(program, infer_kinds, infer_effects);
    if calls.is_err() {
        assert(call_outcome(infer_kinds, infer_effects, *program, fault_of(calls)));
        return calls;
    }
    let ghost none: Option<ErrorView> = None;
    assert(call_outcome(infer_kinds, infer_effects, *program, none));
    check_captures(program, infer_kinds)
}

/// A program that passes has passed every check.
pub proof fn law_accepted_programs_pass_every_check<
    K: Fn(&Expr, &KindTable) -> FunctionKinds,
    E: Fn(&Expr, &KindTable) -> BodyEffects,
>(infer_kinds: K, infer_effects: E, program: CheckedProgram, i: int)
    requires
        gate_outcome(infer_kinds, infer_effects, program, None),
    ensures
        0 <= i < value_checks(&program).len() ==> value_checks(&program)[i] is None,
        0 <= i < reference_checks(&program).len() ==> reference_checks(&program)[i] is None,
        0 <= i < operation_checks(&program).len() ==> operation_checks(&program)[i] is None,
        effects_checked(infer_kinds, infer_effects, program, None),
        kinds_checked(infer_kinds, program, None),
{
    reveal(value_fault);
    reveal(reference_fault);
    reveal(operation_fault);
    reveal(call_outcome);
    reveal(capture_outcome);
    lemma_no_fault(value_checks(&program));
    lemma_no_fault(reference_checks(&program));
    lemma_no_fault(operation_checks(&program));
}

} // verus!
