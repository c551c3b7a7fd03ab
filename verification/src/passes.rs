//! The passes over a program tree, in their order.
//!
//! A tree comes in with its references, its types and the categories of its values. The passes
//! write down one kind of fact after the other, and the finished tree goes through the final checks. A
//! tree that has not passed them is never handed out.

use crate::binding_contract::{collect_contracts, program_contracts};
use crate::body_effects::BodyEffects;
use crate::capture_kinds::{FunctionKinds, finalize_loan_kinds, kinds_settled};
use crate::gate::{gate_outcome, resolved_fault, validate_resolved, validate_resolved_hir};
use crate::marks::tracks;
use crate::model::{CheckedProgram, Expr};
use crate::ownership_flow::{KindTable, finalize_fault, kind_marks, kind_walk, program_kinds};
use crate::parameter_effects::finalized;
use crate::types::{AliasResult, ErrorView, fault_of, first_fault};
use crate::visit::program_walk;
use vstd::prelude::*;

verus! {

/// What a pass makes of a program.
pub type Passed = Result<CheckedProgram, ErrorView>;

/// What settling the effects of all functions makes of a program.
#[verifier::opaque]
pub open spec fn effects_step<
    K: Fn(&Expr, &KindTable) -> FunctionKinds,
    E: Fn(&Expr, &KindTable) -> BodyEffects,
>(
    infer_kinds: K,
    infer_effects: E,
    program: CheckedProgram,
    first: u32,
    r: Result<(CheckedProgram, u32), ErrorView>,
) -> bool {
    finalized(infer_kinds, infer_effects, program, first, r)
}

/// What settling the variables of patterns makes of a program.
#[verifier::opaque]
pub open spec fn patterns_step(program: CheckedProgram, r: Passed) -> bool {
    match first_fault(crate::pattern_bindings::program_settle_faults(&program)) {
        Some(error) => r == Err::<CheckedProgram, ErrorView>(error),
        None => r matches Ok(after) && after.main_id == program.main_id
            && crate::pattern_bindings::patterns_settled(&program, &after),
    }
}

/// What settling the kinds of the loans makes of a program.
#[verifier::opaque]
pub open spec fn loans_step(program: CheckedProgram, r: Passed) -> bool {
    match finalize_fault(&program) {
        Some(error) => r == Err::<CheckedProgram, ErrorView>(error),
        None => r matches Ok(after) && after.main_id == program.main_id && tracks(
            program_walk(kind_walk(), &program),
            program_walk(kind_walk(), &after),
            kind_marks(
                program_walk(kind_walk(), &program),
                program_kinds(&program, false)->Ok_0,
            ),
        ),
    }
}

/// What settling the kinds of the captures makes of a program.
#[verifier::opaque]
pub open spec fn captures_step<K: Fn(&Expr, &KindTable) -> FunctionKinds>(
    infer: K,
    program: CheckedProgram,
    r: Passed,
) -> bool {
    match r {
        Ok(after) => kinds_settled(infer, program, after, None),
        Err(error) => kinds_settled(infer, program, program, Some(error)),
    }
}

/// What settling the operations of variables, assignments and containers makes of a program.
#[verifier::opaque]
pub open spec fn operations_step(program: CheckedProgram, r: Passed) -> bool {
    match crate::ownership_operations::settle_fault(&program) {
        Some(error) => r == Err::<CheckedProgram, ErrorView>(error),
        None => r matches Ok(after) && after.main_id == program.main_id
            && crate::ownership_operations::operations_settled(&program, &after),
    }
}

/// What the final checks make of a program, which they leave as it is.
pub open spec fn gate_step<
    K: Fn(&Expr, &KindTable) -> FunctionKinds,
    E: Fn(&Expr, &KindTable) -> BodyEffects,
>(infer_kinds: K, infer_effects: E, program: CheckedProgram, r: Passed) -> bool {
    match r {
        Ok(after) => after == program && gate_outcome(infer_kinds, infer_effects, program, None),
        Err(error) => gate_outcome(infer_kinds, infer_effects, program, Some(error)),
    }
}

pub open spec fn from_operations<
    K: Fn(&Expr, &KindTable) -> FunctionKinds,
    E: Fn(&Expr, &KindTable) -> BodyEffects,
>(infer_kinds: K, infer_effects: E, program: CheckedProgram, r: Passed) -> bool {
    exists|mid: Passed| #[trigger]
        operations_step(program, mid) && match mid {
            Err(error) => r == Err::<CheckedProgram, ErrorView>(error),
            Ok(after) => gate_step(infer_kinds, infer_effects, after, r),
        }
}

pub open spec fn from_captures<
    K: Fn(&Expr, &KindTable) -> FunctionKinds,
    E: Fn(&Expr, &KindTable) -> BodyEffects,
>(infer_kinds: K, infer_effects: E, program: CheckedProgram, r: Passed) -> bool {
    exists|mid: Passed| #[trigger]
        captures_step(infer_kinds, program, mid) && match mid {
            Err(error) => r == Err::<CheckedProgram, ErrorView>(error),
            Ok(after) => from_operations(infer_kinds, infer_effects, after, r),
        }
}

pub open spec fn from_loans<
    K: Fn(&Expr, &KindTable) -> FunctionKinds,
    E: Fn(&Expr, &KindTable) -> BodyEffects,
>(infer_kinds: K, infer_effects: E, program: CheckedProgram, r: Passed) -> bool {
    exists|mid: Passed| #[trigger]
        loans_step(program, mid) && match mid {
            Err(error) => r == Err::<CheckedProgram, ErrorView>(error),
            Ok(after) => from_captures(infer_kinds, infer_effects, after, r),
        }
}

pub open spec fn from_patterns<
    K: Fn(&Expr, &KindTable) -> FunctionKinds,
    E: Fn(&Expr, &KindTable) -> BodyEffects,
>(infer_kinds: K, infer_effects: E, program: CheckedProgram, r: Passed) -> bool {
    exists|mid: Passed| #[trigger]
        patterns_step(program, mid) && match mid {
            Err(error) => r == Err::<CheckedProgram, ErrorView>(error),
            Ok(after) => from_loans(infer_kinds, infer_effects, after, r),
        }
}

/// The outcome of a pass together with the number of the next loan.
pub open spec fn numbered(r: Passed, next: u32) -> Result<(CheckedProgram, u32), ErrorView> {
    match r {
        Ok(program) => Ok((program, next)),
        Err(error) => Err(error),
    }
}

pub open spec fn from_effects<
    K: Fn(&Expr, &KindTable) -> FunctionKinds,
    E: Fn(&Expr, &KindTable) -> BodyEffects,
>(
    infer_kinds: K,
    infer_effects: E,
    program: CheckedProgram,
    next: u32,
    r: Result<(CheckedProgram, u32), ErrorView>,
) -> bool {
    exists|last: Passed| #[trigger]
        from_patterns(infer_kinds, infer_effects, program, last) && r == numbered(last, next)
}

/// Nothing that the passes write down makes a declaration, a type or a reference right. Where one
/// of them is wrong, the program is answered at once with what the final checks say of it.
pub open spec fn lost_fault(program: CheckedProgram) -> Option<ErrorView> {
    if program_contracts(&program) is Err || first_fault(
        crate::typed_contract::program_faults(&program),
    ) is Some || crate::validate::program_fault(&program) is Some {
        resolved_fault(&program)
    } else {
        None
    }
}

/// What all passes and the final checks make of a program, and the number of the next loan.
pub open spec fn settled<
    K: Fn(&Expr, &KindTable) -> FunctionKinds,
    E: Fn(&Expr, &KindTable) -> BodyEffects,
>(
    infer_kinds: K,
    infer_effects: E,
    program: CheckedProgram,
    first: u32,
    r: Result<(CheckedProgram, u32), ErrorView>,
) -> bool {
    match lost_fault(program) {
        Some(error) => r == Err::<(CheckedProgram, u32), ErrorView>(error),
        None => exists|mid: Result<(CheckedProgram, u32), ErrorView>| #[trigger]
            effects_step(infer_kinds, infer_effects, program, first, mid) && match mid {
                Err(error) => r == Err::<(CheckedProgram, u32), ErrorView>(error),
                Ok((after, next)) => from_effects(infer_kinds, infer_effects, after, next, r),
            },
    }
}

/// What a result says of a program that was changed in place.
pub open spec fn passed(r: AliasResult<()>, after: CheckedProgram) -> Passed {
    match r {
        Ok(()) => Ok(after),
        Err(error) => Err(error@),
    }
}

fn check_lost(program: &CheckedProgram) -> (r: AliasResult<()>)
    ensures
        fault_of(r) == lost_fault(*program),
{
    if collect_contracts(program).is_err() || crate::typed_contract::validate(program).is_err()
        || crate::validate::validate_resolved_hir(program).is_err() {
        return validate_resolved(program);
    }
    Ok(())
}

fn settle_effects<
    K: Fn(&Expr, &KindTable) -> FunctionKinds + Copy,
    E: Fn(&Expr, &KindTable) -> BodyEffects + Copy,
>(
    program: &mut CheckedProgram,
    next_loan_id: &mut u32,
    infer_kinds: K,
    infer_effects: E,
) -> (r: AliasResult<()>)
    requires
        forall|function: Expr, table: KindTable| #[trigger]
            infer_kinds.requires((&function, &table)),
        forall|function: Expr, table: KindTable| #[trigger]
            infer_effects.requires((&function, &table)),
    ensures
        effects_step(
            infer_kinds,
            infer_effects,
            *old(program),
            *old(next_loan_id),
            numbered(passed(r, *final(program)), *final(next_loan_id)),
        ),
{
    proof {
        reveal(effects_step);
    }
    crate::parameter_effects::finalize(program, next_loan_id, infer_kinds, infer_effects)
}

fn settle_patterns(program: &mut CheckedProgram) -> (r: AliasResult<()>)
    ensures
        patterns_step(*old(program), passed(r, *final(program))),
{
    proof {
        reveal(patterns_step);
    }
    crate::pattern_bindings::finalize(program)
}

fn settle_loans(program: &mut CheckedProgram) -> (r: AliasResult<()>)
    ensures
        loans_step(*old(program), passed(r, *final(program))),
{
    proof {
        reveal(loans_step);
    }
    crate::ownership_flow::finalize(program)
}

fn settle_captures<K: Fn(&Expr, &KindTable) -> FunctionKinds>(
    program: &mut CheckedProgram,
    infer: K,
) -> (r: AliasResult<()>)
    requires
        forall|function: Expr, table: KindTable| #[trigger] infer.requires((&function, &table)),
    ensures
        captures_step(infer, *old(program), passed(r, *final(program))),
{
    proof {
        reveal(captures_step);
    }
    finalize_loan_kinds(program, infer)
}

fn settle_operations(program: &mut CheckedProgram) -> (r: AliasResult<()>)
    ensures
        operations_step(*old(program), passed(r, *final(program))),
{
    proof {
        reveal(operations_step);
    }
    crate::ownership_operations::finalize(program)
}

fn settle_rest<
    K: Fn(&Expr, &KindTable) -> FunctionKinds + Copy,
    E: Fn(&Expr, &KindTable) -> BodyEffects,
>(program: &mut CheckedProgram, infer_kinds: K, infer_effects: E) -> (r: AliasResult<()>)
    requires
        forall|function: Expr, table: KindTable| #[trigger]
            infer_kinds.requires((&function, &table)),
        forall|function: Expr, table: KindTable| #[trigger]
            infer_effects.requires((&function, &table)),
    ensures
        from_patterns(infer_kinds, infer_effects, *old(program), passed(r, *final(program))),
        r is Ok ==> gate_outcome(infer_kinds, infer_effects, *final(program), None),
{
    let ghost p1 = *program;
    match settle_patterns(program) {
        Ok(()) => {},
        Err(error) => {
            assert(patterns_step(p1, Err(error@)));
            return Err(error);
        },
    }
    let ghost p2 = *program;
    match settle_loans(program) {
        Ok(()) => {},
        Err(error) => {
            proof {
                let end: Passed = Err(error@);
                assert(loans_step(p2, end));
                assert(from_loans(infer_kinds, infer_effects, p2, end));
                assert(patterns_step(p1, Ok(p2)));
            }
            return Err(error);
        },
    }
    let ghost p3 = *program;
    match settle_captures(program, infer_kinds) {
        Ok(()) => {},
        Err(error) => {
            proof {
                let end: Passed = Err(error@);
                assert(captures_step(infer_kinds, p3, end));
                assert(from_captures(infer_kinds, infer_effects, p3, end));
                assert(loans_step(p2, Ok(p3)));
                assert(from_loans(infer_kinds, infer_effects, p2, end));
                assert(patterns_step(p1, Ok(p2)));
            }
            return Err(error);
        },
    }
    let ghost p4 = *program;
    match settle_operations(program) {
        Ok(()) => {},
        Err(error) => {
            proof {
                let end: Passed = Err(error@);
                assert(operations_step(p4, end));
                assert(from_operations(infer_kinds, infer_effects, p4, end));
                assert(captures_step(infer_kinds, p3, Ok(p4)));
                assert(from_captures(infer_kinds, infer_effects, p3, end));
                assert(loans_step(p2, Ok(p3)));
                assert(from_loans(infer_kinds, infer_effects, p2, end));
                assert(patterns_step(p1, Ok(p2)));
            }
            return Err(error);
        },
    }
    let ghost p5 = *program;
    let last = validate_resolved_hir(program, infer_kinds, infer_effects);
    proof {
        let end = passed(last, p5);
        assert(gate_step(infer_kinds, infer_effects, p5, end));
        assert(operations_step(p4, Ok(p5)));
        assert(from_operations(infer_kinds, infer_effects, p4, end));
        assert(captures_step(infer_kinds, p3, Ok(p4)));
        assert(from_captures(infer_kinds, infer_effects, p3, end));
        assert(loans_step(p2, Ok(p3)));
        assert(from_loans(infer_kinds, infer_effects, p2, end));
        assert(patterns_step(p1, Ok(p2)));
        assert(from_patterns(infer_kinds, infer_effects, p1, end));
    }
    last
}

/// Settles everything that a program tree records, and lets the tree through the final checks.
///
/// `infer_kinds` finds the kinds of the loans of one function, and `infer_effects` what one
/// function does to its parameters.
pub fn settle<
    K: Fn(&Expr, &KindTable) -> FunctionKinds + Copy,
    E: Fn(&Expr, &KindTable) -> BodyEffects + Copy,
>(
    program: &mut CheckedProgram,
    next_loan_id: &mut u32,
    infer_kinds: K,
    infer_effects: E,
) -> (r: AliasResult<()>)
    requires
        forall|function: Expr, table: KindTable| #[trigger]
            infer_kinds.requires((&function, &table)),
        forall|function: Expr, table: KindTable| #[trigger]
            infer_effects.requires((&function, &table)),
    ensures
        settled(
            infer_kinds,
            infer_effects,
            *old(program),
            *old(next_loan_id),
            numbered(passed(r, *final(program)), *final(next_loan_id)),
        ),
        r is Ok ==> gate_outcome(infer_kinds, infer_effects, *final(program), None),
{
    let ghost p0 = *program;
    let ghost first = *next_loan_id;
    match check_lost(program) {
        Ok(()) => {},
        Err(error) => {
            return Err(error);
        },
    }
    match settle_effects(program, next_loan_id, infer_kinds, infer_effects) {
        Ok(()) => {},
        Err(error) => {
            assert(effects_step(infer_kinds, infer_effects, p0, first, Err(error@)));
            return Err(error);
        },
    }
    let ghost p1 = *program;
    let ghost next = *next_loan_id;
    let last = settle_rest(program, infer_kinds, infer_effects);
    proof {
        let end = numbered(passed(last, *program), next);
        let mid: Result<(CheckedProgram, u32), ErrorView> = Ok((p1, next));
        assert(from_patterns(infer_kinds, infer_effects, p1, passed(last, *program)));
        assert(from_effects(infer_kinds, infer_effects, p1, next, end));
        assert(effects_step(infer_kinds, infer_effects, p0, first, mid));
        assert(settled(infer_kinds, infer_effects, p0, first, end));
    }
    last
}

/// What the passes hand out has passed the final checks.
pub proof fn law_settled_programs_are_accepted<
    K: Fn(&Expr, &KindTable) -> FunctionKinds,
    E: Fn(&Expr, &KindTable) -> BodyEffects,
>(
    infer_kinds: K,
    infer_effects: E,
    program: CheckedProgram,
    first: u32,
    built: CheckedProgram,
    next: u32,
)
    requires
        settled(infer_kinds, infer_effects, program, first, Ok((built, next))),
    ensures
        gate_outcome(infer_kinds, infer_effects, built, None),
{
}

} // verus!
