//! What the bodies of all functions of a program do to their parameters.

use crate::capture::{capture_walk, functions_of};
use crate::capture_kinds::{FunctionKinds, infer_loan_kinds, loan_kinds};
use crate::function_facts::{collect_facts, program_facts};
use crate::model::{CheckedProgram, Expr};
use crate::ownership_flow::KindTable;
use crate::types::{AliasResult, ErrorView, ParamEffect, fault_of};
use crate::visit::program_walk;
use vstd::prelude::*;

verus! {

/// What the body of one function does to the parameters of the function.
pub type BodyEffects = AliasResult<Vec<ParamEffect>>;

/// What was worked out of the bodies of the functions, in the order of the functions.
pub type Inferred = AliasResult<Vec<BodyEffects>>;

/// What was worked out of the bodies under the kinds of the loans of all captures.
pub open spec fn each_body<E: Fn(&Expr, &KindTable) -> BodyEffects>(
    infer_effects: E,
    program: CheckedProgram,
    kinds: KindTable,
    r: Inferred,
) -> bool {
    match program_facts(&program) {
        Err(error) => fault_of(r) == Some(error),
        Ok(facts) => r matches Ok(list) && list@.len() == facts.functions.len() && forall|i: int|
            0 <= i < list@.len() ==> infer_effects.ensures(
                (facts.functions[i], &kinds),
                #[trigger] list@[i],
            ),
    }
}

/// What looking at the bodies of a program comes to: first the kinds of the loans of all captures
/// are found, then every function is looked at under these kinds.
#[verifier::opaque]
pub open spec fn bodies_found<
    K: Fn(&Expr, &KindTable) -> FunctionKinds,
    E: Fn(&Expr, &KindTable) -> BodyEffects,
>(infer_kinds: K, infer_effects: E, program: CheckedProgram, r: Inferred) -> bool {
    exists|kinds: Result<KindTable, ErrorView>| #[trigger]
        loan_kinds(
            infer_kinds,
            functions_of(program_walk(capture_walk(), &program)),
            kinds,
        ) && match kinds {
            Err(error) => fault_of(r) == Some(error),
            Ok(table) => each_body(infer_effects, program, table, r),
        }
}

/// Looks at the bodies of all functions of a program.
///
/// `infer_kinds` finds the kinds of the loans of one function, given those of the functions
/// inside it; `infer_effects` finds what one function does to its parameters, given the kinds of
/// all loans.
pub fn infer_bodies<
    K: Fn(&Expr, &KindTable) -> FunctionKinds,
    E: Fn(&Expr, &KindTable) -> BodyEffects,
>(program: &CheckedProgram, infer_kinds: K, infer_effects: E) -> (r: Inferred)
    requires
        forall|function: Expr, table: KindTable| #[trigger]
            infer_kinds.requires((&function, &table)),
        forall|function: Expr, table: KindTable| #[trigger]
            infer_effects.requires((&function, &table)),
    ensures
        bodies_found(infer_kinds, infer_effects, *program, r),
{
    proof {
        reveal(bodies_found);
    }
    let ghost functions = functions_of(program_walk(capture_walk(), program));
    let kinds = match infer_loan_kinds(program, infer_kinds) {
        Ok(kinds) => kinds,
        Err(error) => {
            assert(loan_kinds(infer_kinds, functions, Err(error@)));
            return Err(error);
        },
    };
    assert(loan_kinds(infer_kinds, functions, Ok(kinds)));
    let facts = match collect_facts(program) {
        Ok(facts) => facts,
        Err(error) => {
            return Err(error);
        },
    };
    let mut list: Vec<BodyEffects> = Vec::new();
    let mut i: usize = 0;
    while i < facts.functions.len()
        invariant
            i <= facts.functions.len(),
            list@.len() == i,
            forall|function: Expr, table: KindTable| #[trigger]
                infer_effects.requires((&function, &table)),
            forall|k: int|
                0 <= k < i ==> infer_effects.ensures(
                    (facts.functions@[k], &kinds),
                    #[trigger] list@[k],
                ),
        decreases facts.functions.len() - i,
    {
        let function = facts.functions[i];
        assert(infer_effects.requires((function, &kinds)));
        let found = infer_effects(function, &kinds);
        assert(infer_effects.ensures((function, &kinds), found));
        list.push(found);
        i += 1;
    }
    Ok(list)
}

} // verus!
