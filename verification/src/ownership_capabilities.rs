//! The ownership that each expression carries when its value is produced.

use crate::model::{
    CheckedProgram, Expr, ExprCategory, ExprInfo, OwnershipCapability, ValueCategory, with_info,
};
use crate::types::{
    AliasError, AliasResult, ErrorView, broken_at, broken_invariant, fault_of, first_fault,
    lemma_first_fault_at, lemma_no_fault,
};
use crate::value_categories::category_fault;
use crate::visit::{Node, Visit, Walk, program_nodes, program_walk};
use vstd::prelude::*;

verus! {

/// The capability that goes with a category. A place and a general value settle nothing.
pub open spec fn category_capability(category: ExprCategory) -> Option<OwnershipCapability> {
    match category {
        ExprCategory::Place => None,
        ExprCategory::Value(ValueCategory::InlineValue) => Some(OwnershipCapability::Absent),
        ExprCategory::Value(ValueCategory::BorrowedValue) => Some(OwnershipCapability::Absent),
        ExprCategory::Value(ValueCategory::OwnedTemporary) => Some(
            OwnershipCapability::Available,
        ),
        ExprCategory::Value(ValueCategory::General) => None,
    }
}

/// The capability that the recorded category of an expression calls for.
pub fn expected_capability(expr: &Expr) -> (r: AliasResult<Option<OwnershipCapability>>)
    ensures
        match expr.spec_info().category {
            Some(category) => r == Ok::<Option<OwnershipCapability>, AliasError>(
                category_capability(category),
            ),
            None => fault_of(r) == Some(
                broken_at(
                    expr.spec_span(),
                    "ownership capability 缺少 value category 前置事实"@,
                ),
            ),
        },
{
    match expr.category() {
        None => Err(
            broken_invariant(expr.span(), "ownership capability 缺少 value category 前置事实"),
        ),
        Some(category) => Ok(
            match category {
                ExprCategory::Place => None,
                ExprCategory::Value(ValueCategory::InlineValue)
                | ExprCategory::Value(ValueCategory::BorrowedValue) => Some(
                    OwnershipCapability::Absent,
                ),
                ExprCategory::Value(ValueCategory::OwnedTemporary) => Some(
                    OwnershipCapability::Available,
                ),
                ExprCategory::Value(ValueCategory::General) => None,
            },
        ),
    }
}

/// Records the capability that the category of an expression calls for.
pub fn finalize(expr: &mut Expr) -> (r: AliasResult<()>)
    ensures
        match old(expr).spec_info().category {
            Some(category) => r is Ok && *final(expr) == with_info(
                *old(expr),
                ExprInfo {
                    ownership_capability: category_capability(category),
                    ..old(expr).spec_info()
                },
            ),
            None => *final(expr) == *old(expr) && fault_of(r) == Some(
                broken_at(
                    old(expr).spec_span(),
                    "ownership capability 缺少 value category 前置事实"@,
                ),
            ),
        },
{
    let capability = match expected_capability(expr) {
        Ok(capability) => capability,
        Err(error) => {
            return Err(error);
        },
    };
    let info = expr.info_mut();
    info.ownership_capability = capability;
    Ok(())
}

/// What is wrong with the capability recorded on an expression.
pub open spec fn capability_fault(expr: Expr) -> Option<ErrorView> {
    match expr.spec_info().category {
        None => Some(
            broken_at(expr.spec_span(), "ownership capability 缺少 value category 前置事实"@),
        ),
        Some(category) => if expr.spec_info().ownership_capability == category_capability(
            category,
        ) {
            None
        } else {
            Some(
                broken_at(
                    expr.spec_span(),
                    "Expr ownership capability 与 resolved HIR value category 不一致"@,
                ),
            )
        },
    }
}

pub open spec fn visit_fault<'a>(visit: Visit<'a>) -> Option<ErrorView> {
    match visit.node {
        Node::Expr(expr, _) => capability_fault(*expr),
        _ => None,
    }
}

pub open spec fn capability_walk() -> Walk {
    Walk { every_callee: true, into_functions: true, value_first: false, subject_last: false }
}

pub open spec fn program_faults<'a>(program: &'a CheckedProgram) -> Seq<Option<ErrorView>> {
    program_walk(capability_walk(), program).map_values(|visit: Visit<'a>| visit_fault(visit))
}

fn check_capability(expr: &Expr) -> (r: AliasResult<()>)
    ensures
        fault_of(r) == capability_fault(*expr),
{
    let expected = match expected_capability(expr) {
        Ok(capability) => capability,
        Err(error) => {
            return Err(error);
        },
    };
    let agrees = match (expr.ownership_capability(), expected) {
        (None, None) => true,
        (Some(recorded), Some(wanted)) => recorded == wanted,
        _ => false,
    };
    if !agrees {
        return Err(
            broken_invariant(
                expr.span(),
                "Expr ownership capability 与 resolved HIR value category 不一致",
            ),
        );
    }
    Ok(())
}

/// Checks the recorded capability of every expression; reports the first that is wrong.
pub fn validate(program: &CheckedProgram) -> (r: AliasResult<()>)
    ensures
        fault_of(r) == first_fault(program_faults(program)),
{
    let nodes = program_nodes(
        Walk { every_callee: true, into_functions: true, value_first: false, subject_last: false },
        program,
    );
    let ghost faults = program_faults(program);
    let mut i: usize = 0;
    while i < nodes.len()
        invariant
            i <= nodes.len(),
            nodes@ == program_walk(capability_walk(), program),
            faults == program_faults(program),
            forall|k: int| 0 <= k < i ==> (#[trigger] faults[k]) is None,
        decreases nodes.len() - i,
    {
        if let Node::Expr(expr, _) = nodes[i].node {
            match check_capability(expr) {
                Ok(_) => {},
                Err(error) => {
                    proof {
                        lemma_first_fault_at(faults, i as int);
                    }
                    return Err(error);
                },
            }
        }
        assert(faults[i as int] is None);
        i += 1;
    }
    proof {
        lemma_no_fault(faults);
    }
    Ok(())
}

/// What `finalize` records is what `validate` asks for.
pub proof fn law_finalized_capability_is_valid(before: Expr, after: Expr)
    requires
        before.spec_info().category is Some,
        after == with_info(
            before,
            (ExprInfo {
                ownership_capability: category_capability(before.spec_info().category.unwrap()),
                ..before.spec_info()
            }),
        ),
    ensures
        capability_fault(after) is None,
{
}

/// Recording the capability leaves the recorded category as valid as it was: the two facts
/// can be settled one after the other.
pub proof fn law_capability_keeps_category(before: Expr, after: Expr)
    requires
        after == with_info(
            before,
            (ExprInfo {
                ownership_capability: after.spec_info().ownership_capability,
                ..before.spec_info()
            }),
        ),
    ensures
        (category_fault(after) is None) == (
        category_fault(before) is None),
{
    assert(after.tyv() == before.tyv());
}

} // verus!
