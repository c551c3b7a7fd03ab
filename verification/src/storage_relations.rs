//! What each variable slot holds, as its initializer settles it.

use crate::model::{
    Binding, CheckedProgram, Expr, ExprCategory, Item, Stmt, StorageRelation, ValueCategory,
};
use crate::types::{
    AliasError, AliasResult, ErrorView, Ty, broken_at, broken_invariant, fault_of, first_fault,
    lemma_first_fault_at, lemma_no_fault,
};
use crate::visit::{Node, Visit, Walk, program_nodes, program_walk};
use vstd::prelude::*;

verus! {

/// Whether a type is a plain scalar.
pub fn is_inline_type(ty: &Ty) -> (r: bool)
    ensures
        r == ty@.is_inline(),
{
    matches!(ty, Ty::Int(_) | Ty::UInt(_) | Ty::Float(_) | Ty::Bool)
}

/// The slot relation that an initializer settles. Reading a scalar place copies it; any other
/// place, and a general value, settle nothing.
pub open spec fn relation_of(value: Expr) -> Result<Option<StorageRelation>, ErrorView> {
    match value.spec_info().category {
        None => Err(
            broken_at(value.spec_span(), "storage relation 缺少 value category 前置事实"@),
        ),
        Some(ExprCategory::Value(ValueCategory::InlineValue)) => Ok(Some(StorageRelation::Owning)),
        Some(ExprCategory::Value(ValueCategory::OwnedTemporary)) => Ok(
            Some(StorageRelation::Owning),
        ),
        Some(ExprCategory::Value(ValueCategory::BorrowedValue)) => Ok(
            Some(StorageRelation::Borrowed),
        ),
        Some(ExprCategory::Value(ValueCategory::General)) => Ok(None),
        Some(ExprCategory::Place) => Ok(
            if value.tyv().is_inline() {
                Some(StorageRelation::Owning)
            } else {
                None
            },
        ),
    }
}

/// The slot relation that an initializer settles.
pub fn initial_relation(value: &Expr) -> (r: AliasResult<Option<StorageRelation>>)
    ensures
        match relation_of(*value) {
            Ok(relation) => r == Ok::<Option<StorageRelation>, AliasError>(relation),
            Err(error) => fault_of(r) == Some(error),
        },
{
    match value.category() {
        None => Err(
            broken_invariant(value.span(), "storage relation 缺少 value category 前置事实"),
        ),
        Some(ExprCategory::Value(category)) => Ok(
            match category {
                ValueCategory::InlineValue | ValueCategory::OwnedTemporary => Some(
                    StorageRelation::Owning,
                ),
                ValueCategory::BorrowedValue => Some(StorageRelation::Borrowed),
                ValueCategory::General => None,
            },
        ),
        Some(ExprCategory::Place) => if is_inline_type(value.ty()) {
            Ok(Some(StorageRelation::Owning))
        } else {
            Ok(None)
        },
    }
}

/// What is wrong with the relation recorded on a variable.
pub open spec fn relation_fault(binding: Binding) -> Option<ErrorView> {
    match relation_of(binding.value) {
        Err(error) => Some(error),
        Ok(expected) => if binding.relation == expected {
            None
        } else {
            Some(
                broken_at(
                    binding.span,
                    "Binding storage relation 与 initializer semantic category 不一致"@,
                ),
            )
        },
    }
}

/// Checks the relation recorded on one variable.
pub fn validate_binding(binding: &Binding) -> (r: AliasResult<()>)
    ensures
        fault_of(r) == relation_fault(*binding),
{
    let expected = match initial_relation(&binding.value) {
        Ok(relation) => relation,
        Err(error) => {
            return Err(error);
        },
    };
    let agrees = match (binding.relation, expected) {
        (None, None) => true,
        (Some(recorded), Some(wanted)) => recorded == wanted,
        _ => false,
    };
    if !agrees {
        return Err(
            broken_invariant(
                binding.span,
                "Binding storage relation 与 initializer semantic category 不一致",
            ),
        );
    }
    Ok(())
}

pub open spec fn item_fault(item: Item) -> Option<ErrorView> {
    match item {
        Item::Binding(binding) => relation_fault(*binding),
        Item::StructDef(_) => None,
    }
}

pub open spec fn visit_fault<'a>(visit: Visit<'a>) -> Option<ErrorView> {
    match visit.node {
        Node::Stmt(Stmt::Binding(binding)) => relation_fault(*binding),
        _ => None,
    }
}

pub open spec fn relation_walk() -> Walk {
    Walk { every_callee: false, into_functions: true, value_first: false, subject_last: false }
}

/// The top-level variables come first, then all others in the order of the walk.
pub open spec fn program_faults<'a>(program: &'a CheckedProgram) -> Seq<Option<ErrorView>> {
    program.items@.map_values(|item: Item| item_fault(item)) + program_walk(
        relation_walk(),
        program,
    ).map_values(|visit: Visit<'a>| visit_fault(visit))
}

/// Checks the recorded relation of every variable; reports the first that is wrong.
pub fn validate(program: &CheckedProgram) -> (r: AliasResult<()>)
    ensures
        fault_of(r) == first_fault(program_faults(program)),
{
    let ghost faults = program_faults(program);
    let mut i: usize = 0;
    while i < program.items.len()
        invariant
            i <= program.items.len(),
            faults == program_faults(program),
            forall|k: int| 0 <= k < i ==> (#[trigger] faults[k]) is None,
        decreases program.items.len() - i,
    {
        if let Item::Binding(binding) = &program.items[i] {
            match validate_binding(binding) {
                Ok(_) => {},
                Err(error) => {
                    proof {
                        lemma_first_fault_at(faults, i as int);
                    }
                    return Err(error);
                },
            }
        }
        assert(faults[i as int] is None);
        i += 1;
    }
    let top: usize = program.items.len();
    let nodes = program_nodes(
        Walk { every_callee: false, into_functions: true, value_first: false, subject_last: false },
        program,
    );
    let mut j: usize = 0;
    while j < nodes.len()
        invariant
            j <= nodes.len(),
            top == program.items@.len(),
            nodes@ == program_walk(relation_walk(), program),
            faults == program_faults(program),
            forall|k: int| 0 <= k < top + j ==> (#[trigger] faults[k]) is None,
        decreases nodes.len() - j,
    {
        assert(faults[top + j] == visit_fault(nodes@[j as int]));
        if let Node::Stmt(Stmt::Binding(binding)) = nodes[j].node {
            match validate_binding(binding) {
                Ok(_) => {},
                Err(error) => {
                    proof {
                        lemma_first_fault_at(faults, top + j);
                    }
                    return Err(error);
                },
            }
        }
        j += 1;
    }
    proof {
        lemma_no_fault(faults);
    }
    Ok(())
}

/// A variable with the relation that its initializer settles passes the check.
pub proof fn law_settled_relation_is_valid(binding: Binding)
    requires
        relation_of(binding.value) == Ok::<Option<StorageRelation>, ErrorView>(binding.relation),
    ensures
        relation_fault(binding) is None,
{
}

/// A slot is settled to own exactly when its initializer brings a scalar or an owner, and to
/// alias exactly when its initializer brings an alias.
pub proof fn law_relation_follows_category(value: Expr)
    requires
        value.spec_info().category is Some,
    ensures
        relation_of(value) == Ok::<Option<StorageRelation>, ErrorView>(
            Some(StorageRelation::Borrowed),
        ) <==> value.spec_value_category() == Some(ValueCategory::BorrowedValue),
        relation_of(value) == Ok::<Option<StorageRelation>, ErrorView>(
            Some(StorageRelation::Owning),
        ) <==> value.spec_value_category() == Some(ValueCategory::InlineValue)
            || value.spec_value_category() == Some(ValueCategory::OwnedTemporary) || (
        value.spec_info().category == Some(ExprCategory::Place) && value.tyv().is_inline()),
{
}

} // verus!
