//! How values reach the slots, places and containers they are written to.
//!
//! The category of an expression says what it produced; here stands what the destination does with
//! it: copy it, take it over, or bind an alias.

use crate::borrow_contract::{stored_fault, validate_stored_value};
use crate::destruction::{DestroyView, plan, plan_of};
use crate::expr_places::{from_expr, place_of};
use crate::ids::{RelationTable, relation_in};
use crate::marks::{Mark, apply_marks, tracks};
use crate::model::{
    AssignmentOperation, Binding, BindingOperation, CheckedProgram, DestroyNode, DestroyPlan, Expr,
    ExprCategory, Item, OwnershipCapability, OwningWrite, Place, Stmt, StorageRelation,
    ValueCategory,
};
use crate::structs::{StructTable, items_map, struct_fields};
use crate::types::{
    AliasError, AliasResult, BindingId, ErrorView, TyView, broken_at, broken_invariant, fault_of,
    first_fault, lemma_first_fault_at, lemma_no_fault,
};
use crate::value_categories::is_inline_value;
use crate::visit::{Node, Position, Visit, Walk, program_nodes, program_walk};
use vstd::prelude::*;

verus! {

/// The value is a place or a general value, whose ownership is not settled.
pub open spec fn is_open(value: Expr) -> bool {
    let category = value.spec_info().category;
    &&& category == Some(ExprCategory::Place) || category == Some(
        ExprCategory::Value(ValueCategory::General),
    )
    &&& value.spec_info().ownership_capability is None
}

/// The value is a scalar that is picked out of something that has no place of its own. No read of
/// a place stands for it, so it is copied where it is used.
pub open spec fn picks_scalar(value: Expr) -> bool {
    &&& value is Field || value is Index
    &&& value.tyv().is_inline()
    &&& place_of(value) is None
}

/// How an owning destination takes a value, as far as it is settled.
pub open spec fn write_of(value: Expr) -> Result<Option<OwningWrite>, ErrorView> {
    let category = value.spec_info().category;
    let capability = value.spec_info().ownership_capability;
    if category == Some(ExprCategory::Value(ValueCategory::InlineValue)) && capability == Some(
        OwnershipCapability::Absent,
    ) {
        Ok(Some(OwningWrite::InlineCopy))
    } else if category == Some(ExprCategory::Value(ValueCategory::OwnedTemporary)) && capability
        == Some(OwnershipCapability::Available) {
        Ok(Some(OwningWrite::OwnershipTransfer))
    } else if is_open(value) {
        Ok(
            if picks_scalar(value) {
                Some(OwningWrite::InlineCopy)
            } else {
                None
            },
        )
    } else {
        Err(
            broken_at(
                value.spec_span(),
                "owning write RHS 缺少 inline-copy 或 ownership-transfer 事实"@,
            ),
        )
    }
}

/// How a value is assigned, as far as it is settled. An alias is bound anew only by an alias.
pub open spec fn assignment_of(value: Expr, rebinds_alias: bool) -> Result<
    Option<AssignmentOperation>,
    ErrorView,
> {
    if rebinds_alias {
        if value.spec_info().category == Some(ExprCategory::Value(ValueCategory::BorrowedValue))
            && value.spec_info().ownership_capability == Some(OwnershipCapability::Absent) {
            Ok(Some(AssignmentOperation::RebindBorrowedAlias))
        } else if is_open(value) {
            Ok(None)
        } else {
            Err(
                broken_at(
                    value.spec_span(),
                    "borrowed alias rebind RHS 缺少 BorrowedValue 事实"@,
                ),
            )
        }
    } else {
        match write_of(value) {
            Err(error) => Err(error),
            Ok(None) => Ok(None),
            Ok(Some(write)) => Ok(Some(AssignmentOperation::Replace(write))),
        }
    }
}

/// How a value is assigned.
pub open spec fn settled_assignment(value: Expr, rebinds_alias: bool) -> Result<
    AssignmentOperation,
    ErrorView,
> {
    match assignment_of(value, rebinds_alias) {
        Err(error) => Err(error),
        Ok(Some(operation)) => Ok(operation),
        Ok(None) => Err(
            broken_at(
                value.spec_span(),
                "Assignment operation 仍依赖 unresolved Place/General"@,
            ),
        ),
    }
}

/// The operation of a binding whose first value is assigned in the given way.
pub open spec fn as_binding(operation: AssignmentOperation) -> BindingOperation {
    match operation {
        AssignmentOperation::Replace(write) => BindingOperation::Initialize(write),
        AssignmentOperation::RebindBorrowedAlias => BindingOperation::BindBorrowedAlias,
    }
}

pub open spec fn provisional_of(binding: Binding) -> Result<Option<BindingOperation>, ErrorView> {
    match assignment_of(binding.value, binding.relation == Some(StorageRelation::Borrowed)) {
        Err(error) => Err(error),
        Ok(None) => Ok(None),
        Ok(Some(operation)) => Ok(Some(as_binding(operation))),
    }
}

/// How a variable gets its first value; the slot must hold what that leaves in it.
pub open spec fn settled_binding(binding: Binding) -> Result<BindingOperation, ErrorView> {
    match provisional_of(binding) {
        Err(error) => Err(error),
        Ok(None) => Err(
            broken_at(binding.span, "Binding operation 仍依赖 unresolved Place/General"@),
        ),
        Ok(Some(operation)) => if binding.relation == Some(operation.spec_storage_relation()) {
            Ok(operation)
        } else {
            Err(broken_at(binding.span, "Binding operation 与 storage relation 漂移"@))
        },
    }
}

pub open spec fn rebinds(relations: Map<BindingId, StorageRelation>, target: Place) -> bool {
    target matches Place::Local { binding_id, .. } && relation_in(relations, binding_id) == Some(
        StorageRelation::Borrowed,
    )
}

/// How a value is assigned to a place; an alias cannot become a part of something else.
pub open spec fn target_assignment(
    relations: Map<BindingId, StorageRelation>,
    target: Place,
    value: Expr,
) -> Result<AssignmentOperation, ErrorView> {
    if !(target is Local) && stored_fault(value) is Some {
        Err(stored_fault(value)->0)
    } else {
        settled_assignment(value, rebinds(relations, target))
    }
}

/// How a value enters a container.
pub open spec fn container_of(value: Expr) -> Result<OwningWrite, ErrorView> {
    if stored_fault(value) is Some {
        Err(stored_fault(value)->0)
    } else {
        match write_of(value) {
            Err(error) => Err(error),
            Ok(Some(write)) => Ok(write),
            Ok(None) => Err(
                broken_at(
                    value.spec_span(),
                    "container write 仍依赖 unresolved Place/General"@,
                ),
            ),
        }
    }
}

/// What an assignment tears down: binding an alias anew tears down nothing.
pub open spec fn assignment_plan(
    target: Place,
    operation: AssignmentOperation,
    table: Map<Seq<char>, Seq<TyView>>,
) -> Result<Seq<DestroyView>, ErrorView> {
    if operation == AssignmentOperation::RebindBorrowedAlias {
        Ok(seq![DestroyView::Inline])
    } else {
        plan_of(target.spec_info().ty@, target.spec_span(), table)
    }
}

/// What the end of a variable tears down: an alias tears down nothing.
pub open spec fn binding_plan(
    binding: Binding,
    operation: BindingOperation,
    table: Map<Seq<char>, Seq<TyView>>,
) -> Result<Seq<DestroyView>, ErrorView> {
    if operation == BindingOperation::BindBorrowedAlias {
        Ok(seq![DestroyView::Inline])
    } else {
        plan_of(binding.ty@, binding.span, table)
    }
}

fn is_unsettled(value: &Expr) -> (r: bool)
    ensures
        r == is_open(*value),
{
    value.ownership_capability().is_none() && matches!(
        value.category(),
        Some(ExprCategory::Place) | Some(ExprCategory::Value(ValueCategory::General))
    )
}

fn is_picked_scalar(value: &Expr) -> (r: bool)
    ensures
        r == picks_scalar(*value),
{
    matches!(value, Expr::Field { .. } | Expr::Index { .. }) && is_inline_value(value.ty())
        && from_expr(value).is_none()
}

/// Settles how an owning destination takes a value, as far as it can be settled.
pub fn provisional_owning_write(value: &Expr) -> (r: AliasResult<Option<OwningWrite>>)
    ensures
        match write_of(*value) {
            Ok(write) => r == Ok::<Option<OwningWrite>, AliasError>(write),
            Err(error) => fault_of(r) == Some(error),
        },
{
    match (value.category(), value.ownership_capability()) {
        (
            Some(ExprCategory::Value(ValueCategory::InlineValue)),
            Some(OwnershipCapability::Absent),
        ) => Ok(Some(OwningWrite::InlineCopy)),
        (
            Some(ExprCategory::Value(ValueCategory::OwnedTemporary)),
            Some(OwnershipCapability::Available),
        ) => Ok(Some(OwningWrite::OwnershipTransfer)),
        (Some(ExprCategory::Place), None)
        | (Some(ExprCategory::Value(ValueCategory::General)), None) => Ok(
            if is_picked_scalar(value) {
                Some(OwningWrite::InlineCopy)
            } else {
                None
            },
        ),
        _ => Err(
            broken_invariant(
                value.span(),
                "owning write RHS 缺少 inline-copy 或 ownership-transfer 事实",
            ),
        ),
    }
}

/// Settles how a value is assigned, as far as it can be settled.
pub fn provisional_assignment_operation_for(value: &Expr, rebinds_alias: bool) -> (r: AliasResult<
    Option<AssignmentOperation>,
>)
    ensures
        match assignment_of(*value, rebinds_alias) {
            Ok(operation) => r == Ok::<Option<AssignmentOperation>, AliasError>(operation),
            Err(error) => fault_of(r) == Some(error),
        },
{
    if rebinds_alias {
        match (value.category(), value.ownership_capability()) {
            (
                Some(ExprCategory::Value(ValueCategory::BorrowedValue)),
                Some(OwnershipCapability::Absent),
            ) => Ok(Some(AssignmentOperation::RebindBorrowedAlias)),
            _ => if is_unsettled(value) {
                Ok(None)
            } else {
                Err(
                    broken_invariant(
                        value.span(),
                        "borrowed alias rebind RHS 缺少 BorrowedValue 事实",
                    ),
                )
            },
        }
    } else {
        match provisional_owning_write(value) {
            Err(error) => Err(error),
            Ok(None) => Ok(None),
            Ok(Some(write)) => Ok(Some(AssignmentOperation::Replace(write))),
        }
    }
}

/// Settles how a value is assigned.
pub fn assignment_operation_for(value: &Expr, rebinds_alias: bool) -> (r: AliasResult<
    AssignmentOperation,
>)
    ensures
        match settled_assignment(*value, rebinds_alias) {
            Ok(operation) => r == Ok::<AssignmentOperation, AliasError>(operation),
            Err(error) => fault_of(r) == Some(error),
        },
{
    match provisional_assignment_operation_for(value, rebinds_alias) {
        Err(error) => Err(error),
        Ok(Some(operation)) => Ok(operation),
        Ok(None) => Err(
            broken_invariant(
                value.span(),
                "Assignment operation 仍依赖 unresolved Place/General",
            ),
        ),
    }
}

/// Settles how a variable gets its first value, as far as it can be settled.
pub fn provisional_binding_operation(binding: &Binding) -> (r: AliasResult<
    Option<BindingOperation>,
>)
    ensures
        match provisional_of(*binding) {
            Ok(operation) => r == Ok::<Option<BindingOperation>, AliasError>(operation),
            Err(error) => fault_of(r) == Some(error),
        },
{
    let alias = match binding.relation {
        Some(relation) => relation == StorageRelation::Borrowed,
        None => false,
    };
    match provisional_assignment_operation_for(&binding.value, alias) {
        Err(error) => Err(error),
        Ok(None) => Ok(None),
        Ok(Some(AssignmentOperation::Replace(write))) => Ok(
            Some(BindingOperation::Initialize(write)),
        ),
        Ok(Some(AssignmentOperation::RebindBorrowedAlias)) => Ok(
            Some(BindingOperation::BindBorrowedAlias),
        ),
    }
}

/// Settles how a variable gets its first value.
pub fn binding_operation(binding: &Binding) -> (r: AliasResult<BindingOperation>)
    ensures
        match settled_binding(*binding) {
            Ok(operation) => r == Ok::<BindingOperation, AliasError>(operation),
            Err(error) => fault_of(r) == Some(error),
        },
{
    match provisional_binding_operation(binding) {
        Err(error) => Err(error),
        Ok(None) => Err(
            broken_invariant(
                binding.span,
                "Binding operation 仍依赖 unresolved Place/General",
            ),
        ),
        Ok(Some(operation)) => {
            let agrees = match binding.relation {
                Some(relation) => relation == operation.storage_relation(),
                None => false,
            };
            if agrees {
                Ok(operation)
            } else {
                Err(broken_invariant(binding.span, "Binding operation 与 storage relation 漂移"))
            }
        },
    }
}

/// Settles how a value is assigned to a place.
pub fn assignment_operation(target: &Place, value: &Expr, relations: &RelationTable) -> (r:
    AliasResult<AssignmentOperation>)
    ensures
        match target_assignment(relations@, *target, *value) {
            Ok(operation) => r == Ok::<AssignmentOperation, AliasError>(operation),
            Err(error) => fault_of(r) == Some(error),
        },
{
    let alias = match target {
        Place::Local { binding_id, .. } => relations.is_borrowed(*binding_id),
        _ => {
            match validate_stored_value(value) {
                Ok(_) => {},
                Err(error) => {
                    return Err(error);
                },
            }
            false
        },
    };
    assignment_operation_for(value, alias)
}

/// Settles how a value enters a container.
pub fn container_write(value: &Expr) -> (r: AliasResult<OwningWrite>)
    ensures
        match container_of(*value) {
            Ok(write) => r == Ok::<OwningWrite, AliasError>(write),
            Err(error) => fault_of(r) == Some(error),
        },
{
    match validate_stored_value(value) {
        Ok(_) => {},
        Err(error) => {
            return Err(error);
        },
    }
    match provisional_owning_write(value) {
        Err(error) => Err(error),
        Ok(Some(write)) => Ok(write),
        Ok(None) => Err(
            broken_invariant(value.span(), "container write 仍依赖 unresolved Place/General"),
        ),
    }
}

fn empty_plan() -> (r: DestroyPlan)
    ensures
        r@ == seq![DestroyView::Inline],
{
    let mut nodes: Vec<DestroyNode> = Vec::new();
    nodes.push(DestroyNode::Inline);
    let r = DestroyPlan { nodes };
    assert(r@ =~= seq![DestroyView::Inline]);
    r
}

/// Plans what an assignment tears down.
pub fn assignment_destroy_plan(
    target: &Place,
    operation: AssignmentOperation,
    structs: &StructTable,
) -> (r: AliasResult<DestroyPlan>)
    ensures
        match assignment_plan(*target, operation, structs@) {
            Ok(nodes) => r matches Ok(found) && found@ == nodes,
            Err(error) => fault_of(r) == Some(error),
        },
{
    if operation == AssignmentOperation::RebindBorrowedAlias {
        Ok(empty_plan())
    } else {
        plan(target.ty(), target.span(), structs)
    }
}

/// Plans what the end of a variable tears down.
pub fn binding_destroy_plan(
    binding: &Binding,
    operation: BindingOperation,
    structs: &StructTable,
) -> (r: AliasResult<DestroyPlan>)
    ensures
        match binding_plan(*binding, operation, structs@) {
            Ok(nodes) => r matches Ok(found) && found@ == nodes,
            Err(error) => fault_of(r) == Some(error),
        },
{
    if operation == BindingOperation::BindBorrowedAlias {
        Ok(empty_plan())
    } else {
        plan(&binding.ty, binding.span, structs)
    }
}

/// The binding that stands at a node, if one does.
pub open spec fn binding_at<'a>(visit: Visit<'a>) -> Option<&'a Binding> {
    match visit.node {
        Node::Item(item) => match *item {
            Item::Binding(binding) => Some(&*binding),
            Item::StructDef(_) => None,
        },
        Node::Stmt(stmt) => match *stmt {
            Stmt::Binding(binding) => Some(&binding),
            _ => None,
        },
        _ => None,
    }
}

/// What the bindings among some nodes record of their slots; no variable may come up twice.
pub open spec fn slot_relations<'a>(nodes: Seq<Visit<'a>>) -> Result<
    Map<BindingId, StorageRelation>,
    ErrorView,
>
    decreases nodes.len(),
{
    if nodes.len() == 0 {
        Ok(Map::empty())
    } else {
        match slot_relations(nodes.drop_last()) {
            Err(error) => Err(error),
            Ok(relations) => match binding_at(nodes.last()) {
                None => Ok(relations),
                Some(binding) => match binding.relation {
                    None => Ok(relations),
                    Some(relation) => if relations.contains_key(binding.binding_id) {
                        Err(
                            broken_at(binding.span, "重复 BindingId 进入 assignment operation"@),
                        )
                    } else {
                        Ok(relations.insert(binding.binding_id, relation))
                    },
                },
            },
        }
    }
}

pub open spec fn operation_walk() -> Walk {
    Walk { every_callee: true, into_functions: true, value_first: false, subject_last: false }
}

proof fn lemma_relations_stop<'a>(nodes: Seq<Visit<'a>>, upto: int)
    requires
        0 <= upto <= nodes.len(),
        slot_relations(nodes.take(upto)) is Err,
    ensures
        slot_relations(nodes) == slot_relations(nodes.take(upto)),
    decreases nodes.len(),
{
    if upto == nodes.len() {
        assert(nodes.take(upto) =~= nodes);
    } else {
        assert(nodes.drop_last().take(upto) =~= nodes.take(upto));
        lemma_relations_stop(nodes.drop_last(), upto);
    }
}

fn find_binding<'a>(visit: Visit<'a>) -> (r: Option<&'a Binding>)
    ensures
        r == binding_at(visit),
{
    match visit.node {
        Node::Item(Item::Binding(binding)) => Some(binding),
        Node::Stmt(Stmt::Binding(binding)) => Some(binding),
        _ => None,
    }
}

/// What the bindings of a program record of their slots.
pub fn collect_binding_relations(program: &CheckedProgram) -> (r: AliasResult<RelationTable>)
    ensures
        match slot_relations(program_walk(operation_walk(), program)) {
            Ok(relations) => r matches Ok(table) && table@ == relations,
            Err(error) => fault_of(r) == Some(error),
        },
{
    let nodes = program_nodes(
        Walk { every_callee: true, into_functions: true, value_first: false, subject_last: false },
        program,
    );
    let mut relations = RelationTable::new();
    let mut i: usize = 0;
    assert(nodes@.take(0) =~= Seq::empty());
    while i < nodes.len()
        invariant
            i <= nodes.len(),
            nodes@ == program_walk(operation_walk(), program),
            slot_relations(nodes@.take(i as int)) == Ok::<
                Map<BindingId, StorageRelation>,
                ErrorView,
            >(relations@),
        decreases nodes.len() - i,
    {
        proof {
            assert(nodes@.take(i + 1).drop_last() =~= nodes@.take(i as int));
            assert(nodes@.take(i + 1).last() == nodes@[i as int]);
        }
        if let Some(binding) = find_binding(nodes[i]) {
            if let Some(relation) = binding.relation {
                if !relations.insert(binding.binding_id, relation) {
                    proof {
                        lemma_relations_stop(nodes@, i + 1);
                    }
                    return Err(
                        broken_invariant(binding.span, "重复 BindingId 进入 assignment operation"),
                    );
                }
            }
        }
        i += 1;
    }
    assert(nodes@.take(i as int) =~= nodes@);
    Ok(relations)
}

pub open spec fn destroy_view(plan: Option<DestroyPlan>) -> Option<Seq<DestroyView>> {
    match plan {
        Some(plan) => Some(plan@),
        None => None,
    }
}

/// What is wrong with the operation and the plan recorded on a binding.
pub open spec fn binding_fault(
    binding: Binding,
    table: Map<Seq<char>, Seq<TyView>>,
) -> Option<ErrorView> {
    match settled_binding(binding) {
        Err(error) => Some(error),
        Ok(operation) => if binding.operation != Some(operation) {
            Some(
                broken_at(binding.span, "Binding operation 与 resolved value operation 漂移"@),
            )
        } else {
            match binding_plan(binding, operation, table) {
                Err(error) => Some(error),
                Ok(nodes) => if destroy_view(binding.destroy_plan) != Some(nodes) {
                    Some(broken_at(binding.span, "Binding destruction plan 缺失或漂移"@))
                } else {
                    None
                },
            }
        },
    }
}

/// What is wrong with the operation and the plan recorded on an assignment.
pub open spec fn assign_fault(
    relations: Map<BindingId, StorageRelation>,
    target: Place,
    value: Expr,
    operation: Option<AssignmentOperation>,
    destroy_plan: Option<DestroyPlan>,
    table: Map<Seq<char>, Seq<TyView>>,
) -> Option<ErrorView> {
    match target_assignment(relations, target, value) {
        Err(error) => Some(error),
        Ok(expected) => match assignment_plan(target, expected, table) {
            Err(error) => Some(error),
            Ok(nodes) => if destroy_view(destroy_plan) != Some(nodes) {
                Some(broken_at(target.spec_span(), "Assignment destruction plan 缺失或漂移"@))
            } else if operation != Some(expected) {
                Some(
                    broken_at(
                        target.spec_span(),
                        "Assignment operation 与 resolved value operation 漂移"@,
                    ),
                )
            } else {
                None
            },
        },
    }
}

/// What is wrong with the operation recorded on an expression.
pub open spec fn write_fault<'a>(expr: &'a Expr, position: Position<'a>) -> Option<ErrorView> {
    let recorded = expr.spec_info().container_write;
    if position is Stored {
        match container_of(*expr) {
            Err(error) => Some(error),
            Ok(write) => if recorded == Some(write) {
                None
            } else {
                Some(
                    broken_at(
                        expr.spec_span(),
                        "container write 与 resolved value operation 漂移"@,
                    ),
                )
            },
        }
    } else if recorded is Some {
        Some(broken_at(expr.spec_span(), "非 container destination 携带 write operation"@))
    } else {
        None
    }
}

pub open spec fn visit_fault<'a>(
    relations: Map<BindingId, StorageRelation>,
    table: Map<Seq<char>, Seq<TyView>>,
    visit: Visit<'a>,
) -> Option<ErrorView> {
    match binding_at(visit) {
        Some(binding) => binding_fault(*binding, table),
        None => match visit.node {
            Node::Stmt(stmt) => match *stmt {
                Stmt::Assign { target, value, operation, destroy_plan } => assign_fault(
                    relations,
                    target,
                    value,
                    operation,
                    destroy_plan,
                    table,
                ),
                _ => None,
            },
            Node::Expr(expr, position) => write_fault(expr, position),
            _ => None,
        },
    }
}

/// What is wrong with the operations recorded in a program.
pub open spec fn program_fault(program: &CheckedProgram) -> Option<ErrorView> {
    let nodes = program_walk(operation_walk(), program);
    match slot_relations(nodes) {
        Err(error) => Some(error),
        Ok(relations) => first_fault(
            Seq::new(
                nodes.len(),
                |i: int| visit_fault(relations, items_map(program.items@), nodes[i]),
            ),
        ),
    }
}

fn same_plan(recorded: &Option<DestroyPlan>, expected: &DestroyPlan) -> (r: bool)
    ensures
        r == (destroy_view(*recorded) == Some(expected@)),
{
    match recorded {
        Some(plan) => plan.same(expected),
        None => false,
    }
}

/// Checks the operation and the plan recorded on a binding.
pub fn validate_binding(binding: &Binding, structs: &StructTable) -> (r: AliasResult<()>)
    ensures
        fault_of(r) == binding_fault(*binding, structs@),
{
    let operation = match binding_operation(binding) {
        Ok(operation) => operation,
        Err(error) => {
            return Err(error);
        },
    };
    let agrees = match binding.operation {
        Some(recorded) => recorded == operation,
        None => false,
    };
    if !agrees {
        return Err(
            broken_invariant(
                binding.span,
                "Binding operation 与 resolved value operation 漂移",
            ),
        );
    }
    let expected = match binding_destroy_plan(binding, operation, structs) {
        Ok(expected) => expected,
        Err(error) => {
            return Err(error);
        },
    };
    if !same_plan(&binding.destroy_plan, &expected) {
        return Err(broken_invariant(binding.span, "Binding destruction plan 缺失或漂移"));
    }
    Ok(())
}

fn validate_assign(
    target: &Place,
    value: &Expr,
    operation: &Option<AssignmentOperation>,
    destroy_plan: &Option<DestroyPlan>,
    relations: &RelationTable,
    structs: &StructTable,
) -> (r: AliasResult<()>)
    ensures
        fault_of(r) == assign_fault(
            relations@,
            *target,
            *value,
            *operation,
            *destroy_plan,
            structs@,
        ),
{
    let expected = match assignment_operation(target, value, relations) {
        Ok(expected) => expected,
        Err(error) => {
            return Err(error);
        },
    };
    let nodes = match assignment_destroy_plan(target, expected, structs) {
        Ok(nodes) => nodes,
        Err(error) => {
            return Err(error);
        },
    };
    if !same_plan(destroy_plan, &nodes) {
        return Err(broken_invariant(target.span(), "Assignment destruction plan 缺失或漂移"));
    }
    let agrees = match operation {
        Some(recorded) => *recorded == expected,
        None => false,
    };
    if !agrees {
        return Err(
            broken_invariant(
                target.span(),
                "Assignment operation 与 resolved value operation 漂移",
            ),
        );
    }
    Ok(())
}

fn validate_write<'a>(expr: &'a Expr, position: Position<'a>) -> (r: AliasResult<()>)
    ensures
        fault_of(r) == write_fault(expr, position),
{
    if let Position::Stored = position {
        let expected = match container_write(expr) {
            Ok(expected) => expected,
            Err(error) => {
                return Err(error);
            },
        };
        let agrees = match expr.info().container_write {
            Some(recorded) => recorded == expected,
            None => false,
        };
        if !agrees {
            return Err(
                broken_invariant(
                    expr.span(),
                    "container write 与 resolved value operation 漂移",
                ),
            );
        }
    } else if expr.info().container_write.is_some() {
        return Err(
            broken_invariant(expr.span(), "非 container destination 携带 write operation"),
        );
    }
    Ok(())
}

fn validate_visit<'a>(visit: Visit<'a>, relations: &RelationTable, structs: &StructTable) -> (r:
    AliasResult<()>)
    ensures
        fault_of(r) == visit_fault(relations@, structs@, visit),
{
    if let Some(binding) = find_binding(visit) {
        return validate_binding(binding, structs);
    }
    match visit.node {
        Node::Stmt(Stmt::Assign { target, value, operation, destroy_plan }) => validate_assign(
            target,
            value,
            operation,
            destroy_plan,
            relations,
            structs,
        ),
        Node::Expr(expr, position) => validate_write(expr, position),
        _ => Ok(()),
    }
}

/// Checks the operations recorded in a program; reports the first that is wrong.
pub fn validate(program: &CheckedProgram) -> (r: AliasResult<()>)
    ensures
        fault_of(r) == program_fault(program),
{
    let relations = match collect_binding_relations(program) {
        Ok(relations) => relations,
        Err(error) => {
            return Err(error);
        },
    };
    let structs = struct_fields(program);
    let nodes = program_nodes(
        Walk { every_callee: true, into_functions: true, value_first: false, subject_last: false },
        program,
    );
    let ghost faults = Seq::new(
        nodes@.len(),
        |i: int| visit_fault(relations@, structs@, nodes@[i]),
    );
    let mut i: usize = 0;
    while i < nodes.len()
        invariant
            i <= nodes.len(),
            nodes@ == program_walk(operation_walk(), program),
            structs@ == items_map(program.items@),
            slot_relations(nodes@) == Ok::<Map<BindingId, StorageRelation>, ErrorView>(relations@),
            faults == Seq::new(
                nodes@.len(),
                |i: int| visit_fault(relations@, structs@, nodes@[i]),
            ),
            forall|k: int| 0 <= k < i ==> (#[trigger] faults[k]) is None,
        decreases nodes.len() - i,
    {
        assert(faults[i as int] == visit_fault(relations@, structs@, nodes@[i as int]));
        match validate_visit(nodes[i], &relations, &structs) {
            Ok(_) => {},
            Err(error) => {
                proof {
                    lemma_first_fault_at(faults, i as int);
                }
                return Err(error);
            },
        }
        i += 1;
    }
    proof {
        lemma_no_fault(faults);
    }
    Ok(())
}

/// What stands against settling a binding.
pub open spec fn binding_settle_fault(
    binding: Binding,
    table: Map<Seq<char>, Seq<TyView>>,
) -> Option<ErrorView> {
    if binding.operation is Some || binding.destroy_plan is Some {
        Some(broken_at(binding.span, "Binding operation/destruction 被重复 finalization"@))
    } else {
        match settled_binding(binding) {
            Err(error) => Some(error),
            Ok(operation) => match binding_plan(binding, operation, table) {
                Err(error) => Some(error),
                Ok(_) => None,
            },
        }
    }
}

/// What stands against settling an assignment.
pub open spec fn assign_settle_fault(
    relations: Map<BindingId, StorageRelation>,
    target: Place,
    value: Expr,
    operation: Option<AssignmentOperation>,
    table: Map<Seq<char>, Seq<TyView>>,
) -> Option<ErrorView> {
    if operation is Some {
        Some(broken_at(target.spec_span(), "Assignment operation 被重复 finalization"@))
    } else {
        match target_assignment(relations, target, value) {
            Err(error) => Some(error),
            Ok(expected) => match assignment_plan(target, expected, table) {
                Err(error) => Some(error),
                Ok(_) => None,
            },
        }
    }
}

/// What stands against settling an expression.
pub open spec fn write_settle_fault<'a>(expr: &'a Expr, position: Position<'a>) -> Option<
    ErrorView,
> {
    let recorded = expr.spec_info().container_write;
    if position is Stored {
        if recorded is Some {
            Some(broken_at(expr.spec_span(), "container write 被重复 finalization"@))
        } else {
            match container_of(*expr) {
                Err(error) => Some(error),
                Ok(_) => None,
            }
        }
    } else if recorded is Some {
        Some(broken_at(expr.spec_span(), "非 container destination 携带 write operation"@))
    } else {
        None
    }
}

pub open spec fn visit_settle_fault<'a>(
    relations: Map<BindingId, StorageRelation>,
    table: Map<Seq<char>, Seq<TyView>>,
    visit: Visit<'a>,
) -> Option<ErrorView> {
    match binding_at(visit) {
        Some(binding) => binding_settle_fault(*binding, table),
        None => match visit.node {
            Node::Stmt(stmt) => match *stmt {
                Stmt::Assign { target, value, operation, .. } => assign_settle_fault(
                    relations,
                    target,
                    value,
                    operation,
                    table,
                ),
                _ => None,
            },
            Node::Expr(expr, position) => write_settle_fault(expr, position),
            _ => None,
        },
    }
}

/// What stands against settling the operations of a program.
pub open spec fn settle_fault(program: &CheckedProgram) -> Option<ErrorView> {
    let nodes = program_walk(operation_walk(), program);
    match slot_relations(nodes) {
        Err(error) => Some(error),
        Ok(relations) => first_fault(
            Seq::new(
                nodes.len(),
                |i: int| visit_settle_fault(relations, items_map(program.items@), nodes[i]),
            ),
        ),
    }
}

/// The mark writes exactly what is settled for the node.
pub open spec fn settles<'a>(
    relations: Map<BindingId, StorageRelation>,
    table: Map<Seq<char>, Seq<TyView>>,
    visit: Visit<'a>,
    mark: Mark,
) -> bool {
    match binding_at(visit) {
        Some(binding) => {
            &&& mark matches Mark::Slot { operation, destroy_plan }
            &&& settled_binding(*binding) == Ok::<BindingOperation, ErrorView>(operation)
            &&& binding_plan(*binding, operation, table) == Ok::<Seq<DestroyView>, ErrorView>(
                destroy_plan@,
            )
        },
        None => match visit.node {
            Node::Stmt(stmt) => match *stmt {
                Stmt::Assign { target, value, .. } => {
                    &&& mark matches Mark::Write { operation, destroy_plan }
                    &&& target_assignment(relations, target, value) == Ok::<
                        AssignmentOperation,
                        ErrorView,
                    >(operation)
                    &&& assignment_plan(target, operation, table) == Ok::<
                        Seq<DestroyView>,
                        ErrorView,
                    >(destroy_plan@)
                },
                _ => mark is Keep,
            },
            Node::Expr(expr, position) => if position is Stored {
                &&& mark matches Mark::Container(write)
                &&& container_of(*expr) == Ok::<OwningWrite, ErrorView>(write)
            } else {
                mark is Keep
            },
            _ => mark is Keep,
        },
    }
}

pub open spec fn all_settled<'a>(
    table: Map<Seq<char>, Seq<TyView>>,
    nodes: Seq<Visit<'a>>,
    marks: Seq<Mark>,
) -> bool {
    &&& slot_relations(nodes) is Ok
    &&& marks.len() == nodes.len()
    &&& forall|i: int|
        0 <= i < nodes.len() ==> settles(
            slot_relations(nodes)->Ok_0,
            table,
            nodes[i],
            #[trigger] marks[i],
        )
}

/// The program is the old one with the settled operations written on every node.
pub open spec fn operations_settled(before: &CheckedProgram, after: &CheckedProgram) -> bool {
    exists|marks: Seq<Mark>| #[trigger]
        all_settled(items_map(before.items@), program_walk(operation_walk(), before), marks)
            && tracks(
            program_walk(operation_walk(), before),
            program_walk(operation_walk(), after),
            marks,
        )
}

fn settle_binding(binding: &Binding, structs: &StructTable) -> (r: AliasResult<Mark>)
    ensures
        fault_of(r) == binding_settle_fault(*binding, structs@),
        r matches Ok(mark) ==> {
            &&& mark matches Mark::Slot { operation, destroy_plan }
            &&& settled_binding(*binding) == Ok::<BindingOperation, ErrorView>(operation)
            &&& binding_plan(*binding, operation, structs@) == Ok::<Seq<DestroyView>, ErrorView>(
                destroy_plan@,
            )
        },
{
    if binding.operation.is_some() || binding.destroy_plan.is_some() {
        return Err(
            broken_invariant(binding.span, "Binding operation/destruction 被重复 finalization"),
        );
    }
    let operation = match binding_operation(binding) {
        Ok(operation) => operation,
        Err(error) => {
            return Err(error);
        },
    };
    match binding_destroy_plan(binding, operation, structs) {
        Ok(destroy_plan) => Ok(Mark::Slot { operation, destroy_plan }),
        Err(error) => Err(error),
    }
}

fn settle_assign(
    target: &Place,
    value: &Expr,
    recorded: &Option<AssignmentOperation>,
    relations: &RelationTable,
    structs: &StructTable,
) -> (r: AliasResult<Mark>)
    ensures
        fault_of(r) == assign_settle_fault(relations@, *target, *value, *recorded, structs@),
        r matches Ok(mark) ==> {
            &&& mark matches Mark::Write { operation, destroy_plan }
            &&& target_assignment(relations@, *target, *value) == Ok::<
                AssignmentOperation,
                ErrorView,
            >(operation)
            &&& assignment_plan(*target, operation, structs@) == Ok::<Seq<DestroyView>, ErrorView>(
                destroy_plan@,
            )
        },
{
    if recorded.is_some() {
        return Err(broken_invariant(target.span(), "Assignment operation 被重复 finalization"));
    }
    let operation = match assignment_operation(target, value, relations) {
        Ok(operation) => operation,
        Err(error) => {
            return Err(error);
        },
    };
    match assignment_destroy_plan(target, operation, structs) {
        Ok(destroy_plan) => Ok(Mark::Write { operation, destroy_plan }),
        Err(error) => Err(error),
    }
}

fn settle_visit<'a>(visit: Visit<'a>, relations: &RelationTable, structs: &StructTable) -> (r:
    AliasResult<Mark>)
    ensures
        fault_of(r) == visit_settle_fault(relations@, structs@, visit),
        r matches Ok(mark) ==> settles(relations@, structs@, visit, mark),
{
    if let Some(binding) = find_binding(visit) {
        return settle_binding(binding, structs);
    }
    match visit.node {
        Node::Stmt(Stmt::Assign { target, value, operation, .. }) => settle_assign(
            target,
            value,
            operation,
            relations,
            structs,
        ),
        Node::Expr(expr, position) => {
            if let Position::Stored = position {
                if expr.info().container_write.is_some() {
                    return Err(broken_invariant(expr.span(), "container write 被重复 finalization"));
                }
                match container_write(expr) {
                    Ok(write) => Ok(Mark::Container(write)),
                    Err(error) => Err(error),
                }
            } else if expr.info().container_write.is_some() {
                Err(
                    broken_invariant(expr.span(), "非 container destination 携带 write operation"),
                )
            } else {
                Ok(Mark::Keep)
            }
        },
        _ => Ok(Mark::Keep),
    }
}

fn settle(program: &CheckedProgram) -> (r: AliasResult<Vec<Mark>>)
    ensures
        fault_of(r) == settle_fault(program),
        r matches Ok(marks) ==> all_settled(
            items_map(program.items@),
            program_walk(operation_walk(), program),
            marks@,
        ),
{
    let relations = match collect_binding_relations(program) {
        Ok(relations) => relations,
        Err(error) => {
            return Err(error);
        },
    };
    let structs = struct_fields(program);
    let nodes = program_nodes(
        Walk { every_callee: true, into_functions: true, value_first: false, subject_last: false },
        program,
    );
    let ghost faults = Seq::new(
        nodes@.len(),
        |i: int| visit_settle_fault(relations@, structs@, nodes@[i]),
    );
    let mut marks: Vec<Mark> = Vec::new();
    let mut i: usize = 0;
    while i < nodes.len()
        invariant
            i <= nodes.len(),
            nodes@ == program_walk(operation_walk(), program),
            structs@ == items_map(program.items@),
            slot_relations(nodes@) == Ok::<Map<BindingId, StorageRelation>, ErrorView>(relations@),
            faults == Seq::new(
                nodes@.len(),
                |i: int| visit_settle_fault(relations@, structs@, nodes@[i]),
            ),
            forall|k: int| 0 <= k < i ==> (#[trigger] faults[k]) is None,
            marks@.len() == i,
            forall|k: int|
                0 <= k < i ==> settles(relations@, structs@, nodes@[k], #[trigger] marks@[k]),
        decreases nodes.len() - i,
    {
        assert(faults[i as int] == visit_settle_fault(relations@, structs@, nodes@[i as int]));
        match settle_visit(nodes[i], &relations, &structs) {
            Ok(mark) => {
                marks.push(mark);
            },
            Err(error) => {
                proof {
                    lemma_first_fault_at(faults, i as int);
                }
                return Err(error);
            },
        }
        i += 1;
    }
    proof {
        lemma_no_fault(faults);
    }
    Ok(marks)
}

/// Settles how all values of a program reach their destinations, and writes it down.
pub fn finalize(program: &mut CheckedProgram) -> (r: AliasResult<()>)
    ensures
        match settle_fault(old(program)) {
            Some(error) => fault_of(r) == Some(error) && *final(program) == *old(program),
            None => r is Ok && operations_settled(old(program), final(program)),
        },
        final(program).main_id == old(program).main_id,
{
    let marks = match settle(program) {
        Ok(marks) => marks,
        Err(error) => {
            return Err(error);
        },
    };
    let ghost written = marks@;
    apply_marks(
        Walk { every_callee: true, into_functions: true, value_first: false, subject_last: false },
        program,
        marks,
    );
    assert(all_settled(
        items_map(old(program).items@),
        program_walk(operation_walk(), old(program)),
        written,
    ));
    Ok(())
}

/// A binding with the operation and the plan that are settled for it passes the check.
pub proof fn law_settled_binding_is_valid(
    binding: Binding,
    operation: BindingOperation,
    destroy_plan: DestroyPlan,
    table: Map<Seq<char>, Seq<TyView>>,
)
    requires
        settled_binding(binding) == Ok::<BindingOperation, ErrorView>(operation),
        binding_plan(binding, operation, table) == Ok::<Seq<DestroyView>, ErrorView>(
            destroy_plan@,
        ),
    ensures
        binding_fault(
            Binding {
                operation: Some(operation),
                destroy_plan: Some(destroy_plan),
                ..binding
            },
            table,
        ) is None,
{
}

/// What is taken over by its destination is a temporary that brings its ownership along.
pub proof fn law_only_owners_are_transferred(value: Expr)
    requires
        write_of(value) == Ok::<Option<OwningWrite>, ErrorView>(
            Some(OwningWrite::OwnershipTransfer),
        ),
    ensures
        value.spec_info().category == Some(ExprCategory::Value(ValueCategory::OwnedTemporary)),
        value.spec_info().ownership_capability == Some(OwnershipCapability::Available),
{
}

/// Binding an alias, first or anew, tears nothing down.
pub proof fn law_aliases_tear_nothing_down(
    target: Place,
    binding: Binding,
    table: Map<Seq<char>, Seq<TyView>>,
)
    ensures
        assignment_plan(target, AssignmentOperation::RebindBorrowedAlias, table) == Ok::<
            Seq<DestroyView>,
            ErrorView,
        >(seq![DestroyView::Inline]),
        binding_plan(binding, BindingOperation::BindBorrowedAlias, table) == Ok::<
            Seq<DestroyView>,
            ErrorView,
        >(seq![DestroyView::Inline]),
{
}

} // verus!
