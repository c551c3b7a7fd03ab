//! How the variables of a match get their values.
//!
//! A variable that stands for the whole subject copies, takes over or clones it, as any owning slot
//! does. A variable that stands for a payload reads from a result that lives on, and never moves
//! out of it.

use crate::binding_contract::{pattern_binding_ty, pattern_type};
use crate::deep_clone::{DeepPlanView, deep_clone_of, deep_clone_plan_with};
use crate::marks::{
    Mark, apply_marks, arm_shell, arm_shells, expr_head, expr_shell, lemma_same_structs, marked,
    marked_arms, marked_head, same_structs, shell_of, tracks,
};
use crate::model::{
    CheckedProgram, DeepClonePlan, Expr, ExprCategory, MatchArm, OwnershipCapability, Pattern,
    PatternBindingOperation, ValueCategory,
};
use crate::structs::{StructTable, items_map, struct_fields};
use crate::types::{
    AliasError, AliasResult, ErrorView, Span, Ty, TyView, broken_at, broken_invariant, fault_of,
    first_fault, lemma_first_fault_at, lemma_no_fault, ty_name,
};
use crate::value_categories::is_inline_value;
use crate::visit::{
    Node, Visit, Walk, item_visits, law_first_child_follows, lemma_program_walk, program_nodes,
    program_walk,
};
use vstd::prelude::*;

verus! {

/// The mathematical value of an operation.
pub enum OperationView {
    InlineCopy,
    DeepClone(DeepPlanView),
    OwnershipTransfer,
}

impl View for PatternBindingOperation {
    type V = OperationView;

    open spec fn view(&self) -> OperationView {
        match *self {
            PatternBindingOperation::InlineCopy => OperationView::InlineCopy,
            PatternBindingOperation::DeepClone(plan) => OperationView::DeepClone(plan@),
            PatternBindingOperation::OwnershipTransfer => OperationView::OwnershipTransfer,
        }
    }
}

pub open spec fn operation_view(operation: Option<PatternBindingOperation>) -> Option<
    OperationView,
> {
    match operation {
        Some(operation) => Some(operation@),
        None => None,
    }
}

/// A clone, or a plain copy where nothing has to be cloned.
pub open spec fn cloned(
    ty: TyView,
    span: Span,
    table: Map<Seq<char>, Seq<TyView>>,
) -> Result<OperationView, ErrorView> {
    match deep_clone_of(ty, span, table) {
        Err(error) => Err(error),
        Ok(plan) => Ok(
            if plan is Inline {
                OperationView::InlineCopy
            } else {
                OperationView::DeepClone(plan)
            },
        ),
    }
}

/// What an operation that is settled for a type comes to.
pub open spec fn some_operation(result: Result<OperationView, ErrorView>) -> Result<
    Option<OperationView>,
    ErrorView,
> {
    match result {
        Ok(operation) => Ok(Some(operation)),
        Err(error) => Err(error),
    }
}

/// How the variable of a pattern gets its value, if the pattern has one.
pub open spec fn operation_of(
    subject: Expr,
    pattern: Pattern,
    has_binding_id: bool,
    table: Map<Seq<char>, Seq<TyView>>,
) -> Result<Option<OperationView>, ErrorView> {
    let span = pattern.spec_span();
    let category = subject.spec_info().category;
    let capability = subject.spec_info().ownership_capability;
    match pattern_type(subject.tyv(), pattern) {
        Err(error) => Err(error),
        Ok(found) => if found is Some != has_binding_id {
            Err(broken_at(span, "Pattern binding type 与 BindingId 存在性不一致"@))
        } else {
            match found {
                None => Ok(None),
                Some(ty) => if pattern is Constructor {
                    some_operation(cloned(ty, span, table))
                } else if !(pattern is Binding) {
                    Err(broken_at(span, "未知的 Pattern binding 形态"@))
                } else if ty.is_inline() {
                    Ok(Some(OperationView::InlineCopy))
                } else if category == Some(ExprCategory::Value(ValueCategory::OwnedTemporary))
                    && capability == Some(OwnershipCapability::Available) {
                    Ok(Some(OperationView::OwnershipTransfer))
                } else if (category == Some(ExprCategory::Place) && capability is None) || (category
                    == Some(ExprCategory::Value(ValueCategory::BorrowedValue)) && capability
                    == Some(OwnershipCapability::Absent)) {
                    some_operation(cloned(ty, span, table))
                } else {
                    Err(
                        ErrorView {
                            msg: "Pattern binding 无法确定 "@ + ty_name(ty)
                                + " 的 copy/clone/transfer ownership effect"@,
                            span,
                        },
                    )
                },
            }
        },
    }
}

/// Settles a clone.
pub fn clone_operation(ty: &Ty, span: Span, structs: &StructTable) -> (r: AliasResult<
    PatternBindingOperation,
>)
    ensures
        match cloned(ty@, span, structs@) {
            Ok(operation) => r matches Ok(found) && found@ == operation,
            Err(error) => fault_of(r) == Some(error),
        },
{
    let plan = match deep_clone_plan_with(ty, span, structs) {
        Ok(plan) => plan,
        Err(error) => {
            return Err(error);
        },
    };
    Ok(
        match plan {
            DeepClonePlan::Inline => PatternBindingOperation::InlineCopy,
            _ => PatternBindingOperation::DeepClone(plan),
        },
    )
}

fn wrap(result: AliasResult<PatternBindingOperation>) -> (r: AliasResult<
    Option<PatternBindingOperation>,
>)
    ensures
        match result {
            Ok(operation) => r == Ok::<Option<PatternBindingOperation>, AliasError>(
                Some(operation),
            ),
            Err(error) => fault_of(r) == Some(error@),
        },
{
    match result {
        Ok(operation) => Ok(Some(operation)),
        Err(error) => Err(error),
    }
}

/// Settles how the variable of a pattern gets its value.
pub fn expected_operation(
    subject: &Expr,
    pattern: &Pattern,
    has_binding_id: bool,
    structs: &StructTable,
) -> (r: AliasResult<Option<PatternBindingOperation>>)
    ensures
        match operation_of(*subject, *pattern, has_binding_id, structs@) {
            Ok(operation) => r matches Ok(found) && operation_view(found) == operation,
            Err(error) => fault_of(r) == Some(error),
        },
{
    let binding_ty = match pattern_binding_ty(subject.ty(), pattern) {
        Ok(binding_ty) => binding_ty,
        Err(error) => {
            return Err(error);
        },
    };
    if binding_ty.is_some() != has_binding_id {
        return Err(
            broken_invariant(pattern.span(), "Pattern binding type 与 BindingId 存在性不一致"),
        );
    }
    let ty = match binding_ty {
        Some(ty) => ty,
        None => {
            return Ok(None);
        },
    };
    match pattern {
        Pattern::Constructor { .. } => {
            return wrap(clone_operation(&ty, pattern.span(), structs));
        },
        Pattern::Binding { .. } => {},
        _ => {
            return Err(broken_invariant(pattern.span(), "未知的 Pattern binding 形态"));
        },
    }
    if is_inline_value(&ty) {
        return Ok(Some(PatternBindingOperation::InlineCopy));
    }
    match (subject.category(), subject.ownership_capability()) {
        (
            Some(ExprCategory::Value(ValueCategory::OwnedTemporary)),
            Some(OwnershipCapability::Available),
        ) => Ok(Some(PatternBindingOperation::OwnershipTransfer)),
        (Some(ExprCategory::Place), None) => wrap(clone_operation(&ty, pattern.span(), structs)),
        (
            Some(ExprCategory::Value(ValueCategory::BorrowedValue)),
            Some(OwnershipCapability::Absent),
        ) => wrap(clone_operation(&ty, pattern.span(), structs)),
        _ => {
            let name = ty.name();
            let mut text: String = String::from_str("Pattern binding 无法确定 ");
            text.append(name.as_str());
            text.append(" 的 copy/clone/transfer ownership effect");
            Err(AliasError { msg: text, span: pattern.span() })
        },
    }
}

pub open spec fn arm_operation(
    subject: Expr,
    arm: MatchArm,
    table: Map<Seq<char>, Seq<TyView>>,
) -> Result<Option<OperationView>, ErrorView> {
    operation_of(subject, arm.pattern, arm.binding_id is Some, table)
}

/// What is wrong with the operation recorded on an arm.
pub open spec fn arm_fault(
    subject: Expr,
    arm: MatchArm,
    table: Map<Seq<char>, Seq<TyView>>,
) -> Option<ErrorView> {
    match arm_operation(subject, arm, table) {
        Err(error) => Some(error),
        Ok(expected) => if operation_view(arm.binding_operation) == expected {
            None
        } else {
            Some(
                broken_at(
                    arm.pattern.spec_span(),
                    "Pattern binding operation 与 resolved source 不一致"@,
                ),
            )
        },
    }
}

/// What stands against settling the operation of an arm.
pub open spec fn settle_fault(
    subject: Expr,
    arm: MatchArm,
    table: Map<Seq<char>, Seq<TyView>>,
) -> Option<ErrorView> {
    if arm.binding_operation is Some {
        Some(
            broken_at(
                arm.pattern.spec_span(),
                "Pattern binding operation 被重复 finalization"@,
            ),
        )
    } else {
        match arm_operation(subject, arm, table) {
            Err(error) => Some(error),
            Ok(_) => None,
        }
    }
}

pub open spec fn arm_faults(
    subject: Expr,
    arms: Seq<MatchArm>,
    table: Map<Seq<char>, Seq<TyView>>,
) -> Seq<Option<ErrorView>> {
    Seq::new(arms.len(), |i: int| arm_fault(subject, arms[i], table))
}

pub open spec fn settle_faults(
    subject: Expr,
    arms: Seq<MatchArm>,
    table: Map<Seq<char>, Seq<TyView>>,
) -> Seq<Option<ErrorView>> {
    Seq::new(arms.len(), |i: int| settle_fault(subject, arms[i], table))
}

pub open spec fn pattern_walk() -> Walk {
    Walk { every_callee: true, into_functions: true, value_first: false, subject_last: false }
}

pub open spec fn visit_fault<'a>(table: Map<Seq<char>, Seq<TyView>>, visit: Visit<'a>) -> Option<
    ErrorView,
> {
    match visit.node {
        Node::Expr(expr, _) => match *expr {
            Expr::Match { subject, arms, .. } => first_fault(arm_faults(*subject, arms@, table)),
            _ => None,
        },
        _ => None,
    }
}

pub open spec fn visit_settle_fault<'a>(
    table: Map<Seq<char>, Seq<TyView>>,
    visit: Visit<'a>,
) -> Option<ErrorView> {
    match visit.node {
        Node::Expr(expr, _) => match *expr {
            Expr::Match { subject, arms, .. } => first_fault(settle_faults(*subject, arms@, table)),
            _ => None,
        },
        _ => None,
    }
}

pub open spec fn program_faults(program: &CheckedProgram) -> Seq<Option<ErrorView>> {
    let nodes = program_walk(pattern_walk(), program);
    Seq::new(nodes.len(), |i: int| visit_fault(items_map(program.items@), nodes[i]))
}

pub open spec fn program_settle_faults(program: &CheckedProgram) -> Seq<Option<ErrorView>> {
    let nodes = program_walk(pattern_walk(), program);
    Seq::new(nodes.len(), |i: int| visit_settle_fault(items_map(program.items@), nodes[i]))
}

/// The mark writes exactly the operations that are settled for the node.
pub open spec fn settles<'a>(
    table: Map<Seq<char>, Seq<TyView>>,
    visit: Visit<'a>,
    mark: Mark,
) -> bool {
    match visit.node {
        Node::Expr(expr, _) => match *expr {
            Expr::Match { subject, arms, .. } => {
                &&& mark matches Mark::Arms(operations)
                &&& operations@.len() == arms@.len()
                &&& forall|i: int|
                    0 <= i < arms@.len() ==> arm_operation(*subject, arms@[i], table) == Ok::<
                        Option<OperationView>,
                        ErrorView,
                    >(operation_view(#[trigger] operations@[i]))
            },
            _ => mark is Keep,
        },
        _ => mark is Keep,
    }
}

pub open spec fn all_settled<'a>(
    table: Map<Seq<char>, Seq<TyView>>,
    nodes: Seq<Visit<'a>>,
    marks: Seq<Mark>,
) -> bool {
    &&& marks.len() == nodes.len()
    &&& forall|i: int| 0 <= i < nodes.len() ==> settles(table, nodes[i], #[trigger] marks[i])
}

/// The program is the old one with the settled operations written on every arm.
pub open spec fn patterns_settled(before: &CheckedProgram, after: &CheckedProgram) -> bool {
    exists|marks: Seq<Mark>| #[trigger]
        all_settled(items_map(before.items@), program_walk(pattern_walk(), before), marks)
            && tracks(
            program_walk(pattern_walk(), before),
            program_walk(pattern_walk(), after),
            marks,
        ) && same_structs(before.items@, after.items@)
}

fn same_operation(
    a: &Option<PatternBindingOperation>,
    b: &Option<PatternBindingOperation>,
) -> (r: bool)
    ensures
        r == (operation_view(*a) == operation_view(*b)),
{
    match (a, b) {
        (None, None) => true,
        (Some(a), Some(b)) => match (a, b) {
            (PatternBindingOperation::InlineCopy, PatternBindingOperation::InlineCopy) => true,
            (
                PatternBindingOperation::OwnershipTransfer,
                PatternBindingOperation::OwnershipTransfer,
            ) => true,
            (
                PatternBindingOperation::DeepClone(p),
                PatternBindingOperation::DeepClone(q),
            ) => p.same(q),
            _ => false,
        },
        _ => false,
    }
}

/// Checks the operations recorded on the arms of a match.
pub fn validate_arms(subject: &Expr, arms: &Vec<MatchArm>, structs: &StructTable) -> (r:
    AliasResult<()>)
    ensures
        fault_of(r) == first_fault(arm_faults(*subject, arms@, structs@)),
{
    let ghost faults = arm_faults(*subject, arms@, structs@);
    let mut i: usize = 0;
    while i < arms.len()
        invariant
            i <= arms.len(),
            faults == arm_faults(*subject, arms@, structs@),
            forall|k: int| 0 <= k < i ==> (#[trigger] faults[k]) is None,
        decreases arms.len() - i,
    {
        let arm = &arms[i];
        assert(faults[i as int] == arm_fault(*subject, *arm, structs@));
        match expected_operation(subject, &arm.pattern, arm.binding_id.is_some(), structs) {
            Err(error) => {
                proof {
                    lemma_first_fault_at(faults, i as int);
                }
                return Err(error);
            },
            Ok(expected) => {
                if !same_operation(&arm.binding_operation, &expected) {
                    proof {
                        lemma_first_fault_at(faults, i as int);
                    }
                    return Err(
                        broken_invariant(
                            arm.pattern.span(),
                            "Pattern binding operation 与 resolved source 不一致",
                        ),
                    );
                }
            },
        }
        i += 1;
    }
    proof {
        lemma_no_fault(faults);
    }
    Ok(())
}

/// Checks the operations recorded on all arms of a program; reports the first that is wrong.
pub fn validate(program: &CheckedProgram) -> (r: AliasResult<()>)
    ensures
        fault_of(r) == first_fault(program_faults(program)),
{
    let structs = struct_fields(program);
    let nodes = program_nodes(
        Walk { every_callee: true, into_functions: true, value_first: false, subject_last: false },
        program,
    );
    let ghost faults = program_faults(program);
    let mut i: usize = 0;
    while i < nodes.len()
        invariant
            i <= nodes.len(),
            structs@ == items_map(program.items@),
            nodes@ == program_walk(pattern_walk(), program),
            faults == program_faults(program),
            forall|k: int| 0 <= k < i ==> (#[trigger] faults[k]) is None,
        decreases nodes.len() - i,
    {
        assert(faults[i as int] == visit_fault(structs@, nodes@[i as int]));
        if let Node::Expr(Expr::Match { subject, arms, .. }, _) = nodes[i].node {
            match validate_arms(subject, arms, &structs) {
                Ok(_) => {},
                Err(error) => {
                    proof {
                        lemma_first_fault_at(faults, i as int);
                    }
                    return Err(error);
                },
            }
        }
        i += 1;
    }
    proof {
        lemma_no_fault(faults);
    }
    Ok(())
}

fn settle_arms(subject: &Expr, arms: &Vec<MatchArm>, structs: &StructTable) -> (r: AliasResult<
    Vec<Option<PatternBindingOperation>>,
>)
    ensures
        fault_of(r) == first_fault(settle_faults(*subject, arms@, structs@)),
        r matches Ok(operations) ==> {
            &&& operations@.len() == arms@.len()
            &&& forall|i: int|
                0 <= i < arms@.len() ==> arm_operation(*subject, arms@[i], structs@) == Ok::<
                    Option<OperationView>,
                    ErrorView,
                >(operation_view(#[trigger] operations@[i]))
        },
{
    let ghost faults = settle_faults(*subject, arms@, structs@);
    let mut operations: Vec<Option<PatternBindingOperation>> = Vec::new();
    let mut i: usize = 0;
    while i < arms.len()
        invariant
            i <= arms.len(),
            faults == settle_faults(*subject, arms@, structs@),
            forall|k: int| 0 <= k < i ==> (#[trigger] faults[k]) is None,
            operations@.len() == i,
            forall|k: int|
                0 <= k < i ==> arm_operation(*subject, arms@[k], structs@) == Ok::<
                    Option<OperationView>,
                    ErrorView,
                >(operation_view(#[trigger] operations@[k])),
        decreases arms.len() - i,
    {
        let arm = &arms[i];
        assert(faults[i as int] == settle_fault(*subject, *arm, structs@));
        if arm.binding_operation.is_some() {
            proof {
                lemma_first_fault_at(faults, i as int);
            }
            return Err(
                broken_invariant(
                    arm.pattern.span(),
                    "Pattern binding operation 被重复 finalization",
                ),
            );
        }
        match expected_operation(subject, &arm.pattern, arm.binding_id.is_some(), structs) {
            Err(error) => {
                proof {
                    lemma_first_fault_at(faults, i as int);
                }
                return Err(error);
            },
            Ok(operation) => {
                operations.push(operation);
            },
        }
        i += 1;
    }
    proof {
        lemma_no_fault(faults);
    }
    Ok(operations)
}

fn settle(program: &CheckedProgram) -> (r: AliasResult<Vec<Mark>>)
    ensures
        fault_of(r) == first_fault(program_settle_faults(program)),
        r matches Ok(marks) ==> all_settled(
            items_map(program.items@),
            program_walk(pattern_walk(), program),
            marks@,
        ),
{
    let structs = struct_fields(program);
    let nodes = program_nodes(
        Walk { every_callee: true, into_functions: true, value_first: false, subject_last: false },
        program,
    );
    let ghost faults = program_settle_faults(program);
    let mut marks: Vec<Mark> = Vec::new();
    let mut i: usize = 0;
    while i < nodes.len()
        invariant
            i <= nodes.len(),
            structs@ == items_map(program.items@),
            nodes@ == program_walk(pattern_walk(), program),
            faults == program_settle_faults(program),
            forall|k: int| 0 <= k < i ==> (#[trigger] faults[k]) is None,
            marks@.len() == i,
            forall|k: int| 0 <= k < i ==> settles(structs@, nodes@[k], #[trigger] marks@[k]),
        decreases nodes.len() - i,
    {
        assert(faults[i as int] == visit_settle_fault(structs@, nodes@[i as int]));
        match nodes[i].node {
            Node::Expr(Expr::Match { subject, arms, .. }, _) => {
                match settle_arms(subject, arms, &structs) {
                    Ok(operations) => {
                        marks.push(Mark::Arms(operations));
                    },
                    Err(error) => {
                        proof {
                            lemma_first_fault_at(faults, i as int);
                        }
                        return Err(error);
                    },
                }
            },
            _ => {
                marks.push(Mark::Keep);
            },
        }
        i += 1;
    }
    proof {
        lemma_no_fault(faults);
    }
    Ok(marks)
}

/// Settles how the variables of all arms of a program get their values, and writes it down.
pub fn finalize(program: &mut CheckedProgram) -> (r: AliasResult<()>)
    ensures
        match first_fault(program_settle_faults(old(program))) {
            Some(error) => fault_of(r) == Some(error) && *final(program) == *old(program),
            None => r is Ok && patterns_settled(old(program), final(program)),
        },
        final(program).main_id == old(program).main_id,
{
    let marks = match settle(program) {
        Ok(marks) => marks,
        Err(error) => {
            return Err(error);
        },
    };
    let ghost written = marks@;
    apply_marks(
        Walk { every_callee: true, into_functions: true, value_first: false, subject_last: false },
        program,
        marks,
    );
    assert(all_settled(
        items_map(old(program).items@),
        program_walk(pattern_walk(), old(program)),
        written,
    ));
    Ok(())
}

/// An arm with the operation that is settled for it passes the check.
pub proof fn law_settled_arm_is_valid(
    subject: Expr,
    arm: MatchArm,
    operation: Option<PatternBindingOperation>,
    table: Map<Seq<char>, Seq<TyView>>,
)
    requires
        arm_operation(subject, arm, table) == Ok::<Option<OperationView>, ErrorView>(
            operation_view(operation),
        ),
    ensures
        arm_fault(subject, MatchArm { binding_operation: operation, ..arm }, table) is None,
{
}

/// Once the operations of a program are settled, the check finds nothing to say.
pub proof fn law_settled_patterns_are_valid(before: &CheckedProgram, after: &CheckedProgram)
    requires
        patterns_settled(before, after),
    ensures
        first_fault(program_faults(after)) is None,
{
    let table = items_map(before.items@);
    let old_nodes = program_walk(pattern_walk(), before);
    let new_nodes = program_walk(pattern_walk(), after);
    let marks = choose|marks: Seq<Mark>| #[trigger]
        all_settled(table, old_nodes, marks) && tracks(old_nodes, new_nodes, marks)
            && same_structs(before.items@, after.items@);
    lemma_same_structs(before.items@, after.items@);
    let faults = program_faults(after);
    assert forall|i: int| 0 <= i < faults.len() implies (#[trigger] faults[i]) is None by {
        lemma_settled_visit(before, after, marks, i);
    }
    lemma_no_fault(faults);
}

proof fn lemma_settled_visit(
    before: &CheckedProgram,
    after: &CheckedProgram,
    marks: Seq<Mark>,
    i: int,
)
    requires
        all_settled(items_map(before.items@), program_walk(pattern_walk(), before), marks),
        tracks(
            program_walk(pattern_walk(), before),
            program_walk(pattern_walk(), after),
            marks,
        ),
        0 <= i < program_walk(pattern_walk(), after).len(),
    ensures
        visit_fault(items_map(before.items@), program_walk(pattern_walk(), after)[i]) is None,
{
    let table = items_map(before.items@);
    let old_nodes = program_walk(pattern_walk(), before);
    let new_nodes = program_walk(pattern_walk(), after);
    assert(settles(table, old_nodes[i], marks[i]));
    assert(shell_of(new_nodes[i]) == marked(marks[i], shell_of(old_nodes[i])));
    match (old_nodes[i].node, new_nodes[i].node) {
        (Node::Expr(one, _), Node::Expr(two, _)) => match (*one, *two) {
            (
                Expr::Match { subject, arms, .. },
                Expr::Match { subject: new_subject, arms: new_arms, .. },
            ) => {
                lemma_program_walk(pattern_walk(), before);
                lemma_program_walk(pattern_walk(), after);
                law_first_child_follows(pattern_walk(), item_visits(before), i);
                law_first_child_follows(pattern_walk(), item_visits(after), i);
                assert(settles(table, old_nodes[i + 1], marks[i + 1]));
                assert(shell_of(new_nodes[i + 1]) == marked(
                    marks[i + 1],
                    shell_of(old_nodes[i + 1]),
                ));
                lemma_same_info(*subject, *new_subject, marks[i + 1]);
                let faults = arm_faults(*new_subject, new_arms@, table);
                assert(arm_shells(new_arms@) == marked_arms(marks[i], arm_shells(arms@)));
                assert(arm_shells(new_arms@).len() == arm_shells(arms@).len());
                assert forall|k: int| 0 <= k < faults.len() implies (#[trigger] faults[k])
                    is None by {
                    assert(arm_shells(new_arms@)[k] == marked_arms(
                        marks[i],
                        arm_shells(arms@),
                    )[k]);
                    assert(arm_shell(new_arms@[k]).pattern == arm_shell(arms@[k]).pattern);
                    assert(operation_view(new_arms@[k].binding_operation) == operation_view(
                        marks[i]->Arms_0@[k],
                    ));
                }
                lemma_no_fault(faults);
            },
            _ => {},
        },
        _ => {},
    }
}

proof fn lemma_same_info(before: Expr, after: Expr, mark: Mark)
    requires
        mark is Keep || mark is Arms,
        expr_shell(after).head == marked_head(mark, expr_shell(before).head),
    ensures
        after.spec_info() == before.spec_info(),
{
    assert(expr_head(before).spec_info() == before.spec_info());
    assert(expr_head(after).spec_info() == after.spec_info());
    assert(marked_head(mark, expr_head(before)).spec_info() == before.spec_info());
}

/// A variable that stands for a payload never takes the payload over.
pub proof fn law_payload_is_never_moved(
    subject: Expr,
    pattern: Pattern,
    has_binding_id: bool,
    table: Map<Seq<char>, Seq<TyView>>,
)
    requires
        pattern is Constructor,
    ensures
        operation_of(subject, pattern, has_binding_id, table) matches Ok(Some(operation))
            ==> !(operation is OwnershipTransfer),
{
}

/// A variable takes the whole subject over only where the subject is a temporary that brings its
/// ownership along.
pub proof fn law_only_owners_are_taken_over(
    subject: Expr,
    pattern: Pattern,
    has_binding_id: bool,
    table: Map<Seq<char>, Seq<TyView>>,
)
    requires
        operation_of(subject, pattern, has_binding_id, table) == Ok::<
            Option<OperationView>,
            ErrorView,
        >(Some(OperationView::OwnershipTransfer)),
    ensures
        subject.spec_info().category == Some(ExprCategory::Value(ValueCategory::OwnedTemporary)),
        subject.spec_info().ownership_capability == Some(OwnershipCapability::Available),
        !subject.tyv().is_inline(),
{
}

} // verus!
