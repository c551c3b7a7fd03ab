//! Where aliases may be kept and passed.
//!
//! When two uses of a loan conflict is settled elsewhere; here stands where an alias may be stored
//! at all.

use crate::ids::{RelationTable, relation_in};
use crate::model::{
    Binding, CallArg, CallTarget, Capture, CheckedProgram, Expr, ExprCategory, Item, MethodTarget,
    Place, ReturnPass, Stmt, StorageRelation, ValueCategory, place_root,
};
use crate::types::{
    AliasResult, BindingId, ErrorView, Span, error, fault_of, first_fault, lemma_first_fault_at,
    lemma_no_fault,
};
use crate::value_categories::{owns_dynamically, type_carries_dynamic_owner};
use crate::visit::{Node, Position, Visit, Walk, expr_nodes, program_nodes, program_walk, walk_expr};
use vstd::prelude::*;

verus! {

pub open spec fn storage_walk() -> Walk {
    Walk { every_callee: true, into_functions: true, value_first: false, subject_last: false }
}

/// A function literal answers for its captures where it stands; its body is not looked into.
pub open spec fn use_walk() -> Walk {
    Walk { every_callee: true, into_functions: false, value_first: false, subject_last: false }
}

/// The table with what one binding records.
pub open spec fn with_relation(
    relations: Map<BindingId, StorageRelation>,
    binding: Binding,
) -> Map<BindingId, StorageRelation> {
    match binding.relation {
        Some(relation) => relations.insert(binding.binding_id, relation),
        None => relations,
    }
}

/// What the bindings outside all functions record, an earlier one over a later one.
pub open spec fn item_relations(items: Seq<Item>) -> Map<BindingId, StorageRelation>
    decreases items.len(),
{
    if items.len() == 0 {
        Map::empty()
    } else {
        let rest = item_relations(items.drop_first());
        match items[0] {
            Item::Binding(binding) => with_relation(rest, *binding),
            Item::StructDef(_) => rest,
        }
    }
}

/// What the bindings among some nodes add, a later one over an earlier one.
pub open spec fn node_relations<'a>(
    start: Map<BindingId, StorageRelation>,
    nodes: Seq<Visit<'a>>,
) -> Map<BindingId, StorageRelation>
    decreases nodes.len(),
{
    if nodes.len() == 0 {
        start
    } else {
        let rest = node_relations(start, nodes.drop_last());
        match nodes.last().node {
            Node::Stmt(Stmt::Binding(binding)) => with_relation(rest, *binding),
            _ => rest,
        }
    }
}

/// What the bindings of a program record of their slots.
pub open spec fn program_relations(program: &CheckedProgram) -> Map<BindingId, StorageRelation> {
    node_relations(item_relations(program.items@), program_walk(storage_walk(), program))
}

pub open spec fn is_alias(relations: Map<BindingId, StorageRelation>, id: BindingId) -> bool {
    relation_in(relations, id) == Some(StorageRelation::Borrowed)
}

/// The node itself mentions an alias.
pub open spec fn mentions_alias<'a>(
    relations: Map<BindingId, StorageRelation>,
    visit: Visit<'a>,
) -> bool {
    match visit.node {
        Node::Expr(expr, _) => match *expr {
            Expr::Ident(_, Some(id), _, _) => is_alias(relations, id),
            Expr::ReadPlace { source, .. } => is_alias(relations, place_root(*source)),
            Expr::Borrow { source, .. } => is_alias(relations, place_root(*source)),
            Expr::Refer { source, .. } => is_alias(relations, place_root(*source)),
            Expr::Move { source, .. } => is_alias(relations, place_root(*source)),
            _ => false,
        },
        _ => false,
    }
}

/// Evaluating the expression uses an alias.
pub open spec fn uses_alias(relations: Map<BindingId, StorageRelation>, expr: &Expr) -> bool {
    let nodes = walk_expr(use_walk(), None, expr, Position::Plain);
    exists|i: int| 0 <= i < nodes.len() && #[trigger] mentions_alias(relations, nodes[i])
}

pub open spec fn any_arg_uses(
    relations: Map<BindingId, StorageRelation>,
    args: Seq<CallArg>,
) -> bool {
    exists|i: int| 0 <= i < args.len() && #[trigger] uses_alias(relations, &args[i].value)
}

pub open spec fn any_capture_is_alias(
    relations: Map<BindingId, StorageRelation>,
    captures: Seq<Capture>,
) -> bool {
    exists|i: int|
        0 <= i < captures.len() && #[trigger] is_alias(relations, captures[i].binding_id)
}

/// The expression hands an alias to the caller.
pub open spec fn returns_alias(expr: Expr) -> bool {
    expr.spec_info().return_pass matches Some(pass) && *pass is BorrowValue
}

/// An alias may stand in the position.
pub open spec fn takes_alias<'a>(
    relations: Map<BindingId, StorageRelation>,
    position: Position<'a>,
) -> bool {
    match position {
        Position::Initial(binding) => binding.relation == Some(StorageRelation::Borrowed),
        Position::Assigned(target) => match *target {
            Place::Local { binding_id, .. } => is_alias(relations, binding_id),
            _ => false,
        },
        Position::Returned(value) => returns_alias(*value),
        _ => false,
    }
}

pub open spec fn produces_alias(expr: Expr) -> bool {
    expr.spec_info().category == Some(ExprCategory::Value(ValueCategory::BorrowedValue))
}

pub open spec fn told(span: Span, msg: Seq<char>) -> Option<ErrorView> {
    Some(ErrorView { msg, span })
}

/// A borrowed place must be rooted in a variable that owns, unless the alias goes to the caller.
pub open spec fn source_fault(
    relations: Map<BindingId, StorageRelation>,
    expr: Expr,
    source: Place,
) -> Option<ErrorView> {
    if relation_in(relations, place_root(source)) != Some(StorageRelation::Owning)
        && !returns_alias(expr) {
        told(expr.spec_span(), "borrow source 必须根植于 owning local Place"@)
    } else {
        None
    }
}

/// What is wrong with an expression in a position.
pub open spec fn expr_fault<'a>(
    relations: Map<BindingId, StorageRelation>,
    expr: &'a Expr,
    position: Position<'a>,
) -> Option<ErrorView> {
    if produces_alias(*expr) && !takes_alias(relations, position) {
        told(expr.spec_span(), "BorrowedValue 只能初始化或重新绑定 local borrowed slot"@)
    } else {
        match *expr {
            Expr::Borrow { source, .. } => source_fault(relations, *expr, *source),
            Expr::Refer { source, .. } => source_fault(relations, *expr, *source),
            Expr::FuncLit { captures, .. } => if any_capture_is_alias(relations, captures@) {
                told(
                    expr.spec_span(),
                    "borrowed alias capture 缺少可固化的 referent loan generation"@,
                )
            } else {
                None
            },
            Expr::Call { args, target: CallTarget::FunctionValue, .. } => if any_arg_uses(
                relations,
                args@,
            ) {
                told(
                    expr.spec_span(),
                    "borrowed argument 的 referent-loan forwarding 尚未解析"@,
                )
            } else {
                None
            },
            Expr::MethodCall { recv, args, target: MethodTarget::User { .. }, .. } => if uses_alias(
                relations,
                &recv,
            ) || any_arg_uses(relations, args@) {
                told(
                    expr.spec_span(),
                    "borrowed receiver/argument 的 referent-loan forwarding 尚未解析"@,
                )
            } else {
                None
            },
            Expr::Match { subject, .. } => if uses_alias(relations, &subject) {
                told(
                    subject.spec_span(),
                    "borrowed match subject 的跨 arm loan region 尚未解析"@,
                )
            } else {
                None
            },
            _ => None,
        }
    }
}

/// What is wrong with a statement.
pub open spec fn stmt_fault(
    relations: Map<BindingId, StorageRelation>,
    stmt: &Stmt,
) -> Option<ErrorView> {
    match *stmt {
        Stmt::Return { value: Some(value) } => if owns_dynamically(value.tyv()) && uses_alias(
            relations,
            &value,
        ) {
            told(
                value.spec_span(),
                "borrowed alias return 的 generation forwarding 尚未解析"@,
            )
        } else {
            None
        },
        Stmt::For { iterable, .. } => if uses_alias(relations, &iterable) {
            told(
                iterable.spec_span(),
                "borrowed iterable 的完整循环 loan region 尚未解析"@,
            )
        } else {
            None
        },
        _ => None,
    }
}

pub open spec fn visit_fault<'a>(
    relations: Map<BindingId, StorageRelation>,
    visit: Visit<'a>,
) -> Option<ErrorView> {
    match visit.node {
        Node::Stmt(stmt) => stmt_fault(relations, stmt),
        Node::Expr(expr, position) => expr_fault(relations, expr, position),
        _ => None,
    }
}

/// A slot outside all functions must not hold an alias.
pub open spec fn item_fault(item: Item) -> Option<ErrorView> {
    match item {
        Item::Binding(binding) => if binding.relation == Some(StorageRelation::Borrowed) {
            told(binding.span, "borrowed binding 当前不能存入顶层/global storage"@)
        } else {
            None
        },
        Item::StructDef(_) => None,
    }
}

/// All checks of a program in order: the bindings outside all functions, the last one first, and
/// then every node.
pub open spec fn program_faults(program: &CheckedProgram) -> Seq<Option<ErrorView>> {
    let relations = program_relations(program);
    let items = program.items@;
    let nodes = program_walk(storage_walk(), program);
    Seq::new(items.len(), |i: int| item_fault(items[items.len() - 1 - i])) + Seq::new(
        nodes.len(),
        |i: int| visit_fault(relations, nodes[i]),
    )
}

/// What the bindings of a program record of their slots.
pub fn collect_relations(program: &CheckedProgram) -> (r: RelationTable)
    ensures
        r@ == program_relations(program),
{
    let mut relations = RelationTable::new();
    let ghost items = program.items@;
    let mut left: usize = program.items.len();
    assert(items.skip(left as int) =~= Seq::empty());
    while left > 0
        invariant
            left <= program.items.len(),
            items == program.items@,
            relations@ == item_relations(items.skip(left as int)),
        decreases left,
    {
        left -= 1;
        proof {
            assert(items.skip(left as int).drop_first() =~= items.skip(left + 1));
            assert(items.skip(left as int)[0] == items[left as int]);
        }
        if let Item::Binding(binding) = &program.items[left] {
            if let Some(relation) = binding.relation {
                let _ = relations.insert(binding.binding_id, relation);
            }
        }
    }
    assert(items.skip(0) =~= items);
    let ghost start = relations@;
    let nodes = program_nodes(
        Walk { every_callee: true, into_functions: true, value_first: false, subject_last: false },
        program,
    );
    let mut i: usize = 0;
    assert(nodes@.take(0) =~= Seq::empty());
    while i < nodes.len()
        invariant
            i <= nodes.len(),
            relations@ == node_relations(start, nodes@.take(i as int)),
        decreases nodes.len() - i,
    {
        proof {
            assert(nodes@.take(i + 1).drop_last() =~= nodes@.take(i as int));
            assert(nodes@.take(i + 1).last() == nodes@[i as int]);
        }
        if let Node::Stmt(Stmt::Binding(binding)) = nodes[i].node {
            if let Some(relation) = binding.relation {
                let _ = relations.insert(binding.binding_id, relation);
            }
        }
        i += 1;
    }
    assert(nodes@.take(i as int) =~= nodes@);
    relations
}

fn node_mentions<'a>(relations: &RelationTable, visit: Visit<'a>) -> (r: bool)
    ensures
        r == mentions_alias(relations@, visit),
{
    match visit.node {
        Node::Expr(expr, _) => match expr {
            Expr::Ident(_, Some(id), _, _) => relations.is_borrowed(*id),
            Expr::ReadPlace { source, .. } => relations.is_borrowed(source.root_binding_id()),
            Expr::Borrow { source, .. } => relations.is_borrowed(source.root_binding_id()),
            Expr::Refer { source, .. } => relations.is_borrowed(source.root_binding_id()),
            Expr::Move { source, .. } => relations.is_borrowed(source.root_binding_id()),
            _ => false,
        },
        _ => false,
    }
}

/// Whether evaluating the expression uses an alias.
pub fn expr_uses_borrowed_binding(expr: &Expr, relations: &RelationTable) -> (r: bool)
    ensures
        r == uses_alias(relations@, expr),
{
    let nodes = expr_nodes(
        Walk { every_callee: true, into_functions: false, value_first: false, subject_last: false },
        None,
        expr,
    );
    let mut i: usize = 0;
    while i < nodes.len()
        invariant
            i <= nodes.len(),
            nodes@ == walk_expr(use_walk(), None, expr, Position::Plain),
            forall|k: int| 0 <= k < i ==> !#[trigger] mentions_alias(relations@, nodes@[k]),
        decreases nodes.len() - i,
    {
        if node_mentions(relations, nodes[i]) {
            assert(mentions_alias(relations@, nodes@[i as int]));
            return true;
        }
        i += 1;
    }
    false
}

fn any_argument_uses(args: &Vec<CallArg>, relations: &RelationTable) -> (r: bool)
    ensures
        r == any_arg_uses(relations@, args@),
{
    let mut i: usize = 0;
    while i < args.len()
        invariant
            i <= args.len(),
            forall|k: int| 0 <= k < i ==> !#[trigger] uses_alias(relations@, &args@[k].value),
        decreases args.len() - i,
    {
        if expr_uses_borrowed_binding(&args[i].value, relations) {
            return true;
        }
        i += 1;
    }
    false
}

fn captures_alias(captures: &Vec<Capture>, relations: &RelationTable) -> (r: bool)
    ensures
        r == any_capture_is_alias(relations@, captures@),
{
    let mut i: usize = 0;
    while i < captures.len()
        invariant
            i <= captures.len(),
            forall|k: int| 0 <= k < i ==> !#[trigger] is_alias(relations@, captures@[k].binding_id),
        decreases captures.len() - i,
    {
        if relations.is_borrowed(captures[i].binding_id) {
            assert(is_alias(relations@, captures@[i as int].binding_id));
            return true;
        }
        i += 1;
    }
    false
}

fn is_alias_return(expr: &Expr) -> (r: bool)
    ensures
        r == returns_alias(*expr),
{
    match &expr.info().return_pass {
        Some(pass) => match **pass {
            ReturnPass::BorrowValue { .. } => true,
            _ => false,
        },
        None => false,
    }
}

fn is_alias_value(expr: &Expr) -> (r: bool)
    ensures
        r == produces_alias(*expr),
{
    match expr.category() {
        Some(ExprCategory::Value(ValueCategory::BorrowedValue)) => true,
        _ => false,
    }
}

fn position_takes_alias<'a>(position: Position<'a>, relations: &RelationTable) -> (r: bool)
    ensures
        r == takes_alias(relations@, position),
{
    match position {
        Position::Initial(binding) => match binding.relation {
            Some(relation) => relation == StorageRelation::Borrowed,
            None => false,
        },
        Position::Assigned(target) => match target {
            Place::Local { binding_id, .. } => relations.is_borrowed(*binding_id),
            _ => false,
        },
        Position::Returned(value) => is_alias_return(value),
        _ => false,
    }
}

fn validate_source(expr: &Expr, source: &Place, relations: &RelationTable) -> (r: AliasResult<()>)
    ensures
        fault_of(r) == source_fault(relations@, *expr, *source),
{
    let owned = match relations.get(source.root_binding_id()) {
        Some(relation) => relation == StorageRelation::Owning,
        None => false,
    };
    if !owned && !is_alias_return(expr) {
        return Err(error(expr.span(), "borrow source 必须根植于 owning local Place"));
    }
    Ok(())
}

/// Checks an expression in its position.
pub fn validate_expr<'a>(expr: &'a Expr, position: Position<'a>, relations: &RelationTable) -> (r:
    AliasResult<()>)
    ensures
        fault_of(r) == expr_fault(relations@, expr, position),
{
    if is_alias_value(expr) && !position_takes_alias(position, relations) {
        return Err(
            error(expr.span(), "BorrowedValue 只能初始化或重新绑定 local borrowed slot"),
        );
    }
    match expr {
        Expr::Borrow { source, .. } => validate_source(expr, source, relations),
        Expr::Refer { source, .. } => validate_source(expr, source, relations),
        Expr::FuncLit { captures, .. } => if captures_alias(captures, relations) {
            Err(
                error(
                    expr.span(),
                    "borrowed alias capture 缺少可固化的 referent loan generation",
                ),
            )
        } else {
            Ok(())
        },
        Expr::Call { args, target: CallTarget::FunctionValue, .. } => if any_argument_uses(
            args,
            relations,
        ) {
            Err(
                error(expr.span(), "borrowed argument 的 referent-loan forwarding 尚未解析"),
            )
        } else {
            Ok(())
        },
        Expr::MethodCall { recv, args, target: MethodTarget::User { .. }, .. } => if
        expr_uses_borrowed_binding(recv, relations) || any_argument_uses(args, relations) {
            Err(
                error(
                    expr.span(),
                    "borrowed receiver/argument 的 referent-loan forwarding 尚未解析",
                ),
            )
        } else {
            Ok(())
        },
        Expr::Match { subject, .. } => if expr_uses_borrowed_binding(subject, relations) {
            Err(
                error(subject.span(), "borrowed match subject 的跨 arm loan region 尚未解析"),
            )
        } else {
            Ok(())
        },
        _ => Ok(()),
    }
}

/// Checks a statement.
pub fn validate_stmt(stmt: &Stmt, relations: &RelationTable) -> (r: AliasResult<()>)
    ensures
        fault_of(r) == stmt_fault(relations@, stmt),
{
    match stmt {
        Stmt::Return { value: Some(value) } => if type_carries_dynamic_owner(value.ty())
            && expr_uses_borrowed_binding(value, relations) {
            Err(error(value.span(), "borrowed alias return 的 generation forwarding 尚未解析"))
        } else {
            Ok(())
        },
        Stmt::For { iterable, .. } => if expr_uses_borrowed_binding(iterable, relations) {
            Err(error(iterable.span(), "borrowed iterable 的完整循环 loan region 尚未解析"))
        } else {
            Ok(())
        },
        _ => Ok(()),
    }
}

/// An alias cannot become a part of something else.
pub open spec fn stored_fault(value: Expr) -> Option<ErrorView> {
    if produces_alias(value) {
        told(value.spec_span(), "BorrowedValue 只能初始化或重新绑定 local borrowed slot"@)
    } else {
        None
    }
}

/// Checks a value that becomes a part of something else.
pub fn validate_stored_value(value: &Expr) -> (r: AliasResult<()>)
    ensures
        fault_of(r) == stored_fault(*value),
{
    if is_alias_value(value) {
        return Err(
            error(value.span(), "BorrowedValue 只能初始化或重新绑定 local borrowed slot"),
        );
    }
    Ok(())
}

/// Checks that aliases are kept and passed only where they may be.
pub fn validate(program: &CheckedProgram) -> (r: AliasResult<()>)
    ensures
        fault_of(r) == first_fault(program_faults(program)),
{
    let relations = collect_relations(program);
    let ghost faults = program_faults(program);
    let ghost count = program.items@.len();
    let mut left: usize = program.items.len();
    while left > 0
        invariant
            left <= program.items.len(),
            count == program.items@.len(),
            faults == program_faults(program),
            forall|k: int| 0 <= k < count - left ==> (#[trigger] faults[k]) is None,
        decreases left,
    {
        left -= 1;
        let ghost k = count - 1 - left;
        assert(faults[k] == item_fault(program.items@[left as int]));
        if let Item::Binding(binding) = &program.items[left] {
            let alias = match binding.relation {
                Some(relation) => relation == StorageRelation::Borrowed,
                None => false,
            };
            if alias {
                proof {
                    lemma_first_fault_at(faults, k);
                }
                return Err(
                    error(binding.span, "borrowed binding 当前不能存入顶层/global storage"),
                );
            }
        }
    }
    let nodes = program_nodes(
        Walk { every_callee: true, into_functions: true, value_first: false, subject_last: false },
        program,
    );
    let mut i: usize = 0;
    while i < nodes.len()
        invariant
            i <= nodes.len(),
            count == program.items@.len(),
            nodes@ == program_walk(storage_walk(), program),
            relations@ == program_relations(program),
            faults == program_faults(program),
            forall|k: int| 0 <= k < count + i ==> (#[trigger] faults[k]) is None,
        decreases nodes.len() - i,
    {
        assert(faults[count + i] == visit_fault(relations@, nodes@[i as int]));
        let checked = match nodes[i].node {
            Node::Stmt(stmt) => validate_stmt(stmt, &relations),
            Node::Expr(expr, position) => validate_expr(expr, position, &relations),
            _ => Ok(()),
        };
        if let Err(error) = checked {
            proof {
                lemma_first_fault_at(faults, count + i);
            }
            return Err(error);
        }
        i += 1;
    }
    proof {
        lemma_no_fault(faults);
    }
    Ok(())
}

/// In a valid program an alias stands only where one may: as the initializer of an alias, as its
/// new value, or as what a function hands to its caller.
pub proof fn law_aliases_stand_in_place(program: &CheckedProgram, i: int)
    requires
        first_fault(program_faults(program)) is None,
        0 <= i < program_walk(storage_walk(), program).len(),
    ensures
        program_walk(storage_walk(), program)[i].node matches Node::Expr(expr, position) ==> (
        produces_alias(*expr) ==> takes_alias(program_relations(program), position)),
{
    let faults = program_faults(program);
    lemma_no_fault(faults);
    let count = program.items@.len();
    assert(faults[count + i] is None);
    assert(faults[count + i] == visit_fault(
        program_relations(program),
        program_walk(storage_walk(), program)[i],
    ));
}

/// In a valid program no slot outside all functions holds an alias.
pub proof fn law_no_global_alias(program: &CheckedProgram, i: int)
    requires
        first_fault(program_faults(program)) is None,
        0 <= i < program.items@.len(),
    ensures
        program.items@[i] matches Item::Binding(binding) ==> binding.relation != Some(
            StorageRelation::Borrowed,
        ),
{
    let faults = program_faults(program);
    lemma_no_fault(faults);
    let k = program.items@.len() - 1 - i;
    assert(faults[k] is None);
    assert(faults[k] == item_fault(program.items@[i]));
}

} // verus!
