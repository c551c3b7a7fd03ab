//! What holds of every node of a program that passed the checks.

use crate::{borrow_contract, capture_laws, typed_contract, validate};
use crate::borrow_contract::{
    any_capture_is_alias, node_relations, program_relations, storage_walk, uses_alias,
};
use crate::capture_laws::within;
use crate::model::{
    Binding, BindingOwner, CallArg, CallTarget, CheckedProgram, Expr, ExprCategory, Item,
    MethodTarget, Place, ResolvedConversion, Stmt, StorageRelation, StructField, ValueCategory,
    place_root,
};
use crate::return_laws::owns_storage;
use crate::typed_contract::{condition_faults, place_fault, typed_walk};
use crate::types::{BindingId, IntW, Span, TyView, first_fault, fits, lemma_no_fault};
use crate::typing_laws::{number, takes, yields};
use crate::validate::{reference_walk, struct_named};
use crate::visit::{Node, Position, Visit, program_walk};
use vstd::prelude::*;

verus! {

/// A value of one type may be converted to another.
pub open spec fn may_become(from: TyView, to: TyView) -> bool {
    (number(from) && number(to)) || (to == TyView::Str && from != TyView::Unknown && from
        != TyView::Unit)
}

/// The type of an expression goes with the types of its parts.
pub open spec fn well_typed(expr: Expr) -> bool {
    let ty = expr.tyv();
    match expr {
        Expr::Int(..) => ty is Int || ty is UInt,
        Expr::Float(..) => ty is Float,
        Expr::Bool(..) => ty is Bool,
        Expr::Str(..) => ty is Str,
        Expr::This(..) => ty is Func,
        Expr::Cast { expr: inner, .. } => may_become(inner.tyv(), ty),
        Expr::Convert { expr: inner, mode, .. } => match mode {
            ResolvedConversion::Identity => fits(inner.tyv(), ty),
            ResolvedConversion::Convert => may_become(inner.tyv(), ty),
        },
        Expr::Binary { op, lhs, rhs, .. } => {
            ||| lhs.tyv() is Unknown
            ||| rhs.tyv() is Unknown
            ||| lhs.tyv() == rhs.tyv() && takes(op, lhs.tyv()) && fits(yields(op, lhs.tyv()), ty)
        },
        Expr::Neg { expr: inner, .. } => (inner.tyv() is Int || inner.tyv() is Float) && fits(
            inner.tyv(),
            ty,
        ),
        Expr::Not { expr: inner, .. } => inner.tyv() is Bool && ty is Bool,
        Expr::BitNot { expr: inner, .. } => (inner.tyv() is Int || inner.tyv() is UInt) && fits(
            inner.tyv(),
            ty,
        ),
        Expr::Ternary { cond, then_expr, else_expr, .. } => cond.tyv() is Bool && fits(
            then_expr.tyv(),
            ty,
        ) && fits(else_expr.tyv(), ty),
        Expr::Index { recv, idx, .. } => match recv.tyv() {
            TyView::Array(elem) => idx.tyv() == TyView::Int(IntW::W32) && fits(*elem, ty),
            _ => false,
        },
        Expr::ArrayLit { elems, .. } => match ty {
            TyView::Array(elem) => forall|i: int|
                0 <= i < elems@.len() ==> fits(*elem, (#[trigger] elems@[i]).tyv()),
            _ => false,
        },
        Expr::Propagate { expr: inner, .. } => match inner.tyv() {
            TyView::Result(value, _) => fits(*value, ty),
            _ => false,
        },
        Expr::ReadPlace { source, .. } => fits(source.spec_info().ty@, ty),
        Expr::Borrow { source, .. } => fits(source.spec_info().ty@, ty),
        Expr::Move { source, .. } => fits(source.spec_info().ty@, ty) && *source is Local,
        _ => true,
    }
}

/// The type of a place goes with the types of what it is a part of.
pub open spec fn well_typed_place(place: Place) -> bool
    decreases place,
{
    &&& !place.spec_info().ty@.contains_unknown()
    &&& match place {
        Place::Local { .. } => true,
        Place::Field { base, .. } => base.spec_info().ty@ is Struct && well_typed_place(*base),
        Place::Index { base, index, .. } => match base.spec_info().ty@ {
            TyView::Array(elem) => index.tyv() == TyView::Int(IntW::W32) && fits(
                *elem,
                place.spec_info().ty@,
            ) && well_typed_place(*base),
            _ => false,
        },
    }
}

/// What is assigned goes into its place, and every condition is a bool.
pub open spec fn well_typed_stmt(stmt: Stmt) -> bool {
    match stmt {
        Stmt::Assign { target, value, .. } => well_typed_place(target) && fits(
            target.spec_info().ty@,
            value.tyv(),
        ),
        Stmt::If { branches, .. } => forall|i: int|
            0 <= i < branches@.len() ==> (#[trigger] branches@[i]).0.tyv() is Bool,
        Stmt::While { cond, .. } => cond.tyv() is Bool,
        _ => true,
    }
}

proof fn lemma_place_typed(place: Place)
    ensures
        place_fault(place) is None <==> well_typed_place(place),
    decreases place,
{
    match place {
        Place::Local { .. } => {},
        Place::Field { base, .. } => lemma_place_typed(*base),
        Place::Index { base, .. } => lemma_place_typed(*base),
    }
}

proof fn lemma_stmt_typed(stmt: Stmt)
    ensures
        typed_contract::stmt_fault(stmt) is None <==> well_typed_stmt(stmt),
{
    match stmt {
        Stmt::Assign { target, .. } => lemma_place_typed(target),
        Stmt::If { branches, .. } => {
            let faults = condition_faults(branches@);
            lemma_no_fault(faults);
            assert forall|i: int| 0 <= i < branches@.len() implies ((#[trigger] branches@[i]).0.tyv()
                is Bool <==> faults[i] is None) by {}
            if first_fault(faults) is None {
                assert forall|i: int| 0 <= i < branches@.len() implies (
                #[trigger] branches@[i]).0.tyv() is Bool by {
                    assert(faults[i] is None);
                }
            }
            if well_typed_stmt(stmt) {
                assert forall|k: int| 0 <= k < faults.len() implies (#[trigger] faults[k]) is None by {
                    assert(branches@[k].0.tyv() is Bool);
                }
            }
        },
        _ => {},
    }
}

/// A program passes the check of its types exactly when every expression and every statement in
/// it has types that go together.
pub proof fn law_checked_programs_are_well_typed<'a>(program: &'a CheckedProgram)
    ensures
        first_fault(typed_contract::program_faults(program)) is None <==> forall|i: int|
            0 <= i < program_walk(typed_walk(), program).len() ==> match (#[trigger] program_walk(
                typed_walk(),
                program,
            )[i]).node {
                Node::Expr(expr, _) => well_typed(*expr),
                Node::Stmt(stmt) => well_typed_stmt(*stmt),
                _ => true,
            },
{
    let nodes = program_walk(typed_walk(), program);
    let faults = typed_contract::program_faults(program);
    lemma_no_fault(faults);
    assert forall|i: int| 0 <= i < nodes.len() implies ((#[trigger] faults[i]) is None <==> match nodes[i].node {
        Node::Expr(expr, _) => well_typed(*expr),
        Node::Stmt(stmt) => well_typed_stmt(*stmt),
        _ => true,
    }) by {
        assert(faults[i] == typed_contract::visit_fault(nodes[i]));
        match nodes[i].node {
            Node::Stmt(stmt) => lemma_stmt_typed(*stmt),
            _ => {},
        }
    }
    if first_fault(faults) is None {
        assert forall|i: int| 0 <= i < nodes.len() implies match (#[trigger] nodes[i]).node {
            Node::Expr(expr, _) => well_typed(*expr),
            Node::Stmt(stmt) => well_typed_stmt(*stmt),
            _ => true,
        } by {
            assert(faults[i] is None);
        }
    } else {
        let i = choose|i: int| 0 <= i < faults.len() && !((#[trigger] faults[i]) is None);
        assert(nodes[i] == nodes[i]);
    }
}

/// The value is an alias, by what is recorded of it.
pub open spec fn recorded_alias(expr: Expr) -> bool {
    expr.spec_info().category == Some(ExprCategory::Value(ValueCategory::BorrowedValue))
}

/// The value is handed back as an alias.
pub open spec fn handed_back_as_alias(expr: Expr) -> bool {
    match expr.spec_info().return_pass {
        Some(pass) => *pass is BorrowValue,
        None => false,
    }
}

/// The variable is an alias, by what is recorded of the variables of a program.
pub open spec fn alias_variable(
    relations: Map<BindingId, StorageRelation>,
    id: BindingId,
) -> bool {
    relations.contains_key(id) && relations[id] is Borrowed
}

/// A place where an alias may stand: it starts or replaces an alias, or is handed back as one.
pub open spec fn alias_may_stand<'a>(
    relations: Map<BindingId, StorageRelation>,
    position: Position<'a>,
) -> bool {
    match position {
        Position::Initial(binding) => binding.relation == Some(StorageRelation::Borrowed),
        Position::Assigned(target) => match *target {
            Place::Local { binding_id, .. } => alias_variable(relations, binding_id),
            _ => false,
        },
        Position::Returned(value) => handed_back_as_alias(*value),
        Position::Plain => false,
        Position::Stored => false,
    }
}

/// In an accepted program no alias outlives what it stands for: it stands only where an alias may,
/// what is borrowed has an owner, and no function captures or is given an alias.
pub proof fn law_accepted_aliases_stay_in_place<'a>(program: &'a CheckedProgram, i: int)
    requires
        first_fault(borrow_contract::program_faults(program)) is None,
        0 <= i < program_walk(storage_walk(), program).len(),
    ensures
        match program_walk(storage_walk(), program)[i].node {
            Node::Expr(expr, position) => {
                let relations = program_relations(program);
                &&& recorded_alias(*expr) ==> alias_may_stand(relations, position)
                &&& match *expr {
                    Expr::Borrow { source, .. } => handed_back_as_alias(*expr) || (
                    relations.contains_key(within(*source)) && relations[within(
                        *source,
                    )] is Owning),
                    Expr::Refer { source, .. } => handed_back_as_alias(*expr) || (
                    relations.contains_key(within(*source)) && relations[within(
                        *source,
                    )] is Owning),
                    Expr::FuncLit { captures, .. } => forall|k: int|
                        0 <= k < captures@.len() ==> !alias_variable(
                            relations,
                            (#[trigger] captures@[k]).binding_id,
                        ),
                    Expr::Call { args, target: CallTarget::FunctionValue, .. } => forall|k: int|
                        0 <= k < args@.len() ==> !#[trigger] uses_alias(relations, &args@[k].value),
                    Expr::MethodCall {
                        recv,
                        args,
                        target: MethodTarget::User { .. },
                        ..
                    } => !uses_alias(relations, &*recv) && forall|k: int|
                        0 <= k < args@.len() ==> !#[trigger] uses_alias(relations, &args@[k].value),
                    Expr::Match { subject, .. } => !uses_alias(relations, &*subject),
                    _ => true,
                }
            },
            Node::Stmt(stmt) => {
                let relations = program_relations(program);
                match *stmt {
                    Stmt::Return { value: Some(value) } => owns_storage(value.tyv()) ==> !uses_alias(
                        relations,
                        &value,
                    ),
                    Stmt::For { iterable, .. } => !uses_alias(relations, &iterable),
                    _ => true,
                }
            },
            _ => true,
        },
        forall|k: int|
            0 <= k < program.items@.len() ==> match #[trigger] program.items@[k] {
                Item::Binding(binding) => binding.relation != Some(StorageRelation::Borrowed),
                Item::StructDef(_) => true,
            },
{
    let nodes = program_walk(storage_walk(), program);
    let relations = program_relations(program);
    let faults = borrow_contract::program_faults(program);
    let items = program.items@;
    let n = items.len() as int;
    lemma_no_fault(faults);
    assert(faults[n + i] is None);
    assert(faults[n + i] == borrow_contract::visit_fault(relations, nodes[i]));
    if let Node::Expr(expr, _) = nodes[i].node {
        match *expr {
            Expr::Borrow { source, .. } => lemma_within_root(*source),
            Expr::Refer { source, .. } => lemma_within_root(*source),
            Expr::FuncLit { captures, .. } => {
                assert(!any_capture_is_alias(relations, captures@));
                assert forall|k: int| 0 <= k < captures@.len() implies !alias_variable(
                    relations,
                    (#[trigger] captures@[k]).binding_id,
                ) by {
                    assert(!borrow_contract::is_alias(relations, captures@[k].binding_id));
                }
            },
            _ => {},
        }
    }
    assert forall|k: int| 0 <= k < n implies match #[trigger] items[k] {
        Item::Binding(binding) => binding.relation != Some(StorageRelation::Borrowed),
        Item::StructDef(_) => true,
    } by {
        assert(faults[n - 1 - k] is None);
        assert(faults[n - 1 - k] == borrow_contract::item_fault(items[k]));
    }
}

proof fn lemma_within_root(place: Place)
    ensures
        within(place) == place_root(place),
    decreases place,
{
    match place {
        Place::Local { .. } => {},
        Place::Field { base, .. } => lemma_within_root(*base),
        Place::Index { base, .. } => lemma_within_root(*base),
    }
}

/// A node declares a local variable with a relation to its storage.
pub open spec fn declares_as<'a>(
    visit: Visit<'a>,
    id: BindingId,
    relation: StorageRelation,
) -> bool {
    match visit.node {
        Node::Stmt(stmt) => match *stmt {
            Stmt::Binding(binding) => binding.binding_id == id && binding.relation == Some(
                relation,
            ),
            _ => false,
        },
        _ => false,
    }
}

proof fn lemma_relations<'a>(
    start: Map<BindingId, StorageRelation>,
    nodes: Seq<Visit<'a>>,
    k: int,
    id: BindingId,
    relation: StorageRelation,
)
    requires
        0 <= k < nodes.len(),
        declares_as(nodes[k], id, relation),
        forall|j: int, other: StorageRelation|
            k < j < nodes.len() ==> !#[trigger] declares_as(nodes[j], id, other),
    ensures
        node_relations(start, nodes).contains_key(id),
        node_relations(start, nodes)[id] == relation,
    decreases nodes.len(),
{
    if k < nodes.len() - 1 {
        let less = nodes.drop_last();
        assert(less[k] == nodes[k]);
        assert forall|j: int, other: StorageRelation|
            k < j < less.len() implies !#[trigger] declares_as(less[j], id, other) by {
            assert(less[j] == nodes[j]);
            assert(!declares_as(nodes[j], id, other));
        }
        lemma_relations(start, less, k, id, relation);
        let last = nodes.len() - 1;
        assert(!declares_as(nodes[last], id, StorageRelation::Owning));
        assert(!declares_as(nodes[last], id, StorageRelation::Borrowed));
    }
}

/// A local variable is known by the relation that it is declared with, the last time it is.
pub proof fn law_relations_are_those_declared<'a>(
    program: &'a CheckedProgram,
    k: int,
    id: BindingId,
    relation: StorageRelation,
)
    requires
        0 <= k < program_walk(storage_walk(), program).len(),
        declares_as(program_walk(storage_walk(), program)[k], id, relation),
        forall|j: int, other: StorageRelation|
            k < j < program_walk(storage_walk(), program).len() ==> !#[trigger] declares_as(
                program_walk(storage_walk(), program)[j],
                id,
                other,
            ),
    ensures
        program_relations(program).contains_key(id),
        program_relations(program)[id] == relation,
{
    lemma_relations(
        borrow_contract::item_relations(program.items@),
        program_walk(storage_walk(), program),
        k,
        id,
        relation,
    );
}

/// A node introduces a variable: as a local, a parameter, or a variable outside all functions; a
/// method also introduces what it is called on.
pub open spec fn introduces<'a>(visit: Visit<'a>, id: BindingId) -> bool {
    match visit.node {
        Node::Item(item) => match *item {
            Item::Binding(binding) => binding.binding_id == id || match binding.owner {
                BindingOwner::Method { self_id, .. } => self_id == id,
                _ => false,
            },
            Item::StructDef(_) => false,
        },
        _ => capture_laws::takes(visit, id) || capture_laws::declares(visit, id),
    }
}

/// Some node of a program introduces a variable.
pub open spec fn introduced(program: &CheckedProgram, id: BindingId) -> bool {
    exists|i: int|
        0 <= i < program_walk(reference_walk(), program).len() && introduces(
            #[trigger] program_walk(reference_walk(), program)[i],
            id,
        )
}

proof fn lemma_introduces<'a>(visit: Visit<'a>, id: BindingId)
    ensures
        introduces(visit, id) <==> validate::declares(visit, id),
{
    match visit.node {
        Node::Expr(expr, _) => match *expr {
            Expr::FuncLit { params, implicit_bindings, .. } => {
                if implicit_bindings@.contains(id) {
                    let k = choose|k: int|
                        0 <= k < implicit_bindings@.len() && implicit_bindings@[k] == id;
                    assert(implicit_bindings@[k] == id);
                }
                if exists|k: int|
                    0 <= k < implicit_bindings@.len() && #[trigger] implicit_bindings@[k] == id {
                    let k = choose|k: int|
                        0 <= k < implicit_bindings@.len() && #[trigger] implicit_bindings@[k] == id;
                    assert(implicit_bindings@.contains(id));
                }
            },
            _ => {},
        },
        _ => {},
    }
}

proof fn lemma_introduced(program: &CheckedProgram, id: BindingId)
    ensures
        introduced(program, id) <==> validate::declared(program, id),
{
    let nodes = program_walk(reference_walk(), program);
    if introduced(program, id) {
        let i = choose|i: int| 0 <= i < nodes.len() && introduces(#[trigger] nodes[i], id);
        lemma_introduces(nodes[i], id);
        assert(validate::declares(nodes[i], id));
    }
    if validate::declared(program, id) {
        let i = choose|i: int| 0 <= i < nodes.len() && validate::declares(#[trigger] nodes[i], id);
        lemma_introduces(nodes[i], id);
        assert(introduces(nodes[i], id));
    }
}

/// The declaration of a struct: the last with its name.
pub open spec fn declares_struct(items: Seq<Item>, name: Seq<char>, k: int) -> bool {
    &&& 0 <= k < items.len()
    &&& items[k] matches Item::StructDef(def) && def.name@ == name
    &&& forall|j: int|
        k < j < items.len() ==> !(#[trigger] items[j] matches Item::StructDef(def) && def.name@
            == name)
}

proof fn lemma_struct_named(items: Seq<Item>, name: Seq<char>) -> (k: int)
    requires
        struct_named(items, name) is Some,
    ensures
        declares_struct(items, name, k),
        items[k] == Item::StructDef(struct_named(items, name)->0),
    decreases items.len(),
{
    let last = items.len() - 1;
    match items.last() {
        Item::StructDef(def) if def.name@ == name => last,
        _ => {
            let less = items.drop_last();
            let k = lemma_struct_named(less, name);
            assert(less[k] == items[k]);
            assert forall|j: int| k < j < items.len() implies !(#[trigger] items[j] matches
                Item::StructDef(def) && def.name@ == name) by {
                if j < last {
                    assert(less[j] == items[j]);
                }
            }
            k
        },
    }
}

/// A struct is made of values for its fields: each argument for a field of its own, of the type of
/// the field, and none left out that has no default.
pub open spec fn well_made(
    fields: Seq<StructField>,
    args: Seq<CallArg>,
    indices: Seq<usize>,
) -> bool {
    &&& indices.len() == args.len()
    &&& forall|i: int|
        0 <= i < args.len() ==> indices[i] < fields.len() && fits(
            fields[indices[i] as int].ty@,
            (#[trigger] args[i]).value.tyv(),
        )
    &&& forall|i: int, j: int|
        0 <= i < j < indices.len() ==> #[trigger] indices[i] != #[trigger] indices[j]
    &&& forall|f: int|
        0 <= f < fields.len() && (#[trigger] fields[f]).default is None ==> exists|i: int|
            0 <= i < indices.len() && #[trigger] indices[i] == f
}

/// Every name of a resolved expression stands for something, and it has a settled type.
pub open spec fn resolved(program: &CheckedProgram, expr: Expr) -> bool {
    &&& !expr.tyv().contains_unknown()
    &&& match expr {
        Expr::Ident(_, id, _, _) => id matches Some(id) && introduced(program, id),
        Expr::Convert { expr: inner, mode, .. } => mode is Identity ==> inner.tyv() == expr.tyv(),
        Expr::Call { callee, args, target, .. } => match target {
            CallTarget::FunctionValue => !(*callee matches Expr::Ident(_, None, _, _)),
            CallTarget::StructConstructor { name, arg_field_indices } => *callee is Ident
                && exists|k: int| #[trigger]
                declares_struct(program.items@, name@, k) && match program.items@[k] {
                    Item::StructDef(def) => well_made(def.fields@, args@, arg_field_indices@),
                    _ => false,
                },
            _ => *callee is Ident,
        },
        Expr::MethodCall { target: MethodTarget::User { id, .. }, .. } => exists|k: int|
            0 <= k < program.items@.len() && match #[trigger] program.items@[k] {
                Item::Binding(binding) => match binding.owner {
                    BindingOwner::Method { method_id, .. } => method_id == id,
                    _ => false,
                },
                _ => false,
            },
        Expr::Field { recv, field_index, .. } => match recv.tyv() {
            TyView::Struct(name) => exists|k: int| #[trigger]
                declares_struct(program.items@, name, k) && match program.items@[k] {
                    Item::StructDef(def) => field_index < def.fields@.len() && fits(
                        def.fields@[field_index as int].ty@,
                        expr.tyv(),
                    ),
                    _ => false,
                },
            _ => false,
        },
        Expr::FuncLit { params, implicit_bindings, captures, .. } => {
            &&& forall|i: int|
                0 <= i < captures@.len() ==> introduced(
                    program,
                    (#[trigger] captures@[i]).binding_id,
                ) && !capture_laws::outside(program.items@, captures@[i].binding_id)
                    && !takes_in(expr, captures@[i].binding_id)
            &&& forall|i: int, j: int|
                0 <= i < j < captures@.len() ==> (#[trigger] captures@[i]).binding_id != (
                #[trigger] captures@[j]).binding_id
            &&& forall|i: int, j: int|
                0 <= i < j < params@.len() ==> (#[trigger] params@[i]).binding_id != (
                #[trigger] params@[j]).binding_id
        },
        Expr::Match { arms, .. } => forall|i: int|
            0 <= i < arms@.len() ==> ((#[trigger] arms@[i]).binding_id matches Some(id) ==> introduced(
                program,
                id,
            )),
        _ => true,
    }
}

/// The function has the variable as a parameter.
pub open spec fn takes_in(function: Expr, id: BindingId) -> bool {
    match function {
        Expr::FuncLit { params, .. } => exists|k: int|
            0 <= k < params@.len() && (#[trigger] params@[k]).binding_id == id,
        _ => false,
    }
}

proof fn lemma_made(
    fields: Seq<StructField>,
    args: Seq<CallArg>,
    indices: Seq<usize>,
    span: Span,
)
    requires
        indices.len() == args.len(),
        first_fault(validate::constructor_faults(fields, args, indices, span)) is None,
        validate::all_given(fields, indices),
    ensures
        well_made(fields, args, indices),
{
    let faults = validate::constructor_faults(fields, args, indices, span);
    lemma_no_fault(faults);
    assert forall|i: int| 0 <= i < args.len() implies indices[i] < fields.len() && fits(
        fields[indices[i] as int].ty@,
        (#[trigger] args[i]).value.tyv(),
    ) by {
        assert(faults[i] is None);
    }
    assert forall|i: int, j: int| 0 <= i < j < indices.len() implies #[trigger] indices[i]
        != #[trigger] indices[j] by {
        assert(faults[j] is None);
    }
}

proof fn lemma_function_resolved(program: &CheckedProgram, expr: Expr)
    requires
        expr is FuncLit,
        validate::expr_fault(program, expr) is None,
    ensures
        resolved(program, expr),
{
    if let Expr::FuncLit { params, implicit_bindings, captures, .. } = expr {
        let faults = validate::capture_faults(program, expr, captures@);
        lemma_no_fault(faults);
        assert forall|i: int| 0 <= i < captures@.len() implies introduced(
            program,
            (#[trigger] captures@[i]).binding_id,
        ) && !capture_laws::outside(program.items@, captures@[i].binding_id) && !takes_in(
            expr,
            captures@[i].binding_id,
        ) by {
            assert(faults[i] is None);
            let id = captures@[i].binding_id;
            lemma_introduced(program, id);
            if capture_laws::outside(program.items@, id) {
                let items = program.items@;
                let k = choose|k: int|
                    0 <= k < items.len() && match #[trigger] items[k] {
                        Item::Binding(binding) => !(binding.owner is Method) && binding.binding_id
                            == id,
                        Item::StructDef(_) => false,
                    };
                assert(validate::is_global(items, id));
            }
        }
        assert forall|i: int, j: int| 0 <= i < j < captures@.len() implies (
        #[trigger] captures@[i]).binding_id != (#[trigger] captures@[j]).binding_id by {
            assert(faults[j] is None);
        }
        let ids = validate::entry_ids(params@, implicit_bindings@);
        let entries = validate::entry_faults(ids, expr.spec_span());
        lemma_no_fault(entries);
        assert forall|i: int, j: int| 0 <= i < j < params@.len() implies (
        #[trigger] params@[i]).binding_id != (#[trigger] params@[j]).binding_id by {
            assert(entries[j] is None);
            assert(ids[i] == params@[i].binding_id && ids[j] == params@[j].binding_id);
        }
    }
}

proof fn lemma_resolved(program: &CheckedProgram, expr: Expr)
    requires
        validate::expr_fault(program, expr) is None,
    ensures
        resolved(program, expr),
{
    match expr {
        Expr::Ident(_, id, _, _) => {
            if id is Some {
                lemma_introduced(program, id->0);
            }
        },
        Expr::Call { args, target, .. } => match target {
            CallTarget::StructConstructor { name, arg_field_indices } => {
                let k = lemma_struct_named(program.items@, name@);
                let def = struct_named(program.items@, name@)->0;
                lemma_made(def.fields@, args@, arg_field_indices@, expr.spec_span());
                assert(declares_struct(program.items@, name@, k));
            },
            _ => {},
        },
        Expr::MethodCall { target: MethodTarget::User { id, .. }, .. } => {
            let items = program.items@;
            let k = choose|k: int|
                0 <= k < items.len() && (#[trigger] items[k] matches Item::Binding(binding)
                    && binding.owner matches BindingOwner::Method { method_id, .. } && method_id
                    == id);
            assert(items[k] is Binding);
        },
        Expr::Field { recv, .. } => {
            if let TyView::Struct(name) = recv.tyv() {
                let k = lemma_struct_named(program.items@, name);
                assert(declares_struct(program.items@, name, k));
            }
        },
        Expr::FuncLit { .. } => lemma_function_resolved(program, expr),
        Expr::Match { arms, .. } => {
            let faults = validate::arm_faults(program, arms@);
            lemma_no_fault(faults);
            assert forall|i: int| 0 <= i < arms@.len() implies ((
            #[trigger] arms@[i]).binding_id matches Some(id) ==> introduced(program, id)) by {
                let n = arms@.len() - 1;
                assert(faults[n - i] is None);
                assert(arms@.reverse()[n - i] == arms@[i]);
                if let Some(id) = arms@[i].binding_id {
                    lemma_introduced(program, id);
                }
            }
        },
        _ => {},
    }
}

/// In a program whose references hold, every name stands for something that the program
/// introduces, every type is settled, every struct is made of values for its fields, and every
/// function captures what is not its own.
pub proof fn law_references_stand_for_something<'a>(program: &'a CheckedProgram, i: int)
    requires
        validate::program_fault(program) is None,
        0 <= i < program_walk(reference_walk(), program).len(),
    ensures
        introduced(program, program.main_id),
        match program_walk(reference_walk(), program)[i].node {
            Node::Expr(expr, _) => resolved(program, *expr),
            Node::Stmt(stmt) => match *stmt {
                Stmt::Assign { target, .. } => introduced(program, within(target)),
                Stmt::For { binding_id, ty, .. } => introduced(program, binding_id)
                    && !ty@.contains_unknown(),
                _ => true,
            },
            _ => true,
        },
{
    let nodes = program_walk(reference_walk(), program);
    let faults = validate::node_faults(program);
    lemma_introduced(program, program.main_id);
    lemma_no_fault(faults);
    assert(faults[i] is None);
    assert(faults[i] == validate::visit_fault(program, nodes[i]));
    match nodes[i].node {
        Node::Expr(expr, _) => lemma_resolved(program, *expr),
        Node::Stmt(stmt) => match *stmt {
            Stmt::Assign { target, .. } => {
                lemma_within_root(target);
                lemma_introduced(program, within(target));
            },
            Stmt::For { binding_id, .. } => lemma_introduced(program, binding_id),
            _ => {},
        },
        _ => {},
    }
}

} // verus!
