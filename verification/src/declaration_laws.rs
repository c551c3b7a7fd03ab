//! What declarations say, and what the uses of a variable owe to its declaration.

use crate::{ast, binding_contract};
use crate::binding_contract::{
    Contracts, Declaration, Entry, contract_walk, declare, item_entries, no_contracts,
    program_contracts, program_entries, read_entries, use_faults, visit_entries,
};
use crate::checker_state::{ContextView, FieldInfoView, NotesMap, field_at, in_scope};
use crate::declarations::{
    DeclMap, declared_field, declared_fields, declared_params, declared_signature, declared_struct,
};
use crate::facts::found;
use crate::model::{Binding, CheckedProgram, Expr, Item, Place, Stmt};
use crate::typed::Env;
use crate::types::{BindingId, ErrorView, TyView, fits, lemma_no_fault, ty_name};
use crate::typing_laws::{goes_into, reserved};
use crate::visit::{Node, Visit, program_walk};
use crate::walk_laws::lemma_flattened;
use vstd::prelude::*;

verus! {

/// What is known of a variable after its declaration was read.
spec fn known_as(contracts: Contracts, declaration: Declaration) -> bool {
    &&& contracts.types.contains_key(declaration.id)
    &&& contracts.types[declaration.id] == declaration.ty
    &&& contracts.writable.contains(declaration.id) == declaration.writable
    &&& contracts.aliases.contains(declaration.id) == declaration.alias
}

/// Nothing is known of what was not declared.
spec fn in_step(contracts: Contracts) -> bool {
    forall|id: BindingId|
        !#[trigger] contracts.types.contains_key(id) ==> !contracts.writable.contains(id)
            && !contracts.aliases.contains(id)
}

proof fn lemma_kept(contracts: Contracts, entries: Seq<Entry>, declaration: Declaration)
    requires
        known_as(contracts, declaration),
        read_entries(contracts, entries) is Ok,
    ensures
        known_as(read_entries(contracts, entries)->Ok_0, declaration),
    decreases entries.len(),
{
    if entries.len() > 0 {
        if let Entry::Declare(other) = entries[0] {
            assert(other.id != declaration.id);
            lemma_kept(declare(contracts, other), entries.drop_first(), declaration);
        }
    }
}

proof fn lemma_read(contracts: Contracts, entries: Seq<Entry>, k: int)
    requires
        in_step(contracts),
        read_entries(contracts, entries) is Ok,
        0 <= k < entries.len(),
    ensures
        match entries[k] {
            Entry::Declare(declaration) => known_as(
                read_entries(contracts, entries)->Ok_0,
                declaration,
            ) && !declaration.ty.contains_unknown(),
            Entry::Broken(_) => false,
        },
    decreases entries.len(),
{
    if let Entry::Declare(first) = entries[0] {
        let next = declare(contracts, first);
        let rest = entries.drop_first();
        assert(in_step(next));
        if k == 0 {
            assert(!contracts.types.contains_key(first.id));
            assert(known_as(next, first));
            lemma_kept(next, rest, first);
        } else {
            assert(rest[k - 1] == entries[k]);
            lemma_read(next, rest, k - 1);
        }
    }
}

/// A node declares a variable by a statement of its own.
pub open spec fn declared_by<'a>(visit: Visit<'a>, binding: Binding) -> bool {
    match visit.node {
        Node::Stmt(stmt) => match *stmt {
            Stmt::Binding(own) => own == binding,
            _ => false,
        },
        _ => false,
    }
}

/// A node writes a whole variable: it assigns it.
pub open spec fn assigns<'a>(visit: Visit<'a>, id: BindingId) -> bool {
    match visit.node {
        Node::Stmt(stmt) => match *stmt {
            Stmt::Assign { target, .. } => match target {
                Place::Local { binding_id, .. } => binding_id == id,
                _ => false,
            },
            _ => false,
        },
        _ => false,
    }
}

proof fn lemma_node_entry<'a>(program: &'a CheckedProgram, j: int, e: int) -> (k: int)
    requires
        0 <= j < program_walk(contract_walk(), program).len(),
        0 <= e < visit_entries(program_walk(contract_walk(), program)[j]).len(),
    ensures
        0 <= k < program_entries(program).len(),
        program_entries(program)[k] == visit_entries(program_walk(contract_walk(), program)[j])[e],
{
    let nodes = program_walk(contract_walk(), program);
    let lists = nodes.map_values(|visit: Visit<'a>| visit_entries(visit));
    let first = program.items@.map_values(|item: Item| item_entries(item)).flatten();
    assert(lists[j] == visit_entries(nodes[j]));
    let k = lemma_flattened(lists, j, e);
    assert(program_entries(program)[first.len() + k] == lists.flatten()[k]);
    first.len() + k
}

proof fn lemma_item_entry<'a>(program: &'a CheckedProgram, j: int) -> (k: int)
    requires
        0 <= j < program.items@.len(),
        program.items@[j] is Binding,
    ensures
        0 <= k < program_entries(program).len(),
        program_entries(program)[k] == item_entries(program.items@[j])[0],
{
    let lists = program.items@.map_values(|item: Item| item_entries(item));
    assert(lists[j] == item_entries(program.items@[j]));
    let k = lemma_flattened(lists, j, 0);
    assert(program_entries(program)[k] == lists.flatten()[k]);
    k
}

/// In an accepted program only variables that are declared to vary are assigned, and every use of
/// a variable has a type that goes with its declaration.
pub proof fn law_only_declared_variables_vary<'a>(
    program: &'a CheckedProgram,
    i: int,
    j: int,
    binding: Binding,
)
    requires
        binding_contract::program_fault(program) is None,
        0 <= i < program_walk(contract_walk(), program).len(),
        0 <= j < program_walk(contract_walk(), program).len(),
        declared_by(program_walk(contract_walk(), program)[j], binding),
    ensures
        assigns(program_walk(contract_walk(), program)[i], binding.binding_id)
            ==> binding.kind is Var,
        program_walk(contract_walk(), program)[i].node matches Node::Expr(expr, _) ==> match *expr {
            Expr::Ident(_, id, _, _) => id == Some(binding.binding_id) ==> fits(
                binding.ty@,
                expr.tyv(),
            ),
            _ => true,
        },
        !binding.ty@.contains_unknown(),
{
    let nodes = program_walk(contract_walk(), program);
    let entries = program_entries(program);
    let contracts = program_contracts(program)->Ok_0;
    let k = lemma_node_entry(program, j, 0);
    lemma_read(no_contracts(), entries, k);
    let faults = use_faults(program, contracts);
    lemma_no_fault(faults);
    assert(faults[i] is None);
    assert(faults[i] == binding_contract::visit_fault(contracts, nodes[i]));
}

/// The same of a variable outside all functions.
pub proof fn law_only_declared_globals_vary<'a>(
    program: &'a CheckedProgram,
    i: int,
    j: int,
)
    requires
        binding_contract::program_fault(program) is None,
        0 <= i < program_walk(contract_walk(), program).len(),
        0 <= j < program.items@.len(),
    ensures
        program.items@[j] matches Item::Binding(binding) ==> {
            &&& assigns(program_walk(contract_walk(), program)[i], binding.binding_id)
                ==> binding.kind is Var
            &&& !binding.ty@.contains_unknown()
        },
{
    if program.items@[j] is Binding {
        let nodes = program_walk(contract_walk(), program);
        let entries = program_entries(program);
        let contracts = program_contracts(program)->Ok_0;
        let k = lemma_item_entry(program, j);
        lemma_read(no_contracts(), entries, k);
        let faults = use_faults(program, contracts);
        lemma_no_fault(faults);
        assert(faults[i] is None);
        assert(faults[i] == binding_contract::visit_fault(contracts, nodes[i]));
    }
}

/// The variable of a loop is never assigned, and it takes the elements of what it goes through.
pub proof fn law_loop_variables_take_elements<'a>(program: &'a CheckedProgram, i: int, j: int)
    requires
        binding_contract::program_fault(program) is None,
        0 <= i < program_walk(contract_walk(), program).len(),
        0 <= j < program_walk(contract_walk(), program).len(),
    ensures
        program_walk(contract_walk(), program)[j].node matches Node::Stmt(stmt) ==> match *stmt {
            Stmt::For { binding_id, ty, iterable, .. } => {
                &&& !assigns(program_walk(contract_walk(), program)[i], binding_id)
                &&& match iterable.tyv() {
                    TyView::Array(elem) => fits(*elem, ty@),
                    TyView::Iterator(elem) => fits(*elem, ty@),
                    _ => false,
                }
            },
            _ => true,
        },
{
    let nodes = program_walk(contract_walk(), program);
    if let Node::Stmt(stmt) = nodes[j].node {
        if let Stmt::For { .. } = *stmt {
            let entries = program_entries(program);
            let contracts = program_contracts(program)->Ok_0;
            let k = lemma_node_entry(program, j, 0);
            lemma_read(no_contracts(), entries, k);
            let faults = use_faults(program, contracts);
            lemma_no_fault(faults);
            assert(faults[i] is None && faults[j] is None);
            assert(faults[i] == binding_contract::visit_fault(contracts, nodes[i]));
            assert(faults[j] == binding_contract::visit_fault(contracts, nodes[j]));
        }
    }
}

/// A parameter is never assigned.
pub proof fn law_parameters_are_never_assigned<'a>(
    program: &'a CheckedProgram,
    i: int,
    j: int,
    p: int,
)
    requires
        binding_contract::program_fault(program) is None,
        0 <= i < program_walk(contract_walk(), program).len(),
        0 <= j < program_walk(contract_walk(), program).len(),
    ensures
        program_walk(contract_walk(), program)[j].node matches Node::Expr(expr, _) ==> match *expr {
            Expr::FuncLit { params, implicit_bindings, .. } => {
                &&& 0 <= p < params@.len() ==> !assigns(
                    program_walk(contract_walk(), program)[i],
                    params@[p].binding_id,
                )
                &&& 0 <= p < implicit_bindings@.len() ==> !assigns(
                    program_walk(contract_walk(), program)[i],
                    implicit_bindings@[p],
                )
            },
            _ => true,
        },
{
    let nodes = program_walk(contract_walk(), program);
    if let Node::Expr(expr, _) = nodes[j].node {
        if let Expr::FuncLit { params, implicit_bindings, .. } = *expr {
            let entries = program_entries(program);
            let contracts = program_contracts(program)->Ok_0;
            let faults = use_faults(program, contracts);
            lemma_no_fault(faults);
            assert(faults[i] is None);
            assert(faults[i] == binding_contract::visit_fault(contracts, nodes[i]));
            if visit_entries(nodes[j]).len() == 1 && visit_entries(nodes[j])[0] is Broken {
                let k = lemma_node_entry(program, j, 0);
                lemma_read(no_contracts(), entries, k);
            }
            let n = implicit_bindings@.len() as int;
            if 0 <= p < params@.len() {
                let k = lemma_node_entry(program, j, n + p);
                lemma_read(no_contracts(), entries, k);
                assert(visit_entries(nodes[j])[n + p] matches Entry::Declare(d) && d.id
                    == params@[p].binding_id && !d.writable);
            }
            if 0 <= p < n {
                let k = lemma_node_entry(program, j, p);
                lemma_read(no_contracts(), entries, k);
                assert(visit_entries(nodes[j])[p] matches Entry::Declare(d) && d.id
                    == implicit_bindings@[p] && !d.writable);
            }
        }
    }
}

/// A field is known as it is declared.
pub open spec fn known_field(cx: ContextView, field: ast::StructField, info: FieldInfoView) -> bool {
    &&& info.name == field.name@
    &&& info.mutable == field.mutable
    &&& info.has_default == field.default is Some
    &&& found(cx.slots, field.ty.id) == Some(Ok::<TyView, ErrorView>(info.ty))
}

proof fn lemma_absent(fields: Seq<FieldInfoView>, name: Seq<char>, from: int)
    requires
        0 <= from,
        field_at(fields, name, from) is None,
    ensures
        forall|f: int| from <= f < fields.len() ==> (#[trigger] fields[f]).name != name,
    decreases fields.len() - from,
{
    if from < fields.len() {
        lemma_absent(fields, name, from + 1);
        assert forall|f: int| from <= f < fields.len() implies (#[trigger] fields[f]).name != name by {
            if f > from {
                assert(fields[f].name != name);
            }
        }
    }
}

proof fn lemma_fields(
    cx: ContextView,
    owner: Seq<char>,
    fields: Seq<ast::StructField>,
    env: Env,
    decls: DeclMap,
    notes: NotesMap,
    upto: nat,
)
    requires
        upto <= fields.len(),
        declared_fields(cx, owner, fields, env, decls, notes, upto) is Ok,
    ensures
        ({
            let known = declared_fields(cx, owner, fields, env, decls, notes, upto)->Ok_0.fields;
            &&& known.len() == upto
            &&& forall|k: int| 0 <= k < upto ==> known_field(cx, #[trigger] fields[k], known[k])
            &&& forall|k: int|
                0 <= k < upto ==> ((#[trigger] fields[k]).default matches Some(value) ==> goes_into(
                    cx,
                    value,
                    env,
                    known[k].ty,
                ))
            &&& forall|a: int, b: int|
                0 <= a < b < upto ==> (#[trigger] known[a]).name != (#[trigger] known[b]).name
        }),
    decreases upto,
{
    if upto > 0 {
        let less = (upto - 1) as nat;
        let at = less as int;
        lemma_fields(cx, owner, fields, env, decls, notes, less);
        let before = declared_fields(cx, owner, fields, env, decls, notes, less)->Ok_0;
        let after = declared_fields(cx, owner, fields, env, decls, notes, upto)->Ok_0;
        let field = fields[at];
        assert(after == declared_field(cx, owner, field, env, before)->Ok_0);
        lemma_absent(before.fields, field.name@, 0);
        let ty = after.fields[at].ty;
        if let Some(value) = field.default {
            assert(crate::typed::typed_expected(cx, value, env, ty, before.notes) is Ok);
            assert(goes_into(cx, value, env, ty));
        }
        assert(forall|k: int| 0 <= k < less ==> after.fields[k] == before.fields[k]);
        assert forall|k: int| 0 <= k < upto implies known_field(
            cx,
            #[trigger] fields[k],
            after.fields[k],
        ) by {}
        assert forall|a: int, b: int| 0 <= a < b < upto implies (#[trigger] after.fields[a]).name
            != (#[trigger] after.fields[b]).name by {
            if b == at {
                assert(before.fields[a].name != field.name@);
            } else {
                assert(before.fields[a].name != before.fields[b].name);
            }
        }
    }
}

/// A struct is known as it is declared: with its fields in their order, each with its name, its
/// type and whether it can be written, no two of one name, and every default a value that goes
/// into its field. Its name means nothing else.
pub proof fn law_structs_are_known_as_declared(
    cx: ContextView,
    def: ast::StructDef,
    env: Env,
    decls: DeclMap,
    notes: NotesMap,
)
    requires
        declared_struct(cx, def, env, decls, notes) is Ok,
    ensures
        ({
            let known = declared_struct(cx, def, env, decls, notes)->Ok_0.fields;
            &&& known.len() == def.fields@.len()
            &&& forall|k: int|
                0 <= k < known.len() ==> known_field(cx, #[trigger] def.fields@[k], known[k])
            &&& forall|k: int|
                0 <= k < known.len() ==> ((#[trigger] def.fields@[k]).default matches Some(value)
                    ==> goes_into(cx, value, env, known[k].ty))
            &&& forall|a: int, b: int|
                0 <= a < b < known.len() ==> (#[trigger] known[a]).name != (
                #[trigger] known[b]).name
        }),
        !reserved(def.name@),
        in_scope(env, def.name@) is None,
{
    lemma_fields(cx, def.name@, def.fields@, env, decls, notes, def.fields@.len());
}

proof fn lemma_params(cx: ContextView, params: Seq<ast::Param>, upto: nat)
    requires
        upto <= params.len(),
        declared_params(cx, params, upto) is Ok,
    ensures
        declared_params(cx, params, upto)->Ok_0.len() == upto,
        forall|k: int|
            0 <= k < upto ==> !reserved((#[trigger] params[k]).name@) && found(
                cx.slots,
                params[k].ty.id,
            ) == Some(Ok::<TyView, ErrorView>(declared_params(cx, params, upto)->Ok_0[k])),
    decreases upto,
{
    if upto > 0 {
        let less = (upto - 1) as nat;
        lemma_params(cx, params, less);
        let before = declared_params(cx, params, less)->Ok_0;
        let after = declared_params(cx, params, upto)->Ok_0;
        assert(forall|k: int| 0 <= k < less ==> after[k] == before[k]);
    }
}

/// A method is known as it is declared: for its receiver, under its name, with its parameters in
/// their order and its result. No two methods of one receiver have the same name.
pub proof fn law_methods_are_known_as_declared(
    cx: ContextView,
    b: ast::Binding,
    recv: TyView,
    next_method: u32,
)
    requires
        declared_signature(cx, b, recv, next_method) is Ok,
    ensures
        ({
            let known = declared_signature(cx, b, recv, next_method)->Ok_0;
            &&& known.receiver == ty_name(recv)
            &&& known.name == b.name@
            &&& known.id.0 == next_method
            &&& found(cx.slots, b.ty.id) == Some(Ok::<TyView, ErrorView>(known.ret))
            &&& b.value.kind matches ast::ExprKind::FuncLit { params, .. } && known.params.len()
                == params@.len() && forall|k: int|
                0 <= k < params@.len() ==> !reserved((#[trigger] params@[k]).name@) && found(
                    cx.slots,
                    params@[k].ty.id,
                ) == Some(Ok::<TyView, ErrorView>(known.params[k]))
        }),
        crate::checker_state::user_method(cx.methods, ty_name(recv), b.name@) is None,
{
    if let ast::ExprKind::FuncLit { params, .. } = b.value.kind {
        lemma_params(cx, params@, params@.len());
    }
}

} // verus!
