//! Every variable has one declaration with one type, and every use agrees with it.

use crate::ids::IdSet;
use crate::model::{
    BindKind, Binding, BuiltinCall, CallTarget, CheckedProgram, CtorKind, Expr, Item, MatchArm,
    Param, Pattern, Place, Stmt, StorageRelation,
};
use crate::typed_contract::rule;
use crate::types::{
    AliasResult, BindingId, ErrorView, Span, Ty, TyView, binding_text, broken_at, broken_invariant,
    fault_of, first_fault, fits, lemma_first_fault_at, lemma_no_fault, ty_views, types_match,
    with_binding,
};
use crate::visit::{Node, Visit, Walk, lemma_flatten_add, program_nodes, program_walk};
use std::collections::HashMap;
use vstd::prelude::*;

verus! {

/// One declaration: a variable, its type, whether it may be assigned, whether it is an alias,
/// and where it stands.
pub struct Declaration {
    pub id: BindingId,
    pub ty: TyView,
    pub writable: bool,
    pub alias: bool,
    pub span: Span,
}

/// What a list of declarations adds up to: the declared variables with their types, those that
/// may be assigned, and those that are aliases.
pub struct Contracts {
    pub types: Map<BindingId, TyView>,
    pub writable: Set<BindingId>,
    pub aliases: Set<BindingId>,
}

pub open spec fn no_contracts() -> Contracts {
    Contracts { types: Map::empty(), writable: Set::empty(), aliases: Set::empty() }
}

/// One step of reading a program: a declaration, or a node that cannot be read.
pub enum Entry {
    Declare(Declaration),
    Broken(ErrorView),
}

/// What is wrong with a declaration, given the earlier ones.
pub open spec fn declaration_fault(contracts: Contracts, declaration: Declaration) -> Option<
    ErrorView,
> {
    if declaration.ty.contains_unknown() {
        Some(
            broken_at(
                declaration.span,
                "BindingId "@ + binding_text(declaration.id) + " 类型未确定"@,
            ),
        )
    } else {
        rule(
            !contracts.types.contains_key(declaration.id),
            declaration.span,
            "BindingId 重复 "@ + binding_text(declaration.id) + ""@,
        )
    }
}

pub open spec fn declare(contracts: Contracts, declaration: Declaration) -> Contracts {
    Contracts {
        types: contracts.types.insert(declaration.id, declaration.ty),
        writable: if declaration.writable {
            contracts.writable.insert(declaration.id)
        } else {
            contracts.writable
        },
        aliases: if declaration.alias {
            contracts.aliases.insert(declaration.id)
        } else {
            contracts.aliases
        },
    }
}

/// Reads entries in order, up to the first that is wrong.
pub open spec fn read_entries(contracts: Contracts, entries: Seq<Entry>) -> Result<
    Contracts,
    ErrorView,
>
    decreases entries.len(),
{
    if entries.len() == 0 {
        Ok(contracts)
    } else {
        match entries[0] {
            Entry::Broken(error) => Err(error),
            Entry::Declare(declaration) => match declaration_fault(contracts, declaration) {
                Some(error) => Err(error),
                None => read_entries(declare(contracts, declaration), entries.drop_first()),
            },
        }
    }
}

/// The type that a pattern gives to the variable it binds, if it binds one.
pub open spec fn pattern_type(subject: TyView, pattern: Pattern) -> Result<
    Option<TyView>,
    ErrorView,
> {
    match pattern {
        Pattern::Binding { .. } => Ok(Some(subject)),
        Pattern::Constructor { ctor, binding, span } => match subject {
            TyView::Result(ok, err) => if binding is None {
                Ok(None)
            } else {
                Ok(
                    Some(
                        match ctor {
                            CtorKind::OkCtor => *ok,
                            CtorKind::ErrCtor => *err,
                        },
                    ),
                )
            },
            _ => Err(broken_at(span, "result 构造器 Pattern 的主语类型不是 result"@)),
        },
        _ => Ok(None),
    }
}

/// The entry that one arm of a match makes, if it makes one.
pub open spec fn arm_entry(subject: TyView, arm: MatchArm) -> Option<Entry> {
    let span = arm.pattern.spec_span();
    match pattern_type(subject, arm.pattern) {
        Err(error) => Some(Entry::Broken(error)),
        Ok(expected) => match (arm.binding_id, expected) {
            (Some(id), Some(ty)) => Some(
                Entry::Declare(Declaration { id, ty, writable: false, alias: false, span }),
            ),
            (Some(_), None) => Some(
                Entry::Broken(broken_at(span, "不创建绑定的 Pattern 却携带 BindingId"@)),
            ),
            (None, Some(_)) => Some(
                Entry::Broken(broken_at(span, "创建绑定的 Pattern 缺少 BindingId"@)),
            ),
            (None, None) => None,
        },
    }
}

pub open spec fn listed(entry: Option<Entry>) -> Seq<Entry> {
    match entry {
        Some(entry) => seq![entry],
        None => Seq::empty(),
    }
}

pub open spec fn arm_entries(subject: TyView, arms: Seq<MatchArm>) -> Seq<Entry>
    decreases arms.len(),
{
    if arms.len() == 0 {
        Seq::empty()
    } else {
        listed(arm_entry(subject, arms[0])) + arm_entries(subject, arms.drop_first())
    }
}

pub open spec fn implicit_entries(ids: Seq<BindingId>, types: Seq<TyView>, span: Span) -> Seq<
    Entry,
> {
    Seq::new(
        ids.len(),
        |i: int|
            Entry::Declare(Declaration { id: ids[i], ty: types[i], writable: false, alias: false, span }),
    )
}

pub open spec fn param_entries(params: Seq<Param>, span: Span) -> Seq<Entry> {
    params.map_values(
        |param: Param|
            Entry::Declare(
                Declaration { id: param.binding_id, ty: param.ty@, writable: false, alias: false, span },
            ),
    )
}

/// The entries that one node makes.
pub open spec fn visit_entries<'a>(visit: Visit<'a>) -> Seq<Entry> {
    match visit.node {
        Node::Expr(expr, _) => match *expr {
            Expr::FuncLit { params, implicit_bindings, .. } => match expr.tyv() {
                TyView::Func { params: signature, .. } => if signature.len()
                    != implicit_bindings@.len() + params@.len() {
                    seq![
                        Entry::Broken(
                            broken_at(
                                expr.spec_span(),
                                "FuncLit 参数数量与完整函数类型不一致"@,
                            ),
                        ),
                    ]
                } else {
                    implicit_entries(implicit_bindings@, signature, expr.spec_span())
                        + param_entries(params@, expr.spec_span())
                },
                _ => seq![
                    Entry::Broken(broken_at(expr.spec_span(), "FuncLit 缺少完整函数类型"@)),
                ],
            },
            Expr::Match { subject, arms, .. } => arm_entries(subject.tyv(), arms@),
            _ => Seq::empty(),
        },
        Node::Stmt(stmt) => match *stmt {
            Stmt::Binding(binding) => seq![
                Entry::Declare(
                    Declaration {
                        id: binding.binding_id,
                        ty: binding.ty@,
                        writable: binding.kind is Var,
                        alias: binding.relation == Some(StorageRelation::Borrowed),
                        span: binding.span,
                    },
                ),
            ],
            Stmt::For { binding_id, ty, span, .. } => seq![
                Entry::Declare(
                    Declaration { id: binding_id, ty: ty@, writable: false, alias: false, span },
                ),
            ],
            _ => Seq::empty(),
        },
        _ => Seq::empty(),
    }
}

pub open spec fn item_entries(item: Item) -> Seq<Entry> {
    match item {
        Item::Binding(binding) => seq![
            Entry::Declare(
                Declaration {
                    id: binding.binding_id,
                    ty: binding.ty@,
                    writable: binding.kind is Var,
                    alias: binding.relation == Some(StorageRelation::Borrowed),
                    span: binding.span,
                },
            ),
        ],
        Item::StructDef(_) => Seq::empty(),
    }
}

pub open spec fn contract_walk() -> Walk {
    Walk { every_callee: false, into_functions: true, value_first: false, subject_last: false }
}

/// Everything a program declares: first the top-level variables, then all others in the order
/// of the walk.
pub open spec fn program_entries<'a>(program: &'a CheckedProgram) -> Seq<Entry> {
    program.items@.map_values(|item: Item| item_entries(item)).flatten() + program_walk(
        contract_walk(),
        program,
    ).map_values(|visit: Visit<'a>| visit_entries(visit)).flatten()
}

/// The declared variables of a program, or the first declaration that is wrong.
pub open spec fn program_contracts(program: &CheckedProgram) -> Result<Contracts, ErrorView> {
    read_entries(no_contracts(), program_entries(program))
}

proof fn lemma_read_add(contracts: Contracts, a: Seq<Entry>, b: Seq<Entry>)
    ensures
        read_entries(contracts, a + b) == match read_entries(contracts, a) {
            Ok(middle) => read_entries(middle, b),
            Err(error) => Err(error),
        },
    decreases a.len(),
{
    if a.len() == 0 {
        assert(a + b =~= b);
    } else {
        assert((a + b).drop_first() =~= a.drop_first() + b);
        match a[0] {
            Entry::Broken(_) => {},
            Entry::Declare(declaration) => {
                if declaration_fault(contracts, declaration) is None {
                    lemma_read_add(declare(contracts, declaration), a.drop_first(), b);
                }
            },
        }
    }
}

/// The declared variables with their types, those that may be assigned, and the aliases.
pub struct ContractTable {
    pub types: HashMap<u32, Ty>,
    pub writable: IdSet,
    pub aliases: IdSet,
}

impl View for ContractTable {
    type V = Contracts;

    open spec fn view(&self) -> Contracts {
        Contracts {
            types: Map::new(
                |id: BindingId| self.types@.contains_key(id.0),
                |id: BindingId| self.types@[id.0]@,
            ),
            writable: self.writable@,
            aliases: self.aliases@,
        }
    }
}

impl ContractTable {
    fn new() -> (r: ContractTable)
        ensures
            r@ == no_contracts(),
    {
        broadcast use vstd::std_specs::hash::group_hash_axioms;

        let r = ContractTable {
            types: HashMap::new(),
            writable: IdSet::new(),
            aliases: IdSet::new(),
        };
        assert(r@.types =~= Map::empty());
        r
    }

    /// The declared type of a variable.
    pub fn get(&self, id: BindingId) -> (r: Option<&Ty>)
        ensures
            match r {
                Some(ty) => self@.types.contains_key(id) && self@.types[id] == ty@,
                None => !self@.types.contains_key(id),
            },
    {
        broadcast use vstd::std_specs::hash::group_hash_axioms;

        self.types.get(&id.0)
    }
}

/// Adds a declaration. A declaration with an open type is not taken in; one of a variable that
/// is declared already is an error too, and its type is the one that is kept.
pub fn register(contracts: &mut ContractTable, id: BindingId, ty: &Ty, span: Span) -> (r:
    AliasResult<()>)
    ensures
        ({
            let declaration = Declaration { id, ty: ty@, writable: false, alias: false, span };
            &&& fault_of(r) == declaration_fault(old(contracts)@, declaration)
            &&& final(contracts)@ == if ty@.contains_unknown() {
                old(contracts)@
            } else {
                declare(old(contracts)@, declaration)
            }
        }),
{
    broadcast use vstd::std_specs::hash::group_hash_axioms;

    if ty.contains_unknown() {
        let text = with_binding("BindingId ", id, " 类型未确定");
        return Err(broken_invariant(span, text.as_str()));
    }
    let known = contracts.types.insert(id.0, ty.clone());
    assert(contracts@.types =~= old(contracts)@.types.insert(id, ty@));
    if known.is_some() {
        let text = with_binding("BindingId 重复 ", id, "");
        return Err(broken_invariant(span, text.as_str()));
    }
    Ok(())
}

/// Adds the declaration that a binding makes.
fn register_binding(contracts: &mut ContractTable, binding: &Binding) -> (r: AliasResult<()>)
    ensures
        ({
            let declaration = Declaration {
                id: binding.binding_id,
                ty: binding.ty@,
                writable: binding.kind is Var,
                alias: binding.relation == Some(StorageRelation::Borrowed),
                span: binding.span,
            };
            match declaration_fault(old(contracts)@, declaration) {
                Some(error) => fault_of(r) == Some(error),
                None => r is Ok && final(contracts)@ == declare(old(contracts)@, declaration),
            }
        }),
{
    match register(contracts, binding.binding_id, &binding.ty, binding.span) {
        Ok(_) => {},
        Err(error) => {
            return Err(error);
        },
    }
    if matches!(binding.kind, BindKind::Var) {
        let _ = contracts.writable.insert(binding.binding_id);
    }
    if matches!(binding.relation, Some(StorageRelation::Borrowed)) {
        let _ = contracts.aliases.insert(binding.binding_id);
    }
    Ok(())
}

/// The type that a pattern gives to the variable it binds, if it binds one.
pub fn pattern_binding_ty(subject: &Ty, pattern: &Pattern) -> (r: AliasResult<Option<Ty>>)
    ensures
        match pattern_type(subject@, *pattern) {
            Err(error) => fault_of(r) == Some(error),
            Ok(None) => r matches Ok(None),
            Ok(Some(ty)) => r matches Ok(Some(found)) && found@ == ty,
        },
{
    match pattern {
        Pattern::Binding { .. } => Ok(Some(subject.clone())),
        Pattern::Constructor { ctor, binding, span } => match subject {
            Ty::Result(ok, err) => {
                if binding.is_none() {
                    return Ok(None);
                }
                Ok(
                    Some(
                        match ctor {
                            CtorKind::OkCtor => (&**ok).clone(),
                            CtorKind::ErrCtor => (&**err).clone(),
                        },
                    ),
                )
            },
            _ => Err(broken_invariant(*span, "result 构造器 Pattern 的主语类型不是 result")),
        },
        Pattern::Wildcard { .. }
        | Pattern::Int { .. }
        | Pattern::Bool { .. }
        | Pattern::Str { .. } => Ok(None),
    }
}

/// What reading entries does to a table.
pub open spec fn reads(
    before: Contracts,
    entries: Seq<Entry>,
    result: AliasResult<()>,
    after: Contracts,
) -> bool {
    match read_entries(before, entries) {
        Ok(contracts) => result is Ok && after == contracts,
        Err(error) => fault_of(result) == Some(error),
    }
}

proof fn lemma_read_one(contracts: Contracts, declaration: Declaration)
    ensures
        read_entries(contracts, seq![Entry::Declare(declaration)]) == match declaration_fault(
            contracts,
            declaration,
        ) {
            Some(error) => Err::<Contracts, ErrorView>(error),
            None => Ok(declare(contracts, declaration)),
        },
{
    reveal_with_fuel(read_entries, 2);
    assert(seq![Entry::Declare(declaration)].drop_first() =~= Seq::<Entry>::empty());
}

fn read_implicit(
    contracts: &mut ContractTable,
    ids: &Vec<BindingId>,
    types: &Vec<Ty>,
    span: Span,
) -> (r: AliasResult<()>)
    requires
        ids.len() <= types.len(),
    ensures
        reads(
            old(contracts)@,
            implicit_entries(ids@, ty_views(types@), span),
            r,
            final(contracts)@,
        ),
{
    let ghost entries = implicit_entries(ids@, ty_views(types@), span);
    let mut i: usize = 0;
    assert(entries.subrange(0, 0) =~= Seq::<Entry>::empty());
    while i < ids.len()
        invariant
            i <= ids.len() <= types.len(),
            entries == implicit_entries(ids@, ty_views(types@), span),
            read_entries(old(contracts)@, entries.subrange(0, i as int)) == Ok::<
                Contracts,
                ErrorView,
            >(contracts@),
        decreases ids.len() - i,
    {
        let ghost before = contracts@;
        proof {
            assert(entries.subrange(0, i + 1) =~= entries.subrange(0, i as int) + seq![
                entries[i as int],
            ]);
            lemma_read_add(
                old(contracts)@,
                entries.subrange(0, i as int),
                seq![entries[i as int]],
            );
            lemma_read_one(before, entries[i as int]->Declare_0);
            assert(entries =~= entries.subrange(0, i + 1) + entries.subrange(
                i + 1,
                entries.len() as int,
            ));
            lemma_read_add(
                old(contracts)@,
                entries.subrange(0, i + 1),
                entries.subrange(i + 1, entries.len() as int),
            );
        }
        match register(contracts, ids[i], &types[i], span) {
            Ok(_) => {},
            Err(error) => {
                return Err(error);
            },
        }
        i += 1;
    }
    assert(entries.subrange(0, i as int) =~= entries);
    Ok(())
}

fn read_params(contracts: &mut ContractTable, params: &Vec<Param>, span: Span) -> (r: AliasResult<
    (),
>)
    ensures
        reads(old(contracts)@, param_entries(params@, span), r, final(contracts)@),
{
    let ghost entries = param_entries(params@, span);
    let mut i: usize = 0;
    assert(entries.subrange(0, 0) =~= Seq::<Entry>::empty());
    while i < params.len()
        invariant
            i <= params.len(),
            entries == param_entries(params@, span),
            read_entries(old(contracts)@, entries.subrange(0, i as int)) == Ok::<
                Contracts,
                ErrorView,
            >(contracts@),
        decreases params.len() - i,
    {
        let ghost before = contracts@;
        proof {
            assert(entries.subrange(0, i + 1) =~= entries.subrange(0, i as int) + seq![
                entries[i as int],
            ]);
            lemma_read_add(
                old(contracts)@,
                entries.subrange(0, i as int),
                seq![entries[i as int]],
            );
            lemma_read_one(before, entries[i as int]->Declare_0);
            assert(entries =~= entries.subrange(0, i + 1) + entries.subrange(
                i + 1,
                entries.len() as int,
            ));
            lemma_read_add(
                old(contracts)@,
                entries.subrange(0, i + 1),
                entries.subrange(i + 1, entries.len() as int),
            );
        }
        match register(contracts, params[i].binding_id, &params[i].ty, span) {
            Ok(_) => {},
            Err(error) => {
                return Err(error);
            },
        }
        i += 1;
    }
    assert(entries.subrange(0, i as int) =~= entries);
    Ok(())
}

fn read_arm(contracts: &mut ContractTable, subject: &Ty, arm: &MatchArm) -> (r: AliasResult<()>)
    ensures
        reads(old(contracts)@, listed(arm_entry(subject@, *arm)), r, final(contracts)@),
{
    let span = arm.pattern.span();
    let expected = match pattern_binding_ty(subject, &arm.pattern) {
        Ok(expected) => expected,
        Err(error) => {
            return Err(error);
        },
    };
    match (arm.binding_id, expected) {
        (Some(id), Some(ty)) => {
            proof {
                lemma_read_one(
                    contracts@,
                    Declaration { id, ty: ty@, writable: false, alias: false, span },
                );
            }
            register(contracts, id, &ty, span)
        },
        (Some(_), None) => Err(broken_invariant(span, "不创建绑定的 Pattern 却携带 BindingId")),
        (None, Some(_)) => Err(broken_invariant(span, "创建绑定的 Pattern 缺少 BindingId")),
        (None, None) => Ok(()),
    }
}

fn read_arms(contracts: &mut ContractTable, subject: &Ty, arms: &Vec<MatchArm>) -> (r: AliasResult<
    (),
>)
    ensures
        reads(old(contracts)@, arm_entries(subject@, arms@), r, final(contracts)@),
{
    let ghost entries = arm_entries(subject@, arms@);
    let mut i: usize = 0;
    assert(arms@.subrange(0, arms@.len() as int) =~= arms@);
    while i < arms.len()
        invariant
            i <= arms.len(),
            entries == arm_entries(subject@, arms@),
            read_entries(old(contracts)@, entries) == read_entries(
                contracts@,
                arm_entries(subject@, arms@.subrange(i as int, arms@.len() as int)),
            ),
        decreases arms.len() - i,
    {
        proof {
            let rest = arms@.subrange(i as int, arms@.len() as int);
            assert(rest[0] == arms@[i as int]);
            assert(rest.drop_first() =~= arms@.subrange(i + 1, arms@.len() as int));
            lemma_read_add(
                contracts@,
                listed(arm_entry(subject@, arms@[i as int])),
                arm_entries(subject@, rest.drop_first()),
            );
        }
        match read_arm(contracts, subject, &arms[i]) {
            Ok(_) => {},
            Err(error) => {
                return Err(error);
            },
        }
        i += 1;
    }
    assert(arms@.subrange(i as int, arms@.len() as int) =~= Seq::<MatchArm>::empty());
    Ok(())
}

fn read_visit<'a>(contracts: &mut ContractTable, visit: Visit<'a>) -> (r: AliasResult<()>)
    ensures
        reads(old(contracts)@, visit_entries(visit), r, final(contracts)@),
{
    match visit.node {
        Node::Expr(expr, _) => match expr {
            Expr::FuncLit { params, implicit_bindings, .. } => match expr.ty() {
                Ty::Func { params: signature, .. } => {
                    assert(expr.tyv()->params =~= ty_views(signature@));
                    if signature.len() < params.len() || signature.len() - params.len()
                        != implicit_bindings.len() {
                        return Err(
                            broken_invariant(
                                expr.span(),
                                "FuncLit 参数数量与完整函数类型不一致",
                            ),
                        );
                    }
                    proof {
                        lemma_read_add(
                            contracts@,
                            implicit_entries(
                                implicit_bindings@,
                                ty_views(signature@),
                                expr.spec_span(),
                            ),
                            param_entries(params@, expr.spec_span()),
                        );
                    }
                    match read_implicit(contracts, implicit_bindings, signature, expr.span()) {
                        Ok(_) => {},
                        Err(error) => {
                            return Err(error);
                        },
                    }
                    read_params(contracts, params, expr.span())
                },
                _ => Err(broken_invariant(expr.span(), "FuncLit 缺少完整函数类型")),
            },
            Expr::Match { subject, arms, .. } => read_arms(contracts, subject.ty(), arms),
            _ => Ok(()),
        },
        Node::Stmt(stmt) => match stmt {
            Stmt::Binding(binding) => {
                proof {
                    lemma_read_one(contracts@, visit_entries(visit)[0]->Declare_0);
                }
                register_binding(contracts, binding)
            },
            Stmt::For { binding_id, ty, span, .. } => {
                proof {
                    lemma_read_one(contracts@, visit_entries(visit)[0]->Declare_0);
                }
                register(contracts, *binding_id, ty, *span)
            },
            _ => Ok(()),
        },
        _ => Ok(()),
    }
}

/// Collects the declared variables of a program.
pub fn collect_contracts<'a>(program: &'a CheckedProgram) -> (r: AliasResult<ContractTable>)
    ensures
        match program_contracts(program) {
            Ok(contracts) => r is Ok && r->Ok_0@ == contracts,
            Err(error) => fault_of(r) == Some(error),
        },
{
    let mut contracts = ContractTable::new();
    let nodes = program_nodes(
        Walk { every_callee: false, into_functions: true, value_first: false, subject_last: false },
        program,
    );
    let ghost tops = program.items@.map_values(|item: Item| item_entries(item));
    let ghost lists = nodes@.map_values(|visit: Visit<'a>| visit_entries(visit));
    let ghost all = tops + lists;
    proof {
        lemma_flatten_add(tops, lists);
        assert(all.flatten() == program_entries(program));
        assert(all.subrange(0, all.len() as int) =~= all);
    }
    let top: usize = program.items.len();
    let mut i: usize = 0;
    while i < program.items.len()
        invariant
            i <= program.items.len(),
            top == program.items@.len(),
            tops == program.items@.map_values(|item: Item| item_entries(item)),
            all == tops + lists,
            program_contracts(program) == read_entries(
                contracts@,
                all.subrange(i as int, all.len() as int).flatten(),
            ),
        decreases program.items.len() - i,
    {
        proof {
            let rest = all.subrange(i as int, all.len() as int);
            assert(rest.first() == item_entries(program.items@[i as int]));
            assert(rest.drop_first() =~= all.subrange(i + 1, all.len() as int));
            lemma_read_add(contracts@, rest.first(), rest.drop_first().flatten());
        }
        if let Item::Binding(binding) = &program.items[i] {
            proof {
                lemma_read_one(
                    contracts@,
                    item_entries(program.items@[i as int])[0]->Declare_0,
                );
            }
            match register_binding(&mut contracts, binding) {
                Ok(_) => {},
                Err(error) => {
                    return Err(error);
                },
            }
        }
        i += 1;
    }
    let mut j: usize = 0;
    while j < nodes.len()
        invariant
            j <= nodes.len(),
            top == tops.len(),
            nodes@ == program_walk(contract_walk(), program),
            lists == nodes@.map_values(|visit: Visit<'a>| visit_entries(visit)),
            all == tops + lists,
            program_contracts(program) == read_entries(
                contracts@,
                all.subrange(top + j, all.len() as int).flatten(),
            ),
        decreases nodes.len() - j,
    {
        proof {
            let rest = all.subrange(top + j, all.len() as int);
            assert(rest.first() == visit_entries(nodes@[j as int]));
            assert(rest.drop_first() =~= all.subrange(top + j + 1, all.len() as int));
            lemma_read_add(contracts@, rest.first(), rest.drop_first().flatten());
        }
        match read_visit(&mut contracts, nodes[j]) {
            Ok(_) => {},
            Err(error) => {
                return Err(error);
            },
        }
        j += 1;
    }
    proof {
        assert(all.subrange(top + j, all.len() as int) =~= Seq::<Seq<Entry>>::empty());
        assert(Seq::<Seq<Entry>>::empty().flatten() =~= Seq::<Entry>::empty());
    }
    Ok(contracts)
}

/// The variable at the root of a place has the type that it was declared with.
pub open spec fn place_fault(contracts: Contracts, place: Place) -> Option<ErrorView>
    decreases place,
{
    match place {
        Place::Local { binding_id, info } => rule(
            contracts.types.contains_key(binding_id) ==> fits(
                contracts.types[binding_id],
                info.ty@,
            ),
            info.span,
            "Place Local 类型与 BindingId 声明类型不一致"@,
        ),
        Place::Field { base, .. } => place_fault(contracts, *base),
        Place::Index { base, .. } => place_fault(contracts, *base),
    }
}

/// Checks the variable at the root of a place.
pub fn validate_place_bindings(place: &Place, contracts: &ContractTable) -> (r: AliasResult<()>)
    ensures
        fault_of(r) == place_fault(contracts@, *place),
{
    let mut current: &Place = place;
    loop
        invariant
            place_fault(contracts@, *place) == place_fault(contracts@, *current),
        decreases current,
    {
        match current {
            Place::Local { binding_id, info } => {
                if let Some(declared) = contracts.get(*binding_id) {
                    if !types_match(declared, &info.ty) {
                        return Err(
                            broken_invariant(
                                info.span,
                                "Place Local 类型与 BindingId 声明类型不一致",
                            ),
                        );
                    }
                }
                return Ok(());
            },
            Place::Field { base, .. } => {
                current = base;
            },
            Place::Index { base, .. } => {
                current = base;
            },
        }
    }
}

/// A declared variable that may not be assigned.
pub open spec fn is_fixed(contracts: Contracts, id: BindingId) -> bool {
    contracts.types.contains_key(id) && !contracts.writable.contains(id)
}

fn fixed(contracts: &ContractTable, id: BindingId) -> (r: bool)
    ensures
        r == is_fixed(contracts@, id),
{
    contracts.get(id).is_some() && !contracts.writable.contains(id)
}

/// What is wrong with the use of variables at one expression. Stepping an alias writes to the
/// storage behind it, so an alias that keeps its source can be stepped.
pub open spec fn expr_use_fault(contracts: Contracts, expr: Expr) -> Option<ErrorView> {
    match expr {
        Expr::Call { args, target: CallTarget::Builtin(builtin), .. } => if (builtin is Increase
            || builtin is Decrease) && args@.len() == 1 {
            match args@[0].value {
                Expr::Ident(_, Some(id), span, _) => rule(
                    !is_fixed(contracts, id) || contracts.aliases.contains(id),
                    span,
                    "increase/decrease 目标不是可写 var 绑定"@,
                ),
                _ => None,
            }
        } else {
            None
        },
        Expr::Ident(_, Some(id), span, _) => rule(
            contracts.types.contains_key(id) ==> fits(contracts.types[id], expr.tyv()),
            span,
            "Ident 静态类型与 BindingId 声明类型不一致"@,
        ),
        Expr::Move { source, .. } => place_fault(contracts, *source),
        _ => None,
    }
}

/// What is wrong with the use of variables at one statement.
pub open spec fn stmt_use_fault(contracts: Contracts, stmt: Stmt) -> Option<ErrorView> {
    match stmt {
        Stmt::Assign { target, .. } => match place_fault(contracts, target) {
            Some(error) => Some(error),
            None => match target {
                Place::Local { binding_id, info } => rule(
                    !is_fixed(contracts, binding_id),
                    info.span,
                    "Assign 目标不是可写 var 绑定"@,
                ),
                _ => None,
            },
        },
        Stmt::For { ty, iterable, .. } => match iterable.tyv() {
            TyView::Array(elem) => rule(
                fits(*elem, ty@),
                iterable.spec_span(),
                "for iterable 元素类型与循环变量类型不一致"@,
            ),
            TyView::Iterator(elem) => rule(
                fits(*elem, ty@),
                iterable.spec_span(),
                "for iterable 元素类型与循环变量类型不一致"@,
            ),
            _ => Some(
                broken_at(
                    iterable.spec_span(),
                    "for iterable 的 HIR 类型不是 array/iterator"@,
                ),
            ),
        },
        _ => None,
    }
}

fn check_expr_use(contracts: &ContractTable, expr: &Expr) -> (r: AliasResult<()>)
    ensures
        fault_of(r) == expr_use_fault(contracts@, *expr),
{
    match expr {
        Expr::Call { args, target: CallTarget::Builtin(builtin), .. } => {
            if matches!(builtin, BuiltinCall::Increase | BuiltinCall::Decrease) && args.len() == 1 {
                if let Expr::Ident(_, Some(id), span, _) = &args[0].value {
                    if fixed(contracts, *id) && !contracts.aliases.contains(*id) {
                        return Err(
                            broken_invariant(*span, "increase/decrease 目标不是可写 var 绑定"),
                        );
                    }
                }
            }
            Ok(())
        },
        Expr::Ident(_, Some(id), span, _) => {
            if let Some(declared) = contracts.get(*id) {
                if !types_match(declared, expr.ty()) {
                    return Err(
                        broken_invariant(*span, "Ident 静态类型与 BindingId 声明类型不一致"),
                    );
                }
            }
            Ok(())
        },
        Expr::Move { source, .. } => validate_place_bindings(source, contracts),
        _ => Ok(()),
    }
}

fn check_stmt_use(contracts: &ContractTable, stmt: &Stmt) -> (r: AliasResult<()>)
    ensures
        fault_of(r) == stmt_use_fault(contracts@, *stmt),
{
    match stmt {
        Stmt::Assign { target, .. } => {
            match validate_place_bindings(target, contracts) {
                Ok(_) => {},
                Err(error) => {
                    return Err(error);
                },
            }
            if let Place::Local { binding_id, info } = target {
                if fixed(contracts, *binding_id) {
                    return Err(broken_invariant(info.span, "Assign 目标不是可写 var 绑定"));
                }
            }
            Ok(())
        },
        Stmt::For { ty, iterable, .. } => {
            let elem = match iterable.ty() {
                Ty::Array(elem) => elem,
                Ty::Iterator(elem) => elem,
                _ => {
                    return Err(
                        broken_invariant(
                            iterable.span(),
                            "for iterable 的 HIR 类型不是 array/iterator",
                        ),
                    );
                },
            };
            if !types_match(elem, ty) {
                return Err(
                    broken_invariant(
                        iterable.span(),
                        "for iterable 元素类型与循环变量类型不一致",
                    ),
                );
            }
            Ok(())
        },
        _ => Ok(()),
    }
}

pub open spec fn visit_fault<'a>(contracts: Contracts, visit: Visit<'a>) -> Option<ErrorView> {
    match visit.node {
        Node::Expr(expr, _) => expr_use_fault(contracts, *expr),
        Node::Stmt(stmt) => stmt_use_fault(contracts, *stmt),
        _ => None,
    }
}

pub open spec fn use_faults<'a>(program: &'a CheckedProgram, contracts: Contracts) -> Seq<
    Option<ErrorView>,
> {
    program_walk(contract_walk(), program).map_values(|visit: Visit<'a>| visit_fault(contracts, visit))
}

/// Checks every use of a variable against its declaration; reports the first that disagrees.
pub fn validate_uses(program: &CheckedProgram, contracts: &ContractTable) -> (r: AliasResult<()>)
    ensures
        fault_of(r) == first_fault(use_faults(program, contracts@)),
{
    let nodes = program_nodes(
        Walk { every_callee: false, into_functions: true, value_first: false, subject_last: false },
        program,
    );
    let ghost faults = use_faults(program, contracts@);
    let mut i: usize = 0;
    while i < nodes.len()
        invariant
            i <= nodes.len(),
            nodes@ == program_walk(contract_walk(), program),
            faults == use_faults(program, contracts@),
            forall|k: int| 0 <= k < i ==> (#[trigger] faults[k]) is None,
        decreases nodes.len() - i,
    {
        let checked = match nodes[i].node {
            Node::Expr(expr, _) => check_expr_use(contracts, expr),
            Node::Stmt(stmt) => check_stmt_use(contracts, stmt),
            _ => Ok(()),
        };
        assert(fault_of(checked) == faults[i as int]);
        match checked {
            Ok(_) => {},
            Err(error) => {
                proof {
                    lemma_first_fault_at(faults, i as int);
                }
                return Err(error);
            },
        }
        i += 1;
    }
    proof {
        lemma_no_fault(faults);
    }
    Ok(())
}

/// What is wrong with the variables of a program: a declaration first, then a use.
pub open spec fn program_fault(program: &CheckedProgram) -> Option<ErrorView> {
    match program_contracts(program) {
        Err(error) => Some(error),
        Ok(contracts) => first_fault(use_faults(program, contracts)),
    }
}

/// Checks that every variable has one declaration with one type, and that every use agrees
/// with it.
pub fn validate(program: &CheckedProgram) -> (r: AliasResult<()>)
    ensures
        fault_of(r) == program_fault(program),
{
    match collect_contracts(program) {
        Err(error) => Err(error),
        Ok(contracts) => validate_uses(program, &contracts),
    }
}

proof fn lemma_read_distinct(contracts: Contracts, entries: Seq<Entry>, i: int, j: int)
    requires
        read_entries(contracts, entries) is Ok,
        0 <= i < j < entries.len(),
    ensures
        entries[i] is Declare,
        entries[j] is Declare,
        entries[i]->Declare_0.id != entries[j]->Declare_0.id,
    decreases entries.len(),
{
    let rest = entries.drop_first();
    let next = declare(contracts, entries[0]->Declare_0);
    if i > 0 {
        lemma_read_distinct(next, rest, i - 1, j - 1);
        assert(rest[i - 1] == entries[i]);
    } else {
        lemma_read_fresh(next, rest, j - 1, entries[0]->Declare_0.id);
    }
    assert(rest[j - 1] == entries[j]);
}

proof fn lemma_read_fresh(contracts: Contracts, entries: Seq<Entry>, j: int, id: BindingId)
    requires
        read_entries(contracts, entries) is Ok,
        contracts.types.contains_key(id),
        0 <= j < entries.len(),
    ensures
        entries[j] is Declare,
        entries[j]->Declare_0.id != id,
    decreases entries.len(),
{
    if j > 0 {
        let rest = entries.drop_first();
        lemma_read_fresh(declare(contracts, entries[0]->Declare_0), rest, j - 1, id);
        assert(rest[j - 1] == entries[j]);
    }
}

/// In a program that passes, no two declarations share a variable.
pub proof fn law_declarations_are_unique(program: &CheckedProgram, i: int, j: int)
    requires
        program_fault(program) is None,
        0 <= i < j < program_entries(program).len(),
    ensures
        program_entries(program)[i] is Declare,
        program_entries(program)[j] is Declare,
        program_entries(program)[i]->Declare_0.id != program_entries(program)[j]->Declare_0.id,
{
    lemma_read_distinct(no_contracts(), program_entries(program), i, j);
}

} // verus!
