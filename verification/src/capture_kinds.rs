//! Whether functions only read what they capture, and what is recorded of it.

use crate::call_results::{place_span, place_type};
use crate::capture::{
    CaptureSeed, SeedView, capture_broken, capture_invariant, capture_marks, capture_walk,
    captures_written, collect_capture_seeds, function_preorder, functions_of, lemma_number_in_range,
    number_at, program_seeds, rooted, seed_lists, seed_views, writes_captures,
};
use crate::ids::IdSet;
use crate::marks::{Mark, apply_marks, tracks};
use crate::model::{
    BorrowKind, CallArg, CallTarget, Capture, CheckedProgram, Expr, MethodTarget, Place, Stmt,
    ValueCategory, place_root,
};
use crate::ownership_flow::KindTable;
use crate::sets::{LoanSet, lemma_push_to_set};
use crate::tree::{Label, Tree, capture_tree, capture_trees, part, place_tree};
use crate::types::{
    AliasResult, BindingId, ErrorView, LoanId, TyView, broken_at, broken_invariant, error, fault_of,
    first_fault, fits, lemma_first_fault_at, lemma_no_fault, told, types_match,
};
use crate::value_categories::{owns_dynamically, type_carries_dynamic_owner};
use crate::visit::{
    Node, Position, Visit, Walk, body_nodes, expr_nodes, program_nodes, program_walk, walk_body,
    walk_expr,
};
use vstd::prelude::*;

verus! {

/// What is wrong with a recorded capture.
pub open spec fn payload_fault(capture: Capture, seed: SeedView) -> Option<ErrorView> {
    match capture.source {
        Place::Local { binding_id, info } => if capture.binding_id == seed.binding_id && binding_id
            == seed.binding_id && fits(info.ty@, place_type(seed.source)) && info.span
            == place_span(seed.source) {
            None
        } else {
            Some(capture_broken("capture BindingId/root Place 与 body free-use 漂移"@))
        },
        _ => Some(capture_broken("capture source 不是 root Local Place"@)),
    }
}

pub open spec fn payload_faults(captures: Seq<Capture>, seeds: Seq<SeedView>) -> Seq<
    Option<ErrorView>,
> {
    Seq::new(captures.len(), |i: int| payload_fault(captures[i], seeds[i]))
}

/// The captures that a function records.
pub open spec fn recorded_captures(function: Expr) -> Seq<Capture> {
    match function {
        Expr::FuncLit { captures, .. } => captures@,
        _ => Seq::empty(),
    }
}

/// What is wrong with the captures that a function records.
pub open spec fn captures_fault(function: Expr, seeds: Seq<SeedView>) -> Option<ErrorView> {
    if recorded_captures(function).len() != seeds.len() {
        Some(capture_broken("capture 列表与 body free-use 漂移"@))
    } else {
        first_fault(payload_faults(recorded_captures(function), seeds))
    }
}

pub open spec fn function_capture_faults<'a>(
    functions: Seq<&'a Expr>,
    seeds: Seq<Seq<SeedView>>,
) -> Seq<Option<ErrorView>> {
    Seq::new(functions.len(), |i: int| captures_fault(*functions[i], seeds[i]))
}

/// What is wrong with the captures that a program records.
pub open spec fn program_capture_fault<'a>(program: &'a CheckedProgram) -> Option<ErrorView> {
    let functions = functions_of(program_walk(capture_walk(), program));
    if program_seeds(program).len() != functions.len() {
        Some(capture_broken("capture payload validation 函数数量漂移"@))
    } else {
        first_fault(function_capture_faults(functions, program_seeds(program)))
    }
}

fn check_payload(capture: &Capture, seed: &CaptureSeed) -> (r: AliasResult<()>)
    ensures
        fault_of(r) == payload_fault(*capture, seed@),
{
    assert(place_type(place_tree(seed.source)) == seed.source.spec_info().ty@);
    assert(place_span(place_tree(seed.source)) == seed.source.spec_span());
    match &capture.source {
        Place::Local { binding_id, info } => {
            if capture.binding_id != seed.binding_id || *binding_id != seed.binding_id
                || !types_match(&info.ty, seed.source.ty()) || info.span != seed.source.span() {
                return Err(
                    capture_invariant("capture BindingId/root Place 与 body free-use 漂移"),
                );
            }
            Ok(())
        },
        _ => Err(capture_invariant("capture source 不是 root Local Place")),
    }
}

fn check_captures(function: &Expr, seeds: &Vec<CaptureSeed>) -> (r: AliasResult<()>)
    requires
        *function is FuncLit,
    ensures
        fault_of(r) == captures_fault(*function, seed_views(seeds@)),
{
    if let Expr::FuncLit { captures, .. } = function {
        if captures.len() != seeds.len() {
            return Err(capture_invariant("capture 列表与 body free-use 漂移"));
        }
        let ghost faults = payload_faults(captures@, seed_views(seeds@));
        let mut i: usize = 0;
        while i < captures.len()
            invariant
                i <= captures.len(),
                captures@.len() == seeds@.len(),
                recorded_captures(*function) == captures@,
                faults == payload_faults(captures@, seed_views(seeds@)),
                forall|k: int| 0 <= k < i ==> (#[trigger] faults[k]) is None,
            decreases captures.len() - i,
        {
            assert(faults[i as int] == payload_fault(captures@[i as int], seeds@[i as int]@));
            let result = check_payload(&captures[i], &seeds[i]);
            if result.is_err() {
                proof {
                    lemma_first_fault_at(faults, i as int);
                }
                return result;
            }
            i += 1;
        }
        proof {
            lemma_no_fault(faults);
        }
    }
    Ok(())
}

/// Checks that every function records what it captures.
pub fn validate_capture_payloads(program: &CheckedProgram) -> (r: AliasResult<()>)
    ensures
        fault_of(r) == program_capture_fault(program),
{
    let seeds = collect_capture_seeds(program);
    let nodes = program_nodes(
        Walk { every_callee: true, into_functions: true, value_first: false, subject_last: false },
        program,
    );
    let functions = function_preorder(&nodes);
    if seeds.len() != functions.len() {
        return Err(capture_invariant("capture payload validation 函数数量漂移"));
    }
    let ghost faults = function_capture_faults(functions@, seed_lists(seeds@));
    let mut i: usize = 0;
    while i < functions.len()
        invariant
            i <= functions.len(),
            functions@.len() == seeds@.len(),
            faults == function_capture_faults(functions@, seed_lists(seeds@)),
            forall|k: int| 0 <= k < functions@.len() ==> *(#[trigger] functions@[k]) is FuncLit,
            functions@ == functions_of(program_walk(capture_walk(), program)),
            seed_lists(seeds@) == program_seeds(program),
            forall|k: int| 0 <= k < i ==> (#[trigger] faults[k]) is None,
        decreases functions.len() - i,
    {
        assert(faults[i as int] == captures_fault(
            *functions@[i as int],
            seed_views(seeds@[i as int]@),
        ));
        let result = check_captures(functions[i], &seeds[i]);
        if result.is_err() {
            proof {
                lemma_first_fault_at(faults, i as int);
            }
            return result;
        }
        i += 1;
    }
    proof {
        lemma_no_fault(faults);
    }
    Ok(())
}

/// Functions inside a function have captures of their own.
pub open spec fn body_walk() -> Walk {
    Walk { every_callee: true, into_functions: false, value_first: false, subject_last: false }
}

/// The variable that an expression reads, writes or aliases by itself.
pub open spec fn expr_use<'a>(visit: Visit<'a>) -> Option<BindingId> {
    match visit.node {
        Node::Expr(expr, _) => match *expr {
            Expr::Ident(_, Some(id), _, _) => Some(id),
            Expr::ReadPlace { source, .. } => Some(place_root(*source)),
            Expr::Borrow { source, .. } => Some(place_root(*source)),
            Expr::Refer { source, .. } => Some(place_root(*source)),
            Expr::Move { source, .. } => Some(place_root(*source)),
            _ => None,
        },
        _ => None,
    }
}

/// Some node uses one of the variables.
pub open spec fn nodes_use<'a>(nodes: Seq<Visit<'a>>, ids: Set<BindingId>) -> bool {
    exists|i: int|
        0 <= i < nodes.len() && (expr_use(#[trigger] nodes[i]) matches Some(id) && ids.contains(id))
}

/// The expression uses one of the variables, other than in a function inside it.
pub open spec fn uses_captured(expr: Expr, ids: Set<BindingId>) -> bool {
    nodes_use(walk_expr(body_walk(), None, &expr, Position::Plain), ids)
}

fn node_uses<'a>(visit: Visit<'a>, ids: &IdSet) -> (r: bool)
    ensures
        r == (expr_use(visit) matches Some(id) && ids@.contains(id)),
{
    match visit.node {
        Node::Expr(expr, _) => match expr {
            Expr::Ident(_, Some(id), _, _) => ids.contains(*id),
            Expr::ReadPlace { source, .. } => ids.contains(source.root_binding_id()),
            Expr::Borrow { source, .. } => ids.contains(source.root_binding_id()),
            Expr::Refer { source, .. } => ids.contains(source.root_binding_id()),
            Expr::Move { source, .. } => ids.contains(source.root_binding_id()),
            _ => false,
        },
        _ => false,
    }
}

/// Whether an expression uses one of the captured variables.
pub fn expr_uses_capture(expr: &Expr, captures: &IdSet) -> (r: bool)
    ensures
        r == uses_captured(*expr, captures@),
{
    let nodes = expr_nodes(
        Walk { every_callee: true, into_functions: false, value_first: false, subject_last: false },
        None,
        expr,
    );
    let mut i: usize = 0;
    while i < nodes.len()
        invariant
            i <= nodes.len(),
            nodes@ == walk_expr(body_walk(), None, expr, Position::Plain),
            forall|k: int|
                0 <= k < i ==> !(expr_use(#[trigger] nodes@[k]) matches Some(id)
                    && captures@.contains(id)),
        decreases nodes.len() - i,
    {
        if node_uses(nodes[i], captures) {
            assert(expr_use(nodes@[i as int]) is Some);
            return true;
        }
        i += 1;
    }
    false
}

pub open spec fn args_use(args: Seq<CallArg>, ids: Set<BindingId>) -> bool {
    exists|i: int| 0 <= i < args.len() && uses_captured((#[trigger] args[i]).value, ids)
}

fn args_use_capture(args: &Vec<CallArg>, ids: &IdSet) -> (r: bool)
    ensures
        r == args_use(args@, ids@),
{
    let mut i: usize = 0;
    while i < args.len()
        invariant
            i <= args.len(),
            forall|k: int|
                0 <= k < i ==> !uses_captured((#[trigger] args@[k]).value, ids@),
        decreases args.len() - i,
    {
        if expr_uses_capture(&args[i].value, ids) {
            assert(uses_captured(args@[i as int].value, ids@));
            return true;
        }
        i += 1;
    }
    false
}

/// What is wrong with a node that hands a captured variable out of the function.
pub open spec fn boundary_fault<'a>(visit: Visit<'a>, ids: Set<BindingId>) -> Option<ErrorView> {
    match visit.node {
        Node::Stmt(stmt) => match *stmt {
            Stmt::Return { value: Some(value) } => if owns_dynamically(value.tyv())
                && value.spec_value_category() != Some(ValueCategory::OwnedTemporary)
                && uses_captured(value, ids) {
                Some(
                    told(value.spec_span(), "captured dynamic value 的 return effect 尚未固化"@),
                )
            } else {
                None
            },
            _ => None,
        },
        Node::Expr(expr, _) => match *expr {
            Expr::Call { args, target: CallTarget::FunctionValue, .. } => if args_use(
                args@,
                ids,
            ) {
                Some(
                    told(
                        expr.spec_span(),
                        "captured argument 的 function parameter effect 尚未固化"@,
                    ),
                )
            } else {
                None
            },
            Expr::MethodCall { recv, args, target: MethodTarget::User { .. }, .. } =>
                if uses_captured(*recv, ids) || args_use(args@, ids) {
                    Some(
                        told(
                            expr.spec_span(),
                            "captured receiver/argument 的 user method effect 尚未固化"@,
                        ),
                    )
                } else {
                    None
                },
            _ => None,
        },
        _ => None,
    }
}

pub open spec fn boundary_faults<'a>(nodes: Seq<Visit<'a>>, ids: Set<BindingId>) -> Seq<
    Option<ErrorView>,
> {
    Seq::new(nodes.len(), |i: int| boundary_fault(nodes[i], ids))
}

pub open spec fn capture_ids(captures: Seq<Capture>) -> Set<BindingId> {
    Seq::new(captures.len(), |i: int| captures[i].binding_id).to_set()
}

/// What is wrong with a function that hands a captured variable out.
pub open spec fn function_boundary_fault(function: Expr) -> Option<ErrorView> {
    match function {
        Expr::FuncLit { captures, body, .. } => if captures@.len() == 0 {
            None
        } else {
            first_fault(
                boundary_faults(walk_body(body_walk(), None, &*body), capture_ids(captures@)),
            )
        },
        _ => Some(capture_broken("effect boundary 入口不是 FuncLit"@)),
    }
}

pub open spec fn function_boundary_faults<'a>(functions: Seq<&'a Expr>) -> Seq<Option<ErrorView>> {
    Seq::new(functions.len(), |i: int| function_boundary_fault(*functions[i]))
}

fn check_boundary<'a>(visit: Visit<'a>, ids: &IdSet) -> (r: AliasResult<()>)
    ensures
        fault_of(r) == boundary_fault(visit, ids@),
{
    match visit.node {
        Node::Stmt(stmt) => match stmt {
            Stmt::Return { value: Some(value) } => if type_carries_dynamic_owner(value.ty())
                && value.value_category() != Some(ValueCategory::OwnedTemporary)
                && expr_uses_capture(value, ids) {
                Err(error(value.span(), "captured dynamic value 的 return effect 尚未固化"))
            } else {
                Ok(())
            },
            _ => Ok(()),
        },
        Node::Expr(expr, _) => match expr {
            Expr::Call { args, target: CallTarget::FunctionValue, .. } => if args_use_capture(
                args,
                ids,
            ) {
                Err(
                    error(
                        expr.span(),
                        "captured argument 的 function parameter effect 尚未固化",
                    ),
                )
            } else {
                Ok(())
            },
            Expr::MethodCall { recv, args, target: MethodTarget::User { .. }, .. } =>
                if expr_uses_capture(recv, ids) || args_use_capture(args, ids) {
                    Err(
                        error(
                            expr.span(),
                            "captured receiver/argument 的 user method effect 尚未固化",
                        ),
                    )
                } else {
                    Ok(())
                },
            _ => Ok(()),
        },
        _ => Ok(()),
    }
}

fn collect_ids(captures: &Vec<Capture>) -> (r: IdSet)
    ensures
        r@ == capture_ids(captures@),
{
    let ghost all = Seq::new(captures@.len(), |i: int| captures@[i].binding_id);
    let mut set = IdSet::new();
    let mut i: usize = 0;
    assert(all.take(0).to_set() =~= Set::empty());
    while i < captures.len()
        invariant
            i <= captures.len(),
            all == Seq::new(captures@.len(), |i: int| captures@[i].binding_id),
            set@ == all.take(i as int).to_set(),
        decreases captures.len() - i,
    {
        let _ = set.insert(captures[i].binding_id);
        proof {
            assert(all.take(i + 1) =~= all.take(i as int).push(all[i as int]));
            lemma_push_to_set(all.take(i as int), all[i as int]);
        }
        i += 1;
    }
    assert(all.take(i as int) =~= all);
    set
}

fn check_function_boundary(function: &Expr) -> (r: AliasResult<()>)
    ensures
        fault_of(r) == function_boundary_fault(*function),
{
    let (captures, body) = match function {
        Expr::FuncLit { captures, body, .. } => (captures, body),
        _ => {
            return Err(capture_invariant("effect boundary 入口不是 FuncLit"));
        },
    };
    if captures.len() == 0 {
        return Ok(());
    }
    let ids = collect_ids(captures);
    let nodes = body_nodes(
        Walk { every_callee: true, into_functions: false, value_first: false, subject_last: false },
        None,
        body,
    );
    let ghost faults = boundary_faults(nodes@, ids@);
    let ghost goal = function_boundary_fault(*function);
    assert(goal == first_fault(faults));
    let mut i: usize = 0;
    while i < nodes.len()
        invariant
            i <= nodes.len(),
            goal == first_fault(faults),
            goal == function_boundary_fault(*function),
            faults == boundary_faults(nodes@, ids@),
            forall|k: int| 0 <= k < i ==> (#[trigger] faults[k]) is None,
        decreases nodes.len() - i,
    {
        assert(faults[i as int] == boundary_fault(nodes@[i as int], ids@));
        let result = check_boundary(nodes[i], &ids);
        if result.is_err() {
            proof {
                lemma_first_fault_at(faults, i as int);
            }
            return result;
        }
        i += 1;
    }
    proof {
        lemma_no_fault(faults);
    }
    Ok(())
}

/// Checks that no function hands a captured variable out.
pub fn validate_effect_boundaries<'a>(functions: &Vec<&'a Expr>) -> (r: AliasResult<()>)
    ensures
        fault_of(r) == first_fault(function_boundary_faults(functions@)),
{
    let ghost faults = function_boundary_faults(functions@);
    let mut i: usize = 0;
    while i < functions.len()
        invariant
            i <= functions.len(),
            faults == function_boundary_faults(functions@),
            forall|k: int| 0 <= k < i ==> (#[trigger] faults[k]) is None,
        decreases functions.len() - i,
    {
        assert(faults[i as int] == function_boundary_fault(*functions@[i as int]));
        let result = check_function_boundary(functions[i]);
        if result.is_err() {
            proof {
                lemma_first_fault_at(faults, i as int);
            }
            return result;
        }
        i += 1;
    }
    proof {
        lemma_no_fault(faults);
    }
    Ok(())
}

/// The kinds of the loans of one function.
pub type FunctionKinds = AliasResult<Vec<(LoanId, BorrowKind)>>;

/// Some kinds added to those known before; no loan may be known before.
pub open spec fn kinds_added(
    known: Map<LoanId, BorrowKind>,
    list: Seq<(LoanId, BorrowKind)>,
    upto: nat,
) -> Result<Map<LoanId, BorrowKind>, ErrorView>
    decreases upto,
{
    if upto == 0 {
        Ok(known)
    } else {
        match kinds_added(known, list, (upto - 1) as nat) {
            Err(error) => Err(error),
            Ok(so_far) => {
                let (loan, kind) = list[upto - 1];
                if so_far.contains_key(loan) {
                    Err(capture_broken("capture LoanId 跨函数重复"@))
                } else {
                    Ok(so_far.insert(loan, kind))
                }
            },
        }
    }
}

proof fn lemma_added_stop(
    known: Map<LoanId, BorrowKind>,
    list: Seq<(LoanId, BorrowKind)>,
    at: nat,
    upto: nat,
)
    requires
        at <= upto,
        kinds_added(known, list, at) is Err,
    ensures
        kinds_added(known, list, upto) == kinds_added(known, list, at),
    decreases upto - at,
{
    if at < upto {
        lemma_added_stop(known, list, at, (upto - 1) as nat);
    }
}

fn add_kinds(kinds: &mut KindTable, list: &Vec<(LoanId, BorrowKind)>) -> (r: AliasResult<()>)
    ensures
        match kinds_added(old(kinds)@, list@, list@.len()) {
            Ok(after) => r is Ok && final(kinds)@ == after,
            Err(error) => fault_of(r) == Some(error),
        },
{
    let ghost start = kinds@;
    let mut i: usize = 0;
    while i < list.len()
        invariant
            i <= list.len(),
            start == old(kinds)@,
            kinds_added(start, list@, i as nat) == Ok::<Map<LoanId, BorrowKind>, ErrorView>(
                kinds@,
            ),
        decreases list.len() - i,
    {
        let (loan, kind) = list[i];
        if !kinds.insert(loan, kind) {
            proof {
                lemma_added_stop(start, list@, (i + 1) as nat, list@.len());
            }
            return Err(capture_invariant("capture LoanId 跨函数重复"));
        }
        i += 1;
    }
    Ok(())
}

/// What is known after one more function has been looked at.
pub open spec fn kinds_step<F: Fn(&Expr, &KindTable) -> FunctionKinds>(
    infer: F,
    function: &Expr,
    before: KindTable,
    after: KindTable,
) -> bool {
    exists|list: Vec<(LoanId, BorrowKind)>| #[trigger]
        infer.ensures((function, &before), Ok(list)) && kinds_added(
            before@,
            list@,
            list@.len(),
        ) == Ok::<Map<LoanId, BorrowKind>, ErrorView>(after@)
}

/// Looking at one more function reports an error.
pub open spec fn kinds_fail<F: Fn(&Expr, &KindTable) -> FunctionKinds>(
    infer: F,
    function: &Expr,
    before: KindTable,
    error: ErrorView,
) -> bool {
    exists|found: FunctionKinds| #[trigger]
        infer.ensures((function, &before), found) && match found {
            Err(report) => report@ == error,
            Ok(list) => kinds_added(before@, list@, list@.len()) == Err::<
                Map<LoanId, BorrowKind>,
                ErrorView,
            >(error),
        }
}

/// The tables follow one another: the functions are looked at from the last to the first, so
/// that a function comes after those inside it.
pub open spec fn kinds_found<'a, F: Fn(&Expr, &KindTable) -> FunctionKinds>(
    infer: F,
    functions: Seq<&'a Expr>,
    tables: Seq<KindTable>,
) -> bool {
    &&& 0 < tables.len() <= functions.len() + 1
    &&& tables[0]@ == Map::<LoanId, BorrowKind>::empty()
    &&& forall|i: int|
        0 <= i < tables.len() - 1 ==> kinds_step(
            infer,
            functions[functions.len() - 1 - i],
            #[trigger] tables[i],
            tables[i + 1],
        )
}

/// What looking at all functions comes to.
pub open spec fn loan_kinds<'a, F: Fn(&Expr, &KindTable) -> FunctionKinds>(
    infer: F,
    functions: Seq<&'a Expr>,
    r: Result<KindTable, ErrorView>,
) -> bool {
    match first_fault(function_boundary_faults(functions)) {
        Some(error) => r == Err::<KindTable, ErrorView>(error),
        None => exists|tables: Seq<KindTable>| #[trigger]
            kinds_found(infer, functions, tables) && match r {
                Ok(table) => tables.len() == functions.len() + 1 && tables.last() == table,
                Err(error) => tables.len() <= functions.len() && kinds_fail(
                    infer,
                    functions[functions.len() - tables.len()],
                    tables.last(),
                    error,
                ),
            },
    }
}

/// Finds the kinds of the loans of all captures of a program.
///
/// `infer` finds those of one function, given those of the functions inside it.
pub fn infer_loan_kinds<F: Fn(&Expr, &KindTable) -> FunctionKinds>(
    program: &CheckedProgram,
    infer: F,
) -> (r: AliasResult<KindTable>)
    requires
        forall|function: Expr, table: KindTable| #[trigger] infer.requires((&function, &table)),
    ensures
        loan_kinds(
            infer,
            functions_of(program_walk(capture_walk(), program)),
            match r {
                Ok(table) => Ok(table),
                Err(error) => Err(error@),
            },
        ),
{
    let nodes = program_nodes(
        Walk { every_callee: true, into_functions: true, value_first: false, subject_last: false },
        program,
    );
    let functions = function_preorder(&nodes);
    match validate_effect_boundaries(&functions) {
        Ok(()) => {},
        Err(error) => {
            return Err(error);
        },
    }
    let mut kinds = KindTable::new();
    let ghost mut tables: Seq<KindTable> = seq![kinds];
    let mut left: usize = functions.len();
    while left > 0
        invariant
            left <= functions.len(),
            functions@ == functions_of(program_walk(capture_walk(), program)),
            forall|function: Expr, table: KindTable| #[trigger]
                infer.requires((&function, &table)),
            first_fault(function_boundary_faults(functions@)) is None,
            tables.len() == functions@.len() - left + 1,
            tables.last() == kinds,
            kinds_found(infer, functions@, tables),
        decreases left,
    {
        left -= 1;
        let function = functions[left];
        let ghost before = kinds;
        assert(infer.requires((function, &before)));
        let found = infer(function, &kinds);
        assert(infer.ensures((function, &before), found));
        match found {
            Err(error) => {
                assert(kinds_fail(infer, function, before, error@));
                return Err(error);
            },
            Ok(list) => match add_kinds(&mut kinds, &list) {
                Ok(()) => {
                    proof {
                        let after = kinds;
                        assert(kinds_step(infer, function, before, after));
                        let longer = tables.push(after);
                        assert forall|i: int| 0 <= i < longer.len() - 1 implies kinds_step(
                            infer,
                            functions@[functions@.len() - 1 - i],
                            #[trigger] longer[i],
                            longer[i + 1],
                        ) by {
                            if i < tables.len() - 1 {
                                assert(longer[i] == tables[i]);
                                assert(longer[i + 1] == tables[i + 1]);
                            } else {
                                assert(longer[i] == before);
                            }
                        }
                        tables = longer;
                    }
                },
                Err(error) => {
                    assert(kinds_fail(infer, function, before, error@));
                    return Err(error);
                },
            },
        }
    }
    Ok(kinds)
}

/// The captures that some functions record, in order.
pub open spec fn captures_of<'a>(functions: Seq<&'a Expr>) -> Seq<Capture>
    decreases functions.len(),
{
    if functions.len() == 0 {
        Seq::empty()
    } else {
        captures_of(functions.drop_last()) + recorded_captures(*functions.last())
    }
}

fn flat_captures<'a>(functions: &Vec<&'a Expr>) -> (r: Vec<&'a Capture>)
    ensures
        r@.len() == captures_of(functions@).len(),
        forall|i: int| 0 <= i < r@.len() ==> *(#[trigger] r@[i]) == captures_of(functions@)[i],
{
    let mut list: Vec<&'a Capture> = Vec::new();
    let mut i: usize = 0;
    assert(functions@.take(0) =~= Seq::empty());
    while i < functions.len()
        invariant
            i <= functions.len(),
            list@.len() == captures_of(functions@.take(i as int)).len(),
            forall|k: int|
                0 <= k < list@.len() ==> *(#[trigger] list@[k]) == captures_of(
                    functions@.take(i as int),
                )[k],
        decreases functions.len() - i,
    {
        let ghost before = captures_of(functions@.take(i as int));
        proof {
            assert(functions@.take(i + 1).drop_last() =~= functions@.take(i as int));
            assert(functions@.take(i + 1).last() == functions@[i as int]);
        }
        if let Expr::FuncLit { captures, .. } = functions[i] {
            let mut k: usize = 0;
            while k < captures.len()
                invariant
                    k <= captures.len(),
                    list@.len() == before.len() + k,
                    forall|m: int|
                        0 <= m < list@.len() ==> *(#[trigger] list@[m]) == (before + captures@)[m],
                decreases captures.len() - k,
            {
                list.push(&captures[k]);
                k += 1;
            }
        }
        i += 1;
    }
    assert(functions@.take(i as int) =~= functions@);
    list
}

/// An earlier capture has the same loan.
pub open spec fn repeats(captures: Seq<Capture>, i: int) -> bool {
    exists|j: int| 0 <= j < i && (#[trigger] captures[j]).loan_id == captures[i].loan_id
}

pub open spec fn kind_in(kinds: Map<LoanId, BorrowKind>, loan: LoanId) -> Option<BorrowKind> {
    if kinds.contains_key(loan) {
        Some(kinds[loan])
    } else {
        None
    }
}

/// What keeps the kind of a capture from being written.
pub open spec fn unkinded_fault(
    captures: Seq<Capture>,
    kinds: Map<LoanId, BorrowKind>,
    i: int,
) -> Option<ErrorView> {
    if !kinds.contains_key(captures[i].loan_id) {
        Some(capture_broken("capture 缺少 inferred loan kind"@))
    } else if repeats(captures, i) {
        Some(capture_broken("capture LoanId 在 HIR 中重复"@))
    } else {
        None
    }
}

/// What keeps the kinds of captures from being written.
pub open spec fn unwritten_fault(captures: Seq<Capture>, kinds: Map<LoanId, BorrowKind>) -> Option<
    ErrorView,
> {
    match first_fault(Seq::new(captures.len(), |i: int| unkinded_fault(captures, kinds, i))) {
        Some(error) => Some(error),
        None => if captures.len() != kinds.dom().len() {
            Some(capture_broken("存在未写回的 capture loan kind"@))
        } else {
            None
        },
    }
}

/// What is wrong with the recorded kind of a capture.
pub open spec fn kind_fault(
    captures: Seq<Capture>,
    kinds: Map<LoanId, BorrowKind>,
    i: int,
) -> Option<ErrorView> {
    if captures[i].kind != kind_in(kinds, captures[i].loan_id) {
        Some(
            broken_at(captures[i].source.spec_span(), "capture loan kind 与 body use 漂移"@),
        )
    } else if repeats(captures, i) {
        Some(capture_broken("capture LoanId 在 HIR 中重复"@))
    } else {
        None
    }
}

/// What is wrong with the recorded kinds of captures.
pub open spec fn kinds_fault(captures: Seq<Capture>, kinds: Map<LoanId, BorrowKind>) -> Option<
    ErrorView,
> {
    match first_fault(Seq::new(captures.len(), |i: int| kind_fault(captures, kinds, i))) {
        Some(error) => Some(error),
        None => if captures.len() != kinds.dom().len() {
            Some(capture_broken("存在未验证的 capture loan kind"@))
        } else {
            None
        },
    }
}

fn check_kinds<'a>(captures: &Vec<&'a Capture>, kinds: &KindTable, Ghost(all): Ghost<Seq<Capture>>) -> (r:
    AliasResult<()>)
    requires
        captures@.len() == all.len(),
        forall|i: int| 0 <= i < all.len() ==> *(#[trigger] captures@[i]) == all[i],
    ensures
        fault_of(r) == kinds_fault(all, kinds@),
{
    let ghost faults = Seq::new(all.len(), |i: int| kind_fault(all, kinds@, i));
    let mut seen = LoanSet::new();
    let mut i: usize = 0;
    while i < captures.len()
        invariant
            i <= captures.len(),
            captures@.len() == all.len(),
            forall|i: int| 0 <= i < all.len() ==> *(#[trigger] captures@[i]) == all[i],
            faults == Seq::new(all.len(), |i: int| kind_fault(all, kinds@, i)),
            forall|k: int| 0 <= k < i ==> (#[trigger] faults[k]) is None,
            forall|loan: LoanId| #[trigger]
                seen@.contains(loan) <==> exists|j: int|
                    0 <= j < i && (#[trigger] all[j]).loan_id == loan,
        decreases captures.len() - i,
    {
        let capture = captures[i];
        assert(*capture == all[i as int]);
        assert(faults[i as int] == kind_fault(all, kinds@, i as int));
        if capture.kind != kinds.get(capture.loan_id) {
            proof {
                lemma_first_fault_at(faults, i as int);
            }
            return Err(
                broken_invariant(capture.source.span(), "capture loan kind 与 body use 漂移"),
            );
        }
        if seen.contains(capture.loan_id) {
            proof {
                assert(repeats(all, i as int));
                lemma_first_fault_at(faults, i as int);
            }
            return Err(capture_invariant("capture LoanId 在 HIR 中重复"));
        }
        assert(!repeats(all, i as int));
        let ghost before = seen@;
        let _ = seen.insert(capture.loan_id);
        proof {
            assert forall|loan: LoanId| #[trigger] seen@.contains(loan) <==> exists|j: int|
                0 <= j < i + 1 && (#[trigger] all[j]).loan_id == loan by {
                if before.contains(loan) {
                    let j = choose|j: int| 0 <= j < i && (#[trigger] all[j]).loan_id == loan;
                    assert(all[j].loan_id == loan);
                }
                if loan == capture.loan_id {
                    assert(all[i as int].loan_id == loan);
                }
            }
        }
        i += 1;
    }
    proof {
        lemma_no_fault(faults);
    }
    if captures.len() != kinds.len() {
        return Err(capture_invariant("存在未验证的 capture loan kind"));
    }
    Ok(())
}

fn check_writable<'a>(
    captures: &Vec<&'a Capture>,
    kinds: &KindTable,
    Ghost(all): Ghost<Seq<Capture>>,
) -> (r: AliasResult<()>)
    requires
        captures@.len() == all.len(),
        forall|i: int| 0 <= i < all.len() ==> *(#[trigger] captures@[i]) == all[i],
    ensures
        fault_of(r) == unwritten_fault(all, kinds@),
        r is Ok ==> forall|i: int|
            0 <= i < all.len() ==> kinds@.contains_key((#[trigger] all[i]).loan_id),
{
    let ghost faults = Seq::new(all.len(), |i: int| unkinded_fault(all, kinds@, i));
    let mut seen = LoanSet::new();
    let mut i: usize = 0;
    while i < captures.len()
        invariant
            i <= captures.len(),
            captures@.len() == all.len(),
            forall|i: int| 0 <= i < all.len() ==> *(#[trigger] captures@[i]) == all[i],
            faults == Seq::new(all.len(), |i: int| unkinded_fault(all, kinds@, i)),
            forall|k: int| 0 <= k < i ==> (#[trigger] faults[k]) is None,
            forall|k: int| 0 <= k < i ==> kinds@.contains_key((#[trigger] all[k]).loan_id),
            forall|loan: LoanId| #[trigger]
                seen@.contains(loan) <==> exists|j: int|
                    0 <= j < i && (#[trigger] all[j]).loan_id == loan,
        decreases captures.len() - i,
    {
        let capture = captures[i];
        assert(*capture == all[i as int]);
        assert(faults[i as int] == unkinded_fault(all, kinds@, i as int));
        if kinds.get(capture.loan_id).is_none() {
            proof {
                lemma_first_fault_at(faults, i as int);
            }
            return Err(capture_invariant("capture 缺少 inferred loan kind"));
        }
        if seen.contains(capture.loan_id) {
            proof {
                assert(repeats(all, i as int));
                lemma_first_fault_at(faults, i as int);
            }
            return Err(capture_invariant("capture LoanId 在 HIR 中重复"));
        }
        assert(!repeats(all, i as int));
        let ghost before = seen@;
        let _ = seen.insert(capture.loan_id);
        proof {
            assert forall|loan: LoanId| #[trigger] seen@.contains(loan) <==> exists|j: int|
                0 <= j < i + 1 && (#[trigger] all[j]).loan_id == loan by {
                if before.contains(loan) {
                    let j = choose|j: int| 0 <= j < i && (#[trigger] all[j]).loan_id == loan;
                    assert(all[j].loan_id == loan);
                }
                if loan == capture.loan_id {
                    assert(all[i as int].loan_id == loan);
                }
            }
        }
        i += 1;
    }
    proof {
        lemma_no_fault(faults);
    }
    if captures.len() != kinds.len() {
        return Err(capture_invariant("存在未写回的 capture loan kind"));
    }
    Ok(())
}

/// The captures of a function with the kinds of their loans.
pub open spec fn kinded(captures: Seq<Capture>, kinds: Map<LoanId, BorrowKind>) -> Seq<Tree> {
    Seq::new(
        captures.len(),
        |j: int|
            part(
                Label::Capture(
                    captures[j].binding_id,
                    captures[j].loan_id,
                    kind_in(kinds, captures[j].loan_id),
                ),
                seq![place_tree(captures[j].source)],
            ),
    )
}

fn kind_captures(function: &Expr, kinds: &KindTable) -> (r: Vec<Capture>)
    ensures
        capture_trees(r@) == kinded(recorded_captures(*function), kinds@),
{
    let mut list: Vec<Capture> = Vec::new();
    if let Expr::FuncLit { captures, .. } = function {
        let mut i: usize = 0;
        while i < captures.len()
            invariant
                i <= captures.len(),
                list@.len() == i,
                forall|k: int|
                    0 <= k < i ==> capture_tree(#[trigger] list@[k]) == kinded(
                        captures@,
                        kinds@,
                    )[k],
            decreases captures.len() - i,
        {
            let capture = &captures[i];
            list.push(
                Capture {
                    binding_id: capture.binding_id,
                    loan_id: capture.loan_id,
                    source: capture.source.clone(),
                    kind: kinds.get(capture.loan_id),
                },
            );
            i += 1;
        }
    }
    assert(capture_trees(list@) =~= kinded(recorded_captures(*function), kinds@));
    list
}

fn plan_kinds(program: &CheckedProgram, kinds: &KindTable) -> (r: AliasResult<Vec<Mark>>)
    ensures
        ({
            let nodes = program_walk(capture_walk(), program);
            let functions = functions_of(nodes);
            &&& fault_of(r) == unwritten_fault(captures_of(functions), kinds@)
            &&& r matches Ok(marks) ==> marks@.len() == nodes.len() && forall|i: int|
                0 <= i < nodes.len() ==> writes_captures(
                    #[trigger] marks@[i],
                    nodes[i],
                    kinded(recorded_captures(*functions[number_at(nodes, i)]), kinds@),
                )
        }),
{
    let nodes = program_nodes(
        Walk { every_callee: true, into_functions: true, value_first: false, subject_last: false },
        program,
    );
    let functions = function_preorder(&nodes);
    let flat = flat_captures(&functions);
    match check_writable(&flat, kinds, Ghost(captures_of(functions@))) {
        Ok(()) => {},
        Err(error) => {
            return Err(error);
        },
    }
    let mut lists: Vec<Vec<Capture>> = Vec::new();
    let mut i: usize = 0;
    while i < functions.len()
        invariant
            i <= functions.len(),
            lists@.len() == i,
            forall|k: int|
                0 <= k < i ==> capture_trees((#[trigger] lists@[k])@) == kinded(
                    recorded_captures(*functions@[k]),
                    kinds@,
                ),
        decreases functions.len() - i,
    {
        lists.push(kind_captures(functions[i], kinds));
        i += 1;
    }
    let ghost all = lists@;
    let marks = capture_marks(&nodes, lists);
    proof {
        assert forall|i: int| 0 <= i < nodes@.len() implies writes_captures(
            #[trigger] marks@[i],
            nodes@[i],
            kinded(recorded_captures(*functions@[number_at(nodes@, i)]), kinds@),
        ) by {
            if nodes@[i].node matches Node::Expr(expr, _) && *expr is FuncLit {
                lemma_number_in_range(nodes@, i);
                let k = number_at(nodes@, i);
                assert(capture_trees(all[k]@) == kinded(
                    recorded_captures(*functions@[k]),
                    kinds@,
                ));
            }
        }
    }
    Ok(marks)
}

/// Writes the kinds of all captures.
pub fn apply_loan_kinds(program: &mut CheckedProgram, kinds: &KindTable) -> (r: AliasResult<()>)
    ensures
        ({
            let functions = functions_of(program_walk(capture_walk(), old(program)));
            match unwritten_fault(captures_of(functions), kinds@) {
                Some(error) => fault_of(r) == Some(error) && *final(program) == *old(program),
                None => r is Ok && captures_written(
                    *old(program),
                    *final(program),
                    |k: int| kinded(recorded_captures(*functions[k]), kinds@),
                ),
            }
        }),
{
    let marks = match plan_kinds(program, kinds) {
        Ok(marks) => marks,
        Err(error) => {
            return Err(error);
        },
    };
    let ghost written = marks@;
    apply_marks(
        Walk { every_callee: true, into_functions: true, value_first: false, subject_last: false },
        program,
        marks,
    );
    assert(tracks(
        program_walk(capture_walk(), old(program)),
        program_walk(capture_walk(), program),
        written,
    ));
    Ok(())
}

/// What settling the kinds of all captures comes to.
pub open spec fn kinds_settled<F: Fn(&Expr, &KindTable) -> FunctionKinds>(
    infer: F,
    before: CheckedProgram,
    after: CheckedProgram,
    fault: Option<ErrorView>,
) -> bool {
    let functions = functions_of(program_walk(capture_walk(), &before));
    exists|found: Result<KindTable, ErrorView>| #[trigger]
        loan_kinds(infer, functions, found) && match found {
            Err(error) => fault == Some(error) && after == before,
            Ok(table) => match unwritten_fault(captures_of(functions), table@) {
                Some(error) => fault == Some(error) && after == before,
                None => fault is None && captures_written(
                    before,
                    after,
                    |k: int| kinded(recorded_captures(*functions[k]), table@),
                ),
            },
        }
}

/// Finds out whether functions only read what they capture, and writes it down.
pub fn finalize_loan_kinds<F: Fn(&Expr, &KindTable) -> FunctionKinds>(
    program: &mut CheckedProgram,
    infer: F,
) -> (r: AliasResult<()>)
    requires
        forall|function: Expr, table: KindTable| #[trigger] infer.requires((&function, &table)),
    ensures
        kinds_settled(infer, *old(program), *final(program), fault_of(r)),
{
    match infer_loan_kinds(program, infer) {
        Ok(kinds) => {
            let ghost functions = functions_of(program_walk(capture_walk(), program));
            assert(loan_kinds(infer, functions, Ok(kinds)));
            apply_loan_kinds(program, &kinds)
        },
        Err(error) => {
            let ghost functions = functions_of(program_walk(capture_walk(), program));
            assert(loan_kinds(infer, functions, Err(error@)));
            Err(error)
        },
    }
}

/// What checking the recorded captures comes to.
pub open spec fn kinds_checked<F: Fn(&Expr, &KindTable) -> FunctionKinds>(
    infer: F,
    program: CheckedProgram,
    fault: Option<ErrorView>,
) -> bool {
    let functions = functions_of(program_walk(capture_walk(), &program));
    match program_capture_fault(&program) {
        Some(error) => fault == Some(error),
        None => exists|found: Result<KindTable, ErrorView>| #[trigger]
            loan_kinds(infer, functions, found) && match found {
                Err(error) => fault == Some(error),
                Ok(table) => fault == kinds_fault(captures_of(functions), table@),
            },
    }
}

/// Checks what functions record of their captures.
pub fn validate_loan_kinds<F: Fn(&Expr, &KindTable) -> FunctionKinds>(
    program: &CheckedProgram,
    infer: F,
) -> (r: AliasResult<()>)
    requires
        forall|function: Expr, table: KindTable| #[trigger] infer.requires((&function, &table)),
    ensures
        kinds_checked(infer, *program, fault_of(r)),
{
    match validate_capture_payloads(program) {
        Ok(()) => {},
        Err(error) => {
            return Err(error);
        },
    }
    match infer_loan_kinds(program, infer) {
        Ok(kinds) => {
            let nodes = program_nodes(
                Walk {
                    every_callee: true,
                    into_functions: true,
                    value_first: false,
                    subject_last: false,
                },
                program,
            );
            let functions = function_preorder(&nodes);
            let flat = flat_captures(&functions);
            assert(loan_kinds(infer, functions@, Ok(kinds)));
            check_kinds(&flat, &kinds, Ghost(captures_of(functions@)))
        },
        Err(error) => {
            let ghost functions = functions_of(program_walk(capture_walk(), program));
            assert(loan_kinds(infer, functions, Err(error@)));
            Err(error)
        },
    }
}

/// Every type fits itself.
pub proof fn law_types_fit_themselves(ty: TyView)
    ensures
        fits(ty, ty),
    decreases ty,
{
    match ty {
        TyView::Array(x) => law_types_fit_themselves(*x),
        TyView::Iterator(x) => law_types_fit_themselves(*x),
        TyView::Result(x, e) => {
            law_types_fit_themselves(*x);
            law_types_fit_themselves(*e);
        },
        TyView::Ptr { pointee, .. } => law_types_fit_themselves(*pointee),
        TyView::Func { params, ret, .. } => {
            assert forall|i: int| 0 <= i < params.len() implies fits(
                #[trigger] params[i],
                params[i],
            ) by {
                law_types_fit_themselves(params[i]);
            }
            law_types_fit_themselves(*ret);
        },
        _ => {},
    }
}

/// A capture that is written as it was found passes the check of its payload.
pub proof fn law_written_capture_is_valid(capture: Capture, seed: SeedView, loan: LoanId)
    requires
        rooted(seed),
        capture_tree(capture) == part(
            Label::Capture(seed.binding_id, loan, None),
            seq![seed.source],
        ),
    ensures
        payload_fault(capture, seed) is None,
{
    assert(capture_tree(capture).kids[0] == place_tree(capture.source));
    assert(seq![seed.source][0] == seed.source);
    law_types_fit_themselves(place_type(seed.source));
    match capture.source {
        Place::Local { .. } => {},
        Place::Field { .. } => {},
        Place::Index { .. } => {},
    }
}

} // verus!
