//! What is recorded of returns, held against what the functions do.

use crate::call_results::{
    pass_matches, place_terminal_writable, result_fault, result_loan, return_pass_matches,
    validate_call_result, writable,
};
use crate::effects::EffectTable;
use crate::function_facts::{
    FactsView, ProgramFacts, bound_function, function_id_of, functions_ok, method_in,
};
use crate::model::{
    ArgumentPass, Binding, CallArg, CallResult, CallTarget, Expr, Item, MethodTarget, Place, Stmt,
};
use crate::ownership_operations::binding_at;
use crate::return_effects::{
    ReturnTable, call_source, callee_effect, classified, classify_return_expr, function_ids,
    function_return_values, infer_return_effects, inferred_returns, main_return_fault,
    map_call_borrow_source, resolve_expr_function_ids, resolved_callee_return_effect, return_in,
    return_values, validate_main_return_effect,
};
use crate::sets::LoanSet;
use crate::tree::{Tree, place_tree};
use crate::types::{
    AliasError, AliasResult, ErrorView, FunctionId, LoanId, ParamEffect, ReturnEffect, Span, Ty,
    TyView, broken_at, broken_invariant, error, fault_of, first_fault, lemma_first_fault_at,
    lemma_no_fault, told,
};
use crate::visit::{Node, Visit};
use vstd::prelude::*;

verus! {

/// The variable that a node declares.
pub fn declaration<'a>(visit: Visit<'a>) -> (r: Option<&'a Binding>)
    ensures
        r == binding_at(visit),
{
    match visit.node {
        Node::Item(Item::Binding(binding)) => Some(binding),
        Node::Stmt(Stmt::Binding(binding)) => Some(binding),
        _ => None,
    }
}

/// The expression evaluates to functions of the program.
pub open spec fn holds_function(expr: Expr) -> bool {
    expr.tyv() is Func && !(expr matches Expr::Ident(_, None, _, _))
}

pub fn is_function_value(expr: &Expr) -> (r: bool)
    ensures
        r == holds_function(*expr),
{
    if let Expr::Ident(_, None, _, _) = expr {
        return false;
    }
    matches!(expr.ty(), Ty::Func { .. })
}

/// The effect that some functions have in common; it is an error if one of them has none.
pub open spec fn common_return(
    ids: Seq<FunctionId>,
    effects: Map<u32, ReturnEffect>,
    span: Span,
    known: Option<ReturnEffect>,
) -> Result<ReturnEffect, ErrorView>
    decreases ids.len(),
{
    if ids.len() == 0 {
        match known {
            Some(effect) => Ok(effect),
            None => Err(broken_at(span, "function expression return effect 为空"@)),
        }
    } else {
        match return_in(effects, ids[0].0) {
            None => Err(broken_at(span, "function expression 缺少 return effect"@)),
            Some(candidate) => match known {
                Some(existing) if existing != candidate => Err(
                    told(span, "函数值分支的 return effect / borrow source 不一致"@),
                ),
                _ => common_return(ids.drop_first(), effects, span, Some(candidate)),
            },
        }
    }
}

fn shared_return(ids: &Vec<FunctionId>, effects: &ReturnTable, span: Span) -> (r: AliasResult<
    ReturnEffect,
>)
    ensures
        match common_return(ids@, effects@, span, None) {
            Ok(effect) => r == Ok::<ReturnEffect, AliasError>(effect),
            Err(error) => fault_of(r) == Some(error),
        },
{
    let ghost goal = common_return(ids@, effects@, span, None);
    let mut known: Option<ReturnEffect> = None;
    let mut i: usize = 0;
    assert(ids@.skip(0) =~= ids@);
    while i < ids.len()
        invariant
            i <= ids.len(),
            goal == common_return(ids@, effects@, span, None),
            goal == common_return(ids@.skip(i as int), effects@, span, known),
        decreases ids.len() - i,
    {
        proof {
            assert(ids@.skip(i as int).drop_first() =~= ids@.skip(i + 1));
            assert(ids@.skip(i as int)[0] == ids@[i as int]);
        }
        let candidate = match effects.get(ids[i].0) {
            Some(effect) => effect,
            None => {
                return Err(broken_invariant(span, "function expression 缺少 return effect"));
            },
        };
        if let Some(existing) = known {
            if existing != candidate {
                return Err(error(span, "函数值分支的 return effect / borrow source 不一致"));
            }
        }
        known = Some(candidate);
        i += 1;
    }
    assert(ids@.skip(i as int) =~= Seq::empty());
    match known {
        Some(effect) => Ok(effect),
        None => Err(broken_invariant(span, "function expression return effect 为空")),
    }
}

/// What calling the functions that a node evaluates to hands back; nothing where the node is no
/// function value.
pub open spec fn value_return<'a>(
    facts: FactsView<'a>,
    effects: Map<u32, ReturnEffect>,
    visit: Visit<'a>,
) -> Result<Option<ReturnEffect>, ErrorView> {
    match visit.node {
        Node::Expr(expr, _) => if holds_function(*expr) {
            match function_ids(expr, visit.scope, facts) {
                Err(error) => Err(error),
                Ok(ids) => match common_return(ids, effects, expr.spec_span(), None) {
                    Err(error) => Err(error),
                    Ok(effect) => Ok(Some(effect)),
                },
            }
        } else {
            Ok(None)
        },
        _ => Ok(None),
    }
}

pub open spec fn value_return_faults<'a>(
    facts: FactsView<'a>,
    effects: Map<u32, ReturnEffect>,
    nodes: Seq<Visit<'a>>,
) -> Seq<Option<ErrorView>> {
    Seq::new(
        nodes.len(),
        |i: int|
            match value_return(facts, effects, nodes[i]) {
                Ok(_) => None,
                Err(error) => Some(error),
            },
    )
}

/// Finds what calling the function values of a program hands back, node by node.
pub fn expression_return_effect_map<'a>(
    nodes: &Vec<Visit<'a>>,
    facts: &ProgramFacts<'a>,
    effects: &ReturnTable,
) -> (r: AliasResult<Vec<Option<ReturnEffect>>>)
    ensures
        fault_of(r) == first_fault(value_return_faults(facts@, effects@, nodes@)),
        r matches Ok(list) ==> {
            &&& list@.len() == nodes@.len()
            &&& forall|i: int|
                0 <= i < nodes@.len() ==> value_return(facts@, effects@, #[trigger] nodes@[i])
                    == Ok::<Option<ReturnEffect>, ErrorView>(list@[i])
        },
{
    let ghost faults = value_return_faults(facts@, effects@, nodes@);
    let mut list: Vec<Option<ReturnEffect>> = Vec::new();
    let mut i: usize = 0;
    while i < nodes.len()
        invariant
            i <= nodes.len(),
            faults == value_return_faults(facts@, effects@, nodes@),
            list@.len() == i,
            forall|k: int| 0 <= k < i ==> (#[trigger] faults[k]) is None,
            forall|k: int|
                0 <= k < i ==> value_return(facts@, effects@, #[trigger] nodes@[k]) == Ok::<
                    Option<ReturnEffect>,
                    ErrorView,
                >(list@[k]),
        decreases nodes.len() - i,
    {
        let visit = nodes[i];
        assert(faults[i as int] == match value_return(facts@, effects@, visit) {
            Ok(_) => None,
            Err(error) => Some(error),
        });
        let mut found: Option<ReturnEffect> = None;
        if let Node::Expr(expr, _) = visit.node {
            if is_function_value(expr) {
                let result = match resolve_expr_function_ids(expr, visit.scope, facts) {
                    Ok(ids) => shared_return(&ids, effects, expr.span()),
                    Err(error) => Err(error),
                };
                match result {
                    Ok(effect) => {
                        found = Some(effect);
                    },
                    Err(error) => {
                        proof {
                            lemma_first_fault_at(faults, i as int);
                        }
                        return Err(error);
                    },
                }
            }
        }
        list.push(found);
        i += 1;
    }
    proof {
        lemma_no_fault(faults);
    }
    Ok(list)
}

/// The effects that the types of the functions record.
pub open spec fn recorded_returns<'a>(functions: Seq<&'a Expr>) -> Map<u32, ReturnEffect>
    decreases functions.len(),
{
    if functions.len() == 0 {
        Map::empty()
    } else {
        let rest = recorded_returns(functions.drop_last());
        match (function_id_of(*functions.last()), functions.last().tyv()) {
            (Some(id), TyView::Func { return_effect: Some(effect), .. }) => rest.insert(
                id.0,
                effect,
            ),
            _ => rest,
        }
    }
}

/// What is wrong with a function whose type records no effect.
pub open spec fn unrecorded_fault(function: Expr) -> Option<ErrorView> {
    match function.tyv() {
        TyView::Func { return_effect: Some(_), .. } => None,
        _ => Some(broken_at(function.spec_span(), "FuncLit 缺少 final return effect"@)),
    }
}

pub open spec fn unrecorded_faults<'a>(functions: Seq<&'a Expr>) -> Seq<Option<ErrorView>> {
    Seq::new(functions.len(), |i: int| unrecorded_fault(*functions[i]))
}

fn collect_recorded<'a>(functions: &Vec<&'a Expr>) -> (r: AliasResult<ReturnTable>)
    ensures
        fault_of(r) == first_fault(unrecorded_faults(functions@)),
        r matches Ok(table) ==> table@ == recorded_returns(functions@),
{
    let ghost faults = unrecorded_faults(functions@);
    let mut table = ReturnTable::new();
    let mut i: usize = 0;
    while i < functions.len()
        invariant
            i <= functions.len(),
            faults == unrecorded_faults(functions@),
            forall|k: int| 0 <= k < i ==> (#[trigger] faults[k]) is None,
            table@ == recorded_returns(functions@.take(i as int)),
        decreases functions.len() - i,
    {
        proof {
            assert(functions@.take(i + 1).drop_last() =~= functions@.take(i as int));
            assert(functions@.take(i + 1).last() == functions@[i as int]);
            assert(faults[i as int] == unrecorded_fault(*functions@[i as int]));
        }
        match functions[i].ty() {
            Ty::Func { return_effect: Some(effect), .. } => {
                if let Expr::FuncLit { function_id, .. } = functions[i] {
                    table.insert(function_id.0, *effect);
                }
            },
            _ => {
                proof {
                    lemma_first_fault_at(faults, i as int);
                }
                return Err(
                    broken_invariant(functions[i].span(), "FuncLit 缺少 final return effect"),
                );
            },
        }
        i += 1;
    }
    proof {
        lemma_no_fault(faults);
    }
    assert(functions@.take(i as int) =~= functions@);
    Ok(table)
}

/// What is wrong with a function whose recorded effect is not the one that its body has.
pub open spec fn drift_fault(
    function: Expr,
    inferred: Map<u32, ReturnEffect>,
    recorded: Map<u32, ReturnEffect>,
) -> Option<ErrorView> {
    match function_id_of(function) {
        Some(id) => if return_in(inferred, id.0) == return_in(recorded, id.0) {
            None
        } else {
            Some(
                broken_at(
                    function.spec_span(),
                    "final return effects 与函数体/call fixed-point 漂移"@,
                ),
            )
        },
        None => None,
    }
}

pub open spec fn drift_faults<'a>(
    functions: Seq<&'a Expr>,
    inferred: Map<u32, ReturnEffect>,
    recorded: Map<u32, ReturnEffect>,
) -> Seq<Option<ErrorView>> {
    Seq::new(functions.len(), |i: int| drift_fault(*functions[i], inferred, recorded))
}

fn check_drift<'a>(
    functions: &Vec<&'a Expr>,
    inferred: &ReturnTable,
    recorded: &ReturnTable,
) -> (r: AliasResult<()>)
    ensures
        fault_of(r) == first_fault(drift_faults(functions@, inferred@, recorded@)),
{
    let ghost faults = drift_faults(functions@, inferred@, recorded@);
    let mut i: usize = 0;
    while i < functions.len()
        invariant
            i <= functions.len(),
            faults == drift_faults(functions@, inferred@, recorded@),
            forall|k: int| 0 <= k < i ==> (#[trigger] faults[k]) is None,
        decreases functions.len() - i,
    {
        assert(faults[i as int] == drift_fault(*functions@[i as int], inferred@, recorded@));
        if let Expr::FuncLit { function_id, .. } = functions[i] {
            if inferred.get(function_id.0) != recorded.get(function_id.0) {
                proof {
                    lemma_first_fault_at(faults, i as int);
                }
                return Err(
                    broken_invariant(
                        functions[i].span(),
                        "final return effects 与函数体/call fixed-point 漂移",
                    ),
                );
            }
        }
        i += 1;
    }
    proof {
        lemma_no_fault(faults);
    }
    Ok(())
}

/// What is wrong with the type of a variable that stands for a function.
pub open spec fn declared_return_fault<'a>(
    facts: FactsView<'a>,
    recorded: Map<u32, ReturnEffect>,
    binding: Binding,
) -> Option<ErrorView> {
    match bound_function(facts, binding.binding_id) {
        None => None,
        Some(id) => match binding.ty@ {
            TyView::Func { return_effect: Some(effect), .. } => if return_in(recorded, id.0)
                == Some(effect) {
                None
            } else {
                Some(broken_at(binding.span, "function binding return effect 漂移"@))
            },
            _ => Some(broken_at(binding.span, "function binding 缺少 return effect"@)),
        },
    }
}

fn validate_declaration<'a>(
    facts: &ProgramFacts<'a>,
    recorded: &ReturnTable,
    binding: &Binding,
) -> (r: AliasResult<()>)
    ensures
        fault_of(r) == declared_return_fault(facts@, recorded@, *binding),
{
    if let Some(id) = facts.bound(binding.binding_id) {
        match &binding.ty {
            Ty::Func { return_effect: Some(effect), .. } => {
                if recorded.get(id.0) != Some(*effect) {
                    return Err(
                        broken_invariant(binding.span, "function binding return effect 漂移"),
                    );
                }
            },
            _ => {
                return Err(
                    broken_invariant(binding.span, "function binding 缺少 return effect"),
                );
            },
        }
    }
    Ok(())
}

/// What is wrong with the type of a function value.
pub open spec fn typed_return_fault(expr: Expr, expected: Option<ReturnEffect>) -> Option<
    ErrorView,
> {
    match expected {
        None => None,
        Some(effect) => match expr.tyv() {
            TyView::Func { return_effect: Some(actual), .. } => if actual == effect {
                None
            } else {
                Some(broken_at(expr.spec_span(), "function expression return effect 漂移"@))
            },
            _ => Some(broken_at(expr.spec_span(), "function expression 缺少 return effect"@)),
        },
    }
}

fn validate_value(expr: &Expr, expected: Option<ReturnEffect>) -> (r: AliasResult<()>)
    ensures
        fault_of(r) == typed_return_fault(*expr, expected),
{
    if let Some(effect) = expected {
        match expr.ty() {
            Ty::Func { return_effect: Some(actual), .. } => {
                if *actual != effect {
                    return Err(
                        broken_invariant(expr.span(), "function expression return effect 漂移"),
                    );
                }
            },
            _ => {
                return Err(
                    broken_invariant(expr.span(), "function expression 缺少 return effect"),
                );
            },
        }
    }
    Ok(())
}

/// What the result of a call must be recorded as: the place that it is an alias of, and whether
/// the place can be written.
pub open spec fn expected_source<'a>(
    effect: ReturnEffect,
    method: bool,
    receiver_pass: Option<ArgumentPass>,
    args: Seq<CallArg>,
    current: Option<FunctionId>,
    facts: FactsView<'a>,
    span: Span,
) -> Result<Option<(Tree, bool)>, ErrorView> {
    match effect {
        ReturnEffect::Borrowed(source) => if current is None {
            Err(
                broken_at(
                    span,
                    if method {
                        "top-level borrowed user method 缺少 FunctionId"@
                    } else {
                        "top-level borrowed user call 缺少 FunctionId"@
                    },
                ),
            )
        } else if method && receiver_pass is None {
            Err(broken_at(span, "method receiver pass 缺失"@))
        } else {
            match call_source(source, receiver_pass, args, facts, span) {
                Err(error) => Err(error),
                Ok(place) => match writable(place, facts) {
                    Err(error) => Err(error),
                    Ok(flag) => Ok(Some((place, flag))),
                },
            }
        },
        _ => Ok(None),
    }
}

pub open spec fn source_view(expected: Option<(Place, bool)>) -> Option<(Tree, bool)> {
    match expected {
        Some((place, flag)) => Some((place_tree(place), flag)),
        None => None,
    }
}

fn find_source<'a>(
    effect: ReturnEffect,
    method: bool,
    receiver_pass: Option<&ArgumentPass>,
    args: &Vec<CallArg>,
    current: Option<FunctionId>,
    facts: &ProgramFacts<'a>,
    span: Span,
) -> (r: AliasResult<Option<(Place, bool)>>)
    requires
        functions_ok(facts@.functions),
    ensures
        match expected_source(
            effect,
            method,
            match receiver_pass {
                Some(pass) => Some(*pass),
                None => None,
            },
            args@,
            current,
            facts@,
            span,
        ) {
            Ok(expected) => r matches Ok(found) && source_view(found) == expected,
            Err(error) => fault_of(r) == Some(error),
        },
{
    let source = match effect {
        ReturnEffect::Borrowed(source) => source,
        _ => {
            return Ok(None);
        },
    };
    if current.is_none() {
        return Err(
            if method {
                broken_invariant(span, "top-level borrowed user method 缺少 FunctionId")
            } else {
                broken_invariant(span, "top-level borrowed user call 缺少 FunctionId")
            },
        );
    }
    if method && receiver_pass.is_none() {
        return Err(broken_invariant(span, "method receiver pass 缺失"));
    }
    match map_call_borrow_source(source, receiver_pass, args, facts, span) {
        Err(error) => Err(error),
        Ok(place) => match place_terminal_writable(&place, facts) {
            Ok(flag) => Ok(Some((place, flag))),
            Err(error) => Err(error),
        },
    }
}

/// The recorded result of a call.
pub open spec fn recorded_result(expr: Expr) -> Option<Box<CallResult>> {
    match expr {
        Expr::Call { result, .. } => result,
        Expr::MethodCall { result, .. } => result,
        _ => None,
    }
}

/// What is wrong with the recorded result of a call.
pub open spec fn call_return_fault<'a>(
    facts: FactsView<'a>,
    recorded: Map<u32, ReturnEffect>,
    expr: &'a Expr,
    current: Option<FunctionId>,
    seen: Set<LoanId>,
) -> Option<ErrorView> {
    let span = expr.spec_span();
    match *expr {
        Expr::Call { callee, args, result, target: CallTarget::FunctionValue, .. } =>
            match callee_effect(&*callee, current, facts, recorded) {
                Err(error) => Some(error),
                Ok(None) => Some(broken_at(span, "call return effect unresolved"@)),
                Ok(Some(effect)) => match expected_source(
                    effect,
                    false,
                    None,
                    args@,
                    current,
                    facts,
                    span,
                ) {
                    Err(error) => Some(error),
                    Ok(expected) => result_fault(result, effect, expected, span, seen),
                },
            },
        Expr::MethodCall {
            receiver_pass,
            args,
            result,
            target: MethodTarget::User { id, return_effect, .. },
            ..
        } => match method_in(facts.bindings, id) {
            None => Some(broken_at(span, "method return effect 缺少 FunctionId"@)),
            Some(function) => match return_in(recorded, function.0) {
                None => Some(broken_at(span, "method target return effect 漂移"@)),
                Some(effect) => if return_effect != Some(effect) {
                    Some(broken_at(span, "method target return effect 漂移"@))
                } else {
                    match expected_source(
                        effect,
                        true,
                        receiver_pass,
                        args@,
                        current,
                        facts,
                        span,
                    ) {
                        Err(error) => Some(error),
                        Ok(expected) => result_fault(result, effect, expected, span, seen),
                    }
                },
            },
        },
        _ => if recorded_result(*expr) is Some {
            Some(broken_at(span, "non-user call 携带 CallResult"@))
        } else {
            None
        },
    }
}

fn validate_call<'a>(
    facts: &ProgramFacts<'a>,
    recorded: &ReturnTable,
    expr: &'a Expr,
    current: Option<FunctionId>,
    seen: &mut LoanSet,
) -> (r: AliasResult<()>)
    requires
        functions_ok(facts@.functions),
    ensures
        fault_of(r) == call_return_fault(facts@, recorded@, expr, current, old(seen)@),
        r is Ok ==> final(seen)@ == match result_loan(recorded_result(*expr)) {
            Some(id) => old(seen)@.insert(id),
            None => old(seen)@,
        },
{
    let span = expr.span();
    match expr {
        Expr::Call { callee, args, result, target: CallTarget::FunctionValue, .. } => {
            let effect = match resolved_callee_return_effect(callee, current, facts, recorded) {
                Ok(Some(effect)) => effect,
                Ok(None) => {
                    return Err(broken_invariant(span, "call return effect unresolved"));
                },
                Err(error) => {
                    return Err(error);
                },
            };
            match find_source(effect, false, None, args, current, facts, span) {
                Err(error) => Err(error),
                Ok(None) => validate_call_result(result, effect, None, span, seen),
                Ok(Some((place, flag))) => validate_call_result(
                    result,
                    effect,
                    Some((&place, flag)),
                    span,
                    seen,
                ),
            }
        },
        Expr::MethodCall {
            receiver_pass,
            args,
            result,
            target: MethodTarget::User { id, return_effect, .. },
            ..
        } => {
            let function = match facts.method(*id) {
                Some(function) => function,
                None => {
                    return Err(broken_invariant(span, "method return effect 缺少 FunctionId"));
                },
            };
            let effect = match recorded.get(function.0) {
                Some(effect) => effect,
                None => {
                    return Err(broken_invariant(span, "method target return effect 漂移"));
                },
            };
            if *return_effect != Some(effect) {
                return Err(broken_invariant(span, "method target return effect 漂移"));
            }
            match find_source(effect, true, receiver_pass.as_ref(), args, current, facts, span) {
                Err(error) => Err(error),
                Ok(None) => validate_call_result(result, effect, None, span, seen),
                Ok(Some((place, flag))) => validate_call_result(
                    result,
                    effect,
                    Some((&place, flag)),
                    span,
                    seen,
                ),
            }
        },
        Expr::Call { result: Some(_), .. } => Err(
            broken_invariant(span, "non-user call 携带 CallResult"),
        ),
        Expr::MethodCall { result: Some(_), .. } => Err(
            broken_invariant(span, "non-user call 携带 CallResult"),
        ),
        _ => Ok(()),
    }
}

/// The loans of the results of the calls among some nodes.
pub open spec fn result_loans<'a>(nodes: Seq<Visit<'a>>) -> Set<LoanId>
    decreases nodes.len(),
{
    if nodes.len() == 0 {
        Set::empty()
    } else {
        let rest = result_loans(nodes.drop_last());
        match nodes.last().node {
            Node::Expr(expr, _) => match result_loan(recorded_result(*expr)) {
                Some(id) => rest.insert(id),
                None => rest,
            },
            _ => rest,
        }
    }
}

/// What is wrong with what is recorded of returns at a node, after some others.
pub open spec fn return_node_fault<'a>(
    facts: FactsView<'a>,
    recorded: Map<u32, ReturnEffect>,
    visit: Visit<'a>,
    seen: Set<LoanId>,
) -> Option<ErrorView> {
    match visit.node {
        Node::Expr(expr, _) => match typed_return_fault(
            *expr,
            value_return(facts, recorded, visit)->Ok_0,
        ) {
            Some(error) => Some(error),
            None => call_return_fault(facts, recorded, expr, visit.scope, seen),
        },
        _ => match binding_at(visit) {
            Some(binding) => declared_return_fault(facts, recorded, *binding),
            None => None,
        },
    }
}

pub open spec fn return_node_faults<'a>(
    facts: FactsView<'a>,
    recorded: Map<u32, ReturnEffect>,
    nodes: Seq<Visit<'a>>,
) -> Seq<Option<ErrorView>> {
    Seq::new(
        nodes.len(),
        |i: int| return_node_fault(facts, recorded, nodes[i], result_loans(nodes.take(i))),
    )
}

fn validate_nodes<'a>(
    facts: &ProgramFacts<'a>,
    recorded: &ReturnTable,
    nodes: &Vec<Visit<'a>>,
    values: &Vec<Option<ReturnEffect>>,
) -> (r: AliasResult<()>)
    requires
        functions_ok(facts@.functions),
        values@.len() == nodes@.len(),
        forall|i: int|
            0 <= i < nodes@.len() ==> value_return(facts@, recorded@, #[trigger] nodes@[i]) == Ok::<
                Option<ReturnEffect>,
                ErrorView,
            >(values@[i]),
    ensures
        fault_of(r) == first_fault(return_node_faults(facts@, recorded@, nodes@)),
{
    let ghost faults = return_node_faults(facts@, recorded@, nodes@);
    let mut seen = LoanSet::new();
    let mut i: usize = 0;
    assert(nodes@.take(0) =~= Seq::empty());
    while i < nodes.len()
        invariant
            i <= nodes.len(),
            functions_ok(facts@.functions),
            values@.len() == nodes@.len(),
            forall|i: int|
                0 <= i < nodes@.len() ==> value_return(facts@, recorded@, #[trigger] nodes@[i])
                    == Ok::<Option<ReturnEffect>, ErrorView>(values@[i]),
            faults == return_node_faults(facts@, recorded@, nodes@),
            seen@ == result_loans(nodes@.take(i as int)),
            forall|k: int| 0 <= k < i ==> (#[trigger] faults[k]) is None,
        decreases nodes.len() - i,
    {
        let visit = nodes[i];
        proof {
            assert(nodes@.take(i + 1).drop_last() =~= nodes@.take(i as int));
            assert(nodes@.take(i + 1).last() == visit);
            assert(faults[i as int] == return_node_fault(facts@, recorded@, visit, seen@));
        }
        let result = match visit.node {
            Node::Expr(expr, _) => match validate_value(expr, values[i]) {
                Ok(()) => validate_call(facts, recorded, expr, visit.scope, &mut seen),
                Err(error) => Err(error),
            },
            _ => match declaration(visit) {
                Some(binding) => validate_declaration(facts, recorded, binding),
                None => Ok(()),
            },
        };
        if result.is_err() {
            proof {
                lemma_first_fault_at(faults, i as int);
            }
            return result;
        }
        i += 1;
    }
    proof {
        lemma_no_fault(faults);
    }
    Ok(())
}

/// What is wrong with what is recorded of one value that a function returns.
pub open spec fn returned_fault<'a>(
    facts: FactsView<'a>,
    param_effects: Map<u32, Seq<ParamEffect>>,
    recorded: Map<u32, ReturnEffect>,
    function: Expr,
    value: &'a Expr,
) -> Option<ErrorView> {
    let span = value.spec_span();
    match classified(value, function, param_effects, recorded, facts) {
        Err(error) => Some(error),
        Ok(None) => Some(broken_at(span, "final return pass 无法重算"@)),
        Ok(Some(draft)) => match value.spec_info().return_pass {
            None => Some(broken_at(span, "return expression 缺少 ReturnPass"@)),
            Some(pass) => if pass_matches(draft, *pass) {
                None
            } else {
                Some(broken_at(span, "ReturnPass 与 return source 漂移"@))
            },
        },
    }
}

pub open spec fn returned_faults<'a>(
    facts: FactsView<'a>,
    param_effects: Map<u32, Seq<ParamEffect>>,
    recorded: Map<u32, ReturnEffect>,
    function: Expr,
    values: Seq<&'a Expr>,
) -> Seq<Option<ErrorView>> {
    Seq::new(
        values.len(),
        |i: int| returned_fault(facts, param_effects, recorded, function, values[i]),
    )
}

pub open spec fn function_return_fault<'a>(
    facts: FactsView<'a>,
    param_effects: Map<u32, Seq<ParamEffect>>,
    recorded: Map<u32, ReturnEffect>,
    function: &'a Expr,
) -> Option<ErrorView> {
    match return_values(function) {
        Err(error) => Some(error),
        Ok(values) => first_fault(
            returned_faults(facts, param_effects, recorded, *function, values),
        ),
    }
}

pub open spec fn function_return_faults<'a>(
    facts: FactsView<'a>,
    param_effects: Map<u32, Seq<ParamEffect>>,
    recorded: Map<u32, ReturnEffect>,
) -> Seq<Option<ErrorView>> {
    Seq::new(
        facts.functions.len(),
        |i: int| function_return_fault(facts, param_effects, recorded, facts.functions[i]),
    )
}

fn validate_returned<'a>(
    facts: &ProgramFacts<'a>,
    parameter_effects: &EffectTable,
    recorded: &ReturnTable,
    function: &'a Expr,
) -> (r: AliasResult<()>)
    requires
        functions_ok(facts@.functions),
    ensures
        fault_of(r) == function_return_fault(facts@, parameter_effects@, recorded@, function),
{
    let values = match function_return_values(function) {
        Ok(values) => values,
        Err(error) => {
            return Err(error);
        },
    };
    let ghost faults = returned_faults(
        facts@,
        parameter_effects@,
        recorded@,
        *function,
        values@,
    );
    let mut i: usize = 0;
    while i < values.len()
        invariant
            i <= values.len(),
            functions_ok(facts@.functions),
            return_values(function) == Ok::<Seq<&'a Expr>, ErrorView>(values@),
            faults == returned_faults(
                facts@,
                parameter_effects@,
                recorded@,
                *function,
                values@,
            ),
            forall|k: int| 0 <= k < i ==> (#[trigger] faults[k]) is None,
        decreases values.len() - i,
    {
        let value = values[i];
        assert(faults[i as int] == returned_fault(
            facts@,
            parameter_effects@,
            recorded@,
            *function,
            value,
        ));
        let result = match classify_return_expr(
            value,
            function,
            parameter_effects,
            recorded,
            facts,
        ) {
            Err(error) => Err(error),
            Ok(None) => Err(broken_invariant(value.span(), "final return pass 无法重算")),
            Ok(Some(draft)) => match &value.info().return_pass {
                None => Err(broken_invariant(value.span(), "return expression 缺少 ReturnPass")),
                Some(pass) => if return_pass_matches(&draft, pass) {
                    Ok(())
                } else {
                    Err(broken_invariant(value.span(), "ReturnPass 与 return source 漂移"))
                },
            },
        };
        if result.is_err() {
            proof {
                lemma_first_fault_at(faults, i as int);
            }
            return result;
        }
        i += 1;
    }
    proof {
        lemma_no_fault(faults);
    }
    Ok(())
}

fn validate_functions<'a>(
    facts: &ProgramFacts<'a>,
    parameter_effects: &EffectTable,
    recorded: &ReturnTable,
) -> (r: AliasResult<()>)
    requires
        functions_ok(facts@.functions),
    ensures
        fault_of(r) == first_fault(
            function_return_faults(facts@, parameter_effects@, recorded@),
        ),
{
    let ghost faults = function_return_faults(facts@, parameter_effects@, recorded@);
    let mut i: usize = 0;
    while i < facts.functions.len()
        invariant
            i <= facts.functions.len(),
            functions_ok(facts@.functions),
            facts.functions@ == facts@.functions,
            faults == function_return_faults(facts@, parameter_effects@, recorded@),
            forall|k: int| 0 <= k < i ==> (#[trigger] faults[k]) is None,
        decreases facts.functions.len() - i,
    {
        assert(faults[i as int] == function_return_fault(
            facts@,
            parameter_effects@,
            recorded@,
            facts@.functions[i as int],
        ));
        let result = validate_returned(facts, parameter_effects, recorded, facts.functions[i]);
        if result.is_err() {
            proof {
                lemma_first_fault_at(faults, i as int);
            }
            return result;
        }
        i += 1;
    }
    proof {
        lemma_no_fault(faults);
    }
    Ok(())
}

/// What is wrong with what is recorded of returns: on the functions, then at the nodes of the
/// program, then on the values that the functions return.
pub open spec fn return_fault<'a>(
    facts: FactsView<'a>,
    param_effects: Map<u32, Seq<ParamEffect>>,
    nodes: Seq<Visit<'a>>,
) -> Option<ErrorView> {
    let recorded = recorded_returns(facts.functions);
    if first_fault(unrecorded_faults(facts.functions)) is Some {
        first_fault(unrecorded_faults(facts.functions))
    } else {
        match inferred_returns(facts, param_effects) {
            Err(error) => Some(error),
            Ok(inferred) => if main_return_fault(facts, inferred) is Some {
                main_return_fault(facts, inferred)
            } else {
                first_fault(
                    seq![
                        first_fault(drift_faults(facts.functions, inferred, recorded)),
                        first_fault(value_return_faults(facts, recorded, nodes)),
                        first_fault(return_node_faults(facts, recorded, nodes)),
                        first_fault(function_return_faults(facts, param_effects, recorded)),
                    ],
                )
            },
        }
    }
}

/// Checks what is recorded of returns, and hands back the effects of the functions.
pub fn validate_return_effects<'a>(
    facts: &ProgramFacts<'a>,
    parameter_effects: &EffectTable,
    nodes: &Vec<Visit<'a>>,
) -> (r: AliasResult<ReturnTable>)
    requires
        functions_ok(facts@.functions),
    ensures
        fault_of(r) == return_fault(facts@, parameter_effects@, nodes@),
        r matches Ok(table) ==> table@ == recorded_returns(facts@.functions),
{
    let recorded = match collect_recorded(&facts.functions) {
        Ok(recorded) => recorded,
        Err(error) => {
            return Err(error);
        },
    };
    let inferred = match infer_return_effects(facts, parameter_effects) {
        Ok(inferred) => inferred,
        Err(error) => {
            return Err(error);
        },
    };
    match validate_main_return_effect(facts, &inferred) {
        Ok(()) => {},
        Err(error) => {
            return Err(error);
        },
    }
    let ghost checks = seq![
        first_fault(drift_faults(facts@.functions, inferred@, recorded@)),
        first_fault(value_return_faults(facts@, recorded@, nodes@)),
        first_fault(return_node_faults(facts@, recorded@, nodes@)),
        first_fault(function_return_faults(facts@, parameter_effects@, recorded@)),
    ];
    match check_drift(&facts.functions, &inferred, &recorded) {
        Ok(()) => {},
        Err(error) => {
            proof {
                lemma_first_fault_at(checks, 0);
            }
            return Err(error);
        },
    }
    let values = match expression_return_effect_map(nodes, facts, &recorded) {
        Ok(values) => values,
        Err(error) => {
            proof {
                lemma_first_fault_at(checks, 1);
            }
            return Err(error);
        },
    };
    match validate_nodes(facts, &recorded, nodes, &values) {
        Ok(()) => {},
        Err(error) => {
            proof {
                lemma_first_fault_at(checks, 2);
            }
            return Err(error);
        },
    }
    match validate_functions(facts, parameter_effects, &recorded) {
        Ok(()) => {
            proof {
                lemma_no_fault(checks);
            }
            Ok(recorded)
        },
        Err(error) => {
            proof {
                lemma_first_fault_at(checks, 3);
            }
            Err(error)
        },
    }
}

proof fn lemma_recorded_drift<'a>(
    functions: Seq<&'a Expr>,
    inferred: Map<u32, ReturnEffect>,
    recorded: Map<u32, ReturnEffect>,
    i: int,
)
    requires
        first_fault(drift_faults(functions, inferred, recorded)) is None,
        0 <= i < functions.len(),
    ensures
        function_id_of(*functions[i]) matches Some(id) ==> return_in(inferred, id.0) == return_in(
            recorded,
            id.0,
        ),
{
    let faults = drift_faults(functions, inferred, recorded);
    lemma_no_fault(faults);
    assert(faults[i] == drift_fault(*functions[i], inferred, recorded));
}

/// In a program whose returns are recorded rightly, the effect on the type of every function is
/// the one that its body has.
pub proof fn law_recorded_returns_are_inferred<'a>(
    facts: FactsView<'a>,
    param_effects: Map<u32, Seq<ParamEffect>>,
    nodes: Seq<Visit<'a>>,
    i: int,
)
    requires
        return_fault(facts, param_effects, nodes) is None,
        0 <= i < facts.functions.len(),
    ensures
        inferred_returns(facts, param_effects) is Ok,
        function_id_of(*facts.functions[i]) matches Some(id) ==> return_in(
            recorded_returns(facts.functions),
            id.0,
        ) == return_in(inferred_returns(facts, param_effects)->Ok_0, id.0),
{
    let recorded = recorded_returns(facts.functions);
    let inferred = inferred_returns(facts, param_effects)->Ok_0;
    let checks = seq![
        first_fault(drift_faults(facts.functions, inferred, recorded)),
        first_fault(value_return_faults(facts, recorded, nodes)),
        first_fault(return_node_faults(facts, recorded, nodes)),
        first_fault(function_return_faults(facts, param_effects, recorded)),
    ];
    lemma_no_fault(checks);
    assert(checks[0] is None);
    lemma_recorded_drift(facts.functions, inferred, recorded, i);
}

/// In a program whose returns are recorded rightly, no two calls share the loan of their
/// results.
pub proof fn law_result_loans_are_unique<'a>(
    facts: FactsView<'a>,
    param_effects: Map<u32, Seq<ParamEffect>>,
    nodes: Seq<Visit<'a>>,
    i: int,
    j: int,
)
    requires
        return_fault(facts, param_effects, nodes) is None,
        0 <= i < j < nodes.len(),
        nodes[i].node is Expr,
        nodes[j].node is Expr,
        result_loan(recorded_result(*nodes[i].node->Expr_0)) is Some,
    ensures
        result_loan(recorded_result(*nodes[i].node->Expr_0)) != result_loan(
            recorded_result(*nodes[j].node->Expr_0),
        ),
{
    let recorded = recorded_returns(facts.functions);
    let inferred = inferred_returns(facts, param_effects)->Ok_0;
    let checks = seq![
        first_fault(drift_faults(facts.functions, inferred, recorded)),
        first_fault(value_return_faults(facts, recorded, nodes)),
        first_fault(return_node_faults(facts, recorded, nodes)),
        first_fault(function_return_faults(facts, param_effects, recorded)),
    ];
    lemma_no_fault(checks);
    assert(checks[2] is None);
    let faults = return_node_faults(facts, recorded, nodes);
    lemma_no_fault(faults);
    assert(faults[j] == return_node_fault(
        facts,
        recorded,
        nodes[j],
        result_loans(nodes.take(j)),
    ));
    let id = result_loan(recorded_result(*nodes[i].node->Expr_0))->0;
    lemma_loan_is_seen(nodes, i, j, id);
    if result_loan(recorded_result(*nodes[j].node->Expr_0)) == Some(id) {
        assert(recorded_result(*nodes[j].node->Expr_0) is Some);
        assert(call_return_fault(
            facts,
            recorded,
            nodes[j].node->Expr_0,
            nodes[j].scope,
            result_loans(nodes.take(j)),
        ) is Some);
    }
}

proof fn lemma_loan_is_seen<'a>(nodes: Seq<Visit<'a>>, i: int, j: int, id: LoanId)
    requires
        0 <= i < j <= nodes.len(),
        nodes[i].node is Expr,
        result_loan(recorded_result(*nodes[i].node->Expr_0)) == Some(id),
    ensures
        result_loans(nodes.take(j)).contains(id),
    decreases j,
{
    assert(nodes.take(j).drop_last() =~= nodes.take(j - 1));
    assert(nodes.take(j).last() == nodes[j - 1]);
    if i < j - 1 {
        lemma_loan_is_seen(nodes, i, j - 1, id);
    }
}

} // verus!
