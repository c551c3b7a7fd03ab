//! What is recorded of parameters and arguments, held against what the functions do.

use crate::argument_passes::{Demand, demand, demand_of, pass_fault, validate_argument_pass};
use crate::body_effects::{BodyEffects, Inferred, bodies_found, infer_bodies};
use crate::capture_kinds::FunctionKinds;
use crate::effects::{
    EffectTable, Lookup, copy_list, effects_in, effects_of, infer_binding_effects, list_view,
    resolve_expr_effects, same_list, variable_effects,
};
use crate::function_facts::{
    FactsView, ProgramFacts, bindings_known, collect_facts, effect_walk, function_id_of,
    functions_ok, method_in, program_facts,
};
use crate::model::{
    ArgumentPass, Binding, CallArg, CallTarget, CheckedProgram, Expr, MethodTarget, Param,
};
use crate::ownership_flow::KindTable;
use crate::ownership_operations::binding_at;
use crate::return_contract::{
    declaration, holds_function, is_function_value, return_fault, validate_return_effects,
};
use crate::types::{
    AliasResult, ErrorView, FunctionId, ParamEffect, Span, Ty, TyView, broken_at, broken_invariant,
    copy_error, effects_view, error, fault_of, first_fault, lemma_first_fault_at, lemma_no_fault,
};
use crate::visit::{Node, Visit, Walk, program_nodes, program_walk};
use vstd::prelude::*;

verus! {

/// The question about the same program from inside some function.
pub open spec fn within<'a>(look: Lookup<'a>, scope: Option<FunctionId>) -> Lookup<'a> {
    Lookup {
        facts: look.facts,
        current: scope,
        binding_effects: look.binding_effects,
        effects: look.effects,
        strict: look.strict,
    }
}

/// The effects of the functions that a node evaluates to; nothing where the node is no function
/// value.
pub open spec fn value_effects<'a>(look: Lookup<'a>, visit: Visit<'a>) -> Result<
    Option<Seq<ParamEffect>>,
    ErrorView,
> {
    match visit.node {
        Node::Expr(expr, _) => if holds_function(*expr) {
            match effects_of(within(look, visit.scope), expr) {
                Err(error) => Err(error),
                Ok(None) => Err(
                    broken_at(expr.spec_span(), "函数值表达式 effects 无法唯一解析"@),
                ),
                Ok(Some(list)) => Ok(Some(list)),
            }
        } else {
            Ok(None)
        },
        _ => Ok(None),
    }
}

pub open spec fn value_effect_faults<'a>(look: Lookup<'a>, nodes: Seq<Visit<'a>>) -> Seq<
    Option<ErrorView>,
> {
    Seq::new(
        nodes.len(),
        |i: int|
            match value_effects(look, nodes[i]) {
                Ok(_) => None,
                Err(error) => Some(error),
            },
    )
}

pub open spec fn final_lookup<'a>(
    facts: FactsView<'a>,
    effects: Map<u32, Seq<ParamEffect>>,
    binding_effects: Map<u32, Seq<ParamEffect>>,
) -> Lookup<'a> {
    Lookup { facts, current: None, binding_effects, effects, strict: true }
}

/// Finds the effects of the function values of a program, node by node.
pub fn expression_effect_map<'a>(
    nodes: &Vec<Visit<'a>>,
    facts: &ProgramFacts<'a>,
    effects: &EffectTable,
    binding_effects: &EffectTable,
) -> (r: AliasResult<Vec<Option<Vec<ParamEffect>>>>)
    ensures
        fault_of(r) == first_fault(
            value_effect_faults(final_lookup(facts@, effects@, binding_effects@), nodes@),
        ),
        r matches Ok(list) ==> {
            &&& list@.len() == nodes@.len()
            &&& forall|i: int|
                0 <= i < nodes@.len() ==> value_effects(
                    final_lookup(facts@, effects@, binding_effects@),
                    #[trigger] nodes@[i],
                ) == Ok::<Option<Seq<ParamEffect>>, ErrorView>(list_view(list@[i]))
        },
{
    let ghost look = final_lookup(facts@, effects@, binding_effects@);
    let ghost faults = value_effect_faults(look, nodes@);
    let mut list: Vec<Option<Vec<ParamEffect>>> = Vec::new();
    let mut i: usize = 0;
    while i < nodes.len()
        invariant
            i <= nodes.len(),
            look == final_lookup(facts@, effects@, binding_effects@),
            faults == value_effect_faults(look, nodes@),
            list@.len() == i,
            forall|k: int| 0 <= k < i ==> (#[trigger] faults[k]) is None,
            forall|k: int|
                0 <= k < i ==> value_effects(look, #[trigger] nodes@[k]) == Ok::<
                    Option<Seq<ParamEffect>>,
                    ErrorView,
                >(list_view(list@[k])),
        decreases nodes.len() - i,
    {
        let visit = nodes[i];
        assert(faults[i as int] == match value_effects(look, visit) {
            Ok(_) => None,
            Err(error) => Some(error),
        });
        let mut found: Option<Vec<ParamEffect>> = None;
        if let Node::Expr(expr, _) = visit.node {
            if is_function_value(expr) {
                match resolve_expr_effects(
                    expr,
                    visit.scope,
                    facts,
                    binding_effects,
                    effects,
                    true,
                ) {
                    Ok(Some(effects)) => {
                        found = Some(effects);
                    },
                    Ok(None) => {
                        proof {
                            lemma_first_fault_at(faults, i as int);
                        }
                        return Err(
                            broken_invariant(expr.span(), "函数值表达式 effects 无法唯一解析"),
                        );
                    },
                    Err(error) => {
                        proof {
                            lemma_first_fault_at(faults, i as int);
                        }
                        return Err(error);
                    },
                }
            }
        }
        assert(value_effects(look, visit) == Ok::<Option<Seq<ParamEffect>>, ErrorView>(
            list_view(found),
        ));
        list.push(found);
        i += 1;
    }
    proof {
        lemma_no_fault(faults);
    }
    Ok(list)
}

/// The effects recorded on the parameters of a function that follow the implicit ones.
pub open spec fn params_agree(params: Seq<Param>, effects: Seq<ParamEffect>, implicit: nat) -> bool {
    forall|i: int|
        0 <= i < params.len() ==> (#[trigger] params[i]).effect == Some(effects[implicit + i])
}

/// What is wrong with the effects recorded on the type and the parameters of a function.
pub open spec fn signature_fault(function: Expr) -> Option<ErrorView> {
    let span = function.spec_span();
    match function {
        Expr::FuncLit { params, implicit_bindings, .. } => match function.tyv() {
            TyView::Func { params: types, param_effects: Some(effects), .. } => if types.len()
                != effects.len() || effects.len() != implicit_bindings@.len() + params@.len() {
                Some(broken_at(span, "FuncLit effect signature arity 漂移"@))
            } else if !params_agree(params@, effects, implicit_bindings@.len()) {
                Some(broken_at(span, "HIR Param effect 与签名漂移"@))
            } else {
                None
            },
            _ => Some(broken_at(span, "FuncLit 缺少 final parameter effects"@)),
        },
        _ => Some(broken_at(span, "FunctionId 指向非 FuncLit"@)),
    }
}

pub open spec fn signature_faults<'a>(functions: Seq<&'a Expr>) -> Seq<Option<ErrorView>> {
    Seq::new(functions.len(), |i: int| signature_fault(*functions[i]))
}

/// The effects that the types of the functions record.
pub open spec fn recorded_effects<'a>(functions: Seq<&'a Expr>) -> Map<u32, Seq<ParamEffect>>
    decreases functions.len(),
{
    if functions.len() == 0 {
        Map::empty()
    } else {
        let rest = recorded_effects(functions.drop_last());
        match (function_id_of(*functions.last()), functions.last().tyv()) {
            (Some(id), TyView::Func { param_effects: Some(effects), .. }) => rest.insert(
                id.0,
                effects,
            ),
            _ => rest,
        }
    }
}

fn check_signature(function: &Expr) -> (r: AliasResult<&Vec<ParamEffect>>)
    ensures
        fault_of(r) == signature_fault(*function),
        r matches Ok(list) ==> function.tyv() matches TyView::Func {
            param_effects: Some(effects),
            ..
        } && effects == list@,
{
    let span = function.span();
    let (params, implicit) = match function {
        Expr::FuncLit { params, implicit_bindings, .. } => (params, implicit_bindings.len()),
        _ => {
            return Err(broken_invariant(span, "FunctionId 指向非 FuncLit"));
        },
    };
    let (types, effects) = match function.ty() {
        Ty::Func { params: types, param_effects: Some(effects), .. } => (types, effects),
        _ => {
            return Err(broken_invariant(span, "FuncLit 缺少 final parameter effects"));
        },
    };
    if types.len() != effects.len() || effects.len() < implicit || effects.len() - implicit
        != params.len() {
        return Err(broken_invariant(span, "FuncLit effect signature arity 漂移"));
    }
    let mut i: usize = 0;
    while i < params.len()
        invariant
            i <= params.len(),
            effects.len() == implicit + params@.len(),
            span == function.spec_span(),
            *function matches Expr::FuncLit { params: p, implicit_bindings: b, .. } && p == *params
                && b@.len() == implicit,
            function.tyv() matches TyView::Func { params: t, param_effects: Some(e), .. } && e
                == effects@ && t.len() == e.len(),
            forall|k: int|
                0 <= k < i ==> (#[trigger] params@[k]).effect == Some(effects@[implicit + k]),
        decreases params.len() - i,
    {
        if params[i].effect != Some(effects[implicit + i]) {
            assert(params@[i as int].effect != Some(effects@[implicit + i]));
            assert(!params_agree(params@, effects@, implicit as nat));
            return Err(broken_invariant(span, "HIR Param effect 与签名漂移"));
        }
        i += 1;
    }
    assert(params_agree(params@, effects@, implicit as nat));
    Ok(effects)
}

fn collect_signatures<'a>(functions: &Vec<&'a Expr>) -> (r: AliasResult<EffectTable>)
    ensures
        fault_of(r) == first_fault(signature_faults(functions@)),
        r matches Ok(table) ==> {
            &&& table@ == recorded_effects(functions@)
            &&& forall|i: int|
                0 <= i < functions@.len() ==> (function_id_of(*(#[trigger] functions@[i]))
                    matches Some(id) ==> table@.contains_key(id.0))
        },
{
    let ghost faults = signature_faults(functions@);
    let mut table = EffectTable::new();
    let mut i: usize = 0;
    while i < functions.len()
        invariant
            i <= functions.len(),
            faults == signature_faults(functions@),
            forall|k: int| 0 <= k < i ==> (#[trigger] faults[k]) is None,
            forall|k: int|
                0 <= k < i ==> (function_id_of(*(#[trigger] functions@[k])) matches Some(id)
                    ==> table@.contains_key(id.0)),
            table@ == recorded_effects(functions@.take(i as int)),
        decreases functions.len() - i,
    {
        proof {
            assert(functions@.take(i + 1).drop_last() =~= functions@.take(i as int));
            assert(functions@.take(i + 1).last() == functions@[i as int]);
            assert(faults[i as int] == signature_fault(*functions@[i as int]));
        }
        match check_signature(functions[i]) {
            Ok(effects) => {
                if let Expr::FuncLit { function_id, .. } = functions[i] {
                    table.insert(function_id.0, copy_list(effects));
                }
            },
            Err(error) => {
                proof {
                    lemma_first_fault_at(faults, i as int);
                }
                return Err(error);
            },
        }
        i += 1;
    }
    proof {
        lemma_no_fault(faults);
    }
    assert(functions@.take(i as int) =~= functions@);
    Ok(table)
}

/// The outcome of working out what the body of a function does to its parameters.
pub open spec fn outcome(result: AliasResult<Vec<ParamEffect>>) -> Result<
    Seq<ParamEffect>,
    ErrorView,
> {
    match result {
        Ok(list) => Ok(list@),
        Err(error) => Err(error@),
    }
}

/// What is wrong with a function whose recorded effects are not those that its body has.
pub open spec fn body_fault(
    function: Expr,
    recorded: Map<u32, Seq<ParamEffect>>,
    inferred: Option<AliasResult<Vec<ParamEffect>>>,
) -> Option<ErrorView> {
    let drift = broken_at(
        function.spec_span(),
        "final parameter effects 与函数体/调用 fixed-point 漂移"@,
    );
    match inferred {
        None => Some(drift),
        Some(result) => match outcome(result) {
            Err(error) => Some(error),
            Ok(list) => if function_id_of(function) matches Some(id) && effects_in(recorded, id.0)
                == Some(list) {
                None
            } else {
                Some(drift)
            },
        },
    }
}

pub open spec fn body_faults<'a>(
    functions: Seq<&'a Expr>,
    recorded: Map<u32, Seq<ParamEffect>>,
    inferred: Seq<AliasResult<Vec<ParamEffect>>>,
) -> Seq<Option<ErrorView>> {
    Seq::new(
        functions.len(),
        |i: int|
            body_fault(
                *functions[i],
                recorded,
                if i < inferred.len() {
                    Some(inferred[i])
                } else {
                    None
                },
            ),
    )
}

fn check_body(
    function: &Expr,
    recorded: &EffectTable,
    inferred: Option<&AliasResult<Vec<ParamEffect>>>,
) -> (r: AliasResult<()>)
    ensures
        fault_of(r) == body_fault(
            *function,
            recorded@,
            match inferred {
                Some(result) => Some(*result),
                None => None,
            },
        ),
{
    if let Some(result) = inferred {
        match result {
            Err(error) => {
                return Err(copy_error(error));
            },
            Ok(list) => {
                if let Expr::FuncLit { function_id, .. } = function {
                    if let Some(expected) = recorded.get(function_id.0) {
                        if same_list(expected, list) {
                            return Ok(());
                        }
                    }
                }
            },
        }
    }
    Err(
        broken_invariant(
            function.span(),
            "final parameter effects 与函数体/调用 fixed-point 漂移",
        ),
    )
}

fn check_bodies<'a>(
    functions: &Vec<&'a Expr>,
    recorded: &EffectTable,
    inferred: &Vec<AliasResult<Vec<ParamEffect>>>,
) -> (r: AliasResult<()>)
    ensures
        fault_of(r) == first_fault(body_faults(functions@, recorded@, inferred@)),
{
    let ghost faults = body_faults(functions@, recorded@, inferred@);
    let mut i: usize = 0;
    while i < functions.len()
        invariant
            i <= functions.len(),
            faults == body_faults(functions@, recorded@, inferred@),
            forall|k: int| 0 <= k < i ==> (#[trigger] faults[k]) is None,
        decreases functions.len() - i,
    {
        assert(faults[i as int] == body_fault(
            *functions@[i as int],
            recorded@,
            if i < inferred@.len() {
                Some(inferred@[i as int])
            } else {
                None
            },
        ));
        let result = check_body(
            functions[i],
            recorded,
            if i < inferred.len() {
                Some(&inferred[i])
            } else {
                None
            },
        );
        if result.is_err() {
            proof {
                lemma_first_fault_at(faults, i as int);
            }
            return result;
        }
        i += 1;
    }
    proof {
        lemma_no_fault(faults);
    }
    Ok(())
}

/// What is wrong with the type of a variable that holds a function.
pub open spec fn declared_effect_fault(
    binding: Binding,
    binding_effects: Map<u32, Seq<ParamEffect>>,
) -> Option<ErrorView> {
    match binding.ty@ {
        TyView::Func { param_effects, .. } => match effects_in(
            binding_effects,
            binding.binding_id.0,
        ) {
            None => Some(broken_at(binding.span, "function binding 缺少 resolved effects"@)),
            Some(expected) => if param_effects == Some(expected) {
                None
            } else {
                Some(
                    broken_at(binding.span, "function binding 类型与 resolved effects 漂移"@),
                )
            },
        },
        _ => None,
    }
}

fn same_effects(recorded: &Option<Vec<ParamEffect>>, expected: &Vec<ParamEffect>) -> (r: bool)
    ensures
        r == (effects_view(*recorded) == Some(expected@)),
{
    match recorded {
        Some(list) => same_list(list, expected),
        None => false,
    }
}

fn validate_declaration(binding: &Binding, binding_effects: &EffectTable) -> (r: AliasResult<()>)
    ensures
        fault_of(r) == declared_effect_fault(*binding, binding_effects@),
{
    if let Ty::Func { param_effects, .. } = &binding.ty {
        match binding_effects.get(binding.binding_id.0) {
            None => {
                return Err(
                    broken_invariant(binding.span, "function binding 缺少 resolved effects"),
                );
            },
            Some(expected) => {
                if !same_effects(param_effects, expected) {
                    return Err(
                        broken_invariant(
                            binding.span,
                            "function binding 类型与 resolved effects 漂移",
                        ),
                    );
                }
            },
        }
    }
    Ok(())
}

/// What is wrong with the type of a function value.
pub open spec fn typed_effect_fault(expr: Expr, expected: Option<Seq<ParamEffect>>) -> Option<
    ErrorView,
> {
    match (expr.tyv(), expected) {
        (TyView::Func { param_effects, .. }, Some(list)) => if param_effects == Some(list) {
            None
        } else {
            Some(
                broken_at(
                    expr.spec_span(),
                    "function expression 类型与 resolved effects 漂移"@,
                ),
            )
        },
        _ => None,
    }
}

fn validate_value(expr: &Expr, expected: &Option<Vec<ParamEffect>>) -> (r: AliasResult<()>)
    ensures
        fault_of(r) == typed_effect_fault(*expr, list_view(*expected)),
{
    if let Ty::Func { param_effects, .. } = expr.ty() {
        if let Some(list) = expected {
            if !same_effects(param_effects, list) {
                return Err(
                    broken_invariant(
                        expr.span(),
                        "function expression 类型与 resolved effects 漂移",
                    ),
                );
            }
        }
    }
    Ok(())
}

/// What is wrong with how one argument is recorded to be passed.
pub open spec fn arg_fault<'a>(
    arg: CallArg,
    effect: ParamEffect,
    missing: Seq<char>,
    facts: FactsView<'a>,
) -> Option<ErrorView> {
    match arg.pass {
        None => Some(broken_at(arg.value.spec_span(), missing)),
        Some(pass) => pass_fault(arg.value, effect, pass, facts),
    }
}

pub open spec fn arg_faults<'a>(
    args: Seq<CallArg>,
    effects: Seq<ParamEffect>,
    missing: Seq<char>,
    facts: FactsView<'a>,
) -> Seq<Option<ErrorView>> {
    Seq::new(args.len(), |i: int| arg_fault(args[i], effects[i], missing, facts))
}

fn validate_args<'a>(
    args: &Vec<CallArg>,
    effects: &Vec<ParamEffect>,
    skip: usize,
    missing: &str,
    facts: &ProgramFacts<'a>,
) -> (r: AliasResult<()>)
    requires
        effects@.len() == skip + args@.len(),
    ensures
        fault_of(r) == first_fault(
            arg_faults(args@, effects@.skip(skip as int), missing@, facts@),
        ),
{
    let ghost faults = arg_faults(args@, effects@.skip(skip as int), missing@, facts@);
    let mut i: usize = 0;
    while i < args.len()
        invariant
            i <= args.len(),
            effects.len() == skip + args@.len(),
            faults == arg_faults(args@, effects@.skip(skip as int), missing@, facts@),
            forall|k: int| 0 <= k < i ==> (#[trigger] faults[k]) is None,
        decreases args.len() - i,
    {
        let arg = &args[i];
        assert(faults[i as int] == arg_fault(*arg, effects@[skip + i], missing@, facts@));
        let result = match &arg.pass {
            None => Err(broken_invariant(arg.value.span(), missing)),
            Some(pass) => validate_argument_pass(&arg.value, effects[skip + i], pass, facts),
        };
        if result.is_err() {
            proof {
                lemma_first_fault_at(faults, i as int);
            }
            return result;
        }
        i += 1;
    }
    proof {
        lemma_no_fault(faults);
    }
    Ok(())
}

pub open spec fn any_pass(args: Seq<CallArg>) -> bool {
    exists|i: int| 0 <= i < args.len() && (#[trigger] args[i]).pass is Some
}

fn has_pass(args: &Vec<CallArg>) -> (r: bool)
    ensures
        r == any_pass(args@),
{
    let mut i: usize = 0;
    while i < args.len()
        invariant
            i <= args.len(),
            forall|k: int| 0 <= k < i ==> (#[trigger] args@[k]).pass is None,
        decreases args.len() - i,
    {
        if args[i].pass.is_some() {
            assert(args@[i as int].pass is Some);
            return true;
        }
        i += 1;
    }
    false
}

/// What is wrong with how an iterator gets the array that it runs over. A place that stays is
/// lent to it for reading; nothing is recorded of any other array.
pub open spec fn iterator_fault<'a>(
    recv: Expr,
    receiver_pass: Option<ArgumentPass>,
    span: Span,
    facts: FactsView<'a>,
) -> Option<ErrorView> {
    if demand_of(recv, ParamEffect::ReadBorrow, facts) is Lend {
        match receiver_pass {
            None => Some(broken_at(recv.spec_span(), "array iterator receiver 缺少 pass fact"@)),
            Some(pass) => pass_fault(recv, ParamEffect::ReadBorrow, pass, facts),
        }
    } else if receiver_pass is Some {
        Some(broken_at(span, "builtin method call 携带 user parameter pass"@))
    } else {
        None
    }
}

fn validate_iterator<'a>(
    recv: &Expr,
    receiver_pass: &Option<ArgumentPass>,
    span: Span,
    facts: &ProgramFacts<'a>,
) -> (r: AliasResult<()>)
    ensures
        fault_of(r) == iterator_fault(*recv, *receiver_pass, span, facts@),
{
    let lends = match demand(recv, ParamEffect::ReadBorrow, facts) {
        Demand::Lend(_, _) => true,
        _ => false,
    };
    match receiver_pass {
        None => if lends {
            Err(broken_invariant(recv.span(), "array iterator receiver 缺少 pass fact"))
        } else {
            Ok(())
        },
        Some(pass) => if lends {
            validate_argument_pass(recv, ParamEffect::ReadBorrow, pass, facts)
        } else {
            Err(broken_invariant(span, "builtin method call 携带 user parameter pass"))
        },
    }
}

/// What is wrong with how the arguments of a call are recorded to be passed.
pub open spec fn call_fault<'a>(
    expr: Expr,
    recorded: Map<u32, Seq<ParamEffect>>,
    facts: FactsView<'a>,
) -> Option<ErrorView> {
    let span = expr.spec_span();
    match expr {
        Expr::Call { callee, args, target: CallTarget::FunctionValue, .. } => match callee.tyv() {
            TyView::Func { param_effects: Some(effects), .. } => if effects.len() != args@.len() {
                Some(broken_at(span, "FunctionValue pass arity 漂移"@))
            } else {
                first_fault(
                    arg_faults(args@, effects, "FunctionValue CallArg 缺少 pass fact"@, facts),
                )
            },
            _ => Some(
                broken_at(callee.spec_span(), "FunctionValue callee 缺少 final parameter effects"@),
            ),
        },
        Expr::MethodCall {
            recv,
            receiver_pass,
            args,
            target: MethodTarget::User { id, param_effects, .. },
            ..
        } => match method_in(facts.bindings, id) {
            None => Some(broken_at(span, "MethodId 缺少 owning FunctionId"@)),
            Some(function) => match effects_in(recorded, function.0) {
                None => Some(broken_at(span, "MethodId 缺少 final parameter effects"@)),
                Some(expected) => if effects_view(param_effects) != Some(expected)
                    || expected.len() != args@.len() + 1 {
                    Some(broken_at(span, "user method target parameter effects 漂移"@))
                } else {
                    match receiver_pass {
                        None => Some(
                            broken_at(recv.spec_span(), "user method receiver 缺少 pass fact"@),
                        ),
                        Some(pass) => match pass_fault(*recv, expected[0], pass, facts) {
                            Some(error) => Some(error),
                            None => first_fault(
                                arg_faults(
                                    args@,
                                    expected.skip(1),
                                    "user method CallArg 缺少 pass fact"@,
                                    facts,
                                ),
                            ),
                        },
                    }
                },
            },
        },
        Expr::Call { args, .. } => if any_pass(args@) {
            Some(broken_at(span, "non-FunctionValue call 携带 parameter pass"@))
        } else {
            None
        },
        Expr::MethodCall {
            recv,
            receiver_pass,
            args,
            target: MethodTarget::ArrayIterator,
            ..
        } => if any_pass(args@) {
            Some(broken_at(span, "builtin method call 携带 user parameter pass"@))
        } else {
            iterator_fault(*recv, receiver_pass, span, facts)
        },
        Expr::MethodCall { receiver_pass, args, .. } => if receiver_pass is Some || any_pass(
            args@,
        ) {
            Some(broken_at(span, "builtin method call 携带 user parameter pass"@))
        } else {
            None
        },
        _ => None,
    }
}

fn validate_method<'a>(
    expr: &Expr,
    recorded: &EffectTable,
    facts: &ProgramFacts<'a>,
) -> (r: AliasResult<()>)
    requires
        *expr matches Expr::MethodCall { target: MethodTarget::User { .. }, .. },
    ensures
        fault_of(r) == call_fault(*expr, recorded@, facts@),
{
    let span = expr.span();
    if let Expr::MethodCall {
        recv,
        receiver_pass,
        args,
        target: MethodTarget::User { id, param_effects, .. },
        ..
    } = expr {
        let function = match facts.method(*id) {
            Some(function) => function,
            None => {
                return Err(broken_invariant(span, "MethodId 缺少 owning FunctionId"));
            },
        };
        let expected = match recorded.get(function.0) {
            Some(expected) => expected,
            None => {
                return Err(broken_invariant(span, "MethodId 缺少 final parameter effects"));
            },
        };
        if !same_effects(param_effects, expected) || expected.len() == 0 || expected.len() - 1
            != args.len() {
            return Err(broken_invariant(span, "user method target parameter effects 漂移"));
        }
        match receiver_pass {
            None => {
                return Err(
                    broken_invariant(recv.span(), "user method receiver 缺少 pass fact"),
                );
            },
            Some(pass) => match validate_argument_pass(recv, expected[0], pass, facts) {
                Ok(()) => {},
                Err(error) => {
                    return Err(error);
                },
            },
        }
        return validate_args(args, expected, 1, "user method CallArg 缺少 pass fact", facts);
    }
    Ok(())
}

fn validate_call<'a>(
    expr: &Expr,
    recorded: &EffectTable,
    facts: &ProgramFacts<'a>,
) -> (r: AliasResult<()>)
    ensures
        fault_of(r) == call_fault(*expr, recorded@, facts@),
{
    let span = expr.span();
    match expr {
        Expr::Call { callee, args, target: CallTarget::FunctionValue, .. } => match callee.ty() {
            Ty::Func { param_effects: Some(effects), .. } => {
                if effects.len() != args.len() {
                    return Err(broken_invariant(span, "FunctionValue pass arity 漂移"));
                }
                assert(effects@.skip(0) =~= effects@);
                validate_args(args, effects, 0, "FunctionValue CallArg 缺少 pass fact", facts)
            },
            _ => Err(
                broken_invariant(
                    callee.span(),
                    "FunctionValue callee 缺少 final parameter effects",
                ),
            ),
        },
        Expr::MethodCall { target: MethodTarget::User { .. }, .. } => validate_method(
            expr,
            recorded,
            facts,
        ),
        Expr::Call { args, .. } => if has_pass(args) {
            Err(broken_invariant(span, "non-FunctionValue call 携带 parameter pass"))
        } else {
            Ok(())
        },
        Expr::MethodCall {
            recv,
            receiver_pass,
            args,
            target: MethodTarget::ArrayIterator,
            ..
        } => if has_pass(args) {
            Err(broken_invariant(span, "builtin method call 携带 user parameter pass"))
        } else {
            validate_iterator(recv, receiver_pass, span, facts)
        },
        Expr::MethodCall { receiver_pass, args, .. } => if receiver_pass.is_some() || has_pass(
            args,
        ) {
            Err(broken_invariant(span, "builtin method call 携带 user parameter pass"))
        } else {
            Ok(())
        },
        _ => Ok(()),
    }
}

/// What is wrong with what is recorded of parameters at a node.
pub open spec fn effect_node_fault<'a>(look: Lookup<'a>, visit: Visit<'a>) -> Option<ErrorView> {
    match visit.node {
        Node::Expr(expr, _) => match typed_effect_fault(*expr, value_effects(look, visit)->Ok_0) {
            Some(error) => Some(error),
            None => call_fault(*expr, look.effects, look.facts),
        },
        _ => match binding_at(visit) {
            Some(binding) => declared_effect_fault(*binding, look.binding_effects),
            None => None,
        },
    }
}

pub open spec fn effect_node_faults<'a>(look: Lookup<'a>, nodes: Seq<Visit<'a>>) -> Seq<
    Option<ErrorView>,
> {
    Seq::new(nodes.len(), |i: int| effect_node_fault(look, nodes[i]))
}

fn validate_nodes<'a>(
    facts: &ProgramFacts<'a>,
    recorded: &EffectTable,
    binding_effects: &EffectTable,
    nodes: &Vec<Visit<'a>>,
    values: &Vec<Option<Vec<ParamEffect>>>,
) -> (r: AliasResult<()>)
    requires
        values@.len() == nodes@.len(),
        forall|i: int|
            0 <= i < nodes@.len() ==> value_effects(
                final_lookup(facts@, recorded@, binding_effects@),
                #[trigger] nodes@[i],
            ) == Ok::<Option<Seq<ParamEffect>>, ErrorView>(list_view(values@[i])),
    ensures
        fault_of(r) == first_fault(
            effect_node_faults(final_lookup(facts@, recorded@, binding_effects@), nodes@),
        ),
{
    let ghost look = final_lookup(facts@, recorded@, binding_effects@);
    let ghost faults = effect_node_faults(look, nodes@);
    let mut i: usize = 0;
    while i < nodes.len()
        invariant
            i <= nodes.len(),
            look == final_lookup(facts@, recorded@, binding_effects@),
            values@.len() == nodes@.len(),
            forall|i: int|
                0 <= i < nodes@.len() ==> value_effects(look, #[trigger] nodes@[i]) == Ok::<
                    Option<Seq<ParamEffect>>,
                    ErrorView,
                >(list_view(values@[i])),
            faults == effect_node_faults(look, nodes@),
            forall|k: int| 0 <= k < i ==> (#[trigger] faults[k]) is None,
        decreases nodes.len() - i,
    {
        let visit = nodes[i];
        assert(faults[i as int] == effect_node_fault(look, visit));
        assert(value_effects(look, nodes@[i as int]) is Ok);
        let result = match visit.node {
            Node::Expr(expr, _) => match validate_value(expr, &values[i]) {
                Ok(()) => validate_call(expr, recorded, facts),
                Err(error) => Err(error),
            },
            _ => match declaration(visit) {
                Some(binding) => validate_declaration(binding, binding_effects),
                None => Ok(()),
            },
        };
        if result.is_err() {
            proof {
                lemma_first_fault_at(faults, i as int);
            }
            return result;
        }
        i += 1;
    }
    proof {
        lemma_no_fault(faults);
    }
    Ok(())
}

/// What was worked out of the bodies of the functions, in the order of the functions; or why it
/// could not be started.
pub open spec fn body_outcomes(
    inferred: Inferred,
) -> Result<Seq<AliasResult<Vec<ParamEffect>>>, ErrorView> {
    match inferred {
        Ok(list) => Ok(list@),
        Err(error) => Err(error@),
    }
}

/// What is wrong with what is recorded of parameters, arguments and returns.
pub open spec fn effect_fault<'a>(
    facts: FactsView<'a>,
    inferred: Result<Seq<AliasResult<Vec<ParamEffect>>>, ErrorView>,
    nodes: Seq<Visit<'a>>,
) -> Option<ErrorView> {
    let recorded = recorded_effects(facts.functions);
    if first_fault(signature_faults(facts.functions)) is Some {
        first_fault(signature_faults(facts.functions))
    } else {
        match variable_effects(facts, recorded, true) {
            Err(error) => Some(error),
            Ok(bindings) => {
                let look = final_lookup(facts, recorded, bindings);
                if first_fault(value_effect_faults(look, nodes)) is Some {
                    first_fault(value_effect_faults(look, nodes))
                } else {
                    match inferred {
                        Err(error) => Some(error),
                        Ok(list) => first_fault(
                            seq![
                                first_fault(body_faults(facts.functions, recorded, list)),
                                return_fault(facts, recorded, nodes),
                                first_fault(effect_node_faults(look, nodes)),
                            ],
                        ),
                    }
                }
            },
        }
    }
}

/// What is wrong with what a program records of parameters, arguments and returns.
pub open spec fn program_effect_fault<'a>(
    program: &'a CheckedProgram,
    inferred: Result<Seq<AliasResult<Vec<ParamEffect>>>, ErrorView>,
) -> Option<ErrorView> {
    match program_facts(program) {
        Err(error) => Some(error),
        Ok(facts) => effect_fault(facts, inferred, program_walk(effect_walk(), program)),
    }
}

fn validate_facts<'a>(
    facts: &ProgramFacts<'a>,
    inferred: &Inferred,
    nodes: &Vec<Visit<'a>>,
) -> (r: AliasResult<()>)
    requires
        functions_ok(facts@.functions),
        bindings_known(facts@),
    ensures
        fault_of(r) == effect_fault(facts@, body_outcomes(*inferred), nodes@),
{
    let recorded = match collect_signatures(&facts.functions) {
        Ok(recorded) => recorded,
        Err(error) => {
            return Err(error);
        },
    };
    proof {
        assert forall|i: int| 0 <= i < facts@.bindings.len() implies (function_id_of(
            (#[trigger] facts@.bindings[i]).value,
        ) matches Some(id) ==> recorded@.contains_key(id.0)) by {
            if function_id_of(facts@.bindings[i].value) is Some {
                let value = &facts@.bindings[i].value;
                let j = choose|j: int|
                    0 <= j < facts@.functions.len() && facts@.functions[j] == value;
                assert(function_id_of(*facts@.functions[j]) is Some);
            }
        }
    }
    let binding_effects = match infer_binding_effects(facts, &recorded, true) {
        Ok(known) => known,
        Err(error) => {
            return Err(error);
        },
    };
    let values = match expression_effect_map(nodes, facts, &recorded, &binding_effects) {
        Ok(values) => values,
        Err(error) => {
            return Err(error);
        },
    };
    let list = match inferred {
        Ok(list) => list,
        Err(error) => {
            return Err(copy_error(error));
        },
    };
    let ghost look = final_lookup(facts@, recorded@, binding_effects@);
    let ghost checks = seq![
        first_fault(body_faults(facts@.functions, recorded@, list@)),
        return_fault(facts@, recorded@, nodes@),
        first_fault(effect_node_faults(look, nodes@)),
    ];
    match check_bodies(&facts.functions, &recorded, list) {
        Ok(()) => {},
        Err(error) => {
            proof {
                lemma_first_fault_at(checks, 0);
            }
            return Err(error);
        },
    }
    match validate_return_effects(facts, &recorded, nodes) {
        Ok(_) => {},
        Err(error) => {
            proof {
                lemma_first_fault_at(checks, 1);
            }
            return Err(error);
        },
    }
    match validate_nodes(facts, &recorded, &binding_effects, nodes, &values) {
        Ok(()) => {
            proof {
                lemma_no_fault(checks);
            }
            Ok(())
        },
        Err(error) => {
            proof {
                lemma_first_fault_at(checks, 2);
            }
            Err(error)
        },
    }
}

/// Checks what a program records of parameters, arguments and returns, given what was worked
/// out of the bodies of its functions.
pub fn validate_inferred(
    program: &CheckedProgram,
    inferred: &Inferred,
) -> (r: AliasResult<()>)
    ensures
        fault_of(r) == program_effect_fault(program, body_outcomes(*inferred)),
{
    match collect_facts(program) {
        Ok(facts) => {
            let nodes = program_nodes(
                Walk {
                    every_callee: true,
                    into_functions: true,
                    value_first: true,
                    subject_last: false,
                },
                program,
            );
            validate_facts(&facts, inferred, &nodes)
        },
        Err(error) => Err(error),
    }
}

/// What the check of parameters, arguments and returns can say of a program.
pub open spec fn effects_checked<
    K: Fn(&Expr, &KindTable) -> FunctionKinds,
    E: Fn(&Expr, &KindTable) -> BodyEffects,
>(
    infer_kinds: K,
    infer_effects: E,
    program: CheckedProgram,
    fault: Option<ErrorView>,
) -> bool {
    exists|inferred: Inferred| #[trigger]
        bodies_found(infer_kinds, infer_effects, program, inferred) && fault
            == program_effect_fault(&program, body_outcomes(inferred))
}

/// Checks what a program records of parameters, arguments and returns.
///
/// `infer_kinds` finds the kinds of the loans of one function, and `infer_effects` what one
/// function does to its parameters.
pub fn validate<
    K: Fn(&Expr, &KindTable) -> FunctionKinds,
    E: Fn(&Expr, &KindTable) -> BodyEffects,
>(program: &CheckedProgram, infer_kinds: K, infer_effects: E) -> (r: AliasResult<()>)
    requires
        forall|function: Expr, table: KindTable| #[trigger]
            infer_kinds.requires((&function, &table)),
        forall|function: Expr, table: KindTable| #[trigger]
            infer_effects.requires((&function, &table)),
    ensures
        effects_checked(infer_kinds, infer_effects, *program, fault_of(r)),
{
    let inferred = infer_bodies(program, infer_kinds, infer_effects);
    validate_inferred(program, &inferred)
}

} // verus!
