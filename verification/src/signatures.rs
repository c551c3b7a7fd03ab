//! What is written on function types once the effects of all functions are known.

use crate::effect_contract::{final_lookup, value_effects};
use crate::effects::{EffectTable, Lookup, copy_list, effects_in, list_view};
use crate::function_facts::{FactsView, ProgramFacts, bound_function};
use crate::marks::Mark;
use crate::model::{Binding, Expr};
use crate::ownership_operations::binding_at;
use crate::return_contract::{declaration, value_return};
use crate::return_effects::{ReturnTable, return_in};
use crate::types::{
    AliasResult, ErrorView, ParamEffect, ReturnEffect, Span, Ty, TyView, broken_at,
    broken_invariant, effects_view, fault_of,
};
use crate::visit::{Node, Visit};
use vstd::prelude::*;

verus! {

/// The effects to write on a function type, and on the parameters that a literal names.
pub struct SignatureView {
    pub effects: Option<Seq<ParamEffect>>,
    pub handed: Option<ReturnEffect>,
    pub params: Seq<ParamEffect>,
}

/// What keeps effects from being written on a type.
pub open spec fn unfit(ty: TyView, effects: Seq<ParamEffect>, span: Span) -> Option<ErrorView> {
    match ty {
        TyView::Func { params, .. } => if params.len() == effects.len() {
            None
        } else {
            Some(broken_at(span, "函数类型 effect 数量漂移"@))
        },
        _ => Some(broken_at(span, "effect fact 写入非函数类型"@)),
    }
}

fn check_fit(ty: &Ty, effects: &Vec<ParamEffect>, span: Span) -> (r: AliasResult<()>)
    ensures
        fault_of(r) == unfit(ty@, effects@, span),
{
    match ty {
        Ty::Func { params, .. } => if params.len() == effects.len() {
            Ok(())
        } else {
            Err(broken_invariant(span, "函数类型 effect 数量漂移"))
        },
        _ => Err(broken_invariant(span, "effect fact 写入非函数类型")),
    }
}

/// What is known of the function that a variable stands for.
pub open spec fn variable_return<'a>(
    facts: FactsView<'a>,
    handed: Map<u32, ReturnEffect>,
    binding: Binding,
) -> Option<ReturnEffect> {
    match bound_function(facts, binding.binding_id) {
        Some(id) => return_in(handed, id.0),
        None => None,
    }
}

/// What is written on the type of a variable.
pub open spec fn variable_signature<'a>(
    look: Lookup<'a>,
    handed: Map<u32, ReturnEffect>,
    binding: Binding,
) -> Result<Option<SignatureView>, ErrorView> {
    match effects_in(look.binding_effects, binding.binding_id.0) {
        None => Ok(None),
        Some(effects) => match unfit(binding.ty@, effects, binding.span) {
            Some(error) => Err(error),
            None => Ok(
                Some(
                    SignatureView {
                        effects: Some(effects),
                        handed: variable_return(look.facts, handed, binding),
                        params: Seq::empty(),
                    },
                ),
            ),
        },
    }
}

/// What is written on a function value whose effects are known.
pub open spec fn value_signature(
    expr: Expr,
    effects: Option<Seq<ParamEffect>>,
    handed: Option<ReturnEffect>,
) -> Result<Option<SignatureView>, ErrorView> {
    let span = expr.spec_span();
    match effects {
        Some(list) => match unfit(expr.tyv(), list, span) {
            Some(error) => Err(error),
            None => Ok(Some(SignatureView { effects, handed, params: Seq::empty() })),
        },
        None => match handed {
            None => Ok(None),
            Some(_) => if expr.tyv() is Func {
                Ok(Some(SignatureView { effects: None, handed, params: Seq::empty() }))
            } else {
                Err(broken_at(span, "return effect fact 写入非函数类型"@))
            },
        },
    }
}

/// What is written on an expression.
pub open spec fn expr_signature(
    expr: Expr,
    effects: Option<Seq<ParamEffect>>,
    handed: Option<ReturnEffect>,
    param_effects: Map<u32, Seq<ParamEffect>>,
    return_effects: Map<u32, ReturnEffect>,
) -> Result<Option<SignatureView>, ErrorView> {
    let span = expr.spec_span();
    match value_signature(expr, effects, handed) {
        Err(error) => Err(error),
        Ok(signature) => match expr {
            Expr::FuncLit { function_id, params, implicit_bindings, .. } => match effects_in(
                param_effects,
                function_id.0,
            ) {
                None => Err(broken_at(span, "FuncLit 缺少 final parameter effects"@)),
                Some(own) => if own.len() != implicit_bindings@.len() + params@.len() {
                    Err(broken_at(span, "FuncLit Param effect 数量漂移"@))
                } else {
                    match return_in(return_effects, function_id.0) {
                        None => Err(broken_at(span, "FuncLit 缺少 final return effect"@)),
                        Some(effect) => if expr.tyv() is Func {
                            Ok(
                                Some(
                                    SignatureView {
                                        effects,
                                        handed: Some(effect),
                                        params: own.skip(implicit_bindings@.len() as int),
                                    },
                                ),
                            )
                        } else {
                            Err(broken_at(span, "return effect fact 写入非函数类型"@))
                        },
                    }
                },
            },
            _ => Ok(signature),
        },
    }
}

/// What is written at a node.
pub open spec fn node_signature<'a>(
    look: Lookup<'a>,
    handed: Map<u32, ReturnEffect>,
    visit: Visit<'a>,
) -> Result<Option<SignatureView>, ErrorView> {
    match visit.node {
        Node::Expr(expr, _) => expr_signature(
            *expr,
            value_effects(look, visit)->Ok_0,
            value_return(look.facts, handed, visit)->Ok_0,
            look.effects,
            handed,
        ),
        _ => match binding_at(visit) {
            Some(binding) => variable_signature(look, handed, *binding),
            None => Ok(None),
        },
    }
}

/// What a mark writes on a function type.
pub open spec fn mark_signature(mark: Mark) -> Option<SignatureView> {
    match mark {
        Mark::Signature { effects, handed, params } => Some(
            SignatureView { effects: effects_view(effects), handed, params: params@ },
        ),
        _ => None,
    }
}

pub open spec fn writes_signature(mark: Mark, plan: Option<SignatureView>) -> bool {
    mark_signature(mark) == plan && (plan is None ==> mark is Keep)
}

fn copy_known(effects: &Option<Vec<ParamEffect>>) -> (r: Option<Vec<ParamEffect>>)
    ensures
        effects_view(r) == list_view(*effects),
{
    match effects {
        Some(list) => Some(copy_list(list)),
        None => None,
    }
}

fn sign_variable<'a>(
    binding: &Binding,
    facts: &ProgramFacts<'a>,
    return_effects: &ReturnTable,
    binding_effects: &EffectTable,
) -> (r: AliasResult<Mark>)
    ensures
        forall|look: Lookup<'a>|
            look.facts == facts@ && look.binding_effects == binding_effects@ ==> match
            #[trigger] variable_signature(look, return_effects@, *binding) {
                Ok(plan) => r matches Ok(mark) && writes_signature(mark, plan),
                Err(error) => fault_of(r) == Some(error),
            },
{
    let list = match binding_effects.get(binding.binding_id.0) {
        Some(list) => list,
        None => {
            return Ok(Mark::Keep);
        },
    };
    match check_fit(&binding.ty, list, binding.span) {
        Ok(()) => {},
        Err(error) => {
            return Err(error);
        },
    }
    let handed = match facts.bound(binding.binding_id) {
        Some(id) => return_effects.get(id.0),
        None => None,
    };
    Ok(Mark::Signature { effects: Some(copy_list(list)), handed, params: Vec::new() })
}

fn tail(list: &Vec<ParamEffect>, from: usize) -> (r: Vec<ParamEffect>)
    requires
        from <= list@.len(),
    ensures
        r@ == list@.skip(from as int),
{
    let mut out: Vec<ParamEffect> = Vec::new();
    let mut i: usize = from;
    while i < list.len()
        invariant
            from <= i <= list.len(),
            out@ == list@.subrange(from as int, i as int),
        decreases list.len() - i,
    {
        out.push(list[i]);
        i += 1;
        assert(out@ =~= list@.subrange(from as int, i as int));
    }
    out
}

fn sign_value(expr: &Expr, effects: &Option<Vec<ParamEffect>>, handed: Option<ReturnEffect>) -> (r:
    AliasResult<Mark>)
    ensures
        match value_signature(*expr, list_view(*effects), handed) {
            Ok(plan) => r matches Ok(mark) && writes_signature(mark, plan),
            Err(error) => fault_of(r) == Some(error),
        },
{
    match effects {
        Some(list) => match check_fit(expr.ty(), list, expr.span()) {
            Ok(()) => {
                let params: Vec<ParamEffect> = Vec::new();
                assert(params@ =~= Seq::empty());
                Ok(Mark::Signature { effects: copy_known(effects), handed, params })
            },
            Err(error) => Err(error),
        },
        None => match handed {
            None => Ok(Mark::Keep),
            Some(_) => match expr.ty() {
                Ty::Func { .. } => {
                    let params: Vec<ParamEffect> = Vec::new();
                    assert(params@ =~= Seq::empty());
                    Ok(Mark::Signature { effects: None, handed, params })
                },
                _ => Err(
                    broken_invariant(expr.span(), "return effect fact 写入非函数类型"),
                ),
            },
        },
    }
}

fn sign_expr(
    expr: &Expr,
    effects: &Option<Vec<ParamEffect>>,
    handed: Option<ReturnEffect>,
    parameter_effects: &EffectTable,
    return_effects: &ReturnTable,
) -> (r: AliasResult<Mark>)
    ensures
        match expr_signature(
            *expr,
            list_view(*effects),
            handed,
            parameter_effects@,
            return_effects@,
        ) {
            Ok(plan) => r matches Ok(mark) && writes_signature(mark, plan),
            Err(error) => fault_of(r) == Some(error),
        },
{
    let span = expr.span();
    let plain = match sign_value(expr, effects, handed) {
        Ok(mark) => mark,
        Err(error) => {
            return Err(error);
        },
    };
    match expr {
        Expr::FuncLit { function_id, params, implicit_bindings, .. } => {
            let own = match parameter_effects.get(function_id.0) {
                Some(own) => own,
                None => {
                    return Err(broken_invariant(span, "FuncLit 缺少 final parameter effects"));
                },
            };
            let implicit = implicit_bindings.len();
            if own.len() < implicit || own.len() - implicit != params.len() {
                return Err(broken_invariant(span, "FuncLit Param effect 数量漂移"));
            }
            let effect = match return_effects.get(function_id.0) {
                Some(effect) => effect,
                None => {
                    return Err(broken_invariant(span, "FuncLit 缺少 final return effect"));
                },
            };
            match expr.ty() {
                Ty::Func { .. } => Ok(
                    Mark::Signature {
                        effects: copy_known(effects),
                        handed: Some(effect),
                        params: tail(own, implicit),
                    },
                ),
                _ => Err(broken_invariant(span, "return effect fact 写入非函数类型")),
            }
        },
        _ => Ok(plain),
    }
}

/// What is written at the first nodes.
pub open spec fn signatures<'a>(
    look: Lookup<'a>,
    handed: Map<u32, ReturnEffect>,
    nodes: Seq<Visit<'a>>,
    upto: nat,
) -> Result<Seq<Option<SignatureView>>, ErrorView>
    decreases upto,
{
    if upto == 0 {
        Ok(Seq::empty())
    } else {
        match signatures(look, handed, nodes, (upto - 1) as nat) {
            Err(error) => Err(error),
            Ok(list) => match node_signature(look, handed, nodes[upto - 1]) {
                Err(error) => Err(error),
                Ok(plan) => Ok(list.push(plan)),
            },
        }
    }
}

proof fn lemma_signatures_stop<'a>(
    look: Lookup<'a>,
    handed: Map<u32, ReturnEffect>,
    nodes: Seq<Visit<'a>>,
    at: nat,
    upto: nat,
)
    requires
        at <= upto,
        signatures(look, handed, nodes, at) is Err,
    ensures
        signatures(look, handed, nodes, upto) == signatures(look, handed, nodes, at),
    decreases upto - at,
{
    if at < upto {
        lemma_signatures_stop(look, handed, nodes, at, (upto - 1) as nat);
    }
}

/// The marks write the signatures, node by node.
pub open spec fn all_signatures(marks: Seq<Mark>, plans: Seq<Option<SignatureView>>) -> bool {
    marks.len() == plans.len() && forall|i: int|
        0 <= i < marks.len() ==> writes_signature(#[trigger] marks[i], plans[i])
}

/// Settles what is written on the function types of a program.
pub fn collect_signatures<'a>(
    nodes: &Vec<Visit<'a>>,
    facts: &ProgramFacts<'a>,
    effects: &EffectTable,
    return_effects: &ReturnTable,
    binding_effects: &EffectTable,
    expr_effects: &Vec<Option<Vec<ParamEffect>>>,
    expr_return_effects: &Vec<Option<ReturnEffect>>,
) -> (r: AliasResult<Vec<Mark>>)
    requires
        expr_effects@.len() == nodes@.len(),
        expr_return_effects@.len() == nodes@.len(),
        forall|i: int|
            0 <= i < nodes@.len() ==> value_effects(
                final_lookup(facts@, effects@, binding_effects@),
                #[trigger] nodes@[i],
            ) == Ok::<Option<Seq<ParamEffect>>, ErrorView>(list_view(expr_effects@[i])),
        forall|i: int|
            0 <= i < nodes@.len() ==> value_return(facts@, return_effects@, #[trigger] nodes@[i])
                == Ok::<Option<ReturnEffect>, ErrorView>(expr_return_effects@[i]),
    ensures
        match signatures(
            final_lookup(facts@, effects@, binding_effects@),
            return_effects@,
            nodes@,
            nodes@.len(),
        ) {
            Ok(plans) => r matches Ok(marks) && all_signatures(marks@, plans),
            Err(error) => fault_of(r) == Some(error),
        },
{
    let ghost look = final_lookup(facts@, effects@, binding_effects@);
    let ghost mut plans: Seq<Option<SignatureView>> = Seq::empty();
    let mut marks: Vec<Mark> = Vec::new();
    let mut i: usize = 0;
    while i < nodes.len()
        invariant
            i <= nodes.len(),
            look == final_lookup(facts@, effects@, binding_effects@),
            expr_effects@.len() == nodes@.len(),
            expr_return_effects@.len() == nodes@.len(),
            forall|i: int|
                0 <= i < nodes@.len() ==> value_effects(look, #[trigger] nodes@[i]) == Ok::<
                    Option<Seq<ParamEffect>>,
                    ErrorView,
                >(list_view(expr_effects@[i])),
            forall|i: int|
                0 <= i < nodes@.len() ==> value_return(
                    facts@,
                    return_effects@,
                    #[trigger] nodes@[i],
                ) == Ok::<Option<ReturnEffect>, ErrorView>(expr_return_effects@[i]),
            signatures(look, return_effects@, nodes@, i as nat) == Ok::<
                Seq<Option<SignatureView>>,
                ErrorView,
            >(plans),
            marks@.len() == i,
            all_signatures(marks@, plans),
        decreases nodes.len() - i,
    {
        let visit = nodes[i];
        let ghost step = node_signature(look, return_effects@, visit);
        assert(value_effects(look, nodes@[i as int]) is Ok);
        let result = match visit.node {
            Node::Expr(expr, _) => sign_expr(
                expr,
                &expr_effects[i],
                expr_return_effects[i],
                effects,
                return_effects,
            ),
            _ => match declaration(visit) {
                Some(binding) => {
                    assert(step == variable_signature(look, return_effects@, *binding));
                    sign_variable(binding, facts, return_effects, binding_effects)
                },
                None => Ok(Mark::Keep),
            },
        };
        match result {
            Ok(mark) => {
                proof {
                    plans = plans.push(step->Ok_0);
                }
                marks.push(mark);
            },
            Err(error) => {
                proof {
                    lemma_signatures_stop(
                        look,
                        return_effects@,
                        nodes@,
                        (i + 1) as nat,
                        nodes@.len(),
                    );
                }
                return Err(error);
            },
        }
        i += 1;
    }
    Ok(marks)
}

} // verus!
