//! What is written at calls and returns once the effects of all functions are known.

use crate::call_results::{call_result_for_effect, planned_result};
use crate::effects::EffectTable;
use crate::function_facts::{
    FactsView, ProgramFacts, effect_walk, function_in, functions_ok, method_in,
};
use crate::marks::Mark;
use crate::model::{CallResult, CallTarget, Expr, MethodTarget, ReturnPass};
use crate::return_effects::{
    DraftView, ReturnTable, callee_effect, classified, classify_return_expr, draft_effect, draft_of,
    resolved_callee_return_effect, return_in,
};
use crate::tree::{Tree, result_tree};
use crate::types::{
    AliasResult, ErrorView, FunctionId, ParamEffect, ReturnEffect, broken_at, broken_invariant,
    fault_of,
};
use crate::visit::{Node, Position, Visit, Walk, visit_nodes, walk_expr};
use vstd::prelude::*;

verus! {

/// What a call hands back, and the effect of the method that it calls.
pub struct HandedView {
    pub result: Option<Tree>,
    pub effect: Option<ReturnEffect>,
}

/// What a call hands back, and the number of the next loan.
pub open spec fn handed_at<'a>(
    facts: FactsView<'a>,
    return_effects: Map<u32, ReturnEffect>,
    expr: &'a Expr,
    current: Option<FunctionId>,
    next: u32,
) -> Result<(HandedView, u32), ErrorView> {
    let span = expr.spec_span();
    match *expr {
        Expr::Call { callee, args, target: CallTarget::FunctionValue, .. } => match callee_effect(
            &*callee,
            current,
            facts,
            return_effects,
        ) {
            Err(error) => Err(error),
            Ok(None) => Err(broken_at(span, "final call 缺少 resolved return effect"@)),
            Ok(Some(effect)) => match planned_result(
                effect,
                None,
                args@,
                current,
                facts,
                next,
                span,
            ) {
                Err(error) => Err(error),
                Ok((result, after)) => Ok(
                    (HandedView { result: Some(result), effect: None }, after),
                ),
            },
        },
        Expr::MethodCall {
            receiver_pass,
            args,
            target: MethodTarget::User { id, .. },
            ..
        } => match method_in(facts.bindings, id) {
            None => Err(broken_at(span, "method return effect 缺少 FunctionId"@)),
            Some(function) => match return_in(return_effects, function.0) {
                None => Err(broken_at(span, "method 缺少 resolved return effect"@)),
                Some(effect) => if receiver_pass is None {
                    Err(broken_at(span, "method receiver 缺少 parameter pass"@))
                } else {
                    match planned_result(
                        effect,
                        receiver_pass,
                        args@,
                        current,
                        facts,
                        next,
                        span,
                    ) {
                        Err(error) => Err(error),
                        Ok((result, after)) => Ok(
                            (HandedView { result: Some(result), effect: Some(effect) }, after),
                        ),
                    }
                },
            },
        },
        _ => Ok((HandedView { result: None, effect: None }, next)),
    }
}

pub open spec fn handed_tree(result: Option<CallResult>) -> Option<Tree> {
    match result {
        Some(result) => Some(result_tree(Some(Box::new(result)))),
        None => None,
    }
}

fn plan_handed<'a>(
    facts: &ProgramFacts<'a>,
    return_effects: &ReturnTable,
    expr: &'a Expr,
    current: Option<FunctionId>,
    next_loan_id: &mut u32,
) -> (r: AliasResult<(Option<CallResult>, Option<ReturnEffect>)>)
    requires
        functions_ok(facts@.functions),
    ensures
        match handed_at(facts@, return_effects@, expr, current, *old(next_loan_id)) {
            Ok((plan, next)) => r matches Ok((result, effect)) && handed_tree(result)
                == plan.result && effect == plan.effect && *final(next_loan_id) == next,
            Err(error) => fault_of(r) == Some(error),
        },
{
    let span = expr.span();
    match expr {
        Expr::Call { callee, args, target: CallTarget::FunctionValue, .. } => {
            let effect = match resolved_callee_return_effect(
                callee,
                current,
                facts,
                return_effects,
            ) {
                Ok(Some(effect)) => effect,
                Ok(None) => {
                    return Err(broken_invariant(span, "final call 缺少 resolved return effect"));
                },
                Err(error) => {
                    return Err(error);
                },
            };
            match call_result_for_effect(effect, None, args, current, facts, next_loan_id, span) {
                Ok(result) => Ok((Some(result), None)),
                Err(error) => Err(error),
            }
        },
        Expr::MethodCall {
            receiver_pass,
            args,
            target: MethodTarget::User { id, .. },
            ..
        } => {
            let function = match facts.method(*id) {
                Some(function) => function,
                None => {
                    return Err(broken_invariant(span, "method return effect 缺少 FunctionId"));
                },
            };
            let effect = match return_effects.get(function.0) {
                Some(effect) => effect,
                None => {
                    return Err(broken_invariant(span, "method 缺少 resolved return effect"));
                },
            };
            let pass = match receiver_pass {
                Some(pass) => pass,
                None => {
                    return Err(broken_invariant(span, "method receiver 缺少 parameter pass"));
                },
            };
            match call_result_for_effect(
                effect,
                Some(pass),
                args,
                current,
                facts,
                next_loan_id,
                span,
            ) {
                Ok(result) => Ok((Some(result), Some(effect))),
                Err(error) => Err(error),
            }
        },
        _ => Ok((None, None)),
    }
}

/// The node stands where a return takes its value from.
pub open spec fn in_return<'a>(visit: Visit<'a>) -> bool {
    visit.node matches Node::Expr(_, Position::Returned(_))
}

pub open spec fn reach_of<'a>(visit: Visit<'a>) -> nat {
    match visit.node {
        Node::Expr(expr, position) => walk_expr(
            effect_walk(),
            visit.scope,
            expr,
            position,
        ).len(),
        _ => 0,
    }
}

/// Some value that the same function returns has the node in it.
pub open spec fn covered<'a>(nodes: Seq<Visit<'a>>, i: int) -> bool {
    exists|j: int|
        0 <= j < i && nodes[j].scope == nodes[i].scope && in_return(#[trigger] nodes[j]) && i < j
            + reach_of(nodes[j])
}

/// The node is a value that its function returns.
pub open spec fn is_returned<'a>(nodes: Seq<Visit<'a>>, i: int) -> bool {
    in_return(nodes[i]) && !covered(nodes, i)
}

/// How a value that a function returns leaves it.
pub open spec fn returned_draft<'a>(
    facts: FactsView<'a>,
    param_effects: Map<u32, Seq<ParamEffect>>,
    return_effects: Map<u32, ReturnEffect>,
    visit: Visit<'a>,
) -> Result<Option<DraftView>, ErrorView> {
    match (visit.node, visit.scope) {
        (Node::Expr(value, _), Some(id)) => match function_in(facts.functions, id) {
            None => Ok(None),
            Some(function) => match classified(
                value,
                *function,
                param_effects,
                return_effects,
                facts,
            ) {
                Err(error) => Err(error),
                Ok(None) => Err(
                    broken_at(
                        value.spec_span(),
                        "final return draft 仍依赖 unresolved effect"@,
                    ),
                ),
                Ok(Some(draft)) => if return_in(return_effects, id.0) == Some(
                    draft_effect(draft),
                ) {
                    Ok(Some(draft))
                } else {
                    Err(
                        broken_at(value.spec_span(), "return pass 与 final return effect 漂移"@),
                    )
                },
            },
        },
        _ => Ok(None),
    }
}

pub open spec fn pass_draft(pass: Option<ReturnPass>) -> Option<DraftView> {
    match pass {
        Some(pass) => Some(draft_of(pass)),
        None => None,
    }
}

fn plan_return<'a>(
    facts: &ProgramFacts<'a>,
    parameter_effects: &EffectTable,
    return_effects: &ReturnTable,
    value: &'a Expr,
    scope: Option<FunctionId>,
) -> (r: AliasResult<Option<ReturnPass>>)
    requires
        functions_ok(facts@.functions),
    ensures
        forall|visit: Visit<'a>|
            visit.scope == scope && visit.node is Expr && visit.node->Expr_0 == value ==> match
            #[trigger] returned_draft(facts@, parameter_effects@, return_effects@, visit) {
                Ok(draft) => r matches Ok(pass) && pass_draft(pass) == draft,
                Err(error) => fault_of(r) == Some(error),
            },
{
    let id = match scope {
        Some(id) => id,
        None => {
            return Ok(None);
        },
    };
    let function = match facts.function(id) {
        Some(function) => function,
        None => {
            return Ok(None);
        },
    };
    match classify_return_expr(value, function, parameter_effects, return_effects, facts) {
        Err(error) => Err(error),
        Ok(None) => Err(
            broken_invariant(value.span(), "final return draft 仍依赖 unresolved effect"),
        ),
        Ok(Some(draft)) => {
            if return_effects.get(id.0) != Some(draft.effect()) {
                return Err(
                    broken_invariant(value.span(), "return pass 与 final return effect 漂移"),
                );
            }
            Ok(Some(draft.into_pass()))
        },
    }
}

/// What is written at a node.
pub struct OutcomeView {
    pub pass: Option<DraftView>,
    pub handed: HandedView,
}

/// What is written at a node, and the number of the next loan.
pub open spec fn node_outcome<'a>(
    facts: FactsView<'a>,
    param_effects: Map<u32, Seq<ParamEffect>>,
    return_effects: Map<u32, ReturnEffect>,
    nodes: Seq<Visit<'a>>,
    i: int,
    next: u32,
) -> Result<(Option<OutcomeView>, u32), ErrorView> {
    let visit = nodes[i];
    match visit.node {
        Node::Expr(expr, _) => {
            let draft = if is_returned(nodes, i) {
                returned_draft(facts, param_effects, return_effects, visit)
            } else {
                Ok(None)
            };
            match draft {
                Err(error) => Err(error),
                Ok(pass) => match handed_at(facts, return_effects, expr, visit.scope, next) {
                    Err(error) => Err(error),
                    Ok((handed, after)) => Ok((Some(OutcomeView { pass, handed }), after)),
                },
            }
        },
        _ => Ok((None, next)),
    }
}

/// What is written at the first nodes, and the number of the next loan.
pub open spec fn outcomes<'a>(
    facts: FactsView<'a>,
    param_effects: Map<u32, Seq<ParamEffect>>,
    return_effects: Map<u32, ReturnEffect>,
    nodes: Seq<Visit<'a>>,
    next: u32,
    upto: nat,
) -> Result<(Seq<Option<OutcomeView>>, u32), ErrorView>
    decreases upto,
{
    if upto == 0 {
        Ok((Seq::empty(), next))
    } else {
        match outcomes(facts, param_effects, return_effects, nodes, next, (upto - 1) as nat) {
            Err(error) => Err(error),
            Ok((list, so_far)) => match node_outcome(
                facts,
                param_effects,
                return_effects,
                nodes,
                upto - 1,
                so_far,
            ) {
                Err(error) => Err(error),
                Ok((plan, after)) => Ok((list.push(plan), after)),
            },
        }
    }
}

proof fn lemma_outcomes_stop<'a>(
    facts: FactsView<'a>,
    param_effects: Map<u32, Seq<ParamEffect>>,
    return_effects: Map<u32, ReturnEffect>,
    nodes: Seq<Visit<'a>>,
    next: u32,
    at: nat,
    upto: nat,
)
    requires
        at <= upto,
        outcomes(facts, param_effects, return_effects, nodes, next, at) is Err,
    ensures
        outcomes(facts, param_effects, return_effects, nodes, next, upto) == outcomes(
            facts,
            param_effects,
            return_effects,
            nodes,
            next,
            at,
        ),
    decreases upto - at,
{
    if at < upto {
        lemma_outcomes_stop(
            facts,
            param_effects,
            return_effects,
            nodes,
            next,
            at,
            (upto - 1) as nat,
        );
    }
}

/// A mark writes an outcome; where there is none it keeps the node.
pub open spec fn writes_outcome(mark: Mark, plan: Option<OutcomeView>) -> bool {
    match plan {
        None => mark is Keep,
        Some(plan) => mark matches Mark::Outcome { pass, result, effect } && pass_draft(pass)
            == plan.pass && handed_tree(result) == plan.handed.result && effect
            == plan.handed.effect,
    }
}

pub open spec fn all_outcomes(marks: Seq<Mark>, plans: Seq<Option<OutcomeView>>) -> bool {
    marks.len() == plans.len() && forall|i: int|
        0 <= i < marks.len() ==> writes_outcome(#[trigger] marks[i], plans[i])
}

/// How far the values that the functions return reach, among the first nodes.
struct Reach {
    list: Vec<(Option<FunctionId>, usize, usize)>,
}

spec fn reach_ok<'a>(
    list: Seq<(Option<FunctionId>, usize, usize)>,
    nodes: Seq<Visit<'a>>,
    upto: int,
) -> bool {
    &&& forall|k: int|
        0 <= k < list.len() ==> {
            let (scope, at, len) = #[trigger] list[k];
            &&& at < upto
            &&& in_return(nodes[at as int])
            &&& nodes[at as int].scope == scope
            &&& len == reach_of(nodes[at as int])
        }
    &&& forall|j: int|
        #![trigger nodes[j]]
        0 <= j < upto && in_return(nodes[j]) ==> exists|k: int|
            0 <= k < list.len() && (#[trigger] list[k]).1 == j
}

impl Reach {
    fn covers<'a>(&self, nodes: &Vec<Visit<'a>>, i: usize) -> (r: bool)
        requires
            i < nodes@.len(),
            reach_ok(self.list@, nodes@, i as int),
        ensures
            r == covered(nodes@, i as int),
    {
        let scope = nodes[i].scope;
        let mut k: usize = 0;
        while k < self.list.len()
            invariant
                k <= self.list.len(),
                i < nodes@.len(),
                scope == nodes@[i as int].scope,
                reach_ok(self.list@, nodes@, i as int),
                forall|m: int|
                    0 <= m < k ==> {
                        let (s, at, len) = #[trigger] self.list@[m];
                        !(s == scope && i < at + len)
                    },
            decreases self.list.len() - k,
        {
            let (s, at, len) = self.list[k];
            assert(self.list@[k as int] == (s, at, len));
            if s == scope && i - at < len {
                assert(in_return(nodes@[at as int]));
                return true;
            }
            k += 1;
        }
        assert(!covered(nodes@, i as int)) by {
            if covered(nodes@, i as int) {
                let j = choose|j: int|
                    0 <= j < i && nodes@[j].scope == nodes@[i as int].scope && in_return(
                        #[trigger] nodes@[j],
                    ) && i < j + reach_of(nodes@[j]);
                let m = choose|m: int| 0 <= m < self.list@.len() && (#[trigger] self.list@[m]).1 == j;
                assert(self.list@[m].2 == reach_of(nodes@[j]));
            }
        }
        false
    }
}

/// Settles what is written at the calls and returns of a program.
pub fn collect_return_maps<'a>(
    nodes: &Vec<Visit<'a>>,
    facts: &ProgramFacts<'a>,
    parameter_effects: &EffectTable,
    return_effects: &ReturnTable,
    next_loan_id: &mut u32,
) -> (r: AliasResult<Vec<Mark>>)
    requires
        functions_ok(facts@.functions),
    ensures
        match outcomes(
            facts@,
            parameter_effects@,
            return_effects@,
            nodes@,
            *old(next_loan_id),
            nodes@.len(),
        ) {
            Ok((plans, next)) => r matches Ok(marks) && all_outcomes(marks@, plans)
                && *final(next_loan_id) == next,
            Err(error) => fault_of(r) == Some(error),
        },
{
    let ghost first = *next_loan_id;
    let ghost mut plans: Seq<Option<OutcomeView>> = Seq::empty();
    let mut reach = Reach { list: Vec::new() };
    let mut marks: Vec<Mark> = Vec::new();
    let mut i: usize = 0;
    while i < nodes.len()
        invariant
            i <= nodes.len(),
            functions_ok(facts@.functions),
            first == *old(next_loan_id),
            reach_ok(reach.list@, nodes@, i as int),
            outcomes(
                facts@,
                parameter_effects@,
                return_effects@,
                nodes@,
                first,
                i as nat,
            ) == Ok::<(Seq<Option<OutcomeView>>, u32), ErrorView>((plans, *next_loan_id)),
            marks@.len() == i,
            all_outcomes(marks@, plans),
        decreases nodes.len() - i,
    {
        let visit = nodes[i];
        let ghost before = *next_loan_id;
        let ghost step = node_outcome(
            facts@,
            parameter_effects@,
            return_effects@,
            nodes@,
            i as int,
            before,
        );
        let result = match visit.node {
            Node::Expr(expr, position) => {
                let returned = match position {
                    Position::Returned(_) => !reach.covers(nodes, i),
                    _ => false,
                };
                let draft = if returned {
                    plan_return(facts, parameter_effects, return_effects, expr, visit.scope)
                } else {
                    Ok(None)
                };
                assert(returned == is_returned(nodes@, i as int));
                assert(returned ==> (match returned_draft(
                    facts@,
                    parameter_effects@,
                    return_effects@,
                    visit,
                ) {
                    Ok(plan) => draft matches Ok(pass) && pass_draft(pass) == plan,
                    Err(error) => fault_of(draft) == Some(error),
                }));
                match draft {
                    Err(error) => Err(error),
                    Ok(pass) => match plan_handed(
                        facts,
                        return_effects,
                        expr,
                        visit.scope,
                        next_loan_id,
                    ) {
                        Ok((result, effect)) => Ok(Mark::Outcome { pass, result, effect }),
                        Err(error) => Err(error),
                    },
                }
            },
            _ => Ok(Mark::Keep),
        };
        match result {
            Ok(mark) => {
                proof {
                    plans = plans.push(step->Ok_0.0);
                }
                marks.push(mark);
            },
            Err(error) => {
                proof {
                    lemma_outcomes_stop(
                        facts@,
                        parameter_effects@,
                        return_effects@,
                        nodes@,
                        first,
                        (i + 1) as nat,
                        nodes@.len(),
                    );
                }
                return Err(error);
            },
        }
        note_reach(&mut reach, nodes, i);
        i += 1;
    }
    Ok(marks)
}

fn note_reach<'a>(reach: &mut Reach, nodes: &Vec<Visit<'a>>, i: usize)
    requires
        i < nodes@.len(),
        reach_ok(old(reach).list@, nodes@, i as int),
    ensures
        reach_ok(final(reach).list@, nodes@, i + 1),
{
    let ghost known = reach.list@;
    let visit = nodes[i];
    if let Node::Expr(expr, position) = visit.node {
        if let Position::Returned(_) = position {
            let inside = nodes_in(visit.scope, expr, position);
            reach.list.push((visit.scope, i, inside));
            assert(reach.list@[known.len() as int] == (visit.scope, i, inside));
            assert forall|j: int|
                #![trigger nodes@[j]]
                0 <= j < i + 1 && in_return(nodes@[j]) implies exists|k: int|
                0 <= k < reach.list@.len() && (#[trigger] reach.list@[k]).1 == j by {
                if j < i {
                    let k = choose|k: int| 0 <= k < known.len() && (#[trigger] known[k]).1 == j;
                    assert(reach.list@[k] == known[k]);
                } else {
                    assert(reach.list@[known.len() as int].1 == j);
                }
            }
            assert forall|k: int| 0 <= k < reach.list@.len() implies {
                let (scope, at, len) = #[trigger] reach.list@[k];
                &&& at < i + 1
                &&& in_return(nodes@[at as int])
                &&& nodes@[at as int].scope == scope
                &&& len == reach_of(nodes@[at as int])
            } by {
                if k < known.len() {
                    assert(reach.list@[k] == known[k]);
                }
            }
        }
    }
}

/// The number of nodes at an expression, itself included.
fn nodes_in<'a>(scope: Option<FunctionId>, expr: &'a Expr, position: Position<'a>) -> (r: usize)
    ensures
        r == walk_expr(effect_walk(), scope, expr, position).len(),
{
    let list = visit_nodes(
        Walk { every_callee: true, into_functions: true, value_first: true, subject_last: false },
        Visit { node: Node::Expr(expr, position), scope },
    );
    list.len()
}

} // verus!
