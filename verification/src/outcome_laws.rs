//! What calls give back and functions hand out, node by node.

use crate::call_results::planned_result;
use crate::function_facts::{FactsView, function_in, method_in};
use crate::model::{CallTarget, Expr, MethodTarget};
use crate::outcomes::{OutcomeView, handed_at, is_returned, node_outcome, outcomes};
use crate::return_effects::{DraftView, callee_effect, function_ids, return_in};
use crate::return_laws::{by_owner, by_value, lemma_shared};
use crate::tree::{Label, Tree};
use crate::types::{ParamEffect, ReturnEffect};
use crate::visit::{Node, Visit};
use vstd::prelude::*;

verus! {

/// What a call gives back goes with what its function hands out.
pub open spec fn given_back(result: Option<Tree>, effect: ReturnEffect) -> bool {
    match result {
        Some(tree) => match effect {
            ReturnEffect::Inline => tree.label == Label::ResultInline,
            ReturnEffect::Owned => tree.label == Label::ResultOwned,
            ReturnEffect::Borrowed(_) => tree.label is ResultBorrowed,
        },
        None => false,
    }
}

/// What a value is handed back as goes with what its function hands out.
pub open spec fn handed_out(draft: DraftView, effect: ReturnEffect) -> bool {
    match effect {
        ReturnEffect::Inline => by_value(draft),
        ReturnEffect::Owned => by_owner(draft),
        ReturnEffect::Borrowed(source) => match draft {
            DraftView::BorrowPlace(_, origin) => origin == source,
            DraftView::BorrowValue(origin) => origin == source,
            _ => false,
        },
    }
}

/// What is found out of a node: for the call of a function what it gives back, the same for every
/// function that may be called; for a value that is handed back, what it is handed back as.
pub open spec fn found_out<'a>(
    facts: FactsView<'a>,
    return_effects: Map<u32, ReturnEffect>,
    nodes: Seq<Visit<'a>>,
    i: int,
    outcome: Option<OutcomeView>,
) -> bool {
    match (nodes[i].node, outcome) {
        (Node::Expr(expr, _), Some(outcome)) => {
            &&& match *expr {
                Expr::Call { callee, target: CallTarget::FunctionValue, .. } => {
                    &&& function_ids(&*callee, nodes[i].scope, facts) is Ok
                    &&& exists|effect: ReturnEffect| #[trigger]
                        given_back(outcome.handed.result, effect) && forall|k: int|
                            0 <= k < function_ids(&*callee, nodes[i].scope, facts)->Ok_0.len()
                                ==> return_in(
                                return_effects,
                                (#[trigger] function_ids(
                                    &*callee,
                                    nodes[i].scope,
                                    facts,
                                )->Ok_0[k]).0,
                            ) == Some(effect)
                },
                Expr::MethodCall { target: MethodTarget::User { id, .. }, .. } => match method_in(
                    facts.bindings,
                    id,
                ) {
                    Some(function) => match return_in(return_effects, function.0) {
                        Some(effect) => given_back(outcome.handed.result, effect)
                            && outcome.handed.effect == Some(effect),
                        None => false,
                    },
                    None => false,
                },
                _ => outcome.handed.result is None && outcome.handed.effect is None,
            }
            &&& match outcome.pass {
                Some(draft) => is_returned(nodes, i) && match nodes[i].scope {
                    Some(id) => match return_in(return_effects, id.0) {
                        Some(effect) => handed_out(draft, effect),
                        None => false,
                    },
                    None => false,
                },
                None => is_returned(nodes, i) ==> match nodes[i].scope {
                    Some(id) => function_in(facts.functions, id) is None,
                    None => true,
                },
            }
        },
        (Node::Expr(_, _), None) => false,
        (_, outcome) => outcome is None,
    }
}

proof fn lemma_outcome<'a>(
    facts: FactsView<'a>,
    param_effects: Map<u32, Seq<ParamEffect>>,
    return_effects: Map<u32, ReturnEffect>,
    nodes: Seq<Visit<'a>>,
    i: int,
    next: u32,
)
    requires
        0 <= i < nodes.len(),
        node_outcome(facts, param_effects, return_effects, nodes, i, next) is Ok,
    ensures
        found_out(
            facts,
            return_effects,
            nodes,
            i,
            node_outcome(facts, param_effects, return_effects, nodes, i, next)->Ok_0.0,
        ),
{
    if let Node::Expr(expr, _) = nodes[i].node {
        let current = nodes[i].scope;
        let handed = handed_at(facts, return_effects, expr, current, next)->Ok_0.0;
        match *expr {
            Expr::Call { callee, args, target: CallTarget::FunctionValue, .. } => {
                let effect = callee_effect(&*callee, current, facts, return_effects)->Ok_0->0;
                let ids = function_ids(&*callee, current, facts)->Ok_0;
                lemma_shared(ids, return_effects, callee.spec_span(), None, effect);
                assert(planned_result(
                    effect,
                    None,
                    args@,
                    current,
                    facts,
                    next,
                    expr.spec_span(),
                ) is Ok);
                assert(given_back(handed.result, effect));
            },
            _ => {},
        }
    }
}

/// The outcomes of a program are found node by node.
pub proof fn law_outcomes_go_with_the_functions<'a>(
    facts: FactsView<'a>,
    param_effects: Map<u32, Seq<ParamEffect>>,
    return_effects: Map<u32, ReturnEffect>,
    nodes: Seq<Visit<'a>>,
    next: u32,
    upto: nat,
    i: int,
)
    requires
        0 <= i < upto <= nodes.len(),
        outcomes(facts, param_effects, return_effects, nodes, next, upto) is Ok,
    ensures
        outcomes(facts, param_effects, return_effects, nodes, next, upto)->Ok_0.0.len() == upto,
        found_out(
            facts,
            return_effects,
            nodes,
            i,
            outcomes(facts, param_effects, return_effects, nodes, next, upto)->Ok_0.0[i],
        ),
    decreases upto,
{
    let less = (upto - 1) as nat;
    lemma_outcomes_len(facts, param_effects, return_effects, nodes, next, less);
    let so_far = outcomes(
        facts,
        param_effects,
        return_effects,
        nodes,
        next,
        less,
    )->Ok_0.1;
    if i == less {
        lemma_outcome(facts, param_effects, return_effects, nodes, i, so_far);
    } else {
        law_outcomes_go_with_the_functions(
            facts,
            param_effects,
            return_effects,
            nodes,
            next,
            less,
            i,
        );
    }
}

proof fn lemma_outcomes_len<'a>(
    facts: FactsView<'a>,
    param_effects: Map<u32, Seq<ParamEffect>>,
    return_effects: Map<u32, ReturnEffect>,
    nodes: Seq<Visit<'a>>,
    next: u32,
    upto: nat,
)
    requires
        outcomes(facts, param_effects, return_effects, nodes, next, upto) is Ok,
    ensures
        outcomes(facts, param_effects, return_effects, nodes, next, upto)->Ok_0.0.len() == upto,
    decreases upto,
{
    if upto > 0 {
        lemma_outcomes_len(
            facts,
            param_effects,
            return_effects,
            nodes,
            next,
            (upto - 1) as nat,
        );
    }
}

} // verus!
