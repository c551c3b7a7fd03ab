//! What the checks of a whole program promise.

use crate::argument_passes::{DemandView, LoanBook, PassSite, demand_of, planned_pass};
use crate::call_plans::{PassView, planned_args, planned_call, planned_calls};
use crate::effect_contract::{
    arg_faults, call_fault, effect_node_faults, final_lookup, program_effect_fault,
    recorded_effects, signature_faults, within,
};
use crate::effects::{Lookup, effects_in, effects_of, variable_effects};
use crate::expr_places::tree_root;
use crate::function_facts::{FactsView, effect_walk, is_alias, method_in, program_facts};
use crate::model::{
    ArgumentPass, BorrowKind, CallArg, CallTarget, CheckedProgram, Expr, MethodTarget, place_root,
};
use crate::return_laws::owns_storage;
use crate::tree::{Label, Tree};
use crate::types::{AliasResult, ErrorView, ParamEffect, TyView, first_fault, lemma_no_fault};
use crate::value_laws::{freely_given, law_arguments_are_passed_as_asked, lemma_named, named};
use crate::visit::{Node, Visit, program_walk};
use vstd::prelude::*;

verus! {

/// An argument is passed as its parameter asks.
pub open spec fn meets_parameter<'a>(
    value: Expr,
    pass: Option<ArgumentPass>,
    effect: ParamEffect,
    facts: FactsView<'a>,
) -> bool {
    match pass {
        None => false,
        Some(pass) => if !owns_storage(value.tyv()) {
            pass is Inline
        } else {
            match (effect, pass) {
                (ParamEffect::Owned, ArgumentPass::Owned) => freely_given(value),
                (ParamEffect::ReadBorrow, ArgumentPass::ReadBorrow { source, .. }) => named(value)
                    == Some(place_root(source)) && !is_alias(facts, place_root(source)),
                (ParamEffect::WriteBorrow, ArgumentPass::WriteBorrow { source, .. }) => named(value)
                    == Some(place_root(source)) && !is_alias(facts, place_root(source)),
                (ParamEffect::ReadBorrow, ArgumentPass::BorrowTemporary { kind }) => kind
                    == BorrowKind::Read && named(value) is None,
                (ParamEffect::WriteBorrow, ArgumentPass::BorrowTemporary { kind }) => kind
                    == BorrowKind::Write && named(value) is None,
                _ => false,
            }
        },
    }
}

/// The arguments of a call meet its parameters, one by one.
pub open spec fn meet_parameters<'a>(
    args: Seq<CallArg>,
    effects: Seq<ParamEffect>,
    from: int,
    facts: FactsView<'a>,
) -> bool {
    &&& effects.len() == args.len() + from
    &&& forall|k: int|
        0 <= k < args.len() ==> meets_parameter(
            (#[trigger] args[k]).value,
            args[k].pass,
            effects[from + k],
            facts,
        )
}

proof fn lemma_args_meet<'a>(
    args: Seq<CallArg>,
    effects: Seq<ParamEffect>,
    missing: Seq<char>,
    facts: FactsView<'a>,
)
    requires
        effects.len() == args.len(),
        first_fault(arg_faults(args, effects, missing, facts)) is None,
    ensures
        meet_parameters(args, effects, 0, facts),
{
    let faults = arg_faults(args, effects, missing, facts);
    lemma_no_fault(faults);
    assert forall|k: int| 0 <= k < args.len() implies meets_parameter(
        (#[trigger] args[k]).value,
        args[k].pass,
        effects[0 + k],
        facts,
    ) by {
        assert(faults[k] is None);
        if let Some(pass) = args[k].pass {
            law_arguments_are_passed_as_asked(args[k].value, effects[k], pass, facts);
        }
    }
}

/// In an accepted program every call gives its function what the parameters ask: as many
/// arguments as parameters, each passed as the function treats it. A method is given what it is
/// called on first. Calls of anything else pass nothing that way.
pub proof fn law_accepted_calls_meet_their_parameters<'a>(
    program: &'a CheckedProgram,
    inferred: Result<Seq<AliasResult<Vec<ParamEffect>>>, ErrorView>,
    i: int,
)
    requires
        program_effect_fault(program, inferred) is None,
        0 <= i < program_walk(effect_walk(), program).len(),
    ensures
        program_facts(program) is Ok,
        match program_walk(effect_walk(), program)[i].node {
            Node::Expr(expr, _) => match *expr {
                Expr::Call { callee, args, target: CallTarget::FunctionValue, .. } => match callee.tyv() {
                    TyView::Func { param_effects: Some(effects), .. } => meet_parameters(
                        args@,
                        effects,
                        0,
                        program_facts(program)->Ok_0,
                    ),
                    _ => false,
                },
                Expr::MethodCall {
                    recv,
                    receiver_pass,
                    args,
                    target: MethodTarget::User { id, .. },
                    ..
                } => match method_in(program_facts(program)->Ok_0.bindings, id) {
                    None => false,
                    Some(function) => match effects_in(
                        recorded_effects(program_facts(program)->Ok_0.functions),
                        function.0,
                    ) {
                        None => false,
                        Some(effects) => effects.len() > 0 && meets_parameter(
                            *recv,
                            receiver_pass,
                            effects[0],
                            program_facts(program)->Ok_0,
                        ) && meet_parameters(args@, effects, 1, program_facts(program)->Ok_0),
                    },
                },
                Expr::Call { args, .. } => forall|k: int|
                    0 <= k < args@.len() ==> (#[trigger] args@[k]).pass is None,
                _ => true,
            },
            _ => true,
        },
{
    let facts = program_facts(program)->Ok_0;
    let nodes = program_walk(effect_walk(), program);
    let recorded = recorded_effects(facts.functions);
    let bindings = variable_effects(facts, recorded, true)->Ok_0;
    let look = final_lookup(facts, recorded, bindings);
    let list = inferred->Ok_0;
    let stages = seq![
        first_fault(crate::effect_contract::body_faults(facts.functions, recorded, list)),
        crate::return_contract::return_fault(facts, recorded, nodes),
        first_fault(effect_node_faults(look, nodes)),
    ];
    lemma_no_fault(stages);
    assert(stages[2] is None);
    let faults = effect_node_faults(look, nodes);
    lemma_no_fault(faults);
    assert(faults[i] is None);
    if let Node::Expr(expr, _) = nodes[i].node {
        assert(call_fault(*expr, recorded, facts) is None);
        match *expr {
            Expr::Call { callee, args, target: CallTarget::FunctionValue, .. } => {
                if let TyView::Func { param_effects: Some(effects), .. } = callee.tyv() {
                    lemma_args_meet(
                        args@,
                        effects,
                        "FunctionValue CallArg 缺少 pass fact"@,
                        facts,
                    );
                }
            },
            Expr::MethodCall {
                recv,
                receiver_pass,
                args,
                target: MethodTarget::User { id, .. },
                ..
            } => {
                let function = method_in(facts.bindings, id)->0;
                let expected = effects_in(recorded, function.0)->0;
                let pass = receiver_pass->0;
                law_arguments_are_passed_as_asked(*recv, expected[0], pass, facts);
                let rest = expected.skip(1);
                lemma_args_meet(args@, rest, "user method CallArg 缺少 pass fact"@, facts);
                assert forall|k: int| 0 <= k < args@.len() implies meets_parameter(
                    (#[trigger] args@[k]).value,
                    args@[k].pass,
                    expected[1 + k],
                    facts,
                ) by {
                    assert(rest[0 + k] == expected[1 + k]);
                }
            },
            _ => {},
        }
    }
}

/// In an accepted program every function says of each of its parameters what it does with it, the
/// implicit ones first, and each parameter says the same of itself.
pub proof fn law_accepted_functions_declare_their_effects<'a>(
    program: &'a CheckedProgram,
    inferred: Result<Seq<AliasResult<Vec<ParamEffect>>>, ErrorView>,
    k: int,
)
    requires
        program_effect_fault(program, inferred) is None,
        0 <= k < program_facts(program)->Ok_0.functions.len(),
    ensures
        match *program_facts(program)->Ok_0.functions[k] {
            Expr::FuncLit { params, implicit_bindings, .. } => match program_facts(
                program,
            )->Ok_0.functions[k].tyv() {
                TyView::Func { params: types, param_effects: Some(effects), .. } => {
                    &&& effects.len() == types.len()
                    &&& effects.len() == implicit_bindings@.len() + params@.len()
                    &&& forall|i: int|
                        0 <= i < params@.len() ==> (#[trigger] params@[i]).effect == Some(
                            effects[implicit_bindings@.len() + i],
                        )
                },
                _ => false,
            },
            _ => false,
        },
{
    let facts = program_facts(program)->Ok_0;
    let faults = signature_faults(facts.functions);
    lemma_no_fault(faults);
    assert(faults[k] is None);
}

/// A planned pass is what a parameter asks of an argument.
pub open spec fn planned_as<'a>(
    pass: Tree,
    value: Expr,
    effect: ParamEffect,
    facts: FactsView<'a>,
) -> bool {
    if !owns_storage(value.tyv()) {
        pass.label == Label::PassInline
    } else {
        match effect {
            ParamEffect::Owned => pass.label == Label::PassOwned && freely_given(value),
            ParamEffect::ReadBorrow => match pass.label {
                Label::PassRead(_) => named(value) == Some(tree_root(pass.kids[0])) && !is_alias(
                    facts,
                    tree_root(pass.kids[0]),
                ),
                Label::PassTemporary(kind) => kind is Read && named(value) is None,
                _ => false,
            },
            ParamEffect::WriteBorrow => match pass.label {
                Label::PassWrite(_) => named(value) == Some(tree_root(pass.kids[0])) && !is_alias(
                    facts,
                    tree_root(pass.kids[0]),
                ),
                Label::PassTemporary(kind) => kind is Write && named(value) is None,
                _ => false,
            },
        }
    }
}

/// The planned passes of some arguments are what their parameters ask, one by one.
pub open spec fn all_planned_as<'a>(
    passes: Seq<Tree>,
    args: Seq<CallArg>,
    effects: Seq<ParamEffect>,
    from: int,
    facts: FactsView<'a>,
) -> bool {
    &&& passes.len() == args.len()
    &&& effects.len() == args.len() + from
    &&& forall|k: int|
        0 <= k < args.len() ==> planned_as(
            passes[k],
            (#[trigger] args[k]).value,
            effects[from + k],
            facts,
        )
}

proof fn lemma_planned_pass<'a>(
    value: Expr,
    effect: ParamEffect,
    facts: FactsView<'a>,
    site: PassSite,
    book: LoanBook,
)
    requires
        planned_pass(value, effect, facts, site, book) is Ok,
    ensures
        planned_as(planned_pass(value, effect, facts, site, book)->Ok_0.0, value, effect, facts),
{
    lemma_named(value);
    let pass = planned_pass(value, effect, facts, site, book)->Ok_0.0;
    if let DemandView::Lend(_, place) = demand_of(value, effect, facts) {
        assert(pass.kids[0] == place);
    }
}

proof fn lemma_planned_args<'a>(
    args: Seq<CallArg>,
    effects: Seq<ParamEffect>,
    facts: FactsView<'a>,
    call: usize,
    book: LoanBook,
    upto: nat,
)
    requires
        upto <= args.len(),
        planned_args(args, effects, facts, call, book, upto) is Ok,
    ensures
        planned_args(args, effects, facts, call, book, upto)->Ok_0.0.len() == upto,
        forall|k: int|
            0 <= k < upto ==> planned_as(
                planned_args(args, effects, facts, call, book, upto)->Ok_0.0[k],
                (#[trigger] args[k]).value,
                effects[k],
                facts,
            ),
    decreases upto,
{
    if upto > 0 {
        let less = (upto - 1) as nat;
        let at = less as int;
        lemma_planned_args(args, effects, facts, call, book, less);
        let (list, so_far) = planned_args(args, effects, facts, call, book, less)->Ok_0;
        let all = planned_args(args, effects, facts, call, book, upto)->Ok_0.0;
        lemma_planned_pass(
            args[at].value,
            effects[at],
            facts,
            PassSite::Argument(call, at as usize),
            so_far,
        );
        assert forall|k: int| 0 <= k < upto implies planned_as(
            all[k],
            (#[trigger] args[k]).value,
            effects[k],
            facts,
        ) by {
            if k < less {
                assert(all[k] == list[k]);
            }
        }
    }
}

/// What is planned for a node.
pub open spec fn planned_for<'a>(
    look: Lookup<'a>,
    visit: Visit<'a>,
    plan: Option<PassView>,
) -> bool {
    match visit.node {
        Node::Expr(expr, _) => match *expr {
            Expr::Call { callee, args, target: CallTarget::FunctionValue, .. } => match (
                plan,
                effects_of(within(look, visit.scope), &*callee),
            ) {
                (Some(plan), Ok(Some(effects))) => plan.receiver is None && all_planned_as(
                    plan.args,
                    args@,
                    effects,
                    0,
                    look.facts,
                ),
                _ => false,
            },
            Expr::MethodCall { recv, args, target: MethodTarget::User { id, .. }, .. } => match (
                plan,
                method_in(look.facts.bindings, id),
            ) {
                (Some(plan), Some(function)) => match (
                    plan.receiver,
                    effects_in(look.effects, function.0),
                ) {
                    (Some(receiver), Some(effects)) => effects.len() > 0 && planned_as(
                        receiver,
                        *recv,
                        effects[0],
                        look.facts,
                    ) && all_planned_as(plan.args, args@, effects, 1, look.facts),
                    _ => false,
                },
                _ => false,
            },
            Expr::MethodCall { target: MethodTarget::ArrayIterator, .. } => true,
            _ => plan is None,
        },
        _ => plan is None,
    }
}

proof fn lemma_planned_call<'a>(look: Lookup<'a>, visit: Visit<'a>, call: usize, book: LoanBook)
    requires
        planned_call(look, visit, call, book) is Ok,
    ensures
        planned_for(look, visit, planned_call(look, visit, call, book)->Ok_0.0),
{
    if let Node::Expr(expr, _) = visit.node {
        match *expr {
            Expr::Call { callee, args, target: CallTarget::FunctionValue, .. } => {
                let effects = effects_of(within(look, visit.scope), &*callee)->Ok_0->0;
                lemma_planned_args(args@, effects, look.facts, call, book, args@.len());
            },
            Expr::MethodCall { recv, args, target: MethodTarget::User { id, .. }, .. } => {
                let function = method_in(look.facts.bindings, id)->0;
                let effects = effects_in(look.effects, function.0)->0;
                let rest = effects.skip(1);
                lemma_planned_pass(*recv, effects[0], look.facts, PassSite::Receiver(call), book);
                let between = planned_pass(
                    *recv,
                    effects[0],
                    look.facts,
                    PassSite::Receiver(call),
                    book,
                )->Ok_0.1;
                lemma_planned_args(args@, rest, look.facts, call, between, args@.len());
                let passes = planned_args(
                    args@,
                    rest,
                    look.facts,
                    call,
                    between,
                    args@.len(),
                )->Ok_0.0;
                assert forall|k: int| 0 <= k < args@.len() implies planned_as(
                    passes[k],
                    (#[trigger] args@[k]).value,
                    effects[1 + k],
                    look.facts,
                ) by {
                    assert(rest[k] == effects[1 + k]);
                }
            },
            _ => {},
        }
    }
}

/// The passes of a program are planned call by call: every argument as the function that is called
/// treats it, what a method is called on first, and nothing for what calls no function of the
/// program.
pub proof fn law_passes_are_planned_call_by_call<'a>(
    look: Lookup<'a>,
    nodes: Seq<Visit<'a>>,
    book: LoanBook,
    upto: nat,
    i: int,
)
    requires
        0 <= i < upto <= nodes.len(),
        planned_calls(look, nodes, book, upto) is Ok,
    ensures
        planned_calls(look, nodes, book, upto)->Ok_0.0.len() == upto,
        planned_for(look, nodes[i], planned_calls(look, nodes, book, upto)->Ok_0.0[i]),
    decreases upto,
{
    let less = (upto - 1) as nat;
    let (list, so_far) = planned_calls(look, nodes, book, less)->Ok_0;
    lemma_plans_len(look, nodes, book, less);
    if i == less {
        lemma_planned_call(look, nodes[i], i as usize, so_far);
    } else {
        law_passes_are_planned_call_by_call(look, nodes, book, less, i);
    }
}

proof fn lemma_plans_len<'a>(
    look: Lookup<'a>,
    nodes: Seq<Visit<'a>>,
    book: LoanBook,
    upto: nat,
)
    requires
        planned_calls(look, nodes, book, upto) is Ok,
    ensures
        planned_calls(look, nodes, book, upto)->Ok_0.0.len() == upto,
    decreases upto,
{
    if upto > 0 {
        lemma_plans_len(look, nodes, book, (upto - 1) as nat);
    }
}

} // verus!
