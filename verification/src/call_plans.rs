//! Plans for the calls of a program: how every argument is passed.

use crate::argument_passes::{
    Demand, LoanBook, PassSite, SiteLoans, argument_pass, demand, demand_of, planned_pass,
};
use crate::effect_contract::within;
use crate::effects::{EffectTable, Lookup, copy_list, effects_in, effects_of, resolve_expr_effects};
use crate::function_facts::{FactsView, ProgramFacts, method_in};
use crate::marks::Mark;
use crate::model::{ArgumentPass, CallArg, CallTarget, Expr, MethodTarget};
use crate::tree::{Tree, pass_tree};
use crate::types::{
    AliasResult, ErrorView, FunctionId, ParamEffect, Ty, TyView, broken_at, broken_invariant,
    effects_view, fault_of,
};
use crate::visit::{Node, Visit};
use vstd::prelude::*;

verus! {

/// How a call passes its receiver and its arguments.
pub struct PassView {
    pub receiver: Option<Tree>,
    pub effects: Option<Seq<ParamEffect>>,
    pub args: Seq<Tree>,
}

/// The passes of the first arguments, and the loans afterwards.
pub open spec fn planned_args<'a>(
    args: Seq<CallArg>,
    effects: Seq<ParamEffect>,
    facts: FactsView<'a>,
    call: usize,
    book: LoanBook,
    upto: nat,
) -> Result<(Seq<Tree>, LoanBook), ErrorView>
    decreases upto,
{
    if upto == 0 {
        Ok((Seq::empty(), book))
    } else {
        match planned_args(args, effects, facts, call, book, (upto - 1) as nat) {
            Err(error) => Err(error),
            Ok((list, so_far)) => match planned_pass(
                args[upto - 1].value,
                effects[upto - 1],
                facts,
                PassSite::Argument(call, (upto - 1) as usize),
                so_far,
            ) {
                Err(error) => Err(error),
                Ok((pass, after)) => Ok((list.push(pass), after)),
            },
        }
    }
}

proof fn lemma_args_stop<'a>(
    args: Seq<CallArg>,
    effects: Seq<ParamEffect>,
    facts: FactsView<'a>,
    call: usize,
    book: LoanBook,
    at: nat,
    upto: nat,
)
    requires
        at <= upto,
        planned_args(args, effects, facts, call, book, at) is Err,
    ensures
        planned_args(args, effects, facts, call, book, upto) == planned_args(
            args,
            effects,
            facts,
            call,
            book,
            at,
        ),
    decreases upto - at,
{
    if at < upto {
        lemma_args_stop(args, effects, facts, call, book, at, (upto - 1) as nat);
    }
}

pub open spec fn pass_trees(list: Seq<ArgumentPass>) -> Seq<Tree> {
    Seq::new(list.len(), |i: int| pass_tree(Some(list[i])))
}

fn plan_args<'a>(
    args: &Vec<CallArg>,
    effects: &Vec<ParamEffect>,
    skip: usize,
    facts: &ProgramFacts<'a>,
    call: usize,
    loans: &mut SiteLoans,
    next_loan_id: &mut u32,
) -> (r: AliasResult<Vec<ArgumentPass>>)
    requires
        effects@.len() == skip + args@.len(),
    ensures
        match planned_args(
            args@,
            effects@.skip(skip as int),
            facts@,
            call,
            LoanBook { loans: old(loans)@, next: *old(next_loan_id) },
            args@.len(),
        ) {
            Ok((trees, book)) => r matches Ok(list) && pass_trees(list@) == trees && final(loans)@
                == book.loans && *final(next_loan_id) == book.next,
            Err(error) => fault_of(r) == Some(error),
        },
{
    let ghost book = LoanBook { loans: loans@, next: *next_loan_id };
    let ghost rest = effects@.skip(skip as int);
    let mut list: Vec<ArgumentPass> = Vec::new();
    let mut i: usize = 0;
    assert(pass_trees(list@) =~= Seq::empty());
    while i < args.len()
        invariant
            i <= args.len(),
            effects.len() == skip + args@.len(),
            rest == effects@.skip(skip as int),
            book == (LoanBook { loans: old(loans)@, next: *old(next_loan_id) }),
            planned_args(args@, rest, facts@, call, book, i as nat) == Ok::<
                (Seq<Tree>, LoanBook),
                ErrorView,
            >((pass_trees(list@), LoanBook { loans: loans@, next: *next_loan_id })),
        decreases args.len() - i,
    {
        assert(rest[i as int] == effects@[skip + i]);
        match argument_pass(
            &args[i].value,
            effects[skip + i],
            facts,
            PassSite::Argument(call, i),
            loans,
            next_loan_id,
        ) {
            Ok(pass) => {
                let ghost before = list@;
                list.push(pass);
                assert(pass_trees(list@) =~= pass_trees(before).push(pass_tree(Some(pass))));
            },
            Err(error) => {
                proof {
                    lemma_args_stop(
                        args@,
                        rest,
                        facts@,
                        call,
                        book,
                        (i + 1) as nat,
                        args@.len(),
                    );
                }
                return Err(error);
            },
        }
        i += 1;
    }
    Ok(list)
}

/// How a node that is a call passes its arguments, and the loans afterwards.
pub open spec fn planned_call<'a>(
    look: Lookup<'a>,
    visit: Visit<'a>,
    call: usize,
    book: LoanBook,
) -> Result<(Option<PassView>, LoanBook), ErrorView> {
    match visit.node {
        Node::Expr(expr, _) => {
            let span = expr.spec_span();
            match *expr {
                Expr::Call { callee, args, target: CallTarget::FunctionValue, .. } =>
                    match effects_of(within(look, visit.scope), &*callee) {
                        Err(error) => Err(error),
                        Ok(None) => Err(
                            broken_at(
                                callee.spec_span(),
                                "FunctionValue callee effects 无法唯一解析"@,
                            ),
                        ),
                        Ok(Some(effects)) => match callee.tyv() {
                            TyView::Func { params, .. } => if args@.len() != effects.len()
                                || args@.len() != params.len() {
                                Err(broken_at(span, "call effect arity 漂移"@))
                            } else {
                                match planned_args(
                                    args@,
                                    effects,
                                    look.facts,
                                    call,
                                    book,
                                    args@.len(),
                                ) {
                                    Err(error) => Err(error),
                                    Ok((list, after)) => Ok(
                                        (
                                            Some(
                                                PassView {
                                                    receiver: None,
                                                    effects: None,
                                                    args: list,
                                                },
                                            ),
                                            after,
                                        ),
                                    ),
                                }
                            },
                            _ => Err(
                                broken_at(
                                    callee.spec_span(),
                                    "FunctionValue callee 缺少完整函数类型"@,
                                ),
                            ),
                        },
                    },
                Expr::MethodCall { recv, args, target: MethodTarget::User { id, .. }, .. } =>
                    match method_in(look.facts.bindings, id) {
                        None => Err(broken_at(span, "MethodId 缺少 owning FunctionId"@)),
                        Some(function) => match effects_in(look.effects, function.0) {
                            None => Err(broken_at(span, "MethodId 缺少 parameter effects"@)),
                            Some(effects) => if effects.len() != args@.len() + 1 {
                                Err(broken_at(span, "method effect arity 漂移"@))
                            } else {
                                planned_method(
                                    *recv,
                                    args@,
                                    effects,
                                    look.facts,
                                    call,
                                    book,
                                )
                            },
                        },
                    },
                Expr::MethodCall { recv, target: MethodTarget::ArrayIterator, .. } =>
                    planned_iterator(*recv, look.facts, call, book),
                _ => Ok((None, book)),
            }
        },
        _ => Ok((None, book)),
    }
}

/// An iterator reads the array that it runs over, so a place that stays is lent to it.
pub open spec fn planned_iterator<'a>(
    recv: Expr,
    facts: FactsView<'a>,
    call: usize,
    book: LoanBook,
) -> Result<(Option<PassView>, LoanBook), ErrorView> {
    if demand_of(recv, ParamEffect::ReadBorrow, facts) is Lend {
        match planned_pass(recv, ParamEffect::ReadBorrow, facts, PassSite::Receiver(call), book) {
            Err(error) => Err(error),
            Ok((receiver, after)) => Ok(
                (
                    Some(
                        PassView { receiver: Some(receiver), effects: None, args: Seq::empty() },
                    ),
                    after,
                ),
            ),
        }
    } else {
        Ok((None, book))
    }
}

pub open spec fn planned_method<'a>(
    recv: Expr,
    args: Seq<CallArg>,
    effects: Seq<ParamEffect>,
    facts: FactsView<'a>,
    call: usize,
    book: LoanBook,
) -> Result<(Option<PassView>, LoanBook), ErrorView> {
    match planned_pass(recv, effects[0], facts, PassSite::Receiver(call), book) {
        Err(error) => Err(error),
        Ok((receiver, between)) => match planned_args(
            args,
            effects.skip(1),
            facts,
            call,
            between,
            args.len(),
        ) {
            Err(error) => Err(error),
            Ok((list, after)) => Ok(
                (
                    Some(
                        PassView { receiver: Some(receiver), effects: Some(effects), args: list },
                    ),
                    after,
                ),
            ),
        },
    }
}

/// What a mark says about the arguments of a call.
pub open spec fn mark_passes(mark: Mark) -> Option<PassView> {
    match mark {
        Mark::Passes { receiver, effects, args } => Some(
            PassView {
                receiver: match receiver {
                    Some(pass) => Some(pass_tree(Some(pass))),
                    None => None,
                },
                effects: effects_view(effects),
                args: pass_trees(args@),
            },
        ),
        _ => None,
    }
}

/// A mark writes a plan; where there is none it keeps the node.
pub open spec fn writes_passes(mark: Mark, plan: Option<PassView>) -> bool {
    mark_passes(mark) == plan && (plan is None ==> mark is Keep)
}

fn plan_value_call<'a>(
    expr: &'a Expr,
    scope: Option<FunctionId>,
    facts: &ProgramFacts<'a>,
    effects: &EffectTable,
    binding_effects: &EffectTable,
    strict: bool,
    call: usize,
    loans: &mut SiteLoans,
    next_loan_id: &mut u32,
) -> (r: AliasResult<Mark>)
    requires
        *expr matches Expr::Call { target: CallTarget::FunctionValue, .. },
    ensures
        forall|visit: Visit<'a>|
            visit.scope == scope && visit.node is Expr && visit.node->Expr_0 == expr ==> match
            #[trigger] planned_call(
                Lookup {
                    facts: facts@,
                    current: None,
                    binding_effects: binding_effects@,
                    effects: effects@,
                    strict,
                },
                visit,
                call,
                LoanBook { loans: old(loans)@, next: *old(next_loan_id) },
            ) {
                Ok((plan, book)) => r matches Ok(mark) && writes_passes(mark, plan)
                    && final(loans)@ == book.loans && *final(next_loan_id) == book.next,
                Err(error) => fault_of(r) == Some(error),
            },
{
    if let Expr::Call { callee, args, .. } = expr {
        let list = match resolve_expr_effects(
            callee,
            scope,
            facts,
            binding_effects,
            effects,
            strict,
        ) {
            Ok(Some(list)) => list,
            Ok(None) => {
                return Err(
                    broken_invariant(callee.span(), "FunctionValue callee effects 无法唯一解析"),
                );
            },
            Err(error) => {
                return Err(error);
            },
        };
        let count = match callee.ty() {
            Ty::Func { params, .. } => params.len(),
            _ => {
                return Err(
                    broken_invariant(callee.span(), "FunctionValue callee 缺少完整函数类型"),
                );
            },
        };
        if args.len() != list.len() || args.len() != count {
            return Err(broken_invariant(expr.span(), "call effect arity 漂移"));
        }
        assert(list@.skip(0) =~= list@);
        return match plan_args(args, &list, 0, facts, call, loans, next_loan_id) {
            Ok(passes) => Ok(Mark::Passes { receiver: None, effects: None, args: passes }),
            Err(error) => Err(error),
        };
    }
    Ok(Mark::Keep)
}

fn plan_method_call<'a>(
    expr: &'a Expr,
    facts: &ProgramFacts<'a>,
    effects: &EffectTable,
    call: usize,
    loans: &mut SiteLoans,
    next_loan_id: &mut u32,
) -> (r: AliasResult<Mark>)
    requires
        *expr matches Expr::MethodCall { target: MethodTarget::User { .. }, .. },
    ensures
        forall|look: Lookup<'a>, visit: Visit<'a>|
            look.facts == facts@ && look.effects == effects@ && visit.node is Expr
                && visit.node->Expr_0 == expr ==> match #[trigger] planned_call(
                look,
                visit,
                call,
                LoanBook { loans: old(loans)@, next: *old(next_loan_id) },
            ) {
                Ok((plan, book)) => r matches Ok(mark) && writes_passes(mark, plan)
                    && final(loans)@ == book.loans && *final(next_loan_id) == book.next,
                Err(error) => fault_of(r) == Some(error),
            },
{
    let span = expr.span();
    if let Expr::MethodCall { recv, args, target: MethodTarget::User { id, .. }, .. } = expr {
        let function = match facts.method(*id) {
            Some(function) => function,
            None => {
                return Err(broken_invariant(span, "MethodId 缺少 owning FunctionId"));
            },
        };
        let list = match effects.get(function.0) {
            Some(list) => list,
            None => {
                return Err(broken_invariant(span, "MethodId 缺少 parameter effects"));
            },
        };
        if list.len() == 0 || list.len() - 1 != args.len() {
            return Err(broken_invariant(span, "method effect arity 漂移"));
        }
        let receiver = match argument_pass(
            recv,
            list[0],
            facts,
            PassSite::Receiver(call),
            loans,
            next_loan_id,
        ) {
            Ok(pass) => pass,
            Err(error) => {
                return Err(error);
            },
        };
        return match plan_args(args, list, 1, facts, call, loans, next_loan_id) {
            Ok(passes) => Ok(
                Mark::Passes {
                    receiver: Some(receiver),
                    effects: Some(copy_list(list)),
                    args: passes,
                },
            ),
            Err(error) => Err(error),
        };
    }
    Ok(Mark::Keep)
}

fn plan_iterator<'a>(
    recv: &Expr,
    facts: &ProgramFacts<'a>,
    call: usize,
    loans: &mut SiteLoans,
    next_loan_id: &mut u32,
) -> (r: AliasResult<Mark>)
    ensures
        match planned_iterator(
            *recv,
            facts@,
            call,
            LoanBook { loans: old(loans)@, next: *old(next_loan_id) },
        ) {
            Ok((plan, book)) => r matches Ok(mark) && writes_passes(mark, plan) && final(loans)@
                == book.loans && *final(next_loan_id) == book.next,
            Err(error) => fault_of(r) == Some(error),
        },
{
    match demand(recv, ParamEffect::ReadBorrow, facts) {
        Demand::Lend(_, _) => {},
        _ => {
            return Ok(Mark::Keep);
        },
    }
    match argument_pass(
        recv,
        ParamEffect::ReadBorrow,
        facts,
        PassSite::Receiver(call),
        loans,
        next_loan_id,
    ) {
        Ok(pass) => {
            let args: Vec<ArgumentPass> = Vec::new();
            assert(pass_trees(args@) =~= Seq::empty());
            Ok(Mark::Passes { receiver: Some(pass), effects: None, args })
        },
        Err(error) => Err(error),
    }
}

/// The plans of the calls among the first nodes, and the loans afterwards.
pub open spec fn planned_calls<'a>(
    look: Lookup<'a>,
    nodes: Seq<Visit<'a>>,
    book: LoanBook,
    upto: nat,
) -> Result<(Seq<Option<PassView>>, LoanBook), ErrorView>
    decreases upto,
{
    if upto == 0 {
        Ok((Seq::empty(), book))
    } else {
        match planned_calls(look, nodes, book, (upto - 1) as nat) {
            Err(error) => Err(error),
            Ok((list, so_far)) => match planned_call(
                look,
                nodes[upto - 1],
                (upto - 1) as usize,
                so_far,
            ) {
                Err(error) => Err(error),
                Ok((plan, after)) => Ok((list.push(plan), after)),
            },
        }
    }
}

proof fn lemma_calls_stop<'a>(
    look: Lookup<'a>,
    nodes: Seq<Visit<'a>>,
    book: LoanBook,
    at: nat,
    upto: nat,
)
    requires
        at <= upto,
        planned_calls(look, nodes, book, at) is Err,
    ensures
        planned_calls(look, nodes, book, upto) == planned_calls(look, nodes, book, at),
    decreases upto - at,
{
    if at < upto {
        lemma_calls_stop(look, nodes, book, at, (upto - 1) as nat);
    }
}

/// The marks write the plans, node by node.
pub open spec fn all_passes(marks: Seq<Mark>, plans: Seq<Option<PassView>>) -> bool {
    marks.len() == plans.len() && forall|i: int|
        0 <= i < marks.len() ==> writes_passes(#[trigger] marks[i], plans[i])
}

/// Plans how all calls of a program pass their arguments. A site that has a loan keeps it.
pub fn collect_pass_maps<'a>(
    nodes: &Vec<Visit<'a>>,
    facts: &ProgramFacts<'a>,
    effects: &EffectTable,
    binding_effects: &EffectTable,
    loans: &mut SiteLoans,
    next_loan_id: &mut u32,
    strict: bool,
) -> (r: AliasResult<Vec<Mark>>)
    ensures
        match planned_calls(
            Lookup {
                facts: facts@,
                current: None,
                binding_effects: binding_effects@,
                effects: effects@,
                strict,
            },
            nodes@,
            LoanBook { loans: old(loans)@, next: *old(next_loan_id) },
            nodes@.len(),
        ) {
            Ok((plans, book)) => r matches Ok(marks) && all_passes(marks@, plans) && final(loans)@
                == book.loans && *final(next_loan_id) == book.next,
            Err(error) => fault_of(r) == Some(error),
        },
{
    let ghost look = Lookup {
        facts: facts@,
        current: None,
        binding_effects: binding_effects@,
        effects: effects@,
        strict,
    };
    let ghost book = LoanBook { loans: loans@, next: *next_loan_id };
    let ghost mut plans: Seq<Option<PassView>> = Seq::empty();
    let mut marks: Vec<Mark> = Vec::new();
    let mut i: usize = 0;
    while i < nodes.len()
        invariant
            i <= nodes.len(),
            look == (Lookup {
                facts: facts@,
                current: None,
                binding_effects: binding_effects@,
                effects: effects@,
                strict,
            }),
            book == (LoanBook { loans: old(loans)@, next: *old(next_loan_id) }),
            planned_calls(look, nodes@, book, i as nat) == Ok::<
                (Seq<Option<PassView>>, LoanBook),
                ErrorView,
            >((plans, LoanBook { loans: loans@, next: *next_loan_id })),
            marks@.len() == i,
            all_passes(marks@, plans),
        decreases nodes.len() - i,
    {
        let visit = nodes[i];
        let ghost so_far = LoanBook { loans: loans@, next: *next_loan_id };
        let ghost step = planned_call(look, visit, i, so_far);
        let result = match visit.node {
            Node::Expr(expr, _) => match expr {
                Expr::Call { target: CallTarget::FunctionValue, .. } => plan_value_call(
                    expr,
                    visit.scope,
                    facts,
                    effects,
                    binding_effects,
                    strict,
                    i,
                    loans,
                    next_loan_id,
                ),
                Expr::MethodCall { target: MethodTarget::User { .. }, .. } => plan_method_call(
                    expr,
                    facts,
                    effects,
                    i,
                    loans,
                    next_loan_id,
                ),
                Expr::MethodCall { recv, target: MethodTarget::ArrayIterator, .. } => plan_iterator(
                    recv,
                    facts,
                    i,
                    loans,
                    next_loan_id,
                ),
                _ => Ok(Mark::Keep),
            },
            _ => Ok(Mark::Keep),
        };
        assert(step == planned_call(look, visit, i, so_far));
        match result {
            Ok(mark) => {
                proof {
                    plans = plans.push(step->Ok_0.0);
                }
                marks.push(mark);
            },
            Err(error) => {
                proof {
                    lemma_calls_stop(look, nodes@, book, (i + 1) as nat, nodes@.len());
                }
                return Err(error);
            },
        }
        i += 1;
    }
    Ok(marks)
}

} // verus!
