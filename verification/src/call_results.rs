//! What calls hand back, and what is recorded of it.

use crate::expr_places::{law_place_is_its_own_storage, same_source, same_storage};
use crate::function_facts::{FactsView, ProgramFacts, field_writability, functions_ok, meta_of};
use crate::model::{ArgumentPass, CallArg, CallResult, Place, ReturnPass};
use crate::return_effects::{DraftView, ReturnDraft, call_source, map_call_borrow_source};
use crate::sets::LoanSet;
use crate::tree::{Label, Tree, part, place_tree, result_tree};
use crate::types::{
    AliasError, AliasResult, ErrorView, FunctionId, LoanId, ReturnEffect, Span, Ty, TyView,
    broken_at, broken_invariant, error, fault_of, no_span, told,
};
use vstd::prelude::*;

verus! {

/// The type of a place.
pub open spec fn place_type(place: Tree) -> TyView {
    match place.label {
        Label::LocalPlace(_, ty) => ty,
        Label::FieldPlace(_, ty) => ty,
        Label::IndexPlace(ty, _) => ty,
        _ => TyView::Unknown,
    }
}

pub open spec fn place_span(place: Tree) -> Span {
    match place.span {
        Some(span) => span,
        None => no_span(),
    }
}

/// Whether a place can be written through an alias. Elements of arrays cannot.
pub open spec fn writable<'a>(place: Tree, facts: FactsView<'a>) -> Result<bool, ErrorView> {
    let span = place_span(place);
    match place.label {
        Label::LocalPlace(id, _) => match meta_of(facts, id) {
            Some(meta) => Ok(meta.mutable),
            None => Err(broken_at(span, "borrow source root 缺少 binding metadata"@)),
        },
        Label::FieldPlace(index, _) => match place_type(place.kids[0]) {
            TyView::Struct(name) => match field_writability(facts.program.items@, name) {
                Some(list) if index < list.len() => Ok(list[index as int]),
                _ => Err(broken_at(span, "Field borrow source 缺少可写性事实"@)),
            },
            _ => Err(broken_at(span, "Field borrow source base 不是 struct"@)),
        },
        _ => Ok(false),
    }
}

/// Whether a place can be written through an alias.
pub fn place_terminal_writable<'a>(place: &Place, facts: &ProgramFacts<'a>) -> (r: AliasResult<
    bool,
>)
    requires
        functions_ok(facts@.functions),
    ensures
        match writable(place_tree(*place), facts@) {
            Ok(flag) => r == Ok::<bool, AliasError>(flag),
            Err(error) => fault_of(r) == Some(error),
        },
{
    match place {
        Place::Local { binding_id, info } => match facts.meta(*binding_id) {
            Some(meta) => Ok(meta.mutable),
            None => Err(broken_invariant(info.span, "borrow source root 缺少 binding metadata")),
        },
        Place::Field { base, field_index, info } => {
            assert(place_tree(*place).kids[0] == place_tree(**base));
            assert(place_type(place_tree(**base)) == base.spec_info().ty@);
            match base.ty() {
                Ty::Struct(name) => match facts.writability(name) {
                    Some(list) if *field_index < list.len() => Ok(list[*field_index]),
                    _ => Err(
                        broken_invariant(info.span, "Field borrow source 缺少可写性事实"),
                    ),
                },
                _ => Err(broken_invariant(info.span, "Field borrow source base 不是 struct")),
            }
        },
        Place::Index { .. } => Ok(false),
    }
}

/// What a call with an effect hands back, and the number of the next loan.
pub open spec fn planned_result<'a>(
    effect: ReturnEffect,
    receiver_pass: Option<ArgumentPass>,
    args: Seq<CallArg>,
    current: Option<FunctionId>,
    facts: FactsView<'a>,
    next: u32,
    span: Span,
) -> Result<(Tree, u32), ErrorView> {
    match effect {
        ReturnEffect::Inline => Ok((part(Label::ResultInline, Seq::empty()), next)),
        ReturnEffect::Owned => Ok((part(Label::ResultOwned, Seq::empty()), next)),
        ReturnEffect::Borrowed(source) => if current is None {
            Err(told(span, "borrowed function result 不能存入 top-level/global storage"@))
        } else {
            match call_source(source, receiver_pass, args, facts, span) {
                Err(error) => Err(error),
                Ok(place) => if next == u32::MAX {
                    Err(told(span, "borrowed call return loan 数量超过编译器上限"@))
                } else {
                    match writable(place, facts) {
                        Err(error) => Err(error),
                        Ok(flag) => Ok(
                            (
                                part(
                                    Label::ResultBorrowed(LoanId(next), flag, None),
                                    seq![place],
                                ),
                                (next + 1) as u32,
                            ),
                        ),
                    }
                },
            }
        },
    }
}

/// Plans what a call with an effect hands back.
pub fn call_result_for_effect<'a>(
    effect: ReturnEffect,
    receiver_pass: Option<&ArgumentPass>,
    args: &Vec<CallArg>,
    current_function: Option<FunctionId>,
    facts: &ProgramFacts<'a>,
    next_loan_id: &mut u32,
    span: Span,
) -> (r: AliasResult<CallResult>)
    requires
        functions_ok(facts@.functions),
    ensures
        match planned_result(
            effect,
            match receiver_pass {
                Some(pass) => Some(*pass),
                None => None,
            },
            args@,
            current_function,
            facts@,
            *old(next_loan_id),
            span,
        ) {
            Ok((tree, next)) => r matches Ok(result) && result_tree(Some(Box::new(result))) == tree
                && *final(next_loan_id) == next,
            Err(error) => fault_of(r) == Some(error),
        },
{
    match effect {
        ReturnEffect::Inline => Ok(CallResult::Inline),
        ReturnEffect::Owned => Ok(CallResult::Owned),
        ReturnEffect::Borrowed(source) => {
            if current_function.is_none() {
                return Err(
                    error(span, "borrowed function result 不能存入 top-level/global storage"),
                );
            }
            let source = match map_call_borrow_source(source, receiver_pass, args, facts, span) {
                Ok(source) => source,
                Err(error) => {
                    return Err(error);
                },
            };
            if *next_loan_id == u32::MAX {
                return Err(error(span, "borrowed call return loan 数量超过编译器上限"));
            }
            let loan_id = LoanId(*next_loan_id);
            *next_loan_id = *next_loan_id + 1;
            match place_terminal_writable(&source, facts) {
                Ok(source_writable) => Ok(
                    CallResult::Borrowed { loan_id, source, source_writable, kind: None },
                ),
                Err(error) => Err(error),
            }
        },
    }
}

/// The loan that the result of a call is under.
pub open spec fn result_loan(result: Option<Box<CallResult>>) -> Option<LoanId> {
    match result {
        Some(result) => match *result {
            CallResult::Borrowed { loan_id, .. } => Some(loan_id),
            _ => None,
        },
        None => None,
    }
}

/// The recorded result of a call is what the effect of the callee and the source of the alias
/// make it.
pub open spec fn result_agrees(
    actual: Option<Box<CallResult>>,
    effect: ReturnEffect,
    expected: Option<(Tree, bool)>,
) -> bool {
    match actual {
        None => false,
        Some(result) => match (effect, *result) {
            (ReturnEffect::Inline, CallResult::Inline) => true,
            (ReturnEffect::Owned, CallResult::Owned) => true,
            (
                ReturnEffect::Borrowed(_),
                CallResult::Borrowed { source, source_writable, kind: Some(_), .. },
            ) => expected matches Some((place, flag)) && same_storage(place, place_tree(source))
                && flag == source_writable,
            _ => false,
        },
    }
}

/// What is wrong with the recorded result of a call.
pub open spec fn result_fault(
    actual: Option<Box<CallResult>>,
    effect: ReturnEffect,
    expected: Option<(Tree, bool)>,
    span: Span,
    seen: Set<LoanId>,
) -> Option<ErrorView> {
    if !result_agrees(actual, effect, expected) {
        Some(broken_at(span, "call result plan 与 resolved return effect 漂移"@))
    } else if result_loan(actual) matches Some(id) && seen.contains(id) {
        Some(broken_at(span, "borrowed call return LoanId 重复"@))
    } else {
        None
    }
}

/// Checks the recorded result of a call, and notes its loan.
pub fn validate_call_result(
    actual: &Option<Box<CallResult>>,
    expected_effect: ReturnEffect,
    expected: Option<(&Place, bool)>,
    span: Span,
    seen_loans: &mut LoanSet,
) -> (r: AliasResult<()>)
    ensures
        fault_of(r) == result_fault(
            *actual,
            expected_effect,
            match expected {
                Some((place, flag)) => Some((place_tree(*place), flag)),
                None => None,
            },
            span,
            old(seen_loans)@,
        ),
        r is Ok ==> final(seen_loans)@ == match result_loan(*actual) {
            Some(id) => old(seen_loans)@.insert(id),
            None => old(seen_loans)@,
        },
{
    if let Some(result) = actual {
        match (expected_effect, &**result) {
            (ReturnEffect::Inline, CallResult::Inline) => {
                return Ok(());
            },
            (ReturnEffect::Owned, CallResult::Owned) => {
                return Ok(());
            },
            (
                ReturnEffect::Borrowed(_),
                CallResult::Borrowed { loan_id, source, source_writable, kind: Some(_) },
            ) => {
                if let Some((place, flag)) = expected {
                    if same_source(place, source) && flag == *source_writable {
                        if seen_loans.contains(*loan_id) {
                            return Err(
                                broken_invariant(span, "borrowed call return LoanId 重复"),
                            );
                        }
                        seen_loans.insert(*loan_id);
                        return Ok(());
                    }
                }
            },
            _ => {},
        }
    }
    Err(broken_invariant(span, "call result plan 与 resolved return effect 漂移"))
}

/// A recorded return says what a draft says.
pub open spec fn pass_matches(expected: DraftView, actual: ReturnPass) -> bool {
    match (expected, actual) {
        (DraftView::Inline, ReturnPass::Inline) => true,
        (DraftView::OwnedValue, ReturnPass::OwnedValue) => true,
        (DraftView::OwnedTransfer(place), ReturnPass::OwnedTransfer { source }) => same_storage(
            place,
            place_tree(source),
        ),
        (DraftView::BorrowPlace(place, from), ReturnPass::BorrowPlace { source, origin }) => from
            == origin && same_storage(place, place_tree(source)),
        (DraftView::BorrowValue(from), ReturnPass::BorrowValue { origin }) => from == origin,
        _ => false,
    }
}

/// Whether a recorded return says what a draft says.
pub fn return_pass_matches(expected: &ReturnDraft, actual: &ReturnPass) -> (r: bool)
    ensures
        r == pass_matches(expected@, *actual),
{
    match (expected, actual) {
        (ReturnDraft::Inline, ReturnPass::Inline) => true,
        (ReturnDraft::OwnedValue, ReturnPass::OwnedValue) => true,
        (ReturnDraft::OwnedTransfer(place), ReturnPass::OwnedTransfer { source }) => same_source(
            place,
            source,
        ),
        (ReturnDraft::BorrowPlace(place, from), ReturnPass::BorrowPlace { source, origin }) =>
            *from == *origin && same_source(place, source),
        (ReturnDraft::BorrowValue(from), ReturnPass::BorrowValue { origin }) => *from == *origin,
        _ => false,
    }
}

/// A planned result agrees with the effect that it was planned for, once the kind of its loan
/// is known.
pub proof fn law_planned_result_agrees<'a>(
    effect: ReturnEffect,
    receiver_pass: Option<ArgumentPass>,
    args: Seq<CallArg>,
    current: Option<FunctionId>,
    facts: FactsView<'a>,
    next: u32,
    span: Span,
    result: CallResult,
)
    requires
        planned_result(effect, receiver_pass, args, current, facts, next, span) matches Ok((tree, _))
            && match (result, tree.label) {
            (
                CallResult::Borrowed { loan_id, source, source_writable, kind },
                Label::ResultBorrowed(id, flag, _),
            ) => loan_id == id && source_writable == flag && kind is Some && tree.kids
                == seq![place_tree(source)],
            (CallResult::Inline, Label::ResultInline) => true,
            (CallResult::Owned, Label::ResultOwned) => true,
            _ => false,
        },
    ensures
        result_agrees(
            Some(Box::new(result)),
            effect,
            match effect {
                ReturnEffect::Borrowed(source) => Some(
                    (
                        call_source(source, receiver_pass, args, facts, span)->Ok_0,
                        writable(
                            call_source(source, receiver_pass, args, facts, span)->Ok_0,
                            facts,
                        )->Ok_0,
                    ),
                ),
                _ => None,
            },
        ),
{
    let (tree, _) = planned_result(
        effect,
        receiver_pass,
        args,
        current,
        facts,
        next,
        span,
    )->Ok_0;
    if let CallResult::Borrowed { source, .. } = result {
        assert(tree.kids[0] == place_tree(source));
        law_place_is_its_own_storage(source);
        match effect {
            ReturnEffect::Borrowed(from) => {
                let place = call_source(from, receiver_pass, args, facts, span)->Ok_0;
                assert(tree.kids == seq![place]);
                assert(tree.kids[0] == place);
            },
            _ => {},
        }
    }
}

} // verus!
