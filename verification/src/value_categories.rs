//! What each expression produces: a place, or a value of some kind.

use crate::model::{
    BuiltinCall, CallResult, CallTarget, CheckedProgram, DeepClonePlan, Expr, ExprCategory,
    ExprInfo, MethodTarget, ResolvedConversion, ValueCategory, with_info,
};
use crate::types::{
    AliasError, AliasResult, ErrorView, Span, Ty, TyView, broken_at, broken_invariant, fault_of,
    first_fault, lemma_first_fault_at, lemma_no_fault,
};
use crate::visit::{Node, Visit, Walk, program_nodes, program_walk};
use vstd::prelude::*;

verus! {

/// The types whose values own something that lives outside the value itself.
pub open spec fn owns_dynamically(ty: TyView) -> bool {
    match ty {
        TyView::Str => true,
        TyView::Func { .. } => true,
        TyView::Struct(_) => true,
        TyView::Result(_, _) => true,
        TyView::Array(_) => true,
        TyView::Iterator(_) => true,
        _ => false,
    }
}

/// Whether a type is a plain scalar.
pub fn is_inline_value(ty: &Ty) -> (r: bool)
    ensures
        r == ty@.is_inline(),
{
    matches!(ty, Ty::Int(_) | Ty::UInt(_) | Ty::Float(_) | Ty::Bool)
}

/// Whether values of the type own something that lives outside the value itself.
pub fn carries_dynamic_owner(ty: &Ty) -> (r: bool)
    ensures
        r == owns_dynamically(ty@),
{
    matches!(
        ty,
        Ty::Str | Ty::Func { .. } | Ty::Struct(_) | Ty::Result(..) | Ty::Array(_) | Ty::Iterator(_)
    )
}

/// The ownership question as the other passes ask it.
pub fn type_carries_dynamic_owner(ty: &Ty) -> (r: bool)
    ensures
        r == owns_dynamically(ty@),
{
    carries_dynamic_owner(ty)
}

/// Whether running the plan makes a new owner.
pub fn deep_clone_creates_owner(plan: &DeepClonePlan) -> (r: bool)
    ensures
        r == !(plan is Inline),
{
    match plan {
        DeepClonePlan::Inline => false,
        DeepClonePlan::String
        | DeepClonePlan::Struct { .. }
        | DeepClonePlan::Array(_)
        | DeepClonePlan::Result { .. } => true,
    }
}

pub open spec fn owned_result(result: Option<Box<CallResult>>) -> bool {
    match result {
        Some(plan) => *plan is Owned,
        None => false,
    }
}

pub open spec fn borrowed_result(result: Option<Box<CallResult>>) -> bool {
    match result {
        Some(plan) => *plan is Borrowed,
        None => false,
    }
}

/// Expressions that hand out a fresh value together with its ownership.
pub open spec fn makes_owner(expr: Expr) -> bool {
    match expr {
        Expr::Str(..) => true,
        Expr::This(..) => true,
        Expr::Typeof { .. } => true,
        Expr::ArrayLit { .. } => true,
        Expr::FuncLit { .. } => true,
        Expr::Cast { .. } => owns_dynamically(expr.tyv()),
        Expr::Convert { mode, .. } => mode is Convert && owns_dynamically(expr.tyv()),
        Expr::Call { result, target, .. } => match target {
            CallTarget::StructConstructor { .. } => true,
            CallTarget::ResultConstructor(_) => true,
            CallTarget::FunctionValue => owned_result(result),
            CallTarget::Builtin(builtin) => match builtin {
                BuiltinCall::DeepClone(plan) => !(plan is Inline),
                BuiltinCall::ShallowClone(_) => true,
                _ => false,
            },
        },
        Expr::MethodCall { result, target, .. } => match target {
            MethodTarget::StringUpper => true,
            MethodTarget::StringLower => true,
            MethodTarget::StringTrim => true,
            MethodTarget::ArrayIterator => true,
            MethodTarget::ArrayPop => owns_dynamically(expr.tyv()),
            MethodTarget::User { .. } => owned_result(result),
            _ => false,
        },
        Expr::ReadPlace { plan, .. } => !(plan is Inline),
        Expr::Move { .. } => owns_dynamically(expr.tyv()),
        _ => false,
    }
}

/// Expressions that hand out an alias of storage that something else owns.
pub open spec fn makes_alias(expr: Expr) -> bool {
    match expr {
        Expr::Borrow { .. } => true,
        Expr::Refer { .. } => true,
        Expr::Call { result, target, .. } => target is FunctionValue && borrowed_result(result),
        Expr::MethodCall { result, target, .. } => target is User && borrowed_result(result),
        _ => false,
    }
}

/// The category that the shape of an expression calls for. An identity conversion takes the
/// category of what it converts, which must be recorded already.
pub open spec fn category_of(expr: Expr) -> Result<ExprCategory, ErrorView> {
    match expr {
        Expr::Ident(_, id, _, _) if id is Some => Ok(ExprCategory::Place),
        Expr::Field { .. } => Ok(ExprCategory::Place),
        Expr::Index { .. } => Ok(ExprCategory::Place),
        Expr::Convert { expr: inner, mode, span, .. } if mode is Identity =>
            match inner.spec_info().category {
                Some(category) => Ok(category),
                None => Err(
                    broken_at(span, "Identity Convert 的 inner category 尚未 finalization"@),
                ),
            },
        _ => Ok(
            ExprCategory::Value(
                if makes_alias(expr) {
                    ValueCategory::BorrowedValue
                } else if makes_owner(expr) {
                    ValueCategory::OwnedTemporary
                } else if expr.tyv().is_inline() {
                    ValueCategory::InlineValue
                } else {
                    ValueCategory::General
                },
            ),
        ),
    }
}

/// Whether an expression hands out a fresh value together with its ownership.
pub fn produces_owned_temporary(expr: &Expr) -> (r: bool)
    ensures
        r == makes_owner(*expr),
{
    match expr {
        Expr::Str(..)
        | Expr::This(..)
        | Expr::Typeof { .. }
        | Expr::ArrayLit { .. }
        | Expr::FuncLit { .. } => true,
        Expr::Cast { .. } => carries_dynamic_owner(expr.ty()),
        Expr::Convert { mode, .. } => match mode {
            ResolvedConversion::Convert => carries_dynamic_owner(expr.ty()),
            ResolvedConversion::Identity => false,
        },
        Expr::Call { result, target, .. } => match target {
            CallTarget::StructConstructor { .. } | CallTarget::ResultConstructor(_) => true,
            CallTarget::FunctionValue => match result {
                Some(plan) => matches!(&**plan, CallResult::Owned),
                None => false,
            },
            CallTarget::Builtin(builtin) => match builtin {
                BuiltinCall::DeepClone(plan) => deep_clone_creates_owner(plan),
                BuiltinCall::ShallowClone(_) => true,
                _ => false,
            },
        },
        Expr::ReadPlace { plan, .. } => deep_clone_creates_owner(plan),
        Expr::Move { .. } => carries_dynamic_owner(expr.ty()),
        Expr::MethodCall { result, target, .. } => match target {
            MethodTarget::StringUpper
            | MethodTarget::StringLower
            | MethodTarget::StringTrim
            | MethodTarget::ArrayIterator => true,
            MethodTarget::ArrayPop => carries_dynamic_owner(expr.ty()),
            MethodTarget::User { .. } => match result {
                Some(plan) => matches!(&**plan, CallResult::Owned),
                None => false,
            },
            _ => false,
        },
        _ => false,
    }
}

fn produces_alias(expr: &Expr) -> (r: bool)
    ensures
        r == makes_alias(*expr),
{
    match expr {
        Expr::Borrow { .. } | Expr::Refer { .. } => true,
        Expr::Call { result, target: CallTarget::FunctionValue, .. } => match result {
            Some(plan) => matches!(&**plan, CallResult::Borrowed { .. }),
            None => false,
        },
        Expr::MethodCall { result, target: MethodTarget::User { .. }, .. } => match result {
            Some(plan) => matches!(&**plan, CallResult::Borrowed { .. }),
            None => false,
        },
        _ => false,
    }
}

/// The category that an identity conversion takes over from what it converts.
pub fn inherited_identity_category(inner: &Expr, span: Span) -> (r: AliasResult<ExprCategory>)
    ensures
        match inner.spec_info().category {
            Some(category) => r == Ok::<ExprCategory, AliasError>(category),
            None => fault_of(r) == Some(
                broken_at(span, "Identity Convert 的 inner category 尚未 finalization"@),
            ),
        },
{
    match inner.category() {
        Some(category) => Ok(category),
        None => Err(
            broken_invariant(span, "Identity Convert 的 inner category 尚未 finalization"),
        ),
    }
}

/// The category that the shape of an expression calls for.
pub fn expected_category(expr: &Expr) -> (r: AliasResult<ExprCategory>)
    ensures
        match category_of(*expr) {
            Ok(category) => r == Ok::<ExprCategory, AliasError>(category),
            Err(error) => fault_of(r) == Some(error),
        },
{
    match expr {
        Expr::Ident(_, Some(_), _, _) => {
            return Ok(ExprCategory::Place);
        },
        Expr::Field { .. } | Expr::Index { .. } => {
            return Ok(ExprCategory::Place);
        },
        Expr::Convert { expr: inner, mode: ResolvedConversion::Identity, span, .. } => {
            return inherited_identity_category(inner, *span);
        },
        _ => {},
    }
    if produces_alias(expr) {
        Ok(ExprCategory::Value(ValueCategory::BorrowedValue))
    } else if produces_owned_temporary(expr) {
        Ok(ExprCategory::Value(ValueCategory::OwnedTemporary))
    } else if is_inline_value(expr.ty()) {
        Ok(ExprCategory::Value(ValueCategory::InlineValue))
    } else {
        Ok(ExprCategory::Value(ValueCategory::General))
    }
}

/// Records the category of an expression that has none yet.
pub fn finalize(expr: &mut Expr) -> (r: AliasResult<()>)
    ensures
        old(expr).spec_info().category is Some ==> *final(expr) == *old(expr) && fault_of(r)
            == Some(broken_at(old(expr).spec_span(), "Expr category 被重复 finalization"@)),
        old(expr).spec_info().category is None ==> match category_of(*old(expr)) {
            Ok(category) => r is Ok && *final(expr) == with_info(
                *old(expr),
                ExprInfo { category: Some(category), ..old(expr).spec_info() },
            ),
            Err(error) => fault_of(r) == Some(error) && *final(expr) == *old(expr),
        },
{
    if expr.category().is_some() {
        return Err(broken_invariant(expr.span(), "Expr category 被重复 finalization"));
    }
    let category = match expected_category(expr) {
        Ok(category) => category,
        Err(error) => {
            return Err(error);
        },
    };
    let info = expr.info_mut();
    info.category = Some(category);
    Ok(())
}

/// What is wrong with the category recorded on an expression.
pub open spec fn category_fault(expr: Expr) -> Option<ErrorView> {
    match expr.spec_info().category {
        None => Some(broken_at(expr.spec_span(), "Expr category 未 finalization"@)),
        Some(recorded) => match category_of(expr) {
            Err(error) => Some(error),
            Ok(expected) => if recorded == expected {
                None
            } else {
                Some(
                    broken_at(
                        expr.spec_span(),
                        "Expr category 与 resolved HIR ownership 形状不一致"@,
                    ),
                )
            },
        },
    }
}

pub open spec fn visit_fault<'a>(visit: Visit<'a>) -> Option<ErrorView> {
    match visit.node {
        Node::Expr(expr, _) => category_fault(*expr),
        _ => None,
    }
}

/// Every callee counts, also the name of a constructor or builtin.
pub open spec fn category_walk() -> Walk {
    Walk { every_callee: true, into_functions: true, value_first: false, subject_last: false }
}

pub open spec fn program_faults<'a>(program: &'a CheckedProgram) -> Seq<Option<ErrorView>> {
    program_walk(category_walk(), program).map_values(|visit: Visit<'a>| visit_fault(visit))
}

fn check_category(expr: &Expr) -> (r: AliasResult<()>)
    ensures
        fault_of(r) == category_fault(*expr),
{
    let recorded = match expr.category() {
        Some(category) => category,
        None => {
            return Err(broken_invariant(expr.span(), "Expr category 未 finalization"));
        },
    };
    let expected = match expected_category(expr) {
        Ok(category) => category,
        Err(error) => {
            return Err(error);
        },
    };
    if recorded != expected {
        return Err(
            broken_invariant(expr.span(), "Expr category 与 resolved HIR ownership 形状不一致"),
        );
    }
    Ok(())
}

/// Checks the recorded category of every expression; reports the first that is wrong.
pub fn validate(program: &CheckedProgram) -> (r: AliasResult<()>)
    ensures
        fault_of(r) == first_fault(program_faults(program)),
{
    let nodes = program_nodes(
        Walk { every_callee: true, into_functions: true, value_first: false, subject_last: false },
        program,
    );
    let ghost faults = program_faults(program);
    let mut i: usize = 0;
    while i < nodes.len()
        invariant
            i <= nodes.len(),
            nodes@ == program_walk(category_walk(), program),
            faults == program_faults(program),
            forall|k: int| 0 <= k < i ==> (#[trigger] faults[k]) is None,
        decreases nodes.len() - i,
    {
        if let Node::Expr(expr, _) = nodes[i].node {
            match check_category(expr) {
                Ok(_) => {},
                Err(error) => {
                    proof {
                        lemma_first_fault_at(faults, i as int);
                    }
                    return Err(error);
                },
            }
        }
        assert(faults[i as int] is None);
        i += 1;
    }
    proof {
        lemma_no_fault(faults);
    }
    Ok(())
}

/// What `finalize` records is what `validate` asks for: the expression passes the check
/// exactly when its category could be settled at all.
pub proof fn law_finalized_category_is_valid(before: Expr, after: Expr, category: ExprCategory)
    requires
        category_of(before) == Ok::<ExprCategory, ErrorView>(category),
        after == with_info(before, (ExprInfo { category: Some(category), ..before.spec_info() })),
    ensures
        category_fault(after) is None,
{
    assert(after.tyv() == before.tyv());
}

/// A program passes the check exactly when every listed expression carries the category that
/// its shape calls for.
pub proof fn law_valid_categories(program: &CheckedProgram)
    ensures
        first_fault(program_faults(program)) is None <==> forall|i: int|
            0 <= i < program_walk(category_walk(), program).len() ==> match (
            #[trigger] program_walk(category_walk(), program)[i]).node {
                Node::Expr(expr, _) => expr.spec_info().category is Some && category_of(*expr)
                    == Ok::<ExprCategory, ErrorView>(expr.spec_info().category.unwrap()),
                _ => true,
            },
{
    let nodes = program_walk(category_walk(), program);
    let faults = program_faults(program);
    lemma_no_fault(faults);
    assert forall|i: int| 0 <= i < nodes.len() implies (faults[i] is None <==> match (
    #[trigger] nodes[i]).node {
        Node::Expr(expr, _) => expr.spec_info().category is Some && category_of(*expr) == Ok::<
            ExprCategory,
            ErrorView,
        >(expr.spec_info().category.unwrap()),
        _ => true,
    }) by {
        assert(faults[i] == visit_fault(nodes[i]));
    }
    if first_fault(faults) is None {
        assert forall|i: int| 0 <= i < nodes.len() implies match (#[trigger] nodes[i]).node {
            Node::Expr(expr, _) => expr.spec_info().category is Some && category_of(*expr) == Ok::<
                ExprCategory,
                ErrorView,
            >(expr.spec_info().category.unwrap()),
            _ => true,
        } by {
            assert(faults[i] is None);
        }
    }
    if forall|i: int|
        0 <= i < nodes.len() ==> match (#[trigger] nodes[i]).node {
            Node::Expr(expr, _) => expr.spec_info().category is Some && category_of(*expr) == Ok::<
                ExprCategory,
                ErrorView,
            >(expr.spec_info().category.unwrap()),
            _ => true,
        } {
        assert forall|i: int| 0 <= i < faults.len() implies (#[trigger] faults[i]) is None by {
            assert(faults[i] == visit_fault(nodes[i]));
        }
    }
}

} // verus!
