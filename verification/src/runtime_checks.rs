//! Which safety conditions are settled before the program runs.

use crate::model::{
    BinOp, CheckedProgram, Expr, Place, ResolvedConversion, RuntimeCheckRequirement, Stmt,
};
use crate::typed_contract::rule;
use crate::types::{
    AliasError, AliasResult, ErrorView, IntW, Span, Ty, TyView, broken_invariant, error, fault_of,
    first_fault, lemma_first_fault_at, lemma_no_fault,
};
use crate::visit::{Node, Visit, Walk, program_nodes, program_walk};
use vstd::prelude::*;

verus! {

/// The value of an index that is written out: a literal, its negation, or either of them
/// behind identity conversions, all of type `i32` and in its range.
pub open spec fn constant_index(expr: Expr) -> Option<int>
    decreases expr,
{
    if expr.tyv() != TyView::Int(IntW::W32) {
        None
    } else {
        match expr {
            Expr::Int(value, _, _) => if value <= i32::MAX {
                Some(value as int)
            } else {
                None
            },
            Expr::Neg { expr: inner, .. } => match *inner {
                Expr::Int(value, _, _) => if -(value as int) >= i32::MIN {
                    Some(-(value as int))
                } else {
                    None
                },
                _ => None,
            },
            Expr::Convert { expr: inner, mode, .. } => match mode {
                ResolvedConversion::Identity => constant_index(*inner),
                ResolvedConversion::Convert => None,
            },
            _ => None,
        }
    }
}

pub open spec fn index_value(constant: Option<i32>) -> Option<int> {
    match constant {
        Some(value) => Some(value as int),
        None => None,
    }
}

/// The value of an index that is written out.
pub fn constant_i32(expr: &Expr) -> (r: Option<i32>)
    ensures
        index_value(r) == constant_index(*expr),
    decreases expr,
{
    if !matches!(expr.ty(), Ty::Int(IntW::W32)) {
        return None;
    }
    match expr {
        Expr::Int(value, _, _) => {
            if *value <= 0x7fff_ffff {
                Some(*value as i32)
            } else {
                None
            }
        },
        Expr::Neg { expr: inner, .. } => match &**inner {
            Expr::Int(value, _, _) => {
                if *value == 0x8000_0000 {
                    Some(i32::MIN)
                } else if *value <= 0x7fff_ffff {
                    let magnitude: i32 = *value as i32;
                    Some(-magnitude)
                } else {
                    None
                }
            },
            _ => None,
        },
        Expr::Convert { expr: inner, mode, .. } => match mode {
            ResolvedConversion::Identity => constant_i32(inner),
            ResolvedConversion::Convert => None,
        },
        _ => None,
    }
}

/// Indexing an array literal with a written-out index is settled here: in range it needs no
/// test, out of range it is an error. Every other index is tested when the program runs.
pub fn array_index(receiver: &Expr, index: &Expr, span: Span) -> (r: AliasResult<
    RuntimeCheckRequirement,
>)
    ensures
        match (*receiver, constant_index(*index)) {
            (Expr::ArrayLit { elems, .. }, Some(value)) => if 0 <= value < elems@.len() {
                r == Ok::<RuntimeCheckRequirement, AliasError>(
                    RuntimeCheckRequirement::Proven,
                )
            } else {
                fault_of(r) == Some((ErrorView { msg: "数组字面量的常量下标越界"@, span }))
            },
            _ => r == Ok::<RuntimeCheckRequirement, AliasError>(
                RuntimeCheckRequirement::Required,
            ),
        },
{
    if let Expr::ArrayLit { elems, .. } = receiver {
        if let Some(value) = constant_i32(index) {
            if value < 0 || value as usize >= elems.len() {
                return Err(error(span, "数组字面量的常量下标越界"));
            }
            return Ok(RuntimeCheckRequirement::Proven);
        }
    }
    Ok(RuntimeCheckRequirement::Required)
}

/// An array behind a place can change its length between evaluations, so the test stays.
pub fn array_place_index(_base: &Place, _index: &Expr) -> (r: RuntimeCheckRequirement)
    ensures
        r == RuntimeCheckRequirement::Required,
{
    RuntimeCheckRequirement::Required
}

/// The value of an integer that is written out, with any number of negations and identity
/// conversions around it.
pub open spec fn written_integer(expr: Expr) -> Option<int>
    decreases expr,
{
    match expr {
        Expr::Int(value, _, _) => Some(value as int),
        Expr::Neg { expr: inner, .. } => match written_integer(*inner) {
            Some(value) => Some(-value),
            None => None,
        },
        Expr::Convert { expr: inner, mode, .. } => match mode {
            ResolvedConversion::Identity => written_integer(*inner),
            ResolvedConversion::Convert => None,
        },
        _ => None,
    }
}

pub proof fn lemma_written_integer_range(expr: Expr)
    ensures
        written_integer(expr) matches Some(value) ==> -u64::MAX <= value <= u64::MAX,
    decreases expr,
{
    match expr {
        Expr::Neg { expr: inner, .. } => lemma_written_integer_range(*inner),
        Expr::Convert { expr: inner, .. } => lemma_written_integer_range(*inner),
        _ => {},
    }
}

pub open spec fn wide_value(constant: Option<i128>) -> Option<int> {
    match constant {
        Some(value) => Some(value as int),
        None => None,
    }
}

/// The value of an integer that is written out.
pub fn constant_integer(expr: &Expr) -> (r: Option<i128>)
    ensures
        wide_value(r) == written_integer(*expr),
    decreases expr,
{
    match expr {
        Expr::Int(value, _, _) => Some(*value as i128),
        Expr::Neg { expr: inner, .. } => match constant_integer(inner) {
            Some(value) => {
                proof {
                    lemma_written_integer_range(**inner);
                }
                Some(-value)
            },
            None => None,
        },
        Expr::Convert { expr: inner, mode, .. } => match mode {
            ResolvedConversion::Identity => constant_integer(inner),
            ResolvedConversion::Convert => None,
        },
        _ => None,
    }
}

/// A literal zero, with any number of identity conversions around it.
pub open spec fn written_zero(expr: Expr) -> bool
    decreases expr,
{
    match expr {
        Expr::Int(value, _, _) => value == 0,
        Expr::Convert { expr: inner, mode, .. } => mode is Identity && written_zero(*inner),
        _ => false,
    }
}

/// Whether an integer is a written-out zero.
pub fn constant_integer_is_zero(expr: &Expr) -> (r: bool)
    ensures
        r == written_zero(*expr),
    decreases expr,
{
    match expr {
        Expr::Int(value, _, _) => *value == 0,
        Expr::Convert { expr: inner, mode, .. } => match mode {
            ResolvedConversion::Identity => constant_integer_is_zero(inner),
            ResolvedConversion::Convert => false,
        },
        _ => false,
    }
}

/// A sum that fits the counter of the analysis.
pub open spec fn counted(value: int) -> Option<int> {
    if i128::MIN <= value <= i128::MAX {
        Some(value)
    } else {
        None
    }
}

/// The distance of a pointer from the place it was taken from, where every step on the way is
/// written out.
pub open spec fn refer_offset(expr: Expr) -> Option<int>
    decreases expr,
{
    match expr {
        Expr::Refer { .. } => Some(0),
        Expr::Binary { op, lhs, rhs, pointer_offset_source, .. } => if pointer_offset_source is Some {
            match (refer_offset(*lhs), written_integer(*rhs)) {
                (Some(left), Some(right)) => counted(
                    if op is Add {
                        left + right
                    } else {
                        left - right
                    },
                ),
                _ => None,
            }
        } else {
            None
        },
        Expr::Convert { expr: inner, mode, .. } => match mode {
            ResolvedConversion::Identity => refer_offset(*inner),
            ResolvedConversion::Convert => None,
        },
        _ => None,
    }
}

fn shift(op: BinOp, left: i128, right: i128) -> (r: Option<i128>)
    ensures
        wide_value(r) == counted(
            if op is Add {
                left + right
            } else {
                left - right
            },
        ),
{
    if matches!(op, BinOp::Add) {
        left.checked_add(right)
    } else {
        left.checked_sub(right)
    }
}

/// The distance of a pointer from the place it was taken from.
pub fn known_refer_offset(expr: &Expr) -> (r: Option<i128>)
    ensures
        wide_value(r) == refer_offset(*expr),
    decreases expr,
{
    match expr {
        Expr::Refer { .. } => Some(0),
        Expr::Binary { op, lhs, rhs, pointer_offset_source, .. } => {
            if pointer_offset_source.is_none() {
                return None;
            }
            match (known_refer_offset(lhs), constant_integer(rhs)) {
                (Some(left), Some(right)) => shift(*op, left, right),
                _ => None,
            }
        },
        Expr::Convert { expr: inner, mode, .. } => match mode {
            ResolvedConversion::Identity => known_refer_offset(inner),
            ResolvedConversion::Convert => None,
        },
        _ => None,
    }
}

/// The tests that an operation on pointers needs: that both sides point into one object, that
/// a distance is a whole number of elements, and that a moved pointer stays in range.
#[derive(Debug, Clone, Copy, PartialEq, Eq, Structural)]
pub struct PointerChecks {
    pub provenance: Option<RuntimeCheckRequirement>,
    pub alignment: Option<RuntimeCheckRequirement>,
    pub bounds: Option<RuntimeCheckRequirement>,
}

pub open spec fn no_checks() -> PointerChecks {
    PointerChecks { provenance: None, alignment: None, bounds: None }
}

pub open spec fn bounds_only(bounds: RuntimeCheckRequirement) -> PointerChecks {
    PointerChecks { provenance: None, alignment: None, bounds: Some(bounds) }
}

/// The tests that a binary operation needs when its left side is a non-null pointer. Moving a
/// pointer by a known distance is settled if its position is known too: it may stand on its
/// object or just behind it.
pub open spec fn pointer_checks(op: BinOp, left: Expr, right: Expr) -> Result<
    PointerChecks,
    ErrorView,
> {
    match left.tyv() {
        TyView::Ptr { nullable: false, .. } => if (op is Add || op is Sub)
            && right.tyv().is_integer() {
            match (refer_offset(left), written_integer(right)) {
                (Some(current), Some(delta)) => {
                    let next = if op is Add {
                        current + delta
                    } else {
                        current - delta
                    };
                    if next == 0 || next == 1 {
                        Ok(bounds_only(RuntimeCheckRequirement::Proven))
                    } else {
                        Err(
                            ErrorView {
                                msg: "pointer arithmetic 的静态 offset 超出 source view"@,
                                span: right.spec_span(),
                            },
                        )
                    }
                },
                _ => Ok(
                    bounds_only(
                        if written_zero(right) {
                            RuntimeCheckRequirement::Proven
                        } else {
                            RuntimeCheckRequirement::Required
                        },
                    ),
                ),
            }
        } else if left.tyv() != right.tyv() {
            Ok(no_checks())
        } else if op is Lt || op is Le || op is Gt || op is Ge {
            Ok(
                PointerChecks {
                    provenance: Some(RuntimeCheckRequirement::Required),
                    alignment: None,
                    bounds: None,
                },
            )
        } else if op is Sub {
            Ok(
                PointerChecks {
                    provenance: Some(RuntimeCheckRequirement::Required),
                    alignment: Some(RuntimeCheckRequirement::Required),
                    bounds: None,
                },
            )
        } else {
            Ok(no_checks())
        },
        _ => Ok(no_checks()),
    }
}

/// The tests that a binary operation on pointers needs.
pub fn pointer_binary(op: BinOp, left: &Expr, right: &Expr) -> (r: AliasResult<PointerChecks>)
    ensures
        match pointer_checks(op, *left, *right) {
            Ok(checks) => r == Ok::<PointerChecks, AliasError>(checks),
            Err(error) => fault_of(r) == Some(error),
        },
{
    let left_ty = left.ty();
    let right_ty = right.ty();
    let none = PointerChecks { provenance: None, alignment: None, bounds: None };
    if !matches!(left_ty, Ty::Ptr { nullable: false, .. }) {
        return Ok(none);
    }
    if matches!(op, BinOp::Add | BinOp::Sub) && matches!(right_ty, Ty::Int(_) | Ty::UInt(_)) {
        if let (Some(current), Some(delta)) = (known_refer_offset(left), constant_integer(right)) {
            let next = shift(op, current, delta);
            if matches!(next, Some(0) | Some(1)) {
                return Ok(
                    PointerChecks {
                        provenance: None,
                        alignment: None,
                        bounds: Some(RuntimeCheckRequirement::Proven),
                    },
                );
            }
            return Err(
                error(right.span(), "pointer arithmetic 的静态 offset 超出 source view"),
            );
        }
        let bounds = if constant_integer_is_zero(right) {
            RuntimeCheckRequirement::Proven
        } else {
            RuntimeCheckRequirement::Required
        };
        return Ok(PointerChecks { provenance: None, alignment: None, bounds: Some(bounds) });
    }
    if !left_ty.same(right_ty) {
        return Ok(none);
    }
    Ok(
        match op {
            BinOp::Lt | BinOp::Le | BinOp::Gt | BinOp::Ge => PointerChecks {
                provenance: Some(RuntimeCheckRequirement::Required),
                alignment: None,
                bounds: None,
            },
            BinOp::Sub => PointerChecks {
                provenance: Some(RuntimeCheckRequirement::Required),
                alignment: Some(RuntimeCheckRequirement::Required),
                bounds: None,
            },
            _ => none,
        },
    )
}

/// A written-out index lies in the range of `i32`, and what it converts through keeps it.
pub proof fn law_constant_index_in_range(expr: Expr)
    ensures
        constant_index(expr) matches Some(value) ==> i32::MIN <= value <= i32::MAX,
    decreases expr,
{
    match expr {
        Expr::Convert { expr: inner, .. } => law_constant_index_in_range(*inner),
        _ => {},
    }
}

/// A written-out index is a written-out integer of the same value.
pub proof fn law_constant_index_is_written(expr: Expr)
    ensures
        constant_index(expr) is Some ==> written_integer(expr) == constant_index(expr),
    decreases expr,
{
    reveal_with_fuel(written_integer, 2);
    match expr {
        Expr::Convert { expr: inner, .. } => law_constant_index_is_written(*inner),
        _ => {},
    }
}

/// What an index is recorded to need, held against what it needs.
pub open spec fn index_fault(
    receiver: Expr,
    index: Expr,
    recorded: RuntimeCheckRequirement,
    span: Span,
) -> Option<ErrorView> {
    let needed = match (receiver, constant_index(index)) {
        (Expr::ArrayLit { elems, .. }, Some(value)) => if 0 <= value < elems@.len() {
            Ok(RuntimeCheckRequirement::Proven)
        } else {
            Err(ErrorView { msg: "数组字面量的常量下标越界"@, span })
        },
        _ => Ok(RuntimeCheckRequirement::Required),
    };
    match needed {
        Err(error) => Some(error),
        Ok(needed) => rule(recorded == needed, span, "Index bounds-check fact 漂移"@),
    }
}

/// What the indices of a place are recorded to need, from the root outwards: all of them are
/// tested.
pub open spec fn place_checks_fault(place: Place) -> Option<ErrorView>
    decreases place,
{
    match place {
        Place::Local { .. } => None,
        Place::Field { base, .. } => place_checks_fault(*base),
        Place::Index { base, bounds_check, info, .. } => match place_checks_fault(*base) {
            Some(error) => Some(error),
            None => rule(
                bounds_check == RuntimeCheckRequirement::Required,
                info.span,
                "Place Index bounds-check fact 漂移"@,
            ),
        },
    }
}

/// What is known to go wrong when an expression is evaluated, and what is recorded of its tests.
pub open spec fn static_fault(expr: Expr) -> Option<ErrorView> {
    match expr {
        Expr::Index { recv, idx, bounds_check, span, .. } => index_fault(
            *recv,
            *idx,
            bounds_check,
            span,
        ),
        Expr::Binary { op, lhs, rhs, .. } => match pointer_checks(op, *lhs, *rhs) {
            Ok(_) => None,
            Err(error) => Some(error),
        },
        Expr::ReadPlace { source, .. } => place_checks_fault(*source),
        Expr::Move { source, .. } => place_checks_fault(*source),
        Expr::Borrow { source, .. } => place_checks_fault(*source),
        Expr::Refer { source, .. } => place_checks_fault(*source),
        _ => None,
    }
}

pub open spec fn visit_fault<'a>(visit: Visit<'a>) -> Option<ErrorView> {
    match visit.node {
        Node::Expr(expr, _) => static_fault(*expr),
        Node::Stmt(stmt) => match *stmt {
            Stmt::Assign { target, .. } => place_checks_fault(target),
            _ => None,
        },
        _ => None,
    }
}

pub open spec fn static_walk() -> Walk {
    Walk { every_callee: true, into_functions: true, value_first: false, subject_last: false }
}

pub open spec fn program_faults<'a>(program: &'a CheckedProgram) -> Seq<Option<ErrorView>> {
    program_walk(static_walk(), program).map_values(|visit: Visit<'a>| visit_fault(visit))
}

fn check_place(place: &Place) -> (r: AliasResult<()>)
    ensures
        fault_of(r) == place_checks_fault(*place),
    decreases place,
{
    match place {
        Place::Local { .. } => Ok(()),
        Place::Field { base, .. } => check_place(base),
        Place::Index { base, index, bounds_check, info } => {
            match check_place(base) {
                Ok(()) => {},
                Err(error) => {
                    return Err(error);
                },
            }
            if *bounds_check != array_place_index(base, index) {
                return Err(broken_invariant(info.span, "Place Index bounds-check fact 漂移"));
            }
            Ok(())
        },
    }
}

fn check_static(expr: &Expr) -> (r: AliasResult<()>)
    ensures
        fault_of(r) == static_fault(*expr),
{
    match expr {
        Expr::Index { recv, idx, bounds_check, span, .. } => match array_index(recv, idx, *span) {
            Ok(needed) => if *bounds_check == needed {
                Ok(())
            } else {
                Err(broken_invariant(*span, "Index bounds-check fact 漂移"))
            },
            Err(error) => Err(error),
        },
        Expr::Binary { op, lhs, rhs, .. } => match pointer_binary(*op, lhs, rhs) {
            Ok(_) => Ok(()),
            Err(error) => Err(error),
        },
        Expr::ReadPlace { source, .. } => check_place(source),
        Expr::Move { source, .. } => check_place(source),
        Expr::Borrow { source, .. } => check_place(source),
        Expr::Refer { source, .. } => check_place(source),
        _ => Ok(()),
    }
}

/// Checks that no expression is known to go wrong, and that every index is recorded to be tested
/// unless it needs no test; reports the first that is wrong.
pub fn validate(program: &CheckedProgram) -> (r: AliasResult<()>)
    ensures
        fault_of(r) == first_fault(program_faults(program)),
{
    let nodes = program_nodes(
        Walk { every_callee: true, into_functions: true, value_first: false, subject_last: false },
        program,
    );
    let ghost faults = program_faults(program);
    let mut i: usize = 0;
    while i < nodes.len()
        invariant
            i <= nodes.len(),
            nodes@ == program_walk(static_walk(), program),
            faults == program_faults(program),
            forall|k: int| 0 <= k < i ==> (#[trigger] faults[k]) is None,
        decreases nodes.len() - i,
    {
        let result = match nodes[i].node {
            Node::Expr(expr, _) => check_static(expr),
            Node::Stmt(stmt) => match stmt {
                Stmt::Assign { target, .. } => check_place(target),
                _ => Ok(()),
            },
            _ => Ok(()),
        };
        if result.is_err() {
            proof {
                lemma_first_fault_at(faults, i as int);
            }
            return result;
        }
        assert(faults[i as int] is None);
        i += 1;
    }
    proof {
        lemma_no_fault(faults);
    }
    Ok(())
}

} // verus!
