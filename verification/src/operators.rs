//! Typing rules of operators and conversions.

use crate::model::BinOp;
use crate::types::{AliasError, AliasResult, ErrorView, Span, Ty, TyView, error, fault_of, ty_name};
use vstd::prelude::*;

verus! {

pub open spec fn is_logical(op: BinOp) -> bool {
    op is And || op is Or
}

pub open spec fn is_arithmetic(op: BinOp) -> bool {
    op is Add || op is Sub || op is Mul || op is Div
}

/// Remainder, shifts and bitwise operators: integers only.
pub open spec fn is_integral(op: BinOp) -> bool {
    op is Rem || op is Shl || op is Shr || op is BitAnd || op is BitXor || op is BitOr
}

/// The type of a binary operation, if its operands are allowed. An unsettled operand leaves
/// the result unsettled; otherwise both operands have the same type.
pub open spec fn binary_type(op: BinOp, l: TyView, r: TyView) -> Option<TyView> {
    if l is Unknown || r is Unknown {
        Some(TyView::Unknown)
    } else if l != r {
        None
    } else if is_logical(op) {
        if l is Bool {
            Some(TyView::Bool)
        } else {
            None
        }
    } else if is_arithmetic(op) {
        if l.is_numeric() {
            Some(l)
        } else {
            None
        }
    } else if is_integral(op) {
        if l.is_integer() {
            Some(l)
        } else {
            None
        }
    } else if l.is_numeric() || l is Str || (l is Bool && (op is EqEq || op is NotEq)) {
        Some(TyView::Bool)
    } else {
        None
    }
}

/// The diagnostic for operands that an operator does not take. Two numeric types that differ
/// are named as a mix; logical operators never are.
pub open spec fn binary_fault(op: BinOp, l: TyView, r: TyView, span: Span) -> ErrorView {
    if !is_logical(op) && l.is_numeric() && r.is_numeric() && l != r {
        ErrorView { msg: ty_name(l) + " 与 "@ + ty_name(r) + " 禁止隐式混算"@, span }
    } else {
        ErrorView { msg: "运算符不适用于 "@ + ty_name(l) + " 与 "@ + ty_name(r), span }
    }
}

fn mixed_operands(l: &Ty, r: &Ty, span: Span) -> (e: AliasError)
    ensures
        e.span == span,
        e.msg@ == ty_name(l@) + " 与 "@ + ty_name(r@) + " 禁止隐式混算"@,
{
    let mut text: String = l.name();
    text.append(" 与 ");
    text.append(r.name().as_str());
    text.append(" 禁止隐式混算");
    AliasError { msg: text, span }
}

fn op_mismatch(l: &Ty, r: &Ty, span: Span) -> (e: AliasError)
    ensures
        e.span == span,
        e.msg@ == "运算符不适用于 "@ + ty_name(l@) + " 与 "@ + ty_name(r@),
{
    let mut text: String = String::from_str("运算符不适用于 ");
    text.append(l.name().as_str());
    text.append(" 与 ");
    text.append(r.name().as_str());
    AliasError { msg: text, span }
}

/// The type of a binary operation.
pub fn binary_result_type(op: BinOp, l: &Ty, r: &Ty, span: Span) -> (res: AliasResult<Ty>)
    ensures
        match binary_type(op, l@, r@) {
            Some(ty) => res is Ok && res.unwrap()@ == ty,
            None => fault_of(res) == Some(binary_fault(op, l@, r@, span)),
        },
{
    if l.is_unknown() || r.is_unknown() {
        return Ok(Ty::Unknown);
    }
    let same = l.same(r);
    match op {
        BinOp::And | BinOp::Or => {
            if matches!(l, Ty::Bool) && matches!(r, Ty::Bool) {
                return Ok(Ty::Bool);
            }
            return Err(op_mismatch(l, r, span));
        },
        BinOp::Add | BinOp::Sub | BinOp::Mul | BinOp::Div => {
            if same && l.is_numeric() {
                return Ok(l.clone());
            }
        },
        BinOp::Rem
        | BinOp::Shl
        | BinOp::Shr
        | BinOp::BitAnd
        | BinOp::BitXor
        | BinOp::BitOr => {
            if same && matches!(l, Ty::Int(_) | Ty::UInt(_)) {
                return Ok(l.clone());
            }
        },
        BinOp::Lt | BinOp::Le | BinOp::Gt | BinOp::Ge => {
            if same && (l.is_numeric() || matches!(l, Ty::Str)) {
                return Ok(Ty::Bool);
            }
        },
        BinOp::EqEq | BinOp::NotEq => {
            if same && (l.is_numeric() || matches!(l, Ty::Str | Ty::Bool)) {
                return Ok(Ty::Bool);
            }
        },
    }
    if l.is_numeric() && r.is_numeric() && !same {
        Err(mixed_operands(l, r, span))
    } else {
        Err(op_mismatch(l, r, span))
    }
}

/// Operators whose operands take the type that the context expects of the result.
pub open spec fn flows_expected(op: BinOp, expected: TyView) -> bool {
    (is_arithmetic(op) && expected.is_numeric()) || (is_integral(op) && expected.is_integer())
}

/// Whether the operands of an operator take the type that the context expects of the result.
pub fn binary_flows_expected(op: BinOp, expected: &Ty) -> (r: bool)
    ensures
        r == flows_expected(op, expected@),
{
    match op {
        BinOp::Add | BinOp::Sub | BinOp::Mul | BinOp::Div => expected.is_numeric(),
        BinOp::Rem
        | BinOp::Shl
        | BinOp::Shr
        | BinOp::BitAnd
        | BinOp::BitXor
        | BinOp::BitOr => matches!(expected, Ty::Int(_) | Ty::UInt(_)),
        _ => false,
    }
}

/// Numbers convert to numbers, and every settled value to text.
pub open spec fn converts(source: TyView, target: TyView) -> bool {
    (source.is_numeric() && target.is_numeric()) || (target is Str && !(source is Unknown)
        && !(source is Unit))
}

/// Whether a value of one type converts to another.
pub fn conversion_exists(source: &Ty, target: &Ty) -> (r: bool)
    ensures
        r == converts(source@, target@),
{
    (source.is_numeric() && target.is_numeric()) || (matches!(target, Ty::Str)
        && !source.is_unknown() && !matches!(source, Ty::Unit))
}

/// Hands a type on unless it is the type of an expression without a value.
pub fn require_value(ty: Ty, span: Span) -> (r: AliasResult<Ty>)
    ensures
        ty@ is Unit ==> fault_of(r) == Some(
            (ErrorView { msg: "无返回值表达式不能用于值位置"@, span }),
        ),
        !(ty@ is Unit) ==> r == Ok::<Ty, AliasError>(ty),
{
    if matches!(ty, Ty::Unit) {
        Err(error(span, "无返回值表达式不能用于值位置"))
    } else {
        Ok(ty)
    }
}

/// The operand order of an operator plays no part in whether it is allowed, nor in the type of
/// its result.
pub proof fn law_binary_type_is_symmetric(op: BinOp, l: TyView, r: TyView)
    ensures
        binary_type(op, l, r) == binary_type(op, r, l),
{
}

/// Conversion between numbers goes both ways.
pub proof fn law_numeric_conversion_is_symmetric(a: TyView, b: TyView)
    requires
        a.is_numeric(),
        b.is_numeric(),
    ensures
        converts(a, b) && converts(b, a),
{
}

} // verus!
