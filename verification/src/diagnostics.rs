//! Diagnostics that are put together from pieces.

use crate::types::{AliasError, ErrorView, Span, decimal, number_text};
use vstd::prelude::*;

verus! {

pub fn error2(span: Span, a: &str, b: &str) -> (r: AliasError)
    ensures
        r@ == (ErrorView { msg: a@ + b@, span }),
{
    let mut text: String = String::from_str(a);
    text.append(b);
    AliasError { msg: text, span }
}

pub fn error3(span: Span, a: &str, b: &str, c: &str) -> (r: AliasError)
    ensures
        r@ == (ErrorView { msg: a@ + b@ + c@, span }),
{
    let mut text: String = String::from_str(a);
    text.append(b);
    text.append(c);
    AliasError { msg: text, span }
}

pub fn error4(span: Span, a: &str, b: &str, c: &str, d: &str) -> (r: AliasError)
    ensures
        r@ == (ErrorView { msg: a@ + b@ + c@ + d@, span }),
{
    let mut text: String = String::from_str(a);
    text.append(b);
    text.append(c);
    text.append(d);
    AliasError { msg: text, span }
}

pub fn error5(span: Span, a: &str, b: &str, c: &str, d: &str, e: &str) -> (r: AliasError)
    ensures
        r@ == (ErrorView { msg: a@ + b@ + c@ + d@ + e@, span }),
{
    let mut text: String = String::from_str(a);
    text.append(b);
    text.append(c);
    text.append(d);
    text.append(e);
    AliasError { msg: text, span }
}

pub fn error6(span: Span, a: &str, b: &str, c: &str, d: &str, e: &str, f: &str) -> (r: AliasError)
    ensures
        r@ == (ErrorView { msg: a@ + b@ + c@ + d@ + e@ + f@, span }),
{
    let mut text: String = String::from_str(a);
    text.append(b);
    text.append(c);
    text.append(d);
    text.append(e);
    text.append(f);
    AliasError { msg: text, span }
}

/// A number in decimal notation, with its sign.
pub open spec fn signed_decimal(value: int) -> Seq<char> {
    if value < 0 {
        "-"@ + decimal((-value) as nat)
    } else {
        decimal(value as nat)
    }
}

fn wide_text(value: u128) -> (r: String)
    ensures
        r@ == decimal(value as nat),
    decreases value,
{
    if value <= 0xffff_ffff_ffff_ffff {
        number_text(value as u64)
    } else {
        let mut text = wide_text(value / 10);
        text.append(number_text((value % 10) as u64).as_str());
        text
    }
}

/// Writes a number in decimal notation, with its sign.
pub fn signed_text(value: i128) -> (r: String)
    ensures
        r@ == signed_decimal(value as int),
{
    if value >= 0 {
        return wide_text(value as u128);
    }
    let mut text: String = String::from_str("-");
    // The smallest number has no positive counterpart of the same type.
    let below: u128 = (-(value + 1)) as u128;
    text.append(wide_text(below + 1).as_str());
    text
}

} // verus!
