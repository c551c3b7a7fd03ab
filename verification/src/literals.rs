//! The types of number literals.

use crate::ast;
use crate::types::{IntW, Ty, TyView, decimal, number_text};
use vstd::prelude::*;

verus! {

/// The number of values of an integer type of this width.
pub open spec fn values(w: IntW) -> nat {
    match w {
        IntW::W8 => 0x100,
        IntW::W16 => 0x1_0000,
        IntW::W32 => 0x1_0000_0000,
        IntW::W64 => 0x1_0000_0000_0000_0000,
    }
}

/// The number that a literal stands for is a value of the type.
pub open spec fn literal_fits(ty: TyView, magnitude: nat, negative: bool) -> bool {
    match ty {
        TyView::Int(w) => if negative {
            2 * magnitude <= values(w)
        } else {
            2 * magnitude < values(w)
        },
        TyView::UInt(w) => if negative {
            magnitude == 0
        } else {
            magnitude < values(w)
        },
        _ => false,
    }
}

/// Whether the number that a literal stands for is a value of the type.
pub fn int_literal_fits(ty: &Ty, magnitude: u64, negative: bool) -> (r: bool)
    ensures
        r == literal_fits(ty@, magnitude as nat, negative),
{
    match ty {
        Ty::Int(w) => {
            let half: u64 = match w {
                IntW::W8 => 0x80,
                IntW::W16 => 0x8000,
                IntW::W32 => 0x8000_0000,
                IntW::W64 => 0x8000_0000_0000_0000,
            };
            if negative {
                magnitude <= half
            } else {
                magnitude < half
            }
        },
        Ty::UInt(w) => if negative {
            magnitude == 0
        } else {
            match w {
                IntW::W8 => magnitude < 0x100,
                IntW::W16 => magnitude < 0x1_0000,
                IntW::W32 => magnitude < 0x1_0000_0000,
                IntW::W64 => true,
            }
        },
        _ => false,
    }
}

/// The type of an integer literal that nothing is expected of.
pub open spec fn default_positive(value: nat) -> TyView {
    if literal_fits(TyView::Int(IntW::W32), value, false) {
        TyView::Int(IntW::W32)
    } else if literal_fits(TyView::Int(IntW::W64), value, false) {
        TyView::Int(IntW::W64)
    } else {
        TyView::UInt(IntW::W64)
    }
}

pub fn default_positive_int_ty(value: u64) -> (r: Ty)
    ensures
        r@ == default_positive(value as nat),
{
    if value < 0x8000_0000 {
        Ty::Int(IntW::W32)
    } else if value < 0x8000_0000_0000_0000 {
        Ty::Int(IntW::W64)
    } else {
        Ty::UInt(IntW::W64)
    }
}

/// The type of a negative integer literal that nothing is expected of, if it has one.
pub open spec fn default_negative(magnitude: nat) -> Option<TyView> {
    if literal_fits(TyView::Int(IntW::W32), magnitude, true) {
        Some(TyView::Int(IntW::W32))
    } else if literal_fits(TyView::Int(IntW::W64), magnitude, true) {
        Some(TyView::Int(IntW::W64))
    } else {
        None
    }
}

pub fn default_negative_int_ty(magnitude: u64) -> (r: Option<Ty>)
    ensures
        match r {
            Some(ty) => default_negative(magnitude as nat) == Some(ty@),
            None => default_negative(magnitude as nat) is None,
        },
{
    if magnitude <= 0x8000_0000 {
        Some(Ty::Int(IntW::W32))
    } else if magnitude <= 0x8000_0000_0000_0000 {
        Some(Ty::Int(IntW::W64))
    } else {
        None
    }
}

/// The digits and the sign of an integer literal.
pub open spec fn literal_of(e: ast::Expr) -> Option<(u64, bool)> {
    match e.kind {
        ast::ExprKind::Int(value) => Some((value, false)),
        ast::ExprKind::Neg { expr } => match expr.kind {
            ast::ExprKind::Int(value) => Some((value, true)),
            _ => None,
        },
        _ => None,
    }
}

/// How a literal takes the type that is expected of it.
pub enum SlotView {
    /// The literal has nothing to do with the type.
    Other,
    /// The literal takes the type.
    Takes,
    /// The literal is no value of the type.
    OutOfRange(Seq<char>),
}

pub open spec fn literal_text(magnitude: u64, negative: bool) -> Seq<char> {
    if negative {
        "-"@ + decimal(magnitude as nat)
    } else {
        decimal(magnitude as nat)
    }
}

pub open spec fn slot_view(declared: TyView, e: ast::Expr) -> SlotView {
    if e.kind is Float {
        if declared is Float {
            SlotView::Takes
        } else {
            SlotView::Other
        }
    } else {
        match literal_of(e) {
            None => SlotView::Other,
            Some((magnitude, negative)) => if !declared.is_integer() {
                SlotView::Other
            } else if literal_fits(declared, magnitude as nat, negative) {
                SlotView::Takes
            } else {
                SlotView::OutOfRange(literal_text(magnitude, negative))
            },
        }
    }
}

pub enum Slot {
    Other,
    Takes,
    OutOfRange(String),
}

impl View for Slot {
    type V = SlotView;

    open spec fn view(&self) -> SlotView {
        match *self {
            Slot::Other => SlotView::Other,
            Slot::Takes => SlotView::Takes,
            Slot::OutOfRange(text) => SlotView::OutOfRange(text@),
        }
    }
}

/// Finds out how a literal takes the type that is expected of it.
pub fn literal_slot_unify(declared: &Ty, value: &ast::Expr) -> (r: Slot)
    ensures
        r@ == slot_view(declared@, *value),
{
    let (magnitude, negative) = match &value.kind {
        ast::ExprKind::Float(_) => {
            return if matches!(declared, Ty::Float(_)) {
                Slot::Takes
            } else {
                Slot::Other
            };
        },
        ast::ExprKind::Int(value) => (*value, false),
        ast::ExprKind::Neg { expr } => match &expr.kind {
            ast::ExprKind::Int(value) => (*value, true),
            _ => {
                return Slot::Other;
            },
        },
        _ => {
            return Slot::Other;
        },
    };
    if !matches!(declared, Ty::Int(_) | Ty::UInt(_)) {
        return Slot::Other;
    }
    if int_literal_fits(declared, magnitude, negative) {
        return Slot::Takes;
    }
    if negative {
        let mut text: String = String::from_str("-");
        text.append(number_text(magnitude).as_str());
        Slot::OutOfRange(text)
    } else {
        Slot::OutOfRange(number_text(magnitude))
    }
}

/// The type that a literal gets by itself is one that it is a value of.
pub proof fn law_default_types_fit(value: u64)
    ensures
        literal_fits(default_positive(value as nat), value as nat, false),
        default_negative(value as nat) matches Some(ty) ==> literal_fits(ty, value as nat, true),
{
}

/// A literal that fits a type fits every wider type of the same kind.
pub proof fn law_wider_types_fit(narrow: IntW, wide: IntW, value: nat, negative: bool)
    requires
        values(narrow) <= values(wide),
    ensures
        literal_fits(TyView::Int(narrow), value, negative) ==> literal_fits(
            TyView::Int(wide),
            value,
            negative,
        ),
        literal_fits(TyView::UInt(narrow), value, negative) ==> literal_fits(
            TyView::UInt(wide),
            value,
            negative,
        ),
{
}

} // verus!
