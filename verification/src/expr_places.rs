//! The places that expressions name.
//!
//! Variables and fields are settled before anything here runs. Whoever plans a call and whoever
//! follows loans take the place of an expression from here, so that both mean the same storage.

use crate::model::{Expr, Place, PlaceInfo, ResolvedConversion, RuntimeCheckRequirement, place_root};
use crate::runtime_checks::array_place_index;
use crate::tree::{Label, Tree, expr_tree, info_view, place_tree, spanned};
use crate::types::BindingId;
use vstd::prelude::*;

verus! {

/// The place that an expression names, if it names one.
pub open spec fn place_of(expr: Expr) -> Option<Tree>
    decreases expr,
{
    match expr {
        Expr::Ident(_, Some(binding_id), span, info) => Some(
            spanned(Label::LocalPlace(binding_id, info.ty@), span, Seq::empty()),
        ),
        Expr::Field { recv, field_index, span, info } => match place_of(*recv) {
            Some(base) => Some(
                spanned(Label::FieldPlace(field_index, info.ty@), span, seq![base]),
            ),
            None => None,
        },
        Expr::Index { recv, idx, span, info, .. } => match place_of(*recv) {
            Some(base) => Some(
                spanned(
                    Label::IndexPlace(info.ty@, RuntimeCheckRequirement::Required),
                    span,
                    seq![base, expr_tree(*idx)],
                ),
            ),
            None => None,
        },
        Expr::Convert { expr: inner, mode: ResolvedConversion::Identity, .. } => place_of(*inner),
        _ => None,
    }
}

/// The variable at the bottom of a place.
pub open spec fn tree_root(place: Tree) -> BindingId
    decreases place,
{
    match place.label {
        Label::LocalPlace(binding_id, _) => binding_id,
        _ => if place.kids.len() > 0 {
            tree_root(place.kids[0])
        } else {
            BindingId(0)
        },
    }
}

/// Two places are the same storage, as far as they were written down: the same variable, fields
/// and types, and index expressions from the same source range.
pub open spec fn same_storage(a: Tree, b: Tree) -> bool
    decreases a,
{
    match (a.label, b.label) {
        (Label::LocalPlace(i, t), Label::LocalPlace(j, u)) => i == j && t == u,
        (Label::FieldPlace(i, t), Label::FieldPlace(j, u)) => {
            &&& i == j
            &&& t == u
            &&& a.kids.len() > 0
            &&& b.kids.len() > 0
            &&& same_storage(a.kids[0], b.kids[0])
        },
        (Label::IndexPlace(t, _), Label::IndexPlace(u, _)) => {
            &&& t == u
            &&& a.kids.len() > 1
            &&& b.kids.len() > 1
            &&& a.kids[1].span == b.kids[1].span
            &&& (a.kids[1].info matches Some(i) && b.kids[1].info matches Some(j) && i.ty == j.ty)
            &&& same_storage(a.kids[0], b.kids[0])
        },
        _ => false,
    }
}

/// The tree of an expression carries the span and the facts of the expression.
pub proof fn lemma_expr_head(expr: Expr)
    ensures
        expr_tree(expr).span == Some(expr.spec_span()),
        expr_tree(expr).info == Some(info_view(expr.spec_info())),
{
}

/// The tree of a place has the root of the place.
pub proof fn lemma_place_root(place: Place)
    ensures
        tree_root(place_tree(place)) == place_root(place),
    decreases place,
{
    match place {
        Place::Local { .. } => {},
        Place::Field { base, .. } => lemma_place_root(*base),
        Place::Index { base, .. } => lemma_place_root(*base),
    }
}

/// The place that an expression names.
pub fn from_expr(expr: &Expr) -> (r: Option<Place>)
    ensures
        match place_of(*expr) {
            Some(tree) => r matches Some(place) && place_tree(place) == tree,
            None => r is None,
        },
    decreases expr,
{
    match expr {
        Expr::Ident(_, Some(binding_id), span, info) => Some(
            Place::Local {
                binding_id: *binding_id,
                info: PlaceInfo { ty: info.ty.clone(), span: *span },
            },
        ),
        Expr::Field { recv, field_index, span, info } => match from_expr(recv) {
            Some(base) => Some(
                Place::Field {
                    base: Box::new(base),
                    field_index: *field_index,
                    info: PlaceInfo { ty: info.ty.clone(), span: *span },
                },
            ),
            None => None,
        },
        Expr::Index { recv, idx, span, info, .. } => match from_expr(recv) {
            Some(base) => {
                let bounds_check = array_place_index(&base, idx);
                Some(
                    Place::Index {
                        base: Box::new(base),
                        index: Box::new((&**idx).clone()),
                        bounds_check,
                        info: PlaceInfo { ty: info.ty.clone(), span: *span },
                    },
                )
            },
            None => None,
        },
        Expr::Convert { expr: inner, mode: ResolvedConversion::Identity, .. } => from_expr(inner),
        _ => None,
    }
}

/// Whether two places are the same storage.
pub fn same_source(left: &Place, right: &Place) -> (r: bool)
    ensures
        r == same_storage(place_tree(*left), place_tree(*right)),
    decreases left,
{
    match (left, right) {
        (Place::Local { binding_id: a, info: x }, Place::Local { binding_id: b, info: y }) => *a
            == *b && x.ty.same(&y.ty),
        (
            Place::Field { base: p, field_index: a, info: x },
            Place::Field { base: q, field_index: b, info: y },
        ) => *a == *b && x.ty.same(&y.ty) && same_source(p, q),
        (
            Place::Index { base: p, index: a, info: x, .. },
            Place::Index { base: q, index: b, info: y, .. },
        ) => {
            proof {
                lemma_expr_head(**a);
                lemma_expr_head(**b);
            }
            x.ty.same(&y.ty) && a.ty().same(b.ty()) && a.span() == b.span() && same_source(p, q)
        },
        _ => false,
    }
}

/// Every place that an expression names is the same storage as itself.
pub proof fn law_place_is_its_own_storage(place: Place)
    ensures
        same_storage(place_tree(place), place_tree(place)),
    decreases place,
{
    match place {
        Place::Local { .. } => {},
        Place::Field { base, .. } => law_place_is_its_own_storage(*base),
        Place::Index { base, index, .. } => {
            lemma_expr_head(*index);
            law_place_is_its_own_storage(*base);
        },
    }
}

/// Being the same storage goes both ways.
pub proof fn law_same_storage_is_symmetric(a: Tree, b: Tree)
    ensures
        same_storage(a, b) == same_storage(b, a),
    decreases a,
{
    if a.kids.len() > 0 && b.kids.len() > 0 {
        law_same_storage_is_symmetric(a.kids[0], b.kids[0]);
    }
}

/// Places that are the same storage lie in the same variable.
pub proof fn law_same_storage_same_root(a: Tree, b: Tree)
    requires
        same_storage(a, b),
    ensures
        tree_root(a) == tree_root(b),
    decreases a,
{
    match (a.label, b.label) {
        (Label::FieldPlace(..), Label::FieldPlace(..)) => {
            law_same_storage_same_root(a.kids[0], b.kids[0]);
        },
        (Label::IndexPlace(..), Label::IndexPlace(..)) => {
            law_same_storage_same_root(a.kids[0], b.kids[0]);
        },
        _ => {},
    }
}

} // verus!
