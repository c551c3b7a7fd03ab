//! How two places of a program relate.

use alias_sema::model::{Expr, ExprInfo, Place, PlaceInfo, RuntimeCheckRequirement};
use alias_sema::place_relation::{relation, PlaceRelation};
use alias_sema::types::{BindingId, IntW, Span, Ty};

fn span() -> Span {
    Span { start: 0, end: 0 }
}

fn i32_ty() -> Ty {
    Ty::Int(IntW::W32)
}

fn info(ty: Ty) -> ExprInfo {
    ExprInfo {
        ty,
        category: None,
        ownership_capability: None,
        container_write: None,
        return_pass: None,
    }
}

fn local(id: u32, ty: Ty) -> Place {
    Place::Local { binding_id: BindingId(id), info: PlaceInfo { ty, span: span() } }
}

fn field(base: Place, field_index: usize) -> Place {
    Place::Field {
        base: Box::new(base),
        field_index,
        info: PlaceInfo { ty: i32_ty(), span: span() },
    }
}

fn at(base: Place, index: Expr) -> Place {
    Place::Index {
        base: Box::new(base),
        index: Box::new(index),
        bounds_check: RuntimeCheckRequirement::Required,
        info: PlaceInfo { ty: Ty::Struct("cell".to_string()), span: span() },
    }
}

fn integer(value: u64) -> Expr {
    Expr::Int(value, span(), info(i32_ty()))
}

fn name(text: &str, id: u32) -> Expr {
    Expr::Ident(text.to_string(), Some(BindingId(id)), span(), info(i32_ty()))
}

/// `cells`, an array of a struct.
fn cells() -> Place {
    local(1, Ty::Array(Box::new(Ty::Struct("cell".to_string()))))
}

#[test]
fn different_local_roots_are_disjoint() {
    // a = 1, b = 2
    let a = local(1, i32_ty());
    let b = local(2, i32_ty());
    assert_eq!(relation(&a, &b), PlaceRelation::Disjoint);
}

#[test]
fn different_fields_are_disjoint_and_ancestor_overlaps() {
    // p.left = 1, p.right = 2
    let pair = || local(1, Ty::Struct("pair".to_string()));
    let left = field(pair(), 0);
    let right = field(pair(), 1);
    assert_eq!(relation(&left, &right), PlaceRelation::Disjoint);
    let Place::Field { base, .. } = &left else { panic!("a field") };
    assert_eq!(relation(&left, base), PlaceRelation::Overlap);
}

#[test]
fn constant_indices_prove_disjoint_or_overlap() {
    // cells[0].value = 1, cells[1].value = 2, cells[0].value = 3
    let targets =
        [field(at(cells(), integer(0)), 0), field(at(cells(), integer(1)), 0), field(at(cells(), integer(0)), 0)];
    assert_eq!(relation(&targets[0], &targets[1]), PlaceRelation::Disjoint);
    assert_eq!(relation(&targets[0], &targets[2]), PlaceRelation::Overlap);
}

#[test]
fn independent_dynamic_indices_are_unknown() {
    // cells[i].value = 1, cells[j].value = 2
    let first = field(at(cells(), name("i", 2)), 0);
    let second = field(at(cells(), name("j", 3)), 0);
    assert_eq!(relation(&first, &second), PlaceRelation::Unknown);
}

#[test]
fn later_field_divergence_can_prove_disjoint_after_unknown_index() {
    // cells[i].left = 1, cells[j].right = 2
    let first = field(at(cells(), name("i", 2)), 0);
    let second = field(at(cells(), name("j", 3)), 1);
    assert_eq!(relation(&first, &second), PlaceRelation::Disjoint);
}

#[test]
fn relation_is_symmetric_on_mixed_places() {
    let whole = cells();
    let one = at(cells(), integer(1));
    let some = at(cells(), name("i", 2));
    assert_eq!(relation(&whole, &one), PlaceRelation::Overlap);
    assert_eq!(relation(&one, &whole), PlaceRelation::Overlap);
    assert_eq!(relation(&one, &some), PlaceRelation::Unknown);
    assert_eq!(relation(&some, &one), PlaceRelation::Unknown);
}

#[test]
fn place_knows_its_root() {
    let deep = field(at(cells(), integer(7)), 3);
    assert_eq!(deep.root_binding_id(), BindingId(1));
    assert_eq!(deep.ty().name(), "i32");
}
