//! The type equations that hold at each node of the tree.

use crate::model::{CheckedProgram, Expr, Place, ResolvedConversion, Stmt};
use crate::operators::{binary_result_type, binary_type, conversion_exists, converts};
use crate::types::{
    AliasResult, ErrorView, IntW, Span, Ty, TyView, broken_at, broken_invariant, fault_of,
    first_fault, fits, lemma_first_fault_at, lemma_no_fault, types_match,
};
use crate::visit::{Node, Visit, Walk, program_nodes, program_walk};
use vstd::prelude::*;

verus! {

/// A broken rule: `msg` where `holds` does not.
pub open spec fn rule(holds: bool, span: Span, msg: Seq<char>) -> Option<ErrorView> {
    if holds {
        None
    } else {
        Some(broken_at(span, msg))
    }
}

pub open spec fn index_type() -> TyView {
    TyView::Int(IntW::W32)
}

/// What is wrong with the types at one expression.
pub open spec fn expr_fault(expr: Expr) -> Option<ErrorView> {
    let ty = expr.tyv();
    let span = expr.spec_span();
    match expr {
        Expr::Int(..) => rule(ty.is_integer(), span, "整数字面量 HIR 类型不是整数"@),
        Expr::Float(..) => rule(ty is Float, span, "浮点字面量 HIR 类型不是浮点"@),
        Expr::Bool(..) => rule(ty is Bool, span, "bool 字面量 HIR 类型不是 bool"@),
        Expr::Str(..) => rule(ty is Str, span, "string 字面量 HIR 类型不是 string"@),
        Expr::This(..) => rule(ty is Func, span, "this HIR 类型不是完整函数类型"@),
        Expr::Cast { expr: inner, .. } => rule(
            converts(inner.tyv(), ty),
            span,
            "Cast 不符合 canonical conversion contract"@,
        ),
        Expr::Convert { expr: inner, mode, .. } => match mode {
            ResolvedConversion::Identity => rule(
                fits(inner.tyv(), ty),
                span,
                "Identity 转换改变了静态类型"@,
            ),
            ResolvedConversion::Convert => rule(
                converts(inner.tyv(), ty),
                span,
                "resolved Convert 不符合 canonical conversion contract"@,
            ),
        },
        Expr::Binary { op, lhs, rhs, .. } => match binary_type(op, lhs.tyv(), rhs.tyv()) {
            None => Some(
                broken_at(span, "Binary operands 不符合 canonical operator contract"@),
            ),
            Some(result) => rule(
                fits(result, ty),
                span,
                "Binary HIR 结果类型与 canonical operator contract 不一致"@,
            ),
        },
        Expr::Neg { expr: inner, .. } => rule(
            (inner.tyv() is Int || inner.tyv() is Float) && fits(inner.tyv(), ty),
            span,
            "Neg HIR 操作数/结果类型不一致"@,
        ),
        Expr::Not { expr: inner, .. } => rule(
            inner.tyv() is Bool && ty is Bool,
            span,
            "Not HIR 必须是 bool → bool"@,
        ),
        Expr::BitNot { expr: inner, .. } => rule(
            inner.tyv().is_integer() && fits(inner.tyv(), ty),
            span,
            "BitNot HIR 操作数/结果类型不一致"@,
        ),
        Expr::Ternary { cond, then_expr, else_expr, .. } => rule(
            cond.tyv() is Bool && fits(then_expr.tyv(), ty) && fits(else_expr.tyv(), ty),
            span,
            "Ternary HIR 条件/分支类型不一致"@,
        ),
        Expr::Index { recv, idx, .. } => match recv.tyv() {
            TyView::Array(elem) => rule(
                idx.tyv() == index_type() && fits(*elem, ty),
                span,
                "Index HIR 下标/结果类型不一致"@,
            ),
            _ => Some(broken_at(span, "Index HIR 接收者不是 array"@)),
        },
        Expr::ArrayLit { elems, .. } => match ty {
            TyView::Array(elem) => rule(
                forall|i: int| 0 <= i < elems@.len() ==> fits(*elem, (#[trigger] elems@[i]).tyv()),
                span,
                "ArrayLit 元素类型与数组元素类型不一致"@,
            ),
            _ => Some(broken_at(span, "ArrayLit HIR 结果类型不是 array"@)),
        },
        Expr::Propagate { expr: inner, .. } => match inner.tyv() {
            TyView::Result(ok, _) => rule(
                fits(*ok, ty),
                span,
                "Propagate HIR 结果类型与 ok payload 不一致"@,
            ),
            _ => Some(broken_at(span, "Propagate HIR 操作数不是 result"@)),
        },
        Expr::ReadPlace { source, .. } => rule(
            fits(source.spec_info().ty@, ty),
            span,
            "Place read source/result 类型不一致"@,
        ),
        Expr::Borrow { source, .. } => rule(
            fits(source.spec_info().ty@, ty),
            span,
            "Borrow source/result 类型不一致"@,
        ),
        Expr::Move { source, .. } => if !fits(source.spec_info().ty@, ty) {
            Some(broken_at(span, "Move source/result 类型不一致"@))
        } else {
            rule(*source is Local, span, "Move source 不是完整 local Place"@)
        },
        _ => None,
    }
}

/// What is wrong with the types along a place, the outermost projection first.
pub open spec fn place_fault(place: Place) -> Option<ErrorView>
    decreases place,
{
    let span = place.spec_span();
    if place.spec_info().ty@.contains_unknown() {
        Some(broken_at(span, "Place 类型未确定"@))
    } else {
        match place {
            Place::Local { .. } => None,
            Place::Field { base, .. } => if base.spec_info().ty@ is Struct {
                place_fault(*base)
            } else {
                Some(broken_at(span, "Field Place base 不是 struct"@))
            },
            Place::Index { base, index, .. } => match base.spec_info().ty@ {
                TyView::Array(elem) => if index.tyv() == index_type() && fits(
                    *elem,
                    place.spec_info().ty@,
                ) {
                    place_fault(*base)
                } else {
                    Some(broken_at(span, "Index Place 下标/结果类型不一致"@))
                },
                _ => Some(broken_at(span, "Index Place base 不是 array"@)),
            },
        }
    }
}

pub open spec fn condition_faults(branches: Seq<(Expr, Vec<Stmt>)>) -> Seq<Option<ErrorView>> {
    branches.map_values(
        |branch: (Expr, Vec<Stmt>)|
            rule(branch.0.tyv() is Bool, branch.0.spec_span(), "If HIR 条件不是 bool"@),
    )
}

/// What is wrong with the types at one statement.
pub open spec fn stmt_fault(stmt: Stmt) -> Option<ErrorView> {
    match stmt {
        Stmt::Assign { target, value, .. } => match place_fault(target) {
            Some(error) => Some(error),
            None => rule(
                fits(target.spec_info().ty@, value.tyv()),
                value.spec_span(),
                "Assign RHS 类型与 Place 类型不一致"@,
            ),
        },
        Stmt::If { branches, .. } => first_fault(condition_faults(branches@)),
        Stmt::While { cond, .. } => rule(
            cond.tyv() is Bool,
            cond.spec_span(),
            "While HIR 条件不是 bool"@,
        ),
        _ => None,
    }
}

fn require(holds: bool, span: Span, msg: &str) -> (r: AliasResult<()>)
    ensures
        fault_of(r) == rule(holds, span, msg@),
{
    if holds {
        Ok(())
    } else {
        Err(broken_invariant(span, msg))
    }
}

fn is_index_type(ty: &Ty) -> (r: bool)
    ensures
        r == (ty@ == index_type()),
{
    matches!(ty, Ty::Int(IntW::W32))
}

fn elements_fit(elem: &Ty, elems: &Vec<Expr>) -> (r: bool)
    ensures
        r == forall|i: int| 0 <= i < elems@.len() ==> fits(elem@, (#[trigger] elems@[i]).tyv()),
{
    let mut i: usize = 0;
    while i < elems.len()
        invariant
            i <= elems.len(),
            forall|k: int| 0 <= k < i ==> fits(elem@, (#[trigger] elems@[k]).tyv()),
        decreases elems.len() - i,
    {
        if !types_match(elem, elems[i].ty()) {
            assert(!fits(elem@, elems@[i as int].tyv()));
            return false;
        }
        i += 1;
    }
    true
}

/// Checks the types at one expression.
pub fn validate_expr(expr: &Expr) -> (r: AliasResult<()>)
    ensures
        fault_of(r) == expr_fault(*expr),
{
    let ty = expr.ty();
    let span = expr.span();
    match expr {
        Expr::Int(..) => require(
            matches!(ty, Ty::Int(_) | Ty::UInt(_)),
            span,
            "整数字面量 HIR 类型不是整数",
        ),
        Expr::Float(..) => require(
            matches!(ty, Ty::Float(_)),
            span,
            "浮点字面量 HIR 类型不是浮点",
        ),
        Expr::Bool(..) => require(matches!(ty, Ty::Bool), span, "bool 字面量 HIR 类型不是 bool"),
        Expr::Str(..) => require(matches!(ty, Ty::Str), span, "string 字面量 HIR 类型不是 string"),
        Expr::This(..) => require(
            matches!(ty, Ty::Func { .. }),
            span,
            "this HIR 类型不是完整函数类型",
        ),
        Expr::Cast { expr: inner, .. } => require(
            conversion_exists(inner.ty(), ty),
            span,
            "Cast 不符合 canonical conversion contract",
        ),
        Expr::Convert { expr: inner, mode, .. } => match mode {
            ResolvedConversion::Identity => require(
                types_match(inner.ty(), ty),
                span,
                "Identity 转换改变了静态类型",
            ),
            ResolvedConversion::Convert => require(
                conversion_exists(inner.ty(), ty),
                span,
                "resolved Convert 不符合 canonical conversion contract",
            ),
        },
        Expr::Binary { op, lhs, rhs, .. } => match binary_result_type(
            *op,
            lhs.ty(),
            rhs.ty(),
            span,
        ) {
            Err(_) => Err(
                broken_invariant(span, "Binary operands 不符合 canonical operator contract"),
            ),
            Ok(result) => require(
                types_match(&result, ty),
                span,
                "Binary HIR 结果类型与 canonical operator contract 不一致",
            ),
        },
        Expr::Neg { expr: inner, .. } => require(
            matches!(inner.ty(), Ty::Int(_) | Ty::Float(_)) && types_match(inner.ty(), ty),
            span,
            "Neg HIR 操作数/结果类型不一致",
        ),
        Expr::Not { expr: inner, .. } => require(
            matches!(inner.ty(), Ty::Bool) && matches!(ty, Ty::Bool),
            span,
            "Not HIR 必须是 bool → bool",
        ),
        Expr::BitNot { expr: inner, .. } => require(
            matches!(inner.ty(), Ty::Int(_) | Ty::UInt(_)) && types_match(inner.ty(), ty),
            span,
            "BitNot HIR 操作数/结果类型不一致",
        ),
        Expr::Ternary { cond, then_expr, else_expr, .. } => require(
            matches!(cond.ty(), Ty::Bool) && types_match(then_expr.ty(), ty) && types_match(
                else_expr.ty(),
                ty,
            ),
            span,
            "Ternary HIR 条件/分支类型不一致",
        ),
        Expr::Index { recv, idx, .. } => match recv.ty() {
            Ty::Array(elem) => require(
                is_index_type(idx.ty()) && types_match(elem, ty),
                span,
                "Index HIR 下标/结果类型不一致",
            ),
            _ => Err(broken_invariant(span, "Index HIR 接收者不是 array")),
        },
        Expr::ArrayLit { elems, .. } => match ty {
            Ty::Array(elem) => require(
                elements_fit(elem, elems),
                span,
                "ArrayLit 元素类型与数组元素类型不一致",
            ),
            _ => Err(broken_invariant(span, "ArrayLit HIR 结果类型不是 array")),
        },
        Expr::Propagate { expr: inner, .. } => match inner.ty() {
            Ty::Result(ok, _) => require(
                types_match(ok, ty),
                span,
                "Propagate HIR 结果类型与 ok payload 不一致",
            ),
            _ => Err(broken_invariant(span, "Propagate HIR 操作数不是 result")),
        },
        Expr::ReadPlace { source, .. } => require(
            types_match(source.ty(), ty),
            span,
            "Place read source/result 类型不一致",
        ),
        Expr::Borrow { source, .. } => require(
            types_match(source.ty(), ty),
            span,
            "Borrow source/result 类型不一致",
        ),
        Expr::Move { source, .. } => {
            if !types_match(source.ty(), ty) {
                return Err(broken_invariant(span, "Move source/result 类型不一致"));
            }
            require(
                matches!(&**source, Place::Local { .. }),
                span,
                "Move source 不是完整 local Place",
            )
        },
        Expr::Call { .. }
        | Expr::MethodCall { .. }
        | Expr::Field { .. }
        | Expr::FuncLit { .. }
        | Expr::Match { .. }
        | Expr::Ident(..)
        | Expr::Refer { .. }
        | Expr::Typeof { .. } => Ok(()),
    }
}

/// Checks the types along a place. Which field an index names, and whether the variable at
/// the root exists, are questions for other passes.
pub fn validate_place(place: &Place) -> (r: AliasResult<()>)
    ensures
        fault_of(r) == place_fault(*place),
{
    let mut current: &Place = place;
    loop
        invariant
            place_fault(*place) == place_fault(*current),
        decreases current,
    {
        if current.ty().contains_unknown() {
            return Err(broken_invariant(current.span(), "Place 类型未确定"));
        }
        match current {
            Place::Local { .. } => {
                return Ok(());
            },
            Place::Field { base, .. } => {
                if !matches!(base.ty(), Ty::Struct(_)) {
                    return Err(broken_invariant(current.span(), "Field Place base 不是 struct"));
                }
                current = base;
            },
            Place::Index { base, index, .. } => {
                match base.ty() {
                    Ty::Array(elem) => {
                        if !(is_index_type(index.ty()) && types_match(elem, current.ty())) {
                            return Err(
                                broken_invariant(
                                    current.span(),
                                    "Index Place 下标/结果类型不一致",
                                ),
                            );
                        }
                    },
                    _ => {
                        return Err(
                            broken_invariant(current.span(), "Index Place base 不是 array"),
                        );
                    },
                }
                current = base;
            },
        }
    }
}

/// Checks the types at one statement.
pub fn validate_stmt(stmt: &Stmt) -> (r: AliasResult<()>)
    ensures
        fault_of(r) == stmt_fault(*stmt),
{
    match stmt {
        Stmt::Assign { target, value, .. } => {
            match validate_place(target) {
                Ok(_) => {},
                Err(error) => {
                    return Err(error);
                },
            }
            require(
                types_match(target.ty(), value.ty()),
                value.span(),
                "Assign RHS 类型与 Place 类型不一致",
            )
        },
        Stmt::If { branches, .. } => {
            let ghost faults = condition_faults(branches@);
            let mut i: usize = 0;
            while i < branches.len()
                invariant
                    i <= branches.len(),
                    stmt_fault(*stmt) == first_fault(faults),
                    faults == condition_faults(branches@),
                    forall|k: int| 0 <= k < i ==> (#[trigger] faults[k]) is None,
                decreases branches.len() - i,
            {
                let cond = &branches[i].0;
                if !matches!(cond.ty(), Ty::Bool) {
                    proof {
                        lemma_first_fault_at(faults, i as int);
                    }
                    return Err(broken_invariant(cond.span(), "If HIR 条件不是 bool"));
                }
                i += 1;
            }
            proof {
                lemma_no_fault(faults);
            }
            Ok(())
        },
        Stmt::While { cond, .. } => require(
            matches!(cond.ty(), Ty::Bool),
            cond.span(),
            "While HIR 条件不是 bool",
        ),
        _ => Ok(()),
    }
}

pub open spec fn visit_fault<'a>(visit: Visit<'a>) -> Option<ErrorView> {
    match visit.node {
        Node::Expr(expr, _) => expr_fault(*expr),
        Node::Stmt(stmt) => stmt_fault(*stmt),
        _ => None,
    }
}

pub open spec fn typed_walk() -> Walk {
    Walk { every_callee: false, into_functions: true, value_first: false, subject_last: false }
}

pub open spec fn program_faults<'a>(program: &'a CheckedProgram) -> Seq<Option<ErrorView>> {
    program_walk(typed_walk(), program).map_values(|visit: Visit<'a>| visit_fault(visit))
}

/// Checks the type equations of every node; reports the first that does not hold.
pub fn validate(program: &CheckedProgram) -> (r: AliasResult<()>)
    ensures
        fault_of(r) == first_fault(program_faults(program)),
{
    let nodes = program_nodes(
        Walk { every_callee: false, into_functions: true, value_first: false, subject_last: false },
        program,
    );
    let ghost faults = program_faults(program);
    let mut i: usize = 0;
    while i < nodes.len()
        invariant
            i <= nodes.len(),
            nodes@ == program_walk(typed_walk(), program),
            faults == program_faults(program),
            forall|k: int| 0 <= k < i ==> (#[trigger] faults[k]) is None,
        decreases nodes.len() - i,
    {
        let checked = match nodes[i].node {
            Node::Expr(expr, _) => validate_expr(expr),
            Node::Stmt(stmt) => validate_stmt(stmt),
            _ => Ok(()),
        };
        assert(fault_of(checked) == faults[i as int]);
        match checked {
            Ok(_) => {},
            Err(error) => {
                proof {
                    lemma_first_fault_at(faults, i as int);
                }
                return Err(error);
            },
        }
        i += 1;
    }
    proof {
        lemma_no_fault(faults);
    }
    Ok(())
}

/// A place whose types are in order has a settled type at every projection, and its base is
/// in order too.
pub proof fn law_valid_place_is_settled(place: Place)
    requires
        place_fault(place) is None,
    ensures
        !place.spec_info().ty@.contains_unknown(),
        match place {
            Place::Local { .. } => true,
            Place::Field { base, .. } => place_fault(*base) is None && base.spec_info().ty@
                is Struct,
            Place::Index { base, .. } => place_fault(*base) is None && base.spec_info().ty@
                is Array,
        },
{
}

} // verus!
