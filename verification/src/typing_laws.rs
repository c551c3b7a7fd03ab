//! The typing rules of the language.
//!
//! Each law gives the type of an expression from the types of its parts.

use crate::ast;
use crate::checker_state::{
    ContextView, FieldInfoView, NotesMap, UserView, answer, field_at, in_scope, struct_in,
    user_method,
};
use crate::facts::{fact_root, found};
use crate::literals::{literal_of, slot_view};
use crate::model::BinOp;
use crate::typed::{
    Env, Typed, call_builtin, conversion_of, labelled, ownership_builtin, result_constructor, typed,
    typed_apply, typed_args, typed_binary, typed_bool, typed_borrow, typed_builtin, typed_call,
    typed_clone, typed_elems, typed_expected, typed_expected_inner, typed_inits, typed_inner,
    typed_method, typed_method_call, typed_move, typed_operand, typed_place, typed_plain_call,
    typed_raw, typed_result, typed_right, typed_shallow, typed_struct, typed_ternary, typed_unary,
    typed_value, unset_field,
};
use crate::types::{FloatW, IntW, LoanId, TyView, fits, ty_name};
use vstd::prelude::*;

verus! {

/// An expression has a type.
pub open spec fn has(r: Typed, ty: TyView) -> bool {
    match r {
        Ok((found, _)) => found == ty,
        Err(_) => false,
    }
}

/// An expression has a type, and leaves the given notes behind.
pub open spec fn finds(r: Typed, ty: TyView, notes: NotesMap) -> bool {
    match r {
        Ok((found, after)) => found == ty && after == notes,
        Err(_) => false,
    }
}

/// The entry of a scope that a name stands for: no later one has the same name.
pub open spec fn innermost(env: Env, name: Seq<char>, k: int) -> bool {
    &&& 0 <= k < env.len()
    &&& env[k].0 == name
    &&& forall|j: int| k < j < env.len() ==> (#[trigger] env[j]).0 != name
}

/// A name is declared somewhere in a scope.
pub open spec fn declared(env: Env, name: Seq<char>) -> bool {
    exists|k: int| 0 <= k < env.len() && (#[trigger] env[k]).0 == name
}

/// The first field with a name.
pub open spec fn first_field(fields: Seq<FieldInfoView>, name: Seq<char>, k: int) -> bool {
    &&& 0 <= k < fields.len()
    &&& fields[k].name == name
    &&& forall|j: int| 0 <= j < k ==> (#[trigger] fields[j]).name != name
}

/// A struct has a field with a name.
pub open spec fn has_field(fields: Seq<FieldInfoView>, name: Seq<char>) -> bool {
    exists|k: int| 0 <= k < fields.len() && (#[trigger] fields[k]).name == name
}

/// The declaration that the name of a struct stands for.
pub open spec fn struct_declared(cx: ContextView, name: Seq<char>, k: int) -> bool {
    &&& 0 <= k < cx.structs.len()
    &&& cx.structs[k].0 == name
    &&& forall|j: int| k < j < cx.structs.len() ==> (#[trigger] cx.structs[j]).0 != name
}

/// The method that a call on a receiver means.
pub open spec fn method_declared(
    list: Seq<UserView>,
    recv: TyView,
    name: Seq<char>,
    k: int,
) -> bool {
    &&& 0 <= k < list.len()
    &&& list[k].receiver == ty_name(recv)
    &&& list[k].name == name
    &&& forall|j: int|
        k < j < list.len() ==> !((#[trigger] list[j]).receiver == ty_name(recv) && list[j].name
            == name)
}

pub proof fn lemma_innermost(env: Env, name: Seq<char>, k: int)
    requires
        innermost(env, name, k),
    ensures
        in_scope(env, name) == Some(env[k].1),
    decreases env.len(),
{
    if k < env.len() - 1 {
        let less = env.drop_last();
        assert forall|j: int| k < j < less.len() implies (#[trigger] less[j]).0 != name by {
            assert(less[j] == env[j]);
        }
        lemma_innermost(less, name, k);
    }
}

proof fn lemma_undeclared(env: Env, name: Seq<char>)
    requires
        !declared(env, name),
    ensures
        in_scope(env, name) is None,
    decreases env.len(),
{
    if env.len() > 0 {
        let less = env.drop_last();
        assert(env[env.len() - 1].0 != name);
        assert(!declared(less, name)) by {
            assert forall|k: int| 0 <= k < less.len() implies (#[trigger] less[k]).0 != name by {
                assert(less[k] == env[k]);
            }
        }
        lemma_undeclared(less, name);
    }
}

proof fn lemma_first_field(fields: Seq<FieldInfoView>, name: Seq<char>, from: int, k: int)
    requires
        first_field(fields, name, k),
        0 <= from <= k,
    ensures
        field_at(fields, name, from) == Some(k),
    decreases k - from,
{
    if from < k {
        lemma_first_field(fields, name, from + 1, k);
    }
}

proof fn lemma_no_field(fields: Seq<FieldInfoView>, name: Seq<char>, from: int)
    requires
        !has_field(fields, name),
        0 <= from,
    ensures
        field_at(fields, name, from) is None,
    decreases fields.len() - from,
{
    if from < fields.len() {
        assert(fields[from].name != name);
        lemma_no_field(fields, name, from + 1);
    }
}

proof fn lemma_field_found(fields: Seq<FieldInfoView>, name: Seq<char>, from: int)
    requires
        0 <= from,
    ensures
        match field_at(fields, name, from) {
            Some(k) => {
                &&& from <= k < fields.len()
                &&& fields[k].name == name
                &&& forall|j: int| from <= j < k ==> (#[trigger] fields[j]).name != name
            },
            None => forall|j: int|
                from <= j < fields.len() ==> (#[trigger] fields[j]).name != name,
        },
    decreases fields.len() - from,
{
    if from < fields.len() && fields[from].name != name {
        lemma_field_found(fields, name, from + 1);
    }
}

proof fn lemma_struct_found(cx: ContextView, name: Seq<char>, upto: int, k: int)
    requires
        struct_declared(cx, name, k),
        k < upto <= cx.structs.len(),
    ensures
        struct_in(cx.structs.take(upto), name) == Some(cx.structs[k].1),
    decreases upto,
{
    let list = cx.structs.take(upto);
    if k < upto - 1 {
        assert(list.drop_last() =~= cx.structs.take(upto - 1));
        assert(list.last() == cx.structs[upto - 1]);
        lemma_struct_found(cx, name, upto - 1, k);
    }
}

proof fn lemma_struct(cx: ContextView, name: Seq<char>, k: int)
    requires
        struct_declared(cx, name, k),
    ensures
        struct_in(cx.structs, name) == Some(cx.structs[k].1),
{
    lemma_struct_found(cx, name, cx.structs.len() as int, k);
    assert(cx.structs.take(cx.structs.len() as int) =~= cx.structs);
}

proof fn lemma_method_found(list: Seq<UserView>, recv: TyView, name: Seq<char>, upto: int, k: int)
    requires
        method_declared(list, recv, name, k),
        k < upto <= list.len(),
    ensures
        user_method(list.take(upto), ty_name(recv), name) == Some(list[k]),
    decreases upto,
{
    let part = list.take(upto);
    if k < upto - 1 {
        assert(part.drop_last() =~= list.take(upto - 1));
        assert(part.last() == list[upto - 1]);
        lemma_method_found(list, recv, name, upto - 1, k);
    }
}

/// A name stands for the variable that was declared last under it. Used as a value, a variable
/// of a function type without parameters is called; any other has its declared type.
pub proof fn law_names_have_their_declared_types(
    cx: ContextView,
    e: ast::Expr,
    env: Env,
    notes: NotesMap,
    k: int,
)
    ensures
        e.kind matches ast::ExprKind::Ident(name) ==> {
            &&& innermost(env, name@, k) ==> {
                &&& has(typed_raw(cx, e, env, notes), env[k].1.ty)
                &&& match env[k].1.ty {
                    TyView::Func { params, ret, .. } => if params.len() == 0 {
                        has(typed(cx, e, env, notes), *ret)
                    } else {
                        has(typed(cx, e, env, notes), env[k].1.ty)
                    },
                    ty => has(typed(cx, e, env, notes), ty),
                }
                &&& typed(cx, e, env, notes) matches Ok((_, after)) ==> found(
                    after.expr_binding_ids,
                    e.id,
                ) == Some(env[k].1.id)
            }
            &&& !declared(env, name@) ==> typed(cx, e, env, notes) is Err && typed_raw(
                cx,
                e,
                env,
                notes,
            ) is Err
        },
{
    if let ast::ExprKind::Ident(name) = e.kind {
        if innermost(env, name@, k) {
            lemma_innermost(env, name@, k);
        }
        if !declared(env, name@) {
            lemma_undeclared(env, name@);
        }
    }
}

/// A literal without a sign has the first of the types i32, i64 and u64 that holds it; one with
/// a sign, the first of i32 and i64, and none where neither holds it.
pub proof fn law_literals_have_the_first_type_that_holds_them(
    cx: ContextView,
    e: ast::Expr,
    env: Env,
    notes: NotesMap,
)
    ensures
        match e.kind {
            ast::ExprKind::Int(value) => has(
                typed(cx, e, env, notes),
                if value as int <= 2147483647 {
                    TyView::Int(IntW::W32)
                } else if value as int <= 9223372036854775807 {
                    TyView::Int(IntW::W64)
                } else {
                    TyView::UInt(IntW::W64)
                },
            ),
            ast::ExprKind::Neg { expr } => match expr.kind {
                ast::ExprKind::Int(value) => if -(value as int) >= -2147483648 {
                    has(typed(cx, e, env, notes), TyView::Int(IntW::W32))
                } else if -(value as int) >= -9223372036854775808 {
                    has(typed(cx, e, env, notes), TyView::Int(IntW::W64))
                } else {
                    typed(cx, e, env, notes) is Err
                },
                _ => true,
            },
            ast::ExprKind::Float(_) => has(typed(cx, e, env, notes), TyView::Float(FloatW::F64)),
            ast::ExprKind::Bool(_) => has(typed(cx, e, env, notes), TyView::Bool),
            ast::ExprKind::Str(parts) => match typed(cx, e, env, notes) {
                Ok((ty, _)) => ty == TyView::Str,
                Err(_) => exists|i: int| 0 <= i < parts@.len() && #[trigger] parts@[i] is Hole,
            },
            _ => true,
        },
{
    if let ast::ExprKind::Str(parts) = e.kind {
        if forall|i: int| 0 <= i < parts@.len() ==> !(#[trigger] parts@[i] is Hole) {
            lemma_no_holes(cx, parts@, env, notes, parts@.len());
        }
    }
}

proof fn lemma_no_holes(
    cx: ContextView,
    parts: Seq<ast::StrPart>,
    env: Env,
    notes: NotesMap,
    upto: nat,
)
    requires
        forall|i: int| 0 <= i < parts.len() ==> !(#[trigger] parts[i] is Hole),
    ensures
        crate::typed::typed_holes(cx, parts, env, notes, upto) is Ok,
    decreases upto,
{
    if 0 < upto <= parts.len() {
        lemma_no_holes(cx, parts, env, notes, (upto - 1) as nat);
        assert(!(parts[upto - 1] is Hole));
    }
}

/// An element of an array has the type of its elements: where the receiver is an array of some
/// type and the index an i32, the access has that type.
pub proof fn law_indexing_an_array_gives_an_element(
    cx: ContextView,
    e: ast::Expr,
    env: Env,
    notes: NotesMap,
    between: NotesMap,
    elem: TyView,
)
    requires
        e.kind matches ast::ExprKind::Index { recv, idx } && finds(
            typed(cx, *recv, env, notes),
            TyView::Array(Box::new(elem)),
            between,
        ) && has(
            typed(cx, *idx, env, between),
            TyView::Int(IntW::W32),
        ),
    ensures
        has(typed(cx, e, env, notes), elem),
{
}

/// Nothing but an array is indexed, and by nothing but an i32; only an unsettled type stands in
/// for either.
pub proof fn law_only_arrays_are_indexed(cx: ContextView, e: ast::Expr, env: Env, notes: NotesMap)
    requires
        e.kind is Index,
        typed(cx, e, env, notes) is Ok,
    ensures
        e.kind matches ast::ExprKind::Index { recv, idx } && match typed(cx, *recv, env, notes) {
            Ok((TyView::Array(elem), between)) => {
                &&& has(typed(cx, e, env, notes), *elem)
                &&& has(typed(cx, *idx, env, between), TyView::Int(IntW::W32)) || has(
                    typed(cx, *idx, env, between),
                    TyView::Unknown,
                )
            },
            Ok((TyView::Unknown, _)) => has(typed(cx, e, env, notes), TyView::Unknown),
            _ => false,
        },
{
}

/// A field has the type that its struct declares for it, and is recorded with its place in that
/// struct. A struct that declares no such field has none, nor has any other settled type.
pub proof fn law_fields_have_their_declared_types(
    cx: ContextView,
    e: ast::Expr,
    env: Env,
    notes: NotesMap,
    k: int,
    i: int,
)
    ensures
        e.kind matches ast::ExprKind::Field { recv, name } ==> match typed(cx, *recv, env, notes) {
            Ok((TyView::Struct(owner), _)) => struct_declared(cx, owner, k) ==> {
                &&& first_field(cx.structs[k].1, name@, i) ==> {
                    &&& has(typed(cx, e, env, notes), cx.structs[k].1[i].ty)
                    &&& typed(cx, e, env, notes) matches Ok((_, after)) && found(
                        after.field_indices,
                        e.id,
                    ) == Some(i as usize)
                }
                &&& !has_field(cx.structs[k].1, name@) ==> typed(cx, e, env, notes) is Err
            },
            Ok((TyView::Unknown, _)) => has(typed(cx, e, env, notes), TyView::Unknown),
            _ => typed(cx, e, env, notes) is Err,
        },
{
    if let ast::ExprKind::Field { recv, name } = e.kind {
        if let Ok((TyView::Struct(owner), _)) = typed(cx, *recv, env, notes) {
            if struct_declared(cx, owner, k) {
                lemma_struct(cx, owner, k);
                if first_field(cx.structs[k].1, name@, i) {
                    lemma_first_field(cx.structs[k].1, name@, 0, i);
                }
                if !has_field(cx.structs[k].1, name@) {
                    lemma_no_field(cx.structs[k].1, name@, 0);
                }
            }
        }
    }
}

/// A negation keeps the type of a signed number, a complement that of an integer; `!` takes and
/// gives a bool.
pub proof fn law_prefix_operators(cx: ContextView, e: ast::Expr, env: Env, notes: NotesMap)
    ensures
        match e.kind {
            ast::ExprKind::Neg { expr } => !(expr.kind is Int) ==> match typed(
                cx,
                *expr,
                env,
                notes,
            ) {
                Ok((TyView::Int(w), _)) => has(typed(cx, e, env, notes), TyView::Int(w)),
                Ok((TyView::Float(w), _)) => has(typed(cx, e, env, notes), TyView::Float(w)),
                Ok((TyView::Unknown, _)) => has(typed(cx, e, env, notes), TyView::Unknown),
                _ => typed(cx, e, env, notes) is Err,
            },
            ast::ExprKind::Not { expr } => match typed(cx, *expr, env, notes) {
                Ok((TyView::Bool, _)) => has(typed(cx, e, env, notes), TyView::Bool),
                Ok((TyView::Unknown, _)) => has(typed(cx, e, env, notes), TyView::Bool),
                _ => typed(cx, e, env, notes) is Err,
            },
            ast::ExprKind::BitNot { expr } => match typed(cx, *expr, env, notes) {
                Ok((TyView::Int(w), _)) => has(typed(cx, e, env, notes), TyView::Int(w)),
                Ok((TyView::UInt(w), _)) => has(typed(cx, e, env, notes), TyView::UInt(w)),
                Ok((TyView::Unknown, _)) => has(typed(cx, e, env, notes), TyView::Unknown),
                _ => typed(cx, e, env, notes) is Err,
            },
            _ => true,
        },
{
    match e.kind {
        ast::ExprKind::Neg { expr } => {
            let inner = typed(cx, *expr, env, notes);
            assert(typed_inner(cx, e, env, notes) == typed_unary(cx, e, env, notes));
        },
        ast::ExprKind::Not { expr } => {
            let inner = typed_bool(cx, *expr, env, "! 操作数"@, notes);
            assert(typed_inner(cx, e, env, notes) == typed_unary(cx, e, env, notes));
        },
        ast::ExprKind::BitNot { expr } => {
            assert(typed_inner(cx, e, env, notes) == typed_unary(cx, e, env, notes));
        },
        _ => {},
    }
}

/// A number, of whatever kind.
pub open spec fn number(ty: TyView) -> bool {
    match ty {
        TyView::Int(_) => true,
        TyView::UInt(_) => true,
        TyView::Float(_) => true,
        _ => false,
    }
}

/// A cast has the type that it names. It takes a number to a number and any settled value to
/// text, and nothing else.
pub proof fn law_casts(cx: ContextView, e: ast::Expr, env: Env, notes: NotesMap)
    ensures
        e.kind matches ast::ExprKind::Cast { target, expr } ==> match (
            found(cx.slots, target.id),
            typed(cx, *expr, env, notes),
        ) {
            (Some(Ok(goal)), Ok((source, _))) => if (number(source) && number(goal)) || (goal
                == TyView::Str && source != TyView::Unknown && source != TyView::Unit) {
                has(typed(cx, e, env, notes), goal)
            } else {
                typed(cx, e, env, notes) is Err
            },
            _ => typed(cx, e, env, notes) is Err,
        },
{
    if let ast::ExprKind::Cast { target, expr } = e.kind {
        let inner = typed_value(cx, *expr, env, notes);
        assert(typed_inner(cx, e, env, notes) == typed_unary(cx, e, env, notes));
    }
}

/// The operands that an operator takes, both of one type.
pub open spec fn takes(op: BinOp, ty: TyView) -> bool {
    match op {
        BinOp::Add => number(ty),
        BinOp::Sub => number(ty),
        BinOp::Mul => number(ty),
        BinOp::Div => number(ty),
        BinOp::Rem => ty is Int || ty is UInt,
        BinOp::Shl => ty is Int || ty is UInt,
        BinOp::Shr => ty is Int || ty is UInt,
        BinOp::BitAnd => ty is Int || ty is UInt,
        BinOp::BitXor => ty is Int || ty is UInt,
        BinOp::BitOr => ty is Int || ty is UInt,
        BinOp::And => ty is Bool,
        BinOp::Or => ty is Bool,
        BinOp::EqEq => number(ty) || ty is Str || ty is Bool,
        BinOp::NotEq => number(ty) || ty is Str || ty is Bool,
        BinOp::Lt => number(ty) || ty is Str,
        BinOp::Le => number(ty) || ty is Str,
        BinOp::Gt => number(ty) || ty is Str,
        BinOp::Ge => number(ty) || ty is Str,
    }
}

/// What an operator gives of operands of a type.
pub open spec fn yields(op: BinOp, ty: TyView) -> TyView {
    match op {
        BinOp::Add => ty,
        BinOp::Sub => ty,
        BinOp::Mul => ty,
        BinOp::Div => ty,
        BinOp::Rem => ty,
        BinOp::Shl => ty,
        BinOp::Shr => ty,
        BinOp::BitAnd => ty,
        BinOp::BitXor => ty,
        BinOp::BitOr => ty,
        _ => TyView::Bool,
    }
}

/// A number, or a number with a sign.
pub open spec fn is_number_literal(e: ast::Expr) -> bool {
    match e.kind {
        ast::ExprKind::Int(_) => true,
        ast::ExprKind::Float(_) => true,
        ast::ExprKind::Neg { expr } => expr.kind is Int,
        _ => false,
    }
}

/// Both operands of an operator have the same type, one that the operator takes. Arithmetic
/// keeps it; a comparison and a connective give a bool. Numbers of different types never mix.
pub proof fn law_operators(cx: ContextView, e: ast::Expr, env: Env, notes: NotesMap)
    ensures
        e.kind matches ast::ExprKind::Binary { op, lhs, rhs } ==> !is_number_literal(*rhs)
            ==> match typed(cx, *lhs, env, notes) {
            Ok((left, between)) => match typed(cx, *rhs, env, between) {
                Ok((right, _)) => if left is Unknown || right is Unknown {
                    has(typed(cx, e, env, notes), TyView::Unknown)
                } else if left == right && takes(op, left) {
                    has(typed(cx, e, env, notes), yields(op, left))
                } else {
                    typed(cx, e, env, notes) is Err
                },
                Err(_) => typed(cx, e, env, notes) is Err,
            },
            Err(_) => typed(cx, e, env, notes) is Err,
        },
{
    if let ast::ExprKind::Binary { op, lhs, rhs } = e.kind {
        assert(typed_inner(cx, e, env, notes) == typed_binary(cx, e, env, notes));
        if let Ok((left, between)) = typed(cx, *lhs, env, notes) {
            if !is_number_literal(*rhs) {
                assert(slot_view(left, *rhs) is Other);
                assert(typed_right(cx, left, *rhs, env, between) == typed(cx, *rhs, env, between));
            }
        }
    }
}

/// The numbers that an integer type holds.
pub open spec fn in_range(ty: TyView, value: int) -> bool {
    match ty {
        TyView::Int(IntW::W8) => -128 <= value <= 127,
        TyView::Int(IntW::W16) => -32768 <= value <= 32767,
        TyView::Int(IntW::W32) => -2147483648 <= value <= 2147483647,
        TyView::Int(IntW::W64) => -9223372036854775808 <= value <= 9223372036854775807,
        TyView::UInt(IntW::W8) => 0 <= value <= 255,
        TyView::UInt(IntW::W16) => 0 <= value <= 65535,
        TyView::UInt(IntW::W32) => 0 <= value <= 4294967295,
        TyView::UInt(IntW::W64) => 0 <= value <= 18446744073709551615,
        _ => false,
    }
}

/// The number that a literal stands for.
pub open spec fn number_of(e: ast::Expr) -> Option<int> {
    match e.kind {
        ast::ExprKind::Int(value) => Some(value as int),
        ast::ExprKind::Neg { expr } => match expr.kind {
            ast::ExprKind::Int(value) => Some(-(value as int)),
            _ => None,
        },
        _ => None,
    }
}

/// To the right of an integer a literal takes the type on the left, and is refused where that
/// type does not hold its number.
pub proof fn law_literals_take_the_type_on_the_left(
    cx: ContextView,
    e: ast::Expr,
    env: Env,
    notes: NotesMap,
)
    ensures
        e.kind matches ast::ExprKind::Binary { op, lhs, rhs } ==> match (
            typed(cx, *lhs, env, notes),
            number_of(*rhs),
        ) {
            (Ok((left, _)), Some(value)) => (left is Int || left is UInt) ==> if in_range(
                left,
                value,
            ) && takes(op, left) {
                has(typed(cx, e, env, notes), yields(op, left))
            } else {
                typed(cx, e, env, notes) is Err
            },
            _ => true,
        },
{
    if let ast::ExprKind::Binary { op, lhs, rhs } = e.kind {
        assert(typed_inner(cx, e, env, notes) == typed_binary(cx, e, env, notes));
        if let Ok((left, between)) = typed(cx, *lhs, env, notes) {
            if number_of(*rhs) is Some && left.is_integer() {
                let right = typed_right(cx, left, *rhs, env, between);
                assert(literal_of(*rhs) is Some);
                assert(right is Ok <==> slot_view(left, *rhs) is Takes);
            }
        }
    }
}

/// An integer literal of which an integer type is expected has that type where it holds the
/// number, and is refused where it does not.
pub proof fn law_literals_take_the_expected_type(
    cx: ContextView,
    e: ast::Expr,
    env: Env,
    want: TyView,
    notes: NotesMap,
    value: int,
)
    requires
        number_of(e) == Some(value),
        want is Int || want is UInt,
    ensures
        typed_expected(cx, e, env, want, notes) is Ok <==> in_range(want, value),
        typed_expected(cx, e, env, want, notes) matches Ok((ty, _)) ==> ty == want,
{
    assert(literal_of(e) is Some);
    assert(conversion_of(e) is None);
    let inner = typed_expected_inner(cx, e, env, want, notes);
    assert(inner is Ok <==> slot_view(want, e) is Takes);
}

/// Both branches of a choice have a type in common, and the condition is a bool.
pub proof fn law_choices(
    cx: ContextView,
    e: ast::Expr,
    env: Env,
    notes: NotesMap,
    one: NotesMap,
    two: NotesMap,
    test: TyView,
    first: TyView,
    second: TyView,
)
    requires
        e.kind matches ast::ExprKind::Ternary { cond, then_expr, else_expr } && finds(
            typed(cx, *cond, env, notes),
            test,
            one,
        ) && finds(typed(cx, *then_expr, env, one), first, two) && has(
            typed(cx, *else_expr, env, two),
            second,
        ),
    ensures
        !(test is Bool) && !(test is Unknown) ==> typed(cx, e, env, notes) is Err,
        test is Bool || test is Unknown ==> {
            &&& first is Unknown ==> has(typed(cx, e, env, notes), second)
            &&& second is Unknown ==> has(typed(cx, e, env, notes), first)
            &&& fits(first, second) && !(first is Unknown) ==> has(
                typed(cx, e, env, notes),
                first,
            )
            &&& !fits(first, second) ==> typed(cx, e, env, notes) is Err
        },
{
    if let ast::ExprKind::Ternary { cond, .. } = e.kind {
        let inner = typed_bool(cx, *cond, env, "?: 条件"@, notes);
        assert(typed_inner(cx, e, env, notes) == typed_ternary(cx, e, env, notes));
    }
}

/// A result that is handed on leaves its value, in a function whose result has a matching error.
pub proof fn law_handing_on(
    cx: ContextView,
    e: ast::Expr,
    env: Env,
    notes: NotesMap,
    value: TyView,
    failure: TyView,
)
    requires
        e.kind matches ast::ExprKind::Propagate { expr } && has(
            typed(cx, *expr, env, notes),
            TyView::Result(Box::new(value), Box::new(failure)),
        ),
    ensures
        match cx.fn_ret {
            Some(TyView::Result(_, own)) => if fits(*own, failure) {
                has(typed(cx, e, env, notes), value)
            } else {
                typed(cx, e, env, notes) is Err
            },
            _ => typed(cx, e, env, notes) is Err,
        },
{
}

/// Nothing but a result is handed on.
pub proof fn law_only_results_are_handed_on(
    cx: ContextView,
    e: ast::Expr,
    env: Env,
    notes: NotesMap,
)
    ensures
        e.kind matches ast::ExprKind::Propagate { expr } ==> typed(cx, e, env, notes) is Ok
            ==> match typed(cx, *expr, env, notes) {
            Ok((TyView::Result(value, _), _)) => has(typed(cx, e, env, notes), *value),
            Ok((TyView::Unknown, _)) => has(typed(cx, e, env, notes), TyView::Unknown),
            _ => false,
        },
{
}

/// Some expression list item was looked at and has a type, whatever was noted before it.
pub open spec fn has_somewhere(cx: ContextView, e: ast::Expr, env: Env, ty: TyView) -> bool {
    exists|notes: NotesMap| has(#[trigger] typed_value(cx, e, env, notes), ty)
}

/// Some expression was looked at and found to go where a type is expected.
pub open spec fn goes_into(cx: ContextView, e: ast::Expr, env: Env, want: TyView) -> bool {
    exists|notes: NotesMap| (#[trigger] typed_expected(cx, e, env, want, notes)) is Ok
}

/// An item of a list has a type that fits.
pub open spec fn has_fitting(cx: ContextView, e: ast::Expr, env: Env, want: TyView) -> bool {
    exists|ty: TyView| #[trigger] has_somewhere(cx, e, env, ty) && fits(want, ty)
}

proof fn lemma_elems(
    cx: ContextView,
    elems: Seq<ast::Expr>,
    env: Env,
    notes: NotesMap,
    upto: nat,
)
    requires
        upto <= elems.len(),
    ensures
        typed_elems(cx, elems, env, notes, upto) matches Ok((first, _)) ==> match first {
            None => upto == 0,
            Some(ty) => {
                &&& upto > 0
                &&& has(typed_value(cx, elems[0], env, notes), ty)
                &&& forall|k: int|
                    1 <= k < upto ==> has_fitting(cx, #[trigger] elems[k], env, ty)
            },
        },
    decreases upto,
{
    if upto > 0 {
        let less = (upto - 1) as nat;
        lemma_elems(cx, elems, env, notes, less);
        if let Ok((first, so_far)) = typed_elems(cx, elems, env, notes, less) {
            if typed_elems(cx, elems, env, notes, upto) is Ok {
                let ty = typed_value(cx, elems[less as int], env, so_far)->Ok_0.0;
                assert(has(typed_value(cx, elems[less as int], env, so_far), ty));
                assert(has_somewhere(cx, elems[less as int], env, ty));
                if first is Some {
                    assert(fits(first->0, ty));
                    assert(has_fitting(cx, elems[less as int], env, first->0));
                } else {
                    assert(less == 0);
                    assert(so_far == notes);
                }
            }
        }
    }
}

/// An array that is written out holds elements of the type of its first one, and the others fit
/// it; an empty one holds elements of a type that is not settled.
pub proof fn law_arrays_hold_elements_of_one_type(
    cx: ContextView,
    e: ast::Expr,
    env: Env,
    notes: NotesMap,
)
    requires
        typed(cx, e, env, notes) is Ok,
    ensures
        e.kind matches ast::ExprKind::ArrayLit { elems } ==> if elems@.len() == 0 {
            has(typed(cx, e, env, notes), TyView::Array(Box::new(TyView::Unknown)))
        } else {
            typed(cx, e, env, notes) matches Ok((TyView::Array(elem), _)) && has(
                typed_value(cx, elems@[0], env, notes),
                *elem,
            ) && forall|k: int|
                1 <= k < elems@.len() ==> has_fitting(cx, #[trigger] elems@[k], env, *elem)
        },
{
    if let ast::ExprKind::ArrayLit { elems } = e.kind {
        let inner = typed_inner(cx, e, env, notes);
        lemma_elems(cx, elems@, env, notes, elems@.len());
    }
}

/// A name that means an operation of the language.
pub open spec fn reserved(name: Seq<char>) -> bool {
    ||| name == "clone"@
    ||| name == "shallow"@
    ||| name == "borrow"@
    ||| name == "move"@
    ||| name == "ok"@
    ||| name == "err"@
    ||| name == "print"@
    ||| name == "println"@
    ||| name == "increase"@
    ||| name == "decrease"@
    ||| name == "from"@
    ||| name == "try_from"@
    ||| name == "typeof"@
}

/// The call of a function: of an expression, or of a variable that hides a struct of its name.
pub open spec fn calls_a_function(callee: ast::Expr, env: Env) -> bool {
    match callee.kind {
        ast::ExprKind::Ident(name) => declared(env, name@) && !reserved(name@),
        _ => true,
    }
}

/// No argument has a name.
pub open spec fn unnamed(args: Seq<ast::CallArg>) -> bool {
    forall|i: int| 0 <= i < args.len() ==> (#[trigger] args[i]).label is None
}

proof fn lemma_unnamed(args: Seq<ast::CallArg>, from: int)
    requires
        0 <= from,
    ensures
        labelled(args, from) is None <==> forall|i: int|
            from <= i < args.len() ==> (#[trigger] args[i]).label is None,
    decreases args.len() - from,
{
    if from < args.len() {
        lemma_unnamed(args, from + 1);
        if labelled(args, from) is None {
            assert forall|i: int| from <= i < args.len() implies (#[trigger] args[i]).label is None by {
                if i > from {
                    assert(args[i].label is None);
                }
            }
        }
    }
}

proof fn lemma_args(
    cx: ContextView,
    args: Seq<ast::CallArg>,
    wants: Seq<TyView>,
    env: Env,
    notes: NotesMap,
    upto: nat,
)
    requires
        upto <= args.len(),
        typed_args(cx, args, wants, env, notes, upto) is Ok,
    ensures
        forall|k: int|
            0 <= k < upto ==> goes_into(cx, (#[trigger] args[k]).value, env, wants[k]),
    decreases upto,
{
    if upto > 0 {
        let less = (upto - 1) as nat;
        lemma_args(cx, args, wants, env, notes, less);
        let so_far = typed_args(cx, args, wants, env, notes, less)->Ok_0;
        assert(typed_expected(cx, args[less as int].value, env, wants[less as int], so_far) is Ok);
    }
}

/// The call of a function has the type of its result. There are as many arguments as parameters,
/// none of them has a name, and each goes into its own parameter.
pub proof fn law_calls_have_the_type_of_the_result(
    cx: ContextView,
    e: ast::Expr,
    env: Env,
    notes: NotesMap,
)
    requires
        typed(cx, e, env, notes) is Ok,
    ensures
        e.kind matches ast::ExprKind::Call { callee, args } ==> calls_a_function(*callee, env)
            ==> unnamed(args@) && match typed_raw(cx, *callee, env, notes) {
            Ok((TyView::Func { params, ret, .. }, _)) => {
                &&& has(typed(cx, e, env, notes), *ret)
                &&& args@.len() == params.len()
                &&& forall|k: int|
                    0 <= k < args@.len() ==> goes_into(
                        cx,
                        (#[trigger] args@[k]).value,
                        env,
                        params[k],
                    )
            },
            Ok((TyView::FuncPoly, _)) => has(typed(cx, e, env, notes), TyView::Unknown),
            Ok((TyView::Unknown, _)) => has(typed(cx, e, env, notes), TyView::Unknown),
            _ => false,
        },
{
    if let ast::ExprKind::Call { callee, args } = e.kind {
        if calls_a_function(*callee, env) {
            if let ast::ExprKind::Ident(name) = callee.kind {
                let k = lemma_last_declared(env, name@);
                lemma_innermost(env, name@, k);
            }
            assert(typed_inner(cx, e, env, notes) == typed_call(cx, e, env, notes));
            let plain = typed_plain_call(cx, e, env, notes);
            assert(typed_call(cx, e, env, notes) is Ok ==> plain is Ok);
            let applied = typed_apply(cx, e, env, notes);
            assert(plain is Ok ==> applied is Ok && labelled(args@, 0) is None);
            lemma_unnamed(args@, 0);
            if let Ok((TyView::Func { params, ret, .. }, between)) = typed_raw(
                cx,
                *callee,
                env,
                notes,
            ) {
                lemma_args(cx, args@, params, env, between, args@.len());
            }
        }
    }
}

/// What is declared somewhere is declared last somewhere.
proof fn lemma_last_declared(env: Env, name: Seq<char>) -> (k: int)
    requires
        declared(env, name),
    ensures
        innermost(env, name, k),
    decreases env.len(),
{
    let last = env.len() - 1;
    if env[last].0 == name {
        last
    } else {
        let less = env.drop_last();
        let i = choose|i: int| 0 <= i < env.len() && (#[trigger] env[i]).0 == name;
        assert(less[i].0 == name);
        let k = lemma_last_declared(less, name);
        assert(less[k] == env[k]);
        assert forall|j: int| k < j < env.len() implies (#[trigger] env[j]).0 != name by {
            if j < last {
                assert(less[j] == env[j]);
            }
        }
        k
    }
}

/// A struct is made by naming its fields: each argument names a field, no field is named twice,
/// every field without a default is named, and each value goes into the field that it is named
/// for. What comes out is a value of the struct.
pub proof fn law_structs_are_made_from_their_fields(
    cx: ContextView,
    e: ast::Expr,
    env: Env,
    notes: NotesMap,
    name: Seq<char>,
    k: int,
)
    requires
        typed(cx, e, env, notes) is Ok,
        e.kind matches ast::ExprKind::Call { callee, .. } && (callee.kind matches
            ast::ExprKind::Ident(text) && text@ == name),
        !declared(env, name),
        !reserved(name),
        struct_declared(cx, name, k),
    ensures
        has(typed(cx, e, env, notes), TyView::Struct(name)),
        e.kind matches ast::ExprKind::Call { args, .. } ==> made_from(
            cx,
            args@,
            cx.structs[k].1,
            env,
        ),
{
    lemma_undeclared(env, name);
    lemma_struct(cx, name, k);
    if let ast::ExprKind::Call { callee, args } = e.kind {
        let fields = cx.structs[k].1;
        assert(typed_inner(cx, e, env, notes) == typed_call(cx, e, env, notes));
        let plain = typed_plain_call(cx, e, env, notes);
        assert(plain == typed_struct(cx, name, fields, args@, e.span, env, notes));
        let made = typed_inits(cx, name, fields, args@, env, notes, args@.len());
        assert(made is Ok);
        let set = made->Ok_0.0;
        lemma_inits(cx, name, fields, args@, env, notes, args@.len());
        lemma_unset(fields, set, 0);
        assert forall|f: int|
            0 <= f < fields.len() && !fields[f].has_default implies #[trigger] filled(
            args@,
            fields,
            f,
        ) by {
            assert(set.contains(f));
        }
    }
}

/// An argument names a field: the first with that name.
pub open spec fn names_field(arg: ast::CallArg, fields: Seq<FieldInfoView>, f: int) -> bool {
    match arg.label {
        Some(label) => first_field(fields, label@, f),
        None => false,
    }
}

/// Some argument names the field.
pub open spec fn filled(args: Seq<ast::CallArg>, fields: Seq<FieldInfoView>, f: int) -> bool {
    exists|i: int| 0 <= i < args.len() && names_field(#[trigger] args[i], fields, f)
}

/// An argument names a field and goes into it.
pub open spec fn fills(
    cx: ContextView,
    arg: ast::CallArg,
    fields: Seq<FieldInfoView>,
    env: Env,
) -> bool {
    exists|f: int| #[trigger]
        names_field(arg, fields, f) && goes_into(cx, arg.value, env, fields[f].ty)
}

pub open spec fn made_from(
    cx: ContextView,
    args: Seq<ast::CallArg>,
    fields: Seq<FieldInfoView>,
    env: Env,
) -> bool {
    &&& forall|i: int| 0 <= i < args.len() ==> fills(cx, #[trigger] args[i], fields, env)
    &&& forall|i: int, j: int, f: int|
        0 <= i < j < args.len() && #[trigger] names_field(args[i], fields, f)
            ==> !#[trigger] names_field(args[j], fields, f)
    &&& forall|f: int|
        0 <= f < fields.len() && !fields[f].has_default ==> #[trigger] filled(args, fields, f)
}

proof fn lemma_inits(
    cx: ContextView,
    name: Seq<char>,
    fields: Seq<FieldInfoView>,
    args: Seq<ast::CallArg>,
    env: Env,
    notes: NotesMap,
    upto: nat,
)
    requires
        upto <= args.len(),
        typed_inits(cx, name, fields, args, env, notes, upto) is Ok,
    ensures
        forall|i: int| 0 <= i < upto ==> fills(cx, #[trigger] args[i], fields, env),
        forall|i: int, j: int, f: int|
            0 <= i < j < upto && #[trigger] names_field(args[i], fields, f)
                ==> !#[trigger] names_field(args[j], fields, f),
        forall|f: int| #[trigger]
            typed_inits(cx, name, fields, args, env, notes, upto)->Ok_0.0.contains(f)
                <==> exists|i: int| 0 <= i < upto && names_field(#[trigger] args[i], fields, f),
    decreases upto,
{
    if upto > 0 {
        let less = (upto - 1) as nat;
        let at = less as int;
        lemma_inits(cx, name, fields, args, env, notes, less);
        let (set, so_far) = typed_inits(cx, name, fields, args, env, notes, less)->Ok_0;
        let after = typed_inits(cx, name, fields, args, env, notes, upto)->Ok_0.0;
        let arg = args[at];
        let label = arg.label->0;
        let index = field_at(fields, label@, 0)->0;
        lemma_field_found(fields, label@, 0);
        assert(first_field(fields, label@, index));
        assert(names_field(arg, fields, index));
        assert forall|f: int| names_field(arg, fields, f) implies f == index by {
            if f < index {
                assert(fields[f].name != label@);
            } else if index < f {
                assert(fields[index].name != label@);
            }
        }
        let named = NotesMap {
            ctor_arg_indices: so_far.ctor_arg_indices.insert(arg.id, index as usize),
            ..so_far
        };
        assert(typed_expected(cx, arg.value, env, fields[index].ty, named) is Ok);
        assert(goes_into(cx, arg.value, env, fields[index].ty));
        assert(fills(cx, arg, fields, env));
        assert(after == set.insert(index));
        assert(!set.contains(index));
        assert forall|f: int| #[trigger] after.contains(f) <==> exists|i: int|
            0 <= i < upto && names_field(#[trigger] args[i], fields, f) by {
            if after.contains(f) && f != index {
                assert(set.contains(f));
                let i = choose|i: int| 0 <= i < less && names_field(#[trigger] args[i], fields, f);
                assert(names_field(args[i], fields, f));
            }
            if exists|i: int| 0 <= i < upto && names_field(#[trigger] args[i], fields, f) {
                let i = choose|i: int| 0 <= i < upto && names_field(#[trigger] args[i], fields, f);
                if i < less {
                    assert(set.contains(f));
                }
            }
            if f == index {
                assert(names_field(args[at], fields, f));
            }
        }
        assert forall|i: int, j: int, f: int|
            0 <= i < j < upto && #[trigger] names_field(
                args[i],
                fields,
                f,
            ) implies !#[trigger] names_field(args[j], fields, f) by {
            if j == at && names_field(args[j], fields, f) {
                assert(f == index);
                assert(set.contains(f));
            }
        }
    }
}

proof fn lemma_unset(fields: Seq<FieldInfoView>, set: Set<int>, from: int)
    requires
        0 <= from,
    ensures
        unset_field(fields, set, from) is None <==> forall|f: int|
            from <= f < fields.len() && !(#[trigger] fields[f]).has_default ==> set.contains(f),
    decreases fields.len() - from,
{
    if from < fields.len() {
        lemma_unset(fields, set, from + 1);
        if unset_field(fields, set, from) is None {
            assert forall|f: int|
                from <= f < fields.len() && !(#[trigger] fields[f]).has_default implies set.contains(
                f,
            ) by {
                if f > from {
                    assert(!fields[f].has_default);
                }
            }
        }
    }
}

/// `ok` and `err` make results of their one argument, whose other side is not settled; `print`
/// gives nothing, and `typeof` gives text.
pub proof fn law_built_in_calls(cx: ContextView, e: ast::Expr, env: Env, notes: NotesMap)
    requires
        typed(cx, e, env, notes) is Ok,
    ensures
        e.kind matches ast::ExprKind::Call { callee, args } ==> callee.kind matches
            ast::ExprKind::Ident(name) ==> struct_in(cx.structs, name@) is None ==> {
            &&& name@ == "ok"@ ==> args@.len() == 1 && args@[0].label is None && match typed_value(
                cx,
                args@[0].value,
                env,
                notes,
            ) {
                Ok((ty, _)) => has(
                    typed(cx, e, env, notes),
                    TyView::Result(Box::new(ty), Box::new(TyView::Unknown)),
                ),
                Err(_) => false,
            }
            &&& name@ == "err"@ ==> args@.len() == 1 && args@[0].label is None && match typed_value(
                cx,
                args@[0].value,
                env,
                notes,
            ) {
                Ok((ty, _)) => has(
                    typed(cx, e, env, notes),
                    TyView::Result(Box::new(TyView::Unknown), Box::new(ty)),
                ),
                Err(_) => false,
            }
            &&& name@ == "print"@ || name@ == "println"@ ==> args@.len() == 1 && has(
                typed(cx, e, env, notes),
                TyView::Unit,
            )
            &&& name@ == "typeof"@ ==> args@.len() == 1 && has(
                typed(cx, e, env, notes),
                TyView::Str,
            )
            &&& name@ != "increase"@ && name@ != "decrease"@ && name@ != "from"@ && name@
                != "try_from"@
        },
{
    if let ast::ExprKind::Call { callee, args } = e.kind {
        if let ast::ExprKind::Ident(name) = callee.kind {
            lemma_names_differ();
            assert(typed_inner(cx, e, env, notes) == typed_call(cx, e, env, notes));
            if struct_in(cx.structs, name@) is None && ownership_builtin(name@) is None {
                let plain = typed_plain_call(cx, e, env, notes);
                if let Some(kind) = result_constructor(name@) {
                    let made = typed_result(cx, name@, kind, e, env, notes);
                    assert(plain == made);
                } else if let Some(builtin) = call_builtin(name@) {
                    let made = typed_builtin(cx, builtin, name@, e, env, notes);
                    assert(plain is Ok ==> plain == made);
                }
            }
        }
    }
}

/// The names of the operations are all different.
proof fn lemma_names_differ()
    ensures
        "ok"@.len() == 2,
        "err"@.len() == 3,
        "move"@.len() == 4,
        "from"@.len() == 4,
        "move"@[0] == 'm',
        "from"@[0] == 'f',
        "clone"@.len() == 5,
        "print"@.len() == 5,
        "clone"@[0] == 'c',
        "print"@[0] == 'p',
        "borrow"@.len() == 6,
        "typeof"@.len() == 6,
        "borrow"@[0] == 'b',
        "typeof"@[0] == 't',
        "shallow"@.len() == 7,
        "println"@.len() == 7,
        "shallow"@[0] == 's',
        "println"@[0] == 'p',
        "increase"@.len() == 8,
        "decrease"@.len() == 8,
        "try_from"@.len() == 8,
        "increase"@[0] == 'i',
        "decrease"@[0] == 'd',
        "try_from"@[0] == 't',
{
    reveal_strlit("ok");
    reveal_strlit("err");
    reveal_strlit("move");
    reveal_strlit("from");
    reveal_strlit("clone");
    reveal_strlit("print");
    reveal_strlit("borrow");
    reveal_strlit("typeof");
    reveal_strlit("shallow");
    reveal_strlit("println");
    reveal_strlit("increase");
    reveal_strlit("decrease");
    reveal_strlit("try_from");
}

/// A call borrows the place of its argument under the next loan.
pub open spec fn lent_next(
    cx: ContextView,
    call: u32,
    arg: u32,
    before: NotesMap,
    r: Typed,
) -> bool {
    match (r, found(cx.places, arg)) {
        (Ok((_, after)), Some(Ok(place))) => {
            &&& after.next_loan == before.next_loan + 1
            &&& !cx.borrowed.contains(fact_root(place))
            &&& match found(after.borrow_places, call) {
                Some(fact) => fact.loan_id == LoanId(before.next_loan) && fact.place == place,
                None => false,
            }
        },
        _ => false,
    }
}

/// To copy, move or borrow a value does not change its type. What is moved is a whole variable;
/// what is borrowed lies in a variable that is no alias, and gets the next loan.
pub proof fn law_ownership_operations_keep_the_type(
    cx: ContextView,
    e: ast::Expr,
    env: Env,
    notes: NotesMap,
)
    requires
        typed(cx, e, env, notes) is Ok,
    ensures
        e.kind matches ast::ExprKind::Call { callee, args } ==> callee.kind matches
            ast::ExprKind::Ident(name) ==> (name@ == "clone"@ || name@ == "shallow"@ || name@
            == "move"@ || name@ == "borrow"@) ==> args@.len() == 1 && args@[0].label is None && {
            let arg = args@[0].value;
            &&& match typed_raw(cx, arg, env, notes) {
                Ok((ty, between)) => {
                    &&& has(typed(cx, e, env, notes), ty)
                    &&& name@ == "borrow"@ ==> lent_next(
                        cx,
                        e.id,
                        arg.id,
                        between,
                        typed(cx, e, env, notes),
                    )
                },
                Err(_) => false,
            }
            &&& name@ == "move"@ ==> match found(cx.places, arg.id) {
                Some(Ok(place)) => place is Local,
                _ => false,
            }
        },
{
    if let ast::ExprKind::Call { callee, args } = e.kind {
        if let ast::ExprKind::Ident(name) = callee.kind {
            lemma_names_differ();
            assert(typed_inner(cx, e, env, notes) == typed_call(cx, e, env, notes));
            if name@ == "clone"@ {
                let made = typed_clone(cx, args@, e.span, env, None, notes);
                assert(made is Ok);
                let inner = typed_operand(cx, "clone"@, args@[0].value, env, None, notes);
                assert(inner is Ok);
            } else if name@ == "shallow"@ {
                let made = typed_shallow(cx, args@, e.span, env, None, notes);
                assert(made is Ok);
                let inner = typed_operand(cx, "shallow"@, args@[0].value, env, None, notes);
                assert(inner is Ok);
            } else if name@ == "move"@ {
                let made = typed_move(cx, e, env, notes);
                assert(made is Ok);
                let place = answer(cx.places, args@[0].value.id, args@[0].value.span)->Ok_0;
                let inner = typed_place(cx, "move"@, args@[0].value, place, env, notes);
                assert(inner is Ok);
            } else if name@ == "borrow"@ {
                let made = typed_borrow(cx, e, env, notes);
                assert(made is Ok);
                let place = answer(cx.places, args@[0].value.id, args@[0].value.span)->Ok_0;
                let inner = typed_place(cx, "borrow"@, args@[0].value, place, env, notes);
                assert(inner is Ok);
            }
        }
    }
}

/// The call of a method that the program declares has the type of its result, and each argument
/// goes into its own parameter; the call of one that nobody declares is refused.
pub proof fn law_methods_have_the_type_of_their_result(
    cx: ContextView,
    e: ast::Expr,
    env: Env,
    notes: NotesMap,
    k: int,
)
    requires
        found(cx.builtins, e.id) is None,
    ensures
        e.kind matches ast::ExprKind::MethodCall { recv, name, args } ==> match typed(
            cx,
            *recv,
            env,
            notes,
        ) {
            Ok((on, between)) => !(on is Unknown) ==> {
                &&& method_declared(cx.methods, on, name@, k) && typed(cx, e, env, notes) is Ok ==> {
                    &&& has(typed(cx, e, env, notes), cx.methods[k].ret)
                    &&& unnamed(args@)
                    &&& args@.len() == cx.methods[k].params.len()
                    &&& forall|i: int|
                        0 <= i < args@.len() ==> goes_into(
                            cx,
                            (#[trigger] args@[i]).value,
                            env,
                            cx.methods[k].params[i],
                        )
                }
                &&& user_method(cx.methods, ty_name(on), name@) is None ==> typed(
                    cx,
                    e,
                    env,
                    notes,
                ) is Err
            },
            Err(_) => typed(cx, e, env, notes) is Err,
        },
{
    if let ast::ExprKind::MethodCall { recv, name, args } = e.kind {
        assert(typed_inner(cx, e, env, notes) == typed_method_call(cx, e, env, notes));
        if let Ok((on, between)) = typed(cx, *recv, env, notes) {
            let called = typed_method(cx, e.id, on, name@, args@, e.span, env, between);
            assert(typed_method_call(cx, e, env, notes) is Ok ==> called is Ok);
            if method_declared(cx.methods, on, name@, k) {
                lemma_method_found(cx.methods, on, name@, cx.methods.len() as int, k);
                assert(cx.methods.take(cx.methods.len() as int) =~= cx.methods);
                lemma_unnamed(args@, 0);
                if called is Ok && !(on is Unknown) {
                    assert(typed_args(
                        cx,
                        args@,
                        cx.methods[k].params,
                        env,
                        between,
                        args@.len(),
                    ) is Ok);
                    lemma_args(
                        cx,
                        args@,
                        cx.methods[k].params,
                        env,
                        between,
                        args@.len(),
                    );
                }
            }
        }
    }
}

/// A type is open where a part of it is not settled or takes any function.
pub open spec fn open_type(ty: TyView) -> bool
    decreases ty,
{
    match ty {
        TyView::Unknown => true,
        TyView::FuncPoly => true,
        TyView::Func { .. } => true,
        TyView::Array(elem) => open_type(*elem),
        TyView::Iterator(elem) => open_type(*elem),
        TyView::Result(ok, err) => open_type(*ok) || open_type(*err),
        TyView::Ptr { pointee, .. } => open_type(*pointee),
        _ => false,
    }
}

/// Between types without open parts a value passes only where they are the same. What is not
/// settled fits everything, from both sides.
pub proof fn law_settled_types_fit_only_themselves(a: TyView, b: TyView)
    ensures
        !open_type(a) && !open_type(b) ==> (fits(a, b) <==> a == b),
        a is Unknown || b is Unknown ==> fits(a, b),
        fits(a, b) && !(a is Unknown) && !(b is Unknown) ==> {
            &&& a is Array <==> b is Array
            &&& a is Result <==> b is Result
            &&& a is Ptr <==> b is Ptr
            &&& (a is Func || a is FuncPoly) <==> (b is Func || b is FuncPoly)
        },
    decreases a,
{
    match (a, b) {
        (TyView::Array(x), TyView::Array(y)) => law_settled_types_fit_only_themselves(*x, *y),
        (TyView::Iterator(x), TyView::Iterator(y)) => law_settled_types_fit_only_themselves(*x, *y),
        (TyView::Result(x, e), TyView::Result(y, f)) => {
            law_settled_types_fit_only_themselves(*x, *y);
            law_settled_types_fit_only_themselves(*e, *f);
        },
        (TyView::Ptr { pointee: x, .. }, TyView::Ptr { pointee: y, .. }) => {
            law_settled_types_fit_only_themselves(*x, *y);
        },
        _ => {},
    }
}

} // verus!
