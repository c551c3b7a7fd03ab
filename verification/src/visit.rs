//! The order in which passes see the nodes of a program.
//!
//! A walk lists every node of a program, parents before children, together with the position
//! a node stands in and the function it belongs to. The walk keeps its own stack, so the
//! nesting of a program never turns into nesting of calls.

use crate::model::{
    ArmBody, Binding, Body, CallArg, CallTarget, CheckedProgram, Expr, Item, MatchArm, MethodTarget,
    Place, ResolvedConversion, Stmt, StrPart, StructField,
};
use crate::types::FunctionId;
use vstd::prelude::*;

verus! {

/// What a walk descends into, and in which order.
#[derive(Debug, Clone, Copy)]
pub struct Walk {
    /// Visit the callee of every call, not only of calls through a function value.
    pub every_callee: bool,
    /// Visit the bodies of function literals.
    pub into_functions: bool,
    /// Visit the right-hand side of an assignment before the indices of its target.
    pub value_first: bool,
    /// Visit the subject of a match after its arms.
    pub subject_last: bool,
}

/// The position that an expression stands in.
#[derive(Debug, Clone, Copy)]
pub enum Position<'a> {
    /// No position that any rule asks about.
    Plain,
    /// The value becomes a part of an aggregate.
    Stored,
    /// The initializer of a variable.
    Initial(&'a Binding),
    /// The right-hand side of an assignment.
    Assigned(&'a Place),
    /// The operand of a return; the expression is the whole operand.
    Returned(&'a Expr),
}

#[derive(Debug, Clone, Copy)]
pub enum Node<'a> {
    Item(&'a Item),
    Stmt(&'a Stmt),
    Expr(&'a Expr, Position<'a>),
    /// The walk is done with the body of this function literal.
    Leave(&'a Expr),
}

/// One step of a walk: a node, and the innermost function around it.
#[derive(Debug, Clone, Copy)]
pub struct Visit<'a> {
    pub node: Node<'a>,
    pub scope: Option<FunctionId>,
}

/// Calls that put their arguments into a new aggregate.
pub open spec fn stores_arguments(target: CallTarget) -> bool {
    target is StructConstructor || target is ResultConstructor
}

/// Whether a call puts its arguments into a new aggregate.
pub fn constructor_target(target: &CallTarget) -> (r: bool)
    ensures
        r == stores_arguments(*target),
{
    matches!(target, CallTarget::StructConstructor { .. } | CallTarget::ResultConstructor(_))
}

pub open spec fn call_position<'a>(target: CallTarget) -> Position<'a> {
    if stores_arguments(target) {
        Position::Stored
    } else {
        Position::Plain
    }
}

pub open spec fn method_position<'a>(target: MethodTarget) -> Position<'a> {
    if target is ArrayPush {
        Position::Stored
    } else {
        Position::Plain
    }
}

/// An identity conversion hands its position on, except that only the whole value is stored.
pub open spec fn inner_position<'a>(position: Position<'a>) -> Position<'a> {
    match position {
        Position::Stored => Position::Plain,
        _ => position,
    }
}

pub open spec fn expr_visit<'a>(
    scope: Option<FunctionId>,
    expr: &'a Expr,
    position: Position<'a>,
) -> Visit<'a> {
    Visit { node: Node::Expr(expr, position), scope }
}

pub open spec fn stmt_visit<'a>(scope: Option<FunctionId>, stmt: &'a Stmt) -> Visit<'a> {
    Visit { node: Node::Stmt(stmt), scope }
}

pub open spec fn visits_callee(walk: Walk, target: CallTarget) -> bool {
    walk.every_callee || target is FunctionValue
}

/// Everything that the walk lists at an expression, the expression first.
pub open spec fn walk_expr<'a>(
    walk: Walk,
    scope: Option<FunctionId>,
    expr: &'a Expr,
    position: Position<'a>,
) -> Seq<Visit<'a>>
    decreases expr,
{
    seq![expr_visit(scope, expr, position)] + match *expr {
        Expr::Str(parts, _, _) => part_walks(walk, scope, parts@).flatten(),
        Expr::Cast { expr: inner, .. } => walk_expr(walk, scope, &inner, Position::Plain),
        Expr::Convert { expr: inner, mode, .. } => walk_expr(
            walk,
            scope,
            &inner,
            match mode {
                ResolvedConversion::Identity => inner_position(position),
                ResolvedConversion::Convert => Position::Plain,
            },
        ),
        Expr::Neg { expr: inner, .. } => walk_expr(walk, scope, &inner, Position::Plain),
        Expr::Not { expr: inner, .. } => walk_expr(walk, scope, &inner, Position::Plain),
        Expr::BitNot { expr: inner, .. } => walk_expr(walk, scope, &inner, Position::Plain),
        Expr::Propagate { expr: inner, .. } => walk_expr(walk, scope, &inner, Position::Plain),
        Expr::Binary { lhs, rhs, .. } => walk_expr(walk, scope, &lhs, Position::Plain)
            + walk_expr(walk, scope, &rhs, Position::Plain),
        Expr::Ternary { cond, then_expr, else_expr, .. } => walk_expr(
            walk,
            scope,
            &cond,
            Position::Plain,
        ) + walk_expr(walk, scope, &then_expr, Position::Plain) + walk_expr(
            walk,
            scope,
            &else_expr,
            Position::Plain,
        ),
        Expr::Call { callee, args, target, .. } => (if visits_callee(walk, target) {
            walk_expr(walk, scope, &callee, Position::Plain)
        } else {
            Seq::empty()
        }) + arg_walks(walk, scope, args@, call_position(target)).flatten(),
        Expr::MethodCall { recv, args, target, .. } => walk_expr(
            walk,
            scope,
            &recv,
            Position::Plain,
        ) + arg_walks(walk, scope, args@, method_position(target)).flatten(),
        Expr::Field { recv, .. } => walk_expr(walk, scope, &recv, Position::Plain),
        Expr::Index { recv, idx, .. } => walk_expr(walk, scope, &recv, Position::Plain)
            + walk_expr(walk, scope, &idx, Position::Plain),
        Expr::ArrayLit { elems, .. } => elem_walks(walk, scope, elems@).flatten(),
        Expr::FuncLit { function_id, body, .. } => if walk.into_functions {
            walk_body(walk, Some(function_id), &body) + seq![
                Visit { node: Node::Leave(expr), scope },
            ]
        } else {
            Seq::empty()
        },
        Expr::Match { subject, arms, .. } => if walk.subject_last {
            arm_walks(walk, scope, arms@).flatten() + walk_expr(walk, scope, &subject, Position::Plain)
        } else {
            walk_expr(walk, scope, &subject, Position::Plain) + arm_walks(walk, scope, arms@).flatten()
        },
        Expr::ReadPlace { source, .. } => walk_place(walk, scope, &source),
        Expr::Borrow { source, .. } => walk_place(walk, scope, &source),
        Expr::Refer { source, .. } => walk_place(walk, scope, &source),
        Expr::Move { source, .. } => walk_place(walk, scope, &source),
        Expr::Int(..) => Seq::empty(),
        Expr::Float(..) => Seq::empty(),
        Expr::Bool(..) => Seq::empty(),
        Expr::Ident(..) => Seq::empty(),
        Expr::This(..) => Seq::empty(),
        Expr::Typeof { .. } => Seq::empty(),
    }
}

/// The index expressions of a place, from its root outwards.
pub open spec fn walk_place<'a>(
    walk: Walk,
    scope: Option<FunctionId>,
    place: &'a Place,
) -> Seq<Visit<'a>>
    decreases place,
{
    match *place {
        Place::Local { .. } => Seq::empty(),
        Place::Field { base, .. } => walk_place(walk, scope, &base),
        Place::Index { base, index, .. } => walk_place(walk, scope, &base) + walk_expr(
            walk,
            scope,
            &index,
            Position::Plain,
        ),
    }
}

pub open spec fn part_walks<'a>(
    walk: Walk,
    scope: Option<FunctionId>,
    parts: Seq<StrPart>,
) -> Seq<Seq<Visit<'a>>>
    decreases parts,
{
    Seq::new(
        parts.len(),
        |i: int|
            if 0 <= i < parts.len() {
                match &parts[i] {
                    StrPart::Lit(_) => Seq::empty(),
                    StrPart::Hole(hole) => walk_expr(walk, scope, hole, Position::Plain),
                }
            } else {
                Seq::empty()
            },
    )
}

pub open spec fn elem_walks<'a>(
    walk: Walk,
    scope: Option<FunctionId>,
    elems: Seq<Expr>,
) -> Seq<Seq<Visit<'a>>>
    decreases elems,
{
    Seq::new(
        elems.len(),
        |i: int|
            if 0 <= i < elems.len() {
                walk_expr(walk, scope, &elems[i], Position::Stored)
            } else {
                Seq::empty()
            },
    )
}

pub open spec fn arg_walks<'a>(
    walk: Walk,
    scope: Option<FunctionId>,
    args: Seq<CallArg>,
    position: Position<'a>,
) -> Seq<Seq<Visit<'a>>>
    decreases args,
{
    Seq::new(
        args.len(),
        |i: int|
            if 0 <= i < args.len() {
                walk_expr(walk, scope, &args[i].value, position)
            } else {
                Seq::empty()
            },
    )
}

pub open spec fn arm_walks<'a>(
    walk: Walk,
    scope: Option<FunctionId>,
    arms: Seq<MatchArm>,
) -> Seq<Seq<Visit<'a>>>
    decreases arms,
{
    Seq::new(
        arms.len(),
        |i: int|
            if 0 <= i < arms.len() {
                match arms[i].body {
                    ArmBody::Block(stmts) => stmt_walks(walk, scope, stmts@).flatten(),
                    ArmBody::Value(value) => walk_expr(walk, scope, &value, Position::Plain),
                    ArmBody::Ret(value) => walk_expr(
                        walk,
                        scope,
                        &value,
                        Position::Returned(&value),
                    ),
                }
            } else {
                Seq::empty()
            },
    )
}

pub open spec fn branch_walks<'a>(
    walk: Walk,
    scope: Option<FunctionId>,
    branches: Seq<(Expr, Vec<Stmt>)>,
) -> Seq<Seq<Visit<'a>>>
    decreases branches,
{
    Seq::new(
        branches.len(),
        |i: int|
            if 0 <= i < branches.len() {
                walk_expr(walk, scope, &branches[i].0, Position::Plain) + stmt_walks(
                    walk,
                    scope,
                    branches[i].1@,
                ).flatten()
            } else {
                Seq::empty()
            },
    )
}

pub open spec fn walk_body<'a>(
    walk: Walk,
    scope: Option<FunctionId>,
    body: &'a Body,
) -> Seq<Visit<'a>>
    decreases body,
{
    match *body {
        Body::Block(stmts) => stmt_walks(walk, scope, stmts@).flatten(),
        Body::Single(stmt) => walk_stmt(walk, scope, &stmt),
    }
}

pub open spec fn stmt_walks<'a>(
    walk: Walk,
    scope: Option<FunctionId>,
    stmts: Seq<Stmt>,
) -> Seq<Seq<Visit<'a>>>
    decreases stmts,
{
    Seq::new(
        stmts.len(),
        |i: int|
            if 0 <= i < stmts.len() {
                walk_stmt(walk, scope, &stmts[i])
            } else {
                Seq::empty()
            },
    )
}

/// Everything that the walk lists at a statement, the statement first.
pub open spec fn walk_stmt<'a>(
    walk: Walk,
    scope: Option<FunctionId>,
    stmt: &'a Stmt,
) -> Seq<Visit<'a>>
    decreases stmt,
{
    seq![stmt_visit(scope, stmt)] + match *stmt {
        Stmt::Binding(binding) => walk_expr(
            walk,
            scope,
            &binding.value,
            Position::Initial(&binding),
        ),
        Stmt::Assign { target, value, .. } => if walk.value_first {
            walk_expr(walk, scope, &value, Position::Assigned(&target)) + walk_place(
                walk,
                scope,
                &target,
            )
        } else {
            walk_place(walk, scope, &target) + walk_expr(
                walk,
                scope,
                &value,
                Position::Assigned(&target),
            )
        },
        Stmt::Expr { expr } => walk_expr(walk, scope, &expr, Position::Plain),
        Stmt::Return { value } => match value {
            Some(value) => walk_expr(walk, scope, &value, Position::Returned(&value)),
            None => Seq::empty(),
        },
        Stmt::If { branches, else_body } => branch_walks(walk, scope, branches@).flatten()
            + match else_body {
            Some(body) => stmt_walks(walk, scope, body@).flatten(),
            None => Seq::empty(),
        },
        Stmt::While { cond, body } => walk_expr(walk, scope, &cond, Position::Plain)
            + stmt_walks(walk, scope, body@).flatten(),
        Stmt::For { iterable, body, .. } => walk_expr(walk, scope, &iterable, Position::Plain)
            + stmt_walks(walk, scope, body@).flatten(),
        Stmt::Break => Seq::empty(),
        Stmt::Continue => Seq::empty(),
    }
}

/// Everything that the walk lists at an item, the item first.
pub open spec fn walk_item<'a>(walk: Walk, item: &'a Item) -> Seq<Visit<'a>> {
    seq![Visit { node: Node::Item(item), scope: None }] + match *item {
        Item::Binding(binding) => walk_expr(
            walk,
            None,
            &binding.value,
            Position::Initial(&binding),
        ),
        Item::StructDef(def) => Seq::new(
            def.fields@.len(),
            |i: int|
                match def.fields@[i].default {
                    Some(default) => walk_expr(walk, None, &default, Position::Stored),
                    None => Seq::empty(),
                },
        ).flatten(),
    }
}

/// Every node of a program, in the order of the walk.
pub open spec fn program_walk<'a>(walk: Walk, program: &'a CheckedProgram) -> Seq<Visit<'a>> {
    Seq::new(program.items@.len(), |i: int| walk_item(walk, &program.items@[i])).flatten()
}

/// Everything that the walk lists at a node, the node first.
pub open spec fn walk_visit<'a>(walk: Walk, visit: Visit<'a>) -> Seq<Visit<'a>> {
    match visit.node {
        Node::Item(item) => seq![visit] + walk_item(walk, item).drop_first(),
        Node::Stmt(stmt) => walk_stmt(walk, visit.scope, stmt),
        Node::Expr(expr, position) => walk_expr(walk, visit.scope, expr, position),
        Node::Leave(_) => seq![visit],
    }
}

pub open spec fn walk_all<'a>(walk: Walk, visits: Seq<Visit<'a>>) -> Seq<Visit<'a>> {
    visits.map_values(|visit: Visit<'a>| walk_visit(walk, visit)).flatten()
}

pub open spec fn stmt_visits<'a>(scope: Option<FunctionId>, stmts: Seq<Stmt>) -> Seq<Visit<'a>> {
    Seq::new(stmts.len(), |i: int| stmt_visit(scope, &stmts[i]))
}

pub open spec fn arg_visits<'a>(
    scope: Option<FunctionId>,
    args: Seq<CallArg>,
    position: Position<'a>,
) -> Seq<Visit<'a>> {
    Seq::new(args.len(), |i: int| expr_visit(scope, &args[i].value, position))
}

pub open spec fn elem_visits<'a>(scope: Option<FunctionId>, elems: Seq<Expr>) -> Seq<Visit<'a>> {
    Seq::new(elems.len(), |i: int| expr_visit(scope, &elems[i], Position::Stored))
}

pub open spec fn part_visits<'a>(scope: Option<FunctionId>, part: StrPart) -> Seq<Visit<'a>> {
    match part {
        StrPart::Lit(_) => Seq::empty(),
        StrPart::Hole(hole) => seq![expr_visit(scope, &hole, Position::Plain)],
    }
}

pub open spec fn arm_visits<'a>(scope: Option<FunctionId>, arm: MatchArm) -> Seq<Visit<'a>> {
    match arm.body {
        ArmBody::Block(stmts) => stmt_visits(scope, stmts@),
        ArmBody::Value(value) => seq![expr_visit(scope, &value, Position::Plain)],
        ArmBody::Ret(value) => seq![expr_visit(scope, &value, Position::Returned(&value))],
    }
}

pub open spec fn arms_visits<'a>(scope: Option<FunctionId>, arms: Seq<MatchArm>) -> Seq<
    Visit<'a>,
> {
    Seq::new(arms.len(), |i: int| arm_visits(scope, arms[i])).flatten()
}

pub open spec fn branch_visits<'a>(
    scope: Option<FunctionId>,
    branch: (Expr, Vec<Stmt>),
) -> Seq<Visit<'a>> {
    seq![expr_visit(scope, &branch.0, Position::Plain)] + stmt_visits(scope, branch.1@)
}

pub open spec fn body_visits<'a>(scope: Option<FunctionId>, body: &'a Body) -> Seq<Visit<'a>> {
    match *body {
        Body::Block(stmts) => stmt_visits(scope, stmts@),
        Body::Single(stmt) => seq![stmt_visit(scope, &stmt)],
    }
}

pub open spec fn place_visits<'a>(scope: Option<FunctionId>, place: &'a Place) -> Seq<Visit<'a>>
    decreases place,
{
    match *place {
        Place::Local { .. } => Seq::empty(),
        Place::Field { base, .. } => place_visits(scope, &base),
        Place::Index { base, index, .. } => place_visits(scope, &base).push(
            expr_visit(scope, &index, Position::Plain),
        ),
    }
}

pub open spec fn field_visits<'a>(field: StructField) -> Seq<Visit<'a>> {
    match field.default {
        Some(default) => seq![expr_visit(None, &default, Position::Stored)],
        None => Seq::empty(),
    }
}

/// The children of an expression, in the order of the walk.
pub open spec fn expr_kids<'a>(
    walk: Walk,
    scope: Option<FunctionId>,
    expr: &'a Expr,
    position: Position<'a>,
) -> Seq<Visit<'a>> {
    match *expr {
        Expr::Str(parts, _, _) => Seq::new(
            parts@.len(),
            |i: int| part_visits(scope, parts@[i]),
        ).flatten(),
        Expr::Cast { expr: inner, .. } => seq![expr_visit(scope, &inner, Position::Plain)],
        Expr::Convert { expr: inner, mode, .. } => seq![
            expr_visit(
                scope,
                &inner,
                match mode {
                    ResolvedConversion::Identity => inner_position(position),
                    ResolvedConversion::Convert => Position::Plain,
                },
            ),
        ],
        Expr::Neg { expr: inner, .. } => seq![expr_visit(scope, &inner, Position::Plain)],
        Expr::Not { expr: inner, .. } => seq![expr_visit(scope, &inner, Position::Plain)],
        Expr::BitNot { expr: inner, .. } => seq![expr_visit(scope, &inner, Position::Plain)],
        Expr::Propagate { expr: inner, .. } => seq![expr_visit(scope, &inner, Position::Plain)],
        Expr::Binary { lhs, rhs, .. } => seq![
            expr_visit(scope, &lhs, Position::Plain),
            expr_visit(scope, &rhs, Position::Plain),
        ],
        Expr::Ternary { cond, then_expr, else_expr, .. } => seq![
            expr_visit(scope, &cond, Position::Plain),
            expr_visit(scope, &then_expr, Position::Plain),
            expr_visit(scope, &else_expr, Position::Plain),
        ],
        Expr::Call { callee, args, target, .. } => (if visits_callee(walk, target) {
            seq![expr_visit(scope, &callee, Position::Plain)]
        } else {
            Seq::empty()
        }) + arg_visits(scope, args@, call_position(target)),
        Expr::MethodCall { recv, args, target, .. } => seq![
            expr_visit(scope, &recv, Position::Plain),
        ] + arg_visits(scope, args@, method_position(target)),
        Expr::Field { recv, .. } => seq![expr_visit(scope, &recv, Position::Plain)],
        Expr::Index { recv, idx, .. } => seq![
            expr_visit(scope, &recv, Position::Plain),
            expr_visit(scope, &idx, Position::Plain),
        ],
        Expr::ArrayLit { elems, .. } => elem_visits(scope, elems@),
        Expr::FuncLit { function_id, body, .. } => if walk.into_functions {
            body_visits(Some(function_id), &body) + seq![Visit { node: Node::Leave(expr), scope }]
        } else {
            Seq::empty()
        },
        Expr::Match { subject, arms, .. } => if walk.subject_last {
            arms_visits(scope, arms@) + seq![expr_visit(scope, &subject, Position::Plain)]
        } else {
            seq![expr_visit(scope, &subject, Position::Plain)] + arms_visits(scope, arms@)
        },
        Expr::ReadPlace { source, .. } => place_visits(scope, &source),
        Expr::Borrow { source, .. } => place_visits(scope, &source),
        Expr::Refer { source, .. } => place_visits(scope, &source),
        Expr::Move { source, .. } => place_visits(scope, &source),
        Expr::Int(..) => Seq::empty(),
        Expr::Float(..) => Seq::empty(),
        Expr::Bool(..) => Seq::empty(),
        Expr::Ident(..) => Seq::empty(),
        Expr::This(..) => Seq::empty(),
        Expr::Typeof { .. } => Seq::empty(),
    }
}

/// The children of a statement, in the order of the walk.
pub open spec fn stmt_kids<'a>(
    walk: Walk,
    scope: Option<FunctionId>,
    stmt: &'a Stmt,
) -> Seq<Visit<'a>> {
    match *stmt {
        Stmt::Binding(binding) => seq![
            expr_visit(scope, &binding.value, Position::Initial(&binding)),
        ],
        Stmt::Assign { target, value, .. } => if walk.value_first {
            seq![expr_visit(scope, &value, Position::Assigned(&target))] + place_visits(
                scope,
                &target,
            )
        } else {
            place_visits(scope, &target) + seq![
                expr_visit(scope, &value, Position::Assigned(&target)),
            ]
        },
        Stmt::Expr { expr } => seq![expr_visit(scope, &expr, Position::Plain)],
        Stmt::Return { value } => match value {
            Some(value) => seq![expr_visit(scope, &value, Position::Returned(&value))],
            None => Seq::empty(),
        },
        Stmt::If { branches, else_body } => Seq::new(
            branches@.len(),
            |i: int| branch_visits(scope, branches@[i]),
        ).flatten() + match else_body {
            Some(body) => stmt_visits(scope, body@),
            None => Seq::empty(),
        },
        Stmt::While { cond, body } => seq![expr_visit(scope, &cond, Position::Plain)]
            + stmt_visits(scope, body@),
        Stmt::For { iterable, body, .. } => seq![expr_visit(scope, &iterable, Position::Plain)]
            + stmt_visits(scope, body@),
        Stmt::Break => Seq::empty(),
        Stmt::Continue => Seq::empty(),
    }
}

/// The children of a node, in the order of the walk.
pub open spec fn visit_kids<'a>(walk: Walk, visit: Visit<'a>) -> Seq<Visit<'a>> {
    match visit.node {
        Node::Item(item) => match *item {
            Item::Binding(binding) => seq![
                expr_visit(None, &binding.value, Position::Initial(&binding)),
            ],
            Item::StructDef(def) => Seq::new(
                def.fields@.len(),
                |i: int| field_visits(def.fields@[i]),
            ).flatten(),
        },
        Node::Stmt(stmt) => stmt_kids(walk, visit.scope, stmt),
        Node::Expr(expr, position) => expr_kids(walk, visit.scope, expr, position),
        Node::Leave(_) => Seq::empty(),
    }
}

pub proof fn lemma_flatten_add<T>(a: Seq<Seq<T>>, b: Seq<Seq<T>>)
    ensures
        (a + b).flatten() == a.flatten() + b.flatten(),
    decreases a.len(),
{
    if a.len() == 0 {
        assert(a + b =~= b);
        assert(a.flatten() =~= Seq::<T>::empty());
    } else {
        lemma_flatten_add(a.drop_first(), b);
        assert((a + b).drop_first() =~= a.drop_first() + b);
        assert((a + b).first() == a.first());
        assert((a + b).flatten() =~= a.flatten() + b.flatten());
    }
}

pub proof fn lemma_flatten_one<T>(a: Seq<T>)
    ensures
        seq![a].flatten() == a,
{
    assert(seq![a].drop_first() =~= Seq::<Seq<T>>::empty());
    assert(seq![a].flatten() =~= a + Seq::<Seq<T>>::empty().flatten());
    assert(Seq::<Seq<T>>::empty().flatten() =~= Seq::<T>::empty());
}

pub proof fn lemma_walk_all_add<'a>(walk: Walk, a: Seq<Visit<'a>>, b: Seq<Visit<'a>>)
    ensures
        walk_all(walk, a + b) == walk_all(walk, a) + walk_all(walk, b),
{
    let f = |visit: Visit<'a>| walk_visit(walk, visit);
    assert((a + b).map_values(f) =~= a.map_values(f) + b.map_values(f));
    lemma_flatten_add(a.map_values(f), b.map_values(f));
}

pub proof fn lemma_walk_all_one<'a>(walk: Walk, v: Visit<'a>)
    ensures
        walk_all(walk, seq![v]) == walk_visit(walk, v),
{
    let f = |visit: Visit<'a>| walk_visit(walk, visit);
    assert(seq![v].map_values(f) =~= seq![walk_visit(walk, v)]);
    lemma_flatten_one(walk_visit(walk, v));
}

pub proof fn lemma_walk_all_empty<'a>(walk: Walk)
    ensures
        walk_all(walk, Seq::<Visit<'a>>::empty()) == Seq::<Visit<'a>>::empty(),
{
    let f = |visit: Visit<'a>| walk_visit(walk, visit);
    assert(Seq::<Visit<'a>>::empty().map_values(f) =~= Seq::<Seq<Visit<'a>>>::empty());
    assert(Seq::<Seq<Visit<'a>>>::empty().flatten() =~= Seq::<Visit<'a>>::empty());
}

/// Walking a flattened list of lists is flattening the walks of the lists.
proof fn lemma_walk_all_flatten<'a>(walk: Walk, lists: Seq<Seq<Visit<'a>>>)
    ensures
        walk_all(walk, lists.flatten()) == Seq::new(
            lists.len(),
            |i: int| walk_all(walk, lists[i]),
        ).flatten(),
    decreases lists.len(),
{
    let walks = Seq::new(lists.len(), |i: int| walk_all(walk, lists[i]));
    if lists.len() == 0 {
        assert(lists.flatten() =~= Seq::<Visit<'a>>::empty());
        lemma_walk_all_empty(walk);
        assert(walks.flatten() =~= Seq::<Visit<'a>>::empty());
    } else {
        let rest = lists.drop_first();
        lemma_walk_all_flatten(walk, rest);
        lemma_walk_all_add(walk, lists[0], rest.flatten());
        assert(lists.flatten() =~= lists[0] + rest.flatten());
        assert(walks.drop_first() =~= Seq::new(rest.len(), |i: int| walk_all(walk, rest[i])));
    }
}

proof fn lemma_walk_stmts<'a>(walk: Walk, scope: Option<FunctionId>, stmts: Seq<Stmt>)
    ensures
        walk_all(walk, stmt_visits(scope, stmts)) == stmt_walks(walk, scope, stmts).flatten(),
{
    let f = |visit: Visit<'a>| walk_visit(walk, visit);
    assert(stmt_visits(scope, stmts).map_values(f) =~= stmt_walks(walk, scope, stmts));
}

proof fn lemma_walk_args<'a>(
    walk: Walk,
    scope: Option<FunctionId>,
    args: Seq<CallArg>,
    position: Position<'a>,
)
    ensures
        walk_all(walk, arg_visits(scope, args, position)) == arg_walks(
            walk,
            scope,
            args,
            position,
        ).flatten(),
{
    let f = |visit: Visit<'a>| walk_visit(walk, visit);
    assert(arg_visits(scope, args, position).map_values(f) =~= arg_walks(
        walk,
        scope,
        args,
        position,
    ));
}

proof fn lemma_walk_place<'a>(walk: Walk, scope: Option<FunctionId>, place: &'a Place)
    ensures
        walk_all(walk, place_visits(scope, place)) == walk_place(walk, scope, place),
    decreases place,
{
    match place {
        Place::Local { .. } => {
            lemma_walk_all_empty(walk);
        },
        Place::Field { base, .. } => {
            lemma_walk_place(walk, scope, base);
        },
        Place::Index { base, index, .. } => {
            lemma_walk_place(walk, scope, base);
            let v = expr_visit(scope, index, Position::Plain);
            assert(place_visits(scope, place) =~= place_visits(scope, base) + seq![v]);
            lemma_walk_all_add(walk, place_visits(scope, base), seq![v]);
            lemma_walk_all_one(walk, v);
        },
    }
}

proof fn lemma_walk_arms<'a>(walk: Walk, scope: Option<FunctionId>, arms: Seq<MatchArm>)
    ensures
        walk_all(walk, arms_visits(scope, arms)) == arm_walks(walk, scope, arms).flatten(),
{
    let lists = Seq::new(arms.len(), |i: int| arm_visits(scope, arms[i]));
    lemma_walk_all_flatten(walk, lists);
    let walks = Seq::new(lists.len(), |i: int| walk_all(walk, lists[i]));
    let target = arm_walks(walk, scope, arms);
    assert forall|i: int| 0 <= i < arms.len() implies #[trigger] walks[i] == target[i] by {
        match arms[i].body {
            ArmBody::Block(stmts) => {
                lemma_walk_stmts(walk, scope, stmts@);
            },
            ArmBody::Value(value) => {
                lemma_walk_all_one(walk, expr_visit(scope, &value, Position::Plain));
            },
            ArmBody::Ret(value) => {
                lemma_walk_all_one(walk, expr_visit(scope, &value, Position::Returned(&value)));
            },
        }
    }
    assert(walks =~= target);
}

proof fn lemma_walk_body<'a>(walk: Walk, scope: Option<FunctionId>, body: &'a Body)
    ensures
        walk_all(walk, body_visits(scope, body)) == walk_body(walk, scope, body),
{
    match body {
        Body::Block(stmts) => {
            lemma_walk_stmts(walk, scope, stmts@);
        },
        Body::Single(stmt) => {
            lemma_walk_all_one(walk, stmt_visit(scope, stmt));
        },
    }
}

proof fn lemma_expr_kids<'a>(
    walk: Walk,
    scope: Option<FunctionId>,
    expr: &'a Expr,
    position: Position<'a>,
)
    ensures
        walk_expr(walk, scope, expr, position) == seq![expr_visit(scope, expr, position)]
            + walk_all(walk, expr_kids(walk, scope, expr, position)),
{
    let kids = expr_kids(walk, scope, expr, position);
    lemma_walk_all_empty(walk);
    match expr {
        Expr::Str(parts, _, _) => {
            let lists = Seq::new(parts@.len(), |i: int| part_visits(scope, parts@[i]));
            lemma_walk_all_flatten(walk, lists);
            let walks = Seq::new(lists.len(), |i: int| walk_all(walk, lists[i]));
            let target = part_walks(walk, scope, parts@);
            assert forall|i: int| 0 <= i < parts@.len() implies #[trigger] walks[i]
                == target[i] by {
                match parts@[i] {
                    StrPart::Lit(_) => {},
                    StrPart::Hole(hole) => {
                        lemma_walk_all_one(walk, expr_visit(scope, &hole, Position::Plain));
                    },
                }
            }
            assert(walks =~= target);
        },
        Expr::Call { callee, args, target, .. } => {
            lemma_walk_args(walk, scope, args@, call_position(*target));
            if visits_callee(walk, *target) {
                let v = expr_visit(scope, callee, Position::Plain);
                lemma_walk_all_one(walk, v);
                lemma_walk_all_add(
                    walk,
                    seq![v],
                    arg_visits(scope, args@, call_position(*target)),
                );
            } else {
                lemma_walk_all_add(
                    walk,
                    Seq::empty(),
                    arg_visits(scope, args@, call_position(*target)),
                );
            }
        },
        Expr::MethodCall { recv, args, target, .. } => {
            lemma_walk_args(walk, scope, args@, method_position(*target));
            let v = expr_visit(scope, recv, Position::Plain);
            lemma_walk_all_one(walk, v);
            lemma_walk_all_add(
                walk,
                seq![v],
                arg_visits(scope, args@, method_position(*target)),
            );
        },
        Expr::ArrayLit { elems, .. } => {
            let f = |visit: Visit<'a>| walk_visit(walk, visit);
            assert(elem_visits(scope, elems@).map_values(f) =~= elem_walks(walk, scope, elems@));
        },
        Expr::FuncLit { function_id, body, .. } => {
            if walk.into_functions {
                let leave = Visit { node: Node::Leave(expr), scope };
                lemma_walk_body(walk, Some(*function_id), body);
                lemma_walk_all_one(walk, leave);
                lemma_walk_all_add(walk, body_visits(Some(*function_id), body), seq![leave]);
            }
        },
        Expr::Match { subject, arms, .. } => {
            let v = expr_visit(scope, subject, Position::Plain);
            lemma_walk_arms(walk, scope, arms@);
            lemma_walk_all_one(walk, v);
            lemma_walk_all_add(walk, seq![v], arms_visits(scope, arms@));
            lemma_walk_all_add(walk, arms_visits(scope, arms@), seq![v]);
        },
        Expr::ReadPlace { source, .. } => {
            lemma_walk_place(walk, scope, source);
        },
        Expr::Borrow { source, .. } => {
            lemma_walk_place(walk, scope, source);
        },
        Expr::Refer { source, .. } => {
            lemma_walk_place(walk, scope, source);
        },
        Expr::Move { source, .. } => {
            lemma_walk_place(walk, scope, source);
        },
        Expr::Binary { .. } | Expr::Index { .. } => {
            lemma_walk_all_one(walk, kids[0]);
            lemma_walk_all_one(walk, kids[1]);
            lemma_walk_all_add(walk, seq![kids[0]], seq![kids[1]]);
            assert(kids =~= seq![kids[0]] + seq![kids[1]]);
        },
        Expr::Ternary { .. } => {
            lemma_walk_all_one(walk, kids[0]);
            lemma_walk_all_one(walk, kids[1]);
            lemma_walk_all_one(walk, kids[2]);
            lemma_walk_all_add(walk, seq![kids[0]], seq![kids[1]]);
            lemma_walk_all_add(walk, seq![kids[0]] + seq![kids[1]], seq![kids[2]]);
            assert(kids =~= seq![kids[0]] + seq![kids[1]] + seq![kids[2]]);
        },
        Expr::Int(..)
        | Expr::Float(..)
        | Expr::Bool(..)
        | Expr::Ident(..)
        | Expr::This(..)
        | Expr::Typeof { .. } => {},
        _ => {
            lemma_walk_all_one(walk, kids[0]);
            assert(kids =~= seq![kids[0]]);
        },
    }
}

proof fn lemma_stmt_kids<'a>(walk: Walk, scope: Option<FunctionId>, stmt: &'a Stmt)
    ensures
        walk_stmt(walk, scope, stmt) == seq![stmt_visit(scope, stmt)] + walk_all(
            walk,
            stmt_kids(walk, scope, stmt),
        ),
{
    let kids = stmt_kids(walk, scope, stmt);
    lemma_walk_all_empty(walk);
    match stmt {
        Stmt::Assign { target, value, .. } => {
            let v = expr_visit(scope, value, Position::Assigned(target));
            lemma_walk_place(walk, scope, target);
            lemma_walk_all_one(walk, v);
            lemma_walk_all_add(walk, seq![v], place_visits(scope, target));
            lemma_walk_all_add(walk, place_visits(scope, target), seq![v]);
        },
        Stmt::If { branches, else_body } => {
            let lists = Seq::new(
                branches@.len(),
                |i: int| branch_visits(scope, branches@[i]),
            );
            lemma_walk_all_flatten(walk, lists);
            let walks = Seq::new(lists.len(), |i: int| walk_all(walk, lists[i]));
            let target = branch_walks(walk, scope, branches@);
            assert forall|i: int| 0 <= i < branches@.len() implies #[trigger] walks[i]
                == target[i] by {
                let v = expr_visit(scope, &branches@[i].0, Position::Plain);
                lemma_walk_all_one(walk, v);
                lemma_walk_stmts(walk, scope, branches@[i].1@);
                lemma_walk_all_add(walk, seq![v], stmt_visits(scope, branches@[i].1@));
            }
            assert(walks =~= target);
            match else_body {
                Some(body) => {
                    lemma_walk_stmts(walk, scope, body@);
                    lemma_walk_all_add(walk, lists.flatten(), stmt_visits(scope, body@));
                },
                None => {
                    lemma_walk_all_add(walk, lists.flatten(), Seq::empty());
                },
            }
        },
        Stmt::While { cond, body } => {
            let v = expr_visit(scope, cond, Position::Plain);
            lemma_walk_all_one(walk, v);
            lemma_walk_stmts(walk, scope, body@);
            lemma_walk_all_add(walk, seq![v], stmt_visits(scope, body@));
        },
        Stmt::For { iterable, body, .. } => {
            let v = expr_visit(scope, iterable, Position::Plain);
            lemma_walk_all_one(walk, v);
            lemma_walk_stmts(walk, scope, body@);
            lemma_walk_all_add(walk, seq![v], stmt_visits(scope, body@));
        },
        Stmt::Return { value } => {
            if value is Some {
                lemma_walk_all_one(walk, kids[0]);
                assert(kids =~= seq![kids[0]]);
            }
        },
        Stmt::Break | Stmt::Continue => {},
        _ => {
            lemma_walk_all_one(walk, kids[0]);
            assert(kids =~= seq![kids[0]]);
        },
    }
}

/// The walk of a node is the node and then the walks of its children.
pub proof fn lemma_visit_kids<'a>(walk: Walk, visit: Visit<'a>)
    ensures
        walk_visit(walk, visit) == seq![visit] + walk_all(walk, visit_kids(walk, visit)),
{
    lemma_walk_all_empty(walk);
    match visit.node {
        Node::Item(item) => {
            match item {
                Item::Binding(binding) => {
                    lemma_walk_all_one(
                        walk,
                        expr_visit(None, &binding.value, Position::Initial(binding)),
                    );
                    assert(walk_item(walk, item).drop_first() =~= walk_expr(
                        walk,
                        None,
                        &binding.value,
                        Position::Initial(binding),
                    ));
                },
                Item::StructDef(def) => {
                    let lists = Seq::new(
                        def.fields@.len(),
                        |i: int| field_visits(def.fields@[i]),
                    );
                    lemma_walk_all_flatten(walk, lists);
                    let walks = Seq::new(lists.len(), |i: int| walk_all(walk, lists[i]));
                    let target = Seq::new(
                        def.fields@.len(),
                        |i: int|
                            match def.fields@[i].default {
                                Some(default) => walk_expr(
                                    walk,
                                    None,
                                    &default,
                                    Position::Stored,
                                ),
                                None => Seq::empty(),
                            },
                    );
                    assert forall|i: int| 0 <= i < def.fields@.len() implies #[trigger] walks[i]
                        == target[i] by {
                        match def.fields@[i].default {
                            Some(default) => {
                                lemma_walk_all_one(
                                    walk,
                                    expr_visit(None, &default, Position::Stored),
                                );
                            },
                            None => {},
                        }
                    }
                    assert(walks =~= target);
                    assert(walk_item(walk, item).drop_first() =~= target.flatten());
                },
            }
        },
        Node::Stmt(stmt) => {
            lemma_stmt_kids(walk, visit.scope, stmt);
        },
        Node::Expr(expr, position) => {
            lemma_expr_kids(walk, visit.scope, expr, position);
        },
        Node::Leave(_) => {},
    }
}

fn push_expr<'a>(
    out: &mut Vec<Visit<'a>>,
    scope: Option<FunctionId>,
    expr: &'a Expr,
    position: Position<'a>,
)
    ensures
        final(out)@ == old(out)@.push(expr_visit(scope, expr, position)),
{
    out.push(Visit { node: Node::Expr(expr, position), scope });
}

fn push_stmts<'a>(out: &mut Vec<Visit<'a>>, scope: Option<FunctionId>, stmts: &'a Vec<Stmt>)
    ensures
        final(out)@ == old(out)@ + stmt_visits(scope, stmts@),
{
    let mut i: usize = 0;
    while i < stmts.len()
        invariant
            i <= stmts.len(),
            out@ == old(out)@ + stmt_visits(scope, stmts@).subrange(0, i as int),
        decreases stmts.len() - i,
    {
        out.push(Visit { node: Node::Stmt(&stmts[i]), scope });
        i += 1;
        assert(stmt_visits(scope, stmts@).subrange(0, i as int) =~= stmt_visits(
            scope,
            stmts@,
        ).subrange(0, i - 1).push(stmt_visit(scope, &stmts@[i - 1])));
    }
    assert(stmt_visits(scope, stmts@).subrange(0, i as int) =~= stmt_visits(scope, stmts@));
}

pub fn push_body<'a>(out: &mut Vec<Visit<'a>>, scope: Option<FunctionId>, body: &'a Body)
    ensures
        final(out)@ == old(out)@ + body_visits(scope, body),
{
    match body {
        Body::Block(stmts) => push_stmts(out, scope, stmts),
        Body::Single(stmt) => {
            out.push(Visit { node: Node::Stmt(stmt), scope });
        },
    }
}

fn push_args<'a>(
    out: &mut Vec<Visit<'a>>,
    scope: Option<FunctionId>,
    args: &'a Vec<CallArg>,
    position: Position<'a>,
)
    ensures
        final(out)@ == old(out)@ + arg_visits(scope, args@, position),
{
    let mut i: usize = 0;
    while i < args.len()
        invariant
            i <= args.len(),
            out@ == old(out)@ + arg_visits(scope, args@, position).subrange(0, i as int),
        decreases args.len() - i,
    {
        push_expr(out, scope, &args[i].value, position);
        i += 1;
        assert(arg_visits(scope, args@, position).subrange(0, i as int) =~= arg_visits(
            scope,
            args@,
            position,
        ).subrange(0, i - 1).push(expr_visit(scope, &args@[i - 1].value, position)));
    }
    assert(arg_visits(scope, args@, position).subrange(0, i as int) =~= arg_visits(
        scope,
        args@,
        position,
    ));
}

fn push_elems<'a>(out: &mut Vec<Visit<'a>>, scope: Option<FunctionId>, elems: &'a Vec<Expr>)
    ensures
        final(out)@ == old(out)@ + elem_visits(scope, elems@),
{
    let mut i: usize = 0;
    while i < elems.len()
        invariant
            i <= elems.len(),
            out@ == old(out)@ + elem_visits(scope, elems@).subrange(0, i as int),
        decreases elems.len() - i,
    {
        push_expr(out, scope, &elems[i], Position::Stored);
        i += 1;
        assert(elem_visits(scope, elems@).subrange(0, i as int) =~= elem_visits(
            scope,
            elems@,
        ).subrange(0, i - 1).push(expr_visit(scope, &elems@[i - 1], Position::Stored)));
    }
    assert(elem_visits(scope, elems@).subrange(0, i as int) =~= elem_visits(scope, elems@));
}

/// One more list at the end of a flattened list of lists.
proof fn lemma_flatten_prefix<T>(lists: Seq<Seq<T>>, i: int)
    requires
        0 <= i < lists.len(),
    ensures
        lists.subrange(0, i + 1).flatten() == lists.subrange(0, i).flatten() + lists[i],
{
    assert(lists.subrange(0, i + 1) =~= lists.subrange(0, i) + seq![lists[i]]);
    lemma_flatten_add(lists.subrange(0, i), seq![lists[i]]);
    lemma_flatten_one(lists[i]);
}

fn push_parts<'a>(out: &mut Vec<Visit<'a>>, scope: Option<FunctionId>, parts: &'a Vec<StrPart>)
    ensures
        final(out)@ == old(out)@ + Seq::new(
            parts@.len(),
            |i: int| part_visits(scope, parts@[i]),
        ).flatten(),
{
    let ghost lists = Seq::new(parts@.len(), |i: int| part_visits(scope, parts@[i]));
    let mut i: usize = 0;
    assert(lists.subrange(0, 0).flatten() =~= Seq::<Visit<'a>>::empty());
    while i < parts.len()
        invariant
            i <= parts.len(),
            lists == Seq::new(parts@.len(), |i: int| part_visits(scope, parts@[i])),
            out@ == old(out)@ + lists.subrange(0, i as int).flatten(),
        decreases parts.len() - i,
    {
        proof {
            lemma_flatten_prefix(lists, i as int);
        }
        match &parts[i] {
            StrPart::Lit(_) => {},
            StrPart::Hole(hole) => push_expr(out, scope, hole, Position::Plain),
        }
        i += 1;
    }
    assert(lists.subrange(0, i as int) =~= lists);
}

fn push_arms<'a>(out: &mut Vec<Visit<'a>>, scope: Option<FunctionId>, arms: &'a Vec<MatchArm>)
    ensures
        final(out)@ == old(out)@ + arms_visits(scope, arms@),
{
    let ghost lists = Seq::new(arms@.len(), |i: int| arm_visits(scope, arms@[i]));
    let mut i: usize = 0;
    assert(lists.subrange(0, 0).flatten() =~= Seq::<Visit<'a>>::empty());
    while i < arms.len()
        invariant
            i <= arms.len(),
            lists == Seq::new(arms@.len(), |i: int| arm_visits(scope, arms@[i])),
            out@ == old(out)@ + lists.subrange(0, i as int).flatten(),
        decreases arms.len() - i,
    {
        proof {
            lemma_flatten_prefix(lists, i as int);
        }
        match &arms[i].body {
            ArmBody::Block(stmts) => push_stmts(out, scope, stmts),
            ArmBody::Value(value) => push_expr(out, scope, value, Position::Plain),
            ArmBody::Ret(value) => push_expr(out, scope, value, Position::Returned(value)),
        }
        i += 1;
    }
    assert(lists.subrange(0, i as int) =~= lists);
}

fn push_branches<'a>(
    out: &mut Vec<Visit<'a>>,
    scope: Option<FunctionId>,
    branches: &'a Vec<(Expr, Vec<Stmt>)>,
)
    ensures
        final(out)@ == old(out)@ + Seq::new(
            branches@.len(),
            |i: int| branch_visits(scope, branches@[i]),
        ).flatten(),
{
    let ghost lists = Seq::new(branches@.len(), |i: int| branch_visits(scope, branches@[i]));
    let mut i: usize = 0;
    assert(lists.subrange(0, 0).flatten() =~= Seq::<Visit<'a>>::empty());
    while i < branches.len()
        invariant
            i <= branches.len(),
            lists == Seq::new(branches@.len(), |i: int| branch_visits(scope, branches@[i])),
            out@ == old(out)@ + lists.subrange(0, i as int).flatten(),
        decreases branches.len() - i,
    {
        proof {
            lemma_flatten_prefix(lists, i as int);
        }
        push_expr(out, scope, &branches[i].0, Position::Plain);
        push_stmts(out, scope, &branches[i].1);
        i += 1;
    }
    assert(lists.subrange(0, i as int) =~= lists);
}

fn push_fields<'a>(out: &mut Vec<Visit<'a>>, fields: &'a Vec<StructField>)
    ensures
        final(out)@ == old(out)@ + Seq::new(
            fields@.len(),
            |i: int| field_visits(fields@[i]),
        ).flatten(),
{
    let ghost lists = Seq::new(fields@.len(), |i: int| field_visits(fields@[i]));
    let mut i: usize = 0;
    assert(lists.subrange(0, 0).flatten() =~= Seq::<Visit<'a>>::empty());
    while i < fields.len()
        invariant
            i <= fields.len(),
            lists == Seq::new(fields@.len(), |i: int| field_visits(fields@[i])),
            out@ == old(out)@ + lists.subrange(0, i as int).flatten(),
        decreases fields.len() - i,
    {
        proof {
            lemma_flatten_prefix(lists, i as int);
        }
        match &fields[i].default {
            Some(default) => push_expr(out, None, default, Position::Stored),
            None => {},
        }
        i += 1;
    }
    assert(lists.subrange(0, i as int) =~= lists);
}

/// The index expressions of a place, from its root outwards.
fn push_place<'a>(out: &mut Vec<Visit<'a>>, scope: Option<FunctionId>, place: &'a Place)
    ensures
        final(out)@ == old(out)@ + place_visits(scope, place),
{
    let mut indices: Vec<&'a Expr> = Vec::new();
    let mut current: &'a Place = place;
    loop
        invariant_except_break
            place_visits(scope, place) == place_visits(scope, current) + Seq::new(
                indices@.len(),
                |i: int| expr_visit(scope, indices@[indices@.len() - 1 - i], Position::Plain),
            ),
        invariant
            out@ == old(out)@,
        ensures
            place_visits(scope, place) == Seq::new(
                indices@.len(),
                |i: int| expr_visit(scope, indices@[indices@.len() - 1 - i], Position::Plain),
            ),
        decreases current,
    {
        match current {
            Place::Local { .. } => {
                assert(place_visits(scope, place) =~= Seq::new(
                    indices@.len(),
                    |i: int| expr_visit(scope, indices@[indices@.len() - 1 - i], Position::Plain),
                ));
                break;
            },
            Place::Field { base, .. } => {
                current = base;
            },
            Place::Index { base, index, .. } => {
                indices.push(index);
                assert(place_visits(scope, place) =~= place_visits(scope, &**base) + Seq::new(
                    indices@.len(),
                    |i: int| expr_visit(scope, indices@[indices@.len() - 1 - i], Position::Plain),
                ));
                current = base;
            },
        }
    }
    let ghost all = place_visits(scope, place);
    let mut left: usize = indices.len();
    while left > 0
        invariant
            left <= indices.len(),
            all == Seq::new(
                indices@.len(),
                |i: int| expr_visit(scope, indices@[indices@.len() - 1 - i], Position::Plain),
            ),
            out@ == old(out)@ + all.subrange(0, indices@.len() - left),
        decreases left,
    {
        left -= 1;
        push_expr(out, scope, indices[left], Position::Plain);
        assert(all.subrange(0, indices@.len() - left) =~= all.subrange(
            0,
            indices@.len() - left - 1,
        ).push(all[indices@.len() - left - 1]));
    }
    assert(all.subrange(0, indices@.len() as int) =~= all);
}

fn push_expr_kids<'a>(
    out: &mut Vec<Visit<'a>>,
    walk: Walk,
    scope: Option<FunctionId>,
    expr: &'a Expr,
    position: Position<'a>,
)
    ensures
        final(out)@ == old(out)@ + expr_kids(walk, scope, expr, position),
{
    match expr {
        Expr::Str(parts, _, _) => push_parts(out, scope, parts),
        Expr::Cast { expr: inner, .. } => push_expr(out, scope, inner, Position::Plain),
        Expr::Convert { expr: inner, mode, .. } => {
            let inner_at = match mode {
                ResolvedConversion::Identity => match position {
                    Position::Stored => Position::Plain,
                    _ => position,
                },
                ResolvedConversion::Convert => Position::Plain,
            };
            push_expr(out, scope, inner, inner_at);
        },
        Expr::Neg { expr: inner, .. } => push_expr(out, scope, inner, Position::Plain),
        Expr::Not { expr: inner, .. } => push_expr(out, scope, inner, Position::Plain),
        Expr::BitNot { expr: inner, .. } => push_expr(out, scope, inner, Position::Plain),
        Expr::Propagate { expr: inner, .. } => push_expr(out, scope, inner, Position::Plain),
        Expr::Binary { lhs, rhs, .. } => {
            push_expr(out, scope, lhs, Position::Plain);
            push_expr(out, scope, rhs, Position::Plain);
        },
        Expr::Ternary { cond, then_expr, else_expr, .. } => {
            push_expr(out, scope, cond, Position::Plain);
            push_expr(out, scope, then_expr, Position::Plain);
            push_expr(out, scope, else_expr, Position::Plain);
        },
        Expr::Call { callee, args, target, .. } => {
            if walk.every_callee || matches!(target, CallTarget::FunctionValue) {
                push_expr(out, scope, callee, Position::Plain);
            }
            let args_at = if constructor_target(target) {
                Position::Stored
            } else {
                Position::Plain
            };
            push_args(out, scope, args, args_at);
        },
        Expr::MethodCall { recv, args, target, .. } => {
            push_expr(out, scope, recv, Position::Plain);
            let args_at = if matches!(target, MethodTarget::ArrayPush) {
                Position::Stored
            } else {
                Position::Plain
            };
            push_args(out, scope, args, args_at);
        },
        Expr::Field { recv, .. } => push_expr(out, scope, recv, Position::Plain),
        Expr::Index { recv, idx, .. } => {
            push_expr(out, scope, recv, Position::Plain);
            push_expr(out, scope, idx, Position::Plain);
        },
        Expr::ArrayLit { elems, .. } => push_elems(out, scope, elems),
        Expr::FuncLit { function_id, body, .. } => {
            if walk.into_functions {
                push_body(out, Some(*function_id), body);
                out.push(Visit { node: Node::Leave(expr), scope });
            }
        },
        Expr::Match { subject, arms, .. } => {
            if walk.subject_last {
                push_arms(out, scope, arms);
                push_expr(out, scope, subject, Position::Plain);
            } else {
                push_expr(out, scope, subject, Position::Plain);
                push_arms(out, scope, arms);
            }
        },
        Expr::ReadPlace { source, .. } => push_place(out, scope, source),
        Expr::Borrow { source, .. } => push_place(out, scope, source),
        Expr::Refer { source, .. } => push_place(out, scope, source),
        Expr::Move { source, .. } => push_place(out, scope, source),
        Expr::Int(..)
        | Expr::Float(..)
        | Expr::Bool(..)
        | Expr::Ident(..)
        | Expr::This(..)
        | Expr::Typeof { .. } => {},
    }
    assert(out@ =~= old(out)@ + expr_kids(walk, scope, expr, position));
}

fn push_stmt_kids<'a>(
    out: &mut Vec<Visit<'a>>,
    walk: Walk,
    scope: Option<FunctionId>,
    stmt: &'a Stmt,
)
    ensures
        final(out)@ == old(out)@ + stmt_kids(walk, scope, stmt),
{
    match stmt {
        Stmt::Binding(binding) => {
            push_expr(out, scope, &binding.value, Position::Initial(binding));
        },
        Stmt::Assign { target, value, .. } => {
            if walk.value_first {
                push_expr(out, scope, value, Position::Assigned(target));
                push_place(out, scope, target);
            } else {
                push_place(out, scope, target);
                push_expr(out, scope, value, Position::Assigned(target));
            }
        },
        Stmt::Expr { expr } => push_expr(out, scope, expr, Position::Plain),
        Stmt::Return { value } => match value {
            Some(value) => push_expr(out, scope, value, Position::Returned(value)),
            None => {},
        },
        Stmt::If { branches, else_body } => {
            push_branches(out, scope, branches);
            match else_body {
                Some(body) => push_stmts(out, scope, body),
                None => {},
            }
        },
        Stmt::While { cond, body } => {
            push_expr(out, scope, cond, Position::Plain);
            push_stmts(out, scope, body);
        },
        Stmt::For { iterable, body, .. } => {
            push_expr(out, scope, iterable, Position::Plain);
            push_stmts(out, scope, body);
        },
        Stmt::Break | Stmt::Continue => {},
    }
    assert(out@ =~= old(out)@ + stmt_kids(walk, scope, stmt));
}

/// The children of a node, in the order of the walk.
pub fn kids<'a>(walk: Walk, visit: Visit<'a>) -> (r: Vec<Visit<'a>>)
    ensures
        r@ == visit_kids(walk, visit),
{
    let mut out: Vec<Visit<'a>> = Vec::new();
    match visit.node {
        Node::Item(item) => match item {
            Item::Binding(binding) => {
                push_expr(&mut out, None, &binding.value, Position::Initial(binding));
            },
            Item::StructDef(def) => push_fields(&mut out, &def.fields),
        },
        Node::Stmt(stmt) => push_stmt_kids(&mut out, walk, visit.scope, stmt),
        Node::Expr(expr, position) => push_expr_kids(
            &mut out,
            walk,
            visit.scope,
            expr,
            position,
        ),
        Node::Leave(_) => {},
    }
    assert(out@ =~= visit_kids(walk, visit));
    out
}

/// Lists everything below the given nodes, in the order of the walk.
pub fn walk_from<'a>(walk: Walk, roots: Vec<Visit<'a>>) -> (r: Vec<Visit<'a>>)
    ensures
        r@ == walk_all(walk, roots@),
{
    let ghost goal = walk_all(walk, roots@);
    let mut stack: Vec<Visit<'a>> = Vec::new();
    let mut left: usize = roots.len();
    while left > 0
        invariant
            left <= roots.len(),
            stack@.reverse() == roots@.subrange(left as int, roots@.len() as int),
        decreases left,
    {
        left -= 1;
        stack.push(roots[left]);
        assert(stack@.reverse() =~= seq![roots@[left as int]] + roots@.subrange(
            left + 1,
            roots@.len() as int,
        ));
        assert(stack@.reverse() =~= roots@.subrange(left as int, roots@.len() as int));
    }
    assert(stack@.reverse() =~= roots@);
    let mut out: Vec<Visit<'a>> = Vec::new();
    assert(out@ + walk_all(walk, stack@.reverse()) =~= goal);
    loop
        invariant_except_break
            out@ + walk_all(walk, stack@.reverse()) == goal,
        ensures
            out@ == goal,
        decreases walk_all(walk, stack@.reverse()).len(),
    {
        let ghost before = stack@;
        match stack.pop() {
            None => {
                proof {
                    assert(stack@.reverse() =~= Seq::<Visit<'a>>::empty());
                    lemma_walk_all_empty(walk);
                    assert(out@ =~= goal);
                }
                break;
            },
            Some(visit) => {
                let ghost rest = stack@;
                let list = kids(walk, visit);
                proof {
                    assert(before.reverse() =~= seq![visit] + rest.reverse());
                    lemma_walk_all_add(walk, seq![visit], rest.reverse());
                    lemma_walk_all_one(walk, visit);
                    lemma_visit_kids(walk, visit);
                }
                let ghost seen = out@;
                out.push(visit);
                let mut left: usize = list.len();
                while left > 0
                    invariant
                        left <= list.len(),
                        stack@.reverse() == list@.subrange(left as int, list@.len() as int)
                            + rest.reverse(),
                    decreases left,
                {
                    left -= 1;
                    stack.push(list[left]);
                    assert(stack@.reverse() =~= seq![list@[left as int]] + (list@.subrange(
                        left + 1,
                        list@.len() as int,
                    ) + rest.reverse()));
                    assert(stack@.reverse() =~= list@.subrange(left as int, list@.len() as int)
                        + rest.reverse());
                }
                proof {
                    assert(stack@.reverse() =~= list@ + rest.reverse());
                    lemma_walk_all_add(walk, list@, rest.reverse());
                    assert(walk_all(walk, before.reverse()) =~= seq![visit] + walk_all(
                        walk,
                        stack@.reverse(),
                    ));
                    assert(out@ + walk_all(walk, stack@.reverse()) =~= seen + walk_all(
                        walk,
                        before.reverse(),
                    ));
                }
            },
        }
    }
    out
}

/// Lists every node of a program, in the order of the walk.
pub fn program_nodes<'a>(walk: Walk, program: &'a CheckedProgram) -> (r: Vec<Visit<'a>>)
    ensures
        r@ == program_walk(walk, program),
{
    let mut roots: Vec<Visit<'a>> = Vec::new();
    let mut i: usize = 0;
    while i < program.items.len()
        invariant
            i <= program.items.len(),
            roots@ == Seq::new(
                i as nat,
                |k: int| Visit { node: Node::Item(&program.items@[k]), scope: None },
            ),
        decreases program.items.len() - i,
    {
        roots.push(Visit { node: Node::Item(&program.items[i]), scope: None });
        i += 1;
        assert(roots@ =~= Seq::new(
            i as nat,
            |k: int| Visit { node: Node::Item(&program.items@[k]), scope: None },
        ));
    }
    proof {
        assert(roots@ =~= item_visits(program));
        lemma_program_walk(walk, program);
    }
    walk_from(walk, roots)
}

/// Lists a node and everything below it, in the order of the walk.
pub fn visit_nodes<'a>(walk: Walk, visit: Visit<'a>) -> (r: Vec<Visit<'a>>)
    ensures
        r@ == walk_visit(walk, visit),
{
    let mut roots: Vec<Visit<'a>> = Vec::new();
    roots.push(visit);
    proof {
        assert(roots@ =~= seq![visit]);
        lemma_walk_all_one(walk, visit);
    }
    walk_from(walk, roots)
}

/// Lists an expression and everything below it, in the order of the walk.
pub fn expr_nodes<'a>(
    walk: Walk,
    scope: Option<FunctionId>,
    expr: &'a Expr,
) -> (r: Vec<Visit<'a>>)
    ensures
        r@ == walk_expr(walk, scope, expr, Position::Plain),
{
    let mut roots: Vec<Visit<'a>> = Vec::new();
    push_expr(&mut roots, scope, expr, Position::Plain);
    proof {
        let v = expr_visit(scope, expr, Position::Plain);
        assert(roots@ =~= seq![v]);
        lemma_walk_all_one(walk, v);
    }
    walk_from(walk, roots)
}

/// Lists everything in the body of a function, in the order of the walk.
pub fn body_nodes<'a>(
    walk: Walk,
    scope: Option<FunctionId>,
    body: &'a Body,
) -> (r: Vec<Visit<'a>>)
    ensures
        r@ == walk_body(walk, scope, body),
{
    let mut roots: Vec<Visit<'a>> = Vec::new();
    push_body(&mut roots, scope, body);
    proof {
        assert(roots@ =~= body_visits(scope, body));
        lemma_walk_body(walk, scope, body);
    }
    walk_from(walk, roots)
}

pub open spec fn item_visits<'a>(program: &'a CheckedProgram) -> Seq<Visit<'a>> {
    Seq::new(
        program.items@.len(),
        |k: int| Visit { node: Node::Item(&program.items@[k]), scope: None },
    )
}

/// The walk over a program is the walk over its items.
pub proof fn lemma_program_walk<'a>(walk: Walk, program: &'a CheckedProgram)
    ensures
        program_walk(walk, program) == walk_all(walk, item_visits(program)),
{
    let f = |visit: Visit<'a>| walk_visit(walk, visit);
    let roots = item_visits(program);
    let target = Seq::new(program.items@.len(), |k: int| walk_item(walk, &program.items@[k]));
    assert forall|k: int| 0 <= k < target.len() implies #[trigger] target[k]
        == roots.map_values(f)[k] by {
        let item = &program.items@[k];
        assert(walk_item(walk, item) =~= seq![roots[k]] + walk_item(walk, item).drop_first());
    }
    assert(roots.map_values(f) =~= target);
}

/// In a walk the first child of a node comes right after the node.
pub proof fn law_first_child_follows<'a>(walk: Walk, roots: Seq<Visit<'a>>, i: int)
    requires
        0 <= i < walk_all(walk, roots).len(),
        visit_kids(walk, walk_all(walk, roots)[i]).len() > 0,
    ensures
        i + 1 < walk_all(walk, roots).len(),
        walk_all(walk, roots)[i + 1] == visit_kids(walk, walk_all(walk, roots)[i])[0],
    decreases walk_all(walk, roots).len(),
{
    let nodes = walk_all(walk, roots);
    if roots.len() == 0 {
        lemma_walk_all_empty(walk);
        assert(roots =~= Seq::<Visit<'a>>::empty());
    } else {
        let v = roots[0];
        let rest = roots.drop_first();
        let below = visit_kids(walk, v);
        assert(roots =~= seq![v] + rest);
        lemma_walk_all_add(walk, seq![v], rest);
        lemma_walk_all_one(walk, v);
        lemma_visit_kids(walk, v);
        let first = walk_all(walk, below);
        let second = walk_all(walk, rest);
        assert(nodes =~= seq![v] + first + second);
        if i == 0 {
            let w = below[0];
            assert(below =~= seq![w] + below.drop_first());
            lemma_walk_all_add(walk, seq![w], below.drop_first());
            lemma_walk_all_one(walk, w);
            lemma_visit_kids(walk, w);
            assert(first[0] == w);
        } else if i < 1 + first.len() {
            assert(nodes[i] == first[i - 1]);
            law_first_child_follows(walk, below, i - 1);
        } else {
            assert(nodes[i] == second[i - 1 - first.len()]);
            law_first_child_follows(walk, rest, i - 1 - first.len());
        }
    }
}

} // verus!
