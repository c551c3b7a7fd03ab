//! A walk over a program misses nothing.

use crate::model::{ArmBody, Body, CheckedProgram, Expr, Item, MatchArm, Place, Stmt, StrPart};
use crate::types::FunctionId;
use crate::visit::{
    Node, Visit, Walk, arm_visits, arms_visits, body_visits, branch_visits, field_visits,
    item_visits, lemma_program_walk, lemma_visit_kids, lemma_walk_all_add, lemma_walk_all_empty,
    lemma_walk_all_one, part_visits, place_visits, program_walk, stmt_visits, visit_kids, walk_all,
};
use vstd::prelude::*;

verus! {

/// A list of visits has one of an expression.
pub open spec fn meets<'a>(nodes: Seq<Visit<'a>>, e: Expr) -> bool {
    exists|k: int|
        0 <= k < nodes.len() && match (#[trigger] nodes[k]).node {
            Node::Expr(found, _) => *found == e,
            _ => false,
        }
}

/// A list of visits has one of a statement.
pub open spec fn meets_stmt<'a>(nodes: Seq<Visit<'a>>, s: Stmt) -> bool {
    exists|k: int|
        0 <= k < nodes.len() && match (#[trigger] nodes[k]).node {
            Node::Stmt(found) => *found == s,
            _ => false,
        }
}

/// An expression is an index of a place.
pub open spec fn indexes(place: Place, e: Expr) -> bool
    decreases place,
{
    match place {
        Place::Local { .. } => false,
        Place::Field { base, .. } => indexes(*base, e),
        Place::Index { base, index, .. } => *index == e || indexes(*base, e),
    }
}

/// An expression is the value of an arm.
pub open spec fn arm_gives(arm: MatchArm, e: Expr) -> bool {
    match arm.body {
        ArmBody::Value(value) => *value == e,
        ArmBody::Ret(value) => *value == e,
        ArmBody::Block(_) => false,
    }
}

/// A statement is one of a list.
pub open spec fn has_stmt(stmts: Seq<Stmt>, s: Stmt) -> bool {
    exists|i: int| 0 <= i < stmts.len() && #[trigger] stmts[i] == s
}

/// An expression stands directly inside a node. With `every_callee` off, the name of a constructor
/// or of a built-in function does not count.
pub open spec fn holds_expr<'a>(walk: Walk, visit: Visit<'a>, e: Expr) -> bool {
    match visit.node {
        Node::Item(item) => match *item {
            Item::Binding(binding) => binding.value == e,
            Item::StructDef(def) => exists|i: int|
                0 <= i < def.fields@.len() && (#[trigger] def.fields@[i]).default == Some(e),
        },
        Node::Stmt(stmt) => match *stmt {
            Stmt::Binding(binding) => binding.value == e,
            Stmt::Assign { target, value, .. } => value == e || indexes(target, e),
            Stmt::Expr { expr } => expr == e,
            Stmt::Return { value } => value == Some(e),
            Stmt::If { branches, .. } => exists|i: int|
                0 <= i < branches@.len() && (#[trigger] branches@[i]).0 == e,
            Stmt::While { cond, .. } => cond == e,
            Stmt::For { iterable, .. } => iterable == e,
            _ => false,
        },
        Node::Expr(expr, _) => match *expr {
            Expr::Str(parts, _, _) => exists|i: int|
                0 <= i < parts@.len() && match #[trigger] parts@[i] {
                    StrPart::Hole(hole) => *hole == e,
                    StrPart::Lit(_) => false,
                },
            Expr::Cast { expr: inner, .. } => *inner == e,
            Expr::Convert { expr: inner, .. } => *inner == e,
            Expr::Neg { expr: inner, .. } => *inner == e,
            Expr::Not { expr: inner, .. } => *inner == e,
            Expr::BitNot { expr: inner, .. } => *inner == e,
            Expr::Propagate { expr: inner, .. } => *inner == e,
            Expr::Binary { lhs, rhs, .. } => *lhs == e || *rhs == e,
            Expr::Ternary { cond, then_expr, else_expr, .. } => *cond == e || *then_expr == e
                || *else_expr == e,
            Expr::Call { callee, args, target, .. } => {
                ||| *callee == e && (walk.every_callee || target is FunctionValue)
                ||| exists|i: int| 0 <= i < args@.len() && (#[trigger] args@[i]).value == e
            },
            Expr::MethodCall { recv, args, .. } => {
                ||| *recv == e
                ||| exists|i: int| 0 <= i < args@.len() && (#[trigger] args@[i]).value == e
            },
            Expr::Field { recv, .. } => *recv == e,
            Expr::Index { recv, idx, .. } => *recv == e || *idx == e,
            Expr::ArrayLit { elems, .. } => exists|i: int|
                0 <= i < elems@.len() && #[trigger] elems@[i] == e,
            Expr::Match { subject, arms, .. } => {
                ||| *subject == e
                ||| exists|i: int| 0 <= i < arms@.len() && arm_gives(#[trigger] arms@[i], e)
            },
            Expr::ReadPlace { source, .. } => indexes(*source, e),
            Expr::Borrow { source, .. } => indexes(*source, e),
            Expr::Refer { source, .. } => indexes(*source, e),
            Expr::Move { source, .. } => indexes(*source, e),
            _ => false,
        },
        Node::Leave(_) => false,
    }
}

/// A statement stands directly inside a node.
pub open spec fn holds_stmt<'a>(walk: Walk, visit: Visit<'a>, s: Stmt) -> bool {
    match visit.node {
        Node::Stmt(stmt) => match *stmt {
            Stmt::If { branches, else_body } => {
                ||| exists|i: int|
                    0 <= i < branches@.len() && has_stmt((#[trigger] branches@[i]).1@, s)
                ||| else_body matches Some(body) && has_stmt(body@, s)
            },
            Stmt::While { body, .. } => has_stmt(body@, s),
            Stmt::For { body, .. } => has_stmt(body@, s),
            _ => false,
        },
        Node::Expr(expr, _) => match *expr {
            Expr::FuncLit { body, .. } => walk.into_functions && match *body {
                Body::Block(stmts) => has_stmt(stmts@, s),
                Body::Single(stmt) => *stmt == s,
            },
            Expr::Match { arms, .. } => exists|i: int|
                0 <= i < arms@.len() && match (#[trigger] arms@[i]).body {
                    ArmBody::Block(stmts) => has_stmt(stmts@, s),
                    _ => false,
                },
            _ => false,
        },
        _ => false,
    }
}

pub proof fn lemma_flattened<T>(lists: Seq<Seq<T>>, i: int, j: int) -> (k: int)
    requires
        0 <= i < lists.len(),
        0 <= j < lists[i].len(),
    ensures
        0 <= k < lists.flatten().len(),
        lists.flatten()[k] == lists[i][j],
    decreases lists.len(),
{
    let rest = lists.drop_first();
    assert(lists.flatten() =~= lists.first() + rest.flatten());
    if i == 0 {
        j
    } else {
        let k = lemma_flattened(rest, i - 1, j);
        lists.first().len() + k
    }
}

proof fn lemma_place_met<'a>(scope: Option<FunctionId>, place: &'a Place, e: Expr)
    requires
        indexes(*place, e),
    ensures
        meets(place_visits(scope, place), e),
    decreases place,
{
    match *place {
        Place::Local { .. } => {},
        Place::Field { base, .. } => lemma_place_met(scope, &*base, e),
        Place::Index { base, index, .. } => {
            let list = place_visits(scope, place);
            let before = place_visits(scope, &*base);
            if *index == e {
                let own = list[list.len() - 1];
                assert(own.node matches Node::Expr(found, _) && *found == e);
            } else {
                lemma_place_met(scope, &*base, e);
                let k = choose|k: int|
                    0 <= k < before.len() && match (#[trigger] before[k]).node {
                        Node::Expr(found, _) => *found == e,
                        _ => false,
                    };
                assert(list[k] == before[k]);
            }
        },
    }
}

/// What is met in a part of a list is met in the list.
proof fn lemma_met_in<'a>(part: Seq<Visit<'a>>, list: Seq<Visit<'a>>, at: int)
    requires
        0 <= at,
        at + part.len() <= list.len(),
        forall|k: int| 0 <= k < part.len() ==> #[trigger] part[k] == list[at + k],
    ensures
        forall|e: Expr| #[trigger] meets(part, e) ==> meets(list, e),
        forall|s: Stmt| #[trigger] meets_stmt(part, s) ==> meets_stmt(list, s),
{
    assert forall|e: Expr| #[trigger] meets(part, e) implies meets(list, e) by {
        let k = choose|k: int|
            0 <= k < part.len() && match (#[trigger] part[k]).node {
                Node::Expr(found, _) => *found == e,
                _ => false,
            };
        assert(list[at + k] == part[k]);
    }
    assert forall|s: Stmt| #[trigger] meets_stmt(part, s) implies meets_stmt(list, s) by {
        let k = choose|k: int|
            0 <= k < part.len() && match (#[trigger] part[k]).node {
                Node::Stmt(found) => *found == s,
                _ => false,
            };
        assert(list[at + k] == part[k]);
    }
}

/// What is met in one of some lists is met in all of them together.
proof fn lemma_met_among<'a>(lists: Seq<Seq<Visit<'a>>>, i: int)
    requires
        0 <= i < lists.len(),
    ensures
        forall|e: Expr| #[trigger] meets(lists[i], e) ==> meets(lists.flatten(), e),
        forall|s: Stmt| #[trigger] meets_stmt(lists[i], s) ==> meets_stmt(lists.flatten(), s),
{
    let part = lists[i];
    assert forall|e: Expr| #[trigger] meets(lists[i], e) implies meets(lists.flatten(), e) by {
        let j = choose|k: int|
            0 <= k < part.len() && match (#[trigger] part[k]).node {
                Node::Expr(found, _) => *found == e,
                _ => false,
            };
        let k = lemma_flattened(lists, i, j);
        assert(lists.flatten()[k] == part[j]);
    }
    assert forall|s: Stmt| #[trigger] meets_stmt(lists[i], s) implies meets_stmt(
        lists.flatten(),
        s,
    ) by {
        let j = choose|k: int|
            0 <= k < part.len() && match (#[trigger] part[k]).node {
                Node::Stmt(found) => *found == s,
                _ => false,
            };
        let k = lemma_flattened(lists, i, j);
        assert(lists.flatten()[k] == part[j]);
    }
}

/// A walk goes from a node to the same nodes as its children.
proof fn lemma_kids_follow<'a>(walk: Walk, roots: Seq<Visit<'a>>, i: int)
    requires
        0 <= i < walk_all(walk, roots).len(),
    ensures
        forall|k: int|
            0 <= k < visit_kids(walk, walk_all(walk, roots)[i]).len() ==> walk_all(
                walk,
                roots,
            ).contains(#[trigger] visit_kids(walk, walk_all(walk, roots)[i])[k]),
    decreases walk_all(walk, roots).len(),
{
    let nodes = walk_all(walk, roots);
    if roots.len() == 0 {
        lemma_walk_all_empty(walk);
        assert(roots =~= Seq::<Visit<'a>>::empty());
    } else {
        let v = roots[0];
        let rest = roots.drop_first();
        let below = visit_kids(walk, v);
        assert(roots =~= seq![v] + rest);
        lemma_walk_all_add(walk, seq![v], rest);
        lemma_walk_all_one(walk, v);
        lemma_visit_kids(walk, v);
        let first = walk_all(walk, below);
        let second = walk_all(walk, rest);
        assert(nodes =~= seq![v] + first + second);
        if i == 0 {
            assert forall|k: int| 0 <= k < below.len() implies nodes.contains(
                #[trigger] below[k],
            ) by {
                let j = lemma_root_listed(walk, below, k);
                assert(nodes[1 + j] == below[k]);
            }
        } else if i < 1 + first.len() {
            assert(nodes[i] == first[i - 1]);
            lemma_kids_follow(walk, below, i - 1);
            let kids = visit_kids(walk, nodes[i]);
            assert forall|k: int| 0 <= k < kids.len() implies nodes.contains(
                #[trigger] kids[k],
            ) by {
                assert(first.contains(kids[k]));
                let j = choose|j: int| 0 <= j < first.len() && first[j] == kids[k];
                assert(nodes[1 + j] == kids[k]);
            }
        } else {
            let at = i - 1 - first.len();
            assert(nodes[i] == second[at]);
            lemma_kids_follow(walk, rest, at);
            let kids = visit_kids(walk, nodes[i]);
            assert forall|k: int| 0 <= k < kids.len() implies nodes.contains(
                #[trigger] kids[k],
            ) by {
                assert(second.contains(kids[k]));
                let j = choose|j: int| 0 <= j < second.len() && second[j] == kids[k];
                assert(nodes[1 + first.len() + j] == kids[k]);
            }
        }
    }
}

/// A walk lists everything that it starts with.
proof fn lemma_root_listed<'a>(walk: Walk, roots: Seq<Visit<'a>>, k: int) -> (at: int)
    requires
        0 <= k < roots.len(),
    ensures
        0 <= at < walk_all(walk, roots).len(),
        walk_all(walk, roots)[at] == roots[k],
    decreases roots.len(),
{
    let v = roots[0];
    let rest = roots.drop_first();
    assert(roots =~= seq![v] + rest);
    lemma_walk_all_add(walk, seq![v], rest);
    lemma_walk_all_one(walk, v);
    lemma_visit_kids(walk, v);
    if k == 0 {
        0
    } else {
        let at = lemma_root_listed(walk, rest, k - 1);
        let first = walk_all(walk, seq![v]);
        assert(walk_all(walk, roots)[first.len() + at] == roots[k]);
        first.len() + at
    }
}

proof fn lemma_one<'a>(visit: Visit<'a>, list: Seq<Visit<'a>>, k: int, e: Expr)
    requires
        0 <= k < list.len(),
        list[k] == visit,
        visit.node matches Node::Expr(found, _) && *found == e,
    ensures
        meets(list, e),
{
}

proof fn lemma_stmts_met<'a>(scope: Option<FunctionId>, stmts: Seq<Stmt>, s: Stmt)
    requires
        has_stmt(stmts, s),
    ensures
        meets_stmt(stmt_visits(scope, stmts), s),
{
    let list: Seq<Visit<'a>> = stmt_visits(scope, stmts);
    let i = choose|i: int| 0 <= i < stmts.len() && #[trigger] stmts[i] == s;
    assert(list[i].node matches Node::Stmt(found) && *found == s);
}

proof fn lemma_args_met<'a>(list: Seq<Visit<'a>>, at: int, values: Seq<Expr>, e: Expr)
    requires
        0 <= at,
        at + values.len() <= list.len(),
        forall|i: int|
            0 <= i < values.len() ==> match (#[trigger] list[at + i]).node {
                Node::Expr(found, _) => *found == values[i],
                _ => false,
            },
        exists|i: int| 0 <= i < values.len() && #[trigger] values[i] == e,
    ensures
        meets(list, e),
{
    let i = choose|i: int| 0 <= i < values.len() && #[trigger] values[i] == e;
    lemma_one(list[at + i], list, at + i, e);
}

proof fn lemma_expr_held<'a>(walk: Walk, visit: Visit<'a>, e: Expr)
    requires
        visit.node is Expr,
        holds_expr(walk, visit, e),
    ensures
        meets(visit_kids(walk, visit), e),
{
    let scope = visit.scope;
    let list = visit_kids(walk, visit);
    if let Node::Expr(expr, _) = visit.node {
        match *expr {
            Expr::Str(parts, _, _) => {
                let lists = Seq::new(parts@.len(), |i: int| part_visits(scope, parts@[i]));
                let i = choose|i: int|
                    0 <= i < parts@.len() && match #[trigger] parts@[i] {
                        StrPart::Hole(hole) => *hole == e,
                        StrPart::Lit(_) => false,
                    };
                lemma_one(lists[i][0], lists[i], 0, e);
                lemma_met_among(lists, i);
            },
            Expr::Binary { lhs, .. } => {
                if *lhs == e {
                    lemma_one(list[0], list, 0, e);
                } else {
                    lemma_one(list[1], list, 1, e);
                }
            },
            Expr::Index { recv, .. } => {
                if *recv == e {
                    lemma_one(list[0], list, 0, e);
                } else {
                    lemma_one(list[1], list, 1, e);
                }
            },
            Expr::Ternary { cond, then_expr, .. } => {
                if *cond == e {
                    lemma_one(list[0], list, 0, e);
                } else if *then_expr == e {
                    lemma_one(list[1], list, 1, e);
                } else {
                    lemma_one(list[2], list, 2, e);
                }
            },
            Expr::Call { callee, args, target, .. } => {
                let first = walk.every_callee || target is FunctionValue;
                let values = Seq::new(args@.len(), |i: int| args@[i].value);
                if first && *callee == e {
                    lemma_one(list[0], list, 0, e);
                } else {
                    let i = choose|i: int| 0 <= i < args@.len() && (#[trigger] args@[i]).value == e;
                    assert(values[i] == e);
                    lemma_args_met(
                        list,
                        if first {
                            1
                        } else {
                            0
                        },
                        values,
                        e,
                    );
                }
            },
            Expr::MethodCall { recv, args, .. } => {
                let values = Seq::new(args@.len(), |i: int| args@[i].value);
                if *recv == e {
                    lemma_one(list[0], list, 0, e);
                } else {
                    let i = choose|i: int| 0 <= i < args@.len() && (#[trigger] args@[i]).value == e;
                    assert(values[i] == e);
                    lemma_args_met(list, 1, values, e);
                }
            },
            Expr::ArrayLit { elems, .. } => {
                lemma_args_met(list, 0, elems@, e);
            },
            Expr::Match { subject, arms, .. } => {
                let lists = Seq::new(arms@.len(), |i: int| arm_visits(scope, arms@[i]));
                let inner = arms_visits(scope, arms@);
                let at: int = if walk.subject_last {
                    0
                } else {
                    1
                };
                if *subject == e {
                    let k = if walk.subject_last {
                        inner.len() as int
                    } else {
                        0
                    };
                    lemma_one(list[k], list, k, e);
                } else {
                    let i = choose|i: int| 0 <= i < arms@.len() && arm_gives(
                        #[trigger] arms@[i],
                        e,
                    );
                    lemma_one(lists[i][0], lists[i], 0, e);
                    lemma_met_among(lists, i);
                    lemma_met_in(inner, list, at);
                }
            },
            Expr::ReadPlace { source, .. } => lemma_place_met(scope, &*source, e),
            Expr::Borrow { source, .. } => lemma_place_met(scope, &*source, e),
            Expr::Refer { source, .. } => lemma_place_met(scope, &*source, e),
            Expr::Move { source, .. } => lemma_place_met(scope, &*source, e),
            _ => {
                lemma_one(list[0], list, 0, e);
            },
        }
    }
}

proof fn lemma_held<'a>(walk: Walk, visit: Visit<'a>, e: Expr)
    requires
        holds_expr(walk, visit, e),
    ensures
        meets(visit_kids(walk, visit), e),
{
    let scope = visit.scope;
    let list = visit_kids(walk, visit);
    match visit.node {
        Node::Expr(_, _) => lemma_expr_held(walk, visit, e),
        Node::Item(item) => match *item {
            Item::Binding(_) => lemma_one(list[0], list, 0, e),
            Item::StructDef(def) => {
                let lists = Seq::new(
                    def.fields@.len(),
                    |i: int| field_visits(def.fields@[i]),
                );
                let i = choose|i: int|
                    0 <= i < def.fields@.len() && (#[trigger] def.fields@[i]).default == Some(e);
                lemma_one(lists[i][0], lists[i], 0, e);
                lemma_met_among(lists, i);
            },
        },
        Node::Stmt(stmt) => match *stmt {
            Stmt::Assign { target, value, .. } => {
                let inner = place_visits(scope, &target);
                if value == e {
                    let k = if walk.value_first {
                        0
                    } else {
                        inner.len() as int
                    };
                    lemma_one(list[k], list, k, e);
                } else {
                    lemma_place_met(scope, &target, e);
                    lemma_met_in(
                        inner,
                        list,
                        if walk.value_first {
                            1
                        } else {
                            0
                        },
                    );
                }
            },
            Stmt::If { branches, .. } => {
                let lists = Seq::new(
                    branches@.len(),
                    |i: int| branch_visits(scope, branches@[i]),
                );
                let i = choose|i: int|
                    0 <= i < branches@.len() && (#[trigger] branches@[i]).0 == e;
                lemma_one(lists[i][0], lists[i], 0, e);
                lemma_met_among(lists, i);
                lemma_met_in(lists.flatten(), list, 0);
            },
            _ => lemma_one(list[0], list, 0, e),
        },
        Node::Leave(_) => {},
    }
}

proof fn lemma_held_stmt<'a>(walk: Walk, visit: Visit<'a>, s: Stmt)
    requires
        holds_stmt(walk, visit, s),
    ensures
        meets_stmt(visit_kids(walk, visit), s),
{
    let scope = visit.scope;
    let list = visit_kids(walk, visit);
    match visit.node {
        Node::Stmt(stmt) => match *stmt {
            Stmt::If { branches, else_body } => {
                let lists = Seq::new(
                    branches@.len(),
                    |i: int| branch_visits(scope, branches@[i]),
                );
                if exists|i: int|
                    0 <= i < branches@.len() && has_stmt((#[trigger] branches@[i]).1@, s) {
                    let i = choose|i: int|
                        0 <= i < branches@.len() && has_stmt((#[trigger] branches@[i]).1@, s);
                    let inner = stmt_visits(scope, branches@[i].1@);
                    lemma_stmts_met(scope, branches@[i].1@, s);
                    lemma_met_in(inner, lists[i], 1);
                    assert(meets_stmt(inner, s));
                    assert(meets_stmt(lists[i], s));
                    lemma_met_among(lists, i);
                    assert(meets_stmt(lists.flatten(), s));
                    lemma_met_in(lists.flatten(), list, 0);
                } else {
                    let body = else_body->0;
                    lemma_stmts_met(scope, body@, s);
                    lemma_met_in(
                        stmt_visits(scope, body@),
                        list,
                        lists.flatten().len() as int,
                    );
                    assert(meets_stmt(stmt_visits(scope, body@), s));
                }
            },
            Stmt::While { body, .. } => {
                lemma_stmts_met(scope, body@, s);
                lemma_met_in(stmt_visits(scope, body@), list, 1);
                assert(meets_stmt(stmt_visits(scope, body@), s));
            },
            Stmt::For { body, .. } => {
                lemma_stmts_met(scope, body@, s);
                lemma_met_in(stmt_visits(scope, body@), list, 1);
                assert(meets_stmt(stmt_visits(scope, body@), s));
            },
            _ => {},
        },
        Node::Expr(expr, _) => match *expr {
            Expr::FuncLit { function_id, body, .. } => {
                let inner = body_visits(Some(function_id), &*body);
                match *body {
                    Body::Block(stmts) => lemma_stmts_met(Some(function_id), stmts@, s),
                    Body::Single(stmt) => {
                        assert(inner[0].node matches Node::Stmt(found) && *found == s);
                    },
                }
                lemma_met_in(inner, list, 0);
                assert(meets_stmt(inner, s));
            },
            Expr::Match { arms, .. } => {
                let lists = Seq::new(arms@.len(), |i: int| arm_visits(scope, arms@[i]));
                let inner = arms_visits(scope, arms@);
                let i = choose|i: int|
                    0 <= i < arms@.len() && match (#[trigger] arms@[i]).body {
                        ArmBody::Block(stmts) => has_stmt(stmts@, s),
                        _ => false,
                    };
                if let ArmBody::Block(stmts) = arms@[i].body {
                    lemma_stmts_met(scope, stmts@, s);
                    assert(lists[i] == stmt_visits(scope, stmts@));
                    assert(meets_stmt(lists[i], s));
                }
                lemma_met_among(lists, i);
                assert(meets_stmt(inner, s));
                lemma_met_in(
                    inner,
                    list,
                    if walk.subject_last {
                        0
                    } else {
                        1
                    },
                );
            },
            _ => {},
        },
        _ => {},
    }
}

/// A walk over a program comes by everything: whatever stands directly inside a node of the walk
/// is met by the walk too, and so is every item of the program.
pub proof fn law_walks_miss_nothing<'a>(walk: Walk, program: &'a CheckedProgram, i: int)
    requires
        0 <= i < program_walk(walk, program).len(),
    ensures
        forall|e: Expr| #[trigger]
            holds_expr(walk, program_walk(walk, program)[i], e) ==> meets(
                program_walk(walk, program),
                e,
            ),
        forall|s: Stmt| #[trigger]
            holds_stmt(walk, program_walk(walk, program)[i], s) ==> meets_stmt(
                program_walk(walk, program),
                s,
            ),
{
    let nodes = program_walk(walk, program);
    let roots = item_visits(program);
    lemma_program_walk(walk, program);
    lemma_kids_follow(walk, roots, i);
    let kids = visit_kids(walk, nodes[i]);
    assert forall|e: Expr| #[trigger] holds_expr(walk, nodes[i], e) implies meets(nodes, e) by {
        lemma_held(walk, nodes[i], e);
        let k = choose|k: int|
            0 <= k < kids.len() && match (#[trigger] kids[k]).node {
                Node::Expr(found, _) => *found == e,
                _ => false,
            };
        assert(nodes.contains(kids[k]));
        let j = choose|j: int| 0 <= j < nodes.len() && nodes[j] == kids[k];
        lemma_one(nodes[j], nodes, j, e);
    }
    assert forall|s: Stmt| #[trigger] holds_stmt(walk, nodes[i], s) implies meets_stmt(
        nodes,
        s,
    ) by {
        lemma_held_stmt(walk, nodes[i], s);
        let k = choose|k: int|
            0 <= k < kids.len() && match (#[trigger] kids[k]).node {
                Node::Stmt(found) => *found == s,
                _ => false,
            };
        assert(nodes.contains(kids[k]));
        let j = choose|j: int| 0 <= j < nodes.len() && nodes[j] == kids[k];
        assert(nodes[j].node matches Node::Stmt(found) && *found == s);
    }
}

/// A walk over a program starts from every item of it.
pub proof fn law_walks_start_from_every_item<'a>(walk: Walk, program: &'a CheckedProgram, k: int)
    requires
        0 <= k < program.items@.len(),
    ensures
        exists|j: int|
            0 <= j < program_walk(walk, program).len() && match (#[trigger] program_walk(
                walk,
                program,
            )[j]).node {
                Node::Item(item) => *item == program.items@[k],
                _ => false,
            },
{
    lemma_program_walk(walk, program);
    let j = lemma_root_listed(walk, item_visits(program), k);
    assert(program_walk(walk, program)[j] == item_visits(program)[k]);
}

/// The functions around a node are known: what stands in a function has that function as its
/// scope, and everything else the scope of what it stands in.
pub proof fn law_scopes_are_the_functions_around<'a>(walk: Walk, visit: Visit<'a>, k: int)
    requires
        visit.node is Expr,
        0 <= k < visit_kids(walk, visit).len(),
    ensures
        match visit.node {
            Node::Expr(expr, _) => match *expr {
                Expr::FuncLit { function_id, .. } => walk.into_functions && if visit_kids(
                    walk,
                    visit,
                )[k].node is Leave {
                    visit_kids(walk, visit)[k].scope == visit.scope && k == visit_kids(
                        walk,
                        visit,
                    ).len() - 1
                } else {
                    visit_kids(walk, visit)[k].scope == Some(function_id)
                },
                Expr::Binary { .. } => visit_kids(walk, visit)[k].scope == visit.scope,
                Expr::Ternary { .. } => visit_kids(walk, visit)[k].scope == visit.scope,
                Expr::Call { .. } => visit_kids(walk, visit)[k].scope == visit.scope,
                Expr::MethodCall { .. } => visit_kids(walk, visit)[k].scope == visit.scope,
                _ => true,
            },
            _ => true,
        },
{
}

} // verus!
