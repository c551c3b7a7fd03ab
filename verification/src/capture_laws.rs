//! Which variables a function captures.
//!
//! A walk through a program enters and leaves functions. What is used between is used inside
//! every function that is open there.

use crate::capture::{
    FrameView, SeedView, arm_ids, capture_step, capture_walk, captures_after, function_locals,
    global_ids, is_global_item, locals_after, locals_at, locals_step, number_at, program_seeds,
    seeds_have, used_at, with_locals, with_use, with_uses,
};
use crate::function_facts::param_ids;
use crate::model::{CheckedProgram, Expr, Item, Place, Stmt, place_root};
use crate::types::BindingId;
use crate::visit::{
    Node, Visit, Walk, arm_visits, body_visits, branch_visits, field_visits, item_visits,
    lemma_program_walk, lemma_visit_kids, lemma_walk_all_add, lemma_walk_all_empty,
    lemma_walk_all_one, part_visits, place_visits, program_walk, visit_kids, walk_all,
};
use vstd::prelude::*;

verus! {

/// A function begins.
pub open spec fn begins<'a>(visit: Visit<'a>) -> bool {
    match visit.node {
        Node::Expr(expr, _) => *expr is FuncLit,
        _ => false,
    }
}

/// A function ends.
pub open spec fn ends<'a>(visit: Visit<'a>) -> bool {
    match visit.node {
        Node::Leave(_) => true,
        _ => false,
    }
}

/// The functions that have begun and not ended, the outermost first, each by where it began.
pub open spec fn open_after<'a>(nodes: Seq<Visit<'a>>) -> Seq<int>
    decreases nodes.len(),
{
    if nodes.len() == 0 {
        Seq::empty()
    } else {
        let before = open_after(nodes.drop_last());
        if begins(nodes.last()) {
            before.push(nodes.len() - 1)
        } else if ends(nodes.last()) && before.len() > 0 {
            before.drop_last()
        } else {
            before
        }
    }
}

/// The functions around a point of the walk.
pub open spec fn around<'a>(nodes: Seq<Visit<'a>>, i: int) -> Seq<int> {
    open_after(nodes.take(i))
}

/// The variable that a place is within.
pub open spec fn within(place: Place) -> BindingId
    decreases place,
{
    match place {
        Place::Local { binding_id, .. } => binding_id,
        Place::Field { base, .. } => within(*base),
        Place::Index { base, .. } => within(*base),
    }
}

/// A node reads, borrows, moves or assigns a variable, or a place within it.
pub open spec fn touches<'a>(visit: Visit<'a>, id: BindingId) -> bool {
    match visit.node {
        Node::Stmt(stmt) => match *stmt {
            Stmt::Assign { target, .. } => within(target) == id,
            _ => false,
        },
        Node::Expr(expr, _) => match *expr {
            Expr::Ident(_, named, _, _) => named == Some(id),
            Expr::ReadPlace { source, .. } => within(*source) == id,
            Expr::Borrow { source, .. } => within(*source) == id,
            Expr::Refer { source, .. } => within(*source) == id,
            Expr::Move { source, .. } => within(*source) == id,
            _ => false,
        },
        _ => false,
    }
}

/// A node declares a variable of the function around it: as a local, as the variable of a loop,
/// or as one that a pattern binds.
pub open spec fn declares<'a>(visit: Visit<'a>, id: BindingId) -> bool {
    match visit.node {
        Node::Stmt(stmt) => match *stmt {
            Stmt::Binding(binding) => binding.binding_id == id,
            Stmt::For { binding_id, .. } => binding_id == id,
            _ => false,
        },
        Node::Expr(expr, _) => match *expr {
            Expr::Match { arms, .. } => exists|k: int|
                0 <= k < arms@.len() && (#[trigger] arms@[k]).binding_id == Some(id),
            _ => false,
        },
        _ => false,
    }
}

/// A function has the variable as a parameter, an implicit one among them.
pub open spec fn takes<'a>(visit: Visit<'a>, id: BindingId) -> bool {
    match visit.node {
        Node::Expr(expr, _) => match *expr {
            Expr::FuncLit { params, implicit_bindings, .. } => {
                ||| exists|k: int| 0 <= k < params@.len() && (#[trigger] params@[k]).binding_id == id
                ||| exists|k: int|
                    0 <= k < implicit_bindings@.len() && #[trigger] implicit_bindings@[k] == id
            },
            _ => false,
        },
        _ => false,
    }
}

/// A variable belongs to the function that begins at a node: it is a parameter of it, or it is
/// declared in it and in no function inside it.
pub open spec fn belongs<'a>(nodes: Seq<Visit<'a>>, j: int, id: BindingId) -> bool {
    ||| takes(nodes[j], id)
    ||| exists|d: int|
        0 <= d < nodes.len() && #[trigger] declares(nodes[d], id) && around(nodes, d).len() > 0
            && around(nodes, d).last() == j
}

/// A variable stands outside all functions.
pub open spec fn outside(items: Seq<Item>, id: BindingId) -> bool {
    exists|i: int|
        0 <= i < items.len() && match #[trigger] items[i] {
            Item::Binding(binding) => !(binding.owner is Method) && binding.binding_id == id,
            Item::StructDef(_) => false,
        }
}

/// From one of the functions around a point inwards, a variable belongs to none.
pub open spec fn foreign<'a>(nodes: Seq<Visit<'a>>, i: int, t: int, id: BindingId) -> bool {
    forall|u: int|
        t <= u < around(nodes, i).len() ==> !belongs(nodes, #[trigger] around(nodes, i)[u], id)
}

/// A function captures a variable.
pub open spec fn captured<'a>(program: &'a CheckedProgram, j: int, id: BindingId) -> bool {
    let nodes = program_walk(capture_walk(), program);
    seeds_have(program_seeds(program)[number_at(nodes, j)], id)
}

proof fn lemma_within(place: Place)
    ensures
        within(place) == place_root(place),
    decreases place,
{
    match place {
        Place::Local { .. } => {},
        Place::Field { base, .. } => lemma_within(*base),
        Place::Index { base, .. } => lemma_within(*base),
    }
}

proof fn lemma_touches<'a>(visit: Visit<'a>, id: BindingId)
    ensures
        touches(visit, id) <==> (used_at(visit) is Some && (used_at(visit)->0).binding_id == id),
{
    match visit.node {
        Node::Stmt(stmt) => match *stmt {
            Stmt::Assign { target, .. } => lemma_within(target),
            _ => {},
        },
        Node::Expr(expr, _) => match *expr {
            Expr::ReadPlace { source, .. } => lemma_within(*source),
            Expr::Borrow { source, .. } => lemma_within(*source),
            Expr::Refer { source, .. } => lemma_within(*source),
            Expr::Move { source, .. } => lemma_within(*source),
            _ => {},
        },
        _ => {},
    }
}

proof fn lemma_open<'a>(nodes: Seq<Visit<'a>>)
    ensures
        forall|t: int|
            0 <= t < open_after(nodes).len() ==> 0 <= #[trigger] open_after(nodes)[t] < nodes.len()
                && begins(nodes[open_after(nodes)[t]]),
    decreases nodes.len(),
{
    if nodes.len() > 0 {
        lemma_open(nodes.drop_last());
        let before = open_after(nodes.drop_last());
        assert forall|t: int| 0 <= t < open_after(nodes).len() implies 0 <= #[trigger] open_after(
            nodes,
        )[t] < nodes.len() && begins(nodes[open_after(nodes)[t]]) by {
            if t < before.len() {
                assert(open_after(nodes)[t] == before[t]);
                assert(nodes.drop_last()[before[t]] == nodes[before[t]]);
            }
        }
    }
}

/// Functions that begin later have higher numbers.
proof fn lemma_numbers<'a>(nodes: Seq<Visit<'a>>, a: int, b: int)
    requires
        0 <= a < b <= nodes.len(),
        begins(nodes[a]),
    ensures
        number_at(nodes, a) < number_at(nodes, b),
    decreases b,
{
    let part = nodes.take(b);
    assert(part.drop_last() =~= nodes.take(b - 1));
    assert(part.last() == nodes[b - 1]);
    if a < b - 1 {
        lemma_numbers(nodes, a, b - 1);
    }
}

proof fn lemma_take_step<'a>(nodes: Seq<Visit<'a>>, n: int)
    requires
        0 <= n < nodes.len(),
    ensures
        nodes.take(n + 1).drop_last() == nodes.take(n),
        nodes.take(n + 1).last() == nodes[n],
        nodes.take(n + 1).len() == n + 1,
{
    assert(nodes.take(n + 1).drop_last() =~= nodes.take(n));
}

proof fn lemma_number_step<'a>(nodes: Seq<Visit<'a>>, n: int)
    requires
        0 < n <= nodes.len(),
    ensures
        number_at(nodes, n) == number_at(nodes, n - 1) + if begins(nodes[n - 1]) {
            1int
        } else {
            0int
        },
{
    lemma_take_step(nodes, n - 1);
}

/// The frames are those of the functions that are open.
proof fn lemma_frames<'a>(
    nodes: Seq<Visit<'a>>,
    locals: Seq<Set<BindingId>>,
    globals: Set<BindingId>,
    n: int,
)
    requires
        0 <= n <= nodes.len(),
    ensures
        ({
            let state = captures_after(nodes.take(n), locals, globals);
            let open = around(nodes, n);
            &&& state.frames.len() == open.len()
            &&& state.done.len() == number_at(nodes, n)
            &&& forall|t: int|
                0 <= t < open.len() ==> (#[trigger] state.frames[t]).ordinal == number_at(
                    nodes,
                    open[t],
                ) && 0 <= open[t] < n && begins(nodes[open[t]])
        }),
    decreases n,
{
    if n > 0 {
        lemma_frames(nodes, locals, globals, n - 1);
        lemma_take_step(nodes, n - 1);
        let before = captures_after(nodes.take(n - 1), locals, globals);
        let state = captures_after(nodes.take(n), locals, globals);
        let was = around(nodes, n - 1);
        let open = around(nodes, n);
        let visit = nodes[n - 1];
        lemma_number_step(nodes, n);
        assert(state == capture_step(before, locals, globals, visit));
        if was.len() > 0 {
            let last = was.len() - 1;
            assert(before.frames[last].ordinal == number_at(nodes, was[last]));
            lemma_numbers(nodes, was[last], n - 1);
        }
        if ends(visit) && was.len() > 1 {
            let rest = before.frames.drop_last();
            lemma_with_uses(rest.last(), locals, globals, before.frames.last().ordered);
        }
        assert forall|t: int| 0 <= t < open.len() implies (#[trigger] state.frames[t]).ordinal
            == number_at(nodes, open[t]) && 0 <= open[t] < n && begins(nodes[open[t]]) by {
            if t < was.len() {
                assert(before.frames[t].ordinal == number_at(nodes, was[t]));
                assert(open[t] == was[t]);
            }
        }
    }
}

proof fn lemma_with_uses(
    frame: FrameView,
    locals: Seq<Set<BindingId>>,
    globals: Set<BindingId>,
    seeds: Seq<SeedView>,
)
    ensures
        with_uses(frame, locals, globals, seeds).ordinal == frame.ordinal,
        forall|id: BindingId|
            #[trigger] seeds_have(with_uses(frame, locals, globals, seeds).ordered, id)
                <==> seeds_have(frame.ordered, id) || (seeds_have(seeds, id) && !locals_at(
                locals,
                frame.ordinal,
            ).contains(id) && !globals.contains(id)),
    decreases seeds.len(),
{
    if seeds.len() > 0 {
        let less = seeds.drop_last();
        let part = with_uses(frame, locals, globals, less);
        lemma_with_uses(frame, locals, globals, less);
        lemma_with_use(part, locals, globals, seeds.last());
        assert forall|id: BindingId|
            #[trigger] seeds_have(with_uses(frame, locals, globals, seeds).ordered, id)
                <==> seeds_have(frame.ordered, id) || (seeds_have(seeds, id) && !locals_at(
                locals,
                frame.ordinal,
            ).contains(id) && !globals.contains(id)) by {
            assert(seeds_have(seeds, id) <==> seeds_have(less, id) || seeds.last().binding_id == id)
                by {
                if seeds_have(less, id) {
                    let k = choose|k: int|
                        0 <= k < less.len() && (#[trigger] less[k]).binding_id == id;
                    assert(seeds[k].binding_id == id);
                }
                if seeds_have(seeds, id) && seeds.last().binding_id != id {
                    let k = choose|k: int|
                        0 <= k < seeds.len() && (#[trigger] seeds[k]).binding_id == id;
                    assert(less[k].binding_id == id);
                }
                assert(seeds[seeds.len() - 1] == seeds.last());
            }
            assert(seeds_have(part.ordered, id) <==> seeds_have(frame.ordered, id) || (seeds_have(
                less,
                id,
            ) && !locals_at(locals, frame.ordinal).contains(id) && !globals.contains(id)));
        }
    }
}

proof fn lemma_with_use(
    frame: FrameView,
    locals: Seq<Set<BindingId>>,
    globals: Set<BindingId>,
    seed: SeedView,
)
    ensures
        with_use(frame, locals, globals, seed).ordinal == frame.ordinal,
        forall|id: BindingId|
            #[trigger] seeds_have(with_use(frame, locals, globals, seed).ordered, id)
                <==> seeds_have(frame.ordered, id) || (seed.binding_id == id && !locals_at(
                locals,
                frame.ordinal,
            ).contains(id) && !globals.contains(id)),
{
    let after = with_use(frame, locals, globals, seed);
    assert forall|id: BindingId| #[trigger] seeds_have(after.ordered, id) <==> seeds_have(
        frame.ordered,
        id,
    ) || (seed.binding_id == id && !locals_at(locals, frame.ordinal).contains(id)
        && !globals.contains(id)) by {
        if after.ordered.len() > frame.ordered.len() {
            let list = frame.ordered;
            if seeds_have(list, id) {
                let k = choose|k: int| 0 <= k < list.len() && (#[trigger] list[k]).binding_id == id;
                assert(after.ordered[k].binding_id == id);
            }
            if seeds_have(after.ordered, id) && seed.binding_id != id {
                let k = choose|k: int|
                    0 <= k < after.ordered.len() && (#[trigger] after.ordered[k]).binding_id == id;
                assert(list[k].binding_id == id);
            }
            assert(after.ordered[list.len() as int] == seed);
        }
    }
}

/// The variables of a function, by its number, are those that belong to it.
proof fn lemma_locals<'a>(nodes: Seq<Visit<'a>>, n: int)
    requires
        0 <= n <= nodes.len(),
    ensures
        ({
            let state = locals_after(nodes.take(n));
            let open = around(nodes, n);
            &&& state.stack.len() == open.len()
            &&& state.locals.len() == number_at(nodes, n)
            &&& forall|t: int|
                0 <= t < open.len() ==> #[trigger] state.stack[t] == number_at(nodes, open[t])
                    && 0 <= open[t] < n && begins(nodes[open[t]])
            &&& forall|j: int, id: BindingId|
                0 <= j < n && begins(nodes[j]) ==> (#[trigger] state.locals[number_at(
                    nodes,
                    j,
                )].contains(id) <==> belongs_upto(nodes, j, id, n))
        }),
    decreases n,
{
    if n > 0 {
        lemma_locals(nodes, n - 1);
        lemma_take_step(nodes, n - 1);
        let before = locals_after(nodes.take(n - 1));
        let state = locals_after(nodes.take(n));
        let was = around(nodes, n - 1);
        let open = around(nodes, n);
        let visit = nodes[n - 1];
        lemma_number_step(nodes, n);
        assert(state == locals_step(before, visit));
        assert forall|t: int| 0 <= t < open.len() implies #[trigger] state.stack[t] == number_at(
            nodes,
            open[t],
        ) && 0 <= open[t] < n && begins(nodes[open[t]]) by {
            if t < was.len() {
                assert(before.stack[t] == number_at(nodes, was[t]));
                assert(open[t] == was[t]);
            }
        }
        if was.len() > 0 {
            let last = was.len() - 1;
            assert(before.stack[last] == number_at(nodes, was[last]));
            lemma_numbers(nodes, was[last], n - 1);
        }
        assert forall|j: int, id: BindingId| 0 <= j < n && begins(nodes[j]) implies (
        #[trigger] state.locals[number_at(nodes, j)].contains(id) <==> belongs_upto(
            nodes,
            j,
            id,
            n,
        )) by {
            lemma_belongs_step(nodes, j, id, n);
            if j == n - 1 {
                lemma_takes(visit, id);
                if belongs_upto(nodes, j, id, n) && !takes(nodes[j], id) {
                    let d = choose|d: int|
                        0 <= d < n && #[trigger] declares(nodes[d], id) && around(nodes, d).len()
                            > 0 && around(nodes, d).last() == j;
                    lemma_open(nodes.take(d));
                    let inner = around(nodes, d);
                    assert(inner[inner.len() - 1] < d);
                }
            } else {
                lemma_numbers(nodes, j, n - 1);
                assert(before.locals[number_at(nodes, j)].contains(id) <==> belongs_upto(
                    nodes,
                    j,
                    id,
                    n - 1,
                ));
                lemma_declares(before, visit, id);
                if was.len() > 0 && was.last() != j {
                    if was.last() < j {
                        lemma_numbers(nodes, was.last(), j);
                    } else {
                        lemma_numbers(nodes, j, was.last());
                    }
                }
            }
        }
    }
}

/// The same for what is declared before a point.
spec fn belongs_upto<'a>(nodes: Seq<Visit<'a>>, j: int, id: BindingId, n: int) -> bool {
    ||| takes(nodes[j], id)
    ||| exists|d: int|
        0 <= d < n && #[trigger] declares(nodes[d], id) && around(nodes, d).len() > 0 && around(
            nodes,
            d,
        ).last() == j
}

proof fn lemma_belongs_step<'a>(nodes: Seq<Visit<'a>>, j: int, id: BindingId, n: int)
    requires
        0 < n <= nodes.len(),
    ensures
        belongs_upto(nodes, j, id, n) <==> belongs_upto(nodes, j, id, n - 1) || (declares(
            nodes[n - 1],
            id,
        ) && around(nodes, n - 1).len() > 0 && around(nodes, n - 1).last() == j),
{
}

proof fn lemma_takes<'a>(visit: Visit<'a>, id: BindingId)
    requires
        begins(visit),
    ensures
        takes(visit, id) <==> param_ids(*visit.node->Expr_0).to_set().contains(id),
{
    if let Node::Expr(expr, _) = visit.node {
        if let Expr::FuncLit { params, implicit_bindings, .. } = *expr {
            let ids = param_ids(*expr);
            let n = implicit_bindings@.len() as int;
            assert(ids.to_set().contains(id) <==> ids.contains(id));
            if ids.contains(id) {
                let k = choose|k: int| 0 <= k < ids.len() && ids[k] == id;
                if k < n {
                    assert(implicit_bindings@[k] == id);
                } else {
                    assert(params@[k - n].binding_id == id);
                }
            }
            if exists|k: int| 0 <= k < params@.len() && (#[trigger] params@[k]).binding_id == id {
                let k = choose|k: int|
                    0 <= k < params@.len() && (#[trigger] params@[k]).binding_id == id;
                assert(ids[n + k] == id);
            }
            if exists|k: int| 0 <= k < n && #[trigger] implicit_bindings@[k] == id {
                let k = choose|k: int| 0 <= k < n && #[trigger] implicit_bindings@[k] == id;
                assert(ids[k] == id);
            }
        }
    }
}

/// What a node adds to the variables of the innermost function.
proof fn lemma_declares<'a>(
    state: crate::capture::LocalsView,
    visit: Visit<'a>,
    id: BindingId,
)
    requires
        state.stack.len() > 0 ==> state.stack.last() < state.locals.len(),
    ensures
        declares(visit, id) ==> !begins(visit) && !ends(visit),
        !begins(visit) ==> {
            &&& locals_step(state, visit).locals.len() == state.locals.len()
            &&& forall|k: int|
                0 <= k < state.locals.len() ==> (#[trigger] locals_step(
                    state,
                    visit,
                ).locals[k].contains(id) <==> state.locals[k].contains(id) || (declares(visit, id)
                    && state.stack.len() > 0 && state.stack.last() as int == k))
        },
{
    match visit.node {
        Node::Stmt(stmt) => match *stmt {
            Stmt::Binding(binding) => {
                let ids = set![binding.binding_id];
                assert(locals_step(state, visit) == with_locals(state, ids));
                assert(ids.contains(id) <==> declares(visit, id));
            },
            Stmt::For { binding_id, .. } => {
                let ids = set![binding_id];
                assert(locals_step(state, visit) == with_locals(state, ids));
                assert(ids.contains(id) <==> declares(visit, id));
            },
            _ => {},
        },
        Node::Expr(expr, _) => match *expr {
            Expr::Match { arms, .. } => {
                let ids = arm_ids(arms@);
                assert(locals_step(state, visit) == with_locals(state, ids));
                assert(ids.contains(id) <==> declares(visit, id));
            },
            _ => {},
        },
        _ => {},
    }
}

/// A use, followed through the walk: the functions around it that have ended by then capture the
/// variable, and so does the innermost that has not.
spec fn followed<'a>(
    nodes: Seq<Visit<'a>>,
    locals: Seq<Set<BindingId>>,
    globals: Set<BindingId>,
    i: int,
    id: BindingId,
    n: int,
    s: int,
) -> bool {
    let state = captures_after(nodes.take(n), locals, globals);
    let use_open = around(nodes, i);
    let open = around(nodes, n);
    &&& 0 <= s <= use_open.len()
    &&& s <= open.len()
    &&& forall|u: int| 0 <= u < s ==> #[trigger] open[u] == use_open[u]
    &&& forall|u: int| s <= u < open.len() ==> #[trigger] open[u] > i
    &&& forall|t: int|
        #![trigger use_open[t]]
        s <= t < use_open.len() && free_from(nodes, locals, use_open, t, id) ==> seeds_have(
            state.done[number_at(nodes, use_open[t])],
            id,
        )
    &&& s > 0 && free_from(nodes, locals, use_open, s - 1, id) ==> seeds_have(
        state.frames[s - 1].ordered,
        id,
    )
}

/// The functions around a point begin before it.
proof fn lemma_around<'a>(nodes: Seq<Visit<'a>>, i: int)
    requires
        0 <= i <= nodes.len(),
    ensures
        forall|t: int|
            0 <= t < around(nodes, i).len() ==> 0 <= #[trigger] around(nodes, i)[t] < i && begins(
                nodes[around(nodes, i)[t]],
            ),
{
    lemma_open(nodes.take(i));
    assert forall|t: int| 0 <= t < around(nodes, i).len() implies 0 <= #[trigger] around(
        nodes,
        i,
    )[t] < i && begins(nodes[around(nodes, i)[t]]) by {
        assert(nodes.take(i)[around(nodes, i)[t]] == nodes[around(nodes, i)[t]]);
    }
}

proof fn lemma_used_now<'a>(
    nodes: Seq<Visit<'a>>,
    locals: Seq<Set<BindingId>>,
    globals: Set<BindingId>,
    i: int,
    id: BindingId,
)
    requires
        0 <= i < nodes.len(),
        touches(nodes[i], id),
        !globals.contains(id),
    ensures
        followed(nodes, locals, globals, i, id, i + 1, around(nodes, i).len() as int),
{
    let before = captures_after(nodes.take(i), locals, globals);
    let open = around(nodes, i);
    let visit = nodes[i];
    lemma_take_step(nodes, i);
    lemma_frames(nodes, locals, globals, i);
    lemma_touches(visit, id);
    assert(around(nodes, i + 1) == open);
    if open.len() > 0 {
        lemma_with_use(before.frames.last(), locals, globals, used_at(visit)->0);
        let s = open.len() - 1;
        assert(before.frames[s].ordinal == number_at(nodes, open[s]));
        if free_from(nodes, locals, open, s, id) {
            assert(!locals_at(locals, number_at(nodes, open[s]) as nat).contains(id));
        }
    }
}

proof fn lemma_follow_begin<'a>(
    nodes: Seq<Visit<'a>>,
    locals: Seq<Set<BindingId>>,
    globals: Set<BindingId>,
    i: int,
    id: BindingId,
    n: int,
    s: int,
)
    requires
        0 <= i < n < nodes.len(),
        followed(nodes, locals, globals, i, id, n, s),
        begins(nodes[n]),
    ensures
        followed(nodes, locals, globals, i, id, n + 1, s),
{
    let use_open = around(nodes, i);
    let before = captures_after(nodes.take(n), locals, globals);
    let state = captures_after(nodes.take(n + 1), locals, globals);
    lemma_take_step(nodes, n);
    lemma_frames(nodes, locals, globals, n);
    lemma_around(nodes, i);
    assert(state == capture_step(before, locals, globals, nodes[n]));
    assert(around(nodes, n + 1) == around(nodes, n).push(n));
    assert forall|t: int|
        #![trigger use_open[t]]
        s <= t < use_open.len() && free_from(nodes, locals, use_open, t, id) implies seeds_have(
        state.done[number_at(nodes, use_open[t])],
        id,
    ) by {
        lemma_numbers(nodes, use_open[t], n);
    }
}

proof fn lemma_follow_end<'a>(
    nodes: Seq<Visit<'a>>,
    locals: Seq<Set<BindingId>>,
    globals: Set<BindingId>,
    i: int,
    id: BindingId,
    n: int,
    s: int,
)
    requires
        0 <= i < n < nodes.len(),
        followed(nodes, locals, globals, i, id, n, s),
        ends(nodes[n]),
        around(nodes, n).len() > s,
    ensures
        followed(nodes, locals, globals, i, id, n + 1, s),
{
    let use_open = around(nodes, i);
    let was = around(nodes, n);
    let top = was.len() - 1;
    let before = captures_after(nodes.take(n), locals, globals);
    let state = captures_after(nodes.take(n + 1), locals, globals);
    lemma_take_step(nodes, n);
    lemma_frames(nodes, locals, globals, n);
    lemma_around(nodes, i);
    lemma_around(nodes, n);
    assert(state == capture_step(before, locals, globals, nodes[n]));
    assert(around(nodes, n + 1) == was.drop_last());
    assert(before.frames[top].ordinal == number_at(nodes, was[top]));
    lemma_numbers(nodes, was[top], n);
    if was.len() > 1 {
        lemma_with_uses(before.frames[top - 1], locals, globals, before.frames[top].ordered);
    }
    assert forall|t: int|
        #![trigger use_open[t]]
        s <= t < use_open.len() && free_from(nodes, locals, use_open, t, id) implies seeds_have(
        state.done[number_at(nodes, use_open[t])],
        id,
    ) by {
        assert(was[top] > i);
        lemma_numbers(nodes, use_open[t], was[top]);
        lemma_numbers(nodes, use_open[t], n);
    }
}

proof fn lemma_follow_out<'a>(
    nodes: Seq<Visit<'a>>,
    locals: Seq<Set<BindingId>>,
    globals: Set<BindingId>,
    i: int,
    id: BindingId,
    n: int,
    s: int,
)
    requires
        0 <= i < n < nodes.len(),
        followed(nodes, locals, globals, i, id, n, s),
        !globals.contains(id),
        ends(nodes[n]),
        around(nodes, n).len() == s,
        s > 0,
    ensures
        followed(nodes, locals, globals, i, id, n + 1, s - 1),
{
    let use_open = around(nodes, i);
    let was = around(nodes, n);
    let top = s - 1;
    let before = captures_after(nodes.take(n), locals, globals);
    let state = captures_after(nodes.take(n + 1), locals, globals);
    lemma_take_step(nodes, n);
    lemma_frames(nodes, locals, globals, n);
    lemma_around(nodes, i);
    assert(state == capture_step(before, locals, globals, nodes[n]));
    assert(around(nodes, n + 1) == was.drop_last());
    assert(was[top] == use_open[top]);
    assert(before.frames[top].ordinal == number_at(nodes, use_open[top]));
    lemma_numbers(nodes, use_open[top], n);
    if s > 1 {
        assert(was[top - 1] == use_open[top - 1]);
        assert(before.frames[top - 1].ordinal == number_at(nodes, use_open[top - 1]));
        lemma_with_uses(before.frames[top - 1], locals, globals, before.frames[top].ordered);
        if free_from(nodes, locals, use_open, top - 1, id) {
            assert(free_from(nodes, locals, use_open, top, id));
            assert(!locals_at(locals, number_at(nodes, use_open[top - 1]) as nat).contains(id));
        }
    }
    assert forall|t: int|
        #![trigger use_open[t]]
        top <= t < use_open.len() && free_from(nodes, locals, use_open, t, id) implies seeds_have(
        state.done[number_at(nodes, use_open[t])],
        id,
    ) by {
        lemma_numbers(nodes, use_open[t], n);
        if t > top {
            lemma_open_rises(nodes.take(i), top, t);
            lemma_numbers(nodes, use_open[top], use_open[t]);
        }
    }
}

proof fn lemma_follow<'a>(
    nodes: Seq<Visit<'a>>,
    locals: Seq<Set<BindingId>>,
    globals: Set<BindingId>,
    i: int,
    id: BindingId,
    n: int,
) -> (s: int)
    requires
        0 <= i < n <= nodes.len(),
        touches(nodes[i], id),
        !globals.contains(id),
    ensures
        followed(nodes, locals, globals, i, id, n, s),
    decreases n,
{
    if n == i + 1 {
        lemma_used_now(nodes, locals, globals, i, id);
        around(nodes, i).len() as int
    } else {
        let s = lemma_follow(nodes, locals, globals, i, id, n - 1);
        let visit = nodes[n - 1];
        let was = around(nodes, n - 1);
        let before = captures_after(nodes.take(n - 1), locals, globals);
        let state = captures_after(nodes.take(n), locals, globals);
        lemma_take_step(nodes, n - 1);
        if begins(visit) {
            lemma_follow_begin(nodes, locals, globals, i, id, n - 1, s);
            s
        } else if ends(visit) && was.len() > s {
            lemma_follow_end(nodes, locals, globals, i, id, n - 1, s);
            s
        } else if ends(visit) && s > 0 {
            lemma_follow_out(nodes, locals, globals, i, id, n - 1, s);
            s - 1
        } else {
            lemma_frames(nodes, locals, globals, n - 1);
            if used_at(visit) is Some && was.len() > 0 {
                lemma_with_use(before.frames.last(), locals, globals, used_at(visit)->0);
            }
            assert(around(nodes, n) == was);
            assert(state == capture_step(before, locals, globals, visit));
            assert(state.done == before.done);
            s
        }
    }
}

/// Inner functions begin later.
proof fn lemma_open_rises<'a>(nodes: Seq<Visit<'a>>, a: int, b: int)
    requires
        0 <= a < b < open_after(nodes).len(),
    ensures
        open_after(nodes)[a] < open_after(nodes)[b],
    decreases nodes.len(),
{
    if nodes.len() > 0 {
        let before = open_after(nodes.drop_last());
        lemma_open(nodes.drop_last());
        if b < before.len() {
            lemma_open_rises(nodes.drop_last(), a, b);
        } else {
            assert(before[a] < nodes.len() - 1);
        }
    }
}

spec fn free_from<'a>(
    nodes: Seq<Visit<'a>>,
    locals: Seq<Set<BindingId>>,
    open: Seq<int>,
    t: int,
    id: BindingId,
) -> bool {
    forall|u: int|
        t <= u < open.len() ==> !locals_at(
            locals,
            number_at(nodes, #[trigger] open[u]) as nat,
        ).contains(id)
}

/// No node of a list ends a function.
spec fn ends_nothing<'a>(list: Seq<Visit<'a>>) -> bool {
    forall|k: int| 0 <= k < list.len() ==> !ends(#[trigger] list[k])
}

proof fn lemma_ends_nothing<'a>(lists: Seq<Seq<Visit<'a>>>)
    requires
        forall|i: int| 0 <= i < lists.len() ==> ends_nothing(#[trigger] lists[i]),
    ensures
        ends_nothing(lists.flatten()),
    decreases lists.len(),
{
    if lists.len() > 0 {
        let rest = lists.drop_first();
        assert forall|i: int| 0 <= i < rest.len() implies ends_nothing(#[trigger] rest[i]) by {
            assert(rest[i] == lists[i + 1]);
        }
        lemma_ends_nothing(rest);
        assert(lists.flatten() =~= lists.first() + rest.flatten());
        assert(ends_nothing(lists[0]));
        assert forall|k: int| 0 <= k < lists.flatten().len() implies !ends(
            #[trigger] lists.flatten()[k],
        ) by {
            if k < lists.first().len() {
                assert(lists.flatten()[k] == lists.first()[k]);
            } else {
                assert(lists.flatten()[k] == rest.flatten()[k - lists.first().len()]);
            }
        }
    }
}

proof fn lemma_place_ends_nothing<'a>(
    scope: Option<crate::types::FunctionId>,
    place: &'a Place,
)
    ensures
        ends_nothing(place_visits(scope, place)),
    decreases place,
{
    match *place {
        Place::Local { .. } => {},
        Place::Field { base, .. } => lemma_place_ends_nothing(scope, &*base),
        Place::Index { base, .. } => lemma_place_ends_nothing(scope, &*base),
    }
}

/// Only a function has its own end among its children.
proof fn lemma_kids_end_nothing<'a>(walk: Walk, visit: Visit<'a>)
    requires
        !begins(visit),
    ensures
        ends_nothing(visit_kids(walk, visit)),
{
    let scope = visit.scope;
    match visit.node {
        Node::Item(item) => match *item {
            Item::StructDef(def) => {
                lemma_ends_nothing(
                    Seq::new(def.fields@.len(), |i: int| field_visits(def.fields@[i])),
                );
            },
            _ => {},
        },
        Node::Stmt(stmt) => match *stmt {
            Stmt::Assign { target, .. } => lemma_place_ends_nothing(scope, &target),
            Stmt::If { branches, .. } => {
                lemma_ends_nothing(
                    Seq::new(branches@.len(), |i: int| branch_visits(scope, branches@[i])),
                );
            },
            _ => {},
        },
        Node::Expr(expr, _) => match *expr {
            Expr::Str(parts, _, _) => {
                lemma_ends_nothing(
                    Seq::new(parts@.len(), |i: int| part_visits(scope, parts@[i])),
                );
            },
            Expr::Match { arms, .. } => {
                lemma_ends_nothing(
                    Seq::new(arms@.len(), |i: int| arm_visits(scope, arms@[i])),
                );
            },
            Expr::ReadPlace { source, .. } => lemma_place_ends_nothing(scope, &*source),
            Expr::Borrow { source, .. } => lemma_place_ends_nothing(scope, &*source),
            Expr::Refer { source, .. } => lemma_place_ends_nothing(scope, &*source),
            Expr::Move { source, .. } => lemma_place_ends_nothing(scope, &*source),
            _ => {},
        },
        _ => {},
    }
}

/// A walk leaves every function that it enters.
proof fn lemma_balanced<'a>(walk: Walk, before: Seq<Visit<'a>>, roots: Seq<Visit<'a>>)
    requires
        walk.into_functions,
        ends_nothing(roots),
    ensures
        open_after(before + walk_all(walk, roots)) == open_after(before),
    decreases walk_all(walk, roots).len(),
{
    if roots.len() == 0 {
        lemma_walk_all_empty(walk);
        assert(roots =~= Seq::<Visit<'a>>::empty());
        assert(before + walk_all(walk, roots) =~= before);
    } else {
        let v = roots[0];
        let rest = roots.drop_first();
        let kids = visit_kids(walk, v);
        let inner = walk_all(walk, kids);
        let outer = walk_all(walk, rest);
        assert(roots =~= seq![v] + rest);
        lemma_walk_all_add(walk, seq![v], rest);
        lemma_walk_all_one(walk, v);
        lemma_visit_kids(walk, v);
        assert(!ends(roots[0]));
        assert(ends_nothing(rest)) by {
            assert forall|k: int| 0 <= k < rest.len() implies !ends(#[trigger] rest[k]) by {
                assert(rest[k] == roots[k + 1]);
            }
        }
        let entered = before.push(v);
        assert(entered.drop_last() =~= before);
        assert(walk_all(walk, roots) =~= seq![v] + inner + outer);
        if begins(v) {
            if let Node::Expr(expr, _) = v.node {
                if let Expr::FuncLit { function_id, body, .. } = *expr {
                    let own = body_visits(Some(function_id), &*body);
                    let end = Visit { node: Node::Leave(expr), scope: v.scope };
                    let within = walk_all(walk, own);
                    assert(kids == own + seq![end]);
                    lemma_walk_all_add(walk, own, seq![end]);
                    lemma_walk_all_one(walk, end);
                    assert(inner =~= within.push(end));
                    lemma_balanced(walk, entered, own);
                    let left = (entered + within).push(end);
                    assert(left.drop_last() =~= entered + within);
                    assert(open_after(left) =~= open_after(before));
                    lemma_balanced(walk, left, rest);
                    assert(before + walk_all(walk, roots) =~= left + outer);
                }
            }
        } else {
            lemma_kids_end_nothing(walk, v);
            lemma_balanced(walk, entered, kids);
            let done = entered + inner;
            lemma_balanced(walk, done, rest);
            assert(before + walk_all(walk, roots) =~= done + outer);
        }
    }
}

/// In a walk over a whole program every function that begins also ends.
pub proof fn law_every_function_ends<'a>(program: &'a CheckedProgram)
    ensures
        open_after(program_walk(capture_walk(), program)).len() == 0,
{
    let walk = capture_walk();
    let nodes = program_walk(walk, program);
    let none = Seq::<Visit<'a>>::empty();
    lemma_program_walk(walk, program);
    lemma_balanced(walk, none, item_visits(program));
    assert(none + nodes =~= nodes);
}

/// Every variable that is read, borrowed, moved or assigned inside a function, and is neither
/// global nor a parameter or a local of it or of a function between, is captured by the function.
pub proof fn law_used_variables_are_captured<'a>(
    program: &'a CheckedProgram,
    i: int,
    t: int,
    id: BindingId,
)
    requires
        ({
            let nodes = program_walk(capture_walk(), program);
            &&& 0 <= i < nodes.len()
            &&& touches(nodes[i], id)
            &&& 0 <= t < around(nodes, i).len()
            &&& !outside(program.items@, id)
            &&& foreign(nodes, i, t, id)
        }),
    ensures
        captured(program, around(program_walk(capture_walk(), program), i)[t], id),
{
    let nodes = program_walk(capture_walk(), program);
    let locals = function_locals(nodes);
    let globals = global_ids(program.items@);
    let n = nodes.len() as int;
    let use_open = around(nodes, i);
    assert(nodes.take(n) =~= nodes);
    assert(!globals.contains(id)) by {
        if globals.contains(id) {
            let k = choose|k: int|
                0 <= k < program.items@.len() && is_global_item(#[trigger] program.items@[k], id);
            assert(outside(program.items@, id));
        }
    }
    let s = lemma_follow(nodes, locals, globals, i, id, n);
    law_every_function_ends(program);
    lemma_locals(nodes, n);
    lemma_open(nodes.take(i));
    assert(free_from(nodes, locals, use_open, t, id)) by {
        assert forall|u: int| t <= u < use_open.len() implies !locals_at(
            locals,
            number_at(nodes, #[trigger] use_open[u]) as nat,
        ).contains(id) by {
            let j = use_open[u];
            assert(nodes.take(i)[j] == nodes[j]);
            assert(!belongs(nodes, j, id));
            assert(locals[number_at(nodes, j)].contains(id) <==> belongs_upto(nodes, j, id, n));
        }
    }
    assert(use_open[t] == use_open[t]);
}

/// What is around a function stays around everything inside it.
proof fn lemma_prefix<'a>(nodes: Seq<Visit<'a>>, n: int, t: int)
    requires
        0 <= n <= nodes.len(),
        0 <= t < around(nodes, n).len(),
    ensures
        around(nodes, n).take(t) == around(nodes, around(nodes, n)[t]),
    decreases n,
{
    if n > 0 {
        lemma_take_step(nodes, n - 1);
        let was = around(nodes, n - 1);
        let now = around(nodes, n);
        if t < was.len() {
            lemma_prefix(nodes, n - 1, t);
            assert(now[t] == was[t]);
            assert(now.take(t) =~= was.take(t));
        } else {
            assert(now[t] == n - 1);
            assert(now.take(t) =~= was);
        }
    }
}

/// A variable is used inside the function that begins at a node.
pub open spec fn used_inside<'a>(nodes: Seq<Visit<'a>>, j: int, id: BindingId) -> bool {
    used_inside_upto(nodes, j, id, nodes.len() as int)
}

pub open spec fn used_inside_upto<'a>(
    nodes: Seq<Visit<'a>>,
    j: int,
    id: BindingId,
    n: int,
) -> bool {
    exists|i: int| 0 <= i < n && touches(#[trigger] nodes[i], id) && around(nodes, i).contains(j)
}

proof fn lemma_used_further<'a>(nodes: Seq<Visit<'a>>, j: int, id: BindingId, n: int, more: int)
    requires
        used_inside_upto(nodes, j, id, n),
        n <= more,
    ensures
        used_inside_upto(nodes, j, id, more),
{
    let i = choose|i: int|
        0 <= i < n && touches(#[trigger] nodes[i], id) && around(nodes, i).contains(j);
    assert(touches(nodes[i], id));
}

/// What is used inside a function is used inside the one around it.
proof fn lemma_used_outwards<'a>(
    nodes: Seq<Visit<'a>>,
    n: int,
    t: int,
    id: BindingId,
)
    requires
        0 <= n <= nodes.len(),
        0 < t < around(nodes, n).len(),
        used_inside_upto(nodes, around(nodes, n)[t], id, n),
    ensures
        used_inside_upto(nodes, around(nodes, n)[t - 1], id, n),
{
    let open = around(nodes, n);
    let j = open[t];
    let i = choose|i: int|
        0 <= i < n && touches(#[trigger] nodes[i], id) && around(nodes, i).contains(j);
    let inner = around(nodes, i);
    let u = choose|u: int| 0 <= u < inner.len() && inner[u] == j;
    lemma_prefix(nodes, n, t);
    lemma_prefix(nodes, i, u);
    assert(open.take(t) == inner.take(u));
    assert(open.take(t).len() == t && inner.take(u).len() == u);
    assert(open.take(t)[t - 1] == open[t - 1]);
    assert(inner.take(u)[t - 1] == inner[t - 1]);
    assert(inner.contains(open[t - 1]));
    assert(touches(nodes[i], id));
}

spec fn all_used<'a>(
    nodes: Seq<Visit<'a>>,
    locals: Seq<Set<BindingId>>,
    globals: Set<BindingId>,
    n: int,
) -> bool {
    let state = captures_after(nodes.take(n), locals, globals);
    let open = around(nodes, n);
    &&& forall|t: int, id: BindingId|
        0 <= t < open.len() && #[trigger] seeds_have(state.frames[t].ordered, id)
            ==> used_inside_upto(nodes, open[t], id, n)
    &&& forall|j: int, id: BindingId|
        0 <= j < n && begins(nodes[j]) && #[trigger] seeds_have(
            state.done[number_at(nodes, j)],
            id,
        ) ==> used_inside_upto(nodes, j, id, n)
}

proof fn lemma_all_used_end<'a>(
    nodes: Seq<Visit<'a>>,
    locals: Seq<Set<BindingId>>,
    globals: Set<BindingId>,
    n: int,
)
    requires
        0 <= n < nodes.len(),
        all_used(nodes, locals, globals, n),
        ends(nodes[n]),
        around(nodes, n).len() > 0,
    ensures
        all_used(nodes, locals, globals, n + 1),
{
    let was = around(nodes, n);
    let top = was.len() - 1;
    let before = captures_after(nodes.take(n), locals, globals);
    let state = captures_after(nodes.take(n + 1), locals, globals);
    lemma_take_step(nodes, n);
    lemma_frames(nodes, locals, globals, n);
    lemma_around(nodes, n);
    assert(state == capture_step(before, locals, globals, nodes[n]));
    assert(around(nodes, n + 1) == was.drop_last());
    assert(before.frames[top].ordinal == number_at(nodes, was[top]));
    lemma_numbers(nodes, was[top], n);
    if was.len() > 1 {
        lemma_with_uses(before.frames[top - 1], locals, globals, before.frames[top].ordered);
    }
    assert forall|t: int, id: BindingId|
        0 <= t < top && #[trigger] seeds_have(
            state.frames[t].ordered,
            id,
        ) implies used_inside_upto(nodes, was.drop_last()[t], id, n + 1) by {
        if seeds_have(before.frames[t].ordered, id) {
            lemma_used_further(nodes, was[t], id, n, n + 1);
        } else {
            assert(t == top - 1);
            assert(seeds_have(before.frames[top].ordered, id));
            lemma_used_outwards(nodes, n, top, id);
            lemma_used_further(nodes, was[t], id, n, n + 1);
        }
    }
    assert forall|j: int, id: BindingId|
        0 <= j < n + 1 && begins(nodes[j]) && #[trigger] seeds_have(
            state.done[number_at(nodes, j)],
            id,
        ) implies used_inside_upto(nodes, j, id, n + 1) by {
        lemma_numbers(nodes, j, n);
        if j == was[top] {
            assert(seeds_have(before.frames[top].ordered, id));
        } else {
            if j < was[top] {
                lemma_numbers(nodes, j, was[top]);
            } else {
                lemma_numbers(nodes, was[top], j);
            }
            assert(seeds_have(before.done[number_at(nodes, j)], id));
        }
        lemma_used_further(nodes, j, id, n, n + 1);
    }
}

proof fn lemma_all_used_plain<'a>(
    nodes: Seq<Visit<'a>>,
    locals: Seq<Set<BindingId>>,
    globals: Set<BindingId>,
    n: int,
)
    requires
        0 <= n < nodes.len(),
        all_used(nodes, locals, globals, n),
        !ends(nodes[n]) || around(nodes, n).len() == 0,
    ensures
        all_used(nodes, locals, globals, n + 1),
{
    let was = around(nodes, n);
    let now = around(nodes, n + 1);
    let visit = nodes[n];
    let before = captures_after(nodes.take(n), locals, globals);
    let state = captures_after(nodes.take(n + 1), locals, globals);
    lemma_take_step(nodes, n);
    lemma_frames(nodes, locals, globals, n);
    lemma_number_step(nodes, n + 1);
    assert(state == capture_step(before, locals, globals, visit));
    let last = was.len() - 1;
    if !begins(visit) && was.len() > 0 && used_at(visit) is Some {
        lemma_with_use(before.frames[last], locals, globals, used_at(visit)->0);
    }
    assert forall|t: int, id: BindingId|
        0 <= t < now.len() && #[trigger] seeds_have(
            state.frames[t].ordered,
            id,
        ) implies used_inside_upto(nodes, now[t], id, n + 1) by {
        if t < was.len() {
            assert(now[t] == was[t]);
            if seeds_have(before.frames[t].ordered, id) {
                lemma_used_further(nodes, was[t], id, n, n + 1);
            } else {
                lemma_touches(visit, id);
                assert(touches(nodes[n], id));
                assert(was[last] == was[t]);
                assert(around(nodes, n).contains(was[t]));
            }
        }
    }
    assert forall|j: int, id: BindingId|
        0 <= j < n + 1 && begins(nodes[j]) && #[trigger] seeds_have(
            state.done[number_at(nodes, j)],
            id,
        ) implies used_inside_upto(nodes, j, id, n + 1) by {
        if j < n {
            lemma_numbers(nodes, j, n);
            assert(seeds_have(before.done[number_at(nodes, j)], id));
            lemma_used_further(nodes, j, id, n, n + 1);
        }
    }
}

proof fn lemma_all_used<'a>(
    nodes: Seq<Visit<'a>>,
    locals: Seq<Set<BindingId>>,
    globals: Set<BindingId>,
    n: int,
)
    requires
        0 <= n <= nodes.len(),
    ensures
        all_used(nodes, locals, globals, n),
    decreases n,
{
    if n > 0 {
        lemma_all_used(nodes, locals, globals, n - 1);
        if ends(nodes[n - 1]) && around(nodes, n - 1).len() > 0 {
            lemma_all_used_end(nodes, locals, globals, n - 1);
        } else {
            lemma_all_used_plain(nodes, locals, globals, n - 1);
        }
    }
}

/// Nothing is captured without a reason: what a function captures is used inside it.
pub proof fn law_captured_variables_are_used<'a>(
    program: &'a CheckedProgram,
    j: int,
    id: BindingId,
)
    requires
        0 <= j < program_walk(capture_walk(), program).len(),
        begins(program_walk(capture_walk(), program)[j]),
        captured(program, j, id),
    ensures
        used_inside(program_walk(capture_walk(), program), j, id),
{
    let nodes = program_walk(capture_walk(), program);
    let n = nodes.len() as int;
    assert(nodes.take(n) =~= nodes);
    lemma_all_used(nodes, function_locals(nodes), global_ids(program.items@), n);
}

} // verus!
