//! What the analysis of ownership promises about the runs of a graph.
//!
//! A run goes from node to node along the edges. A graph is accepted exactly when no run of it
//! touches a value in a way that a loan, a move or an earlier read forbids.

use crate::flow_graph::{AccessKind, Action, GraphView, NodeView, edges_ok};
use crate::loans::{
    active_at, binds_live, duplicate_fault, kind_of, live_into, live_loan, loan_flow, loans_fault,
    may_hold, reached, rebinds, source_in, source_of, successors_of, use_fault, use_path,
    uses_alias, writes_alias, written_through,
};
use crate::model::{BorrowKind, Place, place_root};
use crate::ownership_flow::{Fact, flow_clean, lent, node_fault, overlapped, overlaps, own_flow};
use crate::paths::{Flow, along, carried, edge_between, is_path};
use crate::place_laws::{law_disjoint_places_never_meet, may_meet};
use crate::place_relation::relation_of;
use crate::types::{BindingId, LoanId, lemma_no_fault};
use crate::value_categories::owns_dynamically;
use vstd::prelude::*;

verus! {

/// An edge leads from the one node to the other.
pub open spec fn follows<'a>(g: GraphView<'a>, a: int, b: int) -> bool {
    exists|k: int|
        0 <= k < g.nodes[a].successors.len() && #[trigger] g.nodes[a].successors[k] as int == b
}

/// Nodes that follow one another.
pub open spec fn is_route<'a>(g: GraphView<'a>, run: Seq<int>) -> bool {
    &&& run.len() > 0
    &&& forall|i: int| 0 <= i < run.len() ==> 0 <= #[trigger] run[i] < g.nodes.len()
    &&& forall|i: int|
        #![trigger run[i]]
        0 <= i < run.len() - 1 ==> follows(g, run[i], run[i + 1])
}

/// A route that starts where the graph does.
pub open spec fn is_run<'a>(g: GraphView<'a>, entry: int, run: Seq<int>) -> bool {
    is_route(g, run) && run[0] == entry
}

/// What happens at a moment of a run.
pub open spec fn deed<'a>(g: GraphView<'a>, run: Seq<int>, i: int) -> Action<'a> {
    g.nodes[run[i]].action
}

/// An alias gets a loan, whichever it is.
pub open spec fn binds<'a>(action: Action<'a>, alias: BindingId) -> bool {
    match action {
        Action::BindLoan(id, _) => id == alias,
        _ => false,
    }
}

/// An alias is used.
pub open spec fn uses<'a>(g: GraphView<'a>, action: Action<'a>, alias: BindingId) -> bool {
    match action {
        Action::Read(id, _, _) => id == alias && g.borrowed.contains(alias),
        _ => false,
    }
}

/// An alias is written through.
pub open spec fn uses_to_write<'a>(g: GraphView<'a>, action: Action<'a>, alias: BindingId) -> bool {
    match action {
        Action::Read(id, AccessKind::Write, _) => id == alias && g.borrowed.contains(alias),
        _ => false,
    }
}

/// An alias gets no loan between two moments.
pub open spec fn undisturbed<'a>(
    g: GraphView<'a>,
    run: Seq<int>,
    from: int,
    to: int,
    alias: BindingId,
) -> bool {
    forall|j: int| from <= j < to ==> !binds(#[trigger] deed(g, run, j), alias)
}

/// Before a moment the alias got the loan, and no other since.
pub open spec fn holds<'a>(
    g: GraphView<'a>,
    run: Seq<int>,
    p: int,
    alias: BindingId,
    loan: LoanId,
) -> bool {
    exists|i: int|
        0 <= i < p && #[trigger] deed(g, run, i) == Action::BindLoan(alias, loan) && undisturbed(
            g,
            run,
            i + 1,
            p,
            alias,
        )
}

/// From a moment on the alias is used before it gets a loan anew.
pub open spec fn used_later<'a>(g: GraphView<'a>, run: Seq<int>, p: int, alias: BindingId) -> bool {
    exists|q: int|
        p <= q < run.len() && uses(g, #[trigger] deed(g, run, q), alias) && undisturbed(
            g,
            run,
            p,
            q,
            alias,
        )
}

/// At a moment some alias holds the loan and is still used.
pub open spec fn in_force<'a>(g: GraphView<'a>, run: Seq<int>, p: int, loan: LoanId) -> bool {
    exists|alias: BindingId| #[trigger]
        holds(g, run, p, alias, loan) && used_later(g, run, p, alias)
}

/// A node lends a place under a loan.
pub open spec fn lends<'a>(g: GraphView<'a>, m: int, loan: LoanId, source: Place) -> bool {
    &&& 0 <= m < g.nodes.len()
    &&& match g.nodes[m].action {
        Action::Borrow { loan_id, source: place, .. } => loan_id == loan && *place == source,
        _ => false,
    }
}

/// In some run an alias is written through while it holds the loan.
pub open spec fn for_writing<'a>(g: GraphView<'a>, entry: int, loan: LoanId) -> bool {
    exists|run: Seq<int>, p: int, alias: BindingId|
        is_run(g, entry, run) && 0 <= p < run.len() && uses_to_write(g, deed(g, run, p), alias)
            && #[trigger] holds(g, run, p, alias, loan)
}

/// Some alias gets the loan and is used after it.
pub open spec fn put_to_use<'a>(g: GraphView<'a>, loan: LoanId) -> bool {
    exists|run: Seq<int>, alias: BindingId|
        is_route(g, run) && deed(g, run, 0) == Action::BindLoan(alias, loan) && #[trigger]
            used_later(g, run, 1, alias)
}

/// A variable gets a value that is its own.
pub open spec fn renews<'a>(action: Action<'a>, id: BindingId) -> bool {
    match action {
        Action::Declare(own) => own == id,
        Action::Reinitialize(own, _) => own == id,
        _ => false,
    }
}

/// The value of a variable is moved away.
pub open spec fn takes_away<'a>(action: Action<'a>, id: BindingId) -> bool {
    match action {
        Action::Move(Place::Local { binding_id, info, .. }, _) => *binding_id == id
            && owns_dynamically(info.ty@),
        _ => false,
    }
}

/// An owned value is read as it is, so that somebody else may know it.
pub open spec fn shows<'a>(g: GraphView<'a>, action: Action<'a>, id: BindingId) -> bool {
    match action {
        Action::Read(own, _, _) => own == id && !g.borrowed.contains(id) && g.eligible.contains(id),
        _ => false,
    }
}

/// A variable gets no new value between two moments.
pub open spec fn unrenewed<'a>(
    g: GraphView<'a>,
    run: Seq<int>,
    from: int,
    to: int,
    id: BindingId,
) -> bool {
    forall|j: int| from <= j < to ==> !renews(#[trigger] deed(g, run, j), id)
}

/// At a moment the value of a variable has been moved away.
pub open spec fn gone<'a>(g: GraphView<'a>, run: Seq<int>, p: int, id: BindingId) -> bool {
    exists|i: int|
        0 <= i < p && takes_away(#[trigger] deed(g, run, i), id) && unrenewed(g, run, i + 1, p, id)
}

/// At a moment the value of a variable has been read.
pub open spec fn shown<'a>(g: GraphView<'a>, run: Seq<int>, p: int, id: BindingId) -> bool {
    exists|i: int|
        0 <= i < p && shows(g, #[trigger] deed(g, run, i), id) && unrenewed(g, run, i + 1, p, id)
}

/// At a moment a loan is in force whose place is not known to be apart from another. With
/// `any_kind` off only loans count that somebody writes through.
pub open spec fn in_the_way<'a>(
    g: GraphView<'a>,
    entry: int,
    run: Seq<int>,
    p: int,
    place: Place,
    any_kind: bool,
) -> bool {
    exists|loan: LoanId, m: int, source: Place| #[trigger]
        lends(g, m, loan, source) && #[trigger] in_force(g, run, p, loan) && !(relation_of(
            source,
            place,
        ) is Disjoint) && (any_kind || for_writing(g, entry, loan))
}

/// At a moment a loan is in force of a place within a variable.
pub open spec fn lent_out<'a>(
    g: GraphView<'a>,
    entry: int,
    run: Seq<int>,
    p: int,
    id: BindingId,
    any_kind: bool,
) -> bool {
    exists|loan: LoanId, m: int, source: Place| #[trigger]
        lends(g, m, loan, source) && #[trigger] in_force(g, run, p, loan) && place_root(source)
            == id && (any_kind || for_writing(g, entry, loan))
}

/// Some run brings a loan for the alias to a node.
pub open spec fn supplied<'a>(g: GraphView<'a>, entry: int, n: int, alias: BindingId) -> bool {
    exists|run: Seq<int>, loan: LoanId|
        is_run(g, entry, run) && run.last() == n && #[trigger] holds(
            g,
            run,
            run.len() - 1,
            alias,
            loan,
        )
}

/// What happens at a moment of a run harms nothing.
pub open spec fn harmless<'a>(g: GraphView<'a>, entry: int, run: Seq<int>, p: int) -> bool {
    match deed(g, run, p) {
        Action::Read(id, access, _) => if g.borrowed.contains(id) {
            supplied(g, entry, run[p], id)
        } else {
            !gone(g, run, p, id) && !lent_out(g, entry, run, p, id, access is Write)
        },
        Action::CloneRead(source, _) => {
            &&& !gone(g, run, p, place_root(*source))
            &&& !in_the_way(g, entry, run, p, *source, false)
        },
        Action::Borrow { loan_id, source, .. } => {
            let root = place_root(*source);
            &&& g.owning.contains(root) || g.globals.contains(root)
            &&& !gone(g, run, p, root)
            &&& for_writing(g, entry, loan_id) ==> !shown(g, run, p, root)
            &&& put_to_use(g, loan_id) ==> !in_the_way(
                g,
                entry,
                run,
                p,
                *source,
                for_writing(g, entry, loan_id),
            )
        },
        Action::Write(target, _) => {
            &&& !gone(g, run, p, place_root(*target))
            &&& !in_the_way(g, entry, run, p, *target, true)
        },
        Action::Move(source, _) => {
            let root = place_root(*source);
            &&& g.owning.contains(root)
            &&& !in_the_way(g, entry, run, p, *source, true)
            &&& owns_dynamically(source.spec_info().ty@) ==> {
                &&& *source is Local
                &&& g.eligible.contains(root)
                &&& !shown(g, run, p, root)
                &&& !gone(g, run, p, root)
            }
        },
        Action::Reinitialize(id, _) => !lent_out(g, entry, run, p, id, true),
        Action::Nop => true,
        Action::BindLoan(_, _) => true,
        Action::Declare(_) => true,
    }
}

/// Nothing that happens in any run does harm.
pub open spec fn runs_are_harmless<'a>(g: GraphView<'a>, entry: int) -> bool {
    forall|run: Seq<int>, p: int|
        is_run(g, entry, run) && 0 <= p < run.len() ==> #[trigger] harmless(g, entry, run, p)
}

proof fn lemma_edge<'a>(g: GraphView<'a>, a: int, b: int)
    requires
        0 <= a < g.nodes.len(),
    ensures
        follows(g, a, b) <==> edge_between(successors_of(g), a, b),
{
    let list = g.nodes[a].successors;
    assert(successors_of(g)[a] == list);
    if follows(g, a, b) {
        let k = choose|k: int| 0 <= k < list.len() && #[trigger] list[k] as int == b;
        assert(list[k] == b as usize);
        assert(list.contains(b as usize));
    }
    if edge_between(successors_of(g), a, b) {
        let k = choose|k: int| 0 <= k < list.len() && list[k] == b as usize;
        assert(list[k] as int == b);
    }
}

/// The beginning of a run is a path.
proof fn lemma_path<'a>(g: GraphView<'a>, entry: int, run: Seq<int>, p: int)
    requires
        is_run(g, entry, run),
        0 <= p < run.len(),
    ensures
        is_path(successors_of(g), entry, run.take(p + 1)),
        run.take(p + 1).last() == run[p],
        reached(g, entry, run[p]),
{
    let path = run.take(p + 1);
    assert forall|i: int|
        #![trigger path[i]]
        0 <= i < path.len() - 1 implies edge_between(successors_of(g), path[i], path[i + 1]) by {
        assert(path[i] == run[i] && path[i + 1] == run[i + 1]);
        lemma_edge(g, run[i], run[i + 1]);
    }
    assert(path.last() == run[p]);
}

/// Every path is a run.
proof fn lemma_run<'a>(g: GraphView<'a>, entry: int, path: Seq<int>)
    requires
        edges_ok(g.nodes),
        is_path(successors_of(g), entry, path),
        0 <= entry < g.nodes.len(),
    ensures
        is_run(g, entry, path),
{
    assert forall|i: int| 0 <= i < path.len() implies 0 <= #[trigger] path[i] < g.nodes.len() by {
        if i > 0 {
            assert(edge_between(successors_of(g), path[i - 1], path[i - 1 + 1]));
            lemma_edge_end(g, path[i - 1], path[i]);
        }
    }
    assert forall|i: int|
        #![trigger path[i]]
        0 <= i < path.len() - 1 implies follows(g, path[i], path[i + 1]) by {
        lemma_edge(g, path[i], path[i + 1]);
    }
}

proof fn lemma_edge_end<'a>(g: GraphView<'a>, a: int, b: int)
    requires
        edges_ok(g.nodes),
        edge_between(successors_of(g), a, b),
    ensures
        0 <= a < g.nodes.len(),
        0 <= b < g.nodes.len(),
{
    let list = g.nodes[a].successors;
    assert(successors_of(g)[a] == list);
    let k = choose|k: int| 0 <= k < list.len() && list[k] == b as usize;
    assert(g.nodes[a].successors[k] < g.nodes.len());
}

/// What a node of a run adds, and no later one drops, is brought along.
proof fn lemma_brought<F>(flow: Flow<F>, run: Seq<int>, i: int, p: int, fact: F)
    requires
        0 <= i < p < run.len(),
        flow.adds[run[i]].contains(fact),
        forall|j: int| i < j < p ==> !flow.drops[#[trigger] run[j]].contains(fact),
    ensures
        along(flow, run.take(p + 1)).contains(fact),
    decreases p,
{
    let path = run.take(p + 1);
    assert(path.drop_last() =~= run.take(p));
    assert(path[path.len() - 2] == run[p - 1]);
    if i < p - 1 {
        lemma_brought(flow, run, i, p - 1, fact);
        assert(run.take(p - 1 + 1) =~= run.take(p));
        assert(!flow.drops[run[p - 1]].contains(fact));
    }
}

/// What a path brings along was added on it and not dropped since.
proof fn lemma_bringer<F>(flow: Flow<F>, path: Seq<int>, fact: F) -> (i: int)
    requires
        along(flow, path).contains(fact),
    ensures
        0 <= i < path.len() - 1,
        flow.adds[path[i]].contains(fact),
        forall|j: int| i < j < path.len() - 1 ==> !flow.drops[#[trigger] path[j]].contains(fact),
    decreases path.len(),
{
    let last = path.len() - 2;
    let less = path.drop_last();
    if flow.adds[path[last]].contains(fact) {
        last
    } else {
        let i = lemma_bringer(flow, less, fact);
        assert forall|j: int| i < j < path.len() - 1 implies !flow.drops[#[trigger] path[j]].contains(
            fact,
        ) by {
            if j < last {
                assert(less[j] == path[j]);
            }
        }
        i
    }
}

proof fn lemma_holds<'a>(
    g: GraphView<'a>,
    entry: int,
    run: Seq<int>,
    p: int,
    alias: BindingId,
    loan: LoanId,
)
    requires
        is_run(g, entry, run),
        0 <= p < run.len(),
        holds(g, run, p, alias, loan),
    ensures
        may_hold(g, entry, run[p], alias, loan),
{
    let flow = loan_flow(g);
    let i = choose|i: int|
        0 <= i < p && #[trigger] deed(g, run, i) == Action::BindLoan(alias, loan) && undisturbed(
            g,
            run,
            i + 1,
            p,
            alias,
        );
    assert(flow.adds[run[i]].contains((alias, loan)));
    assert forall|j: int| i < j < p implies !flow.drops[#[trigger] run[j]].contains(
        (alias, loan),
    ) by {
        assert(!binds(deed(g, run, j), alias));
    }
    lemma_path(g, entry, run, p);
    lemma_brought(flow, run, i, p, (alias, loan));
    assert(is_path(flow.successors, entry, run.take(p + 1)));
}

/// A loan that may be held is held in some run.
proof fn lemma_held<'a>(g: GraphView<'a>, entry: int, n: int, alias: BindingId, loan: LoanId) -> (run:
    Seq<int>)
    requires
        edges_ok(g.nodes),
        0 <= entry < g.nodes.len(),
        may_hold(g, entry, n, alias, loan),
    ensures
        is_run(g, entry, run),
        run.last() == n,
        holds(g, run, run.len() - 1, alias, loan),
{
    let flow = loan_flow(g);
    let path = choose|path: Seq<int>| #[trigger]
        is_path(flow.successors, entry, path) && path.last() == n && along(flow, path).contains(
            (alias, loan),
        );
    lemma_run(g, entry, path);
    let i = lemma_bringer(flow, path, (alias, loan));
    assert(deed(g, path, i) == Action::BindLoan(alias, loan));
    assert forall|j: int| i + 1 <= j < path.len() - 1 implies !binds(
        #[trigger] deed(g, path, j),
        alias,
    ) by {
        assert(!flow.drops[path[j]].contains((alias, loan)));
    }
    path
}

proof fn lemma_used<'a>(g: GraphView<'a>, run: Seq<int>, p: int, alias: BindingId)
    requires
        is_route(g, run),
        0 <= p < run.len(),
        used_later(g, run, p, alias),
    ensures
        live_into(g, run[p], alias),
{
    let q = choose|q: int|
        p <= q < run.len() && uses(g, #[trigger] deed(g, run, q), alias) && undisturbed(
            g,
            run,
            p,
            q,
            alias,
        );
    let path = run.subrange(p, q + 1);
    assert(path.last() == run[q]);
    assert(uses_alias(g, path.last(), alias));
    assert forall|i: int|
        #![trigger path[i]]
        0 <= i < path.len() - 1 implies edge_between(successors_of(g), path[i], path[i + 1])
        && !rebinds(g, path[i], alias) by {
        assert(path[i] == run[p + i] && path[i + 1] == run[p + i + 1]);
        lemma_edge(g, run[p + i], run[p + i + 1]);
        assert(follows(g, run[p + i], run[p + i + 1]));
        assert(!binds(deed(g, run, p + i), alias));
    }
    assert(use_path(g, path, alias) && path[0] == run[p]);
}

/// A way to a use is a route.
proof fn lemma_use_route<'a>(g: GraphView<'a>, path: Seq<int>, alias: BindingId)
    requires
        edges_ok(g.nodes),
        use_path(g, path, alias),
    ensures
        is_route(g, path),
        uses(g, deed(g, path, path.len() - 1), alias),
        undisturbed(g, path, 0, path.len() - 1, alias),
{
    assert forall|i: int| 0 <= i < path.len() implies 0 <= #[trigger] path[i] < g.nodes.len() by {
        if i < path.len() - 1 {
            assert(edge_between(successors_of(g), path[i], path[i + 1]));
            lemma_edge_end(g, path[i], path[i + 1]);
        }
    }
    assert forall|i: int|
        #![trigger path[i]]
        0 <= i < path.len() - 1 implies follows(g, path[i], path[i + 1]) by {
        lemma_edge(g, path[i], path[i + 1]);
    }
    assert forall|j: int| 0 <= j < path.len() - 1 implies !binds(
        #[trigger] deed(g, path, j),
        alias,
    ) by {
        assert(!rebinds(g, path[j], alias));
    }
}

proof fn lemma_in_force<'a>(g: GraphView<'a>, entry: int, run: Seq<int>, p: int, loan: LoanId)
    requires
        is_run(g, entry, run),
        0 <= p < run.len(),
        in_force(g, run, p, loan),
    ensures
        active_at(g, entry, run[p], loan),
{
    let alias = choose|alias: BindingId| #[trigger]
        holds(g, run, p, alias, loan) && used_later(g, run, p, alias);
    lemma_holds(g, entry, run, p, alias, loan);
    lemma_used(g, run, p, alias);
}

/// A loan that is still to be used at a node is in force there in some run.
proof fn lemma_active<'a>(g: GraphView<'a>, entry: int, n: int, loan: LoanId) -> (r: (Seq<int>, int))
    requires
        edges_ok(g.nodes),
        0 <= entry < g.nodes.len(),
        active_at(g, entry, n, loan),
    ensures
        is_run(g, entry, r.0),
        0 <= r.1 < r.0.len(),
        r.0[r.1] == n,
        in_force(g, r.0, r.1, loan),
{
    let alias = choose|alias: BindingId| #[trigger]
        live_into(g, n, alias) && may_hold(g, entry, n, alias, loan);
    let head = lemma_held(g, entry, n, alias, loan);
    let tail = choose|path: Seq<int>| #[trigger] use_path(g, path, alias) && path[0] == n;
    lemma_use_route(g, tail, alias);
    let p = head.len() - 1;
    let run = head.drop_last() + tail;
    assert(forall|i: int| 0 <= i < p ==> run[i] == head[i]);
    assert(forall|i: int| p <= i < run.len() ==> run[i] == tail[i - p]);
    assert(run[p] == head[p]);
    assert forall|i: int| 0 <= i < run.len() implies 0 <= #[trigger] run[i] < g.nodes.len() by {
        if i < p {
            assert(run[i] == head[i]);
        } else {
            assert(run[i] == tail[i - p]);
        }
    }
    assert forall|i: int|
        #![trigger run[i]]
        0 <= i < run.len() - 1 implies follows(g, run[i], run[i + 1]) by {
        if i < p {
            assert(run[i] == head[i] && run[i + 1] == head[i + 1]);
        } else {
            assert(run[i] == tail[i - p] && run[i + 1] == tail[i - p + 1]);
        }
    }
    assert(run[0] == entry) by {
        assert(head[0] == entry);
    }
    assert(is_run(g, entry, run));
    let i = choose|i: int|
        0 <= i < p && #[trigger] deed(g, head, i) == Action::BindLoan(alias, loan) && undisturbed(
            g,
            head,
            i + 1,
            p,
            alias,
        );
    assert(deed(g, run, i) == Action::BindLoan(alias, loan));
    assert forall|j: int| i + 1 <= j < p implies !binds(#[trigger] deed(g, run, j), alias) by {
        assert(!binds(deed(g, head, j), alias));
    }
    assert(holds(g, run, p, alias, loan));
    let q = run.len() - 1;
    assert(deed(g, run, q) == deed(g, tail, tail.len() - 1));
    assert forall|j: int| p <= j < q implies !binds(#[trigger] deed(g, run, j), alias) by {
        assert(!binds(deed(g, tail, j - p), alias));
    }
    assert(used_later(g, run, p, alias));
    (run, p)
}

proof fn lemma_for_writing<'a>(g: GraphView<'a>, entry: int, loan: LoanId)
    requires
        edges_ok(g.nodes),
        0 <= entry < g.nodes.len(),
    ensures
        for_writing(g, entry, loan) <==> kind_of(g, entry, loan) == BorrowKind::Write,
{
    if for_writing(g, entry, loan) {
        let (run, p, alias) = choose|run: Seq<int>, p: int, alias: BindingId|
            is_run(g, entry, run) && 0 <= p < run.len() && uses_to_write(g, deed(g, run, p), alias)
                && #[trigger] holds(g, run, p, alias, loan);
        lemma_holds(g, entry, run, p, alias, loan);
        assert(writes_alias(g, run[p], alias));
    }
    if written_through(g, entry, loan) {
        let (i, alias) = choose|i: int, binding: BindingId|
            #![trigger writes_alias(g, i, binding)]
            writes_alias(g, i, binding) && may_hold(g, entry, i, binding, loan);
        let run = lemma_held(g, entry, i, alias, loan);
        assert(uses_to_write(g, deed(g, run, run.len() - 1), alias));
        assert(holds(g, run, run.len() - 1, alias, loan));
    }
}

proof fn lemma_put_to_use<'a>(g: GraphView<'a>, loan: LoanId)
    requires
        edges_ok(g.nodes),
    ensures
        put_to_use(g, loan) <==> live_loan(g, loan),
{
    if put_to_use(g, loan) {
        let (run, alias) = choose|run: Seq<int>, alias: BindingId|
            is_route(g, run) && deed(g, run, 0) == Action::BindLoan(alias, loan) && #[trigger]
                used_later(g, run, 1, alias);
        assert(run.len() > 1);
        lemma_used(g, run, 1, alias);
        let i: int = 0;
        lemma_edge(g, run[i], run[i + 1]);
        assert(follows(g, run[i], run[i + 1]));
        assert(binds_live(g, run[0], loan));
    }
    if live_loan(g, loan) {
        let i = choose|i: int| #[trigger] binds_live(g, i, loan);
        if let Action::BindLoan(alias, _) = g.nodes[i].action {
            let at = choose|k: int|
                0 <= k < g.nodes[i].successors.len() && #[trigger] live_into(
                    g,
                    g.nodes[i].successors[k] as int,
                    alias,
                );
            let next = g.nodes[i].successors[at] as int;
            let tail = choose|path: Seq<int>| #[trigger] use_path(g, path, alias) && path[0] == next;
            lemma_use_route(g, tail, alias);
            let run = seq![i] + tail;
            assert(forall|k: int| 1 <= k < run.len() ==> run[k] == tail[k - 1]);
            assert forall|k: int|
                #![trigger run[k]]
                0 <= k < run.len() - 1 implies follows(g, run[k], run[k + 1]) by {
                if k == 0 {
                    assert(g.nodes[i].successors[at] as int == next);
                    assert(follows(g, i, next));
                    assert(run[1] == tail[0]);
                } else {
                    assert(run[k] == tail[k - 1] && run[k + 1] == tail[k - 1 + 1]);
                }
            }
            assert forall|k: int| 0 <= k < run.len() implies 0 <= #[trigger] run[k]
                < g.nodes.len() by {
                if k > 0 {
                    assert(run[k] == tail[k - 1]);
                }
            }
            assert(is_route(g, run));
            assert(deed(g, run, 0) == Action::BindLoan(alias, loan));
            let q = run.len() - 1;
            assert(deed(g, run, q) == deed(g, tail, tail.len() - 1));
            assert forall|j: int| 1 <= j < q implies !binds(#[trigger] deed(g, run, j), alias) by {
                assert(!binds(deed(g, tail, j - 1), alias));
            }
            assert(used_later(g, run, 1, alias));
        }
    }
}

proof fn lemma_gone<'a>(g: GraphView<'a>, entry: int, run: Seq<int>, p: int, id: BindingId)
    requires
        is_run(g, entry, run),
        0 <= p < run.len(),
    ensures
        gone(g, run, p, id) ==> carried(own_flow(g), entry, run[p]).contains(Fact::Moved(id)),
        shown(g, run, p, id) ==> carried(own_flow(g), entry, run[p]).contains(Fact::Exposed(id)),
{
    let flow = own_flow(g);
    lemma_path(g, entry, run, p);
    assert(is_path(flow.successors, entry, run.take(p + 1)));
    if gone(g, run, p, id) {
        let i = choose|i: int|
            0 <= i < p && takes_away(#[trigger] deed(g, run, i), id) && unrenewed(
                g,
                run,
                i + 1,
                p,
                id,
            );
        assert(flow.adds[run[i]].contains(Fact::Moved(id)));
        assert forall|j: int| i < j < p implies !flow.drops[#[trigger] run[j]].contains(
            Fact::Moved(id),
        ) by {
            assert(!renews(deed(g, run, j), id));
        }
        lemma_brought(flow, run, i, p, Fact::Moved(id));
    }
    if shown(g, run, p, id) {
        let i = choose|i: int|
            0 <= i < p && shows(g, #[trigger] deed(g, run, i), id) && unrenewed(
                g,
                run,
                i + 1,
                p,
                id,
            );
        assert(flow.adds[run[i]].contains(Fact::Exposed(id)));
        assert forall|j: int| i < j < p implies !flow.drops[#[trigger] run[j]].contains(
            Fact::Exposed(id),
        ) by {
            assert(!renews(deed(g, run, j), id));
        }
        lemma_brought(flow, run, i, p, Fact::Exposed(id));
    }
}

/// What may be the matter with a variable at a node is so in some run.
proof fn lemma_was_gone<'a>(g: GraphView<'a>, entry: int, n: int, fact: Fact) -> (run: Seq<int>)
    requires
        edges_ok(g.nodes),
        0 <= entry < g.nodes.len(),
        carried(own_flow(g), entry, n).contains(fact),
    ensures
        is_run(g, entry, run),
        run.last() == n,
        match fact {
            Fact::Moved(id) => gone(g, run, run.len() - 1, id),
            Fact::Exposed(id) => shown(g, run, run.len() - 1, id),
        },
{
    let flow = own_flow(g);
    let path = choose|path: Seq<int>| #[trigger]
        is_path(flow.successors, entry, path) && path.last() == n && along(flow, path).contains(
            fact,
        );
    lemma_run(g, entry, path);
    let i = lemma_bringer(flow, path, fact);
    let p = path.len() - 1;
    match fact {
        Fact::Moved(id) => {
            assert(takes_away(deed(g, path, i), id));
            assert forall|j: int| i + 1 <= j < p implies !renews(
                #[trigger] deed(g, path, j),
                id,
            ) by {
                assert(!flow.drops[path[j]].contains(fact));
            }
        },
        Fact::Exposed(id) => {
            assert(shows(g, deed(g, path, i), id));
            assert forall|j: int| i + 1 <= j < p implies !renews(
                #[trigger] deed(g, path, j),
                id,
            ) by {
                assert(!flow.drops[path[j]].contains(fact));
            }
        },
    }
    path
}

/// No two nodes lend under the same loan.
pub open spec fn loans_are_distinct<'a>(g: GraphView<'a>) -> bool {
    forall|m: int, n: int, loan: LoanId, a: Place, b: Place|
        #![trigger lends(g, m, loan, a), lends(g, n, loan, b)]
        lends(g, m, loan, a) && lends(g, n, loan, b) ==> m == n
}

proof fn lemma_lender<'a>(nodes: Seq<NodeView<'a>>, loan: LoanId) -> (m: int)
    requires
        source_in(nodes, loan) is Some,
    ensures
        0 <= m < nodes.len(),
        nodes[m].action matches Action::Borrow { loan_id, source, .. } && loan_id == loan && Some(
            source,
        ) == source_in(nodes, loan),
    decreases nodes.len(),
{
    match nodes.last().action {
        Action::Borrow { loan_id, source, .. } if loan_id == loan => nodes.len() - 1,
        _ => lemma_lender(nodes.drop_last(), loan),
    }
}

proof fn lemma_lent_under<'a>(nodes: Seq<NodeView<'a>>, loan: LoanId, m: int)
    requires
        0 <= m < nodes.len(),
        nodes[m].action matches Action::Borrow { loan_id, .. } && loan_id == loan,
    ensures
        source_in(nodes, loan) is Some,
    decreases nodes.len(),
{
    match nodes.last().action {
        Action::Borrow { loan_id, .. } if loan_id == loan => {},
        _ => lemma_lent_under(nodes.drop_last(), loan, m),
    }
}

proof fn lemma_source<'a>(g: GraphView<'a>, m: int, loan: LoanId, source: Place)
    requires
        loans_are_distinct(g),
        lends(g, m, loan, source),
    ensures
        source_of(g, loan) matches Some(place) && *place == source,
{
    lemma_lent_under(g.nodes, loan, m);
    let n = lemma_lender(g.nodes, loan);
    assert(lends(g, n, loan, *(source_of(g, loan)->0)));
}

/// A graph whose loans are in order creates each loan once, and whoever writes through an alias
/// may hold a loan there, all of which the graph creates.
pub proof fn law_loans_in_order<'a>(g: GraphView<'a>, entry: int)
    requires
        edges_ok(g.nodes),
        0 <= entry < g.nodes.len(),
        loans_fault(g, entry) is None,
    ensures
        loans_are_distinct(g),
        forall|run: Seq<int>, p: int, alias: BindingId, loan: LoanId|
            is_run(g, entry, run) && 0 <= p < run.len() && uses_to_write(g, deed(g, run, p), alias)
                && #[trigger] holds(g, run, p, alias, loan) ==> exists|m: int, source: Place|
                lends(g, m, loan, source),
        forall|n: int, alias: BindingId|
            0 <= n < g.nodes.len() && uses_to_write(g, g.nodes[n].action, alias) ==> #[trigger]
                supplied(g, entry, n, alias),
{
    let repeats = Seq::new(g.nodes.len(), |i: int| duplicate_fault(g, i));
    let misuses = Seq::new(g.nodes.len(), |i: int| use_fault(g, entry, i));
    lemma_no_fault(repeats);
    lemma_no_fault(misuses);
    assert forall|m: int, n: int, loan: LoanId, a: Place, b: Place|
        #![trigger lends(g, m, loan, a), lends(g, n, loan, b)]
        lends(g, m, loan, a) && lends(g, n, loan, b) implies m == n by {
        if m < n {
            assert(repeats[n] is None);
            assert(g.nodes.take(n)[m] == g.nodes[m]);
            lemma_lent_under(g.nodes.take(n), loan, m);
        } else if n < m {
            assert(repeats[m] is None);
            assert(g.nodes.take(m)[n] == g.nodes[n]);
            lemma_lent_under(g.nodes.take(m), loan, n);
        }
    }
    assert forall|run: Seq<int>, p: int, alias: BindingId, loan: LoanId|
        is_run(g, entry, run) && 0 <= p < run.len() && uses_to_write(g, deed(g, run, p), alias)
            && #[trigger] holds(g, run, p, alias, loan) implies exists|m: int, source: Place|
        lends(g, m, loan, source) by {
        lemma_holds(g, entry, run, p, alias, loan);
        assert(misuses[run[p]] is None);
        let m = lemma_lender(g.nodes, loan);
        assert(lends(g, m, loan, *(source_of(g, loan)->0)));
    }
    assert forall|n: int, alias: BindingId|
        0 <= n < g.nodes.len() && uses_to_write(g, g.nodes[n].action, alias) implies #[trigger]
    supplied(g, entry, n, alias) by {
        assert(misuses[n] is None);
        let loan = choose|loan: LoanId| #[trigger] may_hold(g, entry, n, alias, loan);
        let run = lemma_held(g, entry, n, alias, loan);
        assert(holds(g, run, run.len() - 1, alias, loan));
    }
}

proof fn lemma_in_the_way<'a>(
    g: GraphView<'a>,
    entry: int,
    run: Seq<int>,
    p: int,
    place: Place,
    any_kind: bool,
)
    requires
        edges_ok(g.nodes),
        loans_are_distinct(g),
        is_run(g, entry, run),
        0 <= p < run.len(),
        in_the_way(g, entry, run, p, place, any_kind),
    ensures
        overlapped(g, entry, run[p], place, any_kind),
{
    let (loan, m, source) = choose|loan: LoanId, m: int, source: Place| #[trigger]
        lends(g, m, loan, source) && #[trigger] in_force(g, run, p, loan) && !(relation_of(
            source,
            place,
        ) is Disjoint) && (any_kind || for_writing(g, entry, loan));
    lemma_in_force(g, entry, run, p, loan);
    lemma_source(g, m, loan, source);
    lemma_for_writing(g, entry, loan);
    assert(overlaps(g, loan, place));
}

proof fn lemma_lent_out<'a>(
    g: GraphView<'a>,
    entry: int,
    run: Seq<int>,
    p: int,
    id: BindingId,
    any_kind: bool,
)
    requires
        edges_ok(g.nodes),
        loans_are_distinct(g),
        is_run(g, entry, run),
        0 <= p < run.len(),
        lent_out(g, entry, run, p, id, any_kind),
    ensures
        lent(g, entry, run[p], id, any_kind),
{
    let (loan, m, source) = choose|loan: LoanId, m: int, source: Place| #[trigger]
        lends(g, m, loan, source) && #[trigger] in_force(g, run, p, loan) && place_root(source)
            == id && (any_kind || for_writing(g, entry, loan));
    lemma_in_force(g, entry, run, p, loan);
    lemma_source(g, m, loan, source);
    lemma_for_writing(g, entry, loan);
}

/// A graph that is accepted has only harmless runs: nothing that was moved away is read or
/// written, no loan is in force of what is overwritten, moved or given a new value, no loan for
/// writing of what is read or lent, and so on for each thing that a node can do.
pub proof fn law_accepted_graphs_run_harmlessly<'a>(g: GraphView<'a>, entry: int)
    requires
        edges_ok(g.nodes),
        0 <= entry < g.nodes.len(),
        loans_are_distinct(g),
        flow_clean(g, entry),
    ensures
        runs_are_harmless(g, entry),
{
    assert forall|run: Seq<int>, p: int|
        is_run(g, entry, run) && 0 <= p < run.len() implies #[trigger] harmless(
        g,
        entry,
        run,
        p,
    ) by {
        lemma_harmless(g, entry, run, p);
    }
}

proof fn lemma_harmless<'a>(g: GraphView<'a>, entry: int, run: Seq<int>, p: int)
    requires
        edges_ok(g.nodes),
        0 <= entry < g.nodes.len(),
        loans_are_distinct(g),
        flow_clean(g, entry),
        is_run(g, entry, run),
        0 <= p < run.len(),
    ensures
        harmless(g, entry, run, p),
{
    let n = run[p];
    lemma_path(g, entry, run, p);
    let facts = carried(own_flow(g), entry, n);
    assert(node_fault(g, entry, n, facts) is None);
    match deed(g, run, p) {
        Action::Read(id, access, _) => {
            lemma_gone(g, entry, run, p, id);
            if g.borrowed.contains(id) {
                let loan = choose|loan: LoanId| #[trigger] may_hold(g, entry, n, id, loan);
                let other = lemma_held(g, entry, n, id, loan);
                assert(holds(g, other, other.len() - 1, id, loan));
            } else if lent_out(g, entry, run, p, id, access is Write) {
                lemma_lent_out(g, entry, run, p, id, access is Write);
            }
        },
        Action::CloneRead(source, _) => {
            lemma_gone(g, entry, run, p, place_root(*source));
            if in_the_way(g, entry, run, p, *source, false) {
                lemma_in_the_way(g, entry, run, p, *source, false);
            }
        },
        Action::Borrow { loan_id, source, .. } => {
            lemma_gone(g, entry, run, p, place_root(*source));
            lemma_for_writing(g, entry, loan_id);
            lemma_put_to_use(g, loan_id);
            if in_the_way(g, entry, run, p, *source, for_writing(g, entry, loan_id)) {
                lemma_in_the_way(g, entry, run, p, *source, for_writing(g, entry, loan_id));
            }
        },
        Action::Write(target, _) => {
            lemma_gone(g, entry, run, p, place_root(*target));
            if in_the_way(g, entry, run, p, *target, true) {
                lemma_in_the_way(g, entry, run, p, *target, true);
            }
        },
        Action::Move(source, _) => {
            lemma_gone(g, entry, run, p, place_root(*source));
            if in_the_way(g, entry, run, p, *source, true) {
                lemma_in_the_way(g, entry, run, p, *source, true);
            }
        },
        Action::Reinitialize(id, _) => {
            if lent_out(g, entry, run, p, id, true) {
                lemma_lent_out(g, entry, run, p, id, true);
            }
        },
        _ => {},
    }
}

/// A loan in force that overlaps a place stands in the way in some run.
proof fn lemma_was_in_the_way<'a>(
    g: GraphView<'a>,
    entry: int,
    n: int,
    place: Place,
    any_kind: bool,
) -> (r: (Seq<int>, int))
    requires
        edges_ok(g.nodes),
        0 <= entry < g.nodes.len(),
        overlapped(g, entry, n, place, any_kind),
    ensures
        is_run(g, entry, r.0),
        0 <= r.1 < r.0.len(),
        r.0[r.1] == n,
        in_the_way(g, entry, r.0, r.1, place, any_kind),
{
    let loan = choose|loan: LoanId| #[trigger]
        active_at(g, entry, n, loan) && overlaps(g, loan, place) && (any_kind || kind_of(
            g,
            entry,
            loan,
        ) == BorrowKind::Write);
    let (run, p) = lemma_active(g, entry, n, loan);
    let m = lemma_lender(g.nodes, loan);
    lemma_for_writing(g, entry, loan);
    assert(lends(g, m, loan, *(source_of(g, loan)->0)));
    assert(in_force(g, run, p, loan));
    (run, p)
}

proof fn lemma_was_lent_out<'a>(
    g: GraphView<'a>,
    entry: int,
    n: int,
    id: BindingId,
    any_kind: bool,
) -> (r: (Seq<int>, int))
    requires
        edges_ok(g.nodes),
        0 <= entry < g.nodes.len(),
        lent(g, entry, n, id, any_kind),
    ensures
        is_run(g, entry, r.0),
        0 <= r.1 < r.0.len(),
        r.0[r.1] == n,
        lent_out(g, entry, r.0, r.1, id, any_kind),
{
    let loan = choose|loan: LoanId| #[trigger]
        active_at(g, entry, n, loan) && (source_of(g, loan) matches Some(source) && place_root(
            *source,
        ) == id) && (any_kind || kind_of(g, entry, loan) == BorrowKind::Write);
    let (run, p) = lemma_active(g, entry, n, loan);
    let m = lemma_lender(g.nodes, loan);
    lemma_for_writing(g, entry, loan);
    assert(lends(g, m, loan, *(source_of(g, loan)->0)));
    assert(in_force(g, run, p, loan));
    (run, p)
}

/// A node that is found to be wrong does harm in some run.
proof fn lemma_harm<'a>(g: GraphView<'a>, entry: int, n: int) -> (r: (Seq<int>, int))
    requires
        edges_ok(g.nodes),
        0 <= entry < g.nodes.len(),
        0 <= n < g.nodes.len(),
        reached(g, entry, n),
        node_fault(g, entry, n, carried(own_flow(g), entry, n)) is Some,
    ensures
        is_run(g, entry, r.0),
        0 <= r.1 < r.0.len(),
        !harmless(g, entry, r.0, r.1),
{
    let facts = carried(own_flow(g), entry, n);
    let path = choose|path: Seq<int>| #[trigger]
        is_path(successors_of(g), entry, path) && path.last() == n;
    lemma_run(g, entry, path);
    let any = (path, path.len() - 1);
    match g.nodes[n].action {
        Action::Read(id, access, _) => {
            if g.borrowed.contains(id) {
                if supplied(g, entry, n, id) {
                    let (run, loan) = choose|run: Seq<int>, loan: LoanId|
                        is_run(g, entry, run) && run.last() == n && #[trigger] holds(
                            g,
                            run,
                            run.len() - 1,
                            id,
                            loan,
                        );
                    lemma_holds(g, entry, run, run.len() - 1, id, loan);
                }
                any
            } else if facts.contains(Fact::Moved(id)) {
                let run = lemma_was_gone(g, entry, n, Fact::Moved(id));
                (run, run.len() - 1)
            } else {
                lemma_was_lent_out(g, entry, n, id, access is Write)
            }
        },
        Action::CloneRead(source, _) => {
            let root = place_root(*source);
            if facts.contains(Fact::Moved(root)) {
                let run = lemma_was_gone(g, entry, n, Fact::Moved(root));
                (run, run.len() - 1)
            } else {
                lemma_was_in_the_way(g, entry, n, *source, false)
            }
        },
        Action::Borrow { loan_id, source, .. } => {
            let root = place_root(*source);
            lemma_for_writing(g, entry, loan_id);
            lemma_put_to_use(g, loan_id);
            if !g.owning.contains(root) && !g.globals.contains(root) {
                any
            } else if facts.contains(Fact::Moved(root)) {
                let run = lemma_was_gone(g, entry, n, Fact::Moved(root));
                (run, run.len() - 1)
            } else if for_writing(g, entry, loan_id) && facts.contains(Fact::Exposed(root)) {
                let run = lemma_was_gone(g, entry, n, Fact::Exposed(root));
                (run, run.len() - 1)
            } else {
                lemma_was_in_the_way(g, entry, n, *source, for_writing(g, entry, loan_id))
            }
        },
        Action::Write(target, _) => {
            let root = place_root(*target);
            if facts.contains(Fact::Moved(root)) {
                let run = lemma_was_gone(g, entry, n, Fact::Moved(root));
                (run, run.len() - 1)
            } else {
                lemma_was_in_the_way(g, entry, n, *target, true)
            }
        },
        Action::Move(source, _) => {
            let root = place_root(*source);
            if !g.owning.contains(root) {
                any
            } else if overlapped(g, entry, n, *source, true) {
                lemma_was_in_the_way(g, entry, n, *source, true)
            } else if !(*source is Local) || !g.eligible.contains(root) {
                any
            } else if facts.contains(Fact::Exposed(root)) {
                let run = lemma_was_gone(g, entry, n, Fact::Exposed(root));
                (run, run.len() - 1)
            } else {
                let run = lemma_was_gone(g, entry, n, Fact::Moved(root));
                (run, run.len() - 1)
            }
        },
        Action::Reinitialize(id, _) => lemma_was_lent_out(g, entry, n, id, true),
        _ => any,
    }
}

/// Nothing is refused without a reason: a graph whose runs are all harmless is accepted.
pub proof fn law_harmless_graphs_are_accepted<'a>(g: GraphView<'a>, entry: int)
    requires
        edges_ok(g.nodes),
        0 <= entry < g.nodes.len(),
        runs_are_harmless(g, entry),
    ensures
        flow_clean(g, entry),
{
    assert forall|n: int| 0 <= n < g.nodes.len() && #[trigger] reached(g, entry, n) implies node_fault(
        g,
        entry,
        n,
        carried(own_flow(g), entry, n),
    ) is None by {
        if node_fault(g, entry, n, carried(own_flow(g), entry, n)) is Some {
            let (run, p) = lemma_harm(g, entry, n);
            assert(harmless(g, entry, run, p));
        }
    }
}

/// In an accepted graph nobody overwrites a place, moves it away or gives its variable a new
/// value while a loan of storage that may be shared with it is held by an alias that is used
/// later, whether the alias reads or writes.
pub proof fn law_lent_storage_is_left_alone<'a>(
    g: GraphView<'a>,
    entry: int,
    run: Seq<int>,
    p: int,
    m: int,
    loan: LoanId,
    source: Place,
)
    requires
        edges_ok(g.nodes),
        0 <= entry < g.nodes.len(),
        loans_are_distinct(g),
        flow_clean(g, entry),
        is_run(g, entry, run),
        0 <= p < run.len(),
        lends(g, m, loan, source),
        in_force(g, run, p, loan),
    ensures
        match deed(g, run, p) {
            Action::Write(target, _) => !may_meet(source, *target),
            Action::Move(place, _) => !may_meet(source, *place),
            Action::Reinitialize(id, _) => place_root(source) != id,
            Action::Read(id, AccessKind::Write, _) => !g.borrowed.contains(id) ==> place_root(
                source,
            ) != id,
            Action::Borrow { loan_id, source: place, .. } => for_writing(g, entry, loan_id)
                && put_to_use(g, loan_id) ==> !may_meet(source, *place),
            _ => true,
        },
{
    lemma_harmless(g, entry, run, p);
    match deed(g, run, p) {
        Action::Write(target, _) => {
            assert(relation_of(source, *target) is Disjoint);
            law_disjoint_places_never_meet(source, *target);
        },
        Action::Move(place, _) => {
            assert(relation_of(source, *place) is Disjoint);
            law_disjoint_places_never_meet(source, *place);
        },
        Action::Borrow { loan_id, source: place, .. } => {
            if for_writing(g, entry, loan_id) && put_to_use(g, loan_id) {
                assert(relation_of(source, *place) is Disjoint);
                law_disjoint_places_never_meet(source, *place);
            }
        },
        _ => {},
    }
}

/// In an accepted graph nobody reads, copies or lends what an alias is written through for, as
/// long as that alias is used later.
pub proof fn law_written_storage_is_not_read<'a>(
    g: GraphView<'a>,
    entry: int,
    run: Seq<int>,
    p: int,
    m: int,
    loan: LoanId,
    source: Place,
)
    requires
        edges_ok(g.nodes),
        0 <= entry < g.nodes.len(),
        loans_are_distinct(g),
        flow_clean(g, entry),
        is_run(g, entry, run),
        0 <= p < run.len(),
        lends(g, m, loan, source),
        in_force(g, run, p, loan),
        for_writing(g, entry, loan),
    ensures
        match deed(g, run, p) {
            Action::Read(id, _, _) => !g.borrowed.contains(id) ==> place_root(source) != id,
            Action::CloneRead(place, _) => !may_meet(source, *place),
            Action::Borrow { loan_id, source: place, .. } => put_to_use(g, loan_id) ==> !may_meet(
                source,
                *place,
            ),
            _ => true,
        },
{
    lemma_harmless(g, entry, run, p);
    match deed(g, run, p) {
        Action::CloneRead(place, _) => {
            assert(relation_of(source, *place) is Disjoint);
            law_disjoint_places_never_meet(source, *place);
        },
        Action::Borrow { loan_id, source: place, .. } => {
            if put_to_use(g, loan_id) {
                assert(relation_of(source, *place) is Disjoint);
                law_disjoint_places_never_meet(source, *place);
            }
        },
        _ => {},
    }
}

} // verus!
