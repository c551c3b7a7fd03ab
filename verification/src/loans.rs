//! Which loans an alias may hold, and which aliases are still used.

use crate::flow_graph::{AccessKind, Action, GraphBuilder, GraphView, NodeView, edges_ok, graph_ok};
use crate::model::{BorrowKind, Place};
use crate::paths::{
    Flow, along, arrives, carried, edge_between, flow_ok, is_path, joined, lemma_room_shrinks,
    lemma_room_update, lemma_solved, lemma_spread_room, lemma_work_starts, lemma_work_step, passes,
    room, settled_at, solved, spread, stays_within, working,
};
use crate::sets::{LoanSet, PairSet, VarSet, lemma_push_to_set};
use crate::types::{
    AliasResult, BindingId, ErrorView, LoanId, broken_at, broken_invariant, error, fault_of,
    first_fault, lemma_first_fault_at, lemma_no_fault,
};
use std::collections::VecDeque;
use vstd::prelude::*;

verus! {

/// The edges of a graph.
pub open spec fn successors_of<'a>(g: GraphView<'a>) -> Seq<Seq<usize>> {
    Seq::new(g.nodes.len(), |i: int| g.nodes[i].successors)
}

pub open spec fn bound_by<'a>(action: Action<'a>) -> Set<(BindingId, LoanId)> {
    match action {
        Action::BindLoan(binding, loan_id) => set![(binding, loan_id)],
        _ => Set::empty(),
    }
}

pub open spec fn released_by<'a>(action: Action<'a>) -> Set<(BindingId, LoanId)> {
    match action {
        Action::BindLoan(binding, _) => Set::new(|pair: (BindingId, LoanId)| pair.0 == binding),
        _ => Set::empty(),
    }
}

/// The loans that aliases hold: to make a variable an alias under a loan takes away the loans
/// that it held before.
pub open spec fn loan_flow<'a>(g: GraphView<'a>) -> Flow<(BindingId, LoanId)> {
    Flow {
        successors: successors_of(g),
        adds: Seq::new(g.nodes.len(), |i: int| bound_by(g.nodes[i].action)),
        drops: Seq::new(g.nodes.len(), |i: int| released_by(g.nodes[i].action)),
    }
}

/// Some path leads from the entry to the node.
pub open spec fn reached<'a>(g: GraphView<'a>, entry: int, node: int) -> bool {
    arrives(successors_of(g), entry, node)
}

/// A variable may hold a loan on the way into a node.
pub open spec fn may_hold<'a>(
    g: GraphView<'a>,
    entry: int,
    node: int,
    binding: BindingId,
    loan: LoanId,
) -> bool {
    carried(loan_flow(g), entry, node).contains((binding, loan))
}

/// The mathematical value of what is known at the nodes.
pub open spec fn pair_views(found: Seq<Option<PairSet>>) -> Seq<Option<Set<(BindingId, LoanId)>>> {
    found.map_values(
        |known: Option<PairSet>|
            match known {
                None => None::<Set<(BindingId, LoanId)>>,
                Some(pairs) => Some(pairs@),
            },
    )
}

/// All pairs that the graph can produce.
pub open spec fn all_pairs<'a>(g: GraphView<'a>) -> Set<(BindingId, LoanId)> {
    Seq::new(
        g.nodes.len(),
        |i: int|
            match g.nodes[i].action {
                Action::BindLoan(binding, loan_id) => (binding, loan_id),
                _ => (BindingId(0), LoanId(0)),
            },
    ).to_set()
}

pub proof fn lemma_flow_ok<'a>(g: GraphView<'a>)
    requires
        edges_ok(g.nodes),
    ensures
        flow_ok(loan_flow(g)),
{
    let flow = loan_flow(g);
    assert forall|i: int, k: int|
        #![trigger flow.successors[i][k]]
        0 <= i < flow.successors.len() && 0 <= k
            < flow.successors[i].len() implies flow.successors[i][k] < flow.successors.len() by {
        assert(g.nodes[i].successors[k] < g.nodes.len());
    }
}

/// Adds loans to those that aliases may hold; says whether that made a difference.
pub fn join_reaching(target: &mut PairSet, source: &PairSet) -> (r: bool)
    ensures
        final(target)@ == old(target)@.union(source@),
        r == !source@.subset_of(old(target)@),
{
    target.absorb(source)
}

/// Hands on loans to the nodes that follow.
fn hand_on(
    inputs: &mut Vec<Option<PairSet>>,
    queue: &mut VecDeque<usize>,
    to: &Vec<usize>,
    state: &PairSet,
)
    requires
        forall|k: int| 0 <= k < to@.len() ==> (#[trigger] to@[k]) < old(inputs)@.len(),
    ensures
        (pair_views(final(inputs)@), final(queue)@) == spread(
            pair_views(old(inputs)@),
            old(queue)@,
            to@,
            state@,
        ),
        final(inputs)@.len() == old(inputs)@.len(),
{
    let mut i: usize = 0;
    assert(to@.subrange(0, 0) =~= Seq::<usize>::empty());
    while i < to.len()
        invariant
            i <= to.len(),
            forall|k: int| 0 <= k < to@.len() ==> (#[trigger] to@[k]) < inputs@.len(),
            inputs@.len() == old(inputs)@.len(),
            (pair_views(inputs@), queue@) == spread(
                pair_views(old(inputs)@),
                old(queue)@,
                to@.subrange(0, i as int),
                state@,
            ),
        decreases to.len() - i,
    {
        let node = to[i];
        let ghost before = inputs@;
        proof {
            assert(to@.subrange(0, i + 1).drop_last() =~= to@.subrange(0, i as int));
        }
        let mut known: Option<PairSet> = None;
        std::mem::swap(&mut known, &mut inputs[node]);
        let changed = match known {
            None => {
                inputs[node] = Some(state.copy());
                true
            },
            Some(mut pairs) => {
                let grown = join_reaching(&mut pairs, state);
                inputs[node] = Some(pairs);
                grown
            },
        };
        assert(pair_views(inputs@) =~= pair_views(before).update(
            node as int,
            joined(pair_views(before)[node as int], state@),
        ));
        if changed {
            queue.push_back(node);
        }
        i += 1;
    }
    assert(to@.subrange(0, i as int) =~= to@);
}

/// The loans that aliases may hold on the way into each node; nothing for a node that is never
/// reached.
pub fn compute_reaching<'a>(graph: &GraphBuilder<'a>, entry: usize) -> (r: Vec<Option<PairSet>>)
    requires
        graph_ok(graph@),
        entry < graph@.nodes.len(),
    ensures
        r@.len() == graph@.nodes.len(),
        solved(loan_flow(graph@), entry as int, pair_views(r@)),
{
    let ghost flow = loan_flow(graph@);
    let ghost within = all_pairs(graph@);
    let mut inputs: Vec<Option<PairSet>> = Vec::new();
    let mut i: usize = 0;
    while i < graph.nodes.len()
        invariant
            i <= graph.nodes.len(),
            inputs@.len() == i,
            forall|n: int| 0 <= n < i ==> (#[trigger] inputs@[n]) == None::<PairSet>,
        decreases graph.nodes.len() - i,
    {
        inputs.push(None);
        i += 1;
    }
    inputs[entry] = Some(PairSet::new());
    let mut queue: VecDeque<usize> = VecDeque::new();
    queue.push_back(entry);
    proof {
        lemma_flow_ok(graph@);
        assert(queue@ =~= seq![entry as int as usize]);
        lemma_work_starts(flow, entry as int, pair_views(inputs@));
        assert(within.finite()) by {
            vstd::seq_lib::seq_to_set_is_finite(
                Seq::new(
                    graph@.nodes.len(),
                    |i: int|
                        match graph@.nodes[i].action {
                            Action::BindLoan(binding, loan_id) => (binding, loan_id),
                            _ => (BindingId(0), LoanId(0)),
                        },
                ),
            );
        }
        assert(stays_within(pair_views(inputs@), within));
    }
    loop
        invariant_except_break
            working(flow, entry as int, pair_views(inputs@), queue@),
        invariant
            graph_ok(graph@),
            entry < graph@.nodes.len(),
            flow == loan_flow(graph@),
            within == all_pairs(graph@),
            within.finite(),
            stays_within(pair_views(inputs@), within),
            inputs@.len() == graph@.nodes.len(),
        ensures
            solved(flow, entry as int, pair_views(inputs@)),
        decreases room(pair_views(inputs@), within.len()), queue@.len(),
    {
        let ghost before = pair_views(inputs@);
        let ghost waiting = queue@;
        match queue.pop_front() {
            None => {
                proof {
                    assert forall|n: int| 0 <= n < inputs@.len() implies #[trigger] settled_at(
                        flow,
                        before,
                        n,
                    ) by {
                        assert(!queue@.contains(n as usize));
                    }
                    lemma_solved(flow, entry as int, before);
                }
                break;
            },
            Some(node_id) => {
                proof {
                    assert(waiting[0] == node_id);
                    assert(waiting[0] < before.len() && before[waiting[0] as int] is Some);
                    assert(queue@ =~= waiting.subrange(1, waiting.len() as int));
                }
                let mut state = match &inputs[node_id] {
                    Some(known) => known.copy(),
                    None => PairSet::new(),
                };
                if let Action::BindLoan(binding, loan_id) = graph.nodes[node_id].action {
                    state.release(binding);
                    let _ = state.insert((binding, loan_id));
                }
                proof {
                    let n = node_id as int;
                    assert(graph@.nodes[n].action == graph.nodes@[n].action);
                    assert(before[n]->0.subset_of(within));
                    assert(state@ =~= passes(flow, n, before[n]->0));
                    assert(state@.subset_of(within)) by {
                        let list = Seq::new(
                            graph@.nodes.len(),
                            |i: int|
                                match graph@.nodes[i].action {
                                    Action::BindLoan(binding, loan_id) => (binding, loan_id),
                                    _ => (BindingId(0), LoanId(0)),
                                },
                        );
                        assert(list.contains(list[n]));
                    }
                    assert(graph.nodes@[n].successors@ == flow.successors[n]);
                    assert forall|k: int|
                        0 <= k < flow.successors[n].len() implies (#[trigger] flow.successors[n][k])
                        < before.len() by {
                        assert(graph@.nodes[n].successors[k] < graph@.nodes.len());
                    }
                    lemma_work_step(flow, entry as int, before, waiting);
                    lemma_spread_room(
                        before,
                        waiting.subrange(1, waiting.len() as int),
                        flow.successors[n],
                        state@,
                        within,
                    );
                }
                hand_on(&mut inputs, &mut queue, &graph.nodes[node_id].successors, &state);
            },
        }
    }
    inputs
}

/// The node uses an alias.
pub open spec fn uses_alias<'a>(g: GraphView<'a>, node: int, binding: BindingId) -> bool {
    &&& 0 <= node < g.nodes.len()
    &&& g.nodes[node].action matches Action::Read(id, _, _)
    &&& id == binding
    &&& g.borrowed.contains(binding)
}

/// The node makes the variable an alias anew.
pub open spec fn rebinds<'a>(g: GraphView<'a>, node: int, binding: BindingId) -> bool {
    g.nodes[node].action matches Action::BindLoan(id, _) && id == binding
}

/// A path that leads to a use of an alias without making it one anew before.
pub open spec fn use_path<'a>(g: GraphView<'a>, path: Seq<int>, binding: BindingId) -> bool {
    &&& path.len() > 0
    &&& uses_alias(g, path.last(), binding)
    &&& forall|i: int|
        #![trigger path[i]]
        0 <= i < path.len() - 1 ==> edge_between(successors_of(g), path[i], path[i + 1])
            && !rebinds(g, path[i], binding)
}

/// The loan that a variable holds on the way into a node is still to be used.
pub open spec fn live_into<'a>(g: GraphView<'a>, node: int, binding: BindingId) -> bool {
    exists|path: Seq<int>| #[trigger] use_path(g, path, binding) && path[0] == node
}

/// The loan that a variable holds on the way out of a node is still to be used.
pub open spec fn live_after<'a>(g: GraphView<'a>, node: int, binding: BindingId) -> bool {
    exists|k: int|
        0 <= k < g.nodes[node].successors.len() && #[trigger] live_into(
            g,
            g.nodes[node].successors[k] as int,
            binding,
        )
}

pub open spec fn var_views(found: Seq<VarSet>) -> Seq<Option<Set<BindingId>>> {
    found.map_values(|vars: VarSet| Some(vars@))
}

/// Nothing but live variables was found.
pub open spec fn live_backed<'a>(
    g: GraphView<'a>,
    live_in: Seq<VarSet>,
    live_out: Seq<VarSet>,
) -> bool {
    &&& live_in.len() == g.nodes.len()
    &&& live_out.len() == g.nodes.len()
    &&& forall|n: int, b: BindingId|
        0 <= n < live_in.len() && #[trigger] live_in[n]@.contains(b) ==> live_into(g, n, b)
    &&& forall|n: int, b: BindingId|
        0 <= n < live_out.len() && #[trigger] live_out[n]@.contains(b) ==> live_after(g, n, b)
}

/// What is live after and before a node has been taken over from what follows.
pub open spec fn live_closed<'a>(
    g: GraphView<'a>,
    live_in: Seq<VarSet>,
    live_out: Seq<VarSet>,
    n: int,
) -> bool {
    &&& forall|k: int, b: BindingId|
        #![trigger live_in[g.nodes[n].successors[k] as int]@.contains(b)]
        0 <= k < g.nodes[n].successors.len() && live_in[g.nodes[n].successors[k] as int]@.contains(
            b,
        ) ==> live_out[n]@.contains(b)
    &&& forall|b: BindingId| #[trigger]
        live_out[n]@.contains(b) && !rebinds(g, n, b) ==> live_in[n]@.contains(b)
    &&& forall|b: BindingId| #[trigger] uses_alias(g, n, b) ==> live_in[n]@.contains(b)
}

/// All variables that the graph uses.
pub open spec fn all_reads<'a>(g: GraphView<'a>) -> Set<BindingId> {
    Seq::new(
        g.nodes.len(),
        |i: int|
            match g.nodes[i].action {
                Action::Read(id, _, _) => id,
                _ => BindingId(0),
            },
    ).to_set()
}

proof fn lemma_use_is_live<'a>(g: GraphView<'a>, node: int, binding: BindingId)
    requires
        uses_alias(g, node, binding),
    ensures
        live_into(g, node, binding),
{
    let path = seq![node];
    assert(use_path(g, path, binding) && path[0] == node);
}

proof fn lemma_live_before<'a>(g: GraphView<'a>, node: int, binding: BindingId)
    requires
        0 <= node < g.nodes.len(),
        live_after(g, node, binding),
        !rebinds(g, node, binding),
    ensures
        live_into(g, node, binding),
{
    let k = choose|k: int|
        0 <= k < g.nodes[node].successors.len() && #[trigger] live_into(
            g,
            g.nodes[node].successors[k] as int,
            binding,
        );
    let next = g.nodes[node].successors[k] as int;
    let rest = choose|path: Seq<int>| #[trigger] use_path(g, path, binding) && path[0] == next;
    let path = seq![node] + rest;
    assert(successors_of(g)[node][k] == next as usize);
    assert(path.last() == rest.last());
    assert forall|i: int| #![trigger path[i]] 0 <= i < path.len() - 1 implies edge_between(
        successors_of(g),
        path[i],
        path[i + 1],
    ) && !rebinds(g, path[i], binding) by {
        if i > 0 {
            assert(path[i] == rest[i - 1]);
            assert(path[i + 1] == rest[i - 1 + 1]);
        } else {
            assert(path[1] == rest[0]);
        }
    }
    assert(use_path(g, path, binding) && path[0] == node);
}

/// Where everything has been taken over, what a path shows to be live was found.
proof fn lemma_live_found<'a>(
    g: GraphView<'a>,
    live_in: Seq<VarSet>,
    live_out: Seq<VarSet>,
    path: Seq<int>,
    binding: BindingId,
)
    requires
        edges_ok(g.nodes),
        g.nodes.len() <= usize::MAX,
        live_in.len() == g.nodes.len(),
        live_out.len() == g.nodes.len(),
        forall|n: int| 0 <= n < g.nodes.len() ==> #[trigger] live_closed(g, live_in, live_out, n),
        use_path(g, path, binding),
    ensures
        0 <= path[0] < g.nodes.len(),
        live_in[path[0]]@.contains(binding),
    decreases path.len(),
{
    if path.len() == 1 {
        assert(live_closed(g, live_in, live_out, path[0]));
        assert(uses_alias(g, path[0], binding));
    } else {
        let rest = path.subrange(1, path.len() as int);
        assert(rest.last() == path.last());
        assert forall|i: int| #![trigger rest[i]] 0 <= i < rest.len() - 1 implies edge_between(
            successors_of(g),
            rest[i],
            rest[i + 1],
        ) && !rebinds(g, rest[i], binding) by {
            assert(rest[i] == path[i + 1]);
            assert(rest[i + 1] == path[i + 1 + 1]);
        }
        lemma_live_found(g, live_in, live_out, rest, binding);
        let n = path[0];
        assert(edge_between(successors_of(g), path[0], path[0int + 1]) && !rebinds(g, path[0], binding));
        assert(rest[0] == path[1]);
        let k = choose|k: int|
            0 <= k < successors_of(g)[n].len() && successors_of(g)[n][k] == path[1] as usize;
        assert(live_closed(g, live_in, live_out, n));
        assert(live_in[g.nodes[n].successors[k] as int]@.contains(binding));
        assert(live_out[n]@.contains(binding));
    }
}

proof fn lemma_var_room(
    found: Seq<VarSet>,
    after: Seq<VarSet>,
    n: int,
    new: Set<BindingId>,
    within: Set<BindingId>,
)
    requires
        0 <= n < found.len(),
        within.finite(),
        stays_within(var_views(found), within),
        new.subset_of(within),
        var_views(after) == var_views(found).update(n, Some(found[n]@.union(new))),
    ensures
        stays_within(var_views(after), within),
        room(var_views(after), within.len()) <= room(var_views(found), within.len()),
        !new.subset_of(found[n]@) ==> room(var_views(after), within.len()) < room(
            var_views(found),
            within.len(),
        ),
{
    let before = var_views(found);
    assert(before[n] == Some(found[n]@));
    assert(before[n]->0.subset_of(within));
    assert(after.len() == var_views(after).len() == found.len());
    assert forall|m: int|
        #![trigger var_views(after)[m]]
        0 <= m < after.len() && var_views(after)[m] is Some implies var_views(
        after,
    )[m]->0.subset_of(within) by {
        if m != n {
            assert(var_views(after)[m] == before[m]);
        }
    }
    lemma_room_update(before, within.len(), n, Some(found[n]@.union(new)));
    if new.subset_of(found[n]@) {
        assert(found[n]@.union(new) =~= found[n]@);
    } else {
        lemma_room_shrinks(found[n]@, new, within);
    }
}

/// Takes over at one node what is live in the nodes that follow; says whether that made a
/// difference.
fn update_liveness<'a>(
    graph: &GraphBuilder<'a>,
    live_in: &mut Vec<VarSet>,
    live_out: &mut Vec<VarSet>,
    n: usize,
) -> (r: bool)
    requires
        graph_ok(graph@),
        n < graph@.nodes.len(),
        live_backed(graph@, old(live_in)@, old(live_out)@),
        all_reads(graph@).finite(),
        stays_within(var_views(old(live_in)@), all_reads(graph@)),
        stays_within(var_views(old(live_out)@), all_reads(graph@)),
    ensures
        live_backed(graph@, final(live_in)@, final(live_out)@),
        stays_within(var_views(final(live_in)@), all_reads(graph@)),
        stays_within(var_views(final(live_out)@), all_reads(graph@)),
        r ==> room(var_views(final(live_in)@), all_reads(graph@).len()) + room(
            var_views(final(live_out)@),
            all_reads(graph@).len(),
        ) < room(var_views(old(live_in)@), all_reads(graph@).len()) + room(
            var_views(old(live_out)@),
            all_reads(graph@).len(),
        ),
        !r ==> var_views(final(live_in)@) == var_views(old(live_in)@),
        !r ==> var_views(final(live_out)@) == var_views(old(live_out)@),
        !r ==> live_closed(graph@, final(live_in)@, final(live_out)@, n as int),
{
    let ghost g = graph@;
    let ghost within = all_reads(g);
    let mut next_out = VarSet::new();
    let successors = &graph.nodes[n].successors;
    assert(successors@ == g.nodes[n as int].successors);
    let mut k: usize = 0;
    while k < successors.len()
        invariant
            k <= successors.len(),
            g == graph@,
            n < g.nodes.len(),
            graph_ok(g),
            within == all_reads(g),
            successors@ == g.nodes[n as int].successors,
            live_backed(g, live_in@, live_out@),
            stays_within(var_views(live_in@), within),
            next_out@.subset_of(within),
            forall|b: BindingId| next_out@.contains(b) ==> #[trigger] live_after(g, n as int, b),
            forall|j: int, b: BindingId|
                #![trigger live_in@[successors@[j] as int]@.contains(b)]
                0 <= j < k && live_in@[successors@[j] as int]@.contains(b) ==> next_out@.contains(
                    b,
                ),
        decreases successors.len() - k,
    {
        let successor = successors[k];
        assert(g.nodes[n as int].successors[k as int] < g.nodes.len());
        let ghost before = next_out@;
        let _ = next_out.absorb(&live_in[successor]);
        proof {
            assert(var_views(live_in@)[successor as int]->0.subset_of(within));
            assert forall|b: BindingId| next_out@.contains(b) implies #[trigger] live_after(
                g,
                n as int,
                b,
            ) by {
                if !before.contains(b) {
                    assert(live_in@[successor as int]@.contains(b));
                    assert(live_into(g, g.nodes[n as int].successors[k as int] as int, b));
                }
            }
        }
        k += 1;
    }
    let ghost in0 = live_in@;
    let ghost out0 = live_out@;
    let more_out = live_out[n].absorb(&next_out);
    let mut next_in = live_out[n].copy();
    match graph.nodes[n].action {
        Action::BindLoan(binding, _) => {
            next_in.remove(binding);
        },
        Action::Read(binding, _, _) => {
            if graph.borrowed.contains(binding) {
                let _ = next_in.insert(binding);
            }
        },
        _ => {},
    }
    proof {
        let m = n as int;
        assert(var_views(out0)[m]->0.subset_of(within));
        assert forall|b: BindingId| #[trigger] live_out@[m]@.contains(b) implies live_after(
            g,
            m,
            b,
        ) && within.contains(b) by {
            if out0[m]@.contains(b) {
                assert(live_after(g, m, b));
            }
        }
        assert(g.nodes[m].action == graph.nodes@[m].action);
        assert forall|b: BindingId| next_in@.contains(b) implies live_into(g, m, b) && within.contains(
            b,
        ) by {
            if live_out@[m]@.contains(b) {
                assert(live_after(g, m, b));
                if !uses_alias(g, m, b) {
                    lemma_live_before(g, m, b);
                } else {
                    lemma_use_is_live(g, m, b);
                }
            } else {
                lemma_use_is_live(g, m, b);
                let list = Seq::new(
                    g.nodes.len(),
                    |i: int|
                        match g.nodes[i].action {
                            Action::Read(id, _, _) => id,
                            _ => BindingId(0),
                        },
                );
                assert(list[m] == b);
            }
        }
    }
    let more_in = live_in[n].absorb(&next_in);
    proof {
        let m = n as int;
        assert(var_views(live_in@) =~= var_views(in0).update(m, Some(in0[m]@.union(next_in@))));
        assert(var_views(live_out@) =~= var_views(out0).update(m, Some(out0[m]@.union(next_out@))));
        lemma_var_room(in0, live_in@, m, next_in@, within);
        lemma_var_room(out0, live_out@, m, next_out@, within);
        assert forall|i: int, b: BindingId|
            0 <= i < live_in@.len() && #[trigger] live_in@[i]@.contains(b) implies live_into(
            g,
            i,
            b,
        ) by {
            if i != m {
                assert(in0[i]@.contains(b));
            } else if in0[m]@.contains(b) {
            }
        }
        assert forall|i: int, b: BindingId|
            0 <= i < live_out@.len() && #[trigger] live_out@[i]@.contains(b) implies live_after(
            g,
            i,
            b,
        ) by {
            if i != m {
                assert(out0[i]@.contains(b));
            } else if out0[m]@.contains(b) {
            }
        }
        if !more_in && !more_out {
            assert(in0[m]@.union(next_in@) =~= in0[m]@);
            assert(out0[m]@.union(next_out@) =~= out0[m]@);
            assert(var_views(live_in@) =~= var_views(in0));
            assert(var_views(live_out@) =~= var_views(out0));
            assert forall|i: int| 0 <= i < in0.len() implies #[trigger] live_in@[i]@ == in0[i]@ by {
                assert(var_views(live_in@)[i] == var_views(in0)[i]);
            }
            assert forall|i: int| 0 <= i < out0.len() implies #[trigger] live_out@[i]@
                == out0[i]@ by {
                assert(var_views(live_out@)[i] == var_views(out0)[i]);
            }
            assert forall|j: int, b: BindingId|
                #![trigger live_in@[g.nodes[m].successors[j] as int]@.contains(b)]
                0 <= j < g.nodes[m].successors.len() && live_in@[g.nodes[m].successors[j] as int]@.contains(
                b) implies live_out@[m]@.contains(b) by {
                assert(g.nodes[m].successors[j] < g.nodes.len());
                assert(in0[successors@[j] as int]@.contains(b));
                assert(next_out@.contains(b));
            }
            assert forall|b: BindingId| #[trigger]
                live_out@[m]@.contains(b) && !rebinds(g, m, b) implies live_in@[m]@.contains(b) by {
                assert(out0[m]@.contains(b));
            }
        }
    }
    more_in || more_out
}

/// The aliases whose loans are still to be used, on the way into and out of each node.
pub fn compute_liveness<'a>(graph: &GraphBuilder<'a>) -> (r: (Vec<VarSet>, Vec<VarSet>))
    requires
        graph_ok(graph@),
    ensures
        r.0@.len() == graph@.nodes.len(),
        r.1@.len() == graph@.nodes.len(),
        forall|n: int, b: BindingId|
            0 <= n < graph@.nodes.len() ==> (#[trigger] r.0@[n]@.contains(b) == live_into(
                graph@,
                n,
                b,
            )),
        forall|n: int, b: BindingId|
            0 <= n < graph@.nodes.len() ==> (#[trigger] r.1@[n]@.contains(b) == live_after(
                graph@,
                n,
                b,
            )),
{
    let ghost g = graph@;
    let ghost most = all_reads(g).len();
    let mut live_in: Vec<VarSet> = Vec::new();
    let mut live_out: Vec<VarSet> = Vec::new();
    let mut i: usize = 0;
    while i < graph.nodes.len()
        invariant
            i <= graph.nodes.len(),
            live_in@.len() == i,
            live_out@.len() == i,
            forall|n: int| 0 <= n < i ==> (#[trigger] live_in@[n])@ == Set::<BindingId>::empty(),
            forall|n: int| 0 <= n < i ==> (#[trigger] live_out@[n])@ == Set::<BindingId>::empty(),
        decreases graph.nodes.len() - i,
    {
        live_in.push(VarSet::new());
        live_out.push(VarSet::new());
        i += 1;
    }
    proof {
        vstd::seq_lib::seq_to_set_is_finite(
            Seq::new(
                g.nodes.len(),
                |i: int|
                    match g.nodes[i].action {
                        Action::Read(id, _, _) => id,
                        _ => BindingId(0),
                    },
            ),
        );
    }
    let mut changed = true;
    while changed
        invariant
            g == graph@,
            graph_ok(g),
            most == all_reads(g).len(),
            all_reads(g).finite(),
            live_backed(g, live_in@, live_out@),
            stays_within(var_views(live_in@), all_reads(g)),
            stays_within(var_views(live_out@), all_reads(g)),
            !changed ==> forall|n: int|
                0 <= n < g.nodes.len() ==> #[trigger] live_closed(g, live_in@, live_out@, n),
        decreases
                room(var_views(live_in@), most) + room(var_views(live_out@), most),
                changed as nat,
    {
        changed = false;
        let ghost start = room(var_views(live_in@), most) + room(var_views(live_out@), most);
        let mut left: usize = graph.nodes.len();
        while left > 0
            invariant
                left <= g.nodes.len(),
                g == graph@,
                graph_ok(g),
                most == all_reads(g).len(),
                all_reads(g).finite(),
                live_backed(g, live_in@, live_out@),
                stays_within(var_views(live_in@), all_reads(g)),
                stays_within(var_views(live_out@), all_reads(g)),
                room(var_views(live_in@), most) + room(var_views(live_out@), most) <= start,
                changed ==> room(var_views(live_in@), most) + room(var_views(live_out@), most)
                    < start,
                !changed ==> forall|n: int|
                    left <= n < g.nodes.len() ==> #[trigger] live_closed(
                        g,
                        live_in@,
                        live_out@,
                        n,
                    ),
            decreases left,
        {
            left -= 1;
            let ghost in0 = live_in@;
            let ghost out0 = live_out@;
            if update_liveness(graph, &mut live_in, &mut live_out, left) {
                changed = true;
            }
            proof {
                if !changed {
                    assert forall|n: int| left <= n < g.nodes.len() implies #[trigger] live_closed(
                        g,
                        live_in@,
                        live_out@,
                        n,
                    ) by {
                        if n != left {
                            assert(live_closed(g, in0, out0, n));
                            lemma_closed_still(g, in0, out0, live_in@, live_out@, n);
                        }
                    }
                }
            }
        }
    }
    proof {
        assert forall|n: int, b: BindingId| 0 <= n < g.nodes.len() implies (
        #[trigger] live_in@[n]@.contains(b) == live_into(g, n, b)) by {
            if live_into(g, n, b) {
                let path = choose|path: Seq<int>| #[trigger] use_path(g, path, b) && path[0] == n;
                lemma_live_found(g, live_in@, live_out@, path, b);
            }
        }
        assert forall|n: int, b: BindingId| 0 <= n < g.nodes.len() implies (
        #[trigger] live_out@[n]@.contains(b) == live_after(g, n, b)) by {
            if live_after(g, n, b) {
                let k = choose|k: int|
                    0 <= k < g.nodes[n].successors.len() && #[trigger] live_into(
                        g,
                        g.nodes[n].successors[k] as int,
                        b,
                    );
                assert(g.nodes[n].successors[k] < g.nodes.len());
                assert(live_closed(g, live_in@, live_out@, n));
                assert(live_in@[g.nodes[n].successors[k] as int]@.contains(b));
            }
        }
    }
    (live_in, live_out)
}

proof fn lemma_closed_still<'a>(
    g: GraphView<'a>,
    in0: Seq<VarSet>,
    out0: Seq<VarSet>,
    in1: Seq<VarSet>,
    out1: Seq<VarSet>,
    n: int,
)
    requires
        edges_ok(g.nodes),
        0 <= n < g.nodes.len(),
        in0.len() == g.nodes.len(),
        out0.len() == g.nodes.len(),
        in1.len() == g.nodes.len(),
        out1.len() == g.nodes.len(),
        var_views(in1) == var_views(in0),
        var_views(out1) == var_views(out0),
        live_closed(g, in0, out0, n),
    ensures
        live_closed(g, in1, out1, n),
{
    assert forall|i: int| 0 <= i < in0.len() implies #[trigger] in1[i]@ == in0[i]@ by {
        assert(var_views(in1)[i] == var_views(in0)[i]);
    }
    assert forall|i: int| 0 <= i < out0.len() implies #[trigger] out1[i]@ == out0[i]@ by {
        assert(var_views(out1)[i] == var_views(out0)[i]);
    }
    assert forall|k: int, b: BindingId|
        #![trigger in1[g.nodes[n].successors[k] as int]@.contains(b)]
        0 <= k < g.nodes[n].successors.len() && in1[g.nodes[n].successors[k] as int]@.contains(
            b,
        ) implies out1[n]@.contains(b) by {
        assert(g.nodes[n].successors[k] < g.nodes.len());
        assert(in0[g.nodes[n].successors[k] as int]@.contains(b));
    }
    assert forall|b: BindingId| #[trigger]
        out1[n]@.contains(b) && !rebinds(g, n, b) implies in1[n]@.contains(b) by {
        assert(out0[n]@.contains(b));
    }
}

/// The place that a loan is of.
pub open spec fn source_in<'a>(nodes: Seq<NodeView<'a>>, loan: LoanId) -> Option<
    &'a Place,
>
    decreases nodes.len(),
{
    if nodes.len() == 0 {
        None
    } else {
        match nodes.last().action {
            Action::Borrow { loan_id, source, .. } if loan_id == loan => Some(source),
            _ => source_in(nodes.drop_last(), loan),
        }
    }
}

pub open spec fn source_of<'a>(g: GraphView<'a>, loan: LoanId) -> Option<&'a Place> {
    source_in(g.nodes, loan)
}

/// No two nodes may create the same loan.
pub open spec fn duplicate_fault<'a>(g: GraphView<'a>, i: int) -> Option<ErrorView> {
    match g.nodes[i].action {
        Action::Borrow { loan_id, span, .. } => if source_in(g.nodes.take(i), loan_id) is Some {
            Some(broken_at(span, "LoanId 重复"@))
        } else {
            None
        },
        _ => None,
    }
}

/// A node writes through an alias.
pub open spec fn writes_alias<'a>(g: GraphView<'a>, i: int, binding: BindingId) -> bool {
    &&& 0 <= i < g.nodes.len()
    &&& g.nodes[i].action matches Action::Read(id, AccessKind::Write, _)
    &&& id == binding
    &&& g.borrowed.contains(binding)
}

/// Whoever writes through an alias must hold a loan, and one that the graph creates.
pub open spec fn use_fault<'a>(g: GraphView<'a>, entry: int, i: int) -> Option<ErrorView> {
    match g.nodes[i].action {
        Action::Read(binding, AccessKind::Write, span) if g.borrowed.contains(binding) => {
            if !exists|loan: LoanId| #[trigger] may_hold(g, entry, i, binding, loan) {
                Some(ErrorView { msg: "borrowed binding 使用点缺少 reaching loan definition"@, span })
            } else if exists|loan: LoanId| #[trigger]
                may_hold(g, entry, i, binding, loan) && source_of(g, loan) is None {
                Some(broken_at(span, "reaching LoanId 无 source"@))
            } else {
                None
            }
        },
        _ => None,
    }
}

/// What is wrong with the loans of a graph, if anything is.
pub open spec fn loans_fault<'a>(g: GraphView<'a>, entry: int) -> Option<ErrorView> {
    let duplicates = first_fault(Seq::new(g.nodes.len(), |i: int| duplicate_fault(g, i)));
    if duplicates is Some {
        duplicates
    } else {
        first_fault(Seq::new(g.nodes.len(), |i: int| use_fault(g, entry, i)))
    }
}

/// Somebody writes through an alias that may hold the loan.
pub open spec fn written_through<'a>(g: GraphView<'a>, entry: int, loan: LoanId) -> bool {
    exists|i: int, binding: BindingId|
        #![trigger writes_alias(g, i, binding)]
        writes_alias(g, i, binding) && may_hold(g, entry, i, binding, loan)
}

/// A loan lets its holder write exactly when some holder does.
pub open spec fn kind_of<'a>(g: GraphView<'a>, entry: int, loan: LoanId) -> BorrowKind {
    if written_through(g, entry, loan) {
        BorrowKind::Write
    } else {
        BorrowKind::Read
    }
}

/// The node gives a loan to an alias that is used later.
pub open spec fn binds_live<'a>(g: GraphView<'a>, i: int, loan: LoanId) -> bool {
    &&& 0 <= i < g.nodes.len()
    &&& g.nodes[i].action matches Action::BindLoan(binding, loan_id)
    &&& loan_id == loan
    &&& live_after(g, i, binding)
}

/// The loan is used at all.
pub open spec fn live_loan<'a>(g: GraphView<'a>, loan: LoanId) -> bool {
    exists|i: int| #[trigger] binds_live(g, i, loan)
}

/// A loan that may be held on the way into a node and is still to be used there.
pub open spec fn active_at<'a>(g: GraphView<'a>, entry: int, node: int, loan: LoanId) -> bool {
    exists|binding: BindingId| #[trigger]
        live_into(g, node, binding) && may_hold(g, entry, node, binding, loan)
}

/// All that the analysis needs to know about the loans of a graph.
pub struct LoanFacts<'a> {
    pub sources: Vec<(LoanId, &'a Place)>,
    /// The loans whose holders write.
    pub written: LoanSet,
    /// The loans that are used at all.
    pub live: LoanSet,
    pub reaching: Vec<Option<PairSet>>,
    pub live_in: Vec<VarSet>,
}

pub open spec fn lookup<'a>(sources: Seq<(LoanId, &'a Place)>, loan: LoanId) -> Option<&'a Place>
    decreases sources.len(),
{
    if sources.len() == 0 {
        None
    } else if sources.last().0 == loan {
        Some(sources.last().1)
    } else {
        lookup(sources.drop_last(), loan)
    }
}

/// The facts are those of the graph.
pub open spec fn facts_ok<'a>(facts: LoanFacts<'a>, g: GraphView<'a>, entry: int) -> bool {
    &&& forall|loan: LoanId| #[trigger] lookup(facts.sources@, loan) == source_of(g, loan)
    &&& forall|loan: LoanId| #[trigger]
        facts.written@.contains(loan) == written_through(g, entry, loan)
    &&& forall|loan: LoanId| #[trigger] facts.live@.contains(loan) == live_loan(g, loan)
    &&& facts.reaching@.len() == g.nodes.len()
    &&& solved(loan_flow(g), entry, pair_views(facts.reaching@))
    &&& facts.live_in@.len() == g.nodes.len()
    &&& forall|n: int, b: BindingId|
        0 <= n < g.nodes.len() ==> (#[trigger] facts.live_in@[n]@.contains(b) == live_into(g, n, b))
}

fn find_source<'a>(sources: &Vec<(LoanId, &'a Place)>, loan: LoanId) -> (r: Option<&'a Place>)
    ensures
        r == lookup(sources@, loan),
{
    let mut left: usize = sources.len();
    assert(sources@.take(left as int) =~= sources@);
    while left > 0
        invariant
            left <= sources.len(),
            lookup(sources@, loan) == lookup(sources@.take(left as int), loan),
        decreases left,
    {
        assert(sources@.take(left as int).drop_last() =~= sources@.take(left - 1));
        left -= 1;
        if sources[left].0 == loan {
            return Some(sources[left].1);
        }
    }
    None
}

impl<'a> LoanFacts<'a> {
    /// The place that a loan is of.
    pub fn source(&self, loan: LoanId) -> (r: Option<&'a Place>)
        ensures
            r == lookup(self.sources@, loan),
    {
        find_source(&self.sources, loan)
    }

    pub fn kind(&self, loan: LoanId) -> (r: BorrowKind)
        ensures
            r == (if self.written@.contains(loan) {
                BorrowKind::Write
            } else {
                BorrowKind::Read
            }),
    {
        if self.written.contains(loan) {
            BorrowKind::Write
        } else {
            BorrowKind::Read
        }
    }
}

/// What is known of an alias at a node: whether it may hold a loan.
pub proof fn lemma_holds<'a>(g: GraphView<'a>, entry: int, found: Seq<Option<PairSet>>, n: int)
    requires
        solved(loan_flow(g), entry, pair_views(found)),
        0 <= n < found.len(),
    ensures
        forall|b: BindingId, l: LoanId| #[trigger]
            may_hold(g, entry, n, b, l) == (match found[n] {
                Some(pairs) => pairs@.contains((b, l)),
                None => false,
            }),
{
    assert(pair_views(found)[n] == (if arrives(loan_flow(g).successors, entry, n) {
        Some(carried(loan_flow(g), entry, n))
    } else {
        None
    }));
    assert forall|b: BindingId, l: LoanId| #[trigger] may_hold(g, entry, n, b, l) implies arrives(
        loan_flow(g).successors,
        entry,
        n,
    ) by {
        let flow = loan_flow(g);
        let path = choose|path: Seq<int>|
            #[trigger] is_path(flow.successors, entry, path) && path.last() == n
                && along(flow, path).contains((b, l));
        assert(is_path(flow.successors, entry, path));
    }
}

/// The loans that a variable may hold, by what is known at a node.
pub fn loans_of(known: &Option<PairSet>, binding: BindingId) -> (r: Vec<LoanId>)
    ensures
        forall|l: LoanId| #[trigger]
            r@.contains(l) == (match *known {
                Some(pairs) => pairs@.contains((binding, l)),
                None => false,
            }),
{
    let mut list: Vec<LoanId> = Vec::new();
    match known {
        None => {},
        Some(pairs) => {
            let mut i: usize = 0;
            while i < pairs.list.len()
                invariant
                    i <= pairs.list.len(),
                    forall|l: LoanId| #[trigger]
                        list@.contains(l) == pairs.list@.take(i as int).contains((binding, l)),
                decreases pairs.list.len() - i,
            {
                let pair = pairs.list[i];
                let ghost before = list@;
                if pair.0 == binding {
                    list.push(pair.1);
                }
                proof {
                    assert(pairs.list@.take(i + 1) =~= pairs.list@.take(i as int).push(pair));
                    lemma_push_to_set(pairs.list@.take(i as int), pair);
                    lemma_push_to_set(before, pair.1);
                    assert forall|l: LoanId| #[trigger]
                        list@.contains(l) == pairs.list@.take(i + 1).contains((binding, l)) by {
                        assert(list@.to_set().contains(l) == list@.contains(l));
                        assert(before.to_set().contains(l) == before.contains(l));
                        assert(pairs.list@.take(i + 1).to_set().contains((binding, l))
                            == pairs.list@.take(i + 1).contains((binding, l)));
                        assert(pairs.list@.take(i as int).to_set().contains((binding, l))
                            == pairs.list@.take(i as int).contains((binding, l)));
                    }
                }
                i += 1;
            }
            assert(pairs.list@.take(i as int) =~= pairs.list@);
        },
    }
    list
}

/// Works out the loans of a graph, or says what is wrong with them.
pub fn derive_loan_facts<'a>(graph: &GraphBuilder<'a>, entry: usize) -> (r: AliasResult<
    LoanFacts<'a>,
>)
    requires
        graph_ok(graph@),
        entry < graph@.nodes.len(),
    ensures
        fault_of(r) == loans_fault(graph@, entry as int),
        r matches Ok(facts) ==> facts_ok(facts, graph@, entry as int),
{
    let ghost g = graph@;
    let ghost start = entry as int;
    let ghost duplicates = Seq::new(g.nodes.len(), |i: int| duplicate_fault(g, i));
    let ghost uses = Seq::new(g.nodes.len(), |i: int| use_fault(g, start, i));
    let reaching = compute_reaching(graph, entry);
    let (live_in, live_out) = compute_liveness(graph);
    let mut sources: Vec<(LoanId, &'a Place)> = Vec::new();
    let mut i: usize = 0;
    assert(g.nodes.take(0) =~= Seq::empty());
    while i < graph.nodes.len()
        invariant
            i <= graph.nodes.len(),
            g == graph@,
            start == entry as int,
            duplicates == Seq::new(g.nodes.len(), |i: int| duplicate_fault(g, i)),
            forall|k: int| 0 <= k < i ==> (#[trigger] duplicates[k]) is None,
            forall|loan: LoanId| #[trigger]
                lookup(sources@, loan) == source_in(g.nodes.take(i as int), loan),
        decreases graph.nodes.len() - i,
    {
        assert(g.nodes[i as int].action == graph.nodes@[i as int].action);
        assert(g.nodes.take(i + 1).drop_last() =~= g.nodes.take(i as int));
        assert(g.nodes.take(i + 1).last() == g.nodes[i as int]);
        assert(duplicates[i as int] == duplicate_fault(g, i as int));
        if let Action::Borrow { loan_id, source, declared_kind: _, span } = graph.nodes[i].action {
            match find_source(&sources, loan_id) {
                Some(_) => {
                    proof {
                        lemma_first_fault_at(duplicates, i as int);
                    }
                    return Err(broken_invariant(span, "LoanId 重复"));
                },
                None => {},
            }
            let ghost before = sources@;
            sources.push((loan_id, source));
            assert forall|loan: LoanId| #[trigger]
                lookup(sources@, loan) == source_in(g.nodes.take(i + 1), loan) by {
                assert(sources@.drop_last() =~= before);
                assert(lookup(before, loan) == source_in(g.nodes.take(i as int), loan));
            }
        }
        i += 1;
    }
    assert(g.nodes.take(i as int) =~= g.nodes);
    proof {
        lemma_no_fault(duplicates);
    }
    let mut written = LoanSet::new();
    let mut live = LoanSet::new();
    let mut n: usize = 0;
    while n < graph.nodes.len()
        invariant
            n <= graph.nodes.len(),
            g == graph@,
            start == entry as int,
            graph_ok(g),
            uses == Seq::new(g.nodes.len(), |i: int| use_fault(g, start, i)),
            first_fault(Seq::new(g.nodes.len(), |i: int| duplicate_fault(g, i))) is None,
            reaching@.len() == g.nodes.len(),
            solved(loan_flow(g), start, pair_views(reaching@)),
            live_out@.len() == g.nodes.len(),
            forall|n: int, b: BindingId|
                0 <= n < g.nodes.len() ==> (#[trigger] live_out@[n]@.contains(b) == live_after(
                    g,
                    n,
                    b,
                )),
            forall|loan: LoanId| #[trigger] lookup(sources@, loan) == source_of(g, loan),
            forall|k: int| 0 <= k < n ==> (#[trigger] uses[k]) is None,
            forall|loan: LoanId| #[trigger]
                written@.contains(loan) == written_before(g, start, n as int, loan),
            forall|loan: LoanId| #[trigger]
                live@.contains(loan) == live_before(g, n as int, loan),
        decreases graph.nodes.len() - n,
    {
        let ghost m = n as int;
        let ghost written0 = written@;
        let ghost live0 = live@;
        proof {
            assert(g.nodes[m].action == graph.nodes@[m].action);
            assert(uses[m] == use_fault(g, start, m));
            lemma_holds(g, start, reaching@, m);
        }
        match graph.nodes[n].action {
            Action::Read(binding, AccessKind::Write, span) => {
                if graph.borrowed.contains(binding) {
                    let loans = loans_of(&reaching[n], binding);
                    proof {
                        assert forall|l: LoanId| #[trigger]
                            loans@.contains(l) == may_hold(g, start, m, binding, l) by {}
                    }
                    if loans.len() == 0 {
                        proof {
                            assert forall|l: LoanId| !#[trigger] may_hold(g, start, m, binding, l) by {
                                assert(!loans@.contains(l));
                            }
                            lemma_first_fault_at(uses, m);
                        }
                        return Err(
                            error(span, "borrowed binding 使用点缺少 reaching loan definition"),
                        );
                    }
                    let mut k: usize = 0;
                    proof {
                        assert(loans@.contains(loans@[0]));
                        assert(may_hold(g, start, m, binding, loans@[0]));
                    }
                    while k < loans.len()
                        invariant
                            k <= loans.len(),
                            forall|l: LoanId| #[trigger]
                                loans@.contains(l) == may_hold(g, start, m, binding, l),
                            forall|loan: LoanId| #[trigger]
                                lookup(sources@, loan) == source_of(g, loan),
                            forall|j: int|
                                0 <= j < k ==> source_of(g, #[trigger] loans@[j]) is Some,
                            forall|l: LoanId| #[trigger]
                                written@.contains(l) == (written0.contains(l) || loans@.take(
                                    k as int,
                                ).contains(l)),
                            0 <= m < g.nodes.len(),
                            uses.len() == g.nodes.len(),
                            uses[m] == use_fault(g, start, m),
                            g.nodes[m].action == Action::Read(binding, AccessKind::Write, span),
                            g.borrowed.contains(binding),
                            forall|k: int| 0 <= k < m ==> (#[trigger] uses[k]) is None,
                            first_fault(
                                Seq::new(g.nodes.len(), |i: int| duplicate_fault(g, i)),
                            ) is None,
                            uses == Seq::new(g.nodes.len(), |i: int| use_fault(g, start, i)),
                            start == entry as int,
                            g == graph@,
                        decreases loans.len() - k,
                    {
                        let loan_id = loans[k];
                        proof {
                            assert(loans@.contains(loans@[k as int]));
                            assert(may_hold(g, start, m, binding, loan_id));
                        }
                        if find_source(&sources, loan_id).is_none() {
                            proof {
                                lemma_first_fault_at(uses, m);
                            }
                            return Err(broken_invariant(span, "reaching LoanId 无 source"));
                        }
                        let ghost w = written@;
                        let _ = written.insert(loan_id);
                        proof {
                            let part = loans@.take(k as int);
                            assert(loans@.take(k + 1) =~= part.push(loan_id));
                            lemma_push_to_set(part, loan_id);
                            assert forall|l: LoanId| #[trigger]
                                written@.contains(l) == (written0.contains(l) || loans@.take(
                                    k + 1,
                                ).contains(l)) by {
                                assert(w.contains(l) == (written0.contains(l) || part.contains(l)));
                                assert(part.to_set().contains(l) == part.contains(l));
                                assert(loans@.take(k + 1).to_set().contains(l) == loans@.take(
                                    k + 1,
                                ).contains(l));
                            }
                        }
                        k += 1;
                    }
                    proof {
                        assert(loans@.take(k as int) =~= loans@);
                        assert forall|loan: LoanId| #[trigger]
                            may_hold(g, start, m, binding, loan) implies source_of(
                            g,
                            loan,
                        ) is Some by {
                            assert(loans@.contains(loan));
                            let j = choose|j: int| 0 <= j < loans@.len() && loans@[j] == loan;
                            assert(source_of(g, loans@[j]) is Some);
                        }
                        assert(use_fault(g, start, m) is None);
                    }
                }
            },
            Action::BindLoan(binding, loan_id) => {
                if live_out[n].contains(binding) {
                    let _ = live.insert(loan_id);
                }
            },
            _ => {},
        }
        proof {
            assert forall|loan: LoanId| #[trigger]
                written@.contains(loan) == written_before(g, start, m + 1, loan) by {
                lemma_written_step(g, start, m, loan);
                assert(written0.contains(loan) == written_before(g, start, m, loan));
            }
            assert forall|loan: LoanId| #[trigger]
                live@.contains(loan) == live_before(g, m + 1, loan) by {
                lemma_live_step(g, m, loan);
                assert(live0.contains(loan) == live_before(g, m, loan));
            }
        }
        n += 1;
    }
    proof {
        lemma_no_fault(uses);
        assert forall|loan: LoanId| #[trigger] written@.contains(loan) == written_through(
            g,
            start,
            loan,
        ) by {
            assert(written@.contains(loan) == written_before(g, start, n as int, loan));
        }
        assert forall|loan: LoanId| #[trigger] live@.contains(loan) == live_loan(g, loan) by {
            assert(live@.contains(loan) == live_before(g, n as int, loan));
        }
    }
    Ok(LoanFacts { sources, written, live, reaching, live_in })
}

/// One of the first nodes writes through an alias that may hold the loan.
spec fn written_before<'a>(g: GraphView<'a>, entry: int, n: int, loan: LoanId) -> bool {
    exists|i: int, binding: BindingId|
        #![trigger writes_alias(g, i, binding)]
        i < n && writes_alias(g, i, binding) && may_hold(g, entry, i, binding, loan)
}

spec fn live_before<'a>(g: GraphView<'a>, n: int, loan: LoanId) -> bool {
    exists|i: int| i < n && #[trigger] binds_live(g, i, loan)
}

proof fn lemma_written_step<'a>(g: GraphView<'a>, entry: int, n: int, loan: LoanId)
    requires
        0 <= n < g.nodes.len(),
    ensures
        written_before(g, entry, n + 1, loan) == (written_before(g, entry, n, loan) || (
        g.nodes[n].action matches Action::Read(binding, AccessKind::Write, _)
            && g.borrowed.contains(binding) && may_hold(g, entry, n, binding, loan))),
{
    if written_before(g, entry, n + 1, loan) && !written_before(g, entry, n, loan) {
        let (i, binding) = choose|i: int, binding: BindingId|
            #![trigger writes_alias(g, i, binding)]
            i < n + 1 && writes_alias(g, i, binding) && may_hold(g, entry, i, binding, loan);
        assert(i == n);
    }
    match g.nodes[n].action {
        Action::Read(binding, AccessKind::Write, _) => {
            if g.borrowed.contains(binding) {
                assert(writes_alias(g, n, binding));
            }
        },
        _ => {},
    }
}

proof fn lemma_live_step<'a>(g: GraphView<'a>, n: int, loan: LoanId)
    requires
        0 <= n < g.nodes.len(),
    ensures
        live_before(g, n + 1, loan) == (live_before(g, n, loan) || binds_live(g, n, loan)),
{
}

} // verus!
