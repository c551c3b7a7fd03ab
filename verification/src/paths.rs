//! Facts that travel along the paths of a graph.
//!
//! A node drops some facts and adds others. What may hold on the way into a node is what some
//! path from the entry brings there.

use vstd::prelude::*;

verus! {

/// A graph whose nodes add and drop facts.
#[verifier::reject_recursive_types(F)]
pub struct Flow<F> {
    pub successors: Seq<Seq<usize>>,
    pub adds: Seq<Set<F>>,
    pub drops: Seq<Set<F>>,
}

/// What holds after a node, given what holds before it.
pub open spec fn passes<F>(flow: Flow<F>, node: int, before: Set<F>) -> Set<F> {
    before.difference(flow.drops[node]).union(flow.adds[node])
}

/// Every edge leads to a node of the graph.
pub open spec fn flow_ok<F>(flow: Flow<F>) -> bool {
    &&& flow.adds.len() == flow.successors.len()
    &&& flow.drops.len() == flow.successors.len()
    &&& forall|i: int, k: int|
        #![trigger flow.successors[i][k]]
        0 <= i < flow.successors.len() && 0 <= k < flow.successors[i].len()
            ==> flow.successors[i][k] < flow.successors.len()
}

pub open spec fn edge_between(successors: Seq<Seq<usize>>, from: int, to: int) -> bool {
    &&& 0 <= from < successors.len()
    &&& 0 <= to <= usize::MAX
    &&& successors[from].contains(to as usize)
}

/// A path from the entry.
pub open spec fn is_path(successors: Seq<Seq<usize>>, entry: int, path: Seq<int>) -> bool {
    &&& path.len() > 0
    &&& path[0] == entry
    &&& forall|i: int|
        #![trigger path[i]]
        0 <= i < path.len() - 1 ==> edge_between(successors, path[i], path[i + 1])
}

/// What a path brings to its last node.
pub open spec fn along<F>(flow: Flow<F>, path: Seq<int>) -> Set<F>
    decreases path.len(),
{
    if path.len() <= 1 {
        Set::empty()
    } else {
        passes(flow, path[path.len() - 2], along(flow, path.drop_last()))
    }
}

/// Some path leads to the node.
pub open spec fn arrives(successors: Seq<Seq<usize>>, entry: int, node: int) -> bool {
    exists|path: Seq<int>| #[trigger] is_path(successors, entry, path) && path.last() == node
}

/// What some path brings to the node.
pub open spec fn carried<F>(flow: Flow<F>, entry: int, node: int) -> Set<F> {
    Set::new(
        |fact: F|
            exists|path: Seq<int>|
                #[trigger] is_path(flow.successors, entry, path) && path.last() == node && along(
                    flow,
                    path,
                ).contains(fact),
    )
}

/// What was found at a node is brought there by some path.
pub open spec fn backed_at<F>(flow: Flow<F>, entry: int, node: int, found: Option<Set<F>>) -> bool {
    match found {
        None => true,
        Some(facts) => arrives(flow.successors, entry, node) && facts.subset_of(
            carried(flow, entry, node),
        ),
    }
}

pub open spec fn backed<F>(flow: Flow<F>, entry: int, found: Seq<Option<Set<F>>>) -> bool {
    forall|n: int| 0 <= n < found.len() ==> backed_at(flow, entry, n, #[trigger] found[n])
}

/// What was found at a node has been handed on to all that follow it.
pub open spec fn settled_at<F>(flow: Flow<F>, found: Seq<Option<Set<F>>>, node: int) -> bool {
    match found[node] {
        None => true,
        Some(facts) => forall|k: int|
            0 <= k < flow.successors[node].len() ==> holds_at(
                found,
                #[trigger] flow.successors[node][k],
                passes(flow, node, facts),
            ),
    }
}

/// A node is known to be reached with at least the given facts.
pub open spec fn holds_at<F>(found: Seq<Option<Set<F>>>, node: usize, facts: Set<F>) -> bool {
    match found[node as int] {
        None => false,
        Some(known) => facts.subset_of(known),
    }
}

/// Exactly the reached nodes have facts, and those are the facts that paths bring.
pub open spec fn solved<F>(flow: Flow<F>, entry: int, found: Seq<Option<Set<F>>>) -> bool {
    forall|n: int|
        #![trigger found[n]]
        0 <= n < found.len() ==> found[n] == (if arrives(flow.successors, entry, n) {
            Some(carried(flow, entry, n))
        } else {
            None
        })
}

pub proof fn lemma_entry_arrives(successors: Seq<Seq<usize>>, entry: int)
    ensures
        arrives(successors, entry, entry),
{
    let path = seq![entry];
    assert(is_path(successors, entry, path) && path.last() == entry);
}

/// A path can be continued along an edge.
pub proof fn lemma_path_extends<F>(flow: Flow<F>, entry: int, path: Seq<int>, to: int)
    requires
        is_path(flow.successors, entry, path),
        edge_between(flow.successors, path.last(), to),
    ensures
        is_path(flow.successors, entry, path.push(to)),
        along(flow, path.push(to)) == passes(flow, path.last(), along(flow, path)),
{
    let longer = path.push(to);
    assert(longer.drop_last() =~= path);
    assert forall|i: int| #![trigger longer[i]] 0 <= i < longer.len() - 1 implies edge_between(
        flow.successors,
        longer[i],
        longer[i + 1],
    ) by {
        if i < path.len() - 1 {
            assert(longer[i] == path[i]);
        }
    }
}

/// What leaves a backed node is backed at the node that follows.
pub proof fn lemma_backed_step<F>(
    flow: Flow<F>,
    entry: int,
    node: int,
    facts: Set<F>,
    to: int,
)
    requires
        backed_at(flow, entry, node, Some(facts)),
        edge_between(flow.successors, node, to),
    ensures
        arrives(flow.successors, entry, to),
        passes(flow, node, facts).subset_of(carried(flow, entry, to)),
{
    let p0 = choose|path: Seq<int>|
        #[trigger] is_path(flow.successors, entry, path) && path.last() == node;
    lemma_path_extends(flow, entry, p0, to);
    assert(p0.push(to).last() == to);
    assert forall|fact: F| passes(flow, node, facts).contains(fact) implies carried(
        flow,
        entry,
        to,
    ).contains(fact) by {
        if flow.adds[node].contains(fact) {
            assert(along(flow, p0.push(to)).contains(fact));
        } else {
            assert(carried(flow, entry, node).contains(fact));
            let p = choose|path: Seq<int>|
                #[trigger] is_path(flow.successors, entry, path) && path.last() == node && along(
                    flow,
                    path,
                ).contains(fact);
            lemma_path_extends(flow, entry, p, to);
            assert(p.push(to).last() == to);
            assert(along(flow, p.push(to)).contains(fact));
        }
    }
}

/// Where everything is settled, a path brings nothing new.
proof fn lemma_settled_covers<F>(
    flow: Flow<F>,
    entry: int,
    found: Seq<Option<Set<F>>>,
    path: Seq<int>,
)
    requires
        flow_ok(flow),
        0 <= entry < found.len() <= usize::MAX,
        found.len() == flow.successors.len(),
        found[entry] is Some,
        forall|n: int| 0 <= n < found.len() ==> #[trigger] settled_at(flow, found, n),
        is_path(flow.successors, entry, path),
    ensures
        0 <= path.last() < found.len(),
        holds_at(found, path.last() as usize, along(flow, path)),
        path.last() <= usize::MAX,
    decreases path.len(),
{
    if path.len() > 1 {
        let shorter = path.drop_last();
        assert forall|i: int| #![trigger shorter[i]] 0 <= i < shorter.len() - 1 implies edge_between(
            flow.successors,
            shorter[i],
            shorter[i + 1],
        ) by {
            assert(shorter[i] == path[i]);
        }
        lemma_settled_covers(flow, entry, found, shorter);
        let from = path[path.len() - 2];
        assert(from == shorter.last());
        assert(edge_between(flow.successors, path[path.len() - 2], path[path.len() - 2 + 1]));
        let to = path.last();
        let k = choose|k: int|
            0 <= k < flow.successors[from].len() && flow.successors[from][k] == to as usize;
        assert(settled_at(flow, found, from));
        assert(flow.successors[from][k] < flow.successors.len());
        let facts = found[from]->0;
        assert(holds_at(found, flow.successors[from][k], passes(flow, from, facts)));
        assert(along(flow, path) == passes(flow, from, along(flow, shorter)));
        assert(along(flow, path).subset_of(passes(flow, from, facts)));
    } else {
        assert(path.last() == entry);
        assert(along(flow, path) =~= Set::empty());
    }
}

/// What is backed and settled is what paths bring.
pub proof fn lemma_solved<F>(flow: Flow<F>, entry: int, found: Seq<Option<Set<F>>>)
    requires
        flow_ok(flow),
        0 <= entry < found.len() <= usize::MAX,
        found.len() == flow.successors.len(),
        found[entry] is Some,
        backed(flow, entry, found),
        forall|n: int| 0 <= n < found.len() ==> #[trigger] settled_at(flow, found, n),
    ensures
        solved(flow, entry, found),
{
    assert forall|n: int| #![trigger found[n]] 0 <= n < found.len() implies found[n] == (
    if arrives(flow.successors, entry, n) {
        Some(carried(flow, entry, n))
    } else {
        None
    }) by {
        assert(backed_at(flow, entry, n, found[n]));
        if arrives(flow.successors, entry, n) {
            let p0 = choose|path: Seq<int>|
                #[trigger] is_path(flow.successors, entry, path) && path.last() == n;
            lemma_settled_covers(flow, entry, found, p0);
            let known = found[n]->0;
            assert forall|fact: F| carried(flow, entry, n).contains(fact) implies known.contains(
                fact,
            ) by {
                let p = choose|path: Seq<int>|
                    #[trigger] is_path(flow.successors, entry, path) && path.last() == n && along(
                        flow,
                        path,
                    ).contains(fact);
                lemma_settled_covers(flow, entry, found, p);
            }
            assert(known =~= carried(flow, entry, n));
        }
    }
}

/// How many facts are still missing at most, where each node can have `most` of them.
pub open spec fn room<F>(found: Seq<Option<Set<F>>>, most: nat) -> nat
    decreases found.len(),
{
    if found.len() == 0 {
        0
    } else {
        room(found.drop_last(), most) + room_at(found.last(), most)
    }
}

pub open spec fn room_at<F>(found: Option<Set<F>>, most: nat) -> nat {
    match found {
        None => most + 1,
        Some(facts) => if facts.len() <= most {
            (most - facts.len()) as nat
        } else {
            0
        },
    }
}

pub proof fn lemma_room_update<F>(found: Seq<Option<Set<F>>>, most: nat, n: int, new: Option<Set<F>>)
    requires
        0 <= n < found.len(),
    ensures
        room(found.update(n, new), most) == room(found, most) - room_at(found[n], most) + room_at(
            new,
            most,
        ),
    decreases found.len(),
{
    let updated = found.update(n, new);
    if n == found.len() - 1 {
        assert(updated.drop_last() =~= found.drop_last());
    } else {
        assert(updated.drop_last() =~= found.drop_last().update(n, new));
        lemma_room_update(found.drop_last(), most, n, new);
    }
}

/// A set that grows within a finite one leaves less room.
pub proof fn lemma_room_shrinks<F>(known: Set<F>, new: Set<F>, within: Set<F>)
    requires
        within.finite(),
        known.subset_of(within),
        new.subset_of(within),
        !new.subset_of(known),
    ensures
        room_at(Some(known.union(new)), within.len()) < room_at(Some(known), within.len()),
{
    let all = known.union(new);
    vstd::set_lib::lemma_len_subset(all, within);
    vstd::set_lib::lemma_len_subset(known, within);
    vstd::set_lib::lemma_len_subset(known, all);
    if all.len() == known.len() {
        vstd::set_lib::lemma_subset_equality(known, all);
    }
}

/// The facts at a node, with more facts that arrive there.
pub open spec fn joined<F>(found: Option<Set<F>>, facts: Set<F>) -> Option<Set<F>> {
    match found {
        None => Some(facts),
        Some(known) => Some(known.union(facts)),
    }
}

/// Whether arriving facts make a difference at a node.
pub open spec fn news<F>(found: Option<Set<F>>, facts: Set<F>) -> bool {
    match found {
        None => true,
        Some(known) => !facts.subset_of(known),
    }
}

/// What is known, and which nodes wait, after facts have been handed on to the given nodes in
/// order. A node to which they make a difference has to wait its turn.
pub open spec fn spread<F>(
    found: Seq<Option<Set<F>>>,
    queue: Seq<usize>,
    to: Seq<usize>,
    facts: Set<F>,
) -> (Seq<Option<Set<F>>>, Seq<usize>)
    decreases to.len(),
{
    if to.len() == 0 {
        (found, queue)
    } else {
        let (found, queue) = spread(found, queue, to.drop_last(), facts);
        let node = to.last();
        (
            found.update(node as int, joined(found[node as int], facts)),
            if news(found[node as int], facts) {
                queue.push(node)
            } else {
                queue
            },
        )
    }
}

/// Where facts have been handed on: nothing is lost, every receiver has them, whoever learned
/// something waits, and nobody else has changed.
pub proof fn lemma_spread<F>(
    found: Seq<Option<Set<F>>>,
    queue: Seq<usize>,
    to: Seq<usize>,
    facts: Set<F>,
)
    requires
        found.len() <= usize::MAX,
        forall|k: int| 0 <= k < to.len() ==> (#[trigger] to[k]) < found.len(),
    ensures
        ({
            let (after, waiting) = spread(found, queue, to, facts);
            &&& after.len() == found.len()
            &&& forall|n: int|
                #![trigger after[n]]
                0 <= n < found.len() ==> {
                    ||| after[n] == found[n] && !to.contains(n as usize)
                    ||| after[n] == joined(found[n], facts) && to.contains(n as usize)
                }
            &&& forall|n: int|
                #![trigger after[n]]
                0 <= n < found.len() && after[n] != found[n] ==> waiting.contains(n as usize)
            &&& forall|n: usize| queue.contains(n) ==> #[trigger] waiting.contains(n)
            &&& forall|n: usize| #[trigger]
                waiting.contains(n) ==> queue.contains(n) || to.contains(n)
        }),
    decreases to.len(),
{
    if to.len() > 0 {
        let init = to.drop_last();
        lemma_spread(found, queue, init, facts);
        let (mid, mid_queue) = spread(found, queue, init, facts);
        let (after, waiting) = spread(found, queue, to, facts);
        let node = to.last();
        assert(node < found.len());
        assert(init.push(node) =~= to);
        assert forall|n: usize| to.contains(n) <==> init.contains(n) || n == node by {
            if to.contains(n) && n != node {
                let k = choose|k: int| 0 <= k < to.len() && to[k] == n;
                assert(init[k] == n);
            }
            if init.contains(n) {
                let k = choose|k: int| 0 <= k < init.len() && init[k] == n;
                assert(to[k] == n);
            }
            assert(to[to.len() - 1] == node);
        }
        assert forall|n: usize| #[trigger] waiting.contains(n) <==> mid_queue.contains(n) || (news(
            mid[node as int],
            facts,
        ) && n == node) by {
            if news(mid[node as int], facts) {
                if waiting.contains(n) && n != node {
                    let k = choose|k: int| 0 <= k < waiting.len() && waiting[k] == n;
                    assert(mid_queue[k] == n);
                }
                if mid_queue.contains(n) {
                    let k = choose|k: int| 0 <= k < mid_queue.len() && mid_queue[k] == n;
                    assert(waiting[k] == n);
                }
                assert(waiting[mid_queue.len() as int] == node);
            }
        }
        if mid[node as int] is Some {
            let known = mid[node as int]->0;
            if facts.subset_of(known) {
                assert(known.union(facts) =~= known);
            }
        }
        assert forall|n: int| #![trigger after[n]] 0 <= n < found.len() implies {
            ||| after[n] == found[n] && !to.contains(n as usize)
            ||| after[n] == joined(found[n], facts) && to.contains(n as usize)
        } by {
            assert(mid[n] == mid[n]);
            if n == node && mid[n] == joined(found[n], facts) {
                let known = mid[n]->0;
                assert(known.union(facts) =~= known);
            }
        }
        assert forall|n: int|
            #![trigger after[n]]
            0 <= n < found.len() && after[n] != found[n] implies waiting.contains(n as usize) by {
            assert(mid[n] == mid[n]);
        }
    }
}

/// Handing on facts takes away room, unless nobody has to wait for it.
pub proof fn lemma_spread_room<F>(
    found: Seq<Option<Set<F>>>,
    queue: Seq<usize>,
    to: Seq<usize>,
    facts: Set<F>,
    within: Set<F>,
)
    requires
        found.len() <= usize::MAX,
        forall|k: int| 0 <= k < to.len() ==> (#[trigger] to[k]) < found.len(),
        within.finite(),
        facts.subset_of(within),
        stays_within(found, within),
    ensures
        ({
            let (after, waiting) = spread(found, queue, to, facts);
            &&& stays_within(after, within)
            &&& room(after, within.len()) <= room(found, within.len())
            &&& room(after, within.len()) == room(found, within.len()) ==> waiting == queue
        }),
    decreases to.len(),
{
    if to.len() > 0 {
        let init = to.drop_last();
        lemma_spread_room(found, queue, init, facts, within);
        lemma_spread(found, queue, init, facts);
        let (mid, mid_queue) = spread(found, queue, init, facts);
        let (after, waiting) = spread(found, queue, to, facts);
        let node = to.last() as int;
        assert(node < found.len());
        lemma_room_update(mid, within.len(), node, joined(mid[node], facts));
        match mid[node] {
            None => {
                vstd::set_lib::lemma_len_subset(facts, within);
            },
            Some(known) => {
                assert(known.subset_of(within));
                if facts.subset_of(known) {
                    assert(known.union(facts) =~= known);
                } else {
                    lemma_room_shrinks(known, facts, within);
                }
            },
        }
    }
}

pub open spec fn stays_within<F>(found: Seq<Option<Set<F>>>, within: Set<F>) -> bool {
    forall|n: int|
        #![trigger found[n]]
        0 <= n < found.len() && found[n] is Some ==> found[n]->0.subset_of(within)
}

/// What holds while a list of waiting nodes is worked through: all that is known is backed by
/// paths, and whoever does not wait has handed on what it knows.
pub open spec fn working<F>(
    flow: Flow<F>,
    entry: int,
    found: Seq<Option<Set<F>>>,
    queue: Seq<usize>,
) -> bool {
    &&& flow_ok(flow)
    &&& found.len() == flow.successors.len()
    &&& found.len() <= usize::MAX
    &&& 0 <= entry < found.len()
    &&& found[entry] is Some
    &&& backed(flow, entry, found)
    &&& forall|k: int|
        #![trigger queue[k]]
        0 <= k < queue.len() ==> queue[k] < found.len() && found[queue[k] as int] is Some
    &&& forall|n: int|
        0 <= n < found.len() && !queue.contains(n as usize) ==> #[trigger] settled_at(
            flow,
            found,
            n,
        )
}

/// Before the first node has had its turn, nothing is known but that the entry is reached.
pub proof fn lemma_work_starts<F>(flow: Flow<F>, entry: int, found: Seq<Option<Set<F>>>)
    requires
        flow_ok(flow),
        found.len() == flow.successors.len(),
        0 <= entry < found.len() <= usize::MAX,
        forall|n: int|
            #![trigger found[n]]
            0 <= n < found.len() ==> found[n] == (if n == entry {
                Some(Set::<F>::empty())
            } else {
                None
            }),
    ensures
        working(flow, entry, found, seq![entry as usize]),
{
    lemma_entry_arrives(flow.successors, entry);
    let queue = seq![entry as usize];
    assert(queue[0] == entry as usize);
    assert forall|n: int|
        0 <= n < found.len() && !queue.contains(n as usize) implies #[trigger] settled_at(
        flow,
        found,
        n,
    ) by {
        assert(n != entry);
        assert(found[n] is None);
    }
}

/// A node that has had its turn leaves the work in order.
pub proof fn lemma_work_step<F>(
    flow: Flow<F>,
    entry: int,
    found: Seq<Option<Set<F>>>,
    queue: Seq<usize>,
)
    requires
        working(flow, entry, found, queue),
        queue.len() > 0,
    ensures
        ({
            let node = queue[0] as int;
            let (after, waiting) = spread(
                found,
                queue.subrange(1, queue.len() as int),
                flow.successors[node],
                passes(flow, node, found[node]->0),
            );
            working(flow, entry, after, waiting)
        }),
{
    let node = queue[0] as int;
    let rest = queue.subrange(1, queue.len() as int);
    let to = flow.successors[node];
    assert(queue[0] < found.len() && found[queue[0] as int] is Some);
    let facts = passes(flow, node, found[node]->0);
    let (after, waiting) = spread(found, rest, to, facts);
    assert forall|k: int| 0 <= k < to.len() implies (#[trigger] to[k]) < found.len() by {
        assert(flow.successors[node][k] < flow.successors.len());
    }
    lemma_spread(found, rest, to, facts);
    assert(after[entry] is Some);
    assert forall|n: int| 0 <= n < after.len() implies backed_at(
        flow,
        entry,
        n,
        #[trigger] after[n],
    ) by {
        assert(backed_at(flow, entry, n, found[n]));
        if after[n] != found[n] {
            assert(to.contains(n as usize));
            assert(backed_at(flow, entry, node, found[node]));
            assert(edge_between(flow.successors, node, n));
            lemma_backed_step(flow, entry, node, found[node]->0, n);
        }
    }
    assert forall|k: int| #![trigger waiting[k]] 0 <= k < waiting.len() implies waiting[k]
        < after.len() && after[waiting[k] as int] is Some by {
        assert(waiting.contains(waiting[k]));
        let n = waiting[k];
        if rest.contains(n) {
            let j = choose|j: int| 0 <= j < rest.len() && rest[j] == n;
            assert(queue[j + 1] == n);
            assert(found[queue[j + 1] as int] is Some);
            assert(after[n as int] == after[n as int]);
        } else {
            let j = choose|j: int| 0 <= j < to.len() && to[j] == n;
            assert(after[n as int] == after[n as int]);
        }
    }
    assert forall|n: int|
        0 <= n < after.len() && !waiting.contains(n as usize) implies #[trigger] settled_at(
        flow,
        after,
        n,
    ) by {
        assert(after[n] == found[n]);
        if !rest.contains(n as usize) {
            if n != node {
                assert forall|k: int| 0 <= k < queue.len() implies queue[k] != n as usize by {
                    if k > 0 {
                        assert(rest[k - 1] == queue[k]);
                    }
                }
                assert(settled_at(flow, found, n));
                if found[n] is Some {
                    let known = passes(flow, n, found[n]->0);
                    assert forall|k: int| 0 <= k < flow.successors[n].len() implies holds_at(
                        after,
                        #[trigger] flow.successors[n][k],
                        known,
                    ) by {
                        let s = flow.successors[n][k];
                        assert(holds_at(found, s, known));
                        assert(s < flow.successors.len());
                        assert(after[s as int] == after[s as int]);
                    }
                }
            } else if found[n] is Some {
                assert forall|k: int| 0 <= k < to.len() implies holds_at(
                    after,
                    #[trigger] flow.successors[node][k],
                    facts,
                ) by {
                    let s = to[k];
                    assert(to.contains(s));
                    assert(after[s as int] == joined(found[s as int], facts));
                }
            }
        } else {
            assert(waiting.contains(n as usize));
        }
    }
}

} // verus!
