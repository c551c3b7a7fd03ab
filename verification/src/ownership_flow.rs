//! Which variables have been moved out of or shared, at every point of a body.

use crate::capture::{collect_globals, global_ids};
use crate::flow_graph::{
    AccessKind, Action, GraphBuilder, GraphView, LoopTargets, NodeView, Task, built, call_loan,
    edges_ok, empty_graph, expr_weight, exprs_weight, graph_ok, handed_loan, known_globals,
    lemma_exprs_add, lemma_step_weight, load, step, task_ok, tasks_weight, with_node, with_task,
};
use crate::flow_laws::{
    law_accepted_graphs_run_harmlessly, law_loans_in_order, loans_are_distinct, runs_are_harmless,
};
use crate::graph_laws::{all_wired, law_graphs_hold_what_programs_do};
use crate::ids::IdSet;
use crate::loans::{
    LoanFacts, active_at, derive_loan_facts, facts_ok, kind_of, lemma_holds, live_into, live_loan,
    loans_fault, loans_of, lookup, may_hold, reached, source_of, successors_of, written_through,
};
use crate::marks::{Mark, apply_marks, mark_at, marked, shell_of, tracks};
use crate::model::{Body, BorrowKind, CheckedProgram, Expr, Item, Place, StructField, place_root};
use crate::paths::{
    Flow, backed_at, carried, flow_ok, joined, lemma_solved, lemma_spread, lemma_spread_room,
    lemma_work_starts, lemma_work_step, passes, room, settled_at, spread, stays_within, working,
};
use crate::place_relation::{PlaceRelation, relation, relation_of};
use crate::sets::{LoanSet, VarSet, lemma_push_to_set};
use crate::types::{
    AliasResult, BindingId, ErrorView, LoanId, Span, Ty, broken_at, broken_invariant, error,
    fault_of, first_fault, lemma_first_fault_at, lemma_no_fault, no_span,
};
use crate::value_categories::{owns_dynamically, type_carries_dynamic_owner};
use crate::visit::{Node, Visit, Walk, program_nodes, program_walk};
use std::collections::{HashMap, HashSet, VecDeque};
use vstd::prelude::*;

verus! {

/// What can be the matter with a variable.
pub enum Fact {
    /// Its value may have been moved out.
    Moved(BindingId),
    /// Its value may be shared.
    Exposed(BindingId),
}

pub struct OwnershipState {
    pub moved: VarSet,
    pub exposed: VarSet,
}

impl View for OwnershipState {
    type V = Set<Fact>;

    open spec fn view(&self) -> Set<Fact> {
        Set::new(
            |fact: Fact|
                match fact {
                    Fact::Moved(id) => self.moved@.contains(id),
                    Fact::Exposed(id) => self.exposed@.contains(id),
                },
        )
    }
}

impl OwnershipState {
    /// Nothing is the matter with any variable.
    pub fn new() -> (r: OwnershipState)
        ensures
            r@ == Set::<Fact>::empty(),
    {
        let r = OwnershipState { moved: VarSet::new(), exposed: VarSet::new() };
        assert(r@ =~= Set::empty());
        r
    }

    pub fn copy(&self) -> (r: OwnershipState)
        ensures
            r@ == self@,
    {
        let r = OwnershipState { moved: self.moved.copy(), exposed: self.exposed.copy() };
        assert(r@ =~= self@);
        r
    }

    /// Adds what may be the matter on another way here; says whether that made a difference.
    pub fn join(&mut self, other: &OwnershipState) -> (r: bool)
        ensures
            final(self)@ == old(self)@.union(other@),
            r == !other@.subset_of(old(self)@),
    {
        let moved = self.moved.absorb(&other.moved);
        let exposed = self.exposed.absorb(&other.exposed);
        proof {
            assert(self@ =~= old(self)@.union(other@));
            if moved {
                let id = choose|id: BindingId|
                    other.moved@.contains(id) && !old(self).moved@.contains(id);
                assert(other@.contains(Fact::Moved(id)) && !old(self)@.contains(Fact::Moved(id)));
            } else if exposed {
                let id = choose|id: BindingId|
                    other.exposed@.contains(id) && !old(self).exposed@.contains(id);
                assert(other@.contains(Fact::Exposed(id)) && !old(self)@.contains(
                    Fact::Exposed(id),
                ));
            }
        }
        moved || exposed
    }

    /// The variable has a value of its own again.
    pub fn initialize(&mut self, id: BindingId)
        ensures
            final(self)@ == old(self)@.remove(Fact::Moved(id)).remove(Fact::Exposed(id)),
    {
        self.moved.remove(id);
        self.exposed.remove(id);
        assert(self@ =~= old(self)@.remove(Fact::Moved(id)).remove(Fact::Exposed(id)));
    }
}

/// Whether a value of the type can be moved out of a variable.
pub fn dynamic_owner(ty: &Ty) -> (r: bool)
    ensures
        r == owns_dynamically(ty@),
{
    type_carries_dynamic_owner(ty)
}

pub open spec fn learned_by<'a>(g: GraphView<'a>, action: Action<'a>) -> Set<Fact> {
    match action {
        Action::Read(id, _, _) => if !g.borrowed.contains(id) && g.eligible.contains(id) {
            set![Fact::Exposed(id)]
        } else {
            Set::empty()
        },
        Action::Move(Place::Local { binding_id, info, .. }, _) => if owns_dynamically(info.ty@) {
            set![Fact::Moved(*binding_id)]
        } else {
            Set::empty()
        },
        _ => Set::empty(),
    }
}

pub open spec fn settled_by<'a>(action: Action<'a>) -> Set<Fact> {
    match action {
        Action::Declare(id) => set![Fact::Moved(id), Fact::Exposed(id)],
        Action::Reinitialize(id, _) => set![Fact::Moved(id), Fact::Exposed(id)],
        _ => Set::empty(),
    }
}

/// How moving, sharing and initialising travel through a graph.
pub open spec fn own_flow<'a>(g: GraphView<'a>) -> Flow<Fact> {
    Flow {
        successors: successors_of(g),
        adds: Seq::new(g.nodes.len(), |i: int| learned_by(g, g.nodes[i].action)),
        drops: Seq::new(g.nodes.len(), |i: int| settled_by(g.nodes[i].action)),
    }
}

/// The place of a loan may share storage with the given place.
pub open spec fn overlaps<'a>(g: GraphView<'a>, loan: LoanId, place: Place) -> bool {
    source_of(g, loan) matches Some(source) && relation_of(*source, place)
        != PlaceRelation::Disjoint
}

/// A loan that is still to be used may share storage with the given place; with `any_kind` off,
/// only loans that let their holder write count.
pub open spec fn overlapped<'a>(
    g: GraphView<'a>,
    entry: int,
    n: int,
    place: Place,
    any_kind: bool,
) -> bool {
    exists|loan: LoanId| #[trigger]
        active_at(g, entry, n, loan) && overlaps(g, loan, place) && (any_kind || kind_of(
            g,
            entry,
            loan,
        ) == BorrowKind::Write)
}

/// A loan that is still to be used is of a place within the given variable.
pub open spec fn lent<'a>(
    g: GraphView<'a>,
    entry: int,
    n: int,
    id: BindingId,
    any_kind: bool,
) -> bool {
    exists|loan: LoanId| #[trigger]
        active_at(g, entry, n, loan) && (source_of(g, loan) matches Some(source) && place_root(
            *source,
        ) == id) && (any_kind || kind_of(g, entry, loan) == BorrowKind::Write)
}

pub open spec fn told(span: Span, msg: Seq<char>) -> Option<ErrorView> {
    Some(ErrorView { msg, span })
}

/// What is wrong with a node, given what may be the matter with the variables before it.
pub open spec fn node_fault<'a>(
    g: GraphView<'a>,
    entry: int,
    n: int,
    facts: Set<Fact>,
) -> Option<ErrorView> {
    match g.nodes[n].action {
        Action::Nop => None,
        Action::Read(id, access, span) => if g.borrowed.contains(id) {
            if exists|loan: LoanId| #[trigger] may_hold(g, entry, n, id, loan) {
                None
            } else {
                told(span, "borrowed binding 使用点没有 live loan"@)
            }
        } else if facts.contains(Fact::Moved(id)) {
            told(span, "值已被 move，重新初始化前不能读取"@)
        } else if lent(g, entry, n, id, access == AccessKind::Write) {
            told(span, "owner access 与 live loan 冲突"@)
        } else {
            None
        },
        Action::CloneRead(source, span) => if facts.contains(Fact::Moved(place_root(*source))) {
            told(span, "值已被 move，重新初始化前不能读取"@)
        } else if overlapped(g, entry, n, *source, false) {
            told(span, "owner read 与 live WriteLoan 冲突"@)
        } else {
            None
        },
        Action::Borrow { loan_id, source, span, .. } => {
            let root = place_root(*source);
            let kind = kind_of(g, entry, loan_id);
            if !g.owning.contains(root) && !g.globals.contains(root) {
                told(span, "borrow source 尚未证明为当前函数内的 owning Place"@)
            } else if facts.contains(Fact::Moved(root)) {
                told(span, "值已被 move，不能再建立 borrow"@)
            } else if kind == BorrowKind::Write && facts.contains(Fact::Exposed(root)) {
                told(span, "WriteLoan source 已被先前共享读取或 closure 捕获"@)
            } else if live_loan(g, loan_id) && overlapped(
                g,
                entry,
                n,
                *source,
                kind == BorrowKind::Write,
            ) {
                told(span, "新 loan 与现有 live loan 冲突"@)
            } else {
                None
            }
        },
        Action::BindLoan(_, _) => None,
        Action::Write(target, span) => if facts.contains(Fact::Moved(place_root(*target))) {
            told(span, "值已被 move，重新初始化前不能写入"@)
        } else if overlapped(g, entry, n, *target, true) {
            told(span, "owner write 与 live loan 冲突"@)
        } else {
            None
        },
        Action::Move(source, span) => {
            let root = place_root(*source);
            if !g.owning.contains(root) {
                if g.borrowed.contains(root) {
                    told(span, "borrowed Place 不携带 ownership capability，不能 move"@)
                } else {
                    told(span, "move source 尚未证明为当前函数内的 owning local"@)
                }
            } else if overlapped(g, entry, n, *source, true) {
                told(span, "move source 与 live loan 冲突"@)
            } else if !owns_dynamically(source.spec_info().ty@) {
                None
            } else {
                match *source {
                    Place::Local { binding_id, .. } => if !g.eligible.contains(binding_id) {
                        told(span, "move source 尚未证明为当前函数内的 owning local"@)
                    } else if facts.contains(Fact::Exposed(binding_id)) {
                        told(
                            span,
                            "move source 已被先前普通读取或 closure 捕获，无法证明 ownership 唯一"@,
                        )
                    } else if facts.contains(Fact::Moved(binding_id)) {
                        told(span, "ownership capability 已被 move"@)
                    } else {
                        None
                    },
                    _ => told(span, "move source 必须是完整 local owning Place"@),
                }
            }
        },
        Action::Declare(_) => None,
        Action::Reinitialize(id, span) => if lent(g, entry, n, id, true) {
            told(span, "owner reinitialization 与 live loan 冲突"@)
        } else {
            None
        },
    }
}

/// A variable may hold a loan at a node, by the facts.
pub open spec fn holds_by<'a>(facts: LoanFacts<'a>, n: int, binding: BindingId, loan: LoanId) -> bool {
    match facts.reaching@[n] {
        Some(pairs) => pairs@.contains((binding, loan)),
        None => false,
    }
}

/// A loan is still to be used at a node, by the facts.
pub open spec fn active_by<'a>(facts: LoanFacts<'a>, n: int, loan: LoanId) -> bool {
    exists|binding: BindingId| #[trigger]
        facts.live_in@[n]@.contains(binding) && holds_by(facts, n, binding, loan)
}

/// The loans that are still to be used at a node.
pub fn active_loans<'a>(facts: &LoanFacts<'a>, node_id: usize) -> (r: LoanSet)
    requires
        node_id < facts.live_in@.len(),
        node_id < facts.reaching@.len(),
    ensures
        forall|loan: LoanId| #[trigger]
            r@.contains(loan) == active_by(*facts, node_id as int, loan),
{
    let ghost n = node_id as int;
    let mut active = LoanSet::new();
    let live = &facts.live_in[node_id];
    let mut i: usize = 0;
    while i < live.list.len()
        invariant
            i <= live.list.len(),
            n == node_id,
            node_id < facts.live_in@.len(),
            node_id < facts.reaching@.len(),
            live == facts.live_in@[n],
            forall|loan: LoanId| #[trigger]
                active@.contains(loan) == exists|j: int|
                    0 <= j < i && holds_by(*facts, n, #[trigger] live.list@[j], loan),
        decreases live.list.len() - i,
    {
        let binding = live.list[i];
        let loans = loans_of(&facts.reaching[node_id], binding);
        let ghost before = active@;
        let mut k: usize = 0;
        while k < loans.len()
            invariant
                k <= loans.len(),
                forall|loan: LoanId| #[trigger]
                    active@.contains(loan) == (before.contains(loan) || loans@.take(
                        k as int,
                    ).contains(loan)),
            decreases loans.len() - k,
        {
            let ghost a = active@;
            let ghost part = loans@.take(k as int);
            let _ = active.insert(loans[k]);
            proof {
                assert(loans@.take(k + 1) =~= part.push(loans@[k as int]));
                lemma_push_to_set(part, loans@[k as int]);
                assert forall|loan: LoanId| #[trigger]
                    active@.contains(loan) == (before.contains(loan) || loans@.take(
                        k + 1,
                    ).contains(loan)) by {
                    assert(a.contains(loan) == (before.contains(loan) || part.contains(loan)));
                    assert(part.to_set().contains(loan) == part.contains(loan));
                    assert(loans@.take(k + 1).to_set().contains(loan) == loans@.take(
                        k + 1,
                    ).contains(loan));
                }
            }
            k += 1;
        }
        proof {
            assert(loans@.take(k as int) =~= loans@);
            assert forall|loan: LoanId| #[trigger]
                active@.contains(loan) == exists|j: int|
                    0 <= j < i + 1 && holds_by(*facts, n, #[trigger] live.list@[j], loan) by {
                assert(loans@.contains(loan) == holds_by(*facts, n, binding, loan));
                assert(before.contains(loan) == exists|j: int|
                    0 <= j < i && holds_by(*facts, n, #[trigger] live.list@[j], loan));
                if loans@.contains(loan) {
                    assert(holds_by(*facts, n, live.list@[i as int], loan));
                }
            }
        }
        i += 1;
    }
    proof {
        assert forall|loan: LoanId| #[trigger]
            active@.contains(loan) == active_by(*facts, n, loan) by {
            if active@.contains(loan) {
                let j = choose|j: int|
                    0 <= j < live.list@.len() && holds_by(*facts, n, #[trigger] live.list@[j], loan);
                assert(facts.live_in@[n]@.contains(live.list@[j]));
            }
            if active_by(*facts, n, loan) {
                let b = choose|b: BindingId| #[trigger]
                    facts.live_in@[n]@.contains(b) && holds_by(*facts, n, b, loan);
                let j = choose|j: int| 0 <= j < live.list@.len() && live.list@[j] == b;
                assert(holds_by(*facts, n, live.list@[j], loan));
            }
        }
    }
    active
}

/// By the facts of a graph a loan is active where it is.
proof fn lemma_active<'a>(facts: LoanFacts<'a>, g: GraphView<'a>, entry: int, n: int)
    requires
        facts_ok(facts, g, entry),
        0 <= n < g.nodes.len(),
    ensures
        forall|loan: LoanId| #[trigger]
            active_by(facts, n, loan) == active_at(g, entry, n, loan),
        forall|b: BindingId, loan: LoanId|
            may_hold(g, entry, n, b, loan) == #[trigger] holds_by(facts, n, b, loan),
{
    lemma_holds(g, entry, facts.reaching@, n);
    assert forall|loan: LoanId| #[trigger]
        active_by(facts, n, loan) == active_at(g, entry, n, loan) by {
        if active_by(facts, n, loan) {
            let b = choose|b: BindingId| #[trigger]
                facts.live_in@[n]@.contains(b) && holds_by(facts, n, b, loan);
            assert(live_into(g, n, b) && may_hold(g, entry, n, b, loan));
        }
        if active_at(g, entry, n, loan) {
            let b = choose|b: BindingId| #[trigger]
                live_into(g, n, b) && may_hold(g, entry, n, b, loan);
            assert(facts.live_in@[n]@.contains(b) && holds_by(facts, n, b, loan));
        }
    }
}

/// The place of a loan may share storage with the given place, by the facts.
pub open spec fn overlaps_by<'a>(facts: LoanFacts<'a>, loan: LoanId, place: Place) -> bool {
    lookup(facts.sources@, loan) matches Some(source) && relation_of(*source, place)
        != PlaceRelation::Disjoint
}

/// Whether the place of a loan may share storage with the given place.
pub fn loan_overlaps<'a>(facts: &LoanFacts<'a>, loan_id: LoanId, place: &Place) -> (r: bool)
    ensures
        r == overlaps_by(*facts, loan_id, *place),
{
    match facts.source(loan_id) {
        Some(source) => relation(source, place) != PlaceRelation::Disjoint,
        None => false,
    }
}

fn any_overlap<'a>(
    facts: &LoanFacts<'a>,
    active: &LoanSet,
    place: &Place,
    any_kind: bool,
) -> (r: bool)
    ensures
        r == exists|loan: LoanId| #[trigger]
            active@.contains(loan) && overlaps_by(*facts, loan, *place) && (any_kind
                || facts.written@.contains(loan)),
{
    let mut i: usize = 0;
    while i < active.list.len()
        invariant
            i <= active.list.len(),
            forall|j: int|
                0 <= j < i ==> !(overlaps_by(*facts, #[trigger] active.list@[j], *place) && (
                any_kind || facts.written@.contains(active.list@[j]))),
        decreases active.list.len() - i,
    {
        let loan = active.list[i];
        if loan_overlaps(facts, loan, place) && (any_kind || facts.written.contains(loan)) {
            assert(active@.contains(active.list@[i as int]));
            return true;
        }
        i += 1;
    }
    proof {
        assert forall|loan: LoanId| !(#[trigger] active@.contains(loan) && overlaps_by(
            *facts,
            loan,
            *place,
        ) && (any_kind || facts.written@.contains(loan))) by {
            if active@.contains(loan) {
                let j = choose|j: int| 0 <= j < active.list@.len() && active.list@[j] == loan;
                assert(active.list@[j] == loan);
            }
        }
    }
    false
}

pub open spec fn rooted_by<'a>(facts: LoanFacts<'a>, loan: LoanId, id: BindingId) -> bool {
    lookup(facts.sources@, loan) matches Some(source) && place_root(*source) == id
}

fn any_lent<'a>(facts: &LoanFacts<'a>, active: &LoanSet, id: BindingId, any_kind: bool) -> (r: bool)
    ensures
        r == exists|loan: LoanId| #[trigger]
            active@.contains(loan) && rooted_by(*facts, loan, id) && (any_kind
                || facts.written@.contains(loan)),
{
    let mut i: usize = 0;
    while i < active.list.len()
        invariant
            i <= active.list.len(),
            forall|j: int|
                0 <= j < i ==> !(rooted_by(*facts, #[trigger] active.list@[j], id) && (any_kind
                    || facts.written@.contains(active.list@[j]))),
        decreases active.list.len() - i,
    {
        let loan = active.list[i];
        let rooted = match facts.source(loan) {
            Some(source) => source.root_binding_id() == id,
            None => false,
        };
        if rooted && (any_kind || facts.written.contains(loan)) {
            assert(active@.contains(active.list@[i as int]));
            return true;
        }
        i += 1;
    }
    proof {
        assert forall|loan: LoanId| !(#[trigger] active@.contains(loan) && rooted_by(
            *facts,
            loan,
            id,
        ) && (any_kind || facts.written@.contains(loan))) by {
            if active@.contains(loan) {
                let j = choose|j: int| 0 <= j < active.list@.len() && active.list@[j] == loan;
                assert(active.list@[j] == loan);
            }
        }
    }
    false
}

/// By the facts of a graph, conflicts are where they are.
proof fn lemma_conflicts<'a>(
    facts: LoanFacts<'a>,
    active: LoanSet,
    g: GraphView<'a>,
    entry: int,
    n: int,
)
    requires
        facts_ok(facts, g, entry),
        0 <= n < g.nodes.len(),
        forall|loan: LoanId| #[trigger] active@.contains(loan) == active_by(facts, n, loan),
    ensures
        forall|place: Place, any_kind: bool| #[trigger]
            overlapped(g, entry, n, place, any_kind) == exists|loan: LoanId| #[trigger]
                active@.contains(loan) && overlaps_by(facts, loan, place) && (any_kind
                    || facts.written@.contains(loan)),
        forall|id: BindingId, any_kind: bool| #[trigger]
            lent(g, entry, n, id, any_kind) == exists|loan: LoanId| #[trigger]
                active@.contains(loan) && rooted_by(facts, loan, id) && (any_kind
                    || facts.written@.contains(loan)),
{
    lemma_active(facts, g, entry, n);
    assert forall|place: Place, any_kind: bool| #[trigger]
        overlapped(g, entry, n, place, any_kind) == exists|loan: LoanId| #[trigger]
            active@.contains(loan) && overlaps_by(facts, loan, place) && (any_kind
                || facts.written@.contains(loan)) by {
        if overlapped(g, entry, n, place, any_kind) {
            let loan = choose|loan: LoanId| #[trigger]
                active_at(g, entry, n, loan) && overlaps(g, loan, place) && (any_kind || kind_of(
                    g,
                    entry,
                    loan,
                ) == BorrowKind::Write);
            assert(active_by(facts, n, loan));
            assert(lookup(facts.sources@, loan) == source_of(g, loan));
            assert(active@.contains(loan));
            assert(facts.written@.contains(loan) == written_through(g, entry, loan));
        }
        if exists|loan: LoanId| #[trigger]
            active@.contains(loan) && overlaps_by(facts, loan, place) && (any_kind
                || facts.written@.contains(loan)) {
            let loan = choose|loan: LoanId| #[trigger]
                active@.contains(loan) && overlaps_by(facts, loan, place) && (any_kind
                    || facts.written@.contains(loan));
            assert(active_at(g, entry, n, loan));
            assert(lookup(facts.sources@, loan) == source_of(g, loan));
            assert(facts.written@.contains(loan) == written_through(g, entry, loan));
        }
    }
    assert forall|id: BindingId, any_kind: bool| #[trigger]
        lent(g, entry, n, id, any_kind) == exists|loan: LoanId| #[trigger]
            active@.contains(loan) && rooted_by(facts, loan, id) && (any_kind
                || facts.written@.contains(loan)) by {
        if lent(g, entry, n, id, any_kind) {
            let loan = choose|loan: LoanId| #[trigger]
                active_at(g, entry, n, loan) && (source_of(g, loan) matches Some(source)
                    && place_root(*source) == id) && (any_kind || kind_of(g, entry, loan)
                    == BorrowKind::Write);
            assert(active_by(facts, n, loan));
            assert(lookup(facts.sources@, loan) == source_of(g, loan));
            assert(active@.contains(loan));
            assert(facts.written@.contains(loan) == written_through(g, entry, loan));
        }
        if exists|loan: LoanId| #[trigger]
            active@.contains(loan) && rooted_by(facts, loan, id) && (any_kind
                || facts.written@.contains(loan)) {
            let loan = choose|loan: LoanId| #[trigger]
                active@.contains(loan) && rooted_by(facts, loan, id) && (any_kind
                    || facts.written@.contains(loan));
            assert(active_at(g, entry, n, loan));
            assert(lookup(facts.sources@, loan) == source_of(g, loan));
            assert(facts.written@.contains(loan) == written_through(g, entry, loan));
        }
    }
}

/// Lets one node act on the state before it.
fn visit_node<'a>(
    graph: &GraphBuilder<'a>,
    facts: &LoanFacts<'a>,
    node_id: usize,
    state: &mut OwnershipState,
    Ghost(entry): Ghost<int>,
) -> (r: AliasResult<()>)
    requires
        facts_ok(*facts, graph@, entry),
        node_id < graph@.nodes.len(),
    ensures
        fault_of(r) == node_fault(graph@, entry, node_id as int, old(state)@),
        r is Ok ==> final(state)@ == passes(own_flow(graph@), node_id as int, old(state)@),
{
    let ghost g = graph@;
    let ghost n = node_id as int;
    let ghost before = state@;
    let active = active_loans(facts, node_id);
    proof {
        assert(g.nodes[n].action == graph.nodes@[n].action);
        lemma_active(*facts, g, entry, n);
        lemma_conflicts(*facts, active, g, entry, n);
        assert(passes(own_flow(g), n, before) == before.difference(
            settled_by(g.nodes[n].action),
        ).union(learned_by(g, g.nodes[n].action)));
    }
    match graph.nodes[node_id].action {
        Action::Nop => {},
        Action::Read(id, access, span) => {
            if graph.borrowed.contains(id) {
                let loans = loans_of(&facts.reaching[node_id], id);
                proof {
                    assert forall|l: LoanId| #[trigger]
                        loans@.contains(l) == may_hold(g, entry, n, id, l) by {
                        assert(may_hold(g, entry, n, id, l) == holds_by(*facts, n, id, l));
                    }
                }
                if loans.len() == 0 {
                    proof {
                        assert forall|l: LoanId| !#[trigger] may_hold(g, entry, n, id, l) by {
                            assert(!loans@.contains(l));
                        }
                    }
                    return Err(error(span, "borrowed binding 使用点没有 live loan"));
                }
                assert(loans@.contains(loans@[0]));
                assert(may_hold(g, entry, n, id, loans@[0]));
            } else {
                if state.moved.contains(id) {
                    return Err(error(span, "值已被 move，重新初始化前不能读取"));
                }
                if any_lent(facts, &active, id, access == AccessKind::Write) {
                    return Err(error(span, "owner access 与 live loan 冲突"));
                }
                if graph.eligible.contains(id) {
                    let _ = state.exposed.insert(id);
                }
            }
        },
        Action::CloneRead(source, span) => {
            if state.moved.contains(source.root_binding_id()) {
                return Err(error(span, "值已被 move，重新初始化前不能读取"));
            }
            if any_overlap(facts, &active, source, false) {
                return Err(error(span, "owner read 与 live WriteLoan 冲突"));
            }
        },
        Action::Borrow { loan_id, source, declared_kind: _, span } => {
            let root = source.root_binding_id();
            if !graph.owning.contains(root) && !is_global(graph, root) {
                return Err(
                    error(span, "borrow source 尚未证明为当前函数内的 owning Place"),
                );
            }
            if state.moved.contains(root) {
                return Err(error(span, "值已被 move，不能再建立 borrow"));
            }
            let kind = facts.kind(loan_id);
            proof {
                assert(facts.written@.contains(loan_id) == written_through(
                    g,
                    entry,
                    loan_id,
                ));
                assert(facts.live@.contains(loan_id) == live_loan(g, loan_id));
            }
            if kind == BorrowKind::Write && state.exposed.contains(root) {
                return Err(
                    error(span, "WriteLoan source 已被先前共享读取或 closure 捕获"),
                );
            }
            if facts.live.contains(loan_id) && any_overlap(
                facts,
                &active,
                source,
                kind == BorrowKind::Write,
            ) {
                return Err(error(span, "新 loan 与现有 live loan 冲突"));
            }
        },
        Action::BindLoan(_, _) => {},
        Action::Write(target, span) => {
            if state.moved.contains(target.root_binding_id()) {
                return Err(error(span, "值已被 move，重新初始化前不能写入"));
            }
            if any_overlap(facts, &active, target, true) {
                return Err(error(span, "owner write 与 live loan 冲突"));
            }
        },
        Action::Move(source, span) => {
            let root = source.root_binding_id();
            if !graph.owning.contains(root) {
                if graph.borrowed.contains(root) {
                    return Err(
                        error(span, "borrowed Place 不携带 ownership capability，不能 move"),
                    );
                }
                return Err(error(span, "move source 尚未证明为当前函数内的 owning local"));
            }
            if any_overlap(facts, &active, source, true) {
                return Err(error(span, "move source 与 live loan 冲突"));
            }
            if dynamic_owner(source.ty()) {
                match source {
                    Place::Local { binding_id, .. } => {
                        if !graph.eligible.contains(*binding_id) {
                            return Err(
                                error(
                                    span,
                                    "move source 尚未证明为当前函数内的 owning local",
                                ),
                            );
                        }
                        if state.exposed.contains(*binding_id) {
                            return Err(
                                error(
                                    span,
                                    "move source 已被先前普通读取或 closure 捕获，无法证明 ownership 唯一",
                                ),
                            );
                        }
                        if !state.moved.insert(*binding_id) {
                            return Err(error(span, "ownership capability 已被 move"));
                        }
                    },
                    _ => {
                        return Err(error(span, "move source 必须是完整 local owning Place"));
                    },
                }
            }
        },
        Action::Declare(id) => {
            state.initialize(id);
        },
        Action::Reinitialize(id, span) => {
            if any_lent(facts, &active, id, true) {
                return Err(error(span, "owner reinitialization 与 live loan 冲突"));
            }
            state.initialize(id);
        },
    }
    assert(state@ =~= passes(own_flow(g), n, before));
    Ok(())
}

/// How far the analysis of a graph has come: what is known at each node, and which nodes wait for
/// their turn.
pub struct FlowState {
    pub found: Seq<Option<Set<Fact>>>,
    pub queue: Seq<usize>,
}

pub open spec fn flow_start<'a>(g: GraphView<'a>, entry: int) -> FlowState {
    FlowState {
        found: Seq::new(
            g.nodes.len(),
            |n: int|
                if n == entry {
                    Some(Set::<Fact>::empty())
                } else {
                    None
                },
        ),
        queue: seq![entry as usize],
    }
}

pub open spec fn known_at(state: FlowState, n: int) -> Set<Fact> {
    match state.found[n] {
        Some(facts) => facts,
        None => Set::empty(),
    }
}

/// The first node in the queue has its turn: it is found to be wrong, or it hands on what holds
/// after it.
pub open spec fn flow_step<'a>(g: GraphView<'a>, entry: int, state: FlowState) -> Result<
    FlowState,
    ErrorView,
> {
    let n = state.queue[0] as int;
    let facts = known_at(state, n);
    match node_fault(g, entry, n, facts) {
        Some(error) => Err(error),
        None => {
            let (found, queue) = spread(
                state.found,
                state.queue.subrange(1, state.queue.len() as int),
                g.nodes[n].successors,
                passes(own_flow(g), n, facts),
            );
            Ok(FlowState { found, queue })
        },
    }
}

/// One turn after another, from the start.
pub open spec fn flow_run<'a>(g: GraphView<'a>, entry: int, run: Seq<FlowState>) -> bool {
    &&& run.len() > 0
    &&& run[0] == flow_start(g, entry)
    &&& forall|i: int|
        #![trigger run[i]]
        0 <= i < run.len() - 1 ==> run[i].queue.len() > 0 && flow_step(g, entry, run[i])
            == Ok::<FlowState, ErrorView>(run[i + 1])
}

/// What a run ends with: nobody waits any more, or a node is found to be wrong.
pub open spec fn run_ends<'a>(
    g: GraphView<'a>,
    entry: int,
    run: Seq<FlowState>,
    fault: Option<ErrorView>,
) -> bool {
    match fault {
        None => run.last().queue.len() == 0,
        Some(error) => run.last().queue.len() > 0 && flow_step(g, entry, run.last()) == Err::<
            FlowState,
            ErrorView,
        >(error),
    }
}

pub open spec fn flow_ends<'a>(g: GraphView<'a>, entry: int, fault: Option<ErrorView>) -> bool {
    exists|run: Seq<FlowState>| #[trigger] flow_run(g, entry, run) && run_ends(g, entry, run, fault)
}

/// What the analysis of a graph reports.
pub open spec fn flow_fault<'a>(g: GraphView<'a>, entry: int) -> Option<ErrorView> {
    choose|fault: Option<ErrorView>| flow_ends(g, entry, fault)
}

proof fn lemma_runs_agree<'a>(
    g: GraphView<'a>,
    entry: int,
    a: Seq<FlowState>,
    b: Seq<FlowState>,
    i: int,
)
    requires
        flow_run(g, entry, a),
        flow_run(g, entry, b),
        0 <= i < a.len(),
        i < b.len(),
    ensures
        a[i] == b[i],
    decreases i,
{
    if i > 0 {
        lemma_runs_agree(g, entry, a, b, i - 1);
        assert(flow_step(g, entry, a[i - 1]) == Ok::<FlowState, ErrorView>(a[i - 1 + 1]));
        assert(flow_step(g, entry, b[i - 1]) == Ok::<FlowState, ErrorView>(b[i - 1 + 1]));
    }
}

/// The analysis of a graph reports one thing only.
pub proof fn law_flow_is_deterministic<'a>(
    g: GraphView<'a>,
    entry: int,
    a: Option<ErrorView>,
    b: Option<ErrorView>,
)
    requires
        flow_ends(g, entry, a),
        flow_ends(g, entry, b),
    ensures
        a == b,
{
    let ra = choose|run: Seq<FlowState>| #[trigger]
        flow_run(g, entry, run) && run_ends(g, entry, run, a);
    let rb = choose|run: Seq<FlowState>| #[trigger]
        flow_run(g, entry, run) && run_ends(g, entry, run, b);
    let i = if ra.len() <= rb.len() {
        ra.len() - 1
    } else {
        rb.len() - 1
    };
    lemma_runs_agree(g, entry, ra, rb, i);
    if ra.len() < rb.len() {
        assert(rb[i].queue.len() > 0);
    } else if rb.len() < ra.len() {
        assert(ra[i].queue.len() > 0);
    }
}

/// No node that is reached is wrong, given all that may be the matter on some way to it.
pub open spec fn flow_clean<'a>(g: GraphView<'a>, entry: int) -> bool {
    forall|n: int|
        0 <= n < g.nodes.len() && #[trigger] reached(g, entry, n) ==> node_fault(
            g,
            entry,
            n,
            carried(own_flow(g), entry, n),
        ) is None
}

/// Whoever knows more finds no less wrong.
pub proof fn law_more_facts_more_faults<'a>(
    g: GraphView<'a>,
    entry: int,
    n: int,
    fewer: Set<Fact>,
    more: Set<Fact>,
)
    requires
        fewer.subset_of(more),
        node_fault(g, entry, n, fewer) is Some,
    ensures
        node_fault(g, entry, n, more) is Some,
{
}

/// The mathematical value of what is known at the nodes.
pub open spec fn own_views(found: Seq<Option<OwnershipState>>) -> Seq<Option<Set<Fact>>> {
    found.map_values(
        |known: Option<OwnershipState>|
            match known {
                None => None::<Set<Fact>>,
                Some(state) => Some(state@),
            },
    )
}

/// Hands on a state to the nodes that follow.
pub fn continue_state<'a>(
    inputs: &mut Vec<Option<OwnershipState>>,
    queue: &mut VecDeque<usize>,
    graph: &GraphBuilder<'a>,
    node_id: usize,
    state: &OwnershipState,
)
    requires
        node_id < graph@.nodes.len(),
        old(inputs)@.len() == graph@.nodes.len(),
        edges_ok(graph@.nodes),
    ensures
        (own_views(final(inputs)@), final(queue)@) == spread(
            own_views(old(inputs)@),
            old(queue)@,
            graph@.nodes[node_id as int].successors,
            state@,
        ),
        final(inputs)@.len() == old(inputs)@.len(),
{
    let to = &graph.nodes[node_id].successors;
    assert(to@ == graph@.nodes[node_id as int].successors);
    assert forall|k: int| 0 <= k < to@.len() implies (#[trigger] to@[k]) < inputs@.len() by {
        assert(graph@.nodes[node_id as int].successors[k] < graph@.nodes.len());
    }
    let mut i: usize = 0;
    assert(to@.subrange(0, 0) =~= Seq::<usize>::empty());
    while i < to.len()
        invariant
            i <= to.len(),
            forall|k: int| 0 <= k < to@.len() ==> (#[trigger] to@[k]) < inputs@.len(),
            inputs@.len() == old(inputs)@.len(),
            (own_views(inputs@), queue@) == spread(
                own_views(old(inputs)@),
                old(queue)@,
                to@.subrange(0, i as int),
                state@,
            ),
        decreases to.len() - i,
    {
        let node = to[i];
        let ghost before = inputs@;
        proof {
            assert(to@.subrange(0, i + 1).drop_last() =~= to@.subrange(0, i as int));
        }
        let mut known: Option<OwnershipState> = None;
        std::mem::swap(&mut known, &mut inputs[node]);
        let changed = match known {
            None => {
                inputs[node] = Some(state.copy());
                true
            },
            Some(mut existing) => {
                let grown = existing.join(state);
                inputs[node] = Some(existing);
                grown
            },
        };
        assert(own_views(inputs@) =~= own_views(before).update(
            node as int,
            joined(own_views(before)[node as int], state@),
        ));
        if changed {
            queue.push_back(node);
        }
        i += 1;
    }
    assert(to@.subrange(0, i as int) =~= to@);
}

/// All that can be the matter with the variables of a graph.
pub open spec fn all_facts<'a>(g: GraphView<'a>) -> Set<Fact> {
    fact_list(g).to_set()
}

pub open spec fn fact_list<'a>(g: GraphView<'a>) -> Seq<Fact> {
    Seq::new(
        g.nodes.len(),
        |i: int|
            match g.nodes[i].action {
                Action::Read(id, _, _) => Fact::Exposed(id),
                Action::Move(Place::Local { binding_id, .. }, _) => Fact::Moved(*binding_id),
                _ => Fact::Exposed(BindingId(0)),
            },
    )
}

proof fn lemma_own_flow_ok<'a>(g: GraphView<'a>)
    requires
        edges_ok(g.nodes),
    ensures
        flow_ok(own_flow(g)),
{
    let flow = own_flow(g);
    assert forall|i: int, k: int|
        #![trigger flow.successors[i][k]]
        0 <= i < flow.successors.len() && 0 <= k
            < flow.successors[i].len() implies flow.successors[i][k] < flow.successors.len() by {
        assert(g.nodes[i].successors[k] < g.nodes.len());
    }
}

/// Analyses a graph: follows what happens to the variables along all ways through it, and reports
/// the first node that is found to be wrong.
pub fn run_dataflow<'a>(graph: &GraphBuilder<'a>, entry: usize, facts: &LoanFacts<'a>) -> (r:
    AliasResult<()>)
    requires
        graph_ok(graph@),
        entry < graph@.nodes.len(),
        facts_ok(*facts, graph@, entry as int),
    ensures
        fault_of(r) == flow_fault(graph@, entry as int),
        flow_ends(graph@, entry as int, fault_of(r)),
        r is Ok == flow_clean(graph@, entry as int),
        r is Ok && loans_are_distinct(graph@) ==> runs_are_harmless(graph@, entry as int),
{
    let ghost g = graph@;
    let ghost start = entry as int;
    let ghost flow = own_flow(g);
    let ghost within = all_facts(g);
    let mut inputs: Vec<Option<OwnershipState>> = Vec::new();
    let mut i: usize = 0;
    while i < graph.nodes.len()
        invariant
            i <= graph.nodes.len(),
            inputs@.len() == i,
            forall|n: int| 0 <= n < i ==> (#[trigger] inputs@[n]) == None::<OwnershipState>,
        decreases graph.nodes.len() - i,
    {
        inputs.push(None);
        i += 1;
    }
    inputs[entry] = Some(OwnershipState::new());
    let mut queue: VecDeque<usize> = VecDeque::new();
    queue.push_back(entry);
    let ghost mut run: Seq<FlowState> = seq![flow_start(g, start)];
    proof {
        lemma_own_flow_ok(g);
        assert(queue@ =~= seq![start as usize]);
        assert(own_views(inputs@) =~= flow_start(g, start).found);
        lemma_work_starts(flow, start, own_views(inputs@));
        vstd::seq_lib::seq_to_set_is_finite(fact_list(g));
        assert(stays_within(own_views(inputs@), within));
        assert forall|n: int|
            0 <= n < g.nodes.len() && !queue@.contains(n as usize) && (
            #[trigger] own_views(inputs@)[n]) is Some implies node_fault(
            g,
            start,
            n,
            own_views(inputs@)[n]->0,
        ) is None by {
            assert(queue@[0] == entry);
            assert(n == start);
        }
    }
    loop
        invariant_except_break
            flow_run(g, start, run),
            run.last() == (FlowState { found: own_views(inputs@), queue: queue@ }),
            working(flow, start, own_views(inputs@), queue@),
            forall|n: int|
                0 <= n < g.nodes.len() && !queue@.contains(n as usize) && (
                #[trigger] own_views(inputs@)[n]) is Some ==> node_fault(
                    g,
                    start,
                    n,
                    own_views(inputs@)[n]->0,
                ) is None,
        invariant
            g == graph@,
            start == entry as int,
            graph_ok(g),
            entry < g.nodes.len(),
            facts_ok(*facts, g, start),
            flow == own_flow(g),
            within == all_facts(g),
            within.finite(),
            stays_within(own_views(inputs@), within),
            inputs@.len() == g.nodes.len(),
        ensures
            flow_ends(g, start, None),
            flow_clean(g, start),
        decreases room(own_views(inputs@), within.len()), queue@.len(),
    {
        let ghost before = own_views(inputs@);
        let ghost waiting = queue@;
        match queue.pop_front() {
            None => {
                proof {
                    assert forall|n: int| 0 <= n < inputs@.len() implies #[trigger] settled_at(
                        flow,
                        before,
                        n,
                    ) by {
                        assert(!queue@.contains(n as usize));
                    }
                    lemma_solved(flow, start, before);
                    assert(run_ends(g, start, run, None));
                    assert forall|n: int|
                        0 <= n < g.nodes.len() && #[trigger] reached(
                            g,
                            start,
                            n,
                        ) implies node_fault(g, start, n, carried(flow, start, n)) is None by {
                        assert(before[n] == Some(carried(flow, start, n)));
                        assert(!queue@.contains(n as usize));
                    }
                }
                break;
            },
            Some(node_id) => {
                let ghost n = node_id as int;
                proof {
                    assert(waiting[0] == node_id);
                    assert(waiting[0] < before.len() && before[waiting[0] as int] is Some);
                    assert(queue@ =~= waiting.subrange(1, waiting.len() as int));
                    assert(known_at(run.last(), n) == before[n]->0);
                    assert(before[n]->0.subset_of(within));
                }
                let mut state = match &inputs[node_id] {
                    Some(known) => known.copy(),
                    None => OwnershipState::new(),
                };
                assert(state@ == before[n]->0);
                match visit_node(graph, facts, node_id, &mut state, Ghost(start)) {
                    Err(error) => {
                        proof {
                            assert(run_ends(g, start, run, Some(error@)));
                            assert(flow_ends(g, start, Some(error@)));
                            law_flow_is_deterministic(
                                g,
                                start,
                                Some(error@),
                                flow_fault(g, start),
                            );
                            assert(backed_at(flow, start, n, before[n]));
                            assert(reached(g, start, n));
                            law_more_facts_more_faults(
                                g,
                                start,
                                n,
                                before[n]->0,
                                carried(flow, start, n),
                            );
                        }
                        return Err(error);
                    },
                    Ok(_) => {},
                }
                proof {
                    assert(state@.subset_of(within)) by {
                        assert(fact_list(g).contains(fact_list(g)[n]));
                    }
                    assert(g.nodes[n].successors == flow.successors[n]);
                    assert forall|k: int|
                        0 <= k < flow.successors[n].len() implies (#[trigger] flow.successors[n][k])
                        < before.len() by {
                        assert(g.nodes[n].successors[k] < g.nodes.len());
                    }
                    lemma_work_step(flow, start, before, waiting);
                    lemma_spread_room(
                        before,
                        waiting.subrange(1, waiting.len() as int),
                        flow.successors[n],
                        state@,
                        within,
                    );
                    lemma_spread(
                        before,
                        waiting.subrange(1, waiting.len() as int),
                        flow.successors[n],
                        state@,
                    );
                }
                continue_state(&mut inputs, &mut queue, graph, node_id, &state);
                proof {
                    let after = FlowState { found: own_views(inputs@), queue: queue@ };
                    let old_run = run;
                    assert(flow_step(g, start, run.last()) == Ok::<FlowState, ErrorView>(after));
                    run = run.push(after);
                    assert forall|i: int| #![trigger run[i]] 0 <= i < run.len() - 1 implies
                        run[i].queue.len() > 0 && flow_step(g, start, run[i]) == Ok::<
                        FlowState,
                        ErrorView,
                    >(run[i + 1]) by {
                        if i < old_run.len() - 1 {
                            assert(run[i] == old_run[i]);
                            assert(run[i + 1] == old_run[i + 1]);
                        }
                    }
                    let rest = waiting.subrange(1, waiting.len() as int);
                    assert forall|m: int|
                        0 <= m < g.nodes.len() && !queue@.contains(m as usize) && (
                        #[trigger] own_views(inputs@)[m]) is Some implies node_fault(
                        g,
                        start,
                        m,
                        own_views(inputs@)[m]->0,
                    ) is None by {
                        assert(own_views(inputs@)[m] == before[m]);
                        if m != n {
                            assert(!rest.contains(m as usize));
                            assert forall|k: int| 0 <= k < waiting.len() implies waiting[k]
                                != m as usize by {
                                if k > 0 {
                                    assert(rest[k - 1] == waiting[k]);
                                }
                            }
                            assert(!waiting.contains(m as usize));
                        }
                    }
                }
            },
        }
    }
    proof {
        law_flow_is_deterministic(g, start, None, flow_fault(g, start));
        assert(flow_clean(g, start));
        if loans_are_distinct(g) {
            law_accepted_graphs_run_harmlessly(g, start);
        }
    }
    Ok(())
}

/// The kinds of loans.
pub struct KindTable {
    pub raw: HashMap<u32, BorrowKind>,
}

impl View for KindTable {
    type V = Map<LoanId, BorrowKind>;

    open spec fn view(&self) -> Map<LoanId, BorrowKind> {
        Map::new(|loan: LoanId| self.raw@.contains_key(loan.0), |loan: LoanId| self.raw@[loan.0])
    }
}

impl KindTable {
    pub fn new() -> (r: KindTable)
        ensures
            r@ == Map::<LoanId, BorrowKind>::empty(),
    {
        broadcast use vstd::std_specs::hash::group_hash_axioms;

        let r = KindTable { raw: HashMap::new() };
        assert(r@ =~= Map::empty());
        r
    }

    pub fn get(&self, loan: LoanId) -> (r: Option<BorrowKind>)
        ensures
            r == (if self@.contains_key(loan) {
                Some(self@[loan])
            } else {
                None
            }),
    {
        broadcast use vstd::std_specs::hash::group_hash_axioms;

        match self.raw.get(&loan.0) {
            Some(kind) => Some(*kind),
            None => None,
        }
    }

    /// The number of loans with a kind.
    pub fn len(&self) -> (r: usize)
        ensures
            self@.dom().finite(),
            r == self@.dom().len(),
    {
        broadcast use vstd::std_specs::hash::group_hash_axioms;

        proof {
            let f = |id: u32| LoanId(id);
            let ids = self.raw@.dom();
            assert(ids.map(f) =~= self@.dom()) by {
                assert forall|loan: LoanId| self@.dom().contains(loan) implies ids.map(f).contains(
                    loan,
                ) by {
                    assert(ids.contains(loan.0) && f(loan.0) == loan);
                }
            }
            vstd::set_lib::lemma_map_size(ids, self@.dom(), f);
        }
        self.raw.len()
    }

    /// Records a kind; says whether there was none before.
    pub fn insert(&mut self, loan: LoanId, kind: BorrowKind) -> (r: bool)
        ensures
            final(self)@ == old(self)@.insert(loan, kind),
            r == !old(self)@.contains_key(loan),
    {
        broadcast use vstd::std_specs::hash::group_hash_axioms;

        let fresh = self.get(loan).is_none();
        let _ = self.raw.insert(loan.0, kind);
        assert(self@ =~= old(self)@.insert(loan, kind));
        fresh
    }
}

/// The kinds of the loans that some nodes of a graph create, added to those known before. A loan
/// must not be known before; where kinds were declared, they must be these.
pub open spec fn merged<'a>(
    g: GraphView<'a>,
    entry: int,
    nodes: Seq<NodeView<'a>>,
    kinds: Map<LoanId, BorrowKind>,
    verify_declared: bool,
) -> Result<Map<LoanId, BorrowKind>, ErrorView>
    decreases nodes.len(),
{
    if nodes.len() == 0 {
        Ok(kinds)
    } else {
        match merged(g, entry, nodes.drop_last(), kinds, verify_declared) {
            Err(error) => Err(error),
            Ok(kinds) => match nodes.last().action {
                Action::Borrow { loan_id, declared_kind, span, .. } => {
                    let kind = kind_of(g, entry, loan_id);
                    if verify_declared && declared_kind != Some(kind) {
                        Err(broken_at(span, "Borrow loan kind 与 NLL 分析结果漂移"@))
                    } else if kinds.contains_key(loan_id) {
                        Err(broken_at(span, "LoanId 跨 CFG 重复"@))
                    } else {
                        Ok(kinds.insert(loan_id, kind))
                    }
                },
                _ => Ok(kinds),
            },
        }
    }
}

proof fn lemma_merge_stops<'a>(
    g: GraphView<'a>,
    entry: int,
    nodes: Seq<NodeView<'a>>,
    upto: int,
    kinds: Map<LoanId, BorrowKind>,
    verify_declared: bool,
)
    requires
        0 <= upto <= nodes.len(),
        merged(g, entry, nodes.take(upto), kinds, verify_declared) is Err,
    ensures
        merged(g, entry, nodes, kinds, verify_declared) == merged(
            g,
            entry,
            nodes.take(upto),
            kinds,
            verify_declared,
        ),
    decreases nodes.len(),
{
    if upto == nodes.len() {
        assert(nodes.take(upto) =~= nodes);
    } else {
        assert(nodes.drop_last().take(upto) =~= nodes.take(upto));
        lemma_merge_stops(g, entry, nodes.drop_last(), upto, kinds, verify_declared);
    }
}

/// Adds the kinds of the loans of a graph to those known before.
pub fn merge_graph_kinds<'a>(
    graph: &GraphBuilder<'a>,
    entry: usize,
    facts: &LoanFacts<'a>,
    target: &mut KindTable,
    verify_declared: bool,
) -> (r: AliasResult<()>)
    requires
        facts_ok(*facts, graph@, entry as int),
    ensures
        match merged(graph@, entry as int, graph@.nodes, old(target)@, verify_declared) {
            Ok(kinds) => r is Ok && final(target)@ == kinds,
            Err(error) => fault_of(r) == Some(error),
        },
{
    let ghost g = graph@;
    let ghost kinds = target@;
    let ghost start = entry as int;
    let mut i: usize = 0;
    assert(g.nodes.take(0) =~= Seq::empty());
    while i < graph.nodes.len()
        invariant
            i <= graph.nodes.len(),
            g == graph@,
            start == entry as int,
            facts_ok(*facts, g, start),
            kinds == old(target)@,
            merged(g, start, g.nodes.take(i as int), kinds, verify_declared) == Ok::<
                Map<LoanId, BorrowKind>,
                ErrorView,
            >(target@),
        decreases graph.nodes.len() - i,
    {
        let ghost n = i as int;
        proof {
            assert(g.nodes[n].action == graph.nodes@[n].action);
            assert(g.nodes.take(n + 1).drop_last() =~= g.nodes.take(n));
            assert(g.nodes.take(n + 1).last() == g.nodes[n]);
        }
        if let Action::Borrow { loan_id, declared_kind, span, source: _ } = graph.nodes[i].action {
            let inferred = facts.kind(loan_id);
            proof {
                assert(facts.written@.contains(loan_id) == written_through(
                    g,
                    start,
                    loan_id,
                ));
            }
            let agrees = match declared_kind {
                Some(kind) => kind == inferred,
                None => false,
            };
            if verify_declared && !agrees {
                proof {
                    lemma_merge_stops(g, start, g.nodes, n + 1, kinds, verify_declared);
                }
                return Err(broken_invariant(span, "Borrow loan kind 与 NLL 分析结果漂移"));
            }
            if !target.insert(loan_id, inferred) {
                proof {
                    lemma_merge_stops(g, start, g.nodes, n + 1, kinds, verify_declared);
                }
                return Err(broken_invariant(span, "LoanId 跨 CFG 重复"));
            }
        }
        i += 1;
    }
    assert(g.nodes.take(i as int) =~= g.nodes);
    Ok(())
}

fn is_global<'a>(graph: &GraphBuilder<'a>, id: BindingId) -> (r: bool)
    ensures
        r == graph@.globals.contains(id),
{
    match graph.globals {
        Some(ids) => ids.contains(id),
        None => false,
    }
}

/// What has been found out: the kinds of loans, and the functions still to be looked at.
pub struct Progress<'a> {
    pub kinds: Map<LoanId, BorrowKind>,
    pub functions: Seq<&'a Expr>,
    /// The variables outside all functions, which every function can reach.
    pub globals: Set<BindingId>,
}

pub open spec fn no_loops() -> LoopTargets {
    LoopTargets { break_target: None, continue_target: None }
}

/// The graph that a piece of a program is built in: where returns lead, the entry, and the exit.
pub open spec fn blank_graph<'a>(globals: Set<BindingId>) -> GraphView<'a> {
    with_node(with_node(empty_graph(globals), Action::Nop), Action::Nop)
}

/// What looking at one piece of a program adds to what has been found out.
pub open spec fn looked_at<'a>(
    globals: Set<BindingId>,
    task: Task<'a>,
    progress: Progress<'a>,
    verify_declared: bool,
) -> Result<Progress<'a>, ErrorView> {
    match built(with_task(blank_graph(globals), task)) {
        Err(error) => Err(error),
        Ok(g) => match loans_fault(g, 1) {
            Some(error) => Err(error),
            None => match flow_fault(g, 1) {
                Some(error) => Err(error),
                None => match merged(g, 1, g.nodes, progress.kinds, verify_declared) {
                    Err(error) => Err(error),
                    Ok(kinds) => Ok(
                        Progress {
                            kinds,
                            functions: progress.functions + g.nested_functions,
                            ..progress
                        },
                    ),
                },
            },
        },
    }
}

/// The graph of a piece of a program holds all that the piece does, and no run of it does harm.
pub open spec fn proven_harmless<'a>(globals: Set<BindingId>, task: Task<'a>) -> bool {
    match built(with_task(blank_graph(globals), task)) {
        Ok(g) => runs_are_harmless(g, 1) && exists|work: Set<Task<'a>>|
            work.contains(task) && #[trigger] all_wired(g, work),
        Err(_) => false,
    }
}

pub open spec fn body_task<'a>(body: &'a Body) -> Task<'a> {
    Task::Body { body, entry: 1, exit: 2, loops: no_loops() }
}

/// What looking at a function adds.
pub open spec fn function_looked_at<'a>(
    function: &'a Expr,
    progress: Progress<'a>,
    verify_declared: bool,
) -> Result<Progress<'a>, ErrorView> {
    match *function {
        Expr::FuncLit { body, .. } => looked_at(
            progress.globals,
            body_task(&body),
            progress,
            verify_declared,
        ),
        _ => Err(broken_at(function.spec_span(), "ownership flow 入口不是 FuncLit"@)),
    }
}

/// What looking at an expression outside all functions adds.
pub open spec fn root_looked_at<'a>(
    expr: &'a Expr,
    progress: Progress<'a>,
    verify_declared: bool,
) -> Result<Progress<'a>, ErrorView> {
    if expr is FuncLit {
        Ok(Progress { functions: progress.functions.push(expr), ..progress })
    } else {
        looked_at(
            Set::empty(),
            Task::Expr { expr, entry: 1, exit: 2, replacement: None, loops: no_loops() },
            progress,
            verify_declared,
        )
    }
}

/// The functions that a finished graph leaves to be looked at weigh no more than what it was
/// built from.
pub proof fn lemma_built_load<'a>(g: GraphView<'a>)
    ensures
        built(g) matches Ok(after) ==> after.tasks.len() == 0 && exprs_weight(
            after.nested_functions,
        ) <= load(g),
    decreases tasks_weight(g.tasks),
{
    if g.tasks.len() > 0 {
        lemma_step_weight(g);
        match step(g) {
            Err(_) => {},
            Ok(after) => {
                lemma_built_load(after);
            },
        }
    }
}

/// Looking at a function leaves less to look at.
pub proof fn lemma_function_weight<'a>(
    function: &'a Expr,
    progress: Progress<'a>,
    verify_declared: bool,
)
    ensures
        function_looked_at(function, progress, verify_declared) matches Ok(after) ==> exprs_weight(
            after.functions,
        ) < exprs_weight(progress.functions) + expr_weight(*function),
{
    match *function {
        Expr::FuncLit { body, .. } => {
            let task = body_task(&body);
            let g = with_task(blank_graph(progress.globals), task);
            lemma_built_load(g);
            assert(g.tasks =~= Seq::empty().push(task));
            assert(g.tasks.drop_last() =~= Seq::empty());
            reveal_with_fuel(tasks_weight, 2);
            match built(g) {
                Err(_) => {},
                Ok(after) => {
                    lemma_exprs_add(progress.functions, after.nested_functions);
                },
            }
        },
        _ => {},
    }
}

/// What is known when all functions have been looked at, the last one found first.
pub open spec fn all_looked_at<'a>(progress: Progress<'a>, verify_declared: bool) -> Result<
    Map<LoanId, BorrowKind>,
    ErrorView,
>
    decreases exprs_weight(progress.functions),
{
    if progress.functions.len() == 0 {
        Ok(progress.kinds)
    } else {
        let function = progress.functions.last();
        let rest = Progress { functions: progress.functions.drop_last(), ..progress };
        proof {
            lemma_function_weight(function, rest, verify_declared);
        }
        match function_looked_at(function, rest, verify_declared) {
            Err(error) => Err(error),
            Ok(after) => all_looked_at(after, verify_declared),
        }
    }
}

/// The expressions of a program outside all functions, in order.
pub open spec fn program_roots<'a>(program: &'a CheckedProgram) -> Seq<&'a Expr> {
    Seq::new(program.items@.len(), |i: int| item_roots(&program.items@[i])).flatten()
}

pub open spec fn item_roots<'a>(item: &'a Item) -> Seq<&'a Expr> {
    match *item {
        Item::Binding(binding) => seq![&binding.value],
        Item::StructDef(def) => default_roots(def.fields@),
    }
}

pub open spec fn default_roots<'a>(fields: Seq<StructField>) -> Seq<&'a Expr>
    decreases fields.len(),
{
    if fields.len() == 0 {
        Seq::empty()
    } else {
        let rest = default_roots(fields.drop_last());
        match fields.last().default {
            Some(default) => rest.push(&default),
            None => rest,
        }
    }
}

/// What looking at the expressions outside all functions finds out.
pub open spec fn roots_looked_at<'a>(
    globals: Set<BindingId>,
    roots: Seq<&'a Expr>,
    verify_declared: bool,
) -> Result<Progress<'a>, ErrorView>
    decreases roots.len(),
{
    if roots.len() == 0 {
        Ok(Progress { kinds: Map::empty(), functions: Seq::empty(), globals })
    } else {
        match roots_looked_at(globals, roots.drop_last(), verify_declared) {
            Err(error) => Err(error),
            Ok(progress) => root_looked_at(roots.last(), progress, verify_declared),
        }
    }
}

/// What the analysis of a program finds: the kind of every loan, or the first fault.
pub open spec fn program_kinds(program: &CheckedProgram, verify_declared: bool) -> Result<
    Map<LoanId, BorrowKind>,
    ErrorView,
> {
    match roots_looked_at(
        global_ids(program.items@),
        program_roots(program),
        verify_declared,
    ) {
        Err(error) => Err(error),
        Ok(progress) => all_looked_at(progress, verify_declared),
    }
}

proof fn lemma_roots_stop<'a>(
    globals: Set<BindingId>,
    roots: Seq<&'a Expr>,
    upto: int,
    verify_declared: bool,
)
    requires
        0 <= upto <= roots.len(),
        roots_looked_at(globals, roots.take(upto), verify_declared) is Err,
    ensures
        roots_looked_at(globals, roots, verify_declared) == roots_looked_at(
            globals,
            roots.take(upto),
            verify_declared,
        ),
    decreases roots.len(),
{
    if upto == roots.len() {
        assert(roots.take(upto) =~= roots);
    } else {
        assert(roots.drop_last().take(upto) =~= roots.take(upto));
        lemma_roots_stop(globals, roots.drop_last(), upto, verify_declared);
    }
}

fn look_at<'a>(
    globals: Option<&'a IdSet>,
    task: Task<'a>,
    queue: &mut Vec<&'a Expr>,
    kinds: &mut KindTable,
    verify_declared: bool,
) -> (r: AliasResult<()>)
    requires
        task_ok(task, 3),
    ensures
        forall|outside: Set<BindingId>|
            match #[trigger] looked_at(
                known_globals(globals),
                task,
                Progress { kinds: old(kinds)@, functions: old(queue)@, globals: outside },
                verify_declared,
            ) {
                Ok(after) => r is Ok && final(kinds)@ == after.kinds && final(queue)@
                    == after.functions,
                Err(error) => fault_of(r) == Some(error),
            },
        r is Ok ==> proven_harmless(known_globals(globals), task),
{
    let mut builder = GraphBuilder::new(globals);
    let entry = builder.node(Action::Nop);
    let _ = builder.node(Action::Nop);
    assert(builder@ == blank_graph::<'a>(known_globals(globals)));
    assert(entry == 1);
    match builder.build(task) {
        Ok(_) => {},
        Err(error) => {
            return Err(error);
        },
    }
    let facts = match derive_loan_facts(&builder, entry) {
        Ok(facts) => facts,
        Err(error) => {
            return Err(error);
        },
    };
    match run_dataflow(&builder, entry, &facts) {
        Ok(_) => {},
        Err(error) => {
            return Err(error);
        },
    }
    proof {
        let g = builder@;
        let empty = blank_graph::<'a>(known_globals(globals));
        law_loans_in_order(g, 1);
        assert(g.nodes.len() == builder.nodes.len());
        law_graphs_hold_what_programs_do(empty, task, g);
    }
    match merge_graph_kinds(&builder, entry, &facts, kinds, verify_declared) {
        Ok(_) => {},
        Err(error) => {
            return Err(error);
        },
    }
    let mut i: usize = 0;
    let ghost found = builder@.nested_functions;
    while i < builder.nested_functions.len()
        invariant
            i <= builder.nested_functions.len(),
            found == builder.nested_functions@,
            queue@ =~= old(queue)@ + found.take(i as int),
        decreases builder.nested_functions.len() - i,
    {
        queue.push(builder.nested_functions[i]);
        i += 1;
    }
    assert(found.take(i as int) =~= found);
    Ok(())
}

/// Looks at a function.
pub fn analyze_function<'a>(
    globals: &'a IdSet,
    function: &'a Expr,
    queue: &mut Vec<&'a Expr>,
    kinds: &mut KindTable,
    verify_declared: bool,
) -> (r: AliasResult<()>)
    ensures
        match function_looked_at(
            function,
            Progress { kinds: old(kinds)@, functions: old(queue)@, globals: globals@ },
            verify_declared,
        ) {
            Ok(after) => r is Ok && final(kinds)@ == after.kinds && final(queue)@
                == after.functions,
            Err(error) => fault_of(r) == Some(error),
        },
        r is Ok ==> (*function matches Expr::FuncLit { body, .. } && proven_harmless(
            globals@,
            body_task(&*body),
        )),
{
    match function {
        Expr::FuncLit { body, .. } => look_at(
            Some(globals),
            Task::Body {
                body,
                entry: 1,
                exit: 2,
                loops: LoopTargets { break_target: None, continue_target: None },
            },
            queue,
            kinds,
            verify_declared,
        ),
        _ => Err(broken_invariant(function.span(), "ownership flow 入口不是 FuncLit")),
    }
}

/// Looks at an expression outside all functions.
pub fn analyze_root_expr<'a>(
    expr: &'a Expr,
    queue: &mut Vec<&'a Expr>,
    kinds: &mut KindTable,
    verify_declared: bool,
) -> (r: AliasResult<()>)
    ensures
        forall|outside: Set<BindingId>|
            match #[trigger] root_looked_at(
                expr,
                Progress { kinds: old(kinds)@, functions: old(queue)@, globals: outside },
                verify_declared,
            ) {
                Ok(after) => r is Ok && final(kinds)@ == after.kinds && final(queue)@
                    == after.functions,
                Err(error) => fault_of(r) == Some(error),
            },
{
    if matches!(expr, Expr::FuncLit { .. }) {
        queue.push(expr);
        return Ok(());
    }
    look_at(
        None,
        Task::Expr {
            expr,
            entry: 1,
            exit: 2,
            replacement: None,
            loops: LoopTargets { break_target: None, continue_target: None },
        },
        queue,
        kinds,
        verify_declared,
    )
}

fn collect_roots<'a>(program: &'a CheckedProgram) -> (r: Vec<&'a Expr>)
    ensures
        r@ == program_roots(program),
{
    let mut roots: Vec<&'a Expr> = Vec::new();
    let ghost lists = Seq::new(program.items@.len(), |i: int| item_roots(&program.items@[i]));
    let mut i: usize = 0;
    assert(lists.take(0).flatten() =~= Seq::empty());
    while i < program.items.len()
        invariant
            i <= program.items.len(),
            lists == Seq::new(program.items@.len(), |i: int| item_roots(&program.items@[i])),
            roots@ == lists.take(i as int).flatten(),
        decreases program.items.len() - i,
    {
        let ghost before = roots@;
        match &program.items[i] {
            Item::Binding(binding) => {
                roots.push(&binding.value);
            },
            Item::StructDef(def) => {
                let mut k: usize = 0;
                assert(def.fields@.take(0) =~= Seq::empty());
                while k < def.fields.len()
                    invariant
                        k <= def.fields.len(),
                        roots@ =~= before + default_roots(def.fields@.take(k as int)),
                    decreases def.fields.len() - k,
                {
                    proof {
                        assert(def.fields@.take(k + 1).drop_last() =~= def.fields@.take(k as int));
                        assert(def.fields@.take(k + 1).last() == def.fields@[k as int]);
                    }
                    match &def.fields[k].default {
                        Some(default) => {
                            roots.push(default);
                        },
                        None => {},
                    }
                    k += 1;
                }
                assert(def.fields@.take(k as int) =~= def.fields@);
            },
        }
        proof {
            assert(lists.take(i + 1) =~= lists.take(i as int).push(lists[i as int]));
            lists.take(i as int).lemma_flatten_push(lists[i as int]);
            assert(roots@ =~= before + lists[i as int]);
        }
        i += 1;
    }
    assert(lists.take(i as int) =~= lists);
    roots
}

/// Finds the kind of every loan of a program, or the first fault.
pub fn analyze_program(program: &CheckedProgram, verify_declared: bool) -> (r: AliasResult<
    KindTable,
>)
    ensures
        match program_kinds(program, verify_declared) {
            Ok(kinds) => r matches Ok(table) && table@ == kinds,
            Err(error) => fault_of(r) == Some(error),
        },
{
    let globals = collect_globals(&program.items);
    let roots = collect_roots(program);
    let mut functions: Vec<&Expr> = Vec::new();
    let mut kinds = KindTable::new();
    let mut i: usize = 0;
    assert(roots@.take(0) =~= Seq::empty());
    assert((Progress { kinds: kinds@, functions: functions@, globals: globals@ }) == (Progress {
        kinds: Map::empty(),
        functions: Seq::empty(),
        globals: globals@,
    }));
    while i < roots.len()
        invariant
            i <= roots.len(),
            roots@ == program_roots(program),
            globals@ == global_ids(program.items@),
            roots_looked_at(globals@, roots@.take(i as int), verify_declared) == Ok::<
                Progress,
                ErrorView,
            >(Progress { kinds: kinds@, functions: functions@, globals: globals@ }),
        decreases roots.len() - i,
    {
        proof {
            assert(roots@.take(i + 1).drop_last() =~= roots@.take(i as int));
            assert(roots@.take(i + 1).last() == roots@[i as int]);
        }
        match analyze_root_expr(roots[i], &mut functions, &mut kinds, verify_declared) {
            Ok(_) => {},
            Err(error) => {
                proof {
                    lemma_roots_stop(globals@, roots@, i + 1, verify_declared);
                }
                return Err(error);
            },
        }
        i += 1;
    }
    assert(roots@.take(i as int) =~= roots@);
    let ghost goal = program_kinds(program, verify_declared);
    loop
        invariant_except_break
            goal == all_looked_at(
                Progress { kinds: kinds@, functions: functions@, globals: globals@ },
                verify_declared,
            ),
        invariant
            goal == program_kinds(program, verify_declared),
        ensures
            goal == Ok::<Map<LoanId, BorrowKind>, ErrorView>(kinds@),
        decreases exprs_weight(functions@),
    {
        let ghost before = Progress { kinds: kinds@, functions: functions@, globals: globals@ };
        match functions.pop() {
            None => {
                break;
            },
            Some(function) => {
                proof {
                    assert(functions@ =~= before.functions.drop_last());
                    lemma_function_weight(
                        function,
                        Progress { functions: before.functions.drop_last(), ..before },
                        verify_declared,
                    );
                }
                match analyze_function(&globals, function, &mut functions, &mut kinds, verify_declared) {
                    Ok(_) => {},
                    Err(error) => {
                        return Err(error);
                    },
                }
            },
        }
    }
    Ok(kinds)
}

/// What is wrong with the use of variables and loans in a program, if anything is.
pub open spec fn program_flow_fault(program: &CheckedProgram) -> Option<ErrorView> {
    match program_kinds(program, true) {
        Ok(_) => None,
        Err(error) => Some(error),
    }
}

/// Checks that variables and loans are used in order, and that the recorded kinds of loans are
/// the right ones.
pub fn validate(program: &CheckedProgram) -> (r: AliasResult<()>)
    ensures
        fault_of(r) == program_flow_fault(program),
{
    match analyze_program(program, true) {
        Ok(_) => Ok(()),
        Err(error) => Err(error),
    }
}

/// The declared kinds make a difference only where they are looked at: what passes with them
/// gives the same kinds without them.
pub proof fn law_verified_kinds_are_inferred(program: &CheckedProgram)
    requires
        program_kinds(program, true) is Ok,
    ensures
        program_kinds(program, false) == program_kinds(program, true),
{
    let globals = global_ids(program.items@);
    lemma_roots_agree(globals, program_roots(program));
    match roots_looked_at(globals, program_roots(program), true) {
        Ok(progress) => lemma_all_agree(progress),
        Err(_) => {},
    }
}

proof fn lemma_merges_agree<'a>(
    g: GraphView<'a>,
    entry: int,
    nodes: Seq<NodeView<'a>>,
    kinds: Map<LoanId, BorrowKind>,
)
    requires
        merged(g, entry, nodes, kinds, true) is Ok,
    ensures
        merged(g, entry, nodes, kinds, false) == merged(g, entry, nodes, kinds, true),
    decreases nodes.len(),
{
    if nodes.len() > 0 {
        lemma_merges_agree(g, entry, nodes.drop_last(), kinds);
    }
}

proof fn lemma_looks_agree<'a>(globals: Set<BindingId>, task: Task<'a>, progress: Progress<'a>)
    requires
        looked_at(globals, task, progress, true) is Ok,
    ensures
        looked_at(globals, task, progress, false) == looked_at(globals, task, progress, true),
{
    match built(with_task(blank_graph(globals), task)) {
        Ok(g) => lemma_merges_agree(g, 1, g.nodes, progress.kinds),
        Err(_) => {},
    }
}

proof fn lemma_roots_agree<'a>(globals: Set<BindingId>, roots: Seq<&'a Expr>)
    requires
        roots_looked_at(globals, roots, true) is Ok,
    ensures
        roots_looked_at(globals, roots, false) == roots_looked_at(globals, roots, true),
    decreases roots.len(),
{
    if roots.len() > 0 {
        lemma_roots_agree(globals, roots.drop_last());
        let expr = roots.last();
        if !(expr is FuncLit) {
            lemma_looks_agree(
                Set::empty(),
                Task::Expr { expr, entry: 1, exit: 2, replacement: None, loops: no_loops() },
                roots_looked_at(globals, roots.drop_last(), true)->Ok_0,
            );
        }
    }
}

proof fn lemma_all_agree<'a>(progress: Progress<'a>)
    requires
        all_looked_at(progress, true) is Ok,
    ensures
        all_looked_at(progress, false) == all_looked_at(progress, true),
    decreases exprs_weight(progress.functions),
{
    if progress.functions.len() > 0 {
        let function = progress.functions.last();
        let rest = Progress { functions: progress.functions.drop_last(), ..progress };
        lemma_function_weight(function, rest, true);
        match *function {
            Expr::FuncLit { body, .. } => {
                lemma_looks_agree(rest.globals, body_task(&body), rest);
                lemma_all_agree(function_looked_at(function, rest, true)->Ok_0);
            },
            _ => {},
        }
    }
}

pub open spec fn kind_walk() -> Walk {
    Walk { every_callee: true, into_functions: true, value_first: false, subject_last: false }
}

/// The loan that a node creates, if it creates one.
pub open spec fn loan_at<'a>(visit: Visit<'a>) -> Option<LoanId> {
    match visit.node {
        Node::Expr(expr, _) => match *expr {
            Expr::Borrow { loan_id, .. } => Some(loan_id),
            Expr::Refer { loan_id, .. } => Some(loan_id),
            _ => match handed_loan(expr) {
                Some((loan_id, _, _)) => Some(loan_id),
                None => None,
            },
        },
        _ => None,
    }
}

pub open spec fn span_at<'a>(visit: Visit<'a>) -> Span {
    match visit.node {
        Node::Expr(expr, _) => expr.spec_span(),
        _ => no_span(),
    }
}

/// One of the nodes creates the loan.
pub open spec fn creates<'a>(nodes: Seq<Visit<'a>>, loan: LoanId) -> bool {
    exists|i: int| 0 <= i < nodes.len() && #[trigger] loan_at(nodes[i]) == Some(loan)
}

/// Every loan of a node must have a kind, and no two nodes may create the same loan.
pub open spec fn loan_fault<'a>(
    nodes: Seq<Visit<'a>>,
    kinds: Map<LoanId, BorrowKind>,
    i: int,
) -> Option<ErrorView> {
    match loan_at(nodes[i]) {
        None => None,
        Some(loan) => if !kinds.contains_key(loan) {
            Some(broken_at(span_at(nodes[i]), "Borrow 缺少 NLL kind fact"@))
        } else if creates(nodes.take(i), loan) {
            Some(broken_at(span_at(nodes[i]), "LoanId 在 HIR 中重复"@))
        } else {
            None
        },
    }
}

/// What stands against writing kinds into a program: a node, or a kind that belongs to none.
pub open spec fn kinds_fault<'a>(nodes: Seq<Visit<'a>>, kinds: Map<LoanId, BorrowKind>) -> Option<
    ErrorView,
> {
    let first = first_fault(Seq::new(nodes.len(), |i: int| loan_fault(nodes, kinds, i)));
    if first is Some {
        first
    } else if exists|loan: LoanId| #[trigger] kinds.contains_key(loan) && !creates(nodes, loan) {
        Some(broken_at(no_span(), "存在未写回的 LoanId fact"@))
    } else {
        None
    }
}

/// What is written at a node: the kind of the loan that it creates.
pub open spec fn kind_mark<'a>(kinds: Map<LoanId, BorrowKind>, visit: Visit<'a>) -> Mark {
    match loan_at(visit) {
        Some(loan) => Mark::Kind(kinds[loan]),
        None => Mark::Keep,
    }
}

pub open spec fn kind_marks<'a>(
    nodes: Seq<Visit<'a>>,
    kinds: Map<LoanId, BorrowKind>,
) -> Seq<Mark> {
    Seq::new(nodes.len(), |i: int| kind_mark(kinds, nodes[i]))
}

fn settle_kinds(program: &CheckedProgram, kinds: &KindTable) -> (r: AliasResult<Vec<Mark>>)
    ensures
        fault_of(r) == kinds_fault(program_walk(kind_walk(), program), kinds@),
        r matches Ok(marks) ==> marks@ == kind_marks(program_walk(kind_walk(), program), kinds@),
{
    broadcast use vstd::std_specs::hash::group_hash_axioms;

    let nodes = program_nodes(
        Walk { every_callee: true, into_functions: true, value_first: false, subject_last: false },
        program,
    );
    let ghost faults = Seq::new(nodes@.len(), |i: int| loan_fault(nodes@, kinds@, i));
    let mut marks: Vec<Mark> = Vec::new();
    let mut seen: HashSet<u32> = HashSet::new();
    let mut i: usize = 0;
    while i < nodes.len()
        invariant
            i <= nodes.len(),
            nodes@ == program_walk(kind_walk(), program),
            faults == Seq::new(nodes@.len(), |i: int| loan_fault(nodes@, kinds@, i)),
            forall|k: int| 0 <= k < i ==> (#[trigger] faults[k]) is None,
            marks@ =~= kind_marks(nodes@, kinds@).take(i as int),
            forall|loan: LoanId| #[trigger]
                seen@.contains(loan.0) == creates(nodes@.take(i as int), loan),
            forall|raw: u32| seen@.contains(raw) ==> #[trigger] kinds.raw@.contains_key(raw),
        decreases nodes.len() - i,
    {
        let ghost n = i as int;
        let ghost seen0 = seen@;
        proof {
            assert(faults[n] == loan_fault(nodes@, kinds@, n));
            assert(nodes@.take(n + 1) =~= nodes@.take(n).push(nodes@[n]));
        }
        let loan = match nodes[i].node {
            Node::Expr(expr, _) => match expr {
                Expr::Borrow { loan_id, .. } => Some((*loan_id, expr.span())),
                Expr::Refer { loan_id, .. } => Some((*loan_id, expr.span())),
                _ => match call_loan(expr) {
                    Some((loan_id, _, _)) => Some((loan_id, expr.span())),
                    None => None,
                },
            },
            _ => None,
        };
        match loan {
            Some((loan_id, span)) => {
                assert(loan_at(nodes@[n]) == Some(loan_id));
                match kinds.get(loan_id) {
                    None => {
                        proof {
                            lemma_first_fault_at(faults, n);
                        }
                        return Err(broken_invariant(span, "Borrow 缺少 NLL kind fact"));
                    },
                    Some(kind) => {
                        assert(seen@.contains(loan_id.0) == creates(nodes@.take(n), loan_id));
                        if !seen.insert(loan_id.0) {
                            proof {
                                lemma_first_fault_at(faults, n);
                            }
                            return Err(broken_invariant(span, "LoanId 在 HIR 中重复"));
                        }
                        marks.push(Mark::Kind(kind));
                    },
                }
            },
            None => {
                marks.push(Mark::Keep);
            },
        }
        proof {
            assert forall|loan: LoanId| #[trigger]
                seen@.contains(loan.0) == creates(nodes@.take(n + 1), loan) by {
                let longer = nodes@.take(n + 1);
                let shorter = nodes@.take(n);
                assert(seen0.contains(loan.0) == creates(shorter, loan));
                if creates(longer, loan) {
                    let k = choose|k: int|
                        0 <= k < longer.len() && #[trigger] loan_at(longer[k]) == Some(loan);
                    if k < n {
                        assert(loan_at(shorter[k]) == Some(loan));
                    }
                }
                if creates(shorter, loan) {
                    let k = choose|k: int|
                        0 <= k < shorter.len() && #[trigger] loan_at(shorter[k]) == Some(loan);
                    assert(loan_at(longer[k]) == Some(loan));
                }
                if loan_at(nodes@[n]) == Some(loan) {
                    assert(loan_at(longer[n]) == Some(loan));
                }
            }
        }
        i += 1;
    }
    proof {
        lemma_no_fault(faults);
        assert(nodes@.take(i as int) =~= nodes@);
        assert(marks@ =~= kind_marks(nodes@, kinds@));
        let keys = kinds.raw@.dom();
        assert(seen@.subset_of(keys));
        vstd::set_lib::lemma_len_subset(seen@, keys);
        if seen@.len() == keys.len() {
            vstd::set_lib::lemma_subset_equality(seen@, keys);
            assert forall|loan: LoanId| #[trigger] kinds@.contains_key(loan) implies creates(
                nodes@,
                loan,
            ) by {
                assert(seen@.contains(loan.0));
            }
        } else {
            let raw = choose|raw: u32| keys.contains(raw) && !seen@.contains(raw);
            if forall|raw: u32| keys.contains(raw) ==> seen@.contains(raw) {
                assert(seen@ =~= keys);
            }
            assert(keys.contains(raw) && !seen@.contains(raw));
            let loan = LoanId(raw);
            assert(seen@.contains(loan.0) == creates(nodes@, loan));
            assert(kinds@.contains_key(loan));
        }
    }
    if seen.len() != kinds.raw.len() {
        return Err(broken_invariant(Span { start: 0, end: 0 }, "存在未写回的 LoanId fact"));
    }
    Ok(marks)
}

/// Writes the kinds of loans into a program.
pub fn apply_kinds(program: &mut CheckedProgram, kinds: &KindTable) -> (r: AliasResult<()>)
    ensures
        match kinds_fault(program_walk(kind_walk(), old(program)), kinds@) {
            Some(error) => fault_of(r) == Some(error) && *final(program) == *old(program),
            None => r is Ok && tracks(
                program_walk(kind_walk(), old(program)),
                program_walk(kind_walk(), final(program)),
                kind_marks(program_walk(kind_walk(), old(program)), kinds@),
            ),
        },
        final(program).main_id == old(program).main_id,
{
    let marks = match settle_kinds(program, kinds) {
        Ok(marks) => marks,
        Err(error) => {
            return Err(error);
        },
    };
    apply_marks(
        Walk { every_callee: true, into_functions: true, value_first: false, subject_last: false },
        program,
        marks,
    );
    Ok(())
}

/// What stands against settling the kinds of the loans of a program.
pub open spec fn finalize_fault(program: &CheckedProgram) -> Option<ErrorView> {
    match program_kinds(program, false) {
        Err(error) => Some(error),
        Ok(kinds) => kinds_fault(program_walk(kind_walk(), program), kinds),
    }
}

/// Settles the kind of every loan of a program and writes it down.
pub fn finalize(program: &mut CheckedProgram) -> (r: AliasResult<()>)
    ensures
        match finalize_fault(old(program)) {
            Some(error) => fault_of(r) == Some(error) && *final(program) == *old(program),
            None => r is Ok && tracks(
                program_walk(kind_walk(), old(program)),
                program_walk(kind_walk(), final(program)),
                kind_marks(
                    program_walk(kind_walk(), old(program)),
                    program_kinds(old(program), false)->Ok_0,
                ),
            ),
        },
        final(program).main_id == old(program).main_id,
{
    let kinds = match analyze_program(program, false) {
        Ok(kinds) => kinds,
        Err(error) => {
            return Err(error);
        },
    };
    apply_kinds(program, &kinds)
}

/// After the kinds have been settled, every node that creates a loan carries the kind of that
/// loan.
pub proof fn law_settled_kinds_are_written<'a>(
    before: Seq<Visit<'a>>,
    after: Seq<Visit<'a>>,
    kinds: Map<LoanId, BorrowKind>,
    i: int,
)
    requires
        tracks(before, after, kind_marks(before, kinds)),
        0 <= i < before.len(),
    ensures
        loan_at(after[i]) == loan_at(before[i]),
        after[i].node matches Node::Expr(expr, _) ==> (match *expr {
            Expr::Borrow { loan_id, kind, .. } => kind == Some(kinds[loan_id]),
            Expr::Refer { loan_id, kind, .. } => kind == Some(kinds[loan_id]),
            _ => handed_loan(expr) matches Some((loan_id, _, kind)) ==> kind == Some(
                kinds[loan_id],
            ),
        }),
{
    assert(shell_of(after[i]) == marked(
        mark_at(kind_marks(before, kinds), i),
        shell_of(before[i]),
    ));
}

} // verus!
