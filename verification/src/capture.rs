//! What functions take from their surroundings.
//!
//! A function captures every variable that it uses and that is neither its own nor global. What a
//! function inside it captures counts as a use of its own, at the place where the inner function
//! ends.

use crate::function_facts::{param_ids, parameter_ids};
use crate::ids::IdSet;
use crate::marks::{Mark, apply_marks, tracks};
use crate::model::{
    Binding, Capture, CheckedProgram, Expr, Item, MatchArm, Place, PlaceInfo, Stmt, place_root,
};
use crate::sets::lemma_push_to_set;
use crate::tree::{Label, Tree, capture_tree, capture_trees, part, place_tree, spanned};
use crate::types::{
    AliasError, AliasResult, BindingId, ErrorView, LoanId, Span, error, fault_of, no_span,
};
use crate::visit::{Node, Visit, Walk, program_nodes, program_walk};
use vstd::prelude::*;

verus! {

/// The text of a diagnostic about captures.
pub open spec fn capture_broken(detail: Seq<char>) -> ErrorView {
    ErrorView { msg: "内部 sema capture 不变式被破坏: "@ + detail, span: no_span() }
}

pub fn capture_invariant(msg: &str) -> (r: AliasError)
    ensures
        r@ == capture_broken(msg@),
{
    let mut text: String = String::from_str("内部 sema capture 不变式被破坏: ");
    text.append(msg);
    AliasError { msg: text, span: Span::default() }
}

pub open spec fn capture_walk() -> Walk {
    Walk { every_callee: true, into_functions: true, value_first: false, subject_last: false }
}

/// The variables that the arms of a match bind.
pub open spec fn arm_ids(arms: Seq<MatchArm>) -> Set<BindingId> {
    Set::new(
        |id: BindingId|
            exists|i: int| 0 <= i < arms.len() && (#[trigger] arms[i]).binding_id == Some(id),
    )
}

/// The functions around a point of the walk, by their numbers, and the variables of all
/// functions so far.
pub struct LocalsView {
    pub stack: Seq<nat>,
    pub locals: Seq<Set<BindingId>>,
}

/// The variables of the innermost function with some more of them.
pub open spec fn with_locals(state: LocalsView, ids: Set<BindingId>) -> LocalsView {
    if state.stack.len() == 0 {
        state
    } else {
        let at = state.stack.last() as int;
        LocalsView {
            stack: state.stack,
            locals: state.locals.update(at, state.locals[at].union(ids)),
        }
    }
}

pub open spec fn locals_step<'a>(state: LocalsView, visit: Visit<'a>) -> LocalsView {
    match visit.node {
        Node::Leave(_) => if state.stack.len() == 0 {
            state
        } else {
            LocalsView { stack: state.stack.drop_last(), locals: state.locals }
        },
        Node::Stmt(stmt) => match *stmt {
            Stmt::Binding(binding) => with_locals(state, set![binding.binding_id]),
            Stmt::For { binding_id, .. } => with_locals(state, set![binding_id]),
            _ => state,
        },
        Node::Expr(expr, _) => match *expr {
            Expr::FuncLit { .. } => LocalsView {
                stack: state.stack.push(state.locals.len()),
                locals: state.locals.push(param_ids(*expr).to_set()),
            },
            Expr::Match { arms, .. } => with_locals(state, arm_ids(arms@)),
            _ => state,
        },
        Node::Item(_) => state,
    }
}

pub open spec fn locals_after<'a>(nodes: Seq<Visit<'a>>) -> LocalsView
    decreases nodes.len(),
{
    if nodes.len() == 0 {
        LocalsView { stack: Seq::empty(), locals: Seq::empty() }
    } else {
        locals_step(locals_after(nodes.drop_last()), nodes.last())
    }
}

/// The variables of every function, in the order in which the functions begin.
pub open spec fn function_locals<'a>(nodes: Seq<Visit<'a>>) -> Seq<Set<BindingId>> {
    locals_after(nodes).locals
}

pub open spec fn set_views(list: Seq<IdSet>) -> Seq<Set<BindingId>> {
    Seq::new(list.len(), |i: int| list[i]@)
}

pub open spec fn stack_view(stack: Seq<usize>) -> Seq<nat> {
    Seq::new(stack.len(), |i: int| stack[i] as nat)
}

fn parameter_set(function: &Expr) -> (r: IdSet)
    ensures
        r@ == param_ids(*function).to_set(),
{
    let ids = parameter_ids(function);
    let mut set = IdSet::new();
    let mut i: usize = 0;
    assert(ids@.take(0).to_set() =~= Set::empty());
    while i < ids.len()
        invariant
            i <= ids.len(),
            set@ == ids@.take(i as int).to_set(),
        decreases ids.len() - i,
    {
        let _ = set.insert(ids[i]);
        proof {
            assert(ids@.take(i + 1) =~= ids@.take(i as int).push(ids@[i as int]));
            lemma_push_to_set(ids@.take(i as int), ids@[i as int]);
        }
        i += 1;
    }
    assert(ids@.take(i as int) =~= ids@);
    set
}

fn add_arms(set: &mut IdSet, arms: &Vec<MatchArm>)
    ensures
        final(set)@ == old(set)@.union(arm_ids(arms@)),
{
    let ghost before = set@;
    let mut i: usize = 0;
    assert(before.union(arm_ids(arms@.take(0))) =~= before);
    while i < arms.len()
        invariant
            i <= arms.len(),
            before == old(set)@,
            set@ == before.union(arm_ids(arms@.take(i as int))),
        decreases arms.len() - i,
    {
        if let Some(id) = arms[i].binding_id {
            let _ = set.insert(id);
        }
        proof {
            let a = arms@.take(i as int);
            let b = arms@.take(i + 1);
            assert forall|id: BindingId| #[trigger] arm_ids(b).contains(id) <==> arm_ids(
                a,
            ).contains(id) || arms@[i as int].binding_id == Some(id) by {
                if arm_ids(b).contains(id) {
                    let k = choose|k: int|
                        0 <= k < b.len() && (#[trigger] b[k]).binding_id == Some(id);
                    if k < i {
                        assert(a[k] == b[k]);
                    }
                }
                if arm_ids(a).contains(id) {
                    let k = choose|k: int|
                        0 <= k < a.len() && (#[trigger] a[k]).binding_id == Some(id);
                    assert(b[k] == a[k]);
                }
                if arms@[i as int].binding_id == Some(id) {
                    assert(b[i as int] == arms@[i as int]);
                }
            }
            assert(set@ =~= before.union(arm_ids(b)));
        }
        i += 1;
    }
    assert(arms@.take(i as int) =~= arms@);
}

/// Collects the variables of every function.
pub fn collect_function_locals<'a>(nodes: &Vec<Visit<'a>>) -> (r: Vec<IdSet>)
    ensures
        set_views(r@) == function_locals(nodes@),
{
    let mut locals: Vec<IdSet> = Vec::new();
    let mut stack: Vec<usize> = Vec::new();
    let mut i: usize = 0;
    proof {
        assert(nodes@.take(0) =~= Seq::empty());
        assert(set_views(locals@) =~= Seq::empty());
        assert(stack_view(stack@) =~= Seq::empty());
    }
    while i < nodes.len()
        invariant
            i <= nodes.len(),
            set_views(locals@) == locals_after(nodes@.take(i as int)).locals,
            stack_view(stack@) == locals_after(nodes@.take(i as int)).stack,
            forall|k: int| 0 <= k < stack@.len() ==> (#[trigger] stack@[k]) < locals@.len(),
        decreases nodes.len() - i,
    {
        proof {
            assert(nodes@.take(i + 1).drop_last() =~= nodes@.take(i as int));
            assert(nodes@.take(i + 1).last() == nodes@[i as int]);
        }
        let ghost state = locals_after(nodes@.take(i as int));
        let ghost old_locals = locals@;
        let ghost old_stack = stack@;
        match nodes[i].node {
            Node::Leave(_) => {
                let _ = stack.pop();
                proof {
                    if old_stack.len() > 0 {
                        assert(stack_view(stack@) =~= state.stack.drop_last());
                    }
                }
            },
            Node::Stmt(stmt) => {
                let declared = match stmt {
                    Stmt::Binding(binding) => Some(binding.binding_id),
                    Stmt::For { binding_id, .. } => Some(*binding_id),
                    _ => None,
                };
                if let Some(id) = declared {
                    if stack.len() > 0 {
                        let at = stack[stack.len() - 1];
                        let _ = locals[at].insert(id);
                        proof {
                            assert(state.stack.last() == at);
                            assert(old_locals[at as int]@.insert(id) =~= state.locals[at as int].union(
                                set![id],
                            ));
                            assert(set_views(locals@) =~= state.locals.update(
                                at as int,
                                state.locals[at as int].union(set![id]),
                            ));
                        }
                    }
                }
            },
            Node::Expr(expr, _) => match expr {
                Expr::FuncLit { .. } => {
                    let at = locals.len();
                    locals.push(parameter_set(expr));
                    stack.push(at);
                    proof {
                        assert(set_views(locals@) =~= state.locals.push(param_ids(*expr).to_set()));
                        assert(stack_view(stack@) =~= state.stack.push(at as nat));
                    }
                },
                Expr::Match { arms, .. } => {
                    if stack.len() > 0 {
                        let at = stack[stack.len() - 1];
                        add_arms(&mut locals[at], arms);
                        proof {
                            assert(state.stack.last() == at);
                            assert(set_views(locals@) =~= state.locals.update(
                                at as int,
                                state.locals[at as int].union(arm_ids(arms@)),
                            ));
                        }
                    }
                },
                _ => {},
            },
            Node::Item(_) => {},
        }
        i += 1;
    }
    assert(nodes@.take(i as int) =~= nodes@);
    locals
}

/// The variables that are not inside any function. Methods do not count.
pub open spec fn global_ids(items: Seq<Item>) -> Set<BindingId> {
    Set::new(
        |id: BindingId|
            exists|i: int| 0 <= i < items.len() && is_global_item(#[trigger] items[i], id),
    )
}

pub open spec fn is_global_item(item: Item, id: BindingId) -> bool {
    match item {
        Item::Binding(binding) => !(binding.owner is Method) && binding.binding_id == id,
        Item::StructDef(_) => false,
    }
}

/// Collects the variables outside all functions.
pub fn collect_globals(items: &Vec<Item>) -> (r: IdSet)
    ensures
        r@ == global_ids(items@),
{
    let mut set = IdSet::new();
    let mut i: usize = 0;
    assert(global_ids(items@.take(0)) =~= Set::empty());
    while i < items.len()
        invariant
            i <= items.len(),
            set@ == global_ids(items@.take(i as int)),
        decreases items.len() - i,
    {
        if let Item::Binding(binding) = &items[i] {
            if !binding.is_method() {
                let _ = set.insert(binding.binding_id);
            }
        }
        proof {
            let a = items@.take(i as int);
            let b = items@.take(i + 1);
            assert forall|id: BindingId| #[trigger] global_ids(b).contains(id) <==> global_ids(
                a,
            ).contains(id) || is_global_item(items@[i as int], id) by {
                if global_ids(b).contains(id) {
                    let k = choose|k: int| 0 <= k < b.len() && is_global_item(#[trigger] b[k], id);
                    if k < i {
                        assert(a[k] == b[k]);
                    }
                }
                if global_ids(a).contains(id) {
                    let k = choose|k: int| 0 <= k < a.len() && is_global_item(#[trigger] a[k], id);
                    assert(b[k] == a[k]);
                }
                if is_global_item(items@[i as int], id) {
                    assert(b[i as int] == items@[i as int]);
                }
            }
            assert(set@ =~= global_ids(b));
        }
        i += 1;
    }
    assert(items@.take(i as int) =~= items@);
    set
}

/// A variable that is used, and its storage where it is used.
pub struct CaptureSeed {
    pub binding_id: BindingId,
    pub source: Place,
}

pub struct SeedView {
    pub binding_id: BindingId,
    pub source: Tree,
}

impl View for CaptureSeed {
    type V = SeedView;

    open spec fn view(&self) -> SeedView {
        SeedView { binding_id: self.binding_id, source: place_tree(self.source) }
    }
}

pub open spec fn seed_views(list: Seq<CaptureSeed>) -> Seq<SeedView> {
    Seq::new(list.len(), |i: int| list[i]@)
}

pub open spec fn seeds_have(list: Seq<SeedView>, id: BindingId) -> bool {
    exists|i: int| 0 <= i < list.len() && (#[trigger] list[i]).binding_id == id
}

/// What a function uses but does not own.
pub struct FrameView {
    pub ordinal: nat,
    pub ordered: Seq<SeedView>,
}

/// The variables of a function.
pub open spec fn locals_at(locals: Seq<Set<BindingId>>, ordinal: nat) -> Set<BindingId> {
    if ordinal < locals.len() {
        locals[ordinal as int]
    } else {
        Set::empty()
    }
}

/// A function with one more use: the first use of a variable that is not its own counts.
pub open spec fn with_use(
    frame: FrameView,
    locals: Seq<Set<BindingId>>,
    globals: Set<BindingId>,
    seed: SeedView,
) -> FrameView {
    if locals_at(locals, frame.ordinal).contains(seed.binding_id) || globals.contains(
        seed.binding_id,
    ) || seeds_have(frame.ordered, seed.binding_id) {
        frame
    } else {
        FrameView { ordinal: frame.ordinal, ordered: frame.ordered.push(seed) }
    }
}

pub open spec fn with_uses(
    frame: FrameView,
    locals: Seq<Set<BindingId>>,
    globals: Set<BindingId>,
    seeds: Seq<SeedView>,
) -> FrameView
    decreases seeds.len(),
{
    if seeds.len() == 0 {
        frame
    } else {
        with_use(with_uses(frame, locals, globals, seeds.drop_last()), locals, globals, seeds.last())
    }
}

/// The functions around a point of the walk, and what the functions before it capture.
pub struct CaptureState {
    pub frames: Seq<FrameView>,
    pub done: Seq<Seq<SeedView>>,
}

/// The storage at the root of a place.
pub open spec fn root_tree(place: Place) -> Tree
    decreases place,
{
    match place {
        Place::Local { .. } => place_tree(place),
        Place::Field { base, .. } => root_tree(*base),
        Place::Index { base, .. } => root_tree(*base),
    }
}

pub open spec fn place_use(place: Place) -> SeedView {
    SeedView { binding_id: place_root(place), source: root_tree(place) }
}

/// The variable that a node uses by itself.
pub open spec fn used_at<'a>(visit: Visit<'a>) -> Option<SeedView> {
    match visit.node {
        Node::Stmt(stmt) => match *stmt {
            Stmt::Assign { target, .. } => Some(place_use(target)),
            _ => None,
        },
        Node::Expr(expr, _) => match *expr {
            Expr::Ident(_, Some(id), span, info) => Some(
                SeedView {
                    binding_id: id,
                    source: spanned(Label::LocalPlace(id, info.ty@), span, Seq::empty()),
                },
            ),
            Expr::ReadPlace { source, .. } => Some(place_use(*source)),
            Expr::Borrow { source, .. } => Some(place_use(*source)),
            Expr::Refer { source, .. } => Some(place_use(*source)),
            Expr::Move { source, .. } => Some(place_use(*source)),
            _ => None,
        },
        _ => None,
    }
}

pub open spec fn capture_step<'a>(
    state: CaptureState,
    locals: Seq<Set<BindingId>>,
    globals: Set<BindingId>,
    visit: Visit<'a>,
) -> CaptureState {
    match visit.node {
        Node::Leave(_) => if state.frames.len() == 0 {
            state
        } else {
            let frame = state.frames.last();
            let rest = state.frames.drop_last();
            CaptureState {
                frames: if rest.len() == 0 {
                    rest
                } else {
                    rest.drop_last().push(
                        with_uses(rest.last(), locals, globals, frame.ordered),
                    )
                },
                done: state.done.update(frame.ordinal as int, frame.ordered),
            }
        },
        _ => if visit.node matches Node::Expr(expr, _) && *expr is FuncLit {
            CaptureState {
                frames: state.frames.push(
                    FrameView { ordinal: state.done.len(), ordered: Seq::empty() },
                ),
                done: state.done.push(Seq::empty()),
            }
        } else {
            match used_at(visit) {
                Some(seed) => if state.frames.len() == 0 {
                    state
                } else {
                    CaptureState {
                        frames: state.frames.drop_last().push(
                            with_use(state.frames.last(), locals, globals, seed),
                        ),
                        done: state.done,
                    }
                },
                None => state,
            }
        },
    }
}

pub open spec fn captures_after<'a>(
    nodes: Seq<Visit<'a>>,
    locals: Seq<Set<BindingId>>,
    globals: Set<BindingId>,
) -> CaptureState
    decreases nodes.len(),
{
    if nodes.len() == 0 {
        CaptureState { frames: Seq::empty(), done: Seq::empty() }
    } else {
        capture_step(
            captures_after(nodes.drop_last(), locals, globals),
            locals,
            globals,
            nodes.last(),
        )
    }
}

/// What every function captures, in the order in which the functions begin.
pub open spec fn program_seeds<'a>(program: &'a CheckedProgram) -> Seq<Seq<SeedView>> {
    let nodes = program_walk(capture_walk(), program);
    captures_after(nodes, function_locals(nodes), global_ids(program.items@)).done
}

struct CaptureFrame {
    ordinal: usize,
    ordered: Vec<CaptureSeed>,
}

spec fn frame_view(frame: CaptureFrame) -> FrameView {
    FrameView { ordinal: frame.ordinal as nat, ordered: seed_views(frame.ordered@) }
}

spec fn frame_views(list: Seq<CaptureFrame>) -> Seq<FrameView> {
    Seq::new(list.len(), |i: int| frame_view(list[i]))
}

pub open spec fn seed_lists(list: Seq<Vec<CaptureSeed>>) -> Seq<Seq<SeedView>> {
    Seq::new(list.len(), |i: int| seed_views(list[i]@))
}

fn has_seed(list: &Vec<CaptureSeed>, id: BindingId) -> (r: bool)
    ensures
        r == seeds_have(seed_views(list@), id),
{
    let mut i: usize = 0;
    while i < list.len()
        invariant
            i <= list.len(),
            forall|k: int| 0 <= k < i ==> list@[k].binding_id != id,
        decreases list.len() - i,
    {
        if list[i].binding_id == id {
            assert(seed_views(list@)[i as int].binding_id == id);
            return true;
        }
        i += 1;
    }
    false
}

fn record_use(frame: &mut CaptureFrame, locals: &Vec<IdSet>, globals: &IdSet, seed: CaptureSeed)
    ensures
        frame_view(*final(frame)) == with_use(
            frame_view(*old(frame)),
            set_views(locals@),
            globals@,
            seed@,
        ),
        final(frame).ordinal == old(frame).ordinal,
{
    let id = seed.binding_id;
    if frame.ordinal < locals.len() && locals[frame.ordinal].contains(id) {
        return;
    }
    if globals.contains(id) || has_seed(&frame.ordered, id) {
        return;
    }
    let ghost before = frame.ordered@;
    frame.ordered.push(seed);
    assert(seed_views(frame.ordered@) =~= seed_views(before).push(seed@));
}

fn root_place(place: &Place) -> (r: &Place)
    ensures
        place_tree(*r) == root_tree(*place),
        *r is Local,
        place_root(*r) == place_root(*place),
{
    let mut at: &Place = place;
    loop
        invariant
            root_tree(*at) == root_tree(*place),
            place_root(*at) == place_root(*place),
        decreases at,
    {
        match at {
            Place::Local { .. } => {
                return at;
            },
            Place::Field { base, .. } => {
                at = base;
            },
            Place::Index { base, .. } => {
                at = base;
            },
        }
    }
}

fn place_seed(place: &Place) -> (r: CaptureSeed)
    ensures
        r@ == place_use(*place),
{
    let root = root_place(place);
    CaptureSeed { binding_id: root.root_binding_id(), source: root.clone() }
}

fn node_use<'a>(visit: Visit<'a>) -> (r: Option<CaptureSeed>)
    ensures
        match used_at(visit) {
            Some(seed) => r matches Some(found) && found@ == seed,
            None => r is None,
        },
{
    match visit.node {
        Node::Stmt(stmt) => match stmt {
            Stmt::Assign { target, .. } => Some(place_seed(target)),
            _ => None,
        },
        Node::Expr(expr, _) => match expr {
            Expr::Ident(_, Some(id), span, info) => Some(
                CaptureSeed {
                    binding_id: *id,
                    source: Place::Local {
                        binding_id: *id,
                        info: PlaceInfo { ty: info.ty.clone(), span: *span },
                    },
                },
            ),
            Expr::ReadPlace { source, .. } => Some(place_seed(source)),
            Expr::Borrow { source, .. } => Some(place_seed(source)),
            Expr::Refer { source, .. } => Some(place_seed(source)),
            Expr::Move { source, .. } => Some(place_seed(source)),
            _ => None,
        },
        _ => None,
    }
}

fn record_uses(
    frame: &mut CaptureFrame,
    locals: &Vec<IdSet>,
    globals: &IdSet,
    seeds: &Vec<CaptureSeed>,
)
    ensures
        frame_view(*final(frame)) == with_uses(
            frame_view(*old(frame)),
            set_views(locals@),
            globals@,
            seed_views(seeds@),
        ),
        final(frame).ordinal == old(frame).ordinal,
{
    let ghost start = frame_view(*frame);
    let ghost all = seed_views(seeds@);
    let mut i: usize = 0;
    assert(all.take(0) =~= Seq::empty());
    while i < seeds.len()
        invariant
            i <= seeds.len(),
            start == frame_view(*old(frame)),
            all == seed_views(seeds@),
            frame.ordinal == old(frame).ordinal,
            frame_view(*frame) == with_uses(
                start,
                set_views(locals@),
                globals@,
                all.take(i as int),
            ),
        decreases seeds.len() - i,
    {
        proof {
            assert(all.take(i + 1).drop_last() =~= all.take(i as int));
            assert(all.take(i + 1).last() == seeds@[i as int]@);
        }
        record_use(
            frame,
            locals,
            globals,
            CaptureSeed { binding_id: seeds[i].binding_id, source: seeds[i].source.clone() },
        );
        i += 1;
    }
    assert(all.take(i as int) =~= all);
}

fn leave_function(
    frames: &mut Vec<CaptureFrame>,
    done: &mut Vec<Vec<CaptureSeed>>,
    locals: &Vec<IdSet>,
    globals: &IdSet,
)
    requires
        forall|k: int| 0 <= k < old(frames)@.len() ==> (#[trigger] old(frames)@[k]).ordinal < old(done)@.len(),
        old(frames)@.len() > 0,
    ensures
        final(done)@.len() == old(done)@.len(),
        seed_lists(final(done)@) == seed_lists(old(done)@).update(
            old(frames)@.last().ordinal as int,
            seed_views(old(frames)@.last().ordered@),
        ),
        ({
            let rest = frame_views(old(frames)@).drop_last();
            frame_views(final(frames)@) == if rest.len() == 0 {
                rest
            } else {
                rest.drop_last().push(
                    with_uses(
                        rest.last(),
                        set_views(locals@),
                        globals@,
                        seed_views(old(frames)@.last().ordered@),
                    ),
                )
            }
        }),
        forall|k: int|
            0 <= k < final(frames)@.len() ==> (#[trigger] final(frames)@[k]).ordinal < final(done)@.len(),
{
    let ghost before = frames@;
    let ghost old_done = done@;
    if let Some(frame) = frames.pop() {
        let ghost rest = frame_views(before).drop_last();
        assert(frame_views(frames@) =~= rest);
        if frames.len() > 0 {
            let last = frames.len() - 1;
            record_uses(&mut frames[last], locals, globals, &frame.ordered);
            assert(frame_views(frames@) =~= rest.drop_last().push(
                with_uses(
                    rest.last(),
                    set_views(locals@),
                    globals@,
                    seed_views(before.last().ordered@),
                ),
            ));
            assert forall|k: int| 0 <= k < frames@.len() implies (#[trigger] frames@[k]).ordinal
                < done@.len() by {
                assert(frames@[k].ordinal == before[k].ordinal);
            }
        }
        let at = frame.ordinal;
        let ghost list = frame.ordered@;
        assert(before[before.len() - 1].ordinal < done@.len());
        done[at] = frame.ordered;
        assert(seed_lists(done@) =~= seed_lists(old_done).update(at as int, seed_views(list)));
    }
}

/// Collects what every function captures.
pub fn collect_function_captures<'a>(
    nodes: &Vec<Visit<'a>>,
    globals: &IdSet,
    locals: &Vec<IdSet>,
) -> (r: Vec<Vec<CaptureSeed>>)
    ensures
        seed_lists(r@) == captures_after(nodes@, set_views(locals@), globals@).done,
{
    let ghost own = set_views(locals@);
    let mut frames: Vec<CaptureFrame> = Vec::new();
    let mut done: Vec<Vec<CaptureSeed>> = Vec::new();
    let mut i: usize = 0;
    proof {
        assert(nodes@.take(0) =~= Seq::empty());
        assert(frame_views(frames@) =~= Seq::empty());
        assert(seed_lists(done@) =~= Seq::empty());
    }
    while i < nodes.len()
        invariant
            i <= nodes.len(),
            own == set_views(locals@),
            frame_views(frames@) == captures_after(
                nodes@.take(i as int),
                own,
                globals@,
            ).frames,
            seed_lists(done@) == captures_after(nodes@.take(i as int), own, globals@).done,
            forall|k: int|
                0 <= k < frames@.len() ==> (#[trigger] frames@[k]).ordinal < done@.len(),
        decreases nodes.len() - i,
    {
        proof {
            assert(nodes@.take(i + 1).drop_last() =~= nodes@.take(i as int));
            assert(nodes@.take(i + 1).last() == nodes@[i as int]);
        }
        let ghost state = captures_after(nodes@.take(i as int), own, globals@);
        let ghost old_frames = frames@;
        match nodes[i].node {
            Node::Leave(_) => {
                if frames.len() > 0 {
                    assert(state.frames.last() == frame_view(old_frames.last()));
                    leave_function(&mut frames, &mut done, locals, globals);
                }
            },
            _ => {
                let starts = match nodes[i].node {
                    Node::Expr(expr, _) => matches!(expr, Expr::FuncLit { .. }),
                    _ => false,
                };
                if starts {
                    let ordinal = done.len();
                    let frame = CaptureFrame { ordinal, ordered: Vec::new() };
                    frames.push(frame);
                    done.push(Vec::new());
                    proof {
                        assert(seed_views(frame.ordered@) =~= Seq::empty());
                        assert(frame_views(frames@) =~= state.frames.push(frame_view(frame)));
                        assert(seed_lists(done@) =~= state.done.push(Seq::empty()));
                    }
                } else if let Some(seed) = node_use(nodes[i]) {
                    if frames.len() > 0 {
                        let last = frames.len() - 1;
                        let ghost view = seed@;
                        record_use(&mut frames[last], locals, globals, seed);
                        proof {
                            assert(state.frames.last() == frame_view(old_frames.last()));
                            assert(frame_views(frames@) =~= state.frames.drop_last().push(
                                with_use(state.frames.last(), own, globals@, view),
                            ));
                            assert forall|k: int| 0 <= k < frames@.len() implies (
                            #[trigger] frames@[k]).ordinal < done@.len() by {
                                assert(frames@[k].ordinal == old_frames[k].ordinal);
                            }
                        }
                    }
                }
            },
        }
        i += 1;
    }
    assert(nodes@.take(i as int) =~= nodes@);
    done
}

/// Collects what every function of a program captures.
pub fn collect_capture_seeds(program: &CheckedProgram) -> (r: Vec<Vec<CaptureSeed>>)
    ensures
        seed_lists(r@) == program_seeds(program),
{
    let nodes = program_nodes(
        Walk { every_callee: true, into_functions: true, value_first: false, subject_last: false },
        program,
    );
    let globals = collect_globals(&program.items);
    let locals = collect_function_locals(&nodes);
    collect_function_captures(&nodes, &globals, &locals)
}

/// The storage that is captured is a whole variable.
pub open spec fn rooted(seed: SeedView) -> bool {
    seed.source.label matches Label::LocalPlace(id, _) && id == seed.binding_id
        && seed.source.span is Some
}

proof fn lemma_place_rooted(place: Place)
    ensures
        rooted(place_use(place)),
    decreases place,
{
    match place {
        Place::Local { .. } => {},
        Place::Field { base, .. } => lemma_place_rooted(*base),
        Place::Index { base, .. } => lemma_place_rooted(*base),
    }
}

proof fn lemma_use_rooted<'a>(visit: Visit<'a>)
    ensures
        used_at(visit) matches Some(seed) ==> rooted(seed),
{
    match visit.node {
        Node::Stmt(stmt) => match *stmt {
            Stmt::Assign { target, .. } => lemma_place_rooted(target),
            _ => {},
        },
        Node::Expr(expr, _) => match *expr {
            Expr::ReadPlace { source, .. } => lemma_place_rooted(*source),
            Expr::Borrow { source, .. } => lemma_place_rooted(*source),
            Expr::Refer { source, .. } => lemma_place_rooted(*source),
            Expr::Move { source, .. } => lemma_place_rooted(*source),
            _ => {},
        },
        _ => {},
    }
}

/// A function captures each variable once and as a whole, and none that is its own or global.
pub open spec fn frame_ok(
    frame: FrameView,
    locals: Seq<Set<BindingId>>,
    globals: Set<BindingId>,
) -> bool {
    &&& forall|i: int|
        0 <= i < frame.ordered.len() ==> !locals_at(locals, frame.ordinal).contains(
            (#[trigger] frame.ordered[i]).binding_id,
        ) && !globals.contains(frame.ordered[i].binding_id)
    &&& forall|i: int| 0 <= i < frame.ordered.len() ==> rooted(#[trigger] frame.ordered[i])
    &&& forall|i: int, j: int|
        0 <= i < j < frame.ordered.len() ==> (#[trigger] frame.ordered[i]).binding_id != (
        #[trigger] frame.ordered[j]).binding_id
}

proof fn lemma_use_ok(
    frame: FrameView,
    locals: Seq<Set<BindingId>>,
    globals: Set<BindingId>,
    seed: SeedView,
)
    requires
        frame_ok(frame, locals, globals),
        rooted(seed),
    ensures
        frame_ok(with_use(frame, locals, globals, seed), locals, globals),
        with_use(frame, locals, globals, seed).ordinal == frame.ordinal,
{
}

proof fn lemma_uses_ok(
    frame: FrameView,
    locals: Seq<Set<BindingId>>,
    globals: Set<BindingId>,
    seeds: Seq<SeedView>,
)
    requires
        frame_ok(frame, locals, globals),
        forall|i: int| 0 <= i < seeds.len() ==> rooted(#[trigger] seeds[i]),
    ensures
        frame_ok(with_uses(frame, locals, globals, seeds), locals, globals),
        with_uses(frame, locals, globals, seeds).ordinal == frame.ordinal,
    decreases seeds.len(),
{
    if seeds.len() > 0 {
        assert forall|i: int| 0 <= i < seeds.drop_last().len() implies rooted(
            #[trigger] seeds.drop_last()[i],
        ) by {
            assert(seeds.drop_last()[i] == seeds[i]);
        }
        assert(seeds.last() == seeds[seeds.len() - 1]);
        lemma_uses_ok(frame, locals, globals, seeds.drop_last());
        lemma_use_ok(
            with_uses(frame, locals, globals, seeds.drop_last()),
            locals,
            globals,
            seeds.last(),
        );
    }
}

pub open spec fn state_ok(
    state: CaptureState,
    locals: Seq<Set<BindingId>>,
    globals: Set<BindingId>,
) -> bool {
    &&& forall|k: int|
        0 <= k < state.frames.len() ==> frame_ok(#[trigger] state.frames[k], locals, globals)
            && state.frames[k].ordinal < state.done.len()
    &&& forall|k: int|
        0 <= k < state.done.len() ==> frame_ok(
            FrameView { ordinal: k as nat, ordered: #[trigger] state.done[k] },
            locals,
            globals,
        )
}

/// Whatever is walked, a function captures each variable once and as a whole, and none that is
/// its own or global.
pub proof fn law_captures_are_free<'a>(
    nodes: Seq<Visit<'a>>,
    locals: Seq<Set<BindingId>>,
    globals: Set<BindingId>,
)
    ensures
        state_ok(captures_after(nodes, locals, globals), locals, globals),
    decreases nodes.len(),
{
    if nodes.len() > 0 {
        let state = captures_after(nodes.drop_last(), locals, globals);
        law_captures_are_free(nodes.drop_last(), locals, globals);
        let visit = nodes.last();
        let after = capture_step(state, locals, globals, visit);
        if visit.node is Leave && state.frames.len() > 0 {
            let frame = state.frames.last();
            assert(frame == state.frames[state.frames.len() - 1]);
            let rest = state.frames.drop_last();
            if rest.len() > 0 {
                assert(rest.last() == state.frames[state.frames.len() - 2]);
                lemma_uses_ok(rest.last(), locals, globals, frame.ordered);
            }
            assert forall|k: int| 0 <= k < after.frames.len() implies frame_ok(
                #[trigger] after.frames[k],
                locals,
                globals,
            ) && after.frames[k].ordinal < after.done.len() by {
                if k < after.frames.len() - 1 {
                    assert(after.frames[k] == state.frames[k]);
                }
            }
            assert forall|k: int| 0 <= k < after.done.len() implies frame_ok(
                FrameView { ordinal: k as nat, ordered: #[trigger] after.done[k] },
                locals,
                globals,
            ) by {
                if k != frame.ordinal {
                    assert(after.done[k] == state.done[k]);
                } else {
                    assert(after.done[k] == frame.ordered);
                }
            }
        } else if !(visit.node is Leave) {
            if visit.node matches Node::Expr(expr, _) && *expr is FuncLit {
                assert forall|k: int| 0 <= k < after.frames.len() implies frame_ok(
                    #[trigger] after.frames[k],
                    locals,
                    globals,
                ) && after.frames[k].ordinal < after.done.len() by {
                    if k < state.frames.len() {
                        assert(after.frames[k] == state.frames[k]);
                    }
                }
                assert forall|k: int| 0 <= k < after.done.len() implies frame_ok(
                    FrameView { ordinal: k as nat, ordered: #[trigger] after.done[k] },
                    locals,
                    globals,
                ) by {
                    if k < state.done.len() {
                        assert(after.done[k] == state.done[k]);
                    }
                }
            } else if used_at(visit) is Some && state.frames.len() > 0 {
                assert(state.frames.last() == state.frames[state.frames.len() - 1]);
                lemma_use_rooted(visit);
                lemma_use_ok(state.frames.last(), locals, globals, used_at(visit)->0);
                assert forall|k: int| 0 <= k < after.frames.len() implies frame_ok(
                    #[trigger] after.frames[k],
                    locals,
                    globals,
                ) && after.frames[k].ordinal < after.done.len() by {
                    if k < state.frames.len() - 1 {
                        assert(after.frames[k] == state.frames[k]);
                    }
                }
            }
        }
    }
}

/// The functions among some nodes, in order.
pub open spec fn functions_of<'a>(nodes: Seq<Visit<'a>>) -> Seq<&'a Expr>
    decreases nodes.len(),
{
    if nodes.len() == 0 {
        Seq::empty()
    } else {
        let rest = functions_of(nodes.drop_last());
        match nodes.last().node {
            Node::Expr(expr, _) => if *expr is FuncLit {
                rest.push(expr)
            } else {
                rest
            },
            _ => rest,
        }
    }
}

/// Lists the functions among some nodes.
pub fn function_preorder<'a>(nodes: &Vec<Visit<'a>>) -> (r: Vec<&'a Expr>)
    ensures
        r@ == functions_of(nodes@),
        forall|i: int| 0 <= i < r@.len() ==> *(#[trigger] r@[i]) is FuncLit,
{
    let mut functions: Vec<&'a Expr> = Vec::new();
    let mut i: usize = 0;
    assert(nodes@.take(0) =~= Seq::empty());
    while i < nodes.len()
        invariant
            i <= nodes.len(),
            functions@ == functions_of(nodes@.take(i as int)),
            forall|k: int| 0 <= k < functions@.len() ==> *(#[trigger] functions@[k]) is FuncLit,
        decreases nodes.len() - i,
    {
        proof {
            assert(nodes@.take(i + 1).drop_last() =~= nodes@.take(i as int));
            assert(nodes@.take(i + 1).last() == nodes@[i as int]);
        }
        if let Node::Expr(expr, _) = nodes[i].node {
            if let Expr::FuncLit { .. } = expr {
                functions.push(expr);
            }
        }
        i += 1;
    }
    assert(nodes@.take(i as int) =~= nodes@);
    functions
}

/// As many functions capture something, or nothing, as there are functions.
proof fn lemma_seeds_align<'a>(
    nodes: Seq<Visit<'a>>,
    locals: Seq<Set<BindingId>>,
    globals: Set<BindingId>,
)
    ensures
        captures_after(nodes, locals, globals).done.len() == functions_of(nodes).len(),
    decreases nodes.len(),
{
    if nodes.len() > 0 {
        lemma_seeds_align(nodes.drop_last(), locals, globals);
        law_captures_are_free(nodes.drop_last(), locals, globals);
        let state = captures_after(nodes.drop_last(), locals, globals);
        if state.frames.len() > 0 {
            assert(state.frames.last() == state.frames[state.frames.len() - 1]);
        }
    }
}

/// The number of captures of the first functions.
pub open spec fn capture_count(seeds: Seq<Seq<SeedView>>, upto: nat) -> nat
    decreases upto,
{
    if upto == 0 {
        0
    } else {
        capture_count(seeds, (upto - 1) as nat) + seeds[upto - 1].len()
    }
}

/// What a function captures; the loans are numbered in order, function by function.
pub open spec fn planned_captures(seeds: Seq<Seq<SeedView>>, first: u32, k: int) -> Seq<Tree> {
    Seq::new(
        seeds[k].len(),
        |j: int|
            part(
                Label::Capture(
                    seeds[k][j].binding_id,
                    LoanId((first + capture_count(seeds, k as nat) + j) as u32),
                    None,
                ),
                seq![seeds[k][j].source],
            ),
    )
}

pub open spec fn exhausted() -> ErrorView {
    capture_broken("LoanId 在 capture materialization 中耗尽"@)
}

/// The lists are the captures of the functions.
pub open spec fn captures_planned(
    lists: Seq<Vec<Capture>>,
    seeds: Seq<Seq<SeedView>>,
    first: u32,
) -> bool {
    lists.len() == seeds.len() && forall|k: int|
        0 <= k < lists.len() ==> capture_trees((#[trigger] lists[k])@) == planned_captures(
            seeds,
            first,
            k,
        )
}

proof fn lemma_count_grows(seeds: Seq<Seq<SeedView>>, a: nat, b: nat)
    requires
        a <= b,
    ensures
        capture_count(seeds, a) <= capture_count(seeds, b),
    decreases b - a,
{
    if a < b {
        lemma_count_grows(seeds, a, (b - 1) as nat);
    }
}

fn materialize_function(
    function: &Vec<CaptureSeed>,
    next_loan_id: &mut u32,
    Ghost(seeds): Ghost<Seq<Seq<SeedView>>>,
    Ghost(first): Ghost<u32>,
    Ghost(k): Ghost<int>,
) -> (r: AliasResult<Vec<Capture>>)
    requires
        0 <= k < seeds.len(),
        seeds[k] == seed_views(function@),
        *old(next_loan_id) == first + capture_count(seeds, k as nat),
    ensures
        if first + capture_count(seeds, (k + 1) as nat) <= u32::MAX {
            r matches Ok(list) && capture_trees(list@) == planned_captures(seeds, first, k)
                && *final(next_loan_id) == first + capture_count(seeds, (k + 1) as nat)
        } else {
            fault_of(r) == Some(exhausted())
        },
{
    let ghost start = *next_loan_id;
    let mut list: Vec<Capture> = Vec::new();
    let mut j: usize = 0;
    while j < function.len()
        invariant
            j <= function.len(),
            start == first + capture_count(seeds, k as nat),
            *next_loan_id == start + j,
            0 <= k < seeds.len(),
            seeds[k] == seed_views(function@),
            list@.len() == j,
            forall|m: int|
                0 <= m < j ==> capture_tree(#[trigger] list@[m]) == planned_captures(
                    seeds,
                    first,
                    k,
                )[m],
        decreases function.len() - j,
    {
        let seed = &function[j];
        if *next_loan_id == u32::MAX {
            return Err(capture_invariant("LoanId 在 capture materialization 中耗尽"));
        }
        let loan_id = LoanId(*next_loan_id);
        *next_loan_id = *next_loan_id + 1;
        let capture = Capture {
            binding_id: seed.binding_id,
            loan_id,
            source: seed.source.clone(),
            kind: None,
        };
        proof {
            assert(seeds[k][j as int] == seed@);
            assert(capture_tree(capture) == planned_captures(seeds, first, k)[j as int]);
        }
        list.push(capture);
        j += 1;
    }
    assert(capture_trees(list@) =~= planned_captures(seeds, first, k));
    Ok(list)
}

/// Numbers the loans of all captures.
pub fn materialize_captures(seeds: Vec<Vec<CaptureSeed>>, next_loan_id: &mut u32) -> (r:
    AliasResult<Vec<Vec<Capture>>>)
    ensures
        ({
            let views = seed_lists(seeds@);
            let last = *old(next_loan_id) + capture_count(views, views.len());
            if last <= u32::MAX {
                r matches Ok(lists) && captures_planned(lists@, views, *old(next_loan_id))
                    && *final(next_loan_id) == last
            } else {
                fault_of(r) == Some(exhausted())
            }
        }),
{
    let ghost views = seed_lists(seeds@);
    let ghost first = *next_loan_id;
    let mut lists: Vec<Vec<Capture>> = Vec::new();
    let mut k: usize = 0;
    while k < seeds.len()
        invariant
            k <= seeds.len(),
            views == seed_lists(seeds@),
            first == *old(next_loan_id),
            *next_loan_id == first + capture_count(views, k as nat),
            lists@.len() == k,
            forall|m: int|
                0 <= m < k ==> capture_trees((#[trigger] lists@[m])@) == planned_captures(
                    views,
                    first,
                    m,
                ),
        decreases seeds.len() - k,
    {
        match materialize_function(
            &seeds[k],
            next_loan_id,
            Ghost(views),
            Ghost(first),
            Ghost(k as int),
        ) {
            Ok(list) => {
                lists.push(list);
            },
            Err(error) => {
                proof {
                    lemma_count_grows(views, (k + 1) as nat, views.len());
                }
                return Err(error);
            },
        }
        k += 1;
    }
    Ok(lists)
}

/// The number of functions before a node.
pub open spec fn number_at<'a>(nodes: Seq<Visit<'a>>, i: int) -> int {
    functions_of(nodes.take(i)).len() as int
}

/// A mark writes the captures of a function; other nodes are kept.
pub open spec fn writes_captures<'a>(mark: Mark, visit: Visit<'a>, planned: Seq<Tree>) -> bool {
    if visit.node matches Node::Expr(expr, _) && *expr is FuncLit {
        mark matches Mark::Captures(list) && capture_trees(list@) == planned
    } else {
        mark is Keep
    }
}

/// One program is the other with the captures of its functions written.
pub open spec fn captures_written(
    before: CheckedProgram,
    after: CheckedProgram,
    captures: spec_fn(int) -> Seq<Tree>,
) -> bool {
    let nodes = program_walk(capture_walk(), &before);
    &&& after.main_id == before.main_id
    &&& exists|marks: Seq<Mark>| #[trigger]
        tracks(nodes, program_walk(capture_walk(), &after), marks) && marks.len() == nodes.len()
            && forall|i: int|
            0 <= i < nodes.len() ==> writes_captures(
                #[trigger] marks[i],
                nodes[i],
                captures(number_at(nodes, i)),
            )
}

/// One mark for each node: the captures of a function, and nothing elsewhere.
pub fn capture_marks<'a>(nodes: &Vec<Visit<'a>>, lists: Vec<Vec<Capture>>) -> (r: Vec<Mark>)
    requires
        lists@.len() == functions_of(nodes@).len(),
    ensures
        r@.len() == nodes@.len(),
        forall|i: int|
            0 <= i < nodes@.len() ==> writes_captures(
                #[trigger] r@[i],
                nodes@[i],
                capture_trees(lists@[number_at(nodes@, i)]@),
            ),
{
    let ghost all = lists@;
    let mut left = lists;
    let mut reversed: Vec<Mark> = Vec::new();
    let mut i: usize = nodes.len();
    assert(nodes@.take(i as int) =~= nodes@);
    while i > 0
        invariant
            i <= nodes.len(),
            left@.len() == number_at(nodes@, i as int),
            left@.len() <= all.len(),
            left@ == all.take(left@.len() as int),
            reversed@.len() == nodes@.len() - i,
            forall|k: int|
                i <= k < nodes@.len() ==> writes_captures(
                    reversed@[nodes@.len() - 1 - k],
                    #[trigger] nodes@[k],
                    capture_trees(all[number_at(nodes@, k)]@),
                ),
        decreases i,
    {
        let ghost before = reversed@;
        let ghost was = left@;
        proof {
            assert(nodes@.take(i as int).drop_last() =~= nodes@.take(i - 1));
            assert(nodes@.take(i as int).last() == nodes@[i - 1]);
        }
        i -= 1;
        let starts = match nodes[i].node {
            Node::Expr(expr, _) => matches!(expr, Expr::FuncLit { .. }),
            _ => false,
        };
        let mut mark = Mark::Keep;
        if starts {
            if let Some(list) = left.pop() {
                mark = Mark::Captures(list);
                proof {
                    assert(list == all[number_at(nodes@, i as int)]);
                    assert(left@ =~= all.take(left@.len() as int));
                }
            }
        }
        proof {
            assert(writes_captures(
                mark,
                nodes@[i as int],
                capture_trees(all[number_at(nodes@, i as int)]@),
            ));
        }
        let ghost here = mark;
        reversed.push(mark);
        proof {
            assert forall|k: int| i <= k < nodes@.len() implies writes_captures(
                reversed@[nodes@.len() - 1 - k],
                #[trigger] nodes@[k],
                capture_trees(all[number_at(nodes@, k)]@),
            ) by {
                if k > i {
                    assert(reversed@[nodes@.len() - 1 - k] == before[nodes@.len() - 1 - k]);
                } else {
                    assert(reversed@[nodes@.len() - 1 - k] == here);
                }
            }
        }
    }
    let mut marks: Vec<Mark> = Vec::new();
    let ghost turned = reversed@;
    let mut rest = reversed;
    while rest.len() > 0
        invariant
            rest@.len() <= turned.len(),
            rest@ == turned.take(rest@.len() as int),
            marks@.len() + rest@.len() == turned.len(),
            forall|k: int|
                0 <= k < marks@.len() ==> #[trigger] marks@[k] == turned[turned.len() - 1 - k],
        decreases rest.len(),
    {
        let ghost was = rest@;
        if let Some(mark) = rest.pop() {
            assert(mark == turned[was.len() - 1]);
            marks.push(mark);
        }
        assert(rest@ =~= turned.take(rest@.len() as int));
    }
    proof {
        assert forall|k: int| 0 <= k < nodes@.len() implies writes_captures(
            #[trigger] marks@[k],
            nodes@[k],
            capture_trees(all[number_at(nodes@, k)]@),
        ) by {
            assert(marks@[k] == turned[turned.len() - 1 - k]);
        }
    }
    marks
}

fn plan_captures(program: &CheckedProgram, next_loan_id: &mut u32) -> (r: AliasResult<Vec<Mark>>)
    ensures
        ({
            let nodes = program_walk(capture_walk(), program);
            let seeds = program_seeds(program);
            let last = *old(next_loan_id) + capture_count(seeds, seeds.len());
            if last <= u32::MAX {
                &&& r matches Ok(marks) && marks@.len() == nodes.len() && forall|i: int|
                    0 <= i < nodes.len() ==> writes_captures(
                        #[trigger] marks@[i],
                        nodes[i],
                        planned_captures(seeds, *old(next_loan_id), number_at(nodes, i)),
                    )
                &&& *final(next_loan_id) == last
            } else {
                fault_of(r) == Some(exhausted())
            }
        }),
{
    let ghost first = *next_loan_id;
    let seeds = collect_capture_seeds(program);
    let ghost views = seed_lists(seeds@);
    let lists = match materialize_captures(seeds, next_loan_id) {
        Ok(lists) => lists,
        Err(error) => {
            return Err(error);
        },
    };
    let nodes = program_nodes(
        Walk { every_callee: true, into_functions: true, value_first: false, subject_last: false },
        program,
    );
    let ghost all = lists@;
    proof {
        lemma_seeds_align(nodes@, function_locals(nodes@), global_ids(program.items@));
    }
    let marks = capture_marks(&nodes, lists);
    proof {
        assert forall|i: int| 0 <= i < nodes@.len() implies writes_captures(
            #[trigger] marks@[i],
            nodes@[i],
            planned_captures(views, first, number_at(nodes@, i)),
        ) by {
            if nodes@[i].node matches Node::Expr(expr, _) && *expr is FuncLit {
                lemma_number_in_range(nodes@, i);
                let k = number_at(nodes@, i);
                assert(capture_trees(all[k]@) == planned_captures(views, first, k));
            }
        }
    }
    Ok(marks)
}

pub proof fn lemma_number_in_range<'a>(nodes: Seq<Visit<'a>>, i: int)
    requires
        0 <= i < nodes.len(),
        nodes[i].node is Expr,
        *nodes[i].node->Expr_0 is FuncLit,
    ensures
        0 <= number_at(nodes, i) < functions_of(nodes).len(),
        functions_of(nodes)[number_at(nodes, i)] == nodes[i].node->Expr_0,
    decreases nodes.len(),
{
    let rest = nodes.drop_last();
    if i == nodes.len() - 1 {
        assert(nodes.take(i) =~= rest);
    } else {
        lemma_number_in_range(rest, i);
        assert(rest.take(i) =~= nodes.take(i));
    }
}

/// Finds out what every function captures, gives each capture a loan, and writes it down.
pub fn populate_captures(program: &mut CheckedProgram, next_loan_id: &mut u32) -> (r: AliasResult<
    (),
>)
    ensures
        ({
            let seeds = program_seeds(old(program));
            let first = *old(next_loan_id);
            let last = first + capture_count(seeds, seeds.len());
            if last <= u32::MAX {
                &&& r is Ok
                &&& *final(next_loan_id) == last
                &&& captures_written(
                    *old(program),
                    *final(program),
                    |k: int| planned_captures(seeds, first, k),
                )
            } else {
                fault_of(r) == Some(exhausted()) && *final(program) == *old(program)
            }
        }),
{
    let marks = match plan_captures(program, next_loan_id) {
        Ok(marks) => marks,
        Err(error) => {
            return Err(error);
        },
    };
    let ghost written = marks@;
    apply_marks(
        Walk { every_callee: true, into_functions: true, value_first: false, subject_last: false },
        program,
        marks,
    );
    assert(tracks(
        program_walk(capture_walk(), old(program)),
        program_walk(capture_walk(), program),
        written,
    ));
    Ok(())
}

} // verus!
