//! The control-flow graph of a function body.
//!
//! A node of the graph does one thing to a variable, a loan or a place; edges lead to what may
//! come next. The builder works through a list of pieces still to be built, so the nesting of a
//! body never turns into nesting of calls.

use crate::ids::IdSet;
use crate::model::{
    ArmBody, BinOp, Body, BorrowKind, BuiltinCall, CallArg, CallResult, CallTarget, Capture, Expr,
    MatchArm, MethodTarget, Place, ResolvedConversion, Stmt, StorageRelation, StrPart,
    ValueCategory, place_root,
};
use crate::place_relation::{PlaceRelation, relation, relation_of};
use crate::types::{
    AliasResult, BindingId, ErrorView, LoanId, Span, broken_at, broken_invariant, error, fault_of,
    no_span,
};
use crate::value_categories::{owns_dynamically, type_carries_dynamic_owner};
use vstd::prelude::*;

verus! {

#[derive(Debug, Clone, Copy, PartialEq, Eq, Structural)]
pub enum AccessKind {
    Read,
    Write,
}

/// What one node of the graph does.
#[derive(Debug, Clone, Copy)]
pub enum Action<'a> {
    Nop,
    /// Uses a variable as a whole.
    Read(BindingId, AccessKind, Span),
    /// Copies the value of a place.
    CloneRead(&'a Place, Span),
    /// Creates a loan of a place.
    Borrow {
        loan_id: LoanId,
        source: &'a Place,
        declared_kind: Option<BorrowKind>,
        span: Span,
    },
    /// Makes a variable an alias under a loan.
    BindLoan(BindingId, LoanId),
    /// Overwrites a place.
    Write(&'a Place, Span),
    /// Takes the value out of a place.
    Move(&'a Place, Span),
    /// Brings an owning variable into being.
    Declare(BindingId),
    /// Gives an owning variable a new value.
    Reinitialize(BindingId, Span),
}

#[derive(Debug)]
pub struct GraphNode<'a> {
    pub action: Action<'a>,
    pub successors: Vec<usize>,
}

/// The mathematical value of a node.
pub struct NodeView<'a> {
    pub action: Action<'a>,
    pub successors: Seq<usize>,
}

impl<'a> View for GraphNode<'a> {
    type V = NodeView<'a>;

    open spec fn view(&self) -> NodeView<'a> {
        NodeView { action: self.action, successors: self.successors@ }
    }
}

/// Where `break` and `continue` lead.
#[derive(Debug, Clone, Copy, PartialEq, Eq, Structural)]
pub struct LoopTargets {
    pub break_target: Option<usize>,
    pub continue_target: Option<usize>,
}

/// How a place is evaluated.
#[derive(Debug, Clone, Copy, PartialEq, Eq, Structural)]
pub struct PlaceEvalMode {
    /// The value of the place is read.
    pub read_root: bool,
    /// The value may stay shared with what reads it.
    pub exposes_alias: bool,
    pub access: AccessKind,
}

/// A piece of the body that is still to be built, between two nodes of the graph.
#[derive(Debug, Clone, Copy)]
pub enum Task<'a> {
    Expr {
        expr: &'a Expr,
        entry: usize,
        exit: usize,
        /// The place that the value of the expression is about to replace.
        replacement: Option<&'a Place>,
        loops: LoopTargets,
    },
    Stmt { stmt: &'a Stmt, entry: usize, exit: usize, loops: LoopTargets },
    Stmts { stmts: &'a Vec<Stmt>, entry: usize, exit: usize, loops: LoopTargets },
    Body { body: &'a Body, entry: usize, exit: usize, loops: LoopTargets },
    MatchArm { arm: &'a MatchArm, entry: usize, exit: usize, loops: LoopTargets },
    PlaceEval {
        place: &'a Place,
        entry: usize,
        exit: usize,
        loops: LoopTargets,
        mode: PlaceEvalMode,
    },
}

pub struct GraphBuilder<'a> {
    pub nodes: Vec<GraphNode<'a>>,
    pub tasks: Vec<Task<'a>>,
    /// Owning variables whose value can be moved out.
    pub eligible: IdSet,
    pub owning: IdSet,
    pub borrowed: IdSet,
    /// The variables outside all functions, where there are any in reach.
    pub globals: Option<&'a IdSet>,
    pub nested_functions: Vec<&'a Expr>,
    /// Where every return leads.
    pub return_sink: usize,
}

/// The mathematical value of a builder.
pub struct GraphView<'a> {
    pub nodes: Seq<NodeView<'a>>,
    pub tasks: Seq<Task<'a>>,
    pub eligible: Set<BindingId>,
    pub owning: Set<BindingId>,
    pub borrowed: Set<BindingId>,
    pub globals: Set<BindingId>,
    pub nested_functions: Seq<&'a Expr>,
    pub return_sink: usize,
}

pub open spec fn known_globals(globals: Option<&IdSet>) -> Set<BindingId> {
    match globals {
        Some(ids) => ids@,
        None => Set::empty(),
    }
}

pub open spec fn node_views<'a>(nodes: Seq<GraphNode<'a>>) -> Seq<NodeView<'a>> {
    nodes.map_values(|node: GraphNode<'a>| node@)
}

impl<'a> View for GraphBuilder<'a> {
    type V = GraphView<'a>;

    open spec fn view(&self) -> GraphView<'a> {
        GraphView {
            nodes: node_views(self.nodes@),
            tasks: self.tasks@,
            eligible: self.eligible@,
            owning: self.owning@,
            borrowed: self.borrowed@,
            globals: known_globals(self.globals),
            nested_functions: self.nested_functions@,
            return_sink: self.return_sink,
        }
    }
}

/// The number of the next node.
pub open spec fn next<'a>(g: GraphView<'a>) -> usize {
    g.nodes.len() as usize
}

/// The graph with one more node.
pub open spec fn with_node<'a>(g: GraphView<'a>, action: Action<'a>) -> GraphView<'a> {
    GraphView { nodes: g.nodes.push(NodeView { action, successors: Seq::empty() }), ..g }
}

/// The graph with an edge; an edge that is there already is not doubled.
pub open spec fn with_edge<'a>(g: GraphView<'a>, from: usize, to: usize) -> GraphView<'a> {
    let node = g.nodes[from as int];
    if from >= g.nodes.len() || node.successors.contains(to) {
        g
    } else {
        GraphView {
            nodes: g.nodes.update(
                from as int,
                NodeView { action: node.action, successors: node.successors.push(to) },
            ),
            ..g
        }
    }
}

/// The graph with an action between two nodes.
pub open spec fn with_action<'a>(
    g: GraphView<'a>,
    entry: usize,
    exit: usize,
    action: Action<'a>,
) -> GraphView<'a> {
    let id = next(g);
    with_edge(with_edge(with_node(g, action), entry, id), id, exit)
}

pub open spec fn with_task<'a>(g: GraphView<'a>, task: Task<'a>) -> GraphView<'a> {
    GraphView { tasks: g.tasks.push(task), ..g }
}

pub open spec fn expr_task<'a>(
    expr: &'a Expr,
    entry: usize,
    exit: usize,
    replacement: Option<&'a Place>,
    loops: LoopTargets,
) -> Task<'a> {
    Task::Expr { expr, entry, exit, replacement, loops }
}

/// The boundary before the piece `i` of a sequence of `count` pieces.
pub open spec fn boundary(base: nat, count: nat, entry: usize, exit: usize, i: int) -> usize {
    if i <= 0 {
        entry
    } else if i >= count {
        exit
    } else {
        (base + i - 1) as usize
    }
}

pub open spec fn nops<'a>(count: nat) -> Seq<NodeView<'a>> {
    Seq::new(count, |i: int| NodeView { action: Action::Nop, successors: Seq::empty() })
}

/// The graph with expressions to be built one after the other, the first on top of the list.
pub open spec fn with_sequence<'a>(
    g: GraphView<'a>,
    exprs: Seq<&'a Expr>,
    entry: usize,
    exit: usize,
    replacement: Option<&'a Place>,
    loops: LoopTargets,
) -> GraphView<'a> {
    let count = exprs.len();
    if count == 0 {
        with_edge(g, entry, exit)
    } else {
        GraphView {
            nodes: g.nodes + nops((count - 1) as nat),
            tasks: g.tasks + Seq::new(
                count,
                |k: int|
                    expr_task(
                        exprs[count - 1 - k],
                        boundary(g.nodes.len(), count, entry, exit, count - 1 - k),
                        boundary(g.nodes.len(), count, entry, exit, count - k),
                        replacement,
                        loops,
                    ),
            ),
            ..g
        }
    }
}

/// The graph with statements to be built one after the other, the first on top of the list.
pub open spec fn with_stmts<'a>(
    g: GraphView<'a>,
    stmts: Seq<Stmt>,
    entry: usize,
    exit: usize,
    loops: LoopTargets,
) -> GraphView<'a> {
    let count = stmts.len();
    if count == 0 {
        with_edge(g, entry, exit)
    } else {
        GraphView {
            nodes: g.nodes + nops((count - 1) as nat),
            tasks: g.tasks + Seq::new(
                count,
                |k: int|
                    Task::Stmt {
                        stmt: &stmts[count - 1 - k],
                        entry: boundary(g.nodes.len(), count, entry, exit, count - 1 - k),
                        exit: boundary(g.nodes.len(), count, entry, exit, count - k),
                        loops,
                    },
            ),
            ..g
        }
    }
}

/// The loan under which a call hands back its result, what is lent, and the recorded kind.
pub open spec fn handed_loan<'a>(expr: &'a Expr) -> Option<
    (LoanId, &'a Place, Option<BorrowKind>),
> {
    match *expr {
        Expr::Call { result: Some(handed), .. } => loan_in(&*handed),
        Expr::MethodCall { result: Some(handed), .. } => loan_in(&*handed),
        _ => None,
    }
}

pub open spec fn loan_in<'a>(handed: &'a CallResult) -> Option<
    (LoanId, &'a Place, Option<BorrowKind>),
> {
    match *handed {
        CallResult::Borrowed { loan_id, source, kind, .. } => Some((loan_id, &source, kind)),
        _ => None,
    }
}

fn result_loan<'a>(handed: &'a CallResult) -> (r: Option<(LoanId, &'a Place, Option<BorrowKind>)>)
    ensures
        r == loan_in(handed),
{
    match handed {
        CallResult::Borrowed { loan_id, source, kind, .. } => Some((*loan_id, source, *kind)),
        _ => None,
    }
}

/// The loan under which a call hands back its result.
pub fn call_loan<'a>(expr: &'a Expr) -> (r: Option<(LoanId, &'a Place, Option<BorrowKind>)>)
    ensures
        r == handed_loan(expr),
{
    match expr {
        Expr::Call { result: Some(handed), .. } => result_loan(handed),
        Expr::MethodCall { result: Some(handed), .. } => result_loan(handed),
        _ => None,
    }
}

/// The loan and the source of an expression that is an alias, behind identity conversions.
pub open spec fn borrow_of<'a>(expr: &'a Expr) -> Option<(LoanId, &'a Place)>
    decreases expr,
{
    match *expr {
        Expr::Borrow { loan_id, source, .. } => Some((loan_id, &*source)),
        Expr::Refer { loan_id, source, .. } => Some((loan_id, &*source)),
        Expr::Convert { expr: inner, mode: ResolvedConversion::Identity, .. } => borrow_of(&*inner),
        _ => match handed_loan(expr) {
            Some((loan_id, source, _)) => Some((loan_id, source)),
            None => None,
        },
    }
}

/// The loan and the source of an expression that is an alias.
pub fn resolved_borrow<'a>(expr: &'a Expr) -> (r: Option<(LoanId, &'a Place)>)
    ensures
        r == borrow_of(expr),
{
    let mut current: &'a Expr = expr;
    loop
        invariant
            borrow_of(expr) == borrow_of(current),
        decreases current,
    {
        match current {
            Expr::Borrow { loan_id, source, .. } => {
                return Some((*loan_id, source));
            },
            Expr::Refer { loan_id, source, .. } => {
                return Some((*loan_id, source));
            },
            Expr::Convert { expr: inner, mode: ResolvedConversion::Identity, .. } => {
                current = inner;
            },
            _ => {
                return match call_loan(current) {
                    Some((loan_id, source, _)) => Some((loan_id, source)),
                    None => None,
                };
            },
        }
    }
}

/// The index expressions of a place, from its root outwards.
pub open spec fn place_indices<'a>(place: &'a Place) -> Seq<&'a Expr>
    decreases place,
{
    match *place {
        Place::Local { .. } => Seq::empty(),
        Place::Field { base, .. } => place_indices(&*base),
        Place::Index { base, index, .. } => place_indices(&*base).push(&*index),
    }
}

/// The variable at the bottom of a place, as a place.
pub open spec fn root_place<'a>(place: &'a Place) -> &'a Place
    decreases place,
{
    match *place {
        Place::Local { .. } => place,
        Place::Field { base, .. } => root_place(&*base),
        Place::Index { base, .. } => root_place(&*base),
    }
}

/// The root of a place and its index expressions, from the root outwards.
fn place_parts<'a>(place: &'a Place) -> (r: (&'a Place, Vec<&'a Expr>))
    ensures
        r.0 == root_place(place),
        *r.0 is Local,
        r.1@ == place_indices(place),
{
    let mut outwards: Vec<&'a Expr> = Vec::new();
    let mut root: &'a Place = place;
    loop
        invariant_except_break
            root_place(place) == root_place(root),
            place_indices(place) == place_indices(root) + outwards@.reverse(),
        ensures
            root == root_place(place),
            *root is Local,
            place_indices(place) == outwards@.reverse(),
        decreases root,
    {
        match root {
            Place::Local { .. } => {
                assert(place_indices(place) =~= outwards@.reverse());
                break;
            },
            Place::Field { base, .. } => {
                root = base;
            },
            Place::Index { base, index, .. } => {
                outwards.push(index);
                assert(place_indices(place) =~= place_indices(&**base) + outwards@.reverse());
                root = base;
            },
        }
    }
    let mut inwards: Vec<&'a Expr> = Vec::new();
    let mut left: usize = outwards.len();
    while left > 0
        invariant
            left <= outwards.len(),
            inwards@ =~= outwards@.reverse().subrange(0, outwards@.len() - left),
        decreases left,
    {
        left -= 1;
        inwards.push(outwards[left]);
    }
    assert(inwards@ =~= place_indices(place));
    (root, inwards)
}

/// How the evaluation of a place uses its root.
pub open spec fn root_action<'a>(
    g: GraphView<'a>,
    place: &'a Place,
    root: &'a Place,
    mode: PlaceEvalMode,
) -> Action<'a> {
    let id = place_root(*root);
    let span = root.spec_info().span;
    if mode.exposes_alias || g.borrowed.contains(id) {
        Action::Read(id, mode.access, span)
    } else {
        Action::CloneRead(place, span)
    }
}

/// The graph with the evaluation of a place. Reaching an owned place for writing is not a use
/// of its root: the write itself is checked against exactly what it overwrites. Reaching it
/// through an alias is a use of the alias.
pub open spec fn step_place<'a>(
    g: GraphView<'a>,
    place: &'a Place,
    entry: usize,
    exit: usize,
    loops: LoopTargets,
    mode: PlaceEvalMode,
) -> GraphView<'a> {
    let root = root_place(place);
    if *place is Local {
        if mode.read_root {
            with_action(g, entry, exit, root_action(g, place, root, mode))
        } else {
            with_edge(g, entry, exit)
        }
    } else {
        let after_root = next(g);
        let g1 = with_node(g, Action::Nop);
        let g2 = if mode.read_root || g.borrowed.contains(place_root(*root)) {
            with_action(g1, entry, after_root, root_action(g, place, root, mode))
        } else {
            with_edge(g1, entry, after_root)
        };
        with_sequence(g2, place_indices(place), after_root, exit, None, loops)
    }
}

/// The graph with the creation of a loan: the indices of the source first, then the loan.
pub open spec fn step_borrow<'a>(
    g: GraphView<'a>,
    source: &'a Place,
    action: Action<'a>,
    entry: usize,
    exit: usize,
    loops: LoopTargets,
) -> GraphView<'a> {
    let indices = place_indices(source);
    if indices.len() == 0 {
        with_action(g, entry, exit, action)
    } else {
        let after = next(g);
        let g1 = with_sequence(with_node(g, Action::Nop), indices, entry, after, None, loops);
        with_action(g1, after, exit, action)
    }
}

pub open spec fn hole_exprs<'a>(parts: Seq<StrPart>) -> Seq<&'a Expr>
    decreases parts.len(),
{
    if parts.len() == 0 {
        Seq::empty()
    } else {
        let earlier = hole_exprs(parts.drop_last());
        match parts.last() {
            StrPart::Hole(hole) => earlier.push(&*hole),
            StrPart::Lit(_) => earlier,
        }
    }
}

pub open spec fn arg_exprs<'a>(args: Seq<CallArg>) -> Seq<&'a Expr> {
    Seq::new(args.len(), |i: int| &args[i].value)
}

pub open spec fn elem_exprs<'a>(elems: Seq<Expr>) -> Seq<&'a Expr> {
    Seq::new(elems.len(), |i: int| &elems[i])
}

/// The graph with one use for each captured variable, from the capture `i` on.
pub open spec fn with_captures<'a>(
    g: GraphView<'a>,
    captures: Seq<Capture>,
    i: int,
    current: usize,
    exit: usize,
    span: Span,
) -> GraphView<'a>
    decreases captures.len() - i,
{
    if i >= captures.len() {
        g
    } else {
        let action = Action::Read(captures[i].binding_id, AccessKind::Read, span);
        if i + 1 == captures.len() {
            with_action(g, current, exit, action)
        } else {
            let following = next(g);
            with_captures(
                with_action(with_node(g, Action::Nop), current, following, action),
                captures,
                i + 1,
                following,
                exit,
                span,
            )
        }
    }
}

/// The graph with the arms of a match to be built, from the arm `i` on.
pub open spec fn with_arms<'a>(
    g: GraphView<'a>,
    arms: Seq<MatchArm>,
    gate: usize,
    exit: usize,
    loops: LoopTargets,
) -> GraphView<'a> {
    GraphView {
        tasks: g.tasks + Seq::new(
            arms.len(),
            |i: int| Task::MatchArm { arm: &arms[i], entry: gate, exit, loops },
        ),
        ..g
    }
}

pub open spec fn is_incdec(target: CallTarget) -> bool {
    target matches CallTarget::Builtin(builtin) && (builtin is Increase || builtin is Decrease)
}

/// The graph after one step of building a call, up to the point where its result is there.
pub open spec fn step_call<'a>(
    g: GraphView<'a>,
    expr: &'a Expr,
    entry: usize,
    exit: usize,
    replacement: Option<&'a Place>,
    loops: LoopTargets,
) -> Result<GraphView<'a>, ErrorView> {
    match *expr {
        Expr::Call { callee, args, target, .. } => if is_incdec(target) {
            if args@.len() != 1 {
                Err(broken_at(expr.spec_span(), "increase/decrease 元数漂移"@))
            } else {
                match args@[0].value {
                    Expr::Ident(_, Some(id), span, _) => Ok(
                        with_action(g, entry, exit, Action::Read(id, AccessKind::Write, span)),
                    ),
                    _ => Err(
                        broken_at(
                            args@[0].value.spec_span(),
                            "increase/decrease target 未解析为 binding"@,
                        ),
                    ),
                }
            }
        } else if target is FunctionValue {
            Ok(
                with_sequence(
                    g,
                    seq![&*callee] + arg_exprs(args@),
                    entry,
                    exit,
                    replacement,
                    loops,
                ),
            )
        } else {
            Ok(with_sequence(g, arg_exprs(args@), entry, exit, replacement, loops))
        },
        Expr::MethodCall { recv, args, target, .. } => {
            let changes = target is ArrayPush || target is ArrayPop;
            match *recv {
                Expr::Ident(_, Some(id), span, _) if changes => {
                    let after = next(g);
                    let g1 = with_action(
                        with_node(g, Action::Nop),
                        entry,
                        after,
                        Action::Read(id, AccessKind::Write, span),
                    );
                    Ok(with_sequence(g1, arg_exprs(args@), after, exit, replacement, loops))
                },
                _ => Ok(
                    with_sequence(
                        g,
                        seq![&*recv] + arg_exprs(args@),
                        entry,
                        exit,
                        replacement,
                        loops,
                    ),
                ),
            }
        },
        _ => Ok(with_edge(g, entry, exit)),
    }
}

/// The graph with the loan of a result, between the end of the call and what comes next.
pub open spec fn with_handed<'a>(
    g: GraphView<'a>,
    expr: &'a Expr,
    loan_id: LoanId,
    source: &'a Place,
    kind: Option<BorrowKind>,
    exit: usize,
) -> GraphView<'a> {
    with_action(
        with_node(g, Action::Nop),
        next(g),
        exit,
        Action::Borrow { loan_id, source, declared_kind: kind, span: expr.spec_span() },
    )
}

/// The graph after one step of building an expression.
pub open spec fn step_expr<'a>(
    g: GraphView<'a>,
    expr: &'a Expr,
    entry: usize,
    exit: usize,
    replacement: Option<&'a Place>,
    loops: LoopTargets,
) -> Result<GraphView<'a>, ErrorView> {
    match *expr {
        Expr::Ident(_, id, span, _) => Ok(
            match id {
                Some(id) => with_action(
                    g,
                    entry,
                    exit,
                    Action::Read(id, AccessKind::Read, span),
                ),
                None => with_edge(g, entry, exit),
            },
        ),
        Expr::Move { source, span, .. } => {
            if replacement is Some && !(relation_of(*replacement.unwrap(), *source) is Disjoint) {
                Err(
                    ErrorView {
                        msg: "move source 与 replacement target 无法证明互不重叠"@,
                        span,
                    },
                )
            } else {
                Ok(with_action(g, entry, exit, Action::Move(&*source, span)))
            }
        },
        Expr::ReadPlace { source, .. } => Ok(
            with_task(
                g,
                Task::PlaceEval {
                    place: &*source,
                    entry,
                    exit,
                    loops,
                    mode: PlaceEvalMode {
                        read_root: true,
                        exposes_alias: false,
                        access: AccessKind::Read,
                    },
                },
            ),
        ),
        Expr::Borrow { loan_id, source, kind, span, .. } => Ok(
            step_borrow(
                g,
                &*source,
                Action::Borrow { loan_id, source: &*source, declared_kind: kind, span },
                entry,
                exit,
                loops,
            ),
        ),
        Expr::Refer { loan_id, source, kind, span, .. } => Ok(
            step_borrow(
                g,
                &*source,
                Action::Borrow { loan_id, source: &*source, declared_kind: kind, span },
                entry,
                exit,
                loops,
            ),
        ),
        Expr::Str(parts, _, _) => Ok(
            with_sequence(g, hole_exprs(parts@), entry, exit, replacement, loops),
        ),
        Expr::Cast { expr: inner, .. } => Ok(
            with_task(g, expr_task(&*inner, entry, exit, replacement, loops)),
        ),
        Expr::Convert { expr: inner, .. } => Ok(
            with_task(g, expr_task(&*inner, entry, exit, replacement, loops)),
        ),
        Expr::Neg { expr: inner, .. } => Ok(
            with_task(g, expr_task(&*inner, entry, exit, replacement, loops)),
        ),
        Expr::Not { expr: inner, .. } => Ok(
            with_task(g, expr_task(&*inner, entry, exit, replacement, loops)),
        ),
        Expr::BitNot { expr: inner, .. } => Ok(
            with_task(g, expr_task(&*inner, entry, exit, replacement, loops)),
        ),
        Expr::Propagate { expr: inner, .. } => Ok(
            with_task(g, expr_task(&*inner, entry, exit, replacement, loops)),
        ),
        Expr::Field { recv, .. } => Ok(
            with_task(g, expr_task(&*recv, entry, exit, replacement, loops)),
        ),
        Expr::Binary { op, lhs, rhs, .. } => if op is And || op is Or {
            let gate = next(g);
            let g1 = with_task(
                with_node(g, Action::Nop),
                expr_task(&*lhs, entry, gate, replacement, loops),
            );
            Ok(
                with_task(
                    with_edge(g1, gate, exit),
                    expr_task(&*rhs, gate, exit, replacement, loops),
                ),
            )
        } else {
            Ok(with_sequence(g, seq![&*lhs, &*rhs], entry, exit, replacement, loops))
        },
        Expr::Ternary { cond, then_expr, else_expr, .. } => {
            let gate = next(g);
            let g1 = with_task(
                with_node(g, Action::Nop),
                expr_task(&*cond, entry, gate, None, loops),
            );
            let g2 = with_task(g1, expr_task(&*then_expr, gate, exit, replacement, loops));
            Ok(with_task(g2, expr_task(&*else_expr, gate, exit, replacement, loops)))
        },
        Expr::Call { .. } | Expr::MethodCall { .. } => match handed_loan(expr) {
            None => step_call(g, expr, entry, exit, replacement, loops),
            Some((loan_id, source, kind)) => step_call(
                with_handed(g, expr, loan_id, source, kind, exit),
                expr,
                entry,
                next(g),
                replacement,
                loops,
            ),
        },
        Expr::Index { recv, idx, .. } => Ok(
            with_sequence(g, seq![&*recv, &*idx], entry, exit, replacement, loops),
        ),
        Expr::ArrayLit { elems, .. } => Ok(
            with_sequence(g, elem_exprs(elems@), entry, exit, replacement, loops),
        ),
        Expr::FuncLit { captures, .. } => {
            let g1 = GraphView { nested_functions: g.nested_functions.push(expr), ..g };
            Ok(
                if captures@.len() == 0 {
                    with_edge(g1, entry, exit)
                } else {
                    with_captures(g1, captures@, 0, entry, exit, expr.spec_span())
                },
            )
        },
        Expr::Match { subject, arms, .. } => {
            let gate = next(g);
            let g1 = with_task(
                with_node(g, Action::Nop),
                expr_task(&*subject, entry, gate, None, loops),
            );
            Ok(with_arms(g1, arms@, gate, exit, loops))
        },
        Expr::Int(..) => Ok(with_edge(g, entry, exit)),
        Expr::Float(..) => Ok(with_edge(g, entry, exit)),
        Expr::Bool(..) => Ok(with_edge(g, entry, exit)),
        Expr::This(..) => Ok(with_edge(g, entry, exit)),
        Expr::Typeof { .. } => Ok(with_edge(g, entry, exit)),
    }
}

/// The graph with the branches of an `if` to be built, from the branch `i` on. Each condition
/// is entered from the condition before it; the last one leads on to the else body.
pub open spec fn with_branches<'a>(
    g: GraphView<'a>,
    branches: Seq<(Expr, Vec<Stmt>)>,
    else_body: Option<Vec<Stmt>>,
    i: int,
    condition_entry: usize,
    exit: usize,
    loops: LoopTargets,
) -> GraphView<'a>
    decreases branches.len() - i,
{
    if i >= branches.len() {
        match else_body {
            Some(body) => with_task(
                g,
                Task::Stmts { stmts: &body, entry: condition_entry, exit, loops },
            ),
            None => with_edge(g, condition_entry, exit),
        }
    } else {
        let condition_exit = next(g);
        let g1 = with_task(
            with_node(g, Action::Nop),
            expr_task(&branches[i].0, condition_entry, condition_exit, None, loops),
        );
        let g2 = with_task(
            g1,
            Task::Stmts { stmts: &branches[i].1, entry: condition_exit, exit, loops },
        );
        with_branches(g2, branches, else_body, i + 1, condition_exit, exit, loops)
    }
}

/// The graph after one step of building a statement.
pub open spec fn step_stmt<'a>(
    g: GraphView<'a>,
    stmt: &'a Stmt,
    entry: usize,
    exit: usize,
    loops: LoopTargets,
) -> Result<GraphView<'a>, ErrorView> {
    match *stmt {
        Stmt::Binding(binding) => {
            let after_value = next(g);
            let g1 = with_task(
                with_node(g, Action::Nop),
                expr_task(&binding.value, entry, after_value, None, loops),
            );
            match binding.relation {
                Some(StorageRelation::Borrowed) => match borrow_of(&binding.value) {
                    None => Err(
                        broken_at(
                            binding.span,
                            "borrowed binding initializer 不是 BorrowedValue"@,
                        ),
                    ),
                    Some((loan_id, _)) => Ok(
                        with_action(
                            GraphView { borrowed: g1.borrowed.insert(binding.binding_id), ..g1 },
                            after_value,
                            exit,
                            Action::BindLoan(binding.binding_id, loan_id),
                        ),
                    ),
                },
                Some(StorageRelation::Owning) => {
                    let g2 = GraphView { owning: g1.owning.insert(binding.binding_id), ..g1 };
                    Ok(
                        if owns_dynamically(binding.ty@) {
                            with_action(
                                GraphView {
                                    eligible: g2.eligible.insert(binding.binding_id),
                                    ..g2
                                },
                                after_value,
                                exit,
                                Action::Declare(binding.binding_id),
                            )
                        } else {
                            with_edge(g2, after_value, exit)
                        },
                    )
                },
                None => Ok(with_edge(g1, after_value, exit)),
            }
        },
        Stmt::Assign { target, value, .. } => {
            let after_value = next(g);
            let g1 = with_node(g, Action::Nop);
            let after_place = next(g1);
            let g2 = with_node(g1, Action::Nop);
            let g3 = with_task(g2, expr_task(&value, entry, after_value, Some(&target), loops));
            let g4 = with_task(
                g3,
                Task::PlaceEval {
                    place: &target,
                    entry: after_value,
                    exit: after_place,
                    loops,
                    mode: PlaceEvalMode {
                        read_root: false,
                        exposes_alias: true,
                        access: AccessKind::Write,
                    },
                },
            );
            match target {
                Place::Local { binding_id, .. } if g.borrowed.contains(binding_id) =>
                    match borrow_of(&value) {
                        None => Err(
                            ErrorView {
                                msg: "borrowed alias 重新绑定只能接收 BorrowedValue"@,
                                span: value.spec_span(),
                            },
                        ),
                        Some((loan_id, _)) => Ok(
                            with_action(
                                g4,
                                after_place,
                                exit,
                                Action::BindLoan(binding_id, loan_id),
                            ),
                        ),
                    },
                Place::Local { binding_id, .. } if value.spec_value_category() == Some(
                    ValueCategory::OwnedTemporary,
                ) && g.eligible.contains(binding_id) => Ok(
                    with_action(
                        g4,
                        after_place,
                        exit,
                        Action::Reinitialize(binding_id, target.spec_span()),
                    ),
                ),
                _ => {
                    let after_write = next(g4);
                    let g5 = with_node(g4, Action::Nop);
                    let g6 = if g.borrowed.contains(place_root(target)) {
                        with_edge(g5, after_place, after_write)
                    } else {
                        with_action(
                            g5,
                            after_place,
                            after_write,
                            Action::Write(&target, target.spec_span()),
                        )
                    };
                    Ok(with_edge(g6, after_write, exit))
                },
            }
        },
        Stmt::Expr { expr } => Ok(with_task(g, expr_task(&expr, entry, exit, None, loops))),
        Stmt::Return { value } => Ok(
            match value {
                Some(value) => with_task(
                    g,
                    expr_task(&value, entry, g.return_sink, None, loops),
                ),
                None => with_edge(g, entry, g.return_sink),
            },
        ),
        Stmt::If { branches, else_body } => Ok(
            with_branches(g, branches@, else_body, 0, entry, exit, loops),
        ),
        Stmt::While { cond, body } => {
            let header = next(g);
            let g1 = with_node(g, Action::Nop);
            let after_condition = next(g1);
            let g2 = with_node(g1, Action::Nop);
            let body_exit = next(g2);
            let g3 = with_edge(with_node(g2, Action::Nop), entry, header);
            let g4 = with_task(g3, expr_task(&cond, header, after_condition, None, loops));
            let g5 = with_task(
                with_edge(g4, after_condition, exit),
                Task::Stmts {
                    stmts: &body,
                    entry: after_condition,
                    exit: body_exit,
                    loops: LoopTargets {
                        break_target: Some(exit),
                        continue_target: Some(header),
                    },
                },
            );
            Ok(with_edge(g5, body_exit, header))
        },
        Stmt::For { iterable, body, .. } => {
            let header = next(g);
            let g1 = with_node(g, Action::Nop);
            let body_exit = next(g1);
            let g2 = with_task(
                with_node(g1, Action::Nop),
                expr_task(&iterable, entry, header, None, loops),
            );
            let g3 = with_task(
                with_edge(g2, header, exit),
                Task::Stmts {
                    stmts: &body,
                    entry: header,
                    exit: body_exit,
                    loops: LoopTargets {
                        break_target: Some(exit),
                        continue_target: Some(header),
                    },
                },
            );
            Ok(with_edge(g3, body_exit, header))
        },
        Stmt::Break => match loops.break_target {
            None => Err(broken_at(no_span(), "break 缺少 CFG target"@)),
            Some(target) => Ok(with_edge(g, entry, target)),
        },
        Stmt::Continue => match loops.continue_target {
            None => Err(broken_at(no_span(), "continue 缺少 CFG target"@)),
            Some(target) => Ok(with_edge(g, entry, target)),
        },
    }
}

/// The graph after one step on a piece that was taken off the list.
pub open spec fn step_task<'a>(g: GraphView<'a>, task: Task<'a>) -> Result<
    GraphView<'a>,
    ErrorView,
> {
    match task {
        Task::Expr { expr, entry, exit, replacement, loops } => step_expr(
            g,
            expr,
            entry,
            exit,
            replacement,
            loops,
        ),
        Task::Stmt { stmt, entry, exit, loops } => step_stmt(g, stmt, entry, exit, loops),
        Task::Stmts { stmts, entry, exit, loops } => Ok(
            with_stmts(g, stmts@, entry, exit, loops),
        ),
        Task::Body { body, entry, exit, loops } => Ok(
            with_task(
                g,
                match *body {
                    Body::Block(stmts) => Task::Stmts { stmts: &stmts, entry, exit, loops },
                    Body::Single(stmt) => Task::Stmt { stmt: &*stmt, entry, exit, loops },
                },
            ),
        ),
        Task::MatchArm { arm, entry, exit, loops } => Ok(
            with_task(
                g,
                match arm.body {
                    ArmBody::Block(stmts) => Task::Stmts { stmts: &stmts, entry, exit, loops },
                    ArmBody::Value(value) => expr_task(&*value, entry, exit, None, loops),
                    ArmBody::Ret(value) => expr_task(
                        &*value,
                        entry,
                        g.return_sink,
                        None,
                        loops,
                    ),
                },
            ),
        ),
        Task::PlaceEval { place, entry, exit, loops, mode } => Ok(
            step_place(g, place, entry, exit, loops, mode),
        ),
    }
}

/// The graph after one step on the piece on top of the list.
pub open spec fn step<'a>(g: GraphView<'a>) -> Result<GraphView<'a>, ErrorView> {
    step_task(GraphView { tasks: g.tasks.drop_last(), ..g }, g.tasks.last())
}

/// How much there is to build in an expression.
pub open spec fn expr_weight(expr: Expr) -> nat
    decreases expr,
{
    1 + match expr {
        Expr::Str(parts, _, _) => parts_weight(parts@),
        Expr::Cast { expr: inner, .. } => expr_weight(*inner),
        Expr::Convert { expr: inner, .. } => expr_weight(*inner),
        Expr::Neg { expr: inner, .. } => expr_weight(*inner),
        Expr::Not { expr: inner, .. } => expr_weight(*inner),
        Expr::BitNot { expr: inner, .. } => expr_weight(*inner),
        Expr::Propagate { expr: inner, .. } => expr_weight(*inner),
        Expr::Binary { lhs, rhs, .. } => expr_weight(*lhs) + expr_weight(*rhs),
        Expr::Ternary { cond, then_expr, else_expr, .. } => expr_weight(*cond) + expr_weight(
            *then_expr,
        ) + expr_weight(*else_expr),
        Expr::Call { callee, args, .. } => expr_weight(*callee) + args_weight(args@),
        Expr::MethodCall { recv, args, .. } => expr_weight(*recv) + args_weight(args@),
        Expr::Field { recv, .. } => expr_weight(*recv),
        Expr::Index { recv, idx, .. } => expr_weight(*recv) + expr_weight(*idx),
        Expr::ArrayLit { elems, .. } => elems_weight(elems@),
        Expr::FuncLit { body, .. } => body_weight(*body),
        Expr::Match { subject, arms, .. } => expr_weight(*subject) + arms_weight(arms@),
        Expr::ReadPlace { source, .. } => place_weight(*source),
        Expr::Borrow { source, .. } => place_weight(*source),
        Expr::Refer { source, .. } => place_weight(*source),
        Expr::Move { source, .. } => place_weight(*source),
        _ => 0,
    }
}

pub open spec fn place_weight(place: Place) -> nat
    decreases place,
{
    match place {
        Place::Local { .. } => 1,
        Place::Field { base, .. } => place_weight(*base),
        Place::Index { base, index, .. } => place_weight(*base) + expr_weight(*index),
    }
}

pub open spec fn parts_weight(parts: Seq<StrPart>) -> nat
    decreases parts,
{
    if parts.len() == 0 {
        0
    } else {
        parts_weight(parts.drop_last()) + match parts.last() {
            StrPart::Hole(hole) => expr_weight(*hole),
            StrPart::Lit(_) => 0,
        }
    }
}

pub open spec fn args_weight(args: Seq<CallArg>) -> nat
    decreases args,
{
    if args.len() == 0 {
        0
    } else {
        args_weight(args.drop_last()) + expr_weight(args.last().value)
    }
}

pub open spec fn elems_weight(elems: Seq<Expr>) -> nat
    decreases elems,
{
    if elems.len() == 0 {
        0
    } else {
        elems_weight(elems.drop_last()) + expr_weight(elems.last())
    }
}

pub open spec fn body_weight(body: Body) -> nat
    decreases body,
{
    match body {
        Body::Block(stmts) => 2 + stmts_weight(stmts@),
        Body::Single(stmt) => 1 + stmt_weight(*stmt),
    }
}

pub open spec fn arm_weight(arm: MatchArm) -> nat
    decreases arm,
{
    match arm.body {
        ArmBody::Block(stmts) => 2 + stmts_weight(stmts@),
        ArmBody::Value(value) => 1 + expr_weight(*value),
        ArmBody::Ret(value) => 1 + expr_weight(*value),
    }
}

pub open spec fn arms_weight(arms: Seq<MatchArm>) -> nat
    decreases arms,
{
    if arms.len() == 0 {
        0
    } else {
        arms_weight(arms.drop_last()) + arm_weight(arms.last())
    }
}

pub open spec fn stmts_weight(stmts: Seq<Stmt>) -> nat
    decreases stmts,
{
    if stmts.len() == 0 {
        0
    } else {
        stmts_weight(stmts.drop_last()) + stmt_weight(stmts.last())
    }
}

pub open spec fn branches_weight(branches: Seq<(Expr, Vec<Stmt>)>) -> nat
    decreases branches,
{
    if branches.len() == 0 {
        0
    } else {
        branches_weight(branches.drop_last()) + expr_weight(branches.last().0) + 1 + stmts_weight(
            branches.last().1@,
        )
    }
}

pub open spec fn stmt_weight(stmt: Stmt) -> nat
    decreases stmt,
{
    1 + match stmt {
        Stmt::Binding(binding) => expr_weight(binding.value),
        Stmt::Assign { target, value, .. } => expr_weight(value) + place_weight(target),
        Stmt::Expr { expr } => expr_weight(expr),
        Stmt::Return { value } => match value {
            Some(value) => expr_weight(value),
            None => 0,
        },
        Stmt::If { branches, else_body } => branches_weight(branches@) + match else_body {
            Some(body) => 1 + stmts_weight(body@),
            None => 0,
        },
        Stmt::While { cond, body } => expr_weight(cond) + 1 + stmts_weight(body@),
        Stmt::For { iterable, body, .. } => expr_weight(iterable) + 1 + stmts_weight(body@),
        Stmt::Break => 0,
        Stmt::Continue => 0,
    }
}

pub open spec fn task_weight<'a>(task: Task<'a>) -> nat {
    match task {
        Task::Expr { expr, .. } => expr_weight(*expr),
        Task::Stmt { stmt, .. } => stmt_weight(*stmt),
        Task::Stmts { stmts, .. } => 1 + stmts_weight(stmts@),
        Task::Body { body, .. } => body_weight(*body),
        Task::MatchArm { arm, .. } => arm_weight(*arm),
        Task::PlaceEval { place, .. } => place_weight(*place),
    }
}

pub open spec fn tasks_weight<'a>(tasks: Seq<Task<'a>>) -> nat
    decreases tasks.len(),
{
    if tasks.len() == 0 {
        0
    } else {
        tasks_weight(tasks.drop_last()) + task_weight(tasks.last())
    }
}

pub open spec fn exprs_weight<'a>(exprs: Seq<&'a Expr>) -> nat
    decreases exprs.len(),
{
    if exprs.len() == 0 {
        0
    } else {
        exprs_weight(exprs.drop_last()) + expr_weight(*exprs.last())
    }
}

proof fn lemma_tasks_add<'a>(a: Seq<Task<'a>>, b: Seq<Task<'a>>)
    ensures
        tasks_weight(a + b) == tasks_weight(a) + tasks_weight(b),
    decreases b.len(),
{
    if b.len() == 0 {
        assert(a + b =~= a);
    } else {
        assert((a + b).drop_last() =~= a + b.drop_last());
        lemma_tasks_add(a, b.drop_last());
    }
}

proof fn lemma_tasks_push<'a>(a: Seq<Task<'a>>, task: Task<'a>)
    ensures
        tasks_weight(a.push(task)) == tasks_weight(a) + task_weight(task),
{
    assert(a.push(task).drop_last() =~= a);
}

pub proof fn lemma_exprs_push<'a>(a: Seq<&'a Expr>, expr: &'a Expr)
    ensures
        exprs_weight(a.push(expr)) == exprs_weight(a) + expr_weight(*expr),
{
    assert(a.push(expr).drop_last() =~= a);
}

pub proof fn lemma_exprs_add<'a>(a: Seq<&'a Expr>, b: Seq<&'a Expr>)
    ensures
        exprs_weight(a + b) == exprs_weight(a) + exprs_weight(b),
    decreases b.len(),
{
    if b.len() == 0 {
        assert(a + b =~= a);
    } else {
        assert((a + b).drop_last() =~= a + b.drop_last());
        lemma_exprs_add(a, b.drop_last());
    }
}

proof fn lemma_exprs_first<'a>(exprs: Seq<&'a Expr>)
    requires
        exprs.len() > 0,
    ensures
        exprs_weight(exprs) == expr_weight(*exprs[0]) + exprs_weight(exprs.drop_first()),
{
    let one = seq![exprs[0]];
    lemma_exprs_add(one, exprs.drop_first());
    assert(one + exprs.drop_first() =~= exprs);
    assert(one.drop_last() =~= Seq::<&'a Expr>::empty());
    assert(exprs_weight(one) == exprs_weight(one.drop_last()) + expr_weight(*exprs[0]));
}

/// A list of pieces that builds these expressions, the first on top, weighs what they weigh.
proof fn lemma_expr_tasks_weight<'a>(tasks: Seq<Task<'a>>, exprs: Seq<&'a Expr>)
    requires
        tasks.len() == exprs.len(),
        forall|k: int|
            0 <= k < tasks.len() ==> task_weight(#[trigger] tasks[k]) == expr_weight(
                *exprs[exprs.len() - 1 - k],
            ),
    ensures
        tasks_weight(tasks) == exprs_weight(exprs),
    decreases tasks.len(),
{
    if tasks.len() > 0 {
        let rest = exprs.drop_first();
        lemma_exprs_first(exprs);
        assert forall|k: int| 0 <= k < tasks.drop_last().len() implies task_weight(
            #[trigger] tasks.drop_last()[k],
        ) == expr_weight(*rest[rest.len() - 1 - k]) by {
            assert(tasks.drop_last()[k] == tasks[k]);
        }
        lemma_expr_tasks_weight(tasks.drop_last(), rest);
        assert(task_weight(tasks.last()) == expr_weight(*exprs[0]));
    }
}

proof fn lemma_sequence_weight<'a>(
    g: GraphView<'a>,
    exprs: Seq<&'a Expr>,
    entry: usize,
    exit: usize,
    replacement: Option<&'a Place>,
    loops: LoopTargets,
)
    ensures
        tasks_weight(with_sequence(g, exprs, entry, exit, replacement, loops).tasks)
            == tasks_weight(g.tasks) + exprs_weight(exprs),
{
    if exprs.len() > 0 {
        let count = exprs.len();
        let tasks = Seq::new(
            count,
            |k: int|
                expr_task(
                    exprs[count - 1 - k],
                    boundary(g.nodes.len(), count, entry, exit, count - 1 - k),
                    boundary(g.nodes.len(), count, entry, exit, count - k),
                    replacement,
                    loops,
                ),
        );
        lemma_expr_tasks_weight(tasks, exprs);
        lemma_tasks_add(g.tasks, tasks);
    }
}

proof fn lemma_stmt_tasks_weight<'a>(tasks: Seq<Task<'a>>, stmts: Seq<Stmt>)
    requires
        tasks.len() == stmts.len(),
        forall|k: int|
            0 <= k < tasks.len() ==> task_weight(#[trigger] tasks[k]) == stmt_weight(
                stmts[stmts.len() - 1 - k],
            ),
    ensures
        tasks_weight(tasks) == stmts_weight(stmts),
    decreases tasks.len(),
{
    if tasks.len() > 0 {
        let one = seq![tasks[0]];
        let rest = tasks.drop_first();
        lemma_tasks_add(one, rest);
        assert(one + rest =~= tasks);
        assert(one.drop_last() =~= Seq::<Task<'a>>::empty());
        assert(tasks_weight(one) == tasks_weight(one.drop_last()) + task_weight(tasks[0]));
        assert forall|k: int| 0 <= k < rest.len() implies task_weight(#[trigger] rest[k])
            == stmt_weight(stmts.drop_last()[stmts.drop_last().len() - 1 - k]) by {
            assert(rest[k] == tasks[k + 1]);
        }
        lemma_stmt_tasks_weight(rest, stmts.drop_last());
    }
}

proof fn lemma_stmts_weight<'a>(
    g: GraphView<'a>,
    stmts: Seq<Stmt>,
    entry: usize,
    exit: usize,
    loops: LoopTargets,
)
    ensures
        tasks_weight(with_stmts(g, stmts, entry, exit, loops).tasks) == tasks_weight(g.tasks)
            + stmts_weight(stmts),
{
    if stmts.len() > 0 {
        let count = stmts.len();
        let tasks = Seq::new(
            count,
            |k: int|
                Task::Stmt {
                    stmt: &stmts[count - 1 - k],
                    entry: boundary(g.nodes.len(), count, entry, exit, count - 1 - k),
                    exit: boundary(g.nodes.len(), count, entry, exit, count - k),
                    loops,
                },
        );
        lemma_stmt_tasks_weight(tasks, stmts);
        lemma_tasks_add(g.tasks, tasks);
    }
}

proof fn lemma_place_indices_weight<'a>(place: &'a Place)
    ensures
        exprs_weight(place_indices(place)) + 1 == place_weight(*place),
    decreases place,
{
    match place {
        Place::Local { .. } => {},
        Place::Field { base, .. } => lemma_place_indices_weight(base),
        Place::Index { base, index, .. } => {
            lemma_place_indices_weight(base);
            lemma_exprs_push(place_indices(base), index);
        },
    }
}

proof fn lemma_holes_weight<'a>(parts: Seq<StrPart>)
    ensures
        exprs_weight(hole_exprs(parts)) == parts_weight(parts),
    decreases parts.len(),
{
    if parts.len() > 0 {
        lemma_holes_weight(parts.drop_last());
        match parts.last() {
            StrPart::Hole(hole) => lemma_exprs_push(hole_exprs(parts.drop_last()), &hole),
            StrPart::Lit(_) => {},
        }
    }
}

proof fn lemma_args_weight<'a>(args: Seq<CallArg>)
    ensures
        exprs_weight(arg_exprs(args)) == args_weight(args),
    decreases args.len(),
{
    if args.len() > 0 {
        lemma_args_weight(args.drop_last());
        assert(arg_exprs(args) =~= arg_exprs(args.drop_last()).push(&args.last().value));
        lemma_exprs_push(arg_exprs(args.drop_last()), &args.last().value);
    }
}

proof fn lemma_elems_weight<'a>(elems: Seq<Expr>)
    ensures
        exprs_weight(elem_exprs(elems)) == elems_weight(elems),
    decreases elems.len(),
{
    if elems.len() > 0 {
        lemma_elems_weight(elems.drop_last());
        assert(elem_exprs(elems) =~= elem_exprs(elems.drop_last()).push(&elems.last()));
        lemma_exprs_push(elem_exprs(elems.drop_last()), &elems.last());
    }
}

proof fn lemma_captures_weight<'a>(
    g: GraphView<'a>,
    captures: Seq<Capture>,
    i: int,
    current: usize,
    exit: usize,
    span: Span,
)
    ensures
        with_captures(g, captures, i, current, exit, span).tasks == g.tasks,
        with_captures(g, captures, i, current, exit, span).nested_functions == g.nested_functions,
    decreases captures.len() - i,
{
    if i < captures.len() && i + 1 != captures.len() {
        let action = Action::Read(captures[i].binding_id, AccessKind::Read, span);
        lemma_captures_weight(
            with_action(with_node(g, Action::Nop), current, next(g), action),
            captures,
            i + 1,
            next(g),
            exit,
            span,
        );
    }
}

proof fn lemma_arms_weight<'a>(
    g: GraphView<'a>,
    arms: Seq<MatchArm>,
    gate: usize,
    exit: usize,
    loops: LoopTargets,
)
    ensures
        tasks_weight(with_arms(g, arms, gate, exit, loops).tasks) == tasks_weight(g.tasks)
            + arms_weight(arms),
    decreases arms.len(),
{
    let tasks = Seq::new(
        arms.len(),
        |i: int| Task::MatchArm { arm: &arms[i], entry: gate, exit, loops },
    );
    if arms.len() == 0 {
        assert(g.tasks + tasks =~= g.tasks);
    } else {
        lemma_arms_weight(g, arms.drop_last(), gate, exit, loops);
        let short = with_arms(g, arms.drop_last(), gate, exit, loops).tasks;
        assert(g.tasks + tasks =~= short.push(
            Task::MatchArm { arm: &arms.last(), entry: gate, exit, loops },
        ));
        lemma_tasks_push(
            short,
            Task::MatchArm { arm: &arms.last(), entry: gate, exit, loops },
        );
    }
}

proof fn lemma_branches_weight<'a>(
    g: GraphView<'a>,
    branches: Seq<(Expr, Vec<Stmt>)>,
    else_body: Option<Vec<Stmt>>,
    i: int,
    condition_entry: usize,
    exit: usize,
    loops: LoopTargets,
)
    requires
        0 <= i <= branches.len(),
    ensures
        tasks_weight(
            with_branches(g, branches, else_body, i, condition_entry, exit, loops).tasks,
        ) + branches_weight(branches.subrange(0, i)) == tasks_weight(g.tasks) + branches_weight(
            branches,
        ) + match else_body {
            Some(body) => 1 + stmts_weight(body@),
            None => 0,
        },
        with_branches(g, branches, else_body, i, condition_entry, exit, loops).nested_functions
            == g.nested_functions,
    decreases branches.len() - i,
{
    if i >= branches.len() {
        assert(branches.subrange(0, i) =~= branches);
        match else_body {
            Some(body) => {
                lemma_tasks_push(
                    g.tasks,
                    Task::Stmts { stmts: &body, entry: condition_entry, exit, loops },
                );
            },
            None => {},
        }
    } else {
        let condition_exit = next(g);
        let cond_task = expr_task(&branches[i].0, condition_entry, condition_exit, None, loops);
        let body_task = Task::Stmts {
            stmts: &branches[i].1,
            entry: condition_exit,
            exit,
            loops,
        };
        let g1 = with_task(with_node(g, Action::Nop), cond_task);
        let g2 = with_task(g1, body_task);
        lemma_tasks_push(g.tasks, cond_task);
        lemma_tasks_push(g1.tasks, body_task);
        lemma_branches_weight(g2, branches, else_body, i + 1, condition_exit, exit, loops);
        assert(branches.subrange(0, i + 1).drop_last() =~= branches.subrange(0, i));
        assert(branches.subrange(0, i + 1).last() == branches[i]);
    }
}

/// Everything that a builder still has to look at, its own pieces and the functions it found.
pub open spec fn load<'a>(g: GraphView<'a>) -> nat {
    tasks_weight(g.tasks) + exprs_weight(g.nested_functions)
}

proof fn lemma_step_call_weight<'a>(
    g: GraphView<'a>,
    expr: &'a Expr,
    entry: usize,
    exit: usize,
    replacement: Option<&'a Place>,
    loops: LoopTargets,
)
    requires
        *expr is Call || *expr is MethodCall,
    ensures
        step_call(g, expr, entry, exit, replacement, loops) matches Ok(after) ==> {
            &&& tasks_weight(after.tasks) < tasks_weight(g.tasks) + expr_weight(*expr)
            &&& load(after) <= load(g) + expr_weight(*expr)
        },
{
    match expr {
        Expr::Call { callee, args, .. } => {
            lemma_args_weight(args@);
            lemma_sequence_weight(g, arg_exprs(args@), entry, exit, replacement, loops);
            let one = seq![&**callee];
            lemma_exprs_first(one);
            assert(one.drop_first() =~= Seq::<&'a Expr>::empty());
            lemma_exprs_add(one, arg_exprs(args@));
            lemma_sequence_weight(g, one + arg_exprs(args@), entry, exit, replacement, loops);
        },
        Expr::MethodCall { recv, args, .. } => {
            lemma_args_weight(args@);
            match **recv {
                Expr::Ident(_, Some(id), span, _) => {
                    let g1 = with_action(
                        with_node(g, Action::Nop),
                        entry,
                        next(g),
                        Action::Read(id, AccessKind::Write, span),
                    );
                    lemma_sequence_weight(
                        g1,
                        arg_exprs(args@),
                        next(g),
                        exit,
                        replacement,
                        loops,
                    );
                },
                _ => {},
            }
            let one = seq![&**recv];
            lemma_exprs_first(one);
            assert(one.drop_first() =~= Seq::<&'a Expr>::empty());
            lemma_exprs_add(one, arg_exprs(args@));
            lemma_sequence_weight(g, one + arg_exprs(args@), entry, exit, replacement, loops);
        },
        _ => {},
    }
}

proof fn lemma_step_expr_weight<'a>(
    g: GraphView<'a>,
    expr: &'a Expr,
    entry: usize,
    exit: usize,
    replacement: Option<&'a Place>,
    loops: LoopTargets,
)
    ensures
        step_expr(g, expr, entry, exit, replacement, loops) matches Ok(after) ==> {
            &&& tasks_weight(after.tasks) < tasks_weight(g.tasks) + expr_weight(*expr)
            &&& load(after) <= load(g) + expr_weight(*expr)
        },
{
    match expr {
        Expr::ReadPlace { source, .. } => {
            lemma_tasks_push(
                g.tasks,
                Task::PlaceEval {
                    place: source,
                    entry,
                    exit,
                    loops,
                    mode: PlaceEvalMode {
                        read_root: true,
                        exposes_alias: false,
                        access: AccessKind::Read,
                    },
                },
            );
        },
        Expr::Borrow { source, .. } => {
            lemma_place_indices_weight(source);
            lemma_sequence_weight(
                with_node(g, Action::Nop),
                place_indices(source),
                entry,
                next(g),
                None,
                loops,
            );
        },
        Expr::Refer { source, .. } => {
            lemma_place_indices_weight(source);
            lemma_sequence_weight(
                with_node(g, Action::Nop),
                place_indices(source),
                entry,
                next(g),
                None,
                loops,
            );
        },
        Expr::Str(parts, _, _) => {
            lemma_holes_weight(parts@);
            lemma_sequence_weight(g, hole_exprs(parts@), entry, exit, replacement, loops);
        },
        Expr::Cast { expr: inner, .. } => {
            lemma_tasks_push(g.tasks, expr_task(inner, entry, exit, replacement, loops));
        },
        Expr::Convert { expr: inner, .. } => {
            lemma_tasks_push(g.tasks, expr_task(inner, entry, exit, replacement, loops));
        },
        Expr::Neg { expr: inner, .. } => {
            lemma_tasks_push(g.tasks, expr_task(inner, entry, exit, replacement, loops));
        },
        Expr::Not { expr: inner, .. } => {
            lemma_tasks_push(g.tasks, expr_task(inner, entry, exit, replacement, loops));
        },
        Expr::BitNot { expr: inner, .. } => {
            lemma_tasks_push(g.tasks, expr_task(inner, entry, exit, replacement, loops));
        },
        Expr::Propagate { expr: inner, .. } => {
            lemma_tasks_push(g.tasks, expr_task(inner, entry, exit, replacement, loops));
        },
        Expr::Field { recv, .. } => {
            lemma_tasks_push(g.tasks, expr_task(recv, entry, exit, replacement, loops));
        },
        Expr::Binary { op, lhs, rhs, .. } => {
            let gate = next(g);
            let first = expr_task(lhs, entry, gate, replacement, loops);
            lemma_tasks_push(g.tasks, first);
            lemma_tasks_push(
                g.tasks.push(first),
                expr_task(rhs, gate, exit, replacement, loops),
            );
            let pair = seq![&**lhs, &**rhs];
            lemma_exprs_first(pair);
            lemma_exprs_first(pair.drop_first());
            assert(pair.drop_first().drop_first() =~= Seq::<&'a Expr>::empty());
            lemma_sequence_weight(g, pair, entry, exit, replacement, loops);
        },
        Expr::Ternary { cond, then_expr, else_expr, .. } => {
            let gate = next(g);
            let a = expr_task(cond, entry, gate, None, loops);
            let b = expr_task(then_expr, gate, exit, replacement, loops);
            let c = expr_task(else_expr, gate, exit, replacement, loops);
            lemma_tasks_push(g.tasks, a);
            lemma_tasks_push(g.tasks.push(a), b);
            lemma_tasks_push(g.tasks.push(a).push(b), c);
        },
        Expr::Call { .. } | Expr::MethodCall { .. } => match handed_loan(expr) {
            None => {
                lemma_step_call_weight(g, expr, entry, exit, replacement, loops);
            },
            Some((loan_id, source, kind)) => {
                lemma_step_call_weight(
                    with_handed(g, expr, loan_id, source, kind, exit),
                    expr,
                    entry,
                    next(g),
                    replacement,
                    loops,
                );
            },
        },
        Expr::Index { recv, idx, .. } => {
            let pair = seq![&**recv, &**idx];
            lemma_exprs_first(pair);
            lemma_exprs_first(pair.drop_first());
            assert(pair.drop_first().drop_first() =~= Seq::<&'a Expr>::empty());
            lemma_sequence_weight(g, pair, entry, exit, replacement, loops);
        },
        Expr::ArrayLit { elems, .. } => {
            lemma_elems_weight(elems@);
            lemma_sequence_weight(g, elem_exprs(elems@), entry, exit, replacement, loops);
        },
        Expr::FuncLit { captures, .. } => {
            let g1 = GraphView { nested_functions: g.nested_functions.push(expr), ..g };
            lemma_exprs_push(g.nested_functions, expr);
            lemma_captures_weight(g1, captures@, 0, entry, exit, expr.spec_span());
        },
        Expr::Match { subject, arms, .. } => {
            let first = expr_task(subject, entry, next(g), None, loops);
            lemma_tasks_push(g.tasks, first);
            lemma_arms_weight(
                with_task(with_node(g, Action::Nop), first),
                arms@,
                next(g),
                exit,
                loops,
            );
        },
        _ => {},
    }
}

proof fn lemma_step_stmt_weight<'a>(
    g: GraphView<'a>,
    stmt: &'a Stmt,
    entry: usize,
    exit: usize,
    loops: LoopTargets,
)
    ensures
        step_stmt(g, stmt, entry, exit, loops) matches Ok(after) ==> {
            &&& tasks_weight(after.tasks) < tasks_weight(g.tasks) + stmt_weight(*stmt)
            &&& load(after) <= load(g) + stmt_weight(*stmt)
        },
{
    match stmt {
        Stmt::Binding(binding) => {
            lemma_tasks_push(g.tasks, expr_task(&binding.value, entry, next(g), None, loops));
        },
        Stmt::Assign { target, value, .. } => {
            let after_value = next(g);
            let after_place = next(with_node(g, Action::Nop));
            let first = expr_task(value, entry, after_value, Some(target), loops);
            lemma_tasks_push(g.tasks, first);
            lemma_tasks_push(
                g.tasks.push(first),
                Task::PlaceEval {
                    place: target,
                    entry: after_value,
                    exit: after_place,
                    loops,
                    mode: PlaceEvalMode {
                        read_root: false,
                        exposes_alias: true,
                        access: AccessKind::Write,
                    },
                },
            );
        },
        Stmt::Expr { expr } => {
            lemma_tasks_push(g.tasks, expr_task(expr, entry, exit, None, loops));
        },
        Stmt::Return { value } => {
            match value {
                Some(value) => {
                    lemma_tasks_push(
                        g.tasks,
                        expr_task(value, entry, g.return_sink, None, loops),
                    );
                },
                None => {},
            }
        },
        Stmt::If { branches, else_body } => {
            lemma_branches_weight(g, branches@, *else_body, 0, entry, exit, loops);
            assert(branches@.subrange(0, 0) =~= Seq::<(Expr, Vec<Stmt>)>::empty());
        },
        Stmt::While { cond, body } => {
            let header = next(g);
            let g1 = with_node(g, Action::Nop);
            let after_condition = next(g1);
            let body_exit = next(with_node(g1, Action::Nop));
            let first = expr_task(cond, header, after_condition, None, loops);
            lemma_tasks_push(g.tasks, first);
            lemma_tasks_push(
                g.tasks.push(first),
                Task::Stmts {
                    stmts: body,
                    entry: after_condition,
                    exit: body_exit,
                    loops: LoopTargets {
                        break_target: Some(exit),
                        continue_target: Some(header),
                    },
                },
            );
        },
        Stmt::For { iterable, body, .. } => {
            let header = next(g);
            let body_exit = next(with_node(g, Action::Nop));
            let first = expr_task(iterable, entry, header, None, loops);
            lemma_tasks_push(g.tasks, first);
            lemma_tasks_push(
                g.tasks.push(first),
                Task::Stmts {
                    stmts: body,
                    entry: header,
                    exit: body_exit,
                    loops: LoopTargets {
                        break_target: Some(exit),
                        continue_target: Some(header),
                    },
                },
            );
        },
        Stmt::Break | Stmt::Continue => {},
    }
}

/// A step leaves less to build, and finds no more than it takes off the list.
pub proof fn lemma_step_weight<'a>(g: GraphView<'a>)
    requires
        g.tasks.len() > 0,
    ensures
        step(g) matches Ok(after) ==> {
            &&& tasks_weight(after.tasks) < tasks_weight(g.tasks)
            &&& load(after) <= load(g)
        },
{
    let g0 = GraphView { tasks: g.tasks.drop_last(), ..g };
    match g.tasks.last() {
        Task::Expr { expr, entry, exit, replacement, loops } => {
            lemma_step_expr_weight(g0, expr, entry, exit, replacement, loops);
        },
        Task::Stmt { stmt, entry, exit, loops } => {
            lemma_step_stmt_weight(g0, stmt, entry, exit, loops);
        },
        Task::Stmts { stmts, entry, exit, loops } => {
            lemma_stmts_weight(g0, stmts@, entry, exit, loops);
        },
        Task::Body { body, entry, exit, loops } => {
            match body {
                Body::Block(stmts) => {
                    lemma_tasks_push(g0.tasks, Task::Stmts { stmts, entry, exit, loops });
                },
                Body::Single(stmt) => {
                    lemma_tasks_push(g0.tasks, Task::Stmt { stmt, entry, exit, loops });
                },
            }
        },
        Task::MatchArm { arm, entry, exit, loops } => {
            match arm.body {
                ArmBody::Block(stmts) => {
                    lemma_tasks_push(g0.tasks, Task::Stmts { stmts: &stmts, entry, exit, loops });
                },
                ArmBody::Value(value) => {
                    lemma_tasks_push(g0.tasks, expr_task(&value, entry, exit, None, loops));
                },
                ArmBody::Ret(value) => {
                    lemma_tasks_push(
                        g0.tasks,
                        expr_task(&value, entry, g0.return_sink, None, loops),
                    );
                },
            }
        },
        Task::PlaceEval { place, entry, exit, loops, mode } => {
            lemma_place_indices_weight(place);
            let root = root_place(place);
            let after_root = next(g0);
            let g1 = with_node(g0, Action::Nop);
            let g2 = if mode.read_root || g0.borrowed.contains(place_root(*root)) {
                with_action(g1, entry, after_root, root_action(g0, place, root, mode))
            } else {
                with_edge(g1, entry, after_root)
            };
            lemma_sequence_weight(g2, place_indices(place), after_root, exit, None, loops);
        },
    }
}

/// The finished graph, or what stopped the building.
pub open spec fn built<'a>(g: GraphView<'a>) -> Result<GraphView<'a>, ErrorView>
    decreases tasks_weight(g.tasks),
{
    if g.tasks.len() == 0 {
        Ok(g)
    } else {
        proof {
            lemma_step_weight(g);
        }
        match step(g) {
            Err(error) => Err(error),
            Ok(after) => built(after),
        }
    }
}

pub open spec fn target_ok(target: Option<usize>, count: nat) -> bool {
    target matches Some(id) ==> id < count
}

pub open spec fn loops_ok(loops: LoopTargets, count: nat) -> bool {
    target_ok(loops.break_target, count) && target_ok(loops.continue_target, count)
}

/// A piece that stands between nodes of the graph.
pub open spec fn task_ok<'a>(task: Task<'a>, count: nat) -> bool {
    match task {
        Task::Expr { entry, exit, loops, .. } => entry < count && exit < count && loops_ok(
            loops,
            count,
        ),
        Task::Stmt { entry, exit, loops, .. } => entry < count && exit < count && loops_ok(
            loops,
            count,
        ),
        Task::Stmts { entry, exit, loops, .. } => entry < count && exit < count && loops_ok(
            loops,
            count,
        ),
        Task::Body { entry, exit, loops, .. } => entry < count && exit < count && loops_ok(
            loops,
            count,
        ),
        Task::MatchArm { entry, exit, loops, .. } => entry < count && exit < count && loops_ok(
            loops,
            count,
        ),
        Task::PlaceEval { entry, exit, loops, .. } => entry < count && exit < count && loops_ok(
            loops,
            count,
        ),
    }
}

/// Every edge of the graph leads to a node of the graph.
pub open spec fn edges_ok<'a>(nodes: Seq<NodeView<'a>>) -> bool {
    forall|n: int, k: int|
        #![trigger nodes[n].successors[k]]
        0 <= n < nodes.len() && 0 <= k < nodes[n].successors.len() ==> nodes[n].successors[k]
            < nodes.len()
}

/// Every number in the builder is the number of a node.
pub open spec fn graph_ok<'a>(g: GraphView<'a>) -> bool {
    &&& g.return_sink < g.nodes.len()
    &&& edges_ok(g.nodes)
    &&& forall|k: int| 0 <= k < g.tasks.len() ==> task_ok(#[trigger] g.tasks[k], g.nodes.len())
}

fn contains_index(list: &Vec<usize>, value: usize) -> (r: bool)
    ensures
        r == list@.contains(value),
{
    let mut i: usize = 0;
    while i < list.len()
        invariant
            i <= list.len(),
            forall|k: int| 0 <= k < i ==> list@[k] != value,
        decreases list.len() - i,
    {
        if list[i] == value {
            assert(list@[i as int] == value);
            return true;
        }
        i += 1;
    }
    false
}

impl<'a> GraphBuilder<'a> {
    /// A graph that holds nothing but the node where every return leads.
    pub fn new(globals: Option<&'a IdSet>) -> (r: GraphBuilder<'a>)
        ensures
            graph_ok(r@),
            r@ == empty_graph::<'a>(known_globals(globals)),
    {
        let mut graph = GraphBuilder {
            nodes: Vec::new(),
            tasks: Vec::new(),
            eligible: IdSet::new(),
            owning: IdSet::new(),
            borrowed: IdSet::new(),
            globals,
            nested_functions: Vec::new(),
            return_sink: 0,
        };
        graph.nodes.push(GraphNode { action: Action::Nop, successors: Vec::new() });
        assert(graph@.nodes =~= empty_graph::<'a>(known_globals(globals)).nodes);
        graph
    }

    /// Adds a node and returns its number.
    pub fn node(&mut self, action: Action<'a>) -> (r: usize)
        requires
            graph_ok(old(self)@),
        ensures
            graph_ok(final(self)@),
            final(self)@ == with_node(old(self)@, action),
            r == next(old(self)@),
            r == old(self)@.nodes.len(),
    {
        let id: usize = self.nodes.len();
        self.nodes.push(GraphNode { action, successors: Vec::new() });
        assert(self@.nodes =~= with_node(old(self)@, action).nodes);
        id
    }

    /// Adds an edge, unless it is there already.
    pub fn edge(&mut self, from: usize, to: usize)
        requires
            graph_ok(old(self)@),
            from < old(self)@.nodes.len(),
            to < old(self)@.nodes.len(),
        ensures
            graph_ok(final(self)@),
            final(self)@ == with_edge(old(self)@, from, to),
            final(self)@.nodes.len() == old(self)@.nodes.len(),
    {
        if !contains_index(&self.nodes[from].successors, to) {
            let ghost before = self@;
            self.nodes[from].successors.push(to);
            assert(self@.nodes =~= with_edge(before, from, to).nodes);
            assert forall|n: int, k: int|
                #![trigger self@.nodes[n].successors[k]]
                0 <= n < self@.nodes.len() && 0 <= k
                    < self@.nodes[n].successors.len() implies self@.nodes[n].successors[k]
                < self@.nodes.len() by {
                if n != from {
                    assert(self@.nodes[n] == before.nodes[n]);
                    assert(before.nodes[n].successors[k] < before.nodes.len());
                } else if k < before.nodes[n].successors.len() {
                    assert(before.nodes[n].successors[k] < before.nodes.len());
                }
            }
        }
    }

    /// Adds an action between two nodes.
    pub fn action_between(&mut self, entry: usize, exit: usize, action: Action<'a>)
        requires
            graph_ok(old(self)@),
            entry < old(self)@.nodes.len(),
            exit < old(self)@.nodes.len(),
        ensures
            graph_ok(final(self)@),
            final(self)@ == with_action(old(self)@, entry, exit, action),
            final(self)@.nodes.len() == old(self)@.nodes.len() + 1,
    {
        let node = self.node(action);
        self.edge(entry, node);
        self.edge(node, exit);
    }

    fn push_task(&mut self, task: Task<'a>)
        requires
            graph_ok(old(self)@),
            task_ok(task, old(self)@.nodes.len()),
        ensures
            graph_ok(final(self)@),
            final(self)@ == with_task(old(self)@, task),
            final(self)@.nodes.len() == old(self)@.nodes.len(),
    {
        self.tasks.push(task);
        assert(self@.nodes == old(self)@.nodes);
        assert forall|k: int| 0 <= k < self@.tasks.len() implies task_ok(
            #[trigger] self@.tasks[k],
            self@.nodes.len(),
        ) by {
            if k < old(self)@.tasks.len() {
                assert(self@.tasks[k] == old(self)@.tasks[k]);
            }
        }
    }

    fn push_expr(
        &mut self,
        expr: &'a Expr,
        entry: usize,
        exit: usize,
        replacement: Option<&'a Place>,
        loops: LoopTargets,
    )
        requires
            graph_ok(old(self)@),
            entry < old(self)@.nodes.len(),
            exit < old(self)@.nodes.len(),
            loops_ok(loops, old(self)@.nodes.len()),
        ensures
            graph_ok(final(self)@),
            final(self)@ == with_task(
                old(self)@,
                expr_task(expr, entry, exit, replacement, loops),
            ),
            final(self)@.nodes.len() == old(self)@.nodes.len(),
    {
        self.push_task(Task::Expr { expr, entry, exit, replacement, loops });
    }

    /// The boundaries between the pieces of a sequence, with nodes for those in the middle.
    fn boundaries(&mut self, count: usize, entry: usize, exit: usize) -> (r: Vec<usize>)
        requires
            graph_ok(old(self)@),
            count > 0,
            entry < old(self)@.nodes.len(),
            exit < old(self)@.nodes.len(),
        ensures
            graph_ok(final(self)@),
            final(self)@ == (GraphView {
                nodes: old(self)@.nodes + nops((count - 1) as nat),
                ..old(self)@
            }),
            r.len() == count + 1,
            forall|i: int|
                0 <= i <= count ==> #[trigger] r@[i] == boundary(
                    old(self)@.nodes.len(),
                    count as nat,
                    entry,
                    exit,
                    i,
                ),
            forall|i: int| 0 <= i <= count ==> #[trigger] r@[i] < final(self)@.nodes.len(),
    {
        let mut list: Vec<usize> = Vec::new();
        list.push(entry);
        let ghost base = self@;
        let mut i: usize = 1;
        assert(self@.nodes =~= base.nodes + nops(0));
        while i < count
            invariant
                1 <= i <= count,
                graph_ok(self@),
                base == old(self)@,
                entry < base.nodes.len(),
                exit < base.nodes.len(),
                self@ == (GraphView { nodes: base.nodes + nops((i - 1) as nat), ..base }),
                list.len() == i,
                forall|k: int|
                    0 <= k < i ==> #[trigger] list@[k] == boundary(
                        base.nodes.len(),
                        count as nat,
                        entry,
                        exit,
                        k,
                    ),
                forall|k: int| 0 <= k < i ==> #[trigger] list@[k] < self@.nodes.len(),
            decreases count - i,
        {
            let middle = self.node(Action::Nop);
            list.push(middle);
            i += 1;
            assert(self@.nodes =~= base.nodes + nops((i - 1) as nat));
        }
        list.push(exit);
        list
    }

    /// Puts expressions on the list, to be built one after the other.
    pub fn expression_sequence(
        &mut self,
        expressions: Vec<&'a Expr>,
        entry: usize,
        exit: usize,
        replacement: Option<&'a Place>,
        loops: LoopTargets,
    )
        requires
            graph_ok(old(self)@),
            entry < old(self)@.nodes.len(),
            exit < old(self)@.nodes.len(),
            loops_ok(loops, old(self)@.nodes.len()),
        ensures
            graph_ok(final(self)@),
            final(self)@ == with_sequence(
                old(self)@,
                expressions@,
                entry,
                exit,
                replacement,
                loops,
            ),
            final(self)@.nodes.len() >= old(self)@.nodes.len(),
    {
        if expressions.len() == 0 {
            self.edge(entry, exit);
            return;
        }
        let ghost goal = with_sequence(old(self)@, expressions@, entry, exit, replacement, loops);
        let count: usize = expressions.len();
        let list = self.boundaries(count, entry, exit);
        let ghost middle = self@;
        let ghost pushed = Seq::new(
            count as nat,
            |k: int|
                expr_task(
                    expressions@[count - 1 - k],
                    boundary(old(self)@.nodes.len(), count as nat, entry, exit, count - 1 - k),
                    boundary(old(self)@.nodes.len(), count as nat, entry, exit, count - k),
                    replacement,
                    loops,
                ),
        );
        let mut left: usize = count;
        assert(self@.tasks =~= middle.tasks + pushed.subrange(0, 0));
        while left > 0
            invariant
                left <= count,
                count == expressions@.len(),
                graph_ok(self@),
                list.len() == count + 1,
                old(self)@.nodes.len() <= middle.nodes.len(),
                loops_ok(loops, old(self)@.nodes.len()),
                forall|i: int|
                    0 <= i <= count ==> #[trigger] list@[i] == boundary(
                        old(self)@.nodes.len(),
                        count as nat,
                        entry,
                        exit,
                        i,
                    ),
                forall|i: int| 0 <= i <= count ==> #[trigger] list@[i] < middle.nodes.len(),
                pushed == Seq::new(
                    count as nat,
                    |k: int|
                        expr_task(
                            expressions@[count - 1 - k],
                            boundary(
                                old(self)@.nodes.len(),
                                count as nat,
                                entry,
                                exit,
                                count - 1 - k,
                            ),
                            boundary(old(self)@.nodes.len(), count as nat, entry, exit, count - k),
                            replacement,
                            loops,
                        ),
                ),
                self@ == (GraphView {
                    tasks: middle.tasks + pushed.subrange(0, count - left),
                    ..middle
                }),
            decreases left,
        {
            left -= 1;
            self.push_expr(expressions[left], list[left], list[left + 1], replacement, loops);
            assert(pushed[count - 1 - left] == expr_task(
                expressions@[left as int],
                list@[left as int],
                list@[left + 1],
                replacement,
                loops,
            ));
            assert(self@.tasks =~= middle.tasks + pushed.subrange(0, count - left));
        }
        assert(pushed.subrange(0, count as int) =~= pushed);
        assert(self@.tasks =~= goal.tasks);
    }

    /// Puts statements on the list, to be built one after the other.
    pub fn build_stmts(
        &mut self,
        stmts: &'a Vec<Stmt>,
        entry: usize,
        exit: usize,
        loops: LoopTargets,
    )
        requires
            graph_ok(old(self)@),
            entry < old(self)@.nodes.len(),
            exit < old(self)@.nodes.len(),
            loops_ok(loops, old(self)@.nodes.len()),
        ensures
            graph_ok(final(self)@),
            final(self)@ == with_stmts(old(self)@, stmts@, entry, exit, loops),
            final(self)@.nodes.len() >= old(self)@.nodes.len(),
    {
        if stmts.len() == 0 {
            self.edge(entry, exit);
            return;
        }
        let ghost goal = with_stmts(old(self)@, stmts@, entry, exit, loops);
        let count: usize = stmts.len();
        let list = self.boundaries(count, entry, exit);
        let ghost middle = self@;
        let ghost pushed = Seq::new(
            count as nat,
            |k: int|
                Task::Stmt {
                    stmt: &stmts@[count - 1 - k],
                    entry: boundary(
                        old(self)@.nodes.len(),
                        count as nat,
                        entry,
                        exit,
                        count - 1 - k,
                    ),
                    exit: boundary(old(self)@.nodes.len(), count as nat, entry, exit, count - k),
                    loops,
                },
        );
        let mut left: usize = count;
        assert(self@.tasks =~= middle.tasks + pushed.subrange(0, 0));
        while left > 0
            invariant
                left <= count,
                count == stmts@.len(),
                graph_ok(self@),
                list.len() == count + 1,
                old(self)@.nodes.len() <= middle.nodes.len(),
                loops_ok(loops, old(self)@.nodes.len()),
                forall|i: int|
                    0 <= i <= count ==> #[trigger] list@[i] == boundary(
                        old(self)@.nodes.len(),
                        count as nat,
                        entry,
                        exit,
                        i,
                    ),
                forall|i: int| 0 <= i <= count ==> #[trigger] list@[i] < middle.nodes.len(),
                pushed == Seq::new(
                    count as nat,
                    |k: int|
                        Task::Stmt {
                            stmt: &stmts@[count - 1 - k],
                            entry: boundary(
                                old(self)@.nodes.len(),
                                count as nat,
                                entry,
                                exit,
                                count - 1 - k,
                            ),
                            exit: boundary(
                                old(self)@.nodes.len(),
                                count as nat,
                                entry,
                                exit,
                                count - k,
                            ),
                            loops,
                        },
                ),
                self@ == (GraphView {
                    tasks: middle.tasks + pushed.subrange(0, count - left),
                    ..middle
                }),
            decreases left,
        {
            left -= 1;
            let task = Task::Stmt {
                stmt: &stmts[left],
                entry: list[left],
                exit: list[left + 1],
                loops,
            };
            self.push_task(task);
            assert(pushed[count - 1 - left] == task);
            assert(self@.tasks =~= middle.tasks + pushed.subrange(0, count - left));
        }
        assert(pushed.subrange(0, count as int) =~= pushed);
        assert(self@.tasks =~= goal.tasks);
    }

    /// Builds the evaluation of a place.
    pub fn build_place_eval(
        &mut self,
        place: &'a Place,
        entry: usize,
        exit: usize,
        loops: LoopTargets,
        mode: PlaceEvalMode,
    )
        requires
            graph_ok(old(self)@),
            entry < old(self)@.nodes.len(),
            exit < old(self)@.nodes.len(),
            loops_ok(loops, old(self)@.nodes.len()),
        ensures
            graph_ok(final(self)@),
            final(self)@ == step_place(old(self)@, place, entry, exit, loops, mode),
            final(self)@.nodes.len() >= old(self)@.nodes.len(),
    {
        let (root, indices) = place_parts(place);
        proof {
            lemma_root_place(place);
        }
        let id = root.root_binding_id();
        let span = root.span();
        let action = if mode.exposes_alias || self.borrowed.contains(id) {
            Action::Read(id, mode.access, span)
        } else {
            Action::CloneRead(place, span)
        };
        if let Place::Local { .. } = place {
            if mode.read_root {
                self.action_between(entry, exit, action);
            } else {
                self.edge(entry, exit);
            }
            return;
        }
        let uses_root = mode.read_root || self.borrowed.contains(id);
        let after_root = self.node(Action::Nop);
        if uses_root {
            self.action_between(entry, after_root, action);
        } else {
            self.edge(entry, after_root);
        }
        self.expression_sequence(indices, after_root, exit, None, loops);
    }

    /// Builds the creation of a loan.
    pub fn build_borrow(
        &mut self,
        source: &'a Place,
        action: Action<'a>,
        entry: usize,
        exit: usize,
        loops: LoopTargets,
    )
        requires
            graph_ok(old(self)@),
            entry < old(self)@.nodes.len(),
            exit < old(self)@.nodes.len(),
            loops_ok(loops, old(self)@.nodes.len()),
        ensures
            graph_ok(final(self)@),
            final(self)@ == step_borrow(old(self)@, source, action, entry, exit, loops),
            final(self)@.nodes.len() >= old(self)@.nodes.len(),
    {
        let (_, indices) = place_parts(source);
        if indices.len() == 0 {
            self.action_between(entry, exit, action);
            return;
        }
        let after_indices = self.node(Action::Nop);
        self.expression_sequence(indices, entry, after_indices, None, loops);
        self.action_between(after_indices, exit, action);
    }

    fn build_captures(
        &mut self,
        captures: &'a Vec<Capture>,
        entry: usize,
        exit: usize,
        span: Span,
    )
        requires
            graph_ok(old(self)@),
            entry < old(self)@.nodes.len(),
            exit < old(self)@.nodes.len(),
        ensures
            graph_ok(final(self)@),
            final(self)@ == with_captures(old(self)@, captures@, 0, entry, exit, span),
            final(self)@.nodes.len() >= old(self)@.nodes.len(),
    {
        let mut current: usize = entry;
        let mut i: usize = 0;
        while i < captures.len()
            invariant
                i <= captures.len(),
                self@.nodes.len() >= old(self)@.nodes.len(),
                graph_ok(self@),
                current < self@.nodes.len(),
                exit < self@.nodes.len(),
                with_captures(old(self)@, captures@, 0, entry, exit, span) == with_captures(
                    self@,
                    captures@,
                    i as int,
                    current,
                    exit,
                    span,
                ),
            decreases captures.len() - i,
        {
            let action = Action::Read(captures[i].binding_id, AccessKind::Read, span);
            if i + 1 == captures.len() {
                self.action_between(current, exit, action);
                return;
            }
            let following = self.node(Action::Nop);
            self.action_between(current, following, action);
            current = following;
            i += 1;
        }
    }

    fn build_arms(
        &mut self,
        arms: &'a Vec<MatchArm>,
        gate: usize,
        exit: usize,
        loops: LoopTargets,
    )
        requires
            graph_ok(old(self)@),
            gate < old(self)@.nodes.len(),
            exit < old(self)@.nodes.len(),
            loops_ok(loops, old(self)@.nodes.len()),
        ensures
            graph_ok(final(self)@),
            final(self)@ == with_arms(old(self)@, arms@, gate, exit, loops),
            final(self)@.nodes.len() == old(self)@.nodes.len(),
    {
        let ghost pushed = Seq::new(
            arms@.len(),
            |k: int| Task::MatchArm { arm: &arms@[k], entry: gate, exit, loops },
        );
        let mut i: usize = 0;
        assert(self@.tasks =~= old(self)@.tasks + pushed.subrange(0, 0));
        while i < arms.len()
            invariant
                i <= arms.len(),
                graph_ok(self@),
                gate < self@.nodes.len(),
                exit < self@.nodes.len(),
                loops_ok(loops, self@.nodes.len()),
                pushed == Seq::new(
                    arms@.len(),
                    |k: int| Task::MatchArm { arm: &arms@[k], entry: gate, exit, loops },
                ),
                self@ == (GraphView {
                    tasks: old(self)@.tasks + pushed.subrange(0, i as int),
                    ..old(self)@
                }),
            decreases arms.len() - i,
        {
            self.push_task(Task::MatchArm { arm: &arms[i], entry: gate, exit, loops });
            i += 1;
            assert(self@.tasks =~= old(self)@.tasks + pushed.subrange(0, i as int));
        }
        assert(pushed.subrange(0, i as int) =~= pushed);
    }

    /// Builds a call, up to the point where its result is there.
    fn build_call(
        &mut self,
        expr: &'a Expr,
        entry: usize,
        exit: usize,
        replacement: Option<&'a Place>,
        loops: LoopTargets,
    ) -> (r: AliasResult<()>)
        requires
            graph_ok(old(self)@),
            entry < old(self)@.nodes.len(),
            exit < old(self)@.nodes.len(),
            loops_ok(loops, old(self)@.nodes.len()),
        ensures
            match step_call(old(self)@, expr, entry, exit, replacement, loops) {
                Ok(after) => r is Ok && graph_ok(final(self)@) && final(self)@ == after,
                Err(error) => fault_of(r) == Some(error),
            },
            r is Ok ==> final(self)@.nodes.len() >= old(self)@.nodes.len(),
    {
        match expr {
            Expr::Call { callee, args, target, .. } => {
                if matches!(
                    target,
                    CallTarget::Builtin(BuiltinCall::Increase)
                        | CallTarget::Builtin(BuiltinCall::Decrease)
                ) {
                    if args.len() != 1 {
                        return Err(broken_invariant(expr.span(), "increase/decrease 元数漂移"));
                    }
                    if let Expr::Ident(_, Some(id), span, _) = &args[0].value {
                        self.action_between(
                            entry,
                            exit,
                            Action::Read(*id, AccessKind::Write, *span),
                        );
                        return Ok(());
                    }
                    return Err(
                        broken_invariant(
                            args[0].value.span(),
                            "increase/decrease target 未解析为 binding",
                        ),
                    );
                }
                let mut list: Vec<&'a Expr> = Vec::new();
                if matches!(target, CallTarget::FunctionValue) {
                    list.push(callee);
                    assert(list@ =~= seq![&**callee]);
                }
                push_arg_exprs(&mut list, args);
                assert(!(target is FunctionValue) ==> list@ =~= arg_exprs(args@));
                self.expression_sequence(list, entry, exit, replacement, loops);
            },
            Expr::MethodCall { recv, args, target, .. } => {
                if matches!(target, MethodTarget::ArrayPush | MethodTarget::ArrayPop) {
                    if let Expr::Ident(_, Some(id), span, _) = &**recv {
                        let after_receiver = self.node(Action::Nop);
                        self.action_between(
                            entry,
                            after_receiver,
                            Action::Read(*id, AccessKind::Write, *span),
                        );
                        let mut list: Vec<&'a Expr> = Vec::new();
                        push_arg_exprs(&mut list, args);
                        assert(list@ =~= arg_exprs(args@));
                        self.expression_sequence(list, after_receiver, exit, replacement, loops);
                        return Ok(());
                    }
                }
                let mut list: Vec<&'a Expr> = Vec::new();
                list.push(recv);
                assert(list@ =~= seq![&**recv]);
                push_arg_exprs(&mut list, args);
                self.expression_sequence(list, entry, exit, replacement, loops);
            },
            _ => self.edge(entry, exit),
        }
        Ok(())
    }

    /// Builds an expression, one level of it.
    pub fn build_expr(
        &mut self,
        expr: &'a Expr,
        entry: usize,
        exit: usize,
        replacement: Option<&'a Place>,
        loops: LoopTargets,
    ) -> (r: AliasResult<()>)
        requires
            graph_ok(old(self)@),
            entry < old(self)@.nodes.len(),
            exit < old(self)@.nodes.len(),
            loops_ok(loops, old(self)@.nodes.len()),
        ensures
            match step_expr(old(self)@, expr, entry, exit, replacement, loops) {
                Ok(after) => r is Ok && graph_ok(final(self)@) && final(self)@ == after,
                Err(error) => fault_of(r) == Some(error),
            },
            r is Ok ==> final(self)@.nodes.len() >= old(self)@.nodes.len(),
    {
        match expr {
            Expr::Ident(_, id, span, _) => match id {
                Some(id) => {
                    self.action_between(entry, exit, Action::Read(*id, AccessKind::Read, *span));
                },
                None => self.edge(entry, exit),
            },
            Expr::Move { source, span, .. } => {
                if let Some(target) = replacement {
                    if relation(target, source) != PlaceRelation::Disjoint {
                        return Err(
                            error(*span, "move source 与 replacement target 无法证明互不重叠"),
                        );
                    }
                }
                self.action_between(entry, exit, Action::Move(source, *span));
            },
            Expr::ReadPlace { source, .. } => {
                self.push_task(
                    Task::PlaceEval {
                        place: source,
                        entry,
                        exit,
                        loops,
                        mode: PlaceEvalMode {
                            read_root: true,
                            exposes_alias: false,
                            access: AccessKind::Read,
                        },
                    },
                );
            },
            Expr::Borrow { loan_id, source, kind, span, .. } => {
                let action = Action::Borrow {
                    loan_id: *loan_id,
                    source,
                    declared_kind: *kind,
                    span: *span,
                };
                self.build_borrow(source, action, entry, exit, loops);
            },
            Expr::Refer { loan_id, source, kind, span, .. } => {
                let action = Action::Borrow {
                    loan_id: *loan_id,
                    source,
                    declared_kind: *kind,
                    span: *span,
                };
                self.build_borrow(source, action, entry, exit, loops);
            },
            Expr::Str(parts, _, _) => {
                let holes = collect_holes(parts);
                self.expression_sequence(holes, entry, exit, replacement, loops);
            },
            Expr::Cast { expr: inner, .. } => {
                self.push_expr(inner, entry, exit, replacement, loops);
            },
            Expr::Convert { expr: inner, .. } => {
                self.push_expr(inner, entry, exit, replacement, loops);
            },
            Expr::Neg { expr: inner, .. } => {
                self.push_expr(inner, entry, exit, replacement, loops);
            },
            Expr::Not { expr: inner, .. } => {
                self.push_expr(inner, entry, exit, replacement, loops);
            },
            Expr::BitNot { expr: inner, .. } => {
                self.push_expr(inner, entry, exit, replacement, loops);
            },
            Expr::Propagate { expr: inner, .. } => {
                self.push_expr(inner, entry, exit, replacement, loops);
            },
            Expr::Field { recv, .. } => {
                self.push_expr(recv, entry, exit, replacement, loops);
            },
            Expr::Binary { op, lhs, rhs, .. } => {
                if matches!(op, BinOp::And | BinOp::Or) {
                    let gate = self.node(Action::Nop);
                    self.push_expr(lhs, entry, gate, replacement, loops);
                    self.edge(gate, exit);
                    self.push_expr(rhs, gate, exit, replacement, loops);
                } else {
                    let mut list: Vec<&'a Expr> = Vec::new();
                    list.push(lhs);
                    list.push(rhs);
                    assert(list@ =~= seq![&**lhs, &**rhs]);
                    self.expression_sequence(list, entry, exit, replacement, loops);
                }
            },
            Expr::Ternary { cond, then_expr, else_expr, .. } => {
                let gate = self.node(Action::Nop);
                self.push_expr(cond, entry, gate, None, loops);
                self.push_expr(then_expr, gate, exit, replacement, loops);
                self.push_expr(else_expr, gate, exit, replacement, loops);
            },
            Expr::Call { .. } | Expr::MethodCall { .. } => {
                let done = match call_loan(expr) {
                    None => exit,
                    Some((loan_id, source, kind)) => {
                        let done = self.node(Action::Nop);
                        let action = Action::Borrow {
                            loan_id,
                            source,
                            declared_kind: kind,
                            span: expr.span(),
                        };
                        self.action_between(done, exit, action);
                        done
                    },
                };
                return self.build_call(expr, entry, done, replacement, loops);
            },
            Expr::Index { recv, idx, .. } => {
                let mut list: Vec<&'a Expr> = Vec::new();
                list.push(recv);
                list.push(idx);
                assert(list@ =~= seq![&**recv, &**idx]);
                self.expression_sequence(list, entry, exit, replacement, loops);
            },
            Expr::ArrayLit { elems, .. } => {
                let list = collect_elems(elems);
                self.expression_sequence(list, entry, exit, replacement, loops);
            },
            Expr::FuncLit { captures, .. } => {
                self.nested_functions.push(expr);
                let ghost found = GraphView {
                    nested_functions: old(self)@.nested_functions.push(expr),
                    ..old(self)@
                };
                assert(self@.nodes == old(self)@.nodes);
                assert(self@ == found);
                assert(graph_ok(self@));
                if captures.len() == 0 {
                    self.edge(entry, exit);
                } else {
                    self.build_captures(captures, entry, exit, expr.span());
                }
            },
            Expr::Match { subject, arms, .. } => {
                let gate = self.node(Action::Nop);
                self.push_expr(subject, entry, gate, None, loops);
                self.build_arms(arms, gate, exit, loops);
            },
            Expr::Int(..)
            | Expr::Float(..)
            | Expr::Bool(..)
            | Expr::This(..)
            | Expr::Typeof { .. } => self.edge(entry, exit),
        }
        Ok(())
    }

    fn build_branches(
        &mut self,
        branches: &'a Vec<(Expr, Vec<Stmt>)>,
        else_body: &'a Option<Vec<Stmt>>,
        entry: usize,
        exit: usize,
        loops: LoopTargets,
    )
        requires
            graph_ok(old(self)@),
            entry < old(self)@.nodes.len(),
            exit < old(self)@.nodes.len(),
            loops_ok(loops, old(self)@.nodes.len()),
        ensures
            graph_ok(final(self)@),
            final(self)@ == with_branches(
                old(self)@,
                branches@,
                *else_body,
                0,
                entry,
                exit,
                loops,
            ),
            final(self)@.nodes.len() >= old(self)@.nodes.len(),
    {
        let mut condition_entry: usize = entry;
        let mut i: usize = 0;
        while i < branches.len()
            invariant
                i <= branches.len(),
                self@.nodes.len() >= old(self)@.nodes.len(),
                graph_ok(self@),
                condition_entry < self@.nodes.len(),
                exit < self@.nodes.len(),
                loops_ok(loops, self@.nodes.len()),
                with_branches(old(self)@, branches@, *else_body, 0, entry, exit, loops)
                    == with_branches(
                    self@,
                    branches@,
                    *else_body,
                    i as int,
                    condition_entry,
                    exit,
                    loops,
                ),
            decreases branches.len() - i,
        {
            let condition_exit = self.node(Action::Nop);
            self.push_expr(&branches[i].0, condition_entry, condition_exit, None, loops);
            self.push_task(
                Task::Stmts { stmts: &branches[i].1, entry: condition_exit, exit, loops },
            );
            condition_entry = condition_exit;
            i += 1;
        }
        match else_body {
            Some(body) => {
                self.push_task(Task::Stmts { stmts: body, entry: condition_entry, exit, loops });
            },
            None => self.edge(condition_entry, exit),
        }
    }

    /// Builds a statement, one level of it.
    pub fn build_stmt(
        &mut self,
        stmt: &'a Stmt,
        entry: usize,
        exit: usize,
        loops: LoopTargets,
    ) -> (r: AliasResult<()>)
        requires
            graph_ok(old(self)@),
            entry < old(self)@.nodes.len(),
            exit < old(self)@.nodes.len(),
            loops_ok(loops, old(self)@.nodes.len()),
        ensures
            match step_stmt(old(self)@, stmt, entry, exit, loops) {
                Ok(after) => r is Ok && graph_ok(final(self)@) && final(self)@ == after,
                Err(error) => fault_of(r) == Some(error),
            },
            r is Ok ==> final(self)@.nodes.len() >= old(self)@.nodes.len(),
    {
        match stmt {
            Stmt::Binding(binding) => {
                let after_value = self.node(Action::Nop);
                self.push_expr(&binding.value, entry, after_value, None, loops);
                match binding.relation {
                    Some(StorageRelation::Borrowed) => {
                        match resolved_borrow(&binding.value) {
                            None => {
                                return Err(
                                    broken_invariant(
                                        binding.span,
                                        "borrowed binding initializer 不是 BorrowedValue",
                                    ),
                                );
                            },
                            Some((loan_id, _)) => {
                                let _ = self.borrowed.insert(binding.binding_id);
                                assert(graph_ok(self@));
                                self.action_between(
                                    after_value,
                                    exit,
                                    Action::BindLoan(binding.binding_id, loan_id),
                                );
                            },
                        }
                    },
                    Some(StorageRelation::Owning) => {
                        let _ = self.owning.insert(binding.binding_id);
                        if type_carries_dynamic_owner(&binding.ty) {
                            let _ = self.eligible.insert(binding.binding_id);
                            assert(graph_ok(self@));
                            self.action_between(
                                after_value,
                                exit,
                                Action::Declare(binding.binding_id),
                            );
                        } else {
                            assert(graph_ok(self@));
                            self.edge(after_value, exit);
                        }
                    },
                    None => self.edge(after_value, exit),
                }
            },
            Stmt::Assign { target, value, .. } => {
                let after_value = self.node(Action::Nop);
                let after_place = self.node(Action::Nop);
                self.push_expr(value, entry, after_value, Some(target), loops);
                self.push_task(
                    Task::PlaceEval {
                        place: target,
                        entry: after_value,
                        exit: after_place,
                        loops,
                        mode: PlaceEvalMode {
                            read_root: false,
                            exposes_alias: true,
                            access: AccessKind::Write,
                        },
                    },
                );
                if let Place::Local { binding_id, .. } = target {
                    if self.borrowed.contains(*binding_id) {
                        match resolved_borrow(value) {
                            None => {
                                return Err(
                                    error(
                                        value.span(),
                                        "borrowed alias 重新绑定只能接收 BorrowedValue",
                                    ),
                                );
                            },
                            Some((loan_id, _)) => {
                                self.action_between(
                                    after_place,
                                    exit,
                                    Action::BindLoan(*binding_id, loan_id),
                                );
                                return Ok(());
                            },
                        }
                    }
                    if matches!(value.value_category(), Some(ValueCategory::OwnedTemporary))
                        && self.eligible.contains(*binding_id) {
                        self.action_between(
                            after_place,
                            exit,
                            Action::Reinitialize(*binding_id, target.span()),
                        );
                        return Ok(());
                    }
                }
                let through_alias = self.borrowed.contains(target.root_binding_id());
                let after_write = self.node(Action::Nop);
                if through_alias {
                    self.edge(after_place, after_write);
                } else {
                    self.action_between(
                        after_place,
                        after_write,
                        Action::Write(target, target.span()),
                    );
                }
                self.edge(after_write, exit);
            },
            Stmt::Expr { expr } => {
                self.push_expr(expr, entry, exit, None, loops);
            },
            Stmt::Return { value } => {
                let sink = self.return_sink;
                match value {
                    Some(value) => {
                        self.push_expr(value, entry, sink, None, loops);
                    },
                    None => self.edge(entry, sink),
                }
            },
            Stmt::If { branches, else_body } => {
                self.build_branches(branches, else_body, entry, exit, loops);
            },
            Stmt::While { cond, body } => {
                let header = self.node(Action::Nop);
                let after_condition = self.node(Action::Nop);
                let body_exit = self.node(Action::Nop);
                self.edge(entry, header);
                self.push_expr(cond, header, after_condition, None, loops);
                self.edge(after_condition, exit);
                self.push_task(
                    Task::Stmts {
                        stmts: body,
                        entry: after_condition,
                        exit: body_exit,
                        loops: LoopTargets {
                            break_target: Some(exit),
                            continue_target: Some(header),
                        },
                    },
                );
                self.edge(body_exit, header);
            },
            Stmt::For { iterable, body, .. } => {
                let header = self.node(Action::Nop);
                let body_exit = self.node(Action::Nop);
                self.push_expr(iterable, entry, header, None, loops);
                self.edge(header, exit);
                self.push_task(
                    Task::Stmts {
                        stmts: body,
                        entry: header,
                        exit: body_exit,
                        loops: LoopTargets {
                            break_target: Some(exit),
                            continue_target: Some(header),
                        },
                    },
                );
                self.edge(body_exit, header);
            },
            Stmt::Break => match loops.break_target {
                None => {
                    return Err(
                        broken_invariant(Span { start: 0, end: 0 }, "break 缺少 CFG target"),
                    );
                },
                Some(target) => self.edge(entry, target),
            },
            Stmt::Continue => match loops.continue_target {
                None => {
                    return Err(
                        broken_invariant(Span { start: 0, end: 0 }, "continue 缺少 CFG target"),
                    );
                },
                Some(target) => self.edge(entry, target),
            },
        }
        Ok(())
    }

    fn build_task(&mut self, task: Task<'a>) -> (r: AliasResult<()>)
        requires
            graph_ok(old(self)@),
            task_ok(task, old(self)@.nodes.len()),
        ensures
            match step_task(old(self)@, task) {
                Ok(after) => r is Ok && graph_ok(final(self)@) && final(self)@ == after,
                Err(error) => fault_of(r) == Some(error),
            },
            r is Ok ==> final(self)@.nodes.len() >= old(self)@.nodes.len(),
    {
        match task {
            Task::Expr { expr, entry, exit, replacement, loops } => self.build_expr(
                expr,
                entry,
                exit,
                replacement,
                loops,
            ),
            Task::Stmt { stmt, entry, exit, loops } => self.build_stmt(stmt, entry, exit, loops),
            Task::Stmts { stmts, entry, exit, loops } => {
                self.build_stmts(stmts, entry, exit, loops);
                Ok(())
            },
            Task::Body { body, entry, exit, loops } => {
                match body {
                    Body::Block(stmts) => {
                        self.push_task(Task::Stmts { stmts, entry, exit, loops });
                    },
                    Body::Single(stmt) => {
                        self.push_task(Task::Stmt { stmt, entry, exit, loops });
                    },
                }
                Ok(())
            },
            Task::MatchArm { arm, entry, exit, loops } => {
                let sink = self.return_sink;
                match &arm.body {
                    ArmBody::Block(stmts) => {
                        self.push_task(Task::Stmts { stmts, entry, exit, loops });
                    },
                    ArmBody::Value(value) => self.push_expr(value, entry, exit, None, loops),
                    ArmBody::Ret(value) => self.push_expr(value, entry, sink, None, loops),
                }
                Ok(())
            },
            Task::PlaceEval { place, entry, exit, loops, mode } => {
                self.build_place_eval(place, entry, exit, loops, mode);
                Ok(())
            },
        }
    }

    /// Builds everything on the list, and what comes up on the way.
    pub fn build(&mut self, task: Task<'a>) -> (r: AliasResult<()>)
        requires
            graph_ok(old(self)@),
            task_ok(task, old(self)@.nodes.len()),
        ensures
            match built(with_task(old(self)@, task)) {
                Ok(after) => r is Ok && graph_ok(final(self)@) && final(self)@ == after,
                Err(error) => fault_of(r) == Some(error),
            },
            r is Ok ==> final(self)@.nodes.len() >= old(self)@.nodes.len(),
    {
        let ghost goal = built(with_task(old(self)@, task));
        self.push_task(task);
        loop
            invariant_except_break
                graph_ok(self@),
                goal == built(self@),
            invariant
                self@.nodes.len() >= old(self)@.nodes.len(),
                goal == built(with_task(old(self)@, task)),
            ensures
                graph_ok(self@),
                goal == Ok::<GraphView<'a>, ErrorView>(self@),
            decreases tasks_weight(self@.tasks),
        {
            let ghost before = self@;
            match self.tasks.pop() {
                None => {
                    assert(self@ == before);
                    break;
                },
                Some(task) => {
                    proof {
                        lemma_step_weight(before);
                        assert(before.tasks.drop_last() =~= self@.tasks);
                        assert(self@ == (GraphView { tasks: before.tasks.drop_last(), ..before }));
                        assert(task_ok(before.tasks[before.tasks.len() - 1], before.nodes.len()));
                        assert forall|k: int| 0 <= k < self@.tasks.len() implies task_ok(
                            #[trigger] self@.tasks[k],
                            self@.nodes.len(),
                        ) by {
                            assert(self@.tasks[k] == before.tasks[k]);
                        }
                    }
                    match self.build_task(task) {
                        Ok(_) => {},
                        Err(error) => {
                            return Err(error);
                        },
                    }
                },
            }
        }
        Ok(())
    }
}

fn collect_holes<'a>(parts: &'a Vec<StrPart>) -> (r: Vec<&'a Expr>)
    ensures
        r@ == hole_exprs(parts@),
{
    let mut list: Vec<&'a Expr> = Vec::new();
    let mut i: usize = 0;
    assert(parts@.subrange(0, 0) =~= Seq::<StrPart>::empty());
    while i < parts.len()
        invariant
            i <= parts.len(),
            list@ == hole_exprs(parts@.subrange(0, i as int)),
        decreases parts.len() - i,
    {
        assert(parts@.subrange(0, i + 1).drop_last() =~= parts@.subrange(0, i as int));
        assert(parts@.subrange(0, i + 1).last() == parts@[i as int]);
        match &parts[i] {
            StrPart::Hole(hole) => list.push(hole),
            StrPart::Lit(_) => {},
        }
        i += 1;
    }
    assert(parts@.subrange(0, i as int) =~= parts@);
    list
}

fn collect_elems<'a>(elems: &'a Vec<Expr>) -> (r: Vec<&'a Expr>)
    ensures
        r@ == elem_exprs(elems@),
{
    let mut list: Vec<&'a Expr> = Vec::new();
    let mut i: usize = 0;
    while i < elems.len()
        invariant
            i <= elems.len(),
            list@ =~= elem_exprs(elems@).subrange(0, i as int),
        decreases elems.len() - i,
    {
        list.push(&elems[i]);
        i += 1;
    }
    assert(list@ =~= elem_exprs(elems@));
    list
}

fn push_arg_exprs<'a>(list: &mut Vec<&'a Expr>, args: &'a Vec<CallArg>)
    ensures
        final(list)@ == old(list)@ + arg_exprs(args@),
{
    let mut i: usize = 0;
    while i < args.len()
        invariant
            i <= args.len(),
            list@ =~= old(list)@ + arg_exprs(args@).subrange(0, i as int),
        decreases args.len() - i,
    {
        list.push(&args[i].value);
        i += 1;
    }
    assert(list@ =~= old(list)@ + arg_exprs(args@));
}

pub proof fn lemma_root_place<'a>(place: &'a Place)
    ensures
        place_root(*root_place(place)) == place_root(*place),
        *place is Local ==> root_place(place) == place,
    decreases place,
{
    match place {
        Place::Local { .. } => {},
        Place::Field { base, .. } => lemma_root_place(base),
        Place::Index { base, .. } => lemma_root_place(base),
    }
}

/// The graph that a builder starts with.
pub open spec fn empty_graph<'a>(globals: Set<BindingId>) -> GraphView<'a> {
    GraphView {
        nodes: seq![NodeView { action: Action::Nop, successors: Seq::empty() }],
        tasks: Seq::empty(),
        eligible: Set::empty(),
        owning: Set::empty(),
        borrowed: Set::empty(),
        globals,
        nested_functions: Seq::empty(),
        return_sink: 0,
    }
}

} // verus!
