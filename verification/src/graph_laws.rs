//! What the graph of a piece of a program contains.
//!
//! Every expression and every statement lies between two nodes. Between them the graph holds what
//! the construct does, in the order in which it does it, and every way through it.

use crate::flow_graph::{
    AccessKind, Action, GraphView, LoopTargets, PlaceEvalMode, Task, arg_exprs, borrow_of, boundary,
    built, elem_exprs, expr_task, handed_loan, hole_exprs, is_incdec, lemma_root_place,
    lemma_step_weight, next, nops, place_indices, root_action, root_place, step, step_borrow,
    step_call, step_expr, step_place, step_stmt, step_task, tasks_weight, with_action,
    with_branches, with_captures, with_edge, with_node, with_sequence, with_stmts, with_task,
};
use crate::model::{
    ArmBody, Body, BorrowKind, BuiltinCall, CallArg, CallResult, CallTarget, Capture, Expr,
    MatchArm, Place, ResolvedConversion, Stmt, StorageRelation, StrPart, ValueCategory, place_root,
};
use crate::place_relation::relation_of;
use crate::return_laws::owns_storage;
use crate::types::{ErrorView, LoanId, Span};
use vstd::prelude::*;

verus! {

/// An edge leads from one node to another.
pub open spec fn leads<'a>(g: GraphView<'a>, from: usize, to: usize) -> bool {
    from < g.nodes.len() && g.nodes[from as int].successors.contains(to)
}

/// Between two nodes something is done.
pub open spec fn done_between<'a>(
    g: GraphView<'a>,
    from: usize,
    action: Action<'a>,
    to: usize,
) -> bool {
    exists|n: usize| #[trigger]
        leads(g, from, n) && leads(g, n, to) && g.nodes[n as int].action == action
}

/// Expressions that lie one after the other between two nodes.
pub open spec fn strung<'a>(
    g: GraphView<'a>,
    work: Set<Task<'a>>,
    exprs: Seq<&'a Expr>,
    entry: usize,
    exit: usize,
    replacement: Option<&'a Place>,
    loops: LoopTargets,
) -> bool {
    if exprs.len() == 0 {
        leads(g, entry, exit)
    } else {
        exists|cuts: Seq<usize>|
            cuts.len() == exprs.len() + 1 && cuts[0] == entry && cuts[exprs.len() as int] == exit
                && #[trigger] strung_at(work, exprs, cuts, replacement, loops)
    }
}

pub open spec fn strung_at<'a>(
    work: Set<Task<'a>>,
    exprs: Seq<&'a Expr>,
    cuts: Seq<usize>,
    replacement: Option<&'a Place>,
    loops: LoopTargets,
) -> bool {
    forall|i: int|
        0 <= i < exprs.len() ==> work.contains(
            Task::Expr {
                expr: #[trigger] exprs[i],
                entry: cuts[i],
                exit: cuts[i + 1],
                replacement,
                loops,
            },
        )
}

/// Statements that lie one after the other between two nodes.
pub open spec fn lined_up<'a>(
    g: GraphView<'a>,
    work: Set<Task<'a>>,
    stmts: Seq<Stmt>,
    entry: usize,
    exit: usize,
    loops: LoopTargets,
) -> bool {
    if stmts.len() == 0 {
        leads(g, entry, exit)
    } else {
        exists|cuts: Seq<usize>|
            cuts.len() == stmts.len() + 1 && cuts[0] == entry && cuts[stmts.len() as int] == exit
                && #[trigger] lined_up_at(work, stmts, cuts, loops)
    }
}

pub open spec fn lined_up_at<'a>(
    work: Set<Task<'a>>,
    stmts: Seq<Stmt>,
    cuts: Seq<usize>,
    loops: LoopTargets,
) -> bool {
    forall|i: int|
        0 <= i < stmts.len() ==> work.contains(
            Task::Stmt {
                stmt: &#[trigger] stmts[i],
                entry: cuts[i],
                exit: cuts[i + 1],
                loops,
            },
        )
}

/// The values of some arguments.
pub open spec fn values_of<'a>(args: Seq<CallArg>) -> Seq<&'a Expr> {
    Seq::new(args.len(), |i: int| &args[i].value)
}

/// The index expressions of a place, from its variable outwards.
pub open spec fn indices_of<'a>(place: &'a Place) -> Seq<&'a Expr>
    decreases place,
{
    match *place {
        Place::Local { .. } => Seq::empty(),
        Place::Field { base, .. } => indices_of(&*base),
        Place::Index { base, index, .. } => indices_of(&*base) + seq![&*index],
    }
}

/// The expressions in the holes of a text.
pub open spec fn holes_of<'a>(parts: Seq<StrPart>) -> Seq<&'a Expr>
    decreases parts.len(),
{
    if parts.len() == 0 {
        Seq::empty()
    } else {
        holes_of(parts.drop_last()) + match parts.last() {
            StrPart::Hole(hole) => seq![&*hole],
            StrPart::Lit(_) => Seq::empty(),
        }
    }
}

/// The loan under which a call hands back an alias, and of which place.
pub open spec fn lent_by_call<'a>(expr: &'a Expr) -> Option<
    (LoanId, &'a Place, Option<BorrowKind>),
> {
    match *expr {
        Expr::Call { result: Some(handed), .. } => match *handed {
            CallResult::Borrowed { loan_id, source, kind, .. } => Some((loan_id, &source, kind)),
            _ => None,
        },
        Expr::MethodCall { result: Some(handed), .. } => match *handed {
            CallResult::Borrowed { loan_id, source, kind, .. } => Some((loan_id, &source, kind)),
            _ => None,
        },
        _ => None,
    }
}

/// The loan of the alias that an expression gives.
pub open spec fn loan_of<'a>(expr: &'a Expr) -> Option<LoanId>
    decreases expr,
{
    match *expr {
        Expr::Borrow { loan_id, .. } => Some(loan_id),
        Expr::Refer { loan_id, .. } => Some(loan_id),
        Expr::Convert { expr: inner, mode: ResolvedConversion::Identity, .. } => loan_of(&*inner),
        _ => match lent_by_call(expr) {
            Some((loan, _, _)) => Some(loan),
            None => None,
        },
    }
}

/// A call: what it is called on or with is evaluated in order. To add to or take from an array,
/// or to step a variable, is to write it.
pub open spec fn wired_call<'a>(
    g: GraphView<'a>,
    work: Set<Task<'a>>,
    expr: &'a Expr,
    entry: usize,
    exit: usize,
    replacement: Option<&'a Place>,
    loops: LoopTargets,
) -> bool {
    match *expr {
        Expr::Call { callee, args, target, .. } => match target {
            CallTarget::Builtin(BuiltinCall::Increase) => wired_step(g, args@, entry, exit),
            CallTarget::Builtin(BuiltinCall::Decrease) => wired_step(g, args@, entry, exit),
            CallTarget::FunctionValue => strung(
                g,
                work,
                seq![&*callee] + values_of(args@),
                entry,
                exit,
                replacement,
                loops,
            ),
            _ => strung(g, work, values_of(args@), entry, exit, replacement, loops),
        },
        Expr::MethodCall { recv, args, target, .. } => match *recv {
            Expr::Ident(_, Some(id), span, _) => if target is ArrayPush || target is ArrayPop {
                exists|mid: usize| #[trigger]
                    done_between(g, entry, Action::Read(id, AccessKind::Write, span), mid)
                        && strung(g, work, values_of(args@), mid, exit, replacement, loops)
            } else {
                strung(g, work, seq![&*recv] + values_of(args@), entry, exit, replacement, loops)
            },
            _ => strung(
                g,
                work,
                seq![&*recv] + values_of(args@),
                entry,
                exit,
                replacement,
                loops,
            ),
        },
        _ => true,
    }
}

pub open spec fn wired_step<'a>(
    g: GraphView<'a>,
    args: Seq<CallArg>,
    entry: usize,
    exit: usize,
) -> bool {
    args.len() == 1 && match args[0].value {
        Expr::Ident(_, Some(id), span, _) => done_between(
            g,
            entry,
            Action::Read(id, AccessKind::Write, span),
            exit,
        ),
        _ => false,
    }
}

/// A new loan of a place, after its indices.
pub open spec fn wired_loan<'a>(
    g: GraphView<'a>,
    work: Set<Task<'a>>,
    source: &'a Place,
    action: Action<'a>,
    entry: usize,
    exit: usize,
    loops: LoopTargets,
) -> bool {
    if indices_of(source).len() == 0 {
        done_between(g, entry, action, exit)
    } else {
        exists|mid: usize|
            strung(g, work, indices_of(source), entry, mid, None, loops) && #[trigger] done_between(
                g,
                mid,
                action,
                exit,
            )
    }
}

/// The captured variables of a function are read where the function is made.
pub open spec fn wired_captures<'a>(
    g: GraphView<'a>,
    captures: Seq<Capture>,
    entry: usize,
    exit: usize,
    span: Span,
) -> bool {
    if captures.len() == 0 {
        leads(g, entry, exit)
    } else {
        exists|cuts: Seq<usize>|
            cuts.len() == captures.len() + 1 && cuts[0] == entry && cuts[captures.len() as int]
                == exit && #[trigger] captures_at(g, captures, cuts, span)
    }
}

pub open spec fn captures_at<'a>(
    g: GraphView<'a>,
    captures: Seq<Capture>,
    cuts: Seq<usize>,
    span: Span,
) -> bool {
    forall|i: int|
        0 <= i < captures.len() ==> done_between(
            g,
            cuts[i],
            Action::Read((#[trigger] captures[i]).binding_id, AccessKind::Read, span),
            cuts[i + 1],
        )
}

/// An expression on its way into a task.
pub open spec fn part<'a>(
    expr: &'a Expr,
    entry: usize,
    exit: usize,
    replacement: Option<&'a Place>,
    loops: LoopTargets,
) -> Task<'a> {
    Task::Expr { expr, entry, exit, replacement, loops }
}

/// What lies between the two nodes of an expression.
pub open spec fn wired_expr<'a>(
    g: GraphView<'a>,
    work: Set<Task<'a>>,
    expr: &'a Expr,
    entry: usize,
    exit: usize,
    replacement: Option<&'a Place>,
    loops: LoopTargets,
) -> bool {
    match *expr {
        Expr::Ident(_, Some(id), span, _) => done_between(
            g,
            entry,
            Action::Read(id, AccessKind::Read, span),
            exit,
        ),
        Expr::Move { source, span, .. } => {
            &&& done_between(g, entry, Action::Move(&*source, span), exit)
            &&& replacement matches Some(place) ==> relation_of(*place, *source) is Disjoint
        },
        Expr::ReadPlace { source, .. } => work.contains(
            Task::PlaceEval {
                place: &*source,
                entry,
                exit,
                loops,
                mode: PlaceEvalMode {
                    read_root: true,
                    exposes_alias: false,
                    access: AccessKind::Read,
                },
            },
        ),
        Expr::Borrow { loan_id, source, kind, span, .. } => wired_loan(
            g,
            work,
            &*source,
            Action::Borrow { loan_id, source: &*source, declared_kind: kind, span },
            entry,
            exit,
            loops,
        ),
        Expr::Refer { loan_id, source, kind, span, .. } => wired_loan(
            g,
            work,
            &*source,
            Action::Borrow { loan_id, source: &*source, declared_kind: kind, span },
            entry,
            exit,
            loops,
        ),
        Expr::Str(parts, _, _) => strung(
            g,
            work,
            holes_of(parts@),
            entry,
            exit,
            replacement,
            loops,
        ),
        Expr::Cast { expr: inner, .. } => work.contains(
            part(&*inner, entry, exit, replacement, loops),
        ),
        Expr::Convert { expr: inner, .. } => work.contains(
            part(&*inner, entry, exit, replacement, loops),
        ),
        Expr::Neg { expr: inner, .. } => work.contains(
            part(&*inner, entry, exit, replacement, loops),
        ),
        Expr::Not { expr: inner, .. } => work.contains(
            part(&*inner, entry, exit, replacement, loops),
        ),
        Expr::BitNot { expr: inner, .. } => work.contains(
            part(&*inner, entry, exit, replacement, loops),
        ),
        Expr::Propagate { expr: inner, .. } => work.contains(
            part(&*inner, entry, exit, replacement, loops),
        ),
        Expr::Field { recv, .. } => work.contains(part(&*recv, entry, exit, replacement, loops)),
        Expr::Binary { op, lhs, rhs, .. } => exists|mid: usize|
            #![trigger part(&*lhs, entry, mid, replacement, loops)]
            work.contains(part(&*lhs, entry, mid, replacement, loops)) && work.contains(
                part(&*rhs, mid, exit, replacement, loops),
            ) && (op is And || op is Or ==> leads(g, mid, exit)),
        Expr::Ternary { cond, then_expr, else_expr, .. } => exists|mid: usize|
            #![trigger part(&*cond, entry, mid, None, loops)]
            work.contains(part(&*cond, entry, mid, None, loops)) && work.contains(
                part(&*then_expr, mid, exit, replacement, loops),
            ) && work.contains(part(&*else_expr, mid, exit, replacement, loops)),
        Expr::Index { recv, idx, .. } => exists|mid: usize|
            #![trigger part(&*recv, entry, mid, replacement, loops)]
            work.contains(part(&*recv, entry, mid, replacement, loops)) && work.contains(
                part(&*idx, mid, exit, replacement, loops),
            ),
        Expr::ArrayLit { elems, .. } => strung(
            g,
            work,
            Seq::new(elems@.len(), |i: int| &elems@[i]),
            entry,
            exit,
            replacement,
            loops,
        ),
        Expr::Call { .. } => match lent_by_call(expr) {
            None => wired_call(g, work, expr, entry, exit, replacement, loops),
            Some((loan_id, source, kind)) => exists|mid: usize|
                wired_call(g, work, expr, entry, mid, replacement, loops)
                    && #[trigger] done_between(
                    g,
                    mid,
                    Action::Borrow { loan_id, source, declared_kind: kind, span: expr.spec_span() },
                    exit,
                ),
        },
        Expr::MethodCall { .. } => match lent_by_call(expr) {
            None => wired_call(g, work, expr, entry, exit, replacement, loops),
            Some((loan_id, source, kind)) => exists|mid: usize|
                wired_call(g, work, expr, entry, mid, replacement, loops)
                    && #[trigger] done_between(
                    g,
                    mid,
                    Action::Borrow { loan_id, source, declared_kind: kind, span: expr.spec_span() },
                    exit,
                ),
        },
        Expr::FuncLit { captures, .. } => g.nested_functions.contains(expr) && wired_captures(
            g,
            captures@,
            entry,
            exit,
            expr.spec_span(),
        ),
        Expr::Match { subject, arms, .. } => exists|mid: usize|
            #![trigger part(&*subject, entry, mid, None, loops)]
            work.contains(part(&*subject, entry, mid, None, loops)) && forall|i: int|
                0 <= i < arms@.len() ==> work.contains(
                    Task::MatchArm { arm: &#[trigger] arms@[i], entry: mid, exit, loops },
                ),
        _ => leads(g, entry, exit),
    }
}

/// How the variable of a place is looked at: for its value as it is, or to be copied. An alias is
/// always used as it is.
pub open spec fn looked_up<'a>(
    g: GraphView<'a>,
    place: &'a Place,
    mode: PlaceEvalMode,
    entry: usize,
    exit: usize,
) -> bool {
    let root = root_place(place);
    let id = place_root(*place);
    let span = root.spec_info().span;
    ||| done_between(g, entry, Action::Read(id, mode.access, span), exit) && (mode.exposes_alias
        || g.borrowed.contains(id))
    ||| done_between(g, entry, Action::CloneRead(place, span), exit) && !mode.exposes_alias
}

/// What lies between the two nodes of a place.
pub open spec fn wired_place<'a>(
    g: GraphView<'a>,
    work: Set<Task<'a>>,
    place: &'a Place,
    entry: usize,
    exit: usize,
    loops: LoopTargets,
    mode: PlaceEvalMode,
) -> bool {
    if *place is Local {
        if mode.read_root {
            looked_up(g, place, mode, entry, exit)
        } else {
            leads(g, entry, exit)
        }
    } else {
        exists|mid: usize|
            #![trigger strung(g, work, indices_of(place), mid, exit, None, loops)]
            strung(g, work, indices_of(place), mid, exit, None, loops) && (looked_up(
                g,
                place,
                mode,
                entry,
                mid,
            ) || (!mode.read_root && leads(g, entry, mid)))
    }
}

/// What lies between the two nodes of an assignment after its value and its place: an alias gets
/// the new loan, a variable that owns gets a new value, and any other place is written. Only what
/// lies behind an alias is written through the alias.
pub open spec fn wired_write<'a>(
    g: GraphView<'a>,
    target: &'a Place,
    value: &'a Expr,
    entry: usize,
    exit: usize,
) -> bool {
    let id = place_root(*target);
    ||| g.borrowed.contains(id) && *target is Local && (exists|loan: LoanId|
        loan_of(value) == Some(loan) && #[trigger] done_between(
            g,
            entry,
            Action::BindLoan(id, loan),
            exit,
        ))
    ||| g.eligible.contains(id) && *target is Local && value.spec_value_category() == Some(
        ValueCategory::OwnedTemporary,
    ) && done_between(g, entry, Action::Reinitialize(id, target.spec_span()), exit)
    ||| exists|mid: usize| #[trigger]
        done_between(g, entry, Action::Write(target, target.spec_span()), mid) && leads(
            g,
            mid,
            exit,
        )
    ||| g.borrowed.contains(id) && !(*target is Local) && exists|mid: usize| #[trigger]
        leads(g, entry, mid) && leads(g, mid, exit)
}

/// The branches of a choice: each condition comes after the ones before it, each body after its
/// condition, and what is left after the last condition.
pub open spec fn wired_branches<'a>(
    g: GraphView<'a>,
    work: Set<Task<'a>>,
    branches: Seq<(Expr, Vec<Stmt>)>,
    else_body: Option<Vec<Stmt>>,
    cuts: Seq<usize>,
    exit: usize,
    loops: LoopTargets,
) -> bool {
    &&& cuts.len() == branches.len() + 1
    &&& forall|i: int|
        0 <= i < branches.len() ==> work.contains(
            part(&(#[trigger] branches[i]).0, cuts[i], cuts[i + 1], None, loops),
        ) && work.contains(
            Task::Stmts { stmts: &branches[i].1, entry: cuts[i + 1], exit, loops },
        )
    &&& match else_body {
        Some(body) => work.contains(
            Task::Stmts { stmts: &body, entry: cuts[branches.len() as int], exit, loops },
        ),
        None => leads(g, cuts[branches.len() as int], exit),
    }
}

/// What lies between the two nodes of a statement.
pub open spec fn wired_stmt<'a>(
    g: GraphView<'a>,
    work: Set<Task<'a>>,
    stmt: &'a Stmt,
    entry: usize,
    exit: usize,
    loops: LoopTargets,
) -> bool {
    match *stmt {
        Stmt::Binding(binding) => exists|mid: usize|
            #![trigger part(&binding.value, entry, mid, None, loops)]
            work.contains(part(&binding.value, entry, mid, None, loops)) && match binding.relation {
                Some(StorageRelation::Borrowed) => g.borrowed.contains(binding.binding_id)
                    && exists|loan: LoanId|
                    loan_of(&binding.value) == Some(loan) && #[trigger] done_between(
                        g,
                        mid,
                        Action::BindLoan(binding.binding_id, loan),
                        exit,
                    ),
                Some(StorageRelation::Owning) => g.owning.contains(binding.binding_id)
                    && if owns_storage(binding.ty@) {
                    g.eligible.contains(binding.binding_id) && done_between(
                        g,
                        mid,
                        Action::Declare(binding.binding_id),
                        exit,
                    )
                } else {
                    leads(g, mid, exit)
                },
                None => leads(g, mid, exit),
            },
        Stmt::Assign { target, value, .. } => exists|mid: usize, end: usize|
            #![trigger part(&value, entry, mid, Some(&target), loops), leads(g, end, exit)]
            work.contains(part(&value, entry, mid, Some(&target), loops)) && work.contains(
                Task::PlaceEval {
                    place: &target,
                    entry: mid,
                    exit: end,
                    loops,
                    mode: PlaceEvalMode {
                        read_root: false,
                        exposes_alias: true,
                        access: AccessKind::Write,
                    },
                },
            ) && wired_write(g, &target, &value, end, exit),
        Stmt::Expr { expr } => work.contains(part(&expr, entry, exit, None, loops)),
        Stmt::Return { value } => match value {
            Some(value) => work.contains(part(&value, entry, g.return_sink, None, loops)),
            None => leads(g, entry, g.return_sink),
        },
        Stmt::If { branches, else_body } => exists|cuts: Seq<usize>|
            cuts[0] == entry && #[trigger] wired_branches(
                g,
                work,
                branches@,
                else_body,
                cuts,
                exit,
                loops,
            ),
        Stmt::While { cond, body } => exists|header: usize, test: usize, end: usize|
            #![trigger leads(g, entry, header), leads(g, test, exit), leads(g, end, header)]
            leads(g, entry, header) && leads(g, test, exit) && leads(g, end, header)
                && work.contains(part(&cond, header, test, None, loops)) && work.contains(
                Task::Stmts {
                    stmts: &body,
                    entry: test,
                    exit: end,
                    loops: LoopTargets { break_target: Some(exit), continue_target: Some(header) },
                },
            ),
        Stmt::For { iterable, body, .. } => exists|header: usize, end: usize|
            #![trigger leads(g, header, exit), leads(g, end, header)]
            leads(g, header, exit) && leads(g, end, header) && work.contains(
                part(&iterable, entry, header, None, loops),
            ) && work.contains(
                Task::Stmts {
                    stmts: &body,
                    entry: header,
                    exit: end,
                    loops: LoopTargets { break_target: Some(exit), continue_target: Some(header) },
                },
            ),
        Stmt::Break => loops.break_target matches Some(target) && leads(g, entry, target),
        Stmt::Continue => loops.continue_target matches Some(target) && leads(g, entry, target),
    }
}

/// What lies between the two nodes of a piece of a program.
pub open spec fn wired<'a>(g: GraphView<'a>, work: Set<Task<'a>>, task: Task<'a>) -> bool {
    match task {
        Task::Expr { expr, entry, exit, replacement, loops } => wired_expr(
            g,
            work,
            expr,
            entry,
            exit,
            replacement,
            loops,
        ),
        Task::Stmt { stmt, entry, exit, loops } => wired_stmt(g, work, stmt, entry, exit, loops),
        Task::Stmts { stmts, entry, exit, loops } => lined_up(
            g,
            work,
            stmts@,
            entry,
            exit,
            loops,
        ),
        Task::Body { body, entry, exit, loops } => match *body {
            Body::Block(stmts) => work.contains(Task::Stmts { stmts: &stmts, entry, exit, loops }),
            Body::Single(stmt) => work.contains(Task::Stmt { stmt: &*stmt, entry, exit, loops }),
        },
        Task::MatchArm { arm, entry, exit, loops } => match arm.body {
            ArmBody::Block(stmts) => work.contains(
                Task::Stmts { stmts: &stmts, entry, exit, loops },
            ),
            ArmBody::Value(value) => work.contains(part(&*value, entry, exit, None, loops)),
            ArmBody::Ret(value) => work.contains(
                part(&*value, entry, g.return_sink, None, loops),
            ),
        },
        Task::PlaceEval { place, entry, exit, loops, mode } => wired_place(
            g,
            work,
            place,
            entry,
            exit,
            loops,
            mode,
        ),
    }
}

/// Where a piece of a program starts.
pub open spec fn start<'a>(task: Task<'a>) -> usize {
    match task {
        Task::Expr { entry, .. } => entry,
        Task::Stmt { entry, .. } => entry,
        Task::Stmts { entry, .. } => entry,
        Task::Body { entry, .. } => entry,
        Task::MatchArm { entry, .. } => entry,
        Task::PlaceEval { entry, .. } => entry,
    }
}

/// One graph has all that the other has.
spec fn extends<'a>(g: GraphView<'a>, h: GraphView<'a>) -> bool {
    &&& g.nodes.len() <= h.nodes.len()
    &&& forall|i: int|
        0 <= i < g.nodes.len() ==> (#[trigger] h.nodes[i]).action == g.nodes[i].action
    &&& forall|i: usize, s: usize| #[trigger] leads(g, i, s) ==> leads(h, i, s)
    &&& g.borrowed.subset_of(h.borrowed)
    &&& g.owning.subset_of(h.owning)
    &&& g.eligible.subset_of(h.eligible)
    &&& g.return_sink == h.return_sink
    &&& forall|e: &'a Expr| #[trigger]
        g.nested_functions.contains(e) ==> h.nested_functions.contains(e)
}

/// The same, with all that is still to be built, and new pieces that start in the graph.
spec fn grows<'a>(g: GraphView<'a>, h: GraphView<'a>) -> bool {
    &&& extends(g, h)
    &&& forall|t: Task<'a>| #[trigger] g.tasks.contains(t) ==> h.tasks.contains(t)
    &&& forall|t: Task<'a>| #[trigger]
        h.tasks.contains(t) ==> g.tasks.contains(t) || start(t) < h.nodes.len()
}

proof fn lemma_extends<'a>(g: GraphView<'a>, h: GraphView<'a>, k: GraphView<'a>)
    requires
        extends(g, h),
        extends(h, k),
    ensures
        extends(g, k),
{
    assert forall|i: int| 0 <= i < g.nodes.len() implies (#[trigger] k.nodes[i]).action
        == g.nodes[i].action by {
        assert(h.nodes[i].action == g.nodes[i].action);
    }
}

proof fn lemma_grows<'a>(g: GraphView<'a>, h: GraphView<'a>, k: GraphView<'a>)
    requires
        grows(g, h),
        grows(h, k),
    ensures
        grows(g, k),
{
    lemma_extends(g, h, k);
}

proof fn lemma_done<'a>(g: GraphView<'a>, h: GraphView<'a>, a: usize, action: Action<'a>, b: usize)
    requires
        extends(g, h),
        done_between(g, a, action, b),
    ensures
        done_between(h, a, action, b),
{
    let n = choose|n: usize| #[trigger]
        leads(g, a, n) && leads(g, n, b) && g.nodes[n as int].action == action;
    assert(leads(h, a, n) && leads(h, n, b));
    assert(h.nodes[n as int].action == action);
}

proof fn lemma_node<'a>(g: GraphView<'a>, action: Action<'a>)
    ensures
        grows(g, with_node(g, action)),
        with_node(g, action).nodes.len() == g.nodes.len() + 1,
        with_node(g, action).tasks == g.tasks,
{
}

proof fn lemma_edge<'a>(g: GraphView<'a>, from: usize, to: usize)
    requires
        from < g.nodes.len(),
    ensures
        grows(g, with_edge(g, from, to)),
        leads(with_edge(g, from, to), from, to),
        with_edge(g, from, to).nodes.len() == g.nodes.len(),
        with_edge(g, from, to).tasks == g.tasks,
        with_edge(g, from, to).borrowed == g.borrowed,
        with_edge(g, from, to).eligible == g.eligible,
{
    let h = with_edge(g, from, to);
    let old_list = g.nodes[from as int].successors;
    if !old_list.contains(to) {
        let list = old_list.push(to);
        assert(list[old_list.len() as int] == to);
        assert forall|i: usize, s: usize| #[trigger] leads(g, i, s) implies leads(h, i, s) by {
            if i == from {
                let k = choose|k: int| 0 <= k < old_list.len() && old_list[k] == s;
                assert(list[k] == s);
            }
        }
    }
}

proof fn lemma_action<'a>(g: GraphView<'a>, entry: usize, exit: usize, action: Action<'a>)
    requires
        entry < g.nodes.len() < usize::MAX,
    ensures
        grows(g, with_action(g, entry, exit, action)),
        done_between(with_action(g, entry, exit, action), entry, action, exit),
        with_action(g, entry, exit, action).nodes.len() == g.nodes.len() + 1,
        with_action(g, entry, exit, action).tasks == g.tasks,
{
    let id = next(g);
    let g1 = with_node(g, action);
    let g2 = with_edge(g1, entry, id);
    let g3 = with_edge(g2, id, exit);
    lemma_node(g, action);
    lemma_edge(g1, entry, id);
    lemma_edge(g2, id, exit);
    lemma_grows(g, g1, g2);
    lemma_grows(g, g2, g3);
    assert(leads(g3, entry, id));
    assert(g1.nodes[id as int].action == action);
    assert(g2.nodes[id as int].action == action);
    assert(g3.nodes[id as int].action == action);
}

proof fn lemma_task<'a>(g: GraphView<'a>, task: Task<'a>)
    requires
        start(task) < g.nodes.len(),
    ensures
        grows(g, with_task(g, task)),
        with_task(g, task).tasks.contains(task),
        with_task(g, task).nodes == g.nodes,
{
    let h = with_task(g, task);
    assert(h.tasks[g.tasks.len() as int] == task);
    assert forall|t: Task<'a>| #[trigger] g.tasks.contains(t) implies h.tasks.contains(t) by {
        let k = choose|k: int| 0 <= k < g.tasks.len() && g.tasks[k] == t;
        assert(h.tasks[k] == t);
    }
    assert forall|t: Task<'a>| #[trigger] h.tasks.contains(t) implies g.tasks.contains(t) || start(
        t,
    ) < h.nodes.len() by {
        let k = choose|k: int| 0 <= k < h.tasks.len() && h.tasks[k] == t;
        if k < g.tasks.len() {
            assert(g.tasks[k] == t);
        }
    }
}

/// Pieces that are added together.
proof fn lemma_added<'a>(g: GraphView<'a>, h: GraphView<'a>, more: Seq<Task<'a>>)
    requires
        h.tasks == g.tasks + more,
        extends(g, h),
        forall|k: int| 0 <= k < more.len() ==> start(#[trigger] more[k]) < h.nodes.len(),
    ensures
        grows(g, h),
        forall|k: int| 0 <= k < more.len() ==> h.tasks.contains(#[trigger] more[k]),
{
    let n = g.tasks.len() as int;
    assert forall|k: int| 0 <= k < more.len() implies h.tasks.contains(#[trigger] more[k]) by {
        assert(h.tasks[n + k] == more[k]);
    }
    assert forall|t: Task<'a>| #[trigger] g.tasks.contains(t) implies h.tasks.contains(t) by {
        let k = choose|k: int| 0 <= k < g.tasks.len() && g.tasks[k] == t;
        assert(h.tasks[k] == t);
    }
    assert forall|t: Task<'a>| #[trigger] h.tasks.contains(t) implies g.tasks.contains(t) || start(
        t,
    ) < h.nodes.len() by {
        let k = choose|k: int| 0 <= k < h.tasks.len() && h.tasks[k] == t;
        if k < n {
            assert(g.tasks[k] == t);
        } else {
            assert(more[k - n] == t);
        }
    }
}

proof fn lemma_nops<'a>(g: GraphView<'a>, count: nat, h: GraphView<'a>)
    requires
        h == (GraphView { nodes: g.nodes + nops(count), tasks: h.tasks, ..g }),
    ensures
        extends(g, h),
        h.nodes.len() == g.nodes.len() + count,
{
    assert forall|i: usize, s: usize| #[trigger] leads(g, i, s) implies leads(h, i, s) by {
        assert(h.nodes[i as int] == g.nodes[i as int]);
    }
}

/// Every piece is among those that are looked at.
spec fn among<'a>(tasks: Seq<Task<'a>>, work: Set<Task<'a>>) -> bool {
    forall|t: Task<'a>| #[trigger] tasks.contains(t) ==> work.contains(t)
}

proof fn lemma_sequence<'a>(
    g: GraphView<'a>,
    exprs: Seq<&'a Expr>,
    entry: usize,
    exit: usize,
    replacement: Option<&'a Place>,
    loops: LoopTargets,
)
    requires
        entry < g.nodes.len(),
        with_sequence(g, exprs, entry, exit, replacement, loops).nodes.len() <= usize::MAX,
    ensures
        grows(g, with_sequence(g, exprs, entry, exit, replacement, loops)),
        forall|f: GraphView<'a>, work: Set<Task<'a>>|
            #![trigger strung(f, work, exprs, entry, exit, replacement, loops)]
            extends(with_sequence(g, exprs, entry, exit, replacement, loops), f) && among(
                with_sequence(g, exprs, entry, exit, replacement, loops).tasks,
                work,
            ) ==> strung(f, work, exprs, entry, exit, replacement, loops),
{
    let h = with_sequence(g, exprs, entry, exit, replacement, loops);
    let count = exprs.len();
    if count == 0 {
        lemma_edge(g, entry, exit);
    } else {
        let cuts = Seq::new(
            count + 1,
            |i: int| boundary(g.nodes.len(), count, entry, exit, i),
        );
        let more = Seq::new(
            count,
            |k: int|
                expr_task(
                    exprs[count - 1 - k],
                    cuts[count - 1 - k],
                    cuts[count - k],
                    replacement,
                    loops,
                ),
        );
        assert(h.tasks =~= g.tasks + more);
        lemma_nops(g, (count - 1) as nat, h);
        assert forall|k: int| 0 <= k < more.len() implies start(#[trigger] more[k])
            < h.nodes.len() by {}
        lemma_added(g, h, more);
        assert forall|f: GraphView<'a>, work: Set<Task<'a>>|
            #![trigger strung(f, work, exprs, entry, exit, replacement, loops)]
            extends(h, f) && among(h.tasks, work) implies strung(
            f,
            work,
            exprs,
            entry,
            exit,
            replacement,
            loops,
        ) by {
            assert forall|i: int| 0 <= i < exprs.len() implies work.contains(
                Task::Expr {
                    expr: #[trigger] exprs[i],
                    entry: cuts[i],
                    exit: cuts[i + 1],
                    replacement,
                    loops,
                },
            ) by {
                assert(h.tasks.contains(more[count - 1 - i]));
            }
            assert(strung_at(work, exprs, cuts, replacement, loops));
        }
    }
}

proof fn lemma_stmts<'a>(
    g: GraphView<'a>,
    stmts: Seq<Stmt>,
    entry: usize,
    exit: usize,
    loops: LoopTargets,
)
    requires
        entry < g.nodes.len(),
        with_stmts(g, stmts, entry, exit, loops).nodes.len() <= usize::MAX,
    ensures
        grows(g, with_stmts(g, stmts, entry, exit, loops)),
        forall|f: GraphView<'a>, work: Set<Task<'a>>|
            #![trigger lined_up(f, work, stmts, entry, exit, loops)]
            extends(with_stmts(g, stmts, entry, exit, loops), f) && among(
                with_stmts(g, stmts, entry, exit, loops).tasks,
                work,
            ) ==> lined_up(f, work, stmts, entry, exit, loops),
{
    let h = with_stmts(g, stmts, entry, exit, loops);
    let count = stmts.len();
    if count == 0 {
        lemma_edge(g, entry, exit);
    } else {
        let cuts = Seq::new(
            count + 1,
            |i: int| boundary(g.nodes.len(), count, entry, exit, i),
        );
        let more = Seq::new(
            count,
            |k: int|
                Task::Stmt {
                    stmt: &stmts[count - 1 - k],
                    entry: cuts[count - 1 - k],
                    exit: cuts[count - k],
                    loops,
                },
        );
        assert(h.tasks =~= g.tasks + more);
        lemma_nops(g, (count - 1) as nat, h);
        assert forall|k: int| 0 <= k < more.len() implies start(#[trigger] more[k])
            < h.nodes.len() by {}
        lemma_added(g, h, more);
        assert forall|f: GraphView<'a>, work: Set<Task<'a>>|
            #![trigger lined_up(f, work, stmts, entry, exit, loops)]
            extends(h, f) && among(h.tasks, work) implies lined_up(
            f,
            work,
            stmts,
            entry,
            exit,
            loops,
        ) by {
            assert forall|i: int| 0 <= i < stmts.len() implies work.contains(
                Task::Stmt {
                    stmt: &#[trigger] stmts[i],
                    entry: cuts[i],
                    exit: cuts[i + 1],
                    loops,
                },
            ) by {
                assert(h.tasks.contains(more[count - 1 - i]));
            }
            assert(lined_up_at(work, stmts, cuts, loops));
        }
    }
}

proof fn lemma_indices<'a>(place: &'a Place)
    ensures
        place_indices(place) == indices_of(place),
    decreases place,
{
    match *place {
        Place::Local { .. } => {},
        Place::Field { base, .. } => lemma_indices(&*base),
        Place::Index { base, index, .. } => {
            lemma_indices(&*base);
            assert(place_indices(place) =~= indices_of(place));
        },
    }
}

proof fn lemma_holes<'a>(parts: Seq<StrPart>)
    ensures
        hole_exprs(parts) == holes_of(parts),
    decreases parts.len(),
{
    if parts.len() > 0 {
        lemma_holes(parts.drop_last());
        assert(hole_exprs(parts) =~= holes_of(parts));
    }
}

proof fn lemma_loan_of<'a>(expr: &'a Expr)
    ensures
        borrow_of(expr) matches Some((loan, _)) ==> loan_of(expr) == Some(loan),
        handed_loan(expr) == lent_by_call(expr),
    decreases expr,
{
    match *expr {
        Expr::Convert { expr: inner, mode: ResolvedConversion::Identity, .. } => lemma_loan_of(
            &*inner,
        ),
        _ => {},
    }
}

proof fn lemma_place<'a>(
    g: GraphView<'a>,
    place: &'a Place,
    entry: usize,
    exit: usize,
    loops: LoopTargets,
    mode: PlaceEvalMode,
    f: GraphView<'a>,
    work: Set<Task<'a>>,
)
    requires
        entry < g.nodes.len(),
        step_place(g, place, entry, exit, loops, mode).nodes.len() <= usize::MAX,
        extends(step_place(g, place, entry, exit, loops, mode), f),
        among(step_place(g, place, entry, exit, loops, mode).tasks, work),
    ensures
        grows(g, step_place(g, place, entry, exit, loops, mode)),
        wired_place(f, work, place, entry, exit, loops, mode),
{
    let h = step_place(g, place, entry, exit, loops, mode);
    let root = root_place(place);
    lemma_root_place(place);
    lemma_indices(place);
    let action = root_action(g, place, root, mode);
    if *place is Local {
        if mode.read_root {
            lemma_action(g, entry, exit, action);
            lemma_done(h, f, entry, action, exit);
        } else {
            lemma_edge(g, entry, exit);
        }
    } else {
        let mid = next(g);
        let g1 = with_node(g, Action::Nop);
        lemma_node(g, Action::Nop);
        let looks = mode.read_root || g.borrowed.contains(place_root(*root));
        let g2 = if looks {
            with_action(g1, entry, mid, action)
        } else {
            with_edge(g1, entry, mid)
        };
        if looks {
            lemma_action(g1, entry, mid, action);
        } else {
            lemma_edge(g1, entry, mid);
        }
        lemma_grows(g, g1, g2);
        lemma_sequence(g2, place_indices(place), mid, exit, None, loops);
        lemma_grows(g, g2, h);
        lemma_extends(g2, h, f);
        assert(strung(f, work, indices_of(place), mid, exit, None, loops));
        if looks {
            lemma_done(g2, f, entry, action, mid);
        } else {
            assert(leads(f, entry, mid));
        }
    }
}

proof fn lemma_borrow<'a>(
    g: GraphView<'a>,
    source: &'a Place,
    action: Action<'a>,
    entry: usize,
    exit: usize,
    loops: LoopTargets,
    f: GraphView<'a>,
    work: Set<Task<'a>>,
)
    requires
        entry < g.nodes.len(),
        step_borrow(g, source, action, entry, exit, loops).nodes.len() <= usize::MAX,
        extends(step_borrow(g, source, action, entry, exit, loops), f),
        among(step_borrow(g, source, action, entry, exit, loops).tasks, work),
    ensures
        grows(g, step_borrow(g, source, action, entry, exit, loops)),
        wired_loan(f, work, source, action, entry, exit, loops),
{
    let h = step_borrow(g, source, action, entry, exit, loops);
    lemma_indices(source);
    let indices = place_indices(source);
    if indices.len() == 0 {
        lemma_action(g, entry, exit, action);
        lemma_done(h, f, entry, action, exit);
    } else {
        let mid = next(g);
        let g0 = with_node(g, Action::Nop);
        let g1 = with_sequence(g0, indices, entry, mid, None, loops);
        lemma_node(g, Action::Nop);
        lemma_sequence(g0, indices, entry, mid, None, loops);
        lemma_grows(g, g0, g1);
        lemma_action(g1, mid, exit, action);
        lemma_grows(g, g1, h);
        lemma_extends(g1, h, f);
        assert(strung(f, work, indices, entry, mid, None, loops));
        lemma_done(h, f, mid, action, exit);
    }
}

proof fn lemma_captures<'a>(
    g: GraphView<'a>,
    captures: Seq<Capture>,
    i: int,
    current: usize,
    exit: usize,
    span: Span,
) -> (cuts: Seq<usize>)
    requires
        0 <= i < captures.len(),
        current < g.nodes.len(),
        with_captures(g, captures, i, current, exit, span).nodes.len() <= usize::MAX,
    ensures
        grows(g, with_captures(g, captures, i, current, exit, span)),
        cuts.len() == captures.len() - i + 1,
        cuts[0] == current,
        cuts[captures.len() - i] == exit,
        forall|j: int|
            i <= j < captures.len() ==> done_between(
                with_captures(g, captures, i, current, exit, span),
                cuts[j - i],
                Action::Read((#[trigger] captures[j]).binding_id, AccessKind::Read, span),
                cuts[j - i + 1],
            ),
    decreases captures.len() - i,
{
    let h = with_captures(g, captures, i, current, exit, span);
    let action = Action::Read(captures[i].binding_id, AccessKind::Read, span);
    lemma_captures_len(g, captures, i, current, exit, span);
    if i + 1 == captures.len() {
        lemma_action(g, current, exit, action);
        seq![current, exit]
    } else {
        let following = next(g);
        let g1 = with_node(g, Action::Nop);
        let g2 = with_action(g1, current, following, action);
        lemma_node(g, Action::Nop);
        lemma_action(g1, current, following, action);
        lemma_grows(g, g1, g2);
        let rest = lemma_captures(g2, captures, i + 1, following, exit, span);
        lemma_grows(g, g2, h);
        let cuts = seq![current] + rest;
        assert forall|j: int| i <= j < captures.len() implies done_between(
            h,
            cuts[j - i],
            Action::Read((#[trigger] captures[j]).binding_id, AccessKind::Read, span),
            cuts[j - i + 1],
        ) by {
            if j == i {
                assert(cuts[1] == rest[0]);
                lemma_done(g2, h, current, action, following);
            } else {
                assert(cuts[j - i] == rest[j - (i + 1)]);
                assert(cuts[j - i + 1] == rest[j - (i + 1) + 1]);
            }
        }
        cuts
    }
}

proof fn lemma_captures_len<'a>(
    g: GraphView<'a>,
    captures: Seq<Capture>,
    i: int,
    current: usize,
    exit: usize,
    span: Span,
)
    requires
        0 <= i < captures.len(),
    ensures
        with_captures(g, captures, i, current, exit, span).nodes.len() >= g.nodes.len() + 1,
        i + 1 < captures.len() ==> with_captures(g, captures, i, current, exit, span).nodes.len()
            >= g.nodes.len() + 2,
    decreases captures.len() - i,
{
    if i + 1 < captures.len() {
        let following = next(g);
        let action = Action::Read(captures[i].binding_id, AccessKind::Read, span);
        let g2 = with_action(with_node(g, Action::Nop), current, following, action);
        lemma_captures_len(g2, captures, i + 1, following, exit, span);
    }
}

proof fn lemma_call<'a>(
    g: GraphView<'a>,
    expr: &'a Expr,
    entry: usize,
    exit: usize,
    replacement: Option<&'a Place>,
    loops: LoopTargets,
    h: GraphView<'a>,
    f: GraphView<'a>,
    work: Set<Task<'a>>,
)
    requires
        *expr is Call || *expr is MethodCall,
        entry < g.nodes.len(),
        step_call(g, expr, entry, exit, replacement, loops) == Ok::<GraphView<'a>, ErrorView>(h),
        h.nodes.len() <= usize::MAX,
        extends(h, f),
        among(h.tasks, work),
    ensures
        grows(g, h),
        wired_call(f, work, expr, entry, exit, replacement, loops),
{
    match *expr {
        Expr::Call { callee, args, target, .. } => {
            assert(arg_exprs(args@) =~= values_of(args@));
            if is_incdec(target) {
                if let Expr::Ident(_, Some(id), span, _) = args@[0].value {
                    let action = Action::Read(id, AccessKind::Write, span);
                    lemma_action(g, entry, exit, action);
                    lemma_done(h, f, entry, action, exit);
                }
            } else if target is FunctionValue {
                let list = seq![&*callee] + arg_exprs(args@);
                lemma_sequence(g, list, entry, exit, replacement, loops);
                assert(strung(f, work, list, entry, exit, replacement, loops));
            } else {
                lemma_sequence(g, arg_exprs(args@), entry, exit, replacement, loops);
                assert(strung(f, work, arg_exprs(args@), entry, exit, replacement, loops));
            }
        },
        Expr::MethodCall { recv, args, target, .. } => {
            assert(arg_exprs(args@) =~= values_of(args@));
            let changes = target is ArrayPush || target is ArrayPop;
            let list = seq![&*recv] + arg_exprs(args@);
            match *recv {
                Expr::Ident(_, Some(id), span, _) if changes => {
                    let mid = next(g);
                    let g0 = with_node(g, Action::Nop);
                    let action = Action::Read(id, AccessKind::Write, span);
                    let g1 = with_action(g0, entry, mid, action);
                    lemma_node(g, Action::Nop);
                    lemma_action(g0, entry, mid, action);
                    lemma_grows(g, g0, g1);
                    lemma_sequence(g1, arg_exprs(args@), mid, exit, replacement, loops);
                    lemma_grows(g, g1, h);
                    lemma_extends(g1, h, f);
                    lemma_done(g1, f, entry, action, mid);
                    assert(strung(f, work, arg_exprs(args@), mid, exit, replacement, loops));
                },
                _ => {
                    lemma_sequence(g, list, entry, exit, replacement, loops);
                    assert(strung(f, work, list, entry, exit, replacement, loops));
                },
            }
        },
        _ => {},
    }
}

proof fn lemma_pair<'a>(
    f: GraphView<'a>,
    work: Set<Task<'a>>,
    a: &'a Expr,
    b: &'a Expr,
    entry: usize,
    exit: usize,
    replacement: Option<&'a Place>,
    loops: LoopTargets,
) -> (mid: usize)
    requires
        strung(f, work, seq![a, b], entry, exit, replacement, loops),
    ensures
        work.contains(part(a, entry, mid, replacement, loops)),
        work.contains(part(b, mid, exit, replacement, loops)),
{
    let exprs = seq![a, b];
    let cuts = choose|cuts: Seq<usize>|
        cuts.len() == exprs.len() + 1 && cuts[0] == entry && cuts[exprs.len() as int] == exit
            && #[trigger] strung_at(work, exprs, cuts, replacement, loops);
    assert(exprs[0] == a && exprs[1] == b);
    cuts[1]
}

proof fn lemma_leaf<'a>(
    g: GraphView<'a>,
    expr: &'a Expr,
    entry: usize,
    exit: usize,
    replacement: Option<&'a Place>,
    loops: LoopTargets,
    h: GraphView<'a>,
    f: GraphView<'a>,
    work: Set<Task<'a>>,
)
    requires
        *expr is Ident || *expr is Move || *expr is Int || *expr is Float || *expr is Bool
            || *expr is This || *expr is Typeof || *expr is ReadPlace || *expr is Borrow
            || *expr is Refer,
        entry < g.nodes.len(),
        step_expr(g, expr, entry, exit, replacement, loops) == Ok::<GraphView<'a>, ErrorView>(h),
        h.nodes.len() <= usize::MAX,
        extends(h, f),
        among(h.tasks, work),
    ensures
        grows(g, h),
        wired_expr(f, work, expr, entry, exit, replacement, loops),
{
    match *expr {
        Expr::Ident(_, Some(id), span, _) => {
            let action = Action::Read(id, AccessKind::Read, span);
            lemma_action(g, entry, exit, action);
            lemma_done(h, f, entry, action, exit);
        },
        Expr::Move { source, span, .. } => {
            let action = Action::Move(&*source, span);
            lemma_action(g, entry, exit, action);
            lemma_done(h, f, entry, action, exit);
        },
        Expr::ReadPlace { source, .. } => {
            let task = Task::PlaceEval {
                place: &*source,
                entry,
                exit,
                loops,
                mode: PlaceEvalMode {
                    read_root: true,
                    exposes_alias: false,
                    access: AccessKind::Read,
                },
            };
            lemma_task(g, task);
        },
        Expr::Borrow { loan_id, source, kind, span, .. } => {
            let action = Action::Borrow { loan_id, source: &*source, declared_kind: kind, span };
            lemma_borrow(g, &*source, action, entry, exit, loops, f, work);
        },
        Expr::Refer { loan_id, source, kind, span, .. } => {
            let action = Action::Borrow { loan_id, source: &*source, declared_kind: kind, span };
            lemma_borrow(g, &*source, action, entry, exit, loops, f, work);
        },
        _ => {
            lemma_edge(g, entry, exit);
        },
    }
}

proof fn lemma_single<'a>(
    g: GraphView<'a>,
    expr: &'a Expr,
    entry: usize,
    exit: usize,
    replacement: Option<&'a Place>,
    loops: LoopTargets,
    h: GraphView<'a>,
    f: GraphView<'a>,
    work: Set<Task<'a>>,
)
    requires
        *expr is Cast || *expr is Convert || *expr is Neg || *expr is Not || *expr is BitNot
            || *expr is Propagate || *expr is Field || *expr is Str || *expr is ArrayLit
            || *expr is Index,
        entry < g.nodes.len(),
        step_expr(g, expr, entry, exit, replacement, loops) == Ok::<GraphView<'a>, ErrorView>(h),
        h.nodes.len() <= usize::MAX,
        extends(h, f),
        among(h.tasks, work),
    ensures
        grows(g, h),
        wired_expr(f, work, expr, entry, exit, replacement, loops),
{
    match *expr {
        Expr::Cast { expr: inner, .. } => lemma_task(
            g,
            part(&*inner, entry, exit, replacement, loops),
        ),
        Expr::Convert { expr: inner, .. } => lemma_task(
            g,
            part(&*inner, entry, exit, replacement, loops),
        ),
        Expr::Neg { expr: inner, .. } => lemma_task(
            g,
            part(&*inner, entry, exit, replacement, loops),
        ),
        Expr::Not { expr: inner, .. } => lemma_task(
            g,
            part(&*inner, entry, exit, replacement, loops),
        ),
        Expr::BitNot { expr: inner, .. } => lemma_task(
            g,
            part(&*inner, entry, exit, replacement, loops),
        ),
        Expr::Propagate { expr: inner, .. } => lemma_task(
            g,
            part(&*inner, entry, exit, replacement, loops),
        ),
        Expr::Field { recv, .. } => lemma_task(g, part(&*recv, entry, exit, replacement, loops)),
        Expr::Str(parts, _, _) => {
            lemma_holes(parts@);
            lemma_sequence(g, hole_exprs(parts@), entry, exit, replacement, loops);
            assert(strung(f, work, hole_exprs(parts@), entry, exit, replacement, loops));
        },
        Expr::ArrayLit { elems, .. } => {
            assert(elem_exprs(elems@) =~= Seq::new(elems@.len(), |i: int| &elems@[i]));
            lemma_sequence(g, elem_exprs(elems@), entry, exit, replacement, loops);
            assert(strung(f, work, elem_exprs(elems@), entry, exit, replacement, loops));
        },
        Expr::Index { recv, idx, .. } => {
            lemma_sequence(g, seq![&*recv, &*idx], entry, exit, replacement, loops);
            assert(strung(f, work, seq![&*recv, &*idx], entry, exit, replacement, loops));
            let mid = lemma_pair(f, work, &*recv, &*idx, entry, exit, replacement, loops);
            assert(work.contains(part(&*recv, entry, mid, replacement, loops)));
        },
        _ => {},
    }
}

proof fn lemma_forked<'a>(
    g: GraphView<'a>,
    expr: &'a Expr,
    entry: usize,
    exit: usize,
    replacement: Option<&'a Place>,
    loops: LoopTargets,
    h: GraphView<'a>,
    f: GraphView<'a>,
    work: Set<Task<'a>>,
)
    requires
        *expr is Binary || *expr is Ternary || *expr is Match,
        entry < g.nodes.len(),
        step_expr(g, expr, entry, exit, replacement, loops) == Ok::<GraphView<'a>, ErrorView>(h),
        h.nodes.len() <= usize::MAX,
        extends(h, f),
        among(h.tasks, work),
    ensures
        grows(g, h),
        wired_expr(f, work, expr, entry, exit, replacement, loops),
{
    let mid = next(g);
    let g0 = with_node(g, Action::Nop);
    lemma_node(g, Action::Nop);
    match *expr {
        Expr::Binary { op, lhs, rhs, .. } => {
            if op is And || op is Or {
                let first = part(&*lhs, entry, mid, replacement, loops);
                let second = part(&*rhs, mid, exit, replacement, loops);
                let g1 = with_task(g0, first);
                let g2 = with_edge(g1, mid, exit);
                lemma_task(g0, first);
                lemma_edge(g1, mid, exit);
                lemma_task(g2, second);
                lemma_grows(g, g0, g1);
                lemma_grows(g, g1, g2);
                lemma_grows(g, g2, h);
                assert(g2.tasks.contains(first));
                assert(h.tasks.contains(first));
                assert(leads(h, mid, exit));
                assert(work.contains(part(&*lhs, entry, mid, replacement, loops)));
            } else {
                lemma_sequence(g, seq![&*lhs, &*rhs], entry, exit, replacement, loops);
                assert(strung(f, work, seq![&*lhs, &*rhs], entry, exit, replacement, loops));
                let cut = lemma_pair(f, work, &*lhs, &*rhs, entry, exit, replacement, loops);
                assert(work.contains(part(&*lhs, entry, cut, replacement, loops)));
            }
        },
        Expr::Ternary { cond, then_expr, else_expr, .. } => {
            let first = part(&*cond, entry, mid, None, loops);
            let second = part(&*then_expr, mid, exit, replacement, loops);
            let third = part(&*else_expr, mid, exit, replacement, loops);
            let g1 = with_task(g0, first);
            let g2 = with_task(g1, second);
            lemma_task(g0, first);
            lemma_task(g1, second);
            lemma_task(g2, third);
            lemma_grows(g, g0, g1);
            lemma_grows(g, g1, g2);
            lemma_grows(g, g2, h);
            assert(g2.tasks.contains(first));
            assert(h.tasks.contains(first) && h.tasks.contains(second));
            assert(work.contains(part(&*cond, entry, mid, None, loops)));
        },
        Expr::Match { subject, arms, .. } => {
            let first = part(&*subject, entry, mid, None, loops);
            let g1 = with_task(g0, first);
            let more = Seq::new(
                arms@.len(),
                |i: int| Task::MatchArm { arm: &arms@[i], entry: mid, exit, loops },
            );
            lemma_task(g0, first);
            lemma_grows(g, g0, g1);
            assert(h.tasks == g1.tasks + more);
            assert(extends(g1, h));
            lemma_added(g1, h, more);
            lemma_grows(g, g1, h);
            assert(h.tasks.contains(first));
            assert forall|i: int| 0 <= i < arms@.len() implies work.contains(
                Task::MatchArm { arm: &#[trigger] arms@[i], entry: mid, exit, loops },
            ) by {
                assert(h.tasks.contains(more[i]));
            }
            assert(work.contains(part(&*subject, entry, mid, None, loops)));
        },
        _ => {},
    }
}

proof fn lemma_calling<'a>(
    g: GraphView<'a>,
    expr: &'a Expr,
    entry: usize,
    exit: usize,
    replacement: Option<&'a Place>,
    loops: LoopTargets,
    h: GraphView<'a>,
    f: GraphView<'a>,
    work: Set<Task<'a>>,
)
    requires
        *expr is Call || *expr is MethodCall || *expr is FuncLit,
        entry < g.nodes.len(),
        step_expr(g, expr, entry, exit, replacement, loops) == Ok::<GraphView<'a>, ErrorView>(h),
        h.nodes.len() <= usize::MAX,
        extends(h, f),
        among(h.tasks, work),
    ensures
        grows(g, h),
        wired_expr(f, work, expr, entry, exit, replacement, loops),
{
    lemma_loan_of(expr);
    if let Expr::FuncLit { captures, .. } = *expr {
        let g1 = GraphView { nested_functions: g.nested_functions.push(expr), ..g };
        let span = expr.spec_span();
        assert(extends(g, g1)) by {
            let list = g.nested_functions;
            assert forall|e: &'a Expr| #[trigger] list.contains(e) implies g1.nested_functions.contains(
                e,
            ) by {
                let k = choose|k: int| 0 <= k < list.len() && list[k] == e;
                assert(g1.nested_functions[k] == e);
            }
            assert forall|i: usize, s: usize| #[trigger] leads(g, i, s) implies leads(g1, i, s) by {}
        }
        assert(g1.nested_functions[g.nested_functions.len() as int] == expr);
        assert(g1.nested_functions.contains(expr));
        assert(grows(g, g1));
        if captures@.len() == 0 {
            lemma_edge(g1, entry, exit);
            lemma_grows(g, g1, h);
        } else {
            let cuts = lemma_captures(g1, captures@, 0, entry, exit, span);
            lemma_grows(g, g1, h);
            assert forall|i: int| 0 <= i < captures@.len() implies done_between(
                f,
                cuts[i],
                Action::Read((#[trigger] captures@[i]).binding_id, AccessKind::Read, span),
                cuts[i + 1],
            ) by {
                lemma_done(
                    h,
                    f,
                    cuts[i - 0],
                    Action::Read(captures@[i].binding_id, AccessKind::Read, span),
                    cuts[i - 0 + 1],
                );
            }
            assert(captures_at(f, captures@, cuts, span));
        }
    } else {
        match handed_loan(expr) {
            None => lemma_call(g, expr, entry, exit, replacement, loops, h, f, work),
            Some((loan_id, source, kind)) => {
                let mid = next(g);
                let g0 = with_node(g, Action::Nop);
                let action = Action::Borrow {
                    loan_id,
                    source,
                    declared_kind: kind,
                    span: expr.spec_span(),
                };
                let g1 = with_action(g0, mid, exit, action);
                lemma_call_len(g1, expr, entry, mid, replacement, loops, h);
                lemma_node(g, Action::Nop);
                lemma_action(g0, mid, exit, action);
                lemma_grows(g, g0, g1);
                lemma_call(g1, expr, entry, mid, replacement, loops, h, f, work);
                lemma_grows(g, g1, h);
                lemma_extends(g1, h, f);
                lemma_done(g1, f, mid, action, exit);
            },
        }
    }
}

proof fn lemma_call_len<'a>(
    g: GraphView<'a>,
    expr: &'a Expr,
    entry: usize,
    exit: usize,
    replacement: Option<&'a Place>,
    loops: LoopTargets,
    h: GraphView<'a>,
)
    requires
        step_call(g, expr, entry, exit, replacement, loops) == Ok::<GraphView<'a>, ErrorView>(h),
    ensures
        g.nodes.len() <= h.nodes.len(),
{
}

proof fn lemma_expr<'a>(
    g: GraphView<'a>,
    expr: &'a Expr,
    entry: usize,
    exit: usize,
    replacement: Option<&'a Place>,
    loops: LoopTargets,
    h: GraphView<'a>,
    f: GraphView<'a>,
    work: Set<Task<'a>>,
)
    requires
        entry < g.nodes.len(),
        step_expr(g, expr, entry, exit, replacement, loops) == Ok::<GraphView<'a>, ErrorView>(h),
        h.nodes.len() <= usize::MAX,
        extends(h, f),
        among(h.tasks, work),
    ensures
        grows(g, h),
        wired_expr(f, work, expr, entry, exit, replacement, loops),
{
    match *expr {
        Expr::Binary { .. } | Expr::Ternary { .. } | Expr::Match { .. } => {
            lemma_forked(g, expr, entry, exit, replacement, loops, h, f, work);
        },
        Expr::Call { .. } | Expr::MethodCall { .. } | Expr::FuncLit { .. } => {
            lemma_calling(g, expr, entry, exit, replacement, loops, h, f, work);
        },
        Expr::Ident(..)
        | Expr::Move { .. }
        | Expr::Int(..)
        | Expr::Float(..)
        | Expr::Bool(..)
        | Expr::This(..)
        | Expr::Typeof { .. }
        | Expr::ReadPlace { .. }
        | Expr::Borrow { .. }
        | Expr::Refer { .. } => {
            lemma_leaf(g, expr, entry, exit, replacement, loops, h, f, work);
        },
        _ => {
            lemma_single(g, expr, entry, exit, replacement, loops, h, f, work);
        },
    }
}

proof fn lemma_branches<'a>(
    g: GraphView<'a>,
    branches: Seq<(Expr, Vec<Stmt>)>,
    else_body: Option<Vec<Stmt>>,
    i: int,
    entry: usize,
    exit: usize,
    loops: LoopTargets,
    h: GraphView<'a>,
    f: GraphView<'a>,
    work: Set<Task<'a>>,
) -> (cuts: Seq<usize>)
    requires
        0 <= i <= branches.len(),
        entry < g.nodes.len(),
        with_branches(g, branches, else_body, i, entry, exit, loops) == h,
        h.nodes.len() <= usize::MAX,
        extends(h, f),
        among(h.tasks, work),
    ensures
        grows(g, h),
        cuts.len() == branches.len() - i + 1,
        cuts[0] == entry,
        forall|j: int|
            i <= j < branches.len() ==> work.contains(
                part(&(#[trigger] branches[j]).0, cuts[j - i], cuts[j - i + 1], None, loops),
            ) && work.contains(
                Task::Stmts { stmts: &branches[j].1, entry: cuts[j - i + 1], exit, loops },
            ),
        match else_body {
            Some(body) => work.contains(
                Task::Stmts { stmts: &body, entry: cuts[branches.len() - i], exit, loops },
            ),
            None => leads(f, cuts[branches.len() - i], exit),
        },
    decreases branches.len() - i,
{
    if i >= branches.len() {
        match else_body {
            Some(body) => {
                lemma_task(g, Task::Stmts { stmts: &body, entry, exit, loops });
            },
            None => {
                lemma_edge(g, entry, exit);
            },
        }
        seq![entry]
    } else {
        let mid = next(g);
        let g0 = with_node(g, Action::Nop);
        let first = part(&branches[i].0, entry, mid, None, loops);
        let second = Task::Stmts { stmts: &branches[i].1, entry: mid, exit, loops };
        let g1 = with_task(g0, first);
        let g2 = with_task(g1, second);
        lemma_branches_len(g2, branches, else_body, i + 1, mid, exit, loops);
        lemma_node(g, Action::Nop);
        lemma_task(g0, first);
        lemma_task(g1, second);
        lemma_grows(g, g0, g1);
        lemma_grows(g, g1, g2);
        let rest = lemma_branches(
            g2,
            branches,
            else_body,
            i + 1,
            mid,
            exit,
            loops,
            h,
            f,
            work,
        );
        lemma_grows(g, g2, h);
        assert(g2.tasks.contains(first));
        assert(h.tasks.contains(first) && h.tasks.contains(second));
        let cuts = seq![entry] + rest;
        assert forall|j: int| i <= j < branches.len() implies work.contains(
            part(&(#[trigger] branches[j]).0, cuts[j - i], cuts[j - i + 1], None, loops),
        ) && work.contains(
            Task::Stmts { stmts: &branches[j].1, entry: cuts[j - i + 1], exit, loops },
        ) by {
            if j == i {
                assert(cuts[1] == rest[0]);
            } else {
                assert(cuts[j - i] == rest[j - (i + 1)]);
                assert(cuts[j - i + 1] == rest[j - (i + 1) + 1]);
            }
        }
        assert(cuts[branches.len() - i] == rest[branches.len() - (i + 1)]);
        cuts
    }
}

proof fn lemma_branches_len<'a>(
    g: GraphView<'a>,
    branches: Seq<(Expr, Vec<Stmt>)>,
    else_body: Option<Vec<Stmt>>,
    i: int,
    entry: usize,
    exit: usize,
    loops: LoopTargets,
)
    requires
        0 <= i <= branches.len(),
    ensures
        with_branches(g, branches, else_body, i, entry, exit, loops).nodes.len() >= g.nodes.len(),
    decreases branches.len() - i,
{
    if i < branches.len() {
        let mid = next(g);
        let g1 = with_task(
            with_node(g, Action::Nop),
            expr_task(&branches[i].0, entry, mid, None, loops),
        );
        let g2 = with_task(g1, Task::Stmts { stmts: &branches[i].1, entry: mid, exit, loops });
        lemma_branches_len(g2, branches, else_body, i + 1, mid, exit, loops);
    }
}

proof fn lemma_binding<'a>(
    g: GraphView<'a>,
    stmt: &'a Stmt,
    entry: usize,
    exit: usize,
    loops: LoopTargets,
    h: GraphView<'a>,
    f: GraphView<'a>,
    work: Set<Task<'a>>,
)
    requires
        *stmt is Binding,
        entry < g.nodes.len(),
        step_stmt(g, stmt, entry, exit, loops) == Ok::<GraphView<'a>, ErrorView>(h),
        h.nodes.len() <= usize::MAX,
        extends(h, f),
        among(h.tasks, work),
    ensures
        grows(g, h),
        wired_stmt(f, work, stmt, entry, exit, loops),
{
    if let Stmt::Binding(binding) = *stmt {
        let mid = next(g);
        let id = binding.binding_id;
        let g0 = with_node(g, Action::Nop);
        let value = part(&binding.value, entry, mid, None, loops);
        let g1 = with_task(g0, value);
        lemma_node(g, Action::Nop);
        lemma_task(g0, value);
        lemma_grows(g, g0, g1);
        lemma_loan_of(&binding.value);
        match binding.relation {
            Some(StorageRelation::Borrowed) => {
                let loan = (borrow_of(&binding.value)->0).0;
                let g2 = GraphView { borrowed: g1.borrowed.insert(id), ..g1 };
                assert(grows(g1, g2)) by {
                    assert forall|i: usize, s: usize| #[trigger] leads(g1, i, s) implies leads(
                        g2,
                        i,
                        s,
                    ) by {}
                }
                let action = Action::BindLoan(id, loan);
                lemma_action(g2, mid, exit, action);
                lemma_grows(g, g1, g2);
                lemma_grows(g, g2, h);
                lemma_extends(g2, h, f);
                lemma_done(h, f, mid, action, exit);
                assert(g2.borrowed.contains(id));
                assert(g2.tasks.contains(value));
                assert(h.tasks.contains(value));
            },
            Some(StorageRelation::Owning) => {
                let g2 = GraphView { owning: g1.owning.insert(id), ..g1 };
                assert(grows(g1, g2)) by {
                    assert forall|i: usize, s: usize| #[trigger] leads(g1, i, s) implies leads(
                        g2,
                        i,
                        s,
                    ) by {}
                }
                lemma_grows(g, g1, g2);
                if owns_storage(binding.ty@) {
                    let g3 = GraphView { eligible: g2.eligible.insert(id), ..g2 };
                    assert(grows(g2, g3)) by {
                        assert forall|i: usize, s: usize| #[trigger] leads(g2, i, s) implies leads(
                            g3,
                            i,
                            s,
                        ) by {}
                    }
                    let action = Action::Declare(id);
                    lemma_action(g3, mid, exit, action);
                    lemma_grows(g, g2, g3);
                    lemma_grows(g, g3, h);
                    lemma_extends(g3, h, f);
                    lemma_done(h, f, mid, action, exit);
                    assert(g3.owning.contains(id) && g3.eligible.contains(id));
                    assert(g3.tasks.contains(value));
                } else {
                    lemma_edge(g2, mid, exit);
                    lemma_grows(g, g2, h);
                    lemma_extends(g2, h, f);
                    assert(g2.owning.contains(id));
                    assert(g2.tasks.contains(value));
                }
                assert(h.tasks.contains(value));
            },
            None => {
                lemma_edge(g1, mid, exit);
                lemma_grows(g, g1, h);
                assert(h.tasks.contains(value));
            },
        }
        assert(work.contains(part(&binding.value, entry, mid, None, loops)));
    }
}

proof fn lemma_assign<'a>(
    g: GraphView<'a>,
    stmt: &'a Stmt,
    entry: usize,
    exit: usize,
    loops: LoopTargets,
    h: GraphView<'a>,
    f: GraphView<'a>,
    work: Set<Task<'a>>,
)
    requires
        *stmt is Assign,
        entry < g.nodes.len(),
        step_stmt(g, stmt, entry, exit, loops) == Ok::<GraphView<'a>, ErrorView>(h),
        h.nodes.len() <= usize::MAX,
        extends(h, f),
        among(h.tasks, work),
    ensures
        grows(g, h),
        wired_stmt(f, work, stmt, entry, exit, loops),
{
    if let Stmt::Assign { target, value, .. } = *stmt {
        let mid = next(g);
        let g1 = with_node(g, Action::Nop);
        let end = next(g1);
        let g2 = with_node(g1, Action::Nop);
        let first = part(&value, entry, mid, Some(&target), loops);
        let second = Task::PlaceEval {
            place: &target,
            entry: mid,
            exit: end,
            loops,
            mode: PlaceEvalMode {
                read_root: false,
                exposes_alias: true,
                access: AccessKind::Write,
            },
        };
        let g3 = with_task(g2, first);
        let g4 = with_task(g3, second);
        lemma_node(g, Action::Nop);
        lemma_node(g1, Action::Nop);
        lemma_task(g2, first);
        lemma_task(g3, second);
        lemma_grows(g, g1, g2);
        lemma_grows(g, g2, g3);
        lemma_grows(g, g3, g4);
        assert(g4.tasks.contains(first) && g4.tasks.contains(second));
        lemma_loan_of(&value);
        let id = place_root(target);
        let span = target.spec_span();
        if target is Local && g.borrowed.contains(id) {
            let loan = (borrow_of(&value)->0).0;
            let action = Action::BindLoan(id, loan);
            lemma_action(g4, end, exit, action);
            lemma_extends(g4, h, f);
            lemma_done(h, f, end, action, exit);
            assert(f.borrowed.contains(id));
        } else if target is Local && value.spec_value_category() == Some(
            ValueCategory::OwnedTemporary,
        ) && g.eligible.contains(id) {
            let action = Action::Reinitialize(id, span);
            lemma_action(g4, end, exit, action);
            lemma_extends(g4, h, f);
            lemma_done(h, f, end, action, exit);
            assert(f.eligible.contains(id));
        } else {
            let last = next(g4);
            let g5 = with_node(g4, Action::Nop);
            lemma_node(g4, Action::Nop);
            let action = Action::Write(&target, span);
            let through = g.borrowed.contains(id);
            let g6 = if through {
                with_edge(g5, end, last)
            } else {
                with_action(g5, end, last, action)
            };
            if through {
                lemma_edge(g5, end, last);
            } else {
                lemma_action(g5, end, last, action);
            }
            lemma_edge(g6, last, exit);
            lemma_grows(g4, g5, g6);
            lemma_grows(g4, g6, h);
            lemma_extends(g4, h, f);
            lemma_extends(g6, h, f);
            assert(leads(f, last, exit));
            if through {
                assert(leads(f, end, last));
                assert(f.borrowed.contains(id));
            } else {
                lemma_done(g6, f, end, action, last);
            }
        }
        lemma_grows(g, g4, h);
        assert(h.tasks.contains(first) && h.tasks.contains(second));
        assert(wired_write(f, &target, &value, end, exit));
        assert(work.contains(part(&value, entry, mid, Some(&target), loops)));
        let linked = leads(f, end, exit);
    }
}

proof fn lemma_loop<'a>(
    g: GraphView<'a>,
    stmt: &'a Stmt,
    entry: usize,
    exit: usize,
    loops: LoopTargets,
    h: GraphView<'a>,
    f: GraphView<'a>,
    work: Set<Task<'a>>,
)
    requires
        *stmt is While || *stmt is For,
        entry < g.nodes.len(),
        step_stmt(g, stmt, entry, exit, loops) == Ok::<GraphView<'a>, ErrorView>(h),
        h.nodes.len() <= usize::MAX,
        extends(h, f),
        among(h.tasks, work),
    ensures
        grows(g, h),
        wired_stmt(f, work, stmt, entry, exit, loops),
{
    let header = next(g);
    let g1 = with_node(g, Action::Nop);
    let inner = LoopTargets { break_target: Some(exit), continue_target: Some(header) };
    lemma_node(g, Action::Nop);
    match *stmt {
        Stmt::While { cond, body } => {
            let test = next(g1);
            let g2 = with_node(g1, Action::Nop);
            let end = next(g2);
            let g2b = with_node(g2, Action::Nop);
            let g3 = with_edge(g2b, entry, header);
            let first = part(&cond, header, test, None, loops);
            let g4 = with_task(g3, first);
            let g4b = with_edge(g4, test, exit);
            let second = Task::Stmts { stmts: &body, entry: test, exit: end, loops: inner };
            let g5 = with_task(g4b, second);
            lemma_node(g1, Action::Nop);
            lemma_node(g2, Action::Nop);
            lemma_edge(g2b, entry, header);
            lemma_task(g3, first);
            lemma_edge(g4, test, exit);
            lemma_task(g4b, second);
            lemma_edge(g5, end, header);
            lemma_grows(g, g1, g2);
            lemma_grows(g, g2, g2b);
            lemma_grows(g, g2b, g3);
            lemma_grows(g3, g4, g4b);
            lemma_grows(g3, g4b, g5);
            lemma_grows(g3, g5, h);
            lemma_grows(g, g3, h);
            lemma_extends(g3, h, f);
            assert(leads(f, entry, header));
            assert(leads(g5, test, exit));
            assert(leads(f, test, exit));
            assert(leads(f, end, header));
            assert(g5.tasks.contains(first) && g5.tasks.contains(second));
            assert(h.tasks.contains(first) && h.tasks.contains(second));
        },
        Stmt::For { iterable, body, .. } => {
            let end = next(g1);
            let g1b = with_node(g1, Action::Nop);
            let first = part(&iterable, entry, header, None, loops);
            let g2 = with_task(g1b, first);
            let g2b = with_edge(g2, header, exit);
            let second = Task::Stmts { stmts: &body, entry: header, exit: end, loops: inner };
            let g3 = with_task(g2b, second);
            lemma_node(g1, Action::Nop);
            lemma_task(g1b, first);
            lemma_edge(g2, header, exit);
            lemma_task(g2b, second);
            lemma_edge(g3, end, header);
            lemma_grows(g, g1, g1b);
            lemma_grows(g, g1b, g2);
            lemma_grows(g2, g2b, g3);
            lemma_grows(g2, g3, h);
            lemma_grows(g, g2, h);
            assert(leads(g3, header, exit));
            assert(leads(f, header, exit));
            assert(leads(f, end, header));
            assert(g3.tasks.contains(first) && g3.tasks.contains(second));
            assert(h.tasks.contains(first) && h.tasks.contains(second));
        },
        _ => {},
    }
}

proof fn lemma_stmt<'a>(
    g: GraphView<'a>,
    stmt: &'a Stmt,
    entry: usize,
    exit: usize,
    loops: LoopTargets,
    h: GraphView<'a>,
    f: GraphView<'a>,
    work: Set<Task<'a>>,
)
    requires
        entry < g.nodes.len(),
        step_stmt(g, stmt, entry, exit, loops) == Ok::<GraphView<'a>, ErrorView>(h),
        h.nodes.len() <= usize::MAX,
        extends(h, f),
        among(h.tasks, work),
    ensures
        grows(g, h),
        wired_stmt(f, work, stmt, entry, exit, loops),
{
    match *stmt {
        Stmt::Binding(_) => lemma_binding(g, stmt, entry, exit, loops, h, f, work),
        Stmt::Assign { .. } => lemma_assign(g, stmt, entry, exit, loops, h, f, work),
        Stmt::While { .. } => lemma_loop(g, stmt, entry, exit, loops, h, f, work),
        Stmt::For { .. } => lemma_loop(g, stmt, entry, exit, loops, h, f, work),
        Stmt::Expr { expr } => lemma_task(g, part(&expr, entry, exit, None, loops)),
        Stmt::Return { value } => match value {
            Some(value) => lemma_task(g, part(&value, entry, g.return_sink, None, loops)),
            None => lemma_edge(g, entry, g.return_sink),
        },
        Stmt::If { branches, else_body } => {
            let cuts = lemma_branches(
                g,
                branches@,
                else_body,
                0,
                entry,
                exit,
                loops,
                h,
                f,
                work,
            );
            assert forall|i: int| 0 <= i < branches@.len() implies work.contains(
                part(&(#[trigger] branches@[i]).0, cuts[i], cuts[i + 1], None, loops),
            ) && work.contains(
                Task::Stmts { stmts: &branches@[i].1, entry: cuts[i + 1], exit, loops },
            ) by {
                assert(cuts[i - 0] == cuts[i] && cuts[i - 0 + 1] == cuts[i + 1]);
            }
            assert(wired_branches(f, work, branches@, else_body, cuts, exit, loops));
        },
        Stmt::Break => lemma_edge(g, entry, loops.break_target->0),
        Stmt::Continue => lemma_edge(g, entry, loops.continue_target->0),
    }
}

proof fn lemma_step<'a>(
    g: GraphView<'a>,
    task: Task<'a>,
    h: GraphView<'a>,
    f: GraphView<'a>,
    work: Set<Task<'a>>,
)
    requires
        start(task) < g.nodes.len(),
        step_task(g, task) == Ok::<GraphView<'a>, ErrorView>(h),
        h.nodes.len() <= usize::MAX,
        extends(h, f),
        among(h.tasks, work),
    ensures
        grows(g, h),
        wired(f, work, task),
{
    match task {
        Task::Expr { expr, entry, exit, replacement, loops } => lemma_expr(
            g,
            expr,
            entry,
            exit,
            replacement,
            loops,
            h,
            f,
            work,
        ),
        Task::Stmt { stmt, entry, exit, loops } => lemma_stmt(
            g,
            stmt,
            entry,
            exit,
            loops,
            h,
            f,
            work,
        ),
        Task::Stmts { stmts, entry, exit, loops } => {
            lemma_stmts(g, stmts@, entry, exit, loops);
            assert(lined_up(f, work, stmts@, entry, exit, loops));
        },
        Task::Body { body, entry, exit, loops } => match *body {
            Body::Block(stmts) => lemma_task(g, Task::Stmts { stmts: &stmts, entry, exit, loops }),
            Body::Single(stmt) => lemma_task(g, Task::Stmt { stmt: &*stmt, entry, exit, loops }),
        },
        Task::MatchArm { arm, entry, exit, loops } => match arm.body {
            ArmBody::Block(stmts) => lemma_task(
                g,
                Task::Stmts { stmts: &stmts, entry, exit, loops },
            ),
            ArmBody::Value(value) => lemma_task(g, part(&*value, entry, exit, None, loops)),
            ArmBody::Ret(value) => lemma_task(
                g,
                part(&*value, entry, g.return_sink, None, loops),
            ),
        },
        Task::PlaceEval { place, entry, exit, loops, mode } => lemma_place(
            g,
            place,
            entry,
            exit,
            loops,
            mode,
            f,
            work,
        ),
    }
}

/// Everything that still is to be built starts in the graph.
spec fn ready<'a>(g: GraphView<'a>) -> bool {
    forall|t: Task<'a>| #[trigger] g.tasks.contains(t) ==> start(t) < g.nodes.len()
}

/// What is looked at from a graph on.
spec fn work_from<'a>(g: GraphView<'a>) -> Set<Task<'a>>
    decreases tasks_weight(g.tasks),
{
    if g.tasks.len() == 0 {
        Set::empty()
    } else {
        proof {
            lemma_step_weight(g);
        }
        match step(g) {
            Err(_) => Set::empty(),
            Ok(after) => work_from(after).insert(g.tasks.last()),
        }
    }
}

#[verifier::rlimit(50)]
#[verifier::spinoff_prover]
proof fn lemma_len<'a>(g: GraphView<'a>, task: Task<'a>, h: GraphView<'a>)
    requires
        step_task(g, task) == Ok::<GraphView<'a>, ErrorView>(h),
    ensures
        g.nodes.len() <= h.nodes.len(),
{
    match task {
        Task::Expr { expr, entry, exit, replacement, loops } => match *expr {
            Expr::FuncLit { captures, .. } => {
                let g1 = GraphView { nested_functions: g.nested_functions.push(expr), ..g };
                if captures@.len() > 0 {
                    lemma_captures_len(g1, captures@, 0, entry, exit, expr.spec_span());
                }
            },
            _ => {},
        },
        Task::Stmt { stmt, entry, exit, loops } => match *stmt {
            Stmt::If { branches, else_body } => lemma_branches_len(
                g,
                branches@,
                else_body,
                0,
                entry,
                exit,
                loops,
            ),
            _ => {},
        },
        _ => {},
    }
}

proof fn lemma_built_len<'a>(g: GraphView<'a>, f: GraphView<'a>)
    requires
        built(g) == Ok::<GraphView<'a>, ErrorView>(f),
    ensures
        g.nodes.len() <= f.nodes.len(),
    decreases tasks_weight(g.tasks),
{
    if g.tasks.len() > 0 {
        lemma_step_weight(g);
        let rest = GraphView { tasks: g.tasks.drop_last(), ..g };
        let h = step(g)->Ok_0;
        lemma_len(rest, g.tasks.last(), h);
        lemma_built_len(h, f);
    }
}

proof fn lemma_built<'a>(g: GraphView<'a>, f: GraphView<'a>, work: Set<Task<'a>>)
    requires
        built(g) == Ok::<GraphView<'a>, ErrorView>(f),
        f.nodes.len() <= usize::MAX,
        ready(g),
        work_from(g).subset_of(work),
    ensures
        extends(g, f),
        among(g.tasks, work_from(g)),
        forall|t: Task<'a>| #[trigger] work_from(g).contains(t) ==> wired(f, work, t),
    decreases tasks_weight(g.tasks),
{
    if g.tasks.len() > 0 {
        lemma_step_weight(g);
        let task = g.tasks.last();
        let rest = GraphView { tasks: g.tasks.drop_last(), ..g };
        let h = step(g)->Ok_0;
        let less = work_from(h);
        assert(g.tasks[g.tasks.len() - 1] == task);
        assert(g.tasks.contains(task));
        assert(work_from(g) == less.insert(task));
        lemma_built_len(h, f);
        assert(extends(h, h));
        let own = h.tasks.to_set();
        assert(among(h.tasks, own));
        lemma_step(rest, task, h, h, own);
        assert(ready(h)) by {
            assert forall|t: Task<'a>| #[trigger] h.tasks.contains(t) implies start(t)
                < h.nodes.len() by {
                if rest.tasks.contains(t) {
                    let k = choose|k: int| 0 <= k < rest.tasks.len() && rest.tasks[k] == t;
                    assert(g.tasks[k] == t);
                    assert(g.tasks.contains(t));
                }
            }
        }
        assert(less.subset_of(work));
        lemma_built(h, f, work);
        assert(among(h.tasks, work));
        lemma_step(rest, task, h, f, work);
        assert forall|t: Task<'a>| #[trigger] g.tasks.contains(t) implies work_from(g).contains(
            t,
        ) by {
            if t != task {
                let k = choose|k: int| 0 <= k < g.tasks.len() && g.tasks[k] == t;
                assert(rest.tasks[k] == t);
                assert(rest.tasks.contains(t));
                assert(h.tasks.contains(t));
            }
        }
        assert(extends(g, rest));
        lemma_extends(g, rest, h);
        lemma_extends(g, h, f);
    }
}

/// Every piece of work is wired in the graph, and so is all that it asks for.
pub open spec fn all_wired<'a>(g: GraphView<'a>, work: Set<Task<'a>>) -> bool {
    forall|t: Task<'a>| #[trigger] work.contains(t) ==> wired(g, work, t)
}

/// The graph of a piece of a program holds all that the piece does: every read, copy, loan, move
/// and write in its place, every branch, the way round every loop and the way out of it.
pub proof fn law_graphs_hold_what_programs_do<'a>(
    g: GraphView<'a>,
    task: Task<'a>,
    f: GraphView<'a>,
)
    requires
        g.tasks.len() == 0,
        start(task) < g.nodes.len(),
        built(with_task(g, task)) == Ok::<GraphView<'a>, ErrorView>(f),
        f.nodes.len() <= usize::MAX,
    ensures
        exists|work: Set<Task<'a>>| work.contains(task) && #[trigger] all_wired(f, work),
{
    let first = with_task(g, task);
    let work = work_from(first);
    lemma_task(g, task);
    assert(ready(first)) by {
        assert forall|t: Task<'a>| #[trigger] first.tasks.contains(t) implies start(t)
            < first.nodes.len() by {
            let k = choose|k: int| 0 <= k < first.tasks.len() && first.tasks[k] == t;
        }
    }
    lemma_built(first, f, work);
    assert(all_wired(f, work));
    assert(work.contains(task));
}

/// Where the variable of a place is known to be an alias, to evaluate the place for writing is to
/// use the alias for writing, and to read it is to use it for reading.
pub proof fn law_aliases_are_used_on_the_way<'a>(
    g: GraphView<'a>,
    place: &'a Place,
    entry: usize,
    exit: usize,
    loops: LoopTargets,
    mode: PlaceEvalMode,
)
    requires
        entry < g.nodes.len(),
        step_place(g, place, entry, exit, loops, mode).nodes.len() <= usize::MAX,
        g.borrowed.contains(place_root(*place)),
        !(*place is Local) || mode.read_root,
    ensures
        exists|to: usize| #[trigger]
            done_between(
                step_place(g, place, entry, exit, loops, mode),
                entry,
                Action::Read(place_root(*place), mode.access, root_place(place).spec_info().span),
                to,
            ),
{
    let h = step_place(g, place, entry, exit, loops, mode);
    let root = root_place(place);
    lemma_root_place(place);
    let action = root_action(g, place, root, mode);
    if *place is Local {
        lemma_action(g, entry, exit, action);
        assert(done_between(h, entry, action, exit));
    } else {
        let mid = next(g);
        let g1 = with_node(g, Action::Nop);
        let g2 = with_action(g1, entry, mid, action);
        lemma_node(g, Action::Nop);
        lemma_action(g1, entry, mid, action);
        lemma_sequence(g2, place_indices(place), mid, exit, None, loops);
        lemma_done(g2, h, entry, action, mid);
    }
}

} // verus!
