//! Writing facts into a program.
//!
//! A pass first looks at every node and settles what to write; the marks then stand in the order of
//! the walk, one for each node. Writing them changes no node in any other way, and no node moves.

use crate::model::{
    ArgumentPass, ArmBody, AssignmentOperation, Binding, BindingOperation, Body, BorrowKind,
    CallArg, CallResult, Capture, CheckedProgram, DeepClonePlan, DestroyPlan, Expr, ExprCategory,
    ExprInfo, Item, MatchArm, MethodTarget, OwnershipCapability, OwningWrite, Param, Pattern,
    PatternBindingOperation, Place, PlaceInfo, ResolvedConversion, ReturnPass,
    RuntimeCheckRequirement, Stmt, StorageRelation, StrPart, StructField, ValueCategory, with_info,
};
use crate::structs::{field_types, items_map};
use crate::types::{BindingId, FunctionId, ParamEffect, ReturnEffect, Span, Ty};
use crate::visit::{
    Node, Position, Visit, Walk, arg_walks, arm_walks, branch_walks, call_position, elem_walks,
    expr_visit, inner_position, method_position, part_walks, program_walk, stmt_visit, stmt_walks,
    walk_body, walk_expr, walk_item, walk_place, walk_stmt,
};
use vstd::prelude::*;

verus! {

/// What is to be written at one node.
#[allow(inconsistent_fields)]
pub enum Mark {
    /// Nothing.
    Keep,
    /// The kind of the loan that an alias or a pointer stands for.
    Kind(BorrowKind),
    /// How the value enters the container it stands in.
    Container(OwningWrite),
    /// How the variables of the arms of a match get their values.
    Arms(Vec<Option<PatternBindingOperation>>),
    /// How a variable gets its first value and how it is torn down.
    Slot { operation: BindingOperation, destroy_plan: DestroyPlan },
    /// How an assignment replaces a value and how the old one is torn down.
    Write { operation: AssignmentOperation, destroy_plan: DestroyPlan },
    /// What a function takes from its surroundings.
    Captures(Vec<Capture>),
    /// How the receiver and the arguments of a call are passed, and the parameter effects of a
    /// method.
    Passes {
        receiver: Option<ArgumentPass>,
        effects: Option<Vec<ParamEffect>>,
        args: Vec<ArgumentPass>,
    },
    /// What a function does to its parameters and hands back; on a function literal also what
    /// it does to the parameters that it names.
    Signature {
        effects: Option<Vec<ParamEffect>>,
        handed: Option<ReturnEffect>,
        params: Vec<ParamEffect>,
    },
    /// How a value is returned, what a call hands back, and the return effect of a method.
    Outcome {
        pass: Option<ReturnPass>,
        result: Option<CallResult>,
        effect: Option<ReturnEffect>,
    },
    /// What the slot of a variable holds.
    Relation(Option<StorageRelation>),
}

/// Some value. It stands where a part of a node has been taken out.
pub open spec fn nothing<T>() -> T {
    arbitrary()
}

pub enum PlaceStep {
    Root(BindingId, PlaceInfo),
    Field(usize, PlaceInfo),
    Index(RuntimeCheckRequirement, PlaceInfo),
}

/// A place without its index expressions, from the root outwards.
pub open spec fn place_shell(place: Place) -> Seq<PlaceStep>
    decreases place,
{
    match place {
        Place::Local { binding_id, info } => seq![PlaceStep::Root(binding_id, info)],
        Place::Field { base, field_index, info } => place_shell(*base).push(
            PlaceStep::Field(field_index, info),
        ),
        Place::Index { base, bounds_check, info, .. } => place_shell(*base).push(
            PlaceStep::Index(bounds_check, info),
        ),
    }
}

pub enum BodyShape {
    Absent,
    Block(nat),
    Single,
    Value,
    Ret,
}

pub open spec fn body_shape(body: Body) -> BodyShape {
    match body {
        Body::Block(stmts) => BodyShape::Block(stmts@.len()),
        Body::Single(_) => BodyShape::Single,
    }
}

pub struct ArmShell {
    pub pattern: Pattern,
    pub binding_id: Option<BindingId>,
    pub operation: Option<PatternBindingOperation>,
    pub body: BodyShape,
}

pub open spec fn arm_shell(arm: MatchArm) -> ArmShell {
    ArmShell {
        pattern: arm.pattern,
        binding_id: arm.binding_id,
        operation: arm.binding_operation,
        body: match arm.body {
            ArmBody::Block(stmts) => BodyShape::Block(stmts@.len()),
            ArmBody::Value(_) => BodyShape::Value,
            ArmBody::Ret(_) => BodyShape::Ret,
        },
    }
}

/// An expression without the nodes below it.
pub struct ExprShell {
    /// The expression, with its parts taken out.
    pub head: Expr,
    /// How the arguments of a call are passed.
    pub passes: Seq<Option<ArgumentPass>>,
    pub arms: Seq<ArmShell>,
    /// The literal parts of a string; a hole is left empty.
    pub parts: Seq<Option<String>>,
    pub params: Seq<Param>,
    /// The number of elements of an array.
    pub count: nat,
    pub body: BodyShape,
    pub place: Seq<PlaceStep>,
}

pub open spec fn expr_head(expr: Expr) -> Expr {
    match expr {
        Expr::Int(..) => expr,
        Expr::Float(..) => expr,
        Expr::Bool(..) => expr,
        Expr::Ident(..) => expr,
        Expr::This(..) => expr,
        Expr::Typeof { .. } => expr,
        Expr::Str(_, span, info) => Expr::Str(nothing(), span, info),
        Expr::Cast { span, info, .. } => Expr::Cast { expr: nothing(), span, info },
        Expr::Convert { mode, span, info, .. } => Expr::Convert {
            expr: nothing(),
            mode,
            span,
            info,
        },
        Expr::Binary { op, pointer_offset_source, span, info, .. } => Expr::Binary {
            op,
            lhs: nothing(),
            rhs: nothing(),
            pointer_offset_source,
            span,
            info,
        },
        Expr::Neg { span, info, .. } => Expr::Neg { expr: nothing(), span, info },
        Expr::Not { span, info, .. } => Expr::Not { expr: nothing(), span, info },
        Expr::BitNot { span, info, .. } => Expr::BitNot { expr: nothing(), span, info },
        Expr::Propagate { span, info, .. } => Expr::Propagate { expr: nothing(), span, info },
        Expr::Ternary { span, info, .. } => Expr::Ternary {
            cond: nothing(),
            then_expr: nothing(),
            else_expr: nothing(),
            span,
            info,
        },
        Expr::Call { result, target, span, info, .. } => Expr::Call {
            callee: nothing(),
            args: nothing(),
            result,
            target,
            span,
            info,
        },
        Expr::MethodCall { receiver_pass, result, target, span, info, .. } => Expr::MethodCall {
            recv: nothing(),
            receiver_pass,
            args: nothing(),
            result,
            target,
            span,
            info,
        },
        Expr::Field { field_index, span, info, .. } => Expr::Field {
            recv: nothing(),
            field_index,
            span,
            info,
        },
        Expr::Index { bounds_check, span, info, .. } => Expr::Index {
            recv: nothing(),
            idx: nothing(),
            bounds_check,
            span,
            info,
        },
        Expr::ArrayLit { span, info, .. } => Expr::ArrayLit { elems: nothing(), span, info },
        Expr::FuncLit { function_id, implicit_bindings, captures, span, info, .. } =>
            Expr::FuncLit {
                function_id,
                params: nothing(),
                implicit_bindings,
                captures,
                body: nothing(),
                span,
                info,
            },
        Expr::Match { span, info, .. } => Expr::Match {
            subject: nothing(),
            arms: nothing(),
            span,
            info,
        },
        Expr::ReadPlace { plan, span, info, .. } => Expr::ReadPlace {
            source: nothing(),
            plan,
            span,
            info,
        },
        Expr::Borrow { loan_id, kind, span, info, .. } => Expr::Borrow {
            loan_id,
            source: nothing(),
            kind,
            span,
            info,
        },
        Expr::Refer { loan_id, kind, span, info, .. } => Expr::Refer {
            loan_id,
            source: nothing(),
            kind,
            span,
            info,
        },
        Expr::Move { span, info, .. } => Expr::Move { source: nothing(), span, info },
    }
}

pub open spec fn arg_passes(args: Seq<CallArg>) -> Seq<Option<ArgumentPass>> {
    Seq::new(args.len(), |i: int| args[i].pass)
}

pub open spec fn arm_shells(arms: Seq<MatchArm>) -> Seq<ArmShell> {
    Seq::new(arms.len(), |i: int| arm_shell(arms[i]))
}

pub open spec fn part_shells(parts: Seq<StrPart>) -> Seq<Option<String>> {
    Seq::new(
        parts.len(),
        |i: int|
            match parts[i] {
                StrPart::Lit(text) => Some(text),
                StrPart::Hole(_) => None,
            },
    )
}

pub open spec fn expr_shell(expr: Expr) -> ExprShell {
    ExprShell {
        head: expr_head(expr),
        passes: match expr {
            Expr::Call { args, .. } => arg_passes(args@),
            Expr::MethodCall { args, .. } => arg_passes(args@),
            _ => Seq::empty(),
        },
        arms: match expr {
            Expr::Match { arms, .. } => arm_shells(arms@),
            _ => Seq::empty(),
        },
        parts: match expr {
            Expr::Str(parts, _, _) => part_shells(parts@),
            _ => Seq::empty(),
        },
        params: match expr {
            Expr::FuncLit { params, .. } => params@,
            _ => Seq::empty(),
        },
        count: match expr {
            Expr::ArrayLit { elems, .. } => elems@.len(),
            _ => 0,
        },
        body: match expr {
            Expr::FuncLit { body, .. } => body_shape(*body),
            _ => BodyShape::Absent,
        },
        place: match expr {
            Expr::ReadPlace { source, .. } => place_shell(*source),
            Expr::Borrow { source, .. } => place_shell(*source),
            Expr::Refer { source, .. } => place_shell(*source),
            Expr::Move { source, .. } => place_shell(*source),
            _ => Seq::empty(),
        },
    }
}

/// A binding without its initializer.
pub open spec fn binding_head(binding: Binding) -> Binding {
    Binding { value: nothing(), ..binding }
}

/// A statement without the nodes below it.
pub enum StmtShell {
    Binding(Binding),
    Assign {
        place: Seq<PlaceStep>,
        operation: Option<AssignmentOperation>,
        destroy_plan: Option<DestroyPlan>,
    },
    Expr,
    Return(bool),
    If { branches: Seq<nat>, else_body: Option<nat> },
    While(nat),
    For {
        binding_id: BindingId,
        ty: Ty,
        element_plan: DeepClonePlan,
        count: nat,
        span: Span,
    },
    Break,
    Continue,
}

pub open spec fn branch_shells(branches: Seq<(Expr, Vec<Stmt>)>) -> Seq<nat> {
    Seq::new(branches.len(), |i: int| branches[i].1@.len())
}

pub open spec fn stmt_shell(stmt: Stmt) -> StmtShell {
    match stmt {
        Stmt::Binding(binding) => StmtShell::Binding(binding_head(binding)),
        Stmt::Assign { target, operation, destroy_plan, .. } => StmtShell::Assign {
            place: place_shell(target),
            operation,
            destroy_plan,
        },
        Stmt::Expr { .. } => StmtShell::Expr,
        Stmt::Return { value } => StmtShell::Return(value is Some),
        Stmt::If { branches, else_body } => StmtShell::If {
            branches: branch_shells(branches@),
            else_body: match else_body {
                Some(body) => Some(body@.len()),
                None => None,
            },
        },
        Stmt::While { body, .. } => StmtShell::While(body@.len()),
        Stmt::For { binding_id, ty, element_plan, body, span, .. } => StmtShell::For {
            binding_id,
            ty,
            element_plan,
            count: body@.len(),
            span,
        },
        Stmt::Break => StmtShell::Break,
        Stmt::Continue => StmtShell::Continue,
    }
}

pub struct FieldShell {
    pub ty: Ty,
    pub mutable: bool,
    pub default: bool,
    pub span: Span,
}

pub enum ItemShell {
    Binding(Binding),
    StructDef { name: String, fields: Seq<FieldShell> },
}

pub open spec fn field_shells(fields: Seq<StructField>) -> Seq<FieldShell> {
    Seq::new(
        fields.len(),
        |i: int|
            FieldShell {
                ty: fields[i].ty,
                mutable: fields[i].mutable,
                default: fields[i].default is Some,
                span: fields[i].span,
            },
    )
}

pub open spec fn item_shell(item: Item) -> ItemShell {
    match item {
        Item::Binding(binding) => ItemShell::Binding(binding_head(*binding)),
        Item::StructDef(def) => ItemShell::StructDef {
            name: def.name,
            fields: field_shells(def.fields@),
        },
    }
}

/// A node without the nodes below it.
pub enum Shell {
    Item(ItemShell),
    Stmt(StmtShell),
    Expr(ExprShell),
    Leave,
}

pub open spec fn shell_of<'a>(visit: Visit<'a>) -> Shell {
    match visit.node {
        Node::Item(item) => Shell::Item(item_shell(*item)),
        Node::Stmt(stmt) => Shell::Stmt(stmt_shell(*stmt)),
        Node::Expr(expr, _) => Shell::Expr(expr_shell(*expr)),
        Node::Leave(_) => Shell::Leave,
    }
}

/// A function type with other effects recorded on it.
pub open spec fn with_signature(
    ty: Ty,
    effects: Option<Vec<ParamEffect>>,
    handed: Option<ReturnEffect>,
) -> Ty {
    match ty {
        Ty::Func { params, param_effects, ret, return_effect } => Ty::Func {
            params,
            param_effects: if effects is Some {
                effects
            } else {
                param_effects
            },
            ret,
            return_effect: if handed is Some {
                handed
            } else {
                return_effect
            },
        },
        _ => ty,
    }
}

/// What a call that hands back a value makes of the value.
pub open spec fn with_outcome(
    info: ExprInfo,
    pass: Option<ReturnPass>,
    result: Option<CallResult>,
) -> ExprInfo {
    let info = match pass {
        Some(pass) => ExprInfo { return_pass: Some(Box::new(pass)), ..info },
        None => info,
    };
    match result {
        Some(CallResult::Owned) => ExprInfo {
            category: Some(ExprCategory::Value(ValueCategory::OwnedTemporary)),
            ownership_capability: Some(OwnershipCapability::Available),
            ..info
        },
        Some(CallResult::Borrowed { .. }) => ExprInfo {
            category: Some(ExprCategory::Value(ValueCategory::BorrowedValue)),
            ownership_capability: Some(OwnershipCapability::Absent),
            ..info
        },
        _ => info,
    }
}

pub open spec fn marked_binding(mark: Mark, binding: Binding) -> Binding {
    match mark {
        Mark::Signature { effects, handed, .. } => Binding {
            ty: with_signature(binding.ty, effects, handed),
            ..binding
        },
        Mark::Relation(relation) => Binding { relation, ..binding },
        Mark::Slot { operation, destroy_plan } => Binding {
            operation: Some(operation),
            destroy_plan: Some(destroy_plan),
            ..binding
        },
        _ => binding,
    }
}

pub open spec fn marked_info(mark: Mark, info: ExprInfo) -> ExprInfo {
    match mark {
        Mark::Container(write) => ExprInfo { container_write: Some(write), ..info },
        Mark::Signature { effects, handed, .. } => ExprInfo {
            ty: with_signature(info.ty, effects, handed),
            ..info
        },
        Mark::Outcome { pass, result, .. } => with_outcome(info, pass, result),
        _ => info,
    }
}

/// A result with the kind of its loan written down.
pub open spec fn with_result_kind(handed: CallResult, inferred: BorrowKind) -> CallResult {
    match handed {
        CallResult::Borrowed { loan_id, source, source_writable, .. } => CallResult::Borrowed {
            loan_id,
            source,
            source_writable,
            kind: Some(inferred),
        },
        other => other,
    }
}

fn write_result_kind(inferred: BorrowKind, handed: &mut CallResult)
    ensures
        *final(handed) == with_result_kind(*old(handed), inferred),
{
    match handed {
        CallResult::Borrowed { kind, .. } => {
            *kind = Some(inferred);
        },
        _ => {},
    }
}

pub open spec fn marked_head(mark: Mark, head: Expr) -> Expr {
    match (mark, head) {
        (Mark::Kind(kind), Expr::Borrow { loan_id, source, span, info, .. }) => Expr::Borrow {
            loan_id,
            source,
            kind: Some(kind),
            span,
            info,
        },
        (Mark::Kind(kind), Expr::Refer { loan_id, source, span, info, .. }) => Expr::Refer {
            loan_id,
            source,
            kind: Some(kind),
            span,
            info,
        },
        (
            Mark::Kind(kind),
            Expr::Call { callee, args, result: Some(handed), target, span, info },
        ) => Expr::Call {
            callee,
            args,
            result: Some(Box::new(with_result_kind(*handed, kind))),
            target,
            span,
            info,
        },
        (
            Mark::Kind(kind),
            Expr::MethodCall {
                recv,
                receiver_pass,
                args,
                result: Some(handed),
                target,
                span,
                info,
            },
        ) => Expr::MethodCall {
            recv,
            receiver_pass,
            args,
            result: Some(Box::new(with_result_kind(*handed, kind))),
            target,
            span,
            info,
        },
        (
            Mark::Captures(list),
            Expr::FuncLit { function_id, params, implicit_bindings, body, span, info, .. },
        ) => Expr::FuncLit {
            function_id,
            params,
            implicit_bindings,
            captures: list,
            body,
            span,
            info,
        },
        (
            Mark::Passes { receiver, effects, .. },
            Expr::MethodCall { recv, args, result, target, span, info, .. },
        ) => Expr::MethodCall {
            recv,
            receiver_pass: receiver,
            args,
            result,
            target: match target {
                MethodTarget::User { receiver: ty, id, return_effect, .. } => MethodTarget::User {
                    receiver: ty,
                    id,
                    param_effects: effects,
                    return_effect,
                },
                _ => target,
            },
            span,
            info,
        },
        (
            Mark::Outcome { result: Some(handed), .. },
            Expr::Call { callee, args, target, span, info, .. },
        ) => Expr::Call {
            callee,
            args,
            result: Some(Box::new(handed)),
            target,
            span,
            info: marked_info(mark, info),
        },
        (
            Mark::Outcome { result: Some(handed), effect, .. },
            Expr::MethodCall { recv, receiver_pass, args, target, span, info, .. },
        ) => Expr::MethodCall {
            recv,
            receiver_pass,
            args,
            result: Some(Box::new(handed)),
            target: match target {
                MethodTarget::User { receiver, id, param_effects, .. } => MethodTarget::User {
                    receiver,
                    id,
                    param_effects,
                    return_effect: effect,
                },
                _ => target,
            },
            span,
            info: marked_info(mark, info),
        },
        _ => with_info(head, marked_info(mark, head.spec_info())),
    }
}

pub open spec fn marked_passes(mark: Mark, passes: Seq<Option<ArgumentPass>>) -> Seq<
    Option<ArgumentPass>,
> {
    match mark {
        Mark::Passes { args, .. } => Seq::new(
            passes.len(),
            |i: int|
                if i < args@.len() {
                    Some(args@[i])
                } else {
                    passes[i]
                },
        ),
        _ => passes,
    }
}

pub open spec fn marked_params(mark: Mark, list: Seq<Param>) -> Seq<Param> {
    match mark {
        Mark::Signature { params, .. } => Seq::new(
            list.len(),
            |i: int|
                if i < params@.len() {
                    Param { effect: Some(params@[i]), ..list[i] }
                } else {
                    list[i]
                },
        ),
        _ => list,
    }
}

pub open spec fn marked_arms(mark: Mark, arms: Seq<ArmShell>) -> Seq<ArmShell> {
    match mark {
        Mark::Arms(operations) => Seq::new(
            arms.len(),
            |i: int|
                if i < operations@.len() {
                    ArmShell { operation: operations@[i], ..arms[i] }
                } else {
                    arms[i]
                },
        ),
        _ => arms,
    }
}

/// A node after a mark has been written.
pub open spec fn marked(mark: Mark, shell: Shell) -> Shell {
    match shell {
        Shell::Item(ItemShell::Binding(binding)) => Shell::Item(
            ItemShell::Binding(marked_binding(mark, binding)),
        ),
        Shell::Item(_) => shell,
        Shell::Stmt(StmtShell::Binding(binding)) => Shell::Stmt(
            StmtShell::Binding(marked_binding(mark, binding)),
        ),
        Shell::Stmt(StmtShell::Assign { place, operation, destroy_plan }) => match mark {
            Mark::Write { operation, destroy_plan } => Shell::Stmt(
                StmtShell::Assign {
                    place,
                    operation: Some(operation),
                    destroy_plan: Some(destroy_plan),
                },
            ),
            _ => shell,
        },
        Shell::Stmt(_) => shell,
        Shell::Expr(expr) => Shell::Expr(
            ExprShell {
                head: marked_head(mark, expr.head),
                arms: marked_arms(mark, expr.arms),
                passes: marked_passes(mark, expr.passes),
                params: marked_params(mark, expr.params),
                ..expr
            },
        ),
        Shell::Leave => shell,
    }
}

/// The mark for a node; nodes without one are kept.
pub open spec fn mark_at(marks: Seq<Mark>, i: int) -> Mark {
    if 0 <= i < marks.len() {
        marks[i]
    } else {
        Mark::Keep
    }
}

/// The marks after the first ones.
pub open spec fn later(marks: Seq<Mark>, count: nat) -> Seq<Mark> {
    if count <= marks.len() {
        marks.skip(count as int)
    } else {
        Seq::empty()
    }
}

/// The nodes stand as before, each with its mark written.
pub open spec fn tracks<'a, 'b>(
    before: Seq<Visit<'a>>,
    after: Seq<Visit<'b>>,
    marks: Seq<Mark>,
) -> bool {
    &&& before.len() == after.len()
    &&& forall|i: int|
        #![trigger after[i]]
        0 <= i < before.len() ==> after[i].scope == before[i].scope && shell_of(after[i])
            == marked(mark_at(marks, i), shell_of(before[i]))
}

/// The nodes stand as before, each with its mark written, and these marks are left.
pub open spec fn moves<'a, 'b>(
    before: Seq<Visit<'a>>,
    after: Seq<Visit<'b>>,
    marks: Seq<Mark>,
    rest: Seq<Mark>,
) -> bool {
    tracks(before, after, marks) && rest == later(marks, before.len())
}

proof fn lemma_tracks_add<'a, 'b>(
    a: Seq<Visit<'a>>,
    a2: Seq<Visit<'b>>,
    b: Seq<Visit<'a>>,
    b2: Seq<Visit<'b>>,
    marks: Seq<Mark>,
)
    requires
        tracks(a, a2, marks),
        tracks(b, b2, later(marks, a.len())),
    ensures
        tracks(a + b, a2 + b2, marks),
        later(later(marks, a.len()), b.len()) == later(marks, (a + b).len()),
{
    let before = a + b;
    let after = a2 + b2;
    assert forall|i: int| #![trigger after[i]] 0 <= i < before.len() implies after[i].scope
        == before[i].scope && shell_of(after[i]) == marked(
            mark_at(marks, i),
            shell_of(before[i]),
        ) by {
        if i < a.len() {
            assert(after[i] == a2[i]);
        } else {
            assert(after[i] == b2[i - a.len()]);
            assert(mark_at(later(marks, a.len()), i - a.len()) == mark_at(marks, i));
        }
    }
    assert(later(later(marks, a.len()), b.len()) =~= later(marks, (a + b).len()));
}

proof fn lemma_tracks_none<'a, 'b>(marks: Seq<Mark>)
    ensures
        tracks(Seq::<Visit<'a>>::empty(), Seq::<Visit<'b>>::empty(), marks),
        later(marks, 0) == marks,
{
    assert(later(marks, 0) =~= marks);
}

/// Marks that wait to be written, the first one last.
pub struct Marks {
    pub stack: Vec<Mark>,
}

impl View for Marks {
    type V = Seq<Mark>;

    open spec fn view(&self) -> Seq<Mark> {
        self.stack@.reverse()
    }
}

impl Marks {
    /// Takes the next mark.
    fn take(&mut self) -> (r: Mark)
        ensures
            r == mark_at(old(self)@, 0),
            final(self)@ == later(old(self)@, 1),
    {
        let ghost before = self.stack@;
        match self.stack.pop() {
            Some(mark) => {
                assert(self@ =~= later(old(self)@, 1));
                assert(before.reverse()[0] == mark);
                mark
            },
            None => {
                assert(self@ =~= later(old(self)@, 1));
                Mark::Keep
            },
        }
    }
}

/// The walks for which marks can be written: they visit every node.
pub open spec fn mark_walk(walk: Walk) -> bool {
    walk.every_callee && walk.into_functions && !walk.subject_last
}

pub open spec fn expr_tracked<'a>(
    walk: Walk,
    before: &'a Expr,
    after: &'a Expr,
    marks: Seq<Mark>,
    rest: Seq<Mark>,
) -> bool {
    forall|scope: Option<FunctionId>, p: Position<'a>, q: Position<'a>|
        #![trigger walk_expr(walk, scope, before, p), walk_expr(walk, scope, after, q)]
        moves(walk_expr(walk, scope, before, p), walk_expr(walk, scope, after, q), marks, rest)
}

pub open spec fn place_tracked<'a>(
    walk: Walk,
    before: &'a Place,
    after: &'a Place,
    marks: Seq<Mark>,
    rest: Seq<Mark>,
) -> bool {
    &&& place_shell(*after) == place_shell(*before)
    &&& forall|scope: Option<FunctionId>|
        #![trigger walk_place(walk, scope, before), walk_place(walk, scope, after)]
        moves(walk_place(walk, scope, before), walk_place(walk, scope, after), marks, rest)
}

pub open spec fn stmt_tracked<'a>(
    walk: Walk,
    before: &'a Stmt,
    after: &'a Stmt,
    marks: Seq<Mark>,
    rest: Seq<Mark>,
) -> bool {
    forall|scope: Option<FunctionId>|
        #![trigger walk_stmt(walk, scope, before), walk_stmt(walk, scope, after)]
        moves(walk_stmt(walk, scope, before), walk_stmt(walk, scope, after), marks, rest)
}

pub open spec fn body_tracked<'a>(
    walk: Walk,
    before: &'a Body,
    after: &'a Body,
    marks: Seq<Mark>,
    rest: Seq<Mark>,
) -> bool {
    &&& body_shape(*after) == body_shape(*before)
    &&& forall|scope: Option<FunctionId>|
        #![trigger walk_body(walk, scope, before), walk_body(walk, scope, after)]
        moves(walk_body(walk, scope, before), walk_body(walk, scope, after), marks, rest)
}

pub open spec fn parts_tracked<'a>(
    walk: Walk,
    before: Seq<StrPart>,
    after: Seq<StrPart>,
    marks: Seq<Mark>,
    rest: Seq<Mark>,
) -> bool {
    &&& before.len() == after.len()
    &&& forall|scope: Option<FunctionId>|
        #![trigger part_walks::<'a>(walk, scope, before), part_walks::<'a>(walk, scope, after)]
        moves(
            part_walks::<'a>(walk, scope, before).flatten(),
            part_walks::<'a>(walk, scope, after).flatten(),
            marks,
            rest,
        )
}

pub open spec fn elems_tracked<'a>(
    walk: Walk,
    before: Seq<Expr>,
    after: Seq<Expr>,
    marks: Seq<Mark>,
    rest: Seq<Mark>,
) -> bool {
    &&& before.len() == after.len()
    &&& forall|scope: Option<FunctionId>|
        #![trigger elem_walks::<'a>(walk, scope, before), elem_walks::<'a>(walk, scope, after)]
        moves(
            elem_walks::<'a>(walk, scope, before).flatten(),
            elem_walks::<'a>(walk, scope, after).flatten(),
            marks,
            rest,
        )
}

pub open spec fn stmts_tracked<'a>(
    walk: Walk,
    before: Seq<Stmt>,
    after: Seq<Stmt>,
    marks: Seq<Mark>,
    rest: Seq<Mark>,
) -> bool {
    &&& before.len() == after.len()
    &&& forall|scope: Option<FunctionId>|
        #![trigger stmt_walks::<'a>(walk, scope, before), stmt_walks::<'a>(walk, scope, after)]
        moves(
            stmt_walks::<'a>(walk, scope, before).flatten(),
            stmt_walks::<'a>(walk, scope, after).flatten(),
            marks,
            rest,
        )
}

pub open spec fn arms_tracked<'a>(
    walk: Walk,
    before: Seq<MatchArm>,
    after: Seq<MatchArm>,
    marks: Seq<Mark>,
    rest: Seq<Mark>,
) -> bool {
    &&& before.len() == after.len()
    &&& forall|scope: Option<FunctionId>|
        #![trigger arm_walks::<'a>(walk, scope, before), arm_walks::<'a>(walk, scope, after)]
        moves(
            arm_walks::<'a>(walk, scope, before).flatten(),
            arm_walks::<'a>(walk, scope, after).flatten(),
            marks,
            rest,
        )
}

pub open spec fn branches_tracked<'a>(
    walk: Walk,
    before: Seq<(Expr, Vec<Stmt>)>,
    after: Seq<(Expr, Vec<Stmt>)>,
    marks: Seq<Mark>,
    rest: Seq<Mark>,
) -> bool {
    &&& before.len() == after.len()
    &&& forall|scope: Option<FunctionId>|
        #![trigger branch_walks::<'a>(walk, scope, before), branch_walks::<'a>(walk, scope, after)]
        moves(
            branch_walks::<'a>(walk, scope, before).flatten(),
            branch_walks::<'a>(walk, scope, after).flatten(),
            marks,
            rest,
        )
}

pub open spec fn args_tracked<'a>(
    walk: Walk,
    before: Seq<CallArg>,
    after: Seq<CallArg>,
    marks: Seq<Mark>,
    rest: Seq<Mark>,
) -> bool {
    &&& before.len() == after.len()
    &&& forall|scope: Option<FunctionId>, p: Position<'a>, q: Position<'a>|
        #![trigger arg_walks(walk, scope, before, p), arg_walks(walk, scope, after, q)]
        moves(
            arg_walks(walk, scope, before, p).flatten(),
            arg_walks(walk, scope, after, q).flatten(),
            marks,
            rest,
        )
}

proof fn lemma_tracks_node<'a, 'b>(
    v: Visit<'a>,
    w: Visit<'b>,
    kids: Seq<Visit<'a>>,
    new_kids: Seq<Visit<'b>>,
    marks: Seq<Mark>,
)
    requires
        v.scope == w.scope,
        shell_of(w) == marked(mark_at(marks, 0), shell_of(v)),
        tracks(kids, new_kids, later(marks, 1)),
    ensures
        tracks(seq![v] + kids, seq![w] + new_kids, marks),
        later(later(marks, 1), kids.len()) == later(marks, (seq![v] + kids).len()),
{
    assert(tracks(seq![v], seq![w], marks));
    lemma_tracks_add(seq![v], seq![w], kids, new_kids, marks);
}

/// Writing a mark on the facts of an expression is writing it on its shell.
proof fn lemma_info_shell(expr: Expr, info: ExprInfo)
    ensures
        expr_shell(with_info(expr, info)) == (ExprShell {
            head: with_info(expr_head(expr), info),
            ..expr_shell(expr)
        }),
        expr_head(expr).spec_info() == expr.spec_info(),
        with_info(expr_head(expr), expr.spec_info()) == expr_head(expr),
        with_info(expr, expr.spec_info()) == expr,
{
}

/// Writes the marks below a place.
fn mark_place(walk: Walk, place: &mut Place, marks: &mut Marks)
    requires
        mark_walk(walk),
    ensures
        place_tracked(walk, old(place), final(place), old(marks)@, final(marks)@),
    decreases *old(place), 0nat,
{
    let ghost start = marks@;
    match place {
        Place::Local { .. } => {
            proof {
                assert forall|scope: Option<FunctionId>|
                    #![trigger walk_place(walk, scope, old(place)), walk_place(walk, scope, place)]
                    moves(
                        walk_place(walk, scope, old(place)),
                        walk_place(walk, scope, place),
                        start,
                        marks@,
                    ) by {
                    lemma_tracks_none(start);
                    assert(walk_place(walk, scope, old(place)) =~= Seq::empty());
                }
            }
        },
        Place::Field { base, .. } => {
            let ghost base0 = *base;
            mark_place(walk, base, marks);
            proof {
                assert forall|scope: Option<FunctionId>|
                    #![trigger walk_place(walk, scope, old(place)), walk_place(walk, scope, place)]
                    moves(
                        walk_place(walk, scope, old(place)),
                        walk_place(walk, scope, place),
                        start,
                        marks@,
                    ) by {
                    assert(walk_place(walk, scope, old(place)) == walk_place(walk, scope, &base0));
                    assert(walk_place(walk, scope, place) == walk_place(walk, scope, &*base));
                }
            }
        },
        Place::Index { base, index, .. } => {
            let ghost base0 = *base;
            let ghost index0 = *index;
            mark_place(walk, base, marks);
            mark_expr(walk, index, marks);
            proof {
                assert forall|scope: Option<FunctionId>|
                    #![trigger walk_place(walk, scope, old(place)), walk_place(walk, scope, place)]
                    moves(
                        walk_place(walk, scope, old(place)),
                        walk_place(walk, scope, place),
                        start,
                        marks@,
                    ) by {
                    lemma_tracks_add(
                        walk_place(walk, scope, &base0),
                        walk_place(walk, scope, &*base),
                        walk_expr(walk, scope, &index0, Position::Plain),
                        walk_expr(walk, scope, &*index, Position::Plain),
                        start,
                    );
                }
            }
        },
    }
}

/// Everything that the walk lists below an expression.
pub open spec fn below<'a>(
    walk: Walk,
    scope: Option<FunctionId>,
    expr: &'a Expr,
    position: Position<'a>,
) -> Seq<Visit<'a>> {
    walk_expr(walk, scope, expr, position).drop_first()
}

pub open spec fn below_tracked<'a>(
    walk: Walk,
    before: &'a Expr,
    after: &'a Expr,
    marks: Seq<Mark>,
    rest: Seq<Mark>,
) -> bool {
    &&& expr_shell(*after) == expr_shell(*before)
    &&& forall|scope: Option<FunctionId>, p: Position<'a>, q: Position<'a>|
        #![trigger below(walk, scope, before, p), below(walk, scope, after, q)]
        moves(below(walk, scope, before, p), below(walk, scope, after, q), marks, rest)
}

/// Writes the marks below an expression with one operand.
fn mark_operand(walk: Walk, expr: &mut Expr, marks: &mut Marks)
    requires
        mark_walk(walk),
        *old(expr) is Cast || *old(expr) is Neg || *old(expr) is Not || *old(expr) is BitNot
            || *old(expr) is Propagate || *old(expr) is Field || *old(expr) is Convert,
    ensures
        below_tracked(walk, old(expr), final(expr), old(marks)@, final(marks)@),
    decreases *old(expr), 0nat,
{
    let ghost start = marks@;
    match expr {
        Expr::Cast { expr: inner, .. } => {
            let ghost inner0 = *inner;
            mark_expr(walk, inner, marks);
            proof {
                assert forall|scope: Option<FunctionId>, p: Position, q: Position|
                    #![trigger below(walk, scope, old(expr), p), below(walk, scope, expr, q)]
                    moves(
                        below(walk, scope, old(expr), p),
                        below(walk, scope, expr, q),
                        start,
                        marks@,
                    ) by {
                    let kids = walk_expr(walk, scope, &inner0, Position::Plain);
                    let new_kids = walk_expr(walk, scope, &*inner, Position::Plain);
                    assert(tracks(kids, new_kids, start));
                    assert(below(walk, scope, old(expr), p) =~= kids);
                    assert(below(walk, scope, expr, q) =~= new_kids);
                }
            }
        },
        Expr::Neg { expr: inner, .. } => {
            let ghost inner0 = *inner;
            mark_expr(walk, inner, marks);
            proof {
                assert forall|scope: Option<FunctionId>, p: Position, q: Position|
                    #![trigger below(walk, scope, old(expr), p), below(walk, scope, expr, q)]
                    moves(
                        below(walk, scope, old(expr), p),
                        below(walk, scope, expr, q),
                        start,
                        marks@,
                    ) by {
                    let kids = walk_expr(walk, scope, &inner0, Position::Plain);
                    let new_kids = walk_expr(walk, scope, &*inner, Position::Plain);
                    assert(tracks(kids, new_kids, start));
                    assert(below(walk, scope, old(expr), p) =~= kids);
                    assert(below(walk, scope, expr, q) =~= new_kids);
                }
            }
        },
        Expr::Not { expr: inner, .. } => {
            let ghost inner0 = *inner;
            mark_expr(walk, inner, marks);
            proof {
                assert forall|scope: Option<FunctionId>, p: Position, q: Position|
                    #![trigger below(walk, scope, old(expr), p), below(walk, scope, expr, q)]
                    moves(
                        below(walk, scope, old(expr), p),
                        below(walk, scope, expr, q),
                        start,
                        marks@,
                    ) by {
                    let kids = walk_expr(walk, scope, &inner0, Position::Plain);
                    let new_kids = walk_expr(walk, scope, &*inner, Position::Plain);
                    assert(tracks(kids, new_kids, start));
                    assert(below(walk, scope, old(expr), p) =~= kids);
                    assert(below(walk, scope, expr, q) =~= new_kids);
                }
            }
        },
        Expr::BitNot { expr: inner, .. } => {
            let ghost inner0 = *inner;
            mark_expr(walk, inner, marks);
            proof {
                assert forall|scope: Option<FunctionId>, p: Position, q: Position|
                    #![trigger below(walk, scope, old(expr), p), below(walk, scope, expr, q)]
                    moves(
                        below(walk, scope, old(expr), p),
                        below(walk, scope, expr, q),
                        start,
                        marks@,
                    ) by {
                    let kids = walk_expr(walk, scope, &inner0, Position::Plain);
                    let new_kids = walk_expr(walk, scope, &*inner, Position::Plain);
                    assert(tracks(kids, new_kids, start));
                    assert(below(walk, scope, old(expr), p) =~= kids);
                    assert(below(walk, scope, expr, q) =~= new_kids);
                }
            }
        },
        Expr::Propagate { expr: inner, .. } => {
            let ghost inner0 = *inner;
            mark_expr(walk, inner, marks);
            proof {
                assert forall|scope: Option<FunctionId>, p: Position, q: Position|
                    #![trigger below(walk, scope, old(expr), p), below(walk, scope, expr, q)]
                    moves(
                        below(walk, scope, old(expr), p),
                        below(walk, scope, expr, q),
                        start,
                        marks@,
                    ) by {
                    let kids = walk_expr(walk, scope, &inner0, Position::Plain);
                    let new_kids = walk_expr(walk, scope, &*inner, Position::Plain);
                    assert(tracks(kids, new_kids, start));
                    assert(below(walk, scope, old(expr), p) =~= kids);
                    assert(below(walk, scope, expr, q) =~= new_kids);
                }
            }
        },
        Expr::Field { recv: inner, .. } => {
            let ghost inner0 = *inner;
            mark_expr(walk, inner, marks);
            proof {
                assert forall|scope: Option<FunctionId>, p: Position, q: Position|
                    #![trigger below(walk, scope, old(expr), p), below(walk, scope, expr, q)]
                    moves(
                        below(walk, scope, old(expr), p),
                        below(walk, scope, expr, q),
                        start,
                        marks@,
                    ) by {
                    let kids = walk_expr(walk, scope, &inner0, Position::Plain);
                    let new_kids = walk_expr(walk, scope, &*inner, Position::Plain);
                    assert(tracks(kids, new_kids, start));
                    assert(below(walk, scope, old(expr), p) =~= kids);
                    assert(below(walk, scope, expr, q) =~= new_kids);
                }
            }
        },
        Expr::Convert { expr: inner, mode, .. } => {
            let ghost inner0 = *inner;
            let ghost mode0 = *mode;
            mark_expr(walk, inner, marks);
            proof {
                assert forall|scope: Option<FunctionId>, p: Position, q: Position|
                    #![trigger below(walk, scope, old(expr), p), below(walk, scope, expr, q)]
                    moves(
                        below(walk, scope, old(expr), p),
                        below(walk, scope, expr, q),
                        start,
                        marks@,
                    ) by {
                    let kids = walk_expr(
                        walk,
                        scope,
                        &inner0,
                        match mode0 {
                            ResolvedConversion::Identity => inner_position(p),
                            ResolvedConversion::Convert => Position::Plain,
                        },
                    );
                    let new_kids = walk_expr(
                        walk,
                        scope,
                        &*inner,
                        match mode0 {
                            ResolvedConversion::Identity => inner_position(q),
                            ResolvedConversion::Convert => Position::Plain,
                        },
                    );
                    assert(tracks(kids, new_kids, start));
                    assert(below(walk, scope, old(expr), p) =~= kids);
                    assert(below(walk, scope, expr, q) =~= new_kids);
                }
            }
        },
        _ => {},
    }
}

/// Writes the marks below an expression with several operands.
fn mark_operands(walk: Walk, expr: &mut Expr, marks: &mut Marks)
    requires
        mark_walk(walk),
        *old(expr) is Binary || *old(expr) is Index || *old(expr) is Ternary,
    ensures
        below_tracked(walk, old(expr), final(expr), old(marks)@, final(marks)@),
    decreases *old(expr), 0nat,
{
    let ghost start = marks@;
    match expr {
        Expr::Binary { lhs: first, rhs: second, .. } => {
            let ghost first0 = *first;
            let ghost second0 = *second;
            mark_expr(walk, first, marks);
            mark_expr(walk, second, marks);
            proof {
                assert forall|scope: Option<FunctionId>, p: Position, q: Position|
                    #![trigger below(walk, scope, old(expr), p), below(walk, scope, expr, q)]
                    moves(
                        below(walk, scope, old(expr), p),
                        below(walk, scope, expr, q),
                        start,
                        marks@,
                    ) by {
                    let first_before = walk_expr(walk, scope, &first0, Position::Plain);
                    let first_after = walk_expr(walk, scope, &*first, Position::Plain);
                    let second_before = walk_expr(walk, scope, &second0, Position::Plain);
                    let second_after = walk_expr(walk, scope, &*second, Position::Plain);
                    lemma_tracks_add(
                        first_before,
                        first_after,
                        second_before,
                        second_after,
                        start,
                    );
                    let kids = first_before + second_before;
                    let new_kids = first_after + second_after;
                    assert(below(walk, scope, old(expr), p) =~= kids);
                    assert(below(walk, scope, expr, q) =~= new_kids);
                }
            }
        },
        Expr::Index { recv: first, idx: second, .. } => {
            let ghost first0 = *first;
            let ghost second0 = *second;
            mark_expr(walk, first, marks);
            mark_expr(walk, second, marks);
            proof {
                assert forall|scope: Option<FunctionId>, p: Position, q: Position|
                    #![trigger below(walk, scope, old(expr), p), below(walk, scope, expr, q)]
                    moves(
                        below(walk, scope, old(expr), p),
                        below(walk, scope, expr, q),
                        start,
                        marks@,
                    ) by {
                    let first_before = walk_expr(walk, scope, &first0, Position::Plain);
                    let first_after = walk_expr(walk, scope, &*first, Position::Plain);
                    let second_before = walk_expr(walk, scope, &second0, Position::Plain);
                    let second_after = walk_expr(walk, scope, &*second, Position::Plain);
                    lemma_tracks_add(
                        first_before,
                        first_after,
                        second_before,
                        second_after,
                        start,
                    );
                    let kids = first_before + second_before;
                    let new_kids = first_after + second_after;
                    assert(below(walk, scope, old(expr), p) =~= kids);
                    assert(below(walk, scope, expr, q) =~= new_kids);
                }
            }
        },
        Expr::Ternary { cond: first, then_expr: second, else_expr: third, .. } => {
            let ghost first0 = *first;
            let ghost second0 = *second;
            let ghost third0 = *third;
            mark_expr(walk, first, marks);
            mark_expr(walk, second, marks);
            mark_expr(walk, third, marks);
            proof {
                assert forall|scope: Option<FunctionId>, p: Position, q: Position|
                    #![trigger below(walk, scope, old(expr), p), below(walk, scope, expr, q)]
                    moves(
                        below(walk, scope, old(expr), p),
                        below(walk, scope, expr, q),
                        start,
                        marks@,
                    ) by {
                    let first_before = walk_expr(walk, scope, &first0, Position::Plain);
                    let first_after = walk_expr(walk, scope, &*first, Position::Plain);
                    let second_before = walk_expr(walk, scope, &second0, Position::Plain);
                    let second_after = walk_expr(walk, scope, &*second, Position::Plain);
                    let third_before = walk_expr(walk, scope, &third0, Position::Plain);
                    let third_after = walk_expr(walk, scope, &*third, Position::Plain);
                    lemma_tracks_add(
                        first_before,
                        first_after,
                        second_before,
                        second_after,
                        start,
                    );
                    lemma_tracks_add(
                        first_before + second_before,
                        first_after + second_after,
                        third_before,
                        third_after,
                        start,
                    );
                    let kids = first_before + second_before + third_before;
                    let new_kids = first_after + second_after + third_after;
                    assert(below(walk, scope, old(expr), p) =~= kids);
                    assert(below(walk, scope, expr, q) =~= new_kids);
                }
            }
        },
        _ => {},
    }
}

/// Writes the marks below a call.
fn mark_call(walk: Walk, expr: &mut Expr, marks: &mut Marks)
    requires
        mark_walk(walk),
        *old(expr) is Call || *old(expr) is MethodCall,
    ensures
        below_tracked(walk, old(expr), final(expr), old(marks)@, final(marks)@),
    decreases *old(expr), 0nat,
{
    let ghost start = marks@;
    match expr {
        Expr::Call { callee, args, target, .. } => {
            let ghost callee0 = *callee;
            let ghost args0 = args@;
            let ghost target0 = *target;
            mark_expr(walk, callee, marks);
            mark_args(walk, args, marks);
            proof {
                assert forall|scope: Option<FunctionId>, p: Position, q: Position|
                    #![trigger below(walk, scope, old(expr), p), below(walk, scope, expr, q)]
                    moves(
                        below(walk, scope, old(expr), p),
                        below(walk, scope, expr, q),
                        start,
                        marks@,
                    ) by {
                    let at = call_position(target0);
                    let callee_before = walk_expr(walk, scope, &callee0, Position::Plain);
                    let callee_after = walk_expr(walk, scope, &*callee, Position::Plain);
                    let args_before = arg_walks(walk, scope, args0, at).flatten();
                    let args_after = arg_walks(walk, scope, args@, at).flatten();
                    lemma_tracks_add(callee_before, callee_after, args_before, args_after, start);
                    let kids = callee_before + args_before;
                    let new_kids = callee_after + args_after;
                    assert(below(walk, scope, old(expr), p) =~= kids);
                    assert(below(walk, scope, expr, q) =~= new_kids);
                }
            }
        },
        Expr::MethodCall { recv, args, target, .. } => {
            let ghost recv0 = *recv;
            let ghost args0 = args@;
            let ghost target0 = *target;
            mark_expr(walk, recv, marks);
            mark_args(walk, args, marks);
            proof {
                assert forall|scope: Option<FunctionId>, p: Position, q: Position|
                    #![trigger below(walk, scope, old(expr), p), below(walk, scope, expr, q)]
                    moves(
                        below(walk, scope, old(expr), p),
                        below(walk, scope, expr, q),
                        start,
                        marks@,
                    ) by {
                    let at = method_position(target0);
                    let recv_before = walk_expr(walk, scope, &recv0, Position::Plain);
                    let recv_after = walk_expr(walk, scope, &*recv, Position::Plain);
                    let args_before = arg_walks(walk, scope, args0, at).flatten();
                    let args_after = arg_walks(walk, scope, args@, at).flatten();
                    lemma_tracks_add(recv_before, recv_after, args_before, args_after, start);
                    let kids = recv_before + args_before;
                    let new_kids = recv_after + args_after;
                    assert(below(walk, scope, old(expr), p) =~= kids);
                    assert(below(walk, scope, expr, q) =~= new_kids);
                }
            }
        },
        _ => {},
    }
}

/// Writes the marks below an expression that holds a list or a body.
fn mark_list(walk: Walk, expr: &mut Expr, marks: &mut Marks)
    requires
        mark_walk(walk),
        *old(expr) is Str || *old(expr) is ArrayLit || *old(expr) is Match || *old(expr) is FuncLit,
    ensures
        below_tracked(walk, old(expr), final(expr), old(marks)@, final(marks)@),
    decreases *old(expr), 0nat,
{
    let ghost start = marks@;
    match expr {
        Expr::Str(parts, _, _) => {
            let ghost parts0 = parts@;
            mark_parts(walk, parts, marks);
            proof {
                assert forall|scope: Option<FunctionId>, p: Position, q: Position|
                    #![trigger below(walk, scope, old(expr), p), below(walk, scope, expr, q)]
                    moves(
                        below(walk, scope, old(expr), p),
                        below(walk, scope, expr, q),
                        start,
                        marks@,
                    ) by {
                    let kids = part_walks(walk, scope, parts0).flatten();
                    let new_kids = part_walks(walk, scope, parts@).flatten();
                    assert(tracks(kids, new_kids, start));
                    assert(below(walk, scope, old(expr), p) =~= kids);
                    assert(below(walk, scope, expr, q) =~= new_kids);
                }
            }
        },
        Expr::ArrayLit { elems, .. } => {
            let ghost elems0 = elems@;
            mark_elems(walk, elems, marks);
            proof {
                assert forall|scope: Option<FunctionId>, p: Position, q: Position|
                    #![trigger below(walk, scope, old(expr), p), below(walk, scope, expr, q)]
                    moves(
                        below(walk, scope, old(expr), p),
                        below(walk, scope, expr, q),
                        start,
                        marks@,
                    ) by {
                    let kids = elem_walks(walk, scope, elems0).flatten();
                    let new_kids = elem_walks(walk, scope, elems@).flatten();
                    assert(tracks(kids, new_kids, start));
                    assert(below(walk, scope, old(expr), p) =~= kids);
                    assert(below(walk, scope, expr, q) =~= new_kids);
                }
            }
        },
        Expr::Match { subject, arms, .. } => {
            let ghost subject0 = *subject;
            let ghost arms0 = arms@;
            mark_expr(walk, subject, marks);
            mark_arms(walk, arms, marks);
            proof {
                assert forall|scope: Option<FunctionId>, p: Position, q: Position|
                    #![trigger below(walk, scope, old(expr), p), below(walk, scope, expr, q)]
                    moves(
                        below(walk, scope, old(expr), p),
                        below(walk, scope, expr, q),
                        start,
                        marks@,
                    ) by {
                    let subject_before = walk_expr(walk, scope, &subject0, Position::Plain);
                    let subject_after = walk_expr(walk, scope, &*subject, Position::Plain);
                    let arms_before = arm_walks(walk, scope, arms0).flatten();
                    let arms_after = arm_walks(walk, scope, arms@).flatten();
                    lemma_tracks_add(
                        subject_before,
                        subject_after,
                        arms_before,
                        arms_after,
                        start,
                    );
                    let kids = subject_before + arms_before;
                    let new_kids = subject_after + arms_after;
                    assert(below(walk, scope, old(expr), p) =~= kids);
                    assert(below(walk, scope, expr, q) =~= new_kids);
                }
            }
        },
        Expr::FuncLit { function_id, body, .. } => {
            let ghost body0 = *body;
            let ghost id0 = *function_id;
            mark_body(walk, body, marks);
            let ghost before_leave = marks@;
            let _ = marks.take();
            proof {
                assert forall|scope: Option<FunctionId>, p: Position, q: Position|
                    #![trigger below(walk, scope, old(expr), p), below(walk, scope, expr, q)]
                    moves(
                        below(walk, scope, old(expr), p),
                        below(walk, scope, expr, q),
                        start,
                        marks@,
                    ) by {
                    let leave = Visit { node: Node::Leave(old(expr)), scope };
                    let leave_after = Visit { node: Node::Leave(expr), scope };
                    let body_before = walk_body(walk, Some(id0), &body0);
                    let body_after = walk_body(walk, Some(id0), &*body);
                    assert(tracks(body_before, body_after, start));
                    assert(tracks(seq![leave], seq![leave_after], before_leave));
                    lemma_tracks_add(
                        body_before,
                        body_after,
                        seq![leave],
                        seq![leave_after],
                        start,
                    );
                    let kids = body_before + seq![leave];
                    let new_kids = body_after + seq![leave_after];
                    assert(below(walk, scope, old(expr), p) =~= kids);
                    assert(below(walk, scope, expr, q) =~= new_kids);
                }
            }
        },
        _ => {},
    }
}

/// Writes the marks below the place that an expression reads.
fn mark_source(walk: Walk, expr: &mut Expr, marks: &mut Marks)
    requires
        mark_walk(walk),
        *old(expr) is ReadPlace || *old(expr) is Move || *old(expr) is Borrow
            || *old(expr) is Refer,
    ensures
        below_tracked(walk, old(expr), final(expr), old(marks)@, final(marks)@),
    decreases *old(expr), 0nat,
{
    let ghost start = marks@;
    match expr {
        Expr::ReadPlace { source, .. } => {
            let ghost source0 = *source;
            mark_place(walk, source, marks);
            proof {
                assert forall|scope: Option<FunctionId>, p: Position, q: Position|
                    #![trigger below(walk, scope, old(expr), p), below(walk, scope, expr, q)]
                    moves(
                        below(walk, scope, old(expr), p),
                        below(walk, scope, expr, q),
                        start,
                        marks@,
                    ) by {
                    let kids = walk_place(walk, scope, &source0);
                    let new_kids = walk_place(walk, scope, &*source);
                    assert(tracks(kids, new_kids, start));
                    assert(below(walk, scope, old(expr), p) =~= kids);
                    assert(below(walk, scope, expr, q) =~= new_kids);
                }
            }
        },
        Expr::Move { source, .. } => {
            let ghost source0 = *source;
            mark_place(walk, source, marks);
            proof {
                assert forall|scope: Option<FunctionId>, p: Position, q: Position|
                    #![trigger below(walk, scope, old(expr), p), below(walk, scope, expr, q)]
                    moves(
                        below(walk, scope, old(expr), p),
                        below(walk, scope, expr, q),
                        start,
                        marks@,
                    ) by {
                    let kids = walk_place(walk, scope, &source0);
                    let new_kids = walk_place(walk, scope, &*source);
                    assert(tracks(kids, new_kids, start));
                    assert(below(walk, scope, old(expr), p) =~= kids);
                    assert(below(walk, scope, expr, q) =~= new_kids);
                }
            }
        },
        Expr::Borrow { source, .. } => {
            let ghost source0 = *source;
            mark_place(walk, source, marks);
            proof {
                assert forall|scope: Option<FunctionId>, p: Position, q: Position|
                    #![trigger below(walk, scope, old(expr), p), below(walk, scope, expr, q)]
                    moves(
                        below(walk, scope, old(expr), p),
                        below(walk, scope, expr, q),
                        start,
                        marks@,
                    ) by {
                    let kids = walk_place(walk, scope, &source0);
                    let new_kids = walk_place(walk, scope, &*source);
                    assert(tracks(kids, new_kids, start));
                    assert(below(walk, scope, old(expr), p) =~= kids);
                    assert(below(walk, scope, expr, q) =~= new_kids);
                }
            }
        },
        Expr::Refer { source, .. } => {
            let ghost source0 = *source;
            mark_place(walk, source, marks);
            proof {
                assert forall|scope: Option<FunctionId>, p: Position, q: Position|
                    #![trigger below(walk, scope, old(expr), p), below(walk, scope, expr, q)]
                    moves(
                        below(walk, scope, old(expr), p),
                        below(walk, scope, expr, q),
                        start,
                        marks@,
                    ) by {
                    let kids = walk_place(walk, scope, &source0);
                    let new_kids = walk_place(walk, scope, &*source);
                    assert(tracks(kids, new_kids, start));
                    assert(below(walk, scope, old(expr), p) =~= kids);
                    assert(below(walk, scope, expr, q) =~= new_kids);
                }
            }
        },
        _ => {},
    }
}

/// The walk below an expression does not see the facts that are recorded on it.
proof fn lemma_info_below<'a>(
    walk: Walk,
    scope: Option<FunctionId>,
    before: &'a Expr,
    after: &'a Expr,
    p: Position<'a>,
)
    requires
        *after == with_info(*before, after.spec_info()),
    ensures
        tracks(below(walk, scope, before, p), below(walk, scope, after, p), Seq::empty()),
{
    let a = below(walk, scope, before, p);
    let b = below(walk, scope, after, p);
    match before {
        Expr::FuncLit { .. } => {
            assert(a.len() == b.len());
            assert forall|i: int| #![trigger b[i]] 0 <= i < a.len() implies b[i].scope == a[i].scope
                && shell_of(b[i]) == marked(Mark::Keep, shell_of(a[i])) by {
                lemma_keep(a[i]);
                if i < a.len() - 1 {
                    assert(a[i] == b[i]);
                }
            }
        },
        _ => {
            assert(a =~= b);
            assert forall|i: int| #![trigger b[i]] 0 <= i < a.len() implies shell_of(b[i])
                == marked(Mark::Keep, shell_of(a[i])) by {
                lemma_keep(a[i]);
            }
        },
    }
}

/// A node without a mark stays as it is.
proof fn lemma_keep<'a>(visit: Visit<'a>)
    ensures
        marked(Mark::Keep, shell_of(visit)) == shell_of(visit),
{
    match visit.node {
        Node::Expr(expr, _) => {
            lemma_info_shell(*expr, expr.spec_info());
        },
        _ => {},
    }
}

/// The walk below an expression has not changed.
spec fn still_below<'a>(before: &'a Expr, after: &'a Expr) -> bool {
    forall|walk: Walk, scope: Option<FunctionId>, p: Position<'a>|
        #![trigger below(walk, scope, after, p)]
        tracks(below(walk, scope, before, p), below(walk, scope, after, p), Seq::empty())
}

proof fn lemma_info_still_below<'a>(before: &'a Expr, after: &'a Expr)
    requires
        *after == with_info(*before, after.spec_info()),
    ensures
        still_below(before, after),
{
    assert forall|walk: Walk, scope: Option<FunctionId>, p: Position<'a>|
        #![trigger below(walk, scope, after, p)]
        tracks(below(walk, scope, before, p), below(walk, scope, after, p), Seq::empty()) by {
        lemma_info_below(walk, scope, before, after, p);
    }
}

/// Writes a mark on an expression.
fn write_expr(mark: Mark, expr: &mut Expr)
    ensures
        Shell::Expr(expr_shell(*final(expr))) == marked(
            mark,
            Shell::Expr(expr_shell(*old(expr))),
        ),
        still_below(old(expr), final(expr)),
{
    proof {
        lemma_info_shell(*expr, marked_info(mark, expr.spec_info()));
    }
    match mark {
        Mark::Container(write) => {
            let info = expr.info_mut();
            info.container_write = Some(write);
            proof {
                lemma_info_still_below(old(expr), expr);
            }
        },
        Mark::Kind(inferred) => {
            write_kind(inferred, expr);
        },
        Mark::Arms(operations) => {
            write_arms_of(operations, expr);
        },
        Mark::Captures(list) => {
            write_captures(list, expr);
        },
        Mark::Passes { receiver, effects, args } => {
            write_passes(receiver, effects, args, expr);
        },
        Mark::Signature { effects, handed, params } => {
            write_signature(effects, handed, params, expr);
        },
        Mark::Outcome { pass, result, effect } => {
            write_outcome(pass, result, effect, expr);
        },
        _ => {
            proof {
                lemma_info_still_below(old(expr), expr);
            }
        },
    }
}

/// Writes how the arguments of a call are passed.
fn write_args(list: &mut Vec<CallArg>, passes: Vec<ArgumentPass>)
    ensures
        final(list)@.len() == old(list)@.len(),
        forall|i: int|
            0 <= i < old(list)@.len() ==> (#[trigger] final(list)@[i]).value == old(list)@[i].value,
        forall|i: int|
            0 <= i < old(list)@.len() ==> (#[trigger] final(list)@[i]).pass == if i < passes@.len() {
                Some(passes@[i])
            } else {
                old(list)@[i].pass
            },
{
    let ghost before = list@;
    let ghost wanted = passes@;
    let mut left = passes;
    while left.len() > 0
        invariant
            list@.len() == before.len(),
            left@.len() <= wanted.len(),
            left@ == wanted.take(left@.len() as int),
            forall|i: int|
                0 <= i < before.len() ==> #[trigger] list@[i] == (if left@.len() <= i
                    < wanted.len() {
                    CallArg { pass: Some(wanted[i]), ..before[i] }
                } else {
                    before[i]
                }),
        decreases left.len(),
    {
        let at: usize = left.len() - 1;
        match left.pop() {
            Some(pass) => {
                assert(pass == wanted[at as int]);
                if at < list.len() {
                    list[at].pass = Some(pass);
                }
            },
            None => {},
        }
        assert(left@ =~= wanted.take(left@.len() as int));
    }
}

/// Two calls differ only in what is recorded of their arguments and results.
spec fn same_operands(before: Expr, after: Expr) -> bool {
    match (before, after) {
        (
            Expr::Call { callee, args, target, .. },
            Expr::Call { callee: callee2, args: args2, target: target2, .. },
        ) => callee == callee2 && target == target2 && same_values(args@, args2@),
        (
            Expr::MethodCall { recv, args, target, .. },
            Expr::MethodCall { recv: recv2, args: args2, target: target2, .. },
        ) => recv == recv2 && target is ArrayPush == target2 is ArrayPush && same_values(
            args@,
            args2@,
        ),
        _ => false,
    }
}

spec fn same_values(a: Seq<CallArg>, b: Seq<CallArg>) -> bool {
    a.len() == b.len() && forall|i: int|
        0 <= i < a.len() ==> (#[trigger] b[i]).value == a[i].value
}

proof fn lemma_operands_below<'a>(before: &'a Expr, after: &'a Expr)
    requires
        same_operands(*before, *after),
    ensures
        still_below(before, after),
{
    assert forall|walk: Walk, scope: Option<FunctionId>, p: Position<'a>|
        #![trigger below(walk, scope, after, p)]
        tracks(below(walk, scope, before, p), below(walk, scope, after, p), Seq::empty()) by {
        let a = below(walk, scope, before, p);
        let b = below(walk, scope, after, p);
        match (*before, *after) {
            (Expr::Call { args, target, .. }, Expr::Call { args: args2, .. }) => {
                assert(arg_walks(walk, scope, args@, call_position(target)) =~= arg_walks(
                    walk,
                    scope,
                    args2@,
                    call_position(target),
                ));
            },
            (
                Expr::MethodCall { args, target, .. },
                Expr::MethodCall { args: args2, target: target2, .. },
            ) => {
                assert(method_position::<'a>(target) == method_position::<'a>(target2));
                assert(arg_walks(walk, scope, args@, method_position(target)) =~= arg_walks(
                    walk,
                    scope,
                    args2@,
                    method_position(target),
                ));
            },
            _ => {},
        }
        assert(a =~= b);
        assert forall|i: int| #![trigger b[i]] 0 <= i < a.len() implies shell_of(b[i]) == marked(
            Mark::Keep,
            shell_of(a[i]),
        ) by {
            lemma_keep(a[i]);
        }
    }
}

/// Writes how a call passes its arguments.
fn write_passes(
    receiver: Option<ArgumentPass>,
    effects: Option<Vec<ParamEffect>>,
    passes: Vec<ArgumentPass>,
    expr: &mut Expr,
)
    ensures
        Shell::Expr(expr_shell(*final(expr))) == marked(
            Mark::Passes { receiver, effects, args: passes },
            Shell::Expr(expr_shell(*old(expr))),
        ),
        still_below(old(expr), final(expr)),
{
    let ghost mark = Mark::Passes { receiver, effects, args: passes };
    proof {
        lemma_info_shell(*expr, expr.spec_info());
    }
    assert(marked_passes(mark, Seq::empty()) =~= Seq::empty());
    match expr {
        Expr::Call { args, .. } => {
            let ghost args0 = args@;
            write_args(args, passes);
            assert(arg_passes(args@) =~= marked_passes(mark, arg_passes(args0)));
            proof {
                lemma_operands_below(old(expr), expr);
            }
        },
        Expr::MethodCall { receiver_pass, args, target, .. } => {
            let ghost args0 = args@;
            *receiver_pass = receiver;
            if let MethodTarget::User { param_effects, .. } = target {
                *param_effects = effects;
            }
            write_args(args, passes);
            assert(arg_passes(args@) =~= marked_passes(mark, arg_passes(args0)));
            proof {
                lemma_operands_below(old(expr), expr);
            }
        },
        _ => {
            proof {
                lemma_info_still_below(old(expr), expr);
            }
        },
    }
}

/// Writes effects on a function type.
fn write_type(ty: &mut Ty, effects: Option<Vec<ParamEffect>>, handed: Option<ReturnEffect>)
    ensures
        *final(ty) == with_signature(*old(ty), effects, handed),
{
    if let Ty::Func { param_effects, return_effect, .. } = ty {
        if effects.is_some() {
            *param_effects = effects;
        }
        if handed.is_some() {
            *return_effect = handed;
        }
    }
}

fn write_params(list: &mut Vec<Param>, effects: Vec<ParamEffect>)
    ensures
        final(list)@ == Seq::new(
            old(list)@.len(),
            |i: int|
                if i < effects@.len() {
                    Param { effect: Some(effects@[i]), ..old(list)@[i] }
                } else {
                    old(list)@[i]
                },
        ),
{
    let ghost before = list@;
    let mut i: usize = 0;
    while i < list.len() && i < effects.len()
        invariant
            i <= list.len(),
            i <= effects.len(),
            list@.len() == before.len(),
            forall|k: int|
                0 <= k < before.len() ==> #[trigger] list@[k] == (if k < i {
                    Param { effect: Some(effects@[k]), ..before[k] }
                } else {
                    before[k]
                }),
        decreases list.len() - i,
    {
        list[i].effect = Some(effects[i]);
        i += 1;
    }
}

/// Writes the effects of a function value.
fn write_signature(
    effects: Option<Vec<ParamEffect>>,
    handed: Option<ReturnEffect>,
    params: Vec<ParamEffect>,
    expr: &mut Expr,
)
    ensures
        Shell::Expr(expr_shell(*final(expr))) == marked(
            Mark::Signature { effects, handed, params },
            Shell::Expr(expr_shell(*old(expr))),
        ),
        still_below(old(expr), final(expr)),
{
    let ghost mark = Mark::Signature { effects, handed, params };
    proof {
        lemma_info_shell(*expr, marked_info(mark, expr.spec_info()));
    }
    assert(marked_params(mark, Seq::empty()) =~= Seq::empty());
    let info = expr.info_mut();
    write_type(&mut info.ty, effects, handed);
    match expr {
        Expr::FuncLit { params: list, .. } => {
            write_params(list, params);
        },
        _ => {},
    }
    proof {
        if *old(expr) is FuncLit {
            assert forall|walk: Walk, scope: Option<FunctionId>, p: Position|
                #![trigger below(walk, scope, expr, p)]
                tracks(
                    below(walk, scope, old(expr), p),
                    below(walk, scope, expr, p),
                    Seq::empty(),
                ) by {
                let a = below(walk, scope, old(expr), p);
                let b = below(walk, scope, expr, p);
                assert(a.len() == b.len());
                assert forall|i: int| #![trigger b[i]] 0 <= i < a.len() implies b[i].scope
                    == a[i].scope && shell_of(b[i]) == marked(Mark::Keep, shell_of(a[i])) by {
                    lemma_keep(a[i]);
                    if i < a.len() - 1 {
                        assert(a[i] == b[i]);
                    }
                }
            }
        } else {
            lemma_info_still_below(old(expr), expr);
        }
    }
}

/// Writes how a value is returned and what a call hands back.
fn write_outcome(
    pass: Option<ReturnPass>,
    handed: Option<CallResult>,
    effect: Option<ReturnEffect>,
    expr: &mut Expr,
)
    ensures
        Shell::Expr(expr_shell(*final(expr))) == marked(
            Mark::Outcome { pass, result: handed, effect },
            Shell::Expr(expr_shell(*old(expr))),
        ),
        still_below(old(expr), final(expr)),
{
    let ghost mark = Mark::Outcome { pass, result: handed, effect };
    proof {
        lemma_info_shell(*expr, marked_info(mark, expr.spec_info()));
    }
    let info = expr.info_mut();
    write_info(info, pass, &handed);
    proof {
        lemma_info_still_below(old(expr), expr);
    }
    if let Some(handed) = handed {
        match expr {
            Expr::Call { result, .. } => {
                *result = Some(Box::new(handed));
                proof {
                    lemma_operands_below(old(expr), expr);
                }
            },
            Expr::MethodCall { result, target, .. } => {
                *result = Some(Box::new(handed));
                if let MethodTarget::User { return_effect, .. } = target {
                    *return_effect = effect;
                }
                proof {
                    lemma_operands_below(old(expr), expr);
                }
            },
            _ => {},
        }
    }
}

fn write_info(info: &mut ExprInfo, pass: Option<ReturnPass>, handed: &Option<CallResult>)
    ensures
        *final(info) == with_outcome(*old(info), pass, *handed),
{
    if let Some(pass) = pass {
        info.return_pass = Some(Box::new(pass));
    }
    match handed {
        Some(CallResult::Owned) => {
            info.category = Some(ExprCategory::Value(ValueCategory::OwnedTemporary));
            info.ownership_capability = Some(OwnershipCapability::Available);
        },
        Some(CallResult::Borrowed { .. }) => {
            info.category = Some(ExprCategory::Value(ValueCategory::BorrowedValue));
            info.ownership_capability = Some(OwnershipCapability::Absent);
        },
        _ => {},
    }
}

/// Writes the kind of a loan.
fn write_kind(inferred: BorrowKind, expr: &mut Expr)
    ensures
        Shell::Expr(expr_shell(*final(expr))) == marked(
            Mark::Kind(inferred),
            Shell::Expr(expr_shell(*old(expr))),
        ),
        still_below(old(expr), final(expr)),
{
    proof {
        lemma_info_shell(*expr, expr.spec_info());
    }
    match expr {
        Expr::Borrow { kind, .. } => {
            *kind = Some(inferred);
        },
        Expr::Refer { kind, .. } => {
            *kind = Some(inferred);
        },
        Expr::Call { result: Some(handed), .. } => {
            write_result_kind(inferred, &mut **handed);
        },
        Expr::MethodCall { result: Some(handed), .. } => {
            write_result_kind(inferred, &mut **handed);
        },
        _ => {},
    }
    proof {
        assert forall|walk: Walk, scope: Option<FunctionId>, p: Position|
            #![trigger below(walk, scope, expr, p)]
            tracks(
                below(walk, scope, old(expr), p),
                below(walk, scope, expr, p),
                Seq::empty(),
            ) by {
            let a = below(walk, scope, old(expr), p);
            let b = below(walk, scope, expr, p);
            if *old(expr) is Call || *old(expr) is MethodCall {
                lemma_operands_below(old(expr), expr);
            } else if *old(expr) is Borrow || *old(expr) is Refer {
                assert(a =~= b);
                assert forall|i: int| #![trigger b[i]] 0 <= i < a.len() implies shell_of(b[i])
                    == marked(Mark::Keep, shell_of(a[i])) by {
                    lemma_keep(a[i]);
                }
            } else {
                lemma_info_below(walk, scope, old(expr), expr, p);
            }
        }
    }
}

/// Writes how the variables of the arms of a match get their values.
fn write_arms_of(operations: Vec<Option<PatternBindingOperation>>, expr: &mut Expr)
    ensures
        Shell::Expr(expr_shell(*final(expr))) == marked(
            Mark::Arms(operations),
            Shell::Expr(expr_shell(*old(expr))),
        ),
        still_below(old(expr), final(expr)),
{
    proof {
        lemma_info_shell(*expr, expr.spec_info());
    }
    assert(marked_arms(Mark::Arms(operations), Seq::empty()) =~= Seq::empty());
    match expr {
        Expr::Match { arms, .. } => {
            write_arms(arms, operations);
        },
        _ => {},
    }
    proof {
        assert forall|walk: Walk, scope: Option<FunctionId>, p: Position|
            #![trigger below(walk, scope, expr, p)]
            tracks(
                below(walk, scope, old(expr), p),
                below(walk, scope, expr, p),
                Seq::empty(),
            ) by {
            let a = below(walk, scope, old(expr), p);
            let b = below(walk, scope, expr, p);
            if *old(expr) is Match {
                assert(arm_walks(walk, scope, (*old(expr))->arms@) =~= arm_walks(
                    walk,
                    scope,
                    (*expr)->arms@,
                ));
                assert(a =~= b);
                assert forall|i: int| #![trigger b[i]] 0 <= i < a.len() implies shell_of(b[i])
                    == marked(Mark::Keep, shell_of(a[i])) by {
                    lemma_keep(a[i]);
                }
            } else {
                lemma_info_below(walk, scope, old(expr), expr, p);
            }
        }
    }
}

/// Writes what a function takes from its surroundings.
fn write_captures(list: Vec<Capture>, expr: &mut Expr)
    ensures
        Shell::Expr(expr_shell(*final(expr))) == marked(
            Mark::Captures(list),
            Shell::Expr(expr_shell(*old(expr))),
        ),
        still_below(old(expr), final(expr)),
{
    proof {
        lemma_info_shell(*expr, expr.spec_info());
    }
    match expr {
        Expr::FuncLit { captures, .. } => {
            *captures = list;
        },
        _ => {},
    }
    proof {
        assert forall|walk: Walk, scope: Option<FunctionId>, p: Position|
            #![trigger below(walk, scope, expr, p)]
            tracks(
                below(walk, scope, old(expr), p),
                below(walk, scope, expr, p),
                Seq::empty(),
            ) by {
            let a = below(walk, scope, old(expr), p);
            let b = below(walk, scope, expr, p);
            if *old(expr) is FuncLit {
                assert(a.len() == b.len());
                assert forall|i: int| #![trigger b[i]] 0 <= i < a.len() implies b[i].scope
                    == a[i].scope && shell_of(b[i]) == marked(Mark::Keep, shell_of(a[i])) by {
                    lemma_keep(a[i]);
                    if i < a.len() - 1 {
                        assert(a[i] == b[i]);
                    }
                }
            } else {
                lemma_info_below(walk, scope, old(expr), expr, p);
            }
        }
    }
}

proof fn lemma_tracks_then<'a>(
    a: Seq<Visit<'a>>,
    b: Seq<Visit<'a>>,
    c: Seq<Visit<'a>>,
    marks: Seq<Mark>,
)
    requires
        tracks(a, b, marks),
        tracks(b, c, Seq::empty()),
    ensures
        tracks(a, c, marks),
{
    assert forall|i: int| #![trigger c[i]] 0 <= i < a.len() implies c[i].scope == a[i].scope
        && shell_of(c[i]) == marked(mark_at(marks, i), shell_of(a[i])) by {
        assert(b[i].scope == a[i].scope);
        lemma_keep(b[i]);
    }
}

/// Writes the marks of an expression and of everything below it.
pub fn mark_expr(walk: Walk, expr: &mut Expr, marks: &mut Marks)
    requires
        mark_walk(walk),
    ensures
        expr_tracked(walk, old(expr), final(expr), old(marks)@, final(marks)@),
    decreases *old(expr), 1nat,
{
    let ghost start = marks@;
    let mark = marks.take();
    let ghost next = marks@;
    match expr {
        Expr::Cast { .. } | Expr::Neg { .. } | Expr::Not { .. } | Expr::BitNot { .. }
        | Expr::Propagate { .. } | Expr::Field { .. } | Expr::Convert { .. } => {
            mark_operand(walk, expr, marks);
        },
        Expr::Binary { .. } | Expr::Index { .. } | Expr::Ternary { .. } => {
            mark_operands(walk, expr, marks);
        },
        Expr::Call { .. } | Expr::MethodCall { .. } => {
            mark_call(walk, expr, marks);
        },
        Expr::Str(..) | Expr::ArrayLit { .. } | Expr::Match { .. } | Expr::FuncLit { .. } => {
            mark_list(walk, expr, marks);
        },
        Expr::ReadPlace { .. } | Expr::Move { .. } | Expr::Borrow { .. } | Expr::Refer { .. } => {
            mark_source(walk, expr, marks);
        },
        _ => {
            proof {
                assert forall|scope: Option<FunctionId>, p: Position, q: Position|
                    #![trigger below(walk, scope, old(expr), p), below(walk, scope, expr, q)]
                    moves(
                        below(walk, scope, old(expr), p),
                        below(walk, scope, expr, q),
                        next,
                        marks@,
                    ) by {
                    lemma_tracks_none(next);
                    assert(below(walk, scope, old(expr), p) =~= Seq::empty());
                    assert(below(walk, scope, expr, q) =~= Seq::empty());
                }
            }
        },
    }
    let ghost middle = *expr;
    write_expr(mark, expr);
    proof {
        assert forall|scope: Option<FunctionId>, p: Position, q: Position|
            #![trigger walk_expr(walk, scope, old(expr), p), walk_expr(walk, scope, expr, q)]
            moves(
                walk_expr(walk, scope, old(expr), p),
                walk_expr(walk, scope, expr, q),
                start,
                marks@,
            ) by {
            let v = expr_visit(scope, old(expr), p);
            let w = expr_visit(scope, expr, q);
            let kids = below(walk, scope, old(expr), p);
            let middle_kids = below(walk, scope, &middle, q);
            let new_kids = below(walk, scope, expr, q);
            assert(tracks(kids, middle_kids, next));
            lemma_tracks_then(kids, middle_kids, new_kids, next);
            lemma_walk_head(walk, scope, old(expr), p);
            lemma_walk_head(walk, scope, expr, q);
            lemma_tracks_node(v, w, kids, new_kids, start);
        }
    }
}

proof fn lemma_walk_head<'a>(
    walk: Walk,
    scope: Option<FunctionId>,
    expr: &'a Expr,
    p: Position<'a>,
)
    ensures
        walk_expr(walk, scope, expr, p) == seq![expr_visit(scope, expr, p)] + below(
            walk,
            scope,
            expr,
            p,
        ),
{
    assert(walk_expr(walk, scope, expr, p) =~= seq![expr_visit(scope, expr, p)] + below(
        walk,
        scope,
        expr,
        p,
    ));
}

/// Writes the marks of expressions in order.
fn mark_elems(walk: Walk, list: &mut Vec<Expr>, marks: &mut Marks)
    requires
        mark_walk(walk),
    ensures
        elems_tracked(walk, old(list)@, final(list)@, old(marks)@, final(marks)@),
    decreases old(list)@, 0nat,
{
    let ghost start = marks@;
    let ghost before = list@;
    let mut i: usize = 0;
    proof {
        assert forall|scope: Option<FunctionId>|
            #![trigger elem_walks(walk, scope, before.take(0)),
                elem_walks(walk, scope, list@.take(0))]
            moves(
                elem_walks(walk, scope, before.take(0)).flatten(),
                elem_walks(walk, scope, list@.take(0)).flatten(),
                start,
                marks@,
            ) by {
            assert(elem_walks(walk, scope, before.take(0)) =~= Seq::empty());
            assert(elem_walks(walk, scope, list@.take(0)) =~= Seq::empty());
            assert(Seq::<Seq<Visit>>::empty().flatten() =~= Seq::empty());
            lemma_tracks_none(start);
        }
    }
    while i < list.len()
        invariant
            i <= list.len(),
            mark_walk(walk),
            before == old(list)@,
            list@.len() == before.len(),
            forall|k: int| i <= k < list@.len() ==> list@[k] == before[k],
            elems_tracked(walk, before.take(i as int), list@.take(i as int), start, marks@),
        decreases list.len() - i,
    {
        let ghost item0 = list@[i as int];
        let ghost list0 = list@;
        assert(item0 == before[i as int]);
        mark_expr(walk, &mut list[i], marks);
        proof {
            let item = list@[i as int];
            let n = i as int;
            assert(list@.take(n) =~= list0.take(n));
            assert forall|scope: Option<FunctionId>|
                #![trigger elem_walks(walk, scope, before.take(n + 1)),
                    elem_walks(walk, scope, list@.take(n + 1))]
                moves(
                    elem_walks(walk, scope, before.take(n + 1)).flatten(),
                    elem_walks(walk, scope, list@.take(n + 1)).flatten(),
                    start,
                    marks@,
                ) by {
                let done = elem_walks(walk, scope, before.take(n));
                let new_done = elem_walks(walk, scope, list@.take(n));
                let one = walk_expr(walk, scope, &item0, Position::Stored);
                let new_one = walk_expr(walk, scope, &item, Position::Stored);
                assert(elem_walks(walk, scope, before.take(n + 1)) =~= done.push(one));
                assert(elem_walks(walk, scope, list@.take(n + 1)) =~= new_done.push(new_one));
                done.lemma_flatten_push(one);
                new_done.lemma_flatten_push(new_one);
                lemma_tracks_add(done.flatten(), new_done.flatten(), one, new_one, start);
            }
        }
        i += 1;
    }
    assert(before.take(i as int) =~= before);
    assert(list@.take(i as int) =~= list@);
}

/// Writes the marks of statements in order.
fn mark_stmts(walk: Walk, list: &mut Vec<Stmt>, marks: &mut Marks)
    requires
        mark_walk(walk),
    ensures
        stmts_tracked(walk, old(list)@, final(list)@, old(marks)@, final(marks)@),
    decreases old(list)@, 0nat,
{
    let ghost start = marks@;
    let ghost before = list@;
    let mut i: usize = 0;
    proof {
        assert forall|scope: Option<FunctionId>|
            #![trigger stmt_walks(walk, scope, before.take(0)),
                stmt_walks(walk, scope, list@.take(0))]
            moves(
                stmt_walks(walk, scope, before.take(0)).flatten(),
                stmt_walks(walk, scope, list@.take(0)).flatten(),
                start,
                marks@,
            ) by {
            assert(stmt_walks(walk, scope, before.take(0)) =~= Seq::empty());
            assert(stmt_walks(walk, scope, list@.take(0)) =~= Seq::empty());
            assert(Seq::<Seq<Visit>>::empty().flatten() =~= Seq::empty());
            lemma_tracks_none(start);
        }
    }
    while i < list.len()
        invariant
            i <= list.len(),
            mark_walk(walk),
            before == old(list)@,
            list@.len() == before.len(),
            forall|k: int| i <= k < list@.len() ==> list@[k] == before[k],
            stmts_tracked(walk, before.take(i as int), list@.take(i as int), start, marks@),
        decreases list.len() - i,
    {
        let ghost item0 = list@[i as int];
        let ghost list0 = list@;
        assert(item0 == before[i as int]);
        mark_stmt(walk, &mut list[i], marks);
        proof {
            let item = list@[i as int];
            let n = i as int;
            assert(list@.take(n) =~= list0.take(n));
            assert forall|scope: Option<FunctionId>|
                #![trigger stmt_walks(walk, scope, before.take(n + 1)),
                    stmt_walks(walk, scope, list@.take(n + 1))]
                moves(
                    stmt_walks(walk, scope, before.take(n + 1)).flatten(),
                    stmt_walks(walk, scope, list@.take(n + 1)).flatten(),
                    start,
                    marks@,
                ) by {
                let done = stmt_walks(walk, scope, before.take(n));
                let new_done = stmt_walks(walk, scope, list@.take(n));
                let one = walk_stmt(walk, scope, &item0);
                let new_one = walk_stmt(walk, scope, &item);
                assert(stmt_walks(walk, scope, before.take(n + 1)) =~= done.push(one));
                assert(stmt_walks(walk, scope, list@.take(n + 1)) =~= new_done.push(new_one));
                done.lemma_flatten_push(one);
                new_done.lemma_flatten_push(new_one);
                lemma_tracks_add(done.flatten(), new_done.flatten(), one, new_one, start);
            }
        }
        i += 1;
    }
    assert(before.take(i as int) =~= before);
    assert(list@.take(i as int) =~= list@);
}

/// Writes the marks of arguments in order.
fn mark_args(walk: Walk, list: &mut Vec<CallArg>, marks: &mut Marks)
    requires
        mark_walk(walk),
    ensures
        args_tracked(walk, old(list)@, final(list)@, old(marks)@, final(marks)@),
        arg_passes(final(list)@) == arg_passes(old(list)@),
    decreases old(list)@, 0nat,
{
    let ghost start = marks@;
    let ghost before = list@;
    let mut i: usize = 0;
    proof {
        assert forall|scope: Option<FunctionId>, p: Position, q: Position|
            #![trigger arg_walks(walk, scope, before.take(0), p),
                arg_walks(walk, scope, list@.take(0), q)]
            moves(
                arg_walks(walk, scope, before.take(0), p).flatten(),
                arg_walks(walk, scope, list@.take(0), q).flatten(),
                start,
                marks@,
            ) by {
            assert(arg_walks(walk, scope, before.take(0), p) =~= Seq::empty());
            assert(arg_walks(walk, scope, list@.take(0), q) =~= Seq::empty());
            assert(Seq::<Seq<Visit>>::empty().flatten() =~= Seq::empty());
            lemma_tracks_none(start);
        }
    }
    while i < list.len()
        invariant
            i <= list.len(),
            mark_walk(walk),
            before == old(list)@,
            list@.len() == before.len(),
            forall|k: int| i <= k < list@.len() ==> list@[k] == before[k],
            args_tracked(walk, before.take(i as int), list@.take(i as int), start, marks@),
            forall|k: int| 0 <= k < list@.len() ==> (#[trigger] list@[k]).pass == before[k].pass,
        decreases list.len() - i,
    {
        let ghost item0 = list@[i as int];
        let ghost list0 = list@;
        assert(item0 == before[i as int]);
        mark_expr(walk, &mut list[i].value, marks);
        proof {
            let item = list@[i as int];
            let n = i as int;
            assert(list@.take(n) =~= list0.take(n));
            assert forall|scope: Option<FunctionId>, p: Position, q: Position|
                #![trigger arg_walks(walk, scope, before.take(n + 1), p),
                    arg_walks(walk, scope, list@.take(n + 1), q)]
                moves(
                    arg_walks(walk, scope, before.take(n + 1), p).flatten(),
                    arg_walks(walk, scope, list@.take(n + 1), q).flatten(),
                    start,
                    marks@,
                ) by {
                let done = arg_walks(walk, scope, before.take(n), p);
                let new_done = arg_walks(walk, scope, list@.take(n), q);
                let one = walk_expr(walk, scope, &item0.value, p);
                let new_one = walk_expr(walk, scope, &item.value, q);
                assert(arg_walks(walk, scope, before.take(n + 1), p) =~= done.push(one));
                assert(arg_walks(walk, scope, list@.take(n + 1), q) =~= new_done.push(new_one));
                done.lemma_flatten_push(one);
                new_done.lemma_flatten_push(new_one);
                lemma_tracks_add(done.flatten(), new_done.flatten(), one, new_one, start);
            }
        }
        i += 1;
    }
    assert(before.take(i as int) =~= before);
    assert(list@.take(i as int) =~= list@);
}

pub open spec fn part_walk<'a>(
    walk: Walk,
    scope: Option<FunctionId>,
    part: &'a StrPart,
) -> Seq<Visit<'a>> {
    match part {
        StrPart::Lit(_) => Seq::empty(),
        StrPart::Hole(hole) => walk_expr(walk, scope, hole, Position::Plain),
    }
}

pub open spec fn arm_walk<'a>(
    walk: Walk,
    scope: Option<FunctionId>,
    arm: &'a MatchArm,
) -> Seq<Visit<'a>> {
    match arm.body {
        ArmBody::Block(stmts) => stmt_walks(walk, scope, stmts@).flatten(),
        ArmBody::Value(value) => walk_expr(walk, scope, &value, Position::Plain),
        ArmBody::Ret(value) => walk_expr(walk, scope, &value, Position::Returned(&value)),
    }
}

pub open spec fn branch_walk<'a>(
    walk: Walk,
    scope: Option<FunctionId>,
    branch: &'a (Expr, Vec<Stmt>),
) -> Seq<Visit<'a>> {
    walk_expr(walk, scope, &branch.0, Position::Plain) + stmt_walks(
        walk,
        scope,
        branch.1@,
    ).flatten()
}

/// Writes the marks of the parts of a string in order.
fn mark_parts(walk: Walk, list: &mut Vec<StrPart>, marks: &mut Marks)
    requires
        mark_walk(walk),
    ensures
        parts_tracked(walk, old(list)@, final(list)@, old(marks)@, final(marks)@),
        part_shells(final(list)@) == part_shells(old(list)@),
    decreases old(list)@, 0nat,
{
    let ghost start = marks@;
    let ghost before = list@;
    let mut i: usize = 0;
    proof {
        assert forall|scope: Option<FunctionId>|
            #![trigger part_walks(walk, scope, before.take(0)),
                part_walks(walk, scope, list@.take(0))]
            moves(
                part_walks(walk, scope, before.take(0)).flatten(),
                part_walks(walk, scope, list@.take(0)).flatten(),
                start,
                marks@,
            ) by {
            assert(part_walks(walk, scope, before.take(0)) =~= Seq::empty());
            assert(part_walks(walk, scope, list@.take(0)) =~= Seq::empty());
            assert(Seq::<Seq<Visit>>::empty().flatten() =~= Seq::empty());
            lemma_tracks_none(start);
        }
    }
    while i < list.len()
        invariant
            i <= list.len(),
            mark_walk(walk),
            before == old(list)@,
            list@.len() == before.len(),
            forall|k: int| i <= k < list@.len() ==> list@[k] == before[k],
            parts_tracked(walk, before.take(i as int), list@.take(i as int), start, marks@),
            part_shells(list@) == part_shells(before),
        decreases list.len() - i,
    {
        let ghost item0 = list@[i as int];
        let ghost list0 = list@;
        let ghost middle = marks@;
        assert(item0 == before[i as int]);
        match &mut list[i] {
            StrPart::Lit(_) => {
                proof {
                    lemma_tracks_none(middle);
                }
            },
            StrPart::Hole(hole) => {
                mark_expr(walk, hole, marks);
            },
        }
        assert(part_shells(list@) =~= part_shells(before));
        proof {
            let item = list@[i as int];
            let n = i as int;
            assert(list@.take(n) =~= list0.take(n));
            assert forall|scope: Option<FunctionId>|
                #![trigger part_walks(walk, scope, before.take(n + 1)),
                    part_walks(walk, scope, list@.take(n + 1))]
                moves(
                    part_walks(walk, scope, before.take(n + 1)).flatten(),
                    part_walks(walk, scope, list@.take(n + 1)).flatten(),
                    start,
                    marks@,
                ) by {
                let done = part_walks(walk, scope, before.take(n));
                let new_done = part_walks(walk, scope, list@.take(n));
                let one = part_walk(walk, scope, &item0);
                let new_one = part_walk(walk, scope, &item);
                assert(part_walks(walk, scope, before.take(n + 1)) =~= done.push(one));
                assert(part_walks(walk, scope, list@.take(n + 1)) =~= new_done.push(new_one));
                done.lemma_flatten_push(one);
                new_done.lemma_flatten_push(new_one);
                match (item0, item) {
                    (StrPart::Hole(a), StrPart::Hole(b)) => {
                        let x = walk_expr(walk, scope, &a, Position::Plain);
                        let y = walk_expr(walk, scope, &b, Position::Plain);
                        assert(tracks(x, y, middle));
                    },
                    _ => {
                        lemma_tracks_none(middle);
                    },
                }
                lemma_tracks_add(done.flatten(), new_done.flatten(), one, new_one, start);
            }
        }
        i += 1;
    }
    assert(before.take(i as int) =~= before);
    assert(list@.take(i as int) =~= list@);
}

/// Writes the marks below the arms of a match in order.
fn mark_arms(walk: Walk, list: &mut Vec<MatchArm>, marks: &mut Marks)
    requires
        mark_walk(walk),
    ensures
        arms_tracked(walk, old(list)@, final(list)@, old(marks)@, final(marks)@),
        arm_shells(final(list)@) == arm_shells(old(list)@),
    decreases old(list)@, 0nat,
{
    let ghost start = marks@;
    let ghost before = list@;
    let mut i: usize = 0;
    proof {
        assert forall|scope: Option<FunctionId>|
            #![trigger arm_walks(walk, scope, before.take(0)),
                arm_walks(walk, scope, list@.take(0))]
            moves(
                arm_walks(walk, scope, before.take(0)).flatten(),
                arm_walks(walk, scope, list@.take(0)).flatten(),
                start,
                marks@,
            ) by {
            assert(arm_walks(walk, scope, before.take(0)) =~= Seq::empty());
            assert(arm_walks(walk, scope, list@.take(0)) =~= Seq::empty());
            assert(Seq::<Seq<Visit>>::empty().flatten() =~= Seq::empty());
            lemma_tracks_none(start);
        }
    }
    while i < list.len()
        invariant
            i <= list.len(),
            mark_walk(walk),
            before == old(list)@,
            list@.len() == before.len(),
            forall|k: int| i <= k < list@.len() ==> list@[k] == before[k],
            arms_tracked(walk, before.take(i as int), list@.take(i as int), start, marks@),
            arm_shells(list@) == arm_shells(before),
        decreases list.len() - i,
    {
        let ghost item0 = list@[i as int];
        let ghost list0 = list@;
        let ghost middle = marks@;
        assert(item0 == before[i as int]);
        match &mut list[i].body {
            ArmBody::Block(stmts) => {
                mark_stmts(walk, stmts, marks);
            },
            ArmBody::Value(value) => {
                mark_expr(walk, value, marks);
            },
            ArmBody::Ret(value) => {
                mark_expr(walk, value, marks);
            },
        }
        assert(arm_shells(list@) =~= arm_shells(before));
        proof {
            let item = list@[i as int];
            let n = i as int;
            assert(list@.take(n) =~= list0.take(n));
            assert forall|scope: Option<FunctionId>|
                #![trigger arm_walks(walk, scope, before.take(n + 1)),
                    arm_walks(walk, scope, list@.take(n + 1))]
                moves(
                    arm_walks(walk, scope, before.take(n + 1)).flatten(),
                    arm_walks(walk, scope, list@.take(n + 1)).flatten(),
                    start,
                    marks@,
                ) by {
                let done = arm_walks(walk, scope, before.take(n));
                let new_done = arm_walks(walk, scope, list@.take(n));
                let one = arm_walk(walk, scope, &item0);
                let new_one = arm_walk(walk, scope, &item);
                assert(arm_walks(walk, scope, before.take(n + 1)) =~= done.push(one));
                assert(arm_walks(walk, scope, list@.take(n + 1)) =~= new_done.push(new_one));
                done.lemma_flatten_push(one);
                new_done.lemma_flatten_push(new_one);
                match (item0.body, item.body) {
                    (ArmBody::Block(a), ArmBody::Block(b)) => {
                        let x = stmt_walks(walk, scope, a@);
                        let y = stmt_walks(walk, scope, b@);
                        assert(tracks(x.flatten(), y.flatten(), middle));
                    },
                    (ArmBody::Value(a), ArmBody::Value(b)) => {
                        let x = walk_expr(walk, scope, &a, Position::Plain);
                        let y = walk_expr(walk, scope, &b, Position::Plain);
                        assert(tracks(x, y, middle));
                    },
                    (ArmBody::Ret(a), ArmBody::Ret(b)) => {
                        let x = walk_expr(walk, scope, &a, Position::Returned(&a));
                        let y = walk_expr(walk, scope, &b, Position::Returned(&b));
                        assert(tracks(x, y, middle));
                    },
                    _ => {},
                }
                lemma_tracks_add(done.flatten(), new_done.flatten(), one, new_one, start);
            }
        }
        i += 1;
    }
    assert(before.take(i as int) =~= before);
    assert(list@.take(i as int) =~= list@);
}

/// Writes the marks of the branches of an `if` in order.
fn mark_branches(walk: Walk, list: &mut Vec<(Expr, Vec<Stmt>)>, marks: &mut Marks)
    requires
        mark_walk(walk),
    ensures
        branches_tracked(walk, old(list)@, final(list)@, old(marks)@, final(marks)@),
        branch_shells(final(list)@) == branch_shells(old(list)@),
    decreases old(list)@, 0nat,
{
    let ghost start = marks@;
    let ghost before = list@;
    let mut i: usize = 0;
    proof {
        assert forall|scope: Option<FunctionId>|
            #![trigger branch_walks(walk, scope, before.take(0)),
                branch_walks(walk, scope, list@.take(0))]
            moves(
                branch_walks(walk, scope, before.take(0)).flatten(),
                branch_walks(walk, scope, list@.take(0)).flatten(),
                start,
                marks@,
            ) by {
            assert(branch_walks(walk, scope, before.take(0)) =~= Seq::empty());
            assert(branch_walks(walk, scope, list@.take(0)) =~= Seq::empty());
            assert(Seq::<Seq<Visit>>::empty().flatten() =~= Seq::empty());
            lemma_tracks_none(start);
        }
    }
    while i < list.len()
        invariant
            i <= list.len(),
            mark_walk(walk),
            before == old(list)@,
            list@.len() == before.len(),
            forall|k: int| i <= k < list@.len() ==> list@[k] == before[k],
            branches_tracked(walk, before.take(i as int), list@.take(i as int), start, marks@),
            branch_shells(list@) == branch_shells(before),
        decreases list.len() - i,
    {
        let ghost item0 = list@[i as int];
        let ghost list0 = list@;
        let ghost middle = marks@;
        assert(item0 == before[i as int]);
        mark_expr(walk, &mut list[i].0, marks);
        let ghost between = marks@;
        mark_stmts(walk, &mut list[i].1, marks);
        assert(branch_shells(list@) =~= branch_shells(before));
        proof {
            let item = list@[i as int];
            let n = i as int;
            assert(list@.take(n) =~= list0.take(n));
            assert forall|scope: Option<FunctionId>|
                #![trigger branch_walks(walk, scope, before.take(n + 1)),
                    branch_walks(walk, scope, list@.take(n + 1))]
                moves(
                    branch_walks(walk, scope, before.take(n + 1)).flatten(),
                    branch_walks(walk, scope, list@.take(n + 1)).flatten(),
                    start,
                    marks@,
                ) by {
                let done = branch_walks(walk, scope, before.take(n));
                let new_done = branch_walks(walk, scope, list@.take(n));
                let one = branch_walk(walk, scope, &item0);
                let new_one = branch_walk(walk, scope, &item);
                assert(branch_walks(walk, scope, before.take(n + 1)) =~= done.push(one));
                assert(branch_walks(walk, scope, list@.take(n + 1)) =~= new_done.push(new_one));
                done.lemma_flatten_push(one);
                new_done.lemma_flatten_push(new_one);
                let cond = walk_expr(walk, scope, &item0.0, Position::Plain);
                let new_cond = walk_expr(walk, scope, &item.0, Position::Plain);
                let body = stmt_walks(walk, scope, item0.1@);
                let new_body = stmt_walks(walk, scope, item.1@);
                assert(tracks(cond, new_cond, middle));
                assert(tracks(body.flatten(), new_body.flatten(), between));
                lemma_tracks_add(cond, new_cond, body.flatten(), new_body.flatten(), middle);
                lemma_tracks_add(done.flatten(), new_done.flatten(), one, new_one, start);
            }
        }
        i += 1;
    }
    assert(before.take(i as int) =~= before);
    assert(list@.take(i as int) =~= list@);
}

/// Writes how the variables of the arms get their values.
fn write_arms(arms: &mut Vec<MatchArm>, operations: Vec<Option<PatternBindingOperation>>)
    ensures
        final(arms)@.len() == old(arms)@.len(),
        arm_shells(final(arms)@) == marked_arms(Mark::Arms(operations), arm_shells(old(arms)@)),
        forall|i: int|
            0 <= i < old(arms)@.len() ==> (#[trigger] final(arms)@[i]).body == old(arms)@[i].body,
{
    let ghost before = arms@;
    let ghost wanted = operations@;
    let mut left = operations;
    while left.len() > 0
        invariant
            arms@.len() == before.len(),
            left@.len() <= wanted.len(),
            left@ == wanted.take(left@.len() as int),
            forall|i: int|
                0 <= i < before.len() ==> #[trigger] arms@[i] == (if left@.len() <= i
                    < wanted.len() {
                    MatchArm { binding_operation: wanted[i], ..before[i] }
                } else {
                    before[i]
                }),
        decreases left.len(),
    {
        let at: usize = left.len() - 1;
        match left.pop() {
            Some(operation) => {
                assert(operation == wanted[at as int]);
                if at < arms.len() {
                    arms[at].binding_operation = operation;
                }
            },
            None => {},
        }
        assert(left@ =~= wanted.take(left@.len() as int));
    }
    assert(arm_shells(arms@) =~= marked_arms(Mark::Arms(operations), arm_shells(before)));
}

/// Writes the marks of a body.
fn mark_body(walk: Walk, body: &mut Body, marks: &mut Marks)
    requires
        mark_walk(walk),
    ensures
        body_tracked(walk, old(body), final(body), old(marks)@, final(marks)@),
    decreases *old(body), 0nat,
{
    let ghost start = marks@;
    match body {
        Body::Block(stmts) => {
            let ghost stmts0 = stmts@;
            mark_stmts(walk, stmts, marks);
            proof {
                assert forall|scope: Option<FunctionId>|
                    #![trigger walk_body(walk, scope, old(body)), walk_body(walk, scope, body)]
                    moves(
                        walk_body(walk, scope, old(body)),
                        walk_body(walk, scope, body),
                        start,
                        marks@,
                    ) by {
                    let x = stmt_walks(walk, scope, stmts0);
                    let y = stmt_walks(walk, scope, stmts@);
                    assert(tracks(x.flatten(), y.flatten(), start));
                }
            }
        },
        Body::Single(stmt) => {
            let ghost stmt0 = *stmt;
            mark_stmt(walk, stmt, marks);
            proof {
                assert forall|scope: Option<FunctionId>|
                    #![trigger walk_body(walk, scope, old(body)), walk_body(walk, scope, body)]
                    moves(
                        walk_body(walk, scope, old(body)),
                        walk_body(walk, scope, body),
                        start,
                        marks@,
                    ) by {
                    let x = walk_stmt(walk, scope, &stmt0);
                    let y = walk_stmt(walk, scope, &*stmt);
                    assert(tracks(x, y, start));
                }
            }
        },
    }
}

/// Writes a mark on a binding.
fn write_binding(mark: Mark, binding: &mut Binding)
    ensures
        binding_head(*final(binding)) == marked_binding(mark, binding_head(*old(binding))),
        final(binding).value == old(binding).value,
{
    match mark {
        Mark::Slot { operation, destroy_plan } => {
            binding.operation = Some(operation);
            binding.destroy_plan = Some(destroy_plan);
        },
        Mark::Signature { effects, handed, .. } => {
            write_type(&mut binding.ty, effects, handed);
        },
        Mark::Relation(relation) => {
            binding.relation = relation;
        },
        _ => {},
    }
}

/// Writes the marks of a statement and of everything below it.
fn mark_stmt(walk: Walk, stmt: &mut Stmt, marks: &mut Marks)
    requires
        mark_walk(walk),
    ensures
        stmt_tracked(walk, old(stmt), final(stmt), old(marks)@, final(marks)@),
    decreases *old(stmt), 0nat,
{
    let ghost start = marks@;
    let mark = marks.take();
    assert(marks@ == later(start, 1));
    match stmt {
        Stmt::Binding(binding) => {
            let ghost binding0 = *binding;
            mark_expr(walk, &mut binding.value, marks);
            write_binding(mark, binding);
            proof {
                assert forall|scope: Option<FunctionId>|
                    #![trigger walk_stmt(walk, scope, old(stmt)), walk_stmt(walk, scope, stmt)]
                    moves(
                        walk_stmt(walk, scope, old(stmt)),
                        walk_stmt(walk, scope, stmt),
                        start,
                        marks@,
                    ) by {
                    let v = stmt_visit(scope, old(stmt));
                    let w = stmt_visit(scope, stmt);
                    let kids = walk_expr(
                        walk,
                        scope,
                        &binding0.value,
                        Position::Initial(&binding0),
                    );
                    let new_kids = walk_expr(
                        walk,
                        scope,
                        &binding.value,
                        Position::Initial(&*binding),
                    );
                    assert(walk_stmt(walk, scope, old(stmt)) =~= seq![v] + kids);
                    assert(walk_stmt(walk, scope, stmt) =~= seq![w] + new_kids);
                    lemma_tracks_node(v, w, kids, new_kids, start);
                }
            }
        },
        Stmt::Assign { target, value, operation, destroy_plan } => {
            let ghost target0 = *target;
            let ghost value0 = *value;
            if walk.value_first {
                mark_expr(walk, value, marks);
                mark_place(walk, target, marks);
            } else {
                mark_place(walk, target, marks);
                mark_expr(walk, value, marks);
            }
            match mark {
                Mark::Write { operation: settled, destroy_plan: plan } => {
                    *operation = Some(settled);
                    *destroy_plan = Some(plan);
                },
                _ => {},
            }
            proof {
                assert forall|scope: Option<FunctionId>|
                    #![trigger walk_stmt(walk, scope, old(stmt)), walk_stmt(walk, scope, stmt)]
                    moves(
                        walk_stmt(walk, scope, old(stmt)),
                        walk_stmt(walk, scope, stmt),
                        start,
                        marks@,
                    ) by {
                    let v = stmt_visit(scope, old(stmt));
                    let w = stmt_visit(scope, stmt);
                    let value_before = walk_expr(
                        walk,
                        scope,
                        &value0,
                        Position::Assigned(&target0),
                    );
                    let value_after = walk_expr(
                        walk,
                        scope,
                        &*value,
                        Position::Assigned(&*target),
                    );
                    let place_before = walk_place(walk, scope, &target0);
                    let place_after = walk_place(walk, scope, &*target);
                    if walk.value_first {
                        lemma_tracks_add(
                            value_before,
                            value_after,
                            place_before,
                            place_after,
                            later(start, 1),
                        );
                    } else {
                        lemma_tracks_add(
                            place_before,
                            place_after,
                            value_before,
                            value_after,
                            later(start, 1),
                        );
                    }
                    let kids = if walk.value_first {
                        value_before + place_before
                    } else {
                        place_before + value_before
                    };
                    let new_kids = if walk.value_first {
                        value_after + place_after
                    } else {
                        place_after + value_after
                    };
                    assert(walk_stmt(walk, scope, old(stmt)) =~= seq![v] + kids);
                    assert(walk_stmt(walk, scope, stmt) =~= seq![w] + new_kids);
                    lemma_tracks_node(v, w, kids, new_kids, start);
                }
            }
        },
        Stmt::Expr { expr } => {
            let ghost expr0 = *expr;
            mark_expr(walk, expr, marks);
            proof {
                assert forall|scope: Option<FunctionId>|
                    #![trigger walk_stmt(walk, scope, old(stmt)), walk_stmt(walk, scope, stmt)]
                    moves(
                        walk_stmt(walk, scope, old(stmt)),
                        walk_stmt(walk, scope, stmt),
                        start,
                        marks@,
                    ) by {
                    let v = stmt_visit(scope, old(stmt));
                    let w = stmt_visit(scope, stmt);
                    let kids = walk_expr(walk, scope, &expr0, Position::Plain);
                    let new_kids = walk_expr(walk, scope, &*expr, Position::Plain);
                    assert(walk_stmt(walk, scope, old(stmt)) =~= seq![v] + kids);
                    assert(walk_stmt(walk, scope, stmt) =~= seq![w] + new_kids);
                    lemma_tracks_node(v, w, kids, new_kids, start);
                }
            }
        },
        Stmt::Return { value: Some(value) } => {
            let ghost value0 = *value;
            mark_expr(walk, value, marks);
            proof {
                assert forall|scope: Option<FunctionId>|
                    #![trigger walk_stmt(walk, scope, old(stmt)), walk_stmt(walk, scope, stmt)]
                    moves(
                        walk_stmt(walk, scope, old(stmt)),
                        walk_stmt(walk, scope, stmt),
                        start,
                        marks@,
                    ) by {
                    let v = stmt_visit(scope, old(stmt));
                    let w = stmt_visit(scope, stmt);
                    let kids = walk_expr(walk, scope, &value0, Position::Returned(&value0));
                    let new_kids = walk_expr(walk, scope, &*value, Position::Returned(&*value));
                    assert(walk_stmt(walk, scope, old(stmt)) =~= seq![v] + kids);
                    assert(walk_stmt(walk, scope, stmt) =~= seq![w] + new_kids);
                    lemma_tracks_node(v, w, kids, new_kids, start);
                }
            }
        },
        Stmt::Return { value: None } => {
            proof {
                assert forall|scope: Option<FunctionId>|
                    #![trigger walk_stmt(walk, scope, old(stmt)), walk_stmt(walk, scope, stmt)]
                    moves(
                        walk_stmt(walk, scope, old(stmt)),
                        walk_stmt(walk, scope, stmt),
                        start,
                        marks@,
                    ) by {
                    let v = stmt_visit(scope, old(stmt));
                    let w = stmt_visit(scope, stmt);
                    let kids = Seq::<Visit>::empty();
                    let new_kids = Seq::<Visit>::empty();
                    lemma_tracks_none(later(start, 1));
                    assert(walk_stmt(walk, scope, old(stmt)) =~= seq![v] + kids);
                    assert(walk_stmt(walk, scope, stmt) =~= seq![w] + new_kids);
                    lemma_tracks_node(v, w, kids, new_kids, start);
                }
            }
        },
        Stmt::If { branches, else_body } => {
            let ghost branches0 = branches@;
            let ghost else0 = *else_body;
            mark_branches(walk, branches, marks);
            let ghost between = marks@;
            match else_body {
                Some(body) => {
                    mark_stmts(walk, body, marks);
                },
                None => {},
            }
            proof {
                assert forall|scope: Option<FunctionId>|
                    #![trigger walk_stmt(walk, scope, old(stmt)), walk_stmt(walk, scope, stmt)]
                    moves(
                        walk_stmt(walk, scope, old(stmt)),
                        walk_stmt(walk, scope, stmt),
                        start,
                        marks@,
                    ) by {
                    let v = stmt_visit(scope, old(stmt));
                    let w = stmt_visit(scope, stmt);
                    let branches_before = branch_walks(walk, scope, branches0).flatten();
                    let branches_after = branch_walks(walk, scope, branches@).flatten();
                    let body_before = match else0 {
                        Some(body) => stmt_walks(walk, scope, body@).flatten(),
                        None => Seq::empty(),
                    };
                    let body_after = match *else_body {
                        Some(body) => stmt_walks(walk, scope, body@).flatten(),
                        None => Seq::empty(),
                    };
                    assert(tracks(branches_before, branches_after, later(start, 1)));
                    if else0 is None {
                        lemma_tracks_none(between);
                    }
                    assert(tracks(body_before, body_after, between));
                    lemma_tracks_add(
                        branches_before,
                        branches_after,
                        body_before,
                        body_after,
                        later(start, 1),
                    );
                    let kids = branches_before + body_before;
                    let new_kids = branches_after + body_after;
                    assert(walk_stmt(walk, scope, old(stmt)) =~= seq![v] + kids);
                    assert(walk_stmt(walk, scope, stmt) =~= seq![w] + new_kids);
                    lemma_tracks_node(v, w, kids, new_kids, start);
                }
            }
        },
        Stmt::While { cond, body } => {
            let ghost cond0 = *cond;
            let ghost body0 = body@;
            mark_expr(walk, cond, marks);
            mark_stmts(walk, body, marks);
            proof {
                assert forall|scope: Option<FunctionId>|
                    #![trigger walk_stmt(walk, scope, old(stmt)), walk_stmt(walk, scope, stmt)]
                    moves(
                        walk_stmt(walk, scope, old(stmt)),
                        walk_stmt(walk, scope, stmt),
                        start,
                        marks@,
                    ) by {
                    let v = stmt_visit(scope, old(stmt));
                    let w = stmt_visit(scope, stmt);
                    let cond_before = walk_expr(walk, scope, &cond0, Position::Plain);
                    let cond_after = walk_expr(walk, scope, &*cond, Position::Plain);
                    let body_before = stmt_walks(walk, scope, body0).flatten();
                    let body_after = stmt_walks(walk, scope, body@).flatten();
                    lemma_tracks_add(
                        cond_before,
                        cond_after,
                        body_before,
                        body_after,
                        later(start, 1),
                    );
                    let kids = cond_before + body_before;
                    let new_kids = cond_after + body_after;
                    assert(walk_stmt(walk, scope, old(stmt)) =~= seq![v] + kids);
                    assert(walk_stmt(walk, scope, stmt) =~= seq![w] + new_kids);
                    lemma_tracks_node(v, w, kids, new_kids, start);
                }
            }
        },
        Stmt::For { iterable, body, .. } => {
            let ghost iterable0 = *iterable;
            let ghost body0 = body@;
            mark_expr(walk, iterable, marks);
            mark_stmts(walk, body, marks);
            proof {
                assert forall|scope: Option<FunctionId>|
                    #![trigger walk_stmt(walk, scope, old(stmt)), walk_stmt(walk, scope, stmt)]
                    moves(
                        walk_stmt(walk, scope, old(stmt)),
                        walk_stmt(walk, scope, stmt),
                        start,
                        marks@,
                    ) by {
                    let v = stmt_visit(scope, old(stmt));
                    let w = stmt_visit(scope, stmt);
                    let iterable_before = walk_expr(walk, scope, &iterable0, Position::Plain);
                    let iterable_after = walk_expr(walk, scope, &*iterable, Position::Plain);
                    let body_before = stmt_walks(walk, scope, body0).flatten();
                    let body_after = stmt_walks(walk, scope, body@).flatten();
                    lemma_tracks_add(
                        iterable_before,
                        iterable_after,
                        body_before,
                        body_after,
                        later(start, 1),
                    );
                    let kids = iterable_before + body_before;
                    let new_kids = iterable_after + body_after;
                    assert(walk_stmt(walk, scope, old(stmt)) =~= seq![v] + kids);
                    assert(walk_stmt(walk, scope, stmt) =~= seq![w] + new_kids);
                    lemma_tracks_node(v, w, kids, new_kids, start);
                }
            }
        },
        Stmt::Break | Stmt::Continue => {
            proof {
                assert forall|scope: Option<FunctionId>|
                    #![trigger walk_stmt(walk, scope, old(stmt)), walk_stmt(walk, scope, stmt)]
                    moves(
                        walk_stmt(walk, scope, old(stmt)),
                        walk_stmt(walk, scope, stmt),
                        start,
                        marks@,
                    ) by {
                    let v = stmt_visit(scope, old(stmt));
                    let w = stmt_visit(scope, stmt);
                    let kids = Seq::<Visit>::empty();
                    let new_kids = Seq::<Visit>::empty();
                    lemma_tracks_none(later(start, 1));
                    assert(walk_stmt(walk, scope, old(stmt)) =~= seq![v] + kids);
                    assert(walk_stmt(walk, scope, stmt) =~= seq![w] + new_kids);
                    lemma_tracks_node(v, w, kids, new_kids, start);
                }
            }
        },
    }
}

pub open spec fn default_walks<'a>(walk: Walk, fields: Seq<StructField>) -> Seq<Seq<Visit<'a>>> {
    Seq::new(
        fields.len(),
        |i: int|
            match fields[i].default {
                Some(default) => walk_expr(walk, None, &default, Position::Stored),
                None => Seq::empty(),
            },
    )
}

/// Writes the marks of the default values of fields in order.
fn mark_fields(walk: Walk, list: &mut Vec<StructField>, marks: &mut Marks)
    requires
        mark_walk(walk),
    ensures
        final(list)@.len() == old(list)@.len(),
        field_shells(final(list)@) == field_shells(old(list)@),
        moves(
            default_walks(walk, old(list)@).flatten(),
            default_walks(walk, final(list)@).flatten(),
            old(marks)@,
            final(marks)@,
        ),
{
    let ghost start = marks@;
    let ghost before = list@;
    let mut i: usize = 0;
    proof {
        assert(default_walks(walk, before.take(0)) =~= Seq::empty());
        assert(default_walks(walk, list@.take(0)) =~= Seq::empty());
        assert(Seq::<Seq<Visit>>::empty().flatten() =~= Seq::empty());
        lemma_tracks_none(start);
    }
    while i < list.len()
        invariant
            i <= list.len(),
            mark_walk(walk),
            before == old(list)@,
            list@.len() == before.len(),
            forall|k: int| i <= k < list@.len() ==> list@[k] == before[k],
            field_shells(list@) == field_shells(before),
            moves(
                default_walks(walk, before.take(i as int)).flatten(),
                default_walks(walk, list@.take(i as int)).flatten(),
                start,
                marks@,
            ),
        decreases list.len() - i,
    {
        let ghost item0 = list@[i as int];
        let ghost list0 = list@;
        let ghost middle = marks@;
        match &mut list[i].default {
            Some(default) => {
                mark_expr(walk, default, marks);
            },
            None => {},
        }
        assert(field_shells(list@) =~= field_shells(before));
        proof {
            let item = list@[i as int];
            let n = i as int;
            assert(list@.take(n) =~= list0.take(n));
            let done = default_walks(walk, before.take(n));
            let new_done = default_walks(walk, list@.take(n));
            let one = match item0.default {
                Some(default) => walk_expr(walk, None, &default, Position::Stored),
                None => Seq::empty(),
            };
            let new_one = match item.default {
                Some(default) => walk_expr(walk, None, &default, Position::Stored),
                None => Seq::empty(),
            };
            assert(default_walks(walk, before.take(n + 1)) =~= done.push(one));
            assert(default_walks(walk, list@.take(n + 1)) =~= new_done.push(new_one));
            done.lemma_flatten_push(one);
            new_done.lemma_flatten_push(new_one);
            if item0.default is None {
                lemma_tracks_none(middle);
            }
            assert(tracks(one, new_one, middle));
            lemma_tracks_add(done.flatten(), new_done.flatten(), one, new_one, start);
        }
        i += 1;
    }
    assert(before.take(i as int) =~= before);
    assert(list@.take(i as int) =~= list@);
}

/// Writes the marks of an item and of everything below it.
fn mark_item(walk: Walk, item: &mut Item, marks: &mut Marks)
    requires
        mark_walk(walk),
    ensures
        moves(walk_item(walk, old(item)), walk_item(walk, final(item)), old(marks)@, final(marks)@),
{
    let ghost start = marks@;
    let mark = marks.take();
    match item {
        Item::Binding(binding) => {
            let ghost binding0 = **binding;
            mark_expr(walk, &mut binding.value, marks);
            write_binding(mark, binding);
            proof {
                let v = Visit { node: Node::Item(old(item)), scope: None };
                let w = Visit { node: Node::Item(item), scope: None };
                let kids = walk_expr(walk, None, &binding0.value, Position::Initial(&binding0));
                let new_kids = walk_expr(
                    walk,
                    None,
                    &binding.value,
                    Position::Initial(&**binding),
                );
                assert(tracks(kids, new_kids, later(start, 1)));
                lemma_tracks_node(v, w, kids, new_kids, start);
                assert(walk_item(walk, old(item)) =~= seq![v] + kids);
                assert(walk_item(walk, item) =~= seq![w] + new_kids);
            }
        },
        Item::StructDef(def) => {
            let ghost fields0 = def.fields@;
            mark_fields(walk, &mut def.fields, marks);
            proof {
                let v = Visit { node: Node::Item(old(item)), scope: None };
                let w = Visit { node: Node::Item(item), scope: None };
                let kids = default_walks(walk, fields0).flatten();
                let new_kids = default_walks(walk, def.fields@).flatten();
                lemma_tracks_node(v, w, kids, new_kids, start);
                assert(default_walks(walk, fields0) =~= Seq::new(
                    fields0.len(),
                    |i: int|
                        match fields0[i].default {
                            Some(default) => walk_expr(walk, None, &default, Position::Stored),
                            None => Seq::empty(),
                        },
                ));
                assert(walk_item(walk, old(item)) =~= seq![v] + kids);
                assert(walk_item(walk, item) =~= seq![w] + new_kids);
            }
        },
    }
}

pub open spec fn item_walks<'a>(walk: Walk, items: Seq<Item>) -> Seq<Seq<Visit<'a>>> {
    Seq::new(items.len(), |i: int| walk_item(walk, &items[i]))
}

/// The same structs are declared at the same places, with the same fields.
pub open spec fn same_structs(before: Seq<Item>, after: Seq<Item>) -> bool {
    &&& before.len() == after.len()
    &&& forall|k: int| 0 <= k < before.len() ==> same_struct(before[k], #[trigger] after[k])
}

pub open spec fn same_struct(before: Item, after: Item) -> bool {
    match (before, after) {
        (Item::StructDef(_), Item::StructDef(_)) => item_shell(before) == item_shell(after),
        (Item::Binding(_), Item::Binding(_)) => true,
        _ => false,
    }
}

/// Where the structs are the same, so are the types of their fields.
pub proof fn lemma_same_structs(before: Seq<Item>, after: Seq<Item>)
    requires
        same_structs(before, after),
    ensures
        items_map(before) == items_map(after),
    decreases before.len(),
{
    if before.len() > 0 {
        lemma_same_structs(before.drop_last(), after.drop_last());
        assert(same_struct(before.last(), after.last()));
        match (before.last(), after.last()) {
            (Item::StructDef(one), Item::StructDef(two)) => {
                let a = field_shells(one.fields@);
                let b = field_shells(two.fields@);
                assert(a == b);
                assert forall|i: int| 0 <= i < a.len() implies one.fields@[i].ty
                    == two.fields@[i].ty by {
                    assert(a[i] == b[i]);
                }
                assert(a.len() == b.len());
                assert(field_types(one.fields@) =~= field_types(two.fields@));
            },
            _ => {},
        }
    }
}

/// Writing the marks of an item leaves a struct as it is declared.
proof fn lemma_item_kept(walk: Walk, before: &Item, after: &Item, marks: Seq<Mark>, rest: Seq<Mark>)
    requires
        moves(walk_item(walk, before), walk_item(walk, after), marks, rest),
    ensures
        same_struct(*before, *after),
{
    let a = walk_item(walk, before);
    let b = walk_item(walk, after);
    assert(a[0] == (Visit { node: Node::Item(before), scope: None }));
    assert(b[0] == (Visit { node: Node::Item(after), scope: None }));
    assert(shell_of(b[0]) == marked(mark_at(marks, 0), shell_of(a[0])));
}

/// Writes the marks of a program, one for each node in the order of the walk.
pub fn apply_marks(walk: Walk, program: &mut CheckedProgram, marks: Vec<Mark>)
    requires
        mark_walk(walk),
    ensures
        tracks(program_walk(walk, old(program)), program_walk(walk, final(program)), marks@),
        final(program).main_id == old(program).main_id,
        same_structs(old(program).items@, final(program).items@),
{
    let ghost start = marks@;
    let mut stack: Vec<Mark> = Vec::new();
    let mut left = marks;
    while left.len() > 0
        invariant
            left@ + stack@.reverse() == start,
        decreases left.len(),
    {
        let ghost before = left@;
        let ghost done = stack@;
        if let Some(mark) = left.pop() {
            stack.push(mark);
        }
        assert(left@ + stack@.reverse() =~= before + done.reverse());
    }
    let mut marks = Marks { stack };
    assert(marks@ =~= start);
    let ghost before = program.items@;
    let mut i: usize = 0;
    proof {
        assert(item_walks(walk, before.take(0)) =~= Seq::empty());
        assert(item_walks(walk, program.items@.take(0)) =~= Seq::empty());
        assert(Seq::<Seq<Visit>>::empty().flatten() =~= Seq::empty());
        lemma_tracks_none(start);
    }
    while i < program.items.len()
        invariant
            i <= program.items.len(),
            mark_walk(walk),
            before == old(program).items@,
            program.main_id == old(program).main_id,
            program.items@.len() == before.len(),
            forall|k: int| i <= k < before.len() ==> program.items@[k] == before[k],
            forall|k: int| 0 <= k < i ==> same_struct(before[k], #[trigger] program.items@[k]),
            moves(
                item_walks(walk, before.take(i as int)).flatten(),
                item_walks(walk, program.items@.take(i as int)).flatten(),
                start,
                marks@,
            ),
        decreases program.items.len() - i,
    {
        let ghost item0 = program.items@[i as int];
        let ghost items0 = program.items@;
        let ghost left = marks@;
        mark_item(walk, &mut program.items[i], &mut marks);
        proof {
            lemma_item_kept(walk, &item0, &program.items@[i as int], left, marks@);
            let n = i as int;
            let item = program.items@[n];
            assert(program.items@.take(n) =~= items0.take(n));
            let done = item_walks(walk, before.take(n));
            let new_done = item_walks(walk, program.items@.take(n));
            let one = walk_item(walk, &item0);
            let new_one = walk_item(walk, &item);
            assert(item_walks(walk, before.take(n + 1)) =~= done.push(one));
            assert(item_walks(walk, program.items@.take(n + 1)) =~= new_done.push(new_one));
            done.lemma_flatten_push(one);
            new_done.lemma_flatten_push(new_one);
            lemma_tracks_add(done.flatten(), new_done.flatten(), one, new_one, start);
        }
        i += 1;
    }
    proof {
        assert(before.take(i as int) =~= before);
        assert(program.items@.take(i as int) =~= program.items@);
        assert(program_walk(walk, old(program)) == item_walks(walk, before).flatten());
        assert(program_walk(walk, program) == item_walks(walk, program.items@).flatten());
    }
}

} // verus!
