//! The resolved program tree.
//!
//! Every name, conversion and call target of a program is settled before this tree exists; the
//! passes read the recorded facts and write the ones they own.

use crate::types::{
    BindingId, FunctionId, LoanId, MethodId, ParamEffect, ReturnBorrowSource, ReturnEffect, Span,
    Ty, TyView,
};
use vstd::prelude::*;

verus! {

#[derive(Debug, Clone, Copy, PartialEq, Eq, Structural)]
pub enum BinOp {
    Add,
    Sub,
    Mul,
    Div,
    Rem,
    Shl,
    Shr,
    BitAnd,
    BitXor,
    BitOr,
    Lt,
    Le,
    Gt,
    Ge,
    EqEq,
    NotEq,
    And,
    Or,
}

#[derive(Debug, Clone, Copy, PartialEq, Eq, Structural)]
pub enum BindKind {
    Val,
    Var,
    Func,
}

#[derive(Debug, Clone, Copy, PartialEq, Eq, Structural)]
pub enum CtorKind {
    OkCtor,
    ErrCtor,
}

#[derive(Debug)]
#[allow(inconsistent_fields)]
pub enum Pattern {
    Wildcard { span: Span },
    Binding { name: String, span: Span },
    Int { value: i128, span: Span },
    Bool { value: bool, span: Span },
    Str { value: String, span: Span },
    Constructor { ctor: CtorKind, binding: Option<String>, span: Span },
}

impl Pattern {
    pub open spec fn spec_span(&self) -> Span {
        match *self {
            Pattern::Wildcard { span } => span,
            Pattern::Binding { span, .. } => span,
            Pattern::Int { span, .. } => span,
            Pattern::Bool { span, .. } => span,
            Pattern::Str { span, .. } => span,
            Pattern::Constructor { span, .. } => span,
        }
    }

    #[verifier::when_used_as_spec(spec_span)]
    pub fn span(&self) -> (r: Span)
        ensures
            r == self.spec_span(),
    {
        match self {
            Pattern::Wildcard { span } => *span,
            Pattern::Binding { span, .. } => *span,
            Pattern::Int { span, .. } => *span,
            Pattern::Bool { span, .. } => *span,
            Pattern::Str { span, .. } => *span,
            Pattern::Constructor { span, .. } => *span,
        }
    }
}

#[derive(Debug)]
pub struct CheckedProgram {
    pub main_id: BindingId,
    pub items: Vec<Item>,
}

#[derive(Debug)]
pub enum Item {
    Binding(Box<Binding>),
    StructDef(StructDef),
}

#[derive(Debug)]
pub struct StructDef {
    pub name: String,
    pub fields: Vec<StructField>,
}

#[derive(Debug)]
pub struct StructField {
    pub ty: Ty,
    pub mutable: bool,
    pub default: Option<Expr>,
    pub span: Span,
}

#[derive(Debug)]
pub struct Binding {
    pub binding_id: BindingId,
    pub owner: BindingOwner,
    pub kind: BindKind,
    pub relation: Option<StorageRelation>,
    /// How the initializer reaches the slot.
    pub operation: Option<BindingOperation>,
    /// How the slot is torn down.
    pub destroy_plan: Option<DestroyPlan>,
    pub ty: Ty,
    pub name: String,
    pub value: Expr,
    pub span: Span,
}

#[derive(Debug)]
pub enum BindingOwner {
    Ordinary,
    Method { method_id: MethodId, self_id: BindingId, receiver: Ty },
}

impl Binding {
    pub fn is_method(&self) -> (r: bool)
        ensures
            r == (self.owner is Method),
    {
        matches!(self.owner, BindingOwner::Method { .. })
    }
}

#[derive(Debug)]
pub enum Body {
    Block(Vec<Stmt>),
    Single(Box<Stmt>),
}

#[derive(Debug)]
pub struct Param {
    pub binding_id: BindingId,
    pub ty: Ty,
    pub effect: Option<ParamEffect>,
}

/// One variable that a function takes from its surroundings. The loan lets the analysis end
/// the capture with the last use of the function value.
#[derive(Debug)]
pub struct Capture {
    pub binding_id: BindingId,
    pub loan_id: LoanId,
    pub source: Place,
    pub kind: Option<BorrowKind>,
}

#[derive(Debug)]
pub struct PlaceInfo {
    pub ty: Ty,
    pub span: Span,
}

/// Whether the running program has to test a condition.
#[derive(Debug, Clone, Copy, PartialEq, Eq, Structural)]
pub enum RuntimeCheckRequirement {
    Required,
    Proven,
}

/// A storage location: a variable and a path of projections into it.
#[derive(Debug)]
pub enum Place {
    Local { binding_id: BindingId, info: PlaceInfo },
    Field { base: Box<Place>, field_index: usize, info: PlaceInfo },
    Index {
        base: Box<Place>,
        index: Box<Expr>,
        bounds_check: RuntimeCheckRequirement,
        info: PlaceInfo,
    },
}

/// The variable at the bottom of a place.
pub open spec fn place_root(place: Place) -> BindingId
    decreases place,
{
    match place {
        Place::Local { binding_id, .. } => binding_id,
        Place::Field { base, .. } => place_root(*base),
        Place::Index { base, .. } => place_root(*base),
    }
}

impl Place {
    pub open spec fn spec_info(&self) -> PlaceInfo {
        match *self {
            Place::Local { info, .. } => info,
            Place::Field { info, .. } => info,
            Place::Index { info, .. } => info,
        }
    }

    pub open spec fn spec_span(&self) -> Span {
        self.spec_info().span
    }

    pub fn info(&self) -> (r: &PlaceInfo)
        ensures
            *r == self.spec_info(),
    {
        match self {
            Place::Local { info, .. } => info,
            Place::Field { info, .. } => info,
            Place::Index { info, .. } => info,
        }
    }

    pub fn ty(&self) -> (r: &Ty)
        ensures
            *r == self.spec_info().ty,
    {
        &self.info().ty
    }

    #[verifier::when_used_as_spec(spec_span)]
    pub fn span(&self) -> (r: Span)
        ensures
            r == self.spec_span(),
    {
        self.info().span
    }

    pub fn root_binding_id(&self) -> (r: BindingId)
        ensures
            r == place_root(*self),
    {
        let mut place: &Place = self;
        loop
            invariant
                place_root(*place) == place_root(*self),
            decreases place,
        {
            match place {
                Place::Local { binding_id, .. } => {
                    return *binding_id;
                },
                Place::Field { base, .. } => {
                    place = base;
                },
                Place::Index { base, .. } => {
                    place = base;
                },
            }
        }
    }
}

#[derive(Debug)]
#[allow(inconsistent_fields)]
pub enum Stmt {
    Binding(Binding),
    Assign {
        target: Place,
        value: Expr,
        operation: Option<AssignmentOperation>,
        destroy_plan: Option<DestroyPlan>,
    },
    Expr { expr: Expr },
    Return { value: Option<Expr> },
    If { branches: Vec<(Expr, Vec<Stmt>)>, else_body: Option<Vec<Stmt>> },
    While { cond: Expr, body: Vec<Stmt> },
    For {
        binding_id: BindingId,
        ty: Ty,
        element_plan: DeepClonePlan,
        iterable: Expr,
        body: Vec<Stmt>,
        span: Span,
    },
    Break,
    Continue,
}

#[derive(Debug)]
pub enum StrPart {
    Lit(String),
    Hole(Box<Expr>),
}

#[derive(Debug)]
pub enum ArmBody {
    Block(Vec<Stmt>),
    Value(Box<Expr>),
    Ret(Box<Expr>),
}

#[derive(Debug)]
pub struct MatchArm {
    pub pattern: Pattern,
    pub binding_id: Option<BindingId>,
    pub binding_operation: Option<PatternBindingOperation>,
    pub body: ArmBody,
}

#[derive(Debug)]
pub struct CallArg {
    pub value: Expr,
    pub pass: Option<ArgumentPass>,
}

#[derive(Debug)]
pub enum CallResult {
    Inline,
    Owned,
    Borrowed {
        loan_id: LoanId,
        source: Place,
        source_writable: bool,
        kind: Option<BorrowKind>,
    },
}

#[derive(Debug)]
pub enum ReturnPass {
    Inline,
    OwnedValue,
    OwnedTransfer { source: Place },
    BorrowPlace { source: Place, origin: ReturnBorrowSource },
    BorrowValue { origin: ReturnBorrowSource },
}

/// How a caller hands one argument over, as the parameter effect of the callee demands.
#[derive(Debug)]
pub enum ArgumentPass {
    Inline,
    ReadBorrow { loan_id: LoanId, source: Place },
    WriteBorrow { loan_id: LoanId, source: Place },
    BorrowTemporary { kind: BorrowKind },
    Owned,
}

/// How to copy a value with everything it owns.
#[derive(Debug)]
pub enum DeepClonePlan {
    Inline,
    String,
    Struct { name: String, fields: Vec<DeepClonePlan> },
    Array(Box<DeepClonePlan>),
    Result { ok: Box<DeepClonePlan>, err: Box<DeepClonePlan> },
}

/// How to copy the outer structure of a value that owns nothing dynamic. `Inline` is only a
/// leaf: the root of a plan is a struct or a result.
#[derive(Debug)]
pub enum ShallowClonePlan {
    Inline,
    Struct { name: String, fields: Vec<ShallowClonePlan> },
    Result { ok: Box<ShallowClonePlan>, err: Box<ShallowClonePlan> },
}

/// How to tear a value down. Node zero is the root; children are indices into the list, and
/// the fields of a struct stand in declaration order.
#[derive(Debug)]
pub struct DestroyPlan {
    pub nodes: Vec<DestroyNode>,
}

#[derive(Debug)]
pub enum DestroyNode {
    Inline,
    String,
    Iterator,
    Closure,
    Struct { name: String, fields: Vec<usize> },
    Array { element: usize },
    Result { ok: usize, err: usize },
}

#[derive(Debug)]
pub enum BuiltinCall {
    Print,
    Println,
    Increase,
    Decrease,
    DeepClone(DeepClonePlan),
    ShallowClone(ShallowClonePlan),
}

#[derive(Debug, Clone, Copy, PartialEq, Eq, Structural)]
pub enum ResolvedConversion {
    Convert,
    Identity,
}

#[derive(Debug)]
pub enum MethodTarget {
    Numeric(BinOp),
    BoolNot,
    StringLen,
    StringUpper,
    StringLower,
    StringTrim,
    ArrayLen,
    ArrayPush,
    ArrayPop,
    ArrayIterator,
    User {
        receiver: Ty,
        id: MethodId,
        param_effects: Option<Vec<ParamEffect>>,
        return_effect: Option<ReturnEffect>,
    },
}

#[derive(Debug)]
pub enum CallTarget {
    FunctionValue,
    /// `arg_field_indices` stands in the order of the arguments.
    StructConstructor { name: String, arg_field_indices: Vec<usize> },
    ResultConstructor(CtorKind),
    Builtin(BuiltinCall),
}

/// What kind of value an expression produced.
#[derive(Debug, Clone, Copy, PartialEq, Eq, Structural)]
pub enum ValueCategory {
    InlineValue,
    General,
    OwnedTemporary,
    BorrowedValue,
}

/// The ownership that a value carries when it is produced.
#[derive(Debug, Clone, Copy, PartialEq, Eq, Structural)]
pub enum OwnershipCapability {
    Absent,
    Available,
}

/// What a variable slot holds: a value, or the address of one.
#[derive(Debug, Clone, Copy, PartialEq, Eq, Structural)]
pub enum StorageRelation {
    Owning,
    Borrowed,
}

#[derive(Debug, Clone, Copy, PartialEq, Eq, Structural)]
pub enum OwningWrite {
    InlineCopy,
    OwnershipTransfer,
}

#[derive(Debug, Clone, Copy, PartialEq, Eq, Structural)]
pub enum AssignmentOperation {
    Replace(OwningWrite),
    RebindBorrowedAlias,
}

#[derive(Debug, Clone, Copy, PartialEq, Eq, Structural)]
pub enum BindingOperation {
    Initialize(OwningWrite),
    BindBorrowedAlias,
}

impl BindingOperation {
    pub open spec fn spec_storage_relation(self) -> StorageRelation {
        match self {
            BindingOperation::Initialize(_) => StorageRelation::Owning,
            BindingOperation::BindBorrowedAlias => StorageRelation::Borrowed,
        }
    }

    /// The slot relation that the operation sets up.
    pub fn storage_relation(self) -> (r: StorageRelation)
        ensures
            r == self.spec_storage_relation(),
    {
        match self {
            BindingOperation::Initialize(_) => StorageRelation::Owning,
            BindingOperation::BindBorrowedAlias => StorageRelation::Borrowed,
        }
    }
}

#[derive(Debug)]
pub enum PatternBindingOperation {
    InlineCopy,
    DeepClone(DeepClonePlan),
    OwnershipTransfer,
}

#[derive(Debug, Clone, Copy, PartialEq, Eq, Structural)]
pub enum BorrowKind {
    Read,
    Write,
}

/// A place that can be read or projected further, or a value that has been produced.
#[derive(Debug, Clone, Copy, PartialEq, Eq, Structural)]
pub enum ExprCategory {
    Place,
    Value(ValueCategory),
}

/// Where the address behind a pointer view comes from.
#[derive(Debug, Clone, Copy, PartialEq, Eq, Structural)]
pub enum PointerViewSource {
    Loan(LoanId),
    Binding(BindingId),
}

#[derive(Debug)]
pub struct ExprInfo {
    pub ty: Ty,
    pub category: Option<ExprCategory>,
    /// Absent where no pass has grounds to settle the question, which is not the same as
    /// `OwnershipCapability::Absent`.
    pub ownership_capability: Option<OwnershipCapability>,
    /// How the value enters the container it stands in; absent outside containers.
    pub container_write: Option<OwningWrite>,
    /// Only on an expression in return position.
    pub return_pass: Option<Box<ReturnPass>>,
}

/// A floating literal holds the bits of its value.
#[derive(Debug)]
#[allow(inconsistent_fields)]
pub enum Expr {
    Int(u64, Span, ExprInfo),
    Float(u64, Span, ExprInfo),
    Bool(bool, Span, ExprInfo),
    Str(Vec<StrPart>, Span, ExprInfo),
    Ident(String, Option<BindingId>, Span, ExprInfo),
    This(Span, ExprInfo),
    Cast { expr: Box<Expr>, span: Span, info: ExprInfo },
    Convert { expr: Box<Expr>, mode: ResolvedConversion, span: Span, info: ExprInfo },
    /// The operand of `typeof` is not evaluated and has no node.
    Typeof { named: String, span: Span, info: ExprInfo },
    Binary {
        op: BinOp,
        lhs: Box<Expr>,
        rhs: Box<Expr>,
        /// Set on pointer arithmetic.
        pointer_offset_source: Option<PointerViewSource>,
        span: Span,
        info: ExprInfo,
    },
    Neg { expr: Box<Expr>, span: Span, info: ExprInfo },
    Not { expr: Box<Expr>, span: Span, info: ExprInfo },
    BitNot { expr: Box<Expr>, span: Span, info: ExprInfo },
    Ternary {
        cond: Box<Expr>,
        then_expr: Box<Expr>,
        else_expr: Box<Expr>,
        span: Span,
        info: ExprInfo,
    },
    Call {
        callee: Box<Expr>,
        args: Vec<CallArg>,
        result: Option<Box<CallResult>>,
        target: CallTarget,
        span: Span,
        info: ExprInfo,
    },
    MethodCall {
        recv: Box<Expr>,
        receiver_pass: Option<ArgumentPass>,
        args: Vec<CallArg>,
        result: Option<Box<CallResult>>,
        target: MethodTarget,
        span: Span,
        info: ExprInfo,
    },
    Field { recv: Box<Expr>, field_index: usize, span: Span, info: ExprInfo },
    Index {
        recv: Box<Expr>,
        idx: Box<Expr>,
        bounds_check: RuntimeCheckRequirement,
        span: Span,
        info: ExprInfo,
    },
    ArrayLit { elems: Vec<Expr>, span: Span, info: ExprInfo },
    FuncLit {
        function_id: FunctionId,
        params: Vec<Param>,
        implicit_bindings: Vec<BindingId>,
        captures: Vec<Capture>,
        body: Box<Body>,
        span: Span,
        info: ExprInfo,
    },
    Match { subject: Box<Expr>, arms: Vec<MatchArm>, span: Span, info: ExprInfo },
    Propagate { expr: Box<Expr>, span: Span, info: ExprInfo },
    /// A plain read of a place into a slot that owns its value.
    ReadPlace { source: Box<Place>, plan: DeepClonePlan, span: Span, info: ExprInfo },
    /// A non-owning alias of a place.
    Borrow {
        loan_id: LoanId,
        source: Box<Place>,
        kind: Option<BorrowKind>,
        span: Span,
        info: ExprInfo,
    },
    /// A non-owning pointer to a place.
    Refer {
        loan_id: LoanId,
        source: Box<Place>,
        kind: Option<BorrowKind>,
        span: Span,
        info: ExprInfo,
    },
    /// An explicit transfer of ownership out of a place.
    Move { source: Box<Place>, span: Span, info: ExprInfo },
}

impl Expr {
    pub open spec fn spec_info(&self) -> ExprInfo {
        match *self {
            Expr::Int(_, _, info) => info,
            Expr::Float(_, _, info) => info,
            Expr::Bool(_, _, info) => info,
            Expr::Str(_, _, info) => info,
            Expr::Ident(_, _, _, info) => info,
            Expr::This(_, info) => info,
            Expr::Cast { info, .. } => info,
            Expr::Convert { info, .. } => info,
            Expr::Typeof { info, .. } => info,
            Expr::Binary { info, .. } => info,
            Expr::Neg { info, .. } => info,
            Expr::Not { info, .. } => info,
            Expr::BitNot { info, .. } => info,
            Expr::Ternary { info, .. } => info,
            Expr::Call { info, .. } => info,
            Expr::MethodCall { info, .. } => info,
            Expr::Field { info, .. } => info,
            Expr::Index { info, .. } => info,
            Expr::ArrayLit { info, .. } => info,
            Expr::FuncLit { info, .. } => info,
            Expr::Match { info, .. } => info,
            Expr::Propagate { info, .. } => info,
            Expr::ReadPlace { info, .. } => info,
            Expr::Borrow { info, .. } => info,
            Expr::Refer { info, .. } => info,
            Expr::Move { info, .. } => info,
        }
    }

    /// The static type of the expression.
    pub open spec fn tyv(&self) -> TyView {
        self.spec_info().ty@
    }

    pub open spec fn spec_span(&self) -> Span {
        match *self {
            Expr::Int(_, span, _) => span,
            Expr::Float(_, span, _) => span,
            Expr::Bool(_, span, _) => span,
            Expr::Str(_, span, _) => span,
            Expr::Ident(_, _, span, _) => span,
            Expr::This(span, _) => span,
            Expr::Cast { span, .. } => span,
            Expr::Convert { span, .. } => span,
            Expr::Typeof { span, .. } => span,
            Expr::Binary { span, .. } => span,
            Expr::Neg { span, .. } => span,
            Expr::Not { span, .. } => span,
            Expr::BitNot { span, .. } => span,
            Expr::Ternary { span, .. } => span,
            Expr::Call { span, .. } => span,
            Expr::MethodCall { span, .. } => span,
            Expr::Field { span, .. } => span,
            Expr::Index { span, .. } => span,
            Expr::ArrayLit { span, .. } => span,
            Expr::FuncLit { span, .. } => span,
            Expr::Match { span, .. } => span,
            Expr::Propagate { span, .. } => span,
            Expr::ReadPlace { span, .. } => span,
            Expr::Borrow { span, .. } => span,
            Expr::Refer { span, .. } => span,
            Expr::Move { span, .. } => span,
        }
    }

    pub open spec fn spec_value_category(&self) -> Option<ValueCategory> {
        match self.spec_info().category {
            Some(ExprCategory::Value(category)) => Some(category),
            _ => None,
        }
    }

    pub fn info(&self) -> (r: &ExprInfo)
        ensures
            *r == self.spec_info(),
    {
        match self {
            Expr::Int(_, _, info) => info,
            Expr::Float(_, _, info) => info,
            Expr::Bool(_, _, info) => info,
            Expr::Str(_, _, info) => info,
            Expr::Ident(_, _, _, info) => info,
            Expr::This(_, info) => info,
            Expr::Cast { info, .. } => info,
            Expr::Convert { info, .. } => info,
            Expr::Typeof { info, .. } => info,
            Expr::Binary { info, .. } => info,
            Expr::Neg { info, .. } => info,
            Expr::Not { info, .. } => info,
            Expr::BitNot { info, .. } => info,
            Expr::Ternary { info, .. } => info,
            Expr::Call { info, .. } => info,
            Expr::MethodCall { info, .. } => info,
            Expr::Field { info, .. } => info,
            Expr::Index { info, .. } => info,
            Expr::ArrayLit { info, .. } => info,
            Expr::FuncLit { info, .. } => info,
            Expr::Match { info, .. } => info,
            Expr::Propagate { info, .. } => info,
            Expr::ReadPlace { info, .. } => info,
            Expr::Borrow { info, .. } => info,
            Expr::Refer { info, .. } => info,
            Expr::Move { info, .. } => info,
        }
    }

    pub fn ty(&self) -> (r: &Ty)
        ensures
            *r == self.spec_info().ty,
    {
        &self.info().ty
    }

    pub fn category(&self) -> (r: Option<ExprCategory>)
        ensures
            r == self.spec_info().category,
    {
        self.info().category
    }

    pub fn value_category(&self) -> (r: Option<ValueCategory>)
        ensures
            r == self.spec_value_category(),
    {
        match self.category() {
            Some(ExprCategory::Value(category)) => Some(category),
            _ => None,
        }
    }

    pub fn ownership_capability(&self) -> (r: Option<OwnershipCapability>)
        ensures
            r == self.spec_info().ownership_capability,
    {
        self.info().ownership_capability
    }

    #[verifier::when_used_as_spec(spec_span)]
    pub fn span(&self) -> (r: Span)
        ensures
            r == self.spec_span(),
    {
        match self {
            Expr::Int(_, span, _) => *span,
            Expr::Float(_, span, _) => *span,
            Expr::Bool(_, span, _) => *span,
            Expr::Str(_, span, _) => *span,
            Expr::Ident(_, _, span, _) => *span,
            Expr::This(span, _) => *span,
            Expr::Cast { span, .. } => *span,
            Expr::Convert { span, .. } => *span,
            Expr::Typeof { span, .. } => *span,
            Expr::Binary { span, .. } => *span,
            Expr::Neg { span, .. } => *span,
            Expr::Not { span, .. } => *span,
            Expr::BitNot { span, .. } => *span,
            Expr::Ternary { span, .. } => *span,
            Expr::Call { span, .. } => *span,
            Expr::MethodCall { span, .. } => *span,
            Expr::Field { span, .. } => *span,
            Expr::Index { span, .. } => *span,
            Expr::ArrayLit { span, .. } => *span,
            Expr::FuncLit { span, .. } => *span,
            Expr::Match { span, .. } => *span,
            Expr::Propagate { span, .. } => *span,
            Expr::ReadPlace { span, .. } => *span,
            Expr::Borrow { span, .. } => *span,
            Expr::Refer { span, .. } => *span,
            Expr::Move { span, .. } => *span,
        }
    }
}

/// The same expression with other facts recorded on it.
pub open spec fn with_info(expr: Expr, info: ExprInfo) -> Expr {
    match expr {
        Expr::Int(value, span, _) => Expr::Int(value, span, info),
        Expr::Float(value, span, _) => Expr::Float(value, span, info),
        Expr::Bool(value, span, _) => Expr::Bool(value, span, info),
        Expr::Str(parts, span, _) => Expr::Str(parts, span, info),
        Expr::Ident(name, id, span, _) => Expr::Ident(name, id, span, info),
        Expr::This(span, _) => Expr::This(span, info),
        Expr::Cast { expr, span, .. } => Expr::Cast { expr, span, info },
        Expr::Convert { expr, mode, span, .. } => Expr::Convert { expr, mode, span, info },
        Expr::Typeof { named, span, .. } => Expr::Typeof { named, span, info },
        Expr::Binary { op, lhs, rhs, pointer_offset_source, span, .. } => Expr::Binary {
            op,
            lhs,
            rhs,
            pointer_offset_source,
            span,
            info,
        },
        Expr::Neg { expr, span, .. } => Expr::Neg { expr, span, info },
        Expr::Not { expr, span, .. } => Expr::Not { expr, span, info },
        Expr::BitNot { expr, span, .. } => Expr::BitNot { expr, span, info },
        Expr::Ternary { cond, then_expr, else_expr, span, .. } => Expr::Ternary {
            cond,
            then_expr,
            else_expr,
            span,
            info,
        },
        Expr::Call { callee, args, result, target, span, .. } => Expr::Call {
            callee,
            args,
            result,
            target,
            span,
            info,
        },
        Expr::MethodCall { recv, receiver_pass, args, result, target, span, .. } =>
            Expr::MethodCall { recv, receiver_pass, args, result, target, span, info },
        Expr::Field { recv, field_index, span, .. } => Expr::Field {
            recv,
            field_index,
            span,
            info,
        },
        Expr::Index { recv, idx, bounds_check, span, .. } => Expr::Index {
            recv,
            idx,
            bounds_check,
            span,
            info,
        },
        Expr::ArrayLit { elems, span, .. } => Expr::ArrayLit { elems, span, info },
        Expr::FuncLit { function_id, params, implicit_bindings, captures, body, span, .. } =>
            Expr::FuncLit { function_id, params, implicit_bindings, captures, body, span, info },
        Expr::Match { subject, arms, span, .. } => Expr::Match { subject, arms, span, info },
        Expr::Propagate { expr, span, .. } => Expr::Propagate { expr, span, info },
        Expr::ReadPlace { source, plan, span, .. } => Expr::ReadPlace {
            source,
            plan,
            span,
            info,
        },
        Expr::Borrow { loan_id, source, kind, span, .. } => Expr::Borrow {
            loan_id,
            source,
            kind,
            span,
            info,
        },
        Expr::Refer { loan_id, source, kind, span, .. } => Expr::Refer {
            loan_id,
            source,
            kind,
            span,
            info,
        },
        Expr::Move { source, span, .. } => Expr::Move { source, span, info },
    }
}

impl Expr {
    /// The recorded facts, for writing.
    pub fn info_mut(&mut self) -> (r: &mut ExprInfo)
        ensures
            *r == old(self).spec_info(),
            *final(self) == with_info(*old(self), *final(r)),
    {
        match self {
            Expr::Int(_, _, info) => info,
            Expr::Float(_, _, info) => info,
            Expr::Bool(_, _, info) => info,
            Expr::Str(_, _, info) => info,
            Expr::Ident(_, _, _, info) => info,
            Expr::This(_, info) => info,
            Expr::Cast { info, .. } => info,
            Expr::Convert { info, .. } => info,
            Expr::Typeof { info, .. } => info,
            Expr::Binary { info, .. } => info,
            Expr::Neg { info, .. } => info,
            Expr::Not { info, .. } => info,
            Expr::BitNot { info, .. } => info,
            Expr::Ternary { info, .. } => info,
            Expr::Call { info, .. } => info,
            Expr::MethodCall { info, .. } => info,
            Expr::Field { info, .. } => info,
            Expr::Index { info, .. } => info,
            Expr::ArrayLit { info, .. } => info,
            Expr::FuncLit { info, .. } => info,
            Expr::Match { info, .. } => info,
            Expr::Propagate { info, .. } => info,
            Expr::ReadPlace { info, .. } => info,
            Expr::Borrow { info, .. } => info,
            Expr::Refer { info, .. } => info,
            Expr::Move { info, .. } => info,
        }
    }
}

} // verus!
