//! The program as it was written.
//!
//! Every node has a number of its own. What is found out about a node is kept under its number
//! until the resolved program tree is built.

use crate::model::{BinOp, BindKind, Pattern};
use crate::types::Span;
use vstd::prelude::*;

verus! {

/// A type as it was written, by the number of the place where it stands.
#[derive(Debug, Clone, Copy, PartialEq, Eq, Structural)]
pub struct TypeSlot {
    pub id: u32,
}

#[derive(Debug)]
pub struct Program {
    pub items: Vec<Item>,
}

#[derive(Debug)]
pub enum Item {
    Binding(Box<Binding>),
    StructDef(StructDef),
}

#[derive(Debug)]
pub struct StructDef {
    pub name: String,
    pub fields: Vec<StructField>,
    pub span: Span,
}

#[derive(Debug)]
pub struct StructField {
    pub id: u32,
    pub name: String,
    pub ty: TypeSlot,
    pub mutable: bool,
    pub default: Option<Expr>,
    pub span: Span,
}

#[derive(Debug)]
pub struct Binding {
    pub id: u32,
    pub kind: BindKind,
    pub name: String,
    pub ty: TypeSlot,
    /// Set on methods.
    pub receiver: Option<TypeSlot>,
    pub value: Expr,
    pub span: Span,
}

#[derive(Debug)]
pub struct Param {
    pub id: u32,
    pub ty: TypeSlot,
    pub name: String,
    pub span: Span,
}

#[derive(Debug)]
pub enum Body {
    Block(Vec<Stmt>),
    Single(Box<Stmt>),
}

#[derive(Debug)]
pub struct Stmt {
    pub id: u32,
    pub span: Span,
    pub kind: StmtKind,
}

#[derive(Debug)]
#[allow(inconsistent_fields)]
pub enum StmtKind {
    Binding(Box<Binding>),
    Assign { value: Expr },
    FieldAssign { recv: Expr, value: Expr },
    Expr { expr: Expr },
    Return { value: Option<Expr> },
    If { branches: Vec<(Expr, Vec<Stmt>)>, else_body: Option<Vec<Stmt>> },
    While { cond: Expr, body: Vec<Stmt> },
    For { iterable: Expr, body: Vec<Stmt> },
    Break,
    Continue,
}

#[derive(Debug)]
pub struct CallArg {
    pub id: u32,
    pub label: Option<String>,
    pub value: Expr,
    pub span: Span,
}

#[derive(Debug)]
pub enum StrPart {
    Lit(String),
    Hole(Box<Expr>),
}

#[derive(Debug)]
pub struct MatchArm {
    pub id: u32,
    pub pattern: Pattern,
    pub body: ArmBody,
    pub span: Span,
}

#[derive(Debug)]
pub enum ArmBody {
    Block(Vec<Stmt>),
    Value(Box<Expr>),
    Ret(Box<Expr>),
}

#[derive(Debug)]
pub struct Expr {
    pub id: u32,
    pub span: Span,
    pub kind: ExprKind,
}

/// A floating literal holds the bits of its value.
#[derive(Debug)]
#[allow(inconsistent_fields)]
pub enum ExprKind {
    Int(u64),
    Float(u64),
    Bool(bool),
    Str(Vec<StrPart>),
    Ident(String),
    This,
    Cast { target: TypeSlot, expr: Box<Expr> },
    Neg { expr: Box<Expr> },
    Not { expr: Box<Expr> },
    BitNot { expr: Box<Expr> },
    Binary { op: BinOp, lhs: Box<Expr>, rhs: Box<Expr> },
    Ternary { cond: Box<Expr>, then_expr: Box<Expr>, else_expr: Box<Expr> },
    Call { callee: Box<Expr>, args: Vec<CallArg> },
    /// Two expressions side by side: a call with one argument, or a method without any.
    Juxtapose { lhs: Box<Expr>, rhs: Box<Expr> },
    MethodCall { recv: Box<Expr>, name: String, args: Vec<CallArg> },
    Field { recv: Box<Expr>, name: String },
    Index { recv: Box<Expr>, idx: Box<Expr> },
    ArrayLit { elems: Vec<Expr> },
    FuncLit { params: Vec<Param>, body: Box<Body> },
    Match { subject: Box<Expr>, arms: Vec<MatchArm> },
    Propagate { expr: Box<Expr> },
}

} // verus!
