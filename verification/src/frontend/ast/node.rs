//! AST nodes of the Kore0 subset: functions, structs, unions, pointers,
//! arrays, primitive types, `?`/`@`, `own`/`defer`.

use crate::diag::Span;
use vstd::prelude::*;

verus! {

/// One source file.
#[derive(Debug)]
pub struct Module {
    pub items: Vec<Item>,
    pub span: Span,
}

/// Top-level items.
#[derive(Debug)]
pub enum Item {
    /// Function: `f :: (a i32) i32 => expr`.
    Func(Func),
    /// Struct: `Vec3 :: {x, y, z f32}`.
    Struct(StructDef),
    /// Union: `Shape :: .Circle(f32) | .Rect(f32, f32)`.
    Union(UnionDef),
    /// Import: `use std.io`.
    Use(UsePath),
}

#[derive(Debug)]
pub struct Func {
    pub name: String,
    pub params: Vec<Param>,
    pub ret: Option<TypeExpr>,
    /// Error side of an error union `T ! E`.
    pub err: Option<TypeExpr>,
    pub body: Expr,
    pub span: Span,
    /// Whether the symbol is public (`pub`).
    pub is_public: bool,
}

#[derive(Debug)]
pub struct Param {
    pub name: String,
    pub ty: TypeExpr,
    /// Mutability mark `~`.
    pub is_mut: bool,
    pub span: Span,
}

#[derive(Debug)]
pub struct StructDef {
    pub name: String,
    pub fields: Vec<Field>,
    pub span: Span,
    pub is_public: bool,
}

#[derive(Debug)]
pub struct Field {
    pub name: String,
    pub ty: TypeExpr,
    pub span: Span,
}

#[derive(Debug)]
pub struct UnionDef {
    pub name: String,
    pub variants: Vec<Variant>,
    pub span: Span,
    pub is_public: bool,
}

/// A union variant such as `.Circle(f32)`.
#[derive(Debug)]
pub struct Variant {
    pub name: String,
    pub payload: Vec<TypeExpr>,
    pub span: Span,
}

#[derive(Debug)]
pub struct UsePath {
    pub segments: Vec<String>,
    pub span: Span,
}

/// Type expressions.
#[derive(Debug)]
pub enum TypeExpr {
    /// A primitive or named type.
    Named(String, Span),
    /// Borrowed pointer `^T`.
    Borrow(Box<TypeExpr>, Span),
    /// Owning pointer `own ^T`.
    Own(Box<TypeExpr>, Span),
    /// Fixed-size array `[N]T`.
    Array(Box<TypeExpr>, u64, Span),
    /// Slice `[]T`.
    Slice(Box<TypeExpr>, Span),
    /// Error union `T ! E`.
    ErrUnion(Box<TypeExpr>, Box<TypeExpr>, Span),
}

/// Statements.
#[derive(Debug)]
pub enum Stmt {
    /// Runtime binding: `x : T = e` or `x := e`.
    Let { name: String, is_mut: bool, ty: Option<TypeExpr>, init: Expr, span: Span },
    /// Assignment: `x = e`.
    Assign { target: Expr, value: Expr, span: Span },
    /// `defer expr`.
    Defer(Expr, Span),
    /// Expression statement.
    Expr(Expr),
}

/// Expressions.
#[derive(Debug)]
pub enum Expr {
    Int(String, Span),
    Float(String, Span),
    Str(String, Span),
    Bool(bool, Span),
    Nil(Span),
    Path(Vec<String>, Span),
    /// Branch `?`: if / else / switch / match in one form.
    Branch { scrutinee: Option<Box<Expr>>, arms: Vec<Arm>, span: Span },
    /// Loop `@`, optionally labelled: `@label @{ ... }`.
    Loop { label: Option<String>, subject: Option<Box<Expr>>, body: Box<Expr>, span: Span },
    Call { callee: Box<Expr>, args: Vec<Expr>, span: Span },
    Field { base: Box<Expr>, name: String, span: Span },
    Index { base: Box<Expr>, index: Box<Expr>, span: Span },
    /// Dereference `e^`.
    Deref(Box<Expr>, Span),
    /// Propagation `e!`.
    Propagate(Box<Expr>, Span),
    Unary { op: &'static str, operand: Box<Expr>, span: Span },
    Binary { op: &'static str, lhs: Box<Expr>, rhs: Box<Expr>, span: Span },
    /// Block.
    Block { stmts: Vec<Stmt>, span: Span },
    /// `ret` or `ret expr` (never type).
    Ret(Option<Box<Expr>>, Span),
    /// `stop` or `stop @label` (never type).
    Stop { label: Option<String>, span: Span },
    /// `skip` or `skip @label` (never type).
    Skip { label: Option<String>, span: Span },
    /// Guaranteed tail call `jmp f(..)` or `jmp @label` (never type).
    Jmp { target: Option<Box<Expr>>, label: Option<String>, span: Span },
    /// Struct literal `Point{x: 1, y: 2}`.
    StructLit { name: String, fields: Vec<(String, Expr)>, span: Span },
    /// Array literal `[1, 2, 3]`.
    ArrayLit { elements: Vec<Expr>, span: Span },
    /// Variant construction `.Ok(42)` or `.None`.
    VariantConstructor { name: String, payload: Option<Box<Expr>>, span: Span },
}

/// A branch arm: `pattern => expression`.
#[derive(Debug)]
pub struct Arm {
    pub pattern: Pattern,
    pub body: Expr,
    pub span: Span,
}

/// Patterns.
#[derive(Debug)]
pub enum Pattern {
    /// `.Circle(r)`.
    Variant { name: String, bindings: Vec<String>, span: Span },
    /// Binds a name.
    Bind(String, Span),
    /// Literal pattern.
    Lit(Box<Expr>),
    /// `_`.
    Wildcard(Span),
    /// An arm without a pattern: its condition is an expression.
    Cond(Box<Expr>),
}

impl Expr {
    /// The position every expression carries.
    pub open spec fn spec_span(&self) -> Span {
        match self {
            Expr::Int(_, s) => *s,
            Expr::Float(_, s) => *s,
            Expr::Str(_, s) => *s,
            Expr::Bool(_, s) => *s,
            Expr::Nil(s) => *s,
            Expr::Path(_, s) => *s,
            Expr::Deref(_, s) => *s,
            Expr::Propagate(_, s) => *s,
            Expr::Branch { span, .. } => *span,
            Expr::Loop { span, .. } => *span,
            Expr::Call { span, .. } => *span,
            Expr::Field { span, .. } => *span,
            Expr::Index { span, .. } => *span,
            Expr::Unary { span, .. } => *span,
            Expr::Binary { span, .. } => *span,
            Expr::Block { span, .. } => *span,
            Expr::Ret(_, span) => *span,
            Expr::Stop { span, .. } => *span,
            Expr::Skip { span, .. } => *span,
            Expr::Jmp { span, .. } => *span,
            Expr::StructLit { span, .. } => *span,
            Expr::ArrayLit { span, .. } => *span,
            Expr::VariantConstructor { span, .. } => *span,
        }
    }

    /// Every expression reports its own position, so diagnostics can point
    /// at the source.
    pub fn span(&self) -> (s: Span)
        ensures
            s == self.spec_span(),
    {
        match self {
            Expr::Int(_, s) => *s,
            Expr::Float(_, s) => *s,
            Expr::Str(_, s) => *s,
            Expr::Bool(_, s) => *s,
            Expr::Nil(s) => *s,
            Expr::Path(_, s) => *s,
            Expr::Deref(_, s) => *s,
            Expr::Propagate(_, s) => *s,
            Expr::Branch { span, .. } => *span,
            Expr::Loop { span, .. } => *span,
            Expr::Call { span, .. } => *span,
            Expr::Field { span, .. } => *span,
            Expr::Index { span, .. } => *span,
            Expr::Unary { span, .. } => *span,
            Expr::Binary { span, .. } => *span,
            Expr::Block { span, .. } => *span,
            Expr::Ret(_, span) => *span,
            Expr::Stop { span, .. } => *span,
            Expr::Skip { span, .. } => *span,
            Expr::Jmp { span, .. } => *span,
            Expr::StructLit { span, .. } => *span,
            Expr::ArrayLit { span, .. } => *span,
            Expr::VariantConstructor { span, .. } => *span,
        }
    }
}

impl TypeExpr {
    /// A copy of the type expression, equal to it.
    pub fn duplicate(&self) -> (t: TypeExpr)
        ensures
            t == *self,
        decreases self,
    {
        match self {
            TypeExpr::Named(n, s) => TypeExpr::Named(n.clone(), *s),
            TypeExpr::Borrow(inner, s) => TypeExpr::Borrow(Box::new(inner.duplicate()), *s),
            TypeExpr::Own(inner, s) => TypeExpr::Own(Box::new(inner.duplicate()), *s),
            TypeExpr::Array(inner, n, s) => TypeExpr::Array(Box::new(inner.duplicate()), *n, *s),
            TypeExpr::Slice(inner, s) => TypeExpr::Slice(Box::new(inner.duplicate()), *s),
            TypeExpr::ErrUnion(ok, err, s) => TypeExpr::ErrUnion(
                Box::new(ok.duplicate()),
                Box::new(err.duplicate()),
                *s,
            ),
        }
    }
}

} // verus!
