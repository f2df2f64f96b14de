//! The AST: node definitions, traversal, and S-expression printing.

pub mod node;
pub mod printer;
pub mod visitor;

pub use node::{
    Arm, Expr, Field, Func, Item, Module, Param, Pattern, Stmt, StructDef, TypeExpr, UnionDef,
    UsePath, Variant,
};
pub use printer::{print_module, PrintOpts};
pub use visitor::{walk_expr, walk_item, walk_module, walk_stmt, Visitor};
