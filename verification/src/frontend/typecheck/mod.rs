//! Type checking of the Kore0 subset: primitive types, pointers, arrays,
//! structs, unions, error unions and function types.

pub mod checker;
pub mod context;
pub mod types;
pub mod typing;

pub use checker::TypeChecker;
pub use context::TypeContext;
pub use types::Type;
