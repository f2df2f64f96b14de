//! Name resolution: binds every identifier to a `SymbolId` and hands later
//! passes a read-only symbol table.

mod builder;
pub mod module;
pub mod names;
pub mod path;
pub mod scope;
pub mod symbols;

pub use builder::Resolver;
pub use module::{Import, ModuleId, ModuleInfo, ModuleRegistry};
pub use path::{PathError, PathResolver};
pub use scope::{emit_redefinition_error, Scope, ScopeStack};
pub use symbols::{Symbol, SymbolId, SymbolKind, SymbolTable};
