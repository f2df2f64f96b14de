//! The escape check: an `own` binding is not used after it moved (E5001),
//! and a borrow does not escape into a longer-lived place (E5002, E5003).
//!
//! Kore has no lifetime variables: the check is flow sensitive and
//! conservative, and reports where it is unsure.

pub mod checker;
pub mod context;
pub mod laws;
pub mod rules;

pub use checker::EscapeChecker;
pub use context::{BindingInfo, BindingKind, EscapeContext, OwnershipState};
