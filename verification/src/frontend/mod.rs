//! Front end: lexing, parsing and semantic analysis.

pub mod ast;
pub mod counters;
pub mod lexer;
pub mod parser;
pub mod resolve;
pub mod typecheck;
pub mod escape;
