//! The stage0 front end of the Kore compiler: lexer, parser, name
//! resolution, type checking and escape checking, with the diagnostics they
//! emit.

use vstd::prelude::*;

pub mod cli;
pub mod diag;
pub mod frontend;
pub mod ice;
pub mod text;

verus! {

/// Process exit codes of the compiler driver.
#[derive(Debug, Clone, Copy, PartialEq, Eq, Structural)]
pub enum ExitCode {
    /// Success.
    Success,
    /// A compile error was reported.
    CompileError,
    /// The command line was malformed.
    UsageError,
    /// Internal compiler error; `101` to match Rust's own convention.
    Ice,
}

impl ExitCode {
    /// The numeric process exit code.
    pub fn as_i32(self) -> (r: i32)
        ensures
            r == match self {
                ExitCode::Success => 0i32,
                ExitCode::CompileError => 1i32,
                ExitCode::UsageError => 2i32,
                ExitCode::Ice => 101i32,
            },
    {
        match self {
            ExitCode::Success => 0,
            ExitCode::CompileError => 1,
            ExitCode::UsageError => 2,
            ExitCode::Ice => 101,
        }
    }
}

} // verus!
