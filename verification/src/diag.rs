//! Diagnostics: source positions, the diagnostic record, and the sink that
//! collects what the passes report.

use vstd::prelude::*;

verus! {

/// Identifies a source file.
#[derive(Debug, Clone, Copy, PartialEq, Eq, Hash, Structural)]
pub struct FileId(pub u32);

/// A byte range `lo..hi` of one source file.
#[derive(Debug, Clone, Copy, PartialEq, Eq, Hash, Structural)]
pub struct Span {
    pub file: FileId,
    pub lo: u32,
    pub hi: u32,
}

impl Span {
    pub fn new(file: FileId, lo: u32, hi: u32) -> (s: Span)
        ensures
            s.file == file,
            s.lo == lo,
            s.hi == hi,
    {
        Span { file, lo, hi }
    }

    /// The smallest range of `self`'s file that covers both spans.
    pub open spec fn spec_extend(self, other: Span) -> Span {
        Span {
            file: self.file,
            lo: if self.lo <= other.lo { self.lo } else { other.lo },
            hi: if self.hi >= other.hi { self.hi } else { other.hi },
        }
    }

    /// The smallest range of `self`'s file that covers both spans.
    pub fn extend(self, other: Span) -> (s: Span)
        ensures
            s == self.spec_extend(other),
    {
        Span {
            file: self.file,
            lo: if self.lo <= other.lo { self.lo } else { other.lo },
            hi: if self.hi >= other.hi { self.hi } else { other.hi },
        }
    }
}

/// How serious a diagnostic is.
#[derive(Debug, Clone, Copy, PartialEq, Eq, Structural)]
pub enum Severity {
    Error,
    Warning,
    Note,
    Help,
}

/// Where a diagnostic points.
#[derive(Debug, Clone, Copy, PartialEq, Eq, Structural)]
pub enum DiagLoc {
    At(Span),
    Unlocated,
}

/// A note or hint attached to a diagnostic.
#[derive(Debug, Clone)]
pub struct SubDiag {
    pub severity: Severity,
    pub msg: String,
    pub loc: DiagLoc,
}

impl SubDiag {
    pub fn new(severity: Severity, msg: &str) -> (d: SubDiag)
        ensures
            d.severity == severity,
            d.msg@ == msg@,
            d.loc == DiagLoc::Unlocated,
    {
        SubDiag { severity, msg: String::from_str(msg), loc: DiagLoc::Unlocated }
    }

    /// The same note, pointing at `span`.
    pub fn at(self, span: Span) -> (d: SubDiag)
        ensures
            d.severity == self.severity,
            d.msg == self.msg,
            d.loc == DiagLoc::At(span),
    {
        SubDiag { severity: self.severity, msg: self.msg, loc: DiagLoc::At(span) }
    }
}

/// One reported problem.
#[derive(Debug, Clone)]
pub struct Diagnostic {
    pub code: u16,
    pub severity: Severity,
    pub msg: String,
    pub loc: DiagLoc,
    pub children: Vec<SubDiag>,
}

impl Diagnostic {
    /// An error with the given code, message and location.
    pub fn error(code: u16, msg: String, loc: DiagLoc) -> (d: Diagnostic)
        ensures
            d.code == code,
            d.severity == Severity::Error,
            d.msg == msg,
            d.loc == loc,
            d.children@.len() == 0,
    {
        Diagnostic { code, severity: Severity::Error, msg, loc, children: Vec::new() }
    }

    /// The same diagnostic with one more attached note.
    pub fn child(self, sub: SubDiag) -> (d: Diagnostic)
        ensures
            d.code == self.code,
            d.severity == self.severity,
            d.msg == self.msg,
            d.loc == self.loc,
            d.children@ == self.children@.push(sub),
    {
        let mut d = self;
        d.children.push(sub);
        d
    }
}

/// The error codes the front end reports.
#[derive(Debug, Clone, Copy, PartialEq, Eq, Structural)]
pub enum ErrorCode {
    /// E4001.
    TypeMismatch,
    /// E4002.
    UndefinedName,
    /// E4003.
    Redefinition,
    /// E4006.
    UndefinedModule,
    /// E4007.
    UndefinedSymbol,
    /// E4008.
    PrivateSymbol,
    /// E4009.
    CircularDependency,
    /// E5001.
    UseAfterMove,
    /// E5002.
    BorrowEscapesToHeap,
    /// E5003.
    BorrowEscapesToReturn,
    /// E9001.
    InternalCompilerError,
}

impl ErrorCode {
    pub open spec fn spec_code(self) -> u16 {
        match self {
            ErrorCode::TypeMismatch => 4001,
            ErrorCode::UndefinedName => 4002,
            ErrorCode::Redefinition => 4003,
            ErrorCode::UndefinedModule => 4006,
            ErrorCode::UndefinedSymbol => 4007,
            ErrorCode::PrivateSymbol => 4008,
            ErrorCode::CircularDependency => 4009,
            ErrorCode::UseAfterMove => 5001,
            ErrorCode::BorrowEscapesToHeap => 5002,
            ErrorCode::BorrowEscapesToReturn => 5003,
            ErrorCode::InternalCompilerError => 9001,
        }
    }

    /// The numeric code.
    pub fn as_u16(self) -> (c: u16)
        ensures
            c == self.spec_code(),
    {
        match self {
            ErrorCode::TypeMismatch => 4001,
            ErrorCode::UndefinedName => 4002,
            ErrorCode::Redefinition => 4003,
            ErrorCode::UndefinedModule => 4006,
            ErrorCode::UndefinedSymbol => 4007,
            ErrorCode::PrivateSymbol => 4008,
            ErrorCode::CircularDependency => 4009,
            ErrorCode::UseAfterMove => 5001,
            ErrorCode::BorrowEscapesToHeap => 5002,
            ErrorCode::BorrowEscapesToReturn => 5003,
            ErrorCode::InternalCompilerError => 9001,
        }
    }
}

/// A string literal runs past the end of its line.
pub const E_MULTILINE_STRING: u16 = 2001;

/// An escape sequence that is not one of the known ones.
pub const E_UNKNOWN_ESCAPE: u16 = 2002;

/// A character literal cut off by the end of the file.
pub const E_UNCLOSED_CHAR: u16 = 2003;

/// A byte that starts no token.
pub const E_UNRECOGNIZED_CHAR: u16 = 2004;

/// A string literal cut off by the end of the file.
pub const E_UNCLOSED_STRING: u16 = 4002;

/// Number of error-severity diagnostics in a sequence.
pub open spec fn count_errors(ds: Seq<Diagnostic>) -> nat
    decreases ds.len(),
{
    if ds.len() == 0 {
        0
    } else {
        count_errors(ds.drop_last()) + if ds.last().severity == Severity::Error {
            1nat
        } else {
            0nat
        }
    }
}

/// The codes of a sequence of diagnostics, in order.
pub open spec fn codes(ds: Seq<Diagnostic>) -> Seq<u16> {
    ds.map_values(|d: Diagnostic| d.code)
}

/// Collects diagnostics in the order they are reported.
#[derive(Debug)]
pub struct DiagSink {
    diags: Vec<Diagnostic>,
}

impl View for DiagSink {
    type V = Seq<Diagnostic>;

    closed spec fn view(&self) -> Seq<Diagnostic> {
        self.diags@
    }
}

impl DiagSink {
    pub fn new() -> (s: DiagSink)
        ensures
            s@ == Seq::<Diagnostic>::empty(),
    {
        DiagSink { diags: Vec::new() }
    }

    /// Records one more diagnostic.
    pub fn emit(&mut self, d: Diagnostic)
        ensures
            final(self)@ == old(self)@.push(d),
    {
        self.diags.push(d);
    }

    /// Number of errors reported so far.
    pub fn err_count(&self) -> (n: usize)
        ensures
            n == count_errors(self@),
    {
        let mut n: usize = 0;
        let mut i: usize = 0;
        while i < self.diags.len()
            invariant
                i <= self@.len(),
                n == count_errors(self@.take(i as int)),
                n <= i,
            decreases self@.len() - i,
        {
            proof {
                assert(self@.take(i + 1).drop_last() =~= self@.take(i as int));
            }
            if self.diags[i].severity == Severity::Error {
                n = n + 1;
            }
            i = i + 1;
        }
        proof {
            assert(self@.take(i as int) =~= self@);
        }
        n
    }

    /// Whether any error was reported.
    pub fn has_errors(&self) -> (b: bool)
        ensures
            b == (count_errors(self@) > 0),
    {
        self.err_count() > 0
    }

    /// The diagnostics reported so far.
    pub fn peek(&self) -> (ds: &[Diagnostic])
        ensures
            ds@ == self@,
    {
        self.diags.as_slice()
    }

    /// Ends collection and hands over every diagnostic.
    pub fn finish(self) -> (ds: Vec<Diagnostic>)
        ensures
            ds@ == self@,
    {
        self.diags
    }
}

/// How diagnostics are rendered on the command line.
#[derive(Debug, Clone, Copy, PartialEq, Eq, Structural)]
pub enum ErrorFormat {
    Human,
    Json,
    Short,
}

/// The format named by a `--error-format=` value.
pub open spec fn format_named(v: Seq<char>) -> Option<ErrorFormat> {
    if v == "human"@ {
        Some(ErrorFormat::Human)
    } else if v == "json"@ {
        Some(ErrorFormat::Json)
    } else if v == "short"@ {
        Some(ErrorFormat::Short)
    } else {
        None
    }
}

impl ErrorFormat {
    /// Reads a format name: `human`, `json` or `short`.
    pub fn parse(v: &str) -> (r: Option<ErrorFormat>)
        ensures
            r == format_named(v@),
    {
        if crate::text::str_eq(v, "human") {
            Some(ErrorFormat::Human)
        } else if crate::text::str_eq(v, "json") {
            Some(ErrorFormat::Json)
        } else if crate::text::str_eq(v, "short") {
            Some(ErrorFormat::Short)
        } else {
            None
        }
    }
}

/// How many errors are printed when the command line does not say.
pub const DEFAULT_ERROR_LIMIT: u32 = 100;

} // verus!
