//! Token kinds: only the shapes the Kore0 subset needs.

use crate::diag::Span;
use vstd::prelude::*;

verus! {

/// The five comment forms, told apart by the character after `--`.
#[derive(Debug, Clone, Copy, PartialEq, Eq, Structural)]
pub enum CommentKind {
    /// `--` plain line comment.
    Line,
    /// `---` item doc comment for the item that follows.
    ItemDoc,
    /// `--!` module doc comment.
    ModuleDoc,
    /// `--~` test annotation naming the diagnostic a line expects.
    TestAnnot,
    /// `--=` contract assertion.
    Contract,
}

/// Token kinds.
#[derive(Debug, Clone, PartialEq)]
pub enum TokenKind {
    /// Identifier.
    Ident(String),
    /// Keyword; always one of the entries of `keywords::KEYWORDS`.
    Keyword(&'static str),
    /// Integer literal, kept as written.
    Int(String),
    /// Float literal, kept as written.
    Float(String),
    /// String literal, escapes already resolved.
    Str(String),
    /// Punctuation (`::`, `:=`, `?`, `@`, `^`, `~`, `!`, ...).
    Punct(&'static str),
    /// Comment.
    Comment(CommentKind, String),
    /// End of file.
    Eof,
}

/// The text-level content of a token kind.
pub enum KindView {
    Ident(Seq<char>),
    Keyword(Seq<char>),
    Int(Seq<char>),
    Float(Seq<char>),
    Str(Seq<char>),
    Punct(Seq<char>),
    Comment(CommentKind, Seq<char>),
    Eof,
}

impl View for TokenKind {
    type V = KindView;

    open spec fn view(&self) -> KindView {
        match self {
            TokenKind::Ident(s) => KindView::Ident(s@),
            TokenKind::Keyword(s) => KindView::Keyword(s@),
            TokenKind::Int(s) => KindView::Int(s@),
            TokenKind::Float(s) => KindView::Float(s@),
            TokenKind::Str(s) => KindView::Str(s@),
            TokenKind::Punct(s) => KindView::Punct(s@),
            TokenKind::Comment(k, s) => KindView::Comment(*k, s@),
            TokenKind::Eof => KindView::Eof,
        }
    }
}

/// A token: its kind and its source range.
#[derive(Debug, Clone, PartialEq)]
pub struct Token {
    pub kind: TokenKind,
    pub span: Span,
}

impl Token {
    pub fn new(kind: TokenKind, span: Span) -> (t: Token)
        ensures
            t.kind == kind,
            t.span == span,
    {
        Token { kind, span }
    }

    /// Comments are skipped by the parser, but the lexer keeps them.
    pub fn is_comment(&self) -> (b: bool)
        ensures
            b == (self.kind is Comment),
    {
        match self.kind {
            TokenKind::Comment(_, _) => true,
            _ => false,
        }
    }
}

/// A copy of a token kind with the same content.
pub fn clone_kind(k: &TokenKind) -> (r: TokenKind)
    ensures
        r@ == k@,
{
    match k {
        TokenKind::Ident(s) => TokenKind::Ident(s.clone()),
        TokenKind::Keyword(s) => TokenKind::Keyword(*s),
        TokenKind::Int(s) => TokenKind::Int(s.clone()),
        TokenKind::Float(s) => TokenKind::Float(s.clone()),
        TokenKind::Str(s) => TokenKind::Str(s.clone()),
        TokenKind::Punct(s) => TokenKind::Punct(*s),
        TokenKind::Comment(c, s) => TokenKind::Comment(*c, s.clone()),
        TokenKind::Eof => TokenKind::Eof,
    }
}

} // verus!
