//! The parser's cursor over the token stream, and error recovery.
//!
//! Comments stay in the token stream (doc comments attach to nodes, test
//! annotations are read by an outside runner), so the cursor skips them as
//! it moves.

use crate::diag::{Severity, DiagLoc, DiagSink, Diagnostic, FileId, Span};
use crate::frontend::lexer::{Token, TokenKind};
use crate::text::{concat2, concat3, str_eq};
use vstd::prelude::*;

verus! {

/// Expected one token and met another (syntax error family).
pub const E_UNEXPECTED: u16 = 2001;

/// The cursor over a token stream.
pub struct Parser<'a> {
    pub toks: Vec<Token>,
    pub pos: usize,
    pub file: FileId,
    pub sink: &'a mut DiagSink,
}

/// A token stream the parser can walk: not empty and ending in `Eof`.
pub open spec fn stream_ok(toks: Seq<Token>) -> bool {
    &&& toks.len() > 0
    &&& toks.len() < usize::MAX
    &&& toks.last().kind is Eof
}

impl<'a> Parser<'a> {
    /// The cursor rests inside the stream, never on a comment.
    pub open spec fn wf(&self) -> bool {
        &&& stream_ok(self.toks@)
        &&& self.pos < self.toks@.len()
        &&& !(self.toks@[self.pos as int].kind is Comment)
    }

    /// The token under the cursor.
    pub open spec fn cur(&self) -> Token {
        self.toks@[self.pos as int]
    }

    /// Tokens left from the cursor on; decreases as the parser advances.
    pub open spec fn rem(&self) -> int {
        self.toks@.len() - self.pos
    }

    pub open spec fn at_eof_spec(&self) -> bool {
        self.cur().kind is Eof
    }

    pub open spec fn at_punct_spec(&self, s: Seq<char>) -> bool {
        self.cur().kind matches TokenKind::Punct(x) && x@ == s
    }

    pub open spec fn at_keyword_spec(&self, s: Seq<char>) -> bool {
        self.cur().kind matches TokenKind::Keyword(x) && x@ == s
    }

    /// The position of the first token after the cursor that is not a
    /// comment.
    pub open spec fn next_pos(&self) -> int {
        Self::first_non_comment(self.toks@, self.pos + 1)
    }

    /// In a stream that does not end in a comment, the first token from
    /// `i` on that is not a comment lies inside it.
    pub proof fn lemma_first_non_comment_inside(toks: Seq<Token>, i: int)
        requires
            0 <= i < toks.len(),
            !(toks.last().kind is Comment),
        ensures
            Self::first_non_comment(toks, i) < toks.len(),
        decreases toks.len() - i,
    {
        if toks[i].kind is Comment && i + 1 < toks.len() {
            Self::lemma_first_non_comment_inside(toks, i + 1);
        }
    }

    /// The kind of that token.
    pub open spec fn next_kind(&self) -> TokenKind {
        self.toks@[self.next_pos()].kind
    }

    /// `next` walks the same stream as `self`, from no earlier a position.
    pub open spec fn advanced_from(&self, prev: &Parser<'a>) -> bool {
        &&& self.wf()
        &&& self.toks == prev.toks
        &&& self.file == prev.file
        &&& self.rem() <= prev.rem()
    }

    pub open spec fn first_non_comment(toks: Seq<Token>, i: int) -> int
        decreases toks.len() - i,
    {
        if 0 <= i < toks.len() && toks[i].kind is Comment {
            Self::first_non_comment(toks, i + 1)
        } else {
            i
        }
    }

    /// A parser over `toks`, positioned at the first token that is not a
    /// comment.
    pub fn new(file: FileId, toks: Vec<Token>, sink: &'a mut DiagSink) -> (p: Parser<'a>)
        requires
            stream_ok(toks@),
        ensures
            p.wf(),
            p.toks == toks,
            p.file == file,
            p.pos == Self::first_non_comment(toks@, 0),
            *p.sink == *old(sink),
    {
        let mut p = Parser { toks, pos: 0, file, sink };
        p.skip_comments();
        p
    }

    pub fn file(&self) -> (f: FileId)
        ensures
            f == self.file,
    {
        self.file
    }

    /// The cursor position, used to detect progress.
    pub fn pos(&self) -> (n: usize)
        ensures
            n == self.pos,
    {
        self.pos
    }

    /// The current token's kind. The stream ends in `Eof`, so this never
    /// runs past the end.
    pub fn peek(&self) -> (k: &TokenKind)
        requires
            self.wf(),
        ensures
            *k == self.cur().kind,
    {
        let last = self.toks.len() - 1;
        let i = if self.pos < last {
            self.pos
        } else {
            last
        };
        &self.toks[i].kind
    }

    pub fn peek_span(&self) -> (s: Span)
        requires
            self.wf(),
        ensures
            s == self.cur().span,
    {
        let last = self.toks.len() - 1;
        let i = if self.pos < last {
            self.pos
        } else {
            last
        };
        self.toks[i].span
    }

    /// Index of the token `n` non-comment tokens past the cursor, clamped
    /// to the last token.
    pub open spec fn ahead_index(toks: Seq<Token>, idx: int, count: int, n: int) -> int
        decreases toks.len() - idx, n - count,
    {
        if 0 <= idx < toks.len() && count < n {
            proof {
                Self::lemma_first_non_comment_bound(toks, idx + 1);
            }
            Self::ahead_index(toks, Self::first_non_comment(toks, idx + 1), count + 1, n)
        } else if idx < toks.len() {
            idx
        } else {
            toks.len() - 1
        }
    }

    pub proof fn lemma_first_non_comment_bound(toks: Seq<Token>, i: int)
        requires
            0 <= i,
        ensures
            i <= Self::first_non_comment(toks, i),
            i <= toks.len() ==> Self::first_non_comment(toks, i) <= toks.len(),
        decreases toks.len() - i,
    {
        if 0 <= i < toks.len() && toks[i].kind is Comment {
            Self::lemma_first_non_comment_bound(toks, i + 1);
        }
    }

    /// Looks `n` tokens ahead, skipping comments.
    pub fn peek_ahead(&self, n: usize) -> (k: &TokenKind)
        requires
            self.wf(),
        ensures
            *k == self.toks@[Self::ahead_index(self.toks@, self.pos as int, 0, n as int)].kind,
    {
        let mut idx = self.pos;
        let mut count: usize = 0;
        while idx < self.toks.len() && count < n
            invariant
                self.wf(),
                self.pos <= idx <= self.toks@.len(),
                count <= n,
                Self::ahead_index(self.toks@, self.pos as int, 0, n as int) == Self::ahead_index(
                    self.toks@,
                    idx as int,
                    count as int,
                    n as int,
                ),
            decreases self.toks@.len() - idx, n - count,
        {
            idx = idx + 1;
            let ghost start_idx = idx;
            while idx < self.toks.len() && self.toks[idx].is_comment()
                invariant
                    self.wf(),
                    self.pos < start_idx <= idx <= self.toks@.len(),
                    Self::first_non_comment(self.toks@, idx as int) == Self::first_non_comment(
                        self.toks@,
                        start_idx as int,
                    ),
                decreases self.toks@.len() - idx,
            {
                idx = idx + 1;
            }
            count = count + 1;
        }
        let last = self.toks.len() - 1;
        let i = if idx < last {
            idx
        } else {
            last
        };
        &self.toks[i].kind
    }

    pub fn at_eof(&self) -> (b: bool)
        requires
            self.wf(),
        ensures
            b == self.at_eof_spec(),
    {
        match self.peek() {
            TokenKind::Eof => true,
            _ => false,
        }
    }

    /// Whether the current token is the punctuation `s`.
    pub fn at_punct(&self, s: &str) -> (b: bool)
        requires
            self.wf(),
        ensures
            b == self.at_punct_spec(s@),
    {
        match self.peek() {
            TokenKind::Punct(x) => str_eq(x, s),
            _ => false,
        }
    }

    /// Whether the current token is the keyword `s`.
    pub fn at_keyword(&self, s: &str) -> (b: bool)
        requires
            self.wf(),
        ensures
            b == self.at_keyword_spec(s@),
    {
        match self.peek() {
            TokenKind::Keyword(x) => str_eq(x, s),
            _ => false,
        }
    }

    /// Whether the current token is an identifier.
    pub fn at_ident(&self) -> (b: bool)
        requires
            self.wf(),
        ensures
            b == (self.cur().kind is Ident),
    {
        match self.peek() {
            TokenKind::Ident(_) => true,
            _ => false,
        }
    }

    /// Consumes the current token and returns its span; at `Eof` the cursor
    /// stays put.
    pub fn bump(&mut self) -> (s: Span)
        requires
            old(self).wf(),
        ensures
            final(self).advanced_from(old(self)),
            s == old(self).cur().span,
            old(self).at_eof_spec() ==> final(self).pos == old(self).pos,
            !old(self).at_eof_spec() ==> final(self).rem() < old(self).rem(),
            !old(self).at_eof_spec() ==> final(self).pos == Self::first_non_comment(
                old(self).toks@,
                old(self).pos + 1,
            ),
            *final(self).sink == *old(self).sink,
    {
        let s = self.peek_span();
        if !self.at_eof() {
            proof {
                Self::lemma_first_non_comment_bound(self.toks@, self.pos + 1);
            }
            self.pos = self.pos + 1;
            self.skip_comments();
        }
        s
    }

    /// Consumes the current token if it is the punctuation `p`.
    pub fn eat_punct(&mut self, p: &str) -> (b: bool)
        requires
            old(self).wf(),
        ensures
            b == old(self).at_punct_spec(p@),
            final(self).advanced_from(old(self)),
            b ==> final(self).rem() < old(self).rem(),
            b ==> final(self).pos == Self::first_non_comment(old(self).toks@, old(self).pos + 1),
            !b ==> final(self).pos == old(self).pos,
            *final(self).sink == *old(self).sink,
    {
        if self.at_punct(p) {
            self.bump();
            true
        } else {
            false
        }
    }

    /// Consumes the current token if it is the keyword `k`.
    pub fn eat_keyword(&mut self, k: &str) -> (b: bool)
        requires
            old(self).wf(),
        ensures
            b == old(self).at_keyword_spec(k@),
            final(self).advanced_from(old(self)),
            b ==> final(self).rem() < old(self).rem(),
            b ==> final(self).pos == Self::first_non_comment(old(self).toks@, old(self).pos + 1),
            !b ==> final(self).pos == old(self).pos,
            *final(self).sink == *old(self).sink,
    {
        if self.at_keyword(k) {
            self.bump();
            true
        } else {
            false
        }
    }

    /// Requires the punctuation `p`: consumes it, or reports an error and
    /// stays put. Returns whether it was there.
    pub fn expect_punct(&mut self, p: &str) -> (b: bool)
        requires
            old(self).wf(),
        ensures
            b == old(self).at_punct_spec(p@),
            final(self).advanced_from(old(self)),
            b ==> final(self).rem() < old(self).rem(),
            !b ==> final(self).pos == old(self).pos,
            b ==> (*final(self).sink)@ == (*old(self).sink)@,
            !b ==> (*final(self).sink)@.len() == (*old(self).sink)@.len() + 1,
            !b ==> (*final(self).sink)@.subrange(0, (*old(self).sink)@.len() as int) == (*old(self).sink)@,
            !b ==> (*final(self).sink)@.last().code == E_UNEXPECTED,
            !b ==> (*final(self).sink)@.last().severity == Severity::Error,
            !b ==> (*final(self).sink)@.last().loc == DiagLoc::At(old(self).cur().span),
    {
        if self.eat_punct(p) {
            return true;
        }
        self.unexpected(p);
        false
    }

    /// Consumes an identifier and returns its name and span.
    pub fn eat_ident(&mut self) -> (r: Option<(String, Span)>)
        requires
            old(self).wf(),
        ensures
            final(self).advanced_from(old(self)),
            r is Some == (old(self).cur().kind is Ident),
            r matches Some((name, s)) ==> old(self).cur().kind == TokenKind::Ident(name)
                && s == old(self).cur().span && final(self).rem() < old(self).rem(),
            r is Some ==> final(self).pos == Self::first_non_comment(old(self).toks@, old(self).pos + 1),
            r is None ==> final(self).pos == old(self).pos,
            *final(self).sink == *old(self).sink,
    {
        let name = match self.peek() {
            TokenKind::Ident(name) => name.clone(),
            _ => {
                return None;
            },
        };
        let s = self.bump();
        Some((name, s))
    }

    /// Reports that `expected` was expected where the current token stands.
    pub fn unexpected(&mut self, expected: &str)
        requires
            old(self).wf(),
        ensures
            final(self).toks == old(self).toks,
            final(self).pos == old(self).pos,
            final(self).file == old(self).file,
            (*final(self).sink)@.len() == (*old(self).sink)@.len() + 1,
            (*final(self).sink)@.last().code == E_UNEXPECTED,
            (*final(self).sink)@.last().severity == Severity::Error,
            (*final(self).sink)@.last().loc == DiagLoc::At(old(self).cur().span),
            (*final(self).sink)@.subrange(0, (*old(self).sink)@.len() as int) == (*old(self).sink)@,
    {
        let span = self.peek_span();
        let got = describe(self.peek());
        let head = concat3("期望 `", expected, "`，遇到 ");
        let msg = concat2(head.as_str(), got.as_str());
        self.sink.emit(Diagnostic::error(E_UNEXPECTED, msg, DiagLoc::At(span)));
        proof {
            assert(self.sink@.subrange(0, old(self).sink@.len() as int) =~= old(self).sink@);
        }
    }

    /// After an error, skips to the next possible item start (`::`) or the
    /// end, so one syntax error does not cascade.
    pub fn recover_to_item(&mut self)
        requires
            old(self).wf(),
        ensures
            final(self).advanced_from(old(self)),
            final(self).at_eof_spec() || final(self).at_punct_spec("::"@),
            *final(self).sink == *old(self).sink,
            forall|j: int|
                old(self).pos <= j < final(self).pos ==> !(#[trigger] final(self).toks@[j].kind matches TokenKind::Punct(
                    x,
                ) && x@ == "::"@),
    {
        while !self.at_eof()
            invariant
                self.advanced_from(old(self)),
                *self.sink == *old(self).sink,
                old(self).pos <= self.pos,
                forall|j: int|
                    old(self).pos <= j < self.pos ==> !(#[trigger] self.toks@[j].kind matches TokenKind::Punct(x) && x@
                        == "::"@),
            decreases self.rem(),
        {
            if self.at_punct("::") {
                return;
            }
            let ghost p0 = self.pos as int;
            proof {
                Self::lemma_first_non_comment_skips(self.toks@, p0 + 1);
            }
            self.bump();
        }
    }

    /// The tokens that `first_non_comment` passes over are comments.
    pub proof fn lemma_first_non_comment_skips(toks: Seq<Token>, i: int)
        requires
            0 <= i,
        ensures
            forall|j: int| i <= j < Self::first_non_comment(toks, i) ==> (#[trigger] toks[j]).kind is Comment,
        decreases toks.len() - i,
    {
        if 0 <= i < toks.len() && toks[i].kind is Comment {
            Self::lemma_first_non_comment_skips(toks, i + 1);
        }
    }

    fn skip_comments(&mut self)
        requires
            stream_ok(old(self).toks@),
            old(self).pos < old(self).toks@.len(),
        ensures
            final(self).wf(),
            final(self).toks == old(self).toks,
            final(self).file == old(self).file,
            final(self).pos == Self::first_non_comment(old(self).toks@, old(self).pos as int),
            *final(self).sink == *old(self).sink,
    {
        while self.pos < self.toks.len() && self.toks[self.pos].is_comment()
            invariant
                stream_ok(self.toks@),
                self.toks == old(self).toks,
                self.file == old(self).file,
                *self.sink == *old(self).sink,
                old(self).pos <= self.pos < self.toks@.len(),
                Self::first_non_comment(self.toks@, old(self).pos as int)
                    == Self::first_non_comment(self.toks@, self.pos as int),
            decreases self.toks@.len() - self.pos,
        {
            self.pos = self.pos + 1;
        }
    }
}

/// How an error message names a token.
pub fn describe(k: &TokenKind) -> (s: String)
    ensures
        s@ == describe_spec(*k),
{
    match k {
        TokenKind::Ident(n) => concat3("标识符 `", n.as_str(), "`"),
        TokenKind::Keyword(w) => concat3("关键字 `", w, "`"),
        TokenKind::Int(v) => concat3("字面量 `", v.as_str(), "`"),
        TokenKind::Float(v) => concat3("字面量 `", v.as_str(), "`"),
        TokenKind::Str(_) => String::from_str("字符串字面量"),
        TokenKind::Punct(p) => concat3("`", p, "`"),
        TokenKind::Comment(_, _) => String::from_str("注释"),
        TokenKind::Eof => String::from_str("文件结束"),
    }
}

pub open spec fn describe_spec(k: TokenKind) -> Seq<char> {
    match k {
        TokenKind::Ident(n) => "标识符 `"@ + n@ + "`"@,
        TokenKind::Keyword(w) => "关键字 `"@ + w@ + "`"@,
        TokenKind::Int(v) => "字面量 `"@ + v@ + "`"@,
        TokenKind::Float(v) => "字面量 `"@ + v@ + "`"@,
        TokenKind::Str(_) => "字符串字面量"@,
        TokenKind::Punct(p) => "`"@ + p@ + "`"@,
        TokenKind::Comment(_, _) => "注释"@,
        TokenKind::Eof => "文件结束"@,
    }
}

} // verus!
