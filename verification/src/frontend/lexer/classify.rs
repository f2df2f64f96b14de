//! Comment classification: which of the five comment forms a comment is.
//!
//! Only the character after the `--` or `//` prefix decides the form.

use super::token::CommentKind;
use vstd::prelude::*;

verus! {

/// The text with its leading spaces removed.
pub open spec fn trim_spaces(s: Seq<char>) -> Seq<char>
    decreases s.len(),
{
    if s.len() > 0 && s[0] == ' ' {
        trim_spaces(s.drop_first())
    } else {
        s
    }
}

/// Whitespace in the sense of `u8::is_ascii_whitespace`.
pub open spec fn is_ascii_ws_char(c: char) -> bool {
    c == ' ' || c == '\t' || c == '\n' || c == '\x0C' || c == '\r'
}

/// Whether the text starts with `--` or `//`.
pub open spec fn has_comment_prefix(t: Seq<char>) -> bool {
    t.len() >= 2 && ((t[0] == '-' && t[1] == '-') || (t[0] == '/' && t[1] == '/'))
}

/// The form of a comment and its body (the text after the sigil, without
/// leading spaces).
///
/// `----` and longer dashes are dividers, so they stay plain comments;
/// `--=` is a contract only when whitespace or the end of the line follows,
/// so `--===` dividers stay plain comments too.
pub open spec fn comment_class(t: Seq<char>) -> (CommentKind, Seq<char>) {
    if !has_comment_prefix(t) {
        (CommentKind::Line, t)
    } else {
        let rest = t.skip(2);
        if rest.len() == 0 {
            (CommentKind::Line, rest)
        } else if rest[0] == '-' || rest[0] == '/' {
            if rest.len() >= 2 && (rest[1] == '-' || rest[1] == '/') {
                (CommentKind::Line, trim_spaces(rest))
            } else {
                (CommentKind::ItemDoc, trim_spaces(rest.skip(1)))
            }
        } else if rest[0] == '!' {
            (CommentKind::ModuleDoc, trim_spaces(rest.skip(1)))
        } else if rest[0] == '~' {
            (CommentKind::TestAnnot, trim_spaces(rest.skip(1)))
        } else if rest[0] == '=' {
            if rest.len() == 1 || is_ascii_ws_char(rest[1]) {
                (CommentKind::Contract, trim_spaces(rest.skip(1)))
            } else {
                (CommentKind::Line, trim_spaces(rest))
            }
        } else {
            (CommentKind::Line, trim_spaces(rest))
        }
    }
}

/// Removes the leading spaces of a comment body: the space between sigil
/// and text is a writing habit, not content.
fn trim_body(s: &str) -> (r: &str)
    ensures
        r@ == trim_spaces(s@),
{
    let n = s.unicode_len();
    let mut k: usize = 0;
    proof {
        assert(s@.skip(0) =~= s@);
    }
    while k < n && s.get_char(k) == ' '
        invariant
            k <= n,
            n == s@.len(),
            trim_spaces(s@) == trim_spaces(s@.skip(k as int)),
        decreases n - k,
    {
        proof {
            assert(s@.skip(k as int).drop_first() =~= s@.skip(k + 1));
        }
        k = k + 1;
    }
    proof {
        assert(s@.skip(k as int) =~= s@.subrange(k as int, n as int));
    }
    s.substring_char(k, n)
}

/// Whether a character after `=` separates the sigil from the body:
/// whitespace (the end of the line is handled by the caller).
fn is_body_boundary(c: char) -> (b: bool)
    ensures
        b == is_ascii_ws_char(c),
{
    c == ' ' || c == '\t' || c == '\n' || c == '\x0C' || c == '\r'
}

/// Classifies a comment that starts with `--` or `//`, returning its form
/// and its body. Text without such a prefix is returned whole as a plain
/// comment.
pub fn classify_comment(text: &str) -> (r: (CommentKind, &str))
    ensures
        r.0 == comment_class(text@).0,
        r.1@ == comment_class(text@).1,
{
    let n = text.unicode_len();
    let has_prefix = n >= 2 && ((text.get_char(0) == '-' && text.get_char(1) == '-') || (
    text.get_char(0) == '/' && text.get_char(1) == '/'));
    if !has_prefix {
        return (CommentKind::Line, text);
    }
    let rest = text.substring_char(2, n);
    let m = n - 2;
    proof {
        assert(rest@ =~= text@.skip(2));
    }
    if m == 0 {
        return (CommentKind::Line, rest);
    }
    let c0 = rest.get_char(0);
    if c0 == '-' || c0 == '/' {
        if m >= 2 && (rest.get_char(1) == '-' || rest.get_char(1) == '/') {
            (CommentKind::Line, trim_body(rest))
        } else {
            let after = rest.substring_char(1, m);
            proof {
                assert(after@ =~= rest@.skip(1));
            }
            (CommentKind::ItemDoc, trim_body(after))
        }
    } else if c0 == '!' || c0 == '~' {
        let after = rest.substring_char(1, m);
        proof {
            assert(after@ =~= rest@.skip(1));
        }
        if c0 == '!' {
            (CommentKind::ModuleDoc, trim_body(after))
        } else {
            (CommentKind::TestAnnot, trim_body(after))
        }
    } else if c0 == '=' {
        if m == 1 || is_body_boundary(rest.get_char(1)) {
            let after = rest.substring_char(1, m);
            proof {
                assert(after@ =~= rest@.skip(1));
            }
            (CommentKind::Contract, trim_body(after))
        } else {
            (CommentKind::Line, trim_body(rest))
        }
    } else {
        (CommentKind::Line, trim_body(rest))
    }
}

} // verus!
