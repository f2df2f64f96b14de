//! Lexing: the byte-level scanner that turns source text into tokens.
//!
//! The scanner works on the UTF-8 bytes of the source. Multi-byte
//! characters matter only inside comments and string literals; elsewhere a
//! non-ASCII byte is an unrecognized character.

use super::classify::{classify_comment, comment_class};
use super::keywords::{is_keyword_word, keyword_index, KEYWORDS};
use super::token::{KindView, Token, TokenKind};
use crate::diag::{
    DiagLoc, DiagSink, Diagnostic, FileId, Span, E_MULTILINE_STRING, E_UNCLOSED_CHAR,
    E_UNCLOSED_STRING, E_UNKNOWN_ESCAPE, E_UNRECOGNIZED_CHAR,
};
use crate::text::{ascii_string, char_at, char_from_u32, decimal, len_utf8, spec_char_at, ascii_text, str_range, string_from_chars, u64_to_decimal, concat2};
use vstd::prelude::*;
use vstd::string::StringSliceAdditionalSpecFns;
use vstd::utf8::*;

verus! {

// ---------------------------------------------------------------------------
// Byte classes.

pub open spec fn is_ws_byte(b: u8) -> bool {
    b == 32 || b == 9 || b == 13 || b == 10
}

pub open spec fn is_ident_start_byte(b: u8) -> bool {
    b == 95 || (97 <= b <= 122) || (65 <= b <= 90)
}

pub open spec fn is_ident_continue_byte(b: u8) -> bool {
    is_ident_start_byte(b) || (48 <= b <= 57)
}

pub open spec fn is_digit_byte(b: u8) -> bool {
    48 <= b <= 57
}

pub open spec fn is_hex_us_byte(b: u8) -> bool {
    (48 <= b <= 57) || (97 <= b <= 102) || (65 <= b <= 70) || b == 95
}

pub open spec fn is_digit_us_byte(b: u8) -> bool {
    is_digit_byte(b) || b == 95
}

/// Value of a hexadecimal digit; other bytes count as zero.
pub open spec fn hex_val(b: u8) -> u8 {
    if 48 <= b <= 57 {
        (b - 48) as u8
    } else if 97 <= b <= 102 {
        (b - 97 + 10) as u8
    } else if 65 <= b <= 70 {
        (b - 65 + 10) as u8
    } else {
        0
    }
}

// ---------------------------------------------------------------------------
// Scans.

/// First offset at or after `i` whose byte fails `class`, or the end.
pub open spec fn scan_ident(b: Seq<u8>, i: int) -> int
    decreases b.len() - i,
{
    if 0 <= i < b.len() && is_ident_continue_byte(b[i]) {
        scan_ident(b, i + 1)
    } else {
        i
    }
}

pub open spec fn scan_ws(b: Seq<u8>, i: int) -> int
    decreases b.len() - i,
{
    if 0 <= i < b.len() && is_ws_byte(b[i]) {
        scan_ws(b, i + 1)
    } else {
        i
    }
}

pub open spec fn scan_hex_us(b: Seq<u8>, i: int) -> int
    decreases b.len() - i,
{
    if 0 <= i < b.len() && is_hex_us_byte(b[i]) {
        scan_hex_us(b, i + 1)
    } else {
        i
    }
}

pub open spec fn scan_digit_us(b: Seq<u8>, i: int) -> int
    decreases b.len() - i,
{
    if 0 <= i < b.len() && is_digit_us_byte(b[i]) {
        scan_digit_us(b, i + 1)
    } else {
        i
    }
}

/// First offset at or after `i` holding `stop`, or the end.
pub open spec fn scan_until(b: Seq<u8>, i: int, stop: u8) -> int
    decreases b.len() - i,
{
    if 0 <= i < b.len() && b[i] != stop {
        scan_until(b, i + 1, stop)
    } else {
        i
    }
}

// ---------------------------------------------------------------------------
// What one scanning step produces.

/// A token as the specification describes it: kind and byte range.
pub struct TokSpec {
    pub kind: KindView,
    pub lo: int,
    pub hi: int,
}

/// A lexical error: code and byte range.
pub struct DiagSpec {
    pub code: u16,
    pub lo: int,
    pub hi: int,
}

/// One step of the scanner: where it stops, the token it yields (if any)
/// and the errors it reports.
pub struct StepSpec {
    pub next: int,
    pub tok: Option<TokSpec>,
    pub diags: Seq<DiagSpec>,
}

/// The number of a numeric literal: the end of its digits.
pub open spec fn number_end(b: Seq<u8>, start: int) -> int {
    if b[start] == 48 && start + 1 < b.len() && (b[start + 1] == 120 || b[start + 1] == 111
        || b[start + 1] == 98) {
        scan_hex_us(b, start + 2)
    } else {
        let e = scan_digit_us(b, start);
        if e < b.len() && b[e] == 46 && e + 1 < b.len() && is_digit_byte(b[e + 1]) {
            scan_digit_us(b, e + 1)
        } else {
            e
        }
    }
}

pub open spec fn step_number(b: Seq<u8>, start: int) -> StepSpec {
    let e = number_end(b, start);
    let text = ascii_text(b.subrange(start, e));
    let end = scan_ident(b, e);
    StepSpec {
        next: end,
        tok: Some(
            TokSpec {
                kind: if b.subrange(start, e).contains(46u8) {
                    KindView::Float(text)
                } else {
                    KindView::Int(text)
                },
                lo: start,
                hi: end,
            },
        ),
        diags: seq![],
    }
}

pub open spec fn step_ident(b: Seq<u8>, start: int) -> StepSpec {
    let end = scan_ident(b, start);
    let word = ascii_text(b.subrange(start, end));
    StepSpec {
        next: end,
        tok: Some(
            TokSpec {
                kind: if is_keyword_word(word) {
                    KindView::Keyword(word)
                } else {
                    KindView::Ident(word)
                },
                lo: start,
                hi: end,
            },
        ),
        diags: seq![],
    }
}

pub open spec fn step_comment(b: Seq<u8>, start: int) -> StepSpec {
    let end = scan_until(b, start, 10);
    let class = comment_class(decode_utf8(b.subrange(start, end)));
    StepSpec {
        next: end,
        tok: Some(TokSpec { kind: KindView::Comment(class.0, class.1), lo: start, hi: end }),
        diags: seq![],
    }
}

pub open spec fn step_raw_string(b: Seq<u8>, start: int) -> StepSpec {
    let e = scan_until(b, start + 1, 96);
    let end = if e < b.len() {
        e + 1
    } else {
        e
    };
    StepSpec {
        next: end,
        tok: Some(
            TokSpec { kind: KindView::Str(decode_utf8(b.subrange(start + 1, e))), lo: start, hi: end },
        ),
        diags: seq![],
    }
}

/// The punctuation at `start`, with its length; `None` for an unrecognized
/// byte.
pub open spec fn punct_at(b: Seq<u8>, start: int) -> Option<(Seq<char>, int)> {
    let c = b[start];
    let d: int = if start + 1 < b.len() {
        b[start + 1] as int
    } else {
        -1
    };
    if c == 58 {
        if d == 58 {
            Some(("::"@, 2))
        } else if d == 61 {
            Some((":="@, 2))
        } else {
            Some((":"@, 1))
        }
    } else if c == 61 {
        if d == 62 {
            Some(("=>"@, 2))
        } else if d == 61 {
            Some(("=="@, 2))
        } else {
            Some(("="@, 1))
        }
    } else if c == 33 {
        if d == 61 {
            Some(("!="@, 2))
        } else {
            Some(("!"@, 1))
        }
    } else if c == 60 {
        if d == 61 {
            Some(("<="@, 2))
        } else if d == 60 {
            Some(("<<"@, 2))
        } else {
            Some(("<"@, 1))
        }
    } else if c == 62 {
        if d == 61 {
            Some((">="@, 2))
        } else if d == 62 {
            Some((">>"@, 2))
        } else {
            Some((">"@, 1))
        }
    } else if c == 38 {
        if d == 38 {
            Some(("&&"@, 2))
        } else {
            Some(("&"@, 1))
        }
    } else if c == 124 {
        if d == 124 {
            Some(("||"@, 2))
        } else {
            Some(("|"@, 1))
        }
    } else if c == 43 {
        Some(("+"@, 1))
    } else if c == 45 {
        Some(("-"@, 1))
    } else if c == 42 {
        Some(("*"@, 1))
    } else if c == 47 {
        Some(("/"@, 1))
    } else if c == 37 {
        Some(("%"@, 1))
    } else if c == 126 {
        Some(("~"@, 1))
    } else if c == 94 {
        Some(("^"@, 1))
    } else if c == 63 {
        Some(("?"@, 1))
    } else if c == 64 {
        Some(("@"@, 1))
    } else if c == 40 {
        Some(("("@, 1))
    } else if c == 41 {
        Some((")"@, 1))
    } else if c == 123 {
        Some(("{"@, 1))
    } else if c == 125 {
        Some(("}"@, 1))
    } else if c == 91 {
        Some(("["@, 1))
    } else if c == 93 {
        Some(("]"@, 1))
    } else if c == 44 {
        Some((","@, 1))
    } else if c == 59 {
        Some((";"@, 1))
    } else if c == 46 {
        Some(("."@, 1))
    } else {
        None
    }
}

/// The two-character operators of the language.
pub open spec fn two_char_ops() -> Seq<Seq<char>> {
    seq!["::"@, ":="@, "=>"@, "=="@, "!="@, "<="@, "<<"@, ">="@, ">>"@, "&&"@, "||"@]
}

/// Punctuation is read by maximal munch: the token's text is exactly the
/// source bytes it covers, a two-character token is an operator of the
/// table, and a one-character token is only produced where the two bytes
/// at its start do not form such an operator.
pub proof fn law_punct_maximal_munch(b: Seq<u8>, start: int)
    requires
        0 <= start < b.len(),
        punct_at(b, start) is Some,
    ensures
        ({
            let (p, n) = punct_at(b, start)->0;
            &&& 1 <= n <= 2
            &&& start + n <= b.len()
            &&& p == ascii_text(b.subrange(start, start + n))
            &&& n == 2 ==> two_char_ops().contains(p)
            &&& n == 1 && start + 1 < b.len() ==> !two_char_ops().contains(ascii_text(b.subrange(start, start + 2)))
        }),
{
    reveal_strlit("::");
    reveal_strlit(":=");
    reveal_strlit(":");
    reveal_strlit("=>");
    reveal_strlit("==");
    reveal_strlit("=");
    reveal_strlit("!=");
    reveal_strlit("!");
    reveal_strlit("<=");
    reveal_strlit("<<");
    reveal_strlit("<");
    reveal_strlit(">=");
    reveal_strlit(">>");
    reveal_strlit(">");
    reveal_strlit("&&");
    reveal_strlit("&");
    reveal_strlit("||");
    reveal_strlit("|");
    reveal_strlit("+");
    reveal_strlit("-");
    reveal_strlit("*");
    reveal_strlit("/");
    reveal_strlit("%");
    reveal_strlit("~");
    reveal_strlit("^");
    reveal_strlit("?");
    reveal_strlit("@");
    reveal_strlit("(");
    reveal_strlit(")");
    reveal_strlit("{");
    reveal_strlit("}");
    reveal_strlit("[");
    reveal_strlit("]");
    reveal_strlit(",");
    reveal_strlit(";");
    reveal_strlit(".");
    assert("::"@ =~= seq![58 as char, 58 as char]);
    assert(":="@ =~= seq![58 as char, 61 as char]);
    assert(":"@ =~= seq![58 as char]);
    assert("=>"@ =~= seq![61 as char, 62 as char]);
    assert("=="@ =~= seq![61 as char, 61 as char]);
    assert("="@ =~= seq![61 as char]);
    assert("!="@ =~= seq![33 as char, 61 as char]);
    assert("!"@ =~= seq![33 as char]);
    assert("<="@ =~= seq![60 as char, 61 as char]);
    assert("<<"@ =~= seq![60 as char, 60 as char]);
    assert("<"@ =~= seq![60 as char]);
    assert(">="@ =~= seq![62 as char, 61 as char]);
    assert(">>"@ =~= seq![62 as char, 62 as char]);
    assert(">"@ =~= seq![62 as char]);
    assert("&&"@ =~= seq![38 as char, 38 as char]);
    assert("&"@ =~= seq![38 as char]);
    assert("||"@ =~= seq![124 as char, 124 as char]);
    assert("|"@ =~= seq![124 as char]);
    assert("+"@ =~= seq![43 as char]);
    assert("-"@ =~= seq![45 as char]);
    assert("*"@ =~= seq![42 as char]);
    assert("/"@ =~= seq![47 as char]);
    assert("%"@ =~= seq![37 as char]);
    assert("~"@ =~= seq![126 as char]);
    assert("^"@ =~= seq![94 as char]);
    assert("?"@ =~= seq![63 as char]);
    assert("@"@ =~= seq![64 as char]);
    assert("("@ =~= seq![40 as char]);
    assert(")"@ =~= seq![41 as char]);
    assert("{"@ =~= seq![123 as char]);
    assert("}"@ =~= seq![125 as char]);
    assert("["@ =~= seq![91 as char]);
    assert("]"@ =~= seq![93 as char]);
    assert(","@ =~= seq![44 as char]);
    assert(";"@ =~= seq![59 as char]);
    assert("."@ =~= seq![46 as char]);
    let (p, n) = punct_at(b, start)->0;
    if start + 1 < b.len() {
        let t = ascii_text(b.subrange(start, start + 2));
        assert(t =~= seq![b[start] as char, b[start + 1] as char]);
        if n == 2 {
            assert(ascii_text(b.subrange(start, start + n)) =~= t);
            assert(two_char_ops().contains(p)) by {
                let ops = two_char_ops();
                assert(ops[0] == "::"@ && ops[1] == ":="@ && ops[2] == "=>"@ && ops[3] == "=="@);
                assert(ops[4] == "!="@ && ops[5] == "<="@ && ops[6] == "<<"@ && ops[7] == ">="@);
                assert(ops[8] == ">>"@ && ops[9] == "&&"@ && ops[10] == "||"@);
            }
        } else {
            assert(ascii_text(b.subrange(start, start + n)) =~= seq![b[start] as char]);
            assert forall|k: int| 0 <= k < two_char_ops().len() implies two_char_ops()[k] != t by {
                let ops = two_char_ops();
                assert(ops[0] == "::"@ && ops[1] == ":="@ && ops[2] == "=>"@ && ops[3] == "=="@);
                assert(ops[4] == "!="@ && ops[5] == "<="@ && ops[6] == "<<"@ && ops[7] == ">="@);
                assert(ops[8] == ">>"@ && ops[9] == "&&"@ && ops[10] == "||"@);
                if ops[k] == t {
                    assert(ops[k][0] == t[0] && ops[k][1] == t[1]);
                }
            }
        }
    } else {
        assert(ascii_text(b.subrange(start, start + n)) =~= seq![b[start] as char]);
    }
}

pub open spec fn step_punct(b: Seq<u8>, start: int) -> StepSpec {
    match punct_at(b, start) {
        Some((p, len)) => StepSpec {
            next: start + len,
            tok: Some(TokSpec { kind: KindView::Punct(p), lo: start, hi: start + len }),
            diags: seq![],
        },
        None => StepSpec {
            next: start + 1,
            tok: None,
            diags: seq![DiagSpec { code: E_UNRECOGNIZED_CHAR, lo: start, hi: start + 1 }],
        },
    }
}

/// The byte value of a character literal's escape letter, if it is one.
pub open spec fn char_escape_byte(c: u8) -> Option<u8> {
    if c == 110 {
        Some(10u8)
    } else if c == 114 {
        Some(13u8)
    } else if c == 116 {
        Some(9u8)
    } else if c == 48 {
        Some(0u8)
    } else if c == 92 {
        Some(92u8)
    } else if c == 39 {
        Some(39u8)
    } else if c == 34 {
        Some(34u8)
    } else {
        None
    }
}

pub open spec fn step_char(b: Seq<u8>, start: int) -> StepSpec {
    let p = start + 1;
    if p >= b.len() {
        StepSpec {
            next: p,
            tok: None,
            diags: seq![DiagSpec { code: E_UNCLOSED_CHAR, lo: start, hi: p }],
        }
    } else {
        // (value, position after the character, errors)
        let (val, q, ds) = if b[p] == 92 {
            let p2 = p + 1;
            if p2 >= b.len() {
                (0u8, p2, Seq::<DiagSpec>::empty())
            } else {
                match char_escape_byte(b[p2]) {
                    Some(v) => (v, p2 + 1, Seq::<DiagSpec>::empty()),
                    None => (
                        63u8,
                        p2 + 1,
                        seq![DiagSpec { code: E_UNKNOWN_ESCAPE, lo: p2 - 1, hi: p2 }],
                    ),
                }
            }
        } else {
            (b[p], p + 1, Seq::<DiagSpec>::empty())
        };
        let end = if q < b.len() && b[q] == 39 {
            q + 1
        } else {
            q
        };
        StepSpec {
            next: end,
            tok: Some(TokSpec { kind: KindView::Int(decimal(val as nat)), lo: start, hi: end }),
            diags: ds,
        }
    }
}

/// Reads up to two hexadecimal digits starting at `p`: value and the
/// position after them.
pub open spec fn hex_byte(b: Seq<u8>, p: int) -> (u8, int) {
    if p >= b.len() {
        (0u8, p)
    } else if p + 1 >= b.len() {
        (hex_val(b[p]), p + 1)
    } else {
        ((hex_val(b[p]) * 16 + hex_val(b[p + 1])) as u8, p + 2)
    }
}

/// Reads hexadecimal digits up to `}` (wrapping on overflow): value and the
/// position after the closing brace, if any.
pub open spec fn unicode_code(b: Seq<u8>, p: int, acc: u32) -> (u32, int)
    decreases b.len() - p,
{
    if 0 <= p < b.len() && b[p] != 125 {
        unicode_code(b, p + 1, ((acc * 16 + hex_val(b[p])) % 0x1_0000_0000) as u32)
    } else if 0 <= p < b.len() {
        (acc, p + 1)
    } else {
        (acc, p)
    }
}

/// An escape sequence whose letter sits at `p`: the character it stands
/// for, the position of its last byte, and the errors it reports.
pub open spec fn string_escape(b: Seq<u8>, p: int) -> (char, int, Seq<DiagSpec>) {
    let c = b[p];
    if c == 110 {
        ('\n', p, seq![])
    } else if c == 114 {
        ('\r', p, seq![])
    } else if c == 116 {
        ('\t', p, seq![])
    } else if c == 48 {
        ('\0', p, seq![])
    } else if c == 92 {
        ('\\', p, seq![])
    } else if c == 34 {
        ('"', p, seq![])
    } else if c == 39 {
        ('\'', p, seq![])
    } else if c == 120 {
        let (v, q) = hex_byte(b, p + 1);
        ((v as char), q, seq![])
    } else if c == 117 && p + 1 < b.len() && b[p + 1] == 123 {
        let (code, q) = unicode_code(b, p + 2, 0);
        (if is_scalar(code) {
            code as char
        } else {
            '\u{FFFD}'
        }, q, seq![])
    } else {
        ('?', p, seq![DiagSpec { code: E_UNKNOWN_ESCAPE, lo: p - 1, hi: p }])
    }
}

/// The body of a string literal from `pos` on: where the scan stops, the
/// characters read, and the errors reported.
pub open spec fn string_scan(
    b: Seq<u8>,
    start: int,
    pos: int,
    acc: Seq<char>,
    ds: Seq<DiagSpec>,
) -> (int, Seq<char>, Seq<DiagSpec>)
    decreases b.len() + 2 - pos,
{
    if pos < 0 || pos >= b.len() {
        (pos, acc, ds)
    } else {
        match spec_char_at(b, pos) {
            None => string_scan(b, start, pos + 1, acc, ds),
            Some(ch) => if ch == '"' {
                (pos, acc, ds)
            } else if ch == '\n' {
                (pos, acc, ds.push(DiagSpec { code: E_MULTILINE_STRING, lo: start, hi: pos }))
            } else if ch == '\\' {
                let p1 = pos + 1;
                if p1 >= b.len() {
                    (p1, acc, ds)
                } else {
                    let (c, q, eds) = string_escape(b, p1);
                    if q + 1 <= pos || q + 1 > b.len() + 1 {
                        (pos, acc, ds)
                    } else {
                        string_scan(b, start, q + 1, acc.push(c), ds + eds)
                    }
                }
            } else {
                let q = pos + encode_scalar(ch as u32).len();
                if q <= pos || q > b.len() + 1 {
                    (pos, acc, ds)
                } else {
                    string_scan(b, start, q, acc.push(ch), ds)
                }
            },
        }
    }
}

pub open spec fn step_string(b: Seq<u8>, start: int) -> StepSpec {
    let (e, content, ds) = string_scan(b, start, start + 1, seq![], seq![]);
    let (end, ds2) = if e < b.len() && b[e] == 34 {
        (e + 1, ds)
    } else if e >= b.len() {
        (e, ds.push(DiagSpec { code: E_UNCLOSED_STRING, lo: start, hi: e }))
    } else {
        (e, ds)
    };
    StepSpec {
        next: end,
        tok: Some(TokSpec { kind: KindView::Str(content), lo: start, hi: end }),
        diags: ds2,
    }
}

/// One scanning step at offset `pos` (which must lie inside the text).
pub open spec fn step(b: Seq<u8>, pos: int) -> StepSpec {
    let c = b[pos];
    let d: int = if pos + 1 < b.len() {
        b[pos + 1] as int
    } else {
        -1
    };
    if is_ws_byte(c) {
        StepSpec { next: scan_ws(b, pos), tok: None, diags: seq![] }
    } else if (c == 45 && d == 45) || (c == 47 && d == 47) {
        step_comment(b, pos)
    } else if is_ident_start_byte(c) {
        step_ident(b, pos)
    } else if is_digit_byte(c) {
        step_number(b, pos)
    } else if c == 34 {
        step_string(b, pos)
    } else if c == 96 {
        step_raw_string(b, pos)
    } else if c == 39 {
        step_char(b, pos)
    } else {
        step_punct(b, pos)
    }
}

/// Tokens and errors of the text from offset `pos` to the end.
pub open spec fn lex_from(b: Seq<u8>, pos: int) -> (Seq<TokSpec>, Seq<DiagSpec>)
    decreases b.len() + 2 - pos,
{
    if pos < 0 || pos >= b.len() {
        (seq![], seq![])
    } else {
        let s = step(b, pos);
        if s.next <= pos || s.next > b.len() + 1 {
            (seq![], seq![])
        } else {
            let rest = lex_from(b, s.next);
            (
                match s.tok {
                    Some(t) => seq![t] + rest.0,
                    None => rest.0,
                },
                s.diags + rest.1,
            )
        }
    }
}

/// A token of file `file` matches its specification.
pub open spec fn token_matches(t: Token, file: FileId, ts: TokSpec) -> bool {
    &&& t.kind@ == ts.kind
    &&& t.span == Span { file, lo: ts.lo as u32, hi: ts.hi as u32 }
}

/// A diagnostic of file `file` matches its specification.
pub open spec fn diag_matches(d: Diagnostic, file: FileId, ds: DiagSpec) -> bool {
    &&& d.code == ds.code
    &&& d.loc == DiagLoc::At(Span { file, lo: ds.lo as u32, hi: ds.hi as u32 })
    &&& d.severity == crate::diag::Severity::Error
}

} // verus!

verus! {

/// The new diagnostics of `new` past `old` match `ds`, one for one.
pub open spec fn diags_extend(
    old: Seq<Diagnostic>,
    new: Seq<Diagnostic>,
    file: FileId,
    ds: Seq<DiagSpec>,
) -> bool {
    &&& new.len() == old.len() + ds.len()
    &&& new.subrange(0, old.len() as int) == old
    &&& forall|i: int| 0 <= i < ds.len() ==> diag_matches(#[trigger] new[old.len() + i], file, ds[i])
}

/// The new tokens of `new` past `old` match `ts`, one for one.
pub open spec fn tokens_extend(old: Seq<Token>, new: Seq<Token>, file: FileId, ts: Seq<TokSpec>) -> bool {
    &&& new.len() == old.len() + ts.len()
    &&& new.subrange(0, old.len() as int) == old
    &&& forall|i: int| 0 <= i < ts.len() ==> token_matches(#[trigger] new[old.len() + i], file, ts[i])
}

proof fn lemma_diags_extend_trans(
    a: Seq<Diagnostic>,
    b: Seq<Diagnostic>,
    c: Seq<Diagnostic>,
    file: FileId,
    d1: Seq<DiagSpec>,
    d2: Seq<DiagSpec>,
)
    requires
        diags_extend(a, b, file, d1),
        diags_extend(b, c, file, d2),
    ensures
        diags_extend(a, c, file, d1 + d2),
{
    assert(c.subrange(0, a.len() as int) =~= a) by {
        assert forall|i: int| 0 <= i < a.len() implies c[i] == a[i] by {
            assert(c[i] == c.subrange(0, b.len() as int)[i]);
            assert(b[i] == b.subrange(0, a.len() as int)[i]);
        }
    }
    assert forall|i: int| 0 <= i < (d1 + d2).len() implies diag_matches(
        #[trigger] c[a.len() + i],
        file,
        (d1 + d2)[i],
    ) by {
        if i < d1.len() {
            assert(c[a.len() + i] == c.subrange(0, b.len() as int)[a.len() + i]);
            assert(diag_matches(b[a.len() + i], file, d1[i]));
        } else {
            let j = i - d1.len();
            assert(diag_matches(c[b.len() + j], file, d2[j]));
        }
    }
}

proof fn lemma_tokens_extend_trans(
    a: Seq<Token>,
    b: Seq<Token>,
    c: Seq<Token>,
    file: FileId,
    t1: Seq<TokSpec>,
    t2: Seq<TokSpec>,
)
    requires
        tokens_extend(a, b, file, t1),
        tokens_extend(b, c, file, t2),
    ensures
        tokens_extend(a, c, file, t1 + t2),
{
    assert(c.subrange(0, a.len() as int) =~= a) by {
        assert forall|i: int| 0 <= i < a.len() implies c[i] == a[i] by {
            assert(c[i] == c.subrange(0, b.len() as int)[i]);
            assert(b[i] == b.subrange(0, a.len() as int)[i]);
        }
    }
    assert forall|i: int| 0 <= i < (t1 + t2).len() implies token_matches(
        #[trigger] c[a.len() + i],
        file,
        (t1 + t2)[i],
    ) by {
        if i < t1.len() {
            assert(c[a.len() + i] == c.subrange(0, b.len() as int)[a.len() + i]);
            assert(token_matches(b[a.len() + i], file, t1[i]));
        } else {
            let j = i - t1.len();
            assert(token_matches(c[b.len() + j], file, t2[j]));
        }
    }
}

/// The scanner state.
struct Lexer<'a> {
    file: FileId,
    src: &'a str,
    bytes: &'a [u8],
    pos: usize,
    tokens: Vec<Token>,
}

impl<'a> Lexer<'a> {
    spec fn wf(&self) -> bool {
        &&& self.bytes@ == self.src.spec_bytes()
        &&& self.bytes@.len() + 4 <= usize::MAX
        &&& self.pos <= self.bytes@.len() + 1
    }

    spec fn len(&self) -> int {
        self.bytes@.len() as int
    }

    fn new(file: FileId, src: &'a str) -> (l: Lexer<'a>)
        requires
            src.spec_bytes().len() + 4 <= usize::MAX,
        ensures
            l.wf(),
            l.file == file,
            l.src == src,
            l.pos == 0,
            l.tokens@.len() == 0,
    {
        Lexer { file, src, bytes: src.as_bytes(), pos: 0, tokens: Vec::new() }
    }

    fn cur(&self) -> (b: u8)
        requires
            self.wf(),
            self.pos < self.len(),
        ensures
            b == self.bytes@[self.pos as int],
    {
        self.bytes[self.pos]
    }

    fn peek(&self) -> (r: Option<u8>)
        requires
            self.wf(),
        ensures
            r == (if self.pos + 1 < self.len() {
                Some(self.bytes@[self.pos + 1])
            } else {
                None::<u8>
            }),
    {
        if self.pos + 1 < self.bytes.len() {
            Some(self.bytes[self.pos + 1])
        } else {
            None
        }
    }

    fn is_eof(&self) -> (b: bool)
        requires
            self.wf(),
        ensures
            b == (self.pos >= self.len()),
    {
        self.pos >= self.bytes.len()
    }

    /// Consumes one byte and returns it.
    fn advance(&mut self) -> (b: u8)
        requires
            old(self).wf(),
            old(self).pos < old(self).len(),
        ensures
            final(self).wf(),
            b == old(self).bytes@[old(self).pos as int],
            final(self).pos == old(self).pos + 1,
            final(self).bytes == old(self).bytes,
            final(self).src == old(self).src,
            final(self).file == old(self).file,
            final(self).tokens == old(self).tokens,
    {
        let b = self.bytes[self.pos];
        self.pos = self.pos + 1;
        b
    }

    fn span_from(&self, start: usize) -> (s: Span)
        ensures
            s == (Span { file: self.file, lo: start as u32, hi: self.pos as u32 }),
    {
        Span::new(self.file, start as u32, self.pos as u32)
    }

    fn report(&self, sink: &mut DiagSink, code: u16, msg: &str, lo: usize, hi: usize)
        ensures
            diags_extend(
                old(sink)@,
                final(sink)@,
                self.file,
                seq![DiagSpec { code, lo: lo as int, hi: hi as int }],
            ),
    {
        let span = Span::new(self.file, lo as u32, hi as u32);
        sink.emit(Diagnostic::error(code, String::from_str(msg), DiagLoc::At(span)));
        proof {
            assert(final(sink)@.subrange(0, old(sink)@.len() as int) =~= old(sink)@);
        }
    }

    fn push_token(&mut self, kind: TokenKind, start: usize)
        requires
            old(self).wf(),
        ensures
            final(self).wf(),
            final(self).pos == old(self).pos,
            final(self).bytes == old(self).bytes,
            final(self).src == old(self).src,
            final(self).file == old(self).file,
            tokens_extend(
                old(self).tokens@,
                final(self).tokens@,
                old(self).file,
                seq![TokSpec { kind: kind@, lo: start as int, hi: old(self).pos as int }],
            ),
    {
        let span = self.span_from(start);
        self.tokens.push(Token::new(kind, span));
        proof {
            assert(self.tokens@.subrange(0, old(self).tokens@.len() as int) =~= old(self).tokens@);
        }
    }
}

} // verus!

verus! {

pub open spec fn opt_seq<T>(o: Option<T>) -> Seq<T> {
    match o {
        Some(t) => seq![t],
        None => seq![],
    }
}

fn is_ident_continue(b: u8) -> (r: bool)
    ensures
        r == is_ident_continue_byte(b),
{
    b == 95 || (97 <= b && b <= 122) || (65 <= b && b <= 90) || (48 <= b && b <= 57)
}

fn is_hex_digit_or_underscore(b: u8) -> (r: bool)
    ensures
        r == is_hex_us_byte(b),
{
    (48 <= b && b <= 57) || (97 <= b && b <= 102) || (65 <= b && b <= 70) || b == 95
}

fn hex_value(b: u8) -> (v: u8)
    ensures
        v == hex_val(b),
        v < 16,
{
    if 48 <= b && b <= 57 {
        b - 48
    } else if 97 <= b && b <= 102 {
        b - 97 + 10
    } else if 65 <= b && b <= 70 {
        b - 65 + 10
    } else {
        0
    }
}

impl<'a> Lexer<'a> {
    /// The lexer moved from `old` to `self` by one step `st`.
    spec fn stepped(
        self,
        old: Lexer<'a>,
        old_sink: Seq<Diagnostic>,
        new_sink: Seq<Diagnostic>,
        st: StepSpec,
    ) -> bool {
        &&& self.wf()
        &&& self.src == old.src
        &&& self.bytes == old.bytes
        &&& self.file == old.file
        &&& self.pos == st.next
        &&& tokens_extend(old.tokens@, self.tokens@, old.file, opt_seq(st.tok))
        &&& diags_extend(old_sink, new_sink, old.file, st.diags)
    }

    fn skip_whitespace(&mut self)
        requires
            old(self).wf(),
        ensures
            final(self).wf(),
            final(self).pos == scan_ws(old(self).bytes@, old(self).pos as int),
            final(self).src == old(self).src,
            final(self).bytes == old(self).bytes,
            final(self).file == old(self).file,
            final(self).tokens == old(self).tokens,
    {
        while !self.is_eof() && (self.cur() == 32 || self.cur() == 9 || self.cur() == 13
            || self.cur() == 10)
            invariant
                self.wf(),
                self.src == old(self).src,
                self.bytes == old(self).bytes,
                self.file == old(self).file,
                self.tokens == old(self).tokens,
                old(self).pos <= self.pos,
                scan_ws(self.bytes@, old(self).pos as int) == scan_ws(self.bytes@, self.pos as int),
            decreases self.len() - self.pos,
        {
            self.pos = self.pos + 1;
        }
    }

    fn lex_ident_or_keyword(&mut self, sink: &mut DiagSink, start: usize)
        requires
            old(self).wf(),
            old(self).pos == start < old(self).len(),
            is_ident_start_byte(old(self).bytes@[start as int]),
        ensures
            final(self).stepped(*old(self), old(sink)@, final(sink)@, step_ident(old(self).bytes@, start as int)),
    {
        while !self.is_eof() && is_ident_continue(self.cur())
            invariant
                self.wf(),
                self.src == old(self).src,
                self.bytes == old(self).bytes,
                self.file == old(self).file,
                self.tokens == old(self).tokens,
                start <= self.pos <= self.len(),
                scan_ident(self.bytes@, start as int) == scan_ident(self.bytes@, self.pos as int),
            decreases self.len() - self.pos,
        {
            self.pos = self.pos + 1;
        }
        let word = ascii_string(self.bytes, start, self.pos);
        let kind = match keyword_index(word.as_str()) {
            Some(i) => TokenKind::Keyword(KEYWORDS[i]),
            None => TokenKind::Ident(word),
        };
        self.push_token(kind, start);
        proof {
            assert(final(sink)@.subrange(0, old(sink)@.len() as int) =~= old(sink)@);
        }
    }

    fn lex_number(&mut self, sink: &mut DiagSink, start: usize)
        requires
            old(self).wf(),
            old(self).pos == start < old(self).len(),
            is_digit_byte(old(self).bytes@[start as int]),
        ensures
            final(self).stepped(*old(self), old(sink)@, final(sink)@, step_number(old(self).bytes@, start as int)),
    {
        let ghost b = self.bytes@;
        let p = self.peek();
        if self.cur() == 48 && (p == Some(120u8) || p == Some(111u8) || p == Some(98u8)) {
            self.pos = self.pos + 2;
            while !self.is_eof() && is_hex_digit_or_underscore(self.cur())
                invariant
                    self.wf(),
                    self.src == old(self).src,
                    self.bytes == old(self).bytes,
                    self.file == old(self).file,
                    self.tokens == old(self).tokens,
                    b == self.bytes@,
                    start + 2 <= self.pos <= self.len(),
                    scan_hex_us(b, start + 2) == scan_hex_us(b, self.pos as int),
                decreases self.len() - self.pos,
            {
                self.pos = self.pos + 1;
            }
        } else {
            while !self.is_eof() && (self.cur() == 95 || (48 <= self.cur() && self.cur() <= 57))
                invariant
                    self.wf(),
                    self.src == old(self).src,
                    self.bytes == old(self).bytes,
                    self.file == old(self).file,
                    self.tokens == old(self).tokens,
                    b == self.bytes@,
                    start <= self.pos <= self.len(),
                    scan_digit_us(b, start as int) == scan_digit_us(b, self.pos as int),
                decreases self.len() - self.pos,
            {
                self.pos = self.pos + 1;
            }
            let ghost e = self.pos;
            let q = self.peek();
            if !self.is_eof() && self.cur() == 46 && (match q {
                Some(x) => 48 <= x && x <= 57,
                None => false,
            }) {
                self.pos = self.pos + 1;
                while !self.is_eof() && (self.cur() == 95 || (48 <= self.cur() && self.cur()
                    <= 57))
                    invariant
                        self.wf(),
                        self.src == old(self).src,
                        self.bytes == old(self).bytes,
                        self.file == old(self).file,
                        self.tokens == old(self).tokens,
                        b == self.bytes@,
                        e + 1 <= self.pos <= self.len(),
                        scan_digit_us(b, e + 1) == scan_digit_us(b, self.pos as int),
                    decreases self.len() - self.pos,
                {
                    self.pos = self.pos + 1;
                }
            }
        }
        let num_end = self.pos;
        assert(num_end == number_end(b, start as int));
        while !self.is_eof() && is_ident_continue(self.cur())
            invariant
                self.wf(),
                self.src == old(self).src,
                self.bytes == old(self).bytes,
                self.file == old(self).file,
                self.tokens == old(self).tokens,
                b == self.bytes@,
                num_end <= self.pos <= self.len(),
                scan_ident(b, num_end as int) == scan_ident(b, self.pos as int),
            decreases self.len() - self.pos,
        {
            self.pos = self.pos + 1;
        }
        let text = ascii_string(self.bytes, start, num_end);
        let mut has_dot = false;
        let mut i: usize = start;
        while i < num_end
            invariant
                start <= i <= num_end <= b.len(),
                self.bytes@ == b,
                has_dot == b.subrange(start as int, i as int).contains(46u8),
            decreases num_end - i,
        {
            proof {
                let t1 = b.subrange(start as int, i as int);
                let t2 = b.subrange(start as int, i + 1);
                assert(t2 =~= t1.push(b[i as int]));
                if t2.contains(46u8) && !t1.contains(46u8) {
                    let k = choose|k: int| 0 <= k < t2.len() && t2[k] == 46u8;
                    assert(k == t1.len());
                }
                if t1.contains(46u8) {
                    let k = choose|k: int| 0 <= k < t1.len() && t1[k] == 46u8;
                    assert(t2[k] == 46u8);
                }
                if b[i as int] == 46u8 {
                    assert(t2[t1.len() as int] == 46u8);
                }
            }
            if self.bytes[i] == 46 {
                has_dot = true;
            }
            i = i + 1;
        }
        let kind = if has_dot {
            TokenKind::Float(text)
        } else {
            TokenKind::Int(text)
        };
        self.push_token(kind, start);
        proof {
            assert(final(sink)@.subrange(0, old(sink)@.len() as int) =~= old(sink)@);
        }
    }
}

} // verus!

verus! {

/// An ASCII byte, or the end of the text, is a character boundary.
proof fn lemma_ascii_boundary(b: Seq<u8>, i: int)
    requires
        valid_utf8(b),
        0 <= i <= b.len(),
        i == b.len() || b[i] < 128,
    ensures
        is_char_boundary(b, i),
{
    if i == b.len() {
        is_char_boundary_start_end_of_seq(b);
    } else {
        is_char_boundary_iff_not_is_continuation_byte(b, i);
    }
}

/// The offset after an ASCII byte at a character boundary is a boundary.
proof fn lemma_boundary_after_ascii(b: Seq<u8>, i: int)
    requires
        valid_utf8(b),
        is_char_boundary(b, i),
        0 <= i < b.len(),
        b[i] < 128,
    ensures
        is_char_boundary(b, i + 1),
    decreases b.len(),
{
    let l = length_of_first_scalar(b);
    let rest = pop_first_scalar(b);
    assert(valid_first_scalar(b));
    assert(valid_utf8(rest));
    assert(rest.len() == b.len() - l);
    if i == 0 {
        assert(l == 1);
        assert(is_char_boundary(rest, 0));
        assert(is_char_boundary(b, 1));
    } else {
        assert(is_char_boundary(rest, i - l));
        assert(i - l >= 0) by {
            if i - l < 0 {
                assert(!is_char_boundary(rest, i - l));
            }
        }
        assert(rest[i - l] == b[i]);
        lemma_boundary_after_ascii(rest, i - l);
        assert(is_char_boundary(rest, i + 1 - l));
    }
}

/// The character at a boundary fits inside the text.
proof fn lemma_char_fits(b: Seq<u8>, pos: int)
    requires
        valid_utf8(b),
        0 <= pos < b.len(),
        is_char_boundary(b, pos),
    ensures
        pos + encode_scalar(
            (decode_first_scalar(b.subrange(pos, b.len() as int)) as char) as u32,
        ).len() <= b.len(),
{
    let sub = b.subrange(pos, b.len() as int);
    valid_utf8_split(b, pos);
    decode_utf8_first_scalar(sub);
    assert(valid_first_scalar(sub));
}

/// A string slice's text is the decoding of its bytes.
proof fn lemma_str_decode(s: &str)
    ensures
        s@ == decode_utf8(s.spec_bytes()),
        valid_utf8(s.spec_bytes()),
{
    encode_utf8_decode_utf8(s@);
    encode_utf8_valid_utf8(s@);
}

proof fn lemma_unicode_code_bound(b: Seq<u8>, p: int, acc: u32)
    requires
        0 <= p <= b.len(),
    ensures
        p <= unicode_code(b, p, acc).1 <= b.len(),
    decreases b.len() - p,
{
    if 0 <= p < b.len() && b[p] != 125 {
        lemma_unicode_code_bound(b, p + 1, ((acc * 16 + hex_val(b[p])) % 0x1_0000_0000) as u32);
    }
}

impl<'a> Lexer<'a> {
    fn lex_comment(&mut self, sink: &mut DiagSink, start: usize)
        requires
            old(self).wf(),
            old(self).pos == start < old(self).len(),
            old(self).bytes@[start as int] == 45 || old(self).bytes@[start as int] == 47,
        ensures
            final(self).stepped(*old(self), old(sink)@, final(sink)@, step_comment(old(self).bytes@, start as int)),
    {
        let ghost b = self.bytes@;
        while !self.is_eof() && self.cur() != 10
            invariant
                self.wf(),
                self.src == old(self).src,
                self.bytes == old(self).bytes,
                self.file == old(self).file,
                self.tokens == old(self).tokens,
                b == self.bytes@,
                start <= self.pos <= self.len(),
                scan_until(b, start as int, 10) == scan_until(b, self.pos as int, 10),
            decreases self.len() - self.pos,
        {
            self.pos = self.pos + 1;
        }
        proof {
            lemma_str_decode(self.src);
            lemma_ascii_boundary(b, start as int);
            lemma_ascii_boundary(b, self.pos as int);
        }
        let text = match str_range(self.src, start, self.pos) {
            Some(t) => t,
            None => {
                assert(false);
                return;
            },
        };
        proof {
            lemma_str_decode(text);
        }
        let (kind, body) = classify_comment(text);
        self.push_token(TokenKind::Comment(kind, String::from_str(body)), start);
        proof {
            assert(final(sink)@.subrange(0, old(sink)@.len() as int) =~= old(sink)@);
        }
    }

    fn lex_raw_string(&mut self, sink: &mut DiagSink, start: usize)
        requires
            old(self).wf(),
            old(self).pos == start < old(self).len(),
            old(self).bytes@[start as int] == 96,
        ensures
            final(self).stepped(*old(self), old(sink)@, final(sink)@, step_raw_string(old(self).bytes@, start as int)),
    {
        let ghost b = self.bytes@;
        self.pos = self.pos + 1;
        let content_start = self.pos;
        while !self.is_eof() && self.cur() != 96
            invariant
                self.wf(),
                self.src == old(self).src,
                self.bytes == old(self).bytes,
                self.file == old(self).file,
                self.tokens == old(self).tokens,
                b == self.bytes@,
                content_start == start + 1,
                start + 1 <= self.pos <= self.len(),
                scan_until(b, start + 1, 96) == scan_until(b, self.pos as int, 96),
            decreases self.len() - self.pos,
        {
            self.pos = self.pos + 1;
        }
        proof {
            lemma_str_decode(self.src);
            lemma_ascii_boundary(b, start as int);
            lemma_boundary_after_ascii(b, start as int);
            lemma_ascii_boundary(b, self.pos as int);
        }
        let content = match str_range(self.src, content_start, self.pos) {
            Some(t) => t,
            None => {
                assert(false);
                return;
            },
        };
        proof {
            lemma_str_decode(content);
        }
        let s = String::from_str(content);
        if !self.is_eof() {
            self.pos = self.pos + 1;
        }
        self.push_token(TokenKind::Str(s), start);
        proof {
            assert(final(sink)@.subrange(0, old(sink)@.len() as int) =~= old(sink)@);
        }
    }

    fn lex_punct(&mut self, sink: &mut DiagSink, start: usize)
        requires
            old(self).wf(),
            old(self).pos == start < old(self).len(),
        ensures
            final(self).stepped(*old(self), old(sink)@, final(sink)@, step_punct(old(self).bytes@, start as int)),
    {
        let first = self.cur();
        let second: i32 = match self.peek() {
            Some(x) => x as i32,
            None => -1,
        };
        let (punct, len): (&'static str, usize) = if first == 58 {
            if second == 58 {
                ("::", 2)
            } else if second == 61 {
                (":=", 2)
            } else {
                (":", 1)
            }
        } else if first == 61 {
            if second == 62 {
                ("=>", 2)
            } else if second == 61 {
                ("==", 2)
            } else {
                ("=", 1)
            }
        } else if first == 33 {
            if second == 61 {
                ("!=", 2)
            } else {
                ("!", 1)
            }
        } else if first == 60 {
            if second == 61 {
                ("<=", 2)
            } else if second == 60 {
                ("<<", 2)
            } else {
                ("<", 1)
            }
        } else if first == 62 {
            if second == 61 {
                (">=", 2)
            } else if second == 62 {
                (">>", 2)
            } else {
                (">", 1)
            }
        } else if first == 38 {
            if second == 38 {
                ("&&", 2)
            } else {
                ("&", 1)
            }
        } else if first == 124 {
            if second == 124 {
                ("||", 2)
            } else {
                ("|", 1)
            }
        } else if first == 43 {
            ("+", 1)
        } else if first == 45 {
            ("-", 1)
        } else if first == 42 {
            ("*", 1)
        } else if first == 47 {
            ("/", 1)
        } else if first == 37 {
            ("%", 1)
        } else if first == 126 {
            ("~", 1)
        } else if first == 94 {
            ("^", 1)
        } else if first == 63 {
            ("?", 1)
        } else if first == 64 {
            ("@", 1)
        } else if first == 40 {
            ("(", 1)
        } else if first == 41 {
            (")", 1)
        } else if first == 123 {
            ("{", 1)
        } else if first == 125 {
            ("}", 1)
        } else if first == 91 {
            ("[", 1)
        } else if first == 93 {
            ("]", 1)
        } else if first == 44 {
            (",", 1)
        } else if first == 59 {
            (";", 1)
        } else if first == 46 {
            (".", 1)
        } else {
            self.pos = self.pos + 1;
            let shown = string_from_chars(vec![first as char].as_slice());
            let msg = concat2("未识别的字符: ", shown.as_str());
            let span = self.span_from(start);
            sink.emit(Diagnostic::error(E_UNRECOGNIZED_CHAR, msg, DiagLoc::At(span)));
            proof {
                assert(final(sink)@.subrange(0, old(sink)@.len() as int) =~= old(sink)@);
                assert(self.tokens@.subrange(0, old(self).tokens@.len() as int) =~= old(self).tokens@);
            }
            return;
        };
        self.pos = self.pos + len;
        self.push_token(TokenKind::Punct(punct), start);
        proof {
            assert(final(sink)@.subrange(0, old(sink)@.len() as int) =~= old(sink)@);
        }
    }
}

} // verus!

verus! {

impl<'a> Lexer<'a> {
    fn lex_char(&mut self, sink: &mut DiagSink, start: usize)
        requires
            old(self).wf(),
            old(self).pos == start < old(self).len(),
            old(self).bytes@[start as int] == 39,
        ensures
            final(self).stepped(*old(self), old(sink)@, final(sink)@, step_char(old(self).bytes@, start as int)),
    {
        let ghost b = self.bytes@;
        self.pos = self.pos + 1;
        if self.is_eof() {
            self.report(sink, E_UNCLOSED_CHAR, "未闭合的字符字面量", start, self.pos);
            proof {
                assert(self.tokens@.subrange(0, old(self).tokens@.len() as int) =~= old(self).tokens@);
            }
            return;
        }
        let byte_val: u8 = if self.cur() == 92 {
            self.pos = self.pos + 1;
            if self.is_eof() {
                0
            } else {
                let c = self.cur();
                if c == 110 {
                    self.pos = self.pos + 1;
                    10
                } else if c == 114 {
                    self.pos = self.pos + 1;
                    13
                } else if c == 116 {
                    self.pos = self.pos + 1;
                    9
                } else if c == 48 {
                    self.pos = self.pos + 1;
                    0
                } else if c == 92 {
                    self.pos = self.pos + 1;
                    92
                } else if c == 39 {
                    self.pos = self.pos + 1;
                    39
                } else if c == 34 {
                    self.pos = self.pos + 1;
                    34
                } else {
                    self.report(sink, E_UNKNOWN_ESCAPE, "未识别的转义序列", self.pos - 1, self.pos);
                    self.pos = self.pos + 1;
                    63
                }
            }
        } else {
            let v = self.cur();
            self.pos = self.pos + 1;
            v
        };
        if !self.is_eof() && self.cur() == 39 {
            self.pos = self.pos + 1;
        }
        let text = u64_to_decimal(byte_val as u64);
        self.push_token(TokenKind::Int(text), start);
        proof {
            if sink@.len() == old(sink)@.len() {
                assert(sink@.subrange(0, old(sink)@.len() as int) =~= old(sink)@);
            }
        }
    }

    fn read_hex_byte(&mut self) -> (v: u8)
        requires
            old(self).wf(),
            old(self).pos <= old(self).len(),
        ensures
            (v, final(self).pos as int) == hex_byte(old(self).bytes@, old(self).pos as int),
            final(self).wf(),
            final(self).src == old(self).src,
            final(self).bytes == old(self).bytes,
            final(self).file == old(self).file,
            final(self).tokens == old(self).tokens,
    {
        if self.is_eof() {
            return 0;
        }
        let d1 = hex_value(self.cur());
        self.pos = self.pos + 1;
        if self.is_eof() {
            return d1;
        }
        let d2 = hex_value(self.cur());
        self.pos = self.pos + 1;
        d1 * 16 + d2
    }

    fn read_unicode(&mut self) -> (v: u32)
        requires
            old(self).wf(),
            old(self).pos <= old(self).len(),
        ensures
            (v, final(self).pos as int) == unicode_code(old(self).bytes@, old(self).pos as int, 0),
            final(self).wf(),
            final(self).src == old(self).src,
            final(self).bytes == old(self).bytes,
            final(self).file == old(self).file,
            final(self).tokens == old(self).tokens,
    {
        let ghost b = self.bytes@;
        let ghost p0 = self.pos;
        let mut val: u32 = 0;
        while !self.is_eof() && self.cur() != 125
            invariant
                self.wf(),
                self.src == old(self).src,
                self.bytes == old(self).bytes,
                self.file == old(self).file,
                self.tokens == old(self).tokens,
                b == self.bytes@,
                p0 <= self.pos <= self.len(),
                unicode_code(b, p0 as int, 0) == unicode_code(b, self.pos as int, val),
            decreases self.len() - self.pos,
        {
            let h = hex_value(self.cur());
            let t: u64 = (val as u64) * 16 + (h as u64);
            val = (t % 0x1_0000_0000) as u32;
            self.pos = self.pos + 1;
        }
        if !self.is_eof() && self.cur() == 125 {
            self.pos = self.pos + 1;
        }
        val
    }
}

} // verus!

verus! {

impl<'a> Lexer<'a> {
    fn lex_string(&mut self, sink: &mut DiagSink, start: usize)
        requires
            old(self).wf(),
            old(self).pos == start < old(self).len(),
            old(self).bytes@[start as int] == 34,
        ensures
            final(self).stepped(*old(self), old(sink)@, final(sink)@, step_string(old(self).bytes@, start as int)),
    {
        let ghost b = self.bytes@;
        let ghost whole = string_scan(b, start as int, start + 1, seq![], seq![]);
        proof {
            lemma_str_decode(self.src);
        }
        self.pos = self.pos + 1;
        let mut s: Vec<char> = Vec::new();
        let ghost mut dd: Seq<DiagSpec> = seq![];
        proof {
            assert(sink@.subrange(0, old(sink)@.len() as int) =~= old(sink)@);
        }
        loop
            invariant_except_break
                self.wf(),
                self.src == old(self).src,
                self.bytes == old(self).bytes,
                self.file == old(self).file,
                self.tokens == old(self).tokens,
                b == self.bytes@,
                valid_utf8(b),
                start + 1 <= self.pos <= self.len() + 1,
                whole == string_scan(b, start as int, self.pos as int, s@, dd),
                diags_extend(old(sink)@, sink@, old(self).file, dd),
            ensures
                self.wf(),
                self.src == old(self).src,
                self.bytes == old(self).bytes,
                self.file == old(self).file,
                self.tokens == old(self).tokens,
                b == self.bytes@,
                whole == (self.pos as int, s@, dd),
                diags_extend(old(sink)@, sink@, old(self).file, dd),
            decreases self.len() + 2 - self.pos,
        {
            if self.is_eof() {
                break;
            }
            let ch = match char_at(self.src, self.pos) {
                Some(c) => c,
                None => {
                    self.pos = self.pos + 1;
                    continue;
                },
            };
            if ch == '"' {
                break;
            }
            if ch == '\n' {
                let ghost old_sink = sink@;
                self.report(sink, E_MULTILINE_STRING, "字符串字面量不能跨行", start, self.pos);
                proof {
                    lemma_diags_extend_trans(
                        old(sink)@,
                        old_sink,
                        sink@,
                        self.file,
                        dd,
                        seq![DiagSpec { code: E_MULTILINE_STRING, lo: start as int, hi: self.pos as int }],
                    );
                    dd = dd.push(DiagSpec { code: E_MULTILINE_STRING, lo: start as int, hi: self.pos as int });
                    assert(dd =~= dd.drop_last() + seq![DiagSpec { code: E_MULTILINE_STRING, lo: start as int, hi: self.pos as int }]);
                }
                break;
            }
            if ch == '\\' {
                self.pos = self.pos + 1;
                if self.is_eof() {
                    break;
                }
                let ghost p1 = self.pos as int;
                let ghost esc_spec = string_escape(b, p1);
                let c = self.cur();
                let ghost old_sink = sink@;
                let esc: char = if c == 110 {
                    '\n'
                } else if c == 114 {
                    '\r'
                } else if c == 116 {
                    '\t'
                } else if c == 48 {
                    '\0'
                } else if c == 92 {
                    '\\'
                } else if c == 34 {
                    '"'
                } else if c == 39 {
                    '\''
                } else if c == 120 {
                    self.pos = self.pos + 1;
                    let v = self.read_hex_byte();
                    v as char
                } else if c == 117 && self.peek() == Some(123u8) {
                    self.pos = self.pos + 2;
                    proof {
                        lemma_unicode_code_bound(b, p1 + 2, 0);
                    }
                    let code = self.read_unicode();
                    match char_from_u32(code) {
                        Some(x) => x,
                        None => '\u{FFFD}',
                    }
                } else {
                    self.report(sink, E_UNKNOWN_ESCAPE, "未识别的转义序列", self.pos - 1, self.pos);
                    '?'
                };
                proof {
                    if sink@.len() == old_sink.len() {
                        assert(sink@.subrange(0, old_sink.len() as int) =~= old_sink);
                    }
                    lemma_diags_extend_trans(old(sink)@, old_sink, sink@, self.file, dd, esc_spec.2);
                    dd = dd + esc_spec.2;
                }
                s.push(esc);
                self.pos = self.pos + 1;
            } else {
                proof {
                    lemma_char_fits(b, self.pos as int);
                }
                s.push(ch);
                self.pos = self.pos + len_utf8(ch);
            }
        }
        let ghost e = self.pos as int;
        if !self.is_eof() && self.cur() == 34 {
            self.pos = self.pos + 1;
        } else if self.is_eof() {
            let ghost old_sink = sink@;
            self.report(sink, E_UNCLOSED_STRING, "未闭合的字符串字面量", start, self.pos);
            proof {
                lemma_diags_extend_trans(
                    old(sink)@,
                    old_sink,
                    sink@,
                    self.file,
                    dd,
                    seq![DiagSpec { code: E_UNCLOSED_STRING, lo: start as int, hi: e }],
                );
                dd = dd.push(DiagSpec { code: E_UNCLOSED_STRING, lo: start as int, hi: e });
                assert(dd =~= dd.drop_last() + seq![DiagSpec { code: E_UNCLOSED_STRING, lo: start as int, hi: e }]);
            }
        }
        let text = string_from_chars(s.as_slice());
        self.push_token(TokenKind::Str(text), start);
    }
}

} // verus!

verus! {

proof fn lemma_scans(b: Seq<u8>, i: int)
    requires
        0 <= i <= b.len(),
    ensures
        i <= scan_ident(b, i) <= b.len(),
        i <= scan_ws(b, i) <= b.len(),
        i <= scan_hex_us(b, i) <= b.len(),
        i <= scan_digit_us(b, i) <= b.len(),
        i <= scan_until(b, i, 10) <= b.len(),
        i <= scan_until(b, i, 96) <= b.len(),
    decreases b.len() - i,
{
    if i < b.len() {
        lemma_scans(b, i + 1);
    }
}

proof fn lemma_string_scan_bound(
    b: Seq<u8>,
    start: int,
    pos: int,
    acc: Seq<char>,
    ds: Seq<DiagSpec>,
)
    requires
        0 <= pos <= b.len() + 1,
    ensures
        pos <= string_scan(b, start, pos, acc, ds).0 <= b.len() + 1,
    decreases b.len() + 2 - pos,
{
    if pos < 0 || pos >= b.len() {
    } else {
        match spec_char_at(b, pos) {
            None => lemma_string_scan_bound(b, start, pos + 1, acc, ds),
            Some(ch) => if ch == '"' {
            } else if ch == '\n' {
            } else if ch == '\\' {
                let p1 = pos + 1;
                if p1 >= b.len() {
                } else {
                    let (c, q, eds) = string_escape(b, p1);
                    if q + 1 <= pos || q + 1 > b.len() + 1 {
                    } else {
                        lemma_string_scan_bound(b, start, q + 1, acc.push(c), ds + eds);
                    }
                }
            } else {
                let q = pos + encode_scalar(ch as u32).len();
                if q <= pos || q > b.len() + 1 {
                } else {
                    lemma_string_scan_bound(b, start, q, acc.push(ch), ds);
                }
            },
        }
    }
}

/// Every step consumes at least one byte and stays within one byte past
/// the end.
proof fn lemma_step_advances(b: Seq<u8>, pos: int)
    requires
        0 <= pos < b.len(),
    ensures
        pos < step(b, pos).next <= b.len() + 1,
{
    lemma_scans(b, pos);
    lemma_scans(b, pos + 1);
    let c = b[pos];
    if is_digit_byte(c) && !is_ws_byte(c) {
        if b[pos] == 48 && pos + 1 < b.len() && (b[pos + 1] == 120 || b[pos + 1] == 111
            || b[pos + 1] == 98) {
            lemma_scans(b, pos + 2);
            lemma_scans(b, scan_hex_us(b, pos + 2));
        } else {
            let e = scan_digit_us(b, pos);
            lemma_scans(b, e);
            if e < b.len() && b[e] == 46 && e + 1 < b.len() && is_digit_byte(b[e + 1]) {
                lemma_scans(b, e + 1);
                lemma_scans(b, scan_digit_us(b, e + 1));
            }
        }
    }
    if c == 34 {
        lemma_string_scan_bound(b, pos, pos + 1, seq![], seq![]);
    }
    if c == 39 {
        let p = pos + 1;
        if p < b.len() && b[p] == 92 {
        }
    }
}

impl<'a> Lexer<'a> {
    fn run(self, sink: &mut DiagSink) -> (toks: Vec<Token>)
        requires
            self.wf(),
            self.pos == 0,
            self.tokens@.len() == 0,
        ensures
            tokens_extend(
                seq![],
                toks@,
                self.file,
                lex_from(self.bytes@, 0).0 + seq![
                    TokSpec { kind: KindView::Eof, lo: self.len(), hi: self.len() },
                ],
            ),
            diags_extend(old(sink)@, final(sink)@, self.file, lex_from(self.bytes@, 0).1),
    {
        let mut this = self;
        let ghost b = this.bytes@;
        let ghost file = this.file;
        let ghost mut tt: Seq<TokSpec> = seq![];
        let ghost mut dd: Seq<DiagSpec> = seq![];
        proof {
            assert(sink@.subrange(0, old(sink)@.len() as int) =~= old(sink)@);
            assert(this.tokens@.subrange(0, 0) =~= Seq::<Token>::empty());
            assert(lex_from(b, 0).0 =~= tt + lex_from(b, 0).0);
            assert(lex_from(b, 0).1 =~= dd + lex_from(b, 0).1);
        }
        while !this.is_eof()
            invariant
                this.wf(),
                b == this.bytes@,
                file == this.file,
                this.bytes@.len() == this.src.spec_bytes().len(),
                tokens_extend(seq![], this.tokens@, file, tt),
                diags_extend(old(sink)@, sink@, file, dd),
                lex_from(b, 0).0 == tt + lex_from(b, this.pos as int).0,
                lex_from(b, 0).1 == dd + lex_from(b, this.pos as int).1,
            decreases this.len() + 2 - this.pos,
        {
            let start = this.pos;
            let ghost st = step(b, start as int);
            let ghost old_this = this;
            let ghost old_sink = sink@;
            proof {
                lemma_step_advances(b, start as int);
            }
            let c = this.cur();
            let d = this.peek();
            if c == 32 || c == 9 || c == 13 || c == 10 {
                this.skip_whitespace();
                proof {
                    assert(sink@.subrange(0, old_sink.len() as int) =~= old_sink);
                    assert(this.tokens@.subrange(0, old_this.tokens@.len() as int) =~= old_this.tokens@);
                }
            } else if (c == 45 && d == Some(45u8)) || (c == 47 && d == Some(47u8)) {
                this.lex_comment(sink, start);
            } else if c == 95 || (97 <= c && c <= 122) || (65 <= c && c <= 90) {
                this.lex_ident_or_keyword(sink, start);
            } else if 48 <= c && c <= 57 {
                this.lex_number(sink, start);
            } else if c == 34 {
                this.lex_string(sink, start);
            } else if c == 96 {
                this.lex_raw_string(sink, start);
            } else if c == 39 {
                this.lex_char(sink, start);
            } else {
                this.lex_punct(sink, start);
            }
            proof {
                assert(this.pos == st.next);
                lemma_tokens_extend_trans(seq![], old_this.tokens@, this.tokens@, file, tt, opt_seq(st.tok));
                lemma_diags_extend_trans(old(sink)@, old_sink, sink@, file, dd, st.diags);
                let rest = lex_from(b, st.next);
                assert(lex_from(b, start as int).0 == opt_seq(st.tok) + rest.0);
                assert(lex_from(b, start as int).1 == st.diags + rest.1);
                assert(lex_from(b, 0).0 =~= (tt + opt_seq(st.tok)) + rest.0);
                assert(lex_from(b, 0).1 =~= (dd + st.diags) + rest.1);
                tt = tt + opt_seq(st.tok);
                dd = dd + st.diags;
            }
        }
        let end = this.src.len() as u32;
        let ghost before = this.tokens@;
        this.tokens.push(Token::new(TokenKind::Eof, Span::new(this.file, end, end)));
        proof {
            assert(lex_from(b, this.pos as int).0 =~= seq![]);
            assert(lex_from(b, this.pos as int).1 =~= seq![]);
            assert(tt =~= lex_from(b, 0).0);
            assert(dd =~= lex_from(b, 0).1);
            let eof = seq![TokSpec { kind: KindView::Eof, lo: b.len() as int, hi: b.len() as int }];
            assert(tokens_extend(before, this.tokens@, file, eof)) by {
                assert(this.tokens@.subrange(0, before.len() as int) =~= before);
            }
            lemma_tokens_extend_trans(seq![], before, this.tokens@, file, tt, eof);
        }
        this.tokens
    }
}

/// Lexes a whole source file. The last token is always `Eof`, positioned at
/// the end of the text.
pub fn tokenize(file: FileId, src: &str, sink: &mut DiagSink) -> (toks: Vec<Token>)
    requires
        src.spec_bytes().len() + 4 <= usize::MAX,
    ensures
        tokens_extend(
            seq![],
            toks@,
            file,
            lex_from(src.spec_bytes(), 0).0 + seq![
                TokSpec {
                    kind: KindView::Eof,
                    lo: src.spec_bytes().len() as int,
                    hi: src.spec_bytes().len() as int,
                },
            ],
        ),
        diags_extend(old(sink)@, final(sink)@, file, lex_from(src.spec_bytes(), 0).1),
{
    let lexer = Lexer::new(file, src);
    lexer.run(sink)
}

/// Whether an identifier-shaped word is a keyword; forwards to the keyword
/// table so the parser depends on the lexer module alone.
pub fn is_keyword(word: &str) -> (b: bool)
    ensures
        b == is_keyword_word(word@),
{
    super::keywords::is_keyword(word)
}

} // verus!
