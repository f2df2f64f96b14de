//! Text helpers shared by the passes: string equality, building strings from
//! characters, and decimal rendering of integers.

use vstd::prelude::*;
use vstd::string::StringSliceAdditionalSpecFns;
use vstd::utf8::*;

verus! {

broadcast use vstd::string::group_string_axioms;

/// Byte-wise equality of two string slices, which is equality of their text.
pub fn str_eq(a: &str, b: &str) -> (r: bool)
    ensures
        r == (a@ == b@),
{
    let ab = a.as_bytes();
    let bb = b.as_bytes();
    if ab.len() != bb.len() {
        proof {
            if a@ == b@ {
                assert(a.spec_bytes() == b.spec_bytes());
            }
        }
        return false;
    }
    let mut i: usize = 0;
    while i < ab.len()
        invariant
            ab@ == a.spec_bytes(),
            bb@ == b.spec_bytes(),
            ab@.len() == bb@.len(),
            i <= ab@.len(),
            forall|k: int| 0 <= k < i ==> ab@[k] == bb@[k],
        decreases ab@.len() - i,
    {
        if ab[i] != bb[i] {
            proof {
                if a@ == b@ {
                    assert(a.spec_bytes() == b.spec_bytes());
                    assert(ab@[i as int] == bb@[i as int]);
                }
            }
            return false;
        }
        i = i + 1;
    }
    proof {
        assert(ab@ =~= bb@);
        encode_utf8_decode_utf8(a@);
        encode_utf8_decode_utf8(b@);
    }
    true
}

/// Equality of an owned string with a string slice.
pub fn string_eq_str(a: &String, b: &str) -> (r: bool)
    ensures
        r == (a@ == b@),
{
    str_eq(a.as_str(), b)
}

/// Builds an owned string holding exactly the given characters.
///
/// Calls `Iterator::collect` of std into a `String`; the contract claims that
/// the collected string holds the characters in their order, as std's
/// `FromIterator<&char> for String` documents.
#[verifier::external_body]
pub fn string_from_chars(chars: &[char]) -> (s: String)
    ensures
        s@ == chars@,
{
    chars.iter().collect()
}

/// `a` followed by `b`, as a new string.
pub fn concat2(a: &str, b: &str) -> (s: String)
    ensures
        s@ == a@ + b@,
{
    let mut s = String::from_str(a);
    s.append(b);
    s
}

/// `a`, `b` and `c` one after another, as a new string.
pub fn concat3(a: &str, b: &str, c: &str) -> (s: String)
    ensures
        s@ == a@ + b@ + c@,
{
    let mut s = String::from_str(a);
    s.append(b);
    s.append(c);
    s
}

/// The character of a decimal digit.
pub open spec fn digit_char(d: nat) -> char {
    ((48 + d) as u8) as char
}

/// The decimal rendering of a natural number, most significant digit first.
pub open spec fn decimal(n: nat) -> Seq<char>
    decreases n,
{
    if n < 10 {
        seq![digit_char(n)]
    } else {
        decimal(n / 10).push(digit_char(n % 10))
    }
}

/// Decimal rendering of an unsigned integer.
pub fn u64_to_decimal(n: u64) -> (s: String)
    ensures
        s@ == decimal(n as nat),
{
    // Digits are produced least significant first, then reversed.
    let mut rev: Vec<char> = Vec::new();
    let mut m: u64 = n;
    loop
        invariant_except_break
            decimal(n as nat) == decimal(m as nat) + rev@.reverse(),
        ensures
            decimal(n as nat) == rev@.reverse(),
        decreases m,
    {
        let d: u8 = (m % 10) as u8;
        let c: char = (48u8 + d) as char;
        proof {
            assert(c == digit_char((m % 10) as nat));
        }
        let ghost old_rev = rev@;
        rev.push(c);
        proof {
            assert(rev@.reverse() =~= seq![c] + old_rev.reverse());
        }
        if m < 10 {
            proof {
                assert(decimal(m as nat) == seq![c]);
                assert(decimal(n as nat) =~= rev@.reverse());
            }
            break;
        }
        proof {
            assert(decimal(m as nat) == decimal((m / 10) as nat).push(c));
            assert(decimal(n as nat) =~= decimal((m / 10) as nat) + rev@.reverse());
        }
        m = m / 10;
    }
    let mut digits: Vec<char> = Vec::new();
    let mut i: usize = rev.len();
    while i > 0
        invariant
            i <= rev@.len(),
            digits@ =~= rev@.reverse().take(rev@.len() - i),
        decreases i,
    {
        i = i - 1;
        digits.push(rev[i]);
        proof {
            assert(digits@ =~= rev@.reverse().take(rev@.len() - i));
        }
    }
    proof {
        assert(digits@ =~= decimal(n as nat));
    }
    string_from_chars(digits.as_slice())
}

} // verus!

verus! {

/// The sub-slice of `src` between two byte offsets, when both fall on
/// character boundaries.
///
/// Calls `str::get` of std with a byte range; std documents that it returns
/// `None` unless `from <= to <= len` and both ends are character boundaries,
/// and otherwise the slice of exactly those bytes.
#[verifier::external_body]
pub fn str_range(src: &str, from: usize, to: usize) -> (r: Option<&str>)
    ensures
        r is Some <==> (from <= to <= src.spec_bytes().len() && is_char_boundary(
            src.spec_bytes(),
            from as int,
        ) && is_char_boundary(src.spec_bytes(), to as int)),
        r matches Some(s) ==> s.spec_bytes() == src.spec_bytes().subrange(from as int, to as int),
{
    src.get(from..to)
}

/// The first character of `s`, if it has one.
///
/// Calls `Chars::next` of std on `s.chars()`; std documents that the first
/// item of `chars()` is the first scalar value of the UTF-8 encoding, and
/// that an empty string has none.
#[verifier::external_body]
fn first_char(s: &str) -> (r: Option<char>)
    ensures
        s.spec_bytes().len() == 0 ==> r is None,
        s.spec_bytes().len() > 0 ==> r == Some(decode_first_scalar(s.spec_bytes()) as char),
{
    s.chars().next()
}

/// The character that starts at byte offset `pos` of `src`, if `pos` is a
/// character boundary inside the text.
pub fn char_at(src: &str, pos: usize) -> (r: Option<char>)
    ensures
        r == spec_char_at(src.spec_bytes(), pos as int),
{
    proof {
        encode_utf8_valid_utf8(src@);
        is_char_boundary_start_end_of_seq(src.spec_bytes());
    }
    let n = src.as_bytes().len();
    if pos >= n {
        assert(n == src.spec_bytes().len());
        return None;
    }
    match str_range(src, pos, n) {
        Some(rest) => {
            assert(rest.spec_bytes() == src.spec_bytes().subrange(pos as int, n as int));
            first_char(rest)
        },
        None => None,
    }
}

/// The scalar value whose encoding starts at byte `pos`, when `pos` is a
/// character boundary strictly inside `bytes`.
pub open spec fn spec_char_at(bytes: Seq<u8>, pos: int) -> Option<char> {
    if 0 <= pos < bytes.len() && is_char_boundary(bytes, pos) {
        Some(decode_first_scalar(bytes.subrange(pos, bytes.len() as int)) as char)
    } else {
        None
    }
}

/// The character with the given scalar value, if there is one.
///
/// Calls `char::from_u32` of std, which documents that it returns `None`
/// exactly for surrogates and values above `0x10FFFF`.
#[verifier::external_body]
pub fn char_from_u32(code: u32) -> (r: Option<char>)
    ensures
        r == (if is_scalar(code) {
            Some(code as char)
        } else {
            None
        }),
{
    core::char::from_u32(code)
}

/// Number of bytes in the UTF-8 encoding of a character.
pub fn len_utf8(c: char) -> (n: usize)
    ensures
        n == encode_scalar(c as u32).len(),
        1 <= n <= 4,
{
    let v: u32 = c as u32;
    proof {
        char_is_scalar(c);
    }
    if v <= 0x7F {
        1
    } else if v <= 0x7FF {
        2
    } else if v <= 0xFFFF {
        3
    } else {
        4
    }
}

/// The text of a run of ASCII bytes.
pub open spec fn ascii_text(bytes: Seq<u8>) -> Seq<char> {
    bytes.map_values(|b: u8| b as char)
}

/// A string holding the bytes `from..to` of `bytes`, each read as a character.
pub fn ascii_string(bytes: &[u8], from: usize, to: usize) -> (s: String)
    requires
        from <= to <= bytes@.len(),
    ensures
        s@ == ascii_text(bytes@.subrange(from as int, to as int)),
{
    let mut v: Vec<char> = Vec::new();
    let mut i: usize = from;
    while i < to
        invariant
            from <= i <= to <= bytes@.len(),
            v@ =~= ascii_text(bytes@.subrange(from as int, i as int)),
        decreases to - i,
    {
        v.push(bytes[i] as char);
        i = i + 1;
        proof {
            assert(v@ =~= ascii_text(bytes@.subrange(from as int, i as int)));
        }
    }
    string_from_chars(v.as_slice())
}

/// Whether `s` begins with `p`.
pub open spec fn has_prefix(s: Seq<char>, p: Seq<char>) -> bool {
    p.len() <= s.len() && s.subrange(0, p.len() as int) == p
}

/// Whether `s` begins with `p`.
pub fn starts_with(s: &str, p: &str) -> (b: bool)
    ensures
        b == has_prefix(s@, p@),
{
    let n = s.unicode_len();
    let m = p.unicode_len();
    if m > n {
        return false;
    }
    let mut i: usize = 0;
    while i < m
        invariant
            m <= n,
            n == s@.len(),
            m == p@.len(),
            i <= m,
            forall|j: int| 0 <= j < i ==> s@[j] == p@[j],
        decreases m - i,
    {
        if s.get_char(i) != p.get_char(i) {
            proof {
                assert(s@.subrange(0, m as int)[i as int] != p@[i as int]);
            }
            return false;
        }
        i = i + 1;
    }
    proof {
        assert(s@.subrange(0, m as int) =~= p@);
    }
    true
}

/// The characters of `s` from position `k` on, as a new string.
pub fn suffix_from(s: &str, k: usize) -> (r: String)
    requires
        k <= s@.len(),
    ensures
        r@ == s@.skip(k as int),
{
    let n = s.unicode_len();
    let mut cs: Vec<char> = Vec::new();
    let mut i: usize = k;
    while i < n
        invariant
            n == s@.len(),
            k <= i <= n,
            cs@ == s@.subrange(k as int, i as int),
        decreases n - i,
    {
        cs.push(s.get_char(i));
        proof {
            assert(s@.subrange(k as int, i + 1) =~= s@.subrange(k as int, i as int).push(s@[i as int]));
        }
        i = i + 1;
    }
    proof {
        assert(s@.subrange(k as int, n as int) =~= s@.skip(k as int));
    }
    string_from_chars(cs.as_slice())
}

/// `segments` joined by `sep`.
pub open spec fn joined(segments: Seq<String>, sep: Seq<char>) -> Seq<char>
    decreases segments.len(),
{
    if segments.len() == 0 {
        Seq::empty()
    } else if segments.len() == 1 {
        segments[0]@
    } else {
        joined(segments.drop_last(), sep) + sep + segments.last()@
    }
}

/// `segments` joined by `sep`, as a new string.
pub fn join(segments: &Vec<String>, sep: &str) -> (s: String)
    ensures
        s@ == joined(segments@, sep@),
{
    let mut s = String::new();
    let mut i: usize = 0;
    while i < segments.len()
        invariant
            i <= segments@.len(),
            s@ == joined(segments@.take(i as int), sep@),
        decreases segments@.len() - i,
    {
        proof {
            assert(segments@.take(i + 1).drop_last() =~= segments@.take(i as int));
        }
        if i > 0 {
            s.append(sep);
        }
        s.append(segments[i].as_str());
        i = i + 1;
    }
    proof {
        assert(segments@.take(i as int) =~= segments@);
    }
    s
}

} // verus!
