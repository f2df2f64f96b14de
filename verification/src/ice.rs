//! Reporting internal compiler errors (ICE) through a buffer of fixed
//! capacity: the report is cut short rather than grown, since running out
//! of memory is one of the errors it has to report.

use crate::text::{decimal, u64_to_decimal};
use vstd::prelude::*;
use vstd::string::StringSliceAdditionalSpecFns;
use vstd::utf8::*;

verus! {

broadcast use vstd::string::group_string_axioms;

/// The compiler's version, printed in every report.
pub const VERSION: &'static str = "0.1.0";

/// Where to report an internal compiler error.
pub const ISSUE_HINT: &'static str = "请在 https://github.com/kore-lang/kore/issues 提交 issue";

/// The largest character boundary of `s` that is at most `room`.
pub open spec fn cut_point(s: Seq<u8>, room: int) -> int
    decreases room,
{
    if room <= 0 {
        0
    } else if is_char_boundary(s, room) {
        room
    } else {
        cut_point(s, room - 1)
    }
}

/// What a buffer of capacity `n` holding `buf` holds after `s` is pushed:
/// all of `s` if it fits, else its longest prefix that fits and ends on a
/// character boundary.
pub open spec fn appended(buf: Seq<u8>, s: Seq<u8>, n: int) -> Seq<u8> {
    let room = n - buf.len();
    if s.len() > room {
        buf + s.subrange(0, cut_point(s, room))
    } else {
        buf + s
    }
}

proof fn lemma_cut_point_bounds(s: Seq<u8>, room: int)
    requires
        0 <= room <= s.len(),
        valid_utf8(s),
    ensures
        0 <= cut_point(s, room) <= room,
        is_char_boundary(s, cut_point(s, room)),
    decreases room,
{
    if room > 0 && !is_char_boundary(s, room) {
        lemma_cut_point_bounds(s, room - 1);
    }
}

/// UTF-8 encodes a concatenation piece by piece.
pub proof fn lemma_encode_concat(a: Seq<char>, b: Seq<char>)
    ensures
        encode_utf8(a + b) == encode_utf8(a) + encode_utf8(b),
    decreases a.len(),
{
    if a.len() == 0 {
        assert(a + b =~= b);
        assert(encode_utf8(a) + encode_utf8(b) =~= encode_utf8(b));
    } else {
        lemma_encode_concat(a.drop_first(), b);
        assert((a + b).drop_first() =~= a.drop_first() + b);
        assert((a + b)[0] == a[0]);
        assert(encode_utf8(a + b) =~= encode_scalar(a[0] as u32) + encode_utf8(a.drop_first() + b));
    }
}

/// A writer of fixed capacity: what does not fit is cut off, not grown.
pub struct FixedBuf<const N: usize> {
    text: String,
    /// Bytes written.
    len: usize,
    /// Whether anything was cut off.
    truncated: bool,
}

impl<const N: usize> FixedBuf<N> {
    #[verifier::type_invariant]
    spec fn fits(&self) -> bool {
        &&& self.len == encode_utf8(self.text@).len()
        &&& self.len <= N
    }

    /// The bytes written.
    pub closed spec fn bytes(&self) -> Seq<u8> {
        encode_utf8(self.text@)
    }

    /// Whether anything was cut off so far.
    pub closed spec fn was_truncated(&self) -> bool {
        self.truncated
    }

    pub fn new() -> (b: FixedBuf<N>)
        ensures
            b.bytes() == Seq::<u8>::empty(),
            !b.was_truncated(),
    {
        FixedBuf { text: String::new(), len: 0, truncated: false }
    }

    /// Appends `s`, or its longest prefix that fits and ends on a character
    /// boundary; the buffer never grows past `N` bytes.
    pub fn push_str(&mut self, s: &str)
        ensures
            final(self).bytes() == appended(old(self).bytes(), s.spec_bytes(), N as int),
            final(self).was_truncated() == (old(self).was_truncated() || s.spec_bytes().len() > N
                - old(self).bytes().len()),
            final(self).bytes().len() <= N,
    {
        proof {
            use_type_invariant(&*self);
            encode_utf8_valid_utf8(s@);
        }
        let room = N - self.len;
        let n = s.as_bytes().len();
        if n > room {
            // Cut on a character boundary: never half a UTF-8 sequence.
            let mut cut = room;
            while cut > 0 && !s.is_char_boundary(cut)
                invariant
                    cut <= room < n,
                    n == s.spec_bytes().len(),
                    valid_utf8(s.spec_bytes()),
                    cut_point(s.spec_bytes(), room as int) == cut_point(s.spec_bytes(), cut as int),
                decreases cut,
            {
                cut = cut - 1;
            }
            proof {
                lemma_cut_point_bounds(s.spec_bytes(), room as int);
                is_char_boundary_start_end_of_seq(s.spec_bytes());
            }
            let (head, _) = s.split_at(cut);
            let mut t = self.text.clone();
            t.append(head);
            proof {
                lemma_encode_concat(self.text@, head@);
                assert(head.spec_bytes() == encode_utf8(head@));
            }
            *self = FixedBuf { text: t, len: self.len + cut, truncated: true };
        } else {
            let mut t = self.text.clone();
            t.append(s);
            proof {
                lemma_encode_concat(self.text@, s@);
            }
            *self = FixedBuf { text: t, len: self.len + n, truncated: self.truncated };
        }
    }

    /// Appends the decimal digits of `n`.
    pub fn push_u32(&mut self, n: u32)
        ensures
            final(self).bytes() == appended(old(self).bytes(), encode_utf8(decimal(n as nat)), N as int),
            final(self).bytes().len() <= N,
    {
        let digits = u64_to_decimal(n as u64);
        self.push_str(digits.as_str());
    }

    /// The text written.
    pub fn as_str(&self) -> (s: &str)
        ensures
            s.spec_bytes() == self.bytes(),
    {
        self.text.as_str()
    }

    pub fn truncated(&self) -> (b: bool)
        ensures
            b == self.was_truncated(),
    {
        self.truncated
    }

    /// The number of bytes written.
    pub fn len(&self) -> (n: usize)
        ensures
            n == self.bytes().len(),
            n <= N,
    {
        proof {
            use_type_invariant(self);
        }
        self.len
    }

    pub fn is_empty(&self) -> (b: bool)
        ensures
            b == (self.bytes().len() == 0),
    {
        proof {
            use_type_invariant(self);
        }
        self.len == 0
    }
}

impl<const N: usize> Default for FixedBuf<N> {
    fn default() -> (b: FixedBuf<N>)
        ensures
            b.bytes() == Seq::<u8>::empty(),
            !b.was_truncated(),
    {
        FixedBuf::new()
    }
}

/// Pushing keeps what was written, adds a prefix of what was pushed, and
/// never goes past the capacity; what fits is added whole.
pub proof fn law_push_bounded(buf: Seq<u8>, s: Seq<u8>, n: int)
    requires
        buf.len() <= n,
        valid_utf8(s),
    ensures
        appended(buf, s, n).len() <= n,
        appended(buf, s, n).subrange(0, buf.len() as int) == buf,
        s.subrange(0, appended(buf, s, n).len() - buf.len()) == appended(buf, s, n).subrange(
            buf.len() as int,
            appended(buf, s, n).len() as int,
        ),
        buf.len() + s.len() <= n ==> appended(buf, s, n) == buf + s,
{
    let room = n - buf.len();
    if s.len() > room {
        lemma_cut_point_bounds(s, room);
        let c = cut_point(s, room);
        assert((buf + s.subrange(0, c)).subrange(0, buf.len() as int) =~= buf);
        assert(s.subrange(0, c) =~= (buf + s.subrange(0, c)).subrange(buf.len() as int, buf.len() + c));
    } else {
        assert((buf + s).subrange(0, buf.len() as int) =~= buf);
        assert(s.subrange(0, s.len() as int) =~= s);
        assert((buf + s).subrange(buf.len() as int, (buf.len() + s.len()) as int) =~= s);
    }
}

/// The capacity of the report buffer: enough for location, version and
/// hint, cut short otherwise.
pub const ICE_BUF: usize = 1024;

/// The bytes of a report, piece by piece as `format_ice` pushes them.
pub open spec fn ice_report(location: Seq<u8>, msg: Seq<u8>) -> Seq<u8> {
    let n = ICE_BUF as int;
    let b1 = appended(Seq::empty(), encode_utf8("error: internal compiler error: "@), n);
    let b2 = appended(b1, msg, n);
    let b3 = appended(b2, encode_utf8("\n  位置: "@), n);
    let b4 = appended(b3, location, n);
    let b5 = appended(b4, encode_utf8("\n  版本: kore-stage0 "@), n);
    let b6 = appended(b5, encode_utf8(VERSION@), n);
    let b7 = appended(b6, encode_utf8("\n  "@), n);
    let b8 = appended(b7, encode_utf8(ISSUE_HINT@), n);
    appended(b8, encode_utf8("\n"@), n)
}

/// The text of an internal compiler error report. Writing it out is left
/// to the caller.
pub fn format_ice(location: &str, msg: &str) -> (b: FixedBuf<1024>)
    ensures
        b.bytes() == ice_report(location.spec_bytes(), msg.spec_bytes()),
{
    let mut b = FixedBuf::<1024>::new();
    b.push_str("error: internal compiler error: ");
    b.push_str(msg);
    b.push_str("\n  位置: ");
    b.push_str(location);
    b.push_str("\n  版本: kore-stage0 ");
    b.push_str(VERSION);
    b.push_str("\n  ");
    b.push_str(ISSUE_HINT);
    b.push_str("\n");
    b
}

} // verus!
