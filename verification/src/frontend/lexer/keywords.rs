//! The keyword table: the 23 keywords of the language overview.
//!
//! `true` `false` `nil` `self` `Self` are literals and built-in names, not
//! keywords, so they lex as identifiers.

use crate::text::str_eq;
use vstd::prelude::*;

verus! {

/// All keywords, in the grouping order of the language overview.
pub const KEYWORDS: [&'static str; 23] = [
    "pub", "impl", "trait", "use",
    "own", "vol", "dyn", "as", "is",
    "ret", "jmp", "stop", "skip", "defer",
    "and", "or", "not",
    "xor", "inv", "rol", "ror",
    "asm", "unsafe",
];

/// The keyword at index `i` of the table.
pub open spec fn keyword_at(i: int) -> Seq<char> {
    KEYWORDS@[i]@
}

/// Whether a word is one of the keywords.
pub open spec fn is_keyword_word(w: Seq<char>) -> bool {
    exists|i: int| 0 <= i < 23 && #[trigger] keyword_at(i) == w
}

/// Index of `word` in the keyword table, if it is a keyword.
pub fn keyword_index(word: &str) -> (r: Option<usize>)
    ensures
        r matches Some(i) ==> i < 23 && keyword_at(i as int) == word@,
        r is None ==> !is_keyword_word(word@),
{
    let table: [&'static str; 23] = KEYWORDS;
    let mut i: usize = 0;
    while i < 23
        invariant
            i <= 23,
            table@ == KEYWORDS@,
            forall|k: int| 0 <= k < i ==> keyword_at(k) != word@,
        decreases 23 - i,
    {
        if str_eq(table[i], word) {
            return Some(i);
        }
        i = i + 1;
    }
    None
}

/// Whether an identifier-shaped word is a keyword.
///
/// A linear scan rather than a hash table: the table is short, and the next
/// stage rewrites this code in a language without hash tables.
pub fn is_keyword(word: &str) -> (b: bool)
    ensures
        b == is_keyword_word(word@),
{
    keyword_index(word).is_some()
}

} // verus!
