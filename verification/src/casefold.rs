//! A per-character ASCII case fold, used for case-insensitive matching.
//!
//! Each ASCII uppercase letter is mapped to its lowercase counterpart and
//! every other character is left unchanged. The fold is deliberately
//! ASCII-only: it is exact, idempotent, and independent of any locale.

use vstd::prelude::*;

verus! {

/// The fold of a single character: ASCII uppercase letters move to
/// lowercase, everything else stays as it is.
pub open spec fn lower_char(c: char) -> char {
    if 'A' <= c && c <= 'Z' {
        (((c as u32) + 32) as u8) as char
    } else {
        c
    }
}

/// The fold of a whole sequence of characters, applied pointwise.
pub open spec fn fold(s: Seq<char>) -> Seq<char> {
    s.map_values(|c: char| lower_char(c))
}

/// Executable counterpart of [`lower_char`].
pub fn lower_char_exec(c: char) -> (r: char)
    ensures
        r == lower_char(c),
{
    if 'A' <= c && c <= 'Z' {
        (((c as u32) + 32) as u8) as char
    } else {
        c
    }
}

/// Folding a character twice is the same as folding it once.
pub proof fn lemma_lower_char_idempotent(c: char)
    ensures
        lower_char(lower_char(c)) == lower_char(c),
{
}

/// Folding a sequence twice is the same as folding it once.
pub proof fn lemma_fold_idempotent(s: Seq<char>)
    ensures
        fold(fold(s)) == fold(s),
{
    assert forall|i: int| 0 <= i < s.len() implies fold(fold(s))[i] == fold(s)[i] by {
        lemma_lower_char_idempotent(s[i]);
    }
    assert(fold(fold(s)) =~= fold(s));
}

} // verus!
