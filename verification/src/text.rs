//! The number by which a character is ordered.

use vstd::prelude::*;

verus! {

/// The number that stands for a character when texts are ordered: its code
/// point, and for an upper-case ASCII letter in a comparison that disregards
/// case, the code point of the lower-case letter.
pub open spec fn char_key(c: char, case_sensitive: bool) -> int {
    let code = c as int;
    if !case_sensitive && 65 <= code <= 90 {
        code + 32
    } else {
        code
    }
}

/// Computes [`char_key`].
pub fn fold_char(c: char, case_sensitive: bool) -> (key: u32)
    ensures
        key == char_key(c, case_sensitive),
{
    let code: u32 = c as u32;
    if !case_sensitive && 65 <= code && code <= 90 {
        code + 32
    } else {
        code
    }
}

} // verus!
