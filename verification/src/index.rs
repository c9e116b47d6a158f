//! Machine indices as positions in a sequence.

use vstd::prelude::*;

verus! {

/// A machine index as a mathematical integer.
pub open spec fn position(i: usize) -> int {
    i as int
}

/// The length of a sequence as a mathematical integer.
pub open spec fn length<T>(s: Seq<T>) -> int {
    s.len() as int
}

/// The indices `0 .. n` in their own order.
pub open spec fn identity(n: int) -> Seq<int> {
    Seq::new(n as nat, |i: int| i)
}

/// The part of a sequence from a machine index on.
pub open spec fn suffix<T>(s: Seq<T>, from: usize) -> Seq<T> {
    s.skip(from as int)
}

/// The suffix from the start is the whole sequence.
pub proof fn lemma_suffix_start<T>(s: Seq<T>)
    ensures
        suffix(s, 0) == s,
{
    assert(suffix(s, 0) =~= s);
}

/// A suffix that is not empty starts with the element at its index, and
/// goes on with the next suffix.
pub proof fn lemma_suffix_step<T>(s: Seq<T>, from: usize)
    requires
        from < s.len(),
    ensures
        suffix(s, from).len() > 0,
        suffix(s, from)[0] == s[from as int],
        suffix(s, from).drop_first() == s.skip(from + 1),
{
    assert(suffix(s, from).drop_first() =~= s.skip(from + 1));
}

/// The suffix from the end is empty.
pub proof fn lemma_suffix_end<T>(s: Seq<T>, from: usize)
    requires
        from == s.len(),
    ensures
        suffix(s, from).len() == 0,
{
}

} // verus!
