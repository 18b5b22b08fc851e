//! Searching a sequence for the first occurrence of a value.

use vstd::prelude::*;

verus! {

/// The index of the first `x` in `s` at or after `from`, or `s.len()` when
/// there is none.
pub open spec fn find<T>(s: Seq<T>, x: T, from: int) -> int
    decreases s.len() - from,
{
    if from < 0 || from >= s.len() {
        s.len() as int
    } else if s[from] == x {
        from
    } else {
        find(s, x, from + 1)
    }
}

/// `find` returns a match, and nothing between `from` and that match equals `x`.
pub proof fn lemma_find<T>(s: Seq<T>, x: T, from: int)
    requires
        0 <= from <= s.len(),
    ensures
        from <= find(s, x, from) <= s.len(),
        find(s, x, from) < s.len() ==> s[find(s, x, from)] == x,
        forall|k: int| from <= k < find(s, x, from) ==> s[k] != x,
    decreases s.len() - from,
{
    if from < s.len() && s[from] != x {
        lemma_find(s, x, from + 1);
    }
}

/// An index with no `x` before it, and `x` or the end at it, is what `find` returns.
pub proof fn lemma_find_is<T>(s: Seq<T>, x: T, from: int, at: int)
    requires
        0 <= from <= at <= s.len(),
        forall|k: int| from <= k < at ==> s[k] != x,
        at < s.len() ==> s[at] == x,
    ensures
        find(s, x, from) == at,
    decreases at - from,
{
    if from < at {
        lemma_find_is(s, x, from + 1, at);
    }
}

} // verus!
