//! Helpers for searching sequences by a predicate, used to model
//! association-list lookups (tag tables, version tables, memo tables).

use vstd::prelude::*;

verus! {

/// Index of the first element at or after `i` satisfying `p`, if any.
pub open spec fn find_from<T>(s: Seq<T>, i: int, p: spec_fn(T) -> bool) -> Option<int>
    decreases s.len() - i,
{
    if i < 0 || i >= s.len() {
        None
    } else if p(s[i]) {
        Some(i)
    } else {
        find_from(s, i + 1, p)
    }
}

/// `find_from` returns a satisfying index no earlier than where the
/// search started, and nothing in between satisfies `p`.
pub proof fn lemma_find_from_properties<T>(s: Seq<T>, i: int, p: spec_fn(T) -> bool)
    requires
        0 <= i <= s.len(),
    ensures
        match find_from(s, i, p) {
            Some(j) => i <= j < s.len() && p(s[j]) && forall|k: int|
                i <= k < j ==> !p(s[k]),
            None => forall|k: int| i <= k < s.len() ==> !p(s[k]),
        },
    decreases s.len() - i,
{
    if i < s.len() && !p(s[i]) {
        lemma_find_from_properties(s, i + 1, p);
    }
}

} // verus!
