//! Finding the first index at which something holds.

use vstd::prelude::*;

verus! {

/// The least index below `n` at which `p` holds, if there is one.
pub open spec fn first_index(n: int, p: spec_fn(int) -> bool) -> Option<int>
    decreases n,
{
    if n <= 0 {
        None
    } else {
        match first_index(n - 1, p) {
            Some(i) => Some(i),
            None => if p(n - 1) {
                Some(n - 1)
            } else {
                None
            },
        }
    }
}

/// `first_index` finds an index at which `p` holds and before which it does
/// not, and finds nothing only where `p` holds nowhere below `n`.
pub proof fn lemma_first_index(n: int, p: spec_fn(int) -> bool)
    ensures
        match first_index(n, p) {
            Some(i) => 0 <= i < n && p(i) && forall|k: int| 0 <= k < i ==> !#[trigger] p(k),
            None => forall|k: int| 0 <= k < n ==> !#[trigger] p(k),
        },
    decreases n,
{
    if n > 0 {
        lemma_first_index(n - 1, p);
    }
}

} // verus!
