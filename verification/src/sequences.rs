//! Facts about sequences that several modules lean on.

use vstd::prelude::*;

verus! {

/// What one more element adds to a prefix: the prefix of length `k + 1`
/// holds what the prefix of length `k` holds, and the element at `k`.
pub proof fn lemma_take_contains<T>(s: Seq<T>, k: int)
    requires
        0 <= k < s.len(),
    ensures
        forall|x: T| #[trigger] s.take(k + 1).contains(x) <==> (s.take(k).contains(x) || x == s[k]),
{
    let longer = s.take(k + 1);
    let shorter = s.take(k);
    assert forall|x: T| #[trigger] longer.contains(x) <==> (shorter.contains(x) || x == s[k]) by {
        if longer.contains(x) {
            let m = choose|m: int| 0 <= m < longer.len() && longer[m] == x;
            if m < k {
                assert(shorter[m] == x);
            }
        }
        if shorter.contains(x) {
            let m = choose|m: int| 0 <= m < shorter.len() && shorter[m] == x;
            assert(longer[m] == x);
        }
        if x == s[k] {
            assert(longer[k] == x);
        }
    }
}

} // verus!
