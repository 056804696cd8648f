//! Bookkeeping of live blocks: total size of a sequence of ranges.

use vstd::prelude::*;

verus! {

/// Total number of bytes covered by the ranges `(start, end)` of `s`.
pub open spec fn live_bytes(s: Seq<(u64, u64)>) -> int
    decreases s.len(),
{
    if s.len() == 0 {
        0
    } else {
        live_bytes(s.drop_last()) + (s.last().1 - s.last().0)
    }
}

/// Removing one range subtracts its size.
pub proof fn lemma_live_bytes_remove(s: Seq<(u64, u64)>, k: int)
    requires
        0 <= k < s.len(),
    ensures
        live_bytes(s.remove(k)) == live_bytes(s) - (s[k].1 - s[k].0),
    decreases s.len(),
{
    if k == s.len() - 1 {
        assert(s.remove(k) =~= s.drop_last());
    } else {
        lemma_live_bytes_remove(s.drop_last(), k);
        assert(s.remove(k).drop_last() =~= s.drop_last().remove(k));
        assert(s.remove(k).last() == s.last());
    }
}

/// Appending one range adds its size.
pub proof fn lemma_live_bytes_push(s: Seq<(u64, u64)>, x: (u64, u64))
    ensures
        live_bytes(s.push(x)) == live_bytes(s) + (x.1 - x.0),
{
    assert(s.push(x).drop_last() =~= s);
}

/// Some range of `s` covers at least one byte.
pub open spec fn has_nonempty(s: Seq<(u64, u64)>) -> bool {
    exists|k: int| 0 <= k < s.len() && (#[trigger] s[k]).0 < s[k].1
}

/// Ranges whose ends do not precede their starts cover a number of bytes that is positive
/// exactly when one of them is not empty.
pub proof fn lemma_live_bytes_positive(s: Seq<(u64, u64)>)
    requires
        forall|i: int| 0 <= i < s.len() ==> (#[trigger] s[i]).0 <= s[i].1,
    ensures
        live_bytes(s) >= 0,
        (live_bytes(s) > 0) == has_nonempty(s),
    decreases s.len(),
{
    if s.len() > 0 {
        let t = s.drop_last();
        assert forall|i: int| 0 <= i < t.len() implies (#[trigger] t[i]).0 <= t[i].1 by {
            assert(t[i] == s[i]);
        }
        lemma_live_bytes_positive(t);
        if has_nonempty(t) {
            let k = choose|k: int| 0 <= k < t.len() && (#[trigger] t[k]).0 < t[k].1;
            assert(s[k] == t[k]);
        }
        if has_nonempty(s) {
            let k = choose|k: int| 0 <= k < s.len() && (#[trigger] s[k]).0 < s[k].1;
            if k < s.len() - 1 {
                assert(t[k] == s[k]);
            }
        }
        assert(s.last() == s[s.len() - 1]);
    }
}

} // verus!
