//! Positions in sequences: the first or last element with a property, and the leading run of
//! elements that have it.
use vstd::prelude::*;

verus! {

/// Whether `k` is the first position of `s` whose element satisfies `p`.
pub open spec fn is_first<A>(s: Seq<A>, p: spec_fn(A) -> bool, k: int) -> bool {
    0 <= k < s.len() && p(s[k]) && forall|l: int| 0 <= l < k ==> !p(#[trigger] s[l])
}

/// There is at most one first position.
pub proof fn lemma_first_unique<A>(s: Seq<A>, p: spec_fn(A) -> bool, k1: int, k2: int)
    requires
        is_first(s, p, k1),
        is_first(s, p, k2),
    ensures
        k1 == k2,
{
    if k1 < k2 {
        assert(!p(s[k1]));
    } else if k2 < k1 {
        assert(!p(s[k2]));
    }
}

/// Whether `k` is the last position of `s` whose element satisfies `p`.
pub open spec fn is_last<A>(s: Seq<A>, p: spec_fn(A) -> bool, k: int) -> bool {
    0 <= k < s.len() && p(s[k]) && forall|l: int| k < l < s.len() ==> !p(#[trigger] s[l])
}

/// There is at most one last position.
pub proof fn lemma_last_unique<A>(s: Seq<A>, p: spec_fn(A) -> bool, k1: int, k2: int)
    requires
        is_last(s, p, k1),
        is_last(s, p, k2),
    ensures
        k1 == k2,
{
    if k1 < k2 {
        assert(!p(s[k2]));
    } else if k2 < k1 {
        assert(!p(s[k1]));
    }
}

/// The number of leading elements of `s` that satisfy `p`.
pub open spec fn lead_count<A>(s: Seq<A>, p: spec_fn(A) -> bool) -> int
    decreases s.len(),
{
    if s.len() == 0 {
        0
    } else if p(s[0]) {
        1 + lead_count(s.drop_first(), p)
    } else {
        0
    }
}

/// A run of `n` leading elements that satisfy `p`, ended by the end of `s` or by an element that
/// does not, is the leading run.
pub proof fn lemma_lead_count<A>(s: Seq<A>, p: spec_fn(A) -> bool, n: int)
    requires
        0 <= n <= s.len(),
        forall|j: int| 0 <= j < n ==> p(#[trigger] s[j]),
        n == s.len() || !p(s[n]),
    ensures
        lead_count(s, p) == n,
    decreases n,
{
    if n > 0 {
        let d = s.drop_first();
        assert forall|j: int| 0 <= j < n - 1 implies p(#[trigger] d[j]) by {
            assert(d[j] == s[j + 1]);
        }
        if n < s.len() {
            assert(d[n - 1] == s[n]);
        }
        lemma_lead_count(d, p, n - 1);
    }
}

} // verus!
