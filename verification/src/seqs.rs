//! Facts about sequences that the rest of the library builds on.
use vstd::prelude::*;

verus! {

/// The index of the first element of `s` that satisfies `p`, if any.
pub open spec fn first_index<A>(s: Seq<A>, p: spec_fn(A) -> bool) -> Option<int>
    decreases s.len(),
{
    if s.len() == 0 {
        None
    } else if p(s[0]) {
        Some(0)
    } else {
        match first_index(s.drop_first(), p) {
            Some(k) => Some(k + 1),
            None => None,
        }
    }
}

/// `first_index` finds `k` when `s[k]` is the first element that satisfies `p`.
pub proof fn lemma_first_index_at<A>(s: Seq<A>, p: spec_fn(A) -> bool, k: int)
    requires
        0 <= k < s.len(),
        p(s[k]),
        forall|m: int| 0 <= m < k ==> !p(s[m]),
    ensures
        first_index(s, p) == Some(k),
    decreases k,
{
    if k > 0 {
        assert(!p(s[0]));
        lemma_first_index_at(s.drop_first(), p, k - 1);
    }
}

/// `first_index` finds nothing when no element satisfies `p`.
pub proof fn lemma_first_index_none<A>(s: Seq<A>, p: spec_fn(A) -> bool)
    requires
        forall|m: int| 0 <= m < s.len() ==> !p(s[m]),
    ensures
        first_index(s, p) is None,
    decreases s.len(),
{
    if s.len() > 0 {
        assert(!p(s[0]));
        lemma_first_index_none(s.drop_first(), p);
    }
}

/// What `first_index` finds satisfies `p`, and nothing before it does; when it
/// finds nothing, no element satisfies `p`.
pub proof fn lemma_first_index<A>(s: Seq<A>, p: spec_fn(A) -> bool)
    ensures
        match first_index(s, p) {
            Some(k) => 0 <= k < s.len() && p(s[k]) && forall|m: int| 0 <= m < k ==> !p(s[m]),
            None => forall|m: int| 0 <= m < s.len() ==> !p(s[m]),
        },
    decreases s.len(),
{
    if s.len() > 0 && !p(s[0]) {
        lemma_first_index(s.drop_first(), p);
        match first_index(s.drop_first(), p) {
            Some(k) => {
                assert forall|m: int| 0 <= m < k + 1 implies !p(s[m]) by {
                    if m > 0 {
                        assert(s[m] == s.drop_first()[m - 1]);
                    }
                }
            },
            None => {
                assert forall|m: int| 0 <= m < s.len() implies !p(s[m]) by {
                    if m > 0 {
                        assert(s[m] == s.drop_first()[m - 1]);
                    }
                }
            },
        }
    }
}

} // verus!
