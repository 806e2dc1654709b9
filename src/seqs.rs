//! Searching sequences by a predicate.
use vstd::prelude::*;

verus! {

/// The index of the first element of `s` that satisfies `p`, or -1.
pub open spec fn first_index<T>(s: Seq<T>, p: spec_fn(T) -> bool) -> int
    decreases s.len(),
{
    if s.len() == 0 {
        -1
    } else if p(s[0]) {
        0
    } else {
        let r = first_index(s.drop_first(), p);
        if r < 0 {
            -1
        } else {
            r + 1
        }
    }
}

/// An element that satisfies `p` after a prefix that does not is the first.
pub proof fn lemma_first_index_found<T>(s: Seq<T>, p: spec_fn(T) -> bool, i: int)
    requires
        0 <= i < s.len(),
        p(s[i]),
        forall|j: int| 0 <= j < i ==> !p(#[trigger] s[j]),
    ensures
        first_index(s, p) == i,
    decreases i,
{
    if i > 0 {
        let t = s.drop_first();
        assert forall|j: int| 0 <= j < i - 1 implies !p(#[trigger] t[j]) by {
            assert(t[j] == s[j + 1]);
        }
        lemma_first_index_found(t, p, i - 1);
    }
}

/// Where no element satisfies `p`, there is no first one.
pub proof fn lemma_first_index_none<T>(s: Seq<T>, p: spec_fn(T) -> bool)
    requires
        forall|j: int| 0 <= j < s.len() ==> !p(#[trigger] s[j]),
    ensures
        first_index(s, p) == -1,
    decreases s.len(),
{
    if s.len() > 0 {
        let t = s.drop_first();
        assert forall|j: int| 0 <= j < t.len() implies !p(#[trigger] t[j]) by {
            assert(t[j] == s[j + 1]);
        }
        lemma_first_index_none(t, p);
    }
}

/// The first index is -1 or an in-range element that satisfies `p`.
pub proof fn lemma_first_index_range<T>(s: Seq<T>, p: spec_fn(T) -> bool)
    ensures
        -1 <= first_index(s, p) < s.len(),
        first_index(s, p) >= 0 ==> p(s[first_index(s, p)]),
        first_index(s, p) >= 0 ==> forall|j: int|
            0 <= j < first_index(s, p) ==> !p(#[trigger] s[j]),
        first_index(s, p) < 0 ==> forall|j: int| 0 <= j < s.len() ==> !p(#[trigger] s[j]),
    decreases s.len(),
{
    if s.len() > 0 {
        let t = s.drop_first();
        lemma_first_index_range(t, p);
        assert forall|j: int| 0 <= j < t.len() implies t[j] == s[j + 1] by {}
        if !p(s[0]) && first_index(t, p) < 0 {
            assert forall|j: int| 0 <= j < s.len() implies !p(#[trigger] s[j]) by {
                if j > 0 {
                    assert(t[j - 1] == s[j]);
                }
            }
        }
        if !p(s[0]) && first_index(t, p) >= 0 {
            assert forall|j: int| 0 <= j < first_index(s, p) implies !p(#[trigger] s[j]) by {
                if j > 0 {
                    assert(t[j - 1] == s[j]);
                }
            }
        }
    }
}

} // verus!
