//! Searching a sequence for the first item of a kind.

use vstd::prelude::*;

verus! {

/// The index of the first item of `s` that `f` holds of; the length of `s`
/// where there is none.
pub open spec fn first_index<A>(s: Seq<A>, f: spec_fn(A) -> bool) -> int
    decreases s.len(),
{
    if s.len() == 0 || f(s[0]) {
        0
    } else {
        1 + first_index(s.skip(1), f)
    }
}

/// [`first_index`] lies within `s` or at its end, `f` holds at it and of no
/// item before it.
pub proof fn lemma_first_index<A>(s: Seq<A>, f: spec_fn(A) -> bool)
    ensures
        0 <= first_index(s, f) <= s.len(),
        first_index(s, f) < s.len() ==> f(s[first_index(s, f)]),
        forall|i: int| 0 <= i < first_index(s, f) ==> !f(#[trigger] s[i]),
    decreases s.len(),
{
    if s.len() == 0 || f(s[0]) {
    } else {
        let t = s.skip(1);
        lemma_first_index(t, f);
        assert forall|i: int| 0 <= i < first_index(s, f) implies !f(#[trigger] s[i]) by {
            if i > 0 {
                assert(s[i] == t[i - 1]);
            }
        }
    }
}

/// An index at which `f` holds, or the end of `s`, with `f` holding of no
/// item before it, is [`first_index`].
pub proof fn lemma_first_index_is<A>(s: Seq<A>, f: spec_fn(A) -> bool, k: int)
    requires
        0 <= k <= s.len(),
        forall|i: int| 0 <= i < k ==> !f(#[trigger] s[i]),
        k < s.len() ==> f(s[k]),
    ensures
        first_index(s, f) == k,
    decreases s.len(),
{
    if s.len() == 0 || f(s[0]) {
    } else {
        let t = s.skip(1);
        assert forall|i: int| 0 <= i < k - 1 implies !f(#[trigger] t[i]) by {
            assert(t[i] == s[i + 1]);
        }
        lemma_first_index_is(t, f, k - 1);
    }
}

} // verus!
