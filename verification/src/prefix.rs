//! What a sequence contains as it is gone through from the front.

use vstd::prelude::*;

verus! {

/// A sequence with one more item at its end contains that item, and what it had.
pub proof fn lemma_push_contains<A>(s: Seq<A>, x: A)
    ensures
        forall|k: A| #[trigger] s.push(x).contains(k) == (s.contains(k) || k == x),
{
    let longer = s.push(x);
    assert forall|k: A| #[trigger] longer.contains(k) == (s.contains(k) || k == x) by {
        if s.contains(k) {
            assert(longer[s.index_of(k)] == k);
        }
        assert(longer[s.len() as int] == x);
        if longer.contains(k) && k != x {
            assert(s[longer.index_of(k)] == k);
        }
    }
}

/// One step further, a sequence has been gone through to the next item as well.
pub proof fn lemma_take_next<A>(s: Seq<A>, i: int)
    requires
        0 <= i < s.len(),
    ensures
        forall|k: A| #[trigger] s.take(i + 1).contains(k) == (s.take(i).contains(k) || k == s[i]),
{
    assert(s.take(i + 1) =~= s.take(i).push(s[i]));
    lemma_push_contains(s.take(i), s[i]);
}

/// Where nothing occurs twice, the next item has not been met yet.
pub proof fn lemma_next_is_new<A>(s: Seq<A>, i: int)
    requires
        0 <= i < s.len(),
        s.no_duplicates(),
    ensures
        !s.take(i).contains(s[i]),
{
    if s.take(i).contains(s[i]) {
        let j = s.take(i).index_of(s[i]);
        assert(s[j] == s[i]);
    }
}

} // verus!
