//! Facts about putting the things of a sequence into another order.

use vstd::prelude::*;

verus! {

/// Exchanging two places of a sequence leaves the same things in it.
pub proof fn lemma_exchange_keeps_all<T>(s: Seq<T>, a: int, b: int)
    requires
        0 <= a < s.len(),
        0 <= b < s.len(),
    ensures
        s.update(a, s[b]).update(b, s[a]).to_multiset() == s.to_multiset(),
{
    broadcast use vstd::seq_lib::group_to_multiset_ensures;
    broadcast use vstd::multiset::group_multiset_axioms;

    if a != b {
        let s1 = s.update(a, s[b]);
        let s2 = s1.update(b, s[a]);
        assert(s1 == s.remove(a).insert(a, s[b]));
        assert(s2 == s1.remove(b).insert(b, s[a]));
        assert(s.to_multiset().count(s[a]) > 0) by {
            assert(s.contains(s[a]));
        }
        assert(s2.to_multiset() =~= s.to_multiset());
    } else {
        assert(s.update(a, s[b]).update(b, s[a]) == s);
    }
}

/// Two sequences with the same things in them have the same length, and
/// each thing of the one stands somewhere in the other.
pub proof fn lemma_same_things<T>(a: Seq<T>, b: Seq<T>)
    requires
        a.to_multiset() == b.to_multiset(),
    ensures
        a.len() == b.len(),
        forall|i: int| 0 <= i < a.len() ==> b.contains(#[trigger] a[i]),
{
    broadcast use vstd::seq_lib::group_to_multiset_ensures;

    assert(a.to_multiset().len() == a.len());
    assert(b.to_multiset().len() == b.len());
    assert forall|i: int| 0 <= i < a.len() implies b.contains(#[trigger] a[i]) by {
        assert(a.contains(a[i]));
        assert(a.to_multiset().count(a[i]) > 0);
    }
}

} // verus!
