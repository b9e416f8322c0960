//! Sets of unit indices.

use std::collections::BTreeSet;
use vstd::prelude::*;

verus! {

/// The indices of a set, each once, from the smallest to the largest.
pub open spec fn ascending_order(set: Set<usize>, listed: Seq<usize>) -> bool {
    &&& listed.to_set() == set
    &&& forall|i: int, j: int| 0 <= i < j < listed.len() ==> listed[i] < listed[j]
}

/// The indices of a set in ascending order.
pub open spec fn in_order(set: Set<usize>) -> Seq<usize> {
    choose|listed: Seq<usize>| ascending_order(set, listed)
}

/// There is one ascending order.
pub(crate) proof fn lemma_order_is_unique(set: Set<usize>, a: Seq<usize>, b: Seq<usize>)
    requires
        ascending_order(set, a),
        ascending_order(set, b),
    ensures
        a == b,
    decreases a.len(),
{
    if a.len() == 0 {
        if b.len() > 0 {
            assert(b.to_set().contains(b[0]));
        }
        assert(a =~= b);
    } else {
        assert(a.to_set().contains(a.last()));
        assert(b.contains(a.last()));
        let j = choose|j: int| 0 <= j < b.len() && b[j] == a.last();
        assert(b.to_set().contains(b.last()));
        assert(a.contains(b.last()));
        let i = choose|i: int| 0 <= i < a.len() && a[i] == b.last();
        assert(a.last() == b.last());
        let fewer = set.remove(a.last());
        assert forall|s: Seq<usize>|
            s.len() > 0 && s.last() == a.last() && ascending_order(set, s) implies ascending_order(
            fewer,
            #[trigger] s.drop_last(),
        ) by {
            let t = s.drop_last();
            assert forall|v: usize| #[trigger] t.to_set().contains(v) == fewer.contains(v) by {
                if fewer.contains(v) {
                    assert(s.contains(v));
                    let k = choose|k: int| 0 <= k < s.len() && s[k] == v;
                    assert(t[k] == v);
                }
                if t.contains(v) {
                    let k = choose|k: int| 0 <= k < t.len() && t[k] == v;
                    assert(s[k] == v);
                    assert(s.to_set().contains(v));
                }
            }
            assert(t.to_set() =~= fewer);
        }
        lemma_order_is_unique(fewer, a.drop_last(), b.drop_last());
        assert(a =~= a.drop_last().push(a.last()));
        assert(b =~= b.drop_last().push(b.last()));
    }
}

/// Adds one index.
pub fn insert(set: &mut BTreeSet<usize>, index: usize)
    ensures
        final(set)@ == old(set)@.insert(index),
{
    broadcast use vstd::laws_cmp::group_laws_cmp;

    set.insert(index);
}

/// Lists the indices in ascending order.
pub fn ascending(set: &BTreeSet<usize>) -> (listed: Vec<usize>)
    ensures
        ascending_order(set@, listed@),
        listed@ == in_order(set@),
        listed@.to_set() == set@,
        forall|i: int, j: int| 0 <= i < j < listed.len() ==> listed@[i] < listed@[j],
{
    broadcast use vstd::laws_cmp::group_laws_cmp;
    broadcast use vstd::std_specs::btree::group_btree_axioms;

    let mut listed: Vec<usize> = Vec::new();
    for index in it: set.iter()
        invariant
            listed@ == it.seq().unref().take(it.index()),
    {
        listed.push(*index);
    }
    proof {
        let s = vstd::std_specs::iter::IteratorSpec::remaining(&set.iter());
        assert(listed@ == s.unref());
        assert(vstd::laws_cmp::obeys_cmp::<&usize>());
        vstd::std_specs::btree::axiom_increasing_seq_meaning::<&usize>(s);
        assert forall|i: int, j: int| 0 <= i < j < listed.len() implies listed[i] < listed[j] by {
            assert(vstd::std_specs::cmp::OrdSpec::cmp_spec(&s[i], &s[j]) is Less);
        }
        assert(ascending_order(set@, listed@));
        lemma_order_is_unique(set@, listed@, in_order(set@));
    }
    listed
}

} // verus!
