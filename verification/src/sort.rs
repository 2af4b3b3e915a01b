//! The sorter: imposes the deterministic total order on a scanned entry list.

use crate::explorer::{EntryModel, ExplorerEntry};
use crate::order::{entry_le, lemma_entry_le_total, lemma_entry_le_trans, name_of, rank_of};
use vstd::prelude::*;
use vstd::seq_lib::group_to_multiset_ensures;

verus! {

/// The ghost image of a sequence of entries.
pub open spec fn models(s: Seq<ExplorerEntry>) -> Seq<EntryModel> {
    s.map_values(|e: ExplorerEntry| e@)
}

/// A sequence of entries stands in the listing order.
pub open spec fn sorted(s: Seq<EntryModel>) -> bool {
    forall|i: int, j: int| 0 <= i < j < s.len() ==> entry_le(#[trigger] s[i], #[trigger] s[j])
}

/// Sort invariant, spelled out: in a sorted sequence every directory precedes
/// every file, and within each variant the names are non-decreasing.
pub proof fn lemma_sorted_shape(s: Seq<EntryModel>)
    requires
        sorted(s),
    ensures
        forall|i: int, j: int|
            0 <= i < j < s.len() && #[trigger] s[i] is File ==> !(#[trigger] s[j] is Directory),
        forall|i: int, j: int|
            0 <= i < j < s.len() && rank_of(#[trigger] s[i]) == rank_of(#[trigger] s[j])
                ==> crate::order::chars_le(name_of(s[i]), name_of(s[j])),
{
}

/// Sort the entries in place into the listing order. The result is a
/// permutation of the input; which of two entries with equal rank and name
/// comes first is not pinned down.
pub fn sort_entries(v: &mut Vec<ExplorerEntry>)
    ensures
        sorted(models(final(v)@)),
        final(v)@.to_multiset() == old(v)@.to_multiset(),
        models(final(v)@).to_multiset() == models(old(v)@).to_multiset(),
{
    broadcast use group_to_multiset_ensures;
    broadcast use vstd::multiset::group_multiset_axioms;

    let n = v.len();
    let mut i: usize = 0;
    while i < n
        invariant
            n == v.len(),
            0 <= i <= n,
            sorted(models(v@.take(i as int))),
            v@.to_multiset() == old(v)@.to_multiset(),
            models(v@).to_multiset() == models(old(v)@).to_multiset(),
        decreases n - i,
    {
        // Find the insertion position of v[i] within the sorted prefix.
        let mut p: usize = i;
        while p > 0 && !(v[p - 1].le(&v[i]))
            invariant
                0 <= p <= i < n == v.len(),
                sorted(models(v@.take(i as int))),
                forall|k: int|
                    p <= k < i ==> !entry_le(#[trigger] models(v@)[k], models(v@)[i as int]),
            decreases p,
        {
            proof {
                assert(models(v@.take(i as int))[p - 1] == models(v@)[p - 1]);
            }
            p = p - 1;
        }
        let ghost before = v@;
        let e = v.remove(i);
        v.insert(p, e);
        proof {
            let m0 = models(before);
            let m1 = models(v@);
            assert(v@ =~= before.remove(i as int).insert(p as int, before[i as int]));
            // The multiset is preserved: removing an element and inserting it
            // back elsewhere.
            vstd::seq_lib::to_multiset_remove(before, i as int);
            vstd::seq_lib::to_multiset_insert(
                before.remove(i as int),
                p as int,
                before[i as int],
            );
            vstd::seq_lib::to_multiset_contains(before, before[i as int]);
            assert(before.contains(before[i as int]));
            assert(before.to_multiset().count(before[i as int]) > 0);
            assert(v@.to_multiset() =~= before.to_multiset());
            // The same for the ghost images of the entries.
            assert(m1 =~= m0.remove(i as int).insert(p as int, m0[i as int]));
            vstd::seq_lib::to_multiset_remove(m0, i as int);
            vstd::seq_lib::to_multiset_insert(m0.remove(i as int), p as int, m0[i as int]);
            vstd::seq_lib::to_multiset_contains(m0, m0[i as int]);
            assert(m0.contains(m0[i as int]));
            assert(m1.to_multiset() =~= m0.to_multiset());
            // The prefix of length i + 1 is sorted: positions below p kept
            // their order, the moved entry sits between them and the shifted
            // ones.
            assert forall|x: int, y: int| 0 <= x < y < i + 1 implies entry_le(m1[x], m1[y]) by {
                assert(forall|k: int|
                    0 <= k < p ==> #[trigger] m1[k] == models(before.take(i as int))[k]);
                assert(m1[p as int] == m0[i as int]);
                assert(forall|k: int|
                    p < k < i + 1 ==> #[trigger] m1[k] == models(before.take(i as int))[k - 1]);
                let mt = models(before.take(i as int));
                assert(forall|k: int| 0 <= k < i ==> #[trigger] mt[k] == m0[k]);
                if p > 0 {
                    // The entry at p - 1 admitted the moved entry.
                    assert(entry_le(mt[p - 1], m0[i as int]));
                }
                assert(forall|k: int|
                    p <= k < i ==> !entry_le(#[trigger] m0[k], m0[i as int]));
                assert forall|k: int| p <= k < i implies entry_le(m0[i as int], #[trigger] m0[k]) by {
                    lemma_entry_le_total(m0[i as int], m0[k]);
                }
                if y == p {
                    // x < p: entry_le(mt[x], mt[p - 1]) and mt[p - 1] <= moved.
                    if x < p - 1 {
                        lemma_entry_le_trans(mt[x], mt[p - 1], m0[i as int]);
                    }
                } else if x == p {
                    // moved <= everything shifted up.
                } else if x < p && y > p {
                    // mt[x] <= moved <= mt[y - 1]; also directly sorted.
                    assert(entry_le(mt[x], mt[y - 1]));
                } else {
                    // both on the same side of p: the prefix order is kept.
                }
            }
            assert(models(v@.take(i + 1)) =~= models(v@).take(i + 1));
            assert(forall|k: int| 0 <= k < i + 1 ==> #[trigger] models(v@).take(i + 1)[k] == m1[k]);
        }
        i = i + 1;
    }
    proof {
        assert(v@.take(n as int) =~= v@);
    }
}

} // verus!
