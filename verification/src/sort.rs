//! Sorting the descriptor table.
//!
//! The table is sorted once, during global initialization, by owning-key
//! address and then by code address.  Sorting groups all descriptors of one
//! key into a contiguous run and fixes a deterministic, address-ordered
//! traversal within the run.

use vstd::prelude::*;

verus! {

use crate::jump_entry::JumpEntry;
use crate::jump_entry::entry_le;
use crate::jump_entry::entry_le_exec;
use crate::jump_entry::entries_sorted;

/// The elements tied with `x` in the sorting order: same owning-key
/// address and same code address.
pub open spec fn sort_key_matches(x: JumpEntry) -> spec_fn(JumpEntry) -> bool {
    |e: JumpEntry| e.spec_key_addr() == x.spec_key_addr() && e.code == x.code
}

/// Swapping two adjacent elements of which at most one satisfies `pred`
/// leaves the subsequence of elements satisfying `pred` unchanged.
proof fn lemma_swap_adjacent_filter(s: Seq<JumpEntry>, j: int, pred: spec_fn(JumpEntry) -> bool)
    requires
        1 <= j < s.len(),
        !(pred(s[j - 1]) && pred(s[j])),
    ensures
        s.update(j - 1, s[j]).update(j, s[j - 1]).filter(pred) == s.filter(pred),
{
    broadcast use vstd::seq_lib::group_seq_lib_default;

    let a = s[j - 1];
    let b = s[j];
    let t = s.update(j - 1, b).update(j, a);
    let pre = s.take(j - 1);
    let suf = s.skip(j + 1);
    assert(s =~= pre + seq![a, b] + suf);
    assert(t =~= pre + seq![b, a] + suf);
    assert(seq![a, b].filter(pred) == seq![b, a].filter(pred)) by {
        reveal_with_fuel(Seq::filter, 3);
        assert(seq![a, b].drop_last() =~= seq![a]);
        assert(seq![b, a].drop_last() =~= seq![b]);
        assert(seq![a].drop_last() =~= Seq::<JumpEntry>::empty());
        assert(seq![b].drop_last() =~= Seq::<JumpEntry>::empty());
        if pred(a) {
            assert(seq![a, b].filter(pred) =~= seq![a]);
            assert(seq![b, a].filter(pred) =~= seq![a]);
        } else if pred(b) {
            assert(seq![a, b].filter(pred) =~= seq![b]);
            assert(seq![b, a].filter(pred) =~= seq![b]);
        } else {
            assert(seq![a, b].filter(pred) =~= Seq::<JumpEntry>::empty());
            assert(seq![b, a].filter(pred) =~= Seq::<JumpEntry>::empty());
        }
    }
    assert((pre + seq![a, b] + suf).filter(pred) == pre.filter(pred) + seq![a, b].filter(pred)
        + suf.filter(pred));
    assert((pre + seq![b, a] + suf).filter(pred) == pre.filter(pred) + seq![b, a].filter(pred)
        + suf.filter(pred));
}

/// Sort the descriptors by (key address, code address), in place.
///
/// Insertion sort: the table is tiny compared to the cost of the patching
/// syscalls around it, and the proof is direct.  The sort is stable:
/// descriptors equal in both key address and code address keep their input
/// order, stated through the subsequence of elements tied with any `x`.
pub fn sort_jump_entries(v: &mut Vec<JumpEntry>)
    ensures
        final(v)@.len() == old(v)@.len(),
        entries_sorted(final(v)@),
        final(v)@.to_multiset() == old(v)@.to_multiset(),
        forall|x: JumpEntry| #[trigger] final(v)@.filter(sort_key_matches(x)) == old(v)@.filter(
            sort_key_matches(x),
        ),
{
    let n = v.len();
    let mut i: usize = 0;
    while i < n
        invariant
            i <= n,
            n == v@.len(),
            v@.len() == old(v)@.len(),
            forall|a: int, b: int| 0 <= a < b < i ==> entry_le(v@[a], v@[b]),
            v@.to_multiset() == old(v)@.to_multiset(),
            forall|x: JumpEntry| #[trigger] v@.filter(sort_key_matches(x)) == old(v)@.filter(
                sort_key_matches(x),
            ),
        decreases n - i,
    {
        let mut j: usize = i;
        while j > 0 && !entry_le_exec(&v[j - 1], &v[j])
            invariant
                j <= i < n,
                n == v@.len(),
                v@.len() == old(v)@.len(),
                v@.to_multiset() == old(v)@.to_multiset(),
                forall|x: JumpEntry| #[trigger] v@.filter(sort_key_matches(x)) == old(v)@.filter(
                    sort_key_matches(x),
                ),
                forall|a: int, b: int|
                    0 <= a < b <= i && b != j ==> entry_le(v@[a], v@[b]),
            decreases j,
        {
            let prev = v[j - 1];
            let cur = v[j];
            let ghost s = v@;
            proof {
                vstd::seq_lib::to_multiset_update(s, j - 1, cur);
                vstd::seq_lib::to_multiset_update(s.update(j - 1, cur), j as int, prev);
                assert(s.update(j - 1, cur).update(j as int, prev).to_multiset() =~= s.to_multiset())
                    by {
                    broadcast use vstd::seq_lib::group_to_multiset_ensures;

                    assert(s.contains(s[j - 1]));
                    assert(s.update(j - 1, cur)[j as int] == s[j as int]);
                };
            }
            v[j - 1] = cur;
            v[j] = prev;
            proof {
                // a swap never crosses two tied descriptors, so every tied
                // subsequence is kept
                assert forall|x: JumpEntry| #[trigger] v@.filter(sort_key_matches(x))
                    == old(v)@.filter(sort_key_matches(x)) by {
                    let pred = sort_key_matches(x);
                    assert(v@ =~= s.update(j - 1, cur).update(j as int, prev));
                    assert(s.update(j - 1, cur).update(j as int, prev).filter(pred) == s.filter(
                        pred,
                    )) by {
                        assert(!(pred(prev) && pred(cur))) by {
                            if pred(prev) && pred(cur) {
                                assert(entry_le(prev, cur));
                            }
                        }
                        lemma_swap_adjacent_filter(s, j as int, pred);
                    }
                    assert(s.filter(pred) == old(v)@.filter(pred));
                }
            }
            j -= 1;
        }
        proof {
            assert forall|a: int, b: int| 0 <= a < b <= i implies entry_le(v@[a], v@[b]) by {
                if b == j {
                    if j > 0 {
                        assert(entry_le(v@[j - 1], v@[j as int]));
                        if a < j - 1 {
                            assert(entry_le(v@[a], v@[j - 1]));
                        }
                    }
                }
            }
        }
        i += 1;
    }
}

/// After sorting, every key's descriptors form one contiguous run, ordered
/// by ascending code address: whatever lies between two descriptors of a
/// key belongs to that key, and code addresses never decrease within the
/// run.
pub proof fn lemma_sorted_key_group_contiguous(s: Seq<JumpEntry>, i: int, k: int, j: int)
    requires
        entries_sorted(s),
        0 <= i <= k <= j < s.len(),
        s[i].spec_key_addr() == s[j].spec_key_addr(),
    ensures
        s[k].spec_key_addr() == s[i].spec_key_addr(),
        s[i].code <= s[k].code <= s[j].code,
{
    if i < k {
        assert(entry_le(s[i], s[k]));
    }
    if k < j {
        assert(entry_le(s[k], s[j]));
    }
}

} // verus!
