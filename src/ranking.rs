//! Stable ranking of mission objectives by descending urgency.
use vstd::prelude::*;

verus! {

/// `order` lists each index below `n` exactly once.
pub open spec fn is_index_permutation(order: Seq<usize>, n: nat) -> bool {
    &&& order.len() == n
    &&& forall|i: int| 0 <= i < order.len() ==> order[i] < n
    &&& forall|i: int, j: int| 0 <= i < j < order.len() ==> order[i] != order[j]
    &&& forall|m: usize| m < n ==> #[trigger] lists(order, m)
}

/// Index `m` occurs in `order`.
pub open spec fn lists(order: Seq<usize>, m: usize) -> bool {
    exists|i: int| 0 <= i < order.len() && order[i] == m
}

/// Along `order`, urgency never increases, and objectives of equal urgency
/// keep their input order.
pub open spec fn is_stable_descending(keys: Seq<u64>, order: Seq<usize>) -> bool {
    forall|i: int, j: int|
        0 <= i < j < order.len() ==> {
            &&& keys[order[i] as int] >= keys[order[j] as int]
            &&& (keys[order[i] as int] == keys[order[j] as int] ==> order[i] < order[j])
        }
}

/// Ranks objectives by descending urgency. `keys[i]` is the urgency key of
/// objective `i` (larger means more urgent); the result lists the objective
/// indices from most to least urgent, and equal keys keep their input order.
pub fn rank_by_urgency(keys: &Vec<u64>) -> (order: Vec<usize>)
    ensures
        is_index_permutation(order@, keys@.len()),
        is_stable_descending(keys@, order@),
{
    let mut order: Vec<usize> = Vec::new();
    let mut k: usize = 0;
    while k < keys.len()
        invariant
            k <= keys.len(),
            is_index_permutation(order@, k as nat),
            is_stable_descending(keys@, order@),
        decreases keys.len() - k,
    {
        let key = keys[k];
        // First position whose objective is strictly less urgent.
        let mut p: usize = 0;
        while p < order.len() && keys[order[p]] >= key
            invariant
                k < keys.len(),
                p <= order.len(),
                is_index_permutation(order@, k as nat),
                forall|i: int| 0 <= i < p ==> keys@[order@[i] as int] >= key,
            decreases order.len() - p,
        {
            p = p + 1;
        }
        let ghost old_order = order@;
        proof {
            // Every entry from `p` on is strictly less urgent than `key`.
            assert forall|i: int| p <= i < old_order.len() implies keys@[old_order[i] as int] < key by {
                if i > p {
                    assert(keys@[old_order[p as int] as int] >= keys@[old_order[i] as int]);
                }
            }
        }
        order.insert(p, k);
        assert(order@ == old_order.insert(p as int, k));
        proof {
            assert forall|i: int, j: int| 0 <= i < j < order@.len() implies order@[i] != order@[j] by {
                if i < p && j < p {
                } else if i < p && j == p {
                } else if i < p {
                    assert(order@[j] == old_order[j - 1]);
                } else if i == p {
                    assert(order@[j] == old_order[j - 1]);
                } else {
                    assert(order@[i] == old_order[i - 1]);
                    assert(order@[j] == old_order[j - 1]);
                }
            }
            assert forall|i: int| 0 <= i < order@.len() implies order@[i] < k + 1 by {
                if i > p {
                    assert(order@[i] == old_order[i - 1]);
                }
            }
            assert forall|i: int, j: int| 0 <= i < j < order@.len() implies {
                &&& keys@[order@[i] as int] >= keys@[order@[j] as int]
                &&& (keys@[order@[i] as int] == keys@[order@[j] as int] ==> order@[i] < order@[j])
            } by {
                if i < p && j < p {
                } else if i < p && j == p {
                } else if i < p {
                    assert(order@[j] == old_order[j - 1]);
                } else if i == p {
                    assert(order@[j] == old_order[j - 1]);
                } else {
                    assert(order@[i] == old_order[i - 1]);
                    assert(order@[j] == old_order[j - 1]);
                }
            }
        }
        proof {
            assert forall|m: usize| m < k + 1 implies #[trigger] lists(order@, m) by {
                if m == k {
                    assert(order@[p as int] == k);
                } else {
                    assert(lists(old_order, m));
                    let i0 = choose|i: int| 0 <= i < old_order.len() && old_order[i] == m;
                    if i0 < p {
                        assert(order@[i0] == m);
                    } else {
                        assert(order@[i0 + 1] == m);
                    }
                }
            }
        }
        k = k + 1;
    }
    order
}

/// The most urgent objective comes first: no objective is more urgent than
/// the head of a stable descending ranking.
pub proof fn lemma_ranking_head_is_most_urgent(keys: Seq<u64>, order: Seq<usize>)
    requires
        is_index_permutation(order, keys.len()),
        is_stable_descending(keys, order),
        keys.len() > 0,
    ensures
        forall|m: usize| m < keys.len() ==> keys[order[0] as int] >= #[trigger] keys[m as int],
{
    assert forall|m: usize| m < keys.len() implies keys[order[0] as int] >= #[trigger] keys[m as int] by {
        assert(lists(order, m));
        let i = choose|i: int| 0 <= i < order.len() && order[i] == m;
        if i > 0 {
            assert(keys[order[0] as int] >= keys[order[i] as int]);
        }
    }
}

} // verus!
