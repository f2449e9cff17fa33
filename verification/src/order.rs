//! A stable ordering of items by a numeric key, largest key first: the order
//! `sort_by_key(|x| Reverse(key(x)))` leaves a slice in.

use vstd::prelude::*;

verus! {

/// `p` lists each of the indices `0..n` exactly once.
pub open spec fn is_permutation(p: Seq<usize>, n: nat) -> bool {
    &&& p.len() == n
    &&& forall|i: int| 0 <= i < p.len() ==> #[trigger] p[i] < n
    &&& forall|i: int, j: int| 0 <= i < j < p.len() ==> p[i] != p[j]
}

/// Along `p`, keys never increase, and items with equal keys keep their
/// relative order in the input.
pub open spec fn descending_stable(p: Seq<usize>, keys: Seq<u128>) -> bool {
    forall|i: int, j: int|
        0 <= i < j < p.len() ==> keys[p[i] as int] > keys[p[j] as int] || (keys[p[i] as int]
            == keys[p[j] as int] && p[i] < p[j])
}

/// The positions of `keys` in the order a stable sort by descending key puts
/// them.
pub fn order_descending(keys: &Vec<u128>) -> (p: Vec<usize>)
    ensures
        is_permutation(p@, keys@.len()),
        descending_stable(p@, keys@),
{
    let n = keys.len();
    let mut p: Vec<usize> = Vec::new();
    let mut k: usize = 0;
    while k < n
        invariant
            n == keys@.len(),
            k <= n,
            p@.len() == k,
            forall|i: int| 0 <= i < p@.len() ==> #[trigger] p@[i] < k,
            forall|i: int, j: int| 0 <= i < j < p@.len() ==> p@[i] != p@[j],
            descending_stable(p@, keys@),
        decreases n - k,
    {
        let key = keys[k];
        let mut pos: usize = 0;
        while pos < p.len() && keys[p[pos]] >= key
            invariant
                n == keys@.len(),
                k < n,
                key == keys@[k as int],
                pos <= p@.len(),
                forall|i: int| 0 <= i < p@.len() ==> #[trigger] p@[i] < k,
                forall|i: int| 0 <= i < pos ==> keys@[#[trigger] p@[i] as int] >= key,
            decreases p@.len() - pos,
        {
            pos = pos + 1;
        }
        let ghost old_p = p@;
        proof {
            assert forall|j: int| pos <= j < old_p.len() implies keys@[#[trigger] old_p[j] as int] < key by {
                if j > pos {
                    assert(keys@[old_p[pos as int] as int] >= keys@[old_p[j] as int]);
                }
            }
        }
        p.insert(pos, k);
        proof {
            assert forall|i: int| 0 <= i < p@.len() implies #[trigger] p@[i] < k + 1 by {
                if i < pos {
                    assert(p@[i] == old_p[i]);
                } else if i > pos {
                    assert(p@[i] == old_p[i - 1]);
                }
            }
            assert forall|i: int, j: int| 0 <= i < j < p@.len() implies p@[i] != p@[j] by {
                if i < pos && j < pos {
                    assert(p@[i] == old_p[i] && p@[j] == old_p[j]);
                } else if i < pos && j > pos {
                    assert(p@[i] == old_p[i] && p@[j] == old_p[j - 1]);
                } else if i > pos && j > pos {
                    assert(p@[i] == old_p[i - 1] && p@[j] == old_p[j - 1]);
                } else if i == pos {
                    assert(p@[j] == old_p[j - 1]);
                } else {
                    assert(p@[i] == old_p[i]);
                }
            }
            assert forall|i: int, j: int| 0 <= i < j < p@.len() implies keys@[p@[i] as int]
                > keys@[p@[j] as int] || (keys@[p@[i] as int] == keys@[p@[j] as int] && p@[i]
                < p@[j]) by {
                if i < pos && j < pos {
                    assert(p@[i] == old_p[i] && p@[j] == old_p[j]);
                } else if i < pos && j > pos {
                    assert(p@[i] == old_p[i] && p@[j] == old_p[j - 1]);
                } else if i > pos && j > pos {
                    assert(p@[i] == old_p[i - 1] && p@[j] == old_p[j - 1]);
                } else if i == pos {
                    assert(p@[j] == old_p[j - 1]);
                } else {
                    assert(p@[i] == old_p[i]);
                }
            }
        }
        k = k + 1;
    }
    p
}

/// `p` lists `k` somewhere.
pub open spec fn lists(p: Seq<usize>, k: int) -> bool {
    exists|i: int| 0 <= i < p.len() && p[i] == k
}

/// A permutation of `0..n` lists every index below `n`.
pub proof fn lemma_permutation_covers(p: Seq<usize>, n: nat)
    requires
        is_permutation(p, n),
    ensures
        forall|k: int| 0 <= k < n ==> #[trigger] lists(p, k),
{
    let q = p.map_values(|x: usize| x as int);
    assert(q.no_duplicates()) by {
        assert forall|i: int, j: int| 0 <= i < q.len() && 0 <= j < q.len() && i != j implies q[i]
            != q[j] by {
            if i < j {
                assert(p[i] != p[j]);
            } else {
                assert(p[j] != p[i]);
            }
        }
    }
    q.unique_seq_to_set();
    vstd::set_lib::lemma_int_range(0, n as int);
    let range = vstd::set_lib::set_int_range(0, n as int);
    assert(q.to_set().subset_of(range)) by {
        assert forall|x: int| q.to_set().contains(x) implies range.contains(x) by {
            let i = choose|i: int| 0 <= i < q.len() && q[i] == x;
            assert(p[i] < n);
        }
    }
    vstd::set_lib::lemma_len_subset(q.to_set(), range);
    vstd::set_lib::lemma_subset_equality(q.to_set(), range);
    assert forall|k: int| 0 <= k < n implies #[trigger] lists(p, k) by {
        assert(range.contains(k));
        assert(q.to_set().contains(k));
        let i = choose|i: int| 0 <= i < q.len() && q[i] == k;
        assert(p[i] == k);
    }
}

} // verus!
