//! Stable descending ranking of values.
//!
//! A ranking lists the positions of a sequence of values from the largest
//! value to the smallest; equal values keep their relative order.
use vstd::prelude::*;
use vstd::set_lib::*;

verus! {

/// Position `a` is ranked before position `b`.
pub open spec fn precedes(vals: Seq<u64>, a: int, b: int) -> bool {
    vals[a] > vals[b] || (vals[a] == vals[b] && a < b)
}

/// `r` lists every position of `vals` once, in ranking order.
pub open spec fn is_ranking(vals: Seq<u64>, r: Seq<usize>) -> bool {
    &&& r.len() == vals.len()
    &&& forall|k: int| 0 <= k < r.len() ==> #[trigger] r[k] < vals.len()
    &&& forall|a: int, b: int|
        0 <= a < b < r.len() ==> precedes(vals, #[trigger] r[a] as int, #[trigger] r[b] as int)
}

/// The ranking of `vals` (there is exactly one, see `lemma_ranking_unique`).
pub open spec fn ranking_of(vals: Seq<u64>) -> Seq<usize> {
    choose|r: Seq<usize>| is_ranking(vals, r)
}

/// The positions ranked before `x`.
pub open spec fn ranked_before(vals: Seq<u64>, x: int) -> Set<int> {
    Set::new(|z: int| 0 <= z < vals.len() && precedes(vals, z, x))
}

spec fn as_ints(r: Seq<usize>) -> Seq<int> {
    r.map_values(|x: usize| x as int)
}

/// In a ranking, position `k` holds the element with exactly `k` elements ranked before it.
proof fn lemma_rank_position(vals: Seq<u64>, r: Seq<usize>, k: int)
    requires
        is_ranking(vals, r),
        0 <= k < r.len(),
    ensures
        ranked_before(vals, r[k] as int).finite(),
        ranked_before(vals, r[k] as int).len() == k,
        forall|z: int| 0 <= z < vals.len() ==> #[trigger] as_ints(r).contains(z),
{
    let n = vals.len() as int;
    let ri = as_ints(r);
    assert(ri.no_duplicates()) by {
        assert forall|i: int, j: int| 0 <= i < ri.len() && 0 <= j < ri.len() && i != j implies ri[i]
            != ri[j] by {
            if i < j {
                assert(precedes(vals, r[i] as int, r[j] as int));
            } else {
                assert(precedes(vals, r[j] as int, r[i] as int));
            }
        }
    }
    ri.unique_seq_to_set();
    lemma_int_range(0, n);
    assert(ri.to_set().subset_of(set_int_range(0, n)));
    lemma_subset_equality(ri.to_set(), set_int_range(0, n));
    assert forall|z: int| 0 <= z < n implies #[trigger] ri.contains(z) by {
        assert(set_int_range(0, n).contains(z));
        assert(ri.to_set().contains(z));
    }
    let x = r[k] as int;
    let p = ri.subrange(0, k);
    assert(p.no_duplicates());
    p.unique_seq_to_set();
    assert(p.to_set() =~= ranked_before(vals, x)) by {
        assert forall|z: int| p.to_set().contains(z) implies ranked_before(vals, x).contains(z) by {
            let m = choose|m: int| 0 <= m < p.len() && p[m] == z;
            assert(ri[m] == z);
            assert(precedes(vals, r[m] as int, r[k] as int));
        }
        assert forall|z: int| ranked_before(vals, x).contains(z) implies p.to_set().contains(z) by {
            assert(ri.contains(z));
            let m = choose|m: int| 0 <= m < ri.len() && ri[m] == z;
            if m > k {
                assert(precedes(vals, r[k] as int, r[m] as int));
            }
            assert(m != k);
            assert(p[m] == z);
        }
    }
}

/// Two rankings of the same values are equal.
pub proof fn lemma_ranking_unique(vals: Seq<u64>, r1: Seq<usize>, r2: Seq<usize>)
    requires
        is_ranking(vals, r1),
        is_ranking(vals, r2),
    ensures
        r1 == r2,
{
    assert forall|k: int| 0 <= k < r1.len() implies r1[k] == r2[k] by {
        lemma_rank_position(vals, r1, k);
        lemma_rank_position(vals, r2, k);
        let x = r1[k] as int;
        assert(as_ints(r2).contains(x));
        let p = choose|p: int| 0 <= p < as_ints(r2).len() && as_ints(r2)[p] == x;
        lemma_rank_position(vals, r2, p);
        assert(r2[p] as int == x);
    }
    assert(r1 =~= r2);
}

/// Ranks the positions of `vals` by descending value, ties kept in position order.
pub fn rank_descending(vals: &Vec<u64>) -> (r: Vec<usize>)
    ensures
        is_ranking(vals@, r@),
        r@ == ranking_of(vals@),
{
    let n = vals.len();
    let mut r: Vec<usize> = Vec::new();
    let mut i: usize = 0;
    while i < n
        invariant
            i <= n,
            n == vals@.len(),
            r@.len() == i,
            forall|k: int| 0 <= k < r@.len() ==> #[trigger] r@[k] < i,
            forall|a: int, b: int|
                0 <= a < b < r@.len() ==> precedes(
                    vals@,
                    #[trigger] r@[a] as int,
                    #[trigger] r@[b] as int,
                ),
        decreases n - i,
    {
        let mut p: usize = 0;
        while p < r.len() && vals[r[p]] >= vals[i]
            invariant
                p <= r@.len(),
                i < n,
                n == vals@.len(),
                forall|k: int| 0 <= k < r@.len() ==> #[trigger] r@[k] < i,
                forall|m: int| 0 <= m < p ==> vals@[#[trigger] r@[m] as int] >= vals@[i as int],
            decreases r@.len() - p,
        {
            p = p + 1;
        }
        let ghost old_r = r@;
        assert forall|m: int| p <= m < old_r.len() implies vals@[#[trigger] old_r[m] as int]
            < vals@[i as int] by {
            if m > p {
                assert(precedes(vals@, old_r[p as int] as int, old_r[m] as int));
            }
        }
        r.insert(p, i);
        assert forall|a: int, b: int| 0 <= a < b < r@.len() implies precedes(
            vals@,
            #[trigger] r@[a] as int,
            #[trigger] r@[b] as int,
        ) by {
            if b < p {
                assert(r@[a] == old_r[a] && r@[b] == old_r[b]);
            } else if b == p {
                assert(r@[a] == old_r[a]);
            } else if a < p {
                assert(r@[a] == old_r[a] && r@[b] == old_r[b - 1]);
            } else if a == p {
                assert(r@[b] == old_r[b - 1]);
            } else {
                assert(r@[a] == old_r[a - 1] && r@[b] == old_r[b - 1]);
            }
        }
        assert forall|k: int| 0 <= k < r@.len() implies #[trigger] r@[k] < i + 1 by {
            if k < p {
                assert(r@[k] == old_r[k]);
            } else if k > p {
                assert(r@[k] == old_r[k - 1]);
            }
        }
        i = i + 1;
    }
    proof {
        lemma_ranking_unique(vals@, r@, ranking_of(vals@));
    }
    r
}

} // verus!
