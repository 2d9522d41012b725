//! Choosing the most frequent entries for a report.
use vstd::prelude::*;

verus! {

/// `r` lists the indices of the `limit` largest counts (or all of them),
/// largest first; equal counts keep the order of their indices, as a stable
/// sort by decreasing count would.
pub open spec fn ranked(counts: Seq<u32>, r: Seq<usize>, limit: nat) -> bool {
    &&& r.len() == if limit <= counts.len() { limit } else { counts.len() }
    &&& forall|i: int| 0 <= i < r.len() ==> #[trigger] r[i] < counts.len()
    &&& forall|i: int, j: int| 0 <= i < j < r.len() ==> #[trigger] r[i] != #[trigger] r[j]
    &&& forall|i: int, j: int|
        0 <= i < j < r.len() ==> counts[#[trigger] r[i] as int] > counts[#[trigger] r[j] as int] || (
        counts[r[i] as int] == counts[r[j] as int] && r[i] < r[j])
    &&& r.len() < limit ==> forall|k: usize| k < counts.len() ==> #[trigger] r.contains(k)
    &&& forall|k: usize, i: int|
        #![trigger r.contains(k), r[i]]
        k < counts.len() && !r.contains(k) && 0 <= i < r.len() ==> counts[k as int] <= counts[r[i] as int]
}

/// `p` goes before `k` in a ranking by decreasing count, ties by index.
pub open spec fn before(counts: Seq<u32>, p: int, k: int) -> bool {
    counts[p] > counts[k] || (counts[p] == counts[k] && p < k)
}

/// The indices of the `limit` largest counts, largest first, ties in index
/// order.
pub fn rank_by_count(counts: &Vec<u32>, limit: usize) -> (r: Vec<usize>)
    ensures
        ranked(counts@, r@, limit as nat),
{
    let n = counts.len();
    let mut rest: Vec<usize> = Vec::new();
    for k in 0..n
        invariant
            rest@.len() == k,
            forall|i: int| 0 <= i < k ==> #[trigger] rest@[i] == i,
    {
        rest.push(k);
    }
    let mut r: Vec<usize> = Vec::new();
    assert forall|k: usize| k < n implies rest@.contains(k) by {
        assert(rest@[k as int] == k);
    }
    while r.len() < limit && rest.len() > 0
        invariant
            n == counts@.len(),
            r@.len() + rest@.len() == n,
            r@.len() <= limit,
            forall|i: int| 0 <= i < rest@.len() ==> #[trigger] rest@[i] < n,
            forall|i: int| 0 <= i < r@.len() ==> #[trigger] r@[i] < n,
            forall|i: int, j: int| 0 <= i < j < rest@.len() ==> #[trigger] rest@[i] < #[trigger] rest@[j],
            forall|i: int, j: int| 0 <= i < j < r@.len() ==> #[trigger] r@[i] != #[trigger] r@[j],
            forall|k: usize| k < n ==> (#[trigger] r@.contains(k) <==> !rest@.contains(k)),
            forall|i: int, j: int|
                0 <= i < j < r@.len() ==> #[trigger] before(counts@, r@[i] as int, r@[j] as int),
            forall|i: int, j: int|
                0 <= i < r@.len() && 0 <= j < rest@.len() ==> #[trigger] before(
                    counts@,
                    r@[i] as int,
                    rest@[j] as int,
                ),
        decreases rest@.len(),
    {
        let mut best: usize = 0;
        let m = rest.len();
        for j in 1..m
            invariant
                m == rest@.len(),
                0 <= best < m,
                best < j,
                forall|i: int| 0 <= i < rest@.len() ==> #[trigger] rest@[i] < n,
                n == counts@.len(),
                forall|i: int, j2: int| 0 <= i < j2 < rest@.len() ==> #[trigger] rest@[i] < #[trigger] rest@[j2],
                forall|i: int|
                    0 <= i < j && i != best ==> before(counts@, rest@[best as int] as int, #[trigger] rest@[i] as int),
        {
            if counts[rest[j]] > counts[rest[best]] {
                best = j;
            }
        }
        let ghost old_rest = rest@;
        let picked = rest.remove(best);
        let ghost r_before = r@;
        r.push(picked);
        proof {
            assert(old_rest[best as int] == picked);
            assert(old_rest.contains(picked));
            assert(!r_before.contains(picked));
            assert(r@[r@.len() - 1] == picked);
            assert forall|i: int, j: int| 0 <= i < j < r@.len() implies #[trigger] r@[i] != #[trigger] r@[j] by {
                if j == r@.len() - 1 {
                    assert(r@[i] == r_before[i]);
                }
            }
            assert forall|i: int| 0 <= i < old_rest.len() && i != best implies before(
                counts@,
                picked as int,
                #[trigger] old_rest[i] as int,
            ) by {
            }
            assert forall|k: usize| k < n implies (#[trigger] r@.contains(k) <==> !rest@.contains(k)) by {
                if r@.contains(k) {
                    let i = choose|i: int| 0 <= i < r@.len() && r@[i] == k;
                    if i < r_before.len() {
                        assert(r_before.contains(k));
                        assert(!old_rest.contains(k));
                    } else {
                        assert(picked == k);
                        if rest@.contains(k) {
                            let j = choose|j: int| 0 <= j < rest@.len() && rest@[j] == k;
                            if j < best {
                                assert(old_rest[j] == k);
                            } else {
                                assert(old_rest[j + 1] == k);
                            }
                        }
                    }
                } else {
                    assert(picked != k);
                    if !r_before.contains(k) {
                        let j = choose|j: int| 0 <= j < old_rest.len() && old_rest[j] == k;
                        assert(j != best);
                        if j < best {
                            assert(rest@[j] == k);
                        } else {
                            assert(rest@[j - 1] == k);
                        }
                    } else {
                        let i = choose|i: int| 0 <= i < r_before.len() && r_before[i] == k;
                        assert(r@[i] == k);
                    }
                }
            }
        }
    }
    proof {
        if r@.len() < limit {
            assert forall|k: usize| k < counts@.len() implies #[trigger] r@.contains(k) by {
                assert(rest@.len() == 0);
                assert(!rest@.contains(k));
            }
        }
        assert forall|k: usize, i: int|
            #![trigger r@.contains(k), r@[i]]
            k < counts@.len() && !r@.contains(k) && 0 <= i < r@.len() implies counts@[k as int]
            <= counts@[r@[i] as int] by {
            let j = choose|j: int| 0 <= j < rest@.len() && rest@[j] == k;
            assert(before(counts@, r@[i] as int, rest@[j] as int));
        }
        assert forall|i: int, j: int| 0 <= i < j < r@.len() implies counts@[#[trigger] r@[i] as int]
            > counts@[#[trigger] r@[j] as int] || (counts@[r@[i] as int] == counts@[r@[j] as int]
            && r@[i] < r@[j]) by {
            assert(before(counts@, r@[i] as int, r@[j] as int));
        }
    }
    r
}

} // verus!
