//! Ranges of chunk indices: the runs of chunks that a receiver still lacks.

use vstd::prelude::*;

verus! {

/// The first index at or after `from` that is held, or `n` where none below `n` is.
pub open spec fn run_end(held: Set<u32>, from: u32, n: u32) -> u32
    decreases n - from,
{
    if from >= n || held.contains(from) {
        from
    } else {
        run_end(held, (from + 1) as u32, n)
    }
}

/// `run_end` stops within `from..=n`, at a held index or at `n`, and skips only what is
/// not held.
pub proof fn lemma_run_end(held: Set<u32>, from: u32, n: u32)
    requires
        from <= n,
    ensures
        from <= run_end(held, from, n) <= n,
        run_end(held, from, n) < n ==> held.contains(run_end(held, from, n)),
        forall|i: u32| from <= i < run_end(held, from, n) ==> !held.contains(i),
    decreases n - from,
{
    if from >= n || held.contains(from) {
    } else {
        lemma_run_end(held, (from + 1) as u32, n);
    }
}

/// The runs of indices in `from..n` that are not held, as inclusive pairs of first and
/// last index: in ascending order, each run as long as it can be.
pub open spec fn gaps(held: Set<u32>, from: u32, n: u32) -> Seq<(u32, u32)>
    decreases n - from,
{
    if from >= n {
        Seq::empty()
    } else if held.contains(from) {
        gaps(held, (from + 1) as u32, n)
    } else {
        let end = run_end(held, (from + 1) as u32, n);
        proof {
            lemma_run_end(held, (from + 1) as u32, n);
        }
        seq![(from, (end - 1) as u32)] + gaps(held, end, n)
    }
}

/// Whether index `i` lies in one of the ranges.
pub open spec fn covered(ranges: Seq<(u32, u32)>, i: u32) -> bool {
    exists|k: int| 0 <= k < ranges.len() && (#[trigger] ranges[k]).0 <= i <= ranges[k].1
}

/// Whether the ranges are NAK ranges for a file of `n` chunks: each pair runs from a
/// first to a last index below `n`, the pairs ascend, and no two of them overlap.
pub open spec fn well_formed(ranges: Seq<(u32, u32)>, n: u32) -> bool {
    &&& forall|k: int| 0 <= k < ranges.len() ==> (#[trigger] ranges[k]).0 <= ranges[k].1 < n
    &&& forall|j: int, k: int|
        0 <= j < k < ranges.len() ==> (#[trigger] ranges[j]).1 < (#[trigger] ranges[k]).0
}

/// Whether the ranges are coalesced: between two neighbours lies at least one index.
pub open spec fn coalesced(ranges: Seq<(u32, u32)>) -> bool {
    forall|k: int| 0 <= k < ranges.len() - 1 ==> (#[trigger] ranges[k]).1 + 1 < ranges[k + 1].0
}

/// Every gap lies in `from..n`, and the first gap starts at an index that is not held.
pub proof fn lemma_gaps_bounds(held: Set<u32>, from: u32, n: u32)
    requires
        from <= n,
    ensures
        forall|k: int|
            0 <= k < gaps(held, from, n).len() ==> from <= (#[trigger] gaps(held, from, n)[k]).0
                <= gaps(held, from, n)[k].1 < n,
        gaps(held, from, n).len() > 0 ==> !held.contains(gaps(held, from, n)[0].0),
    decreases n - from,
{
    let all = gaps(held, from, n);
    if from >= n {
    } else if held.contains(from) {
        lemma_gaps_bounds(held, (from + 1) as u32, n);
    } else {
        let end = run_end(held, (from + 1) as u32, n);
        lemma_run_end(held, (from + 1) as u32, n);
        lemma_gaps_bounds(held, end, n);
        let rest = gaps(held, end, n);
        assert forall|k: int| 0 <= k < all.len() implies from <= (#[trigger] all[k]).0
            <= all[k].1 < n by {
            if k > 0 {
                assert(all[k] == rest[k - 1]);
            }
        }
    }
}

/// The gaps ascend without touching: they are well formed and coalesced.
pub proof fn lemma_gaps_ordered(held: Set<u32>, from: u32, n: u32)
    requires
        from <= n,
    ensures
        well_formed(gaps(held, from, n), n),
        coalesced(gaps(held, from, n)),
    decreases n - from,
{
    let all = gaps(held, from, n);
    lemma_gaps_bounds(held, from, n);
    if from >= n {
    } else if held.contains(from) {
        lemma_gaps_ordered(held, (from + 1) as u32, n);
    } else {
        let end = run_end(held, (from + 1) as u32, n);
        lemma_run_end(held, (from + 1) as u32, n);
        lemma_gaps_ordered(held, end, n);
        lemma_gaps_bounds(held, end, n);
        let rest = gaps(held, end, n);
        assert forall|j: int, k: int| 0 <= j < k < all.len() implies (#[trigger] all[j]).1 < (
        #[trigger] all[k]).0 by {
            assert(all[k] == rest[k - 1]);
            if j > 0 {
                assert(all[j] == rest[j - 1]);
            }
        }
        assert forall|k: int| 0 <= k < all.len() - 1 implies (#[trigger] all[k]).1 + 1 < all[k
            + 1].0 by {
            assert(all[k + 1] == rest[k]);
            if k > 0 {
                assert(all[k] == rest[k - 1]);
            } else {
                assert(rest[0].0 != end);
            }
        }
    }
}

/// The gaps cover exactly the indices of `from..n` that are not held.
pub proof fn lemma_gaps_cover(held: Set<u32>, from: u32, n: u32)
    requires
        from <= n,
    ensures
        forall|i: u32|
            from <= i < n ==> (covered(gaps(held, from, n), i) <==> !(#[trigger] held.contains(i))),
    decreases n - from,
{
    let all = gaps(held, from, n);
    lemma_gaps_bounds(held, from, n);
    if from >= n {
    } else if held.contains(from) {
        lemma_gaps_cover(held, (from + 1) as u32, n);
        lemma_gaps_bounds(held, (from + 1) as u32, n);
        assert(!covered(all, from)) by {
            if covered(all, from) {
                let k = choose|k: int|
                    0 <= k < all.len() && (#[trigger] all[k]).0 <= from <= all[k].1;
                assert(from + 1 <= all[k].0);
            }
        }
    } else {
        let end = run_end(held, (from + 1) as u32, n);
        lemma_run_end(held, (from + 1) as u32, n);
        lemma_gaps_cover(held, end, n);
        lemma_gaps_bounds(held, end, n);
        let rest = gaps(held, end, n);
        assert(all[0] == (from, (end - 1) as u32));
        assert forall|i: u32| from <= i < n implies (covered(all, i) <==> !(
        #[trigger] held.contains(i))) by {
            if i < end {
                assert(all[0].0 <= i <= all[0].1);
            } else {
                if covered(rest, i) {
                    let k = choose|k: int|
                        0 <= k < rest.len() && (#[trigger] rest[k]).0 <= i <= rest[k].1;
                    assert(all[k + 1] == rest[k]);
                }
                if covered(all, i) {
                    let k = choose|k: int|
                        0 <= k < all.len() && (#[trigger] all[k]).0 <= i <= all[k].1;
                    assert(k > 0);
                    assert(all[k] == rest[k - 1]);
                }
            }
        }
    }
}

/// Nothing is missing exactly when every index below `n` is held.
pub proof fn lemma_no_gaps(held: Set<u32>, n: u32)
    ensures
        gaps(held, 0, n).len() == 0 <==> (forall|i: u32| i < n ==> held.contains(i)),
{
    lemma_gaps_cover(held, 0, n);
    lemma_gaps_bounds(held, 0, n);
    let all = gaps(held, 0, n);
    if all.len() == 0 {
        assert forall|i: u32| i < n implies held.contains(i) by {
            assert(!covered(all, i));
        }
    } else {
        assert(!held.contains(all[0].0));
    }
}

/// Whether `ranges` are NAK ranges for a file of `n` chunks.
pub fn are_well_formed(ranges: &Vec<(u32, u32)>, n: u32) -> (r: bool)
    ensures
        r == well_formed(ranges@, n),
{
    let mut k: usize = 0;
    while k < ranges.len()
        invariant
            k <= ranges@.len(),
            forall|j: int| 0 <= j < k ==> (#[trigger] ranges@[j]).0 <= ranges@[j].1 < n,
            forall|i: int, j: int|
                0 <= i < j < k ==> (#[trigger] ranges@[i]).1 < (#[trigger] ranges@[j]).0,
        decreases ranges.len() - k,
    {
        let (first, last) = ranges[k];
        if first > last || last >= n {
            return false;
        }
        if k > 0 {
            if ranges[k - 1].1 >= first {
                proof {
                    assert(!(ranges@[k - 1].1 < ranges@[k as int].0));
                }
                return false;
            }
            proof {
                assert forall|i: int| 0 <= i < k implies (#[trigger] ranges@[i]).1 < first by {
                    if i < k - 1 {
                        assert(ranges@[i].1 < ranges@[k - 1].0);
                    }
                }
            }
        }
        k += 1;
    }
    true
}

} // verus!
