//! The work partitioner: a cursor that hands out fixed-size, contiguous,
//! disjoint ranges of indices, and the laws that make those ranges an exact
//! partition of `[0, n)`.
use vstd::prelude::*;

verus! {

/// Start of the `j`-th claim made on a fresh cursor with chunk size `chunk`.
pub open spec fn claim_start(j: int, chunk: int) -> int {
    j * chunk
}

/// Whether index `i` lies in the `j`-th claim once that claim is clipped to `[0, n)`.
pub open spec fn in_clipped_claim(j: int, chunk: int, n: int, i: int) -> bool {
    claim_start(j, chunk) <= i && i < claim_start(j + 1, chunk) && i < n
}

/// Number of indices that the `j`-th claim covers once clipped to `[0, n)`.
pub open spec fn clipped_len(j: int, chunk: int, n: int) -> int {
    let lo = claim_start(j, chunk);
    let hi = if claim_start(j + 1, chunk) < n { claim_start(j + 1, chunk) } else { n };
    if hi > lo { hi - lo } else { 0 }
}

/// Indices covered by the first `k` claims, each clipped to `[0, n)`.
pub open spec fn covered(k: nat, chunk: int, n: int) -> int
    decreases k,
{
    if k == 0 {
        0
    } else {
        covered((k - 1) as nat, chunk, n) + clipped_len(k - 1, chunk, n)
    }
}

/// A shared "next unclaimed index": each claim takes the next `chunk` indices.
pub struct WorkCursor {
    pub next: usize,
    pub chunk: usize,
    /// How many claims have been granted so far.
    pub claims: Ghost<nat>,
}

impl WorkCursor {
    pub open spec fn wf(&self) -> bool {
        &&& self.chunk > 0
        &&& self.next as int == claim_start(self.claims@ as int, self.chunk as int)
    }

    /// A cursor at index 0 that hands out chunks of `chunk` indices.
    pub fn new(chunk: usize) -> (r: WorkCursor)
        requires
            chunk > 0,
        ensures
            r.wf(),
            r.next == 0,
            r.chunk == chunk,
            r.claims@ == 0,
    {
        WorkCursor { next: 0, chunk, claims: Ghost(0) }
    }

    /// Claims the next chunk: returns the half-open range `[start, start + chunk)`
    /// and moves the cursor past it. The range is not checked against any bound;
    /// `None` (with the cursor unchanged) only when the range end would not fit
    /// in a `usize`.
    pub fn claim_chunk(&mut self) -> (r: Option<(usize, usize)>)
        requires
            old(self).wf(),
        ensures
            final(self).wf(),
            final(self).chunk == old(self).chunk,
            final(self).next >= old(self).next,
            old(self).next + old(self).chunk <= usize::MAX ==> {
                &&& r == Some((old(self).next, (old(self).next + old(self).chunk) as usize))
                &&& final(self).next == old(self).next + old(self).chunk
                &&& final(self).claims@ == old(self).claims@ + 1
                &&& r.unwrap().0 as int == claim_start(old(self).claims@ as int, old(self).chunk as int)
            },
            old(self).next + old(self).chunk > usize::MAX ==> r is None && *final(self) == *old(self),
    {
        if self.next > usize::MAX - self.chunk {
            return None;
        }
        let start = self.next;
        let end = start + self.chunk;
        proof {
            let j = self.claims@ as int;
            let c = self.chunk as int;
            assert((j + 1) * c == j * c + c) by (nonlinear_arith);
        }
        self.next = end;
        self.claims = Ghost(self.claims@ + 1);
        Some((start, end))
    }
}

/// Clips a claimed range `[start, end)` to the phase bound `n`: a worker iterates
/// `[lo, hi)` and never indexes at or past `n`.
pub fn clip_to_bound(start: usize, end: usize, n: usize) -> (r: (usize, usize))
    ensures
        r.0 == (if start < n { start } else { n }),
        r.1 == (if end < n { end } else { n }),
        r.0 <= n && r.1 <= n,
{
    let lo = if start < n { start } else { n };
    let hi = if end < n { end } else { n };
    (lo, hi)
}

/// Partition completeness: with chunk size `chunk > 0`, the claims that start
/// below `n`, each clipped to `[0, n)`, cover every index of `[0, n)` exactly
/// once and nothing outside it.
pub proof fn lemma_partition_complete(chunk: int, n: int)
    requires
        chunk > 0,
        n >= 0,
    ensures
        forall|i: int|
            0 <= i < n ==> #[trigger] in_clipped_claim(i / chunk, chunk, n, i) && claim_start(
                i / chunk,
                chunk,
            ) < n && i / chunk >= 0,
        forall|j1: int, j2: int, i: int|
            #[trigger] in_clipped_claim(j1, chunk, n, i) && #[trigger] in_clipped_claim(
                j2,
                chunk,
                n,
                i,
            ) ==> j1 == j2,
        forall|j: int, i: int| #[trigger] in_clipped_claim(j, chunk, n, i) ==> i < n,
{
    assert forall|i: int| 0 <= i < n implies #[trigger] in_clipped_claim(i / chunk, chunk, n, i)
        && claim_start(i / chunk, chunk) < n && i / chunk >= 0 by {
        let q = i / chunk;
        let r = i % chunk;
        assert(i == q * chunk + r && 0 <= r < chunk) by {
            vstd::arithmetic::div_mod::lemma_fundamental_div_mod(i, chunk);
        }
        assert((q + 1) * chunk == q * chunk + chunk) by (nonlinear_arith);
        assert(q >= 0) by {
            vstd::arithmetic::div_mod::lemma_div_pos_is_pos(i, chunk);
        }
    }
    assert forall|j1: int, j2: int, i: int|
        #[trigger] in_clipped_claim(j1, chunk, n, i) && #[trigger] in_clipped_claim(
            j2,
            chunk,
            n,
            i,
        ) implies j1 == j2 by {
        if j1 < j2 {
            assert((j1 + 1) * chunk <= j2 * chunk) by (nonlinear_arith)
                requires
                    j1 + 1 <= j2,
                    chunk > 0,
            ;
        } else if j2 < j1 {
            assert((j2 + 1) * chunk <= j1 * chunk) by (nonlinear_arith)
                requires
                    j2 + 1 <= j1,
                    chunk > 0,
            ;
        }
    }
}

/// Exhaustion monotonicity: once a claim starts at or past `n`, every later
/// claim does too.
pub proof fn lemma_exhaustion_monotone(chunk: int, n: int, j1: int, j2: int)
    requires
        chunk > 0,
        0 <= j1 <= j2,
        claim_start(j1, chunk) >= n,
    ensures
        claim_start(j2, chunk) >= n,
{
    assert(j1 * chunk <= j2 * chunk) by (nonlinear_arith)
        requires
            j1 <= j2,
            chunk > 0,
    ;
}

/// The first `k` clipped claims cover `min(k * chunk, n)` indices.
pub proof fn lemma_covered(k: nat, chunk: int, n: int)
    requires
        chunk > 0,
        n >= 0,
    ensures
        covered(k, chunk, n) == (if claim_start(k as int, chunk) < n {
            claim_start(k as int, chunk)
        } else {
            n
        }),
    decreases k,
{
    if k == 0 {
        assert(0 * chunk == 0);
    } else {
        let j: int = k - 1;
        lemma_covered(j as nat, chunk, n);
        assert((j + 1) * chunk == j * chunk + chunk) by (nonlinear_arith);
        assert(j * chunk >= 0) by (nonlinear_arith)
            requires
                j >= 0,
                chunk > 0,
        ;
    }
}

/// Every claimed index is worked once: the claims up to exhaustion (any `k`
/// with `k * chunk >= n`), clipped to `[0, n)`, add up to exactly `n` indices.
pub proof fn lemma_claims_cover_exactly(k: nat, chunk: int, n: int)
    requires
        chunk > 0,
        n >= 0,
        claim_start(k as int, chunk) >= n,
    ensures
        covered(k, chunk, n) == n,
{
    lemma_covered(k, chunk, n);
}

} // verus!
