//! What a worker decides and records while it walks its claimed ranges: the
//! epoch cooperation cadence, its per-kind operation counters, and the
//! aggregate throughput computed from all workers' reports.
use crate::operation::Operation;
use vstd::prelude::*;

verus! {

/// Every this many indices a worker announces progress to the store's epoch.
pub const REFRESH_INTERVAL: usize = 64;

/// Every this many indices a worker also drains completed pending operations
/// without waiting; a multiple of the refresh interval.
pub const COMPLETE_PENDING_INTERVAL: usize = 1600;

/// Number of indices one claim on the work cursor hands out.
pub const CHUNK_SIZE: usize = 3200;

/// Number of keys in the population phase.
pub const INIT_COUNT: usize = 250000000;

/// Number of operations in the transaction phase.
pub const TXN_COUNT: usize = 1000000000;

/// Nanoseconds in one second.
pub const NANOS_PER_SECOND: u128 = 1000000000;

/// What the store must be told before the operation at one index.
#[derive(Clone, Copy, Debug, PartialEq, Eq, Structural)]
pub enum EpochDuty {
    Nothing,
    Refresh,
    RefreshAndDrain,
}

pub open spec fn epoch_duty_spec(i: int) -> EpochDuty {
    if i % (REFRESH_INTERVAL as int) == 0 {
        if i % (COMPLETE_PENDING_INTERVAL as int) == 0 {
            EpochDuty::RefreshAndDrain
        } else {
            EpochDuty::Refresh
        }
    } else {
        EpochDuty::Nothing
    }
}

/// The epoch cooperation cadence at index `i`: refresh every `REFRESH_INTERVAL`
/// indices, and on every `COMPLETE_PENDING_INTERVAL`-th index also drain
/// pending operations without blocking.
pub fn epoch_duty(i: usize) -> (r: EpochDuty)
    ensures
        r == epoch_duty_spec(i as int),
{
    if i % REFRESH_INTERVAL == 0 {
        if i % COMPLETE_PENDING_INTERVAL == 0 {
            EpochDuty::RefreshAndDrain
        } else {
            EpochDuty::Refresh
        }
    } else {
        EpochDuty::Nothing
    }
}

/// A worker's walk over one claimed range `[start, end)`, clipped to the
/// phase bound: it yields each index in ascending order with the epoch duty
/// that comes before the operation at that index.
#[derive(Clone, Copy, Debug, PartialEq, Eq, Structural)]
pub struct ChunkWalk {
    pub next: usize,
    pub end: usize,
}

impl ChunkWalk {
    /// Indices the walk has yet to yield.
    pub open spec fn remaining(&self) -> int {
        if self.end > self.next {
            self.end - self.next
        } else {
            0
        }
    }

    /// The walk over a claimed range: `None` when the claim starts at or past
    /// the bound `n`, the sign that the work is exhausted; otherwise the walk
    /// over `[start, min(end, n))`.
    pub fn from_claim(start: usize, end: usize, n: usize) -> (r: Option<ChunkWalk>)
        ensures
            start >= n ==> r is None,
            start < n ==> r == Some(ChunkWalk { next: start, end: if end < n { end } else { n } }),
    {
        if start >= n {
            None
        } else {
            let (lo, hi) = crate::partition::clip_to_bound(start, end, n);
            Some(ChunkWalk { next: lo, end: hi })
        }
    }

    /// The next index of the walk and its epoch duty, or `None` once the walk
    /// is done.
    pub fn step(&mut self) -> (r: Option<(usize, EpochDuty)>)
        ensures
            final(self).end == old(self).end,
            old(self).next < old(self).end ==> {
                &&& r == Some((old(self).next, epoch_duty_spec(old(self).next as int)))
                &&& final(self).next == old(self).next + 1
                &&& final(self).remaining() == old(self).remaining() - 1
            },
            old(self).next >= old(self).end ==> r is None && *final(self) == *old(self),
    {
        if self.next < self.end {
            let i = self.next;
            self.next = i + 1;
            Some((i, epoch_duty(i)))
        } else {
            None
        }
    }
}

/// A walk made from the `j`-th claim of a fresh cursor yields exactly the
/// indices that the claim covers once clipped to `[0, n)`.
pub proof fn lemma_walk_covers_claim(j: int, chunk: int, n: int, w: ChunkWalk)
    requires
        j >= 0,
        chunk > 0,
        w.next == crate::partition::claim_start(j, chunk),
        w.end == (if crate::partition::claim_start(j + 1, chunk) < n {
            crate::partition::claim_start(j + 1, chunk)
        } else {
            n
        }),
    ensures
        w.remaining() == crate::partition::clipped_len(j, chunk, n),
{
}

/// The operations one worker has executed, by kind.
#[derive(Clone, Copy, Debug, PartialEq, Eq, Structural)]
pub struct WorkerCounts {
    pub reads: u64,
    pub upserts: u64,
    pub rmws: u64,
}

impl WorkerCounts {
    pub open spec fn total_spec(&self) -> int {
        self.reads + self.upserts + self.rmws
    }

    /// All counters at zero.
    pub fn new() -> (r: WorkerCounts)
        ensures
            r.reads == 0 && r.upserts == 0 && r.rmws == 0,
    {
        WorkerCounts { reads: 0, upserts: 0, rmws: 0 }
    }

    /// Operations counted so far, of every kind.
    pub fn total(&self) -> (r: u128)
        ensures
            r == self.total_spec(),
    {
        self.reads as u128 + self.upserts as u128 + self.rmws as u128
    }

    /// Counts one executed operation of kind `op`: its counter goes up by one
    /// and the others stay.
    pub fn record(&mut self, op: Operation)
        requires
            old(self).total_spec() < u64::MAX,
        ensures
            final(self).reads == old(self).reads + (if op == Operation::Read { 1int } else { 0 }),
            final(self).upserts == old(self).upserts + (if op == Operation::Upsert {
                1int
            } else {
                0
            }),
            final(self).rmws == old(self).rmws + (if op == Operation::Rmw { 1int } else { 0 }),
            final(self).total_spec() == old(self).total_spec() + 1,
    {
        match op {
            Operation::Read => self.reads = self.reads + 1,
            Operation::Upsert => self.upserts = self.upserts + 1,
            Operation::Rmw => self.rmws = self.rmws + 1,
        }
    }
}

/// What one transaction worker hands back when it is joined.
#[derive(Clone, Copy, Debug, PartialEq, Eq, Structural)]
pub struct WorkerReport {
    pub counts: WorkerCounts,
    pub elapsed_nanos: u128,
}

/// The sums over all workers' reports.
#[derive(Clone, Copy, Debug, PartialEq, Eq, Structural)]
pub struct RunTotals {
    pub reads: u128,
    pub upserts: u128,
    pub rmws: u128,
    pub elapsed_nanos: u128,
}

pub open spec fn sum_reads(s: Seq<WorkerReport>) -> int
    decreases s.len(),
{
    if s.len() == 0 {
        0
    } else {
        sum_reads(s.drop_last()) + s.last().counts.reads
    }
}

pub open spec fn sum_upserts(s: Seq<WorkerReport>) -> int
    decreases s.len(),
{
    if s.len() == 0 {
        0
    } else {
        sum_upserts(s.drop_last()) + s.last().counts.upserts
    }
}

pub open spec fn sum_rmws(s: Seq<WorkerReport>) -> int
    decreases s.len(),
{
    if s.len() == 0 {
        0
    } else {
        sum_rmws(s.drop_last()) + s.last().counts.rmws
    }
}

pub open spec fn sum_nanos(s: Seq<WorkerReport>) -> int
    decreases s.len(),
{
    if s.len() == 0 {
        0
    } else {
        sum_nanos(s.drop_last()) + s.last().elapsed_nanos
    }
}

proof fn lemma_sums_grow(s: Seq<WorkerReport>, i: int, j: int)
    requires
        0 <= i <= j <= s.len(),
    ensures
        sum_reads(s.take(i)) <= sum_reads(s.take(j)),
        sum_upserts(s.take(i)) <= sum_upserts(s.take(j)),
        sum_rmws(s.take(i)) <= sum_rmws(s.take(j)),
        sum_nanos(s.take(i)) <= sum_nanos(s.take(j)),
    decreases j - i,
{
    if i < j {
        lemma_sums_grow(s, i, j - 1);
        assert(s.take(j).drop_last() =~= s.take(j - 1));
    }
}

/// Sums the reports of all workers. `None` exactly when one of the four sums
/// does not fit in a `u128`.
pub fn aggregate(reports: &Vec<WorkerReport>) -> (r: Option<RunTotals>)
    ensures
        r is Some <==> (sum_reads(reports@) <= u128::MAX && sum_upserts(reports@) <= u128::MAX
            && sum_rmws(reports@) <= u128::MAX && sum_nanos(reports@) <= u128::MAX),
        r matches Some(t) ==> {
            &&& t.reads == sum_reads(reports@)
            &&& t.upserts == sum_upserts(reports@)
            &&& t.rmws == sum_rmws(reports@)
            &&& t.elapsed_nanos == sum_nanos(reports@)
        },
{
    let mut t = RunTotals { reads: 0, upserts: 0, rmws: 0, elapsed_nanos: 0 };
    let mut i: usize = 0;
    assert(reports@.take(0) =~= Seq::<WorkerReport>::empty());
    while i < reports.len()
        invariant
            i <= reports@.len(),
            t.reads == sum_reads(reports@.take(i as int)),
            t.upserts == sum_upserts(reports@.take(i as int)),
            t.rmws == sum_rmws(reports@.take(i as int)),
            t.elapsed_nanos == sum_nanos(reports@.take(i as int)),
        decreases reports@.len() - i,
    {
        let rep = reports[i];
        proof {
            assert(reports@.take(i + 1).drop_last() =~= reports@.take(i as int));
            lemma_sums_grow(reports@, i + 1, reports@.len() as int);
            assert(reports@.take(reports@.len() as int) =~= reports@);
        }
        if t.reads > u128::MAX - rep.counts.reads as u128 || t.upserts > u128::MAX
            - rep.counts.upserts as u128 || t.rmws > u128::MAX - rep.counts.rmws as u128
            || t.elapsed_nanos > u128::MAX - rep.elapsed_nanos {
            return None;
        }
        t = RunTotals {
            reads: t.reads + rep.counts.reads as u128,
            upserts: t.upserts + rep.counts.upserts as u128,
            rmws: t.rmws + rep.counts.rmws as u128,
            elapsed_nanos: t.elapsed_nanos + rep.elapsed_nanos,
        };
        i = i + 1;
    }
    assert(reports@.take(reports@.len() as int) =~= reports@);
    Some(t)
}

impl RunTotals {
    pub open spec fn ops_spec(&self) -> int {
        self.reads + self.upserts + self.rmws
    }

    /// Operations of every kind over all workers.
    pub fn total_ops(&self) -> (r: Option<u128>)
        ensures
            r is Some <==> self.ops_spec() <= u128::MAX,
            r matches Some(v) ==> v == self.ops_spec(),
    {
        if self.reads > u128::MAX - self.upserts {
            return None;
        }
        let ru = self.reads + self.upserts;
        if ru > u128::MAX - self.rmws {
            return None;
        }
        Some(ru + self.rmws)
    }

    /// Throughput as total operations over total thread-seconds
    /// (`elapsed_nanos / NANOS_PER_SECOND`, fractions of a second included),
    /// rounded down to a whole number of operations per second: an average
    /// per-thread rate, not a wall-clock rate over all threads together. `None`
    /// when no time was measured, or when the operation count times
    /// `NANOS_PER_SECOND` does not fit in a `u128`.
    pub fn ops_per_second_per_thread(&self) -> (r: Option<u128>)
        ensures
            r is Some <==> (self.elapsed_nanos > 0 && self.ops_spec() * NANOS_PER_SECOND
                <= u128::MAX),
            r matches Some(v) ==> v == (self.ops_spec() * NANOS_PER_SECOND) / (
            self.elapsed_nanos as int),
    {
        if self.elapsed_nanos == 0 {
            return None;
        }
        match self.total_ops() {
            None => {
                assert(self.ops_spec() * NANOS_PER_SECOND > u128::MAX) by (nonlinear_arith)
                    requires
                        self.ops_spec() > u128::MAX,
                ;
                None
            },
            Some(ops) => {
                if ops > u128::MAX / NANOS_PER_SECOND {
                    assert(ops * NANOS_PER_SECOND > u128::MAX) by (nonlinear_arith)
                        requires
                            ops > u128::MAX / NANOS_PER_SECOND,
                    ;
                    None
                } else {
                    assert(ops * NANOS_PER_SECOND <= u128::MAX) by (nonlinear_arith)
                        requires
                            ops <= u128::MAX / NANOS_PER_SECOND,
                    ;
                    Some((ops * NANOS_PER_SECOND) / self.elapsed_nanos)
                }
            },
        }
    }
}

/// One worker's progress over its claimed ranges: the walk over the current
/// range and the operations counted so far. Each step yields one index and
/// counts the one operation executed at it, so the count always equals the
/// indices walked.
pub struct WorkerTally {
    pub walk: ChunkWalk,
    pub counts: WorkerCounts,
    /// Indices of all the ranges begun so far, each clipped to its bound.
    pub claimed: Ghost<int>,
}

impl WorkerTally {
    pub open spec fn wf(&self) -> bool {
        self.counts.total_spec() == self.claimed@ - self.walk.remaining()
    }

    /// Whether the current range has all been walked.
    pub open spec fn done_spec(&self) -> bool {
        self.walk.remaining() == 0
    }

    /// No range begun, nothing counted.
    pub fn new() -> (r: WorkerTally)
        ensures
            r.wf(),
            r.done_spec(),
            r.claimed@ == 0,
            r.counts == (WorkerCounts { reads: 0, upserts: 0, rmws: 0 }),
    {
        WorkerTally {
            walk: ChunkWalk { next: 0, end: 0 },
            counts: WorkerCounts::new(),
            claimed: Ghost(0),
        }
    }

    /// Whether an index of the current range is still to be walked.
    pub fn has_next(&self) -> (r: bool)
        ensures
            r == !self.done_spec(),
    {
        self.walk.next < self.walk.end
    }

    /// Begins the walk over a newly claimed range, once the current one is done.
    pub fn begin(&mut self, walk: ChunkWalk)
        requires
            old(self).wf(),
            old(self).done_spec(),
        ensures
            final(self).wf(),
            final(self).walk == walk,
            final(self).counts == old(self).counts,
            final(self).claimed@ == old(self).claimed@ + walk.remaining(),
    {
        self.walk = walk;
        self.claimed = Ghost(self.claimed@ + walk.remaining());
    }

    /// Yields the next index of the current range with its epoch duty, and
    /// counts `op` as the operation executed at it.
    pub fn step(&mut self, op: Operation) -> (r: (usize, EpochDuty))
        requires
            old(self).wf(),
            !old(self).done_spec(),
            old(self).counts.total_spec() < u64::MAX,
        ensures
            final(self).wf(),
            r == (old(self).walk.next, epoch_duty_spec(old(self).walk.next as int)),
            final(self).walk.next == old(self).walk.next + 1,
            final(self).walk.end == old(self).walk.end,
            final(self).claimed@ == old(self).claimed@,
            final(self).counts.reads == old(self).counts.reads + (if op == Operation::Read {
                1int
            } else {
                0
            }),
            final(self).counts.upserts == old(self).counts.upserts + (if op == Operation::Upsert {
                1int
            } else {
                0
            }),
            final(self).counts.rmws == old(self).counts.rmws + (if op == Operation::Rmw {
                1int
            } else {
                0
            }),
    {
        let r = self.walk.step();
        self.counts.record(op);
        r.unwrap()
    }
}

pub open spec fn sum_claimed(ts: Seq<WorkerTally>) -> int
    decreases ts.len(),
{
    if ts.len() == 0 {
        0
    } else {
        sum_claimed(ts.drop_last()) + ts.last().claimed@
    }
}

/// Counter conservation: when the workers have walked all their ranges, the
/// ranges they claimed together are the claims up to exhaustion (any `k` with
/// `k * chunk >= n`), and each worker reports its tally's counts, the reads,
/// upserts and rmws summed over all reports come to exactly `n`.
pub proof fn lemma_counter_conservation(
    tallies: Seq<WorkerTally>,
    reports: Seq<WorkerReport>,
    k: nat,
    chunk: int,
    n: int,
)
    requires
        chunk > 0,
        n >= 0,
        crate::partition::claim_start(k as int, chunk) >= n,
        reports.len() == tallies.len(),
        forall|i: int|
            0 <= i < tallies.len() ==> #[trigger] tallies[i].wf() && tallies[i].done_spec()
                && reports[i].counts == tallies[i].counts,
        sum_claimed(tallies) == crate::partition::covered(k, chunk, n),
    ensures
        sum_reads(reports) + sum_upserts(reports) + sum_rmws(reports) == n,
{
    lemma_totals_match_claims(tallies, reports);
    crate::partition::lemma_claims_cover_exactly(k, chunk, n);
}

proof fn lemma_totals_match_claims(tallies: Seq<WorkerTally>, reports: Seq<WorkerReport>)
    requires
        reports.len() == tallies.len(),
        forall|i: int|
            0 <= i < tallies.len() ==> #[trigger] tallies[i].wf() && tallies[i].done_spec()
                && reports[i].counts == tallies[i].counts,
    ensures
        sum_reads(reports) + sum_upserts(reports) + sum_rmws(reports) == sum_claimed(tallies),
    decreases tallies.len(),
{
    if tallies.len() > 0 {
        let last = tallies.len() - 1;
        assert(tallies[last].wf());
        assert forall|i: int| 0 <= i < tallies.drop_last().len() implies #[trigger] tallies.drop_last()[i].wf()
            && tallies.drop_last()[i].done_spec() && reports.drop_last()[i].counts
            == tallies.drop_last()[i].counts by {
            assert(tallies[i].wf());
        }
        lemma_totals_match_claims(tallies.drop_last(), reports.drop_last());
    }
}

} // verus!
