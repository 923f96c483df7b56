use benchmark::partition::WorkCursor;
use benchmark::worker::{CHUNK_SIZE, INIT_COUNT, TXN_COUNT};
use benchmark::{
    aggregate, core_for_worker, epoch_duty, next_phase, read_100, read_upsert5050,
    read_upsert_from_draw, rmw_100, upsert_100, ChunkWalk, EpochDuty, Operation, RunTotals,
    WorkerCounts, WorkerEvent, WorkerPhase, WorkerReport, WorkerTally,
};

/// Runs one phase the way the driver does, with `workers` claimants taking
/// turns on one cursor; returns each worker's counts and the indices it walked.
fn simulate_phase(
    n: usize,
    chunk: usize,
    workers: usize,
    policy: fn(rand::rngs::ThreadRng) -> Operation,
) -> (Vec<WorkerCounts>, Vec<Vec<usize>>) {
    let mut cursor = WorkCursor::new(chunk);
    let mut tallies: Vec<WorkerTally> = (0..workers).map(|_| WorkerTally::new()).collect();
    let mut walked = vec![Vec::new(); workers];
    let mut active = vec![true; workers];
    let rng = rand::thread_rng();
    while active.iter().any(|a| *a) {
        for w in 0..workers {
            if !active[w] {
                continue;
            }
            let (start, end) = cursor.claim_chunk().unwrap();
            match ChunkWalk::from_claim(start, end, n) {
                None => active[w] = false,
                Some(walk) => {
                    tallies[w].begin(walk);
                    while tallies[w].has_next() {
                        let (i, _duty) = tallies[w].step(policy(rng));
                        walked[w].push(i);
                    }
                }
            }
        }
    }
    (tallies.iter().map(|t| t.counts).collect(), walked)
}

#[test]
fn fixed_policies_ignore_the_draw() {
    let rng = rand::thread_rng();
    for _ in 0..1000 {
        assert_eq!(rmw_100(rng), Operation::Rmw);
        assert_eq!(upsert_100(rng), Operation::Upsert);
        assert_eq!(read_100(rng), Operation::Read);
    }
}

#[test]
fn even_mix_maps_each_flip() {
    assert_eq!(read_upsert_from_draw(true), Operation::Read);
    assert_eq!(read_upsert_from_draw(false), Operation::Upsert);
}

#[test]
fn even_mix_converges_to_half_reads() {
    let rng = rand::thread_rng();
    let k = 200000;
    let mut reads = 0usize;
    for _ in 0..k {
        match read_upsert5050(rng) {
            Operation::Read => reads += 1,
            Operation::Upsert => {}
            Operation::Rmw => panic!("the even mix never picks a read-modify-write"),
        }
    }
    let fraction = reads as f64 / k as f64;
    assert!((fraction - 0.5).abs() < 0.01, "fraction of reads {}", fraction);
}

#[test]
fn claims_partition_the_index_range() {
    for &(n, chunk, workers) in &[(1000usize, 100usize, 4usize), (1001, 100, 3), (7, 3, 5), (0, 4, 2)] {
        let (_counts, walked) = simulate_phase(n, chunk, workers, upsert_100);
        let mut seen = vec![0usize; n];
        for list in &walked {
            for w in list.windows(2) {
                assert!(w[0] < w[1]);
            }
            for &i in list {
                assert!(i < n);
                seen[i] += 1;
            }
        }
        assert!(seen.iter().all(|c| *c == 1));
    }
}

#[test]
fn claims_are_consecutive_chunks() {
    let mut cursor = WorkCursor::new(100);
    assert_eq!(cursor.claim_chunk(), Some((0, 100)));
    assert_eq!(cursor.claim_chunk(), Some((100, 200)));
    assert_eq!(cursor.claim_chunk(), Some((200, 300)));
    assert_eq!(cursor.next, 300);
}

#[test]
fn exhaustion_is_permanent() {
    let n = 250;
    let mut cursor = WorkCursor::new(100);
    let mut exhausted = false;
    for _ in 0..20 {
        let (start, _end) = cursor.claim_chunk().unwrap();
        if exhausted {
            assert!(start >= n);
        }
        if start >= n {
            exhausted = true;
        }
    }
    assert!(exhausted);
}

#[test]
fn cursor_refuses_a_range_past_usize() {
    let mut cursor = WorkCursor::new(CHUNK_SIZE);
    cursor.next = usize::MAX - 10;
    assert_eq!(cursor.claim_chunk(), None);
    assert_eq!(cursor.next, usize::MAX - 10);
}

#[test]
fn last_chunk_is_clipped_to_the_bound() {
    let mut walk = ChunkWalk::from_claim(900, 1000, 950).unwrap();
    let mut yielded = Vec::new();
    while let Some((i, _)) = walk.step() {
        yielded.push(i);
    }
    assert_eq!(yielded, (900..950).collect::<Vec<usize>>());
    assert_eq!(ChunkWalk::from_claim(1000, 1100, 1000), None);
    assert_eq!(benchmark::clip_to_bound(900, 1000, 950), (900, 950));
    assert_eq!(benchmark::clip_to_bound(1000, 1100, 950), (950, 950));
}

#[test]
fn epoch_cadence() {
    assert_eq!(epoch_duty(0), EpochDuty::RefreshAndDrain);
    assert_eq!(epoch_duty(1), EpochDuty::Nothing);
    assert_eq!(epoch_duty(63), EpochDuty::Nothing);
    assert_eq!(epoch_duty(64), EpochDuty::Refresh);
    assert_eq!(epoch_duty(128), EpochDuty::Refresh);
    assert_eq!(epoch_duty(1600), EpochDuty::RefreshAndDrain);
    assert_eq!(epoch_duty(1601), EpochDuty::Nothing);
    assert_eq!(epoch_duty(3200), EpochDuty::RefreshAndDrain);
    let mut walk = ChunkWalk::from_claim(0, 3200, 10000).unwrap();
    let mut refreshes = 0;
    let mut drains = 0;
    while let Some((_, duty)) = walk.step() {
        match duty {
            EpochDuty::Refresh => refreshes += 1,
            EpochDuty::RefreshAndDrain => {
                refreshes += 1;
                drains += 1
            }
            EpochDuty::Nothing => {}
        }
    }
    assert_eq!(refreshes, 50);
    assert_eq!(drains, 2);
}

#[test]
fn counters_record_by_kind() {
    let mut c = WorkerCounts::new();
    c.record(Operation::Read);
    c.record(Operation::Read);
    c.record(Operation::Upsert);
    c.record(Operation::Rmw);
    assert_eq!(c, WorkerCounts { reads: 2, upserts: 1, rmws: 1 });
    assert_eq!(c.total(), 4);
}

#[test]
fn counters_add_up_to_the_operation_count() {
    let (counts, _) = simulate_phase(5000, 300, 3, read_upsert5050);
    let reports: Vec<WorkerReport> =
        counts.iter().map(|c| WorkerReport { counts: *c, elapsed_nanos: 1 }).collect();
    let t = aggregate(&reports).unwrap();
    assert_eq!(t.reads + t.upserts + t.rmws, 5000);
    assert_eq!(t.rmws, 0);
    assert_eq!(t.elapsed_nanos, 3);
}

#[test]
fn end_to_end_upsert_only() {
    let (load_counts, _) = simulate_phase(1000, 100, 4, upsert_100);
    let loaded: u128 = load_counts.iter().map(|c| c.total()).sum();
    assert_eq!(loaded, 1000);
    assert!(load_counts.iter().all(|c| c.reads == 0 && c.rmws == 0));

    let (run_counts, _) = simulate_phase(5000, 100, 4, upsert_100);
    let reports: Vec<WorkerReport> = run_counts
        .iter()
        .map(|c| WorkerReport { counts: *c, elapsed_nanos: 2_500_000_000 })
        .collect();
    let t = aggregate(&reports).unwrap();
    assert_eq!((t.reads, t.upserts, t.rmws), (0, 5000, 0));
    assert_eq!(t.elapsed_nanos, 10_000_000_000);
    assert_eq!(t.ops_per_second_per_thread(), Some(500));
}

#[test]
fn throughput_counts_fractional_thread_seconds() {
    let t = RunTotals { reads: 700, upserts: 200, rmws: 100, elapsed_nanos: 3_999_999_999 };
    assert_eq!(t.total_ops(), Some(1000));
    assert_eq!(t.ops_per_second_per_thread(), Some(250));
    let t = RunTotals { reads: 0, upserts: 5000, rmws: 0, elapsed_nanos: 1_500_000_000 };
    assert_eq!(t.ops_per_second_per_thread(), Some(3333));
    let short = RunTotals { reads: 10, upserts: 0, rmws: 0, elapsed_nanos: 500_000_000 };
    assert_eq!(short.ops_per_second_per_thread(), Some(20));
    let none = RunTotals { reads: 10, upserts: 0, rmws: 0, elapsed_nanos: 0 };
    assert_eq!(none.ops_per_second_per_thread(), None);
    let huge = RunTotals { reads: u128::MAX, upserts: 1, rmws: 0, elapsed_nanos: 5_000_000_000 };
    assert_eq!(huge.total_ops(), None);
    assert_eq!(huge.ops_per_second_per_thread(), None);
}

#[test]
fn aggregate_of_nothing_is_zero() {
    let t = aggregate(&Vec::new()).unwrap();
    assert_eq!(t, RunTotals { reads: 0, upserts: 0, rmws: 0, elapsed_nanos: 0 });
}

#[test]
fn aggregate_reports_overflow() {
    let c = WorkerCounts::new();
    let reports = vec![
        WorkerReport { counts: c, elapsed_nanos: u128::MAX },
        WorkerReport { counts: c, elapsed_nanos: 1 },
    ];
    assert_eq!(aggregate(&reports), None);
}

#[test]
fn workers_are_dealt_round_the_cores() {
    assert_eq!(core_for_worker(0, 4), Some(0));
    assert_eq!(core_for_worker(5, 4), Some(1));
    assert_eq!(core_for_worker(3, 1), Some(0));
    assert_eq!(core_for_worker(3, 0), None);
}

#[test]
fn worker_lifecycle() {
    let mut p = WorkerPhase::Idle;
    for e in [
        WorkerEvent::Started,
        WorkerEvent::Bound,
        WorkerEvent::SessionOpened,
        WorkerEvent::BarrierReleased,
        WorkerEvent::Exhausted,
        WorkerEvent::Drained,
    ] {
        p = next_phase(p, e, true).unwrap();
    }
    assert_eq!(p, WorkerPhase::Closed);
    assert_eq!(next_phase(WorkerPhase::Sessioned, WorkerEvent::SessionOpened, false), Some(WorkerPhase::Looping));
    assert_eq!(next_phase(WorkerPhase::Looping, WorkerEvent::Drained, true), None);
    assert_eq!(next_phase(WorkerPhase::Binding, WorkerEvent::SessionOpened, true), None);
}

#[test]
fn phase_sizes() {
    assert_eq!(INIT_COUNT, 250_000_000);
    assert_eq!(TXN_COUNT, 1_000_000_000);
}

#[test]
fn tally_counts_each_walked_index_once() {
    let mut t = WorkerTally::new();
    assert!(!t.has_next());
    t.begin(ChunkWalk::from_claim(62, 66, 65).unwrap());
    assert_eq!(t.step(Operation::Read), (62, EpochDuty::Nothing));
    assert_eq!(t.step(Operation::Upsert), (63, EpochDuty::Nothing));
    assert_eq!(t.step(Operation::Rmw), (64, EpochDuty::Refresh));
    assert!(!t.has_next());
    assert_eq!(t.counts, WorkerCounts { reads: 1, upserts: 1, rmws: 1 });
    t.begin(ChunkWalk::from_claim(1600, 1700, 10000).unwrap());
    assert_eq!(t.step(Operation::Read), (1600, EpochDuty::RefreshAndDrain));
    assert_eq!(t.counts.total(), 4);
}
