//! Driver core of a multi-threaded key-value store benchmark: work
//! partitioning, the epoch cooperation cadence, operation mix policies,
//! per-worker counters, throughput, and the key file formats.
pub mod affinity;
pub mod keys;
pub mod lifecycle;
pub mod operation;
pub mod partition;
pub mod worker;
pub mod ycsb;

pub use affinity::core_for_worker;
pub use keys::{decode_keys, encode_keys, load_keys, sequential_key, workload_key_count, LoadError};
pub use lifecycle::{next_phase, WorkerEvent, WorkerPhase};
pub use operation::{read_100, read_upsert5050, read_upsert_from_draw, rmw_100, upsert_100, Operation};
pub use partition::{clip_to_bound, WorkCursor};
pub use worker::{aggregate, epoch_duty, ChunkWalk, EpochDuty, RunTotals, WorkerCounts, WorkerReport,
    WorkerTally};
pub use ycsb::{parse_decimal, ycsb_line_keys, YcsbError};
