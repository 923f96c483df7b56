//! The lifecycle of one worker thread, as a state machine: the driver runs
//! the outside work (binding, session, barrier, draining) and hands each
//! outcome back as an event.
use vstd::prelude::*;

verus! {

/// Where a worker stands in its lifecycle.
#[derive(Clone, Copy, Debug, PartialEq, Eq, Structural)]
pub enum WorkerPhase {
    Idle,
    Binding,
    Sessioned,
    BarrierWait,
    Looping,
    Draining,
    Closed,
}

/// What the driver reports back to a worker's state machine.
#[derive(Clone, Copy, Debug, PartialEq, Eq, Structural)]
pub enum WorkerEvent {
    /// The thread has started.
    Started,
    /// The thread is bound to its core.
    Bound,
    /// The store session is open.
    SessionOpened,
    /// Every worker has reached the start barrier.
    BarrierReleased,
    /// A claim started at or past the phase bound.
    Exhausted,
    /// The blocking drain of pending operations has returned.
    Drained,
}

pub open spec fn next_phase_spec(phase: WorkerPhase, event: WorkerEvent, synchronized: bool) -> Option<
    WorkerPhase,
> {
    match (phase, event) {
        (WorkerPhase::Idle, WorkerEvent::Started) => Some(WorkerPhase::Binding),
        (WorkerPhase::Binding, WorkerEvent::Bound) => Some(WorkerPhase::Sessioned),
        (WorkerPhase::Sessioned, WorkerEvent::SessionOpened) => Some(
            if synchronized {
                WorkerPhase::BarrierWait
            } else {
                WorkerPhase::Looping
            },
        ),
        (WorkerPhase::BarrierWait, WorkerEvent::BarrierReleased) => Some(WorkerPhase::Looping),
        (WorkerPhase::Looping, WorkerEvent::Exhausted) => Some(WorkerPhase::Draining),
        (WorkerPhase::Draining, WorkerEvent::Drained) => Some(WorkerPhase::Closed),
        _ => None,
    }
}

/// The phase that `event` moves a worker in `phase` to; `None` when the event
/// cannot come in that phase. A `synchronized` worker (the transaction phase)
/// waits at the start barrier once its session is open; a population worker
/// starts looping at once.
pub fn next_phase(phase: WorkerPhase, event: WorkerEvent, synchronized: bool) -> (r: Option<
    WorkerPhase,
>)
    ensures
        r == next_phase_spec(phase, event, synchronized),
{
    match (phase, event) {
        (WorkerPhase::Idle, WorkerEvent::Started) => Some(WorkerPhase::Binding),
        (WorkerPhase::Binding, WorkerEvent::Bound) => Some(WorkerPhase::Sessioned),
        (WorkerPhase::Sessioned, WorkerEvent::SessionOpened) => Some(
            if synchronized {
                WorkerPhase::BarrierWait
            } else {
                WorkerPhase::Looping
            },
        ),
        (WorkerPhase::BarrierWait, WorkerEvent::BarrierReleased) => Some(WorkerPhase::Looping),
        (WorkerPhase::Looping, WorkerEvent::Exhausted) => Some(WorkerPhase::Draining),
        (WorkerPhase::Draining, WorkerEvent::Drained) => Some(WorkerPhase::Closed),
        _ => None,
    }
}

/// A worker's session closes only from the draining phase, once the blocking
/// drain has returned; and it is bound to its core before its session opens.
pub proof fn lemma_close_only_after_drain(phase: WorkerPhase, event: WorkerEvent, synchronized: bool)
    ensures
        next_phase_spec(phase, event, synchronized) == Some(WorkerPhase::Closed) ==> phase
            == WorkerPhase::Draining && event == WorkerEvent::Drained,
        next_phase_spec(phase, event, synchronized) == Some(WorkerPhase::Sessioned) ==> phase
            == WorkerPhase::Binding && event == WorkerEvent::Bound,
{
}

} // verus!
