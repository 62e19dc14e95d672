//! The persistent worker pool: long-lived workers, reused across many
//! generations, coordinated by a pair of rendezvous barriers and the shared
//! job cursor of the dynamic queue.
//!
//! The barrier waits, the spawning and the joining are thread plumbing that a
//! driver supplies; everything the pool decides or computes is here: the
//! worker state machine with its distinguishable shutdown transition, the
//! per-generation chunk work, and the double-buffer swap the controller
//! performs after the generation-end rendezvous.

use crate::game_of_life::{grid_ok, successor};
use crate::implementations::workers::step_workers;
use vstd::prelude::*;

verus! {

/// The run state of one persistent worker thread.
#[derive(Clone, Copy, PartialEq, Eq, Structural, Debug)]
pub enum WorkerPhase {
    /// Blocked on the generation-start rendezvous.
    WaitStart,
    /// Claiming and computing chunks of the current generation.
    Processing,
    /// Blocked on the generation-end rendezvous.
    WaitEnd,
    /// Exited its loop; the thread is ready to be joined.
    Terminated,
}

/// What the controller publishes before releasing the generation-start
/// rendezvous: run one more generation, or shut down.
#[derive(Clone, Copy, PartialEq, Eq, Structural, Debug)]
pub enum PoolSignal {
    Go,
    Shutdown,
}

/// What a worker observes at its synchronization points.
#[derive(Clone, Copy, PartialEq, Eq, Structural, Debug)]
pub enum PoolEvent {
    /// The generation-start rendezvous released it, with the published signal.
    StartReleased(PoolSignal),
    /// The job cursor reached the end of the index space.
    CursorExhausted,
    /// The generation-end rendezvous released it.
    EndReleased,
}

/// The worker state machine: WAIT_START -> PROCESSING -> WAIT_END ->
/// WAIT_START -> ... with shutdown as the distinguishable terminal
/// transition. A pairing that the protocol never produces changes nothing.
pub open spec fn worker_phase_after(phase: WorkerPhase, event: PoolEvent) -> WorkerPhase {
    match (phase, event) {
        (WorkerPhase::WaitStart, PoolEvent::StartReleased(PoolSignal::Go)) => WorkerPhase::Processing,
        (WorkerPhase::WaitStart, PoolEvent::StartReleased(PoolSignal::Shutdown)) => WorkerPhase::Terminated,
        (WorkerPhase::Processing, PoolEvent::CursorExhausted) => WorkerPhase::WaitEnd,
        (WorkerPhase::WaitEnd, PoolEvent::EndReleased) => WorkerPhase::WaitStart,
        (p, _) => p,
    }
}

/// Advances a worker's phase on one observed event; the driver's worker loop
/// consults this after every barrier release and cursor exhaustion.
pub fn worker_transition(phase: WorkerPhase, event: PoolEvent) -> (next: WorkerPhase)
    ensures
        next == worker_phase_after(phase, event),
{
    match (phase, event) {
        (WorkerPhase::WaitStart, PoolEvent::StartReleased(PoolSignal::Go)) => WorkerPhase::Processing,
        (WorkerPhase::WaitStart, PoolEvent::StartReleased(PoolSignal::Shutdown)) => WorkerPhase::Terminated,
        (WorkerPhase::Processing, PoolEvent::CursorExhausted) => WorkerPhase::WaitEnd,
        (WorkerPhase::WaitEnd, PoolEvent::EndReleased) => WorkerPhase::WaitStart,
        (p, _) => p,
    }
}

/// One generation is one full cycle: a waiting worker that is released with
/// the go signal processes, waits for the end rendezvous, and is back
/// waiting for the next start, so the pool can run any number of
/// generations before the terminal transition.
pub proof fn lemma_generation_cycle()
    ensures
        worker_phase_after(
            worker_phase_after(
                worker_phase_after(WorkerPhase::WaitStart, PoolEvent::StartReleased(PoolSignal::Go)),
                PoolEvent::CursorExhausted,
            ),
            PoolEvent::EndReleased,
        ) == WorkerPhase::WaitStart,
{
}

/// After teardown no worker remains runnable: the shutdown release moves a
/// waiting worker to the terminated phase, and a terminated worker stays
/// terminated whatever event follows.
pub proof fn lemma_shutdown_is_terminal(event: PoolEvent)
    ensures
        worker_phase_after(
            WorkerPhase::WaitStart,
            PoolEvent::StartReleased(PoolSignal::Shutdown),
        ) == WorkerPhase::Terminated,
        worker_phase_after(WorkerPhase::Terminated, event) == WorkerPhase::Terminated,
{
}

/// The constants a pool is created with: worker count, chunk size and the
/// grid dimensions its buffers were sized for.
pub struct PoolConfig {
    pub num_threads: usize,
    pub chunk_size: usize,
    pub width: usize,
    pub height: usize,
}

impl PoolConfig {
    /// A pool needs at least one worker and a positive chunk size, and the
    /// dimensions must be addressable as signed offsets.
    pub open spec fn wf(self) -> bool {
        &&& 1 <= self.num_threads
        &&& 1 <= self.chunk_size
        &&& self.width <= isize::MAX
        &&& self.height <= isize::MAX
    }
}

/// One pool generation as the controller observes it: the released workers
/// drain the job cursor chunk by chunk into the next buffer, and after the
/// generation-end rendezvous the controller swaps the two buffers under both
/// locks. Afterwards the current buffer holds the successor generation and
/// the next buffer holds the old one.
pub fn step_pool(cfg: &PoolConfig, curr_buffer: &mut Vec<u8>, next_buffer: &mut Vec<u8>)
    requires
        cfg.wf(),
        old(curr_buffer)@.len() == cfg.width * cfg.height,
        old(next_buffer)@.len() == cfg.width * cfg.height,
        grid_ok(old(curr_buffer)@),
    ensures
        final(curr_buffer)@ == successor(old(curr_buffer)@, cfg.width as int, cfg.height as int),
        final(next_buffer)@ == old(curr_buffer)@,
        grid_ok(final(curr_buffer)@),
{
    step_workers(
        curr_buffer,
        next_buffer,
        cfg.num_threads,
        cfg.chunk_size,
        cfg.width,
        cfg.height,
    );
    core::mem::swap(curr_buffer, next_buffer);
}

} // verus!
