use life_engine::implementations::pool::{worker_transition, PoolEvent, PoolSignal, WorkerPhase};
use life_engine::implementations::workers::claim_chunk;

#[test]
fn worker_cycles_through_a_generation() {
    let phase = WorkerPhase::WaitStart;
    let phase = worker_transition(phase, PoolEvent::StartReleased(PoolSignal::Go));
    assert_eq!(phase, WorkerPhase::Processing);
    let phase = worker_transition(phase, PoolEvent::CursorExhausted);
    assert_eq!(phase, WorkerPhase::WaitEnd);
    let phase = worker_transition(phase, PoolEvent::EndReleased);
    assert_eq!(phase, WorkerPhase::WaitStart);
}

#[test]
fn shutdown_terminates_a_waiting_worker() {
    let phase = worker_transition(
        WorkerPhase::WaitStart,
        PoolEvent::StartReleased(PoolSignal::Shutdown),
    );
    assert_eq!(phase, WorkerPhase::Terminated);
}

#[test]
fn terminated_workers_never_run_again() {
    for event in [
        PoolEvent::StartReleased(PoolSignal::Go),
        PoolEvent::StartReleased(PoolSignal::Shutdown),
        PoolEvent::CursorExhausted,
        PoolEvent::EndReleased,
    ] {
        assert_eq!(
            worker_transition(WorkerPhase::Terminated, event),
            WorkerPhase::Terminated
        );
    }
}

#[test]
fn unmatched_events_change_nothing() {
    assert_eq!(
        worker_transition(WorkerPhase::Processing, PoolEvent::EndReleased),
        WorkerPhase::Processing
    );
    assert_eq!(
        worker_transition(WorkerPhase::WaitEnd, PoolEvent::CursorExhausted),
        WorkerPhase::WaitEnd
    );
}

#[test]
fn claiming_chunks_partitions_the_index_space() {
    assert_eq!(claim_chunk(0, 3, 10), Some((0, 3)));
    assert_eq!(claim_chunk(3, 3, 10), Some((3, 6)));
    assert_eq!(claim_chunk(9, 3, 10), Some((9, 10)));
    assert_eq!(claim_chunk(10, 3, 10), None);
    assert_eq!(claim_chunk(0, 100, 10), Some((0, 10)));
    assert_eq!(claim_chunk(0, 1, 1), Some((0, 1)));
    assert_eq!(claim_chunk(1, 1, 1), None);
}
