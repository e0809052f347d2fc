use snippets::pool::{Claim, Pool, PoolError, WorkerState};

#[test]
fn pool_of_each_size_has_that_many_workers() {
    for size in 1..6usize {
        let p = Pool::new(size).unwrap();
        assert_eq!(p.worker_count(), size);
        for w in 0..size {
            assert_eq!(p.worker_state(w), WorkerState::Idle);
        }
        assert!(p.accepting());
        assert_eq!(p.pending_count(), 0);
        assert_eq!(p.completed_count(), 0);
    }
}

#[test]
fn zero_size_is_a_configuration_error() {
    match Pool::new(0) {
        Err(e) => assert_eq!(e, PoolError::InvalidConfiguration),
        Ok(_) => panic!("a pool of size zero must be refused"),
    }
}

#[test]
fn each_job_runs_exactly_once_on_exactly_one_worker() {
    let mut p = Pool::new(2).unwrap();
    let t0 = p.submit();
    let t1 = p.submit();
    let t2 = p.submit();

    assert_eq!(p.claim(0), Claim::Job(t0));
    assert_eq!(p.claim(1), Claim::Job(t1));
    assert_eq!(p.worker_state(0), WorkerState::Running(t0));
    assert_eq!(p.worker_state(1), WorkerState::Running(t1));

    p.finish(1, true);
    p.finish(0, true);
    assert_eq!(p.claim(1), Claim::Job(t2));
    p.finish(1, true);

    assert_eq!(p.completed_count(), 3);
    assert!(p.has_completed(t0));
    assert!(p.has_completed(t1));
    assert!(p.has_completed(t2));
    assert_eq!(p.pending_count(), 0);
}

#[test]
fn counter_of_trivial_jobs_reaches_size_times_k() {
    let size: usize = 3;
    let k: usize = 4;
    let mut p = Pool::new(size).unwrap();
    let mut tickets = Vec::new();
    for _ in 0..size * k {
        tickets.push(p.submit());
    }
    p.shutdown();
    let mut counter: u64 = 0;
    for t in &tickets {
        if p.has_completed(*t) {
            counter += 1;
        }
    }
    assert_eq!(counter, (size * k) as u64);
    assert_eq!(p.completed_count(), size * k);
}

#[test]
fn shutdown_waits_for_submitted_jobs() {
    let mut p = Pool::new(2).unwrap();
    let t = p.submit();
    assert!(!p.has_completed(t));
    p.shutdown();
    assert!(p.has_completed(t));
    assert!(!p.accepting());
    assert_eq!(p.pending_count(), 0);
    assert_eq!(p.worker_state(0), WorkerState::Stopped);
    assert_eq!(p.worker_state(1), WorkerState::Stopped);
}

#[test]
fn failed_job_kills_only_its_worker() {
    let mut p = Pool::new(2).unwrap();
    let t0 = p.submit();
    assert_eq!(p.claim(0), Claim::Job(t0));
    p.finish(0, false);
    assert_eq!(p.worker_state(0), WorkerState::Failed);
    assert_eq!(p.worker_state(1), WorkerState::Idle);

    let t1 = p.submit();
    let t2 = p.submit();
    p.shutdown();
    assert!(!p.has_completed(t0));
    assert!(p.has_completed(t1));
    assert!(p.has_completed(t2));
    assert_eq!(p.worker_state(0), WorkerState::Failed);
    assert_eq!(p.worker_state(1), WorkerState::Stopped);
}

#[test]
fn claims_block_or_stop_on_an_empty_queue() {
    let mut p = Pool::new(1).unwrap();
    assert_eq!(p.claim(0), Claim::Blocked);
    assert_eq!(p.worker_state(0), WorkerState::Idle);
    p.close();
    assert!(!p.accepting());
    assert_eq!(p.claim(0), Claim::Closed);
    assert_eq!(p.worker_state(0), WorkerState::Stopped);
}

#[test]
fn jobs_are_claimed_in_submission_order() {
    let mut p = Pool::new(1).unwrap();
    let t0 = p.submit();
    let t1 = p.submit();
    let t2 = p.submit();
    assert_eq!(p.claim(0), Claim::Job(t0));
    p.finish(0, true);
    assert_eq!(p.claim(0), Claim::Job(t1));
    p.finish(0, true);
    assert_eq!(p.claim(0), Claim::Job(t2));
    p.finish(0, true);
    assert_eq!(p.claim(0), Claim::Blocked);
}

#[test]
fn shutdown_with_no_live_worker_discards_the_queue() {
    let mut p = Pool::new(1).unwrap();
    let t0 = p.submit();
    let t1 = p.submit();
    assert_eq!(p.claim(0), Claim::Job(t0));
    p.finish(0, false);
    p.shutdown();
    assert_eq!(p.pending_count(), 0);
    assert!(!p.has_completed(t0));
    assert!(!p.has_completed(t1));
    assert_eq!(p.worker_state(0), WorkerState::Failed);
}

#[test]
fn shutdown_finishes_the_job_a_worker_is_running() {
    let mut p = Pool::new(2).unwrap();
    let t0 = p.submit();
    let t1 = p.submit();
    assert_eq!(p.claim(0), Claim::Job(t0));
    assert_eq!(p.worker_state(0), WorkerState::Running(t0));
    p.shutdown();
    assert!(p.has_completed(t0));
    assert!(p.has_completed(t1));
    assert_eq!(p.worker_state(0), WorkerState::Stopped);
    assert_eq!(p.worker_state(1), WorkerState::Stopped);
    assert_eq!(p.pending_count(), 0);
}

#[test]
fn a_lone_running_worker_still_drains_the_queue_at_shutdown() {
    let mut p = Pool::new(2).unwrap();
    let t0 = p.submit();
    assert_eq!(p.claim(0), Claim::Job(t0));
    p.finish(0, false);
    let t1 = p.submit();
    let t2 = p.submit();
    assert_eq!(p.claim(1), Claim::Job(t1));
    p.shutdown();
    assert!(!p.has_completed(t0));
    assert!(p.has_completed(t1));
    assert!(p.has_completed(t2));
    assert_eq!(p.worker_state(0), WorkerState::Failed);
    assert_eq!(p.worker_state(1), WorkerState::Stopped);
}
