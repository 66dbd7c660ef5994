use webserver::dispatch::{Dispatcher, Message, PoolError, SubmitError, WorkerState};

fn pool(size: usize) -> Dispatcher {
    match Dispatcher::new(size) {
        Ok(d) => d,
        Err(e) => panic!("pool of size {} refused: {:?}", size, e),
    }
}

/// Runs every worker until the queue is drained and all have stopped,
/// counting how often each job ran.
fn drive_to_end(d: &mut Dispatcher, counts: &mut Vec<u32>) {
    let mut progress = true;
    while progress {
        progress = false;
        for w in 0..d.size() {
            if d.is_idle(w) {
                match d.take_next(w) {
                    Some(Message::NewJob(j)) => {
                        counts[j as usize] += 1;
                        assert_eq!(d.finish_job(w), Some(j));
                        progress = true;
                    }
                    Some(Message::Terminate) => progress = true,
                    None => {}
                }
            }
        }
    }
}

#[test]
fn new_zero_is_configuration_error() {
    assert!(matches!(Dispatcher::new(0), Err(PoolError::ConfigurationError)));
}

#[test]
fn new_has_that_many_idle_workers() {
    for n in 1..6 {
        let d = pool(n);
        assert_eq!(d.size(), n);
        for w in 0..n {
            assert_eq!(d.state_of(w), Some(WorkerState::Idle));
        }
        assert_eq!(d.state_of(n), None);
        assert_eq!(d.pending(), 0);
    }
}

#[test]
fn every_job_runs_exactly_once() {
    for n in 1..5 {
        for k in 0..12u64 {
            let mut d = pool(n);
            let mut counts = vec![0u32; k as usize];
            for j in 0..k {
                assert_eq!(d.submit(), Ok(j));
            }
            // let the workers start on some of the jobs before shutdown
            if d.is_idle(0) {
                if let Some(Message::NewJob(j)) = d.take_next(0) {
                    counts[j as usize] += 1;
                    assert_eq!(d.finish_job(0), Some(j));
                }
            }
            d.begin_shutdown();
            drive_to_end(&mut d, &mut counts);
            for w in 0..n {
                assert_eq!(d.state_of(w), Some(WorkerState::Terminated));
            }
            assert_eq!(d.pending(), 0);
            assert!(counts.iter().all(|c| *c == 1));
        }
    }
}

#[test]
fn single_worker_runs_jobs_in_submission_order() {
    let mut d = pool(1);
    let mut log: Vec<char> = Vec::new();
    let names = ['A', 'B'];
    assert_eq!(d.submit(), Ok(0));
    assert_eq!(d.submit(), Ok(1));
    d.begin_shutdown();
    loop {
        match d.take_next(0) {
            Some(Message::NewJob(j)) => {
                // while the one worker runs a job, nothing else can start
                assert!(!d.is_idle(0));
                log.push(names[j as usize]);
                assert_eq!(d.finish_job(0), Some(j));
            }
            Some(Message::Terminate) => break,
            None => panic!("queue ran dry before the sentinel"),
        }
    }
    assert_eq!(log, vec!['A', 'B']);
}

#[test]
fn two_workers_run_two_jobs_at_once() {
    let mut d = pool(2);
    assert_eq!(d.submit(), Ok(0));
    assert_eq!(d.submit(), Ok(1));
    assert_eq!(d.take_next(0), Some(Message::NewJob(0)));
    assert_eq!(d.take_next(1), Some(Message::NewJob(1)));
    assert_eq!(d.state_of(0), Some(WorkerState::Executing(0)));
    assert_eq!(d.state_of(1), Some(WorkerState::Executing(1)));
    assert_eq!(d.pending(), 0);
}

#[test]
fn shutdown_waits_for_a_running_job() {
    let mut d = pool(2);
    assert_eq!(d.submit(), Ok(0));
    assert_eq!(d.take_next(0), Some(Message::NewJob(0)));
    d.begin_shutdown();
    assert_eq!(d.pending(), 2);
    assert_eq!(d.take_next(1), Some(Message::Terminate));
    // the sentinel for worker 0 waits until its job is done
    assert_eq!(d.pending(), 1);
    assert_eq!(d.state_of(0), Some(WorkerState::Executing(0)));
    assert_eq!(d.finish_job(0), Some(0));
    assert_eq!(d.take_next(0), Some(Message::Terminate));
    assert_eq!(d.pending(), 0);
    assert_eq!(d.state_of(0), Some(WorkerState::Terminated));
    assert_eq!(d.state_of(1), Some(WorkerState::Terminated));
}

#[test]
fn shutdown_queues_one_sentinel_per_worker_once() {
    let mut d = pool(3);
    assert_eq!(d.submit(), Ok(0));
    d.begin_shutdown();
    assert_eq!(d.pending(), 4);
    d.begin_shutdown();
    assert_eq!(d.pending(), 4);
    assert_eq!(d.take_next(2), Some(Message::NewJob(0)));
    assert_eq!(d.take_next(1), Some(Message::Terminate));
}

#[test]
fn submit_after_shutdown_is_refused() {
    let mut d = pool(2);
    d.begin_shutdown();
    assert_eq!(d.submit(), Err(SubmitError::ShuttingDown));
    assert_eq!(d.pending(), 2);
}

#[test]
fn empty_queue_leaves_worker_waiting() {
    let mut d = pool(1);
    assert_eq!(d.take_next(0), None);
    assert!(d.is_idle(0));
}

#[test]
fn finish_without_a_job_changes_nothing() {
    let mut d = pool(2);
    assert_eq!(d.finish_job(0), None);
    assert_eq!(d.finish_job(7), None);
    assert!(d.is_idle(0));
    assert!(!d.is_idle(7));
}
