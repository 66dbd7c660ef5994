use vstd::prelude::*;
use std::collections::VecDeque;

verus! {

/// What travels through the shared queue: a job, named by its submission
/// number, or the sentinel that tells one worker to stop.
#[derive(Clone, Copy, Debug, PartialEq, Eq, Structural)]
pub enum Message {
    NewJob(u64),
    Terminate,
}

/// The local state of one worker.
#[derive(Clone, Copy, Debug, PartialEq, Eq, Structural)]
pub enum WorkerState {
    /// Waiting for the next message.
    Idle,
    /// Running the job with this number.
    Executing(u64),
    /// Took its sentinel; it never takes another message.
    Terminated,
}

/// Refusal of `Dispatcher::new`.
#[derive(Clone, Copy, Debug, PartialEq, Eq, Structural)]
pub enum PoolError {
    /// A pool needs at least one worker.
    ConfigurationError,
}

/// Refusal of `Dispatcher::submit`.
#[derive(Clone, Copy, Debug, PartialEq, Eq, Structural)]
pub enum SubmitError {
    /// Shutdown has begun: the job is not queued.
    ShuttingDown,
    /// Every job number has been used.
    Exhausted,
}

/// The sentinel, repeated `n` times.
pub open spec fn terminates(n: nat) -> Seq<Message>
    decreases n,
{
    if n == 0 {
        Seq::empty()
    } else {
        terminates((n - 1) as nat).push(Message::Terminate)
    }
}

/// The jobs numbered `lo` up to, not including, `hi`, in order.
pub open spec fn jobs(lo: nat, hi: nat) -> Seq<Message> {
    Seq::new((hi - lo) as nat, |k: int| Message::NewJob((lo + k) as u64))
}

/// Whether some worker runs the job with this number.
pub open spec fn is_running(workers: Seq<WorkerState>, j: u64) -> bool {
    exists|i: int| 0 <= i < workers.len() && workers[i] == WorkerState::Executing(j)
}

/// How many of the workers have not taken their sentinel.
pub open spec fn live_count(s: Seq<WorkerState>) -> nat
    decreases s.len(),
{
    if s.len() == 0 {
        0
    } else {
        live_count(s.drop_last()) + if s.last() is Terminated { 0nat } else { 1nat }
    }
}

proof fn lemma_terminates_len(n: nat)
    ensures
        terminates(n).len() == n,
        forall|k: int| 0 <= k < n ==> #[trigger] terminates(n)[k] == Message::Terminate,
    decreases n,
{
    if n > 0 {
        lemma_terminates_len((n - 1) as nat);
    }
}

proof fn lemma_live_count_bound(s: Seq<WorkerState>)
    ensures
        live_count(s) <= s.len(),
        live_count(s) == 0 <==> forall|i: int| 0 <= i < s.len() ==> s[i] is Terminated,
    decreases s.len(),
{
    if s.len() > 0 {
        lemma_live_count_bound(s.drop_last());
        if live_count(s) == 0 {
            assert forall|i: int| 0 <= i < s.len() implies s[i] is Terminated by {
                if i < s.len() - 1 {
                    assert(s[i] == s.drop_last()[i]);
                }
            }
        } else if forall|i: int| 0 <= i < s.len() ==> s[i] is Terminated {
            assert forall|i: int| 0 <= i < s.drop_last().len() implies s.drop_last()[i] is Terminated by {
                assert(s.drop_last()[i] == s[i]);
            }
            assert(s.last() is Terminated);
        }
    }
}

proof fn lemma_all_live(s: Seq<WorkerState>)
    requires
        forall|i: int| 0 <= i < s.len() ==> !(s[i] is Terminated),
    ensures
        live_count(s) == s.len(),
    decreases s.len(),
{
    if s.len() > 0 {
        assert forall|i: int| 0 <= i < s.drop_last().len() implies !(s.drop_last()[i] is Terminated) by {
            assert(s.drop_last()[i] == s[i]);
        }
        lemma_all_live(s.drop_last());
    }
}

proof fn lemma_live_count_update(s: Seq<WorkerState>, i: int, x: WorkerState)
    requires
        0 <= i < s.len(),
    ensures
        live_count(s.update(i, x)) + (if s[i] is Terminated { 0int } else { 1int })
            == live_count(s) + (if x is Terminated { 0int } else { 1int }),
    decreases s.len(),
{
    let t = s.update(i, x);
    if i == s.len() - 1 {
        assert(t.drop_last() =~= s.drop_last());
    } else {
        lemma_live_count_update(s.drop_last(), i, x);
        assert(t.drop_last() =~= s.drop_last().update(i, x));
    }
}


/// The abstract state of a pool: the queue, the workers, and what has
/// happened to the jobs so far.
pub struct PoolState {
    /// Messages waiting in the shared queue, oldest first.
    pub queue: Seq<Message>,
    /// The state of each worker, by worker id.
    pub workers: Seq<WorkerState>,
    /// How many jobs were accepted; they are numbered from zero.
    pub submitted: nat,
    /// How many jobs a worker has taken from the queue.
    pub started: nat,
    /// Whether shutdown has begun.
    pub shutting_down: bool,
    /// The jobs that ran to completion, in the order they completed.
    pub finished: Seq<u64>,
}

impl PoolState {
    /// The sentinels still owed to the workers.
    pub open spec fn pending_terminates(self) -> nat {
        if self.shutting_down { live_count(self.workers) } else { 0 }
    }

    /// The invariant of every reachable state.
    pub open spec fn inv(self) -> bool {
        &&& self.workers.len() >= 1
        &&& self.started <= self.submitted <= u64::MAX
        &&& self.queue == jobs(self.started, self.submitted) + terminates(self.pending_terminates())
        &&& forall|i: int| 0 <= i < self.workers.len() && self.workers[i] is Terminated
            ==> self.shutting_down && self.started == self.submitted
        &&& forall|i: int| 0 <= i < self.workers.len() && self.workers[i] is Executing
            ==> (self.workers[i]->Executing_0 as nat) < self.started
        &&& forall|i: int, k: int|
            0 <= i < self.workers.len() && 0 <= k < self.workers.len() && i != k
            && self.workers[i] is Executing && self.workers[k] is Executing
            ==> self.workers[i]->Executing_0 != self.workers[k]->Executing_0
        &&& self.finished.no_duplicates()
        &&& forall|m: int| 0 <= m < self.finished.len() ==> (self.finished[m] as nat) < self.started
        &&& forall|m: int| 0 <= m < self.finished.len() ==> !is_running(self.workers, #[trigger] self.finished[m])
        &&& forall|j: u64| (j as nat) < self.started ==> self.finished.contains(j) || is_running(self.workers, j)
        &&& self.workers.len() == 1 ==> forall|m: int| 0 <= m < self.finished.len() ==> self.finished[m] == m
        &&& self.workers.len() == 1 ==> self.started == self.finished.len()
            + if self.workers[0] is Executing { 1nat } else { 0nat }
        &&& self.workers.len() == 1 && self.workers[0] is Executing
            ==> self.workers[0]->Executing_0 == self.finished.len()
    }
}

/// The shared state of a pool: the queue of messages and the state of each
/// worker. Every change goes through a method that keeps the invariant.
pub struct Dispatcher {
    queue: VecDeque<Message>,
    workers: Vec<WorkerState>,
    submitted: u64,
    started: u64,
    shutting_down: bool,
    finished: Ghost<Seq<u64>>,
}

impl View for Dispatcher {
    type V = PoolState;

    closed spec fn view(&self) -> PoolState {
        PoolState {
            queue: self.queue@,
            workers: self.workers@,
            submitted: self.submitted as nat,
            started: self.started as nat,
            shutting_down: self.shutting_down,
            finished: self.finished@,
        }
    }
}

impl Dispatcher {
    pub open spec fn wf(&self) -> bool {
        self@.inv()
    }

    /// A pool of `size` idle workers and an empty queue; no pool of size zero.
    pub fn new(size: usize) -> (r: Result<Dispatcher, PoolError>)
        ensures
            size == 0 <==> r is Err,
            r is Err ==> r->Err_0 == PoolError::ConfigurationError,
            r matches Ok(d) ==> {
                &&& d.wf()
                &&& d@.workers == Seq::new(size as nat, |i: int| WorkerState::Idle)
                &&& d@.queue.len() == 0
                &&& d@.submitted == 0
                &&& d@.started == 0
                &&& !d@.shutting_down
                &&& d@.finished.len() == 0
            },
    {
        if size == 0 {
            return Err(PoolError::ConfigurationError);
        }
        let mut workers: Vec<WorkerState> = Vec::with_capacity(size);
        let mut i: usize = 0;
        while i < size
            invariant
                i <= size,
                workers@ == Seq::new(i as nat, |k: int| WorkerState::Idle),
            decreases size - i,
        {
            workers.push(WorkerState::Idle);
            i = i + 1;
            assert(workers@ =~= Seq::new(i as nat, |k: int| WorkerState::Idle));
        }
        let d = Dispatcher {
            queue: VecDeque::new(),
            workers,
            submitted: 0,
            started: 0,
            shutting_down: false,
            finished: Ghost(Seq::empty()),
        };
        assert(d@.queue =~= jobs(0, 0) + terminates(0));
        Ok(d)
    }

    /// The number of workers, fixed at construction.
    pub fn size(&self) -> (r: usize)
        ensures
            r == self@.workers.len(),
    {
        self.workers.len()
    }

    /// The state of the worker with this id, if there is such a worker.
    pub fn state_of(&self, worker: usize) -> (r: Option<WorkerState>)
        ensures
            worker < self@.workers.len() ==> r == Some(self@.workers[worker as int]),
            worker >= self@.workers.len() ==> r is None,
    {
        if worker < self.workers.len() {
            Some(self.workers[worker])
        } else {
            None
        }
    }

    /// How many messages wait in the queue.
    pub fn pending(&self) -> (r: usize)
        ensures
            r == self@.queue.len(),
    {
        self.queue.len()
    }

    /// Whether the worker with this id waits for a message.
    pub fn is_idle(&self, worker: usize) -> (r: bool)
        ensures
            r == (worker < self@.workers.len() && self@.workers[worker as int] is Idle),
    {
        worker < self.workers.len() && match self.workers[worker] {
            WorkerState::Idle => true,
            _ => false,
        }
    }

    /// Queues a new job and returns its number, the count of jobs accepted
    /// before it. Once shutdown has begun nothing is queued.
    pub fn submit(&mut self) -> (r: Result<u64, SubmitError>)
        requires
            old(self).wf(),
        ensures
            final(self).wf(),
            old(self)@.shutting_down ==> r == Err::<u64, SubmitError>(SubmitError::ShuttingDown),
            !old(self)@.shutting_down && old(self)@.submitted == u64::MAX
                ==> r == Err::<u64, SubmitError>(SubmitError::Exhausted),
            r is Ok <==> !old(self)@.shutting_down && old(self)@.submitted < u64::MAX,
            r is Err ==> final(self)@ == old(self)@,
            r matches Ok(j) ==> {
                &&& !old(self)@.shutting_down
                &&& j == old(self)@.submitted
                &&& final(self)@ == (PoolState {
                    queue: old(self)@.queue.push(Message::NewJob(j)),
                    submitted: old(self)@.submitted + 1,
                    ..old(self)@
                })
            },
    {
        if self.shutting_down {
            return Err(SubmitError::ShuttingDown);
        }
        if self.submitted == u64::MAX {
            return Err(SubmitError::Exhausted);
        }
        let j = self.submitted;
        self.queue.push_back(Message::NewJob(j));
        self.submitted = j + 1;
        proof {
            assert(self@.queue =~= jobs(self@.started, self@.submitted) + terminates(0));
        }
        Ok(j)
    }

    /// Begins shutdown: queues one sentinel per worker, behind every job
    /// accepted so far. A second call changes nothing.
    pub fn begin_shutdown(&mut self)
        requires
            old(self).wf(),
        ensures
            final(self).wf(),
            old(self)@.shutting_down ==> final(self)@ == old(self)@,
            !old(self)@.shutting_down ==> final(self)@ == (PoolState {
                queue: old(self)@.queue + terminates(old(self)@.workers.len()),
                shutting_down: true,
                ..old(self)@
            }),
    {
        if self.shutting_down {
            return;
        }
        let n = self.workers.len();
        let ghost q0 = self.queue@;
        let ghost s0 = self@;
        proof {
            assert(q0 =~= jobs(s0.started, s0.submitted) + terminates(0));
            assert forall|i: int| 0 <= i < self@.workers.len() implies !(self@.workers[i] is Terminated) by {}
            lemma_all_live(self@.workers);
        }
        let mut i: usize = 0;
        while i < n
            invariant
                i <= n,
                n == self.workers@.len(),
                self.queue@ == q0 + terminates(i as nat),
                self@ == (PoolState { queue: self.queue@, ..s0 }),
            decreases n - i,
        {
            self.queue.push_back(Message::Terminate);
            i = i + 1;
            assert(self.queue@ =~= q0 + terminates(i as nat));
        }
        self.shutting_down = true;
        proof {
            assert(self@.queue =~= jobs(self@.started, self@.submitted) + terminates(n as nat));
        }
    }

    /// The idle worker `worker` takes the oldest message in the queue, if
    /// there is one: a job makes it run that job, the sentinel makes it stop.
    /// With the queue empty nothing changes and the worker goes on waiting.
    pub fn take_next(&mut self, worker: usize) -> (r: Option<Message>)
        requires
            old(self).wf(),
            worker < old(self)@.workers.len(),
            old(self)@.workers[worker as int] is Idle,
        ensures
            final(self).wf(),
            old(self)@.queue.len() == 0 <==> r is None,
            r is None ==> final(self)@ == old(self)@,
            r matches Some(m) ==> m == old(self)@.queue[0],
            r matches Some(Message::NewJob(j)) ==> {
                &&& j == old(self)@.started
                &&& final(self)@ == (PoolState {
                    queue: old(self)@.queue.drop_first(),
                    workers: old(self)@.workers.update(worker as int, WorkerState::Executing(j)),
                    started: old(self)@.started + 1,
                    ..old(self)@
                })
            },
            r == Some(Message::Terminate) ==> final(self)@ == (PoolState {
                queue: old(self)@.queue.drop_first(),
                workers: old(self)@.workers.update(worker as int, WorkerState::Terminated),
                ..old(self)@
            }),
    {
        let ghost s0 = self@;
        let m = match self.queue.pop_front() {
            None => return None,
            Some(m) => m,
        };
        proof {
            lemma_terminates_len(s0.pending_terminates());
        }
        match m {
            Message::NewJob(j) => {
                proof {
                    if s0.started == s0.submitted {
                        assert(s0.queue[0] == terminates(s0.pending_terminates())[0]);
                    }
                    assert(s0.queue[0] == jobs(s0.started, s0.submitted)[0]);
                }
                self.workers.set(worker, WorkerState::Executing(j));
                self.started = self.started + 1;
                proof {
                    let t = self@;
                    lemma_live_count_update(s0.workers, worker as int, WorkerState::Executing(j));
                    assert(s0.started < s0.submitted);
                    assert(t.queue =~= jobs(t.started, t.submitted) + terminates(t.pending_terminates()));
                    assert forall|x: u64| is_running(t.workers, x) && x != j implies is_running(s0.workers, x) by {
                        let i = choose|i: int| 0 <= i < t.workers.len() && t.workers[i] == WorkerState::Executing(x);
                        assert(s0.workers[i] == t.workers[i]);
                    }
                    assert forall|x: u64| (x as nat) < t.started implies t.finished.contains(x) || is_running(t.workers, x) by {
                        if x == j {
                            assert(t.workers[worker as int] == WorkerState::Executing(x));
                        } else if !t.finished.contains(x) {
                            let i = choose|i: int| 0 <= i < s0.workers.len() && s0.workers[i] == WorkerState::Executing(x);
                            assert(t.workers[i] == s0.workers[i]);
                        }
                    }
                }
                Some(Message::NewJob(j))
            },
            Message::Terminate => {
                proof {
                    if s0.started < s0.submitted {
                        assert(s0.queue[0] == jobs(s0.started, s0.submitted)[0]);
                    }
                    assert(s0.queue[0] == terminates(s0.pending_terminates())[0]);
                }
                self.workers.set(worker, WorkerState::Terminated);
                proof {
                    let t = self@;
                    lemma_live_count_update(s0.workers, worker as int, WorkerState::Terminated);
                    lemma_terminates_len((s0.pending_terminates() - 1) as nat);
                    assert(t.queue =~= jobs(t.started, t.submitted) + terminates(t.pending_terminates()));
                    assert forall|x: u64| is_running(t.workers, x) implies is_running(s0.workers, x) by {
                        let i = choose|i: int| 0 <= i < t.workers.len() && t.workers[i] == WorkerState::Executing(x);
                        assert(s0.workers[i] == t.workers[i]);
                    }
                    assert forall|x: u64| (x as nat) < t.started implies t.finished.contains(x) || is_running(t.workers, x) by {
                        if !t.finished.contains(x) {
                            let i = choose|i: int| 0 <= i < s0.workers.len() && s0.workers[i] == WorkerState::Executing(x);
                            assert(t.workers[i] == s0.workers[i]);
                        }
                    }
                }
                Some(Message::Terminate)
            },
        }
    }

    /// The worker `worker` has run its job to completion and waits again.
    /// Returns the number of that job; a worker that runs no job is left
    /// as it is.
    pub fn finish_job(&mut self, worker: usize) -> (r: Option<u64>)
        requires
            old(self).wf(),
        ensures
            final(self).wf(),
            r is None <==> !(worker < old(self)@.workers.len() && old(self)@.workers[worker as int] is Executing),
            r is None ==> final(self)@ == old(self)@,
            r matches Some(j) ==> {
                &&& j == old(self)@.workers[worker as int]->Executing_0
                &&& final(self)@ == (PoolState {
                    workers: old(self)@.workers.update(worker as int, WorkerState::Idle),
                    finished: old(self)@.finished.push(j),
                    ..old(self)@
                })
            },
    {
        if worker >= self.workers.len() {
            return None;
        }
        let ghost s0 = self@;
        let j = match self.workers[worker] {
            WorkerState::Executing(j) => j,
            _ => return None,
        };
        self.workers.set(worker, WorkerState::Idle);
        proof {
            self.finished@ = self.finished@.push(j);
            let t = self@;
            lemma_live_count_update(s0.workers, worker as int, WorkerState::Idle);
            assert(t.queue =~= jobs(t.started, t.submitted) + terminates(t.pending_terminates()));
            assert(!s0.finished.contains(j)) by {
                if s0.finished.contains(j) {
                    let m = choose|m: int| 0 <= m < s0.finished.len() && s0.finished[m] == j;
                    assert(s0.workers[worker as int] == WorkerState::Executing(j));
                }
            }
            assert forall|x: u64| is_running(t.workers, x) implies is_running(s0.workers, x) && x != j by {
                let i = choose|i: int| 0 <= i < t.workers.len() && t.workers[i] == WorkerState::Executing(x);
                assert(s0.workers[i] == t.workers[i]);
            }
            assert forall|m: int| 0 <= m < t.finished.len() implies !is_running(t.workers, #[trigger] t.finished[m]) by {
                if m < s0.finished.len() {
                    assert(t.finished[m] == s0.finished[m]);
                }
            }
            assert forall|x: u64| (x as nat) < t.started implies t.finished.contains(x) || is_running(t.workers, x) by {
                if x == j {
                    assert(t.finished[s0.finished.len() as int] == x);
                } else if s0.finished.contains(x) {
                    let m = choose|m: int| 0 <= m < s0.finished.len() && s0.finished[m] == x;
                    assert(t.finished[m] == x);
                } else {
                    let i = choose|i: int| 0 <= i < s0.workers.len() && s0.workers[i] == WorkerState::Executing(x);
                    assert(t.workers[i] == s0.workers[i]);
                }
            }
        }
        Some(j)
    }
}


/// Once every worker has taken its sentinel, every job accepted by the pool
/// has run to completion exactly once, no other job has run, no worker is
/// still running a job, and the queue is empty.
pub proof fn lemma_shutdown_drains(s: PoolState)
    requires
        s.inv(),
        forall|i: int| 0 <= i < s.workers.len() ==> s.workers[i] is Terminated,
    ensures
        s.queue.len() == 0,
        s.started == s.submitted,
        forall|j: u64| #[trigger] s.finished.to_multiset().count(j) == if (j as nat) < s.submitted { 1nat } else { 0nat },
        forall|j: u64| !is_running(s.workers, j),
{
    broadcast use vstd::seq_lib::group_to_multiset_ensures;

    assert(s.workers[0] is Terminated);
    lemma_live_count_bound(s.workers);
    lemma_terminates_len(0);
    s.finished.lemma_multiset_has_no_duplicates();
    assert forall|j: u64| !is_running(s.workers, j) by {
        if is_running(s.workers, j) {
            let i = choose|i: int| 0 <= i < s.workers.len() && s.workers[i] == WorkerState::Executing(j);
            assert(s.workers[i] is Terminated);
        }
    }
    assert forall|j: u64| #[trigger] s.finished.to_multiset().count(j) == if (j as nat) < s.submitted { 1nat } else { 0nat } by {
        if (j as nat) < s.submitted {
            assert(s.finished.contains(j));
        } else if s.finished.contains(j) {
            let m = choose|m: int| 0 <= m < s.finished.len() && s.finished[m] == j;
            assert((s.finished[m] as nat) < s.started);
        }
    }
}

/// With a single worker, jobs complete one at a time in the order they
/// were submitted.
pub proof fn lemma_single_worker_in_order(s: PoolState)
    requires
        s.inv(),
        s.workers.len() == 1,
    ensures
        forall|m: int| 0 <= m < s.finished.len() ==> s.finished[m] == m,
{
}

} // verus!
