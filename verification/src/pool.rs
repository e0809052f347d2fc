//! A fixed-size worker pool around one FIFO queue of one-shot jobs.
//!
//! The pool issues a fresh ticket for every submitted job and moves each
//! ticket through the stations of the design: pending in the queue, running
//! on exactly one worker, and finally completed (or gone, when the job tore
//! its worker down).  The well-formedness predicate [`Pool::wf`] pins the
//! exactly-once discipline: no ticket is ever in two stations at once and no
//! two workers ever hold the same ticket.
//!
//! The driving of real background threads — blocking on the queue, joining on
//! shutdown — lives outside this crate; the functions here are the decisions
//! those threads make, stated over the pool's state.

use vstd::prelude::*;

verus! {

/// Why constructing a pool can fail.
#[derive(Debug, Clone, Copy, PartialEq, Eq, Structural)]
pub enum PoolError {
    /// A pool must have at least one worker.
    InvalidConfiguration,
}

/// Where a worker stands in its lifecycle.
#[derive(Debug, Clone, Copy, PartialEq, Eq, Structural)]
pub enum WorkerState {
    /// Ready to claim the next job.
    Idle,
    /// Running the job with the given ticket.
    Running(u64),
    /// Saw the queue closed and empty and exited its loop for good.
    Stopped,
    /// Its job panicked; the worker's execution context is gone.
    Failed,
}

/// One of the pool's execution contexts.
#[derive(Debug, Clone, Copy, PartialEq, Eq, Structural)]
pub struct Worker {
    /// Position of the worker in construction order.
    pub id: usize,
    /// Where the worker stands right now.
    pub state: WorkerState,
}

/// What a worker observes when it asks the queue for the next job.
#[derive(Debug, Clone, Copy, PartialEq, Eq, Structural)]
pub enum Claim {
    /// The worker removed this ticket from the head of the queue and runs it.
    Job(u64),
    /// The queue is empty but still open: the worker would block.
    Blocked,
    /// The queue is closed and empty: the worker stops for good.
    Closed,
}

/// The tickets the given workers are running, in construction order.
pub open spec fn running_tickets(ws: Seq<Worker>) -> Seq<u64>
    decreases ws.len(),
{
    if ws.len() == 0 {
        Seq::empty()
    } else {
        (if ws[0].state is Running {
            seq![ws[0].state->Running_0]
        } else {
            Seq::empty()
        }) + running_tickets(ws.subrange(1, ws.len() as int))
    }
}

/// Appending one worker appends its running ticket, if it has one.
proof fn lemma_running_tickets_push(s: Seq<Worker>, x: Worker)
    ensures
        running_tickets(s.push(x)) == running_tickets(s) + (if x.state is Running {
            seq![x.state->Running_0]
        } else {
            Seq::<u64>::empty()
        }),
    decreases s.len(),
{
    reveal_with_fuel(running_tickets, 3);
    let bit = if x.state is Running {
        seq![x.state->Running_0]
    } else {
        Seq::<u64>::empty()
    };
    if s.len() == 0 {
        assert(s.push(x)[0] == x);
        assert(s.push(x).subrange(1, 1) =~= Seq::<Worker>::empty());
        assert(running_tickets(s.push(x)) =~= running_tickets(s) + bit);
    } else {
        let tail = s.subrange(1, s.len() as int);
        assert(s.push(x).subrange(1, s.len() as int + 1) =~= tail.push(x));
        lemma_running_tickets_push(tail, x);
        assert(running_tickets(s.push(x)) =~= running_tickets(s) + bit);
    }
}

/// Workers none of which is mid-job run no tickets.
proof fn lemma_running_tickets_none(ws: Seq<Worker>)
    requires
        forall|i: int| 0 <= i < ws.len() ==> !((#[trigger] ws[i]).state is Running),
    ensures
        running_tickets(ws) == Seq::<u64>::empty(),
    decreases ws.len(),
{
    if ws.len() > 0 {
        let tail = ws.subrange(1, ws.len() as int);
        assert forall|i: int| 0 <= i < tail.len() implies !((#[trigger] tail[i]).state
            is Running) by {
            assert(tail[i] == ws[i + 1]);
        }
        lemma_running_tickets_none(tail);
        assert(running_tickets(ws) =~= Seq::<u64>::empty());
    } else {
        assert(running_tickets(ws) =~= Seq::<u64>::empty());
    }
}

/// A fixed set of workers competing for the jobs in one FIFO queue.
pub struct Pool {
    workers: Vec<Worker>,
    queue: Vec<u64>,
    completed: Vec<u64>,
    open: bool,
    next_ticket: u64,
}

impl Pool {
    /// The workers, in construction order.
    pub closed spec fn workers(self) -> Seq<Worker> {
        self.workers@
    }

    /// Tickets submitted and not yet claimed, oldest first.
    pub closed spec fn pending(self) -> Seq<u64> {
        self.queue@
    }

    /// Tickets whose jobs ran to completion, in completion order.
    pub closed spec fn completed(self) -> Seq<u64> {
        self.completed@
    }

    /// Whether the producer side of the queue is still attached.
    pub closed spec fn is_open(self) -> bool {
        self.open
    }

    /// Strict upper bound on every ticket the pool has issued so far.
    pub closed spec fn ticket_bound(self) -> u64 {
        self.next_ticket
    }

    /// Worker `i` is currently running the job with ticket `t`.
    pub open spec fn runs(self, i: int, t: u64) -> bool {
        0 <= i < self.workers().len() && self.workers()[i].state == WorkerState::Running(t)
    }

    /// Some worker is still idle, so submitted jobs will be serviced.
    pub open spec fn has_live_worker(self) -> bool {
        exists|i: int|
            0 <= i < self.workers().len() && (#[trigger] self.workers()[i]).state
                == WorkerState::Idle
    }

    /// Some worker is idle or mid-job, so the outstanding jobs will still
    /// be run when the pool shuts down.
    pub open spec fn can_drain(self) -> bool {
        exists|i: int|
            0 <= i < self.workers().len() && ((#[trigger] self.workers()[i]).state
                == WorkerState::Idle || self.workers()[i].state is Running)
    }

    /// Every ticket in play is below `ticket_bound`.
    pub open spec fn tickets_bounded(self) -> bool {
        &&& forall|k: int|
            0 <= k < self.pending().len() ==> #[trigger] self.pending()[k] < self.ticket_bound()
        &&& forall|k: int|
            0 <= k < self.completed().len() ==> #[trigger] self.completed()[k]
                < self.ticket_bound()
        &&& forall|i: int, t: u64| #[trigger] self.runs(i, t) ==> t < self.ticket_bound()
    }

    /// No ticket sits in two stations at once, and no two workers hold the
    /// same ticket: the exactly-once discipline of the queue.
    pub open spec fn tickets_distinct(self) -> bool {
        &&& self.pending().no_duplicates()
        &&& self.completed().no_duplicates()
        &&& forall|t: u64| #[trigger]
            self.completed().contains(t) ==> !self.pending().contains(t)
        &&& forall|i: int, t: u64| #[trigger]
            self.runs(i, t) ==> !self.pending().contains(t) && !self.completed().contains(t)
        &&& forall|i: int, j: int, t: u64|
            #[trigger] self.runs(i, t) && #[trigger] self.runs(j, t) ==> i == j
    }

    /// The pool's invariant: workers are numbered in construction order and
    /// the tickets obey the exactly-once discipline.
    pub open spec fn wf(self) -> bool {
        &&& forall|i: int|
            0 <= i < self.workers().len() ==> (#[trigger] self.workers()[i]).id == i
        &&& self.tickets_bounded()
        &&& self.tickets_distinct()
    }

    /// Create a pool of `size` workers sharing one empty, open queue.
    ///
    /// A size of zero is a configuration error and creates no workers.
    pub fn new(size: usize) -> (r: Result<Pool, PoolError>)
        ensures
            match r {
                Result::Ok(p) => {
                    &&& size > 0
                    &&& p.wf()
                    &&& p.workers().len() == size
                    &&& forall|i: int|
                        0 <= i < size ==> (#[trigger] p.workers()[i]).state == WorkerState::Idle
                    &&& p.pending() == Seq::<u64>::empty()
                    &&& p.completed() == Seq::<u64>::empty()
                    &&& p.is_open()
                    &&& p.ticket_bound() == 0
                },
                Result::Err(e) => size == 0 && e == PoolError::InvalidConfiguration,
            },
    {
        if size == 0 {
            return Result::Err(PoolError::InvalidConfiguration);
        }
        let mut workers: Vec<Worker> = Vec::new();
        let mut i: usize = 0;
        while i < size
            invariant
                i <= size,
                workers@.len() == i,
                forall|k: int|
                    0 <= k < i ==> (#[trigger] workers@[k]).id == k && workers@[k].state
                        == WorkerState::Idle,
            decreases size - i,
        {
            workers.push(Worker { id: i, state: WorkerState::Idle });
            i = i + 1;
        }
        let p = Pool {
            workers,
            queue: Vec::new(),
            completed: Vec::new(),
            open: true,
            next_ticket: 0,
        };
        Result::Ok(p)
    }

    /// Enqueue one job and hand back its fresh ticket.
    ///
    /// Callers must not submit after shutdown has begun; the queue must
    /// still be open.
    pub fn submit(&mut self) -> (t: u64)
        requires
            old(self).wf(),
            old(self).is_open(),
            old(self).ticket_bound() < u64::MAX,
        ensures
            final(self).wf(),
            t == old(self).ticket_bound(),
            final(self).pending() == old(self).pending().push(t),
            !old(self).pending().contains(t),
            !old(self).completed().contains(t),
            final(self).completed() == old(self).completed(),
            final(self).workers() == old(self).workers(),
            final(self).is_open(),
            final(self).ticket_bound() == old(self).ticket_bound() + 1,
    {
        let t = self.next_ticket;
        self.next_ticket = self.next_ticket + 1;
        self.queue.push(t);
        proof {
            let pre = *old(self);
            assert(!pre.pending().contains(t)) by {
                if pre.pending().contains(t) {
                    let k = choose|k: int| 0 <= k < pre.pending().len() && pre.pending()[k] == t;
                    assert(pre.pending()[k] < t);
                }
            }
            assert(!pre.completed().contains(t)) by {
                if pre.completed().contains(t) {
                    let k = choose|k: int|
                        0 <= k < pre.completed().len() && pre.completed()[k] == t;
                    assert(pre.completed()[k] < t);
                }
            }
            assert(self.pending() =~= pre.pending().push(t));
            assert(self.pending().no_duplicates()) by {
                assert forall|a: int, b: int|
                    0 <= a < self.pending().len() && 0 <= b < self.pending().len() && a != b
                        implies self.pending()[a] != self.pending()[b] by {
                    if a < pre.pending().len() && b < pre.pending().len() {
                        assert(pre.pending()[a] == self.pending()[a]);
                    } else if a == pre.pending().len() {
                        assert(pre.pending()[b] < t);
                    } else {
                        assert(pre.pending()[a] < t);
                    }
                }
            }
            assert forall|i: int, tt: u64| #[trigger] self.runs(i, tt)
                implies !self.pending().contains(tt) && !self.completed().contains(tt) && tt
                < self.ticket_bound() by {
                assert(pre.runs(i, tt));
                assert(tt < t);
                if self.pending().contains(tt) {
                    let k = choose|k: int|
                        0 <= k < self.pending().len() && self.pending()[k] == tt;
                    if k < pre.pending().len() {
                        assert(pre.pending().contains(tt));
                    }
                }
            }
            assert forall|i: int, j: int, tt: u64|
                #[trigger] self.runs(i, tt) && #[trigger] self.runs(j, tt) implies i == j by {
                assert(pre.runs(i, tt));
                assert(pre.runs(j, tt));
            }
            assert forall|tt: u64| #[trigger] self.completed().contains(tt)
                implies !self.pending().contains(tt) by {
                if self.pending().contains(tt) {
                    let k = choose|k: int|
                        0 <= k < self.pending().len() && self.pending()[k] == tt;
                    if k < pre.pending().len() {
                        assert(pre.pending().contains(tt));
                    } else {
                        assert(tt == t);
                    }
                }
            }
        }
        t
    }

    /// One worker's attempt to take the next job: the head of the queue if
    /// there is one; otherwise the worker stops when the queue is closed and
    /// would block while it is still open.
    pub fn claim(&mut self, w: usize) -> (c: Claim)
        requires
            old(self).wf(),
            w < old(self).workers().len(),
            old(self).workers()[w as int].state == WorkerState::Idle,
        ensures
            final(self).wf(),
            final(self).workers().len() == old(self).workers().len(),
            forall|i: int|
                0 <= i < final(self).workers().len() && i != w ==> final(self).workers()[i] == old(
                    self,
                ).workers()[i],
            final(self).completed() == old(self).completed(),
            final(self).is_open() == old(self).is_open(),
            final(self).ticket_bound() == old(self).ticket_bound(),
            old(self).pending().len() > 0 ==> {
                &&& c == Claim::Job(old(self).pending()[0])
                &&& final(self).pending() == old(self).pending().subrange(
                    1,
                    old(self).pending().len() as int,
                )
                &&& final(self).workers()[w as int].state == WorkerState::Running(
                    old(self).pending()[0],
                )
            },
            old(self).pending().len() == 0 && !old(self).is_open() ==> {
                &&& c == Claim::Closed
                &&& final(self).pending() == old(self).pending()
                &&& final(self).workers()[w as int].state == WorkerState::Stopped
            },
            old(self).pending().len() == 0 && old(self).is_open() ==> {
                &&& c == Claim::Blocked
                &&& final(self).pending() == old(self).pending()
                &&& final(self).workers()[w as int] == old(self).workers()[w as int]
            },
    {
        if self.queue.len() > 0 {
            let t = self.queue.remove(0);
            self.workers[w] = Worker { id: w, state: WorkerState::Running(t) };
            proof {
                let pre = *old(self);
                assert(self.pending() =~= pre.pending().subrange(
                    1,
                    pre.pending().len() as int,
                ));
                assert(t == pre.pending()[0]);
                assert(self.pending().no_duplicates()) by {
                    assert forall|a: int, b: int|
                        0 <= a < self.pending().len() && 0 <= b < self.pending().len() && a != b
                            implies self.pending()[a] != self.pending()[b] by {
                        assert(pre.pending()[a + 1] == self.pending()[a]);
                        assert(pre.pending()[b + 1] == self.pending()[b]);
                    }
                }
                assert forall|tt: u64| #[trigger] self.pending().contains(tt)
                    implies pre.pending().contains(tt) && tt != t by {
                    let k = choose|k: int|
                        0 <= k < self.pending().len() && self.pending()[k] == tt;
                    assert(pre.pending()[k + 1] == tt);
                }
                assert forall|i: int, tt: u64| #[trigger] self.runs(i, tt)
                    implies !self.pending().contains(tt) && !self.completed().contains(tt)
                        && tt < self.ticket_bound() by {
                    if i == w {
                        assert(tt == t);
                        assert(pre.pending()[0] < pre.ticket_bound());
                    } else {
                        assert(pre.runs(i, tt));
                    }
                }
                assert forall|i: int, j: int, tt: u64|
                    #[trigger] self.runs(i, tt) && #[trigger] self.runs(j, tt)
                        implies i == j by {
                    if i != w && j != w {
                        assert(pre.runs(i, tt));
                        assert(pre.runs(j, tt));
                    } else if i == w && j != w {
                        assert(pre.runs(j, t));
                        assert(pre.pending().contains(t));
                    } else if i != w && j == w {
                        assert(pre.runs(i, t));
                        assert(pre.pending().contains(t));
                    }
                }
            }
            Claim::Job(t)
        } else if !self.open {
            self.workers[w] = Worker { id: w, state: WorkerState::Stopped };
            proof {
                let pre = *old(self);
                assert forall|i: int, tt: u64| #[trigger] self.runs(i, tt)
                    implies pre.runs(i, tt) by {}
            }
            Claim::Closed
        } else {
            Claim::Blocked
        }
    }

    /// A claimed job has returned.  On success the worker goes back to idle
    /// and the ticket is recorded as completed; a panic tears the worker
    /// down and records nothing.
    pub fn finish(&mut self, w: usize, succeeded: bool)
        requires
            old(self).wf(),
            w < old(self).workers().len(),
            old(self).workers()[w as int].state is Running,
        ensures
            final(self).wf(),
            final(self).workers().len() == old(self).workers().len(),
            forall|i: int|
                0 <= i < final(self).workers().len() && i != w ==> final(self).workers()[i] == old(
                    self,
                ).workers()[i],
            final(self).pending() == old(self).pending(),
            final(self).is_open() == old(self).is_open(),
            final(self).ticket_bound() == old(self).ticket_bound(),
            succeeded ==> final(self).workers()[w as int].state == WorkerState::Idle
                && final(self).completed() == old(self).completed().push(
                old(self).workers()[w as int].state->Running_0,
            ),
            !succeeded ==> final(self).workers()[w as int].state == WorkerState::Failed
                && final(self).completed() == old(self).completed(),
    {
        let st = self.workers[w].state;
        if let WorkerState::Running(t) = st {
            if succeeded {
                self.workers[w] = Worker { id: w, state: WorkerState::Idle };
                self.completed.push(t);
                proof {
                    let pre = *old(self);
                    assert(pre.runs(w as int, t));
                    assert(self.completed() =~= pre.completed().push(t));
                    assert(self.completed().no_duplicates()) by {
                        assert forall|a: int, b: int|
                            0 <= a < self.completed().len() && 0 <= b < self.completed().len()
                                && a != b implies self.completed()[a] != self.completed()[b] by {
                            if a < pre.completed().len() && b < pre.completed().len() {
                            } else if a == pre.completed().len() {
                                assert(pre.completed().contains(pre.completed()[b]));
                            } else {
                                assert(pre.completed().contains(pre.completed()[a]));
                            }
                        }
                    }
                    assert forall|tt: u64| #[trigger] self.completed().contains(tt)
                        implies !self.pending().contains(tt) && tt < self.ticket_bound() by {
                        let k = choose|k: int|
                            0 <= k < self.completed().len() && self.completed()[k] == tt;
                        if k < pre.completed().len() {
                            assert(pre.completed().contains(tt));
                        } else {
                            assert(tt == t);
                        }
                    }
                    assert forall|i: int, tt: u64| #[trigger] self.runs(i, tt)
                        implies !self.pending().contains(tt) && !self.completed().contains(tt)
                            && tt < self.ticket_bound() by {
                        assert(i != w);
                        assert(pre.runs(i, tt));
                        assert(tt != t) by {
                            if tt == t {
                                assert(pre.runs(i, t));
                                assert(pre.runs(w as int, t));
                            }
                        }
                        if self.completed().contains(tt) {
                            let k = choose|k: int|
                                0 <= k < self.completed().len() && self.completed()[k] == tt;
                            if k < pre.completed().len() {
                                assert(pre.completed().contains(tt));
                            }
                        }
                    }
                    assert forall|i: int, j: int, tt: u64|
                        #[trigger] self.runs(i, tt) && #[trigger] self.runs(j, tt)
                            implies i == j by {
                        assert(pre.runs(i, tt));
                        assert(pre.runs(j, tt));
                    }
                }
            } else {
                self.workers[w] = Worker { id: w, state: WorkerState::Failed };
                proof {
                    let pre = *old(self);
                    assert forall|i: int, tt: u64| #[trigger] self.runs(i, tt)
                        implies pre.runs(i, tt) by {}
                }
            }
        } else {
            proof {
                assert(false);
            }
        }
    }

    /// Detach the producer side of the queue: no further job can be
    /// submitted, and workers that drain the queue will stop.
    pub fn close(&mut self)
        requires
            old(self).wf(),
        ensures
            final(self).wf(),
            !final(self).is_open(),
            final(self).workers() == old(self).workers(),
            final(self).pending() == old(self).pending(),
            final(self).completed() == old(self).completed(),
            final(self).ticket_bound() == old(self).ticket_bound(),
    {
        self.open = false;
        proof {
            lemma_wf_same_stations(*old(self), *self);
        }
    }

    /// First idle worker, if any worker is idle.
    fn find_idle(&self) -> (r: Option<usize>)
        ensures
            match r {
                Option::Some(w) => w < self.workers().len() && self.workers()[w as int].state
                    == WorkerState::Idle,
                Option::None => !self.has_live_worker(),
            },
    {
        let n = self.workers.len();
        let mut w: usize = 0;
        while w < n
            invariant
                w <= n,
                n == self.workers().len(),
                forall|i: int|
                    0 <= i < w ==> (#[trigger] self.workers()[i]).state != WorkerState::Idle,
            decreases n - w,
        {
            if self.workers[w].state == WorkerState::Idle {
                return Option::Some(w);
            }
            w = w + 1;
        }
        Option::None
    }

    /// Orderly shutdown, the model of dropping the pool: close the queue,
    /// wait for every worker to finish the job it is running, let the
    /// workers drain every job that was submitted before, and wait until
    /// each of them has observed closure and stopped.
    ///
    /// When any worker is still idle or mid-job, every outstanding job —
    /// the running ones first, then the queue in submission order —
    /// completes before shutdown returns.  When every worker has failed,
    /// the pending jobs are discarded with the queue: nobody is left to
    /// run them.  (A job mid-run at shutdown is taken here to run to
    /// completion; one that panics instead is reported through `finish`
    /// before the shutdown step.)
    pub fn shutdown(&mut self)
        requires
            old(self).wf(),
        ensures
            final(self).wf(),
            !final(self).is_open(),
            final(self).pending().len() == 0,
            final(self).workers().len() == old(self).workers().len(),
            final(self).ticket_bound() == old(self).ticket_bound(),
            forall|i: int|
                0 <= i < final(self).workers().len() ==> (#[trigger] final(self).workers()[i]).state
                    == (if old(self).workers()[i].state == WorkerState::Idle || old(
                    self,
                ).workers()[i].state is Running {
                    WorkerState::Stopped
                } else {
                    old(self).workers()[i].state
                }),
            old(self).can_drain() ==> final(self).completed() == old(self).completed()
                + running_tickets(old(self).workers()) + old(self).pending(),
            !old(self).can_drain() ==> final(self).completed() == old(self).completed(),
    {
        self.close();
        let ghost orig: Pool = *self;
        // Every worker still mid-job runs that job to completion.
        let n0 = self.workers.len();
        let mut v: usize = 0;
        proof {
            assert(orig.workers().subrange(0, 0) =~= Seq::<Worker>::empty());
            assert(self.completed() =~= orig.completed() + running_tickets(
                orig.workers().subrange(0, 0),
            ));
        }
        while v < n0
            invariant
                self.wf(),
                !self.is_open(),
                v <= n0,
                n0 == self.workers().len(),
                n0 == orig.workers().len(),
                self.pending() == orig.pending(),
                self.ticket_bound() == orig.ticket_bound(),
                forall|i: int| v <= i < n0 ==> #[trigger] self.workers()[i] == orig.workers()[i],
                forall|i: int|
                    0 <= i < v ==> (#[trigger] self.workers()[i]).state == (
                    if orig.workers()[i].state is Running {
                        WorkerState::Idle
                    } else {
                        orig.workers()[i].state
                    }),
                self.completed() == orig.completed() + running_tickets(
                    orig.workers().subrange(0, v as int),
                ),
            decreases n0 - v,
        {
            let st = self.workers[v].state;
            if let WorkerState::Running(_t) = st {
                self.finish(v, true);
            }
            proof {
                assert(orig.workers().subrange(0, v as int + 1) =~= orig.workers().subrange(
                    0,
                    v as int,
                ).push(orig.workers()[v as int]));
                lemma_running_tickets_push(
                    orig.workers().subrange(0, v as int),
                    orig.workers()[v as int],
                );
                assert(self.completed() =~= orig.completed() + running_tickets(
                    orig.workers().subrange(0, v as int + 1),
                ));
            }
            v = v + 1;
        }
        proof {
            assert(orig.workers().subrange(0, n0 as int) =~= orig.workers());
        }
        // The queue can now be drained: no worker is mid-job any more.
        let ghost mid0: Pool = *self;
        proof {
            let pre = *old(self);
            assert(mid0.has_live_worker() == pre.can_drain()) by {
                if pre.can_drain() {
                    let i = choose|i: int|
                        0 <= i < pre.workers().len() && ((#[trigger] pre.workers()[i]).state
                            == WorkerState::Idle || pre.workers()[i].state is Running);
                    assert(orig.workers()[i] == pre.workers()[i]);
                    assert(mid0.workers()[i].state == WorkerState::Idle);
                }
                if mid0.has_live_worker() {
                    let i = choose|i: int|
                        0 <= i < mid0.workers().len() && (#[trigger] mid0.workers()[i]).state
                            == WorkerState::Idle;
                    assert(orig.workers()[i] == pre.workers()[i]);
                    assert(pre.workers()[i].state == WorkerState::Idle || pre.workers()[i].state
                        is Running);
                }
            }
            if !pre.can_drain() {
                assert forall|i: int|
                    0 <= i < orig.workers().len() implies !((#[trigger] orig.workers()[i]).state
                    is Running) by {
                    assert(orig.workers()[i] == pre.workers()[i]);
                }
                lemma_running_tickets_none(orig.workers());
            }
        }
        match self.find_idle() {
            Option::None => {
                self.queue.clear();
                proof {
                    assert forall|i: int, tt: u64| #[trigger] self.runs(i, tt)
                        implies mid0.runs(i, tt) by {}
                    assert(self.completed() =~= mid0.completed());
                }
            },
            Option::Some(w0) => {
                let ghost mut done: int = 0;
                while self.queue.len() > 0
                    invariant
                        self.wf(),
                        !self.is_open(),
                        w0 < self.workers().len(),
                        self.workers() == mid0.workers(),
                        self.workers()[w0 as int].state == WorkerState::Idle,
                        self.ticket_bound() == mid0.ticket_bound(),
                        0 <= done <= mid0.pending().len(),
                        self.pending() == mid0.pending().subrange(
                            done,
                            mid0.pending().len() as int,
                        ),
                        self.completed() == mid0.completed() + mid0.pending().subrange(0, done),
                    decreases self.queue.len(),
                {
                    let ghost before: Pool = *self;
                    let c = self.claim(w0);
                    match c {
                        Claim::Job(_t) => {
                            self.finish(w0, true);
                            proof {
                                assert(before.pending()[0] == mid0.pending()[done]);
                                done = done + 1;
                                assert(self.workers() =~= mid0.workers());
                                assert(self.pending() =~= mid0.pending().subrange(
                                    done,
                                    mid0.pending().len() as int,
                                ));
                                assert(self.completed() =~= mid0.completed()
                                    + mid0.pending().subrange(0, done));
                            }
                        },
                        _ => {
                            proof {
                                assert(false);
                            }
                        },
                    }
                }
                proof {
                    assert(self.pending() =~= Seq::<u64>::empty());
                    assert(self.completed() =~= mid0.completed() + mid0.pending());
                }
            },
        }
        // Every idle worker now observes the closed, empty queue and stops.
        let n = self.workers.len();
        let ghost mid: Pool = *self;
        let mut w: usize = 0;
        while w < n
            invariant
                self.wf(),
                !self.is_open(),
                n == self.workers().len(),
                w <= n,
                self.pending().len() == 0,
                self.completed() == mid.completed(),
                self.ticket_bound() == mid.ticket_bound(),
                mid.workers().len() == n,
                forall|i: int|
                    0 <= i < w ==> (#[trigger] self.workers()[i]).state == (
                    if mid.workers()[i].state == WorkerState::Idle {
                        WorkerState::Stopped
                    } else {
                        mid.workers()[i].state
                    }),
                forall|i: int|
                    w <= i < n ==> #[trigger] self.workers()[i] == mid.workers()[i],
            decreases n - w,
        {
            let st = self.workers[w].state;
            if st == WorkerState::Idle {
                let c = self.claim(w);
                proof {
                    assert(c == Claim::Closed);
                }
            }
            w = w + 1;
        }
        proof {
            let pre = *old(self);
            assert forall|i: int|
                0 <= i < self.workers().len() implies (#[trigger] self.workers()[i]).state == (
            if pre.workers()[i].state == WorkerState::Idle || pre.workers()[i].state is Running {
                WorkerState::Stopped
            } else {
                pre.workers()[i].state
            }) by {
                assert(mid.workers()[i] == mid0.workers()[i]);
                assert(orig.workers()[i] == pre.workers()[i]);
            }
            if pre.can_drain() {
                assert(self.completed() =~= pre.completed() + running_tickets(pre.workers())
                    + pre.pending());
            } else {
                assert(self.completed() =~= pre.completed());
            }
        }
    }

    /// Number of workers, in any state.
    pub fn worker_count(&self) -> (n: usize)
        ensures
            n == self.workers().len(),
    {
        self.workers.len()
    }

    /// Where worker `w` stands right now.
    pub fn worker_state(&self, w: usize) -> (s: WorkerState)
        requires
            w < self.workers().len(),
        ensures
            s == self.workers()[w as int].state,
    {
        self.workers[w].state
    }

    /// How many jobs have run to completion so far.
    pub fn completed_count(&self) -> (n: usize)
        ensures
            n == self.completed().len(),
    {
        self.completed.len()
    }

    /// Whether the job with ticket `t` has run to completion.
    pub fn has_completed(&self, t: u64) -> (r: bool)
        ensures
            r == self.completed().contains(t),
    {
        let n = self.completed.len();
        let mut k: usize = 0;
        while k < n
            invariant
                k <= n,
                n == self.completed().len(),
                forall|i: int| 0 <= i < k ==> self.completed()[i] != t,
            decreases n - k,
        {
            if self.completed[k] == t {
                return true;
            }
            k = k + 1;
        }
        false
    }

    /// How many submitted jobs no worker has claimed yet.
    pub fn pending_count(&self) -> (n: usize)
        ensures
            n == self.pending().len(),
    {
        self.queue.len()
    }

    /// Whether the pool still accepts submissions.
    pub fn accepting(&self) -> (r: bool)
        ensures
            r == self.is_open(),
    {
        self.open
    }
}

/// Two pools that agree on workers, queue, record and ticket bound are
/// equally well-formed, whatever else (the open flag) differs.
proof fn lemma_wf_same_stations(pre: Pool, post: Pool)
    requires
        pre.wf(),
        post.workers() == pre.workers(),
        post.pending() == pre.pending(),
        post.completed() == pre.completed(),
        post.ticket_bound() == pre.ticket_bound(),
    ensures
        post.wf(),
{
    assert forall|i: int, t: u64| #[trigger] post.runs(i, t) implies pre.runs(i, t) by {}
    assert forall|i: int, t: u64| #[trigger] post.runs(i, t)
        implies t < post.ticket_bound() && !post.pending().contains(t)
            && !post.completed().contains(t) by {
        assert(pre.runs(i, t));
    }
    assert forall|i: int, j: int, t: u64|
        #[trigger] post.runs(i, t) && #[trigger] post.runs(j, t) implies i == j by {
        assert(pre.runs(i, t));
        assert(pre.runs(j, t));
    }
}

/// Law: when a shutdown has moved every outstanding job — those running
/// and those pending — into the completed record, that record grows by
/// exactly their number and still holds no job twice.  A counter
/// incremented once per completed job therefore ends at exactly the
/// number of jobs submitted: no increment lost, none duplicated.
pub proof fn lemma_no_increment_lost_or_duplicated(before: Pool, after: Pool)
    requires
        after.wf(),
        after.completed() == before.completed() + running_tickets(before.workers())
            + before.pending(),
    ensures
        after.completed().len() == before.completed().len() + running_tickets(
            before.workers(),
        ).len() + before.pending().len(),
        after.completed().no_duplicates(),
{
}

/// Law: in a well-formed pool no job runs or completes twice.  The record of
/// completed tickets has no duplicates, a completed ticket is no longer
/// pending, a running ticket is neither pending nor completed, and no two
/// workers hold the same ticket.
pub proof fn lemma_job_executes_at_most_once(p: Pool, t: u64)
    requires
        p.wf(),
    ensures
        p.completed().no_duplicates(),
        !(p.pending().contains(t) && p.completed().contains(t)),
        forall|i: int, j: int| #[trigger] p.runs(i, t) && #[trigger] p.runs(j, t) ==> i == j,
        forall|i: int| #[trigger] p.runs(i, t) ==> !p.pending().contains(t) && !p.completed().contains(t),
{
}

} // verus!
