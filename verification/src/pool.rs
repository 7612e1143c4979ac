//! The worker pool itself: construction with a validated size, submission,
//! the worker transitions, and the synchronous teardown that drains and
//! terminates every worker.

use vstd::prelude::*;

verus! {

use vstd::multiset::Multiset;
use crate::model::WorkerState;
use crate::model::ids_upto;
use crate::model::job_of;
use crate::model::lemma_add_count;
use crate::model::lemma_insert_count;
use crate::model::lemma_remove_count;
use crate::model::lemma_run_ms_count;
use crate::model::lemma_ids_upto_count;
use crate::model::lemma_ids_upto_len;
use crate::model::lemma_running_jobs_no_running;
use crate::model::lemma_running_jobs_two;
use crate::model::lemma_running_jobs_push;
use crate::model::lemma_running_jobs_update;
use crate::model::run_ms;
use crate::model::run_seq_of;
use crate::model::running_jobs;
use crate::model::worker_measure;

/// The largest worker count a pool may be built with.
pub const MAX_THREAD_POOL_SIZE: usize = 10;

/// The construction error: the requested worker count was 0 or above
/// `MAX_THREAD_POOL_SIZE`. Carries nothing beyond its kind.
#[derive(Debug, Clone, Copy)]
pub struct PoolCreationError;

impl PoolCreationError {
    /// The diagnostic text for this error kind.
    pub fn message(&self) -> (m: &'static str)
        ensures
            m@ == "tried to build a thread pool with invalid size"@,
    {
        "tried to build a thread pool with invalid size"
    }
}

/// What one blocking receive by an idle worker observes: a claimed job, a
/// queue that is still open but empty (the thread would stay blocked), or
/// the disconnect signal after the producer side was closed.
#[derive(Clone, Copy, Debug, PartialEq, Eq, Structural)]
pub enum StepEvent {
    Claimed(usize),
    WouldBlock,
    Disconnected,
}

/// The pool's state machine. A job is the id handed out when it was
/// submitted; a worker's id is its index in `workers`, assigned sequentially
/// at construction and never reused. `pending` is the shared queue in
/// submission order (front at index 0), `completed` the log of executed jobs
/// in completion order, and `sender_alive` whether the producer handle still
/// exists — dropping it is the sole shutdown signal the workers observe.
#[derive(Debug)]
pub struct ThreadPool {
    pub workers: Vec<WorkerState>,
    pub pending: Vec<usize>,
    pub completed: Vec<usize>,
    pub sender_alive: bool,
    pub next_job: usize,
}

impl ThreadPool {
    /// Every job the pool has ever accepted, in the one place it currently
    /// occupies: still queued, being executed, or completed.
    pub open spec fn live_jobs(self) -> Multiset<usize> {
        self.pending@.to_multiset().add(running_jobs(self.workers@)).add(
            self.completed@.to_multiset(),
        )
    }

    pub open spec fn some_terminated(self) -> bool {
        exists|i: int| 0 <= i < self.workers@.len() && (#[trigger] self.workers@[i]) is Terminated
    }

    pub open spec fn all_terminated(self) -> bool {
        forall|i: int| 0 <= i < self.workers@.len() ==> (#[trigger] self.workers@[i]) is Terminated
    }

    /// The pool's invariant: the worker count is the one fixed at
    /// construction (within capacity); every submitted job sits in exactly
    /// one place (each id below `next_job` once, nothing else — the
    /// exactly-once guarantee); a worker terminates only after the producer
    /// handle was dropped; and once every worker has terminated the queue is
    /// empty, since each worker drains the queue before it exits.
    pub open spec fn wf(self) -> bool {
        &&& 1 <= self.workers@.len() <= MAX_THREAD_POOL_SIZE
        &&& self.live_jobs() == ids_upto(self.next_job as nat)
        &&& (self.some_terminated() ==> !self.sender_alive)
        &&& (self.all_terminated() ==> self.pending@.len() == 0)
    }

    /// Builds a pool of exactly `size` workers, all idle on an empty queue,
    /// or fails with the construction error when `size` is 0 or above
    /// `MAX_THREAD_POOL_SIZE`.
    pub fn build(size: usize) -> (r: Result<ThreadPool, PoolCreationError>)
        ensures
            r is Ok <==> 1 <= size <= MAX_THREAD_POOL_SIZE,
            r matches Ok(pool) ==> pool.wf(),
            r matches Ok(pool) ==> pool.workers@.len() == size,
            r matches Ok(pool) ==> forall|i: int|
                0 <= i < size ==> (#[trigger] pool.workers@[i]) is Idle,
            r matches Ok(pool) ==> pool.pending@.len() == 0,
            r matches Ok(pool) ==> pool.completed@.len() == 0,
            r matches Ok(pool) ==> pool.sender_alive,
            r matches Ok(pool) ==> pool.next_job == 0,
    {
        if 1 <= size && size <= MAX_THREAD_POOL_SIZE {
            let mut workers: Vec<WorkerState> = Vec::new();
            let mut i: usize = 0;
            while i < size
                invariant
                    i <= size,
                    workers@.len() == i,
                    forall|k: int| 0 <= k < i ==> (#[trigger] workers@[k]) is Idle,
                    running_jobs(workers@) == Multiset::<usize>::empty(),
                decreases size - i,
            {
                proof {
                    lemma_running_jobs_push(workers@, WorkerState::Idle);
                    assert(running_jobs(workers@).add(run_ms(WorkerState::Idle))
                        =~= Multiset::<usize>::empty());
                }
                workers.push(WorkerState::Idle);
                i = i + 1;
            }
            let pool = ThreadPool {
                workers,
                pending: Vec::new(),
                completed: Vec::new(),
                sender_alive: true,
                next_job: 0,
            };
            proof {
                broadcast use vstd::seq_lib::group_to_multiset_ensures;
                broadcast use vstd::multiset::lemma_multiset_empty_len;

                assert(pool.live_jobs() =~= ids_upto(0));
            }
            Ok(pool)
        } else {
            Err(PoolCreationError)
        }
    }

    /// Accepts a job while the pool is alive: the job is appended to the
    /// queue and identified by the next unused id. Submission after the
    /// producer handle was dropped is a programmer error and is excluded by
    /// precondition rather than handled.
    pub fn execute(&mut self) -> (job: usize)
        requires
            old(self).wf(),
            old(self).sender_alive,
            old(self).next_job < usize::MAX,
        ensures
            final(self).wf(),
            job == old(self).next_job,
            final(self).workers@ == old(self).workers@,
            final(self).pending@ == old(self).pending@.push(job),
            final(self).completed@ == old(self).completed@,
            final(self).sender_alive,
            final(self).next_job == old(self).next_job + 1,
    {
        let job = self.next_job;
        self.pending.push(job);
        self.next_job = self.next_job + 1;
        proof {
            broadcast use vstd::seq_lib::group_to_multiset_ensures;
            broadcast use vstd::multiset::group_multiset_properties;

            assert(self.live_jobs() =~= old(self).live_jobs().insert(job));
            assert(ids_upto(self.next_job as nat)
                == ids_upto(old(self).next_job as nat).insert(job));
            if self.all_terminated() {
                assert(self.workers@[0] is Terminated);
            }
        }
        job
    }

    /// One blocking receive by the idle worker `w`, the only decision a
    /// worker's loop makes. If the queue holds a job, the worker claims the
    /// front one and runs it. If the queue is empty but the producer handle
    /// still exists, the thread stays blocked and nothing changes. If the
    /// queue is empty and the producer handle is gone, the receive observes
    /// the disconnect signal and the worker terminates.
    pub fn worker_step(&mut self, w: usize) -> (evt: StepEvent)
        requires
            old(self).wf(),
            w < old(self).workers@.len(),
            old(self).workers@[w as int] is Idle,
        ensures
            final(self).wf(),
            final(self).workers@.len() == old(self).workers@.len(),
            final(self).completed@ == old(self).completed@,
            final(self).sender_alive == old(self).sender_alive,
            final(self).next_job == old(self).next_job,
            old(self).pending@.len() > 0 ==> evt == StepEvent::Claimed(old(self).pending@[0])
                && final(self).pending@ == old(self).pending@.drop_first()
                && final(self).workers@ == old(self).workers@.update(
                w as int,
                WorkerState::Running(old(self).pending@[0]),
            ),
            old(self).pending@.len() == 0 && !old(self).sender_alive ==> evt is Disconnected
                && final(self).pending@ == old(self).pending@
                && final(self).workers@ == old(self).workers@.update(
                w as int,
                WorkerState::Terminated,
            ),
            old(self).pending@.len() == 0 && old(self).sender_alive ==> evt is WouldBlock
                && *final(self) == *old(self),
    {
        if self.pending.len() > 0 {
            let j = self.pending.remove(0);
            self.workers[w] = WorkerState::Running(j);
            proof {
                assert(old(self).pending@.remove(0) =~= old(self).pending@.drop_first());
                self.lemma_claim_preserves_wf(*old(self), w, j);
            }
            StepEvent::Claimed(j)
        } else if !self.sender_alive {
            self.workers[w] = WorkerState::Terminated;
            proof {
                self.lemma_disconnect_preserves_wf(*old(self), w);
            }
            StepEvent::Disconnected
        } else {
            StepEvent::WouldBlock
        }
    }

    /// Claiming the front job moves it from the queue to the claiming
    /// worker: the multiset of live jobs is unchanged.
    proof fn lemma_claim_preserves_wf(self, prev: ThreadPool, w: usize, j: usize)
        requires
            prev.wf(),
            w < prev.workers@.len(),
            prev.workers@[w as int] is Idle,
            prev.pending@.len() > 0,
            j == prev.pending@[0],
            self.pending@ == prev.pending@.remove(0),
            self.workers@ == prev.workers@.update(w as int, WorkerState::Running(j)),
            self.completed@ == prev.completed@,
            self.sender_alive == prev.sender_alive,
            self.next_job == prev.next_job,
        ensures
            self.wf(),
    {
        broadcast use vstd::seq_lib::group_to_multiset_ensures;

        assert(prev.pending@.contains(j));
        assert(self.pending@.to_multiset() == prev.pending@.to_multiset().remove(j));
        assert forall|v: usize| self.live_jobs().count(v) == prev.live_jobs().count(v) by {
            lemma_add_count(
                self.pending@.to_multiset().add(running_jobs(self.workers@)),
                self.completed@.to_multiset(),
                v,
            );
            lemma_add_count(self.pending@.to_multiset(), running_jobs(self.workers@), v);
            lemma_add_count(
                prev.pending@.to_multiset().add(running_jobs(prev.workers@)),
                prev.completed@.to_multiset(),
                v,
            );
            lemma_add_count(prev.pending@.to_multiset(), running_jobs(prev.workers@), v);
            lemma_running_jobs_update(prev.workers@, w as int, WorkerState::Running(j), v);
            lemma_run_ms_count(prev.workers@[w as int], v);
            lemma_run_ms_count(WorkerState::Running(j), v);
            lemma_remove_count(prev.pending@.to_multiset(), j, v);
        }
        assert(self.live_jobs() =~= prev.live_jobs());
        assert(self.workers@[w as int] is Running);
        if self.some_terminated() {
            let i = choose|i: int|
                0 <= i < self.workers@.len() && (#[trigger] self.workers@[i]) is Terminated;
            assert(prev.workers@[i] is Terminated);
        }
    }

    /// Observing the disconnect signal terminates the worker and touches no
    /// job: the multiset of live jobs is unchanged.
    proof fn lemma_disconnect_preserves_wf(self, prev: ThreadPool, w: usize)
        requires
            prev.wf(),
            w < prev.workers@.len(),
            prev.workers@[w as int] is Idle,
            prev.pending@.len() == 0,
            !prev.sender_alive,
            self.pending@ == prev.pending@,
            self.workers@ == prev.workers@.update(w as int, WorkerState::Terminated),
            self.completed@ == prev.completed@,
            self.sender_alive == prev.sender_alive,
            self.next_job == prev.next_job,
        ensures
            self.wf(),
    {
        assert forall|v: usize| self.live_jobs().count(v) == prev.live_jobs().count(v) by {
            lemma_add_count(
                self.pending@.to_multiset().add(running_jobs(self.workers@)),
                self.completed@.to_multiset(),
                v,
            );
            lemma_add_count(self.pending@.to_multiset(), running_jobs(self.workers@), v);
            lemma_add_count(
                prev.pending@.to_multiset().add(running_jobs(prev.workers@)),
                prev.completed@.to_multiset(),
                v,
            );
            lemma_add_count(prev.pending@.to_multiset(), running_jobs(prev.workers@), v);
            lemma_running_jobs_update(prev.workers@, w as int, WorkerState::Terminated, v);
            lemma_run_ms_count(prev.workers@[w as int], v);
            lemma_run_ms_count(WorkerState::Terminated, v);
        }
        assert(self.live_jobs() =~= prev.live_jobs());
    }

    /// The worker `w` finishes the job it is running: the job moves to the
    /// end of the completion log and the worker goes back to blocking on
    /// the queue.
    pub fn finish(&mut self, w: usize)
        requires
            old(self).wf(),
            w < old(self).workers@.len(),
            old(self).workers@[w as int] is Running,
        ensures
            final(self).wf(),
            final(self).workers@ == old(self).workers@.update(w as int, WorkerState::Idle),
            final(self).completed@ == old(self).completed@.push(
                job_of(old(self).workers@[w as int]),
            ),
            final(self).pending@ == old(self).pending@,
            final(self).sender_alive == old(self).sender_alive,
            final(self).next_job == old(self).next_job,
    {
        let st = self.workers[w];
        match st {
            WorkerState::Running(j) => {
                self.workers[w] = WorkerState::Idle;
                self.completed.push(j);
                proof {
                    self.lemma_finish_preserves_wf(*old(self), w, j);
                }
            }
            _ => {
                proof {
                    assert(false);
                }
            }
        }
    }

    /// Finishing a job moves it from its worker to the completion log: the
    /// multiset of live jobs is unchanged.
    proof fn lemma_finish_preserves_wf(self, prev: ThreadPool, w: usize, j: usize)
        requires
            prev.wf(),
            w < prev.workers@.len(),
            prev.workers@[w as int] == WorkerState::Running(j),
            self.pending@ == prev.pending@,
            self.workers@ == prev.workers@.update(w as int, WorkerState::Idle),
            self.completed@ == prev.completed@.push(j),
            self.sender_alive == prev.sender_alive,
            self.next_job == prev.next_job,
        ensures
            self.wf(),
    {
        broadcast use vstd::seq_lib::group_to_multiset_ensures;

        assert(self.completed@.to_multiset() == prev.completed@.to_multiset().insert(j));
        assert forall|v: usize| self.live_jobs().count(v) == prev.live_jobs().count(v) by {
            lemma_add_count(
                self.pending@.to_multiset().add(running_jobs(self.workers@)),
                self.completed@.to_multiset(),
                v,
            );
            lemma_add_count(self.pending@.to_multiset(), running_jobs(self.workers@), v);
            lemma_add_count(
                prev.pending@.to_multiset().add(running_jobs(prev.workers@)),
                prev.completed@.to_multiset(),
                v,
            );
            lemma_add_count(prev.pending@.to_multiset(), running_jobs(prev.workers@), v);
            lemma_running_jobs_update(prev.workers@, w as int, WorkerState::Idle, v);
            lemma_run_ms_count(prev.workers@[w as int], v);
            lemma_run_ms_count(WorkerState::Idle, v);
            lemma_insert_count(prev.completed@.to_multiset(), j, v);
        }
        assert(self.live_jobs() =~= prev.live_jobs());
        assert(self.workers@[w as int] is Idle);
        if self.some_terminated() {
            let i = choose|i: int|
                0 <= i < self.workers@.len() && (#[trigger] self.workers@[i]) is Terminated;
            assert(prev.workers@[i] is Terminated);
        }
    }

    /// Drops the producer handle: the authoritative, irreversible shutdown
    /// signal. Nothing else changes; workers react through `worker_step`.
    pub fn close(&mut self)
        requires
            old(self).wf(),
        ensures
            final(self).wf(),
            !final(self).sender_alive,
            final(self).workers@ == old(self).workers@,
            final(self).pending@ == old(self).pending@,
            final(self).completed@ == old(self).completed@,
            final(self).next_job == old(self).next_job,
    {
        self.sender_alive = false;
    }

    /// Synchronous, ordered teardown: drop the producer handle first, then
    /// take each worker in construction order and drive it — finish its
    /// in-flight job, let it drain the queue, let it observe the disconnect
    /// signal — until its thread has terminated, before moving to the next.
    /// When this returns, every worker has terminated and every job the
    /// pool ever accepted is in the completion log exactly once; with a
    /// single worker the log extends in exactly the order jobs were
    /// submitted.
    pub fn shutdown(&mut self)
        requires
            old(self).wf(),
        ensures
            final(self).wf(),
            final(self).workers@.len() == old(self).workers@.len(),
            final(self).all_terminated(),
            !final(self).sender_alive,
            final(self).pending@.len() == 0,
            final(self).next_job == old(self).next_job,
            final(self).completed@.to_multiset() == ids_upto(final(self).next_job as nat),
            final(self).completed@.len() == final(self).next_job,
            old(self).workers@.len() == 1 && old(self).workers@[0] is Idle
                ==> final(self).completed@ == old(self).completed@ + old(self).pending@,
    {
        self.close();
        let n = self.workers.len();
        let mut w: usize = 0;
        while w < n
            invariant
                self.wf(),
                n == self.workers@.len(),
                self.workers@.len() == old(self).workers@.len(),
                w <= n,
                !self.sender_alive,
                self.next_job == old(self).next_job,
                forall|i: int| 0 <= i < w ==> (#[trigger] self.workers@[i]) is Terminated,
                old(self).workers@.len() == 1 && old(self).workers@[0] is Idle
                    ==> self.completed@ + run_seq_of(self.workers@[0]) + self.pending@
                    =~= old(self).completed@ + old(self).pending@,
            decreases n - w,
        {
            loop
                invariant
                    self.wf(),
                    w < n,
                    n == self.workers@.len(),
                    self.workers@.len() == old(self).workers@.len(),
                    !self.sender_alive,
                    self.next_job == old(self).next_job,
                    forall|i: int| 0 <= i < w ==> (#[trigger] self.workers@[i]) is Terminated,
                    old(self).workers@.len() == 1 && old(self).workers@[0] is Idle
                        ==> self.completed@ + run_seq_of(self.workers@[0]) + self.pending@
                        =~= old(self).completed@ + old(self).pending@,
                ensures
                    self.wf(),
                    n == self.workers@.len(),
                    self.workers@.len() == old(self).workers@.len(),
                    !self.sender_alive,
                    self.next_job == old(self).next_job,
                    forall|i: int| 0 <= i < w ==> (#[trigger] self.workers@[i]) is Terminated,
                    self.workers@[w as int] is Terminated,
                    old(self).workers@.len() == 1 && old(self).workers@[0] is Idle
                        ==> self.completed@ + run_seq_of(self.workers@[0]) + self.pending@
                        =~= old(self).completed@ + old(self).pending@,
                decreases 2 * self.pending@.len() + worker_measure(self.workers@[w as int]),
            {
                let ghost before = *self;
                let st = self.workers[w];
                match st {
                    WorkerState::Terminated => {
                        break;
                    }
                    WorkerState::Running(_) => {
                        self.finish(w);
                        proof {
                            if old(self).workers@.len() == 1 && old(self).workers@[0] is Idle {
                                assert(before.completed@.push(job_of(before.workers@[0]))
                                    =~= before.completed@ + run_seq_of(before.workers@[0]));
                                assert(self.completed@ + run_seq_of(self.workers@[0])
                                    + self.pending@
                                    =~= old(self).completed@ + old(self).pending@);
                            }
                        }
                    }
                    WorkerState::Idle => {
                        let _evt = self.worker_step(w);
                        proof {
                            if old(self).workers@.len() == 1 && old(self).workers@[0] is Idle {
                                if before.pending@.len() > 0 {
                                    assert(before.pending@ =~= seq![before.pending@[0]]
                                        + before.pending@.drop_first());
                                    assert(run_seq_of(self.workers@[0]) =~= seq![
                                        before.pending@[0],
                                    ]);
                                    assert(self.completed@ + run_seq_of(self.workers@[0])
                                        + self.pending@
                                        =~= old(self).completed@ + old(self).pending@);
                                }
                            }
                        }
                    }
                }
            }
            w = w + 1;
        }
        proof {
            lemma_terminated_pool_completed_all(*self);
            if old(self).workers@.len() == 1 && old(self).workers@[0] is Idle {
                assert(self.workers@[0] is Terminated);
                assert(self.completed@ + run_seq_of(self.workers@[0]) + self.pending@
                    =~= self.completed@);
            }
        }
    }
}

/// Law: once every worker has terminated, the completion log holds exactly
/// the jobs the pool ever accepted — each submitted job was executed, and
/// executed exactly once. Teardown does not return before this state is
/// reached, so when releasing the pool returns, all accepted work is
/// observably complete.
pub proof fn lemma_terminated_pool_completed_all(p: ThreadPool)
    requires
        p.wf(),
        p.all_terminated(),
    ensures
        p.completed@.to_multiset() == ids_upto(p.next_job as nat),
        p.completed@.len() == p.next_job,
{
    broadcast use vstd::seq_lib::group_to_multiset_ensures;
    broadcast use vstd::multiset::lemma_multiset_empty_len;

    assert(p.pending@.len() == 0);
    lemma_running_jobs_no_running(p.workers@);
    assert forall|v: usize| p.live_jobs().count(v) == p.completed@.to_multiset().count(v) by {
        lemma_add_count(
            p.pending@.to_multiset().add(running_jobs(p.workers@)),
            p.completed@.to_multiset(),
            v,
        );
        lemma_add_count(p.pending@.to_multiset(), running_jobs(p.workers@), v);
    }
    assert(p.live_jobs() =~= p.completed@.to_multiset());
    lemma_ids_upto_len(p.next_job as nat);
}

/// Law: a job is never executed twice, and never lost while the pool is
/// open. Every id a submission handed out sits in exactly one place —
/// queued, on exactly one worker, or completed — and an id never handed
/// out is nowhere at all.
pub proof fn lemma_job_exactly_once(p: ThreadPool, j: usize)
    requires
        p.wf(),
    ensures
        p.pending@.to_multiset().count(j) + running_jobs(p.workers@).count(j)
            + p.completed@.to_multiset().count(j) == if (j as int) < p.next_job as int {
            1int
        } else {
            0int
        },
        p.completed@.to_multiset().count(j) <= 1,
        running_jobs(p.workers@).count(j) <= 1,
{
    lemma_add_count(
        p.pending@.to_multiset().add(running_jobs(p.workers@)),
        p.completed@.to_multiset(),
        j,
    );
    lemma_add_count(p.pending@.to_multiset(), running_jobs(p.workers@), j);
    lemma_ids_upto_count(p.next_job as nat, j);
}

/// Law: a job runs on exactly one worker thread. Whenever two distinct
/// workers are both running, they hold distinct jobs — claimed jobs really
/// execute in parallel, one per worker, never shared.
pub proof fn lemma_one_worker_per_job(p: ThreadPool, a: int, b: int)
    requires
        p.wf(),
        0 <= a < p.workers@.len(),
        0 <= b < p.workers@.len(),
        a != b,
        p.workers@[a] is Running,
        p.workers@[b] is Running,
    ensures
        job_of(p.workers@[a]) != job_of(p.workers@[b]),
{
    if job_of(p.workers@[a]) == job_of(p.workers@[b]) {
        let j = job_of(p.workers@[a]);
        if a < b {
            lemma_running_jobs_two(p.workers@, a, b);
        } else {
            lemma_running_jobs_two(p.workers@, b, a);
        }
        lemma_job_exactly_once(p, j);
    }
}

} // verus!
