//! A fixed set of workers and the queue of jobs that feeds them.
//!
//! The pool here is the bookkeeping of a thread pool without the threads: it
//! decides which job a worker gets, when a worker has to wait, and when it may
//! leave. Whoever owns the threads calls [`ThreadPool::claim`] from each of
//! them in turn, runs what it is handed outside any lock, and reports back
//! with [`ThreadPool::complete`] or [`ThreadPool::fail`].

use crate::pool_model::{
    lemma_claim_inv, lemma_complete_inv, lemma_fail_inv, lemma_first_alive, lemma_fresh_inv,
    lemma_shutdown_inv, lemma_submit_inv, PoolView, WorkerState,
};
use std::collections::VecDeque;
use vstd::prelude::*;

verus! {

/// What a worker is told when it asks for work.
pub enum Claim<J> {
    /// Run this job, then report back.
    Job(J),
    /// Nothing is queued, but more may come: ask again later.
    Wait,
    /// The queue is closed and empty: leave the loop.
    Shutdown,
}

/// One worker of the pool: its id, which is its place in the pool, and what
/// it is doing.
pub struct Worker {
    pub id: usize,
    pub state: WorkerState,
}

impl Worker {
    /// An idle worker with the given id.
    pub fn new(id: usize) -> (w: Self)
        ensures
            w.id == id,
            w.state == WorkerState::Idle,
    {
        Worker { id, state: WorkerState::Idle }
    }
}

/// A pool of a fixed number of workers that share one queue of jobs.
pub struct ThreadPool<J> {
    workers: Vec<Worker>,
    queue: VecDeque<J>,
    open: bool,
    joined: usize,
    submitted: Ghost<Seq<J>>,
    claimants: Ghost<Seq<int>>,
    holding: Ghost<Map<int, int>>,
    completed: Ghost<Set<int>>,
}

impl<J> View for ThreadPool<J> {
    type V = PoolView<J>;

    closed spec fn view(&self) -> PoolView<J> {
        PoolView {
            states: Seq::new(self.workers@.len(), |i: int| self.workers@[i].state),
            open: self.open,
            submitted: self.submitted@,
            claimants: self.claimants@,
            holding: self.holding@,
            completed: self.completed@,
            joined: self.joined as int,
        }
    }
}

impl<J> ThreadPool<J> {
    /// Whether the pool is in a state that `new` and the methods below can
    /// lead to: the model's invariant holds, the queue holds the pending jobs
    /// in their order, and each worker stands at the place of its id.
    pub closed spec fn wf(&self) -> bool {
        &&& self@.inv()
        &&& self.queue@ == self@.pending()
        &&& forall|i: int| 0 <= i < self.workers@.len() ==> (#[trigger] self.workers@[i]).id == i
    }

    /// A pool of `size` idle workers with an empty queue that accepts jobs.
    pub fn new(size: usize) -> (pool: Self)
        requires
            size > 0,
        ensures
            pool.wf(),
            pool@ == PoolView::<J>::fresh(size as nat),
    {
        let mut workers: Vec<Worker> = Vec::with_capacity(size);
        let mut id: usize = 0;
        while id < size
            invariant
                id <= size,
                workers@.len() == id,
                forall|i: int| 0 <= i < id ==> (#[trigger] workers@[i]).id == i,
                forall|i: int| 0 <= i < id ==> (#[trigger] workers@[i]).state == WorkerState::Idle,
            decreases size - id,
        {
            workers.push(Worker::new(id));
            id += 1;
        }
        let pool = ThreadPool {
            workers,
            queue: VecDeque::new(),
            open: true,
            joined: 0,
            submitted: Ghost(Seq::empty()),
            claimants: Ghost(Seq::empty()),
            holding: Ghost(Map::empty()),
            completed: Ghost(Set::empty()),
        };
        proof {
            lemma_fresh_inv::<J>(size as nat);
            assert(pool@.states =~= PoolView::<J>::fresh(size as nat).states);
        }
        pool
    }

    /// Puts `job` at the back of the queue. It never blocks and never
    /// refuses: the queue has no bound.
    pub fn execute(&mut self, job: J)
        requires
            old(self).wf(),
            old(self)@.open,
        ensures
            final(self).wf(),
            final(self)@ == old(self)@.submit(job),
    {
        proof {
            lemma_submit_inv(self@, job);
            self.submitted@ = self.submitted@.push(job);
        }
        self.queue.push_back(job);
    }

    /// The worker `worker`, which is idle, asks for work.
    ///
    /// If a job is pending it gets the oldest one and becomes busy. If the
    /// queue is empty but open it is told to wait, and nothing changes. If the
    /// queue is empty and closed it is told to leave, and is marked as exited.
    pub fn claim(&mut self, worker: usize) -> (claim: Claim<J>)
        requires
            old(self).wf(),
            old(self)@.has_worker(worker as int),
            old(self)@.states[worker as int] == WorkerState::Idle,
        ensures
            final(self).wf(),
            final(self)@ == old(self)@.claim(worker as int),
            match claim {
                Claim::Job(job) => old(self)@.pending().len() > 0 && job == old(self)@.pending()[0],
                Claim::Wait => old(self)@.pending().len() == 0 && old(self)@.open,
                Claim::Shutdown => old(self)@.pending().len() == 0 && !old(self)@.open,
            },
    {
        proof {
            lemma_claim_inv(self@, worker as int);
        }
        let ghost before = self@;
        match self.queue.pop_front() {
            Some(job) => {
                self.workers.set(worker, Worker { id: worker, state: WorkerState::Busy });
                proof {
                    self.holding@ = self.holding@.insert(worker as int, self.claimants@.len() as int);
                    self.claimants@ = self.claimants@.push(worker as int);
                    assert(self@.states =~= before.claim(worker as int).states);
                    assert(self.queue@ =~= self@.pending());
                }
                Claim::Job(job)
            },
            None => {
                if self.open {
                    Claim::Wait
                } else {
                    self.workers.set(worker, Worker { id: worker, state: WorkerState::Exited });
                    proof {
                        assert(self@.states =~= before.claim(worker as int).states);
                    }
                    Claim::Shutdown
                }
            },
        }
    }

    /// The worker `worker`, which is busy, reports that its job ran to its
    /// end. It becomes idle and the job counts as completed.
    pub fn complete(&mut self, worker: usize)
        requires
            old(self).wf(),
            old(self)@.has_worker(worker as int),
            old(self)@.states[worker as int] == WorkerState::Busy,
        ensures
            final(self).wf(),
            final(self)@ == old(self)@.complete(worker as int),
            !old(self)@.completed.contains(old(self)@.holding[worker as int]),
    {
        proof {
            lemma_complete_inv(self@, worker as int);
        }
        let ghost before = self@;
        self.workers.set(worker, Worker { id: worker, state: WorkerState::Idle });
        proof {
            self.completed@ = self.completed@.insert(self.holding@[worker as int]);
            self.holding@ = self.holding@.remove(worker as int);
            assert(self@.states =~= before.complete(worker as int).states);
        }
    }

    /// The worker `worker`, which is busy, has died: its job did not
    /// run to its end and its thread is gone. The pool goes on with one
    /// worker fewer; nothing is queued again.
    pub fn fail(&mut self, worker: usize)
        requires
            old(self).wf(),
            old(self)@.has_worker(worker as int),
            old(self)@.states[worker as int] == WorkerState::Busy,
        ensures
            final(self).wf(),
            final(self)@ == old(self)@.fail(worker as int),
    {
        proof {
            lemma_fail_inv(self@, worker as int);
        }
        let ghost before = self@;
        self.workers.set(worker, Worker { id: worker, state: WorkerState::Panicked });
        proof {
            assert(self@.states =~= before.fail(worker as int).states);
        }
    }

    /// One attempt at teardown. Closes the queue, then joins the workers in
    /// the order of their ids, from where the last attempt stopped, up to the
    /// first whose thread is still running. Returns whether every worker has
    /// been joined; if not, call again once that worker has moved on.
    ///
    /// A worker that died is joined like one that left in the ordinary way.
    pub fn shutdown(&mut self) -> (done: bool)
        requires
            old(self).wf(),
        ensures
            final(self).wf(),
            final(self)@ == old(self)@.shutdown(),
            done == final(self)@.torn_down(),
    {
        proof {
            lemma_shutdown_inv(self@);
            lemma_first_alive(self@, self@.joined);
        }
        let ghost before = self@;
        self.open = false;
        let n = self.workers.len();
        let mut next: usize = self.joined;
        while next < n && !self.workers[next].state.is_alive()
            invariant
                n == self.workers@.len(),
                before.joined <= next <= n,
                before.states == Seq::new(self.workers@.len(), |i: int| self.workers@[i].state),
                before.first_alive(before.joined) == before.first_alive(next as int),
            decreases n - next,
        {
            next += 1;
        }
        self.joined = next;
        proof {
            assert(before.first_alive(next as int) == next);
        }
        next == n
    }

    /// The number of workers.
    pub fn size(&self) -> (n: usize)
        ensures
            n == self@.states.len(),
    {
        self.workers.len()
    }

    /// What the worker `worker` is doing.
    pub fn state(&self, worker: usize) -> (s: WorkerState)
        requires
            self@.has_worker(worker as int),
        ensures
            s == self@.states[worker as int],
    {
        self.workers[worker].state
    }

    /// How many jobs wait in the queue.
    pub fn queued(&self) -> (n: usize)
        requires
            self.wf(),
        ensures
            n == self@.pending().len(),
    {
        self.queue.len()
    }

    /// Whether jobs can still be submitted.
    pub fn is_open(&self) -> (open: bool)
        ensures
            open == self@.open,
    {
        self.open
    }

    /// How many workers have been joined.
    pub fn joined(&self) -> (n: usize)
        ensures
            n == self@.joined,
    {
        self.joined
    }
}

} // verus!
