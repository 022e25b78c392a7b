//! The pool as a state machine over mathematical values.
//!
//! Every job gets a ticket: its position in the order of submission. A
//! [`PoolView`] records who claimed each ticket and which tickets are done.
//! Its invariant says that no ticket is lost or handed out twice, and the
//! lemmas below show that every step of the pool keeps it.

use vstd::prelude::*;

verus! {

/// What one worker is doing.
#[derive(Clone, Copy, PartialEq, Eq, Structural, Debug)]
pub enum WorkerState {
    /// Waiting for a job.
    Idle,
    /// Running the job it claimed last.
    Busy,
    /// Left its loop after the queue was closed and drained.
    Exited,
    /// Died while running a job.
    Panicked,
}

impl WorkerState {
    /// Whether the worker's thread is still running.
    pub open spec fn alive(self) -> bool {
        self == WorkerState::Idle || self == WorkerState::Busy
    }

    /// Whether the worker's thread is still running.
    pub fn is_alive(&self) -> (r: bool)
        ensures
            r == self.alive(),
    {
        match self {
            WorkerState::Idle => true,
            WorkerState::Busy => true,
            WorkerState::Exited => false,
            WorkerState::Panicked => false,
        }
    }
}

/// One thing that can happen to a pool.
pub enum Step<J> {
    /// A job is submitted.
    Submit(J),
    /// The worker with this id asks for work.
    Claim(int),
    /// The worker with this id finishes its job.
    Complete(int),
    /// The worker with this id dies in its job.
    Fail(int),
    /// The owner attempts teardown.
    Shutdown,
}

/// The pool as a mathematical value.
///
/// Tickets number the jobs in the order of submission, from zero.
pub struct PoolView<J> {
    /// The state of each worker, by its id.
    pub states: Seq<WorkerState>,
    /// Whether jobs can still be submitted.
    pub open: bool,
    /// Every job ever submitted, oldest first.
    pub submitted: Seq<J>,
    /// For each ticket handed out so far, the worker that claimed it.
    pub claimants: Seq<int>,
    /// For each worker that took a job and has not finished it, its ticket.
    pub holding: Map<int, int>,
    /// The tickets of the jobs that ran to their end.
    pub completed: Set<int>,
    /// How many workers, counted from worker 0, have been joined.
    pub joined: int,
}

impl<J> PoolView<J> {
    /// How many jobs have been handed to workers.
    pub open spec fn claimed(self) -> int {
        self.claimants.len() as int
    }

    /// The jobs that wait in the queue, oldest first: all that were submitted
    /// and not yet handed out.
    pub open spec fn pending(self) -> Seq<J> {
        self.submitted.skip(self.claimed())
    }

    /// Whether `worker` names a worker of this pool.
    pub open spec fn has_worker(self, worker: int) -> bool {
        0 <= worker < self.states.len()
    }

    /// What holds of every pool that was built by `new` and changed only by
    /// the pool's own methods.
    pub open spec fn inv(self) -> bool {
        &&& self.states.len() > 0
        &&& self.claimed() <= self.submitted.len()
        &&& forall|t: int| 0 <= t < self.claimed() ==> self.has_worker(#[trigger] self.claimants[t])
        &&& forall|w: int| #[trigger]
            self.holding.dom().contains(w) <==> self.has_worker(w) && (self.states[w]
                == WorkerState::Busy || self.states[w] == WorkerState::Panicked)
        &&& forall|w: int| #[trigger]
            self.holding.dom().contains(w) ==> {
                &&& 0 <= self.holding[w] < self.claimed()
                &&& self.claimants[self.holding[w]] == w
                &&& !self.completed.contains(self.holding[w])
            }
        &&& forall|w: int, t: int|
            #![trigger self.holding.dom().contains(w), self.claimants[t]]
            self.holding.dom().contains(w) && 0 <= t < self.claimed() && self.claimants[t] == w
                ==> t <= self.holding[w]
        &&& forall|t: int| #[trigger] self.completed.contains(t) ==> 0 <= t < self.claimed()
        &&& forall|t: int|
            0 <= t < self.claimed() && !self.completed.contains(t) ==> {
                &&& self.holding.dom().contains(#[trigger] self.claimants[t])
                &&& self.holding[self.claimants[t]] == t
            }
        &&& forall|w: int|
            self.has_worker(w) && #[trigger] self.states[w] == WorkerState::Exited ==> !self.open
                && self.claimed() == self.submitted.len()
        &&& 0 <= self.joined <= self.states.len()
        &&& self.joined > 0 ==> !self.open
        &&& forall|w: int| 0 <= w < self.joined ==> !(#[trigger] self.states[w]).alive()
    }

    /// A new pool of `size` idle workers with an empty, open queue.
    pub open spec fn fresh(size: nat) -> Self {
        PoolView {
            states: Seq::new(size, |i: int| WorkerState::Idle),
            open: true,
            submitted: Seq::empty(),
            claimants: Seq::empty(),
            holding: Map::empty(),
            completed: Set::empty(),
            joined: 0,
        }
    }

    /// The pool after `job` was put at the back of the queue.
    pub open spec fn submit(self, job: J) -> Self {
        PoolView { submitted: self.submitted.push(job), ..self }
    }

    /// The pool after the idle worker `worker` asked for work: it takes the
    /// oldest pending job if there is one, waits if the queue is empty and
    /// open, and leaves if it is empty and closed.
    pub open spec fn claim(self, worker: int) -> Self {
        if self.claimed() < self.submitted.len() {
            PoolView {
                states: self.states.update(worker, WorkerState::Busy),
                claimants: self.claimants.push(worker),
                holding: self.holding.insert(worker, self.claimed()),
                ..self
            }
        } else if self.open {
            self
        } else {
            PoolView { states: self.states.update(worker, WorkerState::Exited), ..self }
        }
    }

    /// The pool after the busy worker `worker` finished its job.
    pub open spec fn complete(self, worker: int) -> Self {
        PoolView {
            states: self.states.update(worker, WorkerState::Idle),
            holding: self.holding.remove(worker),
            completed: self.completed.insert(self.holding[worker]),
            ..self
        }
    }

    /// The pool after the busy worker `worker` died in its job.
    pub open spec fn fail(self, worker: int) -> Self {
        PoolView { states: self.states.update(worker, WorkerState::Panicked), ..self }
    }

    /// The first worker at or after `from` whose thread is still running, or
    /// the number of workers if there is none.
    pub open spec fn first_alive(self, from: int) -> int
        decreases self.states.len() - from,
    {
        if from < 0 || from >= self.states.len() {
            self.states.len() as int
        } else if self.states[from].alive() {
            from
        } else {
            self.first_alive(from + 1)
        }
    }

    /// The pool after a teardown attempt: the queue is closed, and the
    /// workers are joined in order up to the first that is still running.
    pub open spec fn shutdown(self) -> Self {
        PoolView { open: false, joined: self.first_alive(self.joined), ..self }
    }

    /// Whether `step` can happen now: jobs go only into an open queue, only
    /// an idle worker asks for work, and only a busy one finishes or dies.
    pub open spec fn allows(self, step: Step<J>) -> bool {
        match step {
            Step::Submit(_) => self.open,
            Step::Claim(w) => self.has_worker(w) && self.states[w] == WorkerState::Idle,
            Step::Complete(w) => self.has_worker(w) && self.states[w] == WorkerState::Busy,
            Step::Fail(w) => self.has_worker(w) && self.states[w] == WorkerState::Busy,
            Step::Shutdown => true,
        }
    }

    /// The pool after `step`.
    pub open spec fn step(self, step: Step<J>) -> Self {
        match step {
            Step::Submit(job) => self.submit(job),
            Step::Claim(w) => self.claim(w),
            Step::Complete(w) => self.complete(w),
            Step::Fail(w) => self.fail(w),
            Step::Shutdown => self.shutdown(),
        }
    }

    /// Whether `steps` can happen one after the other, starting now.
    pub open spec fn admits(self, steps: Seq<Step<J>>) -> bool
        decreases steps.len(),
    {
        steps.len() == 0 || (self.admits(steps.drop_last()) && self.after(steps.drop_last()).allows(
            steps.last(),
        ))
    }

    /// The pool after `steps`, taken in order.
    pub open spec fn after(self, steps: Seq<Step<J>>) -> Self
        decreases steps.len(),
    {
        if steps.len() == 0 {
            self
        } else {
            self.after(steps.drop_last()).step(steps.last())
        }
    }

    /// Whether `later` can have come from this pool: it has the same workers,
    /// and what was submitted, handed out and completed here still is there.
    pub open spec fn extended_by(self, later: Self) -> bool {
        &&& later.states.len() == self.states.len()
        &&& self.submitted.is_prefix_of(later.submitted)
        &&& self.claimants.is_prefix_of(later.claimants)
        &&& self.completed.subset_of(later.completed)
        &&& self.joined <= later.joined
        &&& later.open ==> self.open
    }

    /// Whether teardown is over: every worker has been joined.
    pub open spec fn torn_down(self) -> bool {
        self.joined == self.states.len()
    }
}


/// A new pool of at least one worker meets the invariant.
pub proof fn lemma_fresh_inv<J>(size: nat)
    requires
        size > 0,
    ensures
        PoolView::<J>::fresh(size).inv(),
        PoolView::<J>::fresh(size).pending() =~= Seq::<J>::empty(),
{
}

/// A pool is never without workers: a pool of none does not meet the
/// invariant, and so no step leads to one.
pub proof fn lemma_pool_is_never_empty<J>(v: PoolView<J>)
    requires
        v.inv(),
    ensures
        v.states.len() > 0,
        !PoolView::<J>::fresh(0).inv(),
{
}

/// Submitting to an open pool keeps the invariant and lengthens the queue by
/// the new job, at its back.
pub proof fn lemma_submit_inv<J>(v: PoolView<J>, job: J)
    requires
        v.inv(),
        v.open,
    ensures
        v.submit(job).inv(),
        v.submit(job).pending() =~= v.pending().push(job),
{
}

/// A claim by an idle worker keeps the invariant. If a job is pending the
/// worker is handed the oldest one, and the rest of the queue keeps its order.
pub proof fn lemma_claim_inv<J>(v: PoolView<J>, worker: int)
    requires
        v.inv(),
        v.has_worker(worker),
        v.states[worker] == WorkerState::Idle,
    ensures
        v.claim(worker).inv(),
        v.pending().len() > 0 ==> {
            &&& v.claim(worker).states[worker] == WorkerState::Busy
            &&& v.claim(worker).holding[worker] == v.claimed()
            &&& v.submitted[v.claimed()] == v.pending()[0]
            &&& v.claim(worker).pending() =~= v.pending().skip(1)
        },
        v.pending().len() == 0 ==> v.claim(worker).pending() =~= v.pending(),
{
    let n = v.claim(worker);
    if v.claimed() < v.submitted.len() {
        assert forall|t: int| 0 <= t < n.claimed() && !n.completed.contains(t) implies {
            &&& n.holding.dom().contains(#[trigger] n.claimants[t])
            &&& n.holding[n.claimants[t]] == t
        } by {
            if t < v.claimed() {
                assert(v.holding.dom().contains(v.claimants[t]));
            }
        }
        assert forall|w: int| #[trigger] n.holding.dom().contains(w) implies {
            &&& 0 <= n.holding[w] < n.claimed()
            &&& n.claimants[n.holding[w]] == w
            &&& !n.completed.contains(n.holding[w])
        } by {
            if w != worker {
                assert(v.holding.dom().contains(w));
            }
        }
    }
}

/// A busy worker that finishes keeps the invariant; its ticket was not among
/// the completed ones before.
pub proof fn lemma_complete_inv<J>(v: PoolView<J>, worker: int)
    requires
        v.inv(),
        v.has_worker(worker),
        v.states[worker] == WorkerState::Busy,
    ensures
        v.complete(worker).inv(),
        !v.completed.contains(v.holding[worker]),
        v.complete(worker).pending() == v.pending(),
{
    let n = v.complete(worker);
    assert(v.holding.dom().contains(worker));
    assert forall|t: int| 0 <= t < n.claimed() && !n.completed.contains(t) implies {
        &&& n.holding.dom().contains(#[trigger] n.claimants[t])
        &&& n.holding[n.claimants[t]] == t
    } by {
        assert(v.holding.dom().contains(v.claimants[t]));
    }
    assert forall|w: int| #[trigger] n.holding.dom().contains(w) implies {
        &&& 0 <= n.holding[w] < n.claimed()
        &&& n.claimants[n.holding[w]] == w
        &&& !n.completed.contains(n.holding[w])
    } by {
        assert(v.holding.dom().contains(w));
    }
}

/// A busy worker that dies keeps the invariant: its ticket stays with it and
/// nothing else changes.
pub proof fn lemma_fail_inv<J>(v: PoolView<J>, worker: int)
    requires
        v.inv(),
        v.has_worker(worker),
        v.states[worker] == WorkerState::Busy,
    ensures
        v.fail(worker).inv(),
        v.fail(worker).pending() == v.pending(),
{
    let n = v.fail(worker);
    assert(v.holding.dom().contains(worker));
    assert forall|w: int| #[trigger] n.holding.dom().contains(w) implies {
        &&& 0 <= n.holding[w] < n.claimed()
        &&& n.claimants[n.holding[w]] == w
        &&& !n.completed.contains(n.holding[w])
    } by {
        assert(v.holding.dom().contains(w));
    }
}

/// Where `first_alive` lands: between `from` and the number of workers, past
/// none but finished workers, and on a running one unless it reached the end.
pub proof fn lemma_first_alive<J>(v: PoolView<J>, from: int)
    requires
        0 <= from <= v.states.len(),
    ensures
        from <= v.first_alive(from) <= v.states.len(),
        forall|w: int| from <= w < v.first_alive(from) ==> !(#[trigger] v.states[w]).alive(),
        v.first_alive(from) < v.states.len() ==> v.states[v.first_alive(from)].alive(),
    decreases v.states.len() - from,
{
    if from < v.states.len() && !v.states[from].alive() {
        lemma_first_alive(v, from + 1);
    }
}

/// A teardown attempt keeps the invariant.
pub proof fn lemma_shutdown_inv<J>(v: PoolView<J>)
    requires
        v.inv(),
    ensures
        v.shutdown().inv(),
        v.shutdown().pending() == v.pending(),
{
    lemma_first_alive(v, v.joined);
}

/// No job is lost and none is handed out twice: every ticket is in exactly
/// one place. It waits in the queue, or it ran to its end, or exactly one
/// worker holds it, and that worker is busy with it or died in it.
pub proof fn lemma_every_ticket_in_one_place<J>(v: PoolView<J>, t: int)
    requires
        v.inv(),
        0 <= t < v.submitted.len(),
    ensures
        t >= v.claimed() ==> {
            &&& v.pending()[t - v.claimed()] == v.submitted[t]
            &&& !v.completed.contains(t)
            &&& forall|w: int| v.holding.dom().contains(w) ==> v.holding[w] != t
        },
        t < v.claimed() && v.completed.contains(t) ==> {
            forall|w: int| v.holding.dom().contains(w) ==> v.holding[w] != t
        },
        t < v.claimed() && !v.completed.contains(t) ==> {
            &&& v.holding.dom().contains(v.claimants[t])
            &&& v.holding[v.claimants[t]] == t
            &&& v.states[v.claimants[t]] == WorkerState::Busy || v.states[v.claimants[t]]
                == WorkerState::Panicked
            &&& forall|w: int| v.holding.dom().contains(w) && v.holding[w] == t ==> w == v.claimants[t]
        },
{
    if t < v.claimed() && !v.completed.contains(t) {
        assert(v.holding.dom().contains(v.claimants[t]));
    }
}

/// Once every worker has left its loop in the ordinary way, every job that
/// was ever submitted has run to its end, and nothing else has.
pub proof fn lemma_all_jobs_ran<J>(v: PoolView<J>)
    requires
        v.inv(),
        forall|w: int| v.has_worker(w) ==> v.states[w] == WorkerState::Exited,
    ensures
        !v.open,
        v.pending() =~= Seq::<J>::empty(),
        forall|t: int| 0 <= t < v.submitted.len() <==> v.completed.contains(t),
{
    assert(v.has_worker(0));
    assert(v.states[0] == WorkerState::Exited);
    assert forall|t: int| 0 <= t < v.submitted.len() implies v.completed.contains(t) by {
        if !v.completed.contains(t) {
            let w = v.claimants[t];
            assert(v.holding.dom().contains(w));
            assert(v.has_worker(w));
        }
    }
}

/// Jobs leave the queue in the order in which they came: of two claims, the
/// earlier one gets the job that was submitted earlier.
pub proof fn lemma_claims_in_submission_order<J>(v: PoolView<J>, first: int, second: int)
    requires
        v.inv(),
        v.has_worker(first),
        v.states[first] == WorkerState::Idle,
        v.claim(first).has_worker(second),
        v.claim(first).states[second] == WorkerState::Idle,
        v.pending().len() >= 2,
    ensures
        v.claim(first).holding[first] == v.claimed(),
        v.claim(first).claim(second).holding[second] == v.claimed() + 1,
        v.submitted[v.claimed()] == v.pending()[0],
        v.submitted[v.claimed() + 1] == v.pending()[1],
{
}

/// A pool of one worker runs its jobs one after the other: a job has run to
/// its end only if every job submitted before it has, unless the worker died.
pub proof fn lemma_single_worker_runs_in_order<J>(v: PoolView<J>, earlier: int, later: int)
    requires
        v.inv(),
        v.states.len() == 1,
        v.states[0] != WorkerState::Panicked,
        0 <= earlier <= later,
        v.completed.contains(later),
    ensures
        v.completed.contains(earlier),
{
    if !v.completed.contains(earlier) {
        assert(v.has_worker(v.claimants[earlier]));
        assert(v.has_worker(v.claimants[later]));
        assert(v.holding.dom().contains(v.claimants[earlier]));
    }
}

/// When teardown is over no worker is running and the queue is closed.
pub proof fn lemma_torn_down_means_stopped<J>(v: PoolView<J>)
    requires
        v.inv(),
        v.torn_down(),
    ensures
        !v.open,
        forall|w: int| v.has_worker(w) ==> !(#[trigger] v.states[w]).alive(),
{
}

/// Teardown is over after an attempt exactly if no worker from the joined
/// ones on is still running.
pub proof fn lemma_shutdown_finishes<J>(v: PoolView<J>)
    requires
        v.inv(),
    ensures
        v.shutdown().torn_down() <==> forall|w: int|
            v.joined <= w < v.states.len() ==> !(#[trigger] v.states[w]).alive(),
{
    lemma_first_alive(v, v.joined);
}

/// Every step that can happen keeps the invariant, and takes nothing back:
/// the workers stay the same in number, and what was submitted, handed out
/// or completed stays so.
pub proof fn lemma_step_keeps_inv<J>(v: PoolView<J>, step: Step<J>)
    requires
        v.inv(),
        v.allows(step),
    ensures
        v.step(step).inv(),
        v.extended_by(v.step(step)),
{
    match step {
        Step::Submit(job) => lemma_submit_inv(v, job),
        Step::Claim(w) => lemma_claim_inv(v, w),
        Step::Complete(w) => lemma_complete_inv(v, w),
        Step::Fail(w) => lemma_fail_inv(v, w),
        Step::Shutdown => {
            lemma_shutdown_inv(v);
            lemma_first_alive(v, v.joined);
        },
    }
}

/// The invariant holds after any run of steps from a pool that meets it, and
/// from a new pool in particular; the run takes nothing back.
pub proof fn lemma_run_keeps_inv<J>(v: PoolView<J>, steps: Seq<Step<J>>)
    requires
        v.inv(),
        v.admits(steps),
    ensures
        v.after(steps).inv(),
        v.extended_by(v.after(steps)),
    decreases steps.len(),
{
    if steps.len() > 0 {
        lemma_run_keeps_inv(v, steps.drop_last());
        lemma_step_keeps_inv(v.after(steps.drop_last()), steps.last());
    }
}

/// However a new pool is used, once all its workers have left their loops in
/// the ordinary way every job that was submitted has run to its end.
pub proof fn lemma_new_pool_runs_every_job<J>(size: nat, steps: Seq<Step<J>>)
    requires
        size > 0,
        PoolView::<J>::fresh(size).admits(steps),
        forall|w: int|
            0 <= w < size ==> PoolView::<J>::fresh(size).after(steps).states[w] == WorkerState::Exited,
    ensures
        forall|t: int|
            0 <= t < PoolView::<J>::fresh(size).after(steps).submitted.len()
                <==> PoolView::<J>::fresh(size).after(steps).completed.contains(t),
        PoolView::<J>::fresh(size).after(steps).pending() =~= Seq::<J>::empty(),
{
    lemma_fresh_inv::<J>(size);
    lemma_run_keeps_inv(PoolView::<J>::fresh(size), steps);
    lemma_all_jobs_ran(PoolView::<J>::fresh(size).after(steps));
}

} // verus!
