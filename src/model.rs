//! How jobs flow through a pool of fixed size.
//!
//! A pool's state is the queue of jobs waiting, what each live worker is
//! doing, and the jobs whose execution has ended, in the order they ended.
//! Jobs are named by a `u64` of the caller's choosing. `PoolModel` replays
//! the pool one event at a time; the proofs below state what holds of every
//! sequence of events.
use crate::worker::{keeps_capacity, next_action, Barrier, Outcome, WorkerAction, WorkerEvent};
use vstd::prelude::*;

verus! {

/// The state of a pool.
pub struct PoolView {
    pub barrier: Barrier,
    /// The number of workers the pool was built with.
    pub size: nat,
    /// Jobs submitted and not yet taken by a worker, oldest first.
    pub queue: Seq<u64>,
    /// One entry per live worker: the job it runs, or `None` while it waits.
    pub workers: Seq<Option<u64>>,
    /// Jobs whose execution has ended, with how it ended, in that order.
    pub finished: Seq<(u64, Outcome)>,
}

/// The jobs that the workers are running, in the order of the workers.
pub open spec fn running(workers: Seq<Option<u64>>) -> Seq<u64>
    decreases workers.len(),
{
    if workers.len() == 0 {
        Seq::empty()
    } else {
        let rest = running(workers.drop_last());
        match workers.last() {
            Some(j) => rest.push(j),
            None => rest,
        }
    }
}

/// The jobs of a list of ended executions.
pub open spec fn jobs_of(finished: Seq<(u64, Outcome)>) -> Seq<u64> {
    finished.map_values(|e: (u64, Outcome)| e.0)
}

impl PoolView {
    /// A new pool: `size` workers, all waiting, and nothing submitted.
    pub open spec fn fresh(barrier: Barrier, size: nat) -> PoolView {
        PoolView {
            barrier,
            size,
            queue: Seq::empty(),
            workers: Seq::new(size, |i: int| None),
            finished: Seq::empty(),
        }
    }

    /// The pool has as many live workers as it was built with.
    pub open spec fn wf(self) -> bool {
        self.workers.len() == self.size
    }

    /// Nothing waits and every worker waits.
    pub open spec fn quiescent(self) -> bool {
        &&& self.queue.len() == 0
        &&& forall|i: int| 0 <= i < self.workers.len() ==> self.workers[i] is None
    }

    /// `job` joins the end of the queue.
    pub open spec fn submitted(self, job: u64) -> PoolView {
        PoolView { queue: self.queue.push(job), ..self }
    }

    /// Worker `w` can take a job: it exists, waits, and a job waits.
    pub open spec fn can_dispatch(self, w: int) -> bool {
        &&& 0 <= w < self.workers.len()
        &&& self.workers[w] is None
        &&& self.queue.len() > 0
    }

    /// Worker `w` takes the oldest job of the queue, if it can.
    pub open spec fn dispatched(self, w: int) -> PoolView {
        if self.can_dispatch(w) {
            PoolView {
                queue: self.queue.remove(0),
                workers: self.workers.update(w, Some(self.queue[0])),
                ..self
            }
        } else {
            self
        }
    }

    /// Worker `w` runs a job.
    pub open spec fn is_running(self, w: int) -> bool {
        0 <= w < self.workers.len() && self.workers[w] is Some
    }

    /// What worker `w` does once its job ends with `outcome`.
    pub open spec fn action_after(self, outcome: Outcome) -> WorkerAction {
        next_action(self.barrier, WorkerEvent::JobEnded(outcome))
    }

    /// The job of worker `w` ends with `outcome`, if it runs one. The ended
    /// execution is recorded; the worker, or the replacement that its guard
    /// starts, waits again; a worker whose action ends it for good is gone.
    pub open spec fn ended(self, w: int, outcome: Outcome) -> PoolView {
        if self.is_running(w) {
            PoolView {
                workers: if keeps_capacity(self.action_after(outcome)) {
                    self.workers.update(w, None)
                } else {
                    self.workers.remove(w)
                },
                finished: self.finished.push((self.workers[w]->0, outcome)),
                ..self
            }
        } else {
            self
        }
    }
}

/// A pool replayed one event at a time.
pub struct PoolModel {
    barrier: Barrier,
    size: usize,
    queue: Vec<u64>,
    workers: Vec<Option<u64>>,
    finished: Vec<(u64, Outcome)>,
}

impl View for PoolModel {
    type V = PoolView;

    closed spec fn view(&self) -> PoolView {
        PoolView {
            barrier: self.barrier,
            size: self.size as nat,
            queue: self.queue@,
            workers: self.workers@,
            finished: self.finished@,
        }
    }
}

impl PoolModel {
    /// A pool of `size` waiting workers with an empty queue. A size of zero
    /// is allowed: such a pool accepts jobs and never runs one.
    pub fn new(barrier: Barrier, size: usize) -> (r: Self)
        ensures
            r@ == PoolView::fresh(barrier, size as nat),
            r@.wf(),
    {
        let mut workers: Vec<Option<u64>> = Vec::new();
        let mut i: usize = 0;
        while i < size
            invariant
                i <= size,
                workers@ == Seq::new(i as nat, |k: int| None::<u64>),
            decreases size - i,
        {
            workers.push(None);
            i = i + 1;
            assert(workers@ =~= Seq::new(i as nat, |k: int| None::<u64>));
        }
        let r = PoolModel { barrier, size, queue: Vec::new(), workers, finished: Vec::new() };
        assert(r@.queue =~= Seq::<u64>::empty());
        assert(r@.finished =~= Seq::<(u64, Outcome)>::empty());
        r
    }

    /// Submits `job`; it never fails.
    pub fn submit(&mut self, job: u64)
        ensures
            final(self)@ == old(self)@.submitted(job),
    {
        self.queue.push(job);
    }

    /// Worker `w` takes the oldest waiting job, which is returned; `None`
    /// where there is no such worker, it is busy, or nothing waits.
    pub fn dispatch(&mut self, w: usize) -> (r: Option<u64>)
        ensures
            final(self)@ == old(self)@.dispatched(w as int),
            r == (if old(self)@.can_dispatch(w as int) {
                Some(old(self)@.queue[0])
            } else {
                None::<u64>
            }),
    {
        if w < self.workers.len() && self.workers[w].is_none() && self.queue.len() > 0 {
            let job = self.queue.remove(0);
            self.workers.set(w, Some(job));
            Some(job)
        } else {
            None
        }
    }

    /// The job of worker `w` ends with `outcome`. Returns what the worker
    /// does next; `None` where there is no such worker or it runs no job.
    pub fn finish(&mut self, w: usize, outcome: Outcome) -> (r: Option<WorkerAction>)
        ensures
            final(self)@ == old(self)@.ended(w as int, outcome),
            r == (if old(self)@.is_running(w as int) {
                Some(old(self)@.action_after(outcome))
            } else {
                None::<WorkerAction>
            }),
    {
        if w < self.workers.len() {
            match self.workers[w] {
                Some(job) => {
                    let action = crate::worker::step(self.barrier, WorkerEvent::JobEnded(outcome));
                    if action != WorkerAction::Exit {
                        self.workers.set(w, None);
                    } else {
                        self.workers.remove(w);
                    }
                    self.finished.push((job, outcome));
                    Some(action)
                },
                None => None,
            }
        } else {
            None
        }
    }

    /// The number of live workers.
    pub fn live_workers(&self) -> (r: usize)
        ensures
            r == self@.workers.len(),
    {
        self.workers.len()
    }

    /// The jobs waiting in the queue, oldest first.
    pub fn pending(&self) -> (r: &Vec<u64>)
        ensures
            r@ == self@.queue,
    {
        &self.queue
    }

    /// The executions that have ended, in the order they ended.
    pub fn finished(&self) -> (r: &Vec<(u64, Outcome)>)
        ensures
            r@ == self@.finished,
    {
        &self.finished
    }
}

} // verus!
