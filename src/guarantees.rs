//! What holds of a pool after any sequence of events.
//!
//! An event is a submission, a worker taking a job, or a job ending, in any
//! order and with any outcome; events that do not apply (a worker that does
//! not exist or is busy) change nothing.
use crate::model::{jobs_of, running, PoolView};
use crate::worker::{lemma_job_end_keeps_worker, Barrier, Outcome, WorkerEvent};
use vstd::multiset::Multiset;
use vstd::prelude::*;
use vstd::seq_lib::group_to_multiset_ensures;

verus! {

/// One event of a pool's life.
pub enum PoolEvent {
    Submit(u64),
    Dispatch(int),
    End(int, Outcome),
}

/// The state after one event.
pub open spec fn apply(s: PoolView, e: PoolEvent) -> PoolView {
    match e {
        PoolEvent::Submit(job) => s.submitted(job),
        PoolEvent::Dispatch(w) => s.dispatched(w),
        PoolEvent::End(w, outcome) => s.ended(w, outcome),
    }
}

/// The state after a sequence of events, the first applied first.
pub open spec fn run(s: PoolView, events: Seq<PoolEvent>) -> PoolView
    decreases events.len(),
{
    if events.len() == 0 {
        s
    } else {
        apply(run(s, events.drop_last()), events.last())
    }
}

/// The jobs submitted by a sequence of events, in order.
pub open spec fn submissions(events: Seq<PoolEvent>) -> Seq<u64>
    decreases events.len(),
{
    if events.len() == 0 {
        Seq::empty()
    } else {
        let rest = submissions(events.drop_last());
        match events.last() {
            PoolEvent::Submit(job) => rest.push(job),
            _ => rest,
        }
    }
}

/// Every job the pool holds: waiting, running or ended.
pub open spec fn held(s: PoolView) -> Multiset<u64> {
    s.queue.to_multiset().add(running(s.workers).to_multiset()).add(
        jobs_of(s.finished).to_multiset(),
    )
}

/// The jobs of a pool in the order of a single worker: those that ended,
/// the one running, then those waiting.
pub open spec fn order(s: PoolView) -> Seq<u64> {
    jobs_of(s.finished) + running(s.workers) + s.queue
}

/// A job slot as a multiset: its job, or nothing.
pub open spec fn slot_jobs(slot: Option<u64>) -> Multiset<u64> {
    match slot {
        Some(j) => Multiset::singleton(j),
        None => Multiset::empty(),
    }
}

proof fn lemma_running_last(ws: Seq<Option<u64>>)
    requires
        ws.len() > 0,
    ensures
        running(ws).to_multiset() =~= running(ws.drop_last()).to_multiset().add(
            slot_jobs(ws.last()),
        ),
{
    broadcast use group_to_multiset_ensures;

}

/// Changing one worker's slot changes the running jobs by that slot alone.
proof fn lemma_running_update(ws: Seq<Option<u64>>, w: int, v: Option<u64>)
    requires
        0 <= w < ws.len(),
    ensures
        running(ws.update(w, v)).to_multiset().add(slot_jobs(ws[w])) =~= running(
            ws,
        ).to_multiset().add(slot_jobs(v)),
    decreases ws.len(),
{
    broadcast use group_to_multiset_ensures;

    let u = ws.update(w, v);
    lemma_running_last(u);
    lemma_running_last(ws);
    if w == ws.len() - 1 {
        assert(u.drop_last() =~= ws.drop_last());
        assert(u.last() == v);
        assert(ws.last() == ws[w]);
        let r = running(ws.drop_last()).to_multiset();
        assert(running(u).to_multiset() =~= r.add(slot_jobs(v)));
        assert(running(ws).to_multiset() =~= r.add(slot_jobs(ws[w])));
        assert(r.add(slot_jobs(v)).add(slot_jobs(ws[w])) =~= r.add(slot_jobs(ws[w])).add(slot_jobs(v)));
    } else {
        assert(u.drop_last() =~= ws.drop_last().update(w, v));
        assert(u.last() == ws.last());
        assert(ws.drop_last()[w] == ws[w]);
        lemma_running_update(ws.drop_last(), w, v);
        let ru = running(u.drop_last()).to_multiset();
        let r = running(ws.drop_last()).to_multiset();
        let l = slot_jobs(ws.last());
        assert(ru.add(slot_jobs(ws[w])) =~= r.add(slot_jobs(v)));
        assert forall|k: u64|
            ru.add(l).add(slot_jobs(ws[w])).count(k) == r.add(l).add(slot_jobs(v)).count(k) by {
            assert(ru.add(slot_jobs(ws[w])).count(k) == r.add(slot_jobs(v)).count(k));
        }
        assert(ru.add(l).add(slot_jobs(ws[w])) =~= r.add(l).add(slot_jobs(v)));
    }
}

/// With every worker waiting, nothing runs.
proof fn lemma_running_idle(ws: Seq<Option<u64>>)
    requires
        forall|i: int| 0 <= i < ws.len() ==> ws[i] is None,
    ensures
        running(ws) == Seq::<u64>::empty(),
    decreases ws.len(),
{
    if ws.len() > 0 {
        lemma_running_idle(ws.drop_last());
    }
}

proof fn lemma_jobs_of_push(f: Seq<(u64, Outcome)>, e: (u64, Outcome))
    ensures
        jobs_of(f.push(e)) =~= jobs_of(f).push(e.0),
{
}

/// One event keeps the pool's size and adds to what it holds only the job
/// that the event submits.
proof fn lemma_apply(s: PoolView, e: PoolEvent)
    requires
        s.wf(),
    ensures
        apply(s, e).wf(),
        apply(s, e).size == s.size,
        held(apply(s, e)) == match e {
            PoolEvent::Submit(job) => held(s).insert(job),
            _ => held(s),
        },
{
    broadcast use group_to_multiset_ensures;

    match e {
        PoolEvent::Submit(job) => {
            assert(held(apply(s, e)) =~= held(s).insert(job));
        },
        PoolEvent::Dispatch(w) => {
            if s.can_dispatch(w) {
                let t = apply(s, e);
                let q0 = s.queue[0];
                lemma_running_update(s.workers, w, Some(q0));
                assert(s.queue.contains(q0));
                assert(t.queue.to_multiset() =~= s.queue.to_multiset().remove(q0));
                assert(running(t.workers).to_multiset() =~= running(s.workers).to_multiset().insert(q0)) by {
                    assert(slot_jobs(s.workers[w]) =~= Multiset::empty());
                    assert(slot_jobs(Some(q0)) =~= Multiset::singleton(q0));
                }
                assert forall|k: u64| held(t).count(k) == held(s).count(k) by {}
                assert(held(t) =~= held(s));
            }
        },
        PoolEvent::End(w, outcome) => {
            if s.is_running(w) {
                lemma_job_end_keeps_worker(s.barrier, WorkerEvent::JobEnded(outcome));
                lemma_running_update(s.workers, w, None);
                let t = apply(s, e);
                let j = s.workers[w]->0;
                lemma_jobs_of_push(s.finished, (j, outcome));
                assert(t.workers == s.workers.update(w, None));
                assert(running(t.workers).to_multiset().insert(j) =~= running(s.workers).to_multiset()) by {
                    assert(slot_jobs(None) =~= Multiset::empty());
                    assert(slot_jobs(s.workers[w]) =~= Multiset::singleton(j));
                }
                assert(jobs_of(t.finished).to_multiset() =~= jobs_of(s.finished).to_multiset().insert(j));
                assert forall|k: u64| held(t).count(k) == held(s).count(k) by {}
                assert(held(t) =~= held(s));
            }
        },
    }
}

/// Capacity never degrades: whatever the events, and however many jobs end
/// abnormally, a pool keeps exactly the number of live workers it was built
/// with, under either strategy.
pub proof fn lemma_capacity_invariant(barrier: Barrier, size: nat, events: Seq<PoolEvent>)
    ensures
        run(PoolView::fresh(barrier, size), events).workers.len() == size,
        run(PoolView::fresh(barrier, size), events).size == size,
        held(run(PoolView::fresh(barrier, size), events)) == submissions(events).to_multiset(),
    decreases events.len(),
{
    broadcast use group_to_multiset_ensures;

    if events.len() == 0 {
        assert(held(PoolView::fresh(barrier, size)) =~= Multiset::empty()) by {
            lemma_running_idle(PoolView::fresh(barrier, size).workers);
        }
    } else {
        lemma_capacity_invariant(barrier, size, events.drop_last());
        lemma_apply(run(PoolView::fresh(barrier, size), events.drop_last()), events.last());
    }
}

/// No job is lost or run twice: once a pool has settled (nothing waits and
/// no worker runs a job), every submitted job has ended exactly once, so
/// there are as many ended executions as submissions.
pub proof fn lemma_no_job_loss(barrier: Barrier, size: nat, events: Seq<PoolEvent>)
    requires
        run(PoolView::fresh(barrier, size), events).quiescent(),
    ensures
        jobs_of(run(PoolView::fresh(barrier, size), events).finished).to_multiset()
            == submissions(events).to_multiset(),
        run(PoolView::fresh(barrier, size), events).finished.len() == submissions(events).len(),
{
    broadcast use group_to_multiset_ensures;

    let s = run(PoolView::fresh(barrier, size), events);
    lemma_capacity_invariant(barrier, size, events);
    lemma_running_idle(s.workers);
    assert(held(s) =~= jobs_of(s.finished).to_multiset());
    assert(jobs_of(s.finished).len() == s.finished.len());
    assert(jobs_of(s.finished).to_multiset().len() == jobs_of(s.finished).len());
    assert(submissions(events).to_multiset().len() == submissions(events).len());
}

/// A pool survives any number of abnormal terminations: after any events
/// (among them any number of jobs that ended abnormally, more than the
/// pool's size included), once the pool has settled, a newly submitted job is
/// taken by a worker and, when it completes, is recorded exactly once, and the
/// pool is settled again with all its workers.
pub proof fn lemma_job_runs_after_failures(
    barrier: Barrier,
    size: nat,
    events: Seq<PoolEvent>,
    job: u64,
)
    requires
        size > 0,
        run(PoolView::fresh(barrier, size), events).quiescent(),
    ensures
        ({
            let s = run(PoolView::fresh(barrier, size), events);
            let t = s.submitted(job).dispatched(0).ended(0, Outcome::Completed);
            &&& s.submitted(job).can_dispatch(0)
            &&& t.finished == s.finished.push((job, Outcome::Completed))
            &&& t.quiescent()
            &&& t.workers.len() == size
        }),
{
    let s = run(PoolView::fresh(barrier, size), events);
    lemma_capacity_invariant(barrier, size, events);
    let a = s.submitted(job);
    let b = a.dispatched(0);
    assert(a.queue =~= seq![job]);
    assert(b.queue =~= Seq::<u64>::empty());
    lemma_job_end_keeps_worker(barrier, WorkerEvent::JobEnded(Outcome::Completed));
}

/// With a single worker, jobs run one at a time in the order they were
/// submitted: the jobs that have ended, then the one running, then those
/// waiting, are always exactly the submissions in order.
pub proof fn lemma_single_worker_fifo(barrier: Barrier, events: Seq<PoolEvent>)
    ensures
        order(run(PoolView::fresh(barrier, 1), events)) == submissions(events),
        run(PoolView::fresh(barrier, 1), events).workers.len() == 1,
    decreases events.len(),
{
    let f = PoolView::fresh(barrier, 1);
    if events.len() == 0 {
        assert(running(f.workers) =~= Seq::<u64>::empty()) by {
            lemma_running_idle(f.workers);
        }
        assert(order(f) =~= Seq::<u64>::empty());
    } else {
        let rest = events.drop_last();
        lemma_single_worker_fifo(barrier, rest);
        lemma_capacity_invariant(barrier, 1, events);
        let s = run(f, rest);
        let t = run(f, events);
        assert(s.workers.drop_last() =~= Seq::<Option<u64>>::empty());
        assert(t.workers.drop_last() =~= Seq::<Option<u64>>::empty());
        assert(running(Seq::<Option<u64>>::empty()) == Seq::<u64>::empty());
        match events.last() {
            PoolEvent::Submit(job) => {
                assert(order(t) =~= order(s).push(job));
            },
            PoolEvent::Dispatch(w) => {
                if s.can_dispatch(w) {
                    assert(running(t.workers) =~= seq![s.queue[0]]);
                    assert(running(s.workers) =~= Seq::<u64>::empty());
                    assert(order(t) =~= order(s));
                }
            },
            PoolEvent::End(w, outcome) => {
                if s.is_running(w) {
                    lemma_job_end_keeps_worker(barrier, WorkerEvent::JobEnded(outcome));
                    lemma_jobs_of_push(s.finished, (s.workers[w]->0, outcome));
                    assert(running(t.workers) =~= Seq::<u64>::empty());
                    assert(running(s.workers) =~= seq![s.workers[w]->0]);
                    assert(order(t) =~= order(s));
                }
            },
        }
    }
}

/// A pool built with no workers accepts every submission and never runs a
/// job: whatever the events, every submitted job is still waiting and none
/// has ended.
pub proof fn lemma_no_workers_no_progress(barrier: Barrier, events: Seq<PoolEvent>)
    ensures
        run(PoolView::fresh(barrier, 0), events).queue == submissions(events),
        run(PoolView::fresh(barrier, 0), events).finished.len() == 0,
        run(PoolView::fresh(barrier, 0), events).workers.len() == 0,
    decreases events.len(),
{
    if events.len() == 0 {
        assert(PoolView::fresh(barrier, 0).queue =~= Seq::<u64>::empty());
    } else {
        lemma_no_workers_no_progress(barrier, events.drop_last());
    }
}

/// The strategy is invisible to submitters: under the same events, a pool
/// that catches failures and one that replaces failed workers hold the same
/// queue, the same workers' jobs and the same ended executions.
pub proof fn lemma_strategies_agree(size: nat, events: Seq<PoolEvent>)
    ensures
        run(PoolView::fresh(Barrier::CatchUnwind, size), events) == (PoolView {
            barrier: Barrier::CatchUnwind,
            ..run(PoolView::fresh(Barrier::Sentinel, size), events)
        }),
    decreases events.len(),
{
    if events.len() > 0 {
        lemma_strategies_agree(size, events.drop_last());
        if let PoolEvent::End(w, outcome) = events.last() {
            lemma_job_end_keeps_worker(Barrier::CatchUnwind, WorkerEvent::JobEnded(outcome));
            lemma_job_end_keeps_worker(Barrier::Sentinel, WorkerEvent::JobEnded(outcome));
        }
    }
}

} // verus!
