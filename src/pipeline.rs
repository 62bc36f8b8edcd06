use vstd::prelude::*;
use crate::config::WebScrape;
use crate::job::{after_take, job_output, jobs_of, TakeView, lemma_closed_queue_hands_out_all, queue_run, JobView, QueueOp, QueueView};
use crate::out::{
    completions, fresh, lemma_complete_run_writes_every_line, line_events, render, run, written,
    written_text, EventView,
};

verus! {

/// The lines the jobs send on, job after job, given what each fetch gave.
pub open spec fn run_output(jobs: Seq<JobView>, fetched: Seq<Option<Seq<char>>>) -> Seq<Seq<char>>
    decreases jobs.len(),
{
    if jobs.len() == 0 {
        Seq::empty()
    } else {
        run_output(jobs.drop_last(), fetched.take(jobs.len() - 1)) + job_output(
            jobs.last(),
            fetched[jobs.len() - 1],
        )
    }
}

/// A job whose fetch failed adds no line: the run's lines are those of the
/// other jobs, in the same order.
pub proof fn lemma_failed_job_adds_nothing(
    jobs: Seq<JobView>,
    fetched: Seq<Option<Seq<char>>>,
    k: int,
)
    requires
        fetched.len() == jobs.len(),
        0 <= k < jobs.len(),
        fetched[k] is None,
    ensures
        run_output(jobs, fetched) == run_output(jobs.remove(k), fetched.remove(k)),
    decreases jobs.len(),
{
    let n = jobs.len() - 1;
    if k == n {
        assert(jobs.remove(k) =~= jobs.drop_last());
        assert(fetched.remove(k) =~= fetched.take(n));
        assert(run_output(jobs, fetched) =~= run_output(jobs.drop_last(), fetched.take(n)));
    } else {
        let f1 = fetched.take(n);
        lemma_failed_job_adds_nothing(jobs.drop_last(), f1, k);
        let jr = jobs.remove(k);
        let fr = fetched.remove(k);
        assert(jr.drop_last() =~= jobs.drop_last().remove(k));
        assert(fr.take(jr.len() - 1) =~= f1.remove(k));
        assert(jr.last() == jobs.last());
        assert(fr[jr.len() - 1] == fetched[n]);
    }
}

/// A whole run of a configuration, for any capacity of at least one and any
/// number of workers taking jobs in any order until the queue is drained:
/// every job is handed out exactly once, each to one worker, and every
/// further take tells its worker to stop; and when the
/// writer receives the lines the workers sent on, in whatever interleaving,
/// the destination ends up with exactly those lines, each once and each
/// newline-terminated, and one completion.
pub proof fn lemma_configuration_run(
    w: WebScrape,
    capacity: nat,
    takes: Seq<QueueOp>,
    fetched: Seq<Option<Seq<char>>>,
    arrivals: Seq<Seq<char>>,
)
    requires
        capacity >= 1,
        queue_run(QueueView { pending: w.jobs_spec(), closed: true }, takes).0.pending.len() == 0,
        fetched.len() == w@.urls.len(),
        arrivals.to_multiset() == run_output(w.jobs_spec(), fetched).to_multiset(),
    ensures
        jobs_of(queue_run(QueueView { pending: w.jobs_spec(), closed: true }, takes).1)
            == w.jobs_spec(),
        after_take(queue_run(QueueView { pending: w.jobs_spec(), closed: true }, takes).0).1
            == TakeView::Closed,
        ({
            let (s, acts) = run(fresh(capacity), line_events(arrivals).push(EventView::Closed));
            &&& written(acts).to_multiset() == run_output(w.jobs_spec(), fetched).to_multiset()
            &&& written_text(acts) == render(written(acts))
            &&& completions(acts) == 1
        }),
{
    lemma_closed_queue_hands_out_all(w.jobs_spec(), takes);
    lemma_complete_run_writes_every_line(capacity, arrivals);
}

} // verus!
