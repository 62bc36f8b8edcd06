use vstd::prelude::*;
use std::collections::VecDeque;
use crate::pattern::{matching_sentences, pattern_compiles, string_views, Pattern};

verus! {

/// Abstract value of a job: the pattern to filter with and the URL to fetch.
pub struct JobView {
    pub regex: Seq<char>,
    pub url: Seq<char>,
}

/// Why a job produced no lines.
#[derive(Debug, Clone, Copy, PartialEq, Eq, Structural)]
pub enum JobError {
    /// The job's pattern is not a valid regular expression.
    InvalidPattern,
    /// The document could not be fetched.
    Fetch,
}

/// What a fetch gave, as text: `None` when it failed.
pub open spec fn fetched_view(fetched: Option<&str>) -> Option<Seq<char>> {
    match fetched {
        Some(b) => Some(b@),
        None => None,
    }
}

/// The lines a job sends on, given what its fetch gave: the matching
/// sentences when its pattern is valid and the fetch succeeded, else none.
pub open spec fn job_output(j: JobView, fetched: Option<Seq<char>>) -> Seq<Seq<char>> {
    match fetched {
        Some(body) => if pattern_compiles(j.regex) {
            matching_sentences(j.regex, body)
        } else {
            Seq::empty()
        },
        None => Seq::empty(),
    }
}

/// One unit of work: fetch `url` and keep the sentences in which `regex`
/// matches.
pub struct ScrapeJob {
    regex: String,
    url: String,
}

impl View for ScrapeJob {
    type V = JobView;

    closed spec fn view(&self) -> JobView {
        JobView { regex: self.regex@, url: self.url@ }
    }
}

impl ScrapeJob {
    pub fn new(regex: String, url: String) -> (r: ScrapeJob)
        ensures
            r@ == (JobView { regex: regex@, url: url@ }),
    {
        ScrapeJob { regex, url }
    }

    /// The URL to fetch.
    pub fn url(&self) -> (r: &str)
        ensures
            r@ == self@.url,
    {
        self.url.as_str()
    }

    /// The pattern to filter with.
    pub fn regex(&self) -> (r: &str)
        ensures
            r@ == self@.regex,
    {
        self.regex.as_str()
    }

    /// The lines this job sends on, given what fetching its URL gave (`None`
    /// when the fetch failed). An invalid pattern fails the job whatever the
    /// fetch gave; otherwise a failed fetch fails it; otherwise the lines are
    /// the matching sentences of the document, in order.
    pub fn scrape(&self, fetched: Option<&str>) -> (r: Result<Vec<String>, JobError>)
        ensures
            !pattern_compiles(self@.regex) ==> r == Err::<Vec<String>, JobError>(
                JobError::InvalidPattern,
            ),
            pattern_compiles(self@.regex) && fetched is None ==> r == Err::<Vec<String>, JobError>(
                JobError::Fetch,
            ),
            pattern_compiles(self@.regex) && fetched is Some ==> r is Ok && string_views(
                r->Ok_0@,
            ) == matching_sentences(self@.regex, fetched->Some_0@),
            r is Ok ==> string_views(r->Ok_0@) == job_output(self@, fetched_view(fetched)),
            r is Err ==> job_output(self@, fetched_view(fetched)) == Seq::<Seq<char>>::empty(),
    {
        let pattern = match Pattern::new(self.regex.as_str()) {
            Ok(p) => p,
            Err(_) => return Err(JobError::InvalidPattern),
        };
        match fetched {
            Some(body) => Ok(pattern.matched_lines(body)),
            None => Err(JobError::Fetch),
        }
    }
}

/// What a worker gets when it asks the queue for work.
pub enum Take {
    /// The next job, now owned by this worker alone.
    Job(ScrapeJob),
    /// No job yet, but more may come: wait and ask again.
    Wait,
    /// No job left and none will come: the worker stops.
    Closed,
}

pub ghost enum TakeView {
    Job(JobView),
    Wait,
    Closed,
}

impl View for Take {
    type V = TakeView;

    open spec fn view(&self) -> TakeView {
        match self {
            Take::Job(j) => TakeView::Job(j@),
            Take::Wait => TakeView::Wait,
            Take::Closed => TakeView::Closed,
        }
    }
}

/// Abstract state of the job queue.
pub ghost struct QueueView {
    /// Jobs submitted and not yet taken, oldest first.
    pub pending: Seq<JobView>,
    /// Whether submission has ended.
    pub closed: bool,
}

/// A submission: accepted while the queue is open, ignored after.
pub open spec fn after_submit(q: QueueView, j: JobView) -> QueueView {
    if q.closed {
        q
    } else {
        QueueView { pending: q.pending.push(j), ..q }
    }
}

/// A take: the oldest pending job, else `Closed` once closed, else `Wait`.
pub open spec fn after_take(q: QueueView) -> (QueueView, TakeView) {
    if q.pending.len() > 0 {
        (QueueView { pending: q.pending.drop_first(), ..q }, TakeView::Job(q.pending[0]))
    } else if q.closed {
        (q, TakeView::Closed)
    } else {
        (q, TakeView::Wait)
    }
}

/// The end of submission.
pub open spec fn after_close(q: QueueView) -> QueueView {
    QueueView { closed: true, ..q }
}

/// The queue shared by the workers of a run. Each job submitted is handed to
/// one taker, once, in submission order.
pub struct JobQueue {
    pending: VecDeque<ScrapeJob>,
    closed: bool,
}

impl View for JobQueue {
    type V = QueueView;

    closed spec fn view(&self) -> QueueView {
        QueueView { pending: self.pending@.map_values(|j: ScrapeJob| j@), closed: self.closed }
    }
}

impl JobQueue {
    /// An open queue with no jobs.
    pub fn new() -> (r: JobQueue)
        ensures
            r@ == (QueueView { pending: Seq::empty(), closed: false }),
    {
        let r = JobQueue { pending: VecDeque::new(), closed: false };
        assert(r@.pending =~= Seq::empty());
        r
    }

    /// Appends `job` unless submission has ended; says whether it was taken in.
    pub fn submit(&mut self, job: ScrapeJob) -> (r: bool)
        ensures
            r == !old(self)@.closed,
            final(self)@ == after_submit(old(self)@, job@),
    {
        if self.closed {
            return false;
        }
        let ghost j = job@;
        self.pending.push_back(job);
        assert(final(self)@.pending =~= old(self)@.pending.push(j));
        true
    }

    /// Hands the oldest pending job to the caller.
    pub fn take(&mut self) -> (r: Take)
        ensures
            (final(self)@, r@) == after_take(old(self)@),
    {
        match self.pending.pop_front() {
            Some(job) => {
                assert(final(self)@.pending =~= old(self)@.pending.drop_first());
                Take::Job(job)
            },
            None => if self.closed {
                Take::Closed
            } else {
                Take::Wait
            },
        }
    }

    /// Ends submission: the jobs already pending are still handed out.
    pub fn close(&mut self)
        ensures
            final(self)@ == after_close(old(self)@),
    {
        self.closed = true;
    }

    /// Whether no job is pending.
    pub fn is_empty(&self) -> (r: bool)
        ensures
            r == (self@.pending.len() == 0),
    {
        self.pending.len() == 0
    }
}

/// One operation on the queue: a submission or the close by the
/// orchestrator, or a take by the worker with the given number.
pub ghost enum QueueOp {
    Submit(JobView),
    Take(nat),
    Close,
}

/// The jobs of a sequence of hand-outs, without the workers they went to.
pub open spec fn jobs_of(out: Seq<(nat, JobView)>) -> Seq<JobView> {
    out.map_values(|d: (nat, JobView)| d.1)
}

/// The queue reached and the hand-outs made, in order, after a sequence of
/// operations: each hand-out names the one worker whose take received it.
pub open spec fn queue_run(q: QueueView, ops: Seq<QueueOp>) -> (QueueView, Seq<(nat, JobView)>)
    decreases ops.len(),
{
    if ops.len() == 0 {
        (q, Seq::empty())
    } else {
        let (q1, out) = queue_run(q, ops.drop_last());
        match ops.last() {
            QueueOp::Submit(j) => (after_submit(q1, j), out),
            QueueOp::Close => (after_close(q1), out),
            QueueOp::Take(w) => {
                let (q2, t) = after_take(q1);
                match t {
                    TakeView::Job(j) => (q2, out.push((w, j))),
                    _ => (q2, out),
                }
            },
        }
    }
}

/// The jobs submitted while the queue was open.
pub open spec fn submitted(ops: Seq<QueueOp>) -> Seq<JobView>
    decreases ops.len(),
{
    if ops.len() == 0 {
        Seq::empty()
    } else {
        let prev = submitted(ops.drop_last());
        match ops.last() {
            QueueOp::Submit(j) => if closed_in(ops.drop_last()) {
                prev
            } else {
                prev.push(j)
            },
            _ => prev,
        }
    }
}

/// Whether a sequence of operations holds a close.
pub open spec fn closed_in(ops: Seq<QueueOp>) -> bool
    decreases ops.len(),
{
    ops.len() > 0 && (ops.last() is Close || closed_in(ops.drop_last()))
}

/// Whatever the interleaving of submissions, takes by any number of workers,
/// and the close: the jobs handed out, followed by those still pending, are
/// exactly the jobs submitted, in submission order. So no job is handed out
/// twice or lost, each hand-out goes to the one worker that took it, and once
/// the queue is closed and drained every submitted job has been handed out
/// exactly once.
pub proof fn lemma_each_job_taken_once(ops: Seq<QueueOp>)
    ensures
        ({
            let (q, out) = queue_run(QueueView { pending: Seq::empty(), closed: false }, ops);
            &&& jobs_of(out) + q.pending == submitted(ops)
            &&& q.closed == closed_in(ops)
            &&& q.pending.len() == 0 ==> jobs_of(out) == submitted(ops)
        }),
    decreases ops.len(),
{
    let start = QueueView { pending: Seq::empty(), closed: false };
    let (q, out) = queue_run(start, ops);
    if ops.len() == 0 {
        assert(jobs_of(out) + q.pending =~= submitted(ops));
    } else {
        lemma_each_job_taken_once(ops.drop_last());
        let (q1, out1) = queue_run(start, ops.drop_last());
        match ops.last() {
            QueueOp::Submit(j) => {
                if !q1.closed {
                    assert(jobs_of(out) + q.pending =~= (jobs_of(out1) + q1.pending).push(j));
                }
            },
            QueueOp::Close => {},
            QueueOp::Take(w) => {
                if q1.pending.len() > 0 {
                    assert(jobs_of(out) =~= jobs_of(out1).push(q1.pending[0]));
                    assert(jobs_of(out) + q.pending =~= jobs_of(out1) + q1.pending);
                }
            },
        }
    }
    if q.pending.len() == 0 {
        assert(jobs_of(out) + q.pending =~= jobs_of(out));
    }
}

/// Starting from a closed queue, whatever takes any number of workers make
/// in any order: the jobs handed out, followed by those still pending, are
/// the jobs it started with, in order; once it is drained each of them has
/// been handed out exactly once, to one worker.
pub proof fn lemma_closed_queue_hands_out_all(jobs: Seq<JobView>, ops: Seq<QueueOp>)
    ensures
        ({
            let (q, out) = queue_run(QueueView { pending: jobs, closed: true }, ops);
            &&& jobs_of(out) + q.pending == jobs
            &&& q.closed
            &&& q.pending.len() == 0 ==> jobs_of(out) == jobs
        }),
    decreases ops.len(),
{
    let start = QueueView { pending: jobs, closed: true };
    let (q, out) = queue_run(start, ops);
    if ops.len() == 0 {
        assert(jobs_of(out) + q.pending =~= jobs);
    } else {
        lemma_closed_queue_hands_out_all(jobs, ops.drop_last());
        let (q1, out1) = queue_run(start, ops.drop_last());
        match ops.last() {
            QueueOp::Take(w) => {
                if q1.pending.len() > 0 {
                    assert(jobs_of(out) =~= jobs_of(out1).push(q1.pending[0]));
                    assert(jobs_of(out) + q.pending =~= jobs_of(out1) + q1.pending);
                }
            },
            _ => {},
        }
    }
    if q.pending.len() == 0 {
        assert(jobs_of(out) + q.pending =~= jobs_of(out));
    }
}

} // verus!
