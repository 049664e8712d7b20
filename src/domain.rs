use vstd::prelude::*;

use crate::sandbox::{ExecutionResult, ResultView, SandboxError};
use crate::tenant::{copy_strings, strings_view};
use crate::usage::is_time;

verus! {

/// Message recorded on a job whose module ran to completion.
pub const FINISHED_MESSAGE: &'static str = "Successfully wasted 5 seconds";

/// A job submission. `payload` holds the request's JSON payload as text.
pub struct SubmitJobRequest {
    pub tenant_id: String,
    pub module_id: String,
    pub payload: String,
    pub capabilities: Vec<String>,
}

/// Answer to an accepted submission.
pub struct SubmitJobResponse {
    pub job_id: u128,
}

/// Lifecycle state of a job: `Queued`, then `Running`, then `Finished` or
/// `Failed`; a job refused at dispatch goes from `Queued` to `Failed`.
pub enum JobStatus {
    Queued,
    Running,
    Finished(String),
    Failed(String),
}

pub enum StatusView {
    Queued,
    Running,
    Finished(Seq<char>),
    Failed(Seq<char>),
}

impl View for JobStatus {
    type V = StatusView;

    open spec fn view(&self) -> StatusView {
        match self {
            JobStatus::Queued => StatusView::Queued,
            JobStatus::Running => StatusView::Running,
            JobStatus::Finished(m) => StatusView::Finished(m@),
            JobStatus::Failed(m) => StatusView::Failed(m@),
        }
    }
}

impl StatusView {
    pub open spec fn is_terminal(self) -> bool {
        self is Finished || self is Failed
    }
}

impl JobStatus {
    pub fn copy(&self) -> (r: JobStatus)
        ensures
            r@ == self@,
    {
        match self {
            JobStatus::Queued => JobStatus::Queued,
            JobStatus::Running => JobStatus::Running,
            JobStatus::Finished(m) => JobStatus::Finished(m.clone()),
            JobStatus::Failed(m) => JobStatus::Failed(m.clone()),
        }
    }

    pub fn is_terminal(&self) -> (r: bool)
        ensures
            r == self@.is_terminal(),
    {
        match self {
            JobStatus::Finished(_) | JobStatus::Failed(_) => true,
            _ => false,
        }
    }
}

/// Error body of a refused request: a machine-readable code and a message.
pub struct JobErrorResponse {
    pub error: String,
    pub message: String,
}

/// A job record. Times are Unix nanoseconds; `duration` is
/// `finished_at - started_at` once both are set.
pub struct Job {
    pub job_id: u128,
    pub tenant_id: String,
    pub module_id: String,
    pub payload: String,
    pub capabilities: Vec<String>,
    pub submitted_at: i128,
    pub started_at: Option<i128>,
    pub finished_at: Option<i128>,
    pub duration: Option<i128>,
    pub status: JobStatus,
    pub result: Option<ExecutionResult>,
}

pub struct JobView {
    pub job_id: u128,
    pub tenant_id: Seq<char>,
    pub module_id: Seq<char>,
    pub payload: Seq<char>,
    pub capabilities: Seq<Seq<char>>,
    pub submitted_at: i128,
    pub started_at: Option<i128>,
    pub finished_at: Option<i128>,
    pub duration: Option<i128>,
    pub status: StatusView,
    pub result: Option<ResultView>,
}

impl View for Job {
    type V = JobView;

    open spec fn view(&self) -> JobView {
        JobView {
            job_id: self.job_id,
            tenant_id: self.tenant_id@,
            module_id: self.module_id@,
            payload: self.payload@,
            capabilities: strings_view(self.capabilities@),
            submitted_at: self.submitted_at,
            started_at: self.started_at,
            finished_at: self.finished_at,
            duration: self.duration,
            status: self.status@,
            result: match self.result {
                Some(r) => Some(r@),
                None => None,
            },
        }
    }
}

/// `t`, if set, is a clock reading.
pub open spec fn opt_time(t: Option<i128>) -> bool {
    match t {
        Some(v) => is_time(v as int),
        None => true,
    }
}

impl JobView {
    /// Every timestamp of the record is a clock reading.
    pub open spec fn times_valid(self) -> bool {
        &&& is_time(self.submitted_at as int)
        &&& opt_time(self.started_at)
        &&& opt_time(self.finished_at)
    }

    /// The latest timestamp recorded so far.
    pub open spec fn latest(self) -> i128 {
        match (self.finished_at, self.started_at) {
            (Some(f), _) => f,
            (None, Some(s)) => s,
            (None, None) => self.submitted_at,
        }
    }

    /// Timestamps never go backwards, and `duration` is the run's length.
    pub open spec fn times_ordered(self) -> bool {
        &&& (self.started_at matches Some(s) ==> s >= self.submitted_at)
        &&& (self.finished_at matches Some(f) ==> f >= self.submitted_at)
        &&& (self.finished_at matches Some(f) ==> (self.started_at matches Some(s) ==> f >= s))
        &&& self.duration == match (self.finished_at, self.started_at) {
            (Some(f), Some(s)) => Some((f - s) as i128),
            _ => None::<i128>,
        }
    }

    /// The time a step taken at clock reading `now` records: `now`, or the
    /// record's latest timestamp if the clock reads earlier than that.
    pub open spec fn stamp(self, now: i128) -> i128 {
        if now >= self.latest() {
            now
        } else {
            self.latest()
        }
    }

    /// Status and timestamps agree: a queued job has neither start nor end, a
    /// running one a start and no end.
    pub open spec fn shape_ok(self) -> bool {
        &&& self.status is Queued ==> self.started_at is None && self.finished_at is None
        &&& self.status is Running ==> self.started_at is Some && self.finished_at is None
    }

    /// Clock readings, ordered, and in agreement with the status.
    pub open spec fn consistent(self) -> bool {
        self.times_valid() && self.times_ordered() && self.shape_ok()
    }

    /// The record once its execution starts at `now`; only a queued job starts.
    pub open spec fn started(self, now: i128) -> JobView {
        if self.status is Queued {
            JobView { status: StatusView::Running, started_at: Some(self.stamp(now)), ..self }
        } else {
            self
        }
    }

    /// The record once dispatch refuses it at `now` for `reason`; only a queued
    /// job is refused.
    pub open spec fn rejected(self, reason: Seq<char>, now: i128) -> JobView {
        if self.status is Queued {
            JobView {
                status: StatusView::Failed(reason),
                finished_at: Some(self.stamp(now)),
                ..self
            }
        } else {
            self
        }
    }

    /// The record once its execution ends at `now` with `outcome`; only a
    /// running job ends.
    pub open spec fn ended(self, outcome: Result<ResultView, Seq<char>>, now: i128) -> JobView {
        if self.status is Running {
            let at = self.stamp(now);
            let duration = match self.started_at {
                Some(s) => Some((at - s) as i128),
                None => None,
            };
            match outcome {
                Ok(r) => JobView {
                    status: StatusView::Finished(FINISHED_MESSAGE@),
                    finished_at: Some(at),
                    duration,
                    result: Some(r),
                    ..self
                },
                Err(reason) => JobView {
                    status: StatusView::Failed(reason),
                    finished_at: Some(at),
                    duration,
                    result: None,
                    ..self
                },
            }
        } else {
            self
        }
    }
}

/// The record of a job just accepted for `req` under `job_id` at `now`.
pub open spec fn queued_view(req: SubmitJobRequest, job_id: u128, now: i128) -> JobView {
    JobView {
        job_id,
        tenant_id: req.tenant_id@,
        module_id: req.module_id@,
        payload: req.payload@,
        capabilities: strings_view(req.capabilities@),
        submitted_at: now,
        started_at: None,
        finished_at: None,
        duration: None,
        status: StatusView::Queued,
        result: None,
    }
}

/// What an execution outcome records: the result, or the failure reason.
pub open spec fn outcome_view(outcome: Result<ExecutionResult, SandboxError>) -> Result<
    ResultView,
    Seq<char>,
> {
    match outcome {
        Ok(r) => Ok(r@),
        Err(e) => Err(e.reason_view()),
    }
}

/// `b` may follow `a` in a job's life: same identity and submission time, the
/// status only moves forward, and a terminal record never changes.
pub open spec fn may_follow(a: JobView, b: JobView) -> bool {
    &&& b.job_id == a.job_id
    &&& b.tenant_id == a.tenant_id
    &&& b.submitted_at == a.submitted_at
    &&& a.status.is_terminal() ==> b == a
    &&& a.status is Running ==> !(b.status is Queued)
}

/// Each lifecycle step moves a job forward along `Queued, Running, terminal`
/// (or `Queued, Failed`), and leaves a terminal record untouched.
pub proof fn lemma_lifecycle_forward(
    j: JobView,
    now: i128,
    reason: Seq<char>,
    outcome: Result<ResultView, Seq<char>>,
)
    ensures
        may_follow(j, j.started(now)),
        may_follow(j, j.rejected(reason, now)),
        may_follow(j, j.ended(outcome, now)),
        j.status is Queued ==> j.started(now).status is Running,
        j.status is Queued ==> j.rejected(reason, now).status is Failed,
        j.status is Running ==> j.ended(outcome, now).status.is_terminal(),
{
}

/// Every lifecycle step keeps a record consistent: `finished_at >= started_at
/// >= submitted_at` where set, and `duration == finished_at - started_at`.
pub proof fn lemma_times_stay_ordered(
    j: JobView,
    now: i128,
    reason: Seq<char>,
    outcome: Result<ResultView, Seq<char>>,
)
    requires
        j.consistent(),
        is_time(now as int),
    ensures
        j.started(now).consistent(),
        j.rejected(reason, now).consistent(),
        j.ended(outcome, now).consistent(),
{
}

impl Job {
    pub fn copy(&self) -> (r: Job)
        ensures
            r@ == self@,
    {
        Job {
            job_id: self.job_id,
            tenant_id: self.tenant_id.clone(),
            module_id: self.module_id.clone(),
            payload: self.payload.clone(),
            capabilities: copy_strings(&self.capabilities),
            submitted_at: self.submitted_at,
            started_at: self.started_at,
            finished_at: self.finished_at,
            duration: self.duration,
            status: self.status.copy(),
            result: match &self.result {
                Some(r) => Some(r.copy()),
                None => None,
            },
        }
    }

    /// A fresh queued job for `req`, submitted at `now`.
    pub fn queued(req: SubmitJobRequest, job_id: u128, now: i128) -> (r: Job)
        ensures
            r@ == queued_view(req, job_id, now),
    {
        Job {
            job_id,
            tenant_id: req.tenant_id,
            module_id: req.module_id,
            payload: req.payload,
            capabilities: req.capabilities,
            submitted_at: now,
            started_at: None,
            finished_at: None,
            duration: None,
            status: JobStatus::Queued,
            result: None,
        }
    }

    /// The latest timestamp recorded so far.
    fn latest(&self) -> (r: i128)
        ensures
            r == self@.latest(),
    {
        match (self.finished_at, self.started_at) {
            (Some(f), _) => f,
            (None, Some(s)) => s,
            (None, None) => self.submitted_at,
        }
    }

    fn stamp(&self, now: i128) -> (r: i128)
        ensures
            r == self@.stamp(now),
    {
        let latest = self.latest();
        if now >= latest {
            now
        } else {
            latest
        }
    }

    /// Marks a queued job running from `now`.
    pub fn start(&mut self, now: i128)
        ensures
            final(self)@ == old(self)@.started(now),
    {
        if let JobStatus::Queued = self.status {
            let at = self.stamp(now);
            self.status = JobStatus::Running;
            self.started_at = Some(at);
        }
    }

    /// Marks a queued job failed at `now` for `reason`.
    pub fn reject(&mut self, reason: String, now: i128)
        ensures
            final(self)@ == old(self)@.rejected(reason@, now),
    {
        if let JobStatus::Queued = self.status {
            let at = self.stamp(now);
            self.status = JobStatus::Failed(reason);
            self.finished_at = Some(at);
        }
    }

    /// Records the end of a running job's execution at `now`.
    pub fn end(&mut self, outcome: Result<ExecutionResult, SandboxError>, now: i128)
        requires
            old(self)@.times_valid(),
            is_time(now as int),
        ensures
            final(self)@ == old(self)@.ended(outcome_view(outcome), now),
    {
        if let JobStatus::Running = self.status {
            let at = self.stamp(now);
            let duration = match self.started_at {
                Some(s) => Some(at - s),
                None => None,
            };
            self.finished_at = Some(at);
            self.duration = duration;
            match outcome {
                Ok(r) => {
                    self.status = JobStatus::Finished(String::from_str(FINISHED_MESSAGE));
                    self.result = Some(r);
                },
                Err(e) => {
                    self.status = JobStatus::Failed(e.reason());
                    self.result = None;
                },
            }
        }
    }
}

/// One line of a job listing.
pub struct JobListItem {
    pub job_id: u128,
    pub tenant_id: String,
    pub status: JobStatus,
    pub submitted_at: i128,
}

/// All jobs, oldest submission first.
pub struct JobListResponse {
    pub jobs: Vec<JobListItem>,
}

} // verus!
