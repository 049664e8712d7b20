use vstd::prelude::*;

use tokio::sync::mpsc::error::TrySendError;
use tokio::sync::mpsc::Sender;

use crate::domain::{
    lemma_lifecycle_forward, lemma_times_stay_ordered, may_follow, outcome_view, Job, JobListItem, JobView, StatusView,
};
use crate::sandbox::{ExecutionResult, SandboxError};
use crate::usage::is_time;

verus! {

#[verifier::external_type_specification]
#[verifier::external_body]
#[verifier::reject_recursive_types(T)]
pub struct ExSender<T>(Sender<T>);

/// What became of a job handed to the queue.
#[derive(Clone, Copy, Debug, PartialEq, Eq, Structural)]
pub enum SendOutcome {
    Sent,
    Full,
    Closed,
}

/// Relies on tokio's `Sender::try_send`: the job is queued without waiting,
/// or refused because the queue is full or its receiver is gone. The record
/// of handed-over jobs grows by this job exactly when it was queued.
#[verifier::external_body]
pub(crate) fn try_enqueue(inner: &mut InnerState, job: Job) -> (r: SendOutcome)
    ensures
        final(inner).jobs == old(inner).jobs,
        final(inner).queue == old(inner).queue,
        final(inner).sent@ == if r == SendOutcome::Sent {
            old(inner).sent@.push(job@)
        } else {
            old(inner).sent@
        },
{
    match inner.queue.sender.try_send(job) {
        Ok(()) => SendOutcome::Sent,
        Err(TrySendError::Full(_)) => SendOutcome::Full,
        Err(TrySendError::Closed(_)) => SendOutcome::Closed,
    }
}

/// Position of the job with id `id`, or -1.
pub open spec fn job_index(s: Seq<JobView>, id: u128) -> int
    decreases s.len(),
{
    if s.len() == 0 {
        -1
    } else if s.last().job_id == id {
        s.len() - 1
    } else {
        job_index(s.drop_last(), id)
    }
}

/// The record of job `id`.
pub open spec fn find_job(s: Seq<JobView>, id: u128) -> Option<JobView> {
    let k = job_index(s, id);
    if k >= 0 {
        Some(s[k])
    } else {
        None
    }
}

/// `s` with the record of job `id` replaced by `f` of itself.
pub open spec fn update_job(s: Seq<JobView>, id: u128, f: spec_fn(JobView) -> JobView) -> Seq<
    JobView,
> {
    let k = job_index(s, id);
    if k >= 0 {
        s.update(k, f(s[k]))
    } else {
        s
    }
}

/// `s` with `j` stored under its id, replacing an earlier record of that id.
pub open spec fn store_job(s: Seq<JobView>, j: JobView) -> Seq<JobView> {
    let k = job_index(s, j.job_id);
    if k >= 0 {
        s.update(k, j)
    } else {
        s.push(j)
    }
}

/// One record per id, each consistent: clock readings, ordered
/// `submitted_at <= started_at <= finished_at`, exact durations.
pub open spec fn jobs_wf(s: Seq<JobView>) -> bool {
    &&& forall|i: int, j: int| 0 <= i < s.len() && 0 <= j < s.len() && i != j ==> s[i].job_id != s[j].job_id
    &&& forall|i: int| 0 <= i < s.len() ==> (#[trigger] s[i]).consistent()
}

proof fn lemma_job_index(s: Seq<JobView>, id: u128)
    ensures
        -1 <= job_index(s, id) < s.len(),
        job_index(s, id) >= 0 ==> s[job_index(s, id)].job_id == id,
        job_index(s, id) < 0 ==> forall|i: int| 0 <= i < s.len() ==> s[i].job_id != id,
    decreases s.len(),
{
    if s.len() > 0 {
        lemma_job_index(s.drop_last(), id);
        if job_index(s, id) < 0 {
            assert forall|i: int| 0 <= i < s.len() implies s[i].job_id != id by {
                if i < s.len() - 1 {
                    assert(s[i] == s.drop_last()[i]);
                }
            }
        }
    }
}

proof fn lemma_job_index_at(s: Seq<JobView>, id: u128, k: int)
    requires
        0 <= k < s.len(),
        s[k].job_id == id,
        forall|i: int| 0 <= i < s.len() && i != k ==> s[i].job_id != id,
    ensures
        job_index(s, id) == k,
    decreases s.len(),
{
    if k < s.len() - 1 {
        assert forall|i: int| 0 <= i < s.drop_last().len() && i != k implies s.drop_last()[i].job_id
            != id by {
            assert(s.drop_last()[i] == s[i]);
        }
        lemma_job_index_at(s.drop_last(), id, k);
    }
}

/// Every registry step applies a lifecycle step to one job: each record moves
/// forward along its lifecycle (a terminal one stays as it is), and no record
/// appears or disappears.
pub proof fn lemma_registry_steps_forward(
    s: Seq<JobView>,
    id: u128,
    now: i128,
    reason: Seq<char>,
    outcome: Result<crate::sandbox::ResultView, Seq<char>>,
)
    requires
        jobs_wf(s),
        is_time(now as int),
    ensures
        forall|x: u128| #[trigger] find_job(s, x) is Some ==> {
            &&& find_job(update_job(s, id, |j: JobView| j.started(now)), x) matches Some(b)
                && may_follow(find_job(s, x)->Some_0, b)
            &&& find_job(update_job(s, id, |j: JobView| j.rejected(reason, now)), x) matches Some(b)
                && may_follow(find_job(s, x)->Some_0, b)
            &&& find_job(update_job(s, id, |j: JobView| j.ended(outcome, now)), x) matches Some(b)
                && may_follow(find_job(s, x)->Some_0, b)
        },
        forall|x: u128| #[trigger] find_job(s, x) is None ==> {
            &&& find_job(update_job(s, id, |j: JobView| j.started(now)), x) is None
            &&& find_job(update_job(s, id, |j: JobView| j.rejected(reason, now)), x) is None
            &&& find_job(update_job(s, id, |j: JobView| j.ended(outcome, now)), x) is None
        },
{
    let f1 = |j: JobView| j.started(now);
    let f2 = |j: JobView| j.rejected(reason, now);
    let f3 = |j: JobView| j.ended(outcome, now);
    assert forall|j: JobView| j.consistent() implies #[trigger] f1(j).consistent() by {
        lemma_times_stay_ordered(j, now, reason, outcome);
    }
    assert forall|j: JobView| j.consistent() implies #[trigger] f2(j).consistent() by {
        lemma_times_stay_ordered(j, now, reason, outcome);
    }
    assert forall|j: JobView| j.consistent() implies #[trigger] f3(j).consistent() by {
        lemma_times_stay_ordered(j, now, reason, outcome);
    }
    JobRegistry::lemma_update_keeps_wf(s, id, f1);
    JobRegistry::lemma_update_keeps_wf(s, id, f2);
    JobRegistry::lemma_update_keeps_wf(s, id, f3);
    assert forall|x: u128| #[trigger] find_job(s, x) is Some implies {
        &&& find_job(update_job(s, id, f1), x) matches Some(b) && may_follow(find_job(s, x)->Some_0, b)
        &&& find_job(update_job(s, id, f2), x) matches Some(b) && may_follow(find_job(s, x)->Some_0, b)
        &&& find_job(update_job(s, id, f3), x) matches Some(b) && may_follow(find_job(s, x)->Some_0, b)
    } by {
        lemma_lifecycle_forward(find_job(s, x)->Some_0, now, reason, outcome);
    }
}

/// What a listing shows of a job.
pub struct ItemView {
    pub job_id: u128,
    pub tenant_id: Seq<char>,
    pub status: StatusView,
    pub submitted_at: i128,
}

pub open spec fn item_of(j: JobView) -> ItemView {
    ItemView {
        job_id: j.job_id,
        tenant_id: j.tenant_id,
        status: j.status,
        submitted_at: j.submitted_at,
    }
}

pub open spec fn item_view(i: JobListItem) -> ItemView {
    ItemView {
        job_id: i.job_id,
        tenant_id: i.tenant_id@,
        status: i.status@,
        submitted_at: i.submitted_at,
    }
}

/// Listing order: by submission time, ties broken by job id.
pub open spec fn listed_before(a: ItemView, b: ItemView) -> bool {
    a.submitted_at < b.submitted_at || (a.submitted_at == b.submitted_at && a.job_id < b.job_id)
}

/// The authoritative store of job records.
pub struct JobRegistry {
    jobs: Vec<Job>,
}

impl View for JobRegistry {
    type V = Seq<JobView>;

    closed spec fn view(&self) -> Seq<JobView> {
        self.jobs@.map_values(|j: Job| j@)
    }
}

impl JobRegistry {
    pub open spec fn wf(&self) -> bool {
        jobs_wf(self@)
    }

    pub fn new() -> (r: JobRegistry)
        ensures
            r.wf(),
            r@.len() == 0,
    {
        let r = JobRegistry { jobs: Vec::new() };
        assert(r@ =~= Seq::<JobView>::empty());
        r
    }

    fn find(&self, id: u128) -> (r: Option<usize>)
        requires
            self.wf(),
        ensures
            match r {
                Some(k) => k as int == job_index(self@, id),
                None => job_index(self@, id) == -1,
            },
    {
        proof {
            lemma_job_index(self@, id);
        }
        let mut i: usize = 0;
        while i < self.jobs.len()
            invariant
                self.wf(),
                0 <= i <= self@.len(),
                forall|j: int| 0 <= j < i ==> self@[j].job_id != id,
            decreases self@.len() - i,
        {
            if self.jobs[i].job_id == id {
                proof {
                    lemma_job_index_at(self@, id, i as int);
                }
                return Some(i);
            }
            i = i + 1;
        }
        None
    }

    /// Stores `job` under its id.
    pub fn insert(&mut self, job: Job)
        requires
            old(self).wf(),
            job@.consistent(),
        ensures
            final(self).wf(),
            final(self)@ == store_job(old(self)@, job@),
            find_job(final(self)@, job.job_id) == Some(job@),
            forall|id: u128| id != job.job_id ==> find_job(final(self)@, id) == find_job(old(self)@, id),
    {
        let ghost s = self@;
        let ghost jv = job@;
        proof {
            lemma_job_index(s, jv.job_id);
        }
        match self.find(job.job_id) {
            Some(k) => {
                self.jobs.set(k, job);
                assert(self@ =~= s.update(k as int, jv));
            },
            None => {
                self.jobs.push(job);
                assert(self@ =~= s.push(jv));
            },
        }
        proof {
            let n = self@;
            let k = job_index(s, jv.job_id);
            let kk = if k >= 0 { k } else { s.len() as int };
            assert forall|i: int| 0 <= i < n.len() && i != kk implies n[i].job_id != jv.job_id by {}
            lemma_job_index_at(n, jv.job_id, kk);
            assert forall|id: u128| id != jv.job_id implies find_job(n, id) == find_job(s, id) by {
                lemma_job_index(s, id);
                lemma_job_index(n, id);
                if job_index(s, id) >= 0 {
                    lemma_job_index_at(n, id, job_index(s, id));
                }
            }
        }
    }

    /// A copy of the record of job `id`.
    pub fn get(&self, id: u128) -> (r: Option<Job>)
        requires
            self.wf(),
        ensures
            match r {
                Some(j) => find_job(self@, id) == Some(j@),
                None => find_job(self@, id) is None,
            },
    {
        proof {
            lemma_job_index(self@, id);
        }
        match self.find(id) {
            Some(k) => Some(self.jobs[k].copy()),
            None => None,
        }
    }

    proof fn lemma_update_keeps_wf(s: Seq<JobView>, id: u128, f: spec_fn(JobView) -> JobView)
        requires
            jobs_wf(s),
            forall|j: JobView| #[trigger] f(j).job_id == j.job_id,
            forall|j: JobView| j.consistent() ==> #[trigger] f(j).consistent(),
        ensures
            jobs_wf(update_job(s, id, f)),
            forall|x: u128| #[trigger] find_job(update_job(s, id, f), x) == if x == id {
                match find_job(s, x) {
                    Some(j) => Some(f(j)),
                    None => None,
                }
            } else {
                find_job(s, x)
            },
    {
        lemma_job_index(s, id);
        let n = update_job(s, id, f);
        let k = job_index(s, id);
        assert(jobs_wf(n)) by {
            if k >= 0 {
                assert(f(s[k]).consistent());
            }
        }
        assert forall|x: u128| #[trigger] find_job(n, x) == if x == id {
            match find_job(s, x) {
                Some(j) => Some(f(j)),
                None => None,
            }
        } else {
            find_job(s, x)
        } by {
            lemma_job_index(s, x);
            lemma_job_index(n, x);
            if job_index(s, x) >= 0 {
                lemma_job_index_at(n, x, job_index(s, x));
            }
        }
    }

    /// Marks job `id` running from `now`, if it is queued.
    pub fn start(&mut self, id: u128, now: i128)
        requires
            old(self).wf(),
            is_time(now as int),
        ensures
            final(self).wf(),
            final(self)@ == update_job(old(self)@, id, |j: JobView| j.started(now)),
    {
        let ghost s = self@;
        let ghost f = |j: JobView| j.started(now);
        proof {
            assert forall|j: JobView| j.consistent() implies #[trigger] f(j).consistent() by {
                lemma_times_stay_ordered(j, now, Seq::empty(), Err(Seq::empty()));
            }
            Self::lemma_update_keeps_wf(s, id, f);
            lemma_job_index(s, id);
        }
        if let Some(k) = self.find(id) {
            let mut job = self.jobs.remove(k);
            job.start(now);
            self.jobs.insert(k, job);
            assert(self@ =~= s.update(k as int, f(s[k as int])));
        }
    }

    /// Marks job `id` failed at `now` for `reason`, if it is still queued.
    pub fn reject(&mut self, id: u128, reason: String, now: i128)
        requires
            old(self).wf(),
            is_time(now as int),
        ensures
            final(self).wf(),
            final(self)@ == update_job(old(self)@, id, |j: JobView| j.rejected(reason@, now)),
    {
        let ghost s = self@;
        let ghost f = |j: JobView| j.rejected(reason@, now);
        proof {
            assert forall|j: JobView| j.consistent() implies #[trigger] f(j).consistent() by {
                lemma_times_stay_ordered(j, now, reason@, Err(Seq::empty()));
            }
            Self::lemma_update_keeps_wf(s, id, f);
            lemma_job_index(s, id);
        }
        if let Some(k) = self.find(id) {
            let mut job = self.jobs.remove(k);
            job.reject(reason, now);
            self.jobs.insert(k, job);
            assert(self@ =~= s.update(k as int, f(s[k as int])));
        }
    }

    /// Records the end of job `id`'s execution at `now`, if it is running.
    pub fn end(&mut self, id: u128, outcome: Result<ExecutionResult, SandboxError>, now: i128)
        requires
            old(self).wf(),
            is_time(now as int),
        ensures
            final(self).wf(),
            final(self)@ == update_job(
                old(self)@,
                id,
                |j: JobView| j.ended(outcome_view(outcome), now),
            ),
    {
        let ghost s = self@;
        let ghost o = outcome_view(outcome);
        let ghost f = |j: JobView| j.ended(o, now);
        proof {
            assert forall|j: JobView| j.consistent() implies #[trigger] f(j).consistent() by {
                lemma_times_stay_ordered(j, now, Seq::empty(), o);
            }
            Self::lemma_update_keeps_wf(s, id, f);
            lemma_job_index(s, id);
        }
        if let Some(k) = self.find(id) {
            let mut job = self.jobs.remove(k);
            assert(job@ == s[k as int]);
            job.end(outcome, now);
            self.jobs.insert(k, job);
            assert(self@ =~= s.update(k as int, f(s[k as int])));
        }
    }

    /// Every job as a listing line, by submission time, ties by job id.
    pub fn list(&self) -> (r: Vec<JobListItem>)
        requires
            self.wf(),
        ensures
            r@.len() == self@.len(),
            sorted_items(r@),
            forall|a: int, b: int|
                0 <= a < b < r@.len() ==> r@[a].submitted_at <= r@[b].submitted_at,
            lists_jobs(r@, self@, self@.len() as int),
    {
        let ghost s = self@;
        let mut out: Vec<JobListItem> = Vec::new();
        let mut i: usize = 0;
        while i < self.jobs.len()
            invariant
                self.wf(),
                s == self@,
                0 <= i <= s.len(),
                out@.len() == i,
                sorted_items(out@),
                lists_jobs(out@, s, i as int),
            decreases s.len() - i,
        {
            let job = &self.jobs[i];
            let item = JobListItem {
                job_id: job.job_id,
                tenant_id: job.tenant_id.clone(),
                status: job.status.copy(),
                submitted_at: job.submitted_at,
            };
            let ghost x = item_view(item);
            assert(x == item_of(s[i as int]));
            let mut p: usize = 0;
            while p < out.len() && (out[p].submitted_at < item.submitted_at || (out[p].submitted_at
                == item.submitted_at && out[p].job_id < item.job_id))
                invariant
                    0 <= p <= out@.len(),
                    x == item_view(item),
                    forall|m: int| 0 <= m < p ==> listed_before(item_view(out@[m]), x),
                decreases out@.len() - p,
            {
                p = p + 1;
            }
            proof {
                if p < out@.len() {
                    let j = choose|j: int|
                        0 <= j < i && item_view(#[trigger] out@[p as int]) == item_of(s[j]);
                    assert(s[j].job_id != s[i as int].job_id);
                    assert(listed_before(x, item_view(out@[p as int])));
                }
                lemma_insert_sorted(out@, p as int, item);
                lemma_insert_lists(out@, p as int, item, s, i as int);
            }
            out.insert(p, item);
            i = i + 1;
        }
        proof {
            assert forall|a: int, b: int|
                0 <= a < b < out@.len() implies out@[a].submitted_at <= out@[b].submitted_at by {
                assert(listed_before(item_view(out@[a]), item_view(out@[b])));
            }
        }
        out
    }
}

/// Each line comes strictly before the next in listing order.
pub open spec fn sorted_items(o: Seq<JobListItem>) -> bool {
    forall|a: int, b: int|
        0 <= a < b < o.len() ==> listed_before(item_view(o[a]), item_view(o[b]))
}

/// The lines of `o` are exactly those of the first `n` jobs of `s`.
pub open spec fn lists_jobs(o: Seq<JobListItem>, s: Seq<JobView>, n: int) -> bool {
    covers_jobs(o, s, n) && only_jobs(o, s, n)
}

/// Every one of the first `n` jobs of `s` has a line in `o`.
pub open spec fn covers_jobs(o: Seq<JobListItem>, s: Seq<JobView>, n: int) -> bool {
    forall|j: int|
        0 <= j < n ==> exists|m: int| 0 <= m < o.len() && item_view(o[m]) == item_of(#[trigger] s[j])
}

/// Every line of `o` shows one of the first `n` jobs of `s`.
pub open spec fn only_jobs(o: Seq<JobListItem>, s: Seq<JobView>, n: int) -> bool {
    forall|m: int|
        0 <= m < o.len() ==> exists|j: int| 0 <= j < n && item_view(#[trigger] o[m]) == item_of(s[j])
}

proof fn lemma_insert_sorted(o: Seq<JobListItem>, p: int, it: JobListItem)
    requires
        0 <= p <= o.len(),
        sorted_items(o),
        forall|m: int| 0 <= m < p ==> listed_before(item_view(o[m]), item_view(it)),
        p < o.len() ==> listed_before(item_view(it), item_view(o[p])),
    ensures
        sorted_items(o.insert(p, it)),
{
    let n = o.insert(p, it);
    assert forall|a: int, b: int| 0 <= a < b < n.len() implies listed_before(
        item_view(n[a]),
        item_view(n[b]),
    ) by {
        if b < p {
            assert(n[a] == o[a] && n[b] == o[b]);
        } else if b == p {
            assert(n[a] == o[a] && n[b] == it);
        } else {
            assert(n[b] == o[b - 1]);
            if a < p {
                assert(n[a] == o[a]);
            } else if a == p {
                assert(n[a] == it);
                if b - 1 > p {
                    assert(listed_before(item_view(o[p]), item_view(o[b - 1])));
                }
            } else {
                assert(n[a] == o[a - 1]);
            }
        }
    }
}

proof fn lemma_insert_lists(o: Seq<JobListItem>, p: int, it: JobListItem, s: Seq<JobView>, i: int)
    requires
        0 <= p <= o.len(),
        0 <= i < s.len(),
        lists_jobs(o, s, i),
        item_view(it) == item_of(s[i]),
    ensures
        lists_jobs(o.insert(p, it), s, i + 1),
{
    lemma_insert_covers(o, p, it, s, i);
    lemma_insert_from(o, p, it, s, i);
}

proof fn lemma_insert_covers(o: Seq<JobListItem>, p: int, it: JobListItem, s: Seq<JobView>, i: int)
    requires
        0 <= p <= o.len(),
        0 <= i < s.len(),
        covers_jobs(o, s, i),
        item_view(it) == item_of(s[i]),
    ensures
        covers_jobs(o.insert(p, it), s, i + 1),
{
    let n = o.insert(p, it);
    assert forall|j: int| 0 <= j < i + 1 implies exists|m: int|
        0 <= m < n.len() && item_view(n[m]) == item_of(#[trigger] s[j]) by {
        if j == i {
            assert(n[p] == it);
        } else {
            let m = choose|m: int| 0 <= m < o.len() && item_view(o[m]) == item_of(s[j]);
            if m < p {
                assert(n[m] == o[m]);
            } else {
                assert(n[m + 1] == o[m]);
            }
        }
    }
}

proof fn lemma_insert_from(o: Seq<JobListItem>, p: int, it: JobListItem, s: Seq<JobView>, i: int)
    requires
        0 <= p <= o.len(),
        0 <= i < s.len(),
        only_jobs(o, s, i),
        item_view(it) == item_of(s[i]),
    ensures
        only_jobs(o.insert(p, it), s, i + 1),
{
    let n = o.insert(p, it);
    assert forall|m: int| 0 <= m < n.len() implies exists|j: int|
        0 <= j < i + 1 && item_view(#[trigger] n[m]) == item_of(s[j]) by {
        if m < p {
            assert(n[m] == o[m]);
            let j = choose|j: int| 0 <= j < i && item_view(#[trigger] o[m]) == item_of(s[j]);
            assert(item_view(n[m]) == item_of(s[j]));
        } else if m == p {
            assert(n[m] == it);
            assert(item_view(n[m]) == item_of(s[i]));
        } else {
            assert(n[m] == o[m - 1]);
            let j = choose|j: int| 0 <= j < i && item_view(#[trigger] o[m - 1]) == item_of(s[j]);
            assert(item_view(n[m]) == item_of(s[j]));
        }
    }
}

/// The sending end of the hand-off queue; jobs reach it only through
/// `try_enqueue`.
pub struct JobQueue {
    sender: Sender<Job>,
}

/// The job registry together with the sending end of the hand-off queue.
pub struct InnerState {
    pub jobs: JobRegistry,
    pub queue: JobQueue,
    /// The jobs handed to the queue so far, in order; only `try_enqueue`
    /// extends it.
    pub sent: Ghost<Seq<JobView>>,
}

impl InnerState {
    /// No jobs yet; accepted jobs go to `sender`.
    pub fn new(sender: Sender<Job>) -> (r: InnerState)
        ensures
            r.jobs.wf(),
            r.jobs@.len() == 0,
            r.sent@.len() == 0,
    {
        InnerState {
            jobs: JobRegistry::new(),
            queue: JobQueue { sender },
            sent: Ghost(Seq::empty()),
        }
    }
}

} // verus!
