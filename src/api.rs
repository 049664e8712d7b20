use vstd::prelude::*;

use crate::domain::{
    queued_view, Job, JobErrorResponse, JobListResponse, JobView, SubmitJobRequest,
    SubmitJobResponse,
};
use crate::state::{
    find_job, lists_jobs, sorted_items, store_job, try_enqueue, InnerState, JobRegistry,
    SendOutcome,
};
use crate::tenant::{
    lookup, policy_allows, strings_view, unpermitted, TenantRegistry, TenantStatus, TenantView,
};
use crate::usage::{
    decide, history, is_time, lemma_admit_bounds, lemma_rollback_restores, lemma_rollback_shrinks,
    recent, rollback, UsageTracker,
};

verus! {

/// Lower-case hexadecimal digit of `n < 16`.
pub open spec fn hex_digit(n: nat) -> char {
    seq!['0', '1', '2', '3', '4', '5', '6', '7', '8', '9', 'a', 'b', 'c', 'd', 'e', 'f'][n as int]
}

/// The `k`-th 4-bit group of `id`, counting from the most significant.
pub open spec fn nibble(id: u128, k: int) -> nat {
    ((id >> ((4 * (31 - k)) as u128)) & 0xfu128) as nat
}

/// The hyphenated lower-case text of a UUID: its 32 hexadecimal digits, most
/// significant first, in groups of 8, 4, 4, 4 and 12 separated by `-`.
pub open spec fn hyphenated(id: u128) -> Seq<char> {
    Seq::new(
        36,
        |i: int|
            if i == 8 || i == 13 || i == 18 || i == 23 {
                '-'
            } else {
                let hyphens_before: int = if i < 8 {
                    0
                } else if i < 13 {
                    1
                } else if i < 18 {
                    2
                } else if i < 23 {
                    3
                } else {
                    4
                };
                hex_digit(nibble(id, i - hyphens_before))
            },
    )
}

/// Relies on `uuid::Uuid::new_v4` and `Uuid::as_u128`: a fresh random UUID,
/// as its 128-bit big-endian value, with version 4 and the RFC 4122 variant.
#[verifier::external_body]
fn fresh_job_id() -> (r: u128)
    ensures
        (r >> 76u128) & 0xfu128 == 4,
        (r >> 62u128) & 0x3u128 == 2,
{
    uuid::Uuid::new_v4().as_u128()
}

/// Relies on `time::OffsetDateTime::now_utc`: the current time in Unix
/// nanoseconds, which lies within the years `time` represents (at most
/// 999,999 either side of year 0).
#[verifier::external_body]
fn now_nanos() -> (r: i128)
    ensures
        is_time(r as int),
{
    time::OffsetDateTime::now_utc().unix_timestamp_nanos()
}

/// Relies on the `Display` of `uuid::Uuid` (its hyphenated lower-case form):
/// the text of the id.
#[verifier::external_body]
fn job_id_text(id: u128) -> (r: String)
    ensures
        r@ == hyphenated(id),
{
    uuid::Uuid::from_u128(id).to_string()
}

/// Why a submission was refused.
pub enum SubmitError {
    UnknownTenant(String),
    UnauthorizedTenant(String),
    /// The requested capabilities that the tenant may not use.
    UnpermittedCapabilities(Vec<String>),
    RateLimitExceeded(String),
    QueueFull,
    ServiceClosed,
}

/// `items` separated by ", ".
pub open spec fn joined(items: Seq<Seq<char>>) -> Seq<char>
    decreases items.len(),
{
    if items.len() == 0 {
        Seq::empty()
    } else if items.len() == 1 {
        items[0]
    } else {
        joined(items.drop_last()) + ", "@ + items.last()
    }
}

fn join(items: &Vec<String>) -> (r: String)
    ensures
        r@ == joined(strings_view(items@)),
{
    let mut r = String::new();
    let mut i: usize = 0;
    while i < items.len()
        invariant
            0 <= i <= items@.len(),
            r@ == joined(strings_view(items@.subrange(0, i as int))),
        decreases items@.len() - i,
    {
        let ghost pre = strings_view(items@.subrange(0, i as int));
        let ghost next = strings_view(items@.subrange(0, i + 1));
        assert(next.drop_last() =~= pre);
        if i > 0 {
            r.append(", ");
        }
        r.append(items[i].as_str());
        proof {
            if i == 0 {
                assert(r@ =~= next[0]);
            } else {
                assert(r@ =~= joined(next));
            }
        }
        i = i + 1;
    }
    assert(items@.subrange(0, items@.len() as int) =~= items@);
    r
}

impl SubmitError {
    /// The HTTP status that reports this refusal.
    pub fn status_code(&self) -> (r: u16)
        ensures
            r == match self {
                SubmitError::UnknownTenant(_) => 404u16,
                SubmitError::UnauthorizedTenant(_) => 401u16,
                SubmitError::UnpermittedCapabilities(_) => 403u16,
                SubmitError::RateLimitExceeded(_) => 429u16,
                SubmitError::QueueFull => 503u16,
                SubmitError::ServiceClosed => 500u16,
            },
    {
        match self {
            SubmitError::UnknownTenant(_) => 404,
            SubmitError::UnauthorizedTenant(_) => 401,
            SubmitError::UnpermittedCapabilities(_) => 403,
            SubmitError::RateLimitExceeded(_) => 429,
            SubmitError::QueueFull => 503,
            SubmitError::ServiceClosed => 500,
        }
    }

    pub open spec fn code_view(&self) -> Seq<char> {
        match self {
            SubmitError::UnknownTenant(_) => "unknown_tenant"@,
            SubmitError::UnauthorizedTenant(_) => "unauthorized_tenant"@,
            SubmitError::UnpermittedCapabilities(_) => "unpermitted_capabilities"@,
            SubmitError::RateLimitExceeded(_) => "rate_limit_exceeded"@,
            SubmitError::QueueFull => "queue_full"@,
            SubmitError::ServiceClosed => "service_closed"@,
        }
    }

    pub open spec fn message_view(&self) -> Seq<char> {
        match self {
            SubmitError::UnknownTenant(id) => "Tenant ID "@ + id@ + " not known"@,
            SubmitError::UnauthorizedTenant(id) => "Tenant ID "@ + id@ + " is not active"@,
            SubmitError::UnpermittedCapabilities(caps) => "Unpermitted capabilities requested: "@
                + joined(strings_view(caps@)),
            SubmitError::RateLimitExceeded(id) => "Rate limit exceeded for tenant "@ + id@,
            SubmitError::QueueFull => "Job queue full, please try again later"@,
            SubmitError::ServiceClosed => "Sorry, we are closed for business"@,
        }
    }

    /// The error body that reports this refusal.
    pub fn to_response(&self) -> (r: JobErrorResponse)
        ensures
            r.error@ == self.code_view(),
            r.message@ == self.message_view(),
    {
        match self {
            SubmitError::UnknownTenant(id) => JobErrorResponse {
                error: String::from_str("unknown_tenant"),
                message: String::from_str("Tenant ID ").concat(id.as_str()).concat(" not known"),
            },
            SubmitError::UnauthorizedTenant(id) => JobErrorResponse {
                error: String::from_str("unauthorized_tenant"),
                message: String::from_str("Tenant ID ").concat(id.as_str()).concat(
                    " is not active",
                ),
            },
            SubmitError::UnpermittedCapabilities(caps) => {
                let list = join(caps);
                JobErrorResponse {
                    error: String::from_str("unpermitted_capabilities"),
                    message: String::from_str("Unpermitted capabilities requested: ").concat(
                        list.as_str(),
                    ),
                }
            },
            SubmitError::RateLimitExceeded(id) => JobErrorResponse {
                error: String::from_str("rate_limit_exceeded"),
                message: String::from_str("Rate limit exceeded for tenant ").concat(id.as_str()),
            },
            SubmitError::QueueFull => JobErrorResponse {
                error: String::from_str("queue_full"),
                message: String::from_str("Job queue full, please try again later"),
            },
            SubmitError::ServiceClosed => JobErrorResponse {
                error: String::from_str("service_closed"),
                message: String::from_str("Sorry, we are closed for business"),
            },
        }
    }
}

/// Why a query found nothing.
pub enum QueryError {
    JobNotFound(u128),
}

impl QueryError {
    pub fn status_code(&self) -> (r: u16)
        ensures
            r == 404,
    {
        404
    }

    /// The error body that reports this failure.
    pub fn to_response(&self) -> (r: JobErrorResponse)
        ensures
            r.error@ == "job_not_found"@,
            r.message@ == match self {
                QueryError::JobNotFound(id) => "Job with id "@ + hyphenated(*id) + " not found"@,
            },
    {
        match self {
            QueryError::JobNotFound(id) => {
                let text = job_id_text(*id);
                JobErrorResponse {
                    error: String::from_str("job_not_found"),
                    message: String::from_str("Job with id ").concat(text.as_str()).concat(
                        " not found",
                    ),
                }
            },
        }
    }
}

/// The rate-limit decision that admission takes for `t` at `now`.
pub open spec fn rate_decision(
    usage: Seq<(Seq<char>, Seq<i128>)>,
    t: Option<TenantView>,
    id: Seq<char>,
    now: i128,
) -> (Seq<(Seq<char>, Seq<i128>)>, bool) {
    match t {
        Some(tv) => decide(usage, id, tv.rate_limit, now),
        None => (usage, true),
    }
}

/// Everything admission of `req` as job `job_id` at `now` owes, given the
/// tenants, the usage log before (`u0`) and after (`u1`), the registry before
/// (`j0`) and after (`j1`), and the jobs handed to the queue before (`s0`) and
/// after (`s1`):
/// - refusals in order: unknown tenant (404), inactive tenant (401), requested
///   capabilities the tenant may not use (403, listing exactly those), the rate
///   limit (429); none of them touches the registry or the queue, and only the
///   rate limit touches the log (it drops expired timestamps);
/// - otherwise the job is offered to the queue; if it is queued, its record is
///   stored (replacing a record under the same id) and the log keeps the
///   reservation; if the queue is full or closed (503, 500), nothing is stored
///   and the reservation is taken back.
pub open spec fn admission_outcome(
    tenants: Seq<TenantView>,
    u0: Seq<(Seq<char>, Seq<i128>)>,
    u1: Seq<(Seq<char>, Seq<i128>)>,
    j0: Seq<JobView>,
    j1: Seq<JobView>,
    s0: Seq<JobView>,
    s1: Seq<JobView>,
    req: SubmitJobRequest,
    job_id: u128,
    now: i128,
    r: Result<SubmitJobResponse, SubmitError>,
) -> bool {
    let id = req.tenant_id@;
    let caps = strings_view(req.capabilities@);
    let t = lookup(tenants, id);
    let d = rate_decision(u0, t, id, now);
    let job = queued_view(req, job_id, now);
    &&& (r matches Err(SubmitError::UnknownTenant(x)) ==> x@ == id)
    &&& (r matches Err(SubmitError::UnknownTenant(_))) <==> t is None
    &&& (r matches Err(SubmitError::UnauthorizedTenant(x)) ==> x@ == id)
    &&& (r matches Err(SubmitError::UnauthorizedTenant(_))) <==> (t matches Some(tv) && tv.status
        != TenantStatus::Active)
    &&& (r matches Err(SubmitError::UnpermittedCapabilities(l)) ==> strings_view(l@) == unpermitted(
        t->Some_0.allowed_capabilities,
        caps,
    ))
    &&& (r matches Err(SubmitError::UnpermittedCapabilities(_))) <==> (t matches Some(tv)
        && tv.status == TenantStatus::Active && unpermitted(tv.allowed_capabilities, caps).len()
        > 0)
    &&& (r matches Err(SubmitError::RateLimitExceeded(x)) ==> x@ == id)
    &&& (r matches Err(SubmitError::RateLimitExceeded(_))) <==> (policy_allows(t, caps) && !d.1)
    &&& (r is Ok || r matches Err(SubmitError::QueueFull) || r matches Err(
        SubmitError::ServiceClosed,
    )) <==> (policy_allows(t, caps) && d.1)
    &&& !policy_allows(t, caps) ==> u1 == u0
    &&& r matches Err(SubmitError::RateLimitExceeded(_)) ==> u1 == d.0
    &&& r matches Ok(resp) ==> {
        &&& resp.job_id == job_id
        &&& u1 == d.0
        &&& j1 == store_job(j0, job)
        &&& find_job(j1, job_id) == Some(job)
        &&& s1 == s0.push(job)
    }
    &&& r is Err ==> j1 == j0 && s1 == s0
    &&& (r matches Err(SubmitError::QueueFull) || r matches Err(SubmitError::ServiceClosed)) ==> u1
        == if t->Some_0.rate_limit > 0 {
        rollback(d.0, id)
    } else {
        u0
    }
    &&& (r matches Err(SubmitError::QueueFull) && forall|j: int|
        0 <= j < history(u0, id).len() ==> recent(#[trigger] history(u0, id)[j], now)) ==> u1 == u0
    &&& (policy_allows(t, caps) && t->Some_0.rate_limit > 0 && history(u0, id).len()
        <= t->Some_0.rate_limit) ==> {
        &&& history(u1, id).len() <= t->Some_0.rate_limit
        &&& forall|j: int|
            0 <= j < history(u1, id).len() ==> recent(#[trigger] history(u1, id)[j], now)
    }
}

/// The version (4) and variant (RFC 4122) bits of a random UUID.
pub open spec fn is_v4_uuid(id: u128) -> bool {
    (id >> 76u128) & 0xfu128 == 4 && (id >> 62u128) & 0x3u128 == 2
}

/// Admission of `req` as job `job_id` at `now` (see `admission_outcome`): the
/// tenant must exist, be active and be allowed every requested capability;
/// the rate limit is then applied, and the job is offered to the queue.
pub fn submit(
    tenants: &TenantRegistry,
    usage: &mut UsageTracker,
    inner: &mut InnerState,
    req: SubmitJobRequest,
    job_id: u128,
    now: i128,
) -> (r: Result<SubmitJobResponse, SubmitError>)
    requires
        old(usage).wf(),
        old(inner).jobs.wf(),
        is_time(now as int),
    ensures
        final(usage).wf(),
        final(inner).jobs.wf(),
        admission_outcome(
            tenants@,
            old(usage)@,
            final(usage)@,
            old(inner).jobs@,
            final(inner).jobs@,
            old(inner).sent@,
            final(inner).sent@,
            req,
            job_id,
            now,
            r,
        ),
{
    let ghost req_view = queued_view(req, job_id, now);
    let ghost u0 = usage@;
    proof {
        usage.lemma_entries_wf();
    }
    let job = Job::queued(req, job_id, now);
    let tenant = match tenants.get(&job.tenant_id) {
        None => {
            return Err(SubmitError::UnknownTenant(job.tenant_id.clone()));
        },
        Some(t) => t,
    };
    if let TenantStatus::Suspended = tenant.status {
        return Err(SubmitError::UnauthorizedTenant(job.tenant_id.clone()));
    }
    let bad = tenant.unpermitted_capabilities(&job.capabilities);
    if bad.len() > 0 {
        return Err(SubmitError::UnpermittedCapabilities(bad));
    }
    let admitted = usage.try_admit(&job.tenant_id, tenant.rate_limit, now);
    proof {
        usage.lemma_entries_wf();
        if tenant.rate_limit > 0 && history(u0, req_view.tenant_id).len() <= tenant.rate_limit {
            lemma_admit_bounds(u0, req_view.tenant_id, tenant.rate_limit as nat, now);
            lemma_rollback_shrinks(usage@, req_view.tenant_id);
        }
    }
    if !admitted {
        return Err(SubmitError::RateLimitExceeded(job.tenant_id.clone()));
    }
    let outgoing = job.copy();
    let outcome = try_enqueue(inner, outgoing);
    let rate_limit = tenant.rate_limit;
    proof {
        if outcome == SendOutcome::Full && rate_limit > 0 && forall|j: int|
            0 <= j < history(u0, req_view.tenant_id).len() ==> recent(
                #[trigger] history(u0, req_view.tenant_id)[j],
                now,
            ) {
            lemma_rollback_restores(u0, req_view.tenant_id, rate_limit as nat, now);
        }
    }
    settle_admission(usage, &mut inner.jobs, job, rate_limit, outcome)
}

/// Completes an admission once the queue has answered `outcome` for `job`,
/// whose tenant has rate limit `rate_limit`: a queued job is stored in the
/// registry; otherwise its rate-limit reservation is taken back and the
/// refusal reported.
pub fn settle_admission(
    usage: &mut UsageTracker,
    jobs: &mut JobRegistry,
    job: Job,
    rate_limit: usize,
    outcome: SendOutcome,
) -> (r: Result<SubmitJobResponse, SubmitError>)
    requires
        old(usage).wf(),
        old(jobs).wf(),
        job@.consistent(),
    ensures
        final(usage).wf(),
        final(jobs).wf(),
        outcome == SendOutcome::Sent ==> {
            &&& r matches Ok(resp) && resp.job_id == job.job_id
            &&& final(jobs)@ == store_job(old(jobs)@, job@)
            &&& find_job(final(jobs)@, job.job_id) == Some(job@)
            &&& final(usage)@ == old(usage)@
        },
        outcome == SendOutcome::Full ==> r matches Err(SubmitError::QueueFull),
        outcome == SendOutcome::Closed ==> r matches Err(SubmitError::ServiceClosed),
        outcome != SendOutcome::Sent ==> {
            &&& final(jobs)@ == old(jobs)@
            &&& final(usage)@ == if rate_limit > 0 {
                rollback(old(usage)@, job.tenant_id@)
            } else {
                old(usage)@
            }
        },
{
    match outcome {
        SendOutcome::Sent => {
            let job_id = job.job_id;
            jobs.insert(job);
            Ok(SubmitJobResponse { job_id })
        },
        SendOutcome::Full => {
            if rate_limit > 0 {
                usage.rollback(&job.tenant_id);
            }
            Err(SubmitError::QueueFull)
        },
        SendOutcome::Closed => {
            if rate_limit > 0 {
                usage.rollback(&job.tenant_id);
            }
            Err(SubmitError::ServiceClosed)
        },
    }
}

/// Admission of `req` under a fresh random job id at the current time: for
/// some version-4 id and some clock reading, the result, the usage log, the
/// registry and the queue's record are those that `admission_outcome` gives.
/// The tenant checks do not depend on either.
pub fn submit_job(
    tenants: &TenantRegistry,
    usage: &mut UsageTracker,
    inner: &mut InnerState,
    req: SubmitJobRequest,
) -> (r: Result<SubmitJobResponse, SubmitError>)
    requires
        old(usage).wf(),
        old(inner).jobs.wf(),
    ensures
        final(usage).wf(),
        final(inner).jobs.wf(),
        exists|job_id: u128, now: i128|
            is_v4_uuid(job_id) && is_time(now as int) && #[trigger] admission_outcome(
                tenants@,
                old(usage)@,
                final(usage)@,
                old(inner).jobs@,
                final(inner).jobs@,
                old(inner).sent@,
                final(inner).sent@,
                req,
                job_id,
                now,
                r,
            ),
        r matches Ok(resp) ==> is_v4_uuid(resp.job_id),
        ({
            let id = req.tenant_id@;
            let caps = strings_view(req.capabilities@);
            let t = lookup(tenants@, id);
            &&& (r matches Err(SubmitError::UnknownTenant(_))) <==> t is None
            &&& (r matches Err(SubmitError::UnauthorizedTenant(_))) <==> (t matches Some(tv)
                && tv.status != TenantStatus::Active)
            &&& (r matches Err(SubmitError::UnpermittedCapabilities(_))) <==> (t matches Some(tv)
                && tv.status == TenantStatus::Active && unpermitted(
                tv.allowed_capabilities,
                caps,
            ).len() > 0)
            &&& (r matches Err(SubmitError::UnpermittedCapabilities(l)) ==> strings_view(l@)
                == unpermitted(t->Some_0.allowed_capabilities, caps))
            &&& !policy_allows(t, caps) ==> final(usage)@ == old(usage)@
            &&& r is Err ==> final(inner).jobs@ == old(inner).jobs@ && final(inner).sent@
                == old(inner).sent@
        }),
{
    let job_id = fresh_job_id();
    let now = now_nanos();
    let r = submit(tenants, usage, inner, req, job_id, now);
    assert(is_v4_uuid(job_id));
    r
}

/// A copy of the record of job `job_id`.
pub fn get_job(inner: &InnerState, job_id: u128) -> (r: Result<Job, QueryError>)
    requires
        inner.jobs.wf(),
    ensures
        match r {
            Ok(j) => find_job(inner.jobs@, job_id) == Some(j@),
            Err(QueryError::JobNotFound(id)) => id == job_id && find_job(inner.jobs@, job_id)
                is None,
        },
{
    match inner.jobs.get(job_id) {
        Some(j) => Ok(j),
        None => Err(QueryError::JobNotFound(job_id)),
    }
}

/// Every job as a listing line, oldest submission first, ties by job id.
pub fn list_jobs(inner: &InnerState) -> (r: JobListResponse)
    requires
        inner.jobs.wf(),
    ensures
        r.jobs@.len() == inner.jobs@.len(),
        sorted_items(r.jobs@),
        forall|a: int, b: int|
            0 <= a < b < r.jobs@.len() ==> r.jobs@[a].submitted_at <= r.jobs@[b].submitted_at,
        lists_jobs(r.jobs@, inner.jobs@, inner.jobs@.len() as int),
{
    JobListResponse { jobs: inner.jobs.list() }
}

} // verus!
