use vstd::prelude::*;

use crate::domain::{Job, JobView};
use crate::gpu_manager::{GpuManager, GpuView};
use crate::sandbox::{ExecutionResult, SandboxError};
use crate::state::{update_job, JobRegistry};
use crate::tenant::{
    lookup, policy_allows, strings_view, unpermitted, TenantRegistry, TenantStatus, TenantView,
};
use crate::usage::is_time;

verus! {

/// What the dispatcher does with a job taken off the queue.
pub enum Dispatch {
    /// A GPU slot is reserved for the job's tenant: run it.
    Run,
    /// Record the job as failed for this reason.
    Reject(String),
}

/// A slot is free for tenant `id` with policy `t`: one is free globally and
/// the tenant holds fewer than its limit.
pub open spec fn slot_free(g: GpuView, id: Seq<char>, t: TenantView) -> bool {
    g.used() < g.gpu_slots && g.count(id) < t.gpu_slot_limit
}

/// Checks a dequeued job against its tenant's current policy and reserves a
/// GPU slot for it. The tenant must still exist, be active and be allowed
/// every capability the job requested; the slot must be free globally and
/// within the tenant's limit.
pub fn dispatch(tenants: &TenantRegistry, gpu: &mut GpuManager, job: &Job) -> (r: Dispatch)
    requires
        old(gpu).wf(),
    ensures
        final(gpu).wf(),
        final(gpu)@.gpu_slots == old(gpu)@.gpu_slots,
        lookup(tenants@, job.tenant_id@) is None ==> (r matches Dispatch::Reject(m) && m@
            == "Tenant ID not found"@),
        (lookup(tenants@, job.tenant_id@) matches Some(tv) && tv.status != TenantStatus::Active)
            ==> (r matches Dispatch::Reject(m) && m@ == "Tenant not authorized"@),
        (lookup(tenants@, job.tenant_id@) matches Some(tv) && tv.status == TenantStatus::Active
            && unpermitted(tv.allowed_capabilities, strings_view(job.capabilities@)).len() > 0)
            ==> (r matches Dispatch::Reject(m) && m@ == "Unauthorized capabilities requested"@),
        policy_allows(lookup(tenants@, job.tenant_id@), strings_view(job.capabilities@)) ==> (r is Run
            <==> slot_free(old(gpu)@, job.tenant_id@, lookup(tenants@, job.tenant_id@)->Some_0)),
        (policy_allows(lookup(tenants@, job.tenant_id@), strings_view(job.capabilities@))
            && !slot_free(old(gpu)@, job.tenant_id@, lookup(tenants@, job.tenant_id@)->Some_0))
            ==> (r matches Dispatch::Reject(m) && m@ == "No GPU capacity, please try again later"@),
        r is Run ==> policy_allows(lookup(tenants@, job.tenant_id@), strings_view(job.capabilities@)),
        r is Run ==> final(gpu)@.used() == old(gpu)@.used() + 1,
        r is Run ==> forall|x: Seq<char>| #[trigger]
            final(gpu)@.count(x) == if x == job.tenant_id@ {
                old(gpu)@.count(x) + 1
            } else {
                old(gpu)@.count(x)
            },
        r is Reject ==> final(gpu)@ == old(gpu)@,
{
    let tenant = match tenants.get(&job.tenant_id) {
        None => {
            return Dispatch::Reject(String::from_str("Tenant ID not found"));
        },
        Some(t) => t,
    };
    if let TenantStatus::Suspended = tenant.status {
        return Dispatch::Reject(String::from_str("Tenant not authorized"));
    }
    let bad = tenant.unpermitted_capabilities(&job.capabilities);
    if bad.len() > 0 {
        return Dispatch::Reject(String::from_str("Unauthorized capabilities requested"));
    }
    match gpu.try_reserve_slot(tenant) {
        Ok(()) => Dispatch::Run,
        Err(_) => Dispatch::Reject(String::from_str("No GPU capacity, please try again later")),
    }
}

/// Applies a dispatch decision to the registry: a rejected job is recorded as
/// failed at `now`; a job to run is left as it is.
pub fn record_dispatch(jobs: &mut JobRegistry, job_id: u128, decision: Dispatch, now: i128)
    requires
        old(jobs).wf(),
        is_time(now as int),
    ensures
        final(jobs).wf(),
        final(jobs)@ == match decision {
            Dispatch::Run => old(jobs)@,
            Dispatch::Reject(m) => update_job(
                old(jobs)@,
                job_id,
                |j: JobView| j.rejected(m@, now),
            ),
        },
{
    match decision {
        Dispatch::Run => {},
        Dispatch::Reject(reason) => jobs.reject(job_id, reason, now),
    }
}

/// Marks job `job_id` running from `now`.
pub fn start_job(jobs: &mut JobRegistry, job_id: u128, now: i128)
    requires
        old(jobs).wf(),
        is_time(now as int),
    ensures
        final(jobs).wf(),
        final(jobs)@ == update_job(old(jobs)@, job_id, |j: JobView| j.started(now)),
{
    jobs.start(job_id, now);
}

/// Records how job `job_id`'s execution ended, at `now`.
pub fn finish_job(
    jobs: &mut JobRegistry,
    job_id: u128,
    outcome: Result<ExecutionResult, SandboxError>,
    now: i128,
)
    requires
        old(jobs).wf(),
        is_time(now as int),
    ensures
        final(jobs).wf(),
        final(jobs)@ == update_job(
            old(jobs)@,
            job_id,
            |j: JobView| j.ended(crate::domain::outcome_view(outcome), now),
        ),
{
    jobs.end(job_id, outcome, now);
}

} // verus!
