use tokio::sync::mpsc;
use wasm_jobs::api::{get_job, list_jobs, settle_admission, submit, submit_job, QueryError, SubmitError};
use wasm_jobs::config::Config;
use wasm_jobs::dispatcher::{dispatch, finish_job, record_dispatch, start_job, Dispatch};
use wasm_jobs::domain::{Job, JobStatus, SubmitJobRequest};
use wasm_jobs::gpu_manager::GpuManager;
use wasm_jobs::sandbox::execution_result;
use wasm_jobs::state::{InnerState, JobRegistry, SendOutcome};
use wasm_jobs::tenant::{Tenant, TenantFile, TenantRegistry, TenantStatus};
use wasm_jobs::usage::UsageTracker;

const SECOND: i128 = 1_000_000_000;
const T0: i128 = 1_700_000_000 * SECOND;

fn tenant(id: &str, caps: &[&str], rate_limit: usize, gpu_slot_limit: usize) -> Tenant {
    Tenant {
        tenant_id: id.to_string(),
        allowed_capabilities: caps.iter().map(|c| c.to_string()).collect(),
        gpu_slot_limit,
        rate_limit,
        status: TenantStatus::Active,
    }
}

fn registry(tenants: Vec<Tenant>) -> TenantRegistry {
    TenantRegistry::from_file(TenantFile { tenants })
}

fn request(tenant_id: &str, caps: &[&str]) -> SubmitJobRequest {
    SubmitJobRequest {
        tenant_id: tenant_id.to_string(),
        module_id: "echo".to_string(),
        payload: "{}".to_string(),
        capabilities: caps.iter().map(|c| c.to_string()).collect(),
    }
}

fn config(queue_length: usize, gpu_slots: usize) -> Config {
    Config { queue_length, gpu_slots, per_tenant_limit: 1 }
}

#[test]
fn happy_path_runs_to_finished() {
    let tenants = registry(vec![tenant("t1", &["logging"], 5, 1)]);
    let cfg = config(4, 2);
    let (tx, mut rx) = mpsc::channel::<Job>(cfg.queue_length);
    let mut inner = InnerState::new(tx);
    let mut usage = UsageTracker::new();
    let mut gpu = GpuManager::new(&cfg);

    let resp = submit(&tenants, &mut usage, &mut inner, request("t1", &["logging"]), 7, T0)
        .ok()
        .expect("accepted");
    assert_eq!(resp.job_id, 7);

    let queued = rx.try_recv().expect("job on the queue");
    assert_eq!(queued.job_id, 7);
    let decision = dispatch(&tenants, &mut gpu, &queued);
    assert!(matches!(decision, Dispatch::Run));
    assert_eq!(gpu.slots_of("t1"), 1);
    record_dispatch(&mut inner.jobs, 7, decision, T0 + SECOND);
    start_job(&mut inner.jobs, 7, T0 + SECOND);
    assert!(matches!(get_job(&inner, 7).ok().unwrap().status, JobStatus::Running));

    let result = execution_result(42, T0 + SECOND, T0 + 6 * SECOND);
    finish_job(&mut inner.jobs, 7, Ok(result), T0 + 6 * SECOND);
    assert_eq!(gpu.release_slot("t1"), Ok(()));

    let job = get_job(&inner, 7).ok().unwrap();
    match &job.status {
        JobStatus::Finished(m) => assert_eq!(m, "Successfully wasted 5 seconds"),
        _ => panic!("job did not finish"),
    }
    let result = job.result.as_ref().expect("result attached");
    assert_eq!(result.output, b"42".to_vec());
    assert_eq!(result.memory_used, 0);
    assert_eq!(job.duration, Some(5 * SECOND));
    assert!(job.duration.unwrap() > 0);
    assert_eq!(gpu.used_slots(), 0);
}

#[test]
fn unknown_tenant_is_refused() {
    let tenants = registry(vec![tenant("t1", &["logging"], 5, 1)]);
    let (tx, _rx) = mpsc::channel::<Job>(4);
    let mut inner = InnerState::new(tx);
    let mut usage = UsageTracker::new();
    let r = submit(&tenants, &mut usage, &mut inner, request("ghost", &[]), 1, T0);
    let err = r.err().expect("refused");
    assert!(matches!(err, SubmitError::UnknownTenant(_)));
    assert_eq!(err.status_code(), 404);
    let body = err.to_response();
    assert_eq!(body.error, "unknown_tenant");
    assert_eq!(body.message, "Tenant ID ghost not known");
    assert_eq!(list_jobs(&inner).jobs.len(), 0);
}

#[test]
fn suspended_tenant_is_unauthorized() {
    let mut t = tenant("t1", &["logging"], 5, 1);
    t.status = TenantStatus::Suspended;
    let tenants = registry(vec![t]);
    let (tx, _rx) = mpsc::channel::<Job>(4);
    let mut inner = InnerState::new(tx);
    let mut usage = UsageTracker::new();
    let err = submit(&tenants, &mut usage, &mut inner, request("t1", &[]), 1, T0).err().unwrap();
    assert!(matches!(err, SubmitError::UnauthorizedTenant(_)));
    assert_eq!(err.status_code(), 401);
    assert_eq!(err.to_response().error, "unauthorized_tenant");
}

#[test]
fn capability_denial_reports_offending_subset() {
    let tenants = registry(vec![tenant("t1", &["logging"], 5, 1)]);
    let (tx, _rx) = mpsc::channel::<Job>(4);
    let mut inner = InnerState::new(tx);
    let mut usage = UsageTracker::new();
    let err = submit(
        &tenants,
        &mut usage,
        &mut inner,
        request("t1", &["gpu.compute", "logging", "network.egress"]),
        1,
        T0,
    )
    .err()
    .unwrap();
    match &err {
        SubmitError::UnpermittedCapabilities(list) => {
            assert_eq!(list, &vec!["gpu.compute".to_string(), "network.egress".to_string()])
        }
        _ => panic!("wrong error"),
    }
    assert_eq!(err.status_code(), 403);
    let body = err.to_response();
    assert_eq!(body.error, "unpermitted_capabilities");
    assert_eq!(body.message, "Unpermitted capabilities requested: gpu.compute, network.egress");
    assert_eq!(usage.history_of(&"t1".to_string()).len(), 0);
}

#[test]
fn rate_limit_refuses_third_and_recovers_after_window() {
    let tenants = registry(vec![tenant("t1", &["logging"], 2, 1)]);
    let (tx, _rx) = mpsc::channel::<Job>(10);
    let mut inner = InnerState::new(tx);
    let mut usage = UsageTracker::new();
    assert!(submit(&tenants, &mut usage, &mut inner, request("t1", &[]), 1, T0).is_ok());
    assert!(submit(&tenants, &mut usage, &mut inner, request("t1", &[]), 2, T0 + SECOND / 4).is_ok());
    let err = submit(&tenants, &mut usage, &mut inner, request("t1", &[]), 3, T0 + SECOND / 2)
        .err()
        .unwrap();
    assert!(matches!(err, SubmitError::RateLimitExceeded(_)));
    assert_eq!(err.status_code(), 429);
    assert_eq!(err.to_response().error, "rate_limit_exceeded");
    let later = T0 + SECOND / 2 + 61 * SECOND;
    assert!(submit(&tenants, &mut usage, &mut inner, request("t1", &[]), 4, later).is_ok());
    assert_eq!(usage.history_of(&"t1".to_string()), vec![later]);
    assert_eq!(list_jobs(&inner).jobs.len(), 3);
}

#[test]
fn queue_saturation_rolls_back_reservation() {
    let tenants = registry(vec![tenant("t1", &[], 10, 1)]);
    let (tx, _rx) = mpsc::channel::<Job>(1);
    let mut inner = InnerState::new(tx);
    let mut usage = UsageTracker::new();
    assert!(submit(&tenants, &mut usage, &mut inner, request("t1", &[]), 1, T0).is_ok());
    let before = usage.history_of(&"t1".to_string());
    let err = submit(&tenants, &mut usage, &mut inner, request("t1", &[]), 2, T0 + SECOND)
        .err()
        .unwrap();
    assert!(matches!(err, SubmitError::QueueFull));
    assert_eq!(err.status_code(), 503);
    assert_eq!(err.to_response().error, "queue_full");
    assert_eq!(usage.history_of(&"t1".to_string()), vec![T0]);
    assert_eq!(usage.history_of(&"t1".to_string()), before);
    assert!(get_job(&inner, 2).is_err());
    assert_eq!(list_jobs(&inner).jobs.len(), 1);
}

#[test]
fn closed_queue_reports_service_closed() {
    let tenants = registry(vec![tenant("t1", &[], 10, 1)]);
    let (tx, rx) = mpsc::channel::<Job>(1);
    drop(rx);
    let mut inner = InnerState::new(tx);
    let mut usage = UsageTracker::new();
    let err = submit(&tenants, &mut usage, &mut inner, request("t1", &[]), 1, T0).err().unwrap();
    assert!(matches!(err, SubmitError::ServiceClosed));
    assert_eq!(err.status_code(), 500);
    assert_eq!(err.to_response().error, "service_closed");
    assert_eq!(usage.history_of(&"t1".to_string()).len(), 0);
}

#[test]
fn gpu_saturation_rejects_second_tenant() {
    let tenants = registry(vec![tenant("a", &[], 0, 1), tenant("b", &[], 0, 1)]);
    let cfg = config(4, 1);
    let (tx, mut rx) = mpsc::channel::<Job>(4);
    let mut inner = InnerState::new(tx);
    let mut usage = UsageTracker::new();
    let mut gpu = GpuManager::new(&cfg);
    assert!(submit(&tenants, &mut usage, &mut inner, request("a", &[]), 1, T0).is_ok());
    assert!(submit(&tenants, &mut usage, &mut inner, request("b", &[]), 2, T0).is_ok());

    let first = rx.try_recv().unwrap();
    let d1 = dispatch(&tenants, &mut gpu, &first);
    assert!(matches!(d1, Dispatch::Run));
    record_dispatch(&mut inner.jobs, first.job_id, d1, T0 + 1);
    start_job(&mut inner.jobs, first.job_id, T0 + 1);

    let second = rx.try_recv().unwrap();
    let d2 = dispatch(&tenants, &mut gpu, &second);
    record_dispatch(&mut inner.jobs, second.job_id, d2, T0 + 2);

    let r1 = get_job(&inner, 1).ok().unwrap();
    assert!(matches!(r1.status, JobStatus::Running));
    let r2 = get_job(&inner, 2).ok().unwrap();
    match &r2.status {
        JobStatus::Failed(m) => assert_eq!(m, "No GPU capacity, please try again later"),
        _ => panic!("second job not rejected"),
    }
    assert_eq!(r2.finished_at, Some(T0 + 2));
    assert_eq!(r2.started_at, None);

    finish_job(&mut inner.jobs, 1, Ok(execution_result(0, T0 + 1, T0 + 5)), T0 + 5);
    assert!(matches!(get_job(&inner, 1).ok().unwrap().status, JobStatus::Finished(_)));
}

#[test]
fn dispatcher_revalidates_policy() {
    let mut suspended = tenant("s", &[], 0, 1);
    suspended.status = TenantStatus::Suspended;
    let admitted = registry(vec![tenant("s", &[], 0, 1), tenant("c", &["logging"], 0, 1)]);
    let now = registry(vec![suspended, tenant("c", &[], 0, 1)]);
    let cfg = config(4, 4);
    let (tx, mut rx) = mpsc::channel::<Job>(4);
    let mut inner = InnerState::new(tx);
    let mut usage = UsageTracker::new();
    let mut gpu = GpuManager::new(&cfg);
    assert!(submit(&admitted, &mut usage, &mut inner, request("s", &[]), 1, T0).is_ok());
    assert!(submit(&admitted, &mut usage, &mut inner, request("c", &["logging"]), 2, T0).is_ok());
    let empty = registry(vec![]);

    let j1 = rx.try_recv().unwrap();
    match dispatch(&now, &mut gpu, &j1) {
        Dispatch::Reject(m) => assert_eq!(m, "Tenant not authorized"),
        Dispatch::Run => panic!("suspended tenant ran"),
    }
    match dispatch(&empty, &mut gpu, &j1) {
        Dispatch::Reject(m) => assert_eq!(m, "Tenant ID not found"),
        Dispatch::Run => panic!("unknown tenant ran"),
    }
    let j2 = rx.try_recv().unwrap();
    match dispatch(&now, &mut gpu, &j2) {
        Dispatch::Reject(m) => assert_eq!(m, "Unauthorized capabilities requested"),
        Dispatch::Run => panic!("capability no longer allowed"),
    }
    assert_eq!(gpu.used_slots(), 0);
}

#[test]
fn accepted_job_keeps_submission_time() {
    let tenants = registry(vec![tenant("t1", &[], 0, 1)]);
    let (tx, _rx) = mpsc::channel::<Job>(4);
    let mut inner = InnerState::new(tx);
    let mut usage = UsageTracker::new();
    let resp = submit(&tenants, &mut usage, &mut inner, request("t1", &[]), 99, T0 + 123)
        .ok()
        .unwrap();
    let job = get_job(&inner, resp.job_id).ok().unwrap();
    assert_eq!(job.submitted_at, T0 + 123);
    assert_eq!(job.tenant_id, "t1");
    assert_eq!(job.module_id, "echo");
    assert_eq!(job.payload, "{}");
    assert!(matches!(job.status, JobStatus::Queued));
    assert_eq!(usage.history_of(&"t1".to_string()).len(), 0);
}

#[test]
fn submit_job_assigns_fresh_id() {
    let tenants = registry(vec![tenant("t1", &[], 0, 1)]);
    let (tx, _rx) = mpsc::channel::<Job>(4);
    let mut inner = InnerState::new(tx);
    let mut usage = UsageTracker::new();
    let a = submit_job(&tenants, &mut usage, &mut inner, request("t1", &[])).ok().unwrap();
    let b = submit_job(&tenants, &mut usage, &mut inner, request("t1", &[])).ok().unwrap();
    assert_ne!(a.job_id, b.job_id);
    assert_eq!((a.job_id >> 76) & 0xF, 4);
    let job = get_job(&inner, a.job_id).ok().unwrap();
    assert!(job.submitted_at > T0);
    assert!(matches!(job.status, JobStatus::Queued));
    assert!(matches!(
        submit_job(&tenants, &mut usage, &mut inner, request("nobody", &[])),
        Err(SubmitError::UnknownTenant(_))
    ));
}

#[test]
fn missing_job_is_not_found() {
    let (tx, _rx) = mpsc::channel::<Job>(1);
    let inner = InnerState::new(tx);
    let err = get_job(&inner, 42).err().unwrap();
    assert!(matches!(err, QueryError::JobNotFound(42)));
    assert_eq!(err.status_code(), 404);
    let body = err.to_response();
    assert_eq!(body.error, "job_not_found");
    assert_eq!(body.message, "Job with id 00000000-0000-0000-0000-00000000002a not found");
}

#[test]
fn listing_is_sorted_by_submission_then_id() {
    let tenants = registry(vec![tenant("t1", &[], 0, 1), tenant("t2", &[], 0, 1)]);
    let (tx, _rx) = mpsc::channel::<Job>(10);
    let mut inner = InnerState::new(tx);
    let mut usage = UsageTracker::new();
    for (id, at, who) in [(5u128, T0 + 30, "t1"), (3, T0 + 10, "t2"), (9, T0 + 10, "t1"), (1, T0 + 20, "t2")] {
        assert!(submit(&tenants, &mut usage, &mut inner, request(who, &[]), id, at).is_ok());
    }
    let list = list_jobs(&inner).jobs;
    let order: Vec<(u128, i128)> = list.iter().map(|i| (i.job_id, i.submitted_at)).collect();
    assert_eq!(order, vec![(3, T0 + 10), (9, T0 + 10), (1, T0 + 20), (5, T0 + 30)]);
    assert_eq!(list[0].tenant_id, "t2");
    for w in list.windows(2) {
        assert!(w[0].submitted_at <= w[1].submitted_at);
    }
}

fn bare_job(id: u128, tenant_id: &str, at: i128) -> Job {
    Job::queued(request(tenant_id, &[]), id, at)
}

#[test]
fn settle_admission_follows_queue_outcome() {
    let mut usage = UsageTracker::new();
    let mut jobs = JobRegistry::new();
    let id = "t1".to_string();
    assert!(usage.try_admit(&id, 3, T0));
    assert!(usage.try_admit(&id, 3, T0 + 1));

    let r = settle_admission(&mut usage, &mut jobs, bare_job(1, "t1", T0 + 1), 3, SendOutcome::Sent);
    assert_eq!(r.ok().unwrap().job_id, 1);
    assert_eq!(jobs.get(1).unwrap().submitted_at, T0 + 1);
    assert_eq!(usage.history_of(&id), vec![T0, T0 + 1]);

    assert!(usage.try_admit(&id, 3, T0 + 2));
    let r = settle_admission(&mut usage, &mut jobs, bare_job(2, "t1", T0 + 2), 3, SendOutcome::Full);
    assert!(matches!(r, Err(SubmitError::QueueFull)));
    assert_eq!(usage.history_of(&id), vec![T0, T0 + 1]);
    assert!(jobs.get(2).is_none());

    assert!(usage.try_admit(&id, 3, T0 + 3));
    let r = settle_admission(&mut usage, &mut jobs, bare_job(3, "t1", T0 + 3), 3, SendOutcome::Closed);
    assert!(matches!(r, Err(SubmitError::ServiceClosed)));
    assert_eq!(usage.history_of(&id), vec![T0, T0 + 1]);

    let r = settle_admission(&mut usage, &mut jobs, bare_job(4, "t1", T0 + 4), 0, SendOutcome::Full);
    assert!(matches!(r, Err(SubmitError::QueueFull)));
    assert_eq!(usage.history_of(&id), vec![T0, T0 + 1]);
    assert_eq!(list_jobs_len(&jobs), 1);
}

fn list_jobs_len(jobs: &JobRegistry) -> usize {
    jobs.list().len()
}
