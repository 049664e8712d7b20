use tokio::sync::mpsc;
use wasm_jobs::api::submit;
use wasm_jobs::config::Config;
use wasm_jobs::dispatcher::{finish_job, record_dispatch, start_job, Dispatch};
use wasm_jobs::domain::{Job, JobStatus, SubmitJobRequest};
use wasm_jobs::gpu_manager::{GpuError, GpuManager};
use wasm_jobs::sandbox::{
    execution_result, gpu_compute, host_imports, http_post, module_file, run_output, HostImport,
    SandboxConfig, SandboxError, FUEL_UNITS, MAX_WASM_STACK,
};
use wasm_jobs::state::InnerState;
use wasm_jobs::tenant::{Tenant, TenantFile, TenantRegistry, TenantStatus};
use wasm_jobs::usage::{UsageTracker, WINDOW_NANOS};

const SECOND: i128 = 1_000_000_000;
const T0: i128 = 1_700_000_000 * SECOND;

fn tenant(id: &str, gpu_slot_limit: usize) -> Tenant {
    Tenant {
        tenant_id: id.to_string(),
        allowed_capabilities: vec!["logging".to_string()],
        gpu_slot_limit,
        rate_limit: 0,
        status: TenantStatus::Active,
    }
}

fn strings(items: &[&str]) -> Vec<String> {
    items.iter().map(|s| s.to_string()).collect()
}

#[test]
fn gpu_global_cap_and_tenant_limit() {
    let cfg = Config { queue_length: 1, gpu_slots: 3, per_tenant_limit: 1 };
    let mut gpu = GpuManager::new(&cfg);
    let a = tenant("a", 2);
    let b = tenant("b", 5);
    let z = tenant("z", 0);
    assert_eq!(gpu.try_reserve_slot(&z), Err(GpuError::TenantLimitReached));
    assert_eq!(gpu.slots_of("z"), 0);
    assert_eq!(gpu.try_reserve_slot(&a), Ok(()));
    assert_eq!(gpu.try_reserve_slot(&a), Ok(()));
    assert_eq!(gpu.try_reserve_slot(&a), Err(GpuError::TenantLimitReached));
    assert_eq!(gpu.slots_of("a"), 2);
    assert_eq!(gpu.try_reserve_slot(&b), Ok(()));
    assert_eq!(gpu.try_reserve_slot(&b), Err(GpuError::NoGlobalCapacity));
    assert_eq!(gpu.used_slots(), 3);
    assert_eq!(gpu.release_slot("a"), Ok(()));
    assert_eq!(gpu.slots_of("a"), 1);
    assert_eq!(gpu.try_reserve_slot(&b), Ok(()));
    assert_eq!(gpu.slots_of("b"), 2);
    assert!(gpu.used_slots() <= 3);
}

#[test]
fn gpu_release_removes_empty_entries() {
    let cfg = Config { queue_length: 1, gpu_slots: 2, per_tenant_limit: 1 };
    let mut gpu = GpuManager::new(&cfg);
    assert_eq!(gpu.release_slot("a"), Err(GpuError::TenantHasNoSlots));
    assert_eq!(gpu.try_reserve_slot(&tenant("a", 1)), Ok(()));
    assert_eq!(gpu.release_slot("a"), Ok(()));
    assert_eq!(gpu.slots_of("a"), 0);
    assert_eq!(gpu.used_slots(), 0);
    assert_eq!(gpu.release_slot("a"), Err(GpuError::TenantHasNoSlots));
}

#[test]
fn usage_window_drops_old_stamps() {
    let mut usage = UsageTracker::new();
    let id = "t".to_string();
    assert!(usage.try_admit(&id, 2, T0));
    assert!(usage.try_admit(&id, 2, T0 + 30 * SECOND));
    assert!(!usage.try_admit(&id, 2, T0 + 60 * SECOND));
    assert_eq!(usage.history_of(&id), vec![T0, T0 + 30 * SECOND]);
    assert!(usage.try_admit(&id, 2, T0 + 60 * SECOND + 1));
    assert_eq!(usage.history_of(&id), vec![T0 + 30 * SECOND, T0 + 60 * SECOND + 1]);
    let h = usage.history_of(&id);
    assert!(h.len() <= 2);
    assert!(h.iter().all(|t| T0 + 60 * SECOND + 1 - t <= WINDOW_NANOS));
    assert_eq!(WINDOW_NANOS, 60 * SECOND);
}

#[test]
fn usage_unlimited_records_nothing() {
    let mut usage = UsageTracker::new();
    let id = "t".to_string();
    for k in 0..5 {
        assert!(usage.try_admit(&id, 0, T0 + k));
    }
    assert!(usage.history_of(&id).is_empty());
}

#[test]
fn usage_rollback_restores_previous_log() {
    let mut usage = UsageTracker::new();
    let id = "t".to_string();
    assert!(usage.try_admit(&id, 5, T0));
    let before = usage.history_of(&id);
    assert!(usage.try_admit(&id, 5, T0 + SECOND));
    usage.rollback(&id);
    assert_eq!(usage.history_of(&id), before);
    let other = "u".to_string();
    assert!(usage.try_admit(&other, 5, T0));
    usage.rollback(&other);
    assert!(usage.history_of(&other).is_empty());
}

fn one_job(now: i128) -> (InnerState, mpsc::Receiver<Job>) {
    let tenants = TenantRegistry::from_file(TenantFile { tenants: vec![tenant("t1", 1)] });
    let (tx, rx) = mpsc::channel::<Job>(4);
    let mut inner = InnerState::new(tx);
    let mut usage = UsageTracker::new();
    let req = SubmitJobRequest {
        tenant_id: "t1".to_string(),
        module_id: "m".to_string(),
        payload: "{\"k\":1}".to_string(),
        capabilities: vec![],
    };
    assert!(submit(&tenants, &mut usage, &mut inner, req, 1, now).is_ok());
    (inner, rx)
}

#[test]
fn terminal_record_never_changes() {
    let (mut inner, _rx) = one_job(T0);
    start_job(&mut inner.jobs, 1, T0 + SECOND);
    let err = SandboxError::ExecutionFailed("trap".to_string());
    finish_job(&mut inner.jobs, 1, Err(err), T0 + 2 * SECOND);
    let first = inner.jobs.get(1).unwrap();
    match &first.status {
        JobStatus::Failed(m) => assert_eq!(m, "Job execution failed: execution failed: trap"),
        _ => panic!("not failed"),
    }
    assert!(first.result.is_none());
    start_job(&mut inner.jobs, 1, T0 + 3 * SECOND);
    record_dispatch(&mut inner.jobs, 1, Dispatch::Reject("late".to_string()), T0 + 4 * SECOND);
    finish_job(&mut inner.jobs, 1, Ok(execution_result(1, T0, T0 + 1)), T0 + 5 * SECOND);
    let second = inner.jobs.get(1).unwrap();
    assert!(matches!(&second.status, JobStatus::Failed(m) if m == "Job execution failed: execution failed: trap"));
    assert_eq!(second.started_at, first.started_at);
    assert_eq!(second.finished_at, first.finished_at);
    assert_eq!(second.duration, first.duration);
    assert!(second.result.is_none());
}

#[test]
fn status_never_goes_back() {
    let (mut inner, _rx) = one_job(T0);
    finish_job(&mut inner.jobs, 1, Ok(execution_result(1, T0, T0 + 1)), T0 + SECOND);
    assert!(matches!(inner.jobs.get(1).unwrap().status, JobStatus::Queued));
    start_job(&mut inner.jobs, 1, T0 + SECOND);
    record_dispatch(&mut inner.jobs, 1, Dispatch::Reject("late".to_string()), T0 + 2 * SECOND);
    assert!(matches!(inner.jobs.get(1).unwrap().status, JobStatus::Running));
    start_job(&mut inner.jobs, 1, T0 + 3 * SECOND);
    assert_eq!(inner.jobs.get(1).unwrap().started_at, Some(T0 + SECOND));
}

#[test]
fn timestamps_ordered_and_duration_exact() {
    let (mut inner, _rx) = one_job(T0);
    start_job(&mut inner.jobs, 1, T0 + 2 * SECOND);
    finish_job(&mut inner.jobs, 1, Ok(execution_result(7, T0 + 2 * SECOND, T0 + 9 * SECOND)), T0 + 9 * SECOND);
    let job = inner.jobs.get(1).unwrap();
    let (s, f) = (job.started_at.unwrap(), job.finished_at.unwrap());
    assert!(f >= s && s >= job.submitted_at);
    assert_eq!(job.duration, Some(f - s));
    assert_eq!(job.result.unwrap().execution_time, 7 * SECOND);
}

#[test]
fn rejected_job_has_no_duration() {
    let (mut inner, _rx) = one_job(T0);
    record_dispatch(&mut inner.jobs, 1, Dispatch::Reject("Tenant ID not found".to_string()), T0 + SECOND);
    let job = inner.jobs.get(1).unwrap();
    assert!(matches!(&job.status, JobStatus::Failed(m) if m == "Tenant ID not found"));
    assert_eq!(job.finished_at, Some(T0 + SECOND));
    assert_eq!(job.duration, None);
}

#[test]
fn run_output_is_decimal_text() {
    assert_eq!(run_output(42), b"42".to_vec());
    assert_eq!(run_output(0), b"0".to_vec());
    assert_eq!(run_output(-123), b"-123".to_vec());
    assert_eq!(run_output(i32::MIN), i32::MIN.to_string().into_bytes());
    assert_eq!(run_output(i32::MAX), b"2147483647".to_vec());
}

#[test]
fn host_imports_follow_capabilities() {
    assert_eq!(host_imports(&strings(&[])), vec![]);
    assert_eq!(
        host_imports(&strings(&["network.egress", "logging"])),
        vec![HostImport::LogMessage, HostImport::HttpPost]
    );
    assert_eq!(
        host_imports(&strings(&["gpu.compute", "logging", "network.egress"])),
        vec![HostImport::GpuCompute, HostImport::LogMessage, HostImport::HttpPost]
    );
    assert_eq!(host_imports(&strings(&["disk.write"])), vec![]);
    assert_eq!(HostImport::GpuCompute.name(), "gpu_compute");
    assert_eq!(HostImport::LogMessage.name(), "log_message");
    assert_eq!(HostImport::HttpPost.name(), "http_post");
}

#[test]
fn stand_in_backends() {
    assert_eq!(gpu_compute(21), 42);
    assert_eq!(gpu_compute(-5), -10);
    assert_eq!(gpu_compute(i32::MAX), -2);
    assert_eq!(http_post(0, 0), 200);
}

#[test]
fn sandbox_limits_and_paths() {
    let c = SandboxConfig::default_limits();
    assert_eq!(c.max_memory_bytes, 64 * 1024 * 1024);
    assert_eq!(c.max_execution_time, 30 * SECOND);
    assert_eq!(c.module_cache_size, 10);
    assert!(c.enable_fuel);
    assert_eq!(FUEL_UNITS, 1_000_000_000);
    assert_eq!(MAX_WASM_STACK, 2 * 1024 * 1024);
    assert_eq!(module_file("echo"), "modules/echo.wasm");
}

#[test]
fn sandbox_error_reasons() {
    assert_eq!(SandboxError::Timeout.reason(), "Job execution failed: timeout");
    assert_eq!(SandboxError::OutOfMemory.reason(), "Job execution failed: out of memory");
    assert_eq!(
        SandboxError::ModuleNotFound("modules/x.wasm".to_string()).reason(),
        "Job execution failed: module not found: modules/x.wasm"
    );
    assert_eq!(
        SandboxError::ModuleLoadFailed("bad magic".to_string()).reason(),
        "Job execution failed: module load failed: bad magic"
    );
    assert_eq!(
        SandboxError::CapabilityViolation("env.http_post".to_string()).reason(),
        "Job execution failed: capability violation: env.http_post"
    );
    assert_eq!(
        SandboxError::TrapOccurred("unreachable".to_string()).reason(),
        "Job execution failed: trap occurred: unreachable"
    );
}

#[test]
fn tenant_lookup_prefers_later_record() {
    let mut late = tenant("t", 3);
    late.rate_limit = 9;
    let reg = TenantRegistry::from_file(TenantFile { tenants: vec![tenant("t", 1), late] });
    assert_eq!(reg.get(&"t".to_string()).unwrap().gpu_slot_limit, 3);
    assert!(reg.get(&"x".to_string()).is_none());
    let t = tenant("t", 1);
    assert_eq!(t.unpermitted_capabilities(&strings(&["logging", "gpu.compute"])), strings(&["gpu.compute"]));
    assert!(t.unpermitted_capabilities(&strings(&["logging"])).is_empty());
}

#[test]
fn backward_clock_is_clamped() {
    let (mut inner, _rx) = one_job(T0);
    start_job(&mut inner.jobs, 1, T0 - 5 * SECOND);
    let job = inner.jobs.get(1).unwrap();
    assert_eq!(job.started_at, Some(T0));
    finish_job(&mut inner.jobs, 1, Err(SandboxError::Timeout), T0 - SECOND);
    let job = inner.jobs.get(1).unwrap();
    assert_eq!(job.finished_at, Some(T0));
    assert_eq!(job.duration, Some(0));
    assert!(job.finished_at.unwrap() >= job.started_at.unwrap());
    assert!(job.started_at.unwrap() >= job.submitted_at);
}

#[test]
fn usage_drops_future_stamps() {
    let mut usage = UsageTracker::new();
    let id = "t".to_string();
    assert!(usage.try_admit(&id, 1, T0 + 10 * SECOND));
    assert!(usage.try_admit(&id, 1, T0));
    assert_eq!(usage.history_of(&id), vec![T0]);
}

#[test]
fn registry_snapshot_matches() {
    let reg = TenantRegistry::from_file(TenantFile { tenants: vec![tenant("a", 2), tenant("b", 3)] });
    let snap = reg.copy();
    assert_eq!(snap.get(&"b".to_string()).unwrap().gpu_slot_limit, 3);
    assert_eq!(snap.get(&"a".to_string()).unwrap().allowed_capabilities, vec!["logging".to_string()]);
}
