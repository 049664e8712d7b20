use vstd::prelude::*;

verus! {

/// Fuel granted to one execution.
pub const FUEL_UNITS: u64 = 1_000_000_000;

/// Largest WebAssembly stack an execution may use, in bytes.
pub const MAX_WASM_STACK: usize = 2 * 1024 * 1024;

/// Limits applied to every execution.
#[derive(Clone, Copy, Debug, PartialEq, Eq, Structural)]
pub struct SandboxConfig {
    pub max_memory_bytes: usize,
    /// Wall-clock budget, in nanoseconds.
    pub max_execution_time: i128,
    pub module_cache_size: usize,
    pub enable_fuel: bool,
}

impl SandboxConfig {
    /// 64 MiB of memory, 30 seconds, a cache of 10 modules, fuel metering on.
    pub fn default_limits() -> (r: SandboxConfig)
        ensures
            r.max_memory_bytes == 64 * 1024 * 1024,
            r.max_execution_time == 30_000_000_000,
            r.module_cache_size == 10,
            r.enable_fuel,
    {
        SandboxConfig {
            max_memory_bytes: 64 * 1024 * 1024,
            max_execution_time: 30_000_000_000,
            module_cache_size: 10,
            enable_fuel: true,
        }
    }
}

/// What a successful run produced.
pub struct ExecutionResult {
    pub output: Vec<u8>,
    /// Wall-clock time of the run, in nanoseconds.
    pub execution_time: i128,
    pub memory_used: usize,
}

pub struct ResultView {
    pub output: Seq<u8>,
    pub execution_time: i128,
    pub memory_used: usize,
}

impl View for ExecutionResult {
    type V = ResultView;

    open spec fn view(&self) -> ResultView {
        ResultView {
            output: self.output@,
            execution_time: self.execution_time,
            memory_used: self.memory_used,
        }
    }
}

fn copy_bytes(s: &Vec<u8>) -> (r: Vec<u8>)
    ensures
        r@ == s@,
{
    let mut r: Vec<u8> = Vec::new();
    let mut i: usize = 0;
    while i < s.len()
        invariant
            0 <= i <= s@.len(),
            r@ == s@.subrange(0, i as int),
        decreases s@.len() - i,
    {
        r.push(s[i]);
        i = i + 1;
        assert(r@ =~= s@.subrange(0, i as int));
    }
    assert(s@.subrange(0, s@.len() as int) =~= s@);
    r
}

impl ExecutionResult {
    pub fn copy(&self) -> (r: ExecutionResult)
        ensures
            r@ == self@,
    {
        ExecutionResult {
            output: copy_bytes(&self.output),
            execution_time: self.execution_time,
            memory_used: self.memory_used,
        }
    }
}

/// ASCII decimal digits of `n`.
pub open spec fn decimal_digits(n: nat) -> Seq<u8>
    decreases n,
{
    if n < 10 {
        seq![(48 + n) as u8]
    } else {
        decimal_digits(n / 10).push((48 + n % 10) as u8)
    }
}

/// ASCII decimal text of `v`, with a leading `-` when negative.
pub open spec fn decimal_text(v: int) -> Seq<u8> {
    if v < 0 {
        seq![45u8] + decimal_digits((-v) as nat)
    } else {
        decimal_digits(v as nat)
    }
}

fn push_digits(out: &mut Vec<u8>, n: u64)
    ensures
        final(out)@ == old(out)@ + decimal_digits(n as nat),
    decreases n,
{
    if n >= 10 {
        push_digits(out, n / 10);
    }
    out.push((48 + n % 10) as u8);
    assert(out@ =~= old(out)@ + decimal_digits(n as nat));
}

/// The bytes that a run returning `value` outputs: its decimal text.
pub fn run_output(value: i32) -> (r: Vec<u8>)
    ensures
        r@ == decimal_text(value as int),
{
    let mut out: Vec<u8> = Vec::new();
    if value < 0 {
        out.push(45u8);
        let magnitude: u64 = (0i64 - value as i64) as u64;
        push_digits(&mut out, magnitude);
    } else {
        push_digits(&mut out, value as u64);
        assert(out@ =~= decimal_digits(value as nat));
    }
    out
}

/// The result of a run that returned `value`, started at `started` and ended
/// at `ended` (Unix nanoseconds).
pub fn execution_result(value: i32, started: i128, ended: i128) -> (r: ExecutionResult)
    requires
        crate::usage::is_time(started as int),
        crate::usage::is_time(ended as int),
    ensures
        r.output@ == decimal_text(value as int),
        r.execution_time == ended - started,
        r.memory_used == 0,
{
    ExecutionResult { output: run_output(value), execution_time: ended - started, memory_used: 0 }
}

/// A host function that a module may import from `env`.
#[derive(Clone, Copy, Debug, PartialEq, Eq, Structural)]
pub enum HostImport {
    /// `gpu_compute(operation: i32) -> i32`, for `gpu.compute`.
    GpuCompute,
    /// `log_message(ptr: i32, len: i32)`, for `logging`.
    LogMessage,
    /// `http_post(url_ptr: i32, data_ptr: i32) -> i32`, for `network.egress`.
    HttpPost,
}

/// The host functions that the capabilities `caps` unlock, in the order
/// gpu_compute, log_message, http_post.
pub open spec fn imports_for(caps: Seq<Seq<char>>) -> Seq<HostImport> {
    let g = if caps.contains("gpu.compute"@) {
        seq![HostImport::GpuCompute]
    } else {
        Seq::empty()
    };
    let l = if caps.contains("logging"@) {
        seq![HostImport::LogMessage]
    } else {
        Seq::empty()
    };
    let h = if caps.contains("network.egress"@) {
        seq![HostImport::HttpPost]
    } else {
        Seq::empty()
    };
    g + l + h
}

/// The host functions to link for a job that requested `caps`.
pub fn host_imports(caps: &Vec<String>) -> (r: Vec<HostImport>)
    ensures
        r@ == imports_for(crate::tenant::strings_view(caps@)),
{
    let mut r: Vec<HostImport> = Vec::new();
    let gpu = String::from_str("gpu.compute");
    let log = String::from_str("logging");
    let net = String::from_str("network.egress");
    let has_gpu = crate::tenant::contains_string(caps, &gpu);
    let has_log = crate::tenant::contains_string(caps, &log);
    let has_net = crate::tenant::contains_string(caps, &net);
    if has_gpu {
        r.push(HostImport::GpuCompute);
    }
    if has_log {
        r.push(HostImport::LogMessage);
    }
    if has_net {
        r.push(HostImport::HttpPost);
    }
    assert(r@ =~= imports_for(crate::tenant::strings_view(caps@)));
    r
}

impl HostImport {
    /// The import's name in the `env` module.
    pub fn name(&self) -> (r: String)
        ensures
            r@ == match self {
                HostImport::GpuCompute => "gpu_compute"@,
                HostImport::LogMessage => "log_message"@,
                HostImport::HttpPost => "http_post"@,
            },
    {
        match self {
            HostImport::GpuCompute => String::from_str("gpu_compute"),
            HostImport::LogMessage => String::from_str("log_message"),
            HostImport::HttpPost => String::from_str("http_post"),
        }
    }
}

/// The stand-in GPU backend: twice the operation, wrapping on overflow.
pub fn gpu_compute(operation: i32) -> (r: i32)
    ensures
        r as int == (if -0x8000_0000 <= 2 * operation <= 0x7fff_ffff {
            2 * operation
        } else if operation > 0 {
            2 * operation - 0x1_0000_0000
        } else {
            2 * operation + 0x1_0000_0000
        }),
{
    operation.wrapping_mul(2)
}

/// The stand-in network backend: every post answers HTTP 200.
pub fn http_post(url_ptr: i32, data_ptr: i32) -> (r: i32)
    ensures
        r == 200,
{
    200
}

/// Path of the module file for `module_id`, relative to the working directory.
pub fn module_file(module_id: &str) -> (r: String)
    ensures
        r@ == "modules/"@ + module_id@ + ".wasm"@,
{
    let mut p = String::from_str("modules/");
    p.append(module_id);
    p.append(".wasm");
    p
}

/// Why an execution failed.
pub enum SandboxError {
    ModuleNotFound(String),
    ModuleLoadFailed(String),
    ExecutionFailed(String),
    Timeout,
    OutOfMemory,
    CapabilityViolation(String),
    TrapOccurred(String),
}

impl SandboxError {
    /// The failure reason recorded on the job.
    pub open spec fn reason_view(&self) -> Seq<char> {
        match self {
            SandboxError::ModuleNotFound(m) => "Job execution failed: module not found: "@ + m@,
            SandboxError::ModuleLoadFailed(m) => "Job execution failed: module load failed: "@
                + m@,
            SandboxError::ExecutionFailed(m) => "Job execution failed: execution failed: "@ + m@,
            SandboxError::Timeout => "Job execution failed: timeout"@,
            SandboxError::OutOfMemory => "Job execution failed: out of memory"@,
            SandboxError::CapabilityViolation(m) =>
                "Job execution failed: capability violation: "@ + m@,
            SandboxError::TrapOccurred(m) => "Job execution failed: trap occurred: "@ + m@,
        }
    }

    pub fn reason(&self) -> (r: String)
        ensures
            r@ == self.reason_view(),
    {
        match self {
            SandboxError::ModuleNotFound(m) => String::from_str(
                "Job execution failed: module not found: ",
            ).concat(m.as_str()),
            SandboxError::ModuleLoadFailed(m) => String::from_str(
                "Job execution failed: module load failed: ",
            ).concat(m.as_str()),
            SandboxError::ExecutionFailed(m) => String::from_str(
                "Job execution failed: execution failed: ",
            ).concat(m.as_str()),
            SandboxError::Timeout => String::from_str("Job execution failed: timeout"),
            SandboxError::OutOfMemory => String::from_str("Job execution failed: out of memory"),
            SandboxError::CapabilityViolation(m) => String::from_str(
                "Job execution failed: capability violation: ",
            ).concat(m.as_str()),
            SandboxError::TrapOccurred(m) => String::from_str(
                "Job execution failed: trap occurred: ",
            ).concat(m.as_str()),
        }
    }
}

} // verus!
