use vstd::prelude::*;

verus! {

/// Global limits, fixed at startup.
pub struct Config {
    /// Capacity of the hand-off queue between admission and dispatch.
    pub queue_length: usize,
    /// Number of GPU slots shared by all tenants.
    pub gpu_slots: usize,
    /// Default per-tenant slot cap.
    pub per_tenant_limit: usize,
}

} // verus!
