//! Admission, dispatch and bookkeeping core of a multi-tenant WebAssembly job
//! service: tenant policy, GPU slot accounting, sliding-window rate limiting,
//! the job registry and its lifecycle, and the sandbox's capability rules.

pub mod config;
pub mod tenant;
pub mod gpu_manager;
pub mod usage;
pub mod sandbox;
pub mod domain;
pub mod state;
pub mod api;
pub mod dispatcher;
