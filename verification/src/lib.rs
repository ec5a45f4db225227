//! An in-memory control plane for cluster orchestration: a versioned,
//! indexed resource store with optimistic concurrency and change
//! notification, a placement engine that scores execution nodes for
//! pending work units, and a reconciliation fabric that dispatches
//! resource changes to controllers with dedup, retry and backoff.

pub mod codec;
pub mod memory_store;
pub mod scheduler;
pub mod controller;
pub mod facade;
pub mod comm;
pub mod perf;
pub mod cluster;
pub mod util;

use vstd::prelude::*;

verus! {

/// Sealing key derivation methods for the trusted execution environment.
#[derive(Clone, Copy, Debug, PartialEq, Eq, Structural)]
pub enum SealingMethod {
    MrSigner,
    MrEnclave,
    Hybrid,
}

/// Memory protection levels of the enclave.
#[derive(Clone, Copy, Debug, PartialEq, Eq, Structural)]
pub enum MemoryProtection {
    Basic,
    Enhanced,
    Maximum,
}

/// Enclave-wide settings.
pub struct TEESettings {
    pub enclave_size: usize,
    pub enable_attestation: bool,
    pub sealing_method: SealingMethod,
    pub memory_protection: MemoryProtection,
}

impl Default for TEESettings {
    fn default() -> (r: Self)
        ensures
            r.enclave_size == 2147483648,
            r.enable_attestation == true,
            r.sealing_method == SealingMethod::Hybrid,
            r.memory_protection == MemoryProtection::Enhanced,
    {
        TEESettings {
            enclave_size: 2147483648,
            enable_attestation: true,
            sealing_method: SealingMethod::Hybrid,
            memory_protection: MemoryProtection::Enhanced,
        }
    }
}

/// The configuration of a whole control-plane node.
pub struct TEEMasterConfig {
    pub api_server: facade::ApiServerConfig,
    pub scheduler: scheduler::SchedulerConfig,
    pub controller_manager: controller::ControllerConfig,
    pub memory_store: memory_store::StoreConfig,
    pub communication: comm::CommunicationConfig,
    pub tee_settings: TEESettings,
}

impl Default for TEEMasterConfig {
    fn default() -> (r: Self)
        ensures
            r.memory_store.compression_threshold == 1024,
            r.scheduler.target_utilization_pm == 700,
            r.controller_manager.max_retries == 3,
            r.tee_settings.sealing_method == SealingMethod::Hybrid,
    {
        TEEMasterConfig {
            api_server: facade::ApiServerConfig::default(),
            scheduler: scheduler::SchedulerConfig::default(),
            controller_manager: controller::ControllerConfig::default(),
            memory_store: memory_store::StoreConfig::default(),
            communication: comm::CommunicationConfig::default(),
            tee_settings: TEESettings::default(),
        }
    }
}

/// One health sweep over the core components.
pub struct HealthStatus {
    pub overall_healthy: bool,
    pub api_server: bool,
    pub scheduler: bool,
    pub controller_manager: bool,
    pub memory_store: bool,
    /// Clock reading of the sweep, microseconds.
    pub last_check: u64,
}

impl HealthStatus {
    /// Combine the component verdicts; the whole is healthy exactly when
    /// every part is.
    pub fn combine(api: bool, sched: bool, ctrl: bool, store: bool, now: u64) -> (r: Self)
        ensures
            r.overall_healthy == (api && sched && ctrl && store),
            r.api_server == api,
            r.scheduler == sched,
            r.controller_manager == ctrl,
            r.memory_store == store,
            r.last_check == now,
    {
        HealthStatus {
            overall_healthy: api && sched && ctrl && store,
            api_server: api,
            scheduler: sched,
            controller_manager: ctrl,
            memory_store: store,
            last_check: now,
        }
    }
}

} // verus!
