//! Cache-layer and memory-management data shapes the performance
//! subsystem exposes to its collaborators: cache metadata and statistics,
//! query descriptions, prefetch requests, allocation and garbage
//! collection hints, and the tuning knobs for each.

use vstd::prelude::*;

verus! {

/// Bookkeeping each cache entry carries. Durations and instants are
/// microseconds.
pub struct CacheMetadata {
    pub created_at: u64,
    pub last_accessed: u64,
    pub access_count: u64,
    pub size: usize,
    pub ttl: Option<u64>,
    pub tags: Vec<String>,
    pub priority: CachePriority,
}

/// The tiers of the cache hierarchy.
#[derive(Clone, Copy, Debug, PartialEq, Eq, Structural)]
pub enum CacheLevel {
    L1,
    L2,
    L3,
}

/// Entry priorities, weakest first.
#[derive(Clone, Copy, Debug, PartialEq, Eq, Structural)]
pub enum CachePriority {
    Low,
    Normal,
    High,
    Critical,
}

/// The codecs the cache layers may apply.
#[derive(Clone, Copy, Debug, PartialEq, Eq, Structural)]
pub enum CompressionAlgorithm {
    Uncompressed,
    Lz4,
    Zstd,
    Snappy,
}

/// What identifies a cached query result.
pub struct QueryKey {
    pub resource_type: String,
    pub operation: String,
    pub filters: Vec<(String, String)>,
    pub sort_order: Option<String>,
    pub limit: Option<usize>,
}

/// A recurring query shape and how it has behaved.
pub struct QueryPattern {
    pub pattern: String,
    pub frequency: u64,
    pub avg_execution_time: u64,
    pub optimization_hints: Vec<OptimizationHint>,
}

/// Hints the optimizer can attach to a query shape.
pub enum OptimizationHint {
    UseIndex(String),
    PrecomputeResult,
    CacheForDuration(u64),
    Prefetch,
    BatchProcess,
}

/// Owner-to-owned projections kept warm for list expansion.
pub struct RelationshipCache {
    pub owner_to_owned: Vec<(String, Vec<String>)>,
    pub owned_to_owner: Vec<(String, String)>,
}

impl RelationshipCache {
    pub fn new() -> (r: Self)
        ensures
            r.owner_to_owned@.len() == 0,
            r.owned_to_owner@.len() == 0,
    {
        RelationshipCache { owner_to_owned: Vec::new(), owned_to_owner: Vec::new() }
    }
}

/// Pre-evaluated label selections.
pub struct LabelSelectorCache {
    pub selections: Vec<(String, Vec<String>)>,
}

/// One health probe's result.
pub struct HealthCheckResult {
    pub component: String,
    pub healthy: bool,
    pub latency_us: u64,
    pub message: String,
}

/// How a metric window is folded.
#[derive(Clone, Copy, Debug, PartialEq, Eq, Structural)]
pub enum AggregationType {
    Sum,
    Average,
    Maximum,
    Minimum,
    Count,
}

/// Hit and miss counters across the cache hierarchy.
#[derive(Clone, Copy, Debug, PartialEq, Eq, Structural)]
pub struct CacheStats {
    pub l1_hits: u64,
    pub l1_misses: u64,
    pub l2_hits: u64,
    pub l2_misses: u64,
    pub l3_hits: u64,
    pub l3_misses: u64,
    pub query_cache_hits: u64,
    pub query_cache_misses: u64,
    pub evictions: u64,
    pub invalidations: u64,
    pub total_memory_used: usize,
}

impl CacheStats {
    pub fn new() -> (r: Self)
        ensures
            r.l1_hits == 0,
            r.total_memory_used == 0,
    {
        CacheStats {
            l1_hits: 0,
            l1_misses: 0,
            l2_hits: 0,
            l2_misses: 0,
            l3_hits: 0,
            l3_misses: 0,
            query_cache_hits: 0,
            query_cache_misses: 0,
            evictions: 0,
            invalidations: 0,
            total_memory_used: 0,
        }
    }

    /// Hits across all tiers.
    pub fn total_hits(&self) -> (r: u64)
        ensures
            r as int == crate::memory_store::sat_add_u64_3(
                self.l1_hits as int,
                self.l2_hits as int,
                self.l3_hits as int,
            ),
    {
        let wide: u128 = (self.l1_hits as u128) + (self.l2_hits as u128) + (self.l3_hits as u128);
        if wide > (u64::MAX as u128) {
            u64::MAX
        } else {
            wide as u64
        }
    }
}

/// Prefetch priorities, weakest first.
#[derive(Clone, Copy, Debug, PartialEq, Eq, Structural)]
pub enum PrefetchPriority {
    Low,
    Normal,
    High,
    Urgent,
}

/// One prefetch the engine asks for.
pub struct PrefetchRequest {
    pub resource_key: String,
    pub resource_type: String,
    pub priority: PrefetchPriority,
    pub deadline: Option<u64>,
    pub context: String,
}

/// The shapes of prediction model the prefetch engine can run.
#[derive(Clone, Copy, Debug, PartialEq, Eq, Structural)]
pub enum ModelType {
    Markov,
    ExponentialSmoothing,
    SeasonalDecomposition,
}

/// The steps of an execution plan.
#[derive(Clone, Copy, Debug, PartialEq, Eq, Structural)]
pub enum StepType {
    Scan,
    Filter,
    Sort,
    Aggregate,
    Join,
    Cache,
    Prefetch,
}

/// How a query's result should be cached.
pub enum CacheStrategy {
    NoCache,
    CacheResult(u64),
    CacheIntermediate,
    Prefetch,
}

/// The index shapes the optimizer can recommend.
#[derive(Clone, Copy, Debug, PartialEq, Eq, Structural)]
pub enum IndexType {
    BTree,
    Hash,
    Composite,
    Partial,
}

/// One fixed-size allocation pool.
pub struct MemoryPool {
    pub block_size: usize,
    pub total_blocks: usize,
    pub free_blocks: usize,
    pub strategy: AllocationStrategy,
}

/// Allocation strategies for the pools.
#[derive(Clone, Copy, Debug, PartialEq, Eq, Structural)]
pub enum AllocationStrategy {
    FirstFit,
    BestFit,
    BuddySystem,
    Slab,
}

/// One hint to the collector.
pub struct GCHint {
    pub object_type: String,
    pub suggested_action: GCAction,
    pub urgency: GCUrgency,
    pub estimated_benefit: usize,
}

/// What the collector is asked to do.
#[derive(Clone, Copy, Debug, PartialEq, Eq, Structural)]
pub enum GCAction {
    Compact,
    Evict,
    Compress,
    Archive,
}

/// Collection urgency, weakest first.
#[derive(Clone, Copy, Debug, PartialEq, Eq, Structural)]
pub enum GCUrgency {
    Low,
    Normal,
    High,
    Critical,
}

/// The memory-pressure bands the monitor reports.
#[derive(Clone, Copy, Debug, PartialEq, Eq, Structural)]
pub enum MemoryPressure {
    Idle,
    Low,
    Medium,
    High,
    Critical,
}

/// The alerts the performance monitor can raise.
#[derive(Clone, Copy, Debug, PartialEq, Eq, Structural)]
pub enum AlertType {
    ResponseTimeExceeded,
    CacheHitRatioLow,
    MemoryUsageHigh,
    CpuUsageHigh,
    PrefetchAccuracyLow,
    IndexRecommendation,
}

/// Alert severities, weakest first.
#[derive(Clone, Copy, Debug, PartialEq, Eq, Structural)]
pub enum AlertSeverity {
    Debug,
    Info,
    Warning,
    Critical,
}

/// Cache tier sizes and entry policy. Durations are microseconds.
pub struct CacheConfig {
    pub l1_size: usize,
    pub l2_size: usize,
    pub l3_size: usize,
    pub default_ttl: u64,
    pub enable_compression: bool,
    pub compression_threshold: usize,
    pub max_entry_size: usize,
}

impl Default for CacheConfig {
    fn default() -> (r: Self)
        ensures
            r.l1_size == 1000,
            r.l2_size == 10000,
            r.l3_size == 100000,
            r.default_ttl == 300000000,
            r.enable_compression == true,
            r.compression_threshold == 1024,
            r.max_entry_size == 10485760,
    {
        CacheConfig {
            l1_size: 1000,
            l2_size: 10000,
            l3_size: 100000,
            default_ttl: 300000000,
            enable_compression: true,
            compression_threshold: 1024,
            max_entry_size: 10485760,
        }
    }
}

/// Memory manager knobs. Durations are microseconds.
pub struct MemoryConfig {
    pub enable_memory_pools: bool,
    pub gc_interval: u64,
    pub pressure_check_interval: u64,
    pub compression_enabled: bool,
    pub max_memory_usage: usize,
}

impl Default for MemoryConfig {
    fn default() -> (r: Self)
        ensures
            r.enable_memory_pools == true,
            r.gc_interval == 60000000,
            r.pressure_check_interval == 10000000,
            r.compression_enabled == true,
            r.max_memory_usage == 2000000000,
    {
        MemoryConfig {
            enable_memory_pools: true,
            gc_interval: 60000000,
            pressure_check_interval: 10000000,
            compression_enabled: true,
            max_memory_usage: 2000000000,
        }
    }
}

/// Monitor knobs. Durations are microseconds.
pub struct MonitoringConfig {
    pub metrics_collection_interval: u64,
    pub history_retention: u64,
    pub enable_alerts: bool,
    pub alert_cooldown: u64,
}

impl Default for MonitoringConfig {
    fn default() -> (r: Self)
        ensures
            r.metrics_collection_interval == 1000000,
            r.enable_alerts == true,
    {
        MonitoringConfig {
            metrics_collection_interval: 1000000,
            history_retention: 3600000000,
            enable_alerts: true,
            alert_cooldown: 60000000,
        }
    }
}

} // verus!
