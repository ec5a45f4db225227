//! The reconciliation fabric: a priority-ordered, deduplicated event
//! pipeline that dispatches resource changes to per-kind controllers with
//! bounded retry, requeue with exponential backoff, and at most one active
//! reconciliation per resource key.
//!
//! The fabric here is the decision core: queueing, deduplication, lease
//! accounting, outcome handling and backoff are all pure functions of the
//! state and the clock reading handed in; the surrounding process drives
//! workers and performs the waits the decisions call for.

use crate::memory_store::{bump, bump64, moving_avg};
use crate::util::str_eq;
use vstd::prelude::*;
use vstd::string::StringExecFns;

verus! {

/// Errors a controller can report.
pub enum ControllerError {
    ResourceNotFound(String),
    InvalidState(String),
    DependencyNotMet(String),
    ResourceConflict(String),
    InternalError(String),
}

/// A controller's health, as its own predicate reports it.
pub struct ControllerHealth {
    pub healthy: bool,
    /// Clock reading of the last success, microseconds.
    pub last_success: Option<u64>,
    pub error_count: u64,
    pub message: String,
}

/// Per-controller counters.
pub struct ControllerStats {
    pub events_processed: u64,
    pub successful_reconciliations: u64,
    pub failed_reconciliations: u64,
    pub avg_reconciliation_time: u64,
    pub peak_reconciliation_time: u64,
    pub queue_depth: u64,
}

impl Default for ControllerStats {
    fn default() -> (r: Self)
        ensures
            r.events_processed == 0,
            r.successful_reconciliations == 0,
            r.failed_reconciliations == 0,
            r.avg_reconciliation_time == 0,
            r.peak_reconciliation_time == 0,
            r.queue_depth == 0,
    {
        ControllerStats {
            events_processed: 0,
            successful_reconciliations: 0,
            failed_reconciliations: 0,
            avg_reconciliation_time: 0,
            peak_reconciliation_time: 0,
            queue_depth: 0,
        }
    }
}

/// What kind of change an event reports.
#[derive(Clone, Copy, Debug, PartialEq, Eq, Structural)]
pub enum EventType {
    Create,
    Update,
    Delete,
    StatusUpdate,
    PeriodicSync,
}

/// Event priority bands, weakest first.
#[derive(Clone, Copy, Debug, PartialEq, Eq, Structural)]
pub enum EventPriority {
    Low,
    Normal,
    High,
    Critical,
}

/// One unit of reconciliation work.
pub struct ReconciliationEvent {
    pub resource_type: String,
    pub resource_key: String,
    pub event_type: EventType,
    pub data: Vec<u8>,
    pub priority: EventPriority,
    /// Clock reading when the event was formed, microseconds.
    pub timestamp: u64,
    pub retry_count: u32,
}

/// The outcomes a controller's reconcile can return.
pub enum ReconciliationResult {
    Success,
    Requeue { after_us: u64 },
    Retry { reason: String },
    Failed { error: String },
    Skipped { reason: String },
}

/// Events the fabric reports to its observers.
pub enum ControllerEvent {
    ResourceCreated { resource_type: String, key: String, data: Vec<u8> },
    ResourceUpdated { resource_type: String, key: String, old_data: Vec<u8>, new_data: Vec<u8> },
    ResourceDeleted { resource_type: String, key: String, data: Vec<u8> },
    ReconciliationCompleted { controller: String, result: ReconciliationResult },
    ControllerError { controller: String, error: ControllerError },
    HealthCheck { controller: String, health: ControllerHealth },
}

/// Fabric-wide counters.
#[derive(Clone, Copy, Debug, PartialEq, Eq, Structural)]
pub struct ControllerMetrics {
    pub total_events: u64,
    pub events_per_second: u64,
    pub avg_processing_time: u64,
    pub peak_processing_time: u64,
    pub queue_depth: u64,
    pub active_reconciliations: u64,
    pub failed_reconciliations: u64,
    pub health_checks: u64,
}

impl ControllerMetrics {
    pub open spec fn zero() -> ControllerMetrics {
        ControllerMetrics {
            total_events: 0,
            events_per_second: 0,
            avg_processing_time: 0,
            peak_processing_time: 0,
            queue_depth: 0,
            active_reconciliations: 0,
            failed_reconciliations: 0,
            health_checks: 0,
        }
    }
}

/// Fabric configuration. Durations are microseconds.
pub struct ControllerConfig {
    pub worker_threads: usize,
    pub max_queue_size: usize,
    pub reconciliation_timeout: u64,
    pub health_check_interval: u64,
    pub batch_size: usize,
    pub enable_bulk_operations: bool,
    pub enable_state_diff: bool,
    pub max_retries: u32,
    /// Events for the same (kind, key) arriving within this window of one
    /// another collapse to one.
    pub dedup_window: u64,
    /// The base of the exponential retry backoff.
    pub backoff_base: u64,
    /// After this many consecutive higher-band pops, a worker checks the
    /// lower bands once.
    pub priority_quota: u32,
}

impl Default for ControllerConfig {
    fn default() -> (r: Self)
        ensures
            r.worker_threads == 4,
            r.max_queue_size == 100000,
            r.reconciliation_timeout == 30000000,
            r.health_check_interval == 30000000,
            r.batch_size == 100,
            r.enable_bulk_operations == true,
            r.enable_state_diff == true,
            r.max_retries == 3,
            r.dedup_window == 100000,
            r.backoff_base == 100000,
            r.priority_quota == 64,
    {
        ControllerConfig {
            worker_threads: 4,
            max_queue_size: 100000,
            reconciliation_timeout: 30000000,
            health_check_interval: 30000000,
            batch_size: 100,
            enable_bulk_operations: true,
            enable_state_diff: true,
            max_retries: 3,
            dedup_window: 100000,
            backoff_base: 100000,
            priority_quota: 64,
        }
    }
}

/// The four priority bands and the deduplication window state.
pub struct EventQueue {
    pub critical: Vec<ReconciliationEvent>,
    pub high: Vec<ReconciliationEvent>,
    pub normal: Vec<ReconciliationEvent>,
    pub low: Vec<ReconciliationEvent>,
    /// When an event for each (kind, key) was last enqueued.
    pub dedup_map: Vec<(String, String, u64)>,
}

/// The time the window last saw (kind, key), searching from the front.
pub open spec fn dedup_lookup(m: Seq<(String, String, u64)>, kind: Seq<char>, key: Seq<char>) -> Option<
    u64,
>
    decreases m.len(),
{
    if m.len() == 0 {
        None
    } else if m[0].0@ == kind && m[0].1@ == key {
        Some(m[0].2)
    } else {
        dedup_lookup(m.skip(1), kind, key)
    }
}

/// How many events sit in the queue, over all bands.
pub open spec fn queue_len(q: EventQueue) -> int {
    (q.critical@.len() + q.high@.len() + q.normal@.len() + q.low@.len()) as int
}

impl EventQueue {
    /// Window entries name each (kind, key) at most once.
    pub open spec fn dedup_unique(&self) -> bool {
        forall|i: int, j: int|
            0 <= i < j < self.dedup_map@.len() ==> !(self.dedup_map@[i].0@ == self.dedup_map@[j].0@
                && self.dedup_map@[i].1@ == self.dedup_map@[j].1@)
    }

    pub fn new() -> (r: Self)
        ensures
            r.critical@.len() == 0,
            r.high@.len() == 0,
            r.normal@.len() == 0,
            r.low@.len() == 0,
            r.dedup_map@.len() == 0,
            r.dedup_unique(),
    {
        EventQueue {
            critical: Vec::new(),
            high: Vec::new(),
            normal: Vec::new(),
            low: Vec::new(),
            dedup_map: Vec::new(),
        }
    }
}

/// Whether a window stamp at `t` still covers an arrival at `now`. A
/// stamp ahead of the clock counts as covering.
pub open spec fn within_window(t: u64, now: u64, window: u64) -> bool {
    if now >= t {
        now - t < window
    } else {
        true
    }
}

/// One reconciliation under way.
pub struct ActiveReconciliation {
    pub resource_key: String,
    pub controller: String,
    pub started_at: u64,
    pub retry_count: u32,
    pub last_error: Option<String>,
}

/// One finished reconciliation, as the bounded history retains it.
pub struct ReconciliationRecord {
    pub resource_key: String,
    pub controller: String,
    pub result: ReconciliationResult,
    pub duration_us: u64,
    pub timestamp: u64,
}

/// The registered controllers that watch a kind, in registration order.
pub open spec fn watching_filter(regs: Seq<(String, Vec<String>)>, kind: Seq<char>) -> Seq<
    (String, Vec<String>),
>
    decreases regs.len(),
{
    if regs.len() == 0 {
        Seq::empty()
    } else if crate::util::seq_contains_str(regs.last().1@, kind) {
        watching_filter(regs.drop_last(), kind).push(regs.last())
    } else {
        watching_filter(regs.drop_last(), kind)
    }
}

/// Whether a controller of this name is registered.
pub open spec fn registered_name(regs: Seq<(String, Vec<String>)>, name: Seq<char>) -> bool {
    exists|i: int| 0 <= i < regs.len() && regs[i].0@ == name
}

/// Whether some active reconciliation holds the key.
pub open spec fn active_holds(active: Seq<ActiveReconciliation>, key: Seq<char>) -> bool {
    exists|i: int| 0 <= i < active.len() && active[i].resource_key@ == key
}

/// The delay before retry `k`: the backoff base doubled `k` times,
/// saturating at the top of u64.
pub open spec fn backoff_delay_spec(base: u64, k: nat) -> int {
    if base * vstd::arithmetic::power2::pow2(k) > u64::MAX {
        u64::MAX as int
    } else {
        base * vstd::arithmetic::power2::pow2(k)
    }
}

/// Backoff doubles with every retry, so it never shrinks: the delay of
/// retry k+1 is at least the delay of retry k.
pub proof fn lemma_backoff_monotone(base: u64, k: nat)
    ensures
        backoff_delay_spec(base, k) <= backoff_delay_spec(base, k + 1),
{
    let p = vstd::arithmetic::power2::pow2(k);
    assert(vstd::arithmetic::power2::pow2(k + 1) == 2 * p) by {
        vstd::arithmetic::power2::lemma_pow2_unfold(k + 1);
    }
    assert(p >= 1) by {
        vstd::arithmetic::power2::lemma_pow2_pos(k);
    }
    assert(base * (2 * p) == 2 * (base * p)) by (nonlinear_arith);
    assert(base * p >= 0) by (nonlinear_arith)
        requires
            p >= 1,
    ;
}

proof fn lemma_pow2_large(k: nat)
    requires
        k >= 64,
    ensures
        vstd::arithmetic::power2::pow2(k) > u64::MAX,
    decreases k,
{
    if k == 64 {
        vstd::arithmetic::power2::lemma2_to64();
        vstd::arithmetic::power2::lemma2_to64_rest();
    } else {
        lemma_pow2_large((k - 1) as nat);
        assert(vstd::arithmetic::power2::pow2(k) == 2 * vstd::arithmetic::power2::pow2(
            (k - 1) as nat,
        )) by {
            vstd::arithmetic::power2::lemma_pow2_unfold(k);
        }
    }
}

/// The delay before retry `k`, saturating.
pub fn backoff_delay(base: u64, k: u32) -> (r: u64)
    ensures
        r == backoff_delay_spec(base, k as nat),
{
    if base == 0 {
        proof {
            assert(0int * vstd::arithmetic::power2::pow2(k as nat) == 0) by (nonlinear_arith);
        }
        return 0;
    }
    if k >= 64 {
        proof {
            lemma_pow2_large(k as nat);
            let p = vstd::arithmetic::power2::pow2(k as nat);
            assert(base * p > u64::MAX) by (nonlinear_arith)
                requires
                    base >= 1 && p > u64::MAX,
            ;
        }
        return u64::MAX;
    }
    let mut i: u32 = 0;
    let mut acc: u64 = base;
    proof {
        assert(vstd::arithmetic::power2::pow2(0) == 1) by {
            vstd::arithmetic::power2::lemma2_to64();
        }
    }
    while i < k
        invariant
            i <= k,
            k < 64,
            base >= 1,
            acc as int == backoff_delay_spec(base, i as nat),
            acc >= 1,
        decreases k - i,
    {
        proof {
            let p = vstd::arithmetic::power2::pow2(i as nat);
            assert(vstd::arithmetic::power2::pow2((i + 1) as nat) == 2 * p) by {
                vstd::arithmetic::power2::lemma_pow2_unfold((i + 1) as nat);
            }
            assert(p >= 1) by {
                vstd::arithmetic::power2::lemma_pow2_pos(i as nat);
            }
            assert(base * (2 * p) == 2 * (base * p)) by (nonlinear_arith);
            assert(base * p >= base) by (nonlinear_arith)
                requires
                    base >= 1 && p >= 1,
            ;
        }
        if acc > u64::MAX / 2 {
            acc = u64::MAX;
        } else {
            if acc == u64::MAX {
            } else {
                acc = acc * 2;
            }
        }
        i = i + 1;
    }
    acc
}

/// What an enqueue did.
#[derive(Clone, Copy, Debug, PartialEq, Eq, Structural)]
pub enum EnqueueOutcome {
    /// The event was filed in its priority band.
    Enqueued,
    /// An event for the same (kind, key) arrived within the window; this
    /// one was dropped and the window refreshed.
    Deduplicated,
    /// The queue is at its size limit.
    Overloaded,
}

/// What the fabric asks its driver to do after an outcome is handled.
pub enum OutcomeAction {
    /// Nothing further; the event's life is over.
    Done,
    /// Sleep for the delay, then enqueue the event again.
    ReinsertAfter { delay_us: u64, event: ReconciliationEvent },
}

/// What queue_event returns for a given state, event and clock reading.
pub open spec fn enqueue_outcome(
    q: EventQueue,
    cfg: ControllerConfig,
    kind: Seq<char>,
    key: Seq<char>,
    priority: EventPriority,
    now: u64,
) -> EnqueueOutcome {
    if priority != EventPriority::Critical && cfg.dedup_window > 0 && (match dedup_lookup(
        q.dedup_map@,
        kind,
        key,
    ) {
        Some(t) => within_window(t, now, cfg.dedup_window),
        None => false,
    }) {
        EnqueueOutcome::Deduplicated
    } else if queue_len(q) >= cfg.max_queue_size {
        EnqueueOutcome::Overloaded
    } else {
        EnqueueOutcome::Enqueued
    }
}

/// Deduplication: a second event for the same (kind, key) within the
/// window is dropped, whatever band it would join, unless it is critical.
pub proof fn lemma_dedup_drops(
    q: EventQueue,
    cfg: ControllerConfig,
    kind: Seq<char>,
    key: Seq<char>,
    priority: EventPriority,
    t: u64,
    now: u64,
)
    requires
        dedup_lookup(q.dedup_map@, kind, key) == Some(t),
        t <= now < t + cfg.dedup_window,
        priority != EventPriority::Critical,
    ensures
        enqueue_outcome(q, cfg, kind, key, priority, now) == EnqueueOutcome::Deduplicated,
{
}

/// The fabric's decision core.
pub struct TeeControllerManager {
    pub event_queue: EventQueue,
    /// Reconciliations under way, at most one per resource key.
    pub active: Vec<ActiveReconciliation>,
    /// Bounded history of finished reconciliations, oldest evicted.
    pub history: Vec<ReconciliationRecord>,
    /// The registered controllers: each name with the resource kinds it
    /// watches. The handlers themselves live with the driver.
    pub registered: Vec<(String, Vec<String>)>,
    pub metrics: ControllerMetrics,
    pub config: ControllerConfig,
    /// Consecutive critical- or high-band pops since a lower band was last
    /// checked.
    pub consecutive_high: u32,
}

/// How many records the reconciliation history retains.
pub open spec fn spec_history_cap() -> int {
    1000
}

impl TeeControllerManager {
    pub open spec fn wf(&self) -> bool {
        &&& (forall|i: int, j: int|
            0 <= i < j < self.active@.len() ==> self.active@[i].resource_key@
                != self.active@[j].resource_key@)
        &&& self.event_queue.dedup_unique()
        &&& self.history@.len() <= spec_history_cap()
    }

    /// Create a manager with the default configuration.
    pub fn new() -> (r: Self)
        ensures
            r.wf(),
            queue_len(r.event_queue) == 0,
            r.active@.len() == 0,
            r.history@.len() == 0,
            r.metrics == ControllerMetrics::zero(),
    {
        Self::with_config(ControllerConfig::default())
    }

    /// Create a manager with the given configuration.
    pub fn with_config(config: ControllerConfig) -> (r: Self)
        ensures
            r.wf(),
            queue_len(r.event_queue) == 0,
            r.active@.len() == 0,
            r.history@.len() == 0,
            r.metrics == ControllerMetrics::zero(),
            r.config == config,
    {
        TeeControllerManager {
            event_queue: EventQueue::new(),
            active: Vec::new(),
            history: Vec::new(),
            registered: Vec::new(),
            metrics: ControllerMetrics {
                total_events: 0,
                events_per_second: 0,
                avg_processing_time: 0,
                peak_processing_time: 0,
                queue_depth: 0,
                active_reconciliations: 0,
                failed_reconciliations: 0,
                health_checks: 0,
            },
            config,
            consecutive_high: 0,
        }
    }

    /// Record a controller under its name, with the kinds it watches.
    pub fn register_controller(&mut self, name: String, watches: Vec<String>)
        requires
            old(self).wf(),
        ensures
            final(self).wf(),
            final(self).registered@ == old(self).registered@.push((name, watches)),
            final(self).event_queue == old(self).event_queue,
            final(self).active == old(self).active,
            final(self).config == old(self).config,
    {
        self.registered.push((name, watches));
    }

    /// Forget every controller under this name.
    pub fn unregister_controller(&mut self, name: &str)
        requires
            old(self).wf(),
        ensures
            final(self).wf(),
            forall|i: int|
                0 <= i < final(self).registered@.len() ==> (#[trigger] final(self).registered@[i]).0@ != name@,
            final(self).event_queue == old(self).event_queue,
            final(self).active == old(self).active,
            final(self).config == old(self).config,
    {
        let mut kept: Vec<(String, Vec<String>)> = Vec::new();
        let mut i: usize = 0;
        while i < self.registered.len()
            invariant
                i <= self.registered@.len(),
                forall|j: int| 0 <= j < kept@.len() ==> (#[trigger] kept@[j]).0@ != name@,
            decreases self.registered@.len() - i,
        {
            if !str_eq(self.registered[i].0.as_str(), name) {
                let entry = (
                    self.registered[i].0.clone(),
                    crate::memory_store::clone_strings(&self.registered[i].1),
                );
                proof {
                    assert(entry.0@ == self.registered@[i as int].0@);
                }
                kept.push(entry);
            }
            i = i + 1;
        }
        self.registered = kept;
    }

    /// The names of the registered controllers that watch this kind, in
    /// registration order: the routing the dispatch loop follows.
    pub fn controllers_watching(&self, kind: &str) -> (r: Vec<String>)
        requires
            self.wf(),
        ensures
            r@.len() == watching_filter(self.registered@, kind@).len(),
            forall|m: int|
                0 <= m < r@.len() ==> #[trigger] r@[m]@ == watching_filter(
                    self.registered@,
                    kind@,
                )[m].0@,
    {
        let mut out: Vec<String> = Vec::new();
        let mut i: usize = 0;
        while i < self.registered.len()
            invariant
                i <= self.registered@.len(),
                out@.len() == watching_filter(self.registered@.take(i as int), kind@).len(),
                forall|m: int|
                    0 <= m < out@.len() ==> #[trigger] out@[m]@ == watching_filter(
                        self.registered@.take(i as int),
                        kind@,
                    )[m].0@,
            decreases self.registered@.len() - i,
        {
            let ghost out_pre = out@;
            let ghost f0 = watching_filter(self.registered@.take(i as int), kind@);
            let hit = crate::util::vec_contains_str(&self.registered[i].1, kind);
            if hit {
                out.push(self.registered[i].0.clone());
            }
            proof {
                let t1 = self.registered@.take(i + 1);
                assert(t1.drop_last() =~= self.registered@.take(i as int));
                assert(t1.last() == self.registered@[i as int]);
                let f1 = watching_filter(t1, kind@);
                if hit {
                    assert(f1 == f0.push(self.registered@[i as int]));
                    assert forall|m: int| 0 <= m < out@.len() implies #[trigger] out@[m]@
                        == f1[m].0@ by {
                        if m < out_pre.len() {
                            assert(out@[m] == out_pre[m]);
                            assert(f1[m] == f0[m]);
                        } else {
                            assert(f1[m] == self.registered@[i as int]);
                        }
                    }
                } else {
                    assert(f1 == f0);
                }
            }
            i = i + 1;
        }
        proof {
            assert(self.registered@.take(self.registered@.len() as int) =~= self.registered@);
        }
        out
    }

    /// File an event for processing. A non-critical event whose (kind,
    /// key) was seen within the dedup window is dropped and the window
    /// refreshed; a full queue refuses the event; otherwise it joins the
    /// back of its priority band and stamps the window.
    pub fn queue_event(&mut self, event: ReconciliationEvent, now: u64) -> (r: EnqueueOutcome)
        requires
            old(self).wf(),
        ensures
            final(self).wf(),
            final(self).config == old(self).config,
            final(self).active == old(self).active,
            final(self).history == old(self).history,
            r == enqueue_outcome(
                old(self).event_queue,
                old(self).config,
                event.resource_type@,
                event.resource_key@,
                event.priority,
                now,
            ),
            r == EnqueueOutcome::Overloaded ==> final(self).event_queue == old(self).event_queue,
            r == EnqueueOutcome::Deduplicated ==> final(self).event_queue.critical == old(self).event_queue.critical && final(self).event_queue.high == old(self).event_queue.high
                && final(self).event_queue.normal == old(self).event_queue.normal && final(self).event_queue.low == old(self).event_queue.low,
            r == EnqueueOutcome::Enqueued ==> queue_len(final(self).event_queue) == queue_len(
                old(self).event_queue,
            ) + 1 && (match event.priority {
                EventPriority::Critical => final(self).event_queue.critical@ == old(self).event_queue.critical@.push(event),
                EventPriority::High => final(self).event_queue.high@ == old(self).event_queue.high@.push(event),
                EventPriority::Normal => final(self).event_queue.normal@ == old(self).event_queue.normal@.push(event),
                EventPriority::Low => final(self).event_queue.low@ == old(self).event_queue.low@.push(event),
            }),
            r != EnqueueOutcome::Overloaded ==> dedup_lookup(
                final(self).event_queue.dedup_map@,
                event.resource_type@,
                event.resource_key@,
            ) == Some(now),
            r == EnqueueOutcome::Enqueued ==> final(self).metrics.queue_depth as int == (
            if queue_len(final(self).event_queue) > u64::MAX as int {
                u64::MAX as int
            } else {
                queue_len(final(self).event_queue)
            }),
            r != EnqueueOutcome::Enqueued ==> final(self).metrics == old(self).metrics,
    {
        let is_critical = match event.priority {
            EventPriority::Critical => true,
            _ => false,
        };
        let mut dup = false;
        if !is_critical && self.config.dedup_window > 0 {
            match Self::dedup_get(&self.event_queue.dedup_map, &event.resource_type,
                &event.resource_key) {
                Some(t) => {
                    let covered = if now >= t {
                        now - t < self.config.dedup_window
                    } else {
                        true
                    };
                    if covered {
                        dup = true;
                    }
                },
                None => {},
            }
        }
        if dup {
            Self::dedup_set(
                &mut self.event_queue.dedup_map,
                &event.resource_type,
                &event.resource_key,
                now,
            );
            return EnqueueOutcome::Deduplicated;
        }
        let depth: u128 = (self.event_queue.critical.len() as u128) + (
        self.event_queue.high.len() as u128) + (self.event_queue.normal.len() as u128) + (
        self.event_queue.low.len() as u128);
        if depth >= (self.config.max_queue_size as u128) {
            return EnqueueOutcome::Overloaded;
        }
        Self::dedup_set(
            &mut self.event_queue.dedup_map,
            &event.resource_type,
            &event.resource_key,
            now,
        );
        match event.priority {
            EventPriority::Critical => self.event_queue.critical.push(event),
            EventPriority::High => self.event_queue.high.push(event),
            EventPriority::Normal => self.event_queue.normal.push(event),
            EventPriority::Low => self.event_queue.low.push(event),
        }
        let new_depth: u128 = (self.event_queue.critical.len() as u128) + (
        self.event_queue.high.len() as u128) + (self.event_queue.normal.len() as u128) + (
        self.event_queue.low.len() as u128);
        self.metrics.queue_depth = if new_depth > (u64::MAX as u128) {
            u64::MAX
        } else {
            new_depth as u64
        };
        EnqueueOutcome::Enqueued
    }

    /// The window stamp for (kind, key), if any.
    fn dedup_get(m: &Vec<(String, String, u64)>, kind: &String, key: &String) -> (r: Option<u64>)
        ensures
            r == dedup_lookup(m@, kind@, key@),
    {
        let mut i: usize = 0;
        while i < m.len()
            invariant
                i <= m@.len(),
                forall|j: int| 0 <= j < i ==> !(m@[j].0@ == kind@ && m@[j].1@ == key@),
            decreases m@.len() - i,
        {
            if str_eq(m[i].0.as_str(), kind.as_str()) && str_eq(m[i].1.as_str(), key.as_str()) {
                proof {
                    Self::lemma_dedup_skip(m@, kind@, key@, i as int);
                    assert(m@.skip(i as int)[0] == m@[i as int]);
                }
                return Some(m[i].2);
            }
            i = i + 1;
        }
        proof {
            Self::lemma_dedup_skip(m@, kind@, key@, m@.len() as int);
        }
        None
    }

    proof fn lemma_dedup_skip(m: Seq<(String, String, u64)>, kind: Seq<char>, key: Seq<char>, i: int)
        requires
            0 <= i <= m.len(),
            forall|j: int| 0 <= j < i ==> !(m[j].0@ == kind && m[j].1@ == key),
        ensures
            dedup_lookup(m, kind, key) == dedup_lookup(m.skip(i), kind, key),
        decreases i,
    {
        if i > 0 {
            assert(m.skip(1).skip(i - 1) =~= m.skip(i));
            assert(forall|j: int| 0 <= j < i - 1 ==> m.skip(1)[j] == m[j + 1]);
            Self::lemma_dedup_skip(m.skip(1), kind, key, i - 1);
        } else {
            assert(m.skip(0) =~= m);
        }
    }

    /// Stamp the window for (kind, key) with `now`, replacing the old
    /// stamp.
    fn dedup_set(m: &mut Vec<(String, String, u64)>, kind: &String, key: &String, now: u64)
        requires
            forall|i: int, j: int|
                0 <= i < j < old(m)@.len() ==> !(old(m)@[i].0@ == old(m)@[j].0@ && old(m)@[i].1@
                    == old(m)@[j].1@),
        ensures
            forall|i: int, j: int|
                0 <= i < j < final(m)@.len() ==> !(final(m)@[i].0@ == final(m)@[j].0@ && final(m)@[i].1@ == final(m)@[j].1@),
            dedup_lookup(final(m)@, kind@, key@) == Some(now),
    {
        let ghost pre = m@;
        let mut i: usize = 0;
        let mut found: Option<usize> = None;
        while i < m.len()
            invariant
                m@ == pre,
                i <= pre.len(),
                match found {
                    Some(f) => (f as int) < i && pre[f as int].0@ == kind@ && pre[f as int].1@
                        == key@,
                    None => forall|j: int| 0 <= j < i ==> !(pre[j].0@ == kind@ && pre[j].1@ == key@),
                },
            decreases pre.len() - i,
        {
            if found.is_none() && str_eq(m[i].0.as_str(), kind.as_str()) && str_eq(
                m[i].1.as_str(),
                key.as_str(),
            ) {
                found = Some(i);
            }
            i = i + 1;
        }
        match found {
            Some(f) => {
                let _ = m.remove(f);
                proof {
                    let mid = m@;
                    assert forall|a: int, b: int| 0 <= a < b < mid.len() implies !(mid[a].0@
                        == mid[b].0@ && mid[a].1@ == mid[b].1@) by {
                        let a0 = if a < f as int { a } else { a + 1 };
                        let b0 = if b < f as int { b } else { b + 1 };
                        assert(mid[a] == pre[a0] && mid[b] == pre[b0]);
                    }
                    assert forall|a: int| 0 <= a < mid.len() implies !(mid[a].0@ == kind@
                        && mid[a].1@ == key@) by {
                        let a0 = if a < f as int { a } else { a + 1 };
                        assert(mid[a] == pre[a0]);
                        if a0 != f as int {
                            let pf = pre[f as int];
                            assert(!(pre[a0].0@ == pf.0@ && pre[a0].1@ == pf.1@));
                        }
                    }
                }
            },
            None => {},
        }
        let ghost mid = m@;
        m.push((kind.clone(), key.clone(), now));
        proof {
            let fin = m@;
            assert(fin[fin.len() - 1].0@ == kind@ && fin[fin.len() - 1].1@ == key@);
            assert forall|a: int, b: int| 0 <= a < b < fin.len() implies !(fin[a].0@ == fin[b].0@
                && fin[a].1@ == fin[b].1@) by {
                if b == fin.len() - 1 {
                    assert(fin[a] == mid[a]);
                } else {
                    assert(fin[a] == mid[a] && fin[b] == mid[b]);
                }
            }
            Self::lemma_dedup_first(fin, kind@, key@, now);
        }
    }

    proof fn lemma_dedup_first(m: Seq<(String, String, u64)>, kind: Seq<char>, key: Seq<char>, now: u64)
        requires
            m.len() > 0,
            m[m.len() - 1].0@ == kind && m[m.len() - 1].1@ == key && m[m.len() - 1].2 == now,
            forall|j: int| 0 <= j < m.len() - 1 ==> !(m[j].0@ == kind && m[j].1@ == key),
        ensures
            dedup_lookup(m, kind, key) == Some(now),
        decreases m.len(),
    {
        if m.len() == 1 {
        } else {
            assert(!(m[0].0@ == kind && m[0].1@ == key));
            assert(forall|j: int| 0 <= j < m.skip(1).len() ==> m.skip(1)[j] == m[j + 1]);
            Self::lemma_dedup_first(m.skip(1), kind, key, now);
        }
    }

    /// Hand out the next event. Bands are served strictly in priority
    /// order, except that after `priority_quota` consecutive pops from the
    /// critical or high bands a non-empty lower band is served once.
    pub fn get_next_event(&mut self) -> (r: Option<ReconciliationEvent>)
        requires
            old(self).wf(),
        ensures
            final(self).wf(),
            final(self).config == old(self).config,
            final(self).active == old(self).active,
            queue_len(old(self).event_queue) == 0 ==> r is None && final(self).event_queue == old(self).event_queue,
            // The quota rule: with the quota spent and lower work waiting,
            // a lower band is served and the quota resets.
            old(self).consecutive_high >= old(self).config.priority_quota && old(self).event_queue.normal@.len() + old(self).event_queue.low@.len() > 0 ==> final(self).consecutive_high == 0 && (if old(self).event_queue.normal@.len() > 0 {
                r == Some(old(self).event_queue.normal@[0]) && final(self).event_queue.normal@
                    == old(self).event_queue.normal@.skip(1)
            } else {
                r == Some(old(self).event_queue.low@[0]) && final(self).event_queue.low@ == old(self).event_queue.low@.skip(1)
            }),
            // Otherwise strict priority order.
            !(old(self).consecutive_high >= old(self).config.priority_quota && old(self).event_queue.normal@.len() + old(self).event_queue.low@.len() > 0) ==> (if old(self).event_queue.critical@.len() > 0 {
                r == Some(old(self).event_queue.critical@[0]) && final(self).event_queue.critical@
                    == old(self).event_queue.critical@.skip(1)
            } else if old(self).event_queue.high@.len() > 0 {
                r == Some(old(self).event_queue.high@[0]) && final(self).event_queue.high@ == old(self).event_queue.high@.skip(1)
            } else if old(self).event_queue.normal@.len() > 0 {
                r == Some(old(self).event_queue.normal@[0]) && final(self).event_queue.normal@
                    == old(self).event_queue.normal@.skip(1)
            } else if old(self).event_queue.low@.len() > 0 {
                r == Some(old(self).event_queue.low@[0]) && final(self).event_queue.low@ == old(self).event_queue.low@.skip(1)
            } else {
                r is None
            }),
    {
        let quota_spent = self.consecutive_high >= self.config.priority_quota;
        let lower_waiting = self.event_queue.normal.len() > 0 || self.event_queue.low.len() > 0;
        if quota_spent && lower_waiting {
            self.consecutive_high = 0;
            if self.event_queue.normal.len() > 0 {
                let ev = self.event_queue.normal.remove(0);
                proof {
                    assert(self.event_queue.normal@ =~= old(self).event_queue.normal@.skip(1));
                }
                return Some(ev);
            }
            let ev = self.event_queue.low.remove(0);
            proof {
                assert(self.event_queue.low@ =~= old(self).event_queue.low@.skip(1));
            }
            return Some(ev);
        }
        if self.event_queue.critical.len() > 0 {
            let ev = self.event_queue.critical.remove(0);
            proof {
                assert(self.event_queue.critical@ =~= old(self).event_queue.critical@.skip(1));
            }
            self.consecutive_high = bump_u32(self.consecutive_high);
            return Some(ev);
        }
        if self.event_queue.high.len() > 0 {
            let ev = self.event_queue.high.remove(0);
            proof {
                assert(self.event_queue.high@ =~= old(self).event_queue.high@.skip(1));
            }
            self.consecutive_high = bump_u32(self.consecutive_high);
            return Some(ev);
        }
        if self.event_queue.normal.len() > 0 {
            let ev = self.event_queue.normal.remove(0);
            proof {
                assert(self.event_queue.normal@ =~= old(self).event_queue.normal@.skip(1));
            }
            self.consecutive_high = 0;
            return Some(ev);
        }
        if self.event_queue.low.len() > 0 {
            let ev = self.event_queue.low.remove(0);
            proof {
                assert(self.event_queue.low@ =~= old(self).event_queue.low@.skip(1));
            }
            self.consecutive_high = 0;
            return Some(ev);
        }
        None
    }

    /// Take the lease on a resource key. Fails exactly when some worker
    /// already holds it, so at most one reconciliation is ever active per
    /// key.
    pub fn acquire_lease(&mut self, key: &str, controller: &str, retry_count: u32, now: u64) -> (r:
        bool)
        requires
            old(self).wf(),
        ensures
            final(self).wf(),
            final(self).config == old(self).config,
            final(self).event_queue == old(self).event_queue,
            r == !active_holds(old(self).active@, key@),
            r ==> final(self).active@.len() == old(self).active@.len() + 1 && active_holds(
                final(self).active@,
                key@,
            ) && (forall|i: int|
                0 <= i < old(self).active@.len() ==> final(self).active@[i] == old(self).active@[i]),
            !r ==> final(self).active == old(self).active,
            final(self).metrics.active_reconciliations == (if r {
                bump64(old(self).metrics.active_reconciliations)
            } else {
                old(self).metrics.active_reconciliations
            }),
    {
        let mut i: usize = 0;
        while i < self.active.len()
            invariant
                i <= self.active@.len(),
                self == old(self),
                old(self).wf(),
                forall|j: int| 0 <= j < i ==> (#[trigger] self.active@[j]).resource_key@ != key@,
            decreases self.active@.len() - i,
        {
            if str_eq(self.active[i].resource_key.as_str(), key) {
                return false;
            }
            i = i + 1;
        }
        let entry = ActiveReconciliation {
            resource_key: String::from_str(key),
            controller: String::from_str(controller),
            started_at: now,
            retry_count,
            last_error: None,
        };
        let ghost pre = self.active@;
        self.active.push(entry);
        self.metrics.active_reconciliations = bump(self.metrics.active_reconciliations);
        proof {
            let fin = self.active@;
            assert(fin[fin.len() - 1].resource_key@ == key@);
            assert forall|a: int, b: int| 0 <= a < b < fin.len() implies fin[a].resource_key@
                != fin[b].resource_key@ by {
                if b == fin.len() - 1 {
                    assert(fin[a] == pre[a]);
                    assert(pre[a].resource_key@ != key@);
                } else {
                    assert(fin[a] == pre[a] && fin[b] == pre[b]);
                }
            }
            assert(self.event_queue == old(self).event_queue);
            assert(self.history == old(self).history);
            assert(self.event_queue.dedup_unique());
            assert(self.history@.len() <= spec_history_cap());
        }
        true
    }

    /// Give the lease on a resource key back.
    pub fn release_lease(&mut self, key: &str)
        requires
            old(self).wf(),
        ensures
            final(self).wf(),
            final(self).config == old(self).config,
            final(self).event_queue == old(self).event_queue,
            !active_holds(final(self).active@, key@),
    {
        let mut kept: Vec<ActiveReconciliation> = Vec::new();
        let mut i: usize = 0;
        while i < self.active.len()
            invariant
                i <= self.active@.len(),
                self.active@ == old(self).active@,
                self.wf(),
                forall|a: int| 0 <= a < kept@.len() ==> (#[trigger] kept@[a]).resource_key@ != key@,
                forall|a: int|
                    0 <= a < kept@.len() ==> exists|b: int|
                        0 <= b < i && (#[trigger] kept@[a]).resource_key@ == (
                        #[trigger] self.active@[b]).resource_key@,
                forall|a: int, b: int|
                    0 <= a < b < kept@.len() ==> kept@[a].resource_key@ != kept@[b].resource_key@,
            decreases self.active@.len() - i,
        {
            if !str_eq(self.active[i].resource_key.as_str(), key) {
                let ghost kept_pre = kept@;
                let e = ActiveReconciliation {
                    resource_key: self.active[i].resource_key.clone(),
                    controller: self.active[i].controller.clone(),
                    started_at: self.active[i].started_at,
                    retry_count: self.active[i].retry_count,
                    last_error: match &self.active[i].last_error {
                        Some(s) => Some(s.clone()),
                        None => None,
                    },
                };
                proof {
                    assert(e.resource_key@ == self.active@[i as int].resource_key@);
                }
                kept.push(e);
                proof {
                    assert forall|a: int| 0 <= a < kept@.len() implies exists|b: int|
                        0 <= b < i + 1 && (#[trigger] kept@[a]).resource_key@ == (
                    #[trigger] self.active@[b]).resource_key@ by {
                        if a < kept_pre.len() {
                            assert(kept@[a] == kept_pre[a]);
                            let w = choose|w: int|
                                0 <= w < i && kept_pre[a].resource_key@ == (
                                #[trigger] self.active@[w]).resource_key@;
                            assert(kept@[a].resource_key@ == self.active@[w].resource_key@);
                        } else {
                            assert(kept@[a].resource_key@ == (self.active@[i as int]).resource_key@);
                        }
                    }
                    assert forall|a: int, b: int| 0 <= a < b < kept@.len() implies kept@[a].resource_key@
                        != kept@[b].resource_key@ by {
                        if b == kept@.len() - 1 {
                            assert(kept@[a] == kept_pre[a]);
                            let w = choose|w: int|
                                0 <= w < i && kept_pre[a].resource_key@ == (
                                #[trigger] self.active@[w]).resource_key@;
                            assert(self.active@[w].resource_key@ != self.active@[i as int].resource_key@);
                        } else {
                            assert(kept@[a] == kept_pre[a] && kept@[b] == kept_pre[b]);
                        }
                    }
                }
            }
            i = i + 1;
        }
        if self.metrics.active_reconciliations > 0 && kept.len() < self.active.len() {
            self.metrics.active_reconciliations = self.metrics.active_reconciliations - 1;
        }
        self.active = kept;
    }
}

impl TeeControllerManager {
    /// Fold one processing duration into the averages.
    fn update_processing_metrics(&mut self, duration_us: u64)
        ensures
            final(self).metrics.avg_processing_time == moving_avg(
                old(self).metrics.avg_processing_time,
                duration_us,
            ),
            final(self).metrics.peak_processing_time == (if duration_us > old(self).metrics.peak_processing_time {
                duration_us
            } else {
                old(self).metrics.peak_processing_time
            }),
            final(self).metrics.total_events == bump64(old(self).metrics.total_events),
            final(self).metrics.failed_reconciliations == old(self).metrics.failed_reconciliations,
            final(self).event_queue == old(self).event_queue,
            final(self).active == old(self).active,
            final(self).history == old(self).history,
            final(self).config == old(self).config,
            final(self).registered == old(self).registered,
            final(self).consecutive_high == old(self).consecutive_high,
    {
        self.metrics.total_events = bump(self.metrics.total_events);
        let wide: u128 = (self.metrics.avg_processing_time as u128) * 7 + (duration_us as u128);
        self.metrics.avg_processing_time = (wide / 8) as u64;
        if duration_us > self.metrics.peak_processing_time {
            self.metrics.peak_processing_time = duration_us;
        }
    }

    /// Append one record to the bounded history, evicting the oldest.
    fn push_history(&mut self, record: ReconciliationRecord)
        requires
            old(self).wf(),
        ensures
            final(self).wf(),
            final(self).history@.len() >= 1,
            final(self).history@.last() == record,
            final(self).event_queue == old(self).event_queue,
            final(self).active == old(self).active,
            final(self).metrics == old(self).metrics,
            final(self).config == old(self).config,
            final(self).consecutive_high == old(self).consecutive_high,
    {
        if self.history.len() >= 1000 {
            let ghost pre = self.history@;
            let _ = self.history.remove(0);
            proof {
                assert(self.history@ =~= pre.skip(1));
            }
        }
        self.history.push(record);
    }

    /// Record a finished reconciliation as a success.
    pub fn record_reconciliation_success(&mut self, event: &ReconciliationEvent, duration_us: u64, now: u64)
        requires
            old(self).wf(),
        ensures
            final(self).wf(),
            final(self).history@.len() >= 1,
            final(self).history@.last().resource_key@ == event.resource_key@,
            final(self).history@.last().result is Success,
            final(self).history@.last().duration_us == duration_us,
            final(self).metrics.failed_reconciliations == old(self).metrics.failed_reconciliations,
            final(self).event_queue == old(self).event_queue,
            final(self).active == old(self).active,
            final(self).config == old(self).config,
    {
        let record = ReconciliationRecord {
            resource_key: event.resource_key.clone(),
            controller: String::from_str("unknown"),
            result: ReconciliationResult::Success,
            duration_us,
            timestamp: now,
        };
        self.push_history(record);
    }

    /// Record a finished reconciliation as a failure.
    pub fn record_reconciliation_failure(
        &mut self,
        event: &ReconciliationEvent,
        error: String,
        duration_us: u64,
        now: u64,
    )
        requires
            old(self).wf(),
        ensures
            final(self).wf(),
            final(self).history@.len() >= 1,
            final(self).history@.last().resource_key@ == event.resource_key@,
            final(self).history@.last().result matches ReconciliationResult::Failed { error: e }
                && e == error,
            final(self).metrics.failed_reconciliations == bump64(
                old(self).metrics.failed_reconciliations,
            ),
            final(self).event_queue == old(self).event_queue,
            final(self).active == old(self).active,
            final(self).config == old(self).config,
    {
        self.metrics.failed_reconciliations = bump(self.metrics.failed_reconciliations);
        let record = ReconciliationRecord {
            resource_key: event.resource_key.clone(),
            controller: String::from_str("unknown"),
            result: ReconciliationResult::Failed { error },
            duration_us,
            timestamp: now,
        };
        self.push_history(record);
    }

    /// Apply a controller's outcome: record successes and failures, hand
    /// requeues back with their delay, and retry with exponential backoff
    /// until the retry budget is spent.
    pub fn apply_outcome(
        &mut self,
        event: ReconciliationEvent,
        outcome: Result<ReconciliationResult, ControllerError>,
        duration_us: u64,
        now: u64,
    ) -> (action: OutcomeAction)
        requires
            old(self).wf(),
        ensures
            final(self).wf(),
            final(self).config == old(self).config,
            final(self).active == old(self).active,
            final(self).event_queue == old(self).event_queue,
            match outcome {
                Ok(ReconciliationResult::Success) => action is Done && final(self).history@.len() >= 1 && final(self).history@.last().result is Success && final(self).history@.last().resource_key@ == event.resource_key@,
                Ok(ReconciliationResult::Requeue { after_us }) => action matches
                    OutcomeAction::ReinsertAfter { delay_us, event: e } && delay_us == after_us
                    && e.retry_count == event.retry_count && e.resource_key@ == event.resource_key@
                    && e.priority == event.priority,
                Ok(ReconciliationResult::Retry { .. }) => {
                    if event.retry_count < old(self).config.max_retries {
                        action matches OutcomeAction::ReinsertAfter { delay_us, event: e }
                            && e.retry_count == event.retry_count + 1 && e.resource_key@
                            == event.resource_key@ && delay_us == backoff_delay_spec(
                            old(self).config.backoff_base,
                            (event.retry_count + 1) as nat,
                        )
                    } else {
                        action is Done && final(self).metrics.failed_reconciliations == bump64(
                            old(self).metrics.failed_reconciliations,
                        )
                    }
                },
                Ok(ReconciliationResult::Failed { .. }) => action is Done && final(self).metrics.failed_reconciliations == bump64(
                    old(self).metrics.failed_reconciliations,
                ),
                Ok(ReconciliationResult::Skipped { .. }) => action is Done && *final(self) == *old(self),
                Err(_) => action is Done && final(self).metrics.failed_reconciliations == bump64(
                    old(self).metrics.failed_reconciliations,
                ),
            },
    {
        match outcome {
            Ok(ReconciliationResult::Success) => {
                self.record_reconciliation_success(&event, duration_us, now);
                OutcomeAction::Done
            },
            Ok(ReconciliationResult::Requeue { after_us }) => {
                OutcomeAction::ReinsertAfter { delay_us: after_us, event }
            },
            Ok(ReconciliationResult::Retry { reason }) => {
                if event.retry_count < self.config.max_retries {
                    let next_count = event.retry_count + 1;
                    let delay = backoff_delay(self.config.backoff_base, next_count);
                    let bumped = ReconciliationEvent {
                        resource_type: event.resource_type,
                        resource_key: event.resource_key,
                        event_type: event.event_type,
                        data: event.data,
                        priority: event.priority,
                        timestamp: event.timestamp,
                        retry_count: next_count,
                    };
                    OutcomeAction::ReinsertAfter { delay_us: delay, event: bumped }
                } else {
                    self.record_reconciliation_failure(&event, reason, duration_us, now);
                    OutcomeAction::Done
                }
            },
            Ok(ReconciliationResult::Failed { error }) => {
                self.record_reconciliation_failure(&event, error, duration_us, now);
                OutcomeAction::Done
            },
            Ok(ReconciliationResult::Skipped { reason: _ }) => OutcomeAction::Done,
            Err(_) => {
                self.record_reconciliation_failure(
                    &event,
                    String::from_str("controller error"),
                    duration_us,
                    now,
                );
                OutcomeAction::Done
            },
        }
    }

    /// Ask for a manual reconciliation of one key through a registered
    /// controller. Unknown controllers are refused.
    pub fn trigger_reconciliation(&mut self, controller_name: &str, resource_key: &str, now: u64) -> (r:
        Option<EnqueueOutcome>)
        requires
            old(self).wf(),
        ensures
            final(self).wf(),
            final(self).config == old(self).config,
            r is None ==> *final(self) == *old(self) && !registered_name(
                old(self).registered@,
                controller_name@,
            ),
            r is Some ==> registered_name(old(self).registered@, controller_name@),
    {
        let mut found = false;
        let mut i: usize = 0;
        while i < self.registered.len()
            invariant
                i <= self.registered@.len(),
                self == old(self),
                old(self).wf(),
                found <==> exists|j: int|
                    0 <= j < i && (#[trigger] self.registered@[j]).0@ == controller_name@,
            decreases self.registered@.len() - i,
        {
            if str_eq(self.registered[i].0.as_str(), controller_name) {
                found = true;
            }
            i = i + 1;
        }
        if !found {
            return None;
        }
        let event = ReconciliationEvent {
            resource_type: String::from_str("manual"),
            resource_key: String::from_str(resource_key),
            event_type: EventType::PeriodicSync,
            data: Vec::new(),
            priority: EventPriority::High,
            timestamp: now,
            retry_count: 0,
        };
        Some(self.queue_event(event, now))
    }

    /// A copy of the current metrics.
    pub fn get_metrics(&self) -> (r: ControllerMetrics)
        ensures
            r == self.metrics,
    {
        self.metrics
    }
}

/// At most one reconciliation is active per resource key: no two active
/// entries name the same key.
pub proof fn lemma_at_most_one_active(m: TeeControllerManager, i: int, j: int)
    requires
        m.wf(),
        0 <= i < j < m.active@.len(),
    ensures
        m.active@[i].resource_key@ != m.active@[j].resource_key@,
{
}

/// The interface a controller implements: a stable name, the kinds it
/// watches, the reconcile step, and its health and counters.
pub trait Controller {
    fn name(&self) -> String;

    fn watches(&self) -> Vec<String>;

    fn reconcile(&self, event: ReconciliationEvent) -> Result<ReconciliationResult, ControllerError>;

    fn health_check(&self) -> ControllerHealth;

    fn metrics(&self) -> ControllerStats;
}

/// Keeps the replica sets of the cluster at their declared sizes.
pub struct ReplicaSetController {
    pub stats: ControllerStats,
}

impl ReplicaSetController {
    pub fn new() -> (r: Self)
        ensures
            r.stats.events_processed == 0,
    {
        ReplicaSetController { stats: ControllerStats::default() }
    }
}

impl Controller for ReplicaSetController {
    fn name(&self) -> String {
        String::from_str("replicaset-controller")
    }

    fn watches(&self) -> Vec<String> {
        let mut w: Vec<String> = Vec::new();
        w.push(String::from_str("replicasets"));
        w.push(String::from_str("pods"));
        w
    }

    fn reconcile(&self, event: ReconciliationEvent) -> (r: Result<
        ReconciliationResult,
        ControllerError,
    >)
        ensures
            event.event_type == EventType::Create || event.event_type == EventType::Update
                || event.event_type == EventType::Delete ==> r matches Ok(
                ReconciliationResult::Success,
            ),
            !(event.event_type == EventType::Create || event.event_type == EventType::Update
                || event.event_type == EventType::Delete) ==> (r matches Ok(
                ReconciliationResult::Skipped { reason },
            ) && reason@ == "Event type not handled"@),
    {
        match event.event_type {
            EventType::Create => Ok(ReconciliationResult::Success),
            EventType::Update => Ok(ReconciliationResult::Success),
            EventType::Delete => Ok(ReconciliationResult::Success),
            _ => Ok(
                ReconciliationResult::Skipped {
                    reason: String::from_str("Event type not handled"),
                },
            ),
        }
    }

    fn health_check(&self) -> ControllerHealth {
        ControllerHealth {
            healthy: true,
            last_success: None,
            error_count: 0,
            message: String::from_str("replicaset controller healthy"),
        }
    }

    fn metrics(&self) -> ControllerStats {
        ControllerStats {
            events_processed: self.stats.events_processed,
            successful_reconciliations: self.stats.successful_reconciliations,
            failed_reconciliations: self.stats.failed_reconciliations,
            avg_reconciliation_time: self.stats.avg_reconciliation_time,
            peak_reconciliation_time: self.stats.peak_reconciliation_time,
            queue_depth: self.stats.queue_depth,
        }
    }
}

/// Rolls deployments forward by managing their replica sets.
pub struct DeploymentController {
    pub stats: ControllerStats,
}

impl DeploymentController {
    pub fn new() -> (r: Self)
        ensures
            r.stats.events_processed == 0,
    {
        DeploymentController { stats: ControllerStats::default() }
    }
}

impl Controller for DeploymentController {
    fn name(&self) -> String {
        String::from_str("deployment-controller")
    }

    fn watches(&self) -> Vec<String> {
        let mut w: Vec<String> = Vec::new();
        w.push(String::from_str("deployments"));
        w.push(String::from_str("replicasets"));
        w
    }

    fn reconcile(&self, event: ReconciliationEvent) -> (r: Result<
        ReconciliationResult,
        ControllerError,
    >)
        ensures
            event.event_type == EventType::Create || event.event_type == EventType::Update
                || event.event_type == EventType::Delete ==> r matches Ok(
                ReconciliationResult::Success,
            ),
            !(event.event_type == EventType::Create || event.event_type == EventType::Update
                || event.event_type == EventType::Delete) ==> (r matches Ok(
                ReconciliationResult::Skipped { reason },
            ) && reason@ == "Event type not handled"@),
    {
        match event.event_type {
            EventType::Create => Ok(ReconciliationResult::Success),
            EventType::Update => Ok(ReconciliationResult::Success),
            EventType::Delete => Ok(ReconciliationResult::Success),
            _ => Ok(
                ReconciliationResult::Skipped {
                    reason: String::from_str("Event type not handled"),
                },
            ),
        }
    }

    fn health_check(&self) -> ControllerHealth {
        ControllerHealth {
            healthy: true,
            last_success: None,
            error_count: 0,
            message: String::from_str("deployment controller healthy"),
        }
    }

    fn metrics(&self) -> ControllerStats {
        ControllerStats {
            events_processed: self.stats.events_processed,
            successful_reconciliations: self.stats.successful_reconciliations,
            failed_reconciliations: self.stats.failed_reconciliations,
            avg_reconciliation_time: self.stats.avg_reconciliation_time,
            peak_reconciliation_time: self.stats.peak_reconciliation_time,
            queue_depth: self.stats.queue_depth,
        }
    }
}

/// Keeps endpoint objects in step with their services.
pub struct ServiceController {
    pub stats: ControllerStats,
}

impl ServiceController {
    pub fn new() -> (r: Self)
        ensures
            r.stats.events_processed == 0,
    {
        ServiceController { stats: ControllerStats::default() }
    }
}

impl Controller for ServiceController {
    fn name(&self) -> String {
        String::from_str("service-controller")
    }

    fn watches(&self) -> Vec<String> {
        let mut w: Vec<String> = Vec::new();
        w.push(String::from_str("services"));
        w.push(String::from_str("endpoints"));
        w
    }

    fn reconcile(&self, event: ReconciliationEvent) -> (r: Result<
        ReconciliationResult,
        ControllerError,
    >)
        ensures
            event.event_type == EventType::Create || event.event_type == EventType::Update
                || event.event_type == EventType::Delete ==> r matches Ok(
                ReconciliationResult::Success,
            ),
            !(event.event_type == EventType::Create || event.event_type == EventType::Update
                || event.event_type == EventType::Delete) ==> (r matches Ok(
                ReconciliationResult::Skipped { reason },
            ) && reason@ == "Event type not handled"@),
    {
        match event.event_type {
            EventType::Create => Ok(ReconciliationResult::Success),
            EventType::Update => Ok(ReconciliationResult::Success),
            EventType::Delete => Ok(ReconciliationResult::Success),
            _ => Ok(
                ReconciliationResult::Skipped {
                    reason: String::from_str("Event type not handled"),
                },
            ),
        }
    }

    fn health_check(&self) -> ControllerHealth {
        ControllerHealth {
            healthy: true,
            last_success: None,
            error_count: 0,
            message: String::from_str("service controller healthy"),
        }
    }

    fn metrics(&self) -> ControllerStats {
        ControllerStats {
            events_processed: self.stats.events_processed,
            successful_reconciliations: self.stats.successful_reconciliations,
            failed_reconciliations: self.stats.failed_reconciliations,
            avg_reconciliation_time: self.stats.avg_reconciliation_time,
            peak_reconciliation_time: self.stats.peak_reconciliation_time,
            queue_depth: self.stats.queue_depth,
        }
    }
}

fn bump_u32(x: u32) -> (r: u32)
    ensures
        x < u32::MAX ==> r == x + 1,
        x == u32::MAX ==> r == x,
{
    if x < u32::MAX {
        x + 1
    } else {
        x
    }
}

} // verus!
