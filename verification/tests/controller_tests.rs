use nautilus_tee::cluster::HashChain;
use nautilus_tee::controller::{
    backoff_delay, Controller, ControllerConfig, EnqueueOutcome, EventPriority, EventType,
    OutcomeAction, ReconciliationEvent, ReconciliationResult, ReplicaSetController,
    TeeControllerManager,
};

fn event(kind: &str, key: &str, priority: EventPriority, now: u64) -> ReconciliationEvent {
    ReconciliationEvent {
        resource_type: kind.to_string(),
        resource_key: key.to_string(),
        event_type: EventType::Update,
        data: Vec::new(),
        priority,
        timestamp: now,
        retry_count: 0,
    }
}

#[test]
fn dedup_window_collapses_repeat_events() {
    let mut mgr = TeeControllerManager::with_config(ControllerConfig {
        dedup_window: 1000,
        ..ControllerConfig::default()
    });
    let first = mgr.queue_event(event("pods", "ns/p", EventPriority::Normal, 100), 100);
    assert_eq!(first, EnqueueOutcome::Enqueued);
    // A second event for the same key lands within the window and drops.
    let second = mgr.queue_event(event("pods", "ns/p", EventPriority::Normal, 600), 600);
    assert_eq!(second, EnqueueOutcome::Deduplicated);
    // Past the window (the dropped event refreshed it at 600) it goes in.
    let third = mgr.queue_event(event("pods", "ns/p", EventPriority::Normal, 1700), 1700);
    assert_eq!(third, EnqueueOutcome::Enqueued);
}

#[test]
fn critical_events_bypass_deduplication() {
    let mut mgr = TeeControllerManager::new();
    let a = mgr.queue_event(event("pods", "k", EventPriority::Critical, 10), 10);
    let b = mgr.queue_event(event("pods", "k", EventPriority::Critical, 11), 11);
    assert_eq!(a, EnqueueOutcome::Enqueued);
    assert_eq!(b, EnqueueOutcome::Enqueued);
}

#[test]
fn full_queue_is_overloaded() {
    let mut mgr = TeeControllerManager::with_config(ControllerConfig {
        max_queue_size: 2,
        dedup_window: 0,
        ..ControllerConfig::default()
    });
    assert_eq!(
        mgr.queue_event(event("pods", "a", EventPriority::Normal, 1), 1),
        EnqueueOutcome::Enqueued
    );
    assert_eq!(
        mgr.queue_event(event("pods", "b", EventPriority::Normal, 2), 2),
        EnqueueOutcome::Enqueued
    );
    assert_eq!(
        mgr.queue_event(event("pods", "c", EventPriority::Normal, 3), 3),
        EnqueueOutcome::Overloaded
    );
}

#[test]
fn dequeue_follows_priority_until_the_quota_spends() {
    let mut mgr = TeeControllerManager::with_config(ControllerConfig {
        priority_quota: 2,
        dedup_window: 0,
        ..ControllerConfig::default()
    });
    mgr.queue_event(event("pods", "c1", EventPriority::Critical, 1), 1);
    mgr.queue_event(event("pods", "c2", EventPriority::Critical, 2), 2);
    mgr.queue_event(event("pods", "c3", EventPriority::Critical, 3), 3);
    mgr.queue_event(event("pods", "n1", EventPriority::Normal, 4), 4);
    // Two critical pops spend the quota; the third dequeue must serve the
    // waiting lower band once before returning to the critical band.
    let a = mgr.get_next_event().unwrap();
    let b = mgr.get_next_event().unwrap();
    let c = mgr.get_next_event().unwrap();
    let d = mgr.get_next_event().unwrap();
    assert_eq!(a.resource_key, "c1");
    assert_eq!(b.resource_key, "c2");
    assert_eq!(c.resource_key, "n1");
    assert_eq!(d.resource_key, "c3");
    assert!(mgr.get_next_event().is_none());
}

#[test]
fn at_most_one_lease_per_key() {
    let mut mgr = TeeControllerManager::new();
    assert!(mgr.acquire_lease("ns/p", "rs", 0, 1));
    // A second worker must be refused while the lease is held.
    assert!(!mgr.acquire_lease("ns/p", "rs", 0, 2));
    mgr.release_lease("ns/p");
    assert!(mgr.acquire_lease("ns/p", "rs", 0, 3));
}

#[test]
fn backoff_never_shrinks() {
    let base = 10_000u64;
    let mut prev = 0u64;
    for k in 0..70u32 {
        let d = backoff_delay(base, k);
        assert!(d >= prev);
        prev = d;
    }
    assert_eq!(backoff_delay(10_000, 1), 20_000);
    assert_eq!(backoff_delay(10_000, 2), 40_000);
    assert_eq!(backoff_delay(10_000, 3), 80_000);
    assert_eq!(backoff_delay(10_000, 64), u64::MAX);
}

#[test]
fn reconciler_retries_with_backoff_then_succeeds() {
    // The controller answers Retry three times, then Success. With a
    // 10 ms base the reinsert delays are 20, 40 and 80 ms, so the total
    // wait is at least 10+20+40 ms; the retry count at success is 3.
    let mut mgr = TeeControllerManager::with_config(ControllerConfig {
        max_retries: 5,
        backoff_base: 10_000,
        ..ControllerConfig::default()
    });
    let mut ev = event("pods", "ns/p", EventPriority::Normal, 0);
    let mut total_delay = 0u64;
    for _ in 0..3 {
        let action = mgr.apply_outcome(
            ev,
            Ok(ReconciliationResult::Retry {
                reason: "transient".to_string(),
            }),
            100,
            0,
        );
        match action {
            OutcomeAction::ReinsertAfter { delay_us, event } => {
                total_delay += delay_us;
                ev = event;
            }
            OutcomeAction::Done => panic!("retry budget should not be spent yet"),
        }
    }
    assert!(total_delay >= 10_000 + 20_000 + 40_000);
    assert_eq!(ev.retry_count, 3);
    let action = mgr.apply_outcome(ev, Ok(ReconciliationResult::Success), 100, 1);
    assert!(matches!(action, OutcomeAction::Done));
    let last = mgr.history.last().expect("a record was written");
    assert!(matches!(last.result, ReconciliationResult::Success));
}

#[test]
fn spent_retry_budget_records_a_failure() {
    let mut mgr = TeeControllerManager::with_config(ControllerConfig {
        max_retries: 1,
        ..ControllerConfig::default()
    });
    let mut ev = event("pods", "k", EventPriority::Normal, 0);
    ev.retry_count = 1;
    let action = mgr.apply_outcome(
        ev,
        Ok(ReconciliationResult::Retry {
            reason: "still broken".to_string(),
        }),
        5,
        9,
    );
    assert!(matches!(action, OutcomeAction::Done));
    assert_eq!(mgr.get_metrics().failed_reconciliations, 1);
    let last = mgr.history.last().unwrap();
    assert!(matches!(last.result, ReconciliationResult::Failed { .. }));
}

#[test]
fn requeue_keeps_the_event_and_its_delay() {
    let mut mgr = TeeControllerManager::new();
    let ev = event("pods", "k", EventPriority::High, 0);
    let action = mgr.apply_outcome(
        ev,
        Ok(ReconciliationResult::Requeue { after_us: 12345 }),
        5,
        9,
    );
    match action {
        OutcomeAction::ReinsertAfter { delay_us, event } => {
            assert_eq!(delay_us, 12345);
            assert_eq!(event.resource_key, "k");
            assert_eq!(event.retry_count, 0);
        }
        OutcomeAction::Done => panic!("a requeue must hand the event back"),
    }
}

#[test]
fn sample_controller_reconciles_mutations_and_skips_the_rest() {
    let rs = ReplicaSetController::new();
    let ok = rs.reconcile(event("replicasets", "ns/r", EventPriority::Normal, 0));
    assert!(matches!(ok, Ok(ReconciliationResult::Success)));
    let mut sync = event("replicasets", "ns/r", EventPriority::Normal, 0);
    sync.event_type = EventType::PeriodicSync;
    let skipped = rs.reconcile(sync);
    match skipped {
        Ok(ReconciliationResult::Skipped { reason }) => {
            assert_eq!(reason, "Event type not handled");
        }
        _ => panic!("a periodic sync must be skipped"),
    }
    assert!(rs.health_check().healthy);
    assert_eq!(rs.name(), "replicaset-controller");
}

#[test]
fn trigger_reconciliation_needs_a_registered_controller() {
    let mut mgr = TeeControllerManager::new();
    assert!(mgr.trigger_reconciliation("nobody", "k", 5).is_none());
    mgr.register_controller(
        "replicaset-controller".to_string(),
        vec!["replicasets".to_string(), "pods".to_string()],
    );
    let r = mgr.trigger_reconciliation("replicaset-controller", "k", 6);
    assert_eq!(r, Some(EnqueueOutcome::Enqueued));
}

#[test]
fn events_route_to_the_controllers_watching_their_kind() {
    let mut mgr = TeeControllerManager::new();
    mgr.register_controller(
        "replicaset-controller".to_string(),
        vec!["replicasets".to_string(), "pods".to_string()],
    );
    mgr.register_controller(
        "service-controller".to_string(),
        vec!["services".to_string(), "endpoints".to_string()],
    );
    assert_eq!(
        mgr.controllers_watching("pods"),
        vec!["replicaset-controller".to_string()]
    );
    assert_eq!(
        mgr.controllers_watching("services"),
        vec!["service-controller".to_string()]
    );
    assert!(mgr.controllers_watching("nodes").is_empty());
    mgr.unregister_controller("service-controller");
    assert!(mgr.controllers_watching("services").is_empty());
}

#[test]
fn hash_chain_heads_are_digests() {
    // The chain head after an append is a 32-byte digest, not the input.
    let mut chain = HashChain::new();
    chain.append(b"x");
    assert_eq!(chain.current_hash.len(), 32);
    assert_ne!(chain.current_hash, b"x".to_vec());
    let first = chain.current_hash.clone();
    chain.append(b"x");
    assert_eq!(chain.chain_length, 2);
    // The same entry appended to a different head yields a different head.
    assert_ne!(chain.current_hash, first);
}
