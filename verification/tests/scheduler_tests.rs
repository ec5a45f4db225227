use nautilus_tee::scheduler::{
    CachedNodeInfo, NodeConditions, PendingPod, ResourceRequirements, SchedulerConfig,
    TeeScheduler,
};

fn ready_conditions() -> NodeConditions {
    NodeConditions {
        ready: true,
        memory_pressure: false,
        disk_pressure: false,
        pid_pressure: false,
        network_unavailable: false,
    }
}

fn node(name: &str, cpu_millis: i64, memory: i64) -> CachedNodeInfo {
    CachedNodeInfo {
        name: name.to_string(),
        available_cpu: cpu_millis,
        available_memory: memory,
        available_storage: 100 * 1024 * 1024 * 1024,
        extended_capacity: Vec::new(),
        labels: Vec::new(),
        taints: Vec::new(),
        pod_count: 0,
        conditions: ready_conditions(),
        score: 0,
        updated_at: 0,
        placed_pod_labels: Vec::new(),
    }
}

fn pod(id: &str, cpu_millis: i64, memory: i64) -> PendingPod {
    PendingPod {
        id: id.to_string(),
        name: id.to_string(),
        namespace: "default".to_string(),
        resources: ResourceRequirements {
            cpu_request: cpu_millis,
            memory_request: memory,
            storage_request: 0,
            cpu_limit: None,
            memory_limit: None,
            extended_resources: Vec::new(),
        },
        node_affinity: None,
        pod_affinity: None,
        pod_anti_affinity: None,
        tolerations: Vec::new(),
        priority: 0,
        created_at: 0,
        deadline: None,
    }
}

const GIB: i64 = 1024 * 1024 * 1024;

#[test]
fn placement_picks_the_only_feasible_node() {
    // A: 4000m CPU, 8Gi; B: 1000m CPU, 2Gi. Request: 1500m, 1Gi. Only A
    // can host the pod.
    let mut engine = TeeScheduler::new();
    engine.update_node(node("a", 4000, 8 * GIB));
    engine.update_node(node("b", 1000, 2 * GIB));
    let result = engine.schedule_pod(pod("u", 1500, GIB));
    assert_eq!(result.node.as_deref(), Some("a"));
    assert!(result.score > 0);
    assert!(result.reason.is_none());
}

#[test]
fn placement_tie_breaks_by_ascending_name() {
    // Two identical nodes: the lexicographically smaller name wins.
    let mut engine = TeeScheduler::new();
    engine.update_node(node("beta", 4000, 8 * GIB));
    engine.update_node(node("alpha", 4000, 8 * GIB));
    let best = engine.find_best_node(&pod("u", 500, GIB));
    let (name, _score) = best.expect("both nodes are feasible");
    assert_eq!(name, "alpha");
}

#[test]
fn placement_fails_when_nothing_is_feasible() {
    let mut engine = TeeScheduler::new();
    engine.update_node(node("tiny", 100, GIB));
    let result = engine.schedule_pod(pod("u", 1500, GIB));
    assert!(result.node.is_none());
    // The diagnostic names the most common failed filter.
    assert_eq!(result.reason.as_deref(), Some("insufficient resources"));
    assert_eq!(result.score, 0);
}

#[test]
fn unschedulable_diagnostic_names_the_most_common_filter() {
    // Two nodes fail on conditions, one on resources: the diagnostic
    // names the degraded conditions.
    let mut engine = TeeScheduler::new();
    let mut sick_a = node("sick-a", 4000, 8 * GIB);
    sick_a.conditions.ready = false;
    let mut sick_b = node("sick-b", 4000, 8 * GIB);
    sick_b.conditions.memory_pressure = true;
    engine.update_node(sick_a);
    engine.update_node(sick_b);
    engine.update_node(node("tiny", 1, 1));
    let result = engine.schedule_pod(pod("u", 1500, GIB));
    assert!(result.node.is_none());
    assert_eq!(result.reason.as_deref(), Some("node conditions degraded"));
}

#[test]
fn unready_nodes_are_not_candidates() {
    let mut engine = TeeScheduler::new();
    let mut n = node("sick", 4000, 8 * GIB);
    n.conditions.ready = false;
    engine.update_node(n);
    let result = engine.schedule_pod(pod("u", 100, GIB));
    assert!(result.node.is_none());
}

#[test]
fn placement_charges_the_chosen_node() {
    // After a placement the same signature sees reduced availability on
    // the chosen node; a request that fit before no longer does.
    let mut engine = TeeScheduler::with_config(SchedulerConfig {
        enable_decision_cache: false,
        ..SchedulerConfig::default()
    });
    engine.update_node(node("only", 2000, 2 * GIB));
    let first = engine.schedule_pod(pod("u1", 1500, GIB));
    assert_eq!(first.node.as_deref(), Some("only"));
    // 500m CPU remain; an identical request must now be unschedulable.
    let second = engine.schedule_pod(pod("u2", 1500, GIB));
    assert!(second.node.is_none());
}

#[test]
fn balanced_utilization_scores_higher() {
    // With a 70% target, a node whose remaining capacity the request uses
    // closer to the target outscores one it barely touches.
    let mut engine = TeeScheduler::new();
    engine.update_node(node("snug", 2000, 2 * GIB));
    engine.update_node(node("vast", 100_000, 1000 * GIB));
    let best = engine.find_best_node(&pod("u", 1400, GIB));
    let (name, _score) = best.expect("both are feasible");
    assert_eq!(name, "snug");
}

#[test]
fn scheduler_metrics_count_outcomes() {
    let mut engine = TeeScheduler::new();
    engine.update_node(node("n", 4000, 8 * GIB));
    engine.schedule_pod(pod("ok", 100, GIB));
    engine.schedule_pod(pod("too-big", 100_000, GIB));
    let m = engine.get_metrics();
    assert_eq!(m.total_schedules, 2);
    assert_eq!(m.successful_schedules, 1);
    assert_eq!(m.failed_schedules, 1);
}

#[test]
fn queue_serves_priority_bands_in_order() {
    let mut engine = TeeScheduler::new();
    let mut low = pod("low", 1, 1);
    low.priority = -5000;
    let mut high = pod("high", 1, 1);
    high.priority = 5000;
    let normal = pod("normal", 1, 1);
    engine.queue_pod(low);
    engine.queue_pod(normal);
    engine.queue_pod(high);
    let a = engine.scheduling_queue.get_next_pod().unwrap();
    let b = engine.scheduling_queue.get_next_pod().unwrap();
    let c = engine.scheduling_queue.get_next_pod().unwrap();
    assert_eq!(a.id, "high");
    assert_eq!(b.id, "normal");
    assert_eq!(c.id, "low");
    assert!(engine.scheduling_queue.get_next_pod().is_none());
}

#[test]
fn removed_nodes_stop_hosting() {
    let mut engine = TeeScheduler::new();
    engine.update_node(node("gone", 4000, 8 * GIB));
    engine.remove_node("gone");
    let result = engine.schedule_pod(pod("u", 100, GIB));
    assert!(result.node.is_none());
}
