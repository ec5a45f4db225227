//! The placement engine: selects an execution node for each pending work
//! unit under resource, affinity and taint constraints.
//!
//! Candidates must pass every feasibility predicate; feasible nodes are
//! ranked by a weighted score in milli-points (0 to 100000) and ties are
//! broken deterministically by ascending node name. Decisions are
//! cached under a signature of the request and revalidated against the
//! node cache before reuse.

use crate::codec::now_micros;
use crate::memory_store::{bump, bump64, moving_avg, op_elapsed};
use vstd::string::StringExecFns;
use crate::util::{assoc_get, assoc_lookup, lex_lt, seq_contains_str, str_eq, str_lt,
    vec_contains_str};
use vstd::prelude::*;

verus! {

/// Taint effects a node can carry.
#[derive(Clone, Copy, Debug, PartialEq, Eq, Structural)]
pub enum TaintEffect {
    NoSchedule,
    PreferNoSchedule,
    NoExecute,
}

/// One taint of a node.
pub struct NodeTaint {
    pub key: String,
    pub value: Option<String>,
    pub effect: TaintEffect,
}

/// Condition flags of a node.
#[derive(Clone, Copy, Debug, PartialEq, Eq, Structural)]
pub struct NodeConditions {
    pub ready: bool,
    pub memory_pressure: bool,
    pub disk_pressure: bool,
    pub pid_pressure: bool,
    pub network_unavailable: bool,
}

impl Default for NodeConditions {
    fn default() -> (r: Self)
        ensures
            r == (NodeConditions {
                ready: false,
                memory_pressure: false,
                disk_pressure: false,
                pid_pressure: false,
                network_unavailable: false,
            }),
    {
        NodeConditions {
            ready: false,
            memory_pressure: false,
            disk_pressure: false,
            pid_pressure: false,
            network_unavailable: false,
        }
    }
}

/// The labels of one pod placed on a node, as the cache projects it.
pub struct PodLabelSet {
    pub labels: Vec<(String, String)>,
}

/// A node as the placement cache sees it.
pub struct CachedNodeInfo {
    pub name: String,
    /// Available CPU in millicores.
    pub available_cpu: i64,
    /// Available memory in bytes.
    pub available_memory: i64,
    /// Available storage in bytes.
    pub available_storage: i64,
    /// Available extended resources by name.
    pub extended_capacity: Vec<(String, i64)>,
    pub labels: Vec<(String, String)>,
    pub taints: Vec<NodeTaint>,
    pub pod_count: u32,
    pub conditions: NodeConditions,
    /// Coarse score in milli-points, used to order the warm node list.
    pub score: u64,
    /// Clock reading of the last refresh, microseconds.
    pub updated_at: u64,
    /// Labels of the pods the cache knows to be placed here.
    pub placed_pod_labels: Vec<PodLabelSet>,
}

/// Operators of node and label selector requirements.
#[derive(Clone, Copy, Debug, PartialEq, Eq, Structural)]
pub enum SelectorOperator {
    In,
    NotIn,
    Exists,
    DoesNotExist,
    Gt,
    Lt,
}

/// One requirement of a node selector term.
pub struct NodeSelectorRequirement {
    pub key: String,
    pub operator: SelectorOperator,
    pub values: Vec<String>,
}

/// One term of a node selector: the conjunction of its requirements.
pub struct NodeSelectorTerm {
    pub match_expressions: Vec<NodeSelectorRequirement>,
    pub match_fields: Vec<NodeSelectorRequirement>,
}

/// A node selector: the disjunction of its terms.
pub struct NodeSelector {
    pub terms: Vec<NodeSelectorTerm>,
}

/// A preferred node selector term with its weight.
pub struct WeightedNodeSelector {
    pub weight: i32,
    pub preference: NodeSelectorTerm,
}

/// Node affinity: a required selector and weighted preferences.
pub struct NodeAffinity {
    pub required: Option<NodeSelector>,
    pub preferred: Vec<WeightedNodeSelector>,
}

/// One requirement of a pod label selector.
pub struct LabelSelectorRequirement {
    pub key: String,
    pub operator: SelectorOperator,
    pub values: Vec<String>,
}

/// A pod label selector: exact bindings and expression requirements.
pub struct LabelSelector {
    pub match_labels: Vec<(String, String)>,
    pub match_expressions: Vec<LabelSelectorRequirement>,
}

/// One pod (anti-)affinity term over a topology key.
pub struct PodAffinityTerm {
    pub label_selector: LabelSelector,
    pub topology_key: String,
    pub namespaces: Vec<String>,
}

/// A weighted pod (anti-)affinity term.
pub struct WeightedPodAffinityTerm {
    pub weight: i32,
    pub pod_affinity_term: PodAffinityTerm,
}

/// Pod affinity rules.
pub struct PodAffinity {
    pub required: Vec<PodAffinityTerm>,
    pub preferred: Vec<WeightedPodAffinityTerm>,
}

/// Pod anti-affinity rules.
pub struct PodAntiAffinity {
    pub required: Vec<PodAffinityTerm>,
    pub preferred: Vec<WeightedPodAffinityTerm>,
}

/// Toleration operators.
#[derive(Clone, Copy, Debug, PartialEq, Eq, Structural)]
pub enum TolerationOperator {
    Exists,
    Equal,
}

/// A toleration a pod carries against node taints.
pub struct Toleration {
    pub key: Option<String>,
    pub operator: Option<TolerationOperator>,
    pub value: Option<String>,
    pub effect: Option<TaintEffect>,
    pub toleration_seconds: Option<i64>,
}

/// The resources a work unit requests.
pub struct ResourceRequirements {
    pub cpu_request: i64,
    pub memory_request: i64,
    pub storage_request: i64,
    pub cpu_limit: Option<i64>,
    pub memory_limit: Option<i64>,
    pub extended_resources: Vec<(String, i64)>,
}

/// A pending work unit awaiting placement.
pub struct PendingPod {
    pub id: String,
    pub name: String,
    pub namespace: String,
    pub resources: ResourceRequirements,
    pub node_affinity: Option<NodeAffinity>,
    pub pod_affinity: Option<PodAffinity>,
    pub pod_anti_affinity: Option<PodAntiAffinity>,
    pub tolerations: Vec<Toleration>,
    pub priority: i32,
    pub created_at: u64,
    pub deadline: Option<u64>,
}

// ---------------------------------------------------------------------
// Integer lookups shared by feasibility and scoring.

/// The quantity bound to `key` in a named-quantity list, or `None`.
pub open spec fn quantity_lookup(pairs: Seq<(String, i64)>, key: Seq<char>) -> Option<i64>
    decreases pairs.len(),
{
    if pairs.len() == 0 {
        None
    } else if pairs[0].0@ == key {
        Some(pairs[0].1)
    } else {
        quantity_lookup(pairs.skip(1), key)
    }
}

proof fn lemma_quantity_lookup_skip(pairs: Seq<(String, i64)>, key: Seq<char>, i: int)
    requires
        0 <= i <= pairs.len(),
        forall|j: int| 0 <= j < i ==> pairs[j].0@ != key,
    ensures
        quantity_lookup(pairs, key) == quantity_lookup(pairs.skip(i), key),
    decreases i,
{
    if i > 0 {
        assert(pairs.skip(1).skip(i - 1) =~= pairs.skip(i));
        assert(forall|j: int| 0 <= j < i - 1 ==> pairs.skip(1)[j] == pairs[j + 1]);
        lemma_quantity_lookup_skip(pairs.skip(1), key, i - 1);
    } else {
        assert(pairs.skip(0) =~= pairs);
    }
}

/// Looks a named quantity up.
fn quantity_get(pairs: &Vec<(String, i64)>, key: &str) -> (r: Option<i64>)
    ensures
        r == quantity_lookup(pairs@, key@),
{
    let mut i: usize = 0;
    while i < pairs.len()
        invariant
            i <= pairs@.len(),
            forall|j: int| 0 <= j < i ==> pairs@[j].0@ != key@,
        decreases pairs@.len() - i,
    {
        if str_eq(pairs[i].0.as_str(), key) {
            proof {
                lemma_quantity_lookup_skip(pairs@, key@, i as int);
                assert(pairs@.skip(i as int)[0] == pairs@[i as int]);
            }
            return Some(pairs[i].1);
        }
        i = i + 1;
    }
    proof {
        lemma_quantity_lookup_skip(pairs@, key@, pairs@.len() as int);
    }
    None
}

// ---------------------------------------------------------------------
// Feasibility.

/// Whether the node's headline resources cover the request.
pub open spec fn has_sufficient_resources(node: CachedNodeInfo, req: ResourceRequirements) -> bool {
    &&& node.available_cpu >= req.cpu_request
    &&& node.available_memory >= req.memory_request
    &&& node.available_storage >= req.storage_request
}

/// Whether every extended resource the request names is available in the
/// requested quantity.
pub open spec fn extended_resources_ok(node: CachedNodeInfo, req: ResourceRequirements) -> bool {
    forall|i: int|
        0 <= i < req.extended_resources@.len() ==> match quantity_lookup(
            node.extended_capacity@,
            (#[trigger] req.extended_resources@[i]).0@,
        ) {
            Some(avail) => avail >= req.extended_resources@[i].1,
            None => false,
        }
}

/// Whether the node's conditions admit new work.
pub open spec fn conditions_ok(node: CachedNodeInfo) -> bool {
    node.conditions.ready && !node.conditions.memory_pressure && !node.conditions.disk_pressure
}

/// Whether a toleration covers a taint: a keyed toleration covers the
/// taint with its key; a keyless toleration covers every taint.
pub open spec fn toleration_matches_taint(tol: Toleration, taint: NodeTaint) -> bool {
    match tol.key {
        Some(k) => k@ == taint.key@,
        None => true,
    }
}

/// Whether every NoSchedule and NoExecute taint of the node is covered by
/// some toleration of the pod.
pub open spec fn taints_tolerated(node: CachedNodeInfo, tolerations: Seq<Toleration>) -> bool {
    forall|i: int|
        0 <= i < node.taints@.len() && ((#[trigger] node.taints@[i]).effect
            == TaintEffect::NoSchedule || node.taints@[i].effect == TaintEffect::NoExecute)
            ==> exists|t: int|
            0 <= t < tolerations.len() && toleration_matches_taint(
                #[trigger] tolerations[t],
                node.taints@[i],
            )
}

/// Whether one node-selector requirement holds of the node's labels.
/// The ordering operators have no defined semantics in this store's label
/// model, so they constrain nothing.
pub open spec fn nsr_matches(labels: Seq<(String, String)>, req: NodeSelectorRequirement) -> bool {
    match req.operator {
        SelectorOperator::In => match assoc_lookup(labels, req.key@) {
            Some(v) => seq_contains_str(req.values@, v),
            None => false,
        },
        SelectorOperator::NotIn => match assoc_lookup(labels, req.key@) {
            Some(v) => !seq_contains_str(req.values@, v),
            None => true,
        },
        SelectorOperator::Exists => assoc_lookup(labels, req.key@) is Some,
        SelectorOperator::DoesNotExist => assoc_lookup(labels, req.key@) is None,
        SelectorOperator::Gt => true,
        SelectorOperator::Lt => true,
    }
}

/// Whether a selector term holds: all its requirements do.
pub open spec fn term_matches(labels: Seq<(String, String)>, term: NodeSelectorTerm) -> bool {
    &&& (forall|i: int|
        0 <= i < term.match_expressions@.len() ==> nsr_matches(
            labels,
            #[trigger] term.match_expressions@[i],
        ))
    &&& (forall|i: int|
        0 <= i < term.match_fields@.len() ==> nsr_matches(labels, #[trigger] term.match_fields@[i]))
}

/// Whether a node selector holds: some term does.
pub open spec fn selector_matches_node(labels: Seq<(String, String)>, sel: NodeSelector) -> bool {
    exists|i: int| 0 <= i < sel.terms@.len() && term_matches(labels, #[trigger] sel.terms@[i])
}

/// Whether the pod's required node affinity admits the node.
pub open spec fn required_affinity_ok(node: CachedNodeInfo, pod: PendingPod) -> bool {
    match pod.node_affinity {
        Some(aff) => match aff.required {
            Some(sel) => selector_matches_node(node.labels@, sel),
            None => true,
        },
        None => true,
    }
}

/// The conjunction of every feasibility predicate a candidate must pass.
pub open spec fn feasible(node: CachedNodeInfo, pod: PendingPod) -> bool {
    &&& has_sufficient_resources(node, pod.resources)
    &&& extended_resources_ok(node, pod.resources)
    &&& conditions_ok(node)
    &&& taints_tolerated(node, pod.tolerations@)
    &&& required_affinity_ok(node, pod)
}

// ---------------------------------------------------------------------
// Scoring, in milli-points.

pub open spec fn clamp_pm(x: int) -> int {
    if x < 0 {
        0
    } else if x > 1000 {
        1000
    } else {
        x
    }
}

/// The requested share of one resource dimension, in per-mille (0..1000).
pub open spec fn dim_ratio_pm(req: int, avail: int) -> int {
    if req <= 0 {
        0
    } else if avail <= 0 || req >= avail {
        1000
    } else {
        req * 1000 / avail
    }
}

/// The score of one dimension: 1000 minus the distance of its ratio from
/// the target utilization.
pub open spec fn dim_score_pm(req: int, avail: int, target: int) -> int {
    let d = dim_ratio_pm(req, avail) - target;
    let dist = if d < 0 {
        -d
    } else {
        d
    };
    1000 - dist
}

/// Resource balance: the per-dimension scores averaged (0..1000 for a
/// target within 0..1000).
pub open spec fn resource_score_pm(node: CachedNodeInfo, req: ResourceRequirements, target: int) -> int {
    (dim_score_pm(req.cpu_request as int, node.available_cpu as int, target) + dim_score_pm(
        req.memory_request as int,
        node.available_memory as int,
        target,
    ) + dim_score_pm(req.storage_request as int, node.available_storage as int, target)) / 3
}

/// The summed weight (in milli-points) of the preferred node selector
/// terms the node matches.
pub open spec fn pref_sum(labels: Seq<(String, String)>, prefs: Seq<WeightedNodeSelector>) -> int
    decreases prefs.len(),
{
    if prefs.len() == 0 {
        0
    } else {
        (if term_matches(labels, prefs.last().preference) {
            prefs.last().weight * 10
        } else {
            0
        }) + pref_sum(labels, prefs.drop_last())
    }
}

/// Node affinity score: an unmatched hard requirement scores zero; else
/// half the band for carrying a requirement plus the matched preferred
/// weights, capped at the band.
pub open spec fn node_affinity_score_pm(node: CachedNodeInfo, pod: PendingPod) -> int {
    match pod.node_affinity {
        None => 0,
        Some(aff) => {
            let base: int = match aff.required {
                Some(sel) => if selector_matches_node(node.labels@, sel) {
                    500
                } else {
                    0
                },
                None => 0,
            };
            if aff.required is Some && !(match aff.required {
                Some(sel) => selector_matches_node(node.labels@, sel),
                None => true,
            }) {
                0
            } else {
                clamp_pm(base + pref_sum(node.labels@, aff.preferred@))
            }
        },
    }
}

/// Whether one pod label-selector requirement holds of a placed pod.
/// The ordering operators have no defined semantics in this store's label
/// model, so they constrain nothing.
pub open spec fn lsr_matches(labels: Seq<(String, String)>, req: LabelSelectorRequirement) -> bool {
    match req.operator {
        SelectorOperator::In => match assoc_lookup(labels, req.key@) {
            Some(v) => seq_contains_str(req.values@, v),
            None => false,
        },
        SelectorOperator::NotIn => match assoc_lookup(labels, req.key@) {
            Some(v) => !seq_contains_str(req.values@, v),
            None => true,
        },
        SelectorOperator::Exists => assoc_lookup(labels, req.key@) is Some,
        SelectorOperator::DoesNotExist => assoc_lookup(labels, req.key@) is None,
        SelectorOperator::Gt => true,
        SelectorOperator::Lt => true,
    }
}

/// Whether a pod label selector holds of a placed pod's labels.
pub open spec fn pod_selector_matches(labels: Seq<(String, String)>, sel: LabelSelector) -> bool {
    &&& (forall|i: int|
        0 <= i < sel.match_labels@.len() ==> assoc_lookup(
            labels,
            (#[trigger] sel.match_labels@[i]).0@,
        ) == Some(sel.match_labels@[i].1@))
    &&& (forall|i: int|
        0 <= i < sel.match_expressions@.len() ==> lsr_matches(
            labels,
            #[trigger] sel.match_expressions@[i],
        ))
}

/// Whether some pod the cache knows on the node matches the term.
pub open spec fn term_hits_node(node: CachedNodeInfo, term: PodAffinityTerm) -> bool {
    exists|p: int|
        0 <= p < node.placed_pod_labels@.len() && pod_selector_matches(
            (#[trigger] node.placed_pod_labels@[p]).labels@,
            term.label_selector,
        )
}

/// Matched preferred pod-affinity weight, in milli-points.
pub open spec fn pod_aff_sum(node: CachedNodeInfo, prefs: Seq<WeightedPodAffinityTerm>) -> int
    decreases prefs.len(),
{
    if prefs.len() == 0 {
        0
    } else {
        (if term_hits_node(node, prefs.last().pod_affinity_term) {
            prefs.last().weight * 10
        } else {
            0
        }) + pod_aff_sum(node, prefs.drop_last())
    }
}

/// Unmatched preferred anti-affinity weight, in milli-points.
pub open spec fn pod_anti_sum(node: CachedNodeInfo, prefs: Seq<WeightedPodAffinityTerm>) -> int
    decreases prefs.len(),
{
    if prefs.len() == 0 {
        0
    } else {
        (if !term_hits_node(node, prefs.last().pod_affinity_term) {
            prefs.last().weight * 10
        } else {
            0
        }) + pod_anti_sum(node, prefs.drop_last())
    }
}

/// Pod (anti-)affinity score against the pods the cache projects onto the
/// node; neutral when the pod states no pod affinity at all.
pub open spec fn pod_affinity_score_pm(node: CachedNodeInfo, pod: PendingPod) -> int {
    if pod.pod_affinity is None && pod.pod_anti_affinity is None {
        500
    } else {
        let aff: int = match pod.pod_affinity {
            Some(a) => pod_aff_sum(node, a.preferred@),
            None => 0,
        };
        let anti: int = match pod.pod_anti_affinity {
            Some(a) => pod_anti_sum(node, a.preferred@),
            None => 0,
        };
        clamp_pm(aff + anti)
    }
}

/// Load balancing score: emptier nodes score higher.
pub open spec fn load_score_pm(node: CachedNodeInfo) -> int {
    if node.pod_count >= 110 {
        0
    } else {
        1000 - (node.pod_count as int) * 1000 / 110
    }
}

/// Condition health score: a penalty for each degraded condition.
pub open spec fn condition_score_pm(node: CachedNodeInfo) -> int {
    let p = (if node.conditions.ready {
        0int
    } else {
        800
    }) + (if node.conditions.memory_pressure {
        200int
    } else {
        0
    }) + (if node.conditions.disk_pressure {
        200int
    } else {
        0
    }) + (if node.conditions.pid_pressure {
        100int
    } else {
        0
    });
    if p >= 1000 {
        0
    } else {
        1000 - p
    }
}

/// Saturating i64 subtraction, for charging resources.
pub open spec fn sub_sat_i64(a: int, b: int) -> int {
    let d = a - b;
    if d > i64::MAX {
        i64::MAX as int
    } else if d < i64::MIN {
        i64::MIN as int
    } else {
        d
    }
}

/// The first feasibility predicate a node fails, in check order:
/// 0 headline resources, 1 extended resources, 2 conditions, 3 taints,
/// 4 required node affinity; 5 when the node is feasible.
pub open spec fn fail_cat(node: CachedNodeInfo, pod: PendingPod) -> int {
    if !has_sufficient_resources(node, pod.resources) {
        0
    } else if !extended_resources_ok(node, pod.resources) {
        1
    } else if !conditions_ok(node) {
        2
    } else if !taints_tolerated(node, pod.tolerations@) {
        3
    } else if !required_affinity_ok(node, pod) {
        4
    } else {
        5
    }
}

/// How many nodes fail first at the given category.
pub open spec fn cat_count(nodes: Seq<CachedNodeInfo>, pod: PendingPod, c: int) -> int
    decreases nodes.len(),
{
    if nodes.len() == 0 {
        0
    } else {
        cat_count(nodes.drop_last(), pod, c) + (if fail_cat(nodes.last(), pod) == c {
            1int
        } else {
            0
        })
    }
}

/// The most common failed filter across the cache, earlier check stages
/// winning ties.
pub open spec fn diag_cat(nodes: Seq<CachedNodeInfo>, pod: PendingPod) -> int {
    let c0 = cat_count(nodes, pod, 0);
    let c1 = cat_count(nodes, pod, 1);
    let c2 = cat_count(nodes, pod, 2);
    let c3 = cat_count(nodes, pod, 3);
    let c4 = cat_count(nodes, pod, 4);
    if c0 >= c1 && c0 >= c2 && c0 >= c3 && c0 >= c4 {
        0
    } else if c1 >= c2 && c1 >= c3 && c1 >= c4 {
        1
    } else if c2 >= c3 && c2 >= c4 {
        2
    } else if c3 >= c4 {
        3
    } else {
        4
    }
}

/// The diagnostic an unschedulable placement reports: the name of the
/// most common failed filter.
pub open spec fn diag_reason(nodes: Seq<CachedNodeInfo>, pod: PendingPod) -> Seq<char> {
    let c = diag_cat(nodes, pod);
    if c == 0 {
        "insufficient resources"@
    } else if c == 1 {
        "extended resources unavailable"@
    } else if c == 2 {
        "node conditions degraded"@
    } else if c == 3 {
        "untolerated taints"@
    } else {
        "required node affinity unmatched"@
    }
}

/// The first feasibility predicate a node fails.
fn fail_category(node: &CachedNodeInfo, pod: &PendingPod) -> (c: u8)
    ensures
        c as int == fail_cat(*node, *pod),
{
    if !(node.available_cpu >= pod.resources.cpu_request && node.available_memory
        >= pod.resources.memory_request && node.available_storage
        >= pod.resources.storage_request) {
        0
    } else if !extended_check(node, &pod.resources) {
        1
    } else if !(node.conditions.ready && !node.conditions.memory_pressure
        && !node.conditions.disk_pressure) {
        2
    } else if !tolerations_cover(node, &pod.tolerations) {
        3
    } else if !(match &pod.node_affinity {
        Some(aff) => match &aff.required {
            Some(sel) => selector_check(&node.labels, sel),
            None => true,
        },
        None => true,
    }) {
        4
    } else {
        5
    }
}

/// The diagnostic for a pod no cached node can host: names the most
/// common failed filter, earlier check stages winning ties.
pub fn unschedulable_reason(nodes: &Vec<CachedNodeInfo>, pod: &PendingPod) -> (r: String)
    ensures
        r@ == diag_reason(nodes@, *pod),
{
    let mut n0: usize = 0;
    let mut n1: usize = 0;
    let mut n2: usize = 0;
    let mut n3: usize = 0;
    let mut n4: usize = 0;
    let mut i: usize = 0;
    while i < nodes.len()
        invariant
            i <= nodes@.len(),
            n0 <= i && n1 <= i && n2 <= i && n3 <= i && n4 <= i,
            n0 as int == cat_count(nodes@.take(i as int), *pod, 0),
            n1 as int == cat_count(nodes@.take(i as int), *pod, 1),
            n2 as int == cat_count(nodes@.take(i as int), *pod, 2),
            n3 as int == cat_count(nodes@.take(i as int), *pod, 3),
            n4 as int == cat_count(nodes@.take(i as int), *pod, 4),
        decreases nodes@.len() - i,
    {
        proof {
            let t1 = nodes@.take(i + 1);
            assert(t1.drop_last() =~= nodes@.take(i as int));
            assert(t1.last() == nodes@[i as int]);
        }
        let c = fail_category(&nodes[i], pod);
        if c == 0 {
            n0 = n0 + 1;
        } else if c == 1 {
            n1 = n1 + 1;
        } else if c == 2 {
            n2 = n2 + 1;
        } else if c == 3 {
            n3 = n3 + 1;
        } else if c == 4 {
            n4 = n4 + 1;
        }
        i = i + 1;
    }
    proof {
        assert(nodes@.take(nodes@.len() as int) =~= nodes@);
    }
    if n0 >= n1 && n0 >= n2 && n0 >= n3 && n0 >= n4 {
        String::from_str("insufficient resources")
    } else if n1 >= n2 && n1 >= n3 && n1 >= n4 {
        String::from_str("extended resources unavailable")
    } else if n2 >= n3 && n2 >= n4 {
        String::from_str("node conditions degraded")
    } else if n3 >= n4 {
        String::from_str("untolerated taints")
    } else {
        String::from_str("required node affinity unmatched")
    }
}

/// The total placement score: the weighted bands (resource 40, node
/// affinity 20, pod affinity 20, load 10, condition 10), in milli-points
/// out of 100000.
pub open spec fn total_score(node: CachedNodeInfo, pod: PendingPod, target: int) -> int {
    resource_score_pm(node, pod.resources, target) * 40 + node_affinity_score_pm(node, pod) * 20
        + pod_affinity_score_pm(node, pod) * 20 + load_score_pm(node) * 10 + condition_score_pm(
        node,
    ) * 10
}

// ---------------------------------------------------------------------
// Executable feasibility.

fn nsr_check(labels: &Vec<(String, String)>, req: &NodeSelectorRequirement) -> (r: bool)
    ensures
        r == nsr_matches(labels@, *req),
{
    let bound = assoc_get(labels, req.key.as_str());
    match req.operator {
        SelectorOperator::In => match bound {
            Some(v) => vec_contains_str(&req.values, v.as_str()),
            None => false,
        },
        SelectorOperator::NotIn => match bound {
            Some(v) => !vec_contains_str(&req.values, v.as_str()),
            None => true,
        },
        SelectorOperator::Exists => bound.is_some(),
        SelectorOperator::DoesNotExist => bound.is_none(),
        SelectorOperator::Gt => true,
        SelectorOperator::Lt => true,
    }
}

fn term_check(labels: &Vec<(String, String)>, term: &NodeSelectorTerm) -> (r: bool)
    ensures
        r == term_matches(labels@, *term),
{
    let mut i: usize = 0;
    while i < term.match_expressions.len()
        invariant
            i <= term.match_expressions@.len(),
            forall|j: int|
                0 <= j < i ==> nsr_matches(labels@, #[trigger] term.match_expressions@[j]),
        decreases term.match_expressions@.len() - i,
    {
        if !nsr_check(labels, &term.match_expressions[i]) {
            return false;
        }
        i = i + 1;
    }
    let mut m: usize = 0;
    while m < term.match_fields.len()
        invariant
            m <= term.match_fields@.len(),
            forall|j: int|
                0 <= j < term.match_expressions@.len() ==> nsr_matches(
                    labels@,
                    #[trigger] term.match_expressions@[j],
                ),
            forall|j: int| 0 <= j < m ==> nsr_matches(labels@, #[trigger] term.match_fields@[j]),
        decreases term.match_fields@.len() - m,
    {
        if !nsr_check(labels, &term.match_fields[m]) {
            return false;
        }
        m = m + 1;
    }
    true
}

fn selector_check(labels: &Vec<(String, String)>, sel: &NodeSelector) -> (r: bool)
    ensures
        r == selector_matches_node(labels@, *sel),
{
    let mut i: usize = 0;
    while i < sel.terms.len()
        invariant
            i <= sel.terms@.len(),
            forall|j: int| 0 <= j < i ==> !term_matches(labels@, #[trigger] sel.terms@[j]),
        decreases sel.terms@.len() - i,
    {
        if term_check(labels, &sel.terms[i]) {
            return true;
        }
        i = i + 1;
    }
    false
}

fn toleration_check(tol: &Toleration, taint: &NodeTaint) -> (r: bool)
    ensures
        r == toleration_matches_taint(*tol, *taint),
{
    match &tol.key {
        Some(k) => str_eq(k.as_str(), taint.key.as_str()),
        None => true,
    }
}

fn tolerations_cover(node: &CachedNodeInfo, tolerations: &Vec<Toleration>) -> (r: bool)
    ensures
        r == taints_tolerated(*node, tolerations@),
{
    let mut i: usize = 0;
    while i < node.taints.len()
        invariant
            i <= node.taints@.len(),
            forall|j: int|
                0 <= j < i && ((#[trigger] node.taints@[j]).effect == TaintEffect::NoSchedule
                    || node.taints@[j].effect == TaintEffect::NoExecute) ==> exists|t: int|
                    0 <= t < tolerations@.len() && toleration_matches_taint(
                        #[trigger] tolerations@[t],
                        node.taints@[j],
                    ),
        decreases node.taints@.len() - i,
    {
        let hard = match node.taints[i].effect {
            TaintEffect::NoSchedule => true,
            TaintEffect::NoExecute => true,
            TaintEffect::PreferNoSchedule => false,
        };
        if hard {
            let mut covered = false;
            let mut t: usize = 0;
            while t < tolerations.len()
                invariant
                    t <= tolerations@.len(),
                    i < node.taints@.len(),
                    covered <==> exists|w: int|
                        0 <= w < t && toleration_matches_taint(
                            #[trigger] tolerations@[w],
                            node.taints@[i as int],
                        ),
                decreases tolerations@.len() - t,
            {
                if toleration_check(&tolerations[t], &node.taints[i]) {
                    covered = true;
                }
                t = t + 1;
            }
            if !covered {
                return false;
            }
        }
        i = i + 1;
    }
    true
}

fn extended_check(node: &CachedNodeInfo, req: &ResourceRequirements) -> (r: bool)
    ensures
        r == extended_resources_ok(*node, *req),
{
    let mut i: usize = 0;
    while i < req.extended_resources.len()
        invariant
            i <= req.extended_resources@.len(),
            forall|j: int|
                0 <= j < i ==> match quantity_lookup(
                    node.extended_capacity@,
                    (#[trigger] req.extended_resources@[j]).0@,
                ) {
                    Some(avail) => avail >= req.extended_resources@[j].1,
                    None => false,
                },
        decreases req.extended_resources@.len() - i,
    {
        match quantity_get(&node.extended_capacity, req.extended_resources[i].0.as_str()) {
            Some(avail) => {
                if avail < req.extended_resources[i].1 {
                    return false;
                }
            },
            None => {
                return false;
            },
        }
        i = i + 1;
    }
    true
}

/// Whether a node passes every feasibility predicate for a pod.
pub fn is_feasible(node: &CachedNodeInfo, pod: &PendingPod) -> (r: bool)
    ensures
        r == feasible(*node, *pod),
{
    if !(node.available_cpu >= pod.resources.cpu_request && node.available_memory
        >= pod.resources.memory_request && node.available_storage
        >= pod.resources.storage_request) {
        return false;
    }
    if !extended_check(node, &pod.resources) {
        return false;
    }
    if !(node.conditions.ready && !node.conditions.memory_pressure
        && !node.conditions.disk_pressure) {
        return false;
    }
    if !tolerations_cover(node, &pod.tolerations) {
        return false;
    }
    match &pod.node_affinity {
        Some(aff) => match &aff.required {
            Some(sel) => selector_check(&node.labels, sel),
            None => true,
        },
        None => true,
    }
}

// ---------------------------------------------------------------------
// Executable scoring.

fn dim_score(req: i64, avail: i64, target: u64) -> (r: u64)
    requires
        target <= 1000,
    ensures
        r == dim_score_pm(req as int, avail as int, target as int),
        r <= 1000,
{
    let ratio: u64 = if req <= 0 {
        0
    } else if avail <= 0 || req >= avail {
        1000
    } else {
        proof {
            assert((req as int) * 1000 / (avail as int) < 1000) by (nonlinear_arith)
                requires
                    0 < req < avail,
            ;
            assert((req as int) * 1000 / (avail as int) >= 0) by (nonlinear_arith)
                requires
                    0 < req && 0 < avail,
            ;
        }
        (((req as i128) * 1000) / (avail as i128)) as u64
    };
    let dist: u64 = if ratio >= target {
        ratio - target
    } else {
        target - ratio
    };
    1000 - dist
}

fn resource_score(node: &CachedNodeInfo, req: &ResourceRequirements, target: u64) -> (r: u64)
    requires
        target <= 1000,
    ensures
        r == resource_score_pm(*node, *req, target as int),
        r <= 1000,
{
    let c = dim_score(req.cpu_request, node.available_cpu, target);
    let m = dim_score(req.memory_request, node.available_memory, target);
    let st = dim_score(req.storage_request, node.available_storage, target);
    (c + m + st) / 3
}

fn clamp_band(x: i128) -> (r: u64)
    ensures
        r == clamp_pm(x as int),
{
    if x < 0 {
        0
    } else if x > 1000 {
        1000
    } else {
        x as u64
    }
}

fn node_affinity_score(node: &CachedNodeInfo, pod: &PendingPod) -> (r: u64)
    ensures
        r == node_affinity_score_pm(*node, *pod),
        r <= 1000,
{
    match &pod.node_affinity {
        None => 0,
        Some(aff) => {
            let mut base: i128 = 0;
            match &aff.required {
                Some(sel) => {
                    if selector_check(&node.labels, sel) {
                        base = 500;
                    } else {
                        return 0;
                    }
                },
                None => {},
            }
            let mut acc: i128 = base;
            let mut i: usize = 0;
            while i < aff.preferred.len()
                invariant
                    i <= aff.preferred@.len(),
                    acc == base + pref_sum(node.labels@, aff.preferred@.take(i as int)),
                    0 <= base <= 500,
                    base - 21474836480 * (i as int) <= acc <= base + 21474836480 * (i as int),
                decreases aff.preferred@.len() - i,
            {
                proof {
                    let t1 = aff.preferred@.take(i + 1);
                    assert(t1.drop_last() =~= aff.preferred@.take(i as int));
                    assert(t1.last() == aff.preferred@[i as int]);
                }
                if term_check(&node.labels, &aff.preferred[i].preference) {
                    acc = acc + (aff.preferred[i].weight as i128) * 10;
                }
                i = i + 1;
            }
            proof {
                assert(aff.preferred@.take(aff.preferred@.len() as int) =~= aff.preferred@);
            }
            clamp_band(acc)
        },
    }
}

fn lsr_check(labels: &Vec<(String, String)>, req: &LabelSelectorRequirement) -> (r: bool)
    ensures
        r == lsr_matches(labels@, *req),
{
    let bound = assoc_get(labels, req.key.as_str());
    match req.operator {
        SelectorOperator::In => match bound {
            Some(v) => vec_contains_str(&req.values, v.as_str()),
            None => false,
        },
        SelectorOperator::NotIn => match bound {
            Some(v) => !vec_contains_str(&req.values, v.as_str()),
            None => true,
        },
        SelectorOperator::Exists => bound.is_some(),
        SelectorOperator::DoesNotExist => bound.is_none(),
        SelectorOperator::Gt => true,
        SelectorOperator::Lt => true,
    }
}

fn pod_selector_check(labels: &Vec<(String, String)>, sel: &LabelSelector) -> (r: bool)
    ensures
        r == pod_selector_matches(labels@, *sel),
{
    let mut i: usize = 0;
    while i < sel.match_labels.len()
        invariant
            i <= sel.match_labels@.len(),
            forall|j: int|
                0 <= j < i ==> assoc_lookup(labels@, (#[trigger] sel.match_labels@[j]).0@) == Some(
                    sel.match_labels@[j].1@,
                ),
        decreases sel.match_labels@.len() - i,
    {
        let want = &sel.match_labels[i].1;
        match assoc_get(labels, sel.match_labels[i].0.as_str()) {
            Some(v) => {
                if !str_eq(v.as_str(), want.as_str()) {
                    return false;
                }
            },
            None => {
                return false;
            },
        }
        i = i + 1;
    }
    let mut m: usize = 0;
    while m < sel.match_expressions.len()
        invariant
            m <= sel.match_expressions@.len(),
            forall|j: int|
                0 <= j < sel.match_labels@.len() ==> assoc_lookup(
                    labels@,
                    (#[trigger] sel.match_labels@[j]).0@,
                ) == Some(sel.match_labels@[j].1@),
            forall|j: int| 0 <= j < m ==> lsr_matches(labels@, #[trigger] sel.match_expressions@[j]),
        decreases sel.match_expressions@.len() - m,
    {
        if !lsr_check(labels, &sel.match_expressions[m]) {
            return false;
        }
        m = m + 1;
    }
    true
}

fn term_hits_check(node: &CachedNodeInfo, term: &PodAffinityTerm) -> (r: bool)
    ensures
        r == term_hits_node(*node, *term),
{
    let mut p: usize = 0;
    while p < node.placed_pod_labels.len()
        invariant
            p <= node.placed_pod_labels@.len(),
            forall|j: int|
                0 <= j < p ==> !pod_selector_matches(
                    (#[trigger] node.placed_pod_labels@[j]).labels@,
                    term.label_selector,
                ),
        decreases node.placed_pod_labels@.len() - p,
    {
        if pod_selector_check(&node.placed_pod_labels[p].labels, &term.label_selector) {
            return true;
        }
        p = p + 1;
    }
    false
}

fn pod_affinity_score(node: &CachedNodeInfo, pod: &PendingPod) -> (r: u64)
    ensures
        r == pod_affinity_score_pm(*node, *pod),
        r <= 1000,
{
    if pod.pod_affinity.is_none() && pod.pod_anti_affinity.is_none() {
        return 500;
    }
    let mut acc: i128 = 0;
    match &pod.pod_affinity {
        Some(a) => {
            let mut i: usize = 0;
            while i < a.preferred.len()
                invariant
                    i <= a.preferred@.len(),
                    acc == pod_aff_sum(*node, a.preferred@.take(i as int)),
                    -21474836480 * (i as int) <= acc <= 21474836480 * (i as int),
                decreases a.preferred@.len() - i,
            {
                proof {
                    let t1 = a.preferred@.take(i + 1);
                    assert(t1.drop_last() =~= a.preferred@.take(i as int));
                    assert(t1.last() == a.preferred@[i as int]);
                }
                if term_hits_check(node, &a.preferred[i].pod_affinity_term) {
                    acc = acc + (a.preferred[i].weight as i128) * 10;
                }
                i = i + 1;
            }
            proof {
                assert(a.preferred@.take(a.preferred@.len() as int) =~= a.preferred@);
            }
        },
        None => {},
    }
    let ghost aff_part = acc;
    let mut anti: i128 = 0;
    match &pod.pod_anti_affinity {
        Some(a) => {
            let mut i: usize = 0;
            while i < a.preferred.len()
                invariant
                    i <= a.preferred@.len(),
                    anti == pod_anti_sum(*node, a.preferred@.take(i as int)),
                    -21474836480 * (i as int) <= anti <= 21474836480 * (i as int),
            decreases a.preferred@.len() - i,
            {
                proof {
                    let t1 = a.preferred@.take(i + 1);
                    assert(t1.drop_last() =~= a.preferred@.take(i as int));
                    assert(t1.last() == a.preferred@[i as int]);
                }
                if !term_hits_check(node, &a.preferred[i].pod_affinity_term) {
                    anti = anti + (a.preferred[i].weight as i128) * 10;
                }
                i = i + 1;
            }
            proof {
                assert(a.preferred@.take(a.preferred@.len() as int) =~= a.preferred@);
            }
        },
        None => {},
    }
    clamp_band(acc + anti)
}

fn load_score(node: &CachedNodeInfo) -> (r: u64)
    ensures
        r == load_score_pm(*node),
        r <= 1000,
{
    if node.pod_count >= 110 {
        0
    } else {
        1000 - (node.pod_count as u64) * 1000 / 110
    }
}

fn condition_score(node: &CachedNodeInfo) -> (r: u64)
    ensures
        r == condition_score_pm(*node),
        r <= 1000,
{
    let mut p: u64 = 0;
    if !node.conditions.ready {
        p = p + 800;
    }
    if node.conditions.memory_pressure {
        p = p + 200;
    }
    if node.conditions.disk_pressure {
        p = p + 200;
    }
    if node.conditions.pid_pressure {
        p = p + 100;
    }
    if p >= 1000 {
        0
    } else {
        1000 - p
    }
}

/// The total placement score of a node for a pod, in milli-points.
pub fn score_node(node: &CachedNodeInfo, pod: &PendingPod, target: u64) -> (r: u64)
    requires
        target <= 1000,
    ensures
        r == total_score(*node, *pod, target as int),
        r <= 100000,
{
    let rs = resource_score(node, &pod.resources, target);
    let na = node_affinity_score(node, pod);
    let pa = pod_affinity_score(node, pod);
    let ls = load_score(node);
    let cs = condition_score(node);
    rs * 40 + na * 20 + pa * 20 + ls * 10 + cs * 10
}

// ---------------------------------------------------------------------
// Score monotonicity laws.

/// A dimension whose utilization ratio sits no farther from the target
/// scores at least as high.
pub proof fn lemma_dim_score_monotone(r1: int, a1: int, r2: int, a2: int, target: int)
    requires
        ({
            let d1 = dim_ratio_pm(r1, a1) - target;
            let d2 = dim_ratio_pm(r2, a2) - target;
            (if d1 < 0 {
                -d1
            } else {
                d1
            }) <= (if d2 < 0 {
                -d2
            } else {
                d2
            })
        }),
    ensures
        dim_score_pm(r1, a1, target) >= dim_score_pm(r2, a2, target),
{
}

/// All else equal, a node whose resource ratios sit closer to the target
/// utilization in every dimension scores at least as high overall.
pub proof fn lemma_score_monotone(n1: CachedNodeInfo, n2: CachedNodeInfo, pod: PendingPod, target: int)
    requires
        dim_score_pm(pod.resources.cpu_request as int, n1.available_cpu as int, target)
            >= dim_score_pm(pod.resources.cpu_request as int, n2.available_cpu as int, target),
        dim_score_pm(pod.resources.memory_request as int, n1.available_memory as int, target)
            >= dim_score_pm(
            pod.resources.memory_request as int,
            n2.available_memory as int,
            target,
        ),
        dim_score_pm(pod.resources.storage_request as int, n1.available_storage as int, target)
            >= dim_score_pm(
            pod.resources.storage_request as int,
            n2.available_storage as int,
            target,
        ),
        node_affinity_score_pm(n1, pod) == node_affinity_score_pm(n2, pod),
        pod_affinity_score_pm(n1, pod) == pod_affinity_score_pm(n2, pod),
        load_score_pm(n1) == load_score_pm(n2),
        condition_score_pm(n1) == condition_score_pm(n2),
    ensures
        total_score(n1, pod, target) >= total_score(n2, pod, target),
{
}

// ---------------------------------------------------------------------
// Caches, queue and the engine.

/// The node cache: one entry per node name, refreshed from the store and
/// adjusted on every placement.
pub struct NodeResourceCache {
    pub nodes: Vec<CachedNodeInfo>,
    /// Clock reading of the last full refresh, microseconds.
    pub last_update: u64,
}

impl NodeResourceCache {
    /// Every node name appears at most once.
    pub open spec fn wf(&self) -> bool {
        forall|i: int, j: int|
            0 <= i < j < self.nodes@.len() ==> self.nodes@[i].name@ != self.nodes@[j].name@
    }

    pub open spec fn spec_has_node(&self, name: Seq<char>) -> bool {
        exists|i: int| 0 <= i < self.nodes@.len() && self.nodes@[i].name@ == name
    }

    pub open spec fn node_idx(&self, name: Seq<char>) -> int {
        choose|i: int| 0 <= i < self.nodes@.len() && self.nodes@[i].name@ == name
    }

    pub open spec fn node_at(&self, name: Seq<char>) -> CachedNodeInfo {
        self.nodes@[self.node_idx(name)]
    }

    pub fn new() -> (r: Self)
        ensures
            r.wf(),
            r.nodes@.len() == 0,
            r.last_update == 0,
    {
        NodeResourceCache { nodes: Vec::new(), last_update: 0 }
    }

    /// The position of the named node, if cached.
    fn find(&self, name: &str) -> (r: Option<usize>)
        requires
            self.wf(),
        ensures
            match r {
                Some(i) => i < self.nodes@.len() && self.nodes@[i as int].name@ == name@
                    && self.spec_has_node(name@) && self.node_idx(name@) == i as int,
                None => !self.spec_has_node(name@),
            },
    {
        let mut i: usize = 0;
        while i < self.nodes.len()
            invariant
                self.wf(),
                i <= self.nodes@.len(),
                forall|j: int| 0 <= j < i ==> self.nodes@[j].name@ != name@,
            decreases self.nodes@.len() - i,
        {
            if str_eq(self.nodes[i].name.as_str(), name) {
                proof {
                    assert forall|j: int|
                        0 <= j < self.nodes@.len() && self.nodes@[j].name@ == name@ implies j
                        == i as int by {
                        if j != i as int {
                            assert(self.nodes@[j].name@ != self.nodes@[i as int].name@);
                        }
                    }
                }
                return Some(i);
            }
            i = i + 1;
        }
        None
    }
}

/// The queue of work units awaiting placement, in three priority bands.
pub struct SchedulingQueue {
    pub high_priority: Vec<PendingPod>,
    pub normal_priority: Vec<PendingPod>,
    pub low_priority: Vec<PendingPod>,
    pub failed_pods: Vec<(PendingPod, u32)>,
}

/// The band a pod's integer priority selects.
pub open spec fn priority_band(p: i32) -> int {
    if p > 1000 {
        2
    } else if p < -1000 {
        0
    } else {
        1
    }
}

impl SchedulingQueue {
    pub fn new() -> (r: Self)
        ensures
            r.high_priority@.len() == 0,
            r.normal_priority@.len() == 0,
            r.low_priority@.len() == 0,
            r.failed_pods@.len() == 0,
    {
        SchedulingQueue {
            high_priority: Vec::new(),
            normal_priority: Vec::new(),
            low_priority: Vec::new(),
            failed_pods: Vec::new(),
        }
    }

    /// File a pod at the back of the band its priority selects.
    pub fn add_pod(&mut self, pod: PendingPod)
        ensures
            priority_band(pod.priority) == 2 ==> final(self).high_priority@ == old(self).high_priority@.push(pod) && final(self).normal_priority == old(self).normal_priority
                && final(self).low_priority == old(self).low_priority,
            priority_band(pod.priority) == 1 ==> final(self).normal_priority@ == old(self).normal_priority@.push(pod) && final(self).high_priority == old(self).high_priority
                && final(self).low_priority == old(self).low_priority,
            priority_band(pod.priority) == 0 ==> final(self).low_priority@ == old(self).low_priority@.push(pod) && final(self).high_priority == old(self).high_priority
                && final(self).normal_priority == old(self).normal_priority,
            final(self).failed_pods == old(self).failed_pods,
    {
        if pod.priority > 1000 {
            self.high_priority.push(pod);
        } else if pod.priority < -1000 {
            self.low_priority.push(pod);
        } else {
            self.normal_priority.push(pod);
        }
    }

    /// Hand out the frontmost pod of the highest non-empty band.
    pub fn get_next_pod(&mut self) -> (r: Option<PendingPod>)
        ensures
            old(self).high_priority@.len() > 0 ==> r == Some(old(self).high_priority@[0]) && final(self).high_priority@ == old(self).high_priority@.skip(1) && final(self).normal_priority
                == old(self).normal_priority && final(self).low_priority == old(self).low_priority,
            old(self).high_priority@.len() == 0 && old(self).normal_priority@.len() > 0 ==> r
                == Some(old(self).normal_priority@[0]) && final(self).normal_priority@ == old(self).normal_priority@.skip(1) && final(self).high_priority == old(self).high_priority
                && final(self).low_priority == old(self).low_priority,
            old(self).high_priority@.len() == 0 && old(self).normal_priority@.len() == 0 && old(self).low_priority@.len() > 0 ==> r == Some(old(self).low_priority@[0]) && final(self).low_priority@ == old(self).low_priority@.skip(1) && final(self).high_priority == old(self).high_priority && final(self).normal_priority == old(self).normal_priority,
            old(self).high_priority@.len() == 0 && old(self).normal_priority@.len() == 0 && old(self).low_priority@.len() == 0 ==> r is None && *final(self) == *old(self),
            final(self).failed_pods == old(self).failed_pods,
    {
        if self.high_priority.len() > 0 {
            let pod = self.high_priority.remove(0);
            proof {
                assert(self.high_priority@ =~= old(self).high_priority@.skip(1));
            }
            return Some(pod);
        }
        if self.normal_priority.len() > 0 {
            let pod = self.normal_priority.remove(0);
            proof {
                assert(self.normal_priority@ =~= old(self).normal_priority@.skip(1));
            }
            return Some(pod);
        }
        if self.low_priority.len() > 0 {
            let pod = self.low_priority.remove(0);
            proof {
                assert(self.low_priority@ =~= old(self).low_priority@.skip(1));
            }
            return Some(pod);
        }
        None
    }
}

/// Whether a pod states no placement constraints beyond its headline
/// request: no tolerations, no affinities, no extended resources. Only
/// such pods take part in decision caching, so two pods sharing a
/// signature agree on their whole constraint set.
pub open spec fn plain_pod(pod: PendingPod) -> bool {
    &&& pod.tolerations@.len() == 0
    &&& pod.node_affinity is None
    &&& pod.pod_affinity is None
    &&& pod.pod_anti_affinity is None
    &&& pod.resources.extended_resources@.len() == 0
}

/// The signature a decision is cached under: the headline resource
/// request and the priority. Constrained pods are never cached (see
/// `plain_pod`), so the signature determines the constraint set.
#[derive(Clone, Copy, Debug, PartialEq, Eq, Structural)]
pub struct PodSignature {
    pub cpu: i64,
    pub memory: i64,
    pub storage: i64,
    pub priority: i32,
}

/// The signature of a pod.
pub open spec fn sig_of(pod: PendingPod) -> PodSignature {
    PodSignature {
        cpu: pod.resources.cpu_request,
        memory: pod.resources.memory_request,
        storage: pod.resources.storage_request,
        priority: pod.priority,
    }
}

/// A cached placement decision.
pub struct CachedDecision {
    pub node: String,
    pub score: u64,
    /// Clock reading when the decision was made, microseconds.
    pub timestamp: u64,
}

/// The decision cache: signatures to decisions, bounded, entries aging
/// out after the configured TTL.
pub struct DecisionCache {
    pub decisions: Vec<(PodSignature, CachedDecision)>,
    /// Time to live, microseconds.
    pub ttl: u64,
    pub max_size: usize,
}

impl DecisionCache {
    pub fn new(ttl: u64, max_size: usize) -> (r: Self)
        ensures
            r.decisions@.len() == 0,
            r.ttl == ttl,
            r.max_size == max_size,
    {
        DecisionCache { decisions: Vec::new(), ttl, max_size }
    }

    /// The first fresh entry under the signature at time `now`, if any.
    pub fn get(&self, sig: &PodSignature, now: u64) -> (r: Option<usize>)
        ensures
            match r {
                Some(i) => i < self.decisions@.len() && self.decisions@[i as int].0 == *sig && now
                    - self.decisions@[i as int].1.timestamp < self.ttl,
                None => forall|i: int|
                    0 <= i < self.decisions@.len() && (#[trigger] self.decisions@[i]).0 == *sig
                        ==> !(now - self.decisions@[i].1.timestamp < self.ttl),
            },
    {
        let mut i: usize = 0;
        while i < self.decisions.len()
            invariant
                i <= self.decisions@.len(),
                forall|j: int|
                    0 <= j < i && (#[trigger] self.decisions@[j]).0 == *sig ==> !(now
                        - self.decisions@[j].1.timestamp < self.ttl),
            decreases self.decisions@.len() - i,
        {
            let hit = self.decisions[i].0.cpu == sig.cpu && self.decisions[i].0.memory
                == sig.memory && self.decisions[i].0.storage == sig.storage
                && self.decisions[i].0.priority == sig.priority;
            if hit {
                let ts = self.decisions[i].1.timestamp;
                // A timestamp ahead of the clock counts as fresh.
                let fresh = if now >= ts {
                    now - ts < self.ttl
                } else {
                    true
                };
                if fresh {
                    return Some(i);
                }
            }
            i = i + 1;
        }
        None
    }

    /// Memoize a decision, evicting the oldest entry when full. A zero
    /// capacity disables the cache: nothing is stored.
    pub fn put(&mut self, sig: PodSignature, decision: CachedDecision)
        ensures
            final(self).ttl == old(self).ttl,
            final(self).max_size == old(self).max_size,
            old(self).max_size == 0 ==> *final(self) == *old(self),
            old(self).decisions@.len() < old(self).max_size ==> final(self).decisions@ == old(self).decisions@.push((sig, decision)),
            old(self).max_size > 0 && old(self).decisions@.len() >= old(self).max_size ==> final(self).decisions@ == old(self).decisions@.skip(1).push((sig, decision)),
            old(self).max_size > 0 ==> final(self).decisions@.len() > 0 && final(self).decisions@.last() == (sig, decision),
            old(self).decisions@.len() <= old(self).max_size ==> final(self).decisions@.len()
                <= old(self).max_size,
    {
        if self.max_size == 0 {
            return;
        }
        if self.decisions.len() >= self.max_size {
            let ghost pre = self.decisions@;
            let _ = self.decisions.remove(0);
            proof {
                assert(self.decisions@ =~= pre.skip(1));
            }
        }
        self.decisions.push((sig, decision));
    }
}

/// The affinity rule caches (kept warm by the refresh worker).
pub struct AffinityCache {
    pub node_affinities: Vec<(String, NodeAffinity)>,
    pub pod_affinities: Vec<(String, PodAffinity)>,
}

impl AffinityCache {
    pub fn new() -> (r: Self)
        ensures
            r.node_affinities@.len() == 0,
            r.pod_affinities@.len() == 0,
    {
        AffinityCache { node_affinities: Vec::new(), pod_affinities: Vec::new() }
    }
}

/// Placement throughput and latency counters.
#[derive(Clone, Copy, Debug, PartialEq, Eq, Structural)]
pub struct SchedulerMetrics {
    pub total_schedules: u64,
    pub successful_schedules: u64,
    pub failed_schedules: u64,
    pub avg_schedule_time: u64,
    pub peak_schedule_time: u64,
    pub cache_hit_ratio: u64,
    pub pending_pods: u64,
    pub nodes_per_second: u64,
}

impl SchedulerMetrics {
    pub open spec fn zero() -> SchedulerMetrics {
        SchedulerMetrics {
            total_schedules: 0,
            successful_schedules: 0,
            failed_schedules: 0,
            avg_schedule_time: 0,
            peak_schedule_time: 0,
            cache_hit_ratio: 0,
            pending_pods: 0,
            nodes_per_second: 0,
        }
    }
}

/// Placement engine configuration. Durations are microseconds.
pub struct SchedulerConfig {
    pub cache_refresh_interval: u64,
    pub decision_cache_ttl: u64,
    pub max_cache_size: usize,
    pub max_queue_size: usize,
    pub max_schedule_time: u64,
    pub enable_affinity_cache: bool,
    pub enable_decision_cache: bool,
    pub worker_threads: usize,
    /// Target utilization in per-mille of capacity.
    pub target_utilization_pm: u64,
    /// Stop searching once a candidate reaches this score (milli-points).
    pub ideal_score: u64,
}

impl Default for SchedulerConfig {
    fn default() -> (r: Self)
        ensures
            r.cache_refresh_interval == 100000,
            r.decision_cache_ttl == 30000000,
            r.max_cache_size == 10000,
            r.max_queue_size == 10000,
            r.max_schedule_time == 5000,
            r.enable_affinity_cache == true,
            r.enable_decision_cache == true,
            r.worker_threads == 4,
            r.target_utilization_pm == 700,
            r.ideal_score == 100000,
    {
        SchedulerConfig {
            cache_refresh_interval: 100000,
            decision_cache_ttl: 30000000,
            max_cache_size: 10000,
            max_queue_size: 10000,
            max_schedule_time: 5000,
            enable_affinity_cache: true,
            enable_decision_cache: true,
            worker_threads: 4,
            target_utilization_pm: 700,
            ideal_score: 100000,
        }
    }
}

/// Events the engine reports to its observers.
pub enum SchedulerEvent {
    PodQueued(PendingPod),
    PodScheduled { pod_id: String, node: String, duration_us: u64 },
    PodFailed { pod_id: String, reason: String },
    NodeUpdated(String),
    NodeRemoved(String),
}

/// The outcome of one placement call.
pub struct SchedulingResult {
    pub pod_id: String,
    pub node: Option<String>,
    pub score: u64,
    pub duration_us: u64,
    pub reason: Option<String>,
}

/// The placement engine.
pub struct TeeScheduler {
    pub node_cache: NodeResourceCache,
    pub scheduling_queue: SchedulingQueue,
    pub decision_cache: DecisionCache,
    pub affinity_cache: AffinityCache,
    pub metrics: SchedulerMetrics,
    pub config: SchedulerConfig,
}

impl TeeScheduler {
    pub open spec fn wf(&self) -> bool {
        &&& self.node_cache.wf()
        &&& self.config.target_utilization_pm <= 1000
    }

    /// Create an engine with the default configuration.
    pub fn new() -> (r: Self)
        ensures
            r.wf(),
            r.node_cache.nodes@.len() == 0,
            r.metrics == SchedulerMetrics::zero(),
    {
        Self::with_config(SchedulerConfig::default())
    }

    /// Create an engine with the given configuration; a target utilization
    /// above full capacity is clamped to it.
    pub fn with_config(config: SchedulerConfig) -> (r: Self)
        ensures
            r.wf(),
            r.node_cache.nodes@.len() == 0,
            r.metrics == SchedulerMetrics::zero(),
            config.target_utilization_pm <= 1000 ==> r.config == config,
    {
        let target: u64 = if config.target_utilization_pm <= 1000 {
            config.target_utilization_pm
        } else {
            1000
        };
        let cfg = SchedulerConfig { target_utilization_pm: target, ..config };
        TeeScheduler {
            node_cache: NodeResourceCache::new(),
            scheduling_queue: SchedulingQueue::new(),
            decision_cache: DecisionCache::new(cfg.decision_cache_ttl, cfg.max_cache_size),
            affinity_cache: AffinityCache::new(),
            metrics: SchedulerMetrics {
                total_schedules: 0,
                successful_schedules: 0,
                failed_schedules: 0,
                avg_schedule_time: 0,
                peak_schedule_time: 0,
                cache_hit_ratio: 0,
                pending_pods: 0,
                nodes_per_second: 0,
            },
            config: cfg,
        }
    }

    /// Install or replace a node in the cache.
    pub fn update_node(&mut self, info: CachedNodeInfo)
        requires
            old(self).wf(),
        ensures
            final(self).wf(),
            final(self).node_cache.spec_has_node(info.name@),
            final(self).node_cache.node_at(info.name@) == info,
            forall|n: Seq<char>|
                n != info.name@ ==> (#[trigger] final(self).node_cache.spec_has_node(n) == old(self).node_cache.spec_has_node(n) && (old(self).node_cache.spec_has_node(n) ==> final(self).node_cache.node_at(n) == old(self).node_cache.node_at(n))),
            final(self).scheduling_queue == old(self).scheduling_queue,
            final(self).decision_cache == old(self).decision_cache,
            final(self).metrics == old(self).metrics,
            final(self).config == old(self).config,
    {
        let ghost pre = self.node_cache.nodes@;
        let found = self.node_cache.find(info.name.as_str());
        let ghost name_v = info.name@;
        match found {
            Some(i) => {
                let _ = self.node_cache.nodes.remove(i);
                proof {
                    let mid = self.node_cache.nodes@;
                    assert forall|a: int, b: int| 0 <= a < b < mid.len() implies mid[a].name@
                        != mid[b].name@ by {
                        let a0 = if a < i as int { a } else { a + 1 };
                        let b0 = if b < i as int { b } else { b + 1 };
                        assert(mid[a] == pre[a0] && mid[b] == pre[b0]);
                    }
                    assert forall|j: int| 0 <= j < mid.len() implies mid[j].name@ != name_v by {
                        let j0 = if j < i as int { j } else { j + 1 };
                        assert(mid[j] == pre[j0]);
                        if j0 != i as int {
                            assert(pre[j0].name@ != pre[i as int].name@);
                        }
                    }
                }
            },
            None => {},
        }
        let ghost mid = self.node_cache.nodes@;
        self.node_cache.nodes.push(info);
        proof {
            let fin = self.node_cache.nodes@;
            assert(fin[fin.len() - 1] == info);
            assert forall|a: int, b: int| 0 <= a < b < fin.len() implies fin[a].name@
                != fin[b].name@ by {
                if b == fin.len() - 1 {
                    assert(fin[a] == mid[a]);
                } else {
                    assert(fin[a] == mid[a] && fin[b] == mid[b]);
                }
            }
            assert(final(self).node_cache.spec_has_node(name_v)) by {
                assert(fin[fin.len() - 1].name@ == name_v);
            }
            assert(final(self).node_cache.node_at(name_v) == info) by {
                let j = self.node_cache.node_idx(name_v);
                if j != fin.len() - 1 {
                    assert(fin[j] == mid[j]);
                    assert(mid[j].name@ != name_v);
                }
            }
            assert forall|n: Seq<char>| n != name_v implies (#[trigger] final(self).node_cache.spec_has_node(n) == old(self).node_cache.spec_has_node(n) && (old(self).node_cache.spec_has_node(n) ==> final(self).node_cache.node_at(n) == old(self).node_cache.node_at(n))) by {
                if old(self).node_cache.spec_has_node(n) {
                    let j0 = old(self).node_cache.node_idx(n);
                    assert(0 <= j0 < pre.len() && pre[j0].name@ == n);
                    let j1 = if (match found {
                        Some(i) => j0 < i as int,
                        None => true,
                    }) {
                        j0
                    } else {
                        j0 - 1
                    };
                    assert(fin[j1] == pre[j0]);
                    assert(final(self).node_cache.spec_has_node(n));
                    let j2 = final(self).node_cache.node_idx(n);
                    if j2 != j1 {
                        assert(fin[j2].name@ != fin[j1].name@);
                        assert(false);
                    }
                }
                if final(self).node_cache.spec_has_node(n) {
                    let j2 = final(self).node_cache.node_idx(n);
                    assert(0 <= j2 < fin.len() && fin[j2].name@ == n);
                    assert(j2 != fin.len() - 1);
                    assert(fin[j2] == mid[j2]);
                    let j0 = if (match found {
                        Some(i) => j2 < i as int,
                        None => true,
                    }) {
                        j2
                    } else {
                        j2 + 1
                    };
                    assert(mid[j2] == pre[j0]);
                    assert(old(self).node_cache.spec_has_node(n));
                }
            }
        }
    }

    /// Drop a node from the cache.
    pub fn remove_node(&mut self, name: &str)
        requires
            old(self).wf(),
        ensures
            final(self).wf(),
            !final(self).node_cache.spec_has_node(name@),
            forall|n: Seq<char>|
                n != name@ ==> (#[trigger] final(self).node_cache.spec_has_node(n) == old(self).node_cache.spec_has_node(n)),
            final(self).metrics == old(self).metrics,
            final(self).config == old(self).config,
    {
        let ghost pre = self.node_cache.nodes@;
        let found = self.node_cache.find(name);
        match found {
            Some(i) => {
                let _ = self.node_cache.nodes.remove(i);
                proof {
                    let mid = self.node_cache.nodes@;
                    assert forall|a: int, b: int| 0 <= a < b < mid.len() implies mid[a].name@
                        != mid[b].name@ by {
                        let a0 = if a < i as int { a } else { a + 1 };
                        let b0 = if b < i as int { b } else { b + 1 };
                        assert(mid[a] == pre[a0] && mid[b] == pre[b0]);
                    }
                    assert forall|j: int| 0 <= j < mid.len() implies mid[j].name@ != name@ by {
                        let j0 = if j < i as int { j } else { j + 1 };
                        assert(mid[j] == pre[j0]);
                        if j0 != i as int {
                            assert(pre[j0].name@ != pre[i as int].name@);
                        }
                    }
                    assert forall|n: Seq<char>| n != name@ implies (#[trigger] self.node_cache.spec_has_node(
                        n,
                    ) == old(self).node_cache.spec_has_node(n)) by {
                        if old(self).node_cache.spec_has_node(n) {
                            let j0 = old(self).node_cache.node_idx(n);
                            assert(j0 != i as int);
                            let j1 = if j0 < i as int { j0 } else { j0 - 1 };
                            assert(mid[j1] == pre[j0]);
                        }
                        if self.node_cache.spec_has_node(n) {
                            let j1 = self.node_cache.node_idx(n);
                            let j0 = if j1 < i as int { j1 } else { j1 + 1 };
                            assert(mid[j1] == pre[j0]);
                        }
                    }
                }
            },
            None => {},
        }
    }

    /// The best feasible node for the pod: the one with the highest total
    /// score, ties resolved by ascending node name. `None` exactly when no
    /// cached node is feasible.
    pub fn find_best_node(&self, pod: &PendingPod) -> (r: Option<(String, u64)>)
        requires
            self.wf(),
        ensures
            match r {
                None => forall|i: int|
                    0 <= i < self.node_cache.nodes@.len() ==> !feasible(
                        #[trigger] self.node_cache.nodes@[i],
                        *pod,
                    ),
                Some(best) => {
                    &&& exists|i: int|
                        0 <= i < self.node_cache.nodes@.len() && (#[trigger] self.node_cache.nodes@[i]).name@
                            == best.0@ && feasible(self.node_cache.nodes@[i], *pod)
                            && best.1 == total_score(
                            self.node_cache.nodes@[i],
                            *pod,
                            self.config.target_utilization_pm as int,
                        )
                    &&& forall|j: int|
                        0 <= j < self.node_cache.nodes@.len() && feasible(
                            #[trigger] self.node_cache.nodes@[j],
                            *pod,
                        ) ==> total_score(
                            self.node_cache.nodes@[j],
                            *pod,
                            self.config.target_utilization_pm as int,
                        ) < best.1 || (total_score(
                            self.node_cache.nodes@[j],
                            *pod,
                            self.config.target_utilization_pm as int,
                        ) == best.1 && (best.0@ == self.node_cache.nodes@[j].name@ || lex_lt(
                            best.0@,
                            self.node_cache.nodes@[j].name@,
                        )))
                },
            },
    {
        let ghost nodes = self.node_cache.nodes@;
        let ghost target = self.config.target_utilization_pm as int;
        let mut best: Option<usize> = None;
        let mut best_score: u64 = 0;
        let mut i: usize = 0;
        while i < self.node_cache.nodes.len()
            invariant
                self.wf(),
                nodes == self.node_cache.nodes@,
                target == self.config.target_utilization_pm as int,
                i <= nodes.len(),
                match best {
                    None => forall|j: int| 0 <= j < i ==> !feasible(#[trigger] nodes[j], *pod),
                    Some(b) => {
                        &&& (b as int) < i
                        &&& feasible(nodes[b as int], *pod)
                        &&& best_score == total_score(nodes[b as int], *pod, target)
                        &&& forall|j: int|
                            0 <= j < i && feasible(#[trigger] nodes[j], *pod) ==> total_score(
                                nodes[j],
                                *pod,
                                target,
                            ) < best_score || (total_score(nodes[j], *pod, target) == best_score
                                && (nodes[b as int].name@ == nodes[j].name@ || lex_lt(
                                nodes[b as int].name@,
                                nodes[j].name@,
                            )))
                    },
                },
            decreases nodes.len() - i,
        {
            let ghost prev_best = best;
            let ghost prev_score = best_score;
            if is_feasible(&self.node_cache.nodes[i], pod) {
                let sc = score_node(
                    &self.node_cache.nodes[i],
                    pod,
                    self.config.target_utilization_pm,
                );
                let replace: bool = match best {
                    None => true,
                    Some(b) => sc > best_score || (sc == best_score && str_lt(
                        self.node_cache.nodes[i].name.as_str(),
                        self.node_cache.nodes[b].name.as_str(),
                    )),
                };
                if replace {
                    best = Some(i);
                    best_score = sc;
                }
                proof {
                    match best {
                        Some(nb) => {
                            assert forall|j: int|
                                0 <= j < i + 1 && feasible(#[trigger] nodes[j], *pod) implies total_score(
                                nodes[j],
                                *pod,
                                target,
                            ) < best_score || (total_score(nodes[j], *pod, target) == best_score
                                && (nodes[nb as int].name@ == nodes[j].name@ || lex_lt(
                                nodes[nb as int].name@,
                                nodes[j].name@,
                            ))) by {
                                if j == i as int {
                                    if !replace {
                                        let pb = prev_best->Some_0;
                                        crate::util::lemma_lex_lt_total(
                                            nodes[i as int].name@,
                                            nodes[pb as int].name@,
                                        );
                                    }
                                } else {
                                    if replace && prev_best is Some {
                                        let pb = prev_best->Some_0;
                                        if total_score(nodes[j], *pod, target) == best_score
                                            && nodes[pb as int].name@ != nodes[j].name@ && sc
                                            == prev_score {
                                            if lex_lt(nodes[pb as int].name@, nodes[j].name@) {
                                                crate::util::lemma_lex_lt_trans(
                                                    nodes[i as int].name@,
                                                    nodes[pb as int].name@,
                                                    nodes[j].name@,
                                                );
                                            }
                                        }
                                    }
                                }
                            }
                        },
                        None => {},
                    }
                }
            }
            i = i + 1;
        }
        match best {
            Some(b) => Some((self.node_cache.nodes[b].name.clone(), best_score)),
            None => None,
        }
    }
}

/// Saturating i64 subtraction.
fn sat_sub_exec(a: i64, b: i64) -> (r: i64)
    ensures
        r == sub_sat_i64(a as int, b as int),
{
    let wide: i128 = (a as i128) - (b as i128);
    if wide > (i64::MAX as i128) {
        i64::MAX
    } else if wide < (i64::MIN as i128) {
        i64::MIN
    } else {
        wide as i64
    }
}

impl TeeScheduler {
    /// The signature a pod's decision is cached under.
    pub fn generate_pod_signature(pod: &PendingPod) -> (r: PodSignature)
        ensures
            r == sig_of(*pod),
    {
        PodSignature {
            cpu: pod.resources.cpu_request,
            memory: pod.resources.memory_request,
            storage: pod.resources.storage_request,
            priority: pod.priority,
        }
    }

    /// Subtract the placed pod's request from the chosen node and count
    /// the pod, leaving every other node alone.
    fn allocate_resources(&mut self, node_name: &str, resources: &ResourceRequirements)
        requires
            old(self).wf(),
            forall|i: int|
                0 <= i < old(self).node_cache.nodes@.len() && (#[trigger] old(self).node_cache.nodes@[i]).name@ == node_name@ ==> has_sufficient_resources(
                    old(self).node_cache.nodes@[i],
                    *resources,
                ),
        ensures
            final(self).wf(),
            final(self).config == old(self).config,
            final(self).metrics == old(self).metrics,
            final(self).decision_cache == old(self).decision_cache,
            !old(self).node_cache.spec_has_node(node_name@) ==> final(self).node_cache == old(self).node_cache,
            old(self).node_cache.spec_has_node(node_name@) ==> ({
                let before = old(self).node_cache.node_at(node_name@);
                let after = final(self).node_cache.node_at(node_name@);
                &&& final(self).node_cache.spec_has_node(node_name@)
                &&& after.available_cpu == sub_sat_i64(
                    before.available_cpu as int,
                    resources.cpu_request as int,
                )
                &&& after.available_memory == sub_sat_i64(
                    before.available_memory as int,
                    resources.memory_request as int,
                )
                &&& after.available_storage == sub_sat_i64(
                    before.available_storage as int,
                    resources.storage_request as int,
                )
                &&& after.pod_count == (if before.pod_count == u32::MAX {
                    u32::MAX
                } else {
                    (before.pod_count + 1) as u32
                })
                &&& after.name@ == before.name@
                &&& (forall|n: Seq<char>|
                    n != node_name@ ==> (#[trigger] final(self).node_cache.spec_has_node(n) == old(self).node_cache.spec_has_node(n) && (old(self).node_cache.spec_has_node(n)
                        ==> final(self).node_cache.node_at(n) == old(self).node_cache.node_at(
                        n,
                    ))))
            }),
    {
        let ghost pre = self.node_cache.nodes@;
        let found = self.node_cache.find(node_name);
        match found {
            Some(i) => {
                let mut node = self.node_cache.nodes.remove(i);
                proof {
                    assert(has_sufficient_resources(pre[i as int], *resources));
                }
                node.available_cpu = sat_sub_exec(node.available_cpu, resources.cpu_request);
                node.available_memory = sat_sub_exec(
                    node.available_memory,
                    resources.memory_request,
                );
                node.available_storage = sat_sub_exec(
                    node.available_storage,
                    resources.storage_request,
                );
                if node.pod_count < u32::MAX {
                    node.pod_count = node.pod_count + 1;
                }
                node.updated_at = now_micros();
                let ghost mid = self.node_cache.nodes@;
                self.node_cache.nodes.push(node);
                proof {
                    let fin = self.node_cache.nodes@;
                    let name_v = node_name@;
                    assert forall|a: int| 0 <= a < mid.len() implies mid[a].name@ != name_v by {
                        let a0 = if a < i as int { a } else { a + 1 };
                        assert(mid[a] == pre[a0]);
                        if a0 != i as int {
                            assert(pre[a0].name@ != pre[i as int].name@);
                        }
                    }
                    assert forall|a: int, b: int| 0 <= a < b < fin.len() implies fin[a].name@
                        != fin[b].name@ by {
                        if b == fin.len() - 1 {
                            let a0 = if a < i as int { a } else { a + 1 };
                            assert(fin[a] == pre[a0]);
                        } else {
                            let a0 = if a < i as int { a } else { a + 1 };
                            let b0 = if b < i as int { b } else { b + 1 };
                            assert(fin[a] == pre[a0] && fin[b] == pre[b0]);
                        }
                    }
                    assert(self.node_cache.spec_has_node(name_v)) by {
                        assert(fin[fin.len() - 1].name@ == name_v);
                    }
                    assert(self.node_cache.node_at(name_v) == fin[fin.len() - 1]) by {
                        let j = self.node_cache.node_idx(name_v);
                        if j != fin.len() - 1 {
                            assert(fin[j] == mid[j]);
                        }
                    }
                    assert(old(self).node_cache.node_at(name_v) == pre[i as int]) by {
                        let j = old(self).node_cache.node_idx(name_v);
                        if j != i as int {
                            assert(pre[j].name@ != pre[i as int].name@);
                        }
                    }
                    assert forall|n: Seq<char>| n != name_v implies (#[trigger] self.node_cache.spec_has_node(
                        n,
                    ) == old(self).node_cache.spec_has_node(n) && (old(self).node_cache.spec_has_node(n) ==> self.node_cache.node_at(n) == old(self).node_cache.node_at(n))) by {
                        if old(self).node_cache.spec_has_node(n) {
                            let j0 = old(self).node_cache.node_idx(n);
                            assert(j0 != i as int);
                            let j1 = if j0 < i as int { j0 } else { j0 - 1 };
                            assert(fin[j1] == pre[j0]);
                            assert(self.node_cache.spec_has_node(n));
                            let j2 = self.node_cache.node_idx(n);
                            if j2 != j1 {
                                assert(fin[j2].name@ != fin[j1].name@);
                                assert(false);
                            }
                        }
                        if self.node_cache.spec_has_node(n) {
                            let j2 = self.node_cache.node_idx(n);
                            assert(j2 != fin.len() - 1);
                            assert(fin[j2] == mid[j2]);
                            let j0 = if j2 < i as int { j2 } else { j2 + 1 };
                            assert(mid[j2] == pre[j0]);
                            assert(old(self).node_cache.spec_has_node(n));
                        }
                    }
                }
            },
            None => {},
        }
    }

    /// Fold one placement into the success counters.
    fn update_metrics_success(&mut self, duration_us: u64)
        ensures
            final(self).metrics.successful_schedules == bump64(
                old(self).metrics.successful_schedules,
            ),
            final(self).metrics.avg_schedule_time == moving_avg(
                old(self).metrics.avg_schedule_time,
                duration_us,
            ),
            final(self).metrics.peak_schedule_time == (if duration_us > old(self).metrics.peak_schedule_time {
                duration_us
            } else {
                old(self).metrics.peak_schedule_time
            }),
            final(self).metrics.total_schedules == old(self).metrics.total_schedules,
            final(self).metrics.failed_schedules == old(self).metrics.failed_schedules,
            final(self).node_cache == old(self).node_cache,
            final(self).scheduling_queue == old(self).scheduling_queue,
            final(self).decision_cache == old(self).decision_cache,
            final(self).config == old(self).config,
    {
        self.metrics.successful_schedules = bump(self.metrics.successful_schedules);
        let wide: u128 = (self.metrics.avg_schedule_time as u128) * 7 + (duration_us as u128);
        self.metrics.avg_schedule_time = (wide / 8) as u64;
        if duration_us > self.metrics.peak_schedule_time {
            self.metrics.peak_schedule_time = duration_us;
        }
    }

    /// Fold one failed placement into the failure counters.
    fn update_metrics_failure(&mut self)
        ensures
            final(self).metrics.failed_schedules == bump64(old(self).metrics.failed_schedules),
            final(self).metrics == (SchedulerMetrics {
                failed_schedules: final(self).metrics.failed_schedules,
                ..old(self).metrics
            }),
            final(self).node_cache == old(self).node_cache,
            final(self).scheduling_queue == old(self).scheduling_queue,
            final(self).decision_cache == old(self).decision_cache,
            final(self).config == old(self).config,
    {
        self.metrics.failed_schedules = bump(self.metrics.failed_schedules);
    }

    /// Place one work unit. A cached decision is served only when the
    /// pod is unconstrained (`plain_pod`), the entry is fresh, and its node
    /// still passes every feasibility predicate; otherwise the best
    /// feasible node is chosen, charged and cached. When no cached node
    /// is feasible, the result names the most common failed filter.
    pub fn schedule_pod(&mut self, pod: PendingPod) -> (r: SchedulingResult)
        requires
            old(self).wf(),
        ensures
            final(self).wf(),
            final(self).config == old(self).config,
            r.pod_id == pod.id,
            // Feasibility-complete: a returned node passed every predicate
            // against the node cache at the call's start, and the score is
            // the node's total score for this pod.
            r.node matches Some(n) ==> exists|i: int|
                0 <= i < old(self).node_cache.nodes@.len() && (#[trigger] old(self).node_cache.nodes@[i]).name@ == n@ && feasible(old(self).node_cache.nodes@[i], pod)
                    && r.score == total_score(
                    old(self).node_cache.nodes@[i],
                    pod,
                    old(self).config.target_utilization_pm as int,
                ),
            // A success is either a served cached decision, whose entry
            // already named the node and which leaves both caches as they
            // were, or a fresh decision: the best feasible node with the
            // ascending-name tie-break, charged on the node cache and
            // cached under the pod's signature.
            r.node matches Some(n) ==> ({
                ||| (final(self).node_cache == old(self).node_cache && final(self).decision_cache
                    == old(self).decision_cache && old(self).config.enable_decision_cache
                    && plain_pod(pod) && exists|i: int|
                    0 <= i < old(self).decision_cache.decisions@.len() && (#[trigger] old(self).decision_cache.decisions@[i]).0 == sig_of(pod) && old(self).decision_cache.decisions@[i].1.node@ == n@)
                ||| ({
                    &&& (forall|j: int|
                        0 <= j < old(self).node_cache.nodes@.len() && feasible(
                            #[trigger] old(self).node_cache.nodes@[j],
                            pod,
                        ) ==> total_score(
                            old(self).node_cache.nodes@[j],
                            pod,
                            old(self).config.target_utilization_pm as int,
                        ) < r.score || (total_score(
                            old(self).node_cache.nodes@[j],
                            pod,
                            old(self).config.target_utilization_pm as int,
                        ) == r.score && (n@ == old(self).node_cache.nodes@[j].name@ || lex_lt(
                            n@,
                            old(self).node_cache.nodes@[j].name@,
                        ))))
                    &&& old(self).node_cache.spec_has_node(n@)
                    &&& final(self).node_cache.spec_has_node(n@)
                    &&& ({
                        let before = old(self).node_cache.node_at(n@);
                        let after = final(self).node_cache.node_at(n@);
                        &&& after.available_cpu == sub_sat_i64(
                            before.available_cpu as int,
                            pod.resources.cpu_request as int,
                        )
                        &&& after.available_memory == sub_sat_i64(
                            before.available_memory as int,
                            pod.resources.memory_request as int,
                        )
                        &&& after.available_storage == sub_sat_i64(
                            before.available_storage as int,
                            pod.resources.storage_request as int,
                        )
                        &&& after.pod_count == (if before.pod_count == u32::MAX {
                            u32::MAX
                        } else {
                            (before.pod_count + 1) as u32
                        })
                    })
                    &&& (forall|m: Seq<char>|
                        m != n@ ==> (#[trigger] final(self).node_cache.spec_has_node(m) == old(self).node_cache.spec_has_node(m) && (old(self).node_cache.spec_has_node(m)
                            ==> final(self).node_cache.node_at(m) == old(self).node_cache.node_at(m))))
                    &&& (old(self).config.enable_decision_cache && plain_pod(pod) && old(self).decision_cache.max_size > 0 ==> final(self).decision_cache.decisions@.len()
                        > 0 && final(self).decision_cache.decisions@.last().0 == sig_of(pod)
                        && final(self).decision_cache.decisions@.last().1.node@ == n@ && final(self).decision_cache.decisions@.last().1.score == r.score)
                })
            }),
            // Unschedulable exactly when no cached node is feasible; then
            // nothing changes, the score is zero, and the reason names the
            // most common failed filter.
            (r.node is None) <==> (forall|i: int|
                0 <= i < old(self).node_cache.nodes@.len() ==> !feasible(
                    #[trigger] old(self).node_cache.nodes@[i],
                    pod,
                )),
            r.node is None ==> final(self).node_cache == old(self).node_cache && final(self).decision_cache == old(self).decision_cache && final(self).scheduling_queue == old(self).scheduling_queue && r.score == 0 && (r.reason matches Some(why) && why@
                == diag_reason(old(self).node_cache.nodes@, pod)),
            final(self).metrics.total_schedules == bump64(old(self).metrics.total_schedules),
    {
        let start = now_micros();
        self.metrics.total_schedules = bump(self.metrics.total_schedules);
        let sig = Self::generate_pod_signature(&pod);
        let plain = pod.tolerations.len() == 0 && pod.node_affinity.is_none()
            && pod.pod_affinity.is_none() && pod.pod_anti_affinity.is_none()
            && pod.resources.extended_resources.len() == 0;
        let cacheable = self.config.enable_decision_cache && plain;

        // Serve a fresh cached decision whose node still qualifies.
        if cacheable {
            match self.decision_cache.get(&sig, start) {
                Some(di) => {
                    let node_name = self.decision_cache.decisions[di].1.node.clone();
                    match self.node_cache.find(node_name.as_str()) {
                        Some(ni) => {
                            if is_feasible(&self.node_cache.nodes[ni], &pod) {
                                let sc = score_node(
                                    &self.node_cache.nodes[ni],
                                    &pod,
                                    self.config.target_utilization_pm,
                                );
                                let duration = op_elapsed(start);
                                self.update_metrics_success(duration);
                                return SchedulingResult {
                                    pod_id: pod.id,
                                    node: Some(node_name),
                                    score: sc,
                                    duration_us: duration,
                                    reason: None,
                                };
                            }
                        },
                        None => {},
                    }
                },
                None => {},
            }
        }

        // Fresh decision.
        match self.find_best_node(&pod) {
            Some(choice) => {
                let node_name = choice.0;
                let sc = choice.1;
                if cacheable {
                    self.decision_cache.put(
                        sig,
                        CachedDecision { node: node_name.clone(), score: sc, timestamp: start },
                    );
                }
                self.allocate_resources(node_name.as_str(), &pod.resources);
                let duration = op_elapsed(start);
                self.update_metrics_success(duration);
                SchedulingResult {
                    pod_id: pod.id,
                    node: Some(node_name),
                    score: sc,
                    duration_us: duration,
                    reason: None,
                }
            },
            None => {
                let why = unschedulable_reason(&self.node_cache.nodes, &pod);
                let duration = op_elapsed(start);
                self.update_metrics_failure();
                SchedulingResult {
                    pod_id: pod.id,
                    node: None,
                    score: 0,
                    duration_us: duration,
                    reason: Some(why),
                }
            },
        }
    }

    /// File a pod in the scheduling queue.
    pub fn queue_pod(&mut self, pod: PendingPod)
        requires
            old(self).wf(),
        ensures
            final(self).wf(),
            final(self).metrics.pending_pods == bump64(old(self).metrics.pending_pods),
            priority_band(pod.priority) == 2 ==> final(self).scheduling_queue.high_priority@ == old(self).scheduling_queue.high_priority@.push(pod),
            priority_band(pod.priority) == 1 ==> final(self).scheduling_queue.normal_priority@
                == old(self).scheduling_queue.normal_priority@.push(pod),
            priority_band(pod.priority) == 0 ==> final(self).scheduling_queue.low_priority@ == old(self).scheduling_queue.low_priority@.push(pod),
            final(self).node_cache == old(self).node_cache,
            final(self).config == old(self).config,
    {
        self.metrics.pending_pods = bump(self.metrics.pending_pods);
        self.scheduling_queue.add_pod(pod);
    }

    /// A copy of the current metrics.
    pub fn get_metrics(&self) -> (r: SchedulerMetrics)
        ensures
            r == self.metrics,
    {
        self.metrics
    }
}

} // verus!
