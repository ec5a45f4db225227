use nautilus_tee::memory_store::{
    ChangeOp, ContinueToken, LabelRequirement, LabelSelector, ObjectMetadata, QueryOptions,
    SelectorOp, StoreConfig, StoreError, TeeMemoryStore,
};

fn meta(kind: &str, ns: Option<&str>, labels: Vec<(&str, &str)>) -> ObjectMetadata {
    ObjectMetadata {
        kind: kind.to_string(),
        namespace: ns.map(|s| s.to_string()),
        labels: labels
            .into_iter()
            .map(|(k, v)| (k.to_string(), v.to_string()))
            .collect(),
        annotations: Vec::new(),
        size: 0,
        checksum: Vec::new(),
    }
}

fn opts() -> QueryOptions {
    QueryOptions {
        namespace: None,
        label_selector: None,
        field_selector: None,
        limit: None,
        continue_token: None,
        resource_version: None,
    }
}

#[test]
fn test_basic_operations() {
    let mut store = TeeMemoryStore::new();
    let metadata = meta("Pod", Some("default"), vec![]);

    let result = store.create_object("pods", "test-pod", b"test data", metadata);
    assert!(result.data.is_ok());
    assert!(result.latency_us < 1000);

    let result = store.get_object("pods", "test-pod");
    assert!(result.latency_us < 500);
    let (bytes, _version) = result.data.expect("object should be present");
    assert_eq!(bytes, b"test data".to_vec());

    let result = store.delete_object("pods", "test-pod");
    assert!(result.data.is_ok());
    assert!(result.latency_us < 500);

    let result = store.get_object("pods", "test-pod");
    assert_eq!(result.data.unwrap_err(), StoreError::NotFound);
}

#[test]
fn test_performance_metrics() {
    let mut store = TeeMemoryStore::new();
    for i in 0..100 {
        let key = format!("pod-{}", i);
        let metadata = meta("Pod", Some("default"), vec![]);
        store.create_object("pods", &key, b"test data", metadata);
    }
    let metrics = store.get_metrics();
    assert_eq!(metrics.operations, 100);
    assert_eq!(metrics.writes, 100);
}

#[test]
fn versions_strictly_increase_across_mutations() {
    let mut store = TeeMemoryStore::new();
    let v1 = store
        .create_object("pods", "a", b"1", meta("Pod", None, vec![]))
        .data
        .unwrap();
    let v2 = store
        .create_object("pods", "b", b"2", meta("Pod", None, vec![]))
        .data
        .unwrap();
    let v3 = store
        .update_object("pods", "a", b"3", meta("Pod", None, vec![]), None)
        .data
        .unwrap();
    store.delete_object("pods", "b");
    let events = store.watch("pods", 0).data.unwrap();
    assert!(v1 < v2 && v2 < v3);
    for w in events.windows(2) {
        assert!(w[0].version < w[1].version);
    }
}

#[test]
fn round_trip_returns_stored_bytes() {
    let mut store = TeeMemoryStore::new();
    let payload: Vec<u8> = (0..100u32).map(|i| (i % 251) as u8).collect();
    store
        .create_object("pods", "small", &payload, meta("Pod", None, vec![]))
        .data
        .unwrap();
    let got = store.get_object("pods", "small").data.unwrap();
    assert_eq!(got.0, payload);
}

#[test]
fn compression_is_transparent_on_both_sides_of_the_threshold() {
    // A tiny threshold forces compression; a huge one forbids it. The
    // reader sees the same bytes either way.
    let payload: Vec<u8> = (0..5000u32).map(|i| (i % 13) as u8).collect();
    for threshold in [0usize, 10_000_000usize] {
        let mut store = TeeMemoryStore::with_config(StoreConfig {
            max_objects: 1000,
            compression_threshold: threshold,
            memory_limit: 100_000_000,
            integrity_check: true,
            batch_size: 10,
            change_ring_capacity: 16,
        });
        store
            .create_object("pods", "blob", &payload, meta("Pod", None, vec![]))
            .data
            .unwrap();
        let got = store.get_object("pods", "blob").data.unwrap();
        assert_eq!(got.0, payload);
    }
}

#[test]
fn create_on_existing_key_is_a_conflict() {
    let mut store = TeeMemoryStore::new();
    store
        .create_object("pods", "p", b"x", meta("Pod", None, vec![]))
        .data
        .unwrap();
    let second = store.create_object("pods", "p", b"y", meta("Pod", None, vec![]));
    assert_eq!(second.data.unwrap_err(), StoreError::Conflict);
    // The first payload is untouched.
    assert_eq!(store.get_object("pods", "p").data.unwrap().0, b"x".to_vec());
}

#[test]
fn oversize_payload_is_too_large() {
    let mut store = TeeMemoryStore::with_config(StoreConfig {
        max_objects: 10,
        compression_threshold: 1024,
        memory_limit: 8,
        integrity_check: true,
        batch_size: 10,
        change_ring_capacity: 4,
    });
    let r = store.create_object("pods", "big", b"123456789", meta("Pod", None, vec![]));
    assert_eq!(r.data.unwrap_err(), StoreError::TooLarge);
}

#[test]
fn update_missing_key_is_not_found_and_delete_too() {
    let mut store = TeeMemoryStore::new();
    let r = store.update_object("pods", "ghost", b"x", meta("Pod", None, vec![]), None);
    assert_eq!(r.data.unwrap_err(), StoreError::NotFound);
    let r = store.delete_object("pods", "ghost");
    assert_eq!(r.data.unwrap_err(), StoreError::NotFound);
}

#[test]
fn cas_update_one_winner_one_version_mismatch() {
    let mut store = TeeMemoryStore::new();
    let v = store
        .create_object("pods", "p", b"a", meta("Pod", None, vec![]))
        .data
        .unwrap();
    // Two callers both expect version v; run sequentially, only the first
    // can match.
    let first = store.update_object("pods", "p", b"b", meta("Pod", None, vec![]), Some(v));
    let second = store.update_object("pods", "p", b"c", meta("Pod", None, vec![]), Some(v));
    let v2 = first.data.unwrap();
    assert!(v2 > v);
    assert_eq!(second.data.unwrap_err(), StoreError::VersionMismatch);
    assert_eq!(store.get_object("pods", "p").data.unwrap().0, b"b".to_vec());
}

#[test]
fn create_then_list_with_namespace_and_label_selector() {
    let mut store = TeeMemoryStore::new();
    let v1 = store
        .create_object("pods", "ns1/p1", b"p1", meta("Pod", Some("ns1"), vec![("app", "a")]))
        .data
        .unwrap();
    store
        .create_object("pods", "ns1/p2", b"p2", meta("Pod", Some("ns1"), vec![("app", "b")]))
        .data
        .unwrap();
    let v3 = store
        .create_object(
            "pods",
            "ns1/p3",
            b"p3",
            meta("Pod", Some("ns1"), vec![("app", "a"), ("env", "prod")]),
        )
        .data
        .unwrap();
    let query = QueryOptions {
        namespace: Some("ns1".to_string()),
        label_selector: Some(LabelSelector {
            requirements: vec![LabelRequirement {
                key: "app".to_string(),
                op: SelectorOp::In,
                values: vec!["a".to_string()],
            }],
        }),
        ..opts()
    };
    let lr = store.list_objects("pods", &query).data.unwrap();
    let mut items = lr.items.clone();
    items.sort();
    assert_eq!(items, vec![b"p1".to_vec(), b"p3".to_vec()]);
    assert!(lr.list_version >= v1.max(v3));
}

#[test]
fn list_pagination_is_version_stable() {
    let mut store = TeeMemoryStore::new();
    for i in 0..5 {
        let key = format!("p{}", i);
        let body = format!("b{}", i).into_bytes();
        store
            .create_object("pods", &key, &body, meta("Pod", None, vec![]))
            .data
            .unwrap();
    }
    let query = QueryOptions {
        limit: Some(2),
        ..opts()
    };
    let page1 = store.list_objects("pods", &query).data.unwrap();
    assert_eq!(page1.items.len(), 2);
    let token = page1.next.expect("more items should remain");
    // A mutation between pages must not leak into the stable view.
    store
        .update_object("pods", "p0", b"changed", meta("Pod", None, vec![]), None)
        .data
        .unwrap();
    let query2 = QueryOptions {
        limit: Some(10),
        continue_token: Some(token),
        ..opts()
    };
    let page2 = store.list_objects("pods", &query2).data.unwrap();
    assert_eq!(page2.items.len(), 3);
    let mut all: Vec<Vec<u8>> = page1.items.into_iter().chain(page2.items).collect();
    all.sort();
    assert_eq!(
        all,
        vec![
            b"b0".to_vec(),
            b"b1".to_vec(),
            b"b2".to_vec(),
            b"b3".to_vec(),
            b"b4".to_vec()
        ]
    );
}

#[test]
fn stale_continue_token_expires() {
    let mut store = TeeMemoryStore::with_config(StoreConfig {
        max_objects: 100,
        compression_threshold: 1024,
        memory_limit: 1_000_000,
        integrity_check: true,
        batch_size: 10,
        change_ring_capacity: 1,
    });
    store
        .create_object("pods", "a", b"1", meta("Pod", None, vec![]))
        .data
        .unwrap();
    store
        .create_object("pods", "b", b"2", meta("Pod", None, vec![]))
        .data
        .unwrap();
    store
        .create_object("pods", "c", b"3", meta("Pod", None, vec![]))
        .data
        .unwrap();
    // A token at a list version the ring has rotated past is refused.
    let query = QueryOptions {
        continue_token: Some(ContinueToken {
            list_version: 1,
            last_version: 1,
        }),
        ..opts()
    };
    let r = store.list_objects("pods", &query);
    assert_eq!(r.data.unwrap_err(), StoreError::Expired);
}

#[test]
fn watch_replays_creations_in_version_order() {
    let mut store = TeeMemoryStore::with_config(StoreConfig {
        max_objects: 100,
        compression_threshold: 1024,
        memory_limit: 1_000_000,
        integrity_check: true,
        batch_size: 10,
        change_ring_capacity: 16,
    });
    let v1 = store
        .create_object("nodes", "n1", b"n1", meta("Node", None, vec![]))
        .data
        .unwrap();
    let v2 = store
        .create_object("nodes", "n2", b"n2", meta("Node", None, vec![]))
        .data
        .unwrap();
    let v3 = store
        .create_object("nodes", "n3", b"n3", meta("Node", None, vec![]))
        .data
        .unwrap();
    let events = store.watch("nodes", 0).data.unwrap();
    assert_eq!(events.len(), 3);
    assert_eq!(events[0].version, v1);
    assert_eq!(events[1].version, v2);
    assert_eq!(events[2].version, v3);
    for e in &events {
        assert_eq!(e.op, ChangeOp::Created);
        assert_eq!(e.kind, "nodes");
    }
    // Only events past the resume point come back.
    let tail = store.watch("nodes", v2).data.unwrap();
    assert_eq!(tail.len(), 1);
    assert_eq!(tail[0].version, v3);
}

#[test]
fn watch_resume_past_the_ring_expires() {
    // A ring of one slot: after six creations only the last event is
    // retained, so resuming at the third version is already too late.
    let mut store = TeeMemoryStore::with_config(StoreConfig {
        max_objects: 100,
        compression_threshold: 1024,
        memory_limit: 1_000_000,
        integrity_check: true,
        batch_size: 10,
        change_ring_capacity: 1,
    });
    let mut versions = Vec::new();
    for i in 1..=6 {
        let key = format!("n{}", i);
        let v = store
            .create_object("nodes", &key, b"n", meta("Node", None, vec![]))
            .data
            .unwrap();
        versions.push(v);
    }
    let v3 = versions[2];
    let r = store.watch("nodes", v3);
    assert_eq!(r.data.unwrap_err(), StoreError::Expired);
}

#[test]
fn watch_events_carry_old_and_new_payloads() {
    let mut store = TeeMemoryStore::new();
    store
        .create_object("pods", "p", b"one", meta("Pod", None, vec![]))
        .data
        .unwrap();
    store
        .update_object("pods", "p", b"two", meta("Pod", None, vec![]), None)
        .data
        .unwrap();
    store.delete_object("pods", "p").data.unwrap();
    let events = store.watch("pods", 0).data.unwrap();
    assert_eq!(events.len(), 3);
    assert_eq!(events[0].op, ChangeOp::Created);
    assert_eq!(events[0].new_payload, Some(b"one".to_vec()));
    assert_eq!(events[0].old_payload, None);
    assert_eq!(events[1].op, ChangeOp::Updated);
    assert_eq!(events[1].old_payload, Some(b"one".to_vec()));
    assert_eq!(events[1].new_payload, Some(b"two".to_vec()));
    assert_eq!(events[2].op, ChangeOp::Deleted);
    assert_eq!(events[2].old_payload, Some(b"two".to_vec()));
    assert_eq!(events[2].new_payload, None);
}

#[test]
fn custom_kinds_share_the_store_shape() {
    let mut store = TeeMemoryStore::new();
    store
        .store_custom_resource("widgets", "w1", b"widget", meta("Widget", None, vec![]))
        .data
        .unwrap();
    let got = store.get_custom_resource("widgets", "w1").data.unwrap();
    assert_eq!(got.0, b"widget".to_vec());
    store.delete_custom_resource("widgets", "w1").data.unwrap();
    assert!(store.get_custom_resource("widgets", "w1").data.is_err());
}

#[test]
fn update_changes_namespace_index_coherently() {
    let mut store = TeeMemoryStore::new();
    store
        .create_object("pods", "p", b"x", meta("Pod", Some("ns1"), vec![]))
        .data
        .unwrap();
    // Move the record to another namespace; the old group must stop
    // listing it and the new one must.
    store
        .update_object("pods", "p", b"y", meta("Pod", Some("ns2"), vec![]), None)
        .data
        .unwrap();
    let in_ns1 = store
        .list_objects(
            "pods",
            &QueryOptions {
                namespace: Some("ns1".to_string()),
                ..opts()
            },
        )
        .data
        .unwrap();
    assert!(in_ns1.items.is_empty());
    let in_ns2 = store
        .list_objects(
            "pods",
            &QueryOptions {
                namespace: Some("ns2".to_string()),
                ..opts()
            },
        )
        .data
        .unwrap();
    assert_eq!(in_ns2.items, vec![b"y".to_vec()]);
}

#[test]
fn snapshot_restore_round_trips_the_live_set() {
    let mut store = TeeMemoryStore::new();
    store
        .create_object("pods", "ns1/p1", b"alpha", meta("Pod", Some("ns1"), vec![("app", "a")]))
        .data
        .unwrap();
    let big: Vec<u8> = (0..4096u32).map(|i| (i % 7) as u8).collect();
    store
        .create_object("pods", "ns1/p2", &big, meta("Pod", Some("ns1"), vec![]))
        .data
        .unwrap();
    store
        .create_object("nodes", "n1", b"node-one", meta("Node", None, vec![]))
        .data
        .unwrap();
    let snapshot = store.create_snapshot();

    let mut replica = TeeMemoryStore::new();
    replica.restore_snapshot(&snapshot).unwrap();
    assert_eq!(
        replica.get_object("pods", "ns1/p1").data.unwrap().0,
        b"alpha".to_vec()
    );
    assert_eq!(replica.get_object("pods", "ns1/p2").data.unwrap().0, big);
    assert_eq!(
        replica.get_object("nodes", "n1").data.unwrap().0,
        b"node-one".to_vec()
    );
    // The restored counter is at least the snapshot's, so versions keep
    // rising across the swap.
    assert!(replica.current_revision() >= store.current_revision());

    // A corrupted snapshot is refused and changes nothing.
    let mut corrupted = snapshot.clone();
    let last = corrupted.len() - 1;
    corrupted[last] ^= 0xff;
    let untouched_before = replica.get_object("pods", "ns1/p1").data.unwrap();
    assert_eq!(
        replica.restore_snapshot(&corrupted).unwrap_err(),
        StoreError::IntegrityError
    );
    let untouched_after = replica.get_object("pods", "ns1/p1").data.unwrap();
    assert_eq!(untouched_before, untouched_after);
}
