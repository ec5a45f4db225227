use nautilus_tee::comm::{
    check_security_policies, validate_message, validate_permissions, CommunicationError,
    ComponentType, CryptoContext, MessagePriority, MessageType, NonceGenerator, Permission,
    SecureMessage, SecurityPolicies, TrustLevel,
};
use nautilus_tee::facade::{
    build_resource_key, get_store_type, parse_api_path, split_path, status_for_error, ApiError,
};
use nautilus_tee::memory_store::StoreError;

#[test]
fn paths_parse_into_resource_addresses() {
    let info = parse_api_path("/api/v1/namespaces/ns1/pods/p1").unwrap();
    assert_eq!(info.group, "");
    assert_eq!(info.version, "v1");
    assert_eq!(info.kind, "pods");
    assert_eq!(info.namespace.as_deref(), Some("ns1"));
    assert_eq!(info.name.as_deref(), Some("p1"));

    let info = parse_api_path("/api/v1/pods").unwrap();
    assert_eq!(info.kind, "pods");
    assert!(info.namespace.is_none());
    assert!(info.name.is_none());

    let info = parse_api_path("/apis/apps/v1/namespaces/ns/deployments").unwrap();
    assert_eq!(info.group, "apps");
    assert_eq!(info.version, "v1");
    assert_eq!(info.kind, "deployments");
    assert_eq!(info.namespace.as_deref(), Some("ns"));

    assert_eq!(parse_api_path("/api/v1").unwrap_err(), ApiError::InvalidPath);
    assert_eq!(parse_api_path("/nope/v1/pods").unwrap_err(), ApiError::InvalidPath);
    assert_eq!(
        parse_api_path("/api/v1/a/b/c/d/e").unwrap_err(),
        ApiError::UnsupportedPattern
    );
}

#[test]
fn split_keeps_every_separator_boundary() {
    let parts = split_path("/api/v1/pods");
    assert_eq!(parts, vec!["", "api", "v1", "pods"]);
    let parts = split_path("a//b");
    assert_eq!(parts, vec!["a", "", "b"]);
    let parts = split_path("");
    assert_eq!(parts, vec![""]);
}

#[test]
fn resource_keys_join_namespace_and_name() {
    let info = parse_api_path("/api/v1/namespaces/ns1/pods/p1").unwrap();
    assert_eq!(build_resource_key(&info), "ns1/p1");
    let info = parse_api_path("/api/v1/nodes/n1").unwrap();
    assert_eq!(build_resource_key(&info), "n1");
}

#[test]
fn kinds_map_to_their_store_tables() {
    assert_eq!(get_store_type("pod"), "pods");
    assert_eq!(get_store_type("node"), "nodes");
    assert_eq!(get_store_type("secret"), "secrets");
    assert_eq!(get_store_type("widgets"), "widgets");
}

#[test]
fn store_errors_map_to_statuses() {
    assert_eq!(status_for_error(StoreError::NotFound), 404);
    assert_eq!(status_for_error(StoreError::Conflict), 409);
    assert_eq!(status_for_error(StoreError::VersionMismatch), 409);
    assert_eq!(status_for_error(StoreError::Expired), 410);
    assert_eq!(status_for_error(StoreError::TooLarge), 413);
    assert_eq!(status_for_error(StoreError::IntegrityError), 500);
}

fn message(from: &str, t: MessageType, timestamp: u64, payload: Vec<u8>) -> SecureMessage {
    SecureMessage {
        id: "m1".to_string(),
        from: from.to_string(),
        to: "store".to_string(),
        message_type: t,
        payload,
        signature: Vec::new(),
        timestamp,
        nonce: 0,
        priority: MessagePriority::Normal,
    }
}

#[test]
fn roles_only_get_their_permissions() {
    assert!(validate_permissions(
        &vec![Permission::ReadPods, Permission::Schedule],
        &ComponentType::Scheduler
    ));
    assert!(!validate_permissions(
        &vec![Permission::WriteSecrets],
        &ComponentType::Scheduler
    ));
    assert!(!validate_permissions(
        &vec![Permission::ReadPods],
        &ComponentType::External
    ));
    assert!(validate_permissions(&vec![], &ComponentType::External));
}

#[test]
fn message_validation_checks_size_and_age() {
    let ok = validate_message(&message("a", MessageType::Request, 100, vec![1, 2]), 10, 60, 120);
    assert!(ok.is_ok());
    let too_big = validate_message(
        &message("a", MessageType::Request, 100, vec![0; 11]),
        10,
        60,
        120,
    );
    assert!(matches!(too_big, Err(CommunicationError::MessageTooLarge(11))));
    let too_old = validate_message(&message("a", MessageType::Request, 100, vec![]), 10, 60, 200);
    assert!(matches!(too_old, Err(CommunicationError::MessageTooOld(100))));
}

#[test]
fn trust_levels_gate_message_classes() {
    let mut policies = SecurityPolicies::default();
    // Unknown senders are untrusted: requests pass, notifications do not.
    assert!(check_security_policies(
        &policies,
        &message("stranger", MessageType::Request, 0, vec![])
    ));
    assert!(!check_security_policies(
        &policies,
        &message("stranger", MessageType::Notification, 0, vec![])
    ));
    policies
        .trusted_components
        .push(("friend".to_string(), TrustLevel::Trusted));
    assert!(check_security_policies(
        &policies,
        &message("friend", MessageType::SystemEvent, 0, vec![])
    ));
    policies
        .blocked_components
        .push(("friend".to_string(), nautilus_tee::comm::BlockReason::ManualBlock));
    assert!(!check_security_policies(
        &policies,
        &message("friend", MessageType::Request, 0, vec![])
    ));
}

#[test]
fn sealing_round_trips_payloads() {
    let ctx = CryptoContext::new();
    let key = vec![0u8; 32];
    let sealed = ctx.encrypt(b"payload", &key).unwrap();
    let open = ctx.decrypt(&sealed, &key).unwrap();
    assert_eq!(open, b"payload".to_vec());
}

#[test]
fn nonces_pack_the_second_and_the_counter() {
    let mut gen = NonceGenerator::new();
    let n1 = gen.next_nonce(7);
    let n2 = gen.next_nonce(7);
    let n3 = gen.next_nonce(8);
    assert_eq!(n1, (7u64 << 32) | 0);
    assert_eq!(n2, (7u64 << 32) | 1);
    assert_eq!(n3, 8u64 << 32);
    assert!(n1 < n2 && n2 < n3);
}
