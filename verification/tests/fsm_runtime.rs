use opendr::clock;
use opendr::directory::{Attributes, DirectoryEntry};
use opendr::fsm_runtime::{
    first_attribute_value, get_user_info, validate_dn, AuthFsmImpl, AuthState, AuthenticationFsm,
    ConnectionFsmImpl, ConnectionFsmSet, FsmOperationRegistry, OperationFsm, OperationInfo,
    OperationProgress, OperationType, SaslFsmImpl,
};
use std::collections::HashMap;
use std::time::{Duration, Instant};

#[test]
fn test_authentication_fsm_anonymous() {
    let auth = AuthenticationFsm::Simple(AuthFsmImpl::new());

    assert!(!auth.is_authenticated());
    assert_eq!(auth.authenticated_dn(), None);
}

#[test]
fn test_operation_info() {
    let info = OperationInfo {
        message_id: 1,
        created_at: Instant::now(),
        operation_type: OperationType::Search,
    };

    assert_eq!(info.message_id, 1);
    assert_eq!(info.operation_type, OperationType::Search);
}

#[test]
fn test_timeout_management() {
    let mut info_map = HashMap::new();

    // Create some test operation info with different ages
    let now = Instant::now();
    let old_time = now - Duration::from_secs(120); // 2 minutes ago
    let recent_time = now - Duration::from_secs(30); // 30 seconds ago

    info_map.insert(
        1,
        OperationInfo {
            message_id: 1,
            created_at: old_time,
            operation_type: OperationType::Search,
        },
    );

    info_map.insert(
        2,
        OperationInfo {
            message_id: 2,
            created_at: recent_time,
            operation_type: OperationType::Search,
        },
    );

    // Test that old operations are identified for cleanup
    let max_age = Duration::from_secs(60);
    let old_ops: Vec<i32> = info_map
        .iter()
        .filter(|(_, info)| now.duration_since(info.created_at) > max_age)
        .map(|(id, _)| *id)
        .collect();

    assert_eq!(old_ops.len(), 1);
    assert_eq!(old_ops[0], 1);
}

fn search(terminal: bool) -> OperationFsm {
    OperationFsm::Search(OperationProgress { terminal })
}

#[test]
fn an_operation_is_found_under_its_message_id() {
    let mut registry = FsmOperationRegistry::new();
    registry.add_operation(7, search(false), OperationType::Search).unwrap();
    assert_eq!(registry.get(7), Some(&search(false)));
    assert_eq!(registry.get(8), None);
    assert_eq!(
        registry.add_operation(7, search(false), OperationType::Search).unwrap_err(),
        "Message ID 7 is already in use"
    );
    *registry.get_mut(7).unwrap() = search(true);
    assert_eq!(registry.cleanup_terminal(), 1);
    assert_eq!(registry.len(), 0);
}

#[test]
fn old_operations_are_given_up_and_young_ones_stay() {
    let mut registry = FsmOperationRegistry::new();
    registry.add_operation(1, search(false), OperationType::Search).unwrap();
    registry.add_operation(2, search(false), OperationType::Search).unwrap();
    let ages = vec![clock::Duration::from_secs(120), clock::Duration::from_secs(50)];
    let limit = clock::Duration::from_secs(60);
    assert_eq!(
        registry.approaching(&ages, clock::Duration::from_secs(15), limit),
        vec![2]
    );
    assert_eq!(registry.cleanup_older(&ages, limit), 1);
    assert_eq!(registry.active_operations()[0].message_id, 2);
    assert_eq!(registry.cleanup_timed_out_operations(clock::Duration::from_secs(600)), 0);
}

#[test]
fn a_new_connection_knows_no_client() {
    let mut set = ConnectionFsmSet::new_with_transport((), None, true, (), (), ());
    assert_eq!(set.connection().remote_addr, "unknown");
    assert!(set.connection().is_secure());
    assert_eq!(set.active_operation_count(), 0);
    assert!(!set.is_authenticated());
    assert_eq!(set.authenticated_dn(), None);
    *set.auth_mut() = AuthenticationFsm::Sasl(SaslFsmImpl {
        identity: Some("cn=a".to_string()),
    });
    assert_eq!(set.authenticated_dn(), Some("cn=a"));
    set.auth_mut().reset();
    assert!(!set.is_authenticated());
    let closed = ConnectionFsmImpl {
        transport: (),
        remote_addr: String::new(),
        secure: false,
        terminal: true,
    };
    *set.connection_mut() = closed;
    assert!(set.is_terminal());
}

#[test]
fn a_bound_client_is_known_by_name() {
    let auth = AuthenticationFsm::Simple(AuthFsmImpl {
        state: AuthState::SimpleBound { dn: "cn=a".to_string() },
    });
    assert!(auth.is_authenticated());
    assert_eq!(auth.authenticated_dn(), Some("cn=a"));
}

#[test]
fn users_are_described_by_their_entries() {
    let mut attributes = Attributes::new();
    attributes.insert("cn".to_string(), vec!["Ann".to_string()]);
    attributes.insert("mail".to_string(), vec!["ann@example.com".to_string()]);
    let entry = DirectoryEntry::new("cn=ann", attributes);
    assert_eq!(first_attribute_value(&entry, "mail").as_deref(), Some("ann@example.com"));
    assert_eq!(first_attribute_value(&entry, "sn"), None);
    let info = get_user_info("cn=ann", Ok(Some(entry))).unwrap();
    assert_eq!(info.dn, "cn=ann");
    assert_eq!(info.email.as_deref(), Some("ann@example.com"));
    assert!(get_user_info("cn=bob", Ok(None)).is_err());
    assert_eq!(get_user_info("cn=bob", Err("down".to_string())).unwrap_err(), "down");
}

#[test]
fn names_need_an_attribute_and_a_value() {
    assert!(validate_dn("cn=ann,dc=example").is_ok());
    assert!(validate_dn("").is_err());
    assert!(validate_dn("nonsense").is_err());
}

#[test]
fn operations_are_as_old_as_they_were_taken_up_long_ago() {
    let now = clock::Duration::from_millis(1500);
    assert_eq!(now.since(&clock::Duration::from_millis(600)), clock::Duration::from_millis(900));
    assert_eq!(now.since(&clock::Duration::from_secs(2)), clock::Duration::from_secs(0));
    let mut registry = FsmOperationRegistry::new();
    registry.add_operation(1, search(false), OperationType::Search).unwrap();
    let late = clock::Duration::from_secs(3600);
    assert!(registry.get_operations_approaching_timeout(late, late).contains(&1));
    while registry.cleanup_timed_out_operations(clock::Duration::from_nanos(0)) == 0 {}
    assert_eq!(registry.len(), 0);
}

#[test]
fn an_operation_is_taken_up_at_the_age_that_is_given() {
    let mut registry = FsmOperationRegistry::new();
    let taken_at = clock::Duration::from_secs(40);
    let created_at = Instant::now();
    registry
        .add_operation_at(3, search(false), OperationType::Search, created_at, taken_at)
        .unwrap();
    assert_eq!(registry.entries[0].taken_at, taken_at);
    assert_eq!(registry.entries[0].info.created_at, created_at);
    assert_eq!(registry.entries[0].info.message_id, 3);
    let again =
        registry.add_operation_at(3, search(false), OperationType::Search, created_at, taken_at);
    assert_eq!(again.unwrap_err(), "Message ID 3 is already in use");
    assert_eq!(registry.cleanup_timed_out_operations(clock::Duration::from_secs(1)), 0);
}
