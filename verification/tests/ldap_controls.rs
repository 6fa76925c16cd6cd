use opendr::ldap_controls::{
    ControlLookupError, ControlRegistry, ControlValidationError, LdapControl, RequestControls,
};

#[test]
fn rejects_unknown_critical_controls() {
    let registry = ControlRegistry::default();
    let controls = [LdapControl::new("1.2.3", true, None)];

    let err = registry
        .validate_request_controls(Some(&controls))
        .unwrap_err();

    assert_eq!(
        err,
        ControlValidationError::UnknownCritical {
            oid: "1.2.3".to_string(),
        }
    );
}

#[test]
fn ignores_unknown_non_critical_controls() {
    let registry = ControlRegistry::default();
    let controls = [LdapControl::new("1.2.3", false, Some(b"abc".to_vec()))];

    let result = registry.validate_request_controls(Some(&controls)).unwrap();

    assert!(result.accepted().is_empty());
    assert_eq!(result.ignored().len(), 1);
    assert_eq!(result.ignored()[0].oid(), "1.2.3");
    assert_eq!(result.ignored()[0].value(), Some(&b"abc"[..]));
}

#[test]
fn singleton_lookup_rejects_duplicate_controls() {
    let controls = RequestControls::new(vec![
        LdapControl::new("1.2.3", false, None),
        LdapControl::new("1.2.3", false, Some(vec![1])),
    ]);

    let err = controls.singleton("1.2.3").unwrap_err();

    assert_eq!(
        err,
        ControlLookupError::DuplicateControl {
            oid: "1.2.3".to_string(),
            count: 2,
        }
    );
}

#[test]
fn supported_control_oids_merge_request_and_response_registrations() {
    let mut registry = ControlRegistry::default();
    registry
        .register_request_control("1.2.3")
        .register_response_control("1.2.4")
        .register_response_control("1.2.3");

    assert_eq!(
        registry.supported_control_oids(),
        vec!["1.2.3".to_string(), "1.2.4".to_string()]
    );
}

#[test]
fn known_controls_are_accepted_in_their_order() {
    let mut registry = ControlRegistry::default();
    registry.register_request_control("1.1").register_request_control("1.2");
    assert!(registry.supports_request_control("1.2"));
    assert!(!registry.supports_request_control("1.3"));
    let controls = [
        LdapControl::new("1.2", true, None),
        LdapControl::new("9.9", false, None),
        LdapControl::new("1.1", false, Some(vec![7])),
    ];
    let result = registry.validate_request_controls(Some(&controls)).unwrap();
    let accepted: Vec<&str> = result.accepted().iter().map(|c| c.oid()).collect();
    assert_eq!(accepted, vec!["1.2", "1.1"]);
    assert_eq!(result.ignored()[0].oid(), "9.9");
    assert_eq!(result.into_accepted().len(), 2);
    assert!(registry.validate_request_controls(None).unwrap().accepted().is_empty());
}

#[test]
fn control_errors_are_told_in_words() {
    let unknown = ControlValidationError::UnknownCritical { oid: "1.2.3".to_string() };
    assert!(unknown.message().contains("1.2.3"));
    let twice = ControlLookupError::DuplicateControl { oid: "1.2.3".to_string(), count: 2 };
    assert!(twice.message().contains("1.2.3"));
    let one = RequestControls::new(vec![LdapControl::new("1.2.3", true, Some(vec![1, 2]))]);
    let found = one.singleton("1.2.3").unwrap().unwrap();
    assert!(found.criticality());
    assert_eq!(found.value(), Some(&[1u8, 2][..]));
    assert!(one.singleton("1.2.4").unwrap().is_none());
}
