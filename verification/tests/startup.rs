use opendr::directory::Attributes;
use opendr::ldif::{
    parse_initial_ldif_attr_value, parse_initial_ldif_entries, parse_initial_ldif_entry,
    read_decoded_value, read_records, InitialLdifEntry, LdifError,
};
use opendr::monitoring_runtime::ComponentStatus;
use opendr::startup::{
    attribute_indexes, backend_report, base_structure, dump_schema,
    ensure_initialized_entry_exists, explained, needs_base_structure, parse_access_policy,
    parse_audit_format, parse_audit_level, parse_backend_type, parse_runtime, parse_tls_version,
    root_common_name, size_in_mebibytes, AccessPolicy, AuditFormat, AuditLevel, BackendKind,
    IndexSetting, Phase, ReplicationRole, ReplicationState, RunPlan, RuntimeKind, SchemaListing,
    TlsVersion,
};

const BASE: &str = "dn: dc=example,dc=org
objectClass: top
objectClass: organization
o: Example Org
description: Example Org

dn: ou=People,dc=example,dc=org
objectClass: top
objectClass: organizationalUnit
objectClass: opendrPeopleProfile
ou: People
description: People container
department: People
employeeType: DirectoryContainer
mobile: +94 77 123 4567
age: 1
";

const ADMIN: &str = "dn: cn=manager
objectClass: person
objectClass: organizationalPerson
objectClass: inetOrgPerson
cn: manager
sn: Administrator
userPassword: stale
description: Root Administrator Account
";

fn import(contents: &str, password: &str) -> Vec<InitialLdifEntry> {
    read_records(contents)
        .unwrap()
        .iter()
        .map(|record| {
            parse_initial_ldif_entry(record, "cn=manager", "cn=manager,dc=example,dc=org", password)
                .unwrap()
        })
        .collect()
}

fn values(attributes: &Attributes, name: &str) -> Vec<String> {
    attributes.get(name).cloned().unwrap_or_default()
}

#[test]
fn test_initialize_base_structure_imports_config_ldif_files() {
    let base = import(BASE, "secret");
    assert_eq!(base.len(), 2);
    assert_eq!(base[0].dn, "dc=example,dc=org");
    let people = &base[1];
    assert_eq!(people.dn, "ou=People,dc=example,dc=org");
    assert_eq!(
        values(&people.attributes, "objectclass"),
        vec![
            "top".to_string(),
            "organizationalUnit".to_string(),
            "opendrPeopleProfile".to_string()
        ]
    );
    assert_eq!(values(&people.attributes, "department"), vec!["People".to_string()]);
    assert_eq!(
        values(&people.attributes, "employeetype"),
        vec!["DirectoryContainer".to_string()]
    );
    assert_eq!(
        values(&people.attributes, "mobile"),
        vec!["+94 77 123 4567".to_string()]
    );
    assert_eq!(values(&people.attributes, "age"), vec!["1".to_string()]);

    let admin = import(ADMIN, "secret");
    assert_eq!(admin[0].dn, "cn=manager,dc=example,dc=org");
    assert_eq!(admin[0].password, b"secret".to_vec());
    assert_eq!(values(&admin[0].attributes, "userpassword"), vec!["secret".to_string()]);
    assert_eq!(import(ADMIN, "")[0].password, b"stale".to_vec());
}

#[test]
fn test_initialize_base_structure_inmemory() {
    let entries = base_structure(
        "dc=example,dc=org",
        "Example Org",
        "cn=manager,dc=example,dc=org",
        "manager",
        Some("secret"),
    );
    let names: Vec<&str> = entries.iter().map(|e| e.dn.as_str()).collect();
    assert_eq!(
        names,
        vec![
            "dc=example,dc=org",
            "cn=manager,dc=example,dc=org",
            "ou=People,dc=example,dc=org",
            "ou=Groups,dc=example,dc=org",
            "ou=Applications,dc=example,dc=org",
        ]
    );
    assert!(entries[0].attributes.contains_key("objectClass"));
    assert_eq!(values(&entries[0].attributes, "o")[0], "Example Org");
    assert!(entries[1].attributes.contains_key("cn"));
    assert_eq!(entries[1].password, b"secret".to_vec());
    assert!(entries.iter().all(|e| e.dn.starts_with("cn=") || e.password.is_empty()));
}

#[test]
fn a_password_that_comes_later_is_left_out() {
    let entries = base_structure("dc=a", "A", "cn=r,dc=a", "r", None);
    assert!(entries[1].password.is_empty());
    assert_eq!(values(&entries[4].attributes, "description"), vec!["Applications container"]);
}

#[test]
fn broken_lines_are_put_together() {
    let records = read_records("dn: cn=a\n,dc=b\n  c\r\n\n\n# end\n").unwrap();
    assert_eq!(records.len(), 2);
    assert_eq!(records[0][0], (1, "dn: cn=a".to_string()));
    assert_eq!(records[0][1], (2, ",dc=b c".to_string()));
    assert_eq!(records[1][0], (6, "# end".to_string()));
    let error = read_records(" x").unwrap_err();
    assert_eq!(error, LdifError::NoPrecedingLine { line_no: 1 });
    assert_eq!(
        error.message("a.ldif"),
        "a.ldif:1: LDIF continuation line has no preceding line"
    );
}

#[test]
fn values_are_plain_or_in_base_64() {
    let plain = parse_initial_ldif_attr_value("cn:   Ann Lee ", 3).unwrap();
    assert_eq!(plain, ("cn".to_string(), "Ann Lee ".to_string()));
    let encoded = parse_initial_ldif_attr_value("cn:: aGVsbG8=", 3).unwrap();
    assert_eq!(encoded, ("cn".to_string(), "hello".to_string()));
    let fault = |line: &str| parse_initial_ldif_attr_value(line, 3).unwrap_err();
    assert_eq!(
        fault("nonsense").message("f"),
        "f:3: invalid LDIF attribute line: nonsense"
    );
    assert_eq!(fault(" : x").message("f"), "f:3: empty LDIF attribute name");
    assert_eq!(
        fault("cn: < file:///x").message("f"),
        "f:3: LDIF URL values are not supported during startup import"
    );
    assert!(matches!(fault("cn:: ***"), LdifError::NotBase64 { .. }));
    assert_eq!(fault("cn:: ***").message("f"), "Invalid symbol 42, offset 0.");
    assert!(
        fault("cn:: /w==")
            .message("f")
            .starts_with("f:3: base64 LDIF value for cn is not valid UTF-8: invalid utf-8")
    );
    assert_eq!(read_decoded_value("cn", 3, Ok(b"hello".to_vec())).unwrap(), "hello");
}

#[test]
fn entries_need_a_name_and_no_server_managed_attribute() {
    let parse = |text: &str| {
        parse_initial_ldif_entry(&read_records(text).unwrap()[0], "cn=m", "cn=m,dc=a", "")
    };
    assert_eq!(
        parse("cn: x\n").unwrap_err().message("f"),
        "f: LDIF entry is missing dn"
    );
    assert_eq!(
        parse("dn: cn=x\n# remark\nentryUUID: 1\n").unwrap_err().message("f"),
        "f:3: operational attribute entryUUID is server-managed"
    );
    let schema = LdifError::Schema { dn: "cn=x".to_string(), fault: "bad".to_string() };
    assert_eq!(
        schema.message("f"),
        "f: schema validation failed for initial entry cn=x: bad"
    );
}

#[test]
fn settings_are_read_by_name() {
    assert_eq!(parse_audit_level("warning"), Ok(AuditLevel::Warning));
    assert_eq!(
        parse_audit_level("loud").unwrap_err(),
        "unsupported audit level: loud"
    );
    assert_eq!(parse_audit_format("syslog"), Ok(AuditFormat::Syslog));
    assert_eq!(
        parse_audit_format("xml").unwrap_err(),
        "unsupported audit format: xml"
    );
    assert_eq!(parse_access_policy("deny"), Ok(AccessPolicy::Restrictive));
    assert_eq!(
        parse_access_policy("maybe").unwrap_err(),
        "unsupported access control policy: maybe"
    );
    assert_eq!(parse_tls_version("1.3"), Ok(TlsVersion::Tls13));
    assert_eq!(
        parse_tls_version("1.1").unwrap_err(),
        "unsupported TLS version configured: 1.1"
    );
    assert_eq!(parse_backend_type("LMDB"), Ok(BackendKind::Lmdb));
    assert_eq!(
        parse_backend_type("Tape").unwrap_err(),
        "Unsupported backend type: tape"
    );
    assert_eq!(parse_runtime("fsm"), Some(RuntimeKind::Fsm));
    assert_eq!(parse_runtime("FSM"), None);
    assert_eq!(size_in_mebibytes(10 * 1024 * 1024 + 1), 10);
}

#[test]
fn unknown_index_types_are_refused() {
    let setting = |known: Option<u8>| IndexSetting {
        attribute: "cn".to_string(),
        types: vec![("eq".to_string(), Some(1)), ("sub".to_string(), known)],
    };
    let good = attribute_indexes(true, &vec![setting(Some(2))]).unwrap();
    assert_eq!(good[0].index_types, vec![1, 2]);
    assert_eq!(
        attribute_indexes(true, &vec![setting(None)]).unwrap_err(),
        "unsupported index type for cn: sub"
    );
    assert!(attribute_indexes(false, &vec![setting(None)]).unwrap().is_empty());
}

#[test]
fn the_directory_is_filled_where_its_base_is_missing() {
    assert!(!needs_base_structure(Ok(true)));
    assert!(needs_base_structure(Ok(false)));
    assert!(needs_base_structure(Err(())));
    assert!(ensure_initialized_entry_exists(true, "base DN", "dc=a").is_ok());
    assert_eq!(
        ensure_initialized_entry_exists(false, "base DN", "dc=a").unwrap_err(),
        "base DN entry dc=a was not created by initial LDIF import"
    );
    assert_eq!(root_common_name(None), "manager");
    assert_eq!(root_common_name(Some(&vec![" ".to_string()])), "manager");
    assert_eq!(root_common_name(Some(&vec!["root".to_string()])), "root");
}

#[test]
fn schemas_are_shown_line_by_line() {
    let listing = SchemaListing {
        attribute_types: vec!["a".to_string(), "b".to_string()],
        object_classes: vec![],
        ldap_syntaxes: vec![],
        matching_rules: vec![],
        matching_rule_use: vec![],
        dit_content_rules: vec![],
        name_forms: vec![],
        dit_structure_rules: vec!["z".to_string()],
    };
    assert_eq!(
        dump_schema(&listing),
        vec!["attributeTypes: a", "attributeTypes: b", "dITStructureRules: z"]
    );
    assert_eq!(explained(Some("x".to_string()), "cn"), Ok("x".to_string()));
    assert_eq!(explained(None, "cn").unwrap_err(), "schema element not found: cn");
}

#[test]
fn the_parts_report_how_far_they_are() {
    let backend = backend_report("memory");
    assert_eq!(backend.status, ComponentStatus::Healthy);
    assert_eq!(backend.detail.as_deref(), Some("memory backend initialized"));
    let role = ReplicationRole::Consumer;
    assert_eq!(role.component(), "replication_consumer");
    let told = role.report(&ReplicationState::Failed("no route".to_string()));
    assert_eq!(told.status, ComponentStatus::Degraded);
    assert_eq!(
        told.detail.as_deref(),
        Some("replication consumer failed to start: no route")
    );
    let off = ReplicationRole::Provider.report(&ReplicationState::NotEnabled);
    assert_eq!(off.status, ComponentStatus::Disabled);
    assert_eq!(off.detail.as_deref(), Some("replication provider not enabled"));
}

fn phases(plan: RunPlan) -> Vec<Phase> {
    let mut all = vec![Phase::InitLogging];
    while *all.last().unwrap() != Phase::Done {
        let next = plan.next(*all.last().unwrap());
        all.push(next);
    }
    all
}

#[test]
fn the_server_comes_and_goes_in_order() {
    let plain = RunPlan {
        command: false,
        monitoring: false,
        tls: false,
        provider: false,
        consumer: false,
    };
    let all = phases(plain);
    assert!(!all.contains(&Phase::StartLdaps));
    assert!(!all.contains(&Phase::AwaitMonitoring));
    assert_eq!(all.last(), Some(&Phase::Done));
    let full = RunPlan { monitoring: true, tls: true, provider: true, consumer: true, ..plain };
    assert_eq!(phases(full).len(), 24);
    let command = RunPlan { command: true, ..full };
    assert_eq!(
        phases(command),
        vec![Phase::InitLogging, Phase::RunCommand, Phase::Done]
    );
    assert!(Phase::OpenBackend.is_fatal());
    assert!(!Phase::StartProvider.is_fatal());
}

#[test]
fn the_entries_of_a_file_are_read_up_to_the_first_that_is_not_valid() {
    let text = "dn: cn=a\ncn: a\n\n\ndn: cn=b\ncn: b\n\ncn: c\n";
    let read = |text: &str, refused: &str| {
        parse_initial_ldif_entries(text, "cn=m", "cn=m,dc=a", "", |entry| {
            if entry.dn == refused {
                Err("no".to_string())
            } else {
                Ok(())
            }
        })
    };
    let good = &text[..text.len() - "\ncn: c\n".len()];
    let found = read(good, "").unwrap();
    assert_eq!(found.len(), 2);
    assert_eq!(found[1].dn, "cn=b");
    assert_eq!(
        read(text, "cn=b").unwrap_err().message("f"),
        "f: schema validation failed for initial entry cn=b: no"
    );
    assert_eq!(read(text, "").unwrap_err(), LdifError::MissingDn);
    assert!(read(" folded", "").is_err());
}
