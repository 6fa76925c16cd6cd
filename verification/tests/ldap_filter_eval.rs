use opendr::directory::{
    Attributes, DirectoryEntry, SearchCandidateHint, SearchEntry, SearchSubstringPart,
};
use opendr::ldap_filter_eval::{
    compare_attribute_with_schema, compile_filter, dn_scope, extract_search_candidate_hint_from_str,
    matches_search_filter, payload_kind, prepare_change, ChangePayload, ChangeType, ChangelogEntry,
    FilterSchemaError, PayloadKind, RenameChange, SearchFilter,
};
use opendr::schema::{AttributeType, LdapSchema, MatchingRule, RuleKind};

const DIRECTORY_STRING: &str = "1.3.6.1.4.1.1466.115.121.1.15";
const INTEGER: &str = "1.3.6.1.4.1.1466.115.121.1.27";

fn rule(oid: &str, name: &str, syntax: &str, kind: RuleKind) -> MatchingRule {
    MatchingRule {
        oid: oid.to_string(),
        names: vec![name.to_string()],
        syntax: syntax.to_string(),
        kind,
    }
}

fn text_type(oid: &str, names: &[&str]) -> AttributeType {
    AttributeType {
        oid: oid.to_string(),
        names: names.iter().map(|n| n.to_string()).collect(),
        syntax: DIRECTORY_STRING.to_string(),
        equality: Some("caseIgnoreMatch".to_string()),
        ordering: None,
        substring: Some("caseIgnoreSubstringsMatch".to_string()),
    }
}

fn core_schema() -> LdapSchema {
    LdapSchema {
        attribute_types: vec![
            text_type("2.5.4.0", &["objectClass"]),
            text_type("2.5.4.3", &["cn", "commonName"]),
            text_type("2.5.4.4", &["sn", "surname"]),
        ],
        matching_rules: vec![
            rule("2.5.13.2", "caseIgnoreMatch", DIRECTORY_STRING, RuleKind::CaseIgnore),
            rule("2.5.13.4", "caseIgnoreSubstringsMatch", DIRECTORY_STRING, RuleKind::CaseIgnore),
            rule("2.5.13.14", "integerMatch", INTEGER, RuleKind::Integer),
            rule("2.5.13.15", "integerOrderingMatch", INTEGER, RuleKind::Integer),
        ],
    }
}

fn example_number() -> AttributeType {
    AttributeType {
        oid: "1.3.6.1.4.1.55555.60.1".to_string(),
        names: vec!["exampleNumber".to_string()],
        syntax: INTEGER.to_string(),
        equality: Some("integerMatch".to_string()),
        ordering: Some("integerOrderingMatch".to_string()),
        substring: None,
    }
}

fn test_entry(dn: &str, object_class: &str, cn: &str) -> DirectoryEntry {
    let mut attributes = Attributes::new();
    attributes.insert("objectclass".to_string(), vec![object_class.to_string()]);
    attributes.insert("cn".to_string(), vec![cn.to_string()]);
    DirectoryEntry::new(dn, attributes)
}

fn change_with_entry(change_type: ChangeType, dn: &str) -> ChangelogEntry {
    ChangelogEntry {
        change_type,
        dn: dn.to_string(),
        change_data: b"{}".to_vec(),
    }
}

#[test]
fn compile_filter_parses_and_matches_compound_filters() {
    let filter = compile_filter("(&(objectClass=person)(cn=Alice*))").unwrap();
    let entry = test_entry("cn=alice,dc=example,dc=com", "person", "Alice Adams");
    let other = test_entry("cn=bob,dc=example,dc=com", "group", "Bob");

    assert!(filter.matches(&entry));
    assert!(!filter.matches(&other));
}

#[test]
fn compile_filter_rejects_invalid_filters() {
    assert!(compile_filter("(objectClass=person").is_err());
    assert!(compile_filter("(:=Alice)").is_err());
}

#[test]
fn compile_filter_parses_extensible_match_filters() {
    let exact = compile_filter("(cn:=Alice)").unwrap();
    let ignore_case = compile_filter("(cn:caseIgnoreMatch:=ALICE)").unwrap();
    let dn_attribute = compile_filter("(cn:dn:caseIgnoreMatch:=alice)").unwrap();
    let unsupported_rule = compile_filter("(cn:unknownRule:=Alice)").unwrap();
    let entry = test_entry("cn=alice,dc=example,dc=com", "person", "Alice");

    assert!(exact.matches(&entry));
    assert!(ignore_case.matches(&entry));
    assert!(dn_attribute.matches(&entry));
    assert!(!unsupported_rule.matches(&entry));
}

#[test]
fn compile_filter_extracts_substring_and_ordering_hints() {
    assert_eq!(
        extract_search_candidate_hint_from_str("(cn=Ali*)"),
        Some(SearchCandidateHint::Substring {
            attribute: "cn".to_string(),
            parts: vec![SearchSubstringPart::Initial("Ali".to_string())],
        })
    );
    assert_eq!(
        extract_search_candidate_hint_from_str("(entryCSN>=020)"),
        Some(SearchCandidateHint::GreaterOrEqual {
            attribute: "entrycsn".to_string(),
            value: "020".to_string(),
        })
    );
    assert_eq!(
        extract_search_candidate_hint_from_str("(entryCSN<=020)"),
        Some(SearchCandidateHint::LessOrEqual {
            attribute: "entrycsn".to_string(),
            value: "020".to_string(),
        })
    );
    assert_eq!(
        extract_search_candidate_hint_from_str("(cn~=Alice)"),
        Some(SearchCandidateHint::Equality {
            attribute: "cn".to_string(),
            value: "Alice".to_string(),
        })
    );
    assert_eq!(extract_search_candidate_hint_from_str("(cn=Al*)"), None);
}

#[test]
fn schema_filter_matching_uses_attribute_matching_rules() {
    let schema = core_schema();
    let filter = compile_filter("(cn=  ALICE   SMITH )").unwrap();
    let entry = test_entry("cn=alice,dc=example,dc=com", "person", "Alice Smith");

    assert!(filter.matches_with_schema(&entry, &schema).unwrap());
}

#[test]
fn prepared_schema_filter_matches_existing_schema_evaluator() {
    let mut schema = core_schema();
    schema.attribute_types.push(example_number());

    let filter = compile_filter("(&(cn=  ALICE   SMITH )(exampleNumber>=0020))").unwrap();
    let prepared = filter.prepare_with_schema(&schema).unwrap();
    let mut matching = test_entry("cn=alice,dc=example,dc=com", "person", "Alice Smith");
    matching
        .attributes
        .insert("examplenumber".to_string(), vec!["42".to_string()]);
    let mut non_matching = test_entry("cn=alice,dc=example,dc=com", "person", "Alice Smith");
    non_matching
        .attributes
        .insert("examplenumber".to_string(), vec!["9".to_string()]);

    assert_eq!(
        prepared.matches_entry(&matching).unwrap(),
        filter.matches_with_schema(&matching, &schema).unwrap()
    );
    assert_eq!(
        prepared.matches_entry(&non_matching).unwrap(),
        filter.matches_with_schema(&non_matching, &schema).unwrap()
    );
}

#[test]
fn prepared_schema_filter_reuses_normalized_substring_and_extensible_assertions() {
    let schema = core_schema();
    let substring_filter = compile_filter("(cn=*ALICE*)").unwrap();
    let extensible_filter = compile_filter("(:caseIgnoreMatch:=  ALICE   SMITH )").unwrap();
    let substring_plan = substring_filter.prepare_with_schema(&schema).unwrap();
    let extensible_plan = extensible_filter.prepare_with_schema(&schema).unwrap();
    let entry = test_entry("cn=alice,dc=example,dc=com", "person", "Alice Smith");

    assert!(substring_plan.matches_entry(&entry).unwrap());
    assert!(extensible_plan.matches_entry(&entry).unwrap());
}

#[test]
fn prepared_schema_filter_exposes_normalized_index_hints() {
    let mut schema = core_schema();
    schema.attribute_types.push(example_number());

    let ordering_plan = compile_filter("(exampleNumber>=00042)")
        .unwrap()
        .prepare_with_schema(&schema)
        .unwrap();
    assert_eq!(
        ordering_plan.search_candidate_hint(),
        Some(SearchCandidateHint::GreaterOrEqual {
            attribute: "examplenumber".to_string(),
            value: "42".to_string(),
        })
    );

    let equality_plan = compile_filter("(cn=  ALICE   SMITH )")
        .unwrap()
        .prepare_with_schema(&schema)
        .unwrap();
    assert_eq!(
        equality_plan.search_candidate_hint(),
        Some(SearchCandidateHint::Equality {
            attribute: "cn".to_string(),
            value: "alice smith".to_string(),
        })
    );
    assert_eq!(
        equality_plan.exact_index_coverage_hint(),
        equality_plan.search_candidate_hint()
    );

    let compound_plan = compile_filter("(&(cn=Alice)(sn=Smith))")
        .unwrap()
        .prepare_with_schema(&schema)
        .unwrap();
    assert_eq!(compound_plan.exact_index_coverage_hint(), None);
}

#[test]
fn schema_filter_validation_rejects_illegal_or_unknown_comparisons() {
    let schema = core_schema();

    let unknown = compile_filter("(missingAttribute=value)").unwrap();
    assert!(matches!(
        unknown.validate_with_schema(&schema),
        Err(FilterSchemaError::UndefinedAttribute(_))
    ));

    let no_ordering = compile_filter("(cn>=Alice)").unwrap();
    assert!(matches!(
        no_ordering.validate_with_schema(&schema),
        Err(FilterSchemaError::InappropriateMatching(_))
    ));
}

#[test]
fn schema_filter_validation_rejects_invalid_assertion_syntax() {
    let mut schema = core_schema();
    schema.attribute_types.push(example_number());

    let invalid_integer = compile_filter("(exampleNumber>=not-an-int)").unwrap();
    assert!(matches!(
        invalid_integer.validate_with_schema(&schema),
        Err(FilterSchemaError::InvalidAttributeSyntax(_))
    ));
}

#[test]
fn prepare_change_uses_entry_snapshots_for_attribute_filters() {
    let entry = test_entry("cn=alice,dc=example,dc=com", "person", "Alice");
    let change = change_with_entry(ChangeType::Add, &entry.dn);
    let compiled = compile_filter("(objectClass=person)").unwrap();
    let prepared = prepare_change(&change, true, ChangePayload::Entry(Ok(entry))).unwrap();

    assert!(
        prepared
            .matches("dc=example,dc=com", Some(&compiled))
            .unwrap()
    );
}

#[test]
fn prepare_change_uses_delete_snapshot_and_scope() {
    let entry = test_entry("cn=stale,dc=example,dc=com", "person", "Stale");
    let change = change_with_entry(ChangeType::Delete, &entry.dn);
    let compiled = compile_filter("(cn=Stale)").unwrap();
    let prepared = prepare_change(&change, true, ChangePayload::Entry(Ok(entry))).unwrap();

    assert!(
        prepared
            .matches("dc=example,dc=com", Some(&compiled))
            .unwrap()
    );
    assert!(!prepared.matches("dc=other,dc=com", None).unwrap());
}

#[test]
fn prepare_change_handles_rename_scope_and_rejects_attribute_filters() {
    let rename = RenameChange {
        new_rdn: "cn=alice".to_string(),
        delete_old: true,
        new_superior: Some("ou=people,dc=example,dc=com".to_string()),
    };
    let change = ChangelogEntry {
        change_type: ChangeType::Rename,
        dn: "cn=alice,ou=staging,dc=example,dc=com".to_string(),
        change_data: b"{}".to_vec(),
    };
    let prepared = prepare_change(&change, false, ChangePayload::Rename(Ok(rename))).unwrap();

    assert!(
        prepared
            .matches("ou=people,dc=example,dc=com", None)
            .unwrap()
    );
    assert!(
        prepared
            .matches(
                "dc=example,dc=com",
                Some(&compile_filter("(cn=alice)").unwrap())
            )
            .is_err()
    );
}

#[test]
fn a_change_without_its_entry_is_refused() {
    let change = ChangelogEntry {
        change_type: ChangeType::Modify,
        dn: "cn=a".to_string(),
        change_data: Vec::new(),
    };
    assert_eq!(
        payload_kind(&change, true).unwrap_err(),
        "modify change for cn=a is missing change_data"
    );
    assert_eq!(payload_kind(&change, false).unwrap(), PayloadKind::Unread);
}

#[test]
fn names_below_a_base_are_in_its_scope() {
    assert_eq!(dn_scope("cn=A,DC=Example", "dc=example"), Some(true));
    assert_eq!(dn_scope("dc=example", "dc=example"), Some(true));
    assert_eq!(dn_scope("cn=a,dc=badexample", "dc=example"), Some(false));
    assert_eq!(dn_scope("cn=a,\u{e4}dc=example", "dc=example"), None);
    assert_eq!(dn_scope("CN=\u{c4},DC=X", "dc=x"), Some(true));
}

#[test]
fn negation_and_presence_are_evaluated() {
    let filter = compile_filter("(&(cn=*)(!(sn=*)))").unwrap();
    let entry = test_entry("cn=alice,dc=example,dc=com", "person", "Alice");
    assert!(filter.matches(&entry));
    let search = SearchEntry {
        dn: "cn=alice".to_string(),
        attributes: entry.attributes.copy(),
        object_classes: vec!["person".to_string()],
    };
    assert!(filter.matches_search_entry(&search));
}

#[test]
fn filters_of_requests_are_evaluated_on_lossy_text() {
    let entry = test_entry("cn=alice", "person", "Al\u{fffd}ce");
    let filter = SearchFilter::EqualityMatch {
        attribute: "CN".to_string(),
        value: vec![b'A', b'l', 0xff, b'c', b'e'],
    };
    assert!(matches_search_filter(&entry, &filter));
}

#[test]
fn comparisons_go_by_the_rule_of_the_attribute() {
    let schema = core_schema();
    let entry = test_entry("cn=alice", "person", "Alice Smith");
    let found = compare_attribute_with_schema(
        &schema,
        "cn=alice",
        &entry.attributes,
        "cn",
        " alice   SMITH",
    );
    assert!(matches!(found, Ok(true)));
    let missing =
        compare_attribute_with_schema(&schema, "cn=alice", &entry.attributes, "nothing", "x");
    assert!(matches!(missing, Err(FilterSchemaError::UndefinedAttribute(_))));
}

#[test]
fn numbers_are_ordered_by_value() {
    let mut schema = core_schema();
    schema.attribute_types.push(example_number());
    let plan = compile_filter("(exampleNumber<=-2)").unwrap().prepare_with_schema(&schema).unwrap();
    for (value, expected) in [("-10", true), ("-2", true), ("-1", false), ("7", false)] {
        let mut entry = test_entry("cn=a", "person", "A");
        entry.attributes.insert("examplenumber".to_string(), vec![value.to_string()]);
        assert_eq!(plan.matches_entry(&entry).unwrap(), expected, "{}", value);
    }
}

#[test]
fn an_approximate_hint_finds_matches_in_any_case() {
    let filter = compile_filter("(&(!(ou=x))(cn~=ALICE))").unwrap();
    let mut attributes = Attributes::new();
    attributes.insert("cn".to_string(), vec!["alice".to_string()]);
    assert!(filter.matches_attributes("cn=alice", &attributes));
    match filter.search_candidate_hint() {
        Some(SearchCandidateHint::Equality { attribute, value }) => {
            let values = attributes.get(&attribute).unwrap();
            assert!(!values.contains(&value));
            assert!(values.iter().any(|v| v.eq_ignore_ascii_case(&value)));
        }
        other => panic!("{:?}", other),
    }
}
