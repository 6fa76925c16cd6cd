use opendr::directory::{Attributes, OperationalAttributes};
use opendr::operational_attrs::{
    filter_operational_attributes, filter_user_attributes, merge_attributes,
    parse_attribute_request,
};

fn operational_of_new_entry(creator: &str) -> OperationalAttributes {
    let mut kept = Attributes::new();
    kept.insert("createtimestamp".to_string(), vec!["20250107120000Z".to_string()]);
    kept.insert("creatorsname".to_string(), vec![creator.to_string()]);
    kept.insert("modifytimestamp".to_string(), vec!["20250107120000Z".to_string()]);
    kept.insert(
        "entrycsn".to_string(),
        vec!["20250107120000.000000Z#000001#000#000000".to_string()],
    );
    OperationalAttributes::new(kept)
}

#[test]
fn test_parse_empty_request() {
    let (user, operational, specific) = parse_attribute_request(&[]);
    assert!(user, "Empty request should include user attributes");
    assert!(
        !operational,
        "Empty request should not include operational attributes"
    );
    assert!(
        specific.is_empty(),
        "Empty request should have no specific operational attributes"
    );
}

#[test]
fn test_parse_user_only() {
    let attrs = vec!["cn".to_string(), "mail".to_string()];
    let (user, operational, specific) = parse_attribute_request(&attrs);
    assert!(user);
    assert!(!operational);
    assert!(specific.is_empty());
}

#[test]
fn test_parse_all_operational() {
    let attrs = vec!["+".to_string()];
    let (user, operational, specific) = parse_attribute_request(&attrs);
    assert!(!user, "Only '+' should not include user attributes");
    assert!(operational);
    assert!(specific.is_empty());
}

#[test]
fn test_parse_all_user_and_operational() {
    let attrs = vec!["*".to_string(), "+".to_string()];
    let (user, operational, specific) = parse_attribute_request(&attrs);
    assert!(user);
    assert!(operational);
    assert!(specific.is_empty());
}

#[test]
fn test_parse_specific_operational() {
    let attrs = vec!["entrycsn".to_string(), "modifytimestamp".to_string()];
    let (user, operational, specific) = parse_attribute_request(&attrs);
    assert!(
        !user,
        "Only operational attrs should not include user attributes"
    );
    assert!(
        !operational,
        "Specific operational should not set include_all flag"
    );
    assert_eq!(specific.len(), 2);
    assert!(specific.contains(&"entrycsn".to_string()));
    assert!(specific.contains(&"modifytimestamp".to_string()));
}

#[test]
fn test_parse_mixed_user_and_operational() {
    let attrs = vec!["cn".to_string(), "entrycsn".to_string(), "mail".to_string()];
    let (user, operational, specific) = parse_attribute_request(&attrs);
    assert!(user);
    assert!(!operational);
    assert_eq!(specific.len(), 1);
    assert!(specific.contains(&"entrycsn".to_string()));
}

#[test]
fn test_filter_operational_none_requested() {
    let op_attrs = operational_of_new_entry("cn=admin");
    let requested = vec!["cn".to_string(), "mail".to_string()];

    let result = filter_operational_attributes(&op_attrs, &requested);
    assert!(
        result.is_empty(),
        "Should not return operational attrs when not requested"
    );
}

#[test]
fn test_filter_operational_all_requested() {
    let op_attrs = operational_of_new_entry("cn=admin");
    let requested = vec!["+".to_string()];

    let result = filter_operational_attributes(&op_attrs, &requested);
    assert!(
        !result.is_empty(),
        "Should return operational attrs when '+' requested"
    );
    assert!(result.contains_key("entrycsn"), "Should include entryCSN");
    assert!(
        result.contains_key("createtimestamp"),
        "Should include createTimestamp"
    );
}

#[test]
fn test_filter_operational_specific_requested() {
    let op_attrs = operational_of_new_entry("cn=admin");
    let requested = vec!["entrycsn".to_string()];

    let result = filter_operational_attributes(&op_attrs, &requested);
    assert_eq!(
        result.len(),
        1,
        "Should return only requested operational attr"
    );
    assert!(result.contains_key("entrycsn"), "Should include entryCSN");
    assert!(
        !result.contains_key("createtimestamp"),
        "Should not include non-requested attr"
    );
}

#[test]
fn test_merge_attributes() {
    let mut user_attrs = Attributes::new();
    user_attrs.insert("cn".to_string(), vec!["John Doe".to_string()]);
    user_attrs.insert("mail".to_string(), vec!["john@example.com".to_string()]);

    let mut op_attrs = Attributes::new();
    op_attrs.insert(
        "entrycsn".to_string(),
        vec!["20250107120000.000000Z#000001#000#000000".to_string()],
    );

    let result = merge_attributes(user_attrs.copy(), op_attrs.copy());

    assert_eq!(result.len(), 3);
    assert_eq!(result.get("cn"), user_attrs.get("cn"));
    assert_eq!(result.get("mail"), user_attrs.get("mail"));
    assert_eq!(result.get("entrycsn"), op_attrs.get("entrycsn"));
}

#[test]
fn operational_values_replace_user_values_of_the_same_name() {
    let mut user = Attributes::new();
    user.insert("entrycsn".to_string(), vec!["mine".to_string()]);
    let mut kept = Attributes::new();
    kept.insert("entrycsn".to_string(), vec!["theirs".to_string()]);
    let merged = merge_attributes(user, kept);
    assert_eq!(merged.len(), 1);
    assert_eq!(merged.get("entrycsn"), Some(&vec!["theirs".to_string()]));
}

#[test]
fn user_attributes_are_chosen_by_name() {
    let mut user = Attributes::new();
    user.insert("cn".to_string(), vec!["Ann".to_string()]);
    user.insert("mail".to_string(), vec!["a@example.com".to_string()]);
    let chosen = filter_user_attributes(&user, &["MAIL".to_string()]);
    assert_eq!(chosen.len(), 1);
    assert!(chosen.contains_key("mail"));
    assert!(filter_user_attributes(&user, &["+".to_string()]).is_empty());
    assert_eq!(filter_user_attributes(&user, &["*".to_string()]).len(), 2);
    assert_eq!(filter_user_attributes(&user, &[]).len(), 2);
}
