use opendr::fsm_bind::AuthenticationChoice;
use opendr::fsm_server::ProtocolOp;
use opendr::ldap_controls::RequestControls;
use opendr::ldap_filter_eval::SearchFilter;
use opendr::ldap_message::{
    requests_in, FrameDecoder, LdapRequest, ModificationKind, RequestBody, SentAttribute,
};
use opendr::response::{FsmResponseKind, RequestHead, ResponseOp};

fn wrap(tag: u8, parts: &[Vec<u8>]) -> Vec<u8> {
    let body: Vec<u8> = parts.concat();
    let mut out = vec![tag];
    if body.len() < 128 {
        out.push(body.len() as u8);
    } else {
        out.push(0x82);
        out.push((body.len() / 256) as u8);
        out.push((body.len() % 256) as u8);
    }
    out.extend(body);
    out
}

fn octets(tag: u8, text: &str) -> Vec<u8> {
    wrap(tag, &[text.as_bytes().to_vec()])
}

fn message(id: u8, op: Vec<u8>) -> Vec<u8> {
    wrap(0x30, &[vec![0x02, 0x01, id], op])
}

fn only(bytes: &[u8]) -> LdapRequest {
    let mut all = requests_in(bytes).unwrap();
    assert_eq!(all.len(), 1);
    all.remove(0)
}

#[test]
fn a_request_to_delete_is_read() {
    let request = only(&message(7, octets(0x4a, " cn=a,dc=b ")));
    assert_eq!(request.message_id, 7);
    assert_eq!(request.kind(), ProtocolOp::Delete);
    assert_eq!(
        request.head(),
        RequestHead { message_id: 7, kind: FsmResponseKind::Result(ResponseOp::Delete) }
    );
    assert!(request.controls.is_empty());
    let delete = request.into_delete(Some("cn=admin".to_string())).unwrap();
    assert_eq!(delete.dn, "cn=a,dc=b");
    assert_eq!(delete.bound_dn, Some("cn=admin".to_string()));
}

#[test]
fn a_request_to_bind_is_read() {
    let op = wrap(0x60, &[vec![0x02, 0x01, 3], octets(0x04, "cn=a"), octets(0x80, "secret")]);
    let request = only(&message(1, op));
    assert_eq!(request.response_kind(), FsmResponseKind::Bind);
    let bind = request.into_bind(true, false).unwrap();
    assert_eq!(bind.message_id, 1);
    assert_eq!(bind.version, 3);
    assert_eq!(bind.name, "cn=a");
    assert_eq!(bind.authentication, AuthenticationChoice::Simple(b"secret".to_vec()));
    assert!(bind.secure);
    assert!(!bind.by_password);

    let sasl = wrap(0xa3, &[octets(0x04, "PLAIN"), octets(0x04, "x")]);
    let op = wrap(0x60, &[vec![0x02, 0x01, 3], octets(0x04, ""), sasl]);
    let bind = only(&message(1, op)).into_bind(false, true).unwrap();
    assert_eq!(
        bind.authentication,
        AuthenticationChoice::Sasl {
            mechanism: "PLAIN".to_string(),
            credentials: Some(b"x".to_vec()),
        }
    );
}

#[test]
fn a_search_is_read_with_its_filter_and_controls() {
    let equality = wrap(0xa3, &[octets(0x04, "cn"), octets(0x04, "x")]);
    let pieces = wrap(0x30, &[octets(0x80, "a"), octets(0x81, "b"), octets(0x82, "c")]);
    let pattern = wrap(0xa4, &[octets(0x04, "sn"), pieces]);
    let lower = wrap(0xa5, &[octets(0x04, "n"), octets(0x04, "1")]);
    let upper = wrap(0xa6, &[octets(0x04, "n"), octets(0x04, "2")]);
    let like = wrap(0xa8, &[octets(0x04, "n"), octets(0x04, "3")]);
    let not = wrap(0xa2, &[octets(0x87, "ou")]);
    let any = wrap(0xa1, &[lower, upper, like]);
    let filter = wrap(0xa0, &[equality, pattern, not, any]);
    let op = wrap(
        0x63,
        &[
            octets(0x04, "dc=b"),
            vec![0x0a, 0x01, 2],
            vec![0x0a, 0x01, 3],
            vec![0x02, 0x01, 10],
            vec![0x02, 0x01, 20],
            vec![0x01, 0x01, 0xff],
            filter,
            wrap(0x30, &[octets(0x04, "cn"), octets(0x04, "+")]),
        ],
    );
    let control = wrap(0x30, &[octets(0x04, "1.2.3"), vec![0x01, 0x01, 0xff], octets(0x04, "v")]);
    let bytes = wrap(0x30, &[vec![0x02, 0x01, 9], op, wrap(0xa0, &[control])]);
    let request = only(&bytes);
    assert_eq!(request.kind(), ProtocolOp::Search);
    assert_eq!(request.controls.len(), 1);
    assert_eq!(request.controls[0].oid(), "1.2.3");
    assert!(request.controls[0].criticality());
    assert_eq!(request.controls[0].value(), Some(b"v".as_slice()));
    let search = request
        .into_search(RequestControls::default(), "cn=Subschema".to_string())
        .unwrap();
    assert_eq!(search.base, "dc=b");
    assert_eq!((search.scope, search.deref_aliases), (2, 3));
    assert_eq!((search.size_limit, search.time_limit), (10, 20));
    assert!(search.types_only);
    assert_eq!(search.attributes, vec!["cn".to_string(), "+".to_string()]);
    let shown = format!("{:?}", search.filter);
    assert!(matches!(search.filter, SearchFilter::And(ref parts) if parts.len() == 4));
    for part in [
        "EqualityMatch { attribute: \"cn\", value: [120] }",
        "Substrings { attribute: \"sn\", substrings: [Initial([97]), Any([98]), Final([99])] }",
        "Not(Present { attribute: \"ou\" })",
        "Or([GreaterOrEqual { attribute: \"n\", value: [49] }, LessOrEqual { attribute: \"n\", value: [50] }, ApproxMatch { attribute: \"n\", value: [51] }])",
    ] {
        assert!(shown.contains(part), "{}", shown);
    }
}

#[test]
fn a_match_by_rule_is_read() {
    let rule = wrap(
        0xa9,
        &[octets(0x81, "2.5.13.2"), octets(0x82, "cn"), octets(0x83, "x"), vec![0x84, 0x01, 0xff]],
    );
    let op = wrap(
        0x63,
        &[
            octets(0x04, ""),
            vec![0x0a, 0x01, 0],
            vec![0x0a, 0x01, 0],
            vec![0x02, 0x01, 0],
            vec![0x02, 0x01, 0],
            vec![0x01, 0x01, 0],
            rule,
            wrap(0x30, &[]),
        ],
    );
    let search = only(&message(2, op))
        .into_search(RequestControls::default(), String::new())
        .unwrap();
    match search.filter {
        SearchFilter::ExtensibleMatch { rule_type, matching_rule, value, dn_attributes } => {
            assert_eq!(rule_type, Some("cn".to_string()));
            assert_eq!(matching_rule, Some("2.5.13.2".to_string()));
            assert_eq!(value, b"x".to_vec());
            assert_eq!(dn_attributes, Some(true));
        }
        other => panic!("{:?}", other),
    }
}

#[test]
fn a_request_to_modify_is_read() {
    let change = |operation: u8, name: &str, value: &str| {
        let attribute = wrap(0x30, &[octets(0x04, name), wrap(0x31, &[octets(0x04, value)])]);
        wrap(0x30, &[vec![0x0a, 0x01, operation], attribute])
    };
    let changes = wrap(0x30, &[change(0, "cn", "a"), change(1, "sn", "b"), change(2, "ou", "c")]);
    let request = only(&message(3, wrap(0x66, &[octets(0x04, " cn=a "), changes])));
    assert_eq!(request.modified_dn(), "cn=a");
    assert_eq!(request.written_names(), vec!["cn", "sn", "ou"]);
    let (modify, changes) = request.into_modify(None, Some("kept".to_string())).unwrap();
    assert_eq!(modify.dn, "cn=a");
    assert_eq!(modify.attributes, vec!["cn", "sn", "ou"]);
    assert_eq!(modify.managed, Some("kept".to_string()));
    let kinds: Vec<ModificationKind> = changes.iter().map(|change| change.kind).collect();
    assert_eq!(
        kinds,
        vec![ModificationKind::Add, ModificationKind::Delete, ModificationKind::Replace]
    );
    assert_eq!(changes[1].attribute, "sn");
    assert_eq!(changes[1].values, vec!["b"]);
}

#[test]
fn a_request_to_add_gathers_the_values_of_a_name() {
    let attribute =
        |name: &str, value: &str| wrap(0x30, &[octets(0x04, name), wrap(0x31, &[octets(0x04, value)])]);
    let list = wrap(0x30, &[attribute("CN", "a"), attribute("sn", "b"), attribute("cn", "c")]);
    let request = only(&message(4, wrap(0x68, &[octets(0x04, "cn=a"), list])));
    assert_eq!(request.written_names(), vec!["CN", "sn", "cn"]);
    let add = request.into_add(None, None).unwrap();
    assert_eq!(add.dn, "cn=a");
    assert_eq!(add.attributes.len(), 2);
    assert_eq!(add.attributes.get("cn"), Some(&vec!["a".to_string(), "c".to_string()]));
    assert_eq!(add.attributes.get("sn"), Some(&vec!["b".to_string()]));
}

#[test]
fn values_that_are_no_text_are_replaced() {
    let sent = SentAttribute { name: "cn".to_string(), values: vec![vec![0x61, 0xff]] };
    let request = LdapRequest {
        message_id: 1,
        op: RequestBody::Add { name: "cn=a".to_string(), attributes: vec![sent] },
        controls: vec![],
    };
    let add = request.into_add(None, None).unwrap();
    assert_eq!(add.attributes.get("cn"), Some(&vec!["a\u{fffd}".to_string()]));
}

#[test]
fn renames_comparisons_and_extended_requests_are_read() {
    let op = wrap(
        0x6c,
        &[octets(0x04, "cn=a"), octets(0x04, "cn=b"), vec![0x01, 0x01, 0xff], octets(0x80, "dc=c")],
    );
    let rename = only(&message(5, op)).into_moddn(None).unwrap();
    assert_eq!((rename.dn.as_str(), rename.new_rdn.as_str()), ("cn=a", "cn=b"));
    assert!(rename.delete_old);
    assert_eq!(rename.new_superior, Some("dc=c".to_string()));

    let assertion = wrap(0x30, &[octets(0x04, "sn"), octets(0x04, "x")]);
    let compare = only(&message(6, wrap(0x6e, &[octets(0x04, "cn=a"), assertion])))
        .into_compare()
        .unwrap();
    assert_eq!((compare.dn.as_str(), compare.attribute.as_str()), ("cn=a", "sn"));
    assert_eq!(compare.value, b"x".to_vec());

    let op = wrap(0x77, &[octets(0x80, "1.3.6.1"), octets(0x81, "v")]);
    let extended = only(&message(8, op)).into_extended(true, false, None).unwrap();
    assert_eq!((extended.message_id, extended.oid.as_str()), (8, "1.3.6.1"));
    assert_eq!(extended.value, Some(b"v".to_vec()));
    assert!(extended.secure);
}

#[test]
fn a_request_is_only_what_it_is() {
    let bytes = [message(1, vec![0x42, 0x00]), message(2, vec![0x50, 0x01, 7])].concat();
    let mut all = requests_in(&bytes).unwrap();
    assert_eq!(all.len(), 2);
    let abandon = all.remove(1);
    assert!(matches!(abandon.op, RequestBody::Abandon(7)));
    assert_eq!(abandon.response_kind(), FsmResponseKind::Silent);
    assert!(abandon.into_delete(None).is_none());
    let unbind = all.remove(0);
    assert_eq!(unbind.kind(), ProtocolOp::Unbind);
    assert!(unbind.into_bind(true, true).is_none());
}

#[test]
fn an_answer_asks_for_nothing() {
    let result = wrap(0x6b, &[vec![0x0a, 0x01, 0], octets(0x04, ""), octets(0x04, "")]);
    let request = only(&message(1, result));
    assert_eq!(request.kind(), ProtocolOp::Other);
    assert_eq!(request.response_kind(), FsmResponseKind::Silent);
}

#[test]
fn bytes_that_are_no_message_are_an_error() {
    assert!(requests_in(&[0x31, 0x00]).is_err());
    assert!(requests_in(&[]).is_err());
}

#[test]
fn frames_are_cut_out_of_what_comes_in() {
    let first = message(1, octets(0x4a, &"x".repeat(300)));
    let second = message(2, octets(0x4a, "cn=b"));
    let all = [first.clone(), second.clone()].concat();
    let mut whole = FrameDecoder::new();
    assert_eq!(
        whole.decode_available_messages(&all),
        Ok(vec![first.clone(), second.clone()])
    );
    assert!(whole.buffer.is_empty());
    let mut piecewise = FrameDecoder::new();
    let mut frames = Vec::new();
    for byte in &all {
        frames.extend(piecewise.decode_available_messages(&[*byte]).unwrap());
    }
    assert_eq!(frames, vec![first, second]);
}

#[test]
fn bytes_that_start_no_message_are_refused() {
    let mut decoder = FrameDecoder::new();
    assert_eq!(
        decoder.decode_available_messages(&[0x31]),
        Err("malformed LDAP message".to_string())
    );
    assert!(FrameDecoder::new().decode_available_messages(&[0x30, 0x80]).is_err());
    assert!(FrameDecoder::new().decode_available_messages(&[0x30, 0x85]).is_err());
    assert_eq!(FrameDecoder::new().decode_available_messages(&[0x30, 0x84]), Ok(vec![]));
}
