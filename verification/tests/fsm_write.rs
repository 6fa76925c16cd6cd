use opendr::directory::Attributes;
use opendr::fsm_write::{
    encode_add_entry_for_write_fsm, unknown_attribute, AddFacts, AddRequest, CompareFacts,
    CompareRequest, DeleteFacts, DeleteRequest, ModDnFacts, ModDnRequest, ModifyFacts,
    ModifyRequest, NativeModifyError, Permission, SchemaModifyFacts, WriteOperation, WriteStep,
};
use opendr::response::{
    BackendError, CompareFsmError, FsmResponseKind, RequestHead, ResponseOp, ResultCode,
    WriteFsmError,
};
use opendr::schema::{AttributeType, LdapSchema};

fn head(op: ResponseOp) -> RequestHead {
    RequestHead { message_id: 9, kind: FsmResponseKind::Result(op) }
}

fn code(step: WriteStep) -> ResultCode {
    match step {
        WriteStep::Answer { reply, .. } => reply.code,
        other => panic!("no answer: {:?}", other),
    }
}

#[test]
fn a_delete_is_authorized_then_done() {
    let request = DeleteRequest::new(head(ResponseOp::Delete), " cn=a ", Some("cn=b".to_string()));
    let mut facts = DeleteFacts { authorized: None, started: None, validated: None };
    match request.step(&facts) {
        WriteStep::Authorize(question) => {
            assert_eq!(question.permission, Permission::Delete);
            assert_eq!(question.dn, "cn=a");
        }
        other => panic!("{:?}", other),
    }
    facts.authorized = Some(false);
    assert!(matches!(request.step(&facts), WriteStep::Stop));
    facts.authorized = Some(true);
    assert!(
        matches!(request.step(&facts), WriteStep::StartWrite { operation: WriteOperation::Delete { dn }, .. } if dn == "cn=a")
    );
    facts.started = Some(Err(WriteFsmError::NoSuchObject));
    assert_eq!(code(request.step(&facts)), ResultCode::NoSuchObject);
    facts.started = Some(Ok(()));
    assert!(matches!(request.step(&facts), WriteStep::CompleteValidation));
    facts.validated = Some(Ok(()));
    assert_eq!(code(request.step(&facts)), ResultCode::Success);
}

fn add_request(managed: Option<String>) -> AddRequest {
    let mut attributes = Attributes::new();
    attributes.insert("sn".to_string(), vec!["B".to_string()]);
    attributes.insert("cn".to_string(), vec!["A".to_string(), "AA".to_string()]);
    AddRequest {
        head: head(ResponseOp::Add),
        dn: "cn=a".to_string(),
        attributes,
        bound_dn: None,
        managed,
    }
}

#[test]
fn an_entry_to_add_is_handed_on_in_lines() {
    let request = add_request(None);
    let expected = b"dn: cn=a\ncn: A\ncn: AA\nsn: B\n".to_vec();
    assert_eq!(encode_add_entry_for_write_fsm("cn=a", &request.attributes), expected);
    let facts = AddFacts {
        authorized: Some(true),
        attributes_authorized: Some(true),
        started: None,
        validated: None,
    };
    assert!(
        matches!(request.step(&facts), WriteStep::StartWrite { operation: WriteOperation::Add { entry, .. }, .. } if entry == expected)
    );
    let done = AddFacts { started: Some(Ok(())), validated: Some(Ok(())), ..facts };
    assert_eq!(code(request.step(&done)), ResultCode::Success);
    let refused = AddFacts {
        authorized: Some(true),
        attributes_authorized: Some(true),
        started: Some(Err(WriteFsmError::EntryAlreadyExists)),
        validated: None,
    };
    assert_eq!(code(request.step(&refused)), ResultCode::EntryAlreadyExists);
}

#[test]
fn attributes_that_the_server_keeps_are_not_added() {
    let request = add_request(Some("kept".to_string()));
    let facts = AddFacts {
        authorized: Some(true),
        attributes_authorized: None,
        started: None,
        validated: None,
    };
    assert_eq!(code(request.step(&facts)), ResultCode::UnwillingToPerform);
}

fn schema() -> LdapSchema {
    LdapSchema {
        attribute_types: vec![AttributeType {
            oid: "2.5.4.3".to_string(),
            names: vec!["cn".to_string()],
            syntax: "1".to_string(),
            equality: None,
            ordering: None,
            substring: None,
        }],
        matching_rules: vec![],
    }
}

#[test]
fn a_modify_needs_known_attributes() {
    let schema = schema();
    let names = vec!["CN".to_string(), "zz".to_string()];
    assert_eq!(unknown_attribute(&schema, &names), Some(&"zz".to_string()));
    let mut request = ModifyRequest {
        head: head(ResponseOp::Modify),
        dn: "cn=a".to_string(),
        attributes: names,
        bound_dn: None,
        managed: None,
    };
    let mut facts = ModifyFacts {
        authorized: Some(true),
        attributes_authorized: Some(true),
        modified: None,
    };
    assert!(matches!(request.step(&schema, &facts), WriteStep::Answer { .. }));
    request.attributes.pop();
    assert!(matches!(request.step(&schema, &facts), WriteStep::ModifyEntry { .. }));
    facts.modified = Some(Err(NativeModifyError::Backend(BackendError::NotFound)));
    assert_eq!(code(request.step(&schema, &facts)), ResultCode::NoSuchObject);
    facts.modified = Some(Ok(()));
    assert_eq!(code(request.step(&schema, &facts)), ResultCode::Success);
    let schema_facts = SchemaModifyFacts {
        authorized: Some(true),
        attributes_authorized: Some(true),
        updated: Some(Err((ResultCode::ConstraintViolation, "no".to_string()))),
    };
    assert_eq!(code(request.schema_step(&schema_facts)), ResultCode::ConstraintViolation);
}

#[test]
fn a_rename_needs_the_entry_and_a_valid_name() {
    let request =
        ModDnRequest::new(head(ResponseOp::ModifyDn), "cn=a", "cn=b", true, None, None);
    let mut facts = ModDnFacts {
        authorized: Some(true),
        found: None,
        rdn_valid: None,
        started: None,
        validated: None,
    };
    assert!(matches!(request.step(&facts), WriteStep::LookUp(dn) if dn == "cn=a"));
    facts.found = Some(Ok(false));
    assert_eq!(code(request.step(&facts)), ResultCode::NoSuchObject);
    facts.found = Some(Ok(true));
    assert!(matches!(request.step(&facts), WriteStep::ValidateRdn(_)));
    facts.rdn_valid = Some(Err("bad".to_string()));
    assert_eq!(code(request.step(&facts)), ResultCode::ObjectClassViolation);
    facts.rdn_valid = Some(Ok(()));
    facts.started = Some(Ok(()));
    facts.validated = Some(Ok(()));
    assert_eq!(code(request.step(&facts)), ResultCode::Success);
}

#[test]
fn a_compare_tells_true_and_false() {
    let request =
        CompareRequest::new(head(ResponseOp::Compare), "cn=a", "cn", b"A".to_vec());
    let mut facts = CompareFacts {
        authorized: Some(true),
        started: None,
        read: None,
        result: None,
        emitted: None,
    };
    assert!(matches!(request.step(&facts), WriteStep::StartCompare { .. }));
    facts.started = Some(Ok(()));
    assert!(matches!(request.step(&facts), WriteStep::ReadEntry));
    facts.read = Some(Err(CompareFsmError::NoSuchAttribute));
    assert_eq!(code(request.step(&facts)), ResultCode::CompareFalse);
    facts.read = Some(Ok(()));
    assert!(matches!(request.step(&facts), WriteStep::TakeResult));
    facts.result = Some(Some(true));
    assert!(matches!(request.step(&facts), WriteStep::EmitResult));
    facts.emitted = Some(Ok(()));
    assert_eq!(code(request.step(&facts)), ResultCode::CompareTrue);
    facts.result = Some(Some(false));
    assert_eq!(code(request.step(&facts)), ResultCode::CompareFalse);
    facts.result = Some(None);
    assert!(matches!(request.step(&facts), WriteStep::Fail(_)));
}
