use opendr::fsm_bind::{
    AuthFailure, AuthenticationChoice, BindFacts, BindRecord, BindRequest, BindStep,
    PlainCredentials,
};
use opendr::fsm_extended::{
    make_up_password, CancelRequestOutcome, CustomResultCode, ExtendedFacts, ExtendedRequest,
    ExtendedStep, PasswordModifyValue,
};
use opendr::response::ResultCode;

fn facts() -> BindFacts {
    BindFacts { reset: true, plain: None, outcome: None, bound_dn: None }
}

fn simple(name: &str, password: &[u8]) -> BindRequest {
    BindRequest {
        message_id: 3,
        version: 3,
        name: name.to_string(),
        authentication: AuthenticationChoice::Simple(password.to_vec()),
        secure: false,
        by_password: true,
    }
}

fn plain(secure: bool) -> BindRequest {
    BindRequest {
        authentication: AuthenticationChoice::Sasl {
            mechanism: "PLAIN".to_string(),
            credentials: Some(b"\0cn=a\0secret".to_vec()),
        },
        secure,
        ..simple("", b"")
    }
}

fn code(step: BindStep) -> ResultCode {
    match step {
        BindStep::Answer { reply, .. } => reply.code,
        other => panic!("no answer: {:?}", other),
    }
}

#[test]
fn a_bind_by_a_mechanism_starts_anew() {
    let step = plain(true).step(&BindFacts { reset: false, ..facts() });
    assert!(matches!(step, BindStep::ResetAuthentication));
    let old = BindRequest { version: 2, ..simple("cn=a", b"x") };
    assert_eq!(code(old.step(&facts())), ResultCode::ProtocolError);
}

#[test]
fn a_password_bind_goes_by_the_directory() {
    let request = simple(" cn=a ", b"secret");
    assert!(
        matches!(request.step(&facts()), BindStep::Authenticate { dn, password } if dn == "cn=a" && password == b"secret".to_vec())
    );
    let good = BindFacts {
        outcome: Some(Ok(())),
        bound_dn: Some("cn=a".to_string()),
        ..facts()
    };
    match request.step(&good) {
        BindStep::Answer { record, reply, .. } => {
            assert_eq!(record, BindRecord::Success("cn=a".to_string()));
            assert_eq!(reply.code, ResultCode::Success);
        }
        other => panic!("{:?}", other),
    }
    let wrong = BindFacts { outcome: Some(Ok(())), ..facts() };
    assert_eq!(code(request.step(&wrong)), ResultCode::InvalidCredentials);
    let failed = BindFacts {
        outcome: Some(Err(AuthFailure { directory: true, shown: "down".to_string() })),
        ..facts()
    };
    assert_eq!(code(request.step(&failed)), ResultCode::InvalidCredentials);
    assert_eq!(code(simple(" ", b"").step(&wrong)), ResultCode::Success);
}

#[test]
fn plain_needs_a_protected_connection() {
    assert_eq!(code(plain(false).step(&facts())), ResultCode::ConfidentialityRequired);
    assert!(matches!(plain(true).step(&facts()), BindStep::ParsePlain(_)));
}

#[test]
fn plain_binds_go_by_the_directory_too() {
    let request = plain(true);
    let parsed = |authzid: &str| {
        Some(Ok(PlainCredentials {
            authzid: authzid.to_string(),
            authcid: "cn=a".to_string(),
            password: b"secret".to_vec(),
        }))
    };
    let known = BindFacts { plain: parsed(""), ..facts() };
    assert!(matches!(request.step(&known), BindStep::Authenticate { dn, .. } if dn == "cn=a"));
    let good = BindFacts {
        plain: parsed(""),
        outcome: Some(Ok(())),
        bound_dn: Some("cn=a".to_string()),
        ..facts()
    };
    assert_eq!(code(request.step(&good)), ResultCode::Success);
    let proxy = BindFacts { plain: parsed("dn:cn=other"), ..facts() };
    assert!(matches!(request.step(&proxy), BindStep::Answer { .. }));
    let malformed = BindFacts { plain: Some(Err("bad".to_string())), ..facts() };
    assert_ne!(code(request.step(&malformed)), ResultCode::Success);
}

#[test]
fn other_mechanisms_are_not_supported() {
    let request = BindRequest {
        authentication: AuthenticationChoice::Sasl {
            mechanism: "GSSAPI".to_string(),
            credentials: None,
        },
        ..plain(true)
    };
    assert_eq!(code(request.step(&facts())), ResultCode::AuthMethodNotSupported);
}

fn extended(oid: &str) -> ExtendedRequest {
    ExtendedRequest {
        message_id: 4,
        oid: oid.to_string(),
        value: None,
        secure: true,
        tls_available: true,
        bound_dn: Some("cn=a".to_string()),
    }
}

fn unknown() -> ExtendedFacts {
    ExtendedFacts {
        upgraded: false,
        cancel_id: None,
        cancel_outcome: None,
        password_request: None,
        authenticated: None,
        made_up: None,
        modified: None,
        encoded: None,
    }
}

#[test]
fn who_am_i_tells_the_name() {
    match extended("1.3.6.1.4.1.4203.1.11.3").step(&unknown()) {
        ExtendedStep::AnswerValue { value, .. } => {
            assert_eq!(value, Some(b"dn:cn=a".to_vec()));
        }
        other => panic!("{:?}", other),
    }
}

#[test]
fn protection_is_started_once() {
    let oid = "1.3.6.1.4.1.1466.20037";
    assert!(
        matches!(extended(oid).step(&unknown()), ExtendedStep::Answer { reply, .. } if reply.code == ResultCode::OperationsError)
    );
    let open = ExtendedRequest { secure: false, ..extended(oid) };
    assert!(matches!(open.step(&unknown()), ExtendedStep::AnswerAndProtect(_)));
    let without = ExtendedRequest { secure: false, tls_available: false, ..extended(oid) };
    assert!(
        matches!(without.step(&unknown()), ExtendedStep::Answer { reply, .. } if reply.code == ResultCode::Unavailable)
    );
    let upgraded = ExtendedFacts { upgraded: true, ..unknown() };
    assert!(matches!(open.step(&upgraded), ExtendedStep::StartAnew { .. }));
}

#[test]
fn operations_are_cancelled_by_their_ids() {
    let request = extended("1.3.6.1.1.8");
    assert!(matches!(request.step(&unknown()), ExtendedStep::ParseCancel(None)));
    let named = ExtendedFacts { cancel_id: Some(Ok(12)), ..unknown() };
    assert!(matches!(request.step(&named), ExtendedStep::Cancel(12)));
    let late = ExtendedFacts {
        cancel_id: Some(Ok(12)),
        cancel_outcome: Some(CancelRequestOutcome::TooLate),
        ..unknown()
    };
    assert!(
        matches!(request.step(&late), ExtendedStep::AnswerCancel { code: CustomResultCode::TooLate, .. })
    );
}

#[test]
fn a_made_up_password_is_told_and_set() {
    let request = extended("1.3.6.1.4.1.4203.1.11.1");
    assert!(matches!(request.step(&unknown()), ExtendedStep::ParsePasswordModify(None)));
    let asked = || {
        Some(Ok(PasswordModifyValue {
            user_identity: None,
            old_password: Some(b"old".to_vec()),
            new_password: None,
        }))
    };
    let first = ExtendedFacts { password_request: asked(), ..unknown() };
    assert!(matches!(request.step(&first), ExtendedStep::Authenticate { dn, .. } if dn == "cn=a"));
    let second = ExtendedFacts {
        password_request: asked(),
        authenticated: Some(Ok(true)),
        ..unknown()
    };
    assert!(matches!(request.step(&second), ExtendedStep::MakeUpPassword));
    let third = ExtendedFacts {
        password_request: asked(),
        authenticated: Some(Ok(true)),
        made_up: Some("abc".to_string()),
        ..unknown()
    };
    assert!(
        matches!(request.step(&third), ExtendedStep::ReplacePassword { password, .. } if password == "abc")
    );
    let fourth = ExtendedFacts {
        password_request: asked(),
        authenticated: Some(Ok(true)),
        made_up: Some("abc".to_string()),
        modified: Some(Ok(())),
        ..unknown()
    };
    assert!(
        matches!(request.step(&fourth), ExtendedStep::EncodePassword(Some(bytes)) if bytes == b"abc".to_vec())
    );
    let wrong = ExtendedFacts {
        password_request: asked(),
        authenticated: Some(Ok(false)),
        ..unknown()
    };
    assert!(
        matches!(request.step(&wrong), ExtendedStep::Answer { reply, .. } if reply.code == ResultCode::InvalidCredentials)
    );
    let open = ExtendedRequest { secure: false, ..request };
    assert!(
        matches!(open.step(&unknown()), ExtendedStep::Answer { reply, .. } if reply.code == ResultCode::ConfidentialityRequired)
    );
}

#[test]
fn passwords_are_made_up_of_letters_and_digits() {
    let one = make_up_password();
    let two = make_up_password();
    assert_eq!(one.len(), 24);
    assert!(one.chars().all(|c| c.is_ascii_alphanumeric()));
    assert_ne!(one, two);
}

#[test]
fn unknown_extensions_are_refused() {
    assert!(
        matches!(extended("1.2.3").step(&unknown()), ExtendedStep::Answer { reply, .. } if reply.code == ResultCode::ProtocolError)
    );
}
