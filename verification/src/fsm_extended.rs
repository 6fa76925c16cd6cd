//! Extended requests: what the server does next, given what it has learned so
//! far.

use rand::distr::{Alphanumeric, SampleString};
use vstd::prelude::*;

use crate::ldap_controls;
use crate::response;
use crate::response::{
    backend_diagnostic, map_backend_error_code, BackendError, FsmResponseKind, Reply, ReplyView,
    RequestHead, ResponseOp, ResultCode,
};
use crate::text;

verus! {

/// The request to tell who the client is.
pub open spec fn who_am_i_oid() -> Seq<char> {
    "1.3.6.1.4.1.4203.1.11.3"@
}

/// The request to protect the connection.
pub open spec fn start_tls_oid() -> Seq<char> {
    "1.3.6.1.4.1.1466.20037"@
}

/// The request to cancel an operation.
pub open spec fn cancel_oid() -> Seq<char> {
    "1.3.6.1.1.8"@
}

/// The request to change a password.
pub open spec fn password_modify_oid() -> Seq<char> {
    "1.3.6.1.4.1.4203.1.11.1"@
}

/// An extended request.
#[derive(Debug, PartialEq, Eq)]
pub struct ExtendedRequest {
    pub message_id: u32,
    pub oid: String,
    pub value: Option<Vec<u8>>,
    /// The connection is protected.
    pub secure: bool,
    /// The server can protect connections.
    pub tls_available: bool,
    /// The name under which the client is known.
    pub bound_dn: Option<String>,
}

/// What a request to change a password asks for.
#[derive(Debug, PartialEq, Eq)]
pub struct PasswordModifyValue {
    pub user_identity: Option<String>,
    pub old_password: Option<Vec<u8>>,
    pub new_password: Option<Vec<u8>>,
}

/// What became of a request to cancel an operation.
#[derive(Debug, Clone, Copy, PartialEq, Eq, Structural)]
pub enum CancelRequestOutcome {
    Accepted,
    NoSuchOperation,
    TooLate,
    CannotCancel,
}

/// The result codes of the answer to a request to cancel.
#[derive(Debug, Clone, Copy, PartialEq, Eq, Structural)]
pub enum CustomResultCode {
    Success,
    ProtocolError,
    NoSuchOperation,
    TooLate,
    CannotCancel,
}

/// What is known of an extended request.
#[derive(Debug, PartialEq, Eq)]
pub struct ExtendedFacts {
    /// The connection was protected after the answer.
    pub upgraded: bool,
    /// The operation to cancel, or what is wrong with the request.
    pub cancel_id: Option<Result<u32, String>>,
    pub cancel_outcome: Option<CancelRequestOutcome>,
    /// What the request asks for, or what is wrong with it.
    pub password_request: Option<Result<PasswordModifyValue, String>>,
    /// The old password is right.
    pub authenticated: Option<Result<bool, BackendError>>,
    /// The password that the server made up.
    pub made_up: Option<String>,
    pub modified: Option<Result<(), BackendError>>,
    /// The value of the answer, or why it could not be encoded.
    pub encoded: Option<Result<Option<Vec<u8>>, String>>,
}

/// What is written into the audit log.
#[derive(Debug, PartialEq, Eq)]
#[allow(inconsistent_fields)]
pub enum ExtendedAudit {
    Nothing,
    StartTls { success: bool, reason: Option<&'static str> },
    PasswordModify {
        target_dn: Option<String>,
        mode: &'static str,
        generated: bool,
        success: bool,
        reason: Option<String>,
    },
}

/// What is done next for an extended request.
#[derive(Debug, PartialEq, Eq)]
#[allow(inconsistent_fields)]
pub enum ExtendedStep {
    /// Answers, then protects the connection.
    AnswerAndProtect(Reply),
    /// Forgets who the client is and its paged searches, and counts the
    /// states of a protected connection with an anonymous client.
    StartAnew { audit: ExtendedAudit },
    ParseCancel(Option<Vec<u8>>),
    Cancel(u32),
    AnswerCancel { message_id: u32, code: CustomResultCode, diagnostic: String },
    ParsePasswordModify(Option<Vec<u8>>),
    Authenticate { dn: String, password: Vec<u8> },
    MakeUpPassword,
    ReplacePassword { dn: String, password: String, actor: String },
    EncodePassword(Option<Vec<u8>>),
    /// The connection fails with this text.
    Fail(String),
    AnswerValue {
        audit: ExtendedAudit,
        message_id: u32,
        name: Option<&'static str>,
        value: Option<Vec<u8>>,
    },
    Answer { audit: ExtendedAudit, reply: Reply },
}

/// What an [`ExtendedAudit`] says.
#[allow(inconsistent_fields)]
pub enum ExtendedAuditView {
    Nothing,
    StartTls { success: bool, reason: Option<Seq<char>> },
    PasswordModify {
        target_dn: Option<Seq<char>>,
        mode: Seq<char>,
        generated: bool,
        success: bool,
        reason: Option<Seq<char>>,
    },
}

/// What an [`ExtendedStep`] says.
#[allow(inconsistent_fields)]
pub enum ExtendedStepView {
    AnswerAndProtect(ReplyView),
    StartAnew { audit: ExtendedAuditView },
    ParseCancel(Option<Seq<u8>>),
    Cancel(u32),
    AnswerCancel { message_id: u32, code: CustomResultCode, diagnostic: Seq<char> },
    ParsePasswordModify(Option<Seq<u8>>),
    Authenticate { dn: Seq<char>, password: Seq<u8> },
    MakeUpPassword,
    ReplacePassword { dn: Seq<char>, password: Seq<char>, actor: Seq<char> },
    EncodePassword(Option<Seq<u8>>),
    Fail(Seq<char>),
    AnswerValue {
        audit: ExtendedAuditView,
        message_id: u32,
        name: Option<Seq<char>>,
        value: Option<Seq<u8>>,
    },
    Answer { audit: ExtendedAuditView, reply: ReplyView },
}

/// The text of an optional literal.
pub open spec fn option_literal(s: Option<&'static str>) -> Option<Seq<char>> {
    match s {
        Some(s) => Some(s@),
        None => None,
    }
}

impl View for ExtendedAudit {
    type V = ExtendedAuditView;

    open spec fn view(&self) -> ExtendedAuditView {
        match self {
            ExtendedAudit::Nothing => ExtendedAuditView::Nothing,
            ExtendedAudit::StartTls { success, reason } => ExtendedAuditView::StartTls {
                success: *success,
                reason: option_literal(*reason),
            },
            ExtendedAudit::PasswordModify { target_dn, mode, generated, success, reason } => {
                ExtendedAuditView::PasswordModify {
                    target_dn: text::option_text(*target_dn),
                    mode: mode@,
                    generated: *generated,
                    success: *success,
                    reason: text::option_text(*reason),
                }
            },
        }
    }
}

impl View for ExtendedStep {
    type V = ExtendedStepView;

    open spec fn view(&self) -> ExtendedStepView {
        match self {
            ExtendedStep::AnswerAndProtect(reply) => ExtendedStepView::AnswerAndProtect(reply@),
            ExtendedStep::StartAnew { audit } => ExtendedStepView::StartAnew { audit: audit@ },
            ExtendedStep::ParseCancel(value) => ExtendedStepView::ParseCancel(
                ldap_controls::option_bytes(*value),
            ),
            ExtendedStep::Cancel(id) => ExtendedStepView::Cancel(*id),
            ExtendedStep::AnswerCancel { message_id, code, diagnostic } => {
                ExtendedStepView::AnswerCancel {
                    message_id: *message_id,
                    code: *code,
                    diagnostic: diagnostic@,
                }
            },
            ExtendedStep::ParsePasswordModify(value) => ExtendedStepView::ParsePasswordModify(
                ldap_controls::option_bytes(*value),
            ),
            ExtendedStep::Authenticate { dn, password } => ExtendedStepView::Authenticate {
                dn: dn@,
                password: password@,
            },
            ExtendedStep::MakeUpPassword => ExtendedStepView::MakeUpPassword,
            ExtendedStep::ReplacePassword { dn, password, actor } => {
                ExtendedStepView::ReplacePassword {
                    dn: dn@,
                    password: password@,
                    actor: actor@,
                }
            },
            ExtendedStep::EncodePassword(value) => ExtendedStepView::EncodePassword(
                ldap_controls::option_bytes(*value),
            ),
            ExtendedStep::Fail(message) => ExtendedStepView::Fail(message@),
            ExtendedStep::AnswerValue { audit, message_id, name, value } => {
                ExtendedStepView::AnswerValue {
                    audit: audit@,
                    message_id: *message_id,
                    name: option_literal(*name),
                    value: ldap_controls::option_bytes(*value),
                }
            },
            ExtendedStep::Answer { audit, reply } => ExtendedStepView::Answer {
                audit: audit@,
                reply: reply@,
            },
        }
    }
}

/// The reply to an extended request.
pub open spec fn extended_reply(
    message_id: u32,
    code: ResultCode,
    diagnostic: Seq<char>,
) -> ReplyView {
    response::plain(
        RequestHead { message_id, kind: FsmResponseKind::Result(ResponseOp::Extended) },
        code,
        diagnostic,
    )
}

fn reply_to_extended(message_id: u32, code: ResultCode, diagnostic: &str) -> (r: Reply)
    ensures
        r@ == extended_reply(message_id, code, diagnostic@),
{
    Reply::plain(
        RequestHead { message_id, kind: FsmResponseKind::Result(ResponseOp::Extended) },
        code,
        diagnostic,
    )
}

fn copy_option(v: &Option<Vec<u8>>) -> (r: Option<Vec<u8>>)
    ensures
        ldap_controls::option_bytes(r) == ldap_controls::option_bytes(*v),
{
    match v {
        Some(v) => Some(ldap_controls::copy_bytes(v)),
        None => None,
    }
}

// ---------------------------------------------------------------------------
// Protecting the connection
// ---------------------------------------------------------------------------

/// What is done next for a request to protect the connection.
pub open spec fn start_tls_step(req: ExtendedRequest, facts: ExtendedFacts) -> ExtendedStepView {
    if facts.upgraded {
        ExtendedStepView::StartAnew {
            audit: ExtendedAuditView::StartTls { success: true, reason: None },
        }
    } else if req.secure {
        ExtendedStepView::Answer {
            audit: ExtendedAuditView::StartTls {
                success: false,
                reason: Some("connection already uses TLS"@),
            },
            reply: extended_reply(
                req.message_id,
                ResultCode::OperationsError,
                "connection already uses TLS"@,
            ),
        }
    } else if !req.tls_available {
        ExtendedStepView::Answer {
            audit: ExtendedAuditView::StartTls {
                success: false,
                reason: Some("StartTLS is not available"@),
            },
            reply: extended_reply(
                req.message_id,
                ResultCode::Unavailable,
                "StartTLS is not available"@,
            ),
        }
    } else {
        ExtendedStepView::AnswerAndProtect(
            extended_reply(req.message_id, ResultCode::Success, ""@),
        )
    }
}

fn step_start_tls(req: &ExtendedRequest, facts: &ExtendedFacts) -> (r: ExtendedStep)
    ensures
        r@ == start_tls_step(*req, *facts),
{
    if facts.upgraded {
        ExtendedStep::StartAnew { audit: ExtendedAudit::StartTls { success: true, reason: None } }
    } else if req.secure {
        ExtendedStep::Answer {
            audit: ExtendedAudit::StartTls {
                success: false,
                reason: Some("connection already uses TLS"),
            },
            reply: reply_to_extended(
                req.message_id,
                ResultCode::OperationsError,
                "connection already uses TLS",
            ),
        }
    } else if !req.tls_available {
        ExtendedStep::Answer {
            audit: ExtendedAudit::StartTls {
                success: false,
                reason: Some("StartTLS is not available"),
            },
            reply: reply_to_extended(
                req.message_id,
                ResultCode::Unavailable,
                "StartTLS is not available",
            ),
        }
    } else {
        ExtendedStep::AnswerAndProtect(reply_to_extended(req.message_id, ResultCode::Success, ""))
    }
}

// ---------------------------------------------------------------------------
// Cancelling
// ---------------------------------------------------------------------------

/// The code and the text for what became of a request to cancel.
pub open spec fn cancel_answer(outcome: CancelRequestOutcome) -> (CustomResultCode, Seq<char>) {
    match outcome {
        CancelRequestOutcome::Accepted => (CustomResultCode::Success, ""@),
        CancelRequestOutcome::NoSuchOperation => {
            (CustomResultCode::NoSuchOperation, "no such operation"@)
        },
        CancelRequestOutcome::TooLate => (CustomResultCode::TooLate, "too late to cancel operation"@),
        CancelRequestOutcome::CannotCancel => {
            (CustomResultCode::CannotCancel, "operation cannot be canceled"@)
        },
    }
}

/// What is done next for a request to cancel an operation.
pub open spec fn cancel_step(req: ExtendedRequest, facts: ExtendedFacts) -> ExtendedStepView {
    match facts.cancel_id {
        None => ExtendedStepView::ParseCancel(ldap_controls::option_bytes(req.value)),
        Some(Err(e)) => ExtendedStepView::AnswerCancel {
            message_id: req.message_id,
            code: CustomResultCode::ProtocolError,
            diagnostic: e@,
        },
        Some(Ok(id)) => match facts.cancel_outcome {
            None => ExtendedStepView::Cancel(id),
            Some(outcome) => ExtendedStepView::AnswerCancel {
                message_id: req.message_id,
                code: cancel_answer(outcome).0,
                diagnostic: cancel_answer(outcome).1,
            },
        },
    }
}

fn step_cancel(req: &ExtendedRequest, facts: &ExtendedFacts) -> (r: ExtendedStep)
    ensures
        r@ == cancel_step(*req, *facts),
{
    match &facts.cancel_id {
        None => ExtendedStep::ParseCancel(copy_option(&req.value)),
        Some(Err(e)) => ExtendedStep::AnswerCancel {
            message_id: req.message_id,
            code: CustomResultCode::ProtocolError,
            diagnostic: e.clone(),
        },
        Some(Ok(id)) => match facts.cancel_outcome {
            None => ExtendedStep::Cancel(*id),
            Some(outcome) => {
                let (code, diagnostic) = match outcome {
                    CancelRequestOutcome::Accepted => (CustomResultCode::Success, ""),
                    CancelRequestOutcome::NoSuchOperation => {
                        (CustomResultCode::NoSuchOperation, "no such operation")
                    },
                    CancelRequestOutcome::TooLate => {
                        (CustomResultCode::TooLate, "too late to cancel operation")
                    },
                    CancelRequestOutcome::CannotCancel => {
                        (CustomResultCode::CannotCancel, "operation cannot be canceled")
                    },
                };
                ExtendedStep::AnswerCancel {
                    message_id: req.message_id,
                    code,
                    diagnostic: diagnostic.to_owned(),
                }
            },
        },
    }
}

// ---------------------------------------------------------------------------
// Changing a password
// ---------------------------------------------------------------------------

/// The length of a password that the server makes up.
pub const MADE_UP_LENGTH: usize = 24;

/// Letters and digits only.
pub open spec fn letters_and_digits(s: Seq<char>) -> bool {
    forall|i: int| 0 <= i < s.len() ==> text::is_alphanumeric(#[trigger] s[i])
}

/// Calls `sample_string` of `rand::distr::Alphanumeric` with the generator of
/// the thread: so many letters and digits. Which ones, chance decides.
#[verifier::external_body]
fn random_text(len: usize) -> (r: String)
    ensures
        r@.len() == len,
        letters_and_digits(r@),
{
    Alphanumeric.sample_string(&mut rand::rng(), len)
}

/// A password that the server makes up.
pub fn make_up_password() -> (r: String)
    ensures
        r@.len() == MADE_UP_LENGTH,
        letters_and_digits(r@),
{
    random_text(MADE_UP_LENGTH)
}

/// A refusal to change a password.
pub open spec fn password_refused(
    req: ExtendedRequest,
    target_dn: Option<Seq<char>>,
    mode: Seq<char>,
    generated: bool,
    answer: (ResultCode, Seq<char>),
) -> ExtendedStepView {
    ExtendedStepView::Answer {
        audit: ExtendedAuditView::PasswordModify {
            target_dn,
            mode,
            generated,
            success: false,
            reason: Some(answer.1),
        },
        reply: extended_reply(req.message_id, answer.0, answer.1),
    }
}

fn refuse_password(
    req: &ExtendedRequest,
    target_dn: Option<String>,
    mode: &'static str,
    generated: bool,
    code: ResultCode,
    diagnostic: &str,
) -> (r: ExtendedStep)
    ensures
        r@ == password_refused(
            *req,
            text::option_text(target_dn),
            mode@,
            generated,
            (code, diagnostic@),
        ),
{
    ExtendedStep::Answer {
        audit: ExtendedAudit::PasswordModify {
            target_dn,
            mode,
            generated,
            success: false,
            reason: Some(diagnostic.to_owned()),
        },
        reply: reply_to_extended(req.message_id, code, diagnostic),
    }
}

/// The new password: the one of the request, else the one that was made up.
pub open spec fn new_password(value: PasswordModifyValue, made_up: Option<String>) -> Option<
    Seq<u8>,
> {
    match value.new_password {
        Some(p) => Some(p@),
        None => match made_up {
            Some(p) => Some(vstd::utf8::encode_utf8(p@)),
            None => None,
        },
    }
}

/// What is done next once the old password was found right.
pub open spec fn replace_step(
    req: ExtendedRequest,
    bound_dn: Seq<char>,
    target_dn: Seq<char>,
    mode: Seq<char>,
    value: PasswordModifyValue,
    facts: ExtendedFacts,
) -> ExtendedStepView {
    let generated = value.new_password is None;
    match new_password(value, facts.made_up) {
        None => ExtendedStepView::MakeUpPassword,
        Some(bytes) => if !vstd::utf8::valid_utf8(bytes) {
            password_refused(
                req,
                Some(target_dn),
                mode,
                generated,
                (ResultCode::ProtocolError, "newPasswd must be valid UTF-8"@),
            )
        } else {
            match facts.modified {
                None => ExtendedStepView::ReplacePassword {
                    dn: target_dn,
                    password: vstd::utf8::decode_utf8(bytes),
                    actor: bound_dn,
                },
                Some(Err(err)) => password_refused(
                    req,
                    Some(target_dn),
                    mode,
                    generated,
                    (response::backend_code(err), response::backend_text(err)),
                ),
                Some(Ok(_)) => match facts.encoded {
                    None => ExtendedStepView::EncodePassword(
                        if generated {
                            Some(bytes)
                        } else {
                            None
                        },
                    ),
                    Some(Err(e)) => ExtendedStepView::Fail(e@),
                    Some(Ok(encoded)) => ExtendedStepView::AnswerValue {
                        audit: ExtendedAuditView::PasswordModify {
                            target_dn: Some(target_dn),
                            mode,
                            generated,
                            success: true,
                            reason: None,
                        },
                        message_id: req.message_id,
                        name: None,
                        value: ldap_controls::option_bytes(encoded),
                    },
                },
            }
        },
    }
}

fn step_replace(
    req: &ExtendedRequest,
    bound_dn: &String,
    target_dn: &String,
    mode: &'static str,
    value: &PasswordModifyValue,
    facts: &ExtendedFacts,
) -> (r: ExtendedStep)
    ensures
        r@ == replace_step(*req, bound_dn@, target_dn@, mode@, *value, *facts),
{
    let generated = value.new_password.is_none();
    let bytes = match &value.new_password {
        Some(p) => ldap_controls::copy_bytes(p),
        None => match &facts.made_up {
            Some(p) => text::bytes_of(p.as_str()),
            None => {
                return ExtendedStep::MakeUpPassword;
            },
        },
    };
    let password = match text::utf8_text(ldap_controls::copy_bytes(&bytes)) {
        Ok(password) => password,
        Err(_) => {
            return refuse_password(
                req,
                Some(target_dn.clone()),
                mode,
                generated,
                ResultCode::ProtocolError,
                "newPasswd must be valid UTF-8",
            );
        },
    };
    match &facts.modified {
        None => {
            return ExtendedStep::ReplacePassword {
                dn: target_dn.clone(),
                password,
                actor: bound_dn.clone(),
            };
        },
        Some(Err(err)) => {
            return refuse_password(
                req,
                Some(target_dn.clone()),
                mode,
                generated,
                map_backend_error_code(err),
                backend_diagnostic(err),
            );
        },
        Some(Ok(_)) => {},
    }
    match &facts.encoded {
        None => ExtendedStep::EncodePassword(
            if generated {
                Some(bytes)
            } else {
                None
            },
        ),
        Some(Err(e)) => ExtendedStep::Fail(e.clone()),
        Some(Ok(encoded)) => ExtendedStep::AnswerValue {
            audit: ExtendedAudit::PasswordModify {
                target_dn: Some(target_dn.clone()),
                mode,
                generated,
                success: true,
                reason: None,
            },
            message_id: req.message_id,
            name: None,
            value: copy_option(encoded),
        },
    }
}

/// Whether a request changes the client's own password or resets another's.
pub open spec fn password_mode(value: PasswordModifyValue) -> Seq<char> {
    if value.user_identity is Some {
        "password-reset"@
    } else {
        "self-service"@
    }
}

/// Whose password a request changes.
pub open spec fn password_target(value: PasswordModifyValue, bound_dn: Seq<char>) -> Seq<char> {
    match value.user_identity {
        Some(dn) => dn@,
        None => bound_dn,
    }
}

/// What is done next for a request to change a password that is well formed.
pub open spec fn change_step(
    req: ExtendedRequest,
    bound_dn: Seq<char>,
    value: PasswordModifyValue,
    facts: ExtendedFacts,
) -> ExtendedStepView {
    let target_dn = password_target(value, bound_dn);
    let mode = password_mode(value);
    if text::lower(target_dn) != text::lower(bound_dn) {
        password_refused(
            req,
            Some(target_dn),
            mode,
            false,
            (
                ResultCode::InsufficientAccessRights,
                "password resets require explicit authorization"@,
            ),
        )
    } else {
        match value.old_password {
            None => password_refused(
                req,
                Some(target_dn),
                mode,
                false,
                (
                    ResultCode::UnwillingToPerform,
                    "Self-service password changes require oldPasswd"@,
                ),
            ),
            Some(old_password) => match facts.authenticated {
                None => ExtendedStepView::Authenticate {
                    dn: target_dn,
                    password: old_password@,
                },
                Some(Err(err)) => password_refused(
                    req,
                    Some(target_dn),
                    mode,
                    false,
                    (response::backend_code(err), response::backend_text(err)),
                ),
                Some(Ok(false)) => password_refused(
                    req,
                    Some(target_dn),
                    mode,
                    false,
                    (ResultCode::InvalidCredentials, "invalid credentials"@),
                ),
                Some(Ok(true)) => replace_step(req, bound_dn, target_dn, mode, value, facts),
            },
        }
    }
}

fn step_change(
    req: &ExtendedRequest,
    bound_dn: &String,
    value: &PasswordModifyValue,
    facts: &ExtendedFacts,
) -> (r: ExtendedStep)
    ensures
        r@ == change_step(*req, bound_dn@, *value, *facts),
{
    let target_dn = match &value.user_identity {
        Some(dn) => dn.clone(),
        None => bound_dn.clone(),
    };
    let mode = if value.user_identity.is_some() {
        "password-reset"
    } else {
        "self-service"
    };
    if !text::eq_ignore_case(target_dn.as_str(), bound_dn.as_str()) {
        return refuse_password(
            req,
            Some(target_dn),
            mode,
            false,
            ResultCode::InsufficientAccessRights,
            "password resets require explicit authorization",
        );
    }
    let old_password = match &value.old_password {
        Some(old_password) => old_password,
        None => {
            return refuse_password(
                req,
                Some(target_dn),
                mode,
                false,
                ResultCode::UnwillingToPerform,
                "Self-service password changes require oldPasswd",
            );
        },
    };
    match &facts.authenticated {
        None => ExtendedStep::Authenticate {
            dn: target_dn,
            password: ldap_controls::copy_bytes(old_password),
        },
        Some(Err(err)) => refuse_password(
            req,
            Some(target_dn),
            mode,
            false,
            map_backend_error_code(err),
            backend_diagnostic(err),
        ),
        Some(Ok(false)) => refuse_password(
            req,
            Some(target_dn),
            mode,
            false,
            ResultCode::InvalidCredentials,
            "invalid credentials",
        ),
        Some(Ok(true)) => step_replace(req, bound_dn, &target_dn, mode, value, facts),
    }
}

/// What is done next for a request to change a password.
pub open spec fn password_step(req: ExtendedRequest, facts: ExtendedFacts) -> ExtendedStepView {
    if !req.secure {
        password_refused(
            req,
            None,
            "self-service"@,
            false,
            (
                ResultCode::ConfidentialityRequired,
                "Password Modify requires confidentiality protection"@,
            ),
        )
    } else {
        match req.bound_dn {
            None => password_refused(
                req,
                None,
                "self-service"@,
                false,
                (
                    ResultCode::UnwillingToPerform,
                    "Password Modify requires an authenticated session"@,
                ),
            ),
            Some(bound_dn) => match facts.password_request {
                None => ExtendedStepView::ParsePasswordModify(
                    ldap_controls::option_bytes(req.value),
                ),
                Some(Err(e)) => password_refused(
                    req,
                    None,
                    "self-service"@,
                    false,
                    (ResultCode::ProtocolError, e@),
                ),
                Some(Ok(value)) => change_step(req, bound_dn@, value, facts),
            },
        }
    }
}

fn step_password(req: &ExtendedRequest, facts: &ExtendedFacts) -> (r: ExtendedStep)
    ensures
        r@ == password_step(*req, *facts),
{
    if !req.secure {
        return refuse_password(
            req,
            None,
            "self-service",
            false,
            ResultCode::ConfidentialityRequired,
            "Password Modify requires confidentiality protection",
        );
    }
    let bound_dn = match &req.bound_dn {
        Some(bound_dn) => bound_dn,
        None => {
            return refuse_password(
                req,
                None,
                "self-service",
                false,
                ResultCode::UnwillingToPerform,
                "Password Modify requires an authenticated session",
            );
        },
    };
    match &facts.password_request {
        None => ExtendedStep::ParsePasswordModify(copy_option(&req.value)),
        Some(Err(e)) => refuse_password(
            req,
            None,
            "self-service",
            false,
            ResultCode::ProtocolError,
            e.as_str(),
        ),
        Some(Ok(value)) => step_change(req, bound_dn, value, facts),
    }
}

// ---------------------------------------------------------------------------
// All extended requests
// ---------------------------------------------------------------------------

/// The authorization identity of the client: empty where it is not known.
pub open spec fn authorization_identity(bound_dn: Option<String>) -> Seq<char> {
    match bound_dn {
        Some(dn) => "dn:"@ + dn@,
        None => ""@,
    }
}

/// What is done next for an extended request.
pub open spec fn extended_step(req: ExtendedRequest, facts: ExtendedFacts) -> ExtendedStepView {
    if req.oid@ == who_am_i_oid() {
        ExtendedStepView::AnswerValue {
            audit: ExtendedAuditView::Nothing,
            message_id: req.message_id,
            name: Some(who_am_i_oid()),
            value: Some(vstd::utf8::encode_utf8(authorization_identity(req.bound_dn))),
        }
    } else if req.oid@ == start_tls_oid() {
        start_tls_step(req, facts)
    } else if req.oid@ == cancel_oid() {
        cancel_step(req, facts)
    } else if req.oid@ == password_modify_oid() {
        password_step(req, facts)
    } else {
        ExtendedStepView::Answer {
            audit: ExtendedAuditView::Nothing,
            reply: extended_reply(
                req.message_id,
                ResultCode::ProtocolError,
                "extended operations are not supported"@,
            ),
        }
    }
}

impl ExtendedRequest {
    /// What is done next.
    pub fn step(&self, facts: &ExtendedFacts) -> (r: ExtendedStep)
        ensures
            r@ == extended_step(*self, *facts),
    {
        let oid = self.oid.as_str();
        if text::same(oid, "1.3.6.1.4.1.4203.1.11.3") {
            let identity = match &self.bound_dn {
                Some(dn) => {
                    let mut identity = "dn:".to_owned();
                    identity.append(dn.as_str());
                    identity
                },
                None => "".to_owned(),
            };
            return ExtendedStep::AnswerValue {
                audit: ExtendedAudit::Nothing,
                message_id: self.message_id,
                name: Some("1.3.6.1.4.1.4203.1.11.3"),
                value: Some(text::bytes_of(identity.as_str())),
            };
        }
        if text::same(oid, "1.3.6.1.4.1.1466.20037") {
            return step_start_tls(self, facts);
        }
        if text::same(oid, "1.3.6.1.1.8") {
            return step_cancel(self, facts);
        }
        if text::same(oid, "1.3.6.1.4.1.4203.1.11.1") {
            return step_password(self, facts);
        }
        ExtendedStep::Answer {
            audit: ExtendedAudit::Nothing,
            reply: reply_to_extended(
                self.message_id,
                ResultCode::ProtocolError,
                "extended operations are not supported",
            ),
        }
    }
}

// ---------------------------------------------------------------------------
// Laws
// ---------------------------------------------------------------------------

/// A password is replaced only on a protected connection, for the client
/// itself, after the old password was found right.
pub proof fn password_is_replaced_for_the_client_only(req: ExtendedRequest, facts: ExtendedFacts)
    requires
        extended_step(req, facts) is ReplacePassword,
    ensures
        req.secure,
        req.bound_dn is Some,
        extended_step(req, facts) matches ExtendedStepView::ReplacePassword { dn, actor, .. }
            && actor == req.bound_dn->0@ && text::lower(dn) == text::lower(req.bound_dn->0@),
        facts.authenticated matches Some(Ok(true)),
{
}

/// The password that the server made up is the one that it sets, and the one
/// that it tells the client.
pub proof fn made_up_password_is_told(req: ExtendedRequest, facts: ExtendedFacts)
    requires
        req.oid@ == password_modify_oid(),
        facts.made_up is Some,
        facts.password_request matches Some(Ok(value)) && value.new_password is None,
    ensures
        extended_step(req, facts) matches ExtendedStepView::ReplacePassword { password, .. }
            ==> password == facts.made_up->0@,
        extended_step(req, facts) matches ExtendedStepView::EncodePassword(told) ==> told == Some(
            vstd::utf8::encode_utf8(facts.made_up->0@),
        ),
{
    vstd::utf8::encode_utf8_decode_utf8(facts.made_up->0@);
    distinct_requests();
}

/// A password that the client chose is not told back.
pub proof fn chosen_password_is_not_told(req: ExtendedRequest, facts: ExtendedFacts)
    requires
        facts.password_request matches Some(Ok(value)) && value.new_password is Some,
    ensures
        extended_step(req, facts) matches ExtendedStepView::EncodePassword(told) ==> told is None,
{
}

/// The requests that the server knows are told apart by their identifiers.
pub proof fn distinct_requests()
    ensures
        who_am_i_oid() != start_tls_oid(),
        who_am_i_oid() != cancel_oid(),
        who_am_i_oid() != password_modify_oid(),
        start_tls_oid() != cancel_oid(),
        start_tls_oid() != password_modify_oid(),
        cancel_oid() != password_modify_oid(),
{
    reveal_strlit("1.3.6.1.4.1.4203.1.11.3");
    reveal_strlit("1.3.6.1.4.1.1466.20037");
    reveal_strlit("1.3.6.1.1.8");
    reveal_strlit("1.3.6.1.4.1.4203.1.11.1");
    assert("1.3.6.1.4.1.4203.1.11.3"@[22] != "1.3.6.1.4.1.4203.1.11.1"@[22]);
    assert("1.3.6.1.4.1.4203.1.11.3"@.len() == 23);
    assert("1.3.6.1.4.1.1466.20037"@.len() == 22);
    assert("1.3.6.1.1.8"@.len() == 11);
}

} // verus!
