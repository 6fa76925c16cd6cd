//! Bind requests: what the server does next, given what it has learned so far.

use vstd::prelude::*;

use crate::ldap_controls;
use crate::response;
use crate::response::{FsmResponseKind, Reply, ReplyView, RequestHead, ResultCode};
use crate::text;

verus! {

/// How a client says who it is.
#[derive(Debug, PartialEq, Eq)]
#[allow(inconsistent_fields)]
pub enum AuthenticationChoice {
    Simple(Vec<u8>),
    Sasl { mechanism: String, credentials: Option<Vec<u8>> },
}

/// A bind request.
#[derive(Debug, PartialEq, Eq)]
pub struct BindRequest {
    pub message_id: u32,
    pub version: u8,
    pub name: String,
    pub authentication: AuthenticationChoice,
    /// The connection is protected.
    pub secure: bool,
    /// The connection authenticates by name and password.
    pub by_password: bool,
}

/// What the credentials of the PLAIN mechanism hold.
#[derive(Debug, PartialEq, Eq)]
pub struct PlainCredentials {
    pub authzid: String,
    pub authcid: String,
    pub password: Vec<u8>,
}

/// Why an authentication did not come to a result.
#[derive(Debug, PartialEq, Eq)]
pub struct AuthFailure {
    /// The directory failed.
    pub directory: bool,
    /// The text of the error.
    pub shown: String,
}

/// What is known of a bind request.
#[derive(Debug, PartialEq, Eq)]
pub struct BindFacts {
    /// The authentication of the connection was reset.
    pub reset: bool,
    /// What the credentials of the PLAIN mechanism hold, or what is wrong
    /// with them.
    pub plain: Option<Result<PlainCredentials, String>>,
    /// The authentication came to a result.
    pub outcome: Option<Result<(), AuthFailure>>,
    /// The name under which the client is known after it.
    pub bound_dn: Option<String>,
}

/// What is recorded with the entry of the user.
#[derive(Debug, PartialEq, Eq)]
pub enum BindRecord {
    Nothing,
    Success(String),
    Failure(String),
}

/// What is written into the audit log.
#[derive(Debug, PartialEq, Eq)]
#[allow(inconsistent_fields)]
pub enum BindLog {
    Nothing,
    Anonymous,
    SimpleSuccess(String),
    SimpleFailure { dn: String, reason: String },
    Sasl { identity: String, mechanism: String, success: bool, reason: Option<String> },
}

/// What is done next for a bind request.
#[derive(Debug, PartialEq, Eq)]
#[allow(inconsistent_fields)]
pub enum BindStep {
    ResetAuthentication,
    ParsePlain(Vec<u8>),
    Authenticate { dn: String, password: Vec<u8> },
    Answer {
        /// The state of the authentication that is counted.
        state: Option<&'static str>,
        record: BindRecord,
        log: BindLog,
        reply: Reply,
    },
}

/// What a [`BindRecord`] says.
pub enum RecordView {
    Nothing,
    Success(Seq<char>),
    Failure(Seq<char>),
}

/// What a [`BindLog`] says.
#[allow(inconsistent_fields)]
pub enum LogView {
    Nothing,
    Anonymous,
    SimpleSuccess(Seq<char>),
    SimpleFailure { dn: Seq<char>, reason: Seq<char> },
    Sasl {
        identity: Seq<char>,
        mechanism: Seq<char>,
        success: bool,
        reason: Option<Seq<char>>,
    },
}

/// What a [`BindStep`] says.
#[allow(inconsistent_fields)]
pub enum BindStepView {
    ResetAuthentication,
    ParsePlain(Seq<u8>),
    Authenticate { dn: Seq<char>, password: Seq<u8> },
    Answer {
        state: Option<Seq<char>>,
        record: RecordView,
        log: LogView,
        reply: ReplyView,
    },
}

impl View for BindRecord {
    type V = RecordView;

    open spec fn view(&self) -> RecordView {
        match self {
            BindRecord::Nothing => RecordView::Nothing,
            BindRecord::Success(dn) => RecordView::Success(dn@),
            BindRecord::Failure(dn) => RecordView::Failure(dn@),
        }
    }
}

impl View for BindLog {
    type V = LogView;

    open spec fn view(&self) -> LogView {
        match self {
            BindLog::Nothing => LogView::Nothing,
            BindLog::Anonymous => LogView::Anonymous,
            BindLog::SimpleSuccess(dn) => LogView::SimpleSuccess(dn@),
            BindLog::SimpleFailure { dn, reason } => LogView::SimpleFailure {
                dn: dn@,
                reason: reason@,
            },
            BindLog::Sasl { identity, mechanism, success, reason } => LogView::Sasl {
                identity: identity@,
                mechanism: mechanism@,
                success: *success,
                reason: match reason {
                    Some(r) => Some(r@),
                    None => None,
                },
            },
        }
    }
}

impl View for BindStep {
    type V = BindStepView;

    open spec fn view(&self) -> BindStepView {
        match self {
            BindStep::ResetAuthentication => BindStepView::ResetAuthentication,
            BindStep::ParsePlain(bytes) => BindStepView::ParsePlain(bytes@),
            BindStep::Authenticate { dn, password } => BindStepView::Authenticate {
                dn: dn@,
                password: password@,
            },
            BindStep::Answer { state, record, log, reply } => BindStepView::Answer {
                state: match state {
                    Some(s) => Some(s@),
                    None => None,
                },
                record: record@,
                log: log@,
                reply: reply@,
            },
        }
    }
}

/// The head of the reply to a bind.
pub open spec fn bind_head(message_id: u32) -> RequestHead {
    RequestHead { message_id, kind: FsmResponseKind::Bind }
}

/// The reply to a bind.
pub open spec fn bind_reply(message_id: u32, code: ResultCode, diagnostic: Seq<char>) -> ReplyView {
    response::plain(bind_head(message_id), code, diagnostic)
}

fn reply_to_bind(message_id: u32, code: ResultCode, diagnostic: &str) -> (r: Reply)
    ensures
        r@ == bind_reply(message_id, code, diagnostic@),
{
    Reply::plain(RequestHead { message_id, kind: FsmResponseKind::Bind }, code, diagnostic)
}

/// A bind without a name and without a password asks for nothing.
pub open spec fn is_anonymous(name: Seq<char>, password: Seq<u8>) -> bool {
    text::trim(name).len() == 0 && password.len() == 0
}

/// What is done next for a bind by name and password.
pub open spec fn simple_step(req: BindRequest, password: Seq<u8>, facts: BindFacts) -> BindStepView {
    let id = req.message_id;
    let dn = text::trim(req.name@);
    if !req.by_password {
        BindStepView::Answer {
            state: Some("sasl_not_configured"@),
            record: RecordView::Nothing,
            log: LogView::Nothing,
            reply: bind_reply(id, ResultCode::InvalidCredentials, "SASL not configured"@),
        }
    } else {
        match facts.outcome {
            None => BindStepView::Authenticate { dn, password },
            Some(Err(e)) => BindStepView::Answer {
                state: Some("authentication_failed"@),
                record: RecordView::Nothing,
                log: LogView::SimpleFailure { dn, reason: e.shown@ },
                reply: bind_reply(id, ResultCode::InvalidCredentials, "authentication failed"@),
            },
            Some(Ok(_)) => if is_anonymous(req.name@, password) {
                BindStepView::Answer {
                    state: Some("anonymous"@),
                    record: RecordView::Nothing,
                    log: LogView::Anonymous,
                    reply: bind_reply(id, ResultCode::Success, ""@),
                }
            } else {
                match facts.bound_dn {
                    Some(bound_dn) => BindStepView::Answer {
                        state: Some("simple_bound"@),
                        record: RecordView::Success(bound_dn@),
                        log: LogView::SimpleSuccess(bound_dn@),
                        reply: bind_reply(id, ResultCode::Success, ""@),
                    },
                    None => BindStepView::Answer {
                        state: Some("anonymous"@),
                        record: RecordView::Failure(dn),
                        log: LogView::SimpleFailure { dn, reason: "invalid credentials"@ },
                        reply: bind_reply(
                            id,
                            ResultCode::InvalidCredentials,
                            "invalid credentials"@,
                        ),
                    },
                }
            },
        }
    }
}

fn step_simple(req: &BindRequest, password: &Vec<u8>, facts: &BindFacts) -> (r: BindStep)
    ensures
        r@ == simple_step(*req, password@, *facts),
{
    let id = req.message_id;
    let dn = text::trimmed(req.name.as_str());
    if !req.by_password {
        return BindStep::Answer {
            state: Some("sasl_not_configured"),
            record: BindRecord::Nothing,
            log: BindLog::Nothing,
            reply: reply_to_bind(id, ResultCode::InvalidCredentials, "SASL not configured"),
        };
    }
    match &facts.outcome {
        None => BindStep::Authenticate { dn, password: ldap_controls::copy_bytes(password) },
        Some(Err(e)) => BindStep::Answer {
            state: Some("authentication_failed"),
            record: BindRecord::Nothing,
            log: BindLog::SimpleFailure { dn, reason: e.shown.clone() },
            reply: reply_to_bind(id, ResultCode::InvalidCredentials, "authentication failed"),
        },
        Some(Ok(_)) => if dn.as_str().is_empty() && password.len() == 0 {
            BindStep::Answer {
                state: Some("anonymous"),
                record: BindRecord::Nothing,
                log: BindLog::Anonymous,
                reply: reply_to_bind(id, ResultCode::Success, ""),
            }
        } else {
            match &facts.bound_dn {
                Some(bound_dn) => BindStep::Answer {
                    state: Some("simple_bound"),
                    record: BindRecord::Success(bound_dn.clone()),
                    log: BindLog::SimpleSuccess(bound_dn.clone()),
                    reply: reply_to_bind(id, ResultCode::Success, ""),
                },
                None => BindStep::Answer {
                    state: Some("anonymous"),
                    record: BindRecord::Failure(dn.clone()),
                    log: BindLog::SimpleFailure { dn, reason: "invalid credentials".to_owned() },
                    reply: reply_to_bind(id, ResultCode::InvalidCredentials, "invalid credentials"),
                },
            }
        },
    }
}

/// A refusal of a bind by a mechanism.
pub open spec fn sasl_refused(
    id: u32,
    state: Seq<char>,
    identity: Seq<char>,
    mechanism: Seq<char>,
    reason: Seq<char>,
    code: ResultCode,
    diagnostic: Seq<char>,
) -> BindStepView {
    BindStepView::Answer {
        state: Some(state),
        record: RecordView::Nothing,
        log: LogView::Sasl { identity, mechanism, success: false, reason: Some(reason) },
        reply: bind_reply(id, code, diagnostic),
    }
}

fn refuse_sasl(
    id: u32,
    state: &'static str,
    identity: &str,
    mechanism: &str,
    reason: &str,
    code: ResultCode,
    diagnostic: &str,
) -> (r: BindStep)
    ensures
        r@ == sasl_refused(id, state@, identity@, mechanism@, reason@, code, diagnostic@),
{
    BindStep::Answer {
        state: Some(state),
        record: BindRecord::Nothing,
        log: BindLog::Sasl {
            identity: identity.to_owned(),
            mechanism: mechanism.to_owned(),
            success: false,
            reason: Some(reason.to_owned()),
        },
        reply: reply_to_bind(id, code, diagnostic),
    }
}

/// The name under which a client binds by the PLAIN mechanism: that of the
/// request, else that of the credentials.
pub open spec fn plain_identity(name: Seq<char>, credentials: PlainCredentials) -> Seq<char> {
    if text::trim(name).len() == 0 {
        credentials.authcid@
    } else {
        text::trim(name)
    }
}

/// What is done next for a bind by the PLAIN mechanism whose credentials are
/// well formed.
pub open spec fn plain_step(
    req: BindRequest,
    credentials: PlainCredentials,
    facts: BindFacts,
) -> BindStepView {
    let id = req.message_id;
    let dn = plain_identity(req.name@, credentials);
    if dn.len() == 0 {
        sasl_refused(
            id,
            "sasl_failed"@,
            "anonymous"@,
            "PLAIN"@,
            "empty SASL identity"@,
            ResultCode::InvalidCredentials,
            "empty SASL identity"@,
        )
    } else if credentials.authzid@.len() > 0 && text::lower(credentials.authzid@) != text::lower(
        dn,
    ) {
        sasl_refused(
            id,
            "sasl_failed"@,
            dn,
            "PLAIN"@,
            "proxy authorization is not supported"@,
            ResultCode::InappropriateAuthentication,
            "proxy authorization is not supported"@,
        )
    } else if !req.by_password {
        sasl_refused(
            id,
            "sasl_not_configured"@,
            dn,
            "PLAIN"@,
            "SASL not configured"@,
            ResultCode::Unavailable,
            "SASL not configured"@,
        )
    } else {
        match facts.outcome {
            None => BindStepView::Authenticate { dn, password: credentials.password@ },
            Some(Err(e)) => if e.directory {
                sasl_refused(
                    id,
                    "sasl_failed"@,
                    dn,
                    "PLAIN"@,
                    "backend failure"@,
                    ResultCode::Unavailable,
                    "backend failure"@,
                )
            } else {
                sasl_refused(
                    id,
                    "sasl_failed"@,
                    dn,
                    "PLAIN"@,
                    "authentication failed"@,
                    ResultCode::InvalidCredentials,
                    "authentication failed"@,
                )
            },
            Some(Ok(_)) => if facts.bound_dn is Some {
                BindStepView::Answer {
                    state: Some("sasl_bound"@),
                    record: RecordView::Success(dn),
                    log: LogView::Sasl {
                        identity: dn,
                        mechanism: "PLAIN"@,
                        success: true,
                        reason: None,
                    },
                    reply: bind_reply(id, ResultCode::Success, ""@),
                }
            } else {
                BindStepView::Answer {
                    state: Some("sasl_failed"@),
                    record: RecordView::Failure(dn),
                    log: LogView::Sasl {
                        identity: dn,
                        mechanism: "PLAIN"@,
                        success: false,
                        reason: Some("invalid credentials"@),
                    },
                    reply: bind_reply(id, ResultCode::InvalidCredentials, "invalid credentials"@),
                }
            },
        }
    }
}

fn step_plain(req: &BindRequest, credentials: &PlainCredentials, facts: &BindFacts) -> (r: BindStep)
    ensures
        r@ == plain_step(*req, *credentials, *facts),
{
    let id = req.message_id;
    let name = text::trimmed(req.name.as_str());
    let dn = if name.as_str().is_empty() {
        credentials.authcid.clone()
    } else {
        name
    };
    if dn.as_str().is_empty() {
        return refuse_sasl(
            id,
            "sasl_failed",
            "anonymous",
            "PLAIN",
            "empty SASL identity",
            ResultCode::InvalidCredentials,
            "empty SASL identity",
        );
    }
    if !credentials.authzid.as_str().is_empty() && !text::eq_ignore_case(
        credentials.authzid.as_str(),
        dn.as_str(),
    ) {
        return refuse_sasl(
            id,
            "sasl_failed",
            dn.as_str(),
            "PLAIN",
            "proxy authorization is not supported",
            ResultCode::InappropriateAuthentication,
            "proxy authorization is not supported",
        );
    }
    if !req.by_password {
        return refuse_sasl(
            id,
            "sasl_not_configured",
            dn.as_str(),
            "PLAIN",
            "SASL not configured",
            ResultCode::Unavailable,
            "SASL not configured",
        );
    }
    match &facts.outcome {
        None => BindStep::Authenticate {
            dn,
            password: ldap_controls::copy_bytes(&credentials.password),
        },
        Some(Err(e)) => if e.directory {
            refuse_sasl(
                id,
                "sasl_failed",
                dn.as_str(),
                "PLAIN",
                "backend failure",
                ResultCode::Unavailable,
                "backend failure",
            )
        } else {
            refuse_sasl(
                id,
                "sasl_failed",
                dn.as_str(),
                "PLAIN",
                "authentication failed",
                ResultCode::InvalidCredentials,
                "authentication failed",
            )
        },
        Some(Ok(_)) => if facts.bound_dn.is_some() {
            BindStep::Answer {
                state: Some("sasl_bound"),
                record: BindRecord::Success(dn.clone()),
                log: BindLog::Sasl {
                    identity: dn,
                    mechanism: "PLAIN".to_owned(),
                    success: true,
                    reason: None,
                },
                reply: reply_to_bind(id, ResultCode::Success, ""),
            }
        } else {
            BindStep::Answer {
                state: Some("sasl_failed"),
                record: BindRecord::Failure(dn.clone()),
                log: BindLog::Sasl {
                    identity: dn,
                    mechanism: "PLAIN".to_owned(),
                    success: false,
                    reason: Some("invalid credentials".to_owned()),
                },
                reply: reply_to_bind(id, ResultCode::InvalidCredentials, "invalid credentials"),
            }
        },
    }
}

/// What is done next for a bind by a mechanism.
pub open spec fn sasl_step(
    req: BindRequest,
    mechanism: Seq<char>,
    credentials: Option<Seq<u8>>,
    facts: BindFacts,
) -> BindStepView {
    let id = req.message_id;
    let name = text::trim(req.name@);
    let mechanism = text::trim(mechanism);
    if !facts.reset {
        BindStepView::ResetAuthentication
    } else if text::lower(mechanism) != text::lower("PLAIN"@) {
        sasl_refused(
            id,
            "sasl_unsupported_mechanism"@,
            name,
            mechanism,
            "unsupported SASL mechanism"@,
            ResultCode::AuthMethodNotSupported,
            "only SASL PLAIN is supported"@,
        )
    } else if !req.secure {
        sasl_refused(
            id,
            "sasl_confidentiality_required"@,
            name,
            "PLAIN"@,
            "SASL PLAIN requires TLS"@,
            ResultCode::ConfidentialityRequired,
            "SASL PLAIN requires TLS"@,
        )
    } else {
        match credentials {
            None => sasl_refused(
                id,
                "sasl_malformed_credentials"@,
                name,
                "PLAIN"@,
                "SASL PLAIN requires credentials"@,
                ResultCode::InvalidCredentials,
                "SASL PLAIN requires credentials"@,
            ),
            Some(bytes) => match facts.plain {
                None => BindStepView::ParsePlain(bytes),
                Some(Err(e)) => sasl_refused(
                    id,
                    "sasl_malformed_credentials"@,
                    name,
                    "PLAIN"@,
                    e@,
                    ResultCode::InvalidCredentials,
                    e@,
                ),
                Some(Ok(c)) => plain_step(req, c, facts),
            },
        }
    }
}

fn step_sasl(
    req: &BindRequest,
    mechanism: &String,
    credentials: &Option<Vec<u8>>,
    facts: &BindFacts,
) -> (r: BindStep)
    ensures
        r@ == sasl_step(*req, mechanism@, ldap_controls::option_bytes(*credentials), *facts),
{
    let id = req.message_id;
    let name = text::trimmed(req.name.as_str());
    let mechanism = text::trimmed(mechanism.as_str());
    if !facts.reset {
        return BindStep::ResetAuthentication;
    }
    if !text::eq_ignore_case(mechanism.as_str(), "PLAIN") {
        return refuse_sasl(
            id,
            "sasl_unsupported_mechanism",
            name.as_str(),
            mechanism.as_str(),
            "unsupported SASL mechanism",
            ResultCode::AuthMethodNotSupported,
            "only SASL PLAIN is supported",
        );
    }
    if !req.secure {
        return refuse_sasl(
            id,
            "sasl_confidentiality_required",
            name.as_str(),
            "PLAIN",
            "SASL PLAIN requires TLS",
            ResultCode::ConfidentialityRequired,
            "SASL PLAIN requires TLS",
        );
    }
    match credentials {
        None => refuse_sasl(
            id,
            "sasl_malformed_credentials",
            name.as_str(),
            "PLAIN",
            "SASL PLAIN requires credentials",
            ResultCode::InvalidCredentials,
            "SASL PLAIN requires credentials",
        ),
        Some(bytes) => match &facts.plain {
            None => BindStep::ParsePlain(ldap_controls::copy_bytes(bytes)),
            Some(Err(e)) => refuse_sasl(
                id,
                "sasl_malformed_credentials",
                name.as_str(),
                "PLAIN",
                e.as_str(),
                ResultCode::InvalidCredentials,
                e.as_str(),
            ),
            Some(Ok(c)) => step_plain(req, c, facts),
        },
    }
}

/// What is done next for a bind request.
pub open spec fn bind_step(req: BindRequest, facts: BindFacts) -> BindStepView {
    if req.version != 3 {
        BindStepView::Answer {
            state: None,
            record: RecordView::Nothing,
            log: LogView::Nothing,
            reply: bind_reply(
                req.message_id,
                ResultCode::ProtocolError,
                "unsupported LDAP version"@,
            ),
        }
    } else {
        match req.authentication {
            AuthenticationChoice::Simple(password) => simple_step(req, password@, facts),
            AuthenticationChoice::Sasl { mechanism, credentials } => sasl_step(
                req,
                mechanism@,
                ldap_controls::option_bytes(credentials),
                facts,
            ),
        }
    }
}

impl BindRequest {
    /// What is done next.
    pub fn step(&self, facts: &BindFacts) -> (r: BindStep)
        ensures
            r@ == bind_step(*self, *facts),
    {
        if self.version != 3 {
            return BindStep::Answer {
                state: None,
                record: BindRecord::Nothing,
                log: BindLog::Nothing,
                reply: reply_to_bind(
                    self.message_id,
                    ResultCode::ProtocolError,
                    "unsupported LDAP version",
                ),
            };
        }
        match &self.authentication {
            AuthenticationChoice::Simple(password) => step_simple(self, password, facts),
            AuthenticationChoice::Sasl { mechanism, credentials } => step_sasl(
                self,
                mechanism,
                credentials,
                facts,
            ),
        }
    }
}

// ---------------------------------------------------------------------------
// Laws
// ---------------------------------------------------------------------------

/// A bind that is answered as a success was either anonymous or left the
/// client known, and the authentication went through without an error.
pub proof fn success_means_bound(req: BindRequest, facts: BindFacts)
    requires
        bind_step(req, facts) matches BindStepView::Answer { reply, .. } && reply.code
            == ResultCode::Success,
    ensures
        req.version == 3,
        req.by_password,
        facts.outcome matches Some(Ok(_)),
        facts.bound_dn is Some || (req.authentication matches AuthenticationChoice::Simple(p)
            && is_anonymous(req.name@, p@)),
{
}

/// The password of a bind by the PLAIN mechanism is not looked at on a
/// connection that is not protected.
pub proof fn plain_needs_protection(req: BindRequest, facts: BindFacts)
    requires
        req.authentication is Sasl,
        !req.secure,
    ensures
        !(bind_step(req, facts) is Authenticate),
        !(bind_step(req, facts) is ParsePlain),
        bind_step(req, facts) matches BindStepView::Answer { reply, .. } ==> reply.code
            != ResultCode::Success,
{
}

/// A success is recorded with an entry exactly where the bind is answered as a
/// success and not anonymous.
pub proof fn success_is_recorded(req: BindRequest, facts: BindFacts)
    ensures
        bind_step(req, facts) matches BindStepView::Answer { record, reply, .. } ==> (
        record is Success <==> reply.code == ResultCode::Success && !(
        req.authentication matches AuthenticationChoice::Simple(p) && is_anonymous(
            req.name@,
            p@,
        ))),
{
}

} // verus!
