//! What the server answers: result codes, replies, and the reply to each error.

use vstd::prelude::*;

use crate::ldap_controls;
use crate::ldap_controls::{ControlView, LdapControl};
use crate::ldap_filter_eval::FilterSchemaError;
use crate::text;

verus! {

/// The result codes that the server answers with.
#[derive(Debug, Clone, Copy, PartialEq, Eq, Structural)]
pub enum ResultCode {
    Success,
    OperationsError,
    ProtocolError,
    TimeLimitExceeded,
    SizeLimitExceeded,
    CompareFalse,
    CompareTrue,
    AuthMethodNotSupported,
    Referral,
    UnavailableCriticalExtension,
    ConfidentialityRequired,
    UndefinedAttributeType,
    InappropriateMatching,
    ConstraintViolation,
    InvalidAttributeSyntax,
    NoSuchObject,
    InappropriateAuthentication,
    InvalidCredentials,
    InsufficientAccessRights,
    Busy,
    Unavailable,
    UnwillingToPerform,
    LoopDetect,
    ObjectClassViolation,
    EntryAlreadyExists,
}

/// The response operations that carry a result.
#[derive(Debug, Clone, Copy, PartialEq, Eq, Structural)]
pub enum ResponseOp {
    SearchDone,
    Modify,
    Add,
    Delete,
    ModifyDn,
    Compare,
    Extended,
}

/// How a request is answered.
#[derive(Debug, Clone, Copy, PartialEq, Eq, Structural)]
pub enum FsmResponseKind {
    Bind,
    Result(ResponseOp),
    Silent,
}

/// To which request a reply belongs, and in which form it goes out.
#[derive(Debug, Clone, Copy, PartialEq, Eq, Structural)]
pub struct RequestHead {
    pub message_id: u32,
    pub kind: FsmResponseKind,
}

/// An answer to a request.
#[derive(Debug, PartialEq, Eq)]
pub struct Reply {
    pub head: RequestHead,
    pub code: ResultCode,
    pub matched_dn: String,
    pub diagnostic: String,
    pub referrals: Vec<String>,
    pub controls: Vec<LdapControl>,
}

/// What a [`Reply`] says.
#[verifier::ext_equal]
pub struct ReplyView {
    pub head: RequestHead,
    pub code: ResultCode,
    pub matched_dn: Seq<char>,
    pub diagnostic: Seq<char>,
    pub referrals: Seq<Seq<char>>,
    pub controls: Seq<ControlView>,
}

impl View for Reply {
    type V = ReplyView;

    open spec fn view(&self) -> ReplyView {
        ReplyView {
            head: self.head,
            code: self.code,
            matched_dn: self.matched_dn@,
            diagnostic: self.diagnostic@,
            referrals: text::texts(self.referrals@),
            controls: ldap_controls::control_views(self.controls@),
        }
    }
}

/// A reply with a code and a diagnostic text.
pub open spec fn plain(head: RequestHead, code: ResultCode, diagnostic: Seq<char>) -> ReplyView {
    ReplyView {
        head,
        code,
        matched_dn: Seq::empty(),
        diagnostic,
        referrals: Seq::empty(),
        controls: Seq::empty(),
    }
}

/// A reply with a code, a diagnostic text and controls.
pub open spec fn with_controls(
    head: RequestHead,
    code: ResultCode,
    diagnostic: Seq<char>,
    controls: Seq<ControlView>,
) -> ReplyView {
    ReplyView { controls, ..plain(head, code, diagnostic) }
}

impl Reply {
    /// A reply with a code and a diagnostic text.
    pub fn plain(head: RequestHead, code: ResultCode, diagnostic: &str) -> (r: Reply)
        ensures
            r@ == plain(head, code, diagnostic@),
    {
        Reply::with_controls(head, code, diagnostic, Vec::new())
    }

    /// A reply with a code, a diagnostic text and controls.
    pub fn with_controls(
        head: RequestHead,
        code: ResultCode,
        diagnostic: &str,
        controls: Vec<LdapControl>,
    ) -> (r: Reply)
        ensures
            r@ == with_controls(
                head,
                code,
                diagnostic@,
                ldap_controls::control_views(controls@),
            ),
    {
        let r = Reply {
            head,
            code,
            matched_dn: String::new(),
            diagnostic: diagnostic.to_owned(),
            referrals: Vec::new(),
            controls,
        };
        proof {
            assert(r@.matched_dn =~= Seq::<char>::empty());
            assert(r@.referrals =~= Seq::<Seq<char>>::empty());
        }
        r
    }

    /// A reply that refers the client to other servers.
    pub fn referral(
        head: RequestHead,
        matched_dn: &str,
        diagnostic: &str,
        referrals: Vec<String>,
    ) -> (r: Reply)
        ensures
            r@ == (ReplyView {
                matched_dn: matched_dn@,
                referrals: text::texts(referrals@),
                ..plain(head, ResultCode::Referral, diagnostic@)
            }),
    {
        let r = Reply {
            head,
            code: ResultCode::Referral,
            matched_dn: matched_dn.to_owned(),
            diagnostic: diagnostic.to_owned(),
            referrals,
            controls: Vec::new(),
        };
        proof {
            assert(r@.controls =~= Seq::<ControlView>::empty());
        }
        r
    }
}

/// The form in which a reply goes out.
#[derive(Debug, Clone, Copy, PartialEq, Eq, Structural)]
pub enum WireForm {
    Nothing,
    BindResponse,
    ResultResponse(ResponseOp),
}

/// A request that takes no answer gets none, a bind a bind response, every
/// other a result response of its operation.
pub open spec fn wire_form(kind: FsmResponseKind) -> WireForm {
    match kind {
        FsmResponseKind::Bind => WireForm::BindResponse,
        FsmResponseKind::Result(op) => WireForm::ResultResponse(op),
        FsmResponseKind::Silent => WireForm::Nothing,
    }
}

impl Reply {
    /// The form in which the reply goes out.
    pub fn form(&self) -> (r: WireForm)
        ensures
            r == wire_form(self@.head.kind),
    {
        match self.head.kind {
            FsmResponseKind::Bind => WireForm::BindResponse,
            FsmResponseKind::Result(op) => WireForm::ResultResponse(op),
            FsmResponseKind::Silent => WireForm::Nothing,
        }
    }
}

/// The reply to a request that finds the server at its limit of operations.
pub fn busy_response(head: RequestHead) -> (r: Reply)
    ensures
        r@ == plain(head, ResultCode::Busy, "Server is busy - operation limit exceeded"@),
{
    Reply::plain(head, ResultCode::Busy, "Server is busy - operation limit exceeded")
}

/// The reply to a request over the rate limit.
pub fn rate_limit_exceeded(head: RequestHead) -> (r: Reply)
    ensures
        r@ == plain(head, ResultCode::Busy, "Rate limit exceeded - please slow down"@),
{
    Reply::plain(head, ResultCode::Busy, "Rate limit exceeded - please slow down")
}

/// The head of a reply that belongs to no request.
pub open spec fn unsolicited() -> RequestHead {
    RequestHead { message_id: 0, kind: FsmResponseKind::Result(ResponseOp::SearchDone) }
}

/// A reply that the server is not available, which belongs to no request.
pub fn transport_unavailable(diagnostic: &str) -> (r: Reply)
    ensures
        r@ == plain(unsolicited(), ResultCode::Unavailable, diagnostic@),
{
    Reply::plain(
        RequestHead { message_id: 0, kind: FsmResponseKind::Result(ResponseOp::SearchDone) },
        ResultCode::Unavailable,
        diagnostic,
    )
}

/// The reply to a connection over the resource limits.
pub fn connection_rejected() -> (r: Reply)
    ensures
        r@ == plain(
            unsolicited(),
            ResultCode::Unavailable,
            "Server resource limits exceeded"@,
        ),
{
    transport_unavailable("Server resource limits exceeded")
}

/// The reply to a connection while the server shuts down.
pub fn shutdown_in_progress() -> (r: Reply)
    ensures
        r@ == plain(unsolicited(), ResultCode::Unavailable, "Server is shutting down"@),
{
    transport_unavailable("Server is shutting down")
}

/// Why a request is refused before it is dispatched.
#[derive(Debug, PartialEq, Eq)]
pub struct FsmRequestRejection {
    pub response_kind: FsmResponseKind,
    pub result_code: ResultCode,
    pub diagnostic_message: String,
}

impl FsmRequestRejection {
    /// The reply to the refused request.
    pub fn reply(&self, message_id: u32) -> (r: Reply)
        ensures
            r@ == plain(
                RequestHead { message_id, kind: self.response_kind },
                self.result_code,
                self.diagnostic_message@,
            ),
    {
        Reply::plain(
            RequestHead { message_id, kind: self.response_kind },
            self.result_code,
            self.diagnostic_message.as_str(),
        )
    }
}

// ---------------------------------------------------------------------------
// Errors and the replies to them
// ---------------------------------------------------------------------------

/// An error of the directory's store.
#[derive(Debug, PartialEq, Eq)]
pub enum BackendError {
    AlreadyExists,
    NotFound,
    Storage(String),
}

/// The result code of a store's error.
pub open spec fn backend_code(err: BackendError) -> ResultCode {
    match err {
        BackendError::AlreadyExists => ResultCode::EntryAlreadyExists,
        BackendError::NotFound => ResultCode::NoSuchObject,
        BackendError::Storage(_) => ResultCode::Unavailable,
    }
}

/// The diagnostic text of a store's error.
pub open spec fn backend_text(err: BackendError) -> Seq<char> {
    match err {
        BackendError::AlreadyExists => "entry already exists"@,
        BackendError::NotFound => "no such object"@,
        BackendError::Storage(_) => "backend failure"@,
    }
}

pub fn map_backend_error_code(err: &BackendError) -> (r: ResultCode)
    ensures
        r == backend_code(*err),
{
    match err {
        BackendError::AlreadyExists => ResultCode::EntryAlreadyExists,
        BackendError::NotFound => ResultCode::NoSuchObject,
        BackendError::Storage(_) => ResultCode::Unavailable,
    }
}

pub fn backend_diagnostic(err: &BackendError) -> (r: &'static str)
    ensures
        r@ == backend_text(*err),
{
    match err {
        BackendError::AlreadyExists => "entry already exists",
        BackendError::NotFound => "no such object",
        BackendError::Storage(_) => "backend failure",
    }
}

/// The result code of a filter that the schema refuses.
pub fn map_filter_schema_error_code(err: &FilterSchemaError) -> (r: ResultCode)
    ensures
        r == (match err {
            FilterSchemaError::UndefinedAttribute(_) => ResultCode::UndefinedAttributeType,
            FilterSchemaError::InappropriateMatching(_) => ResultCode::InappropriateMatching,
            FilterSchemaError::InvalidAttributeSyntax(_) => ResultCode::InvalidAttributeSyntax,
            FilterSchemaError::InvalidFilter(_) => ResultCode::ProtocolError,
        }),
{
    match err {
        FilterSchemaError::UndefinedAttribute(_) => ResultCode::UndefinedAttributeType,
        FilterSchemaError::InappropriateMatching(_) => ResultCode::InappropriateMatching,
        FilterSchemaError::InvalidAttributeSyntax(_) => ResultCode::InvalidAttributeSyntax,
        FilterSchemaError::InvalidFilter(_) => ResultCode::ProtocolError,
    }
}

/// An error of the machine that compares. Where the text of the error itself
/// is answered, the variant holds that text.
#[derive(Debug, PartialEq, Eq)]
#[allow(inconsistent_fields)]
pub enum CompareFsmError {
    InvalidParameters { message: String },
    NoSuchObject,
    AccessDenied { message: String },
    ComparisonError { message: String },
    BackendError { message: String },
    Generic { message: String },
    InvalidStateTransition { shown: String },
    NoActiveCompare { shown: String },
    NoSuchAttribute,
}

/// The code that the beginning of a schema error stands for.
pub open spec fn schema_error_code(message: Seq<char>) -> Option<ResultCode> {
    if text::starts_with(message, "undefined attribute type:"@) {
        Some(ResultCode::UndefinedAttributeType)
    } else if text::starts_with(message, "inappropriate matching:"@) {
        Some(ResultCode::InappropriateMatching)
    } else if text::starts_with(message, "invalid attribute syntax:"@) {
        Some(ResultCode::InvalidAttributeSyntax)
    } else if text::starts_with(message, "invalid filter:"@) {
        Some(ResultCode::ProtocolError)
    } else {
        None
    }
}

/// A code with a text.
pub open spec fn coded(r: (ResultCode, String)) -> (ResultCode, Seq<char>) {
    (r.0, r.1@)
}

pub fn compare_schema_error_response(message: &str) -> (r: Option<(ResultCode, String)>)
    ensures
        match r {
            Some(pair) => schema_error_code(message@) == Some(pair.0) && pair.1@ == message@,
            None => schema_error_code(message@) is None,
        },
{
    let code = if text::has_prefix(message, "undefined attribute type:") {
        ResultCode::UndefinedAttributeType
    } else if text::has_prefix(message, "inappropriate matching:") {
        ResultCode::InappropriateMatching
    } else if text::has_prefix(message, "invalid attribute syntax:") {
        ResultCode::InvalidAttributeSyntax
    } else if text::has_prefix(message, "invalid filter:") {
        ResultCode::ProtocolError
    } else {
        return None;
    };
    Some((code, message.to_owned()))
}

/// What is answered to an error of the machine that compares.
pub open spec fn compare_error_answer(error: CompareFsmError) -> (ResultCode, Seq<char>) {
    match error {
        CompareFsmError::InvalidParameters { message } => (ResultCode::ProtocolError, message@),
        CompareFsmError::NoSuchObject => (ResultCode::NoSuchObject, "no such object"@),
        CompareFsmError::AccessDenied { message } => {
            (ResultCode::InsufficientAccessRights, message@)
        },
        CompareFsmError::ComparisonError { message } => match schema_error_code(message@) {
            Some(code) => (code, message@),
            None => (ResultCode::Unavailable, message@),
        },
        CompareFsmError::BackendError { message } => (ResultCode::Unavailable, message@),
        CompareFsmError::Generic { message } => (ResultCode::Unavailable, message@),
        CompareFsmError::InvalidStateTransition { shown } => (ResultCode::OperationsError, shown@),
        CompareFsmError::NoActiveCompare { shown } => (ResultCode::OperationsError, shown@),
        CompareFsmError::NoSuchAttribute => (ResultCode::CompareFalse, ""@),
    }
}

pub fn compare_fsm_error_response(error: &CompareFsmError) -> (r: (ResultCode, String))
    ensures
        coded(r) == compare_error_answer(*error),
{
    match error {
        CompareFsmError::InvalidParameters { message } => {
            (ResultCode::ProtocolError, message.clone())
        },
        CompareFsmError::NoSuchObject => (ResultCode::NoSuchObject, "no such object".to_owned()),
        CompareFsmError::AccessDenied { message } => {
            (ResultCode::InsufficientAccessRights, message.clone())
        },
        CompareFsmError::ComparisonError { message } => {
            match compare_schema_error_response(message.as_str()) {
                Some(pair) => pair,
                None => (ResultCode::Unavailable, message.clone()),
            }
        },
        CompareFsmError::BackendError { message } => (ResultCode::Unavailable, message.clone()),
        CompareFsmError::Generic { message } => (ResultCode::Unavailable, message.clone()),
        CompareFsmError::InvalidStateTransition { shown } => {
            (ResultCode::OperationsError, shown.clone())
        },
        CompareFsmError::NoActiveCompare { shown } => (ResultCode::OperationsError, shown.clone()),
        CompareFsmError::NoSuchAttribute => (ResultCode::CompareFalse, "".to_owned()),
    }
}

/// An error of the machine that writes. Where the text of the error itself is
/// answered, the variant holds that text.
#[derive(Debug, PartialEq, Eq)]
#[allow(inconsistent_fields)]
pub enum WriteFsmError {
    InvalidOperation { message: String },
    AccessDenied { message: String },
    EntryAlreadyExists,
    NoSuchObject,
    ConstraintViolation { message: String },
    SchemaError { message: String },
    BackendError { message: String },
    TransactionError { message: String },
    Generic { message: String },
    InvalidStateTransition { shown: String },
    NoActiveOperation { shown: String },
}

/// What is answered to a failure of the store, by what its text holds without
/// case.
pub open spec fn store_failure_answer(message: Seq<char>) -> (ResultCode, Seq<char>) {
    let normalized = text::lower(message);
    if text::contains_text(normalized, "entry already exists"@) {
        (ResultCode::EntryAlreadyExists, "entry already exists"@)
    } else if text::contains_text(normalized, "entry not found"@) || text::contains_text(
        normalized,
        "no such object"@,
    ) {
        (ResultCode::NoSuchObject, "no such object"@)
    } else {
        (ResultCode::Unavailable, message)
    }
}

/// What is answered to an error of the machine that writes.
pub open spec fn write_error_answer(error: WriteFsmError) -> (ResultCode, Seq<char>) {
    match error {
        WriteFsmError::InvalidOperation { message } => (ResultCode::ProtocolError, message@),
        WriteFsmError::AccessDenied { message } => (ResultCode::InsufficientAccessRights, message@),
        WriteFsmError::EntryAlreadyExists => {
            (ResultCode::EntryAlreadyExists, "entry already exists"@)
        },
        WriteFsmError::NoSuchObject => (ResultCode::NoSuchObject, "no such object"@),
        WriteFsmError::ConstraintViolation { message } => {
            (ResultCode::ConstraintViolation, message@)
        },
        WriteFsmError::SchemaError { message } => (ResultCode::ObjectClassViolation, message@),
        WriteFsmError::BackendError { message } => store_failure_answer(message@),
        WriteFsmError::TransactionError { message } => store_failure_answer(message@),
        WriteFsmError::Generic { message } => store_failure_answer(message@),
        WriteFsmError::InvalidStateTransition { shown } => (ResultCode::OperationsError, shown@),
        WriteFsmError::NoActiveOperation { shown } => (ResultCode::OperationsError, shown@),
    }
}

/// The answer to a failure of the store whose text tells what failed.
pub fn backend_write_fsm_error_response(message: &str) -> (r: Option<(ResultCode, String)>)
    ensures
        match r {
            Some(pair) => coded(pair) == store_failure_answer(message@) && pair.0
                != ResultCode::Unavailable,
            None => store_failure_answer(message@) == (ResultCode::Unavailable, message@),
        },
{
    let normalized = text::lowercase(message);
    if text::has_text(normalized.as_str(), "entry already exists") {
        return Some((ResultCode::EntryAlreadyExists, "entry already exists".to_owned()));
    }
    if text::has_text(normalized.as_str(), "entry not found") || text::has_text(
        normalized.as_str(),
        "no such object",
    ) {
        return Some((ResultCode::NoSuchObject, "no such object".to_owned()));
    }
    None
}

fn store_failure_response(message: &String) -> (r: (ResultCode, String))
    ensures
        coded(r) == store_failure_answer(message@),
{
    match backend_write_fsm_error_response(message.as_str()) {
        Some(pair) => pair,
        None => (ResultCode::Unavailable, message.clone()),
    }
}

pub fn write_fsm_error_response(error: &WriteFsmError) -> (r: (ResultCode, String))
    ensures
        coded(r) == write_error_answer(*error),
{
    match error {
        WriteFsmError::InvalidOperation { message } => (ResultCode::ProtocolError, message.clone()),
        WriteFsmError::AccessDenied { message } => {
            (ResultCode::InsufficientAccessRights, message.clone())
        },
        WriteFsmError::EntryAlreadyExists => {
            (ResultCode::EntryAlreadyExists, "entry already exists".to_owned())
        },
        WriteFsmError::NoSuchObject => (ResultCode::NoSuchObject, "no such object".to_owned()),
        WriteFsmError::ConstraintViolation { message } => {
            (ResultCode::ConstraintViolation, message.clone())
        },
        WriteFsmError::SchemaError { message } => {
            (ResultCode::ObjectClassViolation, message.clone())
        },
        WriteFsmError::BackendError { message } => store_failure_response(message),
        WriteFsmError::TransactionError { message } => store_failure_response(message),
        WriteFsmError::Generic { message } => store_failure_response(message),
        WriteFsmError::InvalidStateTransition { shown } => {
            (ResultCode::OperationsError, shown.clone())
        },
        WriteFsmError::NoActiveOperation { shown } => (ResultCode::OperationsError, shown.clone()),
    }
}

/// An error of the machine that searches. Where the text of the error itself
/// is answered, the variant holds that text.
#[derive(Debug, PartialEq, Eq)]
#[allow(inconsistent_fields)]
pub enum SearchFsmError {
    InvalidParameters { message: String },
    TimeLimitExceeded,
    SizeLimitExceeded,
    BackendError { message: String },
    FilterError { message: String },
    FormattingError { message: String },
    Generic { message: String },
    Abandoned { shown: String },
    InvalidStateTransition { shown: String },
    NoActiveSearch { shown: String },
}

/// What is answered to an error of the machine that searches.
pub open spec fn search_error_answer(error: SearchFsmError) -> (ResultCode, Seq<char>) {
    match error {
        SearchFsmError::InvalidParameters { message } => (ResultCode::ProtocolError, message@),
        SearchFsmError::TimeLimitExceeded => (ResultCode::TimeLimitExceeded, "time limit exceeded"@),
        SearchFsmError::SizeLimitExceeded => (ResultCode::SizeLimitExceeded, "size limit exceeded"@),
        SearchFsmError::BackendError { message } => (ResultCode::Unavailable, message@),
        SearchFsmError::FilterError { message } => (ResultCode::Unavailable, message@),
        SearchFsmError::FormattingError { message } => (ResultCode::Unavailable, message@),
        SearchFsmError::Generic { message } => (ResultCode::Unavailable, message@),
        SearchFsmError::Abandoned { shown } => (ResultCode::OperationsError, shown@),
        SearchFsmError::InvalidStateTransition { shown } => (ResultCode::OperationsError, shown@),
        SearchFsmError::NoActiveSearch { shown } => (ResultCode::OperationsError, shown@),
    }
}

pub fn search_fsm_error_response(error: &SearchFsmError) -> (r: (ResultCode, String))
    ensures
        coded(r) == search_error_answer(*error),
{
    match error {
        SearchFsmError::InvalidParameters { message } => {
            (ResultCode::ProtocolError, message.clone())
        },
        SearchFsmError::TimeLimitExceeded => {
            (ResultCode::TimeLimitExceeded, "time limit exceeded".to_owned())
        },
        SearchFsmError::SizeLimitExceeded => {
            (ResultCode::SizeLimitExceeded, "size limit exceeded".to_owned())
        },
        SearchFsmError::BackendError { message } => (ResultCode::Unavailable, message.clone()),
        SearchFsmError::FilterError { message } => (ResultCode::Unavailable, message.clone()),
        SearchFsmError::FormattingError { message } => (ResultCode::Unavailable, message.clone()),
        SearchFsmError::Generic { message } => (ResultCode::Unavailable, message.clone()),
        SearchFsmError::Abandoned { shown } => (ResultCode::OperationsError, shown.clone()),
        SearchFsmError::InvalidStateTransition { shown } => {
            (ResultCode::OperationsError, shown.clone())
        },
        SearchFsmError::NoActiveSearch { shown } => (ResultCode::OperationsError, shown.clone()),
    }
}

// ---------------------------------------------------------------------------
// Laws
// ---------------------------------------------------------------------------

/// No error of a write is answered as a success.
pub proof fn write_errors_are_no_success(error: WriteFsmError)
    ensures
        write_error_answer(error).0 != ResultCode::Success,
{
}

/// No error of a search is answered as a success.
pub proof fn search_errors_are_no_success(error: SearchFsmError)
    ensures
        search_error_answer(error).0 != ResultCode::Success,
{
}

/// No error of a comparison is answered as a success or as a match.
pub proof fn compare_errors_are_no_match(error: CompareFsmError)
    ensures
        compare_error_answer(error).0 != ResultCode::Success,
        compare_error_answer(error).0 != ResultCode::CompareTrue,
{
}

} // verus!
