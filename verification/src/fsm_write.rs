//! Requests that change or compare entries: what the server does next, given
//! what it has learned so far.
//!
//! Each request has a record of facts. A fact that is not known yet is
//! `None`. The step of a request is either to learn one more fact or to
//! answer.

use vstd::prelude::*;

use crate::directory;
use crate::directory::{AttributeSeq, Attributes};
use crate::ldap_controls;
use crate::response;
use crate::response::{
    backend_diagnostic, compare_fsm_error_response, map_backend_error_code,
    write_fsm_error_response, BackendError, CompareFsmError, Reply, ReplyView, RequestHead,
    ResponseOp, ResultCode, WriteFsmError,
};
use crate::schema;
use crate::schema::LdapSchema;
use crate::string_map;
use crate::text;

verus! {

/// What a client may be allowed to do to an entry.
#[derive(Debug, Clone, Copy, PartialEq, Eq, Structural)]
pub enum Permission {
    Read,
    Search,
    Add,
    Modify,
    Delete,
    Compare,
}

/// A question whether the client may do something. Where it may not, who
/// answers the question also answers the request.
#[derive(Debug, PartialEq, Eq)]
pub struct Authorization {
    pub message_id: u32,
    pub op: ResponseOp,
    pub permission: Permission,
    pub operation: &'static str,
    pub dn: String,
    pub attribute: Option<String>,
}

/// What an [`Authorization`] asks.
pub struct AuthorizationView {
    pub message_id: u32,
    pub op: ResponseOp,
    pub permission: Permission,
    pub operation: Seq<char>,
    pub dn: Seq<char>,
    pub attribute: Option<Seq<char>>,
}

impl View for Authorization {
    type V = AuthorizationView;

    open spec fn view(&self) -> AuthorizationView {
        AuthorizationView {
            message_id: self.message_id,
            op: self.op,
            permission: self.permission,
            operation: self.operation@,
            dn: self.dn@,
            attribute: text::option_text(self.attribute),
        }
    }
}

/// What is handed to the machine that writes.
#[derive(Debug, PartialEq, Eq)]
#[allow(inconsistent_fields)]
pub enum WriteOperation {
    Delete { dn: String },
    Add { dn: String, entry: Vec<u8> },
    ModifyDn { dn: String, new_rdn: String, delete_old: bool, new_superior: Option<String> },
}

/// What a [`WriteOperation`] says.
#[allow(inconsistent_fields)]
pub enum WriteOperationView {
    Delete { dn: Seq<char> },
    Add { dn: Seq<char>, entry: Seq<u8> },
    ModifyDn {
        dn: Seq<char>,
        new_rdn: Seq<char>,
        delete_old: bool,
        new_superior: Option<Seq<char>>,
    },
}

impl View for WriteOperation {
    type V = WriteOperationView;

    open spec fn view(&self) -> WriteOperationView {
        match self {
            WriteOperation::Delete { dn } => WriteOperationView::Delete { dn: dn@ },
            WriteOperation::Add { dn, entry } => WriteOperationView::Add {
                dn: dn@,
                entry: entry@,
            },
            WriteOperation::ModifyDn { dn, new_rdn, delete_old, new_superior } => {
                WriteOperationView::ModifyDn {
                    dn: dn@,
                    new_rdn: new_rdn@,
                    delete_old: *delete_old,
                    new_superior: text::option_text(*new_superior),
                }
            },
        }
    }
}

/// How the machine that writes holds an entry against the schema.
#[derive(Debug, Clone, Copy, PartialEq, Eq, Structural)]
pub enum WriteValidation {
    Unchecked,
    BySchema,
    StrictlyBySchema,
}

/// What is written into the audit log.
#[derive(Debug, PartialEq, Eq)]
pub struct Audit {
    pub success: bool,
    pub outcome: &'static str,
    pub detail: Option<String>,
}

/// What an [`Audit`] says.
pub struct AuditView {
    pub success: bool,
    pub outcome: Seq<char>,
    pub detail: Option<Seq<char>>,
}

impl View for Audit {
    type V = AuditView;

    open spec fn view(&self) -> AuditView {
        AuditView {
            success: self.success,
            outcome: self.outcome@,
            detail: text::option_text(self.detail),
        }
    }
}

/// A note that something was done, or failed with a detail.
pub open spec fn noted(success: bool, detail: Option<Seq<char>>) -> AuditView {
    AuditView { success, outcome: ""@, detail }
}

/// What the server does next for a request.
#[derive(Debug, PartialEq, Eq)]
#[allow(inconsistent_fields)]
pub enum WriteStep {
    Authorize(Authorization),
    AuthorizeAttributes(Authorization, Vec<String>),
    LookUp(String),
    ValidateRdn(String),
    StartWrite { operation: WriteOperation, actor: Option<String>, validation: WriteValidation },
    CompleteValidation,
    ModifyEntry { dn: String, actor: Option<String> },
    UpdateSchema,
    StartCompare { dn: String, attribute: String, value: Vec<u8> },
    ReadEntry,
    TakeResult,
    EmitResult,
    /// The request has been answered.
    Stop,
    /// The connection fails with this text.
    Fail(String),
    Answer { audit: Option<Audit>, reply: Reply },
}

/// What a [`WriteStep`] says.
#[allow(inconsistent_fields)]
pub enum StepView {
    Authorize(AuthorizationView),
    AuthorizeAttributes(AuthorizationView, Seq<Seq<char>>),
    LookUp(Seq<char>),
    ValidateRdn(Seq<char>),
    StartWrite {
        operation: WriteOperationView,
        actor: Option<Seq<char>>,
        validation: WriteValidation,
    },
    CompleteValidation,
    ModifyEntry { dn: Seq<char>, actor: Option<Seq<char>> },
    UpdateSchema,
    StartCompare { dn: Seq<char>, attribute: Seq<char>, value: Seq<u8> },
    ReadEntry,
    TakeResult,
    EmitResult,
    Stop,
    Fail(Seq<char>),
    Answer { audit: Option<AuditView>, reply: ReplyView },
}

impl View for WriteStep {
    type V = StepView;

    open spec fn view(&self) -> StepView {
        match self {
            WriteStep::Authorize(a) => StepView::Authorize(a@),
            WriteStep::AuthorizeAttributes(a, names) => StepView::AuthorizeAttributes(
                a@,
                text::texts(names@),
            ),
            WriteStep::LookUp(dn) => StepView::LookUp(dn@),
            WriteStep::ValidateRdn(rdn) => StepView::ValidateRdn(rdn@),
            WriteStep::StartWrite { operation, actor, validation } => StepView::StartWrite {
                operation: operation@,
                actor: text::option_text(*actor),
                validation: *validation,
            },
            WriteStep::CompleteValidation => StepView::CompleteValidation,
            WriteStep::ModifyEntry { dn, actor } => StepView::ModifyEntry {
                dn: dn@,
                actor: text::option_text(*actor),
            },
            WriteStep::UpdateSchema => StepView::UpdateSchema,
            WriteStep::StartCompare { dn, attribute, value } => StepView::StartCompare {
                dn: dn@,
                attribute: attribute@,
                value: value@,
            },
            WriteStep::ReadEntry => StepView::ReadEntry,
            WriteStep::TakeResult => StepView::TakeResult,
            WriteStep::EmitResult => StepView::EmitResult,
            WriteStep::Stop => StepView::Stop,
            WriteStep::Fail(message) => StepView::Fail(message@),
            WriteStep::Answer { audit, reply } => StepView::Answer {
                audit: match audit {
                    Some(a) => Some(a@),
                    None => None,
                },
                reply: reply@,
            },
        }
    }
}

/// An answer, with a note in the audit log.
pub open spec fn answered(
    success: bool,
    detail: Option<Seq<char>>,
    head: RequestHead,
    answer: (ResultCode, Seq<char>),
) -> StepView {
    StepView::Answer {
        audit: Some(noted(success, detail)),
        reply: response::plain(head, answer.0, answer.1),
    }
}

fn answer(
    success: bool,
    detail: Option<String>,
    head: RequestHead,
    code: ResultCode,
    diagnostic: &str,
) -> (r: WriteStep)
    ensures
        r@ == answered(success, text::option_text(detail), head, (code, diagnostic@)),
{
    WriteStep::Answer {
        audit: Some(Audit { success, outcome: "", detail }),
        reply: Reply::plain(head, code, diagnostic),
    }
}

fn copy_option(s: &Option<String>) -> (r: Option<String>)
    ensures
        r == *s,
{
    match s {
        Some(s) => Some(s.clone()),
        None => None,
    }
}

/// The text of a diagnostic, where it is not empty.
pub open spec fn shown_detail(diagnostic: Seq<char>) -> Option<Seq<char>> {
    if diagnostic == ""@ {
        None
    } else {
        Some(diagnostic)
    }
}

fn detail_of(diagnostic: &String) -> (r: Option<String>)
    ensures
        text::option_text(r) == shown_detail(diagnostic@),
{
    if text::same(diagnostic.as_str(), "") {
        None
    } else {
        Some(diagnostic.clone())
    }
}

// ---------------------------------------------------------------------------
// Delete
// ---------------------------------------------------------------------------

/// A request to delete an entry.
#[derive(Debug, PartialEq, Eq)]
pub struct DeleteRequest {
    pub head: RequestHead,
    pub dn: String,
    pub bound_dn: Option<String>,
}

impl DeleteRequest {
    /// The request for the entry that the client names.
    pub fn new(head: RequestHead, name: &str, bound_dn: Option<String>) -> (r: Self)
        ensures
            r.head == head,
            r.dn@ == text::trim(name@),
            r.bound_dn == bound_dn,
    {
        DeleteRequest { head, dn: text::trimmed(name), bound_dn }
    }
}

/// What is known of a request to delete an entry.
#[derive(Debug, PartialEq, Eq)]
pub struct DeleteFacts {
    pub authorized: Option<bool>,
    pub started: Option<Result<(), WriteFsmError>>,
    pub validated: Option<Result<(), WriteFsmError>>,
}

/// The steps of a write that the writing machine carries out: it is started,
/// then its validation is completed, and the first error is answered.
pub open spec fn write_steps(
    head: RequestHead,
    start: StepView,
    started: Option<Result<(), WriteFsmError>>,
    validated: Option<Result<(), WriteFsmError>>,
    detailed: bool,
) -> StepView {
    match started {
        None => start,
        Some(Err(e)) => write_failed(head, e, detailed),
        Some(Ok(_)) => match validated {
            None => StepView::CompleteValidation,
            Some(Err(e)) => write_failed(head, e, detailed),
            Some(Ok(_)) => answered(true, None, head, (ResultCode::Success, ""@)),
        },
    }
}

/// A failed write is answered by what its error stands for; the audit log has
/// the diagnostic text where it is to be detailed.
pub open spec fn write_failed(head: RequestHead, e: WriteFsmError, detailed: bool) -> StepView {
    let a = response::write_error_answer(e);
    answered(
        false,
        if detailed {
            shown_detail(a.1)
        } else {
            None
        },
        head,
        a,
    )
}

fn fail_write(head: RequestHead, e: &WriteFsmError, detailed: bool) -> (r: WriteStep)
    ensures
        r@ == write_failed(head, *e, detailed),
{
    let (code, diagnostic) = write_fsm_error_response(e);
    let detail = if detailed {
        detail_of(&diagnostic)
    } else {
        None
    };
    answer(false, detail, head, code, diagnostic.as_str())
}

fn step_write(
    head: RequestHead,
    start: WriteStep,
    started: &Option<Result<(), WriteFsmError>>,
    validated: &Option<Result<(), WriteFsmError>>,
    detailed: bool,
) -> (r: WriteStep)
    ensures
        r@ == write_steps(head, start@, *started, *validated, detailed),
{
    match started {
        None => start,
        Some(Err(e)) => fail_write(head, e, detailed),
        Some(Ok(_)) => match validated {
            None => WriteStep::CompleteValidation,
            Some(Err(e)) => fail_write(head, e, detailed),
            Some(Ok(_)) => answer(true, None, head, ResultCode::Success, ""),
        },
    }
}

/// What is done next for a request to delete an entry.
pub open spec fn delete_step(req: DeleteRequest, facts: DeleteFacts) -> StepView {
    match facts.authorized {
        None => StepView::Authorize(
            AuthorizationView {
                message_id: req.head.message_id,
                op: ResponseOp::Delete,
                permission: Permission::Delete,
                operation: "delete"@,
                dn: req.dn@,
                attribute: None,
            },
        ),
        Some(false) => StepView::Stop,
        Some(true) => write_steps(
            req.head,
            StepView::StartWrite {
                operation: WriteOperationView::Delete { dn: req.dn@ },
                actor: text::option_text(req.bound_dn),
                validation: WriteValidation::Unchecked,
            },
            facts.started,
            facts.validated,
            false,
        ),
    }
}

impl DeleteRequest {
    /// What is done next.
    pub fn step(&self, facts: &DeleteFacts) -> (r: WriteStep)
        ensures
            r@ == delete_step(*self, *facts),
    {
        match facts.authorized {
            None => WriteStep::Authorize(
                Authorization {
                    message_id: self.head.message_id,
                    op: ResponseOp::Delete,
                    permission: Permission::Delete,
                    operation: "delete",
                    dn: self.dn.clone(),
                    attribute: None,
                },
            ),
            Some(false) => WriteStep::Stop,
            Some(true) => {
                let start = WriteStep::StartWrite {
                    operation: WriteOperation::Delete { dn: self.dn.clone() },
                    actor: copy_option(&self.bound_dn),
                    validation: WriteValidation::Unchecked,
                };
                step_write(self.head, start, &facts.started, &facts.validated, false)
            },
        }
    }
}

// ---------------------------------------------------------------------------
// Add
// ---------------------------------------------------------------------------

/// The names with one more put into its place among them.
pub open spec fn placed(names: Seq<Seq<char>>, name: Seq<char>) -> Seq<Seq<char>>
    decreases names.len(),
{
    if names.len() == 0 || text::less(name, names[0]) {
        seq![name] + names
    } else {
        seq![names[0]] + placed(names.drop_first(), name)
    }
}

/// The names of attributes in ascending order.
pub open spec fn sorted_names(attrs: AttributeSeq) -> Seq<Seq<char>>
    decreases attrs.len(),
{
    if attrs.len() == 0 {
        Seq::empty()
    } else {
        placed(sorted_names(attrs.drop_last()), attrs.last().0)
    }
}

/// The lines of an attribute, one for each of its values.
pub open spec fn value_lines(name: Seq<char>, values: Seq<Seq<char>>) -> Seq<char>
    decreases values.len(),
{
    if values.len() == 0 {
        Seq::empty()
    } else {
        value_lines(name, values.drop_last()) + (name + ": "@ + values.last() + "\n"@)
    }
}

/// The lines of the named attributes.
pub open spec fn attribute_lines(attrs: AttributeSeq, names: Seq<Seq<char>>) -> Seq<char>
    decreases names.len(),
{
    if names.len() == 0 {
        Seq::empty()
    } else {
        attribute_lines(attrs, names.drop_last()) + (match string_map::lookup(attrs, names.last()) {
            Some(values) => value_lines(names.last(), values),
            None => Seq::empty(),
        })
    }
}

/// An entry as the text that is handed to the machine that writes: its name,
/// then its attributes in ascending order of their names.
pub open spec fn entry_text(dn: Seq<char>, attrs: AttributeSeq) -> Seq<char> {
    "dn: "@ + dn + "\n"@ + attribute_lines(attrs, sorted_names(attrs))
}

/// Where a name has its place among the names.
fn place_of(names: &Vec<String>, name: &str) -> (r: usize)
    ensures
        r <= names@.len(),
        placed(text::texts(names@), name@) == text::texts(names@).insert(r as int, name@),
{
    let ghost all = text::texts(names@);
    let mut i: usize = 0;
    proof {
        assert(all.skip(0) =~= all);
        assert(all.take(0) + placed(all, name@) =~= placed(all, name@));
    }
    while i < names.len() && !text::is_less(name, names[i].as_str())
        invariant
            all == text::texts(names@),
            i <= names@.len(),
            placed(all, name@) == all.take(i as int) + placed(all.skip(i as int), name@),
        decreases names@.len() - i,
    {
        proof {
            let here = all.skip(i as int);
            assert(here[0] == names@[i as int]@);
            assert(here.drop_first() =~= all.skip(i + 1));
            let rest = placed(all.skip(i + 1), name@);
            assert(all.take(i as int) + (seq![here[0]] + rest) =~= all.take(i + 1) + rest);
        }
        i = i + 1;
    }
    proof {
        let here = all.skip(i as int);
        if i < names@.len() {
            assert(here[0] == names@[i as int]@);
        }
        assert(placed(here, name@) == seq![name@] + here);
        assert(all.take(i as int) + (seq![name@] + here) =~= all.insert(i as int, name@));
    }
    i
}

fn names_in_order(attrs: &Attributes) -> (r: Vec<String>)
    ensures
        text::texts(r@) == sorted_names(attrs@),
{
    let mut names: Vec<String> = Vec::new();
    let n = attrs.len();
    let ghost s = attrs@;
    let mut i: usize = 0;
    proof {
        assert(text::texts(names@) =~= sorted_names(s.take(0)));
    }
    while i < n
        invariant
            s == attrs@,
            n == s.len(),
            i <= n,
            text::texts(names@) == sorted_names(s.take(i as int)),
        decreases n - i,
    {
        let e = attrs.entry(i);
        proof {
            assert(s.take(i + 1).drop_last() =~= s.take(i as int));
            assert(s.take(i + 1).last() == s[i as int]);
        }
        let at = place_of(&names, e.0.as_str());
        let ghost before = names@;
        names.insert(at, e.0.clone());
        proof {
            assert(text::texts(names@) =~= text::texts(before).insert(at as int, e.0@));
        }
        i = i + 1;
    }
    proof {
        assert(s.take(i as int) =~= s);
    }
    names
}

/// An entry as the bytes that are handed to the machine that writes.
pub fn encode_add_entry_for_write_fsm(dn: &str, attrs: &Attributes) -> (r: Vec<u8>)
    ensures
        r@ == vstd::utf8::encode_utf8(entry_text(dn@, attrs@)),
{
    let mut out = "dn: ".to_owned();
    out.append(dn);
    out.append("\n");
    let ghost front = out@;
    let names = names_in_order(attrs);
    let ghost all = text::texts(names@);
    let mut i: usize = 0;
    proof {
        assert(out@ =~= front + attribute_lines(attrs@, all.take(0)));
    }
    while i < names.len()
        invariant
            all == text::texts(names@),
            i <= names@.len(),
            out@ == front + attribute_lines(attrs@, all.take(i as int)),
        decreases names@.len() - i,
    {
        let name = names[i].as_str();
        let ghost before = out@;
        proof {
            assert(all.take(i + 1).drop_last() =~= all.take(i as int));
            assert(all.take(i + 1).last() == name@);
        }
        match attrs.get(name) {
            Some(values) => {
                let ghost vs = text::texts(values@);
                let mut j: usize = 0;
                proof {
                    assert(out@ =~= before + value_lines(name@, vs.take(0)));
                }
                while j < values.len()
                    invariant
                        vs == text::texts(values@),
                        j <= values@.len(),
                        out@ == before + value_lines(name@, vs.take(j as int)),
                    decreases values@.len() - j,
                {
                    proof {
                        assert(vs.take(j + 1).drop_last() =~= vs.take(j as int));
                        assert(vs.take(j + 1).last() == values@[j as int]@);
                    }
                    let ghost line0 = out@;
                    out.append(name);
                    out.append(": ");
                    out.append(values[j].as_str());
                    out.append("\n");
                    proof {
                        let line = name@ + ": "@ + values@[j as int]@ + "\n"@;
                        assert(out@ =~= line0 + line);
                        assert(before + value_lines(name@, vs.take(j as int)) + line =~= before + (
                        value_lines(name@, vs.take(j as int)) + line));
                    }
                    j = j + 1;
                }
                proof {
                    assert(vs.take(j as int) =~= vs);
                }
            },
            None => {
                proof {
                    assert(out@ =~= before + Seq::<char>::empty());
                }
            },
        }
        proof {
            let lines = match string_map::lookup(attrs@, name@) {
                Some(values) => value_lines(name@, values),
                None => Seq::<char>::empty(),
            };
            assert(out@ =~= before + lines);
            assert(front + attribute_lines(attrs@, all.take(i as int)) + lines =~= front + (
            attribute_lines(attrs@, all.take(i as int)) + lines));
        }
        i = i + 1;
    }
    proof {
        assert(all.take(i as int) =~= all);
    }
    text::bytes_of(out.as_str())
}

/// A request to add an entry.
#[derive(Debug, PartialEq, Eq)]
pub struct AddRequest {
    pub head: RequestHead,
    pub dn: String,
    pub attributes: Attributes,
    pub bound_dn: Option<String>,
    /// What is answered where one of the attributes is kept by the server.
    pub managed: Option<String>,
}

/// What is known of a request to add an entry.
#[derive(Debug, PartialEq, Eq)]
pub struct AddFacts {
    pub authorized: Option<bool>,
    pub attributes_authorized: Option<bool>,
    pub started: Option<Result<(), WriteFsmError>>,
    pub validated: Option<Result<(), WriteFsmError>>,
}

/// The names of attributes, in the order in which they stand.
pub open spec fn names_of(attrs: AttributeSeq) -> Seq<Seq<char>> {
    attrs.map_values(|e: (Seq<char>, Seq<Seq<char>>)| e.0)
}

/// The names of attributes, in the order in which they stand.
pub fn attribute_names(attrs: &Attributes) -> (r: Vec<String>)
    ensures
        text::texts(r@) == names_of(attrs@),
{
    let mut names: Vec<String> = Vec::new();
    let n = attrs.len();
    let ghost s = attrs@;
    let mut i: usize = 0;
    proof {
        assert(text::texts(names@) =~= names_of(s).take(0));
    }
    while i < n
        invariant
            s == attrs@,
            n == s.len(),
            i <= n,
            text::texts(names@) == names_of(s).take(i as int),
        decreases n - i,
    {
        let e = attrs.entry(i);
        proof {
            text::texts_push(names@, *e.0);
            assert(names_of(s).take(i + 1) =~= names_of(s).take(i as int).push(
                names_of(s)[i as int],
            ));
        }
        names.push(e.0.clone());
        i = i + 1;
    }
    proof {
        assert(names_of(s).take(i as int) =~= names_of(s));
    }
    names
}

/// The question whether the client may add the entry.
pub open spec fn add_authorization(req: AddRequest) -> AuthorizationView {
    AuthorizationView {
        message_id: req.head.message_id,
        op: ResponseOp::Add,
        permission: Permission::Add,
        operation: "add"@,
        dn: req.dn@,
        attribute: None,
    }
}

/// What is done next for a request to add an entry.
pub open spec fn add_step(req: AddRequest, facts: AddFacts) -> StepView {
    match facts.authorized {
        None => StepView::Authorize(add_authorization(req)),
        Some(false) => StepView::Stop,
        Some(true) => match req.managed {
            Some(diagnostic) => answered(
                false,
                None,
                req.head,
                (ResultCode::UnwillingToPerform, diagnostic@),
            ),
            None => match facts.attributes_authorized {
                None => StepView::AuthorizeAttributes(
                    add_authorization(req),
                    names_of(req.attributes@),
                ),
                Some(false) => StepView::Stop,
                Some(true) => write_steps(
                    req.head,
                    StepView::StartWrite {
                        operation: WriteOperationView::Add {
                            dn: req.dn@,
                            entry: vstd::utf8::encode_utf8(entry_text(req.dn@, req.attributes@)),
                        },
                        actor: text::option_text(req.bound_dn),
                        validation: WriteValidation::BySchema,
                    },
                    facts.started,
                    facts.validated,
                    false,
                ),
            },
        },
    }
}

impl AddRequest {
    fn authorization(&self) -> (r: Authorization)
        ensures
            r@ == add_authorization(*self),
    {
        Authorization {
            message_id: self.head.message_id,
            op: ResponseOp::Add,
            permission: Permission::Add,
            operation: "add",
            dn: self.dn.clone(),
            attribute: None,
        }
    }

    /// What is done next.
    pub fn step(&self, facts: &AddFacts) -> (r: WriteStep)
        ensures
            r@ == add_step(*self, *facts),
    {
        match facts.authorized {
            None => WriteStep::Authorize(self.authorization()),
            Some(false) => WriteStep::Stop,
            Some(true) => match &self.managed {
                Some(diagnostic) => answer(
                    false,
                    None,
                    self.head,
                    ResultCode::UnwillingToPerform,
                    diagnostic.as_str(),
                ),
                None => match facts.attributes_authorized {
                    None => WriteStep::AuthorizeAttributes(
                        self.authorization(),
                        attribute_names(&self.attributes),
                    ),
                    Some(false) => WriteStep::Stop,
                    Some(true) => {
                        let start = WriteStep::StartWrite {
                            operation: WriteOperation::Add {
                                dn: self.dn.clone(),
                                entry: encode_add_entry_for_write_fsm(
                                    self.dn.as_str(),
                                    &self.attributes,
                                ),
                            },
                            actor: copy_option(&self.bound_dn),
                            validation: WriteValidation::BySchema,
                        };
                        step_write(self.head, start, &facts.started, &facts.validated, false)
                    },
                },
            },
        }
    }
}

// ---------------------------------------------------------------------------
// Modify
// ---------------------------------------------------------------------------

/// A request to modify an entry.
#[derive(Debug, PartialEq, Eq)]
pub struct ModifyRequest {
    pub head: RequestHead,
    pub dn: String,
    /// The attributes that the modifications name, in their order.
    pub attributes: Vec<String>,
    pub bound_dn: Option<String>,
    /// What is answered where one of the attributes is kept by the server.
    pub managed: Option<String>,
}

/// Why a store did not modify an entry.
#[derive(Debug, PartialEq, Eq)]
pub enum NativeModifyError {
    Schema(String),
    Backend(BackendError),
}

/// What is known of a request to modify an entry.
#[derive(Debug, PartialEq, Eq)]
pub struct ModifyFacts {
    pub authorized: Option<bool>,
    pub attributes_authorized: Option<bool>,
    pub modified: Option<Result<(), NativeModifyError>>,
}

/// The first of the attributes that the schema does not know.
pub open spec fn first_unknown(schema: LdapSchema, names: Seq<Seq<char>>) -> Option<Seq<char>>
    decreases names.len(),
{
    if names.len() == 0 {
        None
    } else if schema::attribute_type(schema, names[0]) is None {
        Some(names[0])
    } else {
        first_unknown(schema, names.drop_first())
    }
}

/// The first of the attributes that the schema does not know.
pub fn unknown_attribute<'a>(schema: &LdapSchema, names: &'a Vec<String>) -> (r: Option<&'a String>)
    ensures
        match r {
            Some(name) => first_unknown(*schema, text::texts(names@)) == Some(name@),
            None => first_unknown(*schema, text::texts(names@)) is None,
        },
{
    let ghost all = text::texts(names@);
    let mut i: usize = 0;
    proof {
        assert(all.skip(0) =~= all);
    }
    while i < names.len()
        invariant
            all == text::texts(names@),
            i <= names@.len(),
            first_unknown(*schema, all) == first_unknown(*schema, all.skip(i as int)),
        decreases names@.len() - i,
    {
        proof {
            assert(all.skip(i as int)[0] == names@[i as int]@);
            assert(all.skip(i as int).drop_first() =~= all.skip(i + 1));
        }
        if schema.get_attribute_type(names[i].as_str()).is_none() {
            return Some(&names[i]);
        }
        i = i + 1;
    }
    None
}

/// The question whether the client may modify the entry.
pub open spec fn modify_authorization(head: RequestHead, dn: Seq<char>) -> AuthorizationView {
    AuthorizationView {
        message_id: head.message_id,
        op: ResponseOp::Modify,
        permission: Permission::Modify,
        operation: "modify"@,
        dn,
        attribute: None,
    }
}

fn ask_to_modify(head: RequestHead, dn: &String) -> (r: Authorization)
    ensures
        r@ == modify_authorization(head, dn@),
{
    Authorization {
        message_id: head.message_id,
        op: ResponseOp::Modify,
        permission: Permission::Modify,
        operation: "modify",
        dn: dn.clone(),
        attribute: None,
    }
}

/// What is answered to a modification of an attribute that the schema does not
/// know.
pub open spec fn unknown_attribute_text(name: Seq<char>) -> Seq<char> {
    "Schema validation failed: Attribute type not found: "@ + name
}

/// What is done next for a request to modify an entry.
pub open spec fn modify_step(req: ModifyRequest, schema: LdapSchema, facts: ModifyFacts) -> StepView {
    match req.managed {
        Some(diagnostic) => answered(
            false,
            Some(diagnostic@),
            req.head,
            (ResultCode::UnwillingToPerform, diagnostic@),
        ),
        None => match facts.authorized {
            None => StepView::Authorize(modify_authorization(req.head, req.dn@)),
            Some(false) => StepView::Stop,
            Some(true) => match facts.attributes_authorized {
                None => StepView::AuthorizeAttributes(
                    modify_authorization(req.head, req.dn@),
                    text::texts(req.attributes@),
                ),
                Some(false) => StepView::Stop,
                Some(true) => match first_unknown(schema, text::texts(req.attributes@)) {
                    Some(name) => answered(
                        false,
                        Some(unknown_attribute_text(name)),
                        req.head,
                        (ResultCode::ObjectClassViolation, unknown_attribute_text(name)),
                    ),
                    None => match facts.modified {
                        None => StepView::ModifyEntry {
                            dn: req.dn@,
                            actor: text::option_text(req.bound_dn),
                        },
                        Some(Err(NativeModifyError::Schema(diagnostic))) => answered(
                            false,
                            Some(diagnostic@),
                            req.head,
                            (ResultCode::ObjectClassViolation, diagnostic@),
                        ),
                        Some(Err(NativeModifyError::Backend(err))) => answered(
                            false,
                            Some(response::backend_text(err)),
                            req.head,
                            (response::backend_code(err), response::backend_text(err)),
                        ),
                        Some(Ok(_)) => answered(true, None, req.head, (ResultCode::Success, ""@)),
                    },
                },
            },
        },
    }
}

impl ModifyRequest {
    /// What is done next.
    pub fn step(&self, schema: &LdapSchema, facts: &ModifyFacts) -> (r: WriteStep)
        ensures
            r@ == modify_step(*self, *schema, *facts),
    {
        if let Some(diagnostic) = &self.managed {
            return answer(
                false,
                Some(diagnostic.clone()),
                self.head,
                ResultCode::UnwillingToPerform,
                diagnostic.as_str(),
            );
        }
        match facts.authorized {
            None => {
                return WriteStep::Authorize(ask_to_modify(self.head, &self.dn));
            },
            Some(false) => {
                return WriteStep::Stop;
            },
            Some(true) => {},
        }
        match facts.attributes_authorized {
            None => {
                return WriteStep::AuthorizeAttributes(
                    ask_to_modify(self.head, &self.dn),
                    directory::copy_strings(&self.attributes),
                );
            },
            Some(false) => {
                return WriteStep::Stop;
            },
            Some(true) => {},
        }
        if let Some(name) = unknown_attribute(schema, &self.attributes) {
            let mut diagnostic = "Schema validation failed: Attribute type not found: ".to_owned();
            diagnostic.append(name.as_str());
            return answer(
                false,
                Some(diagnostic.clone()),
                self.head,
                ResultCode::ObjectClassViolation,
                diagnostic.as_str(),
            );
        }
        match &facts.modified {
            None => WriteStep::ModifyEntry {
                dn: self.dn.clone(),
                actor: copy_option(&self.bound_dn),
            },
            Some(Err(NativeModifyError::Schema(diagnostic))) => answer(
                false,
                Some(diagnostic.clone()),
                self.head,
                ResultCode::ObjectClassViolation,
                diagnostic.as_str(),
            ),
            Some(Err(NativeModifyError::Backend(err))) => answer(
                false,
                Some(backend_diagnostic(err).to_owned()),
                self.head,
                map_backend_error_code(err),
                backend_diagnostic(err),
            ),
            Some(Ok(_)) => answer(true, None, self.head, ResultCode::Success, ""),
        }
    }
}

/// What is known of a request to modify the schema of the running server.
#[derive(Debug, PartialEq, Eq)]
pub struct SchemaModifyFacts {
    pub authorized: Option<bool>,
    pub attributes_authorized: Option<bool>,
    /// Whether the schema was updated, or what is answered.
    pub updated: Option<Result<(), (ResultCode, String)>>,
}

/// What is done next for a request to modify the schema of the running server.
pub open spec fn schema_modify_step(req: ModifyRequest, facts: SchemaModifyFacts) -> StepView {
    match facts.authorized {
        None => StepView::Authorize(modify_authorization(req.head, req.dn@)),
        Some(false) => StepView::Stop,
        Some(true) => match facts.attributes_authorized {
            None => StepView::AuthorizeAttributes(
                modify_authorization(req.head, req.dn@),
                text::texts(req.attributes@),
            ),
            Some(false) => StepView::Stop,
            Some(true) => match facts.updated {
                None => StepView::UpdateSchema,
                Some(Ok(_)) => answered(true, None, req.head, (ResultCode::Success, ""@)),
                Some(Err(e)) => answered(false, Some(e.1@), req.head, (e.0, e.1@)),
            },
        },
    }
}

impl ModifyRequest {
    /// What is done next where the request is for the schema.
    pub fn schema_step(&self, facts: &SchemaModifyFacts) -> (r: WriteStep)
        ensures
            r@ == schema_modify_step(*self, *facts),
    {
        match facts.authorized {
            None => WriteStep::Authorize(ask_to_modify(self.head, &self.dn)),
            Some(false) => WriteStep::Stop,
            Some(true) => match facts.attributes_authorized {
                None => WriteStep::AuthorizeAttributes(
                    ask_to_modify(self.head, &self.dn),
                    directory::copy_strings(&self.attributes),
                ),
                Some(false) => WriteStep::Stop,
                Some(true) => match &facts.updated {
                    None => WriteStep::UpdateSchema,
                    Some(Ok(_)) => answer(true, None, self.head, ResultCode::Success, ""),
                    Some(Err(e)) => answer(
                        false,
                        Some(e.1.clone()),
                        self.head,
                        e.0,
                        e.1.as_str(),
                    ),
                },
            },
        }
    }
}

// ---------------------------------------------------------------------------
// Rename
// ---------------------------------------------------------------------------

/// A request to rename or move an entry.
#[derive(Debug, PartialEq, Eq)]
pub struct ModDnRequest {
    pub head: RequestHead,
    pub dn: String,
    pub new_rdn: String,
    pub delete_old: bool,
    pub new_superior: Option<String>,
    pub bound_dn: Option<String>,
}

impl ModDnRequest {
    /// The request for the entry that the client names. An empty new superior
    /// is none.
    pub fn new(
        head: RequestHead,
        name: &str,
        new_rdn: &str,
        delete_old: bool,
        new_superior: Option<String>,
        bound_dn: Option<String>,
    ) -> (r: Self)
        ensures
            r.head == head,
            r.dn@ == text::trim(name@),
            r.new_rdn@ == text::trim(new_rdn@),
            r.delete_old == delete_old,
            r.new_superior == (match new_superior {
                Some(superior) => if superior@ == ""@ {
                    None
                } else {
                    Some(superior)
                },
                None => None,
            }),
            r.bound_dn == bound_dn,
    {
        let new_superior = match new_superior {
            Some(superior) => if text::same(superior.as_str(), "") {
                None
            } else {
                Some(superior)
            },
            None => None,
        };
        ModDnRequest {
            head,
            dn: text::trimmed(name),
            new_rdn: text::trimmed(new_rdn),
            delete_old,
            new_superior,
            bound_dn,
        }
    }
}

/// What is known of a request to rename an entry.
#[derive(Debug, PartialEq, Eq)]
pub struct ModDnFacts {
    pub authorized: Option<bool>,
    /// Whether the entry is there.
    pub found: Option<Result<bool, BackendError>>,
    /// Whether the schema lets the entry have the new name, or why not.
    pub rdn_valid: Option<Result<(), String>>,
    pub started: Option<Result<(), WriteFsmError>>,
    pub validated: Option<Result<(), WriteFsmError>>,
}

/// What is done next for a request to rename an entry.
pub open spec fn moddn_step(req: ModDnRequest, facts: ModDnFacts) -> StepView {
    match facts.authorized {
        None => StepView::Authorize(
            AuthorizationView {
                message_id: req.head.message_id,
                op: ResponseOp::ModifyDn,
                permission: Permission::Modify,
                operation: "modifydn"@,
                dn: req.dn@,
                attribute: None,
            },
        ),
        Some(false) => StepView::Stop,
        Some(true) => match facts.found {
            None => StepView::LookUp(req.dn@),
            Some(Err(err)) => answered(
                false,
                Some(response::backend_text(err)),
                req.head,
                (response::backend_code(err), response::backend_text(err)),
            ),
            Some(Ok(false)) => StepView::Answer {
                audit: None,
                reply: response::plain(req.head, ResultCode::NoSuchObject, "no such object"@),
            },
            Some(Ok(true)) => match facts.rdn_valid {
                None => StepView::ValidateRdn(req.new_rdn@),
                Some(Err(e)) => answered(
                    false,
                    Some("Schema validation failed: "@ + e@),
                    req.head,
                    (ResultCode::ObjectClassViolation, "Schema validation failed: "@ + e@),
                ),
                Some(Ok(_)) => write_steps(
                    req.head,
                    StepView::StartWrite {
                        operation: WriteOperationView::ModifyDn {
                            dn: req.dn@,
                            new_rdn: req.new_rdn@,
                            delete_old: req.delete_old,
                            new_superior: text::option_text(req.new_superior),
                        },
                        actor: text::option_text(req.bound_dn),
                        validation: WriteValidation::StrictlyBySchema,
                    },
                    facts.started,
                    facts.validated,
                    true,
                ),
            },
        },
    }
}

impl ModDnRequest {
    /// What is done next.
    pub fn step(&self, facts: &ModDnFacts) -> (r: WriteStep)
        ensures
            r@ == moddn_step(*self, *facts),
    {
        match facts.authorized {
            None => {
                return WriteStep::Authorize(
                    Authorization {
                        message_id: self.head.message_id,
                        op: ResponseOp::ModifyDn,
                        permission: Permission::Modify,
                        operation: "modifydn",
                        dn: self.dn.clone(),
                        attribute: None,
                    },
                );
            },
            Some(false) => {
                return WriteStep::Stop;
            },
            Some(true) => {},
        }
        match &facts.found {
            None => {
                return WriteStep::LookUp(self.dn.clone());
            },
            Some(Err(err)) => {
                return answer(
                    false,
                    Some(backend_diagnostic(err).to_owned()),
                    self.head,
                    map_backend_error_code(err),
                    backend_diagnostic(err),
                );
            },
            Some(Ok(false)) => {
                return WriteStep::Answer {
                    audit: None,
                    reply: Reply::plain(self.head, ResultCode::NoSuchObject, "no such object"),
                };
            },
            Some(Ok(true)) => {},
        }
        match &facts.rdn_valid {
            None => {
                return WriteStep::ValidateRdn(self.new_rdn.clone());
            },
            Some(Err(e)) => {
                let mut diagnostic = "Schema validation failed: ".to_owned();
                diagnostic.append(e.as_str());
                return answer(
                    false,
                    Some(diagnostic.clone()),
                    self.head,
                    ResultCode::ObjectClassViolation,
                    diagnostic.as_str(),
                );
            },
            Some(Ok(_)) => {},
        }
        let start = WriteStep::StartWrite {
            operation: WriteOperation::ModifyDn {
                dn: self.dn.clone(),
                new_rdn: self.new_rdn.clone(),
                delete_old: self.delete_old,
                new_superior: copy_option(&self.new_superior),
            },
            actor: copy_option(&self.bound_dn),
            validation: WriteValidation::StrictlyBySchema,
        };
        step_write(self.head, start, &facts.started, &facts.validated, true)
    }
}

// ---------------------------------------------------------------------------
// Compare
// ---------------------------------------------------------------------------

/// A request to compare a value of an entry.
#[derive(Debug, PartialEq, Eq)]
pub struct CompareRequest {
    pub head: RequestHead,
    pub dn: String,
    pub attribute: String,
    pub value: Vec<u8>,
}

impl CompareRequest {
    /// The request for the entry and the attribute that the client names.
    pub fn new(head: RequestHead, name: &str, attribute: &str, value: Vec<u8>) -> (r: Self)
        ensures
            r.head == head,
            r.dn@ == text::trim(name@),
            r.attribute@ == text::trim(attribute@),
            r.value == value,
    {
        CompareRequest {
            head,
            dn: text::trimmed(name),
            attribute: text::trimmed(attribute),
            value,
        }
    }
}

/// What is known of a request to compare.
#[derive(Debug, PartialEq, Eq)]
pub struct CompareFacts {
    pub authorized: Option<bool>,
    pub started: Option<Result<(), CompareFsmError>>,
    pub read: Option<Result<(), CompareFsmError>>,
    /// What the comparing machine came to, if to anything.
    pub result: Option<Option<bool>>,
    pub emitted: Option<Result<(), CompareFsmError>>,
}

/// A failed comparison is answered by what its error stands for.
pub open spec fn compare_failed(head: RequestHead, e: CompareFsmError) -> StepView {
    let a = response::compare_error_answer(e);
    StepView::Answer {
        audit: Some(
            AuditView { success: false, outcome: "error"@, detail: shown_detail(a.1) },
        ),
        reply: response::plain(head, a.0, a.1),
    }
}

fn fail_compare(head: RequestHead, e: &CompareFsmError) -> (r: WriteStep)
    ensures
        r@ == compare_failed(head, *e),
{
    let (code, diagnostic) = compare_fsm_error_response(e);
    WriteStep::Answer {
        audit: Some(Audit { success: false, outcome: "error", detail: detail_of(&diagnostic) }),
        reply: Reply::plain(head, code, diagnostic.as_str()),
    }
}

/// The answer to a comparison that came to a result.
pub open spec fn compared(head: RequestHead, matched: bool) -> StepView {
    StepView::Answer {
        audit: Some(
            AuditView {
                success: true,
                outcome: if matched {
                    "true"@
                } else {
                    "false"@
                },
                detail: None,
            },
        ),
        reply: response::plain(
            head,
            if matched {
                ResultCode::CompareTrue
            } else {
                ResultCode::CompareFalse
            },
            ""@,
        ),
    }
}

/// What is done next for a request to compare.
pub open spec fn compare_step(req: CompareRequest, facts: CompareFacts) -> StepView {
    match facts.authorized {
        None => StepView::Authorize(
            AuthorizationView {
                message_id: req.head.message_id,
                op: ResponseOp::Compare,
                permission: Permission::Compare,
                operation: "compare"@,
                dn: req.dn@,
                attribute: Some(req.attribute@),
            },
        ),
        Some(false) => StepView::Stop,
        Some(true) => match facts.started {
            None => StepView::StartCompare {
                dn: req.dn@,
                attribute: req.attribute@,
                value: req.value@,
            },
            Some(Err(e)) => compare_failed(req.head, e),
            Some(Ok(_)) => match facts.read {
                None => StepView::ReadEntry,
                Some(Err(e)) => compare_failed(req.head, e),
                Some(Ok(_)) => match facts.result {
                    None => StepView::TakeResult,
                    Some(None) => StepView::Fail("compare FSM did not produce a result"@),
                    Some(Some(matched)) => match facts.emitted {
                        None => StepView::EmitResult,
                        Some(Err(e)) => compare_failed(req.head, e),
                        Some(Ok(_)) => compared(req.head, matched),
                    },
                },
            },
        },
    }
}

impl CompareRequest {
    /// What is done next.
    pub fn step(&self, facts: &CompareFacts) -> (r: WriteStep)
        ensures
            r@ == compare_step(*self, *facts),
    {
        match facts.authorized {
            None => {
                return WriteStep::Authorize(
                    Authorization {
                        message_id: self.head.message_id,
                        op: ResponseOp::Compare,
                        permission: Permission::Compare,
                        operation: "compare",
                        dn: self.dn.clone(),
                        attribute: Some(self.attribute.clone()),
                    },
                );
            },
            Some(false) => {
                return WriteStep::Stop;
            },
            Some(true) => {},
        }
        match &facts.started {
            None => {
                return WriteStep::StartCompare {
                    dn: self.dn.clone(),
                    attribute: self.attribute.clone(),
                    value: ldap_controls::copy_bytes(&self.value),
                };
            },
            Some(Err(e)) => {
                return fail_compare(self.head, e);
            },
            Some(Ok(_)) => {},
        }
        match &facts.read {
            None => {
                return WriteStep::ReadEntry;
            },
            Some(Err(e)) => {
                return fail_compare(self.head, e);
            },
            Some(Ok(_)) => {},
        }
        let matched = match facts.result {
            None => {
                return WriteStep::TakeResult;
            },
            Some(None) => {
                return WriteStep::Fail("compare FSM did not produce a result".to_owned());
            },
            Some(Some(matched)) => matched,
        };
        match &facts.emitted {
            None => WriteStep::EmitResult,
            Some(Err(e)) => fail_compare(self.head, e),
            Some(Ok(_)) => WriteStep::Answer {
                audit: Some(
                    Audit {
                        success: true,
                        outcome: if matched {
                            "true"
                        } else {
                            "false"
                        },
                        detail: None,
                    },
                ),
                reply: Reply::plain(
                    self.head,
                    if matched {
                        ResultCode::CompareTrue
                    } else {
                        ResultCode::CompareFalse
                    },
                    "",
                ),
            },
        }
    }
}

// ---------------------------------------------------------------------------
// Laws
// ---------------------------------------------------------------------------

/// The step touches the directory.
pub open spec fn touches_directory(step: StepView) -> bool {
    step is LookUp || step is ValidateRdn || step is StartWrite || step is CompleteValidation
        || step is ModifyEntry || step is UpdateSchema || step is StartCompare || step is ReadEntry
        || step is TakeResult || step is EmitResult
}

/// The step answers that the request succeeded.
pub open spec fn answers_success(step: StepView) -> bool {
    step matches StepView::Answer { reply, .. } && (reply.code == ResultCode::Success || reply.code
        == ResultCode::CompareTrue)
}

/// No request touches the directory, or is answered as a success, before the
/// client is known to be authorized for it.
pub proof fn nothing_is_done_unauthorized(
    delete: DeleteRequest,
    delete_facts: DeleteFacts,
    add_request: AddRequest,
    add_facts: AddFacts,
    modify: ModifyRequest,
    schema: LdapSchema,
    modify_facts: ModifyFacts,
    schema_facts: SchemaModifyFacts,
    moddn: ModDnRequest,
    moddn_facts: ModDnFacts,
    compare: CompareRequest,
    compare_facts: CompareFacts,
)
    ensures
        touches_directory(delete_step(delete, delete_facts)) || answers_success(
            delete_step(delete, delete_facts),
        ) ==> delete_facts.authorized == Some(true),
        touches_directory(add_step(add_request, add_facts)) || answers_success(
            add_step(add_request, add_facts),
        ) ==> add_facts.authorized == Some(true) && add_facts.attributes_authorized == Some(true),
        touches_directory(modify_step(modify, schema, modify_facts)) || answers_success(
            modify_step(modify, schema, modify_facts),
        ) ==> modify_facts.authorized == Some(true) && modify_facts.attributes_authorized == Some(
            true,
        ),
        touches_directory(schema_modify_step(modify, schema_facts)) ==> schema_facts.authorized
            == Some(true) && schema_facts.attributes_authorized == Some(true),
        touches_directory(moddn_step(moddn, moddn_facts)) || answers_success(
            moddn_step(moddn, moddn_facts),
        ) ==> moddn_facts.authorized == Some(true),
        touches_directory(compare_step(compare, compare_facts)) || answers_success(
            compare_step(compare, compare_facts),
        ) ==> compare_facts.authorized == Some(true),
{
    if let Some(Err(e)) = compare_facts.started {
        response::compare_errors_are_no_match(e);
    }
    if let Some(Err(e)) = compare_facts.read {
        response::compare_errors_are_no_match(e);
    }
    if let Some(Err(e)) = compare_facts.emitted {
        response::compare_errors_are_no_match(e);
    }
}

/// A step of the machine that writes was taken without an error.
pub open spec fn went_well(r: Option<Result<(), WriteFsmError>>) -> bool {
    r matches Some(Ok(_))
}

/// A write is answered as a success only where the machine that writes went
/// through it without an error.
pub proof fn success_means_written(
    delete: DeleteRequest,
    delete_facts: DeleteFacts,
    add_request: AddRequest,
    add_facts: AddFacts,
    modify: ModifyRequest,
    schema: LdapSchema,
    modify_facts: ModifyFacts,
    moddn: ModDnRequest,
    moddn_facts: ModDnFacts,
)
    ensures
        answers_success(delete_step(delete, delete_facts)) ==> went_well(delete_facts.started)
            && went_well(delete_facts.validated),
        answers_success(add_step(add_request, add_facts)) ==> went_well(add_facts.started)
            && went_well(add_facts.validated),
        answers_success(modify_step(modify, schema, modify_facts)) ==> (
        modify_facts.modified matches Some(Ok(_))),
        answers_success(moddn_step(moddn, moddn_facts)) ==> went_well(moddn_facts.started)
            && went_well(moddn_facts.validated),
{
}

/// A request for an attribute that the server keeps is never carried out, and
/// once authorized it is answered that the server is unwilling.
pub proof fn kept_attributes_are_refused(
    add_request: AddRequest,
    add_facts: AddFacts,
    modify: ModifyRequest,
    schema: LdapSchema,
    modify_facts: ModifyFacts,
)
    ensures
        add_request.managed matches Some(d) ==> !touches_directory(
            add_step(add_request, add_facts),
        ) && (add_facts.authorized == Some(true) ==> add_step(add_request, add_facts) == answered(
            false,
            None,
            add_request.head,
            (ResultCode::UnwillingToPerform, d@),
        )),
        modify.managed matches Some(d) ==> modify_step(modify, schema, modify_facts) == answered(
            false,
            Some(d@),
            modify.head,
            (ResultCode::UnwillingToPerform, d@),
        ),
{
}

/// The names of the attributes of an entry are handed on in ascending order,
/// all of them and no others.
pub proof fn names_are_sorted(attrs: AttributeSeq)
    ensures
        sorted_names(attrs).len() == attrs.len(),
        forall|i: int, j: int|
            0 <= i < j < sorted_names(attrs).len() ==> !text::less(
                #[trigger] sorted_names(attrs)[j],
                #[trigger] sorted_names(attrs)[i],
            ),
        sorted_names(attrs).to_multiset() == names_of(attrs).to_multiset(),
    decreases attrs.len(),
{
    if attrs.len() > 0 {
        let front = attrs.drop_last();
        let name = attrs.last().0;
        names_are_sorted(front);
        placed_is_sorted(sorted_names(front), name);
        assert(names_of(attrs) =~= names_of(front).push(name));
        names_of(front).to_multiset_ensures();
    } else {
        assert(names_of(attrs) =~= sorted_names(attrs));
    }
}

proof fn placed_is_sorted(names: Seq<Seq<char>>, name: Seq<char>)
    requires
        forall|i: int, j: int|
            0 <= i < j < names.len() ==> !text::less(#[trigger] names[j], #[trigger] names[i]),
    ensures
        placed(names, name).len() == names.len() + 1,
        forall|i: int, j: int|
            0 <= i < j < placed(names, name).len() ==> !text::less(
                #[trigger] placed(names, name)[j],
                #[trigger] placed(names, name)[i],
            ),
        placed(names, name).to_multiset() == names.to_multiset().insert(name),
        forall|k: int|
            0 <= k < placed(names, name).len() ==> (#[trigger] placed(names, name)[k]) == name
                || names.contains(placed(names, name)[k]),
    decreases names.len(),
{
    let out = placed(names, name);
    names.to_multiset_ensures();
    if names.len() == 0 || text::less(name, names[0]) {
        assert(out =~= seq![name] + names);
        assert(out =~= names.insert(0, name));
        vstd::seq_lib::to_multiset_insert(names, 0, name);
        assert forall|i: int, j: int| 0 <= i < j < out.len() implies !text::less(
            #[trigger] out[j],
            #[trigger] out[i],
        ) by {
            assert(out[j] == names[j - 1]);
            if i > 0 {
                assert(out[i] == names[i - 1]);
            } else {
                text::less_total(name, names[j - 1]);
                text::less_total(name, names[0]);
                text::less_total(names[0], names[j - 1]);
                if text::less(names[j - 1], name) {
                    text::less_transitive(names[j - 1], name, names[0]);
                    if j > 1 {
                        assert(!text::less(names[j - 1], names[0]));
                    }
                }
            }
        }
        assert forall|k: int| 0 <= k < out.len() implies (#[trigger] out[k]) == name
            || names.contains(out[k]) by {
            if k > 0 {
                assert(out[k] == names[k - 1]);
            }
        }
    } else {
        let rest = names.drop_first();
        assert forall|i: int, j: int| 0 <= i < j < rest.len() implies !text::less(
            #[trigger] rest[j],
            #[trigger] rest[i],
        ) by {
            assert(rest[i] == names[i + 1] && rest[j] == names[j + 1]);
        }
        placed_is_sorted(rest, name);
        let tail = placed(rest, name);
        assert(out =~= seq![names[0]] + tail);
        assert(names =~= seq![names[0]] + rest);
        assert(out =~= tail.insert(0, names[0]));
        assert(names =~= rest.insert(0, names[0]));
        vstd::seq_lib::to_multiset_insert(tail, 0, names[0]);
        vstd::seq_lib::to_multiset_insert(rest, 0, names[0]);
        assert(out.to_multiset() =~= names.to_multiset().insert(name));
        assert forall|i: int, j: int| 0 <= i < j < out.len() implies !text::less(
            #[trigger] out[j],
            #[trigger] out[i],
        ) by {
            assert(out[j] == tail[j - 1]);
            if i > 0 {
                assert(out[i] == tail[i - 1]);
            } else if tail[j - 1] != name {
                let m = choose|m: int| 0 <= m < rest.len() && rest[m] == tail[j - 1];
                assert(names[m + 1] == rest[m]);
                assert(!text::less(names[m + 1], names[0]));
            }
        }
        assert forall|k: int| 0 <= k < out.len() implies (#[trigger] out[k]) == name
            || names.contains(out[k]) by {
            if k == 0 {
                assert(out[0] == names[0]);
            } else {
                assert(out[k] == tail[k - 1]);
                if tail[k - 1] != name {
                    let m = choose|m: int| 0 <= m < rest.len() && rest[m] == tail[k - 1];
                    assert(names[m + 1] == rest[m]);
                }
            }
        }
    }
}

} // verus!
