//! The controls of a search: what they ask for, and how one that cannot be
//! granted is answered.

use vstd::prelude::*;

use crate::ldap_controls;
use crate::ldap_controls::{ControlView, RequestControls};
use crate::response::{RequestHead, ResultCode};
use crate::search_entries::SortKey;
use crate::text;

verus! {

/// The control that asks for entries as they are, referrals too.
pub open spec fn manage_dsa_it_oid() -> Seq<char> {
    "2.16.840.1.113730.3.4.2"@
}

/// The control that asks for results in pages.
pub open spec fn paged_results_oid() -> Seq<char> {
    "1.2.840.113556.1.4.319"@
}

/// The control that asks for results in order.
pub open spec fn sort_request_oid() -> Seq<char> {
    "1.2.840.113556.1.4.473"@
}

/// The control that asks for changes.
pub open spec fn sync_request_oid() -> Seq<char> {
    "1.3.6.1.4.1.4203.1.9.1.1"@
}

/// How the order of the results came out.
#[derive(Debug, Clone, Copy, PartialEq, Eq, Structural)]
pub enum ServerSideSortResultCode {
    Success,
    TimeLimitExceeded,
    InappropriateMatching,
    UnwillingToPerform,
}

/// A control of the answer to a search.
#[derive(Debug, PartialEq, Eq)]
#[allow(inconsistent_fields)]
pub enum ResponseControl {
    Sort { result: ServerSideSortResultCode, attribute: Option<String> },
    Paged { size: u32, cookie: Vec<u8> },
}

/// What a [`ResponseControl`] says.
#[allow(inconsistent_fields)]
pub enum ResponseControlView {
    Sort { result: ServerSideSortResultCode, attribute: Option<Seq<char>> },
    Paged { size: u32, cookie: Seq<u8> },
}

impl View for ResponseControl {
    type V = ResponseControlView;

    open spec fn view(&self) -> ResponseControlView {
        match self {
            ResponseControl::Sort { result, attribute } => ResponseControlView::Sort {
                result: *result,
                attribute: text::option_text(*attribute),
            },
            ResponseControl::Paged { size, cookie } => ResponseControlView::Paged {
                size: *size,
                cookie: cookie@,
            },
        }
    }
}

/// What the controls of a list say.
pub open spec fn response_control_views(cs: Seq<ResponseControl>) -> Seq<ResponseControlView> {
    cs.map_values(|c: ResponseControl| c@)
}

/// The answer to a search.
#[derive(Debug, PartialEq, Eq)]
pub struct SearchReply {
    pub head: RequestHead,
    pub code: ResultCode,
    pub matched_dn: String,
    pub diagnostic: String,
    pub referrals: Vec<String>,
    pub controls: Vec<ResponseControl>,
}

/// What a [`SearchReply`] says.
#[verifier::ext_equal]
pub struct SearchReplyView {
    pub head: RequestHead,
    pub code: ResultCode,
    pub matched_dn: Seq<char>,
    pub diagnostic: Seq<char>,
    pub referrals: Seq<Seq<char>>,
    pub controls: Seq<ResponseControlView>,
}

impl View for SearchReply {
    type V = SearchReplyView;

    open spec fn view(&self) -> SearchReplyView {
        SearchReplyView {
            head: self.head,
            code: self.code,
            matched_dn: self.matched_dn@,
            diagnostic: self.diagnostic@,
            referrals: text::texts(self.referrals@),
            controls: response_control_views(self.controls@),
        }
    }
}

/// An answer with a code, a name that was matched, and a text.
pub open spec fn told(
    head: RequestHead,
    code: ResultCode,
    matched_dn: Seq<char>,
    diagnostic: Seq<char>,
) -> SearchReplyView {
    SearchReplyView {
        head,
        code,
        matched_dn,
        diagnostic,
        referrals: Seq::empty(),
        controls: Seq::empty(),
    }
}

impl SearchReply {
    /// An answer with a code, a name that was matched, and a text.
    pub fn told(head: RequestHead, code: ResultCode, matched_dn: &str, diagnostic: &str) -> (r: Self)
        ensures
            r@ == told(head, code, matched_dn@, diagnostic@),
    {
        SearchReply::with_controls(head, code, matched_dn, diagnostic, Vec::new())
    }

    /// An answer with controls.
    pub fn with_controls(
        head: RequestHead,
        code: ResultCode,
        matched_dn: &str,
        diagnostic: &str,
        controls: Vec<ResponseControl>,
    ) -> (r: Self)
        ensures
            r@ == (SearchReplyView {
                controls: response_control_views(controls@),
                ..told(head, code, matched_dn@, diagnostic@)
            }),
    {
        let r = SearchReply {
            head,
            code,
            matched_dn: matched_dn.to_owned(),
            diagnostic: diagnostic.to_owned(),
            referrals: Vec::new(),
            controls,
        };
        proof {
            assert(r@.referrals =~= Seq::<Seq<char>>::empty());
        }
        r
    }

    /// An answer that refers to other servers.
    pub fn referral(head: RequestHead, dn: &str, referrals: Vec<String>) -> (r: Self)
        ensures
            r@ == (SearchReplyView {
                referrals: text::texts(referrals@),
                ..told(head, ResultCode::Referral, dn@, "search base is a referral"@)
            }),
    {
        let r = SearchReply {
            head,
            code: ResultCode::Referral,
            matched_dn: dn.to_owned(),
            diagnostic: "search base is a referral".to_owned(),
            referrals,
            controls: Vec::new(),
        };
        proof {
            assert(r@.controls =~= Seq::<ResponseControlView>::empty());
        }
        r
    }
}

/// What is written into the audit log of a search.
#[derive(Debug, PartialEq, Eq)]
pub struct SearchAudit {
    pub action: &'static str,
    pub success: bool,
    pub target: String,
    pub detail: String,
    /// One more fact, with its name.
    pub extra: Option<(&'static str, String)>,
}

/// What a [`SearchAudit`] says.
pub struct SearchAuditView {
    pub action: Seq<char>,
    pub success: bool,
    pub target: Seq<char>,
    pub detail: Seq<char>,
    pub extra: Option<(Seq<char>, Seq<char>)>,
}

impl View for SearchAudit {
    type V = SearchAuditView;

    open spec fn view(&self) -> SearchAuditView {
        SearchAuditView {
            action: self.action@,
            success: self.success,
            target: self.target@,
            detail: self.detail@,
            extra: match self.extra {
                Some(e) => Some((e.0@, e.1@)),
                None => None,
            },
        }
    }
}

/// The names of counters.
pub open spec fn names(v: Seq<&'static str>) -> Seq<Seq<char>> {
    v.map_values(|s: &'static str| s@)
}

/// The end of a search: counters that are raised, a note in the audit log, and
/// the answer.
#[derive(Debug, PartialEq, Eq)]
pub struct Ending {
    pub counters: Vec<&'static str>,
    pub audit: Option<SearchAudit>,
    pub reply: SearchReply,
}

/// What an [`Ending`] says.
#[verifier::ext_equal]
pub struct EndingView {
    pub counters: Seq<Seq<char>>,
    pub audit: Option<SearchAuditView>,
    pub reply: SearchReplyView,
}

impl View for Ending {
    type V = EndingView;

    open spec fn view(&self) -> EndingView {
        EndingView {
            counters: names(self.counters@),
            audit: match self.audit {
                Some(a) => Some(a@),
                None => None,
            },
            reply: self.reply@,
        }
    }
}

/// An end with an answer and nothing else.
pub open spec fn just(reply: SearchReplyView) -> EndingView {
    EndingView { counters: Seq::empty(), audit: None, reply }
}

impl Ending {
    /// An end with an answer and nothing else.
    pub fn just(reply: SearchReply) -> (r: Self)
        ensures
            r@ == just(reply@),
    {
        let r = Ending { counters: Vec::new(), audit: None, reply };
        proof {
            assert(r@.counters =~= Seq::<Seq<char>>::empty());
        }
        r
    }
}

// ---------------------------------------------------------------------------
// Looking controls up
// ---------------------------------------------------------------------------

/// The control with that identifier, if there is one; more than one is
/// answered with a text.
pub open spec fn looked_up(cs: Seq<ControlView>, oid: Seq<char>) -> Result<
    Option<ControlView>,
    Seq<char>,
> {
    let n = ldap_controls::occurrences(cs, oid);
    if n > 1 {
        Err(ldap_controls::lookup_error_text(oid, n))
    } else if n == 1 {
        Ok(ldap_controls::first_control(cs, oid))
    } else {
        Ok(None)
    }
}

/// A control by what its holder asks for: its value and whether it is
/// critical.
fn look_up(controls: &RequestControls, oid: &str) -> (r: Result<
    Option<(Option<Vec<u8>>, bool)>,
    String,
>)
    ensures
        match looked_up(controls@, oid@) {
            Err(text) => r matches Err(e) && e@ == text,
            Ok(None) => r matches Ok(None),
            Ok(Some(c)) => r matches Ok(Some(found)) && ldap_controls::option_bytes(found.0)
                == c.value && found.1 == c.criticality,
        },
{
    match controls.singleton(oid) {
        Err(e) => {
            let message = e.message();
            Err(message)
        },
        Ok(None) => Ok(None),
        Ok(Some(control)) => {
            let value = match control.value() {
                Some(bytes) => {
                    let v = slice_bytes(bytes);
                    Some(v)
                },
                None => None,
            };
            Ok(Some((value, control.criticality())))
        },
    }
}

fn slice_bytes(bytes: &[u8]) -> (r: Vec<u8>)
    ensures
        r@ == bytes@,
{
    let mut out: Vec<u8> = Vec::new();
    let mut i: usize = 0;
    while i < bytes.len()
        invariant
            i <= bytes@.len(),
            out@ == bytes@.take(i as int),
        decreases bytes@.len() - i,
    {
        out.push(bytes[i]);
        proof {
            assert(bytes@.take(i + 1) =~= bytes@.take(i as int).push(bytes@[i as int]));
        }
        i = i + 1;
    }
    proof {
        assert(bytes@.take(i as int) =~= bytes@);
    }
    out
}

/// Every control is one that a search of a virtual entry knows.
pub open spec fn known_to_search(cs: Seq<ControlView>) -> bool {
    forall|i: int| 0 <= i < cs.len() ==> is_search_control(#[trigger] cs[i])
}

/// The control is one that a search of a virtual entry knows.
pub open spec fn is_search_control(c: ControlView) -> bool {
    ldap_controls::is_control(c, manage_dsa_it_oid()) || ldap_controls::is_control(
        c,
        paged_results_oid(),
    ) || ldap_controls::is_control(c, sort_request_oid()) || ldap_controls::is_control(
        c,
        sync_request_oid(),
    )
}

pub fn native_search_control_oids_supported(controls: &RequestControls) -> (r: bool)
    ensures
        r == known_to_search(controls@),
{
    let list = controls.as_slice();
    let mut i: usize = 0;
    while i < list.len()
        invariant
            ldap_controls::control_views(list@) == controls@,
            i <= list@.len(),
            forall|j: int| 0 <= j < i ==> is_search_control(#[trigger] controls@[j]),
        decreases list@.len() - i,
    {
        let oid = list[i].oid();
        proof {
            assert(controls@[i as int] == list@[i as int]@);
        }
        if !(text::eq_ignore_case(oid, "2.16.840.1.113730.3.4.2") || text::eq_ignore_case(
            oid,
            "1.2.840.113556.1.4.319",
        ) || text::eq_ignore_case(oid, "1.2.840.113556.1.4.473") || text::eq_ignore_case(
            oid,
            "1.3.6.1.4.1.4203.1.9.1.1",
        )) {
            proof {
                assert(!is_search_control(controls@[i as int]));
            }
            return false;
        }
        i = i + 1;
    }
    true
}

// ---------------------------------------------------------------------------
// Entries as they are
// ---------------------------------------------------------------------------

/// Whether entries are asked for as they are.
pub open spec fn manage_dsa_it(cs: Seq<ControlView>) -> Result<bool, Seq<char>> {
    match looked_up(cs, manage_dsa_it_oid()) {
        Err(text) => Err(text),
        Ok(None) => Ok(false),
        Ok(Some(c)) => if c.value is Some {
            Err("ManageDsaIT control must not include a controlValue"@)
        } else {
            Ok(true)
        },
    }
}

pub fn parse_native_manage_dsa_it_request(controls: &RequestControls) -> (r: Result<bool, String>)
    ensures
        match r {
            Ok(b) => manage_dsa_it(controls@) == Ok::<bool, Seq<char>>(b),
            Err(e) => manage_dsa_it(controls@) == Err::<bool, Seq<char>>(e@),
        },
{
    match look_up(controls, "2.16.840.1.113730.3.4.2") {
        Err(e) => Err(e),
        Ok(None) => Ok(false),
        Ok(Some(found)) => if found.0.is_some() {
            Err("ManageDsaIT control must not include a controlValue".to_owned())
        } else {
            Ok(true)
        },
    }
}

// ---------------------------------------------------------------------------
// Pages
// ---------------------------------------------------------------------------

/// What a request for pages asks for.
#[derive(Debug, PartialEq, Eq)]
pub struct PagedResultsControl {
    pub size: u32,
    pub cookie: Vec<u8>,
}

/// Why pages are not given.
#[derive(Debug, PartialEq, Eq)]
pub enum NativePagedSearchError {
    ProtocolError(String),
    InvalidCookie(String),
}

/// What a [`NativePagedSearchError`] says.
pub enum PagedErrorView {
    ProtocolError(Seq<char>),
    InvalidCookie(Seq<char>),
}

impl View for NativePagedSearchError {
    type V = PagedErrorView;

    open spec fn view(&self) -> PagedErrorView {
        match self {
            NativePagedSearchError::ProtocolError(m) => PagedErrorView::ProtocolError(m@),
            NativePagedSearchError::InvalidCookie(m) => PagedErrorView::InvalidCookie(m@),
        }
    }
}

/// The text of an error of pages.
pub open spec fn paged_error_text(e: PagedErrorView) -> Seq<char> {
    match e {
        PagedErrorView::ProtocolError(m) => m,
        PagedErrorView::InvalidCookie(m) => m,
    }
}

impl NativePagedSearchError {
    pub fn result_code(&self) -> (r: ResultCode)
        ensures
            r == (if self is ProtocolError {
                ResultCode::ProtocolError
            } else {
                ResultCode::UnwillingToPerform
            }),
    {
        match self {
            NativePagedSearchError::ProtocolError(_) => ResultCode::ProtocolError,
            NativePagedSearchError::InvalidCookie(_) => ResultCode::UnwillingToPerform,
        }
    }

    pub fn diagnostic(&self) -> (r: &str)
        ensures
            r@ == paged_error_text(self@),
    {
        match self {
            NativePagedSearchError::ProtocolError(m) => m.as_str(),
            NativePagedSearchError::InvalidCookie(m) => m.as_str(),
        }
    }
}

/// The end of a search whose pages are not given.
pub open spec fn pages_refused(head: RequestHead, base_dn: Seq<char>, e: PagedErrorView) -> EndingView {
    let bad_cookie = e is InvalidCookie;
    EndingView {
        counters: if bad_cookie {
            seq!["ldap_paged_search_invalid_cookie_total"@]
        } else {
            Seq::empty()
        },
        audit: Some(
            SearchAuditView {
                action: "paged_search"@,
                success: false,
                target: base_dn,
                detail: paged_error_text(e),
                extra: Some(
                    (
                        "error_kind"@,
                        if bad_cookie {
                            "invalid_cookie"@
                        } else {
                            "protocol_error"@
                        },
                    ),
                ),
            },
        ),
        reply: told(
            head,
            if bad_cookie {
                ResultCode::UnwillingToPerform
            } else {
                ResultCode::ProtocolError
            },
            base_dn,
            paged_error_text(e),
        ),
    }
}

/// The end of a search whose pages are not given.
pub fn reject_native_paged_search_request(
    head: RequestHead,
    base_dn: &str,
    error: &NativePagedSearchError,
) -> (r: Ending)
    ensures
        r@ == pages_refused(head, base_dn@, error@),
{
    let mut counters: Vec<&'static str> = Vec::new();
    let kind = match error {
        NativePagedSearchError::ProtocolError(_) => "protocol_error",
        NativePagedSearchError::InvalidCookie(_) => {
            counters.push("ldap_paged_search_invalid_cookie_total");
            "invalid_cookie"
        },
    };
    let r = Ending {
        counters,
        audit: Some(
            SearchAudit {
                action: "paged_search",
                success: false,
                target: base_dn.to_owned(),
                detail: error.diagnostic().to_owned(),
                extra: Some(("error_kind", kind.to_owned())),
            },
        ),
        reply: SearchReply::told(head, error.result_code(), base_dn, error.diagnostic()),
    };
    proof {
        assert(r@.counters =~= pages_refused(head, base_dn@, error@).counters);
    }
    r
}

/// The control of a page, with the number of all results as far as it can be
/// told.
pub open spec fn page_told(total_size: nat, cookie: Seq<u8>) -> ResponseControlView {
    ResponseControlView::Paged {
        size: if total_size <= u32::MAX {
            total_size as u32
        } else {
            u32::MAX
        },
        cookie,
    }
}

pub fn native_paged_results_response_control(total_size: usize, cookie: Vec<u8>) -> (r:
    ResponseControl)
    ensures
        r@ == page_told(total_size as nat, cookie@),
{
    let size: u32 = if total_size <= u32::MAX as usize {
        total_size as u32
    } else {
        u32::MAX
    };
    ResponseControl::Paged { size, cookie }
}

// ---------------------------------------------------------------------------
// Order
// ---------------------------------------------------------------------------

/// What a request for an order asks for.
#[derive(Debug, PartialEq, Eq)]
pub struct NativeServerSideSort {
    pub keys: Vec<SortKey>,
    pub critical: bool,
}

/// Why an order is not given.
#[derive(Debug, PartialEq, Eq)]
#[allow(inconsistent_fields)]
pub enum NativeServerSideSortError {
    ProtocolError(String),
    Unsupported {
        result: ServerSideSortResultCode,
        attribute_type: Option<String>,
        diagnostic: String,
        critical: bool,
    },
}

/// What a [`NativeServerSideSortError`] says.
#[allow(inconsistent_fields)]
pub enum SortErrorView {
    ProtocolError(Seq<char>),
    Unsupported {
        result: ServerSideSortResultCode,
        attribute_type: Option<Seq<char>>,
        diagnostic: Seq<char>,
        critical: bool,
    },
}

impl View for NativeServerSideSortError {
    type V = SortErrorView;

    open spec fn view(&self) -> SortErrorView {
        match self {
            NativeServerSideSortError::ProtocolError(m) => SortErrorView::ProtocolError(m@),
            NativeServerSideSortError::Unsupported {
                result,
                attribute_type,
                diagnostic,
                critical,
            } => SortErrorView::Unsupported {
                result: *result,
                attribute_type: text::option_text(*attribute_type),
                diagnostic: diagnostic@,
                critical: *critical,
            },
        }
    }
}

/// A key for the same attribute stands before that place.
pub open spec fn named_before(keys: Seq<SortKey>, i: int) -> bool {
    exists|j: int|
        0 <= j < i && text::lower((#[trigger] keys[j]).attribute_type@) == text::lower(
            keys[i].attribute_type@,
        )
}

/// What is wrong with the keys from a place on.
pub open spec fn sort_fault_from(keys: Seq<SortKey>, critical: bool, i: int) -> Option<SortErrorView>
    decreases keys.len() - i,
{
    if i < 0 || i >= keys.len() {
        None
    } else if named_before(keys, i) {
        Some(
            SortErrorView::Unsupported {
                result: ServerSideSortResultCode::UnwillingToPerform,
                attribute_type: Some(keys[i].attribute_type@),
                diagnostic: "server-side sort attribute "@ + keys[i].attribute_type@
                    + " appears more than once"@,
                critical,
            },
        )
    } else if keys[i].ordering_rule is Some {
        Some(
            SortErrorView::Unsupported {
                result: ServerSideSortResultCode::InappropriateMatching,
                attribute_type: Some(keys[i].attribute_type@),
                diagnostic: "explicit ordering rule is not supported for "@
                    + keys[i].attribute_type@,
                critical,
            },
        )
    } else {
        sort_fault_from(keys, critical, i + 1)
    }
}

/// What is wrong with the keys: an attribute twice, or a rule of its own.
pub open spec fn sort_fault(keys: Seq<SortKey>, critical: bool) -> Option<SortErrorView> {
    sort_fault_from(keys, critical, 0)
}

pub fn validate_native_server_side_sort_request(requested_sort: &NativeServerSideSort) -> (r: Result<
    (),
    NativeServerSideSortError,
>)
    ensures
        match r {
            Ok(_) => sort_fault(requested_sort.keys@, requested_sort.critical) is None,
            Err(e) => sort_fault(requested_sort.keys@, requested_sort.critical) == Some(e@),
        },
{
    let ghost keys = requested_sort.keys@;
    let critical = requested_sort.critical;
    let mut seen: Vec<String> = Vec::new();
    let mut i: usize = 0;
    while i < requested_sort.keys.len()
        invariant
            keys == requested_sort.keys@,
            critical == requested_sort.critical,
            i <= keys.len(),
            seen@.len() == i,
            forall|j: int|
                0 <= j < i ==> (#[trigger] seen@[j])@ == text::lower(keys[j].attribute_type@),
            sort_fault(keys, critical) == sort_fault_from(keys, critical, i as int),
        decreases keys.len() - i,
    {
        let key = &requested_sort.keys[i];
        let normalized = text::lowercase(key.attribute_type.as_str());
        let twice = crate::directory::contains_string(&seen, normalized.as_str());
        proof {
            let ts = text::texts(seen@);
            if ts.contains(normalized@) {
                let j = choose|j: int| 0 <= j < ts.len() && ts[j] == normalized@;
                assert(seen@[j]@ == text::lower(keys[j].attribute_type@));
                assert(named_before(keys, i as int));
            }
            if named_before(keys, i as int) {
                let j = choose|j: int|
                    0 <= j < i && text::lower((#[trigger] keys[j]).attribute_type@) == text::lower(
                        keys[i as int].attribute_type@,
                    );
                assert(seen@[j]@ == text::lower(keys[j].attribute_type@));
                assert(ts[j] == normalized@);
            }
        }
        if twice {
            let mut diagnostic = "server-side sort attribute ".to_owned();
            diagnostic.append(key.attribute_type.as_str());
            diagnostic.append(" appears more than once");
            return Err(
                NativeServerSideSortError::Unsupported {
                    result: ServerSideSortResultCode::UnwillingToPerform,
                    attribute_type: Some(key.attribute_type.clone()),
                    diagnostic,
                    critical,
                },
            );
        }
        if key.ordering_rule.is_some() {
            let mut diagnostic = "explicit ordering rule is not supported for ".to_owned();
            diagnostic.append(key.attribute_type.as_str());
            return Err(
                NativeServerSideSortError::Unsupported {
                    result: ServerSideSortResultCode::InappropriateMatching,
                    attribute_type: Some(key.attribute_type.clone()),
                    diagnostic,
                    critical,
                },
            );
        }
        seen.push(normalized);
        i = i + 1;
    }
    Ok(())
}

/// The end of a search whose order is not given.
pub open spec fn order_refused(head: RequestHead, base_dn: Seq<char>, e: SortErrorView) -> EndingView {
    match e {
        SortErrorView::ProtocolError(m) => EndingView {
            counters: Seq::empty(),
            audit: Some(
                SearchAuditView {
                    action: "server_side_sort"@,
                    success: false,
                    target: base_dn,
                    detail: m,
                    extra: Some(("error_kind"@, "protocol_error"@)),
                },
            ),
            reply: told(head, ResultCode::ProtocolError, base_dn, m),
        },
        SortErrorView::Unsupported { result, attribute_type, diagnostic, critical } => EndingView {
            counters: if result == ServerSideSortResultCode::InappropriateMatching {
                seq!["ldap_sort_failures_total"@, "ldap_sort_unsupported_ordering_rule_total"@]
            } else {
                seq!["ldap_sort_failures_total"@]
            },
            audit: Some(
                SearchAuditView {
                    action: "server_side_sort"@,
                    success: false,
                    target: base_dn,
                    detail: diagnostic,
                    extra: Some(("error_kind"@, "sort_failure"@)),
                },
            ),
            reply: SearchReplyView {
                controls: seq![ResponseControlView::Sort { result, attribute: attribute_type }],
                ..told(
                    head,
                    if critical {
                        ResultCode::UnavailableCriticalExtension
                    } else {
                        ResultCode::Success
                    },
                    base_dn,
                    diagnostic,
                )
            },
        },
    }
}

/// The end of a search whose order is not given.
pub fn reject_native_server_side_sort_request(
    head: RequestHead,
    base_dn: &str,
    error: NativeServerSideSortError,
) -> (r: Ending)
    ensures
        r@ == order_refused(head, base_dn@, error@),
{
    let ghost e = error@;
    match error {
        NativeServerSideSortError::ProtocolError(diagnostic) => {
            let r = Ending {
                counters: Vec::new(),
                audit: Some(
                    SearchAudit {
                        action: "server_side_sort",
                        success: false,
                        target: base_dn.to_owned(),
                        detail: diagnostic.clone(),
                        extra: Some(("error_kind", "protocol_error".to_owned())),
                    },
                ),
                reply: SearchReply::told(
                    head,
                    ResultCode::ProtocolError,
                    base_dn,
                    diagnostic.as_str(),
                ),
            };
            proof {
                assert(r@.counters =~= Seq::<Seq<char>>::empty());
            }
            r
        },
        NativeServerSideSortError::Unsupported {
            result,
            attribute_type,
            diagnostic,
            critical,
        } => {
            let mut counters: Vec<&'static str> = Vec::new();
            counters.push("ldap_sort_failures_total");
            if result == ServerSideSortResultCode::InappropriateMatching {
                counters.push("ldap_sort_unsupported_ordering_rule_total");
            }
            let mut controls: Vec<ResponseControl> = Vec::new();
            controls.push(ResponseControl::Sort { result, attribute: attribute_type });
            let code = if critical {
                ResultCode::UnavailableCriticalExtension
            } else {
                ResultCode::Success
            };
            let reply = SearchReply::with_controls(
                head,
                code,
                base_dn,
                diagnostic.as_str(),
                controls,
            );
            let r = Ending {
                counters,
                audit: Some(
                    SearchAudit {
                        action: "server_side_sort",
                        success: false,
                        target: base_dn.to_owned(),
                        detail: diagnostic,
                        extra: Some(("error_kind", "sort_failure".to_owned())),
                    },
                ),
                reply,
            };
            proof {
                assert(r@.counters =~= order_refused(head, base_dn@, e).counters);
                assert(r@.reply.controls =~= order_refused(head, base_dn@, e).reply.controls);
            }
            r
        },
    }
}

/// The control that tells how the order came out, where one was asked for.
pub open spec fn done_controls(sorted: bool, code: ResultCode) -> Seq<ResponseControlView> {
    if sorted {
        seq![
            ResponseControlView::Sort {
                result: if code == ResultCode::TimeLimitExceeded {
                    ServerSideSortResultCode::TimeLimitExceeded
                } else {
                    ServerSideSortResultCode::Success
                },
                attribute: None,
            },
        ]
    } else {
        Seq::empty()
    }
}

pub fn native_search_done_controls(sorted: bool, result_code: ResultCode) -> (r: Vec<
    ResponseControl,
>)
    ensures
        response_control_views(r@) == done_controls(sorted, result_code),
{
    let mut out: Vec<ResponseControl> = Vec::new();
    if sorted {
        let result = if result_code == ResultCode::TimeLimitExceeded {
            ServerSideSortResultCode::TimeLimitExceeded
        } else {
            ServerSideSortResultCode::Success
        };
        out.push(ResponseControl::Sort { result, attribute: None });
    }
    proof {
        assert(response_control_views(out@) =~= done_controls(sorted, result_code));
    }
    out
}

// ---------------------------------------------------------------------------
// All controls of a search
// ---------------------------------------------------------------------------

/// What is known of the request for changes of a search.
#[derive(Debug, Clone, Copy, PartialEq, Eq, Structural)]
pub enum SyncRequest {
    Absent,
    Present,
    Malformed,
}

/// What is known of the controls of a search.
#[derive(Debug, PartialEq, Eq)]
pub struct ControlFacts {
    /// The keys that the value of the control names, or what is wrong with it.
    pub sort_keys: Option<Result<Vec<SortKey>, String>>,
    /// The page that the value of the control asks for, or what is wrong with
    /// it.
    pub page: Option<Result<PagedResultsControl, String>>,
    pub sync: Option<SyncRequest>,
}

/// What is done next for the controls of a search.
#[derive(Debug, PartialEq, Eq)]
#[allow(inconsistent_fields)]
pub enum ControlStep {
    DecodeSort(Option<Vec<u8>>),
    DecodePage(Option<Vec<u8>>),
    ParseSync,
    /// The request for changes is refused as it is malformed.
    RefuseMalformedSync,
    /// The request for changes is refused with a text.
    RefuseSync(&'static str),
    Refuse(Ending),
    /// The search goes on.
    Go { manage_dsa_it: bool, sorted: bool, paged: bool, sync: bool },
}

/// What a [`ControlStep`] says.
#[allow(inconsistent_fields)]
pub enum ControlStepView {
    DecodeSort(Option<Seq<u8>>),
    DecodePage(Option<Seq<u8>>),
    ParseSync,
    RefuseMalformedSync,
    RefuseSync(Seq<char>),
    Refuse(EndingView),
    Go { manage_dsa_it: bool, sorted: bool, paged: bool, sync: bool },
}

impl View for ControlStep {
    type V = ControlStepView;

    open spec fn view(&self) -> ControlStepView {
        match self {
            ControlStep::DecodeSort(v) => ControlStepView::DecodeSort(
                ldap_controls::option_bytes(*v),
            ),
            ControlStep::DecodePage(v) => ControlStepView::DecodePage(
                ldap_controls::option_bytes(*v),
            ),
            ControlStep::ParseSync => ControlStepView::ParseSync,
            ControlStep::RefuseMalformedSync => ControlStepView::RefuseMalformedSync,
            ControlStep::RefuseSync(m) => ControlStepView::RefuseSync(m@),
            ControlStep::Refuse(e) => ControlStepView::Refuse(e@),
            ControlStep::Go { manage_dsa_it, sorted, paged, sync } => ControlStepView::Go {
                manage_dsa_it: *manage_dsa_it,
                sorted: *sorted,
                paged: *paged,
                sync: *sync,
            },
        }
    }
}

/// How far the request for an order has come.
pub enum SortPhase {
    Ask(Option<Seq<u8>>),
    Fault(SortErrorView),
    Done(bool),
}

/// How far the request for an order has come.
pub open spec fn sort_phase(cs: Seq<ControlView>, facts: ControlFacts) -> SortPhase {
    match looked_up(cs, sort_request_oid()) {
        Err(text) => SortPhase::Fault(SortErrorView::ProtocolError(text)),
        Ok(None) => SortPhase::Done(false),
        Ok(Some(c)) => match facts.sort_keys {
            None => SortPhase::Ask(c.value),
            Some(Err(e)) => SortPhase::Fault(
                SortErrorView::ProtocolError("malformed server-side sort control: "@ + e@),
            ),
            Some(Ok(keys)) => match sort_fault(keys@, c.criticality) {
                Some(fault) => SortPhase::Fault(fault),
                None => SortPhase::Done(true),
            },
        },
    }
}

/// How far the request for pages has come.
pub enum PagePhase {
    Ask(Option<Seq<u8>>),
    Fault(PagedErrorView),
    Done(bool),
}

/// How far the request for pages has come.
pub open spec fn page_phase(cs: Seq<ControlView>, facts: ControlFacts) -> PagePhase {
    match looked_up(cs, paged_results_oid()) {
        Err(text) => PagePhase::Fault(PagedErrorView::ProtocolError(text)),
        Ok(None) => PagePhase::Done(false),
        Ok(Some(c)) => match facts.page {
            None => PagePhase::Ask(c.value),
            Some(Err(e)) => PagePhase::Fault(
                PagedErrorView::ProtocolError("malformed paged results control: "@ + e@),
            ),
            Some(Ok(_)) => PagePhase::Done(true),
        },
    }
}

/// The page that is asked for, where pages are asked for at all.
pub open spec fn asked_page(paged: bool, facts: ControlFacts) -> Option<PagedResultsControl> {
    if paged {
        match facts.page {
            Some(Ok(page)) => Some(page),
            _ => None,
        }
    } else {
        None
    }
}

/// What stands in the way of a search once all its controls are known. A
/// search of a virtual entry has no changes and one page only.
pub open spec fn combined_step(
    head: RequestHead,
    base_dn: Seq<char>,
    facts: ControlFacts,
    for_virtual: bool,
    manage_dsa_it: bool,
    sorted: bool,
    paged: bool,
    sync: bool,
) -> ControlStepView {
    if sync && for_virtual {
        ControlStepView::RefuseSync(
            "sync request control is not supported for virtual search bases"@,
        )
    } else if sync && paged {
        ControlStepView::RefuseSync("sync request control cannot be combined with paged results"@)
    } else if sync && sorted {
        ControlStepView::RefuseSync(
            "sync request control cannot be combined with server-side sort"@,
        )
    } else {
        match asked_page(paged, facts) {
            Some(page) => if page.size == 0 && page.cookie@.len() == 0 {
                ControlStepView::Refuse(
                    pages_refused(
                        head,
                        base_dn,
                        PagedErrorView::ProtocolError(
                            "paged results page size must be greater than zero on the initial request"@,
                        ),
                    ),
                )
            } else if for_virtual && page.cookie@.len() > 0 {
                ControlStepView::Refuse(
                    pages_refused(
                        head,
                        base_dn,
                        PagedErrorView::InvalidCookie(
                            "paged results cookie is not valid for this search sequence"@,
                        ),
                    ),
                )
            } else {
                ControlStepView::Go { manage_dsa_it, sorted, paged, sync }
            },
            None => ControlStepView::Go { manage_dsa_it, sorted, paged, sync },
        }
    }
}

/// What is done next for the controls of a search.
pub open spec fn control_step(
    head: RequestHead,
    base_dn: Seq<char>,
    cs: Seq<ControlView>,
    facts: ControlFacts,
    for_virtual: bool,
) -> ControlStepView {
    match manage_dsa_it(cs) {
        Err(text) => ControlStepView::Refuse(
            just(told(head, ResultCode::ProtocolError, base_dn, text)),
        ),
        Ok(manage) => match sort_phase(cs, facts) {
            SortPhase::Ask(value) => ControlStepView::DecodeSort(value),
            SortPhase::Fault(e) => ControlStepView::Refuse(order_refused(head, base_dn, e)),
            SortPhase::Done(sorted) => match page_phase(cs, facts) {
                PagePhase::Ask(value) => ControlStepView::DecodePage(value),
                PagePhase::Fault(e) => ControlStepView::Refuse(pages_refused(head, base_dn, e)),
                PagePhase::Done(paged) => match facts.sync {
                    None => ControlStepView::ParseSync,
                    Some(SyncRequest::Malformed) => ControlStepView::RefuseMalformedSync,
                    Some(SyncRequest::Absent) => combined_step(
                        head,
                        base_dn,
                        facts,
                        for_virtual,
                        manage,
                        sorted,
                        paged,
                        false,
                    ),
                    Some(SyncRequest::Present) => combined_step(
                        head,
                        base_dn,
                        facts,
                        for_virtual,
                        manage,
                        sorted,
                        paged,
                        true,
                    ),
                },
            },
        },
    }
}

fn refuse_pages(head: RequestHead, base_dn: &str, message: &str, cookie: bool) -> (r: ControlStep)
    ensures
        r@ == ControlStepView::Refuse(
            pages_refused(
                head,
                base_dn@,
                if cookie {
                    PagedErrorView::InvalidCookie(message@)
                } else {
                    PagedErrorView::ProtocolError(message@)
                },
            ),
        ),
{
    let error = if cookie {
        NativePagedSearchError::InvalidCookie(message.to_owned())
    } else {
        NativePagedSearchError::ProtocolError(message.to_owned())
    };
    ControlStep::Refuse(reject_native_paged_search_request(head, base_dn, &error))
}

/// What is done next for the controls of a search.
pub fn step_controls(
    head: RequestHead,
    base_dn: &str,
    controls: &RequestControls,
    facts: &ControlFacts,
    for_virtual: bool,
) -> (r: ControlStep)
    ensures
        r@ == control_step(head, base_dn@, controls@, *facts, for_virtual),
{
    let manage_dsa_it = match parse_native_manage_dsa_it_request(controls) {
        Ok(manage_dsa_it) => manage_dsa_it,
        Err(diagnostic) => {
            return ControlStep::Refuse(
                Ending::just(
                    SearchReply::told(
                        head,
                        ResultCode::ProtocolError,
                        base_dn,
                        diagnostic.as_str(),
                    ),
                ),
            );
        },
    };
    let sorted = match look_up(controls, "1.2.840.113556.1.4.473") {
        Err(e) => {
            return ControlStep::Refuse(
                reject_native_server_side_sort_request(
                    head,
                    base_dn,
                    NativeServerSideSortError::ProtocolError(e),
                ),
            );
        },
        Ok(None) => false,
        Ok(Some(found)) => match &facts.sort_keys {
            None => {
                return ControlStep::DecodeSort(found.0);
            },
            Some(Err(e)) => {
                let mut message = "malformed server-side sort control: ".to_owned();
                message.append(e.as_str());
                return ControlStep::Refuse(
                    reject_native_server_side_sort_request(
                        head,
                        base_dn,
                        NativeServerSideSortError::ProtocolError(message),
                    ),
                );
            },
            Some(Ok(keys)) => {
                let sort = NativeServerSideSort { keys: copy_keys(keys), critical: found.1 };
                match validate_native_server_side_sort_request(&sort) {
                    Ok(_) => true,
                    Err(e) => {
                        return ControlStep::Refuse(
                            reject_native_server_side_sort_request(head, base_dn, e),
                        );
                    },
                }
            },
        },
    };
    let paged = match look_up(controls, "1.2.840.113556.1.4.319") {
        Err(e) => {
            return refuse_pages(head, base_dn, e.as_str(), false);
        },
        Ok(None) => false,
        Ok(Some(found)) => match &facts.page {
            None => {
                return ControlStep::DecodePage(found.0);
            },
            Some(Err(e)) => {
                let mut message = "malformed paged results control: ".to_owned();
                message.append(e.as_str());
                return refuse_pages(head, base_dn, message.as_str(), false);
            },
            Some(Ok(_)) => true,
        },
    };
    let sync = match facts.sync {
        None => {
            return ControlStep::ParseSync;
        },
        Some(SyncRequest::Malformed) => {
            return ControlStep::RefuseMalformedSync;
        },
        Some(SyncRequest::Absent) => false,
        Some(SyncRequest::Present) => true,
    };
    if sync && for_virtual {
        return ControlStep::RefuseSync(
            "sync request control is not supported for virtual search bases",
        );
    }
    if sync && paged {
        return ControlStep::RefuseSync(
            "sync request control cannot be combined with paged results",
        );
    }
    if sync && sorted {
        return ControlStep::RefuseSync(
            "sync request control cannot be combined with server-side sort",
        );
    }
    if paged {
        if let Some(Ok(page)) = &facts.page {
            if page.size == 0 && page.cookie.len() == 0 {
                return refuse_pages(
                    head,
                    base_dn,
                    "paged results page size must be greater than zero on the initial request",
                    false,
                );
            }
            if for_virtual && page.cookie.len() > 0 {
                return refuse_pages(
                    head,
                    base_dn,
                    "paged results cookie is not valid for this search sequence",
                    true,
                );
            }
        }
    }
    ControlStep::Go { manage_dsa_it, sorted, paged, sync }
}

/// A copy of sort keys.
fn copy_keys(keys: &Vec<SortKey>) -> (r: Vec<SortKey>)
    ensures
        r@ == keys@,
{
    let mut out: Vec<SortKey> = Vec::new();
    let mut i: usize = 0;
    while i < keys.len()
        invariant
            i <= keys@.len(),
            out@ == keys@.take(i as int),
        decreases keys@.len() - i,
    {
        let key = SortKey {
            attribute_type: keys[i].attribute_type.clone(),
            ordering_rule: match &keys[i].ordering_rule {
                Some(rule) => Some(rule.clone()),
                None => None,
            },
            reverse_order: keys[i].reverse_order,
        };
        proof {
            assert(key == keys@[i as int]);
            assert(keys@.take(i + 1) =~= keys@.take(i as int).push(keys@[i as int]));
        }
        out.push(key);
        i = i + 1;
    }
    proof {
        assert(keys@.take(i as int) =~= keys@);
    }
    out
}

/// An order is granted, or none is asked for; `None` where that is not known
/// yet or the order is refused.
fn sort_granted(controls: &RequestControls, facts: &ControlFacts) -> (r: Option<bool>)
    ensures
        r == (match sort_phase(controls@, *facts) {
            SortPhase::Done(sorted) => Some(sorted),
            _ => None,
        }),
{
    match look_up(controls, "1.2.840.113556.1.4.473") {
        Err(_) => None,
        Ok(None) => Some(false),
        Ok(Some(found)) => match &facts.sort_keys {
            Some(Ok(keys)) => {
                let sort = NativeServerSideSort { keys: copy_keys(keys), critical: found.1 };
                match validate_native_server_side_sort_request(&sort) {
                    Ok(_) => Some(true),
                    Err(_) => None,
                }
            },
            _ => None,
        },
    }
}

/// Pages are granted, or none are asked for; `None` where that is not known
/// yet or the pages are refused.
fn pages_granted(controls: &RequestControls, facts: &ControlFacts) -> (r: Option<bool>)
    ensures
        r == (match page_phase(controls@, *facts) {
            PagePhase::Done(paged) => Some(paged),
            _ => None,
        }),
{
    match look_up(controls, "1.2.840.113556.1.4.319") {
        Err(_) => None,
        Ok(None) => Some(false),
        Ok(Some(_)) => match &facts.page {
            Some(Ok(_)) => Some(true),
            _ => None,
        },
    }
}

/// One name, where it is due.
pub open spec fn due(name: Seq<char>, is_due: bool) -> Seq<Seq<char>> {
    if is_due {
        seq![name]
    } else {
        Seq::empty()
    }
}

/// The counters that a search raises for what it asks for, one after the
/// other as far as its controls are granted: an entry as it is (where the
/// search is of a virtual entry), an order, pages, and changes.
pub open spec fn counters_due(
    cs: Seq<ControlView>,
    facts: ControlFacts,
    for_virtual: bool,
) -> Seq<Seq<char>> {
    match manage_dsa_it(cs) {
        Err(_) => Seq::empty(),
        Ok(manage) => due("ldap_manage_dsa_it_requests_total"@, for_virtual && manage) + (
        match sort_phase(cs, facts) {
            SortPhase::Done(sorted) => due("ldap_sort_requests_total"@, sorted) + (match page_phase(
                cs,
                facts,
            ) {
                PagePhase::Done(paged) => due("ldap_paged_search_requests_total"@, paged) + due(
                    "ldap_sync_requests_total"@,
                    facts.sync == Some(SyncRequest::Present),
                ),
                _ => Seq::empty(),
            }),
            _ => Seq::empty(),
        }),
    }
}

/// The counters that a search raises for what it asks for.
pub fn control_counters(
    controls: &RequestControls,
    facts: &ControlFacts,
    for_virtual: bool,
) -> (r: Vec<&'static str>)
    ensures
        names(r@) == counters_due(controls@, *facts, for_virtual),
{
    let mut out: Vec<&'static str> = Vec::new();
    let manage = match parse_native_manage_dsa_it_request(controls) {
        Ok(manage) => manage,
        Err(_) => {
            proof {
                assert(names(out@) =~= Seq::<Seq<char>>::empty());
            }
            return out;
        },
    };
    if for_virtual && manage {
        out.push("ldap_manage_dsa_it_requests_total");
    }
    let ghost first = due("ldap_manage_dsa_it_requests_total"@, for_virtual && manage);
    proof {
        assert(names(out@) =~= first);
    }
    let sorted = match sort_granted(controls, facts) {
        Some(sorted) => sorted,
        None => {
            proof {
                assert(first + Seq::<Seq<char>>::empty() =~= first);
            }
            return out;
        },
    };
    if sorted {
        out.push("ldap_sort_requests_total");
    }
    let ghost second = due("ldap_sort_requests_total"@, sorted);
    proof {
        assert(names(out@) =~= first + second);
    }
    let paged = match pages_granted(controls, facts) {
        Some(paged) => paged,
        None => {
            proof {
                assert(first + (second + Seq::<Seq<char>>::empty()) =~= first + second);
            }
            return out;
        },
    };
    if paged {
        out.push("ldap_paged_search_requests_total");
    }
    let ghost third = due("ldap_paged_search_requests_total"@, paged);
    proof {
        assert(names(out@) =~= first + second + third);
    }
    let sync = matches!(facts.sync, Some(SyncRequest::Present));
    if sync {
        out.push("ldap_sync_requests_total");
    }
    proof {
        let fourth = due("ldap_sync_requests_total"@, sync);
        assert(names(out@) =~= first + (second + (third + fourth)));
    }
    out
}

// ---------------------------------------------------------------------------
// Laws
// ---------------------------------------------------------------------------

/// A request for changes goes on only without pages, without an order, and
/// not for a virtual entry.
pub proof fn changes_come_alone(
    head: RequestHead,
    base_dn: Seq<char>,
    cs: Seq<ControlView>,
    facts: ControlFacts,
    for_virtual: bool,
)
    ensures
        control_step(head, base_dn, cs, facts, for_virtual) matches ControlStepView::Go {
            sync,
            paged,
            sorted,
            ..
        } ==> (sync ==> !paged && !sorted && !for_virtual),
{
}

/// The first page of a search is never empty by request.
pub proof fn first_pages_have_a_size(
    head: RequestHead,
    base_dn: Seq<char>,
    cs: Seq<ControlView>,
    facts: ControlFacts,
    for_virtual: bool,
)
    ensures
        control_step(head, base_dn, cs, facts, for_virtual) matches ControlStepView::Go {
            paged,
            ..
        } ==> (paged ==> (facts.page matches Some(Ok(page)) && (page.size > 0
            || page.cookie@.len() > 0))),
{
}

/// A sort that is granted names no attribute twice and has no rule of its own.
pub proof fn granted_orders_are_plain(keys: Seq<SortKey>, critical: bool, i: int)
    requires
        sort_fault(keys, critical) is None,
        0 <= i < keys.len(),
    ensures
        keys[i].ordering_rule is None,
        !named_before(keys, i),
{
    no_fault_up_to(keys, critical, i);
}

proof fn no_fault_up_to(keys: Seq<SortKey>, critical: bool, i: int)
    requires
        sort_fault(keys, critical) is None,
        0 <= i < keys.len(),
    ensures
        sort_fault_from(keys, critical, i) is None,
    decreases i,
{
    if i > 0 {
        no_fault_up_to(keys, critical, i - 1);
    }
}

} // verus!
