//! Search requests: what the server does next, given what it has learned so
//! far.

use vstd::prelude::*;

use crate::directory;
use crate::fsm_write;
use crate::fsm_write::{Authorization, AuthorizationView, Permission};
use crate::ldap_controls::RequestControls;
use crate::ldap_filter_eval::{
    prepare_search_filter_with_schema, FilterSchemaError, PreparedLdapFilter, SearchFilter,
};
use crate::ldap_filter_eval;
use crate::response;
use crate::response::{
    backend_diagnostic, map_backend_error_code, map_filter_schema_error_code, BackendError,
    RequestHead, ResponseOp, ResultCode,
};
use crate::schema::LdapSchema;
use crate::search_controls;
use crate::search_controls::{
    native_paged_results_response_control, native_search_control_oids_supported,
    native_search_done_controls, step_controls, ControlFacts, ControlStep, ControlStepView,
    Ending, EndingView, SearchAudit, SearchAuditView, SearchReply,
    SearchReplyView,
};
use crate::search_entries;
use crate::search_entries::{
    derefs_candidates, PlainSearchAliasError, PlainSearchReferralError, Referral,
};
use crate::text;

verus! {

/// The search is of its base only.
pub const SCOPE_BASE: u32 = 0;

/// A search request.
#[derive(Debug)]
pub struct SearchRequest {
    pub head: RequestHead,
    pub base: String,
    pub scope: u32,
    pub deref_aliases: u32,
    pub size_limit: u32,
    pub time_limit: u32,
    pub types_only: bool,
    pub attributes: Vec<String>,
    pub filter: SearchFilter,
    pub controls: RequestControls,
    /// The name of the entry that holds the schema.
    pub subschema_dn: String,
}

/// The name of the base that the request means.
pub open spec fn base_dn(req: SearchRequest) -> Seq<char> {
    text::trim(req.base@)
}

/// The names of the attributes that the request means.
pub open spec fn selection(req: SearchRequest) -> Seq<Seq<char>> {
    text::texts(req.attributes@).map_values(|a: Seq<char>| text::trim(a))
}

impl SearchRequest {
    /// The name of the base that the request means.
    pub fn base_dn(&self) -> (r: String)
        ensures
            r@ == base_dn(*self),
    {
        text::trimmed(self.base.as_str())
    }

    /// The names of the attributes that the request means.
    pub fn attribute_selection(&self) -> (r: Vec<String>)
        ensures
            text::texts(r@) == selection(*self),
    {
        let ghost all = selection(*self);
        let mut out: Vec<String> = Vec::new();
        let mut i: usize = 0;
        proof {
            assert(text::texts(out@) =~= all.take(0));
        }
        while i < self.attributes.len()
            invariant
                all == selection(*self),
                i <= self.attributes@.len(),
                text::texts(out@) == all.take(i as int),
            decreases self.attributes@.len() - i,
        {
            let name = text::trimmed(self.attributes[i].as_str());
            proof {
                text::texts_push(out@, name);
                assert(all.take(i + 1) =~= all.take(i as int).push(all[i as int]));
            }
            out.push(name);
            i = i + 1;
        }
        proof {
            assert(all.take(i as int) =~= all);
        }
        out
    }
}

// ---------------------------------------------------------------------------
// Filters that are kept
// ---------------------------------------------------------------------------

/// The filters that a connection keeps prepared, by their texts, and the one
/// that was prepared last without being kept.
#[derive(Debug)]
pub struct FilterCache {
    pub texts: Vec<String>,
    pub filters: Vec<PreparedLdapFilter>,
    pub unkept: Option<PreparedLdapFilter>,
}

/// Where a prepared filter is.
#[derive(Debug, Clone, Copy, PartialEq, Eq, Structural)]
pub enum FilterPlace {
    Kept(usize),
    Unkept,
}

/// Where the filter of a text is kept, the length where it is not.
pub open spec fn kept_at(texts: Seq<Seq<char>>, rendered: Seq<char>) -> int
    decreases texts.len(),
{
    if texts.len() == 0 || texts[0] == rendered {
        0
    } else {
        1 + kept_at(texts.drop_first(), rendered)
    }
}

proof fn kept_at_bounds(texts: Seq<Seq<char>>, rendered: Seq<char>)
    ensures
        0 <= kept_at(texts, rendered) <= texts.len(),
    decreases texts.len(),
{
    if texts.len() > 0 && texts[0] != rendered {
        kept_at_bounds(texts.drop_first(), rendered);
    }
}

/// What the schema makes of the filter of a request.
pub open spec fn made_of(schema: LdapSchema, filter: SearchFilter) -> Result<
    ldap_filter_eval::PreparedView,
    ldap_filter_eval::FilterErrorView,
> {
    ldap_filter_eval::prepared(schema, ldap_filter_eval::compiled(filter))
}

impl FilterCache {
    /// Each filter is kept under a text.
    pub open spec fn wf(self) -> bool {
        self.texts@.len() == self.filters@.len()
    }

    /// The filter at a place.
    pub open spec fn at(self, place: FilterPlace) -> Option<PreparedLdapFilter> {
        match place {
            FilterPlace::Kept(i) => if i < self.filters@.len() {
                Some(self.filters@[i as int])
            } else {
                None
            },
            FilterPlace::Unkept => self.unkept,
        }
    }

    pub fn new() -> (r: Self)
        ensures
            r.wf(),
            r.texts@.len() == 0,
            r.unkept is None,
    {
        FilterCache { texts: Vec::new(), filters: Vec::new(), unkept: None }
    }

    /// The filter at a place.
    pub fn get(&self, place: FilterPlace) -> (r: Option<&PreparedLdapFilter>)
        ensures
            match r {
                Some(f) => self.at(place) == Some(*f),
                None => self.at(place) is None,
            },
    {
        match place {
            FilterPlace::Kept(i) => if i < self.filters.len() {
                Some(&self.filters[i])
            } else {
                None
            },
            FilterPlace::Unkept => self.unkept.as_ref(),
        }
    }

    fn place(&self, rendered: &str) -> (r: usize)
        ensures
            r == kept_at(text::texts(self.texts@), rendered@),
    {
        let ghost all = text::texts(self.texts@);
        let mut i: usize = 0;
        proof {
            assert(all.skip(0) =~= all);
        }
        while i < self.texts.len() && !text::same(self.texts[i].as_str(), rendered)
            invariant
                all == text::texts(self.texts@),
                i <= self.texts@.len(),
                kept_at(all, rendered@) == i + kept_at(all.skip(i as int), rendered@),
            decreases self.texts@.len() - i,
        {
            proof {
                assert(all.skip(i as int)[0] == self.texts@[i as int]@);
                assert(all.skip(i as int).drop_first() =~= all.skip(i + 1));
            }
            i = i + 1;
        }
        proof {
            if i < self.texts@.len() {
                assert(all.skip(i as int)[0] == self.texts@[i as int]@);
            }
        }
        i
    }

    /// The prepared filter of a request: the one that is kept under its text,
    /// else the one that the schema makes of it, which is then kept. Where the
    /// schema may change, filters are neither used again nor kept.
    pub fn prepare_or_cache_search_filter(
        &mut self,
        schema: &LdapSchema,
        rendered_filter: &str,
        filter: &SearchFilter,
        allow_online_schema_updates: bool,
    ) -> (r: Result<FilterPlace, FilterSchemaError>)
        requires
            old(self).wf(),
        ensures
            final(self).wf(),
            ({
                let known = kept_at(text::texts(old(self).texts@), rendered_filter@);
                if !allow_online_schema_updates && known < old(self).texts@.len() {
                    r == Ok::<FilterPlace, FilterSchemaError>(FilterPlace::Kept(known as usize))
                        && *final(self) == *old(self)
                } else {
                    match (made_of(*schema, *filter), r) {
                        (Err(fault), Err(e)) => e@ == fault && *final(self) == *old(self),
                        (Ok(view), Ok(place)) => {
                            &&& final(self).at(place) matches Some(f)
                                && ldap_filter_eval::prepared_view(f) == view
                            &&& if allow_online_schema_updates {
                                place == FilterPlace::Unkept && final(self).texts
                                    == old(self).texts && final(self).filters == old(self).filters
                            } else {
                                &&& place == FilterPlace::Kept(old(self).filters@.len() as usize)
                                &&& final(self).filters@.drop_last() == old(self).filters@
                                &&& text::texts(final(self).texts@) == text::texts(
                                    old(self).texts@,
                                ).push(rendered_filter@)
                            }
                        },
                        _ => false,
                    }
                }
            }),
    {
        proof {
            kept_at_bounds(text::texts(self.texts@), rendered_filter@);
        }
        if !allow_online_schema_updates {
            let i = self.place(rendered_filter);
            if i < self.texts.len() {
                return Ok(FilterPlace::Kept(i));
            }
        }
        match prepare_search_filter_with_schema(schema, filter) {
            Err(e) => Err(e),
            Ok(prepared) => {
                if allow_online_schema_updates {
                    self.unkept = Some(prepared);
                    return Ok(FilterPlace::Unkept);
                }
                let i = self.filters.len();
                let rendered = rendered_filter.to_owned();
                proof {
                    text::texts_push(self.texts@, rendered);
                }
                self.texts.push(rendered);
                self.filters.push(prepared);
                proof {
                    assert(self.filters@.drop_last() =~= old(self).filters@);
                }
                Ok(FilterPlace::Kept(i))
            },
        }
    }
}

// ---------------------------------------------------------------------------
// Entries that the server makes up
// ---------------------------------------------------------------------------

/// What is known of a search of an entry that the server makes up.
#[derive(Debug, PartialEq, Eq)]
pub struct VirtualFacts {
    pub controls: ControlFacts,
    /// The attributes of the entry were gathered, or why not.
    pub gathered: Option<Result<(), BackendError>>,
}

/// What is done next for a search that may be of an entry that the server
/// makes up.
#[derive(Debug, PartialEq, Eq)]
#[allow(inconsistent_fields)]
pub enum VirtualStep {
    /// The search is of no such entry.
    NotVirtual,
    Controls(ControlStep),
    /// Gathers the attributes of the root of the directory.
    GatherRoot,
    /// Gathers the attributes of the schema.
    GatherSchema,
    /// The entry with the attributes of this selection goes out under this
    /// name, then the answer.
    Answer {
        dn: String,
        selection: Vec<String>,
        counters: Vec<&'static str>,
        reply: SearchReply,
    },
    Refuse(Ending),
}

/// What a [`VirtualStep`] says.
#[allow(inconsistent_fields)]
pub enum VirtualStepView {
    NotVirtual,
    Controls(ControlStepView),
    GatherRoot,
    GatherSchema,
    Answer {
        dn: Seq<char>,
        selection: Seq<Seq<char>>,
        counters: Seq<Seq<char>>,
        reply: SearchReplyView,
    },
    Refuse(EndingView),
}

impl View for VirtualStep {
    type V = VirtualStepView;

    open spec fn view(&self) -> VirtualStepView {
        match self {
            VirtualStep::NotVirtual => VirtualStepView::NotVirtual,
            VirtualStep::Controls(c) => VirtualStepView::Controls(c@),
            VirtualStep::GatherRoot => VirtualStepView::GatherRoot,
            VirtualStep::GatherSchema => VirtualStepView::GatherSchema,
            VirtualStep::Answer { dn, selection, counters, reply } => VirtualStepView::Answer {
                dn: dn@,
                selection: text::texts(selection@),
                counters: search_controls::names(counters@),
                reply: reply@,
            },
            VirtualStep::Refuse(e) => VirtualStepView::Refuse(e@),
        }
    }
}

/// The search is of an entry that the server makes up: of the root of the
/// directory or of the schema alone, with controls that it knows.
pub open spec fn is_virtual(req: SearchRequest) -> bool {
    &&& req.scope == SCOPE_BASE
    &&& base_dn(req).len() == 0 || text::lower(base_dn(req)) == text::lower(req.subschema_dn@)
    &&& search_controls::known_to_search(req.controls@)
}

/// The answer after an entry that the server made up.
pub open spec fn virtual_answer(req: SearchRequest, sorted: bool, paged: bool) -> VirtualStepView {
    VirtualStepView::Answer {
        dn: base_dn(req),
        selection: selection(req),
        counters: if paged {
            seq!["ldap_paged_search_pages_total"@]
        } else {
            Seq::empty()
        },
        reply: SearchReplyView {
            controls: search_controls::done_controls(sorted, ResultCode::Success) + (if paged {
                seq![search_controls::page_told(1, Seq::empty())]
            } else {
                Seq::empty()
            }),
            ..search_controls::told(req.head, ResultCode::Success, ""@, ""@)
        },
    }
}

/// What is done next for a search that may be of an entry that the server
/// makes up.
pub open spec fn virtual_step(req: SearchRequest, facts: VirtualFacts) -> VirtualStepView {
    if !is_virtual(req) {
        VirtualStepView::NotVirtual
    } else {
        match search_controls::control_step(
            req.head,
            base_dn(req),
            req.controls@,
            facts.controls,
            true,
        ) {
            ControlStepView::Go { sorted, paged, .. } => match facts.gathered {
                None => if base_dn(req).len() == 0 {
                    VirtualStepView::GatherRoot
                } else {
                    VirtualStepView::GatherSchema
                },
                Some(Err(err)) => VirtualStepView::Refuse(
                    search_controls::just(
                        search_controls::told(
                            req.head,
                            response::backend_code(err),
                            ""@,
                            response::backend_text(err),
                        ),
                    ),
                ),
                Some(Ok(_)) => virtual_answer(req, sorted, paged),
            },
            step => VirtualStepView::Controls(step),
        }
    }
}

impl SearchRequest {
    fn answer_virtual(&self, sorted: bool, paged: bool) -> (r: VirtualStep)
        ensures
            r@ == virtual_answer(*self, sorted, paged),
    {
        let mut controls = native_search_done_controls(sorted, ResultCode::Success);
        let ghost before = controls@;
        let mut counters: Vec<&'static str> = Vec::new();
        if paged {
            let none: Vec<u8> = Vec::new();
            proof {
                assert(none@ =~= Seq::<u8>::empty());
            }
            controls.push(native_paged_results_response_control(1, none));
            counters.push("ldap_paged_search_pages_total");
        }
        proof {
            let views = search_controls::response_control_views(controls@);
            let first = search_controls::response_control_views(before);
            let second = if paged {
                seq![search_controls::page_told(1, Seq::empty())]
            } else {
                Seq::empty()
            };
            assert(first == search_controls::done_controls(sorted, ResultCode::Success));
            assert(views =~= first + second);
            assert(search_controls::names(counters@) =~= (if paged {
                seq!["ldap_paged_search_pages_total"@]
            } else {
                Seq::empty()
            }));
        }
        VirtualStep::Answer {
            dn: self.base_dn(),
            selection: self.attribute_selection(),
            counters,
            reply: SearchReply::with_controls(self.head, ResultCode::Success, "", "", controls),
        }
    }

    /// What is done next where the search may be of an entry that the server
    /// makes up.
    pub fn virtual_step(&self, facts: &VirtualFacts) -> (r: VirtualStep)
        ensures
            r@ == virtual_step(*self, *facts),
    {
        let base = self.base_dn();
        if self.scope != SCOPE_BASE {
            return VirtualStep::NotVirtual;
        }
        if !base.as_str().is_empty() && !text::eq_ignore_case(
            base.as_str(),
            self.subschema_dn.as_str(),
        ) {
            return VirtualStep::NotVirtual;
        }
        if !native_search_control_oids_supported(&self.controls) {
            return VirtualStep::NotVirtual;
        }
        match step_controls(self.head, base.as_str(), &self.controls, &facts.controls, true) {
            ControlStep::Go { manage_dsa_it: _, sorted, paged, sync: _ } => match &facts.gathered {
                None => if base.as_str().is_empty() {
                    VirtualStep::GatherRoot
                } else {
                    VirtualStep::GatherSchema
                },
                Some(Err(err)) => VirtualStep::Refuse(
                    Ending::just(
                        SearchReply::told(
                            self.head,
                            map_backend_error_code(err),
                            "",
                            backend_diagnostic(err),
                        ),
                    ),
                ),
                Some(Ok(_)) => self.answer_virtual(sorted, paged),
            },
            step => VirtualStep::Controls(step),
        }
    }
}

// ---------------------------------------------------------------------------
// Entries of the directory
// ---------------------------------------------------------------------------

/// What a prepared filter tells an index.
#[derive(Debug, Clone, Copy, PartialEq, Eq, Structural)]
pub struct FilterHints {
    /// What the index is asked for is exactly what the filter asks for.
    pub exact: bool,
    /// The index can be asked at all.
    pub hinted: bool,
    /// The index is asked for a value.
    pub equality: bool,
}

/// What a prepared filter tells an index.
pub open spec fn hints_of(filter: PreparedLdapFilter) -> FilterHints {
    let view = ldap_filter_eval::prepared_view(filter);
    let hint = ldap_filter_eval::prepared_hint(view);
    FilterHints {
        exact: ldap_filter_eval::exact_hint(view) == hint,
        hinted: hint is Some,
        equality: hint matches Some(h) && h is Equality,
    }
}

/// What a prepared filter tells an index.
pub fn filter_hints(filter: &PreparedLdapFilter) -> (r: FilterHints)
    ensures
        r == hints_of(*filter),
{
    let hint = filter.search_candidate_hint();
    let exact_hint = filter.exact_index_coverage_hint();
    let exact = directory::same_hints(&exact_hint, &hint);
    FilterHints {
        exact,
        hinted: hint.is_some(),
        equality: matches!(hint, Some(directory::SearchCandidateHint::Equality { .. })),
    }
}

/// What is known of a search.
#[derive(Debug, PartialEq, Eq)]
pub struct SearchFacts {
    pub controls: ControlFacts,
    pub prepared: Option<Result<FilterHints, FilterSchemaError>>,
    pub authorized: Option<bool>,
    /// The name of the base once aliases were followed, or why they could not
    /// be.
    pub effective_base: Option<Result<String, (ResultCode, String)>>,
    /// Whether the base refers to another server.
    pub base_entry: Option<Result<Referral, BackendError>>,
    /// The directory can give its entries one by one.
    pub streams: bool,
    /// The client may read every entry.
    pub reads_all: bool,
    /// Each of the following: the directory has begun, and whether its index
    /// covers the filter.
    pub projected: Option<Result<bool, BackendError>>,
    pub streamed: Option<Result<bool, BackendError>>,
    pub loaded: Option<Result<bool, BackendError>>,
    /// The aliases among the entries were followed.
    pub aliases: Option<Result<(), PlainSearchAliasError>>,
    /// The referrals among the entries were found; where the base refers to
    /// another server, its name and the addresses.
    pub referrals: Option<Result<Option<(String, Vec<String>)>, PlainSearchReferralError>>,
    /// The entries that the client may read are in their order.
    pub arranged: bool,
    /// What is left of the time limit, if anything.
    pub time_left: Option<Option<u32>>,
}

/// What is done next for a search.
#[derive(Debug, PartialEq, Eq)]
#[allow(inconsistent_fields)]
pub enum SearchStep {
    Controls(ControlStep),
    PrepareFilter,
    Authorize(Authorization),
    ResolveBase(String),
    LookUpBase(String),
    /// Gives the changes below this base.
    Sync(String),
    /// Gives the next page of a search that is kept.
    ContinuePages,
    /// Asks the directory for entries one by one, with the attributes that
    /// are asked for.
    StreamProjected(String),
    EmitProjected,
    /// Asks the directory for entries one by one.
    Stream(String),
    EmitCovered,
    EmitFiltered,
    /// Asks the directory for all entries.
    Load(String),
    ResolveAliases,
    FindReferrals,
    /// Leaves out what the client may not read, and puts the rest in order.
    Arrange { leave_out: bool, sort: bool },
    AskTime,
    /// Gives the first page.
    StartPages { covered: bool, time_limit: u32 },
    /// Gives the entries, which match.
    EmitLoaded,
    /// Lets the searching machine search among the entries.
    RunMachine { base: String, covered: bool, time_limit: u32 },
    /// The request has been answered.
    Stop,
    Refuse(Ending),
}

/// What a [`SearchStep`] says.
#[allow(inconsistent_fields)]
pub enum SearchStepView {
    Controls(ControlStepView),
    PrepareFilter,
    Authorize(AuthorizationView),
    ResolveBase(Seq<char>),
    LookUpBase(Seq<char>),
    Sync(Seq<char>),
    ContinuePages,
    StreamProjected(Seq<char>),
    EmitProjected,
    Stream(Seq<char>),
    EmitCovered,
    EmitFiltered,
    Load(Seq<char>),
    ResolveAliases,
    FindReferrals,
    Arrange { leave_out: bool, sort: bool },
    AskTime,
    StartPages { covered: bool, time_limit: u32 },
    EmitLoaded,
    RunMachine { base: Seq<char>, covered: bool, time_limit: u32 },
    Stop,
    Refuse(EndingView),
}

impl View for SearchStep {
    type V = SearchStepView;

    open spec fn view(&self) -> SearchStepView {
        match self {
            SearchStep::Controls(c) => SearchStepView::Controls(c@),
            SearchStep::PrepareFilter => SearchStepView::PrepareFilter,
            SearchStep::Authorize(a) => SearchStepView::Authorize(a@),
            SearchStep::ResolveBase(dn) => SearchStepView::ResolveBase(dn@),
            SearchStep::LookUpBase(dn) => SearchStepView::LookUpBase(dn@),
            SearchStep::Sync(dn) => SearchStepView::Sync(dn@),
            SearchStep::ContinuePages => SearchStepView::ContinuePages,
            SearchStep::StreamProjected(dn) => SearchStepView::StreamProjected(dn@),
            SearchStep::EmitProjected => SearchStepView::EmitProjected,
            SearchStep::Stream(dn) => SearchStepView::Stream(dn@),
            SearchStep::EmitCovered => SearchStepView::EmitCovered,
            SearchStep::EmitFiltered => SearchStepView::EmitFiltered,
            SearchStep::Load(dn) => SearchStepView::Load(dn@),
            SearchStep::ResolveAliases => SearchStepView::ResolveAliases,
            SearchStep::FindReferrals => SearchStepView::FindReferrals,
            SearchStep::Arrange { leave_out, sort } => SearchStepView::Arrange {
                leave_out: *leave_out,
                sort: *sort,
            },
            SearchStep::AskTime => SearchStepView::AskTime,
            SearchStep::StartPages { covered, time_limit } => SearchStepView::StartPages {
                covered: *covered,
                time_limit: *time_limit,
            },
            SearchStep::EmitLoaded => SearchStepView::EmitLoaded,
            SearchStep::RunMachine { base, covered, time_limit } => SearchStepView::RunMachine {
                base: base@,
                covered: *covered,
                time_limit: *time_limit,
            },
            SearchStep::Stop => SearchStepView::Stop,
            SearchStep::Refuse(e) => SearchStepView::Refuse(e@),
        }
    }
}

/// What a search asks for besides entries.
#[derive(Debug, Clone, Copy, PartialEq, Eq, Structural)]
pub struct Asked {
    pub manage_dsa_it: bool,
    pub sorted: bool,
    pub paged: bool,
    pub sync: bool,
}

/// A search ends with an answer of a store's error.
pub open spec fn store_failed(head: RequestHead, err: BackendError) -> SearchStepView {
    SearchStepView::Refuse(
        search_controls::just(
            search_controls::told(
                head,
                response::backend_code(err),
                ""@,
                response::backend_text(err),
            ),
        ),
    )
}

fn fail_store(head: RequestHead, err: &BackendError) -> (r: SearchStep)
    ensures
        r@ == store_failed(head, *err),
{
    SearchStep::Refuse(
        Ending::just(
            SearchReply::told(head, map_backend_error_code(err), "", backend_diagnostic(err)),
        ),
    )
}

/// The end of a search whose aliases could not be followed.
pub open spec fn alias_failed(
    head: RequestHead,
    base: Seq<char>,
    target: Seq<char>,
    code: ResultCode,
    diagnostic: Seq<char>,
) -> SearchStepView {
    SearchStepView::Refuse(
        EndingView {
            counters: seq!["ldap_search_alias_dereference_failures_total"@],
            audit: Some(
                SearchAuditView {
                    action: "search_alias_deref"@,
                    success: false,
                    target,
                    detail: diagnostic,
                    extra: None,
                },
            ),
            reply: search_controls::told(head, code, base, diagnostic),
        },
    )
}

fn fail_alias(
    head: RequestHead,
    base: &str,
    target: &str,
    code: ResultCode,
    diagnostic: &str,
) -> (r: SearchStep)
    ensures
        r@ == alias_failed(head, base@, target@, code, diagnostic@),
{
    let mut counters: Vec<&'static str> = Vec::new();
    counters.push("ldap_search_alias_dereference_failures_total");
    proof {
        assert(search_controls::names(counters@)
            =~= seq!["ldap_search_alias_dereference_failures_total"@]);
    }
    SearchStep::Refuse(
        Ending {
            counters,
            audit: Some(
                SearchAudit {
                    action: "search_alias_deref",
                    success: false,
                    target: target.to_owned(),
                    detail: diagnostic.to_owned(),
                    extra: None,
                },
            ),
            reply: SearchReply::told(head, code, base, diagnostic),
        },
    )
}

/// The end of a search whose base refers to other servers.
pub open spec fn base_refers(
    head: RequestHead,
    dn: Seq<char>,
    urls: Seq<Seq<char>>,
) -> SearchStepView {
    SearchStepView::Refuse(
        EndingView {
            counters: seq!["ldap_referral_results_total"@],
            audit: Some(
                SearchAuditView {
                    action: "search_referral"@,
                    success: true,
                    target: dn,
                    detail: "base search resolved to referral"@,
                    extra: Some(("referral_count"@, text::decimal(urls.len()))),
                },
            ),
            reply: SearchReplyView {
                referrals: urls,
                ..search_controls::told(
                    head,
                    ResultCode::Referral,
                    dn,
                    "search base is a referral"@,
                )
            },
        },
    )
}

fn refer_base(head: RequestHead, dn: &str, urls: &Vec<String>) -> (r: SearchStep)
    ensures
        r@ == base_refers(head, dn@, text::texts(urls@)),
{
    let mut counters: Vec<&'static str> = Vec::new();
    counters.push("ldap_referral_results_total");
    proof {
        assert(search_controls::names(counters@) =~= seq!["ldap_referral_results_total"@]);
    }
    SearchStep::Refuse(
        Ending {
            counters,
            audit: Some(
                SearchAudit {
                    action: "search_referral",
                    success: true,
                    target: dn.to_owned(),
                    detail: "base search resolved to referral".to_owned(),
                    extra: Some(("referral_count", text::decimal_of(urls.len() as u64))),
                },
            ),
            reply: SearchReply::referral(head, dn, directory::copy_strings(urls)),
        },
    )
}

/// The end of a search with a referral that could not be given.
pub open spec fn referral_failed(
    head: RequestHead,
    target: Option<Seq<char>>,
    diagnostic: Seq<char>,
) -> SearchStepView {
    SearchStepView::Refuse(
        EndingView {
            counters: seq!["ldap_referral_processing_failures_total"@],
            audit: match target {
                Some(target) => Some(
                    SearchAuditView {
                        action: "search_referral"@,
                        success: false,
                        target,
                        detail: diagnostic,
                        extra: None,
                    },
                ),
                None => None,
            },
            reply: search_controls::told(head, ResultCode::OperationsError, ""@, diagnostic),
        },
    )
}

fn fail_referral(head: RequestHead, target: Option<&String>, diagnostic: &String) -> (r: SearchStep)
    ensures
        r@ == referral_failed(
            head,
            match target {
                Some(t) => Some(t@),
                None => None,
            },
            diagnostic@,
        ),
{
    let mut counters: Vec<&'static str> = Vec::new();
    counters.push("ldap_referral_processing_failures_total");
    proof {
        assert(search_controls::names(counters@)
            =~= seq!["ldap_referral_processing_failures_total"@]);
    }
    SearchStep::Refuse(
        Ending {
            counters,
            audit: match target {
                Some(t) => Some(
                    SearchAudit {
                        action: "search_referral",
                        success: false,
                        target: t.clone(),
                        detail: diagnostic.clone(),
                        extra: None,
                    },
                ),
                None => None,
            },
            reply: SearchReply::told(head, ResultCode::OperationsError, "", diagnostic.as_str()),
        },
    )
}

/// Changes are given once it is known that the base does not refer to another
/// server.
pub open spec fn sync_step(
    req: SearchRequest,
    asked: Asked,
    base: Seq<char>,
    facts: SearchFacts,
) -> SearchStepView {
    if !asked.manage_dsa_it && req.scope == SCOPE_BASE {
        match facts.base_entry {
            None => SearchStepView::LookUpBase(base),
            Some(Err(err)) => store_failed(req.head, err),
            Some(Ok(Some(Ok(urls)))) => base_refers(req.head, base, text::texts(urls@)),
            Some(Ok(Some(Err(diagnostic)))) => referral_failed(req.head, None, diagnostic@),
            Some(Ok(None)) => SearchStepView::Sync(base),
        }
    } else {
        SearchStepView::Sync(base)
    }
}

fn step_sync(req: &SearchRequest, asked: &Asked, base: &String, facts: &SearchFacts) -> (r:
    SearchStep)
    ensures
        r@ == sync_step(*req, *asked, base@, *facts),
{
    if !asked.manage_dsa_it && req.scope == SCOPE_BASE {
        match &facts.base_entry {
            None => SearchStep::LookUpBase(base.clone()),
            Some(Err(err)) => fail_store(req.head, err),
            Some(Ok(Some(Ok(urls)))) => refer_base(req.head, base.as_str(), urls),
            Some(Ok(Some(Err(diagnostic)))) => fail_referral(req.head, None, diagnostic),
            Some(Ok(None)) => SearchStep::Sync(base.clone()),
        }
    } else {
        SearchStep::Sync(base.clone())
    }
}

/// Entries can go out as the directory gives them: no pages, no order, no
/// aliases to follow, and a client that may read all.
pub open spec fn can_stream(req: SearchRequest, asked: Asked, facts: SearchFacts) -> bool {
    !asked.paged && facts.streams && !asked.sorted && !search_entries::follows_aliases(
        req.deref_aliases,
    ) && facts.reads_all
}

/// What is done for a search whose entries go out as the directory gives them.
pub open spec fn stream_step(
    req: SearchRequest,
    base: Seq<char>,
    hints: FilterHints,
    facts: SearchFacts,
) -> SearchStepView {
    let plain = match facts.streamed {
        None => SearchStepView::Stream(base),
        Some(Err(err)) => store_failed(req.head, err),
        Some(Ok(covers)) => if covers && hints.exact {
            SearchStepView::EmitCovered
        } else {
            SearchStepView::EmitFiltered
        },
    };
    if hints.exact && hints.hinted && hints.equality {
        match facts.projected {
            None => SearchStepView::StreamProjected(base),
            Some(Err(err)) => store_failed(req.head, err),
            Some(Ok(true)) => SearchStepView::EmitProjected,
            Some(Ok(false)) => plain,
        }
    } else {
        plain
    }
}

fn step_stream(req: &SearchRequest, base: &String, hints: FilterHints, facts: &SearchFacts) -> (r:
    SearchStep)
    ensures
        r@ == stream_step(*req, base@, hints, *facts),
{
    if hints.exact && hints.hinted && hints.equality {
        match &facts.projected {
            None => {
                return SearchStep::StreamProjected(base.clone());
            },
            Some(Err(err)) => {
                return fail_store(req.head, err);
            },
            Some(Ok(true)) => {
                return SearchStep::EmitProjected;
            },
            Some(Ok(false)) => {},
        }
    }
    match &facts.streamed {
        None => SearchStep::Stream(base.clone()),
        Some(Err(err)) => fail_store(req.head, err),
        Some(Ok(covers)) => if *covers && hints.exact {
            SearchStep::EmitCovered
        } else {
            SearchStep::EmitFiltered
        },
    }
}

/// The index covers the filter, and nothing is left to be held against it.
pub open spec fn is_covered(
    req: SearchRequest,
    hints: FilterHints,
    facts: SearchFacts,
    covers: bool,
) -> bool {
    covers && hints.exact && !search_entries::follows_aliases(req.deref_aliases)
        && facts.reads_all
}

/// What is done with the entries once they are in their order.
pub open spec fn give_step(
    req: SearchRequest,
    asked: Asked,
    base: Seq<char>,
    covered: bool,
    facts: SearchFacts,
) -> SearchStepView {
    match facts.time_left {
        None => SearchStepView::AskTime,
        Some(None) => SearchStepView::Refuse(
            search_controls::just(
                search_controls::told(
                    req.head,
                    ResultCode::TimeLimitExceeded,
                    ""@,
                    "time limit exceeded"@,
                ),
            ),
        ),
        Some(Some(time_limit)) => if asked.paged {
            SearchStepView::StartPages { covered, time_limit }
        } else if covered && !asked.sorted {
            SearchStepView::EmitLoaded
        } else {
            SearchStepView::RunMachine { base, covered, time_limit }
        },
    }
}

/// What is done with the entries once the aliases among them were followed.
pub open spec fn arrange_step(
    req: SearchRequest,
    asked: Asked,
    base: Seq<char>,
    covered: bool,
    facts: SearchFacts,
) -> SearchStepView {
    let arranged = if !facts.arranged && (!facts.reads_all || asked.sorted) {
        SearchStepView::Arrange { leave_out: !facts.reads_all, sort: asked.sorted }
    } else {
        give_step(req, asked, base, covered, facts)
    };
    if asked.manage_dsa_it {
        arranged
    } else {
        match facts.referrals {
            None => SearchStepView::FindReferrals,
            Some(Err(e)) => referral_failed(req.head, Some(e.target_dn@), e.diagnostic@),
            Some(Ok(Some(base_referral))) => base_refers(
                req.head,
                base_referral.0@,
                text::texts(base_referral.1@),
            ),
            Some(Ok(None)) => arranged,
        }
    }
}

fn step_arrange(
    req: &SearchRequest,
    asked: &Asked,
    base: &String,
    covered: bool,
    facts: &SearchFacts,
) -> (r: SearchStep)
    ensures
        r@ == arrange_step(*req, *asked, base@, covered, *facts),
{
    if !asked.manage_dsa_it {
        match &facts.referrals {
            None => {
                return SearchStep::FindReferrals;
            },
            Some(Err(e)) => {
                return fail_referral(req.head, Some(&e.target_dn), &e.diagnostic);
            },
            Some(Ok(Some(base_referral))) => {
                return refer_base(req.head, base_referral.0.as_str(), &base_referral.1);
            },
            Some(Ok(None)) => {},
        }
    }
    if !facts.arranged && (!facts.reads_all || asked.sorted) {
        return SearchStep::Arrange { leave_out: !facts.reads_all, sort: asked.sorted };
    }
    match facts.time_left {
        None => SearchStep::AskTime,
        Some(None) => SearchStep::Refuse(
            Ending::just(
                SearchReply::told(
                    req.head,
                    ResultCode::TimeLimitExceeded,
                    "",
                    "time limit exceeded",
                ),
            ),
        ),
        Some(Some(time_limit)) => if asked.paged {
            SearchStep::StartPages { covered, time_limit }
        } else if covered && !asked.sorted {
            SearchStep::EmitLoaded
        } else {
            SearchStep::RunMachine { base: base.clone(), covered, time_limit }
        },
    }
}

/// What is done for a search whose entries are loaded first.
pub open spec fn load_step(
    req: SearchRequest,
    asked: Asked,
    base: Seq<char>,
    hints: FilterHints,
    facts: SearchFacts,
) -> SearchStepView {
    match facts.loaded {
        None => SearchStepView::Load(base),
        Some(Err(err)) => store_failed(req.head, err),
        Some(Ok(covers)) => {
            let covered = is_covered(req, hints, facts, covers);
            if search_entries::follows_aliases(req.deref_aliases) {
                match facts.aliases {
                    None => SearchStepView::ResolveAliases,
                    Some(Err(e)) => alias_failed(
                        req.head,
                        base_dn(req),
                        e.target_dn@,
                        e.result_code,
                        e.diagnostic@,
                    ),
                    Some(Ok(_)) => arrange_step(req, asked, base, covered, facts),
                }
            } else {
                arrange_step(req, asked, base, covered, facts)
            }
        },
    }
}

fn step_load(
    req: &SearchRequest,
    asked: &Asked,
    base: &String,
    hints: FilterHints,
    facts: &SearchFacts,
) -> (r: SearchStep)
    ensures
        r@ == load_step(*req, *asked, base@, hints, *facts),
{
    let covers = match &facts.loaded {
        None => {
            return SearchStep::Load(base.clone());
        },
        Some(Err(err)) => {
            return fail_store(req.head, err);
        },
        Some(Ok(covers)) => *covers,
    };
    let follows = derefs_candidates(req.deref_aliases);
    let covered = covers && hints.exact && !follows && facts.reads_all;
    if follows {
        match &facts.aliases {
            None => {
                return SearchStep::ResolveAliases;
            },
            Some(Err(e)) => {
                return fail_alias(
                    req.head,
                    req.base_dn().as_str(),
                    e.target_dn.as_str(),
                    e.result_code,
                    e.diagnostic.as_str(),
                );
            },
            Some(Ok(_)) => {},
        }
    }
    step_arrange(req, asked, base, covered, facts)
}

/// The question whether the client may search there.
pub open spec fn search_authorization(req: SearchRequest) -> AuthorizationView {
    AuthorizationView {
        message_id: req.head.message_id,
        op: ResponseOp::SearchDone,
        permission: Permission::Search,
        operation: "search"@,
        dn: base_dn(req),
        attribute: None,
    }
}

/// The next page of a search that is kept is asked for.
pub open spec fn continues_pages(asked: Asked, facts: SearchFacts) -> bool {
    search_controls::asked_page(asked.paged, facts.controls) matches Some(page)
        && page.cookie@.len() > 0
}

/// What is done next for a search whose controls are granted.
pub open spec fn granted_step(req: SearchRequest, asked: Asked, facts: SearchFacts) -> SearchStepView {
    match facts.prepared {
        None => SearchStepView::PrepareFilter,
        Some(Err(e)) => SearchStepView::Refuse(
            search_controls::just(
                search_controls::told(
                    req.head,
                    filter_error_code(e),
                    ""@,
                    ldap_filter_eval::filter_error_text(e@),
                ),
            ),
        ),
        Some(Ok(hints)) => match facts.authorized {
            None => SearchStepView::Authorize(search_authorization(req)),
            Some(false) => SearchStepView::Stop,
            Some(true) => match facts.effective_base {
                None => SearchStepView::ResolveBase(base_dn(req)),
                Some(Err(e)) => alias_failed(req.head, base_dn(req), base_dn(req), e.0, e.1@),
                Some(Ok(base)) => if asked.sync {
                    sync_step(req, asked, base@, facts)
                } else if continues_pages(asked, facts) {
                    SearchStepView::ContinuePages
                } else if can_stream(req, asked, facts) {
                    stream_step(req, base@, hints, facts)
                } else {
                    load_step(req, asked, base@, hints, facts)
                },
            },
        },
    }
}

/// The code for a filter that the schema refuses.
pub open spec fn filter_error_code(e: FilterSchemaError) -> ResultCode {
    match e {
        FilterSchemaError::UndefinedAttribute(_) => ResultCode::UndefinedAttributeType,
        FilterSchemaError::InappropriateMatching(_) => ResultCode::InappropriateMatching,
        FilterSchemaError::InvalidAttributeSyntax(_) => ResultCode::InvalidAttributeSyntax,
        FilterSchemaError::InvalidFilter(_) => ResultCode::ProtocolError,
    }
}

/// What is done next for a search of the directory.
pub open spec fn search_step(req: SearchRequest, facts: SearchFacts) -> SearchStepView {
    match search_controls::control_step(
        req.head,
        base_dn(req),
        req.controls@,
        facts.controls,
        false,
    ) {
        ControlStepView::Go { manage_dsa_it, sorted, paged, sync } => granted_step(
            req,
            Asked { manage_dsa_it, sorted, paged, sync },
            facts,
        ),
        step => SearchStepView::Controls(step),
    }
}

impl SearchRequest {
    fn granted_step(&self, asked: &Asked, facts: &SearchFacts) -> (r: SearchStep)
        ensures
            r@ == granted_step(*self, *asked, *facts),
    {
        let hints = match &facts.prepared {
            None => {
                return SearchStep::PrepareFilter;
            },
            Some(Err(e)) => {
                return SearchStep::Refuse(
                    Ending::just(
                        SearchReply::told(
                            self.head,
                            map_filter_schema_error_code(e),
                            "",
                            e.message().as_str(),
                        ),
                    ),
                );
            },
            Some(Ok(hints)) => *hints,
        };
        match facts.authorized {
            None => {
                return SearchStep::Authorize(
                    Authorization {
                        message_id: self.head.message_id,
                        op: ResponseOp::SearchDone,
                        permission: Permission::Search,
                        operation: "search",
                        dn: self.base_dn(),
                        attribute: None,
                    },
                );
            },
            Some(false) => {
                return SearchStep::Stop;
            },
            Some(true) => {},
        }
        let base = match &facts.effective_base {
            None => {
                return SearchStep::ResolveBase(self.base_dn());
            },
            Some(Err(e)) => {
                let dn = self.base_dn();
                return fail_alias(self.head, dn.as_str(), dn.as_str(), e.0, e.1.as_str());
            },
            Some(Ok(base)) => base,
        };
        if asked.sync {
            return step_sync(self, asked, base, facts);
        }
        if asked.paged {
            if let Some(Ok(page)) = &facts.controls.page {
                if page.cookie.len() > 0 {
                    return SearchStep::ContinuePages;
                }
            }
        }
        if !asked.paged && facts.streams && !asked.sorted && !derefs_candidates(self.deref_aliases)
            && facts.reads_all {
            return step_stream(self, base, hints, facts);
        }
        step_load(self, asked, base, hints, facts)
    }

    /// What is done next where the search is of the directory.
    pub fn step(&self, facts: &SearchFacts) -> (r: SearchStep)
        ensures
            r@ == search_step(*self, *facts),
    {
        let base = self.base_dn();
        match step_controls(self.head, base.as_str(), &self.controls, &facts.controls, false) {
            ControlStep::Go { manage_dsa_it, sorted, paged, sync } => self.granted_step(
                &Asked { manage_dsa_it, sorted, paged, sync },
                facts,
            ),
            step => SearchStep::Controls(step),
        }
    }

    /// The answer where the searching machine does not start.
    pub fn start_failed(&self, error: &response::SearchFsmError) -> (r: SearchReply)
        ensures
            r@ == search_controls::told(
                self.head,
                response::search_error_answer(*error).0,
                ""@,
                response::search_error_answer(*error).1,
            ),
    {
        let (code, diagnostic) = response::search_fsm_error_response(error);
        SearchReply::told(self.head, code, "", diagnostic.as_str())
    }
}

// ---------------------------------------------------------------------------
// Laws
// ---------------------------------------------------------------------------

/// The step asks the directory for entries, or gives some.
pub open spec fn reaches_entries(step: SearchStepView) -> bool {
    step is Sync || step is ContinuePages || step is StreamProjected || step is EmitProjected
        || step is Stream || step is EmitCovered || step is EmitFiltered || step is Load
        || step is StartPages || step is EmitLoaded || step is RunMachine
}

/// No entry is asked for or given before the filter is known to be valid and
/// the client to be authorized.
pub proof fn searches_are_authorized(req: SearchRequest, facts: SearchFacts)
    requires
        reaches_entries(search_step(req, facts)),
    ensures
        facts.authorized == Some(true),
        facts.prepared matches Some(Ok(_)),
        facts.effective_base matches Some(Ok(_)),
{
}

/// Entries go out without being held against the filter only where the index
/// covers it exactly, and the client may read them all.
pub proof fn unfiltered_entries_are_covered(req: SearchRequest, facts: SearchFacts)
    ensures
        search_step(req, facts) is EmitProjected || search_step(req, facts) is EmitCovered
            || search_step(req, facts) is EmitLoaded ==> facts.reads_all
            && !search_entries::follows_aliases(req.deref_aliases) && (
        facts.prepared matches Some(Ok(hints)) && hints.exact),
        search_step(req, facts) matches SearchStepView::RunMachine { covered, .. } ==> (covered
            ==> facts.reads_all && !search_entries::follows_aliases(req.deref_aliases) && (
        facts.prepared matches Some(Ok(hints)) && hints.exact)),
        search_step(req, facts) matches SearchStepView::StartPages { covered, .. } ==> (covered
            ==> facts.reads_all && !search_entries::follows_aliases(req.deref_aliases) && (
        facts.prepared matches Some(Ok(hints)) && hints.exact)),
{
}

/// What a client may not read is left out before any entry is given.
pub proof fn unreadable_entries_are_left_out(req: SearchRequest, facts: SearchFacts)
    requires
        !facts.reads_all,
        search_step(req, facts) is StartPages || search_step(req, facts) is EmitLoaded
            || search_step(req, facts) is RunMachine,
    ensures
        facts.arranged,
{
}

} // verus!
