//! Sending the entries of a search: which ones go out, when what was gathered
//! is sent, and how the search ends.

use vstd::prelude::*;

use crate::directory;
use crate::directory::DirectoryEntry;
use crate::ldap_filter_eval;
use crate::ldap_filter_eval::PreparedLdapFilter;
use crate::response;
use crate::response::{
    backend_diagnostic, map_backend_error_code, search_fsm_error_response, BackendError,
    RequestHead, ResultCode, SearchFsmError,
};
use crate::search_controls;
use crate::search_controls::{
    native_search_done_controls, ResponseControl, ResponseControlView, SearchReply,
    SearchReplyView,
};
use crate::search_entries;
use crate::search_entries::{directory_entry_to_search_entry, normalize_search_dn, Referral};
use crate::text;

verus! {

/// How many bytes are gathered before they are sent.
pub const FSM_SEARCH_ENTRY_WRITE_BATCH_BYTES: usize = 65536;

/// The progress of a search is noted after so many entries.
pub fn fsm_search_progress_checkpoint(emitted: usize) -> (r: bool)
    ensures
        r == (emitted % 100 == 0),
{
    emitted % 100 == 0
}

/// The bytes that are gathered after so many more, and whether they are sent:
/// then none is gathered any more.
pub open spec fn gathered(pending: nat, more: nat) -> (nat, bool) {
    if pending + more >= FSM_SEARCH_ENTRY_WRITE_BATCH_BYTES {
        (0, true)
    } else {
        (pending + more, false)
    }
}

fn gather(pending: usize, more: usize) -> (r: (usize, bool))
    requires
        pending < FSM_SEARCH_ENTRY_WRITE_BATCH_BYTES,
    ensures
        (r.0 as nat, r.1) == gathered(pending as nat, more as nat),
{
    if more >= FSM_SEARCH_ENTRY_WRITE_BATCH_BYTES - pending {
        (0, true)
    } else {
        (pending + more, false)
    }
}

// ---------------------------------------------------------------------------
// Entries that come one by one
// ---------------------------------------------------------------------------

/// What a search sends its entries by.
#[derive(Debug, Clone, Copy, PartialEq, Eq, Structural)]
pub struct StreamRules {
    pub head: RequestHead,
    /// Referrals are told as such.
    pub tells_referrals: bool,
    /// The search is of its base only.
    pub base_only: bool,
    /// Zero is no limit.
    pub size_limit: u32,
    /// The entries are yet to be held against the filter.
    pub filtering: bool,
}

/// What came of the next entry.
#[derive(Debug, PartialEq, Eq)]
#[allow(inconsistent_fields)]
pub enum Arrival {
    Failed(BackendError),
    Entry {
        dn: String,
        referral: Referral,
        /// The entry matches the filter, or why that could not be told.
        matched: Result<bool, String>,
    },
}

/// How far a search has come.
#[derive(Debug, PartialEq, Eq)]
pub struct StreamState {
    pub emitted: usize,
    pub pending: usize,
    pub references: Vec<Vec<String>>,
    pub returned: Vec<String>,
}

/// What a [`StreamState`] says.
#[verifier::ext_equal]
pub struct StreamView {
    pub emitted: nat,
    pub pending: nat,
    pub references: Seq<Vec<String>>,
    pub returned: Seq<Seq<char>>,
}

impl View for StreamState {
    type V = StreamView;

    open spec fn view(&self) -> StreamView {
        StreamView {
            emitted: self.emitted as nat,
            pending: self.pending as nat,
            references: self.references@,
            returned: text::texts(self.returned@),
        }
    }
}

/// What is done with an entry.
#[derive(Debug, PartialEq, Eq)]
#[allow(inconsistent_fields)]
pub enum StreamStep {
    /// The entry is left out.
    Skip,
    /// The entry goes out.
    Emit,
    /// What was gathered is sent, the counters are raised, the search is
    /// counted as ended, and the answer goes out.
    End { counters: Vec<&'static str>, success: bool, reply: SearchReply },
    /// The connection fails with this text.
    Fail(String),
}

/// What a [`StreamStep`] says.
#[allow(inconsistent_fields)]
pub enum StreamStepView {
    Skip,
    Emit,
    End { counters: Seq<Seq<char>>, success: bool, reply: SearchReplyView },
    Fail(Seq<char>),
}

impl View for StreamStep {
    type V = StreamStepView;

    open spec fn view(&self) -> StreamStepView {
        match self {
            StreamStep::Skip => StreamStepView::Skip,
            StreamStep::Emit => StreamStepView::Emit,
            StreamStep::End { counters, success, reply } => StreamStepView::End {
                counters: search_controls::names(counters@),
                success: *success,
                reply: reply@,
            },
            StreamStep::Fail(e) => StreamStepView::Fail(e@),
        }
    }
}

/// The search ends early with a code and a text.
pub open spec fn cut_short(head: RequestHead, code: ResultCode, text: Seq<char>) -> StreamStepView {
    StreamStepView::End {
        counters: Seq::empty(),
        success: false,
        reply: search_controls::told(head, code, ""@, text),
    }
}

fn cut(head: RequestHead, code: ResultCode, text: &str) -> (r: StreamStep)
    ensures
        r@ == cut_short(head, code, text@),
{
    let counters: Vec<&'static str> = Vec::new();
    proof {
        assert(search_controls::names(counters@) =~= Seq::<Seq<char>>::empty());
    }
    StreamStep::End {
        counters,
        success: false,
        reply: SearchReply::told(head, code, "", text),
    }
}

/// The size limit is reached.
pub open spec fn is_full(rules: StreamRules, emitted: nat) -> bool {
    rules.size_limit != 0 && emitted >= rules.size_limit
}

/// What is done with an entry that does not refer to another server.
pub open spec fn plain_arrival(
    rules: StreamRules,
    before: StreamView,
    dn: Seq<char>,
    matched: Result<bool, Seq<char>>,
) -> (StreamView, StreamStepView) {
    let key = search_entries::normalized_dn(dn);
    if rules.filtering && matched is Err {
        (before, StreamStepView::Fail(matched->Err_0))
    } else if rules.filtering && matched->Ok_0 == false {
        (before, StreamStepView::Skip)
    } else if rules.filtering && before.returned.contains(key) {
        (before, StreamStepView::Skip)
    } else {
        let after = if rules.filtering {
            StreamView { returned: before.returned.push(key), ..before }
        } else {
            before
        };
        if is_full(rules, before.emitted) {
            (
                after,
                cut_short(rules.head, ResultCode::SizeLimitExceeded, "size limit exceeded"@),
            )
        } else {
            (after, StreamStepView::Emit)
        }
    }
}

/// Whether an entry matches, or in words why that could not be told.
pub open spec fn told_verdict(matched: Result<bool, String>) -> Result<bool, Seq<char>> {
    match matched {
        Ok(b) => Ok(b),
        Err(e) => Err(e@),
    }
}

/// What is done when the next entry has come in time.
pub open spec fn entry_arrived(
    rules: StreamRules,
    before: StreamView,
    dn: Seq<char>,
    referral: Referral,
    matched: Result<bool, Seq<char>>,
) -> (StreamView, StreamStepView) {
    if rules.tells_referrals {
        match referral {
            None => plain_arrival(rules, before, dn, matched),
            Some(Err(diagnostic)) => (
                before,
                cut_short(rules.head, ResultCode::OperationsError, diagnostic@),
            ),
            Some(Ok(urls)) => if rules.base_only {
                (
                    before,
                    StreamStepView::End {
                        counters: seq!["ldap_referral_results_total"@],
                        success: true,
                        reply: SearchReplyView {
                            referrals: text::texts(urls@),
                            ..search_controls::told(
                                rules.head,
                                ResultCode::Referral,
                                dn,
                                "search base is a referral"@,
                            )
                        },
                    },
                )
            } else {
                (
                    StreamView { references: before.references.push(urls), ..before },
                    StreamStepView::Skip,
                )
            },
        }
    } else {
        plain_arrival(rules, before, dn, matched)
    }
}

/// What is done when the time is over.
pub open spec fn ran_out(rules: StreamRules, before: StreamView) -> (StreamView, StreamStepView) {
    (before, cut_short(rules.head, ResultCode::TimeLimitExceeded, "time limit exceeded"@))
}

/// What is done when the next entry has come.
pub open spec fn arrived(
    rules: StreamRules,
    before: StreamView,
    over_time: bool,
    arrival: Arrival,
) -> (StreamView, StreamStepView) {
    if over_time {
        ran_out(rules, before)
    } else {
        match arrival {
            Arrival::Failed(err) => (
                before,
                cut_short(rules.head, response::backend_code(err), response::backend_text(err)),
            ),
            Arrival::Entry { dn, referral, matched } => entry_arrived(
                rules,
                before,
                dn@,
                referral,
                told_verdict(matched),
            ),
        }
    }
}

impl StreamState {
    /// Less is gathered than is sent at once.
    pub open spec fn wf(self) -> bool {
        self.pending < FSM_SEARCH_ENTRY_WRITE_BATCH_BYTES
    }

    /// A search that begins.
    pub fn new(references: Vec<Vec<String>>) -> (r: Self)
        ensures
            r.wf(),
            r@ == (StreamView {
                emitted: 0,
                pending: 0,
                references: references@,
                returned: Seq::empty(),
            }),
    {
        let r = StreamState { emitted: 0, pending: 0, references, returned: Vec::new() };
        proof {
            assert(r@.returned =~= Seq::<Seq<char>>::empty());
        }
        r
    }

    fn take_plain(
        &mut self,
        rules: &StreamRules,
        dn: &String,
        matched: Result<bool, String>,
    ) -> (r: StreamStep)
        requires
            old(self).wf(),
        ensures
            final(self).wf(),
            (final(self)@, r@) == plain_arrival(*rules, old(self)@, dn@, told_verdict(matched)),
    {
        if rules.filtering {
            match matched {
                Err(e) => {
                    return StreamStep::Fail(e);
                },
                Ok(false) => {
                    return StreamStep::Skip;
                },
                Ok(true) => {},
            }
            let key = normalize_search_dn(dn.as_str());
            if directory::contains_string(&self.returned, key.as_str()) {
                return StreamStep::Skip;
            }
            proof {
                text::texts_push(self.returned@, key);
            }
            self.returned.push(key);
        }
        if rules.size_limit != 0 && self.emitted >= rules.size_limit as usize {
            return cut(rules.head, ResultCode::SizeLimitExceeded, "size limit exceeded");
        }
        StreamStep::Emit
    }

    /// What is done when the next entry has come.
    pub fn take(&mut self, rules: &StreamRules, over_time: bool, arrival: Arrival) -> (r: StreamStep)
        requires
            old(self).wf(),
        ensures
            final(self).wf(),
            (final(self)@, r@) == arrived(*rules, old(self)@, over_time, arrival),
    {
        if over_time {
            return cut(rules.head, ResultCode::TimeLimitExceeded, "time limit exceeded");
        }
        match arrival {
            Arrival::Failed(err) => cut(
                rules.head,
                map_backend_error_code(&err),
                backend_diagnostic(&err),
            ),
            Arrival::Entry { dn, referral, matched } => {
                if !rules.tells_referrals {
                    return self.take_plain(rules, &dn, matched);
                }
                match referral {
                    None => self.take_plain(rules, &dn, matched),
                    Some(Err(diagnostic)) => cut(
                        rules.head,
                        ResultCode::OperationsError,
                        diagnostic.as_str(),
                    ),
                    Some(Ok(urls)) => if rules.base_only {
                        let mut counters: Vec<&'static str> = Vec::new();
                        counters.push("ldap_referral_results_total");
                        proof {
                            assert(search_controls::names(counters@)
                                =~= seq!["ldap_referral_results_total"@]);
                        }
                        StreamStep::End {
                            counters,
                            success: true,
                            reply: SearchReply::referral(rules.head, dn.as_str(), urls),
                        }
                    } else {
                        self.references.push(urls);
                        StreamStep::Skip
                    },
                }
            },
        }
    }

    /// What is done when that entry has come: it is held against the filter
    /// where the search filters.
    pub fn take_entry(
        &mut self,
        rules: &StreamRules,
        over_time: bool,
        entry: &DirectoryEntry,
        referral: Referral,
        filter: &PreparedLdapFilter,
    ) -> (r: StreamStep)
        requires
            old(self).wf(),
        ensures
            final(self).wf(),
            (final(self)@, r@) == (if over_time {
                ran_out(*rules, old(self)@)
            } else {
                entry_arrived(
                    *rules,
                    old(self)@,
                    entry.dn@,
                    referral,
                    filter_verdict(*entry, *filter),
                )
            }),
    {
        let refers = rules.tells_referrals && referral.is_some();
        let matched = if over_time || refers || !rules.filtering {
            Ok(true)
        } else {
            entry_matches(entry, filter)
        };
        self.take(rules, over_time, Arrival::Entry { dn: entry.dn.clone(), referral, matched })
    }

    /// An entry of so many bytes goes out; tells whether what was gathered is
    /// sent now.
    pub fn sent(&mut self, bytes: usize) -> (r: bool)
        requires
            old(self).wf(),
            old(self).emitted < usize::MAX,
        ensures
            final(self).wf(),
            final(self)@ == (StreamView {
                emitted: old(self)@.emitted + 1,
                pending: gathered(old(self)@.pending, bytes as nat).0,
                ..old(self)@
            }),
            r == gathered(old(self)@.pending, bytes as nat).1,
    {
        let (pending, send) = gather(self.pending, bytes);
        self.pending = pending;
        self.emitted = self.emitted + 1;
        send
    }

    /// No entry is left: the answer after what was gathered and the references
    /// have gone out.
    pub fn finish(&self, rules: &StreamRules) -> (r: SearchReply)
        ensures
            r@ == search_controls::told(rules.head, ResultCode::Success, ""@, ""@),
    {
        let controls = native_search_done_controls(false, ResultCode::Success);
        let r = SearchReply::with_controls(rules.head, ResultCode::Success, "", "", controls);
        proof {
            assert(r@.controls =~= Seq::<ResponseControlView>::empty());
        }
        r
    }
}

/// Whether an entry matches the filter of a search, or why that could not be
/// told.
pub open spec fn filter_verdict(entry: DirectoryEntry, filter: PreparedLdapFilter) -> Result<
    bool,
    Seq<char>,
> {
    let e = search_entries::as_search_entry(entry);
    match ldap_filter_eval::evaluated(
        ldap_filter_eval::prepared_view(filter),
        e.dn,
        e.attributes,
    ) {
        Ok(b) => Ok(b),
        Err(fault) => Err(ldap_filter_eval::filter_error_text(fault)),
    }
}

/// Whether an entry matches the filter of a search.
pub fn entry_matches(entry: &DirectoryEntry, filter: &PreparedLdapFilter) -> (r: Result<bool, String>)
    ensures
        match r {
            Ok(b) => filter_verdict(*entry, *filter) == Ok::<bool, Seq<char>>(b),
            Err(e) => filter_verdict(*entry, *filter) == Err::<bool, Seq<char>>(e@),
        },
{
    let found = directory_entry_to_search_entry(entry);
    match filter.matches_search_entry(&found) {
        Ok(b) => Ok(b),
        Err(e) => Err(e.message()),
    }
}

// ---------------------------------------------------------------------------
// Entries that the searching machine gives
// ---------------------------------------------------------------------------

/// How far the entries that the searching machine gives have come.
#[derive(Debug, Clone, Copy, PartialEq, Eq, Structural)]
pub struct MachineState {
    pub pending: usize,
    pub emitted: usize,
}

/// What came of the next entry of the searching machine.
#[derive(Debug, PartialEq, Eq)]
pub enum MachineEvent {
    /// An entry of so many bytes.
    Entry(usize),
    /// The machine has no entry left.
    Exhausted,
    /// The machine failed after an entry had gone out.
    Failed(SearchFsmError),
}

/// What is done next with the searching machine.
#[derive(Debug, PartialEq, Eq)]
#[allow(inconsistent_fields)]
pub enum MachineStep {
    /// The entry is gathered, what was gathered is sent or not, and the
    /// machine is told that the entry has gone out.
    Gather { send: bool },
    /// What was gathered is sent, then the references where they are due,
    /// then the answer.
    End { references: bool, reply: SearchReply },
}

/// What a [`MachineStep`] says.
#[allow(inconsistent_fields)]
pub enum MachineStepView {
    Gather { send: bool },
    End { references: bool, reply: SearchReplyView },
}

impl View for MachineStep {
    type V = MachineStepView;

    open spec fn view(&self) -> MachineStepView {
        match self {
            MachineStep::Gather { send } => MachineStepView::Gather { send: *send },
            MachineStep::End { references, reply } => MachineStepView::End {
                references: *references,
                reply: reply@,
            },
        }
    }
}

/// The controls of the answer to a search that failed.
pub open spec fn error_controls(sorted: bool, error: SearchFsmError) -> Seq<ResponseControlView> {
    match error {
        SearchFsmError::SizeLimitExceeded => search_controls::done_controls(
            sorted,
            ResultCode::SizeLimitExceeded,
        ),
        SearchFsmError::TimeLimitExceeded => search_controls::done_controls(
            sorted,
            ResultCode::TimeLimitExceeded,
        ),
        _ => Seq::empty(),
    }
}

pub fn native_search_error_controls(sorted: bool, error: &SearchFsmError) -> (r: Vec<
    ResponseControl,
>)
    ensures
        search_controls::response_control_views(r@) == error_controls(sorted, *error),
{
    match error {
        SearchFsmError::SizeLimitExceeded => native_search_done_controls(
            sorted,
            ResultCode::SizeLimitExceeded,
        ),
        SearchFsmError::TimeLimitExceeded => native_search_done_controls(
            sorted,
            ResultCode::TimeLimitExceeded,
        ),
        _ => {
            let none: Vec<ResponseControl> = Vec::new();
            proof {
                assert(search_controls::response_control_views(none@) =~= Seq::<
                    ResponseControlView,
                >::empty());
            }
            none
        },
    }
}

/// What is done when the searching machine has given its next result.
pub open spec fn machine_step(
    head: RequestHead,
    sorted: bool,
    before: MachineState,
    event: MachineEvent,
) -> (MachineState, MachineStepView) {
    match event {
        MachineEvent::Entry(bytes) => {
            let (pending, send) = gathered(before.pending as nat, bytes as nat);
            (
                MachineState { pending: pending as usize, emitted: (before.emitted + 1) as usize },
                MachineStepView::Gather { send },
            )
        },
        MachineEvent::Exhausted => (
            MachineState { pending: 0, ..before },
            MachineStepView::End {
                references: true,
                reply: SearchReplyView {
                    controls: search_controls::done_controls(sorted, ResultCode::Success),
                    ..search_controls::told(head, ResultCode::Success, ""@, ""@)
                },
            },
        ),
        MachineEvent::Failed(error) => (
            MachineState { pending: 0, ..before },
            MachineStepView::End {
                references: error is SizeLimitExceeded || error is TimeLimitExceeded,
                reply: SearchReplyView {
                    controls: error_controls(sorted, error),
                    ..search_controls::told(
                        head,
                        response::search_error_answer(error).0,
                        ""@,
                        response::search_error_answer(error).1,
                    )
                },
            },
        ),
    }
}

impl MachineState {
    pub open spec fn wf(self) -> bool {
        self.pending < FSM_SEARCH_ENTRY_WRITE_BATCH_BYTES
    }

    pub fn new() -> (r: Self)
        ensures
            r.wf(),
            r == (MachineState { pending: 0, emitted: 0 }),
    {
        MachineState { pending: 0, emitted: 0 }
    }

    /// What is done when the searching machine has given its next result.
    pub fn take(&mut self, head: RequestHead, sorted: bool, event: &MachineEvent) -> (r: MachineStep)
        requires
            old(self).wf(),
            old(self).emitted < usize::MAX,
        ensures
            final(self).wf(),
            (*final(self), r@) == machine_step(head, sorted, *old(self), *event),
    {
        match event {
            MachineEvent::Entry(bytes) => {
                let (pending, send) = gather(self.pending, *bytes);
                self.pending = pending;
                self.emitted = self.emitted + 1;
                MachineStep::Gather { send }
            },
            MachineEvent::Exhausted => {
                self.pending = 0;
                let controls = native_search_done_controls(sorted, ResultCode::Success);
                MachineStep::End {
                    references: true,
                    reply: SearchReply::with_controls(head, ResultCode::Success, "", "", controls),
                }
            },
            MachineEvent::Failed(error) => {
                self.pending = 0;
                let (code, diagnostic) = search_fsm_error_response(error);
                let controls = native_search_error_controls(sorted, error);
                MachineStep::End {
                    references: matches!(
                        error,
                        SearchFsmError::SizeLimitExceeded | SearchFsmError::TimeLimitExceeded
                    ),
                    reply: SearchReply::with_controls(
                        head,
                        code,
                        "",
                        diagnostic.as_str(),
                        controls,
                    ),
                }
            },
        }
    }
}

/// The counter for references and by how much it is raised, where there are
/// any.
pub fn reference_counter(references: &Vec<Vec<String>>) -> (r: Option<(&'static str, u64)>)
    ensures
        match r {
            Some(c) => references@.len() > 0 && c.0@ == "ldap_search_references_total"@ && c.1
                == references@.len(),
            None => references@.len() == 0,
        },
{
    if references.len() == 0 {
        None
    } else {
        Some(("ldap_search_references_total", references.len() as u64))
    }
}

// ---------------------------------------------------------------------------
// Entries of a page
// ---------------------------------------------------------------------------

/// Where the deadline of a page is looked at: before an entry is formatted,
/// after it, and after the last one.
#[derive(Debug, Clone, Copy, PartialEq, Eq, Structural)]
pub enum DeadlineCheck {
    BeforeEntry,
    AfterEntry,
    AfterLast,
}

/// What is done after the deadline of a page was looked at.
#[derive(Debug, Clone, Copy, PartialEq, Eq, Structural)]
pub enum PageStep {
    /// The page goes on.
    Proceed,
    /// No more entries; the deadline is looked at once more.
    NoMore,
    /// What was gathered is sent, and the page is done.
    Done { time_limit_hit: bool },
}

/// What is done after the deadline of a page was looked at.
pub fn page_step(check: DeadlineCheck, passed: bool) -> (r: PageStep)
    ensures
        r == (match check {
            DeadlineCheck::BeforeEntry => if passed {
                PageStep::NoMore
            } else {
                PageStep::Proceed
            },
            DeadlineCheck::AfterEntry => if passed {
                PageStep::Done { time_limit_hit: true }
            } else {
                PageStep::Proceed
            },
            DeadlineCheck::AfterLast => PageStep::Done { time_limit_hit: passed },
        }),
{
    match check {
        DeadlineCheck::BeforeEntry => if passed {
            PageStep::NoMore
        } else {
            PageStep::Proceed
        },
        DeadlineCheck::AfterEntry => if passed {
            PageStep::Done { time_limit_hit: true }
        } else {
            PageStep::Proceed
        },
        DeadlineCheck::AfterLast => PageStep::Done { time_limit_hit: passed },
    }
}

// ---------------------------------------------------------------------------
// Laws
// ---------------------------------------------------------------------------

/// No more entries go out than the size limit allows, and none after the time
/// limit.
pub proof fn limits_are_kept(
    rules: StreamRules,
    before: StreamView,
    over_time: bool,
    arrival: Arrival,
)
    requires
        arrived(rules, before, over_time, arrival).1 is Emit,
    ensures
        !over_time,
        rules.size_limit != 0 ==> before.emitted + 1 <= rules.size_limit,
{
}

/// Of a search that holds its entries against the filter, every entry that
/// goes out matches, and none goes out whose name went out before; its name is
/// kept, so that it does not go out again.
pub proof fn no_entry_goes_out_twice(
    rules: StreamRules,
    before: StreamView,
    over_time: bool,
    arrival: Arrival,
)
    requires
        rules.filtering,
        arrived(rules, before, over_time, arrival).1 is Emit,
    ensures
        arrival matches Arrival::Entry { dn, matched, .. } && matched == Ok::<bool, String>(true)
            && !before.returned.contains(search_entries::normalized_dn(dn@)) && arrived(
            rules,
            before,
            over_time,
            arrival,
        ).0.returned == before.returned.push(search_entries::normalized_dn(dn@)),
{
}

/// An entry that refers to another server never goes out as an entry, where
/// referrals are told.
pub proof fn referrals_do_not_go_out(
    rules: StreamRules,
    before: StreamView,
    over_time: bool,
    arrival: Arrival,
)
    requires
        rules.tells_referrals,
        arrival matches Arrival::Entry { referral, .. } && referral is Some,
    ensures
        !(arrived(rules, before, over_time, arrival).1 is Emit),
{
}

/// What is gathered stays below what is sent at once, and no byte is lost:
/// what is not sent is gathered.
pub proof fn gathering_loses_nothing(pending: nat, more: nat)
    ensures
        gathered(pending, more).0 < FSM_SEARCH_ENTRY_WRITE_BATCH_BYTES,
        !gathered(pending, more).1 ==> gathered(pending, more).0 == pending + more,
        gathered(pending, more).1 ==> gathered(pending, more).0 == 0,
{
}

} // verus!
