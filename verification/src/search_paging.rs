//! Searches in pages: what is collected, how it is cut into pages, and what is
//! kept for the next page.

use std::time::Instant;
use vstd::prelude::*;

use crate::clock;
use crate::clock::Duration;
use crate::directory;
use crate::directory::DirectoryEntry;
use crate::ldap_filter_eval::PreparedLdapFilter;
use crate::queue::Queue;
use crate::response::{RequestHead, ResultCode};
use crate::search_controls;
use crate::search_controls::{
    native_paged_results_response_control, native_search_done_controls,
    reject_native_paged_search_request, Ending, EndingView, NativePagedSearchError,
    PagedErrorView, PagedResultsControl, ResponseControl, SearchReply, SearchReplyView,
};
use crate::search_entries;
use crate::search_entries::normalize_search_dn;
use crate::search_stream;
use crate::search_stream::entry_matches;
use crate::text;

verus! {

// ---------------------------------------------------------------------------
// Collecting
// ---------------------------------------------------------------------------

/// When a search has to be done.
#[derive(Debug, Clone, Copy)]
pub struct Deadline {
    pub started_at: Instant,
    pub limit: Duration,
}

impl Deadline {
    /// The deadline has passed once so much time has gone by since its start.
    pub fn passed_after(&self, elapsed: &Duration) -> (r: bool)
        ensures
            r == (elapsed@ >= self.limit@),
    {
        !self.limit.exceeds(elapsed)
    }

    /// The deadline has passed by now. How much time has gone by, only the
    /// clock tells; a deadline that leaves no time has always passed.
    pub fn passed(&self) -> (r: bool)
        ensures
            self.limit@ == 0 ==> r,
    {
        let elapsed = clock::age_of(&self.started_at);
        self.passed_after(&elapsed)
    }
}

/// The deadline that a time limit sets from now on; zero sets none.
pub fn search_deadline_from_limit(time_limit: u32) -> (r: Option<Deadline>)
    ensures
        match r {
            Some(d) => time_limit != 0 && d.limit@ == time_limit as nat * 1_000_000_000,
            None => time_limit == 0,
        },
{
    if time_limit != 0 {
        Some(
            Deadline {
                started_at: clock::instant_now(),
                limit: Duration::from_secs(time_limit as u64),
            },
        )
    } else {
        None
    }
}

/// What a search in pages has collected.
#[verifier::ext_equal]
pub struct CollectView {
    pub entries: Seq<DirectoryEntry>,
    pub returned: Seq<Seq<char>>,
    /// One entry more than the size limit was found.
    pub full: bool,
}

/// Nothing collected.
pub open spec fn nothing() -> CollectView {
    CollectView { entries: Seq::empty(), returned: Seq::empty(), full: false }
}

/// What is collected after one more entry: those that match, each name once,
/// as many as the size limit allows.
pub open spec fn offered(
    before: CollectView,
    e: DirectoryEntry,
    filter: PreparedLdapFilter,
    covered: bool,
    size_limit: u32,
) -> Result<CollectView, Seq<char>> {
    let key = search_entries::normalized_dn(e.dn@);
    let verdict = search_stream::filter_verdict(e, filter);
    if before.full {
        Ok(before)
    } else if !covered && verdict is Err {
        Err(verdict->Err_0)
    } else if !covered && verdict->Ok_0 == false {
        Ok(before)
    } else if before.returned.contains(key) {
        Ok(before)
    } else if size_limit != 0 && before.entries.len() >= size_limit {
        Ok(CollectView { returned: before.returned.push(key), full: true, ..before })
    } else {
        Ok(
            CollectView {
                entries: before.entries.push(e),
                returned: before.returned.push(key),
                ..before
            },
        )
    }
}

/// What is collected of entries.
pub open spec fn collected(
    entries: Seq<DirectoryEntry>,
    filter: PreparedLdapFilter,
    covered: bool,
    size_limit: u32,
) -> Result<CollectView, Seq<char>>
    decreases entries.len(),
{
    if entries.len() == 0 {
        Ok(nothing())
    } else {
        match collected(entries.drop_last(), filter, covered, size_limit) {
            Err(e) => Err(e),
            Ok(before) => offered(before, entries.last(), filter, covered, size_limit),
        }
    }
}

/// What a search in pages has collected.
#[derive(Debug, PartialEq, Eq)]
pub struct NativePagedSearchCollection {
    pub entries: Vec<DirectoryEntry>,
    pub size_limit_hit: bool,
    pub time_limit_hit: bool,
}

struct Collector {
    entries: Vec<DirectoryEntry>,
    returned: Vec<String>,
    full: bool,
}

impl View for Collector {
    type V = CollectView;

    closed spec fn view(&self) -> CollectView {
        CollectView {
            entries: self.entries@,
            returned: text::texts(self.returned@),
            full: self.full,
        }
    }
}

impl Collector {
    fn new() -> (r: Self)
        ensures
            r@ == nothing(),
    {
        let r = Collector { entries: Vec::new(), returned: Vec::new(), full: false };
        proof {
            assert(r@ =~= nothing());
        }
        r
    }

    fn offer(
        &mut self,
        entry: DirectoryEntry,
        filter: &PreparedLdapFilter,
        covered: bool,
        size_limit: u32,
    ) -> (r: Result<(), String>)
        ensures
            match (offered(old(self)@, entry, *filter, covered, size_limit), r) {
                (Ok(v), Ok(_)) => final(self)@ == v,
                (Err(t), Err(e)) => e@ == t,
                _ => false,
            },
    {
        if self.full {
            return Ok(());
        }
        if !covered {
            match entry_matches(&entry, filter) {
                Err(e) => {
                    return Err(e);
                },
                Ok(false) => {
                    return Ok(());
                },
                Ok(true) => {},
            }
        }
        let key = normalize_search_dn(entry.dn.as_str());
        if directory::contains_string(&self.returned, key.as_str()) {
            return Ok(());
        }
        proof {
            text::texts_push(self.returned@, key);
        }
        self.returned.push(key);
        if size_limit != 0 && self.entries.len() >= size_limit as usize {
            self.full = true;
        } else {
            self.entries.push(entry);
        }
        Ok(())
    }
}

/// A full collection takes no more.
proof fn full_takes_no_more(
    entries: Seq<DirectoryEntry>,
    filter: PreparedLdapFilter,
    covered: bool,
    size_limit: u32,
    k: int,
)
    requires
        0 <= k <= entries.len(),
        collected(entries.take(k), filter, covered, size_limit) matches Ok(v) && v.full,
    ensures
        collected(entries, filter, covered, size_limit) == collected(
            entries.take(k),
            filter,
            covered,
            size_limit,
        ),
    decreases entries.len() - k,
{
    if k < entries.len() {
        assert(entries.take(k + 1).drop_last() =~= entries.take(k));
        full_takes_no_more(entries, filter, covered, size_limit, k + 1);
    } else {
        assert(entries.take(k) =~= entries);
    }
}

/// What is collected of the first entries. The deadline was found to have
/// passed before the entry at `stop`, or, where that is the end, after all was
/// collected if `late`.
pub fn collect_until(
    entries: Vec<DirectoryEntry>,
    filter: &PreparedLdapFilter,
    covered: bool,
    size_limit: u32,
    stop: usize,
    late: bool,
) -> (r: Result<NativePagedSearchCollection, String>)
    requires
        stop <= entries@.len(),
    ensures
        match (collected(entries@.take(stop as int), *filter, covered, size_limit), r) {
            (Ok(v), Ok(c)) => c.entries@ == v.entries && c.size_limit_hit == v.full
                && c.time_limit_hit == (late || (!v.full && stop < entries@.len())),
            (Err(t), Err(e)) => e@ == t,
            _ => false,
        },
{
    let ghost all = entries@;
    let n = entries.len();
    let mut rest = Queue::of(entries);
    let mut out = Collector::new();
    let mut i: usize = 0;
    proof {
        assert(all.skip(0) =~= all);
        assert(all.take(0) =~= Seq::<DirectoryEntry>::empty());
    }
    while i < stop
        invariant
            n == all.len(),
            stop <= n,
            i <= stop,
            all == entries@,
            rest@ == all.skip(i as int),
            collected(all.take(i as int), *filter, covered, size_limit) == Ok::<
                CollectView,
                Seq<char>,
            >(out@),
        decreases stop - i,
    {
        let entry = rest.next();
        proof {
            assert(all.skip(i as int)[0] == all[i as int]);
            assert(rest@ =~= all.skip(i + 1));
            assert(all.take(i + 1).drop_last() =~= all.take(i as int));
            assert(all.take(i + 1).last() == all[i as int]);
        }
        match out.offer(entry, filter, covered, size_limit) {
            Ok(_) => {},
            Err(e) => {
                proof {
                    assert(all.take(stop as int).take(i + 1) =~= all.take(i + 1));
                    collected_fault(
                        all.take(stop as int),
                        *filter,
                        covered,
                        size_limit,
                        i + 1,
                    );
                }
                return Err(e);
            },
        }
        i = i + 1;
    }
    let time_limit_hit = late || (!out.full && stop < n);
    Ok(
        NativePagedSearchCollection {
            entries: out.entries,
            size_limit_hit: out.full,
            time_limit_hit,
        },
    )
}

/// A fault among the first entries is the fault of all.
proof fn collected_fault(
    entries: Seq<DirectoryEntry>,
    filter: PreparedLdapFilter,
    covered: bool,
    size_limit: u32,
    k: int,
)
    requires
        0 <= k <= entries.len(),
        collected(entries.take(k), filter, covered, size_limit) is Err,
    ensures
        collected(entries, filter, covered, size_limit) == collected(
            entries.take(k),
            filter,
            covered,
            size_limit,
        ),
    decreases entries.len() - k,
{
    if k < entries.len() {
        assert(entries.take(k + 1).drop_last() =~= entries.take(k));
        collected_fault(entries, filter, covered, size_limit, k + 1);
    } else {
        assert(entries.take(k) =~= entries);
    }
}

/// What is collected, as it would be with the deadline found to have passed
/// before the entry at `stop`, or late.
pub open spec fn collected_until(
    entries: Seq<DirectoryEntry>,
    filter: PreparedLdapFilter,
    covered: bool,
    size_limit: u32,
    stop: int,
    late: bool,
    r: Result<NativePagedSearchCollection, String>,
) -> bool {
    &&& 0 <= stop <= entries.len()
    &&& match (collected(entries.take(stop), filter, covered, size_limit), r) {
        (Ok(v), Ok(c)) => c.entries@ == v.entries && c.size_limit_hit == v.full
            && c.time_limit_hit == (late || (!v.full && stop < entries.len())),
        (Err(t), Err(e)) => e@ == t,
        _ => false,
    }
}

/// What is collected of entries before the deadline, which is looked at before
/// each entry and at the end. Without a deadline everything is looked at.
pub fn collect_native_paged_search_entries(
    entries: Vec<DirectoryEntry>,
    filter: &PreparedLdapFilter,
    covered: bool,
    size_limit: u32,
    deadline: Option<Deadline>,
) -> (r: Result<NativePagedSearchCollection, String>)
    ensures
        exists|stop: int, late: bool|
            #[trigger] collected_until(
                entries@,
                *filter,
                covered,
                size_limit,
                stop,
                late,
                r,
            ) && (deadline is None ==> stop == entries@.len() && !late),
{
    let ghost all = entries@;
    let n = entries.len();
    let mut rest = Queue::of(entries);
    let mut out = Collector::new();
    let mut time_limit_hit = false;
    let mut i: usize = 0;
    proof {
        assert(all.skip(0) =~= all);
        assert(all.take(0) =~= Seq::<DirectoryEntry>::empty());
    }
    while i < n && !out.full && !time_limit_hit
        invariant
            n == all.len(),
            i <= n,
            all == entries@,
            rest@ == all.skip(i as int),
            collected(all.take(i as int), *filter, covered, size_limit) == Ok::<
                CollectView,
                Seq<char>,
            >(out@),
            time_limit_hit ==> deadline is Some && i < n && !out.full,
        decreases n - i, if time_limit_hit {
            0int
        } else {
            1int
        },
    {
        let passed = match &deadline {
            Some(d) => d.passed(),
            None => false,
        };
        if passed {
            time_limit_hit = true;
        } else {
            let entry = rest.next();
            proof {
                assert(all.skip(i as int)[0] == all[i as int]);
                assert(rest@ =~= all.skip(i + 1));
                assert(all.take(i + 1).drop_last() =~= all.take(i as int));
                assert(all.take(i + 1).last() == all[i as int]);
            }
            match out.offer(entry, filter, covered, size_limit) {
                Ok(_) => {},
                Err(e) => {
                    let r = Err(e);
                    proof {
                        collected_fault(all, *filter, covered, size_limit, i + 1);
                        assert(all.take(all.len() as int) =~= all);
                        assert(collected_until(
                            all,
                            *filter,
                            covered,
                            size_limit,
                            all.len() as int,
                            false,
                            r,
                        ));
                    }
                    return r;
                },
            }
            i = i + 1;
        }
    }
    let late = if time_limit_hit {
        false
    } else {
        match &deadline {
            Some(d) => d.passed(),
            None => false,
        }
    };
    let r = Ok(
        NativePagedSearchCollection {
            entries: out.entries,
            size_limit_hit: out.full,
            time_limit_hit: time_limit_hit || late,
        },
    );
    proof {
        if out.full {
            full_takes_no_more(all, *filter, covered, size_limit, i as int);
            assert(all.take(all.len() as int) =~= all);
            assert(collected_until(
                all,
                *filter,
                covered,
                size_limit,
                all.len() as int,
                late,
                r,
            ));
        } else {
            assert(collected_until(all, *filter, covered, size_limit, i as int, late, r));
        }
    }
    r
}

// ---------------------------------------------------------------------------
// Pages
// ---------------------------------------------------------------------------

/// What is kept of a search for its next pages.
#[derive(Debug, PartialEq, Eq)]
pub struct PagedSearchCursor {
    pub total_size: usize,
    pub remaining: Vec<DirectoryEntry>,
    /// What the last page is answered with.
    pub last_code: ResultCode,
    pub last_diagnostic: &'static str,
}

/// A page of a search.
#[derive(Debug, PartialEq, Eq)]
pub struct Page {
    pub entries: Vec<DirectoryEntry>,
    pub code: ResultCode,
    pub diagnostic: &'static str,
    /// No page follows.
    pub complete: bool,
}

/// The first so many of a sequence.
pub open spec fn first_ones(s: Seq<DirectoryEntry>, n: nat) -> Seq<DirectoryEntry> {
    if n < s.len() {
        s.take(n as int)
    } else {
        s
    }
}

/// All but the first so many of a sequence.
pub open spec fn later_ones(s: Seq<DirectoryEntry>, n: nat) -> Seq<DirectoryEntry> {
    if n < s.len() {
        s.skip(n as int)
    } else {
        Seq::empty()
    }
}

/// Takes the first so many entries, and leaves the others.
fn take_first(entries: &mut Vec<DirectoryEntry>, n: usize) -> (r: Vec<DirectoryEntry>)
    ensures
        r@ == first_ones(old(entries)@, n as nat),
        final(entries)@ == later_ones(old(entries)@, n as nat),
{
    let ghost all = entries@;
    if n < entries.len() {
        let rest = entries.split_off(n);
        let mut rest = rest;
        std::mem::swap(entries, &mut rest);
        proof {
            assert(rest@ =~= all.take(n as int));
            assert(entries@ =~= all.skip(n as int));
        }
        rest
    } else {
        let mut none: Vec<DirectoryEntry> = Vec::new();
        std::mem::swap(entries, &mut none);
        none
    }
}

impl PagedSearchCursor {
    /// The next page: as many of the remaining entries as it is to hold. The
    /// last page has the code and the text that the search ended with.
    pub fn next_page(&mut self, size: usize) -> (r: Page)
        ensures
            r.entries@ == first_ones(old(self).remaining@, size as nat),
            final(self).remaining@ == later_ones(old(self).remaining@, size as nat),
            r.complete == (final(self).remaining@.len() == 0),
            r.complete ==> r.code == old(self).last_code && r.diagnostic@
                == old(self).last_diagnostic@,
            !r.complete ==> r.code == ResultCode::Success && r.diagnostic@ == ""@,
            final(self).total_size == old(self).total_size,
            final(self).last_code == old(self).last_code,
            final(self).last_diagnostic == old(self).last_diagnostic,
    {
        let entries = take_first(&mut self.remaining, size);
        if self.remaining.len() == 0 {
            Page {
                entries,
                code: self.last_code,
                diagnostic: self.last_diagnostic,
                complete: true,
            }
        } else {
            Page { entries, code: ResultCode::Success, diagnostic: "", complete: false }
        }
    }
}

/// The first page of a search, and what is kept for the next ones.
#[derive(Debug, PartialEq, Eq)]
pub struct FirstPage {
    pub entries: Vec<DirectoryEntry>,
    pub cursor: Option<PagedSearchCursor>,
    pub total_size: usize,
    pub code: ResultCode,
    pub diagnostic: &'static str,
}

/// The first page of what was collected.
pub fn first_page(collection: NativePagedSearchCollection, page_size: usize) -> (r: FirstPage)
    ensures
        r.total_size == collection.entries@.len(),
        r.entries@ == first_ones(collection.entries@, page_size as nat),
        collection.time_limit_hit ==> r.cursor is None && r.code == ResultCode::TimeLimitExceeded
            && r.diagnostic@ == "time limit exceeded"@,
        !collection.time_limit_hit && collection.entries@.len() > page_size ==> {
            &&& r.cursor matches Some(c) && c.total_size == collection.entries@.len()
                && c.remaining@ == later_ones(collection.entries@, page_size as nat) && (
            if collection.size_limit_hit {
                c.last_code == ResultCode::SizeLimitExceeded && c.last_diagnostic@
                    == "size limit exceeded"@
            } else {
                c.last_code == ResultCode::Success && c.last_diagnostic@ == ""@
            })
            &&& r.code == ResultCode::Success
            &&& r.diagnostic@ == ""@
        },
        !collection.time_limit_hit && collection.entries@.len() <= page_size ==> r.cursor is None
            && (if collection.size_limit_hit {
            r.code == ResultCode::SizeLimitExceeded && r.diagnostic@ == "size limit exceeded"@
        } else {
            r.code == ResultCode::Success && r.diagnostic@ == ""@
        }),
{
    let total_size = collection.entries.len();
    let size_limit_hit = collection.size_limit_hit;
    let mut entries = collection.entries;
    let page = take_first(&mut entries, page_size);
    if collection.time_limit_hit {
        return FirstPage {
            entries: page,
            cursor: None,
            total_size,
            code: ResultCode::TimeLimitExceeded,
            diagnostic: "time limit exceeded",
        };
    }
    if total_size > page_size {
        let cursor = PagedSearchCursor {
            total_size,
            remaining: entries,
            last_code: if size_limit_hit {
                ResultCode::SizeLimitExceeded
            } else {
                ResultCode::Success
            },
            last_diagnostic: if size_limit_hit {
                "size limit exceeded"
            } else {
                ""
            },
        };
        return FirstPage {
            entries: page,
            cursor: Some(cursor),
            total_size,
            code: ResultCode::Success,
            diagnostic: "",
        };
    }
    if size_limit_hit {
        FirstPage {
            entries: page,
            cursor: None,
            total_size,
            code: ResultCode::SizeLimitExceeded,
            diagnostic: "size limit exceeded",
        }
    } else {
        FirstPage {
            entries: page,
            cursor: None,
            total_size,
            code: ResultCode::Success,
            diagnostic: "",
        }
    }
}

/// The answer where an entry cannot be tested while the first page is made.
pub fn answer_uncollected(head: RequestHead, base_dn: &str, diagnostic: &str) -> (r: SearchReply)
    ensures
        r@ == search_controls::told(head, ResultCode::Unavailable, base_dn@, diagnostic@),
{
    SearchReply::told(head, ResultCode::Unavailable, base_dn, diagnostic)
}

/// The answer after a page: its control, and the control for the order where
/// one was asked for. A page that was over its time has no page after it.
pub open spec fn page_answer(
    head: RequestHead,
    base_dn: Seq<char>,
    sorted: bool,
    total_size: nat,
    cookie: Seq<u8>,
    code: ResultCode,
    diagnostic: Seq<char>,
    over_time: bool,
) -> SearchReplyView {
    let code = if over_time {
        ResultCode::TimeLimitExceeded
    } else {
        code
    };
    let diagnostic = if over_time {
        "time limit exceeded"@
    } else {
        diagnostic
    };
    SearchReplyView {
        controls: seq![
            search_controls::page_told(
                total_size,
                if over_time {
                    Seq::empty()
                } else {
                    cookie
                },
            ),
        ] + search_controls::done_controls(sorted, code),
        ..search_controls::told(head, code, base_dn, diagnostic)
    }
}

/// The answer after a page.
pub fn answer_page(
    head: RequestHead,
    base_dn: &str,
    sorted: bool,
    total_size: usize,
    cookie: Vec<u8>,
    code: ResultCode,
    diagnostic: &str,
    over_time: bool,
) -> (r: SearchReply)
    ensures
        r@ == page_answer(
            head,
            base_dn@,
            sorted,
            total_size as nat,
            cookie@,
            code,
            diagnostic@,
            over_time,
        ),
{
    let cookie = if over_time {
        Vec::new()
    } else {
        cookie
    };
    let ghost sent = cookie@;
    let code = if over_time {
        ResultCode::TimeLimitExceeded
    } else {
        code
    };
    let diagnostic = if over_time {
        "time limit exceeded"
    } else {
        diagnostic
    };
    let mut controls: Vec<ResponseControl> = Vec::new();
    controls.push(native_paged_results_response_control(total_size, cookie));
    let mut more = native_search_done_controls(sorted, code);
    let ghost first = controls@;
    let ghost second = more@;
    controls.append(&mut more);
    proof {
        let all = search_controls::response_control_views(controls@);
        assert(search_controls::response_control_views(second) == search_controls::done_controls(
            sorted,
            code,
        ));
        assert(all =~= search_controls::response_control_views(first)
            + search_controls::response_control_views(second));
        assert(search_controls::response_control_views(first) =~= seq![
            search_controls::page_told(total_size as nat, sent),
        ]);
    }
    SearchReply::with_controls(head, code, base_dn, diagnostic, controls)
}

/// What is done for a request for the next page.
#[derive(Debug, PartialEq, Eq)]
#[allow(inconsistent_fields)]
pub enum ContinuationStep {
    Refuse(Ending),
    /// Forgets the search, raises the counter, and answers.
    Abandon { counter: &'static str, reply: SearchReply },
    /// Gives the next page.
    NextPage,
}

/// What a [`ContinuationStep`] says.
#[allow(inconsistent_fields)]
pub enum ContinuationView {
    Refuse(EndingView),
    Abandon { counter: Seq<char>, reply: SearchReplyView },
    NextPage,
}

impl View for ContinuationStep {
    type V = ContinuationView;

    open spec fn view(&self) -> ContinuationView {
        match self {
            ContinuationStep::Refuse(e) => ContinuationView::Refuse(e@),
            ContinuationStep::Abandon { counter, reply } => ContinuationView::Abandon {
                counter: counter@,
                reply: reply@,
            },
            ContinuationStep::NextPage => ContinuationView::NextPage,
        }
    }
}

/// What is done for a request for the next page: the cookie must be of a
/// search that is kept, and of the same search. A page of no size gives the
/// search up.
pub open spec fn continuation(
    head: RequestHead,
    base_dn: Seq<char>,
    page_size: u32,
    kept: bool,
    same_search: bool,
) -> ContinuationView {
    if !kept {
        ContinuationView::Refuse(
            search_controls::pages_refused(
                head,
                base_dn,
                PagedErrorView::InvalidCookie(
                    "paged results cookie is not valid for this search sequence"@,
                ),
            ),
        )
    } else if !same_search {
        ContinuationView::Refuse(
            search_controls::pages_refused(
                head,
                base_dn,
                PagedErrorView::InvalidCookie(
                    "paged results cookie does not match the active search sequence"@,
                ),
            ),
        )
    } else if page_size == 0 {
        ContinuationView::Abandon {
            counter: "ldap_paged_search_abandoned_total"@,
            reply: SearchReplyView {
                controls: seq![search_controls::page_told(0, Seq::empty())],
                ..search_controls::told(head, ResultCode::Success, base_dn, ""@)
            },
        }
    } else {
        ContinuationView::NextPage
    }
}

/// What is done for a request for the next page.
pub fn handle_native_paged_search_continuation(
    head: RequestHead,
    base_dn: &str,
    control: &PagedResultsControl,
    kept: bool,
    same_search: bool,
) -> (r: ContinuationStep)
    ensures
        r@ == continuation(head, base_dn@, control.size, kept, same_search),
{
    if !kept {
        return ContinuationStep::Refuse(
            reject_native_paged_search_request(
                head,
                base_dn,
                &NativePagedSearchError::InvalidCookie(
                    "paged results cookie is not valid for this search sequence".to_owned(),
                ),
            ),
        );
    }
    if !same_search {
        return ContinuationStep::Refuse(
            reject_native_paged_search_request(
                head,
                base_dn,
                &NativePagedSearchError::InvalidCookie(
                    "paged results cookie does not match the active search sequence".to_owned(),
                ),
            ),
        );
    }
    if control.size == 0 {
        let mut controls: Vec<ResponseControl> = Vec::new();
        let none: Vec<u8> = Vec::new();
        controls.push(native_paged_results_response_control(0, none));
        proof {
            assert(none@ =~= Seq::<u8>::empty());
            assert(search_controls::response_control_views(controls@) =~= seq![
                search_controls::page_told(0, Seq::empty()),
            ]);
        }
        return ContinuationStep::Abandon {
            counter: "ldap_paged_search_abandoned_total",
            reply: SearchReply::with_controls(head, ResultCode::Success, base_dn, "", controls),
        };
    }
    ContinuationStep::NextPage
}

// ---------------------------------------------------------------------------
// Laws
// ---------------------------------------------------------------------------

/// Pages lose nothing and give nothing twice: a page and what is left after it
/// are what there was before.
pub proof fn pages_lose_nothing(entries: Seq<DirectoryEntry>, page_size: nat)
    ensures
        first_ones(entries, page_size) + later_ones(entries, page_size) == entries,
        first_ones(entries, page_size).len() <= page_size,
        page_size > 0 && entries.len() > 0 ==> later_ones(entries, page_size).len()
            < entries.len(),
{
    if page_size < entries.len() {
        assert(entries.take(page_size as int) + entries.skip(page_size as int) =~= entries);
    } else {
        assert(entries + Seq::<DirectoryEntry>::empty() =~= entries);
    }
}

/// The entries that so many pages give, one after the other.
pub open spec fn pages_given(entries: Seq<DirectoryEntry>, page_size: nat, pages: nat) -> Seq<
    DirectoryEntry,
>
    decreases pages,
{
    if pages == 0 {
        Seq::empty()
    } else {
        first_ones(entries, page_size) + pages_given(
            later_ones(entries, page_size),
            page_size,
            (pages - 1) as nat,
        )
    }
}

/// As many pages as there are entries give all entries in their order.
pub proof fn enough_pages_give_all(entries: Seq<DirectoryEntry>, page_size: nat, pages: nat)
    requires
        page_size > 0,
        pages >= entries.len(),
    ensures
        pages_given(entries, page_size, pages) == entries,
    decreases pages,
{
    if pages == 0 {
        assert(entries =~= Seq::<DirectoryEntry>::empty());
    } else {
        pages_lose_nothing(entries, page_size);
        if entries.len() == 0 {
            assert(later_ones(entries, page_size) =~= Seq::<DirectoryEntry>::empty());
        }
        enough_pages_give_all(later_ones(entries, page_size), page_size, (pages - 1) as nat);
    }
}

/// What is collected is within the size limit, and no name is collected twice.
pub proof fn collection_is_within_limits(
    entries: Seq<DirectoryEntry>,
    filter: PreparedLdapFilter,
    covered: bool,
    size_limit: u32,
)
    requires
        collected(entries, filter, covered, size_limit) is Ok,
    ensures
        size_limit != 0 ==> (collected(entries, filter, covered, size_limit)->Ok_0).entries.len()
            <= size_limit,
        names_apart((collected(entries, filter, covered, size_limit)->Ok_0).entries),
    decreases entries.len(),
{
    collected_names(entries, filter, covered, size_limit);
    if entries.len() > 0 {
        collection_is_within_limits(entries.drop_last(), filter, covered, size_limit);
    }
}

/// No two entries have the same name.
pub open spec fn names_apart(entries: Seq<DirectoryEntry>) -> bool {
    forall|i: int, j: int|
        0 <= i < j < entries.len() ==> search_entries::normalized_dn((#[trigger] entries[i]).dn@)
            != search_entries::normalized_dn((#[trigger] entries[j]).dn@)
}

proof fn collected_names(
    entries: Seq<DirectoryEntry>,
    filter: PreparedLdapFilter,
    covered: bool,
    size_limit: u32,
)
    requires
        collected(entries, filter, covered, size_limit) is Ok,
    ensures
        ({
            let v = collected(entries, filter, covered, size_limit)->Ok_0;
            &&& names_apart(v.entries)
            &&& forall|i: int|
                0 <= i < v.entries.len() ==> v.returned.contains(
                    search_entries::normalized_dn((#[trigger] v.entries[i]).dn@),
                )
        }),
    decreases entries.len(),
{
    if entries.len() > 0 {
        let front = entries.drop_last();
        collected_names(front, filter, covered, size_limit);
        let u = collected(front, filter, covered, size_limit)->Ok_0;
        let v = collected(entries, filter, covered, size_limit)->Ok_0;
        let e = entries.last();
        let key = search_entries::normalized_dn(e.dn@);
        assert forall|i: int| 0 <= i < v.entries.len() implies v.returned.contains(
            search_entries::normalized_dn((#[trigger] v.entries[i]).dn@),
        ) by {
            if i < u.entries.len() {
                assert(v.entries[i] == u.entries[i]);
                let k = search_entries::normalized_dn(u.entries[i].dn@);
                assert(u.returned.contains(k));
                let m = choose|m: int| 0 <= m < u.returned.len() && u.returned[m] == k;
                assert(v.returned[m] == k);
            } else {
                assert(v.entries[i] == e);
                assert(v.returned[u.returned.len() as int] == key);
            }
        }
        assert forall|i: int, j: int| 0 <= i < j < v.entries.len() implies
            search_entries::normalized_dn((#[trigger] v.entries[i]).dn@)
            != search_entries::normalized_dn((#[trigger] v.entries[j]).dn@) by {
            assert(v.entries[i] == u.entries[i]);
            if j < u.entries.len() {
                assert(v.entries[j] == u.entries[j]);
            } else {
                assert(u.returned.contains(
                    search_entries::normalized_dn(u.entries[i].dn@),
                ));
            }
        }
    }
}

/// The entry belongs to what is searched for: the index covers the filter, or
/// the entry matches it.
pub open spec fn is_wanted(e: DirectoryEntry, filter: PreparedLdapFilter, covered: bool) -> bool {
    covered || search_stream::filter_verdict(e, filter) == Ok::<bool, Seq<char>>(true)
}

/// The places of the entries that are collected where there is no limit: of
/// each name the first entry that is wanted.
pub open spec fn wanted_places(
    entries: Seq<DirectoryEntry>,
    filter: PreparedLdapFilter,
    covered: bool,
) -> Seq<int>
    decreases entries.len(),
{
    if entries.len() == 0 {
        Seq::empty()
    } else {
        let before = wanted_places(entries.drop_last(), filter, covered);
        let e = entries.last();
        if is_wanted(e, filter, covered) && forall|i: int|
            0 <= i < before.len() ==> search_entries::normalized_dn(
                entries[#[trigger] before[i]].dn@,
            ) != search_entries::normalized_dn(e.dn@) {
            before.push(entries.len() - 1)
        } else {
            before
        }
    }
}

proof fn collected_at_places(
    entries: Seq<DirectoryEntry>,
    filter: PreparedLdapFilter,
    covered: bool,
)
    requires
        collected(entries, filter, covered, 0) is Ok,
    ensures
        ({
            let v = collected(entries, filter, covered, 0)->Ok_0;
            let places = wanted_places(entries, filter, covered);
            &&& !v.full
            &&& v.entries.len() == places.len()
            &&& v.returned.len() == places.len()
            &&& forall|i: int|
                0 <= i < places.len() ==> 0 <= #[trigger] places[i] < entries.len() && v.entries[i]
                    == entries[places[i]] && v.returned[i] == search_entries::normalized_dn(
                    entries[places[i]].dn@,
                ) && is_wanted(entries[places[i]], filter, covered)
            &&& forall|i: int, j: int|
                0 <= i < j < places.len() ==> #[trigger] places[i] < #[trigger] places[j]
        }),
    decreases entries.len(),
{
    if entries.len() > 0 {
        let front = entries.drop_last();
        collected_at_places(front, filter, covered);
        let u = collected(front, filter, covered, 0)->Ok_0;
        let v = collected(entries, filter, covered, 0)->Ok_0;
        let before = wanted_places(front, filter, covered);
        let places = wanted_places(entries, filter, covered);
        let e = entries.last();
        let key = search_entries::normalized_dn(e.dn@);
        let fresh = forall|i: int|
            0 <= i < before.len() ==> search_entries::normalized_dn(
                entries[#[trigger] before[i]].dn@,
            ) != key;
        assert forall|i: int| 0 <= i < before.len() implies 0 <= #[trigger] before[i]
            < front.len() && entries[before[i]] == front[before[i]] && u.returned[i]
            == search_entries::normalized_dn(entries[before[i]].dn@) by {
        }
        if is_wanted(e, filter, covered) {
            if fresh {
                if u.returned.contains(key) {
                    let m = choose|m: int| 0 <= m < u.returned.len() && u.returned[m] == key;
                    assert(search_entries::normalized_dn(entries[before[m]].dn@) == key);
                    assert(false);
                }
                assert(v.entries == u.entries.push(e));
                assert(v.returned == u.returned.push(key));
            } else {
                let m = choose|m: int|
                    0 <= m < before.len() && search_entries::normalized_dn(
                        entries[#[trigger] before[m]].dn@,
                    ) == key;
                assert(u.returned[m] == key);
                assert(u.returned.contains(key));
            }
        }
    }
}

proof fn wanted_names_have_a_place(
    entries: Seq<DirectoryEntry>,
    filter: PreparedLdapFilter,
    covered: bool,
    k: int,
) -> (i: int)
    requires
        collected(entries, filter, covered, 0) is Ok,
        0 <= k < entries.len(),
        is_wanted(entries[k], filter, covered),
    ensures
        0 <= i < wanted_places(entries, filter, covered).len(),
        search_entries::normalized_dn(
            entries[wanted_places(entries, filter, covered)[i]].dn@,
        ) == search_entries::normalized_dn(entries[k].dn@),
    decreases entries.len(),
{
    let front = entries.drop_last();
    let before = wanted_places(front, filter, covered);
    let places = wanted_places(entries, filter, covered);
    collected_at_places(front, filter, covered);
    if k < entries.len() - 1 {
        let i = wanted_names_have_a_place(front, filter, covered, k);
        assert(entries[before[i]] == front[before[i]]);
        assert(places[i] == before[i]);
        i
    } else if places.len() > before.len() {
        places.len() - 1
    } else {
        choose|m: int|
            0 <= m < before.len() && search_entries::normalized_dn(
                entries[#[trigger] before[m]].dn@,
            ) == search_entries::normalized_dn(entries[k].dn@)
    }
}

/// Without a size limit each name that is searched for is collected exactly
/// once, nothing else is, and the entries keep their order.
pub proof fn every_match_is_collected_once(
    entries: Seq<DirectoryEntry>,
    filter: PreparedLdapFilter,
    covered: bool,
)
    requires
        collected(entries, filter, covered, 0) is Ok,
    ensures
        ({
            let v = (collected(entries, filter, covered, 0)->Ok_0).entries;
            let places = wanted_places(entries, filter, covered);
            &&& !(collected(entries, filter, covered, 0)->Ok_0).full
            &&& names_apart(v)
            &&& forall|k: int|
                0 <= k < entries.len() && is_wanted(#[trigger] entries[k], filter, covered)
                    ==> exists|i: int|
                    0 <= i < v.len() && search_entries::normalized_dn((#[trigger] v[i]).dn@)
                        == search_entries::normalized_dn(entries[k].dn@)
            &&& v.len() == places.len()
            &&& forall|i: int|
                0 <= i < v.len() ==> 0 <= #[trigger] places[i] < entries.len() && v[i]
                    == entries[places[i]] && is_wanted(v[i], filter, covered)
            &&& forall|i: int, j: int|
                0 <= i < j < v.len() ==> #[trigger] places[i] < #[trigger] places[j]
        }),
{
    let v = (collected(entries, filter, covered, 0)->Ok_0).entries;
    let places = wanted_places(entries, filter, covered);
    collected_at_places(entries, filter, covered);
    collected_names(entries, filter, covered, 0);
    assert forall|k: int|
        0 <= k < entries.len() && is_wanted(#[trigger] entries[k], filter, covered) implies exists|
        i: int,
    |
        0 <= i < v.len() && search_entries::normalized_dn((#[trigger] v[i]).dn@)
            == search_entries::normalized_dn(entries[k].dn@) by {
        let i = wanted_names_have_a_place(entries, filter, covered, k);
        assert(v[i] == entries[places[i]]);
    }
}

/// A page as it is given: its entries, how many the search has in all, and
/// whether a page follows.
pub struct GivenPage {
    pub entries: Seq<DirectoryEntry>,
    pub total: nat,
    pub more: bool,
}

/// The pages that a search gives, one for each request, until none follows.
pub open spec fn given_pages(entries: Seq<DirectoryEntry>, page_size: nat, total: nat) -> Seq<
    GivenPage,
>
    decreases entries.len(),
{
    let rest = later_ones(entries, page_size);
    let page = GivenPage {
        entries: first_ones(entries, page_size),
        total,
        more: rest.len() > 0,
    };
    if rest.len() > 0 && rest.len() < entries.len() {
        seq![page] + given_pages(rest, page_size, total)
    } else {
        seq![page]
    }
}

/// The entries of all pages.
pub open spec fn on_pages(pages: Seq<GivenPage>) -> Seq<DirectoryEntry>
    decreases pages.len(),
{
    if pages.len() == 0 {
        Seq::empty()
    } else {
        pages.first().entries + on_pages(pages.drop_first())
    }
}

/// The answer after a page. The cookie goes with it where a page follows.
pub open spec fn page_reply(
    page: GivenPage,
    head: RequestHead,
    base_dn: Seq<char>,
    sorted: bool,
    cookie: Seq<u8>,
) -> SearchReplyView {
    page_answer(
        head,
        base_dn,
        sorted,
        page.total,
        if page.more {
            cookie
        } else {
            Seq::empty()
        },
        ResultCode::Success,
        ""@,
        false,
    )
}

proof fn pages_in_their_order(entries: Seq<DirectoryEntry>, page_size: nat, total: nat)
    requires
        page_size > 0,
    ensures
        ({
            let pages = given_pages(entries, page_size, total);
            &&& pages.len() > 0
            &&& on_pages(pages) == entries
            &&& forall|i: int|
                0 <= i < pages.len() ==> (#[trigger] pages[i]).entries.len() <= page_size
                    && pages[i].total == total && pages[i].more == (i < pages.len() - 1)
        }),
    decreases entries.len(),
{
    let pages = given_pages(entries, page_size, total);
    let rest = later_ones(entries, page_size);
    pages_lose_nothing(entries, page_size);
    if rest.len() > 0 {
        let later = given_pages(rest, page_size, total);
        pages_in_their_order(rest, page_size, total);
        assert(pages.first().entries == first_ones(entries, page_size));
        assert(pages.drop_first() =~= later);
        assert(on_pages(pages) == first_ones(entries, page_size) + on_pages(later));
        assert forall|i: int| 0 <= i < pages.len() implies (#[trigger] pages[i]).entries.len()
            <= page_size && pages[i].total == total && pages[i].more == (i < pages.len() - 1) by {
            if i > 0 {
                assert(pages[i] == later[i - 1]);
            }
        }
    } else {
        let none = pages.drop_first();
        assert(none =~= Seq::<GivenPage>::empty());
        assert(on_pages(none) =~= Seq::<DirectoryEntry>::empty());
        assert(pages.first().entries == first_ones(entries, page_size));
        assert(first_ones(entries, page_size) + Seq::<DirectoryEntry>::empty() =~= entries);
    }
}

/// A search without limits that is asked for page by page gives each name that
/// is searched for exactly once, in the order of the entries. No page is larger
/// than was asked for, each answer tells how many entries there are in all, and
/// only the last one has no cookie.
pub proof fn pages_of_a_search_give_every_match(
    entries: Seq<DirectoryEntry>,
    filter: PreparedLdapFilter,
    covered: bool,
    page_size: nat,
    head: RequestHead,
    base_dn: Seq<char>,
    sorted: bool,
    cookie: Seq<u8>,
)
    requires
        collected(entries, filter, covered, 0) is Ok,
        page_size > 0,
        cookie.len() > 0,
    ensures
        ({
            let found = (collected(entries, filter, covered, 0)->Ok_0).entries;
            let pages = given_pages(found, page_size, found.len());
            &&& pages.len() > 0
            &&& on_pages(pages) == found
            &&& names_apart(on_pages(pages))
            &&& forall|k: int|
                0 <= k < entries.len() && is_wanted(#[trigger] entries[k], filter, covered)
                    ==> exists|i: int|
                    0 <= i < on_pages(pages).len() && search_entries::normalized_dn(
                        (#[trigger] on_pages(pages)[i]).dn@,
                    ) == search_entries::normalized_dn(entries[k].dn@)
            &&& forall|i: int|
                0 <= i < on_pages(pages).len() ==> is_wanted(
                    #[trigger] on_pages(pages)[i],
                    filter,
                    covered,
                )
            &&& forall|i: int|
                0 <= i < pages.len() ==> (#[trigger] pages[i]).entries.len() <= page_size
                    && page_reply(pages[i], head, base_dn, sorted, cookie).code
                    == ResultCode::Success && page_reply(
                    pages[i],
                    head,
                    base_dn,
                    sorted,
                    cookie,
                ).controls[0] == search_controls::page_told(
                    found.len(),
                    if i == pages.len() - 1 {
                        Seq::empty()
                    } else {
                        cookie
                    },
                )
        }),
{
    let found = (collected(entries, filter, covered, 0)->Ok_0).entries;
    every_match_is_collected_once(entries, filter, covered);
    pages_in_their_order(found, page_size, found.len());
    let places = wanted_places(entries, filter, covered);
    assert forall|i: int| 0 <= i < found.len() implies is_wanted(
        #[trigger] found[i],
        filter,
        covered,
    ) by {
        assert(0 <= places[i] < entries.len());
    }
}

} // verus!
