//! Laws of searches in pages: what is on a page, and what goes with it.

use vstd::prelude::*;

use crate::directory::DirectoryEntry;
use crate::ldap_filter_eval::PreparedLdapFilter;
use crate::response::{RequestHead, ResultCode};
use crate::search_controls::{ResponseControlView, ServerSideSortResultCode};
use crate::search_paging::{
    collected, continuation, first_ones, later_ones, page_answer, CollectView, ContinuationView,
};

verus! {

/// A page is full while there is enough for it, and holds the next entries in
/// their order; what is left is what follows them.
pub proof fn pages_are_full(entries: Seq<DirectoryEntry>, size: nat, i: int)
    ensures
        first_ones(entries, size).len() == (if size < entries.len() {
            size
        } else {
            entries.len()
        }),
        0 <= i < first_ones(entries, size).len() ==> first_ones(entries, size)[i] == entries[i],
        later_ones(entries, size).len() == (if size < entries.len() {
            (entries.len() - size) as nat
        } else {
            0
        }),
        0 <= i < later_ones(entries, size).len() ==> later_ones(entries, size)[i] == entries[size
            + i],
{
}

/// What is collected up to a size limit is what would be collected without
/// one, cut off at the limit; that there is more is told exactly where there
/// is.
pub proof fn the_size_limit_cuts_off(
    entries: Seq<DirectoryEntry>,
    filter: PreparedLdapFilter,
    covered: bool,
    size_limit: u32,
)
    requires
        size_limit != 0,
        collected(entries, filter, covered, 0) is Ok,
    ensures
        collected(entries, filter, covered, size_limit) is Ok,
        ({
            let all = (collected(entries, filter, covered, 0)->Ok_0).entries;
            let some = collected(entries, filter, covered, size_limit)->Ok_0;
            &&& some.entries == first_ones(all, size_limit as nat)
            &&& some.full <==> all.len() > size_limit
        }),
{
    cut_off(entries, filter, covered, size_limit);
}

proof fn cut_off(
    entries: Seq<DirectoryEntry>,
    filter: PreparedLdapFilter,
    covered: bool,
    size_limit: u32,
)
    requires
        size_limit != 0,
        collected(entries, filter, covered, 0) is Ok,
    ensures
        collected(entries, filter, covered, size_limit) is Ok,
        ({
            let all = collected(entries, filter, covered, 0)->Ok_0;
            let some = collected(entries, filter, covered, size_limit)->Ok_0;
            &&& !all.full
            &&& some.entries == first_ones(all.entries, size_limit as nat)
            &&& some.full <==> all.entries.len() > size_limit
            &&& !some.full ==> some.returned == all.returned
        }),
    decreases entries.len(),
{
    if entries.len() > 0 {
        cut_off(entries.drop_last(), filter, covered, size_limit);
        let all = collected(entries, filter, covered, 0)->Ok_0;
        let some = collected(entries, filter, covered, size_limit)->Ok_0;
        let before: CollectView = collected(entries.drop_last(), filter, covered, 0)->Ok_0;
        if all.entries != before.entries {
            assert(all.entries =~= before.entries.push(entries.last()));
        }
        assert(some.entries =~= first_ones(all.entries, size_limit as nat));
    }
}

/// The answer after a page tells its cookie and how many results there are,
/// and how the order came out where one was asked for. A page that was over
/// its time ends the search.
pub proof fn pages_are_answered(
    head: RequestHead,
    base_dn: Seq<char>,
    sorted: bool,
    total_size: nat,
    cookie: Seq<u8>,
    code: ResultCode,
    diagnostic: Seq<char>,
    over_time: bool,
)
    requires
        total_size <= u32::MAX,
    ensures
        ({
            let a = page_answer(
                head,
                base_dn,
                sorted,
                total_size,
                cookie,
                code,
                diagnostic,
                over_time,
            );
            &&& a.head == head
            &&& a.matched_dn == base_dn
            &&& a.referrals.len() == 0
            &&& over_time ==> a.code == ResultCode::TimeLimitExceeded && a.diagnostic
                == "time limit exceeded"@
            &&& !over_time ==> a.code == code && a.diagnostic == diagnostic
            &&& a.controls.len() == (if sorted {
                2nat
            } else {
                1nat
            })
            &&& a.controls[0] == (ResponseControlView::Paged {
                size: total_size as u32,
                cookie: if over_time {
                    Seq::empty()
                } else {
                    cookie
                },
            })
            &&& sorted ==> a.controls[1] == (ResponseControlView::Sort {
                result: if a.code == ResultCode::TimeLimitExceeded {
                    ServerSideSortResultCode::TimeLimitExceeded
                } else {
                    ServerSideSortResultCode::Success
                },
                attribute: None,
            })
        }),
{
}

/// The next page is given for the cookie of a search that is kept, to the same
/// search; a page of no size gives the search up, and any other cookie is
/// refused.
pub proof fn cookies_belong_to_their_search(
    head: RequestHead,
    base_dn: Seq<char>,
    page_size: u32,
    kept: bool,
    same_search: bool,
)
    ensures
        ({
            let c = continuation(head, base_dn, page_size, kept, same_search);
            &&& c is NextPage <==> kept && same_search && page_size > 0
            &&& c is Abandon <==> kept && same_search && page_size == 0
            &&& c matches ContinuationView::Abandon { reply, .. } ==> reply.head == head
                && reply.code == ResultCode::Success && reply.controls.len() == 1
                && reply.controls[0] == (ResponseControlView::Paged {
                size: 0,
                cookie: Seq::empty(),
            })
            &&& c matches ContinuationView::Refuse(e) ==> e.reply.head == head && e.reply.code
                == ResultCode::UnwillingToPerform && e.reply.matched_dn == base_dn
        }),
{
}

} // verus!
