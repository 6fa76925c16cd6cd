//! Laws of the controls of a search: which of them are granted, and what is
//! refused.

use vstd::prelude::*;

use crate::ldap_controls::{first_control, is_control, occurrences, ControlView};
use crate::response::{RequestHead, ResultCode};
use crate::search_controls::{
    control_step, counters_due, done_controls, is_search_control, known_to_search, looked_up,
    manage_dsa_it, order_refused, page_told, pages_refused, sort_fault, sort_fault_from,
    ControlFacts, ControlStepView, PagedErrorView, ResponseControlView, ServerSideSortResultCode,
    SortErrorView, SyncRequest,
};
use crate::search_entries::SortKey;
use crate::text;

verus! {

/// One of the controls has that identifier.
pub open spec fn present(cs: Seq<ControlView>, oid: Seq<char>) -> bool {
    exists|i: int| 0 <= i < cs.len() && text::lower((#[trigger] cs[i]).oid) == text::lower(oid)
}

/// Two of the controls have that identifier.
pub open spec fn twice(cs: Seq<ControlView>, oid: Seq<char>) -> bool {
    exists|i: int, j: int|
        0 <= i < j < cs.len() && text::lower((#[trigger] cs[i]).oid) == text::lower(oid)
            && text::lower((#[trigger] cs[j]).oid) == text::lower(oid)
}

proof fn occurrences_are_counted(cs: Seq<ControlView>, oid: Seq<char>)
    ensures
        occurrences(cs, oid) >= 1 <==> present(cs, oid),
        occurrences(cs, oid) >= 2 <==> twice(cs, oid),
    decreases cs.len(),
{
    if cs.len() > 0 {
        let front = cs.drop_last();
        let n = cs.len() - 1;
        occurrences_are_counted(front, oid);
        assert forall|i: int| 0 <= i < n implies #[trigger] front[i] == cs[i] by {}
        if present(front, oid) {
            let i = choose|i: int|
                0 <= i < front.len() && text::lower((#[trigger] front[i]).oid) == text::lower(oid);
            assert(text::lower(cs[i].oid) == text::lower(oid));
            if is_control(cs.last(), oid) {
                assert(text::lower(cs[n].oid) == text::lower(oid));
                assert(twice(cs, oid));
            }
        }
        if twice(front, oid) {
            let (i, j) = choose|i: int, j: int|
                0 <= i < j < front.len() && text::lower((#[trigger] front[i]).oid) == text::lower(
                    oid,
                ) && text::lower((#[trigger] front[j]).oid) == text::lower(oid);
            assert(text::lower(cs[i].oid) == text::lower(oid));
            assert(text::lower(cs[j].oid) == text::lower(oid));
            assert(twice(cs, oid));
        }
        if is_control(cs.last(), oid) {
            assert(text::lower(cs[n].oid) == text::lower(oid));
            assert(present(cs, oid));
        }
        if present(cs, oid) && !is_control(cs.last(), oid) {
            let i = choose|i: int|
                0 <= i < cs.len() && text::lower((#[trigger] cs[i]).oid) == text::lower(oid);
            assert(text::lower(front[i].oid) == text::lower(oid));
        }
        if twice(cs, oid) {
            let (i, j) = choose|i: int, j: int|
                0 <= i < j < cs.len() && text::lower((#[trigger] cs[i]).oid) == text::lower(oid)
                    && text::lower((#[trigger] cs[j]).oid) == text::lower(oid);
            assert(text::lower(front[i].oid) == text::lower(oid));
            assert(present(front, oid));
            if j < n {
                assert(text::lower(front[j].oid) == text::lower(oid));
                assert(twice(front, oid));
            }
        }
    }
}

proof fn first_is_one_of_them(cs: Seq<ControlView>, oid: Seq<char>)
    requires
        present(cs, oid),
    ensures
        exists|i: int|
            0 <= i < cs.len() && first_control(cs, oid) == Some(#[trigger] cs[i]) && text::lower(
                cs[i].oid,
            ) == text::lower(oid),
    decreases cs.len(),
{
    let k = choose|i: int|
        0 <= i < cs.len() && text::lower((#[trigger] cs[i]).oid) == text::lower(oid);
    if is_control(cs[0], oid) {
        assert(first_control(cs, oid) == Some(cs[0]));
    } else {
        let rest = cs.drop_first();
        assert(rest[k - 1] == cs[k]);
        first_is_one_of_them(rest, oid);
        let i = choose|i: int|
            0 <= i < rest.len() && first_control(rest, oid) == Some(#[trigger] rest[i])
                && text::lower(rest[i].oid) == text::lower(oid);
        assert(cs[i + 1] == rest[i]);
    }
}

/// Looking a control up gives the one with that identifier, without regard to
/// case; nothing where there is none, and a text where there are two.
pub proof fn one_control_is_looked_up(cs: Seq<ControlView>, oid: Seq<char>)
    ensures
        looked_up(cs, oid) is Err <==> twice(cs, oid),
        looked_up(cs, oid) == Ok::<Option<ControlView>, Seq<char>>(None) <==> !present(cs, oid),
        looked_up(cs, oid) matches Ok(Some(c)) ==> text::lower(c.oid) == text::lower(oid) && exists|
            i: int,
        |
            0 <= i < cs.len() && c == #[trigger] cs[i],
        present(cs, oid) && !twice(cs, oid) ==> looked_up(cs, oid) matches Ok(Some(_)),
{
    occurrences_are_counted(cs, oid);
    if present(cs, oid) {
        first_is_one_of_them(cs, oid);
    }
}

/// A search that goes on is granted what its controls ask for, and nothing
/// else: entries as they are, an order, pages, and changes, each exactly where
/// the one control for it is there.
pub proof fn what_is_asked_for_is_granted(
    head: RequestHead,
    base_dn: Seq<char>,
    cs: Seq<ControlView>,
    facts: ControlFacts,
    for_virtual: bool,
)
    ensures
        control_step(
            head,
            base_dn,
            cs,
            facts,
            for_virtual,
        ) matches ControlStepView::Go { manage_dsa_it, sorted, paged, sync } ==> {
            &&& manage_dsa_it == present(cs, "2.16.840.1.113730.3.4.2"@)
            &&& sorted == present(cs, "1.2.840.113556.1.4.473"@)
            &&& paged == present(cs, "1.2.840.113556.1.4.319"@)
            &&& sync == (facts.sync == Some(SyncRequest::Present))
            &&& !twice(cs, "2.16.840.1.113730.3.4.2"@)
            &&& !twice(cs, "1.2.840.113556.1.4.473"@)
            &&& !twice(cs, "1.2.840.113556.1.4.319"@)
            &&& sync ==> !paged && !sorted && !for_virtual
            &&& sorted ==> (facts.sort_keys matches Some(Ok(_)))
            &&& paged ==> (facts.page matches Some(Ok(page)) && (page.size > 0 || page.cookie@.len()
                > 0) && (for_virtual ==> page.cookie@.len() == 0))
        },
{
    one_control_is_looked_up(cs, "2.16.840.1.113730.3.4.2"@);
    one_control_is_looked_up(cs, "1.2.840.113556.1.4.473"@);
    one_control_is_looked_up(cs, "1.2.840.113556.1.4.319"@);
}

/// A search without any control goes on, once it is known that it asks for no
/// changes.
pub proof fn plain_searches_go_on(
    head: RequestHead,
    base_dn: Seq<char>,
    cs: Seq<ControlView>,
    facts: ControlFacts,
    for_virtual: bool,
)
    requires
        !present(cs, "2.16.840.1.113730.3.4.2"@),
        !present(cs, "1.2.840.113556.1.4.473"@),
        !present(cs, "1.2.840.113556.1.4.319"@),
    ensures
        facts.sync is None ==> control_step(head, base_dn, cs, facts, for_virtual)
            == ControlStepView::ParseSync,
        facts.sync == Some(SyncRequest::Malformed) ==> control_step(
            head,
            base_dn,
            cs,
            facts,
            for_virtual,
        ) == ControlStepView::RefuseMalformedSync,
        facts.sync == Some(SyncRequest::Absent) ==> control_step(
            head,
            base_dn,
            cs,
            facts,
            for_virtual,
        ) == (ControlStepView::Go {
            manage_dsa_it: false,
            sorted: false,
            paged: false,
            sync: false,
        }),
        facts.sync == Some(SyncRequest::Present) && !for_virtual ==> control_step(
            head,
            base_dn,
            cs,
            facts,
            for_virtual,
        ) == (ControlStepView::Go {
            manage_dsa_it: false,
            sorted: false,
            paged: false,
            sync: true,
        }),
        facts.sync == Some(SyncRequest::Present) && for_virtual ==> control_step(
            head,
            base_dn,
            cs,
            facts,
            for_virtual,
        ) is RefuseSync,
{
    one_control_is_looked_up(cs, "2.16.840.1.113730.3.4.2"@);
    one_control_is_looked_up(cs, "1.2.840.113556.1.4.473"@);
    one_control_is_looked_up(cs, "1.2.840.113556.1.4.319"@);
}

/// The value that is decoded is the one of the control that it is decoded for.
pub proof fn values_are_decoded_as_sent(
    head: RequestHead,
    base_dn: Seq<char>,
    cs: Seq<ControlView>,
    facts: ControlFacts,
    for_virtual: bool,
)
    ensures
        control_step(head, base_dn, cs, facts, for_virtual) matches ControlStepView::DecodeSort(
            value,
        ) ==> facts.sort_keys is None && exists|i: int|
            0 <= i < cs.len() && text::lower((#[trigger] cs[i]).oid) == text::lower(
                "1.2.840.113556.1.4.473"@,
            ) && cs[i].value == value,
        control_step(head, base_dn, cs, facts, for_virtual) matches ControlStepView::DecodePage(
            value,
        ) ==> facts.page is None && exists|i: int|
            0 <= i < cs.len() && text::lower((#[trigger] cs[i]).oid) == text::lower(
                "1.2.840.113556.1.4.319"@,
            ) && cs[i].value == value,
{
    one_control_is_looked_up(cs, "1.2.840.113556.1.4.473"@);
    one_control_is_looked_up(cs, "1.2.840.113556.1.4.319"@);
}

/// Controls that are there twice, that hold a value where none belongs, or
/// whose value is malformed end the search with a protocol error at its base,
/// and a first page of no size does too.
pub proof fn faulty_controls_are_refused(
    head: RequestHead,
    base_dn: Seq<char>,
    cs: Seq<ControlView>,
    facts: ControlFacts,
    for_virtual: bool,
)
    ensures
        twice(cs, "2.16.840.1.113730.3.4.2"@) || (looked_up(
            cs,
            "2.16.840.1.113730.3.4.2"@,
        ) matches Ok(Some(c)) && c.value is Some) ==> (control_step(
            head,
            base_dn,
            cs,
            facts,
            for_virtual,
        ) matches ControlStepView::Refuse(e) && e.reply.code == ResultCode::ProtocolError
            && e.reply.head == head && e.reply.matched_dn == base_dn),
        !present(cs, "2.16.840.1.113730.3.4.2"@) && (twice(cs, "1.2.840.113556.1.4.473"@) || (
        present(cs, "1.2.840.113556.1.4.473"@) && (facts.sort_keys matches Some(Err(_))))) ==> (
        control_step(head, base_dn, cs, facts, for_virtual) matches ControlStepView::Refuse(e)
            && e.reply.code == ResultCode::ProtocolError && e.reply.head == head
            && e.reply.matched_dn == base_dn),
        !present(cs, "2.16.840.1.113730.3.4.2"@) && !present(cs, "1.2.840.113556.1.4.473"@) && (
        twice(cs, "1.2.840.113556.1.4.319"@) || (present(cs, "1.2.840.113556.1.4.319"@) && (
        facts.page matches Some(Err(_))))) ==> (control_step(
            head,
            base_dn,
            cs,
            facts,
            for_virtual,
        ) matches ControlStepView::Refuse(e) && e.reply.code == ResultCode::ProtocolError
            && e.reply.head == head && e.reply.matched_dn == base_dn),
        !present(cs, "2.16.840.1.113730.3.4.2"@) && !present(cs, "1.2.840.113556.1.4.473"@)
            && present(cs, "1.2.840.113556.1.4.319"@) && !twice(cs, "1.2.840.113556.1.4.319"@)
            && facts.sync == Some(SyncRequest::Absent) && (facts.page matches Some(Ok(page))
            && page.size == 0 && page.cookie@.len() == 0) ==> (control_step(
            head,
            base_dn,
            cs,
            facts,
            for_virtual,
        ) matches ControlStepView::Refuse(e) && e.reply.code == ResultCode::ProtocolError),
{
    one_control_is_looked_up(cs, "2.16.840.1.113730.3.4.2"@);
    one_control_is_looked_up(cs, "1.2.840.113556.1.4.473"@);
    one_control_is_looked_up(cs, "1.2.840.113556.1.4.319"@);
}

proof fn faults_from(keys: Seq<SortKey>, critical: bool, from: int)
    requires
        0 <= from <= keys.len(),
    ensures
        sort_fault_from(keys, critical, from) is None <==> forall|i: int|
            from <= i < keys.len() ==> (#[trigger] keys[i]).ordering_rule is None && forall|j: int|
                0 <= j < i ==> text::lower((#[trigger] keys[j]).attribute_type@) != text::lower(
                    keys[i].attribute_type@,
                ),
    decreases keys.len() - from,
{
    if from < keys.len() {
        faults_from(keys, critical, from + 1);
        if sort_fault_from(keys, critical, from) is None {
            assert forall|i: int| from <= i < keys.len() implies (
            #[trigger] keys[i]).ordering_rule is None && forall|j: int|
                0 <= j < i ==> text::lower((#[trigger] keys[j]).attribute_type@) != text::lower(
                    keys[i].attribute_type@,
                ) by {
                if i > from {
                    assert(sort_fault_from(keys, critical, from + 1) is None);
                }
            }
        } else if forall|i: int|
            from <= i < keys.len() ==> (#[trigger] keys[i]).ordering_rule is None && forall|j: int|
                0 <= j < i ==> text::lower((#[trigger] keys[j]).attribute_type@) != text::lower(
                    keys[i].attribute_type@,
                ) {
            assert(keys[from].ordering_rule is None);
            assert(false);
        }
    }
}

/// An order is granted exactly where no attribute is named twice, without
/// regard to case, and no key asks for a rule of its own.
pub proof fn orders_are_granted(keys: Seq<SortKey>, critical: bool)
    ensures
        sort_fault(keys, critical) is None <==> forall|i: int|
            0 <= i < keys.len() ==> (#[trigger] keys[i]).ordering_rule is None && forall|j: int|
                0 <= j < i ==> text::lower((#[trigger] keys[j]).attribute_type@) != text::lower(
                    keys[i].attribute_type@,
                ),
        sort_fault(keys, critical) matches Some(e) ==> (e matches SortErrorView::Unsupported {
            attribute_type,
            critical: c,
            ..
        } && c == critical && exists|i: int|
            0 <= i < keys.len() && attribute_type == Some((#[trigger] keys[i]).attribute_type@)),
{
    faults_from(keys, critical, 0);
    faults_name_a_key(keys, critical, 0);
}

proof fn faults_name_a_key(keys: Seq<SortKey>, critical: bool, from: int)
    requires
        0 <= from <= keys.len(),
    ensures
        sort_fault_from(keys, critical, from) matches Some(e) ==> (
        e matches SortErrorView::Unsupported { attribute_type, critical: c, .. } && c == critical
            && exists|i: int|
            0 <= i < keys.len() && attribute_type == Some((#[trigger] keys[i]).attribute_type@)),
    decreases keys.len() - from,
{
    if from < keys.len() {
        faults_name_a_key(keys, critical, from + 1);
        assert(keys[from].attribute_type@ == keys[from].attribute_type@);
    }
}

/// An order that is not granted ends a search: as an unavailable critical
/// extension where the order was critical, else as a success; the client is
/// told which attribute it failed for.
pub proof fn refused_orders_are_told(
    head: RequestHead,
    base_dn: Seq<char>,
    result: ServerSideSortResultCode,
    attribute_type: Option<Seq<char>>,
    diagnostic: Seq<char>,
    critical: bool,
)
    ensures
        ({
            let e = order_refused(
                head,
                base_dn,
                SortErrorView::Unsupported { result, attribute_type, diagnostic, critical },
            );
            &&& e.reply.head == head
            &&& e.reply.matched_dn == base_dn
            &&& e.reply.diagnostic == diagnostic
            &&& e.reply.code == ResultCode::UnavailableCriticalExtension <==> critical
            &&& e.reply.code == ResultCode::Success <==> !critical
            &&& e.reply.controls.len() == 1
            &&& e.reply.controls[0] == (ResponseControlView::Sort {
                result,
                attribute: attribute_type,
            })
        }),
{
}

/// Pages that are not given end a search with the text of the error.
pub proof fn refused_pages_are_told(head: RequestHead, base_dn: Seq<char>, text: Seq<char>)
    ensures
        pages_refused(head, base_dn, PagedErrorView::InvalidCookie(text)).reply.code
            == ResultCode::UnwillingToPerform,
        pages_refused(head, base_dn, PagedErrorView::ProtocolError(text)).reply.code
            == ResultCode::ProtocolError,
        pages_refused(head, base_dn, PagedErrorView::InvalidCookie(text)).reply.diagnostic == text,
        pages_refused(head, base_dn, PagedErrorView::ProtocolError(text)).reply.diagnostic == text,
        pages_refused(head, base_dn, PagedErrorView::InvalidCookie(text)).reply.head == head,
        pages_refused(head, base_dn, PagedErrorView::ProtocolError(text)).reply.head == head,
{
}

/// A search tells how its order came out exactly where it asked for one, and
/// as over time exactly where it ran out of it; a page tells its cookie, and
/// the number of results as far as it can.
pub proof fn controls_of_an_end(sorted: bool, code: ResultCode, total: nat, cookie: Seq<u8>)
    ensures
        !sorted ==> done_controls(sorted, code).len() == 0,
        sorted ==> done_controls(sorted, code).len() == 1 && (done_controls(
            sorted,
            code,
        )[0] matches ResponseControlView::Sort { result, attribute } && attribute is None && (result
            == ServerSideSortResultCode::TimeLimitExceeded <==> code
            == ResultCode::TimeLimitExceeded) && (result == ServerSideSortResultCode::Success
            <==> code != ResultCode::TimeLimitExceeded)),
        page_told(total, cookie) matches ResponseControlView::Paged { size, cookie: told } && told
            == cookie && size <= total && (total <= u32::MAX ==> size == total),
{
}

/// A search of an entry that the server makes up knows four controls, in any
/// case of the letters of their identifiers, and no other.
pub proof fn searches_know_their_controls(cs: Seq<ControlView>)
    ensures
        known_to_search(cs) <==> forall|i: int|
            0 <= i < cs.len() ==> text::lower((#[trigger] cs[i]).oid) == text::lower(
                "2.16.840.1.113730.3.4.2"@,
            ) || text::lower(cs[i].oid) == text::lower("1.2.840.113556.1.4.319"@) || text::lower(
                cs[i].oid,
            ) == text::lower("1.2.840.113556.1.4.473"@) || text::lower(cs[i].oid) == text::lower(
                "1.3.6.1.4.1.4203.1.9.1.1"@,
            ),
{
    if known_to_search(cs) {
        assert forall|i: int| 0 <= i < cs.len() implies text::lower((#[trigger] cs[i]).oid)
            == text::lower("2.16.840.1.113730.3.4.2"@) || text::lower(cs[i].oid) == text::lower(
            "1.2.840.113556.1.4.319"@,
        ) || text::lower(cs[i].oid) == text::lower("1.2.840.113556.1.4.473"@) || text::lower(
            cs[i].oid,
        ) == text::lower("1.3.6.1.4.1.4203.1.9.1.1"@) by {
            assert(is_search_control(cs[i]));
        }
    }
}

/// A search that goes on raises the counters of what it was granted, each
/// once: that of entries as they are only where it is of an entry that the
/// server makes up.
pub proof fn granted_controls_are_counted(
    head: RequestHead,
    base_dn: Seq<char>,
    cs: Seq<ControlView>,
    facts: ControlFacts,
    for_virtual: bool,
)
    ensures
        control_step(
            head,
            base_dn,
            cs,
            facts,
            for_virtual,
        ) matches ControlStepView::Go { manage_dsa_it, sorted, paged, sync } ==> counters_due(
            cs,
            facts,
            for_virtual,
        ) == counter("ldap_manage_dsa_it_requests_total"@, manage_dsa_it && for_virtual) + counter(
            "ldap_sort_requests_total"@,
            sorted,
        ) + counter("ldap_paged_search_requests_total"@, paged) + counter(
            "ldap_sync_requests_total"@,
            sync,
        ),
{
    match control_step(head, base_dn, cs, facts, for_virtual) {
        ControlStepView::Go { manage_dsa_it, sorted, paged, sync } => {
            assert(counters_due(cs, facts, for_virtual) =~= counter(
                "ldap_manage_dsa_it_requests_total"@,
                manage_dsa_it && for_virtual,
            ) + counter("ldap_sort_requests_total"@, sorted) + counter(
                "ldap_paged_search_requests_total"@,
                paged,
            ) + counter("ldap_sync_requests_total"@, sync));
        },
        _ => {},
    }
}

/// The counter, where it is raised.
pub open spec fn counter(name: Seq<char>, raised: bool) -> Seq<Seq<char>> {
    if raised {
        seq![name]
    } else {
        Seq::empty()
    }
}

} // verus!
