//! Laws of searches: what is asked for and given in which order, and what the
//! client is answered.

use vstd::prelude::*;

use crate::directory::DirectoryEntry;
use crate::fsm_write::Permission;
use crate::ldap_filter_eval;
use crate::ldap_filter_eval::{FilterSchemaError, PreparedLdapFilter};
use crate::response;
use crate::response::{BackendError, ResponseOp, ResultCode};
use crate::search_controls;
use crate::search_controls::ControlStepView;
use crate::search_entries;
use crate::search_entries::Referral;
use crate::search_request::{
    search_step, virtual_step, Asked, FilterHints, SearchFacts, SearchRequest, SearchStepView,
    VirtualFacts, VirtualStepView,
};
use crate::search_stream::{
    arrived, filter_verdict, machine_step, Arrival, MachineEvent, MachineState, MachineStepView,
    StreamRules, StreamStepView, StreamView,
};
use crate::text;

verus! {

/// The controls of the request are granted so.
pub open spec fn granted(req: SearchRequest, facts: SearchFacts, asked: Asked) -> bool {
    search_controls::control_step(
        req.head,
        text::trim(req.base@),
        req.controls@,
        facts.controls,
        false,
    ) == (ControlStepView::Go {
        manage_dsa_it: asked.manage_dsa_it,
        sorted: asked.sorted,
        paged: asked.paged,
        sync: asked.sync,
    })
}

/// The step ends the search with that code, that name and that text.
pub open spec fn ends(
    step: SearchStepView,
    req: SearchRequest,
    code: ResultCode,
    matched_dn: Seq<char>,
    diagnostic: Seq<char>,
) -> bool {
    step matches SearchStepView::Refuse(e) && e.reply.head == req.head && e.reply.code == code
        && e.reply.matched_dn == matched_dn && e.reply.diagnostic == diagnostic
        && e.reply.controls.len() == 0
}

/// A search whose controls are not granted is not looked at any further.
pub proof fn controls_come_first(req: SearchRequest, facts: SearchFacts)
    ensures
        !(exists|asked: Asked| #[trigger] granted(req, facts, asked)) ==> search_step(req, facts)
            == SearchStepView::Controls(
            search_controls::control_step(
                req.head,
                text::trim(req.base@),
                req.controls@,
                facts.controls,
                false,
            ),
        ),
{
    match search_controls::control_step(
        req.head,
        text::trim(req.base@),
        req.controls@,
        facts.controls,
        false,
    ) {
        ControlStepView::Go { manage_dsa_it, sorted, paged, sync } => {
            assert(granted(req, facts, Asked { manage_dsa_it, sorted, paged, sync }));
        },
        _ => {},
    }
}

/// A search has its filter prepared, then is asked for whether the client may
/// search its base, and has its base followed; each of these can end it.
pub proof fn a_search_is_prepared(req: SearchRequest, facts: SearchFacts, asked: Asked)
    requires
        granted(req, facts, asked),
    ensures
        facts.prepared is None ==> search_step(req, facts) == SearchStepView::PrepareFilter,
        facts.prepared matches Some(Err(e)) ==> ends(
            search_step(req, facts),
            req,
            match e {
                FilterSchemaError::UndefinedAttribute(_) => ResultCode::UndefinedAttributeType,
                FilterSchemaError::InappropriateMatching(_) => ResultCode::InappropriateMatching,
                FilterSchemaError::InvalidAttributeSyntax(_) => ResultCode::InvalidAttributeSyntax,
                FilterSchemaError::InvalidFilter(_) => ResultCode::ProtocolError,
            },
            ""@,
            ldap_filter_eval::filter_error_text(e@),
        ),
        (facts.prepared matches Some(Ok(_))) && facts.authorized is None ==> (search_step(
            req,
            facts,
        ) matches SearchStepView::Authorize(a) && a.message_id == req.head.message_id && a.op
            == ResponseOp::SearchDone && a.permission == Permission::Search && a.dn == text::trim(
            req.base@,
        ) && a.attribute is None),
        (facts.prepared matches Some(Ok(_))) && facts.authorized == Some(false) ==> search_step(
            req,
            facts,
        ) == SearchStepView::Stop,
        (facts.prepared matches Some(Ok(_))) && facts.authorized == Some(true)
            && facts.effective_base is None ==> search_step(req, facts)
            == SearchStepView::ResolveBase(text::trim(req.base@)),
        (facts.prepared matches Some(Ok(_))) && facts.authorized == Some(true) && (
        facts.effective_base matches Some(Err(_))) ==> ends(
            search_step(req, facts),
            req,
            facts.effective_base->0->Err_0.0,
            text::trim(req.base@),
            facts.effective_base->0->Err_0.1@,
        ),
{
}

/// A search that the client may make, of a valid filter and a base that was
/// followed.
pub open spec fn ready(
    req: SearchRequest,
    facts: SearchFacts,
    asked: Asked,
    hints: FilterHints,
    base: String,
) -> bool {
    &&& granted(req, facts, asked)
    &&& facts.prepared == Some(Ok::<FilterHints, FilterSchemaError>(hints))
    &&& facts.authorized == Some(true)
    &&& facts.effective_base == Some(Ok::<String, (ResultCode, String)>(base))
}

/// Whatever is asked of the directory, or handed on, is about the base that
/// was followed.
pub proof fn the_followed_base_is_searched(
    req: SearchRequest,
    facts: SearchFacts,
    asked: Asked,
    hints: FilterHints,
    base: String,
)
    requires
        ready(req, facts, asked, hints, base),
    ensures
        search_step(req, facts) matches SearchStepView::Sync(dn) ==> dn == base@,
        search_step(req, facts) matches SearchStepView::LookUpBase(dn) ==> dn == base@,
        search_step(req, facts) matches SearchStepView::StreamProjected(dn) ==> dn == base@,
        search_step(req, facts) matches SearchStepView::Stream(dn) ==> dn == base@,
        search_step(req, facts) matches SearchStepView::Load(dn) ==> dn == base@,
        search_step(req, facts) matches SearchStepView::RunMachine { base: dn, .. } ==> dn == base@,
{
}

/// Changes are given exactly where they are asked for; where the search is of
/// its base alone and referrals are told, the base is looked at first, and a
/// base that refers to other servers is answered as such.
pub proof fn changes_are_given_where_asked_for(
    req: SearchRequest,
    facts: SearchFacts,
    asked: Asked,
    hints: FilterHints,
    base: String,
)
    requires
        ready(req, facts, asked, hints, base),
    ensures
        search_step(req, facts) is Sync ==> asked.sync,
        asked.sync && (asked.manage_dsa_it || req.scope != 0) ==> search_step(req, facts)
            == SearchStepView::Sync(base@),
        asked.sync && !asked.manage_dsa_it && req.scope == 0 ==> match facts.base_entry {
            None => search_step(req, facts) == SearchStepView::LookUpBase(base@),
            Some(Err(err)) => ends(
                search_step(req, facts),
                req,
                response::backend_code(err),
                ""@,
                response::backend_text(err),
            ),
            Some(Ok(None)) => search_step(req, facts) == SearchStepView::Sync(base@),
            Some(Ok(Some(Ok(urls)))) => ends(
                search_step(req, facts),
                req,
                ResultCode::Referral,
                base@,
                "search base is a referral"@,
            ) && search_step(req, facts)->Refuse_0.reply.referrals == text::texts(urls@),
            Some(Ok(Some(Err(diagnostic)))) => ends(
                search_step(req, facts),
                req,
                ResultCode::OperationsError,
                ""@,
                diagnostic@,
            ),
        },
{
}

/// A search with a cookie goes on with the pages that are kept for it.
pub proof fn a_cookie_continues_pages(
    req: SearchRequest,
    facts: SearchFacts,
    asked: Asked,
    hints: FilterHints,
    base: String,
)
    requires
        ready(req, facts, asked, hints, base),
        !asked.sync,
    ensures
        search_step(req, facts) is ContinuePages <==> asked.paged && (
        facts.controls.page matches Some(Ok(page)) && page.cookie@.len() > 0),
{
}

/// The search asks for new entries.
pub open spec fn begins(
    req: SearchRequest,
    facts: SearchFacts,
    asked: Asked,
    hints: FilterHints,
    base: String,
) -> bool {
    ready(req, facts, asked, hints, base) && !asked.sync && !(asked.paged && (
    facts.controls.page matches Some(Ok(page)) && page.cookie@.len() > 0))
}

/// Entries can go out one by one: the directory gives them so, the client may
/// read them all, and neither pages, nor an order, nor the aliases among the
/// entries are asked for.
pub open spec fn one_by_one(req: SearchRequest, facts: SearchFacts, asked: Asked) -> bool {
    facts.streams && facts.reads_all && !asked.paged && !asked.sorted && req.deref_aliases != 1
        && req.deref_aliases != 3
}

/// Where entries can go out one by one, they do, held against the filter
/// unless the index covers it exactly; else they are loaded.
pub proof fn entries_go_out_one_by_one(
    req: SearchRequest,
    facts: SearchFacts,
    asked: Asked,
    hints: FilterHints,
    base: String,
)
    requires
        begins(req, facts, asked, hints, base),
    ensures
        !one_by_one(req, facts, asked) && facts.loaded is None ==> search_step(req, facts)
            == SearchStepView::Load(base@),
        !one_by_one(req, facts, asked) && (facts.loaded matches Some(Err(_))) ==> ends(
            search_step(req, facts),
            req,
            response::backend_code(facts.loaded->0->Err_0),
            ""@,
            response::backend_text(facts.loaded->0->Err_0),
        ),
        one_by_one(req, facts, asked) ==> ({
            let projects = hints.exact && hints.hinted && hints.equality;
            let plainly = !projects || facts.projected == Some(Ok::<bool, BackendError>(false));
            &&& projects && facts.projected is None ==> search_step(req, facts)
                == SearchStepView::StreamProjected(base@)
            &&& projects && facts.projected == Some(Ok::<bool, BackendError>(true))
                ==> search_step(req, facts) == SearchStepView::EmitProjected
            &&& projects && (facts.projected matches Some(Err(_))) ==> ends(
                search_step(req, facts),
                req,
                response::backend_code(facts.projected->0->Err_0),
                ""@,
                response::backend_text(facts.projected->0->Err_0),
            )
            &&& plainly && facts.streamed is None ==> search_step(req, facts)
                == SearchStepView::Stream(base@)
            &&& plainly && (facts.streamed matches Some(Err(_))) ==> ends(
                search_step(req, facts),
                req,
                response::backend_code(facts.streamed->0->Err_0),
                ""@,
                response::backend_text(facts.streamed->0->Err_0),
            )
            &&& plainly && (facts.streamed matches Some(Ok(_))) ==> (search_step(req, facts)
                is EmitCovered <==> facts.streamed->0->Ok_0 && hints.exact) && (search_step(
                req,
                facts,
            ) is EmitFiltered <==> !(facts.streamed->0->Ok_0 && hints.exact))
        }),
{
}

/// The entries were loaded, and the aliases among them followed where they are
/// to be followed.
pub open spec fn loaded(
    req: SearchRequest,
    facts: SearchFacts,
    asked: Asked,
    hints: FilterHints,
    base: String,
) -> bool {
    &&& begins(req, facts, asked, hints, base)
    &&& !one_by_one(req, facts, asked)
    &&& facts.loaded matches Some(Ok(_))
    &&& req.deref_aliases == 1 || req.deref_aliases == 3 ==> (facts.aliases matches Some(Ok(_)))
}

/// Aliases among the loaded entries are followed exactly where the request
/// asks for it, before anything else is done with the entries.
pub proof fn aliases_are_followed_where_asked_for(
    req: SearchRequest,
    facts: SearchFacts,
    asked: Asked,
    hints: FilterHints,
    base: String,
)
    requires
        begins(req, facts, asked, hints, base),
        !one_by_one(req, facts, asked),
        facts.loaded matches Some(Ok(_)),
    ensures
        search_step(req, facts) is ResolveAliases <==> (req.deref_aliases == 1
            || req.deref_aliases == 3) && facts.aliases is None,
        (req.deref_aliases == 1 || req.deref_aliases == 3) && (
        facts.aliases matches Some(Err(_))) ==> ends(
            search_step(req, facts),
            req,
            facts.aliases->0->Err_0.result_code,
            text::trim(req.base@),
            facts.aliases->0->Err_0.diagnostic@,
        ),
{
}

/// Referrals among the loaded entries are told unless entries are asked for as
/// they are; a base that refers to other servers ends the search.
pub proof fn referrals_are_told(
    req: SearchRequest,
    facts: SearchFacts,
    asked: Asked,
    hints: FilterHints,
    base: String,
)
    requires
        loaded(req, facts, asked, hints, base),
    ensures
        search_step(req, facts) is FindReferrals <==> !asked.manage_dsa_it && facts.referrals
            is None,
        !asked.manage_dsa_it && (facts.referrals matches Some(Err(_))) ==> ends(
            search_step(req, facts),
            req,
            ResultCode::OperationsError,
            ""@,
            facts.referrals->0->Err_0.diagnostic@,
        ),
        !asked.manage_dsa_it ==> match facts.referrals {
            Some(Ok(Some(found))) => ends(
                search_step(req, facts),
                req,
                ResultCode::Referral,
                found.0@,
                "search base is a referral"@,
            ) && search_step(req, facts)->Refuse_0.reply.referrals == text::texts(found.1@),
            _ => true,
        },
{
}

/// Once that is done, what the client may not read is left out and the rest is
/// put in order, each exactly where it is called for; then the entries are
/// given within the time that is left: in pages, as they are, or through the
/// searching machine.
pub proof fn loaded_entries_are_given(
    req: SearchRequest,
    facts: SearchFacts,
    asked: Asked,
    hints: FilterHints,
    base: String,
)
    requires
        loaded(req, facts, asked, hints, base),
        asked.manage_dsa_it || (facts.referrals matches Some(Ok(None))),
    ensures
        search_step(req, facts) is Arrange <==> !facts.arranged && (asked.sorted
            || !facts.reads_all),
        search_step(req, facts) matches SearchStepView::Arrange { leave_out, sort } ==> leave_out
            == !facts.reads_all && sort == asked.sorted,
        facts.arranged || (!asked.sorted && facts.reads_all) ==> ({
            let step = search_step(req, facts);
            let covered = facts.loaded->0->Ok_0 && hints.exact && facts.reads_all
                && req.deref_aliases != 1 && req.deref_aliases != 3;
            &&& facts.time_left is None ==> step == SearchStepView::AskTime
            &&& facts.time_left == Some(None::<u32>) ==> ends(
                step,
                req,
                ResultCode::TimeLimitExceeded,
                ""@,
                "time limit exceeded"@,
            )
            &&& (facts.time_left matches Some(Some(_))) && asked.paged ==> step == (
            SearchStepView::StartPages { covered, time_limit: facts.time_left->0->0 })
            &&& (facts.time_left matches Some(Some(_))) && !asked.paged && covered && !asked.sorted
                ==> step == SearchStepView::EmitLoaded
            &&& (facts.time_left matches Some(Some(_))) && !asked.paged && !(covered
                && !asked.sorted) ==> step == (SearchStepView::RunMachine {
                base: base@,
                covered,
                time_limit: facts.time_left->0->0,
            })
        }),
{
}

/// A search of its base alone is of an entry that the server makes up where
/// the base is empty or the name of the schema, without regard to case.
pub proof fn made_up_entries_are_searched(req: SearchRequest, facts: VirtualFacts)
    ensures
        virtual_step(req, facts) is NotVirtual <==> !(req.scope == 0 && (text::trim(
            req.base@,
        ).len() == 0 || text::lower(text::trim(req.base@)) == text::lower(req.subschema_dn@))
            && search_controls::known_to_search(req.controls@)),
        virtual_step(req, facts) is GatherRoot ==> text::trim(req.base@).len() == 0
            && facts.gathered is None,
        virtual_step(req, facts) is GatherSchema ==> text::trim(req.base@).len() > 0
            && facts.gathered is None,
        virtual_step(req, facts) matches VirtualStepView::Answer { dn, selection, reply, .. } ==> {
            &&& facts.gathered matches Some(Ok(_))
            &&& dn == text::trim(req.base@)
            &&& selection.len() == req.attributes@.len()
            &&& forall|i: int|
                0 <= i < selection.len() ==> #[trigger] selection[i] == text::trim(
                    req.attributes@[i]@,
                )
            &&& reply.head == req.head
            &&& reply.code == ResultCode::Success
            &&& reply.referrals.len() == 0
        },
        virtual_step(req, facts) matches VirtualStepView::Refuse(e) ==> (
        facts.gathered matches Some(Err(err)) && e.reply.head == req.head && e.reply.code
            == response::backend_code(err) && e.reply.diagnostic == response::backend_text(err)),
{
}

/// An entry goes out exactly where it came in time, does not refer to other
/// servers (where that is told), matches and has not gone out yet (where it is
/// yet to be held against the filter), and the size limit leaves room for it.
pub proof fn entries_go_out(
    rules: StreamRules,
    before: StreamView,
    over_time: bool,
    arrival: Arrival,
)
    ensures
        arrived(rules, before, over_time, arrival).1 is Emit <==> !over_time && (
        arrival matches Arrival::Entry { dn, referral, matched } && (rules.tells_referrals
            ==> referral is None) && (rules.filtering ==> matched == Ok::<bool, String>(true)
            && !before.returned.contains(search_entries::normalized_dn(dn@))) && (rules.size_limit
            == 0 || before.emitted < rules.size_limit)),
        over_time ==> (arrived(rules, before, over_time, arrival).1 matches StreamStepView::End {
            reply,
            success,
            ..
        } && !success && reply.head == rules.head && reply.code == ResultCode::TimeLimitExceeded),
        !over_time && arrival is Failed ==> (arrived(
            rules,
            before,
            over_time,
            arrival,
        ).1 matches StreamStepView::End { reply, success, .. } && !success && reply.head
            == rules.head && reply.code == response::backend_code(arrival->Failed_0)
            && reply.diagnostic == response::backend_text(arrival->Failed_0)),
{
}

/// An entry that matches and is new, but for which the size limit leaves no
/// room, ends the search with that error.
pub proof fn the_size_limit_ends_a_search(rules: StreamRules, before: StreamView, arrival: Arrival)
    requires
        arrival matches Arrival::Entry { dn, referral, matched } && (rules.tells_referrals
            ==> referral is None) && (rules.filtering ==> matched == Ok::<bool, String>(true)
            && !before.returned.contains(search_entries::normalized_dn(dn@))),
        rules.size_limit != 0,
        before.emitted >= rules.size_limit,
    ensures
        arrived(rules, before, false, arrival).1 matches StreamStepView::End {
            reply,
            success,
            ..
        } && !success && reply.head == rules.head && reply.code == ResultCode::SizeLimitExceeded
            && reply.diagnostic == "size limit exceeded"@,
{
}

/// An entry that does not match, or that has gone out, is left out; one of
/// which that could not be told fails the connection with the reason.
pub proof fn entries_that_do_not_match_are_left_out(
    rules: StreamRules,
    before: StreamView,
    arrival: Arrival,
)
    requires
        rules.filtering,
        arrival matches Arrival::Entry { referral, .. } && (rules.tells_referrals ==> referral
            is None),
    ensures
        arrival matches Arrival::Entry { dn, matched, .. } && (matched matches Err(e) ==> arrived(
            rules,
            before,
            false,
            arrival,
        ).1 == StreamStepView::Fail(matched->Err_0@)) && (matched == Ok::<bool, String>(false) || (
        matched == Ok::<bool, String>(true) && before.returned.contains(
            search_entries::normalized_dn(dn@),
        )) ==> arrived(rules, before, false, arrival) == (before, StreamStepView::Skip)),
{
}

/// An entry that refers to other servers is kept among the references with its
/// addresses, or where the search is of its base alone ends it as a referral
/// to them.
pub proof fn referrals_are_kept(
    rules: StreamRules,
    before: StreamView,
    dn: String,
    urls: Vec<String>,
    matched: Result<bool, String>,
)
    requires
        rules.tells_referrals,
    ensures
        ({
            let referral: Referral = Some(Ok(urls));
            let got = arrived(rules, before, false, Arrival::Entry { dn, referral, matched });
            &&& !rules.base_only ==> got.1 is Skip && got.0.references == before.references.push(
                urls,
            ) && got.0.emitted == before.emitted && got.0.returned == before.returned
            &&& rules.base_only ==> (got.1 matches StreamStepView::End { reply, success, .. }
                && success && reply.head == rules.head && reply.code == ResultCode::Referral
                && reply.matched_dn == dn@ && reply.referrals == text::texts(urls@))
        }),
{
}

/// Whether an entry matches is the verdict of the filter on its name and all
/// its attributes, the operational ones too.
pub proof fn the_whole_entry_is_matched(entry: DirectoryEntry, filter: PreparedLdapFilter)
    ensures
        filter_verdict(entry, filter) is Ok <==> ldap_filter_eval::evaluated(
            ldap_filter_eval::prepared_view(filter),
            entry.dn@,
            search_entries::as_search_entry(entry).attributes,
        ) is Ok,
        filter_verdict(entry, filter) matches Ok(b) ==> ldap_filter_eval::evaluated(
            ldap_filter_eval::prepared_view(filter),
            entry.dn@,
            search_entries::as_search_entry(entry).attributes,
        )->Ok_0 == b,
{
}

/// The searching machine's end is the client's answer: a success with the
/// references, an error with its code and text; no entry is lost before.
pub proof fn the_machine_is_answered_for(
    head: response::RequestHead,
    sorted: bool,
    before: MachineState,
    event: MachineEvent,
)
    ensures
        event is Exhausted ==> (machine_step(head, sorted, before, event).1 matches
        MachineStepView::End { references, reply } && references && reply.head == head && reply.code
            == ResultCode::Success && reply.referrals.len() == 0),
        event matches MachineEvent::Failed(error) ==> (machine_step(head, sorted, before, event).1
            matches MachineStepView::End { references, reply } && reply.head == head && (references
            <==> error is SizeLimitExceeded || error is TimeLimitExceeded) && (reply.code
            == ResultCode::TimeLimitExceeded <==> error is TimeLimitExceeded) && (reply.code
            == ResultCode::SizeLimitExceeded <==> error is SizeLimitExceeded) && (reply.code
            == ResultCode::ProtocolError <==> error is InvalidParameters) && (reply.code
            == ResultCode::Unavailable <==> error is BackendError || error is FilterError || error
            is FormattingError || error is Generic) && (reply.code == ResultCode::OperationsError
            <==> error is Abandoned || error is InvalidStateTransition || error is NoActiveSearch)),
        event is Entry ==> machine_step(head, sorted, before, event).1 is Gather,
{
}

} // verus!
