//! Laws of connections and of the requests on them: who is served, what is
//! refused, and who handles which request.

use vstd::prelude::*;

use crate::fsm_server::{
    accept_step, counted_operation, dispatch_step, is_peer_disconnect, turn_step, AcceptFacts,
    AcceptStepView, Dispatch, DispatchFacts, DispatchStepView, Handler, ProtocolOp, ReadOutcome,
    TurnFacts, TurnStepView,
};
use crate::metrics::{OperationType, ResourceEventType};
use crate::response::{
    unsolicited, wire_form, FsmResponseKind, ReplyView, ResponseOp, ResultCode, WireForm,
};
use crate::text;

verus! {

/// The reply says, to no request in particular, that the server is not
/// available and why.
pub open spec fn says(reply: Option<ReplyView>, diagnostic: Seq<char>) -> bool {
    reply matches Some(r) && r.head.message_id == 0 && r.code == ResultCode::Unavailable
        && r.diagnostic == diagnostic && r.matched_dn.len() == 0 && r.referrals.len() == 0
        && r.controls.len() == 0
}

/// The coordinator of shutdowns, if there is one, lets the connection in.
pub open spec fn let_in(facts: AcceptFacts) -> bool {
    facts.coordinated ==> facts.shutting_down == Some(false) && facts.registered == Some(true)
}

/// A connection is let in by the coordinator of shutdowns first, and turned
/// away where the server shuts down; only a listener that does not protect its
/// connections says so.
pub proof fn shutdowns_turn_connections_away(facts: AcceptFacts)
    ensures
        accept_step(facts) is AskShutdown <==> facts.coordinated && facts.shutting_down is None,
        accept_step(facts) is Register <==> facts.coordinated && facts.shutting_down == Some(false)
            && facts.registered is None,
        accept_step(facts) is TurnAway <==> facts.coordinated && (facts.shutting_down == Some(true)
            || (facts.shutting_down == Some(false) && facts.registered == Some(false))),
        accept_step(facts) matches AcceptStepView::TurnAway { reply } ==> if facts.tls {
            reply is None
        } else {
            says(reply, "Server is shutting down"@)
        },
{
}

/// A connection that is let in is given a number where the resources allow it,
/// is protected where its listener does so, and is then served under that
/// number.
pub proof fn connections_are_served(facts: AcceptFacts)
    requires
        let_in(facts),
    ensures
        accept_step(facts) is Acquire <==> facts.acquired is None,
        accept_step(facts) is RunShort <==> facts.acquired == Some(None::<u64>),
        accept_step(facts) matches AcceptStepView::RunShort { unregister, reply } ==> unregister
            == facts.coordinated && if facts.tls {
            reply is None
        } else {
            says(reply, "Server resource limits exceeded"@)
        },
        facts.acquired matches Some(Some(n)) ==> {
            &&& !facts.tls ==> accept_step(facts) == (AcceptStepView::Serve {
                conn_id: n,
                secure: false,
            })
            &&& facts.tls && facts.protected is None ==> accept_step(facts)
                == AcceptStepView::Protect
            &&& facts.tls && (facts.protected matches Some(Ok(_))) ==> accept_step(facts) == (
            AcceptStepView::Serve { conn_id: n, secure: true })
            &&& facts.tls && (facts.protected matches Some(Err(_))) ==> accept_step(facts) == (
            AcceptStepView::GiveUp {
                conn_id: n,
                unregister: facts.coordinated,
                expected: is_peer_disconnect(facts.protected->0->Err_0@),
            })
        },
{
}

/// A peer that just goes away is told by the words of the error, wherever in
/// it they stand.
pub proof fn peers_that_go_away_are_known(before: Seq<char>, words: Seq<char>, after: Seq<char>)
    requires
        words == "Connection reset by peer"@ || words == "tls handshake eof"@ || words
            == "Broken pipe"@ || words == "connection closed"@ || words == "unexpected eof"@,
    ensures
        is_peer_disconnect(before + words + after),
{
    let s = before + words + after;
    found_inside(before, words, after);
    assert(text::contains_text(s, words));
}

/// A text is found in every text that it stands in.
pub proof fn found_inside(before: Seq<char>, words: Seq<char>, after: Seq<char>)
    ensures
        text::contains_text(before + words + after, words),
    decreases before.len(),
{
    let s = before + words + after;
    if text::starts_with(s, words) {
    } else if before.len() == 0 {
        assert(s.take(words.len() as int) =~= words);
    } else {
        found_inside(before.drop_first(), words, after);
        assert(s.drop_first() =~= before.drop_first() + words + after);
    }
}

/// One turn reads, asks for memory for what it read, finds the messages in it
/// and processes them; whatever memory was granted is given back.
pub proof fn turns_process_what_they_read(facts: TurnFacts)
    ensures
        turn_step(facts) is Stop <==> facts.terminal || (facts.connected && facts.read == Some(
            ReadOutcome::Closed,
        )),
        !facts.terminal && !facts.connected ==> turn_step(facts) == TurnStepView::Fail(
            "No active stream"@,
        ),
        !facts.terminal && facts.connected ==> {
            &&& facts.read is None ==> turn_step(facts) == TurnStepView::Read
            &&& facts.read == Some(ReadOutcome::TimedOut) ==> turn_step(facts)
                == TurnStepView::Again
            &&& facts.read matches Some(ReadOutcome::Failed(e)) ==> turn_step(facts)
                == TurnStepView::Fail(e@)
            &&& facts.read matches Some(ReadOutcome::Data(n)) ==> {
                &&& facts.granted is None ==> turn_step(facts) == TurnStepView::AskMemory(n)
                &&& facts.granted == Some(false) ==> (turn_step(
                    facts,
                ) matches TurnStepView::RunShort { reply, .. } && says(
                    Some(reply),
                    "Server resource limits exceeded"@,
                ))
                &&& facts.granted == Some(true) && facts.decoded is None ==> turn_step(facts)
                    == TurnStepView::Decode
                &&& facts.granted == Some(true) && (facts.decoded matches Some(Ok(_)))
                    ==> turn_step(facts) == TurnStepView::ReleaseAndProcess(n)
                &&& facts.granted == Some(true) && (facts.decoded matches Some(Err(_)))
                    ==> turn_step(facts) == (TurnStepView::ReleaseAndFail {
                    bytes: n,
                    failure: facts.decoded->0->Err_0@,
                })
            }
        },
{
}

/// The reply goes to the request, with that code and text and nothing else.
pub open spec fn answers(
    reply: ReplyView,
    req: Dispatch,
    code: ResultCode,
    diagnostic: Seq<char>,
) -> bool {
    reply.head == req.head && reply.code == code && reply.diagnostic == diagnostic
        && reply.matched_dn.len() == 0 && reply.referrals.len() == 0 && reply.controls.len() == 0
}

/// A client whose rate is limited is answered as busy where it is above it,
/// whatever it asks for.
pub proof fn rates_are_kept(req: Dispatch, facts: DispatchFacts)
    requires
        req.rate_limited,
    ensures
        dispatch_step(req, facts) is CheckRate <==> facts.within_rate is None,
        facts.within_rate == Some(false) ==> (dispatch_step(
            req,
            facts,
        ) matches DispatchStepView::Refuse { event, reply } && event
            == ResourceEventType::RateLimitBlocked && answers(
            reply,
            req,
            ResultCode::Busy,
            "Rate limit exceeded - please slow down"@,
        )),
{
}

/// The request is one that counts as an operation of the connection.
pub open spec fn is_operation(op: ProtocolOp) -> bool {
    op == ProtocolOp::Search || op == ProtocolOp::Modify || op == ProtocolOp::Add || op
        == ProtocolOp::Delete || op == ProtocolOp::ModDn || op == ProtocolOp::Compare || op
        == ProtocolOp::Extended
}

/// The request changes the directory.
pub open spec fn changes_entries(op: ProtocolOp) -> bool {
    op == ProtocolOp::Modify || op == ProtocolOp::Add || op == ProtocolOp::Delete || op
        == ProtocolOp::ModDn
}

/// Each request is handed to the handler of its kind; a modification of the
/// entry that holds the schema to the one for the schema. Operations are
/// counted while they run, a client at its limit is answered as busy, and one
/// that is not known changes nothing.
pub proof fn requests_are_handed_on(req: Dispatch, facts: DispatchFacts)
    requires
        req.rate_limited ==> facts.within_rate == Some(true),
    ensures
        dispatch_step(req, facts) is StartOperation <==> is_operation(req.op) && facts.started
            is None,
        is_operation(req.op) && facts.started == Some(false) ==> (dispatch_step(
            req,
            facts,
        ) matches DispatchStepView::Refuse { event, reply } && event
            == ResourceEventType::OperationRejected && answers(
            reply,
            req,
            ResultCode::Busy,
            "Server is busy - operation limit exceeded"@,
        )),
        is_operation(req.op) && facts.started == Some(true) && changes_entries(req.op)
            && !req.authenticated ==> (dispatch_step(
            req,
            facts,
        ) matches DispatchStepView::EndAndRefuse(reply) && reply.head == req.head && reply.code
            == ResultCode::InsufficientAccessRights),
        is_operation(req.op) && facts.started == Some(true) && (req.authenticated
            || !changes_entries(req.op)) ==> dispatch_step(req, facts) == (
        DispatchStepView::Handle {
            handler: if req.op == ProtocolOp::Search {
                Handler::Search
            } else if req.op == ProtocolOp::Modify && text::lower(text::trim(req.target@))
                == text::lower(req.subschema_dn@) {
                Handler::SchemaModify
            } else if req.op == ProtocolOp::Modify {
                Handler::Modify
            } else if req.op == ProtocolOp::Add {
                Handler::Add
            } else if req.op == ProtocolOp::Delete {
                Handler::Delete
            } else if req.op == ProtocolOp::ModDn {
                Handler::ModDn
            } else if req.op == ProtocolOp::Compare {
                Handler::Compare
            } else {
                Handler::Extended
            },
            end_after: true,
        }),
        req.op == ProtocolOp::Bind ==> dispatch_step(req, facts) == (DispatchStepView::Handle {
            handler: Handler::Bind,
            end_after: false,
        }),
        req.op == ProtocolOp::Unbind ==> dispatch_step(req, facts) == (DispatchStepView::Handle {
            handler: Handler::Unbind,
            end_after: false,
        }),
        req.op == ProtocolOp::Abandon ==> dispatch_step(req, facts) == (DispatchStepView::Handle {
            handler: Handler::Abandon,
            end_after: false,
        }),
        dispatch_step(req, facts) is Ignore <==> req.op == ProtocolOp::Other,
{
}

/// No two kinds of requests are counted as the same operation, and all that
/// the server knows are counted.
pub proof fn requests_are_counted_apart(a: ProtocolOp, b: ProtocolOp)
    ensures
        counted_operation(a) is None <==> a == ProtocolOp::Other,
        counted_operation(a) == counted_operation(b) <==> a == b,
        counted_operation(ProtocolOp::Search) == Some(OperationType::Search),
        counted_operation(ProtocolOp::Bind) == Some(OperationType::Bind),
        counted_operation(ProtocolOp::Unbind) == Some(OperationType::Unbind),
        counted_operation(ProtocolOp::Modify) == Some(OperationType::Modify),
        counted_operation(ProtocolOp::Add) == Some(OperationType::Add),
        counted_operation(ProtocolOp::Delete) == Some(OperationType::Delete),
        counted_operation(ProtocolOp::ModDn) == Some(OperationType::ModifyDN),
        counted_operation(ProtocolOp::Compare) == Some(OperationType::Compare),
        counted_operation(ProtocolOp::Extended) == Some(OperationType::Extended),
        counted_operation(ProtocolOp::Abandon) == Some(OperationType::Abandon),
{
}

/// A reply goes out in the form of the request that it answers; to a request
/// that takes none, nothing goes out, and what answers no request in
/// particular goes out as the end of a search with the number zero.
pub proof fn replies_have_their_form(kind: FsmResponseKind, op: ResponseOp)
    ensures
        wire_form(kind) == WireForm::Nothing <==> kind == FsmResponseKind::Silent,
        wire_form(kind) == WireForm::BindResponse <==> kind == FsmResponseKind::Bind,
        wire_form(kind) == WireForm::ResultResponse(op) <==> kind == FsmResponseKind::Result(op),
        unsolicited().message_id == 0,
        wire_form(unsolicited().kind) == WireForm::ResultResponse(ResponseOp::SearchDone),
{
}

} // verus!
