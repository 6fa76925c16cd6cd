//! Laws of extended requests: what is asked for and handed on for each of
//! them, and what the client is answered.

use vstd::prelude::*;

use crate::fsm_extended::{
    distinct_requests, extended_step, CancelRequestOutcome, CustomResultCode, ExtendedAuditView,
    ExtendedFacts, ExtendedRequest, ExtendedStepView, PasswordModifyValue,
};
use crate::response;
use crate::response::{FsmResponseKind, ResponseOp, ResultCode};
use crate::text;

verus! {

/// The step answers the request with that code and text, and with nothing
/// else in the reply.
pub open spec fn answers(
    step: ExtendedStepView,
    req: ExtendedRequest,
    code: ResultCode,
    diagnostic: Seq<char>,
) -> bool {
    step matches ExtendedStepView::Answer { reply, .. } && reply.head.message_id == req.message_id
        && reply.head.kind == FsmResponseKind::Result(ResponseOp::Extended) && reply.code == code
        && reply.diagnostic == diagnostic && reply.matched_dn.len() == 0 && reply.referrals.len()
        == 0 && reply.controls.len() == 0
}

/// A client that asks who it is is told the name that it is known by, behind
/// `dn:`, or nothing where it is not known.
pub proof fn who_am_i_tells_the_name(req: ExtendedRequest, facts: ExtendedFacts)
    requires
        req.oid@ == "1.3.6.1.4.1.4203.1.11.3"@,
    ensures
        extended_step(req, facts) matches ExtendedStepView::AnswerValue {
            message_id,
            name,
            value,
            ..
        } && message_id == req.message_id && name == Some("1.3.6.1.4.1.4203.1.11.3"@) && (
        value matches Some(bytes) && bytes == vstd::utf8::encode_utf8(
            match req.bound_dn {
                Some(dn) => "dn:"@ + dn@,
                None => ""@,
            },
        )),
{
}

/// A request that is none of the four known ones is refused.
pub proof fn unknown_requests_are_refused(req: ExtendedRequest, facts: ExtendedFacts)
    requires
        req.oid@ != "1.3.6.1.4.1.4203.1.11.3"@,
        req.oid@ != "1.3.6.1.4.1.1466.20037"@,
        req.oid@ != "1.3.6.1.1.8"@,
        req.oid@ != "1.3.6.1.4.1.4203.1.11.1"@,
    ensures
        answers(
            extended_step(req, facts),
            req,
            ResultCode::ProtocolError,
            "extended operations are not supported"@,
        ),
{
}

/// A connection is protected where the server can do so and it is not yet,
/// after a success was answered; then the client starts anew.
pub proof fn connections_are_protected_once(req: ExtendedRequest, facts: ExtendedFacts)
    requires
        req.oid@ == "1.3.6.1.4.1.1466.20037"@,
    ensures
        extended_step(req, facts) is StartAnew <==> facts.upgraded,
        !facts.upgraded ==> (extended_step(req, facts) is AnswerAndProtect <==> !req.secure
            && req.tls_available),
        extended_step(req, facts) matches ExtendedStepView::AnswerAndProtect(reply) ==> reply.code
            == ResultCode::Success && reply.head.message_id == req.message_id
            && reply.diagnostic == ""@,
        !facts.upgraded && req.secure ==> answers(
            extended_step(req, facts),
            req,
            ResultCode::OperationsError,
            "connection already uses TLS"@,
        ),
        !facts.upgraded && !req.secure && !req.tls_available ==> answers(
            extended_step(req, facts),
            req,
            ResultCode::Unavailable,
            "StartTLS is not available"@,
        ),
        extended_step(req, facts) matches ExtendedStepView::StartAnew { audit } ==> audit == (
        ExtendedAuditView::StartTls { success: true, reason: None }),
        extended_step(req, facts) matches ExtendedStepView::Answer { audit, reply } ==> audit == (
        ExtendedAuditView::StartTls { success: false, reason: Some(reply.diagnostic) }),
{
    distinct_requests();
}

/// A request to cancel has its value read as it was sent, the operation that
/// it names cancelled, and is answered by what came of that.
pub proof fn the_named_operation_is_cancelled(req: ExtendedRequest, facts: ExtendedFacts)
    requires
        req.oid@ == "1.3.6.1.1.8"@,
    ensures
        facts.cancel_id is None ==> extended_step(req, facts) == ExtendedStepView::ParseCancel(
            match req.value {
                Some(v) => Some(v@),
                None => None,
            },
        ),
        facts.cancel_id matches Some(Err(e)) ==> extended_step(req, facts) == (
        ExtendedStepView::AnswerCancel {
            message_id: req.message_id,
            code: CustomResultCode::ProtocolError,
            diagnostic: facts.cancel_id->0->Err_0@,
        }),
        (facts.cancel_id matches Some(Ok(_))) && facts.cancel_outcome is None ==> extended_step(
            req,
            facts,
        ) == ExtendedStepView::Cancel(facts.cancel_id->0->Ok_0),
        (facts.cancel_id matches Some(Ok(_))) && facts.cancel_outcome is Some ==> (extended_step(
            req,
            facts,
        ) matches ExtendedStepView::AnswerCancel { message_id, code, .. } && message_id
            == req.message_id && (code == CustomResultCode::Success <==> facts.cancel_outcome->0
            == CancelRequestOutcome::Accepted) && (code == CustomResultCode::NoSuchOperation
            <==> facts.cancel_outcome->0 == CancelRequestOutcome::NoSuchOperation) && (code
            == CustomResultCode::TooLate <==> facts.cancel_outcome->0
            == CancelRequestOutcome::TooLate) && (code == CustomResultCode::CannotCancel
            <==> facts.cancel_outcome->0 == CancelRequestOutcome::CannotCancel)),
{
    distinct_requests();
}

/// A password is changed only on a protected connection and for a client that
/// is known; the value of the request is read as it was sent.
pub proof fn passwords_are_changed_for_known_clients(req: ExtendedRequest, facts: ExtendedFacts)
    requires
        req.oid@ == "1.3.6.1.4.1.4203.1.11.1"@,
    ensures
        !req.secure ==> answers(
            extended_step(req, facts),
            req,
            ResultCode::ConfidentialityRequired,
            "Password Modify requires confidentiality protection"@,
        ),
        req.secure && req.bound_dn is None ==> answers(
            extended_step(req, facts),
            req,
            ResultCode::UnwillingToPerform,
            "Password Modify requires an authenticated session"@,
        ),
        req.secure && req.bound_dn is Some && facts.password_request is None ==> extended_step(
            req,
            facts,
        ) == ExtendedStepView::ParsePasswordModify(
            match req.value {
                Some(v) => Some(v@),
                None => None,
            },
        ),
        req.secure && req.bound_dn is Some && (facts.password_request matches Some(Err(_)))
            ==> answers(
            extended_step(req, facts),
            req,
            ResultCode::ProtocolError,
            facts.password_request->0->Err_0@,
        ),
{
    distinct_requests();
}

/// A request to change a password that was read, from a known client on a
/// protected connection.
pub open spec fn asks_for(
    req: ExtendedRequest,
    facts: ExtendedFacts,
    value: PasswordModifyValue,
    bound_dn: String,
) -> bool {
    &&& req.oid@ == "1.3.6.1.4.1.4203.1.11.1"@
    &&& req.secure
    &&& req.bound_dn == Some(bound_dn)
    &&& facts.password_request == Some(Ok::<PasswordModifyValue, String>(value))
}

/// The request is about the password of the client itself: it names no entry,
/// or the one of the client in any case of its letters.
pub open spec fn is_about_itself(value: PasswordModifyValue, bound_dn: String) -> bool {
    value.user_identity is Some ==> text::lower(value.user_identity->0@) == text::lower(bound_dn@)
}

/// A client changes its own password only, and only with the old one, which is
/// looked at for the entry that the request names.
pub proof fn the_old_password_is_looked_at(
    req: ExtendedRequest,
    facts: ExtendedFacts,
    value: PasswordModifyValue,
    bound_dn: String,
)
    requires
        asks_for(req, facts, value, bound_dn),
    ensures
        !is_about_itself(value, bound_dn) ==> answers(
            extended_step(req, facts),
            req,
            ResultCode::InsufficientAccessRights,
            "password resets require explicit authorization"@,
        ),
        is_about_itself(value, bound_dn) && value.old_password is None ==> answers(
            extended_step(req, facts),
            req,
            ResultCode::UnwillingToPerform,
            "Self-service password changes require oldPasswd"@,
        ),
        is_about_itself(value, bound_dn) && value.old_password is Some && facts.authenticated
            is None ==> extended_step(req, facts) == (ExtendedStepView::Authenticate {
            dn: match value.user_identity {
                Some(dn) => dn@,
                None => bound_dn@,
            },
            password: value.old_password->0@,
        }),
        is_about_itself(value, bound_dn) && value.old_password is Some && (
        facts.authenticated matches Some(Ok(false))) ==> answers(
            extended_step(req, facts),
            req,
            ResultCode::InvalidCredentials,
            "invalid credentials"@,
        ),
        is_about_itself(value, bound_dn) && value.old_password is Some && (
        facts.authenticated matches Some(Err(_))) ==> answers(
            extended_step(req, facts),
            req,
            response::backend_code(facts.authenticated->0->Err_0),
            response::backend_text(facts.authenticated->0->Err_0),
        ),
{
    distinct_requests();
}

/// Once the old password was found right, the new one of the request replaces
/// it, or where the request has none the one that the server made up, and the
/// client acts in its own name. Bytes that are no text are refused.
pub proof fn the_new_password_replaces_the_old(
    req: ExtendedRequest,
    facts: ExtendedFacts,
    value: PasswordModifyValue,
    bound_dn: String,
)
    requires
        asks_for(req, facts, value, bound_dn),
        is_about_itself(value, bound_dn),
        value.old_password is Some,
        facts.authenticated matches Some(Ok(true)),
    ensures
        value.new_password is None && facts.made_up is None ==> extended_step(req, facts)
            == ExtendedStepView::MakeUpPassword,
        value.new_password is Some && !vstd::utf8::valid_utf8(value.new_password->0@) ==> answers(
            extended_step(req, facts),
            req,
            ResultCode::ProtocolError,
            "newPasswd must be valid UTF-8"@,
        ),
        value.new_password is Some && vstd::utf8::valid_utf8(value.new_password->0@)
            && facts.modified is None ==> extended_step(req, facts) == (
        ExtendedStepView::ReplacePassword {
            dn: match value.user_identity {
                Some(dn) => dn@,
                None => bound_dn@,
            },
            password: vstd::utf8::decode_utf8(value.new_password->0@),
            actor: bound_dn@,
        }),
        value.new_password is None && facts.made_up is Some && facts.modified is None
            ==> extended_step(req, facts) == (ExtendedStepView::ReplacePassword {
            dn: match value.user_identity {
                Some(dn) => dn@,
                None => bound_dn@,
            },
            password: facts.made_up->0@,
            actor: bound_dn@,
        }),
{
    distinct_requests();
    if facts.made_up is Some {
        vstd::utf8::encode_utf8_decode_utf8(facts.made_up->0@);
        vstd::utf8::encode_utf8_valid_utf8(facts.made_up->0@);
    }
}

/// A request to change a password is answered by what came of the change: an
/// error of the directory by its code, a success with the value that was
/// encoded.
pub proof fn a_password_change_is_answered_by_its_outcome(
    req: ExtendedRequest,
    facts: ExtendedFacts,
    value: PasswordModifyValue,
    bound_dn: String,
)
    requires
        asks_for(req, facts, value, bound_dn),
        is_about_itself(value, bound_dn),
        value.old_password is Some,
        facts.authenticated matches Some(Ok(true)),
        value.new_password is Some && vstd::utf8::valid_utf8(value.new_password->0@) || (
        value.new_password is None && facts.made_up is Some),
        facts.modified is Some,
    ensures
        facts.modified->0 is Err ==> answers(
            extended_step(req, facts),
            req,
            response::backend_code(facts.modified->0->Err_0),
            response::backend_text(facts.modified->0->Err_0),
        ),
        facts.modified->0 is Ok && facts.encoded is None ==> extended_step(req, facts)
            == ExtendedStepView::EncodePassword(
            if value.new_password is Some {
                None
            } else {
                Some(vstd::utf8::encode_utf8(facts.made_up->0@))
            },
        ),
        facts.modified->0 is Ok && (facts.encoded matches Some(Err(_))) ==> extended_step(
            req,
            facts,
        ) == ExtendedStepView::Fail(facts.encoded->0->Err_0@),
        facts.modified->0 is Ok && (facts.encoded matches Some(Ok(_))) ==> (extended_step(
            req,
            facts,
        ) matches ExtendedStepView::AnswerValue { audit, message_id, name, value: told }
            && message_id == req.message_id && name is None && told == (
        match facts.encoded->0->Ok_0 {
            Some(v) => Some(v@),
            None => None,
        }) && audit == (ExtendedAuditView::PasswordModify {
            target_dn: Some(
                match value.user_identity {
                    Some(dn) => dn@,
                    None => bound_dn@,
                },
            ),
            mode: if value.user_identity is Some {
                "password-reset"@
            } else {
                "self-service"@
            },
            generated: value.new_password is None,
            success: true,
            reason: None,
        })),
{
    distinct_requests();
    if facts.made_up is Some {
        vstd::utf8::encode_utf8_valid_utf8(facts.made_up->0@);
    }
}

} // verus!
