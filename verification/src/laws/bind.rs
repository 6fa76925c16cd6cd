//! Laws of bind requests: which name and which password are looked at, and
//! what the client is answered for what came of it.

use vstd::prelude::*;

use crate::fsm_bind::{
    bind_step, AuthenticationChoice, BindFacts, BindRequest, BindStepView, LogView, RecordView,
};
use crate::response::{FsmResponseKind, ResultCode};
use crate::text;

verus! {

/// The step answers the bind with that code and text, and with nothing else
/// in the reply.
pub open spec fn answers(
    step: BindStepView,
    req: BindRequest,
    code: ResultCode,
    diagnostic: Seq<char>,
) -> bool {
    step matches BindStepView::Answer { reply, .. } && reply.head.message_id == req.message_id
        && reply.head.kind == FsmResponseKind::Bind && reply.code == code && reply.diagnostic
        == diagnostic && reply.matched_dn.len() == 0 && reply.referrals.len() == 0
        && reply.controls.len() == 0
}

/// A bind of another version than the third is refused, whatever it holds.
pub proof fn only_the_third_version_is_spoken(req: BindRequest, facts: BindFacts)
    ensures
        req.version != 3 ==> answers(
            bind_step(req, facts),
            req,
            ResultCode::ProtocolError,
            "unsupported LDAP version"@,
        ),
        bind_step(req, facts) matches BindStepView::Answer { reply, .. } ==> reply.head.message_id
            == req.message_id && reply.head.kind == FsmResponseKind::Bind,
{
}

/// A bind by name and password has the name, without the white space around
/// it, and the password looked at as they were sent, once.
pub proof fn the_sent_password_is_looked_at(req: BindRequest, facts: BindFacts)
    requires
        req.version == 3,
        req.authentication is Simple,
    ensures
        bind_step(req, facts) is Authenticate <==> req.by_password && facts.outcome is None,
        bind_step(req, facts) matches BindStepView::Authenticate { dn, password } ==> dn
            == text::trim(req.name@) && req.authentication == AuthenticationChoice::Simple(
            req.authentication->Simple_0,
        ) && password == req.authentication->Simple_0@,
        !(bind_step(req, facts) is Authenticate) ==> bind_step(req, facts) is Answer,
{
}

/// What came of looking at the name and the password is what the client is
/// answered: a failure of the authentication and an unknown client are not a
/// success, and a known one is.
pub proof fn a_simple_bind_is_answered_by_its_outcome(req: BindRequest, facts: BindFacts)
    requires
        req.version == 3,
        req.authentication is Simple,
    ensures
        !req.by_password ==> answers(
            bind_step(req, facts),
            req,
            ResultCode::InvalidCredentials,
            "SASL not configured"@,
        ),
        req.by_password ==> (facts.outcome matches Some(Err(_)) ==> answers(
            bind_step(req, facts),
            req,
            ResultCode::InvalidCredentials,
            "authentication failed"@,
        )),
        req.by_password ==> (facts.outcome matches Some(Ok(_)) ==> if text::trim(req.name@).len()
            == 0 && req.authentication->Simple_0@.len() == 0 {
            answers(bind_step(req, facts), req, ResultCode::Success, ""@)
        } else if facts.bound_dn is Some {
            answers(bind_step(req, facts), req, ResultCode::Success, ""@)
        } else {
            answers(
                bind_step(req, facts),
                req,
                ResultCode::InvalidCredentials,
                "invalid credentials"@,
            )
        }),
{
}

/// What is recorded and logged of a bind by name and password names the entry
/// that the client is known by after a success, and the one that it asked for
/// after a failure; an anonymous bind and a failed authentication are not
/// recorded.
pub proof fn a_simple_bind_is_recorded(req: BindRequest, facts: BindFacts)
    requires
        req.version == 3,
        req.authentication is Simple,
        req.by_password,
        facts.outcome is Some,
    ensures
        bind_step(req, facts) matches BindStepView::Answer { state, record, log, .. } && ({
            let dn = text::trim(req.name@);
            let anonymous = dn.len() == 0 && req.authentication->Simple_0@.len() == 0;
            if facts.outcome->0 is Err {
                record == RecordView::Nothing && log == (LogView::SimpleFailure {
                    dn,
                    reason: facts.outcome->0->Err_0.shown@,
                }) && state == Some("authentication_failed"@)
            } else if anonymous {
                record == RecordView::Nothing && log == LogView::Anonymous && state == Some(
                    "anonymous"@,
                )
            } else if facts.bound_dn is Some {
                record == RecordView::Success(facts.bound_dn->0@) && log == LogView::SimpleSuccess(
                    facts.bound_dn->0@,
                ) && state == Some("simple_bound"@)
            } else {
                record == RecordView::Failure(dn) && log == (LogView::SimpleFailure {
                    dn,
                    reason: "invalid credentials"@,
                }) && state == Some("anonymous"@)
            }
        }),
{
}

/// A bind by a mechanism forgets first who the client was; then only PLAIN is
/// taken, in any case of its letters, only on a protected connection, and only
/// with credentials.
pub proof fn mechanisms_are_refused(req: BindRequest, facts: BindFacts)
    requires
        req.version == 3,
        req.authentication is Sasl,
    ensures
        bind_step(req, facts) is ResetAuthentication <==> !facts.reset,
        facts.reset ==> ({
            let named = text::lower(text::trim(req.authentication->Sasl_mechanism@)) == text::lower(
                "PLAIN"@,
            );
            let credentials = req.authentication->Sasl_credentials;
            &&& !named ==> answers(
                bind_step(req, facts),
                req,
                ResultCode::AuthMethodNotSupported,
                "only SASL PLAIN is supported"@,
            )
            &&& named && !req.secure ==> answers(
                bind_step(req, facts),
                req,
                ResultCode::ConfidentialityRequired,
                "SASL PLAIN requires TLS"@,
            )
            &&& named && req.secure && credentials is None ==> answers(
                bind_step(req, facts),
                req,
                ResultCode::InvalidCredentials,
                "SASL PLAIN requires credentials"@,
            )
            &&& named && req.secure && credentials is Some && facts.plain is None ==> bind_step(
                req,
                facts,
            ) == BindStepView::ParsePlain(credentials->0@)
        }),
{
}

/// A bind by PLAIN whose credentials were read.
pub open spec fn has_read_plain(req: BindRequest, facts: BindFacts) -> bool {
    &&& req.version == 3
    &&& req.authentication is Sasl
    &&& text::lower(text::trim(req.authentication->Sasl_mechanism@)) == text::lower("PLAIN"@)
    &&& req.authentication->Sasl_credentials is Some
    &&& req.secure
    &&& facts.reset
    &&& facts.plain is Some
}

/// Malformed credentials of PLAIN are refused with what is wrong with them;
/// well-formed ones bind under the name of the request, or where it has none
/// under the one of the credentials, with the password of the credentials. To
/// act for another client is refused.
pub proof fn plain_looks_at_its_credentials(req: BindRequest, facts: BindFacts)
    requires
        has_read_plain(req, facts),
    ensures
        facts.plain->0 is Err ==> answers(
            bind_step(req, facts),
            req,
            ResultCode::InvalidCredentials,
            facts.plain->0->Err_0@,
        ),
        facts.plain->0 is Ok ==> ({
            let c = facts.plain->0->Ok_0;
            let asked = text::trim(req.name@);
            let nameless = asked.len() == 0 && c.authcid@.len() == 0;
            let other = c.authzid@.len() > 0 && (if asked.len() == 0 {
                text::lower(c.authzid@) != text::lower(c.authcid@)
            } else {
                text::lower(c.authzid@) != text::lower(asked)
            });
            &&& nameless ==> answers(
                bind_step(req, facts),
                req,
                ResultCode::InvalidCredentials,
                "empty SASL identity"@,
            )
            &&& !nameless && other ==> answers(
                bind_step(req, facts),
                req,
                ResultCode::InappropriateAuthentication,
                "proxy authorization is not supported"@,
            )
            &&& !nameless && !other && !req.by_password ==> answers(
                bind_step(req, facts),
                req,
                ResultCode::Unavailable,
                "SASL not configured"@,
            )
            &&& !nameless && !other && req.by_password && facts.outcome is None ==> bind_step(
                req,
                facts,
            ) == (BindStepView::Authenticate {
                dn: if asked.len() > 0 {
                    asked
                } else {
                    c.authcid@
                },
                password: c.password@,
            })
        }),
{
}

/// What came of looking at the credentials of PLAIN is what the client is
/// answered, and what is recorded with the entry that it asked for.
pub proof fn plain_is_answered_by_its_outcome(req: BindRequest, facts: BindFacts)
    requires
        has_read_plain(req, facts),
        req.by_password,
        facts.plain->0 is Ok,
        text::trim(req.name@).len() > 0,
        facts.plain->0->Ok_0.authzid@.len() == 0 || facts.plain->0->Ok_0.authzid@ == text::trim(
            req.name@,
        ),
        facts.outcome is Some,
    ensures
        facts.outcome->0 is Err && facts.outcome->0->Err_0.directory ==> answers(
            bind_step(req, facts),
            req,
            ResultCode::Unavailable,
            "backend failure"@,
        ),
        facts.outcome->0 is Err && !facts.outcome->0->Err_0.directory ==> answers(
            bind_step(req, facts),
            req,
            ResultCode::InvalidCredentials,
            "authentication failed"@,
        ),
        facts.outcome->0 is Ok && facts.bound_dn is Some ==> answers(
            bind_step(req, facts),
            req,
            ResultCode::Success,
            ""@,
        ) && bind_step(req, facts)->record == RecordView::Success(text::trim(req.name@)),
        facts.outcome->0 is Ok && facts.bound_dn is None ==> answers(
            bind_step(req, facts),
            req,
            ResultCode::InvalidCredentials,
            "invalid credentials"@,
        ) && bind_step(req, facts)->record == RecordView::Failure(text::trim(req.name@)),
        bind_step(req, facts) matches BindStepView::Answer { log, .. } && (
        log matches LogView::Sasl { identity, mechanism, success, reason } && identity
            == text::trim(req.name@) && mechanism == "PLAIN"@ && success == (facts.outcome->0 is Ok
            && facts.bound_dn is Some) && (reason is Some <==> !success)),
{
}

} // verus!
