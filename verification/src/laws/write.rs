//! Laws of the requests that change or compare entries: what is handed on for
//! a request, and what it is answered.

use vstd::prelude::*;

use crate::directory::AttributeSeq;
use crate::fsm_write::{
    add_step, attribute_lines, compare_step, delete_step, entry_text, first_unknown, modify_step,
    moddn_step, names_are_sorted, names_of, schema_modify_step, sorted_names, value_lines, AddFacts,
    AddRequest, CompareFacts, CompareRequest, DeleteFacts, DeleteRequest, ModDnFacts, ModDnRequest,
    ModifyFacts, ModifyRequest, NativeModifyError, Permission, SchemaModifyFacts, StepView,
    WriteOperationView, WriteValidation,
};
use crate::response;
use crate::response::{
    BackendError, CompareFsmError, RequestHead, ResponseOp, ResultCode, WriteFsmError,
};
use crate::schema;
use crate::schema::LdapSchema;
use crate::string_map;
use crate::text;

verus! {

/// The step answers the request, with that code and text and nothing else in
/// the reply, and the audit log has it as a success or as a failure.
pub open spec fn answers(
    step: StepView,
    head: RequestHead,
    code: ResultCode,
    diagnostic: Seq<char>,
    success: bool,
) -> bool {
    step matches StepView::Answer { audit, reply } && reply.head == head && reply.code == code
        && reply.diagnostic == diagnostic && reply.matched_dn.len() == 0 && reply.referrals.len()
        == 0 && reply.controls.len() == 0 && (audit matches Some(a) && a.success == success)
}

/// The step asks whether the client may do that to the entry.
pub open spec fn asks(
    step: StepView,
    head: RequestHead,
    op: ResponseOp,
    permission: Permission,
    dn: Seq<char>,
) -> bool {
    step matches StepView::Authorize(a) && a.message_id == head.message_id && a.op == op
        && a.permission == permission && a.dn == dn
}

/// The step asks whether the client may do that to those attributes of the
/// entry.
pub open spec fn asks_for_attributes(
    step: StepView,
    head: RequestHead,
    op: ResponseOp,
    permission: Permission,
    dn: Seq<char>,
    names: Seq<Seq<char>>,
) -> bool {
    step matches StepView::AuthorizeAttributes(a, ns) && a.message_id == head.message_id && a.op
        == op && a.permission == permission && a.dn == dn && ns == names
}

/// The step is the end of a write that the machine was asked for: first the
/// start, then its validation, then a success; the first error of either is
/// answered by its code and its text.
pub open spec fn writes(
    step: StepView,
    head: RequestHead,
    operation: WriteOperationView,
    actor: Option<String>,
    validation: WriteValidation,
    started: Option<Result<(), WriteFsmError>>,
    validated: Option<Result<(), WriteFsmError>>,
) -> bool {
    &&& started is None ==> (step matches StepView::StartWrite {
        operation: o,
        actor: a,
        validation: v,
    } && o == operation && v == validation && a == text::option_text(actor))
    &&& started matches Some(Err(e)) ==> answers(
        step,
        head,
        response::write_error_answer(e).0,
        response::write_error_answer(e).1,
        false,
    )
    &&& started matches Some(Ok(_)) ==> {
        &&& validated is None ==> step is CompleteValidation
        &&& validated matches Some(Err(e)) ==> answers(
            step,
            head,
            response::write_error_answer(e).0,
            response::write_error_answer(e).1,
            false,
        )
        &&& validated matches Some(Ok(_)) ==> answers(step, head, ResultCode::Success, ""@, true)
    }
}

/// A request to delete an entry asks whether the client may, and then deletes
/// the entry that it names.
pub proof fn a_delete_deletes_the_named_entry(req: DeleteRequest, facts: DeleteFacts)
    ensures
        ({
            let step = delete_step(req, facts);
            &&& facts.authorized is None ==> asks(
                step,
                req.head,
                ResponseOp::Delete,
                Permission::Delete,
                req.dn@,
            )
            &&& facts.authorized == Some(false) ==> step is Stop
            &&& facts.authorized == Some(true) ==> writes(
                step,
                req.head,
                WriteOperationView::Delete { dn: req.dn@ },
                req.bound_dn,
                WriteValidation::Unchecked,
                facts.started,
                facts.validated,
            )
        }),
{
}

/// A request to add an entry asks whether the client may add it and its
/// attributes, and then adds the entry with the name and the attributes that
/// were sent. One with an attribute that the server keeps is refused.
pub proof fn an_add_adds_the_sent_entry(req: AddRequest, facts: AddFacts)
    ensures
        ({
            let step = add_step(req, facts);
            &&& facts.authorized is None ==> asks(
                step,
                req.head,
                ResponseOp::Add,
                Permission::Add,
                req.dn@,
            )
            &&& facts.authorized == Some(false) ==> step is Stop
            &&& facts.authorized == Some(true) ==> {
                &&& req.managed matches Some(d) ==> answers(
                    step,
                    req.head,
                    ResultCode::UnwillingToPerform,
                    d@,
                    false,
                )
                &&& req.managed is None ==> {
                    &&& facts.attributes_authorized is None ==> asks_for_attributes(
                        step,
                        req.head,
                        ResponseOp::Add,
                        Permission::Add,
                        req.dn@,
                        names_of(req.attributes@),
                    )
                    &&& facts.attributes_authorized == Some(false) ==> step is Stop
                    &&& facts.attributes_authorized == Some(true) ==> writes(
                        step,
                        req.head,
                        WriteOperationView::Add {
                            dn: req.dn@,
                            entry: vstd::utf8::encode_utf8(entry_text(req.dn@, req.attributes@)),
                        },
                        req.bound_dn,
                        WriteValidation::BySchema,
                        facts.started,
                        facts.validated,
                    )
                }
            }
        }),
{
}

/// A request to rename an entry asks whether the client may, whether the entry
/// is there and whether it may have the new name; and then the entry, the new
/// name, what becomes of the old one and the new superior are handed on as the
/// request has them.
pub proof fn a_rename_hands_on_what_was_asked(req: ModDnRequest, facts: ModDnFacts)
    ensures
        ({
            let step = moddn_step(req, facts);
            &&& facts.authorized is None ==> asks(
                step,
                req.head,
                ResponseOp::ModifyDn,
                Permission::Modify,
                req.dn@,
            )
            &&& facts.authorized == Some(false) ==> step is Stop
            &&& facts.authorized == Some(true) ==> {
                &&& facts.found is None ==> step == StepView::LookUp(req.dn@)
                &&& facts.found matches Some(Err(e)) ==> answers(
                    step,
                    req.head,
                    response::backend_code(e),
                    response::backend_text(e),
                    false,
                )
                &&& facts.found matches Some(Ok(false)) ==> (step matches StepView::Answer {
                    reply,
                    ..
                } && reply.head == req.head && reply.code == ResultCode::NoSuchObject)
                &&& facts.found matches Some(Ok(true)) ==> {
                    &&& facts.rdn_valid is None ==> step == StepView::ValidateRdn(req.new_rdn@)
                    &&& facts.rdn_valid matches Some(Err(e)) ==> answers(
                        step,
                        req.head,
                        ResultCode::ObjectClassViolation,
                        "Schema validation failed: "@ + e@,
                        false,
                    )
                    &&& facts.rdn_valid matches Some(Ok(_)) ==> writes(
                        step,
                        req.head,
                        WriteOperationView::ModifyDn {
                            dn: req.dn@,
                            new_rdn: req.new_rdn@,
                            delete_old: req.delete_old,
                            new_superior: text::option_text(req.new_superior),
                        },
                        req.bound_dn,
                        WriteValidation::StrictlyBySchema,
                        facts.started,
                        facts.validated,
                    )
                }
            }
        }),
{
}

/// Whenever a rename is started, what is handed to the machine that writes has
/// the entry, the new name, the fate of the old one and the new superior of the
/// request, each unchanged, and the client as the one who did it.
pub proof fn a_started_rename_is_the_one_asked_for(req: ModDnRequest, facts: ModDnFacts)
    ensures
        moddn_step(req, facts) matches StepView::StartWrite { operation, actor, .. } ==> {
            &&& operation matches WriteOperationView::ModifyDn {
                dn,
                new_rdn,
                delete_old,
                new_superior,
            } && dn == req.dn@ && new_rdn == req.new_rdn@ && delete_old == req.delete_old && (
            match req.new_superior {
                Some(s) => new_superior == Some(s@),
                None => new_superior is None,
            })
            &&& match req.bound_dn {
                Some(s) => actor == Some(s@),
                None => actor is None,
            }
        },
{
}

/// A request to modify an entry asks whether the client may modify it and the
/// attributes that are named, and modifies the entry that it names. One with an
/// attribute that the server keeps, or that the schema does not know, is
/// refused.
pub proof fn a_modify_modifies_the_named_entry(
    req: ModifyRequest,
    sch: LdapSchema,
    facts: ModifyFacts,
)
    ensures
        ({
            let step = modify_step(req, sch, facts);
            let names = text::texts(req.attributes@);
            &&& req.managed matches Some(d) ==> answers(
                step,
                req.head,
                ResultCode::UnwillingToPerform,
                d@,
                false,
            )
            &&& req.managed is None ==> {
                &&& facts.authorized is None ==> asks(
                    step,
                    req.head,
                    ResponseOp::Modify,
                    Permission::Modify,
                    req.dn@,
                )
                &&& facts.authorized == Some(false) ==> step is Stop
                &&& facts.authorized == Some(true) ==> {
                    &&& facts.attributes_authorized is None ==> asks_for_attributes(
                        step,
                        req.head,
                        ResponseOp::Modify,
                        Permission::Modify,
                        req.dn@,
                        names,
                    )
                    &&& facts.attributes_authorized == Some(false) ==> step is Stop
                    &&& facts.attributes_authorized == Some(true) && !all_known(sch, names) ==> (
                    step matches StepView::Answer { audit, reply } && reply.head == req.head
                        && reply.code == ResultCode::ObjectClassViolation && (audit matches Some(a)
                        && !a.success))
                    &&& facts.attributes_authorized == Some(true) && all_known(sch, names) ==> {
                        &&& facts.modified is None ==> (step matches StepView::ModifyEntry {
                            dn,
                            actor,
                        } && dn == req.dn@ && actor == text::option_text(req.bound_dn))
                        &&& facts.modified matches Some(Err(NativeModifyError::Schema(d)))
                            ==> answers(
                            step,
                            req.head,
                            ResultCode::ObjectClassViolation,
                            d@,
                            false,
                        )
                        &&& facts.modified matches Some(Err(NativeModifyError::Backend(e)))
                            ==> answers(
                            step,
                            req.head,
                            response::backend_code(e),
                            response::backend_text(e),
                            false,
                        )
                        &&& facts.modified matches Some(Ok(_)) ==> answers(
                            step,
                            req.head,
                            ResultCode::Success,
                            ""@,
                            true,
                        )
                    }
                }
            }
        }),
{
    the_first_unknown_is_unknown(sch, text::texts(req.attributes@));
}

/// The schema knows each of the attributes.
pub open spec fn all_known(sch: LdapSchema, names: Seq<Seq<char>>) -> bool {
    forall|i: int|
        0 <= i < names.len() ==> schema::attribute_type(sch, #[trigger] names[i]) is Some
}

/// An attribute is named as unknown exactly where one is, and it is the first
/// of them.
pub proof fn the_first_unknown_is_unknown(sch: LdapSchema, names: Seq<Seq<char>>)
    ensures
        first_unknown(sch, names) is None <==> all_known(sch, names),
        first_unknown(sch, names) matches Some(name) ==> exists|i: int|
            0 <= i < names.len() && #[trigger] names[i] == name && schema::attribute_type(
                sch,
                name,
            ) is None && all_known(sch, names.take(i)),
    decreases names.len(),
{
    if names.len() > 0 {
        let rest = names.drop_first();
        the_first_unknown_is_unknown(sch, rest);
        assert forall|i: int| 0 <= i < rest.len() implies #[trigger] rest[i] == names[i + 1] by {}
        if schema::attribute_type(sch, names[0]) is None {
            assert(names.take(0) =~= Seq::<Seq<char>>::empty());
            assert(names[0] == names[0]);
        } else {
            if all_known(sch, rest) {
                assert forall|i: int| 0 <= i < names.len() implies schema::attribute_type(
                    sch,
                    #[trigger] names[i],
                ) is Some by {
                    if i > 0 {
                        assert(names[i] == rest[i - 1]);
                    }
                }
            }
            if all_known(sch, names) {
                assert forall|i: int| 0 <= i < rest.len() implies schema::attribute_type(
                    sch,
                    #[trigger] rest[i],
                ) is Some by {
                    assert(rest[i] == names[i + 1]);
                }
            }
            if let Some(name) = first_unknown(sch, rest) {
                let i = choose|i: int|
                    0 <= i < rest.len() && #[trigger] rest[i] == name && schema::attribute_type(
                        sch,
                        name,
                    ) is None && all_known(sch, rest.take(i));
                assert(names[i + 1] == name);
                let front = names.take(i + 1);
                assert forall|m: int| 0 <= m < front.len() implies schema::attribute_type(
                    sch,
                    #[trigger] front[m],
                ) is Some by {
                    if m > 0 {
                        assert(rest.take(i)[m - 1] == front[m]);
                    }
                }
            }
        }
    }
}

/// A request to modify the schema asks whether the client may, and is answered
/// by what the update came to.
pub proof fn a_schema_update_is_answered_by_its_outcome(
    req: ModifyRequest,
    facts: SchemaModifyFacts,
)
    ensures
        ({
            let step = schema_modify_step(req, facts);
            &&& facts.authorized is None ==> asks(
                step,
                req.head,
                ResponseOp::Modify,
                Permission::Modify,
                req.dn@,
            )
            &&& facts.authorized == Some(false) ==> step is Stop
            &&& facts.authorized == Some(true) ==> {
                &&& facts.attributes_authorized is None ==> asks_for_attributes(
                    step,
                    req.head,
                    ResponseOp::Modify,
                    Permission::Modify,
                    req.dn@,
                    text::texts(req.attributes@),
                )
                &&& facts.attributes_authorized == Some(false) ==> step is Stop
                &&& facts.attributes_authorized == Some(true) ==> {
                    &&& facts.updated is None ==> step is UpdateSchema
                    &&& facts.updated matches Some(Ok(_)) ==> answers(
                        step,
                        req.head,
                        ResultCode::Success,
                        ""@,
                        true,
                    )
                    &&& facts.updated matches Some(Err(e)) ==> answers(
                        step,
                        req.head,
                        e.0,
                        e.1@,
                        false,
                    )
                }
            }
        }),
{
}

/// A request to compare asks whether the client may, hands on the entry, the
/// attribute and the value that it names, and is answered as a match exactly
/// where the comparison came to one.
pub proof fn a_compare_is_answered_by_its_outcome(req: CompareRequest, facts: CompareFacts)
    ensures
        ({
            let step = compare_step(req, facts);
            &&& facts.authorized is None ==> asks(
                step,
                req.head,
                ResponseOp::Compare,
                Permission::Compare,
                req.dn@,
            ) && step->Authorize_0.attribute == Some(req.attribute@)
            &&& facts.authorized == Some(false) ==> step is Stop
            &&& facts.authorized == Some(true) ==> {
                &&& facts.started is None ==> step == (StepView::StartCompare {
                    dn: req.dn@,
                    attribute: req.attribute@,
                    value: req.value@,
                })
                &&& facts.started matches Some(Err(e)) ==> fails_to_compare(step, req.head, e)
                &&& facts.started matches Some(Ok(_)) ==> {
                    &&& facts.read is None ==> step is ReadEntry
                    &&& facts.read matches Some(Err(e)) ==> fails_to_compare(step, req.head, e)
                    &&& facts.read matches Some(Ok(_)) ==> {
                        &&& facts.result is None ==> step is TakeResult
                        &&& facts.result == Some(None::<bool>) ==> step is Fail
                        &&& facts.result matches Some(Some(matched)) ==> {
                            &&& facts.emitted is None ==> step is EmitResult
                            &&& facts.emitted matches Some(Err(e)) ==> fails_to_compare(
                                step,
                                req.head,
                                e,
                            )
                            &&& facts.emitted matches Some(Ok(_)) ==> answers(
                                step,
                                req.head,
                                if matched {
                                    ResultCode::CompareTrue
                                } else {
                                    ResultCode::CompareFalse
                                },
                                ""@,
                                true,
                            )
                        }
                    }
                }
            }
        }),
{
}

/// The step answers the error of a comparison by its code and its text.
pub open spec fn fails_to_compare(
    step: StepView,
    head: RequestHead,
    e: CompareFsmError,
) -> bool {
    answers(
        step,
        head,
        response::compare_error_answer(e).0,
        response::compare_error_answer(e).1,
        false,
    )
}

/// What the audit log has of an answer: the name of the outcome, and the detail
/// that goes with it.
pub open spec fn notes(step: StepView, outcome: Seq<char>, detail: Option<Seq<char>>) -> bool {
    step matches StepView::Answer { audit: Some(a), .. } ==> a.outcome == outcome && a.detail
        == detail
}

/// What a question for a permission is called in the audit log.
pub open spec fn is_called(step: StepView, operation: Seq<char>) -> bool {
    &&& step matches StepView::Authorize(a) ==> a.operation == operation
    &&& step matches StepView::AuthorizeAttributes(a, _) ==> a.operation == operation
}

/// A question is noted under the name of its request. Of a deletion and of an
/// added entry the audit log has no detail; of a modification that was refused it
/// has the text that was answered.
pub proof fn requests_are_noted(
    delete: DeleteRequest,
    delete_facts: DeleteFacts,
    add: AddRequest,
    add_facts: AddFacts,
    modify: ModifyRequest,
    sch: LdapSchema,
    modify_facts: ModifyFacts,
    schema_facts: SchemaModifyFacts,
)
    ensures
        is_called(delete_step(delete, delete_facts), "delete"@),
        notes(delete_step(delete, delete_facts), ""@, None),
        is_called(add_step(add, add_facts), "add"@),
        notes(add_step(add, add_facts), ""@, None),
        is_called(modify_step(modify, sch, modify_facts), "modify"@),
        modify_step(modify, sch, modify_facts) matches StepView::Answer { audit, reply }
            ==> audit is Some && notes(
            modify_step(modify, sch, modify_facts),
            ""@,
            if reply.code == ResultCode::Success && (modify_facts.modified matches Some(Ok(_)))
                && modify.managed is None {
                None
            } else {
                Some(reply.diagnostic)
            },
        ),
        is_called(schema_modify_step(modify, schema_facts), "modify"@),
        schema_modify_step(modify, schema_facts) matches StepView::Answer { audit, reply }
            ==> audit is Some && notes(
            schema_modify_step(modify, schema_facts),
            ""@,
            if schema_facts.updated matches Some(Ok(_)) {
                None
            } else {
                Some(reply.diagnostic)
            },
        ),
{
}

/// A rename is noted with the text that was answered, where there is one, and a
/// rename of what is not there is not noted. A comparison is noted by what it
/// came to.
pub proof fn renames_and_comparisons_are_noted(
    req: ModDnRequest,
    facts: ModDnFacts,
    compare: CompareRequest,
    compare_facts: CompareFacts,
)
    ensures
        is_called(moddn_step(req, facts), "modifydn"@),
        moddn_step(req, facts) matches StepView::Answer { audit, reply } ==> {
            &&& facts.found matches Some(Ok(false)) ==> audit is None && reply.diagnostic
                == "no such object"@
            &&& !(facts.found matches Some(Ok(false))) ==> audit is Some
            &&& reply.diagnostic.len() > 0 ==> notes(
                moddn_step(req, facts),
                ""@,
                Some(reply.diagnostic),
            )
            &&& (facts.found matches Some(Ok(true))) && reply.diagnostic == ""@ ==> notes(
                moddn_step(req, facts),
                ""@,
                None,
            )
        },
        is_called(compare_step(compare, compare_facts), "compare"@),
        compare_step(compare, compare_facts) matches StepView::Answer { audit, reply } ==> {
            &&& audit is Some
            &&& audit->0.success ==> notes(
                compare_step(compare, compare_facts),
                if reply.code == ResultCode::CompareTrue {
                    "true"@
                } else {
                    "false"@
                },
                None,
            )
            &&& !audit->0.success ==> notes(
                compare_step(compare, compare_facts),
                "error"@,
                if reply.diagnostic.len() > 0 {
                    Some(reply.diagnostic)
                } else {
                    None
                },
            )
        },
{
    reveal_strlit("");
    reveal_strlit("Schema validation failed: ");
    if let StepView::Answer { reply, .. } = compare_step(compare, compare_facts) {
        assert(reply.diagnostic.len() == 0 ==> reply.diagnostic =~= ""@);
    }
    if let StepView::Answer { reply, .. } = moddn_step(req, facts) {
        assert(reply.diagnostic.len() == 0 ==> reply.diagnostic =~= ""@);
    }
}

// ---------------------------------------------------------------------------
// The entry that is handed on
// ---------------------------------------------------------------------------

/// The line of one value of an attribute.
pub open spec fn line(name: Seq<char>, value: Seq<char>) -> Seq<char> {
    name + ": "@ + value + "\n"@
}

/// The text holds the line, from some place on.
pub open spec fn holds(s: Seq<char>, part: Seq<char>) -> bool {
    exists|i: int| 0 <= i && i + part.len() <= s.len() && #[trigger] s.subrange(i, i + part.len()) == part
}

proof fn held_in_more(a: Seq<char>, b: Seq<char>, part: Seq<char>)
    ensures
        holds(a, part) ==> holds(a + b, part),
        holds(b, part) ==> holds(a + b, part),
{
    if holds(a, part) {
        let i = choose|i: int|
            0 <= i && i + part.len() <= a.len() && #[trigger] a.subrange(i, i + part.len()) == part;
        assert((a + b).subrange(i, i + part.len()) =~= part);
    }
    if holds(b, part) {
        let i = choose|i: int|
            0 <= i && i + part.len() <= b.len() && #[trigger] b.subrange(i, i + part.len()) == part;
        assert((a + b).subrange(i + a.len(), i + a.len() + part.len()) =~= part);
    }
}

proof fn each_value_has_a_line(name: Seq<char>, values: Seq<Seq<char>>, k: int)
    requires
        0 <= k < values.len(),
    ensures
        holds(value_lines(name, values), line(name, values[k])),
    decreases values.len(),
{
    let front = values.drop_last();
    let last = line(name, values.last());
    assert(value_lines(name, values) =~= value_lines(name, front) + last);
    if k < front.len() {
        each_value_has_a_line(name, front, k);
        assert(front[k] == values[k]);
    } else {
        assert(last.subrange(0, 0int + last.len()) =~= last);
        assert(holds(last, last));
    }
    held_in_more(value_lines(name, front), last, line(name, values[k]));
}

proof fn each_name_has_its_lines(attrs: AttributeSeq, names: Seq<Seq<char>>, n: int, k: int)
    requires
        0 <= n < names.len(),
        string_map::lookup(attrs, names[n]) matches Some(values) && 0 <= k < values.len(),
    ensures
        holds(
            attribute_lines(attrs, names),
            line(names[n], (string_map::lookup(attrs, names[n])->0)[k]),
        ),
    decreases names.len(),
{
    let front = names.drop_last();
    let own = match string_map::lookup(attrs, names.last()) {
        Some(values) => value_lines(names.last(), values),
        None => Seq::empty(),
    };
    let wanted = line(names[n], (string_map::lookup(attrs, names[n])->0)[k]);
    if n < front.len() {
        each_name_has_its_lines(attrs, front, n, k);
    } else {
        each_value_has_a_line(names[n], string_map::lookup(attrs, names[n])->0, k);
    }
    held_in_more(attribute_lines(attrs, front), own, wanted);
}

/// The text that is handed on for an entry begins with its name and holds a line
/// for each value of each of its attributes.
pub proof fn the_entry_is_handed_on_whole(dn: Seq<char>, attrs: AttributeSeq, n: int, k: int)
    requires
        string_map::distinct_keys(attrs),
        0 <= n < attrs.len(),
        0 <= k < attrs[n].1.len(),
    ensures
        text::starts_with(entry_text(dn, attrs), "dn: "@ + dn + "\n"@),
        holds(entry_text(dn, attrs), line(attrs[n].0, attrs[n].1[k])),
{
    let start = "dn: "@ + dn + "\n"@;
    let names = sorted_names(attrs);
    let name = attrs[n].0;
    assert(entry_text(dn, attrs).take(start.len() as int) =~= start);
    string_map::lookup_entry(attrs, n);
    names_are_sorted(attrs);
    assert(names_of(attrs)[n] == name);
    names_of(attrs).to_multiset_ensures();
    names.to_multiset_ensures();
    assert(names_of(attrs).contains(name));
    assert(names_of(attrs).to_multiset().count(name) > 0);
    assert(names.contains(name));
    let m = choose|m: int| 0 <= m < names.len() && names[m] == name;
    each_name_has_its_lines(attrs, names, m, k);
    held_in_more(start, attribute_lines(attrs, names), line(name, attrs[n].1[k]));
}

// ---------------------------------------------------------------------------
// Errors
// ---------------------------------------------------------------------------

/// What went wrong is what the client is told: each error of a write has its
/// code, and the texts that come with it go out as they are.
pub proof fn write_errors_have_their_codes(e: WriteFsmError)
    ensures
        ({
            let a = response::write_error_answer(e);
            match e {
                WriteFsmError::InvalidOperation { message } => a == (
                    ResultCode::ProtocolError,
                    message@,
                ),
                WriteFsmError::AccessDenied { message } => a == (
                    ResultCode::InsufficientAccessRights,
                    message@,
                ),
                WriteFsmError::EntryAlreadyExists => a.0 == ResultCode::EntryAlreadyExists,
                WriteFsmError::NoSuchObject => a.0 == ResultCode::NoSuchObject,
                WriteFsmError::ConstraintViolation { message } => a == (
                    ResultCode::ConstraintViolation,
                    message@,
                ),
                WriteFsmError::SchemaError { message } => a == (
                    ResultCode::ObjectClassViolation,
                    message@,
                ),
                WriteFsmError::InvalidStateTransition { shown } => a == (
                    ResultCode::OperationsError,
                    shown@,
                ),
                WriteFsmError::NoActiveOperation { shown } => a == (
                    ResultCode::OperationsError,
                    shown@,
                ),
                WriteFsmError::BackendError { message } => tells_of_the_store(a, message@),
                WriteFsmError::TransactionError { message } => tells_of_the_store(a, message@),
                WriteFsmError::Generic { message } => tells_of_the_store(a, message@),
            }
        }),
{
}

/// A failure of the store is told by what its text says, in any case: that the
/// entry exists, that it does not, or else that the server is not available.
pub open spec fn tells_of_the_store(a: (ResultCode, Seq<char>), message: Seq<char>) -> bool {
    let exists_already = text::contains_text(text::lower(message), "entry already exists"@);
    let missing = text::contains_text(text::lower(message), "entry not found"@)
        || text::contains_text(text::lower(message), "no such object"@);
    &&& a.0 == ResultCode::EntryAlreadyExists <==> exists_already
    &&& a.0 == ResultCode::NoSuchObject <==> !exists_already && missing
    &&& !exists_already && !missing ==> a == (ResultCode::Unavailable, message)
}

/// The errors of the store and of comparisons have their codes too.
pub proof fn other_errors_have_their_codes(e: BackendError, c: CompareFsmError)
    ensures
        e is AlreadyExists <==> response::backend_code(e) == ResultCode::EntryAlreadyExists,
        e is NotFound <==> response::backend_code(e) == ResultCode::NoSuchObject,
        e is Storage <==> response::backend_code(e) == ResultCode::Unavailable,
        c is NoSuchObject <==> response::compare_error_answer(c).0 == ResultCode::NoSuchObject,
        c is AccessDenied <==> response::compare_error_answer(c).0
            == ResultCode::InsufficientAccessRights,
        c is NoSuchAttribute <==> response::compare_error_answer(c).0 == ResultCode::CompareFalse,
        c matches CompareFsmError::InvalidParameters { message } ==> response::compare_error_answer(
            c,
        ) == (ResultCode::ProtocolError, message@),
        c matches CompareFsmError::BackendError { message } ==> response::compare_error_answer(c)
            == (ResultCode::Unavailable, message@),
{
}

} // verus!
