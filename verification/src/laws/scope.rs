//! Laws of filters before they are evaluated, and of the changes that they are
//! held against: what a filter of a request means, what it hints at, and which
//! changes a search is told of.

use vstd::prelude::*;

use crate::directory::{HintView, PartView};
use crate::ldap_filter_eval::{
    any_in_scope, ava_values, change_verdict, compiled, dn_values, exact_hint,
    extensible_components, extensible_fits, extensible_of, filter_error_text, first_prepared_hint,
    in_scope, normalized_dn, part_text, prepared_hint, rdn_values, renamed, rule_error, satisfies,
    tag_filter, tag_filters, tag_part, tag_parts, wanted_payload, ChangeType, FilterErrorView,
    FilterView, PayloadKind, PreparedChange, PreparedView, SearchFilter, SearchSubstring,
    TagBodyView, TagView,
};
use crate::response;
use crate::response::ResultCode;
use crate::schema::RuleErrorView;
use crate::text;

verus! {

/// The filter of a request is evaluated as it was sent: the same members under
/// the same connectives, names in lower case, and values as the texts that
/// they encode.
pub proof fn filters_are_evaluated_as_sent(f: SearchFilter)
    ensures
        match f {
            SearchFilter::And(fs) => compiled(f) matches FilterView::And(gs) && gs.len()
                == fs@.len() && forall|i: int|
                0 <= i < gs.len() ==> #[trigger] gs[i] == compiled(fs@[i]),
            SearchFilter::Or(fs) => compiled(f) matches FilterView::Or(gs) && gs.len() == fs@.len()
                && forall|i: int|
                0 <= i < gs.len() ==> #[trigger] gs[i] == compiled(fs@[i]),
            SearchFilter::Not(g) => compiled(f) == FilterView::Not(Box::new(compiled(*g))),
            SearchFilter::EqualityMatch { attribute, value } => compiled(
                f,
            ) matches FilterView::Equality { attribute: a, value: v } && a == text::lower(
                attribute@,
            ) && v == text::utf8_lossy(value@),
            SearchFilter::GreaterOrEqual { attribute, value } => compiled(
                f,
            ) matches FilterView::GreaterOrEqual { attribute: a, value: v } && a == text::lower(
                attribute@,
            ) && v == text::utf8_lossy(value@),
            SearchFilter::LessOrEqual { attribute, value } => compiled(
                f,
            ) matches FilterView::LessOrEqual { attribute: a, value: v } && a == text::lower(
                attribute@,
            ) && v == text::utf8_lossy(value@),
            SearchFilter::ApproxMatch { attribute, value } => compiled(
                f,
            ) matches FilterView::ApproxMatch { attribute: a, value: v } && a == text::lower(
                attribute@,
            ) && v == text::utf8_lossy(value@),
            SearchFilter::Present { attribute } => compiled(f) matches FilterView::Present {
                attribute: a,
            } && a == text::lower(attribute@),
            SearchFilter::Substrings { attribute, substrings } => compiled(
                f,
            ) matches FilterView::Substrings { attribute: a, parts } && a == text::lower(attribute@)
                && parts.len() == substrings@.len() && forall|i: int|
                0 <= i < parts.len() ==> match substrings@[i] {
                    SearchSubstring::Initial(b) => #[trigger] parts[i] == PartView::Initial(
                        text::utf8_lossy(b@),
                    ),
                    SearchSubstring::Any(b) => parts[i] == PartView::Any(text::utf8_lossy(b@)),
                    SearchSubstring::Final(b) => parts[i] == PartView::Final(text::utf8_lossy(b@)),
                },
            SearchFilter::ExtensibleMatch { rule_type, matching_rule, value, dn_attributes } =>
                compiled(f) matches FilterView::Extensible {
                    attribute,
                    matching_rule: rule,
                    value: v,
                    dn_attributes: with_dn,
                } && v == text::utf8_lossy(value@) && with_dn == (dn_attributes == Some(true)) && (
                attribute is Some <==> rule_type is Some) && (attribute is Some ==> attribute->0
                    == text::lower(rule_type->0@)) && (rule is Some <==> matching_rule is Some) && (
                rule is Some ==> rule->0 == text::lower(matching_rule->0@)),
        },
{
}

/// A value with that class and identifier and those contents.
pub open spec fn octets(t: TagView, id: u64, bytes: Seq<u8>) -> bool {
    t.body == (TagBodyView::OctetString { class: 2, id, inner: bytes })
}

proof fn all_tags_are_filters(ts: Seq<TagView>)
    ensures
        tag_filters(ts) is Ok <==> forall|i: int|
            0 <= i < ts.len() ==> tag_filter(#[trigger] ts[i]) is Ok,
        tag_filters(ts) matches Ok(fs) ==> fs.len() == ts.len() && forall|i: int|
            0 <= i < ts.len() ==> tag_filter(#[trigger] ts[i]) == Ok::<FilterView, Seq<char>>(
                fs[i],
            ),
    decreases ts.len(),
{
    if ts.len() > 0 {
        let rest = ts.drop_first();
        all_tags_are_filters(rest);
        assert forall|i: int| 0 <= i < rest.len() implies #[trigger] rest[i] == ts[i + 1] by {}
        if tag_filters(ts) is Ok {
            let fs = tag_filters(ts)->Ok_0;
            assert forall|i: int| 0 <= i < ts.len() implies tag_filter(#[trigger] ts[i]) == Ok::<
                FilterView,
                Seq<char>,
            >(fs[i]) by {
                if i > 0 {
                    assert(tag_filter(rest[i - 1]) == Ok::<FilterView, Seq<char>>(
                        tag_filters(rest)->Ok_0[i - 1],
                    ));
                }
            }
        } else if forall|i: int| 0 <= i < ts.len() ==> tag_filter(#[trigger] ts[i]) is Ok {
            assert(tag_filter(ts[0]) is Ok);
            assert forall|i: int| 0 <= i < rest.len() implies tag_filter(#[trigger] rest[i])
                is Ok by {
                assert(tag_filter(ts[i + 1]) is Ok);
            }
            assert(false);
        }
    }
}

/// A filter that was written as a text has the connective of its tag, and a
/// member for each of the tags inside; one of them that is no filter makes the
/// whole no filter.
pub proof fn connectives_hold_their_members(t: TagView, inner: Seq<TagView>, id: u64)
    requires
        t.body == (TagBodyView::Sequence { class: 2, id, inner }),
        id == 0 || id == 1,
    ensures
        tag_filter(t) is Ok <==> forall|i: int|
            0 <= i < inner.len() ==> tag_filter(#[trigger] inner[i]) is Ok,
        tag_filter(t) matches Ok(f) ==> (id == 0 ==> f is And) && (id == 1 ==> f is Or) && ({
            let fs = if id == 0 {
                f->And_0
            } else {
                f->Or_0
            };
            fs.len() == inner.len() && forall|i: int|
                0 <= i < inner.len() ==> tag_filter(#[trigger] inner[i]) == Ok::<
                    FilterView,
                    Seq<char>,
                >(fs[i])
        }),
{
    reveal_with_fuel(tag_filter, 2);
    all_tags_are_filters(inner);
}

/// A negation of what is written inside, and a presence of the attribute that
/// is named.
pub proof fn negations_and_presences_are_read(
    t: TagView,
    inner: TagView,
    p: TagView,
    name: Seq<u8>,
)
    requires
        t.body == (TagBodyView::Explicit { class: 2, id: 2, inner: Box::new(inner) }),
        octets(p, 7, name),
    ensures
        tag_filter(t) is Ok <==> tag_filter(inner) is Ok,
        tag_filter(inner) matches Ok(g) ==> tag_filter(t) == Ok::<FilterView, Seq<char>>(
            FilterView::Not(Box::new(g)),
        ),
        tag_filter(p) == Ok::<FilterView, Seq<char>>(
            FilterView::Present { attribute: text::lower(text::utf8_lossy(name)) },
        ),
{
    reveal_with_fuel(tag_filter, 2);
}

/// A comparison of an attribute with a value: which one is told by the tag,
/// and what is compared by the two octet strings inside.
pub proof fn comparisons_are_read(
    t: TagView,
    id: u64,
    a: TagView,
    name: Seq<u8>,
    v: TagView,
    value: Seq<u8>,
)
    requires
        t.body == (TagBodyView::Sequence { class: 2, id, inner: seq![a, v] }),
        a.body matches TagBodyView::OctetString { inner, .. } && inner == name,
        v.body matches TagBodyView::OctetString { inner, .. } && inner == value,
    ensures
        ({
            let attribute = text::lower(text::utf8_lossy(name));
            let value = text::utf8_lossy(value);
            &&& id == 3 ==> tag_filter(t) == Ok::<FilterView, Seq<char>>(
                FilterView::Equality { attribute, value },
            )
            &&& id == 5 ==> tag_filter(t) == Ok::<FilterView, Seq<char>>(
                FilterView::GreaterOrEqual { attribute, value },
            )
            &&& id == 6 ==> tag_filter(t) == Ok::<FilterView, Seq<char>>(
                FilterView::LessOrEqual { attribute, value },
            )
            &&& id == 8 ==> tag_filter(t) == Ok::<FilterView, Seq<char>>(
                FilterView::ApproxMatch { attribute, value },
            )
        }),
{
    assert(seq![a, v][0] == a);
    assert(seq![a, v][1] == v);
}

/// The pieces of a pattern are read one by one, each for the place in the
/// value that its tag tells.
pub proof fn patterns_are_read(ts: Seq<TagView>)
    ensures
        tag_parts(ts) matches Ok(parts) ==> parts.len() == ts.len() && forall|i: int|
            0 <= i < ts.len() ==> match (#[trigger] ts[i]).body {
                TagBodyView::OctetString { class, id, inner } => class == 2 && (id == 0 || id == 1
                    || id == 2) && (id == 0 ==> parts[i] == PartView::Initial(
                    text::utf8_lossy(inner),
                )) && (id == 1 ==> parts[i] == PartView::Any(text::utf8_lossy(inner))) && (id == 2
                    ==> parts[i] == PartView::Final(text::utf8_lossy(inner))),
                _ => false,
            },
        (forall|i: int|
            0 <= i < ts.len() ==> ((#[trigger] ts[i]).body matches TagBodyView::OctetString {
                class,
                id,
                ..
            } && class == 2 && id <= 2)) ==> tag_parts(ts) is Ok,
    decreases ts.len(),
{
    if ts.len() > 0 {
        let rest = ts.drop_first();
        patterns_are_read(rest);
        assert forall|i: int| 0 <= i < rest.len() implies #[trigger] rest[i] == ts[i + 1] by {}
        if tag_parts(ts) is Ok {
            let parts = tag_parts(ts)->Ok_0;
            let others = tag_parts(rest)->Ok_0;
            assert forall|i: int| 0 <= i < ts.len() implies match (#[trigger] ts[i]).body {
                TagBodyView::OctetString { class, id, inner } => class == 2 && (id == 0 || id == 1
                    || id == 2) && (id == 0 ==> parts[i] == PartView::Initial(
                    text::utf8_lossy(inner),
                )) && (id == 1 ==> parts[i] == PartView::Any(text::utf8_lossy(inner))) && (id == 2
                    ==> parts[i] == PartView::Final(text::utf8_lossy(inner))),
                _ => false,
            } by {
                if i > 0 {
                    assert(rest[i - 1] == ts[i]);
                    assert(parts[i] == others[i - 1]);
                } else {
                    assert(tag_part(ts[0]) is Ok);
                }
            }
        } else if forall|i: int|
            0 <= i < ts.len() ==> ((#[trigger] ts[i]).body matches TagBodyView::OctetString {
                class,
                id,
                ..
            } && class == 2 && id <= 2) {
            assert(ts[0].body is OctetString);
            assert forall|i: int| 0 <= i < rest.len() implies ((
            #[trigger] rest[i]).body matches TagBodyView::OctetString { class, id, .. } && class
                == 2 && id <= 2) by {
                assert(ts[i + 1].body is OctetString);
            }
            assert(tag_parts(rest) is Ok);
            assert(tag_part(ts[0]) is Ok);
        }
    }
}

/// A pattern over an attribute is read from its name and its pieces.
pub proof fn patterns_belong_to_their_attribute(
    t: TagView,
    a: TagView,
    name: Seq<u8>,
    p: TagView,
    pieces: Seq<TagView>,
)
    requires
        t.body == (TagBodyView::Sequence { class: 2, id: 4, inner: seq![a, p] }),
        a.body matches TagBodyView::OctetString { inner, .. } && inner == name,
        p.body matches TagBodyView::Sequence { inner, .. } && inner == pieces,
    ensures
        tag_parts(pieces) matches Ok(parts) ==> tag_filter(t) == Ok::<FilterView, Seq<char>>(
            FilterView::Substrings { attribute: text::lower(text::utf8_lossy(name)), parts },
        ),
        tag_parts(pieces) is Err ==> tag_filter(t) is Err,
{
    assert(seq![a, p][0] == a);
    assert(seq![a, p][1] == p);
}

/// A match by a rule is read from its components: the rule, the attribute, the
/// value, and whether the parts of the name are taken in.
pub proof fn matches_by_rule_are_read(
    t: TagView,
    r: TagView,
    rule: Seq<u8>,
    a: TagView,
    name: Seq<u8>,
    v: TagView,
    value: Seq<u8>,
    d: TagView,
    with_dn: bool,
)
    requires
        t.body == (TagBodyView::Sequence { class: 2, id: 9, inner: seq![r, a, v, d] }),
        octets(r, 1, rule),
        octets(a, 2, name),
        octets(v, 3, value),
        d.body == (TagBodyView::Boolean { class: 2, id: 4, inner: with_dn }),
    ensures
        tag_filter(t) == Ok::<FilterView, Seq<char>>(
            FilterView::Extensible {
                attribute: Some(text::lower(text::utf8_lossy(name))),
                matching_rule: Some(text::lower(text::utf8_lossy(rule))),
                value: text::utf8_lossy(value),
                dn_attributes: with_dn,
            },
        ),
{
    let ts = seq![r, a, v, d];
    reveal_with_fuel(extensible_components, 5);
    assert(ts.drop_first() =~= seq![a, v, d]);
    assert(seq![a, v, d].drop_first() =~= seq![v, d]);
    assert(seq![v, d].drop_first() =~= seq![d]);
    assert(seq![d].drop_first() =~= Seq::<TagView>::empty());
    assert(extensible_of(ts) is Ok);
}

/// An index is asked for what a single comparison asks for, and answers it
/// exactly; for a pattern it is asked only where a piece is long enough, and
/// its answer is not exact; a choice, a negation or a match by a rule is not
/// asked for, and a conjunction is asked for by the first of its members that
/// can be.
pub proof fn hints_are_what_is_asked_for(f: PreparedView)
    ensures
        match f {
            PreparedView::Equality { attribute, value, .. } => prepared_hint(f) == Some(
                HintView::Equality { attribute, value },
            ) && exact_hint(f) == prepared_hint(f),
            PreparedView::Present { attribute } => prepared_hint(f) == Some(
                HintView::Present { attribute },
            ) && exact_hint(f) == prepared_hint(f),
            PreparedView::GreaterOrEqual { attribute, value, .. } => prepared_hint(f) == Some(
                HintView::GreaterOrEqual { attribute, value },
            ) && exact_hint(f) == prepared_hint(f),
            PreparedView::LessOrEqual { attribute, value, .. } => prepared_hint(f) == Some(
                HintView::LessOrEqual { attribute, value },
            ) && exact_hint(f) == prepared_hint(f),
            PreparedView::Substrings { attribute, parts, .. } => exact_hint(f) is None && (
            prepared_hint(f) is Some <==> exists|i: int|
                0 <= i < parts.len() && (match #[trigger] parts[i] {
                    PartView::Initial(s) => s.len() >= 3,
                    PartView::Any(s) => s.len() >= 3,
                    PartView::Final(s) => s.len() >= 3,
                })) && (prepared_hint(f) is Some ==> prepared_hint(f) == Some(
                HintView::Substring { attribute, parts },
            )),
            PreparedView::And(fs) => exact_hint(f) is None && (prepared_hint(f) is Some
                <==> exists|i: int|
                0 <= i < fs.len() && prepared_hint(#[trigger] fs[i]) is Some) && (prepared_hint(
                f,
            ) is Some ==> exists|i: int|
                0 <= i < fs.len() && prepared_hint(#[trigger] fs[i]) == prepared_hint(f)),
            _ => prepared_hint(f) is None && exact_hint(f) is None,
        },
{
    match f {
        PreparedView::And(fs) => {
            reveal_with_fuel(prepared_hint, 2);
            members_hint(fs);
        },
        PreparedView::Substrings { attribute, parts, .. } => {
            if exists|i: int|
                0 <= i < parts.len() && (match #[trigger] parts[i] {
                    PartView::Initial(s) => s.len() >= 3,
                    PartView::Any(s) => s.len() >= 3,
                    PartView::Final(s) => s.len() >= 3,
                }) {
                let i = choose|i: int|
                    0 <= i < parts.len() && (match #[trigger] parts[i] {
                        PartView::Initial(s) => s.len() >= 3,
                        PartView::Any(s) => s.len() >= 3,
                        PartView::Final(s) => s.len() >= 3,
                    });
                assert(part_text(parts[i]).len() >= 3);
            }
            if prepared_hint(f) is Some {
                let i = choose|i: int|
                    0 <= i < parts.len() && part_text(
                        #[trigger] parts[i],
                    ).len() >= 3;
                assert(0 <= i < parts.len());
            }
        },
        _ => {},
    }
}

proof fn members_hint(fs: Seq<PreparedView>)
    ensures
        first_prepared_hint(fs) is Some <==> exists|i: int|
            0 <= i < fs.len() && prepared_hint(#[trigger] fs[i]) is Some,
        first_prepared_hint(fs) is Some ==> exists|i: int|
            0 <= i < fs.len() && prepared_hint(#[trigger] fs[i]) == first_prepared_hint(fs),
    decreases fs.len(),
{
    if fs.len() > 0 {
        let rest = fs.drop_first();
        members_hint(rest);
        if prepared_hint(fs[0]) is Some {
        } else {
            if first_prepared_hint(rest) is Some {
                let i = choose|i: int|
                    0 <= i < rest.len() && prepared_hint(#[trigger] rest[i]) == first_prepared_hint(
                        rest,
                    );
                assert(fs[i + 1] == rest[i]);
            }
            if exists|i: int| 0 <= i < fs.len() && prepared_hint(#[trigger] fs[i]) is Some {
                let i = choose|i: int| 0 <= i < fs.len() && prepared_hint(#[trigger] fs[i]) is Some;
                assert(rest[i - 1] == fs[i]);
            }
        }
    }
}

/// A name is in the scope of a base exactly where it is the base, or ends, in
/// lower case, with a comma and the base.
pub proof fn names_below_a_base_are_in_its_scope(dn: Seq<char>, base: Seq<char>)
    ensures
        in_scope(dn, base) <==> dn == base || exists|front: Seq<char>|
            text::unicode_lower(dn) == #[trigger] (front + seq![','] + text::unicode_lower(base)),
{
    let d = text::unicode_lower(dn);
    let b = text::unicode_lower(base);
    let n = d.len() - b.len() - 1;
    if in_scope(dn, base) && dn != base {
        let front = d.take(n);
        assert(d.skip(d.len() - b.len()) =~= b);
        assert(d =~= front + seq![','] + b);
    }
    if exists|front: Seq<char>| d == #[trigger] (front + seq![','] + b) {
        let front = choose|front: Seq<char>| d == #[trigger] (front + seq![','] + b);
        assert(d.skip(d.len() - b.len()) =~= b);
        assert(d[n] == ',');
        assert(in_scope(dn, base));
    }
}

/// A search is told of a change exactly where one of the names of the change
/// is in its scope, and the entry of the change matches its filter; what the
/// filter cannot be held against is an error.
pub proof fn searches_are_told_of_changes(
    c: PreparedChange,
    base: Seq<char>,
    filter: Option<FilterView>,
)
    ensures
        !(exists|i: int| 0 <= i < c.scope_dns@.len() && in_scope(#[trigger] c.scope_dns@[i]@, base))
            ==> change_verdict(c, base, filter) == Ok::<bool, Seq<char>>(false),
        (exists|i: int| 0 <= i < c.scope_dns@.len() && in_scope(#[trigger] c.scope_dns@[i]@, base))
            ==> match filter {
            None => change_verdict(c, base, filter) == Ok::<bool, Seq<char>>(true),
            Some(f) => (change_verdict(c, base, filter) is Ok <==> c.change_type
                != ChangeType::Rename && c.entry is Some) && (change_verdict(
                c,
                base,
                filter,
            ) matches Ok(b) ==> b == satisfies(f, c.entry->0.dn@, c.entry->0.attributes@)),
        },
{
    let names = text::texts(c.scope_dns@);
    if any_in_scope(names, base) {
        let i = choose|i: int| 0 <= i < names.len() && in_scope(#[trigger] names[i], base);
        assert(in_scope(c.scope_dns@[i]@, base));
    }
    if exists|i: int| 0 <= i < c.scope_dns@.len() && in_scope(#[trigger] c.scope_dns@[i]@, base) {
        let i = choose|i: int|
            0 <= i < c.scope_dns@.len() && in_scope(#[trigger] c.scope_dns@[i]@, base);
        assert(names[i] == c.scope_dns@[i]@);
        assert(any_in_scope(names, base));
    }
}

/// The payload of a rename is read as a rename; that of another change as an
/// entry, where one is wanted.
pub proof fn payloads_are_read_as_their_change(t: ChangeType, wanted: bool)
    ensures
        wanted_payload(t, wanted) == PayloadKind::Rename <==> t == ChangeType::Rename,
        wanted_payload(t, wanted) == PayloadKind::Entry <==> t != ChangeType::Rename && wanted,
        wanted_payload(t, wanted) == PayloadKind::Unread <==> t != ChangeType::Rename && !wanted,
{
}

/// A renamed entry has its new first part before the new superior, or where it
/// stays before the rest of its name.
pub proof fn renamed_entries_keep_their_place(
    first: Seq<char>,
    rest: Seq<char>,
    new_rdn: Seq<char>,
    superior: Seq<char>,
)
    requires
        !first.contains(','),
    ensures
        renamed(first + seq![','] + rest, new_rdn, None) == new_rdn + seq![','] + rest,
        renamed(first, new_rdn, None) == new_rdn,
        renamed(first + seq![','] + rest, new_rdn, Some(superior)) == new_rdn + seq![',']
            + superior,
        renamed(first, new_rdn, Some(superior)) == new_rdn + seq![','] + superior,
{
    reveal_strlit(",");
    assert(","@ =~= seq![',']);
    let dn = first + seq![','] + rest;
    let n = first.len() as int;
    assert(dn[n] == ',');
    assert forall|j: int| 0 <= j < n implies dn[j] != ',' by {
        assert(first[j] == dn[j]);
        assert(first.contains(first[j]));
    }
    text::find_char_unique(dn, ',', n);
    assert(dn.skip(n + 1) =~= rest);
    text::find_char_bounds(first, ',');
}

/// Under a rule a value meets an assertion as the rule says: exactly, without
/// regard to case, as a name, as a number; an unknown rule is met by nothing.
pub proof fn rules_of_a_match_compare(a: Seq<char>, b: Seq<char>)
    ensures
        extensible_fits(a, b, None) <==> a == b,
        extensible_fits(a, b, Some("caseexactmatch"@)) <==> a == b,
        extensible_fits(a, b, Some("2.5.13.5"@)) <==> a == b,
        extensible_fits(a, b, Some("caseignorematch"@)) <==> text::unicode_lower(a)
            == text::unicode_lower(b),
        extensible_fits(a, b, Some("2.5.13.2"@)) <==> text::unicode_lower(a)
            == text::unicode_lower(b),
        extensible_fits(a, b, Some("booleanmatch"@)) <==> text::lower(a) == text::lower(b),
        extensible_fits(a, b, Some("objectidentifiermatch"@)) <==> text::lower(a) == text::lower(b),
        extensible_fits(a, b, Some("distinguishednamematch"@)) <==> normalized_dn(a)
            == normalized_dn(b),
        extensible_fits(a, b, Some("integermatch"@)) <==> text::integer_value(text::trim(a)) is Some
            && text::integer_value(text::trim(a)) == text::integer_value(text::trim(b)),
{
    reveal_strlit("caseexactmatch");
    reveal_strlit("2.5.13.5");
    reveal_strlit("caseignorematch");
    reveal_strlit("2.5.13.2");
    reveal_strlit("distinguishednamematch");
    reveal_strlit("2.5.13.1");
    reveal_strlit("integermatch");
    reveal_strlit("2.5.13.14");
    reveal_strlit("booleanmatch");
    reveal_strlit("2.5.13.13");
    reveal_strlit("objectidentifiermatch");
    reveal_strlit("2.5.13.0");
    assert("caseexactmatch"@.len() == 14);
    assert("caseignorematch"@.len() == 15);
    assert("distinguishednamematch"@.len() == 22);
    assert("integermatch"@.len() == 12);
    assert("booleanmatch"@.len() == 12);
    assert("integermatch"@[0] != "booleanmatch"@[0]);
    assert("objectidentifiermatch"@.len() == 21);
    assert("2.5.13.5"@[7] != "2.5.13.2"@[7]);
    assert("2.5.13.14"@.len() == 9);
}

/// The values in a name are those of its parts, each without the white space
/// around it: of all of them, or of those of one attribute, without regard to
/// case.
pub proof fn values_in_a_name(
    name: Seq<char>,
    value: Seq<char>,
    attribute: Seq<char>,
)
    requires
        !name.contains('='),
        !name.contains(','),
        !name.contains('+'),
        !value.contains(','),
        !value.contains('+'),
    ensures
        dn_values(name + seq!['='] + value, None) == seq![text::trim(value)],
        text::lower(text::trim(name)) == text::lower(attribute) ==> dn_values(
            name + seq!['='] + value,
            Some(attribute),
        ) == seq![text::trim(value)],
        text::lower(text::trim(name)) != text::lower(attribute) ==> dn_values(
            name + seq!['='] + value,
            Some(attribute),
        ).len() == 0,
{
    let s = name + seq!['='] + value;
    let n = name.len() as int;
    assert forall|j: int| 0 <= j < s.len() implies s[j] != ',' && s[j] != '+' by {
        if j < n {
            assert(s[j] == name[j]);
            assert(name.contains(name[j]));
        } else if j > n {
            assert(s[j] == value[j - n - 1]);
            assert(value.contains(value[j - n - 1]));
        }
    }
    assert(!s.contains(',') && !s.contains('+'));
    text::find_char_bounds(s, ',');
    text::find_char_bounds(s, '+');
    assert(text::split(s, ',') =~= seq![s]);
    assert(text::split(s, '+') =~= seq![s]);
    assert(s[n] == '=');
    assert forall|j: int| 0 <= j < n implies s[j] != '=' by {
        assert(s[j] == name[j]);
        assert(name.contains(name[j]));
    }
    text::find_char_unique(s, '=', n);
    assert(s.take(n) =~= name);
    assert(s.skip(n + 1) =~= value);
    assert(seq![s].drop_last() =~= Seq::<Seq<char>>::empty());
    assert(seq![s].last() == s);
    reveal_with_fuel(rdn_values, 2);
    reveal_with_fuel(ava_values, 2);
    assert(dn_values(s, None) =~= seq![text::trim(value)]);
    if text::lower(text::trim(name)) == text::lower(attribute) {
        assert(dn_values(s, Some(attribute)) =~= seq![text::trim(value)]);
    } else {
        assert(dn_values(s, Some(attribute)) =~= Seq::<Seq<char>>::empty());
    }
}

proof fn split_at_a_separator(a: Seq<char>, c: char, b: Seq<char>)
    ensures
        text::split(a + seq![c] + b, c) == text::split(a, c) + text::split(b, c),
    decreases a.len(),
{
    let s = a + seq![c] + b;
    let i = text::find_char(a, c);
    text::find_char_bounds(a, c);
    assert forall|j: int| 0 <= j < i implies s[j] != c by {
        assert(s[j] == a[j]);
    }
    if i < a.len() {
        assert(s[i] == c);
        text::find_char_unique(s, c, i);
        assert(s.take(i) =~= a.take(i));
        assert(s.skip(i + 1) =~= a.skip(i + 1) + seq![c] + b);
        split_at_a_separator(a.skip(i + 1), c, b);
        assert(text::split(s, c) =~= text::split(a, c) + text::split(b, c));
    } else {
        assert(s[i] == c);
        text::find_char_unique(s, c, i);
        assert(s.take(i) =~= a);
        assert(s.skip(i + 1) =~= b);
        assert(text::split(s, c) =~= text::split(a, c) + text::split(b, c));
    }
}

proof fn values_of_parts(a: Seq<Seq<char>>, b: Seq<Seq<char>>, attribute: Option<Seq<char>>)
    ensures
        rdn_values(a + b, attribute) == rdn_values(a, attribute) + rdn_values(b, attribute),
    decreases b.len(),
{
    if b.len() > 0 {
        values_of_parts(a, b.drop_last(), attribute);
        assert((a + b).drop_last() =~= a + b.drop_last());
        assert((a + b).last() == b.last());
        assert(rdn_values(a + b, attribute) =~= rdn_values(a, attribute) + rdn_values(
            b,
            attribute,
        ));
    } else {
        assert(a + b =~= a);
        assert(rdn_values(a + b, attribute) =~= rdn_values(a, attribute) + rdn_values(
            b,
            attribute,
        ));
    }
}

/// The values in a longer name are those in its front and those in its end, in
/// this order.
pub proof fn values_in_a_longer_name(
    front: Seq<char>,
    end: Seq<char>,
    attribute: Option<Seq<char>>,
)
    ensures
        dn_values(front + seq![','] + end, attribute) == dn_values(front, attribute) + dn_values(
            end,
            attribute,
        ),
{
    split_at_a_separator(front, ',', end);
    values_of_parts(text::split(front, ','), text::split(end, ','), attribute);
}

proof fn joined_apart(a: Seq<Seq<char>>, b: Seq<Seq<char>>, sep: Seq<char>)
    requires
        a.len() > 0,
        b.len() > 0,
    ensures
        text::join(a + b, sep) == text::join(a, sep) + sep + text::join(b, sep),
    decreases a.len(),
{
    let both = a + b;
    assert(both[0] == a[0]);
    if a.len() == 1 {
        assert(both.drop_first() =~= b);
    } else {
        joined_apart(a.drop_first(), b, sep);
        assert(both.drop_first() =~= a.drop_first() + b);
        assert(text::join(both, sep) =~= text::join(a, sep) + sep + text::join(b, sep));
    }
}

/// Names are compared part by part, without regard to case and to the white
/// space around each part.
pub proof fn names_are_compared_part_by_part(part: Seq<char>, front: Seq<char>, end: Seq<char>)
    requires
        !part.contains(','),
    ensures
        normalized_dn(part) == text::lower(text::trim(part)),
        normalized_dn(front + seq![','] + end) == normalized_dn(front) + seq![',']
            + normalized_dn(end),
{
    let trimmed = |s: Seq<char>| text::trim(s);
    text::find_char_bounds(part, ',');
    assert(text::split(part, ',') =~= seq![part]);
    assert(seq![part].map_values(trimmed) =~= seq![text::trim(part)]);
    split_at_a_separator(front, ',', end);
    text::split_pieces(front, ',');
    text::split_pieces(end, ',');
    let a = text::split(front, ',').map_values(trimmed);
    let b = text::split(end, ',').map_values(trimmed);
    assert((text::split(front, ',') + text::split(end, ',')).map_values(trimmed) =~= a + b);
    joined_apart(a, b, seq![',']);
    let x = text::join(a, seq![',']);
    let y = text::join(b, seq![',']);
    text::lower_concat(x, seq![',']);
    text::lower_concat(x + seq![','], y);
    assert(text::lower(seq![',']) =~= seq![',']);
}

/// What a schema holds against a filter is told by the kind of the error: an
/// attribute that is not known, a value that is not of its syntax, a rule that
/// does not fit, or a schema that lacks a part.
pub proof fn errors_of_a_schema_keep_their_kind(e: RuleErrorView)
    ensures
        e matches RuleErrorView::AttributeNotFound(name) ==> rule_error(e)
            == FilterErrorView::UndefinedAttribute(name),
        e is InvalidSyntax <==> rule_error(e) is InvalidAttributeSyntax,
        e is AttributeNotFound <==> rule_error(e) is UndefinedAttribute,
        e is MissingDependency <==> rule_error(e) is InvalidFilter,
        e is NoMatchingRule || e is UnsupportedRule || e is MatchingRuleNotFound || e
            is InapplicableRule <==> rule_error(e) is InappropriateMatching,
{
}

/// The text of such an error begins with words that tell its kind, so that the
/// code that answers it can be told from the text.
pub proof fn errors_are_told_by_their_words(e: FilterErrorView)
    ensures
        response::schema_error_code(filter_error_text(e)) == Some(
            match e {
                FilterErrorView::UndefinedAttribute(_) => ResultCode::UndefinedAttributeType,
                FilterErrorView::InappropriateMatching(_) => ResultCode::InappropriateMatching,
                FilterErrorView::InvalidAttributeSyntax(_) => ResultCode::InvalidAttributeSyntax,
                FilterErrorView::InvalidFilter(_) => ResultCode::ProtocolError,
            },
        ),
{
    reveal_strlit("undefined attribute type: ");
    reveal_strlit("undefined attribute type:");
    reveal_strlit("inappropriate matching: ");
    reveal_strlit("inappropriate matching:");
    reveal_strlit("invalid attribute syntax: ");
    reveal_strlit("invalid attribute syntax:");
    reveal_strlit("invalid filter: ");
    reveal_strlit("invalid filter:");
    let s = filter_error_text(e);
    match e {
        FilterErrorView::UndefinedAttribute(_) => {
            assert(s.take(25) =~= "undefined attribute type:"@);
        },
        FilterErrorView::InappropriateMatching(_) => {
            assert(s[0] == 'i');
            assert("undefined attribute type:"@[0] == 'u');
            assert(s.len() >= 25 ==> s.take(25)[0] == s[0]);
            assert(s.take(23) =~= "inappropriate matching:"@);
        },
        FilterErrorView::InvalidAttributeSyntax(_) => {
            assert(s[0] == 'i' && s[2] == 'v');
            assert(s.take(25)[0] == s[0]);
            assert(s.take(23)[2] == s[2]);
            assert("undefined attribute type:"@[0] == 'u');
            assert("inappropriate matching:"@[2] == 'a');
            assert(s.take(25) =~= "invalid attribute syntax:"@);
        },
        FilterErrorView::InvalidFilter(m) => {
            assert(s[0] == 'i' && s[2] == 'v' && s[8] == 'f');
            assert("undefined attribute type:"@[0] == 'u');
            assert("inappropriate matching:"@[2] == 'a');
            assert("invalid attribute syntax:"@[8] == 'a');
            assert(s.len() >= 25 ==> s.take(25)[0] == s[0] && s.take(25)[8] == s[8]);
            assert(s.len() >= 23 ==> s.take(23)[2] == s[2]);
            assert(s.take(15) =~= "invalid filter:"@);
        },
    }
}

} // verus!
