//! Laws of filters under a schema: which of them the schema admits, and what
//! matches by a rule are held against.

use vstd::prelude::*;

use crate::directory::{AttributeSeq, PartView};
use crate::ldap_filter_eval;
use crate::ldap_filter_eval::{
    applicable_names, dn_values, exact_hint, extensible_fits, filter_parts, part_text, prepared,
    prepared_hint, prepared_view, satisfies, FilterErrorView, FilterView, PreparedLdapFilter,
    PreparedView,
};
use crate::schema;
use crate::schema::{AttributeType, LdapSchema, RuleErrorView, RuleKind, RuleUse, RuleView};
use crate::search_request::hints_of;
use crate::string_map;
use crate::text;

verus! {

/// The attribute has a rule for that use that can compare values.
pub open spec fn has_rule(
    sch: LdapSchema,
    attribute: Seq<char>,
    u: RuleUse,
    rule: RuleView,
) -> bool {
    schema::rule_for(sch, attribute, u) == Ok::<RuleView, RuleErrorView>(rule) && rule.kind
        != RuleKind::Unsupported
}

/// A comparison is admitted where the attribute has a rule for it and the
/// value is one that the rule can compare; a presence where the attribute is
/// known.
pub proof fn valid_comparisons_are_admitted(
    sch: LdapSchema,
    attribute: Seq<char>,
    value: Seq<char>,
    equal: RuleView,
    order: RuleView,
)
    ensures
        has_rule(sch, attribute, RuleUse::Equality, equal) ==> (prepared(
            sch,
            FilterView::Equality { attribute, value },
        ) is Ok <==> schema::normalize(equal, value) is Ok),
        has_rule(sch, attribute, RuleUse::Order, order) ==> (prepared(
            sch,
            FilterView::GreaterOrEqual { attribute, value },
        ) is Ok <==> schema::normalize(order, value) is Ok),
        has_rule(sch, attribute, RuleUse::Order, order) ==> (prepared(
            sch,
            FilterView::LessOrEqual { attribute, value },
        ) is Ok <==> schema::normalize(order, value) is Ok),
        prepared(sch, FilterView::Present { attribute }) is Ok <==> schema::attribute_type(
            sch,
            attribute,
        ) is Some,
{
}

/// A comparison for which the attribute has no rule, or one that the server
/// cannot apply, does not fit; a value that the rule cannot read is not of its
/// syntax; and nothing is matched approximately.
pub proof fn comparisons_that_do_not_fit_are_refused(
    sch: LdapSchema,
    attribute: Seq<char>,
    value: Seq<char>,
    rule: RuleView,
)
    ensures
        schema::attribute_type(sch, attribute) matches Some(t) ==> {
            &&& t.equality is None ==> (prepared(
                sch,
                FilterView::Equality { attribute, value },
            ) matches Err(e) && e is InappropriateMatching)
            &&& t.ordering is None ==> (prepared(
                sch,
                FilterView::GreaterOrEqual { attribute, value },
            ) matches Err(e) && e is InappropriateMatching)
            &&& t.ordering is None ==> (prepared(
                sch,
                FilterView::LessOrEqual { attribute, value },
            ) matches Err(e) && e is InappropriateMatching)
            &&& prepared(sch, FilterView::ApproxMatch { attribute, value }) matches Err(e) && e
                is InappropriateMatching
        },
        schema::rule_for(sch, attribute, RuleUse::Equality) == Ok::<RuleView, RuleErrorView>(rule)
            && rule.kind == RuleKind::Unsupported ==> (prepared(
            sch,
            FilterView::Equality { attribute, value },
        ) matches Err(e) && e is InappropriateMatching),
        has_rule(sch, attribute, RuleUse::Equality, rule) && rule.kind == RuleKind::Integer
            && !schema::is_integer(text::trim(value)) ==> (prepared(
            sch,
            FilterView::Equality { attribute, value },
        ) matches Err(e) && e is InvalidAttributeSyntax),
{
}

/// The pieces of a pattern are prepared one by one, each in its place and as
/// the rule compares it.
pub proof fn patterns_are_prepared_piece_by_piece(rule: RuleView, ps: Seq<PartView>)
    requires
        rule.kind == RuleKind::CaseIgnore || rule.kind == RuleKind::CaseExact,
    ensures
        filter_parts(rule, ps) matches Ok(qs) && qs.len() == ps.len() && forall|i: int|
            0 <= i < ps.len() ==> schema::normalize_fragment(rule, part_text(#[trigger] ps[i]))
                == Ok::<Seq<char>, RuleErrorView>(part_text(qs[i])) && (ps[i] is Initial <==> qs[i]
                is Initial) && (ps[i] is Any <==> qs[i] is Any) && (ps[i] is Final <==> qs[i]
                is Final),
    decreases ps.len(),
{
    if ps.len() > 0 {
        let rest = ps.drop_first();
        patterns_are_prepared_piece_by_piece(rule, rest);
        let qs = filter_parts(rule, ps)->Ok_0;
        let others = filter_parts(rule, rest)->Ok_0;
        assert forall|i: int| 0 <= i < ps.len() implies schema::normalize_fragment(
            rule,
            part_text(#[trigger] ps[i]),
        ) == Ok::<Seq<char>, RuleErrorView>(part_text(qs[i])) && (ps[i] is Initial <==> qs[i]
            is Initial) && (ps[i] is Any <==> qs[i] is Any) && (ps[i] is Final <==> qs[i]
            is Final) by {
            if i > 0 {
                assert(rest[i - 1] == ps[i]);
                assert(qs[i] == others[i - 1]);
            }
        }
    }
}

/// A pattern is admitted where the attribute has a rule for patterns, and is
/// held against the attribute that it names by that rule.
pub proof fn patterns_are_admitted(
    sch: LdapSchema,
    attribute: Seq<char>,
    parts: Seq<PartView>,
    rule: RuleView,
)
    requires
        has_rule(sch, attribute, RuleUse::Substring, rule),
    ensures
        prepared(sch, FilterView::Substrings { attribute, parts }) is Ok <==> filter_parts(
            rule,
            parts,
        ) is Ok,
        filter_parts(rule, parts) matches Ok(ps) ==> prepared(
            sch,
            FilterView::Substrings { attribute, parts },
        ) == Ok::<PreparedView, FilterErrorView>(
            PreparedView::Substrings { attribute, rule, parts: ps },
        ),
{
}

/// A match by a rule uses the rule that it names, which must apply to the
/// attribute, or where it names none the one by which the attribute is
/// compared; it needs one of the two.
pub proof fn matches_by_rule_are_admitted(
    sch: LdapSchema,
    attribute: Seq<char>,
    name: Seq<char>,
    value: Seq<char>,
    dn_attributes: bool,
    rule: RuleView,
)
    requires
        rule.kind != RuleKind::Unsupported,
        schema::normalize(rule, value) is Ok,
    ensures
        schema::rule_applied(sch, name, attribute) == Ok::<RuleView, RuleErrorView>(rule)
            ==> prepared(
            sch,
            FilterView::Extensible {
                attribute: Some(attribute),
                matching_rule: Some(name),
                value,
                dn_attributes,
            },
        ) == Ok::<PreparedView, FilterErrorView>(
            PreparedView::Extensible {
                attribute: Some(attribute),
                rule,
                value: schema::normalize(rule, value)->Ok_0,
                dn_attributes,
                applicable: None,
            },
        ),
        schema::rule_for(sch, attribute, RuleUse::Equality) == Ok::<RuleView, RuleErrorView>(rule)
            ==> prepared(
            sch,
            FilterView::Extensible {
                attribute: Some(attribute),
                matching_rule: None,
                value,
                dn_attributes,
            },
        ) == Ok::<PreparedView, FilterErrorView>(
            PreparedView::Extensible {
                attribute: Some(attribute),
                rule,
                value: schema::normalize(rule, value)->Ok_0,
                dn_attributes,
                applicable: None,
            },
        ),
        schema::resolve_rule(sch, name) == Ok::<RuleView, RuleErrorView>(rule) ==> prepared(
            sch,
            FilterView::Extensible {
                attribute: None,
                matching_rule: Some(name),
                value,
                dn_attributes,
            },
        ) == Ok::<PreparedView, FilterErrorView>(
            PreparedView::Extensible {
                attribute: None,
                rule,
                value: schema::normalize(rule, value)->Ok_0,
                dn_attributes,
                applicable: Some(applicable_names(sch, name, sch.attribute_types@)),
            },
        ),
        prepared(
            sch,
            FilterView::Extensible { attribute: None, matching_rule: None, value, dn_attributes },
        ) matches Err(e) && e is InvalidFilter,
{
}

/// The attribute type is known by that name in lower case.
pub open spec fn is_known_by(t: AttributeType, name: Seq<char>) -> bool {
    name == text::lower(t.oid@) || exists|i: int|
        0 <= i < t.names@.len() && name == text::lower(#[trigger] t.names@[i]@)
}

/// A rule alone is held against each attribute whose type it applies to, under
/// every name that the type is known by, and against no other.
pub proof fn rules_alone_reach_what_they_apply_to(
    sch: LdapSchema,
    rule: Seq<char>,
    types: Seq<AttributeType>,
    name: Seq<char>,
)
    ensures
        applicable_names(sch, rule, types).contains(name) <==> exists|i: int|
            0 <= i < types.len() && schema::rule_applied(sch, rule, (#[trigger] types[i]).oid@)
                is Ok && is_known_by(types[i], name),
    decreases types.len(),
{
    if types.len() > 0 {
        let front = types.drop_last();
        let n = types.len() - 1;
        let t = types.last();
        rules_alone_reach_what_they_apply_to(sch, rule, front, name);
        let before = applicable_names(sch, rule, front);
        let own = ldap_filter_eval::type_names(t);
        let all = applicable_names(sch, rule, types);
        names_of_a_type(t, name);
        if all.contains(name) {
            let k = choose|k: int| 0 <= k < all.len() && all[k] == name;
            if k < before.len() {
                assert(before[k] == name);
                let i = choose|i: int|
                    0 <= i < front.len() && schema::rule_applied(
                        sch,
                        rule,
                        (#[trigger] front[i]).oid@,
                    ) is Ok && is_known_by(front[i], name);
                assert(types[i] == front[i]);
            } else {
                assert(own[k - before.len()] == name);
                assert(is_known_by(types[n], name));
            }
        }
        if exists|i: int|
            0 <= i < types.len() && schema::rule_applied(sch, rule, (#[trigger] types[i]).oid@)
                is Ok && is_known_by(types[i], name) {
            let i = choose|i: int|
                0 <= i < types.len() && schema::rule_applied(sch, rule, (#[trigger] types[i]).oid@)
                    is Ok && is_known_by(types[i], name);
            if i < n {
                assert(front[i] == types[i]);
                let k = choose|k: int| 0 <= k < before.len() && before[k] == name;
                assert(all[k] == name);
            } else {
                let k = choose|k: int| 0 <= k < own.len() && own[k] == name;
                assert(all[before.len() + k] == name);
            }
        }
    }
}

proof fn names_of_a_type(t: AttributeType, name: Seq<char>)
    ensures
        ldap_filter_eval::type_names(t).contains(name) <==> is_known_by(t, name),
{
    let own = ldap_filter_eval::type_names(t);
    if own.contains(name) {
        let k = choose|k: int| 0 <= k < own.len() && own[k] == name;
        if k > 0 {
            assert(own[k] == text::lower(t.names@[k - 1]@));
        }
    }
    if name == text::lower(t.oid@) {
        assert(own[0] == name);
    } else if is_known_by(t, name) {
        let i = choose|i: int|
            0 <= i < t.names@.len() && name == text::lower(#[trigger] t.names@[i]@);
        assert(own[i + 1] == name);
    }
}

/// Without a schema a match by a rule looks at the values of the attribute
/// that it names, or of all attributes where it names none, and where it takes
/// in the name of the entry at the values in it.
pub proof fn plain_matches_by_rule(
    attribute: Option<Seq<char>>,
    rule: Option<Seq<char>>,
    value: Seq<char>,
    dn_attributes: bool,
    dn: Seq<char>,
    attrs: AttributeSeq,
)
    ensures
        ({
            let f = FilterView::Extensible { attribute, matching_rule: rule, value, dn_attributes };
            let in_name = exists|i: int|
                0 <= i < dn_values(dn, attribute).len() && extensible_fits(
                    #[trigger] dn_values(dn, attribute)[i],
                    value,
                    rule,
                );
            &&& attribute is Some ==> satisfies(f, dn, attrs) == ((string_map::lookup(
                attrs,
                attribute->0,
            ) matches Some(values) && exists|i: int|
                0 <= i < values.len() && extensible_fits(#[trigger] values[i], value, rule)) || (
            dn_attributes && in_name))
            &&& attribute is None ==> satisfies(f, dn, attrs) == ((exists|k: int, i: int|
                0 <= k < attrs.len() && 0 <= i < attrs[k].1.len() && extensible_fits(
                    #[trigger] attrs[k].1[i],
                    value,
                    rule,
                )) || (dn_attributes && in_name))
        }),
{
    if attribute is None {
        if exists|k: int, i: int|
            0 <= k < attrs.len() && 0 <= i < attrs[k].1.len() && extensible_fits(
                #[trigger] attrs[k].1[i],
                value,
                rule,
            ) {
            let (k, i) = choose|k: int, i: int|
                0 <= k < attrs.len() && 0 <= i < attrs[k].1.len() && extensible_fits(
                    #[trigger] attrs[k].1[i],
                    value,
                    rule,
                );
            assert(ldap_filter_eval::extensible_found(attrs[k].1, value, rule));
        }
        if exists|k: int|
            0 <= k < attrs.len() && ldap_filter_eval::extensible_found(
                (#[trigger] attrs[k]).1,
                value,
                rule,
            ) {
            let k = choose|k: int|
                0 <= k < attrs.len() && ldap_filter_eval::extensible_found(
                    (#[trigger] attrs[k]).1,
                    value,
                    rule,
                );
            let values = attrs[k].1;
            let i = choose|i: int|
                0 <= i < values.len() && extensible_fits(#[trigger] values[i], value, rule);
            assert(extensible_fits(attrs[k].1[i], value, rule));
        }
    }
}

/// What a search tells an index of its filter: that it can be asked at all,
/// that its answer is exact, and that it is asked for a value.
pub proof fn indexes_are_told_of_the_filter(filter: PreparedLdapFilter)
    ensures
        ({
            let f = prepared_view(filter);
            &&& f is Equality ==> hints_of(filter).exact && hints_of(filter).hinted && hints_of(
                filter,
            ).equality
            &&& f is Present || f is GreaterOrEqual || f is LessOrEqual ==> hints_of(filter).exact
                && hints_of(filter).hinted && !hints_of(filter).equality
            &&& f is Or || f is Not || f is Extensible ==> !hints_of(filter).hinted && !hints_of(
                filter,
            ).equality
            &&& f is And || f is Substrings ==> hints_of(filter).exact == !hints_of(filter).hinted
            &&& hints_of(filter).hinted <==> prepared_hint(f) is Some
            &&& hints_of(filter).hinted && hints_of(filter).exact ==> exact_hint(f)
                == prepared_hint(f) && exact_hint(f) is Some
        }),
{
}

} // verus!
