//! Laws of a schema: which types and rules it knows, and how its rules compare
//! and order values.

use vstd::arithmetic::power::{lemma_pow1, lemma_pow_adds, lemma_pow_positive, pow};
use vstd::prelude::*;

use crate::laws::texts::the_first_letter_that_differs_decides;
use crate::schema::{
    attribute_type, canonical_integer, collapse, integer_key, is_called, is_integer, is_negative,
    magnitude, mirrored, normalize, normalize_fragment, resolve_rule, rule_applied, rule_for,
    rule_place, sort_key, strip_zeros, type_place, AttributeType, LdapSchema, MatchingRule,
    RuleErrorView, RuleKind, RuleUse, RuleView,
};
use crate::text;

verus! {

/// An object identifier or one of the names is that name, without regard to
/// case.
pub open spec fn goes_by(oid: String, names: Seq<String>, name: Seq<char>) -> bool {
    text::lower(oid@) == text::lower(name) || exists|i: int|
        0 <= i < names.len() && text::lower(#[trigger] names[i]@) == text::lower(name)
}

proof fn first_type(types: Seq<AttributeType>, name: Seq<char>)
    ensures
        0 <= type_place(types, name) <= types.len(),
        type_place(types, name) < types.len() ==> goes_by(
            types[type_place(types, name)].oid,
            types[type_place(types, name)].names@,
            name,
        ),
        forall|i: int|
            0 <= i < type_place(types, name) ==> !goes_by(
                (#[trigger] types[i]).oid,
                types[i].names@,
                name,
            ),
    decreases types.len(),
{
    if types.len() > 0 && !is_called(types[0].oid@, types[0].names@, name) {
        let rest = types.drop_first();
        first_type(rest, name);
        assert forall|i: int| 0 <= i < type_place(types, name) implies !goes_by(
            (#[trigger] types[i]).oid,
            types[i].names@,
            name,
        ) by {
            if i > 0 {
                assert(rest[i - 1] == types[i]);
            }
        }
    }
}

proof fn first_rule(rules: Seq<MatchingRule>, name: Seq<char>)
    ensures
        0 <= rule_place(rules, name) <= rules.len(),
        rule_place(rules, name) < rules.len() ==> goes_by(
            rules[rule_place(rules, name)].oid,
            rules[rule_place(rules, name)].names@,
            name,
        ),
        forall|i: int|
            0 <= i < rule_place(rules, name) ==> !goes_by(
                (#[trigger] rules[i]).oid,
                rules[i].names@,
                name,
            ),
    decreases rules.len(),
{
    if rules.len() > 0 && !is_called(rules[0].oid@, rules[0].names@, name) {
        let rest = rules.drop_first();
        first_rule(rest, name);
        assert forall|i: int| 0 <= i < rule_place(rules, name) implies !goes_by(
            (#[trigger] rules[i]).oid,
            rules[i].names@,
            name,
        ) by {
            if i > 0 {
                assert(rest[i - 1] == rules[i]);
            }
        }
    }
}

/// An attribute type is found under its identifier and each of its names,
/// without regard to case: the first one that goes by the name.
pub proof fn types_are_found_by_name(schema: LdapSchema, name: Seq<char>)
    ensures
        attribute_type(schema, name) is Some <==> exists|i: int|
            0 <= i < schema.attribute_types@.len() && goes_by(
                (#[trigger] schema.attribute_types@[i]).oid,
                schema.attribute_types@[i].names@,
                name,
            ),
        attribute_type(schema, name) matches Some(t) ==> goes_by(t.oid, t.names@, name) && exists|
            i: int,
        |
            0 <= i < schema.attribute_types@.len() && #[trigger] schema.attribute_types@[i] == t
                && forall|j: int|
                0 <= j < i ==> !goes_by(
                    (#[trigger] schema.attribute_types@[j]).oid,
                    schema.attribute_types@[j].names@,
                    name,
                ),
{
    let types = schema.attribute_types@;
    first_type(types, name);
    if exists|i: int|
        0 <= i < types.len() && goes_by((#[trigger] types[i]).oid, types[i].names@, name) {
        let i = choose|i: int|
            0 <= i < types.len() && goes_by((#[trigger] types[i]).oid, types[i].names@, name);
        assert(type_place(types, name) <= i);
    }
    if attribute_type(schema, name) is Some {
        assert(types[type_place(types, name)] == attribute_type(schema, name)->0);
    }
}

/// A rule is found under its identifier and each of its names, without regard
/// to case, and compares values as it says.
pub proof fn rules_are_found_by_name(schema: LdapSchema, name: Seq<char>)
    ensures
        resolve_rule(schema, name) is Ok <==> exists|i: int|
            0 <= i < schema.matching_rules@.len() && goes_by(
                (#[trigger] schema.matching_rules@[i]).oid,
                schema.matching_rules@[i].names@,
                name,
            ),
        resolve_rule(schema, name) matches Ok(r) ==> exists|i: int|
            0 <= i < schema.matching_rules@.len() && goes_by(
                (#[trigger] schema.matching_rules@[i]).oid,
                schema.matching_rules@[i].names@,
                name,
            ) && r.kind == schema.matching_rules@[i].kind,
        resolve_rule(schema, name) matches Err(e) ==> e is MatchingRuleNotFound,
{
    let rules = schema.matching_rules@;
    first_rule(rules, name);
    if exists|i: int|
        0 <= i < rules.len() && goes_by((#[trigger] rules[i]).oid, rules[i].names@, name) {
        let i = choose|i: int|
            0 <= i < rules.len() && goes_by((#[trigger] rules[i]).oid, rules[i].names@, name);
        assert(rule_place(rules, name) <= i);
    }
    if resolve_rule(schema, name) is Ok {
        assert(resolve_rule(schema, name)->Ok_0.kind == rules[rule_place(rules, name)].kind);
    }
}

/// An attribute is compared, ordered and searched for patterns by the rule
/// that its type names for just that; one that is not known or that names no
/// such rule is an error.
pub proof fn attributes_have_their_rules(schema: LdapSchema, attribute: Seq<char>)
    ensures
        match attribute_type(schema, attribute) {
            None => rule_for(schema, attribute, RuleUse::Equality) == Err::<
                RuleView,
                RuleErrorView,
            >(RuleErrorView::AttributeNotFound(attribute)) && rule_for(
                schema,
                attribute,
                RuleUse::Order,
            ) == rule_for(schema, attribute, RuleUse::Equality) && rule_for(
                schema,
                attribute,
                RuleUse::Substring,
            ) == rule_for(schema, attribute, RuleUse::Equality),
            Some(t) => {
                &&& t.equality matches Some(rule) ==> rule_for(schema, attribute, RuleUse::Equality)
                    == resolve_rule(schema, rule@)
                &&& t.ordering matches Some(rule) ==> rule_for(schema, attribute, RuleUse::Order)
                    == resolve_rule(schema, rule@)
                &&& t.substring matches Some(rule) ==> rule_for(
                    schema,
                    attribute,
                    RuleUse::Substring,
                ) == resolve_rule(schema, rule@)
                &&& t.equality is None ==> (rule_for(
                    schema,
                    attribute,
                    RuleUse::Equality,
                ) matches Err(e) && e is NoMatchingRule)
                &&& t.ordering is None ==> (rule_for(
                    schema,
                    attribute,
                    RuleUse::Order,
                ) matches Err(e) && e is NoMatchingRule)
                &&& t.substring is None ==> (rule_for(
                    schema,
                    attribute,
                    RuleUse::Substring,
                ) matches Err(e) && e is NoMatchingRule)
            },
        },
{
}

/// A rule applies to an attribute of its own syntax, and to no other.
pub proof fn rules_apply_to_their_syntax(schema: LdapSchema, rule: Seq<char>, attribute: Seq<char>)
    ensures
        rule_applied(schema, rule, attribute) is Ok ==> resolve_rule(schema, rule) is Ok
            && attribute_type(schema, attribute) is Some && exists|i: int|
            0 <= i < schema.matching_rules@.len() && goes_by(
                (#[trigger] schema.matching_rules@[i]).oid,
                schema.matching_rules@[i].names@,
                rule,
            ) && schema.matching_rules@[i].syntax@ == attribute_type(schema, attribute)->0.syntax@,
        rule_applied(schema, rule, attribute) is Ok ==> rule_applied(schema, rule, attribute)
            == resolve_rule(schema, rule),
{
    first_rule(schema.matching_rules@, rule);
}

/// Of a value that is compared each run of white space counts as one blank,
/// and every other letter counts as it is.
pub proof fn runs_of_white_space_are_one_blank(s: Seq<char>)
    ensures
        collapse(s).filter(|c: char| !text::is_space(c)) == s.filter(
            |c: char| !text::is_space(c),
        ),
        forall|i: int|
            0 <= i < collapse(s).len() && text::is_space(#[trigger] collapse(s)[i]) ==> collapse(
                s,
            )[i] == ' ' && (i > 0 ==> !text::is_space(collapse(s)[i - 1])),
        s.len() > 0 ==> collapse(s).len() > 0 && (text::is_space(collapse(s).last())
            <==> text::is_space(s.last())),
    decreases s.len(),
{
    reveal(Seq::filter);
    let solid = |c: char| !text::is_space(c);
    if s.len() > 0 {
        let front = s.drop_last();
        runs_of_white_space_are_one_blank(front);
        let all = collapse(s);
        let before = collapse(front);
        if all != before {
            assert(all.drop_last() =~= before);
        }
        assert(all.filter(solid) =~= s.filter(solid));
        if s.len() > 1 {
            assert(front.last() == s[s.len() - 2]);
        }
        assert forall|i: int|
            0 <= i < all.len() && text::is_space(#[trigger] all[i]) implies all[i] == ' ' && (i > 0
            ==> !text::is_space(all[i - 1])) by {
            if i < before.len() {
                assert(all[i] == before[i]);
                if i > 0 {
                    assert(all[i - 1] == before[i - 1]);
                }
            } else if i > 0 {
                assert(all[i - 1] == before.last());
            }
        }
    }
}

/// A rule compares values without regard to case or exactly, in both cases
/// without the white space around them, or as numbers; pieces of a pattern
/// keep the white space at their ends, and numbers have no pieces.
pub proof fn rules_compare_as_they_say(name: Seq<char>, value: Seq<char>)
    ensures
        normalize(RuleView { primary_name: name, kind: RuleKind::CaseExact }, value) == Ok::<
            Seq<char>,
            RuleErrorView,
        >(collapse(text::trim(value))),
        normalize(RuleView { primary_name: name, kind: RuleKind::CaseIgnore }, value) == Ok::<
            Seq<char>,
            RuleErrorView,
        >(text::lower(collapse(text::trim(value)))),
        normalize(RuleView { primary_name: name, kind: RuleKind::Integer }, value) is Ok
            <==> is_integer(text::trim(value)),
        normalize(RuleView { primary_name: name, kind: RuleKind::Unsupported }, value) is Err,
        normalize_fragment(RuleView { primary_name: name, kind: RuleKind::CaseExact }, value)
            == Ok::<Seq<char>, RuleErrorView>(collapse(value)),
        normalize_fragment(RuleView { primary_name: name, kind: RuleKind::CaseIgnore }, value)
            == Ok::<Seq<char>, RuleErrorView>(text::lower(collapse(value))),
        normalize_fragment(RuleView { primary_name: name, kind: RuleKind::Integer }, value) is Err,
        normalize_fragment(RuleView { primary_name: name, kind: RuleKind::Unsupported }, value)
            is Err,
{
}

// ---------------------------------------------------------------------------
// Numbers
// ---------------------------------------------------------------------------

/// The number that a text of digits, with a `-` before them or not, stands
/// for.
pub open spec fn number(s: Seq<char>) -> int {
    if s.len() > 0 && s[0] == '-' {
        -(text::decimal_value(s.drop_first()) as int)
    } else {
        text::decimal_value(s) as int
    }
}

proof fn value_below_power(d: Seq<char>)
    requires
        text::all_digits(d),
    ensures
        text::decimal_value(d) < pow(10, d.len()),
    decreases d.len(),
{
    lemma_pow_positive(10, d.len());
    if d.len() > 0 {
        let front = d.drop_last();
        assert forall|i: int| 0 <= i < front.len() implies text::is_digit(#[trigger] front[i]) by {
            assert(text::is_digit(d[i]));
        }
        value_below_power(front);
        assert(text::is_digit(d[d.len() - 1]));
        lemma_pow_adds(10, front.len(), 1);
        lemma_pow1(10);
    }
}

proof fn value_from_power(d: Seq<char>)
    requires
        text::all_digits(d),
        d.len() > 0,
        d[0] != '0',
    ensures
        text::decimal_value(d) >= pow(10, (d.len() - 1) as nat),
    decreases d.len(),
{
    let front = d.drop_last();
    assert(text::is_digit(d[d.len() - 1]));
    assert(text::is_digit(d[0]));
    if d.len() == 1 {
        assert(front =~= Seq::<char>::empty());
        assert(text::decimal_value(front) == 0);
        vstd::arithmetic::power::lemma_pow0(10);
    } else {
        assert forall|i: int| 0 <= i < front.len() implies text::is_digit(#[trigger] front[i]) by {
            assert(text::is_digit(d[i]));
        }
        value_from_power(front);
        lemma_pow_adds(10, (front.len() - 1) as nat, 1);
        lemma_pow1(10);
    }
}

proof fn zeros_count_for_nothing(d: Seq<char>)
    requires
        text::all_digits(d),
        d.len() > 0,
    ensures
        text::all_digits(strip_zeros(d)),
        strip_zeros(d).len() > 0,
        strip_zeros(d).len() == 1 || strip_zeros(d)[0] != '0',
        text::decimal_value(strip_zeros(d)) == text::decimal_value(d),
    decreases d.len(),
{
    if d.len() > 1 && d[0] == '0' {
        let rest = d.drop_first();
        assert forall|i: int| 0 <= i < rest.len() implies text::is_digit(#[trigger] rest[i]) by {
            assert(text::is_digit(d[i + 1]));
        }
        zeros_count_for_nothing(rest);
        leading_zero(d);
    }
}

proof fn leading_zero(d: Seq<char>)
    requires
        d.len() > 0,
        d[0] == '0',
    ensures
        text::decimal_value(d) == text::decimal_value(d.drop_first()),
    decreases d.len(),
{
    if d.len() == 1 {
        assert(d.drop_last() =~= Seq::<char>::empty());
        assert(d.drop_first() =~= Seq::<char>::empty());
    } else {
        leading_zero(d.drop_last());
        assert(d.drop_last().drop_first() =~= d.drop_first().drop_last());
        assert(d.drop_first().last() == d.last());
    }
}

/// Of two digit strings of one length the one with the lower digit at the
/// first place at which they differ stands for the lower number.
proof fn first_digit_decides(a: Seq<char>, b: Seq<char>, k: int)
    requires
        a.len() == b.len(),
        text::all_digits(a),
        text::all_digits(b),
        0 <= k < a.len(),
        forall|i: int| 0 <= i < k ==> a[i] == b[i],
        a[k] < b[k],
    ensures
        text::decimal_value(a) < text::decimal_value(b),
    decreases a.len(),
{
    let x = a.drop_last();
    let y = b.drop_last();
    assert(text::is_digit(a[a.len() - 1]) && text::is_digit(b[b.len() - 1]));
    if k == a.len() - 1 {
        assert(x =~= y);
    } else {
        assert forall|i: int| 0 <= i < x.len() implies text::is_digit(#[trigger] x[i]) by {
            assert(text::is_digit(a[i]));
        }
        assert forall|i: int| 0 <= i < y.len() implies text::is_digit(#[trigger] y[i]) by {
            assert(text::is_digit(b[i]));
        }
        first_digit_decides(x, y, k);
    }
}

proof fn some_digit_differs(a: Seq<char>, b: Seq<char>) -> (k: int)
    requires
        a.len() == b.len(),
        a != b,
    ensures
        0 <= k < a.len(),
        a[k] != b[k],
        forall|i: int| 0 <= i < k ==> a[i] == b[i],
    decreases a.len(),
{
    if a.len() == 0 {
        assert(a =~= b);
        0
    } else if a[0] != b[0] {
        0
    } else {
        let x = a.drop_first();
        let y = b.drop_first();
        if x == y {
            assert(a =~= seq![a[0]] + x);
            assert(b =~= seq![b[0]] + y);
        }
        let k = some_digit_differs(x, y);
        assert forall|i: int| 0 <= i < k + 1 implies a[i] == b[i] by {
            if i > 0 {
                assert(x[i - 1] == y[i - 1]);
            }
        }
        assert(x[k] == a[k + 1] && y[k] == b[k + 1]);
        k + 1
    }
}

/// Digits without leading zeros.
spec fn plain_digits(m: Seq<char>) -> bool {
    text::all_digits(m) && m.len() > 0 && (m.len() == 1 || m[0] != '0')
}

proof fn shorter_is_lower(a: Seq<char>, b: Seq<char>)
    requires
        plain_digits(a),
        plain_digits(b),
        a.len() < b.len(),
    ensures
        text::decimal_value(a) < text::decimal_value(b),
{
    value_below_power(a);
    value_from_power(b);
    vstd::arithmetic::power::lemma_pow_increases(10, a.len(), (b.len() - 1) as nat);
}

proof fn magnitude_of(s: Seq<char>)
    requires
        is_integer(s),
    ensures
        plain_digits(magnitude(s)),
        number(s) == (if s[0] == '-' {
            -(text::decimal_value(magnitude(s)) as int)
        } else {
            text::decimal_value(magnitude(s)) as int
        }),
        is_negative(s) <==> number(s) < 0,
        !is_negative(s) ==> number(s) == text::decimal_value(magnitude(s)),
{
    let d = if s[0] == '-' {
        s.drop_first()
    } else {
        s
    };
    zeros_count_for_nothing(d);
    let m = magnitude(s);
    assert(text::is_digit(m[0]));
    assert(seq!['0'].drop_last() =~= Seq::<char>::empty());
    assert(text::decimal_value(seq!['0']) == 0) by {
        reveal_with_fuel(text::decimal_value, 2);
    }
    if text::decimal_value(m) == 0 {
        if m.len() > 1 {
            value_from_power(m);
            lemma_pow_positive(10, (m.len() - 1) as nat);
        } else {
            assert(m.drop_last() =~= Seq::<char>::empty());
            assert(text::decimal_value(m.drop_last()) == 0);
            assert(m =~= seq!['0']);
        }
    }
}

proof fn same_number_same_digits(a: Seq<char>, b: Seq<char>)
    requires
        plain_digits(a),
        plain_digits(b),
    ensures
        text::decimal_value(a) == text::decimal_value(b) <==> a == b,
{
    if a.len() < b.len() {
        shorter_is_lower(a, b);
    } else if b.len() < a.len() {
        shorter_is_lower(b, a);
    } else if a != b {
        let k = some_digit_differs(a, b);
        if a[k] < b[k] {
            first_digit_decides(a, b, k);
        } else {
            first_digit_decides(b, a, k);
        }
    }
}

/// Two integers are equal under their rule exactly where they stand for the
/// same number, however many zeros stand before them and whatever sign stands
/// before a zero.
pub proof fn integers_are_equal_as_numbers(name: Seq<char>, a: Seq<char>, b: Seq<char>)
    requires
        is_integer(text::trim(a)),
        is_integer(text::trim(b)),
    ensures
        normalize(RuleView { primary_name: name, kind: RuleKind::Integer }, a) == normalize(
            RuleView { primary_name: name, kind: RuleKind::Integer },
            b,
        ) <==> number(text::trim(a)) == number(text::trim(b)),
{
    let s = text::trim(a);
    let t = text::trim(b);
    magnitude_of(s);
    magnitude_of(t);
    same_number_same_digits(magnitude(s), magnitude(t));
    let x = canonical_integer(s);
    let y = canonical_integer(t);
    assert(text::is_digit(magnitude(s)[0]));
    assert(text::is_digit(magnitude(t)[0]));
    if is_negative(s) {
        assert(x[0] == '-');
        assert(x.drop_first() =~= magnitude(s));
    }
    if is_negative(t) {
        assert(y[0] == '-');
        assert(y.drop_first() =~= magnitude(t));
    }
}

proof fn key_below(s: Seq<char>, t: Seq<char>)
    requires
        is_integer(s),
        is_integer(t),
        number(s) < number(t),
    ensures
        text::less(integer_key(s), integer_key(t)),
{
    magnitude_of(s);
    magnitude_of(t);
    let m = magnitude(s);
    let n = magnitude(t);
    let a = integer_key(s);
    let b = integer_key(t);
    if is_negative(s) && !is_negative(t) {
        assert(a[0] == '-' && b[0] == '0');
        the_first_letter_that_differs_decides(a, b, 0);
    } else if !is_negative(s) {
        assert forall|i: int| 0 <= i < 1 + m.len() implies a[i] == (if i == 0 {
            '0'
        } else {
            '1'
        }) by {}
        assert forall|i: int| 0 <= i < 1 + n.len() implies b[i] == (if i == 0 {
            '0'
        } else {
            '1'
        }) by {}
        if n.len() < m.len() {
            shorter_is_lower(n, m);
        }
        if m.len() < n.len() {
            assert(a[1 + m.len() as int] == '0');
            the_first_letter_that_differs_decides(a, b, 1 + m.len() as int);
        } else {
            same_number_same_digits(m, n);
            let k = some_digit_differs(m, n);
            if n[k] < m[k] {
                first_digit_decides(n, m, k);
            }
            let at = 2 + m.len() + k;
            assert(a[at] == m[k] && b[at] == n[k]);
            assert forall|i: int| 0 <= i < at implies a[i] == b[i] by {
                if i >= 2 + m.len() {
                    assert(a[i] == m[i - 2 - m.len()]);
                    assert(b[i] == n[i - 2 - m.len()]);
                }
            }
            the_first_letter_that_differs_decides(a, b, at);
        }
    } else {
        assert forall|i: int| 0 <= i < 1 + m.len() implies a[i] == (if i == 0 {
            '-'
        } else {
            '0'
        }) by {}
        assert forall|i: int| 0 <= i < 1 + n.len() implies b[i] == (if i == 0 {
            '-'
        } else {
            '0'
        }) by {}
        if m.len() < n.len() {
            shorter_is_lower(m, n);
        }
        if n.len() < m.len() {
            assert(b[1 + n.len() as int] == '1');
            the_first_letter_that_differs_decides(a, b, 1 + n.len() as int);
        } else {
            same_number_same_digits(m, n);
            let k = some_digit_differs(m, n);
            if m[k] < n[k] {
                first_digit_decides(m, n, k);
            }
            let at = 2 + m.len() + k;
            assert(a[at] == mirrored(m[k]) && b[at] == mirrored(n[k]));
            assert(text::is_digit(m[k]) && text::is_digit(n[k]));
            assert forall|i: int| 0 <= i < at implies a[i] == b[i] by {
                if i >= 2 + m.len() {
                    assert(a[i] == mirrored(m[i - 2 - m.len()]));
                    assert(b[i] == mirrored(n[i - 2 - m.len()]));
                }
            }
            the_first_letter_that_differs_decides(a, b, at);
        }
    }
}

/// Integers are ordered under their rule as the numbers that they stand for.
pub proof fn integers_are_ordered_as_numbers(name: Seq<char>, a: Seq<char>, b: Seq<char>)
    requires
        is_integer(text::trim(a)),
        is_integer(text::trim(b)),
    ensures
        ({
            let rule = RuleView { primary_name: name, kind: RuleKind::Integer };
            &&& sort_key(rule, a) is Ok
            &&& sort_key(rule, b) is Ok
            &&& text::less(sort_key(rule, a)->Ok_0, sort_key(rule, b)->Ok_0) <==> number(
                text::trim(a),
            ) < number(text::trim(b))
            &&& sort_key(rule, a) == sort_key(rule, b) <==> number(text::trim(a)) == number(
                text::trim(b),
            )
        }),
{
    let s = text::trim(a);
    let t = text::trim(b);
    text::less_total(integer_key(s), integer_key(t));
    if number(s) < number(t) {
        key_below(s, t);
    } else if number(t) < number(s) {
        key_below(t, s);
    } else {
        magnitude_of(s);
        magnitude_of(t);
        same_number_same_digits(magnitude(s), magnitude(t));
    }
}

/// Other values are ordered under their rule as they are compared, and values
/// that are no integers have no order as such.
pub proof fn other_values_are_ordered_as_compared(name: Seq<char>, value: Seq<char>)
    ensures
        sort_key(RuleView { primary_name: name, kind: RuleKind::CaseIgnore }, value) == normalize(
            RuleView { primary_name: name, kind: RuleKind::CaseIgnore },
            value,
        ),
        sort_key(RuleView { primary_name: name, kind: RuleKind::CaseExact }, value) == normalize(
            RuleView { primary_name: name, kind: RuleKind::CaseExact },
            value,
        ),
        !is_integer(text::trim(value)) ==> (sort_key(
            RuleView { primary_name: name, kind: RuleKind::Integer },
            value,
        ) matches Err(e) && e is InvalidSyntax),
{
}

} // verus!
