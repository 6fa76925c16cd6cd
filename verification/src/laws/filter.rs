//! Laws of matching entries against filters and of comparing attributes.

use vstd::prelude::*;

use crate::directory::{AttributeSeq, PartView};
use crate::ldap_filter_eval;
use crate::ldap_filter_eval::{
    compare_verdict, dn_values, evaluated, evaluated_all, evaluated_any, initial_only_first,
    pattern_can_be_laid, pattern_fits, pattern_fits_where_it_can_be_laid, prepared, prepared_all,
    rule_equals, rule_finds, rule_finds_in, rule_fits, rule_orders, satisfies, schema_evaluated,
    schema_evaluated_all, schema_evaluated_any, CompareExpectation, FilterErrorView, FilterView,
    PreparedView,
};
use crate::schema;
use crate::schema::{LdapSchema, RuleKind, RuleUse, RuleView};
use crate::string_map;
use crate::text;

verus! {

// ---------------------------------------------------------------------------
// And, or, not
// ---------------------------------------------------------------------------

/// Every comparison of the filter can be told for the entry.
pub open spec fn comparisons_are_told(f: PreparedView, dn: Seq<char>, attrs: AttributeSeq) -> bool
    decreases f, 0nat,
{
    match f {
        PreparedView::And(fs) => all_are_told(fs, dn, attrs),
        PreparedView::Or(fs) => all_are_told(fs, dn, attrs),
        PreparedView::Not(g) => comparisons_are_told(*g, dn, attrs),
        _ => evaluated(f, dn, attrs) is Ok,
    }
}

/// Every comparison of the filters can be told for the entry.
pub open spec fn all_are_told(fs: Seq<PreparedView>, dn: Seq<char>, attrs: AttributeSeq) -> bool
    decreases fs, 1nat,
{
    fs.len() == 0 || (comparisons_are_told(fs[0], dn, attrs)
        && all_are_told(fs.drop_first(), dn, attrs))
}

/// The truth value of the filter as a formula of its comparisons.
pub open spec fn truth(f: PreparedView, dn: Seq<char>, attrs: AttributeSeq) -> bool
    decreases f, 0nat,
{
    match f {
        PreparedView::And(fs) => all_true(fs, dn, attrs),
        PreparedView::Or(fs) => one_true(fs, dn, attrs),
        PreparedView::Not(g) => !truth(*g, dn, attrs),
        _ => evaluated(f, dn, attrs) == Ok::<bool, FilterErrorView>(true),
    }
}

/// All of the filters are true.
pub open spec fn all_true(fs: Seq<PreparedView>, dn: Seq<char>, attrs: AttributeSeq) -> bool
    decreases fs, 1nat,
{
    fs.len() == 0 || (truth(fs[0], dn, attrs) && all_true(fs.drop_first(), dn, attrs))
}

/// One of the filters is true.
pub open spec fn one_true(fs: Seq<PreparedView>, dn: Seq<char>, attrs: AttributeSeq) -> bool
    decreases fs, 1nat,
{
    fs.len() > 0 && (truth(fs[0], dn, attrs) || one_true(fs.drop_first(), dn, attrs))
}

/// Where every comparison of a filter can be told, the filter comes to the
/// truth value of its formula.
pub proof fn prepared_filter_is_a_formula(f: PreparedView, dn: Seq<char>, attrs: AttributeSeq)
    requires
        comparisons_are_told(f, dn, attrs),
    ensures
        evaluated(f, dn, attrs) == Ok::<bool, FilterErrorView>(truth(f, dn, attrs)),
    decreases f, 0nat,
{
    match f {
        PreparedView::And(fs) => {
            prepared_members_are_formulas(fs, dn, attrs);
            assert(evaluated(f, dn, attrs) == evaluated_all(fs, dn, attrs));
            assert(truth(f, dn, attrs) == all_true(fs, dn, attrs));
        },
        PreparedView::Or(fs) => {
            prepared_members_are_formulas(fs, dn, attrs);
            assert(evaluated(f, dn, attrs) == evaluated_any(fs, dn, attrs));
            assert(truth(f, dn, attrs) == one_true(fs, dn, attrs));
        },
        PreparedView::Not(g) => {
            prepared_filter_is_a_formula(*g, dn, attrs);
            negation_turns_the_verdict(*g, dn, attrs);
            assert(truth(f, dn, attrs) == !truth(*g, dn, attrs));
        },
        _ => {
            assert(evaluated(f, dn, attrs) is Ok);
            assert(truth(f, dn, attrs) == (evaluated(f, dn, attrs) == Ok::<
                bool,
                FilterErrorView,
            >(true)));
            let b = evaluated(f, dn, attrs)->Ok_0;
            assert(evaluated(f, dn, attrs) == Ok::<bool, FilterErrorView>(b));
            assert(truth(f, dn, attrs) == b);
        },
    }
}

proof fn prepared_members_are_formulas(fs: Seq<PreparedView>, dn: Seq<char>, attrs: AttributeSeq)
    requires
        all_are_told(fs, dn, attrs),
    ensures
        evaluated_all(fs, dn, attrs) == Ok::<bool, FilterErrorView>(all_true(fs, dn, attrs)),
        evaluated_any(fs, dn, attrs) == Ok::<bool, FilterErrorView>(one_true(fs, dn, attrs)),
    decreases fs, 1nat,
{
    if fs.len() > 0 {
        prepared_filter_is_a_formula(fs[0], dn, attrs);
        prepared_members_are_formulas(fs.drop_first(), dn, attrs);
    }
}

proof fn lists_decide(fs: Seq<PreparedView>, dn: Seq<char>, attrs: AttributeSeq)
    ensures
        evaluated_all(fs, dn, attrs) == Ok::<bool, FilterErrorView>(true) ==> forall|i: int|
            0 <= i < fs.len() ==> evaluated(#[trigger] fs[i], dn, attrs) == Ok::<
                bool,
                FilterErrorView,
            >(true),
        (forall|i: int|
            0 <= i < fs.len() ==> evaluated(#[trigger] fs[i], dn, attrs) == Ok::<
                bool,
                FilterErrorView,
            >(true)) ==> evaluated_all(fs, dn, attrs) == Ok::<bool, FilterErrorView>(true),
        evaluated_any(fs, dn, attrs) == Ok::<bool, FilterErrorView>(false) ==> forall|i: int|
            0 <= i < fs.len() ==> evaluated(#[trigger] fs[i], dn, attrs) == Ok::<
                bool,
                FilterErrorView,
            >(false),
        (forall|i: int|
            0 <= i < fs.len() ==> evaluated(#[trigger] fs[i], dn, attrs) == Ok::<
                bool,
                FilterErrorView,
            >(false)) ==> evaluated_any(fs, dn, attrs) == Ok::<bool, FilterErrorView>(false),
    decreases fs.len(),
{
    if fs.len() > 0 {
        let rest = fs.drop_first();
        lists_decide(rest, dn, attrs);
        assert forall|i: int| 0 < i < fs.len() implies #[trigger] fs[i] == rest[i - 1] by {}
        assert forall|i: int| 0 <= i < rest.len() implies #[trigger] rest[i] == fs[i + 1] by {}
        let yes = Ok::<bool, FilterErrorView>(true);
        let no = Ok::<bool, FilterErrorView>(false);
        if evaluated_all(fs, dn, attrs) == yes {
            assert(evaluated(fs[0], dn, attrs) == yes);
            assert forall|i: int| 0 <= i < fs.len() implies evaluated(#[trigger] fs[i], dn, attrs)
                == yes by {
                if i > 0 {
                    assert(evaluated(rest[i - 1], dn, attrs) == yes);
                }
            }
        }
        if evaluated_any(fs, dn, attrs) == no {
            assert(evaluated(fs[0], dn, attrs) == no);
            assert forall|i: int| 0 <= i < fs.len() implies evaluated(#[trigger] fs[i], dn, attrs)
                == no by {
                if i > 0 {
                    assert(evaluated(rest[i - 1], dn, attrs) == no);
                }
            }
        }
        if forall|i: int|
            0 <= i < fs.len() ==> evaluated(#[trigger] fs[i], dn, attrs) == yes {
            assert(evaluated(fs[0], dn, attrs) == yes);
            assert forall|i: int| 0 <= i < rest.len() implies
                evaluated(#[trigger] rest[i], dn, attrs)
                == yes by {
                assert(evaluated(fs[i + 1], dn, attrs) == yes);
            }
        }
        if forall|i: int|
            0 <= i < fs.len() ==> evaluated(#[trigger] fs[i], dn, attrs) == no {
            assert(evaluated(fs[0], dn, attrs) == no);
            assert forall|i: int| 0 <= i < rest.len() implies
                evaluated(#[trigger] rest[i], dn, attrs)
                == no by {
                assert(evaluated(fs[i + 1], dn, attrs) == no);
            }
        }
    }
}

/// A conjunction matches exactly where each of its members does, and a
/// disjunction fails to match exactly where each of its members does.
pub proof fn members_decide(fs: Seq<PreparedView>, dn: Seq<char>, attrs: AttributeSeq)
    ensures
        evaluated(PreparedView::And(fs), dn, attrs) == Ok::<bool, FilterErrorView>(true)
            <==> forall|i: int|
            0 <= i < fs.len() ==> evaluated(#[trigger] fs[i], dn, attrs) == Ok::<
                bool,
                FilterErrorView,
            >(true),
        evaluated(PreparedView::Or(fs), dn, attrs) == Ok::<bool, FilterErrorView>(false)
            <==> forall|i: int|
            0 <= i < fs.len() ==> evaluated(#[trigger] fs[i], dn, attrs) == Ok::<
                bool,
                FilterErrorView,
            >(false),
{
    lists_decide(fs, dn, attrs);
    assert(evaluated(PreparedView::And(fs), dn, attrs) == evaluated_all(fs, dn, attrs));
    assert(evaluated(PreparedView::Or(fs), dn, attrs) == evaluated_any(fs, dn, attrs));
}

/// A negation comes to the opposite of what it negates, and cannot be told
/// where that cannot.
pub proof fn negation_turns_the_verdict(g: PreparedView, dn: Seq<char>, attrs: AttributeSeq)
    ensures
        evaluated(g, dn, attrs) matches Ok(b) ==> evaluated(
            PreparedView::Not(Box::new(g)),
            dn,
            attrs,
        ) == Ok::<bool, FilterErrorView>(!b),
        evaluated(g, dn, attrs) matches Err(e) ==> evaluated(
            PreparedView::Not(Box::new(g)),
            dn,
            attrs,
        ) == Err::<bool, FilterErrorView>(e),
{
}

/// The negations of filters.
pub open spec fn negations(fs: Seq<PreparedView>) -> Seq<PreparedView> {
    fs.map_values(|f: PreparedView| PreparedView::Not(Box::new(f)))
}

/// The negation of a conjunction is the disjunction of the negations, and the
/// other way round, also where something cannot be told.
pub proof fn negation_goes_inwards(fs: Seq<PreparedView>, dn: Seq<char>, attrs: AttributeSeq)
    ensures
        evaluated(PreparedView::Not(Box::new(PreparedView::And(fs))), dn, attrs) == evaluated(
            PreparedView::Or(negations(fs)),
            dn,
            attrs,
        ),
        evaluated(PreparedView::Not(Box::new(PreparedView::Or(fs))), dn, attrs) == evaluated(
            PreparedView::And(negations(fs)),
            dn,
            attrs,
        ),
    decreases fs.len(),
{
    let conjunction = PreparedView::And(fs);
    let disjunction = PreparedView::Or(fs);
    negation_turns_the_verdict(conjunction, dn, attrs);
    negation_turns_the_verdict(disjunction, dn, attrs);
    assert(evaluated(conjunction, dn, attrs) == evaluated_all(fs, dn, attrs));
    assert(evaluated(disjunction, dn, attrs) == evaluated_any(fs, dn, attrs));
    assert(evaluated(PreparedView::And(negations(fs)), dn, attrs)
        == evaluated_all(negations(fs), dn, attrs));
    assert(evaluated(PreparedView::Or(negations(fs)), dn, attrs)
        == evaluated_any(negations(fs), dn, attrs));
    if fs.len() > 0 {
        let rest = fs.drop_first();
        negation_goes_inwards(rest, dn, attrs);
        assert(negations(fs).drop_first() =~= negations(rest));
        assert(negations(fs)[0] == PreparedView::Not(Box::new(fs[0])));
        negation_turns_the_verdict(fs[0], dn, attrs);
        negation_turns_the_verdict(PreparedView::And(rest), dn, attrs);
        negation_turns_the_verdict(PreparedView::Or(rest), dn, attrs);
        assert(evaluated(PreparedView::And(rest), dn, attrs) == evaluated_all(rest, dn, attrs));
        assert(evaluated(PreparedView::Or(rest), dn, attrs) == evaluated_any(rest, dn, attrs));
        assert(evaluated(PreparedView::And(negations(rest)), dn, attrs)
            == evaluated_all(negations(rest), dn, attrs));
        assert(evaluated(PreparedView::Or(negations(rest)), dn, attrs)
            == evaluated_any(negations(rest), dn, attrs));
    }
}

/// Every comparison of the filter can be told for the entry under the schema.
pub open spec fn comparisons_are_told_under(
    sch: LdapSchema,
    f: FilterView,
    dn: Seq<char>,
    attrs: AttributeSeq,
) -> bool
    decreases f, 0nat,
{
    match f {
        FilterView::And(fs) => all_are_told_under(sch, fs, dn, attrs),
        FilterView::Or(fs) => all_are_told_under(sch, fs, dn, attrs),
        FilterView::Not(g) => comparisons_are_told_under(sch, *g, dn, attrs),
        _ => schema_evaluated(sch, f, dn, attrs) is Ok,
    }
}

/// Every comparison of the filters can be told for the entry under the schema.
pub open spec fn all_are_told_under(
    sch: LdapSchema,
    fs: Seq<FilterView>,
    dn: Seq<char>,
    attrs: AttributeSeq,
) -> bool
    decreases fs, 1nat,
{
    fs.len() == 0 || (comparisons_are_told_under(sch, fs[0], dn, attrs)
        && all_are_told_under(sch, fs.drop_first(), dn, attrs))
}

/// The truth value of the filter as a formula of its comparisons under the schema.
pub open spec fn truth_under(
    sch: LdapSchema,
    f: FilterView,
    dn: Seq<char>,
    attrs: AttributeSeq,
) -> bool
    decreases f, 0nat,
{
    match f {
        FilterView::And(fs) => all_true_under(sch, fs, dn, attrs),
        FilterView::Or(fs) => one_true_under(sch, fs, dn, attrs),
        FilterView::Not(g) => !truth_under(sch, *g, dn, attrs),
        _ => schema_evaluated(sch, f, dn, attrs) == Ok::<bool, FilterErrorView>(true),
    }
}

/// All of the filters are true under the schema.
pub open spec fn all_true_under(
    sch: LdapSchema,
    fs: Seq<FilterView>,
    dn: Seq<char>,
    attrs: AttributeSeq,
) -> bool
    decreases fs, 1nat,
{
    fs.len() == 0 || (truth_under(sch, fs[0], dn, attrs)
        && all_true_under(sch, fs.drop_first(), dn, attrs))
}

/// One of the filters is true under the schema.
pub open spec fn one_true_under(
    sch: LdapSchema,
    fs: Seq<FilterView>,
    dn: Seq<char>,
    attrs: AttributeSeq,
) -> bool
    decreases fs, 1nat,
{
    fs.len() > 0 && (truth_under(sch, fs[0], dn, attrs)
        || one_true_under(sch, fs.drop_first(), dn, attrs))
}

/// Where every comparison of a filter can be told under the schema, the filter comes to the
/// truth value of its formula.
pub proof fn filter_is_a_formula_under_a_schema(
    sch: LdapSchema,
    f: FilterView,
    dn: Seq<char>,
    attrs: AttributeSeq,
)
    requires
        comparisons_are_told_under(sch, f, dn, attrs),
    ensures
        schema_evaluated(sch, f, dn, attrs)
            == Ok::<bool, FilterErrorView>(truth_under(sch, f, dn, attrs)),
    decreases f, 0nat,
{
    match f {
        FilterView::And(fs) => {
            members_are_formulas_under_a_schema(sch, fs, dn, attrs);
            assert(schema_evaluated(sch, f, dn, attrs) == schema_evaluated_all(sch, fs, dn, attrs));
            assert(truth_under(sch, f, dn, attrs) == all_true_under(sch, fs, dn, attrs));
        },
        FilterView::Or(fs) => {
            members_are_formulas_under_a_schema(sch, fs, dn, attrs);
            assert(schema_evaluated(sch, f, dn, attrs) == schema_evaluated_any(sch, fs, dn, attrs));
            assert(truth_under(sch, f, dn, attrs) == one_true_under(sch, fs, dn, attrs));
        },
        FilterView::Not(g) => {
            filter_is_a_formula_under_a_schema(sch, *g, dn, attrs);
            negation_turns_the_verdict_under_a_schema(sch, *g, dn, attrs);
            assert(truth_under(sch, f, dn, attrs) == !truth_under(sch, *g, dn, attrs));
        },
        _ => {
            assert(schema_evaluated(sch, f, dn, attrs) is Ok);
            assert(truth_under(sch, f, dn, attrs) == (schema_evaluated(sch, f, dn, attrs) == Ok::<
                bool,
                FilterErrorView,
            >(true)));
            let b = schema_evaluated(sch, f, dn, attrs)->Ok_0;
            assert(schema_evaluated(sch, f, dn, attrs) == Ok::<bool, FilterErrorView>(b));
            assert(truth_under(sch, f, dn, attrs) == b);
        },
    }
}

proof fn members_are_formulas_under_a_schema(
    sch: LdapSchema,
    fs: Seq<FilterView>,
    dn: Seq<char>,
    attrs: AttributeSeq,
)
    requires
        all_are_told_under(sch, fs, dn, attrs),
    ensures
        schema_evaluated_all(sch, fs, dn, attrs)
            == Ok::<bool, FilterErrorView>(all_true_under(sch, fs, dn, attrs)),
        schema_evaluated_any(sch, fs, dn, attrs)
            == Ok::<bool, FilterErrorView>(one_true_under(sch, fs, dn, attrs)),
    decreases fs, 1nat,
{
    if fs.len() > 0 {
        filter_is_a_formula_under_a_schema(sch, fs[0], dn, attrs);
        members_are_formulas_under_a_schema(sch, fs.drop_first(), dn, attrs);
    }
}

proof fn lists_decide_under(
    sch: LdapSchema,
    fs: Seq<FilterView>,
    dn: Seq<char>,
    attrs: AttributeSeq,
)
    ensures
        schema_evaluated_all(sch, fs, dn, attrs) == Ok::<bool, FilterErrorView>(true) ==> forall|i: int|
            0 <= i < fs.len() ==> schema_evaluated(sch, #[trigger] fs[i], dn, attrs) == Ok::<
                bool,
                FilterErrorView,
            >(true),
        (forall|i: int|
            0 <= i < fs.len() ==> schema_evaluated(sch, #[trigger] fs[i], dn, attrs) == Ok::<
                bool,
                FilterErrorView,
            >(true)) ==> schema_evaluated_all(sch, fs, dn, attrs) == Ok::<bool, FilterErrorView>(true),
        schema_evaluated_any(sch, fs, dn, attrs) == Ok::<bool, FilterErrorView>(false) ==> forall|i: int|
            0 <= i < fs.len() ==> schema_evaluated(sch, #[trigger] fs[i], dn, attrs) == Ok::<
                bool,
                FilterErrorView,
            >(false),
        (forall|i: int|
            0 <= i < fs.len() ==> schema_evaluated(sch, #[trigger] fs[i], dn, attrs) == Ok::<
                bool,
                FilterErrorView,
            >(false)) ==> schema_evaluated_any(sch, fs, dn, attrs) == Ok::<bool, FilterErrorView>(false),
    decreases fs.len(),
{
    if fs.len() > 0 {
        let rest = fs.drop_first();
        lists_decide_under(sch, rest, dn, attrs);
        assert forall|i: int| 0 < i < fs.len() implies #[trigger] fs[i] == rest[i - 1] by {}
        assert forall|i: int| 0 <= i < rest.len() implies #[trigger] rest[i] == fs[i + 1] by {}
        let yes = Ok::<bool, FilterErrorView>(true);
        let no = Ok::<bool, FilterErrorView>(false);
        if schema_evaluated_all(sch, fs, dn, attrs) == yes {
            assert(schema_evaluated(sch, fs[0], dn, attrs) == yes);
            assert forall|i: int| 0 <= i < fs.len() implies
                schema_evaluated(sch, #[trigger] fs[i], dn, attrs)
                == yes by {
                if i > 0 {
                    assert(schema_evaluated(sch, rest[i - 1], dn, attrs) == yes);
                }
            }
        }
        if schema_evaluated_any(sch, fs, dn, attrs) == no {
            assert(schema_evaluated(sch, fs[0], dn, attrs) == no);
            assert forall|i: int| 0 <= i < fs.len() implies
                schema_evaluated(sch, #[trigger] fs[i], dn, attrs)
                == no by {
                if i > 0 {
                    assert(schema_evaluated(sch, rest[i - 1], dn, attrs) == no);
                }
            }
        }
        if forall|i: int|
            0 <= i < fs.len() ==> schema_evaluated(sch, #[trigger] fs[i], dn, attrs) == yes {
            assert(schema_evaluated(sch, fs[0], dn, attrs) == yes);
            assert forall|i: int| 0 <= i < rest.len() implies
                schema_evaluated(sch, #[trigger] rest[i], dn, attrs)
                == yes by {
                assert(schema_evaluated(sch, fs[i + 1], dn, attrs) == yes);
            }
        }
        if forall|i: int|
            0 <= i < fs.len() ==> schema_evaluated(sch, #[trigger] fs[i], dn, attrs) == no {
            assert(schema_evaluated(sch, fs[0], dn, attrs) == no);
            assert forall|i: int| 0 <= i < rest.len() implies
                schema_evaluated(sch, #[trigger] rest[i], dn, attrs)
                == no by {
                assert(schema_evaluated(sch, fs[i + 1], dn, attrs) == no);
            }
        }
    }
}

/// A conjunction matches exactly where each of its members does, and a
/// disjunction fails to match exactly where each of its members does under the schema.
pub proof fn members_decide_under_a_schema(
    sch: LdapSchema,
    fs: Seq<FilterView>,
    dn: Seq<char>,
    attrs: AttributeSeq,
)
    ensures
        schema_evaluated(sch, FilterView::And(fs), dn, attrs) == Ok::<bool, FilterErrorView>(true)
            <==> forall|i: int|
            0 <= i < fs.len() ==> schema_evaluated(sch, #[trigger] fs[i], dn, attrs) == Ok::<
                bool,
                FilterErrorView,
            >(true),
        schema_evaluated(sch, FilterView::Or(fs), dn, attrs) == Ok::<bool, FilterErrorView>(false)
            <==> forall|i: int|
            0 <= i < fs.len() ==> schema_evaluated(sch, #[trigger] fs[i], dn, attrs) == Ok::<
                bool,
                FilterErrorView,
            >(false),
{
    lists_decide_under(sch, fs, dn, attrs);
    assert(schema_evaluated(sch, FilterView::And(fs), dn, attrs)
        == schema_evaluated_all(sch, fs, dn, attrs));
    assert(schema_evaluated(sch, FilterView::Or(fs), dn, attrs)
        == schema_evaluated_any(sch, fs, dn, attrs));
}

/// A negation comes to the opposite of what it negates under the schema, and cannot be told
/// where that cannot.
pub proof fn negation_turns_the_verdict_under_a_schema(
    sch: LdapSchema,
    g: FilterView,
    dn: Seq<char>,
    attrs: AttributeSeq,
)
    ensures
        schema_evaluated(sch, g, dn, attrs) matches Ok(b) ==> schema_evaluated(
            sch, FilterView::Not(Box::new(g)),
            dn,
            attrs,
        ) == Ok::<bool, FilterErrorView>(!b),
        schema_evaluated(sch, g, dn, attrs) matches Err(e) ==> schema_evaluated(
            sch, FilterView::Not(Box::new(g)),
            dn,
            attrs,
        ) == Err::<bool, FilterErrorView>(e),
{
}

/// The negations of filters.
pub open spec fn plain_negations(fs: Seq<FilterView>) -> Seq<FilterView> {
    fs.map_values(|f: FilterView| FilterView::Not(Box::new(f)))
}

/// The negation of a conjunction is the disjunction of the negations, and the
/// other way round, also where something cannot be told under the schema.
pub proof fn negation_goes_inwards_under_a_schema(
    sch: LdapSchema,
    fs: Seq<FilterView>,
    dn: Seq<char>,
    attrs: AttributeSeq,
)
    ensures
        schema_evaluated(sch, FilterView::Not(Box::new(FilterView::And(fs))), dn, attrs) == schema_evaluated(
            sch, FilterView::Or(plain_negations(fs)),
            dn,
            attrs,
        ),
        schema_evaluated(sch, FilterView::Not(Box::new(FilterView::Or(fs))), dn, attrs) == schema_evaluated(
            sch, FilterView::And(plain_negations(fs)),
            dn,
            attrs,
        ),
    decreases fs.len(),
{
    let conjunction = FilterView::And(fs);
    let disjunction = FilterView::Or(fs);
    negation_turns_the_verdict_under_a_schema(sch, conjunction, dn, attrs);
    negation_turns_the_verdict_under_a_schema(sch, disjunction, dn, attrs);
    assert(schema_evaluated(sch, conjunction, dn, attrs)
        == schema_evaluated_all(sch, fs, dn, attrs));
    assert(schema_evaluated(sch, disjunction, dn, attrs)
        == schema_evaluated_any(sch, fs, dn, attrs));
    assert(schema_evaluated(sch, FilterView::And(plain_negations(fs)), dn, attrs)
        == schema_evaluated_all(sch, plain_negations(fs), dn, attrs));
    assert(schema_evaluated(sch, FilterView::Or(plain_negations(fs)), dn, attrs)
        == schema_evaluated_any(sch, plain_negations(fs), dn, attrs));
    if fs.len() > 0 {
        let rest = fs.drop_first();
        negation_goes_inwards_under_a_schema(sch, rest, dn, attrs);
        assert(plain_negations(fs).drop_first() =~= plain_negations(rest));
        assert(plain_negations(fs)[0] == FilterView::Not(Box::new(fs[0])));
        negation_turns_the_verdict_under_a_schema(sch, fs[0], dn, attrs);
        negation_turns_the_verdict_under_a_schema(sch, FilterView::And(rest), dn, attrs);
        negation_turns_the_verdict_under_a_schema(sch, FilterView::Or(rest), dn, attrs);
        assert(schema_evaluated(sch, FilterView::And(rest), dn, attrs)
            == schema_evaluated_all(sch, rest, dn, attrs));
        assert(schema_evaluated(sch, FilterView::Or(rest), dn, attrs)
            == schema_evaluated_any(sch, rest, dn, attrs));
        assert(schema_evaluated(sch, FilterView::And(plain_negations(rest)), dn, attrs)
            == schema_evaluated_all(sch, plain_negations(rest), dn, attrs));
        assert(schema_evaluated(sch, FilterView::Or(plain_negations(rest)), dn, attrs)
            == schema_evaluated_any(sch, plain_negations(rest), dn, attrs));
    }
}

/// A filter that is evaluated without a schema is a formula too: a negation
/// matches exactly what it negates does not, a conjunction what all of its
/// members do, a disjunction what one of them does.
pub proof fn plain_filter_is_a_formula(f: FilterView, dn: Seq<char>, attrs: AttributeSeq)
    ensures
        match f {
            FilterView::And(fs) => satisfies(f, dn, attrs) == (forall|i: int|
                0 <= i < fs.len() ==> satisfies(#[trigger] fs[i], dn, attrs)),
            FilterView::Or(fs) => satisfies(f, dn, attrs) == (exists|i: int|
                0 <= i < fs.len() && satisfies(#[trigger] fs[i], dn, attrs)),
            FilterView::Not(g) => satisfies(f, dn, attrs) != satisfies(*g, dn, attrs),
            _ => true,
        },
{
    reveal_with_fuel(satisfies, 2);
}

/// What the comparisons of a filter that is evaluated without a schema mean for
/// an attribute that the entry has, and that none matches one that it has not.
pub proof fn plain_comparisons_mean_what_they_say(
    attribute: Seq<char>,
    value: Seq<char>,
    dn: Seq<char>,
    attrs: AttributeSeq,
)
    ensures
        string_map::lookup(attrs, attribute) matches Some(values) ==> {
            &&& satisfies(FilterView::Equality { attribute, value }, dn, attrs) == (exists|i: int|
                0 <= i < values.len() && #[trigger] values[i] == value)
            &&& satisfies(FilterView::GreaterOrEqual { attribute, value }, dn, attrs) == (exists|
                i: int,
            |
                0 <= i < values.len() && (#[trigger] values[i] == value || text::less(
                    value,
                    values[i],
                )))
            &&& satisfies(FilterView::LessOrEqual { attribute, value }, dn, attrs) == (exists|
                i: int,
            |
                0 <= i < values.len() && (#[trigger] values[i] == value || text::less(
                    values[i],
                    value,
                )))
            &&& satisfies(FilterView::ApproxMatch { attribute, value }, dn, attrs) == (exists|
                i: int,
            |
                0 <= i < values.len() && text::lower(#[trigger] values[i]) == text::lower(value))
            &&& satisfies(FilterView::Present { attribute }, dn, attrs)
        },
        string_map::lookup(attrs, attribute) is None ==> {
            &&& !satisfies(FilterView::Equality { attribute, value }, dn, attrs)
            &&& !satisfies(FilterView::GreaterOrEqual { attribute, value }, dn, attrs)
            &&& !satisfies(FilterView::LessOrEqual { attribute, value }, dn, attrs)
            &&& !satisfies(FilterView::ApproxMatch { attribute, value }, dn, attrs)
            &&& !satisfies(FilterView::Present { attribute }, dn, attrs)
        },
{
    if let Some(values) = string_map::lookup(attrs, attribute) {
        assert forall|i: int| 0 <= i < values.len() implies (!text::less(
            #[trigger] values[i],
            value,
        ) <==> values[i] == value || text::less(value, values[i])) && (!text::less(value, values[i])
            <==> values[i] == value || text::less(values[i], value)) by {
            text::less_total(values[i], value);
            text::less_total(value, values[i]);
        }
    }
}

/// Patterns of a filter that is evaluated without a schema ask that the pieces
/// can be laid into one of the values.
pub proof fn plain_patterns_mean_what_they_say(
    attribute: Seq<char>,
    parts: Seq<PartView>,
    dn: Seq<char>,
    attrs: AttributeSeq,
    values: Seq<Seq<char>>,
)
    requires
        string_map::lookup(attrs, attribute) == Some(values),
        parts.len() > 0,
        initial_only_first(parts),
    ensures
        satisfies(FilterView::Substrings { attribute, parts }, dn, attrs) == (exists|i: int|
            0 <= i < values.len() && pattern_can_be_laid(#[trigger] values[i], parts)),
{
    assert forall|i: int| 0 <= i < values.len() implies pattern_fits(#[trigger] values[i], parts)
        == pattern_can_be_laid(values[i], parts) by {
        pattern_fits_where_it_can_be_laid(values[i], parts);
    }
}

// ---------------------------------------------------------------------------
// Comparisons
// ---------------------------------------------------------------------------

/// The rule can prepare each of the values.
pub open spec fn all_prepare(rule: RuleView, values: Seq<Seq<char>>) -> bool {
    forall|i: int| 0 <= i < values.len() ==> schema::normalize(rule, #[trigger] values[i]) is Ok
}

/// The rule can give each of the values a place in its order.
pub open spec fn all_have_keys(rule: RuleView, values: Seq<Seq<char>>) -> bool {
    forall|i: int| 0 <= i < values.len() ==> schema::sort_key(rule, #[trigger] values[i]) is Ok
}

/// One of the values is the wanted one once the rule has prepared it.
pub open spec fn one_becomes(rule: RuleView, values: Seq<Seq<char>>, wanted: Seq<char>) -> bool {
    exists|i: int|
        0 <= i < values.len() && schema::normalize(rule, #[trigger] values[i]) == Ok::<
            Seq<char>,
            schema::RuleErrorView,
        >(wanted)
}

/// The text of a value that the rule can prepare.
pub open spec fn becomes(rule: RuleView, value: Seq<char>) -> Seq<char> {
    schema::normalize(rule, value)->Ok_0
}

/// The key of a value that the rule can give a place.
pub open spec fn key(rule: RuleView, value: Seq<char>) -> Seq<char> {
    schema::sort_key(rule, value)->Ok_0
}

proof fn finds_what_is_there(rule: RuleView, values: Seq<Seq<char>>, wanted: Seq<char>)
    requires
        all_prepare(rule, values),
    ensures
        rule_finds(values, wanted, rule) == Ok::<bool, FilterErrorView>(
            one_becomes(rule, values, wanted),
        ),
    decreases values.len(),
{
    if values.len() > 0 {
        let rest = values.drop_first();
        assert(schema::normalize(rule, values[0]) is Ok);
        assert forall|i: int| 0 <= i < rest.len() implies schema::normalize(
            rule,
            #[trigger] rest[i],
        ) is Ok by {
            assert(rest[i] == values[i + 1]);
        }
        finds_what_is_there(rule, rest, wanted);
        if one_becomes(rule, rest, wanted) {
            let i = choose|i: int|
                0 <= i < rest.len() && schema::normalize(rule, #[trigger] rest[i]) == Ok::<
                    Seq<char>,
                    schema::RuleErrorView,
                >(wanted);
            assert(values[i + 1] == rest[i]);
        }
        if one_becomes(rule, values, wanted) && becomes(rule, values[0]) != wanted {
            let i = choose|i: int|
                0 <= i < values.len() && schema::normalize(rule, #[trigger] values[i]) == Ok::<
                    Seq<char>,
                    schema::RuleErrorView,
                >(wanted);
            assert(rest[i - 1] == values[i]);
        }
    }
}

proof fn equals_what_is_there(rule: RuleView, values: Seq<Seq<char>>, assertion: Seq<char>)
    requires
        all_prepare(rule, values),
        schema::normalize(rule, assertion) is Ok,
    ensures
        rule_equals(values, assertion, rule) == Ok::<bool, FilterErrorView>(
            one_becomes(rule, values, becomes(rule, assertion)),
        ),
    decreases values.len(),
{
    finds_what_is_there(rule, values, becomes(rule, assertion));
    same_verdict(rule, values, assertion);
}

proof fn same_verdict(rule: RuleView, values: Seq<Seq<char>>, assertion: Seq<char>)
    requires
        schema::normalize(rule, assertion) is Ok,
    ensures
        rule_equals(values, assertion, rule) == rule_finds(values, becomes(rule, assertion), rule),
    decreases values.len(),
{
    if values.len() > 0 {
        same_verdict(rule, values.drop_first(), assertion);
    }
}

/// One of the keys stands where the comparison asks it to: not below the wanted
/// one, or not above it.
pub open spec fn one_stands(
    rule: RuleView,
    values: Seq<Seq<char>>,
    wanted: Seq<char>,
    at_least: bool,
) -> bool {
    exists|i: int|
        0 <= i < values.len() && !(if at_least {
            text::less(key(rule, #[trigger] values[i]), wanted)
        } else {
            text::less(wanted, key(rule, values[i]))
        })
}

proof fn orders_what_is_there(
    rule: RuleView,
    values: Seq<Seq<char>>,
    wanted: Seq<char>,
    at_least: bool,
)
    requires
        all_have_keys(rule, values),
    ensures
        rule_orders(
            values,
            wanted,
            rule,
            if at_least {
                CompareExpectation::Ge
            } else {
                CompareExpectation::Le
            },
        ) == Ok::<bool, FilterErrorView>(one_stands(rule, values, wanted, at_least)),
    decreases values.len(),
{
    if values.len() > 0 {
        let rest = values.drop_first();
        assert(schema::sort_key(rule, values[0]) is Ok);
        assert forall|i: int| 0 <= i < rest.len() implies schema::sort_key(
            rule,
            #[trigger] rest[i],
        ) is Ok by {
            assert(rest[i] == values[i + 1]);
        }
        orders_what_is_there(rule, rest, wanted, at_least);
        if one_stands(rule, rest, wanted, at_least) {
            let i = choose|i: int|
                0 <= i < rest.len() && !(if at_least {
                    text::less(key(rule, #[trigger] rest[i]), wanted)
                } else {
                    text::less(wanted, key(rule, rest[i]))
                });
            assert(values[i + 1] == rest[i]);
        }
        if one_stands(rule, values, wanted, at_least) {
            let i = choose|i: int|
                0 <= i < values.len() && !(if at_least {
                    text::less(key(rule, #[trigger] values[i]), wanted)
                } else {
                    text::less(wanted, key(rule, values[i]))
                });
            if i > 0 {
                assert(rest[i - 1] == values[i]);
            }
        }
    }
}

/// The pieces can be laid into one of the values once the rule has prepared it.
pub open spec fn one_holds(rule: RuleView, values: Seq<Seq<char>>, parts: Seq<PartView>) -> bool {
    exists|i: int|
        0 <= i < values.len() && pattern_can_be_laid(becomes(rule, #[trigger] values[i]), parts)
}

proof fn fits_what_is_there(rule: RuleView, values: Seq<Seq<char>>, parts: Seq<PartView>)
    requires
        all_prepare(rule, values),
        initial_only_first(parts),
    ensures
        rule_fits(values, parts, rule) == Ok::<bool, FilterErrorView>(
            one_holds(rule, values, parts),
        ),
    decreases values.len(),
{
    if values.len() > 0 {
        let rest = values.drop_first();
        assert(schema::normalize(rule, values[0]) is Ok);
        pattern_fits_where_it_can_be_laid(becomes(rule, values[0]), parts);
        assert forall|i: int| 0 <= i < rest.len() implies schema::normalize(
            rule,
            #[trigger] rest[i],
        ) is Ok by {
            assert(rest[i] == values[i + 1]);
        }
        fits_what_is_there(rule, rest, parts);
        if one_holds(rule, rest, parts) {
            let i = choose|i: int|
                0 <= i < rest.len() && pattern_can_be_laid(
                    becomes(rule, #[trigger] rest[i]),
                    parts,
                );
            assert(values[i + 1] == rest[i]);
        }
        if one_holds(rule, values, parts) {
            let i = choose|i: int|
                0 <= i < values.len() && pattern_can_be_laid(
                    becomes(rule, #[trigger] values[i]),
                    parts,
                );
            if i > 0 {
                assert(rest[i - 1] == values[i]);
            }
        }
    }
}

/// What each comparison of a prepared filter means for an attribute that the
/// entry has: a value that the rule makes the wanted one, one whose key is not
/// below it or not above it, or one that the pieces can be laid into.
pub proof fn comparisons_mean_what_they_say(
    attribute: Seq<char>,
    rule: RuleView,
    wanted: Seq<char>,
    wanted_key: Seq<char>,
    parts: Seq<PartView>,
    dn: Seq<char>,
    attrs: AttributeSeq,
    values: Seq<Seq<char>>,
)
    requires
        string_map::lookup(attrs, attribute) == Some(values),
    ensures
        all_prepare(rule, values) ==> evaluated(
            PreparedView::Equality { attribute, rule, value: wanted },
            dn,
            attrs,
        ) == Ok::<bool, FilterErrorView>(one_becomes(rule, values, wanted)),
        all_prepare(rule, values) && initial_only_first(parts) ==> evaluated(
            PreparedView::Substrings { attribute, rule, parts },
            dn,
            attrs,
        ) == Ok::<bool, FilterErrorView>(one_holds(rule, values, parts)),
        all_have_keys(rule, values) ==> evaluated(
            PreparedView::GreaterOrEqual { attribute, rule, value: wanted, key: wanted_key },
            dn,
            attrs,
        ) == Ok::<bool, FilterErrorView>(one_stands(rule, values, wanted_key, true)),
        all_have_keys(rule, values) ==> evaluated(
            PreparedView::LessOrEqual { attribute, rule, value: wanted, key: wanted_key },
            dn,
            attrs,
        ) == Ok::<bool, FilterErrorView>(one_stands(rule, values, wanted_key, false)),
        evaluated(PreparedView::Present { attribute }, dn, attrs) == Ok::<bool, FilterErrorView>(
            true,
        ),
{
    if all_prepare(rule, values) {
        finds_what_is_there(rule, values, wanted);
        if initial_only_first(parts) {
            fits_what_is_there(rule, values, parts);
        }
    }
    if all_have_keys(rule, values) {
        orders_what_is_there(rule, values, wanted_key, true);
        orders_what_is_there(rule, values, wanted_key, false);
    }
}

/// No comparison with an attribute that the entry does not have matches.
pub proof fn nothing_matches_what_is_not_there(
    attribute: Seq<char>,
    rule: RuleView,
    wanted: Seq<char>,
    wanted_key: Seq<char>,
    parts: Seq<PartView>,
    dn: Seq<char>,
    attrs: AttributeSeq,
)
    requires
        string_map::lookup(attrs, attribute) is None,
    ensures
        evaluated(PreparedView::Equality { attribute, rule, value: wanted }, dn, attrs) == Ok::<
            bool,
            FilterErrorView,
        >(false),
        evaluated(PreparedView::Substrings { attribute, rule, parts }, dn, attrs) == Ok::<
            bool,
            FilterErrorView,
        >(false),
        evaluated(
            PreparedView::GreaterOrEqual { attribute, rule, value: wanted, key: wanted_key },
            dn,
            attrs,
        ) == Ok::<bool, FilterErrorView>(false),
        evaluated(
            PreparedView::LessOrEqual { attribute, rule, value: wanted, key: wanted_key },
            dn,
            attrs,
        ) == Ok::<bool, FilterErrorView>(false),
        evaluated(PreparedView::Present { attribute }, dn, attrs) == Ok::<bool, FilterErrorView>(
            false,
        ),
        evaluated(
            PreparedView::Extensible {
                attribute: Some(attribute),
                rule,
                value: wanted,
                dn_attributes: false,
                applicable: None,
            },
            dn,
            attrs,
        ) == Ok::<bool, FilterErrorView>(false),
{
}

/// A value that cannot be compared makes a comparison fail, unless one before
/// it has matched: of the values up to the first that matches, each can be
/// prepared where the comparison can be told.
pub proof fn a_match_can_be_shown(
    attribute: Seq<char>,
    rule: RuleView,
    wanted: Seq<char>,
    dn: Seq<char>,
    attrs: AttributeSeq,
    values: Seq<Seq<char>>,
)
    requires
        string_map::lookup(attrs, attribute) == Some(values),
        evaluated(PreparedView::Equality { attribute, rule, value: wanted }, dn, attrs) == Ok::<
            bool,
            FilterErrorView,
        >(true),
    ensures
        one_becomes(rule, values, wanted),
{
    shown_match(rule, values, wanted);
}

proof fn shown_match(rule: RuleView, values: Seq<Seq<char>>, wanted: Seq<char>)
    requires
        rule_finds(values, wanted, rule) == Ok::<bool, FilterErrorView>(true),
    ensures
        one_becomes(rule, values, wanted),
    decreases values.len(),
{
    if becomes(rule, values[0]) != wanted {
        let rest = values.drop_first();
        shown_match(rule, rest, wanted);
        let i = choose|i: int|
            0 <= i < rest.len() && schema::normalize(rule, #[trigger] rest[i]) == Ok::<
                Seq<char>,
                schema::RuleErrorView,
            >(wanted);
        assert(values[i + 1] == rest[i]);
    } else {
        assert(schema::normalize(rule, values[0]) is Ok);
    }
}

/// A match by rule looks at the values of the attribute, and, where it is asked
/// to, at those in the name of the entry: one of them must be the wanted one
/// once the rule has prepared it.
pub proof fn a_match_by_rule_looks_at_the_attribute_and_the_name(
    attribute: Seq<char>,
    rule: RuleView,
    wanted: Seq<char>,
    dn_attributes: bool,
    dn: Seq<char>,
    attrs: AttributeSeq,
    values: Seq<Seq<char>>,
)
    requires
        string_map::lookup(attrs, attribute) == Some(values),
        all_prepare(rule, values),
        all_prepare(rule, dn_values(dn, Some(attribute))),
    ensures
        evaluated(
            PreparedView::Extensible {
                attribute: Some(attribute),
                rule,
                value: wanted,
                dn_attributes,
                applicable: None,
            },
            dn,
            attrs,
        ) == Ok::<bool, FilterErrorView>(
            one_becomes(rule, values, wanted) || (dn_attributes && one_becomes(
                rule,
                dn_values(dn, Some(attribute)),
                wanted,
            )),
        ),
{
    finds_what_is_there(rule, values, wanted);
    finds_what_is_there(rule, dn_values(dn, Some(attribute)), wanted);
}

/// A match by rule without an attribute looks at every attribute that the rule
/// applies to, and at no other.
pub proof fn a_match_by_rule_alone_looks_at_all_it_applies_to(
    rule: RuleView,
    wanted: Seq<char>,
    applicable: Seq<Seq<char>>,
    dn: Seq<char>,
    attrs: AttributeSeq,
)
    requires
        forall|i: int|
            0 <= i < attrs.len() && applicable.contains((#[trigger] attrs[i]).0) ==> all_prepare(
                rule,
                attrs[i].1,
            ),
    ensures
        evaluated(
            PreparedView::Extensible {
                attribute: None,
                rule,
                value: wanted,
                dn_attributes: false,
                applicable: Some(applicable),
            },
            dn,
            attrs,
        ) == Ok::<bool, FilterErrorView>(
            exists|i: int|
                0 <= i < attrs.len() && applicable.contains((#[trigger] attrs[i]).0)
                    && one_becomes(rule, attrs[i].1, wanted),
        ),
{
    finds_in_attributes(rule, wanted, applicable, attrs);
}

proof fn finds_in_attributes(
    rule: RuleView,
    wanted: Seq<char>,
    applicable: Seq<Seq<char>>,
    attrs: AttributeSeq,
)
    requires
        forall|i: int|
            0 <= i < attrs.len() && applicable.contains((#[trigger] attrs[i]).0) ==> all_prepare(
                rule,
                attrs[i].1,
            ),
    ensures
        rule_finds_in(attrs, Some(applicable), wanted, rule) == Ok::<bool, FilterErrorView>(
            exists|i: int|
                0 <= i < attrs.len() && applicable.contains((#[trigger] attrs[i]).0)
                    && one_becomes(rule, attrs[i].1, wanted),
        ),
    decreases attrs.len(),
{
    if attrs.len() > 0 {
        let rest = attrs.drop_first();
        assert forall|i: int|
            0 <= i < rest.len() && applicable.contains((#[trigger] rest[i]).0) implies all_prepare(
            rule,
            rest[i].1,
        ) by {
            assert(rest[i] == attrs[i + 1]);
        }
        finds_in_attributes(rule, wanted, applicable, rest);
        if applicable.contains(attrs[0].0) {
            finds_what_is_there(rule, attrs[0].1, wanted);
        }
        if exists|i: int|
            0 <= i < rest.len() && applicable.contains((#[trigger] rest[i]).0) && one_becomes(
                rule,
                rest[i].1,
                wanted,
            ) {
            let i = choose|i: int|
                0 <= i < rest.len() && applicable.contains((#[trigger] rest[i]).0) && one_becomes(
                    rule,
                    rest[i].1,
                    wanted,
                );
            assert(attrs[i + 1] == rest[i]);
        }
        if exists|i: int|
            0 <= i < attrs.len() && applicable.contains((#[trigger] attrs[i]).0) && one_becomes(
                rule,
                attrs[i].1,
                wanted,
            ) {
            let i = choose|i: int|
                0 <= i < attrs.len() && applicable.contains((#[trigger] attrs[i]).0)
                    && one_becomes(rule, attrs[i].1, wanted);
            if i > 0 {
                assert(rest[i - 1] == attrs[i]);
            }
        }
    }
}

/// A pattern of a beginning and an end asks for both, without overlap; one of a
/// beginning, an end or a middle alone asks for that.
pub proof fn short_patterns(value: Seq<char>, a: Seq<char>, b: Seq<char>)
    ensures
        pattern_fits(value, seq![PartView::Initial(a)]) == text::starts_with(value, a),
        pattern_fits(value, seq![PartView::Final(a)]) == text::ends_with(value, a),
        pattern_fits(value, seq![PartView::Any(a)]) == text::contains_text(value, a),
        pattern_fits(value, seq![PartView::Initial(a), PartView::Final(b)]) == (text::starts_with(
            value,
            a,
        ) && text::ends_with(value, b) && a.len() + b.len() <= value.len()),
{
    reveal_with_fuel(pattern_fits, 3);
    let one = seq![PartView::Initial(a)];
    assert(one.drop_first() =~= Seq::<PartView>::empty());
    let any = seq![PartView::Any(a)];
    assert(any.drop_first() =~= Seq::<PartView>::empty());
    if a.len() == 0 {
        assert(value.take(0) =~= a);
        assert(text::starts_with(value, a));
    }
    let two = seq![PartView::Initial(a), PartView::Final(b)];
    assert(two.drop_first() =~= seq![PartView::Final(b)]);
    if text::starts_with(value, a) {
        let rest = value.skip(a.len() as int);
        if b.len() <= rest.len() {
            assert(rest.skip(rest.len() - b.len()) =~= value.skip(value.len() - b.len()));
        }
    }
}

/// How the rules tell values apart: without case where letters have none to
/// them, and always without white space at the ends.
pub proof fn rules_tell_values_apart(name: Seq<char>, a: Seq<char>, b: Seq<char>)
    ensures
        text::lower(a) == text::lower(b) && text::is_trimmed(a) && text::is_trimmed(b) && (
        forall|i: int| 0 <= i < a.len() ==> !text::is_space(#[trigger] a[i])) && (forall|i: int|
            0 <= i < b.len() ==> !text::is_space(#[trigger] b[i])) ==> schema::normalize(
            RuleView { primary_name: name, kind: RuleKind::CaseIgnore },
            a,
        ) == schema::normalize(RuleView { primary_name: name, kind: RuleKind::CaseIgnore }, b),
        (forall|i: int| 0 <= i < a.len() ==> !text::is_space(#[trigger] a[i])) && (forall|i: int|
            0 <= i < b.len() ==> !text::is_space(#[trigger] b[i])) && schema::normalize(
            RuleView { primary_name: name, kind: RuleKind::CaseIgnore },
            a,
        ) == schema::normalize(RuleView { primary_name: name, kind: RuleKind::CaseIgnore }, b)
            ==> text::lower(a) == text::lower(b),
        (forall|i: int| 0 <= i < a.len() ==> !text::is_space(#[trigger] a[i])) ==> becomes(
            RuleView { primary_name: name, kind: RuleKind::CaseExact },
            a,
        ) == a,
{
    if forall|i: int| 0 <= i < a.len() ==> !text::is_space(#[trigger] a[i]) {
        solid_text(a);
    }
    if forall|i: int| 0 <= i < b.len() ==> !text::is_space(#[trigger] b[i]) {
        solid_text(b);
    }
}

proof fn solid_text(a: Seq<char>)
    requires
        forall|i: int| 0 <= i < a.len() ==> !text::is_space(#[trigger] a[i]),
    ensures
        text::trim(a) == a,
        schema::collapse(a) == a,
    decreases a.len(),
{
    if a.len() > 0 {
        assert(!text::is_space(a[0]) && !text::is_space(a[a.len() - 1]));
        let front = a.drop_last();
        assert forall|i: int| 0 <= i < front.len() implies !text::is_space(#[trigger] front[i]) by {
            assert(front[i] == a[i]);
        }
        solid_text(front);
        assert(front.push(a.last()) =~= a);
    }
    text::trim_of_trimmed(a);
}

// ---------------------------------------------------------------------------
// Comparing an attribute
// ---------------------------------------------------------------------------

/// An attribute compares true with an assertion exactly where one of its values
/// and the assertion are the same once the rule has prepared both.
pub proof fn comparison_means_an_equal_value(
    sch: LdapSchema,
    attrs: AttributeSeq,
    attribute: Seq<char>,
    assertion: Seq<char>,
    rule: RuleView,
    values: Seq<Seq<char>>,
)
    requires
        schema::rule_for(sch, attribute, RuleUse::Equality) == Ok::<
            RuleView,
            schema::RuleErrorView,
        >(rule),
        rule.kind != RuleKind::Unsupported,
        schema::normalize(rule, assertion) is Ok,
        string_map::lookup(attrs, text::lower(attribute)) == Some(values),
        all_prepare(rule, values),
    ensures
        compare_verdict(sch, attrs, attribute, assertion) == Ok::<bool, FilterErrorView>(
            exists|i: int|
                0 <= i < values.len() && schema::normalize(rule, #[trigger] values[i])
                    == schema::normalize(rule, assertion),
        ),
{
    equals_what_is_there(rule, values, assertion);
    let wanted = becomes(rule, assertion);
    if one_becomes(rule, values, wanted) {
        let i = choose|i: int|
            0 <= i < values.len() && schema::normalize(rule, #[trigger] values[i]) == Ok::<
                Seq<char>,
                schema::RuleErrorView,
            >(wanted);
        assert(schema::normalize(rule, values[i]) == schema::normalize(rule, assertion));
    }
}

/// A comparison of an attribute that the entry does not have is false, and one
/// of an attribute that the schema does not know is an error, whatever the
/// entry holds.
pub proof fn comparison_of_what_is_not_there(
    sch: LdapSchema,
    attrs: AttributeSeq,
    attribute: Seq<char>,
    assertion: Seq<char>,
)
    ensures
        schema::attribute_type(sch, attribute) is None ==> compare_verdict(
            sch,
            attrs,
            attribute,
            assertion,
        ) == Err::<bool, FilterErrorView>(FilterErrorView::UndefinedAttribute(attribute)),
        schema::attribute_type(sch, attribute) is Some && string_map::lookup(
            attrs,
            text::lower(attribute),
        ) is None ==> compare_verdict(sch, attrs, attribute, assertion) == Ok::<
            bool,
            FilterErrorView,
        >(false),
{
}

/// A comparison comes to what the filter of that attribute and assertion comes
/// to for the entry, where the schema admits the assertion.
pub proof fn comparison_agrees_with_the_filter(
    sch: LdapSchema,
    attrs: AttributeSeq,
    attribute: Seq<char>,
    assertion: Seq<char>,
    dn: Seq<char>,
)
    requires
        text::lower(attribute) == attribute,
        ldap_filter_eval::admitted_assertion(sch, attribute, assertion) is Ok,
    ensures
        compare_verdict(sch, attrs, attribute, assertion) == schema_evaluated(
            sch,
            FilterView::Equality { attribute, value: assertion },
            dn,
            attrs,
        ),
        prepared(sch, FilterView::Equality { attribute, value: assertion }) matches Ok(p)
            && compare_verdict(sch, attrs, attribute, assertion) == evaluated(p, dn, attrs),
{
    let rule = schema::rule_for(sch, attribute, RuleUse::Equality)->Ok_0;
    if let Some(values) = string_map::lookup(attrs, attribute) {
        same_verdict(rule, values, assertion);
    }
}

// ---------------------------------------------------------------------------
// Preparing
// ---------------------------------------------------------------------------

/// What a filter was before it was prepared: preparing changes no attribute, no
/// rule and no and, or, not, and each value becomes what its rule makes of it.
pub proof fn preparing_keeps_the_shape(
    sch: LdapSchema,
    g: FilterView,
    fs: Seq<FilterView>,
    attribute: Seq<char>,
    value: Seq<char>,
)
    ensures
        prepared(sch, g) matches Ok(p) ==> prepared(sch, FilterView::Not(Box::new(g))) == Ok::<
            PreparedView,
            FilterErrorView,
        >(PreparedView::Not(Box::new(p))),
        prepared(sch, FilterView::And(fs)) matches Ok(p) ==> p is And && p->And_0.len()
            == fs.len() && forall|i: int|
            0 <= i < fs.len() ==> prepared(sch, #[trigger] fs[i]) == Ok::<
                PreparedView,
                FilterErrorView,
            >(p->And_0[i]),
        prepared(sch, FilterView::Or(fs)) matches Ok(p) ==> p is Or && p->Or_0.len() == fs.len()
            && forall|i: int|
            0 <= i < fs.len() ==> prepared(sch, #[trigger] fs[i]) == Ok::<
                PreparedView,
                FilterErrorView,
            >(p->Or_0[i]),
        prepared(sch, FilterView::Equality { attribute, value }) matches Ok(p) ==> p
            matches PreparedView::Equality { attribute: a, rule, value: v } && a == attribute
            && schema::rule_for(sch, attribute, RuleUse::Equality) == Ok::<
            RuleView,
            schema::RuleErrorView,
        >(rule) && schema::normalize(rule, value) == Ok::<Seq<char>, schema::RuleErrorView>(v),
        prepared(sch, FilterView::GreaterOrEqual { attribute, value }) matches Ok(p) ==> p
            matches PreparedView::GreaterOrEqual { attribute: a, rule, value: v, key: k } && a
            == attribute && schema::rule_for(sch, attribute, RuleUse::Order) == Ok::<
            RuleView,
            schema::RuleErrorView,
        >(rule) && schema::sort_key(rule, value) == Ok::<Seq<char>, schema::RuleErrorView>(k),
        prepared(sch, FilterView::LessOrEqual { attribute, value }) matches Ok(p) ==> p
            matches PreparedView::LessOrEqual { attribute: a, rule, value: v, key: k } && a
            == attribute && schema::rule_for(sch, attribute, RuleUse::Order) == Ok::<
            RuleView,
            schema::RuleErrorView,
        >(rule) && schema::sort_key(rule, value) == Ok::<Seq<char>, schema::RuleErrorView>(k),
        prepared(sch, FilterView::Present { attribute }) matches Ok(p) ==> p
            == (PreparedView::Present { attribute }),
{
    members_are_prepared(sch, fs);
}

proof fn members_are_prepared(sch: LdapSchema, fs: Seq<FilterView>)
    ensures
        prepared_all(sch, fs) matches Ok(ps) ==> ps.len() == fs.len() && forall|i: int|
            0 <= i < fs.len() ==> prepared(sch, #[trigger] fs[i]) == Ok::<
                PreparedView,
                FilterErrorView,
            >(ps[i]),
        prepared_all(sch, fs) is Ok <==> forall|i: int|
            0 <= i < fs.len() ==> prepared(sch, #[trigger] fs[i]) is Ok,
    decreases fs.len(),
{
    if fs.len() > 0 {
        let rest = fs.drop_first();
        members_are_prepared(sch, rest);
        assert forall|i: int| 0 <= i < rest.len() implies #[trigger] rest[i] == fs[i + 1] by {}
        if let Ok(ps) = prepared_all(sch, fs) {
            assert forall|i: int| 0 <= i < fs.len() implies prepared(sch, #[trigger] fs[i])
                == Ok::<PreparedView, FilterErrorView>(ps[i]) by {
                if i > 0 {
                    assert(rest[i - 1] == fs[i]);
                }
            }
        } else if prepared(sch, fs[0]) is Ok {
            let i = choose|i: int| 0 <= i < rest.len() && !(prepared(sch, #[trigger] rest[i]) is Ok);
            assert(fs[i + 1] == rest[i]);
        }
    }
}

/// A filter with a comparison of an attribute that the schema does not know is
/// not admitted, and so is none that holds it.
pub proof fn unknown_attributes_are_refused(
    sch: LdapSchema,
    attribute: Seq<char>,
    value: Seq<char>,
    parts: Seq<PartView>,
    fs: Seq<FilterView>,
    k: int,
)
    requires
        schema::attribute_type(sch, attribute) is None,
        0 <= k < fs.len(),
        fs[k] == (FilterView::Present { attribute }),
    ensures
        prepared(sch, FilterView::Present { attribute }) == Err::<PreparedView, FilterErrorView>(
            FilterErrorView::UndefinedAttribute(attribute),
        ),
        prepared(sch, FilterView::Equality { attribute, value }) == Err::<
            PreparedView,
            FilterErrorView,
        >(FilterErrorView::UndefinedAttribute(attribute)),
        prepared(sch, FilterView::Substrings { attribute, parts }) == Err::<
            PreparedView,
            FilterErrorView,
        >(FilterErrorView::UndefinedAttribute(attribute)),
        prepared(sch, FilterView::GreaterOrEqual { attribute, value }) == Err::<
            PreparedView,
            FilterErrorView,
        >(FilterErrorView::UndefinedAttribute(attribute)),
        prepared(sch, FilterView::LessOrEqual { attribute, value }) == Err::<
            PreparedView,
            FilterErrorView,
        >(FilterErrorView::UndefinedAttribute(attribute)),
        prepared(sch, FilterView::And(fs)) is Err,
        prepared(sch, FilterView::Or(fs)) is Err,
{
    members_are_prepared(sch, fs);
    assert(!(prepared(sch, fs[k]) is Ok));
}

} // verus!
