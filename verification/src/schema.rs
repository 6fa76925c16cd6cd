//! Attribute types and matching rules, and the way the rules compare values.

use vstd::prelude::*;

use crate::text;

verus! {

/// How a matching rule prepares values before it compares them.
#[derive(Debug, Clone, Copy, PartialEq, Eq, Structural)]
pub enum RuleKind {
    /// Letters are compared without case, runs of white space as one blank.
    CaseIgnore,
    /// Runs of white space are compared as one blank.
    CaseExact,
    /// Values are compared as integers.
    Integer,
    /// The rule is known by name only.
    Unsupported,
}

/// A matching rule of the schema.
#[derive(Debug)]
pub struct MatchingRule {
    pub oid: String,
    pub names: Vec<String>,
    pub syntax: String,
    pub kind: RuleKind,
}

/// An attribute type of the schema, with the names of its matching rules.
#[derive(Debug)]
pub struct AttributeType {
    pub oid: String,
    pub names: Vec<String>,
    pub syntax: String,
    pub equality: Option<String>,
    pub ordering: Option<String>,
    pub substring: Option<String>,
}

/// A matching rule that a filter or a comparison has been resolved to.
#[derive(Debug, PartialEq, Eq)]
pub struct ResolvedMatchingRule {
    pub primary_name: String,
    pub kind: RuleKind,
}

/// What a [`ResolvedMatchingRule`] says.
pub struct RuleView {
    pub primary_name: Seq<char>,
    pub kind: RuleKind,
}

impl View for ResolvedMatchingRule {
    type V = RuleView;

    open spec fn view(&self) -> RuleView {
        RuleView { primary_name: self.primary_name@, kind: self.kind }
    }
}

/// Why a matching rule could not be resolved or applied. Each holds the text
/// that tells the reader so; `AttributeNotFound` holds the attribute's name.
#[derive(Debug, PartialEq, Eq)]
pub enum MatchingRuleError {
    AttributeNotFound(String),
    InvalidSyntax(String),
    NoMatchingRule(String),
    UnsupportedRule(String),
    MatchingRuleNotFound(String),
    InapplicableRule(String),
    MissingDependency(String),
}

/// What a [`MatchingRuleError`] says.
pub enum RuleErrorView {
    AttributeNotFound(Seq<char>),
    InvalidSyntax(Seq<char>),
    NoMatchingRule(Seq<char>),
    UnsupportedRule(Seq<char>),
    MatchingRuleNotFound(Seq<char>),
    InapplicableRule(Seq<char>),
    MissingDependency(Seq<char>),
}

impl View for MatchingRuleError {
    type V = RuleErrorView;

    open spec fn view(&self) -> RuleErrorView {
        match self {
            MatchingRuleError::AttributeNotFound(s) => RuleErrorView::AttributeNotFound(s@),
            MatchingRuleError::InvalidSyntax(s) => RuleErrorView::InvalidSyntax(s@),
            MatchingRuleError::NoMatchingRule(s) => RuleErrorView::NoMatchingRule(s@),
            MatchingRuleError::UnsupportedRule(s) => RuleErrorView::UnsupportedRule(s@),
            MatchingRuleError::MatchingRuleNotFound(s) => RuleErrorView::MatchingRuleNotFound(s@),
            MatchingRuleError::InapplicableRule(s) => RuleErrorView::InapplicableRule(s@),
            MatchingRuleError::MissingDependency(s) => RuleErrorView::MissingDependency(s@),
        }
    }
}

/// What a result with a rule says.
pub open spec fn rule_result(r: Result<ResolvedMatchingRule, MatchingRuleError>) -> Result<
    RuleView,
    RuleErrorView,
> {
    match r {
        Ok(rule) => Ok(rule@),
        Err(e) => Err(e@),
    }
}

/// What a result with a text says.
pub open spec fn text_result(r: Result<String, MatchingRuleError>) -> Result<
    Seq<char>,
    RuleErrorView,
> {
    match r {
        Ok(s) => Ok(s@),
        Err(e) => Err(e@),
    }
}

// ---------------------------------------------------------------------------
// Preparing values
// ---------------------------------------------------------------------------

/// The text with each run of white space replaced by one blank.
pub open spec fn collapse(s: Seq<char>) -> Seq<char>
    decreases s.len(),
{
    if s.len() == 0 {
        s
    } else if !text::is_space(s.last()) {
        collapse(s.drop_last()).push(s.last())
    } else if s.len() > 1 && text::is_space(s[s.len() - 2]) {
        collapse(s.drop_last())
    } else {
        collapse(s.drop_last()).push(' ')
    }
}

fn collapsed(s: &str) -> (r: String)
    ensures
        r@ == collapse(s@),
{
    let chars = text::chars_of(s);
    let mut out = String::new();
    let mut i: usize = 0;
    while i < chars.len()
        invariant
            chars@ == s@,
            i <= chars@.len(),
            out@ == collapse(s@.take(i as int)),
        decreases chars@.len() - i,
    {
        proof {
            let t = s@.take(i as int + 1);
            assert(t.drop_last() =~= s@.take(i as int));
            assert(t.last() == s@[i as int]);
            if i > 0 {
                assert(t[t.len() - 2] == s@[i - 1]);
            }
        }
        if !text::char_is_space(chars[i]) {
            out.push(chars[i]);
        } else if i > 0 && text::char_is_space(chars[i - 1]) {
        } else {
            out.push(' ');
        }
        i = i + 1;
    }
    proof {
        assert(s@.take(i as int) =~= s@);
    }
    out
}

/// The text without the leading zeros that stand before another character.
pub open spec fn strip_zeros(s: Seq<char>) -> Seq<char>
    decreases s.len(),
{
    if s.len() > 1 && s[0] == '0' {
        strip_zeros(s.drop_first())
    } else {
        s
    }
}

/// The text is an integer: digits, with a `-` before them or not.
pub open spec fn is_integer(s: Seq<char>) -> bool {
    let d = if s.len() > 0 && s[0] == '-' {
        s.drop_first()
    } else {
        s
    };
    d.len() > 0 && text::all_digits(d)
}

/// The digits of an integer without leading zeros.
pub open spec fn magnitude(s: Seq<char>) -> Seq<char> {
    strip_zeros(
        if s.len() > 0 && s[0] == '-' {
            s.drop_first()
        } else {
            s
        },
    )
}

/// The integer is below zero.
pub open spec fn is_negative(s: Seq<char>) -> bool {
    s.len() > 0 && s[0] == '-' && magnitude(s) != seq!['0']
}

/// An integer without leading zeros; there is no negative zero.
pub open spec fn canonical_integer(s: Seq<char>) -> Seq<char> {
    if is_negative(s) {
        seq!['-'] + magnitude(s)
    } else {
        magnitude(s)
    }
}

/// The text says that a value is no integer.
pub open spec fn not_an_integer(value: Seq<char>) -> Seq<char> {
    "invalid integer value: "@ + value
}

/// The value as the rule compares it.
pub open spec fn normalize(rule: RuleView, value: Seq<char>) -> Result<Seq<char>, RuleErrorView> {
    match rule.kind {
        RuleKind::CaseIgnore => Ok(text::lower(collapse(text::trim(value)))),
        RuleKind::CaseExact => Ok(collapse(text::trim(value))),
        RuleKind::Integer => if is_integer(text::trim(value)) {
            Ok(canonical_integer(text::trim(value)))
        } else {
            Err(RuleErrorView::InvalidSyntax(not_an_integer(value)))
        },
        RuleKind::Unsupported => Err(RuleErrorView::UnsupportedRule(rule.primary_name)),
    }
}

/// A piece of a substring pattern as the rule compares it: white space at its
/// ends belongs to the pattern and stays.
pub open spec fn normalize_fragment(rule: RuleView, value: Seq<char>) -> Result<
    Seq<char>,
    RuleErrorView,
> {
    match rule.kind {
        RuleKind::CaseIgnore => Ok(text::lower(collapse(value))),
        RuleKind::CaseExact => Ok(collapse(value)),
        _ => Err(RuleErrorView::UnsupportedRule(rule.primary_name)),
    }
}

/// `n` times the character.
pub open spec fn repeated(c: char, n: nat) -> Seq<char> {
    Seq::new(n, |i: int| c)
}

/// The character that counts down where a digit counts up.
pub open spec fn mirrored(c: char) -> char {
    (105 - c as int) as char
}

/// A text whose order among the keys is the order of the integers: a mark for
/// the sign, the number of digits, the digits. Below zero all but the mark is
/// mirrored.
pub open spec fn integer_key(s: Seq<char>) -> Seq<char> {
    let m = magnitude(s);
    if is_negative(s) {
        seq!['-'] + repeated('0', m.len()) + seq!['1'] + m.map_values(|c: char| mirrored(c))
    } else {
        seq!['0'] + repeated('1', m.len()) + seq!['0'] + m
    }
}

/// The key by which the rule orders a value.
pub open spec fn sort_key(rule: RuleView, value: Seq<char>) -> Result<Seq<char>, RuleErrorView> {
    match rule.kind {
        RuleKind::Integer => if is_integer(text::trim(value)) {
            Ok(integer_key(text::trim(value)))
        } else {
            Err(RuleErrorView::InvalidSyntax(not_an_integer(value)))
        },
        _ => normalize(rule, value),
    }
}

fn integer_start(chars: &Vec<char>) -> (r: usize)
    ensures
        r <= chars@.len(),
        r == (if chars@.len() > 0 && chars@[0] == '-' {
            1int
        } else {
            0int
        }),
{
    if chars.len() > 0 && chars[0] == '-' {
        1
    } else {
        0
    }
}

fn is_integer_text(chars: &Vec<char>) -> (r: bool)
    ensures
        r == is_integer(chars@),
{
    let start = integer_start(chars);
    let ghost d = if chars@.len() > 0 && chars@[0] == '-' {
        chars@.drop_first()
    } else {
        chars@
    };
    proof {
        assert(d =~= chars@.skip(start as int));
    }
    if start == chars.len() {
        return false;
    }
    let mut i: usize = start;
    while i < chars.len()
        invariant
            start <= i <= chars@.len(),
            d == chars@.skip(start as int),
            is_integer(chars@) == (d.len() > 0 && text::all_digits(d)),
            forall|j: int| start <= j < i ==> text::is_digit(#[trigger] chars@[j]),
        decreases chars@.len() - i,
    {
        if !text::char_is_digit(chars[i]) {
            proof {
                assert(d[i - start] == chars@[i as int]);
            }
            return false;
        }
        i = i + 1;
    }
    true
}

/// The place of the first digit of an integer that is no leading zero.
fn magnitude_start(chars: &Vec<char>) -> (r: usize)
    requires
        is_integer(chars@),
    ensures
        r < chars@.len(),
        chars@.skip(r as int) == magnitude(chars@),
{
    let start = integer_start(chars);
    let ghost d = chars@.skip(start as int);
    proof {
        assert(d =~= (if chars@.len() > 0 && chars@[0] == '-' {
            chars@.drop_first()
        } else {
            chars@
        }));
    }
    let mut i: usize = start;
    while chars.len() - i > 1 && chars[i] == '0'
        invariant
            start <= i < chars@.len(),
            d == chars@.skip(start as int),
            strip_zeros(d) == strip_zeros(chars@.skip(i as int)),
        decreases chars@.len() - i,
    {
        proof {
            assert(chars@.skip(i as int).drop_first() =~= chars@.skip(i as int + 1));
        }
        i = i + 1;
    }
    i
}

fn negative_from(chars: &Vec<char>, start: usize) -> (r: bool)
    requires
        start < chars@.len(),
        chars@.skip(start as int) == magnitude(chars@),
    ensures
        r == is_negative(chars@),
{
    proof {
        let m = chars@.skip(start as int);
        if m.len() == 1 && m[0] == '0' {
            assert(m =~= seq!['0']);
        }
    }
    chars[0] == '-' && !(chars.len() - start == 1 && chars[start] == '0')
}

fn canonical_text(s: &str) -> (r: String)
    requires
        is_integer(s@),
    ensures
        r@ == canonical_integer(s@),
{
    let chars = text::chars_of(s);
    let start = magnitude_start(&chars);
    let digits = text::string_of(&chars, start, chars.len());
    proof {
        assert(chars@.subrange(start as int, chars@.len() as int) =~= chars@.skip(start as int));
    }
    if negative_from(&chars, start) {
        let mut out = String::new();
        out.push('-');
        out.append(digits.as_str());
        proof {
            assert(out@ =~= seq!['-'] + digits@);
        }
        out
    } else {
        digits
    }
}

proof fn digits_of_magnitude(s: Seq<char>)
    requires
        text::all_digits(s),
    ensures
        text::all_digits(strip_zeros(s)),
    decreases s.len(),
{
    if s.len() > 1 && s[0] == '0' {
        assert forall|i: int| 0 <= i < s.drop_first().len() implies text::is_digit(
            #[trigger] s.drop_first()[i],
        ) by {
            assert(text::is_digit(s[i + 1]));
        }
        digits_of_magnitude(s.drop_first());
    }
}

fn integer_key_text(s: &str) -> (r: String)
    requires
        is_integer(s@),
    ensures
        r@ == integer_key(s@),
{
    let chars = text::chars_of(s);
    let start = magnitude_start(&chars);
    let negative = negative_from(&chars, start);
    let ghost m = magnitude(s@);
    proof {
        digits_of_magnitude(
            if s@.len() > 0 && s@[0] == '-' {
                s@.drop_first()
            } else {
                s@
            },
        );
    }
    let mut out = String::new();
    out.push(if negative { '-' } else { '0' });
    let unit = if negative { '0' } else { '1' };
    let mut i: usize = start;
    proof {
        assert(out@ =~= seq![out@[0]] + repeated(unit, 0));
    }
    let ghost mark = out@[0];
    while i < chars.len()
        invariant
            start <= i <= chars@.len(),
            out@ == seq![mark] + repeated(unit, (i - start) as nat),
        decreases chars@.len() - i,
    {
        out.push(unit);
        proof {
            assert(out@ =~= seq![mark] + repeated(unit, (i + 1 - start) as nat));
        }
        i = i + 1;
    }
    out.push(if negative { '1' } else { '0' });
    let ghost head = out@;
    let mut k: usize = start;
    let ghost shown = if negative {
        m.map_values(|c: char| mirrored(c))
    } else {
        m
    };
    proof {
        assert(out@ =~= head + shown.take(0));
    }
    while k < chars.len()
        invariant
            start <= k <= chars@.len(),
            chars@.skip(start as int) == m,
            text::all_digits(m),
            shown == (if negative {
                m.map_values(|c: char| mirrored(c))
            } else {
                m
            }),
            out@ == head + shown.take(k - start),
        decreases chars@.len() - k,
    {
        let c = chars[k];
        proof {
            assert(m[k - start] == c);
            assert(text::is_digit(m[k - start]));
            assert(head + shown.take(k + 1 - start) =~= (head + shown.take(k - start)).push(
                shown[k - start],
            ));
        }
        if negative {
            out.push((105u8 - c as u8) as char);
        } else {
            out.push(c);
        }
        k = k + 1;
    }
    proof {
        assert(shown.take(k - start) =~= shown);
        assert(integer_key(s@) =~= head + shown);
    }
    out
}

impl ResolvedMatchingRule {
    /// The rule can compare values.
    pub fn is_supported(&self) -> (r: bool)
        ensures
            r == (self.kind != RuleKind::Unsupported),
    {
        match self.kind {
            RuleKind::Unsupported => false,
            _ => true,
        }
    }

    /// The value as the rule compares it.
    pub fn normalize_value(&self, value: &str) -> (r: Result<String, MatchingRuleError>)
        ensures
            text_result(r) == normalize(self@, value@),
    {
        match self.kind {
            RuleKind::CaseIgnore => Ok(
                text::lowercase(collapsed(text::trimmed(value).as_str()).as_str()),
            ),
            RuleKind::CaseExact => Ok(collapsed(text::trimmed(value).as_str())),
            RuleKind::Integer => {
                let t = text::trimmed(value);
                let chars = text::chars_of(t.as_str());
                if is_integer_text(&chars) {
                    Ok(canonical_text(t.as_str()))
                } else {
                    let mut message = "invalid integer value: ".to_owned();
                    message.append(value);
                    Err(MatchingRuleError::InvalidSyntax(message))
                }
            },
            RuleKind::Unsupported => Err(
                MatchingRuleError::UnsupportedRule(self.primary_name.clone()),
            ),
        }
    }

    /// A piece of a substring pattern as the rule compares it.
    pub fn normalize_substring_fragment(&self, value: &str) -> (r: Result<
        String,
        MatchingRuleError,
    >)
        ensures
            text_result(r) == normalize_fragment(self@, value@),
    {
        match self.kind {
            RuleKind::CaseIgnore => Ok(text::lowercase(collapsed(value).as_str())),
            RuleKind::CaseExact => Ok(collapsed(value)),
            _ => Err(MatchingRuleError::UnsupportedRule(self.primary_name.clone())),
        }
    }

    /// The key by which the rule orders a value.
    pub fn ordering_key(&self, value: &str) -> (r: Result<String, MatchingRuleError>)
        ensures
            text_result(r) == sort_key(self@, value@),
    {
        match self.kind {
            RuleKind::Integer => {
                let t = text::trimmed(value);
                let chars = text::chars_of(t.as_str());
                if is_integer_text(&chars) {
                    Ok(integer_key_text(t.as_str()))
                } else {
                    let mut message = "invalid integer value: ".to_owned();
                    message.append(value);
                    Err(MatchingRuleError::InvalidSyntax(message))
                }
            },
            _ => self.normalize_value(value),
        }
    }

    /// The rule takes the two values for the same.
    pub fn values_equal(&self, candidate: &str, assertion: &str) -> (r: Result<
        bool,
        MatchingRuleError,
    >)
        ensures
            match (normalize(self@, candidate@), normalize(self@, assertion@)) {
                (Err(e), _) => r matches Err(x) && x@ == e,
                (Ok(_), Err(e)) => r matches Err(x) && x@ == e,
                (Ok(a), Ok(b)) => r == Ok::<bool, MatchingRuleError>(a == b),
            },
    {
        let a = match self.normalize_value(candidate) {
            Ok(a) => a,
            Err(e) => return Err(e),
        };
        let b = match self.normalize_value(assertion) {
            Ok(b) => b,
            Err(e) => return Err(e),
        };
        Ok(a == b)
    }
}

// ---------------------------------------------------------------------------
// The schema
// ---------------------------------------------------------------------------

/// The attribute types and the matching rules that a server knows.
#[derive(Debug)]
pub struct LdapSchema {
    pub attribute_types: Vec<AttributeType>,
    pub matching_rules: Vec<MatchingRule>,
}

/// A name or an object identifier is one of those given, without case.
pub open spec fn is_called(oid: Seq<char>, names: Seq<String>, name: Seq<char>) -> bool {
    ||| text::lower(oid) == text::lower(name)
    ||| exists|i: int| 0 <= i < names.len() && text::lower(#[trigger] names[i]@) == text::lower(name)
}

/// The first attribute type of that name, or their number.
pub open spec fn type_place(types: Seq<AttributeType>, name: Seq<char>) -> int
    decreases types.len(),
{
    if types.len() == 0 || is_called(types[0].oid@, types[0].names@, name) {
        0
    } else {
        1 + type_place(types.drop_first(), name)
    }
}

/// The first matching rule of that name, or their number.
pub open spec fn rule_place(rules: Seq<MatchingRule>, name: Seq<char>) -> int
    decreases rules.len(),
{
    if rules.len() == 0 || is_called(rules[0].oid@, rules[0].names@, name) {
        0
    } else {
        1 + rule_place(rules.drop_first(), name)
    }
}

/// The attribute type of that name.
pub open spec fn attribute_type(schema: LdapSchema, name: Seq<char>) -> Option<AttributeType> {
    let i = type_place(schema.attribute_types@, name);
    if i < schema.attribute_types@.len() {
        Some(schema.attribute_types@[i])
    } else {
        None
    }
}

/// The name by which a rule is spoken of: its first name, or its identifier.
pub open spec fn primary_name(rule: MatchingRule) -> Seq<char> {
    if rule.names@.len() > 0 {
        rule.names@[0]@
    } else {
        rule.oid@
    }
}

/// The rule of that name, resolved.
pub open spec fn resolve_rule(schema: LdapSchema, name: Seq<char>) -> Result<
    RuleView,
    RuleErrorView,
> {
    let i = rule_place(schema.matching_rules@, name);
    if i < schema.matching_rules@.len() {
        let rule = schema.matching_rules@[i];
        Ok(RuleView { primary_name: primary_name(rule), kind: rule.kind })
    } else {
        Err(RuleErrorView::MatchingRuleNotFound("matching rule not found: "@ + name))
    }
}

/// The use of a rule for an attribute.
#[derive(Debug, Clone, Copy, PartialEq, Eq, Structural)]
pub enum RuleUse {
    Equality,
    Order,
    Substring,
}

pub open spec fn use_name(u: RuleUse) -> Seq<char> {
    match u {
        RuleUse::Equality => "equality"@,
        RuleUse::Order => "ordering"@,
        RuleUse::Substring => "substring"@,
    }
}

/// The name of the rule that an attribute type has for a use.
pub open spec fn rule_name(t: AttributeType, u: RuleUse) -> Option<String> {
    match u {
        RuleUse::Equality => t.equality,
        RuleUse::Order => t.ordering,
        RuleUse::Substring => t.substring,
    }
}

/// The rule that an attribute has for a use.
pub open spec fn rule_for(schema: LdapSchema, attribute: Seq<char>, u: RuleUse) -> Result<
    RuleView,
    RuleErrorView,
> {
    match attribute_type(schema, attribute) {
        None => Err(RuleErrorView::AttributeNotFound(attribute)),
        Some(t) => match rule_name(t, u) {
            None => Err(
                RuleErrorView::NoMatchingRule(
                    "no "@ + use_name(u) + " matching rule for attribute "@ + attribute,
                ),
            ),
            Some(name) => resolve_rule(schema, name@),
        },
    }
}

/// The rule of that name, where it can compare values of that attribute.
pub open spec fn rule_applied(schema: LdapSchema, rule: Seq<char>, attribute: Seq<char>) -> Result<
    RuleView,
    RuleErrorView,
> {
    match attribute_type(schema, attribute) {
        None => Err(RuleErrorView::AttributeNotFound(attribute)),
        Some(t) => {
            let i = rule_place(schema.matching_rules@, rule);
            if i < schema.matching_rules@.len() && schema.matching_rules@[i].syntax@ != t.syntax@ {
                Err(
                    RuleErrorView::InapplicableRule(
                        "matching rule "@ + rule + " does not apply to attribute "@ + attribute,
                    ),
                )
            } else {
                resolve_rule(schema, rule)
            }
        },
    }
}

fn called(oid: &str, names: &Vec<String>, name: &str) -> (r: bool)
    ensures
        r == is_called(oid@, names@, name@),
{
    if text::eq_ignore_case(oid, name) {
        return true;
    }
    let mut i: usize = 0;
    while i < names.len()
        invariant
            i <= names@.len(),
            forall|j: int| 0 <= j < i ==> text::lower(#[trigger] names@[j]@) != text::lower(name@),
        decreases names@.len() - i,
    {
        if text::eq_ignore_case(names[i].as_str(), name) {
            return true;
        }
        i = i + 1;
    }
    false
}

impl LdapSchema {
    pub fn new() -> (r: Self)
        ensures
            r.attribute_types@ == Seq::<AttributeType>::empty(),
            r.matching_rules@ == Seq::<MatchingRule>::empty(),
    {
        LdapSchema { attribute_types: Vec::new(), matching_rules: Vec::new() }
    }

    fn place_of_type(&self, name: &str) -> (r: usize)
        ensures
            r == type_place(self.attribute_types@, name@),
            r <= self.attribute_types@.len(),
    {
        let mut i: usize = 0;
        let ghost types = self.attribute_types@;
        proof {
            assert(types.skip(0) =~= types);
        }
        while i < self.attribute_types.len()
            invariant
                types == self.attribute_types@,
                i <= types.len(),
                type_place(types, name@) == i + type_place(types.skip(i as int), name@),
            decreases types.len() - i,
        {
            let t = &self.attribute_types[i];
            if called(t.oid.as_str(), &t.names, name) {
                return i;
            }
            proof {
                assert(types.skip(i as int).drop_first() =~= types.skip(i as int + 1));
            }
            i = i + 1;
        }
        i
    }

    fn place_of_rule(&self, name: &str) -> (r: usize)
        ensures
            r == rule_place(self.matching_rules@, name@),
            r <= self.matching_rules@.len(),
    {
        let mut i: usize = 0;
        let ghost rules = self.matching_rules@;
        proof {
            assert(rules.skip(0) =~= rules);
        }
        while i < self.matching_rules.len()
            invariant
                rules == self.matching_rules@,
                i <= rules.len(),
                rule_place(rules, name@) == i + rule_place(rules.skip(i as int), name@),
            decreases rules.len() - i,
        {
            let t = &self.matching_rules[i];
            if called(t.oid.as_str(), &t.names, name) {
                return i;
            }
            proof {
                assert(rules.skip(i as int).drop_first() =~= rules.skip(i as int + 1));
            }
            i = i + 1;
        }
        i
    }

    /// The attribute type of that name.
    pub fn get_attribute_type(&self, name: &str) -> (r: Option<&AttributeType>)
        ensures
            match r {
                Some(t) => attribute_type(*self, name@) == Some(*t),
                None => attribute_type(*self, name@) is None,
            },
    {
        let i = self.place_of_type(name);
        if i < self.attribute_types.len() {
            Some(&self.attribute_types[i])
        } else {
            None
        }
    }

    /// The rule of that name, resolved.
    pub fn resolve_matching_rule(&self, name: &str) -> (r: Result<
        ResolvedMatchingRule,
        MatchingRuleError,
    >)
        ensures
            rule_result(r) == resolve_rule(*self, name@),
    {
        let i = self.place_of_rule(name);
        if i < self.matching_rules.len() {
            let rule = &self.matching_rules[i];
            let shown = if rule.names.len() > 0 {
                rule.names[0].clone()
            } else {
                rule.oid.clone()
            };
            Ok(ResolvedMatchingRule { primary_name: shown, kind: rule.kind })
        } else {
            let mut message = "matching rule not found: ".to_owned();
            message.append(name);
            Err(MatchingRuleError::MatchingRuleNotFound(message))
        }
    }

    fn rule_of(&self, attribute: &str, u: RuleUse) -> (r: Result<
        ResolvedMatchingRule,
        MatchingRuleError,
    >)
        ensures
            rule_result(r) == rule_for(*self, attribute@, u),
    {
        match self.get_attribute_type(attribute) {
            None => Err(MatchingRuleError::AttributeNotFound(attribute.to_owned())),
            Some(t) => {
                let name = match u {
                    RuleUse::Equality => &t.equality,
                    RuleUse::Order => &t.ordering,
                    RuleUse::Substring => &t.substring,
                };
                match name {
                    Some(name) => self.resolve_matching_rule(name.as_str()),
                    None => {
                        let mut message = "no ".to_owned();
                        message.append(
                            match u {
                                RuleUse::Equality => "equality",
                                RuleUse::Order => "ordering",
                                RuleUse::Substring => "substring",
                            },
                        );
                        message.append(" matching rule for attribute ");
                        message.append(attribute);
                        Err(MatchingRuleError::NoMatchingRule(message))
                    },
                }
            },
        }
    }

    /// The rule by which values of the attribute are equal.
    pub fn equality_rule_for_attribute(&self, attribute: &str) -> (r: Result<
        ResolvedMatchingRule,
        MatchingRuleError,
    >)
        ensures
            rule_result(r) == rule_for(*self, attribute@, RuleUse::Equality),
    {
        self.rule_of(attribute, RuleUse::Equality)
    }

    /// The rule by which values of the attribute are ordered.
    pub fn ordering_rule_for_attribute(&self, attribute: &str) -> (r: Result<
        ResolvedMatchingRule,
        MatchingRuleError,
    >)
        ensures
            rule_result(r) == rule_for(*self, attribute@, RuleUse::Order),
    {
        self.rule_of(attribute, RuleUse::Order)
    }

    /// The rule by which values of the attribute are held against patterns.
    pub fn substring_rule_for_attribute(&self, attribute: &str) -> (r: Result<
        ResolvedMatchingRule,
        MatchingRuleError,
    >)
        ensures
            rule_result(r) == rule_for(*self, attribute@, RuleUse::Substring),
    {
        self.rule_of(attribute, RuleUse::Substring)
    }

    /// The attribute is known.
    pub fn resolve_attribute_matching_profile(&self, attribute: &str) -> (r: Result<
        (),
        MatchingRuleError,
    >)
        ensures
            match r {
                Ok(_) => attribute_type(*self, attribute@) is Some,
                Err(e) => attribute_type(*self, attribute@) is None && e@
                    == RuleErrorView::AttributeNotFound(attribute@),
            },
    {
        match self.get_attribute_type(attribute) {
            Some(_) => Ok(()),
            None => Err(MatchingRuleError::AttributeNotFound(attribute.to_owned())),
        }
    }

    /// The rule of that name, where it can compare values of that attribute.
    pub fn matching_rule_applies_to_attribute(&self, rule: &str, attribute: &str) -> (r: Result<
        ResolvedMatchingRule,
        MatchingRuleError,
    >)
        ensures
            rule_result(r) == rule_applied(*self, rule@, attribute@),
    {
        match self.get_attribute_type(attribute) {
            None => Err(MatchingRuleError::AttributeNotFound(attribute.to_owned())),
            Some(t) => {
                let i = self.place_of_rule(rule);
                if i < self.matching_rules.len() && !text::same(
                    self.matching_rules[i].syntax.as_str(),
                    t.syntax.as_str(),
                ) {
                    let mut message = "matching rule ".to_owned();
                    message.append(rule);
                    message.append(" does not apply to attribute ");
                    message.append(attribute);
                    Err(MatchingRuleError::InapplicableRule(message))
                } else {
                    self.resolve_matching_rule(rule)
                }
            },
        }
    }
}

} // verus!
