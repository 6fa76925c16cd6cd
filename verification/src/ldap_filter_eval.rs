//! LDAP search filters: how they are read, what they ask of an index, and
//! which entries they match.

use lber::structures::Tag;
use vstd::prelude::*;

use crate::directory;
use crate::directory::{
    Attributes, DirectoryEntry, HintView, PartView, SearchCandidateHint, SearchEntry,
    SearchSubstringPart,
};
use crate::schema;
use crate::schema::{
    LdapSchema, MatchingRuleError, ResolvedMatchingRule, RuleErrorView, RuleKind, RuleUse, RuleView,
};
use crate::string_map;
use crate::text;

verus! {

const CONTEXT_CLASS: u8 = 2;

const AND_FILTER: u64 = 0;

const OR_FILTER: u64 = 1;

const NOT_FILTER: u64 = 2;

const EQUALITY_MATCH: u64 = 3;

const SUBSTRINGS_MATCH: u64 = 4;

const GREATER_OR_EQUAL: u64 = 5;

const LESS_OR_EQUAL: u64 = 6;

const PRESENT_MATCH: u64 = 7;

const APPROX_MATCH: u64 = 8;

const EXTENSIBLE_MATCH: u64 = 9;

const SUBSTRING_INITIAL: u64 = 0;

const SUBSTRING_ANY: u64 = 1;

const SUBSTRING_FINAL: u64 = 2;

const SUBSTRING_INDEX_MIN_CHARS: usize = 3;

// ---------------------------------------------------------------------------
// Filters
// ---------------------------------------------------------------------------

/// A piece of a substring pattern.
#[derive(Debug, PartialEq, Eq)]
pub enum SubstringPart {
    Initial(String),
    Any(String),
    Final(String),
}

impl View for SubstringPart {
    type V = PartView;

    open spec fn view(&self) -> PartView {
        match self {
            SubstringPart::Initial(s) => PartView::Initial(s@),
            SubstringPart::Any(s) => PartView::Any(s@),
            SubstringPart::Final(s) => PartView::Final(s@),
        }
    }
}

/// The pieces of a pattern.
pub open spec fn parts_view(parts: Seq<SubstringPart>) -> Seq<PartView> {
    parts.map_values(|p: SubstringPart| p@)
}

/// A filter as it is evaluated; attribute names are in lower case.
#[derive(Debug, PartialEq, Eq)]
#[allow(inconsistent_fields)]
pub enum CompiledLdapFilter {
    And(Vec<CompiledLdapFilter>),
    Or(Vec<CompiledLdapFilter>),
    Not(Box<CompiledLdapFilter>),
    Equality { attribute: String, value: String },
    Substrings { attribute: String, parts: Vec<SubstringPart> },
    GreaterOrEqual { attribute: String, value: String },
    LessOrEqual { attribute: String, value: String },
    Present { attribute: String },
    ApproxMatch { attribute: String, value: String },
    Extensible {
        attribute: Option<String>,
        matching_rule: Option<String>,
        value: String,
        dn_attributes: bool,
    },
}

/// What a [`CompiledLdapFilter`] says.
#[allow(inconsistent_fields)]
pub enum FilterView {
    And(Seq<FilterView>),
    Or(Seq<FilterView>),
    Not(Box<FilterView>),
    Equality { attribute: Seq<char>, value: Seq<char> },
    Substrings { attribute: Seq<char>, parts: Seq<PartView> },
    GreaterOrEqual { attribute: Seq<char>, value: Seq<char> },
    LessOrEqual { attribute: Seq<char>, value: Seq<char> },
    Present { attribute: Seq<char> },
    ApproxMatch { attribute: Seq<char>, value: Seq<char> },
    Extensible {
        attribute: Option<Seq<char>>,
        matching_rule: Option<Seq<char>>,
        value: Seq<char>,
        dn_attributes: bool,
    },
}

/// What a filter says.
pub open spec fn filter_view(f: CompiledLdapFilter) -> FilterView
    decreases f,
{
    match f {
        CompiledLdapFilter::And(fs) => FilterView::And(
            Seq::new(fs@.len(), |i: int| if 0 <= i < fs@.len() {
                filter_view(fs@[i])
            } else {
                arbitrary()
            }),
        ),
        CompiledLdapFilter::Or(fs) => FilterView::Or(
            Seq::new(fs@.len(), |i: int| if 0 <= i < fs@.len() {
                filter_view(fs@[i])
            } else {
                arbitrary()
            }),
        ),
        CompiledLdapFilter::Not(g) => FilterView::Not(Box::new(filter_view(*g))),
        CompiledLdapFilter::Equality { attribute, value } => FilterView::Equality {
            attribute: attribute@,
            value: value@,
        },
        CompiledLdapFilter::Substrings { attribute, parts } => FilterView::Substrings {
            attribute: attribute@,
            parts: parts_view(parts@),
        },
        CompiledLdapFilter::GreaterOrEqual { attribute, value } => FilterView::GreaterOrEqual {
            attribute: attribute@,
            value: value@,
        },
        CompiledLdapFilter::LessOrEqual { attribute, value } => FilterView::LessOrEqual {
            attribute: attribute@,
            value: value@,
        },
        CompiledLdapFilter::Present { attribute } => FilterView::Present { attribute: attribute@ },
        CompiledLdapFilter::ApproxMatch { attribute, value } => FilterView::ApproxMatch {
            attribute: attribute@,
            value: value@,
        },
        CompiledLdapFilter::Extensible { attribute, matching_rule, value, dn_attributes } =>
            FilterView::Extensible {
            attribute: text::option_text(attribute),
            matching_rule: text::option_text(matching_rule),
            value: value@,
            dn_attributes,
        },
    }
}

/// What the filters of a list say.
pub open spec fn filter_views(fs: Seq<CompiledLdapFilter>) -> Seq<FilterView> {
    Seq::new(fs.len(), |i: int| filter_view(fs[i]))
}

proof fn view_of_list(f: CompiledLdapFilter)
    ensures
        f matches CompiledLdapFilter::And(fs) ==> filter_view(f) == FilterView::And(
            filter_views(fs@),
        ),
        f matches CompiledLdapFilter::Or(fs) ==> filter_view(f) == FilterView::Or(
            filter_views(fs@),
        ),
{
    match f {
        CompiledLdapFilter::And(fs) => {
            assert(filter_view(f)->And_0 =~= filter_views(fs@));
        },
        CompiledLdapFilter::Or(fs) => {
            assert(filter_view(f)->Or_0 =~= filter_views(fs@));
        },
        _ => {},
    }
}

// ---------------------------------------------------------------------------
// Errors
// ---------------------------------------------------------------------------

/// Why a filter cannot be evaluated under a schema.
#[derive(Debug, PartialEq, Eq)]
pub enum FilterSchemaError {
    UndefinedAttribute(String),
    InappropriateMatching(String),
    InvalidAttributeSyntax(String),
    InvalidFilter(String),
}

/// What a [`FilterSchemaError`] says.
pub enum FilterErrorView {
    UndefinedAttribute(Seq<char>),
    InappropriateMatching(Seq<char>),
    InvalidAttributeSyntax(Seq<char>),
    InvalidFilter(Seq<char>),
}

impl View for FilterSchemaError {
    type V = FilterErrorView;

    open spec fn view(&self) -> FilterErrorView {
        match self {
            FilterSchemaError::UndefinedAttribute(s) => FilterErrorView::UndefinedAttribute(s@),
            FilterSchemaError::InappropriateMatching(s) => FilterErrorView::InappropriateMatching(
                s@,
            ),
            FilterSchemaError::InvalidAttributeSyntax(s) => FilterErrorView::InvalidAttributeSyntax(
                s@,
            ),
            FilterSchemaError::InvalidFilter(s) => FilterErrorView::InvalidFilter(s@),
        }
    }
}

/// The text of a filter error.
pub open spec fn filter_error_text(e: FilterErrorView) -> Seq<char> {
    match e {
        FilterErrorView::UndefinedAttribute(m) => "undefined attribute type: "@ + m,
        FilterErrorView::InappropriateMatching(m) => "inappropriate matching: "@ + m,
        FilterErrorView::InvalidAttributeSyntax(m) => "invalid attribute syntax: "@ + m,
        FilterErrorView::InvalidFilter(m) => "invalid filter: "@ + m,
    }
}

impl FilterSchemaError {
    /// The text of the error.
    pub fn message(&self) -> (r: String)
        ensures
            r@ == filter_error_text(self@),
    {
        match self {
            FilterSchemaError::UndefinedAttribute(m) => {
                let mut out = "undefined attribute type: ".to_owned();
                out.append(m.as_str());
                out
            },
            FilterSchemaError::InappropriateMatching(m) => {
                let mut out = "inappropriate matching: ".to_owned();
                out.append(m.as_str());
                out
            },
            FilterSchemaError::InvalidAttributeSyntax(m) => {
                let mut out = "invalid attribute syntax: ".to_owned();
                out.append(m.as_str());
                out
            },
            FilterSchemaError::InvalidFilter(m) => {
                let mut out = "invalid filter: ".to_owned();
                out.append(m.as_str());
                out
            },
        }
    }
}

/// The filter error that a rule error is reported as.
pub open spec fn rule_error(e: RuleErrorView) -> FilterErrorView {
    match e {
        RuleErrorView::AttributeNotFound(m) => FilterErrorView::UndefinedAttribute(m),
        RuleErrorView::InvalidSyntax(m) => FilterErrorView::InvalidAttributeSyntax(m),
        RuleErrorView::NoMatchingRule(m) => FilterErrorView::InappropriateMatching(m),
        RuleErrorView::UnsupportedRule(m) => FilterErrorView::InappropriateMatching(m),
        RuleErrorView::MatchingRuleNotFound(m) => FilterErrorView::InappropriateMatching(m),
        RuleErrorView::InapplicableRule(m) => FilterErrorView::InappropriateMatching(m),
        RuleErrorView::MissingDependency(m) => FilterErrorView::InvalidFilter(m),
    }
}

impl vstd::std_specs::convert::FromSpecImpl<MatchingRuleError> for FilterSchemaError {
    open spec fn obeys_from_spec() -> bool {
        true
    }

    open spec fn from_spec(error: MatchingRuleError) -> Self {
        match error {
            MatchingRuleError::AttributeNotFound(m) => FilterSchemaError::UndefinedAttribute(m),
            MatchingRuleError::InvalidSyntax(m) => FilterSchemaError::InvalidAttributeSyntax(m),
            MatchingRuleError::NoMatchingRule(m) => FilterSchemaError::InappropriateMatching(m),
            MatchingRuleError::UnsupportedRule(m) => FilterSchemaError::InappropriateMatching(m),
            MatchingRuleError::MatchingRuleNotFound(m) => FilterSchemaError::InappropriateMatching(
                m,
            ),
            MatchingRuleError::InapplicableRule(m) => FilterSchemaError::InappropriateMatching(m),
            MatchingRuleError::MissingDependency(m) => FilterSchemaError::InvalidFilter(m),
        }
    }
}

impl From<MatchingRuleError> for FilterSchemaError {
    fn from(error: MatchingRuleError) -> (r: Self) {
        match error {
            MatchingRuleError::AttributeNotFound(m) => FilterSchemaError::UndefinedAttribute(m),
            MatchingRuleError::InvalidSyntax(m) => FilterSchemaError::InvalidAttributeSyntax(m),
            MatchingRuleError::NoMatchingRule(m) => FilterSchemaError::InappropriateMatching(m),
            MatchingRuleError::UnsupportedRule(m) => FilterSchemaError::InappropriateMatching(m),
            MatchingRuleError::MatchingRuleNotFound(m) => FilterSchemaError::InappropriateMatching(
                m,
            ),
            MatchingRuleError::InapplicableRule(m) => FilterSchemaError::InappropriateMatching(m),
            MatchingRuleError::MissingDependency(m) => FilterSchemaError::InvalidFilter(m),
        }
    }
}

// ---------------------------------------------------------------------------
// Filters of search requests
// ---------------------------------------------------------------------------

/// A piece of a substring pattern in a search request.
#[derive(Debug)]
pub enum SearchSubstring {
    Initial(Vec<u8>),
    Any(Vec<u8>),
    Final(Vec<u8>),
}

/// The filter of a search request.
#[derive(Debug)]
#[allow(inconsistent_fields)]
pub enum SearchFilter {
    And(Vec<SearchFilter>),
    Or(Vec<SearchFilter>),
    Not(Box<SearchFilter>),
    EqualityMatch { attribute: String, value: Vec<u8> },
    Substrings { attribute: String, substrings: Vec<SearchSubstring> },
    GreaterOrEqual { attribute: String, value: Vec<u8> },
    LessOrEqual { attribute: String, value: Vec<u8> },
    Present { attribute: String },
    ApproxMatch { attribute: String, value: Vec<u8> },
    ExtensibleMatch {
        rule_type: Option<String>,
        matching_rule: Option<String>,
        value: Vec<u8>,
        dn_attributes: Option<bool>,
    },
}

/// The piece of a pattern as it is evaluated.
pub open spec fn compiled_part(p: SearchSubstring) -> PartView {
    match p {
        SearchSubstring::Initial(b) => PartView::Initial(text::utf8_lossy(b@)),
        SearchSubstring::Any(b) => PartView::Any(text::utf8_lossy(b@)),
        SearchSubstring::Final(b) => PartView::Final(text::utf8_lossy(b@)),
    }
}

/// The lower case of an optional string.
pub open spec fn option_lower(s: Option<String>) -> Option<Seq<char>> {
    match s {
        Some(s) => Some(text::lower(s@)),
        None => None,
    }
}

/// The filter of a search request as it is evaluated: names in lower case,
/// values as text.
pub open spec fn compiled(f: SearchFilter) -> FilterView
    decreases f,
{
    match f {
        SearchFilter::And(fs) => FilterView::And(
            Seq::new(fs@.len(), |i: int| if 0 <= i < fs@.len() {
                compiled(fs@[i])
            } else {
                arbitrary()
            }),
        ),
        SearchFilter::Or(fs) => FilterView::Or(
            Seq::new(fs@.len(), |i: int| if 0 <= i < fs@.len() {
                compiled(fs@[i])
            } else {
                arbitrary()
            }),
        ),
        SearchFilter::Not(g) => FilterView::Not(Box::new(compiled(*g))),
        SearchFilter::EqualityMatch { attribute, value } => FilterView::Equality {
            attribute: text::lower(attribute@),
            value: text::utf8_lossy(value@),
        },
        SearchFilter::Substrings { attribute, substrings } => FilterView::Substrings {
            attribute: text::lower(attribute@),
            parts: substrings@.map_values(|p: SearchSubstring| compiled_part(p)),
        },
        SearchFilter::GreaterOrEqual { attribute, value } => FilterView::GreaterOrEqual {
            attribute: text::lower(attribute@),
            value: text::utf8_lossy(value@),
        },
        SearchFilter::LessOrEqual { attribute, value } => FilterView::LessOrEqual {
            attribute: text::lower(attribute@),
            value: text::utf8_lossy(value@),
        },
        SearchFilter::Present { attribute } => FilterView::Present {
            attribute: text::lower(attribute@),
        },
        SearchFilter::ApproxMatch { attribute, value } => FilterView::ApproxMatch {
            attribute: text::lower(attribute@),
            value: text::utf8_lossy(value@),
        },
        SearchFilter::ExtensibleMatch { rule_type, matching_rule, value, dn_attributes } =>
            FilterView::Extensible {
            attribute: option_lower(rule_type),
            matching_rule: option_lower(matching_rule),
            value: text::utf8_lossy(value@),
            dn_attributes: dn_attributes == Some(true),
        },
    }
}

fn lower_option(s: &Option<String>) -> (r: Option<String>)
    ensures
        text::option_text(r) == option_lower(*s),
{
    match s {
        Some(s) => Some(text::lowercase(s.as_str())),
        None => None,
    }
}

fn bytes_to_string(value: &Vec<u8>) -> (r: String)
    ensures
        r@ == text::utf8_lossy(value@),
{
    text::lossy_text(value.as_slice())
}

fn convert_search_substring(part: &SearchSubstring) -> (r: SubstringPart)
    ensures
        r@ == compiled_part(*part),
{
    match part {
        SearchSubstring::Initial(b) => SubstringPart::Initial(bytes_to_string(b)),
        SearchSubstring::Any(b) => SubstringPart::Any(bytes_to_string(b)),
        SearchSubstring::Final(b) => SubstringPart::Final(bytes_to_string(b)),
    }
}

fn convert_search_substrings(parts: &Vec<SearchSubstring>) -> (r: Vec<SubstringPart>)
    ensures
        parts_view(r@) == parts@.map_values(|p: SearchSubstring| compiled_part(p)),
{
    let mut out: Vec<SubstringPart> = Vec::new();
    let mut i: usize = 0;
    while i < parts.len()
        invariant
            i <= parts@.len(),
            out@.len() == i,
            forall|j: int| 0 <= j < i ==> (#[trigger] out@[j])@ == compiled_part(parts@[j]),
        decreases parts@.len() - i,
    {
        out.push(convert_search_substring(&parts[i]));
        i = i + 1;
    }
    proof {
        assert(parts_view(out@) =~= parts@.map_values(|p: SearchSubstring| compiled_part(p)));
    }
    out
}

impl CompiledLdapFilter {
    /// The filter of a search request, as it is evaluated.
    pub fn from_search_filter(filter: &SearchFilter) -> (r: Result<Self, String>)
        ensures
            r matches Ok(f) && filter_view(f) == compiled(*filter),
        decreases filter,
    {
        match filter {
            SearchFilter::And(fs) => {
                let out = Self::from_search_filters(fs)?;
                let r = CompiledLdapFilter::And(out);
                proof {
                    view_of_list(r);
                    assert(filter_view(r)->And_0 =~= compiled(*filter)->And_0);
                }
                Ok(r)
            },
            SearchFilter::Or(fs) => {
                let out = Self::from_search_filters(fs)?;
                let r = CompiledLdapFilter::Or(out);
                proof {
                    view_of_list(r);
                    assert(filter_view(r)->Or_0 =~= compiled(*filter)->Or_0);
                }
                Ok(r)
            },
            SearchFilter::Not(g) => {
                let inner = Self::from_search_filter(g)?;
                Ok(CompiledLdapFilter::Not(Box::new(inner)))
            },
            SearchFilter::EqualityMatch { attribute, value } => Ok(
                CompiledLdapFilter::Equality {
                    attribute: text::lowercase(attribute.as_str()),
                    value: bytes_to_string(value),
                },
            ),
            SearchFilter::Substrings { attribute, substrings } => Ok(
                CompiledLdapFilter::Substrings {
                    attribute: text::lowercase(attribute.as_str()),
                    parts: convert_search_substrings(substrings),
                },
            ),
            SearchFilter::GreaterOrEqual { attribute, value } => Ok(
                CompiledLdapFilter::GreaterOrEqual {
                    attribute: text::lowercase(attribute.as_str()),
                    value: bytes_to_string(value),
                },
            ),
            SearchFilter::LessOrEqual { attribute, value } => Ok(
                CompiledLdapFilter::LessOrEqual {
                    attribute: text::lowercase(attribute.as_str()),
                    value: bytes_to_string(value),
                },
            ),
            SearchFilter::Present { attribute } => Ok(
                CompiledLdapFilter::Present { attribute: text::lowercase(attribute.as_str()) },
            ),
            SearchFilter::ApproxMatch { attribute, value } => Ok(
                CompiledLdapFilter::ApproxMatch {
                    attribute: text::lowercase(attribute.as_str()),
                    value: bytes_to_string(value),
                },
            ),
            SearchFilter::ExtensibleMatch { rule_type, matching_rule, value, dn_attributes } => Ok(
                CompiledLdapFilter::Extensible {
                    attribute: lower_option(rule_type),
                    matching_rule: lower_option(matching_rule),
                    value: bytes_to_string(value),
                    dn_attributes: match dn_attributes {
                        Some(b) => *b,
                        None => false,
                    },
                },
            ),
        }
    }

    fn from_search_filters(filters: &Vec<SearchFilter>) -> (r: Result<
        Vec<CompiledLdapFilter>,
        String,
    >)
        ensures
            r matches Ok(fs) && fs@.len() == filters@.len() && forall|i: int|
                0 <= i < fs@.len() ==> filter_view(#[trigger] fs@[i]) == compiled(filters@[i]),
        decreases filters,
    {
        let mut out: Vec<CompiledLdapFilter> = Vec::new();
        let mut i: usize = 0;
        while i < filters.len()
            invariant
                i <= filters@.len(),
                out@.len() == i,
                forall|j: int|
                    0 <= j < i ==> filter_view(#[trigger] out@[j]) == compiled(filters@[j]),
            decreases filters@.len() - i,
        {
            let f = Self::from_search_filter(&filters[i])?;
            out.push(f);
            i = i + 1;
        }
        Ok(out)
    }
}

// ---------------------------------------------------------------------------
// Filters in their string form
// ---------------------------------------------------------------------------

/// A tagged value as the filter parser gives it: how it prints, and what of
/// it a filter can hold.
#[derive(Debug)]
pub struct FilterTag {
    pub shown: String,
    pub body: TagBody,
}

/// The class, the identifier and the contents of a tagged value.
#[derive(Debug)]
#[allow(inconsistent_fields)]
pub enum TagBody {
    Sequence { class: u8, id: u64, inner: Vec<FilterTag> },
    Explicit { class: u8, id: u64, inner: Box<FilterTag> },
    OctetString { class: u8, id: u64, inner: Vec<u8> },
    Boolean { class: u8, id: u64, inner: bool },
    Other,
}

/// What a [`FilterTag`] says.
pub struct TagView {
    pub shown: Seq<char>,
    pub body: TagBodyView,
}

/// What a [`TagBody`] says.
#[allow(inconsistent_fields)]
pub enum TagBodyView {
    Sequence { class: u8, id: u64, inner: Seq<TagView> },
    Explicit { class: u8, id: u64, inner: Box<TagView> },
    OctetString { class: u8, id: u64, inner: Seq<u8> },
    Boolean { class: u8, id: u64, inner: bool },
    Other,
}

/// What a tagged value says.
pub open spec fn tag_view(t: FilterTag) -> TagView
    decreases t,
{
    TagView {
        shown: t.shown@,
        body: match t.body {
            TagBody::Sequence { class, id, inner } => TagBodyView::Sequence {
                class,
                id,
                inner: Seq::new(inner@.len(), |i: int| if 0 <= i < inner@.len() {
                    tag_view(inner@[i])
                } else {
                    arbitrary()
                }),
            },
            TagBody::Explicit { class, id, inner } => TagBodyView::Explicit {
                class,
                id,
                inner: Box::new(tag_view(*inner)),
            },
            TagBody::OctetString { class, id, inner } => TagBodyView::OctetString {
                class,
                id,
                inner: inner@,
            },
            TagBody::Boolean { class, id, inner } => TagBodyView::Boolean { class, id, inner },
            TagBody::Other => TagBodyView::Other,
        },
    }
}

/// What the tagged values of a list say.
pub open spec fn tag_views(ts: Seq<FilterTag>) -> Seq<TagView> {
    Seq::new(ts.len(), |i: int| tag_view(ts[i]))
}

proof fn view_of_sequence(t: FilterTag)
    ensures
        t.body matches TagBody::Sequence { class, id, inner } ==> tag_view(t).body
            == (TagBodyView::Sequence { class, id, inner: tag_views(inner@) }),
{
    if let TagBody::Sequence { class, id, inner } = t.body {
        assert(tag_view(t).body->Sequence_inner =~= tag_views(inner@));
    }
}

/// The octets of a value that must be an octet string.
pub open spec fn octet_text(t: TagView, label: Seq<char>) -> Result<Seq<char>, Seq<char>> {
    match t.body {
        TagBodyView::OctetString { inner, .. } => Ok(text::utf8_lossy(inner)),
        _ => Err(label + " must be encoded as an octet string"@),
    }
}

/// The attribute and the value of a comparison.
pub open spec fn octet_pair(ts: Seq<TagView>, label: Seq<char>) -> Result<
    (Seq<char>, Seq<char>),
    Seq<char>,
> {
    if ts.len() != 2 {
        Err(label + " filter must contain exactly two octet strings"@)
    } else {
        match octet_text(ts[0], label) {
            Err(e) => Err(e),
            Ok(a) => match octet_text(ts[1], label) {
                Err(e) => Err(e),
                Ok(v) => Ok((text::lower(a), v)),
            },
        }
    }
}

/// The piece of a pattern that a tagged value holds.
pub open spec fn tag_part(t: TagView) -> Result<PartView, Seq<char>> {
    match t.body {
        TagBodyView::OctetString { class, id, inner } => {
            let v = text::utf8_lossy(inner);
            if class == 2 && id == 0 {
                Ok(PartView::Initial(v))
            } else if class == 2 && id == 1 {
                Ok(PartView::Any(v))
            } else if class == 2 && id == 2 {
                Ok(PartView::Final(v))
            } else {
                Err("unsupported substring part"@)
            }
        },
        _ => Err("substring part must be encoded as an octet string"@),
    }
}

/// The pieces that the tagged values hold, or the first error.
pub open spec fn tag_parts(ts: Seq<TagView>) -> Result<Seq<PartView>, Seq<char>>
    decreases ts.len(),
{
    if ts.len() == 0 {
        Ok(Seq::empty())
    } else {
        match tag_part(ts[0]) {
            Err(e) => Err(e),
            Ok(p) => match tag_parts(ts.drop_first()) {
                Err(e) => Err(e),
                Ok(rest) => Ok(seq![p] + rest),
            },
        }
    }
}

/// The components of an extensible match that have been read.
pub struct ExtensibleView {
    pub attribute: Option<Seq<char>>,
    pub matching_rule: Option<Seq<char>>,
    pub value: Option<Seq<char>>,
    pub dn_attributes: bool,
}

/// The components with one more read.
pub open spec fn extensible_step(c: ExtensibleView, t: TagView) -> Result<
    ExtensibleView,
    Seq<char>,
> {
    match t.body {
        TagBodyView::OctetString { class, id, inner } => {
            let v = text::utf8_lossy(inner);
            if class == 2 && id == 1 {
                Ok(ExtensibleView { matching_rule: Some(text::lower(v)), ..c })
            } else if class == 2 && id == 2 {
                Ok(ExtensibleView { attribute: Some(text::lower(v)), ..c })
            } else if class == 2 && id == 3 {
                Ok(ExtensibleView { value: Some(v), ..c })
            } else {
                Err("unsupported extensibleMatch assertion component"@)
            }
        },
        TagBodyView::Boolean { class, id, inner } => if class == 2 && id == 4 {
            Ok(ExtensibleView { dn_attributes: inner, ..c })
        } else {
            Err("unsupported extensibleMatch assertion component"@)
        },
        _ => Err("unsupported extensibleMatch assertion component"@),
    }
}

/// The components that the tagged values hold, or the first error.
pub open spec fn extensible_components(c: ExtensibleView, ts: Seq<TagView>) -> Result<
    ExtensibleView,
    Seq<char>,
>
    decreases ts.len(),
{
    if ts.len() == 0 {
        Ok(c)
    } else {
        match extensible_step(c, ts[0]) {
            Err(e) => Err(e),
            Ok(d) => extensible_components(d, ts.drop_first()),
        }
    }
}

/// No component.
pub open spec fn no_components() -> ExtensibleView {
    ExtensibleView { attribute: None, matching_rule: None, value: None, dn_attributes: false }
}

/// The extensible match that the tagged values hold.
pub open spec fn extensible_of(ts: Seq<TagView>) -> Result<FilterView, Seq<char>> {
    match extensible_components(no_components(), ts) {
        Err(e) => Err(e),
        Ok(c) => if c.attribute is None && c.matching_rule is None {
            Err("extensibleMatch requires an attribute or matching rule"@)
        } else {
            match c.value {
                None => Err("extensibleMatch requires an assertion value"@),
                Some(value) => Ok(
                    FilterView::Extensible {
                        attribute: c.attribute,
                        matching_rule: c.matching_rule,
                        value,
                        dn_attributes: c.dn_attributes,
                    },
                ),
            }
        },
    }
}

/// The substring filter that the tagged values hold.
pub open spec fn substrings_of(ts: Seq<TagView>) -> Result<FilterView, Seq<char>> {
    if ts.len() != 2 {
        Err("substring filter must contain attribute and substrings"@)
    } else {
        match octet_text(ts[0], "substring attribute"@) {
            Err(e) => Err(e),
            Ok(a) => match ts[1].body {
                TagBodyView::Sequence { inner, .. } => match tag_parts(inner) {
                    Err(e) => Err(e),
                    Ok(parts) => Ok(FilterView::Substrings { attribute: text::lower(a), parts }),
                },
                _ => Err("substring filter must encode substring parts as a sequence"@),
            },
        }
    }
}

/// The filter that a tagged value holds, or why it holds none.
pub open spec fn tag_filter(t: TagView) -> Result<FilterView, Seq<char>>
    decreases t, 0nat,
{
    let unsupported: Result<FilterView, Seq<char>> = Err(
        "unsupported LDAP filter tag: "@ + t.shown,
    );
    match t.body {
        TagBodyView::Sequence { class, id, inner } => if class != 2 {
            unsupported
        } else if id == 0 {
            match tag_filters(inner) {
                Ok(fs) => Ok(FilterView::And(fs)),
                Err(e) => Err(e),
            }
        } else if id == 1 {
            match tag_filters(inner) {
                Ok(fs) => Ok(FilterView::Or(fs)),
                Err(e) => Err(e),
            }
        } else if id == 3 {
            match octet_pair(inner, "equalityMatch"@) {
                Ok(p) => Ok(FilterView::Equality { attribute: p.0, value: p.1 }),
                Err(e) => Err(e),
            }
        } else if id == 4 {
            substrings_of(inner)
        } else if id == 5 {
            match octet_pair(inner, "greaterOrEqual"@) {
                Ok(p) => Ok(FilterView::GreaterOrEqual { attribute: p.0, value: p.1 }),
                Err(e) => Err(e),
            }
        } else if id == 6 {
            match octet_pair(inner, "lessOrEqual"@) {
                Ok(p) => Ok(FilterView::LessOrEqual { attribute: p.0, value: p.1 }),
                Err(e) => Err(e),
            }
        } else if id == 8 {
            match octet_pair(inner, "approxMatch"@) {
                Ok(p) => Ok(FilterView::ApproxMatch { attribute: p.0, value: p.1 }),
                Err(e) => Err(e),
            }
        } else if id == 9 {
            extensible_of(inner)
        } else {
            unsupported
        },
        TagBodyView::Explicit { class, id, inner } => if class == 2 && id == 2 {
            match tag_filter(*inner) {
                Ok(f) => Ok(FilterView::Not(Box::new(f))),
                Err(e) => Err(e),
            }
        } else {
            unsupported
        },
        TagBodyView::OctetString { class, id, inner } => if class == 2 && id == 7 {
            Ok(FilterView::Present { attribute: text::lower(text::utf8_lossy(inner)) })
        } else {
            unsupported
        },
        _ => unsupported,
    }
}

/// The filters that the tagged values hold, or the first error.
pub open spec fn tag_filters(ts: Seq<TagView>) -> Result<Seq<FilterView>, Seq<char>>
    decreases ts, 1nat,
{
    if ts.len() == 0 {
        Ok(Seq::empty())
    } else {
        match tag_filter(ts[0]) {
            Err(e) => Err(e),
            Ok(f) => match tag_filters(ts.drop_first()) {
                Err(e) => Err(e),
                Ok(rest) => Ok(seq![f] + rest),
            },
        }
    }
}

/// What a result with a filter says.
pub open spec fn compile_result(r: Result<CompiledLdapFilter, String>) -> Result<
    FilterView,
    Seq<char>,
> {
    match r {
        Ok(f) => Ok(filter_view(f)),
        Err(e) => Err(e@),
    }
}

fn expect_octet_string(tag: &FilterTag, label: &str) -> (r: Result<String, String>)
    ensures
        match r {
            Ok(s) => octet_text(tag_view(*tag), label@) == Ok::<Seq<char>, Seq<char>>(s@),
            Err(e) => octet_text(tag_view(*tag), label@) == Err::<Seq<char>, Seq<char>>(e@),
        },
{
    match &tag.body {
        TagBody::OctetString { class: _, id: _, inner } => Ok(bytes_to_string(inner)),
        _ => {
            let mut message = label.to_owned();
            message.append(" must be encoded as an octet string");
            Err(message)
        },
    }
}

fn expect_octet_pair(tags: &Vec<FilterTag>, label: &str) -> (r: Result<(String, String), String>)
    ensures
        match r {
            Ok(p) => octet_pair(tag_views(tags@), label@) == Ok::<
                (Seq<char>, Seq<char>),
                Seq<char>,
            >((p.0@, p.1@)),
            Err(e) => octet_pair(tag_views(tags@), label@) == Err::<
                (Seq<char>, Seq<char>),
                Seq<char>,
            >(e@),
        },
{
    if tags.len() != 2 {
        let mut message = label.to_owned();
        message.append(" filter must contain exactly two octet strings");
        return Err(message);
    }
    let attribute = match expect_octet_string(&tags[0], label) {
        Ok(a) => a,
        Err(e) => return Err(e),
    };
    let value = match expect_octet_string(&tags[1], label) {
        Ok(v) => v,
        Err(e) => return Err(e),
    };
    Ok((text::lowercase(attribute.as_str()), value))
}

fn parse_substring_part(tag: &FilterTag) -> (r: Result<SubstringPart, String>)
    ensures
        match r {
            Ok(p) => tag_part(tag_view(*tag)) == Ok::<PartView, Seq<char>>(p@),
            Err(e) => tag_part(tag_view(*tag)) == Err::<PartView, Seq<char>>(e@),
        },
{
    match &tag.body {
        TagBody::OctetString { class, id, inner } => {
            let value = bytes_to_string(inner);
            if *class == CONTEXT_CLASS && *id == SUBSTRING_INITIAL {
                Ok(SubstringPart::Initial(value))
            } else if *class == CONTEXT_CLASS && *id == SUBSTRING_ANY {
                Ok(SubstringPart::Any(value))
            } else if *class == CONTEXT_CLASS && *id == SUBSTRING_FINAL {
                Ok(SubstringPart::Final(value))
            } else {
                Err("unsupported substring part".to_owned())
            }
        },
        _ => Err("substring part must be encoded as an octet string".to_owned()),
    }
}

fn parse_substring_parts(tags: &Vec<FilterTag>) -> (r: Result<Vec<SubstringPart>, String>)
    ensures
        match r {
            Ok(ps) => tag_parts(tag_views(tags@)) == Ok::<Seq<PartView>, Seq<char>>(
                parts_view(ps@),
            ),
            Err(e) => tag_parts(tag_views(tags@)) == Err::<Seq<PartView>, Seq<char>>(e@),
        },
{
    let mut out: Vec<SubstringPart> = Vec::new();
    let mut i: usize = 0;
    let ghost ts = tag_views(tags@);
    proof {
        assert(ts.skip(0) =~= ts);
        if let Ok(rest) = tag_parts(ts) {
            assert(parts_view(out@) + rest =~= rest);
        }
    }
    while i < tags.len()
        invariant
            i <= tags@.len(),
            ts == tag_views(tags@),
            tag_parts(ts) == (match tag_parts(ts.skip(i as int)) {
                Ok(rest) => Ok::<Seq<PartView>, Seq<char>>(parts_view(out@) + rest),
                Err(e) => Err(e),
            }),
        decreases tags@.len() - i,
    {
        proof {
            assert(ts.skip(i as int).drop_first() =~= ts.skip(i as int + 1));
            assert(ts.skip(i as int)[0] == tag_view(tags@[i as int]));
        }
        let part = match parse_substring_part(&tags[i]) {
            Ok(p) => p,
            Err(e) => return Err(e),
        };
        proof {
            if let Ok(rest) = tag_parts(ts.skip(i as int + 1)) {
                assert(parts_view(out@) + (seq![part@] + rest) =~= parts_view(out@.push(part))
                    + rest);
            }
        }
        out.push(part);
        i = i + 1;
    }
    proof {
        assert(parts_view(out@) + Seq::<PartView>::empty() =~= parts_view(out@));
    }
    Ok(out)
}

fn parse_substrings_sequence(tags: &Vec<FilterTag>) -> (r: Result<CompiledLdapFilter, String>)
    ensures
        compile_result(r) == substrings_of(tag_views(tags@)),
{
    if tags.len() != 2 {
        return Err("substring filter must contain attribute and substrings".to_owned());
    }
    let attribute = match expect_octet_string(&tags[0], "substring attribute") {
        Ok(a) => text::lowercase(a.as_str()),
        Err(e) => return Err(e),
    };
    proof {
        view_of_sequence(tags@[1]);
    }
    match &tags[1].body {
        TagBody::Sequence { class: _, id: _, inner } => {
            let parts = match parse_substring_parts(inner) {
                Ok(p) => p,
                Err(e) => return Err(e),
            };
            Ok(CompiledLdapFilter::Substrings { attribute, parts })
        },
        _ => Err("substring filter must encode substring parts as a sequence".to_owned()),
    }
}

fn parse_extensible_match_sequence(tags: &Vec<FilterTag>) -> (r: Result<CompiledLdapFilter, String>)
    ensures
        compile_result(r) == extensible_of(tag_views(tags@)),
{
    let mut matching_rule: Option<String> = None;
    let mut attribute: Option<String> = None;
    let mut value: Option<String> = None;
    let mut dn_attributes = false;
    let mut i: usize = 0;
    let ghost ts = tag_views(tags@);
    proof {
        assert(ts.skip(0) =~= ts);
    }
    while i < tags.len()
        invariant
            i <= tags@.len(),
            ts == tag_views(tags@),
            extensible_components(no_components(), ts) == extensible_components(
                (ExtensibleView {
                    attribute: text::option_text(attribute),
                    matching_rule: text::option_text(matching_rule),
                    value: text::option_text(value),
                    dn_attributes,
                }),
                ts.skip(i as int),
            ),
        decreases tags@.len() - i,
    {
        proof {
            assert(ts.skip(i as int).drop_first() =~= ts.skip(i as int + 1));
            assert(ts.skip(i as int)[0] == tag_view(tags@[i as int]));
        }
        match &tags[i].body {
            TagBody::OctetString { class, id, inner } => {
                let read = bytes_to_string(inner);
                if *class == CONTEXT_CLASS && *id == 1 {
                    matching_rule = Some(text::lowercase(read.as_str()));
                } else if *class == CONTEXT_CLASS && *id == 2 {
                    attribute = Some(text::lowercase(read.as_str()));
                } else if *class == CONTEXT_CLASS && *id == 3 {
                    value = Some(read);
                } else {
                    return Err("unsupported extensibleMatch assertion component".to_owned());
                }
            },
            TagBody::Boolean { class, id, inner } => {
                if *class == CONTEXT_CLASS && *id == 4 {
                    dn_attributes = *inner;
                } else {
                    return Err("unsupported extensibleMatch assertion component".to_owned());
                }
            },
            _ => return Err("unsupported extensibleMatch assertion component".to_owned()),
        }
        i = i + 1;
    }
    if attribute.is_none() && matching_rule.is_none() {
        return Err("extensibleMatch requires an attribute or matching rule".to_owned());
    }
    match value {
        None => Err("extensibleMatch requires an assertion value".to_owned()),
        Some(value) => Ok(
            CompiledLdapFilter::Extensible { attribute, matching_rule, value, dn_attributes },
        ),
    }
}

impl CompiledLdapFilter {
    /// The filter that a tagged value holds.
    pub fn from_tag(tag: &FilterTag) -> (r: Result<Self, String>)
        ensures
            compile_result(r) == tag_filter(tag_view(*tag)),
        decreases tag, 0nat,
    {
        proof {
            view_of_sequence(*tag);
        }
        match &tag.body {
            TagBody::Sequence { class, id, inner } if *class == CONTEXT_CLASS => {
                if *id == AND_FILTER {
                    match Self::from_tags(inner) {
                        Ok(fs) => {
                            let r = CompiledLdapFilter::And(fs);
                            proof {
                                view_of_list(r);
                            }
                            Ok(r)
                        },
                        Err(e) => Err(e),
                    }
                } else if *id == OR_FILTER {
                    match Self::from_tags(inner) {
                        Ok(fs) => {
                            let r = CompiledLdapFilter::Or(fs);
                            proof {
                                view_of_list(r);
                            }
                            Ok(r)
                        },
                        Err(e) => Err(e),
                    }
                } else if *id == EQUALITY_MATCH {
                    match expect_octet_pair(inner, "equalityMatch") {
                        Ok(p) => Ok(CompiledLdapFilter::Equality { attribute: p.0, value: p.1 }),
                        Err(e) => Err(e),
                    }
                } else if *id == SUBSTRINGS_MATCH {
                    parse_substrings_sequence(inner)
                } else if *id == GREATER_OR_EQUAL {
                    match expect_octet_pair(inner, "greaterOrEqual") {
                        Ok(p) => Ok(
                            CompiledLdapFilter::GreaterOrEqual { attribute: p.0, value: p.1 },
                        ),
                        Err(e) => Err(e),
                    }
                } else if *id == LESS_OR_EQUAL {
                    match expect_octet_pair(inner, "lessOrEqual") {
                        Ok(p) => Ok(CompiledLdapFilter::LessOrEqual { attribute: p.0, value: p.1 }),
                        Err(e) => Err(e),
                    }
                } else if *id == APPROX_MATCH {
                    match expect_octet_pair(inner, "approxMatch") {
                        Ok(p) => Ok(CompiledLdapFilter::ApproxMatch { attribute: p.0, value: p.1 }),
                        Err(e) => Err(e),
                    }
                } else if *id == EXTENSIBLE_MATCH {
                    parse_extensible_match_sequence(inner)
                } else {
                    Err(unsupported_tag(tag))
                }
            },
            TagBody::Explicit { class, id, inner } if *class == CONTEXT_CLASS && *id
                == NOT_FILTER => {
                match Self::from_tag(inner) {
                    Ok(f) => Ok(CompiledLdapFilter::Not(Box::new(f))),
                    Err(e) => Err(e),
                }
            },
            TagBody::OctetString { class, id, inner } if *class == CONTEXT_CLASS && *id
                == PRESENT_MATCH => {
                Ok(
                    CompiledLdapFilter::Present {
                        attribute: text::lowercase(bytes_to_string(inner).as_str()),
                    },
                )
            },
            _ => Err(unsupported_tag(tag)),
        }
    }

    fn from_tags(tags: &Vec<FilterTag>) -> (r: Result<Vec<CompiledLdapFilter>, String>)
        ensures
            match r {
                Ok(fs) => tag_filters(tag_views(tags@)) == Ok::<Seq<FilterView>, Seq<char>>(
                    filter_views(fs@),
                ),
                Err(e) => tag_filters(tag_views(tags@)) == Err::<Seq<FilterView>, Seq<char>>(e@),
            },
        decreases tags, 1nat,
    {
        let mut out: Vec<CompiledLdapFilter> = Vec::new();
        let mut i: usize = 0;
        let ghost ts = tag_views(tags@);
        proof {
            assert(ts.skip(0) =~= ts);
            if let Ok(rest) = tag_filters(ts) {
                assert(filter_views(out@) + rest =~= rest);
            }
        }
        while i < tags.len()
            invariant
                i <= tags@.len(),
                ts == tag_views(tags@),
                tag_filters(ts) == (match tag_filters(ts.skip(i as int)) {
                    Ok(rest) => Ok::<Seq<FilterView>, Seq<char>>(filter_views(out@) + rest),
                    Err(e) => Err(e),
                }),
            decreases tags@.len() - i,
        {
            proof {
                assert(ts.skip(i as int).drop_first() =~= ts.skip(i as int + 1));
                assert(ts.skip(i as int)[0] == tag_view(tags@[i as int]));
            }
            let f = match Self::from_tag(&tags[i]) {
                Ok(f) => f,
                Err(e) => return Err(e),
            };
            proof {
                if let Ok(rest) = tag_filters(ts.skip(i as int + 1)) {
                    assert(filter_views(out@) + (seq![filter_view(f)] + rest) =~= filter_views(
                        out@.push(f),
                    ) + rest);
                }
            }
            out.push(f);
            i = i + 1;
        }
        proof {
            assert(filter_views(out@) + Seq::<FilterView>::empty() =~= filter_views(out@));
        }
        Ok(out)
    }
}

fn unsupported_tag(tag: &FilterTag) -> (r: String)
    ensures
        r@ == "unsupported LDAP filter tag: "@ + tag.shown@,
{
    let mut message = "unsupported LDAP filter tag: ".to_owned();
    message.append(tag.shown.as_str());
    message
}

#[verifier::external_type_specification]
#[verifier::external_body]
pub struct ExTag(Tag);

/// Copies a tagged value of `lber` field by field: how it prints, its class as
/// a number, its identifier and its contents. Kinds of values that no filter
/// holds keep only how they print.
#[verifier::external_body]
fn plain_tag(tag: &Tag) -> (r: FilterTag) {
    let shown = format!("{:?}", tag);
    let body = match tag {
        Tag::Sequence(t) => {
            let inner = t.inner.iter().map(plain_tag).collect();
            TagBody::Sequence { class: t.class as u8, id: t.id, inner }
        },
        Tag::ExplicitTag(t) => TagBody::Explicit { class: t.class as u8, id: t.id, inner: Box::new(plain_tag(&t.inner)) },
        Tag::OctetString(t) => TagBody::OctetString { class: t.class as u8, id: t.id, inner: t.inner.clone() },
        Tag::Boolean(t) => TagBody::Boolean { class: t.class as u8, id: t.id, inner: t.inner },
        _ => TagBody::Other,
    };
    FilterTag { shown, body }
}

/// The tagged value that `ldap3::parse_filter` reads from a text, if the text
/// is a filter.
pub uninterp spec fn parsed_filter(filter: Seq<char>) -> Option<TagView>;

/// Calls `ldap3::parse_filter` and copies the value that it returns. The
/// result is a function of the text; the error of the call holds nothing.
#[verifier::external_body]
fn parse_filter(filter: &str) -> (r: Option<FilterTag>)
    ensures
        match r {
            Some(tag) => parsed_filter(filter@) == Some(tag_view(tag)),
            None => parsed_filter(filter@) is None,
        },
{
    match ldap3::parse_filter(filter) {
        Ok(tag) => Some(plain_tag(&tag)),
        Err(_) => None,
    }
}

/// The filter that a text stands for, or why it stands for none.
pub open spec fn filter_of(filter: Seq<char>) -> Result<FilterView, Seq<char>> {
    match parsed_filter(filter) {
        None => Err("invalid LDAP filter syntax: "@ + filter),
        Some(tag) => tag_filter(tag),
    }
}

/// The filter that a text stands for.
pub fn compile_filter(filter: &str) -> (r: Result<CompiledLdapFilter, String>)
    ensures
        compile_result(r) == filter_of(filter@),
{
    match parse_filter(filter) {
        Some(tag) => CompiledLdapFilter::from_tag(&tag),
        None => {
            let mut message = "invalid LDAP filter syntax: ".to_owned();
            message.append(filter);
            Err(message)
        },
    }
}

// ---------------------------------------------------------------------------
// Hints for an index
// ---------------------------------------------------------------------------

/// The text of a piece of a pattern.
pub open spec fn part_text(p: PartView) -> Seq<char> {
    match p {
        PartView::Initial(s) => s,
        PartView::Any(s) => s,
        PartView::Final(s) => s,
    }
}

/// A piece of the pattern is long enough for a substring index.
pub open spec fn indexable(parts: Seq<PartView>) -> bool {
    exists|i: int| 0 <= i < parts.len() && part_text(#[trigger] parts[i]).len() >= 3
}

/// The hint that a filter gives; a conjunction gives that of its first member
/// that has one.
pub open spec fn filter_hint(f: FilterView) -> Option<HintView>
    decreases f, 0nat,
{
    match f {
        FilterView::And(fs) => first_hint(fs),
        FilterView::Equality { attribute, value } => Some(HintView::Equality { attribute, value }),
        FilterView::Present { attribute } => Some(HintView::Present { attribute }),
        FilterView::Substrings { attribute, parts } => if indexable(parts) {
            Some(HintView::Substring { attribute, parts })
        } else {
            None
        },
        FilterView::GreaterOrEqual { attribute, value } => Some(
            HintView::GreaterOrEqual { attribute, value },
        ),
        FilterView::LessOrEqual { attribute, value } => Some(
            HintView::LessOrEqual { attribute, value },
        ),
        FilterView::ApproxMatch { attribute, value } => Some(
            HintView::Equality { attribute, value },
        ),
        _ => None,
    }
}

/// The first hint that the filters give.
pub open spec fn first_hint(fs: Seq<FilterView>) -> Option<HintView>
    decreases fs, 1nat,
{
    if fs.len() == 0 {
        None
    } else {
        match filter_hint(fs[0]) {
            Some(h) => Some(h),
            None => first_hint(fs.drop_first()),
        }
    }
}

fn substring_part_value(part: &SubstringPart) -> (r: &String)
    ensures
        r@ == part_text(part@),
{
    match part {
        SubstringPart::Initial(s) => s,
        SubstringPart::Any(s) => s,
        SubstringPart::Final(s) => s,
    }
}

fn is_indexable(parts: &Vec<SubstringPart>) -> (r: bool)
    ensures
        r == indexable(parts_view(parts@)),
{
    let mut i: usize = 0;
    while i < parts.len()
        invariant
            i <= parts@.len(),
            forall|j: int| 0 <= j < i ==> part_text(#[trigger] parts_view(parts@)[j]).len() < 3,
        decreases parts@.len() - i,
    {
        if substring_part_value(&parts[i]).as_str().unicode_len() >= SUBSTRING_INDEX_MIN_CHARS {
            proof {
                assert(part_text(parts_view(parts@)[i as int]).len() >= 3);
            }
            return true;
        }
        i = i + 1;
    }
    false
}

impl SearchSubstringPart {
    /// The piece of a pattern, as an index takes it.
    pub fn from_part(part: &SubstringPart) -> (r: Self)
        ensures
            r@ == part@,
    {
        match part {
            SubstringPart::Initial(s) => SearchSubstringPart::Initial(s.clone()),
            SubstringPart::Any(s) => SearchSubstringPart::Any(s.clone()),
            SubstringPart::Final(s) => SearchSubstringPart::Final(s.clone()),
        }
    }
}

fn hint_parts(parts: &Vec<SubstringPart>) -> (r: Vec<SearchSubstringPart>)
    ensures
        r@.map_values(|p: SearchSubstringPart| p@) == parts_view(parts@),
{
    let mut out: Vec<SearchSubstringPart> = Vec::new();
    let mut i: usize = 0;
    while i < parts.len()
        invariant
            i <= parts@.len(),
            out@.len() == i,
            forall|j: int| 0 <= j < i ==> (#[trigger] out@[j])@ == parts@[j]@,
        decreases parts@.len() - i,
    {
        out.push(SearchSubstringPart::from_part(&parts[i]));
        i = i + 1;
    }
    proof {
        assert(out@.map_values(|p: SearchSubstringPart| p@) =~= parts_view(parts@));
    }
    out
}

impl CompiledLdapFilter {
    /// What an index can be asked for before the filter is evaluated.
    pub fn search_candidate_hint(&self) -> (r: Option<SearchCandidateHint>)
        ensures
            directory::hint_view(r) == filter_hint(filter_view(*self)),
        decreases self, 0nat,
    {
        proof {
            view_of_list(*self);
        }
        match self {
            CompiledLdapFilter::And(fs) => Self::first_candidate_hint(fs),
            CompiledLdapFilter::Equality { attribute, value } => Some(
                SearchCandidateHint::Equality { attribute: attribute.clone(), value: value.clone() },
            ),
            CompiledLdapFilter::Present { attribute } => Some(
                SearchCandidateHint::Present { attribute: attribute.clone() },
            ),
            CompiledLdapFilter::Substrings { attribute, parts } => if is_indexable(parts) {
                Some(
                    SearchCandidateHint::Substring {
                        attribute: attribute.clone(),
                        parts: hint_parts(parts),
                    },
                )
            } else {
                None
            },
            CompiledLdapFilter::GreaterOrEqual { attribute, value } => Some(
                SearchCandidateHint::GreaterOrEqual {
                    attribute: attribute.clone(),
                    value: value.clone(),
                },
            ),
            CompiledLdapFilter::LessOrEqual { attribute, value } => Some(
                SearchCandidateHint::LessOrEqual {
                    attribute: attribute.clone(),
                    value: value.clone(),
                },
            ),
            CompiledLdapFilter::ApproxMatch { attribute, value } => Some(
                SearchCandidateHint::Equality { attribute: attribute.clone(), value: value.clone() },
            ),
            _ => None,
        }
    }

    fn first_candidate_hint(filters: &Vec<CompiledLdapFilter>) -> (r: Option<SearchCandidateHint>)
        ensures
            directory::hint_view(r) == first_hint(filter_views(filters@)),
        decreases filters, 1nat,
    {
        let mut i: usize = 0;
        let ghost fs = filter_views(filters@);
        proof {
            assert(fs.skip(0) =~= fs);
        }
        while i < filters.len()
            invariant
                i <= filters@.len(),
                fs == filter_views(filters@),
                first_hint(fs) == first_hint(fs.skip(i as int)),
            decreases filters@.len() - i,
        {
            proof {
                assert(fs.skip(i as int).drop_first() =~= fs.skip(i as int + 1));
                assert(fs.skip(i as int)[0] == filter_view(filters@[i as int]));
            }
            if let Some(h) = filters[i].search_candidate_hint() {
                return Some(h);
            }
            i = i + 1;
        }
        None
    }
}

/// The hint that a filter in its string form gives; a text that is no filter
/// gives none.
pub fn extract_search_candidate_hint_from_str(filter: &str) -> (r: Option<SearchCandidateHint>)
    ensures
        directory::hint_view(r) == (match filter_of(filter@) {
            Ok(f) => filter_hint(f),
            Err(_) => None,
        }),
{
    match compile_filter(filter) {
        Ok(f) => f.search_candidate_hint(),
        Err(_) => None,
    }
}

/// The hint that the filter of a search request gives.
pub fn extract_search_candidate_hint(filter: &SearchFilter) -> (r: Option<SearchCandidateHint>)
    ensures
        directory::hint_view(r) == filter_hint(compiled(*filter)),
{
    match CompiledLdapFilter::from_search_filter(filter) {
        Ok(f) => f.search_candidate_hint(),
        Err(_) => None,
    }
}

// ---------------------------------------------------------------------------
// Matching without a schema
// ---------------------------------------------------------------------------

/// A value fits a pattern: the pieces occur in it one after the other, each
/// at the first place that is left; a final piece ends the value and the
/// pattern, and an empty middle piece asks nothing.
pub open spec fn pattern_fits(value: Seq<char>, parts: Seq<PartView>) -> bool
    decreases parts.len(),
{
    if parts.len() == 0 {
        true
    } else {
        match parts[0] {
            PartView::Initial(s) => text::starts_with(value, s) && pattern_fits(
                value.skip(s.len() as int),
                parts.drop_first(),
            ),
            PartView::Any(s) => if s.len() == 0 {
                pattern_fits(value, parts.drop_first())
            } else {
                match text::find(value, s) {
                    Some(i) => pattern_fits(value.skip(i + s.len()), parts.drop_first()),
                    None => false,
                }
            },
            PartView::Final(s) => text::ends_with(value, s),
        }
    }
}

/// A value of the list fits the pattern; only an empty value fits a pattern
/// without pieces.
pub open spec fn pattern_found(values: Seq<Seq<char>>, parts: Seq<PartView>) -> bool {
    if parts.len() == 0 {
        exists|i: int| 0 <= i < values.len() && (#[trigger] values[i]).len() == 0
    } else {
        exists|i: int| 0 <= i < values.len() && pattern_fits(#[trigger] values[i], parts)
    }
}

fn substring_matches(value: &str, parts: &Vec<SubstringPart>) -> (r: bool)
    ensures
        r == pattern_fits(value@, parts_view(parts@)),
{
    let chars = text::chars_of(value);
    let mut at: usize = 0;
    let mut k: usize = 0;
    let ghost ps = parts_view(parts@);
    proof {
        assert(value@.skip(0) =~= value@);
        assert(ps.skip(0) =~= ps);
    }
    while k < parts.len()
        invariant
            chars@ == value@,
            at <= chars@.len(),
            k <= parts@.len(),
            ps == parts_view(parts@),
            pattern_fits(value@, ps) == pattern_fits(value@.skip(at as int), ps.skip(k as int)),
        decreases parts@.len() - k,
    {
        let ghost rest = value@.skip(at as int);
        proof {
            assert(ps.skip(k as int).drop_first() =~= ps.skip(k as int + 1));
            assert(ps.skip(k as int)[0] == parts@[k as int]@);
        }
        match &parts[k] {
            SubstringPart::Initial(segment) => {
                let s = text::chars_of(segment.as_str());
                if !text::matches_at(&chars, at, &s) {
                    return false;
                }
                proof {
                    assert(rest.skip(s@.len() as int) =~= value@.skip(at + s@.len()));
                    assert(at + s@.len() <= chars.len());
                }
                at = at + s.len();
            },
            SubstringPart::Any(segment) => {
                let s = text::chars_of(segment.as_str());
                if s.len() > 0 {
                    match text::find_from(&chars, at, &s) {
                        Some(i) => {
                            proof {
                                text::find_bounds(rest, s@);
                                assert(rest.skip(i - at + s@.len()) =~= value@.skip(i + s@.len()));
                                assert(i + s@.len() <= chars.len());
                            }
                            at = i + s.len();
                        },
                        None => return false,
                    }
                }
            },
            SubstringPart::Final(segment) => {
                let s = text::chars_of(segment.as_str());
                if s.len() > chars.len() - at {
                    return false;
                }
                let end: usize = chars.len() - s.len();
                proof {
                    assert(rest.skip(rest.len() - s@.len()) =~= value@.skip(end as int));
                    assert(value@.skip(end as int).take(s@.len() as int) =~= value@.skip(
                        end as int,
                    ));
                }
                return text::matches_at(&chars, end, &s);
            },
        }
        k = k + 1;
    }
    true
}

fn matches_substrings(values: &Vec<String>, parts: &Vec<SubstringPart>) -> (r: bool)
    ensures
        r == pattern_found(text::texts(values@), parts_view(parts@)),
{
    let ghost vs = text::texts(values@);
    let ghost ps = parts_view(parts@);
    let empty = parts.len() == 0;
    let mut i: usize = 0;
    while i < values.len()
        invariant
            i <= values@.len(),
            vs == text::texts(values@),
            ps == parts_view(parts@),
            empty == (ps.len() == 0),
            empty ==> forall|j: int| 0 <= j < i ==> (#[trigger] vs[j]).len() > 0,
            !empty ==> forall|j: int| 0 <= j < i ==> !pattern_fits(#[trigger] vs[j], ps),
        decreases values@.len() - i,
    {
        let fits = if empty {
            values[i].as_str().is_empty()
        } else {
            substring_matches(values[i].as_str(), parts)
        };
        proof {
            assert(vs[i as int] == values@[i as int]@);
        }
        if fits {
            return true;
        }
        i = i + 1;
    }
    false
}

/// The DN with each component trimmed, in lower case.
pub open spec fn normalized_dn(value: Seq<char>) -> Seq<char> {
    text::lower(
        text::join(text::split(value, ',').map_values(|s: Seq<char>| text::trim(s)), seq![',']),
    )
}

fn normalize_dn_value(value: &str) -> (r: String)
    ensures
        r@ == normalized_dn(value@),
{
    let pieces = text::split_on(value, ',');
    let mut trimmed: Vec<String> = Vec::new();
    let mut i: usize = 0;
    let ghost wanted = text::split(value@, ',').map_values(|s: Seq<char>| text::trim(s));
    while i < pieces.len()
        invariant
            i <= pieces@.len(),
            text::texts(pieces@) == text::split(value@, ','),
            wanted == text::split(value@, ',').map_values(|s: Seq<char>| text::trim(s)),
            text::texts(trimmed@) == wanted.take(i as int),
        decreases pieces@.len() - i,
    {
        let t = text::trimmed(pieces[i].as_str());
        proof {
            assert(text::split(value@, ',')[i as int] == pieces@[i as int]@);
            text::texts_push(trimmed@, t);
            assert(wanted.take(i as int + 1) =~= wanted.take(i as int).push(wanted[i as int]));
        }
        trimmed.push(t);
        i = i + 1;
    }
    proof {
        assert(wanted.take(i as int) =~= wanted);
        reveal_strlit(",");
        assert(","@ =~= seq![',']);
    }
    text::lowercase(text::join_with(&trimmed, ",").as_str())
}

/// The values of the name parts of a DN component, of those with the given
/// name where one is given.
pub open spec fn ava_values(avas: Seq<Seq<char>>, attribute: Option<Seq<char>>) -> Seq<Seq<char>>
    decreases avas.len(),
{
    if avas.len() == 0 {
        Seq::empty()
    } else {
        let before = ava_values(avas.drop_last(), attribute);
        match text::cut(avas.last(), '=') {
            None => before,
            Some((name, value)) => if attribute is Some && text::lower(text::trim(name))
                != text::lower(attribute->0) {
                before
            } else {
                before.push(text::trim(value))
            },
        }
    }
}

/// The values of the name parts of the components.
pub open spec fn rdn_values(rdns: Seq<Seq<char>>, attribute: Option<Seq<char>>) -> Seq<Seq<char>>
    decreases rdns.len(),
{
    if rdns.len() == 0 {
        Seq::empty()
    } else {
        rdn_values(rdns.drop_last(), attribute) + ava_values(
            text::split(rdns.last(), '+'),
            attribute,
        )
    }
}

/// The values in a DN, of those with the given name where one is given.
pub open spec fn dn_values(dn: Seq<char>, attribute: Option<Seq<char>>) -> Seq<Seq<char>> {
    rdn_values(text::split(dn, ','), attribute)
}

/// The characters of an optional string slice.
pub open spec fn option_str(s: Option<&str>) -> Option<Seq<char>> {
    match s {
        Some(s) => Some(s@),
        None => None,
    }
}

fn dn_attribute_values(dn: &str, attribute: Option<&str>) -> (r: Vec<String>)
    ensures
        text::texts(r@) == dn_values(dn@, option_str(attribute)),
{
    let ghost wanted = option_str(attribute);
    let mut out: Vec<String> = Vec::new();
    let rdns = text::split_on(dn, ',');
    let mut i: usize = 0;
    let ghost all = text::split(dn@, ',');
    proof {
        assert(text::texts(out@) =~= rdn_values(all.take(0), wanted));
    }
    while i < rdns.len()
        invariant
            i <= rdns@.len(),
            all == text::split(dn@, ','),
            text::texts(rdns@) == all,
            wanted == option_str(attribute),
            text::texts(out@) == rdn_values(all.take(i as int), wanted),
        decreases rdns@.len() - i,
    {
        let avas = text::split_on(rdns[i].as_str(), '+');
        let ghost parts = text::split(all[i as int], '+');
        let ghost before = text::texts(out@);
        let mut k: usize = 0;
        proof {
            assert(rdns@[i as int]@ == all[i as int]);
            assert(before + ava_values(parts.take(0), wanted) =~= before);
        }
        while k < avas.len()
            invariant
                k <= avas@.len(),
                text::texts(avas@) == parts,
                wanted == option_str(attribute),
                text::texts(out@) == before + ava_values(parts.take(k as int), wanted),
            decreases avas@.len() - k,
        {
            proof {
                assert(parts.take(k as int + 1).drop_last() =~= parts.take(k as int));
                assert(parts.take(k as int + 1).last() == avas@[k as int]@);
            }
            if let Some(pair) = text::split_once(avas[k].as_str(), '=') {
                let skip = match attribute {
                    Some(a) => !text::eq_ignore_case(text::trimmed(pair.0.as_str()).as_str(), a),
                    None => false,
                };
                if !skip {
                    let value = text::trimmed(pair.1.as_str());
                    proof {
                        text::texts_push(out@, value);
                        assert(before + ava_values(parts.take(k as int), wanted).push(value@)
                            =~= (before + ava_values(parts.take(k as int), wanted)).push(value@));
                    }
                    out.push(value);
                }
            }
            k = k + 1;
        }
        proof {
            assert(parts.take(k as int) =~= parts);
            assert(all.take(i as int + 1).drop_last() =~= all.take(i as int));
            assert(all.take(i as int + 1).last() == all[i as int]);
        }
        i = i + 1;
    }
    proof {
        assert(all.take(i as int) =~= all);
    }
    out
}

/// The rule's name is one of the two.
pub open spec fn names_rule(rule: Seq<char>, name: Seq<char>, oid: Seq<char>) -> bool {
    rule == name || rule == oid
}

/// A value meets the assertion of an extensible match under the rule of that
/// name; without a rule the two must be the same.
pub open spec fn extensible_fits(
    candidate: Seq<char>,
    assertion: Seq<char>,
    rule: Option<Seq<char>>,
) -> bool {
    match rule {
        None => candidate == assertion,
        Some(r) => if names_rule(r, "caseexactmatch"@, "2.5.13.5"@) {
            candidate == assertion
        } else if names_rule(r, "caseignorematch"@, "2.5.13.2"@) {
            text::unicode_lower(candidate) == text::unicode_lower(assertion)
        } else if names_rule(r, "distinguishednamematch"@, "2.5.13.1"@) {
            normalized_dn(candidate) == normalized_dn(assertion)
        } else if names_rule(r, "integermatch"@, "2.5.13.14"@) {
            match (
                text::integer_value(text::trim(candidate)),
                text::integer_value(text::trim(assertion)),
            ) {
                (Some(a), Some(b)) => a == b,
                _ => false,
            }
        } else if names_rule(r, "booleanmatch"@, "2.5.13.13"@) || names_rule(
            r,
            "objectidentifiermatch"@,
            "2.5.13.0"@,
        ) {
            text::lower(candidate) == text::lower(assertion)
        } else {
            false
        },
    }
}

fn extensible_value_matches(candidate: &str, assertion: &str, matching_rule: Option<&str>) -> (r:
    bool)
    ensures
        r == extensible_fits(candidate@, assertion@, option_str(matching_rule)),
{
    match matching_rule {
        None => text::same(candidate, assertion),
        Some(rule) => if text::same(rule, "caseexactmatch") || text::same(rule, "2.5.13.5") {
            text::same(candidate, assertion)
        } else if text::same(rule, "caseignorematch") || text::same(rule, "2.5.13.2") {
            text::unicode_lowercase(candidate) == text::unicode_lowercase(assertion)
        } else if text::same(rule, "distinguishednamematch") || text::same(rule, "2.5.13.1") {
            normalize_dn_value(candidate) == normalize_dn_value(assertion)
        } else if text::same(rule, "integermatch") || text::same(rule, "2.5.13.14") {
            let a = text::parse_integer(text::trimmed(candidate).as_str());
            let b = text::parse_integer(text::trimmed(assertion).as_str());
            match (a, b) {
                (Some(a), Some(b)) => a == b,
                _ => false,
            }
        } else if text::same(rule, "booleanmatch") || text::same(rule, "2.5.13.13") || text::same(
            rule,
            "objectidentifiermatch",
        ) || text::same(rule, "2.5.13.0") {
            text::eq_ignore_case(candidate, assertion)
        } else {
            false
        },
    }
}

/// A value of the list meets the assertion.
pub open spec fn extensible_found(
    values: Seq<Seq<char>>,
    assertion: Seq<char>,
    rule: Option<Seq<char>>,
) -> bool {
    exists|i: int| 0 <= i < values.len() && extensible_fits(#[trigger] values[i], assertion, rule)
}

fn any_extensible(values: &Vec<String>, assertion: &str, rule: Option<&str>) -> (r: bool)
    ensures
        r == extensible_found(text::texts(values@), assertion@, option_str(rule)),
{
    let ghost vs = text::texts(values@);
    let mut i: usize = 0;
    while i < values.len()
        invariant
            i <= values@.len(),
            vs == text::texts(values@),
            forall|j: int|
                0 <= j < i ==> !extensible_fits(#[trigger] vs[j], assertion@, option_str(rule)),
        decreases values@.len() - i,
    {
        proof {
            assert(vs[i as int] == values@[i as int]@);
        }
        if extensible_value_matches(values[i].as_str(), assertion, rule) {
            return true;
        }
        i = i + 1;
    }
    false
}

/// The entry meets an extensible match: a value of the attribute does, or of
/// any attribute where none is named; with the DN's parts taken in, a value
/// there may do it too.
pub open spec fn extensible_satisfied(
    dn: Seq<char>,
    attrs: directory::AttributeSeq,
    attribute: Option<Seq<char>>,
    rule: Option<Seq<char>>,
    assertion: Seq<char>,
    dn_attributes: bool,
) -> bool {
    ||| match attribute {
        Some(a) => match string_map::lookup(attrs, a) {
            Some(vs) => extensible_found(vs, assertion, rule),
            None => false,
        },
        None => exists|i: int|
            0 <= i < attrs.len() && extensible_found((#[trigger] attrs[i]).1, assertion, rule),
    }
    ||| dn_attributes && extensible_found(dn_values(dn, attribute), assertion, rule)
}

fn matches_extensible(
    dn: &str,
    attributes: &Attributes,
    attribute: Option<&str>,
    matching_rule: Option<&str>,
    assertion: &str,
    dn_attributes: bool,
) -> (r: bool)
    ensures
        r == extensible_satisfied(
            dn@,
            attributes@,
            option_str(attribute),
            option_str(matching_rule),
            assertion@,
            dn_attributes,
        ),
{
    match attribute {
        Some(a) => {
            if let Some(values) = attributes.get(a) {
                if any_extensible(values, assertion, matching_rule) {
                    return true;
                }
            }
        },
        None => {
            let n = attributes.len();
            let mut i: usize = 0;
            while i < n
                invariant
                    n == attributes@.len(),
                    i <= n,
                    attribute is None,
                    forall|j: int|
                        0 <= j < i ==> !extensible_found(
                            (#[trigger] attributes@[j]).1,
                            assertion@,
                            option_str(matching_rule),
                        ),
                decreases n - i,
            {
                let e = attributes.entry(i);
                if any_extensible(e.1, assertion, matching_rule) {
                    return true;
                }
                i = i + 1;
            }
        },
    }
    dn_attributes && any_extensible(&dn_attribute_values(dn, attribute), assertion, matching_rule)
}

/// A value of the list is not below the given one.
pub open spec fn any_at_least(values: Seq<Seq<char>>, value: Seq<char>) -> bool {
    exists|i: int| 0 <= i < values.len() && !text::less(#[trigger] values[i], value)
}

/// A value of the list is not above the given one.
pub open spec fn any_at_most(values: Seq<Seq<char>>, value: Seq<char>) -> bool {
    exists|i: int| 0 <= i < values.len() && !text::less(value, #[trigger] values[i])
}

/// A value of the list is the given one up to ASCII case.
pub open spec fn any_like(values: Seq<Seq<char>>, value: Seq<char>) -> bool {
    exists|i: int| 0 <= i < values.len() && text::lower(#[trigger] values[i]) == text::lower(value)
}

fn value_at_least(values: &Vec<String>, value: &str) -> (r: bool)
    ensures
        r == any_at_least(text::texts(values@), value@),
{
    let ghost vs = text::texts(values@);
    let mut i: usize = 0;
    while i < values.len()
        invariant
            i <= values@.len(),
            vs == text::texts(values@),
            forall|j: int| 0 <= j < i ==> text::less(#[trigger] vs[j], value@),
        decreases values@.len() - i,
    {
        proof {
            assert(vs[i as int] == values@[i as int]@);
        }
        if !text::is_less(values[i].as_str(), value) {
            return true;
        }
        i = i + 1;
    }
    false
}

fn value_at_most(values: &Vec<String>, value: &str) -> (r: bool)
    ensures
        r == any_at_most(text::texts(values@), value@),
{
    let ghost vs = text::texts(values@);
    let mut i: usize = 0;
    while i < values.len()
        invariant
            i <= values@.len(),
            vs == text::texts(values@),
            forall|j: int| 0 <= j < i ==> text::less(value@, #[trigger] vs[j]),
        decreases values@.len() - i,
    {
        proof {
            assert(vs[i as int] == values@[i as int]@);
        }
        if !text::is_less(value, values[i].as_str()) {
            return true;
        }
        i = i + 1;
    }
    false
}

fn value_like(values: &Vec<String>, value: &str) -> (r: bool)
    ensures
        r == any_like(text::texts(values@), value@),
{
    let ghost vs = text::texts(values@);
    let mut i: usize = 0;
    while i < values.len()
        invariant
            i <= values@.len(),
            vs == text::texts(values@),
            forall|j: int| 0 <= j < i ==> text::lower(#[trigger] vs[j]) != text::lower(value@),
        decreases values@.len() - i,
    {
        proof {
            assert(vs[i as int] == values@[i as int]@);
        }
        if text::eq_ignore_case(values[i].as_str(), value) {
            return true;
        }
        i = i + 1;
    }
    false
}

/// The entry with that DN and those attributes matches the filter.
pub open spec fn satisfies(f: FilterView, dn: Seq<char>, attrs: directory::AttributeSeq) -> bool
    decreases f,
{
    match f {
        FilterView::And(fs) => forall|i: int|
            0 <= i < fs.len() ==> satisfies(#[trigger] fs[i], dn, attrs),
        FilterView::Or(fs) => exists|i: int|
            0 <= i < fs.len() && satisfies(#[trigger] fs[i], dn, attrs),
        FilterView::Not(g) => !satisfies(*g, dn, attrs),
        FilterView::Equality { attribute, value } => match string_map::lookup(attrs, attribute) {
            Some(vs) => vs.contains(value),
            None => false,
        },
        FilterView::Substrings { attribute, parts } => match string_map::lookup(attrs, attribute) {
            Some(vs) => pattern_found(vs, parts),
            None => false,
        },
        FilterView::GreaterOrEqual { attribute, value } => match string_map::lookup(
            attrs,
            attribute,
        ) {
            Some(vs) => any_at_least(vs, value),
            None => false,
        },
        FilterView::LessOrEqual { attribute, value } => match string_map::lookup(attrs, attribute) {
            Some(vs) => any_at_most(vs, value),
            None => false,
        },
        FilterView::Present { attribute } => string_map::lookup(attrs, attribute) is Some,
        FilterView::ApproxMatch { attribute, value } => match string_map::lookup(attrs, attribute) {
            Some(vs) => any_like(vs, value),
            None => false,
        },
        FilterView::Extensible { attribute, matching_rule, value, dn_attributes } =>
            extensible_satisfied(dn, attrs, attribute, matching_rule, value, dn_attributes),
    }
}

fn as_str_option(s: &Option<String>) -> (r: Option<&str>)
    ensures
        option_str(r) == text::option_text(*s),
{
    match s {
        Some(s) => Some(s.as_str()),
        None => None,
    }
}

impl CompiledLdapFilter {
    /// The directory entry matches the filter.
    pub fn matches(&self, entry: &DirectoryEntry) -> (r: bool)
        ensures
            r == satisfies(filter_view(*self), entry.dn@, entry.attributes@),
    {
        self.matches_attributes(entry.dn.as_str(), &entry.attributes)
    }

    /// The entry of a search matches the filter.
    pub fn matches_search_entry(&self, entry: &SearchEntry) -> (r: bool)
        ensures
            r == satisfies(filter_view(*self), entry.dn@, entry.attributes@),
    {
        self.matches_attributes(entry.dn.as_str(), &entry.attributes)
    }

    /// The entry with that DN and those attributes matches the filter.
    pub fn matches_attributes(&self, dn: &str, attributes: &Attributes) -> (r: bool)
        ensures
            r == satisfies(filter_view(*self), dn@, attributes@),
        decreases self, 0nat,
    {
        proof {
            view_of_list(*self);
        }
        match self {
            CompiledLdapFilter::And(fs) => Self::all_match(fs, dn, attributes),
            CompiledLdapFilter::Or(fs) => Self::any_matches(fs, dn, attributes),
            CompiledLdapFilter::Not(g) => !g.matches_attributes(dn, attributes),
            CompiledLdapFilter::Equality { attribute, value } => match attributes.get(
                attribute.as_str(),
            ) {
                Some(values) => directory::contains_string(values, value.as_str()),
                None => false,
            },
            CompiledLdapFilter::Substrings { attribute, parts } => match attributes.get(
                attribute.as_str(),
            ) {
                Some(values) => matches_substrings(values, parts),
                None => false,
            },
            CompiledLdapFilter::GreaterOrEqual { attribute, value } => match attributes.get(
                attribute.as_str(),
            ) {
                Some(values) => value_at_least(values, value.as_str()),
                None => false,
            },
            CompiledLdapFilter::LessOrEqual { attribute, value } => match attributes.get(
                attribute.as_str(),
            ) {
                Some(values) => value_at_most(values, value.as_str()),
                None => false,
            },
            CompiledLdapFilter::Present { attribute } => attributes.contains_key(
                attribute.as_str(),
            ),
            CompiledLdapFilter::ApproxMatch { attribute, value } => match attributes.get(
                attribute.as_str(),
            ) {
                Some(values) => value_like(values, value.as_str()),
                None => false,
            },
            CompiledLdapFilter::Extensible { attribute, matching_rule, value, dn_attributes } =>
                matches_extensible(
                dn,
                attributes,
                as_str_option(attribute),
                as_str_option(matching_rule),
                value.as_str(),
                *dn_attributes,
            ),
        }
    }

    fn all_match(filters: &Vec<CompiledLdapFilter>, dn: &str, attributes: &Attributes) -> (r: bool)
        ensures
            r == satisfies(FilterView::And(filter_views(filters@)), dn@, attributes@),
        decreases filters, 1nat,
    {
        let ghost fs = filter_views(filters@);
        let mut i: usize = 0;
        while i < filters.len()
            invariant
                i <= filters@.len(),
                fs == filter_views(filters@),
                forall|j: int| 0 <= j < i ==> satisfies(#[trigger] fs[j], dn@, attributes@),
            decreases filters@.len() - i,
        {
            proof {
                assert(fs[i as int] == filter_view(filters@[i as int]));
            }
            if !filters[i].matches_attributes(dn, attributes) {
                proof {
                    let g = FilterView::And(fs);
                    assert(!satisfies(g->And_0[i as int], dn@, attributes@));
                }
                return false;
            }
            i = i + 1;
        }
        true
    }

    fn any_matches(filters: &Vec<CompiledLdapFilter>, dn: &str, attributes: &Attributes) -> (r:
        bool)
        ensures
            r == satisfies(FilterView::Or(filter_views(filters@)), dn@, attributes@),
        decreases filters, 1nat,
    {
        let ghost fs = filter_views(filters@);
        let mut i: usize = 0;
        while i < filters.len()
            invariant
                i <= filters@.len(),
                fs == filter_views(filters@),
                forall|j: int| 0 <= j < i ==> !satisfies(#[trigger] fs[j], dn@, attributes@),
            decreases filters@.len() - i,
        {
            proof {
                assert(fs[i as int] == filter_view(filters@[i as int]));
            }
            if filters[i].matches_attributes(dn, attributes) {
                proof {
                    let g = FilterView::Or(fs);
                    assert(satisfies(g->Or_0[i as int], dn@, attributes@));
                }
                return true;
            }
            i = i + 1;
        }
        false
    }
}

/// The entry matches the filter of a search request.
pub fn matches_search_filter(entry: &DirectoryEntry, filter: &SearchFilter) -> (r: bool)
    ensures
        r == satisfies(compiled(*filter), entry.dn@, entry.attributes@),
{
    match CompiledLdapFilter::from_search_filter(filter) {
        Ok(f) => f.matches(entry),
        Err(_) => false,
    }
}

// ---------------------------------------------------------------------------
// Filters prepared under a schema
// ---------------------------------------------------------------------------

/// A filter whose rules have been resolved and whose values have been put in
/// the form in which the rules compare them.
#[allow(inconsistent_fields)]
#[derive(Debug, PartialEq, Eq)]
pub enum PreparedLdapFilter {
    And(Vec<PreparedLdapFilter>),
    Or(Vec<PreparedLdapFilter>),
    Not(Box<PreparedLdapFilter>),
    Equality { attribute: String, rule: ResolvedMatchingRule, normalized_value: String },
    Substrings {
        attribute: String,
        rule: ResolvedMatchingRule,
        normalized_parts: Vec<SubstringPart>,
    },
    GreaterOrEqual {
        attribute: String,
        rule: ResolvedMatchingRule,
        normalized_value: String,
        ordering_key: String,
    },
    LessOrEqual {
        attribute: String,
        rule: ResolvedMatchingRule,
        normalized_value: String,
        ordering_key: String,
    },
    Present { attribute: String },
    Extensible {
        attribute: Option<String>,
        rule: ResolvedMatchingRule,
        normalized_value: String,
        dn_attributes: bool,
        applicable_attributes: Option<Vec<String>>,
    },
}

/// What a [`PreparedLdapFilter`] says.
#[allow(inconsistent_fields)]
pub enum PreparedView {
    And(Seq<PreparedView>),
    Or(Seq<PreparedView>),
    Not(Box<PreparedView>),
    Equality { attribute: Seq<char>, rule: RuleView, value: Seq<char> },
    Substrings { attribute: Seq<char>, rule: RuleView, parts: Seq<PartView> },
    GreaterOrEqual { attribute: Seq<char>, rule: RuleView, value: Seq<char>, key: Seq<char> },
    LessOrEqual { attribute: Seq<char>, rule: RuleView, value: Seq<char>, key: Seq<char> },
    Present { attribute: Seq<char> },
    Extensible {
        attribute: Option<Seq<char>>,
        rule: RuleView,
        value: Seq<char>,
        dn_attributes: bool,
        applicable: Option<Seq<Seq<char>>>,
    },
}

/// The character sequences of an optional vector of strings.
pub open spec fn option_texts(v: Option<Vec<String>>) -> Option<Seq<Seq<char>>> {
    match v {
        Some(v) => Some(text::texts(v@)),
        None => None,
    }
}

/// What a prepared filter says.
pub open spec fn prepared_view(f: PreparedLdapFilter) -> PreparedView
    decreases f,
{
    match f {
        PreparedLdapFilter::And(fs) => PreparedView::And(
            Seq::new(fs@.len(), |i: int| if 0 <= i < fs@.len() {
                prepared_view(fs@[i])
            } else {
                arbitrary()
            }),
        ),
        PreparedLdapFilter::Or(fs) => PreparedView::Or(
            Seq::new(fs@.len(), |i: int| if 0 <= i < fs@.len() {
                prepared_view(fs@[i])
            } else {
                arbitrary()
            }),
        ),
        PreparedLdapFilter::Not(g) => PreparedView::Not(Box::new(prepared_view(*g))),
        PreparedLdapFilter::Equality { attribute, rule, normalized_value } =>
            PreparedView::Equality { attribute: attribute@, rule: rule@, value: normalized_value@ },
        PreparedLdapFilter::Substrings { attribute, rule, normalized_parts } =>
            PreparedView::Substrings {
            attribute: attribute@,
            rule: rule@,
            parts: parts_view(normalized_parts@),
        },
        PreparedLdapFilter::GreaterOrEqual { attribute, rule, normalized_value, ordering_key } =>
            PreparedView::GreaterOrEqual {
            attribute: attribute@,
            rule: rule@,
            value: normalized_value@,
            key: ordering_key@,
        },
        PreparedLdapFilter::LessOrEqual { attribute, rule, normalized_value, ordering_key } =>
            PreparedView::LessOrEqual {
            attribute: attribute@,
            rule: rule@,
            value: normalized_value@,
            key: ordering_key@,
        },
        PreparedLdapFilter::Present { attribute } => PreparedView::Present {
            attribute: attribute@,
        },
        PreparedLdapFilter::Extensible {
            attribute,
            rule,
            normalized_value,
            dn_attributes,
            applicable_attributes,
        } => PreparedView::Extensible {
            attribute: text::option_text(attribute),
            rule: rule@,
            value: normalized_value@,
            dn_attributes,
            applicable: option_texts(applicable_attributes),
        },
    }
}

/// What the prepared filters of a list say.
pub open spec fn prepared_views(fs: Seq<PreparedLdapFilter>) -> Seq<PreparedView> {
    Seq::new(fs.len(), |i: int| prepared_view(fs[i]))
}

proof fn view_of_prepared_list(f: PreparedLdapFilter)
    ensures
        f matches PreparedLdapFilter::And(fs) ==> prepared_view(f) == PreparedView::And(
            prepared_views(fs@),
        ),
        f matches PreparedLdapFilter::Or(fs) ==> prepared_view(f) == PreparedView::Or(
            prepared_views(fs@),
        ),
{
    match f {
        PreparedLdapFilter::And(fs) => {
            assert(prepared_view(f)->And_0 =~= prepared_views(fs@));
        },
        PreparedLdapFilter::Or(fs) => {
            assert(prepared_view(f)->Or_0 =~= prepared_views(fs@));
        },
        _ => {},
    }
}

/// The hint that a prepared filter gives.
pub open spec fn prepared_hint(f: PreparedView) -> Option<HintView>
    decreases f, 0nat,
{
    match f {
        PreparedView::And(fs) => first_prepared_hint(fs),
        PreparedView::Equality { attribute, rule, value } => Some(
            HintView::Equality { attribute, value },
        ),
        PreparedView::Present { attribute } => Some(HintView::Present { attribute }),
        PreparedView::Substrings { attribute, rule, parts } => if indexable(parts) {
            Some(HintView::Substring { attribute, parts })
        } else {
            None
        },
        PreparedView::GreaterOrEqual { attribute, rule, value, key } => Some(
            HintView::GreaterOrEqual { attribute, value },
        ),
        PreparedView::LessOrEqual { attribute, rule, value, key } => Some(
            HintView::LessOrEqual { attribute, value },
        ),
        _ => None,
    }
}

/// The first hint that the prepared filters give.
pub open spec fn first_prepared_hint(fs: Seq<PreparedView>) -> Option<HintView>
    decreases fs, 1nat,
{
    if fs.len() == 0 {
        None
    } else {
        match prepared_hint(fs[0]) {
            Some(h) => Some(h),
            None => first_prepared_hint(fs.drop_first()),
        }
    }
}

/// The hint that says all that the prepared filter asks for, if one does: that
/// of a single comparison or presence.
pub open spec fn exact_hint(f: PreparedView) -> Option<HintView> {
    match f {
        PreparedView::And(_) => None,
        PreparedView::Substrings { attribute, rule, parts } => None,
        _ => prepared_hint(f),
    }
}

/// A hint that covers a filter is the hint that the filter gives.
pub proof fn exact_hint_is_the_hint(f: PreparedView)
    ensures
        exact_hint(f) is Some ==> exact_hint(f) == prepared_hint(f),
{
}

impl PreparedLdapFilter {
    /// What an index can be asked for before the filter is evaluated.
    pub fn search_candidate_hint(&self) -> (r: Option<SearchCandidateHint>)
        ensures
            directory::hint_view(r) == prepared_hint(prepared_view(*self)),
        decreases self, 0nat,
    {
        proof {
            view_of_prepared_list(*self);
        }
        match self {
            PreparedLdapFilter::And(fs) => Self::first_candidate_hint(fs),
            PreparedLdapFilter::Equality { attribute, rule: _, normalized_value } => Some(
                SearchCandidateHint::Equality {
                    attribute: attribute.clone(),
                    value: normalized_value.clone(),
                },
            ),
            PreparedLdapFilter::Present { attribute } => Some(
                SearchCandidateHint::Present { attribute: attribute.clone() },
            ),
            PreparedLdapFilter::Substrings { attribute, rule: _, normalized_parts } =>
                if is_indexable(normalized_parts) {
                Some(
                    SearchCandidateHint::Substring {
                        attribute: attribute.clone(),
                        parts: hint_parts(normalized_parts),
                    },
                )
            } else {
                None
            },
            PreparedLdapFilter::GreaterOrEqual {
                attribute,
                rule: _,
                normalized_value,
                ordering_key: _,
            } => Some(
                SearchCandidateHint::GreaterOrEqual {
                    attribute: attribute.clone(),
                    value: normalized_value.clone(),
                },
            ),
            PreparedLdapFilter::LessOrEqual {
                attribute,
                rule: _,
                normalized_value,
                ordering_key: _,
            } => Some(
                SearchCandidateHint::LessOrEqual {
                    attribute: attribute.clone(),
                    value: normalized_value.clone(),
                },
            ),
            _ => None,
        }
    }

    fn first_candidate_hint(filters: &Vec<PreparedLdapFilter>) -> (r: Option<SearchCandidateHint>)
        ensures
            directory::hint_view(r) == first_prepared_hint(prepared_views(filters@)),
        decreases filters, 1nat,
    {
        let mut i: usize = 0;
        let ghost fs = prepared_views(filters@);
        proof {
            assert(fs.skip(0) =~= fs);
        }
        while i < filters.len()
            invariant
                i <= filters@.len(),
                fs == prepared_views(filters@),
                first_prepared_hint(fs) == first_prepared_hint(fs.skip(i as int)),
            decreases filters@.len() - i,
        {
            proof {
                assert(fs.skip(i as int).drop_first() =~= fs.skip(i as int + 1));
                assert(fs.skip(i as int)[0] == prepared_view(filters@[i as int]));
            }
            if let Some(h) = filters[i].search_candidate_hint() {
                return Some(h);
            }
            i = i + 1;
        }
        None
    }

    /// The hint that says all that the filter asks for, if one does.
    pub fn exact_index_coverage_hint(&self) -> (r: Option<SearchCandidateHint>)
        ensures
            directory::hint_view(r) == exact_hint(prepared_view(*self)),
    {
        proof {
            view_of_prepared_list(*self);
        }
        match self {
            PreparedLdapFilter::Equality { .. } | PreparedLdapFilter::Present { .. }
            | PreparedLdapFilter::GreaterOrEqual { .. }
            | PreparedLdapFilter::LessOrEqual { .. } => self.search_candidate_hint(),
            _ => None,
        }
    }
}

// ---------------------------------------------------------------------------
// Preparing a filter
// ---------------------------------------------------------------------------

/// The text says that a rule cannot be used.
pub open spec fn unsupported_rule(rule: RuleView) -> FilterErrorView {
    FilterErrorView::InappropriateMatching("unsupported matching rule "@ + rule.primary_name)
}

/// The resolved rule, where it can compare values.
pub open spec fn usable(r: Result<RuleView, RuleErrorView>) -> Result<RuleView, FilterErrorView> {
    match r {
        Err(e) => Err(rule_error(e)),
        Ok(rule) => if rule.kind == RuleKind::Unsupported {
            Err(unsupported_rule(rule))
        } else {
            Ok(rule)
        },
    }
}

/// A value as a filter's rule compares it.
pub open spec fn filter_value(rule: RuleView, value: Seq<char>) -> Result<
    Seq<char>,
    FilterErrorView,
> {
    match schema::normalize(rule, value) {
        Ok(v) => Ok(v),
        Err(e) => Err(rule_error(e)),
    }
}

/// The key of a value under a filter's rule.
pub open spec fn filter_key(rule: RuleView, value: Seq<char>) -> Result<
    Seq<char>,
    FilterErrorView,
> {
    match schema::sort_key(rule, value) {
        Ok(v) => Ok(v),
        Err(e) => Err(rule_error(e)),
    }
}

/// The piece of a pattern with another text.
pub open spec fn with_text(p: PartView, s: Seq<char>) -> PartView {
    match p {
        PartView::Initial(_) => PartView::Initial(s),
        PartView::Any(_) => PartView::Any(s),
        PartView::Final(_) => PartView::Final(s),
    }
}

/// A piece of a pattern as the rule compares it.
pub open spec fn filter_part(rule: RuleView, p: PartView) -> Result<PartView, FilterErrorView> {
    match schema::normalize_fragment(rule, part_text(p)) {
        Ok(s) => Ok(with_text(p, s)),
        Err(e) => Err(rule_error(e)),
    }
}

/// The pieces as the rule compares them, or the first error.
pub open spec fn filter_parts(rule: RuleView, ps: Seq<PartView>) -> Result<
    Seq<PartView>,
    FilterErrorView,
>
    decreases ps.len(),
{
    if ps.len() == 0 {
        Ok(Seq::empty())
    } else {
        match filter_part(rule, ps[0]) {
            Err(e) => Err(e),
            Ok(p) => match filter_parts(rule, ps.drop_first()) {
                Err(e) => Err(e),
                Ok(rest) => Ok(seq![p] + rest),
            },
        }
    }
}

/// The names in lower case by which an attribute type is known.
pub open spec fn type_names(t: schema::AttributeType) -> Seq<Seq<char>> {
    seq![text::lower(t.oid@)] + t.names@.map_values(|s: String| text::lower(s@))
}

/// The names of the attribute types that a rule can compare values of.
pub open spec fn applicable_names(
    sch: LdapSchema,
    rule: Seq<char>,
    types: Seq<schema::AttributeType>,
) -> Seq<Seq<char>>
    decreases types.len(),
{
    if types.len() == 0 {
        Seq::empty()
    } else {
        let before = applicable_names(sch, rule, types.drop_last());
        if schema::rule_applied(sch, rule, types.last().oid@) is Ok {
            before + type_names(types.last())
        } else {
            before
        }
    }
}

/// The rule of an extensible match, and the attributes that it runs over
/// where none is named.
pub open spec fn extensible_rule(
    sch: LdapSchema,
    attribute: Option<Seq<char>>,
    rule: Option<Seq<char>>,
) -> Result<(RuleView, Option<Seq<Seq<char>>>), FilterErrorView> {
    match (attribute, rule) {
        (Some(a), Some(r)) => match usable(schema::rule_applied(sch, r, a)) {
            Ok(v) => Ok((v, None)),
            Err(e) => Err(e),
        },
        (Some(a), None) => match usable(schema::rule_for(sch, a, RuleUse::Equality)) {
            Ok(v) => Ok((v, None)),
            Err(e) => Err(e),
        },
        (None, Some(r)) => match usable(schema::resolve_rule(sch, r)) {
            Ok(v) => Ok((v, Some(applicable_names(sch, r, sch.attribute_types@)))),
            Err(e) => Err(e),
        },
        (None, None) => Err(
            FilterErrorView::InvalidFilter("extensible match requires an attribute or matching rule"@),
        ),
    }
}

/// The text says that there is no approximate matching.
pub open spec fn no_approximation(attribute: Seq<char>) -> FilterErrorView {
    FilterErrorView::InappropriateMatching(
        "approximate matching is not supported for "@ + attribute,
    )
}

/// The filter prepared under a schema, or why the schema does not admit it.
pub open spec fn prepared(sch: LdapSchema, f: FilterView) -> Result<PreparedView, FilterErrorView>
    decreases f, 0nat,
{
    match f {
        FilterView::And(fs) => match prepared_all(sch, fs) {
            Ok(ps) => Ok(PreparedView::And(ps)),
            Err(e) => Err(e),
        },
        FilterView::Or(fs) => match prepared_all(sch, fs) {
            Ok(ps) => Ok(PreparedView::Or(ps)),
            Err(e) => Err(e),
        },
        FilterView::Not(g) => match prepared(sch, *g) {
            Ok(p) => Ok(PreparedView::Not(Box::new(p))),
            Err(e) => Err(e),
        },
        FilterView::Equality { attribute, value } => match usable(
            schema::rule_for(sch, attribute, RuleUse::Equality),
        ) {
            Err(e) => Err(e),
            Ok(rule) => match filter_value(rule, value) {
                Err(e) => Err(e),
                Ok(v) => Ok(PreparedView::Equality { attribute, rule, value: v }),
            },
        },
        FilterView::Substrings { attribute, parts } => match usable(
            schema::rule_for(sch, attribute, RuleUse::Substring),
        ) {
            Err(e) => Err(e),
            Ok(rule) => match filter_parts(rule, parts) {
                Err(e) => Err(e),
                Ok(ps) => Ok(PreparedView::Substrings { attribute, rule, parts: ps }),
            },
        },
        FilterView::GreaterOrEqual { attribute, value } => match usable(
            schema::rule_for(sch, attribute, RuleUse::Order),
        ) {
            Err(e) => Err(e),
            Ok(rule) => match filter_value(rule, value) {
                Err(e) => Err(e),
                Ok(v) => match filter_key(rule, value) {
                    Err(e) => Err(e),
                    Ok(key) => Ok(PreparedView::GreaterOrEqual { attribute, rule, value: v, key }),
                },
            },
        },
        FilterView::LessOrEqual { attribute, value } => match usable(
            schema::rule_for(sch, attribute, RuleUse::Order),
        ) {
            Err(e) => Err(e),
            Ok(rule) => match filter_value(rule, value) {
                Err(e) => Err(e),
                Ok(v) => match filter_key(rule, value) {
                    Err(e) => Err(e),
                    Ok(key) => Ok(PreparedView::LessOrEqual { attribute, rule, value: v, key }),
                },
            },
        },
        FilterView::Present { attribute } => if schema::attribute_type(sch, attribute) is Some {
            Ok(PreparedView::Present { attribute })
        } else {
            Err(FilterErrorView::UndefinedAttribute(attribute))
        },
        FilterView::ApproxMatch { attribute, value } => if schema::attribute_type(
            sch,
            attribute,
        ) is Some {
            Err(no_approximation(attribute))
        } else {
            Err(FilterErrorView::UndefinedAttribute(attribute))
        },
        FilterView::Extensible { attribute, matching_rule, value, dn_attributes } =>
            match extensible_rule(sch, attribute, matching_rule) {
            Err(e) => Err(e),
            Ok((rule, applicable)) => match filter_value(rule, value) {
                Err(e) => Err(e),
                Ok(v) => Ok(
                    PreparedView::Extensible { attribute, rule, value: v, dn_attributes, applicable },
                ),
            },
        },
    }
}

/// The filters prepared under a schema, or the first error.
pub open spec fn prepared_all(sch: LdapSchema, fs: Seq<FilterView>) -> Result<
    Seq<PreparedView>,
    FilterErrorView,
>
    decreases fs, 1nat,
{
    if fs.len() == 0 {
        Ok(Seq::empty())
    } else {
        match prepared(sch, fs[0]) {
            Err(e) => Err(e),
            Ok(p) => match prepared_all(sch, fs.drop_first()) {
                Err(e) => Err(e),
                Ok(rest) => Ok(seq![p] + rest),
            },
        }
    }
}

/// What a result with a rule says to a filter.
pub open spec fn filter_rule_result(r: Result<ResolvedMatchingRule, FilterSchemaError>) -> Result<
    RuleView,
    FilterErrorView,
> {
    match r {
        Ok(rule) => Ok(rule@),
        Err(e) => Err(e@),
    }
}

fn ensure_supported_rule(rule: &ResolvedMatchingRule) -> (r: Result<(), FilterSchemaError>)
    ensures
        match r {
            Ok(_) => rule.kind != RuleKind::Unsupported,
            Err(e) => rule.kind == RuleKind::Unsupported && e@ == unsupported_rule(rule@),
        },
{
    if rule.is_supported() {
        Ok(())
    } else {
        let mut message = "unsupported matching rule ".to_owned();
        message.append(rule.primary_name.as_str());
        Err(FilterSchemaError::InappropriateMatching(message))
    }
}

/// The resolved rule, where it can compare values.
fn usable_rule(r: Result<ResolvedMatchingRule, MatchingRuleError>) -> (out: Result<
    ResolvedMatchingRule,
    FilterSchemaError,
>)
    ensures
        filter_rule_result(out) == usable(schema::rule_result(r)),
{
    match r {
        Err(e) => Err(FilterSchemaError::from(e)),
        Ok(rule) => match ensure_supported_rule(&rule) {
            Ok(_) => Ok(rule),
            Err(e) => Err(e),
        },
    }
}

/// What a result with a text says to a filter.
pub open spec fn filter_text_result(r: Result<String, FilterSchemaError>) -> Result<
    Seq<char>,
    FilterErrorView,
> {
    match r {
        Ok(s) => Ok(s@),
        Err(e) => Err(e@),
    }
}

fn normalized(rule: &ResolvedMatchingRule, value: &str) -> (r: Result<String, FilterSchemaError>)
    ensures
        filter_text_result(r) == filter_value(rule@, value@),
{
    match rule.normalize_value(value) {
        Ok(v) => Ok(v),
        Err(e) => Err(FilterSchemaError::from(e)),
    }
}

fn keyed(rule: &ResolvedMatchingRule, value: &str) -> (r: Result<String, FilterSchemaError>)
    ensures
        filter_text_result(r) == filter_key(rule@, value@),
{
    match rule.ordering_key(value) {
        Ok(v) => Ok(v),
        Err(e) => Err(FilterSchemaError::from(e)),
    }
}

fn normalize_substring_part_for_rule(part: &SubstringPart, rule: &ResolvedMatchingRule) -> (r:
    Result<SubstringPart, FilterSchemaError>)
    ensures
        match r {
            Ok(p) => filter_part(rule@, part@) == Ok::<PartView, FilterErrorView>(p@),
            Err(e) => filter_part(rule@, part@) == Err::<PartView, FilterErrorView>(e@),
        },
{
    let value = match rule.normalize_substring_fragment(substring_part_value(part).as_str()) {
        Ok(v) => v,
        Err(e) => return Err(FilterSchemaError::from(e)),
    };
    Ok(
        match part {
            SubstringPart::Initial(_) => SubstringPart::Initial(value),
            SubstringPart::Any(_) => SubstringPart::Any(value),
            SubstringPart::Final(_) => SubstringPart::Final(value),
        },
    )
}

fn normalize_substring_parts(parts: &Vec<SubstringPart>, rule: &ResolvedMatchingRule) -> (r: Result<
    Vec<SubstringPart>,
    FilterSchemaError,
>)
    ensures
        match r {
            Ok(ps) => filter_parts(rule@, parts_view(parts@)) == Ok::<
                Seq<PartView>,
                FilterErrorView,
            >(parts_view(ps@)),
            Err(e) => filter_parts(rule@, parts_view(parts@)) == Err::<
                Seq<PartView>,
                FilterErrorView,
            >(e@),
        },
{
    let mut out: Vec<SubstringPart> = Vec::new();
    let mut i: usize = 0;
    let ghost ps = parts_view(parts@);
    proof {
        assert(ps.skip(0) =~= ps);
        if let Ok(rest) = filter_parts(rule@, ps) {
            assert(parts_view(out@) + rest =~= rest);
        }
    }
    while i < parts.len()
        invariant
            i <= parts@.len(),
            ps == parts_view(parts@),
            filter_parts(rule@, ps) == (match filter_parts(rule@, ps.skip(i as int)) {
                Ok(rest) => Ok::<Seq<PartView>, FilterErrorView>(parts_view(out@) + rest),
                Err(e) => Err(e),
            }),
        decreases parts@.len() - i,
    {
        proof {
            assert(ps.skip(i as int).drop_first() =~= ps.skip(i as int + 1));
            assert(ps.skip(i as int)[0] == parts@[i as int]@);
        }
        let part = match normalize_substring_part_for_rule(&parts[i], rule) {
            Ok(p) => p,
            Err(e) => return Err(e),
        };
        proof {
            if let Ok(rest) = filter_parts(rule@, ps.skip(i as int + 1)) {
                assert(parts_view(out@) + (seq![part@] + rest) =~= parts_view(out@.push(part))
                    + rest);
            }
        }
        out.push(part);
        i = i + 1;
    }
    proof {
        assert(parts_view(out@) + Seq::<PartView>::empty() =~= parts_view(out@));
    }
    Ok(out)
}

fn applicable_attribute_names_for_rule(sch: &LdapSchema, matching_rule: &str) -> (r: Vec<String>)
    ensures
        text::texts(r@) == applicable_names(*sch, matching_rule@, sch.attribute_types@),
{
    let mut out: Vec<String> = Vec::new();
    let mut i: usize = 0;
    let ghost types = sch.attribute_types@;
    proof {
        assert(text::texts(out@) =~= applicable_names(*sch, matching_rule@, types.take(0)));
    }
    while i < sch.attribute_types.len()
        invariant
            i <= sch.attribute_types@.len(),
            types == sch.attribute_types@,
            text::texts(out@) == applicable_names(*sch, matching_rule@, types.take(i as int)),
        decreases sch.attribute_types@.len() - i,
    {
        let t = &sch.attribute_types[i];
        proof {
            assert(types.take(i as int + 1).drop_last() =~= types.take(i as int));
            assert(types.take(i as int + 1).last() == types[i as int]);
        }
        if sch.matching_rule_applies_to_attribute(matching_rule, t.oid.as_str()).is_ok() {
            let ghost before = text::texts(out@);
            let ghost names = type_names(*t);
            let oid = text::lowercase(t.oid.as_str());
            proof {
                text::texts_push(out@, oid);
                assert(before.push(oid@) =~= before + names.take(1));
            }
            out.push(oid);
            let mut k: usize = 0;
            while k < t.names.len()
                invariant
                    k <= t.names@.len(),
                    names == type_names(*t),
                    text::texts(out@) == before + names.take(k + 1),
                decreases t.names@.len() - k,
            {
                let name = text::lowercase(t.names[k].as_str());
                proof {
                    text::texts_push(out@, name);
                    assert((before + names.take(k + 1)).push(name@) =~= before + names.take(k + 2));
                }
                out.push(name);
                k = k + 1;
            }
            proof {
                assert(names.take(k + 1) =~= names);
            }
        }
        i = i + 1;
    }
    proof {
        assert(types.take(i as int) =~= types);
    }
    out
}

/// What a result with a prepared filter says.
pub open spec fn prepare_result(r: Result<PreparedLdapFilter, FilterSchemaError>) -> Result<
    PreparedView,
    FilterErrorView,
> {
    match r {
        Ok(p) => Ok(prepared_view(p)),
        Err(e) => Err(e@),
    }
}

fn copy_option(s: &Option<String>) -> (r: Option<String>)
    ensures
        text::option_text(r) == text::option_text(*s),
{
    match s {
        Some(s) => Some(s.clone()),
        None => None,
    }
}

fn prepare_extensible(
    sch: &LdapSchema,
    attribute: &Option<String>,
    matching_rule: &Option<String>,
) -> (r: Result<(ResolvedMatchingRule, Option<Vec<String>>), FilterSchemaError>)
    ensures
        match r {
            Ok(p) => extensible_rule(*sch, text::option_text(*attribute), text::option_text(*matching_rule))
                == Ok::<(RuleView, Option<Seq<Seq<char>>>), FilterErrorView>(
                (p.0@, option_texts(p.1)),
            ),
            Err(e) => extensible_rule(*sch, text::option_text(*attribute), text::option_text(*matching_rule))
                == Err::<(RuleView, Option<Seq<Seq<char>>>), FilterErrorView>(e@),
        },
{
    match (attribute, matching_rule) {
        (Some(a), Some(m)) => match usable_rule(
            sch.matching_rule_applies_to_attribute(m.as_str(), a.as_str()),
        ) {
            Ok(rule) => Ok((rule, None)),
            Err(e) => Err(e),
        },
        (Some(a), None) => match usable_rule(sch.equality_rule_for_attribute(a.as_str())) {
            Ok(rule) => Ok((rule, None)),
            Err(e) => Err(e),
        },
        (None, Some(m)) => match usable_rule(sch.resolve_matching_rule(m.as_str())) {
            Ok(rule) => Ok((rule, Some(applicable_attribute_names_for_rule(sch, m.as_str())))),
            Err(e) => Err(e),
        },
        (None, None) => Err(
            FilterSchemaError::InvalidFilter(
                "extensible match requires an attribute or matching rule".to_owned(),
            ),
        ),
    }
}

fn known_attribute(sch: &LdapSchema, attribute: &str) -> (r: Result<(), FilterSchemaError>)
    ensures
        match r {
            Ok(_) => schema::attribute_type(*sch, attribute@) is Some,
            Err(e) => schema::attribute_type(*sch, attribute@) is None && e@
                == FilterErrorView::UndefinedAttribute(attribute@),
        },
{
    match sch.resolve_attribute_matching_profile(attribute) {
        Ok(_) => Ok(()),
        Err(e) => Err(FilterSchemaError::from(e)),
    }
}

fn approximation_error(attribute: &str) -> (r: FilterSchemaError)
    ensures
        r@ == no_approximation(attribute@),
{
    let mut message = "approximate matching is not supported for ".to_owned();
    message.append(attribute);
    FilterSchemaError::InappropriateMatching(message)
}

impl CompiledLdapFilter {
    /// The filter with its rules resolved and its values put in the form in
    /// which the rules compare them.
    pub fn prepare_with_schema(&self, sch: &LdapSchema) -> (r: Result<
        PreparedLdapFilter,
        FilterSchemaError,
    >)
        ensures
            prepare_result(r) == prepared(*sch, filter_view(*self)),
        decreases self, 0nat,
    {
        proof {
            view_of_list(*self);
        }
        match self {
            CompiledLdapFilter::And(fs) => match Self::prepare_all(fs, sch) {
                Ok(ps) => {
                    let r = PreparedLdapFilter::And(ps);
                    proof {
                        view_of_prepared_list(r);
                    }
                    Ok(r)
                },
                Err(e) => Err(e),
            },
            CompiledLdapFilter::Or(fs) => match Self::prepare_all(fs, sch) {
                Ok(ps) => {
                    let r = PreparedLdapFilter::Or(ps);
                    proof {
                        view_of_prepared_list(r);
                    }
                    Ok(r)
                },
                Err(e) => Err(e),
            },
            CompiledLdapFilter::Not(g) => match g.prepare_with_schema(sch) {
                Ok(p) => Ok(PreparedLdapFilter::Not(Box::new(p))),
                Err(e) => Err(e),
            },
            CompiledLdapFilter::Equality { attribute, value } => {
                let rule = match usable_rule(sch.equality_rule_for_attribute(attribute.as_str())) {
                    Ok(rule) => rule,
                    Err(e) => return Err(e),
                };
                match normalized(&rule, value.as_str()) {
                    Ok(normalized_value) => Ok(
                        PreparedLdapFilter::Equality {
                            attribute: attribute.clone(),
                            rule,
                            normalized_value,
                        },
                    ),
                    Err(e) => Err(e),
                }
            },
            CompiledLdapFilter::Substrings { attribute, parts } => {
                let rule = match usable_rule(sch.substring_rule_for_attribute(attribute.as_str())) {
                    Ok(rule) => rule,
                    Err(e) => return Err(e),
                };
                match normalize_substring_parts(parts, &rule) {
                    Ok(normalized_parts) => Ok(
                        PreparedLdapFilter::Substrings {
                            attribute: attribute.clone(),
                            rule,
                            normalized_parts,
                        },
                    ),
                    Err(e) => Err(e),
                }
            },
            CompiledLdapFilter::GreaterOrEqual { attribute, value } => {
                let rule = match usable_rule(sch.ordering_rule_for_attribute(attribute.as_str())) {
                    Ok(rule) => rule,
                    Err(e) => return Err(e),
                };
                let normalized_value = match normalized(&rule, value.as_str()) {
                    Ok(v) => v,
                    Err(e) => return Err(e),
                };
                let ordering_key = match keyed(&rule, value.as_str()) {
                    Ok(v) => v,
                    Err(e) => return Err(e),
                };
                Ok(
                    PreparedLdapFilter::GreaterOrEqual {
                        attribute: attribute.clone(),
                        rule,
                        normalized_value,
                        ordering_key,
                    },
                )
            },
            CompiledLdapFilter::LessOrEqual { attribute, value } => {
                let rule = match usable_rule(sch.ordering_rule_for_attribute(attribute.as_str())) {
                    Ok(rule) => rule,
                    Err(e) => return Err(e),
                };
                let normalized_value = match normalized(&rule, value.as_str()) {
                    Ok(v) => v,
                    Err(e) => return Err(e),
                };
                let ordering_key = match keyed(&rule, value.as_str()) {
                    Ok(v) => v,
                    Err(e) => return Err(e),
                };
                Ok(
                    PreparedLdapFilter::LessOrEqual {
                        attribute: attribute.clone(),
                        rule,
                        normalized_value,
                        ordering_key,
                    },
                )
            },
            CompiledLdapFilter::Present { attribute } => match known_attribute(
                sch,
                attribute.as_str(),
            ) {
                Ok(_) => Ok(PreparedLdapFilter::Present { attribute: attribute.clone() }),
                Err(e) => Err(e),
            },
            CompiledLdapFilter::ApproxMatch { attribute, value: _ } => match known_attribute(
                sch,
                attribute.as_str(),
            ) {
                Ok(_) => Err(approximation_error(attribute.as_str())),
                Err(e) => Err(e),
            },
            CompiledLdapFilter::Extensible { attribute, matching_rule, value, dn_attributes } => {
                let (rule, applicable_attributes) = match prepare_extensible(
                    sch,
                    attribute,
                    matching_rule,
                ) {
                    Ok(p) => p,
                    Err(e) => return Err(e),
                };
                match normalized(&rule, value.as_str()) {
                    Ok(normalized_value) => Ok(
                        PreparedLdapFilter::Extensible {
                            attribute: copy_option(attribute),
                            rule,
                            normalized_value,
                            dn_attributes: *dn_attributes,
                            applicable_attributes,
                        },
                    ),
                    Err(e) => Err(e),
                }
            },
        }
    }

    fn prepare_all(filters: &Vec<CompiledLdapFilter>, sch: &LdapSchema) -> (r: Result<
        Vec<PreparedLdapFilter>,
        FilterSchemaError,
    >)
        ensures
            match r {
                Ok(ps) => prepared_all(*sch, filter_views(filters@)) == Ok::<
                    Seq<PreparedView>,
                    FilterErrorView,
                >(prepared_views(ps@)),
                Err(e) => prepared_all(*sch, filter_views(filters@)) == Err::<
                    Seq<PreparedView>,
                    FilterErrorView,
                >(e@),
            },
        decreases filters, 1nat,
    {
        let mut out: Vec<PreparedLdapFilter> = Vec::new();
        let mut i: usize = 0;
        let ghost fs = filter_views(filters@);
        proof {
            assert(fs.skip(0) =~= fs);
            if let Ok(rest) = prepared_all(*sch, fs) {
                assert(prepared_views(out@) + rest =~= rest);
            }
        }
        while i < filters.len()
            invariant
                i <= filters@.len(),
                fs == filter_views(filters@),
                prepared_all(*sch, fs) == (match prepared_all(*sch, fs.skip(i as int)) {
                    Ok(rest) => Ok::<Seq<PreparedView>, FilterErrorView>(
                        prepared_views(out@) + rest,
                    ),
                    Err(e) => Err(e),
                }),
            decreases filters@.len() - i,
        {
            proof {
                assert(fs.skip(i as int).drop_first() =~= fs.skip(i as int + 1));
                assert(fs.skip(i as int)[0] == filter_view(filters@[i as int]));
            }
            let p = match filters[i].prepare_with_schema(sch) {
                Ok(p) => p,
                Err(e) => return Err(e),
            };
            proof {
                if let Ok(rest) = prepared_all(*sch, fs.skip(i as int + 1)) {
                    assert(prepared_views(out@) + (seq![prepared_view(p)] + rest)
                        =~= prepared_views(out@.push(p)) + rest);
                }
            }
            out.push(p);
            i = i + 1;
        }
        proof {
            assert(prepared_views(out@) + Seq::<PreparedView>::empty() =~= prepared_views(out@));
        }
        Ok(out)
    }
}

/// The filter of a search request, prepared under a schema.
pub fn prepare_search_filter_with_schema(sch: &LdapSchema, filter: &SearchFilter) -> (r: Result<
    PreparedLdapFilter,
    FilterSchemaError,
>)
    ensures
        prepare_result(r) == prepared(*sch, compiled(*filter)),
{
    match CompiledLdapFilter::from_search_filter(filter) {
        Ok(f) => f.prepare_with_schema(sch),
        Err(e) => Err(FilterSchemaError::InvalidFilter(e)),
    }
}

/// The schema admits the filter of a search request.
pub fn validate_search_filter(sch: &LdapSchema, filter: &SearchFilter) -> (r: Result<
    (),
    FilterSchemaError,
>)
    ensures
        match r {
            Ok(_) => prepared(*sch, compiled(*filter)) is Ok,
            Err(e) => prepared(*sch, compiled(*filter)) == Err::<PreparedView, FilterErrorView>(
                e@,
            ),
        },
{
    match prepare_search_filter_with_schema(sch, filter) {
        Ok(_) => Ok(()),
        Err(e) => Err(e),
    }
}

// ---------------------------------------------------------------------------
// Matching under a schema
// ---------------------------------------------------------------------------

/// What a filter comes to for an entry: whether the entry matches, or why
/// that cannot be told.
pub type Verdict = Result<bool, FilterErrorView>;

/// What a result of matching says.
pub open spec fn verdict(r: Result<bool, FilterSchemaError>) -> Verdict {
    match r {
        Ok(b) => Ok(b),
        Err(e) => Err(e@),
    }
}

/// A value of the list is the given one as the rule compares them. The values
/// are looked at in turn up to the first that is.
pub open spec fn rule_finds(values: Seq<Seq<char>>, wanted: Seq<char>, rule: RuleView) -> Verdict
    decreases values.len(),
{
    if values.len() == 0 {
        Ok(false)
    } else {
        match filter_value(rule, values[0]) {
            Err(e) => Err(e),
            Ok(v) => if v == wanted {
                Ok(true)
            } else {
                rule_finds(values.drop_first(), wanted, rule)
            },
        }
    }
}

/// The direction of a comparison.
#[derive(Debug, Clone, Copy, PartialEq, Eq, Structural)]
pub enum CompareExpectation {
    Ge,
    Le,
}

/// The key stands where the comparison asks it to.
pub open spec fn key_meets(key: Seq<char>, wanted: Seq<char>, expectation: CompareExpectation) -> bool {
    match expectation {
        CompareExpectation::Ge => !text::less(key, wanted),
        CompareExpectation::Le => !text::less(wanted, key),
    }
}

/// The key of a value of the list stands where the comparison asks it to.
pub open spec fn rule_orders(
    values: Seq<Seq<char>>,
    wanted: Seq<char>,
    rule: RuleView,
    expectation: CompareExpectation,
) -> Verdict
    decreases values.len(),
{
    if values.len() == 0 {
        Ok(false)
    } else {
        match filter_key(rule, values[0]) {
            Err(e) => Err(e),
            Ok(key) => if key_meets(key, wanted, expectation) {
                Ok(true)
            } else {
                rule_orders(values.drop_first(), wanted, rule, expectation)
            },
        }
    }
}

/// A value of the list, as the rule compares it, fits the pattern.
pub open spec fn rule_fits(values: Seq<Seq<char>>, parts: Seq<PartView>, rule: RuleView) -> Verdict
    decreases values.len(),
{
    if values.len() == 0 {
        Ok(false)
    } else {
        match filter_value(rule, values[0]) {
            Err(e) => Err(e),
            Ok(v) => if pattern_fits(v, parts) {
                Ok(true)
            } else {
                rule_fits(values.drop_first(), parts, rule)
            },
        }
    }
}

/// A value of an attribute that the rule runs over is the given one. The
/// attributes are looked at in turn up to the first with such a value.
pub open spec fn rule_finds_in(
    attrs: directory::AttributeSeq,
    applicable: Option<Seq<Seq<char>>>,
    wanted: Seq<char>,
    rule: RuleView,
) -> Verdict
    decreases attrs.len(),
{
    if attrs.len() == 0 {
        Ok(false)
    } else if applicable is Some && !applicable->0.contains(attrs[0].0) {
        rule_finds_in(attrs.drop_first(), applicable, wanted, rule)
    } else {
        match rule_finds(attrs[0].1, wanted, rule) {
            Err(e) => Err(e),
            Ok(true) => Ok(true),
            Ok(false) => rule_finds_in(attrs.drop_first(), applicable, wanted, rule),
        }
    }
}

/// The verdict of the second, unless the first already says yes or fails.
pub open spec fn or_else(first: Verdict, second: Verdict) -> Verdict {
    match first {
        Ok(false) => second,
        _ => first,
    }
}

/// What an extensible match comes to.
pub open spec fn extensible_verdict(
    dn: Seq<char>,
    attrs: directory::AttributeSeq,
    attribute: Option<Seq<char>>,
    rule: RuleView,
    wanted: Seq<char>,
    dn_attributes: bool,
    applicable: Option<Seq<Seq<char>>>,
) -> Verdict {
    let in_attributes = match attribute {
        Some(a) => match string_map::lookup(attrs, a) {
            Some(vs) => rule_finds(vs, wanted, rule),
            None => Ok(false),
        },
        None => rule_finds_in(attrs, applicable, wanted, rule),
    };
    or_else(
        in_attributes,
        if dn_attributes {
            rule_finds(dn_values(dn, attribute), wanted, rule)
        } else {
            Ok(false)
        },
    )
}

/// What a prepared filter comes to for the entry with that DN and those
/// attributes.
pub open spec fn evaluated(f: PreparedView, dn: Seq<char>, attrs: directory::AttributeSeq) -> Verdict
    decreases f, 0nat,
{
    match f {
        PreparedView::And(fs) => evaluated_all(fs, dn, attrs),
        PreparedView::Or(fs) => evaluated_any(fs, dn, attrs),
        PreparedView::Not(g) => match evaluated(*g, dn, attrs) {
            Ok(b) => Ok(!b),
            Err(e) => Err(e),
        },
        PreparedView::Equality { attribute, rule, value } => match string_map::lookup(
            attrs,
            attribute,
        ) {
            Some(vs) => rule_finds(vs, value, rule),
            None => Ok(false),
        },
        PreparedView::Substrings { attribute, rule, parts } => match string_map::lookup(
            attrs,
            attribute,
        ) {
            Some(vs) => rule_fits(vs, parts, rule),
            None => Ok(false),
        },
        PreparedView::GreaterOrEqual { attribute, rule, value, key } => match string_map::lookup(
            attrs,
            attribute,
        ) {
            Some(vs) => rule_orders(vs, key, rule, CompareExpectation::Ge),
            None => Ok(false),
        },
        PreparedView::LessOrEqual { attribute, rule, value, key } => match string_map::lookup(
            attrs,
            attribute,
        ) {
            Some(vs) => rule_orders(vs, key, rule, CompareExpectation::Le),
            None => Ok(false),
        },
        PreparedView::Present { attribute } => Ok(string_map::lookup(attrs, attribute) is Some),
        PreparedView::Extensible { attribute, rule, value, dn_attributes, applicable } =>
            extensible_verdict(dn, attrs, attribute, rule, value, dn_attributes, applicable),
    }
}

/// What a conjunction comes to: the first member that does not say yes
/// decides.
pub open spec fn evaluated_all(
    fs: Seq<PreparedView>,
    dn: Seq<char>,
    attrs: directory::AttributeSeq,
) -> Verdict
    decreases fs, 1nat,
{
    if fs.len() == 0 {
        Ok(true)
    } else {
        match evaluated(fs[0], dn, attrs) {
            Ok(true) => evaluated_all(fs.drop_first(), dn, attrs),
            v => v,
        }
    }
}

/// What a disjunction comes to: the first member that does not say no
/// decides.
pub open spec fn evaluated_any(
    fs: Seq<PreparedView>,
    dn: Seq<char>,
    attrs: directory::AttributeSeq,
) -> Verdict
    decreases fs, 1nat,
{
    if fs.len() == 0 {
        Ok(false)
    } else {
        match evaluated(fs[0], dn, attrs) {
            Ok(false) => evaluated_any(fs.drop_first(), dn, attrs),
            v => v,
        }
    }
}

fn values_match_normalized_rule(
    values: &Vec<String>,
    normalized_assertion: &str,
    rule: &ResolvedMatchingRule,
) -> (r: Result<bool, FilterSchemaError>)
    ensures
        verdict(r) == rule_finds(text::texts(values@), normalized_assertion@, rule@),
{
    let ghost vs = text::texts(values@);
    let mut i: usize = 0;
    proof {
        assert(vs.skip(0) =~= vs);
    }
    while i < values.len()
        invariant
            i <= values@.len(),
            vs == text::texts(values@),
            rule_finds(vs, normalized_assertion@, rule@) == rule_finds(
                vs.skip(i as int),
                normalized_assertion@,
                rule@,
            ),
        decreases values@.len() - i,
    {
        proof {
            assert(vs.skip(i as int).drop_first() =~= vs.skip(i as int + 1));
            assert(vs.skip(i as int)[0] == values@[i as int]@);
        }
        match normalized(rule, values[i].as_str()) {
            Ok(v) => {
                if text::same(v.as_str(), normalized_assertion) {
                    return Ok(true);
                }
            },
            Err(e) => return Err(e),
        }
        i = i + 1;
    }
    Ok(false)
}

fn values_against_ordering_key(
    values: &Vec<String>,
    assertion_key: &str,
    rule: &ResolvedMatchingRule,
    expectation: CompareExpectation,
) -> (r: Result<bool, FilterSchemaError>)
    ensures
        verdict(r) == rule_orders(text::texts(values@), assertion_key@, rule@, expectation),
{
    let ghost vs = text::texts(values@);
    let mut i: usize = 0;
    proof {
        assert(vs.skip(0) =~= vs);
    }
    while i < values.len()
        invariant
            i <= values@.len(),
            vs == text::texts(values@),
            rule_orders(vs, assertion_key@, rule@, expectation) == rule_orders(
                vs.skip(i as int),
                assertion_key@,
                rule@,
                expectation,
            ),
        decreases values@.len() - i,
    {
        proof {
            assert(vs.skip(i as int).drop_first() =~= vs.skip(i as int + 1));
            assert(vs.skip(i as int)[0] == values@[i as int]@);
        }
        let key = match keyed(rule, values[i].as_str()) {
            Ok(key) => key,
            Err(e) => return Err(e),
        };
        let met = match expectation {
            CompareExpectation::Ge => !text::is_less(key.as_str(), assertion_key),
            CompareExpectation::Le => !text::is_less(assertion_key, key.as_str()),
        };
        if met {
            return Ok(true);
        }
        i = i + 1;
    }
    Ok(false)
}

fn matches_substrings_with_rule(
    values: &Vec<String>,
    normalized_parts: &Vec<SubstringPart>,
    rule: &ResolvedMatchingRule,
) -> (r: Result<bool, FilterSchemaError>)
    ensures
        verdict(r) == rule_fits(text::texts(values@), parts_view(normalized_parts@), rule@),
{
    let ghost vs = text::texts(values@);
    let mut i: usize = 0;
    proof {
        assert(vs.skip(0) =~= vs);
    }
    while i < values.len()
        invariant
            i <= values@.len(),
            vs == text::texts(values@),
            rule_fits(vs, parts_view(normalized_parts@), rule@) == rule_fits(
                vs.skip(i as int),
                parts_view(normalized_parts@),
                rule@,
            ),
        decreases values@.len() - i,
    {
        proof {
            assert(vs.skip(i as int).drop_first() =~= vs.skip(i as int + 1));
            assert(vs.skip(i as int)[0] == values@[i as int]@);
        }
        match normalized(rule, values[i].as_str()) {
            Ok(v) => {
                if substring_matches(v.as_str(), normalized_parts) {
                    return Ok(true);
                }
            },
            Err(e) => return Err(e),
        }
        i = i + 1;
    }
    Ok(false)
}

fn finds_in_attributes(
    attributes: &Attributes,
    applicable_attributes: &Option<Vec<String>>,
    normalized_value: &str,
    rule: &ResolvedMatchingRule,
) -> (r: Result<bool, FilterSchemaError>)
    ensures
        verdict(r) == rule_finds_in(
            attributes@,
            option_texts(*applicable_attributes),
            normalized_value@,
            rule@,
        ),
{
    let ghost attrs = attributes@;
    let ghost applicable = option_texts(*applicable_attributes);
    let n = attributes.len();
    let mut i: usize = 0;
    proof {
        assert(attrs.skip(0) =~= attrs);
    }
    while i < n
        invariant
            n == attributes@.len(),
            i <= n,
            attrs == attributes@,
            applicable == option_texts(*applicable_attributes),
            rule_finds_in(attrs, applicable, normalized_value@, rule@) == rule_finds_in(
                attrs.skip(i as int),
                applicable,
                normalized_value@,
                rule@,
            ),
        decreases n - i,
    {
        proof {
            assert(attrs.skip(i as int).drop_first() =~= attrs.skip(i as int + 1));
            assert(attrs.skip(i as int)[0] == attrs[i as int]);
        }
        let e = attributes.entry(i);
        let applies = match applicable_attributes {
            Some(names) => directory::contains_string(names, e.0.as_str()),
            None => true,
        };
        if applies {
            match values_match_normalized_rule(e.1, normalized_value, rule) {
                Ok(true) => return Ok(true),
                Ok(false) => {},
                Err(e) => return Err(e),
            }
        }
        i = i + 1;
    }
    Ok(false)
}

fn matches_prepared_extensible(
    dn: &str,
    attributes: &Attributes,
    attribute: &Option<String>,
    rule: &ResolvedMatchingRule,
    normalized_value: &str,
    dn_attributes: bool,
    applicable_attributes: &Option<Vec<String>>,
) -> (r: Result<bool, FilterSchemaError>)
    ensures
        verdict(r) == extensible_verdict(
            dn@,
            attributes@,
            text::option_text(*attribute),
            rule@,
            normalized_value@,
            dn_attributes,
            option_texts(*applicable_attributes),
        ),
{
    let found = match attribute {
        Some(a) => match attributes.get(a.as_str()) {
            Some(values) => values_match_normalized_rule(values, normalized_value, rule),
            None => Ok(false),
        },
        None => finds_in_attributes(attributes, applicable_attributes, normalized_value, rule),
    };
    match found {
        Ok(false) => if dn_attributes {
            values_match_normalized_rule(
                &dn_attribute_values(dn, as_str_option(attribute)),
                normalized_value,
                rule,
            )
        } else {
            Ok(false)
        },
        Ok(true) => Ok(true),
        Err(e) => Err(e),
    }
}

impl PreparedLdapFilter {
    /// The directory entry matches the filter.
    pub fn matches_entry(&self, entry: &DirectoryEntry) -> (r: Result<bool, FilterSchemaError>)
        ensures
            verdict(r) == evaluated(prepared_view(*self), entry.dn@, entry.attributes@),
    {
        self.matches_attributes(entry.dn.as_str(), &entry.attributes)
    }

    /// The entry of a search matches the filter.
    pub fn matches_search_entry(&self, entry: &SearchEntry) -> (r: Result<bool, FilterSchemaError>)
        ensures
            verdict(r) == evaluated(prepared_view(*self), entry.dn@, entry.attributes@),
    {
        self.matches_attributes(entry.dn.as_str(), &entry.attributes)
    }

    /// The entry with that DN and those attributes matches the filter.
    pub fn matches_attributes(&self, dn: &str, attributes: &Attributes) -> (r: Result<
        bool,
        FilterSchemaError,
    >)
        ensures
            verdict(r) == evaluated(prepared_view(*self), dn@, attributes@),
        decreases self, 0nat,
    {
        proof {
            view_of_prepared_list(*self);
        }
        match self {
            PreparedLdapFilter::And(fs) => Self::all_match(fs, dn, attributes),
            PreparedLdapFilter::Or(fs) => Self::any_matches(fs, dn, attributes),
            PreparedLdapFilter::Not(g) => match g.matches_attributes(dn, attributes) {
                Ok(b) => Ok(!b),
                Err(e) => Err(e),
            },
            PreparedLdapFilter::Equality { attribute, rule, normalized_value } =>
                match attributes.get(attribute.as_str()) {
                Some(values) => values_match_normalized_rule(
                    values,
                    normalized_value.as_str(),
                    rule,
                ),
                None => Ok(false),
            },
            PreparedLdapFilter::Substrings { attribute, rule, normalized_parts } =>
                match attributes.get(attribute.as_str()) {
                Some(values) => matches_substrings_with_rule(values, normalized_parts, rule),
                None => Ok(false),
            },
            PreparedLdapFilter::GreaterOrEqual {
                attribute,
                rule,
                normalized_value: _,
                ordering_key,
            } => match attributes.get(attribute.as_str()) {
                Some(values) => values_against_ordering_key(
                    values,
                    ordering_key.as_str(),
                    rule,
                    CompareExpectation::Ge,
                ),
                None => Ok(false),
            },
            PreparedLdapFilter::LessOrEqual {
                attribute,
                rule,
                normalized_value: _,
                ordering_key,
            } => match attributes.get(attribute.as_str()) {
                Some(values) => values_against_ordering_key(
                    values,
                    ordering_key.as_str(),
                    rule,
                    CompareExpectation::Le,
                ),
                None => Ok(false),
            },
            PreparedLdapFilter::Present { attribute } => Ok(
                attributes.contains_key(attribute.as_str()),
            ),
            PreparedLdapFilter::Extensible {
                attribute,
                rule,
                normalized_value,
                dn_attributes,
                applicable_attributes,
            } => matches_prepared_extensible(
                dn,
                attributes,
                attribute,
                rule,
                normalized_value.as_str(),
                *dn_attributes,
                applicable_attributes,
            ),
        }
    }

    fn all_match(filters: &Vec<PreparedLdapFilter>, dn: &str, attributes: &Attributes) -> (r: Result<
        bool,
        FilterSchemaError,
    >)
        ensures
            verdict(r) == evaluated_all(prepared_views(filters@), dn@, attributes@),
        decreases filters, 1nat,
    {
        let ghost fs = prepared_views(filters@);
        let mut i: usize = 0;
        proof {
            assert(fs.skip(0) =~= fs);
        }
        while i < filters.len()
            invariant
                i <= filters@.len(),
                fs == prepared_views(filters@),
                evaluated_all(fs, dn@, attributes@) == evaluated_all(
                    fs.skip(i as int),
                    dn@,
                    attributes@,
                ),
            decreases filters@.len() - i,
        {
            proof {
                assert(fs.skip(i as int).drop_first() =~= fs.skip(i as int + 1));
                assert(fs.skip(i as int)[0] == prepared_view(filters@[i as int]));
            }
            match filters[i].matches_attributes(dn, attributes) {
                Ok(true) => {},
                Ok(false) => return Ok(false),
                Err(e) => return Err(e),
            }
            i = i + 1;
        }
        Ok(true)
    }

    fn any_matches(filters: &Vec<PreparedLdapFilter>, dn: &str, attributes: &Attributes) -> (r:
        Result<bool, FilterSchemaError>)
        ensures
            verdict(r) == evaluated_any(prepared_views(filters@), dn@, attributes@),
        decreases filters, 1nat,
    {
        let ghost fs = prepared_views(filters@);
        let mut i: usize = 0;
        proof {
            assert(fs.skip(0) =~= fs);
        }
        while i < filters.len()
            invariant
                i <= filters@.len(),
                fs == prepared_views(filters@),
                evaluated_any(fs, dn@, attributes@) == evaluated_any(
                    fs.skip(i as int),
                    dn@,
                    attributes@,
                ),
            decreases filters@.len() - i,
        {
            proof {
                assert(fs.skip(i as int).drop_first() =~= fs.skip(i as int + 1));
                assert(fs.skip(i as int)[0] == prepared_view(filters@[i as int]));
            }
            match filters[i].matches_attributes(dn, attributes) {
                Ok(false) => {},
                Ok(true) => return Ok(true),
                Err(e) => return Err(e),
            }
            i = i + 1;
        }
        Ok(false)
    }
}

/// The entry matches the filter of a search request under a schema.
pub fn matches_search_filter_with_schema(
    entry: &DirectoryEntry,
    filter: &SearchFilter,
    sch: &LdapSchema,
) -> (r: Result<bool, FilterSchemaError>)
    ensures
        verdict(r) == (match prepared(*sch, compiled(*filter)) {
            Ok(p) => evaluated(p, entry.dn@, entry.attributes@),
            Err(e) => Err(e),
        }),
{
    match prepare_search_filter_with_schema(sch, filter) {
        Ok(p) => p.matches_entry(entry),
        Err(e) => Err(e),
    }
}

// ---------------------------------------------------------------------------
// Evaluating a filter under a schema without preparing it
// ---------------------------------------------------------------------------

/// A value of the list is the assertion as the rule compares them.
pub open spec fn rule_equals(values: Seq<Seq<char>>, assertion: Seq<char>, rule: RuleView) -> Verdict
    decreases values.len(),
{
    if values.len() == 0 {
        Ok(false)
    } else {
        match (filter_value(rule, values[0]), filter_value(rule, assertion)) {
            (Err(e), _) => Err(e),
            (Ok(_), Err(e)) => Err(e),
            (Ok(a), Ok(b)) => if a == b {
                Ok(true)
            } else {
                rule_equals(values.drop_first(), assertion, rule)
            },
        }
    }
}

/// A value of the list stands where the comparison with the assertion asks.
pub open spec fn rule_compares(
    values: Seq<Seq<char>>,
    assertion: Seq<char>,
    rule: RuleView,
    expectation: CompareExpectation,
) -> Verdict
    decreases values.len(),
{
    if values.len() == 0 {
        Ok(false)
    } else {
        match (filter_key(rule, values[0]), filter_key(rule, assertion)) {
            (Err(e), _) => Err(e),
            (Ok(_), Err(e)) => Err(e),
            (Ok(a), Ok(b)) => if key_meets(a, b, expectation) {
                Ok(true)
            } else {
                rule_compares(values.drop_first(), assertion, rule, expectation)
            },
        }
    }
}

/// A value of an attribute that the rule applies to is the assertion.
pub open spec fn rule_equals_in(
    sch: LdapSchema,
    attrs: directory::AttributeSeq,
    matching_rule: Seq<char>,
    assertion: Seq<char>,
    rule: RuleView,
) -> Verdict
    decreases attrs.len(),
{
    if attrs.len() == 0 {
        Ok(false)
    } else if schema::rule_applied(sch, matching_rule, attrs[0].0) is Err {
        rule_equals_in(sch, attrs.drop_first(), matching_rule, assertion, rule)
    } else {
        match rule_equals(attrs[0].1, assertion, rule) {
            Err(e) => Err(e),
            Ok(true) => Ok(true),
            Ok(false) => rule_equals_in(sch, attrs.drop_first(), matching_rule, assertion, rule),
        }
    }
}

/// What an extensible match comes to under a schema.
pub open spec fn extensible_schema_verdict(
    sch: LdapSchema,
    dn: Seq<char>,
    attrs: directory::AttributeSeq,
    attribute: Option<Seq<char>>,
    matching_rule: Option<Seq<char>>,
    assertion: Seq<char>,
    dn_attributes: bool,
) -> Verdict {
    match extensible_rule(sch, attribute, matching_rule) {
        Err(e) => Err(e),
        Ok((rule, _)) => {
            let in_attributes = match attribute {
                Some(a) => match string_map::lookup(attrs, a) {
                    Some(vs) => rule_equals(vs, assertion, rule),
                    None => Ok(false),
                },
                None => rule_equals_in(sch, attrs, matching_rule->0, assertion, rule),
            };
            or_else(
                in_attributes,
                if dn_attributes {
                    rule_equals(dn_values(dn, attribute), assertion, rule)
                } else {
                    Ok(false)
                },
            )
        },
    }
}

/// What a filter comes to under a schema for the entry with that DN and those
/// attributes.
pub open spec fn schema_evaluated(
    sch: LdapSchema,
    f: FilterView,
    dn: Seq<char>,
    attrs: directory::AttributeSeq,
) -> Verdict
    decreases f, 0nat,
{
    match f {
        FilterView::And(fs) => schema_evaluated_all(sch, fs, dn, attrs),
        FilterView::Or(fs) => schema_evaluated_any(sch, fs, dn, attrs),
        FilterView::Not(g) => match schema_evaluated(sch, *g, dn, attrs) {
            Ok(b) => Ok(!b),
            Err(e) => Err(e),
        },
        FilterView::Equality { attribute, value } => match usable(
            schema::rule_for(sch, attribute, RuleUse::Equality),
        ) {
            Err(e) => Err(e),
            Ok(rule) => match string_map::lookup(attrs, attribute) {
                Some(vs) => rule_equals(vs, value, rule),
                None => Ok(false),
            },
        },
        FilterView::Substrings { attribute, parts } => match usable(
            schema::rule_for(sch, attribute, RuleUse::Substring),
        ) {
            Err(e) => Err(e),
            Ok(rule) => match filter_parts(rule, parts) {
                Err(e) => Err(e),
                Ok(ps) => match string_map::lookup(attrs, attribute) {
                    Some(vs) => rule_fits(vs, ps, rule),
                    None => Ok(false),
                },
            },
        },
        FilterView::GreaterOrEqual { attribute, value } => match usable(
            schema::rule_for(sch, attribute, RuleUse::Order),
        ) {
            Err(e) => Err(e),
            Ok(rule) => match string_map::lookup(attrs, attribute) {
                Some(vs) => rule_compares(vs, value, rule, CompareExpectation::Ge),
                None => Ok(false),
            },
        },
        FilterView::LessOrEqual { attribute, value } => match usable(
            schema::rule_for(sch, attribute, RuleUse::Order),
        ) {
            Err(e) => Err(e),
            Ok(rule) => match string_map::lookup(attrs, attribute) {
                Some(vs) => rule_compares(vs, value, rule, CompareExpectation::Le),
                None => Ok(false),
            },
        },
        FilterView::Present { attribute } => if schema::attribute_type(sch, attribute) is Some {
            Ok(string_map::lookup(attrs, attribute) is Some)
        } else {
            Err(FilterErrorView::UndefinedAttribute(attribute))
        },
        FilterView::ApproxMatch { attribute, value } => if schema::attribute_type(
            sch,
            attribute,
        ) is Some {
            Err(no_approximation(attribute))
        } else {
            Err(FilterErrorView::UndefinedAttribute(attribute))
        },
        FilterView::Extensible { attribute, matching_rule, value, dn_attributes } =>
            extensible_schema_verdict(
            sch,
            dn,
            attrs,
            attribute,
            matching_rule,
            value,
            dn_attributes,
        ),
    }
}

/// What a conjunction comes to under a schema.
pub open spec fn schema_evaluated_all(
    sch: LdapSchema,
    fs: Seq<FilterView>,
    dn: Seq<char>,
    attrs: directory::AttributeSeq,
) -> Verdict
    decreases fs, 1nat,
{
    if fs.len() == 0 {
        Ok(true)
    } else {
        match schema_evaluated(sch, fs[0], dn, attrs) {
            Ok(true) => schema_evaluated_all(sch, fs.drop_first(), dn, attrs),
            v => v,
        }
    }
}

/// What a disjunction comes to under a schema.
pub open spec fn schema_evaluated_any(
    sch: LdapSchema,
    fs: Seq<FilterView>,
    dn: Seq<char>,
    attrs: directory::AttributeSeq,
) -> Verdict
    decreases fs, 1nat,
{
    if fs.len() == 0 {
        Ok(false)
    } else {
        match schema_evaluated(sch, fs[0], dn, attrs) {
            Ok(false) => schema_evaluated_any(sch, fs.drop_first(), dn, attrs),
            v => v,
        }
    }
}

fn values_match_rule(values: &Vec<String>, assertion: &str, rule: &ResolvedMatchingRule) -> (r:
    Result<bool, FilterSchemaError>)
    ensures
        verdict(r) == rule_equals(text::texts(values@), assertion@, rule@),
{
    let ghost vs = text::texts(values@);
    let mut i: usize = 0;
    proof {
        assert(vs.skip(0) =~= vs);
    }
    while i < values.len()
        invariant
            i <= values@.len(),
            vs == text::texts(values@),
            rule_equals(vs, assertion@, rule@) == rule_equals(
                vs.skip(i as int),
                assertion@,
                rule@,
            ),
        decreases values@.len() - i,
    {
        proof {
            assert(vs.skip(i as int).drop_first() =~= vs.skip(i as int + 1));
            assert(vs.skip(i as int)[0] == values@[i as int]@);
        }
        match rule.values_equal(values[i].as_str(), assertion) {
            Ok(true) => return Ok(true),
            Ok(false) => {},
            Err(e) => return Err(FilterSchemaError::from(e)),
        }
        i = i + 1;
    }
    Ok(false)
}

fn values_against_rule(
    values: &Vec<String>,
    assertion: &str,
    rule: &ResolvedMatchingRule,
    expectation: CompareExpectation,
) -> (r: Result<bool, FilterSchemaError>)
    ensures
        verdict(r) == rule_compares(text::texts(values@), assertion@, rule@, expectation),
{
    let ghost vs = text::texts(values@);
    let mut i: usize = 0;
    proof {
        assert(vs.skip(0) =~= vs);
    }
    while i < values.len()
        invariant
            i <= values@.len(),
            vs == text::texts(values@),
            rule_compares(vs, assertion@, rule@, expectation) == rule_compares(
                vs.skip(i as int),
                assertion@,
                rule@,
                expectation,
            ),
        decreases values@.len() - i,
    {
        proof {
            assert(vs.skip(i as int).drop_first() =~= vs.skip(i as int + 1));
            assert(vs.skip(i as int)[0] == values@[i as int]@);
        }
        let key = match keyed(rule, values[i].as_str()) {
            Ok(key) => key,
            Err(e) => return Err(e),
        };
        let wanted = match keyed(rule, assertion) {
            Ok(key) => key,
            Err(e) => return Err(e),
        };
        let met = match expectation {
            CompareExpectation::Ge => !text::is_less(key.as_str(), wanted.as_str()),
            CompareExpectation::Le => !text::is_less(wanted.as_str(), key.as_str()),
        };
        if met {
            return Ok(true);
        }
        i = i + 1;
    }
    Ok(false)
}

fn equals_in_attributes(
    sch: &LdapSchema,
    attributes: &Attributes,
    matching_rule: &str,
    assertion: &str,
    rule: &ResolvedMatchingRule,
) -> (r: Result<bool, FilterSchemaError>)
    ensures
        verdict(r) == rule_equals_in(*sch, attributes@, matching_rule@, assertion@, rule@),
{
    let ghost attrs = attributes@;
    let n = attributes.len();
    let mut i: usize = 0;
    proof {
        assert(attrs.skip(0) =~= attrs);
    }
    while i < n
        invariant
            n == attributes@.len(),
            i <= n,
            attrs == attributes@,
            rule_equals_in(*sch, attrs, matching_rule@, assertion@, rule@) == rule_equals_in(
                *sch,
                attrs.skip(i as int),
                matching_rule@,
                assertion@,
                rule@,
            ),
        decreases n - i,
    {
        proof {
            assert(attrs.skip(i as int).drop_first() =~= attrs.skip(i as int + 1));
            assert(attrs.skip(i as int)[0] == attrs[i as int]);
        }
        let e = attributes.entry(i);
        if sch.matching_rule_applies_to_attribute(matching_rule, e.0.as_str()).is_ok() {
            match values_match_rule(e.1, assertion, rule) {
                Ok(true) => return Ok(true),
                Ok(false) => {},
                Err(e) => return Err(e),
            }
        }
        i = i + 1;
    }
    Ok(false)
}

fn matches_extensible_with_schema(
    sch: &LdapSchema,
    dn: &str,
    attributes: &Attributes,
    attribute: &Option<String>,
    matching_rule: &Option<String>,
    assertion: &str,
    dn_attributes: bool,
) -> (r: Result<bool, FilterSchemaError>)
    ensures
        verdict(r) == extensible_schema_verdict(
            *sch,
            dn@,
            attributes@,
            text::option_text(*attribute),
            text::option_text(*matching_rule),
            assertion@,
            dn_attributes,
        ),
{
    let (rule, _) = match prepare_extensible(sch, attribute, matching_rule) {
        Ok(p) => p,
        Err(e) => return Err(e),
    };
    let found = match attribute {
        Some(a) => match attributes.get(a.as_str()) {
            Some(values) => values_match_rule(values, assertion, &rule),
            None => Ok(false),
        },
        None => match matching_rule {
            Some(m) => equals_in_attributes(sch, attributes, m.as_str(), assertion, &rule),
            None => Ok(false),
        },
    };
    match found {
        Ok(false) => if dn_attributes {
            values_match_rule(&dn_attribute_values(dn, as_str_option(attribute)), assertion, &rule)
        } else {
            Ok(false)
        },
        Ok(true) => Ok(true),
        Err(e) => Err(e),
    }
}

impl CompiledLdapFilter {
    /// The directory entry matches the filter under the schema.
    pub fn matches_with_schema(&self, entry: &DirectoryEntry, sch: &LdapSchema) -> (r: Result<
        bool,
        FilterSchemaError,
    >)
        ensures
            verdict(r) == schema_evaluated(
                *sch,
                filter_view(*self),
                entry.dn@,
                entry.attributes@,
            ),
    {
        self.matches_attributes_with_schema(sch, entry.dn.as_str(), &entry.attributes)
    }

    /// The entry with that DN and those attributes matches the filter under
    /// the schema.
    pub fn matches_attributes_with_schema(
        &self,
        sch: &LdapSchema,
        dn: &str,
        attributes: &Attributes,
    ) -> (r: Result<bool, FilterSchemaError>)
        ensures
            verdict(r) == schema_evaluated(*sch, filter_view(*self), dn@, attributes@),
        decreases self, 0nat,
    {
        proof {
            view_of_list(*self);
        }
        match self {
            CompiledLdapFilter::And(fs) => Self::all_match_with_schema(fs, sch, dn, attributes),
            CompiledLdapFilter::Or(fs) => Self::any_matches_with_schema(fs, sch, dn, attributes),
            CompiledLdapFilter::Not(g) => match g.matches_attributes_with_schema(
                sch,
                dn,
                attributes,
            ) {
                Ok(b) => Ok(!b),
                Err(e) => Err(e),
            },
            CompiledLdapFilter::Equality { attribute, value } => {
                let rule = match usable_rule(sch.equality_rule_for_attribute(attribute.as_str())) {
                    Ok(rule) => rule,
                    Err(e) => return Err(e),
                };
                match attributes.get(attribute.as_str()) {
                    Some(values) => values_match_rule(values, value.as_str(), &rule),
                    None => Ok(false),
                }
            },
            CompiledLdapFilter::Substrings { attribute, parts } => {
                let rule = match usable_rule(sch.substring_rule_for_attribute(attribute.as_str())) {
                    Ok(rule) => rule,
                    Err(e) => return Err(e),
                };
                let normalized_parts = match normalize_substring_parts(parts, &rule) {
                    Ok(ps) => ps,
                    Err(e) => return Err(e),
                };
                match attributes.get(attribute.as_str()) {
                    Some(values) => matches_substrings_with_rule(values, &normalized_parts, &rule),
                    None => Ok(false),
                }
            },
            CompiledLdapFilter::GreaterOrEqual { attribute, value } => {
                let rule = match usable_rule(sch.ordering_rule_for_attribute(attribute.as_str())) {
                    Ok(rule) => rule,
                    Err(e) => return Err(e),
                };
                match attributes.get(attribute.as_str()) {
                    Some(values) => values_against_rule(
                        values,
                        value.as_str(),
                        &rule,
                        CompareExpectation::Ge,
                    ),
                    None => Ok(false),
                }
            },
            CompiledLdapFilter::LessOrEqual { attribute, value } => {
                let rule = match usable_rule(sch.ordering_rule_for_attribute(attribute.as_str())) {
                    Ok(rule) => rule,
                    Err(e) => return Err(e),
                };
                match attributes.get(attribute.as_str()) {
                    Some(values) => values_against_rule(
                        values,
                        value.as_str(),
                        &rule,
                        CompareExpectation::Le,
                    ),
                    None => Ok(false),
                }
            },
            CompiledLdapFilter::Present { attribute } => match known_attribute(
                sch,
                attribute.as_str(),
            ) {
                Ok(_) => Ok(attributes.contains_key(attribute.as_str())),
                Err(e) => Err(e),
            },
            CompiledLdapFilter::ApproxMatch { attribute, value: _ } => match known_attribute(
                sch,
                attribute.as_str(),
            ) {
                Ok(_) => Err(approximation_error(attribute.as_str())),
                Err(e) => Err(e),
            },
            CompiledLdapFilter::Extensible { attribute, matching_rule, value, dn_attributes } =>
                matches_extensible_with_schema(
                sch,
                dn,
                attributes,
                attribute,
                matching_rule,
                value.as_str(),
                *dn_attributes,
            ),
        }
    }

    fn all_match_with_schema(
        filters: &Vec<CompiledLdapFilter>,
        sch: &LdapSchema,
        dn: &str,
        attributes: &Attributes,
    ) -> (r: Result<bool, FilterSchemaError>)
        ensures
            verdict(r) == schema_evaluated_all(*sch, filter_views(filters@), dn@, attributes@),
        decreases filters, 1nat,
    {
        let ghost fs = filter_views(filters@);
        let mut i: usize = 0;
        proof {
            assert(fs.skip(0) =~= fs);
        }
        while i < filters.len()
            invariant
                i <= filters@.len(),
                fs == filter_views(filters@),
                schema_evaluated_all(*sch, fs, dn@, attributes@) == schema_evaluated_all(
                    *sch,
                    fs.skip(i as int),
                    dn@,
                    attributes@,
                ),
            decreases filters@.len() - i,
        {
            proof {
                assert(fs.skip(i as int).drop_first() =~= fs.skip(i as int + 1));
                assert(fs.skip(i as int)[0] == filter_view(filters@[i as int]));
            }
            match filters[i].matches_attributes_with_schema(sch, dn, attributes) {
                Ok(true) => {},
                Ok(false) => return Ok(false),
                Err(e) => return Err(e),
            }
            i = i + 1;
        }
        Ok(true)
    }

    fn any_matches_with_schema(
        filters: &Vec<CompiledLdapFilter>,
        sch: &LdapSchema,
        dn: &str,
        attributes: &Attributes,
    ) -> (r: Result<bool, FilterSchemaError>)
        ensures
            verdict(r) == schema_evaluated_any(*sch, filter_views(filters@), dn@, attributes@),
        decreases filters, 1nat,
    {
        let ghost fs = filter_views(filters@);
        let mut i: usize = 0;
        proof {
            assert(fs.skip(0) =~= fs);
        }
        while i < filters.len()
            invariant
                i <= filters@.len(),
                fs == filter_views(filters@),
                schema_evaluated_any(*sch, fs, dn@, attributes@) == schema_evaluated_any(
                    *sch,
                    fs.skip(i as int),
                    dn@,
                    attributes@,
                ),
            decreases filters@.len() - i,
        {
            proof {
                assert(fs.skip(i as int).drop_first() =~= fs.skip(i as int + 1));
                assert(fs.skip(i as int)[0] == filter_view(filters@[i as int]));
            }
            match filters[i].matches_attributes_with_schema(sch, dn, attributes) {
                Ok(false) => {},
                Ok(true) => return Ok(true),
                Err(e) => return Err(e),
            }
            i = i + 1;
        }
        Ok(false)
    }
}

// ---------------------------------------------------------------------------
// Admitting filters and assertions
// ---------------------------------------------------------------------------

/// The schema admits the filter, or why it does not.
pub open spec fn admitted(sch: LdapSchema, f: FilterView) -> Result<(), FilterErrorView>
    decreases f, 0nat,
{
    match f {
        FilterView::And(fs) => admitted_all(sch, fs),
        FilterView::Or(fs) => admitted_all(sch, fs),
        FilterView::Not(g) => admitted(sch, *g),
        FilterView::Equality { attribute, value } => match usable(
            schema::rule_for(sch, attribute, RuleUse::Equality),
        ) {
            Err(e) => Err(e),
            Ok(rule) => match filter_value(rule, value) {
                Err(e) => Err(e),
                Ok(_) => Ok(()),
            },
        },
        FilterView::Substrings { attribute, parts } => match usable(
            schema::rule_for(sch, attribute, RuleUse::Substring),
        ) {
            Err(e) => Err(e),
            Ok(rule) => match filter_parts(rule, parts) {
                Err(e) => Err(e),
                Ok(_) => Ok(()),
            },
        },
        FilterView::GreaterOrEqual { attribute, value } => admitted_order(sch, attribute, value),
        FilterView::LessOrEqual { attribute, value } => admitted_order(sch, attribute, value),
        FilterView::Present { attribute } => if schema::attribute_type(sch, attribute) is Some {
            Ok(())
        } else {
            Err(FilterErrorView::UndefinedAttribute(attribute))
        },
        FilterView::ApproxMatch { attribute, value } => if schema::attribute_type(
            sch,
            attribute,
        ) is Some {
            Err(no_approximation(attribute))
        } else {
            Err(FilterErrorView::UndefinedAttribute(attribute))
        },
        FilterView::Extensible { attribute, matching_rule, value, dn_attributes } =>
            match extensible_rule(sch, attribute, matching_rule) {
            Err(e) => Err(e),
            Ok((rule, _)) => match filter_value(rule, value) {
                Err(e) => Err(e),
                Ok(_) => Ok(()),
            },
        },
    }
}

/// The schema admits an ordering comparison.
pub open spec fn admitted_order(sch: LdapSchema, attribute: Seq<char>, value: Seq<char>) -> Result<
    (),
    FilterErrorView,
> {
    match usable(schema::rule_for(sch, attribute, RuleUse::Order)) {
        Err(e) => Err(e),
        Ok(rule) => match filter_key(rule, value) {
            Err(e) => Err(e),
            Ok(_) => Ok(()),
        },
    }
}

/// The schema admits the filters, or the first error.
pub open spec fn admitted_all(sch: LdapSchema, fs: Seq<FilterView>) -> Result<(), FilterErrorView>
    decreases fs, 1nat,
{
    if fs.len() == 0 {
        Ok(())
    } else {
        match admitted(sch, fs[0]) {
            Err(e) => Err(e),
            Ok(_) => admitted_all(sch, fs.drop_first()),
        }
    }
}

/// What a result of a validation says.
pub open spec fn unit_result(r: Result<(), FilterSchemaError>) -> Result<(), FilterErrorView> {
    match r {
        Ok(_) => Ok(()),
        Err(e) => Err(e@),
    }
}

impl CompiledLdapFilter {
    /// The schema admits the filter.
    pub fn validate_with_schema(&self, sch: &LdapSchema) -> (r: Result<(), FilterSchemaError>)
        ensures
            unit_result(r) == admitted(*sch, filter_view(*self)),
        decreases self, 0nat,
    {
        proof {
            view_of_list(*self);
        }
        match self {
            CompiledLdapFilter::And(fs) => Self::validate_all(fs, sch),
            CompiledLdapFilter::Or(fs) => Self::validate_all(fs, sch),
            CompiledLdapFilter::Not(g) => g.validate_with_schema(sch),
            CompiledLdapFilter::Equality { attribute, value } => {
                let rule = match usable_rule(sch.equality_rule_for_attribute(attribute.as_str())) {
                    Ok(rule) => rule,
                    Err(e) => return Err(e),
                };
                match normalized(&rule, value.as_str()) {
                    Ok(_) => Ok(()),
                    Err(e) => Err(e),
                }
            },
            CompiledLdapFilter::Substrings { attribute, parts } => {
                let rule = match usable_rule(sch.substring_rule_for_attribute(attribute.as_str())) {
                    Ok(rule) => rule,
                    Err(e) => return Err(e),
                };
                match normalize_substring_parts(parts, &rule) {
                    Ok(_) => Ok(()),
                    Err(e) => Err(e),
                }
            },
            CompiledLdapFilter::GreaterOrEqual { attribute, value }
            | CompiledLdapFilter::LessOrEqual { attribute, value } => {
                let rule = match usable_rule(sch.ordering_rule_for_attribute(attribute.as_str())) {
                    Ok(rule) => rule,
                    Err(e) => return Err(e),
                };
                match keyed(&rule, value.as_str()) {
                    Ok(_) => Ok(()),
                    Err(e) => Err(e),
                }
            },
            CompiledLdapFilter::Present { attribute } => known_attribute(sch, attribute.as_str()),
            CompiledLdapFilter::ApproxMatch { attribute, value: _ } => match known_attribute(
                sch,
                attribute.as_str(),
            ) {
                Ok(_) => Err(approximation_error(attribute.as_str())),
                Err(e) => Err(e),
            },
            CompiledLdapFilter::Extensible { attribute, matching_rule, value, dn_attributes: _ } => {
                let (rule, _) = match prepare_extensible(sch, attribute, matching_rule) {
                    Ok(p) => p,
                    Err(e) => return Err(e),
                };
                match normalized(&rule, value.as_str()) {
                    Ok(_) => Ok(()),
                    Err(e) => Err(e),
                }
            },
        }
    }

    fn validate_all(filters: &Vec<CompiledLdapFilter>, sch: &LdapSchema) -> (r: Result<
        (),
        FilterSchemaError,
    >)
        ensures
            unit_result(r) == admitted_all(*sch, filter_views(filters@)),
        decreases filters, 1nat,
    {
        let ghost fs = filter_views(filters@);
        let mut i: usize = 0;
        proof {
            assert(fs.skip(0) =~= fs);
        }
        while i < filters.len()
            invariant
                i <= filters@.len(),
                fs == filter_views(filters@),
                admitted_all(*sch, fs) == admitted_all(*sch, fs.skip(i as int)),
            decreases filters@.len() - i,
        {
            proof {
                assert(fs.skip(i as int).drop_first() =~= fs.skip(i as int + 1));
                assert(fs.skip(i as int)[0] == filter_view(filters@[i as int]));
            }
            match filters[i].validate_with_schema(sch) {
                Ok(_) => {},
                Err(e) => return Err(e),
            }
            i = i + 1;
        }
        Ok(())
    }
}

/// The schema admits an assertion about an attribute, or why it does not.
pub open spec fn admitted_assertion(
    sch: LdapSchema,
    attribute: Seq<char>,
    assertion: Seq<char>,
) -> Result<RuleView, FilterErrorView> {
    match usable(schema::rule_for(sch, attribute, RuleUse::Equality)) {
        Err(e) => Err(e),
        Ok(rule) => match filter_value(rule, assertion) {
            Err(e) => Err(e),
            Ok(_) => Ok(rule),
        },
    }
}

/// The schema admits an assertion about an attribute.
pub fn validate_compare_assertion(sch: &LdapSchema, attribute: &str, assertion: &str) -> (r: Result<
    (),
    FilterSchemaError,
>)
    ensures
        match r {
            Ok(_) => admitted_assertion(*sch, attribute@, assertion@) is Ok,
            Err(e) => admitted_assertion(*sch, attribute@, assertion@) == Err::<
                RuleView,
                FilterErrorView,
            >(e@),
        },
{
    let rule = match usable_rule(sch.equality_rule_for_attribute(attribute)) {
        Ok(rule) => rule,
        Err(e) => return Err(e),
    };
    match normalized(&rule, assertion) {
        Ok(_) => Ok(()),
        Err(e) => Err(e),
    }
}

/// What a comparison of an attribute with an assertion comes to.
pub open spec fn compare_verdict(
    sch: LdapSchema,
    attrs: directory::AttributeSeq,
    attribute: Seq<char>,
    assertion: Seq<char>,
) -> Verdict {
    if schema::attribute_type(sch, attribute) is None {
        Err(FilterErrorView::UndefinedAttribute(attribute))
    } else {
        match string_map::lookup(attrs, text::lower(attribute)) {
            None => Ok(false),
            Some(vs) => match admitted_assertion(sch, attribute, assertion) {
                Err(e) => Err(e),
                Ok(rule) => rule_equals(vs, assertion, rule),
            },
        }
    }
}

/// The attribute has the asserted value under the schema. Attributes are
/// found under their names in lower case; the DN plays no part.
pub fn compare_attribute_with_schema(
    sch: &LdapSchema,
    _dn: &str,
    attributes: &Attributes,
    attribute: &str,
    assertion: &str,
) -> (r: Result<bool, FilterSchemaError>)
    ensures
        verdict(r) == compare_verdict(*sch, attributes@, attribute@, assertion@),
{
    match known_attribute(sch, attribute) {
        Ok(_) => {},
        Err(e) => return Err(e),
    }
    let key = text::lowercase(attribute);
    let values = match attributes.get(key.as_str()) {
        Some(values) => values,
        None => return Ok(false),
    };
    match validate_compare_assertion(sch, attribute, assertion) {
        Ok(_) => {},
        Err(e) => return Err(e),
    }
    let rule = match usable_rule(sch.equality_rule_for_attribute(attribute)) {
        Ok(rule) => rule,
        Err(e) => return Err(e),
    };
    values_match_rule(values, assertion, &rule)
}

// ---------------------------------------------------------------------------
// Changes of the directory
// ---------------------------------------------------------------------------

/// What a change does to an entry.
#[derive(Debug, Clone, Copy, PartialEq, Eq, Structural)]
pub enum ChangeType {
    Add,
    Modify,
    Delete,
    Rename,
}

/// A change as the log holds it; the payload is an entry or a rename in the
/// log's own format.
#[derive(Debug)]
pub struct ChangelogEntry {
    pub change_type: ChangeType,
    pub dn: String,
    pub change_data: Vec<u8>,
}

/// A change of an entry's name.
#[derive(Debug)]
pub struct RenameChange {
    pub new_rdn: String,
    pub delete_old: bool,
    pub new_superior: Option<String>,
}

/// The payload of a change, read from the log's format; where it could not be
/// read, the reader's words for it.
#[derive(Debug)]
pub enum ChangePayload {
    Unread,
    Entry(Result<DirectoryEntry, String>),
    Rename(Result<RenameChange, String>),
}

/// How the payload of a change is to be read.
#[derive(Debug, Clone, Copy, PartialEq, Eq, Structural)]
pub enum PayloadKind {
    Unread,
    Entry,
    Rename,
}

/// A change ready to be held against a search base and a filter.
#[derive(Debug)]
pub struct PreparedChange {
    pub change_type: ChangeType,
    pub scope_dns: Vec<String>,
    pub entry: Option<DirectoryEntry>,
    pub dn: String,
}

/// The word for a kind of change.
pub open spec fn change_label(t: ChangeType) -> Seq<char> {
    match t {
        ChangeType::Add => "add"@,
        ChangeType::Modify => "modify"@,
        ChangeType::Delete => "delete"@,
        ChangeType::Rename => "rename"@,
    }
}

fn change_type_label(change_type: ChangeType) -> (r: &'static str)
    ensures
        r@ == change_label(change_type),
{
    match change_type {
        ChangeType::Add => "add",
        ChangeType::Modify => "modify",
        ChangeType::Delete => "delete",
        ChangeType::Rename => "rename",
    }
}

/// How the payload of a change is to be read, if it is wanted.
pub open spec fn wanted_payload(change_type: ChangeType, require_entry_snapshot: bool) -> PayloadKind {
    match change_type {
        ChangeType::Rename => PayloadKind::Rename,
        _ => if require_entry_snapshot {
            PayloadKind::Entry
        } else {
            PayloadKind::Unread
        },
    }
}

/// How the payload of a change is to be read; a change that should carry an
/// entry and carries nothing is refused.
pub fn payload_kind(change: &ChangelogEntry, require_entry_snapshot: bool) -> (r: Result<
    PayloadKind,
    String,
>)
    ensures
        match r {
            Ok(k) => k == wanted_payload(change.change_type, require_entry_snapshot) && (k
                == PayloadKind::Entry ==> change.change_data@.len() > 0),
            Err(e) => wanted_payload(change.change_type, require_entry_snapshot)
                == PayloadKind::Entry && change.change_data@.len() == 0 && e@ == change_label(
                change.change_type,
            ) + " change for "@ + change.dn@ + " is missing change_data"@,
        },
{
    match change.change_type {
        ChangeType::Rename => Ok(PayloadKind::Rename),
        _ => if require_entry_snapshot {
            if change.change_data.len() == 0 {
                let mut message = change_type_label(change.change_type).to_owned();
                message.append(" change for ");
                message.append(change.dn.as_str());
                message.append(" is missing change_data");
                Err(message)
            } else {
                Ok(PayloadKind::Entry)
            }
        } else {
            Ok(PayloadKind::Unread)
        },
    }
}

/// The kind of a payload.
pub open spec fn kind_of(p: ChangePayload) -> PayloadKind {
    match p {
        ChangePayload::Unread => PayloadKind::Unread,
        ChangePayload::Entry(_) => PayloadKind::Entry,
        ChangePayload::Rename(_) => PayloadKind::Rename,
    }
}

/// The DN of an entry after a rename: under the new superior where there is
/// one, else where it was.
pub open spec fn renamed(dn: Seq<char>, new_rdn: Seq<char>, superior: Option<Seq<char>>) -> Seq<
    char,
> {
    match superior {
        Some(s) => new_rdn + ","@ + s,
        None => match text::cut(dn, ',') {
            Some((_, rest)) => new_rdn + ","@ + rest,
            None => new_rdn,
        },
    }
}

fn rename_target_dn(dn: &str, new_rdn: &str, new_superior: Option<&str>) -> (r: String)
    ensures
        r@ == renamed(dn@, new_rdn@, option_str(new_superior)),
{
    let mut out = new_rdn.to_owned();
    match new_superior {
        Some(s) => {
            out.append(",");
            out.append(s);
        },
        None => {
            if let Some(pair) = text::split_once(dn, ',') {
                out.append(",");
                out.append(pair.1.as_str());
            }
        },
    }
    out
}

/// The change made ready: `payload` is the change's payload, read as
/// [`payload_kind`] asks.
pub fn prepare_change(
    change: &ChangelogEntry,
    require_entry_snapshot: bool,
    payload: ChangePayload,
) -> (r: Result<PreparedChange, String>)
    requires
        kind_of(payload) == wanted_payload(change.change_type, require_entry_snapshot),
    ensures
        match payload {
            ChangePayload::Unread => r matches Ok(p) && p.change_type == change.change_type
                && p.dn@ == change.dn@ && text::texts(p.scope_dns@) == seq![change.dn@]
                && p.entry is None,
            ChangePayload::Entry(Ok(e)) => r matches Ok(p) && p.change_type == change.change_type
                && p.dn@ == change.dn@ && text::texts(p.scope_dns@) == seq![change.dn@] && p.entry
                == Some(e),
            ChangePayload::Entry(Err(m)) => r matches Err(e) && e@ == "failed to deserialize "@
                + change_label(change.change_type) + " change snapshot for "@ + change.dn@ + ": "@
                + m@,
            ChangePayload::Rename(Ok(n)) => r matches Ok(p) && p.change_type == ChangeType::Rename
                && p.dn@ == change.dn@ && text::texts(p.scope_dns@) == seq![
                change.dn@,
                renamed(change.dn@, n.new_rdn@, text::option_text(n.new_superior)),
            ] && p.entry is None,
            ChangePayload::Rename(Err(m)) => r matches Err(e) && e@
                == "invalid rename change payload for "@ + change.dn@ + ": "@ + m@,
        },
{
    match payload {
        ChangePayload::Unread => {
            let mut scope_dns: Vec<String> = Vec::new();
            scope_dns.push(change.dn.clone());
            proof {
                assert(text::texts(scope_dns@) =~= seq![change.dn@]);
            }
            Ok(
                PreparedChange {
                    change_type: change.change_type,
                    scope_dns,
                    entry: None,
                    dn: change.dn.clone(),
                },
            )
        },
        ChangePayload::Entry(Ok(entry)) => {
            let mut scope_dns: Vec<String> = Vec::new();
            scope_dns.push(change.dn.clone());
            proof {
                assert(text::texts(scope_dns@) =~= seq![change.dn@]);
            }
            Ok(
                PreparedChange {
                    change_type: change.change_type,
                    scope_dns,
                    entry: Some(entry),
                    dn: change.dn.clone(),
                },
            )
        },
        ChangePayload::Entry(Err(reason)) => {
            let mut message = "failed to deserialize ".to_owned();
            message.append(change_type_label(change.change_type));
            message.append(" change snapshot for ");
            message.append(change.dn.as_str());
            message.append(": ");
            message.append(reason.as_str());
            Err(message)
        },
        ChangePayload::Rename(Ok(rename)) => {
            let target = rename_target_dn(
                change.dn.as_str(),
                rename.new_rdn.as_str(),
                as_str_option(&rename.new_superior),
            );
            let mut scope_dns: Vec<String> = Vec::new();
            scope_dns.push(change.dn.clone());
            scope_dns.push(target);
            proof {
                assert(text::texts(scope_dns@) =~= seq![
                    change.dn@,
                    renamed(change.dn@, rename.new_rdn@, text::option_text(rename.new_superior)),
                ]);
            }
            Ok(
                PreparedChange {
                    change_type: ChangeType::Rename,
                    scope_dns,
                    entry: None,
                    dn: change.dn.clone(),
                },
            )
        },
        ChangePayload::Rename(Err(reason)) => {
            let mut message = "invalid rename change payload for ".to_owned();
            message.append(change.dn.as_str());
            message.append(": ");
            message.append(reason.as_str());
            Err(message)
        },
    }
}

// ---------------------------------------------------------------------------
// Scope
// ---------------------------------------------------------------------------

/// The first text, in lower case, is longer than the second and ends with it.
pub open spec fn longer_ending(dn: Seq<char>, base: Seq<char>) -> bool {
    text::ends_with(dn, base) && dn.len() > base.len()
}

/// The character before the ending `base` of `dn`.
pub open spec fn char_before(dn: Seq<char>, base: Seq<char>) -> char {
    dn[dn.len() - base.len() - 1]
}

/// The DN is the base or stands below it: in lower case it ends with a comma
/// and the base.
pub open spec fn in_scope(dn: Seq<char>, base: Seq<char>) -> bool {
    let d = text::unicode_lower(dn);
    let b = text::unicode_lower(base);
    dn == base || (longer_ending(d, b) && char_before(d, b) == ',')
}

/// The character before the base is one byte long, so that it can be cut out
/// of the DN's bytes.
pub open spec fn scope_known(dn: Seq<char>, base: Seq<char>) -> bool {
    let d = text::unicode_lower(dn);
    let b = text::unicode_lower(base);
    dn == base || (longer_ending(d, b) ==> (char_before(d, b) as u32) < 0x80)
}

/// The two DNs in lower case: the first is the second or stands below it,
/// where the character before the second is one byte long.
pub fn lowered_scope(dn_lower: &str, base_dn_lower: &str) -> (r: Option<bool>)
    ensures
        match r {
            Some(b) => b == (longer_ending(dn_lower@, base_dn_lower@) && char_before(
                dn_lower@,
                base_dn_lower@,
            ) == ',') && (longer_ending(dn_lower@, base_dn_lower@) ==> (char_before(
                dn_lower@,
                base_dn_lower@,
            ) as u32) < 0x80),
            None => longer_ending(dn_lower@, base_dn_lower@) && (char_before(
                dn_lower@,
                base_dn_lower@,
            ) as u32) >= 0x80,
        },
{
    if !text::has_suffix(dn_lower, base_dn_lower) {
        return Some(false);
    }
    let d = text::chars_of(dn_lower);
    let b = text::chars_of(base_dn_lower);
    if d.len() == b.len() {
        return Some(false);
    }
    let c = d[d.len() - b.len() - 1];
    if (c as u32) < 0x80 {
        Some(c == ',')
    } else {
        None
    }
}

/// The DN is the base or stands below it.
pub fn is_dn_in_scope(dn: &str, base_dn: &str) -> (r: bool)
    requires
        scope_known(dn@, base_dn@),
    ensures
        r == in_scope(dn@, base_dn@),
{
    if text::same(dn, base_dn) {
        return true;
    }
    let d = text::unicode_lowercase(dn);
    let b = text::unicode_lowercase(base_dn);
    match lowered_scope(d.as_str(), b.as_str()) {
        Some(below) => below,
        None => false,
    }
}

/// Whether the DN is the base or stands below it, where the character before
/// the base is one byte long.
pub fn dn_scope(dn: &str, base_dn: &str) -> (r: Option<bool>)
    ensures
        r == (if scope_known(dn@, base_dn@) {
            Some(in_scope(dn@, base_dn@))
        } else {
            None
        }),
{
    let d = text::unicode_lowercase(dn);
    let b = text::unicode_lowercase(base_dn);
    if text::same(dn, base_dn) || lowered_scope(d.as_str(), b.as_str()).is_some() {
        Some(is_dn_in_scope(dn, base_dn))
    } else {
        None
    }
}

/// A DN of the list is in the scope of the base.
pub open spec fn any_in_scope(dns: Seq<Seq<char>>, base: Seq<char>) -> bool {
    exists|i: int| 0 <= i < dns.len() && in_scope(#[trigger] dns[i], base)
}

/// The scope of each DN up to the first that is in it can be told.
pub open spec fn scopes_known(dns: Seq<Seq<char>>, base: Seq<char>) -> bool
    decreases dns.len(),
{
    dns.len() == 0 || (scope_known(dns[0], base) && (in_scope(dns[0], base) || scopes_known(
        dns.drop_first(),
        base,
    )))
}

fn any_dn_in_scope(dns: &Vec<String>, base_dn: &str) -> (r: Option<bool>)
    ensures
        r == (if scopes_known(text::texts(dns@), base_dn@) {
            Some(any_in_scope(text::texts(dns@), base_dn@))
        } else {
            None
        }),
{
    let ghost ts = text::texts(dns@);
    let mut i: usize = 0;
    proof {
        assert(ts.skip(0) =~= ts);
    }
    while i < dns.len()
        invariant
            i <= dns@.len(),
            ts == text::texts(dns@),
            scopes_known(ts, base_dn@) == scopes_known(ts.skip(i as int), base_dn@),
            forall|j: int| 0 <= j < i ==> !in_scope(#[trigger] ts[j], base_dn@),
        decreases dns@.len() - i,
    {
        proof {
            assert(ts.skip(i as int).drop_first() =~= ts.skip(i as int + 1));
            assert(ts.skip(i as int)[0] == dns@[i as int]@);
            assert(ts[i as int] == dns@[i as int]@);
        }
        match dn_scope(dns[i].as_str(), base_dn) {
            Some(true) => return Some(true),
            Some(false) => {},
            None => return None,
        }
        i = i + 1;
    }
    Some(false)
}

/// What a change comes to for a search base and a filter.
pub open spec fn change_verdict(
    c: PreparedChange,
    base: Seq<char>,
    filter: Option<FilterView>,
) -> Result<bool, Seq<char>> {
    if !any_in_scope(text::texts(c.scope_dns@), base) {
        Ok(false)
    } else {
        match filter {
            None => Ok(true),
            Some(f) => if c.change_type == ChangeType::Rename {
                Err(
                    "rename change for "@ + c.dn@
                        + " cannot evaluate attribute filters without an entry snapshot"@,
                )
            } else {
                match c.entry {
                    Some(e) => Ok(satisfies(f, e.dn@, e.attributes@)),
                    None => Err(
                        change_label(c.change_type) + " change for "@ + c.dn@
                            + " is missing an entry snapshot for filter evaluation"@,
                    ),
                }
            },
        }
    }
}

/// What an optional filter says.
pub open spec fn option_filter(f: Option<&CompiledLdapFilter>) -> Option<FilterView> {
    match f {
        Some(f) => Some(filter_view(*f)),
        None => None,
    }
}

impl PreparedChange {
    /// The change concerns a search with that base and filter.
    pub fn matches(&self, base_dn: &str, filter: Option<&CompiledLdapFilter>) -> (r: Result<
        bool,
        String,
    >)
        requires
            scopes_known(text::texts(self.scope_dns@), base_dn@),
        ensures
            match r {
                Ok(b) => change_verdict(*self, base_dn@, option_filter(filter)) == Ok::<
                    bool,
                    Seq<char>,
                >(b),
                Err(e) => change_verdict(*self, base_dn@, option_filter(filter)) == Err::<
                    bool,
                    Seq<char>,
                >(e@),
            },
    {
        match any_dn_in_scope(&self.scope_dns, base_dn) {
            Some(true) => {},
            _ => return Ok(false),
        }
        let filter = match filter {
            None => return Ok(true),
            Some(f) => f,
        };
        match self.change_type {
            ChangeType::Rename => {
                let mut message = "rename change for ".to_owned();
                message.append(self.dn.as_str());
                message.append(" cannot evaluate attribute filters without an entry snapshot");
                Err(message)
            },
            _ => match &self.entry {
                Some(entry) => Ok(filter.matches(entry)),
                None => {
                    let mut message = change_type_label(self.change_type).to_owned();
                    message.append(" change for ");
                    message.append(self.dn.as_str());
                    message.append(" is missing an entry snapshot for filter evaluation");
                    Err(message)
                },
            },
        }
    }

    /// Whether the change concerns a search with that base and filter, where
    /// the scope of its DNs can be told.
    pub fn checked_matches(&self, base_dn: &str, filter: Option<&CompiledLdapFilter>) -> (r: Option<
        Result<bool, String>,
    >)
        ensures
            match r {
                Some(Ok(b)) => change_verdict(*self, base_dn@, option_filter(filter)) == Ok::<
                    bool,
                    Seq<char>,
                >(b),
                Some(Err(e)) => change_verdict(*self, base_dn@, option_filter(filter)) == Err::<
                    bool,
                    Seq<char>,
                >(e@),
                None => !scopes_known(text::texts(self.scope_dns@), base_dn@),
            },
            r is Some <==> scopes_known(text::texts(self.scope_dns@), base_dn@),
    {
        match any_dn_in_scope(&self.scope_dns, base_dn) {
            Some(_) => Some(self.matches(base_dn, filter)),
            None => None,
        }
    }
}

// ---------------------------------------------------------------------------
// Laws
// ---------------------------------------------------------------------------

/// The rules that run over all attributes reach the same attributes of the
/// entry whether their names are looked up one by one or in the list that was
/// made when the filter was prepared.
pub open spec fn rules_reach(sch: LdapSchema, f: FilterView, attrs: directory::AttributeSeq) -> bool
    decreases f,
{
    match f {
        FilterView::And(fs) => forall|i: int|
            0 <= i < fs.len() ==> rules_reach(sch, #[trigger] fs[i], attrs),
        FilterView::Or(fs) => forall|i: int|
            0 <= i < fs.len() ==> rules_reach(sch, #[trigger] fs[i], attrs),
        FilterView::Not(g) => rules_reach(sch, *g, attrs),
        FilterView::Extensible { attribute: None, matching_rule: Some(r), value, dn_attributes } =>
            forall|i: int|
            0 <= i < attrs.len() ==> applicable_names(sch, r, sch.attribute_types@).contains(
                (#[trigger] attrs[i]).0,
            ) == (schema::rule_applied(sch, r, attrs[i].0) is Ok),
        _ => true,
    }
}

proof fn finds_is_equals(values: Seq<Seq<char>>, assertion: Seq<char>, rule: RuleView)
    requires
        filter_value(rule, assertion) is Ok,
    ensures
        rule_finds(values, filter_value(rule, assertion)->Ok_0, rule) == rule_equals(
            values,
            assertion,
            rule,
        ),
    decreases values.len(),
{
    if values.len() > 0 {
        finds_is_equals(values.drop_first(), assertion, rule);
    }
}

proof fn orders_is_compares(
    values: Seq<Seq<char>>,
    assertion: Seq<char>,
    rule: RuleView,
    expectation: CompareExpectation,
)
    requires
        filter_key(rule, assertion) is Ok,
    ensures
        rule_orders(values, filter_key(rule, assertion)->Ok_0, rule, expectation) == rule_compares(
            values,
            assertion,
            rule,
            expectation,
        ),
    decreases values.len(),
{
    if values.len() > 0 {
        orders_is_compares(values.drop_first(), assertion, rule, expectation);
    }
}

proof fn finds_in_is_equals_in(
    sch: LdapSchema,
    attrs: directory::AttributeSeq,
    matching_rule: Seq<char>,
    assertion: Seq<char>,
    rule: RuleView,
)
    requires
        filter_value(rule, assertion) is Ok,
        forall|i: int|
            0 <= i < attrs.len() ==> applicable_names(
                sch,
                matching_rule,
                sch.attribute_types@,
            ).contains((#[trigger] attrs[i]).0) == (schema::rule_applied(
                sch,
                matching_rule,
                attrs[i].0,
            ) is Ok),
    ensures
        rule_finds_in(
            attrs,
            Some(applicable_names(sch, matching_rule, sch.attribute_types@)),
            filter_value(rule, assertion)->Ok_0,
            rule,
        ) == rule_equals_in(sch, attrs, matching_rule, assertion, rule),
    decreases attrs.len(),
{
    if attrs.len() > 0 {
        let t = attrs.drop_first();
        assert forall|i: int| 0 <= i < t.len() implies applicable_names(
            sch,
            matching_rule,
            sch.attribute_types@,
        ).contains((#[trigger] t[i]).0) == (schema::rule_applied(
            sch,
            matching_rule,
            t[i].0,
        ) is Ok) by {
            assert(t[i] == attrs[i + 1]);
        }
        assert(attrs[0] == attrs[0]);
        finds_in_is_equals_in(sch, t, matching_rule, assertion, rule);
        finds_is_equals(attrs[0].1, assertion, rule);
    }
}

/// A filter that has been prepared comes to the same as the filter itself
/// under the schema that it was prepared with.
pub proof fn prepared_filter_evaluates_alike(
    sch: LdapSchema,
    f: FilterView,
    dn: Seq<char>,
    attrs: directory::AttributeSeq,
)
    requires
        prepared(sch, f) is Ok,
        rules_reach(sch, f, attrs),
    ensures
        evaluated(prepared(sch, f)->Ok_0, dn, attrs) == schema_evaluated(sch, f, dn, attrs),
    decreases f, 0nat,
{
    match f {
        FilterView::And(fs) => {
            prepared_filters_evaluate_alike(sch, fs, dn, attrs);
        },
        FilterView::Or(fs) => {
            prepared_filters_evaluate_alike(sch, fs, dn, attrs);
        },
        FilterView::Not(g) => {
            prepared_filter_evaluates_alike(sch, *g, dn, attrs);
        },
        FilterView::Equality { attribute, value } => {
            let rule = usable(schema::rule_for(sch, attribute, RuleUse::Equality))->Ok_0;
            if let Some(vs) = string_map::lookup(attrs, attribute) {
                finds_is_equals(vs, value, rule);
            }
        },
        FilterView::GreaterOrEqual { attribute, value } => {
            let rule = usable(schema::rule_for(sch, attribute, RuleUse::Order))->Ok_0;
            if let Some(vs) = string_map::lookup(attrs, attribute) {
                orders_is_compares(vs, value, rule, CompareExpectation::Ge);
            }
        },
        FilterView::LessOrEqual { attribute, value } => {
            let rule = usable(schema::rule_for(sch, attribute, RuleUse::Order))->Ok_0;
            if let Some(vs) = string_map::lookup(attrs, attribute) {
                orders_is_compares(vs, value, rule, CompareExpectation::Le);
            }
        },
        FilterView::Extensible { attribute, matching_rule, value, dn_attributes } => {
            let rule = extensible_rule(sch, attribute, matching_rule)->Ok_0.0;
            finds_is_equals(dn_values(dn, attribute), value, rule);
            match attribute {
                Some(a) => {
                    if let Some(vs) = string_map::lookup(attrs, a) {
                        finds_is_equals(vs, value, rule);
                    }
                },
                None => {
                    finds_in_is_equals_in(sch, attrs, matching_rule->0, value, rule);
                },
            }
        },
        _ => {},
    }
}

proof fn prepared_filters_evaluate_alike(
    sch: LdapSchema,
    fs: Seq<FilterView>,
    dn: Seq<char>,
    attrs: directory::AttributeSeq,
)
    requires
        prepared_all(sch, fs) is Ok,
        forall|i: int| 0 <= i < fs.len() ==> rules_reach(sch, #[trigger] fs[i], attrs),
    ensures
        evaluated_all(prepared_all(sch, fs)->Ok_0, dn, attrs) == schema_evaluated_all(
            sch,
            fs,
            dn,
            attrs,
        ),
        evaluated_any(prepared_all(sch, fs)->Ok_0, dn, attrs) == schema_evaluated_any(
            sch,
            fs,
            dn,
            attrs,
        ),
    decreases fs, 1nat,
{
    if fs.len() > 0 {
        let t = fs.drop_first();
        assert(rules_reach(sch, fs[0], attrs));
        assert forall|i: int| 0 <= i < t.len() implies rules_reach(sch, #[trigger] t[i], attrs) by {
            assert(t[i] == fs[i + 1]);
        }
        prepared_filter_evaluates_alike(sch, fs[0], dn, attrs);
        prepared_filters_evaluate_alike(sch, t, dn, attrs);
        let ps = prepared_all(sch, fs)->Ok_0;
        assert(ps.drop_first() =~= prepared_all(sch, t)->Ok_0);
    }
}

/// Every name of every attribute type leads back to that type.
pub open spec fn names_lead_back(sch: LdapSchema) -> bool {
    forall|i: int, k: int|
        #![trigger type_names(sch.attribute_types@[i])[k]]
        0 <= i < sch.attribute_types@.len() && 0 <= k < type_names(sch.attribute_types@[i]).len()
            ==> schema::type_place(
            sch.attribute_types@,
            type_names(sch.attribute_types@[i])[k],
        ) == i
}

proof fn called_by_own_names(t: schema::AttributeType, name: Seq<char>)
    ensures
        schema::is_called(t.oid@, t.names@, name) <==> type_names(t).contains(text::lower(name)),
{
    let ns = type_names(t);
    let l = text::lower(name);
    if schema::is_called(t.oid@, t.names@, name) {
        if text::lower(t.oid@) == l {
            assert(ns[0] == l);
        } else {
            let i = choose|i: int|
                0 <= i < t.names@.len() && text::lower(#[trigger] t.names@[i]@) == l;
            assert(ns[i + 1] == l);
        }
    }
    if ns.contains(l) {
        let k = choose|k: int| 0 <= k < ns.len() && ns[k] == l;
        if k > 0 {
            assert(text::lower(t.names@[k - 1]@) == l);
        }
    }
}

proof fn type_place_called(types: Seq<schema::AttributeType>, name: Seq<char>)
    ensures
        0 <= schema::type_place(types, name) <= types.len(),
        schema::type_place(types, name) < types.len() ==> schema::is_called(
            types[schema::type_place(types, name)].oid@,
            types[schema::type_place(types, name)].names@,
            name,
        ),
    decreases types.len(),
{
    if types.len() > 0 && !schema::is_called(types[0].oid@, types[0].names@, name) {
        type_place_called(types.drop_first(), name);
    }
}

proof fn type_place_lower(types: Seq<schema::AttributeType>, a: Seq<char>, b: Seq<char>)
    requires
        text::lower(a) == text::lower(b),
    ensures
        schema::type_place(types, a) == schema::type_place(types, b),
    decreases types.len(),
{
    if types.len() > 0 {
        type_place_lower(types.drop_first(), a, b);
    }
}

proof fn applicable_names_members(
    sch: LdapSchema,
    rule: Seq<char>,
    types: Seq<schema::AttributeType>,
    name: Seq<char>,
)
    ensures
        applicable_names(sch, rule, types).contains(name) <==> exists|i: int|
            0 <= i < types.len() && schema::rule_applied(sch, rule, (#[trigger] types[i]).oid@) is Ok
                && type_names(types[i]).contains(name),
    decreases types.len(),
{
    if types.len() > 0 {
        let front = types.drop_last();
        let last = types.last();
        applicable_names_members(sch, rule, front, name);
        let before = applicable_names(sch, rule, front);
        let all = applicable_names(sch, rule, types);
        if schema::rule_applied(sch, rule, last.oid@) is Ok {
            assert(all == before + type_names(last));
            if all.contains(name) {
                let k = choose|k: int| 0 <= k < all.len() && all[k] == name;
                if k < before.len() {
                    assert(before[k] == name);
                    assert(before.contains(name));
                    let i = choose|i: int|
                        0 <= i < front.len() && schema::rule_applied(
                            sch,
                            rule,
                            (#[trigger] front[i]).oid@,
                        ) is Ok && type_names(front[i]).contains(name);
                    assert(types[i] == front[i]);
                } else {
                    assert(type_names(last)[k - before.len()] == name);
                    assert(types[types.len() - 1] == last);
                }
            }
        }
        if exists|i: int|
            0 <= i < types.len() && schema::rule_applied(sch, rule, (#[trigger] types[i]).oid@) is Ok
                && type_names(types[i]).contains(name) {
            let i = choose|i: int|
                0 <= i < types.len() && schema::rule_applied(
                    sch,
                    rule,
                    (#[trigger] types[i]).oid@,
                ) is Ok && type_names(types[i]).contains(name);
            if i < front.len() {
                assert(front[i] == types[i]);
                assert(before.contains(name));
                let k = choose|k: int| 0 <= k < before.len() && before[k] == name;
                if schema::rule_applied(sch, rule, last.oid@) is Ok {
                    assert(all[k] == name);
                }
            } else {
                let k = choose|k: int| 0 <= k < type_names(last).len() && type_names(last)[k]
                    == name;
                assert(all[before.len() + k] == name);
            }
        }
        if all.contains(name) && schema::rule_applied(sch, rule, last.oid@) is Err {
            let i = choose|i: int|
                0 <= i < front.len() && schema::rule_applied(
                    sch,
                    rule,
                    (#[trigger] front[i]).oid@,
                ) is Ok && type_names(front[i]).contains(name);
            assert(types[i] == front[i]);
        }
    }
}

/// Where every name leads back to its type and the entry's attribute names
/// are in lower case, the rules reach the same attributes either way.
pub proof fn lower_case_names_are_reached(
    sch: LdapSchema,
    f: FilterView,
    attrs: directory::AttributeSeq,
)
    requires
        names_lead_back(sch),
        forall|i: int|
            0 <= i < attrs.len() ==> text::lower((#[trigger] attrs[i]).0) == attrs[i].0,
    ensures
        rules_reach(sch, f, attrs),
    decreases f,
{
    match f {
        FilterView::And(fs) => {
            assert forall|i: int| 0 <= i < fs.len() implies rules_reach(
                sch,
                #[trigger] fs[i],
                attrs,
            ) by {
                lower_case_names_are_reached(sch, fs[i], attrs);
            }
        },
        FilterView::Or(fs) => {
            assert forall|i: int| 0 <= i < fs.len() implies rules_reach(
                sch,
                #[trigger] fs[i],
                attrs,
            ) by {
                lower_case_names_are_reached(sch, fs[i], attrs);
            }
        },
        FilterView::Not(g) => {
            lower_case_names_are_reached(sch, *g, attrs);
        },
        FilterView::Extensible { attribute: None, matching_rule: Some(r), value, dn_attributes } => {
            let types = sch.attribute_types@;
            assert forall|i: int| 0 <= i < attrs.len() implies applicable_names(
                sch,
                r,
                types,
            ).contains((#[trigger] attrs[i]).0) == (schema::rule_applied(
                sch,
                r,
                attrs[i].0,
            ) is Ok) by {
                let key = attrs[i].0;
                applicable_names_members(sch, r, types, key);
                type_place_called(types, key);
                let p = schema::type_place(types, key);
                if p < types.len() {
                    let t = types[p];
                    called_by_own_names(t, key);
                    let own = type_names(t);
                    assert(own.contains(key));
                    assert(own[0] == text::lower(t.oid@));
                    text::lower_idempotent(t.oid@);
                    type_place_lower(types, t.oid@, own[0]);
                    assert(schema::type_place(types, t.oid@) == p);
                    assert((schema::rule_applied(sch, r, t.oid@) is Ok) == (schema::rule_applied(
                        sch,
                        r,
                        key,
                    ) is Ok));
                    assert(types[p] == t);
                }
                if applicable_names(sch, r, types).contains(key) {
                    let q = choose|q: int|
                        0 <= q < types.len() && schema::rule_applied(
                            sch,
                            r,
                            (#[trigger] types[q]).oid@,
                        ) is Ok && type_names(types[q]).contains(key);
                    let k = choose|k: int|
                        0 <= k < type_names(types[q]).len() && type_names(types[q])[k] == key;
                    assert(schema::type_place(types, type_names(types[q])[k]) == q);
                }
            }
        },
        _ => {},
    }
}

/// A schema admits exactly the filters that can be prepared under it, and
/// refuses the others with the same error.
pub proof fn validation_agrees_with_preparation(sch: LdapSchema, f: FilterView)
    ensures
        admitted(sch, f) == (match prepared(sch, f) {
            Ok(_) => Ok::<(), FilterErrorView>(()),
            Err(e) => Err(e),
        }),
    decreases f, 0nat,
{
    match f {
        FilterView::And(fs) => {
            validations_agree_with_preparations(sch, fs);
        },
        FilterView::Or(fs) => {
            validations_agree_with_preparations(sch, fs);
        },
        FilterView::Not(g) => {
            validation_agrees_with_preparation(sch, *g);
        },
        _ => {},
    }
}

proof fn validations_agree_with_preparations(sch: LdapSchema, fs: Seq<FilterView>)
    ensures
        admitted_all(sch, fs) == (match prepared_all(sch, fs) {
            Ok(_) => Ok::<(), FilterErrorView>(()),
            Err(e) => Err(e),
        }),
    decreases fs, 1nat,
{
    if fs.len() > 0 {
        validation_agrees_with_preparation(sch, fs[0]);
        validations_agree_with_preparations(sch, fs.drop_first());
    }
}

/// An entry is among those that the hint asks an index for.
pub open spec fn hint_covers(h: HintView, attrs: directory::AttributeSeq) -> bool {
    match h {
        HintView::Equality { attribute, value } => match string_map::lookup(attrs, attribute) {
            Some(vs) => vs.contains(value),
            None => false,
        },
        HintView::Present { attribute } => string_map::lookup(attrs, attribute) is Some,
        HintView::Substring { attribute, parts } => match string_map::lookup(attrs, attribute) {
            Some(vs) => pattern_found(vs, parts),
            None => false,
        },
        HintView::GreaterOrEqual { attribute, value } => match string_map::lookup(
            attrs,
            attribute,
        ) {
            Some(vs) => any_at_least(vs, value),
            None => false,
        },
        HintView::LessOrEqual { attribute, value } => match string_map::lookup(attrs, attribute) {
            Some(vs) => any_at_most(vs, value),
            None => false,
        },
    }
}

/// The hint comes from an approximate match, which asks for less than the
/// equality that it hints at.
pub open spec fn hint_is_approximate(f: FilterView) -> bool
    decreases f, 0nat,
{
    match f {
        FilterView::And(fs) => first_hint_is_approximate(fs),
        FilterView::ApproxMatch { attribute, value } => true,
        _ => false,
    }
}

/// The first hint of the list comes from an approximate match.
pub open spec fn first_hint_is_approximate(fs: Seq<FilterView>) -> bool
    decreases fs, 1nat,
{
    fs.len() > 0 && if filter_hint(fs[0]) is Some {
        hint_is_approximate(fs[0])
    } else {
        first_hint_is_approximate(fs.drop_first())
    }
}

/// Every entry that matches a filter is among those that the filter's hint
/// asks an index for, unless the hint comes from an approximate match.
pub proof fn hint_misses_no_match(f: FilterView, dn: Seq<char>, attrs: directory::AttributeSeq)
    requires
        satisfies(f, dn, attrs),
        filter_hint(f) is Some,
        !hint_is_approximate(f),
    ensures
        hint_covers(filter_hint(f)->0, attrs),
    decreases f, 0nat,
{
    if let FilterView::And(fs) = f {
        first_hint_misses_no_match(fs, dn, attrs);
    }
}

proof fn first_hint_misses_no_match(
    fs: Seq<FilterView>,
    dn: Seq<char>,
    attrs: directory::AttributeSeq,
)
    requires
        forall|i: int| 0 <= i < fs.len() ==> satisfies(#[trigger] fs[i], dn, attrs),
        first_hint(fs) is Some,
        !first_hint_is_approximate(fs),
    ensures
        hint_covers(first_hint(fs)->0, attrs),
    decreases fs, 1nat,
{
    if fs.len() > 0 {
        assert(satisfies(fs[0], dn, attrs));
        if filter_hint(fs[0]) is Some {
            hint_misses_no_match(fs[0], dn, attrs);
        } else {
            let t = fs.drop_first();
            assert forall|i: int| 0 <= i < t.len() implies satisfies(
                #[trigger] t[i],
                dn,
                attrs,
            ) by {
                assert(t[i] == fs[i + 1]);
            }
            first_hint_misses_no_match(t, dn, attrs);
        }
    }
}

/// An entry is among those that the hint asks an index for, where the index
/// takes values that differ only in case to be equal.
pub open spec fn hint_covers_any_case(h: HintView, attrs: directory::AttributeSeq) -> bool {
    match h {
        HintView::Equality { attribute, value } => match string_map::lookup(attrs, attribute) {
            Some(vs) => any_like(vs, value),
            None => false,
        },
        _ => hint_covers(h, attrs),
    }
}

/// Every entry that matches a filter is among those that the filter's hint
/// asks an index for, where the index takes values that differ only in case to
/// be equal.
pub proof fn hint_misses_no_match_in_any_case(
    f: FilterView,
    dn: Seq<char>,
    attrs: directory::AttributeSeq,
)
    requires
        satisfies(f, dn, attrs),
        filter_hint(f) is Some,
    ensures
        hint_covers_any_case(filter_hint(f)->0, attrs),
    decreases f, 0nat,
{
    match f {
        FilterView::And(fs) => {
            first_hint_misses_no_match_in_any_case(fs, dn, attrs);
        },
        FilterView::Equality { attribute, value } => {
            let vs = string_map::lookup(attrs, attribute)->0;
            let i = choose|i: int| 0 <= i < vs.len() && vs[i] == value;
            assert(text::lower(vs[i]) == text::lower(value));
        },
        _ => {},
    }
}

proof fn first_hint_misses_no_match_in_any_case(
    fs: Seq<FilterView>,
    dn: Seq<char>,
    attrs: directory::AttributeSeq,
)
    requires
        forall|i: int| 0 <= i < fs.len() ==> satisfies(#[trigger] fs[i], dn, attrs),
        first_hint(fs) is Some,
    ensures
        hint_covers_any_case(first_hint(fs)->0, attrs),
    decreases fs, 1nat,
{
    if fs.len() > 0 {
        assert(satisfies(fs[0], dn, attrs));
        if filter_hint(fs[0]) is Some {
            hint_misses_no_match_in_any_case(fs[0], dn, attrs);
        } else {
            let t = fs.drop_first();
            assert forall|i: int| 0 <= i < t.len() implies satisfies(
                #[trigger] t[i],
                dn,
                attrs,
            ) by {
                assert(t[i] == fs[i + 1]);
            }
            first_hint_misses_no_match_in_any_case(t, dn, attrs);
        }
    }
}

/// The pieces can be laid into the value one after the other, at any places.
pub open spec fn pattern_can_be_laid(value: Seq<char>, parts: Seq<PartView>) -> bool
    decreases parts.len(),
{
    if parts.len() == 0 {
        true
    } else {
        match parts[0] {
            PartView::Initial(s) => text::starts_with(value, s) && pattern_can_be_laid(
                value.skip(s.len() as int),
                parts.drop_first(),
            ),
            PartView::Any(s) => exists|i: int|
                #![trigger value.skip(i)]
                0 <= i && i + s.len() <= value.len() && text::starts_with(value.skip(i), s)
                    && pattern_can_be_laid(value.skip(i + s.len()), parts.drop_first()),
            PartView::Final(s) => text::ends_with(value, s),
        }
    }
}

/// No piece but perhaps the first must stand at the value's start.
pub open spec fn initial_only_first(parts: Seq<PartView>) -> bool {
    forall|i: int| 0 < i < parts.len() ==> !(#[trigger] parts[i] is Initial)
}

spec fn no_initial(parts: Seq<PartView>) -> bool {
    forall|i: int| 0 <= i < parts.len() ==> !(#[trigger] parts[i] is Initial)
}

proof fn no_initial_tail(parts: Seq<PartView>)
    requires
        parts.len() > 0,
        initial_only_first(parts),
    ensures
        no_initial(parts.drop_first()),
        initial_only_first(parts.drop_first()),
{
    let t = parts.drop_first();
    assert forall|i: int| 0 <= i < t.len() implies !(#[trigger] t[i] is Initial) by {
        assert(t[i] == parts[i + 1]);
    }
}

proof fn laid_in_more(value: Seq<char>, k: int, parts: Seq<PartView>)
    requires
        0 <= k <= value.len(),
        no_initial(parts),
        pattern_can_be_laid(value.skip(k), parts),
    ensures
        pattern_can_be_laid(value, parts),
    decreases parts.len(),
{
    if parts.len() > 0 {
        assert(!(parts[0] is Initial));
        let v = value.skip(k);
        match parts[0] {
            PartView::Initial(_) => {},
            PartView::Any(s) => {
                let i = choose|i: int|
                    #![trigger v.skip(i)]
                    0 <= i && i + s.len() <= v.len() && text::starts_with(v.skip(i), s)
                        && pattern_can_be_laid(v.skip(i + s.len()), parts.drop_first());
                assert(v.skip(i) =~= value.skip(i + k));
                assert(v.skip(i + s.len()) =~= value.skip(i + k + s.len()));
            },
            PartView::Final(s) => {
                assert(v.skip(v.len() - s.len()) =~= value.skip(value.len() - s.len()));
            },
        }
    }
}

proof fn find_is_first(s: Seq<char>, p: Seq<char>, j: int)
    requires
        0 <= j <= s.len(),
        text::starts_with(s.skip(j), p),
    ensures
        text::find(s, p) matches Some(i) && i <= j,
    decreases s.len(),
{
    if !text::starts_with(s, p) {
        if j == 0 {
            assert(s.skip(0) =~= s);
        }
        assert(s.drop_first().skip(j - 1) =~= s.skip(j));
        find_is_first(s.drop_first(), p, j - 1);
    }
}

/// Looking for each piece at the first place that is left finds a match
/// whenever there is one.
pub proof fn pattern_fits_where_it_can_be_laid(value: Seq<char>, parts: Seq<PartView>)
    requires
        initial_only_first(parts),
    ensures
        pattern_fits(value, parts) == pattern_can_be_laid(value, parts),
    decreases parts.len(),
{
    if parts.len() > 0 {
        no_initial_tail(parts);
        let t = parts.drop_first();
        match parts[0] {
            PartView::Initial(s) => {
                pattern_fits_where_it_can_be_laid(value.skip(s.len() as int), t);
            },
            PartView::Any(s) => {
                if s.len() == 0 {
                    pattern_fits_where_it_can_be_laid(value, t);
                    assert(value.skip(0) =~= value);
                    assert(text::starts_with(value.skip(0), s)) by {
                        assert(value.take(0) =~= s);
                    }
                    if pattern_can_be_laid(value, parts) {
                        let i = choose|i: int|
                            #![trigger value.skip(i)]
                            0 <= i && i + s.len() <= value.len() && text::starts_with(
                                value.skip(i),
                                s,
                            ) && pattern_can_be_laid(value.skip(i + s.len()), t);
                        laid_in_more(value, i, t);
                    }
                } else {
                    text::find_bounds(value, s);
                    if let Some(f) = text::find(value, s) {
                        pattern_fits_where_it_can_be_laid(value.skip(f + s.len()), t);
                        assert(value.skip(f).take(s.len() as int) =~= value.subrange(
                            f,
                            f + s.len(),
                        ));
                    }
                    if pattern_can_be_laid(value, parts) {
                        let i = choose|i: int|
                            #![trigger value.skip(i)]
                            0 <= i && i + s.len() <= value.len() && text::starts_with(
                                value.skip(i),
                                s,
                            ) && pattern_can_be_laid(value.skip(i + s.len()), t);
                        find_is_first(value, s, i);
                        let f = text::find(value, s)->0;
                        assert(value.skip(f + s.len()).skip(i - f) =~= value.skip(i + s.len()));
                        laid_in_more(value.skip(f + s.len()), i - f, t);
                    }
                }
            },
            PartView::Final(_) => {},
        }
    }
}

/// A DN is in its own scope, and in no scope but its own and those of the DNs
/// that its lower case ends with after a comma.
pub proof fn scope_of_dn(dn: Seq<char>, base: Seq<char>)
    ensures
        in_scope(dn, dn),
        in_scope(dn, base) && dn != base ==> text::unicode_lower(dn).len() > text::unicode_lower(
            base,
        ).len(),
{
}

} // verus!
