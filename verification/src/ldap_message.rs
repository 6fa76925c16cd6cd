//! Messages of the protocol: how they are cut out of the bytes that come in,
//! and the requests that they hold.

use ldap_parser::filter as outside_filter;
use ldap_parser::filter::Filter;
use ldap_parser::ldap as outside;
use vstd::prelude::*;

use crate::directory;
use crate::directory::{AttributeSeq, Attributes};
use crate::fsm_bind::{AuthenticationChoice, BindRequest};
use crate::fsm_extended::ExtendedRequest;
use crate::fsm_server::ProtocolOp;
use crate::fsm_write::{AddRequest, CompareRequest, DeleteRequest, ModDnRequest, ModifyRequest};
use crate::ldap_controls;
use crate::ldap_controls::{ControlView, LdapControl, RequestControls};
use crate::ldap_filter_eval::{SearchFilter, SearchSubstring};
use crate::response::{FsmResponseKind, RequestHead, ResponseOp};
use crate::search_request::SearchRequest;
use crate::string_map;
use crate::text;

verus! {

// ---------------------------------------------------------------------------
// What a message holds
// ---------------------------------------------------------------------------

/// A request to bind, as it was sent.
#[derive(Debug)]
pub struct BindBody {
    pub version: u8,
    pub name: String,
    pub authentication: AuthenticationChoice,
}

/// A request to search, as it was sent.
#[derive(Debug)]
pub struct SearchBody {
    pub base: String,
    pub scope: u32,
    pub deref_aliases: u32,
    pub size_limit: u32,
    pub time_limit: u32,
    pub types_only: bool,
    pub filter: SearchFilter,
    pub attributes: Vec<String>,
}

/// An attribute with its values, as it was sent.
#[derive(Debug)]
pub struct SentAttribute {
    pub name: String,
    pub values: Vec<Vec<u8>>,
}

/// A change to an attribute, as it was sent: zero adds, one deletes, two
/// replaces.
#[derive(Debug)]
pub struct SentChange {
    pub operation: u32,
    pub attribute: SentAttribute,
}

/// A request to rename an entry, as it was sent.
#[derive(Debug)]
pub struct ModDnBody {
    pub name: String,
    pub new_rdn: String,
    pub delete_old: bool,
    pub new_superior: Option<String>,
}

/// A request to compare a value, as it was sent.
#[derive(Debug)]
pub struct CompareBody {
    pub name: String,
    pub attribute: String,
    pub value: Vec<u8>,
}

/// What a message asks for, as it was sent.
#[derive(Debug)]
#[allow(inconsistent_fields)]
pub enum RequestBody {
    Bind(BindBody),
    Unbind,
    Search(SearchBody),
    Modify { name: String, changes: Vec<SentChange> },
    Add { name: String, attributes: Vec<SentAttribute> },
    Delete(String),
    ModDn(ModDnBody),
    Compare(CompareBody),
    Abandon(u32),
    Extended { oid: String, value: Option<Vec<u8>> },
    /// A message that asks for nothing.
    Other,
}

/// A message of the protocol.
#[derive(Debug)]
pub struct LdapRequest {
    pub message_id: u32,
    pub op: RequestBody,
    pub controls: Vec<LdapControl>,
}

// ---------------------------------------------------------------------------
// What that says
// ---------------------------------------------------------------------------

/// The bytes of each value.
pub open spec fn byte_strings(values: Seq<Vec<u8>>) -> Seq<Seq<u8>> {
    values.map_values(|v: Vec<u8>| v@)
}

/// What an [`AuthenticationChoice`] says.
#[allow(inconsistent_fields)]
pub enum SentAuthentication {
    Simple(Seq<u8>),
    Sasl { mechanism: Seq<char>, credentials: Option<Seq<u8>> },
}

/// What an authentication says.
pub open spec fn sent_authentication(a: AuthenticationChoice) -> SentAuthentication {
    match a {
        AuthenticationChoice::Simple(password) => SentAuthentication::Simple(password@),
        AuthenticationChoice::Sasl { mechanism, credentials } => SentAuthentication::Sasl {
            mechanism: mechanism@,
            credentials: ldap_controls::option_bytes(credentials),
        },
    }
}

/// What a piece of a pattern says.
pub enum SentPiece {
    Initial(Seq<u8>),
    Any(Seq<u8>),
    Final(Seq<u8>),
}

/// What a piece of a pattern says.
pub open spec fn sent_piece(p: SearchSubstring) -> SentPiece {
    match p {
        SearchSubstring::Initial(b) => SentPiece::Initial(b@),
        SearchSubstring::Any(b) => SentPiece::Any(b@),
        SearchSubstring::Final(b) => SentPiece::Final(b@),
    }
}

/// What the filter of a search says, before it is evaluated in any way.
#[allow(inconsistent_fields)]
pub enum SentFilter {
    And(Seq<SentFilter>),
    Or(Seq<SentFilter>),
    Not(Box<SentFilter>),
    EqualityMatch { attribute: Seq<char>, value: Seq<u8> },
    Substrings { attribute: Seq<char>, substrings: Seq<SentPiece> },
    GreaterOrEqual { attribute: Seq<char>, value: Seq<u8> },
    LessOrEqual { attribute: Seq<char>, value: Seq<u8> },
    Present { attribute: Seq<char> },
    ApproxMatch { attribute: Seq<char>, value: Seq<u8> },
    ExtensibleMatch {
        rule_type: Option<Seq<char>>,
        matching_rule: Option<Seq<char>>,
        value: Seq<u8>,
        dn_attributes: Option<bool>,
    },
}

/// What the filter of a search says.
pub open spec fn sent_filter(f: SearchFilter) -> SentFilter
    decreases f,
{
    match f {
        SearchFilter::And(fs) => SentFilter::And(
            Seq::new(
                fs@.len(),
                |i: int|
                    if 0 <= i < fs@.len() {
                        sent_filter(fs@[i])
                    } else {
                        arbitrary()
                    },
            ),
        ),
        SearchFilter::Or(fs) => SentFilter::Or(
            Seq::new(
                fs@.len(),
                |i: int|
                    if 0 <= i < fs@.len() {
                        sent_filter(fs@[i])
                    } else {
                        arbitrary()
                    },
            ),
        ),
        SearchFilter::Not(g) => SentFilter::Not(Box::new(sent_filter(*g))),
        SearchFilter::EqualityMatch { attribute, value } => SentFilter::EqualityMatch {
            attribute: attribute@,
            value: value@,
        },
        SearchFilter::Substrings { attribute, substrings } => SentFilter::Substrings {
            attribute: attribute@,
            substrings: substrings@.map_values(|p: SearchSubstring| sent_piece(p)),
        },
        SearchFilter::GreaterOrEqual { attribute, value } => SentFilter::GreaterOrEqual {
            attribute: attribute@,
            value: value@,
        },
        SearchFilter::LessOrEqual { attribute, value } => SentFilter::LessOrEqual {
            attribute: attribute@,
            value: value@,
        },
        SearchFilter::Present { attribute } => SentFilter::Present { attribute: attribute@ },
        SearchFilter::ApproxMatch { attribute, value } => SentFilter::ApproxMatch {
            attribute: attribute@,
            value: value@,
        },
        SearchFilter::ExtensibleMatch { rule_type, matching_rule, value, dn_attributes } =>
            SentFilter::ExtensibleMatch {
            rule_type: text::option_text(rule_type),
            matching_rule: text::option_text(matching_rule),
            value: value@,
            dn_attributes,
        },
    }
}

/// What a [`BindBody`] says.
pub struct BindBodyView {
    pub version: u8,
    pub name: Seq<char>,
    pub authentication: SentAuthentication,
}

impl View for BindBody {
    type V = BindBodyView;

    open spec fn view(&self) -> BindBodyView {
        BindBodyView {
            version: self.version,
            name: self.name@,
            authentication: sent_authentication(self.authentication),
        }
    }
}

/// What a [`SearchBody`] says.
pub struct SearchBodyView {
    pub base: Seq<char>,
    pub scope: u32,
    pub deref_aliases: u32,
    pub size_limit: u32,
    pub time_limit: u32,
    pub types_only: bool,
    pub filter: SentFilter,
    pub attributes: Seq<Seq<char>>,
}

impl View for SearchBody {
    type V = SearchBodyView;

    open spec fn view(&self) -> SearchBodyView {
        SearchBodyView {
            base: self.base@,
            scope: self.scope,
            deref_aliases: self.deref_aliases,
            size_limit: self.size_limit,
            time_limit: self.time_limit,
            types_only: self.types_only,
            filter: sent_filter(self.filter),
            attributes: text::texts(self.attributes@),
        }
    }
}

/// What a [`SentAttribute`] says.
pub struct SentAttributeView {
    pub name: Seq<char>,
    pub values: Seq<Seq<u8>>,
}

impl View for SentAttribute {
    type V = SentAttributeView;

    open spec fn view(&self) -> SentAttributeView {
        SentAttributeView { name: self.name@, values: byte_strings(self.values@) }
    }
}

/// What a [`SentChange`] says.
pub struct SentChangeView {
    pub operation: u32,
    pub attribute: SentAttributeView,
}

impl View for SentChange {
    type V = SentChangeView;

    open spec fn view(&self) -> SentChangeView {
        SentChangeView { operation: self.operation, attribute: self.attribute@ }
    }
}

/// What a [`ModDnBody`] says.
pub struct ModDnBodyView {
    pub name: Seq<char>,
    pub new_rdn: Seq<char>,
    pub delete_old: bool,
    pub new_superior: Option<Seq<char>>,
}

impl View for ModDnBody {
    type V = ModDnBodyView;

    open spec fn view(&self) -> ModDnBodyView {
        ModDnBodyView {
            name: self.name@,
            new_rdn: self.new_rdn@,
            delete_old: self.delete_old,
            new_superior: text::option_text(self.new_superior),
        }
    }
}

/// What a [`CompareBody`] says.
pub struct CompareBodyView {
    pub name: Seq<char>,
    pub attribute: Seq<char>,
    pub value: Seq<u8>,
}

impl View for CompareBody {
    type V = CompareBodyView;

    open spec fn view(&self) -> CompareBodyView {
        CompareBodyView { name: self.name@, attribute: self.attribute@, value: self.value@ }
    }
}

/// What a [`RequestBody`] says.
#[allow(inconsistent_fields)]
pub enum RequestBodyView {
    Bind(BindBodyView),
    Unbind,
    Search(SearchBodyView),
    Modify { name: Seq<char>, changes: Seq<SentChangeView> },
    Add { name: Seq<char>, attributes: Seq<SentAttributeView> },
    Delete(Seq<char>),
    ModDn(ModDnBodyView),
    Compare(CompareBodyView),
    Abandon(u32),
    Extended { oid: Seq<char>, value: Option<Seq<u8>> },
    Other,
}

impl View for RequestBody {
    type V = RequestBodyView;

    open spec fn view(&self) -> RequestBodyView {
        match self {
            RequestBody::Bind(body) => RequestBodyView::Bind(body@),
            RequestBody::Unbind => RequestBodyView::Unbind,
            RequestBody::Search(body) => RequestBodyView::Search(body@),
            RequestBody::Modify { name, changes } => RequestBodyView::Modify {
                name: name@,
                changes: changes@.map_values(|c: SentChange| c@),
            },
            RequestBody::Add { name, attributes } => RequestBodyView::Add {
                name: name@,
                attributes: attributes@.map_values(|a: SentAttribute| a@),
            },
            RequestBody::Delete(name) => RequestBodyView::Delete(name@),
            RequestBody::ModDn(body) => RequestBodyView::ModDn(body@),
            RequestBody::Compare(body) => RequestBodyView::Compare(body@),
            RequestBody::Abandon(id) => RequestBodyView::Abandon(*id),
            RequestBody::Extended { oid, value } => RequestBodyView::Extended {
                oid: oid@,
                value: ldap_controls::option_bytes(*value),
            },
            RequestBody::Other => RequestBodyView::Other,
        }
    }
}

/// What an [`LdapRequest`] says.
pub struct LdapRequestView {
    pub message_id: u32,
    pub op: RequestBodyView,
    pub controls: Seq<ControlView>,
}

impl View for LdapRequest {
    type V = LdapRequestView;

    open spec fn view(&self) -> LdapRequestView {
        LdapRequestView {
            message_id: self.message_id,
            op: self.op@,
            controls: ldap_controls::control_views(self.controls@),
        }
    }
}

// ---------------------------------------------------------------------------
// Frames
// ---------------------------------------------------------------------------

/// What stands at the start of bytes that came in.
#[derive(Debug, Clone, Copy, PartialEq, Eq, Structural)]
pub enum Frame {
    /// A message of so many bytes.
    Whole(usize),
    /// A message that has not come in whole.
    Incomplete,
    /// No message: not a sequence, or one whose length is not written in at
    /// most four bytes.
    Malformed,
}

/// The number that bytes stand for, the highest first.
pub open spec fn number_of(bytes: Seq<u8>) -> nat
    decreases bytes.len(),
{
    if bytes.len() == 0 {
        0
    } else {
        number_of(bytes.drop_last()) * 256 + bytes.last() as nat
    }
}

/// The length of the message at the start of the bytes: `None` where it has
/// not come in, an error where there is no message.
pub open spec fn announced_length(bytes: Seq<u8>) -> Result<Option<nat>, ()> {
    if bytes.len() == 0 {
        Ok(None)
    } else if bytes[0] != 0x30 {
        Err(())
    } else if bytes.len() == 1 {
        Ok(None)
    } else if bytes[1] < 0x80 {
        Ok(Some(2 + bytes[1] as nat))
    } else if bytes[1] == 0x80 || bytes[1] > 0x84 {
        Err(())
    } else if bytes.len() < 2 + (bytes[1] - 0x80) {
        Ok(None)
    } else {
        Ok(Some((2 + (bytes[1] - 0x80) + number_of(bytes.subrange(2, 2 + (bytes[1] - 0x80)))) as nat))
    }
}

/// What stands at the start of bytes.
pub open spec fn frame_at(bytes: Seq<u8>) -> Frame {
    match announced_length(bytes) {
        Err(_) => Frame::Malformed,
        Ok(None) => Frame::Incomplete,
        Ok(Some(n)) => if n <= bytes.len() {
            Frame::Whole(n as usize)
        } else {
            Frame::Incomplete
        },
    }
}

/// What stands in the bytes from a place on.
fn frame_from(bytes: &Vec<u8>, start: usize) -> (r: Frame)
    requires
        start <= bytes@.len(),
    ensures
        r == frame_at(bytes@.skip(start as int)),
        r matches Frame::Whole(n) ==> 2 <= n <= bytes@.len() - start,
{
    let ghost rest = bytes@.skip(start as int);
    let size = bytes.len();
    let len = size - start;
    if len == 0 {
        return Frame::Incomplete;
    }
    if bytes[start] != 0x30 {
        return Frame::Malformed;
    }
    if len == 1 {
        return Frame::Incomplete;
    }
    let first = bytes[start + 1];
    proof {
        assert(rest[1] == first);
    }
    if first < 0x80 {
        let total = 2 + first as usize;
        return if total <= len {
            Frame::Whole(total)
        } else {
            Frame::Incomplete
        };
    }
    if first == 0x80 || first > 0x84 {
        return Frame::Malformed;
    }
    let count = (first - 0x80) as usize;
    if len < 2 + count {
        return Frame::Incomplete;
    }
    let ghost digits = rest.subrange(2, 2 + count as int);
    let mut value: u64 = 0;
    let mut i: usize = 0;
    proof {
        assert(digits.take(0) =~= Seq::<u8>::empty());
    }
    while i < count
        invariant
            start <= size,
            size == bytes@.len(),
            rest == bytes@.skip(start as int),
            len == rest.len(),
            2 + count <= len,
            count <= 4,
            digits == rest.subrange(2, 2 + count as int),
            i <= count,
            value == number_of(digits.take(i as int)),
            i == 0 ==> value == 0,
            i == 1 ==> value < 0x100,
            i == 2 ==> value < 0x1_0000,
            i == 3 ==> value < 0x100_0000,
            i == 4 ==> value < 0x1_0000_0000,
        decreases count - i,
    {
        proof {
            assert(digits.take(i + 1).drop_last() =~= digits.take(i as int));
            assert(digits.take(i + 1).last() == bytes@[start + 2 + i]);
        }
        value = value * 256 + bytes[start + 2 + i] as u64;
        i = i + 1;
    }
    proof {
        assert(digits.take(i as int) =~= digits);
    }
    let total: u64 = 2 + count as u64 + value;
    if total <= len as u64 {
        Frame::Whole(total as usize)
    } else {
        Frame::Incomplete
    }
}

/// What bytes come to: the messages that are whole, in their order, and the
/// bytes behind them; an error where no message can follow.
pub open spec fn framed(bytes: Seq<u8>) -> Result<(Seq<Seq<u8>>, Seq<u8>), ()>
    decreases bytes.len(),
{
    match frame_at(bytes) {
        Frame::Malformed => Err(()),
        Frame::Incomplete => Ok((Seq::empty(), bytes)),
        Frame::Whole(n) => if 0 < n <= bytes.len() {
            match framed(bytes.skip(n as int)) {
                Err(_) => Err(()),
                Ok((frames, rest)) => Ok((seq![bytes.take(n as int)] + frames, rest)),
            }
        } else {
            Err(())
        },
    }
}

/// The bytes that came in and are not yet a whole message.
#[derive(Debug)]
pub struct FrameDecoder {
    pub buffer: Vec<u8>,
}

fn part_of(bytes: &Vec<u8>, from: usize, to: usize) -> (r: Vec<u8>)
    requires
        from <= to <= bytes@.len(),
    ensures
        r@ == bytes@.subrange(from as int, to as int),
{
    let mut out: Vec<u8> = Vec::new();
    let mut i = from;
    while i < to
        invariant
            from <= i <= to <= bytes@.len(),
            out@ == bytes@.subrange(from as int, i as int),
        decreases to - i,
    {
        out.push(bytes[i]);
        i = i + 1;
        proof {
            assert(out@ =~= bytes@.subrange(from as int, i as int));
        }
    }
    out
}

impl FrameDecoder {
    pub fn new() -> (r: Self)
        ensures
            r.buffer@ == Seq::<u8>::empty(),
    {
        FrameDecoder { buffer: Vec::new() }
    }

    /// Takes bytes, and gives the messages that are whole. Where no message can
    /// follow, the bytes are kept as they are.
    pub fn decode_available_messages(&mut self, data: &[u8]) -> (r: Result<Vec<Vec<u8>>, String>)
        ensures
            match (framed(old(self).buffer@ + data@), r) {
                (Ok((frames, rest)), Ok(found)) => byte_strings(found@) == frames
                    && final(self).buffer@ == rest,
                (Err(_), Err(e)) => e@ == "malformed LDAP message"@ && final(self).buffer@
                    == old(self).buffer@ + data@,
                _ => false,
            },
    {
        self.buffer.extend_from_slice(data);
        let ghost all = self.buffer@;
        proof {
            assert(all =~= old(self).buffer@ + data@);
            assert(all.skip(0) =~= all);
        }
        let size = self.buffer.len();
        let mut frames: Vec<Vec<u8>> = Vec::new();
        let mut start: usize = 0;
        loop
            invariant
                size == all.len(),
                self.buffer@ == all,
                start <= all.len(),
                match framed(all.skip(start as int)) {
                    Err(_) => framed(all) is Err,
                    Ok((later, rest)) => framed(all) == Ok::<(Seq<Seq<u8>>, Seq<u8>), ()>(
                        (byte_strings(frames@) + later, rest),
                    ),
                },
                all == old(self).buffer@ + data@,
            decreases all.len() - start,
        {
            let ghost now = all.skip(start as int);
            match frame_from(&self.buffer, start) {
                Frame::Malformed => {
                    return Err("malformed LDAP message".to_owned());
                },
                Frame::Incomplete => {
                    proof {
                        assert(byte_strings(frames@) + Seq::<Seq<u8>>::empty()
                            =~= byte_strings(frames@));
                    }
                    self.buffer = part_of(&self.buffer, start, size);
                    proof {
                        assert(self.buffer@ =~= now);
                    }
                    return Ok(frames);
                },
                Frame::Whole(n) => {
                    let frame = part_of(&self.buffer, start, start + n);
                    let ghost before = frames@;
                    proof {
                        assert(frame@ =~= now.take(n as int));
                        assert(now.skip(n as int) =~= all.skip(start + n));
                    }
                    frames.push(frame);
                    proof {
                        assert(byte_strings(frames@) =~= byte_strings(before).push(frame@));
                        if let Ok((later, rest)) = framed(all.skip(start + n)) {
                            assert(byte_strings(before) + (seq![frame@] + later)
                                =~= byte_strings(frames@) + later);
                        }
                    }
                    start = start + n;
                },
            }
        }
    }
}

/// The frames in their order, joined.
pub open spec fn joined(frames: Seq<Seq<u8>>) -> Seq<u8>
    decreases frames.len(),
{
    if frames.len() == 0 {
        Seq::empty()
    } else {
        frames.first() + joined(frames.drop_first())
    }
}

// ---------------------------------------------------------------------------
// Reading messages
// ---------------------------------------------------------------------------

#[verifier::external_type_specification]
#[verifier::external_body]
pub struct ExLdapMessage<'a>(outside::LdapMessage<'a>);

#[verifier::external_type_specification]
#[verifier::external_body]
pub struct ExControl<'a>(outside::Control<'a>);

#[verifier::external_type_specification]
#[verifier::external_body]
pub struct ExChange<'a>(outside::Change<'a>);

#[verifier::external_type_specification]
#[verifier::external_body]
pub struct ExAttribute<'a>(outside_filter::Attribute<'a>);

#[verifier::external_type_specification]
#[verifier::external_body]
pub struct ExFilter<'a>(outside_filter::Filter<'a>);

#[verifier::external_type_specification]
#[verifier::external_body]
pub struct ExAssertion<'a>(outside_filter::AttributeValueAssertion<'a>);

#[verifier::external_type_specification]
#[verifier::external_body]
pub struct ExSubstringFilter<'a>(outside_filter::SubstringFilter<'a>);

#[verifier::external_type_specification]
#[verifier::external_body]
pub struct ExSubstring<'a>(outside_filter::Substring<'a>);

#[verifier::external_type_specification]
#[verifier::external_body]
pub struct ExMatchingRule<'a>(outside_filter::MatchingRuleAssertion<'a>);

/// Copies a control of `ldap_parser` field by field.
#[verifier::external_body]
fn plain_control(c: &outside::Control<'_>) -> (r: LdapControl) {
    LdapControl {
        oid: c.control_type.0.to_string(),
        criticality: c.criticality,
        value: c.control_value.as_ref().map(|v| v.to_vec()),
    }
}

/// Copies an equality of `ldap_parser`.
#[verifier::external_body]
fn plain_equality(a: &outside_filter::AttributeValueAssertion<'_>) -> (r: SearchFilter) {
    SearchFilter::EqualityMatch { attribute: a.attribute_desc.0.to_string(), value: a.assertion_value.to_vec() }
}

/// Copies a lower bound of `ldap_parser`.
#[verifier::external_body]
fn plain_greater(a: &outside_filter::AttributeValueAssertion<'_>) -> (r: SearchFilter) {
    SearchFilter::GreaterOrEqual { attribute: a.attribute_desc.0.to_string(), value: a.assertion_value.to_vec() }
}

/// Copies an upper bound of `ldap_parser`.
#[verifier::external_body]
fn plain_less(a: &outside_filter::AttributeValueAssertion<'_>) -> (r: SearchFilter) {
    SearchFilter::LessOrEqual { attribute: a.attribute_desc.0.to_string(), value: a.assertion_value.to_vec() }
}

/// Copies an approximate match of `ldap_parser`.
#[verifier::external_body]
fn plain_approximate(a: &outside_filter::AttributeValueAssertion<'_>) -> (r: SearchFilter) {
    SearchFilter::ApproxMatch { attribute: a.attribute_desc.0.to_string(), value: a.assertion_value.to_vec() }
}

/// Copies a match by rule of `ldap_parser` field by field.
#[verifier::external_body]
fn plain_rule(m: &outside_filter::MatchingRuleAssertion<'_>) -> (r: SearchFilter) {
    SearchFilter::ExtensibleMatch {
        rule_type: m.rule_type.as_ref().map(|n| n.0.to_string()),
        matching_rule: m.matching_rule.as_ref().map(|n| n.0.to_string()),
        value: m.assertion_value.0.to_vec(),
        dn_attributes: m.dn_attributes,
    }
}

/// Copies a piece of a pattern of `ldap_parser`.
#[verifier::external_body]
fn plain_piece(s: &outside_filter::Substring<'_>) -> (r: SearchSubstring) {
    match s {
        outside_filter::Substring::Initial(v) => SearchSubstring::Initial(v.0.to_vec()),
        outside_filter::Substring::Any(v) => SearchSubstring::Any(v.0.to_vec()),
        outside_filter::Substring::Final(v) => SearchSubstring::Final(v.0.to_vec()),
    }
}

/// Copies a pattern of `ldap_parser` piece by piece.
#[verifier::external_body]
fn plain_pattern(s: &outside_filter::SubstringFilter<'_>) -> (r: SearchFilter) {
    SearchFilter::Substrings {
        attribute: s.filter_type.0.to_string(),
        substrings: s.substrings.iter().map(plain_piece).collect(),
    }
}

/// Copies a filter of `ldap_parser` part by part.
#[verifier::external_body]
fn plain_filter(f: &Filter<'_>) -> (r: SearchFilter) {
    match f {
        Filter::And(fs) => SearchFilter::And(fs.iter().map(plain_filter).collect()),
        Filter::Or(fs) => SearchFilter::Or(fs.iter().map(plain_filter).collect()),
        Filter::Not(g) => SearchFilter::Not(Box::new(plain_filter(g))),
        Filter::EqualityMatch(a) => plain_equality(a),
        Filter::Substrings(s) => plain_pattern(s),
        Filter::GreaterOrEqual(a) => plain_greater(a),
        Filter::LessOrEqual(a) => plain_less(a),
        Filter::Present(n) => SearchFilter::Present { attribute: n.0.to_string() },
        Filter::ApproxMatch(a) => plain_approximate(a),
        Filter::ExtensibleMatch(m) => plain_rule(m),
    }
}

/// Copies an attribute of `ldap_parser` with its values.
#[verifier::external_body]
fn plain_attribute(a: &outside_filter::Attribute<'_>) -> (r: SentAttribute) {
    let values = a.attr_vals.iter().map(|v| v.0.to_vec()).collect();
    SentAttribute { name: a.attr_type.0.to_string(), values }
}

/// Copies a change of `ldap_parser` field by field.
#[verifier::external_body]
fn plain_change(c: &outside::Change<'_>) -> (r: SentChange) {
    let values = c.modification.attr_vals.iter().map(|v| v.0.to_vec()).collect();
    let attribute = SentAttribute { name: c.modification.attr_type.0.to_string(), values };
    SentChange { operation: c.operation.0, attribute }
}

/// Copies the name of an entry and an assertion of `ldap_parser` about it.
#[verifier::external_body]
fn plain_comparison(name: &str, a: &outside_filter::AttributeValueAssertion<'_>) -> (r: CompareBody) {
    CompareBody {
        name: name.to_string(),
        attribute: a.attribute_desc.0.to_string(),
        value: a.assertion_value.to_vec(),
    }
}

/// Copies what a message of `ldap_parser` asks for, where that is to rename an
/// entry, to compare a value or an extended operation. Any other message is an
/// answer, which asks for nothing.
#[verifier::external_body]
fn plain_rest(m: &outside::LdapMessage<'_>) -> (r: RequestBody) {
    match &m.protocol_op {
        outside::ProtocolOp::ModDnRequest(d) => RequestBody::ModDn(ModDnBody {
            name: d.entry.0.to_string(),
            new_rdn: d.newrdn.0.to_string(),
            delete_old: d.deleteoldrdn,
            new_superior: d.newsuperior.as_ref().map(|n| n.0.to_string()),
        }),
        outside::ProtocolOp::CompareRequest(c) => RequestBody::Compare(plain_comparison(&c.entry.0, &c.ava)),
        outside::ProtocolOp::ExtendedRequest(e) => RequestBody::Extended {
            oid: e.request_name.0.to_string(),
            value: e.request_value.as_ref().map(|v| v.to_vec()),
        },
        _ => RequestBody::Other,
    }
}

/// Copies what a message of `ldap_parser` asks for, where that is to modify, to
/// add or to delete an entry.
#[verifier::external_body]
fn plain_write(m: &outside::LdapMessage<'_>) -> (r: RequestBody) {
    match &m.protocol_op {
        outside::ProtocolOp::ModifyRequest(w) => RequestBody::Modify { name: w.object.0.to_string(), changes: w.changes.iter().map(plain_change).collect() },
        outside::ProtocolOp::AddRequest(w) => RequestBody::Add { name: w.entry.0.to_string(), attributes: w.attributes.iter().map(plain_attribute).collect() },
        outside::ProtocolOp::DelRequest(n) => RequestBody::Delete(n.0.to_string()),
        _ => plain_rest(m),
    }
}

/// Copies what a message of `ldap_parser` asks for, where that is a search.
#[verifier::external_body]
fn plain_search(m: &outside::LdapMessage<'_>) -> (r: RequestBody) {
    match &m.protocol_op {
        outside::ProtocolOp::SearchRequest(s) => RequestBody::Search(SearchBody {
            base: s.base_object.0.to_string(),
            scope: s.scope.0,
            deref_aliases: s.deref_aliases.0,
            size_limit: s.size_limit,
            time_limit: s.time_limit,
            types_only: s.types_only,
            filter: plain_filter(&s.filter),
            attributes: s.attributes.iter().map(|n| n.0.to_string()).collect(),
        }),
        _ => plain_write(m),
    }
}

/// Copies what a message of `ldap_parser` asks for.
#[verifier::external_body]
fn plain_op(m: &outside::LdapMessage<'_>) -> (r: RequestBody) {
    match &m.protocol_op {
        outside::ProtocolOp::BindRequest(b) => {
            let authentication = match &b.authentication {
                outside::AuthenticationChoice::Simple(p) => AuthenticationChoice::Simple(p.to_vec()),
                outside::AuthenticationChoice::Sasl(s) => AuthenticationChoice::Sasl { mechanism: s.mechanism.0.to_string(), credentials: s.credentials.as_ref().map(|c| c.to_vec()) },
            };
            RequestBody::Bind(BindBody { version: b.version, name: b.name.0.to_string(), authentication })
        },
        outside::ProtocolOp::UnbindRequest => RequestBody::Unbind,
        outside::ProtocolOp::AbandonRequest(id) => RequestBody::Abandon(id.0),
        _ => plain_search(m),
    }
}

/// Copies a message of `ldap_parser` field by field. A message without a list
/// of controls has none.
#[verifier::external_body]
fn plain_message(m: &outside::LdapMessage<'_>) -> (r: LdapRequest) {
    LdapRequest {
        message_id: m.message_id.0,
        op: plain_op(m),
        controls: m.controls.iter().flatten().map(plain_control).collect(),
    }
}

/// The messages that `ldap_parser::parse_ldap_messages` reads from the start of
/// the bytes, or how its error prints.
pub uninterp spec fn parsed_messages(bytes: Seq<u8>) -> Result<Seq<LdapRequestView>, Seq<char>>;

/// What messages say, or why there are none.
pub open spec fn messages_result(r: Result<Vec<LdapRequest>, String>) -> Result<
    Seq<LdapRequestView>,
    Seq<char>,
> {
    match r {
        Ok(messages) => Ok(messages@.map_values(|m: LdapRequest| m@)),
        Err(e) => Err(e@),
    }
}

/// Calls `ldap_parser::parse_ldap_messages` and copies the messages that it
/// returns, or writes its error out. Both are functions of the bytes.
#[verifier::external_body]
fn read_messages(bytes: &[u8]) -> (r: Result<Vec<LdapRequest>, String>)
    ensures
        messages_result(r) == parsed_messages(bytes@),
{
    match ldap_parser::parse_ldap_messages(bytes) {
        Ok((_, messages)) => Ok(messages.iter().map(plain_message).collect()),
        Err(e) => Err(format!("{:?}", e)),
    }
}

/// The requests that a whole frame holds.
pub fn requests_in(bytes: &[u8]) -> (r: Result<Vec<LdapRequest>, String>)
    ensures
        messages_result(r) == parsed_messages(bytes@),
{
    read_messages(bytes)
}

// ---------------------------------------------------------------------------
// From messages to requests
// ---------------------------------------------------------------------------

/// The kind of a request.
pub open spec fn kind_of(op: RequestBodyView) -> ProtocolOp {
    match op {
        RequestBodyView::Bind(_) => ProtocolOp::Bind,
        RequestBodyView::Unbind => ProtocolOp::Unbind,
        RequestBodyView::Search(_) => ProtocolOp::Search,
        RequestBodyView::Modify { .. } => ProtocolOp::Modify,
        RequestBodyView::Add { .. } => ProtocolOp::Add,
        RequestBodyView::Delete(_) => ProtocolOp::Delete,
        RequestBodyView::ModDn(_) => ProtocolOp::ModDn,
        RequestBodyView::Compare(_) => ProtocolOp::Compare,
        RequestBodyView::Abandon(_) => ProtocolOp::Abandon,
        RequestBodyView::Extended { .. } => ProtocolOp::Extended,
        RequestBodyView::Other => ProtocolOp::Other,
    }
}

/// How a request of a kind is answered: one that leaves or gives up is not.
pub open spec fn answered_as(kind: ProtocolOp) -> FsmResponseKind {
    match kind {
        ProtocolOp::Bind => FsmResponseKind::Bind,
        ProtocolOp::Search => FsmResponseKind::Result(ResponseOp::SearchDone),
        ProtocolOp::Modify => FsmResponseKind::Result(ResponseOp::Modify),
        ProtocolOp::Add => FsmResponseKind::Result(ResponseOp::Add),
        ProtocolOp::Delete => FsmResponseKind::Result(ResponseOp::Delete),
        ProtocolOp::ModDn => FsmResponseKind::Result(ResponseOp::ModifyDn),
        ProtocolOp::Compare => FsmResponseKind::Result(ResponseOp::Compare),
        ProtocolOp::Extended => FsmResponseKind::Result(ResponseOp::Extended),
        ProtocolOp::Unbind => FsmResponseKind::Silent,
        ProtocolOp::Abandon => FsmResponseKind::Silent,
        ProtocolOp::Other => FsmResponseKind::Silent,
    }
}

/// To which request a reply belongs, and in which form it goes out.
pub open spec fn head_of(request: LdapRequestView) -> RequestHead {
    RequestHead { message_id: request.message_id, kind: answered_as(kind_of(request.op)) }
}

/// The text of each value; bytes that are no text are replaced.
pub open spec fn value_texts(values: Seq<Seq<u8>>) -> Seq<Seq<char>> {
    values.map_values(|v: Seq<u8>| text::utf8_lossy(v))
}

/// The names of the attributes that a request writes, as they were sent.
pub open spec fn written_names(op: RequestBodyView) -> Seq<Seq<char>> {
    match op {
        RequestBodyView::Modify { changes, .. } => changes.map_values(
            |c: SentChangeView| c.attribute.name,
        ),
        RequestBodyView::Add { attributes, .. } => attributes.map_values(
            |a: SentAttributeView| a.name,
        ),
        _ => Seq::empty(),
    }
}

/// The attributes of an entry that is added: names in lower case, each once,
/// with all values that were sent under it.
pub open spec fn added_attributes(sent: Seq<SentAttributeView>) -> AttributeSeq
    decreases sent.len(),
{
    if sent.len() == 0 {
        Seq::empty()
    } else {
        let before = added_attributes(sent.drop_last());
        let name = text::lower(sent.last().name);
        let values = value_texts(sent.last().values);
        string_map::put(
            before,
            name,
            match string_map::lookup(before, name) {
                Some(earlier) => earlier + values,
                None => values,
            },
        )
    }
}

/// What a change does to an attribute.
#[derive(Debug, Clone, Copy, PartialEq, Eq, Structural)]
pub enum ModificationKind {
    Add,
    Delete,
    Replace,
}

/// A change to an attribute.
#[derive(Debug)]
pub struct Modification {
    pub kind: ModificationKind,
    pub attribute: String,
    pub values: Vec<String>,
}

/// What a [`Modification`] says.
pub struct ModificationView {
    pub kind: ModificationKind,
    pub attribute: Seq<char>,
    pub values: Seq<Seq<char>>,
}

impl View for Modification {
    type V = ModificationView;

    open spec fn view(&self) -> ModificationView {
        ModificationView {
            kind: self.kind,
            attribute: self.attribute@,
            values: text::texts(self.values@),
        }
    }
}

/// The change that was sent.
pub open spec fn modification_of(c: SentChangeView) -> ModificationView {
    ModificationView {
        kind: if c.operation == 0 {
            ModificationKind::Add
        } else if c.operation == 1 {
            ModificationKind::Delete
        } else {
            ModificationKind::Replace
        },
        attribute: c.attribute.name,
        values: value_texts(c.attribute.values),
    }
}

fn texts_of_values(values: &Vec<Vec<u8>>) -> (r: Vec<String>)
    ensures
        text::texts(r@) == value_texts(byte_strings(values@)),
{
    let mut out: Vec<String> = Vec::new();
    let mut i: usize = 0;
    while i < values.len()
        invariant
            i <= values@.len(),
            out@.len() == i,
            forall|j: int| 0 <= j < i ==> (#[trigger] out@[j])@ == text::utf8_lossy(values@[j]@),
        decreases values@.len() - i,
    {
        out.push(text::lossy_text(values[i].as_slice()));
        i = i + 1;
    }
    proof {
        assert(text::texts(out@) =~= value_texts(byte_strings(values@)));
    }
    out
}

impl SentChange {
    /// The change that was sent.
    pub fn modification(&self) -> (r: Modification)
        ensures
            r@ == modification_of(self@),
    {
        Modification {
            kind: if self.operation == 0 {
                ModificationKind::Add
            } else if self.operation == 1 {
                ModificationKind::Delete
            } else {
                ModificationKind::Replace
            },
            attribute: self.attribute.name.clone(),
            values: texts_of_values(&self.attribute.values),
        }
    }
}

fn build_attributes(sent: &Vec<SentAttribute>) -> (r: Attributes)
    ensures
        r@ == added_attributes(sent@.map_values(|a: SentAttribute| a@)),
{
    let ghost all = sent@.map_values(|a: SentAttribute| a@);
    let mut out = Attributes::new();
    let mut i: usize = 0;
    proof {
        assert(all.take(0) =~= Seq::<SentAttributeView>::empty());
    }
    while i < sent.len()
        invariant
            i <= sent@.len(),
            all == sent@.map_values(|a: SentAttribute| a@),
            out@ == added_attributes(all.take(i as int)),
        decreases sent@.len() - i,
    {
        let name = text::lowercase(sent[i].name.as_str());
        let mut more = texts_of_values(&sent[i].values);
        let ghost later = text::texts(more@);
        let values = match out.get(name.as_str()) {
            Some(earlier) => {
                let mut values = directory::copy_strings(earlier);
                let ghost first = values@;
                let ghost second = more@;
                values.append(&mut more);
                proof {
                    assert(text::texts(values@) =~= text::texts(first) + text::texts(second));
                }
                values
            },
            None => more,
        };
        out.insert(name, values);
        proof {
            assert(all.take(i + 1).drop_last() =~= all.take(i as int));
            assert(all.take(i + 1).last() == sent@[i as int]@);
        }
        i = i + 1;
    }
    proof {
        assert(all.take(i as int) =~= all);
    }
    out
}

impl LdapRequest {
    /// The kind of the request.
    pub fn kind(&self) -> (r: ProtocolOp)
        ensures
            r == kind_of(self@.op),
    {
        match &self.op {
            RequestBody::Bind(_) => ProtocolOp::Bind,
            RequestBody::Unbind => ProtocolOp::Unbind,
            RequestBody::Search(_) => ProtocolOp::Search,
            RequestBody::Modify { .. } => ProtocolOp::Modify,
            RequestBody::Add { .. } => ProtocolOp::Add,
            RequestBody::Delete(_) => ProtocolOp::Delete,
            RequestBody::ModDn(_) => ProtocolOp::ModDn,
            RequestBody::Compare(_) => ProtocolOp::Compare,
            RequestBody::Abandon(_) => ProtocolOp::Abandon,
            RequestBody::Extended { .. } => ProtocolOp::Extended,
            RequestBody::Other => ProtocolOp::Other,
        }
    }

    /// How the request is answered.
    pub fn response_kind(&self) -> (r: FsmResponseKind)
        ensures
            r == answered_as(kind_of(self@.op)),
    {
        match self.kind() {
            ProtocolOp::Bind => FsmResponseKind::Bind,
            ProtocolOp::Search => FsmResponseKind::Result(ResponseOp::SearchDone),
            ProtocolOp::Modify => FsmResponseKind::Result(ResponseOp::Modify),
            ProtocolOp::Add => FsmResponseKind::Result(ResponseOp::Add),
            ProtocolOp::Delete => FsmResponseKind::Result(ResponseOp::Delete),
            ProtocolOp::ModDn => FsmResponseKind::Result(ResponseOp::ModifyDn),
            ProtocolOp::Compare => FsmResponseKind::Result(ResponseOp::Compare),
            ProtocolOp::Extended => FsmResponseKind::Result(ResponseOp::Extended),
            ProtocolOp::Unbind => FsmResponseKind::Silent,
            ProtocolOp::Abandon => FsmResponseKind::Silent,
            ProtocolOp::Other => FsmResponseKind::Silent,
        }
    }

    /// To which request a reply belongs, and in which form it goes out.
    pub fn head(&self) -> (r: RequestHead)
        ensures
            r == head_of(self@),
    {
        RequestHead { message_id: self.message_id, kind: self.response_kind() }
    }

    /// The entry that a request to modify names, as it is meant.
    pub fn modified_dn(&self) -> (r: String)
        ensures
            r@ == (match self@.op {
                RequestBodyView::Modify { name, .. } => text::trim(name),
                _ => Seq::empty(),
            }),
    {
        match &self.op {
            RequestBody::Modify { name, .. } => text::trimmed(name.as_str()),
            _ => {
                let none = String::new();
                proof {
                    assert(none@ =~= Seq::<char>::empty());
                }
                none
            },
        }
    }

    /// The names of the attributes that the request writes, as they were sent.
    pub fn written_names(&self) -> (r: Vec<String>)
        ensures
            text::texts(r@) == written_names(self@.op),
    {
        let mut out: Vec<String> = Vec::new();
        match &self.op {
            RequestBody::Modify { changes, .. } => {
                let mut i: usize = 0;
                while i < changes.len()
                    invariant
                        i <= changes@.len(),
                        out@.len() == i,
                        forall|j: int|
                            0 <= j < i ==> (#[trigger] out@[j])@ == changes@[j].attribute.name@,
                    decreases changes@.len() - i,
                {
                    out.push(changes[i].attribute.name.clone());
                    i = i + 1;
                }
            },
            RequestBody::Add { attributes, .. } => {
                let mut i: usize = 0;
                while i < attributes.len()
                    invariant
                        i <= attributes@.len(),
                        out@.len() == i,
                        forall|j: int|
                            0 <= j < i ==> (#[trigger] out@[j])@ == attributes@[j].name@,
                    decreases attributes@.len() - i,
                {
                    out.push(attributes[i].name.clone());
                    i = i + 1;
                }
            },
            _ => {},
        }
        proof {
            assert(text::texts(out@) =~= written_names(self@.op));
        }
        out
    }

    /// The request to bind, if it is one.
    pub fn into_bind(self, secure: bool, by_password: bool) -> (r: Option<BindRequest>)
        ensures
            r == (match self.op {
                RequestBody::Bind(b) => Some(
                    BindRequest {
                        message_id: self.message_id,
                        version: b.version,
                        name: b.name,
                        authentication: b.authentication,
                        secure,
                        by_password,
                    },
                ),
                _ => None,
            }),
    {
        match self.op {
            RequestBody::Bind(b) => Some(
                BindRequest {
                    message_id: self.message_id,
                    version: b.version,
                    name: b.name,
                    authentication: b.authentication,
                    secure,
                    by_password,
                },
            ),
            _ => None,
        }
    }

    /// The search, if the request is one. The controls are those of the request
    /// that the server accepts.
    pub fn into_search(self, controls: RequestControls, subschema_dn: String) -> (r: Option<
        SearchRequest,
    >)
        ensures
            r == (match self.op {
                RequestBody::Search(s) => Some(
                    SearchRequest {
                        head: head_of(self@),
                        base: s.base,
                        scope: s.scope,
                        deref_aliases: s.deref_aliases,
                        size_limit: s.size_limit,
                        time_limit: s.time_limit,
                        types_only: s.types_only,
                        attributes: s.attributes,
                        filter: s.filter,
                        controls,
                        subschema_dn,
                    },
                ),
                _ => None,
            }),
    {
        let head = self.head();
        match self.op {
            RequestBody::Search(s) => Some(
                SearchRequest {
                    head,
                    base: s.base,
                    scope: s.scope,
                    deref_aliases: s.deref_aliases,
                    size_limit: s.size_limit,
                    time_limit: s.time_limit,
                    types_only: s.types_only,
                    attributes: s.attributes,
                    filter: s.filter,
                    controls,
                    subschema_dn,
                },
            ),
            _ => None,
        }
    }

    /// The request to modify an entry with its changes, if it is one. Whether
    /// one of the attributes is kept by the server has been found before.
    pub fn into_modify(self, bound_dn: Option<String>, managed: Option<String>) -> (r: Option<
        (ModifyRequest, Vec<Modification>),
    >)
        ensures
            match (self@.op, r) {
                (RequestBodyView::Modify { name, changes }, Some(found)) => {
                    &&& found.0.head == head_of(self@)
                    &&& found.0.dn@ == text::trim(name)
                    &&& text::texts(found.0.attributes@) == written_names(self@.op)
                    &&& found.0.bound_dn == bound_dn
                    &&& found.0.managed == managed
                    &&& found.1@.map_values(|m: Modification| m@) == changes.map_values(
                        |c: SentChangeView| modification_of(c),
                    )
                },
                (RequestBodyView::Modify { .. }, None) => false,
                (_, Some(_)) => false,
                (_, None) => true,
            },
    {
        let head = self.head();
        let attributes = self.written_names();
        match &self.op {
            RequestBody::Modify { name, changes } => {
                let mut modifications: Vec<Modification> = Vec::new();
                let mut i: usize = 0;
                while i < changes.len()
                    invariant
                        i <= changes@.len(),
                        modifications@.len() == i,
                        forall|j: int|
                            0 <= j < i ==> (#[trigger] modifications@[j])@ == modification_of(
                                changes@[j]@,
                            ),
                    decreases changes@.len() - i,
                {
                    modifications.push(changes[i].modification());
                    i = i + 1;
                }
                proof {
                    assert(modifications@.map_values(|m: Modification| m@)
                        =~= changes@.map_values(|c: SentChange| c@).map_values(
                        |c: SentChangeView| modification_of(c),
                    ));
                }
                Some(
                    (
                        ModifyRequest {
                            head,
                            dn: text::trimmed(name.as_str()),
                            attributes,
                            bound_dn,
                            managed,
                        },
                        modifications,
                    ),
                )
            },
            _ => None,
        }
    }

    /// The request to add an entry, if it is one. Whether one of the attributes
    /// is kept by the server has been found before.
    pub fn into_add(self, bound_dn: Option<String>, managed: Option<String>) -> (r: Option<
        AddRequest,
    >)
        ensures
            match (self@.op, r) {
                (RequestBodyView::Add { name, attributes }, Some(found)) => {
                    &&& found.head == head_of(self@)
                    &&& found.dn@ == text::trim(name)
                    &&& found.attributes@ == added_attributes(attributes)
                    &&& found.bound_dn == bound_dn
                    &&& found.managed == managed
                },
                (RequestBodyView::Add { .. }, None) => false,
                (_, Some(_)) => false,
                (_, None) => true,
            },
    {
        let head = self.head();
        match &self.op {
            RequestBody::Add { name, attributes } => Some(
                AddRequest {
                    head,
                    dn: text::trimmed(name.as_str()),
                    attributes: build_attributes(attributes),
                    bound_dn,
                    managed,
                },
            ),
            _ => None,
        }
    }

    /// The request to delete an entry, if it is one.
    pub fn into_delete(self, bound_dn: Option<String>) -> (r: Option<DeleteRequest>)
        ensures
            match (self@.op, r) {
                (RequestBodyView::Delete(name), Some(found)) => {
                    &&& found.head == head_of(self@)
                    &&& found.dn@ == text::trim(name)
                    &&& found.bound_dn == bound_dn
                },
                (RequestBodyView::Delete(_), None) => false,
                (_, Some(_)) => false,
                (_, None) => true,
            },
    {
        let head = self.head();
        match &self.op {
            RequestBody::Delete(name) => Some(DeleteRequest::new(head, name.as_str(), bound_dn)),
            _ => None,
        }
    }

    /// The request to rename an entry, if it is one. An empty new superior is
    /// none.
    pub fn into_moddn(self, bound_dn: Option<String>) -> (r: Option<ModDnRequest>)
        ensures
            match (self@.op, r) {
                (RequestBodyView::ModDn(body), Some(found)) => {
                    &&& found.head == head_of(self@)
                    &&& found.dn@ == text::trim(body.name)
                    &&& found.new_rdn@ == text::trim(body.new_rdn)
                    &&& found.delete_old == body.delete_old
                    &&& text::option_text(found.new_superior) == (match body.new_superior {
                        Some(superior) => if superior == ""@ {
                            None
                        } else {
                            Some(superior)
                        },
                        None => None,
                    })
                    &&& found.bound_dn == bound_dn
                },
                (RequestBodyView::ModDn(_), None) => false,
                (_, Some(_)) => false,
                (_, None) => true,
            },
    {
        let head = self.head();
        match self.op {
            RequestBody::ModDn(body) => Some(
                ModDnRequest::new(
                    head,
                    body.name.as_str(),
                    body.new_rdn.as_str(),
                    body.delete_old,
                    body.new_superior,
                    bound_dn,
                ),
            ),
            _ => None,
        }
    }

    /// The request to compare a value, if it is one.
    pub fn into_compare(self) -> (r: Option<CompareRequest>)
        ensures
            match (self@.op, r) {
                (RequestBodyView::Compare(body), Some(found)) => {
                    &&& found.head == head_of(self@)
                    &&& found.dn@ == text::trim(body.name)
                    &&& found.attribute@ == text::trim(body.attribute)
                    &&& found.value@ == body.value
                },
                (RequestBodyView::Compare(_), None) => false,
                (_, Some(_)) => false,
                (_, None) => true,
            },
    {
        let head = self.head();
        match self.op {
            RequestBody::Compare(body) => Some(
                CompareRequest::new(head, body.name.as_str(), body.attribute.as_str(), body.value),
            ),
            _ => None,
        }
    }

    /// The extended request, if it is one.
    pub fn into_extended(
        self,
        secure: bool,
        tls_available: bool,
        bound_dn: Option<String>,
    ) -> (r: Option<ExtendedRequest>)
        ensures
            r == (match self.op {
                RequestBody::Extended { oid, value } => Some(
                    ExtendedRequest {
                        message_id: self.message_id,
                        oid,
                        value,
                        secure,
                        tls_available,
                        bound_dn,
                    },
                ),
                _ => None,
            }),
    {
        match self.op {
            RequestBody::Extended { oid, value } => Some(
                ExtendedRequest {
                    message_id: self.message_id,
                    oid,
                    value,
                    secure,
                    tls_available,
                    bound_dn,
                },
            ),
            _ => None,
        }
    }
}

// ---------------------------------------------------------------------------
// Laws
// ---------------------------------------------------------------------------

/// Cutting bytes into frames loses none and makes none up, and what is left
/// holds no whole message.
pub proof fn framing_loses_nothing(bytes: Seq<u8>)
    ensures
        framed(bytes) matches Ok(cut) ==> joined(cut.0) + cut.1 == bytes && frame_at(cut.1)
            == Frame::Incomplete,
    decreases bytes.len(),
{
    match frame_at(bytes) {
        Frame::Whole(n) => {
            if 0 < n <= bytes.len() {
                let later = bytes.skip(n as int);
                framing_loses_nothing(later);
                if let Ok(cut) = framed(later) {
                    let frames = seq![bytes.take(n as int)] + cut.0;
                    assert(frames.drop_first() =~= cut.0);
                    assert(frames.first() == bytes.take(n as int));
                    assert(joined(frames) == bytes.take(n as int) + joined(cut.0));
                    assert(bytes.take(n as int) + (joined(cut.0) + cut.1) =~= bytes);
                    assert(joined(frames) + cut.1 =~= bytes.take(n as int) + (joined(cut.0)
                        + cut.1));
                }
            }
        },
        Frame::Incomplete => {
            assert(joined(Seq::<Seq<u8>>::empty()) + bytes =~= bytes);
        },
        Frame::Malformed => {},
    }
}

/// A message that stands whole at the start stands there however many bytes
/// follow it.
proof fn frames_stand(bytes: Seq<u8>, more: Seq<u8>)
    ensures
        frame_at(bytes) is Whole ==> frame_at(bytes + more) == frame_at(bytes),
        frame_at(bytes) is Malformed ==> frame_at(bytes + more) is Malformed,
{
    let both = bytes + more;
    if bytes.len() >= 2 {
        assert(both[0] == bytes[0]);
        assert(both[1] == bytes[1]);
        let count = bytes[1] - 0x80;
        if 0 < count <= 4 && bytes.len() >= 2 + count {
            assert(both.subrange(2, 2 + count) =~= bytes.subrange(2, 2 + count));
        }
    } else if bytes.len() == 1 {
        assert(both[0] == bytes[0]);
    }
}

/// It makes no difference in which pieces the bytes come in: the frames of the
/// first piece, and those that what is left of it gives with the second, are
/// the frames of both together.
pub proof fn pieces_make_no_difference(bytes: Seq<u8>, more: Seq<u8>)
    requires
        framed(bytes) is Ok,
    ensures
        framed(bytes + more) == (match framed((framed(bytes)->Ok_0).1 + more) {
            Err(_) => Err(()),
            Ok((later, rest)) => Ok::<(Seq<Seq<u8>>, Seq<u8>), ()>(
                ((framed(bytes)->Ok_0).0 + later, rest),
            ),
        }),
    decreases bytes.len(),
{
    match frame_at(bytes) {
        Frame::Whole(n) => {
            let tail = bytes.skip(n as int);
            frames_stand(bytes, more);
            pieces_make_no_difference(tail, more);
            assert((bytes + more).skip(n as int) =~= tail + more);
            assert((bytes + more).take(n as int) =~= bytes.take(n as int));
            if let Ok((later, rest)) = framed((framed(tail)->Ok_0).1 + more) {
                assert(seq![bytes.take(n as int)] + ((framed(tail)->Ok_0).0 + later)
                    =~= (framed(bytes)->Ok_0).0 + later);
            }
        },
        _ => {
            if let Ok((later, rest)) = framed(bytes + more) {
                assert(Seq::<Seq<u8>>::empty() + later =~= later);
            }
        },
    }
}

} // verus!
