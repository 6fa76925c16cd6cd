//! The entries with which a directory starts, read from LDIF files.

use vstd::prelude::*;
use vstd::utf8;

use crate::directory;
use crate::directory::{Attributes, OperationalAttributes};
use crate::string_map;
use crate::text;

verus! {

/// Why an LDIF file is not read.
#[derive(Debug, PartialEq, Eq)]
#[allow(inconsistent_fields)]
pub enum LdifError {
    /// A line goes on, but none stands before it.
    NoPrecedingLine { line_no: usize },
    /// A line without a colon.
    InvalidLine { line_no: usize, line: String },
    EmptyName { line_no: usize },
    /// A value that is not written in base 64.
    NotBase64 { fault: String },
    /// A value that is no text.
    NotUtf8 { line_no: usize, name: String, fault: String },
    /// A value that stands elsewhere.
    UrlValue { line_no: usize },
    /// An attribute that the server keeps itself.
    ServerManaged { line_no: usize, name: String },
    MissingDn,
    /// An entry that the schema refuses.
    Schema { dn: String, fault: String },
}

/// What an [`LdifError`] says.
#[allow(inconsistent_fields)]
pub enum LdifErrorView {
    NoPrecedingLine { line_no: nat },
    InvalidLine { line_no: nat, line: Seq<char> },
    EmptyName { line_no: nat },
    NotBase64 { fault: Seq<char> },
    NotUtf8 { line_no: nat, name: Seq<char>, fault: Seq<char> },
    UrlValue { line_no: nat },
    ServerManaged { line_no: nat, name: Seq<char> },
    MissingDn,
    Schema { dn: Seq<char>, fault: Seq<char> },
}

impl View for LdifError {
    type V = LdifErrorView;

    open spec fn view(&self) -> LdifErrorView {
        match self {
            LdifError::NoPrecedingLine { line_no } => LdifErrorView::NoPrecedingLine {
                line_no: *line_no as nat,
            },
            LdifError::InvalidLine { line_no, line } => LdifErrorView::InvalidLine {
                line_no: *line_no as nat,
                line: line@,
            },
            LdifError::EmptyName { line_no } => LdifErrorView::EmptyName {
                line_no: *line_no as nat,
            },
            LdifError::NotBase64 { fault } => LdifErrorView::NotBase64 { fault: fault@ },
            LdifError::NotUtf8 { line_no, name, fault } => LdifErrorView::NotUtf8 {
                line_no: *line_no as nat,
                name: name@,
                fault: fault@,
            },
            LdifError::UrlValue { line_no } => LdifErrorView::UrlValue {
                line_no: *line_no as nat,
            },
            LdifError::ServerManaged { line_no, name } => LdifErrorView::ServerManaged {
                line_no: *line_no as nat,
                name: name@,
            },
            LdifError::MissingDn => LdifErrorView::MissingDn,
            LdifError::Schema { dn, fault } => LdifErrorView::Schema { dn: dn@, fault: fault@ },
        }
    }
}

/// A place in a file.
pub open spec fn at_line(source: Seq<char>, line_no: nat) -> Seq<char> {
    source + ":"@ + text::decimal(line_no) + ": "@
}

/// The words for an error in a file.
pub open spec fn ldif_message(source: Seq<char>, e: LdifErrorView) -> Seq<char> {
    match e {
        LdifErrorView::NoPrecedingLine { line_no } => at_line(source, line_no)
            + "LDIF continuation line has no preceding line"@,
        LdifErrorView::InvalidLine { line_no, line } => at_line(source, line_no)
            + "invalid LDIF attribute line: "@ + line,
        LdifErrorView::EmptyName { line_no } => at_line(source, line_no)
            + "empty LDIF attribute name"@,
        LdifErrorView::NotBase64 { fault } => fault,
        LdifErrorView::NotUtf8 { line_no, name, fault } => at_line(source, line_no)
            + "base64 LDIF value for "@ + name + " is not valid UTF-8: "@ + fault,
        LdifErrorView::UrlValue { line_no } => at_line(source, line_no)
            + "LDIF URL values are not supported during startup import"@,
        LdifErrorView::ServerManaged { line_no, name } => at_line(source, line_no)
            + "operational attribute "@ + name + " is server-managed"@,
        LdifErrorView::MissingDn => source + ": LDIF entry is missing dn"@,
        LdifErrorView::Schema { dn, fault } => source
            + ": schema validation failed for initial entry "@ + dn + ": "@ + fault,
    }
}

fn line_text(source: &str, line_no: usize) -> (r: String)
    ensures
        r@ == at_line(source@, line_no as nat),
{
    let mut out = source.to_owned();
    out.append(":");
    out.append(text::decimal_of(line_no as u64).as_str());
    out.append(": ");
    out
}

impl LdifError {
    /// The error in words, for a file of that name.
    pub fn message(&self, source: &str) -> (r: String)
        ensures
            r@ == ldif_message(source@, self@),
    {
        match self {
            LdifError::NoPrecedingLine { line_no } => {
                let mut out = line_text(source, *line_no);
                out.append("LDIF continuation line has no preceding line");
                out
            },
            LdifError::InvalidLine { line_no, line } => {
                let mut out = line_text(source, *line_no);
                out.append("invalid LDIF attribute line: ");
                out.append(line.as_str());
                out
            },
            LdifError::EmptyName { line_no } => {
                let mut out = line_text(source, *line_no);
                out.append("empty LDIF attribute name");
                out
            },
            LdifError::NotBase64 { fault } => fault.clone(),
            LdifError::NotUtf8 { line_no, name, fault } => {
                let mut out = line_text(source, *line_no);
                out.append("base64 LDIF value for ");
                out.append(name.as_str());
                out.append(" is not valid UTF-8: ");
                out.append(fault.as_str());
                out
            },
            LdifError::UrlValue { line_no } => {
                let mut out = line_text(source, *line_no);
                out.append("LDIF URL values are not supported during startup import");
                out
            },
            LdifError::ServerManaged { line_no, name } => {
                let mut out = line_text(source, *line_no);
                out.append("operational attribute ");
                out.append(name.as_str());
                out.append(" is server-managed");
                out
            },
            LdifError::MissingDn => {
                let mut out = source.to_owned();
                out.append(": LDIF entry is missing dn");
                out
            },
            LdifError::Schema { dn, fault } => {
                let mut out = source.to_owned();
                out.append(": schema validation failed for initial entry ");
                out.append(dn.as_str());
                out.append(": ");
                out.append(fault.as_str());
                out
            },
        }
    }
}

// ---------------------------------------------------------------------------
// Lines
// ---------------------------------------------------------------------------

/// Lines with their numbers in the file.
pub type Numbered = Seq<(nat, Seq<char>)>;

/// What numbered lines say.
pub open spec fn numbered(v: Seq<(usize, String)>) -> Numbered {
    v.map_values(|l: (usize, String)| (l.0 as nat, l.1@))
}

/// The line goes on where the one before it ended.
pub open spec fn goes_on(line: Seq<char>) -> bool {
    line.len() > 0 && line[0] == ' '
}

/// The lines, those that go on put to the ones that they go on.
pub open spec fn unfolded(lines: Seq<Seq<char>>) -> Result<Numbered, LdifErrorView>
    decreases lines.len(),
{
    if lines.len() == 0 {
        Ok(Seq::empty())
    } else {
        let line = lines.last();
        match unfolded(lines.drop_last()) {
            Err(e) => Err(e),
            Ok(before) => if goes_on(line) {
                if before.len() == 0 {
                    Err(LdifErrorView::NoPrecedingLine { line_no: lines.len() })
                } else {
                    Ok(
                        before.drop_last().push(
                            (before.last().0, before.last().1 + line.drop_first()),
                        ),
                    )
                }
            } else {
                Ok(before.push((lines.len(), line)))
            },
        }
    }
}

/// A fault in the first lines is one in all of them.
proof fn unfolding_stops(lines: Seq<Seq<char>>, i: int)
    requires
        0 <= i <= lines.len(),
        unfolded(lines.take(i)) is Err,
    ensures
        unfolded(lines) == unfolded(lines.take(i)),
    decreases lines.len() - i,
{
    if i < lines.len() {
        assert(lines.take(i + 1).drop_last() =~= lines.take(i));
        unfolding_stops(lines, i + 1);
    } else {
        assert(lines.take(i) =~= lines);
    }
}

/// The lines of a file, those that go on put to the ones that they go on.
pub fn unfold_initial_ldif_lines(contents: &str) -> (r: Result<Vec<(usize, String)>, LdifError>)
    ensures
        match (r, unfolded(text::lines(contents@))) {
            (Ok(lines), Ok(view)) => numbered(lines@) == view,
            (Err(e), Err(fault)) => e@ == fault,
            _ => false,
        },
{
    let raw = text::lines_of(contents);
    let ghost all = text::texts(raw@);
    let n = raw.len();
    let mut lines: Vec<(usize, String)> = Vec::new();
    let mut i: usize = 0;
    proof {
        assert(numbered(lines@) =~= Seq::<(nat, Seq<char>)>::empty());
        assert(all.take(0).len() == 0);
    }
    while i < n
        invariant
            all == text::texts(raw@),
            all == text::lines(contents@),
            n == raw@.len(),
            i <= n,
            unfolded(all.take(i as int)) == Ok::<Numbered, LdifErrorView>(numbered(lines@)),
        decreases n - i,
    {
        let ghost before = lines@;
        let chars = text::chars_of(raw[i].as_str());
        proof {
            assert(all.take(i + 1).drop_last() =~= all.take(i as int));
            assert(all.take(i + 1).last() == raw@[i as int]@);
        }
        if chars.len() > 0 && chars[0] == ' ' {
            match lines.pop() {
                None => {
                    proof {
                        assert(numbered(before).len() == 0);
                        unfolding_stops(all, i + 1);
                    }
                    return Err(LdifError::NoPrecedingLine { line_no: i + 1 });
                },
                Some((line_no, previous)) => {
                    let rest = text::string_of(&chars, 1, chars.len());
                    let mut whole = previous;
                    whole.append(rest.as_str());
                    proof {
                        assert(rest@ =~= chars@.drop_first());
                        assert(numbered(before).last() == (line_no as nat, before.last().1@));
                        assert(numbered(before).drop_last() =~= numbered(before.drop_last()));
                    }
                    lines.push((line_no, whole));
                    proof {
                        assert(numbered(lines@) =~= numbered(before.drop_last()).push(
                            (line_no as nat, whole@),
                        ));
                    }
                },
            }
        } else {
            let line = raw[i].clone();
            lines.push((i + 1, line));
            proof {
                assert(numbered(lines@) =~= numbered(before).push(((i + 1) as nat, line@)));
            }
        }
        i = i + 1;
    }
    proof {
        assert(all.take(i as int) =~= all);
    }
    Ok(lines)
}

/// The lines so far in groups with empty lines between them, the last of which
/// may not have ended yet.
pub open spec fn grouped(lines: Numbered) -> (Seq<Numbered>, Numbered)
    decreases lines.len(),
{
    if lines.len() == 0 {
        (Seq::empty(), Seq::empty())
    } else {
        let (done, current) = grouped(lines.drop_last());
        if text::trim(lines.last().1).len() == 0 {
            if current.len() > 0 {
                (done.push(current), Seq::empty())
            } else {
                (done, current)
            }
        } else {
            (done, current.push(lines.last()))
        }
    }
}

/// The groups of lines with empty lines between them.
pub open spec fn records(lines: Numbered) -> Seq<Numbered> {
    let (done, current) = grouped(lines);
    if current.len() > 0 {
        done.push(current)
    } else {
        done
    }
}

/// What groups of lines say.
pub open spec fn record_views(v: Seq<Vec<(usize, String)>>) -> Seq<Numbered> {
    v.map_values(|r: Vec<(usize, String)>| numbered(r@))
}

/// The groups of lines with empty lines between them.
pub fn split_records(lines: Vec<(usize, String)>) -> (r: Vec<Vec<(usize, String)>>)
    ensures
        record_views(r@) == records(numbered(lines@)),
{
    let ghost all = numbered(lines@);
    let n = lines.len();
    let mut done: Vec<Vec<(usize, String)>> = Vec::new();
    let mut current: Vec<(usize, String)> = Vec::new();
    let mut i: usize = 0;
    proof {
        assert(record_views(done@) =~= Seq::<Numbered>::empty());
        assert(numbered(current@) =~= Seq::<(nat, Seq<char>)>::empty());
        assert(all.take(0).len() == 0);
    }
    while i < n
        invariant
            all == numbered(lines@),
            n == lines@.len(),
            i <= n,
            grouped(all.take(i as int)) == (record_views(done@), numbered(current@)),
        decreases n - i,
    {
        let ghost done_before = done@;
        let ghost current_before = current@;
        proof {
            assert(all.take(i + 1).drop_last() =~= all.take(i as int));
            assert(all.take(i + 1).last() == all[i as int]);
            assert(numbered(current_before).len() == current_before.len());
        }
        let trimmed = text::trimmed(lines[i].1.as_str());
        if trimmed.as_str().is_empty() {
            if current.len() > 0 {
                let ended = current;
                current = Vec::new();
                done.push(ended);
                proof {
                    assert(record_views(done@) =~= record_views(done_before).push(
                        numbered(current_before),
                    ));
                    assert(numbered(current@) =~= Seq::<(nat, Seq<char>)>::empty());
                }
            }
        } else {
            let line = (lines[i].0, lines[i].1.clone());
            current.push(line);
            proof {
                assert(numbered(current@) =~= numbered(current_before).push(all[i as int]));
            }
        }
        i = i + 1;
    }
    let ghost done_before = done@;
    let ghost current_before = current@;
    proof {
        assert(all.take(i as int) =~= all);
        assert(numbered(current_before).len() == current_before.len());
    }
    if current.len() > 0 {
        done.push(current);
        proof {
            assert(record_views(done@) =~= record_views(done_before).push(
                numbered(current_before),
            ));
        }
    }
    done
}

/// The groups of lines in a file, one for each entry.
pub fn read_records(contents: &str) -> (r: Result<Vec<Vec<(usize, String)>>, LdifError>)
    ensures
        match (r, unfolded(text::lines(contents@))) {
            (Ok(found), Ok(lines)) => record_views(found@) == records(lines),
            (Err(e), Err(fault)) => e@ == fault,
            _ => false,
        },
{
    match unfold_initial_ldif_lines(contents) {
        Ok(lines) => Ok(split_records(lines)),
        Err(e) => Err(e),
    }
}

// ---------------------------------------------------------------------------
// Values
// ---------------------------------------------------------------------------

/// What the standard engine of `base64` makes of a text: the bytes, or in
/// words why it stands for none.
pub uninterp spec fn base64_decoded(encoded: Seq<char>) -> Result<Seq<u8>, Seq<char>>;

/// Calls `decode` of the engine `base64::engine::general_purpose::STANDARD`.
/// Its result is a function of the text.
#[verifier::external_body]
fn decode_base64(encoded: &str) -> (r: Result<Vec<u8>, String>)
    ensures
        match r {
            Ok(bytes) => base64_decoded(encoded@) == Ok::<Seq<u8>, Seq<char>>(bytes@),
            Err(e) => base64_decoded(encoded@) == Err::<Seq<u8>, Seq<char>>(e@),
        },
{
    match base64::Engine::decode(&base64::engine::general_purpose::STANDARD, encoded) {
        Ok(bytes) => Ok(bytes),
        Err(e) => Err(e.to_string()),
    }
}

/// The value on a line, as it is written.
#[derive(Debug, PartialEq, Eq)]
pub enum RawValue {
    Plain(String),
    /// In base 64.
    Encoded(String),
}

/// What a [`RawValue`] says.
pub enum RawValueView {
    Plain(Seq<char>),
    Encoded(Seq<char>),
}

impl View for RawValue {
    type V = RawValueView;

    open spec fn view(&self) -> RawValueView {
        match self {
            RawValue::Plain(v) => RawValueView::Plain(v@),
            RawValue::Encoded(v) => RawValueView::Encoded(v@),
        }
    }
}

/// The name and the value on a line, as they are written.
pub open spec fn raw_value(line: Seq<char>, line_no: nat) -> Result<
    (Seq<char>, RawValueView),
    LdifErrorView,
> {
    match text::cut(line, ':') {
        None => Err(LdifErrorView::InvalidLine { line_no, line }),
        Some(pair) => {
            let name = text::trim(pair.0);
            let rest = pair.1;
            let value = text::trim_start(rest);
            if name.len() == 0 {
                Err(LdifErrorView::EmptyName { line_no })
            } else if rest.len() > 0 && rest[0] == ':' {
                Ok((name, RawValueView::Encoded(text::trim_start(rest.drop_first()))))
            } else if value.len() > 0 && value[0] == '<' {
                Err(LdifErrorView::UrlValue { line_no })
            } else {
                Ok((name, RawValueView::Plain(value)))
            }
        },
    }
}

/// The name and the value on a line, as they are written.
pub fn read_raw_value(line: &str, line_no: usize) -> (r: Result<(String, RawValue), LdifError>)
    ensures
        match (r, raw_value(line@, line_no as nat)) {
            (Ok(pair), Ok(view)) => pair.0@ == view.0 && pair.1@ == view.1,
            (Err(e), Err(fault)) => e@ == fault,
            _ => false,
        },
{
    let (before, rest) = match text::split_once(line, ':') {
        None => {
            return Err(LdifError::InvalidLine { line_no, line: line.to_owned() });
        },
        Some(pair) => pair,
    };
    let name = text::trimmed(before.as_str());
    if name.as_str().is_empty() {
        return Err(LdifError::EmptyName { line_no });
    }
    let chars = text::chars_of(rest.as_str());
    if chars.len() > 0 && chars[0] == ':' {
        let encoded = text::string_of(&chars, 1, chars.len());
        proof {
            assert(encoded@ =~= rest@.drop_first());
        }
        return Ok((name, RawValue::Encoded(text::trimmed_start(encoded.as_str()))));
    }
    let value = text::trimmed_start(rest.as_str());
    let value_chars = text::chars_of(value.as_str());
    if value_chars.len() > 0 && value_chars[0] == '<' {
        return Err(LdifError::UrlValue { line_no });
    }
    Ok((name, RawValue::Plain(value)))
}

/// The value that decoded bytes are.
pub open spec fn decoded_value(
    name: Seq<char>,
    line_no: nat,
    decoded: Result<Seq<u8>, Seq<char>>,
) -> Result<Seq<char>, LdifErrorView> {
    match decoded {
        Err(fault) => Err(LdifErrorView::NotBase64 { fault }),
        Ok(bytes) => if utf8::valid_utf8(bytes) {
            Ok(utf8::decode_utf8(bytes))
        } else {
            Err(LdifErrorView::NotUtf8 { line_no, name, fault: text::utf8_fault(bytes) })
        },
    }
}

/// What was made of a text in base 64.
pub open spec fn decoded_view(decoded: Result<Vec<u8>, String>) -> Result<Seq<u8>, Seq<char>> {
    match decoded {
        Ok(bytes) => Ok(bytes@),
        Err(e) => Err(e@),
    }
}

/// The value that decoded bytes are.
pub fn read_decoded_value(name: &str, line_no: usize, decoded: Result<Vec<u8>, String>) -> (r:
    Result<String, LdifError>)
    ensures
        match (r, decoded_value(name@, line_no as nat, decoded_view(decoded))) {
            (Ok(value), Ok(view)) => value@ == view,
            (Err(e), Err(fault)) => e@ == fault,
            _ => false,
        },
{
    match decoded {
        Err(fault) => Err(LdifError::NotBase64 { fault }),
        Ok(bytes) => match text::utf8_text(bytes) {
            Ok(value) => Ok(value),
            Err(fault) => Err(LdifError::NotUtf8 { line_no, name: name.to_owned(), fault }),
        },
    }
}

/// The name and the value on a line.
pub open spec fn attr_value(line: Seq<char>, line_no: nat) -> Result<
    (Seq<char>, Seq<char>),
    LdifErrorView,
> {
    match raw_value(line, line_no) {
        Err(e) => Err(e),
        Ok((name, RawValueView::Plain(value))) => Ok((name, value)),
        Ok((name, RawValueView::Encoded(encoded))) => match decoded_value(
            name,
            line_no,
            base64_decoded(encoded),
        ) {
            Err(e) => Err(e),
            Ok(value) => Ok((name, value)),
        },
    }
}

/// The name and the value on a line.
pub fn parse_initial_ldif_attr_value(line: &str, line_no: usize) -> (r: Result<
    (String, String),
    LdifError,
>)
    ensures
        match (r, attr_value(line@, line_no as nat)) {
            (Ok(pair), Ok(view)) => (pair.0@, pair.1@) == view,
            (Err(e), Err(fault)) => e@ == fault,
            _ => false,
        },
{
    match read_raw_value(line, line_no) {
        Err(e) => Err(e),
        Ok((name, RawValue::Plain(value))) => Ok((name, value)),
        Ok((name, RawValue::Encoded(encoded))) => {
            let decoded = decode_base64(encoded.as_str());
            match read_decoded_value(name.as_str(), line_no, decoded) {
                Err(e) => Err(e),
                Ok(value) => Ok((name, value)),
            }
        },
    }
}

// ---------------------------------------------------------------------------
// Entries
// ---------------------------------------------------------------------------

/// An entry with which a directory starts.
#[derive(Debug, PartialEq, Eq)]
pub struct InitialLdifEntry {
    pub dn: String,
    pub attributes: Attributes,
    pub password: Vec<u8>,
}

/// What an [`InitialLdifEntry`] says.
pub struct InitialEntryView {
    pub dn: Seq<char>,
    pub attributes: directory::AttributeSeq,
    pub password: Seq<u8>,
}

impl View for InitialLdifEntry {
    type V = InitialEntryView;

    open spec fn view(&self) -> InitialEntryView {
        InitialEntryView {
            dn: self.dn@,
            attributes: self.attributes@,
            password: self.password@,
        }
    }
}

/// The name and the attributes of an entry, as far as they were read.
pub struct Draft {
    pub dn: Option<Seq<char>>,
    pub attributes: directory::AttributeSeq,
}

/// The attributes with a value put to those of a name.
pub open spec fn with_value(
    attributes: directory::AttributeSeq,
    key: Seq<char>,
    value: Seq<char>,
) -> directory::AttributeSeq {
    string_map::put(
        attributes,
        key,
        match string_map::lookup(attributes, key) {
            Some(values) => values.push(value),
            None => seq![value],
        },
    )
}

/// The line holds nothing, or a remark.
pub open spec fn is_remark(line: Seq<char>) -> bool {
    text::trim(line).len() == 0 || text::trim(line)[0] == '#'
}

/// What the lines of an entry say.
pub open spec fn drafted(lines: Numbered) -> Result<Draft, LdifErrorView>
    decreases lines.len(),
{
    if lines.len() == 0 {
        Ok(Draft { dn: None, attributes: Seq::empty() })
    } else {
        let (line_no, line) = lines.last();
        match drafted(lines.drop_last()) {
            Err(e) => Err(e),
            Ok(draft) => if is_remark(line) {
                Ok(draft)
            } else {
                match attr_value(line, line_no) {
                    Err(e) => Err(e),
                    Ok((name, value)) => if text::lower(name) == text::lower("dn"@) {
                        Ok(Draft { dn: Some(value), ..draft })
                    } else if directory::is_operational_name(text::lower(name)) {
                        Err(LdifErrorView::ServerManaged { line_no, name })
                    } else {
                        Ok(
                            Draft {
                                attributes: with_value(draft.attributes, text::lower(name), value),
                                ..draft
                            },
                        )
                    },
                }
            },
        }
    }
}

proof fn drafting_stops(lines: Numbered, i: int)
    requires
        0 <= i <= lines.len(),
        drafted(lines.take(i)) is Err,
    ensures
        drafted(lines) == drafted(lines.take(i)),
    decreases lines.len() - i,
{
    if i < lines.len() {
        assert(lines.take(i + 1).drop_last() =~= lines.take(i));
        drafting_stops(lines, i + 1);
    } else {
        assert(lines.take(i) =~= lines);
    }
}

fn add_value(attributes: &mut Attributes, key: String, value: String)
    ensures
        final(attributes)@ == with_value(old(attributes)@, key@, value@),
{
    let mut values: Vec<String> = match attributes.get(key.as_str()) {
        Some(values) => directory::copy_strings(values),
        None => Vec::new(),
    };
    proof {
        text::texts_push(values@, value);
        if string_map::lookup(attributes@, key@) is None {
            assert(text::texts(values@.push(value)) =~= seq![value@]);
        }
    }
    values.push(value);
    attributes.insert(key, values);
}

fn read_draft(lines: &Vec<(usize, String)>) -> (r: Result<(Option<String>, Attributes), LdifError>)
    ensures
        match (r, drafted(numbered(lines@))) {
            (Ok(pair), Ok(draft)) => pair.1@ == draft.attributes && match pair.0 {
                Some(dn) => draft.dn == Some(dn@),
                None => draft.dn is None,
            },
            (Err(e), Err(fault)) => e@ == fault,
            _ => false,
        },
{
    let ghost all = numbered(lines@);
    let n = lines.len();
    let mut dn: Option<String> = None;
    let mut attributes = Attributes::new();
    let mut i: usize = 0;
    proof {
        assert(all.take(0).len() == 0);
    }
    while i < n
        invariant
            all == numbered(lines@),
            n == lines@.len(),
            i <= n,
            drafted(all.take(i as int)) matches Ok(draft) && attributes@ == draft.attributes
                && match dn {
                Some(dn) => draft.dn == Some(dn@),
                None => draft.dn is None,
            },
        decreases n - i,
    {
        let line_no = lines[i].0;
        let line = lines[i].1.as_str();
        let ghost before = attributes@;
        proof {
            assert(all.take(i + 1).drop_last() =~= all.take(i as int));
            assert(all.take(i + 1).last() == (line_no as nat, line@));
        }
        let trimmed = text::trimmed(line);
        let chars = text::chars_of(trimmed.as_str());
        if chars.len() > 0 && chars[0] != '#' {
            match parse_initial_ldif_attr_value(line, line_no) {
                Err(e) => {
                    proof {
                        drafting_stops(all, i + 1);
                    }
                    return Err(e);
                },
                Ok((name, value)) => {
                    if text::eq_ignore_case(name.as_str(), "dn") {
                        dn = Some(value);
                    } else {
                        let key = text::lowercase(name.as_str());
                        if OperationalAttributes::is_operational(key.as_str()) {
                            proof {
                                drafting_stops(all, i + 1);
                            }
                            return Err(LdifError::ServerManaged { line_no, name });
                        }
                        add_value(&mut attributes, key, value);
                    }
                },
            }
        }
        i = i + 1;
    }
    proof {
        assert(all.take(i as int) =~= all);
    }
    Ok((dn, attributes))
}

/// The name of an entry: that of the root user in full, however it is written.
pub open spec fn entry_dn(raw: Seq<char>, root_user_dn: Seq<char>, root_dn: Seq<char>) -> Seq<char> {
    if text::lower(raw) == text::lower(root_user_dn) || text::lower(raw) == text::lower(root_dn) {
        root_dn
    } else {
        raw
    }
}

/// The attributes of an entry: that of the root user has the password that
/// was set up, where there is one.
pub open spec fn entry_attributes(
    attributes: directory::AttributeSeq,
    is_root: bool,
    root_password: Seq<char>,
) -> directory::AttributeSeq {
    if is_root && root_password.len() > 0 {
        string_map::put(attributes, "userpassword"@, seq![root_password])
    } else {
        attributes
    }
}

/// The password that stands among attributes.
pub open spec fn password_in(attributes: directory::AttributeSeq) -> Seq<u8> {
    match string_map::lookup(attributes, "userpassword"@) {
        Some(values) => if values.len() > 0 {
            utf8::encode_utf8(values[0])
        } else {
            Seq::empty()
        },
        None => Seq::empty(),
    }
}

/// The entry that the lines are.
pub open spec fn initial_entry(
    lines: Numbered,
    root_user_dn: Seq<char>,
    root_dn: Seq<char>,
    root_password: Seq<char>,
) -> Result<InitialEntryView, LdifErrorView> {
    match drafted(lines) {
        Err(e) => Err(e),
        Ok(draft) => match draft.dn {
            None => Err(LdifErrorView::MissingDn),
            Some(raw) => {
                let dn = entry_dn(raw, root_user_dn, root_dn);
                let attributes = entry_attributes(
                    draft.attributes,
                    text::lower(dn) == text::lower(root_dn),
                    root_password,
                );
                Ok(InitialEntryView { dn, attributes, password: password_in(attributes) })
            },
        },
    }
}

/// The entry that the lines are, for a root user of that name, in short and in
/// full, and with that password.
pub fn parse_initial_ldif_entry(
    lines: &Vec<(usize, String)>,
    root_user_dn: &str,
    root_dn: &str,
    root_password: &str,
) -> (r: Result<InitialLdifEntry, LdifError>)
    ensures
        match (r, initial_entry(numbered(lines@), root_user_dn@, root_dn@, root_password@)) {
            (Ok(entry), Ok(view)) => entry@ == view,
            (Err(e), Err(fault)) => e@ == fault,
            _ => false,
        },
{
    let (found, drafted_attributes) = match read_draft(lines) {
        Err(e) => {
            return Err(e);
        },
        Ok(pair) => pair,
    };
    let raw = match found {
        None => {
            return Err(LdifError::MissingDn);
        },
        Some(raw) => raw,
    };
    let dn = if text::eq_ignore_case(raw.as_str(), root_user_dn) || text::eq_ignore_case(
        raw.as_str(),
        root_dn,
    ) {
        root_dn.to_owned()
    } else {
        raw
    };
    let mut attributes = drafted_attributes;
    if text::eq_ignore_case(dn.as_str(), root_dn) && !root_password.is_empty() {
        let mut values: Vec<String> = Vec::new();
        values.push(root_password.to_owned());
        proof {
            assert(text::texts(values@) =~= seq![root_password@]);
        }
        attributes.insert("userpassword".to_owned(), values);
    }
    let password = match attributes.get("userpassword") {
        Some(values) => if values.len() > 0 {
            proof {
                assert(text::texts(values@)[0] == values@[0]@);
            }
            text::bytes_of(values[0].as_str())
        } else {
            Vec::new()
        },
        None => Vec::new(),
    };
    Ok(InitialLdifEntry { dn, attributes, password })
}

/// The group of lines is that entry, and the entry was found to be valid.
pub open spec fn is_accepted<V: Fn(&InitialLdifEntry) -> Result<(), String>>(
    lines: Numbered,
    entry: InitialLdifEntry,
    root_user_dn: Seq<char>,
    root_dn: Seq<char>,
    root_password: Seq<char>,
    validate: V,
) -> bool {
    &&& initial_entry(lines, root_user_dn, root_dn, root_password) == Ok::<
        InitialEntryView,
        LdifErrorView,
    >(entry@)
    &&& call_ensures(validate, (&entry,), Ok::<(), String>(()))
}

/// The group of lines is no entry for that reason, or one that was found not to
/// be valid.
pub open spec fn is_refused<V: Fn(&InitialLdifEntry) -> Result<(), String>>(
    lines: Numbered,
    e: LdifErrorView,
    root_user_dn: Seq<char>,
    root_dn: Seq<char>,
    root_password: Seq<char>,
    validate: V,
) -> bool {
    match initial_entry(lines, root_user_dn, root_dn, root_password) {
        Err(fault) => e == fault,
        Ok(view) => exists|entry: InitialLdifEntry, fault: String|
            entry@ == view && #[trigger] call_ensures(
                validate,
                (&entry,),
                Err::<(), String>(fault),
            ) && e == (LdifErrorView::Schema { dn: view.dn, fault: fault@ }),
    }
}

/// The entries of a file, each held to be valid as it is read. The first group
/// of lines that is no valid entry ends the reading.
pub fn parse_initial_ldif_entries<V: Fn(&InitialLdifEntry) -> Result<(), String>>(
    contents: &str,
    root_user_dn: &str,
    root_dn: &str,
    root_password: &str,
    validate: V,
) -> (r: Result<Vec<InitialLdifEntry>, LdifError>)
    requires
        forall|entry: &InitialLdifEntry| call_requires(validate, (entry,)),
    ensures
        match unfolded(text::lines(contents@)) {
            Err(fault) => r matches Err(e) && e@ == fault,
            Ok(lines) => match r {
                Ok(found) => {
                    &&& found@.len() == records(lines).len()
                    &&& forall|i: int|
                        0 <= i < found@.len() ==> is_accepted(
                            records(lines)[i],
                            #[trigger] found@[i],
                            root_user_dn@,
                            root_dn@,
                            root_password@,
                            validate,
                        )
                },
                Err(e) => exists|before: Seq<InitialLdifEntry>|
                    {
                        &&& before.len() < records(lines).len()
                        &&& #[trigger] is_refused(
                            records(lines)[before.len() as int],
                            e@,
                            root_user_dn@,
                            root_dn@,
                            root_password@,
                            validate,
                        )
                        &&& forall|i: int|
                            0 <= i < before.len() ==> is_accepted(
                                records(lines)[i],
                                #[trigger] before[i],
                                root_user_dn@,
                                root_dn@,
                                root_password@,
                                validate,
                            )
                    },
            },
        },
{
    let found = match read_records(contents) {
        Err(e) => {
            return Err(e);
        },
        Ok(found) => found,
    };
    let ghost all = record_views(found@);
    let mut entries: Vec<InitialLdifEntry> = Vec::new();
    let mut i: usize = 0;
    while i < found.len()
        invariant
            all == record_views(found@),
            i <= found@.len(),
            entries@.len() == i,
            forall|entry: &InitialLdifEntry| call_requires(validate, (entry,)),
            unfolded(text::lines(contents@)) matches Ok(lines) && records(lines) == all,
            forall|j: int|
                0 <= j < i ==> is_accepted(
                    all[j],
                    #[trigger] entries@[j],
                    root_user_dn@,
                    root_dn@,
                    root_password@,
                    validate,
                ),
        decreases found@.len() - i,
    {
        proof {
            assert(all[i as int] == numbered(found@[i as int]@));
        }
        let entry = match parse_initial_ldif_entry(
            &found[i],
            root_user_dn,
            root_dn,
            root_password,
        ) {
            Err(e) => {
                proof {
                    assert(is_refused(
                        all[entries@.len() as int],
                        e@,
                        root_user_dn@,
                        root_dn@,
                        root_password@,
                        validate,
                    ));
                }
                return Err(e);
            },
            Ok(entry) => entry,
        };
        match validate(&entry) {
            Err(fault) => {
                let e = LdifError::Schema { dn: entry.dn.clone(), fault };
                proof {
                    assert(call_ensures(validate, (&entry,), Err::<(), String>(fault)));
                    assert(is_refused(
                        all[entries@.len() as int],
                        e@,
                        root_user_dn@,
                        root_dn@,
                        root_password@,
                        validate,
                    ));
                }
                return Err(e);
            },
            Ok(done) => {
                proof {
                    assert(done == ());
                    assert(call_ensures(validate, (&entry,), Ok::<(), String>(done)));
                }
            },
        }
        let ghost before = entries@;
        proof {
            assert(is_accepted(
                all[i as int],
                entry,
                root_user_dn@,
                root_dn@,
                root_password@,
                validate,
            ));
        }
        entries.push(entry);
        proof {
            assert forall|j: int| 0 <= j < i + 1 implies is_accepted(
                all[j],
                #[trigger] entries@[j],
                root_user_dn@,
                root_dn@,
                root_password@,
                validate,
            ) by {
                if j < i {
                    assert(entries@[j] == before[j]);
                }
            }
        }
        i = i + 1;
    }
    Ok(entries)
}

// ---------------------------------------------------------------------------
// Laws
// ---------------------------------------------------------------------------

/// A line that is broken and goes on with a space is read as the whole line.
pub proof fn folding_is_undone(lines: Seq<Seq<char>>, start: Seq<char>, rest: Seq<char>)
    requires
        start.len() > 0,
        start[0] != ' ',
    ensures
        unfolded(lines.push(start).push(seq![' '] + rest)) == unfolded(lines.push(start + rest)),
{
    let first = lines.push(start);
    let both = first.push(seq![' '] + rest);
    let whole = lines.push(start + rest);
    assert(both.drop_last() =~= first);
    assert(first.drop_last() =~= lines);
    assert(whole.drop_last() =~= lines);
    assert((seq![' '] + rest).drop_first() =~= rest);
    assert((start + rest)[0] == start[0]);
    if let Ok(before) = unfolded(lines) {
        let after = before.push((first.len(), start));
        assert(unfolded(first) == Ok::<Numbered, LdifErrorView>(after));
        assert(after.drop_last() =~= before);
        assert(after.last() == (first.len(), start));
        assert(unfolded(both) == Ok::<Numbered, LdifErrorView>(
            before.push((first.len(), start + rest)),
        ));
    }
}

/// No attribute that the server keeps itself comes from a file.
pub proof fn imported_attributes_are_not_operational(lines: Numbered, key: Seq<char>)
    requires
        drafted(lines) matches Ok(draft) && string_map::lookup(draft.attributes, key) is Some,
    ensures
        !directory::is_operational_name(key),
    decreases lines.len(),
{
    if lines.len() > 0 {
        let (line_no, line) = lines.last();
        if let Ok(draft) = drafted(lines.drop_last()) {
            if is_remark(line) {
                imported_attributes_are_not_operational(lines.drop_last(), key);
            } else if let Ok((name, value)) = attr_value(line, line_no) {
                let lowered = text::lower(name);
                let values = match string_map::lookup(draft.attributes, lowered) {
                    Some(values) => values.push(value),
                    None => seq![value],
                };
                string_map::lookup_put(draft.attributes, lowered, values, key);
                if text::lower(name) == text::lower("dn"@) || key != lowered {
                    imported_attributes_are_not_operational(lines.drop_last(), key);
                }
            }
        }
    }
}

/// The entry of the root user has the password that was set up, whatever the
/// file says.
pub proof fn root_user_has_the_configured_password(
    lines: Numbered,
    root_user_dn: Seq<char>,
    root_dn: Seq<char>,
    root_password: Seq<char>,
)
    requires
        root_password.len() > 0,
        initial_entry(lines, root_user_dn, root_dn, root_password) matches Ok(entry)
            && text::lower(entry.dn) == text::lower(root_dn),
    ensures
        initial_entry(lines, root_user_dn, root_dn, root_password) matches Ok(entry)
            && entry.password == utf8::encode_utf8(root_password),
{
    if let Ok(draft) = drafted(lines) {
        string_map::lookup_put(
            draft.attributes,
            "userpassword"@,
            seq![root_password],
            "userpassword"@,
        );
    }
}

} // verus!
