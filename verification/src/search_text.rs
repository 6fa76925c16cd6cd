//! The filter of a search request as a text.

use vstd::prelude::*;

use crate::ldap_filter_eval::{SearchFilter, SearchSubstring};

verus! {

/// A byte that stands for itself in the text of a filter.
pub open spec fn stands_for_itself(byte: u8) -> bool {
    0x20 <= byte <= 0x7e && byte != 42 && byte != 40 && byte != 41 && byte != 92
}

/// The hexadecimal digit of a value, in lower case.
pub open spec fn hex_letter(value: int) -> char {
    if value < 10 {
        (48 + value) as char
    } else {
        (87 + value) as char
    }
}

fn hex_char(value: u8) -> (r: char)
    requires
        value < 16,
    ensures
        r == hex_letter(value as int),
{
    if value < 10 {
        (48 + value) as char
    } else {
        (87 + value) as char
    }
}

/// The characters that stand for a byte.
pub open spec fn escaped_byte(byte: u8) -> Seq<char> {
    if stands_for_itself(byte) {
        seq![byte as char]
    } else {
        seq!['\\', hex_letter(byte as int / 16), hex_letter(byte as int % 16)]
    }
}

/// The characters that stand for a value.
pub open spec fn escaped(value: Seq<u8>) -> Seq<char>
    decreases value.len(),
{
    if value.len() == 0 {
        Seq::empty()
    } else {
        escaped_byte(value[0]) + escaped(value.drop_first())
    }
}

/// A value as it stands in the text of a filter.
pub fn escape_filter_value(value: &Vec<u8>) -> (r: String)
    ensures
        r@ == escaped(value@),
{
    let ghost all = value@;
    let mut out = String::new();
    let mut i: usize = 0;
    proof {
        assert(all.skip(0) =~= all);
        assert(out@ + escaped(all) =~= escaped(all));
    }
    while i < value.len()
        invariant
            all == value@,
            i <= value@.len(),
            out@ + escaped(all.skip(i as int)) == escaped(all),
        decreases value@.len() - i,
    {
        let byte = value[i];
        let ghost before = out@;
        if 0x20 <= byte && byte <= 0x7e && byte != 42 && byte != 40 && byte != 41 && byte != 92 {
            out.push(byte as char);
        } else {
            out.push('\\');
            out.push(hex_char(byte / 16));
            out.push(hex_char(byte % 16));
        }
        proof {
            assert(all.skip(i as int).drop_first() =~= all.skip(i + 1));
            assert(all.skip(i as int)[0] == byte);
            assert(out@ =~= before + escaped_byte(byte));
            let rest = escaped(all.skip(i + 1));
            assert(before + (escaped_byte(byte) + rest) =~= out@ + rest);
        }
        i = i + 1;
    }
    proof {
        assert(out@ + Seq::<char>::empty() =~= out@);
    }
    out
}

/// The text with a star behind it, unless it ends with one.
pub open spec fn starred(s: Seq<char>) -> Seq<char> {
    if s.len() > 0 && s.last() == '*' {
        s
    } else {
        s.push('*')
    }
}

/// The pattern with one more piece.
pub open spec fn pattern_with(before: Seq<char>, piece: SearchSubstring) -> Seq<char> {
    match piece {
        SearchSubstring::Initial(value) => before + escaped(value@),
        SearchSubstring::Any(value) => (starred(before) + escaped(value@)).push('*'),
        SearchSubstring::Final(value) => starred(before) + escaped(value@),
    }
}

/// The pattern with more pieces.
pub open spec fn pattern_from(start: Seq<char>, pieces: Seq<SearchSubstring>) -> Seq<char>
    decreases pieces.len(),
{
    if pieces.len() == 0 {
        start
    } else {
        pattern_with(pattern_from(start, pieces.drop_last()), pieces.last())
    }
}

/// The pieces of a pattern as they stand in the text of a filter.
pub open spec fn pattern_text(pieces: Seq<SearchSubstring>) -> Seq<char> {
    if pieces.len() == 0 {
        seq!['*']
    } else if pieces[0] is Initial {
        pattern_from(Seq::empty(), pieces)
    } else {
        pattern_from(seq!['*'], pieces)
    }
}

/// Puts a star behind the text, unless it ends with one. The text is a pattern
/// that began with the given star or piece.
fn push_star(out: &mut String, ends_starred: bool)
    requires
        ends_starred == (old(out)@.len() > 0 && old(out)@.last() == '*'),
    ensures
        final(out)@ == starred(old(out)@),
{
    if !ends_starred {
        out.push('*');
    }
}

proof fn escaped_has_no_star(value: Seq<u8>)
    ensures
        !escaped(value).contains('*'),
        !escaped(value).contains('('),
        !escaped(value).contains(')'),
    decreases value.len(),
{
    if value.len() > 0 {
        let rest = value.drop_first();
        escaped_has_no_star(rest);
        let a = escaped_byte(value[0]);
        let b = escaped(rest);
        let s = escaped(value);
        assert(s =~= a + b);
        assert forall|i: int| 0 <= i < s.len() implies s[i] != '*' && s[i] != '(' && s[i]
            != ')' by {
            if i < a.len() {
                assert(s[i] == a[i]);
            } else {
                assert(s[i] == b[i - a.len()]);
                assert(b.contains(b[i - a.len()]));
            }
        }
    }
}

/// The pieces of a pattern as they stand in the text of a filter.
pub fn render_substring_filter(substrings: &Vec<SearchSubstring>) -> (r: String)
    ensures
        r@ == pattern_text(substrings@),
{
    let ghost all = substrings@;
    let mut out = String::new();
    if substrings.len() == 0 {
        out.push('*');
        proof {
            assert(out@ =~= seq!['*']);
        }
        return out;
    }
    let initial = matches!(substrings[0], SearchSubstring::Initial(_));
    if !initial {
        out.push('*');
    }
    let ghost start = out@;
    // Whether the pattern ends with a star.
    let mut ends_starred = !initial;
    let mut i: usize = 0;
    proof {
        if initial {
            assert(start =~= Seq::<char>::empty());
        } else {
            assert(start =~= seq!['*']);
        }
        assert(all.take(0) =~= Seq::<SearchSubstring>::empty());
    }
    while i < substrings.len()
        invariant
            all == substrings@,
            i <= substrings@.len(),
            out@ == pattern_from(start, all.take(i as int)),
            ends_starred == (out@.len() > 0 && out@.last() == '*'),
        decreases substrings@.len() - i,
    {
        proof {
            assert(all.take(i + 1).drop_last() =~= all.take(i as int));
            assert(all.take(i + 1).last() == all[i as int]);
        }
        let ghost before = out@;
        match &substrings[i] {
            SearchSubstring::Initial(value) => {
                let text = escape_filter_value(value);
                out.append(text.as_str());
                proof {
                    escaped_has_no_star(value@);
                    if value@.len() > 0 {
                        escaped_length(value@);
                        assert(text@.contains(text@.last()));
                    } else {
                        assert(out@ =~= before);
                    }
                }
                ends_starred = ends_starred && value.len() == 0;
            },
            SearchSubstring::Any(value) => {
                push_star(&mut out, ends_starred);
                let text = escape_filter_value(value);
                out.append(text.as_str());
                out.push('*');
                ends_starred = true;
            },
            SearchSubstring::Final(value) => {
                push_star(&mut out, ends_starred);
                let text = escape_filter_value(value);
                out.append(text.as_str());
                proof {
                    escaped_has_no_star(value@);
                    if value@.len() > 0 {
                        escaped_length(value@);
                        assert(text@.contains(text@.last()));
                    } else {
                        assert(out@ =~= starred(before));
                    }
                }
                ends_starred = value.len() == 0;
            },
        }
        i = i + 1;
    }
    proof {
        assert(all.take(i as int) =~= all);
    }
    out
}

proof fn escaped_length(value: Seq<u8>)
    ensures
        escaped(value).len() >= value.len(),
    decreases value.len(),
{
    if value.len() > 0 {
        escaped_length(value.drop_first());
    }
}

/// What stands before the value of an extensible match.
pub open spec fn extensible_head(
    rule_type: Option<String>,
    matching_rule: Option<String>,
    dn_attributes: Option<bool>,
) -> Seq<char> {
    (match rule_type {
        Some(t) => t@,
        None => Seq::empty(),
    }) + (if dn_attributes == Some(true) {
        ":dn"@
    } else {
        Seq::empty()
    }) + (match matching_rule {
        Some(rule) => ":"@ + rule@,
        None => Seq::empty(),
    })
}

/// The filter of a search request as a text.
pub open spec fn filter_text(f: SearchFilter) -> Seq<char>
    decreases f, 0nat,
{
    match f {
        SearchFilter::And(fs) => "(&"@ + filter_texts(fs@) + ")"@,
        SearchFilter::Or(fs) => "(|"@ + filter_texts(fs@) + ")"@,
        SearchFilter::Not(g) => "(!"@ + filter_text(*g) + ")"@,
        SearchFilter::EqualityMatch { attribute, value } => "("@ + attribute@ + "="@ + escaped(
            value@,
        ) + ")"@,
        SearchFilter::Substrings { attribute, substrings } => "("@ + attribute@ + "="@
            + pattern_text(substrings@) + ")"@,
        SearchFilter::GreaterOrEqual { attribute, value } => "("@ + attribute@ + ">="@ + escaped(
            value@,
        ) + ")"@,
        SearchFilter::LessOrEqual { attribute, value } => "("@ + attribute@ + "<="@ + escaped(
            value@,
        ) + ")"@,
        SearchFilter::Present { attribute } => "("@ + attribute@ + "=*)"@,
        SearchFilter::ApproxMatch { attribute, value } => "("@ + attribute@ + "~="@ + escaped(
            value@,
        ) + ")"@,
        SearchFilter::ExtensibleMatch { rule_type, matching_rule, value, dn_attributes } => "("@
            + extensible_head(rule_type, matching_rule, dn_attributes) + ":="@ + escaped(value@)
            + ")"@,
    }
}

/// The texts of filters, one after the other.
pub open spec fn filter_texts(fs: Seq<SearchFilter>) -> Seq<char>
    decreases fs, 1nat,
{
    if fs.len() == 0 {
        Seq::empty()
    } else {
        filter_texts(fs.drop_last()) + filter_text(fs[fs.len() - 1])
    }
}

/// A comparison of an attribute with a value.
fn comparison(attribute: &str, sign: &str, value: &str) -> (r: String)
    ensures
        r@ == "("@ + attribute@ + sign@ + value@ + ")"@,
{
    let mut out = "(".to_owned();
    out.append(attribute);
    out.append(sign);
    out.append(value);
    out.append(")");
    out
}

/// The filter of a search request as a text.
pub fn render_search_filter_string(filter: &SearchFilter) -> (r: String)
    ensures
        r@ == filter_text(*filter),
    decreases filter, 0nat,
{
    match filter {
        SearchFilter::And(fs) => {
            let mut out = "(&".to_owned();
            out.append(render_all(fs).as_str());
            out.append(")");
            out
        },
        SearchFilter::Or(fs) => {
            let mut out = "(|".to_owned();
            out.append(render_all(fs).as_str());
            out.append(")");
            out
        },
        SearchFilter::Not(g) => {
            let mut out = "(!".to_owned();
            out.append(render_search_filter_string(g).as_str());
            out.append(")");
            out
        },
        SearchFilter::EqualityMatch { attribute, value } => comparison(
            attribute.as_str(),
            "=",
            escape_filter_value(value).as_str(),
        ),
        SearchFilter::Substrings { attribute, substrings } => comparison(
            attribute.as_str(),
            "=",
            render_substring_filter(substrings).as_str(),
        ),
        SearchFilter::GreaterOrEqual { attribute, value } => comparison(
            attribute.as_str(),
            ">=",
            escape_filter_value(value).as_str(),
        ),
        SearchFilter::LessOrEqual { attribute, value } => comparison(
            attribute.as_str(),
            "<=",
            escape_filter_value(value).as_str(),
        ),
        SearchFilter::Present { attribute } => {
            let mut out = "(".to_owned();
            out.append(attribute.as_str());
            out.append("=*)");
            out
        },
        SearchFilter::ApproxMatch { attribute, value } => comparison(
            attribute.as_str(),
            "~=",
            escape_filter_value(value).as_str(),
        ),
        SearchFilter::ExtensibleMatch { rule_type, matching_rule, value, dn_attributes } => {
            let mut head = String::new();
            if let Some(t) = rule_type {
                head.append(t.as_str());
            }
            if let Some(true) = dn_attributes {
                head.append(":dn");
            }
            if let Some(rule) = matching_rule {
                head.append(":");
                head.append(rule.as_str());
            }
            proof {
                assert(head@ =~= extensible_head(*rule_type, *matching_rule, *dn_attributes));
            }
            comparison(head.as_str(), ":=", escape_filter_value(value).as_str())
        },
    }
}

fn render_all(fs: &Vec<SearchFilter>) -> (r: String)
    ensures
        r@ == filter_texts(fs@),
    decreases fs, 1nat,
{
    let mut out = String::new();
    let mut i: usize = 0;
    proof {
        assert(out@ =~= filter_texts(fs@.take(0)));
    }
    while i < fs.len()
        invariant
            i <= fs@.len(),
            out@ == filter_texts(fs@.take(i as int)),
        decreases fs@.len() - i,
    {
        proof {
            assert(fs@.take(i + 1).drop_last() =~= fs@.take(i as int));
            assert(fs@.take(i + 1)[i as int] == fs@[i as int]);
        }
        let text = render_search_filter_string(&fs[i]);
        out.append(text.as_str());
        i = i + 1;
    }
    proof {
        assert(fs@.take(i as int) =~= fs@);
    }
    out
}

// ---------------------------------------------------------------------------
// Laws
// ---------------------------------------------------------------------------

/// The value of a hexadecimal digit in lower case.
pub open spec fn hex_value(c: char) -> Option<int> {
    if '0' <= c && c <= '9' {
        Some(c as int - 48)
    } else if 'a' <= c && c <= 'f' {
        Some(c as int - 87)
    } else {
        None
    }
}

/// The value that a text stands for: a backslash and two digits are one byte,
/// every other character is its own.
pub open spec fn unescaped(s: Seq<char>) -> Option<Seq<u8>>
    decreases s.len(),
{
    if s.len() == 0 {
        Some(Seq::empty())
    } else if s[0] == '\\' {
        if s.len() < 3 || hex_value(s[1]) is None || hex_value(s[2]) is None {
            None
        } else {
            match unescaped(s.skip(3)) {
                Some(rest) => Some(
                    seq![(hex_value(s[1])->0 * 16 + hex_value(s[2])->0) as u8] + rest,
                ),
                None => None,
            }
        }
    } else {
        match unescaped(s.drop_first()) {
            Some(rest) => Some(seq![s[0] as u8] + rest),
            None => None,
        }
    }
}

/// The text of a value stands for that value, and holds no character that has
/// a meaning of its own in a filter.
pub proof fn unescaping_undoes_escaping(value: Seq<u8>)
    ensures
        unescaped(escaped(value)) == Some(value),
        !escaped(value).contains('*'),
        !escaped(value).contains('('),
        !escaped(value).contains(')'),
    decreases value.len(),
{
    escaped_has_no_star(value);
    if value.len() == 0 {
        assert(value =~= Seq::<u8>::empty());
    } else {
        let b = value[0];
        let rest = value.drop_first();
        unescaping_undoes_escaping(rest);
        let s = escaped(value);
        let tail = escaped(rest);
        assert(s =~= escaped_byte(b) + tail);
        if stands_for_itself(b) {
            assert(s[0] == b as char);
            assert(s.drop_first() =~= tail);
        } else {
            assert(s[0] == '\\');
            assert(s[1] == hex_letter(b as int / 16));
            assert(s[2] == hex_letter(b as int % 16));
            assert(s.skip(3) =~= tail);
        }
        assert(seq![b] + rest =~= value);
    }
}

/// Values that differ have texts that differ.
pub proof fn escaping_tells_values_apart(a: Seq<u8>, b: Seq<u8>)
    requires
        escaped(a) == escaped(b),
    ensures
        a == b,
{
    unescaping_undoes_escaping(a);
    unescaping_undoes_escaping(b);
}

} // verus!
