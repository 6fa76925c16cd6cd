//! Laws of LDAP URLs, of filters as texts, and of the controls that the server
//! accepts.

use vstd::prelude::*;

use crate::ldap_controls::{validated, ControlView};
use crate::ldap_filter_eval::{SearchFilter, SearchSubstring};
use crate::ldap_url::{
    attribute_list, attributes_of, decoded, decoded_bytes, encoded_byte, extension_list,
    extension_of, filter_component, hex_digit, query_selectors, scheme_of, scope_component,
    scope_of, selectors_of, url_of, LdapUrlScheme, LdapUrlScope, UrlErrorView, UrlPartsView,
};
use crate::search_request::kept_at;
use crate::search_text::{escaped, extensible_head, filter_text, filter_texts, pattern_text};
use crate::text;

verus! {

// ---------------------------------------------------------------------------
// URLs
// ---------------------------------------------------------------------------

/// Schemes and scopes are known by their names, and by no other.
pub proof fn schemes_and_scopes_have_names(name: Seq<char>)
    ensures
        scheme_of(name) == Some(LdapUrlScheme::Ldap) <==> name == "ldap"@,
        scheme_of(name) == Some(LdapUrlScheme::Ldaps) <==> name == "ldaps"@,
        scope_of(name) == Ok::<LdapUrlScope, UrlErrorView>(LdapUrlScope::Base) <==> name == "base"@,
        scope_of(name) == Ok::<LdapUrlScope, UrlErrorView>(LdapUrlScope::One) <==> name == "one"@,
        scope_of(name) == Ok::<LdapUrlScope, UrlErrorView>(LdapUrlScope::Sub) <==> name == "sub"@,
        scope_of(name) matches Err(e) ==> e == UrlErrorView::InvalidScope(name),
{
    reveal_strlit("ldap");
    reveal_strlit("ldaps");
    reveal_strlit("base");
    reveal_strlit("one");
    reveal_strlit("sub");
    assert("ldap"@.len() == 4 && "ldaps"@.len() == 5);
    assert("base"@.len() == 4);
    assert("one"@[0] == 'o' && "sub"@[0] == 's');
}

/// A percent sign and two digits in base sixteen, in upper or lower case, stand
/// for one byte; every other byte stands for itself.
pub proof fn percent_signs_stand_for_bytes(high: int, low: int, upper: bool, b: u8, rest: Seq<u8>)
    requires
        0 <= high < 16,
        0 <= low < 16,
        b != 37,
    ensures
        ({
            let digit = |v: int|
                if v < 10 {
                    (48 + v) as u8
                } else if upper {
                    (55 + v) as u8
                } else {
                    (87 + v) as u8
                };
            let encoded = seq![37u8, digit(high), digit(low)] + rest;
            &&& decoded_bytes(rest) matches Some(d) ==> decoded_bytes(encoded) == Some(
                seq![(16 * high + low) as u8] + d,
            )
            &&& decoded_bytes(rest) matches Some(d) ==> decoded_bytes(seq![b] + rest) == Some(
                seq![b] + d,
            )
            &&& decoded_bytes(rest) is None ==> decoded_bytes(encoded) is None && decoded_bytes(
                seq![b] + rest,
            ) is None
            &&& decoded_bytes(Seq::<u8>::empty()) == Some(Seq::<u8>::empty())
        }),
{
    let digit = |v: int|
        if v < 10 {
            (48 + v) as u8
        } else if upper {
            (55 + v) as u8
        } else {
            (87 + v) as u8
        };
    let encoded = seq![37u8, digit(high), digit(low)] + rest;
    assert(encoded[0] == 37);
    assert(encoded[1] == digit(high));
    assert(encoded[2] == digit(low));
    assert(encoded.skip(3) =~= rest);
    assert(hex_digit(digit(high)) == Some(high as u8));
    assert(hex_digit(digit(low)) == Some(low as u8));
    let plain = seq![b] + rest;
    assert(plain[0] == b);
    assert(plain.drop_first() =~= rest);
}

/// A percent sign without two digits behind it is an error.
pub proof fn broken_percent_signs_are_refused(bytes: Seq<u8>)
    requires
        bytes.len() > 0,
        bytes[0] == 37,
        bytes.len() < 3 || hex_digit(bytes[1]) is None || hex_digit(bytes[2]) is None,
    ensures
        decoded_bytes(bytes) is None,
{
}

/// Letters, digits and `-`, `.`, `_`, `~` are written as they are, in a path
/// also `,`, `=`, `+`, `;` and `@`; every other byte with a percent sign.
pub proof fn bytes_are_written(b: u8)
    ensures
        ({
            let c = b as char;
            let plain = '0' <= c <= '9' || 'A' <= c <= 'Z' || 'a' <= c <= 'z' || c == '-' || c
                == '.' || c == '_' || c == '~';
            let in_path = plain || c == ',' || c == '=' || c == '+' || c == ';' || c == '@';
            &&& plain ==> encoded_byte(b, false) == seq![c]
            &&& in_path ==> encoded_byte(b, true) == seq![c]
            &&& !plain ==> encoded_byte(b, false).len() == 3 && encoded_byte(b, false)[0] == '%'
            &&& !in_path ==> encoded_byte(b, true).len() == 3 && encoded_byte(b, true)[0] == '%'
        }),
{
}

/// The four parts of a query are the attributes, the scope, the filter and the
/// extensions, in this order; a part that is empty asks for nothing, and more
/// than four are too many.
pub proof fn queries_have_four_parts(
    a: Seq<char>,
    s: Seq<char>,
    f: Seq<char>,
    e: Seq<char>,
    parts: Seq<Seq<char>>,
)
    ensures
        selectors_of(seq![a, s, f, e]) matches Ok(v) ==> attribute_list(a) == Ok::<
            Seq<Seq<char>>,
            UrlErrorView,
        >(v.attributes) && scope_component(s) == Ok::<Option<LdapUrlScope>, UrlErrorView>(v.scope)
            && filter_component(f) == Ok::<Option<Seq<char>>, UrlErrorView>(v.filter)
            && extension_list(e) == Ok::<Seq<crate::ldap_url::ExtensionView>, UrlErrorView>(
            v.extensions,
        ),
        attribute_list(a) is Ok && scope_component(s) is Ok && filter_component(f) is Ok
            && extension_list(e) is Ok <==> selectors_of(seq![a, s, f, e]) is Ok,
        parts.len() > 4 ==> selectors_of(parts) == Err::<
            crate::ldap_url::SelectorsView,
            UrlErrorView,
        >(UrlErrorView::TooManyComponents(parts.len())),
        query_selectors(None) matches Ok(v) && v.attributes.len() == 0 && v.scope is None
            && v.filter is None && v.extensions.len() == 0,
        scope_component(Seq::<char>::empty()) == Ok::<Option<LdapUrlScope>, UrlErrorView>(None),
        filter_component(Seq::<char>::empty()) == Ok::<Option<Seq<char>>, UrlErrorView>(None),
        attribute_list(Seq::<char>::empty()) matches Ok(v) && v.len() == 0,
        extension_list(Seq::<char>::empty()) matches Ok(v) && v.len() == 0,
{
    let p = seq![a, s, f, e];
    assert(p[0] == a && p[1] == s && p[2] == f && p[3] == e);
}

/// A filter in a URL is what its part stands for, and must stand in brackets.
pub proof fn filters_stand_in_brackets(raw: Seq<char>)
    requires
        raw.len() > 0,
    ensures
        decoded(raw, "filter"@) matches Ok(f) ==> if f.len() > 0 && f[0] == '(' && f.last() == ')' {
            filter_component(raw) == Ok::<Option<Seq<char>>, UrlErrorView>(Some(f))
        } else {
            filter_component(raw) == Err::<Option<Seq<char>>, UrlErrorView>(
                UrlErrorView::InvalidFilter(f),
            )
        },
        decoded(raw, "scope"@) matches Ok(name) ==> (scope_component(raw) is Ok <==> scope_of(name)
            is Ok) && (scope_of(name) matches Ok(scope) ==> scope_component(raw) == Ok::<
            Option<LdapUrlScope>,
            UrlErrorView,
        >(Some(scope))),
{
}

/// An extension is critical exactly where an exclamation mark stands before
/// it, and has a value exactly where an equals sign follows its name.
pub proof fn extensions_are_read(name: Seq<char>, value: Seq<char>)
    requires
        name.len() > 0,
        !name.contains('='),
        name[0] != '!',
        decoded(name, "extension name"@) matches Ok(n) && n.len() > 0,
        decoded(value, "extension value"@) is Ok,
    ensures
        ({
            let n = decoded(name, "extension name"@)->Ok_0;
            let v = decoded(value, "extension value"@)->Ok_0;
            &&& extension_of(name) matches Ok(e) && !e.critical && e.name == n && e.value is None
            &&& extension_of(seq!['!'] + name) matches Ok(e) && e.critical && e.name == n && e.value
                is None
            &&& extension_of(name + seq!['='] + value) matches Ok(e) && !e.critical && e.name == n
                && e.value == Some(v)
            &&& extension_of(seq!['!'] + name + seq!['='] + value) matches Ok(e) && e.critical
                && e.name == n && e.value == Some(v)
            &&& extension_of(Seq::<char>::empty()) is Err
            &&& extension_of(seq!['!']) is Err
        }),
{
    text::find_char_bounds(name, '=');
    let pair = name + seq!['='] + value;
    let k = name.len() as int;
    assert(pair[k] == '=');
    assert forall|j: int| 0 <= j < k implies pair[j] != '=' by {
        assert(pair[j] == name[j]);
        assert(name.contains(name[j]));
    }
    text::find_char_unique(pair, '=', k);
    assert(pair.take(k) =~= name);
    assert(pair.skip(k + 1) =~= value);
    assert(pair[0] == name[0]);
    assert((seq!['!'] + name).drop_first() =~= name);
    assert((seq!['!'] + name + seq!['='] + value).drop_first() =~= pair);
    assert((seq!['!'] + name + seq!['='] + value)[0] == '!');
    assert(seq!['!'].drop_first() =~= Seq::<char>::empty());
}

/// The attributes of a URL are those between the commas, in their order; an
/// empty one is an error.
pub proof fn attributes_are_read_in_order(parts: Seq<Seq<char>>)
    ensures
        attributes_of(parts) matches Ok(v) ==> v.len() == parts.len() && forall|i: int|
            0 <= i < parts.len() ==> (#[trigger] parts[i]).len() > 0 && decoded(
                parts[i],
                "attribute"@,
            ) == Ok::<Seq<char>, UrlErrorView>(v[i]),
        (forall|i: int|
            0 <= i < parts.len() ==> (#[trigger] parts[i]).len() > 0 && decoded(
                parts[i],
                "attribute"@,
            ) is Ok) ==> attributes_of(parts) is Ok,
    decreases parts.len(),
{
    if parts.len() > 0 {
        let rest = parts.drop_first();
        attributes_are_read_in_order(rest);
        assert forall|i: int| 0 <= i < rest.len() implies #[trigger] rest[i] == parts[i + 1] by {}
        if attributes_of(parts) is Ok {
            let v = attributes_of(parts)->Ok_0;
            let w = attributes_of(rest)->Ok_0;
            assert forall|i: int| 0 <= i < parts.len() implies (#[trigger] parts[i]).len() > 0
                && decoded(parts[i], "attribute"@) == Ok::<Seq<char>, UrlErrorView>(v[i]) by {
                if i > 0 {
                    assert(rest[i - 1] == parts[i]);
                    assert(v[i] == w[i - 1]);
                }
            }
        } else if forall|i: int|
            0 <= i < parts.len() ==> (#[trigger] parts[i]).len() > 0 && decoded(
                parts[i],
                "attribute"@,
            ) is Ok {
            assert(parts[0].len() > 0);
            assert forall|i: int| 0 <= i < rest.len() implies (#[trigger] rest[i]).len() > 0
                && decoded(rest[i], "attribute"@) is Ok by {
                assert(parts[i + 1].len() > 0);
            }
            assert(false);
        }
    }
}

/// A URL keeps the host and the port of its text, and has the name that its
/// path stands for; another scheme, and a user or a password in it, are
/// refused.
pub proof fn urls_keep_their_parts(parts: UrlPartsView)
    ensures
        scheme_of(parts.scheme) is None ==> url_of(parts) == Err::<
            crate::ldap_url::LdapUrlView,
            UrlErrorView,
        >(UrlErrorView::UnsupportedScheme(parts.scheme)),
        scheme_of(parts.scheme) is Some && (parts.username.len() > 0 || parts.password is Some)
            ==> url_of(parts) == Err::<crate::ldap_url::LdapUrlView, UrlErrorView>(
            UrlErrorView::UnsupportedUserInfo,
        ),
        url_of(parts) matches Ok(u) ==> {
            &&& scheme_of(parts.scheme) == Some(u.scheme)
            &&& u.host == parts.host
            &&& u.port == parts.port
            &&& parts.username.len() == 0
            &&& parts.password is None
            &&& parts.path.len() > 0 && parts.path[0] == '/' ==> decoded(
                parts.path.drop_first(),
                "dn"@,
            ) == Ok::<Seq<char>, UrlErrorView>(u.dn)
            &&& query_selectors(parts.query) matches Ok(s) && s.attributes == u.attributes
                && s.scope == u.scope && s.filter == u.filter && s.extensions == u.extensions
        },
{
}

// ---------------------------------------------------------------------------
// Filters as texts
// ---------------------------------------------------------------------------

/// The text of a filter stands in brackets: the sign of a connective before
/// the texts of its members, or the attribute, the sign of the comparison and
/// the value.
pub proof fn filters_have_their_texts(f: SearchFilter)
    ensures
        match f {
            SearchFilter::And(fs) => filter_text(f) == seq!['(', '&'] + filter_texts(fs@) + seq![
                ')',
            ],
            SearchFilter::Or(fs) => filter_text(f) == seq!['(', '|'] + filter_texts(fs@) + seq![')'],
            SearchFilter::Not(g) => filter_text(f) == seq!['(', '!'] + filter_text(*g) + seq![')'],
            SearchFilter::EqualityMatch { attribute, value } => filter_text(f) == seq!['(']
                + attribute@ + seq!['='] + escaped(value@) + seq![')'],
            SearchFilter::GreaterOrEqual { attribute, value } => filter_text(f) == seq!['(']
                + attribute@ + seq!['>', '='] + escaped(value@) + seq![')'],
            SearchFilter::LessOrEqual { attribute, value } => filter_text(f) == seq!['(']
                + attribute@ + seq!['<', '='] + escaped(value@) + seq![')'],
            SearchFilter::ApproxMatch { attribute, value } => filter_text(f) == seq!['(']
                + attribute@ + seq!['~', '='] + escaped(value@) + seq![')'],
            SearchFilter::Present { attribute } => filter_text(f) == seq!['('] + attribute@ + seq![
                '=',
                '*',
                ')',
            ],
            SearchFilter::Substrings { attribute, substrings } => filter_text(f) == seq!['(']
                + attribute@ + seq!['='] + pattern_text(substrings@) + seq![')'],
            SearchFilter::ExtensibleMatch { rule_type, matching_rule, value, dn_attributes } =>
                filter_text(f) == seq!['('] + extensible_head(
                    rule_type,
                    matching_rule,
                    dn_attributes,
                ) + seq![':', '='] + escaped(value@) + seq![')'],
        },
{
    reveal_strlit("(&");
    reveal_strlit("(|");
    reveal_strlit("(!");
    reveal_strlit("(");
    reveal_strlit(")");
    reveal_strlit("=");
    reveal_strlit(">=");
    reveal_strlit("<=");
    reveal_strlit("~=");
    reveal_strlit("=*)");
    reveal_strlit(":=");
    assert("(&"@ =~= seq!['(', '&']);
    assert("(|"@ =~= seq!['(', '|']);
    assert("(!"@ =~= seq!['(', '!']);
    assert("("@ =~= seq!['(']);
    assert(")"@ =~= seq![')']);
    assert("="@ =~= seq!['=']);
    assert(">="@ =~= seq!['>', '=']);
    assert("<="@ =~= seq!['<', '=']);
    assert("~="@ =~= seq!['~', '=']);
    assert("=*)"@ =~= seq!['=', '*', ')']);
    assert(":="@ =~= seq![':', '=']);
}

/// The texts of the members follow each other.
pub proof fn members_have_their_texts(fs: Seq<SearchFilter>, f: SearchFilter)
    ensures
        filter_texts(fs.push(f)) == filter_texts(fs) + filter_text(f),
        filter_texts(Seq::<SearchFilter>::empty()).len() == 0,
{
    assert(fs.push(f).drop_last() =~= fs);
}

/// The pieces of a pattern are parted by stars: none stands before a piece
/// that the value starts with, and none behind one that it ends with.
pub proof fn patterns_have_their_stars(a: Vec<u8>, b: Vec<u8>)
    ensures
        pattern_text(seq![SearchSubstring::Initial(a)]) == escaped(a@),
        pattern_text(seq![SearchSubstring::Any(a)]) == seq!['*'] + escaped(a@) + seq!['*'],
        pattern_text(seq![SearchSubstring::Final(a)]) == seq!['*'] + escaped(a@),
        pattern_text(seq![SearchSubstring::Initial(a), SearchSubstring::Final(b)]) == escaped(a@)
            + seq!['*'] + escaped(b@),
{
    reveal_with_fuel(crate::search_text::pattern_from, 3);
    crate::search_text::unescaping_undoes_escaping(a@);
    let i = SearchSubstring::Initial(a);
    let n = SearchSubstring::Any(a);
    let f = SearchSubstring::Final(a);
    let g = SearchSubstring::Final(b);
    let none = Seq::<SearchSubstring>::empty();
    assert(seq![i].drop_last() =~= none);
    assert(seq![n].drop_last() =~= none);
    assert(seq![f].drop_last() =~= none);
    assert(seq![i, g].drop_last() =~= seq![i]);
    assert(seq![i, g].last() == g);
    let e = Seq::<char>::empty();
    assert(e + escaped(a@) =~= escaped(a@));
    if escaped(a@).len() > 0 && escaped(a@).last() == '*' {
        assert(escaped(a@).contains(escaped(a@)[escaped(a@).len() - 1]));
    }
    assert(pattern_text(seq![i]) =~= escaped(a@));
    assert(seq!['*'].last() == '*');
    assert(pattern_text(seq![n]) =~= seq!['*'] + escaped(a@) + seq!['*']);
    assert(pattern_text(seq![f]) =~= seq!['*'] + escaped(a@));
    assert(pattern_text(seq![i, g]) =~= escaped(a@) + seq!['*'] + escaped(b@));
}

/// A filter that is kept under a text is found under it: the first one.
pub proof fn kept_filters_are_found(texts: Seq<Seq<char>>, rendered: Seq<char>)
    ensures
        0 <= kept_at(texts, rendered) <= texts.len(),
        kept_at(texts, rendered) < texts.len() ==> texts[kept_at(texts, rendered)] == rendered,
        kept_at(texts, rendered) < texts.len() <==> texts.contains(rendered),
    decreases texts.len(),
{
    if texts.len() > 0 {
        let rest = texts.drop_first();
        kept_filters_are_found(rest, rendered);
        if texts[0] != rendered && texts.contains(rendered) {
            let i = choose|i: int| 0 <= i < texts.len() && texts[i] == rendered;
            assert(rest[i - 1] == rendered);
        }
        if rest.contains(rendered) {
            let i = choose|i: int| 0 <= i < rest.len() && rest[i] == rendered;
            assert(texts[i + 1] == rendered);
        }
    }
}

// ---------------------------------------------------------------------------
// Controls
// ---------------------------------------------------------------------------

/// A request is refused exactly where one of its controls is critical and not
/// known, for the first such; else those that are known are accepted and the
/// others ignored, each in their order.
pub proof fn controls_are_sorted_out(known: Set<Seq<char>>, cs: Seq<ControlView>)
    ensures
        validated(known, cs) is Err <==> exists|i: int|
            0 <= i < cs.len() && (#[trigger] cs[i]).criticality && !known.contains(cs[i].oid),
        validated(known, cs) matches Ok(v) ==> v.accepted == cs.filter(
            |c: ControlView| known.contains(c.oid),
        ) && v.ignored == cs.filter(|c: ControlView| !known.contains(c.oid)),
        validated(known, cs) matches Err(oid) ==> exists|i: int|
            0 <= i < cs.len() && (#[trigger] cs[i]).criticality && !known.contains(cs[i].oid)
                && cs[i].oid == oid && forall|j: int|
                0 <= j < i ==> !((#[trigger] cs[j]).criticality && !known.contains(cs[j].oid)),
    decreases cs.len(),
{
    let yes = |c: ControlView| known.contains(c.oid);
    let no = |c: ControlView| !known.contains(c.oid);
    if cs.len() > 0 {
        let rest = cs.drop_first();
        controls_are_sorted_out(known, rest);
        assert forall|i: int| 0 <= i < rest.len() implies #[trigger] rest[i] == cs[i + 1] by {}
        filtered_from_the_front(cs, yes);
        filtered_from_the_front(cs, no);
        if cs[0].criticality && !known.contains(cs[0].oid) {
        } else {
            if validated(known, rest) is Err {
                let oid = validated(known, rest)->Err_0;
                let i = choose|i: int|
                    0 <= i < rest.len() && (#[trigger] rest[i]).criticality && !known.contains(
                        rest[i].oid,
                    ) && rest[i].oid == oid && forall|j: int|
                        0 <= j < i ==> !((#[trigger] rest[j]).criticality && !known.contains(
                            rest[j].oid,
                        ));
                assert(cs[i + 1].criticality && !known.contains(cs[i + 1].oid));
                assert forall|j: int| 0 <= j < i + 1 implies !((#[trigger] cs[j]).criticality
                    && !known.contains(cs[j].oid)) by {
                    if j > 0 {
                        assert(rest[j - 1] == cs[j]);
                    }
                }
            } else if exists|i: int|
                0 <= i < cs.len() && (#[trigger] cs[i]).criticality && !known.contains(
                    cs[i].oid,
                ) {
                let i = choose|i: int|
                    0 <= i < cs.len() && (#[trigger] cs[i]).criticality && !known.contains(
                        cs[i].oid,
                    );
                assert(rest[i - 1].criticality && !known.contains(rest[i - 1].oid));
            }
        }
    } else {
        reveal(Seq::filter);
        assert(cs.filter(yes) =~= Seq::empty());
        assert(cs.filter(no) =~= Seq::empty());
    }
}

proof fn filtered_from_the_front(cs: Seq<ControlView>, keep: spec_fn(ControlView) -> bool)
    requires
        cs.len() > 0,
    ensures
        cs.filter(keep) == (if keep(cs[0]) {
            seq![cs[0]] + cs.drop_first().filter(keep)
        } else {
            cs.drop_first().filter(keep)
        }),
    decreases cs.len(),
{
    reveal(Seq::filter);
    let rest = cs.drop_first();
    if cs.len() == 1 {
        assert(cs.drop_last() =~= Seq::<ControlView>::empty());
        assert(rest =~= Seq::<ControlView>::empty());
        assert(cs.drop_last().filter(keep) =~= Seq::<ControlView>::empty());
        assert(rest.filter(keep) =~= Seq::<ControlView>::empty());
        assert(cs.filter(keep) =~= (if keep(cs[0]) {
            seq![cs[0]]
        } else {
            Seq::empty()
        }));
    } else {
        filtered_from_the_front(cs.drop_last(), keep);
        assert(cs.drop_last().drop_first() =~= rest.drop_last());
        assert(rest.last() == cs.last());
        assert(cs.filter(keep) =~= (if keep(cs[0]) {
            seq![cs[0]] + rest.filter(keep)
        } else {
            rest.filter(keep)
        }));
    }
}

} // verus!
