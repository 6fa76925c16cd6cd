//! LDAP URLs: `ldap://host:port/dn?attributes?scope?filter?extensions`.

use vstd::prelude::*;
use vstd::utf8;

use crate::text;

verus! {

/// The scheme of an LDAP URL.
#[derive(Debug, Clone, Copy, PartialEq, Eq, Structural)]
pub enum LdapUrlScheme {
    Ldap,
    Ldaps,
}

/// The name of a scheme.
pub open spec fn scheme_name(scheme: LdapUrlScheme) -> Seq<char> {
    match scheme {
        LdapUrlScheme::Ldap => "ldap"@,
        LdapUrlScheme::Ldaps => "ldaps"@,
    }
}

impl LdapUrlScheme {
    pub fn as_str(self) -> (r: &'static str)
        ensures
            r@ == scheme_name(self),
    {
        match self {
            LdapUrlScheme::Ldap => "ldap",
            LdapUrlScheme::Ldaps => "ldaps",
        }
    }

    pub fn default_port(self) -> (r: u16)
        ensures
            r == (match self {
                LdapUrlScheme::Ldap => 389u16,
                LdapUrlScheme::Ldaps => 636u16,
            }),
    {
        match self {
            LdapUrlScheme::Ldap => 389,
            LdapUrlScheme::Ldaps => 636,
        }
    }
}

/// The scope that an LDAP URL asks for.
#[derive(Debug, Clone, Copy, PartialEq, Eq, Structural)]
pub enum LdapUrlScope {
    Base,
    One,
    Sub,
}

/// The name of a scope.
pub open spec fn scope_name(scope: LdapUrlScope) -> Seq<char> {
    match scope {
        LdapUrlScope::Base => "base"@,
        LdapUrlScope::One => "one"@,
        LdapUrlScope::Sub => "sub"@,
    }
}

/// The scope of that name.
pub open spec fn scope_of(name: Seq<char>) -> Result<LdapUrlScope, UrlErrorView> {
    if name == "base"@ {
        Ok(LdapUrlScope::Base)
    } else if name == "one"@ {
        Ok(LdapUrlScope::One)
    } else if name == "sub"@ {
        Ok(LdapUrlScope::Sub)
    } else {
        Err(UrlErrorView::InvalidScope(name))
    }
}

impl LdapUrlScope {
    pub fn as_str(self) -> (r: &'static str)
        ensures
            r@ == scope_name(self),
    {
        match self {
            LdapUrlScope::Base => "base",
            LdapUrlScope::One => "one",
            LdapUrlScope::Sub => "sub",
        }
    }

    /// The scope of that name.
    pub fn from_str(scope: &str) -> (r: Result<LdapUrlScope, LdapUrlError>)
        ensures
            match r {
                Ok(v) => scope_of(scope@) == Ok::<LdapUrlScope, UrlErrorView>(v),
                Err(e) => scope_of(scope@) == Err::<LdapUrlScope, UrlErrorView>(e@),
            },
    {
        if text::same(scope, "base") {
            Ok(LdapUrlScope::Base)
        } else if text::same(scope, "one") {
            Ok(LdapUrlScope::One)
        } else if text::same(scope, "sub") {
            Ok(LdapUrlScope::Sub)
        } else {
            Err(LdapUrlError::InvalidScope { scope: scope.to_owned() })
        }
    }
}

/// An extension of an LDAP URL.
#[derive(Debug, Clone, PartialEq, Eq)]
pub struct LdapUrlExtension {
    pub critical: bool,
    pub name: String,
    pub value: Option<String>,
}

/// What a [`LdapUrlExtension`] says.
pub struct ExtensionView {
    pub critical: bool,
    pub name: Seq<char>,
    pub value: Option<Seq<char>>,
}

impl View for LdapUrlExtension {
    type V = ExtensionView;

    open spec fn view(&self) -> ExtensionView {
        ExtensionView {
            critical: self.critical,
            name: self.name@,
            value: text::option_text(self.value),
        }
    }
}

/// What the extensions of a list say.
pub open spec fn extension_views(es: Seq<LdapUrlExtension>) -> Seq<ExtensionView> {
    es.map_values(|e: LdapUrlExtension| e@)
}

/// An LDAP URL.
#[derive(Debug, Clone, PartialEq, Eq)]
pub struct LdapUrl {
    pub scheme: LdapUrlScheme,
    pub host: Option<String>,
    pub port: Option<u16>,
    pub dn: String,
    pub attributes: Vec<String>,
    pub scope: Option<LdapUrlScope>,
    pub filter: Option<String>,
    pub extensions: Vec<LdapUrlExtension>,
}

/// What an [`LdapUrl`] says.
pub struct LdapUrlView {
    pub scheme: LdapUrlScheme,
    pub host: Option<Seq<char>>,
    pub port: Option<u16>,
    pub dn: Seq<char>,
    pub attributes: Seq<Seq<char>>,
    pub scope: Option<LdapUrlScope>,
    pub filter: Option<Seq<char>>,
    pub extensions: Seq<ExtensionView>,
}

impl View for LdapUrl {
    type V = LdapUrlView;

    open spec fn view(&self) -> LdapUrlView {
        LdapUrlView {
            scheme: self.scheme,
            host: text::option_text(self.host),
            port: self.port,
            dn: self.dn@,
            attributes: text::texts(self.attributes@),
            scope: self.scope,
            filter: text::option_text(self.filter),
            extensions: extension_views(self.extensions@),
        }
    }
}

/// Why a text is not an LDAP URL.
#[derive(Debug, Clone, PartialEq, Eq)]
#[allow(inconsistent_fields)]
pub enum LdapUrlError {
    InvalidUrl { source: String },
    UnsupportedScheme { scheme: String },
    UnsupportedUserInfo,
    InvalidPercentEncoding { component: &'static str },
    InvalidUtf8 { component: &'static str },
    EmptyAttribute,
    InvalidScope { scope: String },
    InvalidFilter { filter: String },
    EmptyExtension,
    TooManyComponents { count: usize },
}

/// What an [`LdapUrlError`] says.
pub enum UrlErrorView {
    InvalidUrl(Seq<char>),
    UnsupportedScheme(Seq<char>),
    UnsupportedUserInfo,
    InvalidPercentEncoding(Seq<char>),
    InvalidUtf8(Seq<char>),
    EmptyAttribute,
    InvalidScope(Seq<char>),
    InvalidFilter(Seq<char>),
    EmptyExtension,
    TooManyComponents(nat),
}

impl View for LdapUrlError {
    type V = UrlErrorView;

    open spec fn view(&self) -> UrlErrorView {
        match self {
            LdapUrlError::InvalidUrl { source } => UrlErrorView::InvalidUrl(source@),
            LdapUrlError::UnsupportedScheme { scheme } => UrlErrorView::UnsupportedScheme(scheme@),
            LdapUrlError::UnsupportedUserInfo => UrlErrorView::UnsupportedUserInfo,
            LdapUrlError::InvalidPercentEncoding { component } => {
                UrlErrorView::InvalidPercentEncoding(component@)
            },
            LdapUrlError::InvalidUtf8 { component } => UrlErrorView::InvalidUtf8(component@),
            LdapUrlError::EmptyAttribute => UrlErrorView::EmptyAttribute,
            LdapUrlError::InvalidScope { scope } => UrlErrorView::InvalidScope(scope@),
            LdapUrlError::InvalidFilter { filter } => UrlErrorView::InvalidFilter(filter@),
            LdapUrlError::EmptyExtension => UrlErrorView::EmptyExtension,
            LdapUrlError::TooManyComponents { count } => {
                UrlErrorView::TooManyComponents(*count as nat)
            },
        }
    }
}

/// The text of an error.
pub open spec fn url_error_text(e: UrlErrorView) -> Seq<char> {
    match e {
        UrlErrorView::InvalidUrl(source) => "invalid LDAP URL: "@ + source,
        UrlErrorView::UnsupportedScheme(scheme) => "unsupported LDAP URL scheme "@ + scheme,
        UrlErrorView::UnsupportedUserInfo => "LDAP URLs must not contain userinfo"@,
        UrlErrorView::InvalidPercentEncoding(component) => {
            "invalid percent encoding in LDAP URL "@ + component
        },
        UrlErrorView::InvalidUtf8(component) => "LDAP URL "@ + component + " is not valid UTF-8"@,
        UrlErrorView::EmptyAttribute => "LDAP URL attributes must not be empty"@,
        UrlErrorView::InvalidScope(scope) => "invalid LDAP URL scope "@ + scope,
        UrlErrorView::InvalidFilter(filter) => "invalid LDAP URL filter "@ + filter,
        UrlErrorView::EmptyExtension => "LDAP URL extensions must not be empty"@,
        UrlErrorView::TooManyComponents(count) => "LDAP URL has "@ + text::decimal(count)
            + " selector components, expected at most 4"@,
    }
}

/// Two texts one after the other.
fn two(a: &str, b: &str) -> (r: String)
    ensures
        r@ == a@ + b@,
{
    let mut out = a.to_owned();
    out.append(b);
    out
}

impl LdapUrlError {
    /// The text of the error.
    pub fn message(&self) -> (r: String)
        ensures
            r@ == url_error_text(self@),
    {
        match self {
            LdapUrlError::InvalidUrl { source } => two("invalid LDAP URL: ", source.as_str()),
            LdapUrlError::UnsupportedScheme { scheme } => two(
                "unsupported LDAP URL scheme ",
                scheme.as_str(),
            ),
            LdapUrlError::UnsupportedUserInfo => "LDAP URLs must not contain userinfo".to_owned(),
            LdapUrlError::InvalidPercentEncoding { component } => two(
                "invalid percent encoding in LDAP URL ",
                component,
            ),
            LdapUrlError::InvalidUtf8 { component } => {
                let mut out = two("LDAP URL ", component);
                out.append(" is not valid UTF-8");
                out
            },
            LdapUrlError::EmptyAttribute => "LDAP URL attributes must not be empty".to_owned(),
            LdapUrlError::InvalidScope { scope } => two(
                "invalid LDAP URL scope ",
                scope.as_str(),
            ),
            LdapUrlError::InvalidFilter { filter } => two(
                "invalid LDAP URL filter ",
                filter.as_str(),
            ),
            LdapUrlError::EmptyExtension => "LDAP URL extensions must not be empty".to_owned(),
            LdapUrlError::TooManyComponents { count } => {
                let mut out = two("LDAP URL has ", text::decimal_of(*count as u64).as_str());
                out.append(" selector components, expected at most 4");
                out
            },
        }
    }
}

// ---------------------------------------------------------------------------
// Percent encoding
// ---------------------------------------------------------------------------

/// The value of a hexadecimal digit.
pub open spec fn hex_digit(byte: u8) -> Option<u8> {
    if 48 <= byte <= 57 {
        Some((byte - 48) as u8)
    } else if 97 <= byte <= 102 {
        Some((byte - 87) as u8)
    } else if 65 <= byte <= 70 {
        Some((byte - 55) as u8)
    } else {
        None
    }
}

fn hex_value(byte: u8) -> (r: Option<u8>)
    ensures
        r == hex_digit(byte),
{
    if 48 <= byte && byte <= 57 {
        Some(byte - 48)
    } else if 97 <= byte && byte <= 102 {
        Some(byte - 87)
    } else if 65 <= byte && byte <= 70 {
        Some(byte - 55)
    } else {
        None
    }
}

/// The bytes that percent-encoded bytes stand for.
pub open spec fn decoded_bytes(bytes: Seq<u8>) -> Option<Seq<u8>>
    decreases bytes.len(),
{
    if bytes.len() == 0 {
        Some(Seq::empty())
    } else if bytes[0] == 37 {
        if bytes.len() < 3 || hex_digit(bytes[1]) is None || hex_digit(bytes[2]) is None {
            None
        } else {
            match decoded_bytes(bytes.skip(3)) {
                Some(rest) => Some(
                    seq![(hex_digit(bytes[1])->0 * 16 + hex_digit(bytes[2])->0) as u8] + rest,
                ),
                None => None,
            }
        }
    } else {
        match decoded_bytes(bytes.drop_first()) {
            Some(rest) => Some(seq![bytes[0]] + rest),
            None => None,
        }
    }
}

/// The text that a percent-encoded component of a URL stands for.
pub open spec fn decoded(s: Seq<char>, component: Seq<char>) -> Result<Seq<char>, UrlErrorView> {
    match decoded_bytes(utf8::encode_utf8(s)) {
        None => Err(UrlErrorView::InvalidPercentEncoding(component)),
        Some(bytes) => if utf8::valid_utf8(bytes) {
            Ok(utf8::decode_utf8(bytes))
        } else {
            Err(UrlErrorView::InvalidUtf8(component))
        },
    }
}

/// A result with its values as texts.
pub open spec fn text_result(r: Result<String, LdapUrlError>) -> Result<Seq<char>, UrlErrorView> {
    match r {
        Ok(s) => Ok(s@),
        Err(e) => Err(e@),
    }
}

fn percent_decode(input: &str, component: &'static str) -> (r: Result<String, LdapUrlError>)
    ensures
        text_result(r) == decoded(input@, component@),
{
    let bytes = input.as_bytes();
    let ghost all = bytes@;
    let mut output: Vec<u8> = Vec::new();
    let mut index: usize = 0;
    proof {
        assert(all.skip(0) =~= all);
        if let Some(rest) = decoded_bytes(all) {
            assert(output@ + rest =~= rest);
        }
    }
    while index < bytes.len()
        invariant
            all == bytes@,
            all == utf8::encode_utf8(input@),
            index <= bytes.len(),
            decoded_bytes(all) == (match decoded_bytes(all.skip(index as int)) {
                Some(rest) => Some(output@ + rest),
                None => None,
            }),
        decreases bytes.len() - index,
    {
        let ghost here = all.skip(index as int);
        if bytes[index] == 37 {
            let room = bytes.len() - index;
            if room < 3 {
                return Err(LdapUrlError::InvalidPercentEncoding { component });
            }
            proof {
                assert(here[1] == all[index + 1]);
                assert(here[2] == all[index + 2]);
                assert(here.skip(3) =~= all.skip(index + 3));
            }
            let high = match hex_value(bytes[index + 1]) {
                Some(high) => high,
                None => {
                    return Err(LdapUrlError::InvalidPercentEncoding { component });
                },
            };
            let low = match hex_value(bytes[index + 2]) {
                Some(low) => low,
                None => {
                    return Err(LdapUrlError::InvalidPercentEncoding { component });
                },
            };
            let ghost before = output@;
            output.push(high * 16 + low);
            proof {
                if let Some(rest) = decoded_bytes(all.skip(index + 3)) {
                    assert(before + (seq![(high * 16 + low) as u8] + rest) =~= output@ + rest);
                }
            }
            index = index + 3;
        } else {
            let ghost before = output@;
            output.push(bytes[index]);
            proof {
                assert(here.drop_first() =~= all.skip(index + 1));
                if let Some(rest) = decoded_bytes(all.skip(index + 1)) {
                    assert(before + (seq![all[index as int]] + rest) =~= output@ + rest);
                }
            }
            index = index + 1;
        }
    }
    proof {
        assert(output@ + Seq::<u8>::empty() =~= output@);
    }
    match text::utf8_text(output) {
        Ok(s) => Ok(s),
        Err(_) => Err(LdapUrlError::InvalidUtf8 { component }),
    }
}

/// A letter, a digit, or one of `-`, `.`, `_` and `~`.
pub open spec fn unreserved(byte: u8) -> bool {
    48 <= byte <= 57 || 65 <= byte <= 90 || 97 <= byte <= 122 || byte == 45 || byte == 46 || byte
        == 95 || byte == 126
}

fn is_unreserved(byte: u8) -> (r: bool)
    ensures
        r == unreserved(byte),
{
    (48 <= byte && byte <= 57) || (65 <= byte && byte <= 90) || (97 <= byte && byte <= 122) || byte
        == 45 || byte == 46 || byte == 95 || byte == 126
}

/// An unreserved byte, or one of `,`, `=`, `+`, `;` and `@`.
pub open spec fn safe_in_path(byte: u8) -> bool {
    unreserved(byte) || byte == 44 || byte == 61 || byte == 43 || byte == 59 || byte == 64
}

fn is_safe_path_byte(byte: u8) -> (r: bool)
    ensures
        r == safe_in_path(byte),
{
    is_unreserved(byte) || byte == 44 || byte == 61 || byte == 43 || byte == 59 || byte == 64
}

/// The hexadecimal digit of a value, in upper case.
pub open spec fn hex_letter(value: int) -> char {
    if value < 10 {
        (48 + value) as char
    } else {
        (55 + value) as char
    }
}

fn hex_char(value: u8) -> (r: char)
    requires
        value < 16,
    ensures
        r == hex_letter(value as int),
{
    if value < 10 {
        (48 + value) as char
    } else {
        (55 + value) as char
    }
}

/// The characters that stand for a byte.
pub open spec fn encoded_byte(byte: u8, path: bool) -> Seq<char> {
    if if path {
        safe_in_path(byte)
    } else {
        unreserved(byte)
    } {
        seq![byte as char]
    } else {
        seq!['%', hex_letter(byte as int / 16), hex_letter(byte as int % 16)]
    }
}

/// The characters that stand for bytes.
pub open spec fn encoded_bytes(bytes: Seq<u8>, path: bool) -> Seq<char>
    decreases bytes.len(),
{
    if bytes.len() == 0 {
        Seq::empty()
    } else {
        encoded_byte(bytes[0], path) + encoded_bytes(bytes.drop_first(), path)
    }
}

/// A text as a component of a path.
pub open spec fn path_encoded(s: Seq<char>) -> Seq<char> {
    encoded_bytes(utf8::encode_utf8(s), true)
}

/// A text as a component of a query.
pub open spec fn query_encoded(s: Seq<char>) -> Seq<char> {
    encoded_bytes(utf8::encode_utf8(s), false)
}

fn percent_encode_with(input: &str, path: bool) -> (r: String)
    ensures
        r@ == encoded_bytes(utf8::encode_utf8(input@), path),
{
    let bytes = input.as_bytes();
    let ghost all = bytes@;
    let mut out = String::new();
    let mut i: usize = 0;
    proof {
        assert(all.skip(0) =~= all);
        assert(out@ + encoded_bytes(all, path) =~= encoded_bytes(all, path));
    }
    while i < bytes.len()
        invariant
            all == bytes@,
            i <= bytes.len(),
            out@ + encoded_bytes(all.skip(i as int), path) == encoded_bytes(all, path),
        decreases bytes.len() - i,
    {
        let byte = bytes[i];
        let ghost before = out@;
        let safe = if path {
            is_safe_path_byte(byte)
        } else {
            is_unreserved(byte)
        };
        if safe {
            out.push(byte as char);
        } else {
            out.push('%');
            out.push(hex_char(byte / 16));
            out.push(hex_char(byte % 16));
        }
        proof {
            assert(all.skip(i as int).drop_first() =~= all.skip(i + 1));
            assert(all.skip(i as int)[0] == byte);
            assert(out@ =~= before + encoded_byte(byte, path));
            let rest = encoded_bytes(all.skip(i + 1), path);
            assert(before + (encoded_byte(byte, path) + rest) =~= out@ + rest);
        }
        i = i + 1;
    }
    proof {
        assert(out@ + Seq::<char>::empty() =~= out@);
    }
    out
}

fn percent_encode_path_component(input: &str) -> (r: String)
    ensures
        r@ == path_encoded(input@),
{
    percent_encode_with(input, true)
}

fn percent_encode_query_component(input: &str) -> (r: String)
    ensures
        r@ == query_encoded(input@),
{
    percent_encode_with(input, false)
}

// ---------------------------------------------------------------------------
// Attributes and extensions
// ---------------------------------------------------------------------------

/// The attribute that a part of the attribute list stands for.
pub open spec fn attribute_of(part: Seq<char>) -> Result<Seq<char>, UrlErrorView> {
    if part.len() == 0 {
        Err(UrlErrorView::EmptyAttribute)
    } else {
        decoded(part, "attribute"@)
    }
}

/// The attributes that the parts stand for, or the first error among them.
pub open spec fn attributes_of(parts: Seq<Seq<char>>) -> Result<Seq<Seq<char>>, UrlErrorView>
    decreases parts.len(),
{
    if parts.len() == 0 {
        Ok(Seq::empty())
    } else {
        match attribute_of(parts[0]) {
            Err(e) => Err(e),
            Ok(a) => match attributes_of(parts.drop_first()) {
                Err(e) => Err(e),
                Ok(rest) => Ok(seq![a] + rest),
            },
        }
    }
}

/// The attributes that a list separated by commas stands for.
pub open spec fn attribute_list(raw: Seq<char>) -> Result<Seq<Seq<char>>, UrlErrorView> {
    if raw.len() == 0 {
        Ok(Seq::empty())
    } else {
        attributes_of(text::split(raw, ','))
    }
}

fn parse_attributes(raw: &str) -> (r: Result<Vec<String>, LdapUrlError>)
    ensures
        match r {
            Ok(v) => attribute_list(raw@) == Ok::<Seq<Seq<char>>, UrlErrorView>(text::texts(v@)),
            Err(e) => attribute_list(raw@) == Err::<Seq<Seq<char>>, UrlErrorView>(e@),
        },
{
    let mut out: Vec<String> = Vec::new();
    if text::same(raw, "") {
        proof {
            reveal_strlit("");
            assert(text::texts(out@) =~= Seq::<Seq<char>>::empty());
        }
        return Ok(out);
    }
    let parts = text::split_on(raw, ',');
    let ghost ps = text::texts(parts@);
    let mut i: usize = 0;
    proof {
        reveal_strlit("");
        if raw@.len() == 0 {
            assert(raw@ =~= ""@);
        }
        assert(ps.skip(0) =~= ps);
        if let Ok(rest) = attributes_of(ps) {
            assert(text::texts(out@) + rest =~= rest);
        }
    }
    while i < parts.len()
        invariant
            raw@.len() > 0,
            ps == text::texts(parts@),
            ps == text::split(raw@, ','),
            i <= parts@.len(),
            attributes_of(ps) == (match attributes_of(ps.skip(i as int)) {
                Ok(rest) => Ok::<Seq<Seq<char>>, UrlErrorView>(text::texts(out@) + rest),
                Err(e) => Err(e),
            }),
        decreases parts@.len() - i,
    {
        proof {
            assert(ps.skip(i as int)[0] == parts@[i as int]@);
            assert(ps.skip(i as int).drop_first() =~= ps.skip(i + 1));
        }
        let part = parts[i].as_str();
        proof {
            reveal_strlit("");
            if part@.len() == 0 {
                assert(part@ =~= ""@);
            }
        }
        if text::same(part, "") {
            return Err(LdapUrlError::EmptyAttribute);
        }
        match percent_decode(part, "attribute") {
            Ok(a) => {
                proof {
                    text::texts_push(out@, a);
                    if let Ok(rest) = attributes_of(ps.skip(i + 1)) {
                        assert(text::texts(out@) + (seq![a@] + rest) =~= text::texts(out@.push(a))
                            + rest);
                    }
                }
                out.push(a);
            },
            Err(e) => {
                return Err(e);
            },
        }
        i = i + 1;
    }
    proof {
        assert(text::texts(out@) + Seq::<Seq<char>>::empty() =~= text::texts(out@));
    }
    Ok(out)
}

/// The extension that a part of the extension list stands for.
pub open spec fn extension_of(part: Seq<char>) -> Result<ExtensionView, UrlErrorView> {
    let critical = part.len() > 0 && part[0] == '!';
    let rest = if critical {
        part.drop_first()
    } else {
        part
    };
    if rest.len() == 0 {
        Err(UrlErrorView::EmptyExtension)
    } else {
        let raw_name = match text::cut(rest, '=') {
            Some(pair) => pair.0,
            None => rest,
        };
        match decoded(raw_name, "extension name"@) {
            Err(e) => Err(e),
            Ok(name) => if name.len() == 0 {
                Err(UrlErrorView::EmptyExtension)
            } else {
                match text::cut(rest, '=') {
                    None => Ok(ExtensionView { critical, name, value: None }),
                    Some(pair) => match decoded(pair.1, "extension value"@) {
                        Err(e) => Err(e),
                        Ok(value) => Ok(ExtensionView { critical, name, value: Some(value) }),
                    },
                }
            },
        }
    }
}

/// The extensions that the parts stand for, or the first error among them.
pub open spec fn extensions_of(parts: Seq<Seq<char>>) -> Result<Seq<ExtensionView>, UrlErrorView>
    decreases parts.len(),
{
    if parts.len() == 0 {
        Ok(Seq::empty())
    } else {
        match extension_of(parts[0]) {
            Err(e) => Err(e),
            Ok(a) => match extensions_of(parts.drop_first()) {
                Err(e) => Err(e),
                Ok(rest) => Ok(seq![a] + rest),
            },
        }
    }
}

/// The extensions that a list separated by commas stands for.
pub open spec fn extension_list(raw: Seq<char>) -> Result<Seq<ExtensionView>, UrlErrorView> {
    if raw.len() == 0 {
        Ok(Seq::empty())
    } else {
        extensions_of(text::split(raw, ','))
    }
}

/// A text without the given character in front, where it is there.
fn without_first(s: &str, c: char) -> (r: Option<String>)
    ensures
        match r {
            Some(rest) => s@.len() > 0 && s@[0] == c && rest@ == s@.drop_first(),
            None => s@.len() == 0 || s@[0] != c,
        },
{
    let chars = text::chars_of(s);
    if chars.len() > 0 && chars[0] == c {
        let rest = text::string_of(&chars, 1, chars.len());
        proof {
            assert(rest@ =~= s@.drop_first());
        }
        Some(rest)
    } else {
        None
    }
}

fn parse_extension(extension: &str) -> (r: Result<LdapUrlExtension, LdapUrlError>)
    ensures
        match r {
            Ok(e) => extension_of(extension@) == Ok::<ExtensionView, UrlErrorView>(e@),
            Err(e) => extension_of(extension@) == Err::<ExtensionView, UrlErrorView>(e@),
        },
{
    if extension.is_empty() {
        return Err(LdapUrlError::EmptyExtension);
    }
    let (critical, rest) = match without_first(extension, '!') {
        Some(rest) => (true, rest),
        None => (false, extension.to_owned()),
    };
    if rest.as_str().is_empty() {
        return Err(LdapUrlError::EmptyExtension);
    }
    let (raw_name, raw_value) = match text::split_once(rest.as_str(), '=') {
        Some(pair) => (pair.0, Some(pair.1)),
        None => (rest, None),
    };
    let name = match percent_decode(raw_name.as_str(), "extension name") {
        Ok(name) => name,
        Err(e) => {
            return Err(e);
        },
    };
    if name.as_str().is_empty() {
        return Err(LdapUrlError::EmptyExtension);
    }
    let value = match raw_value {
        Some(value) => match percent_decode(value.as_str(), "extension value") {
            Ok(value) => Some(value),
            Err(e) => {
                return Err(e);
            },
        },
        None => None,
    };
    Ok(LdapUrlExtension { critical, name, value })
}

fn parse_extensions(raw: &str) -> (r: Result<Vec<LdapUrlExtension>, LdapUrlError>)
    ensures
        match r {
            Ok(v) => extension_list(raw@) == Ok::<Seq<ExtensionView>, UrlErrorView>(
                extension_views(v@),
            ),
            Err(e) => extension_list(raw@) == Err::<Seq<ExtensionView>, UrlErrorView>(e@),
        },
{
    let mut out: Vec<LdapUrlExtension> = Vec::new();
    if raw.is_empty() {
        proof {
            assert(extension_views(out@) =~= Seq::<ExtensionView>::empty());
        }
        return Ok(out);
    }
    let parts = text::split_on(raw, ',');
    let ghost ps = text::texts(parts@);
    let mut i: usize = 0;
    proof {
        assert(ps.skip(0) =~= ps);
        if let Ok(rest) = extensions_of(ps) {
            assert(extension_views(out@) + rest =~= rest);
        }
    }
    while i < parts.len()
        invariant
            raw@.len() > 0,
            ps == text::texts(parts@),
            ps == text::split(raw@, ','),
            i <= parts@.len(),
            extensions_of(ps) == (match extensions_of(ps.skip(i as int)) {
                Ok(rest) => Ok::<Seq<ExtensionView>, UrlErrorView>(extension_views(out@) + rest),
                Err(e) => Err(e),
            }),
        decreases parts@.len() - i,
    {
        proof {
            assert(ps.skip(i as int)[0] == parts@[i as int]@);
            assert(ps.skip(i as int).drop_first() =~= ps.skip(i + 1));
        }
        match parse_extension(parts[i].as_str()) {
            Ok(e) => {
                proof {
                    if let Ok(rest) = extensions_of(ps.skip(i + 1)) {
                        assert(extension_views(out@) + (seq![e@] + rest) =~= extension_views(
                            out@.push(e),
                        ) + rest);
                    }
                }
                out.push(e);
            },
            Err(e) => {
                return Err(e);
            },
        }
        i = i + 1;
    }
    proof {
        assert(extension_views(out@) + Seq::<ExtensionView>::empty() =~= extension_views(out@));
    }
    Ok(out)
}

// ---------------------------------------------------------------------------
// Reading
// ---------------------------------------------------------------------------

/// The parts of a URL, as they stand in it.
#[derive(Debug, Clone, PartialEq, Eq)]
pub struct UrlParts {
    pub scheme: String,
    pub username: String,
    pub password: Option<String>,
    pub host: Option<String>,
    pub port: Option<u16>,
    pub path: String,
    pub query: Option<String>,
}

/// What [`UrlParts`] say.
pub struct UrlPartsView {
    pub scheme: Seq<char>,
    pub username: Seq<char>,
    pub password: Option<Seq<char>>,
    pub host: Option<Seq<char>>,
    pub port: Option<u16>,
    pub path: Seq<char>,
    pub query: Option<Seq<char>>,
}

impl View for UrlParts {
    type V = UrlPartsView;

    open spec fn view(&self) -> UrlPartsView {
        UrlPartsView {
            scheme: self.scheme@,
            username: self.username@,
            password: text::option_text(self.password),
            host: text::option_text(self.host),
            port: self.port,
            path: self.path@,
            query: text::option_text(self.query),
        }
    }
}

/// The parts that `url::Url::parse` finds in a text, or the text of its error.
pub uninterp spec fn parsed_url(input: Seq<char>) -> Result<UrlPartsView, Seq<char>>;

/// Some text with one of the two schemes has that host.
pub open spec fn is_ldap_host(host: Seq<char>) -> bool {
    exists|s: Seq<char>|
        (#[trigger] parsed_url(s)) matches Ok(p) && (p.scheme == "ldap"@ || p.scheme == "ldaps"@)
            && p.host == Some(host)
}

/// A character that stands for itself in a path and in a query: a letter, a
/// digit, or one of `-`, `.`, `_`, `~`, `%`, `,` and `=`.
pub open spec fn stands_for_itself(c: char) -> bool {
    ('0' <= c && c <= '9') || ('A' <= c && c <= 'Z') || ('a' <= c && c <= 'z') || c == '-' || c
        == '.' || c == '_' || c == '~' || c == '%' || c == ',' || c == '='
}

/// A piece of a path that is kept as it is: no slash in it, no dot in its
/// encoded form, and not one or two dots alone.
pub open spec fn is_kept_segment(s: Seq<char>) -> bool {
    &&& forall|i: int|
        0 <= i < s.len() ==> stands_for_itself(#[trigger] s[i]) || s[i] == '+' || s[i] == ';'
            || s[i] == '@'
    &&& forall|i: int|
        0 <= i < s.len() - 2 && s[i] == '%' ==> !(#[trigger] s[i + 1] == '2' && (s[i + 2] == 'E'
            || s[i + 2] == 'e'))
    &&& s != "."@
    &&& s != ".."@
}

/// A query that is kept as it is.
pub open spec fn is_kept_query(s: Seq<char>) -> bool {
    forall|i: int|
        0 <= i < s.len() ==> stands_for_itself(#[trigger] s[i]) || s[i] == '!' || s[i] == '?'
}

/// Parts that are found again in the text that they make: one of the two
/// schemes, no user, a host that was read before, and a path and a query that
/// are kept as they are.
pub open spec fn are_kept_parts(p: UrlPartsView) -> bool {
    &&& p.scheme == "ldap"@ || p.scheme == "ldaps"@
    &&& p.username.len() == 0
    &&& p.password is None
    &&& match p.host {
        Some(host) => is_ldap_host(host),
        None => p.port is None,
    }
    &&& p.path.len() > 0
    &&& p.path[0] == '/'
    &&& is_kept_segment(p.path.drop_first())
    &&& p.query matches Some(query) ==> is_kept_query(query)
}

/// The text that parts without a user make.
pub open spec fn parts_text(p: UrlPartsView) -> Seq<char> {
    p.scheme + "://"@ + (match p.host {
        Some(host) => host,
        None => Seq::empty(),
    }) + (match p.port {
        Some(port) => ":"@ + text::decimal(port as nat),
        None => Seq::empty(),
    }) + p.path + (match p.query {
        Some(query) => "?"@ + query,
        None => Seq::empty(),
    })
}

/// Only a URL with a host has a port, and a host with a colon in it stands in
/// square brackets.
pub open spec fn is_hosted(host: Option<Seq<char>>, port: Option<u16>) -> bool {
    match host {
        Some(host) => host.contains(':') ==> host.len() > 0 && host[0] == '[',
        None => port is None,
    }
}

/// What parts say, or why there are none.
pub open spec fn parts_result(r: Result<UrlParts, String>) -> Result<UrlPartsView, Seq<char>> {
    match r {
        Ok(parts) => Ok(parts@),
        Err(e) => Err(e@),
    }
}

/// Parts that are well hosted, or none.
pub open spec fn is_hosted_result(r: Result<UrlPartsView, Seq<char>>) -> bool {
    r matches Ok(p) ==> is_hosted(p.host, p.port)
}

/// The text begins with one of the two schemes and two slashes.
pub open spec fn has_slashes(s: Seq<char>) -> bool {
    text::starts_with(s, "ldap://"@) || text::starts_with(s, "ldaps://"@)
}

/// A dot, as it is or encoded.
pub open spec fn is_dot(s: Seq<char>) -> bool {
    s == "."@ || s == "%2e"@ || s == "%2E"@
}

/// One or two dots alone, each as it is or encoded.
pub open spec fn is_dots(s: Seq<char>) -> bool {
    is_dot(s) || exists|a: Seq<char>, b: Seq<char>|
        #[trigger] is_dot(a) && #[trigger] is_dot(b) && s == a + b
}

/// Parts whose path, without the slash in front of it, is not one or two dots
/// alone, or none.
pub open spec fn has_no_dots(r: Result<UrlPartsView, Seq<char>>) -> bool {
    r matches Ok(p) ==> !is_dots(path_dn(p.path))
}

/// Calls `url::Url::parse` and copies what the accessors of the URL return, or
/// the text of the error. Both are functions of the input. Only a URL with a
/// host has a port, and a host with a colon in it is an address in square
/// brackets. Of a text with two slashes behind its scheme, the segments of the
/// path that are one or two dots alone are taken out. Parts that need no encoding and no shortening of the path are
/// found in the text that they make, as long as its length fits 32 bits.
#[verifier::external_body]
fn parse_url(input: &str) -> (r: Result<UrlParts, String>)
    ensures
        parts_result(r) == parsed_url(input@),
        is_hosted_result(parts_result(r)),
        has_slashes(input@) ==> (has_no_dots(parts_result(r))),
        forall|p: UrlPartsView|
            (#[trigger] are_kept_parts(p)) && input@ == parts_text(p) && input@.len() <= u32::MAX
                ==> (parts_result(r) == Ok::<UrlPartsView, Seq<char>>(p)),
{
    match url::Url::parse(input) {
        Ok(url) => Ok(UrlParts {
            scheme: url.scheme().to_string(),
            username: url.username().to_string(),
            password: url.password().map(str::to_string),
            host: url.host_str().map(str::to_string),
            port: url.port(),
            path: url.path().to_string(),
            query: url.query().map(str::to_string),
        }),
        Err(error) => Err(error.to_string()),
    }
}

/// What the query of an LDAP URL asks for.
pub struct SelectorsView {
    pub attributes: Seq<Seq<char>>,
    pub scope: Option<LdapUrlScope>,
    pub filter: Option<Seq<char>>,
    pub extensions: Seq<ExtensionView>,
}

/// The scope that a component of the query stands for.
pub open spec fn scope_component(raw: Seq<char>) -> Result<Option<LdapUrlScope>, UrlErrorView> {
    if raw.len() == 0 {
        Ok(None)
    } else {
        match decoded(raw, "scope"@) {
            Err(e) => Err(e),
            Ok(name) => match scope_of(name) {
                Err(e) => Err(e),
                Ok(scope) => Ok(Some(scope)),
            },
        }
    }
}

/// The text stands in brackets.
pub open spec fn in_brackets(s: Seq<char>) -> bool {
    s.len() > 0 && s[0] == '(' && s.last() == ')'
}

/// The filter that a component of the query stands for.
pub open spec fn filter_component(raw: Seq<char>) -> Result<Option<Seq<char>>, UrlErrorView> {
    if raw.len() == 0 {
        Ok(None)
    } else {
        match decoded(raw, "filter"@) {
            Err(e) => Err(e),
            Ok(filter) => if in_brackets(filter) {
                Ok(Some(filter))
            } else {
                Err(UrlErrorView::InvalidFilter(filter))
            },
        }
    }
}

/// The component at a place, empty where there is none.
pub open spec fn component_at(parts: Seq<Seq<char>>, i: int) -> Seq<char> {
    if i < parts.len() {
        parts[i]
    } else {
        Seq::empty()
    }
}

/// What the components of a query ask for, or the first error among them.
pub open spec fn selectors_of(parts: Seq<Seq<char>>) -> Result<SelectorsView, UrlErrorView> {
    if parts.len() > 4 {
        Err(UrlErrorView::TooManyComponents(parts.len()))
    } else {
        match attribute_list(component_at(parts, 0)) {
            Err(e) => Err(e),
            Ok(attributes) => match scope_component(component_at(parts, 1)) {
                Err(e) => Err(e),
                Ok(scope) => match filter_component(component_at(parts, 2)) {
                    Err(e) => Err(e),
                    Ok(filter) => match extension_list(component_at(parts, 3)) {
                        Err(e) => Err(e),
                        Ok(extensions) => Ok(
                            SelectorsView { attributes, scope, filter, extensions },
                        ),
                    },
                },
            },
        }
    }
}

/// What a query asks for; nothing where there is none.
pub open spec fn query_selectors(query: Option<Seq<char>>) -> Result<SelectorsView, UrlErrorView> {
    match query {
        Some(query) => selectors_of(text::split(query, '?')),
        None => Ok(
            SelectorsView {
                attributes: Seq::empty(),
                scope: None,
                filter: None,
                extensions: Seq::empty(),
            },
        ),
    }
}

/// The scheme of that name.
pub open spec fn scheme_of(name: Seq<char>) -> Option<LdapUrlScheme> {
    if name == "ldap"@ {
        Some(LdapUrlScheme::Ldap)
    } else if name == "ldaps"@ {
        Some(LdapUrlScheme::Ldaps)
    } else {
        None
    }
}

/// The path without the slash in front of it.
pub open spec fn path_dn(path: Seq<char>) -> Seq<char> {
    if path.len() > 0 && path[0] == '/' {
        path.drop_first()
    } else {
        path
    }
}

/// The LDAP URL that the parts of a URL make, or why they make none.
pub open spec fn url_of(parts: UrlPartsView) -> Result<LdapUrlView, UrlErrorView> {
    match scheme_of(parts.scheme) {
        None => Err(UrlErrorView::UnsupportedScheme(parts.scheme)),
        Some(scheme) => if parts.username.len() > 0 || parts.password is Some {
            Err(UrlErrorView::UnsupportedUserInfo)
        } else {
            match decoded(path_dn(parts.path), "dn"@) {
                Err(e) => Err(e),
                Ok(dn) => match query_selectors(parts.query) {
                    Err(e) => Err(e),
                    Ok(s) => Ok(
                        LdapUrlView {
                            scheme,
                            host: parts.host,
                            port: parts.port,
                            dn,
                            attributes: s.attributes,
                            scope: s.scope,
                            filter: s.filter,
                            extensions: s.extensions,
                        },
                    ),
                },
            }
        },
    }
}

/// A result with the URL by what it says.
pub open spec fn url_result(r: Result<LdapUrl, LdapUrlError>) -> Result<LdapUrlView, UrlErrorView> {
    match r {
        Ok(u) => Ok(u@),
        Err(e) => Err(e@),
    }
}

struct Selectors {
    attributes: Vec<String>,
    scope: Option<LdapUrlScope>,
    filter: Option<String>,
    extensions: Vec<LdapUrlExtension>,
}

fn parse_scope_component(raw: &str) -> (r: Result<Option<LdapUrlScope>, LdapUrlError>)
    ensures
        match r {
            Ok(s) => scope_component(raw@) == Ok::<Option<LdapUrlScope>, UrlErrorView>(s),
            Err(e) => scope_component(raw@) == Err::<Option<LdapUrlScope>, UrlErrorView>(e@),
        },
{
    if raw.is_empty() {
        return Ok(None);
    }
    match percent_decode(raw, "scope") {
        Ok(name) => match LdapUrlScope::from_str(name.as_str()) {
            Ok(scope) => Ok(Some(scope)),
            Err(e) => Err(e),
        },
        Err(e) => Err(e),
    }
}

fn parse_filter_component(raw: &str) -> (r: Result<Option<String>, LdapUrlError>)
    ensures
        match r {
            Ok(s) => filter_component(raw@) == Ok::<Option<Seq<char>>, UrlErrorView>(
                text::option_text(s),
            ),
            Err(e) => filter_component(raw@) == Err::<Option<Seq<char>>, UrlErrorView>(e@),
        },
{
    if raw.is_empty() {
        return Ok(None);
    }
    match percent_decode(raw, "filter") {
        Ok(filter) => {
            let chars = text::chars_of(filter.as_str());
            if chars.len() > 0 && chars[0] == '(' && chars[chars.len() - 1] == ')' {
                Ok(Some(filter))
            } else {
                Err(LdapUrlError::InvalidFilter { filter })
            }
        },
        Err(e) => Err(e),
    }
}

fn component(parts: &Vec<String>, i: usize) -> (r: String)
    ensures
        r@ == component_at(text::texts(parts@), i as int),
{
    if i < parts.len() {
        parts[i].clone()
    } else {
        String::new()
    }
}

fn parse_selectors(query: &str) -> (r: Result<Selectors, LdapUrlError>)
    ensures
        match r {
            Ok(s) => query_selectors(Some(query@)) == Ok::<SelectorsView, UrlErrorView>(
                SelectorsView {
                    attributes: text::texts(s.attributes@),
                    scope: s.scope,
                    filter: text::option_text(s.filter),
                    extensions: extension_views(s.extensions@),
                },
            ),
            Err(e) => query_selectors(Some(query@)) == Err::<SelectorsView, UrlErrorView>(e@),
        },
{
    let parts = text::split_on(query, '?');
    proof {
        assert(text::texts(parts@).len() == parts@.len());
    }
    if parts.len() > 4 {
        return Err(LdapUrlError::TooManyComponents { count: parts.len() });
    }
    let attributes = match parse_attributes(component(&parts, 0).as_str()) {
        Ok(attributes) => attributes,
        Err(e) => {
            return Err(e);
        },
    };
    let scope = match parse_scope_component(component(&parts, 1).as_str()) {
        Ok(scope) => scope,
        Err(e) => {
            return Err(e);
        },
    };
    let filter = match parse_filter_component(component(&parts, 2).as_str()) {
        Ok(filter) => filter,
        Err(e) => {
            return Err(e);
        },
    };
    let extensions = match parse_extensions(component(&parts, 3).as_str()) {
        Ok(extensions) => extensions,
        Err(e) => {
            return Err(e);
        },
    };
    Ok(Selectors { attributes, scope, filter, extensions })
}

impl LdapUrl {
    /// The LDAP URL that the parts of a URL make.
    pub fn from_parts(parts: UrlParts) -> (r: Result<LdapUrl, LdapUrlError>)
        ensures
            url_result(r) == url_of(parts@),
    {
        let scheme = if text::same(parts.scheme.as_str(), "ldap") {
            LdapUrlScheme::Ldap
        } else if text::same(parts.scheme.as_str(), "ldaps") {
            LdapUrlScheme::Ldaps
        } else {
            return Err(LdapUrlError::UnsupportedScheme { scheme: parts.scheme });
        };
        if !parts.username.as_str().is_empty() || parts.password.is_some() {
            return Err(LdapUrlError::UnsupportedUserInfo);
        }
        let raw_dn = match without_first(parts.path.as_str(), '/') {
            Some(rest) => rest,
            None => parts.path,
        };
        let dn = match percent_decode(raw_dn.as_str(), "dn") {
            Ok(dn) => dn,
            Err(e) => {
                return Err(e);
            },
        };
        let selectors = match &parts.query {
            Some(query) => match parse_selectors(query.as_str()) {
                Ok(selectors) => selectors,
                Err(e) => {
                    return Err(e);
                },
            },
            None => {
                let selectors = Selectors {
                    attributes: Vec::new(),
                    scope: None,
                    filter: None,
                    extensions: Vec::new(),
                };
                proof {
                    assert(text::texts(selectors.attributes@) =~= Seq::<Seq<char>>::empty());
                    assert(extension_views(selectors.extensions@) =~= Seq::<
                        ExtensionView,
                    >::empty());
                }
                selectors
            },
        };
        Ok(
            LdapUrl {
                scheme,
                host: parts.host,
                port: parts.port,
                dn,
                attributes: selectors.attributes,
                scope: selectors.scope,
                filter: selectors.filter,
                extensions: selectors.extensions,
            },
        )
    }

    /// The LDAP URL that a text stands for. Where the text has two slashes
    /// behind its scheme, what is written of the URL stands for that URL again:
    /// it can be read again, and any text that is written of such a URL, as long
    /// as its length fits 32 bits, is read as that URL. Without the two slashes
    /// this holds unless the name is one or two dots alone.
    pub fn parse(input: &str) -> (r: Result<LdapUrl, LdapUrlError>)
        ensures
            url_result(r) == (match parsed_url(input@) {
                Ok(parts) => url_of(parts),
                Err(source) => Err(UrlErrorView::InvalidUrl(source)),
            }),
            r matches Ok(u) ==> readable(u@) && (has_slashes(input@) || (u@.dn != "."@ && u@.dn
                != ".."@) ==> can_be_read_again(u@)),
            forall|u: LdapUrlView|
                (#[trigger] can_be_read_again(u)) && input@ == url_text(u) && input@.len()
                    <= u32::MAX ==> url_result(r) == Ok::<LdapUrlView, UrlErrorView>(u),
    {
        match parse_url(input) {
            Ok(parts) => {
                let ghost found = parts@;
                let r = LdapUrl::from_parts(parts);
                proof {
                    what_is_read_is_readable(found);
                    if let Ok(u) = url_of(found) {
                        assert(was_read(u));
                        dots_come_from_dots(path_dn(found.path));
                    }
                    assert forall|u: LdapUrlView|
                        (#[trigger] can_be_read_again(u)) && input@ == url_text(u) && input@.len()
                            <= u32::MAX implies url_result(r) == Ok::<LdapUrlView, UrlErrorView>(
                        u,
                    ) by {
                        written_parts_are_kept(u);
                        assert(are_kept_parts(written_parts(u)));
                    }
                }
                r
            },
            Err(source) => {
                proof {
                    assert forall|u: LdapUrlView|
                        (#[trigger] can_be_read_again(u)) && input@ == url_text(u) implies
                        input@.len() > u32::MAX by {
                        written_parts_are_kept(u);
                        assert(are_kept_parts(written_parts(u)));
                    }
                }
                Err(LdapUrlError::InvalidUrl { source })
            },
        }
    }
}

// ---------------------------------------------------------------------------
// Writing
// ---------------------------------------------------------------------------

/// An extension as a part of the extension list.
pub open spec fn rendered_extension(e: ExtensionView) -> Seq<char> {
    (if e.critical {
        "!"@
    } else {
        Seq::empty()
    }) + query_encoded(e.name) + (match e.value {
        Some(value) => "="@ + query_encoded(value),
        None => Seq::empty(),
    })
}

/// The attribute list.
pub open spec fn rendered_attributes(attributes: Seq<Seq<char>>) -> Seq<char> {
    text::join(attributes.map_values(|a: Seq<char>| query_encoded(a)), ","@)
}

/// The extension list.
pub open spec fn rendered_extensions(extensions: Seq<ExtensionView>) -> Seq<char> {
    text::join(extensions.map_values(|e: ExtensionView| rendered_extension(e)), ","@)
}

/// The number of components that the query has.
pub open spec fn component_count(u: LdapUrlView) -> int {
    if u.extensions.len() > 0 {
        4
    } else if u.filter is Some {
        3
    } else if u.scope is Some {
        2
    } else if u.attributes.len() > 0 {
        1
    } else {
        0
    }
}

/// The components of the query.
pub open spec fn query_components(u: LdapUrlView) -> Seq<Seq<char>> {
    seq![
        rendered_attributes(u.attributes),
        match u.scope {
            Some(scope) => scope_name(scope),
            None => Seq::empty(),
        },
        match u.filter {
            Some(filter) => query_encoded(filter),
            None => Seq::empty(),
        },
        rendered_extensions(u.extensions),
    ].take(component_count(u))
}

/// The query, where there is one.
pub open spec fn rendered_query(u: LdapUrlView) -> Option<Seq<char>> {
    if component_count(u) == 0 {
        None
    } else {
        Some(text::join(query_components(u), "?"@))
    }
}

/// The host as it stands in a URL: an address with colons in square brackets.
pub open spec fn rendered_host(host: Seq<char>) -> Seq<char> {
    if host.contains(':') && host[0] != '[' {
        "["@ + host + "]"@
    } else {
        host
    }
}

/// The LDAP URL as a text.
pub open spec fn url_text(u: LdapUrlView) -> Seq<char> {
    scheme_name(u.scheme) + "://"@ + (match u.host {
        Some(host) => rendered_host(host),
        None => Seq::empty(),
    }) + (match u.port {
        Some(port) => ":"@ + text::decimal(port as nat),
        None => Seq::empty(),
    }) + "/"@ + path_encoded(u.dn) + (match rendered_query(u) {
        Some(query) => "?"@ + query,
        None => Seq::empty(),
    })
}

fn render_extension(extension: &LdapUrlExtension) -> (r: String)
    ensures
        r@ == rendered_extension(extension@),
{
    let mut out = String::new();
    if extension.critical {
        out.append("!");
    }
    out.append(percent_encode_query_component(extension.name.as_str()).as_str());
    if let Some(value) = &extension.value {
        out.append("=");
        out.append(percent_encode_query_component(value.as_str()).as_str());
    }
    proof {
        assert(out@ =~= rendered_extension(extension@));
    }
    out
}

fn render_attributes(attributes: &Vec<String>) -> (r: String)
    ensures
        r@ == rendered_attributes(text::texts(attributes@)),
{
    let mut parts: Vec<String> = Vec::new();
    let ghost all = text::texts(attributes@).map_values(|a: Seq<char>| query_encoded(a));
    let mut i: usize = 0;
    proof {
        assert(text::texts(parts@) =~= all.take(0));
    }
    while i < attributes.len()
        invariant
            all == text::texts(attributes@).map_values(|a: Seq<char>| query_encoded(a)),
            i <= attributes@.len(),
            text::texts(parts@) == all.take(i as int),
        decreases attributes@.len() - i,
    {
        let part = percent_encode_query_component(attributes[i].as_str());
        proof {
            text::texts_push(parts@, part);
            assert(all.take(i + 1) =~= all.take(i as int).push(all[i as int]));
        }
        parts.push(part);
        i = i + 1;
    }
    proof {
        assert(all.take(i as int) =~= all);
    }
    text::join_with(&parts, ",")
}

fn render_extensions(extensions: &Vec<LdapUrlExtension>) -> (r: String)
    ensures
        r@ == rendered_extensions(extension_views(extensions@)),
{
    let mut parts: Vec<String> = Vec::new();
    let ghost all = extension_views(extensions@).map_values(
        |e: ExtensionView| rendered_extension(e),
    );
    let mut i: usize = 0;
    proof {
        assert(text::texts(parts@) =~= all.take(0));
    }
    while i < extensions.len()
        invariant
            all == extension_views(extensions@).map_values(
                |e: ExtensionView| rendered_extension(e),
            ),
            i <= extensions@.len(),
            text::texts(parts@) == all.take(i as int),
        decreases extensions@.len() - i,
    {
        let part = render_extension(&extensions[i]);
        proof {
            text::texts_push(parts@, part);
            assert(all.take(i + 1) =~= all.take(i as int).push(all[i as int]));
        }
        parts.push(part);
        i = i + 1;
    }
    proof {
        assert(all.take(i as int) =~= all);
    }
    text::join_with(&parts, ",")
}

impl LdapUrl {
    /// The number of components that the query has.
    fn last_component(&self) -> (r: usize)
        ensures
            r == component_count(self@),
    {
        if self.extensions.len() > 0 {
            4
        } else if self.filter.is_some() {
            3
        } else if self.scope.is_some() {
            2
        } else if self.attributes.len() > 0 {
            1
        } else {
            0
        }
    }

    /// The query, where there is one.
    fn query_text(&self) -> (r: Option<String>)
        ensures
            text::option_text(r) == rendered_query(self@),
    {
        let last_component = self.last_component();
        if last_component == 0 {
            return None;
        }
        let mut parts: Vec<String> = Vec::new();
        parts.push(render_attributes(&self.attributes));
        if last_component >= 2 {
            parts.push(
                match self.scope {
                    Some(scope) => scope.as_str().to_owned(),
                    None => String::new(),
                },
            );
        }
        if last_component >= 3 {
            parts.push(
                match &self.filter {
                    Some(filter) => percent_encode_query_component(filter.as_str()),
                    None => String::new(),
                },
            );
        }
        if last_component >= 4 {
            parts.push(render_extensions(&self.extensions));
        }
        proof {
            assert(text::texts(parts@) =~= query_components(self@));
        }
        Some(text::join_with(&parts, "?"))
    }

    /// The LDAP URL as a text.
    pub fn to_url_string(&self) -> (r: String)
        ensures
            r@ == url_text(self@),
    {
        let mut url = self.scheme.as_str().to_owned();
        url.append("://");
        if let Some(host) = &self.host {
            let chars = text::chars_of(host.as_str());
            if text::has_char(host.as_str(), ':') && chars.len() > 0 && chars[0] != '[' {
                url.append("[");
                url.append(host.as_str());
                url.append("]");
            } else {
                url.append(host.as_str());
            }
        }
        if let Some(port) = self.port {
            url.append(":");
            url.append(text::decimal_of(port as u64).as_str());
        }
        url.append("/");
        url.append(percent_encode_path_component(self.dn.as_str()).as_str());
        if let Some(query) = self.query_text() {
            url.append("?");
            url.append(query.as_str());
        }
        proof {
            assert(url@ =~= url_text(self@));
        }
        url
    }
}

// ---------------------------------------------------------------------------
// Laws
// ---------------------------------------------------------------------------

/// The characters that an encoded component of a query may hold.
pub open spec fn is_plain(c: char) -> bool {
    c == '%' || unreserved(c as u8) && (c as u32) < 128
}

proof fn encoded_byte_shape(byte: u8, path: bool)
    ensures
        encoded_byte(byte, path).len() > 0,
        utf8::is_ascii_chars(encoded_byte(byte, path)),
        !path ==> forall|i: int|
            0 <= i < encoded_byte(byte, path).len() ==> is_plain(
                #[trigger] encoded_byte(byte, path)[i],
            ),
{
}

proof fn encoded_shape(bytes: Seq<u8>, path: bool)
    ensures
        bytes.len() > 0 ==> encoded_bytes(bytes, path).len() > 0,
        utf8::is_ascii_chars(encoded_bytes(bytes, path)),
        !path ==> forall|i: int|
            0 <= i < encoded_bytes(bytes, path).len() ==> is_plain(
                #[trigger] encoded_bytes(bytes, path)[i],
            ),
    decreases bytes.len(),
{
    if bytes.len() > 0 {
        encoded_byte_shape(bytes[0], path);
        encoded_shape(bytes.drop_first(), path);
        let a = encoded_byte(bytes[0], path);
        let b = encoded_bytes(bytes.drop_first(), path);
        let s = encoded_bytes(bytes, path);
        assert(s =~= a + b);
        assert forall|i: int| 0 <= i < s.len() implies '\0' <= #[trigger] s[i] <= '\u{7f}' && (
        !path ==> is_plain(s[i])) by {
            if i < a.len() {
                assert(s[i] == a[i]);
            } else {
                assert(s[i] == b[i - a.len()]);
            }
        }
    }
}

/// The bytes of characters that are each one byte long.
spec fn ascii_bytes(s: Seq<char>) -> Seq<u8> {
    Seq::new(s.len(), |i: int| s[i] as u8)
}

proof fn hex_digits_round(byte: u8)
    ensures
        hex_digit(hex_letter(byte as int / 16) as u8) == Some((byte as int / 16) as u8),
        hex_digit(hex_letter(byte as int % 16) as u8) == Some((byte as int % 16) as u8),
{
}

proof fn decoded_encoded_bytes(bytes: Seq<u8>, path: bool)
    ensures
        decoded_bytes(ascii_bytes(encoded_bytes(bytes, path))) == Some(bytes),
    decreases bytes.len(),
{
    let s = ascii_bytes(encoded_bytes(bytes, path));
    if bytes.len() == 0 {
        assert(s =~= Seq::<u8>::empty());
        assert(bytes =~= Seq::<u8>::empty());
    } else {
        let b = bytes[0];
        let rest = bytes.drop_first();
        decoded_encoded_bytes(rest, path);
        encoded_byte_shape(b, path);
        let head = encoded_byte(b, path);
        let tail = ascii_bytes(encoded_bytes(rest, path));
        assert(s =~= ascii_bytes(head) + tail);
        if head.len() == 1 {
            assert(s[0] == b);
            assert(s.drop_first() =~= tail);
        } else {
            hex_digits_round(b);
            assert(s[0] == 37u8);
            assert(s[1] == hex_letter(b as int / 16) as u8);
            assert(s[2] == hex_letter(b as int % 16) as u8);
            assert(s.skip(3) =~= tail);
        }
        assert(seq![b] + rest =~= bytes);
    }
}

/// Decoding undoes encoding, in a path and in a query.
pub proof fn decoding_undoes_encoding(s: Seq<char>, component: Seq<char>)
    ensures
        decoded(path_encoded(s), component) == Ok::<Seq<char>, UrlErrorView>(s),
        decoded(query_encoded(s), component) == Ok::<Seq<char>, UrlErrorView>(s),
{
    let bytes = utf8::encode_utf8(s);
    utf8::encode_utf8_valid_utf8(s);
    utf8::encode_utf8_decode_utf8(s);
    decoded_encoded_bytes(bytes, true);
    decoded_encoded_bytes(bytes, false);
    encoded_shape(bytes, true);
    encoded_shape(bytes, false);
    utf8::is_ascii_chars_encode_utf8(path_encoded(s));
    utf8::is_ascii_chars_encode_utf8(query_encoded(s));
    assert(utf8::encode_utf8(path_encoded(s)) =~= ascii_bytes(path_encoded(s)));
    assert(utf8::encode_utf8(query_encoded(s)) =~= ascii_bytes(query_encoded(s)));
}

proof fn query_encoded_shape(s: Seq<char>)
    ensures
        s.len() > 0 ==> query_encoded(s).len() > 0,
        forall|i: int|
            0 <= i < query_encoded(s).len() ==> is_plain(#[trigger] query_encoded(s)[i]),
        !query_encoded(s).contains(','),
        !query_encoded(s).contains('?'),
        !query_encoded(s).contains('='),
        !query_encoded(s).contains('!'),
{
    encoded_shape(utf8::encode_utf8(s), false);
    if s.len() > 0 && utf8::encode_utf8(s).len() == 0 {
        utf8::encode_utf8_decode_utf8(s);
        assert(utf8::encode_utf8(Seq::<char>::empty()) =~= utf8::encode_utf8(s));
        utf8::encode_utf8_decode_utf8(Seq::<char>::empty());
    }
}

/// A list of attributes, none of them empty, is read as it was written.
pub proof fn attributes_are_read_as_written(attributes: Seq<Seq<char>>)
    requires
        forall|i: int| 0 <= i < attributes.len() ==> (#[trigger] attributes[i]).len() > 0,
    ensures
        attribute_list(rendered_attributes(attributes)) == Ok::<Seq<Seq<char>>, UrlErrorView>(
            attributes,
        ),
        !rendered_attributes(attributes).contains('?'),
{
    let parts = attributes.map_values(|a: Seq<char>| query_encoded(a));
    reveal_strlit(",");
    assert(","@ =~= seq![',']);
    assert forall|i: int| 0 <= i < parts.len() implies !(#[trigger] parts[i]).contains(',')
        && !parts[i].contains('?') && parts[i].len() > 0 by {
        assert(attributes[i].len() > 0);
        query_encoded_shape(attributes[i]);
    }
    join_without(parts, ',', '?');
    if attributes.len() == 0 {
        assert(attributes =~= Seq::<Seq<char>>::empty());
    } else {
        text::split_join(parts, ',');
        if parts.len() > 1 {
            assert(rendered_attributes(attributes).len() > 0);
        }
        attribute_parts(attributes, parts);
    }
}

proof fn attribute_parts(attributes: Seq<Seq<char>>, parts: Seq<Seq<char>>)
    requires
        parts == attributes.map_values(|a: Seq<char>| query_encoded(a)),
        forall|i: int| 0 <= i < attributes.len() ==> (#[trigger] attributes[i]).len() > 0,
    ensures
        attributes_of(parts) == Ok::<Seq<Seq<char>>, UrlErrorView>(attributes),
    decreases attributes.len(),
{
    if attributes.len() == 0 {
        assert(attributes =~= Seq::<Seq<char>>::empty());
    } else {
        let rest = attributes.drop_first();
        assert forall|i: int| 0 <= i < rest.len() implies (#[trigger] rest[i]).len() > 0 by {
            assert(rest[i] == attributes[i + 1]);
        }
        assert(parts.drop_first() =~= rest.map_values(|a: Seq<char>| query_encoded(a)));
        attribute_parts(rest, parts.drop_first());
        assert(attributes[0].len() > 0);
        query_encoded_shape(attributes[0]);
        decoding_undoes_encoding(attributes[0], "attribute"@);
        assert(parts[0] == query_encoded(attributes[0]));
        assert(seq![attributes[0]] + rest =~= attributes);
    }
}

/// A join holds no character that neither its parts nor its separator hold.
proof fn join_without(parts: Seq<Seq<char>>, sep: char, c: char)
    requires
        sep != c,
        forall|i: int| 0 <= i < parts.len() ==> !(#[trigger] parts[i]).contains(c),
    ensures
        !text::join(parts, seq![sep]).contains(c),
    decreases parts.len(),
{
    if parts.len() > 1 {
        let rest = parts.drop_first();
        assert forall|i: int| 0 <= i < rest.len() implies !(#[trigger] rest[i]).contains(c) by {
            assert(rest[i] == parts[i + 1]);
        }
        join_without(rest, sep, c);
        let s = text::join(parts, seq![sep]);
        let tail = text::join(rest, seq![sep]);
        let first = parts[0];
        assert(s =~= first + seq![sep] + tail);
        if s.contains(c) {
            let i = choose|i: int| 0 <= i < s.len() && s[i] == c;
            if i < first.len() {
                assert(first[i] == c);
                assert(first.contains(c));
            } else if i > first.len() {
                assert(tail[i - first.len() - 1] == c);
                assert(tail.contains(c));
            }
        }
    }
}

proof fn extension_part(e: ExtensionView)
    requires
        e.name.len() > 0,
    ensures
        extension_of(rendered_extension(e)) == Ok::<ExtensionView, UrlErrorView>(e),
        !rendered_extension(e).contains(','),
        !rendered_extension(e).contains('?'),
        rendered_extension(e).len() > 0,
{
    reveal_strlit("!");
    reveal_strlit("=");
    let s = rendered_extension(e);
    let n = query_encoded(e.name);
    query_encoded_shape(e.name);
    decoding_undoes_encoding(e.name, "extension name"@);
    let tail = match e.value {
        Some(value) => "="@ + query_encoded(value),
        None => Seq::<char>::empty(),
    };
    if let Some(value) = e.value {
        query_encoded_shape(value);
        decoding_undoes_encoding(value, "extension value"@);
        let v = query_encoded(value);
        assert forall|i: int| 0 <= i < tail.len() implies tail[i] != ',' && tail[i] != '?' by {
            if i > 0 {
                assert(tail[i] == v[i - 1]);
                assert(v.contains(v[i - 1]));
            }
        }
    }
    let rest = n + tail;
    let front = if e.critical {
        "!"@
    } else {
        Seq::<char>::empty()
    };
    assert(s =~= front + rest);
    assert forall|i: int| 0 <= i < s.len() implies s[i] != ',' && s[i] != '?' by {
        if i >= front.len() {
            let k = i - front.len();
            if k < n.len() {
                assert(s[i] == n[k]);
                assert(n.contains(n[k]));
            } else {
                assert(s[i] == tail[k - n.len()]);
            }
        }
    }
    assert(n.contains(n[0]));
    assert(rest[0] == n[0]);
    if e.critical {
        assert(s[0] == '!');
        assert(s.drop_first() =~= rest);
    } else {
        assert(s =~= rest);
    }
    assert forall|j: int| 0 <= j < n.len() implies rest[j] != '=' by {
        assert(rest[j] == n[j]);
        assert(n.contains(n[j]));
    }
    text::find_char_unique(rest, '=', n.len() as int);
    assert(rest.take(n.len() as int) =~= n);
    match e.value {
        Some(value) => {
            assert(rest.skip((n.len() + 1) as int) =~= query_encoded(value));
        },
        None => {
            assert(rest =~= n);
        },
    }
}

/// A list of extensions, each with a name, is read as it was written.
pub proof fn extensions_are_read_as_written(extensions: Seq<ExtensionView>)
    requires
        forall|i: int| 0 <= i < extensions.len() ==> (#[trigger] extensions[i]).name.len() > 0,
    ensures
        extension_list(rendered_extensions(extensions)) == Ok::<Seq<ExtensionView>, UrlErrorView>(
            extensions,
        ),
        !rendered_extensions(extensions).contains('?'),
{
    let parts = extensions.map_values(|e: ExtensionView| rendered_extension(e));
    reveal_strlit(",");
    assert(","@ =~= seq![',']);
    assert forall|i: int| 0 <= i < parts.len() implies !(#[trigger] parts[i]).contains(',')
        && !parts[i].contains('?') && parts[i].len() > 0 by {
        assert(extensions[i].name.len() > 0);
        extension_part(extensions[i]);
    }
    join_without(parts, ',', '?');
    if extensions.len() == 0 {
        assert(extensions =~= Seq::<ExtensionView>::empty());
    } else {
        text::split_join(parts, ',');
        assert(parts[0].len() > 0);
        assert(rendered_extensions(extensions).len() > 0);
        extension_parts(extensions, parts);
    }
}

proof fn extension_parts(extensions: Seq<ExtensionView>, parts: Seq<Seq<char>>)
    requires
        parts == extensions.map_values(|e: ExtensionView| rendered_extension(e)),
        forall|i: int| 0 <= i < extensions.len() ==> (#[trigger] extensions[i]).name.len() > 0,
    ensures
        extensions_of(parts) == Ok::<Seq<ExtensionView>, UrlErrorView>(extensions),
    decreases extensions.len(),
{
    if extensions.len() == 0 {
        assert(extensions =~= Seq::<ExtensionView>::empty());
    } else {
        let rest = extensions.drop_first();
        assert forall|i: int| 0 <= i < rest.len() implies (#[trigger] rest[i]).name.len() > 0 by {
            assert(rest[i] == extensions[i + 1]);
        }
        assert(parts.drop_first() =~= rest.map_values(|e: ExtensionView| rendered_extension(e)));
        extension_parts(rest, parts.drop_first());
        assert(extensions[0].name.len() > 0);
        extension_part(extensions[0]);
        assert(parts[0] == rendered_extension(extensions[0]));
        assert(seq![extensions[0]] + rest =~= extensions);
    }
}

/// A URL that reading could have given: no attribute is empty, a filter stands
/// in brackets, and each extension has a name.
pub open spec fn readable(u: LdapUrlView) -> bool {
    &&& forall|i: int| 0 <= i < u.attributes.len() ==> (#[trigger] u.attributes[i]).len() > 0
    &&& u.filter matches Some(filter) ==> in_brackets(filter)
    &&& forall|i: int| 0 <= i < u.extensions.len() ==> (#[trigger] u.extensions[i]).name.len() > 0
}

/// Some text stands for the URL.
pub open spec fn was_read(u: LdapUrlView) -> bool {
    exists|s: Seq<char>|
        (#[trigger] parsed_url(s)) matches Ok(p) && url_of(p) == Ok::<LdapUrlView, UrlErrorView>(u)
}

/// Some text stands for the URL, and its name is not one or two dots alone.
pub open spec fn can_be_read_again(u: LdapUrlView) -> bool {
    &&& was_read(u)
    &&& is_hosted(u.host, u.port)
    &&& u.dn != "."@
    &&& u.dn != ".."@
}

proof fn nothing_decodes_to_nothing(bytes: Seq<u8>)
    requires
        decoded_bytes(bytes) == Some(Seq::<u8>::empty()),
    ensures
        bytes.len() == 0,
{
}

/// Bytes of which the first that they stand for is a dot.
proof fn dot_in_front(bytes: Seq<u8>) -> (dot: Seq<char>)
    requires
        decoded_bytes(bytes) matches Some(out) && out.len() > 0 && out[0] == 46,
    ensures
        is_dot(dot),
        utf8::is_ascii_chars(dot),
        dot.len() <= bytes.len(),
        bytes == ascii_bytes(dot) + bytes.skip(dot.len() as int),
        decoded_bytes(bytes.skip(dot.len() as int)) == Some(
            (decoded_bytes(bytes)->0).drop_first(),
        ),
{
    reveal_strlit(".");
    reveal_strlit("%2e");
    reveal_strlit("%2E");
    let out = decoded_bytes(bytes)->0;
    if bytes[0] == 37 {
        let rest = decoded_bytes(bytes.skip(3))->0;
        let high = hex_digit(bytes[1])->0;
        let low = hex_digit(bytes[2])->0;
        assert(high <= 15 && low <= 15);
        assert(out[0] == (high * 16 + low) as u8);
        assert(high * 16 + low == 46);
        assert(high == 2 && low == 14);
        assert(bytes[1] == 50);
        assert(out.drop_first() =~= rest);
        let dot = if bytes[2] == 101 {
            "%2e"@
        } else {
            "%2E"@
        };
        assert(bytes =~= ascii_bytes(dot) + bytes.skip(3));
        dot
    } else {
        let rest = decoded_bytes(bytes.drop_first())->0;
        assert(out[0] == bytes[0]);
        assert(out.drop_first() =~= rest);
        assert(bytes.drop_first() =~= bytes.skip(1));
        assert(bytes =~= ascii_bytes("."@) + bytes.skip(1));
        "."@
    }
}

proof fn same_bytes_same_text(s: Seq<char>, ascii: Seq<char>)
    requires
        utf8::is_ascii_chars(ascii),
        utf8::encode_utf8(s) == ascii_bytes(ascii),
    ensures
        s == ascii,
{
    utf8::is_ascii_chars_encode_utf8(ascii);
    assert(utf8::encode_utf8(ascii) =~= ascii_bytes(ascii));
    utf8::encode_utf8_decode_utf8(s);
    utf8::encode_utf8_decode_utf8(ascii);
}

/// What stands for one or two dots alone is one or two dots alone.
proof fn dots_come_from_dots(raw: Seq<char>)
    ensures
        decoded(raw, "dn"@) == Ok::<Seq<char>, UrlErrorView>("."@) || decoded(raw, "dn"@) == Ok::<
            Seq<char>,
            UrlErrorView,
        >(".."@) ==> is_dots(raw),
{
    let bytes = utf8::encode_utf8(raw);
    if let Ok(dn) = decoded(raw, "dn"@) {
        let out = decoded_bytes(bytes)->0;
        utf8::decode_utf8_encode_utf8(out);
        if dn == "."@ {
            reveal_strlit(".");
            utf8::is_ascii_chars_encode_utf8("."@);
            assert(out =~= seq![46u8]);
            let dot = dot_in_front(bytes);
            assert(out.drop_first() =~= Seq::<u8>::empty());
            nothing_decodes_to_nothing(bytes.skip(dot.len() as int));
            assert(bytes =~= ascii_bytes(dot));
            same_bytes_same_text(raw, dot);
        } else if dn == ".."@ {
            reveal_strlit("..");
            utf8::is_ascii_chars_encode_utf8(".."@);
            assert(out =~= seq![46u8, 46u8]);
            let a = dot_in_front(bytes);
            let rest = bytes.skip(a.len() as int);
            assert(out.drop_first() =~= seq![46u8]);
            let b = dot_in_front(rest);
            assert(out.drop_first().drop_first() =~= Seq::<u8>::empty());
            nothing_decodes_to_nothing(rest.skip(b.len() as int));
            assert(rest =~= ascii_bytes(b));
            assert(bytes =~= ascii_bytes(a + b));
            assert forall|i: int| 0 <= i < (a + b).len() implies '\0' <= #[trigger] (a + b)[i]
                <= '\u{7f}' by {
                if i < a.len() {
                    assert((a + b)[i] == a[i]);
                } else {
                    assert((a + b)[i] == b[i - a.len()]);
                }
            }
            same_bytes_same_text(raw, a + b);
        }
    }
}

proof fn decoded_is_not_empty(part: Seq<char>, component: Seq<char>)
    requires
        part.len() > 0,
        decoded(part, component) is Ok,
    ensures
        (decoded(part, component)->Ok_0).len() > 0,
{
    let bytes = utf8::encode_utf8(part);
    if bytes.len() == 0 {
        utf8::encode_utf8_decode_utf8(part);
        assert(utf8::encode_utf8(Seq::<char>::empty()) =~= bytes);
        utf8::encode_utf8_decode_utf8(Seq::<char>::empty());
    }
    let out = decoded_bytes(bytes)->0;
    assert(out.len() > 0);
    let s = utf8::decode_utf8(out);
    if s.len() == 0 {
        utf8::decode_utf8_encode_utf8(out);
        assert(s =~= Seq::<char>::empty());
        assert(utf8::encode_utf8(Seq::<char>::empty()).len() == 0);
    }
}

proof fn attributes_read_are_named(parts: Seq<Seq<char>>)
    ensures
        attributes_of(parts) matches Ok(attributes) ==> forall|i: int|
            0 <= i < attributes.len() ==> (#[trigger] attributes[i]).len() > 0,
    decreases parts.len(),
{
    if parts.len() > 0 {
        attributes_read_are_named(parts.drop_first());
        if let Ok(attributes) = attributes_of(parts) {
            decoded_is_not_empty(parts[0], "attribute"@);
            assert forall|i: int| 0 <= i < attributes.len() implies (
            #[trigger] attributes[i]).len() > 0 by {
                if i > 0 {
                    assert(attributes[i] == (attributes_of(parts.drop_first())->Ok_0)[i - 1]);
                }
            }
        }
    }
}

proof fn extensions_read_are_named(parts: Seq<Seq<char>>)
    ensures
        extensions_of(parts) matches Ok(extensions) ==> forall|i: int|
            0 <= i < extensions.len() ==> (#[trigger] extensions[i]).name.len() > 0,
    decreases parts.len(),
{
    if parts.len() > 0 {
        extensions_read_are_named(parts.drop_first());
        if let Ok(extensions) = extensions_of(parts) {
            assert forall|i: int| 0 <= i < extensions.len() implies (
            #[trigger] extensions[i]).name.len() > 0 by {
                if i > 0 {
                    assert(extensions[i] == (extensions_of(parts.drop_first())->Ok_0)[i - 1]);
                }
            }
        }
    }
}

/// What is read of the parts of a URL is a URL that can be read again: no
/// attribute is empty, a filter stands in brackets, each extension has a name.
pub proof fn what_is_read_is_readable(parts: UrlPartsView)
    ensures
        url_of(parts) matches Ok(u) ==> readable(u) && u.host == parts.host && u.port
            == parts.port,
{
    if let Some(query) = parts.query {
        let components = text::split(query, '?');
        attributes_read_are_named(text::split(component_at(components, 0), ','));
        extensions_read_are_named(text::split(component_at(components, 3), ','));
    }
}

/// The parts that are written of a URL.
pub open spec fn written_parts(u: LdapUrlView) -> UrlPartsView {
    UrlPartsView {
        scheme: scheme_name(u.scheme),
        username: Seq::empty(),
        password: None,
        host: u.host,
        port: u.port,
        path: "/"@ + path_encoded(u.dn),
        query: rendered_query(u),
    }
}

proof fn encoded_path_is_kept(bytes: Seq<u8>)
    ensures
        ({
            let s = encoded_bytes(bytes, true);
            &&& forall|i: int|
                0 <= i < s.len() ==> stands_for_itself(#[trigger] s[i]) || s[i] == '+' || s[i]
                    == ';' || s[i] == '@'
            &&& forall|i: int|
                0 <= i < s.len() - 2 && s[i] == '%' ==> !(#[trigger] s[i + 1] == '2' && (s[i + 2]
                    == 'E' || s[i + 2] == 'e'))
        }),
    decreases bytes.len(),
{
    if bytes.len() > 0 {
        encoded_path_is_kept(bytes.drop_first());
        let a = encoded_byte(bytes[0], true);
        let b = encoded_bytes(bytes.drop_first(), true);
        let s = encoded_bytes(bytes, true);
        assert(s =~= a + b);
        assert forall|i: int| 0 <= i < s.len() implies stands_for_itself(#[trigger] s[i]) || s[i]
            == '+' || s[i] == ';' || s[i] == '@' by {
            if i >= a.len() {
                assert(s[i] == b[i - a.len()]);
            }
        }
        assert forall|i: int| 0 <= i < s.len() - 2 && s[i] == '%' implies !(#[trigger] s[i + 1]
            == '2' && (s[i + 2] == 'E' || s[i + 2] == 'e')) by {
            if i >= a.len() {
                assert(s[i] == b[i - a.len()]);
                assert(s[i + 1] == b[i - a.len() + 1]);
                assert(s[i + 2] == b[i - a.len() + 2]);
            } else if a.len() == 3 {
                assert(i == 0);
            }
        }
    }
}

proof fn dots_stand_for_themselves()
    ensures
        path_encoded("."@) == "."@,
        path_encoded(".."@) == ".."@,
{
    reveal_strlit(".");
    reveal_strlit("..");
    utf8::is_ascii_chars_encode_utf8("."@);
    utf8::is_ascii_chars_encode_utf8(".."@);
    reveal_with_fuel(encoded_bytes, 4);
    assert(path_encoded("."@) =~= "."@);
    assert(path_encoded(".."@) =~= ".."@);
}

proof fn joined_queries_are_kept(parts: Seq<Seq<char>>, sep: Seq<char>)
    requires
        is_kept_query(sep),
        forall|i: int| 0 <= i < parts.len() ==> is_kept_query(#[trigger] parts[i]),
    ensures
        is_kept_query(text::join(parts, sep)),
    decreases parts.len(),
{
    if parts.len() > 1 {
        let rest = parts.drop_first();
        assert forall|i: int| 0 <= i < rest.len() implies is_kept_query(#[trigger] rest[i]) by {
            assert(rest[i] == parts[i + 1]);
        }
        joined_queries_are_kept(rest, sep);
        both_are_kept(parts[0], sep);
        both_are_kept(parts[0] + sep, text::join(rest, sep));
    }
}

proof fn both_are_kept(a: Seq<char>, b: Seq<char>)
    requires
        is_kept_query(a),
        is_kept_query(b),
    ensures
        is_kept_query(a + b),
{
    let s = a + b;
    assert forall|i: int| 0 <= i < s.len() implies stands_for_itself(#[trigger] s[i]) || s[i]
        == '!' || s[i] == '?' by {
        if i < a.len() {
            assert(s[i] == a[i]);
        } else {
            assert(s[i] == b[i - a.len()]);
        }
    }
}

proof fn encoded_bytes_are_kept(bytes: Seq<u8>)
    ensures
        is_kept_query(encoded_bytes(bytes, false)),
    decreases bytes.len(),
{
    if bytes.len() > 0 {
        encoded_bytes_are_kept(bytes.drop_first());
        both_are_kept(encoded_byte(bytes[0], false), encoded_bytes(bytes.drop_first(), false));
    }
}

proof fn encoded_query_is_kept(s: Seq<char>)
    ensures
        is_kept_query(query_encoded(s)),
{
    encoded_bytes_are_kept(utf8::encode_utf8(s));
}

proof fn written_query_is_kept(u: LdapUrlView)
    ensures
        rendered_query(u) matches Some(query) ==> is_kept_query(query),
{
    reveal_strlit(",");
    reveal_strlit("?");
    reveal_strlit("!");
    reveal_strlit("=");
    reveal_strlit("base");
    reveal_strlit("one");
    reveal_strlit("sub");
    let attributes = u.attributes.map_values(|a: Seq<char>| query_encoded(a));
    assert forall|i: int| 0 <= i < attributes.len() implies is_kept_query(
        #[trigger] attributes[i],
    ) by {
        encoded_query_is_kept(u.attributes[i]);
    }
    joined_queries_are_kept(attributes, ","@);
    let extensions = u.extensions.map_values(|e: ExtensionView| rendered_extension(e));
    assert forall|i: int| 0 <= i < extensions.len() implies is_kept_query(
        #[trigger] extensions[i],
    ) by {
        let e = u.extensions[i];
        let mark = if e.critical {
            "!"@
        } else {
            Seq::empty()
        };
        encoded_query_is_kept(e.name);
        both_are_kept(mark, query_encoded(e.name));
        if let Some(value) = e.value {
            encoded_query_is_kept(value);
            both_are_kept("="@, query_encoded(value));
            both_are_kept(mark + query_encoded(e.name), "="@ + query_encoded(value));
        } else {
            both_are_kept(mark + query_encoded(e.name), Seq::empty());
        }
    }
    joined_queries_are_kept(extensions, ","@);
    if let Some(filter) = u.filter {
        encoded_query_is_kept(filter);
    }
    let parts = query_components(u);
    assert forall|i: int| 0 <= i < parts.len() implies is_kept_query(#[trigger] parts[i]) by {
        if i == 0 {
        } else if i == 1 {
        } else if i == 2 {
        } else {
            assert(i == 3);
        }
    }
    joined_queries_are_kept(parts, "?"@);
}

/// The parts that are written of a URL that was read are found again in its
/// text and make that URL, unless its name is one or two dots alone.
proof fn written_parts_are_kept(u: LdapUrlView)
    requires
        can_be_read_again(u),
    ensures
        are_kept_parts(written_parts(u)),
        url_text(u) == parts_text(written_parts(u)),
        url_of(written_parts(u)) == Ok::<LdapUrlView, UrlErrorView>(u),
{
    let s = choose|s: Seq<char>|
        (#[trigger] parsed_url(s)) matches Ok(p) && url_of(p) == Ok::<LdapUrlView, UrlErrorView>(u);
    let p = parsed_url(s)->Ok_0;
    what_is_read_is_readable(p);
    url_is_read_as_written(u);
    reveal_strlit("/");
    let segment = path_encoded(u.dn);
    let written = written_parts(u);
    assert(written.path.drop_first() =~= segment);
    encoded_path_is_kept(utf8::encode_utf8(u.dn));
    dots_stand_for_themselves();
    decoding_undoes_encoding(u.dn, "dn"@);
    decoding_undoes_encoding("."@, "dn"@);
    decoding_undoes_encoding(".."@, "dn"@);
    written_query_is_kept(u);
    if let Some(host) = u.host {
        assert(parsed_url(s) matches Ok(q) && (q.scheme == "ldap"@ || q.scheme == "ldaps"@)
            && q.host == Some(host));
        assert(is_ldap_host(host));
    }
    assert(url_text(u) =~= parts_text(written));
}

proof fn scope_is_read_as_written(scope: LdapUrlScope)
    ensures
        scope_component(scope_name(scope)) == Ok::<Option<LdapUrlScope>, UrlErrorView>(
            Some(scope),
        ),
        !scope_name(scope).contains('?'),
{
    reveal_strlit("base");
    reveal_strlit("one");
    reveal_strlit("sub");
    let n = scope_name(scope);
    assert("one"@[0] != "sub"@[0]);
    let bytes = utf8::encode_utf8(n);
    utf8::is_ascii_chars_encode_utf8(n);
    reveal_with_fuel(encoded_bytes, 5);
    assert(query_encoded(n) =~= n);
    decoding_undoes_encoding(n, "scope"@);
}

/// What is written of a URL is read as that URL: its scheme, host and port,
/// its name as a path, and its query.
pub proof fn url_is_read_as_written(u: LdapUrlView)
    requires
        readable(u),
    ensures
        url_of(written_parts(u)) == Ok::<LdapUrlView, UrlErrorView>(u),
{
    reveal_strlit("/");
    reveal_strlit("?");
    reveal_strlit("ldap");
    reveal_strlit("ldaps");
    assert("ldap"@.len() != "ldaps"@.len());
    let path = "/"@ + path_encoded(u.dn);
    assert(path.drop_first() =~= path_encoded(u.dn));
    decoding_undoes_encoding(u.dn, "dn"@);
    attributes_are_read_as_written(u.attributes);
    extensions_are_read_as_written(u.extensions);
    let parts = query_components(u);
    let n = component_count(u);
    assert(parts.len() == n);
    if let Some(scope) = u.scope {
        scope_is_read_as_written(scope);
    }
    if let Some(filter) = u.filter {
        query_encoded_shape(filter);
        decoding_undoes_encoding(filter, "filter"@);
    }
    if n == 0 {
        assert(u.attributes =~= Seq::<Seq<char>>::empty());
        assert(u.extensions =~= Seq::<ExtensionView>::empty());
    } else {
        assert forall|i: int| 0 <= i < parts.len() implies !(#[trigger] parts[i]).contains('?') by {
            if i == 1 && u.scope is None {
                assert(parts[i] == Seq::<char>::empty());
            }
            if i == 2 && u.filter is None {
                assert(parts[i] == Seq::<char>::empty());
            }
        }
        assert("?"@ =~= seq!['?']);
        text::split_join(parts, '?');
        if n < 4 {
            assert(u.extensions =~= Seq::<ExtensionView>::empty());
        }
    }
}

} // verus!
