//! The requests that the monitoring server reads, and the responses that it
//! writes.

use vstd::prelude::*;
use vstd::utf8;

use crate::string_map;
use crate::string_map::StringMap;
use crate::text;

verus! {

/// The longest request that is read, in bytes.
pub const MAX_HTTP_REQUEST_BYTES: usize = 65536;

/// Why a request is not understood.
#[derive(Debug, Clone, Copy, PartialEq, Eq, Structural)]
pub enum HttpRequestError {
    Empty,
    TooLarge,
    MissingHeader,
    NotUtf8,
    MissingRequestLine,
    MissingMethod,
    MissingPath,
    ContentLength,
}

/// A request.
#[derive(Debug)]
pub struct HttpRequest {
    pub method: String,
    /// The path without a query.
    pub path: String,
    /// The headers by their names in lower case.
    pub headers: StringMap<String>,
    pub body: Vec<u8>,
}

/// What an [`HttpRequest`] says.
pub struct RequestView {
    pub method: Seq<char>,
    pub path: Seq<char>,
    pub headers: Seq<(Seq<char>, Seq<char>)>,
    pub body: Seq<u8>,
}

/// The names and the values of headers.
pub open spec fn header_views(s: Seq<(Seq<char>, String)>) -> Seq<(Seq<char>, Seq<char>)> {
    s.map_values(|e: (Seq<char>, String)| (e.0, e.1@))
}

impl View for HttpRequest {
    type V = RequestView;

    open spec fn view(&self) -> RequestView {
        RequestView {
            method: self.method@,
            path: self.path@,
            headers: header_views(self.headers@),
            body: self.body@,
        }
    }
}

proof fn put_header(s: Seq<(Seq<char>, String)>, k: Seq<char>, v: String)
    ensures
        header_views(string_map::put(s, k, v)) == string_map::put(header_views(s), k, v@),
    decreases s.len(),
{
    let h = header_views(s);
    if s.len() == 0 {
        assert(header_views(string_map::put(s, k, v)) =~= string_map::put(h, k, v@));
    } else {
        put_header(s.drop_first(), k, v);
        assert(h.drop_first() =~= header_views(s.drop_first()));
        assert(header_views(string_map::put(s, k, v)) =~= string_map::put(h, k, v@));
    }
}

proof fn lookup_header(s: Seq<(Seq<char>, String)>, k: Seq<char>)
    ensures
        string_map::lookup(header_views(s), k) == (match string_map::lookup(s, k) {
            Some(v) => Some(v@),
            None => None,
        }),
    decreases s.len(),
{
    if s.len() > 0 {
        lookup_header(s.drop_first(), k);
        assert(header_views(s).drop_first() =~= header_views(s.drop_first()));
    }
}

// ---------------------------------------------------------------------------
// Reading
// ---------------------------------------------------------------------------

/// An empty line starts here.
pub open spec fn ends_here(b: Seq<u8>) -> bool {
    b.len() >= 4 && b[0] == 13 && b[1] == 10 && b[2] == 13 && b[3] == 10
}

/// Where the empty line behind the headers starts.
pub open spec fn header_end(b: Seq<u8>) -> Option<int>
    decreases b.len(),
{
    if b.len() == 0 {
        None
    } else if ends_here(b) {
        Some(0)
    } else {
        match header_end(b.drop_first()) {
            Some(i) => Some(i + 1),
            None => None,
        }
    }
}

pub proof fn header_end_bounds(b: Seq<u8>)
    ensures
        header_end(b) matches Some(i) ==> 0 <= i && i + 4 <= b.len() && ends_here(b.skip(i)),
    decreases b.len(),
{
    if b.len() > 0 {
        if ends_here(b) {
            assert(b.skip(0) =~= b);
        } else {
            header_end_bounds(b.drop_first());
            if let Some(i) = header_end(b.drop_first()) {
                assert(b.skip(i + 1) =~= b.drop_first().skip(i));
            }
        }
    }
}

/// Where the empty line behind the headers starts.
pub fn find_header_end(bytes: &[u8]) -> (r: Option<usize>)
    ensures
        match r {
            Some(i) => header_end(bytes@) == Some(i as int) && i + 4 <= bytes@.len(),
            None => header_end(bytes@) is None,
        },
{
    let n = bytes.len();
    let mut i: usize = 0;
    proof {
        assert(bytes@.skip(0) =~= bytes@);
        header_end_bounds(bytes@);
    }
    while i < n
        invariant
            n == bytes@.len(),
            i <= n,
            header_end(bytes@) == (match header_end(bytes@.skip(i as int)) {
                Some(k) => Some(k + i),
                None => None,
            }),
        decreases n - i,
    {
        if n - i >= 4 && bytes[i] == 13 && bytes[i + 1] == 10 && bytes[i + 2] == 13 && bytes[i + 3]
            == 10 {
            proof {
                assert(ends_here(bytes@.skip(i as int)));
            }
            return Some(i);
        }
        proof {
            assert(!ends_here(bytes@.skip(i as int)));
            assert(bytes@.skip(i as int).drop_first() =~= bytes@.skip(i + 1));
        }
        i = i + 1;
    }
    None
}

fn bytes_between(bytes: &[u8], from: usize, to: usize) -> (r: Vec<u8>)
    requires
        from <= to <= bytes@.len(),
    ensures
        r@ == bytes@.subrange(from as int, to as int),
{
    let mut out: Vec<u8> = Vec::new();
    let mut i: usize = from;
    while i < to
        invariant
            from <= i <= to <= bytes@.len(),
            out@ == bytes@.subrange(from as int, i as int),
        decreases to - i,
    {
        out.push(bytes[i]);
        proof {
            assert(bytes@.subrange(from as int, i + 1) =~= bytes@.subrange(
                from as int,
                i as int,
            ).push(bytes@[i as int]));
        }
        i = i + 1;
    }
    out
}

/// The lines of the part before the empty line, unless it is no text.
pub open spec fn header_lines(b: Seq<u8>, end: int) -> Option<Seq<Seq<char>>> {
    if utf8::valid_utf8(b.take(end)) {
        Some(text::lines(utf8::decode_utf8(b.take(end))))
    } else {
        None
    }
}

fn read_header_lines(bytes: &[u8], end: usize) -> (r: Option<Vec<String>>)
    requires
        end <= bytes@.len(),
    ensures
        match r {
            Some(lines) => header_lines(bytes@, end as int) == Some(text::texts(lines@)),
            None => header_lines(bytes@, end as int) is None,
        },
{
    let head = bytes_between(bytes, 0, end);
    proof {
        assert(bytes@.subrange(0, end as int) =~= bytes@.take(end as int));
    }
    match text::utf8_text(head) {
        Ok(s) => Some(text::lines_of(s.as_str())),
        Err(_) => None,
    }
}

/// The lines behind the first one.
pub open spec fn behind_first(lines: Seq<Seq<char>>) -> Seq<Seq<char>> {
    if lines.len() == 0 {
        lines
    } else {
        lines.drop_first()
    }
}

/// The number that a length is written as.
pub open spec fn length_value(value: Seq<char>) -> Result<usize, HttpRequestError> {
    let t = text::trim(value);
    let digits = if t.len() > 0 && t[0] == '+' {
        t.drop_first()
    } else {
        t
    };
    if digits.len() > 0 && text::all_digits(digits) && text::decimal_value(digits) <= usize::MAX {
        Ok(text::decimal_value(digits) as usize)
    } else {
        Err(HttpRequestError::ContentLength)
    }
}

fn parse_length(value: &str) -> (r: Result<usize, HttpRequestError>)
    ensures
        r == length_value(value@),
{
    let t = text::trimmed(value);
    let chars = text::chars_of(t.as_str());
    let from: usize = if chars.len() > 0 && chars[0] == '+' {
        1
    } else {
        0
    };
    proof {
        if from == 1 {
            assert(chars@.skip(1) =~= chars@.drop_first());
        } else {
            assert(chars@.skip(0) =~= chars@);
        }
    }
    match text::parse_digits(&chars, from) {
        Some(n) => if n <= usize::MAX as u64 {
            Ok(n as usize)
        } else {
            Err(HttpRequestError::ContentLength)
        },
        None => Err(HttpRequestError::ContentLength),
    }
}

/// The length of the body that the headers in these lines announce: that of
/// the first one that gives a length, zero where none does.
pub open spec fn content_length(lines: Seq<Seq<char>>) -> Result<usize, HttpRequestError>
    decreases lines.len(),
{
    if lines.len() == 0 {
        Ok(0)
    } else {
        match text::cut(lines[0], ':') {
            Some(header) => if text::lower(text::trim(header.0)) == text::lower(
                "content-length"@,
            ) {
                length_value(header.1)
            } else {
                content_length(lines.drop_first())
            },
            None => content_length(lines.drop_first()),
        }
    }
}

fn parse_content_length(lines: &Vec<String>) -> (r: Result<usize, HttpRequestError>)
    ensures
        r == content_length(behind_first(text::texts(lines@))),
{
    let ghost all = text::texts(lines@);
    let n = lines.len();
    if n == 0 {
        return Ok(0);
    }
    let mut i: usize = 1;
    proof {
        assert(all.skip(1) =~= all.drop_first());
    }
    while i < n
        invariant
            all == text::texts(lines@),
            n == lines@.len(),
            1 <= i <= n,
            content_length(behind_first(all)) == content_length(all.skip(i as int)),
        decreases n - i,
    {
        proof {
            assert(all.skip(i as int)[0] == lines@[i as int]@);
            assert(all.skip(i as int).drop_first() =~= all.skip(i + 1));
        }
        if let Some(header) = text::split_once(lines[i].as_str(), ':') {
            let name = text::trimmed(header.0.as_str());
            if text::eq_ignore_case(name.as_str(), "content-length") {
                return parse_length(header.1.as_str());
            }
        }
        i = i + 1;
    }
    Ok(0)
}

/// The headers in these lines; of two of one name the later one counts.
pub open spec fn headers_of(lines: Seq<Seq<char>>) -> Seq<(Seq<char>, Seq<char>)>
    decreases lines.len(),
{
    if lines.len() == 0 {
        Seq::empty()
    } else {
        let before = headers_of(lines.drop_last());
        match text::cut(lines.last(), ':') {
            Some(header) => string_map::put(
                before,
                text::lower(text::trim(header.0)),
                text::trim(header.1),
            ),
            None => before,
        }
    }
}

fn read_headers(lines: &Vec<String>) -> (r: StringMap<String>)
    requires
        lines@.len() > 0,
    ensures
        header_views(r@) == headers_of(behind_first(text::texts(lines@))),
{
    let ghost rest = text::texts(lines@).drop_first();
    let n = lines.len();
    let mut headers: StringMap<String> = StringMap::new();
    let mut i: usize = 1;
    proof {
        assert(header_views(headers@) =~= headers_of(rest.take(0)));
    }
    while i < n
        invariant
            rest == text::texts(lines@).drop_first(),
            n == lines@.len(),
            1 <= i <= n,
            header_views(headers@) == headers_of(rest.take(i - 1)),
        decreases n - i,
    {
        proof {
            assert(rest.take(i as int).last() == lines@[i as int]@);
            assert(rest.take(i as int).drop_last() =~= rest.take(i - 1));
        }
        if let Some(header) = text::split_once(lines[i].as_str(), ':') {
            let trimmed = text::trimmed(header.0.as_str());
            let name = text::lowercase(trimmed.as_str());
            let value = text::trimmed(header.1.as_str());
            proof {
                put_header(headers@, name@, value);
            }
            let _ = headers.insert(name, value);
        }
        i = i + 1;
    }
    proof {
        assert(rest.take(n - 1) =~= rest);
    }
    headers
}

/// The path without a query.
pub open spec fn plain_path(path: Seq<char>) -> Seq<char> {
    text::split(path, '?')[0]
}

/// The request that the bytes are, or why they are none.
pub open spec fn parsed(b: Seq<u8>) -> Result<RequestView, HttpRequestError> {
    match header_end(b) {
        None => Err(HttpRequestError::MissingHeader),
        Some(end) => match header_lines(b, end) {
            None => Err(HttpRequestError::NotUtf8),
            Some(lines) => if lines.len() == 0 {
                Err(HttpRequestError::MissingRequestLine)
            } else {
                match text::next_word(lines[0]) {
                    None => Err(HttpRequestError::MissingMethod),
                    Some(first) => match text::next_word(first.1) {
                        None => Err(HttpRequestError::MissingPath),
                        Some(second) => Ok(
                            RequestView {
                                method: first.0,
                                path: plain_path(second.0),
                                headers: headers_of(behind_first(lines)),
                                body: b.skip(end + 4),
                            },
                        ),
                    },
                }
            },
        },
    }
}

/// The request that the bytes are, or why they are none.
pub fn parse_http_request_bytes(bytes: &[u8]) -> (r: Result<HttpRequest, HttpRequestError>)
    ensures
        match (r, parsed(bytes@)) {
            (Ok(request), Ok(view)) => request@ == view,
            (Err(e), Err(fault)) => e == fault,
            _ => false,
        },
{
    let end = match find_header_end(bytes) {
        None => {
            return Err(HttpRequestError::MissingHeader);
        },
        Some(end) => end,
    };
    let lines = match read_header_lines(bytes, end) {
        None => {
            return Err(HttpRequestError::NotUtf8);
        },
        Some(lines) => lines,
    };
    if lines.len() == 0 {
        return Err(HttpRequestError::MissingRequestLine);
    }
    proof {
        assert(text::texts(lines@)[0] == lines@[0]@);
    }
    let (method, rest) = match text::take_word(lines[0].as_str()) {
        None => {
            return Err(HttpRequestError::MissingMethod);
        },
        Some(pair) => pair,
    };
    let (path, _) = match text::take_word(rest.as_str()) {
        None => {
            return Err(HttpRequestError::MissingPath);
        },
        Some(pair) => pair,
    };
    let pieces = text::split_on(path.as_str(), '?');
    let total = bytes.len();
    proof {
        assert(text::split(path@, '?').len() > 0);
        assert(pieces@.len() == text::texts(pieces@).len());
        assert(text::texts(pieces@)[0] == pieces@[0]@);
        assert(bytes@.subrange(end + 4, bytes@.len() as int) =~= bytes@.skip(end + 4));
    }
    Ok(
        HttpRequest {
            method,
            path: pieces[0].clone(),
            headers: read_headers(&lines),
            body: bytes_between(bytes, end + 4, total),
        },
    )
}

/// Whether a request that comes in pieces is there with all of its body.
pub open spec fn complete(b: Seq<u8>) -> Result<bool, HttpRequestError> {
    if b.len() > MAX_HTTP_REQUEST_BYTES {
        Err(HttpRequestError::TooLarge)
    } else {
        match header_end(b) {
            None => Ok(false),
            Some(end) => match header_lines(b, end) {
                None => Err(HttpRequestError::NotUtf8),
                Some(lines) => match content_length(behind_first(lines)) {
                    Err(e) => Err(e),
                    Ok(n) => Ok(b.len() - (end + 4) >= n),
                },
            },
        }
    }
}

/// A request that comes in pieces.
#[derive(Debug)]
pub struct RequestReader {
    pub buffer: Vec<u8>,
}

impl RequestReader {
    pub fn new() -> (r: Self)
        ensures
            r.buffer@.len() == 0,
    {
        RequestReader { buffer: Vec::new() }
    }

    /// Takes the next piece. The request is complete, or more of it is to be
    /// read, or it is refused.
    pub fn take(&mut self, chunk: &[u8]) -> (r: Result<bool, HttpRequestError>)
        ensures
            final(self).buffer@ == old(self).buffer@ + chunk@,
            r == complete(final(self).buffer@),
    {
        self.buffer.extend_from_slice(chunk);
        proof {
            assert(self.buffer@ =~= old(self).buffer@ + chunk@);
        }
        if self.buffer.len() > MAX_HTTP_REQUEST_BYTES {
            return Err(HttpRequestError::TooLarge);
        }
        match find_header_end(self.buffer.as_slice()) {
            None => Ok(false),
            Some(end) => match read_header_lines(self.buffer.as_slice(), end) {
                None => Err(HttpRequestError::NotUtf8),
                Some(lines) => match parse_content_length(&lines) {
                    Err(e) => Err(e),
                    Ok(n) => Ok(self.buffer.len() - (end + 4) >= n),
                },
            },
        }
    }

    /// The request, once it is complete or nothing more comes.
    pub fn finish(&self) -> (r: Result<HttpRequest, HttpRequestError>)
        ensures
            self.buffer@.len() == 0 ==> r == Err::<HttpRequest, HttpRequestError>(
                HttpRequestError::Empty,
            ),
            self.buffer@.len() > 0 ==> match (r, parsed(self.buffer@)) {
                (Ok(request), Ok(view)) => request@ == view,
                (Err(e), Err(fault)) => e == fault,
                _ => false,
            },
    {
        if self.buffer.len() == 0 {
            return Err(HttpRequestError::Empty);
        }
        parse_http_request_bytes(self.buffer.as_slice())
    }
}

// ---------------------------------------------------------------------------
// Writing
// ---------------------------------------------------------------------------

/// A further header of a response.
#[derive(Debug)]
pub struct ResponseHeader {
    pub name: &'static str,
    pub value: String,
}

/// The lines of further headers.
pub open spec fn header_text(headers: Seq<ResponseHeader>) -> Seq<char>
    decreases headers.len(),
{
    if headers.len() == 0 {
        Seq::empty()
    } else {
        header_text(headers.drop_last()) + headers.last().name@ + ": "@ + headers.last().value@
            + "\r\n"@
    }
}

/// A response: its head with the length of the body in bytes, and the body.
pub open spec fn response_text(
    status: Seq<char>,
    content_type: Seq<char>,
    body: Seq<char>,
    headers: Seq<ResponseHeader>,
) -> Seq<char> {
    "HTTP/1.1 "@ + status + "\r\ncontent-type: "@ + content_type + "\r\ncontent-length: "@
        + text::decimal(utf8::encode_utf8(body).len()) + "\r\nconnection: close\r\n"@ + header_text(
        headers,
    ) + "\r\n"@ + body
}

/// A response with further headers.
pub fn http_response_with_headers(
    status: &str,
    content_type: &str,
    body: &str,
    extra_headers: &Vec<ResponseHeader>,
) -> (r: String)
    ensures
        r@ == response_text(status@, content_type@, body@, extra_headers@),
{
    let ghost hs = extra_headers@;
    let mut out = "HTTP/1.1 ".to_owned();
    out.append(status);
    out.append("\r\ncontent-type: ");
    out.append(content_type);
    out.append("\r\ncontent-length: ");
    out.append(text::decimal_of(body.as_bytes().len() as u64).as_str());
    out.append("\r\nconnection: close\r\n");
    let ghost before = out@;
    let mut i: usize = 0;
    proof {
        assert(before + header_text(hs.take(0)) =~= before);
    }
    while i < extra_headers.len()
        invariant
            hs == extra_headers@,
            i <= hs.len(),
            out@ == before + header_text(hs.take(i as int)),
        decreases hs.len() - i,
    {
        proof {
            assert(hs.take(i + 1).drop_last() =~= hs.take(i as int));
        }
        out.append(extra_headers[i].name);
        out.append(": ");
        out.append(extra_headers[i].value.as_str());
        out.append("\r\n");
        i = i + 1;
        proof {
            assert(out@ =~= before + header_text(hs.take(i as int)));
        }
    }
    proof {
        assert(hs.take(i as int) =~= hs);
    }
    out.append("\r\n");
    out.append(body);
    proof {
        assert(out@ =~= response_text(status@, content_type@, body@, hs));
    }
    out
}

/// A response.
pub fn http_response(status: &str, content_type: &str, body: &str) -> (r: String)
    ensures
        r@ == response_text(status@, content_type@, body@, Seq::empty()),
{
    let none: Vec<ResponseHeader> = Vec::new();
    http_response_with_headers(status, content_type, body, &none)
}

/// A response whose body is a JSON text.
pub fn json_response(status: &str, body: &str, extra_headers: &Vec<ResponseHeader>) -> (r: String)
    ensures
        r@ == response_text(status@, "application/json"@, body@, extra_headers@),
{
    http_response_with_headers(status, "application/json", body, extra_headers)
}

/// The response to a request that is not understood.
pub fn bad_request_response() -> (r: String)
    ensures
        r@ == response_text(
            "400 Bad Request"@,
            "text/plain; charset=utf-8"@,
            "bad request"@,
            Seq::empty(),
        ),
{
    http_response("400 Bad Request", "text/plain; charset=utf-8", "bad request")
}

/// The response to a request for what is not there.
pub fn not_found_response() -> (r: String)
    ensures
        r@ == response_text(
            "404 Not Found"@,
            "text/plain; charset=utf-8"@,
            "not found"@,
            Seq::empty(),
        ),
{
    http_response("404 Not Found", "text/plain; charset=utf-8", "not found")
}

/// The response to a request with the wrong method.
pub fn method_not_allowed_response() -> (r: String)
    ensures
        r@ == response_text(
            "405 Method Not Allowed"@,
            "text/plain; charset=utf-8"@,
            "method not allowed"@,
            Seq::empty(),
        ),
{
    http_response("405 Method Not Allowed", "text/plain; charset=utf-8", "method not allowed")
}

// ---------------------------------------------------------------------------
// Cookies
// ---------------------------------------------------------------------------

/// The value of the cookie of that name among these cookies, the first that
/// is not empty.
pub open spec fn cookie_among(cookies: Seq<Seq<char>>, name: Seq<char>) -> Option<Seq<char>>
    decreases cookies.len(),
{
    if cookies.len() == 0 {
        None
    } else {
        match text::cut(text::trim(cookies[0]), '=') {
            Some(cookie) => if cookie.0 == name && cookie.1.len() > 0 {
                Some(cookie.1)
            } else {
                cookie_among(cookies.drop_first(), name)
            },
            None => cookie_among(cookies.drop_first(), name),
        }
    }
}

/// The value of the cookie of that name in the text of a header.
pub open spec fn cookie_in(header: Seq<char>, name: Seq<char>) -> Option<Seq<char>> {
    cookie_among(text::split(header, ';'), name)
}

/// The value of the cookie of that name in a request.
pub open spec fn cookie_of(request: RequestView, name: Seq<char>) -> Option<Seq<char>> {
    match string_map::lookup(request.headers, "cookie"@) {
        Some(header) => cookie_in(header, name),
        None => None,
    }
}

impl HttpRequest {
    /// The value of a header, by its name in lower case.
    pub fn header(&self, name: &str) -> (r: Option<&String>)
        ensures
            match r {
                Some(v) => string_map::lookup(self@.headers, name@) == Some(v@),
                None => string_map::lookup(self@.headers, name@) is None,
            },
    {
        proof {
            lookup_header(self.headers@, name@);
        }
        self.headers.get(name)
    }

    /// The value of a cookie.
    pub fn cookie(&self, name: &str) -> (r: Option<String>)
        ensures
            match r {
                Some(v) => cookie_of(self@, name@) == Some(v@),
                None => cookie_of(self@, name@) is None,
            },
    {
        let header = match self.header("cookie") {
            None => {
                return None;
            },
            Some(header) => header,
        };
        let cookies = text::split_on(header.as_str(), ';');
        let ghost all = text::texts(cookies@);
        let mut i: usize = 0;
        proof {
            assert(all.skip(0) =~= all);
        }
        while i < cookies.len()
            invariant
                all == text::texts(cookies@),
                i <= cookies@.len(),
                cookie_of(self@, name@) == cookie_among(all.skip(i as int), name@),
            decreases cookies@.len() - i,
        {
            proof {
                assert(all.skip(i as int)[0] == cookies@[i as int]@);
                assert(all.skip(i as int).drop_first() =~= all.skip(i + 1));
            }
            let trimmed = text::trimmed(cookies[i].as_str());
            if let Some(cookie) = text::split_once(trimmed.as_str(), '=') {
                if text::same(cookie.0.as_str(), name) && !cookie.1.as_str().is_empty() {
                    return Some(cookie.1);
                }
            }
            i = i + 1;
        }
        None
    }
}

// ---------------------------------------------------------------------------
// Laws
// ---------------------------------------------------------------------------

/// Behind the headers of a request comes its body, and nothing of it is lost.
pub proof fn body_follows_headers(head: Seq<u8>, body: Seq<u8>)
    requires
        header_end(head + seq![13u8, 10, 13, 10]) == Some(head.len() as int),
    ensures
        header_end(head + seq![13u8, 10, 13, 10] + body) == Some(head.len() as int),
        (head + seq![13u8, 10, 13, 10] + body).skip(head.len() as int + 4) == body,
    decreases head.len(),
{
    let end = seq![13u8, 10, 13, 10];
    let b = head + end + body;
    assert(b.skip(head.len() as int + 4) =~= body);
    if head.len() > 0 {
        let short = head + end;
        assert(short.drop_first() =~= head.drop_first() + end);
        assert(b.drop_first() =~= head.drop_first() + end + body);
        assert(!ends_here(short));
        assert(ends_here(b) ==> ends_here(short));
        body_follows_headers(head.drop_first(), body);
    } else {
        assert(ends_here(b));
    }
}

/// A cookie that comes first in a header is read as it was written, if its
/// value is not empty and holds neither a semicolon nor white space at its
/// end, and its name is not empty, holds neither a semicolon nor an equals
/// sign and no white space at its start.
pub proof fn first_cookie_is_read(name: Seq<char>, value: Seq<char>, rest: Seq<char>)
    requires
        name.len() > 0,
        !name.contains(';'),
        !name.contains('='),
        !text::is_space(name[0]),
        value.len() > 0,
        !value.contains(';'),
        !text::is_space(value.last()),
        rest.len() > 0 ==> rest[0] == ';',
    ensures
        cookie_in(name + seq!['='] + value + rest, name) == Some(value),
{
    let pair = name + seq!['='] + value;
    let header = pair + rest;
    assert forall|j: int| 0 <= j < pair.len() implies header[j] != ';' by {
        if j < name.len() {
            assert(name.contains(name[j]));
            assert(header[j] == name[j]);
        } else if j > name.len() {
            assert(value.contains(value[j - name.len() - 1]));
            assert(header[j] == value[j - name.len() - 1]);
        }
    }
    text::find_char_unique(header, ';', pair.len() as int);
    assert(header.take(pair.len() as int) =~= pair);
    assert(header.len() == pair.len() ==> header =~= pair);
    assert(text::split(header, ';')[0] == pair);
    assert(pair[0] == name[0] && pair.last() == value.last());
    text::trim_of_trimmed(pair);
    assert forall|j: int| 0 <= j < name.len() implies pair[j] != '=' by {
        assert(name.contains(name[j]));
    }
    text::find_char_unique(pair, '=', name.len() as int);
    assert(pair.take(name.len() as int) =~= name);
    assert(pair.skip(name.len() as int + 1) =~= value);
}

} // verus!
