//! Laws of monitoring: which health is told, where requests go, and who may
//! see the console.

use vstd::prelude::*;

use crate::laws::server::found_inside;
use crate::http;
use crate::http::{
    complete, content_length, cookie_in, header_end, header_text, headers_of, length_value, parsed,
    plain_path, response_text, HttpRequestError, ResponseHeader, MAX_HTTP_REQUEST_BYTES,
};
use crate::laws::texts::{is_blank, words_are_parted_by_white_space};
use crate::metrics::HealthStatus;
use crate::monitoring_runtime::{
    admin_dn, all_reports, component_status, console_path, counted_reports, expire_cookie_text,
    health_status_line, live, login_step, lookup_live, own_reports_count, recognised,
    report_details, request_route, route_of, serve_step, sessions_after, severity, without_slashes,
    worse, ComponentStatus, ConsoleSession, LoginFacts, LoginStepView, MonitoringSettings,
    ReportView, Reports, Route, ServeStep, Sessions,
};
use crate::string_map;
use crate::text;

verus! {

// ---------------------------------------------------------------------------
// Health
// ---------------------------------------------------------------------------

/// A part that is down is worse than one that is troubled, that worse than one
/// that is well, and one that is switched off does not count; the worse of two
/// states is one of them, and no better than either.
pub proof fn states_have_an_order(a: ComponentStatus, b: ComponentStatus)
    ensures
        severity(ComponentStatus::Disabled) < severity(ComponentStatus::Healthy),
        severity(ComponentStatus::Healthy) < severity(ComponentStatus::Degraded),
        severity(ComponentStatus::Degraded) < severity(ComponentStatus::Unhealthy),
        worse(a, b) == a || worse(a, b) == b,
        a == ComponentStatus::Unhealthy || b == ComponentStatus::Unhealthy <==> worse(a, b)
            == ComponentStatus::Unhealthy,
        worse(a, b) == ComponentStatus::Disabled <==> a == ComponentStatus::Disabled && b
            == ComponentStatus::Disabled,
        component_status(HealthStatus::Healthy) == ComponentStatus::Healthy,
        component_status(HealthStatus::Degraded) == ComponentStatus::Degraded,
        component_status(HealthStatus::Unhealthy) == ComponentStatus::Unhealthy,
        health_status_line(a) == (if a == ComponentStatus::Unhealthy {
            "503 Service Unavailable"@
        } else {
            "200 OK"@
        }),
{
}

/// The counters report of each part that they know, as they found it, and of
/// no other.
pub proof fn counted_parts_are_reported(s: Seq<(Seq<char>, HealthStatus)>, name: Seq<char>)
    requires
        string_map::distinct_keys(s),
    ensures
        string_map::lookup(counted_reports(s), name) is Some <==> string_map::lookup(s, name)
            is Some,
        string_map::lookup(s, name) matches Some(h) ==> (string_map::lookup(
            counted_reports(s),
            name,
        ) matches Some(r) && r.detail is None && (h == HealthStatus::Healthy <==> r.status
            == ComponentStatus::Healthy) && (h == HealthStatus::Degraded <==> r.status
            == ComponentStatus::Degraded) && (h == HealthStatus::Unhealthy <==> r.status
            == ComponentStatus::Unhealthy)),
    decreases s.len(),
{
    if s.len() > 0 {
        let front = s.drop_last();
        let last = s.last();
        assert forall|i: int, j: int| 0 <= i < j < front.len() implies (#[trigger] front[i]).0 != (
        #[trigger] front[j]).0 by {
            assert(s[i].0 != s[j].0);
        }
        counted_parts_are_reported(front, name);
        string_map::lookup_put(
            counted_reports(front),
            last.0,
            ReportView { status: component_status(last.1), detail: None },
            name,
        );
        assert forall|j: int| 0 <= j < front.len() implies (#[trigger] front[j]).0 != last.0 by {
            assert(s[j].0 != s[s.len() - 1].0);
        }
        string_map::put_at(front, last.0, last.1, front.len() as int);
        string_map::lookup_put(front, last.0, last.1, name);
        assert(front.push(last) =~= s);
        assert(last == (last.0, last.1));
    }
}

/// Each part that gives a detail has it told behind its name, in their order.
pub proof fn details_are_told(s: Reports)
    ensures
        report_details(s) == s.filter(|e: (Seq<char>, ReportView)| e.1.detail is Some).map_values(
            |e: (Seq<char>, ReportView)| e.0 + ": "@ + e.1.detail->0,
        ),
    decreases s.len(),
{
    reveal(Seq::filter);
    let given = |e: (Seq<char>, ReportView)| e.1.detail is Some;
    let told = |e: (Seq<char>, ReportView)| e.0 + ": "@ + e.1.detail->0;
    if s.len() > 0 {
        details_are_told(s.drop_last());
        assert(s.filter(given).map_values(told) =~= (if given(s.last()) {
            s.drop_last().filter(given).map_values(told).push(told(s.last()))
        } else {
            s.drop_last().filter(given).map_values(told)
        }));
    } else {
        assert(s.filter(given).map_values(told) =~= Seq::empty());
    }
}

// ---------------------------------------------------------------------------
// Where requests go
// ---------------------------------------------------------------------------

proof fn no_slash_is_left(s: Seq<char>)
    ensures
        without_slashes(s).len() > 0 ==> without_slashes(s).last() != '/',
        without_slashes(s).len() <= s.len(),
        s.len() > 0 && s.last() != '/' ==> without_slashes(s) == s,
        without_slashes(s) == s.take(without_slashes(s).len() as int),
    decreases s.len(),
{
    if s.len() > 0 && s.last() == '/' {
        no_slash_is_left(s.drop_last());
        let n = without_slashes(s).len() as int;
        assert(s.drop_last().take(n) =~= s.take(n));
    } else {
        assert(s.take(s.len() as int) =~= s);
    }
}

/// The path of the console is taken as it is given where it starts with a
/// slash and does not end with one; else it is mended so, and where none is
/// given it is `/console`.
pub proof fn the_console_has_its_path(path: Seq<char>)
    requires
        path.len() > 0,
        !text::is_space(path[0]),
        !text::is_space(path.last()),
        path.last() != '/',
    ensures
        path[0] == '/' ==> console_path(path) == path,
        path[0] != '/' ==> console_path(path) == seq!['/'] + path,
        console_path(path + seq!['/']) == console_path(path),
        console_path(Seq::<char>::empty()) == "/console"@,
{
    reveal_strlit("/console");
    text::trim_of_trimmed(path);
    no_slash_is_left(path);
    let longer = path + seq!['/'];
    assert(longer[0] == path[0]);
    assert(longer.last() == '/');
    text::trim_of_trimmed(longer);
    assert(longer.drop_last() =~= path);
    no_slash_is_left("/console"@);
    assert("/console"@.last() == 'e');
}

/// Metrics and health are told at their paths, the console and what belongs to
/// it below its own, each for its method only; nothing else is found, and
/// nothing of a console that is switched off.
pub proof fn requests_go_where_they_belong(
    method: Seq<char>,
    path: Seq<char>,
    settings: MonitoringSettings,
)
    ensures
        ({
            let console = console_path(settings.console_path@);
            let route = request_route(method, path, settings);
            let told = path == settings.metrics_path@ || path == settings.health_path@;
            &&& path == settings.metrics_path@ ==> route == (if method == "GET"@ {
                Route::Metrics
            } else {
                Route::MethodNotAllowed
            })
            &&& path == settings.health_path@ && path != settings.metrics_path@ ==> route == (
            if method == "GET"@ {
                Route::Health
            } else {
                Route::MethodNotAllowed
            })
            &&& !told && !settings.console_enabled ==> route == Route::NotFound
            &&& !told && settings.console_enabled && (path == console || path == console + "/"@)
                ==> route == (if method == "GET"@ {
                Route::Console
            } else {
                Route::MethodNotAllowed
            })
            &&& !told && settings.console_enabled && path == console + "/login"@ ==> route == (
            if method == "POST"@ {
                Route::ConsoleLogin
            } else {
                Route::MethodNotAllowed
            })
            &&& !told && settings.console_enabled && path == console + "/logout"@ ==> route == (
            if method == "POST"@ {
                Route::ConsoleLogout
            } else {
                Route::MethodNotAllowed
            })
            &&& !told && settings.console_enabled && path == console + "/api/overview"@ ==> route
                == (if method == "GET"@ {
                Route::ConsoleOverview
            } else {
                Route::MethodNotAllowed
            })
            &&& !told && !text::starts_with(path, console) ==> route == Route::NotFound
        }),
{
    reveal_strlit("/");
    reveal_strlit("/login");
    reveal_strlit("/logout");
    reveal_strlit("/api/overview");
    let console = console_path(settings.console_path@);
    let n = console.len() as int;
    assert((console + "/"@).len() == n + 1);
    assert((console + "/login"@).len() == n + 6);
    assert((console + "/logout"@).len() == n + 7);
    assert((console + "/api/overview"@).len() == n + 13);
    assert((console + "/"@).take(n) =~= console);
    assert((console + "/login"@).take(n) =~= console);
    assert((console + "/logout"@).take(n) =~= console);
    assert((console + "/api/overview"@).take(n) =~= console);
    assert(console.take(n) =~= console);
}

/// Each route has its own answer; the page and the overview only where there
/// is a console, and the overview only for a session, which is asked for
/// first.
pub proof fn routes_are_served(route: Route, enabled: bool, session: Option<bool>)
    ensures
        serve_step(route, enabled, session) == ServeStep::TellMetrics <==> route == Route::Metrics,
        serve_step(route, enabled, session) == ServeStep::TellHealth <==> route == Route::Health,
        serve_step(route, enabled, session) == ServeStep::ShowPage <==> route == Route::Console
            && enabled,
        serve_step(route, enabled, session) == ServeStep::Login <==> route == Route::ConsoleLogin,
        serve_step(route, enabled, session) == ServeStep::Logout <==> route == Route::ConsoleLogout,
        serve_step(route, enabled, session) == ServeStep::AskSession <==> route
            == Route::ConsoleOverview && enabled && session is None,
        serve_step(route, enabled, session) == ServeStep::TellOverview <==> route
            == Route::ConsoleOverview && enabled && session == Some(true),
        serve_step(route, enabled, session) == ServeStep::Unauthorized <==> route
            == Route::ConsoleOverview && enabled && session == Some(false),
        serve_step(route, enabled, session) == ServeStep::MethodNotAllowed <==> route
            == Route::MethodNotAllowed,
        serve_step(route, enabled, session) == ServeStep::BadRequest <==> route
            == Route::BadRequest,
{
}

// ---------------------------------------------------------------------------
// Sessions
// ---------------------------------------------------------------------------

/// The administrator is the root user, below the base where its name is given
/// without one.
pub proof fn the_administrator_is_the_root_user(root: Seq<char>, base: Seq<char>)
    requires
        text::is_trimmed(root),
        text::is_trimmed(base),
    ensures
        root.contains(',') ==> admin_dn(root, base) == root,
        base.len() == 0 ==> admin_dn(root, base) == root,
        !root.contains(',') && base.len() > 0 ==> admin_dn(root, base) == root + seq![','] + base,
{
    reveal_strlit(",");
    assert(","@ =~= seq![',']);
    text::trim_of_trimmed(root);
    text::trim_of_trimmed(base);
}

/// Who asks for a session is asked for a name and a password; the name must be
/// that of the administrator, in any case, and the directory decides on the
/// password.
pub proof fn sessions_are_asked_for(admin: Seq<char>, facts: LoginFacts)
    ensures
        login_step(true, Some(admin), facts) is ReadCredentials <==> facts.credentials is None,
        login_step(true, Some(admin), facts) is Drop <==> (facts.credentials matches Some(Err(_))),
        login_step(false, Some(admin), facts) is NotFound,
        login_step(true, None, facts) is NotFound,
        facts.credentials matches Some(Ok(c)) ==> {
            let step = login_step(true, Some(admin), facts);
            let known = text::lower(text::trim(c.dn@)) == text::lower(admin);
            &&& !known ==> step is Unauthorized
            &&& known && facts.verdict is None ==> step == (LoginStepView::Authenticate {
                dn: text::trim(c.dn@),
            })
            &&& known && facts.verdict == Some(Ok::<bool, ()>(true)) ==> step is Grant
            &&& known && facts.verdict == Some(Ok::<bool, ()>(false)) ==> step is Unauthorized
            &&& known && (facts.verdict matches Some(Err(_))) ==> step is Unavailable
        },
{
}

/// A request goes on with its session for as long again, and leaves the other
/// sessions as they are; sessions that have ended are forgotten.
pub proof fn sessions_go_on(
    sessions: Sessions,
    id: Seq<char>,
    now: u128,
    ttl: nat,
    other: Seq<char>,
)
    requires
        string_map::distinct_keys(sessions),
        now + ttl <= u128::MAX,
    ensures
        recognised(sessions, Some(id), now) <==> (string_map::lookup(sessions, id) matches Some(s)
            && s.expires_at > now),
        !recognised(sessions, None, now),
        recognised(sessions, Some(id), now) ==> string_map::lookup(
            sessions_after(sessions, Some(id), now, ttl),
            id,
        ) == Some(ConsoleSession { expires_at: (now + ttl) as u128 }),
        other != id ==> string_map::lookup(sessions_after(sessions, Some(id), now, ttl), other) == (
        match string_map::lookup(sessions, other) {
            Some(s) => if s.expires_at > now {
                Some(s)
            } else {
                None
            },
            None => None,
        }),
        sessions_after(sessions, None, now, ttl) == sessions,
{
    lookup_live(sessions, now, id);
    lookup_live(sessions, now, other);
    let kept = live(sessions, now);
    let s = ConsoleSession { expires_at: (now + ttl) as u128 };
    string_map::lookup_put(kept, id, s, id);
    string_map::lookup_put(kept, id, s, other);
}

// ---------------------------------------------------------------------------
// Requests and responses
// ---------------------------------------------------------------------------

/// A request is read from its first line and what follows the empty line: the
/// method is the first word, the path the second, without its query.
pub proof fn requests_are_read(
    b: Seq<u8>,
    end: int,
    method: Seq<char>,
    path: Seq<char>,
    rest: Seq<char>,
)
    requires
        header_end(b) == Some(end),
        http::header_lines(b, end) matches Some(lines) && lines.len() > 0 && lines[0] == method
            + seq![' '] + path + rest,
        method.len() > 0,
        path.len() > 0,
        forall|i: int| 0 <= i < method.len() ==> !text::is_space(#[trigger] method[i]),
        forall|i: int| 0 <= i < path.len() ==> !text::is_space(#[trigger] path[i]),
        rest.len() > 0 ==> text::is_space(rest[0]),
    ensures
        parsed(b) matches Ok(r) && r.method == method && r.path == plain_path(path) && r.body
            == b.skip(end + 4) && r.headers == headers_of(
            (http::header_lines(b, end)->0).drop_first(),
        ),
{
    let none = Seq::<char>::empty();
    let after = seq![' '] + path + rest;
    assert(after[0] == ' ');
    assert(none + method + after =~= method + seq![' '] + path + rest);
    assert(is_blank(none));
    words_are_parted_by_white_space(none, method, after);
    assert(is_blank(seq![' ']));
    words_are_parted_by_white_space(seq![' '], path, rest);
}

/// Bytes without an empty line, with a first line that is empty or has one
/// word only, or before it no text, are no request.
pub proof fn other_bytes_are_no_requests(b: Seq<u8>)
    ensures
        header_end(b) is None <==> (parsed(b) matches Err(e) && e
            == HttpRequestError::MissingHeader),
        header_end(b) matches Some(end) ==> (!vstd::utf8::valid_utf8(b.take(end)) <==> (parsed(
            b,
        ) matches Err(e) && e == HttpRequestError::NotUtf8)),
        parsed(b) matches Ok(r) ==> r.method.len() > 0,
{
    if let Ok(r) = parsed(b) {
        let line = (http::header_lines(b, header_end(b)->0)->0)[0];
        let t = text::trim_start(line);
        first_word_is_not_empty(line);
    }
}

proof fn first_word_is_not_empty(s: Seq<char>)
    ensures
        text::next_word(s) matches Some(w) ==> w.0.len() > 0,
    decreases s.len(),
{
    if s.len() > 0 && text::is_space(s[0]) {
        first_word_is_not_empty(s.drop_first());
        assert(text::trim_start(s) == text::trim_start(s.drop_first()));
    } else if s.len() > 0 {
        let t = text::trim_start(s);
        assert(t == s);
        ends_are_within(s);
        assert(text::word_end(s) == 1 + text::word_end(s.drop_first()));
        ends_are_within(s.drop_first());
        assert(s.take(text::word_end(s)).len() > 0);
    }
}

proof fn ends_are_within(s: Seq<char>)
    ensures
        0 <= text::word_end(s) <= s.len(),
    decreases s.len(),
{
    if s.len() > 0 && !text::is_space(s[0]) {
        ends_are_within(s.drop_first());
    }
}

/// A path is what stands before the first question mark.
pub proof fn queries_are_left_out(path: Seq<char>, query: Seq<char>)
    requires
        !path.contains('?'),
    ensures
        plain_path(path) == path,
        plain_path(path + seq!['?'] + query) == path,
{
    let s = path + seq!['?'] + query;
    let n = path.len() as int;
    assert(s[n] == '?');
    assert forall|j: int| 0 <= j < n implies s[j] != '?' by {
        assert(s[j] == path[j]);
        assert(path.contains(path[j]));
    }
    text::find_char_unique(s, '?', n);
    assert(s.take(n) =~= path);
    text::find_char_bounds(path, '?');
}

/// A header is found under the lower case of its name, with its value without
/// the white space around it; of two of one name the later one counts, and a
/// line without a colon is none.
pub proof fn headers_are_read(
    lines: Seq<Seq<char>>,
    name: Seq<char>,
    value: Seq<char>,
    asked: Seq<char>,
    remark: Seq<char>,
)
    requires
        !name.contains(':'),
        !remark.contains(':'),
    ensures
        ({
            let more = headers_of(lines.push(name + seq![':'] + value));
            &&& asked == text::lower(text::trim(name)) ==> string_map::lookup(more, asked) == Some(
                text::trim(value),
            )
            &&& asked != text::lower(text::trim(name)) ==> string_map::lookup(more, asked)
                == string_map::lookup(headers_of(lines), asked)
            &&& headers_of(lines.push(remark)) == headers_of(lines)
            &&& headers_of(Seq::<Seq<char>>::empty()).len() == 0
        }),
{
    let line = name + seq![':'] + value;
    cut_at_colon(name, value);
    assert(lines.push(line).drop_last() =~= lines);
    assert(lines.push(remark).drop_last() =~= lines);
    text::find_char_bounds(remark, ':');
    string_map::lookup_put(
        headers_of(lines),
        text::lower(text::trim(name)),
        text::trim(value),
        asked,
    );
}

proof fn cut_at_colon(name: Seq<char>, value: Seq<char>)
    requires
        !name.contains(':'),
    ensures
        text::cut(name + seq![':'] + value, ':') == Some((name, value)),
{
    let s = name + seq![':'] + value;
    let n = name.len() as int;
    assert(s[n] == ':');
    assert forall|j: int| 0 <= j < n implies s[j] != ':' by {
        assert(s[j] == name[j]);
        assert(name.contains(name[j]));
    }
    text::find_char_unique(s, ':', n);
    assert(s.take(n) =~= name);
    assert(s.skip(n + 1) =~= value);
}

/// The length of a body is the number in the first header that gives one, in
/// any case of its letters; without one there is no body.
pub proof fn lengths_are_read(
    name: Seq<char>,
    value: Seq<char>,
    rest: Seq<Seq<char>>,
    digits: Seq<char>,
)
    requires
        !name.contains(':'),
        digits.len() > 0,
        text::all_digits(digits),
        text::decimal_value(digits) <= usize::MAX,
    ensures
        text::lower(text::trim(name)) == text::lower("content-length"@) ==> content_length(
            seq![name + seq![':'] + value] + rest,
        ) == length_value(value),
        text::lower(text::trim(name)) != text::lower("content-length"@) ==> content_length(
            seq![name + seq![':'] + value] + rest,
        ) == content_length(rest),
        content_length(Seq::<Seq<char>>::empty()) == Ok::<usize, HttpRequestError>(0),
        length_value(digits) == Ok::<usize, HttpRequestError>(
            text::decimal_value(digits) as usize,
        ),
{
    let line = name + seq![':'] + value;
    cut_at_colon(name, value);
    let lines = seq![line] + rest;
    assert(lines[0] == line);
    assert(lines.drop_first() =~= rest);
    assert(text::is_digit(digits[0]));
    assert(text::is_digit(digits[digits.len() - 1]));
    text::trim_of_trimmed(digits);
}

/// A request is there whole exactly where its headers are and as many bytes
/// follow them as they announce; what grows too large is refused.
pub proof fn whole_requests_are_known(b: Seq<u8>)
    ensures
        b.len() > MAX_HTTP_REQUEST_BYTES <==> complete(b) == Err::<bool, HttpRequestError>(
            HttpRequestError::TooLarge,
        ),
        b.len() <= MAX_HTTP_REQUEST_BYTES && header_end(b) is None ==> complete(b) == Ok::<
            bool,
            HttpRequestError,
        >(false),
        b.len() <= MAX_HTTP_REQUEST_BYTES && header_end(b) is Some && (http::header_lines(
            b,
            header_end(b)->0,
        ) matches Some(lines) && lines.len() > 0 && (content_length(lines.drop_first()) matches Ok(
            n,
        ))) ==> complete(b) == Ok::<bool, HttpRequestError>(
            b.len() >= header_end(b)->0 + 4 + content_length(
                (http::header_lines(b, header_end(b)->0)->0).drop_first(),
            )->Ok_0,
        ),
{
    length_errors((http::header_lines(b, header_end(b)->0)->0).drop_first());
    length_errors(http::header_lines(b, header_end(b)->0)->0);
}

proof fn length_errors(lines: Seq<Seq<char>>)
    ensures
        content_length(lines) matches Err(e) ==> e == HttpRequestError::ContentLength,
    decreases lines.len(),
{
    if lines.len() > 0 {
        length_errors(lines.drop_first());
    }
}

/// Six texts one after the other: the first is the start, the last is the end,
/// and each is found in the whole.
proof fn parts_are_found(
    a: Seq<char>,
    b: Seq<char>,
    c: Seq<char>,
    d: Seq<char>,
    e: Seq<char>,
    f: Seq<char>,
)
    ensures
        text::starts_with(a + b + c + d + e + f, a),
        text::ends_with(a + b + c + d + e + f, f),
        text::contains_text(a + b + c + d + e + f, b),
        text::contains_text(a + b + c + d + e + f, c),
        text::contains_text(a + b + c + d + e + f, e),
{
    let r = a + b + c + d + e + f;
    assert(r.take(a.len() as int) =~= a);
    assert(r.skip(r.len() - f.len()) =~= f);
    assert(text::contains_text(r, b)) by {
        found_inside(a, b, c + d + e + f);
        assert(a + b + (c + d + e + f) =~= r);
    }
    assert(text::contains_text(r, c)) by {
        found_inside(a + b, c, d + e + f);
        assert((a + b) + c + (d + e + f) =~= r);
    }
    assert(text::contains_text(r, e)) by {
        found_inside(a + b + c + d, e, f);
    }
}

proof fn found_within(
    whole: Seq<char>,
    before: Seq<char>,
    part: Seq<char>,
    after: Seq<char>,
    line: Seq<char>,
    left: Seq<char>,
    right: Seq<char>,
)
    requires
        whole == before + part + after,
        part == left + line + right,
    ensures
        text::contains_text(whole, line),
{
    found_inside(before + left, line, right + after);
    assert((before + left) + line + (right + after) =~= whole);
}

/// A response starts with its status, ends with its body, and announces the
/// kind of the body and its length in bytes.
pub proof fn responses_announce_their_body(
    status: Seq<char>,
    content_type: Seq<char>,
    body: Seq<char>,
    headers: Seq<ResponseHeader>,
)
    ensures
        ({
            let r = response_text(status, content_type, body, headers);
            &&& text::starts_with(r, "HTTP/1.1 "@ + status)
            &&& text::ends_with(r, body)
            &&& text::contains_text(r, "\r\ncontent-type: "@ + content_type)
            &&& text::contains_text(
                r,
                "\r\ncontent-length: "@ + text::decimal(vstd::utf8::encode_utf8(body).len()),
            )
            &&& text::contains_text(r, header_text(headers) + "\r\n"@)
        }),
{
    let n = text::decimal(vstd::utf8::encode_utf8(body).len());
    let a = "HTTP/1.1 "@ + status;
    let b = "\r\ncontent-type: "@ + content_type;
    let c = "\r\ncontent-length: "@ + n;
    let d = "\r\nconnection: close\r\n"@;
    let e = header_text(headers) + "\r\n"@;
    parts_are_found(a, b, c, d, e, body);
    assert(response_text(status, content_type, body, headers) =~= a + b + c + d + e + body);
}

/// Each further header of a response has its line.
pub proof fn responses_have_their_headers(
    status: Seq<char>,
    content_type: Seq<char>,
    body: Seq<char>,
    headers: Seq<ResponseHeader>,
    i: int,
)
    requires
        0 <= i < headers.len(),
    ensures
        text::contains_text(
            response_text(status, content_type, body, headers),
            headers[i].name@ + ": "@ + headers[i].value@ + "\r\n"@,
        ),
{
    let r = response_text(status, content_type, body, headers);
    let more = header_text(headers);
    let before = "HTTP/1.1 "@ + status + "\r\ncontent-type: "@ + content_type
        + "\r\ncontent-length: "@ + text::decimal(vstd::utf8::encode_utf8(body).len())
        + "\r\nconnection: close\r\n"@;
    assert(r =~= before + more + ("\r\n"@ + body));
    let (left, right) = line_of_header(headers, i);
    let line = headers[i].name@ + ": "@ + headers[i].value@ + "\r\n"@;
    found_within(r, before, more, "\r\n"@ + body, line, left, right);
}

proof fn line_of_header(headers: Seq<ResponseHeader>, i: int) -> (r: (Seq<char>, Seq<char>))
    requires
        0 <= i < headers.len(),
    ensures
        header_text(headers) == r.0 + (headers[i].name@ + ": "@ + headers[i].value@ + "\r\n"@)
            + r.1,
    decreases headers.len(),
{
    let front = headers.drop_last();
    let last = headers.last();
    let line = last.name@ + ": "@ + last.value@ + "\r\n"@;
    assert(header_text(headers) =~= header_text(front) + line);
    if i < front.len() {
        let r = line_of_header(front, i);
        let own = headers[i].name@ + ": "@ + headers[i].value@ + "\r\n"@;
        assert(header_text(headers) =~= r.0 + own + (r.1 + line));
        (r.0, r.1 + line)
    } else {
        assert(header_text(front) + line + Seq::<char>::empty() =~= header_text(front) + line);
        (header_text(front), Seq::empty())
    }
}

/// A cookie of another name is passed over.
pub proof fn other_cookies_are_passed_over(
    name: Seq<char>,
    other: Seq<char>,
    value: Seq<char>,
    rest: Seq<char>,
)
    requires
        other != name,
        other.len() > 0,
        !other.contains(';'),
        !other.contains('='),
        !text::is_space(other[0]),
        value.len() > 0,
        !value.contains(';'),
        !text::is_space(value.last()),
    ensures
        cookie_in(other + seq!['='] + value + seq![';'] + rest, name) == cookie_in(rest, name),
{
    let pair = other + seq!['='] + value;
    let s = pair + seq![';'] + rest;
    let n = pair.len() as int;
    assert(s[n] == ';');
    assert forall|j: int| 0 <= j < n implies s[j] != ';' by {
        if j < other.len() {
            assert(s[j] == other[j]);
            assert(other.contains(other[j]));
        } else if j > other.len() {
            assert(s[j] == value[j - other.len() - 1]);
            assert(value.contains(value[j - other.len() - 1]));
        }
    }
    text::find_char_unique(s, ';', n);
    assert(s.take(n) =~= pair);
    assert(s.skip(n + 1) =~= rest);
    let cookies = text::split(s, ';');
    assert(cookies =~= seq![pair] + text::split(rest, ';'));
    assert(cookies.drop_first() =~= text::split(rest, ';'));
    assert(pair[0] == other[0] && pair.last() == value.last());
    text::trim_of_trimmed(pair);
    let k = other.len() as int;
    assert(pair[k] == '=');
    assert forall|j: int| 0 <= j < k implies pair[j] != '=' by {
        assert(pair[j] == other[j]);
        assert(other.contains(other[j]));
    }
    text::find_char_unique(pair, '=', k);
    assert(pair.take(k) =~= other);
}

/// Bytes that are no request are answered as such, and a request goes where
/// its method and its path lead.
pub proof fn bytes_go_where_their_request_leads(b: Seq<u8>, settings: MonitoringSettings)
    ensures
        parsed(b) is Err ==> route_of(b, settings) == Route::BadRequest,
        parsed(b) matches Ok(r) ==> route_of(b, settings) == request_route(
            r.method,
            r.path,
            settings,
        ),
{
}

/// The cookie of a request is looked for in its header of cookies; without one
/// there is none.
pub proof fn cookies_stand_in_their_header(r: http::RequestView, name: Seq<char>)
    ensures
        string_map::lookup(r.headers, "cookie"@) matches Some(header) ==> http::cookie_of(r, name)
            == cookie_in(header, name),
        string_map::lookup(r.headers, "cookie"@) is None ==> http::cookie_of(r, name) is None,
{
}

/// A cookie that makes a client forget its session has no value and ends at
/// once, and is for the path of the console, as the one that was set.
pub proof fn sessions_are_forgotten(path: Seq<char>)
    ensures
        text::starts_with(expire_cookie_text(path), "opendr_console_session"@ + "=;"@),
        text::ends_with(expire_cookie_text(path), "; Max-Age=0"@),
        text::contains_text(expire_cookie_text(path), "Path="@ + console_path(path)),
{
    reveal_strlit("=; HttpOnly; SameSite=Strict; Path=");
    reveal_strlit("=;");
    reveal_strlit("Path=");
    let s = expire_cookie_text(path);
    let name = "opendr_console_session"@;
    let middle = "=; HttpOnly; SameSite=Strict; Path="@;
    let front = middle.take(30);
    assert(middle =~= front + "Path="@);
    let end = "; Max-Age=0"@;
    assert(s.take((name + "=;"@).len() as int) =~= name + "=;"@);
    assert(s.skip(s.len() - end.len()) =~= end);
    found_inside(name + front, "Path="@ + console_path(path), end);
    assert(s =~= (name + front) + ("Path="@ + console_path(path)) + end);
}

/// What is told of the server's parts is what they report themselves, else
/// what the counters say of them.
pub proof fn parts_are_told(
    checked: Seq<(Seq<char>, HealthStatus)>,
    registry: Reports,
    name: Seq<char>,
)
    requires
        string_map::distinct_keys(checked),
        string_map::distinct_keys(registry),
    ensures
        string_map::lookup(registry, name) matches Some(r) ==> string_map::lookup(
            all_reports(checked, registry),
            name,
        ) == Some(r),
        string_map::lookup(registry, name) is None ==> (string_map::lookup(
            all_reports(checked, registry),
            name,
        ) is Some <==> string_map::lookup(checked, name) is Some),
        string_map::lookup(registry, name) is None && string_map::lookup(checked, name) == Some(
            HealthStatus::Unhealthy,
        ) ==> (string_map::lookup(all_reports(checked, registry), name) matches Some(r) && r.status
            == ComponentStatus::Unhealthy),
{
    own_reports_count(counted_reports(checked), registry, name);
    counted_parts_are_reported(checked, name);
}

} // verus!
