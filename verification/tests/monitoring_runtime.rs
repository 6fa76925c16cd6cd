use opendr::http::{
    bad_request_response, http_response, http_response_with_headers, json_response,
    method_not_allowed_response, not_found_response, parse_http_request_bytes, HttpRequest,
    HttpRequestError, RequestReader, ResponseHeader,
};
use opendr::metrics::MetricsCollector;
use opendr::monitoring_runtime::{
    build_health_response, console_admin_dn, normalized_console_path, overview, resolve_route,
    serve, session_cookie, ComponentStatus, ConsoleLoginRequest, LoginFacts, LoginStep,
    ManagementConsole, MonitoringRuntimeContext, MonitoringSettings, Route, RuntimeHealthRegistry,
    ServeStep,
};

#[test]
fn build_health_response_merges_runtime_components() {
    let mut metrics = MetricsCollector::new();
    metrics.record_connection_accepted();
    let mut registry = RuntimeHealthRegistry::new();
    registry.set_component(
        "backend",
        ComponentStatus::Healthy,
        Some("memory backend initialized".to_string()),
    );
    registry.set_component(
        "replication_provider",
        ComponentStatus::Disabled,
        Some("replication provider not enabled".to_string()),
    );

    let response = build_health_response(&metrics, &registry);

    assert_eq!(response.status, ComponentStatus::Healthy);
    assert_eq!(
        response.components.get("backend").unwrap().status,
        ComponentStatus::Healthy
    );
    assert_eq!(
        response.components.get("replication_provider").unwrap().status,
        ComponentStatus::Disabled
    );
    assert!(
        response
            .details
            .iter()
            .any(|detail| detail.contains("memory backend initialized"))
    );
}

#[test]
fn runtime_health_registry_supports_component_lifecycle() {
    let mut registry = RuntimeHealthRegistry::new();

    registry.set_component("backend", ComponentStatus::Healthy, None);
    registry.set_component(
        "rate_limiter",
        ComponentStatus::Degraded,
        Some("too many requests".to_string()),
    );

    assert_eq!(
        registry.component_names(),
        vec!["backend".to_string(), "rate_limiter".to_string()]
    );

    let component = registry.get_component("rate_limiter").unwrap();
    assert_eq!(component.status, ComponentStatus::Degraded);
    assert_eq!(component.detail.as_deref(), Some("too many requests"));

    let removed = registry.remove_component("backend");
    assert!(removed.is_some());
    assert!(registry.get_component("backend").is_none());
}

#[test]
fn resolve_route_matches_configured_paths() {
    let settings = MonitoringSettings {
        enabled: true,
        metrics_address: "127.0.0.1".to_string(),
        metrics_port: 9090,
        metrics_path: "/metricsz".to_string(),
        health_path: "/healthz".to_string(),
        console_path: "/admin".to_string(),
        ..MonitoringSettings::default()
    };

    assert_eq!(
        resolve_route(
            "GET /metricsz HTTP/1.1\r\nHost: localhost\r\n\r\n",
            &settings
        ),
        Route::Metrics
    );
    assert_eq!(
        resolve_route(
            "GET /healthz?verbose=1 HTTP/1.1\r\nHost: localhost\r\n\r\n",
            &settings
        ),
        Route::Health
    );
    assert_eq!(
        resolve_route(
            "POST /metricsz HTTP/1.1\r\nHost: localhost\r\n\r\n",
            &settings
        ),
        Route::MethodNotAllowed
    );
    assert_eq!(
        resolve_route(
            "GET /admin/api/overview HTTP/1.1\r\nHost: localhost\r\n\r\n",
            &settings
        ),
        Route::ConsoleOverview
    );
    assert_eq!(
        resolve_route(
            "POST /admin/login HTTP/1.1\r\nHost: localhost\r\nContent-Length: 2\r\n\r\n{}",
            &settings
        ),
        Route::ConsoleLogin
    );
    assert_eq!(
        resolve_route(
            "GET /missing HTTP/1.1\r\nHost: localhost\r\n\r\n",
            &settings
        ),
        Route::NotFound
    );
}

#[test]
fn console_admin_dn_expands_rdn() {
    assert_eq!(
        console_admin_dn("cn=admin", "dc=example,dc=org"),
        "cn=admin,dc=example,dc=org"
    );
    assert_eq!(
        console_admin_dn("cn=admin,dc=example,dc=org", "dc=ignored"),
        "cn=admin,dc=example,dc=org"
    );
}

#[test]
fn the_worst_component_decides_and_own_reports_count() {
    let mut metrics = MetricsCollector::new();
    metrics.record_connection_accepted();
    let mut registry = RuntimeHealthRegistry::default();
    registry.set_component("connections", ComponentStatus::Unhealthy, Some("stuck".to_string()));
    let response = build_health_response(&metrics, &registry);
    assert_eq!(response.status, ComponentStatus::Unhealthy);
    assert_eq!(response.status_line(), "503 Service Unavailable");
    assert_eq!(
        response.components.get("connections").unwrap().status,
        ComponentStatus::Unhealthy
    );
    assert!(response.details.contains(&"connections: stuck".to_string()));
    let shown = overview(&metrics, &registry, Some(3u8));
    assert_eq!(shown.connections.total, 1);
    assert_eq!(shown.operations.len(), 10);
    assert_eq!(shown.replication, Some(3));
}

fn request(text: &str) -> HttpRequest {
    parse_http_request_bytes(text.as_bytes()).unwrap()
}

#[test]
fn requests_are_taken_apart() {
    let got = request("  POST  /a/b?x=1 HTTP/1.1\r\nHost: one\r\nnonsense\r\nHOST:  two \r\n\r\nbody");
    assert_eq!(got.method, "POST");
    assert_eq!(got.path, "/a/b");
    assert_eq!(got.header("host").map(|h| h.as_str()), Some("two"));
    assert_eq!(got.header("nonsense"), None);
    assert_eq!(got.body, b"body".to_vec());
}

#[test]
fn each_fault_of_a_request_is_told_apart() {
    let fault = |bytes: &[u8]| parse_http_request_bytes(bytes).unwrap_err();
    assert_eq!(fault(b"GET / HTTP/1.1\r\n"), HttpRequestError::MissingHeader);
    assert_eq!(fault(b"\xff\r\n\r\n"), HttpRequestError::NotUtf8);
    assert_eq!(fault(b"\r\n\r\n"), HttpRequestError::MissingRequestLine);
    assert_eq!(fault(b" \r\n\r\n"), HttpRequestError::MissingMethod);
    assert_eq!(fault(b"GET\r\n\r\n"), HttpRequestError::MissingPath);
    assert_eq!(
        RequestReader::new().finish().unwrap_err(),
        HttpRequestError::Empty
    );
}

#[test]
fn a_request_is_read_until_its_body_is_there() {
    let mut reader = RequestReader::new();
    assert_eq!(reader.take(b"POST /x HTTP/1.1\r\nContent-Le"), Ok(false));
    assert_eq!(reader.take(b"ngth: +4\r\n\r\nab"), Ok(false));
    assert_eq!(reader.take(b"cd"), Ok(true));
    assert_eq!(reader.finish().unwrap().body, b"abcd".to_vec());

    let mut wrong = RequestReader::new();
    assert_eq!(
        wrong.take(b"GET / HTTP/1.1\r\nContent-Length: 4x\r\n\r\n"),
        Err(HttpRequestError::ContentLength)
    );
    let mut large = RequestReader::new();
    assert_eq!(large.take(&vec![b'a'; 65536]), Ok(false));
    assert_eq!(large.take(b"a"), Err(HttpRequestError::TooLarge));
}

#[test]
fn responses_tell_the_length_of_their_bodies() {
    assert_eq!(
        http_response("200 OK", "text/plain", "h\u{e9}"),
        "HTTP/1.1 200 OK\r\ncontent-type: text/plain\r\ncontent-length: 3\r\nconnection: close\r\n\r\nh\u{e9}"
    );
    let headers = vec![ResponseHeader { name: "set-cookie", value: "a=b".to_string() }];
    assert_eq!(
        json_response("200 OK", "{}", &headers),
        http_response_with_headers("200 OK", "application/json", "{}", &headers)
    );
    assert!(json_response("200 OK", "{}", &headers).contains("\r\nset-cookie: a=b\r\n\r\n{}"));
    assert!(bad_request_response().starts_with("HTTP/1.1 400 Bad Request\r\n"));
    assert!(not_found_response().ends_with("\r\n\r\nnot found"));
    assert!(method_not_allowed_response().starts_with("HTTP/1.1 405 Method Not Allowed\r\n"));
}

#[test]
fn console_paths_are_brought_into_one_form() {
    assert_eq!(normalized_console_path("  "), "/console");
    assert_eq!(normalized_console_path("admin//"), "/admin");
    assert_eq!(normalized_console_path("/"), "/");
    let settings = MonitoringSettings { console_enabled: false, ..MonitoringSettings::default() };
    assert_eq!(resolve_route("GET /console HTTP/1.1\r\n\r\n", &settings), Route::NotFound);
    assert_eq!(resolve_route("GET /metrics", &settings), Route::BadRequest);
    let open = MonitoringSettings::default();
    assert_eq!(resolve_route("GET /console/ HTTP/1.1\r\n\r\n", &open), Route::Console);
    assert_eq!(resolve_route("POST /console/logout HTTP/1.1\r\n\r\n", &open), Route::ConsoleLogout);
}

fn with_cookie(cookie: &str) -> HttpRequest {
    request(&format!(
        "GET / HTTP/1.1\r\nCookie: {}\r\n\r\n",
        cookie.split(';').next().unwrap()
    ))
}

fn console() -> ManagementConsole<(), ()> {
    ManagementConsole::new(
        &MonitoringSettings { console_session_ttl_secs: 0, ..MonitoringSettings::default() },
        MonitoringRuntimeContext {
            console_backend: Some(()),
            console_admin_dn: Some("cn=admin,dc=example".to_string()),
            replication_status: None,
        },
    )
}

#[test]
fn a_session_lasts_its_time_and_goes_on_with_use() {
    let settings = MonitoringSettings::default();
    let mut console = console();
    assert!(console.enabled());
    let cookie = console.open_session_at(&settings, "abc".to_string(), 5);
    assert_eq!(
        cookie,
        "opendr_console_session=abc; HttpOnly; SameSite=Strict; Path=/console; Max-Age=1"
    );
    let request = with_cookie(&cookie);
    assert_eq!(session_cookie(&request).as_deref(), Some("abc"));
    assert!(console.is_authenticated_at(&request, 1_000_000_004));
    assert!(console.is_authenticated_at(&request, 2_000_000_003));
    assert!(!console.is_authenticated_at(&request, 3_000_000_003));
}

#[test]
fn made_up_sessions_are_recognised_until_logout() {
    let settings = MonitoringSettings::default();
    let mut console = ManagementConsole::<(), ()>::new(
        &settings,
        MonitoringRuntimeContext::default(),
    );
    assert!(!console.enabled());
    let first = console.open_session(&settings);
    let second = console.open_session(&settings);
    assert_ne!(first, second);
    let request = with_cookie(&first);
    assert_eq!(session_cookie(&request).unwrap().len(), 36);
    assert!(console.is_authenticated(&request));
    let gone = console.logout(&settings, &request);
    assert_eq!(
        gone,
        "opendr_console_session=; HttpOnly; SameSite=Strict; Path=/console; Max-Age=0"
    );
    assert!(!console.is_authenticated(&request));
    assert!(console.is_authenticated(&with_cookie(&second)));
}

fn credentials(dn: &str) -> LoginFacts {
    LoginFacts {
        credentials: Some(Ok(ConsoleLoginRequest {
            dn: dn.to_string(),
            password: "secret".to_string(),
        })),
        verdict: None,
    }
}

#[test]
fn only_the_administrator_is_let_in() {
    let console = console();
    let step = |facts: &LoginFacts| console.login(facts);
    let empty = LoginFacts { credentials: None, verdict: None };
    assert!(matches!(step(&empty), LoginStep::ReadCredentials));
    let unread = LoginFacts { credentials: Some(Err(())), verdict: None };
    assert!(matches!(step(&unread), LoginStep::Drop));
    assert!(matches!(step(&credentials("cn=other")), LoginStep::Unauthorized));
    let mut facts = credentials(" CN=Admin,DC=Example ");
    assert!(
        matches!(step(&facts), LoginStep::Authenticate { dn } if dn == "CN=Admin,DC=Example")
    );
    facts.verdict = Some(Ok(false));
    assert!(matches!(step(&facts), LoginStep::Unauthorized));
    facts.verdict = Some(Err(()));
    assert!(matches!(step(&facts), LoginStep::Unavailable));
    facts.verdict = Some(Ok(true));
    assert!(matches!(step(&facts), LoginStep::Grant));
    let closed = ManagementConsole::<(), ()>::new(
        &MonitoringSettings::default(),
        MonitoringRuntimeContext::default(),
    );
    assert!(matches!(closed.login(&facts), LoginStep::NotFound));
}

#[test]
fn the_overview_needs_a_session() {
    assert_eq!(serve(Route::ConsoleOverview, false, None), ServeStep::NotFound);
    assert_eq!(serve(Route::ConsoleOverview, true, None), ServeStep::AskSession);
    assert_eq!(serve(Route::ConsoleOverview, true, Some(false)), ServeStep::Unauthorized);
    assert_eq!(serve(Route::ConsoleOverview, true, Some(true)), ServeStep::TellOverview);
    assert_eq!(serve(Route::Console, false, None), ServeStep::NotFound);
    assert_eq!(serve(Route::BadRequest, true, None), ServeStep::BadRequest);
}
