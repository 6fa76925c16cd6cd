//! What the monitoring server decides: the health that it reports, where a
//! request goes, and who may see the management console.

use std::time::Instant;
use vstd::prelude::*;

use crate::clock;
use crate::clock::Duration;
use crate::http;
use crate::http::HttpRequest;
use crate::ldap_controls;
use crate::metrics;
use crate::metrics::{
    AuthCacheStats, ConnectionStats, HealthCheck, HealthStatus, MetricsCollector, OperationStats,
    OperationType, ResourceStats,
};
use crate::string_map;
use crate::string_map::StringMap;
use crate::text;

verus! {

// ---------------------------------------------------------------------------
// Components
// ---------------------------------------------------------------------------

/// The state of a part of the server.
#[derive(Debug, Clone, Copy, PartialEq, Eq, Structural)]
pub enum ComponentStatus {
    Healthy,
    Degraded,
    Unhealthy,
    Disabled,
}

/// The state that a health status stands for.
pub open spec fn component_status(status: HealthStatus) -> ComponentStatus {
    match status {
        HealthStatus::Healthy => ComponentStatus::Healthy,
        HealthStatus::Degraded => ComponentStatus::Degraded,
        HealthStatus::Unhealthy => ComponentStatus::Unhealthy,
    }
}

/// How bad a state is.
pub open spec fn severity(status: ComponentStatus) -> u8 {
    match status {
        ComponentStatus::Disabled => 0,
        ComponentStatus::Healthy => 1,
        ComponentStatus::Degraded => 2,
        ComponentStatus::Unhealthy => 3,
    }
}

impl ComponentStatus {
    pub fn from_metrics(status: HealthStatus) -> (r: Self)
        ensures
            r == component_status(status),
    {
        match status {
            HealthStatus::Healthy => ComponentStatus::Healthy,
            HealthStatus::Degraded => ComponentStatus::Degraded,
            HealthStatus::Unhealthy => ComponentStatus::Unhealthy,
        }
    }

    pub fn severity(&self) -> (r: u8)
        ensures
            r == severity(*self),
    {
        match self {
            ComponentStatus::Disabled => 0,
            ComponentStatus::Healthy => 1,
            ComponentStatus::Degraded => 2,
            ComponentStatus::Unhealthy => 3,
        }
    }
}

/// What is reported of a part of the server.
#[derive(Debug, PartialEq, Eq)]
pub struct ComponentReport {
    pub status: ComponentStatus,
    pub detail: Option<String>,
}

/// What a [`ComponentReport`] says.
pub struct ReportView {
    pub status: ComponentStatus,
    pub detail: Option<Seq<char>>,
}

impl View for ComponentReport {
    type V = ReportView;

    open spec fn view(&self) -> ReportView {
        ReportView {
            status: self.status,
            detail: match self.detail {
                Some(d) => Some(d@),
                None => None,
            },
        }
    }
}

impl ComponentReport {
    pub fn copy(&self) -> (r: Self)
        ensures
            r@ == self@,
    {
        ComponentReport {
            status: self.status,
            detail: match &self.detail {
                Some(d) => Some(d.clone()),
                None => None,
            },
        }
    }
}

/// The parts of the server by name, with what is reported of each.
pub type Reports = Seq<(Seq<char>, ReportView)>;

/// What a map of reports says.
pub open spec fn report_views(s: Seq<(Seq<char>, ComponentReport)>) -> Reports {
    s.map_values(|e: (Seq<char>, ComponentReport)| (e.0, e.1@))
}

proof fn put_report(s: Seq<(Seq<char>, ComponentReport)>, k: Seq<char>, v: ComponentReport)
    ensures
        report_views(string_map::put(s, k, v)) == string_map::put(report_views(s), k, v@),
    decreases s.len(),
{
    let h = report_views(s);
    if s.len() > 0 {
        put_report(s.drop_first(), k, v);
        assert(h.drop_first() =~= report_views(s.drop_first()));
    }
    assert(report_views(string_map::put(s, k, v)) =~= string_map::put(h, k, v@));
}

proof fn lookup_report(s: Seq<(Seq<char>, ComponentReport)>, k: Seq<char>)
    ensures
        string_map::lookup(report_views(s), k) == (match string_map::lookup(s, k) {
            Some(v) => Some(v@),
            None => None,
        }),
    decreases s.len(),
{
    if s.len() > 0 {
        lookup_report(s.drop_first(), k);
        assert(report_views(s).drop_first() =~= report_views(s.drop_first()));
    }
}

proof fn without_report(s: Seq<(Seq<char>, ComponentReport)>, k: Seq<char>)
    ensures
        report_views(string_map::without(s, k)) == string_map::without(report_views(s), k),
    decreases s.len(),
{
    let h = report_views(s);
    if s.len() > 0 {
        without_report(s.drop_first(), k);
        assert(h.drop_first() =~= report_views(s.drop_first()));
    }
    assert(report_views(string_map::without(s, k)) =~= string_map::without(h, k));
}

/// The names of the parts.
pub open spec fn report_names(s: Reports) -> Seq<Seq<char>> {
    s.map_values(|e: (Seq<char>, ReportView)| e.0)
}

/// The parts of the server that report their state.
#[derive(Debug)]
pub struct RuntimeHealthRegistry {
    components: StringMap<ComponentReport>,
}

impl View for RuntimeHealthRegistry {
    type V = Reports;

    closed spec fn view(&self) -> Reports {
        report_views(self.components@)
    }
}

impl Default for RuntimeHealthRegistry {
    fn default() -> (r: Self)
        ensures
            r@.len() == 0,
    {
        RuntimeHealthRegistry { components: StringMap::new() }
    }
}

impl RuntimeHealthRegistry {
    pub fn new() -> (r: Self)
        ensures
            r@.len() == 0,
    {
        RuntimeHealthRegistry { components: StringMap::new() }
    }

    /// Sets what is reported of a part.
    pub fn set_component(&mut self, name: &str, status: ComponentStatus, detail: Option<String>)
        ensures
            final(self)@ == string_map::put(
                old(self)@,
                name@,
                (ComponentReport { status, detail })@,
            ),
    {
        let report = ComponentReport { status, detail };
        proof {
            put_report(self.components@, name@, report);
        }
        let _ = self.components.insert(name.to_owned(), report);
    }

    /// Takes a part away, and gives what was reported of it.
    pub fn remove_component(&mut self, name: &str) -> (r: Option<ComponentReport>)
        ensures
            final(self)@ == string_map::without(old(self)@, name@),
            match r {
                Some(report) => string_map::lookup(old(self)@, name@) == Some(report@),
                None => string_map::lookup(old(self)@, name@) is None,
            },
    {
        proof {
            without_report(self.components@, name@);
            lookup_report(self.components@, name@);
        }
        self.components.remove(name)
    }

    /// What is reported of a part, if it is there.
    pub fn get_component(&self, name: &str) -> (r: Option<ComponentReport>)
        ensures
            match r {
                Some(report) => string_map::lookup(self@, name@) == Some(report@),
                None => string_map::lookup(self@, name@) is None,
            },
    {
        proof {
            lookup_report(self.components@, name@);
        }
        match self.components.get(name) {
            Some(report) => Some(report.copy()),
            None => None,
        }
    }

    /// All parts.
    pub fn snapshot(&self) -> (r: &StringMap<ComponentReport>)
        ensures
            report_views(r@) == self@,
    {
        &self.components
    }

    /// The names of the parts, in ascending order.
    pub fn component_names(&self) -> (r: Vec<String>)
        ensures
            ldap_controls::ascending(text::texts(r@)),
            text::texts(r@).to_set() == report_names(self@).to_set(),
    {
        let ghost all = report_names(self@);
        let n = self.components.len();
        let mut names: Vec<String> = Vec::new();
        let mut i: usize = 0;
        proof {
            assert(text::texts(names@).to_set() =~= all.take(0).to_set());
        }
        while i < n
            invariant
                all == report_names(self@),
                n == all.len(),
                n == self.components@.len(),
                i <= n,
                ldap_controls::ascending(text::texts(names@)),
                text::texts(names@).to_set() == all.take(i as int).to_set(),
            decreases n - i,
        {
            let e = self.components.entry(i);
            ldap_controls::insert_ascending(&mut names, e.0);
            proof {
                let a = all.take(i as int);
                let b = all.take(i + 1);
                assert(all[i as int] == e.0@);
                assert(b =~= a.push(all[i as int]));
                text::set_of_push(a, all[i as int]);
            }
            i = i + 1;
        }
        proof {
            assert(all.take(i as int) =~= all);
        }
        names
    }
}

// ---------------------------------------------------------------------------
// Health
// ---------------------------------------------------------------------------

/// The health of the server.
#[derive(Debug)]
pub struct HealthResponse {
    pub status: ComponentStatus,
    /// The time in seconds since 1970.
    pub timestamp: u64,
    pub uptime_seconds: u64,
    pub components: StringMap<ComponentReport>,
    pub details: Vec<String>,
}

/// What the counters report of the parts that they know.
pub open spec fn counted_reports(s: Seq<(Seq<char>, HealthStatus)>) -> Reports
    decreases s.len(),
{
    if s.len() == 0 {
        Seq::empty()
    } else {
        string_map::put(
            counted_reports(s.drop_last()),
            s.last().0,
            ReportView { status: component_status(s.last().1), detail: None },
        )
    }
}

/// The reports with others set over them.
pub open spec fn overlaid(base: Reports, over: Reports) -> Reports
    decreases over.len(),
{
    if over.len() == 0 {
        base
    } else {
        string_map::put(overlaid(base, over.drop_last()), over.last().0, over.last().1)
    }
}

/// The details of the parts that give one.
pub open spec fn report_details(s: Reports) -> Seq<Seq<char>>
    decreases s.len(),
{
    if s.len() == 0 {
        Seq::empty()
    } else {
        let before = report_details(s.drop_last());
        match s.last().1.detail {
            Some(detail) => before.push(s.last().0 + ": "@ + detail),
            None => before,
        }
    }
}

/// The worse of two states.
pub open spec fn worse(a: ComponentStatus, b: ComponentStatus) -> ComponentStatus {
    if severity(b) >= severity(a) {
        b
    } else {
        a
    }
}

/// The worst state of the parts; a server without parts is healthy.
pub open spec fn worst(s: Reports) -> ComponentStatus
    decreases s.len(),
{
    if s.len() == 0 {
        ComponentStatus::Healthy
    } else if s.len() == 1 {
        s[0].1.status
    } else {
        worse(worst(s.drop_last()), s.last().1.status)
    }
}

/// The parts that a health check and a registry report of together.
pub open spec fn all_reports(checked: Seq<(Seq<char>, HealthStatus)>, registry: Reports) -> Reports {
    overlaid(counted_reports(checked), registry)
}

/// What a response says of a health check and a registry.
pub open spec fn health_told(
    r: HealthResponse,
    components: Seq<(Seq<char>, HealthStatus)>,
    details: Seq<Seq<char>>,
    registry: Reports,
) -> bool {
    &&& report_views(r.components@) == all_reports(components, registry)
    &&& r.status == worst(all_reports(components, registry))
    &&& text::texts(r.details@) == details + report_details(registry)
}

fn count_reports(checked: &StringMap<HealthStatus>) -> (r: StringMap<ComponentReport>)
    ensures
        report_views(r@) == counted_reports(checked@),
{
    let ghost all = checked@;
    let n = checked.len();
    let mut reports: StringMap<ComponentReport> = StringMap::new();
    let mut i: usize = 0;
    proof {
        assert(report_views(reports@) =~= counted_reports(all.take(0)));
    }
    while i < n
        invariant
            all == checked@,
            n == all.len(),
            i <= n,
            report_views(reports@) == counted_reports(all.take(i as int)),
        decreases n - i,
    {
        let e = checked.entry(i);
        let report = ComponentReport { status: ComponentStatus::from_metrics(*e.1), detail: None };
        proof {
            assert(all.take(i + 1).drop_last() =~= all.take(i as int));
            put_report(reports@, e.0@, report);
        }
        let _ = reports.insert(e.0.clone(), report);
        i = i + 1;
    }
    proof {
        assert(all.take(i as int) =~= all);
    }
    reports
}

fn worst_status(reports: &StringMap<ComponentReport>) -> (r: ComponentStatus)
    ensures
        r == worst(report_views(reports@)),
{
    let ghost all = report_views(reports@);
    let n = reports.len();
    if n == 0 {
        return ComponentStatus::Healthy;
    }
    let mut found = reports.entry(0).1.status;
    let mut i: usize = 1;
    while i < n
        invariant
            all == report_views(reports@),
            n == all.len(),
            n == reports@.len(),
            1 <= i <= n,
            found == worst(all.take(i as int)),
        decreases n - i,
    {
        let status = reports.entry(i).1.status;
        proof {
            assert(all.take(i + 1).drop_last() =~= all.take(i as int));
        }
        if status.severity() >= found.severity() {
            found = status;
        }
        i = i + 1;
    }
    proof {
        assert(all.take(i as int) =~= all);
    }
    found
}

/// The health of the server, from a health check at that time in seconds
/// since 1970 and from what the parts report.
pub fn build_health_response_from(
    base: HealthCheck,
    timestamp: u64,
    registry: &RuntimeHealthRegistry,
) -> (r: HealthResponse)
    ensures
        health_told(r, base.components@, text::texts(base.details@), registry@),
        r.timestamp == timestamp,
        r.uptime_seconds == base.uptime_seconds,
{
    let mut components = count_reports(&base.components);
    let mut details = base.details;
    let snapshot = registry.snapshot();
    let ghost over = registry@;
    let ghost before = text::texts(details@);
    let ghost start = report_views(components@);
    let n = snapshot.len();
    let mut i: usize = 0;
    proof {
        assert(over.take(0).len() == 0);
        assert(before + report_details(over.take(0)) =~= before);
    }
    while i < n
        invariant
            over == report_views(snapshot@),
            n == over.len(),
            n == snapshot@.len(),
            i <= n,
            report_views(components@) == overlaid(start, over.take(i as int)),
            text::texts(details@) == before + report_details(over.take(i as int)),
        decreases n - i,
    {
        let e = snapshot.entry(i);
        let report = e.1.copy();
        proof {
            assert(over.take(i + 1).drop_last() =~= over.take(i as int));
            assert(over[i as int] == (e.0@, report@));
            put_report(components@, e.0@, report);
        }
        if let Some(detail) = &report.detail {
            let mut line = e.0.clone();
            line.append(": ");
            line.append(detail.as_str());
            proof {
                text::texts_push(details@, line);
                assert(line@ =~= e.0@ + ": "@ + detail@);
            }
            details.push(line);
        }
        let _ = components.insert(e.0.clone(), report);
        proof {
            assert(text::texts(details@) =~= before + report_details(over.take(i + 1)));
        }
        i = i + 1;
    }
    proof {
        assert(over.take(i as int) =~= over);
    }
    HealthResponse {
        status: worst_status(&components),
        timestamp,
        uptime_seconds: base.uptime_seconds,
        components,
        details,
    }
}

/// The health of the server, from its counters and from what the parts
/// report, with the time that the clocks give.
pub fn build_health_response(
    collector: &MetricsCollector,
    registry: &RuntimeHealthRegistry,
) -> (r: HealthResponse)
    ensures
        health_told(
            r,
            metrics::health_components(collector@),
            metrics::health_details(collector@),
            registry@,
        ),
{
    let base = collector.health_check();
    let timestamp = clock::unix_seconds(&base.timestamp);
    build_health_response_from(base, timestamp, registry)
}

/// The status line of a response that tells the health.
pub open spec fn health_status_line(status: ComponentStatus) -> Seq<char> {
    if status == ComponentStatus::Unhealthy {
        "503 Service Unavailable"@
    } else {
        "200 OK"@
    }
}

impl HealthResponse {
    /// The status line of the response that tells this.
    pub fn status_line(&self) -> (r: &'static str)
        ensures
            r@ == health_status_line(self.status),
    {
        match self.status {
            ComponentStatus::Unhealthy => "503 Service Unavailable",
            _ => "200 OK",
        }
    }
}

/// What the management console shows.
#[derive(Debug)]
pub struct ConsoleOverviewResponse<S> {
    pub timestamp: u64,
    pub uptime_seconds: u64,
    pub health: HealthResponse,
    pub connections: ConnectionStats,
    pub operations: Vec<(OperationType, OperationStats)>,
    pub resources: ResourceStats,
    pub auth_cache: AuthCacheStats,
    pub fsm_states: Vec<(String, usize)>,
    pub replication: Option<S>,
}

/// The states of the machines with their numbers.
pub open spec fn state_views(s: Seq<(String, usize)>) -> Seq<(Seq<char>, usize)> {
    s.map_values(|e: (String, usize)| (e.0@, e.1))
}

/// What the console shows of the counters.
pub open spec fn overview_told<S>(r: ConsoleOverviewResponse<S>, m: metrics::MetricsView) -> bool {
    &&& r.connections == m.connections
    &&& r.operations@ == metrics::all_operations().map_values(
        |t: OperationType| (t, metrics::operation_stats(m.operations.of(t))),
    )
    &&& r.resources == m.resources
    &&& r.auth_cache == m.auth_cache
    &&& state_views(r.fsm_states@) == m.fsm_states
}

/// What the management console shows: the health, the counters, and the state
/// of the replication where there is one.
pub fn overview<S>(
    collector: &MetricsCollector,
    registry: &RuntimeHealthRegistry,
    replication: Option<S>,
) -> (r: ConsoleOverviewResponse<S>)
    ensures
        health_told(
            r.health,
            metrics::health_components(collector@),
            metrics::health_details(collector@),
            registry@,
        ),
        overview_told(r, collector@),
        r.replication == replication,
{
    let health = build_health_response(collector, registry);
    let now = clock::system_time_now();
    let timestamp = clock::unix_seconds(&now);
    let states = collector.get_fsm_state_distribution();
    let n = states.len();
    let mut fsm_states: Vec<(String, usize)> = Vec::new();
    let mut i: usize = 0;
    while i < n
        invariant
            n == states@.len(),
            i <= n,
            state_views(fsm_states@) == states@.take(i as int),
        decreases n - i,
    {
        let e = states.entry(i);
        let ghost before = fsm_states@;
        fsm_states.push((e.0.clone(), *e.1));
        proof {
            assert(state_views(fsm_states@) =~= state_views(before).push(states@[i as int]));
            assert(states@.take(i + 1) =~= states@.take(i as int).push(states@[i as int]));
        }
        i = i + 1;
    }
    proof {
        assert(states@.take(i as int) =~= states@);
    }
    ConsoleOverviewResponse {
        timestamp,
        uptime_seconds: collector.uptime_seconds(),
        health,
        connections: collector.get_connection_stats(),
        operations: collector.get_all_operation_stats(),
        resources: collector.get_resource_stats(),
        auth_cache: collector.get_auth_cache_stats(),
        fsm_states,
        replication,
    }
}

// ---------------------------------------------------------------------------
// Routes
// ---------------------------------------------------------------------------

/// How the monitoring server is set up.
#[derive(Debug)]
pub struct MonitoringSettings {
    pub enabled: bool,
    pub metrics_address: String,
    pub metrics_port: u16,
    pub metrics_path: String,
    pub health_path: String,
    pub console_enabled: bool,
    pub console_path: String,
    pub console_session_ttl_secs: u64,
}

impl Default for MonitoringSettings {
    fn default() -> (r: Self)
        ensures
            !r.enabled,
            r.metrics_address@ == "127.0.0.1"@,
            r.metrics_port == 9090,
            r.metrics_path@ == "/metrics"@,
            r.health_path@ == "/health"@,
            r.console_enabled,
            r.console_path@ == "/console"@,
            r.console_session_ttl_secs == 900,
    {
        MonitoringSettings {
            enabled: false,
            metrics_address: "127.0.0.1".to_owned(),
            metrics_port: 9090,
            metrics_path: "/metrics".to_owned(),
            health_path: "/health".to_owned(),
            console_enabled: true,
            console_path: "/console".to_owned(),
            console_session_ttl_secs: 900,
        }
    }
}

/// Where a request goes.
#[derive(Debug, Clone, Copy, PartialEq, Eq, Structural)]
pub enum Route {
    Metrics,
    Health,
    Console,
    ConsoleLogin,
    ConsoleLogout,
    ConsoleOverview,
    NotFound,
    MethodNotAllowed,
    BadRequest,
}

/// The text without slashes at its end.
pub open spec fn without_slashes(s: Seq<char>) -> Seq<char>
    decreases s.len(),
{
    if s.len() > 0 && s.last() == '/' {
        without_slashes(s.drop_last())
    } else {
        s
    }
}

/// The path of the console: with a slash at its start and none at its end.
pub open spec fn console_path(path: Seq<char>) -> Seq<char> {
    let given = text::trim(path);
    let bare = without_slashes(
        if given.len() == 0 {
            "/console"@
        } else {
            given
        },
    );
    if bare.len() > 0 && bare[0] == '/' {
        bare
    } else {
        seq!['/'] + bare
    }
}

/// The path of the console.
pub fn normalized_console_path(path: &str) -> (r: String)
    ensures
        r@ == console_path(path@),
{
    let trimmed = text::trimmed(path);
    let given = if trimmed.as_str().is_empty() {
        "/console".to_owned()
    } else {
        trimmed
    };
    let chars = text::chars_of(given.as_str());
    let ghost whole = chars@;
    let mut to: usize = chars.len();
    proof {
        assert(whole.take(to as int) =~= whole);
    }
    while to > 0 && chars[to - 1] == '/'
        invariant
            whole == chars@,
            to <= chars@.len(),
            without_slashes(whole) == without_slashes(whole.take(to as int)),
        decreases to,
    {
        proof {
            assert(whole.take(to as int).last() == whole[to - 1]);
            assert(whole.take(to as int).drop_last() =~= whole.take(to - 1));
        }
        to = to - 1;
    }
    let bare = text::string_of(&chars, 0, to);
    proof {
        if to > 0 {
            assert(whole.take(to as int).last() == whole[to - 1]);
        }
        assert(whole.subrange(0, to as int) =~= whole.take(to as int));
    }
    if to > 0 && chars[0] == '/' {
        bare
    } else {
        let mut out = "/".to_owned();
        out.append(bare.as_str());
        proof {
            reveal_strlit("/");
            assert(out@ =~= seq!['/'] + bare@);
        }
        out
    }
}

/// The route where the method is the right one.
pub open spec fn method_only(method: Seq<char>, right: Seq<char>, route: Route) -> Route {
    if method == right {
        route
    } else {
        Route::MethodNotAllowed
    }
}

/// Where a request for a path goes.
pub open spec fn request_route(
    method: Seq<char>,
    path: Seq<char>,
    settings: MonitoringSettings,
) -> Route {
    let console = console_path(settings.console_path@);
    if path == settings.metrics_path@ {
        method_only(method, "GET"@, Route::Metrics)
    } else if path == settings.health_path@ {
        method_only(method, "GET"@, Route::Health)
    } else if !settings.console_enabled {
        Route::NotFound
    } else if path == console || path == console + "/"@ {
        method_only(method, "GET"@, Route::Console)
    } else if path == console + "/login"@ {
        method_only(method, "POST"@, Route::ConsoleLogin)
    } else if path == console + "/logout"@ {
        method_only(method, "POST"@, Route::ConsoleLogout)
    } else if path == console + "/api/overview"@ {
        method_only(method, "GET"@, Route::ConsoleOverview)
    } else {
        Route::NotFound
    }
}

fn get_only(method: &str, route: Route) -> (r: Route)
    ensures
        r == method_only(method@, "GET"@, route),
{
    if text::same(method, "GET") {
        route
    } else {
        Route::MethodNotAllowed
    }
}

fn post_only(method: &str, route: Route) -> (r: Route)
    ensures
        r == method_only(method@, "POST"@, route),
{
    if text::same(method, "POST") {
        route
    } else {
        Route::MethodNotAllowed
    }
}

/// The path is the base with the ending behind it.
fn is_below(path: &str, base: &str, ending: &str) -> (r: bool)
    ensures
        r == (path@ == base@ + ending@),
{
    let mut whole = base.to_owned();
    whole.append(ending);
    text::same(path, whole.as_str())
}

/// Where a request goes.
pub fn resolve_request_route(request: &HttpRequest, settings: &MonitoringSettings) -> (r: Route)
    ensures
        r == request_route(request@.method, request@.path, *settings),
{
    let method = request.method.as_str();
    let path = request.path.as_str();
    if text::same(path, settings.metrics_path.as_str()) {
        return get_only(method, Route::Metrics);
    }
    if text::same(path, settings.health_path.as_str()) {
        return get_only(method, Route::Health);
    }
    if !settings.console_enabled {
        return Route::NotFound;
    }
    let console = normalized_console_path(settings.console_path.as_str());
    if text::same(path, console.as_str()) || is_below(path, console.as_str(), "/") {
        return get_only(method, Route::Console);
    }
    if is_below(path, console.as_str(), "/login") {
        return post_only(method, Route::ConsoleLogin);
    }
    if is_below(path, console.as_str(), "/logout") {
        return post_only(method, Route::ConsoleLogout);
    }
    if is_below(path, console.as_str(), "/api/overview") {
        return get_only(method, Route::ConsoleOverview);
    }
    Route::NotFound
}

/// Where the request that the bytes are goes.
pub open spec fn route_of(bytes: Seq<u8>, settings: MonitoringSettings) -> Route {
    match http::parsed(bytes) {
        Ok(request) => request_route(request.method, request.path, settings),
        Err(_) => Route::BadRequest,
    }
}

/// Where the request in a text goes.
pub fn resolve_route(request: &str, settings: &MonitoringSettings) -> (r: Route)
    ensures
        r == route_of(vstd::utf8::encode_utf8(request@), *settings),
{
    let bytes = text::bytes_of(request);
    match http::parse_http_request_bytes(bytes.as_slice()) {
        Ok(request) => resolve_request_route(&request, settings),
        Err(_) => Route::BadRequest,
    }
}

// ---------------------------------------------------------------------------
// The management console
// ---------------------------------------------------------------------------

/// The name of the administrator of the console: the name of the root user,
/// below the base where it is given without one.
pub open spec fn admin_dn(root_user_dn: Seq<char>, base_dn: Seq<char>) -> Seq<char> {
    let root = text::trim(root_user_dn);
    let base = text::trim(base_dn);
    if root.contains(',') || base.len() == 0 {
        root
    } else {
        root + ","@ + base
    }
}

/// The name of the administrator of the console.
pub fn console_admin_dn(root_user_dn: &str, base_dn: &str) -> (r: String)
    ensures
        r@ == admin_dn(root_user_dn@, base_dn@),
{
    let root = text::trimmed(root_user_dn);
    let base = text::trimmed(base_dn);
    if text::has_char(root.as_str(), ',') || base.as_str().is_empty() {
        root
    } else {
        let mut out = root;
        out.append(",");
        out.append(base.as_str());
        out
    }
}

/// What the monitoring server is given: the directory in which the
/// administrator stands, their name, and the state of the replication.
#[derive(Debug)]
pub struct MonitoringRuntimeContext<B, R> {
    pub console_backend: Option<B>,
    pub console_admin_dn: Option<String>,
    pub replication_status: Option<R>,
}

impl<B, R> Default for MonitoringRuntimeContext<B, R> {
    fn default() -> (r: Self)
        ensures
            r.console_backend is None,
            r.console_admin_dn is None,
            r.replication_status is None,
    {
        MonitoringRuntimeContext {
            console_backend: None,
            console_admin_dn: None,
            replication_status: None,
        }
    }
}

/// A session with the console.
#[derive(Debug, Clone, Copy, PartialEq, Eq, Structural)]
pub struct ConsoleSession {
    /// When it ends, in nanoseconds since the console was set up.
    pub expires_at: u128,
}

/// The sessions by their names.
pub type Sessions = Seq<(Seq<char>, ConsoleSession)>;

/// The cookie that holds the name of a session.
pub open spec fn session_cookie_name() -> Seq<char> {
    "opendr_console_session"@
}

/// The cookie that a session is remembered by.
pub open spec fn set_cookie_text(path: Seq<char>, id: Seq<char>, max_age_secs: u64) -> Seq<char> {
    session_cookie_name() + "="@ + id + "; HttpOnly; SameSite=Strict; Path="@ + console_path(path)
        + "; Max-Age="@ + text::decimal(max_age_secs as nat)
}

/// The cookie that makes a client forget a session.
pub open spec fn expire_cookie_text(path: Seq<char>) -> Seq<char> {
    session_cookie_name() + "=; HttpOnly; SameSite=Strict; Path="@ + console_path(path)
        + "; Max-Age=0"@
}

/// The name of the session that a request belongs to.
pub fn session_cookie(request: &HttpRequest) -> (r: Option<String>)
    ensures
        match r {
            Some(id) => http::cookie_of(request@, session_cookie_name()) == Some(id@),
            None => http::cookie_of(request@, session_cookie_name()) is None,
        },
{
    request.cookie("opendr_console_session")
}

/// The cookie that a session is remembered by.
pub fn set_session_cookie(settings: &MonitoringSettings, session_id: &str, max_age_secs: u64) -> (r:
    String)
    ensures
        r@ == set_cookie_text(settings.console_path@, session_id@, max_age_secs),
{
    let mut out = "opendr_console_session".to_owned();
    out.append("=");
    out.append(session_id);
    out.append("; HttpOnly; SameSite=Strict; Path=");
    out.append(normalized_console_path(settings.console_path.as_str()).as_str());
    out.append("; Max-Age=");
    out.append(text::decimal_of(max_age_secs).as_str());
    out
}

/// The cookie that makes a client forget a session.
pub fn expire_session_cookie(settings: &MonitoringSettings) -> (r: String)
    ensures
        r@ == expire_cookie_text(settings.console_path@),
{
    let mut out = "opendr_console_session".to_owned();
    out.append("=; HttpOnly; SameSite=Strict; Path=");
    out.append(normalized_console_path(settings.console_path.as_str()).as_str());
    out.append("; Max-Age=0");
    out
}

/// A digit of a number in base sixteen, in lower case.
pub open spec fn is_hex_digit(c: char) -> bool {
    text::is_digit(c) || ('a' <= c && c <= 'f')
}

/// The text is a made-up identifier: groups of hexadecimal digits with
/// hyphens between them, the third group starting with the digit four.
pub open spec fn is_made_up_id(s: Seq<char>) -> bool {
    &&& s.len() == 36
    &&& s[14] == '4'
    &&& forall|i: int|
        0 <= i < 36 ==> if i == 8 || i == 13 || i == 18 || i == 23 {
            #[trigger] s[i] == '-'
        } else {
            is_hex_digit(s[i])
        }
}

/// Calls `uuid::Uuid::new_v4` and writes the identifier out with `to_string`.
/// Which one it is rests on chance; its text has the form of a random
/// identifier, in lower case and with hyphens.
#[verifier::external_body]
fn made_up_id() -> (r: String)
    ensures
        is_made_up_id(r@),
{
    uuid::Uuid::new_v4().to_string()
}

/// The sessions that have not ended.
pub open spec fn live(sessions: Sessions, now: u128) -> Sessions
    decreases sessions.len(),
{
    if sessions.len() == 0 {
        sessions
    } else {
        let before = live(sessions.drop_last(), now);
        if sessions.last().1.expires_at > now {
            before.push(sessions.last())
        } else {
            before
        }
    }
}

proof fn live_is_part(sessions: Sessions, now: u128)
    ensures
        live(sessions, now).len() <= sessions.len(),
        forall|i: int|
            0 <= i < live(sessions, now).len() ==> sessions.contains(
                #[trigger] live(sessions, now)[i],
            ),
    decreases sessions.len(),
{
    if sessions.len() > 0 {
        let front = sessions.drop_last();
        live_is_part(front, now);
        let kept = live(sessions, now);
        assert forall|i: int| 0 <= i < kept.len() implies sessions.contains(#[trigger] kept[i]) by {
            if i < live(front, now).len() {
                assert(kept[i] == live(front, now)[i]);
                let j = choose|j: int| 0 <= j < front.len() && front[j] == kept[i];
                assert(sessions[j] == kept[i]);
            } else {
                assert(sessions[sessions.len() - 1] == kept[i]);
            }
        }
    }
}

/// A session is live exactly when it is there and has not ended.
pub proof fn lookup_live(sessions: Sessions, now: u128, id: Seq<char>)
    requires
        string_map::distinct_keys(sessions),
    ensures
        string_map::lookup(live(sessions, now), id) == (match string_map::lookup(sessions, id) {
            Some(session) => if session.expires_at > now {
                Some(session)
            } else {
                None
            },
            None => None,
        }),
        string_map::distinct_keys(live(sessions, now)),
    decreases sessions.len(),
{
    if sessions.len() > 0 {
        let front = sessions.drop_last();
        let last = sessions.last();
        assert forall|a: int, b: int| 0 <= a < b < front.len() implies (#[trigger] front[a]).0 != (
        #[trigger] front[b]).0 by {
            assert(sessions[a].0 != sessions[b].0);
        }
        lookup_live(front, now, id);
        live_is_part(front, now);
        assert(sessions =~= front.push(last));
        lookup_pushed(front, last, id);
        lookup_pushed(live(front, now), last, id);
        let kept = live(sessions, now);
        assert forall|a: int, b: int| 0 <= a < b < kept.len() implies (#[trigger] kept[a]).0 != (
        #[trigger] kept[b]).0 by {
            if b < live(front, now).len() {
                assert(live(front, now)[a].0 != live(front, now)[b].0);
            } else {
                let x = live(front, now)[a];
                let j = choose|j: int| 0 <= j < front.len() && front[j] == x;
                assert(sessions[j].0 != sessions[sessions.len() - 1].0);
            }
        }
        string_map::lookup_present(front, last.0);
        if string_map::lookup(front, last.0) is Some {
            let j = choose|j: int| 0 <= j < front.len() && (#[trigger] front[j]).0 == last.0;
            assert(sessions[j].0 != sessions[sessions.len() - 1].0);
        }
    }
}

proof fn lookup_pushed(s: Sessions, e: (Seq<char>, ConsoleSession), id: Seq<char>)
    ensures
        string_map::lookup(s.push(e), id) == (match string_map::lookup(s, id) {
            Some(v) => Some(v),
            None => if e.0 == id {
                Some(e.1)
            } else {
                None
            },
        }),
    decreases s.len(),
{
    reveal_with_fuel(string_map::lookup, 2);
    if s.len() == 0 {
        assert(s.push(e).drop_first() =~= s);
    } else {
        assert(s.push(e).drop_first() =~= s.drop_first().push(e));
        lookup_pushed(s.drop_first(), e, id);
    }
}

/// What becomes of the sessions when a request asks for what only a session
/// may see: those that have ended are forgotten, and that of the request goes
/// on.
pub open spec fn sessions_after(sessions: Sessions, cookie: Option<Seq<char>>, now: u128, ttl: nat) -> Sessions {
    match cookie {
        None => sessions,
        Some(id) => match string_map::lookup(live(sessions, now), id) {
            Some(_) => string_map::put(
                live(sessions, now),
                id,
                ConsoleSession { expires_at: (now + ttl) as u128 },
            ),
            None => live(sessions, now),
        },
    }
}

/// The request belongs to a session that has not ended.
pub open spec fn recognised(sessions: Sessions, cookie: Option<Seq<char>>, now: u128) -> bool {
    cookie matches Some(id) && string_map::lookup(live(sessions, now), id) is Some
}

/// The management console.
#[derive(Debug)]
pub struct ManagementConsole<B, R> {
    context: MonitoringRuntimeContext<B, R>,
    start: Instant,
    sessions: StringMap<ConsoleSession>,
    session_ttl: Duration,
}

impl<B, R> ManagementConsole<B, R> {
    /// The sessions.
    pub closed spec fn sessions(self) -> Sessions {
        self.sessions@
    }

    /// What the console was given.
    pub closed spec fn given(self) -> MonitoringRuntimeContext<B, R> {
        self.context
    }

    /// How long a session lasts, in nanoseconds.
    pub closed spec fn ttl(self) -> nat {
        self.session_ttl@
    }

    pub fn new(settings: &MonitoringSettings, context: MonitoringRuntimeContext<B, R>) -> (r: Self)
        ensures
            r.given() == context,
            r.sessions().len() == 0,
            r.ttl() == (if settings.console_session_ttl_secs == 0 {
                1nat
            } else {
                settings.console_session_ttl_secs as nat
            }) * 1_000_000_000,
    {
        let secs: u64 = if settings.console_session_ttl_secs == 0 {
            1
        } else {
            settings.console_session_ttl_secs
        };
        ManagementConsole {
            context,
            start: clock::instant_now(),
            sessions: StringMap::new(),
            session_ttl: Duration::from_secs(secs),
        }
    }

    /// What the console was given.
    pub fn context(&self) -> (r: &MonitoringRuntimeContext<B, R>)
        ensures
            *r == self.given(),
    {
        &self.context
    }

    /// The console can be used.
    pub fn enabled(&self) -> (r: bool)
        ensures
            r == (self.given().console_backend is Some && self.given().console_admin_dn is Some),
    {
        self.context.console_backend.is_some() && self.context.console_admin_dn.is_some()
    }

    /// How long ago the console was set up, in nanoseconds.
    fn now(&self) -> (r: u128)
        ensures
            r <= u64::MAX * 1_000_000_000 + 999_999_999,
    {
        clock::age_of(&self.start).as_nanos()
    }

    /// When a session that starts or goes on now ends.
    fn end_from(&self, now: u128) -> (r: u128)
        requires
            now <= u64::MAX * 1_000_000_000 + 999_999_999,
        ensures
            r == now + self.ttl(),
    {
        now + self.session_ttl.as_nanos()
    }

    /// Opens a session of that name, at that time in nanoseconds since the
    /// console was set up, and gives the cookie that it is remembered by.
    pub fn open_session_at(
        &mut self,
        settings: &MonitoringSettings,
        session_id: String,
        now: u128,
    ) -> (cookie: String)
        requires
            now <= u64::MAX * 1_000_000_000 + 999_999_999,
        ensures
            final(self).sessions() == string_map::put(
                old(self).sessions(),
                session_id@,
                ConsoleSession { expires_at: (now + old(self).ttl()) as u128 },
            ),
            final(self).ttl() == old(self).ttl(),
            final(self).given() == old(self).given(),
            cookie@ == set_cookie_text(
                settings.console_path@,
                session_id@,
                (old(self).ttl() / 1_000_000_000) as u64,
            ),
    {
        let cookie = set_session_cookie(
            settings,
            session_id.as_str(),
            self.session_ttl.as_secs(),
        );
        let expires_at = self.end_from(now);
        let _ = self.sessions.insert(session_id, ConsoleSession { expires_at });
        cookie
    }

    /// Opens a session with a made-up name, and gives the cookie that it is
    /// remembered by.
    pub fn open_session(&mut self, settings: &MonitoringSettings) -> (cookie: String)
        ensures
            exists|id: Seq<char>, now: u128|
                {
                    &&& #[trigger] is_made_up_id(id)
                    &&& now <= u64::MAX * 1_000_000_000 + 999_999_999
                    &&& final(self).sessions() == #[trigger] string_map::put(
                        old(self).sessions(),
                        id,
                        ConsoleSession { expires_at: (now + old(self).ttl()) as u128 },
                    )
                    &&& cookie@ == set_cookie_text(
                        settings.console_path@,
                        id,
                        (old(self).ttl() / 1_000_000_000) as u64,
                    )
                },
            final(self).ttl() == old(self).ttl(),
            final(self).given() == old(self).given(),
    {
        let id = made_up_id();
        let now = self.now();
        self.open_session_at(settings, id, now)
    }

    /// Ends the session of a request, and gives the cookie that makes the
    /// client forget it.
    pub fn logout(&mut self, settings: &MonitoringSettings, request: &HttpRequest) -> (cookie:
        String)
        ensures
            final(self).sessions() == (match http::cookie_of(request@, session_cookie_name()) {
                Some(id) => string_map::without(old(self).sessions(), id),
                None => old(self).sessions(),
            }),
            final(self).ttl() == old(self).ttl(),
            final(self).given() == old(self).given(),
            cookie@ == expire_cookie_text(settings.console_path@),
    {
        if let Some(id) = session_cookie(request) {
            let _ = self.sessions.remove(id.as_str());
        }
        expire_session_cookie(settings)
    }

    fn forget_ended(&mut self, now: u128)
        ensures
            final(self).sessions() == live(old(self).sessions(), now),
            final(self).ttl() == old(self).ttl(),
            final(self).given() == old(self).given(),
    {
        let ghost all = self.sessions@;
        let n = self.sessions.len();
        let mut kept: StringMap<ConsoleSession> = StringMap::new();
        let mut i: usize = 0;
        proof {
            assert(kept@ =~= live(all.take(0), now));
        }
        while i < n
            invariant
                all == self.sessions@,
                *self == *old(self),
                n == all.len(),
                i <= n,
                string_map::distinct_keys(all),
                kept@ == live(all.take(i as int), now),
            decreases n - i,
        {
            let e = self.sessions.entry(i);
            proof {
                assert(all.take(i + 1).drop_last() =~= all.take(i as int));
            }
            if e.1.expires_at > now {
                let session = *e.1;
                proof {
                    let before = kept@;
                    live_is_part(all.take(i as int), now);
                    assert forall|j: int| 0 <= j < before.len() implies (#[trigger] before[j]).0
                        != e.0@ by {
                        let front = all.take(i as int);
                        let k = choose|k: int| 0 <= k < front.len() && front[k] == before[j];
                        assert(all[k].0 != all[i as int].0);
                    }
                    string_map::put_at(before, e.0@, session, before.len() as int);
                }
                let _ = kept.insert(e.0.clone(), session);
            }
            i = i + 1;
        }
        proof {
            assert(all.take(i as int) =~= all);
        }
        self.sessions = kept;
    }

    /// Whether a request belongs to a session, at that time in nanoseconds
    /// since the console was set up. If so, the session goes on.
    pub fn is_authenticated_at(&mut self, request: &HttpRequest, now: u128) -> (r: bool)
        requires
            now <= u64::MAX * 1_000_000_000 + 999_999_999,
        ensures
            r == recognised(
                old(self).sessions(),
                http::cookie_of(request@, session_cookie_name()),
                now,
            ),
            final(self).sessions() == sessions_after(
                old(self).sessions(),
                http::cookie_of(request@, session_cookie_name()),
                now,
                old(self).ttl(),
            ),
            final(self).ttl() == old(self).ttl(),
            final(self).given() == old(self).given(),
    {
        let id = match session_cookie(request) {
            None => {
                return false;
            },
            Some(id) => id,
        };
        self.forget_ended(now);
        if !self.sessions.contains_key(id.as_str()) {
            return false;
        }
        let expires_at = self.end_from(now);
        let _ = self.sessions.insert(id, ConsoleSession { expires_at });
        true
    }

    /// Whether a request belongs to a session now. If so, the session goes on.
    pub fn is_authenticated(&mut self, request: &HttpRequest) -> (r: bool)
        ensures
            exists|now: u128|
                {
                    &&& now <= u64::MAX * 1_000_000_000 + 999_999_999
                    &&& r == #[trigger] recognised(
                        old(self).sessions(),
                        http::cookie_of(request@, session_cookie_name()),
                        now,
                    )
                    &&& final(self).sessions() == sessions_after(
                        old(self).sessions(),
                        http::cookie_of(request@, session_cookie_name()),
                        now,
                        old(self).ttl(),
                    )
                },
            final(self).ttl() == old(self).ttl(),
            final(self).given() == old(self).given(),
    {
        let now = self.now();
        self.is_authenticated_at(request, now)
    }
}

/// A name and a password with which a client asks for a session.
#[derive(Debug)]
pub struct ConsoleLoginRequest {
    pub dn: String,
    pub password: String,
}

/// What is known of a request for a session.
#[derive(Debug)]
pub struct LoginFacts {
    /// The name and the password, unless the body of the request holds none.
    pub credentials: Option<Result<ConsoleLoginRequest, ()>>,
    /// Whether the directory knows the name and the password, unless it could
    /// not be asked.
    pub verdict: Option<Result<bool, ()>>,
}

/// What is done next for a request for a session.
#[derive(Debug)]
pub enum LoginStep {
    ReadCredentials,
    /// Asks the directory whether this is the password of that name.
    Authenticate { dn: String },
    /// Opens a session.
    Grant,
    Unauthorized,
    Unavailable,
    NotFound,
    /// Gives no answer.
    Drop,
}

/// What a [`LoginStep`] says.
pub enum LoginStepView {
    ReadCredentials,
    Authenticate { dn: Seq<char> },
    Grant,
    Unauthorized,
    Unavailable,
    NotFound,
    Drop,
}

impl View for LoginStep {
    type V = LoginStepView;

    open spec fn view(&self) -> LoginStepView {
        match self {
            LoginStep::ReadCredentials => LoginStepView::ReadCredentials,
            LoginStep::Authenticate { dn } => LoginStepView::Authenticate { dn: dn@ },
            LoginStep::Grant => LoginStepView::Grant,
            LoginStep::Unauthorized => LoginStepView::Unauthorized,
            LoginStep::Unavailable => LoginStepView::Unavailable,
            LoginStep::NotFound => LoginStepView::NotFound,
            LoginStep::Drop => LoginStepView::Drop,
        }
    }
}

/// What is done next for a request for a session.
pub open spec fn login_step(
    has_backend: bool,
    admin: Option<Seq<char>>,
    facts: LoginFacts,
) -> LoginStepView {
    match admin {
        None => LoginStepView::NotFound,
        Some(admin) => if !has_backend {
            LoginStepView::NotFound
        } else {
            match facts.credentials {
                None => LoginStepView::ReadCredentials,
                Some(Err(_)) => LoginStepView::Drop,
                Some(Ok(credentials)) => {
                    let dn = text::trim(credentials.dn@);
                    if text::lower(dn) != text::lower(admin) {
                        LoginStepView::Unauthorized
                    } else {
                        match facts.verdict {
                            None => LoginStepView::Authenticate { dn },
                            Some(Ok(true)) => LoginStepView::Grant,
                            Some(Ok(false)) => LoginStepView::Unauthorized,
                            Some(Err(_)) => LoginStepView::Unavailable,
                        }
                    }
                },
            }
        },
    }
}

/// The name of the administrator of a console, if it has one.
pub open spec fn admin_of(dn: Option<String>) -> Option<Seq<char>> {
    match dn {
        Some(dn) => Some(dn@),
        None => None,
    }
}

impl<B, R> ManagementConsole<B, R> {
    /// What is done next for a request for a session.
    pub fn login(&self, facts: &LoginFacts) -> (r: LoginStep)
        ensures
            r@ == login_step(
                self.given().console_backend is Some,
                admin_of(self.given().console_admin_dn),
                *facts,
            ),
    {
        if self.context.console_backend.is_none() {
            return LoginStep::NotFound;
        }
        let admin = match &self.context.console_admin_dn {
            None => {
                return LoginStep::NotFound;
            },
            Some(admin) => admin,
        };
        let credentials = match &facts.credentials {
            None => {
                return LoginStep::ReadCredentials;
            },
            Some(Err(_)) => {
                return LoginStep::Drop;
            },
            Some(Ok(credentials)) => credentials,
        };
        let dn = text::trimmed(credentials.dn.as_str());
        if !text::eq_ignore_case(dn.as_str(), admin.as_str()) {
            return LoginStep::Unauthorized;
        }
        match facts.verdict {
            None => LoginStep::Authenticate { dn },
            Some(Ok(true)) => LoginStep::Grant,
            Some(Ok(false)) => LoginStep::Unauthorized,
            Some(Err(_)) => LoginStep::Unavailable,
        }
    }
}

/// What is done next for a request.
#[derive(Debug, Clone, Copy, PartialEq, Eq, Structural)]
pub enum ServeStep {
    TellMetrics,
    TellHealth,
    ShowPage,
    Login,
    Logout,
    /// Asks whether the request belongs to a session.
    AskSession,
    TellOverview,
    Unauthorized,
    NotFound,
    MethodNotAllowed,
    BadRequest,
}

/// What is done next for a request that goes there, with a console that can
/// be used or not, and a session that the request belongs to or not.
pub open spec fn serve_step(route: Route, enabled: bool, authenticated: Option<bool>) -> ServeStep {
    match route {
        Route::Metrics => ServeStep::TellMetrics,
        Route::Health => ServeStep::TellHealth,
        Route::Console => if enabled {
            ServeStep::ShowPage
        } else {
            ServeStep::NotFound
        },
        Route::ConsoleLogin => ServeStep::Login,
        Route::ConsoleLogout => ServeStep::Logout,
        Route::ConsoleOverview => if !enabled {
            ServeStep::NotFound
        } else {
            match authenticated {
                None => ServeStep::AskSession,
                Some(true) => ServeStep::TellOverview,
                Some(false) => ServeStep::Unauthorized,
            }
        },
        Route::NotFound => ServeStep::NotFound,
        Route::MethodNotAllowed => ServeStep::MethodNotAllowed,
        Route::BadRequest => ServeStep::BadRequest,
    }
}

/// What is done next for a request that goes there.
pub fn serve(route: Route, enabled: bool, authenticated: Option<bool>) -> (r: ServeStep)
    ensures
        r == serve_step(route, enabled, authenticated),
{
    match route {
        Route::Metrics => ServeStep::TellMetrics,
        Route::Health => ServeStep::TellHealth,
        Route::Console => if enabled {
            ServeStep::ShowPage
        } else {
            ServeStep::NotFound
        },
        Route::ConsoleLogin => ServeStep::Login,
        Route::ConsoleLogout => ServeStep::Logout,
        Route::ConsoleOverview => if !enabled {
            ServeStep::NotFound
        } else {
            match authenticated {
                None => ServeStep::AskSession,
                Some(true) => ServeStep::TellOverview,
                Some(false) => ServeStep::Unauthorized,
            }
        },
        Route::NotFound => ServeStep::NotFound,
        Route::MethodNotAllowed => ServeStep::MethodNotAllowed,
        Route::BadRequest => ServeStep::BadRequest,
    }
}

// ---------------------------------------------------------------------------
// Laws
// ---------------------------------------------------------------------------

/// No part is in a worse state than the server, and some part is in the
/// state of the server, where there is any.
pub proof fn health_is_that_of_the_worst_part(s: Reports)
    ensures
        forall|i: int| 0 <= i < s.len() ==> severity((#[trigger] s[i]).1.status) <= severity(worst(s)),
        s.len() > 0 ==> exists|i: int| 0 <= i < s.len() && (#[trigger] s[i]).1.status == worst(s),
    decreases s.len(),
{
    if s.len() == 1 {
        assert(s[0].1.status == worst(s));
    } else if s.len() > 1 {
        let front = s.drop_last();
        health_is_that_of_the_worst_part(front);
        assert forall|i: int| 0 <= i < s.len() implies severity((#[trigger] s[i]).1.status)
            <= severity(worst(s)) by {
            if i < front.len() {
                assert(front[i] == s[i]);
            }
        }
        let i = choose|i: int| 0 <= i < front.len() && (#[trigger] front[i]).1.status == worst(front);
        if worst(s) == worst(front) {
            assert(s[i].1.status == worst(s));
        } else {
            assert(s[s.len() - 1].1.status == worst(s));
        }
    }
}

/// What a part reports of itself counts over what the counters say of it.
pub proof fn own_reports_count(base: Reports, over: Reports, name: Seq<char>)
    requires
        string_map::distinct_keys(over),
    ensures
        string_map::lookup(overlaid(base, over), name) == (match string_map::lookup(over, name) {
            Some(report) => Some(report),
            None => string_map::lookup(base, name),
        }),
    decreases over.len(),
{
    if over.len() > 0 {
        let front = over.drop_last();
        let last = over.last();
        assert forall|a: int, b: int| 0 <= a < b < front.len() implies (#[trigger] front[a]).0 != (
        #[trigger] front[b]).0 by {
            assert(over[a].0 != over[b].0);
        }
        own_reports_count(base, front, name);
        string_map::lookup_put(overlaid(base, front), last.0, last.1, name);
        assert(over =~= front.push(last));
        if last.0 == name {
            string_map::lookup_entry(over, over.len() - 1);
        } else {
            string_map::lookup_present(over, name);
            string_map::lookup_present(front, name);
            if string_map::lookup(over, name) is Some {
                let v = string_map::lookup(over, name)->0;
                let i = choose|i: int| 0 <= i < over.len() && #[trigger] over[i] == (name, v);
                assert(front[i] == (name, v));
                string_map::lookup_entry(front, i);
            } else if string_map::lookup(front, name) is Some {
                let i = choose|i: int| 0 <= i < front.len() && (#[trigger] front[i]).0 == name;
                assert(over[i].0 == name);
            }
        }
    }
}

/// The path of the console starts with a slash.
pub proof fn console_paths_start_with_a_slash(path: Seq<char>)
    ensures
        console_path(path).len() > 0,
        console_path(path)[0] == '/',
{
}

/// A made-up name of a session is read from the cookie as it was set,
/// whatever follows it in the header.
pub proof fn session_is_read_as_set(path: Seq<char>, id: Seq<char>, max_age_secs: u64)
    requires
        is_made_up_id(id),
    ensures
        http::cookie_in(set_cookie_text(path, id, max_age_secs), session_cookie_name()) == Some(id),
        http::cookie_in(session_cookie_name() + seq!['='] + id, session_cookie_name()) == Some(id),
{
    reveal_strlit("opendr_console_session");
    reveal_strlit("=");
    reveal_strlit("; HttpOnly; SameSite=Strict; Path=");
    let name = session_cookie_name();
    assert forall|c: char| id.contains(c) implies c == '-' || is_hex_digit(c) by {
        let i = choose|i: int| 0 <= i < id.len() && id[i] == c;
        assert(id[i] == c);
    }
    assert(id.contains(id[35]));
    assert(id.last() == id[35]);
    assert(is_hex_digit(id[35]));
    assert(!name.contains(';'));
    assert(!name.contains('='));
    let rest = "; HttpOnly; SameSite=Strict; Path="@ + console_path(path) + "; Max-Age="@
        + text::decimal(max_age_secs as nat);
    assert(rest[0] == "; HttpOnly; SameSite=Strict; Path="@[0]);
    http::first_cookie_is_read(name, id, rest);
    assert(set_cookie_text(path, id, max_age_secs) =~= name + seq!['='] + id + rest);
    http::first_cookie_is_read(name, id, Seq::empty());
    assert(name + seq!['='] + id + Seq::<char>::empty() =~= name + seq!['='] + id);
}

/// A session that was opened is recognised until it ends, and not after.
pub proof fn sessions_last_their_time(
    sessions: Sessions,
    id: Seq<char>,
    opened: u128,
    ttl: nat,
    now: u128,
)
    requires
        string_map::distinct_keys(sessions),
        opened + ttl <= u128::MAX,
    ensures
        ({
            let opened_sessions = string_map::put(
                sessions,
                id,
                ConsoleSession { expires_at: (opened + ttl) as u128 },
            );
            recognised(opened_sessions, Some(id), now) <==> now < opened + ttl
        }),
{
    let session = ConsoleSession { expires_at: (opened + ttl) as u128 };
    let after = string_map::put(sessions, id, session);
    string_map::lookup_put(sessions, id, session, id);
    put_keeps_distinct(sessions, id, session);
    lookup_live(after, now, id);
}

/// A session that was ended is not recognised.
pub proof fn ended_sessions_are_not_recognised(sessions: Sessions, id: Seq<char>, now: u128)
    requires
        string_map::distinct_keys(sessions),
    ensures
        !recognised(string_map::without(sessions, id), Some(id), now),
{
    string_map::lookup_without(sessions, id, id);
    let after = string_map::without(sessions, id);
    without_keeps_distinct(sessions, id);
    lookup_live(after, now, id);
}

/// The overview is told only to a client with a session.
pub proof fn overview_needs_a_session(route: Route, enabled: bool, authenticated: Option<bool>)
    requires
        serve_step(route, enabled, authenticated) == ServeStep::TellOverview,
    ensures
        authenticated == Some(true),
        enabled,
{
}

/// A session is granted only to the administrator, and only once the directory
/// knows the password.
pub proof fn sessions_are_for_the_administrator(
    has_backend: bool,
    admin: Option<Seq<char>>,
    facts: LoginFacts,
)
    requires
        login_step(has_backend, admin, facts) is Grant,
    ensures
        facts.verdict == Some(Ok::<bool, ()>(true)),
        facts.credentials matches Some(Ok(credentials)) && (admin matches Some(dn) && text::lower(
            text::trim(credentials.dn@),
        ) == text::lower(dn)),
{
}

proof fn put_keeps_distinct(s: Sessions, k: Seq<char>, v: ConsoleSession)
    requires
        string_map::distinct_keys(s),
    ensures
        string_map::distinct_keys(string_map::put(s, k, v)),
{
    string_map::lookup_present(s, k);
    if exists|i: int| 0 <= i < s.len() && (#[trigger] s[i]).0 == k {
        let i = choose|i: int| 0 <= i < s.len() && (#[trigger] s[i]).0 == k;
        assert forall|j: int| 0 <= j < i implies (#[trigger] s[j]).0 != k by {
            assert(s[j].0 != s[i].0);
        }
        string_map::put_at(s, k, v, i);
        let now = s.update(i, (k, v));
        assert forall|a: int, b: int| 0 <= a < b < now.len() implies (#[trigger] now[a]).0 != (
        #[trigger] now[b]).0 by {
            assert(s[a].0 != s[b].0);
        }
    } else {
        string_map::put_at(s, k, v, s.len() as int);
    }
}

proof fn without_keeps_distinct(s: Sessions, k: Seq<char>)
    requires
        string_map::distinct_keys(s),
    ensures
        string_map::distinct_keys(string_map::without(s, k)),
        forall|i: int|
            0 <= i < string_map::without(s, k).len() ==> s.contains(
                #[trigger] string_map::without(s, k)[i],
            ),
    decreases s.len(),
{
    if s.len() > 0 {
        let t = s.drop_first();
        assert forall|a: int, b: int| 0 <= a < b < t.len() implies (#[trigger] t[a]).0 != (
        #[trigger] t[b]).0 by {
            assert(s[a + 1].0 != s[b + 1].0);
        }
        without_keeps_distinct(t, k);
        let inner = string_map::without(t, k);
        let now = string_map::without(s, k);
        assert forall|i: int| 0 <= i < inner.len() implies s.contains(#[trigger] inner[i]) && inner[i].0
            != s[0].0 by {
            let j = choose|j: int| 0 <= j < t.len() && t[j] == inner[i];
            assert(s[j + 1] == inner[i]);
            assert(s[0].0 != s[j + 1].0);
        }
        assert forall|i: int| 0 <= i < now.len() implies s.contains(#[trigger] now[i]) by {
            if s[0].0 != k {
                if i == 0 {
                    assert(s[0] == now[0]);
                } else {
                    assert(now[i] == inner[i - 1]);
                }
            } else {
                assert(now[i] == inner[i]);
            }
        }
        assert forall|a: int, b: int| 0 <= a < b < now.len() implies (#[trigger] now[a]).0 != (
        #[trigger] now[b]).0 by {
            if s[0].0 != k {
                if a == 0 {
                    assert(now[b] == inner[b - 1]);
                } else {
                    assert(now[a] == inner[a - 1] && now[b] == inner[b - 1]);
                }
            }
        }
    }
}

} // verus!
