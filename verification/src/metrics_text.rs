//! What holds of the lines in which the counters are exported.

use vstd::prelude::*;

use crate::metrics::{
    all_operations, all_operations_lists_each_once, custom_lines, metric_block, operation_block,
    operation_blocks, operation_line, operation_name, operation_stats, prometheus_text,
    server_blocks, state_line, state_lines, MetricsView, OperationStats, OperationTable,
    OperationType,
};
use crate::text;

verus! {

/// The metrics that are told of an operation.
#[derive(Debug, Clone, Copy, PartialEq, Eq, Structural)]
pub enum OperationMetric {
    Total,
    Success,
    Failures,
    Active,
    LatencyAverage,
    LatencyLeast,
    LatencyGreatest,
}

/// The name under which a metric of an operation is told.
pub open spec fn metric_name(k: OperationMetric) -> Seq<char> {
    match k {
        OperationMetric::Total => "ldap_operations_total"@,
        OperationMetric::Success => "ldap_operations_success"@,
        OperationMetric::Failures => "ldap_operations_failures"@,
        OperationMetric::Active => "ldap_operations_active"@,
        OperationMetric::LatencyAverage => "ldap_operations_latency_avg_ns"@,
        OperationMetric::LatencyLeast => "ldap_operations_latency_min_ns"@,
        OperationMetric::LatencyGreatest => "ldap_operations_latency_max_ns"@,
    }
}

/// The value of a metric of an operation.
pub open spec fn metric_value(k: OperationMetric, s: OperationStats) -> nat {
    match k {
        OperationMetric::Total => s.count as nat,
        OperationMetric::Success => s.success as nat,
        OperationMetric::Failures => s.failures as nat,
        OperationMetric::Active => s.active as nat,
        OperationMetric::LatencyAverage => s.avg_latency_ns as nat,
        OperationMetric::LatencyLeast => s.min_latency_ns as nat,
        OperationMetric::LatencyGreatest => s.max_latency_ns as nat,
    }
}

/// The metric is one of latency.
pub open spec fn is_of_latency(k: OperationMetric) -> bool {
    k == OperationMetric::LatencyAverage || k == OperationMetric::LatencyLeast || k
        == OperationMetric::LatencyGreatest
}

/// How the lines of a metric of an operation begin.
pub open spec fn label(k: OperationMetric, t: OperationType) -> Seq<char> {
    metric_name(k) + "{operation=\""@ + operation_name(t) + "\"} "@
}

/// The text begins with the head.
pub open spec fn is_headed(s: Seq<char>, head: Seq<char>) -> bool {
    head.len() <= s.len() && s.take(head.len() as int) == head
}

/// Those of the lines that begin with the head.
pub open spec fn headed(lines: Seq<Seq<char>>, head: Seq<char>) -> Seq<Seq<char>>
    decreases lines.len(),
{
    if lines.len() == 0 {
        Seq::empty()
    } else {
        (if is_headed(lines[0], head) {
            seq![lines[0]]
        } else {
            Seq::empty()
        }) + headed(lines.drop_first(), head)
    }
}

/// The lines of a text that begin with the head.
pub open spec fn lines_headed(s: Seq<char>, head: Seq<char>) -> Seq<Seq<char>> {
    headed(text::split(s, '\n'), head)
}

/// A text, whatever follows it, adds these lines that begin with the head.
#[verifier::opaque]
spec fn adds(s: Seq<char>, head: Seq<char>, lines: Seq<Seq<char>>) -> bool {
    forall|rest: Seq<char>| #[trigger]
        lines_headed(s + rest, head) == lines + lines_headed(rest, head)
}

proof fn adds_nothing(head: Seq<char>)
    ensures
        adds(Seq::empty(), head, Seq::empty()),
{
    reveal(adds);
    assert forall|rest: Seq<char>| #[trigger]
        lines_headed(Seq::<char>::empty() + rest, head) == Seq::<Seq<char>>::empty() + lines_headed(
            rest,
            head,
        ) by {
        assert(Seq::<char>::empty() + rest =~= rest);
    }
}

proof fn adds_both(
    a: Seq<char>,
    xs: Seq<Seq<char>>,
    b: Seq<char>,
    ys: Seq<Seq<char>>,
    head: Seq<char>,
)
    requires
        adds(a, head, xs),
        adds(b, head, ys),
    ensures
        adds(a + b, head, xs + ys),
{
    reveal(adds);
    assert forall|rest: Seq<char>| #[trigger]
        lines_headed((a + b) + rest, head) == (xs + ys) + lines_headed(rest, head) by {
        assert((a + b) + rest =~= a + (b + rest));
        assert(lines_headed(a + (b + rest), head) == xs + lines_headed(b + rest, head));
        assert(lines_headed(b + rest, head) == ys + lines_headed(rest, head));
        assert(xs + (ys + lines_headed(rest, head)) =~= (xs + ys) + lines_headed(rest, head));
    }
}

/// A whole line adds itself, if it begins with the head.
proof fn line_adds(line: Seq<char>, s: Seq<char>, head: Seq<char>)
    requires
        !line.contains('\n'),
        s == line.push('\n'),
    ensures
        adds(
            s,
            head,
            if is_headed(line, head) {
                seq![line]
            } else {
                Seq::empty()
            },
        ),
{
    reveal(adds);
    let own = if is_headed(line, head) {
        seq![line]
    } else {
        Seq::empty()
    };
    assert forall|rest: Seq<char>| #[trigger]
        lines_headed(s + rest, head) == own + lines_headed(rest, head) by {
        let all = s + rest;
        let n = line.len() as int;
        assert forall|j: int| 0 <= j < n implies all[j] != '\n' by {
            assert(all[j] == line[j]);
            assert(line.contains(line[j]));
        }
        text::find_char_unique(all, '\n', n);
        assert(all.take(n) =~= line);
        assert(all.skip(n + 1) =~= rest);
        let pieces = text::split(all, '\n');
        assert(pieces.drop_first() =~= text::split(rest, '\n'));
        assert(pieces[0] == line);
    }
}

proof fn neither_contains(a: Seq<char>, b: Seq<char>, c: char)
    requires
        !a.contains(c),
        !b.contains(c),
    ensures
        !(a + b).contains(c),
{
    let s = a + b;
    if s.contains(c) {
        let j = choose|j: int| 0 <= j < s.len() && s[j] == c;
        if j < a.len() {
            assert(a[j] == c);
        } else {
            assert(b[j - a.len()] == c);
        }
    }
}

proof fn decimals_are_no_lines(n: nat)
    ensures
        !text::decimal(n).contains('\n'),
    decreases n,
{
    if n < 10 {
    } else {
        decimals_are_no_lines(n / 10);
    }
}

/// The line begins otherwise than the lines of operations do.
spec fn is_other(line: Seq<char>) -> bool {
    line.len() == 0 || line[0] == '#' || (line.len() > 5 && line[5] != 'o')
}

spec fn is_operation_head(head: Seq<char>) -> bool {
    head.len() > 5 && head[0] == 'l' && head[5] == 'o'
}

proof fn other_lines_add_nothing(line: Seq<char>, s: Seq<char>, head: Seq<char>)
    requires
        !line.contains('\n'),
        s == line.push('\n'),
        is_other(line),
        is_operation_head(head),
    ensures
        adds(s, head, Seq::empty()),
{
    line_adds(line, s, head);
    if is_headed(line, head) {
        assert(line.take(head.len() as int)[0] == head[0]);
        assert(line.take(head.len() as int)[5] == head[5]);
    }
}

/// The block of a metric that is not of an operation adds nothing.
proof fn block_adds_nothing(
    name: Seq<char>,
    help: Seq<char>,
    kind: Seq<char>,
    value: nat,
    head: Seq<char>,
)
    requires
        !name.contains('\n'),
        !help.contains('\n'),
        kind == "gauge"@ || kind == "counter"@,
        name.len() > 5,
        name[5] != 'o',
        is_operation_head(head),
    ensures
        adds(metric_block(name, help, kind, value), head, Seq::empty()),
{
    reveal_strlit("# HELP ");
    reveal_strlit("\n# TYPE ");
    reveal_strlit(" ");
    reveal_strlit("\n");
    reveal_strlit("\n\n");
    reveal_strlit("gauge");
    reveal_strlit("counter");
    let none = Seq::<Seq<char>>::empty();
    let sharp = "\n# TYPE "@.drop_first();
    let l1 = "# HELP "@ + name + " "@ + help;
    let l2 = sharp + name + " "@ + kind;
    let l3 = name + " "@ + text::decimal(value);
    decimals_are_no_lines(value);
    neither_contains("# HELP "@, name, '\n');
    neither_contains("# HELP "@ + name, " "@, '\n');
    neither_contains("# HELP "@ + name + " "@, help, '\n');
    neither_contains(sharp, name, '\n');
    neither_contains(sharp + name, " "@, '\n');
    neither_contains(sharp + name + " "@, kind, '\n');
    neither_contains(name, " "@, '\n');
    neither_contains(name + " "@, text::decimal(value), '\n');
    let s1 = l1.push('\n');
    let s2 = l2.push('\n');
    let s3 = l3.push('\n');
    let s4 = Seq::<char>::empty().push('\n');
    other_lines_add_nothing(l1, s1, head);
    other_lines_add_nothing(l2, s2, head);
    other_lines_add_nothing(l3, s3, head);
    other_lines_add_nothing(Seq::empty(), s4, head);
    assert(none + none =~= none);
    adds_both(s1, none, s2, none, head);
    adds_both(s1 + s2, none, s3, none, head);
    adds_both(s1 + s2 + s3, none, s4, none, head);
    assert(metric_block(name, help, kind, value) =~= s1 + s2 + s3 + s4);
}

/// A metric with this name and help is none of an operation and breaks no
/// line.
#[verifier::opaque]
spec fn is_of_the_server(name: Seq<char>, help: Seq<char>) -> bool {
    &&& !name.contains('\n')
    &&& !help.contains('\n')
    &&& name.len() > 5
    &&& name[5] != 'o'
}

proof fn block_follows(
    before: Seq<char>,
    name: Seq<char>,
    help: Seq<char>,
    kind: Seq<char>,
    value: nat,
    head: Seq<char>,
)
    requires
        adds(before, head, Seq::empty()),
        is_of_the_server(name, help),
        kind == "gauge"@ || kind == "counter"@,
        is_operation_head(head),
    ensures
        adds(before + metric_block(name, help, kind, value), head, Seq::empty()),
{
    reveal(is_of_the_server);
    let none = Seq::<Seq<char>>::empty();
    block_adds_nothing(name, help, kind, value, head);
    adds_both(before, none, metric_block(name, help, kind, value), none, head);
    assert(none + none =~= none);
}

proof fn first_server_metrics()
    ensures
        is_of_the_server("ldap_server_uptime_seconds"@, "Server uptime in seconds"@),
        is_of_the_server("ldap_connections_total"@, "Total number of connections"@),
        is_of_the_server("ldap_connections_active"@, "Currently active connections"@),
        is_of_the_server("ldap_connections_closed"@, "Total closed connections"@),
{
    reveal(is_of_the_server);
    reveal_strlit("ldap_server_uptime_seconds");
    reveal_strlit("Server uptime in seconds");
    reveal_strlit("ldap_connections_total");
    reveal_strlit("Total number of connections");
    reveal_strlit("ldap_connections_active");
    reveal_strlit("Currently active connections");
    reveal_strlit("ldap_connections_closed");
    reveal_strlit("Total closed connections");
}

proof fn second_server_metrics()
    ensures
        is_of_the_server("ldap_connections_failed"@, "Total failed connection attempts"@),
        is_of_the_server("ldap_resource_connection_rejections_total"@, "Connection rejections due to resource limits"@),
        is_of_the_server("ldap_resource_operation_rejections_total"@, "Operation rejections due to resource limits"@),
        is_of_the_server("ldap_resource_memory_rejections_total"@, "Memory rejections due to resource limits"@),
{
    reveal(is_of_the_server);
    reveal_strlit("ldap_connections_failed");
    reveal_strlit("Total failed connection attempts");
    reveal_strlit("ldap_resource_connection_rejections_total");
    reveal_strlit("Connection rejections due to resource limits");
    reveal_strlit("ldap_resource_operation_rejections_total");
    reveal_strlit("Operation rejections due to resource limits");
    reveal_strlit("ldap_resource_memory_rejections_total");
    reveal_strlit("Memory rejections due to resource limits");
}

proof fn third_server_metrics()
    ensures
        is_of_the_server("ldap_resource_rate_limit_blocks_total"@, "Requests blocked by rate limiting"@),
        is_of_the_server("ldap_resource_rate_limit_allows_total"@, "Requests allowed by rate limiting"@),
        is_of_the_server("ldap_resource_idle_connection_evictions_total"@, "Idle connections evicted by cleanup"@),
        is_of_the_server("ldap_auth_cache_capacity"@, "Configured authentication credential cache capacity"@),
{
    reveal(is_of_the_server);
    reveal_strlit("ldap_resource_rate_limit_blocks_total");
    reveal_strlit("Requests blocked by rate limiting");
    reveal_strlit("ldap_resource_rate_limit_allows_total");
    reveal_strlit("Requests allowed by rate limiting");
    reveal_strlit("ldap_resource_idle_connection_evictions_total");
    reveal_strlit("Idle connections evicted by cleanup");
    reveal_strlit("ldap_auth_cache_capacity");
    reveal_strlit("Configured authentication credential cache capacity");
}

proof fn fourth_server_metrics()
    ensures
        is_of_the_server("ldap_auth_cache_entries"@, "Current authentication credential cache entries"@),
        is_of_the_server("ldap_auth_cache_hits_total"@, "Authentication credential cache hits"@),
        is_of_the_server("ldap_auth_cache_misses_total"@, "Authentication credential cache misses"@),
        is_of_the_server("ldap_auth_cache_evictions_total"@, "Authentication credential cache evictions"@),
{
    reveal(is_of_the_server);
    reveal_strlit("ldap_auth_cache_entries");
    reveal_strlit("Current authentication credential cache entries");
    reveal_strlit("ldap_auth_cache_hits_total");
    reveal_strlit("Authentication credential cache hits");
    reveal_strlit("ldap_auth_cache_misses_total");
    reveal_strlit("Authentication credential cache misses");
    reveal_strlit("ldap_auth_cache_evictions_total");
    reveal_strlit("Authentication credential cache evictions");
}

proof fn server_blocks_add_nothing(m: MetricsView, uptime: u64, head: Seq<char>)
    requires
        is_operation_head(head),
    ensures
        adds(server_blocks(m, uptime), head, Seq::empty()),
{
    first_server_metrics();
    second_server_metrics();
    third_server_metrics();
    fourth_server_metrics();
    adds_nothing(head);
    let b0 = Seq::<char>::empty();
    block_follows(b0, "ldap_server_uptime_seconds"@, "Server uptime in seconds"@, "gauge"@, uptime as nat, head);
    let b1 = b0 + metric_block("ldap_server_uptime_seconds"@, "Server uptime in seconds"@, "gauge"@, uptime as nat);
    block_follows(b1, "ldap_connections_total"@, "Total number of connections"@, "counter"@, m.connections.total as nat, head);
    let b2 = b1 + metric_block("ldap_connections_total"@, "Total number of connections"@, "counter"@, m.connections.total as nat);
    block_follows(b2, "ldap_connections_active"@, "Currently active connections"@, "gauge"@, m.connections.active as nat, head);
    let b3 = b2 + metric_block("ldap_connections_active"@, "Currently active connections"@, "gauge"@, m.connections.active as nat);
    block_follows(b3, "ldap_connections_closed"@, "Total closed connections"@, "counter"@, m.connections.closed as nat, head);
    let b4 = b3 + metric_block("ldap_connections_closed"@, "Total closed connections"@, "counter"@, m.connections.closed as nat);
    block_follows(b4, "ldap_connections_failed"@, "Total failed connection attempts"@, "counter"@, m.connections.failed as nat, head);
    let b5 = b4 + metric_block("ldap_connections_failed"@, "Total failed connection attempts"@, "counter"@, m.connections.failed as nat);
    block_follows(b5, "ldap_resource_connection_rejections_total"@, "Connection rejections due to resource limits"@, "counter"@, m.resources.connection_rejections as nat, head);
    let b6 = b5 + metric_block("ldap_resource_connection_rejections_total"@, "Connection rejections due to resource limits"@, "counter"@, m.resources.connection_rejections as nat);
    block_follows(b6, "ldap_resource_operation_rejections_total"@, "Operation rejections due to resource limits"@, "counter"@, m.resources.operation_rejections as nat, head);
    let b7 = b6 + metric_block("ldap_resource_operation_rejections_total"@, "Operation rejections due to resource limits"@, "counter"@, m.resources.operation_rejections as nat);
    block_follows(b7, "ldap_resource_memory_rejections_total"@, "Memory rejections due to resource limits"@, "counter"@, m.resources.memory_rejections as nat, head);
    let b8 = b7 + metric_block("ldap_resource_memory_rejections_total"@, "Memory rejections due to resource limits"@, "counter"@, m.resources.memory_rejections as nat);
    block_follows(b8, "ldap_resource_rate_limit_blocks_total"@, "Requests blocked by rate limiting"@, "counter"@, m.resources.rate_limit_blocks as nat, head);
    let b9 = b8 + metric_block("ldap_resource_rate_limit_blocks_total"@, "Requests blocked by rate limiting"@, "counter"@, m.resources.rate_limit_blocks as nat);
    block_follows(b9, "ldap_resource_rate_limit_allows_total"@, "Requests allowed by rate limiting"@, "counter"@, m.resources.rate_limit_allows as nat, head);
    let b10 = b9 + metric_block("ldap_resource_rate_limit_allows_total"@, "Requests allowed by rate limiting"@, "counter"@, m.resources.rate_limit_allows as nat);
    block_follows(b10, "ldap_resource_idle_connection_evictions_total"@, "Idle connections evicted by cleanup"@, "counter"@, m.resources.idle_connection_evictions as nat, head);
    let b11 = b10 + metric_block("ldap_resource_idle_connection_evictions_total"@, "Idle connections evicted by cleanup"@, "counter"@, m.resources.idle_connection_evictions as nat);
    block_follows(b11, "ldap_auth_cache_capacity"@, "Configured authentication credential cache capacity"@, "gauge"@, m.auth_cache.capacity as nat, head);
    let b12 = b11 + metric_block("ldap_auth_cache_capacity"@, "Configured authentication credential cache capacity"@, "gauge"@, m.auth_cache.capacity as nat);
    block_follows(b12, "ldap_auth_cache_entries"@, "Current authentication credential cache entries"@, "gauge"@, m.auth_cache.entries as nat, head);
    let b13 = b12 + metric_block("ldap_auth_cache_entries"@, "Current authentication credential cache entries"@, "gauge"@, m.auth_cache.entries as nat);
    block_follows(b13, "ldap_auth_cache_hits_total"@, "Authentication credential cache hits"@, "counter"@, m.auth_cache.hits as nat, head);
    let b14 = b13 + metric_block("ldap_auth_cache_hits_total"@, "Authentication credential cache hits"@, "counter"@, m.auth_cache.hits as nat);
    block_follows(b14, "ldap_auth_cache_misses_total"@, "Authentication credential cache misses"@, "counter"@, m.auth_cache.misses as nat, head);
    let b15 = b14 + metric_block("ldap_auth_cache_misses_total"@, "Authentication credential cache misses"@, "counter"@, m.auth_cache.misses as nat);
    block_follows(b15, "ldap_auth_cache_evictions_total"@, "Authentication credential cache evictions"@, "counter"@, m.auth_cache.evictions as nat, head);
}

proof fn metric_names()
    ensures
        forall|k: OperationMetric|
            {
                let n = #[trigger] metric_name(k);
                &&& !n.contains('\n')
                &&& n.len() > 16
                &&& n[0] == 'l'
                &&& n[5] == 'o'
                &&& is_of_latency(k) ==> n.len() > 25
                &&& n[16] == (match k {
                    OperationMetric::Total => 't',
                    OperationMetric::Success => 's',
                    OperationMetric::Failures => 'f',
                    OperationMetric::Active => 'a',
                    _ => 'l',
                })
                &&& k == OperationMetric::LatencyAverage ==> n[24] == 'a'
                &&& k == OperationMetric::LatencyLeast ==> n[24] == 'm' && n[25] == 'i'
                &&& k == OperationMetric::LatencyGreatest ==> n[24] == 'm' && n[25] == 'a'
            },
{
    reveal_strlit("ldap_operations_total");
    reveal_strlit("ldap_operations_success");
    reveal_strlit("ldap_operations_failures");
    reveal_strlit("ldap_operations_active");
    reveal_strlit("ldap_operations_latency_avg_ns");
    reveal_strlit("ldap_operations_latency_min_ns");
    reveal_strlit("ldap_operations_latency_max_ns");
}

/// What tells the name of an operation, with a quotation mark behind it, from
/// the others.
spec fn mark(t: OperationType) -> (char, char, char) {
    match t {
        OperationType::Bind => ('b', 'i', ' '),
        OperationType::Unbind => ('u', 'n', ' '),
        OperationType::Search => ('s', 'e', ' '),
        OperationType::Modify => ('m', 'o', '"'),
        OperationType::Add => ('a', 'd', ' '),
        OperationType::Delete => ('d', 'e', ' '),
        OperationType::ModifyDN => ('m', 'o', 'd'),
        OperationType::Compare => ('c', 'o', ' '),
        OperationType::Extended => ('e', 'x', ' '),
        OperationType::Abandon => ('a', 'b', ' '),
    }
}

proof fn operation_names(t: OperationType)
    ensures
        !operation_name(t).contains('\n'),
        operation_name(t).len() > 2,
        operation_name(t)[0] == mark(t).0,
        operation_name(t)[1] == mark(t).1,
        t == OperationType::Modify ==> operation_name(t).len() == 6,
        t == OperationType::ModifyDN ==> operation_name(t).len() == 8 && operation_name(t)[6]
            == 'd',
{
    reveal_strlit("bind");
    reveal_strlit("unbind");
    reveal_strlit("search");
    reveal_strlit("modify");
    reveal_strlit("add");
    reveal_strlit("delete");
    reveal_strlit("modifydn");
    reveal_strlit("compare");
    reveal_strlit("extended");
    reveal_strlit("abandon");
}

/// A line of an operation begins with the label of its metric and of its
/// operation and with no other.
proof fn labels_tell_apart(
    k: OperationMetric,
    t: OperationType,
    j: OperationMetric,
    u: OperationType,
    tail: Seq<char>,
)
    ensures
        is_headed(label(j, u) + tail, label(k, t)) == (j == k && u == t),
{
    metric_names();
    operation_names(t);
    operation_names(u);
    reveal_strlit("{operation=\"");
    reveal_strlit("\"} ");
    let line = label(j, u) + tail;
    let head = label(k, t);
    if j == k && u == t {
        assert(line.take(head.len() as int) =~= head);
    } else if is_headed(line, head) {
        let cut = line.take(head.len() as int);
        assert(cut[16] == line[16] && cut[16] == head[16]);
        assert(line[16] == metric_name(j)[16]);
        assert(head[16] == metric_name(k)[16]);
        if is_of_latency(j) && is_of_latency(k) {
            assert(cut[24] == line[24] && cut[25] == line[25]);
            assert(line[24] == metric_name(j)[24] && line[25] == metric_name(j)[25]);
            assert(head[24] == metric_name(k)[24] && head[25] == metric_name(k)[25]);
        }
        assert(j == k);
        let p = metric_name(k).len() as int + 12;
        assert(cut[p] == line[p] && cut[p + 1] == line[p + 1]);
        assert(head[p] == operation_name(t)[0] && head[p + 1] == operation_name(t)[1]);
        assert(line[p] == operation_name(u)[0] && line[p + 1] == operation_name(u)[1]);
        if mark(t).0 == 'm' && mark(u).0 == 'm' {
            assert(cut[p + 6] == line[p + 6]);
        }
        assert(false);
    }
}

proof fn operation_line_adds(
    j: OperationMetric,
    u: OperationType,
    value: nat,
    k: OperationMetric,
    t: OperationType,
)
    ensures
        adds(
            operation_line(metric_name(j), operation_name(u), value),
            label(k, t),
            if j == k && u == t {
                seq![label(k, t) + text::decimal(value)]
            } else {
                Seq::empty()
            },
        ),
{
    let line = label(j, u) + text::decimal(value);
    let s = operation_line(metric_name(j), operation_name(u), value);
    metric_names();
    operation_names(u);
    decimals_are_no_lines(value);
    reveal_strlit("{operation=\"");
    reveal_strlit("\"} ");
    reveal_strlit("\n");
    neither_contains(metric_name(j), "{operation=\""@, '\n');
    neither_contains(metric_name(j) + "{operation=\""@, operation_name(u), '\n');
    neither_contains(
        metric_name(j) + "{operation=\""@ + operation_name(u),
        "\"} "@,
        '\n',
    );
    neither_contains(label(j, u), text::decimal(value), '\n');
    assert(s =~= line.push('\n'));
    labels_tell_apart(k, t, j, u, text::decimal(value));
    line_adds(line, s, label(k, t));
}

/// The lines of a metric in the block of an operation.
spec fn own_lines(
    u: OperationType,
    s: OperationStats,
    k: OperationMetric,
    t: OperationType,
) -> Seq<Seq<char>> {
    if u == t && (is_of_latency(k) ==> s.count > 0) {
        seq![label(k, t) + text::decimal(metric_value(k, s))]
    } else {
        Seq::empty()
    }
}

/// The line of one metric in the block of an operation.
spec fn one_line(
    j: OperationMetric,
    u: OperationType,
    s: OperationStats,
    k: OperationMetric,
    t: OperationType,
) -> Seq<Seq<char>> {
    if j == k && u == t {
        seq![label(k, t) + text::decimal(metric_value(j, s))]
    } else {
        Seq::empty()
    }
}

/// How the block of an operation begins.
spec fn block_heading(o: Seq<char>) -> Seq<char> {
    "# HELP ldap_operations_total{operation=\""@ + o + "\"} Total operations\n"@
        + "# TYPE ldap_operations_total{operation=\""@ + o + "\"} counter\n"@
}

proof fn block_heading_adds_nothing(o: Seq<char>, head: Seq<char>)
    requires
        !o.contains('\n'),
        is_operation_head(head),
    ensures
        adds(block_heading(o), head, Seq::empty()),
{
    let none = Seq::<Seq<char>>::empty();
    reveal_strlit("# HELP ldap_operations_total{operation=\"");
    reveal_strlit("\"} Total operations\n");
    reveal_strlit("# TYPE ldap_operations_total{operation=\"");
    reveal_strlit("\"} counter\n");
    let e1 = "\"} Total operations\n"@.drop_last();
    let e2 = "\"} counter\n"@.drop_last();
    let h1 = "# HELP ldap_operations_total{operation=\""@ + o + e1;
    let h2 = "# TYPE ldap_operations_total{operation=\""@ + o + e2;
    neither_contains("# HELP ldap_operations_total{operation=\""@, o, '\n');
    neither_contains("# HELP ldap_operations_total{operation=\""@ + o, e1, '\n');
    neither_contains("# TYPE ldap_operations_total{operation=\""@, o, '\n');
    neither_contains("# TYPE ldap_operations_total{operation=\""@ + o, e2, '\n');
    let s1 = h1.push('\n');
    let s2 = h2.push('\n');
    other_lines_add_nothing(h1, s1, head);
    other_lines_add_nothing(h2, s2, head);
    adds_both(s1, none, s2, none, head);
    assert(none + none =~= none);
    assert(block_heading(o) =~= s1 + s2);
}

proof fn operation_block_adds(
    u: OperationType,
    s: OperationStats,
    k: OperationMetric,
    t: OperationType,
)
    ensures
        adds(operation_block(operation_name(u), s), label(k, t), own_lines(u, s, k, t)),
{
    let head = label(k, t);
    let o = operation_name(u);
    let none = Seq::<Seq<char>>::empty();
    let end = "\n"@;
    assert(is_operation_head(head)) by {
        metric_names();
    }
    operation_names(u);
    block_heading_adds_nothing(o, head);
    assert(adds(end, head, none)) by {
        reveal_strlit("\n");
        assert(end =~= Seq::<char>::empty().push('\n'));
        other_lines_add_nothing(Seq::empty(), end, head);
    }
    let a1 = block_heading(o);
    let x2 = operation_line("ldap_operations_total"@, o, s.count as nat);
    let x4 = operation_line("ldap_operations_success"@, o, s.success as nat);
    let x5 = operation_line("ldap_operations_failures"@, o, s.failures as nat);
    let x6 = operation_line("ldap_operations_active"@, o, s.active as nat);
    let x7 = latency_lines(o, s);
    let r2 = one_line(OperationMetric::Total, u, s, k, t);
    let r4 = one_line(OperationMetric::Success, u, s, k, t);
    let r5 = one_line(OperationMetric::Failures, u, s, k, t);
    let r6 = one_line(OperationMetric::Active, u, s, k, t);
    let r7 = if is_of_latency(k) && s.count > 0 && u == t {
        seq![label(k, t) + text::decimal(metric_value(k, s))]
    } else {
        none
    };
    operation_line_adds(OperationMetric::Total, u, s.count as nat, k, t);
    operation_line_adds(OperationMetric::Success, u, s.success as nat, k, t);
    operation_line_adds(OperationMetric::Failures, u, s.failures as nat, k, t);
    operation_line_adds(OperationMetric::Active, u, s.active as nat, k, t);
    latency_lines_add(u, s, k, t);
    adds_both(a1, none, x2, r2, head);
    adds_both(a1 + x2, none + r2, end, none, head);
    adds_both(a1 + x2 + end, none + r2 + none, x4, r4, head);
    adds_both(a1 + x2 + end + x4, none + r2 + none + r4, x5, r5, head);
    adds_both(a1 + x2 + end + x4 + x5, none + r2 + none + r4 + r5, x6, r6, head);
    adds_both(a1 + x2 + end + x4 + x5 + x6, none + r2 + none + r4 + r5 + r6, x7, r7, head);
    adds_both(
        a1 + x2 + end + x4 + x5 + x6 + x7,
        none + r2 + none + r4 + r5 + r6 + r7,
        end,
        none,
        head,
    );
    assert(none + r2 + none + r4 + r5 + r6 + r7 + none =~= own_lines(u, s, k, t));
}

spec fn latency_lines(o: Seq<char>, s: OperationStats) -> Seq<char> {
    if s.count > 0 {
        operation_line("ldap_operations_latency_avg_ns"@, o, s.avg_latency_ns as nat)
            + operation_line("ldap_operations_latency_min_ns"@, o, s.min_latency_ns as nat)
            + operation_line("ldap_operations_latency_max_ns"@, o, s.max_latency_ns as nat)
    } else {
        Seq::empty()
    }
}

proof fn latency_lines_add(
    u: OperationType,
    s: OperationStats,
    k: OperationMetric,
    t: OperationType,
)
    ensures
        adds(
            latency_lines(operation_name(u), s),
            label(k, t),
            if is_of_latency(k) && s.count > 0 && u == t {
                seq![label(k, t) + text::decimal(metric_value(k, s))]
            } else {
                Seq::empty()
            },
        ),
{
    let head = label(k, t);
    let o = operation_name(u);
    if s.count > 0 {
        let a = operation_line(
            metric_name(OperationMetric::LatencyAverage),
            o,
            s.avg_latency_ns as nat,
        );
        let b = operation_line(
            metric_name(OperationMetric::LatencyLeast),
            o,
            s.min_latency_ns as nat,
        );
        let c = operation_line(
            metric_name(OperationMetric::LatencyGreatest),
            o,
            s.max_latency_ns as nat,
        );
        let x = one_line(OperationMetric::LatencyAverage, u, s, k, t);
        let y = one_line(OperationMetric::LatencyLeast, u, s, k, t);
        let z = one_line(OperationMetric::LatencyGreatest, u, s, k, t);
        operation_line_adds(OperationMetric::LatencyAverage, u, s.avg_latency_ns as nat, k, t);
        operation_line_adds(OperationMetric::LatencyLeast, u, s.min_latency_ns as nat, k, t);
        operation_line_adds(OperationMetric::LatencyGreatest, u, s.max_latency_ns as nat, k, t);
        adds_both(a, x, b, y, head);
        adds_both(a + b, x + y, c, z, head);
        assert(x + y + z =~= (if is_of_latency(k) && u == t {
            seq![label(k, t) + text::decimal(metric_value(k, s))]
        } else {
            Seq::<Seq<char>>::empty()
        }));
    } else {
        adds_nothing(head);
    }
}

/// The lines of a metric in the blocks of operations.
spec fn own_lines_of(
    ops: Seq<OperationType>,
    table: OperationTable,
    k: OperationMetric,
    t: OperationType,
) -> Seq<Seq<char>>
    decreases ops.len(),
{
    if ops.len() == 0 {
        Seq::empty()
    } else {
        own_lines_of(ops.drop_last(), table, k, t) + own_lines(
            ops.last(),
            operation_stats(table.of(ops.last())),
            k,
            t,
        )
    }
}

proof fn operation_blocks_add(
    ops: Seq<OperationType>,
    table: OperationTable,
    k: OperationMetric,
    t: OperationType,
)
    ensures
        adds(operation_blocks(ops, table), label(k, t), own_lines_of(ops, table, k, t)),
    decreases ops.len(),
{
    if ops.len() == 0 {
        adds_nothing(label(k, t));
    } else {
        let front = ops.drop_last();
        let s = operation_stats(table.of(ops.last()));
        operation_blocks_add(front, table, k, t);
        operation_block_adds(ops.last(), s, k, t);
        adds_both(
            operation_blocks(front, table),
            own_lines_of(front, table, k, t),
            operation_block(operation_name(ops.last()), s),
            own_lines(ops.last(), s, k, t),
            label(k, t),
        );
    }
}

proof fn own_lines_once(
    ops: Seq<OperationType>,
    table: OperationTable,
    k: OperationMetric,
    t: OperationType,
)
    requires
        forall|i: int, j: int| 0 <= i < j < ops.len() ==> #[trigger] ops[i] != #[trigger] ops[j],
    ensures
        own_lines_of(ops, table, k, t) == (if ops.contains(t) {
            own_lines(t, operation_stats(table.of(t)), k, t)
        } else {
            Seq::empty()
        }),
    decreases ops.len(),
{
    if ops.len() > 0 {
        let front = ops.drop_last();
        let s = operation_stats(table.of(ops.last()));
        own_lines_once(front, table, k, t);
        let none = Seq::<Seq<char>>::empty();
        assert(none + none =~= none);
        if ops.last() == t {
            if front.contains(t) {
                let i = choose|i: int| 0 <= i < front.len() && front[i] == t;
                assert(ops[i] == ops[ops.len() - 1]);
            }
            assert(ops[ops.len() - 1] == t);
            assert(none + own_lines(t, s, k, t) =~= own_lines(t, s, k, t));
        } else {
            if front.contains(t) {
                let i = choose|i: int| 0 <= i < front.len() && front[i] == t;
                assert(ops[i] == t);
            } else if ops.contains(t) {
                let i = choose|i: int| 0 <= i < ops.len() && ops[i] == t;
                assert(front[i] == t);
            }
            let own = own_lines(t, operation_stats(table.of(t)), k, t);
            assert(own + none =~= own);
        }
    }
}

proof fn pieces_without(s: Seq<char>, c: char, d: char)
    requires
        !s.contains(d),
    ensures
        forall|i: int|
            0 <= i < text::split(s, c).len() ==> !(#[trigger] text::split(s, c)[i]).contains(d),
    decreases s.len(),
{
    let i = text::find_char(s, c);
    text::find_char_bounds(s, c);
    if 0 <= i < s.len() {
        let rest = s.skip(i + 1);
        if rest.contains(d) {
            let j = choose|j: int| 0 <= j < rest.len() && rest[j] == d;
            assert(s[j + i + 1] == d);
        }
        if s.take(i).contains(d) {
            let j = choose|j: int| 0 <= j < i && s.take(i)[j] == d;
            assert(s[j] == d);
        }
        pieces_without(rest, c, d);
        let all = text::split(s, c);
        assert forall|j: int| 0 <= j < all.len() implies !(#[trigger] all[j]).contains(d) by {
            if j > 0 {
                assert(all[j] == text::split(rest, c)[j - 1]);
            }
        }
    }
}

proof fn state_lines_add_nothing(states: Seq<(Seq<char>, usize)>, head: Seq<char>)
    requires
        is_operation_head(head),
        forall|i: int| 0 <= i < states.len() ==> !(#[trigger] states[i]).0.contains('\n'),
    ensures
        adds(state_lines(states), head, Seq::empty()),
    decreases states.len(),
{
    let none = Seq::<Seq<char>>::empty();
    if states.len() == 0 {
        adds_nothing(head);
    } else {
        let front = states.drop_last();
        let last = states.last();
        assert(!states[states.len() - 1].0.contains('\n'));
        assert forall|i: int| 0 <= i < front.len() implies !(#[trigger] front[i]).0.contains(
            '\n',
        ) by {
            assert(front[i] == states[i]);
        }
        state_lines_add_nothing(front, head);
        let parts = text::split(last.0, ':');
        let s = state_line(last.0, last.1);
        if parts.len() == 2 {
            pieces_without(last.0, ':', '\n');
            decimals_are_no_lines(last.1 as nat);
            reveal_strlit("ldap_fsm_states{fsm=\"");
            reveal_strlit("\",state=\"");
            reveal_strlit("\"} ");
            reveal_strlit("\n");
            let a = "ldap_fsm_states{fsm=\""@ + parts[0];
            let b = a + "\",state=\""@ + parts[1];
            let line = b + "\"} "@ + text::decimal(last.1 as nat);
            neither_contains("ldap_fsm_states{fsm=\""@, parts[0], '\n');
            neither_contains(a, "\",state=\""@, '\n');
            neither_contains(a + "\",state=\""@, parts[1], '\n');
            neither_contains(b, "\"} "@, '\n');
            neither_contains(b + "\"} "@, text::decimal(last.1 as nat), '\n');
            assert(s =~= line.push('\n'));
            assert(line[5] == 'f');
            other_lines_add_nothing(line, s, head);
        } else {
            adds_nothing(head);
        }
        adds_both(state_lines(front), none, s, none, head);
        assert(none + none =~= none);
    }
}

proof fn custom_lines_add_nothing(
    metric: Seq<char>,
    values: Seq<(Seq<char>, u64)>,
    head: Seq<char>,
)
    requires
        is_operation_head(head),
        metric == "ldap_custom_counter"@ || metric == "ldap_custom_gauge"@,
        forall|i: int| 0 <= i < values.len() ==> !(#[trigger] values[i]).0.contains('\n'),
    ensures
        adds(custom_lines(metric, values), head, Seq::empty()),
    decreases values.len(),
{
    let none = Seq::<Seq<char>>::empty();
    if values.len() == 0 {
        adds_nothing(head);
    } else {
        let front = values.drop_last();
        let last = values.last();
        assert(!values[values.len() - 1].0.contains('\n'));
        assert forall|i: int| 0 <= i < front.len() implies !(#[trigger] front[i]).0.contains(
            '\n',
        ) by {
            assert(front[i] == values[i]);
        }
        custom_lines_add_nothing(metric, front, head);
        decimals_are_no_lines(last.1 as nat);
        reveal_strlit("ldap_custom_counter");
        reveal_strlit("ldap_custom_gauge");
        reveal_strlit("{name=\"");
        reveal_strlit("\"} ");
        reveal_strlit("\n");
        let a = metric + "{name=\""@;
        let line = a + last.0 + "\"} "@ + text::decimal(last.1 as nat);
        neither_contains(metric, "{name=\""@, '\n');
        neither_contains(a, last.0, '\n');
        neither_contains(a + last.0, "\"} "@, '\n');
        neither_contains(a + last.0 + "\"} "@, text::decimal(last.1 as nat), '\n');
        let s = metric + "{name=\""@ + last.0 + "\"} "@ + text::decimal(last.1 as nat) + "\n"@;
        assert(s =~= line.push('\n'));
        assert(line[5] == metric[5]);
        other_lines_add_nothing(line, s, head);
        adds_both(custom_lines(metric, front), none, s, none, head);
        assert(none + none =~= none);
    }
}

/// Each metric of each operation has exactly one line in the text, with its
/// value; those of latency have one only once the operation has begun. The
/// names that a caller gives to states, counters and gauges must not break
/// lines.
pub proof fn each_metric_of_an_operation_has_its_line(
    m: MetricsView,
    uptime: u64,
    k: OperationMetric,
    t: OperationType,
)
    requires
        forall|i: int|
            0 <= i < m.fsm_states.len() ==> !(#[trigger] m.fsm_states[i]).0.contains('\n'),
        forall|i: int| 0 <= i < m.counters.len() ==> !(#[trigger] m.counters[i]).0.contains('\n'),
        forall|i: int| 0 <= i < m.gauges.len() ==> !(#[trigger] m.gauges[i]).0.contains('\n'),
    ensures
        ({
            let s = operation_stats(m.operations.of(t));
            lines_headed(prometheus_text(m, uptime), label(k, t)) == (if is_of_latency(k) && s.count
                == 0 {
                Seq::empty()
            } else {
                seq![label(k, t) + text::decimal(metric_value(k, s))]
            })
        }),
{
    let head = label(k, t);
    metric_names();
    assert(is_operation_head(head));
    let all = all_operations();
    all_operations_lists_each_once(t);
    let s = operation_stats(m.operations.of(t));
    let own = own_lines(t, s, k, t);
    let line = Seq::<char>::empty().push('\n');
    let gap = if m.counters.len() > 0 {
        "\n"@
    } else {
        Seq::empty()
    };
    server_blocks_add_nothing(m, uptime, head);
    operation_blocks_add(all, m.operations, k, t);
    own_lines_once(all, m.operations, k, t);
    heading_adds_nothing(head);
    state_lines_add_nothing(m.fsm_states, head);
    other_lines_add_nothing(Seq::empty(), line, head);
    reveal_strlit("\n");
    assert("\n"@ =~= line);
    custom_lines_add_nothing("ldap_custom_counter"@, m.counters, head);
    custom_lines_add_nothing("ldap_custom_gauge"@, m.gauges, head);
    adds_nothing(head);
    second_of_eight_adds(
        server_blocks(m, uptime),
        operation_blocks(all, m.operations),
        "# HELP ldap_fsm_states FSM state distribution\n# TYPE ldap_fsm_states gauge\n"@,
        state_lines(m.fsm_states),
        line,
        custom_lines("ldap_custom_counter"@, m.counters),
        gap,
        custom_lines("ldap_custom_gauge"@, m.gauges),
        own,
        head,
    );
}

/// Of eight texts one after the other only the second adds lines: those are the
/// lines of the whole.
proof fn second_of_eight_adds(
    a: Seq<char>,
    b: Seq<char>,
    c: Seq<char>,
    d: Seq<char>,
    e: Seq<char>,
    f: Seq<char>,
    g: Seq<char>,
    h: Seq<char>,
    own: Seq<Seq<char>>,
    head: Seq<char>,
)
    requires
        head.len() > 0,
        adds(a, head, Seq::empty()),
        adds(b, head, own),
        adds(c, head, Seq::empty()),
        adds(d, head, Seq::empty()),
        adds(e, head, Seq::empty()),
        adds(f, head, Seq::empty()),
        adds(g, head, Seq::empty()),
        adds(h, head, Seq::empty()),
    ensures
        lines_headed(a + b + c + d + e + f + g + h, head) == own,
{
    let none = Seq::<Seq<char>>::empty();
    assert(none + own =~= own);
    assert(own + none =~= own);
    adds_both(a, none, b, own, head);
    adds_both(a + b, own, c, none, head);
    adds_both(a + b + c, own, d, none, head);
    adds_both(a + b + c + d, own, e, none, head);
    adds_both(a + b + c + d + e, own, f, none, head);
    adds_both(a + b + c + d + e + f, own, g, none, head);
    adds_both(a + b + c + d + e + f + g, own, h, none, head);
    lines_of_the_whole(a + b + c + d + e + f + g + h, own, head);
}

proof fn lines_of_the_whole(whole: Seq<char>, own: Seq<Seq<char>>, head: Seq<char>)
    requires
        head.len() > 0,
        adds(whole, head, own),
    ensures
        lines_headed(whole, head) == own,
{
    reveal(adds);
    let none = Seq::<Seq<char>>::empty();
    assert(own + none =~= own);
    assert(whole + Seq::<char>::empty() =~= whole);
    assert(lines_headed(whole + Seq::<char>::empty(), head) == own + lines_headed(
        Seq::empty(),
        head,
    ));
    let last = text::split(Seq::<char>::empty(), '\n');
    assert(last.drop_first() =~= none);
    assert(headed(last.drop_first(), head) =~= none);
    assert(lines_headed(Seq::empty(), head) =~= none);
}

proof fn heading_adds_nothing(head: Seq<char>)
    requires
        is_operation_head(head),
    ensures
        adds(
            "# HELP ldap_fsm_states FSM state distribution\n# TYPE ldap_fsm_states gauge\n"@,
            head,
            Seq::empty(),
        ),
{
    let s = "# HELP ldap_fsm_states FSM state distribution\n# TYPE ldap_fsm_states gauge\n"@;
    reveal_strlit("# HELP ldap_fsm_states FSM state distribution\n# TYPE ldap_fsm_states gauge\n");
    let none = Seq::<Seq<char>>::empty();
    let l1 = s.take(45);
    let l2 = s.subrange(46, s.len() - 1);
    other_lines_add_nothing(l1, l1.push('\n'), head);
    other_lines_add_nothing(l2, l2.push('\n'), head);
    adds_both(l1.push('\n'), none, l2.push('\n'), none, head);
    assert(none + none =~= none);
    assert(s =~= l1.push('\n') + l2.push('\n'));
}

} // verus!
