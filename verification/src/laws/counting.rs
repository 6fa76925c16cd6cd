//! Laws of what the server counts, of the health that follows from it, and of
//! the operations that are under way.

use vstd::prelude::*;

use crate::fsm_runtime::{
    age_at, approaching_ids, dn_fault, first_value, operation_ended, values_of, OperationFsm,
    RegisteredOperation,
};
use crate::fsm_server::{accepted_counted, closed_counted, evictions_counted, failed_counted};
use crate::index::{left_part, right_part, split_at, NodeView};
use crate::laws::server::found_inside;
use crate::metrics::{
    all_operations, all_operations_lists_each_once, completion_counted, components_json,
    connection_accepted, connection_closed, connection_failed, connection_health, counter_value,
    custom_lines, details_json, failure_details, fsm_name, health_components, health_details,
    health_name, latency_of, metric_block, operation_completed, operation_health, operation_name,
    operation_started, operation_stats, overall_health, prometheus_text, quotes_escaped,
    resource_counted, resource_trouble, server_blocks, state_count, state_key, state_line,
    table_with_changes_one, ConnectionStats, FsmType, HealthStatus, MetricsView, OperationMetrics,
    OperationTable, OperationType, ResourceEventType, ResourceStats,
};
use crate::search_entries::{counter_raised, search_begun, search_begun_among, search_ended};
use crate::string_map;
use crate::text;

verus! {

// ---------------------------------------------------------------------------
// Counters
// ---------------------------------------------------------------------------

/// An accepted connection is one more of all and one more at hand, a closed
/// one is one less at hand and one more closed, and a failed one is one more
/// failed; nothing else of the connections changes.
pub proof fn connections_are_counted(c: ConnectionStats)
    requires
        c.total < u64::MAX,
        c.closed < u64::MAX,
        c.failed < u64::MAX,
        0 < c.active < usize::MAX,
    ensures
        connection_accepted(c).total == c.total + 1,
        connection_accepted(c).active == c.active + 1,
        connection_accepted(c).closed == c.closed,
        connection_accepted(c).failed == c.failed,
        connection_closed(c).total == c.total,
        connection_closed(c).active == c.active - 1,
        connection_closed(c).closed == c.closed + 1,
        connection_closed(c).failed == c.failed,
        connection_failed(c).total == c.total,
        connection_failed(c).active == c.active,
        connection_failed(c).closed == c.closed,
        connection_failed(c).failed == c.failed + 1,
{
}

/// The number of events of that kind.
pub open spec fn events_of(s: ResourceStats, e: ResourceEventType) -> u64 {
    match e {
        ResourceEventType::ConnectionRejected => s.connection_rejections,
        ResourceEventType::OperationRejected => s.operation_rejections,
        ResourceEventType::MemoryRejected => s.memory_rejections,
        ResourceEventType::RateLimitBlocked => s.rate_limit_blocks,
        ResourceEventType::RateLimitAllowed => s.rate_limit_allows,
        ResourceEventType::IdleConnectionEvicted => s.idle_connection_evictions,
    }
}

/// An event at the limits of the resources is counted as one of its kind, and
/// as none of another.
pub proof fn events_are_counted(s: ResourceStats, e: ResourceEventType, other: ResourceEventType)
    requires
        events_of(s, e) < u64::MAX,
    ensures
        events_of(resource_counted(s, e), e) == events_of(s, e) + 1,
        other != e ==> events_of(resource_counted(s, e), other) == events_of(s, other),
{
}

/// A begun operation is one more of all and one more at hand; an ended one is
/// one less at hand, one more that succeeded or that failed, and adds its
/// latency to the sum.
pub proof fn operations_are_counted(m: OperationMetrics, latency_ns: u64, success: bool)
    requires
        m.count < u64::MAX,
        m.success < u64::MAX,
        m.failures < u64::MAX,
        0 < m.active < usize::MAX,
        m.total_latency_ns + latency_ns <= u64::MAX,
    ensures
        ({
            let began = operation_started(m);
            let ended = operation_completed(m, latency_ns, success);
            &&& began.count == m.count + 1
            &&& began.active == m.active + 1
            &&& began.success == m.success
            &&& began.failures == m.failures
            &&& began.total_latency_ns == m.total_latency_ns
            &&& began.min_latency_ns == m.min_latency_ns
            &&& began.max_latency_ns == m.max_latency_ns
            &&& ended.count == m.count
            &&& ended.active == m.active - 1
            &&& ended.success == m.success + (if success {
                1int
            } else {
                0int
            })
            &&& ended.failures == m.failures + (if success {
                0int
            } else {
                1int
            })
            &&& ended.total_latency_ns == m.total_latency_ns + latency_ns
        }),
{
}

/// What is told of an operation is what was counted, with the average latency
/// over all that have begun, rounded down, and nothing for a least latency
/// that was not seen.
pub proof fn statistics_are_what_was_counted(m: OperationMetrics)
    ensures
        ({
            let s = operation_stats(m);
            &&& s.count == m.count
            &&& s.success == m.success
            &&& s.failures == m.failures
            &&& s.active == m.active
            &&& s.max_latency_ns == m.max_latency_ns
            &&& m.count == 0 ==> s.avg_latency_ns == 0
            &&& m.count > 0 ==> s.avg_latency_ns * m.count <= m.total_latency_ns
                < s.avg_latency_ns * m.count + m.count
            &&& m.min_latency_ns < u64::MAX ==> s.min_latency_ns == m.min_latency_ns
            &&& m.min_latency_ns == u64::MAX ==> s.min_latency_ns == 0
        }),
{
    if m.count > 0 {
        let total = m.total_latency_ns as int;
        let count = m.count as int;
        vstd::arithmetic::div_mod::lemma_fundamental_div_mod(total, count);
        vstd::arithmetic::mul::lemma_mul_is_commutative(count, total / count);
    }
}

/// The end of an operation is counted for its kind and for no other, with its
/// span in nanoseconds.
pub proof fn ends_are_counted_for_their_kind(
    m: MetricsView,
    t: OperationType,
    other: OperationType,
    duration: nat,
    success: bool,
)
    requires
        duration <= u64::MAX,
    ensures
        completion_counted(m, t, duration, success).operations.of(t) == operation_completed(
            m.operations.of(t),
            duration as u64,
            success,
        ),
        other != t ==> completion_counted(m, t, duration, success).operations.of(other)
            == m.operations.of(other),
        completion_counted(m, t, duration, success).connections == m.connections,
        completion_counted(m, t, duration, success).resources == m.resources,
        completion_counted(m, t, duration, success).counters == m.counters,
        completion_counted(m, t, duration, success).gauges == m.gauges,
        completion_counted(m, t, duration, success).fsm_states == m.fsm_states,
{
    table_with_changes_one(
        m.operations,
        t,
        operation_completed(m.operations.of(t), latency_of(duration), success),
        t,
    );
    table_with_changes_one(
        m.operations,
        t,
        operation_completed(m.operations.of(t), latency_of(duration), success),
        other,
    );
    assert(duration % 0x1_0000_0000_0000_0000 == duration);
}

/// A counter that is raised grows by just that, and no other changes.
pub proof fn counters_are_raised(m: MetricsView, name: Seq<char>, by: u64, other: Seq<char>)
    requires
        counter_value(m.counters, name) + by <= u64::MAX,
    ensures
        counter_value(counter_raised(m, name, by).counters, name) == counter_value(m.counters, name)
            + by,
        other != name ==> counter_value(counter_raised(m, name, by).counters, other)
            == counter_value(m.counters, other),
        counter_raised(m, name, by).operations == m.operations,
        counter_raised(m, name, by).connections == m.connections,
        counter_raised(m, name, by).fsm_states == m.fsm_states,
{
    string_map::lookup_put(
        m.counters,
        name,
        crate::metrics::wrapped_sum(counter_value(m.counters, name), by),
        name,
    );
    string_map::lookup_put(
        m.counters,
        name,
        crate::metrics::wrapped_sum(counter_value(m.counters, name), by),
        other,
    );
}

/// A search that begins is one more search at hand and one more state of
/// searching; one that ends is one less, in the state of its end, with the
/// number of entries that it sent.
pub proof fn searches_are_counted(
    m: MetricsView,
    sent: u64,
    elapsed: nat,
    success: bool,
    other: OperationType,
)
    requires
        other != OperationType::Search,
    ensures
        search_begun(m).operations.of(OperationType::Search) == operation_started(
            m.operations.of(OperationType::Search),
        ),
        search_begun(m).operations.of(other) == m.operations.of(other),
        state_count(m.fsm_states, state_key(FsmType::Search, "searching"@)) < usize::MAX
            ==> state_count(
            search_begun(m).fsm_states,
            state_key(FsmType::Search, "searching"@),
        ) == state_count(m.fsm_states, state_key(FsmType::Search, "searching"@)) + 1,
        search_ended(m, sent, elapsed, success).operations.of(OperationType::Search)
            == operation_completed(
            m.operations.of(OperationType::Search),
            latency_of(elapsed),
            success,
        ),
        search_ended(m, sent, elapsed, success).operations.of(other) == m.operations.of(other),
        counter_value(
            search_ended(m, sent, elapsed, success).gauges,
            "ldap_search_entries_sent"@,
        ) == sent,
        search_begun_among(m, sent).operations == search_begun(m).operations,
{
    let s = state_key(FsmType::Search, "searching"@);
    string_map::lookup_put(
        m.fsm_states,
        s,
        crate::metrics::one_more(state_count(m.fsm_states, s)),
        s,
    );
    string_map::lookup_put(m.gauges, "ldap_search_entries_sent"@, sent, "ldap_search_entries_sent"@);
}

/// The state of a connection is counted with the connection: as protected or
/// not where it is accepted, as closed, or as failed.
pub proof fn states_of_connections_are_counted(m: MetricsView, secure: bool)
    ensures
        accepted_counted(m, secure).connections == connection_accepted(m.connections),
        closed_counted(m).connections == connection_closed(m.connections),
        failed_counted(m).connections == connection_failed(m.connections),
        accepted_counted(m, secure).operations == m.operations,
        closed_counted(m).operations == m.operations,
        failed_counted(m).operations == m.operations,
        ({
            let state = state_key(
                FsmType::Connection,
                if secure {
                    "secure"@
                } else {
                    "connected"@
                },
            );
            state_count(m.fsm_states, state) < usize::MAX ==> state_count(
                accepted_counted(m, secure).fsm_states,
                state,
            ) == state_count(m.fsm_states, state) + 1
        }),
        ({
            let state = state_key(FsmType::Connection, "closed"@);
            state_count(m.fsm_states, state) < usize::MAX ==> state_count(
                closed_counted(m).fsm_states,
                state,
            ) == state_count(m.fsm_states, state) + 1
        }),
        ({
            let state = state_key(FsmType::Connection, "error"@);
            state_count(m.fsm_states, state) < usize::MAX ==> state_count(
                failed_counted(m).fsm_states,
                state,
            ) == state_count(m.fsm_states, state) + 1
        }),
{
    let a = state_key(
        FsmType::Connection,
        if secure {
            "secure"@
        } else {
            "connected"@
        },
    );
    let c = state_key(FsmType::Connection, "closed"@);
    let e = state_key(FsmType::Connection, "error"@);
    string_map::lookup_put(
        m.fsm_states,
        a,
        crate::metrics::one_more(state_count(m.fsm_states, a)),
        a,
    );
    string_map::lookup_put(
        m.fsm_states,
        c,
        crate::metrics::one_more(state_count(m.fsm_states, c)),
        c,
    );
    string_map::lookup_put(
        m.fsm_states,
        e,
        crate::metrics::one_more(state_count(m.fsm_states, e)),
        e,
    );
}

/// So many connections that were closed for being idle are so many events.
pub proof fn idle_connections_are_counted(m: MetricsView, n: nat)
    requires
        m.resources.idle_connection_evictions + n <= u64::MAX,
    ensures
        evictions_counted(m, n).resources.idle_connection_evictions
            == m.resources.idle_connection_evictions + n,
        evictions_counted(m, n).connections == m.connections,
        evictions_counted(m, n).operations == m.operations,
        evictions_counted(m, n).resources.connection_rejections
            == m.resources.connection_rejections,
    decreases n,
{
    if n > 0 {
        idle_connections_are_counted(m, (n - 1) as nat);
    }
}

/// No two kinds of operations have the same name.
pub proof fn operations_have_their_names(a: OperationType, b: OperationType)
    ensures
        operation_name(a) == operation_name(b) <==> a == b,
{
    reveal_strlit("bind");
    reveal_strlit("unbind");
    reveal_strlit("search");
    reveal_strlit("modify");
    reveal_strlit("add");
    reveal_strlit("delete");
    reveal_strlit("modifydn");
    reveal_strlit("compare");
    reveal_strlit("extended");
    reveal_strlit("abandon");
    assert("unbind"@[0] == 'u' && "search"@[0] == 's' && "modify"@[0] == 'm' && "delete"@[0]
        == 'd');
    assert("modifydn"@[0] == 'm' && "extended"@[0] == 'e');
    assert("compare"@[0] == 'c' && "abandon"@[0] == 'a');
    assert("bind"@.len() == 4 && "unbind"@.len() == 6 && "search"@.len() == 6 && "modify"@.len()
        == 6 && "add"@.len() == 3 && "delete"@.len() == 6 && "modifydn"@.len() == 8
        && "compare"@.len() == 7 && "extended"@.len() == 8 && "abandon"@.len() == 7);
}

// ---------------------------------------------------------------------------
// Health
// ---------------------------------------------------------------------------

/// The operations are troubled exactly where one of any kind has failed, and
/// the connections where there was neither a connection nor an operation; the
/// server is troubled where one of the two is.
pub proof fn health_follows_from_the_counts(m: MetricsView)
    ensures
        operation_health(m.operations) == HealthStatus::Degraded <==> exists|t: OperationType|
            #[trigger] m.operations.of(t).failures > 0,
        operation_health(m.operations) == HealthStatus::Healthy <==> forall|t: OperationType|
            #[trigger] m.operations.of(t).failures == 0,
        connection_health(m) == HealthStatus::Healthy <==> m.connections.active > 0
            || m.connections.total > 0 || exists|t: OperationType|
            #[trigger] m.operations.of(t).count > 0,
        connection_health(m) != HealthStatus::Healthy <==> connection_health(m)
            == HealthStatus::Degraded,
        overall_health(m) == HealthStatus::Healthy <==> operation_health(m.operations)
            == HealthStatus::Healthy && connection_health(m) == HealthStatus::Healthy,
        overall_health(m) == HealthStatus::Degraded <==> operation_health(m.operations)
            == HealthStatus::Degraded || connection_health(m) == HealthStatus::Degraded,
        health_components(m).len() == 2,
        string_map::lookup(health_components(m), "connections"@) == Some(connection_health(m)),
        string_map::lookup(health_components(m), "operations"@) == Some(
            operation_health(m.operations),
        ),
{
    let ops = all_operations();
    if exists|t: OperationType| #[trigger] m.operations.of(t).failures > 0 {
        let t = choose|t: OperationType| #[trigger] m.operations.of(t).failures > 0;
        all_operations_lists_each_once(t);
        let i = choose|i: int| 0 <= i < ops.len() && ops[i] == t;
        assert(m.operations.of(ops[i]).failures > 0);
    }
    if exists|t: OperationType| #[trigger] m.operations.of(t).count > 0 {
        let t = choose|t: OperationType| #[trigger] m.operations.of(t).count > 0;
        all_operations_lists_each_once(t);
        let i = choose|i: int| 0 <= i < ops.len() && ops[i] == t;
        assert(m.operations.of(ops[i]).count > 0);
    }
    reveal_strlit("connections");
    reveal_strlit("operations");
    assert("connections"@.len() == 11 && "operations"@.len() == 10);
    reveal_with_fuel(string_map::lookup, 3);
    assert(health_components(m).drop_first()[0] == ("operations"@, operation_health(m.operations)));
}

/// Each kind of operation that has failed is told with the number of its
/// failures, in their order, and no other.
pub proof fn failures_are_told(ops: Seq<OperationType>, table: OperationTable)
    ensures
        failure_details(ops, table) == ops.filter(
            |t: OperationType| table.of(t).failures > 0,
        ).map_values(
            |t: OperationType|
                operation_name(t) + " operation failures: "@ + text::decimal(
                    table.of(t).failures as nat,
                ),
        ),
    decreases ops.len(),
{
    reveal(Seq::filter);
    let failed = |t: OperationType| table.of(t).failures > 0;
    let told = |t: OperationType|
        operation_name(t) + " operation failures: "@ + text::decimal(table.of(t).failures as nat);
    if ops.len() > 0 {
        failures_are_told(ops.drop_last(), table);
        assert(ops.filter(failed).map_values(told) =~= (if failed(ops.last()) {
            ops.drop_last().filter(failed).map_values(told).push(told(ops.last()))
        } else {
            ops.drop_last().filter(failed).map_values(told)
        }));
    } else {
        assert(ops.filter(failed).map_values(told) =~= Seq::empty());
    }
}

/// Troubles that happened have their line in the details: failed connections,
/// events at the limits of the resources other than allowed requests, and
/// failed operations.
pub proof fn troubles_are_told(m: MetricsView)
    ensures
        resource_trouble(m.resources) <==> events_of(
            m.resources,
            ResourceEventType::ConnectionRejected,
        ) > 0 || events_of(m.resources, ResourceEventType::OperationRejected) > 0 || events_of(
            m.resources,
            ResourceEventType::MemoryRejected,
        ) > 0 || events_of(m.resources, ResourceEventType::RateLimitBlocked) > 0 || events_of(
            m.resources,
            ResourceEventType::IdleConnectionEvicted,
        ) > 0,
        health_details(m).len() == failure_details(all_operations(), m.operations).len() + (
        if m.connections.failed > 0 {
            1nat
        } else {
            0nat
        }) + (if resource_trouble(m.resources) {
            1nat
        } else {
            0nat
        }),
        m.connections.failed > 0 ==> health_details(m)[0] == "Failed connections: "@
            + text::decimal(m.connections.failed as nat),
{
}

/// A quotation mark in a text that is told is escaped, and nothing else of it
/// changes.
pub proof fn quotation_marks_are_escaped(s: Seq<char>, c: char)
    ensures
        c != '"' ==> quotes_escaped(s.push(c)) == quotes_escaped(s).push(c),
        quotes_escaped(s.push('"')) == quotes_escaped(s) + seq!['\\', '"'],
        quotes_escaped(Seq::<char>::empty()).len() == 0,
{
    assert(s.push(c).drop_last() =~= s);
    assert(s.push('"').drop_last() =~= s);
    assert(quotes_escaped(s).push('\\').push('"') =~= quotes_escaped(s) + seq!['\\', '"']);
}

// ---------------------------------------------------------------------------
// What is told of the counts
// ---------------------------------------------------------------------------

proof fn value_of_block(name: Seq<char>, help: Seq<char>, kind: Seq<char>, value: nat) -> (r: (
    Seq<char>,
    Seq<char>,
))
    ensures
        metric_block(name, help, kind, value) == r.0 + ("\n"@ + name + " "@ + text::decimal(value)
            + "\n"@) + r.1,
{
    reveal_strlit("\n");
    reveal_strlit("\n\n");
    let before = "# HELP "@ + name + " "@ + help + "\n# TYPE "@ + name + " "@ + kind;
    assert("\n\n"@ =~= "\n"@ + "\n"@);
    assert(metric_block(name, help, kind, value) =~= before + ("\n"@ + name + " "@ + text::decimal(
        value,
    ) + "\n"@) + "\n"@);
    (before, "\n"@)
}

/// A number that is told: its name, what it is, of which kind it is, and its
/// value.
type Told = (Seq<char>, Seq<char>, Seq<char>, nat);

spec fn blocks_of(list: Seq<Told>) -> Seq<char>
    decreases list.len(),
{
    if list.len() == 0 {
        Seq::empty()
    } else {
        blocks_of(list.drop_last()) + metric_block(
            list.last().0,
            list.last().1,
            list.last().2,
            list.last().3,
        )
    }
}

proof fn one_more_block(list: Seq<Told>, t: Told)
    ensures
        blocks_of(list.push(t)) == blocks_of(list) + metric_block(t.0, t.1, t.2, t.3),
{
    assert(list.push(t).drop_last() =~= list);
}

spec fn value_line(name: Seq<char>, value: nat) -> Seq<char> {
    "\n"@ + name + " "@ + text::decimal(value) + "\n"@
}

proof fn block_within(list: Seq<Told>, i: int) -> (r: (Seq<char>, Seq<char>))
    requires
        0 <= i < list.len(),
    ensures
        blocks_of(list) == r.0 + value_line(list[i].0, list[i].3) + r.1,
    decreases list.len(),
{
    let front = list.drop_last();
    let last = list.last();
    let block = metric_block(last.0, last.1, last.2, last.3);
    let line = value_line(list[i].0, list[i].3);
    if i < front.len() {
        let r = block_within(front, i);
        assert(r.0 + line + r.1 + block =~= r.0 + line + (r.1 + block));
        (r.0, r.1 + block)
    } else {
        let r = value_of_block(last.0, last.1, last.2, last.3);
        let before = blocks_of(front);
        assert(before + (r.0 + line + r.1) =~= (before + r.0) + line + r.1);
        (before + r.0, r.1)
    }
}

spec fn server_list(m: MetricsView, uptime: u64) -> Seq<Told> {
    let t1 = (
        "ldap_server_uptime_seconds"@,
        "Server uptime in seconds"@,
        "gauge"@,
        uptime as nat,
    );
    let t2 = (
        "ldap_connections_total"@,
        "Total number of connections"@,
        "counter"@,
        m.connections.total as nat,
    );
    let t3 = (
        "ldap_connections_active"@,
        "Currently active connections"@,
        "gauge"@,
        m.connections.active as nat,
    );
    let t4 = (
        "ldap_connections_closed"@,
        "Total closed connections"@,
        "counter"@,
        m.connections.closed as nat,
    );
    let t5 = (
        "ldap_connections_failed"@,
        "Total failed connection attempts"@,
        "counter"@,
        m.connections.failed as nat,
    );
    let t6 = (
        "ldap_resource_connection_rejections_total"@,
        "Connection rejections due to resource limits"@,
        "counter"@,
        m.resources.connection_rejections as nat,
    );
    let t7 = (
        "ldap_resource_operation_rejections_total"@,
        "Operation rejections due to resource limits"@,
        "counter"@,
        m.resources.operation_rejections as nat,
    );
    let t8 = (
        "ldap_resource_memory_rejections_total"@,
        "Memory rejections due to resource limits"@,
        "counter"@,
        m.resources.memory_rejections as nat,
    );
    let t9 = (
        "ldap_resource_rate_limit_blocks_total"@,
        "Requests blocked by rate limiting"@,
        "counter"@,
        m.resources.rate_limit_blocks as nat,
    );
    let t10 = (
        "ldap_resource_rate_limit_allows_total"@,
        "Requests allowed by rate limiting"@,
        "counter"@,
        m.resources.rate_limit_allows as nat,
    );
    let t11 = (
        "ldap_resource_idle_connection_evictions_total"@,
        "Idle connections evicted by cleanup"@,
        "counter"@,
        m.resources.idle_connection_evictions as nat,
    );
    let t12 = (
        "ldap_auth_cache_capacity"@,
        "Configured authentication credential cache capacity"@,
        "gauge"@,
        m.auth_cache.capacity as nat,
    );
    let t13 = (
        "ldap_auth_cache_entries"@,
        "Current authentication credential cache entries"@,
        "gauge"@,
        m.auth_cache.entries as nat,
    );
    let t14 = (
        "ldap_auth_cache_hits_total"@,
        "Authentication credential cache hits"@,
        "counter"@,
        m.auth_cache.hits as nat,
    );
    let t15 = (
        "ldap_auth_cache_misses_total"@,
        "Authentication credential cache misses"@,
        "counter"@,
        m.auth_cache.misses as nat,
    );
    let t16 = (
        "ldap_auth_cache_evictions_total"@,
        "Authentication credential cache evictions"@,
        "counter"@,
        m.auth_cache.evictions as nat,
    );
    let l0 = Seq::<Told>::empty();
    let l1 = l0.push(t1);
    let l2 = l1.push(t2);
    let l3 = l2.push(t3);
    let l4 = l3.push(t4);
    let l5 = l4.push(t5);
    let l6 = l5.push(t6);
    let l7 = l6.push(t7);
    let l8 = l7.push(t8);
    let l9 = l8.push(t9);
    let l10 = l9.push(t10);
    let l11 = l10.push(t11);
    let l12 = l11.push(t12);
    let l13 = l12.push(t13);
    let l14 = l13.push(t14);
    let l15 = l14.push(t15);
    let l16 = l15.push(t16);
    l16
}

#[verifier::rlimit(60)]
proof fn server_blocks_are_listed(m: MetricsView, uptime: u64)
    ensures
        server_blocks(m, uptime) == blocks_of(server_list(m, uptime)),
{
    let t1: Told = (
        "ldap_server_uptime_seconds"@,
        "Server uptime in seconds"@,
        "gauge"@,
        uptime as nat,
    );
    let t2: Told = (
        "ldap_connections_total"@,
        "Total number of connections"@,
        "counter"@,
        m.connections.total as nat,
    );
    let t3: Told = (
        "ldap_connections_active"@,
        "Currently active connections"@,
        "gauge"@,
        m.connections.active as nat,
    );
    let t4: Told = (
        "ldap_connections_closed"@,
        "Total closed connections"@,
        "counter"@,
        m.connections.closed as nat,
    );
    let t5: Told = (
        "ldap_connections_failed"@,
        "Total failed connection attempts"@,
        "counter"@,
        m.connections.failed as nat,
    );
    let t6: Told = (
        "ldap_resource_connection_rejections_total"@,
        "Connection rejections due to resource limits"@,
        "counter"@,
        m.resources.connection_rejections as nat,
    );
    let t7: Told = (
        "ldap_resource_operation_rejections_total"@,
        "Operation rejections due to resource limits"@,
        "counter"@,
        m.resources.operation_rejections as nat,
    );
    let t8: Told = (
        "ldap_resource_memory_rejections_total"@,
        "Memory rejections due to resource limits"@,
        "counter"@,
        m.resources.memory_rejections as nat,
    );
    let t9: Told = (
        "ldap_resource_rate_limit_blocks_total"@,
        "Requests blocked by rate limiting"@,
        "counter"@,
        m.resources.rate_limit_blocks as nat,
    );
    let t10: Told = (
        "ldap_resource_rate_limit_allows_total"@,
        "Requests allowed by rate limiting"@,
        "counter"@,
        m.resources.rate_limit_allows as nat,
    );
    let t11: Told = (
        "ldap_resource_idle_connection_evictions_total"@,
        "Idle connections evicted by cleanup"@,
        "counter"@,
        m.resources.idle_connection_evictions as nat,
    );
    let t12: Told = (
        "ldap_auth_cache_capacity"@,
        "Configured authentication credential cache capacity"@,
        "gauge"@,
        m.auth_cache.capacity as nat,
    );
    let t13: Told = (
        "ldap_auth_cache_entries"@,
        "Current authentication credential cache entries"@,
        "gauge"@,
        m.auth_cache.entries as nat,
    );
    let t14: Told = (
        "ldap_auth_cache_hits_total"@,
        "Authentication credential cache hits"@,
        "counter"@,
        m.auth_cache.hits as nat,
    );
    let t15: Told = (
        "ldap_auth_cache_misses_total"@,
        "Authentication credential cache misses"@,
        "counter"@,
        m.auth_cache.misses as nat,
    );
    let t16: Told = (
        "ldap_auth_cache_evictions_total"@,
        "Authentication credential cache evictions"@,
        "counter"@,
        m.auth_cache.evictions as nat,
    );
    let l0 = Seq::<Told>::empty();
    let l1 = l0.push(t1);
    let l2 = l1.push(t2);
    let l3 = l2.push(t3);
    let l4 = l3.push(t4);
    let l5 = l4.push(t5);
    let l6 = l5.push(t6);
    let l7 = l6.push(t7);
    let l8 = l7.push(t8);
    let l9 = l8.push(t9);
    let l10 = l9.push(t10);
    let l11 = l10.push(t11);
    let l12 = l11.push(t12);
    let l13 = l12.push(t13);
    let l14 = l13.push(t14);
    let l15 = l14.push(t15);
    let l16 = l15.push(t16);
    one_more_block(l0, t1);
    one_more_block(l1, t2);
    one_more_block(l2, t3);
    one_more_block(l3, t4);
    one_more_block(l4, t5);
    one_more_block(l5, t6);
    one_more_block(l6, t7);
    one_more_block(l7, t8);
    one_more_block(l8, t9);
    one_more_block(l9, t10);
    one_more_block(l10, t11);
    one_more_block(l11, t12);
    one_more_block(l12, t13);
    one_more_block(l13, t14);
    one_more_block(l14, t15);
    one_more_block(l15, t16);
    assert(blocks_of(l0) =~= Seq::<char>::empty());
}

/// The numbers that every server tells, with their names.
pub open spec fn numbers_told(m: MetricsView, uptime: u64) -> Seq<(Seq<char>, nat)> {
    seq![
        ("ldap_server_uptime_seconds"@, uptime as nat),
        ("ldap_connections_total"@, m.connections.total as nat),
        ("ldap_connections_active"@, m.connections.active as nat),
        ("ldap_connections_closed"@, m.connections.closed as nat),
        ("ldap_connections_failed"@, m.connections.failed as nat),
        ("ldap_resource_connection_rejections_total"@, m.resources.connection_rejections as nat),
        ("ldap_resource_operation_rejections_total"@, m.resources.operation_rejections as nat),
        ("ldap_resource_memory_rejections_total"@, m.resources.memory_rejections as nat),
        ("ldap_resource_rate_limit_blocks_total"@, m.resources.rate_limit_blocks as nat),
        ("ldap_resource_rate_limit_allows_total"@, m.resources.rate_limit_allows as nat),
        ("ldap_resource_idle_connection_evictions_total"@, m.resources.idle_connection_evictions as nat),
        ("ldap_auth_cache_capacity"@, m.auth_cache.capacity as nat),
        ("ldap_auth_cache_entries"@, m.auth_cache.entries as nat),
        ("ldap_auth_cache_hits_total"@, m.auth_cache.hits as nat),
        ("ldap_auth_cache_misses_total"@, m.auth_cache.misses as nat),
        ("ldap_auth_cache_evictions_total"@, m.auth_cache.evictions as nat),
    ]
}

/// Each number of connections, of events at the limits of the resources and of
/// the cache of credentials is told in a line of its own, under its name.
pub proof fn numbers_are_told(m: MetricsView, uptime: u64, i: int)
    requires
        0 <= i < numbers_told(m, uptime).len(),
    ensures
        text::contains_text(
            prometheus_text(m, uptime),
            "\n"@ + numbers_told(m, uptime)[i].0 + " "@ + text::decimal(numbers_told(m, uptime)[i].1)
                + "\n"@,
        ),
{
    let list = server_list(m, uptime);
    server_blocks_are_listed(m, uptime);
    listed_as_told(m, uptime, i);
    let rest = server_blocks_come_first(m, uptime);
    value_is_found(prometheus_text(m, uptime), server_blocks(m, uptime), rest, list, i);
}

proof fn listed_as_told(m: MetricsView, uptime: u64, i: int)
    requires
        0 <= i < numbers_told(m, uptime).len(),
    ensures
        server_list(m, uptime).len() == numbers_told(m, uptime).len(),
        server_list(m, uptime)[i].0 == numbers_told(m, uptime)[i].0,
        server_list(m, uptime)[i].3 == numbers_told(m, uptime)[i].1,
{
}

proof fn value_is_found(
    whole: Seq<char>,
    blocks: Seq<char>,
    rest: Seq<char>,
    list: Seq<Told>,
    i: int,
)
    requires
        whole == blocks + rest,
        blocks == blocks_of(list),
        0 <= i < list.len(),
    ensures
        text::contains_text(
            whole,
            "\n"@ + list[i].0 + " "@ + text::decimal(list[i].3) + "\n"@,
        ),
{
    let (left, right) = block_within(list, i);
    let line = value_line(list[i].0, list[i].3);
    line_within(Seq::empty(), blocks, rest, left, line, right);
    assert(whole =~= Seq::<char>::empty() + blocks + rest);
}

proof fn first_of_eight(
    a: Seq<char>,
    b: Seq<char>,
    c: Seq<char>,
    d: Seq<char>,
    e: Seq<char>,
    f: Seq<char>,
    g: Seq<char>,
    h: Seq<char>,
) -> (rest: Seq<char>)
    ensures
        a + b + c + d + e + f + g + h == a + rest,
{
    let rest = b + c + d + e + f + g + h;
    assert(a + b + c + d + e + f + g + h =~= a + rest);
    rest
}

proof fn server_blocks_come_first(m: MetricsView, uptime: u64) -> (rest: Seq<char>)
    ensures
        prometheus_text(m, uptime) == server_blocks(m, uptime) + rest,
{
    first_of_eight(
        server_blocks(m, uptime),
        crate::metrics::operation_blocks(all_operations(), m.operations),
        "# HELP ldap_fsm_states FSM state distribution\n# TYPE ldap_fsm_states gauge\n"@,
        crate::metrics::state_lines(m.fsm_states),
        "\n"@,
        custom_lines("ldap_custom_counter"@, m.counters),
        if m.counters.len() > 0 {
            "\n"@
        } else {
            Seq::empty()
        },
        custom_lines("ldap_custom_gauge"@, m.gauges),
    )
}

proof fn custom_line_within(metric: Seq<char>, values: Seq<(Seq<char>, u64)>, i: int) -> (r: (
    Seq<char>,
    Seq<char>,
))
    requires
        0 <= i < values.len(),
    ensures
        custom_lines(metric, values) == r.0 + (metric + "{name=\""@ + values[i].0 + "\"} "@
            + text::decimal(values[i].1 as nat) + "\n"@) + r.1,
    decreases values.len(),
{
    let front = values.drop_last();
    let last = values.last();
    let line = metric + "{name=\""@ + last.0 + "\"} "@ + text::decimal(last.1 as nat) + "\n"@;
    if i < front.len() {
        let r = custom_line_within(metric, front, i);
        let own = metric + "{name=\""@ + values[i].0 + "\"} "@ + text::decimal(values[i].1 as nat)
            + "\n"@;
        assert(custom_lines(metric, values) =~= r.0 + own + (r.1 + line));
        (r.0, r.1 + line)
    } else {
        assert(custom_lines(metric, values) =~= custom_lines(metric, front) + line + Seq::<
            char,
        >::empty());
        (custom_lines(metric, front), Seq::empty())
    }
}

/// Each counter and each gauge that was set is told under its name, with its
/// value.
pub proof fn counters_and_gauges_are_told(m: MetricsView, uptime: u64, i: int)
    ensures
        0 <= i < m.counters.len() ==> text::contains_text(
            prometheus_text(m, uptime),
            "ldap_custom_counter"@ + "{name=\""@ + m.counters[i].0 + "\"} "@ + text::decimal(
                m.counters[i].1 as nat,
            ) + "\n"@,
        ),
        0 <= i < m.gauges.len() ==> text::contains_text(
            prometheus_text(m, uptime),
            "ldap_custom_gauge"@ + "{name=\""@ + m.gauges[i].0 + "\"} "@ + text::decimal(
                m.gauges[i].1 as nat,
            ) + "\n"@,
        ),
{
    let b = crate::metrics::operation_blocks(all_operations(), m.operations);
    let c = "# HELP ldap_fsm_states FSM state distribution\n# TYPE ldap_fsm_states gauge\n"@;
    let d = crate::metrics::state_lines(m.fsm_states);
    let f = custom_lines("ldap_custom_counter"@, m.counters);
    let g = if m.counters.len() > 0 {
        "\n"@
    } else {
        Seq::empty()
    };
    let h = custom_lines("ldap_custom_gauge"@, m.gauges);
    if 0 <= i < m.counters.len() {
        let (left, right) = custom_line_within("ldap_custom_counter"@, m.counters, i);
        let line = "ldap_custom_counter"@ + "{name=\""@ + m.counters[i].0 + "\"} "@ + text::decimal(
            m.counters[i].1 as nat,
        ) + "\n"@;
        line_of_the_sixth(server_blocks(m, uptime), b, c, d, "\n"@, f, g, h, left, line, right);
    }
    if 0 <= i < m.gauges.len() {
        let (left, right) = custom_line_within("ldap_custom_gauge"@, m.gauges, i);
        let line = "ldap_custom_gauge"@ + "{name=\""@ + m.gauges[i].0 + "\"} "@ + text::decimal(
            m.gauges[i].1 as nat,
        ) + "\n"@;
        line_of_the_eighth(server_blocks(m, uptime), b, c, d, "\n"@, f, g, h, left, line, right);
    }
}

proof fn line_of_the_sixth(
    a: Seq<char>,
    b: Seq<char>,
    c: Seq<char>,
    d: Seq<char>,
    e: Seq<char>,
    f: Seq<char>,
    g: Seq<char>,
    h: Seq<char>,
    left: Seq<char>,
    line: Seq<char>,
    right: Seq<char>,
)
    requires
        f == left + line + right,
    ensures
        text::contains_text(a + b + c + d + e + f + g + h, line),
{
    let before = a + b + c + d + e;
    line_within(before, f, g + h, left, line, right);
    assert(before + f + g + h =~= before + f + (g + h));
}

proof fn line_of_the_eighth(
    a: Seq<char>,
    b: Seq<char>,
    c: Seq<char>,
    d: Seq<char>,
    e: Seq<char>,
    f: Seq<char>,
    g: Seq<char>,
    h: Seq<char>,
    left: Seq<char>,
    line: Seq<char>,
    right: Seq<char>,
)
    requires
        h == left + line + right,
    ensures
        text::contains_text(a + b + c + d + e + f + g + h, line),
{
    let before = a + b + c + d + e + f + g;
    line_within(before, h, Seq::empty(), left, line, right);
    assert(before + h + Seq::<char>::empty() =~= before + h);
}

proof fn line_within(
    before: Seq<char>,
    part: Seq<char>,
    after: Seq<char>,
    left: Seq<char>,
    line: Seq<char>,
    right: Seq<char>,
)
    requires
        part == left + line + right,
    ensures
        text::contains_text(before + part + after, line),
{
    found_inside(before + left, line, right + after);
    assert((before + left) + line + (right + after) =~= before + part + after);
}

// ---------------------------------------------------------------------------
// Operations under way
// ---------------------------------------------------------------------------

/// The operations that are told to be near their end are those that are not
/// too old and will be within the threshold, in their order.
pub proof fn operations_near_their_end_are_told(
    s: Seq<RegisteredOperation>,
    ages: Seq<nat>,
    threshold: nat,
    oldest: nat,
    i: int,
)
    requires
        ages.len() == s.len(),
        0 <= i < s.len(),
    ensures
        ages[i] <= oldest <= ages[i] + threshold ==> approaching_ids(
            s,
            ages,
            threshold,
            oldest,
        ).contains(s[i].info.message_id),
        approaching_ids(s, ages, threshold, oldest).contains(s[i].info.message_id) ==> exists|
            j: int,
        |
            0 <= j < s.len() && (#[trigger] s[j]).info.message_id == s[i].info.message_id && ages[j]
                <= oldest <= ages[j] + threshold,
{
    near_ends(s, ages, threshold, oldest, s[i].info.message_id);
}

proof fn near_ends(
    s: Seq<RegisteredOperation>,
    ages: Seq<nat>,
    threshold: nat,
    oldest: nat,
    id: i32,
)
    requires
        ages.len() >= s.len(),
    ensures
        approaching_ids(s, ages, threshold, oldest).contains(id) <==> exists|j: int|
            0 <= j < s.len() && (#[trigger] s[j]).info.message_id == id && ages[j] <= oldest
                <= ages[j] + threshold,
    decreases s.len(),
{
    if s.len() > 0 {
        let front = s.drop_last();
        let n = s.len() - 1;
        let before = approaching_ids(front, ages, threshold, oldest);
        let all = approaching_ids(s, ages, threshold, oldest);
        near_ends(front, ages, threshold, oldest, id);
        if all.contains(id) {
            let k = choose|k: int| 0 <= k < all.len() && all[k] == id;
            if k < before.len() {
                assert(before[k] == id);
                let j = choose|j: int|
                    0 <= j < front.len() && (#[trigger] front[j]).info.message_id == id && ages[j]
                        <= oldest <= ages[j] + threshold;
                assert(s[j] == front[j]);
            } else {
                assert(s[n].info.message_id == id);
            }
        }
        if exists|j: int|
            0 <= j < s.len() && (#[trigger] s[j]).info.message_id == id && ages[j] <= oldest
                <= ages[j] + threshold {
            let j = choose|j: int|
                0 <= j < s.len() && (#[trigger] s[j]).info.message_id == id && ages[j] <= oldest
                    <= ages[j] + threshold;
            if j < n {
                assert(front[j] == s[j]);
                let k = choose|k: int| 0 <= k < before.len() && before[k] == id;
                assert(all[k] == id);
            } else {
                assert(all[before.len() as int] == id);
            }
        }
    }
}

/// An operation is as old as the time since it was taken up, and has ended
/// where its machine has.
pub proof fn operations_have_their_age(o: RegisteredOperation, now: nat, op: OperationFsm)
    ensures
        now >= o.taken_at@ ==> age_at(o, now) + o.taken_at@ == now,
        now < o.taken_at@ ==> age_at(o, now) == 0,
        operation_ended(op) <==> match op {
            OperationFsm::Search(p) => p.terminal,
            OperationFsm::Write(p) => p.terminal,
            OperationFsm::Compare(p) => p.terminal,
            OperationFsm::Extended(p) => p.terminal,
        },
{
}

/// A name may be one of an entry exactly where something is left of it without
/// white space around it, with an equals sign in it.
pub proof fn names_are_checked(dn: Seq<char>)
    ensures
        dn_fault(dn) is None <==> text::trim(dn).contains('='),
{
    if text::trim(dn).contains('=') {
        let i = choose|i: int| 0 <= i < text::trim(dn).len() && text::trim(dn)[i] == '=';
        assert(text::trim(dn).len() > 0);
    }
}

/// The first value of an attribute is the first of its values, where it has
/// any.
pub proof fn first_values_are_first(attrs: crate::directory::AttributeSeq, name: Seq<char>)
    ensures
        values_of(attrs, name).len() > 0 ==> first_value(attrs, name) == Some(
            values_of(attrs, name)[0],
        ),
        values_of(attrs, name).len() == 0 ==> first_value(attrs, name) is None,
        string_map::lookup(attrs, name) matches Some(values) ==> values_of(attrs, name) == values,
{
}

// ---------------------------------------------------------------------------
// The tree of keys
// ---------------------------------------------------------------------------

/// A node that is split keeps its keys: those before the middle one go to the
/// left, those behind it to the right, and the middle one goes up with its
/// value. The left part keeps the other values, and the right part has none.
pub proof fn split_nodes_keep_their_keys(y: NodeView, t: int)
    requires
        0 < t <= y.keys.len(),
        t <= y.values.len(),
        !y.leaf ==> t <= y.children.len(),
    ensures
        left_part(y, t).keys + seq![y.keys[t - 1]] + right_part(y, t).keys == y.keys,
        left_part(y, t).values.len() == y.values.len() - 1,
        forall|i: int| 0 <= i < t - 1 ==> left_part(y, t).values[i] == y.values[i],
        forall|i: int|
            t - 1 <= i < y.values.len() - 1 ==> left_part(y, t).values[i] == y.values[i + 1],
        right_part(y, t).values.len() == 0,
        !y.leaf ==> left_part(y, t).children + right_part(y, t).children == y.children,
        left_part(y, t).leaf == y.leaf,
        right_part(y, t).leaf == y.leaf,
{
    assert(left_part(y, t).keys + seq![y.keys[t - 1]] + right_part(y, t).keys =~= y.keys);
    if !y.leaf {
        assert(left_part(y, t).children + right_part(y, t).children =~= y.children);
    }
}

/// The middle key of a split child, and its value, stand in the node between
/// the two parts, and the rest of the node stays.
pub proof fn splits_go_up(node: NodeView, i: int, t: int)
    requires
        crate::index::can_split(node, i, t),
    ensures
        ({
            let y = node.children[i]->0;
            let split = split_at(node, i, t);
            &&& split.keys.len() == node.keys.len() + 1
            &&& split.keys[i] == y.keys[t - 1]
            &&& split.values[i] == y.values[t - 1]
            &&& split.keys.remove(i) == node.keys
            &&& split.values.remove(i) == node.values
            &&& split.children.len() == node.children.len() + 1
            &&& split.children[i] == Some(left_part(y, t))
            &&& split.children[i + 1] == Some(right_part(y, t))
            &&& forall|j: int| 0 <= j < i ==> split.children[j] == node.children[j]
            &&& forall|j: int|
                i < j < node.children.len() ==> split.children[j + 1] == node.children[j]
        }),
{
    let split = split_at(node, i, t);
    assert(split.keys.remove(i) =~= node.keys);
    assert(split.values.remove(i) =~= node.values);
}

/// No two machines have the same name, so that none of their states is counted
/// for another.
pub proof fn machines_have_their_names(a: FsmType, b: FsmType)
    ensures
        fsm_name(a) == fsm_name(b) <==> a == b,
{
    reveal_strlit("connection");
    reveal_strlit("ber_decoder");
    reveal_strlit("auth");
    reveal_strlit("sasl");
    reveal_strlit("search");
    reveal_strlit("write");
    reveal_strlit("compare");
    reveal_strlit("extended_op");
    reveal_strlit("referral");
    reveal_strlit("replication_provider");
    reveal_strlit("replication_consumer");
    reveal_strlit("backend_txn");
    assert("connection"@.len() == 10 && "ber_decoder"@.len() == 11 && "auth"@.len() == 4
        && "sasl"@.len() == 4 && "search"@.len() == 6 && "write"@.len() == 5 && "compare"@.len()
        == 7 && "extended_op"@.len() == 11 && "referral"@.len() == 8
        && "replication_provider"@.len() == 20 && "replication_consumer"@.len() == 20
        && "backend_txn"@.len() == 11);
    assert("auth"@[0] == 'a' && "sasl"@[0] == 's');
    assert("ber_decoder"@[1] == 'e' && "extended_op"@[1] == 'x' && "backend_txn"@[1] == 'a');
    assert("replication_provider"@[12] == 'p' && "replication_consumer"@[12] == 'c');
}

/// The three states of health have their words.
pub proof fn health_has_its_words(a: HealthStatus, b: HealthStatus)
    ensures
        health_name(HealthStatus::Healthy) == "healthy"@,
        health_name(HealthStatus::Degraded) == "degraded"@,
        health_name(HealthStatus::Unhealthy) == "unhealthy"@,
        health_name(a) == health_name(b) <==> a == b,
{
    reveal_strlit("healthy");
    reveal_strlit("degraded");
    reveal_strlit("unhealthy");
    assert("healthy"@.len() == 7 && "degraded"@.len() == 8 && "unhealthy"@.len() == 9);
}

/// A health check that is told names each part with its state and each detail,
/// parted by commas.
pub proof fn health_is_told_part_by_part(
    cs: Seq<(Seq<char>, HealthStatus)>,
    c: (Seq<char>, HealthStatus),
    ds: Seq<Seq<char>>,
    d: Seq<char>,
)
    ensures
        cs.len() == 0 ==> components_json(cs.push(c)) == seq!['"'] + c.0 + seq!['"', ':', '"']
            + health_name(c.1) + seq!['"'],
        cs.len() > 0 ==> components_json(cs.push(c)) == components_json(cs) + seq![',', '"'] + c.0
            + seq!['"', ':', '"'] + health_name(c.1) + seq!['"'],
        components_json(Seq::<(Seq<char>, HealthStatus)>::empty()).len() == 0,
        ds.len() == 0 ==> details_json(ds.push(d)) == seq!['"'] + quotes_escaped(d) + seq!['"'],
        ds.len() > 0 ==> details_json(ds.push(d)) == details_json(ds) + seq![',', '"']
            + quotes_escaped(d) + seq!['"'],
        details_json(Seq::<Seq<char>>::empty()).len() == 0,
{
    reveal_strlit(",");
    reveal_strlit("\"");
    reveal_strlit("\":\"");
    assert(cs.push(c).drop_last() =~= cs);
    assert(ds.push(d).drop_last() =~= ds);
    let none = Seq::<char>::empty();
    if cs.len() == 0 {
        assert(components_json(cs) =~= none);
        assert(components_json(cs.push(c)) =~= seq!['"'] + c.0 + seq!['"', ':', '"'] + health_name(
            c.1,
        ) + seq!['"']);
    } else {
        assert(components_json(cs.push(c)) =~= components_json(cs) + seq![',', '"'] + c.0 + seq![
            '"',
            ':',
            '"',
        ] + health_name(c.1) + seq!['"']);
    }
    if ds.len() == 0 {
        assert(details_json(ds) =~= none);
        assert(details_json(ds.push(d)) =~= seq!['"'] + quotes_escaped(d) + seq!['"']);
    } else {
        assert(details_json(ds.push(d)) =~= details_json(ds) + seq![',', '"'] + quotes_escaped(d)
            + seq!['"']);
    }
}

/// The state of a machine is told under the names of both, with its number.
pub proof fn states_are_told(machine: FsmType, state: Seq<char>, count: usize)
    requires
        !state.contains(':'),
    ensures
        state_line(state_key(machine, state), count) == "ldap_fsm_states{fsm=\""@ + fsm_name(
            machine,
        ) + "\",state=\""@ + state + "\"} "@ + text::decimal(count as nat) + "\n"@,
{
    reveal_strlit("connection");
    reveal_strlit("ber_decoder");
    reveal_strlit("auth");
    reveal_strlit("sasl");
    reveal_strlit("search");
    reveal_strlit("write");
    reveal_strlit("compare");
    reveal_strlit("extended_op");
    reveal_strlit("referral");
    reveal_strlit("replication_provider");
    reveal_strlit("replication_consumer");
    reveal_strlit("backend_txn");
    reveal_strlit(":");
    let name = fsm_name(machine);
    let key = state_key(machine, state);
    let n = name.len() as int;
    assert(!name.contains(':'));
    assert(key[n] == ':');
    assert forall|j: int| 0 <= j < n implies key[j] != ':' by {
        assert(key[j] == name[j]);
        assert(name.contains(name[j]));
    }
    text::find_char_unique(key, ':', n);
    assert(key.take(n) =~= name);
    assert(key.skip(n + 1) =~= state);
    text::find_char_bounds(state, ':');
    assert(text::split(state, ':') =~= seq![state]);
    assert(text::split(key, ':') =~= seq![name, state]);
}

} // verus!
