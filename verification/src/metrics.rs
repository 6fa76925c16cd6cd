//! Counters of what the server does, their export as Prometheus text, and a
//! health check over them.

use std::time::{Instant, SystemTime};
use vstd::prelude::*;

use crate::clock;
use crate::clock::Duration;
use crate::string_map;
use crate::string_map::StringMap;
use crate::text;

verus! {

// ---------------------------------------------------------------------------
// Kinds of operations, machines and events
// ---------------------------------------------------------------------------

/// The LDAP operations that are counted.
#[derive(Debug, Clone, Copy, PartialEq, Eq, Hash, Structural)]
pub enum OperationType {
    Bind,
    Unbind,
    Search,
    Modify,
    Add,
    Delete,
    ModifyDN,
    Compare,
    Extended,
    Abandon,
}

/// The name of an operation.
pub open spec fn operation_name(t: OperationType) -> Seq<char> {
    match t {
        OperationType::Bind => "bind"@,
        OperationType::Unbind => "unbind"@,
        OperationType::Search => "search"@,
        OperationType::Modify => "modify"@,
        OperationType::Add => "add"@,
        OperationType::Delete => "delete"@,
        OperationType::ModifyDN => "modifydn"@,
        OperationType::Compare => "compare"@,
        OperationType::Extended => "extended"@,
        OperationType::Abandon => "abandon"@,
    }
}

/// Every operation, once.
pub open spec fn all_operations() -> Seq<OperationType> {
    seq![
        OperationType::Bind,
        OperationType::Unbind,
        OperationType::Search,
        OperationType::Modify,
        OperationType::Add,
        OperationType::Delete,
        OperationType::ModifyDN,
        OperationType::Compare,
        OperationType::Extended,
        OperationType::Abandon,
    ]
}

/// Each operation is in the list, at one place.
pub proof fn all_operations_lists_each_once(t: OperationType)
    ensures
        all_operations().contains(t),
        all_operations().no_duplicates(),
{
    let s = all_operations();
    assert(s[0] == OperationType::Bind && s[1] == OperationType::Unbind && s[2]
        == OperationType::Search && s[3] == OperationType::Modify && s[4] == OperationType::Add
        && s[5] == OperationType::Delete && s[6] == OperationType::ModifyDN && s[7]
        == OperationType::Compare && s[8] == OperationType::Extended && s[9]
        == OperationType::Abandon);
}

impl OperationType {
    /// The name of the operation.
    pub fn as_str(&self) -> (r: &'static str)
        ensures
            r@ == operation_name(*self),
    {
        match self {
            OperationType::Bind => "bind",
            OperationType::Unbind => "unbind",
            OperationType::Search => "search",
            OperationType::Modify => "modify",
            OperationType::Add => "add",
            OperationType::Delete => "delete",
            OperationType::ModifyDN => "modifydn",
            OperationType::Compare => "compare",
            OperationType::Extended => "extended",
            OperationType::Abandon => "abandon",
        }
    }

    /// Every operation.
    pub fn all() -> (r: Vec<OperationType>)
        ensures
            r@ == all_operations(),
    {
        let r = vec![
            OperationType::Bind,
            OperationType::Unbind,
            OperationType::Search,
            OperationType::Modify,
            OperationType::Add,
            OperationType::Delete,
            OperationType::ModifyDN,
            OperationType::Compare,
            OperationType::Extended,
            OperationType::Abandon,
        ];
        proof {
            assert(r@ =~= all_operations());
        }
        r
    }
}

/// The state machines whose states are counted.
#[derive(Debug, Clone, Copy, PartialEq, Eq, Hash, Structural)]
pub enum FsmType {
    Connection,
    BerDecoder,
    Auth,
    Sasl,
    Search,
    Write,
    Compare,
    ExtendedOp,
    Referral,
    ReplicationProvider,
    ReplicationConsumer,
    BackendTxn,
}

/// The name of a state machine.
pub open spec fn fsm_name(t: FsmType) -> Seq<char> {
    match t {
        FsmType::Connection => "connection"@,
        FsmType::BerDecoder => "ber_decoder"@,
        FsmType::Auth => "auth"@,
        FsmType::Sasl => "sasl"@,
        FsmType::Search => "search"@,
        FsmType::Write => "write"@,
        FsmType::Compare => "compare"@,
        FsmType::ExtendedOp => "extended_op"@,
        FsmType::Referral => "referral"@,
        FsmType::ReplicationProvider => "replication_provider"@,
        FsmType::ReplicationConsumer => "replication_consumer"@,
        FsmType::BackendTxn => "backend_txn"@,
    }
}

impl FsmType {
    /// The name of the state machine.
    pub fn as_str(&self) -> (r: &'static str)
        ensures
            r@ == fsm_name(*self),
    {
        match self {
            FsmType::Connection => "connection",
            FsmType::BerDecoder => "ber_decoder",
            FsmType::Auth => "auth",
            FsmType::Sasl => "sasl",
            FsmType::Search => "search",
            FsmType::Write => "write",
            FsmType::Compare => "compare",
            FsmType::ExtendedOp => "extended_op",
            FsmType::Referral => "referral",
            FsmType::ReplicationProvider => "replication_provider",
            FsmType::ReplicationConsumer => "replication_consumer",
            FsmType::BackendTxn => "backend_txn",
        }
    }
}

/// Events at the limits of the server's resources.
#[derive(Debug, Clone, Copy, PartialEq, Eq, Hash, Structural)]
pub enum ResourceEventType {
    ConnectionRejected,
    OperationRejected,
    MemoryRejected,
    RateLimitBlocked,
    RateLimitAllowed,
    IdleConnectionEvicted,
}

// ---------------------------------------------------------------------------
// Counters of operations
// ---------------------------------------------------------------------------

/// A counter one further; it starts over behind its largest value.
pub open spec fn bumped(n: u64) -> u64 {
    if n == u64::MAX {
        0
    } else {
        (n + 1) as u64
    }
}

/// A number of things at hand with one more.
pub open spec fn one_more(n: usize) -> usize {
    if n == usize::MAX {
        0
    } else {
        (n + 1) as usize
    }
}

/// A number of things at hand with one less.
pub open spec fn one_less(n: usize) -> usize {
    if n == 0 {
        usize::MAX
    } else {
        (n - 1) as usize
    }
}

/// The sum of two counters; it starts over behind the largest value.
pub open spec fn wrapped_sum(a: u64, b: u64) -> u64 {
    if a + b > u64::MAX {
        (a + b - 0x1_0000_0000_0000_0000) as u64
    } else {
        (a + b) as u64
    }
}

/// The counters of one operation. No latency below the largest value has been
/// seen while `min_latency_ns` is the largest value.
#[derive(Debug, Clone, Copy, PartialEq, Eq, Structural)]
pub struct OperationMetrics {
    pub count: u64,
    pub success: u64,
    pub failures: u64,
    pub total_latency_ns: u64,
    pub min_latency_ns: u64,
    pub max_latency_ns: u64,
    pub active: usize,
}

/// The counters before anything happened.
pub open spec fn fresh_operation() -> OperationMetrics {
    OperationMetrics {
        count: 0,
        success: 0,
        failures: 0,
        total_latency_ns: 0,
        min_latency_ns: u64::MAX,
        max_latency_ns: 0,
        active: 0,
    }
}

/// The counters after an operation has begun.
pub open spec fn operation_started(m: OperationMetrics) -> OperationMetrics {
    OperationMetrics { count: bumped(m.count), active: one_more(m.active), ..m }
}

/// The counters after an operation has ended.
pub open spec fn operation_completed(
    m: OperationMetrics,
    latency_ns: u64,
    success: bool,
) -> OperationMetrics {
    OperationMetrics {
        count: m.count,
        active: one_less(m.active),
        success: if success {
            bumped(m.success)
        } else {
            m.success
        },
        failures: if success {
            m.failures
        } else {
            bumped(m.failures)
        },
        total_latency_ns: wrapped_sum(m.total_latency_ns, latency_ns),
        min_latency_ns: if latency_ns < m.min_latency_ns {
            latency_ns
        } else {
            m.min_latency_ns
        },
        max_latency_ns: if latency_ns > m.max_latency_ns {
            latency_ns
        } else {
            m.max_latency_ns
        },
    }
}

/// The low 64 bits of a span in nanoseconds.
pub open spec fn latency_of(nanos: nat) -> u64 {
    (nanos % 0x1_0000_0000_0000_0000) as u64
}

/// Statistics of one operation.
#[derive(Debug, Clone, Copy, PartialEq, Eq, Structural)]
pub struct OperationStats {
    pub count: u64,
    pub success: u64,
    pub failures: u64,
    pub active: usize,
    pub avg_latency_ns: u64,
    pub min_latency_ns: u64,
    pub max_latency_ns: u64,
}

/// The statistics that the counters give: the average over the operations
/// begun, zero where there are none, and zero for a least latency that has
/// not been seen.
pub open spec fn operation_stats(m: OperationMetrics) -> OperationStats {
    OperationStats {
        count: m.count,
        success: m.success,
        failures: m.failures,
        active: m.active,
        avg_latency_ns: if m.count == 0 {
            0
        } else {
            m.total_latency_ns / m.count
        },
        min_latency_ns: if m.min_latency_ns == u64::MAX {
            0
        } else {
            m.min_latency_ns
        },
        max_latency_ns: m.max_latency_ns,
    }
}

fn bump(n: u64) -> (r: u64)
    ensures
        r == bumped(n),
{
    if n == u64::MAX {
        0
    } else {
        n + 1
    }
}

fn add_one(n: usize) -> (r: usize)
    ensures
        r == one_more(n),
{
    if n == usize::MAX {
        0
    } else {
        n + 1
    }
}

fn take_one(n: usize) -> (r: usize)
    ensures
        r == one_less(n),
{
    if n == 0 {
        usize::MAX
    } else {
        n - 1
    }
}

fn sum_wrapped(a: u64, b: u64) -> (r: u64)
    ensures
        r == wrapped_sum(a, b),
{
    if a > u64::MAX - b {
        a - (u64::MAX - b) - 1
    } else {
        a + b
    }
}

impl OperationMetrics {
    fn new() -> (r: Self)
        ensures
            r == fresh_operation(),
    {
        OperationMetrics {
            count: 0,
            success: 0,
            failures: 0,
            total_latency_ns: 0,
            min_latency_ns: u64::MAX,
            max_latency_ns: 0,
            active: 0,
        }
    }

    fn start_operation(&self) -> (r: Self)
        ensures
            r == operation_started(*self),
    {
        OperationMetrics { count: bump(self.count), active: add_one(self.active), ..*self }
    }

    fn complete_operation(&self, duration: Duration, success: bool) -> (r: Self)
        ensures
            r == operation_completed(*self, latency_of(duration@), success),
    {
        let nanos: u128 = duration.as_nanos();
        let latency_ns: u64 = (nanos % 0x1_0000_0000_0000_0000u128) as u64;
        OperationMetrics {
            count: self.count,
            active: take_one(self.active),
            success: if success {
                bump(self.success)
            } else {
                self.success
            },
            failures: if success {
                self.failures
            } else {
                bump(self.failures)
            },
            total_latency_ns: sum_wrapped(self.total_latency_ns, latency_ns),
            min_latency_ns: if latency_ns < self.min_latency_ns {
                latency_ns
            } else {
                self.min_latency_ns
            },
            max_latency_ns: if latency_ns > self.max_latency_ns {
                latency_ns
            } else {
                self.max_latency_ns
            },
        }
    }

    fn get_stats(&self) -> (r: OperationStats)
        ensures
            r == operation_stats(*self),
    {
        OperationStats {
            count: self.count,
            success: self.success,
            failures: self.failures,
            active: self.active,
            avg_latency_ns: if self.count == 0 {
                0
            } else {
                self.total_latency_ns / self.count
            },
            min_latency_ns: if self.min_latency_ns == u64::MAX {
                0
            } else {
                self.min_latency_ns
            },
            max_latency_ns: self.max_latency_ns,
        }
    }
}

/// The counters of every operation.
#[derive(Debug, Clone, Copy, PartialEq, Eq, Structural)]
pub struct OperationTable {
    pub bind: OperationMetrics,
    pub unbind: OperationMetrics,
    pub search: OperationMetrics,
    pub modify: OperationMetrics,
    pub add_entry: OperationMetrics,
    pub delete: OperationMetrics,
    pub modify_dn: OperationMetrics,
    pub compare: OperationMetrics,
    pub extended: OperationMetrics,
    pub abandon: OperationMetrics,
}

impl OperationTable {
    /// The counters of one operation.
    pub open spec fn of(self, t: OperationType) -> OperationMetrics {
        match t {
            OperationType::Bind => self.bind,
            OperationType::Unbind => self.unbind,
            OperationType::Search => self.search,
            OperationType::Modify => self.modify,
            OperationType::Add => self.add_entry,
            OperationType::Delete => self.delete,
            OperationType::ModifyDN => self.modify_dn,
            OperationType::Compare => self.compare,
            OperationType::Extended => self.extended,
            OperationType::Abandon => self.abandon,
        }
    }

    /// The table with the counters of one operation replaced.
    pub open spec fn with(self, t: OperationType, m: OperationMetrics) -> OperationTable {
        match t {
            OperationType::Bind => OperationTable { bind: m, ..self },
            OperationType::Unbind => OperationTable { unbind: m, ..self },
            OperationType::Search => OperationTable { search: m, ..self },
            OperationType::Modify => OperationTable { modify: m, ..self },
            OperationType::Add => OperationTable { add_entry: m, ..self },
            OperationType::Delete => OperationTable { delete: m, ..self },
            OperationType::ModifyDN => OperationTable { modify_dn: m, ..self },
            OperationType::Compare => OperationTable { compare: m, ..self },
            OperationType::Extended => OperationTable { extended: m, ..self },
            OperationType::Abandon => OperationTable { abandon: m, ..self },
        }
    }

    fn new() -> (r: Self)
        ensures
            forall|t: OperationType| #[trigger] r.of(t) == fresh_operation(),
    {
        OperationTable {
            bind: OperationMetrics::new(),
            unbind: OperationMetrics::new(),
            search: OperationMetrics::new(),
            modify: OperationMetrics::new(),
            add_entry: OperationMetrics::new(),
            delete: OperationMetrics::new(),
            modify_dn: OperationMetrics::new(),
            compare: OperationMetrics::new(),
            extended: OperationMetrics::new(),
            abandon: OperationMetrics::new(),
        }
    }

    fn get(&self, t: OperationType) -> (r: OperationMetrics)
        ensures
            r == self.of(t),
    {
        match t {
            OperationType::Bind => self.bind,
            OperationType::Unbind => self.unbind,
            OperationType::Search => self.search,
            OperationType::Modify => self.modify,
            OperationType::Add => self.add_entry,
            OperationType::Delete => self.delete,
            OperationType::ModifyDN => self.modify_dn,
            OperationType::Compare => self.compare,
            OperationType::Extended => self.extended,
            OperationType::Abandon => self.abandon,
        }
    }

    fn replace(&self, t: OperationType, m: OperationMetrics) -> (r: OperationTable)
        ensures
            r == self.with(t, m),
    {
        match t {
            OperationType::Bind => OperationTable { bind: m, ..*self },
            OperationType::Unbind => OperationTable { unbind: m, ..*self },
            OperationType::Search => OperationTable { search: m, ..*self },
            OperationType::Modify => OperationTable { modify: m, ..*self },
            OperationType::Add => OperationTable { add_entry: m, ..*self },
            OperationType::Delete => OperationTable { delete: m, ..*self },
            OperationType::ModifyDN => OperationTable { modify_dn: m, ..*self },
            OperationType::Compare => OperationTable { compare: m, ..*self },
            OperationType::Extended => OperationTable { extended: m, ..*self },
            OperationType::Abandon => OperationTable { abandon: m, ..*self },
        }
    }
}

/// Replacing the counters of one operation changes those and no others.
pub proof fn table_with_changes_one(
    table: OperationTable,
    t: OperationType,
    m: OperationMetrics,
    other: OperationType,
)
    ensures
        table.with(t, m).of(other) == (if other == t {
            m
        } else {
            table.of(other)
        }),
{
}

// ---------------------------------------------------------------------------
// Counters of connections, resources and the credential cache
// ---------------------------------------------------------------------------

/// Statistics of connections.
#[derive(Debug, Clone, Copy, PartialEq, Eq, Structural)]
pub struct ConnectionStats {
    pub total: u64,
    pub active: usize,
    pub closed: u64,
    pub failed: u64,
}

/// Statistics of resource events.
#[derive(Debug, Clone, Copy, PartialEq, Eq, Structural)]
pub struct ResourceStats {
    pub connection_rejections: u64,
    pub operation_rejections: u64,
    pub memory_rejections: u64,
    pub rate_limit_blocks: u64,
    pub rate_limit_allows: u64,
    pub idle_connection_evictions: u64,
}

/// Statistics of the credential cache.
#[derive(Debug, Clone, Copy, PartialEq, Eq, Structural)]
pub struct AuthCacheStats {
    pub capacity: u64,
    pub entries: u64,
    pub hits: u64,
    pub misses: u64,
    pub evictions: u64,
}

/// The connections after one has been accepted.
pub open spec fn connection_accepted(c: ConnectionStats) -> ConnectionStats {
    ConnectionStats { total: bumped(c.total), active: one_more(c.active), ..c }
}

/// The connections after one has been closed.
pub open spec fn connection_closed(c: ConnectionStats) -> ConnectionStats {
    ConnectionStats { active: one_less(c.active), closed: bumped(c.closed), ..c }
}

/// The connections after an attempt has failed.
pub open spec fn connection_failed(c: ConnectionStats) -> ConnectionStats {
    ConnectionStats { failed: bumped(c.failed), ..c }
}

/// The resource events with one more.
pub open spec fn resource_counted(s: ResourceStats, event: ResourceEventType) -> ResourceStats {
    match event {
        ResourceEventType::ConnectionRejected => ResourceStats {
            connection_rejections: bumped(s.connection_rejections),
            ..s
        },
        ResourceEventType::OperationRejected => ResourceStats {
            operation_rejections: bumped(s.operation_rejections),
            ..s
        },
        ResourceEventType::MemoryRejected => ResourceStats {
            memory_rejections: bumped(s.memory_rejections),
            ..s
        },
        ResourceEventType::RateLimitBlocked => ResourceStats {
            rate_limit_blocks: bumped(s.rate_limit_blocks),
            ..s
        },
        ResourceEventType::RateLimitAllowed => ResourceStats {
            rate_limit_allows: bumped(s.rate_limit_allows),
            ..s
        },
        ResourceEventType::IdleConnectionEvicted => ResourceStats {
            idle_connection_evictions: bumped(s.idle_connection_evictions),
            ..s
        },
    }
}

impl ConnectionStats {
    fn new() -> (r: Self)
        ensures
            r == (ConnectionStats { total: 0, active: 0, closed: 0, failed: 0 }),
    {
        ConnectionStats { total: 0, active: 0, closed: 0, failed: 0 }
    }
}

/// No resource event.
pub open spec fn no_resource_events() -> ResourceStats {
    ResourceStats {
        connection_rejections: 0,
        operation_rejections: 0,
        memory_rejections: 0,
        rate_limit_blocks: 0,
        rate_limit_allows: 0,
        idle_connection_evictions: 0,
    }
}

impl ResourceStats {
    fn new() -> (r: Self)
        ensures
            r == no_resource_events(),
    {
        ResourceStats {
            connection_rejections: 0,
            operation_rejections: 0,
            memory_rejections: 0,
            rate_limit_blocks: 0,
            rate_limit_allows: 0,
            idle_connection_evictions: 0,
        }
    }

    fn record_event(&self, event: ResourceEventType) -> (r: Self)
        ensures
            r == resource_counted(*self, event),
    {
        match event {
            ResourceEventType::ConnectionRejected => ResourceStats {
                connection_rejections: bump(self.connection_rejections),
                ..*self
            },
            ResourceEventType::OperationRejected => ResourceStats {
                operation_rejections: bump(self.operation_rejections),
                ..*self
            },
            ResourceEventType::MemoryRejected => ResourceStats {
                memory_rejections: bump(self.memory_rejections),
                ..*self
            },
            ResourceEventType::RateLimitBlocked => ResourceStats {
                rate_limit_blocks: bump(self.rate_limit_blocks),
                ..*self
            },
            ResourceEventType::RateLimitAllowed => ResourceStats {
                rate_limit_allows: bump(self.rate_limit_allows),
                ..*self
            },
            ResourceEventType::IdleConnectionEvicted => ResourceStats {
                idle_connection_evictions: bump(self.idle_connection_evictions),
                ..*self
            },
        }
    }
}

// ---------------------------------------------------------------------------
// Health
// ---------------------------------------------------------------------------

/// The health of a part of the server.
#[derive(Debug, Clone, Copy, PartialEq, Eq, Structural)]
pub enum HealthStatus {
    Healthy,
    Degraded,
    Unhealthy,
}

/// The word for a health status.
pub open spec fn health_name(s: HealthStatus) -> Seq<char> {
    match s {
        HealthStatus::Healthy => "healthy"@,
        HealthStatus::Degraded => "degraded"@,
        HealthStatus::Unhealthy => "unhealthy"@,
    }
}

impl HealthStatus {
    pub fn is_healthy(&self) -> (r: bool)
        ensures
            r == (*self == HealthStatus::Healthy),
    {
        match self {
            HealthStatus::Healthy => true,
            _ => false,
        }
    }

    pub fn as_str(&self) -> (r: &'static str)
        ensures
            r@ == health_name(*self),
    {
        match self {
            HealthStatus::Healthy => "healthy",
            HealthStatus::Degraded => "degraded",
            HealthStatus::Unhealthy => "unhealthy",
        }
    }
}

/// The result of a health check.
#[derive(Debug)]
pub struct HealthCheck {
    pub status: HealthStatus,
    pub timestamp: SystemTime,
    pub uptime_seconds: u64,
    pub components: StringMap<HealthStatus>,
    pub details: Vec<String>,
}

impl HealthCheck {
    pub fn is_healthy(&self) -> (r: bool)
        ensures
            r == (self.status == HealthStatus::Healthy),
    {
        self.status.is_healthy()
    }
}

// ---------------------------------------------------------------------------
// The collector
// ---------------------------------------------------------------------------

/// The latencies of the operations of each kind that have ended, in their
/// order.
pub type Latencies = Map<OperationType, Seq<u64>>;

/// No operation has ended.
pub open spec fn no_latencies() -> Latencies {
    Map::total(|t: OperationType| Seq::<u64>::empty())
}

/// The least of the latencies, the greatest number where there is none.
pub open spec fn least_of(ended: Seq<u64>) -> u64
    decreases ended.len(),
{
    if ended.len() == 0 {
        u64::MAX
    } else {
        let before = least_of(ended.drop_last());
        if ended.last() < before {
            ended.last()
        } else {
            before
        }
    }
}

/// The greatest of the latencies, zero where there is none.
pub open spec fn greatest_of(ended: Seq<u64>) -> u64
    decreases ended.len(),
{
    if ended.len() == 0 {
        0
    } else {
        let before = greatest_of(ended.drop_last());
        if ended.last() > before {
            ended.last()
        } else {
            before
        }
    }
}

/// The counters of an operation agree with the latencies of those that have
/// ended: the least and the greatest are theirs, and as many have succeeded or
/// failed as have ended, until a counter starts over.
pub open spec fn agrees(m: OperationMetrics, ended: Seq<u64>) -> bool {
    &&& m.min_latency_ns == least_of(ended)
    &&& m.max_latency_ns == greatest_of(ended)
    &&& ended.len() <= u64::MAX ==> m.success + m.failures == ended.len()
}

/// Beginning an operation and ending one keep the counters in agreement with
/// the latencies.
pub proof fn counters_stay_in_agreement(
    m: OperationMetrics,
    ended: Seq<u64>,
    latency_ns: u64,
    success: bool,
)
    requires
        agrees(m, ended),
    ensures
        agrees(fresh_operation(), Seq::empty()),
        agrees(operation_started(m), ended),
        agrees(operation_completed(m, latency_ns, success), ended.push(latency_ns)),
{
    assert(ended.push(latency_ns).drop_last() =~= ended);
}

/// The counters of every operation, in agreement with the latencies of the
/// operations that have ended.
struct Ledger {
    table: OperationTable,
    ended: Ghost<Latencies>,
}

impl Ledger {
    #[verifier::type_invariant]
    spec fn wf(self) -> bool {
        forall|t: OperationType| agrees(#[trigger] self.table.of(t), self.ended@[t])
    }

    fn new() -> (r: Self)
        ensures
            forall|t: OperationType| #[trigger] r.table.of(t) == fresh_operation(),
            r.ended@ == no_latencies(),
    {
        let table = OperationTable::new();
        let ghost ended = no_latencies();
        proof {
            assert forall|t: OperationType| agrees(#[trigger] table.of(t), ended[t]) by {
                assert(ended[t] == Seq::<u64>::empty());
            }
        }
        Ledger { table, ended: Ghost(ended) }
    }

    fn start(&self, t: OperationType) -> (r: Self)
        ensures
            r.table == self.table.with(t, operation_started(self.table.of(t))),
            r.ended@ == self.ended@,
    {
        proof {
            use_type_invariant(self);
        }
        let m = self.table.get(t).start_operation();
        let table = self.table.replace(t, m);
        proof {
            assert forall|u: OperationType| agrees(#[trigger] table.of(u), self.ended@[u]) by {
                table_with_changes_one(self.table, t, m, u);
                assert(agrees(self.table.of(u), self.ended@[u]));
            }
        }
        Ledger { table, ended: self.ended }
    }

    fn complete(&self, t: OperationType, duration: Duration, success: bool) -> (r: Self)
        ensures
            r.table == self.table.with(
                t,
                operation_completed(self.table.of(t), latency_of(duration@), success),
            ),
            r.ended@ == self.ended@.insert(t, self.ended@[t].push(latency_of(duration@))),
            agrees(self.table.of(t), self.ended@[t]),
    {
        proof {
            use_type_invariant(self);
        }
        let m = self.table.get(t).complete_operation(duration, success);
        let table = self.table.replace(t, m);
        let ghost latency = latency_of(duration@);
        let ghost ended = self.ended@.insert(t, self.ended@[t].push(latency));
        proof {
            assert(agrees(self.table.of(t), self.ended@[t]));
            assert forall|u: OperationType| agrees(#[trigger] table.of(u), ended[u]) by {
                table_with_changes_one(self.table, t, m, u);
                assert(agrees(self.table.of(u), self.ended@[u]));
                counters_stay_in_agreement(self.table.of(t), self.ended@[t], latency, success);
            }
        }
        Ledger { table, ended: Ghost(ended) }
    }
}

/// All counters of the server.
pub struct MetricsCollector {
    start_time: Instant,
    operations: Ledger,
    connections: ConnectionStats,
    resources: ResourceStats,
    auth_cache: AuthCacheStats,
    fsm_states: StringMap<usize>,
    custom_counters: StringMap<u64>,
    custom_gauges: StringMap<u64>,
}

/// What a [`MetricsCollector`] has counted.
pub struct MetricsView {
    pub operations: OperationTable,
    /// The latencies of the operations that have ended.
    pub ended: Latencies,
    pub connections: ConnectionStats,
    pub resources: ResourceStats,
    pub auth_cache: AuthCacheStats,
    pub fsm_states: Seq<(Seq<char>, usize)>,
    pub counters: Seq<(Seq<char>, u64)>,
    pub gauges: Seq<(Seq<char>, u64)>,
}

impl View for MetricsCollector {
    type V = MetricsView;

    closed spec fn view(&self) -> MetricsView {
        MetricsView {
            operations: self.operations.table,
            ended: self.operations.ended@,
            connections: self.connections,
            resources: self.resources,
            auth_cache: self.auth_cache,
            fsm_states: self.fsm_states@,
            counters: self.custom_counters@,
            gauges: self.custom_gauges@,
        }
    }
}

/// Nothing has been counted.
pub open spec fn nothing_counted(m: MetricsView) -> bool {
    &&& forall|t: OperationType| #[trigger] m.operations.of(t) == fresh_operation()
    &&& m.ended == no_latencies()
    &&& m.connections == (ConnectionStats { total: 0, active: 0, closed: 0, failed: 0 })
    &&& m.resources == no_resource_events()
    &&& m.auth_cache == (AuthCacheStats {
        capacity: 0,
        entries: 0,
        hits: 0,
        misses: 0,
        evictions: 0,
    })
    &&& m.fsm_states == Seq::<(Seq<char>, usize)>::empty()
    &&& m.counters == Seq::<(Seq<char>, u64)>::empty()
    &&& m.gauges == Seq::<(Seq<char>, u64)>::empty()
}

/// The counters with one operation more that has ended.
pub open spec fn completion_counted(
    m: MetricsView,
    t: OperationType,
    duration: nat,
    success: bool,
) -> MetricsView {
    MetricsView {
        operations: m.operations.with(
            t,
            operation_completed(m.operations.of(t), latency_of(duration), success),
        ),
        ended: m.ended.insert(t, m.ended[t].push(latency_of(duration))),
        ..m
    }
}

/// So few operations have ended that no counter of them starts over, and none
/// of them took the greatest number of nanoseconds that there is.
pub open spec fn is_told_exactly(ended: Seq<u64>) -> bool {
    &&& ended.len() < u64::MAX
    &&& forall|i: int| 0 <= i < ended.len() ==> #[trigger] ended[i] < u64::MAX
}

/// What is told of an operation before and after one of its kind has ended.
pub open spec fn shows_the_end(
    before: OperationStats,
    after: OperationStats,
    latency_ns: nat,
    success: bool,
) -> bool {
    &&& after.active == before.active - 1
    &&& after.count == before.count
    &&& after.success == before.success + (if success {
        1int
    } else {
        0
    })
    &&& after.failures == before.failures + (if success {
        0int
    } else {
        1
    })
    &&& after.max_latency_ns == (if latency_ns > before.max_latency_ns {
        latency_ns
    } else {
        before.max_latency_ns as nat
    })
    &&& after.min_latency_ns == (if before.success + before.failures == 0 || latency_ns
        < before.min_latency_ns {
        latency_ns
    } else {
        before.min_latency_ns as nat
    })
}

/// The key under which a state of a machine is counted.
pub open spec fn state_key(t: FsmType, state: Seq<char>) -> Seq<char> {
    fsm_name(t) + ":"@ + state
}

/// The number of times that a state has been seen.
pub open spec fn state_count(states: Seq<(Seq<char>, usize)>, key: Seq<char>) -> usize {
    match string_map::lookup(states, key) {
        Some(n) => n,
        None => 0,
    }
}

/// The value of a counter, zero before it has been touched.
pub open spec fn counter_value(counters: Seq<(Seq<char>, u64)>, name: Seq<char>) -> u64 {
    match string_map::lookup(counters, name) {
        Some(n) => n,
        None => 0,
    }
}

impl MetricsCollector {
    /// A collector that has counted nothing and starts its clock now.
    pub fn new() -> (r: Self)
        ensures
            nothing_counted(r@),
    {
        MetricsCollector {
            start_time: clock::instant_now(),
            operations: Ledger::new(),
            connections: ConnectionStats::new(),
            resources: ResourceStats::new(),
            auth_cache: AuthCacheStats { capacity: 0, entries: 0, hits: 0, misses: 0, evictions: 0 },
            fsm_states: StringMap::new(),
            custom_counters: StringMap::new(),
            custom_gauges: StringMap::new(),
        }
    }

    /// The whole seconds since the collector was made. Its value rests on the
    /// clock, of which nothing is known.
    pub fn uptime_seconds(&self) -> (r: u64) {
        clock::seconds_since(&self.start_time)
    }

    /// Counts the beginning of an operation; the client plays no part.
    pub fn record_operation_start(&mut self, op_type: OperationType, _client: &str)
        ensures
            final(self)@ == (MetricsView {
                operations: old(self)@.operations.with(
                    op_type,
                    operation_started(old(self)@.operations.of(op_type)),
                ),
                ..old(self)@
            }),
    {
        self.operations = self.operations.start(op_type);
    }

    /// Counts the end of an operation and how long it took. What is told of
    /// the operation changes by that, and of the others nothing does.
    pub fn record_operation_complete(
        &mut self,
        op_type: OperationType,
        duration: Duration,
        success: bool,
    )
        ensures
            final(self)@ == completion_counted(old(self)@, op_type, duration@, success),
            is_told_exactly(old(self)@.ended[op_type]) && old(self)@.operations.of(op_type).active
                > 0 && duration@ < u64::MAX ==> shows_the_end(
                operation_stats(old(self)@.operations.of(op_type)),
                operation_stats(final(self)@.operations.of(op_type)),
                duration@,
                success,
            ),
            forall|other: OperationType|
                other != op_type ==> #[trigger] final(self)@.operations.of(other)
                    == old(self)@.operations.of(other),
    {
        let ghost before = self@;
        self.operations = self.operations.complete(op_type, duration, success);
        proof {
            let table = before.operations;
            let latency = latency_of(duration@);
            let m = operation_completed(table.of(op_type), latency, success);
            table_with_changes_one(table, op_type, m, op_type);
            if is_told_exactly(before.ended[op_type]) && table.of(op_type).active > 0 && duration@
                < u64::MAX {
                an_ended_operation_shows(
                    table.of(op_type),
                    before.ended[op_type],
                    latency,
                    success,
                );
            }
            assert forall|other: OperationType| other != op_type implies
                #[trigger] self@.operations.of(other) == table.of(other) by {
                table_with_changes_one(table, op_type, m, other);
            }
        }
    }

    /// The statistics of an operation; every operation has some. They agree
    /// with the latencies of the operations that have ended.
    pub fn get_operation_stats(&self, op_type: OperationType) -> (r: Option<OperationStats>)
        ensures
            r == Some(operation_stats(self@.operations.of(op_type))),
            agrees(self@.operations.of(op_type), self@.ended[op_type]),
    {
        proof {
            use_type_invariant(&self.operations);
        }
        Some(self.operations.table.get(op_type).get_stats())
    }

    /// The statistics of all operations.
    pub fn get_all_operation_stats(&self) -> (r: Vec<(OperationType, OperationStats)>)
        ensures
            r@ == all_operations().map_values(
                |t: OperationType| (t, operation_stats(self@.operations.of(t))),
            ),
    {
        let all = OperationType::all();
        let mut out: Vec<(OperationType, OperationStats)> = Vec::new();
        let mut i: usize = 0;
        while i < all.len()
            invariant
                all@ == all_operations(),
                i <= all@.len(),
                out@.len() == i,
                forall|j: int|
                    0 <= j < i ==> #[trigger] out@[j] == (
                        all@[j],
                        operation_stats(self@.operations.of(all@[j])),
                    ),
            decreases all@.len() - i,
        {
            out.push((all[i], self.operations.table.get(all[i]).get_stats()));
            i = i + 1;
        }
        proof {
            assert(out@ =~= all_operations().map_values(
                |t: OperationType| (t, operation_stats(self@.operations.of(t))),
            ));
        }
        out
    }

    pub fn record_connection_accepted(&mut self)
        ensures
            final(self)@ == (MetricsView {
                connections: connection_accepted(old(self)@.connections),
                ..old(self)@
            }),
    {
        self.connections = ConnectionStats {
            total: bump(self.connections.total),
            active: add_one(self.connections.active),
            ..self.connections
        };
    }

    pub fn record_connection_closed(&mut self)
        ensures
            final(self)@ == (MetricsView {
                connections: connection_closed(old(self)@.connections),
                ..old(self)@
            }),
    {
        self.connections = ConnectionStats {
            active: take_one(self.connections.active),
            closed: bump(self.connections.closed),
            ..self.connections
        };
    }

    pub fn record_connection_failed(&mut self)
        ensures
            final(self)@ == (MetricsView {
                connections: connection_failed(old(self)@.connections),
                ..old(self)@
            }),
    {
        self.connections = ConnectionStats {
            failed: bump(self.connections.failed),
            ..self.connections
        };
    }

    pub fn record_resource_event(&mut self, event: ResourceEventType)
        ensures
            final(self)@ == (MetricsView {
                resources: resource_counted(old(self)@.resources, event),
                ..old(self)@
            }),
    {
        self.resources = self.resources.record_event(event);
    }

    pub fn get_connection_stats(&self) -> (r: ConnectionStats)
        ensures
            r == self@.connections,
    {
        self.connections
    }

    pub fn get_resource_stats(&self) -> (r: ResourceStats)
        ensures
            r == self@.resources,
    {
        self.resources
    }

    /// Takes over the statistics of the credential cache.
    pub fn record_auth_cache_stats(
        &mut self,
        capacity: u64,
        entries: u64,
        hits: u64,
        misses: u64,
        evictions: u64,
    )
        ensures
            final(self)@ == (MetricsView {
                auth_cache: (AuthCacheStats { capacity, entries, hits, misses, evictions }),
                ..old(self)@
            }),
    {
        self.auth_cache = AuthCacheStats { capacity, entries, hits, misses, evictions };
    }

    pub fn get_auth_cache_stats(&self) -> (r: AuthCacheStats)
        ensures
            r == self@.auth_cache,
    {
        self.auth_cache
    }

    /// Counts that a machine has entered a state.
    pub fn record_fsm_state(&mut self, fsm_type: FsmType, state: &str)
        ensures
            final(self)@ == (MetricsView {
                fsm_states: string_map::put(
                    old(self)@.fsm_states,
                    state_key(fsm_type, state@),
                    one_more(state_count(old(self)@.fsm_states, state_key(fsm_type, state@))),
                ),
                ..old(self)@
            }),
    {
        let mut key = fsm_type.as_str().to_owned();
        key.append(":");
        key.append(state);
        let seen: usize = match self.fsm_states.get(key.as_str()) {
            Some(n) => *n,
            None => 0,
        };
        let _ = self.fsm_states.insert(key, add_one(seen));
    }

    /// How often each machine has entered each state.
    pub fn get_fsm_state_distribution(&self) -> (r: &StringMap<usize>)
        ensures
            r@ == self@.fsm_states,
    {
        &self.fsm_states
    }

    /// Adds to a counter.
    pub fn increment_counter(&mut self, name: &str, value: u64)
        ensures
            final(self)@ == (MetricsView {
                counters: string_map::put(
                    old(self)@.counters,
                    name@,
                    wrapped_sum(counter_value(old(self)@.counters, name@), value),
                ),
                ..old(self)@
            }),
    {
        let before: u64 = match self.custom_counters.get(name) {
            Some(n) => *n,
            None => 0,
        };
        let _ = self.custom_counters.insert(name.to_owned(), sum_wrapped(before, value));
    }

    /// Sets a gauge.
    pub fn set_gauge(&mut self, name: &str, value: u64)
        ensures
            final(self)@ == (MetricsView {
                gauges: string_map::put(old(self)@.gauges, name@, value),
                ..old(self)@
            }),
    {
        let _ = self.custom_gauges.insert(name.to_owned(), value);
    }

    pub fn get_counter(&self, name: &str) -> (r: Option<u64>)
        ensures
            r == string_map::lookup(self@.counters, name@),
    {
        match self.custom_counters.get(name) {
            Some(n) => Some(*n),
            None => None,
        }
    }

    pub fn get_gauge(&self, name: &str) -> (r: Option<u64>)
        ensures
            r == string_map::lookup(self@.gauges, name@),
    {
        match self.custom_gauges.get(name) {
            Some(n) => Some(*n),
            None => None,
        }
    }
}

impl Default for MetricsCollector {
    fn default() -> (r: Self)
        ensures
            nothing_counted(r@),
    {
        MetricsCollector::new()
    }
}

// ---------------------------------------------------------------------------
// Prometheus text
// ---------------------------------------------------------------------------

/// A metric with its help, its type, its value and an empty line.
pub open spec fn metric_block(
    name: Seq<char>,
    help: Seq<char>,
    kind: Seq<char>,
    value: nat,
) -> Seq<char> {
    "# HELP "@ + name + " "@ + help + "\n# TYPE "@ + name + " "@ + kind + "\n"@ + name + " "@
        + text::decimal(value) + "\n\n"@
}

/// A line with a metric of one operation.
pub open spec fn operation_line(metric: Seq<char>, operation: Seq<char>, value: nat) -> Seq<char> {
    metric + "{operation=\""@ + operation + "\"} "@ + text::decimal(value) + "\n"@
}

/// The metrics of one operation; those of latency only once it has begun.
pub open spec fn operation_block(operation: Seq<char>, s: OperationStats) -> Seq<char> {
    "# HELP ldap_operations_total{operation=\""@ + operation + "\"} Total operations\n"@
        + "# TYPE ldap_operations_total{operation=\""@ + operation + "\"} counter\n"@
        + operation_line("ldap_operations_total"@, operation, s.count as nat) + "\n"@
        + operation_line("ldap_operations_success"@, operation, s.success as nat)
        + operation_line("ldap_operations_failures"@, operation, s.failures as nat)
        + operation_line("ldap_operations_active"@, operation, s.active as nat) + (if s.count > 0 {
        operation_line("ldap_operations_latency_avg_ns"@, operation, s.avg_latency_ns as nat)
            + operation_line("ldap_operations_latency_min_ns"@, operation, s.min_latency_ns as nat)
            + operation_line("ldap_operations_latency_max_ns"@, operation, s.max_latency_ns as nat)
    } else {
        Seq::empty()
    }) + "\n"@
}

/// The metrics of the operations of a list.
pub open spec fn operation_blocks(ops: Seq<OperationType>, table: OperationTable) -> Seq<char>
    decreases ops.len(),
{
    if ops.len() == 0 {
        Seq::empty()
    } else {
        operation_blocks(ops.drop_last(), table) + operation_block(
            operation_name(ops.last()),
            operation_stats(table.of(ops.last())),
        )
    }
}

/// The line of a state, where its key is a machine and a state; a state whose
/// name holds a colon has none.
pub open spec fn state_line(key: Seq<char>, count: usize) -> Seq<char> {
    let parts = text::split(key, ':');
    if parts.len() == 2 {
        "ldap_fsm_states{fsm=\""@ + parts[0] + "\",state=\""@ + parts[1] + "\"} "@ + text::decimal(
            count as nat,
        ) + "\n"@
    } else {
        Seq::empty()
    }
}

/// The lines of the states.
pub open spec fn state_lines(states: Seq<(Seq<char>, usize)>) -> Seq<char>
    decreases states.len(),
{
    if states.len() == 0 {
        Seq::empty()
    } else {
        state_lines(states.drop_last()) + state_line(states.last().0, states.last().1)
    }
}

/// The lines of the counters or gauges.
pub open spec fn custom_lines(metric: Seq<char>, values: Seq<(Seq<char>, u64)>) -> Seq<char>
    decreases values.len(),
{
    if values.len() == 0 {
        Seq::empty()
    } else {
        custom_lines(metric, values.drop_last()) + (metric + "{name=\""@ + values.last().0 + "\"} "@
            + text::decimal(values.last().1 as nat) + "\n"@)
    }
}

/// The metrics that every server has.
pub open spec fn server_blocks(m: MetricsView, uptime: u64) -> Seq<char> {
    Seq::<char>::empty()
        + metric_block(
            "ldap_server_uptime_seconds"@,
            "Server uptime in seconds"@,
            "gauge"@,
            uptime as nat,
        )
        + metric_block(
            "ldap_connections_total"@,
            "Total number of connections"@,
            "counter"@,
            m.connections.total as nat,
        )
        + metric_block(
            "ldap_connections_active"@,
            "Currently active connections"@,
            "gauge"@,
            m.connections.active as nat,
        )
        + metric_block(
            "ldap_connections_closed"@,
            "Total closed connections"@,
            "counter"@,
            m.connections.closed as nat,
        )
        + metric_block(
            "ldap_connections_failed"@,
            "Total failed connection attempts"@,
            "counter"@,
            m.connections.failed as nat,
        )
        + metric_block(
            "ldap_resource_connection_rejections_total"@,
            "Connection rejections due to resource limits"@,
            "counter"@,
            m.resources.connection_rejections as nat,
        )
        + metric_block(
            "ldap_resource_operation_rejections_total"@,
            "Operation rejections due to resource limits"@,
            "counter"@,
            m.resources.operation_rejections as nat,
        )
        + metric_block(
            "ldap_resource_memory_rejections_total"@,
            "Memory rejections due to resource limits"@,
            "counter"@,
            m.resources.memory_rejections as nat,
        )
        + metric_block(
            "ldap_resource_rate_limit_blocks_total"@,
            "Requests blocked by rate limiting"@,
            "counter"@,
            m.resources.rate_limit_blocks as nat,
        )
        + metric_block(
            "ldap_resource_rate_limit_allows_total"@,
            "Requests allowed by rate limiting"@,
            "counter"@,
            m.resources.rate_limit_allows as nat,
        )
        + metric_block(
            "ldap_resource_idle_connection_evictions_total"@,
            "Idle connections evicted by cleanup"@,
            "counter"@,
            m.resources.idle_connection_evictions as nat,
        )
        + metric_block(
            "ldap_auth_cache_capacity"@,
            "Configured authentication credential cache capacity"@,
            "gauge"@,
            m.auth_cache.capacity as nat,
        )
        + metric_block(
            "ldap_auth_cache_entries"@,
            "Current authentication credential cache entries"@,
            "gauge"@,
            m.auth_cache.entries as nat,
        )
        + metric_block(
            "ldap_auth_cache_hits_total"@,
            "Authentication credential cache hits"@,
            "counter"@,
            m.auth_cache.hits as nat,
        )
        + metric_block(
            "ldap_auth_cache_misses_total"@,
            "Authentication credential cache misses"@,
            "counter"@,
            m.auth_cache.misses as nat,
        )
        + metric_block(
            "ldap_auth_cache_evictions_total"@,
            "Authentication credential cache evictions"@,
            "counter"@,
            m.auth_cache.evictions as nat,
        )
}

/// All metrics as Prometheus text.
pub open spec fn prometheus_text(m: MetricsView, uptime: u64) -> Seq<char> {
    server_blocks(m, uptime) + operation_blocks(all_operations(), m.operations)
        + "# HELP ldap_fsm_states FSM state distribution\n# TYPE ldap_fsm_states gauge\n"@
        + state_lines(m.fsm_states) + "\n"@ + custom_lines("ldap_custom_counter"@, m.counters) + (
    if m.counters.len() > 0 {
        "\n"@
    } else {
        Seq::empty()
    }) + custom_lines("ldap_custom_gauge"@, m.gauges)
}

fn push_block(out: &mut String, name: &str, help: &str, kind: &str, value: u64)
    ensures
        final(out)@ == old(out)@ + metric_block(name@, help@, kind@, value as nat),
{
    let ghost before = out@;
    out.append("# HELP ");
    out.append(name);
    out.append(" ");
    out.append(help);
    out.append("\n# TYPE ");
    out.append(name);
    out.append(" ");
    out.append(kind);
    out.append("\n");
    out.append(name);
    out.append(" ");
    out.append(text::decimal_of(value).as_str());
    out.append("\n\n");
    proof {
        assert(out@ =~= before + metric_block(name@, help@, kind@, value as nat));
    }
}

fn push_operation_line(out: &mut String, metric: &str, operation: &str, value: u64)
    ensures
        final(out)@ == old(out)@ + operation_line(metric@, operation@, value as nat),
{
    let ghost before = out@;
    out.append(metric);
    out.append("{operation=\"");
    out.append(operation);
    out.append("\"} ");
    out.append(text::decimal_of(value).as_str());
    out.append("\n");
    proof {
        assert(out@ =~= before + operation_line(metric@, operation@, value as nat));
    }
}

fn push_operation_block(out: &mut String, operation: &str, s: &OperationStats)
    ensures
        final(out)@ == old(out)@ + operation_block(operation@, *s),
{
    let ghost before = out@;
    out.append("# HELP ldap_operations_total{operation=\"");
    out.append(operation);
    out.append("\"} Total operations\n");
    out.append("# TYPE ldap_operations_total{operation=\"");
    out.append(operation);
    out.append("\"} counter\n");
    push_operation_line(out, "ldap_operations_total", operation, s.count);
    out.append("\n");
    push_operation_line(out, "ldap_operations_success", operation, s.success);
    push_operation_line(out, "ldap_operations_failures", operation, s.failures);
    push_operation_line(out, "ldap_operations_active", operation, s.active as u64);
    if s.count > 0 {
        push_operation_line(out, "ldap_operations_latency_avg_ns", operation, s.avg_latency_ns);
        push_operation_line(out, "ldap_operations_latency_min_ns", operation, s.min_latency_ns);
        push_operation_line(out, "ldap_operations_latency_max_ns", operation, s.max_latency_ns);
    }
    out.append("\n");
    proof {
        assert(out@ =~= before + operation_block(operation@, *s));
    }
}

fn push_custom_lines(out: &mut String, metric: &str, values: &StringMap<u64>)
    ensures
        final(out)@ == old(out)@ + custom_lines(metric@, values@),
{
    let ghost before = out@;
    let ghost vs = values@;
    let n = values.len();
    let mut i: usize = 0;
    proof {
        assert(before + custom_lines(metric@, vs.take(0)) =~= before);
    }
    while i < n
        invariant
            n == values@.len(),
            vs == values@,
            i <= n,
            out@ == before + custom_lines(metric@, vs.take(i as int)),
        decreases n - i,
    {
        let e = values.entry(i);
        out.append(metric);
        out.append("{name=\"");
        out.append(e.0.as_str());
        out.append("\"} ");
        out.append(text::decimal_of(*e.1).as_str());
        out.append("\n");
        proof {
            assert(vs.take(i as int + 1).drop_last() =~= vs.take(i as int));
            assert(vs.take(i as int + 1).last() == vs[i as int]);
            assert(out@ =~= before + custom_lines(metric@, vs.take(i as int + 1)));
        }
        i = i + 1;
    }
    proof {
        assert(vs.take(i as int) =~= vs);
    }
}

fn push_state_lines(out: &mut String, states: &StringMap<usize>)
    ensures
        final(out)@ == old(out)@ + state_lines(states@),
{
    let ghost before = out@;
    let ghost vs = states@;
    let n = states.len();
    let mut i: usize = 0;
    proof {
        assert(before + state_lines(vs.take(0)) =~= before);
    }
    while i < n
        invariant
            n == states@.len(),
            vs == states@,
            i <= n,
            out@ == before + state_lines(vs.take(i as int)),
        decreases n - i,
    {
        let e = states.entry(i);
        let parts = text::split_on(e.0.as_str(), ':');
        proof {
            assert(vs.take(i as int + 1).drop_last() =~= vs.take(i as int));
            assert(vs.take(i as int + 1).last() == vs[i as int]);
            let split = text::split(e.0@, ':');
            assert(split.len() == parts@.len());
            assert(forall|j: int| 0 <= j < parts@.len() ==> split[j] == #[trigger] parts@[j]@);
        }
        if parts.len() == 2 {
            out.append("ldap_fsm_states{fsm=\"");
            out.append(parts[0].as_str());
            out.append("\",state=\"");
            out.append(parts[1].as_str());
            out.append("\"} ");
            out.append(text::decimal_of(*e.1 as u64).as_str());
            out.append("\n");
        }
        proof {
            assert(out@ =~= before + state_lines(vs.take(i as int + 1)));
        }
        i = i + 1;
    }
    proof {
        assert(vs.take(i as int) =~= vs);
    }
}

impl MetricsCollector {
    fn push_server_blocks(&self, uptime: u64) -> (out: String)
        ensures
            out@ == server_blocks(self@, uptime),
    {
        let conn = self.get_connection_stats();
        let res = self.get_resource_stats();
        let cache = self.get_auth_cache_stats();
        let mut out = String::new();
        push_block(&mut out, "ldap_server_uptime_seconds", "Server uptime in seconds", "gauge", uptime);
        push_block(
            &mut out,
            "ldap_connections_total",
            "Total number of connections",
            "counter",
            conn.total,
        );
        push_block(
            &mut out,
            "ldap_connections_active",
            "Currently active connections",
            "gauge",
            conn.active as u64,
        );
        push_block(
            &mut out,
            "ldap_connections_closed",
            "Total closed connections",
            "counter",
            conn.closed,
        );
        push_block(
            &mut out,
            "ldap_connections_failed",
            "Total failed connection attempts",
            "counter",
            conn.failed,
        );
        push_block(
            &mut out,
            "ldap_resource_connection_rejections_total",
            "Connection rejections due to resource limits",
            "counter",
            res.connection_rejections,
        );
        push_block(
            &mut out,
            "ldap_resource_operation_rejections_total",
            "Operation rejections due to resource limits",
            "counter",
            res.operation_rejections,
        );
        push_block(
            &mut out,
            "ldap_resource_memory_rejections_total",
            "Memory rejections due to resource limits",
            "counter",
            res.memory_rejections,
        );
        push_block(
            &mut out,
            "ldap_resource_rate_limit_blocks_total",
            "Requests blocked by rate limiting",
            "counter",
            res.rate_limit_blocks,
        );
        push_block(
            &mut out,
            "ldap_resource_rate_limit_allows_total",
            "Requests allowed by rate limiting",
            "counter",
            res.rate_limit_allows,
        );
        push_block(
            &mut out,
            "ldap_resource_idle_connection_evictions_total",
            "Idle connections evicted by cleanup",
            "counter",
            res.idle_connection_evictions,
        );
        push_block(
            &mut out,
            "ldap_auth_cache_capacity",
            "Configured authentication credential cache capacity",
            "gauge",
            cache.capacity,
        );
        push_block(
            &mut out,
            "ldap_auth_cache_entries",
            "Current authentication credential cache entries",
            "gauge",
            cache.entries,
        );
        push_block(
            &mut out,
            "ldap_auth_cache_hits_total",
            "Authentication credential cache hits",
            "counter",
            cache.hits,
        );
        push_block(
            &mut out,
            "ldap_auth_cache_misses_total",
            "Authentication credential cache misses",
            "counter",
            cache.misses,
        );
        push_block(
            &mut out,
            "ldap_auth_cache_evictions_total",
            "Authentication credential cache evictions",
            "counter",
            cache.evictions,
        );
        out
    }

    /// All metrics as Prometheus text, for a server that has been up for
    /// `uptime` seconds.
    pub fn export_prometheus_at(&self, uptime: u64) -> (r: String)
        ensures
            r@ == prometheus_text(self@, uptime),
    {
        let mut out = self.push_server_blocks(uptime);
        let ghost head = out@;
        let all = OperationType::all();
        let mut i: usize = 0;
        proof {
            assert(head + operation_blocks(all@.take(0), self.operations.table) =~= head);
        }
        while i < all.len()
            invariant
                all@ == all_operations(),
                i <= all@.len(),
                out@ == head + operation_blocks(all@.take(i as int), self@.operations),
            decreases all@.len() - i,
        {
            let stats = self.operations.table.get(all[i]).get_stats();
            push_operation_block(&mut out, all[i].as_str(), &stats);
            proof {
                assert(all@.take(i as int + 1).drop_last() =~= all@.take(i as int));
                assert(all@.take(i as int + 1).last() == all@[i as int]);
                assert(out@ =~= head + operation_blocks(all@.take(i as int + 1), self@.operations));
            }
            i = i + 1;
        }
        proof {
            assert(all@.take(i as int) =~= all_operations());
        }
        out.append("# HELP ldap_fsm_states FSM state distribution\n# TYPE ldap_fsm_states gauge\n");
        push_state_lines(&mut out, &self.fsm_states);
        out.append("\n");
        push_custom_lines(&mut out, "ldap_custom_counter", &self.custom_counters);
        let ghost before_gap = out@;
        if !self.custom_counters.is_empty() {
            out.append("\n");
        } else {
            proof {
                assert(before_gap + Seq::<char>::empty() =~= before_gap);
            }
        }
        push_custom_lines(&mut out, "ldap_custom_gauge", &self.custom_gauges);
        out
    }

    /// All metrics as Prometheus text, with the uptime that the clock gives.
    pub fn export_prometheus(&self) -> (r: String)
        ensures
            exists|uptime: u64| r@ == #[trigger] prometheus_text(self@, uptime),
    {
        self.export_prometheus_at(self.uptime_seconds())
    }
}

// ---------------------------------------------------------------------------
// Health check
// ---------------------------------------------------------------------------

/// An operation of the list has been counted.
pub open spec fn any_counted(ops: Seq<OperationType>, table: OperationTable) -> bool {
    exists|i: int| 0 <= i < ops.len() && table.of(#[trigger] ops[i]).count > 0
}

/// The health of the connections: a server that has had neither a connection
/// nor an operation is not yet known to be reachable.
pub open spec fn connection_health(m: MetricsView) -> HealthStatus {
    if m.connections.active > 0 || m.connections.total > 0 || any_counted(
        all_operations(),
        m.operations,
    ) {
        HealthStatus::Healthy
    } else {
        HealthStatus::Degraded
    }
}

/// An operation of the list has failed at some time.
pub open spec fn any_failures(ops: Seq<OperationType>, table: OperationTable) -> bool {
    exists|i: int| 0 <= i < ops.len() && table.of(#[trigger] ops[i]).failures > 0
}

/// The health of the operations.
pub open spec fn operation_health(table: OperationTable) -> HealthStatus {
    if any_failures(all_operations(), table) {
        HealthStatus::Degraded
    } else {
        HealthStatus::Healthy
    }
}

/// The worse of two.
pub open spec fn worse(a: HealthStatus, b: HealthStatus) -> HealthStatus {
    if a == HealthStatus::Unhealthy || b == HealthStatus::Unhealthy {
        HealthStatus::Unhealthy
    } else if a == HealthStatus::Degraded || b == HealthStatus::Degraded {
        HealthStatus::Degraded
    } else {
        HealthStatus::Healthy
    }
}

/// A resource event other than an allowed request has happened.
pub open spec fn resource_trouble(s: ResourceStats) -> bool {
    s.connection_rejections > 0 || s.operation_rejections > 0 || s.memory_rejections > 0
        || s.rate_limit_blocks > 0 || s.idle_connection_evictions > 0
}

/// The detail about resource events.
pub open spec fn resource_detail(s: ResourceStats) -> Seq<char> {
    "Resource events: connection_rejections="@ + text::decimal(s.connection_rejections as nat)
        + ", operation_rejections="@ + text::decimal(s.operation_rejections as nat)
        + ", memory_rejections="@ + text::decimal(s.memory_rejections as nat)
        + ", rate_limit_blocks="@ + text::decimal(s.rate_limit_blocks as nat)
        + ", rate_limit_allows="@ + text::decimal(s.rate_limit_allows as nat)
        + ", idle_connection_evictions="@ + text::decimal(s.idle_connection_evictions as nat)
}

/// The detail about the failures of an operation.
pub open spec fn failure_detail(t: OperationType, failures: u64) -> Seq<char> {
    operation_name(t) + " operation failures: "@ + text::decimal(failures as nat)
}

/// The details about the operations that have failed.
pub open spec fn failure_details(ops: Seq<OperationType>, table: OperationTable) -> Seq<Seq<char>>
    decreases ops.len(),
{
    if ops.len() == 0 {
        Seq::empty()
    } else {
        let before = failure_details(ops.drop_last(), table);
        let failures = table.of(ops.last()).failures;
        if failures > 0 {
            before.push(failure_detail(ops.last(), failures))
        } else {
            before
        }
    }
}

/// The details of a health check.
pub open spec fn health_details(m: MetricsView) -> Seq<Seq<char>> {
    (if m.connections.failed > 0 {
        seq!["Failed connections: "@ + text::decimal(m.connections.failed as nat)]
    } else {
        Seq::empty()
    }) + (if resource_trouble(m.resources) {
        seq![resource_detail(m.resources)]
    } else {
        Seq::empty()
    }) + failure_details(all_operations(), m.operations)
}

/// The parts of the server that a health check looks at.
pub open spec fn health_components(m: MetricsView) -> Seq<(Seq<char>, HealthStatus)> {
    seq![
        ("connections"@, connection_health(m)),
        ("operations"@, operation_health(m.operations)),
    ]
}

/// The health of the server.
pub open spec fn overall_health(m: MetricsView) -> HealthStatus {
    worse(connection_health(m), operation_health(m.operations))
}

/// What a health check says of the counters.
pub open spec fn health_reported(h: HealthCheck, m: MetricsView) -> bool {
    &&& h.status == overall_health(m)
    &&& h.components@ == health_components(m)
    &&& text::texts(h.details@) == health_details(m)
}

/// The text with a backslash before each quotation mark.
pub open spec fn quotes_escaped(s: Seq<char>) -> Seq<char>
    decreases s.len(),
{
    if s.len() == 0 {
        s
    } else if s.last() == '"' {
        quotes_escaped(s.drop_last()).push('\\').push('"')
    } else {
        quotes_escaped(s.drop_last()).push(s.last())
    }
}

/// The components of a health check in JSON.
pub open spec fn components_json(cs: Seq<(Seq<char>, HealthStatus)>) -> Seq<char>
    decreases cs.len(),
{
    if cs.len() == 0 {
        Seq::empty()
    } else {
        components_json(cs.drop_last()) + (if cs.len() > 1 {
            ","@
        } else {
            Seq::empty()
        }) + "\""@ + cs.last().0 + "\":\""@ + health_name(cs.last().1) + "\""@
    }
}

/// The details of a health check in JSON.
pub open spec fn details_json(ds: Seq<Seq<char>>) -> Seq<char>
    decreases ds.len(),
{
    if ds.len() == 0 {
        Seq::empty()
    } else {
        details_json(ds.drop_last()) + (if ds.len() > 1 {
            ","@
        } else {
            Seq::empty()
        }) + "\""@ + quotes_escaped(ds.last()) + "\""@
    }
}

/// A health check in JSON.
pub open spec fn health_json(
    status: HealthStatus,
    timestamp: u64,
    uptime: u64,
    components: Seq<(Seq<char>, HealthStatus)>,
    details: Seq<Seq<char>>,
) -> Seq<char> {
    "{\"status\":\""@ + health_name(status) + "\",\"timestamp\":"@ + text::decimal(timestamp as nat)
        + ",\"uptime_seconds\":"@ + text::decimal(uptime as nat) + ",\"components\":{"@
        + components_json(components) + "},\"details\":["@ + details_json(details) + "]}"@
}

fn escape_quotes(s: &str) -> (r: String)
    ensures
        r@ == quotes_escaped(s@),
{
    let chars = text::chars_of(s);
    let mut out = String::new();
    let mut i: usize = 0;
    while i < chars.len()
        invariant
            chars@ == s@,
            i <= chars@.len(),
            out@ == quotes_escaped(s@.take(i as int)),
        decreases chars@.len() - i,
    {
        proof {
            assert(s@.take(i as int + 1).drop_last() =~= s@.take(i as int));
            assert(s@.take(i as int + 1).last() == s@[i as int]);
        }
        if chars[i] == '"' {
            out.push('\\');
        }
        out.push(chars[i]);
        i = i + 1;
    }
    proof {
        assert(s@.take(i as int) =~= s@);
    }
    out
}

fn resource_detail_text(s: &ResourceStats) -> (r: String)
    ensures
        r@ == resource_detail(*s),
{
    let mut out = "Resource events: connection_rejections=".to_owned();
    out.append(text::decimal_of(s.connection_rejections).as_str());
    out.append(", operation_rejections=");
    out.append(text::decimal_of(s.operation_rejections).as_str());
    out.append(", memory_rejections=");
    out.append(text::decimal_of(s.memory_rejections).as_str());
    out.append(", rate_limit_blocks=");
    out.append(text::decimal_of(s.rate_limit_blocks).as_str());
    out.append(", rate_limit_allows=");
    out.append(text::decimal_of(s.rate_limit_allows).as_str());
    out.append(", idle_connection_evictions=");
    out.append(text::decimal_of(s.idle_connection_evictions).as_str());
    out
}

impl MetricsCollector {
    /// The details of a health check.
    fn collect_details(&self) -> (r: Vec<String>)
        ensures
            text::texts(r@) == health_details(self@),
    {
        let mut details: Vec<String> = Vec::new();
        let ghost m = self@;
        let ghost first = if m.connections.failed > 0 {
            seq!["Failed connections: "@ + text::decimal(m.connections.failed as nat)]
        } else {
            Seq::empty()
        };
        if self.connections.failed > 0 {
            let mut detail = "Failed connections: ".to_owned();
            detail.append(text::decimal_of(self.connections.failed).as_str());
            details.push(detail);
        }
        proof {
            assert(text::texts(details@) =~= first);
        }
        let ghost second = if resource_trouble(m.resources) {
            seq![resource_detail(m.resources)]
        } else {
            Seq::empty()
        };
        let s = self.resources;
        if s.connection_rejections > 0 || s.operation_rejections > 0 || s.memory_rejections > 0
            || s.rate_limit_blocks > 0 || s.idle_connection_evictions > 0 {
            let detail = resource_detail_text(&s);
            proof {
                text::texts_push(details@, detail);
            }
            details.push(detail);
        }
        proof {
            assert(text::texts(details@) =~= first + second);
        }
        let all = OperationType::all();
        let mut i: usize = 0;
        proof {
            assert(text::texts(details@) =~= first + second + failure_details(
                all@.take(0),
                m.operations,
            ));
        }
        while i < all.len()
            invariant
                all@ == all_operations(),
                i <= all@.len(),
                m == self@,
                text::texts(details@) == first + second + failure_details(
                    all@.take(i as int),
                    m.operations,
                ),
            decreases all@.len() - i,
        {
            let failures = self.operations.table.get(all[i]).failures;
            proof {
                assert(all@.take(i as int + 1).drop_last() =~= all@.take(i as int));
                assert(all@.take(i as int + 1).last() == all@[i as int]);
            }
            if failures > 0 {
                let mut detail = all[i].as_str().to_owned();
                detail.append(" operation failures: ");
                detail.append(text::decimal_of(failures).as_str());
                proof {
                    text::texts_push(details@, detail);
                    assert((first + second + failure_details(all@.take(i as int), m.operations)).push(
                        detail@,
                    ) =~= first + second + failure_details(all@.take(i as int), m.operations).push(
                        detail@,
                    ));
                }
                details.push(detail);
            }
            i = i + 1;
        }
        proof {
            assert(all@.take(i as int) =~= all_operations());
        }
        details
    }

    fn has_counted(&self) -> (r: bool)
        ensures
            r == any_counted(all_operations(), self@.operations),
    {
        let all = OperationType::all();
        let mut i: usize = 0;
        while i < all.len()
            invariant
                all@ == all_operations(),
                i <= all@.len(),
                forall|j: int| 0 <= j < i ==> self@.operations.of(#[trigger] all@[j]).count == 0,
            decreases all@.len() - i,
        {
            if self.operations.table.get(all[i]).count > 0 {
                proof {
                    assert(self@.operations.of(all_operations()[i as int]).count > 0);
                }
                return true;
            }
            i = i + 1;
        }
        false
    }

    fn has_failures(&self) -> (r: bool)
        ensures
            r == any_failures(all_operations(), self@.operations),
    {
        let all = OperationType::all();
        let mut i: usize = 0;
        while i < all.len()
            invariant
                all@ == all_operations(),
                i <= all@.len(),
                forall|j: int| 0 <= j < i ==> self@.operations.of(#[trigger] all@[j]).failures == 0,
            decreases all@.len() - i,
        {
            if self.operations.table.get(all[i]).failures > 0 {
                proof {
                    assert(self@.operations.of(all_operations()[i as int]).failures > 0);
                }
                return true;
            }
            i = i + 1;
        }
        false
    }

    /// The health of the server, with the time that the clocks give.
    pub fn health_check(&self) -> (r: HealthCheck)
        ensures
            health_reported(r, self@),
    {
        let connections = if self.connections.active > 0 || self.connections.total > 0
            || self.has_counted() {
            HealthStatus::Healthy
        } else {
            HealthStatus::Degraded
        };
        let operations = if self.has_failures() {
            HealthStatus::Degraded
        } else {
            HealthStatus::Healthy
        };
        let mut components: StringMap<HealthStatus> = StringMap::new();
        let _ = components.insert("connections".to_owned(), connections);
        proof {
            reveal_with_fuel(string_map::put, 3);
            reveal_strlit("connections");
            reveal_strlit("operations");
            assert("connections"@.len() != "operations"@.len());
            assert(components@ =~= seq![("connections"@, connections)]);
        }
        let _ = components.insert("operations".to_owned(), operations);
        proof {
            string_map::put_at(
                seq![("connections"@, connections)],
                "operations"@,
                operations,
                1,
            );
            assert(components@ =~= health_components(self@));
        }
        let status = match (connections, operations) {
            (HealthStatus::Unhealthy, _) => HealthStatus::Unhealthy,
            (_, HealthStatus::Unhealthy) => HealthStatus::Unhealthy,
            (HealthStatus::Degraded, _) => HealthStatus::Degraded,
            (_, HealthStatus::Degraded) => HealthStatus::Degraded,
            _ => HealthStatus::Healthy,
        };
        HealthCheck {
            status,
            timestamp: clock::system_time_now(),
            uptime_seconds: self.uptime_seconds(),
            components,
            details: self.collect_details(),
        }
    }

    /// The health of the server in JSON, with the time that the clocks give.
    pub fn health_check_json(&self) -> (r: String)
        ensures
            exists|timestamp: u64, uptime: u64|
                r@ == #[trigger] health_json(
                    overall_health(self@),
                    timestamp,
                    uptime,
                    health_components(self@),
                    health_details(self@),
                ),
    {
        let health = self.health_check();
        let timestamp = clock::unix_seconds(&health.timestamp);
        health.to_json(timestamp)
    }
}

impl HealthCheck {
    /// The health check in JSON, taken at that time in seconds since 1970.
    pub fn to_json(&self, timestamp: u64) -> (r: String)
        ensures
            r@ == health_json(
                self.status,
                timestamp,
                self.uptime_seconds,
                self.components@,
                text::texts(self.details@),
            ),
    {
        let mut components = String::new();
        let n = self.components.len();
        let ghost cs = self.components@;
        let mut i: usize = 0;
        while i < n
            invariant
                cs == self.components@,
                n == cs.len(),
                i <= n,
                components@ == components_json(cs.take(i as int)),
            decreases n - i,
        {
            let e = self.components.entry(i);
            let ghost before = components@;
            proof {
                assert(cs.take(i as int + 1).drop_last() =~= cs.take(i as int));
                assert(cs.take(i as int + 1).last() == cs[i as int]);
                assert(before + Seq::<char>::empty() =~= before);
            }
            if i > 0 {
                components.append(",");
            }
            components.append("\"");
            components.append(e.0.as_str());
            components.append("\":\"");
            components.append(e.1.as_str());
            components.append("\"");
            i = i + 1;
        }
        let mut details = String::new();
        let ghost ds = text::texts(self.details@);
        let mut k: usize = 0;
        while k < self.details.len()
            invariant
                ds == text::texts(self.details@),
                k <= self.details@.len(),
                details@ == details_json(ds.take(k as int)),
            decreases self.details@.len() - k,
        {
            let ghost before = details@;
            proof {
                assert(ds.take(k as int + 1).drop_last() =~= ds.take(k as int));
                assert(ds.take(k as int + 1).last() == self.details@[k as int]@);
                assert(before + Seq::<char>::empty() =~= before);
            }
            if k > 0 {
                details.append(",");
            }
            details.append("\"");
            details.append(escape_quotes(self.details[k].as_str()).as_str());
            details.append("\"");
            k = k + 1;
        }
        proof {
            assert(cs.take(i as int) =~= cs);
            assert(ds.take(k as int) =~= ds);
        }
        let mut out = "{\"status\":\"".to_owned();
        out.append(self.status.as_str());
        out.append("\",\"timestamp\":");
        out.append(text::decimal_of(timestamp).as_str());
        out.append(",\"uptime_seconds\":");
        out.append(text::decimal_of(self.uptime_seconds).as_str());
        out.append(",\"components\":{");
        out.append(components.as_str());
        out.append("},\"details\":[");
        out.append(details.as_str());
        out.append("]}");
        out
    }
}

// ---------------------------------------------------------------------------
// Laws
// ---------------------------------------------------------------------------

/// Each operation that has begun is at hand, has succeeded or has failed.
pub open spec fn balanced(m: OperationMetrics) -> bool {
    m.count == m.success + m.failures + m.active
}

/// Beginning an operation and ending one that is at hand keep the balance, as
/// long as no counter starts over.
pub proof fn operations_stay_balanced(m: OperationMetrics, latency_ns: u64, success: bool)
    requires
        balanced(m),
    ensures
        balanced(fresh_operation()),
        m.count < u64::MAX && m.active < usize::MAX ==> balanced(operation_started(m)),
        m.active > 0 ==> balanced(operation_completed(m, latency_ns, success)),
{
}

/// The latencies seen lie between the least and the greatest, and one more
/// moves neither bound inwards.
pub proof fn latencies_lie_between(
    m: OperationMetrics,
    latency_ns: u64,
    success: bool,
)
    ensures
        ({
            let n = operation_completed(m, latency_ns, success);
            &&& n.min_latency_ns <= latency_ns <= n.max_latency_ns
            &&& n.min_latency_ns <= m.min_latency_ns
            &&& m.max_latency_ns <= n.max_latency_ns
        }),
{
}

/// What the end of an operation changes in what is told, where it has begun, so
/// few have ended that no counter starts over, and no latency is the greatest
/// number that there is: one operation less is at hand, one more has succeeded
/// or failed, the greatest latency grows to the new one, and the least is the
/// new one where it is the first and shrinks to it else.
pub proof fn an_ended_operation_shows(
    m: OperationMetrics,
    ended: Seq<u64>,
    latency_ns: u64,
    success: bool,
)
    requires
        agrees(m, ended),
        is_told_exactly(ended),
        m.active > 0,
        latency_ns < u64::MAX,
    ensures
        shows_the_end(
            operation_stats(m),
            operation_stats(operation_completed(m, latency_ns, success)),
            latency_ns as nat,
            success,
        ),
{
    least_is_among(ended);
}

proof fn least_is_among(ended: Seq<u64>)
    requires
        forall|i: int| 0 <= i < ended.len() ==> #[trigger] ended[i] < u64::MAX,
    ensures
        least_of(ended) == u64::MAX <==> ended.len() == 0,
{
    if ended.len() > 0 {
        assert(ended[ended.len() - 1] < u64::MAX);
    }
}

/// Each connection that was accepted is at hand or has been closed; accepting
/// one and closing one that is at hand keep it so, as long as no counter
/// starts over.
pub proof fn connections_stay_balanced(c: ConnectionStats)
    requires
        c.total == c.active + c.closed,
    ensures
        c.total < u64::MAX && c.active < usize::MAX ==> connection_accepted(c).total
            == connection_accepted(c).active + connection_accepted(c).closed,
        c.active > 0 ==> connection_closed(c).total == connection_closed(c).active
            + connection_closed(c).closed,
        connection_failed(c).total == connection_failed(c).active + connection_failed(c).closed,
{
}

/// A health check is never better than its parts, and healthy only where all
/// of them are.
pub proof fn health_is_the_worst_of_the_parts(m: MetricsView)
    ensures
        overall_health(m) == HealthStatus::Healthy <==> forall|i: int|
            0 <= i < health_components(m).len() ==> (#[trigger] health_components(m)[i]).1
                == HealthStatus::Healthy,
{
    let cs = health_components(m);
    assert(cs[0].1 == connection_health(m));
    assert(cs[1].1 == operation_health(m.operations));
    if connection_health(m) == HealthStatus::Healthy && operation_health(m.operations)
        == HealthStatus::Healthy {
        assert forall|i: int| 0 <= i < cs.len() implies (#[trigger] cs[i]).1
            == HealthStatus::Healthy by {
            if i == 0 {
            } else {
                assert(i == 1);
            }
        }
    }
}

} // verus!
