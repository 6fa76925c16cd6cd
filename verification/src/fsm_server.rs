//! The server's listeners, its connections, and the dispatch of requests: what
//! is done next, given what is known so far.

use vstd::prelude::*;

use crate::clock::Duration;
use crate::metrics;
use crate::metrics::{FsmType, MetricsCollector, MetricsView, OperationType, ResourceEventType};
use crate::response;
use crate::response::{
    busy_response, connection_rejected, rate_limit_exceeded, shutdown_in_progress,
    transport_unavailable, Reply, ReplyView, RequestHead, ResultCode,
};
use crate::string_map;
use crate::text;

verus! {

/// How the server runs; the limits on resources and rates are of types of
/// their own.
#[derive(Debug)]
pub struct FsmServerConfig<L, R> {
    /// The greatest age of an operation.
    pub operation_timeout: Duration,
    /// How often operations are looked through for those that are too old.
    pub cleanup_interval: Duration,
    /// How much is read from a connection at once.
    pub read_buffer_size: usize,
    /// The greatest number of operations of a connection at a time.
    pub max_concurrent_operations: usize,
    pub resource_limits: L,
    pub rate_limit_config: R,
    pub rate_limiting_enabled: bool,
}

impl<L: Default, R: Default> Default for FsmServerConfig<L, R> {
    fn default() -> (r: Self)
        ensures
            r.operation_timeout@ == 300_000_000_000nat,
            r.cleanup_interval@ == 60_000_000_000nat,
            r.read_buffer_size == 4096,
            r.max_concurrent_operations == 100,
            r.rate_limiting_enabled,
    {
        FsmServerConfig {
            operation_timeout: Duration::from_secs(300),
            cleanup_interval: Duration::from_secs(60),
            read_buffer_size: 4096,
            max_concurrent_operations: 100,
            resource_limits: L::default(),
            rate_limit_config: R::default(),
            rate_limiting_enabled: true,
        }
    }
}

/// What the listeners of a server share.
pub struct FsmServerRuntimeContext<C, S, H, A> {
    pub legacy_runtime_config: C,
    pub metrics: Option<MetricsCollector>,
    pub security: Option<S>,
    pub tls_handler: Option<H>,
    pub auth_metadata: Option<A>,
}

// ---------------------------------------------------------------------------
// Counting
// ---------------------------------------------------------------------------

/// The counts with one more state of a machine.
pub open spec fn state_counted(m: MetricsView, fsm_type: FsmType, state: Seq<char>) -> MetricsView {
    let key = metrics::state_key(fsm_type, state);
    MetricsView {
        fsm_states: string_map::put(
            m.fsm_states,
            key,
            metrics::one_more(metrics::state_count(m.fsm_states, key)),
        ),
        ..m
    }
}

/// The counts with a connection that was accepted.
pub open spec fn accepted_counted(m: MetricsView, secure: bool) -> MetricsView {
    state_counted(
        MetricsView { connections: metrics::connection_accepted(m.connections), ..m },
        FsmType::Connection,
        if secure {
            "secure"@
        } else {
            "connected"@
        },
    )
}

/// The counts with a connection that was closed.
pub open spec fn closed_counted(m: MetricsView) -> MetricsView {
    state_counted(
        MetricsView { connections: metrics::connection_closed(m.connections), ..m },
        FsmType::Connection,
        "closed"@,
    )
}

/// The counts with a connection that failed.
pub open spec fn failed_counted(m: MetricsView) -> MetricsView {
    state_counted(
        MetricsView { connections: metrics::connection_failed(m.connections), ..m },
        FsmType::Connection,
        "error"@,
    )
}

/// What the collector of a context counts, if there is one.
pub open spec fn counts(m: Option<MetricsCollector>) -> Option<MetricsView> {
    match m {
        Some(m) => Some(m@),
        None => None,
    }
}

/// The counts after so many connections were closed for being idle.
pub open spec fn evictions_counted(m: MetricsView, n: nat) -> MetricsView
    decreases n,
{
    if n == 0 {
        m
    } else {
        let before = evictions_counted(m, (n - 1) as nat);
        MetricsView {
            resources: metrics::resource_counted(
                before.resources,
                ResourceEventType::IdleConnectionEvicted,
            ),
            ..before
        }
    }
}

impl<C, S, H, A> FsmServerRuntimeContext<C, S, H, A> {
    /// Counts a connection that was accepted.
    pub fn record_connection_accepted(&mut self, secure: bool)
        ensures
            *final(self) == (FsmServerRuntimeContext { metrics: final(self).metrics, ..*old(self) }),
            counts(final(self).metrics) == (match counts(old(self).metrics) {
                Some(m) => Some(accepted_counted(m, secure)),
                None => None,
            }),
    {
        if let Some(metrics) = &mut self.metrics {
            metrics.record_connection_accepted();
            metrics.record_fsm_state(
                FsmType::Connection,
                if secure {
                    "secure"
                } else {
                    "connected"
                },
            );
        }
    }

    /// Counts a connection that was closed.
    pub fn record_connection_closed(&mut self)
        ensures
            *final(self) == (FsmServerRuntimeContext { metrics: final(self).metrics, ..*old(self) }),
            counts(final(self).metrics) == (match counts(old(self).metrics) {
                Some(m) => Some(closed_counted(m)),
                None => None,
            }),
    {
        if let Some(metrics) = &mut self.metrics {
            metrics.record_connection_closed();
            metrics.record_fsm_state(FsmType::Connection, "closed");
        }
    }

    /// Counts a connection that failed.
    pub fn record_connection_failed(&mut self)
        ensures
            *final(self) == (FsmServerRuntimeContext { metrics: final(self).metrics, ..*old(self) }),
            counts(final(self).metrics) == (match counts(old(self).metrics) {
                Some(m) => Some(failed_counted(m)),
                None => None,
            }),
    {
        if let Some(metrics) = &mut self.metrics {
            metrics.record_connection_failed();
            metrics.record_fsm_state(FsmType::Connection, "error");
        }
    }

    /// Counts an event of the resources.
    pub fn record_resource_event(&mut self, event: ResourceEventType)
        ensures
            *final(self) == (FsmServerRuntimeContext { metrics: final(self).metrics, ..*old(self) }),
            counts(final(self).metrics) == (match counts(old(self).metrics) {
                Some(m) => Some(
                    MetricsView { resources: metrics::resource_counted(m.resources, event), ..m },
                ),
                None => None,
            }),
    {
        if let Some(metrics) = &mut self.metrics {
            metrics.record_resource_event(event);
        }
    }

    /// Counts the connections that were closed for being idle.
    pub fn record_idle_evictions(&mut self, cleaned: usize)
        ensures
            *final(self) == (FsmServerRuntimeContext { metrics: final(self).metrics, ..*old(self) }),
            counts(final(self).metrics) == (match counts(old(self).metrics) {
                Some(m) => Some(evictions_counted(m, cleaned as nat)),
                None => None,
            }),
    {
        let mut i: usize = 0;
        while i < cleaned
            invariant
                i <= cleaned,
                *self == (FsmServerRuntimeContext { metrics: self.metrics, ..*old(self) }),
                counts(self.metrics) == (match counts(old(self).metrics) {
                    Some(m) => Some(evictions_counted(m, i as nat)),
                    None => None,
                }),
            decreases cleaned - i,
        {
            self.record_resource_event(ResourceEventType::IdleConnectionEvicted);
            i = i + 1;
        }
    }
}

/// The error is one that comes where a peer just goes away.
pub open spec fn is_peer_disconnect(error: Seq<char>) -> bool {
    ||| text::contains_text(error, "Connection reset by peer"@)
    ||| text::contains_text(error, "tls handshake eof"@)
    ||| text::contains_text(error, "Broken pipe"@)
    ||| text::contains_text(error, "connection closed"@)
    ||| text::contains_text(error, "unexpected eof"@)
}

pub fn expected_peer_disconnect_error(error: &str) -> (r: bool)
    ensures
        r == is_peer_disconnect(error@),
{
    text::has_text(error, "Connection reset by peer") || text::has_text(error, "tls handshake eof")
        || text::has_text(error, "Broken pipe") || text::has_text(error, "connection closed")
        || text::has_text(error, "unexpected eof")
}

/// The connection is written into the audit log: there is a log, and it takes
/// connections.
pub fn audits_connections(secured: bool, log_connections: bool, has_logger: bool) -> (r: bool)
    ensures
        r == (secured && log_connections && has_logger),
{
    secured && log_connections && has_logger
}

// ---------------------------------------------------------------------------
// Accepting connections
// ---------------------------------------------------------------------------

/// What is known of a connection that came in.
#[derive(Debug, PartialEq, Eq)]
pub struct AcceptFacts {
    /// The listener protects its connections.
    pub tls: bool,
    /// There is a coordinator of shutdowns.
    pub coordinated: bool,
    pub shutting_down: Option<bool>,
    pub registered: Option<bool>,
    /// The number of the connection, if the resources allow it.
    pub acquired: Option<Option<u64>>,
    /// The connection was protected, or why not.
    pub protected: Option<Result<(), String>>,
}

/// What is done next for a connection that came in.
#[derive(Debug, PartialEq, Eq)]
#[allow(inconsistent_fields)]
pub enum AcceptStep {
    AskShutdown,
    Register,
    Acquire,
    Protect,
    /// Turned away while the server shuts down.
    TurnAway { reply: Option<Reply> },
    /// Turned away for want of resources: counts a failed connection and a
    /// rejected one.
    RunShort { unregister: bool, reply: Option<Reply> },
    /// Not protected: counts a failed connection and gives up its number.
    GiveUp { conn_id: u64, unregister: bool, expected: bool },
    /// Counts an accepted connection and serves it.
    Serve { conn_id: u64, secure: bool },
}

/// What an [`AcceptStep`] says.
#[allow(inconsistent_fields)]
pub enum AcceptStepView {
    AskShutdown,
    Register,
    Acquire,
    Protect,
    TurnAway { reply: Option<ReplyView> },
    RunShort { unregister: bool, reply: Option<ReplyView> },
    GiveUp { conn_id: u64, unregister: bool, expected: bool },
    Serve { conn_id: u64, secure: bool },
}

/// What an optional reply says.
pub open spec fn option_reply(reply: Option<Reply>) -> Option<ReplyView> {
    match reply {
        Some(reply) => Some(reply@),
        None => None,
    }
}

impl View for AcceptStep {
    type V = AcceptStepView;

    open spec fn view(&self) -> AcceptStepView {
        match self {
            AcceptStep::AskShutdown => AcceptStepView::AskShutdown,
            AcceptStep::Register => AcceptStepView::Register,
            AcceptStep::Acquire => AcceptStepView::Acquire,
            AcceptStep::Protect => AcceptStepView::Protect,
            AcceptStep::TurnAway { reply } => AcceptStepView::TurnAway {
                reply: option_reply(*reply),
            },
            AcceptStep::RunShort { unregister, reply } => AcceptStepView::RunShort {
                unregister: *unregister,
                reply: option_reply(*reply),
            },
            AcceptStep::GiveUp { conn_id, unregister, expected } => AcceptStepView::GiveUp {
                conn_id: *conn_id,
                unregister: *unregister,
                expected: *expected,
            },
            AcceptStep::Serve { conn_id, secure } => AcceptStepView::Serve {
                conn_id: *conn_id,
                secure: *secure,
            },
        }
    }
}

/// A refusal in words goes out only where the listener is not to protect its
/// connections.
pub open spec fn in_words(tls: bool, text: Seq<char>) -> Option<ReplyView> {
    if tls {
        None
    } else {
        Some(response::plain(response::unsolicited(), ResultCode::Unavailable, text))
    }
}

/// What is done once the shutdown does not stand in the way.
pub open spec fn acquire_step(facts: AcceptFacts) -> AcceptStepView {
    match facts.acquired {
        None => AcceptStepView::Acquire,
        Some(None) => AcceptStepView::RunShort {
            unregister: facts.coordinated,
            reply: in_words(facts.tls, "Server resource limits exceeded"@),
        },
        Some(Some(conn_id)) => if !facts.tls {
            AcceptStepView::Serve { conn_id, secure: false }
        } else {
            match facts.protected {
                None => AcceptStepView::Protect,
                Some(Ok(_)) => AcceptStepView::Serve { conn_id, secure: true },
                Some(Err(e)) => AcceptStepView::GiveUp {
                    conn_id,
                    unregister: facts.coordinated,
                    expected: is_peer_disconnect(e@),
                },
            }
        },
    }
}

/// What is done next for a connection that came in.
pub open spec fn accept_step(facts: AcceptFacts) -> AcceptStepView {
    let turned_away = AcceptStepView::TurnAway {
        reply: in_words(facts.tls, "Server is shutting down"@),
    };
    if !facts.coordinated {
        acquire_step(facts)
    } else {
        match facts.shutting_down {
            None => AcceptStepView::AskShutdown,
            Some(true) => turned_away,
            Some(false) => match facts.registered {
                None => AcceptStepView::Register,
                Some(false) => turned_away,
                Some(true) => acquire_step(facts),
            },
        }
    }
}

impl AcceptFacts {
    fn turn_away(&self) -> (r: AcceptStep)
        ensures
            r@ == (AcceptStepView::TurnAway {
                reply: in_words(self.tls, "Server is shutting down"@),
            }),
    {
        AcceptStep::TurnAway {
            reply: if self.tls {
                None
            } else {
                Some(shutdown_in_progress())
            },
        }
    }

    /// What is done next.
    pub fn step(&self) -> (r: AcceptStep)
        ensures
            r@ == accept_step(*self),
    {
        if self.coordinated {
            match self.shutting_down {
                None => {
                    return AcceptStep::AskShutdown;
                },
                Some(true) => {
                    return self.turn_away();
                },
                Some(false) => {},
            }
            match self.registered {
                None => {
                    return AcceptStep::Register;
                },
                Some(false) => {
                    return self.turn_away();
                },
                Some(true) => {},
            }
        }
        let conn_id = match self.acquired {
            None => {
                return AcceptStep::Acquire;
            },
            Some(None) => {
                return AcceptStep::RunShort {
                    unregister: self.coordinated,
                    reply: if self.tls {
                        None
                    } else {
                        Some(connection_rejected())
                    },
                };
            },
            Some(Some(conn_id)) => conn_id,
        };
        if !self.tls {
            return AcceptStep::Serve { conn_id, secure: false };
        }
        match &self.protected {
            None => AcceptStep::Protect,
            Some(Ok(_)) => AcceptStep::Serve { conn_id, secure: true },
            Some(Err(e)) => AcceptStep::GiveUp {
                conn_id,
                unregister: self.coordinated,
                expected: expected_peer_disconnect_error(e.as_str()),
            },
        }
    }
}

// ---------------------------------------------------------------------------
// Serving a connection
// ---------------------------------------------------------------------------

/// What came of reading from a connection.
#[derive(Debug, PartialEq, Eq)]
pub enum ReadOutcome {
    TimedOut,
    Failed(String),
    Closed,
    Data(usize),
}

/// What is known of one turn of serving a connection.
#[derive(Debug, PartialEq, Eq)]
pub struct TurnFacts {
    /// The connection has come to its end.
    pub terminal: bool,
    /// There is a stream to read from.
    pub connected: bool,
    pub read: Option<ReadOutcome>,
    /// The memory for what was read is granted.
    pub granted: Option<bool>,
    /// The messages in what was read were found, or why not.
    pub decoded: Option<Result<(), String>>,
}

/// What is done next in one turn of serving a connection.
#[derive(Debug, PartialEq, Eq)]
#[allow(inconsistent_fields)]
pub enum TurnStep {
    /// The connection is done.
    Stop,
    /// The connection fails with this text.
    Fail(String),
    Read,
    /// The next turn begins.
    Again,
    /// Counts the activity and asks for the memory.
    AskMemory(usize),
    /// Counts a rejection for memory, answers, and fails with the text.
    RunShort { reply: Reply, failure: &'static str },
    Decode,
    /// Gives the memory back and fails with the text.
    ReleaseAndFail { bytes: usize, failure: String },
    /// Gives the memory back and processes the messages.
    ReleaseAndProcess(usize),
}

/// What a [`TurnStep`] says.
#[allow(inconsistent_fields)]
pub enum TurnStepView {
    Stop,
    Fail(Seq<char>),
    Read,
    Again,
    AskMemory(usize),
    RunShort { reply: ReplyView, failure: Seq<char> },
    Decode,
    ReleaseAndFail { bytes: usize, failure: Seq<char> },
    ReleaseAndProcess(usize),
}

impl View for TurnStep {
    type V = TurnStepView;

    open spec fn view(&self) -> TurnStepView {
        match self {
            TurnStep::Stop => TurnStepView::Stop,
            TurnStep::Fail(e) => TurnStepView::Fail(e@),
            TurnStep::Read => TurnStepView::Read,
            TurnStep::Again => TurnStepView::Again,
            TurnStep::AskMemory(n) => TurnStepView::AskMemory(*n),
            TurnStep::RunShort { reply, failure } => TurnStepView::RunShort {
                reply: reply@,
                failure: failure@,
            },
            TurnStep::Decode => TurnStepView::Decode,
            TurnStep::ReleaseAndFail { bytes, failure } => TurnStepView::ReleaseAndFail {
                bytes: *bytes,
                failure: failure@,
            },
            TurnStep::ReleaseAndProcess(n) => TurnStepView::ReleaseAndProcess(*n),
        }
    }
}

/// What is done next in one turn of serving a connection.
pub open spec fn turn_step(facts: TurnFacts) -> TurnStepView {
    if facts.terminal {
        TurnStepView::Stop
    } else if !facts.connected {
        TurnStepView::Fail("No active stream"@)
    } else {
        match facts.read {
            None => TurnStepView::Read,
            Some(ReadOutcome::TimedOut) => TurnStepView::Again,
            Some(ReadOutcome::Failed(e)) => TurnStepView::Fail(e@),
            Some(ReadOutcome::Closed) => TurnStepView::Stop,
            Some(ReadOutcome::Data(n)) => match facts.granted {
                None => TurnStepView::AskMemory(n),
                Some(false) => TurnStepView::RunShort {
                    reply: response::plain(
                        response::unsolicited(),
                        ResultCode::Unavailable,
                        "Server resource limits exceeded"@,
                    ),
                    failure: "FSM connection exceeded memory limits"@,
                },
                Some(true) => match facts.decoded {
                    None => TurnStepView::Decode,
                    Some(Err(e)) => TurnStepView::ReleaseAndFail { bytes: n, failure: e@ },
                    Some(Ok(_)) => TurnStepView::ReleaseAndProcess(n),
                },
            },
        }
    }
}

impl TurnFacts {
    /// What is done next.
    pub fn step(&self) -> (r: TurnStep)
        ensures
            r@ == turn_step(*self),
    {
        if self.terminal {
            return TurnStep::Stop;
        }
        if !self.connected {
            return TurnStep::Fail("No active stream".to_owned());
        }
        let n: usize = match &self.read {
            None => {
                return TurnStep::Read;
            },
            Some(ReadOutcome::TimedOut) => {
                return TurnStep::Again;
            },
            Some(ReadOutcome::Failed(e)) => {
                return TurnStep::Fail(e.clone());
            },
            Some(ReadOutcome::Closed) => {
                return TurnStep::Stop;
            },
            Some(ReadOutcome::Data(n)) => *n,
        };
        match self.granted {
            None => {
                return TurnStep::AskMemory(n);
            },
            Some(false) => {
                return TurnStep::RunShort {
                    reply: transport_unavailable("Server resource limits exceeded"),
                    failure: "FSM connection exceeded memory limits",
                };
            },
            Some(true) => {},
        }
        match &self.decoded {
            None => TurnStep::Decode,
            Some(Err(e)) => TurnStep::ReleaseAndFail { bytes: n, failure: e.clone() },
            Some(Ok(_)) => TurnStep::ReleaseAndProcess(n),
        }
    }
}

// ---------------------------------------------------------------------------
// Dispatching requests
// ---------------------------------------------------------------------------

/// The kinds of requests.
#[derive(Debug, Clone, Copy, PartialEq, Eq, Structural)]
pub enum ProtocolOp {
    Bind,
    Unbind,
    Search,
    Modify,
    Add,
    Delete,
    ModDn,
    Compare,
    Abandon,
    Extended,
    Other,
}

/// The operation under which a request is counted.
pub open spec fn counted_operation(op: ProtocolOp) -> Option<OperationType> {
    match op {
        ProtocolOp::Bind => Some(OperationType::Bind),
        ProtocolOp::Unbind => Some(OperationType::Unbind),
        ProtocolOp::Search => Some(OperationType::Search),
        ProtocolOp::Modify => Some(OperationType::Modify),
        ProtocolOp::Add => Some(OperationType::Add),
        ProtocolOp::Delete => Some(OperationType::Delete),
        ProtocolOp::ModDn => Some(OperationType::ModifyDN),
        ProtocolOp::Compare => Some(OperationType::Compare),
        ProtocolOp::Extended => Some(OperationType::Extended),
        ProtocolOp::Abandon => Some(OperationType::Abandon),
        ProtocolOp::Other => None,
    }
}

pub fn metrics_operation_for_protocol(op: ProtocolOp) -> (r: Option<OperationType>)
    ensures
        r == counted_operation(op),
{
    match op {
        ProtocolOp::Bind => Some(OperationType::Bind),
        ProtocolOp::Unbind => Some(OperationType::Unbind),
        ProtocolOp::Search => Some(OperationType::Search),
        ProtocolOp::Modify => Some(OperationType::Modify),
        ProtocolOp::Add => Some(OperationType::Add),
        ProtocolOp::Delete => Some(OperationType::Delete),
        ProtocolOp::ModDn => Some(OperationType::ModifyDN),
        ProtocolOp::Compare => Some(OperationType::Compare),
        ProtocolOp::Extended => Some(OperationType::Extended),
        ProtocolOp::Abandon => Some(OperationType::Abandon),
        ProtocolOp::Other => None,
    }
}

/// A request that is to be dispatched.
#[derive(Debug, PartialEq, Eq)]
pub struct Dispatch {
    pub head: RequestHead,
    pub op: ProtocolOp,
    /// The client is known.
    pub authenticated: bool,
    /// The rate of the client is limited.
    pub rate_limited: bool,
    /// The name of the entry that a request to modify names.
    pub target: String,
    /// The name of the entry that holds the schema.
    pub subschema_dn: String,
}

/// What is known of a request that is to be dispatched.
#[derive(Debug, PartialEq, Eq)]
pub struct DispatchFacts {
    pub within_rate: Option<bool>,
    /// The client is not at its limit of operations.
    pub started: Option<bool>,
}

/// Who handles a request.
#[derive(Debug, Clone, Copy, PartialEq, Eq, Structural)]
pub enum Handler {
    Bind,
    Unbind,
    Search,
    Modify,
    SchemaModify,
    Add,
    Delete,
    ModDn,
    Compare,
    Abandon,
    Extended,
}

/// What is done next for a request that is to be dispatched.
#[derive(Debug, PartialEq, Eq)]
#[allow(inconsistent_fields)]
pub enum DispatchStep {
    CheckRate,
    StartOperation,
    /// Answers, and counts the event.
    Refuse { event: ResourceEventType, reply: Reply },
    /// Ends the operation and answers.
    EndAndRefuse(Reply),
    /// Hands the request over; where an operation was started it ends after.
    Handle { handler: Handler, end_after: bool },
    Ignore,
}

/// What a [`DispatchStep`] says.
#[allow(inconsistent_fields)]
pub enum DispatchStepView {
    CheckRate,
    StartOperation,
    Refuse { event: ResourceEventType, reply: ReplyView },
    EndAndRefuse(ReplyView),
    Handle { handler: Handler, end_after: bool },
    Ignore,
}

impl View for DispatchStep {
    type V = DispatchStepView;

    open spec fn view(&self) -> DispatchStepView {
        match self {
            DispatchStep::CheckRate => DispatchStepView::CheckRate,
            DispatchStep::StartOperation => DispatchStepView::StartOperation,
            DispatchStep::Refuse { event, reply } => DispatchStepView::Refuse {
                event: *event,
                reply: reply@,
            },
            DispatchStep::EndAndRefuse(reply) => DispatchStepView::EndAndRefuse(reply@),
            DispatchStep::Handle { handler, end_after } => DispatchStepView::Handle {
                handler: *handler,
                end_after: *end_after,
            },
            DispatchStep::Ignore => DispatchStepView::Ignore,
        }
    }
}

/// The event that is counted when the rate of a client was looked at.
pub fn rate_limit_event(within_rate: bool) -> (r: ResourceEventType)
    ensures
        r == (if within_rate {
            ResourceEventType::RateLimitAllowed
        } else {
            ResourceEventType::RateLimitBlocked
        }),
{
    if within_rate {
        ResourceEventType::RateLimitAllowed
    } else {
        ResourceEventType::RateLimitBlocked
    }
}

/// What a client that is not known is answered where it wants to write.
pub open spec fn authentication_required(op: ProtocolOp) -> Option<Seq<char>> {
    match op {
        ProtocolOp::Modify => Some("authentication required for modify operations"@),
        ProtocolOp::Add => Some("authentication required for add operations"@),
        ProtocolOp::Delete => Some("authentication required for delete operations"@),
        ProtocolOp::ModDn => Some("authentication required for modifydn operations"@),
        _ => None,
    }
}

fn authentication_text(op: ProtocolOp) -> (r: Option<&'static str>)
    ensures
        match r {
            Some(s) => authentication_required(op) == Some(s@),
            None => authentication_required(op) is None,
        },
{
    match op {
        ProtocolOp::Modify => Some("authentication required for modify operations"),
        ProtocolOp::Add => Some("authentication required for add operations"),
        ProtocolOp::Delete => Some("authentication required for delete operations"),
        ProtocolOp::ModDn => Some("authentication required for modifydn operations"),
        _ => None,
    }
}

/// The handler of a request that counts as an operation of the connection.
pub open spec fn operation_handler(req: Dispatch) -> Option<Handler> {
    match req.op {
        ProtocolOp::Search => Some(Handler::Search),
        ProtocolOp::Modify => Some(
            if text::lower(text::trim(req.target@)) == text::lower(req.subschema_dn@) {
                Handler::SchemaModify
            } else {
                Handler::Modify
            },
        ),
        ProtocolOp::Add => Some(Handler::Add),
        ProtocolOp::Delete => Some(Handler::Delete),
        ProtocolOp::ModDn => Some(Handler::ModDn),
        ProtocolOp::Compare => Some(Handler::Compare),
        ProtocolOp::Extended => Some(Handler::Extended),
        _ => None,
    }
}

impl Dispatch {
    fn operation_handler(&self) -> (r: Option<Handler>)
        ensures
            r == operation_handler(*self),
    {
        match self.op {
            ProtocolOp::Search => Some(Handler::Search),
            ProtocolOp::Modify => {
                let dn = text::trimmed(self.target.as_str());
                if text::eq_ignore_case(dn.as_str(), self.subschema_dn.as_str()) {
                    Some(Handler::SchemaModify)
                } else {
                    Some(Handler::Modify)
                }
            },
            ProtocolOp::Add => Some(Handler::Add),
            ProtocolOp::Delete => Some(Handler::Delete),
            ProtocolOp::ModDn => Some(Handler::ModDn),
            ProtocolOp::Compare => Some(Handler::Compare),
            ProtocolOp::Extended => Some(Handler::Extended),
            _ => None,
        }
    }
}

/// What is done once the rate does not stand in the way.
pub open spec fn admitted_step(req: Dispatch, facts: DispatchFacts) -> DispatchStepView {
    match operation_handler(req) {
        None => match req.op {
            ProtocolOp::Bind => DispatchStepView::Handle {
                handler: Handler::Bind,
                end_after: false,
            },
            ProtocolOp::Unbind => DispatchStepView::Handle {
                handler: Handler::Unbind,
                end_after: false,
            },
            ProtocolOp::Abandon => DispatchStepView::Handle {
                handler: Handler::Abandon,
                end_after: false,
            },
            _ => DispatchStepView::Ignore,
        },
        Some(handler) => match facts.started {
            None => DispatchStepView::StartOperation,
            Some(false) => DispatchStepView::Refuse {
                event: ResourceEventType::OperationRejected,
                reply: response::plain(
                    req.head,
                    ResultCode::Busy,
                    "Server is busy - operation limit exceeded"@,
                ),
            },
            Some(true) => match authentication_required(req.op) {
                Some(text) => if !req.authenticated {
                    DispatchStepView::EndAndRefuse(
                        response::plain(req.head, ResultCode::InsufficientAccessRights, text),
                    )
                } else {
                    DispatchStepView::Handle { handler, end_after: true }
                },
                None => DispatchStepView::Handle { handler, end_after: true },
            },
        },
    }
}

/// What is done next for a request that is to be dispatched.
pub open spec fn dispatch_step(req: Dispatch, facts: DispatchFacts) -> DispatchStepView {
    if req.rate_limited {
        match facts.within_rate {
            None => DispatchStepView::CheckRate,
            Some(false) => DispatchStepView::Refuse {
                event: ResourceEventType::RateLimitBlocked,
                reply: response::plain(
                    req.head,
                    ResultCode::Busy,
                    "Rate limit exceeded - please slow down"@,
                ),
            },
            Some(true) => admitted_step(req, facts),
        }
    } else {
        admitted_step(req, facts)
    }
}

impl Dispatch {
    /// What is done next.
    pub fn step(&self, facts: &DispatchFacts) -> (r: DispatchStep)
        ensures
            r@ == dispatch_step(*self, *facts),
    {
        if self.rate_limited {
            match facts.within_rate {
                None => {
                    return DispatchStep::CheckRate;
                },
                Some(false) => {
                    return DispatchStep::Refuse {
                        event: rate_limit_event(false),
                        reply: rate_limit_exceeded(self.head),
                    };
                },
                Some(true) => {},
            }
        }
        let handler = match self.operation_handler() {
            Some(handler) => handler,
            None => {
                return match self.op {
                    ProtocolOp::Bind => DispatchStep::Handle {
                        handler: Handler::Bind,
                        end_after: false,
                    },
                    ProtocolOp::Unbind => DispatchStep::Handle {
                        handler: Handler::Unbind,
                        end_after: false,
                    },
                    ProtocolOp::Abandon => DispatchStep::Handle {
                        handler: Handler::Abandon,
                        end_after: false,
                    },
                    _ => DispatchStep::Ignore,
                };
            },
        };
        match facts.started {
            None => {
                return DispatchStep::StartOperation;
            },
            Some(false) => {
                return DispatchStep::Refuse {
                    event: ResourceEventType::OperationRejected,
                    reply: busy_response(self.head),
                };
            },
            Some(true) => {},
        }
        if let Some(text) = authentication_text(self.op) {
            if !self.authenticated {
                return DispatchStep::EndAndRefuse(
                    Reply::plain(self.head, ResultCode::InsufficientAccessRights, text),
                );
            }
        }
        DispatchStep::Handle { handler, end_after: true }
    }
}

/// Where the schema of a connection comes from.
#[derive(Debug, Clone, Copy, PartialEq, Eq, Structural)]
pub enum SchemaSource {
    /// The schema as it is now.
    Fresh,
    /// The schema as the connection remembers it.
    Remembered,
    /// The schema as it is now, which the connection remembers.
    FreshToRemember,
}

/// Where the schema of a connection comes from: a schema that may change is
/// not remembered.
pub fn connection_schema_source(allow_online_schema_updates: bool, remembered: bool) -> (r:
    SchemaSource)
    ensures
        r == (if allow_online_schema_updates {
            SchemaSource::Fresh
        } else if remembered {
            SchemaSource::Remembered
        } else {
            SchemaSource::FreshToRemember
        }),
{
    if allow_online_schema_updates {
        SchemaSource::Fresh
    } else if remembered {
        SchemaSource::Remembered
    } else {
        SchemaSource::FreshToRemember
    }
}

// ---------------------------------------------------------------------------
// Laws
// ---------------------------------------------------------------------------

/// A client that is not known reaches no handler that writes.
pub proof fn unknown_clients_do_not_write(req: Dispatch, facts: DispatchFacts)
    requires
        !req.authenticated,
        dispatch_step(req, facts) is Handle,
    ensures
        dispatch_step(req, facts) matches DispatchStepView::Handle { handler, .. } ==> handler
            != Handler::Modify && handler != Handler::SchemaModify && handler != Handler::Add
            && handler != Handler::Delete && handler != Handler::ModDn,
{
}

/// An operation that was started is ended, whether it is refused or handled;
/// one that was not started is not.
pub proof fn started_operations_end(req: Dispatch, facts: DispatchFacts)
    ensures
        dispatch_step(req, facts) is EndAndRefuse ==> facts.started == Some(true),
        dispatch_step(req, facts) matches DispatchStepView::Handle { end_after, .. } ==> (end_after
            <==> operation_handler(req) is Some) && (end_after ==> facts.started == Some(true)),
        facts.started == Some(true) && operation_handler(req) is Some && (req.rate_limited
            ==> facts.within_rate == Some(true)) ==> dispatch_step(req, facts) is EndAndRefuse || (
        dispatch_step(req, facts) matches DispatchStepView::Handle { end_after, .. } && end_after),
{
}

/// A connection is served only where no shutdown stands in its way, under a
/// number of its own, and protected where the listener protects.
pub proof fn served_connections_are_admitted(facts: AcceptFacts)
    requires
        accept_step(facts) is Serve,
    ensures
        facts.coordinated ==> facts.shutting_down == Some(false) && facts.registered == Some(true),
        accept_step(facts) matches AcceptStepView::Serve { conn_id, secure } && facts.acquired
            == Some(Some(conn_id)) && secure == facts.tls && (secure ==> (
        facts.protected matches Some(Ok(_)))),
{
}

/// Closing takes back what accepting counted: the connections under way are as
/// many as before.
pub proof fn closing_undoes_accepting(m: MetricsView, secure: bool)
    requires
        m.connections.active < usize::MAX,
    ensures
        closed_counted(accepted_counted(m, secure)).connections.active == m.connections.active,
{
}

} // verus!
