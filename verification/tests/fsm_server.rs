use opendr::clock::Duration;
use opendr::fsm_server::{
    audits_connections, connection_schema_source, expected_peer_disconnect_error,
    metrics_operation_for_protocol, rate_limit_event, AcceptFacts, AcceptStep, Dispatch,
    DispatchFacts, DispatchStep, FsmServerConfig, FsmServerRuntimeContext, Handler, ProtocolOp,
    ReadOutcome, SchemaSource, TurnFacts, TurnStep,
};
use opendr::metrics::{MetricsCollector, OperationType, ResourceEventType};
use opendr::response::{
    backend_diagnostic, busy_response, compare_fsm_error_response, connection_rejected,
    map_backend_error_code, rate_limit_exceeded, search_fsm_error_response, shutdown_in_progress,
    transport_unavailable, write_fsm_error_response, BackendError, CompareFsmError,
    FsmRequestRejection, FsmResponseKind, RequestHead, ResponseOp, ResultCode, SearchFsmError,
    WireForm, WriteFsmError,
};

#[test]
fn test_fsm_server_config_default() {
    let config = FsmServerConfig::<(), ()>::default();
    assert_eq!(config.operation_timeout, Duration::from_secs(300));
    assert_eq!(config.cleanup_interval, Duration::from_secs(60));
    assert_eq!(config.read_buffer_size, 4096);
    assert_eq!(config.max_concurrent_operations, 100);
}

fn nothing_known(tls: bool) -> AcceptFacts {
    AcceptFacts {
        tls,
        coordinated: true,
        shutting_down: None,
        registered: None,
        acquired: None,
        protected: None,
    }
}

#[test]
fn a_connection_is_served_once_it_is_admitted() {
    let mut facts = nothing_known(true);
    assert_eq!(facts.step(), AcceptStep::AskShutdown);
    facts.shutting_down = Some(false);
    assert_eq!(facts.step(), AcceptStep::Register);
    facts.registered = Some(true);
    assert_eq!(facts.step(), AcceptStep::Acquire);
    facts.acquired = Some(Some(7));
    assert_eq!(facts.step(), AcceptStep::Protect);
    facts.protected = Some(Ok(()));
    assert_eq!(facts.step(), AcceptStep::Serve { conn_id: 7, secure: true });
    facts.protected = Some(Err("handshake".to_string()));
    assert!(matches!(facts.step(), AcceptStep::GiveUp { conn_id: 7, unregister: true, .. }));
    facts.acquired = Some(None);
    assert!(matches!(facts.step(), AcceptStep::RunShort { unregister: true, .. }));
    facts.shutting_down = Some(true);
    assert!(matches!(facts.step(), AcceptStep::TurnAway { .. }));
}

#[test]
fn a_turn_reads_decodes_and_hands_over() {
    let mut facts = TurnFacts {
        terminal: false,
        connected: true,
        read: None,
        granted: None,
        decoded: None,
    };
    assert_eq!(facts.step(), TurnStep::Read);
    facts.read = Some(ReadOutcome::Data(12));
    assert_eq!(facts.step(), TurnStep::AskMemory(12));
    facts.granted = Some(false);
    assert!(matches!(facts.step(), TurnStep::RunShort { .. }));
    facts.granted = Some(true);
    assert_eq!(facts.step(), TurnStep::Decode);
    facts.decoded = Some(Ok(()));
    assert_eq!(facts.step(), TurnStep::ReleaseAndProcess(12));
    facts.decoded = Some(Err("bad frame".to_string()));
    assert!(matches!(facts.step(), TurnStep::ReleaseAndFail { bytes: 12, .. }));
    facts.read = Some(ReadOutcome::Closed);
    assert_eq!(facts.step(), TurnStep::Stop);
    facts.terminal = true;
    assert_eq!(facts.step(), TurnStep::Stop);
}

fn head(op: ResponseOp) -> RequestHead {
    RequestHead { message_id: 5, kind: FsmResponseKind::Result(op) }
}

fn dispatch(op: ProtocolOp, response: ResponseOp, authenticated: bool) -> Dispatch {
    Dispatch {
        head: head(response),
        op,
        authenticated,
        rate_limited: true,
        target: "CN=Subschema".to_string(),
        subschema_dn: "cn=subschema".to_string(),
    }
}

#[test]
fn unknown_clients_may_not_write() {
    let add = dispatch(ProtocolOp::Add, ResponseOp::Add, false);
    let mut facts = DispatchFacts { within_rate: None, started: None };
    assert_eq!(add.step(&facts), DispatchStep::CheckRate);
    facts.within_rate = Some(true);
    assert_eq!(add.step(&facts), DispatchStep::StartOperation);
    facts.started = Some(true);
    assert!(matches!(add.step(&facts), DispatchStep::EndAndRefuse(_)));
    let known = dispatch(ProtocolOp::Add, ResponseOp::Add, true);
    assert_eq!(
        known.step(&facts),
        DispatchStep::Handle { handler: Handler::Add, end_after: true }
    );
    facts.within_rate = Some(false);
    assert!(
        matches!(known.step(&facts), DispatchStep::Refuse { reply, .. } if reply.code == ResultCode::Busy)
    );
}

#[test]
fn changes_of_the_schema_entry_go_to_their_own_handler() {
    let facts = DispatchFacts { within_rate: Some(true), started: Some(true) };
    let modify = dispatch(ProtocolOp::Modify, ResponseOp::Modify, true);
    assert_eq!(
        modify.step(&facts),
        DispatchStep::Handle { handler: Handler::SchemaModify, end_after: true }
    );
}

#[test]
fn requests_are_counted_under_their_operations() {
    assert_eq!(
        metrics_operation_for_protocol(ProtocolOp::ModDn),
        Some(OperationType::ModifyDN)
    );
    assert_eq!(metrics_operation_for_protocol(ProtocolOp::Other), None);
    assert_eq!(rate_limit_event(true), ResourceEventType::RateLimitAllowed);
    assert_eq!(rate_limit_event(false), ResourceEventType::RateLimitBlocked);
}

#[test]
fn connections_are_counted_as_they_come_and_go() {
    let mut context = FsmServerRuntimeContext::<(), (), (), ()> {
        legacy_runtime_config: (),
        metrics: Some(MetricsCollector::new()),
        security: None,
        tls_handler: None,
        auth_metadata: None,
    };
    context.record_connection_accepted(true);
    context.record_connection_accepted(false);
    context.record_connection_closed();
    context.record_connection_failed();
    context.record_resource_event(ResourceEventType::ConnectionRejected);
    context.record_idle_evictions(2);
    let metrics = context.metrics.unwrap();
    assert_eq!(metrics.get_connection_stats().total, 2);
    assert_eq!(metrics.get_connection_stats().active, 1);
    assert_eq!(metrics.get_connection_stats().failed, 1);
    assert_eq!(metrics.get_resource_stats().connection_rejections, 1);
    assert_eq!(metrics.get_resource_stats().idle_connection_evictions, 2);
}

#[test]
fn clients_that_leave_are_no_failure() {
    assert!(expected_peer_disconnect_error("Connection reset by peer (os error 104)"));
    assert!(!expected_peer_disconnect_error("certificate expired"));
    assert!(audits_connections(true, true, true));
    assert!(!audits_connections(true, false, true));
    assert_eq!(connection_schema_source(true, true), SchemaSource::Fresh);
    assert_eq!(connection_schema_source(false, true), SchemaSource::Remembered);
    assert_eq!(connection_schema_source(false, false), SchemaSource::FreshToRemember);
}

#[test]
fn replies_take_the_form_of_their_requests() {
    assert_eq!(busy_response(head(ResponseOp::Add)).code, ResultCode::Busy);
    assert_eq!(
        busy_response(head(ResponseOp::Add)).form(),
        WireForm::ResultResponse(ResponseOp::Add)
    );
    assert_eq!(rate_limit_exceeded(head(ResponseOp::Add)).code, ResultCode::Busy);
    assert_eq!(transport_unavailable("down").diagnostic, "down");
    assert_eq!(shutdown_in_progress().code, ResultCode::Unavailable);
    assert_eq!(connection_rejected().head.message_id, 0);
    let silent = FsmRequestRejection {
        response_kind: FsmResponseKind::Silent,
        result_code: ResultCode::ProtocolError,
        diagnostic_message: "no".to_string(),
    };
    assert_eq!(silent.reply(3).form(), WireForm::Nothing);
}

#[test]
fn errors_have_their_codes() {
    assert_eq!(
        map_backend_error_code(&BackendError::AlreadyExists),
        ResultCode::EntryAlreadyExists
    );
    assert_eq!(map_backend_error_code(&BackendError::NotFound), ResultCode::NoSuchObject);
    assert_eq!(
        map_backend_error_code(&BackendError::Storage("disk".to_string())),
        ResultCode::Unavailable
    );
    assert!(!backend_diagnostic(&BackendError::NotFound).is_empty());
    assert_eq!(
        write_fsm_error_response(&WriteFsmError::EntryAlreadyExists).0,
        ResultCode::EntryAlreadyExists
    );
    assert_eq!(
        search_fsm_error_response(&SearchFsmError::SizeLimitExceeded).0,
        ResultCode::SizeLimitExceeded
    );
    assert_eq!(
        compare_fsm_error_response(&CompareFsmError::NoSuchObject).0,
        ResultCode::NoSuchObject
    );
}
