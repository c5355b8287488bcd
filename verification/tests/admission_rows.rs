//! The rows of the admission matrix and their diagnostics, on concrete
//! observations.

use tunnel_test_harness::admission::{
    admission_error_kind, check_closed_path, check_echo_bound, check_forged_echo,
    check_owner_nodes, check_route_label, check_stream_bound, check_subprotocol, choose_ingress,
    common_dispatch_delta, echo_body_matches, echo_failure, echo_mismatch, echo_route,
    echo_transport_error, forged_headers, is_lookup_failure, is_selected_owner_failure,
    known_execution, known_failure_code, node_dispatch_delta, other_dispatch_delta,
    stream_rejection, stream_route, with_admission_cleanup_failures, AdmissionEvidence,
    AdmissionFailure, CleanupStep, StreamProbe,
};
use tunnel_test_harness::admission_diagnostics::{
    add_cause, admission_cli_diagnostic, admission_cli_failure_diagnostic,
    admission_fault_context, admission_owner_snapshot, annotate_admission_matrix_failure,
    client_lines, next_line, LineStep, OwnerReading, ProcessState, RelayContext, RelayReading,
    SessionSummary, TerminalEvent,
};
use tunnel_test_harness::admission_matrix::{
    check_fault_ingress, check_owner_after_fault, check_relay_count, check_selected_owner,
    conclude_admission, conclude_matrix, AdmissionMatrix, NegativeRow,
};
use tunnel_test_harness::c10::OwnerToken;
use tunnel_test_harness::error::HarnessError;
use tunnel_test_harness::ordered::OrderedMap;

fn failure(
    status: u16,
    code: Option<&'static str>,
    execution: Option<&'static str>,
) -> AdmissionFailure {
    AdmissionFailure {
        status,
        code,
        execution,
    }
}

fn counters(entries: &[(&str, u64)]) -> OrderedMap<String, u64> {
    let mut map = OrderedMap::new();
    for (node, count) in entries {
        map.insert((*node).to_owned(), *count);
    }
    map
}

fn detail<T>(result: Result<T, HarnessError>) -> String {
    match result {
        Ok(_) => panic!("an observation that must fail was accepted"),
        Err(error) => error.detail().to_owned(),
    }
}

#[test]
fn only_known_labels_leave_an_error_body() {
    assert_eq!(known_failure_code("FORBIDDEN"), Some("FORBIDDEN"));
    assert_eq!(known_failure_code("forbidden"), None);
    assert_eq!(known_execution("unknown"), Some("unknown"));
    assert_eq!(known_execution("done"), None);
    let body = br#"{"code":"DEVICE_NOT_FOUND","execution":"not_dispatched"}"#;
    assert_eq!(
        stream_rejection(404, body).expect("a failure"),
        failure(404, Some("DEVICE_NOT_FOUND"), Some("not_dispatched"))
    );
    assert_eq!(
        echo_failure(418, br#"{"code":"SECRET-TEXT"}"#).expect("a failure"),
        failure(418, None, None)
    );
    assert_eq!(
        echo_failure(200, b"anything").expect("no failure"),
        failure(200, None, None)
    );
    assert_eq!(
        detail(echo_failure(500, b"anything")),
        "public admission echo error was not bounded JSON"
    );
    assert_eq!(
        detail(stream_rejection(500, b"anything")),
        "public admission error was not bounded JSON"
    );
    assert_eq!(
        detail(stream_rejection(500, &[b' '; 1025])),
        "public admission error body exceeded its bound"
    );
}

#[test]
fn lookup_and_owner_failures_are_told_apart() {
    for (status, code) in [
        (401, "UNAUTHORIZED"),
        (503, "AUTHORIZATION_UNAVAILABLE"),
        (503, "CLUSTER_UNREADY"),
    ] {
        let lookup = failure(status, Some(code), Some("unknown"));
        assert!(is_lookup_failure(&lookup));
        assert!(!is_selected_owner_failure(&lookup));
    }
    let owner = failure(503, Some("PEER_UNTRUSTED"), Some("not_dispatched"));
    assert!(is_selected_owner_failure(&owner));
    assert!(!is_lookup_failure(&owner));
    assert!(!is_lookup_failure(&failure(401, Some("UNAUTHORIZED"), None)));
    assert!(!is_selected_owner_failure(&failure(
        502,
        Some("PEER_UNAVAILABLE"),
        Some("unknown")
    )));
}

#[test]
fn an_echo_is_the_canary_and_then_the_payload() {
    assert!(echo_body_matches(b"canary-body", b"canary-", b"body"));
    assert!(echo_body_matches(b"canary-", b"canary-", b""));
    assert!(!echo_body_matches(b"canary-bodyx", b"canary-", b"body"));
    assert!(!echo_body_matches(b"canarx-body", b"canary-", b"body"));
    assert!(!echo_body_matches(b"can", b"canary-", b""));
    assert_eq!(
        echo_mismatch("remote", "small", 3, 7, 4).message(),
        "managed process error: public admission HTTPS forged-header body mismatch: ingress=remote,corpus=small,response_len=3,canary_len=7,request_len=4"
    );
}

#[test]
fn dispatch_deltas_look_at_the_right_relays() {
    let before = counters(&[("relay-a", 5), ("relay-b", 9), ("relay-d", 1)]);
    let after = counters(&[("relay-a", 8), ("relay-b", 7), ("relay-c", 4)]);
    assert_eq!(common_dispatch_delta(&before, &after), 3);
    assert_eq!(node_dispatch_delta(&before, &after, &"relay-c".to_owned()), 4);
    assert_eq!(node_dispatch_delta(&before, &after, &"relay-b".to_owned()), 0);
    assert_eq!(other_dispatch_delta(&before, &after, &"relay-a".to_owned()), 4);
    let zero = counters(&[("a", 0), ("b", 0)]);
    let huge = counters(&[("a", u64::MAX), ("b", 2)]);
    assert_eq!(common_dispatch_delta(&zero, &huge), u64::MAX);
}

#[test]
fn a_forged_echo_reports_labels_only() {
    assert!(check_forged_echo("remote", "empty", 200, b"").is_ok());
    assert_eq!(
        detail(check_forged_echo("remote", "empty", 404, br#"{"code":"NOT_FOUND"}"#)),
        "public admission HTTPS forged-header echo failed: ingress=remote,corpus=empty,status=404,code=NOT_FOUND,execution=unknown"
    );
    assert_eq!(
        detail(check_forged_echo("remote", "empty", 500, b"boom")),
        "public admission HTTPS forged-header response was not bounded JSON: ingress=remote,corpus=empty,status=500"
    );
    let cause = HarnessError::timeout("a secret");
    assert_eq!(
        echo_transport_error("owner-local", "small", &cause).detail(),
        "public admission HTTPS forged-header echo transport failure: ingress=owner-local,corpus=small,kind=timeout"
    );
    assert_eq!(
        admission_error_kind(&HarnessError::Redis("x".to_owned())),
        "redis"
    );
}

#[test]
fn routes_bounds_and_headers_are_fixed() {
    assert!(check_echo_bound("svc", 65536).is_ok());
    assert!(check_echo_bound("svc", 65537).is_err());
    assert!(check_echo_bound("", 0).is_err());
    assert_eq!(
        detail(check_stream_bound(&"s".repeat(129))),
        "public admission service path is outside its bound"
    );
    assert!(check_stream_bound(&"s".repeat(128)).is_ok());
    assert!(check_subprotocol(Some("agent-tunnel.echo.v1")).is_ok());
    assert!(check_subprotocol(None).is_err());
    assert!(check_subprotocol(Some("other")).is_err());
    assert_eq!(
        echo_route(443, "d", "s"),
        "https://localhost:443/v1/devices/d/services/s/echo"
    );
    assert_eq!(
        stream_route(443, "d", "s"),
        "wss://localhost:443/v1/devices/d/services/s/stream"
    );
    let headers = forged_headers("t", "p", "d", "s", "o");
    let expected = [
        ("x-agent-tunnel-tenant-id", "t"),
        ("x-agent-tunnel-principal-id", "p"),
        ("x-agent-tunnel-device-id", "d"),
        ("x-agent-tunnel-service-id", "s"),
        ("x-agent-tunnel-owner-id", "o"),
    ];
    for (header, (name, value)) in headers.iter().zip(expected) {
        assert_eq!((header.0, header.1.as_str()), (name, value));
    }
    assert_eq!(headers.len(), expected.len());
}

#[test]
fn the_fixture_has_its_owners_where_the_rows_need_them() {
    assert!(check_relay_count(3).is_ok());
    assert_eq!(
        detail(check_relay_count(2)),
        "public admission started 2 relays, expected three"
    );
    assert!(check_owner_nodes("relay-a", "relay-b").is_ok());
    assert_eq!(
        detail(check_owner_nodes("relay-a", "relay-a")),
        "public admission target and sibling owners shared one relay"
    );
    assert!(detail(check_owner_nodes("relay-b", "relay-a")).contains("target=relay-b, sibling=relay-a"));
    let nodes = vec!["relay-a".to_owned(), "relay-b".to_owned()];
    assert_eq!(choose_ingress(&nodes, "relay-a").expect("an ingress"), 1);
    assert_eq!(choose_ingress(&nodes, "relay-c").expect("an ingress"), 0);
    let only = vec!["relay-a".to_owned()];
    assert_eq!(choose_ingress(&only, "relay-a").expect("an ingress"), 0);
    assert_eq!(
        detail(choose_ingress(&Vec::new(), "relay-a")),
        "public admission has no consumer ingress"
    );
    assert!(check_selected_owner(Some("relay-a"), "relay-a").is_ok());
    assert!(detail(check_selected_owner(None, "relay-a")).contains("disappeared"));
    assert!(detail(check_selected_owner(Some("relay-b"), "relay-a")).contains("changed"));
    assert!(check_fault_ingress("relay-c", "relay-a", "relay-b").is_ok());
    assert!(check_fault_ingress("relay-a", "relay-a", "relay-b").is_err());
    assert!(check_owner_after_fault(Some("relay-a"), "relay-a").is_ok());
    assert!(check_owner_after_fault(None, "relay-a").is_err());
}

#[test]
fn closed_routes_are_refused_as_services_and_as_paths() {
    let refused = StreamProbe::Rejected(failure(
        404,
        Some("SERVICE_NOT_FOUND"),
        Some("not_dispatched"),
    ));
    assert!(check_route_label(&refused, "health").is_ok());
    assert_eq!(
        detail(check_route_label(&StreamProbe::Accepted, "health")),
        "route label health unexpectedly reached an adapter"
    );
    assert_eq!(
        detail(check_route_label(
            &StreamProbe::Rejected(failure(403, Some("FORBIDDEN"), None)),
            "health"
        )),
        "route label health returned status 403 and bounded code Some(\"FORBIDDEN\")"
    );
    assert!(check_closed_path("/diagnostics", 404).is_ok());
    assert_eq!(
        detail(check_closed_path("/diagnostics", 200)),
        "public route /diagnostics returned status 200, expected 404"
    );
}

const ROWS: [NegativeRow; 8] = [
    NegativeRow::AbsentRemote,
    NegativeRow::AbsentLocal,
    NegativeRow::InactiveRemote,
    NegativeRow::InactiveLocal,
    NegativeRow::UnknownServiceRemote,
    NegativeRow::UnknownServiceLocal,
    NegativeRow::ForgedRemote,
    NegativeRow::ForgedLocal,
];

fn refusal_of(row: NegativeRow) -> StreamProbe {
    let code = match row {
        NegativeRow::UnknownServiceRemote | NegativeRow::UnknownServiceLocal => "SERVICE_NOT_FOUND",
        _ => "DEVICE_NOT_FOUND",
    };
    StreamProbe::Rejected(failure(404, Some(code), Some("not_dispatched")))
}

/// The steps that close the routes: four labels, the health routes, three paths.
const ROUTE_STEPS: usize = 8;

fn run_matrix(skipped: Option<usize>) -> AdmissionEvidence {
    let mut matrix = AdmissionMatrix::new(1, 1).expect("a matrix");
    let idle = counters(&[("relay-a", 4), ("relay-b", 2)]);
    let owner = "relay-a".to_owned();
    let sibling = "relay-b".to_owned();
    matrix.forged_streams(true, true).expect("forged streams");
    let echoed = counters(&[("relay-a", 12), ("relay-b", 2)]);
    matrix
        .forged_echoes(true, true, &idle, &echoed, &owner)
        .expect("forged echoes");
    let absent = failure(404, Some("DEVICE_NOT_FOUND"), Some("not_dispatched"));
    matrix
        .cross_scope(&absent, &absent, &idle, &idle)
        .expect("cross scope");
    for (index, row) in ROWS.into_iter().enumerate() {
        if Some(index) != skipped {
            matrix.refused(row, &refusal_of(row)).expect("a refusal");
        }
    }
    let refused = refusal_of(NegativeRow::UnknownServiceRemote);
    for step in 0..ROUTE_STEPS {
        if Some(ROWS.len() + step) == skipped {
            continue;
        }
        match step {
            0..=3 => matrix.label_refused(step, &refused),
            4 => matrix.healthy(Ok(())),
            _ => matrix.path_refused(step - 5, 404),
        }
        .expect("a closed route");
    }
    matrix.negatives(&idle, &idle).expect("the negatives");
    matrix
        .owner_lost(&failure(503, Some("PEER_UNAVAILABLE"), Some("unknown")))
        .expect("the owner's loss");
    let survived = counters(&[("relay-a", 4), ("relay-b", 3)]);
    matrix
        .sibling_survived(&idle, &survived, &owner, &sibling)
        .expect("the sibling");
    matrix
        .lookup_failed(&StreamProbe::Rejected(failure(
            401,
            Some("UNAUTHORIZED"),
            Some("not_dispatched"),
        )))
        .expect("the lookup");
    matrix
        .lookup_dispatched_nothing(&idle, &idle)
        .expect("no dispatch");
    matrix.finish()
}

fn joined_steps() -> Vec<CleanupStep> {
    vec![CleanupStep {
        label: "relay cleanup".to_owned(),
        failure: None,
    }]
}

#[test]
fn a_complete_matrix_passes_and_an_incomplete_one_does_not() {
    let evidence = conclude_admission(Ok(run_matrix(None)), &joined_steps()).expect("a pass");
    assert!(evidence.cleanup_joined);
    for index in 0..ROWS.len() + ROUTE_STEPS {
        assert!(conclude_admission(Ok(run_matrix(Some(index))), &joined_steps()).is_err());
    }
}

#[test]
fn a_row_that_fails_leaves_the_matrix_as_it_was() {
    let mut matrix = AdmissionMatrix::new(1, 1).expect("a matrix");
    let idle = counters(&[("relay-a", 4), ("relay-b", 2)]);
    let busy = counters(&[("relay-a", 5), ("relay-b", 2)]);
    let owner = "relay-a".to_owned();
    let sibling = "relay-b".to_owned();
    let before = matrix.evidence.clone();
    assert_eq!(
        detail(matrix.forged_streams(true, false)),
        "forged public identity headers changed an otherwise valid admission"
    );
    assert!(detail(matrix.forged_echoes(true, true, &idle, &busy, &owner))
        .contains("target_dispatch_delta=1, other_dispatch_delta=0"));
    let wrong = failure(403, None, Some("unknown"));
    assert_eq!(
        detail(matrix.cross_scope(&wrong, &wrong, &idle, &busy)),
        "HTTPS forged cross-scope identity was not rejected before owner-local/remote dispatch: remote=(403,None,Some(\"unknown\")), local=(403,None,Some(\"unknown\")), dispatch_delta=1"
    );
    assert_eq!(
        detail(matrix.refused(NegativeRow::InactiveLocal, &StreamProbe::Accepted)),
        "inactive target through owner-local ingress unexpectedly upgraded a consumer stream"
    );
    assert_eq!(
        detail(matrix.label_refused(1, &StreamProbe::Accepted)),
        "route label health unexpectedly reached an adapter"
    );
    assert_eq!(
        detail(matrix.healthy(Err(HarnessError::http("not served")))),
        "not served"
    );
    assert_eq!(
        detail(matrix.path_refused(2, 200)),
        "public route /diagnostics returned status 200, expected 404"
    );
    assert_eq!(
        detail(matrix.negatives(&idle, &busy)),
        "public admission negative matrix advanced application dispatches by 1"
    );
    assert_eq!(
        detail(matrix.owner_lost(&failure(200, None, None))),
        "selected-owner loss returned status 200 and bounded code None"
    );
    assert_eq!(
        detail(matrix.sibling_survived(&idle, &busy, &owner, &sibling)),
        "selected-owner fault advanced application dispatches by 1"
    );
    assert_eq!(
        detail(matrix.sibling_survived(&idle, &idle, &owner, &sibling)),
        "sibling canary dispatch delta after selected-owner loss was 0"
    );
    assert_eq!(
        detail(matrix.lookup_failed(&StreamProbe::Accepted)),
        "Redis lookup failure unexpectedly upgraded a consumer stream"
    );
    assert_eq!(
        detail(matrix.lookup_dispatched_nothing(&idle, &idle)),
        "Redis lookup failure was not a typed no-dispatch result: rejected=false, delta=0"
    );
    assert_eq!(matrix.evidence, before);
    assert_eq!(
        detail(AdmissionMatrix::new(0, 1)),
        "public admission baseline canaries did not dispatch"
    );
}

#[test]
fn the_first_failure_wins_and_cleanup_failures_are_added() {
    let error = |text: &str| HarnessError::process(text);
    assert_eq!(
        detail(conclude_matrix(
            Err(error("rows")),
            Err(error("sibling")),
            Err(error("target"))
        )),
        "rows"
    );
    assert_eq!(
        detail(conclude_matrix(
            Ok(run_matrix(None)),
            Err(error("sibling")),
            Err(error("target"))
        )),
        "sibling"
    );
    assert_eq!(
        detail(conclude_matrix(Ok(run_matrix(None)), Ok(()), Err(error("target")))),
        "target"
    );
    assert!(conclude_matrix(Ok(run_matrix(None)), Ok(()), Ok(())).is_ok());
    let steps = vec![
        CleanupStep {
            label: "proxy".to_owned(),
            failure: Some(HarnessError::timeout("late")),
        },
        CleanupStep {
            label: "relay".to_owned(),
            failure: None,
        },
        CleanupStep {
            label: "redis".to_owned(),
            failure: Some(error("left")),
        },
    ];
    assert_eq!(
        with_admission_cleanup_failures(HarnessError::http("first"), &steps).detail(),
        "HTTP/TLS probe error: first; cleanup failures: proxy: harness timeout: late; redis: managed process error: left"
    );
    assert_eq!(
        detail(conclude_admission(Ok(run_matrix(None)), &steps)),
        "managed process error: public admission scenario completed but cleanup failed; cleanup failures: proxy: harness timeout: late; redis: managed process error: left"
    );
    assert_eq!(
        detail(conclude_admission(Err(error("scenario")), &joined_steps())),
        "scenario"
    );
}

fn token() -> OwnerToken {
    OwnerToken {
        deployment_incarnation: "i".to_owned(),
        tenant_id: "t".to_owned(),
        device_id: "d".to_owned(),
        node_id: "relay-a".to_owned(),
        boot_id: "b".to_owned(),
        session_id: "s".to_owned(),
        epoch: 4,
    }
}

fn event(session: &str, closed_at_ms: u64, reason: &'static str) -> TerminalEvent {
    TerminalEvent {
        tenant_id: "t".to_owned(),
        device_id: "d".to_owned(),
        session_id: session.to_owned(),
        epoch: 4,
        closed_at_ms,
        reason,
    }
}

fn reading(sessions: Vec<SessionSummary>, terminal_events: Vec<TerminalEvent>) -> OwnerReading {
    OwnerReading::Read(RelayReading {
        monotonic_now_ms: 77,
        lifetime_application_dispatches: 1,
        consumer_write_timeout_count: 2,
        peer_owner_send_count: 3,
        peer_ingress_receive_count: 4,
        peer_consumer_owner_send_count: 5,
        peer_consumer_owner_receive_count: 6,
        peer_consumer_ingress_send_count: 7,
        peer_consumer_ingress_receive_count: 8,
        sessions,
        terminal_events,
    })
}

#[test]
fn an_owner_snapshot_names_the_session_and_its_latest_end() {
    assert_eq!(
        admission_owner_snapshot(&OwnerReading::NoRelay, &token()),
        "target_owner=relay-a,snapshot_error=relay_lookup"
    );
    assert_eq!(
        admission_owner_snapshot(&OwnerReading::Failed, &token()),
        "target_owner=relay-a,snapshot_error=relay_snapshot"
    );
    assert_eq!(
        admission_owner_snapshot(&OwnerReading::TimedOut, &token()),
        "target_owner=relay-a,snapshot_timeout=true"
    );
    let missing = admission_owner_snapshot(
        &reading(
            Vec::new(),
            vec![
                event("s", 9, "FIRST"),
                event("s", 9, "SECOND"),
                event("s", 3, "OLD"),
                event("x", 99, "OTHER"),
            ],
        ),
        &token(),
    );
    assert_eq!(
        missing,
        "target_owner=relay-a,expected_tenant=t,expected_device=d,expected_session=s,expected_epoch=4,snapshot_monotonic_ms=77,session_count=0,lifetime_dispatches=1,consumer_write_timeout_count=2,peer_owner_send_count=3,peer_ingress_receive_count=4,peer_consumer_owner_send_count=5,peer_consumer_owner_receive_count=6,peer_consumer_ingress_send_count=7,peer_consumer_ingress_receive_count=8,terminal_event_count=4,session=missing,terminal_reason=SECOND"
    );
    let session = SessionSummary {
        tenant_id: "t".to_owned(),
        device_id: "d".to_owned(),
        session_id: "s".to_owned(),
        epoch: 4,
        phase: "active".to_owned(),
        sockets: 2,
        queue_bytes: 10,
        queue_messages: 1,
        streams: 3,
        drain_fences: 0,
        drain_proofs: 0,
        replay_frames: 5,
        replay_bytes: 50,
        rotation_deadline_ms: None,
    };
    let present = admission_owner_snapshot(&reading(vec![session], Vec::new()), &token());
    assert!(present.ends_with(
        ",session=present,session_id=s,epoch=4,phase=active,sockets=2,queue_bytes=10,queue_messages=1,streams=3,drain_fences=0,drain_proofs=0,replay_frames=5,replay_bytes=50,rotation_deadline_ms=none,terminal_reason=none"
    ));
}

#[test]
fn a_client_is_reported_by_state_and_known_causes() {
    let causes = vec!["frame".to_owned(), "order".to_owned()];
    let exited = ProcessState::Exited {
        success: false,
        code: Some(-1),
        signal: None,
    };
    let text = admission_cli_diagnostic(&exited, &causes);
    assert_eq!(
        text,
        "target_cli=state=exited,success=false,exit_code=-1,signal=none,target_cli_protocol_causes=[\"frame\", \"order\"]"
    );
    let running = admission_cli_diagnostic(&ProcessState::Running, &Vec::new());
    assert_eq!(
        running,
        "target_cli=state=running,target_cli_protocol_causes=[]"
    );
    let both = admission_cli_failure_diagnostic("first", "second");
    assert_eq!(
        both,
        "target_cli_at_failure=first,target_cli_after_bounded_wait=second"
    );
    let annotated =
        annotate_admission_matrix_failure(&HarnessError::process("row"), "cli", "owner");
    assert_eq!(
        annotated.detail(),
        "managed process error: row; public admission failure diagnostics: cli; owner"
    );
}

#[test]
fn protocol_errors_are_picked_out_of_a_bounded_output() {
    let output = b"noise\n{\"error\":{\"code\":\"PROTOCOL_ERROR\",\"message\":\"bad frame\"}}\n";
    let lines = client_lines(output);
    assert_eq!(lines.len(), 2);
    assert!(matches!(next_line(&lines[0], 0), LineStep::Skip));
    match next_line(&lines[1], 0) {
        LineStep::Classify(message) => assert_eq!(message, "bad frame"),
        _ => panic!("a protocol error was passed over"),
    }
    assert!(matches!(next_line(&lines[1], 8), LineStep::Stop));
    assert!(matches!(next_line(&"x".repeat(8193), 0), LineStep::Stop));
    assert!(matches!(
        next_line(r#"{"error":{"code":"OTHER","message":"m"}}"#, 0),
        LineStep::Skip
    ));
    assert!(matches!(next_line(r#"{"error":"text"}"#, 0), LineStep::Skip));
    let many = vec![b'\n'; 100];
    assert_eq!(client_lines(&many).len(), 64);
    let mut causes = Vec::new();
    add_cause(&mut causes, "frame");
    add_cause(&mut causes, "order");
    add_cause(&mut causes, "frame");
    assert_eq!(causes, vec!["frame", "order"]);
}

#[test]
fn a_fault_context_names_the_permutation() {
    let relay = |node: &str, source: &str, readiness: Option<(bool, String)>| RelayContext {
        node_id: node.to_owned(),
        source: source.to_owned(),
        membership: "Ready".to_owned(),
        readiness,
    };
    let relays = vec![
        relay("relay-b", "one", Some((true, "S".to_owned()))),
        relay("relay-c", "one", None),
    ];
    assert_eq!(
        admission_fault_context(&relays, "relay-a", "relay-b", "relay-c"),
        "target_owner=relay-a,sibling_owner=relay-b,fault_ingress=relay-c,sibling_ingress=relay-b,sibling_owner_is_sibling_ingress=true,fault_ingress_is_sibling_ingress=false,source_addrs_distinct=false,fault_source_is_sibling_source=true,relays=[relay-b:membership=Ready,ready=true,snapshot=S|relay-c:membership=Ready,unconfigured]"
    );
}
