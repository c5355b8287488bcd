//! The real-path gate's rules and what its cases record, on concrete
//! observations.

use tunnel_test_harness::acp_real_path::{
    not_covered, validate_acp_real_path_evidence, AcpRealPathEvidence, LossEvidence, ACP_CASES,
    MEMBERSHIP_RECORD_LIFETIME_MS, MEMBERSHIP_RESIGN_SPACING_MS,
};
use tunnel_test_harness::freeze::RefusalLedger;
use tunnel_test_harness::json::{parse_document, Json};
use tunnel_test_harness::real_path_cases::{
    check_session_header, judge_loss, real_path_case, record_callback, record_cancel,
    record_conversation, record_crash, record_effects, record_loss, record_opened,
    record_permission, record_permission_refusals, record_totals, ExportCounters, LossAftermath,
    LossStep, RealPathCase, RunTotals, StreamEnd,
};

const PERMIT: &str = "allow-once";
const REJECT: &str = "reject-once";

fn json(text: &str) -> Json {
    parse_document(text.as_bytes()).expect("a JSON document")
}

fn counters() -> ExportCounters {
    ExportCounters {
        connections_ended_by_subscriber_loss: 0,
        connections_ended_by_child: 0,
        permissions_cancelled_by_loss: 0,
        permissions_answered: 0,
        terminals_succeeded: 0,
        terminals_cancelled: 0,
        terminals_unknown: 0,
        live_connections: 0,
    }
}

fn aftermath() -> LossAftermath {
    LossAftermath {
        prompt_status: 404,
        other_errored: true,
        old_status: 404,
        old_connection: "c-1".to_owned(),
        fresh_connection: "c-2".to_owned(),
        child_gone: true,
    }
}

fn lost() -> LossEvidence {
    let mut now = counters();
    now.connections_ended_by_subscriber_loss = 1;
    now.permissions_cancelled_by_loss = 1;
    match judge_loss(counters(), now, false) {
        LossStep::Ended(loss) => loss,
        _ => panic!("a counted loss did not end the transport"),
    }
}

/// The evidence that a passing run's cases record.
fn passing() -> AcpRealPathEvidence {
    let mut evidence = AcpRealPathEvidence {
        relay_count: 3,
        owner_node: "relay-a".to_owned(),
        ingress_node: "relay-c".to_owned(),
        non_owner_ingress: true,
        cases_executed: ACP_CASES.iter().map(|case| (*case).to_owned()).collect(),
        resign_spacing_ms: MEMBERSHIP_RESIGN_SPACING_MS,
        max_membership_age_at_case_end_ms: 15_000,
        ..AcpRealPathEvidence::default()
    };
    let mut after = counters();
    after.terminals_succeeded = 1;
    record_opened(&mut evidence);
    record_conversation(&mut evidence, "end_turn".to_owned(), counters(), after);
    record_callback(
        &mut evidence,
        vec![PERMIT.to_owned(), REJECT.to_owned()],
    );
    record_permission_refusals(
        &mut evidence,
        "ACP_OPTION_NOT_OFFERED".to_owned(),
        "ACP_UNKNOWN_REQUEST_ID".to_owned(),
        404,
    );
    record_permission(
        &mut evidence,
        true,
        "end_turn".to_owned(),
        format!("selected:{PERMIT}"),
    );
    record_permission(
        &mut evidence,
        false,
        "refusal".to_owned(),
        format!("selected:{REJECT}"),
    );
    let seen = vec![
        json(r#"{"method":"session/request_permission","id":"cb"}"#),
        json(r#"{"method":"session/update"}"#),
        json(r#"{"id":"p","result":{"stopReason":"cancelled"}}"#),
    ];
    let mut cancelled = counters();
    cancelled.terminals_cancelled = 1;
    record_cancel(
        &mut evidence,
        "cancelled".to_owned(),
        "cancelled:".to_owned(),
        &seen,
        1,
        counters(),
        cancelled,
    );
    record_loss(&mut evidence, true, lost(), &aftermath());
    record_loss(&mut evidence, false, lost(), &aftermath());
    let mut crashed = counters();
    crashed.connections_ended_by_child = 1;
    crashed.terminals_unknown = 1;
    record_crash(
        &mut evidence,
        StreamEnd::Errored(52),
        70_000,
        &Vec::new(),
        counters(),
        crashed,
    );
    record_effects(&mut evidence, 1, 1, counters(), crashed);
    record_totals(
        &mut evidence,
        RefusalLedger::new(),
        &RunTotals {
            membership_resigns: 2,
            device_sessions: 1,
            rotations: Some(7),
            leftover_processes: 0,
        },
    );
    evidence
}

fn reject(spoil: fn(&mut AcpRealPathEvidence), fragment: &str) {
    let mut evidence = passing();
    spoil(&mut evidence);
    let error = validate_acp_real_path_evidence(&evidence, PERMIT, REJECT)
        .expect_err("spoiled evidence was accepted");
    assert!(
        error.message().contains(fragment),
        "expected a failure naming {fragment:?}, got {error:?}"
    );
}

#[test]
fn a_passing_real_path_run_validates() {
    validate_acp_real_path_evidence(&passing(), PERMIT, REJECT).expect("a passing run");
}

#[test]
fn every_real_path_claim_can_fail_on_its_own() {
    let spoils: [(fn(&mut AcpRealPathEvidence), &str); 24] = [
        (|e| e.relay_count = 2, "three relays"),
        (|e| e.owner_node = "relay-b".to_owned(), "owned by relay-a"),
        (|e| e.not_covered = not_covered(8), "rotation disclosure"),
        (|e| e.connection_opened = false, "initialize opened a connection"),
        (
            |e| e.session_id_from_connection_stream = false,
            "session identifier arrived",
        ),
        (|e| e.prompt_accepted_202 = false, "accepted 202"),
        (
            |e| e.conversation_stop_reason = "cancelled".to_owned(),
            "completed with end_turn",
        ),
        (
            |e| e.permission_requested_on_wire = false,
            "permission callback was observed",
        ),
        (
            |e| {
                e.offered_options.pop();
            },
            "exactly the two options",
        ),
        (
            |e| e.allow_outcome_at_agent = "selected:other".to_owned(),
            "receiving the allowed option",
        ),
        (
            |e| e.reject_outcome_at_agent = String::new(),
            "receiving the rejected option",
        ),
        (
            |e| e.reject_stop_reason = "end_turn".to_owned(),
            "ends the turn refusal",
        ),
        (
            |e| e.unoffered_option_rule = String::new(),
            "unoffered option is refused",
        ),
        (
            |e| e.unknown_request_id_rule = String::new(),
            "answering nothing outstanding",
        ),
        (|e| e.wrong_connection_status = 403, "wrong connection"),
        (
            |e| e.cancel_stop_reason = "end_turn".to_owned(),
            "stopReason cancelled",
        ),
        (
            |e| e.update_after_cancel_before_result = false,
            "after the cancellation",
        ),
        (
            |e| e.session_loss.new_prompt_refused = false,
            "a broken session stream: a new prompt is refused",
        ),
        (
            |e| e.connection_loss.permissions_approved = 1,
            "a broken connection stream: the pending permission",
        ),
        (
            |e| e.unknown_stream_errored = false,
            "errored rather than ending cleanly",
        ),
        (|e| e.unknown_no_stop_reason = false, "no stopReason ever"),
        (|e| e.side_effects_in_ledger = 2, "exactly once"),
        (
            |e| e.max_membership_age_at_case_end_ms = MEMBERSHIP_RECORD_LIFETIME_MS + 1,
            "membership records' lifetime",
        ),
        (|e| e.leftover_processes = 2, "2 agent processes outlived"),
    ];
    for (spoil, fragment) in spoils {
        reject(spoil, fragment);
    }
}

#[test]
fn a_missing_real_path_case_is_named() {
    reject(
        |e| e.cases_executed.retain(|case| case != "cancel"),
        "every case executed",
    );
}

#[test]
fn cases_are_selected_by_name() {
    for case in ACP_CASES {
        assert!(real_path_case(case).is_ok());
    }
    assert_eq!(
        real_path_case("sse-loss-session").expect("a case"),
        RealPathCase::SseLossSession
    );
    assert_eq!(
        real_path_case("other").expect_err("no case").message(),
        "invalid harness input: unknown ACP gate case other"
    );
    assert!(check_session_header(false).is_ok());
    assert!(check_session_header(true).is_err());
}

#[test]
fn a_loss_is_waited_for_and_judged_by_the_export() {
    assert!(matches!(
        judge_loss(counters(), counters(), false),
        LossStep::Again
    ));
    assert!(matches!(
        judge_loss(counters(), counters(), true),
        LossStep::TimedOut(_)
    ));
    let loss = lost();
    assert!(loss.terminated_by_loss);
    assert_eq!(loss.permissions_cancelled, 1);
    assert_eq!(loss.permissions_approved, 0);
    let mut evidence = AcpRealPathEvidence::default();
    let mut reopened = aftermath();
    reopened.fresh_connection = reopened.old_connection.clone();
    record_loss(&mut evidence, true, lost(), &reopened);
    assert!(!evidence.session_loss.reconnect_requires_initialize);
}

#[test]
fn a_clean_end_is_not_a_failed_stream() {
    let mut evidence = AcpRealPathEvidence::default();
    let seen = vec![json(r#"{"result":{"stopReason":"end_turn"}}"#)];
    record_crash(
        &mut evidence,
        StreamEnd::Ended,
        70_000,
        &seen,
        counters(),
        counters(),
    );
    assert!(evidence.unknown_stream_ended_cleanly);
    assert!(!evidence.unknown_stream_errored);
    assert!(!evidence.unknown_no_stop_reason);
    assert!(!evidence.unknown_export_ended_connection);
    assert_eq!(evidence.unknown_error_wait_ms, 70_000);
    evidence.unknown_error_latency_ms = 5;
    record_crash(
        &mut evidence,
        StreamEnd::Open,
        70_000,
        &seen,
        counters(),
        counters(),
    );
    assert!(evidence.unknown_stream_ended_cleanly);
    assert_eq!(evidence.unknown_error_latency_ms, 5);
}
