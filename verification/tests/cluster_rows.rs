//! What the cluster gate's cases record, and the steps that they share, on
//! concrete observations.

use tunnel_test_harness::acp_cases::{Answer, ForgeryTally};
use tunnel_test_harness::acp_cluster::{not_covered, AcpClusterEvidence, CLUSTER_CASES};
use tunnel_test_harness::acp_load::{HopBytePair, LoadTally};
use tunnel_test_harness::cluster_cases::{
    check_arm, check_overlap, check_restored, check_round, check_second_owner, check_warm_up,
    cluster_case, record_disclosure, record_forgeries, record_isolation, record_journal,
    record_key_rotation, record_owner_loss, record_path_loss, record_refused_dispatch,
    record_saturation, record_served_beside_stall, record_shared_ids, record_span_end,
    record_still_served, record_totals, record_window, record_withdrawal, revocation_settled,
    upload_id, ClusterCase, HeldSession, IsolationProbes, KeyRotationArm, RecordedHop,
    RevocationAnswer, RunTotals, WindowEdge,
};
use tunnel_test_harness::error::HarnessError;
use tunnel_test_harness::freeze::RefusalLedger;
use tunnel_test_harness::gate_steps::{
    callback_id, check_offered, expect_accepted, expect_accepted_with_body, expect_stream,
    judge_absent_message, judge_interruption, judge_marker, leftover_processes, opened_connection,
    turn_served, wait_over, write_status, Interruption, MarkerStep, MessageStep,
};
use tunnel_test_harness::json::parse_document;

fn detail<T>(result: Result<T, HarnessError>) -> String {
    match result {
        Ok(_) => panic!("an observation that must fail was accepted"),
        Err(error) => error.detail().to_owned(),
    }
}

fn edge(rotations: u64, session: &str, epoch: u64) -> WindowEdge {
    WindowEdge {
        rotations,
        owner_rotations: rotations,
        session_id: session.to_owned(),
        epoch,
    }
}

#[test]
fn cluster_cases_are_selected_by_name() {
    for case in CLUSTER_CASES {
        assert!(cluster_case(case).is_ok());
    }
    assert_eq!(
        cluster_case("owner-loss").expect("a case"),
        ClusterCase::OwnerLoss
    );
    assert_eq!(
        detail(cluster_case("other")),
        "unknown ACP cluster gate case other"
    );
    assert!(check_second_owner("relay-b").is_ok());
    assert_eq!(
        detail(check_second_owner("relay-a")),
        "the tenant-B device is owned by relay-a, not relay-b"
    );
    assert!(check_warm_up("end_turn").is_ok());
    assert_eq!(
        detail(check_warm_up("refusal")),
        "the warm-up turn ended refusal, not end_turn"
    );
}

#[test]
fn the_window_is_recorded_from_its_two_edges() {
    let mut evidence = AcpClusterEvidence::default();
    record_window(
        &mut evidence,
        &edge(4, "s", 2),
        &edge(7, "s", 2),
        9_000,
        5,
        vec![2, 2, 2],
        3,
        false,
    );
    assert_eq!(evidence.rotations_across_span, 3);
    assert_eq!(evidence.owner_rotations_across_span, 3);
    assert!(evidence.rotation_span_met_schedule);
    assert!(evidence.device_session_stable);
    assert!(evidence.device_epoch_stable);
    assert!(evidence.connection_stream_alive);
    record_window(
        &mut evidence,
        &edge(4, "s", 2),
        &edge(4, "r", 3),
        8_999,
        5,
        Vec::new(),
        3,
        true,
    );
    assert!(!evidence.rotation_span_met_schedule);
    assert!(!evidence.device_session_stable);
    assert!(!evidence.device_epoch_stable);
    assert!(!evidence.connection_stream_alive);
    record_span_end(&mut evidence, "c-1", "c-1", 2, 3);
    assert!(evidence.connection_stable);
    assert_eq!(evidence.side_effects_in_ledger, 2);
    assert_eq!(evidence.side_effects_after_settle, 3);
    record_span_end(&mut evidence, "c-1", "c-2", 2, 2);
    assert!(!evidence.connection_stable);
    assert_eq!(evidence.side_effects_after_settle, 2);
}

#[test]
fn a_stream_that_died_is_named_with_its_rotation() {
    let held = |session: &str, dead: bool| HeldSession {
        session: session.to_owned(),
        dead,
    };
    let live = vec![held("s-1", false), held("s-2", false)];
    assert!(check_round(false, &live, 1).is_ok());
    assert_eq!(
        detail(check_round(true, &live, 2)),
        "the connection GET died at rotation 2"
    );
    let dead = vec![held("s-1", false), held("s-2", true), held("s-3", true)];
    assert_eq!(
        detail(check_round(false, &dead, 3)),
        "the session GET for s-2 died at rotation 3"
    );
}

#[test]
fn isolation_needs_equal_answers_of_the_right_status() {
    let answer = |status: u16, body: &str| Answer::new(status, Vec::new(), body.as_bytes().to_vec());
    let mut evidence = AcpClusterEvidence::default();
    record_isolation(
        &mut evidence,
        &IsolationProbes {
            foreign: answer(404, "gone"),
            foreign_absent: answer(404, "gone"),
            cross: answer(403, "no"),
            cross_absent: answer(403, "no"),
            elsewhere: answer(404, "gone"),
            elsewhere_absent: answer(404, "Gone"),
        },
    );
    assert!(evidence.same_tenant_foreign_matches_unknown);
    assert_eq!(evidence.foreign_refusal_status, 404);
    assert!(!evidence.cross_tenant_foreign_matches_unknown);
    assert!(!evidence.connection_id_inert_in_other_tenant);
    record_shared_ids(&mut evidence, "c-1", "c-2", "s", "s", true);
    assert!(!evidence.connection_ids_collide);
    assert!(evidence.session_ids_collide);
    assert_eq!(evidence.shared_rpc_ids, vec!["s:1", "n:1"]);
    assert!(evidence.replies_routed_per_principal);
    record_still_served(&mut evidence, 202, Some("end_turn"), 1);
    assert!(evidence.genuine_request_still_served);
    record_still_served(&mut evidence, 202, Some("cancelled"), 1);
    assert!(!evidence.genuine_request_still_served);
}

#[test]
fn forgeries_are_recorded_with_what_they_moved() {
    let mut tally = ForgeryTally::new();
    tally.observe("binding", 400, "BAD", "not_dispatched");
    let mut evidence = AcpClusterEvidence::default();
    record_forgeries(&mut evidence, tally, (4, 7), (2, 2));
    assert_eq!(evidence.forgery_attempts, 1);
    assert_eq!(evidence.forgeries_refused, 1);
    assert_eq!(evidence.forgery_ingress_rejections, 3);
    assert_eq!(evidence.forgery_dispatched, 0);
    assert_eq!(evidence.forgery_codes, vec!["binding=400:BAD:not_dispatched"]);
    let mut more = ForgeryTally::new();
    more.observe("owner", 200, "", "");
    record_forgeries(&mut evidence, more, (7, 7), (2, 5));
    assert_eq!(evidence.forgery_attempts, 2);
    assert_eq!(evidence.forgeries_refused, 1);
    assert_eq!(evidence.forgery_dispatched, 3);
    assert_eq!(evidence.forgery_codes, vec!["owner=200::"]);
}

#[test]
fn a_revocation_counts_its_own_attempts() {
    assert!(revocation_settled(404, false));
    assert!(!revocation_settled(503, false));
    assert!(revocation_settled(503, true));
    let mut evidence = AcpClusterEvidence::default();
    record_refused_dispatch(
        &mut evidence,
        RevocationAnswer {
            status: 404,
            code: "SERVICE_NOT_FOUND".to_owned(),
            execution: "not_dispatched".to_owned(),
            attempts: 2,
        },
        404,
    );
    assert_eq!(evidence.revocation_dispatch_attempts, 3);
    assert_eq!(evidence.revocation_after_code, "SERVICE_NOT_FOUND");
    record_withdrawal(
        &mut evidence,
        true,
        "dispatched+unknown".to_owned(),
        true,
        (3, 4),
        (9, 5),
    );
    assert!(evidence.revocation_in_flight_withdrawn);
    assert_eq!(evidence.revocation_dispatched_after, 1);
}

#[test]
fn interruptions_and_key_arms_are_recorded_apart() {
    let interruption = |interrupted: bool| Interruption {
        interrupted,
        no_stop_reason: true,
    };
    let arm = |interrupted: bool, reason: &str| KeyRotationArm {
        interruption: interruption(interrupted),
        key_left_verifier: interrupted,
        owner_unready: interrupted,
        reasons: vec![reason.to_owned()],
        owner_reasons: Vec::new(),
    };
    let mut evidence = AcpClusterEvidence::default();
    record_key_rotation(
        &mut evidence,
        arm(false, "membership_changed"),
        arm(true, "membership_revoked"),
    );
    assert!(evidence.key_overlap_staged);
    assert!(!evidence.version_bump_interrupted);
    assert!(evidence.key_rotation_interrupted);
    assert_eq!(evidence.version_bump_reasons, vec!["membership_changed"]);
    assert_eq!(evidence.key_rotation_reasons, vec!["membership_revoked"]);
    record_path_loss(&mut evidence, false, interruption(true));
    record_owner_loss(&mut evidence, interruption(false));
    assert!(evidence.pin_withdrawal_left_stream_serving);
    assert!(evidence.path_loss_interrupted);
    assert!(!evidence.owner_loss_interrupted);
    assert!(check_overlap(true).is_ok());
    assert!(check_overlap(false).is_err());
    assert_eq!(
        detail(check_arm("keyrot-key", false)),
        "the keyrot-key record did not reach every relay's verifier within 20s"
    );
    assert!(check_restored(true).is_ok());
    assert!(check_restored(false).is_err());
}

#[test]
fn saturation_figures_come_from_one_instant() {
    let pair = |send_bytes: usize, receive_bytes: usize| HopBytePair {
        send_bytes,
        receive_bytes,
    };
    let mut tally = LoadTally::new();
    tally.coherent = pair(308, 188);
    tally.samples = 517;
    tally.hop_coincident = pair(100, 90);
    tally.hop_samples = 570;
    let mut evidence = AcpClusterEvidence::default();
    record_saturation(
        &mut evidence,
        &tally,
        &RecordedHop {
            send_in_flight: 195_933,
            window: 196_608,
            looks: 1,
            coincident: pair(200, 229),
        },
        1,
        171,
    );
    assert!(evidence.ingress_request_direction_saturated);
    assert_eq!(evidence.peer_hop_coincident_send, 200);
    assert_eq!(evidence.peer_hop_coincident_receive, 229);
    assert_eq!(evidence.peer_hop_coincident_percent, 0);
    assert!(!evidence.peer_hop_both_directions_saturated);
    assert_eq!(evidence.owner_device_coherent_samples, 518);
    assert_eq!(evidence.owner_device_loaded_samples, 517);
    assert_eq!(evidence.owner_device_request_bytes_at_instant, 308);
    assert_eq!(upload_id(1), "sat-upload");
    assert_eq!(upload_id(3), "sat-upload-3");
    record_served_beside_stall(&mut evidence, "end_turn".to_owned(), 409, Some("end_turn"));
    assert!(!evidence.live_stream_served_while_parked);
    assert_eq!(evidence.live_probe_status, 409);
}

#[test]
fn totals_are_recorded_with_the_disclosure_of_this_run() {
    let mut evidence = AcpClusterEvidence::default();
    evidence.rotation_span_ms = 11_223;
    evidence.rotations_across_span = 3;
    record_disclosure(&mut evidence);
    assert_eq!(evidence.not_covered, not_covered(11_223, 3));
    record_journal(&mut evidence, 4, 5);
    let mut ledger = RefusalLedger::new();
    ledger.refusals = 6;
    ledger.retries = 6;
    record_totals(
        &mut evidence,
        ledger,
        &RunTotals {
            membership_resigns: 2,
            boundary_route_probes: 3,
            leftover_processes: 1,
        },
    );
    assert_eq!(evidence.open_journal_entries, 4);
    assert_eq!(evidence.not_dispatched_refusals, 6);
    assert_eq!(evidence.boundary_route_probes, 3);
    assert_eq!(evidence.leftover_processes, 1);
}

#[test]
fn statuses_are_printed_with_their_phrase() {
    assert_eq!(write_status(404), "404 Not Found");
    assert_eq!(write_status(599), "599 <unknown status code>");
    assert!(expect_accepted("the held prompt", 202).is_ok());
    assert!(expect_accepted_with_body("the response", 202, "ignored").is_ok());
    assert_eq!(
        detail(expect_accepted_with_body("the response", 404, "{\"a\":1}")),
        "the response answered 404 Not Found, not 202: {\"a\":1}"
    );
    assert_eq!(
        detail(expect_accepted("the held prompt", 503)),
        "the held prompt answered 503 Service Unavailable, not 202"
    );
    assert_eq!(
        detail(expect_stream("the session GET", 404, false)),
        "the session GET answered 404 Not Found"
    );
    assert!(expect_stream("the session GET", 200, true).is_ok());
    assert_eq!(
        opened_connection(200, Some("c-1")).expect("a connection"),
        "c-1"
    );
    assert_eq!(
        detail(opened_connection(502, None)),
        "initialize over the real route answered 502 Bad Gateway"
    );
    assert_eq!(
        detail(opened_connection(200, None)),
        "initialize returned no Acp-Connection-Id"
    );
}

#[test]
fn waits_end_by_an_event_or_by_their_bound() {
    assert!(wait_over(true, false, false));
    assert!(wait_over(false, true, false));
    assert!(wait_over(false, false, true));
    assert!(!wait_over(false, false, false));
    assert!(matches!(
        judge_absent_message("the callback", false, false),
        MessageStep::Again
    ));
    match judge_absent_message("the callback", true, true) {
        MessageStep::Failed(error) => {
            assert_eq!(error.detail(), "the stream errored before the callback arrived")
        }
        _ => panic!("a failed stream was waited for"),
    }
    match judge_absent_message("the callback", false, true) {
        MessageStep::Failed(error) => assert_eq!(
            error.message(),
            "harness timeout: the callback never arrived on the stream"
        ),
        _ => panic!("a bound was passed over"),
    }
    match judge_marker(Some(" selected:x \n"), false, "late") {
        MarkerStep::Recorded(outcome) => assert_eq!(outcome, "selected:x"),
        _ => panic!("a marker was passed over"),
    }
    assert!(matches!(judge_marker(Some(" \n"), false, "late"), MarkerStep::Again));
    assert!(matches!(judge_marker(None, true, "late"), MarkerStep::TimedOut(_)));
}

#[test]
fn a_held_turn_is_interrupted_by_failing_and_not_by_ending() {
    let result = parse_document(br#"{"id":"held","result":{"stopReason":"end_turn"}}"#)
        .expect("a JSON document");
    let ended = judge_interruption(false, &vec![result], "held");
    assert!(!ended.interrupted);
    assert!(!ended.no_stop_reason);
    let failed = judge_interruption(true, &Vec::new(), "held");
    assert!(failed.interrupted);
    assert!(failed.no_stop_reason);
    assert!(turn_served(202, Some("end_turn")));
    assert!(!turn_served(409, Some("end_turn")));
    assert!(!turn_served(202, None));
    assert_eq!(callback_id("s:cb-1").expect("an id"), "cb-1");
    assert_eq!(
        detail(callback_id("n:1")),
        "the callback id was not a string"
    );
    let offered = vec!["allow".to_owned(), "reject".to_owned()];
    assert!(check_offered(&offered, "allow").is_ok());
    assert_eq!(
        detail(check_offered(&offered, "maybe")),
        "the agent never offered maybe; it offered [\"allow\", \"reject\"]"
    );
    assert_eq!(leftover_processes(&vec![true, false, true]), 2);
}
