//! The cluster gate's rules on evidence from a passing run, and on each single
//! claim spoiled.

use tunnel_test_harness::acp_cluster::{
    not_covered, validate_acp_cluster_evidence, AcpClusterEvidence, SessionSpan, CLUSTER_CASES,
    ROTATION_CEILING_MS,
};
use tunnel_test_harness::acp_real_path::{
    M7_MEMBERSHIP_LIFETIME_SECONDS, MEMBERSHIP_RECORD_LIFETIME_MS, MEMBERSHIP_RESIGN_SPACING_MS,
};

fn passing_evidence() -> AcpClusterEvidence {
    let span = |session: &str| SessionSpan {
        session: session.to_owned(),
        updates_before: 1,
        callbacks: 1,
        updates_after: 1,
        stop_reason: "end_turn".to_owned(),
        stream_alive_through_window: true,
        distinct_agent_ids: 3,
        identified_messages: 3,
        messages: 5,
    };
    let mut evidence = AcpClusterEvidence {
        relay_count: 3,
        owner_node: "relay-a".to_owned(),
        ingress_node: "relay-c".to_owned(),
        non_owner_ingress: true,
        cases_executed: CLUSTER_CASES
            .iter()
            .map(|case| (*case).to_owned())
            .collect(),
        not_covered: Vec::new(),
        rotations_across_span: 3,
        owner_rotations_across_span: 3,
        rotation_span_ms: 11_223,
        rotation_span_met_schedule: true,
        sessions: vec![span("session-1"), span("session-2")],
        connection_stable: true,
        connection_stream_alive: true,
        device_session_stable: true,
        device_epoch_stable: true,
        distinct_device_sockets: 5,
        new_sockets_per_round: vec![1, 1, 1],
        steady_state_sockets: vec![2, 2, 2],
        device_socket_peak: 3,
        side_effects_in_ledger: 2,
        side_effects_after_settle: 2,
        membership_resigns: 2,
        boundary_route_probes: 2,
        max_membership_age_at_case_end_ms: 15_621,
        resign_spacing_ms: MEMBERSHIP_RESIGN_SPACING_MS,
        not_dispatched_refusals: 0,
        not_dispatched_retries: 0,
        unexplained_refusal: None,
        connection_ids_collide: false,
        connection_id_inert_in_other_tenant: true,
        session_ids_collide: true,
        shared_rpc_ids: vec!["s:1".to_owned(), "n:1".to_owned()],
        replies_routed_per_principal: true,
        same_tenant_foreign_matches_unknown: true,
        cross_tenant_foreign_matches_unknown: true,
        foreign_refusal_status: 404,
        genuine_request_still_served: true,
        tenant_b_sessions_opened: 1,
        forgery_attempts: 3,
        forgeries_refused: 3,
        forgery_ingress_rejections: 3,
        forgery_dispatched: 0,
        forgery_codes: Vec::new(),
        revocation_in_flight_withdrawn: true,
        revocation_in_flight_execution: "dispatched+unknown".to_owned(),
        revocation_after_status: 404,
        revocation_after_prompt_status: 404,
        revocation_dispatch_attempts: 2,
        revocation_after_code: "SERVICE_NOT_FOUND".to_owned(),
        revocation_after_execution: "not_dispatched".to_owned(),
        revocation_dispatched_after: 0,
        revocation_no_stop_reason: true,
        pin_withdrawal_left_stream_serving: true,
        path_loss_interrupted: true,
        path_loss_no_stop_reason: true,
        owner_loss_interrupted: true,
        owner_loss_no_stop_reason: true,
        key_overlap_staged: true,
        version_bump_interrupted: true,
        version_bump_reasons: vec!["membership_changed".to_owned()],
        key_rotation_interrupted: true,
        key_rotation_no_stop_reason: true,
        key_rotation_reasons: vec!["membership_revoked".to_owned()],
        key_rotation_owner_reasons: vec!["membership_revoked".to_owned()],
        key_rotation_owner_unready: true,
        version_bump_owner_reasons: Vec::new(),
        version_bump_owner_unready: false,
        key_left_ingress_verifier: true,
        key_rotation_route_probes: 3,
        ingress_request_peer_send_in_flight: 195_933,
        peer_window: 196_608,
        ingress_request_direction_saturated: true,
        peer_hop_coincident_send: 200,
        peer_hop_coincident_receive: 229,
        peer_hop_live_sampled_send: 163_113,
        peer_hop_live_sampled_receive: 53,
        peer_hop_live_samples: 570,
        peer_hop_coincident_percent: 0,
        peer_hop_both_directions_saturated: false,
        owner_device_queue_peak_sampled: 180_744,
        owner_device_queue_high_water: 180_824,
        owner_device_queue_limit: 4_063_232,
        owner_device_request_bytes_at_instant: 308,
        owner_device_response_bytes_at_instant: 188,
        owner_device_coherent_samples: 518,
        owner_device_loaded_samples: 517,
        owner_device_upload_ms: 171,
        owner_device_upload_attempts: 1,
        saturating_upload_stop_reason: "end_turn".to_owned(),
        live_probe_status: 202,
        live_stream_served_while_parked: true,
        open_journal_entries: 0,
        open_streams_retired: 0,
        leftover_processes: 0,
    };
    evidence.not_covered =
        not_covered(evidence.rotation_span_ms, evidence.rotations_across_span);
    evidence
}

#[test]
fn the_disclosed_record_lifetime_is_the_one_the_fixture_signs() {
    assert_eq!(
        i64::try_from(MEMBERSHIP_RECORD_LIFETIME_MS / 1000).unwrap_or(i64::MAX),
        M7_MEMBERSHIP_LIFETIME_SECONDS,
        "the disclosure quotes a record lifetime the fixture does not sign"
    );
}

#[test]
fn a_passing_run_validates() {
    validate_acp_cluster_evidence(&passing_evidence())
        .expect("evidence from a passing run must validate");
}

type Falsification = (&'static str, fn(&mut AcpClusterEvidence), &'static str);

#[test]
fn every_claim_can_fail_on_its_own() {
    let mutations: Vec<Falsification> = vec![
        ("relay_count", |e| e.relay_count = 2, "three relays"),
        (
            "non_owner_ingress",
            |e| e.non_owner_ingress = false,
            "owned by relay-a",
        ),
        (
            "owner_node",
            |e| e.owner_node = "relay-c".to_owned(),
            "owned by relay-a",
        ),
        (
            "ingress_node",
            |e| e.ingress_node = "relay-a".to_owned(),
            "owned by relay-a",
        ),
        (
            "cases_executed",
            |e| {
                e.cases_executed.pop();
            },
            "every case executed",
        ),
        (
            "rotations_across_span",
            |e| e.rotations_across_span = 2,
            "at least three scheduled rotations completed",
        ),
        (
            "owner_rotations_across_span",
            |e| {
                e.owner_rotations_across_span = 2;
            },
            "owner counted the same rotations independently",
        ),
        (
            "rotation_span_met_schedule",
            |e| {
                e.rotation_span_met_schedule = false;
            },
            "at least as long as the configured rotation schedule",
        ),
        (
            "rotation_span_ms",
            |e| {
                e.rotation_span_ms = ROTATION_CEILING_MS + 1;
            },
            "finished inside one membership record",
        ),
        (
            "new_sockets_per_round",
            |e| {
                e.new_sockets_per_round = vec![1, 0, 1];
            },
            "exactly one new data socket",
        ),
        (
            "new_sockets_per_round length",
            |e| {
                e.new_sockets_per_round.pop();
            },
            "exactly one new data socket",
        ),
        (
            "steady_state_sockets",
            |e| {
                e.steady_state_sockets = vec![2, 3, 2];
            },
            "two device sockets at every settled steady state",
        ),
        (
            "device_socket_peak",
            |e| e.device_socket_peak = 4,
            "at most one candidate data socket",
        ),
        (
            "connection_stream_alive",
            |e| {
                e.connection_stream_alive = false;
            },
            "connection GET stayed live",
        ),
        (
            "device_session_stable",
            |e| e.device_session_stable = false,
            "not a reconnect",
        ),
        (
            "device_epoch_stable",
            |e| e.device_epoch_stable = false,
            "not a reconnect",
        ),
        (
            "side_effects_in_ledger",
            |e| e.side_effects_in_ledger = 3,
            "side effect exactly once",
        ),
        (
            "side_effects_after_settle",
            |e| {
                e.side_effects_after_settle = 3;
            },
            "side effect exactly once",
        ),
        (
            "max_membership_age_at_case_end_ms",
            |e| {
                e.max_membership_age_at_case_end_ms =
                    MEMBERSHIP_RECORD_LIFETIME_MS + 1;
            },
            "membership records' lifetime",
        ),
        (
            "unexplained_refusal",
            |e| {
                e.unexplained_refusal = Some("phase=active".to_owned());
            },
            "coincided with an observed rotation freeze",
        ),
        (
            "shared_rpc_ids",
            |e| e.shared_rpc_ids = vec!["s:1".to_owned()],
            "reuse the same JSON-RPC ids",
        ),
        (
            "connection_id_inert_in_other_tenant",
            |e| {
                e.connection_id_inert_in_other_tenant = false;
            },
            "refused in the other byte-identically",
        ),
        (
            "session_ids_collide",
            |e| e.session_ids_collide = false,
            "same session identifier",
        ),
        (
            "replies_routed_per_principal",
            |e| {
                e.replies_routed_per_principal = false;
            },
            "routed to the principal that asked",
        ),
        (
            "same_tenant_foreign_matches_unknown",
            |e| {
                e.same_tenant_foreign_matches_unknown = false;
            },
            "another principal of the same tenant",
        ),
        (
            "cross_tenant_foreign_matches_unknown",
            |e| {
                e.cross_tenant_foreign_matches_unknown = false;
            },
            "a principal of the other tenant",
        ),
        (
            "foreign_refusal_status",
            |e| e.foreign_refusal_status = 403,
            "not some other error",
        ),
        (
            "genuine_request_still_served",
            |e| {
                e.genuine_request_still_served = false;
            },
            "genuine owner was still served",
        ),
        (
            "tenant_b_sessions_opened",
            |e| e.tenant_b_sessions_opened = 2,
            "tenant B's export served exactly its own principal",
        ),
        (
            "forgeries_refused",
            |e| e.forgeries_refused = 2,
            "every forged head was refused before dispatch",
        ),
        (
            "forgery_dispatched",
            |e| e.forgery_dispatched = 1,
            "not one forged head reached the device",
        ),
        (
            "forgery_ingress_rejections",
            |e| {
                e.forgery_ingress_rejections = 0;
            },
            "rejection before admission",
        ),
        (
            "revocation_in_flight_withdrawn",
            |e| {
                e.revocation_in_flight_withdrawn = false;
            },
            "revocation withdrew the admitted exchange",
        ),
        (
            "revocation_in_flight_execution",
            |e| {
                e.revocation_in_flight_execution = "dispatched+not_dispatched".to_owned();
            },
            "classified execution: unknown",
        ),
        (
            "revocation_dispatch_attempts",
            |e| {
                e.revocation_dispatch_attempts = 0;
            },
            "admission was actually attempted after revocation",
        ),
        (
            "revocation_dispatched_after",
            |e| {
                e.revocation_dispatched_after = 1;
            },
            "nothing was dispatched to the device after revocation",
        ),
        (
            "revocation_after_status",
            |e| e.revocation_after_status = 503,
            "typed refusal",
        ),
        (
            "revocation_after_code",
            |e| {
                e.revocation_after_code = "PEER_UNAVAILABLE".to_owned();
            },
            "typed refusal",
        ),
        (
            "revocation_after_prompt_status",
            |e| {
                e.revocation_after_prompt_status = 202;
            },
            "own session was refused too",
        ),
        (
            "revocation_no_stop_reason",
            |e| {
                e.revocation_no_stop_reason = false;
            },
            "withdrawn turn never acquired a stop reason",
        ),
        (
            "path_loss_interrupted",
            |e| e.path_loss_interrupted = false,
            "peer-path loss did not produce an explicit interruption",
        ),
        (
            "path_loss_no_stop_reason",
            |e| {
                e.path_loss_no_stop_reason = false;
            },
            "peer-path loss produced a stopReason",
        ),
        (
            "key_rotation_interrupted",
            |e| e.key_rotation_interrupted = false,
            "peer-key rotation did not produce an explicit interruption",
        ),
        (
            "key_rotation_no_stop_reason",
            |e| {
                e.key_rotation_no_stop_reason = false;
            },
            "peer-key rotation produced a stopReason",
        ),
        (
            "key_overlap_staged",
            |e| e.key_overlap_staged = false,
            "staged key overlap reached every relay's verifier",
        ),
        (
            "key_left_ingress_verifier",
            |e| e.key_left_ingress_verifier = false,
            "withdrawn peer key left the ingress relay's own verifier",
        ),
        (
            "key_rotation_reasons",
            |e| {
                e.key_rotation_reasons = vec!["membership_changed".to_owned()];
            },
            "attributed the key arm's teardown to the withdrawn key",
        ),
        (
            "version_bump_reasons",
            |e| {
                e.version_bump_reasons = vec!["membership_revoked".to_owned()];
            },
            "same-key control arm was attributed to the record version",
        ),
        (
            "version_bump_reasons empty",
            |e| {
                e.version_bump_reasons = Vec::new();
            },
            "same-key control arm was attributed to the record version",
        ),
        (
            "key_rotation_owner_unready",
            |e| {
                e.key_rotation_owner_unready = false;
            },
            "still an owner self-revocation",
        ),
        (
            "key_rotation_owner_reasons",
            |e| {
                e.key_rotation_owner_reasons = Vec::new();
            },
            "still an owner self-revocation",
        ),
        (
            "version_bump_owner_unready",
            |e| {
                e.version_bump_owner_unready = true;
            },
            "control arm left the owner ready",
        ),
        (
            "version_bump_owner_reasons",
            |e| {
                e.version_bump_owner_reasons = vec!["membership_revoked".to_owned()];
            },
            "control arm left the owner ready",
        ),
        (
            "owner_loss_interrupted",
            |e| e.owner_loss_interrupted = false,
            "owner loss did not produce an explicit interruption",
        ),
        (
            "owner_loss_no_stop_reason",
            |e| {
                e.owner_loss_no_stop_reason = false;
            },
            "owner loss produced a stopReason",
        ),
        (
            "ingress_request_direction_saturated",
            |e| {
                e.ingress_request_direction_saturated = false;
            },
            "enforced saturation threshold",
        ),
        (
            "peer_hop_both_directions_saturated",
            |e| {
                e.peer_hop_both_directions_saturated = true;
            },
            "never saturated at one instant",
        ),
        (
            "peer_hop_live_samples",
            |e| {
                e.peer_hop_live_samples = 0;
            },
            "peer hop's live pair was sampled",
        ),
        (
            "owner_device_queue_high_water",
            |e| {
                e.owner_device_queue_high_water = 0;
            },
            "owner-to-device segment carried measured load",
        ),
        (
            "saturating_upload_stop_reason",
            |e| e.saturating_upload_stop_reason = "cancelled".to_owned(),
            "saturating upload completed",
        ),
        (
            "live_stream_served_while_parked",
            |e| {
                e.live_stream_served_while_parked = false;
            },
            "parked and stalling",
        ),
        (
            "owner_device_request_bytes_at_instant",
            |e| {
                e.owner_device_request_bytes_at_instant = 0;
            },
            "carried bytes at one coherent instant",
        ),
        (
            "owner_device_response_bytes_at_instant",
            |e| {
                e.owner_device_response_bytes_at_instant = 0;
            },
            "carried bytes at one coherent instant",
        ),
        (
            "owner_device_loaded_samples",
            |e| {
                e.owner_device_loaded_samples = 0;
            },
            "sampled while the upload was still in flight",
        ),
        (
            "leftover_processes",
            |e| e.leftover_processes = 1,
            "outlived the \
             gate",
        ),
        (
            "session stop_reason",
            |e| {
                e.sessions[0].stop_reason = "cancelled".to_owned();
            },
            "held turn completed end_turn",
        ),
        (
            "session callbacks",
            |e| e.sessions[1].callbacks = 2,
            "callback arrived exactly once",
        ),
        (
            "session updates_before",
            |e| e.sessions[0].updates_before = 0,
            "warm-up update arrived before the window",
        ),
        (
            "session updates_after",
            |e| e.sessions[1].updates_after = 0,
            "own update arrived after its callback",
        ),
        (
            "session identified_messages",
            |e| {
                e.sessions[0].identified_messages = 4;
            },
            "repeated under an id already seen",
        ),
        (
            "session stream_alive_through_window",
            |e| {
                e.sessions[0].stream_alive_through_window = false;
            },
            "session stream stayed live",
        ),
        (
            "session count",
            |e| {
                e.sessions.pop();
            },
            "sessions were carried across the window",
        ),
    ];
    for (name, mutate, expected) in mutations {
        let mut evidence = passing_evidence();
        mutate(&mut evidence);
        evidence.not_covered =
            not_covered(evidence.rotation_span_ms, evidence.rotations_across_span);
        let error = validate_acp_cluster_evidence(&evidence)
            .expect_err(&format!("falsifying {name} was accepted by the validator"));
        assert!(
            error.message().contains(expected),
            "falsifying {name} was rejected by the wrong rule: \
             expected one naming {expected:?}, got {error:?}"
        );
    }
}

#[test]
fn the_rotation_disclosure_carries_the_run_it_describes() {
    let mut evidence = passing_evidence();
    evidence.not_covered = not_covered(999, 9);
    assert!(validate_acp_cluster_evidence(&evidence).is_err());
}

#[test]
fn a_case_that_did_not_run_is_named_rather_than_counted() {
    let mut evidence = passing_evidence();
    evidence.cases_executed.retain(|case| case != "revocation");
    let error =
        validate_acp_cluster_evidence(&evidence).expect_err("a missing case must fail the run");
    assert!(
        error.message().contains("every case executed"),
        "a missing case must name itself, not produce unrelated failures: {error:?}"
    );
}
