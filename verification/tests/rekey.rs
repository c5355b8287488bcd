//! The genuine key rotation's decisions, on concrete values.

use tunnel_test_harness::error::HarnessError;
use tunnel_test_harness::gate_steps::Interruption;
use tunnel_test_harness::genuine_rekey::{
    adopt_successor, check_genuine_overlap, check_genuine_withdrawal, judge_switch, presented,
    resigned_on_successor, retired_by_withdrawal, spki_from_hex, staged_not_served,
    successor_chain, GenuineRekeyEvidence, PinnedNode, RekeyPhase, RekeySnapshot, Retirement, SwitchStep,
};

fn snapshot(phase: RekeyPhase, serving: &str) -> RekeySnapshot {
    RekeySnapshot {
        phase,
        serving_spki: serving.to_owned(),
        staged_approval: Some("absent"),
        last_retirement: None,
    }
}

fn detail<T>(result: Result<T, HarnessError>) -> String {
    match result {
        Ok(_) => panic!("an input that must fail was accepted"),
        Err(error) => error.detail().to_owned(),
    }
}

#[test]
fn a_digest_reads_back_from_its_digits() {
    let digest: Vec<u8> = (0..32).map(|byte| byte * 8 + 7).collect();
    let lower: String = digest.iter().map(|byte| format!("{byte:02x}")).collect();
    let upper: String = digest.iter().map(|byte| format!("{byte:02X}")).collect();
    assert_eq!(spki_from_hex(&lower).expect("a digest"), digest);
    assert_eq!(spki_from_hex(&upper).expect("a digest"), digest);
}

#[test]
fn a_sign_counts_as_the_number_parser_counts_it() {
    let text = format!("+f{}", "00".repeat(31));
    assert_eq!(spki_from_hex(&text).expect("a digest")[0], 15);
    let minus = format!("-f{}", "00".repeat(31));
    assert_eq!(detail(spki_from_hex(&minus)), "an SPKI digest is hex");
}

#[test]
fn a_text_that_is_no_digest_is_refused() {
    assert_eq!(detail(spki_from_hex("")), "an SPKI digest is 64 hex digits");
    assert_eq!(
        detail(spki_from_hex(&"0".repeat(63))),
        "an SPKI digest is 64 hex digits"
    );
    assert_eq!(
        detail(spki_from_hex(&format!("{}0g", "00".repeat(31)))),
        "an SPKI digest is hex"
    );
    assert_eq!(
        detail(spki_from_hex(&format!("\u{e9}{}", "00".repeat(31)))),
        "an SPKI digest is hex"
    );
}

#[test]
fn a_successor_is_staged_then_served_then_alone() {
    let staged = snapshot(RekeyPhase::Staged, "old");
    assert!(staged_not_served("new", &staged, "old", "new"));
    assert!(!staged_not_served("old", &staged, "old", "new"));
    let overlap = snapshot(RekeyPhase::Overlap, "new");
    assert!(matches!(
        judge_switch(&overlap, "new", true, "overlap", "None"),
        SwitchStep::Switched
    ));
    assert!(matches!(
        judge_switch(&staged, "new", false, "staged", "None"),
        SwitchStep::Again
    ));
    match judge_switch(&staged, "new", true, "staged", "None") {
        SwitchStep::TimedOut(error) => assert_eq!(
            error.detail(),
            "the owner did not switch to the approved successor within 20s (phase staged, approval Some(\"absent\"), refusal None)"
        ),
        _ => panic!("an owner that never switched did"),
    }
    let mut after = snapshot(RekeyPhase::Stable, "new");
    assert!(!retired_by_withdrawal(&after, "new"));
    after.last_retirement = Some(Retirement::Withdrawn);
    assert!(retired_by_withdrawal(&after, "new"));
    after.last_retirement = Some(Retirement::Other);
    assert!(!retired_by_withdrawal(&after, "new"));
}

#[test]
fn a_failed_probe_counts_against_either_claim() {
    assert_eq!(presented(Some(true), Some(false)), (true, true));
    assert_eq!(presented(None, None), (false, false));
    assert_eq!(presented(Some(false), Some(true)), (false, false));
    assert!(check_genuine_overlap(true).is_ok());
    assert!(check_genuine_overlap(false).is_err());
    assert!(check_genuine_withdrawal(true).is_ok());
    assert!(check_genuine_withdrawal(false).is_err());
}

#[test]
fn adopting_pins_the_successor_for_its_node_only() {
    let node = |name: &str| PinnedNode {
        node_id: name.to_owned(),
        peer_spki_sha256: "old".to_owned(),
    };
    let mut nodes = vec![node("relay-a"), node("relay-b")];
    assert!(adopt_successor(&mut nodes, "relay-b", "new"));
    assert_eq!(nodes[0].peer_spki_sha256, "old");
    assert_eq!(nodes[1].peer_spki_sha256, "new");
    assert!(!adopt_successor(&mut nodes, "relay-z", "new"));
    assert!(resigned_on_successor(true, "new", "new", true, "new"));
    assert!(!resigned_on_successor(true, "new", "old", true, "new"));
    assert_eq!(successor_chain("cert", Some("ca")), "certca");
    assert_eq!(successor_chain("cert", None), "cert");
}

#[test]
fn a_rotation_is_recorded_step_by_step() {
    let mut evidence = GenuineRekeyEvidence::new();
    assert!(!evidence.switched && !evidence.no_stop_reason);
    assert!(evidence.staged(true, true).is_ok());
    assert!(evidence.staged_not_served && evidence.overlap_staged);
    evidence.switched(900, 40, false, true);
    assert!(evidence.switched && evidence.switch_left_acp_serving);
    assert_eq!(evidence.switch_after_overlap_ms, 900);
    assert_eq!(evidence.switch_after_streams_ms, 40);
    evidence.probed(Some(true), None);
    assert!(evidence.successor_presented && !evidence.predecessor_not_presented);
    let mut after = snapshot(RekeyPhase::Stable, "new");
    after.last_retirement = Some(Retirement::Withdrawn);
    let held = Interruption {
        interrupted: true,
        no_stop_reason: true,
    };
    evidence.withdrawn(
        held,
        &after,
        "new",
        vec!["membership_revoked".to_owned()],
        Vec::new(),
    );
    assert!(evidence.interrupted && evidence.retired_by_withdrawal);
    assert_eq!(evidence.ingress_reasons, vec!["membership_revoked"]);
    evidence.restored(202, Some("end_turn"), false, true);
    assert!(evidence.post_rotation_turn && evidence.resigned_on_successor);
    assert!(!evidence.owner_unready);
}

#[test]
fn an_overlap_that_does_not_converge_ends_the_rotation() {
    let mut evidence = GenuineRekeyEvidence::new();
    assert_eq!(
        detail(evidence.staged(true, false)),
        "the genuine rotation's overlap did not reach every verifier within 20s"
    );
    assert!(!evidence.overlap_staged);
}
