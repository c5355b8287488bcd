//! Rotation freezes and the refusals that they explain.

use tunnel_test_harness::acp_cluster;
use tunnel_test_harness::acp_real_path;
use tunnel_test_harness::freeze::{
    cluster_answer, real_path_post, FreezeWatch, PostAction, RefusalLedger,
};

const REFUSAL: &str = r#"{"execution":"not_dispatched"}"#;

#[test]
fn a_freeze_explains_refusals_while_it_lasts_and_shortly_after() {
    let mut watch = FreezeWatch::new();
    assert!(!watch.coincides(0));
    watch.record("draining", 2, 1000);
    assert!(watch.coincides(9000));
    watch.record("active", 3, 1100);
    assert!(watch.coincides(1750));
    assert!(!watch.coincides(1751));
}

#[test]
fn an_ordinary_phase_never_explains_a_refusal() {
    let mut watch = FreezeWatch::new();
    watch.record("active", 1, 10);
    assert!(!watch.coincides(10));
    assert_eq!(
        watch.unexplained(),
        "not_dispatched refusal outside a rotation freeze: connector phase=\"active\" rotations_completed=1"
    );
}

#[test]
fn a_phase_is_quoted_in_the_report() {
    let mut watch = FreezeWatch::new();
    watch.record("odd\n\"phase\"", 0, 0);
    assert!(watch.unexplained().contains("\"odd\\n\\\"phase\\\"\""));
}

#[test]
fn the_first_unexplained_refusal_is_the_one_kept() {
    let mut ledger = RefusalLedger::new();
    let mut watch = FreezeWatch::new();
    watch.record("active", 1, 10);
    assert!(!ledger.note_refusal(&watch, 10));
    watch.record("connecting", 2, 20);
    assert!(!ledger.note_refusal(&watch, 20));
    watch.record("committing", 3, 30);
    assert!(ledger.note_refusal(&watch, 30));
    assert_eq!(ledger.refusals, 3);
    assert_eq!(ledger.retries, 1);
    assert!(ledger
        .unexplained
        .as_ref()
        .expect("an unexplained refusal")
        .contains("rotations_completed=1"));
}

#[test]
fn the_real_path_resends_within_its_budget_and_answers_otherwise() {
    let mut ledger = RefusalLedger::new();
    let mut watch = FreezeWatch::new();
    watch.record("quiescing", 0, 0);
    let budget = acp_real_path::NOT_DISPATCHED_RETRIES;
    assert!(matches!(
        real_path_post(&mut ledger, &watch, 503, REFUSAL, 0, 0),
        PostAction::Resend
    ));
    assert!(matches!(
        real_path_post(&mut ledger, &watch, 503, REFUSAL, budget, 0),
        PostAction::Answer
    ));
    assert!(matches!(
        real_path_post(&mut ledger, &watch, 503, "other", 0, 0),
        PostAction::Answer
    ));
    assert!(matches!(
        real_path_post(&mut ledger, &watch, 202, REFUSAL, 0, 0),
        PostAction::Answer
    ));
    assert_eq!(ledger.refusals, 2);
}

#[test]
fn the_cluster_reports_a_refusal_that_it_may_not_resend() {
    let mut ledger = RefusalLedger::new();
    let mut watch = FreezeWatch::new();
    watch.record("active", 4, 0);
    match cluster_answer(&mut ledger, &watch, "POST", 503, REFUSAL, 0, 0) {
        PostAction::Refused(error) => assert_eq!(
            error.detail(),
            "ACP POST refused 16 times with not_dispatched (coincided with an observed freeze: false); not_dispatched refusal outside a rotation freeze: connector phase=\"active\" rotations_completed=4"
        ),
        _ => panic!("an uncorrelated refusal was handed back"),
    }
    watch.record("draining", 4, 5);
    let budget = acp_cluster::NOT_DISPATCHED_RETRIES;
    assert!(matches!(
        cluster_answer(&mut ledger, &watch, "GET", 503, REFUSAL, budget - 1, 5),
        PostAction::Resend
    ));
    assert!(matches!(
        cluster_answer(&mut ledger, &watch, "GET", 503, REFUSAL, budget, 5),
        PostAction::Refused(_)
    ));
    assert!(matches!(
        cluster_answer(&mut ledger, &watch, "GET", 404, REFUSAL, 0, 5),
        PostAction::Answer
    ));
}
