//! The steps of the actual-path scenario, of its race and of its cleanup, on
//! concrete observations.

use tunnel_test_harness::admission::{AdmissionFailure, StreamProbe};
use tunnel_test_harness::c10::{
    classify_cleanup, cleanup_line, cleanup_remaining, cleanup_result, conclude_run,
    conclude_scenario, fresh_claim, judge_close, non_owner_ingress, owner_matches_session,
    owner_only, owner_token_changed, preserving_primary, relay_index, subtract,
    validate_c10_actual_path_evidence, write_label, C10ActualPathEvidence, CloseEnd, OwnerToken,
};
use tunnel_test_harness::c10_path::{
    check_at_barrier, check_race_entry, check_relays, check_still_held, early_end_error,
    judge_race, ActualPath, Counters, EarlyEnd, RaceOutcome,
};
use tunnel_test_harness::error::HarnessError;

fn detail<T>(result: Result<T, HarnessError>) -> String {
    match result {
        Ok(_) => panic!("an observation that must fail was accepted"),
        Err(error) => error.detail().to_owned(),
    }
}

fn token(session: &str, epoch: u64) -> OwnerToken {
    OwnerToken {
        deployment_incarnation: "i".to_owned(),
        tenant_id: "t".to_owned(),
        device_id: "d".to_owned(),
        node_id: "relay-b".to_owned(),
        boot_id: "boot".to_owned(),
        session_id: session.to_owned(),
        epoch,
    }
}

fn counters(dispatches: [u64; 3], reads: [u64; 3]) -> Counters {
    Counters { dispatches, reads }
}

fn fence() -> StreamProbe {
    StreamProbe::Rejected(AdmissionFailure {
        status: 503,
        code: Some("PEER_UNAVAILABLE"),
        execution: Some("not_dispatched"),
    })
}

fn race_of(probe: StreamProbe, after: Counters) -> Result<bool, HarnessError> {
    let outcome = RaceOutcome {
        probe,
        before: counters([0; 3], [0; 3]),
        after,
    };
    judge_race(
        &outcome,
        1,
        1,
        "relay-a",
        &token("s", 1),
        &token("s", 1),
        &token("s2", 2),
    )
    .map(|evidence| evidence.raw_bearer_owner_revalidated)
}

fn whole_path() -> C10ActualPathEvidence {
    let mut path = ActualPath::new("relay-b").expect("a path");
    let idle = counters([5, 5, 5], [1, 1, 1]);
    let once = counters([5, 6, 5], [1, 2, 1]);
    path.empty_echo(b"", &idle, &once).expect("the empty echo");
    path.empty_unary(200, b"canary", b"canary", &idle, &once)
        .expect("the unary echo");
    path.truncated(true, &idle, &idle).expect("the truncated record");
    let outcome = RaceOutcome {
        probe: fence(),
        before: idle,
        after: idle,
    };
    let race = judge_race(
        &outcome,
        1,
        1,
        "relay-a",
        &token("s", 1),
        &token("s", 1),
        &token("s2", 2),
    )
    .expect("the race");
    path.raced(race);
    path.fresh(&token("s", 1), &token("s3", 3), "t", "d")
        .expect("the fresh claim");
    path.finish()
}

#[test]
fn a_complete_path_with_its_cleanup_passes_and_without_it_fails() {
    let mut evidence = whole_path();
    assert!(validate_c10_actual_path_evidence(&evidence).is_err());
    evidence.cleanup_joined = true;
    assert!(validate_c10_actual_path_evidence(&evidence).is_ok());
}

#[test]
fn a_step_that_fails_names_its_counters() {
    let mut path = ActualPath::new("relay-b").expect("a path");
    let idle = counters([0; 3], [0; 3]);
    let wrong = counters([1, 1, 0], [0, 1, 0]);
    assert_eq!(
        detail(path.empty_echo(b"x", &idle, &idle)),
        "C10 empty echo returned a non-empty payload suffix"
    );
    assert_eq!(
        detail(path.empty_echo(b"", &idle, &wrong)),
        "C10 empty body counters were not selected-owner-only: dispatch=[1, 1, 0], reads=[0, 1, 0]"
    );
    assert_eq!(
        detail(path.empty_unary(404, b"no", b"canary", &idle, &idle)),
        "C10 empty unary body was not a selected-owner effect: status=404, body_len=2, dispatch=[0, 0, 0], reads=[0, 0, 0]"
    );
    assert_eq!(
        detail(path.truncated(false, &idle, &wrong)),
        "C10 truncated body was not a consumed/no-effect record: owner_read=false, dispatch=[1, 1, 0]"
    );
    assert_eq!(
        detail(path.fresh(&token("s", 3), &token("s", 3), "t", "d")),
        "C10 fresh CLI did not claim the exact scope at a higher epoch"
    );
    assert!(!path.evidence.empty_body_single_prefix);
    assert_eq!(
        detail(ActualPath::new("relay-z")),
        "C10 owner was outside the relay set"
    );
    assert_eq!(detail(check_relays(4)), "C10 requires three relays, observed 4");
    assert!(check_relays(3).is_ok());
}

#[test]
fn a_race_proves_the_fence_only_without_any_effect() {
    let idle = || counters([0; 3], [0; 3]);
    assert!(race_of(fence(), idle()).expect("a fenced race"));
    assert_eq!(
        detail(race_of(StreamProbe::Accepted, idle())),
        "C10 owner-token race sent 101 after the owner token changed"
    );
    let other = StreamProbe::Rejected(AdmissionFailure {
        status: 503,
        code: Some("PEER_UNAVAILABLE"),
        execution: Some("unknown"),
    });
    assert_eq!(
        detail(race_of(other, idle())),
        "C10 owner-token race returned an unexpected bounded rejection: status=503 code=Some(\"PEER_UNAVAILABLE\") execution=Some(\"unknown\")"
    );
    assert_eq!(
        detail(race_of(fence(), counters([0; 3], [0, 1, 0]))),
        "C10 owner-token race consumed or dispatched a body: owner_index=1, reads=[0, 1, 0], dispatch=[0, 0, 0]"
    );
}

#[test]
fn a_race_begins_at_a_free_barrier_behind_another_relay() {
    assert!(check_race_entry("relay-a", "relay-b", true).is_ok());
    assert!(detail(check_race_entry("relay-b", "relay-b", true)).contains("non-owner"));
    assert!(detail(check_race_entry("relay-a", "relay-b", false)).contains("already armed"));
    let initial = token("s", 1);
    assert!(check_at_barrier(1, Some(&token("s", 1)), &initial).is_ok());
    assert!(detail(check_at_barrier(2, Some(&token("s", 1)), &initial)).contains("exactly one"));
    assert!(detail(check_at_barrier(1, None, &initial)).contains("disappeared"));
    assert!(detail(check_at_barrier(1, Some(&token("s", 2)), &initial)).contains("exact selected"));
    assert!(check_still_held(true).is_ok());
    assert!(check_still_held(false).is_err());
    assert_eq!(
        early_end_error(&EarlyEnd::Answered(StreamProbe::Accepted)).detail(),
        "C10 owner-token race upgraded before its authenticated barrier"
    );
    assert_eq!(
        early_end_error(&EarlyEnd::Answered(fence())).detail(),
        "C10 owner-token race rejected before its barrier: status=503 code=Some(\"PEER_UNAVAILABLE\") execution=Some(\"not_dispatched\")"
    );
    assert_eq!(
        early_end_error(&EarlyEnd::Failed(HarnessError::timeout("t"))).message(),
        "HTTP/TLS probe error: C10 owner-token race ended before its authenticated barrier: harness timeout: t"
    );
}

#[test]
fn tokens_are_replaced_by_complete_higher_ones() {
    assert!(owner_token_changed(&token("s", 1), &token("s2", 2)).is_ok());
    assert!(owner_token_changed(&token("s", 1), &token("s", 2)).is_err());
    assert!(owner_token_changed(&token("s", 2), &token("s2", 2)).is_err());
    let mut incomplete = token("s2", 2);
    incomplete.boot_id = String::new();
    assert!(owner_token_changed(&token("s", 1), &incomplete).is_err());
    assert!(owner_matches_session(&token("s", 1), 1, "s", "t", "d").is_ok());
    assert!(owner_matches_session(&token("s", 1), 1, "s", "t", "x").is_err());
    assert!(fresh_claim(&token("s", 1), &token("s", 2), "t", "d").is_ok());
    assert!(fresh_claim(&token("s", 1), &token("s", 2), "u", "d").is_err());
}

#[test]
fn relays_and_counters_have_their_places() {
    assert_eq!(relay_index("relay-c").expect("a relay"), 2);
    assert!(relay_index("relay-d").is_err());
    assert_eq!(subtract([5, 1, 9], [2, 3, 9]), [3, 0, 0]);
    assert!(owner_only(&[0, 1, 0], 1));
    assert!(!owner_only(&[0, 1, 1], 1));
    let nodes = vec!["relay-a".to_owned(), "relay-b".to_owned()];
    assert_eq!(non_owner_ingress(&nodes, "relay-a").expect("an ingress"), 1);
    assert!(non_owner_ingress(&vec!["relay-a".to_owned()], "relay-a").is_err());
    assert_eq!(write_label(Some("X")), "Some(\"X\")");
    assert_eq!(write_label(None), "None");
}

#[test]
fn a_cleanup_never_hides_the_failure_before_it() {
    assert_eq!(cleanup_remaining(5, "x").expect("time"), 5);
    assert_eq!(
        cleanup_remaining(0, "x").expect_err("no time").message(),
        "harness timeout: x cleanup deadline elapsed"
    );
    assert!(classify_cleanup("x", None, false).is_ok());
    assert_eq!(
        detail(classify_cleanup("x", Some("boom"), false)),
        "x cleanup failed: boom"
    );
    assert_eq!(
        detail(classify_cleanup("x", None, true)),
        "x cleanup exceeded its absolute deadline"
    );
    assert_eq!(
        detail(classify_cleanup("x", Some("boom"), true)),
        "x cleanup failed after its absolute deadline: boom"
    );
    let error = |text: &str| Some(HarnessError::process(text));
    let failed = |text: &str| Err::<C10ActualPathEvidence, _>(HarnessError::process(text));
    let shown = whole_path();
    assert_eq!(conclude_scenario(Ok(shown.clone()), Ok(())), Ok(shown.clone()));
    assert_eq!(detail(conclude_scenario(failed("first"), Ok(()))), "first");
    assert_eq!(
        detail(conclude_scenario(
            Ok(shown.clone()),
            Err(HarnessError::process("second"))
        )),
        "C10 scenario cleanup failed: managed process error: second"
    );
    assert_eq!(
        detail(conclude_scenario(
            failed("first"),
            Err(HarnessError::process("second"))
        )),
        "managed process error: first; C10 scenario cleanup failed: managed process error: second"
    );
    assert!(cleanup_result(&Vec::new()).is_ok());
    assert_eq!(
        detail(cleanup_result(&vec!["a".to_owned(), "b".to_owned()])),
        "a; b"
    );
    assert!(!shown.cleanup_joined);
    let joined = conclude_run(Ok(shown.clone()), None, None).expect("a joined run");
    assert!(joined.cleanup_joined);
    assert_eq!(joined.relay_count, shown.relay_count);
    assert_eq!(detail(conclude_run(failed("first"), None, None)), "first");
    assert_eq!(
        detail(conclude_run(Ok(shown), error("c"), error("h"))),
        "C10 scenario succeeded: cluster cleanup: managed process error: c; catalog cleanup: managed process error: h"
    );
    assert!(detail(conclude_run(failed("first"), error("c"), None))
        .starts_with("managed process error: first; "));
}

#[test]
fn a_close_that_fails_is_told_beside_what_it_followed() {
    let label = "fresh consumer";
    assert!(judge_close(label, CloseEnd::Closed).is_ok());
    let cause = HarnessError::http("reset");
    assert_eq!(
        judge_close(label, CloseEnd::Failed(cause.clone())).err(),
        Some(cause.clone())
    );
    let late = judge_close(label, CloseEnd::TimedOut).expect_err("a late close failed");
    assert_eq!(late.message(), "harness timeout: fresh consumer cleanup timed out");
    assert_eq!(
        cleanup_line(label, &late),
        "fresh consumer cleanup: harness timeout: fresh consumer cleanup timed out"
    );
    let primary = HarnessError::process("first");
    assert_eq!(preserving_primary(primary.clone(), Ok(())), primary);
    assert_eq!(
        preserving_primary(primary, Err(cause)).message(),
        "managed process error: managed process error: first; HTTP/TLS probe error: reset"
    );
}
