//! The actual-path gate's rules on complete evidence, and on each single flag,
//! count or dispatch shape spoiled.

use tunnel_test_harness::c10::{validate_c10_actual_path_evidence, C10ActualPathEvidence};
use tunnel_test_harness::error::HarnessError;

fn assert_failed(result: Result<(), HarnessError>) {
    assert!(result.is_err(), "the validator accepted broken evidence");
}

fn assert_rejected(result: Result<(), HarnessError>, fragment: &str) {
    match result {
        Ok(()) => panic!("the validator accepted evidence that breaks {fragment}"),
        Err(error) => assert!(
            error.message().contains(fragment),
            "expected a failure naming {fragment:?}, got {error:?}"
        ),
    }
}

fn valid_evidence() -> C10ActualPathEvidence {
    C10ActualPathEvidence {
        relay_count: 3,
        fresh_control_after_no_live_owner: true,
        fresh_epoch_advanced: true,
        empty_body_single_prefix: true,
        empty_body_owner_read: true,
        empty_body_dispatch_delta: [0, 1, 0],
        empty_unary_body_response_exact: true,
        empty_unary_body_owner_read: true,
        empty_unary_body_dispatch_delta: [0, 0, 1],
        truncated_body_owner_read: true,
        truncated_body_not_dispatched: true,
        raw_bearer_owner_revalidated: true,
        owner_token_changed_before_101: true,
        owner_change_pre_101_rejected: true,
        owner_change_pre_101_not_dispatched: true,
        owner_change_pre_101_body_not_polled: true,
        cleanup_joined: true,
    }
}

#[test]
fn c10_validator_accepts_complete_evidence() {
    assert!(validate_c10_actual_path_evidence(&valid_evidence()).is_ok());
}

#[test]
fn every_c10_required_flag_reaches_the_shared_exit_path() {
    type Disable = (&'static str, fn(&mut C10ActualPathEvidence));
    let flags: [Disable; 14] = [
        ("fresh_control_after_no_live_owner", |e| {
            e.fresh_control_after_no_live_owner = false
        }),
        ("fresh_epoch_advanced", |e| e.fresh_epoch_advanced = false),
        ("empty_body_single_prefix", |e| {
            e.empty_body_single_prefix = false
        }),
        ("empty_body_owner_read", |e| e.empty_body_owner_read = false),
        ("empty_unary_body_response_exact", |e| {
            e.empty_unary_body_response_exact = false
        }),
        ("empty_unary_body_owner_read", |e| {
            e.empty_unary_body_owner_read = false
        }),
        ("truncated_body_owner_read", |e| {
            e.truncated_body_owner_read = false
        }),
        ("truncated_body_not_dispatched", |e| {
            e.truncated_body_not_dispatched = false
        }),
        ("raw_bearer_owner_revalidated", |e| {
            e.raw_bearer_owner_revalidated = false
        }),
        ("owner_token_changed_before_101", |e| {
            e.owner_token_changed_before_101 = false
        }),
        ("owner_change_pre_101_rejected", |e| {
            e.owner_change_pre_101_rejected = false
        }),
        ("owner_change_pre_101_not_dispatched", |e| {
            e.owner_change_pre_101_not_dispatched = false
        }),
        ("owner_change_pre_101_body_not_polled", |e| {
            e.owner_change_pre_101_body_not_polled = false
        }),
        ("cleanup_joined", |e| e.cleanup_joined = false),
    ];
    for (_, disable) in flags {
        let mut evidence = valid_evidence();
        disable(&mut evidence);
        assert_failed(validate_c10_actual_path_evidence(&evidence));
    }
}

#[test]
fn every_c10_required_count_and_dispatch_shape_reaches_the_shared_exit_path() {
    type Mutate = (&'static str, fn(&mut C10ActualPathEvidence));
    let counts: [Mutate; 7] = [
        ("relay_count", |e| e.relay_count = 2),
        ("empty_body_dispatch_delta_no_selection", |e| {
            e.empty_body_dispatch_delta = [0, 0, 0]
        }),
        ("empty_body_dispatch_delta_duplicate_selection", |e| {
            e.empty_body_dispatch_delta = [1, 1, 0]
        }),
        ("empty_body_dispatch_delta_overflow", |e| {
            e.empty_body_dispatch_delta = [0, 2, 0]
        }),
        ("empty_unary_body_dispatch_delta_no_selection", |e| {
            e.empty_unary_body_dispatch_delta = [0, 0, 0]
        }),
        ("empty_unary_body_dispatch_delta_duplicate_selection", |e| {
            e.empty_unary_body_dispatch_delta = [1, 1, 0]
        }),
        ("empty_unary_body_dispatch_delta_overflow", |e| {
            e.empty_unary_body_dispatch_delta = [0, 0, 2]
        }),
    ];
    for (_, mutate) in counts {
        let mut evidence = valid_evidence();
        mutate(&mut evidence);
        assert_rejected(
            validate_c10_actual_path_evidence(&evidence),
            "C10 admission/framing evidence",
        );
    }
}
