//! The admission gate's rules on complete evidence, and on each single flag or
//! bound spoiled.

use tunnel_test_harness::admission::{validate_admission_evidence, AdmissionEvidence};
use tunnel_test_harness::error::HarnessError;

fn assert_failed(result: Result<(), HarnessError>) {
    assert!(result.is_err(), "the validator accepted broken evidence");
}

fn assert_rejected(result: Result<(), HarnessError>, fragment: &str) {
    match result {
        Ok(()) => panic!("the validator accepted evidence that breaks {fragment}"),
        Err(error) => assert!(
            error.message().contains(fragment),
            "expected a failure naming {fragment:?}, got {error:?}"
        ),
    }
}

fn evidence() -> AdmissionEvidence {
    AdmissionEvidence {
        relay_count: 3,
        baseline_target_dispatches: 1,
        baseline_sibling_dispatches: 1,
        negative_dispatch_delta: 0,
        lookup_error_dispatch_delta: 0,
        sibling_dispatch_delta_after_owner_loss: 1,
        owner_loss_dispatch_delta: 0,
        absent_target_rejected: true,
        inactive_target_rejected: true,
        unknown_target_rejected: true,
        selected_owner_unavailable: true,
        route_allowlist_rejected: true,
        forged_identity_headers_ignored: true,
        forged_identity_http_headers_ignored: true,
        forged_identity_http_cross_scope_rejected: true,
        lookup_error_rejected: true,
        sibling_canary_survived: true,
        cleanup_joined: true,
    }
}

#[test]
fn admission_evidence_requires_zero_negative_dispatch() {
    let mut value = evidence();
    value.negative_dispatch_delta = 1;
    assert!(validate_admission_evidence(&value).is_err());
}

#[test]
fn admission_evidence_requires_selected_owner_fault_and_cleanup() {
    let mut value = evidence();
    value.selected_owner_unavailable = false;
    assert!(validate_admission_evidence(&value).is_err());
    value = evidence();
    value.cleanup_joined = false;
    assert!(validate_admission_evidence(&value).is_err());
    value = evidence();
    value.owner_loss_dispatch_delta = 1;
    assert!(validate_admission_evidence(&value).is_err());
}

#[test]
fn every_admission_flag_and_dispatch_bound_reaches_the_shared_exit_path() {
    type Disable = (&'static str, fn(&mut AdmissionEvidence));
    let flags: [Disable; 11] = [
        ("absent_target_rejected", |e| {
            e.absent_target_rejected = false
        }),
        ("inactive_target_rejected", |e| {
            e.inactive_target_rejected = false
        }),
        ("unknown_target_rejected", |e| {
            e.unknown_target_rejected = false
        }),
        ("selected_owner_unavailable", |e| {
            e.selected_owner_unavailable = false
        }),
        ("route_allowlist_rejected", |e| {
            e.route_allowlist_rejected = false
        }),
        ("forged_identity_headers_ignored", |e| {
            e.forged_identity_headers_ignored = false
        }),
        ("forged_identity_http_headers_ignored", |e| {
            e.forged_identity_http_headers_ignored = false
        }),
        ("forged_identity_http_cross_scope_rejected", |e| {
            e.forged_identity_http_cross_scope_rejected = false
        }),
        ("lookup_error_rejected", |e| e.lookup_error_rejected = false),
        ("sibling_canary_survived", |e| {
            e.sibling_canary_survived = false
        }),
        ("cleanup_joined", |e| e.cleanup_joined = false),
    ];
    for (name, disable) in flags {
        let mut value = evidence();
        disable(&mut value);
        assert_rejected(validate_admission_evidence(&value), name);
    }

    type Mutate = (&'static str, fn(&mut AdmissionEvidence));
    let bounds: [Mutate; 5] = [
        ("baseline_target_dispatches", |e| {
            e.baseline_target_dispatches = 0
        }),
        ("baseline_sibling_dispatches", |e| {
            e.baseline_sibling_dispatches = 0
        }),
        ("negative_dispatch_delta", |e| e.negative_dispatch_delta = 1),
        ("lookup_error_dispatch_delta", |e| {
            e.lookup_error_dispatch_delta = 1
        }),
        ("sibling_dispatch_delta_after_owner_loss", |e| {
            e.sibling_dispatch_delta_after_owner_loss = 0
        }),
    ];
    for (_, mutate) in bounds {
        let mut value = evidence();
        mutate(&mut value);
        assert_failed(validate_admission_evidence(&value));
    }
    let mut owner_loss = evidence();
    owner_loss.owner_loss_dispatch_delta = 1;
    assert_rejected(
        validate_admission_evidence(&owner_loss),
        "selected-owner fault",
    );
    let mut relay_count = evidence();
    relay_count.relay_count = 2;
    assert_rejected(
        validate_admission_evidence(&relay_count),
        "public admission",
    );
}

#[test]
fn admission_validator_accepts_complete_evidence() {
    validate_admission_evidence(&evidence()).expect("complete admission evidence is valid");
}

#[test]
fn sibling_dispatch_after_owner_loss_must_be_exactly_one() {
    let mut value = evidence();
    value.sibling_dispatch_delta_after_owner_loss = 2;
    assert_rejected(validate_admission_evidence(&value), "expected one");
}
