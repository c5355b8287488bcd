//! The diagnostic window's matchers and its scan of one captured role.

use tunnel_test_harness::c11_bundle::C11EvidenceBundle;
use tunnel_test_harness::c11_window::{C11RunSpec, C11Window, Sentinel};
use tunnel_test_harness::fields::contains_ascii_case_insensitive_key;
use tunnel_test_harness::scan_failure::{
    FaultStage, RunOutcome, SafeField, ScanFailure, SentinelKind,
};

#[test]
fn field_needles_do_not_match_identifier_substrings() {
    assert!(!contains_ascii_case_insensitive_key(
        b"counterfeit=true",
        b"counter"
    ));
    assert!(!contains_ascii_case_insensitive_key(
        b"reroute=true",
        b"route"
    ));
    assert!(!contains_ascii_case_insensitive_key(
        b"terminality=true",
        b"terminal"
    ));
}

#[test]
fn field_needles_match_complete_compound_keys() {
    assert!(contains_ascii_case_insensitive_key(
        br#"{"queue_messages":1}"#,
        b"queue_messages"
    ));
    assert!(contains_ascii_case_insensitive_key(
        b"owner-death=true",
        b"owner-death"
    ));
    assert!(contains_ascii_case_insensitive_key(
        br#"{"session_terminal_events":1}"#,
        b"session_terminal_events"
    ));
}

#[test]
fn safe_field_categories_use_boundary_matching() {
    assert!(!SafeField::Counter.matches(b"counterfeit=true"));
    assert!(!SafeField::Route.matches(b"reroute=true"));
    assert!(!SafeField::CloseCause.matches(b"terminality=true"));
}

#[test]
fn a_field_is_shown_by_a_word_of_any_case_and_never_by_nothing() {
    for field in SafeField::ALL {
        assert!(!field.matches(b""));
        for (left, right) in [
            ("relay=a", "queue_bytes=1"),
            ("counterfeit", "phase"),
            ("", "owner-death"),
            ("tenant", ""),
            ("own", "er"),
        ] {
            let joined = format!("{left} {right}");
            let either = field.matches(left.as_bytes()) || field.matches(right.as_bytes());
            assert_eq!(field.matches(joined.as_bytes()), either);
            let capitals = joined.to_ascii_uppercase();
            assert_eq!(field.matches(capitals.as_bytes()), either);
        }
    }
    assert!(SafeField::Phase.matches(b"counterfeit phase"));
    assert!(!SafeField::Owner.matches(b"own er"));
}

#[test]
fn owner_death_requires_an_exact_emitted_field() {
    assert!(!SafeField::RevocationOwnerDeath.matches(b"owner_loss_close_observed=true"));
    assert!(SafeField::RevocationOwnerDeath.matches(b"owner_death=true"));
}

fn spec() -> C11RunSpec {
    C11RunSpec::new(
        "run-1",
        "source-1",
        "build-1",
        FaultStage::Peer,
        RunOutcome::Success,
        100,
        &["relay-a"],
        vec![Sentinel::new(SentinelKind::Credential, b"secret-token").unwrap()],
    )
    .unwrap()
    .with_required_fields(&[
        SafeField::Relay,
        SafeField::Tenant,
        SafeField::Owner,
        SafeField::Route,
        SafeField::Phase,
        SafeField::EpochGenerationFence,
        SafeField::RevocationOwnerDeath,
        SafeField::Counter,
        SafeField::CloseCause,
    ])
}

const SAFE_LINE: &[u8] = b"relay=relay-a tenant=tenant-a owner=owner-a route=peer-route phase=ready epoch=2 generation=3 fence=4 revocation=false owner_death=false dispatch_counter=1 reason=CONTROL_CLOSED";

#[test]
fn complete_joined_window_returns_safe_report() {
    let mut window = C11Window::new(spec());
    window.append("relay-a", SAFE_LINE).unwrap();
    window.close("relay-a").unwrap();
    window.mark_joined("relay-a").unwrap();
    let report = window.finish(101).unwrap();
    assert_eq!(*report.bytes_by_role.get(&"relay-a".to_owned()).unwrap(), SAFE_LINE.len());
    assert_eq!(report.stage, FaultStage::Peer);
}

#[test]
fn sensitive_value_failure_does_not_echo_value() {
    let secret = b"secret-token";
    let mut window = C11Window::new(spec());
    let error = window
        .append("relay-a", b"phase=ready secret-token")
        .unwrap_err();
    assert_eq!(
        error,
        ScanFailure::SensitiveValue {
            role: "relay-a".to_owned(),
            kind: SentinelKind::Credential,
        }
    );
    assert!(
        !error
            .message()
            .contains(std::str::from_utf8(secret).unwrap())
    );
    assert!(!format!("{error:?}").contains(std::str::from_utf8(secret).unwrap()));
}

#[test]
fn every_sensitive_category_is_scanned_without_value_disclosure() {
    for (kind, value) in [
        (SentinelKind::Credential, "credential-sentinel"),
        (SentinelKind::ApplicationPayload, "payload-sentinel"),
        (SentinelKind::FilesystemPath, "/private/c11/state"),
        (
            SentinelKind::PrivateEndpoint,
            "https://private.invalid/peer",
        ),
    ] {
        let sentinel = Sentinel::new(kind, value.as_bytes()).unwrap();
        let spec = C11RunSpec::new(
            "run-sensitive",
            "source-1",
            "build-1",
            FaultStage::Write,
            RunOutcome::Failure,
            100,
            &["harness"],
            vec![sentinel],
        )
        .unwrap();
        let mut window = C11Window::new(spec);
        let error = window.append("harness", value.as_bytes()).unwrap_err();
        assert_eq!(
            error,
            ScanFailure::SensitiveValue {
                role: "harness".to_owned(),
                kind,
            }
        );
        assert!(!error.message().contains(value));
        assert!(!format!("{error:?}").contains(value));
    }
}

#[test]
fn overflow_is_a_failure_even_before_close() {
    let spec = spec().with_stream_limit(4).unwrap();
    let mut window = C11Window::new(spec);
    let error = window.append("relay-a", b"12345").unwrap_err();
    assert_eq!(
        error,
        ScanFailure::CaptureOverflow {
            role: "relay-a".to_owned(),
            limit: 4,
        }
    );
}

#[test]
fn adapter_wrapper_labels_do_not_establish_safe_fields() {
    let spec = C11RunSpec::new(
        "run-safe-role",
        "source-1",
        "build-1",
        FaultStage::Write,
        RunOutcome::Success,
        100,
        &["runtime", "adapter"],
        Vec::new(),
    )
    .unwrap()
    .with_required_fields(&[SafeField::Relay])
    .with_safe_field_roles(&["runtime"])
    .unwrap();
    let mut window = C11Window::new(spec);
    window
        .append("adapter", b"route=relay-a relay=relay-a")
        .unwrap();
    window.append("runtime", b"phase=ready counter=1").unwrap();
    window.close("adapter").unwrap();
    window.close("runtime").unwrap();
    window.mark_joined("adapter").unwrap();
    window.mark_joined("runtime").unwrap();
    assert_eq!(
        window.finish(101).unwrap_err(),
        ScanFailure::MissingSafeFields {
            fields: vec![SafeField::Relay]
        }
    );
}

#[test]
fn joined_cleanup_is_required() {
    let mut window = C11Window::new(spec());
    window.append("relay-a", SAFE_LINE).unwrap();
    window.close("relay-a").unwrap();
    assert_eq!(
        window.finish(101).unwrap_err(),
        ScanFailure::StreamNotJoined {
            role: "relay-a".to_owned()
        }
    );
}

#[test]
fn matrix_requires_success_and_failure_for_each_fault_stage() {
    let mut bundle = C11EvidenceBundle::new(100);
    let mut window = C11Window::new(spec());
    window.append("relay-a", SAFE_LINE).unwrap();
    window.close("relay-a").unwrap();
    window.mark_joined("relay-a").unwrap();
    bundle.add(window.finish(101).unwrap()).unwrap();
    let error = bundle.finish(102).unwrap_err();
    assert_eq!(
        error,
        ScanFailure::MissingMatrixCase {
            stage: FaultStage::Redis,
            outcome: RunOutcome::Success,
        }
    );
}
