//! The multi-process diagnostic run, its window and its matrix, on concrete
//! captures.

use tunnel_test_harness::c11_bundle::{C11EvidenceBundle, MATRIX_CASES};
use tunnel_test_harness::c11_diagnostics::{
    accept_case, assemble_report, child_failure, child_failure_summary, finish_matrix,
    may_start_case, safe_environment_id, timestamp, ChildCapture, CASE_WALL_MS,
};
use tunnel_test_harness::c11_matrix::matrix_case;
use tunnel_test_harness::c11_window::{C11RunSpec, C11ScanReport, C11Window, Sentinel};
use tunnel_test_harness::capture::CapturedStream;
use tunnel_test_harness::error::HarnessError;
use tunnel_test_harness::fields::{
    contains, contains_ascii_case_insensitive, contains_ascii_case_insensitive_key,
};
use tunnel_test_harness::peer_fault_table::scan_peer_faults;
use tunnel_test_harness::peer_faults::{PeerFaultRequirement, PeerFaultTuple};
use tunnel_test_harness::scan_failure::{
    FaultStage, RunOutcome, SafeField, ScanFailure, SentinelKind,
};

fn detail<T>(result: Result<T, HarnessError>) -> String {
    match result {
        Ok(_) => panic!("an input that must fail was accepted"),
        Err(error) => error.detail().to_owned(),
    }
}

fn captured(bytes: &[u8]) -> CapturedStream {
    let mut stream = CapturedStream::new();
    stream.accept(bytes);
    stream
}

fn redis_capture(stdout: &[u8]) -> ChildCapture {
    ChildCapture {
        stdout: captured(stdout),
        stderr: captured(b""),
        inner: Vec::new(),
        snapshots: Vec::new(),
        sentinels: vec![
            Sentinel::new(SentinelKind::Credential, b"credential").expect("a sentinel"),
            Sentinel::new(SentinelKind::PrivateEndpoint, b"endpoint").expect("a sentinel"),
        ],
    }
}

fn window(roles: &[&str]) -> C11Window {
    let spec = C11RunSpec::new(
        "run",
        "source",
        "build",
        FaultStage::Redis,
        RunOutcome::Success,
        10,
        roles,
        vec![Sentinel::new(SentinelKind::Credential, b"secret").expect("a sentinel")],
    )
    .expect("a specification")
    .with_required_fields(&[]);
    C11Window::new(spec)
}

fn report(stage: FaultStage, outcome: RunOutcome) -> C11ScanReport {
    let spec = C11RunSpec::new(
        &format!("run-{}-{}", stage.label(), outcome.label()),
        "source",
        "build",
        stage,
        outcome,
        100,
        &["relay-a"],
        Vec::new(),
    )
    .expect("a specification")
    .with_required_fields(&[]);
    let mut window = C11Window::new(spec);
    window
        .append(
            "relay-a",
            b"relay=a tenant=t owner=o route=r phase=p epoch=1 generation=1 fence=1 revocation=0 owner_death=0 dispatch_counter=1 reason=R",
        )
        .expect("an append");
    window.close("relay-a").expect("a close");
    window.mark_joined("relay-a").expect("a join");
    window.finish(101).expect("a report")
}

#[test]
fn a_complete_child_is_reported() {
    let case = matrix_case(1);
    assert_eq!(case.name, "redis-fault");
    let report = assemble_report(&case, redis_capture(b"relay=a"), "source", "build", 5, 9)
        .expect("a report");
    assert_eq!(report.run_id, "c11-redis-fault-5");
    assert_eq!(report.stage, FaultStage::Redis);
    assert_eq!(report.outcome, RunOutcome::Failure);
    assert_eq!(
        report.bytes_by_role.get(&"harness_stdout".to_owned()),
        Some(&7)
    );
}

#[test]
fn an_incomplete_child_says_what_is_missing() {
    let case = matrix_case(1);
    let run = |capture: ChildCapture| assemble_report(&case, capture, "source", "build", 5, 9);
    let mut capture = redis_capture(b"");
    capture.sentinels.pop();
    assert_eq!(
        detail(run(capture)),
        "C11 redis-fault fixture did not record its private_endpoint sentinel"
    );
    assert_eq!(
        detail(run(redis_capture(b"a credential leaked"))),
        "C11 redis-fault diagnostics: sensitive credential value in harness_stdout"
    );
    let mut overflowed = redis_capture(b"");
    overflowed.stderr.overflow = true;
    assert_eq!(
        detail(run(overflowed)),
        "C11 redis-fault diagnostics capture exceeded its bounded buffer"
    );
    let mut failed = redis_capture(b"");
    failed.stdout.read_error = true;
    assert_eq!(
        detail(run(failed)),
        "C11 redis-fault diagnostics capture read failed"
    );
    let production = matrix_case(2);
    let mut complete = redis_capture(b"");
    for kind in [SentinelKind::ApplicationPayload, SentinelKind::FilesystemPath] {
        complete
            .sentinels
            .push(Sentinel::new(kind, b"value").expect("a sentinel"));
    }
    assert_eq!(
        detail(assemble_report(&production, complete, "source", "build", 5, 9)),
        "C11 peer-success fixture joined 0 m7-production-cli process roles, expected 1"
    );
}

#[test]
fn a_failed_child_is_summed_up_without_its_text() {
    let summary = child_failure_summary(
        Some(1),
        None,
        b"harness TIMEOUT: secret value",
        b"managed process error: owner-loss",
    );
    assert_eq!(
        summary,
        "status_code=Some(1),signal=None,stdout_bytes=29,stderr_bytes=33,markers=managed_process|owner_loss|timeout"
    );
    let other = child_failure_summary(
        Some(1),
        None,
        b"harness timeout: other text..",
        b"MANAGED PROCESS ERROR: owner loss",
    );
    assert_eq!(summary, other);
    assert_eq!(
        child_failure_summary(None, Some(9), b"", b""),
        "status_code=None,signal=Some(9),stdout_bytes=0,stderr_bytes=0,markers=none"
    );
    assert_eq!(
        child_failure(&matrix_case(0), "summary", Some("/kept")).detail(),
        "C11 redis-success acceptance child exited unsuccessfully: summary,preserved=/kept"
    );
    assert_eq!(
        child_failure(&matrix_case(0), "summary", None).detail(),
        "C11 redis-success acceptance child exited unsuccessfully: summary"
    );
}

#[test]
fn identifiers_times_and_pacing_are_bounded() {
    assert_eq!(
        safe_environment_id("C11_SOURCE_ID", Some("abc-1".to_owned())).expect("an identifier"),
        "abc-1"
    );
    assert_eq!(
        detail(safe_environment_id("C11_SOURCE_ID", None)),
        "C11 diagnostics requires C11_SOURCE_ID"
    );
    assert_eq!(
        detail(safe_environment_id("C11_SOURCE_ID", Some("a b".to_owned()))),
        "C11 diagnostics C11_SOURCE_ID must be a bounded identifier"
    );
    assert_eq!(timestamp(1234).expect("a time"), 1234);
    assert_eq!(
        detail(timestamp(u128::MAX)),
        "C11 diagnostics timestamp overflow"
    );
    assert!(may_start_case(CASE_WALL_MS).is_ok());
    assert_eq!(
        detail(may_start_case(CASE_WALL_MS - 1)),
        "C11 diagnostics matrix left insufficient cleanup time for the next case"
    );
    assert_eq!(
        detail(may_start_case(0)),
        "C11 diagnostics matrix exceeded its bounded deadline"
    );
}

#[test]
fn a_value_split_over_two_appends_is_found() {
    let mut split = window(&["relay-a"]);
    split.append("relay-a", b"sec").expect("the first half");
    assert_eq!(
        split.append("relay-a", b"ret").expect_err("the second half"),
        ScanFailure::SensitiveValue {
            role: "relay-a".to_owned(),
            kind: SentinelKind::Credential,
        }
    );
    let mut apart = window(&["relay-a", "relay-b"]);
    apart.append("relay-a", b"sec").expect("one role");
    apart.append("relay-b", b"ret").expect("another role");
}

#[test]
fn a_closed_stream_takes_nothing_more() {
    let mut closed = window(&["relay-a"]);
    closed.append("relay-a", b"one").expect("an append");
    closed.close("relay-a").expect("a close");
    assert_eq!(
        closed.append("relay-a", b"two").expect_err("closed"),
        ScanFailure::AppendAfterClose {
            role: "relay-a".to_owned()
        }
    );
    closed.mark_joined("relay-a").expect("a join");
    let report = closed.finish(11).expect("a report");
    assert_eq!(report.bytes_by_role.get(&"relay-a".to_owned()), Some(&3));
}

#[test]
fn the_matrix_takes_each_cell_once_and_in_time() {
    let mut bundle = C11EvidenceBundle::new(100);
    for stage in FaultStage::ALL {
        for outcome in RunOutcome::ALL {
            accept_case(&mut bundle, report(stage, outcome), false).expect("a new cell");
        }
    }
    assert_eq!(
        detail(accept_case(
            &mut bundle,
            report(FaultStage::Peer, RunOutcome::Success),
            false
        )),
        "C11 diagnostics: duplicate peer success matrix case"
    );
    assert_eq!(
        detail(accept_case(
            &mut bundle,
            report(FaultStage::Peer, RunOutcome::Success),
            true
        )),
        "C11 diagnostics matrix exceeded its bounded deadline after case cleanup"
    );
    assert!(bundle.fits());
    let summary = finish_matrix(bundle, 200).expect("a summary");
    assert_eq!(summary.runs, MATRIX_CASES);
    assert_eq!(
        detail(finish_matrix(C11EvidenceBundle::new(100), 200)),
        "C11 diagnostics: missing redis success matrix case"
    );
}

#[test]
fn every_row_of_the_matrix_is_its_own_cell() {
    let mut cells = Vec::new();
    for index in 0..MATRIX_CASES {
        let case = matrix_case(index);
        assert!(!cells.contains(&(case.stage, case.outcome)));
        cells.push((case.stage, case.outcome));
        if case.stage != FaultStage::Redis {
            assert!(case.required_safe_fields.contains(&SafeField::Relay));
        }
    }
    assert_eq!(cells.len(), 8);
}

#[test]
fn a_requirement_is_met_by_any_of_its_stages() {
    let requirement =
        PeerFaultRequirement::new("ingress", "h3_dispatch|stream_permit_checkout", "transport_goaway")
            .expect("a requirement");
    assert_eq!(
        requirement.to_text(),
        "ingress/h3_dispatch|stream_permit_checkout/transport_goaway"
    );
    let tuple = PeerFaultTuple::new("ingress", "h3_dispatch", "transport_goaway").expect("a tuple");
    assert_eq!(tuple.to_text(), "ingress/h3_dispatch/transport_goaway");
    assert!(PeerFaultTuple::new("ingress", "h3_dispatch", "nonsense").is_err());
    assert!(PeerFaultRequirement::new("nobody", "h3_dispatch", "transport_goaway").is_err());
}

#[test]
fn a_closure_is_never_a_fault() {
    let table = |closures: &str, counts: &str| {
        format!(
            "{{\"peer_fault_diagnostics\":{{\"fault_count\":0,\"ingress_count\":0,\"owner_count\":0,\"stage_counts\":{{}},\"cause_counts\":{{}},\"last_by_stage\":{{}},\"recent\":[],\"closure_stage_counts\":{counts},\"closure_cause_counts\":{counts},\"closures\":{closures}}}}}"
        )
    };
    let none = scan_peer_faults(table("[]", "{}").as_bytes()).expect("a snapshot");
    assert_eq!(none.len(), 0);
    let failure = scan_peer_faults(table("[1]", "{}").as_bytes()).expect_err("a closure");
    assert!(failure.message().contains("closure ring exceeds the relay bound"));
}

#[test]
fn keys_are_found_whole_and_in_any_case() {
    assert!(contains_ascii_case_insensitive_key(b"x Phase=1", b"phase"));
    assert!(!contains_ascii_case_insensitive_key(b"phases=1", b"phase"));
    assert!(contains_ascii_case_insensitive(b"Harness TIMEOUT", b"timeout"));
    assert!(contains(b"abc", b"bc"));
    assert!(!contains(b"abc", b"BC"));
    assert_eq!(SafeField::ALL.len(), 9);
    assert!(SafeField::Phase.matches(b"PHASE=ready"));
}
