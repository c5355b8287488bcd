//! The window, the run specification, the matrix and the peer fault table, each
//! on inputs that they accept and on every way in which they fail.

use std::collections::BTreeMap;

use tunnel_test_harness::c11_bundle::C11EvidenceBundle;
use tunnel_test_harness::c11_window::{
    C11RunSpec, C11ScanReport, C11Window, Sentinel, MAX_SENTINEL_BYTES,
};
use tunnel_test_harness::error::HarnessError;
use tunnel_test_harness::peer_faults::{PeerFaultTuple, MAX_TOKEN_BYTES};
use tunnel_test_harness::scan_failure::{
    FaultStage, RunOutcome, SafeField, ScanFailure, SentinelKind,
};

fn assert_rejected(result: Result<(), HarnessError>, fragment: &str) {
    match result {
        Ok(()) => panic!("the validator accepted evidence that breaks {fragment}"),
        Err(error) => assert!(
            error.message().contains(fragment),
            "expected a failure naming {fragment:?}, got {error:?}"
        ),
    }
}

const SAFE_LINE: &[u8] = b"relay=relay-a tenant=tenant-a owner=owner-a route=peer-route phase=ready epoch=2 generation=3 fence=4 revocation=false owner_death=false dispatch_counter=1 reason=CONTROL_CLOSED";
const RELAY_ONLY_LINE: &[u8] = b"relay=relay-a";

fn cli_result(
    result: Result<(), ScanFailure>,
) -> Result<(), HarnessError> {
    result.map_err(|error| HarnessError::Process(format!("C11 diagnostics: {}", error.message())))
}

fn spec_with_roles(roles: &[&str]) -> Result<C11RunSpec, ScanFailure> {
    C11RunSpec::new(
        "run-1",
        "source-1",
        "build-1",
        FaultStage::Peer,
        RunOutcome::Success,
        100,
        roles,
        vec![Sentinel::new(
            SentinelKind::Credential,
            b"fixture-secret-token",
        )?],
    )
}

fn spec() -> C11RunSpec {
    spec_with_roles(&["relay-a"]).expect("valid spec")
}

fn report(
    stage: FaultStage,
    outcome: RunOutcome,
    source_id: &str,
    build_id: &str,
    started_utc_ms: i64,
    ended_utc_ms: i64,
    line: &[u8],
) -> C11ScanReport {
    let spec = C11RunSpec::new(
        &format!("run-{}-{}", stage.label(), outcome.label()),
        source_id,
        build_id,
        stage,
        outcome,
        started_utc_ms,
        &["relay-a"],
        Vec::new(),
    )
    .expect("valid report spec")
    .with_required_fields(&[SafeField::Relay]);
    let mut window = C11Window::new(spec);
    window.append("relay-a", line).expect("append");
    window.close("relay-a").expect("close");
    window.mark_joined("relay-a").expect("join");
    window.finish(ended_utc_ms).expect("finish")
}

fn complete_bundle() -> C11EvidenceBundle {
    let mut bundle = C11EvidenceBundle::new(100);
    for stage in FaultStage::ALL {
        for outcome in RunOutcome::ALL {
            bundle
                .add(report(
                    stage, outcome, "source-1", "build-1", 100, 101, SAFE_LINE,
                ))
                .expect("add");
        }
    }
    bundle
}

fn peer_fault_snapshot(tuples: &[(&str, &str, &str)]) -> String {
    let mut recent = Vec::new();
    let mut last_by_stage = BTreeMap::new();
    let mut stage_counts: BTreeMap<&str, u64> = BTreeMap::new();
    let mut cause_counts: BTreeMap<&str, u64> = BTreeMap::new();
    let mut ingress = 0_u64;
    let mut owner = 0_u64;
    for (index, (role, stage, cause)) in tuples.iter().enumerate() {
        let event = format!(
            "{{\"sequence\":{seq},\"observed_at_ms\":{seq},\"role\":\"{role}\",\"stage\":\"{stage}\",\"cause\":\"{cause}\",\"tenant_id\":\"00000000-0000-0000-0000-000000000001\",\"device_id\":\"00000000-0000-0000-0000-000000000002\",\"session_id\":\"session-7\",\"owner_epoch\":9,\"owner_node_id\":\"relay-b\",\"service_id\":\"00000000-0000-0000-0000-000000000003\",\"request_id\":\"request-1\"}}",
            seq = index + 1
        );
        recent.push(event.clone());
        last_by_stage.insert(*stage, event);
        *stage_counts.entry(stage).or_default() += 1;
        *cause_counts.entry(cause).or_default() += 1;
        match *role {
            "ingress" => ingress += 1,
            _ => owner += 1,
        }
    }
    let map = |counts: &BTreeMap<&str, u64>| {
        counts
            .iter()
            .map(|(key, count)| format!("\"{key}\":{count}"))
            .collect::<Vec<_>>()
            .join(",")
    };
    format!(
        "{{\"lifetime_application_dispatches\":1,\"peer_fault_diagnostics\":{{\"fault_count\":{},\"ingress_count\":{ingress},\"owner_count\":{owner},\"stage_counts\":{{{}}},\"cause_counts\":{{{}}},\"last_by_stage\":{{{}}},\"recent\":[{}],\"closure_stage_counts\":{{}},\"closure_cause_counts\":{{}},\"closures\":[]}},\"sessions\":[]}}",
        tuples.len(),
        map(&stage_counts),
        map(&cause_counts),
        last_by_stage
            .iter()
            .map(|(stage, event)| format!("\"{stage}\":{event}"))
            .collect::<Vec<_>>()
            .join(","),
        recent.join(","),
    )
}

fn relay_snapshot_window(
    required: &[(&str, &str, &str)],
    snapshot: &str,
) -> Result<(), ScanFailure> {
    let spec = spec_with_roles(&["snapshot-relay-relay-a"])?
        .with_required_fields(&[])
        .with_required_peer_faults(required)?;
    let mut window = C11Window::new(spec);
    window.append("snapshot-relay-relay-a", snapshot.as_bytes())?;
    window.close("snapshot-relay-relay-a")?;
    window.mark_joined("snapshot-relay-relay-a")?;
    window.finish(101).map(|_| ())
}

#[test]
fn relay_snapshot_stage_alternatives_accept_either_declared_stage() {
    let required = [(
        "ingress",
        "stream_permit_checkout|h3_dispatch",
        "transport_goaway",
    )];
    for stage in ["stream_permit_checkout", "h3_dispatch"] {
        relay_snapshot_window(
            &required,
            &peer_fault_snapshot(&[("ingress", stage, "transport_goaway")]),
        )
        .unwrap_or_else(|failure| panic!("{stage} should satisfy the requirement: {failure:?}"));
    }
}

#[test]
fn a_snapshot_carrying_an_unavailable_pin_dial_is_accepted() {
    let spec = spec_with_roles(&["snapshot-relay-relay-a"])
        .expect("spec")
        .with_required_fields(&[])
        .with_required_peer_faults(&[("ingress", "pool_connect", "transport_pins_unavailable")])
        .expect("tuples");
    let mut window = C11Window::new(spec);
    window
        .append(
            "snapshot-relay-relay-a",
            peer_fault_snapshot(&[("ingress", "pool_connect", "transport_pins_unavailable")])
                .as_bytes(),
        )
        .expect("the scanner accepts a pins-unavailable dial");
    window.close("snapshot-relay-relay-a").expect("close");
    window.mark_joined("snapshot-relay-relay-a").expect("join");
    let report = window.finish(101).expect("finish");
    assert!(
        report.peer_faults_present.contains(
            &PeerFaultTuple::new("ingress", "pool_connect", "transport_pins_unavailable")
                .unwrap()
        ),
        "the cause is counted, not merely tolerated"
    );
}

#[test]
fn relay_snapshot_tuples_satisfy_exact_requirements_and_are_reported() {
    let spec = spec_with_roles(&["snapshot-relay-relay-a", "snapshot-relay-relay-b"])
        .expect("spec")
        .with_required_fields(&[])
        .with_required_peer_faults(&[
            ("ingress", "lease", "owner_not_ready"),
            ("owner", "body", "membership_expired"),
        ])
        .expect("tuples");
    let mut window = C11Window::new(spec);
    window
        .append(
            "snapshot-relay-relay-a",
            peer_fault_snapshot(&[("ingress", "lease", "owner_not_ready")]).as_bytes(),
        )
        .expect("append a");
    window
        .append(
            "snapshot-relay-relay-b",
            peer_fault_snapshot(&[]).as_bytes(),
        )
        .expect("append b empty");
    window
        .append(
            "snapshot-relay-relay-b",
            peer_fault_snapshot(&[("owner", "body", "membership_expired")]).as_bytes(),
        )
        .expect("append b second frame");
    for role in ["snapshot-relay-relay-a", "snapshot-relay-relay-b"] {
        window.close(role).expect("close");
        window.mark_joined(role).expect("join");
    }
    let report = window.finish(101).expect("finish");
    assert_eq!(report.peer_faults_present.len(), 2);
    assert!(
        report
            .peer_faults_present
            .contains(&PeerFaultTuple::new("ingress", "lease", "owner_not_ready").unwrap())
    );
    assert!(
        report
            .peer_faults_present
            .contains(&PeerFaultTuple::new("owner", "body", "membership_expired").unwrap())
    );
}

#[test]
fn complete_matrix_returns_a_bounded_report() {
    let report = complete_bundle().finish(200).expect("complete matrix");
    assert_eq!(report.runs, 8);
    assert_eq!(report.safe_field_count, SafeField::ALL.len());
    assert_eq!(report.captured_streams, 8);
    assert_eq!(report.captured_bytes, SAFE_LINE.len() * 8);
    assert_eq!(report.source_id, "source-1");
    assert_eq!(report.build_id, "build-1");
    assert_eq!(report.peer_fault_tuples, 0);
}

#[test]
fn every_c11_window_spec_and_matrix_failure_reaches_the_shared_exit_path() {
    type Case = (
        &'static str,
        &'static str,
        fn() -> Result<(), ScanFailure>,
    );
    let cases: &[Case] = &[
        ("unexpected_stream", "unexpected stream role", || {
            C11Window::new(spec()).append("relay-z", SAFE_LINE)
        }),
        ("append_after_close", "append after close", || {
            let mut window = C11Window::new(spec());
            window.append("relay-a", SAFE_LINE)?;
            window.close("relay-a")?;
            window.append("relay-a", SAFE_LINE)
        }),
        ("capture_overflow", "capture overflow", || {
            let mut window = C11Window::new(spec().with_stream_limit(4)?);
            window.append("relay-a", b"12345")
        }),
        ("sensitive_value", "sensitive credential value", || {
            C11Window::new(spec()).append("relay-a", b"phase=ready fixture-secret-token")
        }),
        ("duplicate_close", "duplicate close", || {
            let mut window = C11Window::new(spec());
            window.append("relay-a", SAFE_LINE)?;
            window.close("relay-a")?;
            window.close("relay-a")
        }),
        ("joined_before_close", "join before close", || {
            let mut window = C11Window::new(spec());
            window.append("relay-a", SAFE_LINE)?;
            window.mark_joined("relay-a")
        }),
        ("stream_not_closed", "stream not closed", || {
            let mut window = C11Window::new(spec());
            window.append("relay-a", SAFE_LINE)?;
            window.finish(101).map(|_| ())
        }),
        ("stream_not_joined", "stream not joined", || {
            let mut window = C11Window::new(spec());
            window.append("relay-a", SAFE_LINE)?;
            window.close("relay-a")?;
            window.finish(101).map(|_| ())
        }),
        ("missing_stream", "missing expected stream: relay-b", || {
            let mut window = C11Window::new(spec_with_roles(&["relay-a", "relay-b"])?);
            window.append("relay-a", SAFE_LINE)?;
            window.close("relay-a")?;
            window.mark_joined("relay-a")?;
            window.finish(101).map(|_| ())
        }),
        ("missing_safe_fields", "missing safe fields", || {
            let mut window = C11Window::new(spec());
            window.append("relay-a", RELAY_ONLY_LINE)?;
            window.close("relay-a")?;
            window.mark_joined("relay-a")?;
            window.finish(101).map(|_| ())
        }),
        ("invalid_window", "invalid diagnostic window", || {
            let mut window = C11Window::new(spec());
            window.append("relay-a", SAFE_LINE)?;
            window.close("relay-a")?;
            window.mark_joined("relay-a")?;
            window.finish(99).map(|_| ())
        }),
        ("invalid_run_id", "invalid bounded run_id", || {
            C11RunSpec::new(
                "",
                "source-1",
                "build-1",
                FaultStage::Peer,
                RunOutcome::Success,
                100,
                &["relay-a"],
                Vec::new(),
            )
            .map(|_| ())
        }),
        ("invalid_source_id", "invalid bounded source_id", || {
            C11RunSpec::new(
                "run-1",
                "source 1",
                "build-1",
                FaultStage::Peer,
                RunOutcome::Success,
                100,
                &["relay-a"],
                Vec::new(),
            )
            .map(|_| ())
        }),
        ("invalid_build_id", "invalid bounded build_id", || {
            C11RunSpec::new(
                "run-1",
                "source-1",
                &"b".repeat(MAX_TOKEN_BYTES + 1),
                FaultStage::Peer,
                RunOutcome::Success,
                100,
                &["relay-a"],
                Vec::new(),
            )
            .map(|_| ())
        }),
        ("invalid_stream_role", "invalid bounded stream_role", || {
            spec_with_roles(&["relay/a"]).map(|_| ())
        }),
        (
            "no_expected_streams",
            "no expected diagnostic streams",
            || spec_with_roles(&[]).map(|_| ()),
        ),
        (
            "invalid_sentinel_empty",
            "invalid credential sentinel",
            || Sentinel::new(SentinelKind::Credential, &[]).map(|_| ()),
        ),
        (
            "invalid_sentinel_too_long",
            "invalid application_payload sentinel",
            || {
                Sentinel::new(
                    SentinelKind::ApplicationPayload,
                    &[b'x'; MAX_SENTINEL_BYTES + 1],
                )
                .map(|_| ())
            },
        ),
        (
            "invalid_stream_limit",
            "invalid stream capture limit",
            || spec().with_stream_limit(0).map(|_| ()),
        ),
        (
            "safe_field_role_not_expected",
            "safe-field role was not an expected stream",
            || spec().with_safe_field_roles(&["relay-z"]).map(|_| ()),
        ),
        (
            "invalid_safe_field_role",
            "invalid bounded safe_field_role",
            || spec().with_safe_field_roles(&[""]).map(|_| ()),
        ),
        (
            "run_outside_matrix_start",
            "run outside matrix window",
            || {
                C11EvidenceBundle::new(100).add(report(
                    FaultStage::Peer,
                    RunOutcome::Success,
                    "source-1",
                    "build-1",
                    99,
                    101,
                    SAFE_LINE,
                ))
            },
        ),
        (
            "run_outside_matrix_end",
            "run outside matrix window: matrix-end",
            || complete_bundle().finish(100).map(|_| ()),
        ),
        (
            "duplicate_matrix_case",
            "duplicate peer success matrix case",
            || {
                let mut bundle = C11EvidenceBundle::new(100);
                bundle.add(report(
                    FaultStage::Peer,
                    RunOutcome::Success,
                    "source-1",
                    "build-1",
                    100,
                    101,
                    SAFE_LINE,
                ))?;
                bundle.add(report(
                    FaultStage::Peer,
                    RunOutcome::Success,
                    "source-1",
                    "build-1",
                    100,
                    101,
                    SAFE_LINE,
                ))
            },
        ),
        (
            "missing_matrix_case",
            "missing redis success matrix case",
            || {
                let mut bundle = C11EvidenceBundle::new(100);
                bundle.add(report(
                    FaultStage::Peer,
                    RunOutcome::Success,
                    "source-1",
                    "build-1",
                    100,
                    101,
                    SAFE_LINE,
                ))?;
                bundle.finish(200).map(|_| ())
            },
        ),
        (
            "matrix_missing_safe_fields",
            "missing safe fields: tenant",
            || {
                let mut bundle = C11EvidenceBundle::new(100);
                for stage in FaultStage::ALL {
                    for outcome in RunOutcome::ALL {
                        bundle.add(report(
                            stage,
                            outcome,
                            "source-1",
                            "build-1",
                            100,
                            101,
                            RELAY_ONLY_LINE,
                        ))?;
                    }
                }
                bundle.finish(200).map(|_| ())
            },
        ),
        (
            "matrix_mixed_source_build",
            "mixed source/build identities",
            || {
                let mut bundle = C11EvidenceBundle::new(100);
                for stage in FaultStage::ALL {
                    for outcome in RunOutcome::ALL {
                        let source_id =
                            if stage == FaultStage::Write && outcome == RunOutcome::Failure {
                                "source-2"
                            } else {
                                "source-1"
                            };
                        bundle.add(report(
                            stage, outcome, source_id, "build-1", 100, 101, SAFE_LINE,
                        ))?;
                    }
                }
                bundle.finish(200).map(|_| ())
            },
        ),
        ("matrix_invalid_window", "invalid diagnostic window", || {
            C11EvidenceBundle::new(100).finish(99).map(|_| ())
        }),
        (
            "peer_fault_missing_required_tuple",
            "missing peer fault tuple: ingress/pool_connect/transport_timeout",
            || {
                relay_snapshot_window(
                    &[("ingress", "pool_connect", "transport_timeout")],
                    &peer_fault_snapshot(&[("ingress", "lease", "owner_not_ready")]),
                )
            },
        ),
        (
            "peer_fault_stage_alternatives_still_require_the_exact_cause",
            "missing peer fault tuple: ingress/stream_permit_checkout|h3_dispatch/transport_goaway",
            || {
                relay_snapshot_window(
                    &[(
                        "ingress",
                        "stream_permit_checkout|h3_dispatch",
                        "transport_goaway",
                    )],
                    &peer_fault_snapshot(&[("ingress", "h3_dispatch", "transport_h3")]),
                )
            },
        ),
        (
            "peer_fault_stage_alternative_outside_vocabulary",
            "invalid peer fault table: stage outside the closed vocabulary",
            || {
                spec()
                    .with_required_peer_faults(&[(
                        "ingress",
                        "h3_dispatch|handshake",
                        "transport_goaway",
                    )])
                    .map(|_| ())
            },
        ),
        (
            "peer_fault_role_mismatch_is_not_the_required_tuple",
            "missing peer fault tuple: owner/lease/membership",
            || {
                relay_snapshot_window(
                    &[("owner", "lease", "membership")],
                    &peer_fault_snapshot(&[("ingress", "lease", "membership")]),
                )
            },
        ),
        (
            "peer_fault_cause_outside_vocabulary",
            "invalid peer fault table: cause outside the closed vocabulary",
            || {
                relay_snapshot_window(
                    &[],
                    &peer_fault_snapshot(&[("ingress", "lease", "owner_not_ready")]).replace(
                        "\"cause\":\"owner_not_ready\"",
                        "\"cause\":\"owner_not_ready_detail\"",
                    ),
                )
            },
        ),
        (
            "peer_fault_stage_outside_vocabulary",
            "invalid peer fault table: stage_counts key outside the closed vocabulary",
            || {
                relay_snapshot_window(
                    &[],
                    &peer_fault_snapshot(&[("ingress", "lease", "owner_not_ready")])
                        .replace("\"lease\"", "\"lease_text\""),
                )
            },
        ),
        (
            "peer_fault_extra_event_field_is_rejected",
            "invalid peer fault table: event keys differ from the relay schema",
            || {
                relay_snapshot_window(
                    &[],
                    &peer_fault_snapshot(&[("ingress", "lease", "owner_not_ready")])
                        .replace("\"request_id\":", "\"payload\":\"x\",\"request_id\":"),
                )
            },
        ),
        (
            "peer_fault_unbounded_request_id_is_rejected",
            "invalid peer fault table: request_id was not a bounded identifier",
            || {
                relay_snapshot_window(
                    &[],
                    &peer_fault_snapshot(&[("ingress", "lease", "owner_not_ready")])
                        .replace("request-1", "Bearer secret/token"),
                )
            },
        ),
        (
            "peer_fault_counter_mismatch_is_rejected",
            "invalid peer fault table: role counters do not sum to fault_count",
            || {
                relay_snapshot_window(
                    &[],
                    &peer_fault_snapshot(&[("ingress", "lease", "owner_not_ready")])
                        .replace("\"ingress_count\":1", "\"ingress_count\":2"),
                )
            },
        ),
        (
            "peer_fault_table_missing_from_relay_snapshot",
            "invalid peer fault table: relay snapshot omitted peer_fault_diagnostics",
            || relay_snapshot_window(&[], "{\"sessions\":[]}"),
        ),
        (
            "peer_fault_relay_snapshot_not_json",
            "invalid peer fault table: relay snapshot frame was not a JSON document",
            || relay_snapshot_window(&[], "relay=relay-a"),
        ),
        (
            "peer_fault_required_tuple_outside_vocabulary",
            "invalid peer fault table: stage outside the closed vocabulary",
            || {
                spec()
                    .with_required_peer_faults(&[("ingress", "handshake", "closed")])
                    .map(|_| ())
            },
        ),
    ];
    for &(name, fragment, run) in cases {
        let result = cli_result(run());
        assert!(
            result.is_err(),
            "{name}: C11 scanner failure unexpectedly passed"
        );
        assert_rejected(result, fragment);
    }
}
