//! The decisions of the single cases, on concrete observations.

use tunnel_test_harness::acp_cases::{
    aborted_exchanges, all_converged, error_of, fresh_executions, inert, judge_withdrawal,
    key_left_verifier, next_record_version, reason_label, relay_converged, Answer, ExchangeRecord,
    ForgeryTally, HeaderField, InvalidationLedger, MembershipView, PeerInvalidationReason,
};
use tunnel_test_harness::json::parse_document;
use tunnel_test_harness::owner_keys::owner_record;

fn field(name: &str, value: &str) -> HeaderField {
    HeaderField {
        name: name.to_owned(),
        value: value.to_owned(),
    }
}

fn answer(status: u16, headers: &[(&str, &str)], body: &str) -> Answer {
    Answer::new(
        status,
        headers.iter().map(|(name, value)| field(name, value)).collect(),
        body.as_bytes().to_vec(),
    )
}

#[test]
fn answers_differ_by_status_header_or_body_but_not_by_date() {
    let one = answer(404, &[("date", "now"), ("b", "2"), ("a", "1")], "gone");
    let same = answer(404, &[("a", "1"), ("b", "2"), ("date", "later")], "gone");
    assert!(one.indistinguishable_from(&same));
    assert!(inert(&one, &same));
    assert!(!one.indistinguishable_from(&answer(403, &[("a", "1"), ("b", "2")], "gone")));
    assert!(!one.indistinguishable_from(&answer(404, &[("a", "1")], "gone")));
    assert!(!one.indistinguishable_from(&answer(404, &[("a", "1"), ("b", "3")], "gone")));
    assert!(!one.indistinguishable_from(&answer(404, &[("a", "1"), ("b", "2")], "Gone")));
    let refused = answer(403, &[], "no");
    assert!(!inert(&refused, &refused));
}

#[test]
fn an_error_is_read_from_the_body_or_from_its_error_member() {
    let flat = answer(400, &[], r#"{"code":"BAD","execution":"not_dispatched"}"#);
    assert_eq!(flat.error(), ("BAD".to_owned(), "not_dispatched".to_owned()));
    let nested = answer(400, &[], r#"{"error":{"code":"DEEP"}}"#);
    assert_eq!(nested.error(), ("DEEP".to_owned(), String::new()));
    assert_eq!(
        answer(500, &[], "not json").error(),
        (String::new(), String::new())
    );
    let document = parse_document(br#"{"code":"X","error":{"code":"Y"}}"#);
    assert_eq!(error_of(&document).0, "X");
}

#[test]
fn a_body_that_is_no_text_carries_no_error() {
    let broken = Answer::new(400, Vec::new(), vec![0x7b, 0xff, 0x7d]);
    assert_eq!(broken.error(), (String::new(), String::new()));
}

#[test]
fn forgeries_count_as_refused_only_before_dispatch() {
    let mut tally = ForgeryTally::new();
    tally.observe("binding", 400, "BAD_HEADER", "not_dispatched");
    tally.observe("owner", 400, "BAD_HEADER", "unknown");
    tally.observe("identity", 200, "", "");
    assert_eq!(tally.attempts, 3);
    assert_eq!(tally.refused, 1);
    assert_eq!(
        tally.codes,
        vec![
            "binding=400:BAD_HEADER:not_dispatched",
            "owner=400:BAD_HEADER:unknown",
            "identity=200::",
        ]
    );
}

fn exchange(role: &str, outcome: &str, id: Option<&str>, execution: &str) -> ExchangeRecord {
    ExchangeRecord {
        role: role.to_owned(),
        response_outcome: outcome.to_owned(),
        request_id: id.map(|id| id.to_owned()),
        execution: execution.to_owned(),
    }
}

#[test]
fn only_what_the_revocation_withdrew_is_classified() {
    let before = aborted_exchanges(&vec![exchange(
        "ingress_remote",
        "aborted",
        Some("old"),
        "unknown",
    )]);
    let after = aborted_exchanges(&vec![
        exchange("ingress_remote", "aborted", Some("old"), "unknown"),
        exchange("ingress_remote", "aborted", Some("get"), "dispatched"),
        exchange("ingress_remote", "completed", Some("done"), "done"),
        exchange("owner", "aborted", Some("other"), "other"),
        exchange("ingress_remote", "aborted", None, "nameless"),
    ]);
    let fresh = fresh_executions(&before, &after);
    assert_eq!(fresh, vec!["dispatched"]);
    let waiting = judge_withdrawal(&fresh, false);
    assert!(!waiting.settled);
    let settled = judge_withdrawal(
        &vec!["dispatched".to_owned(), "unknown".to_owned()],
        false,
    );
    assert!(settled.settled);
    assert_eq!(settled.executions, "dispatched+unknown");
    assert!(judge_withdrawal(&fresh, true).settled);
}

#[test]
fn a_ledger_tells_who_latched_what_about_whom() {
    let mut ledger = InvalidationLedger::new();
    ledger.record("relay-c", "relay-a", PeerInvalidationReason::MembershipRevoked);
    ledger.record("relay-c", "relay-a", PeerInvalidationReason::MembershipChanged);
    ledger.record("relay-c", "relay-a", PeerInvalidationReason::MembershipRevoked);
    ledger.record("relay-a", "relay-c", PeerInvalidationReason::TrustExpired);
    assert_eq!(
        ledger.labels_for("relay-c", "relay-a"),
        vec!["membership_changed", "membership_revoked"]
    );
    assert_eq!(ledger.labels_for("relay-a", "relay-c"), vec!["trust_expired"]);
    ledger.clear();
    assert!(ledger.labels_for("relay-c", "relay-a").is_empty());
    assert_eq!(
        reason_label(PeerInvalidationReason::AuthorityUnknown),
        "authority_unknown"
    );
}

fn member(node: &str, version: u64, spkis: &[&str]) -> MembershipView {
    MembershipView {
        node_id: node.to_owned(),
        record_version: version,
        spki_sha256: spkis.iter().map(|spki| (*spki).to_owned()).collect(),
    }
}

#[test]
fn a_converged_record_without_a_key_withdrew_it() {
    let keys = vec!["new".to_owned()];
    let records = vec![member("relay-b", 9, &["old"]), member("relay-a", 4, &["new"])];
    assert!(relay_converged(&records, "relay-a", 4, &keys));
    assert!(!relay_converged(&records, "relay-a", 5, &keys));
    assert!(key_left_verifier(&keys, &records, "relay-a", "old"));
    let held = vec![member("relay-a", 4, &["new", "old"])];
    assert!(!relay_converged(&held, "relay-a", 4, &keys));
    assert!(all_converged(&vec![], "relay-a", 4, &keys));
    let relays = vec![
        vec![member("relay-a", 4, &["new"])],
        vec![member("relay-a", 4, &["new", "old"])],
    ];
    assert!(!all_converged(&relays, "relay-a", 4, &keys));
    let converged = vec![records, vec![member("relay-a", 4, &["new"])]];
    assert!(all_converged(&converged, "relay-a", 4, &keys));
    let records = &converged[0];
    assert!(!key_left_verifier(&keys, &held, "relay-a", "old"));
    let kept = vec!["new".to_owned(), "old".to_owned()];
    assert!(!key_left_verifier(&kept, records, "relay-a", "old"));
}

#[test]
fn record_versions_rise_and_keys_have_stable_names() {
    let mut counter: u64 = 7;
    assert_eq!(next_record_version(&mut counter), 7);
    assert_eq!(next_record_version(&mut counter), 8);
    let first = "ffff456789abcdef0123".to_owned();
    let second = "0123456789abcdef4567".to_owned();
    let record = owner_record("relay-a", 7, &vec![first.clone(), second.clone()], 1_000);
    assert_eq!(record.record_version, 7);
    assert_eq!(record.issued_at_ms, 1_000);
    assert_eq!(record.expires_at_ms, 61_000);
    for key in &record.keys {
        assert_eq!((key.not_before_ms, key.expires_at_ms), (1_000, 61_000));
        assert!(!key.revoked);
    }
    let found: Vec<(&str, &str)> = record
        .keys
        .iter()
        .map(|key| (key.key_id.as_str(), key.spki_sha256.as_str()))
        .collect();
    assert_eq!(
        found,
        vec![
            ("relay-a-peer-0123456789abcdef", second.as_str()),
            ("relay-a-peer-ffff456789abcdef", first.as_str()),
        ]
    );
    let mut later = owner_record("relay-a", 8, &vec![second, first], 1_000);
    assert_ne!(later, record);
    later.record_version = 7;
    assert_eq!(later, record);
}

#[test]
fn keys_that_begin_alike_stay_in_their_order() {
    let spkis = vec![
        "0123456789abcdefzz".to_owned(),
        "0123456789abcdefaa".to_owned(),
        "0000000000000000".to_owned(),
    ];
    let keys = owner_record("relay-a", 1, &spkis, 0).keys;
    let found: Vec<&str> = keys.iter().map(|key| key.spki_sha256.as_str()).collect();
    assert_eq!(
        found,
        vec!["0000000000000000", "0123456789abcdefzz", "0123456789abcdefaa"]
    );
}
