//! The load figures and the settling decisions, on concrete numbers.

use tunnel_test_harness::acp_load::{
    acp_route_uri, better, count_number_id, hop_high_water, hop_live_pair, is_non_owner_ingress,
    judge_probe, judge_readiness, judge_sockets, load_shown, met_schedule, observed_window,
    percent_of, record_case, recorded_coincident, replies_routed, resign_due, saturated,
    session_span, upload_again, HopBytePair, HopRecord, LiveHop, LoadTally, Readiness,
    SegmentSample, Settling, SocketTally,
};
use tunnel_test_harness::json::{parse_document, Json};

fn pair(send_bytes: usize, receive_bytes: usize) -> HopBytePair {
    HopBytePair {
        send_bytes,
        receive_bytes,
    }
}

fn json(text: &str) -> Json {
    parse_document(text.as_bytes()).expect("a JSON document")
}

fn hop_record(role: &str, send: usize, receive: usize, window: usize, both: HopBytePair) -> HopRecord {
    HopRecord {
        role: role.to_owned(),
        peer_send_in_flight_high_water: send,
        peer_receive_queue_high_water: receive,
        peer_window: window,
        peer_coincident: both,
    }
}

#[test]
fn the_better_attested_instant_has_the_larger_smaller_half() {
    assert_eq!(better(pair(100, 1), pair(5, 4)), pair(5, 4));
    assert_eq!(better(pair(5, 4), pair(100, 4)), pair(5, 4));
    assert_eq!(pair(200, 229).smaller(), 200);
}

#[test]
fn high_water_figures_are_maxima_of_one_role() {
    let records = vec![
        hop_record("ingress_remote", 10, 7, 100, pair(1, 1)),
        hop_record("owner", 999, 999, 999, pair(9, 9)),
        hop_record("ingress_remote", 4, 8, 50, pair(3, 2)),
    ];
    assert_eq!(hop_high_water(&records, "ingress_remote"), (10, 8, 100));
    assert_eq!(hop_high_water(&records, "nobody"), (0, 0, 0));
    assert_eq!(recorded_coincident(&records, "ingress_remote"), pair(3, 2));
    assert_eq!(recorded_coincident(&records, "nobody"), pair(0, 0));
}

#[test]
fn open_hops_show_their_best_pairs() {
    let hops = vec![
        LiveHop {
            role: "ingress_remote".to_owned(),
            live: pair(5, 0),
            coincident: pair(2, 2),
            window: 10,
        },
        LiveHop {
            role: "ingress_remote".to_owned(),
            live: pair(3, 3),
            coincident: pair(1, 9),
            window: 20,
        },
    ];
    assert_eq!(
        hop_live_pair(&hops, "ingress_remote"),
        (pair(3, 3), pair(2, 2), 20)
    );
}

#[test]
fn a_tally_keeps_whole_instants_and_the_last_queue_figures() {
    let mut tally = LoadTally::new();
    assert!(upload_again(0, &tally));
    let sample = |parked: Vec<usize>, buffered: Vec<usize>, queue: usize| SegmentSample {
        queue_bytes: queue,
        data_bytes_high_water: queue + 1,
        data_bytes_limit: 1000,
        parked_bytes: parked,
        receive_buffered_bytes: buffered,
    };
    tally.observe((pair(1, 1), pair(0, 0), 7), &sample(vec![5, 5], vec![0], 9));
    assert!(upload_again(2, &tally));
    assert!(!upload_again(3, &tally));
    tally.observe((pair(0, 9), pair(4, 4), 3), &sample(vec![2], vec![1, 2], 4));
    assert_eq!(tally.coherent, pair(2, 3));
    assert_eq!(tally.samples, 2);
    assert_eq!(tally.queue_peak, 9);
    assert_eq!(tally.queue_high_water, 5);
    assert_eq!(tally.hop_live, pair(1, 1));
    assert_eq!(tally.hop_coincident, pair(4, 4));
    assert_eq!(tally.hop_window, 7);
    assert!(!upload_again(0, &tally));
}

#[test]
fn saturation_begins_at_ninety_percent_of_the_window() {
    assert!(saturated(90, 100));
    assert!(!saturated(89, 100));
    assert!(!saturated(5, 0));
    assert!(saturated(195_933, 196_608));
    assert_eq!(percent_of(195_933, 196_608), 99);
    assert_eq!(percent_of(1, 0), 0);
    assert_eq!(observed_window(0, 8), 8);
    assert_eq!(observed_window(3, 8), 3);
    assert!(load_shown(51, 100));
    assert!(!load_shown(50, 100));
    assert!(!load_shown(1, 0));
}

#[test]
fn a_window_shorter_than_its_schedule_counted_something_else() {
    assert!(met_schedule(9000));
    assert!(!met_schedule(8999));
}

#[test]
fn each_round_counts_its_new_sockets() {
    let mut tally = SocketTally::new();
    assert_eq!(tally.observe(&vec!["a".to_owned(), "b".to_owned()]), 2);
    assert_eq!(tally.observe(&vec!["b".to_owned(), "c".to_owned()]), 1);
    assert_eq!(tally.observe(&vec!["c".to_owned()]), 0);
    assert_eq!(tally.len(), 3);
}

#[test]
fn a_replayed_message_shows_in_the_span() {
    let seen = vec![
        json(r#"{"method":"session/update"}"#),
        json(r#"{"method":"session/request_permission","id":"cb"}"#),
        json(r#"{"method":"session/update"}"#),
        json(r#"{"id":"held-0","result":{"stopReason":"end_turn"}}"#),
        json(r#"{"id":"held-0","result":{"stopReason":"end_turn"}}"#),
    ];
    let span = session_span("s-1", 1, &seen, "end_turn", true);
    assert_eq!(span.session, "s-1");
    assert_eq!(span.updates_before, 1);
    assert_eq!(span.updates_after, 1);
    assert_eq!(span.callbacks, 1);
    assert_eq!(span.identified_messages, 3);
    assert_eq!(span.distinct_agent_ids, 2);
    assert_eq!(span.messages, 5);
    assert_eq!(span.stop_reason, "end_turn");
    assert!(span.stream_alive_through_window);
}

#[test]
fn a_cross_routed_reply_is_not_two_routed_ones() {
    let reply = || json(r#"{"id":1,"result":{"stopReason":"end_turn"}}"#);
    let one = vec![reply()];
    let two = vec![reply(), reply()];
    let none = vec![json(r#"{"id":"1"}"#)];
    assert_eq!(count_number_id(&two, 1), 2);
    assert!(replies_routed(&one, "end_turn", &one, "end_turn", 1));
    assert!(!replies_routed(&two, "end_turn", &none, "end_turn", 1));
    assert!(!replies_routed(&one, "end_turn", &one, "cancelled", 1));
}

#[test]
fn settling_is_decided_by_what_was_seen_or_by_the_bound() {
    assert!(resign_due(15_000));
    assert!(!resign_due(14_999));
    assert!(matches!(judge_probe(404, true), Settling::Settled));
    assert!(matches!(judge_probe(503, false), Settling::Again));
    match judge_probe(503, true) {
        Settling::TimedOut(error) => assert_eq!(
            error.message(),
            "harness timeout: the ingress route still answered 503 45s after a membership re-sign"
        ),
        _ => panic!("a route that never answered settled"),
    }
    assert!(matches!(
        judge_sockets("active", false, 2, false),
        Settling::Settled
    ));
    assert!(matches!(
        judge_sockets("active", true, 2, false),
        Settling::Again
    ));
    match judge_sockets("draining", false, 3, true) {
        Settling::TimedOut(error) => assert_eq!(
            error.detail(),
            "the device never settled between rotations; 3 sockets open at the bound"
        ),
        _ => panic!("a device that never settled did"),
    }
}

#[test]
fn routes_and_ingresses_are_told_apart() {
    assert_eq!(
        acp_route_uri(8443, "dev", "svc"),
        "https://localhost:8443/v1/devices/dev/services/svc/http/acp"
    );
    assert!(is_non_owner_ingress("relay-a", "relay-c"));
    assert!(!is_non_owner_ingress("relay-a", "relay-a"));
    let mut executed = vec!["first".to_owned()];
    let mut oldest: u128 = 9;
    record_case(&mut executed, &mut oldest, "second", 4);
    record_case(&mut executed, &mut oldest, "third", 11);
    assert_eq!(executed, vec!["first", "second", "third"]);
    assert_eq!(oldest, 11);
}

#[test]
fn readiness_comes_back_or_is_named() {
    let all = vec![true, true];
    let one = vec![true, false];
    assert!(matches!(
        judge_readiness(Readiness::Peers, &all, true),
        Settling::Settled
    ));
    assert!(matches!(
        judge_readiness(Readiness::Peers, &one, false),
        Settling::Again
    ));
    let complaint = |what: Readiness| match judge_readiness(what, &one, true) {
        Settling::TimedOut(error) => error.detail().to_owned(),
        _ => panic!("a late wait was not ended"),
    };
    assert_eq!(
        complaint(Readiness::Peers),
        "peer readiness did not return after a membership re-sign"
    );
    assert_eq!(
        complaint(Readiness::Membership),
        "membership readiness did not return within 20s after the key rotation"
    );
}
