//! What is read off the wire, on concrete bytes.

use tunnel_test_harness::acp_wire::{
    count_effect, count_effect_mentions, count_method, device_config_text, method_of,
    no_stop_reason_for, offered_options, process_listed, refusal_rule, session_id, sse_payloads,
    stop_reason, stop_reason_for, typed_id, update_after_cancel,
};
use tunnel_test_harness::json::{parse_document, parse_documents, Json};

fn json(text: &str) -> Json {
    parse_document(text.as_bytes()).expect("a JSON document")
}

#[test]
fn a_stream_reads_back_as_its_payloads() {
    let bytes = b"data: {\"a\":1}\n\ndata: second\n\n";
    assert_eq!(
        sse_payloads(bytes),
        vec![b"{\"a\":1}".to_vec(), b"second".to_vec()]
    );
}

#[test]
fn an_unfinished_message_is_not_a_payload() {
    assert_eq!(sse_payloads(b"data: one\n\ndata: two"), vec![b"one".to_vec()]);
    assert!(sse_payloads(b"").is_empty());
    assert!(sse_payloads(b": comment\n\n").is_empty());
}

#[test]
fn a_text_id_and_a_number_id_never_look_alike() {
    assert_eq!(typed_id(&json(r#"{"id":"1"}"#)), Some("s:1".to_owned()));
    assert_eq!(typed_id(&json(r#"{"id":1}"#)), Some("n:1".to_owned()));
    assert_eq!(typed_id(&json(r#"{"id":-7}"#)), Some("n:-7".to_owned()));
    assert_eq!(typed_id(&json(r#"{"id":1.5}"#)), Some("n:1.5".to_owned()));
    assert_eq!(typed_id(&json(r#"{"id":null}"#)), None);
    assert_eq!(typed_id(&json(r#"{"method":"x"}"#)), None);
    assert_eq!(typed_id(&json("[1]")), None);
}

#[test]
fn a_stop_reason_is_read_for_its_own_request_only() {
    let warm = json(r#"{"id":"warm-0","result":{"stopReason":"end_turn"}}"#);
    assert_eq!(stop_reason(&warm), Some("end_turn".to_owned()));
    assert_eq!(stop_reason_for(&warm, "warm-0"), Some("end_turn".to_owned()));
    assert_eq!(stop_reason_for(&warm, "held-0"), None);
    assert!(no_stop_reason_for(&vec![warm], "held-0"));
    let numbered = json(r#"{"id":1,"result":{"stopReason":"end_turn"}}"#);
    assert_eq!(stop_reason_for(&numbered, "1"), None);
}

#[test]
fn a_session_id_and_a_method_are_read_where_they_stand() {
    assert_eq!(
        session_id(&json(r#"{"result":{"sessionId":"s-1"}}"#)),
        Some("s-1".to_owned())
    );
    assert_eq!(session_id(&json(r#"{"sessionId":"s-1"}"#)), None);
    assert_eq!(
        method_of(&json(r#"{"method":"session/update"}"#)),
        Some("session/update")
    );
    assert_eq!(method_of(&json(r#"{"method":7}"#)), None);
}

#[test]
fn a_refusal_names_its_rule_before_the_first_colon() {
    let body = r#"{"error":{"message":" ACP_PROMPT_ALREADY_ACTIVE : one: turn"}}"#;
    assert_eq!(refusal_rule(409, body), "ACP_PROMPT_ALREADY_ACTIVE");
    assert_eq!(refusal_rule(202, body), "");
    assert_eq!(refusal_rule(409, "not json"), "");
    assert_eq!(refusal_rule(409, r#"{"error":{}}"#), "");
}

#[test]
fn offered_options_keep_their_order_and_skip_what_has_no_id() {
    let callback = json(
        r#"{"params":{"options":[{"optionId":"allow"},{"name":"x"},{"optionId":3},{"optionId":"reject"}]}}"#,
    );
    assert_eq!(offered_options(&callback), vec!["allow", "reject"]);
    assert!(offered_options(&json("{}")).is_empty());
}

#[test]
fn an_update_counts_only_between_the_cancellation_and_the_result() {
    let update = || json(r#"{"method":"session/update"}"#);
    let result = || json(r#"{"id":"p","result":{"stopReason":"cancelled"}}"#);
    assert!(update_after_cancel(&vec![update(), update(), result()], 1));
    assert!(!update_after_cancel(&vec![update(), result(), update()], 1));
    assert!(!update_after_cancel(&vec![update(), update()], 1));
    assert_eq!(
        count_method(&vec![update(), result(), update()], "session/update"),
        2
    );
}

#[test]
fn ledger_lines_are_counted_exactly_or_by_mention() {
    let ledger = "effect-a\n  effect-a  \neffect-a-more\nother\n";
    assert_eq!(count_effect(ledger, "effect-a"), 2);
    assert_eq!(count_effect_mentions(ledger, "effect-a"), 3);
    assert_eq!(count_effect("", "effect-a"), 0);
}

#[test]
fn a_reaped_corpse_is_not_alive() {
    assert!(process_listed(b" S+\n"));
    assert!(!process_listed(b"Z+\n"));
    assert!(!process_listed(b" \n"));
    assert!(!process_listed(b""));
    // Bytes that are no UTF-8 still say that something is listed.
    assert!(process_listed(b"\xff\xfe"));
}

#[test]
fn the_device_configuration_quotes_its_paths() {
    let text = device_config_text("base", "svc", "/bin/a \"b\"", "/tmp/w\\x");
    assert_eq!(
        text,
        "base\n[exports.\"svc\"]\ntype = \"http-forward\"\n\n[exports.\"svc\".acp]\nprofile = \"acp-http-v1\"\n\n[exports.\"svc\".acp.agent]\ncommand = \"/bin/a \\\"b\\\"\"\nargs = [\"agent\"]\nworkspace = \"/tmp/w\\\\x\"\n"
    );
}

#[test]
fn documents_are_parsed_one_by_one() {
    let documents = parse_documents(b"{\"a\":1} [true] ");
    assert_eq!(documents.len(), 2);
    let first = documents[0].as_ref().expect("the first document");
    assert_eq!(first.get("a").and_then(|value| value.as_u64()), Some(1));
    assert!(parse_documents(b"").is_empty());
    let broken = parse_documents(b"{} nonsense");
    assert!(broken[0].is_some());
    assert!(broken[broken.len() - 1].is_none());
}

#[test]
fn one_document_is_all_or_nothing() {
    assert!(parse_document(b"{} {}").is_none());
    assert!(parse_document(b"").is_none());
    let value = json(r#"{"text":"t","number":18446744073709551615,"float":1.25,"nothing":null}"#);
    assert_eq!(value.text_of("text"), Some("t"));
    assert_eq!(
        value.get("number").and_then(|value| value.as_u64()),
        Some(u64::MAX)
    );
    assert_eq!(value.get("float").and_then(|value| value.as_u64()), None);
    assert!(value.get("nothing").expect("a member").is_null());
    assert!(value.get("absent").is_none());
}
