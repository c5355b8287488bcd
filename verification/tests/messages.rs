//! The messages that the cases send, and held streams, on concrete values.

use tunnel_test_harness::gate_steps::fresh_session_id;
use tunnel_test_harness::held_stream::SseReader;
use tunnel_test_harness::json::{parse_document, Json};
use tunnel_test_harness::rpc::{
    cancel_message, initialize_message, number_value, prompt_message, selection_message,
    session_new_message, text_value, write_json,
};

fn serde_text(text: &str) -> String {
    let value: serde_json::Value = serde_json::from_str(text).expect("a JSON document");
    serde_json::to_string(&value).expect("a document in print")
}

fn json(text: &str) -> Json {
    parse_document(text.as_bytes()).expect("a JSON document")
}

#[test]
fn messages_are_written_as_serde_json_writes_them() {
    assert_eq!(
        write_json(&initialize_message("init-1", "client")),
        serde_text(
            r#"{"jsonrpc":"2.0","id":"init-1","method":"initialize","params":{"protocolVersion":1,"clientCapabilities":{},"clientInfo":{"name":"client","version":"0.1.0"}}}"#
        )
    );
    assert_eq!(
        write_json(&session_new_message("new-1", "/tmp/w \"x\"")),
        serde_text(
            r#"{"jsonrpc":"2.0","id":"new-1","method":"session/new","params":{"cwd":"/tmp/w \"x\"","mcpServers":[]}}"#
        )
    );
    assert_eq!(
        write_json(&prompt_message("s-1", number_value(1), "line\nbreak")),
        serde_text(
            r#"{"jsonrpc":"2.0","id":1,"method":"session/prompt","params":{"sessionId":"s-1","prompt":[{"type":"text","text":"line\nbreak"}]}}"#
        )
    );
    assert_eq!(
        write_json(&cancel_message("s-1")),
        serde_text(r#"{"jsonrpc":"2.0","method":"session/cancel","params":{"sessionId":"s-1"}}"#)
    );
    assert_eq!(
        write_json(&selection_message(text_value("cb"), "allow")),
        serde_text(
            r#"{"jsonrpc":"2.0","id":"cb","result":{"outcome":{"outcome":"selected","optionId":"allow"}}}"#
        )
    );
}

#[test]
fn any_document_is_written_back_as_it_was_read() {
    for text in [
        "null",
        "[true,false,null]",
        r#"{"a":[1,-2,2.5],"b":{"c":"é\n"},"d":[]}"#,
        "{}",
    ] {
        assert_eq!(write_json(&json(text)), serde_text(text));
    }
}

#[test]
fn every_character_is_escaped_as_serde_json_escapes_it() {
    assert_eq!(
        write_json(&text_value("\"\\\u{8}\t\n\u{c}\r\u{0}\u{1f}\u{7f}é/")),
        "\"\\\"\\\\\\b\\t\\n\\f\\r\\u0000\\u001f\u{7f}é/\""
    );
    for code in 0..0x80_u8 {
        let text = char::from(code).to_string();
        let expected = serde_json::to_string(&text).expect("a literal");
        assert_eq!(write_json(&text_value(&text)), expected);
    }
}

#[test]
fn a_held_stream_sees_the_same_messages_however_it_is_cut() {
    let stream = b"data: {\"id\":1}\n\ndata: not json\n\ndata: {\"id\":2}\n\n";
    for size in 1..=stream.len() {
        let mut reader = SseReader::new();
        for piece in stream.chunks(size) {
            reader.accept(piece);
        }
        let ids: Vec<Option<u64>> = reader
            .seen()
            .iter()
            .map(|message| message.get("id").and_then(|id| id.as_u64()))
            .collect();
        assert_eq!(ids, vec![Some(1), Some(2)]);
    }
}

#[test]
fn a_known_session_is_not_opened_twice() {
    let result = json(r#"{"result":{"sessionId":"s-1"}}"#);
    assert_eq!(
        fresh_session_id(&result, &Vec::new()),
        Some("s-1".to_owned())
    );
    assert_eq!(fresh_session_id(&result, &vec!["s-1".to_owned()]), None);
    assert_eq!(fresh_session_id(&json("{}"), &Vec::new()), None);
}
