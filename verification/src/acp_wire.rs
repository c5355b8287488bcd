//! What the gates read off the wire: SSE payloads, JSON-RPC messages and
//! refusals.

use vstd::prelude::*;
use vstd::slice::*;
use vstd::string::*;
use vstd::utf8::*;

use crate::json::{json_document, parse_document, Json, JsonView};
use crate::peer_fault_table::{at, items_of};
use crate::std_text::{decode_lossy, json_literal, lossy_text, write_json_literal};
use crate::text::{
    begins_with, is_white, lemma_split_at_the_first, lemma_trimmed, lines, lines_of, occurs_at,
    occurs_in, same_text, split_on, split_text, text_contains, trim_text, trimmed, views,
};

verus! {

/// The bytes that open an SSE message: `data: `.
pub open spec fn sse_prefix() -> Seq<u8> {
    seq![0x64u8, 0x61u8, 0x74u8, 0x61u8, 0x3au8, 0x20u8]
}

/// The bytes that end an SSE message: an empty line.
pub open spec fn sse_end() -> Seq<u8> {
    seq![0x0au8, 0x0au8]
}

/// The first position from `from` on where `part` stands in `whole`.
pub open spec fn first_at(whole: Seq<u8>, part: Seq<u8>, from: int) -> Option<int>
    decreases whole.len() - from + 1,
{
    if from + part.len() > whole.len() {
        None
    } else if occurs_at(whole, part, from) {
        Some(from)
    } else {
        first_at(whole, part, from + 1)
    }
}

/// Where the message that begins `rest` ends: at an empty line, or else at the
/// first line feed.
pub open spec fn message_end(rest: Seq<u8>) -> Option<int> {
    match first_at(rest, sse_end(), 0) {
        Some(end) => Some(end),
        None => first_at(rest, seq![0x0au8], 0),
    }
}

/// What follows a message of this length and the two bytes behind it.
pub open spec fn after_message(rest: Seq<u8>, end: int) -> Seq<u8> {
    if 0 <= end && end + 2 <= rest.len() {
        rest.skip(end + 2)
    } else {
        Seq::empty()
    }
}

/// The payloads of an SSE byte buffer.
pub open spec fn payloads(bytes: Seq<u8>) -> Seq<Seq<u8>>
    decreases bytes.len(),
{
    if !begins_with(bytes, sse_prefix()) {
        Seq::empty()
    } else {
        let rest = bytes.skip(6);
        match message_end(rest) {
            None => Seq::empty(),
            Some(end) => seq![rest.take(end)] + payloads(after_message(rest, end)),
        }
    }
}

proof fn lemma_first_at(whole: Seq<u8>, part: Seq<u8>, from: int, at: int)
    requires
        0 <= from <= at,
        occurs_at(whole, part, at),
        forall|k: int| from <= k < at ==> !occurs_at(whole, part, k),
    ensures
        first_at(whole, part, from) == Some(at),
    decreases at - from,
{
    if from < at {
        lemma_first_at(whole, part, from + 1, at);
    }
}

proof fn lemma_none_at(whole: Seq<u8>, part: Seq<u8>, from: int)
    requires
        0 <= from,
        forall|k: int| from <= k ==> !occurs_at(whole, part, k),
    ensures
        first_at(whole, part, from) is None,
    decreases whole.len() - from + 1,
{
    if from + part.len() <= whole.len() {
        lemma_none_at(whole, part, from + 1);
    }
}

/// The lists of bytes of a list of payloads.
pub open spec fn payload_views(found: Seq<Vec<u8>>) -> Seq<Seq<u8>> {
    found.map_values(|payload: Vec<u8>| payload@)
}

fn line_feed_at(rest: &[u8], at: usize) -> (found: bool)
    requires
        at < rest.len(),
    ensures
        found == occurs_at(rest@, seq![0x0au8], at as int),
{
    let found = rest[at] == 0x0a;
    proof {
        if found {
            assert(rest@.subrange(at as int, at + 1) =~= seq![0x0au8]);
        } else {
            assert(rest@.subrange(at as int, at + 1)[0] == rest@[at as int]);
        }
    }
    found
}

fn empty_line_at(rest: &[u8], at: usize) -> (found: bool)
    requires
        at + 2 <= rest.len(),
    ensures
        found == occurs_at(rest@, sse_end(), at as int),
{
    let found = rest[at] == 0x0a && rest[at + 1] == 0x0a;
    proof {
        if found {
            assert(rest@.subrange(at as int, at + 2) =~= sse_end());
        } else {
            assert(rest@.subrange(at as int, at + 2)[0] == rest@[at as int]);
            assert(rest@.subrange(at as int, at + 2)[1] == rest@[at + 1]);
            assert(sse_end()[0] == 0x0a && sse_end()[1] == 0x0a);
        }
    }
    found
}

fn find_message_end(rest: &[u8]) -> (end: Option<usize>)
    ensures
        match end {
            Some(end) => message_end(rest@) == Some(end as int) && end < rest.len(),
            None => message_end(rest@) is None,
        },
{
    let mut i: usize = 0;
    while i < rest.len() && rest.len() - i >= 2
        invariant
            i <= rest.len(),
            first_at(rest@, sse_end(), 0) == first_at(rest@, sse_end(), i as int),
        decreases rest.len() - i,
    {
        if empty_line_at(rest, i) {
            return Some(i);
        }
        i += 1;
    }
    let mut k: usize = 0;
    while k < rest.len()
        invariant
            k <= rest.len(),
            first_at(rest@, sse_end(), 0) is None,
            first_at(rest@, seq![0x0au8], 0) == first_at(rest@, seq![0x0au8], k as int),
        decreases rest.len() - k,
    {
        if line_feed_at(rest, k) {
            return Some(k);
        }
        k += 1;
    }
    None
}

fn starts_message(bytes: &[u8]) -> (starts: bool)
    ensures
        starts == begins_with(bytes@, sse_prefix()),
{
    if bytes.len() < 6 {
        return false;
    }
    let starts = bytes[0] == 0x64 && bytes[1] == 0x61 && bytes[2] == 0x74 && bytes[3] == 0x61
        && bytes[4] == 0x3a && bytes[5] == 0x20;
    proof {
        let head = bytes@.take(6);
        if starts {
            assert(head =~= sse_prefix());
        } else {
            assert(head[0] == bytes@[0] && head[1] == bytes@[1] && head[2] == bytes@[2] && head[3]
                == bytes@[3] && head[4] == bytes@[4] && head[5] == bytes@[5]);
            let p = sse_prefix();
            assert(p[0] == 0x64 && p[1] == 0x61 && p[2] == 0x74 && p[3] == 0x61 && p[4] == 0x3a
                && p[5] == 0x20);
        }
    }
    starts
}

/// Splits an SSE byte buffer into its `data:` payloads.
pub fn sse_payloads(bytes: &[u8]) -> (found: Vec<Vec<u8>>)
    ensures
        payload_views(found@) == payloads(bytes@),
{
    let mut found: Vec<Vec<u8>> = Vec::new();
    let mut from: usize = 0;
    assert(bytes@.skip(0) =~= bytes@);
    assert(payload_views(found@) + payloads(bytes@) =~= payloads(bytes@));
    loop
        invariant
            from <= bytes.len(),
            payloads(bytes@) == payload_views(found@) + payloads(bytes@.skip(from as int)),
        decreases bytes.len() - from,
    {
        let here = slice_subrange(bytes, from, bytes.len());
        let ghost tail = bytes@.skip(from as int);
        assert(here@ =~= tail);
        if !starts_message(here) {
            assert(payload_views(found@) + Seq::<Seq<u8>>::empty() =~= payload_views(found@));
            return found;
        }
        let rest = slice_subrange(here, 6, here.len());
        assert(rest@ =~= tail.skip(6));
        match find_message_end(rest) {
            None => {
                assert(payload_views(found@) + Seq::<Seq<u8>>::empty() =~= payload_views(found@));
                return found;
            },
            Some(end) => {
                let ghost before = found@;
                let payload = slice_to_vec(slice_subrange(rest, 0, end));
                assert(payload@ =~= rest@.take(end as int));
                found.push(payload);
                let next: usize = if rest.len() - end >= 2 {
                    from + 6 + end + 2
                } else {
                    bytes.len()
                };
                proof {
                    assert(bytes@.skip(next as int) =~= after_message(rest@, end as int));
                    assert(payload_views(found@) =~= payload_views(before).push(payload@));
                    assert(payload_views(before) + (seq![payload@] + payloads(
                        bytes@.skip(next as int),
                    )) =~= payload_views(found@) + payloads(bytes@.skip(next as int)));
                }
                from = next;
            },
        }
    }
}

/// A payload as an SSE message.
pub open spec fn sse_message(payload: Seq<u8>) -> Seq<u8> {
    sse_prefix() + payload + sse_end()
}

/// Payloads as SSE messages, one after the other.
pub open spec fn sse_stream(list: Seq<Seq<u8>>) -> Seq<u8>
    decreases list.len(),
{
    if list.len() == 0 {
        Seq::empty()
    } else {
        sse_message(list[0]) + sse_stream(list.drop_first())
    }
}

/// No payload holds a line feed.
pub open spec fn are_lines(list: Seq<Seq<u8>>) -> bool {
    forall|i: int| 0 <= i < list.len() ==> !(#[trigger] list[i]).contains(0x0au8)
}

/// Reading any prefix of a stream of messages gives the payloads of its first
/// messages, and reading the whole stream gives all of them: what was read
/// never changes as more bytes arrive.
pub proof fn lemma_stream_reads_back(list: Seq<Seq<u8>>, received: int)
    requires
        are_lines(list),
        0 <= received <= sse_stream(list).len(),
    ensures
        exists|k: int|
            0 <= k <= list.len() && #[trigger] list.take(k) == payloads(
                sse_stream(list).take(received),
            ),
        received == sse_stream(list).len() ==> payloads(sse_stream(list).take(received)) == list,
    decreases list.len(),
{
    let stream = sse_stream(list);
    let bytes = stream.take(received);
    if list.len() == 0 {
        assert(bytes.len() == 0);
        assert(payloads(bytes) =~= list.take(0));
        assert(list.take(0) =~= list);
    } else {
        let payload = list[0];
        let rest_list = list.drop_first();
        let message = sse_message(payload);
        let tail = sse_stream(rest_list);
        assert(stream == message + tail);
        assert(message.len() == 6 + payload.len() + 2);
        assert(are_lines(rest_list)) by {
            assert forall|i: int| 0 <= i < rest_list.len() implies !(
            #[trigger] rest_list[i]).contains(0x0au8) by {
                assert(rest_list[i] == list[i + 1]);
            }
        }
        assert(!list[0].contains(0x0au8));
        if received < 6 {
            assert(payloads(bytes) =~= list.take(0));
        } else {
            let rest = bytes.skip(6);
            assert(bytes.take(6) =~= sse_prefix());
            assert(begins_with(bytes, sse_prefix()));
            // Inside the payload there is no line feed.
            assert forall|k: int| 0 <= k < payload.len() && k < rest.len() implies rest[k]
                != 0x0au8 by {
                assert(rest[k] == message[6 + k]);
                assert(message[6 + k] == payload[k]);
                assert(payload.contains(payload[k]));
            }
            if received <= 6 + payload.len() {
                assert forall|k: int| 0 <= k implies !occurs_at(rest, sse_end(), k) by {
                    if occurs_at(rest, sse_end(), k) {
                        assert(rest.subrange(k, k + 2)[0] == rest[k]);
                        assert(sse_end()[0] == 0x0au8);
                    }
                }
                lemma_none_at(rest, sse_end(), 0);
                assert forall|k: int| 0 <= k implies !occurs_at(rest, seq![0x0au8], k) by {
                    if occurs_at(rest, seq![0x0au8], k) {
                        assert(rest.subrange(k, k + 1)[0] == rest[k]);
                    }
                }
                lemma_none_at(rest, seq![0x0au8], 0);
                assert(payloads(bytes) =~= list.take(0));
            } else if received == 6 + payload.len() + 1 {
                let n = payload.len() as int;
                assert(rest.len() == n + 1);
                assert(rest[n] == message[6 + n]);
                assert(message[6 + n] == 0x0au8);
                assert forall|k: int| 0 <= k implies !occurs_at(rest, sse_end(), k) by {
                    if occurs_at(rest, sse_end(), k) {
                        assert(rest.subrange(k, k + 2)[0] == rest[k]);
                        assert(sse_end()[0] == 0x0au8);
                    }
                }
                lemma_none_at(rest, sse_end(), 0);
                assert(rest.subrange(n, n + 1) =~= seq![0x0au8]);
                assert forall|k: int| 0 <= k < n implies !occurs_at(rest, seq![0x0au8], k) by {
                    if occurs_at(rest, seq![0x0au8], k) {
                        assert(rest.subrange(k, k + 1)[0] == rest[k]);
                    }
                }
                lemma_first_at(rest, seq![0x0au8], 0, n);
                assert(message_end(rest) == Some(n));
                assert(rest.take(n) =~= payload) by {
                    assert forall|k: int| 0 <= k < n implies rest.take(n)[k] == payload[k] by {
                        assert(rest[k] == message[6 + k]);
                    }
                }
                assert(payloads(Seq::<u8>::empty()) =~= Seq::<Seq<u8>>::empty());
                assert(payloads(bytes) =~= seq![payload]);
                assert(list.take(1) =~= seq![payload]);
            } else {
                let n = payload.len() as int;
                assert(rest[n] == message[6 + n] && rest[n + 1] == message[7 + n]);
                assert(message[6 + n] == 0x0au8 && message[7 + n] == 0x0au8);
                assert(rest.subrange(n, n + 2) =~= sse_end());
                assert forall|k: int| 0 <= k < n implies !occurs_at(rest, sse_end(), k) by {
                    if occurs_at(rest, sse_end(), k) {
                        assert(rest.subrange(k, k + 2)[0] == rest[k]);
                        assert(sse_end()[0] == 0x0au8);
                    }
                }
                lemma_first_at(rest, sse_end(), 0, n);
                assert(message_end(rest) == Some(n));
                assert(rest.take(n) =~= payload) by {
                    assert forall|k: int| 0 <= k < n implies rest.take(n)[k] == payload[k] by {
                        assert(rest[k] == message[6 + k]);
                    }
                }
                let later = received - message.len();
                assert(after_message(rest, n) =~= tail.take(later)) by {
                    assert(rest.skip(n + 2).len() == later);
                    assert forall|k: int| 0 <= k < later implies rest.skip(n + 2)[k]
                        == tail.take(later)[k] by {
                        assert(stream[message.len() + k] == tail[k]);
                    }
                }
                lemma_stream_reads_back(rest_list, later);
                let j = choose|j: int|
                    0 <= j <= rest_list.len() && #[trigger] rest_list.take(j) == payloads(
                        tail.take(later),
                    );
                assert(payloads(bytes) == seq![payload] + rest_list.take(j));
                assert(list.take(j + 1) =~= seq![payload] + rest_list.take(j));
                if received == stream.len() {
                    assert(payloads(bytes) =~= list);
                }
            }
        }
    }
}

/// The text under `outer` and, in that, `inner`.
pub open spec fn text_under(value: JsonView, outer: Seq<char>, inner: Seq<char>) -> Option<
    Seq<char>,
> {
    match value.get(outer) {
        Some(object) => object.text_of(inner),
        None => None,
    }
}

/// The text under `outer` and, in that, `inner`.
pub fn find_under(value: &Json, outer: &str, inner: &str) -> (text: Option<String>)
    ensures
        match text {
            Some(text) => text_under(value@, outer@, inner@) == Some(text@),
            None => text_under(value@, outer@, inner@) is None,
        },
{
    match value.get(outer) {
        Some(object) => match object.text_of(inner) {
            Some(text) => Some(text.to_owned()),
            None => None,
        },
        None => None,
    }
}

/// The stop reason of a turn's result.
pub fn stop_reason(value: &Json) -> (reason: Option<String>)
    ensures
        match reason {
            Some(reason) => text_under(value@, "result"@, "stopReason"@) == Some(reason@),
            None => text_under(value@, "result"@, "stopReason"@) is None,
        },
{
    find_under(value, "result", "stopReason")
}

/// The session identifier of a `session/new` result.
pub fn session_id(value: &Json) -> (session: Option<String>)
    ensures
        match session {
            Some(session) => text_under(value@, "result"@, "sessionId"@) == Some(session@),
            None => text_under(value@, "result"@, "sessionId"@) is None,
        },
{
    find_under(value, "result", "sessionId")
}

/// The stop reason of the result for one request.
///
/// A held stream keeps every message it has seen, so a reading that took any
/// message with a stop reason would take another turn's.
pub open spec fn stop_for(value: JsonView, request_id: Seq<char>) -> Option<Seq<char>> {
    if value.text_of("id"@) == Some(request_id) {
        text_under(value, "result"@, "stopReason"@)
    } else {
        None
    }
}

/// The stop reason of the result for one request.
pub fn stop_reason_for(value: &Json, request_id: &str) -> (reason: Option<String>)
    ensures
        match reason {
            Some(reason) => stop_for(value@, request_id@) == Some(reason@),
            None => stop_for(value@, request_id@) is None,
        },
{
    match value.text_of("id") {
        Some(id) => {
            if same_text(id, request_id) {
                stop_reason(value)
            } else {
                None
            }
        },
        None => None,
    }
}

/// The JSON-RPC method of a message, if it has one.
pub fn method_of(value: &Json) -> (method: Option<&str>)
    ensures
        match method {
            Some(method) => value@.text_of("method"@) == Some(method@),
            None => value@.text_of("method"@) is None,
        },
{
    value.text_of("method")
}

/// The JSON-RPC id of a message, in print: a string and a number of the same
/// digits are different ids.
pub open spec fn typed_id_of(value: JsonView) -> Option<Seq<char>> {
    match value.get("id"@) {
        Some(JsonView::Text(text)) => Some("s:"@ + text),
        Some(JsonView::Number(_, text)) => Some("n:"@ + text),
        _ => None,
    }
}

/// The JSON-RPC id of a message, in print.
pub fn typed_id(value: &Json) -> (id: Option<String>)
    ensures
        match id {
            Some(id) => typed_id_of(value@) == Some(id@),
            None => typed_id_of(value@) is None,
        },
{
    match value.get("id") {
        Some(Json::Text(text)) => Some("s:".to_owned().concat(text.as_str())),
        Some(Json::Number(number)) => Some("n:".to_owned().concat(number.text.as_str())),
        _ => None,
    }
}

/// A string id never prints as a number id, and equal prints of one type are
/// equal ids.
pub proof fn lemma_typed_ids_differ(a: Seq<char>, b: Seq<char>)
    ensures
        "s:"@ + a != "n:"@ + b,
        "s:"@ + a == "s:"@ + b ==> a == b,
        "n:"@ + a == "n:"@ + b ==> a == b,
{
    reveal_strlit("s:");
    reveal_strlit("n:");
    assert(("s:"@ + a)[0] == 's');
    assert(("n:"@ + b)[0] == 'n');
    assert(("s:"@ + a).skip(2) =~= a);
    assert(("s:"@ + b).skip(2) =~= b);
    assert(("n:"@ + a).skip(2) =~= a);
    assert(("n:"@ + b).skip(2) =~= b);
}

/// The lifecycle rule that a refusal's document names: what stands before the
/// first colon of `error.message`, without the white space around it.
pub open spec fn rule_of(document: Option<JsonView>) -> Seq<char> {
    match document {
        Some(value) => match text_under(value, "error"@, "message"@) {
            Some(message) => trimmed(split_on(message, ':')[0]),
            None => Seq::empty(),
        },
        None => Seq::empty(),
    }
}

/// The lifecycle rule that a parsed refusal names.
pub fn named_rule(document: &Option<Json>) -> (rule: String)
    ensures
        rule@ == rule_of(
            match *document {
                Some(json) => Some(json@),
                None => None,
            },
        ),
{
    match document {
        Some(value) => match find_under(value, "error", "message") {
            Some(message) => {
                let pieces = split_text(message.as_str(), ':');
                assert(views(pieces@)[0] == pieces@[0]@);
                trim_text(pieces[0].as_str())
            },
            None => String::new(),
        },
        None => String::new(),
    }
}

/// The lifecycle rule that a refusal named, read from the response body.
///
/// An answer that was accepted, or one carrying no rule, yields an empty text
/// rather than a guess.
pub fn refusal_rule(status: u16, body: &str) -> (rule: String)
    ensures
        rule@ == if status == 202 {
            Seq::<char>::empty()
        } else {
            rule_of(json_document(encode_utf8(body@)))
        },
{
    if status == 202 {
        return String::new();
    }
    let document = parse_document(body.as_bytes());
    named_rule(&document)
}

/// The texts of the option identifiers among the items, in order.
pub open spec fn option_ids(options: Seq<JsonView>) -> Seq<Seq<char>>
    decreases options.len(),
{
    if options.len() == 0 {
        Seq::empty()
    } else {
        match options.last().text_of("optionId"@) {
            Some(id) => option_ids(options.drop_last()).push(id),
            None => option_ids(options.drop_last()),
        }
    }
}

/// The options that a permission callback offers.
pub open spec fn offered(callback: JsonView) -> Seq<Seq<char>> {
    option_ids(items_of(at(at(callback, "params"@), "options"@)))
}

/// The option identifiers that a permission callback offers.
pub fn offered_options(callback: &Json) -> (options: Vec<String>)
    ensures
        views(options@) == offered(callback@),
{
    let mut options: Vec<String> = Vec::new();
    let ghost all = items_of(at(at(callback@, "params"@), "options"@));
    match callback.get("params") {
        Some(params) => match params.get("options") {
            Some(Json::Array(items)) => {
                let mut i: usize = 0;
                assert(all.take(0) =~= Seq::<JsonView>::empty());
                assert(views(options@) =~= option_ids(all.take(0)));
                while i < items.len()
                    invariant
                        i <= items.len(),
                        items.len() == all.len(),
                        forall|k: int| 0 <= k < items.len() ==> (#[trigger] items@[k])@ == all[k],
                        views(options@) == option_ids(all.take(i as int)),
                    decreases items.len() - i,
                {
                    let ghost before = options@;
                    assert(items@[i as int]@ == all[i as int]);
                    assert(all.take(i + 1).drop_last() =~= all.take(i as int));
                    match items[i].text_of("optionId") {
                        Some(id) => {
                            options.push(id.to_owned());
                            assert(views(options@) =~= views(before).push(id@));
                        },
                        None => {},
                    }
                    i += 1;
                }
                assert(all.take(i as int) =~= all);
                return options;
            },
            _ => {},
        },
        None => {},
    }
    assert(all =~= Seq::<JsonView>::empty());
    assert(views(options@) =~= option_ids(all));
    options
}

/// The models of the messages that a stream carried.
pub open spec fn message_views(seen: Seq<Json>) -> Seq<JsonView> {
    seen.map_values(|message: Json| message@)
}

/// The position of the first message with a stop reason, from `from` on.
pub open spec fn first_result(seen: Seq<JsonView>, from: int) -> Option<int>
    decreases seen.len() - from,
{
    if from >= seen.len() {
        None
    } else if text_under(seen[from], "result"@, "stopReason"@) is Some {
        Some(from)
    } else {
        first_result(seen, from + 1)
    }
}

/// A `session/update` stands among the messages from `from` on and before the
/// first result.
pub open spec fn update_before_result(seen: Seq<JsonView>, from: int) -> bool {
    match first_result(seen, 0) {
        Some(result) => exists|i: int|
            from <= i < result && (#[trigger] seen[i]).text_of("method"@) == Some(
                "session/update"@,
            ),
        None => false,
    }
}

/// Whether an update arrived after the first `seen_before` messages and before
/// the turn's result.  Messages are kept in the order of arrival.
pub fn update_after_cancel(seen: &Vec<Json>, seen_before: usize) -> (found: bool)
    ensures
        found == update_before_result(message_views(seen@), seen_before as int),
{
    let ghost all = message_views(seen@);
    let mut result: usize = 0;
    while result < seen.len() && stop_reason(&seen[result]).is_none()
        invariant
            result <= seen.len(),
            all == message_views(seen@),
            first_result(all, 0) == first_result(all, result as int),
        decreases seen.len() - result,
    {
        assert(all[result as int] == seen@[result as int]@);
        result += 1;
    }
    if result == seen.len() {
        return false;
    }
    assert(all[result as int] == seen@[result as int]@);
    let mut i: usize = seen_before;
    while i < result
        invariant
            seen_before <= i,
            result < seen.len(),
            all == message_views(seen@),
            first_result(all, 0) == Some(result as int),
            forall|k: int|
                seen_before <= k < i ==> (#[trigger] all[k]).text_of("method"@) != Some(
                    "session/update"@,
                ),
        decreases result - i,
    {
        assert(all[i as int] == seen@[i as int]@);
        match method_of(&seen[i]) {
            Some(method) => {
                if same_text(method, "session/update") {
                    return true;
                }
            },
            None => {},
        }
        i += 1;
    }
    false
}

/// How many messages have this method.
pub open spec fn with_method(seen: Seq<JsonView>, method: Seq<char>) -> nat
    decreases seen.len(),
{
    if seen.len() == 0 {
        0
    } else {
        with_method(seen.drop_last(), method) + if seen.last().text_of("method"@) == Some(method) {
            1nat
        } else {
            0
        }
    }
}

/// How many messages have this method.
pub fn count_method(seen: &Vec<Json>, method: &str) -> (count: usize)
    ensures
        count == with_method(message_views(seen@), method@),
        count <= seen.len(),
{
    let ghost all = message_views(seen@);
    let mut count: usize = 0;
    let mut i: usize = 0;
    assert(all.take(0) =~= Seq::<JsonView>::empty());
    while i < seen.len()
        invariant
            i <= seen.len(),
            count <= i,
            all == message_views(seen@),
            count == with_method(all.take(i as int), method@),
        decreases seen.len() - i,
    {
        assert(all[i as int] == seen@[i as int]@);
        assert(all.take(i + 1).drop_last() =~= all.take(i as int));
        match method_of(&seen[i]) {
            Some(found) => {
                if same_text(found, method) {
                    count += 1;
                }
            },
            None => {},
        }
        i += 1;
    }
    assert(all.take(i as int) =~= all);
    count
}

/// Some message is the result for this request.
pub open spec fn has_result_for(seen: Seq<JsonView>, request_id: Seq<char>) -> bool {
    exists|i: int| 0 <= i < seen.len() && stop_for(#[trigger] seen[i], request_id) is Some
}

/// Whether a turn never acquired a stop reason on this stream.
pub fn no_stop_reason_for(seen: &Vec<Json>, request_id: &str) -> (none: bool)
    ensures
        none == !has_result_for(message_views(seen@), request_id@),
{
    let ghost all = message_views(seen@);
    let mut i: usize = 0;
    while i < seen.len()
        invariant
            i <= seen.len(),
            all == message_views(seen@),
            forall|k: int| 0 <= k < i ==> stop_for(#[trigger] all[k], request_id@) is None,
        decreases seen.len() - i,
    {
        assert(all[i as int] == seen@[i as int]@);
        if stop_reason_for(&seen[i], request_id).is_some() {
            return false;
        }
        i += 1;
    }
    true
}

/// How many lines of a ledger satisfy the reading of an effect.
pub open spec fn lines_naming(ledger: Seq<Seq<char>>, effect: Seq<char>, exactly: bool) -> nat
    decreases ledger.len(),
{
    if ledger.len() == 0 {
        0
    } else {
        let here = if exactly {
            trimmed(ledger.last()) == effect
        } else {
            occurs_in(ledger.last(), effect)
        };
        lines_naming(ledger.drop_last(), effect, exactly) + if here {
            1nat
        } else {
            0
        }
    }
}

fn count_lines(text: &str, effect: &str, exactly: bool) -> (count: u64)
    ensures
        count == lines_naming(lines(text@), effect@, exactly),
{
    let found = lines_of(text);
    let ghost all = lines(text@);
    let mut count: usize = 0;
    let mut i: usize = 0;
    assert(all.take(0) =~= Seq::<Seq<char>>::empty());
    while i < found.len()
        invariant
            i <= found.len(),
            count <= i,
            views(found@) == all,
            count == lines_naming(all.take(i as int), effect@, exactly),
        decreases found.len() - i,
    {
        assert(all[i as int] == found@[i as int]@) by {
            assert(views(found@)[i as int] == found@[i as int]@);
        }
        assert(all.take(i + 1).drop_last() =~= all.take(i as int));
        let here = if exactly {
            let line = trim_text(found[i].as_str());
            same_text(line.as_str(), effect)
        } else {
            text_contains(found[i].as_str(), effect)
        };
        if here {
            count += 1;
        }
        i += 1;
    }
    assert(all.take(i as int) =~= all);
    count as u64
}

/// How many lines of the agent's ledger are exactly this effect.
pub fn count_effect(ledger: &str, effect: &str) -> (count: u64)
    ensures
        count == lines_naming(lines(ledger@), effect@, true),
{
    count_lines(ledger, effect, true)
}

/// How many lines of the agent's ledger name this effect.
pub fn count_effect_mentions(ledger: &str, effect: &str) -> (count: u64)
    ensures
        count == lines_naming(lines(ledger@), effect@, false),
{
    count_lines(ledger, effect, false)
}

/// A process state: not empty, and not that of a reaped corpse.
pub open spec fn is_live_state(output: Seq<char>) -> bool {
    let state = trimmed(output);
    state.len() > 0 && state[0] != 'Z'
}

/// Whether the process table's answer for a process says that it is alive.
pub fn process_listed(stdout: &[u8]) -> (alive: bool)
    ensures
        alive == is_live_state(lossy_text(stdout@)),
{
    let output = decode_lossy(stdout);
    let state = trim_text(output.as_str());
    !state.as_str().is_empty() && state.as_str().get_char(0) != 'Z'
}

/// The device runtime configuration: the harness device profile and one ACP
/// export.
pub open spec fn device_config(
    base: Seq<char>,
    service: Seq<char>,
    fixture: Seq<char>,
    workspace: Seq<char>,
) -> Seq<char> {
    base + "\n[exports.\""@ + service + "\"]\ntype = \"http-forward\"\n\n[exports.\""@ + service
        + "\".acp]\nprofile = \"acp-http-v1\"\n\n[exports.\""@ + service
        + "\".acp.agent]\ncommand = "@ + json_literal(fixture)
        + "\nargs = [\"agent\"]\nworkspace = "@ + json_literal(workspace) + "\n"@
}

/// The device runtime configuration.
pub fn device_config_text(base: &str, service: &str, fixture: &str, workspace: &str) -> (text:
    String)
    ensures
        text@ == device_config(base@, service@, fixture@, workspace@),
{
    let command = write_json_literal(fixture);
    let directory = write_json_literal(workspace);
    base.to_owned().concat("\n[exports.\"").concat(service).concat(
        "\"]\ntype = \"http-forward\"\n\n[exports.\"",
    ).concat(service).concat("\".acp]\nprofile = \"acp-http-v1\"\n\n[exports.\"").concat(
        service,
    ).concat("\".acp.agent]\ncommand = ").concat(command.as_str()).concat(
        "\nargs = [\"agent\"]\nworkspace = ",
    ).concat(directory.as_str()).concat("\n")
}

/// The messages of a method add up, and one counts exactly when its `method` is
/// that text.
pub proof fn lemma_methods_add_up(first: Seq<JsonView>, second: Seq<JsonView>, one: JsonView, method: Seq<char>)
    ensures
        with_method(first + second, method) == with_method(first, method) + with_method(second, method),
        with_method(seq![one], method) == if one.get("method"@) == Some(JsonView::Text(method)) {
            1nat
        } else {
            0
        },
    decreases second.len(),
{
    reveal_with_fuel(with_method, 2);
    assert(seq![one].drop_last() =~= Seq::empty());
    if second.len() == 0 {
        assert(first + second =~= first);
    } else {
        assert((first + second).drop_last() =~= first + second.drop_last());
        lemma_methods_add_up(first, second.drop_last(), one, method);
    }
}

/// The lines of a ledger that name an effect add up, and one line counts where
/// it is the effect without the white space around it, or where it holds it.
pub proof fn lemma_effects_add_up(first: Seq<Seq<char>>, second: Seq<Seq<char>>, one: Seq<char>, effect: Seq<char>, exactly: bool)
    ensures
        lines_naming(first + second, effect, exactly) == lines_naming(first, effect, exactly) + lines_naming(second, effect, exactly),
        lines_naming(seq![one], effect, exactly) == if (exactly && trimmed(one) == effect) || (!exactly && exists|at: int|
            #[trigger] occurs_at(one, effect, at)) {
            1nat
        } else {
            0
        },
    decreases second.len(),
{
    reveal_with_fuel(lines_naming, 2);
    assert(seq![one].drop_last() =~= Seq::empty());
    if second.len() == 0 {
        assert(first + second =~= first);
    } else {
        assert((first + second).drop_last() =~= first + second.drop_last());
        lemma_effects_add_up(first, second.drop_last(), one, effect, exactly);
    }
}

/// The offered options are the identifiers of the items that have one, each
/// where it stands: those of two lists in a row are those of each.
pub proof fn lemma_options_add_up(first: Seq<JsonView>, second: Seq<JsonView>, one: JsonView)
    ensures
        option_ids(first + second) == option_ids(first) + option_ids(second),
        one.get("optionId"@) matches Some(JsonView::Text(id)) ==> option_ids(seq![one]) == seq![id],
        one.text_of("optionId"@) is None ==> option_ids(seq![one]).len() == 0,
    decreases second.len(),
{
    reveal_with_fuel(option_ids, 2);
    assert(seq![one].drop_last() =~= Seq::empty());
    if second.len() == 0 {
        assert(first + second =~= first);
        assert(option_ids(first) + option_ids(second) =~= option_ids(first));
    } else {
        assert((first + second).drop_last() =~= first + second.drop_last());
        lemma_options_add_up(first, second.drop_last(), one);
        assert(option_ids(first + second) =~= option_ids(first) + option_ids(second));
    }
    if one.text_of("optionId"@) is Some {
        assert(option_ids(seq![one]) =~= seq![one.text_of("optionId"@)->Some_0]);
    }
}

/// A callback offers what stands under its `params` and `options`, and nothing
/// where no array does.
pub proof fn lemma_offered(callback: JsonView)
    ensures
        callback.get("params"@) matches Some(params) ==> (params.get("options"@) matches Some(
            JsonView::Array(items),
        ) ==> offered(callback) == option_ids(items)),
        callback.get("params"@) is None ==> offered(callback).len() == 0,
{
}

/// The first result is a message with a stop reason, and none before it has
/// one.
pub proof fn lemma_first_result(seen: Seq<JsonView>, from: int)
    requires
        0 <= from <= seen.len(),
    ensures
        match first_result(seen, from) {
            Some(i) => from <= i < seen.len() && text_under(seen[i], "result"@, "stopReason"@) is Some
                && forall|k: int|
                from <= k < i ==> text_under(
                    #[trigger] seen[k],
                    "result"@,
                    "stopReason"@,
                ) is None,
            None => forall|k: int|
                from <= k < seen.len() ==> text_under(
                    #[trigger] seen[k],
                    "result"@,
                    "stopReason"@,
                ) is None,
        },
    decreases seen.len() - from,
{
    if from < seen.len() {
        lemma_first_result(seen, from + 1);
    }
}

/// An update counts as one before the result exactly when it came at or after
/// the given position, some later message has a stop reason, and no message up
/// to the update has one.
pub proof fn lemma_update_before_result(seen: Seq<JsonView>, from: int)
    requires
        0 <= from,
    ensures
        update_before_result(seen, from) <==> exists|i: int, r: int|
            #![trigger seen[i], seen[r]]
            {
                &&& from <= i < r < seen.len()
                &&& seen[i].get("method"@) == Some(JsonView::Text("session/update"@))
                &&& text_under(seen[r], "result"@, "stopReason"@) is Some
                &&& forall|k: int|
                    0 <= k < r ==> text_under(
                        #[trigger] seen[k],
                        "result"@,
                        "stopReason"@,
                    ) is None
            },
{
    lemma_first_result(seen, 0);
    if update_before_result(seen, from) {
        let r = first_result(seen, 0)->Some_0;
        let i = choose|i: int|
            from <= i < r && (#[trigger] seen[i]).text_of("method"@) == Some("session/update"@);
        let update = seen[i];
        let result = seen[r];
        assert(update.get("method"@) == Some(JsonView::Text("session/update"@)));
    }
    if exists|i: int, r: int|
        #![trigger seen[i], seen[r]]
        {
            &&& from <= i < r < seen.len()
            &&& seen[i].get("method"@) == Some(JsonView::Text("session/update"@))
            &&& text_under(seen[r], "result"@, "stopReason"@) is Some
            &&& forall|k: int|
                0 <= k < r ==> text_under(#[trigger] seen[k], "result"@, "stopReason"@) is None
        } {
        let (i, r) = choose|i: int, r: int|
            #![trigger seen[i], seen[r]]
            {
                &&& from <= i < r < seen.len()
                &&& seen[i].get("method"@) == Some(JsonView::Text("session/update"@))
                &&& text_under(seen[r], "result"@, "stopReason"@) is Some
                &&& forall|k: int|
                    0 <= k < r ==> text_under(
                        #[trigger] seen[k],
                        "result"@,
                        "stopReason"@,
                    ) is None
            };
        let found = first_result(seen, 0)->Some_0;
        assert(found == r) by {
            if found < r {
                assert(text_under(seen[found], "result"@, "stopReason"@) is None);
            }
        }
        assert(seen[i].text_of("method"@) == Some("session/update"@));
    }
}

/// A stop reason is a request's own: it is read from a message with the
/// request's id as its text and with a text under `result` and `stopReason`, and
/// from no other.
pub proof fn lemma_stop_reason_is_the_requests(
    value: JsonView,
    request: Seq<char>,
    reason: Seq<char>,
)
    ensures
        stop_for(value, request) == Some(reason) <==> {
            &&& value.get("id"@) == Some(JsonView::Text(request))
            &&& value.get("result"@) matches Some(result) && result.get("stopReason"@) == Some(
                JsonView::Text(reason),
            )
        },
{
}

/// Two messages have the same id in print exactly when both ids are texts, or
/// both numbers, of the same characters.
pub proof fn lemma_typed_ids(a: JsonView, b: JsonView)
    ensures
        typed_id_of(a) is Some <==> (a.get("id"@) matches Some(JsonView::Text(_))) || (a.get(
            "id"@,
        ) matches Some(JsonView::Number(_, _))),
        a.get("id"@) matches Some(JsonView::Text(x)) ==> (b.get("id"@) matches Some(
            JsonView::Text(y),
        ) ==> (typed_id_of(a) == typed_id_of(b) <==> x == y)),
        a.get("id"@) matches Some(JsonView::Number(_, x)) ==> (b.get("id"@) matches Some(
            JsonView::Number(_, y),
        ) ==> (typed_id_of(a) == typed_id_of(b) <==> x == y)),
        a.get("id"@) matches Some(JsonView::Text(_)) ==> (b.get("id"@) matches Some(
            JsonView::Number(_, _),
        ) ==> typed_id_of(a) != typed_id_of(b)),
{
    let x = match a.get("id"@) {
        Some(JsonView::Text(text)) => text,
        Some(JsonView::Number(_, text)) => text,
        _ => Seq::empty(),
    };
    let y = match b.get("id"@) {
        Some(JsonView::Text(text)) => text,
        Some(JsonView::Number(_, text)) => text,
        _ => Seq::empty(),
    };
    lemma_typed_ids_differ(x, y);
}


/// The rule that a refusal names is what its message says before the first
/// colon, whatever white space stands around it and whatever follows; and a
/// message without a colon names itself.
pub proof fn lemma_rule_before_the_colon(
    value: JsonView,
    left: Seq<char>,
    rule: Seq<char>,
    right: Seq<char>,
    rest: Seq<char>,
)
    requires
        !(left + rule + right).contains(':'),
        forall|i: int| 0 <= i < left.len() ==> is_white(#[trigger] left[i]),
        forall|i: int| 0 <= i < right.len() ==> is_white(#[trigger] right[i]),
        rule.len() > 0 ==> !is_white(rule[0]) && !is_white(rule.last()),
    ensures
        text_under(value, "error"@, "message"@) == Some(left + rule + right + seq![':'] + rest)
            ==> rule_of(Some(value)) == rule,
        text_under(value, "error"@, "message"@) == Some(left + rule + right) ==> rule_of(
            Some(value),
        ) == rule,
        text_under(value, "error"@, "message"@) is None ==> rule_of(Some(value)).len() == 0,
        rule_of(None).len() == 0,
{
    lemma_split_at_the_first(left + rule + right, rest, ':');
    lemma_trimmed(rule, left, rule, right);
}

/// A process is alive exactly when its state, without the white space around
/// it, says anything but that it is a corpse.
pub proof fn lemma_live_state(left: Seq<char>, state: Seq<char>, right: Seq<char>)
    requires
        forall|i: int| 0 <= i < left.len() ==> is_white(#[trigger] left[i]),
        forall|i: int| 0 <= i < right.len() ==> is_white(#[trigger] right[i]),
        state.len() > 0 ==> !is_white(state[0]) && !is_white(state.last()),
    ensures
        is_live_state(left + state + right) <==> state.len() > 0 && state[0] != 'Z',
{
    lemma_trimmed(state, left, state, right);
}


/// What does not open as a message gives no payload, a message that has not
/// ended gives none yet, and a single line feed at the end of what was received
/// ends one too.
pub proof fn lemma_partial_messages(bytes: Seq<u8>, payload: Seq<u8>)
    requires
        !payload.contains(0x0au8),
    ensures
        !begins_with(bytes, sse_prefix()) ==> payloads(bytes).len() == 0,
        payloads(sse_prefix() + payload).len() == 0,
        payloads(sse_prefix() + payload + seq![0x0au8]) == seq![payload],
{
    let open = sse_prefix() + payload;
    let ended = open.push(0x0au8);
    assert(open.skip(6) =~= payload);
    assert(ended.skip(6) =~= payload.push(0x0au8));
    assert(open.take(6) =~= sse_prefix());
    assert(ended.take(6) =~= sse_prefix());
    assert(sse_prefix() + payload + seq![0x0au8] =~= ended);
    let feed = seq![0x0au8];
    assert forall|k: int| 0 <= k implies !occurs_at(payload, sse_end(), k) by {
        if occurs_at(payload, sse_end(), k) {
            assert(payload.subrange(k, k + 2)[0] == payload[k]);
            assert(payload.contains(payload[k]));
        }
    }
    assert forall|k: int| 0 <= k implies !occurs_at(payload, feed, k) by {
        if occurs_at(payload, feed, k) {
            assert(payload.subrange(k, k + 1)[0] == payload[k]);
            assert(payload.contains(payload[k]));
        }
    }
    lemma_none_at(payload, sse_end(), 0);
    lemma_none_at(payload, feed, 0);
    assert(message_end(payload) is None);
    let rest = payload.push(0x0au8);
    assert forall|k: int| 0 <= k implies !occurs_at(rest, sse_end(), k) by {
        if occurs_at(rest, sse_end(), k) {
            assert(rest.subrange(k, k + 2)[0] == rest[k]);
            assert(rest[k] == payload[k]);
            assert(payload.contains(payload[k]));
        }
    }
    lemma_none_at(rest, sse_end(), 0);
    assert forall|k: int| 0 <= k < payload.len() implies !occurs_at(rest, feed, k) by {
        if occurs_at(rest, feed, k) {
            assert(rest.subrange(k, k + 1)[0] == rest[k]);
            assert(rest[k] == payload[k]);
            assert(payload.contains(payload[k]));
        }
    }
    assert(rest.subrange(payload.len() as int, payload.len() as int + 1) =~= feed);
    assert(occurs_at(rest, feed, payload.len() as int));
    lemma_first_at(rest, feed, 0, payload.len() as int);
    assert(message_end(rest) == Some(payload.len() as int));
    assert(rest.take(payload.len() as int) =~= payload);
    let none = after_message(rest, payload.len() as int);
    assert(none =~= Seq::empty());
    assert(!begins_with(none, sse_prefix()));
    assert(payloads(none) =~= Seq::empty());
    assert(payloads(ended) =~= seq![payload] + payloads(none));
    assert(payloads(ended) =~= seq![payload]);
}

} // verus!
