//! The strict reading of the relay's peer fault table.
//!
//! Only the relay's key set, only closed vocabulary labels, bounded
//! identifiers, consistent counters and the relay's ring bounds are accepted.
//! A snapshot that carries anything else (an extra field, an unbounded string,
//! an unknown cause) is refused, so a payload or credential cannot ride along
//! inside a diagnostic table.

use vstd::prelude::*;
use vstd::string::*;
use vstd::utf8::*;

use crate::json::{document_views, json_documents, member, parse_documents, Json, JsonEntry, JsonView};
use crate::ordered::OrderedSet;
use crate::peer_faults::{
    tuple_is_closed, PeerFaultTuple, TupleKey, MAX_PEER_FAULT_RECENT, MAX_TASK_CLOSURE_RECENT,
    MAX_TOKEN_BYTES, PEER_FAULT_CAUSES, PEER_FAULT_EVENT_KEYS, PEER_FAULT_ROLES,
    PEER_FAULT_SNAPSHOT_KEYS, PEER_FAULT_STAGES, TASK_CLOSURE_CAUSES, TASK_CLOSURE_EVENT_KEYS,
    TASK_CLOSURE_STAGES,
};
use crate::rules::{
    all_hold, chained, first_broken, is_listed, lemma_all_hold_chained, lemma_chained_broken,
    lemma_chained_step, lemma_first_broken, lemma_first_broken_of_two, listed, Audit,
};
use crate::scan_failure::ScanFailure;
use crate::text::{lemma_ascii_bytes, same_text};

verus! {

/// An ASCII letter or digit.
pub open spec fn is_alphanumeric(byte: u8) -> bool {
    (0x30 <= byte <= 0x39) || (0x41 <= byte <= 0x5a) || (0x61 <= byte <= 0x7a)
}

/// An ASCII hexadecimal digit.
pub open spec fn is_hex_digit(byte: u8) -> bool {
    (0x30 <= byte <= 0x39) || (0x41 <= byte <= 0x46) || (0x61 <= byte <= 0x66)
}

/// A byte of a bounded identifier: a letter, a digit, or one of `.`, `_`, `-`.
pub open spec fn is_token_byte(byte: u8) -> bool {
    is_alphanumeric(byte) || byte == 0x2e || byte == 0x5f || byte == 0x2d
}

/// A bounded identifier: between one and [`MAX_TOKEN_BYTES`] identifier bytes.
pub open spec fn is_token(text: Seq<char>) -> bool {
    let bytes = encode_utf8(text);
    &&& 0 < bytes.len() <= MAX_TOKEN_BYTES
    &&& forall|i: int| 0 <= i < bytes.len() ==> is_token_byte(#[trigger] bytes[i])
}

/// The shape of a UUID in print: 36 bytes, hyphens after the digits 8, 12, 16
/// and 20, and hexadecimal digits elsewhere.
pub open spec fn is_uuid(text: Seq<char>) -> bool {
    let bytes = encode_utf8(text);
    &&& bytes.len() == 36
    &&& forall|i: int|
        0 <= i < 36 ==> if i == 8 || i == 13 || i == 18 || i == 23 {
            #[trigger] bytes[i] == 0x2d
        } else {
            is_hex_digit(bytes[i])
        }
}

/// Whether `byte` is an ASCII letter or digit.
pub fn alphanumeric(byte: u8) -> (answer: bool)
    ensures
        answer == is_alphanumeric(byte),
{
    (0x30 <= byte && byte <= 0x39) || (0x41 <= byte && byte <= 0x5a) || (0x61 <= byte && byte
        <= 0x7a)
}

/// Whether `byte` is an ASCII hexadecimal digit.
pub fn hex_digit(byte: u8) -> (answer: bool)
    ensures
        answer == is_hex_digit(byte),
{
    (0x30 <= byte && byte <= 0x39) || (0x41 <= byte && byte <= 0x46) || (0x61 <= byte && byte
        <= 0x66)
}

/// Whether `text` is a bounded identifier.
pub fn token(text: &str) -> (answer: bool)
    ensures
        answer == is_token(text@),
{
    let bytes = text.as_bytes();
    if bytes.len() == 0 || bytes.len() > MAX_TOKEN_BYTES {
        return false;
    }
    let mut i: usize = 0;
    while i < bytes.len()
        invariant
            i <= bytes.len(),
            bytes@ == encode_utf8(text@),
            forall|k: int| 0 <= k < i ==> is_token_byte(#[trigger] bytes@[k]),
        decreases bytes.len() - i,
    {
        let byte: u8 = bytes[i];
        if !(alphanumeric(byte) || byte == 0x2e || byte == 0x5f || byte == 0x2d) {
            assert(!is_token_byte(bytes@[i as int]));
            return false;
        }
        i += 1;
    }
    true
}

/// Whether `text` has the shape of a UUID.
pub fn uuid_shaped(text: &str) -> (answer: bool)
    ensures
        answer == is_uuid(text@),
{
    let bytes = text.as_bytes();
    if bytes.len() != 36 {
        return false;
    }
    let mut i: usize = 0;
    while i < 36
        invariant
            i <= 36,
            bytes.len() == 36,
            bytes@ == encode_utf8(text@),
            forall|k: int|
                0 <= k < i ==> if k == 8 || k == 13 || k == 18 || k == 23 {
                    #[trigger] bytes@[k] == 0x2d
                } else {
                    is_hex_digit(bytes@[k])
                },
        decreases 36 - i,
    {
        let byte: u8 = bytes[i];
        let fits = if i == 8 || i == 13 || i == 18 || i == 23 {
            byte == 0x2d
        } else {
            hex_digit(byte)
        };
        if !fits {
            assert(bytes@[i as int] == byte);
            return false;
        }
        i += 1;
    }
    true
}

/// An object with exactly the members `keys`.
pub open spec fn has_exact_keys(value: JsonView, keys: Seq<&'static str>) -> bool {
    &&& value is Object
    &&& value->Object_0.len() == keys.len()
    &&& forall|i: int|
        0 <= i < keys.len() ==> member(value->Object_0, (#[trigger] keys[i])@) is Some
}

/// The number under `key`.
pub open spec fn u64_at(value: JsonView, key: Seq<char>) -> Option<u64> {
    match value.get(key) {
        Some(found) => found.as_u64(),
        None => None,
    }
}

/// `null` stands under `key`.
pub open spec fn null_at(value: JsonView, key: Seq<char>) -> bool {
    value.get(key) == Some(JsonView::Null)
}

/// A UUID stands under `key`.
pub open spec fn uuid_at(value: JsonView, key: Seq<char>) -> bool {
    value.text_of(key) matches Some(text) && is_uuid(text)
}

/// A bounded identifier stands under `key`.
pub open spec fn token_at(value: JsonView, key: Seq<char>) -> bool {
    value.text_of(key) matches Some(text) && is_token(text)
}

/// A word of `words` stands under `key`.
pub open spec fn listed_at(value: JsonView, key: Seq<char>, words: Seq<&'static str>) -> bool {
    value.text_of(key) matches Some(text) && listed(words, text)
}

fn find_exact_keys(value: &Json, keys: &[&'static str]) -> (answer: bool)
    ensures
        answer == has_exact_keys(value@, keys@),
{
    match value {
        Json::Object(entries) => {
            if entries.len() != keys.len() {
                return false;
            }
            let mut i: usize = 0;
            while i < keys.len()
                invariant
                    i <= keys.len(),
                    *value == Json::Object(*entries),
                    value@->Object_0.len() == keys.len(),
                    value@ is Object,
                    forall|k: int|
                        0 <= k < i ==> member(value@->Object_0, (#[trigger] keys@[k])@) is Some,
                decreases keys.len() - i,
            {
                if value.get(keys[i]).is_none() {
                    assert(member(value@->Object_0, keys@[i as int]@) is None);
                    return false;
                }
                i += 1;
            }
            true
        },
        _ => false,
    }
}

fn find_u64(value: &Json, key: &str) -> (number: Option<u64>)
    ensures
        number == u64_at(value@, key@),
{
    match value.get(key) {
        Some(found) => found.as_u64(),
        None => None,
    }
}

fn find_null(value: &Json, key: &str) -> (answer: bool)
    ensures
        answer == null_at(value@, key@),
{
    match value.get(key) {
        Some(found) => found.is_null(),
        None => false,
    }
}

fn find_uuid(value: &Json, key: &str) -> (answer: bool)
    ensures
        answer == uuid_at(value@, key@),
{
    match value.text_of(key) {
        Some(text) => uuid_shaped(text),
        None => false,
    }
}

fn find_token(value: &Json, key: &str) -> (answer: bool)
    ensures
        answer == token_at(value@, key@),
{
    match value.text_of(key) {
        Some(text) => token(text),
        None => false,
    }
}

fn find_text(value: &Json, key: &str) -> (answer: bool)
    ensures
        answer == (value@.text_of(key@) is Some),
{
    value.text_of(key).is_some()
}

fn find_listed(value: &Json, key: &str, words: &[&'static str]) -> (answer: bool)
    ensures
        answer == listed_at(value@, key@, words@),
{
    match value.text_of(key) {
        Some(text) => is_listed(words, text),
        None => false,
    }
}

/// What a peer fault entry must be, in the order in which it is read.
pub open spec fn event_rules(event: JsonView) -> Seq<(Seq<char>, bool)> {
    seq![
        ("event was not an object"@, event is Object),
        (
            "event keys differ from the relay schema"@,
            has_exact_keys(event, PEER_FAULT_EVENT_KEYS@),
        ),
        ("event sequence was not a u64"@, u64_at(event, "sequence"@) is Some),
        ("event sequence was zero"@, u64_at(event, "sequence"@) != Some(0u64)),
        ("event timestamp was not a u64"@, u64_at(event, "observed_at_ms"@) is Some),
        ("event role was not a string"@, event.text_of("role"@) is Some),
        ("event stage was not a string"@, event.text_of("stage"@) is Some),
        ("event cause was not a string"@, event.text_of("cause"@) is Some),
        ("role outside the closed vocabulary"@, listed_at(event, "role"@, PEER_FAULT_ROLES@)),
        ("stage outside the closed vocabulary"@, listed_at(event, "stage"@, PEER_FAULT_STAGES@)),
        ("cause outside the closed vocabulary"@, listed_at(event, "cause"@, PEER_FAULT_CAUSES@)),
        ("tenant_id was not a string"@, event.text_of("tenant_id"@) is Some),
        ("tenant_id was not a uuid"@, uuid_at(event, "tenant_id"@)),
        ("device_id was not a string"@, event.text_of("device_id"@) is Some),
        ("device_id was not a uuid"@, uuid_at(event, "device_id"@)),
        (
            "session_id was not a string"@,
            null_at(event, "session_id"@) || event.text_of("session_id"@) is Some,
        ),
        (
            "session_id was not a bounded identifier"@,
            null_at(event, "session_id"@) || token_at(event, "session_id"@),
        ),
        (
            "owner_epoch was not a u64"@,
            null_at(event, "owner_epoch"@) || u64_at(event, "owner_epoch"@) is Some,
        ),
        (
            "owner_node_id was not a string"@,
            null_at(event, "owner_node_id"@) || event.text_of("owner_node_id"@) is Some,
        ),
        (
            "owner_node_id was not a bounded identifier"@,
            null_at(event, "owner_node_id"@) || token_at(event, "owner_node_id"@),
        ),
        (
            "service_id was not a string"@,
            null_at(event, "service_id"@) || event.text_of("service_id"@) is Some,
        ),
        (
            "service_id was not a uuid"@,
            null_at(event, "service_id"@) || uuid_at(event, "service_id"@),
        ),
        (
            "request_id was not a string"@,
            null_at(event, "request_id"@) || event.text_of("request_id"@) is Some,
        ),
        (
            "request_id was not a bounded identifier"@,
            null_at(event, "request_id"@) || token_at(event, "request_id"@),
        ),
    ]
}

/// The tuple that a peer fault entry names.
pub open spec fn event_tuple(event: JsonView) -> TupleKey {
    (event.text_of("role"@)->Some_0, event.text_of("stage"@)->Some_0, event.text_of("cause"@)->Some_0)
}

/// The sequence number of an entry.
pub open spec fn event_sequence(event: JsonView) -> u64 {
    u64_at(event, "sequence"@)->Some_0
}

fn owned_text(value: &Json, key: &str) -> (text: String)
    requires
        value@.text_of(key@) is Some,
    ensures
        text@ == value@.text_of(key@)->Some_0,
{
    match value.text_of(key) {
        Some(text) => text.to_owned(),
        None => String::new(),
    }
}

fn read_event(event: &Json) -> (result: Result<(PeerFaultTuple, u64), &'static str>)
    ensures
        match result {
            Ok((tuple, sequence)) => first_broken(event_rules(event@)) is None && tuple@
                == event_tuple(event@) && tuple_is_closed(tuple@) && sequence == event_sequence(
                event@,
            ) && sequence > 0,
            Err(reason) => first_broken(event_rules(event@)) == Some(reason@),
        },
{
    let object = match event {
        Json::Object(_) => true,
        _ => false,
    };
    let sequence = find_u64(event, "sequence");
    let session_null = find_null(event, "session_id");
    let node_null = find_null(event, "owner_node_id");
    let service_null = find_null(event, "service_id");
    let request_null = find_null(event, "request_id");
    let epoch_null = find_null(event, "owner_epoch");
    let mut audit = Audit::new(Ghost(event_rules(event@)));
    audit.hold("event was not an object", object);
    audit.hold(
        "event keys differ from the relay schema",
        find_exact_keys(event, PEER_FAULT_EVENT_KEYS.as_slice()),
    );
    audit.hold("event sequence was not a u64", sequence.is_some());
    audit.hold(
        "event sequence was zero",
        match sequence {
                Some(sequence) => sequence != 0,
                None => true,
            },
    );
    audit.hold("event timestamp was not a u64", find_u64(event, "observed_at_ms").is_some());
    audit.hold("event role was not a string", find_text(event, "role"));
    audit.hold("event stage was not a string", find_text(event, "stage"));
    audit.hold("event cause was not a string", find_text(event, "cause"));
    audit.hold(
        "role outside the closed vocabulary",
        find_listed(event, "role", PEER_FAULT_ROLES.as_slice()),
    );
    audit.hold(
        "stage outside the closed vocabulary",
        find_listed(event, "stage", PEER_FAULT_STAGES.as_slice()),
    );
    audit.hold(
        "cause outside the closed vocabulary",
        find_listed(event, "cause", PEER_FAULT_CAUSES.as_slice()),
    );
    audit.hold("tenant_id was not a string", find_text(event, "tenant_id"));
    audit.hold("tenant_id was not a uuid", find_uuid(event, "tenant_id"));
    audit.hold("device_id was not a string", find_text(event, "device_id"));
    audit.hold("device_id was not a uuid", find_uuid(event, "device_id"));
    audit.hold("session_id was not a string", session_null || find_text(event, "session_id"));
    audit.hold(
        "session_id was not a bounded identifier",
        session_null || find_token(event, "session_id"),
    );
    audit.hold(
        "owner_epoch was not a u64",
        epoch_null || find_u64(event, "owner_epoch").is_some(),
    );
    audit.hold("owner_node_id was not a string", node_null || find_text(event, "owner_node_id"));
    audit.hold(
        "owner_node_id was not a bounded identifier",
        node_null || find_token(event, "owner_node_id"),
    );
    audit.hold("service_id was not a string", service_null || find_text(event, "service_id"));
    audit.hold("service_id was not a uuid", service_null || find_uuid(event, "service_id"));
    audit.hold("request_id was not a string", request_null || find_text(event, "request_id"));
    audit.hold(
        "request_id was not a bounded identifier",
        request_null || find_token(event, "request_id"),
    );
    match audit.broken() {
        Some(reason) => Err(reason),
        None => {
            proof {
                let all = event_rules(event@);
                assert(all[2].1 && all[3].1 && all[5].1 && all[6].1 && all[7].1);
                assert(all[8].1 && all[9].1 && all[10].1);
            }
            let tuple = PeerFaultTuple {
                role: owned_text(event, "role"),
                stage: owned_text(event, "stage"),
                cause: owned_text(event, "cause"),
            };
            let sequence: u64 = match sequence {
                Some(sequence) => sequence,
                None => 0,
            };
            Ok((tuple, sequence))
        },
    }
}

/// What a task closure entry must be, in the order in which it is read.
///
/// A closure carries only bounded labels and owner-registration identifiers.
/// Anything derived from a request body, header, ticket or endpoint breaks the
/// exact-key rule.
pub open spec fn closure_rules(event: JsonView) -> Seq<(Seq<char>, bool)> {
    seq![
        ("closure was not an object"@, event is Object),
        (
            "event keys differ from the relay schema"@,
            has_exact_keys(event, TASK_CLOSURE_EVENT_KEYS@),
        ),
        ("event sequence was not a u64"@, u64_at(event, "sequence"@) is Some),
        ("event sequence was zero"@, u64_at(event, "sequence"@) != Some(0u64)),
        ("event timestamp was not a u64"@, u64_at(event, "observed_at_ms"@) is Some),
        ("event stage was not a string"@, event.text_of("stage"@) is Some),
        (
            "closure stage is outside the relay vocabulary"@,
            listed_at(event, "stage"@, TASK_CLOSURE_STAGES@),
        ),
        ("event cause was not a string"@, event.text_of("cause"@) is Some),
        (
            "closure cause is outside the relay vocabulary"@,
            listed_at(event, "cause"@, TASK_CLOSURE_CAUSES@),
        ),
        ("tenant_id was not a string"@, event.text_of("tenant_id"@) is Some),
        ("tenant_id was not a uuid"@, uuid_at(event, "tenant_id"@)),
        ("device_id was not a string"@, event.text_of("device_id"@) is Some),
        ("device_id was not a uuid"@, uuid_at(event, "device_id"@)),
        (
            "session_id was not a string"@,
            null_at(event, "session_id"@) || event.text_of("session_id"@) is Some,
        ),
        (
            "session_id was not a bounded identifier"@,
            null_at(event, "session_id"@) || token_at(event, "session_id"@),
        ),
        ("counter was not a u64"@, u64_at(event, "epoch"@) is Some),
        (
            "counter was not a u64"@,
            null_at(event, "stream_id"@) || u64_at(event, "stream_id"@) is Some,
        ),
    ]
}

fn read_closure(event: &Json) -> (result: Result<u64, &'static str>)
    ensures
        match result {
            Ok(sequence) => first_broken(closure_rules(event@)) is None && sequence
                == event_sequence(event@) && sequence > 0,
            Err(reason) => first_broken(closure_rules(event@)) == Some(reason@),
        },
{
    let object = match event {
        Json::Object(_) => true,
        _ => false,
    };
    let sequence = find_u64(event, "sequence");
    let session_null = find_null(event, "session_id");
    let stream_null = find_null(event, "stream_id");
    let mut audit = Audit::new(Ghost(closure_rules(event@)));
    audit.hold("closure was not an object", object);
    audit.hold(
        "event keys differ from the relay schema",
        find_exact_keys(event, TASK_CLOSURE_EVENT_KEYS.as_slice()),
    );
    audit.hold("event sequence was not a u64", sequence.is_some());
    audit.hold(
        "event sequence was zero",
        match sequence {
                Some(sequence) => sequence != 0,
                None => true,
            },
    );
    audit.hold("event timestamp was not a u64", find_u64(event, "observed_at_ms").is_some());
    audit.hold("event stage was not a string", find_text(event, "stage"));
    audit.hold(
        "closure stage is outside the relay vocabulary",
        find_listed(event, "stage", TASK_CLOSURE_STAGES.as_slice()),
    );
    audit.hold("event cause was not a string", find_text(event, "cause"));
    audit.hold(
        "closure cause is outside the relay vocabulary",
        find_listed(event, "cause", TASK_CLOSURE_CAUSES.as_slice()),
    );
    audit.hold("tenant_id was not a string", find_text(event, "tenant_id"));
    audit.hold("tenant_id was not a uuid", find_uuid(event, "tenant_id"));
    audit.hold("device_id was not a string", find_text(event, "device_id"));
    audit.hold("device_id was not a uuid", find_uuid(event, "device_id"));
    audit.hold("session_id was not a string", session_null || find_text(event, "session_id"));
    audit.hold(
        "session_id was not a bounded identifier",
        session_null || find_token(event, "session_id"),
    );
    audit.hold("counter was not a u64", find_u64(event, "epoch").is_some());
    audit.hold("counter was not a u64", stream_null || find_u64(event, "stream_id").is_some());
    match audit.broken() {
        Some(reason) => Err(reason),
        None => {
            proof {
                let all = closure_rules(event@);
                assert(all[2].1 && all[3].1);
            }
            Ok(
                match sequence {
                    Some(sequence) => sequence,
                    None => 0,
                },
            )
        },
    }
}

/// Reads one peer fault entry: its tuple and its sequence number.
pub fn validate_peer_fault_event(event: &Json) -> (result: Result<
    (PeerFaultTuple, u64),
    ScanFailure,
>)
    ensures
        match result {
            Ok((tuple, sequence)) => first_broken(event_rules(event@)) is None && tuple@
                == event_tuple(event@) && tuple_is_closed(tuple@) && sequence == event_sequence(
                event@,
            ) && sequence > 0,
            Err(failure) => failure@ is InvalidPeerFault && first_broken(event_rules(event@))
                == Some(failure@->InvalidPeerFault_0),
        },
{
    match read_event(event) {
        Ok(read) => Ok(read),
        Err(reason) => Err(ScanFailure::InvalidPeerFault { reason }),
    }
}

/// Reads one task closure entry: its sequence number.
pub fn validate_task_closure_event(event: &Json) -> (result: Result<u64, ScanFailure>)
    ensures
        match result {
            Ok(sequence) => first_broken(closure_rules(event@)) is None && sequence
                == event_sequence(event@) && sequence > 0,
            Err(failure) => failure@ is InvalidPeerFault && first_broken(closure_rules(event@))
                == Some(failure@->InvalidPeerFault_0),
        },
{
    match read_closure(event) {
        Ok(sequence) => Ok(sequence),
        Err(reason) => Err(ScanFailure::InvalidPeerFault { reason }),
    }
}

/// What stands under `key`, and `null` where nothing does.
pub open spec fn at(value: JsonView, key: Seq<char>) -> JsonView {
    match value.get(key) {
        Some(found) => found,
        None => JsonView::Null,
    }
}

/// The members of an object.
pub open spec fn entries_of(value: JsonView) -> Seq<(Seq<char>, JsonView)> {
    match value {
        JsonView::Object(entries) => entries,
        _ => Seq::empty(),
    }
}

/// The items of an array.
pub open spec fn items_of(value: JsonView) -> Seq<JsonView> {
    match value {
        JsonView::Array(items) => items,
        _ => Seq::empty(),
    }
}

/// The sum of the counters of a list of members.
pub open spec fn count_total(entries: Seq<(Seq<char>, JsonView)>) -> nat
    decreases entries.len(),
{
    if entries.len() == 0 {
        0
    } else {
        count_total(entries.drop_last()) + match entries.last().1.as_u64() {
            Some(count) => count as nat,
            None => 0,
        }
    }
}

/// The rules of each counter of a map: a known label, a number, and a sum
/// that still fits.
pub open spec fn count_steps(
    value: JsonView,
    words: Seq<&'static str>,
    bad_key: Seq<char>,
) -> spec_fn(int) -> Seq<(Seq<char>, bool)> {
    |i: int|
        seq![
            (bad_key, listed(words, entries_of(value)[i].0)),
            ("counter was not a u64"@, entries_of(value)[i].1.as_u64() is Some),
            ("counter overflow"@, count_total(entries_of(value).take(i + 1)) <= u64::MAX),
        ]
}

/// The rules of a map from labels to counters.
pub open spec fn count_rules(
    value: JsonView,
    words: Seq<&'static str>,
    not_object: Seq<char>,
    bad_key: Seq<char>,
) -> Seq<(Seq<char>, bool)> {
    seq![(not_object, value is Object)] + chained(
        count_steps(value, words, bad_key),
        entries_of(value).len(),
    )
}

fn read_counts(
    value: &Json,
    words: &[&'static str],
    not_object: &'static str,
    bad_key: &'static str,
) -> (result: Result<u64, &'static str>)
    ensures
        match result {
            Ok(total) => first_broken(count_rules(value@, words@, not_object@, bad_key@)) is None
                && total == count_total(entries_of(value@)),
            Err(reason) => first_broken(count_rules(value@, words@, not_object@, bad_key@)) == Some(
                reason@,
            ),
        },
{
    let ghost all = entries_of(value@);
    let ghost steps = count_steps(value@, words@, bad_key@);
    let ghost head = seq![(not_object@, value@ is Object)];
    proof {
        lemma_first_broken_of_two(head, chained(steps, all.len()));
        reveal_with_fuel(first_broken, 2);
        assert(head.drop_first() =~= Seq::<(Seq<char>, bool)>::empty());
    }
    match value {
        Json::Object(entries) => {
            let mut total: u64 = 0;
            let mut i: usize = 0;
            assert(all.take(0) =~= Seq::<(Seq<char>, JsonView)>::empty());
            while i < entries.len()
                invariant
                    i <= entries.len(),
                    *value == Json::Object(*entries),
                    all == entries_of(value@),
                    all.len() == entries.len(),
                    steps == count_steps(value@, words@, bad_key@),
                    first_broken(chained(steps, i as nat)) is None,
                    total == count_total(all.take(i as int)),
                    first_broken(head) is None,
                    first_broken(count_rules(value@, words@, not_object@, bad_key@))
                        == first_broken(chained(steps, all.len())),
                decreases entries.len() - i,
            {
                assert(all[i as int] == (entries@[i as int].key@, entries@[i as int].value@));
                assert(all.take(i + 1).drop_last() =~= all.take(i as int));
                let count = entries[i].value.as_u64();
                let sum: Option<u64> = match count {
                    Some(count) => total.checked_add(count),
                    None => Some(total),
                };
                let mut audit = Audit::new(Ghost(steps(i as int)));
                audit.hold(bad_key, is_listed(words, entries[i].key.as_str()));
                audit.hold("counter was not a u64", count.is_some());
                audit.hold("counter overflow", sum.is_some());
                let broken = audit.broken();
                proof {
                    lemma_chained_step(steps, i as nat);
                    if broken is Some {
                        lemma_chained_broken(steps, (i + 1) as nat, all.len());
                    } else {
                        assert(steps(i as int)[2].1);
                    }
                }
                match broken {
                    Some(reason) => {
                        return Err(reason);
                    },
                    None => {},
                }
                total = match sum {
                    Some(sum) => sum,
                    None => total,
                };
                i += 1;
            }
            assert(all.take(i as int) =~= all);
            Ok(total)
        },
        _ => Err(not_object),
    }
}

/// The sequence number before entry `i` of a ring, and zero before its first.
pub open spec fn previous_sequence(events: Seq<JsonView>, i: int) -> u64 {
    if i == 0 {
        0
    } else {
        event_sequence(events[i - 1])
    }
}

/// The rules of each entry of the fault ring: those of an entry, and a
/// sequence number above the one before.
pub open spec fn ring_steps(events: Seq<JsonView>) -> spec_fn(int) -> Seq<(Seq<char>, bool)> {
    |i: int|
        event_rules(events[i]) + seq![
            (
                "recent ring is not strictly ordered"@,
                event_sequence(events[i]) > previous_sequence(events, i),
            ),
        ]
}

/// The tuples that a list of peer fault entries names.
pub open spec fn event_tuples(events: Seq<JsonView>) -> Set<TupleKey> {
    events.map_values(|event: JsonView| event_tuple(event)).to_set()
}

proof fn lemma_event_tuples_step(events: Seq<JsonView>, i: int)
    requires
        0 <= i < events.len(),
    ensures
        event_tuples(events.take(i + 1)) == event_tuples(events.take(i)).insert(
            event_tuple(events[i]),
        ),
{
    let of = |event: JsonView| event_tuple(event);
    assert(events.take(i + 1).map_values(of) =~= events.take(i).map_values(of).push(
        event_tuple(events[i]),
    ));
    events.take(i).map_values(of).lemma_push_to_set_commute(event_tuple(events[i]));
}

proof fn lemma_one_rule(rule: (Seq<char>, bool))
    ensures
        first_broken(seq![rule]) == if rule.1 {
            None
        } else {
            Some(rule.0)
        },
{
    reveal_with_fuel(first_broken, 2);
    assert(seq![rule].drop_first() =~= Seq::<(Seq<char>, bool)>::empty());
}

fn read_ring(events: &Vec<Json>, Ghost(all): Ghost<Seq<JsonView>>) -> (result: Result<
    OrderedSet<PeerFaultTuple>,
    &'static str,
>)
    requires
        all.len() == events.len(),
        forall|i: int| 0 <= i < events.len() ==> #[trigger] events@[i]@ == all[i],
    ensures
        match result {
            Ok(tuples) => first_broken(chained(ring_steps(all), all.len())) is None && tuples.wf()
                && tuples@ == event_tuples(all) && (forall|tuple: TupleKey| #[trigger]
                tuples@.contains(tuple) ==> tuple_is_closed(tuple)),
            Err(reason) => first_broken(chained(ring_steps(all), all.len())) == Some(reason@),
        },
{
    let ghost steps = ring_steps(all);
    let mut tuples: OrderedSet<PeerFaultTuple> = OrderedSet::new();
    let mut last: u64 = 0;
    let mut i: usize = 0;
    assert(event_tuples(all.take(0)) =~= Set::<TupleKey>::empty());
    while i < events.len()
        invariant
            i <= events.len(),
            all.len() == events.len(),
            forall|k: int| 0 <= k < events.len() ==> #[trigger] events@[k]@ == all[k],
            steps == ring_steps(all),
            first_broken(chained(steps, i as nat)) is None,
            tuples.wf(),
            tuples@ == event_tuples(all.take(i as int)),
            forall|tuple: TupleKey| #[trigger] tuples@.contains(tuple) ==> tuple_is_closed(tuple),
            last == previous_sequence(all, i as int),
        decreases events.len() - i,
    {
        assert(events@[i as int]@ == all[i as int]);
        let ghost order: (Seq<char>, bool) = (
            "recent ring is not strictly ordered"@,
            event_sequence(all[i as int]) > previous_sequence(all, i as int),
        );
        proof {
            lemma_chained_step(steps, i as nat);
            lemma_first_broken_of_two(event_rules(all[i as int]), seq![order]);
            lemma_one_rule(order);
        }
        match read_event(&events[i]) {
            Err(reason) => {
                proof {
                    lemma_chained_broken(steps, (i + 1) as nat, all.len());
                }
                return Err(reason);
            },
            Ok((tuple, sequence)) => {
                if sequence <= last {
                    proof {
                        lemma_chained_broken(steps, (i + 1) as nat, all.len());
                    }
                    return Err("recent ring is not strictly ordered");
                }
                last = sequence;
                tuples.insert(tuple);
                proof {
                    lemma_event_tuples_step(all, i as int);
                }
            },
        }
        i += 1;
    }
    assert(all.take(i as int) =~= all);
    Ok(tuples)
}

/// The rules of each entry of the closure ring.
pub open spec fn closure_steps(events: Seq<JsonView>) -> spec_fn(int) -> Seq<(Seq<char>, bool)> {
    |i: int|
        closure_rules(events[i]) + seq![
            (
                "closure ring is not strictly ordered"@,
                event_sequence(events[i]) > previous_sequence(events, i),
            ),
        ]
}

fn read_closures(events: &Vec<Json>, Ghost(all): Ghost<Seq<JsonView>>) -> (broken: Option<
    &'static str,
>)
    requires
        all.len() == events.len(),
        forall|i: int| 0 <= i < events.len() ==> #[trigger] events@[i]@ == all[i],
    ensures
        match broken {
            None => first_broken(chained(closure_steps(all), all.len())) is None,
            Some(reason) => first_broken(chained(closure_steps(all), all.len())) == Some(reason@),
        },
{
    let ghost steps = closure_steps(all);
    let mut last: u64 = 0;
    let mut i: usize = 0;
    while i < events.len()
        invariant
            i <= events.len(),
            all.len() == events.len(),
            forall|k: int| 0 <= k < events.len() ==> #[trigger] events@[k]@ == all[k],
            steps == closure_steps(all),
            first_broken(chained(steps, i as nat)) is None,
            last == previous_sequence(all, i as int),
        decreases events.len() - i,
    {
        assert(events@[i as int]@ == all[i as int]);
        let ghost order: (Seq<char>, bool) = (
            "closure ring is not strictly ordered"@,
            event_sequence(all[i as int]) > previous_sequence(all, i as int),
        );
        proof {
            lemma_chained_step(steps, i as nat);
            lemma_first_broken_of_two(closure_rules(all[i as int]), seq![order]);
            lemma_one_rule(order);
        }
        match read_closure(&events[i]) {
            Err(reason) => {
                proof {
                    lemma_chained_broken(steps, (i + 1) as nat, all.len());
                }
                return Some(reason);
            },
            Ok(sequence) => {
                if sequence <= last {
                    proof {
                        lemma_chained_broken(steps, (i + 1) as nat, all.len());
                    }
                    return Some("closure ring is not strictly ordered");
                }
                last = sequence;
            },
        }
        i += 1;
    }
    None
}

/// The rules of each member of the map of last faults: a known stage, a valid
/// entry, and an entry of that stage.
pub open spec fn last_steps(entries: Seq<(Seq<char>, JsonView)>) -> spec_fn(int) -> Seq<
    (Seq<char>, bool),
> {
    |i: int|
        seq![
            (
                "last_by_stage key outside the closed vocabulary"@,
                listed(PEER_FAULT_STAGES@, entries[i].0),
            ),
        ] + (event_rules(entries[i].1) + seq![
            ("last_by_stage entry stage mismatch"@, event_tuple(entries[i].1).1 == entries[i].0),
        ])
}

/// The values of a list of members.
pub open spec fn entry_values(entries: Seq<(Seq<char>, JsonView)>) -> Seq<JsonView> {
    entries.map_values(|entry: (Seq<char>, JsonView)| entry.1)
}

fn read_last(
    entries: &Vec<JsonEntry>,
    Ghost(all): Ghost<Seq<(Seq<char>, JsonView)>>,
    tuples: &mut OrderedSet<PeerFaultTuple>,
) -> (broken: Option<&'static str>)
    requires
        old(tuples).wf(),
        all.len() == entries.len(),
        forall|i: int|
            0 <= i < entries.len() ==> ((#[trigger] entries@[i]).key@, entries@[i].value@)
                == all[i],
        forall|tuple: TupleKey| #[trigger] old(tuples)@.contains(tuple) ==> tuple_is_closed(tuple),
    ensures
        match broken {
            None => first_broken(chained(last_steps(all), all.len())) is None
                && final(tuples).wf() && final(tuples)@ == old(tuples)@.union(event_tuples(entry_values(all))) && (
            forall|tuple: TupleKey| #[trigger]
                final(tuples)@.contains(tuple) ==> tuple_is_closed(tuple)),
            Some(reason) => first_broken(chained(last_steps(all), all.len())) == Some(reason@),
        },
{
    let ghost steps = last_steps(all);
    let ghost values = entry_values(all);
    let ghost first = tuples@;
    let mut i: usize = 0;
    assert(event_tuples(values.take(0)) =~= Set::<TupleKey>::empty());
    assert(first.union(event_tuples(values.take(0))) =~= first);
    while i < entries.len()
        invariant
            i <= entries.len(),
            all.len() == entries.len(),
            forall|k: int|
                0 <= k < entries.len() ==> ((#[trigger] entries@[k]).key@, entries@[k].value@)
                    == all[k],
            steps == last_steps(all),
            values == entry_values(all),
            first_broken(chained(steps, i as nat)) is None,
            tuples.wf(),
            tuples@ == first.union(event_tuples(values.take(i as int))),
            forall|tuple: TupleKey| #[trigger] tuples@.contains(tuple) ==> tuple_is_closed(tuple),
        decreases entries.len() - i,
    {
        let ghost entry = all[i as int];
        let ghost known: (Seq<char>, bool) = (
            "last_by_stage key outside the closed vocabulary"@,
            listed(PEER_FAULT_STAGES@, entry.0),
        );
        let ghost same: (Seq<char>, bool) = (
            "last_by_stage entry stage mismatch"@,
            event_tuple(entry.1).1 == entry.0,
        );
        proof {
            assert((entries@[i as int].key@, entries@[i as int].value@) == entry);
            assert(steps(i as int) == seq![known] + (event_rules(entry.1) + seq![same]));
            lemma_chained_step(steps, i as nat);
            lemma_first_broken_of_two(seq![known], event_rules(entry.1) + seq![same]);
            lemma_first_broken_of_two(event_rules(entry.1), seq![same]);
            lemma_one_rule(known);
            lemma_one_rule(same);
        }
        if !is_listed(PEER_FAULT_STAGES.as_slice(), entries[i].key.as_str()) {
            proof {
                lemma_chained_broken(steps, (i + 1) as nat, all.len());
            }
            return Some("last_by_stage key outside the closed vocabulary");
        }
        match read_event(&entries[i].value) {
            Err(reason) => {
                proof {
                    lemma_chained_broken(steps, (i + 1) as nat, all.len());
                }
                return Some(reason);
            },
            Ok((tuple, _)) => {
                if !same_text(tuple.stage.as_str(), entries[i].key.as_str()) {
                    proof {
                        lemma_chained_broken(steps, (i + 1) as nat, all.len());
                    }
                    return Some("last_by_stage entry stage mismatch");
                }
                let ghost before = tuples@;
                tuples.insert(tuple);
                proof {
                    lemma_event_tuples_step(values, i as int);
                    assert(tuples@ =~= first.union(event_tuples(values.take(i + 1))));
                }
            },
        }
        i += 1;
    }
    assert(values.take(i as int) =~= values);
    None
}

/// The head of the table: its members, and role counters that add up.
pub open spec fn table_head_rules(table: JsonView) -> Seq<(Seq<char>, bool)> {
    let fault = u64_at(table, "fault_count"@);
    let ingress = u64_at(table, "ingress_count"@);
    let owner = u64_at(table, "owner_count"@);
    seq![
        ("table was not an object"@, table is Object),
        (
            "table keys differ from the relay schema"@,
            has_exact_keys(table, PEER_FAULT_SNAPSHOT_KEYS@),
        ),
        ("role counter was not a u64"@, fault is Some),
        ("role counter was not a u64"@, ingress is Some),
        ("role counter was not a u64"@, owner is Some),
        (
            "role counters do not sum to fault_count"@,
            fault is Some && ingress is Some && owner is Some && ingress->Some_0 + owner->Some_0
                == fault->Some_0,
        ),
    ]
}

/// The fault ring's frame: counters that add up and a ring inside its bound.
pub open spec fn ring_head_rules(table: JsonView) -> Seq<(Seq<char>, bool)> {
    let fault = u64_at(table, "fault_count"@)->Some_0;
    let recent = at(table, "recent"@);
    seq![
        (
            "stage or cause counters do not sum to fault_count"@,
            count_total(entries_of(at(table, "stage_counts"@))) == fault && count_total(
                entries_of(at(table, "cause_counts"@)),
            ) == fault,
        ),
        ("recent was not an array"@, recent is Array),
        (
            "recent ring exceeds the relay bound"@,
            items_of(recent).len() <= MAX_PEER_FAULT_RECENT && items_of(recent).len() <= fault,
        ),
    ]
}

/// The closure ring's frame.  A closure is never counted as a fault: these
/// counters are held against the closure ring and not against `fault_count`.
pub open spec fn closure_head_rules(table: JsonView) -> Seq<(Seq<char>, bool)> {
    let stages = count_total(entries_of(at(table, "closure_stage_counts"@)));
    let causes = count_total(entries_of(at(table, "closure_cause_counts"@)));
    let closures = at(table, "closures"@);
    seq![
        ("closure stage and cause counters disagree"@, stages == causes),
        ("closures was not an array"@, closures is Array),
        (
            "closure ring exceeds the relay bound"@,
            items_of(closures).len() <= MAX_TASK_CLOSURE_RECENT && items_of(closures).len()
                <= stages,
        ),
    ]
}

/// The sections of the table's rules, in the order in which they are read.
pub open spec fn table_sections(table: JsonView) -> Seq<Seq<(Seq<char>, bool)>> {
    let recent = items_of(at(table, "recent"@));
    let closures = items_of(at(table, "closures"@));
    let last = at(table, "last_by_stage"@);
    seq![
        table_head_rules(table),
        count_rules(
            at(table, "stage_counts"@),
            PEER_FAULT_STAGES@,
            "stage_counts was not an object"@,
            "stage_counts key outside the closed vocabulary"@,
        ),
        count_rules(
            at(table, "cause_counts"@),
            PEER_FAULT_CAUSES@,
            "cause_counts was not an object"@,
            "cause_counts key outside the closed vocabulary"@,
        ),
        ring_head_rules(table),
        chained(ring_steps(recent), recent.len()),
        count_rules(
            at(table, "closure_stage_counts"@),
            TASK_CLOSURE_STAGES@,
            "cause_counts was not an object"@,
            "cause_counts key outside the closed vocabulary"@,
        ),
        count_rules(
            at(table, "closure_cause_counts"@),
            TASK_CLOSURE_CAUSES@,
            "cause_counts was not an object"@,
            "cause_counts key outside the closed vocabulary"@,
        ),
        closure_head_rules(table),
        chained(closure_steps(closures), closures.len()),
        seq![("last_by_stage was not an object"@, last is Object)],
        chained(last_steps(entries_of(last)), entries_of(last).len()),
    ]
}

/// The steps of the table's rules: its sections.
pub open spec fn table_steps(table: JsonView) -> spec_fn(int) -> Seq<(Seq<char>, bool)> {
    |i: int| table_sections(table)[i]
}

/// What a peer fault table must be, in the order in which it is read.
pub open spec fn table_rules(table: JsonView) -> Seq<(Seq<char>, bool)> {
    chained(table_steps(table), 11)
}

/// The tuples that a peer fault table names: those of its ring of recent
/// faults and those of its last fault of each stage.
pub open spec fn table_tuples(table: JsonView) -> Set<TupleKey> {
    event_tuples(items_of(at(table, "recent"@))).union(
        event_tuples(entry_values(entries_of(at(table, "last_by_stage"@)))),
    )
}

/// A closure is never a fault: two tables that differ in their closures alone
/// name the same tuples.
pub proof fn lemma_closures_are_no_faults(a: JsonView, b: JsonView)
    requires
        at(a, "recent"@) == at(b, "recent"@),
        at(a, "last_by_stage"@) == at(b, "last_by_stage"@),
    ensures
        table_tuples(a) == table_tuples(b),
{
}

/// A counter map adds up member by member: the counters of two lists in a row
/// are the counters of each, and a list of one member counts that member.
pub proof fn lemma_counters_add_up(
    first: Seq<(Seq<char>, JsonView)>,
    second: Seq<(Seq<char>, JsonView)>,
    label: Seq<char>,
    count: u64,
    text: Seq<char>,
)
    ensures
        count_total(first + second) == count_total(first) + count_total(second),
        count_total(seq![(label, JsonView::Number(Some(count), text))]) == count,
        count_total(Seq::empty()) == 0,
    decreases second.len(),
{
    reveal_with_fuel(count_total, 2);
    let one = seq![(label, JsonView::Number(Some(count), text))];
    assert(one.drop_last() =~= Seq::empty());
    if second.len() == 0 {
        assert(first + second =~= first);
    } else {
        assert((first + second).drop_last() =~= first + second.drop_last());
        lemma_counters_add_up(first, second.drop_last(), label, count, text);
    }
}

/// A peer fault entry is accepted exactly when it is an object of the relay's
/// twelve members and no other, each of its own kind.
pub proof fn lemma_accepted_event(event: JsonView)
    ensures
        first_broken(event_rules(event)) is None <==> {
            &&& event is Object
            &&& event->Object_0.len() == 12
            &&& event.get("sequence"@) matches Some(JsonView::Number(Some(sequence), _))
                && sequence > 0
            &&& event.get("observed_at_ms"@) matches Some(JsonView::Number(Some(_), _))
            &&& event.get("role"@) matches Some(JsonView::Text(role)) && (role == "ingress"@
                || role == "owner"@)
            &&& event.get("stage"@) matches Some(JsonView::Text(stage)) && listed(
                PEER_FAULT_STAGES@,
                stage,
            )
            &&& event.get("cause"@) matches Some(JsonView::Text(cause)) && listed(
                PEER_FAULT_CAUSES@,
                cause,
            )
            &&& event.get("tenant_id"@) matches Some(JsonView::Text(tenant)) && is_uuid(tenant)
            &&& event.get("device_id"@) matches Some(JsonView::Text(device)) && is_uuid(device)
            &&& match event.get("session_id"@) {
                Some(JsonView::Null) => true,
                Some(JsonView::Text(session)) => is_token(session),
                _ => false,
            }
            &&& match event.get("owner_epoch"@) {
                Some(JsonView::Null) => true,
                Some(JsonView::Number(epoch, _)) => epoch is Some,
                _ => false,
            }
            &&& match event.get("owner_node_id"@) {
                Some(JsonView::Null) => true,
                Some(JsonView::Text(node)) => is_token(node),
                _ => false,
            }
            &&& match event.get("service_id"@) {
                Some(JsonView::Null) => true,
                Some(JsonView::Text(service)) => is_uuid(service),
                _ => false,
            }
            &&& match event.get("request_id"@) {
                Some(JsonView::Null) => true,
                Some(JsonView::Text(request)) => is_token(request),
                _ => false,
            }
        },
{
    let rules = event_rules(event);
    let keys = PEER_FAULT_EVENT_KEYS@;
    lemma_first_broken(rules);
    assert(rules.len() == 24);
    assert(keys.len() == 12);
    assert(PEER_FAULT_ROLES@[0]@ == "ingress"@ && PEER_FAULT_ROLES@[1]@ == "owner"@);
    if all_hold(rules) {
        assert(rules[0].1);
        assert(rules[1].1);
        assert(rules[2].1);
        assert(rules[3].1);
        assert(rules[4].1);
        assert(rules[8].1);
        assert(rules[9].1);
        assert(rules[10].1);
        assert(rules[12].1);
        assert(rules[14].1);
        assert(rules[15].1);
        assert(rules[16].1);
        assert(rules[17].1);
        assert(rules[19].1);
        assert(rules[21].1);
        assert(rules[23].1);
    }
    if event is Object {
        assert(keys[0]@ == "sequence"@ && keys[1]@ == "observed_at_ms"@ && keys[2]@ == "role"@
            && keys[3]@ == "stage"@ && keys[4]@ == "cause"@ && keys[5]@ == "tenant_id"@
            && keys[6]@ == "device_id"@ && keys[7]@ == "session_id"@ && keys[8]@
            == "owner_epoch"@ && keys[9]@ == "owner_node_id"@ && keys[10]@ == "service_id"@
            && keys[11]@ == "request_id"@);
    }
}

/// A task closure entry is accepted exactly when it is an object of the
/// relay's nine members and no other, each of its own kind.
pub proof fn lemma_accepted_closure(event: JsonView)
    ensures
        first_broken(closure_rules(event)) is None <==> {
            &&& event is Object
            &&& event->Object_0.len() == 9
            &&& event.get("sequence"@) matches Some(JsonView::Number(Some(sequence), _))
                && sequence > 0
            &&& event.get("observed_at_ms"@) matches Some(JsonView::Number(Some(_), _))
            &&& event.get("stage"@) matches Some(JsonView::Text(stage)) && listed(
                TASK_CLOSURE_STAGES@,
                stage,
            )
            &&& event.get("cause"@) matches Some(JsonView::Text(cause)) && listed(
                TASK_CLOSURE_CAUSES@,
                cause,
            )
            &&& event.get("tenant_id"@) matches Some(JsonView::Text(tenant)) && is_uuid(tenant)
            &&& event.get("device_id"@) matches Some(JsonView::Text(device)) && is_uuid(device)
            &&& match event.get("session_id"@) {
                Some(JsonView::Null) => true,
                Some(JsonView::Text(session)) => is_token(session),
                _ => false,
            }
            &&& event.get("epoch"@) matches Some(JsonView::Number(Some(_), _))
            &&& match event.get("stream_id"@) {
                Some(JsonView::Null) => true,
                Some(JsonView::Number(stream, _)) => stream is Some,
                _ => false,
            }
        },
{
    let rules = closure_rules(event);
    let keys = TASK_CLOSURE_EVENT_KEYS@;
    lemma_first_broken(rules);
    assert(rules.len() == 17);
    assert(keys.len() == 9);
    if all_hold(rules) {
        assert(rules[0].1);
        assert(rules[1].1);
        assert(rules[2].1);
        assert(rules[3].1);
        assert(rules[4].1);
        assert(rules[6].1);
        assert(rules[8].1);
        assert(rules[10].1);
        assert(rules[12].1);
        assert(rules[14].1);
        assert(rules[15].1);
        assert(rules[16].1);
    }
    if event is Object {
        assert(keys[0]@ == "sequence"@ && keys[1]@ == "observed_at_ms"@ && keys[2]@ == "stage"@
            && keys[3]@ == "cause"@ && keys[4]@ == "tenant_id"@ && keys[5]@ == "device_id"@
            && keys[6]@ == "session_id"@ && keys[7]@ == "epoch"@ && keys[8]@ == "stream_id"@);
    }
}

/// The rules of a counter map hold exactly when it is an object whose labels
/// are all of the vocabulary, whose values are all counters, and whose sum is
/// itself a counter.
proof fn lemma_accepted_counts(
    value: JsonView,
    words: Seq<&'static str>,
    not_object: Seq<char>,
    bad_key: Seq<char>,
)
    ensures
        all_hold(count_rules(value, words, not_object, bad_key)) <==> {
            &&& value matches JsonView::Object(entries) && {
                &&& forall|i: int|
                    0 <= i < entries.len() ==> listed(words, (#[trigger] entries[i]).0)
                        && entries[i].1.as_u64() is Some
                &&& count_total(entries) <= u64::MAX
            }
        },
{
    let entries = entries_of(value);
    let steps = count_steps(value, words, bad_key);
    let head: Seq<(Seq<char>, bool)> = seq![(not_object, value is Object)];
    let tail = chained(steps, entries.len());
    let rules = count_rules(value, words, not_object, bad_key);
    lemma_all_hold_chained(steps, entries.len());
    assert(rules =~= head + tail);
    assert(all_hold(rules) <==> all_hold(head) && all_hold(tail)) by {
        lemma_first_broken(rules);
        lemma_first_broken(head);
        lemma_first_broken(tail);
        lemma_first_broken_of_two(head, tail);
    }
    assert(all_hold(head) == (value is Object)) by {
        if all_hold(head) {
            assert(head[0].1);
        }
    }
    assert forall|i: int| 0 <= i < entries.len() implies (all_hold(#[trigger] steps(i)) <==> {
        &&& listed(words, entries[i].0)
        &&& entries[i].1.as_u64() is Some
        &&& count_total(entries.take(i + 1)) <= u64::MAX
    }) by {
        let step = steps(i);
        assert(step.len() == 3);
        if all_hold(step) {
            assert(step[0].1);
            assert(step[1].1);
            assert(step[2].1);
        }
    }
    if all_hold(tail) {
        assert forall|i: int| 0 <= i < entries.len() implies listed(
            words,
            (#[trigger] entries[i]).0,
        ) && entries[i].1.as_u64() is Some by {
            assert(all_hold(steps(i)));
        }
        if entries.len() > 0 {
            assert(all_hold(steps(entries.len() - 1)));
            assert(entries.take(entries.len() as int) =~= entries);
        }
    }
    if count_total(entries) <= u64::MAX && (forall|i: int|
        0 <= i < entries.len() ==> listed(words, (#[trigger] entries[i]).0)
            && entries[i].1.as_u64() is Some) {
        assert forall|i: int| 0 <= i < entries.len() implies all_hold(#[trigger] steps(i)) by {
            let some = entries[i];
            lemma_counters_add_up(
                entries.take(i + 1),
                entries.skip(i + 1),
                Seq::empty(),
                0,
                Seq::empty(),
            );
            assert(entries.take(i + 1) + entries.skip(i + 1) =~= entries);
        }
    }
}

/// Numbers that climb entry by entry climb from any entry to any later one.
proof fn lemma_climbing(events: Seq<JsonView>, i: int, j: int)
    requires
        0 <= i < j < events.len(),
        forall|k: int|
            0 <= k < events.len() ==> event_sequence(#[trigger] events[k]) > previous_sequence(
                events,
                k,
            ),
    ensures
        event_sequence(events[i]) < event_sequence(events[j]),
    decreases j - i,
{
    assert(event_sequence(events[j]) > previous_sequence(events, j));
    if i + 1 < j {
        lemma_climbing(events, i, j - 1);
    }
}

/// A fault ring is in order exactly when each of its entries is and their
/// sequence numbers climb from the first to the last.
proof fn lemma_accepted_ring(events: Seq<JsonView>)
    ensures
        all_hold(chained(ring_steps(events), events.len())) <==> {
            &&& forall|i: int|
                0 <= i < events.len() ==> first_broken(event_rules(#[trigger] events[i])) is None
            &&& forall|i: int, j: int|
                0 <= i < j < events.len() ==> u64_at(#[trigger] events[i], "sequence"@)->Some_0
                    < u64_at(#[trigger] events[j], "sequence"@)->Some_0
        },
{
    let steps = ring_steps(events);
    lemma_all_hold_chained(steps, events.len());
    assert forall|i: int| 0 <= i < events.len() implies (all_hold(#[trigger] steps(i)) <==> {
        &&& first_broken(event_rules(events[i])) is None
        &&& event_sequence(events[i]) > previous_sequence(events, i)
    }) by {
        let rules = event_rules(events[i]);
        let order = (
            "recent ring is not strictly ordered"@,
            event_sequence(events[i]) > previous_sequence(events, i),
        );
        assert(steps(i) =~= rules + seq![order]);
        lemma_first_broken(steps(i));
        lemma_first_broken_of_two(rules, seq![order]);
        lemma_one_rule(order);
    }
    if all_hold(chained(steps, events.len())) {
        assert forall|i: int| 0 <= i < events.len() implies first_broken(
            event_rules(#[trigger] events[i]),
        ) is None && event_sequence(events[i]) > previous_sequence(events, i) by {
            assert(all_hold(steps(i)));
        }
        assert forall|i: int, j: int| 0 <= i < j < events.len() implies u64_at(
            #[trigger] events[i],
            "sequence"@,
        )->Some_0 < u64_at(#[trigger] events[j], "sequence"@)->Some_0 by {
            lemma_climbing(events, i, j);
        }
    }
    if (forall|i: int|
        0 <= i < events.len() ==> first_broken(event_rules(#[trigger] events[i])) is None) && (
    forall|i: int, j: int|
        0 <= i < j < events.len() ==> u64_at(#[trigger] events[i], "sequence"@)->Some_0
            < u64_at(#[trigger] events[j], "sequence"@)->Some_0) {
        assert forall|i: int| 0 <= i < events.len() implies all_hold(#[trigger] steps(i)) by {
            assert(first_broken(event_rules(events[i])) is None);
            lemma_accepted_event(events[i]);
            if i > 0 {
                assert(u64_at(events[i - 1], "sequence"@)->Some_0 < u64_at(
                    events[i],
                    "sequence"@,
                )->Some_0);
            }
        }
    }
}

/// A closure ring is in order exactly when each of its entries is and their
/// sequence numbers climb from the first to the last.
proof fn lemma_accepted_closures(events: Seq<JsonView>)
    ensures
        all_hold(chained(closure_steps(events), events.len())) <==> {
            &&& forall|i: int|
                0 <= i < events.len() ==> first_broken(closure_rules(#[trigger] events[i])) is None
            &&& forall|i: int, j: int|
                0 <= i < j < events.len() ==> u64_at(#[trigger] events[i], "sequence"@)->Some_0
                    < u64_at(#[trigger] events[j], "sequence"@)->Some_0
        },
{
    let steps = closure_steps(events);
    lemma_all_hold_chained(steps, events.len());
    assert forall|i: int| 0 <= i < events.len() implies (all_hold(#[trigger] steps(i)) <==> {
        &&& first_broken(closure_rules(events[i])) is None
        &&& event_sequence(events[i]) > previous_sequence(events, i)
    }) by {
        let rules = closure_rules(events[i]);
        let order = (
            "closure ring is not strictly ordered"@,
            event_sequence(events[i]) > previous_sequence(events, i),
        );
        assert(steps(i) =~= rules + seq![order]);
        lemma_first_broken(steps(i));
        lemma_first_broken_of_two(rules, seq![order]);
        lemma_one_rule(order);
    }
    if all_hold(chained(steps, events.len())) {
        assert forall|i: int| 0 <= i < events.len() implies first_broken(
            closure_rules(#[trigger] events[i]),
        ) is None && event_sequence(events[i]) > previous_sequence(events, i) by {
            assert(all_hold(steps(i)));
        }
        assert forall|i: int, j: int| 0 <= i < j < events.len() implies u64_at(
            #[trigger] events[i],
            "sequence"@,
        )->Some_0 < u64_at(#[trigger] events[j], "sequence"@)->Some_0 by {
            lemma_climbing(events, i, j);
        }
    }
    if (forall|i: int|
        0 <= i < events.len() ==> first_broken(closure_rules(#[trigger] events[i])) is None) && (
    forall|i: int, j: int|
        0 <= i < j < events.len() ==> u64_at(#[trigger] events[i], "sequence"@)->Some_0
            < u64_at(#[trigger] events[j], "sequence"@)->Some_0) {
        assert forall|i: int| 0 <= i < events.len() implies all_hold(#[trigger] steps(i)) by {
            assert(first_broken(closure_rules(events[i])) is None);
            lemma_accepted_closure(events[i]);
            if i > 0 {
                assert(u64_at(events[i - 1], "sequence"@)->Some_0 < u64_at(
                    events[i],
                    "sequence"@,
                )->Some_0);
            }
        }
    }
}

/// The last faults are in order exactly when each stands under its own stage.
proof fn lemma_accepted_last(entries: Seq<(Seq<char>, JsonView)>)
    ensures
        all_hold(chained(last_steps(entries), entries.len())) <==> forall|i: int|
            0 <= i < entries.len() ==> first_broken(event_rules((#[trigger] entries[i]).1)) is None
                && entries[i].1.text_of("stage"@) == Some(entries[i].0),
{
    let steps = last_steps(entries);
    lemma_all_hold_chained(steps, entries.len());
    assert forall|i: int| 0 <= i < entries.len() implies (all_hold(#[trigger] steps(i)) <==> {
        &&& first_broken(event_rules(entries[i].1)) is None
        &&& entries[i].1.text_of("stage"@) == Some(entries[i].0)
    }) by {
        let rules = event_rules(entries[i].1);
        let known = (
            "last_by_stage key outside the closed vocabulary"@,
            listed(PEER_FAULT_STAGES@, entries[i].0),
        );
        let same = (
            "last_by_stage entry stage mismatch"@,
            event_tuple(entries[i].1).1 == entries[i].0,
        );
        assert(steps(i) =~= seq![known] + (rules + seq![same]));
        lemma_first_broken(steps(i));
        lemma_first_broken_of_two(seq![known], rules + seq![same]);
        lemma_first_broken_of_two(rules, seq![same]);
        lemma_one_rule(known);
        lemma_one_rule(same);
        lemma_accepted_event(entries[i].1);
    }
    if all_hold(chained(steps, entries.len())) {
        assert forall|i: int| 0 <= i < entries.len() implies first_broken(
            event_rules((#[trigger] entries[i]).1),
        ) is None && entries[i].1.text_of("stage"@) == Some(entries[i].0) by {
            assert(all_hold(steps(i)));
        }
    }
    if forall|i: int|
        0 <= i < entries.len() ==> first_broken(event_rules((#[trigger] entries[i]).1)) is None
            && entries[i].1.text_of("stage"@) == Some(entries[i].0) {
        assert forall|i: int| 0 <= i < entries.len() implies all_hold(#[trigger] steps(i)) by {
            assert(first_broken(event_rules(entries[i].1)) is None);
        }
    }
}

/// The rules of a table hold exactly when those of each section do.
proof fn lemma_sections_hold(table: JsonView)
    ensures
        first_broken(table_rules(table)) is None <==> forall|i: int|
            0 <= i < 11 ==> all_hold(#[trigger] table_sections(table)[i]),
{
    let steps = table_steps(table);
    lemma_first_broken(table_rules(table));
    lemma_all_hold_chained(steps, 11);
    if all_hold(table_rules(table)) {
        assert forall|i: int| 0 <= i < 11 implies all_hold(
            #[trigger] table_sections(table)[i],
        ) by {
            assert(all_hold(steps(i)));
        }
    }
    if forall|i: int| 0 <= i < 11 ==> all_hold(#[trigger] table_sections(table)[i]) {
        assert forall|i: int| 0 <= i < 11 implies all_hold(#[trigger] steps(i)) by {
            assert(all_hold(table_sections(table)[i]));
        }
    }
}

/// What the rules between the sections of a table ask of its members.
proof fn lemma_head_claims(table: JsonView)
    ensures
        all_hold(table_head_rules(table)) <==> {
            &&& table is Object
            &&& table->Object_0.len() == 10
            &&& forall|i: int|
                0 <= i < 10 ==> table.get((#[trigger] PEER_FAULT_SNAPSHOT_KEYS@[i])@) is Some
            &&& u64_at(table, "ingress_count"@) matches Some(ingress) && (u64_at(
                table,
                "owner_count"@,
            ) matches Some(owner) && (u64_at(table, "fault_count"@) matches Some(fault) && ingress
                + owner == fault))
        },
        all_hold(ring_head_rules(table)) <==> {
            &&& count_total(entries_of(at(table, "stage_counts"@))) == u64_at(
                table,
                "fault_count"@,
            )->Some_0
            &&& count_total(entries_of(at(table, "cause_counts"@))) == u64_at(
                table,
                "fault_count"@,
            )->Some_0
            &&& at(table, "recent"@) is Array
            &&& items_of(at(table, "recent"@)).len() <= 32
            &&& items_of(at(table, "recent"@)).len() <= u64_at(table, "fault_count"@)->Some_0
        },
        all_hold(closure_head_rules(table)) <==> {
            &&& count_total(entries_of(at(table, "closure_stage_counts"@))) == count_total(
                entries_of(at(table, "closure_cause_counts"@)),
            )
            &&& at(table, "closures"@) is Array
            &&& items_of(at(table, "closures"@)).len() <= 32
            &&& items_of(at(table, "closures"@)).len() <= count_total(
                entries_of(at(table, "closure_stage_counts"@)),
            )
        },
{
    let head = table_head_rules(table);
    let ring = ring_head_rules(table);
    let closures = closure_head_rules(table);
    assert(head.len() == 6 && ring.len() == 3 && closures.len() == 3);
    if all_hold(head) {
        assert(head[0].1 && head[1].1 && head[2].1 && head[3].1 && head[4].1 && head[5].1);
    }
    if all_hold(ring) {
        assert(ring[0].1 && ring[1].1 && ring[2].1);
    }
    if all_hold(closures) {
        assert(closures[0].1 && closures[1].1 && closures[2].1);
    }
}

proof fn lemma_last_is_object(last: JsonView)
    ensures
        all_hold(seq![("last_by_stage was not an object"@, last is Object)]) == (last is Object),
{
    let rules: Seq<(Seq<char>, bool)> = seq![("last_by_stage was not an object"@, last is Object)];
    if all_hold(rules) {
        assert(rules[0].1);
    }
}

/// A table is accepted exactly when it is an object of the relay's ten members
/// and no other, its counters add up, its rings hold no more than was counted
/// and than the relay retains, and every entry of it is in order.
#[verifier::spinoff_prover]
pub proof fn lemma_accepted_table(table: JsonView)
    ensures
        first_broken(table_rules(table)) is None <==> {
            &&& table is Object
            &&& table->Object_0.len() == 10
            &&& table.get("ingress_count"@) matches Some(JsonView::Number(Some(ingress), _)) && (
            table.get("owner_count"@) matches Some(JsonView::Number(Some(owner), _)) && u64_at(
                table,
                "fault_count"@,
            ) == Some((ingress + owner) as u64) && ingress + owner <= u64::MAX)
            &&& table.get("stage_counts"@) matches Some(JsonView::Object(stages)) && {
                &&& forall|i: int|
                    0 <= i < stages.len() ==> listed(PEER_FAULT_STAGES@, (#[trigger] stages[i]).0)
                        && stages[i].1.as_u64() is Some
                &&& u64_at(table, "fault_count"@) matches Some(fault) && count_total(stages) == fault
            }
            &&& table.get("cause_counts"@) matches Some(JsonView::Object(causes)) && {
                &&& forall|i: int|
                    0 <= i < causes.len() ==> listed(PEER_FAULT_CAUSES@, (#[trigger] causes[i]).0)
                        && causes[i].1.as_u64() is Some
                &&& u64_at(table, "fault_count"@) matches Some(fault) && count_total(causes) == fault
            }
            &&& table.get("recent"@) matches Some(JsonView::Array(recent)) && {
                &&& recent.len() <= 32
                &&& recent.len() <= u64_at(table, "fault_count"@)->Some_0
                &&& forall|i: int|
                    0 <= i < recent.len() ==> first_broken(
                        event_rules(#[trigger] recent[i]),
                    ) is None
                &&& forall|i: int, j: int|
                    0 <= i < j < recent.len() ==> u64_at(
                        #[trigger] recent[i],
                        "sequence"@,
                    )->Some_0 < u64_at(#[trigger] recent[j], "sequence"@)->Some_0
            }
            &&& table.get("closure_stage_counts"@) matches Some(JsonView::Object(stages)) && {
                &&& forall|i: int|
                    0 <= i < stages.len() ==> listed(TASK_CLOSURE_STAGES@, (#[trigger] stages[i]).0)
                        && stages[i].1.as_u64() is Some
                &&& count_total(stages) <= u64::MAX
                &&& table.get("closure_cause_counts"@) matches Some(JsonView::Object(causes)) && {
                    &&& forall|i: int|
                        0 <= i < causes.len() ==> listed(TASK_CLOSURE_CAUSES@, (#[trigger] causes[i]).0)
                            && causes[i].1.as_u64() is Some
                    &&& count_total(causes) == count_total(stages)
                }
                &&& table.get("closures"@) matches Some(JsonView::Array(closures)) && {
                    &&& closures.len() <= 32
                    &&& closures.len() <= count_total(stages)
                    &&& forall|i: int|
                        0 <= i < closures.len() ==> first_broken(
                            closure_rules(#[trigger] closures[i]),
                        ) is None
                    &&& forall|i: int, j: int|
                        0 <= i < j < closures.len() ==> u64_at(
                            #[trigger] closures[i],
                            "sequence"@,
                        )->Some_0 < u64_at(#[trigger] closures[j], "sequence"@)->Some_0
                }
            }
            &&& table.get("last_by_stage"@) matches Some(JsonView::Object(last)) && forall|i: int|
                0 <= i < last.len() ==> first_broken(event_rules((#[trigger] last[i]).1)) is None
                    && last[i].1.text_of("stage"@) == Some(last[i].0)
        },
{
    let sections = table_sections(table);
    let recent = items_of(at(table, "recent"@));
    let closures = items_of(at(table, "closures"@));
    let last = at(table, "last_by_stage"@);
    lemma_sections_hold(table);
    lemma_accepted_counts(
        at(table, "stage_counts"@),
        PEER_FAULT_STAGES@,
        "stage_counts was not an object"@,
        "stage_counts key outside the closed vocabulary"@,
    );
    lemma_accepted_counts(
        at(table, "cause_counts"@),
        PEER_FAULT_CAUSES@,
        "cause_counts was not an object"@,
        "cause_counts key outside the closed vocabulary"@,
    );
    lemma_accepted_counts(
        at(table, "closure_stage_counts"@),
        TASK_CLOSURE_STAGES@,
        "cause_counts was not an object"@,
        "cause_counts key outside the closed vocabulary"@,
    );
    lemma_accepted_counts(
        at(table, "closure_cause_counts"@),
        TASK_CLOSURE_CAUSES@,
        "cause_counts was not an object"@,
        "cause_counts key outside the closed vocabulary"@,
    );
    lemma_accepted_ring(recent);
    lemma_accepted_closures(closures);
    lemma_accepted_last(entries_of(last));
    lemma_head_claims(table);
    lemma_last_is_object(last);
    if forall|i: int| 0 <= i < 11 ==> all_hold(#[trigger] sections[i]) {
        assert(all_hold(sections[0]) && all_hold(sections[1]) && all_hold(sections[2]) && all_hold(
            sections[3],
        ) && all_hold(sections[4]) && all_hold(sections[5]) && all_hold(sections[6]) && all_hold(
            sections[7],
        ) && all_hold(sections[8]) && all_hold(sections[9]) && all_hold(sections[10]));
    }
}

/// What an accepted table names, by its members: each entry of its ring of
/// recent faults and each of its last faults gives its role, stage and cause,
/// and nothing else is named.
pub proof fn lemma_table_names_its_faults(table: JsonView)
    requires
        first_broken(table_rules(table)) is None,
    ensures
        table.get("recent"@) matches Some(JsonView::Array(recent)) && (table.get(
            "last_by_stage"@,
        ) matches Some(JsonView::Object(last)) && {
            &&& forall|i: int|
                0 <= i < recent.len() ==> table_tuples(table).contains(
                    (
                        (#[trigger] recent[i]).text_of("role"@)->Some_0,
                        recent[i].text_of("stage"@)->Some_0,
                        recent[i].text_of("cause"@)->Some_0,
                    ),
                )
            &&& forall|i: int|
                0 <= i < last.len() ==> table_tuples(table).contains(
                    (
                        (#[trigger] last[i]).1.text_of("role"@)->Some_0,
                        last[i].0,
                        last[i].1.text_of("cause"@)->Some_0,
                    ),
                )
            &&& forall|tuple: TupleKey| #[trigger]
                table_tuples(table).contains(tuple) ==> {
                    ||| exists|i: int|
                        0 <= i < recent.len() && (#[trigger] recent[i]).text_of("role"@) == Some(
                            tuple.0,
                        ) && recent[i].text_of("stage"@) == Some(tuple.1) && recent[i].text_of(
                            "cause"@,
                        ) == Some(tuple.2)
                    ||| exists|i: int|
                        0 <= i < last.len() && (#[trigger] last[i]).1.text_of("role"@) == Some(
                            tuple.0,
                        ) && last[i].1.text_of("stage"@) == Some(tuple.1) && last[i].1.text_of(
                            "cause"@,
                        ) == Some(tuple.2)
                }
        }),
{
    lemma_accepted_table(table);
    let recent = table.get("recent"@)->Some_0->Array_0;
    let last = table.get("last_by_stage"@)->Some_0->Object_0;
    let of = |event: JsonView| event_tuple(event);
    let values = entry_values(last);
    assert forall|i: int| 0 <= i < recent.len() implies table_tuples(table).contains(
        (
            (#[trigger] recent[i]).text_of("role"@)->Some_0,
            recent[i].text_of("stage"@)->Some_0,
            recent[i].text_of("cause"@)->Some_0,
        ),
    ) by {
        assert(recent.map_values(of)[i] == event_tuple(recent[i]));
        assert(event_tuples(recent).contains(event_tuple(recent[i])));
    }
    assert forall|i: int| 0 <= i < last.len() implies table_tuples(table).contains(
        (
            (#[trigger] last[i]).1.text_of("role"@)->Some_0,
            last[i].0,
            last[i].1.text_of("cause"@)->Some_0,
        ),
    ) by {
        assert(values[i] == last[i].1);
        assert(values.map_values(of)[i] == event_tuple(last[i].1));
        assert(event_tuples(values).contains(event_tuple(last[i].1)));
    }
    assert forall|tuple: TupleKey| #[trigger] table_tuples(table).contains(tuple) implies {
        ||| exists|i: int|
            0 <= i < recent.len() && (#[trigger] recent[i]).text_of("role"@) == Some(tuple.0)
                && recent[i].text_of("stage"@) == Some(tuple.1) && recent[i].text_of("cause"@)
                == Some(tuple.2)
        ||| exists|i: int|
            0 <= i < last.len() && (#[trigger] last[i]).1.text_of("role"@) == Some(tuple.0)
                && last[i].1.text_of("stage"@) == Some(tuple.1) && last[i].1.text_of("cause"@)
                == Some(tuple.2)
    } by {
        if event_tuples(recent).contains(tuple) {
            let i = choose|i: int| 0 <= i < recent.len() && recent.map_values(of)[i] == tuple;
            assert(event_tuple(recent[i]) == tuple);
            lemma_accepted_event(recent[i]);
        } else {
            let i = choose|i: int| 0 <= i < values.len() && values.map_values(of)[i] == tuple;
            assert(event_tuple(last[i].1) == tuple);
            lemma_accepted_event(last[i].1);
        }
    }
}

/// Section `i` of the table was read, all before it in order: what it names
/// is what the table names, and otherwise one more section is in order.
proof fn lemma_section(table: JsonView, i: nat)
    requires
        i < 11,
        first_broken(chained(table_steps(table), i)) is None,
    ensures
        first_broken(table_sections(table)[i as int]) is None ==> first_broken(
            chained(table_steps(table), i + 1),
        ) is None,
        first_broken(table_sections(table)[i as int]) is Some ==> first_broken(table_rules(table))
            == first_broken(table_sections(table)[i as int]),
{
    let steps = table_steps(table);
    lemma_chained_step(steps, i);
    if first_broken(steps(i as int)) is Some {
        lemma_chained_broken(steps, i + 1, 11);
    }
}

fn read_table_head(table: &Json) -> (result: Result<u64, &'static str>)
    ensures
        match result {
            Ok(fault) => first_broken(table_head_rules(table@)) is None && u64_at(
                table@,
                "fault_count"@,
            ) == Some(fault),
            Err(reason) => first_broken(table_head_rules(table@)) == Some(reason@),
        },
{
    let object = match table {
        Json::Object(_) => true,
        _ => false,
    };
    let fault = find_u64(table, "fault_count");
    let ingress = find_u64(table, "ingress_count");
    let owner = find_u64(table, "owner_count");
    let mut audit = Audit::new(Ghost(table_head_rules(table@)));
    audit.hold("table was not an object", object);
    audit.hold(
        "table keys differ from the relay schema",
        find_exact_keys(table, PEER_FAULT_SNAPSHOT_KEYS.as_slice()),
    );
    audit.hold("role counter was not a u64", fault.is_some());
    audit.hold("role counter was not a u64", ingress.is_some());
    audit.hold("role counter was not a u64", owner.is_some());
    let sums = match (fault, ingress, owner) {
        (Some(fault), Some(ingress), Some(owner)) => match ingress.checked_add(owner) {
            Some(sum) => sum == fault,
            None => false,
        },
        _ => false,
    };
    audit.hold("role counters do not sum to fault_count", sums);
    match audit.broken() {
        Some(reason) => Err(reason),
        None => {
            assert(table_head_rules(table@)[2].1);
            Ok(
                match fault {
                    Some(fault) => fault,
                    None => 0,
                },
            )
        },
    }
}

fn array_of<'a>(table: &'a Json, key: &str) -> (items: Option<&'a Vec<Json>>)
    ensures
        match items {
            Some(items) => at(table@, key@) is Array && items.len() == items_of(
                at(table@, key@),
            ).len() && (forall|i: int|
                0 <= i < items.len() ==> #[trigger] items@[i]@ == items_of(at(table@, key@))[i]),
            None => at(table@, key@) !is Array,
        },
{
    match table.get(key) {
        Some(value) => match value {
            Json::Array(items) => Some(items),
            _ => None,
        },
        None => None,
    }
}

fn object_of<'a>(table: &'a Json, key: &str) -> (entries: Option<&'a Vec<JsonEntry>>)
    ensures
        match entries {
            Some(entries) => at(table@, key@) is Object && entries.len() == entries_of(
                at(table@, key@),
            ).len() && (forall|i: int|
                0 <= i < entries.len() ==> ((#[trigger] entries@[i]).key@, entries@[i].value@)
                    == entries_of(at(table@, key@))[i]),
            None => at(table@, key@) !is Object,
        },
{
    match table.get(key) {
        Some(value) => match value {
            Json::Object(entries) => Some(entries),
            _ => None,
        },
        None => None,
    }
}

fn read_counts_at(
    table: &Json,
    key: &str,
    words: &[&'static str],
    not_object: &'static str,
    bad_key: &'static str,
) -> (result: Result<u64, &'static str>)
    ensures
        match result {
            Ok(total) => first_broken(
                count_rules(at(table@, key@), words@, not_object@, bad_key@),
            ) is None && total == count_total(entries_of(at(table@, key@))),
            Err(reason) => first_broken(
                count_rules(at(table@, key@), words@, not_object@, bad_key@),
            ) == Some(reason@),
        },
{
    match table.get(key) {
        Some(value) => read_counts(value, words, not_object, bad_key),
        None => read_counts(&Json::Null, words, not_object, bad_key),
    }
}

fn read_ring_head(table: &Json, fault: u64, stages: u64, causes: u64) -> (result: Result<
    &Vec<Json>,
    &'static str,
>)
    requires
        u64_at(table@, "fault_count"@) == Some(fault),
        stages == count_total(entries_of(at(table@, "stage_counts"@))),
        causes == count_total(entries_of(at(table@, "cause_counts"@))),
    ensures
        match result {
            Ok(items) => first_broken(ring_head_rules(table@)) is None && items.len() == items_of(
                at(table@, "recent"@),
            ).len() && (forall|i: int|
                0 <= i < items.len() ==> #[trigger] items@[i]@ == items_of(
                    at(table@, "recent"@),
                )[i]),
            Err(reason) => first_broken(ring_head_rules(table@)) == Some(reason@),
        },
{
    let recent = array_of(table, "recent");
    let length: usize = match recent {
        Some(items) => items.len(),
        None => 0,
    };
    let mut audit = Audit::new(Ghost(ring_head_rules(table@)));
    audit.hold(
        "stage or cause counters do not sum to fault_count",
        stages == fault && causes == fault,
    );
    audit.hold("recent was not an array", recent.is_some());
    audit.hold(
        "recent ring exceeds the relay bound",
        length <= MAX_PEER_FAULT_RECENT && length as u64 <= fault,
    );
    match audit.broken() {
        Some(reason) => Err(reason),
        None => {
            assert(ring_head_rules(table@)[1].1);
            match recent {
                Some(items) => Ok(items),
                None => Err("recent was not an array"),
            }
        },
    }
}

fn read_closure_head(table: &Json, stages: u64, causes: u64) -> (result: Result<
    &Vec<Json>,
    &'static str,
>)
    requires
        stages == count_total(entries_of(at(table@, "closure_stage_counts"@))),
        causes == count_total(entries_of(at(table@, "closure_cause_counts"@))),
    ensures
        match result {
            Ok(items) => first_broken(closure_head_rules(table@)) is None && items.len()
                == items_of(at(table@, "closures"@)).len() && (forall|i: int|
                0 <= i < items.len() ==> #[trigger] items@[i]@ == items_of(
                    at(table@, "closures"@),
                )[i]),
            Err(reason) => first_broken(closure_head_rules(table@)) == Some(reason@),
        },
{
    let closures = array_of(table, "closures");
    let length: usize = match closures {
        Some(items) => items.len(),
        None => 0,
    };
    let mut audit = Audit::new(Ghost(closure_head_rules(table@)));
    audit.hold("closure stage and cause counters disagree", stages == causes);
    audit.hold("closures was not an array", closures.is_some());
    audit.hold(
        "closure ring exceeds the relay bound",
        length <= MAX_TASK_CLOSURE_RECENT && length as u64 <= stages,
    );
    match audit.broken() {
        Some(reason) => Err(reason),
        None => {
            assert(closure_head_rules(table@)[1].1);
            match closures {
                Some(items) => Ok(items),
                None => Err("closures was not an array"),
            }
        },
    }
}

/// The fault half of the table: what it names, or its first broken rule.
fn read_faults(table: &Json) -> (result: Result<OrderedSet<PeerFaultTuple>, &'static str>)
    ensures
        match result {
            Ok(tuples) => first_broken(chained(table_steps(table@), 5)) is None && tuples.wf()
                && tuples@ == event_tuples(items_of(at(table@, "recent"@))) && (forall|
                tuple: TupleKey,
            | #[trigger]
                tuples@.contains(tuple) ==> tuple_is_closed(tuple)),
            Err(reason) => first_broken(table_rules(table@)) == Some(reason@),
        },
{
    proof {
        lemma_section(table@, 0);
    }
    let fault: u64 = match read_table_head(table) {
        Ok(fault) => fault,
        Err(reason) => {
            return Err(reason);
        },
    };
    proof {
        lemma_section(table@, 1);
    }
    let stages: u64 = match read_counts_at(
        table,
        "stage_counts",
        PEER_FAULT_STAGES.as_slice(),
        "stage_counts was not an object",
        "stage_counts key outside the closed vocabulary",
    ) {
        Ok(total) => total,
        Err(reason) => {
            return Err(reason);
        },
    };
    proof {
        lemma_section(table@, 2);
    }
    let causes: u64 = match read_counts_at(
        table,
        "cause_counts",
        PEER_FAULT_CAUSES.as_slice(),
        "cause_counts was not an object",
        "cause_counts key outside the closed vocabulary",
    ) {
        Ok(total) => total,
        Err(reason) => {
            return Err(reason);
        },
    };
    proof {
        lemma_section(table@, 3);
    }
    let recent = match read_ring_head(table, fault, stages, causes) {
        Ok(recent) => recent,
        Err(reason) => {
            return Err(reason);
        },
    };
    proof {
        lemma_section(table@, 4);
    }
    read_ring(recent, Ghost(items_of(at(table@, "recent"@))))
}

/// The closure sections of the table: their first broken rule, if any.
fn read_closure_sections(table: &Json) -> (broken: Option<&'static str>)
    requires
        first_broken(chained(table_steps(table@), 5)) is None,
    ensures
        match broken {
            None => first_broken(chained(table_steps(table@), 9)) is None,
            Some(reason) => first_broken(table_rules(table@)) == Some(reason@),
        },
{
    proof {
        lemma_section(table@, 5);
    }
    let stages: u64 = match read_counts_at(
        table,
        "closure_stage_counts",
        TASK_CLOSURE_STAGES.as_slice(),
        "cause_counts was not an object",
        "cause_counts key outside the closed vocabulary",
    ) {
        Ok(total) => total,
        Err(reason) => {
            return Some(reason);
        },
    };
    proof {
        lemma_section(table@, 6);
    }
    let causes: u64 = match read_counts_at(
        table,
        "closure_cause_counts",
        TASK_CLOSURE_CAUSES.as_slice(),
        "cause_counts was not an object",
        "cause_counts key outside the closed vocabulary",
    ) {
        Ok(total) => total,
        Err(reason) => {
            return Some(reason);
        },
    };
    proof {
        lemma_section(table@, 7);
    }
    let closures = match read_closure_head(table, stages, causes) {
        Ok(closures) => closures,
        Err(reason) => {
            return Some(reason);
        },
    };
    proof {
        lemma_section(table@, 8);
    }
    read_closures(closures, Ghost(items_of(at(table@, "closures"@))))
}

/// Reads a peer fault table: the tuples it names.
pub fn validate_peer_fault_table(table: &Json) -> (result: Result<
    OrderedSet<PeerFaultTuple>,
    ScanFailure,
>)
    ensures
        match result {
            Ok(tuples) => first_broken(table_rules(table@)) is None && tuples.wf() && tuples@
                == table_tuples(table@) && (forall|tuple: TupleKey| #[trigger]
                tuples@.contains(tuple) ==> tuple_is_closed(tuple)),
            Err(failure) => failure@ is InvalidPeerFault && first_broken(table_rules(table@))
                == Some(failure@->InvalidPeerFault_0),
        },
        result matches Ok(tuples) ==> (table@.get("recent"@) matches Some(JsonView::Array(recent))
            && forall|i: int|
            0 <= i < recent.len() ==> tuples@.contains(
                (
                    (#[trigger] recent[i]).text_of("role"@)->Some_0,
                    recent[i].text_of("stage"@)->Some_0,
                    recent[i].text_of("cause"@)->Some_0,
                ),
            )),
        result matches Ok(tuples) ==> (table@.get("last_by_stage"@) matches Some(
            JsonView::Object(last),
        ) && forall|i: int|
            0 <= i < last.len() ==> tuples@.contains(
                (
                    (#[trigger] last[i]).1.text_of("role"@)->Some_0,
                    last[i].0,
                    last[i].1.text_of("cause"@)->Some_0,
                ),
            )),
{
    let mut tuples = match read_faults(table) {
        Ok(tuples) => tuples,
        Err(reason) => {
            return Err(ScanFailure::InvalidPeerFault { reason });
        },
    };
    match read_closure_sections(table) {
        Some(reason) => {
            return Err(ScanFailure::InvalidPeerFault { reason });
        },
        None => {},
    }
    proof {
        lemma_section(table@, 9);
        lemma_one_rule(
            ("last_by_stage was not an object"@, at(table@, "last_by_stage"@) is Object),
        );
    }
    let last = match object_of(table, "last_by_stage") {
        Some(last) => last,
        None => {
            return Err(
                ScanFailure::InvalidPeerFault { reason: "last_by_stage was not an object" },
            );
        },
    };
    proof {
        lemma_section(table@, 10);
    }
    match read_last(last, Ghost(entries_of(at(table@, "last_by_stage"@))), &mut tuples) {
        Some(reason) => Err(ScanFailure::InvalidPeerFault { reason }),
        None => {
            proof {
                lemma_table_names_its_faults(table@);
            }
            Ok(tuples)
        },
    }
}

/// The table of a relay snapshot frame.
pub open spec fn frame_table(document: Option<JsonView>) -> JsonView {
    at(document->Some_0, "peer_fault_diagnostics"@)
}

/// What one frame of a relay snapshot must be: a document that carries a
/// valid peer fault table.
pub open spec fn frame_rules(document: Option<JsonView>) -> Seq<(Seq<char>, bool)> {
    seq![
        ("relay snapshot frame was not a JSON document"@, document is Some),
        (
            "relay snapshot omitted peer_fault_diagnostics"@,
            document is Some && document->Some_0.get("peer_fault_diagnostics"@) is Some,
        ),
    ] + table_rules(frame_table(document))
}

/// The rules of each frame.
pub open spec fn frame_steps(documents: Seq<Option<JsonView>>) -> spec_fn(int) -> Seq<
    (Seq<char>, bool),
> {
    |i: int| frame_rules(documents[i])
}

/// What the frames of a relay snapshot must be, in order.
pub open spec fn snapshot_rules(documents: Seq<Option<JsonView>>) -> Seq<(Seq<char>, bool)> {
    chained(frame_steps(documents), documents.len())
}

/// The tuples that the frames of a relay snapshot name.
pub open spec fn snapshot_tuples(documents: Seq<Option<JsonView>>) -> Set<TupleKey>
    decreases documents.len(),
{
    if documents.len() == 0 {
        Set::empty()
    } else {
        snapshot_tuples(documents.drop_last()).union(table_tuples(frame_table(documents.last())))
    }
}

/// A tuple is named by the frames exactly when one of them names it.
pub proof fn lemma_snapshot_tuples(documents: Seq<Option<JsonView>>, tuple: TupleKey)
    ensures
        snapshot_tuples(documents).contains(tuple) <==> exists|i: int|
            0 <= i < documents.len() && table_tuples(
                frame_table(#[trigger] documents[i]),
            ).contains(tuple),
    decreases documents.len(),
{
    if documents.len() > 0 {
        let front = documents.drop_last();
        lemma_snapshot_tuples(front, tuple);
        if snapshot_tuples(front).contains(tuple) {
            let i = choose|i: int|
                0 <= i < front.len() && table_tuples(frame_table(#[trigger] front[i])).contains(
                    tuple,
                );
            assert(documents[i] == front[i]);
        }
        if exists|i: int|
            0 <= i < documents.len() && table_tuples(
                frame_table(#[trigger] documents[i]),
            ).contains(tuple) {
            let i = choose|i: int|
                0 <= i < documents.len() && table_tuples(
                    frame_table(#[trigger] documents[i]),
                ).contains(tuple);
            if i < front.len() {
                assert(front[i] == documents[i]);
            }
        }
        if table_tuples(frame_table(documents.last())).contains(tuple) {
            assert(documents[documents.len() - 1] == documents.last());
        }
    }
}

/// An accepted snapshot is one whose every frame is a document with an accepted
/// table in it.
pub proof fn lemma_accepted_snapshot(documents: Seq<Option<JsonView>>)
    ensures
        first_broken(snapshot_rules(documents)) is None <==> forall|i: int|
            0 <= i < documents.len() ==> ((#[trigger] documents[i]) matches Some(document) && (
            document.get("peer_fault_diagnostics"@) matches Some(table) && first_broken(
                table_rules(table),
            ) is None)),
{
    let steps = frame_steps(documents);
    lemma_first_broken(snapshot_rules(documents));
    lemma_all_hold_chained(steps, documents.len());
    assert forall|i: int| 0 <= i < documents.len() implies (all_hold(#[trigger] steps(i)) <==> (
    documents[i] matches Some(document) && (document.get("peer_fault_diagnostics"@) matches Some(
        table,
    ) && first_broken(table_rules(table)) is None))) by {
        let document = documents[i];
        let head: Seq<(Seq<char>, bool)> = seq![
            ("relay snapshot frame was not a JSON document"@, document is Some),
            (
                "relay snapshot omitted peer_fault_diagnostics"@,
                document is Some && document->Some_0.get("peer_fault_diagnostics"@) is Some,
            ),
        ];
        assert(steps(i) == head + table_rules(frame_table(document)));
        lemma_first_broken_of_two(head, table_rules(frame_table(document)));
        lemma_first_broken(steps(i));
        lemma_first_broken(head);
        if all_hold(head) {
            assert(head[0].1 && head[1].1);
        }
    }
    if all_hold(snapshot_rules(documents)) {
        assert forall|i: int| 0 <= i < documents.len() implies ((#[trigger] documents[i]) matches Some(
            document,
        ) && (document.get("peer_fault_diagnostics"@) matches Some(table) && first_broken(
            table_rules(table),
        ) is None)) by {
            assert(all_hold(steps(i)));
        }
    }
    if forall|i: int|
        0 <= i < documents.len() ==> ((#[trigger] documents[i]) matches Some(document) && (
        document.get("peer_fault_diagnostics"@) matches Some(table) && first_broken(
            table_rules(table),
        ) is None)) {
        assert forall|i: int| 0 <= i < documents.len() implies all_hold(#[trigger] steps(i)) by {
            let document = documents[i];
        }
    }
}

/// No recent fault of any frame of an accepted snapshot goes unnamed.
pub proof fn lemma_snapshot_names_recent_faults(
    documents: Seq<Option<JsonView>>,
    frame: int,
    recent: Seq<JsonView>,
    i: int,
)
    requires
        first_broken(snapshot_rules(documents)) is None,
        0 <= frame < documents.len(),
        documents[frame] matches Some(document) && (document.get(
            "peer_fault_diagnostics"@,
        ) matches Some(table) && table.get("recent"@) == Some(JsonView::Array(recent))),
        0 <= i < recent.len(),
    ensures
        snapshot_tuples(documents).contains(
            (
                recent[i].text_of("role"@)->Some_0,
                recent[i].text_of("stage"@)->Some_0,
                recent[i].text_of("cause"@)->Some_0,
            ),
        ),
{
    let table = frame_table(documents[frame]);
    let tuple = (
        recent[i].text_of("role"@)->Some_0,
        recent[i].text_of("stage"@)->Some_0,
        recent[i].text_of("cause"@)->Some_0,
    );
    lemma_accepted_snapshot(documents);
    lemma_table_names_its_faults(table);
    assert(table_tuples(frame_table(documents[frame])).contains(tuple));
    lemma_snapshot_tuples(documents, tuple);
}

/// No last fault of any frame of an accepted snapshot goes unnamed.
pub proof fn lemma_snapshot_names_last_faults(
    documents: Seq<Option<JsonView>>,
    frame: int,
    last: Seq<(Seq<char>, JsonView)>,
    i: int,
)
    requires
        first_broken(snapshot_rules(documents)) is None,
        0 <= frame < documents.len(),
        documents[frame] matches Some(document) && (document.get(
            "peer_fault_diagnostics"@,
        ) matches Some(table) && table.get("last_by_stage"@) == Some(JsonView::Object(last))),
        0 <= i < last.len(),
    ensures
        snapshot_tuples(documents).contains(
            (
                last[i].1.text_of("role"@)->Some_0,
                last[i].0,
                last[i].1.text_of("cause"@)->Some_0,
            ),
        ),
{
    let table = frame_table(documents[frame]);
    let tuple = (
        last[i].1.text_of("role"@)->Some_0,
        last[i].0,
        last[i].1.text_of("cause"@)->Some_0,
    );
    lemma_accepted_snapshot(documents);
    lemma_table_names_its_faults(table);
    assert(table_tuples(frame_table(documents[frame])).contains(tuple));
    lemma_snapshot_tuples(documents, tuple);
}

/// Adds the items of `more` to `set`.
pub fn extend_tuples(set: &mut OrderedSet<PeerFaultTuple>, more: &OrderedSet<PeerFaultTuple>)
    requires
        old(set).wf(),
        more.wf(),
    ensures
        final(set).wf(),
        final(set)@ == old(set)@.union(more@),
{
    let ghost first = set@;
    let mut i: usize = 0;
    assert(more.keys().take(0).to_set() =~= Set::<TupleKey>::empty());
    assert(first.union(more.keys().take(0).to_set()) =~= first);
    while i < more.len()
        invariant
            i <= more.keys().len(),
            set.wf(),
            set@ == first.union(more.keys().take(i as int).to_set()),
        decreases more.keys().len() - i,
    {
        let item = more.at(i);
        let copy = PeerFaultTuple {
            role: item.role.clone(),
            stage: item.stage.clone(),
            cause: item.cause.clone(),
        };
        set.insert(copy);
        proof {
            let keys = more.keys();
            assert(keys.take(i + 1) =~= keys.take(i as int).push(keys[i as int]));
            keys.take(i as int).lemma_push_to_set_commute(keys[i as int]);
            assert(set@ =~= first.union(keys.take(i + 1).to_set()));
        }
        i += 1;
    }
    assert(more.keys().take(i as int) =~= more.keys());
}

/// Reads the parsed frames of a relay snapshot: the tuples they name.
pub fn scan_frames(documents: &Vec<Option<Json>>) -> (result: Result<
    OrderedSet<PeerFaultTuple>,
    ScanFailure,
>)
    ensures
        match result {
            Ok(tuples) => first_broken(snapshot_rules(document_views(documents@))) is None
                && tuples.wf() && tuples@ == snapshot_tuples(document_views(documents@)) && (
            forall|tuple: TupleKey| #[trigger]
                tuples@.contains(tuple) ==> tuple_is_closed(tuple)),
            Err(failure) => failure@ is InvalidPeerFault && first_broken(
                snapshot_rules(document_views(documents@)),
            ) == Some(failure@->InvalidPeerFault_0),
        },
{
    let ghost all = document_views(documents@);
    let ghost steps = frame_steps(all);
    let mut tuples: OrderedSet<PeerFaultTuple> = OrderedSet::new();
    let mut i: usize = 0;
    assert(all.take(0) =~= Seq::<Option<JsonView>>::empty());
    while i < documents.len()
        invariant
            i <= documents.len(),
            all == document_views(documents@),
            steps == frame_steps(all),
            first_broken(chained(steps, i as nat)) is None,
            tuples.wf(),
            tuples@ == snapshot_tuples(all.take(i as int)),
            forall|tuple: TupleKey| #[trigger] tuples@.contains(tuple) ==> tuple_is_closed(tuple),
        decreases documents.len() - i,
    {
        let ghost document = all[i as int];
        let ghost head: Seq<(Seq<char>, bool)> = seq![
            ("relay snapshot frame was not a JSON document"@, document is Some),
            (
                "relay snapshot omitted peer_fault_diagnostics"@,
                document is Some && document->Some_0.get("peer_fault_diagnostics"@) is Some,
            ),
        ];
        let table: Option<&Json> = match &documents[i] {
            Some(json) => json.get("peer_fault_diagnostics"),
            None => None,
        };
        let mut audit = Audit::new(Ghost(head));
        audit.hold("relay snapshot frame was not a JSON document", documents[i].is_some());
        audit.hold("relay snapshot omitted peer_fault_diagnostics", table.is_some());
        proof {
            assert(steps(i as int) == head + table_rules(frame_table(document)));
            lemma_first_broken_of_two(head, table_rules(frame_table(document)));
            lemma_chained_step(steps, i as nat);
            if first_broken(steps(i as int)) is Some {
                lemma_chained_broken(steps, (i + 1) as nat, all.len());
            }
        }
        match audit.broken() {
            Some(reason) => {
                return Err(ScanFailure::InvalidPeerFault { reason });
            },
            None => {
                assert(head[1].1);
            },
        }
        match table {
            Some(table) => match validate_peer_fault_table(table) {
                Ok(found) => {
                    extend_tuples(&mut tuples, &found);
                },
                Err(failure) => {
                    return Err(failure);
                },
            },
            None => {},
        }
        proof {
            assert(all.take(i + 1).drop_last() =~= all.take(i as int));
            assert(all.take(i + 1).last() == document);
        }
        i += 1;
    }
    assert(all.take(i as int) =~= all);
    Ok(tuples)
}

/// Parses every typed relay snapshot frame in `bytes` and returns the exact
/// peer fault tuples they carry.
pub fn scan_peer_faults(bytes: &[u8]) -> (result: Result<OrderedSet<PeerFaultTuple>, ScanFailure>)
    ensures
        match result {
            Ok(tuples) => first_broken(snapshot_rules(json_documents(bytes@))) is None
                && tuples.wf() && tuples@ == snapshot_tuples(json_documents(bytes@)) && (forall|
                tuple: TupleKey,
            | #[trigger]
                tuples@.contains(tuple) ==> tuple_is_closed(tuple)),
            Err(failure) => failure@ is InvalidPeerFault && first_broken(
                snapshot_rules(json_documents(bytes@)),
            ) == Some(failure@->InvalidPeerFault_0),
        },
{
    let documents = parse_documents(bytes);
    scan_frames(&documents)
}

/// A character of an ASCII letter or digit.
pub open spec fn is_letter_or_digit(c: char) -> bool {
    ||| 'a' <= c <= 'z'
    ||| 'A' <= c <= 'Z'
    ||| '0' <= c <= '9'
}

/// A bounded identifier is one to a hundred and twenty-eight characters, each
/// an ASCII letter, a digit, a dot, an underscore or a hyphen.
pub proof fn lemma_token_characters(text: Seq<char>)
    ensures
        is_token(text) <==> 1 <= text.len() <= 128 && forall|i: int|
            0 <= i < text.len() ==> is_letter_or_digit(#[trigger] text[i]) || text[i] == '.'
                || text[i] == '_' || text[i] == '-',
{
    let bytes = encode_utf8(text);
    if is_token(text) {
        assert forall|i: int| 0 <= i < bytes.len() implies #[trigger] bytes[i] < 0x80 by {
            assert(is_token_byte(bytes[i]));
        }
        lemma_ascii_bytes(text);
        assert forall|i: int| 0 <= i < text.len() implies is_letter_or_digit(#[trigger] text[i])
            || text[i] == '.' || text[i] == '_' || text[i] == '-' by {
            assert(text[i] as u8 == bytes[i]);
            assert(is_token_byte(bytes[i]));
        }
    }
    if 1 <= text.len() <= 128 && forall|i: int|
        0 <= i < text.len() ==> is_letter_or_digit(#[trigger] text[i]) || text[i] == '.' || text[i]
            == '_' || text[i] == '-' {
        assert(is_ascii_chars(text));
        is_ascii_chars_encode_utf8(text);
        assert forall|i: int| 0 <= i < bytes.len() implies is_token_byte(#[trigger] bytes[i]) by {
            assert(text[i] as u8 == bytes[i]);
        }
    }
}

/// A hexadecimal digit, as a character.
pub open spec fn is_hex_character(c: char) -> bool {
    ||| 'a' <= c <= 'f'
    ||| 'A' <= c <= 'F'
    ||| '0' <= c <= '9'
}

/// A UUID in print is thirty-six characters: hyphens at its four places and
/// hexadecimal digits at all others.
pub proof fn lemma_uuid_characters(text: Seq<char>)
    ensures
        is_uuid(text) <==> text.len() == 36 && text[8] == '-' && text[13] == '-' && text[18] == '-'
            && text[23] == '-' && forall|i: int|
            0 <= i < 36 && i != 8 && i != 13 && i != 18 && i != 23 ==> is_hex_character(
                #[trigger] text[i],
            ),
{
    let bytes = encode_utf8(text);
    if is_uuid(text) {
        assert forall|i: int| 0 <= i < bytes.len() implies #[trigger] bytes[i] < 0x80 by {}
        lemma_ascii_bytes(text);
        assert(text[8] as u8 == bytes[8] && text[13] as u8 == bytes[13] && text[18] as u8
            == bytes[18] && text[23] as u8 == bytes[23]);
        assert forall|i: int| 0 <= i < 36 && i != 8 && i != 13 && i != 18 && i
            != 23 implies is_hex_character(#[trigger] text[i]) by {
            assert(text[i] as u8 == bytes[i]);
            assert(is_hex_digit(bytes[i]));
        }
    }
    if text.len() == 36 && text[8] == '-' && text[13] == '-' && text[18] == '-' && text[23] == '-'
        && forall|i: int|
        0 <= i < 36 && i != 8 && i != 13 && i != 18 && i != 23 ==> is_hex_character(
            #[trigger] text[i],
        ) {
        assert forall|i: int| 0 <= i < text.len() implies '\0' <= #[trigger] text[i]
            <= '\u{7f}' by {
            if i != 8 && i != 13 && i != 18 && i != 23 {
                assert(is_hex_character(text[i]));
            }
        }
        is_ascii_chars_encode_utf8(text);
        assert forall|i: int| 0 <= i < 36 implies if i == 8 || i == 13 || i == 18 || i == 23 {
            #[trigger] bytes[i] == 0x2d
        } else {
            is_hex_digit(bytes[i])
        } by {
            assert(text[i] as u8 == bytes[i]);
            if i != 8 && i != 13 && i != 18 && i != 23 {
                assert(is_hex_character(text[i]));
            }
        }
    }
}

/// What is named of a refused fault entry is wrong with it, each rule in its own
/// words.
pub proof fn lemma_refused_event(event: JsonView)
    ensures
        first_broken(event_rules(event)) == Some("event was not an object"@) ==> !(event is Object),
        first_broken(event_rules(event)) == Some("event keys differ from the relay schema"@) ==> !(has_exact_keys(event, PEER_FAULT_EVENT_KEYS@)),
        first_broken(event_rules(event)) == Some("event sequence was not a u64"@) ==> !(u64_at(event, "sequence"@) is Some),
        first_broken(event_rules(event)) == Some("event sequence was zero"@) ==> !(u64_at(event, "sequence"@) != Some(0u64)),
        first_broken(event_rules(event)) == Some("event timestamp was not a u64"@) ==> !(u64_at(event, "observed_at_ms"@) is Some),
        first_broken(event_rules(event)) == Some("event role was not a string"@) ==> !(event.text_of("role"@) is Some),
        first_broken(event_rules(event)) == Some("event stage was not a string"@) ==> !(event.text_of("stage"@) is Some),
        first_broken(event_rules(event)) == Some("event cause was not a string"@) ==> !(event.text_of("cause"@) is Some),
        first_broken(event_rules(event)) == Some("role outside the closed vocabulary"@) ==> !(listed_at(event, "role"@, PEER_FAULT_ROLES@)),
        first_broken(event_rules(event)) == Some("stage outside the closed vocabulary"@) ==> !(listed_at(event, "stage"@, PEER_FAULT_STAGES@)),
        first_broken(event_rules(event)) == Some("cause outside the closed vocabulary"@) ==> !(listed_at(event, "cause"@, PEER_FAULT_CAUSES@)),
        first_broken(event_rules(event)) == Some("tenant_id was not a string"@) ==> !(event.text_of("tenant_id"@) is Some),
        first_broken(event_rules(event)) == Some("tenant_id was not a uuid"@) ==> !(uuid_at(event, "tenant_id"@)),
        first_broken(event_rules(event)) == Some("device_id was not a string"@) ==> !(event.text_of("device_id"@) is Some),
        first_broken(event_rules(event)) == Some("device_id was not a uuid"@) ==> !(uuid_at(event, "device_id"@)),
        first_broken(event_rules(event)) == Some("session_id was not a string"@) ==> !(null_at(event, "session_id"@) || event.text_of("session_id"@) is Some),
        first_broken(event_rules(event)) == Some("session_id was not a bounded identifier"@) ==> !(null_at(event, "session_id"@) || token_at(event, "session_id"@)),
        first_broken(event_rules(event)) == Some("owner_epoch was not a u64"@) ==> !(null_at(event, "owner_epoch"@) || u64_at(event, "owner_epoch"@) is Some),
        first_broken(event_rules(event)) == Some("owner_node_id was not a string"@) ==> !(null_at(event, "owner_node_id"@) || event.text_of("owner_node_id"@) is Some),
        first_broken(event_rules(event)) == Some("owner_node_id was not a bounded identifier"@) ==> !(null_at(event, "owner_node_id"@) || token_at(event, "owner_node_id"@)),
        first_broken(event_rules(event)) == Some("service_id was not a string"@) ==> !(null_at(event, "service_id"@) || event.text_of("service_id"@) is Some),
        first_broken(event_rules(event)) == Some("service_id was not a uuid"@) ==> !(null_at(event, "service_id"@) || uuid_at(event, "service_id"@)),
        first_broken(event_rules(event)) == Some("request_id was not a string"@) ==> !(null_at(event, "request_id"@) || event.text_of("request_id"@) is Some),
        first_broken(event_rules(event)) == Some("request_id was not a bounded identifier"@) ==> !(null_at(event, "request_id"@) || token_at(event, "request_id"@)),
        first_broken(event_rules(event)) matches Some(claim) ==> {
            ||| claim == "event was not an object"@
            ||| claim == "event keys differ from the relay schema"@
            ||| claim == "event sequence was not a u64"@
            ||| claim == "event sequence was zero"@
            ||| claim == "event timestamp was not a u64"@
            ||| claim == "event role was not a string"@
            ||| claim == "event stage was not a string"@
            ||| claim == "event cause was not a string"@
            ||| claim == "role outside the closed vocabulary"@
            ||| claim == "stage outside the closed vocabulary"@
            ||| claim == "cause outside the closed vocabulary"@
            ||| claim == "tenant_id was not a string"@
            ||| claim == "tenant_id was not a uuid"@
            ||| claim == "device_id was not a string"@
            ||| claim == "device_id was not a uuid"@
            ||| claim == "session_id was not a string"@
            ||| claim == "session_id was not a bounded identifier"@
            ||| claim == "owner_epoch was not a u64"@
            ||| claim == "owner_node_id was not a string"@
            ||| claim == "owner_node_id was not a bounded identifier"@
            ||| claim == "service_id was not a string"@
            ||| claim == "service_id was not a uuid"@
            ||| claim == "request_id was not a string"@
            ||| claim == "request_id was not a bounded identifier"@
        },
{
    let rules = event_rules(event);
    lemma_first_broken(rules);
    reveal_strlit("event was not an object");
    reveal_strlit("event keys differ from the relay schema");
    reveal_strlit("event sequence was not a u64");
    reveal_strlit("event sequence was zero");
    reveal_strlit("event timestamp was not a u64");
    reveal_strlit("event role was not a string");
    reveal_strlit("event stage was not a string");
    reveal_strlit("event cause was not a string");
    reveal_strlit("role outside the closed vocabulary");
    reveal_strlit("stage outside the closed vocabulary");
    reveal_strlit("cause outside the closed vocabulary");
    reveal_strlit("tenant_id was not a string");
    reveal_strlit("tenant_id was not a uuid");
    reveal_strlit("device_id was not a string");
    reveal_strlit("device_id was not a uuid");
    reveal_strlit("session_id was not a string");
    reveal_strlit("session_id was not a bounded identifier");
    reveal_strlit("owner_epoch was not a u64");
    reveal_strlit("owner_node_id was not a string");
    reveal_strlit("owner_node_id was not a bounded identifier");
    reveal_strlit("service_id was not a string");
    reveal_strlit("service_id was not a uuid");
    reveal_strlit("request_id was not a string");
    reveal_strlit("request_id was not a bounded identifier");
    assert("event was not an object"@[6] == 'w');
    assert("event sequence was zero"@[6] == 's');
    assert("event keys differ from the relay schema"@[0] == 'e');
    assert("session_id was not a bounded identifier"@[0] == 's');
    assert("request_id was not a bounded identifier"@[0] == 'r');
    assert("event sequence was not a u64"@[7] == 'e');
    assert("event stage was not a string"@[7] == 't');
    assert("event cause was not a string"@[7] == 'a');
    assert("event role was not a string"@[2] == 'e');
    assert("session_id was not a string"@[2] == 's');
    assert("service_id was not a string"@[2] == 'r');
    assert("request_id was not a string"@[2] == 'q');
    assert("stage outside the closed vocabulary"@[0] == 's');
    assert("cause outside the closed vocabulary"@[0] == 'c');
    assert("tenant_id was not a string"@[0] == 't');
    assert("device_id was not a string"@[0] == 'd');
    assert("tenant_id was not a uuid"@[0] == 't');
    assert("device_id was not a uuid"@[0] == 'd');
    assert("owner_epoch was not a u64"@[0] == 'o');
    assert("service_id was not a uuid"@[0] == 's');
    assert(rules.len() == 24);
    assert(rules[0].0.len() == 23);
    assert(rules[1].0.len() == 39);
    assert(rules[2].0.len() == 28);
    assert(rules[3].0.len() == 23);
    assert(rules[4].0.len() == 29);
    assert(rules[5].0.len() == 27);
    assert(rules[6].0.len() == 28);
    assert(rules[7].0.len() == 28);
    assert(rules[8].0.len() == 34);
    assert(rules[9].0.len() == 35);
    assert(rules[10].0.len() == 35);
    assert(rules[11].0.len() == 26);
    assert(rules[12].0.len() == 24);
    assert(rules[13].0.len() == 26);
    assert(rules[14].0.len() == 24);
    assert(rules[15].0.len() == 27);
    assert(rules[16].0.len() == 39);
    assert(rules[17].0.len() == 25);
    assert(rules[18].0.len() == 30);
    assert(rules[19].0.len() == 42);
    assert(rules[20].0.len() == 27);
    assert(rules[21].0.len() == 25);
    assert(rules[22].0.len() == 27);
    assert(rules[23].0.len() == 39);
}

/// What is named of a refused closure entry is wrong with it, each rule in its own
/// words.
pub proof fn lemma_refused_closure(event: JsonView)
    ensures
        first_broken(closure_rules(event)) == Some("closure was not an object"@) ==> !(event is Object),
        first_broken(closure_rules(event)) == Some("event keys differ from the relay schema"@) ==> !(has_exact_keys(event, TASK_CLOSURE_EVENT_KEYS@)),
        first_broken(closure_rules(event)) == Some("event sequence was not a u64"@) ==> !(u64_at(event, "sequence"@) is Some),
        first_broken(closure_rules(event)) == Some("event sequence was zero"@) ==> !(u64_at(event, "sequence"@) != Some(0u64)),
        first_broken(closure_rules(event)) == Some("event timestamp was not a u64"@) ==> !(u64_at(event, "observed_at_ms"@) is Some),
        first_broken(closure_rules(event)) == Some("event stage was not a string"@) ==> !(event.text_of("stage"@) is Some),
        first_broken(closure_rules(event)) == Some("closure stage is outside the relay vocabulary"@) ==> !(listed_at(event, "stage"@, TASK_CLOSURE_STAGES@)),
        first_broken(closure_rules(event)) == Some("event cause was not a string"@) ==> !(event.text_of("cause"@) is Some),
        first_broken(closure_rules(event)) == Some("closure cause is outside the relay vocabulary"@) ==> !(listed_at(event, "cause"@, TASK_CLOSURE_CAUSES@)),
        first_broken(closure_rules(event)) == Some("tenant_id was not a string"@) ==> !(event.text_of("tenant_id"@) is Some),
        first_broken(closure_rules(event)) == Some("tenant_id was not a uuid"@) ==> !(uuid_at(event, "tenant_id"@)),
        first_broken(closure_rules(event)) == Some("device_id was not a string"@) ==> !(event.text_of("device_id"@) is Some),
        first_broken(closure_rules(event)) == Some("device_id was not a uuid"@) ==> !(uuid_at(event, "device_id"@)),
        first_broken(closure_rules(event)) == Some("session_id was not a string"@) ==> !(null_at(event, "session_id"@) || event.text_of("session_id"@) is Some),
        first_broken(closure_rules(event)) == Some("session_id was not a bounded identifier"@) ==> !(null_at(event, "session_id"@) || token_at(event, "session_id"@)),
        first_broken(closure_rules(event)) == Some("counter was not a u64"@) ==> !((u64_at(event, "epoch"@) is Some) && (null_at(event, "stream_id"@) || u64_at(event, "stream_id"@) is Some)),
        first_broken(closure_rules(event)) matches Some(claim) ==> {
            ||| claim == "closure was not an object"@
            ||| claim == "event keys differ from the relay schema"@
            ||| claim == "event sequence was not a u64"@
            ||| claim == "event sequence was zero"@
            ||| claim == "event timestamp was not a u64"@
            ||| claim == "event stage was not a string"@
            ||| claim == "closure stage is outside the relay vocabulary"@
            ||| claim == "event cause was not a string"@
            ||| claim == "closure cause is outside the relay vocabulary"@
            ||| claim == "tenant_id was not a string"@
            ||| claim == "tenant_id was not a uuid"@
            ||| claim == "device_id was not a string"@
            ||| claim == "device_id was not a uuid"@
            ||| claim == "session_id was not a string"@
            ||| claim == "session_id was not a bounded identifier"@
            ||| claim == "counter was not a u64"@
        },
{
    let rules = closure_rules(event);
    lemma_first_broken(rules);
    reveal_strlit("closure was not an object");
    reveal_strlit("event keys differ from the relay schema");
    reveal_strlit("event sequence was not a u64");
    reveal_strlit("event sequence was zero");
    reveal_strlit("event timestamp was not a u64");
    reveal_strlit("event stage was not a string");
    reveal_strlit("closure stage is outside the relay vocabulary");
    reveal_strlit("event cause was not a string");
    reveal_strlit("closure cause is outside the relay vocabulary");
    reveal_strlit("tenant_id was not a string");
    reveal_strlit("tenant_id was not a uuid");
    reveal_strlit("device_id was not a string");
    reveal_strlit("device_id was not a uuid");
    reveal_strlit("session_id was not a string");
    reveal_strlit("session_id was not a bounded identifier");
    reveal_strlit("counter was not a u64");
    assert("event keys differ from the relay schema"@[0] == 'e');
    assert("session_id was not a bounded identifier"@[0] == 's');
    assert("event sequence was not a u64"@[7] == 'e');
    assert("event stage was not a string"@[7] == 't');
    assert("event cause was not a string"@[7] == 'a');
    assert("closure stage is outside the relay vocabulary"@[8] == 's');
    assert("closure cause is outside the relay vocabulary"@[8] == 'c');
    assert("tenant_id was not a string"@[0] == 't');
    assert("device_id was not a string"@[0] == 'd');
    assert("tenant_id was not a uuid"@[0] == 't');
    assert("device_id was not a uuid"@[0] == 'd');
    assert(rules.len() == 17);
    assert(rules[0].0.len() == 25);
    assert(rules[1].0.len() == 39);
    assert(rules[2].0.len() == 28);
    assert(rules[3].0.len() == 23);
    assert(rules[4].0.len() == 29);
    assert(rules[5].0.len() == 28);
    assert(rules[6].0.len() == 45);
    assert(rules[7].0.len() == 28);
    assert(rules[8].0.len() == 45);
    assert(rules[9].0.len() == 26);
    assert(rules[10].0.len() == 24);
    assert(rules[11].0.len() == 26);
    assert(rules[12].0.len() == 24);
    assert(rules[13].0.len() == 27);
    assert(rules[14].0.len() == 39);
    assert(rules[15].0.len() == 21);
    assert(rules[16].0.len() == 21);
}

/// What is named of a refused table's head is wrong with it.
pub proof fn lemma_refused_table_head(table: JsonView)
    ensures
        first_broken(table_head_rules(table)) == Some("table was not an object"@) ==> !(table is Object),
        first_broken(table_head_rules(table)) == Some("table keys differ from the relay schema"@) ==> !(has_exact_keys(table, PEER_FAULT_SNAPSHOT_KEYS@)),
        first_broken(table_head_rules(table)) == Some("role counter was not a u64"@) ==> !((u64_at(table, "fault_count"@) is Some) && (u64_at(table, "ingress_count"@) is Some) && (u64_at(table, "owner_count"@) is Some)),
        first_broken(table_head_rules(table)) == Some("role counters do not sum to fault_count"@) ==> !(u64_at(table, "fault_count"@) is Some && u64_at(table, "ingress_count"@) is Some && u64_at(table, "owner_count"@) is Some && u64_at(table, "ingress_count"@)->Some_0 + u64_at(table, "owner_count"@)->Some_0 == u64_at(table, "fault_count"@)->Some_0),
        first_broken(table_head_rules(table)) matches Some(claim) ==> {
            ||| claim == "table was not an object"@
            ||| claim == "table keys differ from the relay schema"@
            ||| claim == "role counter was not a u64"@
            ||| claim == "role counters do not sum to fault_count"@
        },
{
    let rules = table_head_rules(table);
    lemma_first_broken(rules);
    reveal_strlit("table was not an object");
    reveal_strlit("table keys differ from the relay schema");
    reveal_strlit("role counter was not a u64");
    reveal_strlit("role counters do not sum to fault_count");
    assert("table keys differ from the relay schema"@[0] == 't');
    assert("role counters do not sum to fault_count"@[0] == 'r');
    assert(rules.len() == 6);
    assert(rules[0].0.len() == 23);
    assert(rules[1].0.len() == 39);
    assert(rules[2].0.len() == 26);
    assert(rules[3].0.len() == 26);
    assert(rules[4].0.len() == 26);
    assert(rules[5].0.len() == 39);
}

/// What is named of a refused fault ring's frame is wrong with it.
pub proof fn lemma_refused_ring_head(table: JsonView)
    ensures
        first_broken(ring_head_rules(table)) == Some("stage or cause counters do not sum to fault_count"@) ==> !(count_total(entries_of(at(table, "stage_counts"@))) == u64_at(table, "fault_count"@)->Some_0 && count_total( entries_of(at(table, "cause_counts"@)), ) == u64_at(table, "fault_count"@)->Some_0),
        first_broken(ring_head_rules(table)) == Some("recent was not an array"@) ==> !(at(table, "recent"@) is Array),
        first_broken(ring_head_rules(table)) == Some("recent ring exceeds the relay bound"@) ==> !(items_of(at(table, "recent"@)).len() <= 32 && items_of(at(table, "recent"@)).len() <= u64_at(table, "fault_count"@)->Some_0),
        first_broken(ring_head_rules(table)) matches Some(claim) ==> {
            ||| claim == "stage or cause counters do not sum to fault_count"@
            ||| claim == "recent was not an array"@
            ||| claim == "recent ring exceeds the relay bound"@
        },
{
    let rules = ring_head_rules(table);
    lemma_first_broken(rules);
    reveal_strlit("stage or cause counters do not sum to fault_count");
    reveal_strlit("recent was not an array");
    reveal_strlit("recent ring exceeds the relay bound");
    assert(rules.len() == 3);
    assert(rules[0].0.len() == 49);
    assert(rules[1].0.len() == 23);
    assert(rules[2].0.len() == 35);
}

/// What is named of a refused closure ring's frame is wrong with it.
pub proof fn lemma_refused_closure_head(table: JsonView)
    ensures
        first_broken(closure_head_rules(table)) == Some("closure stage and cause counters disagree"@) ==> !(count_total(entries_of(at(table, "closure_stage_counts"@))) == count_total(entries_of(at(table, "closure_cause_counts"@)))),
        first_broken(closure_head_rules(table)) == Some("closures was not an array"@) ==> !(at(table, "closures"@) is Array),
        first_broken(closure_head_rules(table)) == Some("closure ring exceeds the relay bound"@) ==> !(items_of(at(table, "closures"@)).len() <= 32 && items_of(at(table, "closures"@)).len() <= count_total(entries_of(at(table, "closure_stage_counts"@)))),
        first_broken(closure_head_rules(table)) matches Some(claim) ==> {
            ||| claim == "closure stage and cause counters disagree"@
            ||| claim == "closures was not an array"@
            ||| claim == "closure ring exceeds the relay bound"@
        },
{
    let rules = closure_head_rules(table);
    lemma_first_broken(rules);
    reveal_strlit("closure stage and cause counters disagree");
    reveal_strlit("closures was not an array");
    reveal_strlit("closure ring exceeds the relay bound");
    assert(rules.len() == 3);
    assert(rules[0].0.len() == 41);
    assert(rules[1].0.len() == 25);
    assert(rules[2].0.len() == 36);
}

} // verus!
