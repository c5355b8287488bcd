//! The bounded, payload-free diagnostics of a failed admission matrix.

use vstd::prelude::*;
use vstd::string::*;
use vstd::utf8::*;

use crate::admission::{flag_text, write_flag};
use crate::c10::{label_view, OwnerToken};
use crate::error::{ErrorView, HarnessError};
use crate::json::{json_document, parse_document, Json, JsonView};
use crate::std_text::{debug_text, decode_lossy, lossy_text, write_debug};
use crate::text::{
    decimal, decimal_text, join_texts, joined, lines, lines_of, occurs_at, occurs_in, same_text,
    signed_decimal, signed_text, trim_text, trimmed, views,
};

verus! {

/// The most lines of one stream that are looked at.
pub const MAX_LINES: usize = 64;

/// The most causes that are listed.
pub const MAX_CAUSES: usize = 8;

/// The longest line that is looked at, in bytes.
pub const MAX_LINE_BYTES: usize = 8192;

/// One session of a relay.
pub struct SessionSummary {
    pub tenant_id: String,
    pub device_id: String,
    pub session_id: String,
    pub epoch: u64,
    pub phase: String,
    pub sockets: usize,
    pub queue_bytes: usize,
    pub queue_messages: usize,
    pub streams: usize,
    pub drain_fences: usize,
    pub drain_proofs: usize,
    pub replay_frames: usize,
    pub replay_bytes: usize,
    pub rotation_deadline_ms: Option<u64>,
}

/// The end of one session of a relay.
pub struct TerminalEvent {
    pub tenant_id: String,
    pub device_id: String,
    pub session_id: String,
    pub epoch: u64,
    pub closed_at_ms: u64,
    pub reason: &'static str,
}

/// One reading of a relay.
pub struct RelayReading {
    pub monotonic_now_ms: u64,
    pub lifetime_application_dispatches: u64,
    pub consumer_write_timeout_count: u64,
    pub peer_owner_send_count: u64,
    pub peer_ingress_receive_count: u64,
    pub peer_consumer_owner_send_count: u64,
    pub peer_consumer_owner_receive_count: u64,
    pub peer_consumer_ingress_send_count: u64,
    pub peer_consumer_ingress_receive_count: u64,
    pub sessions: Vec<SessionSummary>,
    pub terminal_events: Vec<TerminalEvent>,
}

/// How the reading of an owner's relay ended.
pub enum OwnerReading {
    /// There is no such relay.
    NoRelay,
    /// The relay gave no reading.
    Failed,
    /// The relay did not answer in time.
    TimedOut,
    /// The relay's reading.
    Read(RelayReading),
}

/// The session is the one that the token names.
pub open spec fn is_session_of(
    tenant: Seq<char>,
    device: Seq<char>,
    session: Seq<char>,
    epoch: u64,
    owner: OwnerToken,
) -> bool {
    tenant == owner.tenant_id@ && device == owner.device_id@ && session == owner.session_id@
        && epoch == owner.epoch
}

fn names_session(tenant: &str, device: &str, session: &str, epoch: u64, owner: &OwnerToken) -> (same:
    bool)
    ensures
        same == is_session_of(tenant@, device@, session@, epoch, *owner),
{
    same_text(tenant, owner.tenant_id.as_str()) && same_text(device, owner.device_id.as_str())
        && same_text(session, owner.session_id.as_str()) && epoch == owner.epoch
}

/// Session `i` is the owner's.
pub open spec fn session_matches(sessions: Seq<SessionSummary>, i: int, owner: OwnerToken) -> bool {
    is_session_of(
        sessions[i].tenant_id@,
        sessions[i].device_id@,
        sessions[i].session_id@,
        sessions[i].epoch,
        owner,
    )
}

/// The place of the owner's first session.
pub open spec fn is_first_session(
    sessions: Seq<SessionSummary>,
    owner: OwnerToken,
    found: Option<usize>,
) -> bool {
    match found {
        Some(i) => i < sessions.len() && session_matches(sessions, i as int, owner) && forall|k: int|
            0 <= k < i ==> !#[trigger] session_matches(sessions, k, owner),
        None => forall|k: int|
            0 <= k < sessions.len() ==> !#[trigger] session_matches(sessions, k, owner),
    }
}

/// The place of the owner's first session, if it has one.
pub fn find_session(sessions: &Vec<SessionSummary>, owner: &OwnerToken) -> (found: Option<usize>)
    ensures
        is_first_session(sessions@, *owner, found),
{
    let mut i: usize = 0;
    while i < sessions.len()
        invariant
            i <= sessions.len(),
            forall|k: int| 0 <= k < i ==> !#[trigger] session_matches(sessions@, k, *owner),
        decreases sessions.len() - i,
    {
        let session = &sessions[i];
        if names_session(
            session.tenant_id.as_str(),
            session.device_id.as_str(),
            session.session_id.as_str(),
            session.epoch,
            owner,
        ) {
            assert(session_matches(sessions@, i as int, *owner));
            return Some(i);
        }
        i += 1;
    }
    None
}

/// Event `i` ends a session of the owner.
pub open spec fn event_matches(events: Seq<TerminalEvent>, i: int, owner: OwnerToken) -> bool {
    is_session_of(
        events[i].tenant_id@,
        events[i].device_id@,
        events[i].session_id@,
        events[i].epoch,
        owner,
    )
}

/// The reason of the owner's latest end: of the events with the greatest
/// closing time, the last one listed.
pub open spec fn latest_end(events: Seq<TerminalEvent>, owner: OwnerToken) -> Option<(u64, Seq<char>)>
    decreases events.len(),
{
    if events.len() == 0 {
        None
    } else {
        let front = latest_end(events.drop_last(), owner);
        let i = events.len() - 1;
        if event_matches(events, i, owner) && (front is None || front->Some_0.0
            <= events[i].closed_at_ms) {
            Some((events[i].closed_at_ms, events[i].reason@))
        } else {
            front
        }
    }
}

/// The reason of the owner's latest end, or `none`.
pub open spec fn terminal_text(events: Seq<TerminalEvent>, owner: OwnerToken) -> Seq<char> {
    match latest_end(events, owner) {
        Some(end) => end.1,
        None => "none"@,
    }
}

/// The reason of the owner's latest end, or `none`.
pub fn terminal_reason(events: &Vec<TerminalEvent>, owner: &OwnerToken) -> (reason: &'static str)
    ensures
        reason@ == terminal_text(events@, *owner),
{
    let mut latest: Option<(u64, &'static str)> = None;
    let mut i: usize = 0;
    assert(events@.take(0) =~= Seq::<TerminalEvent>::empty());
    while i < events.len()
        invariant
            i <= events.len(),
            match latest {
                Some(end) => latest_end(events@.take(i as int), *owner) == Some((end.0, end.1@)),
                None => latest_end(events@.take(i as int), *owner) is None,
            },
        decreases events.len() - i,
    {
        let ghost seen = events@.take(i + 1);
        assert(seen.drop_last() =~= events@.take(i as int));
        assert(event_matches(seen, i as int, *owner) == event_matches(events@, i as int, *owner));
        let event = &events[i];
        let named = names_session(
            event.tenant_id.as_str(),
            event.device_id.as_str(),
            event.session_id.as_str(),
            event.epoch,
            owner,
        );
        let later = match latest {
            Some(end) => end.0 <= event.closed_at_ms,
            None => true,
        };
        if named && later {
            latest = Some((event.closed_at_ms, event.reason));
        }
        i += 1;
    }
    assert(events@.take(i as int) =~= events@);
    match latest {
        Some(end) => end.1,
        None => "none",
    }
}

/// The text with one more field.
pub open spec fn and_field(text: Seq<char>, name: Seq<char>, value: Seq<char>) -> Seq<char> {
    text + ","@ + name + "="@ + value
}

/// The text with one more number.
pub open spec fn and_number(text: Seq<char>, name: Seq<char>, value: nat) -> Seq<char> {
    and_field(text, name, decimal(value))
}

fn add_field(text: String, name: &str, value: &str) -> (longer: String)
    ensures
        longer@ == and_field(text@, name@, value@),
{
    text.concat(",").concat(name).concat("=").concat(value)
}

fn add_number(text: String, name: &str, value: u64) -> (longer: String)
    ensures
        longer@ == and_number(text@, name@, value as nat),
{
    let digits = decimal_text(value as u128);
    add_field(text, name, digits.as_str())
}

/// A number in print, or `none`.
pub open spec fn number_or_none(number: Option<u64>) -> Seq<char> {
    match number {
        Some(n) => decimal(n as nat),
        None => "none"@,
    }
}

/// One session in print.
pub open spec fn session_text(session: SessionSummary, reason: Seq<char>) -> Seq<char> {
    let t = "session=present"@;
    let t = and_field(t, "session_id"@, session.session_id@);
    let t = and_number(t, "epoch"@, session.epoch as nat);
    let t = and_field(t, "phase"@, session.phase@);
    let t = and_number(t, "sockets"@, session.sockets as nat);
    let t = and_number(t, "queue_bytes"@, session.queue_bytes as nat);
    let t = and_number(t, "queue_messages"@, session.queue_messages as nat);
    let t = and_number(t, "streams"@, session.streams as nat);
    let t = and_number(t, "drain_fences"@, session.drain_fences as nat);
    let t = and_number(t, "drain_proofs"@, session.drain_proofs as nat);
    let t = and_number(t, "replay_frames"@, session.replay_frames as nat);
    let t = and_number(t, "replay_bytes"@, session.replay_bytes as nat);
    let t = and_field(t, "rotation_deadline_ms"@, number_or_none(session.rotation_deadline_ms));
    and_field(t, "terminal_reason"@, reason)
}

fn write_session(session: &SessionSummary, reason: &str) -> (text: String)
    ensures
        text@ == session_text(*session, reason@),
{
    let t = "session=present".to_owned();
    let t = add_field(t, "session_id", session.session_id.as_str());
    let t = add_number(t, "epoch", session.epoch);
    let t = add_field(t, "phase", session.phase.as_str());
    let t = add_number(t, "sockets", session.sockets as u64);
    let t = add_number(t, "queue_bytes", session.queue_bytes as u64);
    let t = add_number(t, "queue_messages", session.queue_messages as u64);
    let t = add_number(t, "streams", session.streams as u64);
    let t = add_number(t, "drain_fences", session.drain_fences as u64);
    let t = add_number(t, "drain_proofs", session.drain_proofs as u64);
    let t = add_number(t, "replay_frames", session.replay_frames as u64);
    let t = add_number(t, "replay_bytes", session.replay_bytes as u64);
    let deadline = match session.rotation_deadline_ms {
        Some(n) => decimal_text(n as u128),
        None => "none".to_owned(),
    };
    let t = add_field(t, "rotation_deadline_ms", deadline.as_str());
    add_field(t, "terminal_reason", reason)
}

/// The owner's session in print, at the place where it was found.
pub open spec fn session_fields(
    reading: RelayReading,
    owner: OwnerToken,
    found: Option<usize>,
) -> Seq<char> {
    let reason = terminal_text(reading.terminal_events@, owner);
    match found {
        Some(i) => session_text(reading.sessions@[i as int], reason),
        None => and_field("session=missing"@, "terminal_reason"@, reason),
    }
}

/// The reading of the owner's relay in print, but for the session.
pub open spec fn reading_text(reading: RelayReading, owner: OwnerToken) -> Seq<char> {
    let t = "target_owner="@ + owner.node_id@;
    let t = and_field(t, "expected_tenant"@, owner.tenant_id@);
    let t = and_field(t, "expected_device"@, owner.device_id@);
    let t = and_field(t, "expected_session"@, owner.session_id@);
    let t = and_number(t, "expected_epoch"@, owner.epoch as nat);
    let t = and_number(t, "snapshot_monotonic_ms"@, reading.monotonic_now_ms as nat);
    let t = and_number(t, "session_count"@, reading.sessions@.len());
    let t = and_number(
        t,
        "lifetime_dispatches"@,
        reading.lifetime_application_dispatches as nat,
    );
    let t = and_number(
        t,
        "consumer_write_timeout_count"@,
        reading.consumer_write_timeout_count as nat,
    );
    let t = and_number(t, "peer_owner_send_count"@, reading.peer_owner_send_count as nat);
    let t = and_number(t, "peer_ingress_receive_count"@, reading.peer_ingress_receive_count as nat);
    let t = and_number(
        t,
        "peer_consumer_owner_send_count"@,
        reading.peer_consumer_owner_send_count as nat,
    );
    let t = and_number(
        t,
        "peer_consumer_owner_receive_count"@,
        reading.peer_consumer_owner_receive_count as nat,
    );
    let t = and_number(
        t,
        "peer_consumer_ingress_send_count"@,
        reading.peer_consumer_ingress_send_count as nat,
    );
    let t = and_number(
        t,
        "peer_consumer_ingress_receive_count"@,
        reading.peer_consumer_ingress_receive_count as nat,
    );
    and_number(t, "terminal_event_count"@, reading.terminal_events@.len())
}

fn write_reading(reading: &RelayReading, owner: &OwnerToken) -> (text: String)
    ensures
        text@ == reading_text(*reading, *owner),
{
    let t = "target_owner=".to_owned().concat(owner.node_id.as_str());
    let t = add_field(t, "expected_tenant", owner.tenant_id.as_str());
    let t = add_field(t, "expected_device", owner.device_id.as_str());
    let t = add_field(t, "expected_session", owner.session_id.as_str());
    let t = add_number(t, "expected_epoch", owner.epoch);
    let t = add_number(t, "snapshot_monotonic_ms", reading.monotonic_now_ms);
    let t = add_number(t, "session_count", reading.sessions.len() as u64);
    let t = add_number(t, "lifetime_dispatches", reading.lifetime_application_dispatches);
    let t = add_number(t, "consumer_write_timeout_count", reading.consumer_write_timeout_count);
    let t = add_number(t, "peer_owner_send_count", reading.peer_owner_send_count);
    let t = add_number(t, "peer_ingress_receive_count", reading.peer_ingress_receive_count);
    let t = add_number(t, "peer_consumer_owner_send_count", reading.peer_consumer_owner_send_count);
    let t = add_number(
        t,
        "peer_consumer_owner_receive_count",
        reading.peer_consumer_owner_receive_count,
    );
    let t = add_number(
        t,
        "peer_consumer_ingress_send_count",
        reading.peer_consumer_ingress_send_count,
    );
    let t = add_number(
        t,
        "peer_consumer_ingress_receive_count",
        reading.peer_consumer_ingress_receive_count,
    );
    add_number(t, "terminal_event_count", reading.terminal_events.len() as u64)
}

/// The owner's relay in print, as far as it could be read.
pub fn admission_owner_snapshot(reading: &OwnerReading, owner: &OwnerToken) -> (text: String)
    ensures
        match *reading {
            OwnerReading::NoRelay => text@ == "target_owner="@ + owner.node_id@
                + ",snapshot_error=relay_lookup"@,
            OwnerReading::Failed => text@ == "target_owner="@ + owner.node_id@
                + ",snapshot_error=relay_snapshot"@,
            OwnerReading::TimedOut => text@ == "target_owner="@ + owner.node_id@
                + ",snapshot_timeout=true"@,
            OwnerReading::Read(relay) => exists|found: Option<usize>| #[trigger]
                is_first_session(relay.sessions@, *owner, found) && text@ == reading_text(
                    relay,
                    *owner,
                ) + ","@ + session_fields(relay, *owner, found),
        },
{
    match reading {
        OwnerReading::NoRelay => "target_owner=".to_owned().concat(owner.node_id.as_str()).concat(
            ",snapshot_error=relay_lookup",
        ),
        OwnerReading::Failed => "target_owner=".to_owned().concat(owner.node_id.as_str()).concat(
            ",snapshot_error=relay_snapshot",
        ),
        OwnerReading::TimedOut => "target_owner=".to_owned().concat(owner.node_id.as_str()).concat(
            ",snapshot_timeout=true",
        ),
        OwnerReading::Read(relay) => {
            let reason = terminal_reason(&relay.terminal_events, owner);
            let found = find_session(&relay.sessions, owner);
            let fields = match found {
                Some(i) => write_session(&relay.sessions[i], reason),
                None => add_field("session=missing".to_owned(), "terminal_reason", reason),
            };
            let text = write_reading(relay, owner).concat(",").concat(fields.as_str());
            assert(is_first_session(relay.sessions@, *owner, found));
            text
        },
    }
}

/// What is known of a client process.
pub enum ProcessState {
    Exited { success: bool, code: Option<i32>, signal: Option<i32> },
    Running,
    Unknown,
}

/// A signed number in print, or `none`.
pub open spec fn signed_or_none(number: Option<i32>) -> Seq<char> {
    match number {
        Some(n) => signed_decimal(n as int),
        None => "none"@,
    }
}

fn write_signed(number: Option<i32>) -> (text: String)
    ensures
        text@ == signed_or_none(number),
{
    match number {
        Some(n) => signed_text(n as i64),
        None => "none".to_owned(),
    }
}

/// The state of a client process in print.
pub open spec fn state_text(state: ProcessState) -> Seq<char> {
    match state {
        ProcessState::Exited { success, code, signal } => "state=exited,success="@ + flag_text(
            success,
        ) + ",exit_code="@ + signed_or_none(code) + ",signal="@ + signed_or_none(signal),
        ProcessState::Running => "state=running"@,
        ProcessState::Unknown => "state=unknown"@,
    }
}

/// The texts as std's `Debug` lists them.
pub open spec fn list_debug(texts: Seq<Seq<char>>) -> Seq<char> {
    "["@ + joined(texts.map(|i: int, text: Seq<char>| debug_text(text)), ", "@) + "]"@
}

pub(crate) fn write_list(texts: &Vec<String>) -> (text: String)
    ensures
        text@ == list_debug(views(texts@)),
{
    let mut quoted: Vec<String> = Vec::new();
    let mut i: usize = 0;
    while i < texts.len()
        invariant
            i <= texts.len(),
            quoted@.len() == i,
            forall|k: int| 0 <= k < i ==> (#[trigger] quoted@[k])@ == debug_text(texts@[k]@),
        decreases texts.len() - i,
    {
        quoted.push(write_debug(texts[i].as_str()));
        i += 1;
    }
    assert(views(quoted@) =~= views(texts@).map(|i: int, text: Seq<char>| debug_text(text)));
    let list = join_texts(&quoted, ", ");
    "[".to_owned().concat(list.as_str()).concat("]")
}

/// A client process in print: its state and the causes that it named.
pub fn admission_cli_diagnostic(state: &ProcessState, causes: &Vec<String>) -> (text: String)
    ensures
        text@ == "target_cli="@ + state_text(*state) + ",target_cli_protocol_causes="@ + list_debug(
            views(causes@),
        ),
{
    let terminal = match state {
        ProcessState::Exited { success, code, signal } => {
            let exit = write_signed(*code);
            let killed = write_signed(*signal);
            "state=exited,success=".to_owned().concat(write_flag(*success)).concat(
                ",exit_code=",
            ).concat(exit.as_str()).concat(",signal=").concat(killed.as_str())
        },
        ProcessState::Running => "state=running".to_owned(),
        ProcessState::Unknown => "state=unknown".to_owned(),
    };
    let list = write_list(causes);
    "target_cli=".to_owned().concat(terminal.as_str()).concat(
        ",target_cli_protocol_causes=",
    ).concat(list.as_str())
}

/// A client process in print, at the failure and after the bounded wait.
pub fn admission_cli_failure_diagnostic(at_failure: &str, after_wait: &str) -> (text: String)
    ensures
        text@ == "target_cli_at_failure="@ + at_failure@ + ",target_cli_after_bounded_wait="@
            + after_wait@,
{
    "target_cli_at_failure=".to_owned().concat(at_failure).concat(
        ",target_cli_after_bounded_wait=",
    ).concat(after_wait)
}

/// The failure of the matrix with its diagnostics.
pub fn annotate_admission_matrix_failure(failure: &HarnessError, cli: &str, owner: &str) -> (error:
    HarnessError)
    ensures
        error@ == ErrorView::Process(
            failure@.text() + "; public admission failure diagnostics: "@ + cli@ + "; "@ + owner@,
        ),
{
    let printed = failure.message();
    HarnessError::Process(
        printed.concat("; public admission failure diagnostics: ").concat(cli).concat("; ").concat(
            owner,
        ),
    )
}

/// The message of a protocol error that a client printed as one JSON line.
pub open spec fn protocol_message(line: JsonView) -> Option<Seq<char>> {
    match line.get("error"@) {
        Some(error) => if error is Object && error.text_of("code"@) == Some("PROTOCOL_ERROR"@) {
            error.text_of("message"@)
        } else {
            None
        },
        None => None,
    }
}

/// The message of a protocol error that a client printed as one JSON line.
pub fn read_protocol_message(line: &Json) -> (message: Option<&str>)
    ensures
        label_view(message) == protocol_message(line@),
{
    match line.get("error") {
        Some(error) => {
            let object = match error {
                Json::Object(_) => true,
                _ => false,
            };
            let named = match error.text_of("code") {
                Some(code) => same_text(code, "PROTOCOL_ERROR"),
                None => false,
            };
            if object && named {
                error.text_of("message")
            } else {
                None
            }
        },
        None => None,
    }
}

/// What to do with one line of a client's output.
pub enum LineStep {
    /// Look no further.
    Stop,
    /// The line names no protocol error.
    Skip,
    /// Classify this message, and add its class to the causes.
    Classify(String),
}

/// The lines of a client's output that are looked at.
pub fn client_lines(bytes: &[u8]) -> (found: Vec<String>)
    ensures
        views(found@) == {
            let all = lines(lossy_text(bytes@));
            if all.len() > MAX_LINES {
                all.take(MAX_LINES as int)
            } else {
                all
            }
        },
{
    let text = decode_lossy(bytes);
    let mut found = lines_of(text.as_str());
    let ghost all = found@;
    assert(views(found@).len() == found@.len());
    if found.len() > MAX_LINES {
        found.truncate(MAX_LINES);
        assert(views(found@) =~= views(all).take(MAX_LINES as int));
    }
    found
}

/// What to do with a parsed line.
pub fn judge_line(document: &Option<Json>) -> (step: LineStep)
    ensures
        match step {
            LineStep::Stop => false,
            LineStep::Skip => *document is None || protocol_message(document->Some_0@) is None,
            LineStep::Classify(message) => *document is Some && protocol_message(
                document->Some_0@,
            ) == Some(message@),
        },
{
    match document {
        Some(line) => match read_protocol_message(line) {
            Some(message) => LineStep::Classify(message.to_owned()),
            None => LineStep::Skip,
        },
        None => LineStep::Skip,
    }
}

/// What to do with the next line, with so many causes already listed.
pub fn next_line(line: &str, causes: usize) -> (step: LineStep)
    ensures
        ({
            let stop = encode_utf8(line@).len() > MAX_LINE_BYTES || causes >= MAX_CAUSES;
            let document = json_document(encode_utf8(trimmed(line@)));
            match step {
                LineStep::Stop => stop,
                LineStep::Skip => !stop && (document is None || protocol_message(
                    document->Some_0,
                ) is None),
                LineStep::Classify(message) => !stop && document is Some && protocol_message(
                    document->Some_0,
                ) == Some(message@),
            }
        }),
{
    if line.as_bytes().len() > MAX_LINE_BYTES || causes >= MAX_CAUSES {
        return LineStep::Stop;
    }
    let trimmed_line = trim_text(line);
    let document = parse_document(trimmed_line.as_str().as_bytes());
    judge_line(&document)
}

/// Adds a cause, unless it is listed already.
pub fn add_cause(causes: &mut Vec<String>, cause: &str)
    ensures
        views(final(causes)@) == if views(old(causes)@).contains(cause@) {
            views(old(causes)@)
        } else {
            views(old(causes)@).push(cause@)
        },
{
    let ghost first = causes@;
    let mut i: usize = 0;
    while i < causes.len()
        invariant
            i <= causes.len(),
            causes@ == first,
            first == old(causes)@,
            forall|k: int| 0 <= k < i ==> (#[trigger] first[k])@ != cause@,
        decreases causes.len() - i,
    {
        if same_text(causes[i].as_str(), cause) {
            assert(views(first)[i as int] == cause@);
            return;
        }
        i += 1;
    }
    proof {
        if views(first).contains(cause@) {
            let k = views(first).index_of(cause@);
            assert(first[k]@ == cause@);
        }
    }
    causes.push(cause.to_owned());
    assert(views(causes@) =~= views(first).push(cause@));
}

/// One relay in a fault context.
pub struct RelayContext {
    pub node_id: String,
    /// Where the relay's peer traffic comes from.
    pub source: String,
    /// The relay's membership readiness in print.
    pub membership: String,
    /// Whether the relay's peer runtime is ready, and its readiness in print,
    /// where it has one.
    pub readiness: Option<(bool, String)>,
}

/// The sources of all relays differ.
pub open spec fn sources_differ(relays: Seq<RelayContext>) -> bool {
    forall|i: int, j: int|
        0 <= i < j < relays.len() ==> (#[trigger] relays[i]).source@ != (
        #[trigger] relays[j]).source@
}

fn check_sources(relays: &Vec<RelayContext>) -> (differ: bool)
    ensures
        differ == sources_differ(relays@),
{
    let mut i: usize = 0;
    while i < relays.len()
        invariant
            i <= relays.len(),
            forall|a: int, b: int|
                0 <= a < i && a < b < relays.len() ==> (#[trigger] relays@[a]).source@ != (
                #[trigger] relays@[b]).source@,
        decreases relays.len() - i,
    {
        let mut j: usize = i + 1;
        while j < relays.len()
            invariant
                i < j <= relays.len(),
                forall|b: int| i < b < j ==> relays@[i as int].source@ != (#[trigger] relays@[b]).source@,
            decreases relays.len() - j,
        {
            if same_text(relays[i].source.as_str(), relays[j].source.as_str()) {
                return false;
            }
            j += 1;
        }
        i += 1;
    }
    true
}

/// The source of the first relay of that name.
pub open spec fn source_of(relays: Seq<RelayContext>, node: Seq<char>) -> Option<Seq<char>>
    decreases relays.len(),
{
    if relays.len() == 0 {
        None
    } else if relays[0].node_id@ == node {
        Some(relays[0].source@)
    } else {
        source_of(relays.skip(1), node)
    }
}

fn find_source<'a>(relays: &'a Vec<RelayContext>, node: &str) -> (source: Option<&'a str>)
    ensures
        label_view(source) == source_of(relays@, node@),
{
    let mut i: usize = 0;
    assert(relays@.skip(0) =~= relays@);
    while i < relays.len()
        invariant
            i <= relays.len(),
            source_of(relays@, node@) == source_of(relays@.skip(i as int), node@),
        decreases relays.len() - i,
    {
        assert(relays@.skip(i as int)[0] == relays@[i as int]);
        assert(relays@.skip(i as int).skip(1) =~= relays@.skip(i + 1));
        if same_text(relays[i].node_id.as_str(), node) {
            return Some(relays[i].source.as_str());
        }
        i += 1;
    }
    assert(relays@.skip(i as int).len() == 0);
    None
}

fn same_source(a: Option<&str>, b: Option<&str>) -> (same: bool)
    ensures
        same == (label_view(a) == label_view(b)),
{
    match (a, b) {
        (Some(a), Some(b)) => same_text(a, b),
        (None, None) => true,
        _ => false,
    }
}

/// One relay in print.
pub open spec fn relay_text(relay: RelayContext) -> Seq<char> {
    relay.node_id@ + ":membership="@ + relay.membership@ + ","@ + match relay.readiness {
        Some(state) => "ready="@ + flag_text(state.0) + ",snapshot="@ + state.1@,
        None => "unconfigured"@,
    }
}

/// The relays in print.
pub open spec fn relay_texts(relays: Seq<RelayContext>) -> Seq<Seq<char>> {
    relays.map(|i: int, relay: RelayContext| relay_text(relay))
}

fn write_relays(relays: &Vec<RelayContext>) -> (text: String)
    ensures
        text@ == joined(relay_texts(relays@), "|"@),
{
    let mut texts: Vec<String> = Vec::new();
    let mut i: usize = 0;
    while i < relays.len()
        invariant
            i <= relays.len(),
            texts@.len() == i,
            forall|k: int| 0 <= k < i ==> (#[trigger] texts@[k])@ == relay_text(relays@[k]),
        decreases relays.len() - i,
    {
        let relay = &relays[i];
        let readiness = match &relay.readiness {
            Some(state) => "ready=".to_owned().concat(write_flag(state.0)).concat(
                ",snapshot=",
            ).concat(state.1.as_str()),
            None => "unconfigured".to_owned(),
        };
        let text = relay.node_id.clone().concat(":membership=").concat(
            relay.membership.as_str(),
        ).concat(",").concat(readiness.as_str());
        texts.push(text);
        i += 1;
    }
    assert(views(texts@) =~= relay_texts(relays@));
    join_texts(&texts, "|")
}

/// The ingress of the sibling's streams.
pub const SIBLING_INGRESS: &'static str = "relay-b";

/// The routing and readiness around a failed sibling canary, in print.
pub open spec fn fault_context(
    relays: Seq<RelayContext>,
    target: Seq<char>,
    sibling: Seq<char>,
    ingress: Seq<char>,
) -> Seq<char> {
    let t = "target_owner="@ + target;
    let t = and_field(t, "sibling_owner"@, sibling);
    let t = and_field(t, "fault_ingress"@, ingress);
    let t = and_field(t, "sibling_ingress"@, SIBLING_INGRESS@);
    let t = and_field(
        t,
        "sibling_owner_is_sibling_ingress"@,
        flag_text(sibling == SIBLING_INGRESS@),
    );
    let t = and_field(
        t,
        "fault_ingress_is_sibling_ingress"@,
        flag_text(ingress == SIBLING_INGRESS@),
    );
    let t = and_field(t, "source_addrs_distinct"@, flag_text(sources_differ(relays)));
    let t = and_field(
        t,
        "fault_source_is_sibling_source"@,
        flag_text(source_of(relays, ingress) == source_of(relays, SIBLING_INGRESS@)),
    );
    and_field(t, "relays"@, "["@ + joined(relay_texts(relays), "|"@) + "]"@)
}

/// The routing and readiness around a failed sibling canary, in print.
pub fn admission_fault_context(
    relays: &Vec<RelayContext>,
    target: &str,
    sibling: &str,
    ingress: &str,
) -> (text: String)
    ensures
        text@ == fault_context(relays@, target@, sibling@, ingress@),
{
    let t = "target_owner=".to_owned().concat(target);
    let t = add_field(t, "sibling_owner", sibling);
    let t = add_field(t, "fault_ingress", ingress);
    let t = add_field(t, "sibling_ingress", SIBLING_INGRESS);
    let t = add_field(
        t,
        "sibling_owner_is_sibling_ingress",
        write_flag(same_text(sibling, SIBLING_INGRESS)),
    );
    let t = add_field(
        t,
        "fault_ingress_is_sibling_ingress",
        write_flag(same_text(ingress, SIBLING_INGRESS)),
    );
    let t = add_field(t, "source_addrs_distinct", write_flag(check_sources(relays)));
    let same = same_source(find_source(relays, ingress), find_source(relays, SIBLING_INGRESS));
    let t = add_field(t, "fault_source_is_sibling_source", write_flag(same));
    let list = write_relays(relays);
    let bracketed = "[".to_owned().concat(list.as_str()).concat("]");
    add_field(t, "relays", bracketed.as_str())
}

/// The text shows this field with this value: its name, an equals sign and the
/// value stand in it, behind a comma.
pub open spec fn shows_field(text: Seq<char>, name: Seq<char>, value: Seq<char>) -> bool {
    occurs_in(text, ","@ + name + "="@ + value)
}

proof fn lemma_field_is_shown(text: Seq<char>, name: Seq<char>, value: Seq<char>)
    ensures
        shows_field(and_field(text, name, value), name, value),
{
    let part = ","@ + name + "="@ + value;
    let whole = and_field(text, name, value);
    assert(whole.subrange(text.len() as int, text.len() + part.len() as int) =~= part);
    assert(occurs_at(whole, part, text.len() as int));
}

proof fn lemma_longer_text_shows(
    text: Seq<char>,
    more: Seq<char>,
    name: Seq<char>,
    value: Seq<char>,
)
    requires
        shows_field(text, name, value),
    ensures
        shows_field(text + more, name, value),
{
    let part = ","@ + name + "="@ + value;
    let at = choose|at: int| occurs_at(text, part, at);
    assert((text + more).subrange(at, at + part.len()) =~= text.subrange(at, at + part.len()));
    assert(occurs_at(text + more, part, at));
}

proof fn lemma_fields_stay_shown(
    texts: Seq<Seq<char>>,
    names: Seq<Seq<char>>,
    values: Seq<Seq<char>>,
)
    requires
        texts.len() == names.len() + 1,
        names.len() == values.len(),
        forall|k: int|
            0 <= k < names.len() ==> #[trigger] texts[k + 1] == and_field(
                texts[k],
                names[k],
                values[k],
            ),
    ensures
        forall|k: int|
            0 <= k < names.len() ==> shows_field(
                texts[names.len() as int],
                #[trigger] names[k],
                values[k],
            ),
    decreases names.len(),
{
    if names.len() > 0 {
        let n = names.len() - 1;
        lemma_fields_stay_shown(texts.take(n + 1), names.take(n), values.take(n));
        assert(texts[n + 1] == and_field(texts[n], names[n], values[n]));
        lemma_field_is_shown(texts[n], names[n], values[n]);
        assert forall|k: int| 0 <= k < names.len() implies shows_field(
            texts[names.len() as int],
            #[trigger] names[k],
            values[k],
        ) by {
            if k < n {
                let more = ","@ + names[n] + "="@ + values[n];
                assert(names.take(n)[k] == names[k]);
                assert(shows_field(texts.take(n + 1)[n], names[k], values[k]));
                lemma_longer_text_shows(texts[n], more, names[k], values[k]);
                assert(texts[n] + more =~= texts[n + 1]);
            }
        }
    }
}

/// A session in print shows each of its figures under its own name.
pub proof fn lemma_session_in_print(session: SessionSummary, reason: Seq<char>)
    ensures
        shows_field(session_text(session, reason), "session_id"@, session.session_id@),
        shows_field(session_text(session, reason), "epoch"@, decimal(session.epoch as nat)),
        shows_field(session_text(session, reason), "phase"@, session.phase@),
        shows_field(session_text(session, reason), "sockets"@, decimal(session.sockets as nat)),
        shows_field(session_text(session, reason), "queue_bytes"@, decimal(session.queue_bytes as nat)),
        shows_field(session_text(session, reason), "queue_messages"@, decimal(session.queue_messages as nat)),
        shows_field(session_text(session, reason), "streams"@, decimal(session.streams as nat)),
        shows_field(session_text(session, reason), "drain_fences"@, decimal(session.drain_fences as nat)),
        shows_field(session_text(session, reason), "drain_proofs"@, decimal(session.drain_proofs as nat)),
        shows_field(session_text(session, reason), "replay_frames"@, decimal(session.replay_frames as nat)),
        shows_field(session_text(session, reason), "replay_bytes"@, decimal(session.replay_bytes as nat)),
        shows_field(session_text(session, reason), "rotation_deadline_ms"@, number_or_none(session.rotation_deadline_ms)),
        shows_field(session_text(session, reason), "terminal_reason"@, reason),
{
    let t0 = "session=present"@;
    let t1 = and_field(t0, "session_id"@, session.session_id@);
    let t2 = and_field(t1, "epoch"@, decimal(session.epoch as nat));
    let t3 = and_field(t2, "phase"@, session.phase@);
    let t4 = and_field(t3, "sockets"@, decimal(session.sockets as nat));
    let t5 = and_field(t4, "queue_bytes"@, decimal(session.queue_bytes as nat));
    let t6 = and_field(t5, "queue_messages"@, decimal(session.queue_messages as nat));
    let t7 = and_field(t6, "streams"@, decimal(session.streams as nat));
    let t8 = and_field(t7, "drain_fences"@, decimal(session.drain_fences as nat));
    let t9 = and_field(t8, "drain_proofs"@, decimal(session.drain_proofs as nat));
    let t10 = and_field(t9, "replay_frames"@, decimal(session.replay_frames as nat));
    let t11 = and_field(t10, "replay_bytes"@, decimal(session.replay_bytes as nat));
    let t12 = and_field(t11, "rotation_deadline_ms"@, number_or_none(session.rotation_deadline_ms));
    let t13 = and_field(t12, "terminal_reason"@, reason);
    let names = seq!["session_id"@, "epoch"@, "phase"@, "sockets"@, "queue_bytes"@, "queue_messages"@, "streams"@, "drain_fences"@, "drain_proofs"@, "replay_frames"@, "replay_bytes"@, "rotation_deadline_ms"@, "terminal_reason"@];
    let values = seq![session.session_id@, decimal(session.epoch as nat), session.phase@, decimal(session.sockets as nat), decimal(session.queue_bytes as nat), decimal(session.queue_messages as nat), decimal(session.streams as nat), decimal(session.drain_fences as nat), decimal(session.drain_proofs as nat), decimal(session.replay_frames as nat), decimal(session.replay_bytes as nat), number_or_none(session.rotation_deadline_ms), reason];
    let texts = seq![t0, t1, t2, t3, t4, t5, t6, t7, t8, t9, t10, t11, t12, t13];
    assert forall|k: int| 0 <= k < 13 implies #[trigger] texts[k + 1] == and_field(
        texts[k],
        names[k],
        values[k],
    ) by {}
    lemma_fields_stay_shown(texts, names, values);
    assert(names[0] == "session_id"@ && values[0] == session.session_id@);
    assert(names[1] == "epoch"@ && values[1] == decimal(session.epoch as nat));
    assert(names[2] == "phase"@ && values[2] == session.phase@);
    assert(names[3] == "sockets"@ && values[3] == decimal(session.sockets as nat));
    assert(names[4] == "queue_bytes"@ && values[4] == decimal(session.queue_bytes as nat));
    assert(names[5] == "queue_messages"@ && values[5] == decimal(session.queue_messages as nat));
    assert(names[6] == "streams"@ && values[6] == decimal(session.streams as nat));
    assert(names[7] == "drain_fences"@ && values[7] == decimal(session.drain_fences as nat));
    assert(names[8] == "drain_proofs"@ && values[8] == decimal(session.drain_proofs as nat));
    assert(names[9] == "replay_frames"@ && values[9] == decimal(session.replay_frames as nat));
    assert(names[10] == "replay_bytes"@ && values[10] == decimal(session.replay_bytes as nat));
    assert(names[11] == "rotation_deadline_ms"@ && values[11] == number_or_none(session.rotation_deadline_ms));
    assert(names[12] == "terminal_reason"@ && values[12] == reason);
    assert(texts[13] == t13);
}

/// A relay's reading in print shows each of its figures, and what was expected of
/// it, under its own name.
#[verifier::spinoff_prover]
#[verifier::rlimit(40)]
pub proof fn lemma_reading_in_print(reading: RelayReading, owner: OwnerToken)
    ensures
        shows_field(reading_text(reading, owner), "expected_tenant"@, owner.tenant_id@),
        shows_field(reading_text(reading, owner), "expected_device"@, owner.device_id@),
        shows_field(reading_text(reading, owner), "expected_session"@, owner.session_id@),
        shows_field(reading_text(reading, owner), "expected_epoch"@, decimal(owner.epoch as nat)),
        shows_field(reading_text(reading, owner), "snapshot_monotonic_ms"@, decimal(reading.monotonic_now_ms as nat)),
        shows_field(reading_text(reading, owner), "session_count"@, decimal(reading.sessions@.len())),
        shows_field(reading_text(reading, owner), "lifetime_dispatches"@, decimal(reading.lifetime_application_dispatches as nat)),
        shows_field(reading_text(reading, owner), "consumer_write_timeout_count"@, decimal(reading.consumer_write_timeout_count as nat)),
        shows_field(reading_text(reading, owner), "peer_owner_send_count"@, decimal(reading.peer_owner_send_count as nat)),
        shows_field(reading_text(reading, owner), "peer_ingress_receive_count"@, decimal(reading.peer_ingress_receive_count as nat)),
        shows_field(reading_text(reading, owner), "peer_consumer_owner_send_count"@, decimal(reading.peer_consumer_owner_send_count as nat)),
        shows_field(reading_text(reading, owner), "peer_consumer_owner_receive_count"@, decimal(reading.peer_consumer_owner_receive_count as nat)),
        shows_field(reading_text(reading, owner), "peer_consumer_ingress_send_count"@, decimal(reading.peer_consumer_ingress_send_count as nat)),
        shows_field(reading_text(reading, owner), "peer_consumer_ingress_receive_count"@, decimal(reading.peer_consumer_ingress_receive_count as nat)),
        shows_field(reading_text(reading, owner), "terminal_event_count"@, decimal(reading.terminal_events@.len())),
{
    let t0 = "target_owner="@ + owner.node_id@;
    let t1 = and_field(t0, "expected_tenant"@, owner.tenant_id@);
    let t2 = and_field(t1, "expected_device"@, owner.device_id@);
    let t3 = and_field(t2, "expected_session"@, owner.session_id@);
    let t4 = and_field(t3, "expected_epoch"@, decimal(owner.epoch as nat));
    let t5 = and_field(t4, "snapshot_monotonic_ms"@, decimal(reading.monotonic_now_ms as nat));
    let t6 = and_field(t5, "session_count"@, decimal(reading.sessions@.len()));
    let t7 = and_field(t6, "lifetime_dispatches"@, decimal(reading.lifetime_application_dispatches as nat));
    let t8 = and_field(t7, "consumer_write_timeout_count"@, decimal(reading.consumer_write_timeout_count as nat));
    let t9 = and_field(t8, "peer_owner_send_count"@, decimal(reading.peer_owner_send_count as nat));
    let t10 = and_field(t9, "peer_ingress_receive_count"@, decimal(reading.peer_ingress_receive_count as nat));
    let t11 = and_field(t10, "peer_consumer_owner_send_count"@, decimal(reading.peer_consumer_owner_send_count as nat));
    let t12 = and_field(t11, "peer_consumer_owner_receive_count"@, decimal(reading.peer_consumer_owner_receive_count as nat));
    let t13 = and_field(t12, "peer_consumer_ingress_send_count"@, decimal(reading.peer_consumer_ingress_send_count as nat));
    let t14 = and_field(t13, "peer_consumer_ingress_receive_count"@, decimal(reading.peer_consumer_ingress_receive_count as nat));
    let t15 = and_field(t14, "terminal_event_count"@, decimal(reading.terminal_events@.len()));
    let names = seq!["expected_tenant"@, "expected_device"@, "expected_session"@, "expected_epoch"@, "snapshot_monotonic_ms"@, "session_count"@, "lifetime_dispatches"@, "consumer_write_timeout_count"@, "peer_owner_send_count"@, "peer_ingress_receive_count"@, "peer_consumer_owner_send_count"@, "peer_consumer_owner_receive_count"@, "peer_consumer_ingress_send_count"@, "peer_consumer_ingress_receive_count"@, "terminal_event_count"@];
    let values = seq![owner.tenant_id@, owner.device_id@, owner.session_id@, decimal(owner.epoch as nat), decimal(reading.monotonic_now_ms as nat), decimal(reading.sessions@.len()), decimal(reading.lifetime_application_dispatches as nat), decimal(reading.consumer_write_timeout_count as nat), decimal(reading.peer_owner_send_count as nat), decimal(reading.peer_ingress_receive_count as nat), decimal(reading.peer_consumer_owner_send_count as nat), decimal(reading.peer_consumer_owner_receive_count as nat), decimal(reading.peer_consumer_ingress_send_count as nat), decimal(reading.peer_consumer_ingress_receive_count as nat), decimal(reading.terminal_events@.len())];
    let texts = seq![t0, t1, t2, t3, t4, t5, t6, t7, t8, t9, t10, t11, t12, t13, t14, t15];
    assert forall|k: int| 0 <= k < 15 implies #[trigger] texts[k + 1] == and_field(
        texts[k],
        names[k],
        values[k],
    ) by {}
    lemma_fields_stay_shown(texts, names, values);
    assert(names[0] == "expected_tenant"@ && values[0] == owner.tenant_id@);
    assert(names[1] == "expected_device"@ && values[1] == owner.device_id@);
    assert(names[2] == "expected_session"@ && values[2] == owner.session_id@);
    assert(names[3] == "expected_epoch"@ && values[3] == decimal(owner.epoch as nat));
    assert(names[4] == "snapshot_monotonic_ms"@ && values[4] == decimal(reading.monotonic_now_ms as nat));
    assert(names[5] == "session_count"@ && values[5] == decimal(reading.sessions@.len()));
    assert(names[6] == "lifetime_dispatches"@ && values[6] == decimal(reading.lifetime_application_dispatches as nat));
    assert(names[7] == "consumer_write_timeout_count"@ && values[7] == decimal(reading.consumer_write_timeout_count as nat));
    assert(names[8] == "peer_owner_send_count"@ && values[8] == decimal(reading.peer_owner_send_count as nat));
    assert(names[9] == "peer_ingress_receive_count"@ && values[9] == decimal(reading.peer_ingress_receive_count as nat));
    assert(names[10] == "peer_consumer_owner_send_count"@ && values[10] == decimal(reading.peer_consumer_owner_send_count as nat));
    assert(names[11] == "peer_consumer_owner_receive_count"@ && values[11] == decimal(reading.peer_consumer_owner_receive_count as nat));
    assert(names[12] == "peer_consumer_ingress_send_count"@ && values[12] == decimal(reading.peer_consumer_ingress_send_count as nat));
    assert(names[13] == "peer_consumer_ingress_receive_count"@ && values[13] == decimal(reading.peer_consumer_ingress_receive_count as nat));
    assert(names[14] == "terminal_event_count"@ && values[14] == decimal(reading.terminal_events@.len()));
    assert(texts[15] == t15);
}

/// The context of a failed sibling canary shows its routing, each fact under its
/// own name.
pub proof fn lemma_fault_context_in_print(
    relays: Seq<RelayContext>,
    target: Seq<char>,
    sibling: Seq<char>,
    ingress: Seq<char>,
)
    ensures
        shows_field(fault_context(relays, target, sibling, ingress), "sibling_owner"@, sibling),
        shows_field(fault_context(relays, target, sibling, ingress), "fault_ingress"@, ingress),
        shows_field(fault_context(relays, target, sibling, ingress), "sibling_ingress"@, "relay-b"@),
        shows_field(fault_context(relays, target, sibling, ingress), "sibling_owner_is_sibling_ingress"@, flag_text(sibling == "relay-b"@)),
        shows_field(fault_context(relays, target, sibling, ingress), "fault_ingress_is_sibling_ingress"@, flag_text(ingress == "relay-b"@)),
        shows_field(fault_context(relays, target, sibling, ingress), "source_addrs_distinct"@, flag_text(sources_differ(relays))),
        shows_field(fault_context(relays, target, sibling, ingress), "fault_source_is_sibling_source"@, flag_text(source_of(relays, ingress) == source_of(relays, "relay-b"@))),
{
    let t0 = "target_owner="@ + target;
    let t1 = and_field(t0, "sibling_owner"@, sibling);
    let t2 = and_field(t1, "fault_ingress"@, ingress);
    let t3 = and_field(t2, "sibling_ingress"@, "relay-b"@);
    let t4 = and_field(t3, "sibling_owner_is_sibling_ingress"@, flag_text(sibling == "relay-b"@));
    let t5 = and_field(t4, "fault_ingress_is_sibling_ingress"@, flag_text(ingress == "relay-b"@));
    let t6 = and_field(t5, "source_addrs_distinct"@, flag_text(sources_differ(relays)));
    let t7 = and_field(t6, "fault_source_is_sibling_source"@, flag_text(source_of(relays, ingress) == source_of(relays, "relay-b"@)));
    let names = seq!["sibling_owner"@, "fault_ingress"@, "sibling_ingress"@, "sibling_owner_is_sibling_ingress"@, "fault_ingress_is_sibling_ingress"@, "source_addrs_distinct"@, "fault_source_is_sibling_source"@];
    let values = seq![sibling, ingress, "relay-b"@, flag_text(sibling == "relay-b"@), flag_text(ingress == "relay-b"@), flag_text(sources_differ(relays)), flag_text(source_of(relays, ingress) == source_of(relays, "relay-b"@))];
    let texts = seq![t0, t1, t2, t3, t4, t5, t6, t7];
    assert forall|k: int| 0 <= k < 7 implies #[trigger] texts[k + 1] == and_field(
        texts[k],
        names[k],
        values[k],
    ) by {}
    lemma_fields_stay_shown(texts, names, values);
    assert(names[0] == "sibling_owner"@ && values[0] == sibling);
    assert(names[1] == "fault_ingress"@ && values[1] == ingress);
    assert(names[2] == "sibling_ingress"@ && values[2] == "relay-b"@);
    assert(names[3] == "sibling_owner_is_sibling_ingress"@ && values[3] == flag_text(sibling == "relay-b"@));
    assert(names[4] == "fault_ingress_is_sibling_ingress"@ && values[4] == flag_text(ingress == "relay-b"@));
    assert(names[5] == "source_addrs_distinct"@ && values[5] == flag_text(sources_differ(relays)));
    assert(names[6] == "fault_source_is_sibling_source"@ && values[6] == flag_text(source_of(relays, ingress) == source_of(relays, "relay-b"@)));
    assert(texts[7] == t7);
    let list = "["@ + joined(relay_texts(relays), "|"@) + "]"@;
    let more = ","@ + "relays"@ + "="@ + list;
    assert(t7 + more =~= fault_context(relays, target, sibling, ingress));
    assert forall|k: int| 0 <= k < 7 implies shows_field(
        t7 + more,
        #[trigger] names[k],
        values[k],
    ) by {
        assert(shows_field(texts[7], names[k], values[k]));
        lemma_longer_text_shows(t7, more, names[k], values[k]);
    }
}

/// The owner's latest end is that of a session with the owner's tenant, device,
/// session and epoch: no such session ended later, none listed after it ended at
/// the same time, and there is none exactly where no such session ended.
pub proof fn lemma_latest_end(events: Seq<TerminalEvent>, owner: OwnerToken)
    ensures
        match latest_end(events, owner) {
            None => forall|i: int|
                0 <= i < events.len() ==> !ends_session(#[trigger] events[i], owner),
            Some(end) => exists|i: int|
                {
                    &&& 0 <= i < events.len()
                    &&& ends_session(#[trigger] events[i], owner)
                    &&& events[i].closed_at_ms == end.0
                    &&& events[i].reason@ == end.1
                    &&& forall|k: int|
                        i < k < events.len() && ends_session(#[trigger] events[k], owner)
                            ==> events[k].closed_at_ms < end.0
                },
        },
        latest_end(events, owner) matches Some(end) ==> forall|k: int|
            0 <= k < events.len() && ends_session(#[trigger] events[k], owner)
                ==> events[k].closed_at_ms <= end.0,
    decreases events.len(),
{
    if events.len() > 0 {
        let front = events.drop_last();
        let last = events.len() - 1;
        lemma_latest_end(front, owner);
        assert forall|k: int| 0 <= k < front.len() implies #[trigger] front[k] == events[k] by {}
        assert(event_matches(events, last, owner) == ends_session(events[last], owner));
        let before = latest_end(front, owner);
        let now = latest_end(events, owner);
        if now is Some {
            let end = now->Some_0;
            assert forall|k: int|
                0 <= k < events.len() && ends_session(
                    #[trigger] events[k],
                    owner,
                ) implies events[k].closed_at_ms <= end.0 by {
                if k < last {
                    assert(ends_session(front[k], owner));
                }
            }
            if ends_session(events[last], owner) && (before is None || before->Some_0.0
                <= events[last].closed_at_ms) {
                assert(events[last].closed_at_ms == end.0);
            } else {
                let i = choose|i: int|
                    {
                        &&& 0 <= i < front.len()
                        &&& ends_session(#[trigger] front[i], owner)
                        &&& front[i].closed_at_ms == end.0
                        &&& front[i].reason@ == end.1
                        &&& forall|k: int|
                            i < k < front.len() && ends_session(#[trigger] front[k], owner)
                                ==> front[k].closed_at_ms < end.0
                    };
                assert(ends_session(events[i], owner));
                assert forall|k: int|
                    i < k < events.len() && ends_session(
                        #[trigger] events[k],
                        owner,
                    ) implies events[k].closed_at_ms < end.0 by {
                    if k < last {
                        assert(ends_session(front[k], owner));
                    }
                }
            }
        } else {
            assert forall|i: int| 0 <= i < events.len() implies !ends_session(
                #[trigger] events[i],
                owner,
            ) by {
                if i < last {
                    assert(!ends_session(front[i], owner));
                }
            }
        }
    }
}

/// The event ends the session that the token names, in all four of its parts.
pub open spec fn ends_session(event: TerminalEvent, owner: OwnerToken) -> bool {
    &&& event.tenant_id@ == owner.tenant_id@
    &&& event.device_id@ == owner.device_id@
    &&& event.session_id@ == owner.session_id@
    &&& event.epoch == owner.epoch
}

/// The source of a name is that of the first relay that bears it.
pub proof fn lemma_source_of(relays: Seq<RelayContext>, node: Seq<char>, i: int)
    requires
        0 <= i < relays.len(),
        relays[i].node_id@ == node,
        forall|k: int| 0 <= k < i ==> (#[trigger] relays[k]).node_id@ != node,
    ensures
        source_of(relays, node) == Some(relays[i].source@),
    decreases i,
{
    if i > 0 {
        let rest = relays.skip(1);
        assert(relays[0].node_id@ != node);
        assert forall|k: int| 0 <= k < i - 1 implies (#[trigger] rest[k]).node_id@ != node by {
            assert(rest[k] == relays[k + 1]);
        }
        lemma_source_of(rest, node, i - 1);
    }
}

/// A line names a protocol error exactly when its `error` has that code, and
/// then with the message that stands beside the code.
pub proof fn lemma_protocol_message(line: JsonView, message: Seq<char>)
    ensures
        protocol_message(line) == Some(message) <==> (line.get("error"@) matches Some(error)
            && error.get("code"@) == Some(JsonView::Text("PROTOCOL_ERROR"@)) && error.get(
            "message"@,
        ) == Some(JsonView::Text(message))),
{
}

} // verus!
