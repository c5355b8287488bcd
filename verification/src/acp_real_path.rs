//! ACP on the real route: what a run measured and the rules it must keep.
//!
//! No claim terminates on an HTTP status: every claim about a prompt, a
//! session or a callback anchors to a message observed on an SSE stream.

use vstd::prelude::*;
use vstd::string::*;

use crate::acp_cluster::{is_pair, own_texts, texts_match};
use crate::c11_window::str_views;
use crate::error::{ErrorView, HarnessError};
use crate::rules::{
    all_hold, chained, first_broken, lemma_all_hold_chained, lemma_chained_broken,
    lemma_chained_step, lemma_first_broken, Audit,
};
use crate::text::{decimal, decimal_text, occurs_in, same_text, text_contains, views};

verus! {

/// The rotation interval of this gate's device.  It is short so the device
/// behaves like a real one rather than a static fixture.
pub const ROTATION_INTERVAL_SECONDS: u64 = 6;

/// The handshake timeout of this gate's device.
pub const ROTATION_HANDSHAKE_SECONDS: u64 = 2;

/// The overlap of this gate's device.
pub const ROTATION_OVERLAP_SECONDS: u64 = 5;

/// How rarely membership may be re-signed, in milliseconds.
pub const MEMBERSHIP_RESIGN_SPACING_MS: u128 = 15000;

/// The lifetime of the membership records that the fixture signs, in
/// milliseconds.  Every case must finish inside it.
pub const MEMBERSHIP_RECORD_LIFETIME_MS: u128 = 60000;

/// The lifetime with which the fixture signs membership records, in seconds.
pub const M7_MEMBERSHIP_LIFETIME_SECONDS: i64 = 60;

/// The relay's own retry hint for an owner-not-ready refusal, in milliseconds.
pub const MIN_RETRY_HINT_MS: u64 = 250;

/// Margin above the handshake window.
pub const RETRY_MARGIN: u64 = 4;

/// How many times a `not_dispatched` refusal that coincides with an observed
/// freeze may be resent: the handshake window at the relay's retry hint, and
/// the margin.
pub const NOT_DISPATCHED_RETRIES: u64 = 12;

/// The cases this gate runs, in order.
pub const ACP_CASES: [&'static str; 7] = [
    "conversation",
    "permission-allow",
    "permission-reject",
    "cancel",
    "sse-loss-session",
    "sse-loss-connection",
    "outcome-unknown",
];

/// What this gate deliberately does not establish.
pub const NOT_COVERED: [&'static str; 9] = [
    "an ACP connection surviving a membership re-sign: M7-C80 is open, and this gate re-signs only at case boundaries and at most every 15 s, which is a harness accommodation rather than a product property",
    "no retry beyond the moment of observation: the agent's ledger is read when the consumer's stream has failed and again after a settle window, and a replay issued after that would not be observed",
    "two users, cross-tenant isolation, grant revocation, owner loss and peer-key rotation: M8 chunk 5",
    "any host but macOS",
    "any ACP agent but this repository's own synthetic fixture, and any ACP server at all",
    "the connection-capacity table at its real bounds: 256 tracked and 32 per principal are proven as arithmetic in tunnel-acp-export, not by opening 257 connections with 257 child processes here",
    "the output-credit stall over the real route: the 30 s bound and its never-drop-and-continue half are measured against the export's own queue in tunnel-acp-export, and the carrier in front of it has flow control of its own that this gate does not drive to saturation",
    "the permission deadline over the real route: it is observed elapsing in tunnel-acp-export against a shortened bound, not here",
    "bounded per-hop queues at the ingress, owner and device hops: no case here saturates a hop, so no hop bound is asserted rather than asserted vacuously",
];

/// The constants agree with each other: the retry budget is derived from the
/// handshake window, and the disclosed record lifetime is the signed one.
pub proof fn lemma_constants_agree()
    ensures
        NOT_DISPATCHED_RETRIES == (ROTATION_HANDSHAKE_SECONDS * 1000 + MIN_RETRY_HINT_MS - 1) / (
        MIN_RETRY_HINT_MS as int) + RETRY_MARGIN,
        MEMBERSHIP_RECORD_LIFETIME_MS == M7_MEMBERSHIP_LIFETIME_SECONDS * 1000,
        MEMBERSHIP_RESIGN_SPACING_MS < MEMBERSHIP_RECORD_LIFETIME_MS,
{
}

/// The consequences of an established required SSE stream breaking, each
/// recorded separately.
#[derive(Clone, Debug, Default, Eq, PartialEq)]
pub struct LossEvidence {
    /// The transport ended, and by the subscriber-loss rule rather than by a
    /// child ending or a deadline.
    pub terminated_by_loss: bool,
    /// Pending permissions resolved `cancelled`.
    pub permissions_cancelled: u64,
    /// Pending permissions approved, which must be none.
    pub permissions_approved: u64,
    /// A prompt after the loss is refused.
    pub new_prompt_refused: bool,
    /// The other required stream was closed too, and errored rather than
    /// ending cleanly.
    pub other_stream_errored: bool,
    /// The old connection cannot be reattached to, and a fresh `initialize`
    /// works.
    pub reconnect_requires_initialize: bool,
    /// The child is gone from the process table, not from a counter.
    pub child_gone_from_process_table: bool,
}

/// Everything this gate measured.  Primitives only: identifiers, counters,
/// statuses and typed labels, never a payload or a credential.
#[derive(Clone, Debug, Default, Eq, PartialEq)]
pub struct AcpRealPathEvidence {
    /// The relays of the cluster.
    pub relay_count: usize,
    /// The relay that owns the device.
    pub owner_node: String,
    /// The relay at which the consumer enters.
    pub ingress_node: String,
    /// The device is owned by one relay and its consumer enters at another.
    pub non_owner_ingress: bool,
    /// The cases that actually ran, in order.  A case that did not execute is
    /// absent here and the validator rejects the run; it is never folded into a
    /// pass count.
    pub cases_executed: Vec<String>,
    /// What this run does not claim, in words.
    pub not_covered: Vec<String>,

    // --- the conversation, every claim read off an SSE stream ---
    /// `initialize` was answered 200 and returned a connection identifier.
    pub connection_opened: bool,
    /// The `session/new` result arrived on the connection GET.
    pub session_id_from_connection_stream: bool,
    /// The prompt's own result arrived on the session GET, with this `stopReason`
    /// read from the message itself.
    pub conversation_stop_reason: String,
    /// `session/prompt` was answered 202 and the result arrived separately.
    pub prompt_accepted_202: bool,

    // --- permissions ---
    /// The permission callback was observed on the session stream.
    pub permission_requested_on_wire: bool,
    /// The option identifiers the agent actually offered, read from the callback on
    /// the wire.
    pub offered_options: Vec<String>,
    /// The outcome the agent itself recorded receiving, read from its workspace
    /// marker rather than from anything the bridge believes.
    pub allow_outcome_at_agent: String,
    /// The same, for the rejected permission.
    pub reject_outcome_at_agent: String,
    /// The allowed turn's own `stopReason`.
    pub allow_stop_reason: String,
    /// The rejected turn's own `stopReason`.
    pub reject_stop_reason: String,
    /// The rule that a response with an option nobody offered named, read from the
    /// response body.  A status alone would not do: a 404 from a mistyped route and
    /// a 503 from a rotation freeze are both "not 202".
    pub unoffered_option_rule: String,
    /// The rule that a response to an unknown request named.
    pub unknown_request_id_rule: String,
    /// The wrong-connection case is a 404 with no rule, deliberately: a foreign
    /// connection is indistinguishable from one that never existed.
    pub wrong_connection_status: u16,

    // --- cancellation ---
    /// `session/cancel` produced this `stopReason`, read off the wire.
    pub cancel_stop_reason: String,
    /// The outcome the agent recorded receiving for the permission that was
    /// outstanding when the cancellation arrived.
    pub cancel_outcome_at_agent: String,
    /// An update arrived after the cancellation and before the original prompt's
    /// result.
    pub update_after_cancel_before_result: bool,

    // --- subscriber loss, each required stream broken independently ---
    /// The consequences of breaking the session stream, each observed separately.
    pub session_loss: LossEvidence,
    /// The consequences of breaking the connection stream.
    pub connection_loss: LossEvidence,

    // --- an explicit unknown outcome after a crash ---
    /// How many times the agent's own on-disk ledger records the synthetic side
    /// effect, read after the fault.
    pub side_effects_in_ledger: u64,
    /// The same ledger read again after a settle window, to show nothing replayed
    /// it.
    pub side_effects_after_settle: u64,
    /// The consumer's stream errored rather than ending cleanly or carrying a
    /// result: the turn has no terminal on the wire.
    pub unknown_stream_errored: bool,
    /// The stream ended cleanly instead.  Recorded separately because "not errored"
    /// is also a stream still open.
    pub unknown_stream_ended_cleanly: bool,
    /// Milliseconds from the crashing prompt being accepted to the stream failing.
    /// 0 when it never failed.
    pub unknown_error_latency_ms: u128,
    /// How long the wait for the stream to fail may last.
    pub unknown_error_wait_ms: u128,
    /// Whether the export ended the connection when its child died.
    pub unknown_export_ended_connection: bool,
    /// Live ACP connections the export still held after the crash.
    pub unknown_export_live_connections: u64,
    /// No `stopReason` ever arrived for the crashed turn.
    pub unknown_no_stop_reason: bool,
    /// How many operations the export classified as succeeded during its case, from
    /// the export's own diagnostics.
    pub export_terminal_succeeded_delta: u64,
    /// How many it classified as cancelled.
    pub export_terminal_cancelled_delta: u64,
    /// How many it classified as unknown.
    pub export_terminal_unknown_delta: u64,

    // --- the membership accommodation, made visible in the evidence ---
    /// The least time between two re-signs.
    pub resign_spacing_ms: u128,
    /// How old the membership records in force were when a case ended.  Every case
    /// must end inside their lifetime.
    pub max_membership_age_at_case_end_ms: u128,
    /// How often membership was signed again, at case boundaries only.
    pub membership_resigns: u64,

    // --- rotation-freeze refusal discipline ---
    /// Every `not_dispatched` refusal that a case met.
    pub not_dispatched_refusals: u64,
    /// How many of them coincided with an observed rotation freeze.
    pub not_dispatched_retries: u64,
    /// The first refusal that did not coincide with an observed rotation freeze.
    /// Any value here fails the run by name.
    pub unexplained_refusal: Option<String>,

    // --- the device and its child ---
    /// The rotations that the connector completed.
    pub rotations_observed: u64,
    /// The sessions that the device opened.
    pub device_sessions: u64,
    /// Child processes still alive after the teardown, read from the process
    /// table.
    pub leftover_processes: usize,
}

/// The disclosure of a rotation count.
pub open spec fn rotations_text(rotations: u64) -> Seq<char> {
    "rotations_completed = "@ + decimal(rotations as nat)
}

/// The disclosure that carries this run's own count.
pub open spec fn rotation_disclosure(rotations: u64) -> Seq<char> {
    "an ACP connection carried across a completed scheduled rotation: this run observed "@
        + rotations_text(rotations)
        + ", and no case asserts anything about a connection spanning one, so nothing here says what a rotation does to a live ACP connection"@
}

fn build_rotations_text(rotations: u64) -> (text: String)
    ensures
        text@ == rotations_text(rotations),
{
    let count = decimal_text(rotations as u128);
    "rotations_completed = ".to_owned().concat(count.as_str())
}

/// The limits of this gate's claim, with the one that carries a measurement
/// formatted from what was actually observed.
pub fn not_covered(rotations_observed: u64) -> (all: Vec<String>)
    ensures
        views(all@) == str_views(NOT_COVERED@).push(rotation_disclosure(rotations_observed)),
{
    let mut all = own_texts(NOT_COVERED.as_slice());
    let ghost before = all@;
    let count = build_rotations_text(rotations_observed);
    all.push(
        "an ACP connection carried across a completed scheduled rotation: this run observed ".to_owned().concat(
        count.as_str()).concat(
            ", and no case asserts anything about a connection spanning one, so nothing here says what a rotation does to a live ACP connection",
        ),
    );
    assert(views(all@) =~= views(before).push(rotation_disclosure(rotations_observed)));
    all
}

/// The disclosure is complete and one of its texts states this count.
pub open spec fn discloses_rotations(not_covered: Seq<Seq<char>>, rotations: u64) -> bool {
    &&& not_covered.len() == NOT_COVERED@.len() + 1
    &&& exists|i: int|
        0 <= i < not_covered.len() && occurs_in(
            #[trigger] not_covered[i],
            rotations_text(rotations),
        )
}

fn check_disclosure(texts: &Vec<String>, rotations: u64) -> (holds: bool)
    ensures
        holds == discloses_rotations(views(texts@), rotations),
{
    let wanted = build_rotations_text(rotations);
    if texts.len() != 10 {
        return false;
    }
    let mut i: usize = 0;
    while i < texts.len()
        invariant
            i <= texts.len(),
            texts.len() == NOT_COVERED@.len() + 1,
            wanted@ == rotations_text(rotations),
            forall|k: int|
                0 <= k < i ==> !occurs_in(#[trigger] views(texts@)[k], rotations_text(rotations)),
        decreases texts.len() - i,
    {
        assert(views(texts@)[i as int] == texts@[i as int]@);
        if text_contains(texts[i].as_str(), wanted.as_str()) {
            return true;
        }
        i += 1;
    }
    false
}

/// A disclosure built from a run's own count states that count.
pub proof fn lemma_disclosure_states_its_run(rotations: u64)
    ensures
        discloses_rotations(
            str_views(NOT_COVERED@).push(rotation_disclosure(rotations)),
            rotations,
        ),
{
    let all = str_views(NOT_COVERED@).push(rotation_disclosure(rotations));
    let head = "an ACP connection carried across a completed scheduled rotation: this run observed "@;
    let text = rotations_text(rotations);
    assert(rotation_disclosure(rotations).subrange(
        head.len() as int,
        head.len() + text.len() as int,
    ) =~= text);
    assert(crate::text::occurs_at(all[NOT_COVERED@.len() as int], text, head.len() as int));
}

fn is_selected(outcome: &String, option: &str) -> (same: bool)
    ensures
        same == (outcome@ == "selected:"@ + option@),
{
    let wanted = "selected:".to_owned().concat(option);
    same_text(outcome.as_str(), wanted.as_str())
}

/// The run itself: its relays, its cases and what it discloses.
pub open spec fn run_rules(evidence: AcpRealPathEvidence) -> Seq<(Seq<char>, bool)> {
    seq![
        (
            "three relays"@,
            evidence.relay_count == 3,
        ),
        (
            "the device is owned by relay-a and the consumer entered at relay-c"@,
            evidence.non_owner_ingress && evidence.owner_node@ == "relay-a"@ && evidence.ingress_node@ == "relay-c"@,
        ),
        (
            "every case executed"@,
            views(evidence.cases_executed@) == str_views(ACP_CASES@),
        ),
        (
            "the limits of the claim are recorded, and the rotation disclosure states the observed count"@,
            discloses_rotations(views(evidence.not_covered@), evidence.rotations_observed),
        ),
    ]
}

fn check_run(evidence: &AcpRealPathEvidence) -> (broken: Option<&'static str>)
    ensures
        match broken {
            Some(rule) => first_broken(run_rules(*evidence)) == Some(rule@),
            None => first_broken(run_rules(*evidence)) is None,
        },
{
    let mut audit = Audit::new(Ghost(run_rules(*evidence)));
    audit.hold(
        "three relays",
        evidence.relay_count == 3,
    );
    audit.hold(
        "the device is owned by relay-a and the consumer entered at relay-c",
        evidence.non_owner_ingress && same_text(evidence.owner_node.as_str(), "relay-a") && same_text(evidence.ingress_node.as_str(), "relay-c"),
    );
    audit.hold(
        "every case executed",
        texts_match(&evidence.cases_executed, ACP_CASES.as_slice()),
    );
    audit.hold(
        "the limits of the claim are recorded, and the rotation disclosure states the observed count",
        check_disclosure(&evidence.not_covered, evidence.rotations_observed),
    );
    audit.broken()
}

/// The conversation, read off the wire.
pub open spec fn conversation_rules(evidence: AcpRealPathEvidence) -> Seq<(Seq<char>, bool)> {
    seq![
        (
            "initialize opened a connection"@,
            evidence.connection_opened,
        ),
        (
            "the session identifier arrived on the connection stream"@,
            evidence.session_id_from_connection_stream,
        ),
        (
            "session/prompt was accepted 202 and answered separately"@,
            evidence.prompt_accepted_202,
        ),
        (
            "the turn completed with end_turn, read off the wire"@,
            evidence.conversation_stop_reason@ == "end_turn"@,
        ),
    ]
}

fn check_conversation(evidence: &AcpRealPathEvidence) -> (broken: Option<&'static str>)
    ensures
        match broken {
            Some(rule) => first_broken(conversation_rules(*evidence)) == Some(rule@),
            None => first_broken(conversation_rules(*evidence)) is None,
        },
{
    let mut audit = Audit::new(Ghost(conversation_rules(*evidence)));
    audit.hold(
        "initialize opened a connection",
        evidence.connection_opened,
    );
    audit.hold(
        "the session identifier arrived on the connection stream",
        evidence.session_id_from_connection_stream,
    );
    audit.hold(
        "session/prompt was accepted 202 and answered separately",
        evidence.prompt_accepted_202,
    );
    audit.hold(
        "the turn completed with end_turn, read off the wire",
        same_text(evidence.conversation_stop_reason.as_str(), "end_turn"),
    );
    audit.broken()
}

/// Permissions, answered with the options that the agent offers.
pub open spec fn permission_rules(evidence: AcpRealPathEvidence, permit: Seq<char>, reject: Seq<char>) -> Seq<(Seq<char>, bool)> {
    seq![
        (
            "the permission callback was observed on the session stream"@,
            evidence.permission_requested_on_wire,
        ),
        (
            "the agent offered exactly the two options this profile expects"@,
            views(evidence.offered_options@) == seq![permit, reject],
        ),
        (
            "the agent itself recorded receiving the allowed option"@,
            evidence.allow_outcome_at_agent@ == "selected:"@ + permit,
        ),
        (
            "the agent itself recorded receiving the rejected option"@,
            evidence.reject_outcome_at_agent@ == "selected:"@ + reject,
        ),
        (
            "an allowed permission ends the turn end_turn"@,
            evidence.allow_stop_reason@ == "end_turn"@,
        ),
        (
            "a rejected permission ends the turn refusal"@,
            evidence.reject_stop_reason@ == "refusal"@,
        ),
        (
            "an unoffered option is refused by its own rule, read off the wire"@,
            evidence.unoffered_option_rule@ == "ACP_OPTION_NOT_OFFERED"@,
        ),
        (
            "a response answering nothing outstanding is refused by its own rule"@,
            evidence.unknown_request_id_rule@ == "ACP_UNKNOWN_REQUEST_ID"@,
        ),
        (
            "a response on the wrong connection is answered 404, as a nonexistent one is"@,
            evidence.wrong_connection_status == 404,
        ),
    ]
}

fn check_permission(evidence: &AcpRealPathEvidence, permit_option: &str, reject_option: &str) -> (broken: Option<&'static str>)
    ensures
        match broken {
            Some(rule) => first_broken(permission_rules(*evidence, permit_option@, reject_option@)) == Some(rule@),
            None => first_broken(permission_rules(*evidence, permit_option@, reject_option@)) is None,
        },
{
    let mut audit = Audit::new(Ghost(permission_rules(*evidence, permit_option@, reject_option@)));
    audit.hold(
        "the permission callback was observed on the session stream",
        evidence.permission_requested_on_wire,
    );
    audit.hold(
        "the agent offered exactly the two options this profile expects",
        is_pair(&evidence.offered_options, permit_option, reject_option),
    );
    audit.hold(
        "the agent itself recorded receiving the allowed option",
        is_selected(&evidence.allow_outcome_at_agent, permit_option),
    );
    audit.hold(
        "the agent itself recorded receiving the rejected option",
        is_selected(&evidence.reject_outcome_at_agent, reject_option),
    );
    audit.hold(
        "an allowed permission ends the turn end_turn",
        same_text(evidence.allow_stop_reason.as_str(), "end_turn"),
    );
    audit.hold(
        "a rejected permission ends the turn refusal",
        same_text(evidence.reject_stop_reason.as_str(), "refusal"),
    );
    audit.hold(
        "an unoffered option is refused by its own rule, read off the wire",
        same_text(evidence.unoffered_option_rule.as_str(), "ACP_OPTION_NOT_OFFERED"),
    );
    audit.hold(
        "a response answering nothing outstanding is refused by its own rule",
        same_text(evidence.unknown_request_id_rule.as_str(), "ACP_UNKNOWN_REQUEST_ID"),
    );
    audit.hold(
        "a response on the wrong connection is answered 404, as a nonexistent one is",
        evidence.wrong_connection_status == 404,
    );
    audit.broken()
}

/// Cancellation.
pub open spec fn cancel_rules(evidence: AcpRealPathEvidence) -> Seq<(Seq<char>, bool)> {
    seq![
        (
            "a confirmed cancelled turn has stopReason cancelled, read off the wire"@,
            evidence.cancel_stop_reason@ == "cancelled"@,
        ),
        (
            "the agent itself recorded receiving a cancelled permission"@,
            evidence.cancel_outcome_at_agent@ == "cancelled:"@,
        ),
        (
            "an update was accepted after the cancellation and before the prompt result"@,
            evidence.update_after_cancel_before_result,
        ),
    ]
}

fn check_cancel(evidence: &AcpRealPathEvidence) -> (broken: Option<&'static str>)
    ensures
        match broken {
            Some(rule) => first_broken(cancel_rules(*evidence)) == Some(rule@),
            None => first_broken(cancel_rules(*evidence)) is None,
        },
{
    let mut audit = Audit::new(Ghost(cancel_rules(*evidence)));
    audit.hold(
        "a confirmed cancelled turn has stopReason cancelled, read off the wire",
        same_text(evidence.cancel_stop_reason.as_str(), "cancelled"),
    );
    audit.hold(
        "the agent itself recorded receiving a cancelled permission",
        same_text(evidence.cancel_outcome_at_agent.as_str(), "cancelled:"),
    );
    audit.hold(
        "an update was accepted after the cancellation and before the prompt result",
        evidence.update_after_cancel_before_result,
    );
    audit.broken()
}

/// The explicit unknown outcome after a crash, and the terminal rule.
pub open spec fn unknown_rules(evidence: AcpRealPathEvidence) -> Seq<(Seq<char>, bool)> {
    seq![
        (
            "the crashed turn's stream errored rather than ending cleanly"@,
            evidence.unknown_stream_errored && !evidence.unknown_stream_ended_cleanly,
        ),
        (
            "the stream failed inside the forwarding layer's own terminal budget"@,
            evidence.unknown_error_latency_ms > 0 && evidence.unknown_error_latency_ms < evidence.unknown_error_wait_ms,
        ),
        (
            "the export ended the connection when its child died"@,
            evidence.unknown_export_ended_connection && evidence.unknown_export_live_connections == 0,
        ),
        (
            "no stopReason ever arrived for the crashed turn"@,
            evidence.unknown_no_stop_reason,
        ),
        (
            "the side effect is recorded exactly once in the agent's own ledger"@,
            evidence.side_effects_in_ledger == 1,
        ),
        (
            "nothing replayed the side effect within the observation window"@,
            evidence.side_effects_after_settle == 1,
        ),
        (
            "the export classified the crashed turn outcome_unknown through the terminal rule"@,
            evidence.export_terminal_unknown_delta == 1,
        ),
        (
            "the export classified the completed turn succeeded through the terminal rule"@,
            evidence.export_terminal_succeeded_delta == 1,
        ),
        (
            "the export classified the cancelled turn cancelled through the terminal rule"@,
            evidence.export_terminal_cancelled_delta == 1,
        ),
    ]
}

fn check_unknown(evidence: &AcpRealPathEvidence) -> (broken: Option<&'static str>)
    ensures
        match broken {
            Some(rule) => first_broken(unknown_rules(*evidence)) == Some(rule@),
            None => first_broken(unknown_rules(*evidence)) is None,
        },
{
    let mut audit = Audit::new(Ghost(unknown_rules(*evidence)));
    audit.hold(
        "the crashed turn's stream errored rather than ending cleanly",
        evidence.unknown_stream_errored && !evidence.unknown_stream_ended_cleanly,
    );
    audit.hold(
        "the stream failed inside the forwarding layer's own terminal budget",
        evidence.unknown_error_latency_ms > 0 && evidence.unknown_error_latency_ms < evidence.unknown_error_wait_ms,
    );
    audit.hold(
        "the export ended the connection when its child died",
        evidence.unknown_export_ended_connection && evidence.unknown_export_live_connections == 0,
    );
    audit.hold(
        "no stopReason ever arrived for the crashed turn",
        evidence.unknown_no_stop_reason,
    );
    audit.hold(
        "the side effect is recorded exactly once in the agent's own ledger",
        evidence.side_effects_in_ledger == 1,
    );
    audit.hold(
        "nothing replayed the side effect within the observation window",
        evidence.side_effects_after_settle == 1,
    );
    audit.hold(
        "the export classified the crashed turn outcome_unknown through the terminal rule",
        evidence.export_terminal_unknown_delta == 1,
    );
    audit.hold(
        "the export classified the completed turn succeeded through the terminal rule",
        evidence.export_terminal_succeeded_delta == 1,
    );
    audit.hold(
        "the export classified the cancelled turn cancelled through the terminal rule",
        evidence.export_terminal_cancelled_delta == 1,
    );
    audit.broken()
}

/// The membership accommodation and the refusal ledger.
pub open spec fn membership_rules(evidence: AcpRealPathEvidence) -> Seq<(Seq<char>, bool)> {
    seq![
        (
            "membership was re-signed only at case boundaries, and rarely"@,
            evidence.membership_resigns >= 1 && evidence.membership_resigns <= (evidence.max_membership_age_at_case_end_ms as int) / (MEMBERSHIP_RESIGN_SPACING_MS as int) + 1,
        ),
        (
            "every case ended inside the membership records' lifetime"@,
            evidence.max_membership_age_at_case_end_ms < MEMBERSHIP_RECORD_LIFETIME_MS,
        ),
        (
            "every not_dispatched refusal coincided with an observed rotation freeze and was bounded"@,
            evidence.not_dispatched_refusals == evidence.not_dispatched_retries && evidence.not_dispatched_retries <= NOT_DISPATCHED_RETRIES && evidence.unexplained_refusal is None,
        ),
    ]
}

fn check_membership(evidence: &AcpRealPathEvidence) -> (broken: Option<&'static str>)
    ensures
        match broken {
            Some(rule) => first_broken(membership_rules(*evidence)) == Some(rule@),
            None => first_broken(membership_rules(*evidence)) is None,
        },
{
    let mut audit = Audit::new(Ghost(membership_rules(*evidence)));
    audit.hold(
        "membership was re-signed only at case boundaries, and rarely",
        evidence.membership_resigns >= 1 && evidence.membership_resigns as u128 <= evidence.max_membership_age_at_case_end_ms / MEMBERSHIP_RESIGN_SPACING_MS + 1,
    );
    audit.hold(
        "every case ended inside the membership records' lifetime",
        evidence.max_membership_age_at_case_end_ms < MEMBERSHIP_RECORD_LIFETIME_MS,
    );
    audit.hold(
        "every not_dispatched refusal coincided with an observed rotation freeze and was bounded",
        evidence.not_dispatched_refusals == evidence.not_dispatched_retries && evidence.not_dispatched_retries <= NOT_DISPATCHED_RETRIES && evidence.unexplained_refusal.is_none(),
    );
    audit.broken()
}

/// What follows a broken session stream.
pub open spec fn session_loss_rules(evidence: AcpRealPathEvidence) -> Seq<(Seq<char>, bool)> {
    seq![
        (
            "a broken session stream: the transport terminated by the subscriber-loss rule"@,
            evidence.session_loss.terminated_by_loss,
        ),
        (
            "a broken session stream: the pending permission resolved cancelled and none was approved"@,
            evidence.session_loss.permissions_cancelled == 1 && evidence.session_loss.permissions_approved == 0,
        ),
        (
            "a broken session stream: a new prompt is refused"@,
            evidence.session_loss.new_prompt_refused,
        ),
        (
            "a broken session stream: the other required stream errored rather than ending cleanly"@,
            evidence.session_loss.other_stream_errored,
        ),
        (
            "a broken session stream: a reconnect must initialize anew"@,
            evidence.session_loss.reconnect_requires_initialize,
        ),
        (
            "a broken session stream: the child is gone from the process table"@,
            evidence.session_loss.child_gone_from_process_table,
        ),
    ]
}

fn check_session_loss(evidence: &AcpRealPathEvidence) -> (broken: Option<&'static str>)
    ensures
        match broken {
            Some(rule) => first_broken(session_loss_rules(*evidence)) == Some(rule@),
            None => first_broken(session_loss_rules(*evidence)) is None,
        },
{
    let mut audit = Audit::new(Ghost(session_loss_rules(*evidence)));
    audit.hold(
        "a broken session stream: the transport terminated by the subscriber-loss rule",
        evidence.session_loss.terminated_by_loss,
    );
    audit.hold(
        "a broken session stream: the pending permission resolved cancelled and none was approved",
        evidence.session_loss.permissions_cancelled == 1 && evidence.session_loss.permissions_approved == 0,
    );
    audit.hold(
        "a broken session stream: a new prompt is refused",
        evidence.session_loss.new_prompt_refused,
    );
    audit.hold(
        "a broken session stream: the other required stream errored rather than ending cleanly",
        evidence.session_loss.other_stream_errored,
    );
    audit.hold(
        "a broken session stream: a reconnect must initialize anew",
        evidence.session_loss.reconnect_requires_initialize,
    );
    audit.hold(
        "a broken session stream: the child is gone from the process table",
        evidence.session_loss.child_gone_from_process_table,
    );
    audit.broken()
}

/// What follows a broken connection stream.
pub open spec fn connection_loss_rules(evidence: AcpRealPathEvidence) -> Seq<(Seq<char>, bool)> {
    seq![
        (
            "a broken connection stream: the transport terminated by the subscriber-loss rule"@,
            evidence.connection_loss.terminated_by_loss,
        ),
        (
            "a broken connection stream: the pending permission resolved cancelled and none was approved"@,
            evidence.connection_loss.permissions_cancelled == 1 && evidence.connection_loss.permissions_approved == 0,
        ),
        (
            "a broken connection stream: a new prompt is refused"@,
            evidence.connection_loss.new_prompt_refused,
        ),
        (
            "a broken connection stream: the other required stream errored rather than ending cleanly"@,
            evidence.connection_loss.other_stream_errored,
        ),
        (
            "a broken connection stream: a reconnect must initialize anew"@,
            evidence.connection_loss.reconnect_requires_initialize,
        ),
        (
            "a broken connection stream: the child is gone from the process table"@,
            evidence.connection_loss.child_gone_from_process_table,
        ),
    ]
}

fn check_connection_loss(evidence: &AcpRealPathEvidence) -> (broken: Option<&'static str>)
    ensures
        match broken {
            Some(rule) => first_broken(connection_loss_rules(*evidence)) == Some(rule@),
            None => first_broken(connection_loss_rules(*evidence)) is None,
        },
{
    let mut audit = Audit::new(Ghost(connection_loss_rules(*evidence)));
    audit.hold(
        "a broken connection stream: the transport terminated by the subscriber-loss rule",
        evidence.connection_loss.terminated_by_loss,
    );
    audit.hold(
        "a broken connection stream: the pending permission resolved cancelled and none was approved",
        evidence.connection_loss.permissions_cancelled == 1 && evidence.connection_loss.permissions_approved == 0,
    );
    audit.hold(
        "a broken connection stream: a new prompt is refused",
        evidence.connection_loss.new_prompt_refused,
    );
    audit.hold(
        "a broken connection stream: the other required stream errored rather than ending cleanly",
        evidence.connection_loss.other_stream_errored,
    );
    audit.hold(
        "a broken connection stream: a reconnect must initialize anew",
        evidence.connection_loss.reconnect_requires_initialize,
    );
    audit.hold(
        "a broken connection stream: the child is gone from the process table",
        evidence.connection_loss.child_gone_from_process_table,
    );
    audit.broken()
}

/// The sections of the rules, in the order in which they are held.
pub open spec fn real_path_sections(evidence: AcpRealPathEvidence, permit: Seq<char>, reject: Seq<char>) -> Seq<Seq<(Seq<char>, bool)>> {
    seq![
        run_rules(evidence),
        conversation_rules(evidence),
        permission_rules(evidence, permit, reject),
        cancel_rules(evidence),
        unknown_rules(evidence),
        membership_rules(evidence),
        session_loss_rules(evidence),
        connection_loss_rules(evidence),
    ]
}

/// The steps of the rules: their sections.
pub open spec fn real_path_steps(
    evidence: AcpRealPathEvidence,
    permit: Seq<char>,
    reject: Seq<char>,
) -> spec_fn(int) -> Seq<(Seq<char>, bool)> {
    |i: int| real_path_sections(evidence, permit, reject)[i]
}

/// The rules that a run must keep, where the agent's two options are `permit`
/// and `reject`.
pub open spec fn real_path_rules(
    evidence: AcpRealPathEvidence,
    permit: Seq<char>,
    reject: Seq<char>,
) -> Seq<(Seq<char>, bool)> {
    chained(real_path_steps(evidence, permit, reject), 8)
}

proof fn lemma_section(
    evidence: AcpRealPathEvidence,
    permit: Seq<char>,
    reject: Seq<char>,
    i: nat,
)
    requires
        i < 8,
        first_broken(chained(real_path_steps(evidence, permit, reject), i)) is None,
    ensures
        first_broken(real_path_sections(evidence, permit, reject)[i as int]) is None
            ==> first_broken(chained(real_path_steps(evidence, permit, reject), i + 1)) is None,
        first_broken(real_path_sections(evidence, permit, reject)[i as int]) is Some
            ==> first_broken(real_path_rules(evidence, permit, reject)) == first_broken(
            real_path_sections(evidence, permit, reject)[i as int],
        ),
{
    let steps = real_path_steps(evidence, permit, reject);
    lemma_chained_step(steps, i);
    if first_broken(steps(i as int)) is Some {
        lemma_chained_broken(steps, i + 1, 8);
    }
}

fn check_claims(evidence: &AcpRealPathEvidence, permit_option: &str, reject_option: &str) -> (broken:
    Option<&'static str>)
    ensures
        match broken {
            Some(rule) => first_broken(
                real_path_rules(*evidence, permit_option@, reject_option@),
            ) == Some(rule@),
            None => first_broken(
                real_path_rules(*evidence, permit_option@, reject_option@),
            ) is None,
        },
{
    proof {
        lemma_section(*evidence, permit_option@, reject_option@, 0);
    }
    match check_run(evidence) {
        Some(rule) => {
            return Some(rule);
        },
        None => {},
    }
    proof {
        lemma_section(*evidence, permit_option@, reject_option@, 1);
    }
    match check_conversation(evidence) {
        Some(rule) => {
            return Some(rule);
        },
        None => {},
    }
    proof {
        lemma_section(*evidence, permit_option@, reject_option@, 2);
    }
    match check_permission(evidence, permit_option, reject_option) {
        Some(rule) => {
            return Some(rule);
        },
        None => {},
    }
    proof {
        lemma_section(*evidence, permit_option@, reject_option@, 3);
    }
    match check_cancel(evidence) {
        Some(rule) => {
            return Some(rule);
        },
        None => {},
    }
    proof {
        lemma_section(*evidence, permit_option@, reject_option@, 4);
    }
    match check_unknown(evidence) {
        Some(rule) => {
            return Some(rule);
        },
        None => {},
    }
    proof {
        lemma_section(*evidence, permit_option@, reject_option@, 5);
    }
    match check_membership(evidence) {
        Some(rule) => {
            return Some(rule);
        },
        None => {},
    }
    proof {
        lemma_section(*evidence, permit_option@, reject_option@, 6);
    }
    match check_session_loss(evidence) {
        Some(rule) => {
            return Some(rule);
        },
        None => {},
    }
    proof {
        lemma_section(*evidence, permit_option@, reject_option@, 7);
    }
    check_connection_loss(evidence)
}

/// The first rule that a run does not keep.
pub open spec fn real_path_failure(
    evidence: AcpRealPathEvidence,
    permit: Seq<char>,
    reject: Seq<char>,
) -> Option<Seq<char>> {
    if first_broken(real_path_rules(evidence, permit, reject)) is Some {
        first_broken(real_path_rules(evidence, permit, reject))
    } else if evidence.leftover_processes != 0 {
        Some(decimal(evidence.leftover_processes as nat) + " agent processes outlived the \
            gate"@)
    } else {
        None
    }
}

/// Holds every rule of this gate.  The first violated one names itself.
///
/// `permit_option` and `reject_option` are the two options of the agent
/// fixture.
pub fn validate_acp_real_path_evidence(
    evidence: &AcpRealPathEvidence,
    permit_option: &str,
    reject_option: &str,
) -> (result: Result<(), HarnessError>)
    ensures
        match result {
            Ok(()) => real_path_failure(*evidence, permit_option@, reject_option@) is None,
            Err(error) => real_path_failure(*evidence, permit_option@, reject_option@) is Some
                && error@ == ErrorView::Process(
                "ACP real-path gate failed: "@ + real_path_failure(
                    *evidence,
                    permit_option@,
                    reject_option@,
                )->Some_0,
            ),
        },
        result is Ok ==> {
            &&& evidence.side_effects_in_ledger == 1
            &&& evidence.side_effects_after_settle == 1
            &&& evidence.unknown_no_stop_reason
            &&& evidence.session_loss.permissions_approved == 0
            &&& evidence.connection_loss.permissions_approved == 0
            &&& evidence.unexplained_refusal is None
            &&& evidence.leftover_processes == 0
        },
{
    proof {
        lemma_passing_run_measured(*evidence, permit_option@, reject_option@);
    }
    match check_claims(evidence, permit_option, reject_option) {
        Some(rule) => {
            return Err(
                HarnessError::Process("ACP real-path gate failed: ".to_owned().concat(rule)),
            );
        },
        None => {},
    }
    if evidence.leftover_processes != 0 {
        let leftover = decimal_text(evidence.leftover_processes as u128);
        let text = leftover.concat(" agent processes outlived the \
            gate");
        return Err(
            HarnessError::Process("ACP real-path gate failed: ".to_owned().concat(text.as_str())),
        );
    }
    Ok(())
}

/// A run passes exactly when it keeps every rule and leaves no agent process.
pub proof fn lemma_passing_run(
    evidence: AcpRealPathEvidence,
    permit: Seq<char>,
    reject: Seq<char>,
)
    ensures
        real_path_failure(evidence, permit, reject) is None <==> all_hold(
            real_path_rules(evidence, permit, reject),
        ) && evidence.leftover_processes == 0,
{
    lemma_first_broken(real_path_rules(evidence, permit, reject));
}

/// On a cluster of the right shape, a run that did not execute every case in
/// order is named for exactly that, whatever else it left unmeasured.
pub proof fn lemma_missing_case_is_named(
    evidence: AcpRealPathEvidence,
    permit: Seq<char>,
    reject: Seq<char>,
)
    requires
        run_rules(evidence)[0].1,
        run_rules(evidence)[1].1,
        views(evidence.cases_executed@) != str_views(ACP_CASES@),
    ensures
        real_path_failure(evidence, permit, reject) == Some("every case executed"@),
{
    let rules = run_rules(evidence);
    reveal_with_fuel(first_broken, 4);
    assert(rules.drop_first()[0] == rules[1]);
    assert(rules.drop_first().drop_first()[0] == rules[2]);
    assert(first_broken(rules) == Some("every case executed"@));
    let steps = real_path_steps(evidence, permit, reject);
    assert(chained(steps, 0) =~= Seq::empty());
    lemma_section(evidence, permit, reject, 0);
}

/// The cases of this run, by name.
proof fn lemma_cases()
    ensures
        str_views(ACP_CASES@) == seq![
            "conversation"@,
            "permission-allow"@,
            "permission-reject"@,
            "cancel"@,
            "sse-loss-session"@,
            "sse-loss-connection"@,
            "outcome-unknown"@,
        ],
{
    assert(str_views(ACP_CASES@) =~= seq![
        "conversation"@,
        "permission-allow"@,
        "permission-reject"@,
        "cancel"@,
        "sse-loss-session"@,
        "sse-loss-connection"@,
        "outcome-unknown"@,
    ]);
}

/// What the rules of the run section ask of the evidence.
proof fn lemma_run_claims(evidence: AcpRealPathEvidence)
    ensures
        all_hold(run_rules(evidence)) <==> {
            &&& evidence.relay_count == 3
            &&& evidence.non_owner_ingress
            &&& evidence.owner_node@ == "relay-a"@
            &&& evidence.ingress_node@ == "relay-c"@
            &&& views(evidence.cases_executed@) == seq![
                "conversation"@,
                "permission-allow"@,
                "permission-reject"@,
                "cancel"@,
                "sse-loss-session"@,
                "sse-loss-connection"@,
                "outcome-unknown"@,
            ]
            &&& evidence.not_covered@.len() == 10
            &&& (exists|i: int|
                0 <= i < 10 && occurs_in(
                    (#[trigger] evidence.not_covered@[i])@,
                    rotations_text(evidence.rotations_observed),
                ))
        },
{
    let rules = run_rules(evidence);
    assert(rules.len() == 4);
    lemma_cases();
    assert(views(evidence.not_covered@).len() == evidence.not_covered@.len());
    assert forall|i: int| 0 <= i < evidence.not_covered@.len() implies views(
        evidence.not_covered@,
    )[i] == (#[trigger] evidence.not_covered@[i])@ by {
    }
    if all_hold(rules) {
        assert(rules[0].1);
        assert(rules[1].1);
        assert(rules[2].1);
        assert(rules[3].1);
    }
}

/// What the rules of the conversation section ask of the evidence.
proof fn lemma_conversation_claims(evidence: AcpRealPathEvidence)
    ensures
        all_hold(conversation_rules(evidence)) <==> {
            &&& evidence.connection_opened
            &&& evidence.session_id_from_connection_stream
            &&& evidence.prompt_accepted_202
            &&& evidence.conversation_stop_reason@ == "end_turn"@
        },
{
    let rules = conversation_rules(evidence);
    assert(rules.len() == 4);
    if all_hold(rules) {
        assert(rules[0].1);
        assert(rules[1].1);
        assert(rules[2].1);
        assert(rules[3].1);
    }
}

/// What the rules of the permission section ask of the evidence.
proof fn lemma_permission_claims(
    evidence: AcpRealPathEvidence,
    permit: Seq<char>,
    reject: Seq<char>,
)
    ensures
        all_hold(permission_rules(evidence, permit, reject)) <==> {
            &&& evidence.permission_requested_on_wire
            &&& views(evidence.offered_options@) == seq![permit, reject]
            &&& evidence.allow_outcome_at_agent@ == "selected:"@ + permit
            &&& evidence.reject_outcome_at_agent@ == "selected:"@ + reject
            &&& evidence.allow_stop_reason@ == "end_turn"@
            &&& evidence.reject_stop_reason@ == "refusal"@
            &&& evidence.unoffered_option_rule@ == "ACP_OPTION_NOT_OFFERED"@
            &&& evidence.unknown_request_id_rule@ == "ACP_UNKNOWN_REQUEST_ID"@
            &&& evidence.wrong_connection_status == 404
        },
{
    let rules = permission_rules(evidence, permit, reject);
    assert(rules.len() == 9);
    if all_hold(rules) {
        assert(rules[0].1);
        assert(rules[1].1);
        assert(rules[2].1);
        assert(rules[3].1);
        assert(rules[4].1);
        assert(rules[5].1);
        assert(rules[6].1);
        assert(rules[7].1);
        assert(rules[8].1);
    }
}

/// What the rules of the cancel section ask of the evidence.
proof fn lemma_cancel_claims(evidence: AcpRealPathEvidence)
    ensures
        all_hold(cancel_rules(evidence)) <==> {
            &&& evidence.cancel_stop_reason@ == "cancelled"@
            &&& evidence.cancel_outcome_at_agent@ == "cancelled:"@
            &&& evidence.update_after_cancel_before_result
        },
{
    let rules = cancel_rules(evidence);
    assert(rules.len() == 3);
    if all_hold(rules) {
        assert(rules[0].1);
        assert(rules[1].1);
        assert(rules[2].1);
    }
}

/// What the rules of the unknown section ask of the evidence.
proof fn lemma_unknown_claims(evidence: AcpRealPathEvidence)
    ensures
        all_hold(unknown_rules(evidence)) <==> {
            &&& evidence.unknown_stream_errored
            &&& !evidence.unknown_stream_ended_cleanly
            &&& evidence.unknown_error_latency_ms > 0
            &&& evidence.unknown_error_latency_ms < evidence.unknown_error_wait_ms
            &&& evidence.unknown_export_ended_connection
            &&& evidence.unknown_export_live_connections == 0
            &&& evidence.unknown_no_stop_reason
            &&& evidence.side_effects_in_ledger == 1
            &&& evidence.side_effects_after_settle == 1
            &&& evidence.export_terminal_unknown_delta == 1
            &&& evidence.export_terminal_succeeded_delta == 1
            &&& evidence.export_terminal_cancelled_delta == 1
        },
{
    let rules = unknown_rules(evidence);
    assert(rules.len() == 9);
    if all_hold(rules) {
        assert(rules[0].1);
        assert(rules[1].1);
        assert(rules[2].1);
        assert(rules[3].1);
        assert(rules[4].1);
        assert(rules[5].1);
        assert(rules[6].1);
        assert(rules[7].1);
        assert(rules[8].1);
    }
}

/// What the rules of the membership section ask of the evidence.
proof fn lemma_membership_claims(evidence: AcpRealPathEvidence)
    ensures
        all_hold(membership_rules(evidence)) <==> {
            &&& evidence.membership_resigns >= 1
            &&& evidence.membership_resigns <= (evidence.max_membership_age_at_case_end_ms as int)
                / 15000 + 1
            &&& evidence.max_membership_age_at_case_end_ms < 60000
            &&& evidence.not_dispatched_refusals == evidence.not_dispatched_retries
            &&& evidence.not_dispatched_retries <= 12
            &&& evidence.unexplained_refusal is None
        },
{
    let rules = membership_rules(evidence);
    assert(rules.len() == 3);
    if all_hold(rules) {
        assert(rules[0].1);
        assert(rules[1].1);
        assert(rules[2].1);
    }
}

/// What the rules of the session loss section ask of the evidence.
proof fn lemma_session_loss_claims(evidence: AcpRealPathEvidence)
    ensures
        all_hold(session_loss_rules(evidence)) <==> {
            &&& evidence.session_loss.terminated_by_loss
            &&& evidence.session_loss.permissions_cancelled == 1
            &&& evidence.session_loss.permissions_approved == 0
            &&& evidence.session_loss.new_prompt_refused
            &&& evidence.session_loss.other_stream_errored
            &&& evidence.session_loss.reconnect_requires_initialize
            &&& evidence.session_loss.child_gone_from_process_table
        },
{
    let rules = session_loss_rules(evidence);
    assert(rules.len() == 6);
    if all_hold(rules) {
        assert(rules[0].1);
        assert(rules[1].1);
        assert(rules[2].1);
        assert(rules[3].1);
        assert(rules[4].1);
        assert(rules[5].1);
    }
}

/// What the rules of the connection loss section ask of the evidence.
proof fn lemma_connection_loss_claims(evidence: AcpRealPathEvidence)
    ensures
        all_hold(connection_loss_rules(evidence)) <==> {
            &&& evidence.connection_loss.terminated_by_loss
            &&& evidence.connection_loss.permissions_cancelled == 1
            &&& evidence.connection_loss.permissions_approved == 0
            &&& evidence.connection_loss.new_prompt_refused
            &&& evidence.connection_loss.other_stream_errored
            &&& evidence.connection_loss.reconnect_requires_initialize
            &&& evidence.connection_loss.child_gone_from_process_table
        },
{
    let rules = connection_loss_rules(evidence);
    assert(rules.len() == 6);
    if all_hold(rules) {
        assert(rules[0].1);
        assert(rules[1].1);
        assert(rules[2].1);
        assert(rules[3].1);
        assert(rules[4].1);
        assert(rules[5].1);
    }
}

/// The rules of a run hold exactly when those of each section do.
proof fn lemma_sections_hold(
    evidence: AcpRealPathEvidence,
    permit: Seq<char>,
    reject: Seq<char>,
)
    ensures
        all_hold(real_path_rules(evidence, permit, reject)) <==> {
            &&& all_hold(run_rules(evidence))
            &&& all_hold(conversation_rules(evidence))
            &&& all_hold(permission_rules(evidence, permit, reject))
            &&& all_hold(cancel_rules(evidence))
            &&& all_hold(unknown_rules(evidence))
            &&& all_hold(membership_rules(evidence))
            &&& all_hold(session_loss_rules(evidence))
            &&& all_hold(connection_loss_rules(evidence))
        },
{
    let steps = real_path_steps(evidence, permit, reject);
    lemma_all_hold_chained(steps, 8);
    assert(steps(0) == run_rules(evidence));
    assert(steps(1) == conversation_rules(evidence));
    assert(steps(2) == permission_rules(evidence, permit, reject));
    assert(steps(3) == cancel_rules(evidence));
    assert(steps(4) == unknown_rules(evidence));
    assert(steps(5) == membership_rules(evidence));
    assert(steps(6) == session_loss_rules(evidence));
    assert(steps(7) == connection_loss_rules(evidence));
}

/// A run passes exactly when it measured this, field by field.
pub proof fn lemma_passing_run_measured(
    evidence: AcpRealPathEvidence,
    permit: Seq<char>,
    reject: Seq<char>,
)
    ensures
        real_path_failure(evidence, permit, reject) is None <==> {
            &&& evidence.relay_count == 3
            &&& evidence.non_owner_ingress
            &&& evidence.owner_node@ == "relay-a"@
            &&& evidence.ingress_node@ == "relay-c"@
            &&& views(evidence.cases_executed@) == seq![
                "conversation"@,
                "permission-allow"@,
                "permission-reject"@,
                "cancel"@,
                "sse-loss-session"@,
                "sse-loss-connection"@,
                "outcome-unknown"@,
            ]
            &&& evidence.not_covered@.len() == 10
            &&& (exists|i: int|
                0 <= i < 10 && occurs_in(
                    (#[trigger] evidence.not_covered@[i])@,
                    rotations_text(evidence.rotations_observed),
                ))
            &&& evidence.connection_opened
            &&& evidence.session_id_from_connection_stream
            &&& evidence.prompt_accepted_202
            &&& evidence.conversation_stop_reason@ == "end_turn"@
            &&& evidence.permission_requested_on_wire
            &&& views(evidence.offered_options@) == seq![permit, reject]
            &&& evidence.allow_outcome_at_agent@ == "selected:"@ + permit
            &&& evidence.reject_outcome_at_agent@ == "selected:"@ + reject
            &&& evidence.allow_stop_reason@ == "end_turn"@
            &&& evidence.reject_stop_reason@ == "refusal"@
            &&& evidence.unoffered_option_rule@ == "ACP_OPTION_NOT_OFFERED"@
            &&& evidence.unknown_request_id_rule@ == "ACP_UNKNOWN_REQUEST_ID"@
            &&& evidence.wrong_connection_status == 404
            &&& evidence.cancel_stop_reason@ == "cancelled"@
            &&& evidence.cancel_outcome_at_agent@ == "cancelled:"@
            &&& evidence.update_after_cancel_before_result
            &&& evidence.unknown_stream_errored
            &&& !evidence.unknown_stream_ended_cleanly
            &&& evidence.unknown_error_latency_ms > 0
            &&& evidence.unknown_error_latency_ms < evidence.unknown_error_wait_ms
            &&& evidence.unknown_export_ended_connection
            &&& evidence.unknown_export_live_connections == 0
            &&& evidence.unknown_no_stop_reason
            &&& evidence.side_effects_in_ledger == 1
            &&& evidence.side_effects_after_settle == 1
            &&& evidence.export_terminal_unknown_delta == 1
            &&& evidence.export_terminal_succeeded_delta == 1
            &&& evidence.export_terminal_cancelled_delta == 1
            &&& evidence.membership_resigns >= 1
            &&& evidence.membership_resigns <= (evidence.max_membership_age_at_case_end_ms as int)
                / 15000 + 1
            &&& evidence.max_membership_age_at_case_end_ms < 60000
            &&& evidence.not_dispatched_refusals == evidence.not_dispatched_retries
            &&& evidence.not_dispatched_retries <= 12
            &&& evidence.unexplained_refusal is None
            &&& evidence.session_loss.terminated_by_loss
            &&& evidence.session_loss.permissions_cancelled == 1
            &&& evidence.session_loss.permissions_approved == 0
            &&& evidence.session_loss.new_prompt_refused
            &&& evidence.session_loss.other_stream_errored
            &&& evidence.session_loss.reconnect_requires_initialize
            &&& evidence.session_loss.child_gone_from_process_table
            &&& evidence.connection_loss.terminated_by_loss
            &&& evidence.connection_loss.permissions_cancelled == 1
            &&& evidence.connection_loss.permissions_approved == 0
            &&& evidence.connection_loss.new_prompt_refused
            &&& evidence.connection_loss.other_stream_errored
            &&& evidence.connection_loss.reconnect_requires_initialize
            &&& evidence.connection_loss.child_gone_from_process_table
            &&& evidence.leftover_processes == 0
        },
{
    lemma_passing_run(evidence, permit, reject);
    lemma_sections_hold(evidence, permit, reject);
    lemma_run_claims(evidence);
    lemma_conversation_claims(evidence);
    lemma_permission_claims(evidence, permit, reject);
    lemma_cancel_claims(evidence);
    lemma_unknown_claims(evidence);
    lemma_membership_claims(evidence);
    lemma_session_loss_claims(evidence);
    lemma_connection_loss_claims(evidence);
}

/// The claim that the rules of the run itself name is one that the evidence breaks,
/// and each of them has its own words.
pub proof fn lemma_run_claim_is_broken(evidence: AcpRealPathEvidence)
    ensures
        first_broken(run_rules(evidence)) == Some(
            "three relays"@,
        ) ==> !(evidence.relay_count == 3),
        first_broken(run_rules(evidence)) == Some(
            "the device is owned by relay-a and the consumer entered at relay-c"@,
        ) ==> !(evidence.non_owner_ingress && evidence.owner_node@ == "relay-a"@ && evidence.ingress_node@ == "relay-c"@),
        first_broken(run_rules(evidence)) == Some(
            "every case executed"@,
        ) ==> !(views(evidence.cases_executed@) == str_views(ACP_CASES@)),
        first_broken(run_rules(evidence)) == Some(
            "the limits of the claim are recorded, and the rotation disclosure states the observed count"@,
        ) ==> !(discloses_rotations(views(evidence.not_covered@), evidence.rotations_observed)),
        first_broken(run_rules(evidence)) matches Some(claim) ==> {
            ||| claim == "three relays"@
            ||| claim == "the device is owned by relay-a and the consumer entered at relay-c"@
            ||| claim == "every case executed"@
            ||| claim == "the limits of the claim are recorded, and the rotation disclosure states the observed count"@
        },
{
    let rules = run_rules(evidence);
    lemma_first_broken(rules);
    reveal_strlit("three relays");
    reveal_strlit("the device is owned by relay-a and the consumer entered at relay-c");
    reveal_strlit("every case executed");
    reveal_strlit(
        "the limits of the claim are recorded, and the rotation disclosure states the observed count",
    );
    assert(rules.len() == 4);
    assert(rules[0].0.len() == 12);
    assert(rules[1].0.len() == 66);
    assert(rules[2].0.len() == 19);
    assert(rules[3].0.len() == 91);
}

/// The claim that the rules of the conversation name is one that the evidence breaks,
/// and each of them has its own words.
pub proof fn lemma_conversation_claim_is_broken(evidence: AcpRealPathEvidence)
    ensures
        first_broken(conversation_rules(evidence)) == Some(
            "initialize opened a connection"@,
        ) ==> !(evidence.connection_opened),
        first_broken(conversation_rules(evidence)) == Some(
            "the session identifier arrived on the connection stream"@,
        ) ==> !(evidence.session_id_from_connection_stream),
        first_broken(conversation_rules(evidence)) == Some(
            "session/prompt was accepted 202 and answered separately"@,
        ) ==> !(evidence.prompt_accepted_202),
        first_broken(conversation_rules(evidence)) == Some(
            "the turn completed with end_turn, read off the wire"@,
        ) ==> !(evidence.conversation_stop_reason@ == "end_turn"@),
        first_broken(conversation_rules(evidence)) matches Some(claim) ==> {
            ||| claim == "initialize opened a connection"@
            ||| claim == "the session identifier arrived on the connection stream"@
            ||| claim == "session/prompt was accepted 202 and answered separately"@
            ||| claim == "the turn completed with end_turn, read off the wire"@
        },
{
    let rules = conversation_rules(evidence);
    lemma_first_broken(rules);
    reveal_strlit("initialize opened a connection");
    reveal_strlit("the session identifier arrived on the connection stream");
    reveal_strlit("session/prompt was accepted 202 and answered separately");
    reveal_strlit("the turn completed with end_turn, read off the wire");
    assert("the session identifier arrived on the connection stream"@[0] == 't');
    assert("session/prompt was accepted 202 and answered separately"@[0] == 's');
    assert(rules.len() == 4);
    assert(rules[0].0.len() == 30);
    assert(rules[1].0.len() == 55);
    assert(rules[2].0.len() == 55);
    assert(rules[3].0.len() == 51);
}

/// The claim that the rules of the permissions name is one that the evidence breaks,
/// and each of them has its own words.
pub proof fn lemma_permission_claim_is_broken(
    evidence: AcpRealPathEvidence,
    permit: Seq<char>,
    reject: Seq<char>,
)
    ensures
        first_broken(permission_rules(evidence, permit, reject)) == Some(
            "the permission callback was observed on the session stream"@,
        ) ==> !(evidence.permission_requested_on_wire),
        first_broken(permission_rules(evidence, permit, reject)) == Some(
            "the agent offered exactly the two options this profile expects"@,
        ) ==> !(views(evidence.offered_options@) == seq![permit, reject]),
        first_broken(permission_rules(evidence, permit, reject)) == Some(
            "the agent itself recorded receiving the allowed option"@,
        ) ==> !(evidence.allow_outcome_at_agent@ == "selected:"@ + permit),
        first_broken(permission_rules(evidence, permit, reject)) == Some(
            "the agent itself recorded receiving the rejected option"@,
        ) ==> !(evidence.reject_outcome_at_agent@ == "selected:"@ + reject),
        first_broken(permission_rules(evidence, permit, reject)) == Some(
            "an allowed permission ends the turn end_turn"@,
        ) ==> !(evidence.allow_stop_reason@ == "end_turn"@),
        first_broken(permission_rules(evidence, permit, reject)) == Some(
            "a rejected permission ends the turn refusal"@,
        ) ==> !(evidence.reject_stop_reason@ == "refusal"@),
        first_broken(permission_rules(evidence, permit, reject)) == Some(
            "an unoffered option is refused by its own rule, read off the wire"@,
        ) ==> !(evidence.unoffered_option_rule@ == "ACP_OPTION_NOT_OFFERED"@),
        first_broken(permission_rules(evidence, permit, reject)) == Some(
            "a response answering nothing outstanding is refused by its own rule"@,
        ) ==> !(evidence.unknown_request_id_rule@ == "ACP_UNKNOWN_REQUEST_ID"@),
        first_broken(permission_rules(evidence, permit, reject)) == Some(
            "a response on the wrong connection is answered 404, as a nonexistent one is"@,
        ) ==> !(evidence.wrong_connection_status == 404),
        first_broken(permission_rules(evidence, permit, reject)) matches Some(claim) ==> {
            ||| claim == "the permission callback was observed on the session stream"@
            ||| claim == "the agent offered exactly the two options this profile expects"@
            ||| claim == "the agent itself recorded receiving the allowed option"@
            ||| claim == "the agent itself recorded receiving the rejected option"@
            ||| claim == "an allowed permission ends the turn end_turn"@
            ||| claim == "a rejected permission ends the turn refusal"@
            ||| claim == "an unoffered option is refused by its own rule, read off the wire"@
            ||| claim == "a response answering nothing outstanding is refused by its own rule"@
            ||| claim == "a response on the wrong connection is answered 404, as a nonexistent one is"@
        },
{
    let rules = permission_rules(evidence, permit, reject);
    lemma_first_broken(rules);
    reveal_strlit("the permission callback was observed on the session stream");
    reveal_strlit("the agent offered exactly the two options this profile expects");
    reveal_strlit("the agent itself recorded receiving the allowed option");
    reveal_strlit("the agent itself recorded receiving the rejected option");
    reveal_strlit("an allowed permission ends the turn end_turn");
    reveal_strlit("a rejected permission ends the turn refusal");
    reveal_strlit("an unoffered option is refused by its own rule, read off the wire");
    reveal_strlit("a response answering nothing outstanding is refused by its own rule");
    reveal_strlit(
        "a response on the wrong connection is answered 404, as a nonexistent one is",
    );
    assert(rules.len() == 9);
    assert(rules[0].0.len() == 58);
    assert(rules[1].0.len() == 62);
    assert(rules[2].0.len() == 54);
    assert(rules[3].0.len() == 55);
    assert(rules[4].0.len() == 44);
    assert(rules[5].0.len() == 43);
    assert(rules[6].0.len() == 65);
    assert(rules[7].0.len() == 67);
    assert(rules[8].0.len() == 75);
}

/// The claim that the rules of the cancellation name is one that the evidence breaks,
/// and each of them has its own words.
pub proof fn lemma_cancel_claim_is_broken(evidence: AcpRealPathEvidence)
    ensures
        first_broken(cancel_rules(evidence)) == Some(
            "a confirmed cancelled turn has stopReason cancelled, read off the wire"@,
        ) ==> !(evidence.cancel_stop_reason@ == "cancelled"@),
        first_broken(cancel_rules(evidence)) == Some(
            "the agent itself recorded receiving a cancelled permission"@,
        ) ==> !(evidence.cancel_outcome_at_agent@ == "cancelled:"@),
        first_broken(cancel_rules(evidence)) == Some(
            "an update was accepted after the cancellation and before the prompt result"@,
        ) ==> !(evidence.update_after_cancel_before_result),
        first_broken(cancel_rules(evidence)) matches Some(claim) ==> {
            ||| claim == "a confirmed cancelled turn has stopReason cancelled, read off the wire"@
            ||| claim == "the agent itself recorded receiving a cancelled permission"@
            ||| claim == "an update was accepted after the cancellation and before the prompt result"@
        },
{
    let rules = cancel_rules(evidence);
    lemma_first_broken(rules);
    reveal_strlit("a confirmed cancelled turn has stopReason cancelled, read off the wire");
    reveal_strlit("the agent itself recorded receiving a cancelled permission");
    reveal_strlit(
        "an update was accepted after the cancellation and before the prompt result",
    );
    assert(rules.len() == 3);
    assert(rules[0].0.len() == 70);
    assert(rules[1].0.len() == 58);
    assert(rules[2].0.len() == 74);
}

/// The claim that the rules of the crashed turn name is one that the evidence breaks,
/// and each of them has its own words.
pub proof fn lemma_unknown_claim_is_broken(evidence: AcpRealPathEvidence)
    ensures
        first_broken(unknown_rules(evidence)) == Some(
            "the crashed turn's stream errored rather than ending cleanly"@,
        ) ==> !(evidence.unknown_stream_errored && !evidence.unknown_stream_ended_cleanly),
        first_broken(unknown_rules(evidence)) == Some(
            "the stream failed inside the forwarding layer's own terminal budget"@,
        ) ==> !(evidence.unknown_error_latency_ms > 0 && evidence.unknown_error_latency_ms < evidence.unknown_error_wait_ms),
        first_broken(unknown_rules(evidence)) == Some(
            "the export ended the connection when its child died"@,
        ) ==> !(evidence.unknown_export_ended_connection && evidence.unknown_export_live_connections == 0),
        first_broken(unknown_rules(evidence)) == Some(
            "no stopReason ever arrived for the crashed turn"@,
        ) ==> !(evidence.unknown_no_stop_reason),
        first_broken(unknown_rules(evidence)) == Some(
            "the side effect is recorded exactly once in the agent's own ledger"@,
        ) ==> !(evidence.side_effects_in_ledger == 1),
        first_broken(unknown_rules(evidence)) == Some(
            "nothing replayed the side effect within the observation window"@,
        ) ==> !(evidence.side_effects_after_settle == 1),
        first_broken(unknown_rules(evidence)) == Some(
            "the export classified the crashed turn outcome_unknown through the terminal rule"@,
        ) ==> !(evidence.export_terminal_unknown_delta == 1),
        first_broken(unknown_rules(evidence)) == Some(
            "the export classified the completed turn succeeded through the terminal rule"@,
        ) ==> !(evidence.export_terminal_succeeded_delta == 1),
        first_broken(unknown_rules(evidence)) == Some(
            "the export classified the cancelled turn cancelled through the terminal rule"@,
        ) ==> !(evidence.export_terminal_cancelled_delta == 1),
        first_broken(unknown_rules(evidence)) matches Some(claim) ==> {
            ||| claim == "the crashed turn's stream errored rather than ending cleanly"@
            ||| claim == "the stream failed inside the forwarding layer's own terminal budget"@
            ||| claim == "the export ended the connection when its child died"@
            ||| claim == "no stopReason ever arrived for the crashed turn"@
            ||| claim == "the side effect is recorded exactly once in the agent's own ledger"@
            ||| claim == "nothing replayed the side effect within the observation window"@
            ||| claim == "the export classified the crashed turn outcome_unknown through the terminal rule"@
            ||| claim == "the export classified the completed turn succeeded through the terminal rule"@
            ||| claim == "the export classified the cancelled turn cancelled through the terminal rule"@
        },
{
    let rules = unknown_rules(evidence);
    lemma_first_broken(rules);
    reveal_strlit("the crashed turn's stream errored rather than ending cleanly");
    reveal_strlit("the stream failed inside the forwarding layer's own terminal budget");
    reveal_strlit("the export ended the connection when its child died");
    reveal_strlit("no stopReason ever arrived for the crashed turn");
    reveal_strlit("the side effect is recorded exactly once in the agent's own ledger");
    reveal_strlit("nothing replayed the side effect within the observation window");
    reveal_strlit(
        "the export classified the crashed turn outcome_unknown through the terminal rule",
    );
    reveal_strlit(
        "the export classified the completed turn succeeded through the terminal rule",
    );
    reveal_strlit(
        "the export classified the cancelled turn cancelled through the terminal rule",
    );
    assert("the export classified the completed turn succeeded through the terminal rule"@[27] == 'o');
    assert("the export classified the cancelled turn cancelled through the terminal rule"@[27] == 'a');
    assert(rules.len() == 9);
    assert(rules[0].0.len() == 60);
    assert(rules[1].0.len() == 67);
    assert(rules[2].0.len() == 51);
    assert(rules[3].0.len() == 47);
    assert(rules[4].0.len() == 66);
    assert(rules[5].0.len() == 62);
    assert(rules[6].0.len() == 80);
    assert(rules[7].0.len() == 76);
    assert(rules[8].0.len() == 76);
}

/// The claim that the rules of the membership name is one that the evidence breaks,
/// and each of them has its own words.
pub proof fn lemma_membership_claim_is_broken(evidence: AcpRealPathEvidence)
    ensures
        first_broken(membership_rules(evidence)) == Some(
            "membership was re-signed only at case boundaries, and rarely"@,
        ) ==> !(evidence.membership_resigns >= 1 && evidence.membership_resigns <= (evidence.max_membership_age_at_case_end_ms as int) / 15000 + 1),
        first_broken(membership_rules(evidence)) == Some(
            "every case ended inside the membership records' lifetime"@,
        ) ==> !(evidence.max_membership_age_at_case_end_ms < 60000),
        first_broken(membership_rules(evidence)) == Some(
            "every not_dispatched refusal coincided with an observed rotation freeze and was bounded"@,
        ) ==> !(evidence.not_dispatched_refusals == evidence.not_dispatched_retries && evidence.not_dispatched_retries <= 12 && evidence.unexplained_refusal is None),
        first_broken(membership_rules(evidence)) matches Some(claim) ==> {
            ||| claim == "membership was re-signed only at case boundaries, and rarely"@
            ||| claim == "every case ended inside the membership records' lifetime"@
            ||| claim == "every not_dispatched refusal coincided with an observed rotation freeze and was bounded"@
        },
{
    let rules = membership_rules(evidence);
    lemma_first_broken(rules);
    reveal_strlit("membership was re-signed only at case boundaries, and rarely");
    reveal_strlit("every case ended inside the membership records' lifetime");
    reveal_strlit(
        "every not_dispatched refusal coincided with an observed rotation freeze and was bounded",
    );
    assert(rules.len() == 3);
    assert(rules[0].0.len() == 60);
    assert(rules[1].0.len() == 56);
    assert(rules[2].0.len() == 87);
}

/// The claim that the rules of a lost session stream name is one that the evidence breaks,
/// and each of them has its own words.
pub proof fn lemma_session_loss_claim_is_broken(evidence: AcpRealPathEvidence)
    ensures
        first_broken(session_loss_rules(evidence)) == Some(
            "a broken session stream: the transport terminated by the subscriber-loss rule"@,
        ) ==> !(evidence.session_loss.terminated_by_loss),
        first_broken(session_loss_rules(evidence)) == Some(
            "a broken session stream: the pending permission resolved cancelled and none was approved"@,
        ) ==> !(evidence.session_loss.permissions_cancelled == 1 && evidence.session_loss.permissions_approved == 0),
        first_broken(session_loss_rules(evidence)) == Some(
            "a broken session stream: a new prompt is refused"@,
        ) ==> !(evidence.session_loss.new_prompt_refused),
        first_broken(session_loss_rules(evidence)) == Some(
            "a broken session stream: the other required stream errored rather than ending cleanly"@,
        ) ==> !(evidence.session_loss.other_stream_errored),
        first_broken(session_loss_rules(evidence)) == Some(
            "a broken session stream: a reconnect must initialize anew"@,
        ) ==> !(evidence.session_loss.reconnect_requires_initialize),
        first_broken(session_loss_rules(evidence)) == Some(
            "a broken session stream: the child is gone from the process table"@,
        ) ==> !(evidence.session_loss.child_gone_from_process_table),
        first_broken(session_loss_rules(evidence)) matches Some(claim) ==> {
            ||| claim == "a broken session stream: the transport terminated by the subscriber-loss rule"@
            ||| claim == "a broken session stream: the pending permission resolved cancelled and none was approved"@
            ||| claim == "a broken session stream: a new prompt is refused"@
            ||| claim == "a broken session stream: the other required stream errored rather than ending cleanly"@
            ||| claim == "a broken session stream: a reconnect must initialize anew"@
            ||| claim == "a broken session stream: the child is gone from the process table"@
        },
{
    let rules = session_loss_rules(evidence);
    lemma_first_broken(rules);
    reveal_strlit(
        "a broken session stream: the transport terminated by the subscriber-loss rule",
    );
    reveal_strlit(
        "a broken session stream: the pending permission resolved cancelled and none was approved",
    );
    reveal_strlit("a broken session stream: a new prompt is refused");
    reveal_strlit(
        "a broken session stream: the other required stream errored rather than ending cleanly",
    );
    reveal_strlit("a broken session stream: a reconnect must initialize anew");
    reveal_strlit("a broken session stream: the child is gone from the process table");
    assert(rules.len() == 6);
    assert(rules[0].0.len() == 77);
    assert(rules[1].0.len() == 88);
    assert(rules[2].0.len() == 48);
    assert(rules[3].0.len() == 85);
    assert(rules[4].0.len() == 57);
    assert(rules[5].0.len() == 65);
}

/// The claim that the rules of a lost connection stream name is one that the evidence breaks,
/// and each of them has its own words.
pub proof fn lemma_connection_loss_claim_is_broken(evidence: AcpRealPathEvidence)
    ensures
        first_broken(connection_loss_rules(evidence)) == Some(
            "a broken connection stream: the transport terminated by the subscriber-loss rule"@,
        ) ==> !(evidence.connection_loss.terminated_by_loss),
        first_broken(connection_loss_rules(evidence)) == Some(
            "a broken connection stream: the pending permission resolved cancelled and none was approved"@,
        ) ==> !(evidence.connection_loss.permissions_cancelled == 1 && evidence.connection_loss.permissions_approved == 0),
        first_broken(connection_loss_rules(evidence)) == Some(
            "a broken connection stream: a new prompt is refused"@,
        ) ==> !(evidence.connection_loss.new_prompt_refused),
        first_broken(connection_loss_rules(evidence)) == Some(
            "a broken connection stream: the other required stream errored rather than ending cleanly"@,
        ) ==> !(evidence.connection_loss.other_stream_errored),
        first_broken(connection_loss_rules(evidence)) == Some(
            "a broken connection stream: a reconnect must initialize anew"@,
        ) ==> !(evidence.connection_loss.reconnect_requires_initialize),
        first_broken(connection_loss_rules(evidence)) == Some(
            "a broken connection stream: the child is gone from the process table"@,
        ) ==> !(evidence.connection_loss.child_gone_from_process_table),
        first_broken(connection_loss_rules(evidence)) matches Some(claim) ==> {
            ||| claim == "a broken connection stream: the transport terminated by the subscriber-loss rule"@
            ||| claim == "a broken connection stream: the pending permission resolved cancelled and none was approved"@
            ||| claim == "a broken connection stream: a new prompt is refused"@
            ||| claim == "a broken connection stream: the other required stream errored rather than ending cleanly"@
            ||| claim == "a broken connection stream: a reconnect must initialize anew"@
            ||| claim == "a broken connection stream: the child is gone from the process table"@
        },
{
    let rules = connection_loss_rules(evidence);
    lemma_first_broken(rules);
    reveal_strlit(
        "a broken connection stream: the transport terminated by the subscriber-loss rule",
    );
    reveal_strlit(
        "a broken connection stream: the pending permission resolved cancelled and none was approved",
    );
    reveal_strlit("a broken connection stream: a new prompt is refused");
    reveal_strlit(
        "a broken connection stream: the other required stream errored rather than ending cleanly",
    );
    reveal_strlit("a broken connection stream: a reconnect must initialize anew");
    reveal_strlit("a broken connection stream: the child is gone from the process table");
    assert(rules.len() == 6);
    assert(rules[0].0.len() == 80);
    assert(rules[1].0.len() == 91);
    assert(rules[2].0.len() == 51);
    assert(rules[3].0.len() == 88);
    assert(rules[4].0.len() == 60);
    assert(rules[5].0.len() == 68);
}

/// A run is named for the first of its sections that it breaks, in this order.
pub proof fn lemma_sections_in_order(
    evidence: AcpRealPathEvidence,
    permit: Seq<char>,
    reject: Seq<char>,
)
    ensures
        first_broken(run_rules(evidence)) is Some ==> real_path_failure(evidence, permit, reject)
            == first_broken(run_rules(evidence)),
        first_broken(run_rules(evidence)) is None
            && first_broken(conversation_rules(evidence)) is Some ==> real_path_failure(evidence, permit, reject)
            == first_broken(conversation_rules(evidence)),
        first_broken(run_rules(evidence)) is None
            && first_broken(conversation_rules(evidence)) is None
            && first_broken(permission_rules(evidence, permit, reject)) is Some ==> real_path_failure(evidence, permit, reject)
            == first_broken(permission_rules(evidence, permit, reject)),
        first_broken(run_rules(evidence)) is None
            && first_broken(conversation_rules(evidence)) is None
            && first_broken(permission_rules(evidence, permit, reject)) is None
            && first_broken(cancel_rules(evidence)) is Some ==> real_path_failure(evidence, permit, reject)
            == first_broken(cancel_rules(evidence)),
        first_broken(run_rules(evidence)) is None
            && first_broken(conversation_rules(evidence)) is None
            && first_broken(permission_rules(evidence, permit, reject)) is None
            && first_broken(cancel_rules(evidence)) is None
            && first_broken(unknown_rules(evidence)) is Some ==> real_path_failure(evidence, permit, reject)
            == first_broken(unknown_rules(evidence)),
        first_broken(run_rules(evidence)) is None
            && first_broken(conversation_rules(evidence)) is None
            && first_broken(permission_rules(evidence, permit, reject)) is None
            && first_broken(cancel_rules(evidence)) is None
            && first_broken(unknown_rules(evidence)) is None
            && first_broken(membership_rules(evidence)) is Some ==> real_path_failure(evidence, permit, reject)
            == first_broken(membership_rules(evidence)),
        first_broken(run_rules(evidence)) is None
            && first_broken(conversation_rules(evidence)) is None
            && first_broken(permission_rules(evidence, permit, reject)) is None
            && first_broken(cancel_rules(evidence)) is None
            && first_broken(unknown_rules(evidence)) is None
            && first_broken(membership_rules(evidence)) is None
            && first_broken(session_loss_rules(evidence)) is Some ==> real_path_failure(evidence, permit, reject)
            == first_broken(session_loss_rules(evidence)),
        first_broken(run_rules(evidence)) is None
            && first_broken(conversation_rules(evidence)) is None
            && first_broken(permission_rules(evidence, permit, reject)) is None
            && first_broken(cancel_rules(evidence)) is None
            && first_broken(unknown_rules(evidence)) is None
            && first_broken(membership_rules(evidence)) is None
            && first_broken(session_loss_rules(evidence)) is None
            && first_broken(connection_loss_rules(evidence)) is Some ==> real_path_failure(evidence, permit, reject)
            == first_broken(connection_loss_rules(evidence)),
{
    assert(chained(real_path_steps(evidence, permit, reject), 0) =~= Seq::empty());
    lemma_section(evidence, permit, reject, 0);
    if first_broken(run_rules(evidence)) is None {
        lemma_section(evidence, permit, reject, 1);
        if first_broken(conversation_rules(evidence)) is None {
            lemma_section(evidence, permit, reject, 2);
            if first_broken(permission_rules(evidence, permit, reject)) is None {
                lemma_section(evidence, permit, reject, 3);
                if first_broken(cancel_rules(evidence)) is None {
                    lemma_section(evidence, permit, reject, 4);
                    if first_broken(unknown_rules(evidence)) is None {
                        lemma_section(evidence, permit, reject, 5);
                        if first_broken(membership_rules(evidence)) is None {
                            lemma_section(evidence, permit, reject, 6);
                            if first_broken(session_loss_rules(evidence)) is None {
                                lemma_section(evidence, permit, reject, 7);
                            }
                        }
                    }
                }
            }
        }
    }
}

} // verus!
