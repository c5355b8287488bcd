//! What each case of the real-path gate writes into the evidence, from what it
//! observed.

use vstd::prelude::*;
use vstd::string::*;

use crate::acp_real_path::{
    not_covered, rotation_disclosure, AcpRealPathEvidence, LossEvidence, ACP_CASES, NOT_COVERED,
};
use crate::acp_wire::{
    message_views, stop_reason, text_under, update_after_cancel, update_before_result,
};
use crate::c11_window::str_views;
use crate::error::{ErrorView, HarnessError};
use crate::freeze::RefusalLedger;
use crate::json::{Json, JsonView};
use crate::text::{same_text, views};

verus! {

/// A case of the real-path gate.
#[derive(Clone, Copy, Debug, Eq, PartialEq, Structural)]
pub enum RealPathCase {
    Conversation,
    PermissionAllow,
    PermissionReject,
    Cancel,
    SseLossSession,
    SseLossConnection,
    OutcomeUnknown,
}

impl RealPathCase {
    /// The case's name.
    pub open spec fn name(self) -> Seq<char> {
        match self {
            RealPathCase::Conversation => "conversation"@,
            RealPathCase::PermissionAllow => "permission-allow"@,
            RealPathCase::PermissionReject => "permission-reject"@,
            RealPathCase::Cancel => "cancel"@,
            RealPathCase::SseLossSession => "sse-loss-session"@,
            RealPathCase::SseLossConnection => "sse-loss-connection"@,
            RealPathCase::OutcomeUnknown => "outcome-unknown"@,
        }
    }
}

/// The case of that name.
pub fn real_path_case(name: &str) -> (result: Result<RealPathCase, HarnessError>)
    ensures
        match result {
            Ok(case) => case.name() == name@,
            Err(error) => (forall|case: RealPathCase| (#[trigger] case.name()) != name@) && error@
                == ErrorView::InvalidInput("unknown ACP gate case "@ + name@),
        },
{
    if same_text(name, "conversation") {
        return Ok(RealPathCase::Conversation);
    }
    if same_text(name, "permission-allow") {
        return Ok(RealPathCase::PermissionAllow);
    }
    if same_text(name, "permission-reject") {
        return Ok(RealPathCase::PermissionReject);
    }
    if same_text(name, "cancel") {
        return Ok(RealPathCase::Cancel);
    }
    if same_text(name, "sse-loss-session") {
        return Ok(RealPathCase::SseLossSession);
    }
    if same_text(name, "sse-loss-connection") {
        return Ok(RealPathCase::SseLossConnection);
    }
    if same_text(name, "outcome-unknown") {
        return Ok(RealPathCase::OutcomeUnknown);
    }
    Err(HarnessError::InvalidInput("unknown ACP gate case ".to_owned().concat(name)))
}

/// The export's counters at one instant.
#[derive(Clone, Copy, Debug, Eq, PartialEq, Structural)]
pub struct ExportCounters {
    pub connections_ended_by_subscriber_loss: u64,
    pub connections_ended_by_child: u64,
    pub permissions_cancelled_by_loss: u64,
    pub permissions_answered: u64,
    pub terminals_succeeded: u64,
    pub terminals_cancelled: u64,
    pub terminals_unknown: u64,
    pub live_connections: u64,
}

/// No counter fell between two readings.
pub open spec fn only_rose(before: ExportCounters, now: ExportCounters) -> bool {
    &&& before.connections_ended_by_subscriber_loss <= now.connections_ended_by_subscriber_loss
    &&& before.connections_ended_by_child <= now.connections_ended_by_child
    &&& before.permissions_cancelled_by_loss <= now.permissions_cancelled_by_loss
    &&& before.permissions_answered <= now.permissions_answered
    &&& before.terminals_succeeded <= now.terminals_succeeded
    &&& before.terminals_cancelled <= now.terminals_cancelled
    &&& before.terminals_unknown <= now.terminals_unknown
}

/// Whether no counter fell between two readings.
pub fn counters_rose(before: &ExportCounters, now: &ExportCounters) -> (rose: bool)
    ensures
        rose == only_rose(*before, *now),
{
    before.connections_ended_by_subscriber_loss <= now.connections_ended_by_subscriber_loss
        && before.connections_ended_by_child <= now.connections_ended_by_child
        && before.permissions_cancelled_by_loss <= now.permissions_cancelled_by_loss
        && before.permissions_answered <= now.permissions_answered && before.terminals_succeeded
        <= now.terminals_succeeded && before.terminals_cancelled <= now.terminals_cancelled
        && before.terminals_unknown <= now.terminals_unknown
}

/// Whether a session-scoped response kept the session identifier to itself.
pub fn check_session_header(present: bool) -> (result: Result<(), HarnessError>)
    ensures
        match result {
            Ok(()) => !present,
            Err(error) => present && error@ == ErrorView::Http(
                "a session-scoped SSE response carried Acp-Session-Id (M8-C05)"@,
            ),
        },
{
    if present {
        return Err(
            HarnessError::http("a session-scoped SSE response carried Acp-Session-Id (M8-C05)"),
        );
    }
    Ok(())
}

/// Records a conversation that was opened: the connection from the response's
/// header, the session off the connection's stream.
pub fn record_opened(evidence: &mut AcpRealPathEvidence)
    ensures
        *final(evidence) == (AcpRealPathEvidence {
            connection_opened: true,
            session_id_from_connection_stream: true,
            ..*old(evidence)
        }),
{
    evidence.connection_opened = true;
    evidence.session_id_from_connection_stream = true;
}

/// Records a whole turn, accepted, with its own result and what the export
/// made of it.
pub fn record_conversation(
    evidence: &mut AcpRealPathEvidence,
    stop: String,
    before: ExportCounters,
    after: ExportCounters,
)
    requires
        only_rose(before, after),
    ensures
        *final(evidence) == (AcpRealPathEvidence {
            prompt_accepted_202: true,
            conversation_stop_reason: stop,
            export_terminal_succeeded_delta: (after.terminals_succeeded
                - before.terminals_succeeded) as u64,
            ..*old(evidence)
        }),
{
    evidence.prompt_accepted_202 = true;
    evidence.conversation_stop_reason = stop;
    evidence.export_terminal_succeeded_delta = after.terminals_succeeded
        - before.terminals_succeeded;
}

/// Records the refusals that must meet a permission response while the real
/// callback is outstanding: an option nobody offered, an identifier that
/// answers nothing, and the right answer on the wrong connection.
pub fn record_permission_refusals(
    evidence: &mut AcpRealPathEvidence,
    unoffered_rule: String,
    unknown_rule: String,
    wrong_connection_status: u16,
)
    ensures
        *final(evidence) == (AcpRealPathEvidence {
            unoffered_option_rule: unoffered_rule,
            unknown_request_id_rule: unknown_rule,
            wrong_connection_status,
            ..*old(evidence)
        }),
{
    evidence.unoffered_option_rule = unoffered_rule;
    evidence.unknown_request_id_rule = unknown_rule;
    evidence.wrong_connection_status = wrong_connection_status;
}

/// Records the callback seen on the wire and the options it offered.
pub fn record_callback(evidence: &mut AcpRealPathEvidence, offered: Vec<String>)
    ensures
        *final(evidence) == (AcpRealPathEvidence {
            permission_requested_on_wire: true,
            offered_options: offered,
            ..*old(evidence)
        }),
{
    evidence.permission_requested_on_wire = true;
    evidence.offered_options = offered;
}

/// Records an answered permission: the turn's result, and what the agent
/// itself recorded receiving.
pub fn record_permission(
    evidence: &mut AcpRealPathEvidence,
    allow: bool,
    stop: String,
    outcome: String,
)
    ensures
        *final(evidence) == if allow {
            AcpRealPathEvidence {
                allow_stop_reason: stop,
                allow_outcome_at_agent: outcome,
                ..*old(evidence)
            }
        } else {
            AcpRealPathEvidence {
                reject_stop_reason: stop,
                reject_outcome_at_agent: outcome,
                ..*old(evidence)
            }
        },
{
    if allow {
        evidence.allow_stop_reason = stop;
        evidence.allow_outcome_at_agent = outcome;
    } else {
        evidence.reject_stop_reason = stop;
        evidence.reject_outcome_at_agent = outcome;
    }
}

/// Records a cancelled turn: its result, the agent's record, the update that
/// came after the cancellation and before the result, and the export's count.
pub fn record_cancel(
    evidence: &mut AcpRealPathEvidence,
    stop: String,
    outcome: String,
    seen: &Vec<Json>,
    seen_before: usize,
    before: ExportCounters,
    after: ExportCounters,
)
    requires
        only_rose(before, after),
    ensures
        *final(evidence) == (AcpRealPathEvidence {
            cancel_stop_reason: stop,
            cancel_outcome_at_agent: outcome,
            update_after_cancel_before_result: update_before_result(
                message_views(seen@),
                seen_before as int,
            ),
            export_terminal_cancelled_delta: (after.terminals_cancelled
                - before.terminals_cancelled) as u64,
            ..*old(evidence)
        }),
{
    evidence.cancel_stop_reason = stop;
    evidence.cancel_outcome_at_agent = outcome;
    evidence.update_after_cancel_before_result = update_after_cancel(seen, seen_before);
    evidence.export_terminal_cancelled_delta = after.terminals_cancelled
        - before.terminals_cancelled;
}

/// What to do after one look at the export while a broken stream should end
/// its transport.
pub enum LossStep {
    /// The transport ended by the loss.
    Ended(LossEvidence),
    /// Look again.
    Again,
    /// The transport did not end.
    TimedOut(HarnessError),
}

/// The transport ended by the loss of a subscriber.
pub open spec fn ended_by_loss(before: ExportCounters, now: ExportCounters) -> bool {
    now.connections_ended_by_subscriber_loss > before.connections_ended_by_subscriber_loss
}

/// Decides on one look at the export after a required stream was broken.
/// Pending permissions must be cancelled by it, and never approved.
pub fn judge_loss(before: ExportCounters, now: ExportCounters, past_deadline: bool) -> (step:
    LossStep)
    requires
        only_rose(before, now),
    ensures
        match step {
            LossStep::Ended(loss) => ended_by_loss(before, now) && loss == (LossEvidence {
                terminated_by_loss: now.connections_ended_by_child
                    == before.connections_ended_by_child,
                permissions_cancelled: (now.permissions_cancelled_by_loss
                    - before.permissions_cancelled_by_loss) as u64,
                permissions_approved: (now.permissions_answered
                    - before.permissions_answered) as u64,
                new_prompt_refused: false,
                other_stream_errored: false,
                reconnect_requires_initialize: false,
                child_gone_from_process_table: false,
            }),
            LossStep::Again => !ended_by_loss(before, now) && !past_deadline,
            LossStep::TimedOut(error) => !ended_by_loss(before, now) && past_deadline && error@
                == ErrorView::Timeout(
                "breaking an established required stream did not terminate the transport"@,
            ),
        },
{
    if now.connections_ended_by_subscriber_loss > before.connections_ended_by_subscriber_loss {
        return LossStep::Ended(
            LossEvidence {
                terminated_by_loss: now.connections_ended_by_child
                    == before.connections_ended_by_child,
                permissions_cancelled: now.permissions_cancelled_by_loss
                    - before.permissions_cancelled_by_loss,
                permissions_approved: now.permissions_answered - before.permissions_answered,
                new_prompt_refused: false,
                other_stream_errored: false,
                reconnect_requires_initialize: false,
                child_gone_from_process_table: false,
            },
        );
    }
    if past_deadline {
        LossStep::TimedOut(
            HarnessError::timeout(
                "breaking an established required stream did not terminate the transport",
            ),
        )
    } else {
        LossStep::Again
    }
}

/// What followed the loss of a required stream.
pub struct LossAftermath {
    /// The status that a new prompt met.
    pub prompt_status: u16,
    /// The other required stream failed; an orderly end does not count.
    pub other_errored: bool,
    /// The status that the old connection's GET met.
    pub old_status: u16,
    /// The connections before the loss and of a fresh `initialize`.
    pub old_connection: String,
    pub fresh_connection: String,
    /// The agent's process is gone from the process table.
    pub child_gone: bool,
}

/// Records the loss of one required stream.  A GET that reopens would show no
/// recovery: the old connection must be gone, and a fresh one different.
pub fn record_loss(
    evidence: &mut AcpRealPathEvidence,
    session_stream: bool,
    ended: LossEvidence,
    aftermath: &LossAftermath,
)
    ensures
        ({
            let loss = LossEvidence {
                new_prompt_refused: aftermath.prompt_status == 404,
                other_stream_errored: aftermath.other_errored,
                reconnect_requires_initialize: aftermath.old_status == 404
                    && aftermath.fresh_connection@ != aftermath.old_connection@,
                child_gone_from_process_table: aftermath.child_gone,
                ..ended
            };
            *final(evidence) == if session_stream {
                AcpRealPathEvidence { session_loss: loss, ..*old(evidence) }
            } else {
                AcpRealPathEvidence { connection_loss: loss, ..*old(evidence) }
            }
        }),
{
    let mut loss = ended;
    loss.new_prompt_refused = aftermath.prompt_status == 404;
    loss.other_stream_errored = aftermath.other_errored;
    loss.reconnect_requires_initialize = aftermath.old_status == 404 && !same_text(
        aftermath.fresh_connection.as_str(),
        aftermath.old_connection.as_str(),
    );
    loss.child_gone_from_process_table = aftermath.child_gone;
    if session_stream {
        evidence.session_loss = loss;
    } else {
        evidence.connection_loss = loss;
    }
}

/// How the wait for a crashed turn's stream ended.
#[derive(Clone, Copy, Debug, Eq, PartialEq, Structural)]
pub enum StreamEnd {
    /// The stream failed, so many milliseconds after the prompt.
    Errored(u128),
    /// The stream ended in order, which is another failure than staying open.
    Ended,
    /// The stream was still open when its time was up.
    Open,
}

/// No message carries a result.
pub open spec fn without_result(seen: Seq<JsonView>) -> bool {
    forall|i: int|
        0 <= i < seen.len() ==> text_under(
            #[trigger] seen[i],
            "result"@,
            "stopReason"@,
        ) is None
}

fn no_result(seen: &Vec<Json>) -> (none: bool)
    ensures
        none == without_result(message_views(seen@)),
{
    let ghost all = message_views(seen@);
    let mut i: usize = 0;
    while i < seen.len()
        invariant
            i <= seen.len(),
            all == message_views(seen@),
            forall|k: int|
                0 <= k < i ==> text_under(#[trigger] all[k], "result"@, "stopReason"@) is None,
        decreases seen.len() - i,
    {
        assert(all[i as int] == seen@[i as int]@);
        if stop_reason(&seen[i]).is_some() {
            return false;
        }
        i += 1;
    }
    true
}

/// Records a turn whose agent crashed: how its stream ended within the bound,
/// and what the export made of the lost process.
pub fn record_crash(
    evidence: &mut AcpRealPathEvidence,
    end: StreamEnd,
    bound_ms: u128,
    seen: &Vec<Json>,
    before: ExportCounters,
    after: ExportCounters,
)
    ensures
        *final(evidence) == (AcpRealPathEvidence {
            unknown_stream_errored: old(evidence).unknown_stream_errored || end is Errored,
            unknown_error_latency_ms: match end {
                StreamEnd::Errored(latency_ms) => latency_ms,
                _ => old(evidence).unknown_error_latency_ms,
            },
            unknown_stream_ended_cleanly: old(evidence).unknown_stream_ended_cleanly
                || end is Ended,
            unknown_error_wait_ms: bound_ms,
            unknown_export_ended_connection: after.connections_ended_by_child
                > before.connections_ended_by_child,
            unknown_export_live_connections: after.live_connections,
            unknown_no_stop_reason: without_result(message_views(seen@)),
            ..*old(evidence)
        }),
{
    match end {
        StreamEnd::Errored(latency_ms) => {
            evidence.unknown_stream_errored = true;
            evidence.unknown_error_latency_ms = latency_ms;
        },
        StreamEnd::Ended => {
            evidence.unknown_stream_ended_cleanly = true;
        },
        StreamEnd::Open => {},
    }
    evidence.unknown_error_wait_ms = bound_ms;
    evidence.unknown_export_ended_connection = after.connections_ended_by_child
        > before.connections_ended_by_child;
    evidence.unknown_export_live_connections = after.live_connections;
    evidence.unknown_no_stop_reason = no_result(seen);
}

/// Records the side effects that the agent's ledger names, when the stream had
/// failed and after a settle window, and what the export made of the turn.
pub fn record_effects(
    evidence: &mut AcpRealPathEvidence,
    first: u64,
    settled: u64,
    before: ExportCounters,
    after: ExportCounters,
)
    requires
        only_rose(before, after),
    ensures
        *final(evidence) == (AcpRealPathEvidence {
            side_effects_in_ledger: first,
            side_effects_after_settle: settled,
            export_terminal_unknown_delta: (after.terminals_unknown
                - before.terminals_unknown) as u64,
            ..*old(evidence)
        }),
{
    evidence.side_effects_in_ledger = first;
    evidence.side_effects_after_settle = settled;
    evidence.export_terminal_unknown_delta = after.terminals_unknown - before.terminals_unknown;
}

/// What a run knows of itself when the cases are over.
pub struct RunTotals {
    pub membership_resigns: u64,
    pub device_sessions: u64,
    /// The completed rotations, where the connector is still there.
    pub rotations: Option<u64>,
    pub leftover_processes: usize,
}

/// Records the totals of a run, whether or not its cases succeeded, so that a
/// failure still reports them.
pub fn record_totals(evidence: &mut AcpRealPathEvidence, ledger: RefusalLedger, totals: &RunTotals)
    ensures
        ({
            let rotations = match totals.rotations {
                Some(count) => count,
                None => old(evidence).rotations_observed,
            };
            &&& views(final(evidence).not_covered@) == str_views(NOT_COVERED@).push(
                rotation_disclosure(rotations),
            )
            &&& *final(evidence) == (AcpRealPathEvidence {
                membership_resigns: totals.membership_resigns,
                not_dispatched_refusals: ledger.refusals,
                not_dispatched_retries: ledger.retries,
                unexplained_refusal: ledger.unexplained,
                device_sessions: totals.device_sessions,
                rotations_observed: rotations,
                not_covered: final(evidence).not_covered,
                leftover_processes: totals.leftover_processes,
                ..*old(evidence)
            })
        }),
{
    evidence.membership_resigns = totals.membership_resigns;
    evidence.not_dispatched_refusals = ledger.refusals;
    evidence.not_dispatched_retries = ledger.retries;
    evidence.unexplained_refusal = ledger.unexplained;
    evidence.device_sessions = totals.device_sessions;
    match totals.rotations {
        Some(count) => {
            evidence.rotations_observed = count;
        },
        None => {},
    }
    evidence.not_covered = not_covered(evidence.rotations_observed);
    evidence.leftover_processes = totals.leftover_processes;
}

/// The cases are those that a run executes, by name.
pub proof fn lemma_cases_by_name(case: RealPathCase)
    ensures
        exists|i: int| 0 <= i < 7 && (#[trigger] ACP_CASES@[i])@ == case.name(),
        RealPathCase::Conversation.name() == "conversation"@,
        RealPathCase::PermissionAllow.name() == "permission-allow"@,
        RealPathCase::PermissionReject.name() == "permission-reject"@,
        RealPathCase::Cancel.name() == "cancel"@,
        RealPathCase::SseLossSession.name() == "sse-loss-session"@,
        RealPathCase::SseLossConnection.name() == "sse-loss-connection"@,
        RealPathCase::OutcomeUnknown.name() == "outcome-unknown"@,
{
    assert(ACP_CASES@.len() == 7);
    assert(ACP_CASES@[0]@ == "conversation"@ && ACP_CASES@[1]@ == "permission-allow"@
        && ACP_CASES@[2]@ == "permission-reject"@);
    assert(exists|i: int| 0 <= i < 7 && (#[trigger] ACP_CASES@[i])@ == "cancel"@) by {
        assert(ACP_CASES@[3]@ == "cancel"@ || ACP_CASES@[4]@ == "cancel"@ || ACP_CASES@[5]@
            == "cancel"@ || ACP_CASES@[6]@ == "cancel"@);
    }
    assert(exists|i: int| 0 <= i < 7 && (#[trigger] ACP_CASES@[i])@ == "sse-loss-session"@) by {
        assert(ACP_CASES@[3]@ == "sse-loss-session"@ || ACP_CASES@[4]@ == "sse-loss-session"@
            || ACP_CASES@[5]@ == "sse-loss-session"@ || ACP_CASES@[6]@ == "sse-loss-session"@);
    }
    assert(exists|i: int| 0 <= i < 7 && (#[trigger] ACP_CASES@[i])@ == "sse-loss-connection"@) by {
        assert(ACP_CASES@[3]@ == "sse-loss-connection"@ || ACP_CASES@[4]@
            == "sse-loss-connection"@ || ACP_CASES@[5]@ == "sse-loss-connection"@
            || ACP_CASES@[6]@ == "sse-loss-connection"@);
    }
    assert(exists|i: int| 0 <= i < 7 && (#[trigger] ACP_CASES@[i])@ == "outcome-unknown"@) by {
        assert(ACP_CASES@[3]@ == "outcome-unknown"@ || ACP_CASES@[4]@ == "outcome-unknown"@
            || ACP_CASES@[5]@ == "outcome-unknown"@ || ACP_CASES@[6]@ == "outcome-unknown"@);
    }
}

/// Readings of counters that only rise: a reading rises from itself, and what
/// rose twice rose over both.  A fall of any of the seven is noticed.
pub proof fn lemma_counters_rise(a: ExportCounters, b: ExportCounters, c: ExportCounters)
    ensures
        only_rose(a, a),
        only_rose(a, b) && only_rose(b, c) ==> only_rose(a, c),
        b.connections_ended_by_subscriber_loss < a.connections_ended_by_subscriber_loss
            || b.connections_ended_by_child < a.connections_ended_by_child
            || b.permissions_cancelled_by_loss < a.permissions_cancelled_by_loss
            || b.permissions_answered < a.permissions_answered || b.terminals_succeeded
            < a.terminals_succeeded || b.terminals_cancelled < a.terminals_cancelled
            || b.terminals_unknown < a.terminals_unknown <==> !only_rose(a, b),
{
}

/// A transport ended by loss between two readings exactly when more of them had
/// ended so at the second.
pub proof fn lemma_ended_by_loss(before: ExportCounters, now: ExportCounters)
    requires
        only_rose(before, now),
    ensures
        ended_by_loss(before, now) <==> now.connections_ended_by_subscriber_loss
            != before.connections_ended_by_subscriber_loss,
        !ended_by_loss(before, before),
{
}

/// A stream is without a result exactly when each part of it is, and a message
/// ends that exactly when it has a text under `result` and `stopReason`.
pub proof fn lemma_without_result(first: Seq<JsonView>, second: Seq<JsonView>, one: JsonView)
    ensures
        without_result(first + second) <==> without_result(first) && without_result(second),
        without_result(seq![one]) <==> !(one.get("result"@) matches Some(result) && (result.get(
            "stopReason"@,
        ) matches Some(JsonView::Text(_)))),
{
    let whole = first + second;
    if without_result(whole) {
        assert forall|i: int| 0 <= i < first.len() implies text_under(
            #[trigger] first[i],
            "result"@,
            "stopReason"@,
        ) is None by {
            assert(whole[i] == first[i]);
        }
        assert forall|i: int| 0 <= i < second.len() implies text_under(
            #[trigger] second[i],
            "result"@,
            "stopReason"@,
        ) is None by {
            assert(whole[first.len() + i] == second[i]);
        }
    }
    if without_result(seq![one]) {
        assert(text_under(seq![one][0], "result"@, "stopReason"@) is None);
    }
}

} // verus!
