//! What each case of the cluster gate writes into the evidence, from what it
//! observed.

use vstd::prelude::*;
use vstd::string::*;

use crate::acp_cases::{inert, Answer, ForgeryTally};
use crate::acp_cluster::{
    forgery_rules, not_covered, span_disclosure, AcpClusterEvidence, CLUSTER_CASES, NOT_COVERED,
};
use crate::acp_load::{
    attested, better, is_saturated, met_schedule, observed_window, percent_of, saturated,
    spans_schedule, HopBytePair, LoadTally,
};
use crate::c10::{growth, label_view};
use crate::c11_window::str_views;
use crate::error::{ErrorView, HarnessError};
use crate::freeze::RefusalLedger;
use crate::gate_steps::{turn_served, Interruption};
use crate::rules::all_hold;
use crate::text::{decimal, decimal_text, same_text, views};

verus! {

/// A case of the cluster gate.
#[derive(Clone, Copy, Debug, Eq, PartialEq, Structural)]
pub enum ClusterCase {
    RotationSpan,
    TwoTenantIds,
    ForgedHeads,
    Saturation,
    Revocation,
    PeerKeyRotation,
    PeerPathLoss,
    OwnerLoss,
}

impl ClusterCase {
    /// The case's name.
    pub open spec fn name(self) -> Seq<char> {
        match self {
            ClusterCase::RotationSpan => "rotation-span"@,
            ClusterCase::TwoTenantIds => "two-tenant-ids"@,
            ClusterCase::ForgedHeads => "forged-heads"@,
            ClusterCase::Saturation => "saturation"@,
            ClusterCase::Revocation => "revocation"@,
            ClusterCase::PeerKeyRotation => "peer-key-rotation"@,
            ClusterCase::PeerPathLoss => "peer-path-loss"@,
            ClusterCase::OwnerLoss => "owner-loss"@,
        }
    }
}

/// The case of that name.
pub fn cluster_case(name: &str) -> (result: Result<ClusterCase, HarnessError>)
    ensures
        match result {
            Ok(case) => case.name() == name@,
            Err(error) => (forall|case: ClusterCase| (#[trigger] case.name()) != name@) && error@
                == ErrorView::InvalidInput("unknown ACP cluster gate case "@ + name@),
        },
{
    if same_text(name, "rotation-span") {
        return Ok(ClusterCase::RotationSpan);
    }
    if same_text(name, "two-tenant-ids") {
        return Ok(ClusterCase::TwoTenantIds);
    }
    if same_text(name, "forged-heads") {
        return Ok(ClusterCase::ForgedHeads);
    }
    if same_text(name, "saturation") {
        return Ok(ClusterCase::Saturation);
    }
    if same_text(name, "revocation") {
        return Ok(ClusterCase::Revocation);
    }
    if same_text(name, "peer-key-rotation") {
        return Ok(ClusterCase::PeerKeyRotation);
    }
    if same_text(name, "peer-path-loss") {
        return Ok(ClusterCase::PeerPathLoss);
    }
    if same_text(name, "owner-loss") {
        return Ok(ClusterCase::OwnerLoss);
    }
    Err(HarnessError::InvalidInput("unknown ACP cluster gate case ".to_owned().concat(name)))
}

/// Whether tenant B's device is owned by the relay it attaches to.
pub fn check_second_owner(node: &str) -> (result: Result<(), HarnessError>)
    ensures
        match result {
            Ok(()) => node@ == "relay-b"@,
            Err(error) => node@ != "relay-b"@ && error@ == ErrorView::Process(
                "the tenant-B device is owned by "@ + node@ + ", not relay-b"@,
            ),
        },
{
    if !same_text(node, "relay-b") {
        return Err(
            HarnessError::Process(
                "the tenant-B device is owned by ".to_owned().concat(node).concat(
                    ", not relay-b",
                ),
            ),
        );
    }
    Ok(())
}

/// Whether a warm-up turn ended.
pub fn check_warm_up(stop: &str) -> (result: Result<(), HarnessError>)
    ensures
        match result {
            Ok(()) => stop@ == "end_turn"@,
            Err(error) => stop@ != "end_turn"@ && error@ == ErrorView::Process(
                "the warm-up turn ended "@ + stop@ + ", not end_turn"@,
            ),
        },
{
    if !same_text(stop, "end_turn") {
        return Err(
            HarnessError::Process(
                "the warm-up turn ended ".to_owned().concat(stop).concat(", not end_turn"),
            ),
        );
    }
    Ok(())
}

/// One held session at a rotation: its identifier, and whether its stream
/// failed or ended.
pub struct HeldSession {
    pub session: String,
    pub dead: bool,
}

/// The place of the first session whose stream is gone.
pub open spec fn first_dead(sessions: Seq<HeldSession>) -> Option<int>
    decreases sessions.len(),
{
    if sessions.len() == 0 {
        None
    } else {
        match first_dead(sessions.drop_last()) {
            Some(i) => Some(i),
            None => if sessions.last().dead {
                Some(sessions.len() - 1)
            } else {
                None
            },
        }
    }
}

/// Whether every held stream is live at this rotation, and not merely at the
/// end of the window.
pub fn check_round(connection_dead: bool, sessions: &Vec<HeldSession>, round: u64) -> (result:
    Result<(), HarnessError>)
    ensures
        match result {
            Ok(()) => !connection_dead && first_dead(sessions@) is None,
            Err(error) => if connection_dead {
                error@ == ErrorView::Process(
                    "the connection GET died at rotation "@ + decimal(round as nat),
                )
            } else {
                first_dead(sessions@) is Some && error@ == ErrorView::Process(
                    "the session GET for "@ + sessions@[first_dead(sessions@)->Some_0].session@
                        + " died at rotation "@ + decimal(round as nat),
                )
            },
        },
{
    let number = decimal_text(round as u128);
    if connection_dead {
        return Err(
            HarnessError::Process(
                "the connection GET died at rotation ".to_owned().concat(number.as_str()),
            ),
        );
    }
    let mut i: usize = 0;
    assert(sessions@.take(0) =~= Seq::<HeldSession>::empty());
    while i < sessions.len()
        invariant
            i <= sessions.len(),
            !connection_dead,
            number@ == decimal(round as nat),
            first_dead(sessions@.take(i as int)) is None,
        decreases sessions.len() - i,
    {
        assert(sessions@.take(i + 1).drop_last() =~= sessions@.take(i as int));
        if sessions[i].dead {
            proof {
                lemma_first_dead_stays(sessions@, i + 1);
            }
            return Err(
                HarnessError::Process(
                    "the session GET for ".to_owned().concat(sessions[i].session.as_str()).concat(
                        " died at rotation ",
                    ).concat(number.as_str()),
                ),
            );
        }
        i += 1;
    }
    assert(sessions@.take(i as int) =~= sessions@);
    Ok(())
}

proof fn lemma_first_dead_stays(sessions: Seq<HeldSession>, count: int)
    requires
        0 <= count <= sessions.len(),
        first_dead(sessions.take(count)) is Some,
    ensures
        first_dead(sessions) == first_dead(sessions.take(count)),
    decreases sessions.len(),
{
    if count == sessions.len() {
        assert(sessions.take(count) =~= sessions);
    } else {
        assert(sessions.drop_last().take(count) =~= sessions.take(count));
        lemma_first_dead_stays(sessions.drop_last(), count);
    }
}

/// The device's session as the connector and the owner see it at one edge of
/// the rotation window.
pub struct WindowEdge {
    pub rotations: u64,
    pub owner_rotations: u64,
    pub session_id: String,
    pub epoch: u64,
}

/// Records the rotation window.  The rotation counters only rise.
pub fn record_window(
    evidence: &mut AcpClusterEvidence,
    before: &WindowEdge,
    after: &WindowEdge,
    span_ms: u128,
    sockets: usize,
    steady: Vec<usize>,
    peak: u64,
    connection_dead: bool,
)
    requires
        before.rotations <= after.rotations,
        before.owner_rotations <= after.owner_rotations,
    ensures
        *final(evidence) == (AcpClusterEvidence {
            rotation_span_ms: span_ms,
            rotation_span_met_schedule: spans_schedule(span_ms),
            rotations_across_span: (after.rotations - before.rotations) as u64,
            owner_rotations_across_span: (after.owner_rotations - before.owner_rotations) as u64,
            device_session_stable: after.session_id@ == before.session_id@,
            device_epoch_stable: after.epoch == before.epoch,
            distinct_device_sockets: sockets,
            steady_state_sockets: steady,
            device_socket_peak: peak,
            connection_stream_alive: !connection_dead,
            ..*old(evidence)
        }),
{
    let met = met_schedule(span_ms);
    let same_session = same_text(after.session_id.as_str(), before.session_id.as_str());
    evidence.rotation_span_ms = span_ms;
    evidence.rotation_span_met_schedule = met;
    evidence.rotations_across_span = after.rotations - before.rotations;
    evidence.owner_rotations_across_span = after.owner_rotations - before.owner_rotations;
    evidence.device_session_stable = same_session;
    evidence.device_epoch_stable = after.epoch == before.epoch;
    evidence.distinct_device_sockets = sockets;
    evidence.steady_state_sockets = steady;
    evidence.device_socket_peak = peak;
    evidence.connection_stream_alive = !connection_dead;
}

/// Records the end of the rotation case: whether the connection kept the
/// identifier that it was opened with, and the side effects that the agent's
/// ledger names, at once and after a settle window.
pub fn record_span_end(
    evidence: &mut AcpClusterEvidence,
    opened: &str,
    after: &str,
    first: u64,
    settled: u64,
)
    ensures
        *final(evidence) == (AcpClusterEvidence {
            connection_stable: opened@ == after@,
            side_effects_in_ledger: first,
            side_effects_after_settle: settled,
            ..*old(evidence)
        }),
{
    let same = same_text(opened, after);
    evidence.connection_stable = same;
    evidence.side_effects_in_ledger = first;
    evidence.side_effects_after_settle = settled;
}

/// The isolation probes, each beside the same probe of an identifier that
/// never existed.
pub struct IsolationProbes {
    /// A sibling of the same tenant.
    pub foreign: Answer,
    pub foreign_absent: Answer,
    /// Another tenant's principal on this tenant's route.
    pub cross: Answer,
    pub cross_absent: Answer,
    /// Another tenant's principal on its own route.
    pub elsewhere: Answer,
    pub elsewhere_absent: Answer,
}

/// Records the isolation probes.  Equal answers alone would be met by two
/// identical unrelated errors, so the status is recorded or pinned too.
pub fn record_isolation(evidence: &mut AcpClusterEvidence, probes: &IsolationProbes)
    ensures
        *final(evidence) == (AcpClusterEvidence {
            same_tenant_foreign_matches_unknown: probes.foreign@ == probes.foreign_absent@,
            foreign_refusal_status: probes.foreign.status,
            cross_tenant_foreign_matches_unknown: probes.cross@ == probes.cross_absent@
                && probes.cross.status == 404,
            connection_id_inert_in_other_tenant: probes.elsewhere@ == probes.elsewhere_absent@
                && probes.elsewhere.status == 404,
            ..*old(evidence)
        }),
{
    evidence.same_tenant_foreign_matches_unknown = probes.foreign.indistinguishable_from(
        &probes.foreign_absent,
    );
    evidence.foreign_refusal_status = probes.foreign.status;
    evidence.cross_tenant_foreign_matches_unknown = inert(&probes.cross, &probes.cross_absent);
    evidence.connection_id_inert_in_other_tenant = inert(
        &probes.elsewhere,
        &probes.elsewhere_absent,
    );
}

/// The identifiers that the two tenants reuse.
pub open spec fn shared_ids() -> Seq<Seq<char>> {
    seq!["s:1"@, "n:1"@]
}

fn own_shared_ids() -> (ids: Vec<String>)
    ensures
        views(ids@) == shared_ids(),
{
    let mut ids: Vec<String> = Vec::new();
    ids.push("s:1".to_owned());
    ids.push("n:1".to_owned());
    assert(views(ids@) =~= shared_ids());
    ids
}

/// Records the identifiers of two tenants, and whether each got its own reply.
pub fn record_shared_ids(
    evidence: &mut AcpClusterEvidence,
    first_connection: &str,
    second_connection: &str,
    first_session: &str,
    second_session: &str,
    routed: bool,
)
    ensures
        views(final(evidence).shared_rpc_ids@) == shared_ids(),
        *final(evidence) == (AcpClusterEvidence {
            connection_ids_collide: first_connection@ == second_connection@,
            session_ids_collide: first_session@ == second_session@,
            shared_rpc_ids: final(evidence).shared_rpc_ids,
            replies_routed_per_principal: routed,
            ..*old(evidence)
        }),
{
    let same_connection = same_text(first_connection, second_connection);
    let same_session = same_text(first_session, second_session);
    evidence.connection_ids_collide = same_connection;
    evidence.session_ids_collide = same_session;
    evidence.shared_rpc_ids = own_shared_ids();
    evidence.replies_routed_per_principal = routed;
}

/// Records that the genuine caller was still served after the probes, and the
/// sessions that the second tenant's export opened.
pub fn record_still_served(
    evidence: &mut AcpClusterEvidence,
    status: u16,
    stop: Option<&str>,
    tenant_b_sessions: u64,
)
    ensures
        *final(evidence) == (AcpClusterEvidence {
            genuine_request_still_served: status == 202 && label_view(stop) == Some(
                "end_turn"@,
            ),
            tenant_b_sessions_opened: tenant_b_sessions,
            ..*old(evidence)
        }),
{
    evidence.genuine_request_still_served = turn_served(status, stop);
    evidence.tenant_b_sessions_opened = tenant_b_sessions;
}

/// Records the forged heads: the attempts, what the ingress rejected before
/// admission, and the connections that the device opened meanwhile.
pub fn record_forgeries(
    evidence: &mut AcpClusterEvidence,
    tally: ForgeryTally,
    rejections: (u64, u64),
    opened: (u64, u64),
)
    requires
        old(evidence).forgery_attempts + tally.attempts <= u64::MAX,
        old(evidence).forgeries_refused + tally.refused <= u64::MAX,
    ensures
        *final(evidence) == (AcpClusterEvidence {
            forgery_attempts: (old(evidence).forgery_attempts + tally.attempts) as u64,
            forgeries_refused: (old(evidence).forgeries_refused + tally.refused) as u64,
            forgery_codes: tally.codes,
            forgery_ingress_rejections: growth(rejections.1, rejections.0),
            forgery_dispatched: growth(opened.1, opened.0),
            ..*old(evidence)
        }),
{
    evidence.forgery_attempts = evidence.forgery_attempts + tally.attempts;
    evidence.forgeries_refused = evidence.forgeries_refused + tally.refused;
    evidence.forgery_codes = tally.codes;
    evidence.forgery_ingress_rejections = rejections.1.saturating_sub(rejections.0);
    evidence.forgery_dispatched = opened.1.saturating_sub(opened.0);
}

/// Forged heads that were all refused before dispatch, counted by the ingress
/// and unseen by the device keep every rule about them.
pub proof fn lemma_refused_forgeries_pass(
    evidence: AcpClusterEvidence,
    tally: ForgeryTally,
    rejections: (u64, u64),
    opened: (u64, u64),
)
    requires
        evidence.forgery_attempts == 0,
        evidence.forgeries_refused == 0,
        tally.attempts == 3,
        tally.refused == 3,
        rejections.0 + 3 <= rejections.1,
        opened.1 <= opened.0,
    ensures
        all_hold(
            forgery_rules(
                (AcpClusterEvidence {
                    forgery_attempts: (evidence.forgery_attempts + tally.attempts) as u64,
                    forgeries_refused: (evidence.forgeries_refused + tally.refused) as u64,
                    forgery_codes: tally.codes,
                    forgery_ingress_rejections: growth(rejections.1, rejections.0),
                    forgery_dispatched: growth(opened.1, opened.0),
                    ..evidence
                }),
            ),
        ),
{
}

/// Whether the wait for the revocation's refusal is over.
pub fn revocation_settled(status: u16, past_deadline: bool) -> (settled: bool)
    ensures
        settled == (status == 404 || past_deadline),
{
    status == 404 || past_deadline
}

/// The last answer to a fresh dispatch attempt after the revocation.
pub struct RevocationAnswer {
    pub status: u16,
    pub code: String,
    pub execution: String,
    /// How many attempts it took.
    pub attempts: u64,
}

/// Records the dispatch attempts after the revocation: fresh ones, and one
/// prompt on the session that was still open.
pub fn record_refused_dispatch(
    evidence: &mut AcpClusterEvidence,
    answer: RevocationAnswer,
    prompt_status: u16,
)
    requires
        answer.attempts < u64::MAX,
    ensures
        *final(evidence) == (AcpClusterEvidence {
            revocation_after_status: answer.status,
            revocation_after_code: answer.code,
            revocation_after_execution: answer.execution,
            revocation_after_prompt_status: prompt_status,
            revocation_dispatch_attempts: (answer.attempts + 1) as u64,
            ..*old(evidence)
        }),
{
    evidence.revocation_after_status = answer.status;
    evidence.revocation_after_code = answer.code;
    evidence.revocation_after_execution = answer.execution;
    evidence.revocation_after_prompt_status = prompt_status;
    evidence.revocation_dispatch_attempts = answer.attempts + 1;
}

/// Records what became of the exchange in flight, and what was dispatched
/// after the revocation: prompts accepted and connections opened, each before
/// and after.
pub fn record_withdrawal(
    evidence: &mut AcpClusterEvidence,
    gone: bool,
    execution: String,
    no_stop_reason: bool,
    accepted: (u64, u64),
    opened: (u64, u64),
)
    requires
        growth(accepted.1, accepted.0) + growth(opened.1, opened.0) <= u64::MAX,
    ensures
        *final(evidence) == (AcpClusterEvidence {
            revocation_in_flight_withdrawn: gone,
            revocation_in_flight_execution: execution,
            revocation_no_stop_reason: no_stop_reason,
            revocation_dispatched_after: (growth(accepted.1, accepted.0) + growth(
                opened.1,
                opened.0,
            )) as u64,
            ..*old(evidence)
        }),
{
    evidence.revocation_in_flight_withdrawn = gone;
    evidence.revocation_in_flight_execution = execution;
    evidence.revocation_no_stop_reason = no_stop_reason;
    evidence.revocation_dispatched_after = accepted.1.saturating_sub(accepted.0)
        + opened.1.saturating_sub(opened.0);
}

/// One arm of the key rotation: what publishing a record did to a held turn.
pub struct KeyRotationArm {
    pub interruption: Interruption,
    /// The withdrawn key left the ingress's verifier.
    pub key_left_verifier: bool,
    pub owner_unready: bool,
    /// What the ingress latched about the owner.
    pub reasons: Vec<String>,
    /// What the owner latched about the ingress.
    pub owner_reasons: Vec<String>,
}

/// Whether the overlap reached every verifier.
pub fn check_overlap(converged: bool) -> (result: Result<(), HarnessError>)
    ensures
        match result {
            Ok(()) => converged,
            Err(error) => !converged && error@ == ErrorView::Timeout(
                "the staged key overlap did not reach every relay's verifier within 20s"@,
            ),
        },
{
    if !converged {
        return Err(
            HarnessError::timeout(
                "the staged key overlap did not reach every relay's verifier within 20s",
            ),
        );
    }
    Ok(())
}

/// Whether one arm's record reached every verifier.
pub fn check_arm(label: &str, converged: bool) -> (result: Result<(), HarnessError>)
    ensures
        match result {
            Ok(()) => converged,
            Err(error) => !converged && error@ == ErrorView::Timeout(
                "the "@ + label@ + " record did not reach every relay's verifier within 20s"@,
            ),
        },
{
    if !converged {
        return Err(
            HarnessError::Timeout(
                "the ".to_owned().concat(label).concat(
                    " record did not reach every relay's verifier within 20s",
                ),
            ),
        );
    }
    Ok(())
}

/// Whether the restored key reached every verifier.
pub fn check_restored(converged: bool) -> (result: Result<(), HarnessError>)
    ensures
        match result {
            Ok(()) => converged,
            Err(error) => !converged && error@ == ErrorView::Timeout(
                "the restored owner key did not reach every relay's verifier"@,
            ),
        },
{
    if !converged {
        return Err(
            HarnessError::timeout("the restored owner key did not reach every relay's verifier"),
        );
    }
    Ok(())
}

/// Records both arms of the key rotation: the control, which changes only the
/// record's version, and the key change.
pub fn record_key_rotation(
    evidence: &mut AcpClusterEvidence,
    control: KeyRotationArm,
    rotated: KeyRotationArm,
)
    ensures
        *final(evidence) == (AcpClusterEvidence {
            key_overlap_staged: true,
            version_bump_interrupted: control.interruption.interrupted,
            version_bump_reasons: control.reasons,
            version_bump_owner_reasons: control.owner_reasons,
            version_bump_owner_unready: control.owner_unready,
            key_rotation_interrupted: rotated.interruption.interrupted,
            key_rotation_no_stop_reason: rotated.interruption.no_stop_reason,
            key_rotation_reasons: rotated.reasons,
            key_left_ingress_verifier: rotated.key_left_verifier,
            key_rotation_owner_reasons: rotated.owner_reasons,
            key_rotation_owner_unready: rotated.owner_unready,
            ..*old(evidence)
        }),
{
    evidence.key_overlap_staged = true;
    evidence.version_bump_interrupted = control.interruption.interrupted;
    evidence.version_bump_reasons = control.reasons;
    evidence.version_bump_owner_reasons = control.owner_reasons;
    evidence.version_bump_owner_unready = control.owner_unready;
    evidence.key_rotation_interrupted = rotated.interruption.interrupted;
    evidence.key_rotation_no_stop_reason = rotated.interruption.no_stop_reason;
    evidence.key_rotation_reasons = rotated.reasons;
    evidence.key_left_ingress_verifier = rotated.key_left_verifier;
    evidence.key_rotation_owner_reasons = rotated.owner_reasons;
    evidence.key_rotation_owner_unready = rotated.owner_unready;
}

/// Records the path loss: the pin withdrawal on its own first, then the loss.
pub fn record_path_loss(
    evidence: &mut AcpClusterEvidence,
    gone_after_pins: bool,
    interruption: Interruption,
)
    ensures
        *final(evidence) == (AcpClusterEvidence {
            pin_withdrawal_left_stream_serving: !gone_after_pins,
            path_loss_interrupted: interruption.interrupted,
            path_loss_no_stop_reason: interruption.no_stop_reason,
            ..*old(evidence)
        }),
{
    evidence.pin_withdrawal_left_stream_serving = !gone_after_pins;
    evidence.path_loss_interrupted = interruption.interrupted;
    evidence.path_loss_no_stop_reason = interruption.no_stop_reason;
}

/// Records the owner's loss.
pub fn record_owner_loss(evidence: &mut AcpClusterEvidence, interruption: Interruption)
    ensures
        *final(evidence) == (AcpClusterEvidence {
            owner_loss_interrupted: interruption.interrupted,
            owner_loss_no_stop_reason: interruption.no_stop_reason,
            ..*old(evidence)
        }),
{
    evidence.owner_loss_interrupted = interruption.interrupted;
    evidence.owner_loss_no_stop_reason = interruption.no_stop_reason;
}

/// The identifier of one upload attempt.
pub open spec fn upload_name(attempt: u64) -> Seq<char> {
    if attempt == 1 {
        "sat-upload"@
    } else {
        "sat-upload-"@ + decimal(attempt as nat)
    }
}

/// The identifier of one upload attempt.
pub fn upload_id(attempt: u64) -> (id: String)
    ensures
        id@ == upload_name(attempt),
{
    if attempt == 1 {
        "sat-upload".to_owned()
    } else {
        let number = decimal_text(attempt as u128);
        "sat-upload-".to_owned().concat(number.as_str())
    }
}

/// The peer hop's figures of the terminated exchanges, and how often they were
/// looked at.
pub struct RecordedHop {
    /// The greatest bytes sent and not consumed, and the credit window.
    pub send_in_flight: usize,
    pub window: usize,
    pub looks: u64,
    /// The best attested pair of the terminated exchanges.
    pub coincident: HopBytePair,
}

/// Records the saturation case's figures.
#[verifier::spinoff_prover]
pub fn record_saturation(
    evidence: &mut AcpClusterEvidence,
    tally: &LoadTally,
    recorded: &RecordedHop,
    attempts: u64,
    upload_ms: u128,
)
    requires
        tally.samples + recorded.looks <= u64::MAX,
        attested(tally.hop_coincident, recorded.coincident).least() * 100 <= u64::MAX,
    ensures
        ({
            let pair = attested(tally.hop_coincident, recorded.coincident);
            let window = if tally.hop_window > 0 {
                tally.hop_window
            } else {
                recorded.window
            };
            *final(evidence) == (AcpClusterEvidence {
                owner_device_queue_high_water: tally.queue_high_water,
                owner_device_queue_limit: tally.queue_limit,
                owner_device_coherent_samples: (tally.samples + recorded.looks) as u64,
                owner_device_loaded_samples: tally.samples,
                owner_device_upload_attempts: attempts,
                owner_device_upload_ms: upload_ms,
                owner_device_request_bytes_at_instant: tally.coherent.send_bytes,
                owner_device_response_bytes_at_instant: tally.coherent.receive_bytes,
                owner_device_queue_peak_sampled: tally.queue_peak,
                ingress_request_peer_send_in_flight: recorded.send_in_flight,
                peer_window: recorded.window,
                ingress_request_direction_saturated: is_saturated(
                    recorded.send_in_flight,
                    recorded.window,
                ),
                peer_hop_coincident_send: pair.send_bytes,
                peer_hop_coincident_receive: pair.receive_bytes,
                peer_hop_live_sampled_send: tally.hop_live.send_bytes,
                peer_hop_live_sampled_receive: tally.hop_live.receive_bytes,
                peer_hop_live_samples: tally.hop_samples,
                peer_hop_coincident_percent: final(evidence).peer_hop_coincident_percent,
                peer_hop_both_directions_saturated: is_saturated(pair.least(), window),
                ..*old(evidence)
            }) && final(evidence).peer_hop_coincident_percent as int == if window > 0 {
                (pair.least() * 100) / (window as int)
            } else {
                0
            }
        }),
{
    let pair = better(tally.hop_coincident, recorded.coincident);
    let window = observed_window(tally.hop_window, recorded.window);
    let least = pair.smaller();
    let samples: u64 = tally.samples + recorded.looks;
    let percent = percent_of(least, window);
    let both = saturated(least, window);
    let direction = saturated(recorded.send_in_flight, recorded.window);
    assert(pair == attested(tally.hop_coincident, recorded.coincident));
    assert(both == is_saturated(pair.least(), window));
    assert(direction == is_saturated(recorded.send_in_flight, recorded.window));
    assert(percent as int == if window > 0 {
        (pair.least() * 100) / (window as int)
    } else {
        0
    });
    evidence.owner_device_queue_high_water = tally.queue_high_water;
    evidence.owner_device_queue_limit = tally.queue_limit;
    evidence.owner_device_coherent_samples = samples;
    evidence.owner_device_loaded_samples = tally.samples;
    evidence.owner_device_upload_attempts = attempts;
    evidence.owner_device_upload_ms = upload_ms;
    evidence.owner_device_request_bytes_at_instant = tally.coherent.send_bytes;
    evidence.owner_device_response_bytes_at_instant = tally.coherent.receive_bytes;
    evidence.owner_device_queue_peak_sampled = tally.queue_peak;
    evidence.ingress_request_peer_send_in_flight = recorded.send_in_flight;
    evidence.peer_window = recorded.window;
    evidence.ingress_request_direction_saturated = direction;
    evidence.peer_hop_coincident_send = pair.send_bytes;
    evidence.peer_hop_coincident_receive = pair.receive_bytes;
    evidence.peer_hop_live_sampled_send = tally.hop_live.send_bytes;
    evidence.peer_hop_live_sampled_receive = tally.hop_live.receive_bytes;
    evidence.peer_hop_live_samples = tally.hop_samples;
    evidence.peer_hop_coincident_percent = percent;
    evidence.peer_hop_both_directions_saturated = both;
}

/// Records the turn that was served beside the stalled stream: the upload's
/// own result, empty where none came, and the probe after it.
pub fn record_served_beside_stall(
    evidence: &mut AcpClusterEvidence,
    upload_stop: String,
    probe_status: u16,
    probe_stop: Option<&str>,
)
    ensures
        *final(evidence) == (AcpClusterEvidence {
            saturating_upload_stop_reason: upload_stop,
            live_probe_status: probe_status,
            live_stream_served_while_parked: probe_status == 202 && label_view(
                probe_stop,
            ) == Some("end_turn"@),
            ..*old(evidence)
        }),
{
    evidence.saturating_upload_stop_reason = upload_stop;
    evidence.live_probe_status = probe_status;
    evidence.live_stream_served_while_parked = turn_served(probe_status, probe_stop);
}

/// Records the limits of the claim, from the span that this run measured.
pub fn record_disclosure(evidence: &mut AcpClusterEvidence)
    ensures
        views(final(evidence).not_covered@) == str_views(NOT_COVERED@).push(
            span_disclosure(
                old(evidence).rotation_span_ms,
                old(evidence).rotations_across_span,
            ),
        ),
        *final(evidence) == (AcpClusterEvidence {
            not_covered: final(evidence).not_covered,
            ..*old(evidence)
        }),
{
    evidence.not_covered = not_covered(evidence.rotation_span_ms, evidence.rotations_across_span);
}

/// Records the connector's journal, where the connector is still there.
pub fn record_journal(evidence: &mut AcpClusterEvidence, entries: usize, retired: u64)
    ensures
        *final(evidence) == (AcpClusterEvidence {
            open_journal_entries: entries,
            open_streams_retired: retired,
            ..*old(evidence)
        }),
{
    evidence.open_journal_entries = entries;
    evidence.open_streams_retired = retired;
}

/// What a run knows of itself when the cases are over.
pub struct RunTotals {
    pub membership_resigns: u64,
    pub boundary_route_probes: u64,
    pub leftover_processes: usize,
}

/// Records the totals of a run, whether or not its cases succeeded, so that a
/// failure still reports them.
pub fn record_totals(evidence: &mut AcpClusterEvidence, ledger: RefusalLedger, totals: &RunTotals)
    ensures
        *final(evidence) == (AcpClusterEvidence {
            membership_resigns: totals.membership_resigns,
            boundary_route_probes: totals.boundary_route_probes,
            not_dispatched_refusals: ledger.refusals,
            not_dispatched_retries: ledger.retries,
            unexplained_refusal: ledger.unexplained,
            leftover_processes: totals.leftover_processes,
            ..*old(evidence)
        }),
{
    evidence.membership_resigns = totals.membership_resigns;
    evidence.boundary_route_probes = totals.boundary_route_probes;
    evidence.not_dispatched_refusals = ledger.refusals;
    evidence.not_dispatched_retries = ledger.retries;
    evidence.unexplained_refusal = ledger.unexplained;
    evidence.leftover_processes = totals.leftover_processes;
}

/// The session that is named dead is so, and none before it; and none is named
/// exactly where every stream is live.
pub proof fn lemma_first_dead(sessions: Seq<HeldSession>)
    ensures
        match first_dead(sessions) {
            Some(i) => 0 <= i < sessions.len() && sessions[i].dead && forall|k: int|
                0 <= k < i ==> !(#[trigger] sessions[k]).dead,
            None => forall|k: int| 0 <= k < sessions.len() ==> !(#[trigger] sessions[k]).dead,
        },
    decreases sessions.len(),
{
    if sessions.len() > 0 {
        let front = sessions.drop_last();
        lemma_first_dead(front);
        assert forall|k: int| 0 <= k < front.len() implies #[trigger] front[k] == sessions[k] by {}
        if first_dead(front) is None {
            assert forall|k: int| 0 <= k < front.len() implies !(#[trigger] sessions[k]).dead by {
                assert(!front[k].dead);
            }
        } else {
            let i = first_dead(front)->Some_0;
            assert(sessions[i] == front[i]);
            assert forall|k: int| 0 <= k < i implies !(#[trigger] sessions[k]).dead by {
                assert(!front[k].dead);
            }
        }
    }
}

/// The cases are those that a run executes, by name and in order.
pub proof fn lemma_cases_in_order()
    ensures
        ClusterCase::RotationSpan.name() == CLUSTER_CASES@[0]@,
        ClusterCase::TwoTenantIds.name() == CLUSTER_CASES@[1]@,
        ClusterCase::ForgedHeads.name() == CLUSTER_CASES@[2]@,
        ClusterCase::Saturation.name() == CLUSTER_CASES@[3]@,
        ClusterCase::Revocation.name() == CLUSTER_CASES@[4]@,
        ClusterCase::PeerKeyRotation.name() == CLUSTER_CASES@[5]@,
        ClusterCase::PeerPathLoss.name() == CLUSTER_CASES@[6]@,
        ClusterCase::OwnerLoss.name() == CLUSTER_CASES@[7]@,
        CLUSTER_CASES@.len() == 8,
{
}

} // verus!
