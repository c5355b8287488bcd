//! ACP across three relays: what a run measured and the rules it must keep.
//!
//! Two sessions are carried across three completed scheduled rotations, with
//! two tenants, a revocation, a peer-path loss, a peer-key rotation, an owner
//! loss and one saturated direction of one hop beside them.

use vstd::prelude::*;
use vstd::string::*;

use crate::acp_real_path::{MEMBERSHIP_RECORD_LIFETIME_MS, MIN_RETRY_HINT_MS};
use crate::c11_window::str_views;
use crate::error::{ErrorView, HarnessError};
use crate::peer_faults::holds_text;
use crate::rules::{
    all_hold, chained, first_broken, first_failure, lemma_all_hold_chained, lemma_chained_broken,
    lemma_chained_step, lemma_first_broken, lemma_first_failure, Audit,
};
use crate::text::{
    decimal, decimal_text, occurs_in, same_text, split_on, split_text, text_contains, views,
};

verus! {

/// The device's rotation policy in this gate: the smallest schedule that the
/// configuration accepts, with handshake below overlap below interval.
pub const ROTATION_INTERVAL_SECONDS: u64 = 3;

/// The handshake timeout of the policy.
pub const ROTATION_HANDSHAKE_SECONDS: u64 = 1;

/// The overlap of the policy.
pub const ROTATION_OVERLAP_SECONDS: u64 = 2;

/// How many times a `not_dispatched` refusal that coincides with an observed
/// freeze may be resent: the longest freeze that the policy allows, at the
/// relay's own retry hint, and a margin.
pub const NOT_DISPATCHED_RETRIES: u64 = 16;

/// How many completed scheduled rotations the sessions must be carried across.
pub const REQUIRED_ROTATIONS: u64 = 3;

/// The longest the rotation case may take, well inside one membership record's
/// lifetime.
pub const ROTATION_CEILING_MS: u128 = 40000;

/// The sessions the rotation case holds open.
pub const ROTATION_SESSIONS: usize = 2;

/// The fewest coherent samples that must land while the upload is in flight.
pub const MIN_LOADED_SAMPLES: u64 = 64;

/// The level, as a percentage of a hop's credit window, at which a direction
/// counts as saturated rather than merely loaded.
pub const SATURATION_THRESHOLD_PERCENT: u64 = 90;

/// The fewest live peer-hop samples that must land while the upload is in
/// flight.
pub const MIN_PEER_HOP_SAMPLES: u64 = 32;

/// How many independent near-limit uploads the saturation case may take.
pub const SATURATION_UPLOAD_ATTEMPTS: u64 = 3;

/// The cases this gate runs, in order.  `rotation-span` is first because it
/// needs the most membership headroom, `owner-loss` last because it removes a
/// relay, and `peer-path-loss` before it because it rewrites a relay's pins.
pub const CLUSTER_CASES: [&'static str; 8] = [
    "rotation-span",
    "two-tenant-ids",
    "forged-heads",
    "saturation",
    "revocation",
    "peer-key-rotation",
    "peer-path-loss",
    "owner-loss",
];

/// What this gate deliberately does not establish.
pub const NOT_COVERED: [&'static str; 13] = [
    "an ACP connection surviving a membership re-sign, or outliving its membership record: M7-C80 is open, a peer admission's deadline is never extended, and this gate's rotation case is bounded to finish inside one record rather than escaping that limit",
    "per-OS process-tree cleanup: macOS is the only host any of this has run on, and a descendant that leaves its process group is not reached at all (M8-C07)",
    "any OS sandbox guarantee: until a tested sandbox profile exists this export is trusted-agent execution, and filesystem confinement is not claimed from cwd alone",
    "real-agent interoperability: the only agent here is this repository's own synthetic fixture, the roadmap gate's real-agent clause is dedicated-VM work, and no ACP server has been run",
    "no retry beyond the moment of observation: a ledger is read when a stream has failed and again after a settle window, and a replay issued after that would not be observed",
    "the connection-capacity table at its real bounds: 256 tracked and 32 per principal are proven as arithmetic in tunnel-acp-export, not by opening 257 connections here",
    "the permission deadline and the idle, prompt-wall-time bounds of the limits table over the real route: they are measured against the export's own clock in tunnel-acp-export, not here",
    "both directions of the ingress-to-owner PEER hop SATURATED at the same instant -- but the reason has changed, and the change is the point. M8-C22's product change has landed: the hop now latches its send/receive pair AT ONE INSTANT, at the credit charge and the receive push, and publishes that pair both on HttpExchangeRecord and, while the hop is still open, on the forwarding snapshot's live_peer_hops. So simultaneity on this hop is now MEASURABLE, where before it was not expressible at all. What the measurement returns is that the two directions are NOT loaded together: across six runs on this branch the best-attested instant has a smaller half of 61-229 bytes against a 196,608-byte window (0%), while the request direction alone reaches 195,933-195,950 (99.66%). The response direction's backup lands at the ingress's own public response buffer rather than at this hop's receive queue, which is what the hop's 362-byte all-time receive high-water was already saying. The \
     gate now ASSERTS that reading, so it cannot go stale. The owner-to-device segment IS shown carrying bytes in both directions at one instant here, and that is a different segment; prefer 'carrying bytes' over 'loaded', since a 308-byte parked record is a real same-instant observation and is not the segment under load",
    "the response direction of the peer hop driven to its credit window: the flood against a parked stream backs up behind the export's own output-credit stall, whose record lands only after that 30 s bound, so a bounded sampling window strictly shorter than 30 s can never see that record exist at all -- this gate measures the request direction of that hop and says so",
    "this property at the shipped default configuration: the default rotation interval is 300 s and a membership record lives at most 60 s, so on a non-owner ingress an ACP connection is invalidated long before its first scheduled rotation; three rotations are reachable here only because the \
     gate runs the device at the 3 s configuration floor",
    "peer-key rotation as a survivable event: the key-rotation case drives the teardown and attributes the INGRESS's own decision, it does not show an ACP stream surviving one. Nor does it separate the key change from the record-version bump that must accompany it ON THE WIRE -- the verifier refuses an equal-version re-sign, so every key change is also a version change, and the attribution rests on the reason the product itself latched (MembershipRevoked, reachable only through the membership runtime's in-process invalidation callback) together with the same-key control arm beside it",
    "which end's teardown closed the socket first: the withdrawn key is the OWNER's own serving key and the incoming one is a phantom no certificate presents, so the key arm also drives the owner's runtime through MembershipRejected to Unready, invalidating its own admission of the ingress at the same moment. The key arm is three concurrent teardowns -- ingress-side revalidation, owner-side fail-closed, and the version bump -- and the control arm controls for the third only. Both ends' latched reasons are recorded rather than inferred, and a genuine rotation, where the owner presents the incoming key, needs a relay that re-keys. That is NOT a fixture change, which is what M8-C16 and M8-C24 both assumed: a relay binds ONE serving identity for the life of the process. Its peer certificate is read once at startup and MembershipRuntimeConfig::with_local_spki_sha256 stores a single Option<String>, and readiness requires the record to carry exactly that SPKI un-revoked and in-window (membership_runtime.rs, the local_key lookup). There is no second local SPKI, no setter and no reload path anywhere in tunnel-relay. So withdrawing the SPKI the owner presents and unreadying the owner really are the same act, and no fixture can separate them; the product must be able to hold an OVERLAP on the SERVING side, mirroring the overlap it already supports on the VERIFYING side, before a rotation with the owner staying Ready is drivable at all. Recorded on task row M8-C28",
    "any of this at the shipped rotation default, or a key rotation reaching the consumer as a typed terminal: the interruption is an explicit stream failure with no stopReason, which is what the consumer sees, and no code on the wire names the key",
];

/// The retry budget covers the handshake and the overlap of the policy, one
/// retry per hint, and four more.
pub proof fn lemma_retry_budget()
    ensures
        NOT_DISPATCHED_RETRIES == ((ROTATION_HANDSHAKE_SECONDS + ROTATION_OVERLAP_SECONDS) * 1000
            + MIN_RETRY_HINT_MS - 1) / (MIN_RETRY_HINT_MS as int) + 4,
        ROTATION_HANDSHAKE_SECONDS < ROTATION_OVERLAP_SECONDS < ROTATION_INTERVAL_SECONDS,
        ROTATION_INTERVAL_SECONDS * REQUIRED_ROTATIONS * 1000 < ROTATION_CEILING_MS
            < MEMBERSHIP_RECORD_LIFETIME_MS,
{
}

/// What one session recorded across the rotation window.
#[derive(Clone, Debug, Default, Eq, PartialEq)]
pub struct SessionSpan {
    /// The session identifier, unchanged from creation to completion.
    pub session: String,
    /// `session/update` messages observed before the rotation window.
    pub updates_before: usize,
    /// `session/request_permission` callbacks observed across the whole case.
    pub callbacks: usize,
    /// `session/update` messages observed after the held callback was answered.
    pub updates_after: usize,
    /// The turn's own result, read off the session stream.
    pub stop_reason: String,
    /// The stream neither errored nor ended at any point in the window.
    pub stream_alive_through_window: bool,
    /// Every distinct JSON-RPC id seen from the agent on this stream.
    pub distinct_agent_ids: usize,
    /// Messages on this stream that carry an id.  A message repeated under an
    /// id already seen raises this and leaves the distinct count alone.
    pub identified_messages: usize,
    /// Total messages observed on this stream, disclosed for context.
    pub messages: usize,
}

/// Everything this gate measured.  Primitives only: identifiers, counters,
/// statuses and typed labels, never a payload or a credential.
#[derive(Clone, Debug, Default, Eq, PartialEq)]
pub struct AcpClusterEvidence {
    /// The relays of the cluster.
    pub relay_count: usize,
    /// The relay that owns the device.
    pub owner_node: String,
    /// The relay at which the consumers enter.
    pub ingress_node: String,
    /// The device is owned by one relay and its consumers enter at another.
    pub non_owner_ingress: bool,
    /// The cases that actually ran, in order.  A case that did not execute is
    /// absent here and the validator rejects the run; it is never folded into a
    /// pass count.
    pub cases_executed: Vec<String>,
    /// What this run does not claim, in words.
    pub not_covered: Vec<String>,

    // --- the rotation span ---
    /// Completed scheduled rotations observed while the sessions were live, from
    /// the connector's own counter.
    pub rotations_across_span: u64,
    /// The owner relay's own count of completed rotations over the same window.
    /// The connector and the owner maintain theirs independently, and agreement
    /// is the evidence.
    pub owner_rotations_across_span: u64,
    /// Wall-clock length of the window the sessions were held across.
    pub rotation_span_ms: u128,
    /// The rotation case ran for at least the configured schedule.  A shorter
    /// window counted recovery activations, which bump the same counter, rather
    /// than scheduled rotations.
    pub rotation_span_met_schedule: bool,
    /// Per-session evidence across the window.
    pub sessions: Vec<SessionSpan>,
    /// The ACP connection identifier was the same before and after.
    pub connection_stable: bool,
    /// The connection GET neither errored nor ended across the window.
    pub connection_stream_alive: bool,
    /// The device tunnel session identifier was unchanged, so the rotations were
    /// rotations and not a reconnect.
    pub device_session_stable: bool,
    /// The device owner epoch was unchanged across the window.
    pub device_epoch_stable: bool,
    /// Distinct data-socket local addresses the device used.  Disclosed for
    /// context: a cumulative count is satisfied by one rotation.
    pub distinct_device_sockets: usize,
    /// How many newly seen device socket addresses each rotation round added.
    /// One per round is the claim: a rotation that came back on the
    /// predecessor's socket adds none.
    pub new_sockets_per_round: Vec<usize>,
    /// Device sockets open at each settled steady state.
    pub steady_state_sockets: Vec<usize>,
    /// The high-water mark of concurrent device sockets.
    pub device_socket_peak: u64,
    /// The synthetic side effect each held turn recorded, counted from the
    /// agent's own append-only ledger.
    pub side_effects_in_ledger: u64,
    /// The same count after a settle window, so a replay would be visible.
    pub side_effects_after_settle: u64,

    // --- the accommodation and the refusal ledger ---
    /// How often membership was signed again, at case boundaries only.
    pub membership_resigns: u64,
    /// Route probes the case boundaries needed after a re-sign before the ingress
    /// answered again.  Disclosed, never asserted.
    pub boundary_route_probes: u64,
    /// The greatest age that the signed membership had at the end of a case.
    pub max_membership_age_at_case_end_ms: u128,
    /// The least time between two re-signs.
    pub resign_spacing_ms: u128,
    /// Every `not_dispatched` refusal that a case met.
    pub not_dispatched_refusals: u64,
    /// How many of them coincided with an observed rotation freeze.
    pub not_dispatched_retries: u64,
    /// The first refusal that no observed freeze explains.
    pub unexplained_refusal: Option<String>,

    // --- two users in two tenants ---
    /// Whether the two tenants' exports independently chose the same connection
    /// identifier.  Recorded, not required: two separately started exports cannot
    /// mint the same one, and no consumer can make them.
    pub connection_ids_collide: bool,
    /// A live connection id from tenant A carries no authority at all in tenant
    /// B's context: presented on tenant B's route by tenant B's own principal it
    /// is refused byte-identically to an id that never existed.
    pub connection_id_inert_in_other_tenant: bool,
    /// Whether they chose the same session identifier.
    pub session_ids_collide: bool,
    /// The identical JSON-RPC ids that both principals used: the string `"1"` and
    /// the number `1`.
    pub shared_rpc_ids: Vec<String>,
    /// Every reply was routed to the principal that asked, with no crossing.
    pub replies_routed_per_principal: bool,
    /// A second principal of the same tenant presenting the first's connection id
    /// is refused exactly as an id that never existed is: same status, same
    /// header fields, same body bytes.
    pub same_tenant_foreign_matches_unknown: bool,
    /// The same, for a principal of the other tenant.
    pub cross_tenant_foreign_matches_unknown: bool,
    /// The status those refusals carried, recorded so the comparison cannot pass
    /// by both being some unrelated error.
    pub foreign_refusal_status: u16,
    /// The genuine owner's own request still succeeded afterwards, so the
    /// refusals are not passing because the connection had already gone.
    pub genuine_request_still_served: bool,
    /// Sessions tenant B's export opened during the two-tenant case.  Exactly one:
    /// every probe that presented tenant A's live connection id on tenant B's
    /// route must have opened nothing.
    pub tenant_b_sessions_opened: u64,

    // --- forged heads ---
    /// Forgery attempts made.
    pub forgery_attempts: u64,
    /// How many of them were refused before dispatch.
    pub forgeries_refused: u64,
    /// The relay's own count of ingress rejections over the forgery window.
    pub forgery_ingress_rejections: u64,
    /// ACP exchanges the device export accepted during the forgery window.  Zero
    /// is the claim: not one byte reached the device.
    pub forgery_dispatched: u64,
    /// The distinct refusal codes the forgeries met.
    pub forgery_codes: Vec<String>,

    // --- grant revocation ---
    /// The exchange that was in flight was withdrawn by itself.
    pub revocation_in_flight_withdrawn: bool,
    /// How the relay classified the exchanges this revocation withdrew, as the
    /// sorted set of distinct executions, from its own exchange records.  They are
    /// not classified alike: the held session GET is `unknown` and the connection
    /// GET, which the device received, is `dispatched`; the claim is that an
    /// `unknown` is among them.
    pub revocation_in_flight_execution: String,
    /// The status that a fresh dispatch met after the revocation.
    pub revocation_after_status: u16,
    /// The status a prompt on the revoked principal's own session met.
    pub revocation_after_prompt_status: u16,
    /// How many admissions were attempted after the revocation.  Without this a
    /// zero delta proves nothing.
    pub revocation_dispatch_attempts: u64,
    /// The error code that the fresh dispatch met.
    pub revocation_after_code: String,
    /// The execution that the fresh dispatch was answered with.
    pub revocation_after_execution: String,
    /// What the export accepted after the grant was revoked: prompts, and
    /// connections that a fresh `initialize` would have opened.
    pub revocation_dispatched_after: u64,
    /// No `stopReason` was ever produced for the withdrawn turn.
    pub revocation_no_stop_reason: bool,

    // --- explicit interruptions ---
    /// Withdrawing the ingress relay's peer pins left the in-flight stream
    /// serving.  Recorded, not required: a pin set governs new dials.
    pub pin_withdrawal_left_stream_serving: bool,
    /// Losing the ingress-to-owner peer path interrupted the live stream
    /// explicitly.
    pub path_loss_interrupted: bool,
    /// It never produced a `stopReason` for the turn it interrupted.
    pub path_loss_no_stop_reason: bool,
    /// Owner loss interrupted the live stream explicitly.
    pub owner_loss_interrupted: bool,
    /// It never produced a `stopReason` either.
    pub owner_loss_no_stop_reason: bool,

    // --- peer-key rotation ---
    /// The staged overlap really reached every relay's verifier: the owner's
    /// record approved the old key and the incoming key together before either arm
    /// ran.
    pub key_overlap_staged: bool,
    /// The control arm: a record signed at a strictly newer version with an
    /// identical key list interrupted a live stream.
    pub version_bump_interrupted: bool,
    /// What the ingress relay latched as the reason for every peer admission of
    /// the owner it invalidated in the control arm, as the sorted set of distinct
    /// labels.
    pub version_bump_reasons: Vec<String>,
    /// The key arm: the old peer key leaving the owner's record interrupted a live
    /// stream on a non-owner ingress.
    pub key_rotation_interrupted: bool,
    /// It never produced a `stopReason` for the turn it interrupted.
    pub key_rotation_no_stop_reason: bool,
    /// The reasons latched in the key arm, the same way.
    pub key_rotation_reasons: Vec<String>,
    /// The owner's own decision about the ingress in the key arm, which tears down
    /// from both ends at once: the withdrawn key is the owner's own serving key.
    pub key_rotation_owner_reasons: Vec<String>,
    /// The owner was seen unready in the key arm.
    pub key_rotation_owner_unready: bool,
    /// The owner's own decision about the ingress in the control arm.
    pub version_bump_owner_reasons: Vec<String>,
    /// The owner was seen unready in the control arm: a version bump alone does
    /// not unready it.
    pub version_bump_owner_unready: bool,
    /// The withdrawn key really did leave the ingress relay's verifier within the
    /// bound.
    pub key_left_ingress_verifier: bool,
    /// Route probes this case needed between and after its arms.  Disclosed, and
    /// kept apart from the boundaries' own.
    pub key_rotation_route_probes: u64,

    // --- saturation ---
    /// The request direction of the ingress-to-owner peer hop: high-water bytes
    /// the ingress had sent that the owner had not consumed, from the records of
    /// finished exchanges.
    pub ingress_request_peer_send_in_flight: usize,
    /// The credit window it is measured against.
    pub peer_window: usize,
    /// That direction stood at or above the saturation threshold of its window.
    pub ingress_request_direction_saturated: bool,

    // --- the peer hop's coincident pair ---
    /// Both directions of the peer hop at one instant, the one at which the smaller
    /// of the two was largest: the bytes sent and not consumed.
    pub peer_hop_coincident_send: usize,
    /// The bytes received and not consumed at that instant.
    pub peer_hop_coincident_receive: usize,
    /// The largest live pair the sampler itself caught, which shows that the
    /// sampler saw the hop at all: its bytes sent.
    pub peer_hop_live_sampled_send: usize,
    /// The bytes received of that pair.
    pub peer_hop_live_sampled_receive: usize,
    /// Live peer-hop samples taken while the upload was in flight, so a zero pair
    /// is "looked and did not find" rather than "never looked".
    pub peer_hop_live_samples: u64,
    /// The smaller half of the coincident pair as a percentage of the hop's credit
    /// window.
    pub peer_hop_coincident_percent: u64,
    /// Both directions of the peer hop were at or above the saturation threshold at
    /// one instant.
    pub peer_hop_both_directions_saturated: bool,
    /// The owner-to-device segment: the largest instantaneous queue depth sampled.
    pub owner_device_queue_peak_sampled: usize,
    /// The session's own high-water mark.
    pub owner_device_queue_high_water: usize,
    /// The configured limit.
    pub owner_device_queue_limit: usize,
    /// Both directions of the owner-device segment at one instant, the sample whose
    /// smaller direction was largest: the bytes toward the device.
    pub owner_device_request_bytes_at_instant: usize,
    /// The bytes from the device in that sample.
    pub owner_device_response_bytes_at_instant: usize,
    /// Samples taken, so a zero above is "looked and did not find" rather than
    /// "never looked".
    pub owner_device_coherent_samples: u64,
    /// How many of them were taken while the near-limit upload was still in flight,
    /// the only window in which both directions could be loaded at once.
    pub owner_device_loaded_samples: u64,
    /// How long the last upload was in flight, which bounds the window above.
    pub owner_device_upload_ms: u128,
    /// How many uploads it took to observe the instant.  Disclosed, and one is not
    /// asserted: an upload that collides with a rotation freeze is sent again.
    pub owner_device_upload_attempts: u64,
    /// The saturating upload's own `stopReason`, read off the wire.
    pub saturating_upload_stop_reason: String,
    /// The status the live probe's POST met.
    pub live_probe_status: u16,
    /// A live SSE stream on a separate transport still completed a turn while the
    /// parked stream was unread and stalling.
    pub live_stream_served_while_parked: bool,

    // --- the connector's journal, disclosed rather than asserted ---
    /// Retained OPEN journal entries on the device connector at the end of the run.
    pub open_journal_entries: usize,
    /// The streams that the connector retired.
    pub open_streams_retired: u64,
    /// Agent processes that outlived the run, read from the process table.
    pub leftover_processes: usize,
}

/// The disclosure of a run's own span.
pub open spec fn span_text(rotations: u64, span_ms: u128) -> Seq<char> {
    "across "@ + decimal(rotations as nat) + " completed rotations in "@ + decimal(
        span_ms as nat,
    ) + " ms"@
}

/// The disclosure that carries this run's own numbers.
pub open spec fn span_disclosure(span_ms: u128, rotations: u64) -> Seq<char> {
    "an ACP connection living longer than one membership record on a non-owner ingress: this run carried its sessions "@
        + span_text(rotations, span_ms) + ", inside records of "@ + decimal(
        MEMBERSHIP_RECORD_LIFETIME_MS as nat,
    ) + " ms, and says nothing about a connection that outlives one"@
}

fn build_span_text(rotations: u64, span_ms: u128) -> (text: String)
    ensures
        text@ == span_text(rotations, span_ms),
{
    let count = decimal_text(rotations as u128);
    let span = decimal_text(span_ms);
    "across ".to_owned().concat(count.as_str()).concat(" completed rotations in ").concat(
        span.as_str(),
    ).concat(" ms")
}

/// Copies a list of fixed texts.
pub fn own_texts(texts: &[&'static str]) -> (owned: Vec<String>)
    ensures
        views(owned@) == str_views(texts@),
{
    let mut owned: Vec<String> = Vec::new();
    let mut i: usize = 0;
    while i < texts.len()
        invariant
            i <= texts.len(),
            views(owned@) == str_views(texts@).take(i as int),
        decreases texts.len() - i,
    {
        let ghost before = owned@;
        owned.push(texts[i].to_owned());
        assert(views(owned@) =~= views(before).push(texts@[i as int]@));
        assert(str_views(texts@).take(i + 1) =~= str_views(texts@).take(i as int).push(
            texts@[i as int]@,
        ));
        i += 1;
    }
    assert(str_views(texts@).take(i as int) =~= str_views(texts@));
    owned
}

/// The limits of this gate's claim, with the one that carries a measurement
/// formatted from what was actually observed.
pub fn not_covered(rotation_span_ms: u128, rotations_observed: u64) -> (all: Vec<String>)
    ensures
        views(all@) == str_views(NOT_COVERED@).push(
            span_disclosure(rotation_span_ms, rotations_observed),
        ),
{
    let mut all = own_texts(NOT_COVERED.as_slice());
    let ghost before = all@;
    let span = build_span_text(rotations_observed, rotation_span_ms);
    let lifetime = decimal_text(MEMBERSHIP_RECORD_LIFETIME_MS);
    all.push(
        "an ACP connection living longer than one membership record on a non-owner ingress: this run carried its sessions ".to_owned().concat(
        span.as_str()).concat(", inside records of ").concat(lifetime.as_str()).concat(
            " ms, and says nothing about a connection that outlives one",
        ),
    );
    assert(views(all@) =~= views(before).push(
        span_disclosure(rotation_span_ms, rotations_observed),
    ));
    all
}

/// The disclosure is complete and one of its texts states this span.
pub open spec fn discloses_span(
    not_covered: Seq<Seq<char>>,
    rotations: u64,
    span_ms: u128,
) -> bool {
    &&& not_covered.len() == NOT_COVERED@.len() + 1
    &&& exists|i: int|
        0 <= i < not_covered.len() && occurs_in(
            #[trigger] not_covered[i],
            span_text(rotations, span_ms),
        )
}

fn check_disclosure(texts: &Vec<String>, rotations: u64, span_ms: u128) -> (holds: bool)
    ensures
        holds == discloses_span(views(texts@), rotations, span_ms),
{
    let wanted = build_span_text(rotations, span_ms);
    if texts.len() != 14 {
        return false;
    }
    let mut i: usize = 0;
    while i < texts.len()
        invariant
            i <= texts.len(),
            texts.len() == NOT_COVERED@.len() + 1,
            wanted@ == span_text(rotations, span_ms),
            forall|k: int|
                0 <= k < i ==> !occurs_in(#[trigger] views(texts@)[k], span_text(rotations, span_ms)),
        decreases texts.len() - i,
    {
        assert(views(texts@)[i as int] == texts@[i as int]@);
        if text_contains(texts[i].as_str(), wanted.as_str()) {
            return true;
        }
        i += 1;
    }
    false
}

/// A disclosure built from a run's own numbers states that run's span.
pub proof fn lemma_disclosure_states_its_run(rotations: u64, span_ms: u128)
    ensures
        discloses_span(
            str_views(NOT_COVERED@).push(span_disclosure(span_ms, rotations)),
            rotations,
            span_ms,
        ),
{
    let all = str_views(NOT_COVERED@).push(span_disclosure(span_ms, rotations));
    let head = "an ACP connection living longer than one membership record on a non-owner ingress: this run carried its sessions "@;
    let text = span_text(rotations, span_ms);
    assert(span_disclosure(span_ms, rotations).subrange(
        head.len() as int,
        head.len() + text.len() as int,
    ) =~= text);
    assert(crate::text::occurs_at(all[NOT_COVERED@.len() as int], text, head.len() as int));
}

/// Every number of the list is `value`.
pub open spec fn all_are(list: Seq<usize>, value: usize) -> bool {
    forall|i: int| 0 <= i < list.len() ==> #[trigger] list[i] == value
}

fn every(list: &Vec<usize>, value: usize) -> (holds: bool)
    ensures
        holds == all_are(list@, value),
{
    let mut i: usize = 0;
    while i < list.len()
        invariant
            i <= list.len(),
            forall|k: int| 0 <= k < i ==> #[trigger] list@[k] == value,
        decreases list.len() - i,
    {
        if list[i] != value {
            return false;
        }
        i += 1;
    }
    true
}

/// Whether a list of texts is this list.
pub fn texts_match(texts: &Vec<String>, wanted: &[&'static str]) -> (same: bool)
    ensures
        same == (views(texts@) == str_views(wanted@)),
{
    if texts.len() != wanted.len() {
        assert(views(texts@).len() != str_views(wanted@).len());
        return false;
    }
    let mut i: usize = 0;
    while i < texts.len()
        invariant
            i <= texts.len(),
            texts.len() == wanted.len(),
            forall|k: int| 0 <= k < i ==> (#[trigger] texts@[k])@ == wanted@[k]@,
        decreases texts.len() - i,
    {
        if !same_text(texts[i].as_str(), wanted[i]) {
            assert(views(texts@)[i as int] != str_views(wanted@)[i as int]);
            return false;
        }
        i += 1;
    }
    assert(views(texts@) =~= str_views(wanted@));
    true
}

fn is_single(texts: &Vec<String>, only: &str) -> (same: bool)
    ensures
        same == (views(texts@) == seq![only@]),
{
    let same = texts.len() == 1 && same_text(texts[0].as_str(), only);
    proof {
        if same {
            assert(views(texts@) =~= seq![only@]);
        } else if texts.len() == 1 {
            assert(views(texts@)[0] == texts@[0]@);
        } else {
            assert(views(texts@).len() != 1);
        }
    }
    same
}

/// Whether a list of texts is this pair.
pub fn is_pair(texts: &Vec<String>, first: &str, second: &str) -> (same: bool)
    ensures
        same == (views(texts@) == seq![first@, second@]),
{
    let same = texts.len() == 2 && same_text(texts[0].as_str(), first) && same_text(
        texts[1].as_str(),
        second,
    );
    proof {
        if same {
            assert(views(texts@) =~= seq![first@, second@]);
        } else if texts.len() == 2 {
            assert(views(texts@)[0] == texts@[0]@);
            assert(views(texts@)[1] == texts@[1]@);
            assert(seq![first@, second@][0] == first@);
            assert(seq![first@, second@][1] == second@);
        } else {
            assert(views(texts@).len() != 2);
        }
    }
    same
}

fn has_piece(text: &String, separator: char, piece: &str) -> (found: bool)
    ensures
        found == split_on(text@, separator).contains(piece@),
{
    let pieces = split_text(text.as_str(), separator);
    holds_text(&pieces, piece)
}

/// The run itself: its relays, its cases and what it discloses.
pub open spec fn run_rules(evidence: AcpClusterEvidence) -> Seq<(Seq<char>, bool)> {
    seq![
        (
            "three relays"@,
            evidence.relay_count == 3,
        ),
        (
            "the device is owned by relay-a and the consumer entered at relay-c"@,
            evidence.non_owner_ingress && evidence.owner_node@ == "relay-a"@ && evidence.ingress_node@ == "relay-c"@,
        ),
        (
            "every case executed"@,
            views(evidence.cases_executed@) == str_views(CLUSTER_CASES@),
        ),
        (
            "the limits of the claim are recorded, and the rotation disclosure states this run's own span"@,
            discloses_span(views(evidence.not_covered@), evidence.rotations_across_span, evidence.rotation_span_ms),
        ),
    ]
}

fn check_run(evidence: &AcpClusterEvidence) -> (broken: Option<&'static str>)
    ensures
        match broken {
            Some(rule) => first_broken(run_rules(*evidence)) == Some(rule@),
            None => first_broken(run_rules(*evidence)) is None,
        },
{
    let mut audit = Audit::new(Ghost(run_rules(*evidence)));
    audit.hold(
        "three relays",
        evidence.relay_count == 3,
    );
    audit.hold(
        "the device is owned by relay-a and the consumer entered at relay-c",
        evidence.non_owner_ingress && same_text(evidence.owner_node.as_str(), "relay-a") && same_text(evidence.ingress_node.as_str(), "relay-c"),
    );
    audit.hold(
        "every case executed",
        texts_match(&evidence.cases_executed, CLUSTER_CASES.as_slice()),
    );
    audit.hold(
        "the limits of the claim are recorded, and the rotation disclosure states this run's own span",
        check_disclosure(&evidence.not_covered, evidence.rotations_across_span, evidence.rotation_span_ms),
    );
    audit.broken()
}

/// The rotation span, the membership accommodation and the refusal ledger.
pub open spec fn span_rules(evidence: AcpClusterEvidence) -> Seq<(Seq<char>, bool)> {
    seq![
        (
            "at least three scheduled rotations completed while the sessions were live"@,
            evidence.rotations_across_span >= REQUIRED_ROTATIONS,
        ),
        (
            "the owner counted the same rotations independently of the connector"@,
            evidence.owner_rotations_across_span >= REQUIRED_ROTATIONS,
        ),
        (
            "the window was at least as long as the configured rotation schedule"@,
            evidence.rotation_span_met_schedule,
        ),
        (
            "the rotation window finished inside one membership record"@,
            evidence.rotation_span_ms < ROTATION_CEILING_MS,
        ),
        (
            "every rotation round moved the device to exactly one new data socket"@,
            evidence.new_sockets_per_round@.len() == REQUIRED_ROTATIONS && all_are(evidence.new_sockets_per_round@, 1),
        ),
        (
            "two device sockets at every settled steady state"@,
            evidence.steady_state_sockets@.len() > 0 && all_are(evidence.steady_state_sockets@, 2),
        ),
        (
            "at most one candidate data socket at a time"@,
            evidence.device_socket_peak <= 3,
        ),
        (
            "the connection GET stayed live across every rotation"@,
            evidence.connection_stream_alive && evidence.connection_stable,
        ),
        (
            "the device session and owner epoch were unchanged, so these were rotations and not a reconnect"@,
            evidence.device_session_stable && evidence.device_epoch_stable,
        ),
        (
            "each held turn recorded its side effect exactly once in the agent's own ledger, and nothing replayed it"@,
            evidence.side_effects_in_ledger == ROTATION_SESSIONS && evidence.side_effects_after_settle == ROTATION_SESSIONS,
        ),
        (
            "every case ended inside the membership records' lifetime"@,
            evidence.max_membership_age_at_case_end_ms < MEMBERSHIP_RECORD_LIFETIME_MS,
        ),
        (
            "every not_dispatched refusal coincided with an observed rotation freeze and was bounded"@,
            evidence.not_dispatched_refusals == evidence.not_dispatched_retries && evidence.unexplained_refusal is None,
        ),
    ]
}

fn check_span(evidence: &AcpClusterEvidence) -> (broken: Option<&'static str>)
    ensures
        match broken {
            Some(rule) => first_broken(span_rules(*evidence)) == Some(rule@),
            None => first_broken(span_rules(*evidence)) is None,
        },
{
    let mut audit = Audit::new(Ghost(span_rules(*evidence)));
    audit.hold(
        "at least three scheduled rotations completed while the sessions were live",
        evidence.rotations_across_span >= REQUIRED_ROTATIONS,
    );
    audit.hold(
        "the owner counted the same rotations independently of the connector",
        evidence.owner_rotations_across_span >= REQUIRED_ROTATIONS,
    );
    audit.hold(
        "the window was at least as long as the configured rotation schedule",
        evidence.rotation_span_met_schedule,
    );
    audit.hold(
        "the rotation window finished inside one membership record",
        evidence.rotation_span_ms < ROTATION_CEILING_MS,
    );
    audit.hold(
        "every rotation round moved the device to exactly one new data socket",
        evidence.new_sockets_per_round.len() as u64 == REQUIRED_ROTATIONS && every(&evidence.new_sockets_per_round, 1),
    );
    audit.hold(
        "two device sockets at every settled steady state",
        evidence.steady_state_sockets.len() > 0 && every(&evidence.steady_state_sockets, 2),
    );
    audit.hold(
        "at most one candidate data socket at a time",
        evidence.device_socket_peak <= 3,
    );
    audit.hold(
        "the connection GET stayed live across every rotation",
        evidence.connection_stream_alive && evidence.connection_stable,
    );
    audit.hold(
        "the device session and owner epoch were unchanged, so these were rotations and not a reconnect",
        evidence.device_session_stable && evidence.device_epoch_stable,
    );
    audit.hold(
        "each held turn recorded its side effect exactly once in the agent's own ledger, and nothing replayed it",
        evidence.side_effects_in_ledger == ROTATION_SESSIONS as u64 && evidence.side_effects_after_settle == ROTATION_SESSIONS as u64,
    );
    audit.hold(
        "every case ended inside the membership records' lifetime",
        evidence.max_membership_age_at_case_end_ms < MEMBERSHIP_RECORD_LIFETIME_MS,
    );
    audit.hold(
        "every not_dispatched refusal coincided with an observed rotation freeze and was bounded",
        evidence.not_dispatched_refusals == evidence.not_dispatched_retries && evidence.unexplained_refusal.is_none(),
    );
    audit.broken()
}

/// The peer-key rotation and its same-key control.
pub open spec fn keys_rules(evidence: AcpClusterEvidence) -> Seq<(Seq<char>, bool)> {
    seq![
        (
            "the staged key overlap reached every relay's verifier before either arm ran"@,
            evidence.key_overlap_staged,
        ),
        (
            "the withdrawn peer key left the ingress relay's own verifier"@,
            evidence.key_left_ingress_verifier,
        ),
        (
            "the product attributed the key arm's teardown to the withdrawn key"@,
            views(evidence.key_rotation_reasons@) == seq!["membership_revoked"@],
        ),
        (
            "the same-key control arm was attributed to the record version, naming no key"@,
            views(evidence.version_bump_reasons@) == seq!["membership_changed"@],
        ),
        (
            "the key arm is still an owner self-revocation, as everything written about it assumes"@,
            evidence.key_rotation_owner_unready && views(evidence.key_rotation_owner_reasons@).contains("membership_revoked"@),
        ),
        (
            "the same-key control arm left the owner ready and invalidated nothing from the owner's side"@,
            !evidence.version_bump_owner_unready && evidence.version_bump_owner_reasons@.len() == 0,
        ),
    ]
}

fn check_keys(evidence: &AcpClusterEvidence) -> (broken: Option<&'static str>)
    ensures
        match broken {
            Some(rule) => first_broken(keys_rules(*evidence)) == Some(rule@),
            None => first_broken(keys_rules(*evidence)) is None,
        },
{
    let mut audit = Audit::new(Ghost(keys_rules(*evidence)));
    audit.hold(
        "the staged key overlap reached every relay's verifier before either arm ran",
        evidence.key_overlap_staged,
    );
    audit.hold(
        "the withdrawn peer key left the ingress relay's own verifier",
        evidence.key_left_ingress_verifier,
    );
    audit.hold(
        "the product attributed the key arm's teardown to the withdrawn key",
        is_single(&evidence.key_rotation_reasons, "membership_revoked"),
    );
    audit.hold(
        "the same-key control arm was attributed to the record version, naming no key",
        is_single(&evidence.version_bump_reasons, "membership_changed"),
    );
    audit.hold(
        "the key arm is still an owner self-revocation, as everything written about it assumes",
        evidence.key_rotation_owner_unready && holds_text(&evidence.key_rotation_owner_reasons, "membership_revoked"),
    );
    audit.hold(
        "the same-key control arm left the owner ready and invalidated nothing from the owner's side",
        !evidence.version_bump_owner_unready && evidence.version_bump_owner_reasons.len() == 0,
    );
    audit.broken()
}

/// Two users in two tenants.
pub open spec fn tenants_rules(evidence: AcpClusterEvidence) -> Seq<(Seq<char>, bool)> {
    seq![
        (
            "the two principals really did reuse the same JSON-RPC ids, in both types"@,
            views(evidence.shared_rpc_ids@) == seq!["s:1"@, "n:1"@],
        ),
        (
            "a live connection id from one tenant is refused in the other byte-identically to an id that never existed"@,
            evidence.connection_id_inert_in_other_tenant,
        ),
        (
            "the two tenants' exports issued the same session identifier"@,
            evidence.session_ids_collide,
        ),
        (
            "every reply was routed to the principal that asked, exactly once"@,
            evidence.replies_routed_per_principal,
        ),
        (
            "another principal of the same tenant is refused byte-identically to an id that never existed"@,
            evidence.same_tenant_foreign_matches_unknown,
        ),
        (
            "a principal of the other tenant is refused byte-identically to an id that never existed"@,
            evidence.cross_tenant_foreign_matches_unknown,
        ),
        (
            "those refusals were the profile's not-found, not some other error"@,
            evidence.foreign_refusal_status == 404,
        ),
        (
            "the genuine owner was still served afterwards"@,
            evidence.genuine_request_still_served,
        ),
        (
            "tenant B's export served exactly its own principal and opened nothing for the probes"@,
            evidence.tenant_b_sessions_opened == 1,
        ),
    ]
}

fn check_tenants(evidence: &AcpClusterEvidence) -> (broken: Option<&'static str>)
    ensures
        match broken {
            Some(rule) => first_broken(tenants_rules(*evidence)) == Some(rule@),
            None => first_broken(tenants_rules(*evidence)) is None,
        },
{
    let mut audit = Audit::new(Ghost(tenants_rules(*evidence)));
    audit.hold(
        "the two principals really did reuse the same JSON-RPC ids, in both types",
        is_pair(&evidence.shared_rpc_ids, "s:1", "n:1"),
    );
    audit.hold(
        "a live connection id from one tenant is refused in the other byte-identically to an id that never existed",
        evidence.connection_id_inert_in_other_tenant,
    );
    audit.hold(
        "the two tenants' exports issued the same session identifier",
        evidence.session_ids_collide,
    );
    audit.hold(
        "every reply was routed to the principal that asked, exactly once",
        evidence.replies_routed_per_principal,
    );
    audit.hold(
        "another principal of the same tenant is refused byte-identically to an id that never existed",
        evidence.same_tenant_foreign_matches_unknown,
    );
    audit.hold(
        "a principal of the other tenant is refused byte-identically to an id that never existed",
        evidence.cross_tenant_foreign_matches_unknown,
    );
    audit.hold(
        "those refusals were the profile's not-found, not some other error",
        evidence.foreign_refusal_status == 404,
    );
    audit.hold(
        "the genuine owner was still served afterwards",
        evidence.genuine_request_still_served,
    );
    audit.hold(
        "tenant B's export served exactly its own principal and opened nothing for the probes",
        evidence.tenant_b_sessions_opened == 1,
    );
    audit.broken()
}

/// Forged heads.
pub open spec fn forgery_rules(evidence: AcpClusterEvidence) -> Seq<(Seq<char>, bool)> {
    seq![
        (
            "every forged head was refused before dispatch"@,
            evidence.forgery_attempts == 3 && evidence.forgeries_refused == 3,
        ),
        (
            "not one forged head reached the device"@,
            evidence.forgery_dispatched == 0,
        ),
        (
            "the ingress counted each forgery as a rejection before admission"@,
            evidence.forgery_ingress_rejections >= evidence.forgery_attempts,
        ),
    ]
}

fn check_forgery(evidence: &AcpClusterEvidence) -> (broken: Option<&'static str>)
    ensures
        match broken {
            Some(rule) => first_broken(forgery_rules(*evidence)) == Some(rule@),
            None => first_broken(forgery_rules(*evidence)) is None,
        },
{
    let mut audit = Audit::new(Ghost(forgery_rules(*evidence)));
    audit.hold(
        "every forged head was refused before dispatch",
        evidence.forgery_attempts == 3 && evidence.forgeries_refused == 3,
    );
    audit.hold(
        "not one forged head reached the device",
        evidence.forgery_dispatched == 0,
    );
    audit.hold(
        "the ingress counted each forgery as a rejection before admission",
        evidence.forgery_ingress_rejections >= evidence.forgery_attempts,
    );
    audit.broken()
}

/// Grant revocation.
pub open spec fn revocation_rules(evidence: AcpClusterEvidence) -> Seq<(Seq<char>, bool)> {
    seq![
        (
            "revocation withdrew the admitted exchange"@,
            evidence.revocation_in_flight_withdrawn,
        ),
        (
            "the withdrawal included an exchange the relay itself classified execution: unknown"@,
            split_on(evidence.revocation_in_flight_execution@, '+').contains("unknown"@),
        ),
        (
            "admission was actually attempted after revocation"@,
            evidence.revocation_dispatch_attempts >= 2,
        ),
        (
            "nothing was dispatched to the device after revocation"@,
            evidence.revocation_dispatched_after == 0,
        ),
        (
            "the request after revocation met the revocation's own typed refusal"@,
            evidence.revocation_after_status == 404 && evidence.revocation_after_code@ == "SERVICE_NOT_FOUND"@ && evidence.revocation_after_execution@ == "not_dispatched"@,
        ),
        (
            "a prompt on the revoked principal's own session was refused too, with the same status"@,
            evidence.revocation_after_prompt_status == 404,
        ),
        (
            "the withdrawn turn never acquired a stop reason"@,
            evidence.revocation_no_stop_reason,
        ),
    ]
}

fn check_revocation(evidence: &AcpClusterEvidence) -> (broken: Option<&'static str>)
    ensures
        match broken {
            Some(rule) => first_broken(revocation_rules(*evidence)) == Some(rule@),
            None => first_broken(revocation_rules(*evidence)) is None,
        },
{
    let mut audit = Audit::new(Ghost(revocation_rules(*evidence)));
    audit.hold(
        "revocation withdrew the admitted exchange",
        evidence.revocation_in_flight_withdrawn,
    );
    audit.hold(
        "the withdrawal included an exchange the relay itself classified execution: unknown",
        has_piece(&evidence.revocation_in_flight_execution, '+', "unknown"),
    );
    audit.hold(
        "admission was actually attempted after revocation",
        evidence.revocation_dispatch_attempts >= 2,
    );
    audit.hold(
        "nothing was dispatched to the device after revocation",
        evidence.revocation_dispatched_after == 0,
    );
    audit.hold(
        "the request after revocation met the revocation's own typed refusal",
        evidence.revocation_after_status == 404 && same_text(evidence.revocation_after_code.as_str(), "SERVICE_NOT_FOUND") && same_text(evidence.revocation_after_execution.as_str(), "not_dispatched"),
    );
    audit.hold(
        "a prompt on the revoked principal's own session was refused too, with the same status",
        evidence.revocation_after_prompt_status == 404,
    );
    audit.hold(
        "the withdrawn turn never acquired a stop reason",
        evidence.revocation_no_stop_reason,
    );
    audit.broken()
}

/// The saturated peer hop and the owner-to-device segment.
pub open spec fn saturation_rules(evidence: AcpClusterEvidence) -> Seq<(Seq<char>, bool)> {
    seq![
        (
            "the request direction of the ingress-to-owner peer hop reached the enforced saturation threshold of its credit window"@,
            evidence.ingress_request_direction_saturated,
        ),
        (
            "both directions of the ingress-to-owner peer hop were never saturated at one instant, which is the measured and disclosed reading"@,
            !evidence.peer_hop_both_directions_saturated,
        ),
        (
            "the owner-to-device segment carried measured load"@,
            evidence.owner_device_queue_limit > 0 && evidence.owner_device_queue_high_water > 0,
        ),
        (
            "both directions of the owner-to-device segment carried bytes at one coherent instant"@,
            evidence.owner_device_request_bytes_at_instant > 0 && evidence.owner_device_response_bytes_at_instant > 0,
        ),
        (
            "the segment was sampled while the upload was still in flight"@,
            evidence.owner_device_loaded_samples >= MIN_LOADED_SAMPLES,
        ),
        (
            "the peer hop's live pair was sampled while the upload was in flight"@,
            evidence.peer_hop_live_samples >= MIN_PEER_HOP_SAMPLES,
        ),
        (
            "the saturating upload completed, read off the wire"@,
            evidence.saturating_upload_stop_reason@ == "end_turn"@,
        ),
        (
            "a live SSE stream still completed a turn while a stream was parked and stalling"@,
            evidence.live_stream_served_while_parked && evidence.live_probe_status == 202,
        ),
    ]
}

fn check_saturation(evidence: &AcpClusterEvidence) -> (broken: Option<&'static str>)
    ensures
        match broken {
            Some(rule) => first_broken(saturation_rules(*evidence)) == Some(rule@),
            None => first_broken(saturation_rules(*evidence)) is None,
        },
{
    let mut audit = Audit::new(Ghost(saturation_rules(*evidence)));
    audit.hold(
        "the request direction of the ingress-to-owner peer hop reached the enforced saturation threshold of its credit window",
        evidence.ingress_request_direction_saturated,
    );
    audit.hold(
        "both directions of the ingress-to-owner peer hop were never saturated at one instant, which is the measured and disclosed reading",
        !evidence.peer_hop_both_directions_saturated,
    );
    audit.hold(
        "the owner-to-device segment carried measured load",
        evidence.owner_device_queue_limit > 0 && evidence.owner_device_queue_high_water > 0,
    );
    audit.hold(
        "both directions of the owner-to-device segment carried bytes at one coherent instant",
        evidence.owner_device_request_bytes_at_instant > 0 && evidence.owner_device_response_bytes_at_instant > 0,
    );
    audit.hold(
        "the segment was sampled while the upload was still in flight",
        evidence.owner_device_loaded_samples >= MIN_LOADED_SAMPLES,
    );
    audit.hold(
        "the peer hop's live pair was sampled while the upload was in flight",
        evidence.peer_hop_live_samples >= MIN_PEER_HOP_SAMPLES,
    );
    audit.hold(
        "the saturating upload completed, read off the wire",
        same_text(evidence.saturating_upload_stop_reason.as_str(), "end_turn"),
    );
    audit.hold(
        "a live SSE stream still completed a turn while a stream was parked and stalling",
        evidence.live_stream_served_while_parked && evidence.live_probe_status == 202,
    );
    audit.broken()
}

/// The explicit interruptions.  A turn that never finished has no stop reason.
pub open spec fn interruptions_rules(evidence: AcpClusterEvidence) -> Seq<(Seq<char>, bool)> {
    seq![
        (
            "peer-path loss did not produce an explicit interruption"@,
            evidence.path_loss_interrupted,
        ),
        (
            "peer-path loss produced a stopReason for a turn that never finished, which is a fabricated terminal"@,
            evidence.path_loss_no_stop_reason,
        ),
        (
            "peer-key rotation did not produce an explicit interruption"@,
            evidence.key_rotation_interrupted,
        ),
        (
            "peer-key rotation produced a stopReason for a turn that never finished, which is a fabricated terminal"@,
            evidence.key_rotation_no_stop_reason,
        ),
        (
            "owner loss did not produce an explicit interruption"@,
            evidence.owner_loss_interrupted,
        ),
        (
            "owner loss produced a stopReason for a turn that never finished, which is a fabricated terminal"@,
            evidence.owner_loss_no_stop_reason,
        ),
    ]
}

fn check_interruptions(evidence: &AcpClusterEvidence) -> (broken: Option<&'static str>)
    ensures
        match broken {
            Some(rule) => first_broken(interruptions_rules(*evidence)) == Some(rule@),
            None => first_broken(interruptions_rules(*evidence)) is None,
        },
{
    let mut audit = Audit::new(Ghost(interruptions_rules(*evidence)));
    audit.hold(
        "peer-path loss did not produce an explicit interruption",
        evidence.path_loss_interrupted,
    );
    audit.hold(
        "peer-path loss produced a stopReason for a turn that never finished, which is a fabricated terminal",
        evidence.path_loss_no_stop_reason,
    );
    audit.hold(
        "peer-key rotation did not produce an explicit interruption",
        evidence.key_rotation_interrupted,
    );
    audit.hold(
        "peer-key rotation produced a stopReason for a turn that never finished, which is a fabricated terminal",
        evidence.key_rotation_no_stop_reason,
    );
    audit.hold(
        "owner loss did not produce an explicit interruption",
        evidence.owner_loss_interrupted,
    );
    audit.hold(
        "owner loss produced a stopReason for a turn that never finished, which is a fabricated terminal",
        evidence.owner_loss_no_stop_reason,
    );
    audit.broken()
}

/// The sections of the rules, in the order in which they are held.
pub open spec fn cluster_sections(evidence: AcpClusterEvidence) -> Seq<Seq<(Seq<char>, bool)>> {
    seq![
        run_rules(evidence),
        span_rules(evidence),
        keys_rules(evidence),
        tenants_rules(evidence),
        forgery_rules(evidence),
        revocation_rules(evidence),
        saturation_rules(evidence),
        interruptions_rules(evidence),
    ]
}

/// The steps of the rules: their sections.
pub open spec fn cluster_steps(evidence: AcpClusterEvidence) -> spec_fn(int) -> Seq<
    (Seq<char>, bool),
> {
    |i: int| cluster_sections(evidence)[i]
}

/// The rules that the run as a whole must keep.
pub open spec fn cluster_rules(evidence: AcpClusterEvidence) -> Seq<(Seq<char>, bool)> {
    chained(cluster_steps(evidence), 8)
}

proof fn lemma_section(evidence: AcpClusterEvidence, i: nat)
    requires
        i < 8,
        first_broken(chained(cluster_steps(evidence), i)) is None,
    ensures
        first_broken(cluster_sections(evidence)[i as int]) is None ==> first_broken(
            chained(cluster_steps(evidence), i + 1),
        ) is None,
        first_broken(cluster_sections(evidence)[i as int]) is Some ==> first_broken(
            cluster_rules(evidence),
        ) == first_broken(cluster_sections(evidence)[i as int]),
{
    let steps = cluster_steps(evidence);
    lemma_chained_step(steps, i);
    if first_broken(steps(i as int)) is Some {
        lemma_chained_broken(steps, i + 1, 8);
    }
}

fn check_claims(evidence: &AcpClusterEvidence) -> (broken: Option<&'static str>)
    ensures
        match broken {
            Some(rule) => first_broken(cluster_rules(*evidence)) == Some(rule@),
            None => first_broken(cluster_rules(*evidence)) is None,
        },
{
    proof {
        lemma_section(*evidence, 0);
    }
    match check_run(evidence) {
        Some(rule) => {
            return Some(rule);
        },
        None => {},
    }
    proof {
        lemma_section(*evidence, 1);
    }
    match check_span(evidence) {
        Some(rule) => {
            return Some(rule);
        },
        None => {},
    }
    proof {
        lemma_section(*evidence, 2);
    }
    match check_keys(evidence) {
        Some(rule) => {
            return Some(rule);
        },
        None => {},
    }
    proof {
        lemma_section(*evidence, 3);
    }
    match check_tenants(evidence) {
        Some(rule) => {
            return Some(rule);
        },
        None => {},
    }
    proof {
        lemma_section(*evidence, 4);
    }
    match check_forgery(evidence) {
        Some(rule) => {
            return Some(rule);
        },
        None => {},
    }
    proof {
        lemma_section(*evidence, 5);
    }
    match check_revocation(evidence) {
        Some(rule) => {
            return Some(rule);
        },
        None => {},
    }
    proof {
        lemma_section(*evidence, 6);
    }
    match check_saturation(evidence) {
        Some(rule) => {
            return Some(rule);
        },
        None => {},
    }
    proof {
        lemma_section(*evidence, 7);
    }
    check_interruptions(evidence)
}

/// What each session carried across the window must show.
pub open spec fn session_rules(span: SessionSpan) -> Seq<(Seq<char>, bool)> {
    seq![
        (
            "the session stream stayed live across every rotation"@,
            span.stream_alive_through_window,
        ),
        (
            "the held turn completed end_turn, read off the wire"@,
            span.stop_reason@ == "end_turn"@,
        ),
        ("the permission callback arrived exactly once across the window"@, span.callbacks == 1),
        ("the warm-up update arrived before the window"@, span.updates_before >= 1),
        (
            "the held turn's own update arrived after its callback was answered"@,
            span.updates_after >= 1,
        ),
        (
            "no message was repeated under an id already seen on this stream"@,
            span.distinct_agent_ids >= 1 && span.identified_messages == span.distinct_agent_ids,
        ),
    ]
}

fn check_session(span: &SessionSpan) -> (broken: Option<&'static str>)
    ensures
        match broken {
            Some(rule) => first_broken(session_rules(*span)) == Some(rule@),
            None => first_broken(session_rules(*span)) is None,
        },
{
    let mut audit = Audit::new(Ghost(session_rules(*span)));
    audit.hold(
        "the session stream stayed live across every rotation",
        span.stream_alive_through_window,
    );
    audit.hold(
        "the held turn completed end_turn, read off the wire",
        same_text(span.stop_reason.as_str(), "end_turn"),
    );
    audit.hold(
        "the permission callback arrived exactly once across the window",
        span.callbacks == 1,
    );
    audit.hold("the warm-up update arrived before the window", span.updates_before >= 1);
    audit.hold(
        "the held turn's own update arrived after its callback was answered",
        span.updates_after >= 1,
    );
    audit.hold(
        "no message was repeated under an id already seen on this stream",
        span.distinct_agent_ids >= 1 && span.identified_messages == span.distinct_agent_ids,
    );
    audit.broken()
}

/// The failure of session `i`.
pub open spec fn session_steps(evidence: AcpClusterEvidence) -> spec_fn(int) -> Option<Seq<char>> {
    |i: int|
        match first_broken(session_rules(evidence.sessions@[i])) {
            Some(rule) => Some("session "@ + evidence.sessions@[i].session@ + ": "@ + rule),
            None => None,
        }
}

/// The first rule that a run does not keep.  A case that did not run is named
/// before anything that it would have left unmeasured.
pub open spec fn cluster_failure(evidence: AcpClusterEvidence) -> Option<Seq<char>> {
    let sessions = first_failure(session_steps(evidence), 0, evidence.sessions@.len() as int);
    if first_broken(cluster_rules(evidence)) is Some {
        first_broken(cluster_rules(evidence))
    } else if evidence.sessions@.len() != ROTATION_SESSIONS {
        Some(
            decimal(evidence.sessions@.len()) + " sessions were carried across the window, not "@
                + decimal(ROTATION_SESSIONS as nat),
        )
    } else if sessions is Some {
        sessions
    } else if evidence.leftover_processes != 0 {
        Some(decimal(evidence.leftover_processes as nat) + " agent processes outlived the \
            gate"@)
    } else {
        None
    }
}

fn find_failure(evidence: &AcpClusterEvidence) -> (failure: Option<String>)
    ensures
        match failure {
            Some(text) => cluster_failure(*evidence) == Some(text@),
            None => cluster_failure(*evidence) is None,
        },
{
    match check_claims(evidence) {
        Some(rule) => {
            return Some(rule.to_owned());
        },
        None => {},
    }
    if evidence.sessions.len() != ROTATION_SESSIONS {
        let count = decimal_text(evidence.sessions.len() as u128);
        let wanted = decimal_text(ROTATION_SESSIONS as u128);
        return Some(
            count.concat(" sessions were carried across the window, not ").concat(wanted.as_str()),
        );
    }
    let ghost steps = session_steps(*evidence);
    let ghost count = evidence.sessions@.len() as int;
    let mut i: usize = 0;
    while i < evidence.sessions.len()
        invariant
            i <= evidence.sessions.len(),
            evidence.sessions@.len() == ROTATION_SESSIONS,
            first_broken(cluster_rules(*evidence)) is None,
            count == evidence.sessions@.len(),
            steps == session_steps(*evidence),
            first_failure(steps, 0, count) == first_failure(steps, i as int, count),
        decreases evidence.sessions.len() - i,
    {
        match check_session(&evidence.sessions[i]) {
            Some(rule) => {
                return Some(
                    "session ".to_owned().concat(evidence.sessions[i].session.as_str()).concat(
                        ": ",
                    ).concat(rule),
                );
            },
            None => {},
        }
        i += 1;
    }
    if evidence.leftover_processes != 0 {
        let leftover = decimal_text(evidence.leftover_processes as u128);
        return Some(leftover.concat(" agent processes outlived the \
            gate"));
    }
    None
}

/// Holds every rule of this gate.  The first violated one names itself.
pub fn validate_acp_cluster_evidence(evidence: &AcpClusterEvidence) -> (result: Result<
    (),
    HarnessError,
>)
    ensures
        match result {
            Ok(()) => cluster_failure(*evidence) is None,
            Err(error) => cluster_failure(*evidence) is Some && error@ == ErrorView::Process(
                "ACP cluster gate failed: "@ + cluster_failure(*evidence)->Some_0,
            ),
        },
        result is Ok ==> {
            &&& evidence.side_effects_in_ledger == 2
            &&& evidence.side_effects_after_settle == 2
            &&& evidence.sessions@.len() == 2
            &&& evidence.forgery_dispatched == 0
            &&& evidence.revocation_dispatched_after == 0
            &&& evidence.unexplained_refusal is None
            &&& evidence.leftover_processes == 0
        },
{
    proof {
        lemma_passing_run_measured(*evidence);
    }
    match find_failure(evidence) {
        Some(text) => Err(
            HarnessError::Process("ACP cluster gate failed: ".to_owned().concat(text.as_str())),
        ),
        None => Ok(()),
    }
}

/// A run passes exactly when it keeps every rule, carried both sessions, each
/// of them keeps every rule of a session, and no agent process is left.
pub proof fn lemma_passing_run(evidence: AcpClusterEvidence)
    ensures
        cluster_failure(evidence) is None <==> all_hold(cluster_rules(evidence))
            && evidence.sessions@.len() == ROTATION_SESSIONS && (forall|i: int|
            #![trigger evidence.sessions@[i]]
            0 <= i < evidence.sessions@.len() ==> all_hold(session_rules(evidence.sessions@[i])))
            && evidence.leftover_processes == 0,
{
    let steps = session_steps(evidence);
    lemma_first_broken(cluster_rules(evidence));
    lemma_first_failure(steps, 0, evidence.sessions@.len() as int);
    assert forall|i: int| 0 <= i < evidence.sessions@.len() implies (#[trigger] steps(i) is None
        <==> all_hold(session_rules(evidence.sessions@[i]))) by {
        lemma_first_broken(session_rules(evidence.sessions@[i]));
    }
    if forall|i: int|
        #![trigger evidence.sessions@[i]]
        0 <= i < evidence.sessions@.len() ==> all_hold(session_rules(evidence.sessions@[i])) {
        assert forall|i: int| 0 <= i < evidence.sessions@.len() implies #[trigger] steps(
            i,
        ) is None by {
            assert(all_hold(session_rules(evidence.sessions@[i])));
        }
    }
    if first_failure(steps, 0, evidence.sessions@.len() as int) is None {
        assert forall|i: int|
            #![trigger evidence.sessions@[i]]
            0 <= i < evidence.sessions@.len() implies all_hold(
            session_rules(evidence.sessions@[i]),
        ) by {
            assert(steps(i) is None);
        }
    }
}

/// On a cluster of the right shape, a run that did not execute every case in
/// order is named for exactly that, whatever else it left unmeasured.
pub proof fn lemma_missing_case_is_named(evidence: AcpClusterEvidence)
    requires
        run_rules(evidence)[0].1,
        run_rules(evidence)[1].1,
        views(evidence.cases_executed@) != str_views(CLUSTER_CASES@),
    ensures
        cluster_failure(evidence) == Some("every case executed"@),
{
    let rules = run_rules(evidence);
    reveal_with_fuel(first_broken, 4);
    assert(rules.drop_first()[0] == rules[1]);
    assert(rules.drop_first().drop_first()[0] == rules[2]);
    assert(first_broken(rules) == Some("every case executed"@));
    let steps = cluster_steps(evidence);
    assert(chained(steps, 0) =~= Seq::empty());
    lemma_section(evidence, 0);
}

/// The cases of this run, by name.
proof fn lemma_cases()
    ensures
        str_views(CLUSTER_CASES@) == seq![
            "rotation-span"@,
            "two-tenant-ids"@,
            "forged-heads"@,
            "saturation"@,
            "revocation"@,
            "peer-key-rotation"@,
            "peer-path-loss"@,
            "owner-loss"@,
        ],
{
    assert(str_views(CLUSTER_CASES@) =~= seq![
        "rotation-span"@,
        "two-tenant-ids"@,
        "forged-heads"@,
        "saturation"@,
        "revocation"@,
        "peer-key-rotation"@,
        "peer-path-loss"@,
        "owner-loss"@,
    ]);
}

/// What the rules of the run section ask of the evidence.
proof fn lemma_run_claims(evidence: AcpClusterEvidence)
    ensures
        all_hold(run_rules(evidence)) <==> {
            &&& evidence.relay_count == 3
            &&& evidence.non_owner_ingress
            &&& evidence.owner_node@ == "relay-a"@
            &&& evidence.ingress_node@ == "relay-c"@
            &&& views(evidence.cases_executed@) == seq![
                "rotation-span"@,
                "two-tenant-ids"@,
                "forged-heads"@,
                "saturation"@,
                "revocation"@,
                "peer-key-rotation"@,
                "peer-path-loss"@,
                "owner-loss"@,
            ]
            &&& evidence.not_covered@.len() == 14
            &&& (exists|i: int|
                0 <= i < 14 && occurs_in(
                    (#[trigger] evidence.not_covered@[i])@,
                    span_text(evidence.rotations_across_span, evidence.rotation_span_ms),
                ))
        },
{
    let rules = run_rules(evidence);
    assert(rules.len() == 4);
    lemma_cases();
    assert(views(evidence.not_covered@).len() == evidence.not_covered@.len());
    assert forall|i: int| 0 <= i < evidence.not_covered@.len() implies views(
        evidence.not_covered@,
    )[i] == (#[trigger] evidence.not_covered@[i])@ by {
    }
    if all_hold(rules) {
        assert(rules[0].1);
        assert(rules[1].1);
        assert(rules[2].1);
        assert(rules[3].1);
    }
}

/// What the rules of the span section ask of the evidence.
proof fn lemma_span_claims(evidence: AcpClusterEvidence)
    ensures
        all_hold(span_rules(evidence)) <==> {
            &&& evidence.rotations_across_span >= 3
            &&& evidence.owner_rotations_across_span >= 3
            &&& evidence.rotation_span_met_schedule
            &&& evidence.rotation_span_ms < 40000
            &&& evidence.new_sockets_per_round@.len() == 3
            &&& (forall|i: int|
                0 <= i < evidence.new_sockets_per_round@.len()
                    ==> #[trigger] evidence.new_sockets_per_round@[i] == 1)
            &&& evidence.steady_state_sockets@.len() > 0
            &&& (forall|i: int|
                0 <= i < evidence.steady_state_sockets@.len()
                    ==> #[trigger] evidence.steady_state_sockets@[i] == 2)
            &&& evidence.device_socket_peak <= 3
            &&& evidence.connection_stream_alive
            &&& evidence.connection_stable
            &&& evidence.device_session_stable
            &&& evidence.device_epoch_stable
            &&& evidence.side_effects_in_ledger == 2
            &&& evidence.side_effects_after_settle == 2
            &&& evidence.max_membership_age_at_case_end_ms < 60000
            &&& evidence.not_dispatched_refusals == evidence.not_dispatched_retries
            &&& evidence.unexplained_refusal is None
        },
{
    let rules = span_rules(evidence);
    assert(rules.len() == 12);
    if all_hold(rules) {
        assert(rules[0].1);
        assert(rules[1].1);
        assert(rules[2].1);
        assert(rules[3].1);
        assert(rules[4].1);
        assert(rules[5].1);
        assert(rules[6].1);
        assert(rules[7].1);
        assert(rules[8].1);
        assert(rules[9].1);
        assert(rules[10].1);
        assert(rules[11].1);
    }
}

/// What the rules of the keys section ask of the evidence.
proof fn lemma_keys_claims(evidence: AcpClusterEvidence)
    ensures
        all_hold(keys_rules(evidence)) <==> {
            &&& evidence.key_overlap_staged
            &&& evidence.key_left_ingress_verifier
            &&& views(evidence.key_rotation_reasons@) == seq!["membership_revoked"@]
            &&& views(evidence.version_bump_reasons@) == seq!["membership_changed"@]
            &&& evidence.key_rotation_owner_unready
            &&& views(evidence.key_rotation_owner_reasons@).contains("membership_revoked"@)
            &&& !evidence.version_bump_owner_unready
            &&& evidence.version_bump_owner_reasons@.len() == 0
        },
{
    let rules = keys_rules(evidence);
    assert(rules.len() == 6);
    if all_hold(rules) {
        assert(rules[0].1);
        assert(rules[1].1);
        assert(rules[2].1);
        assert(rules[3].1);
        assert(rules[4].1);
        assert(rules[5].1);
    }
}

/// What the rules of the tenants section ask of the evidence.
proof fn lemma_tenants_claims(evidence: AcpClusterEvidence)
    ensures
        all_hold(tenants_rules(evidence)) <==> {
            &&& views(evidence.shared_rpc_ids@) == seq!["s:1"@, "n:1"@]
            &&& evidence.connection_id_inert_in_other_tenant
            &&& evidence.session_ids_collide
            &&& evidence.replies_routed_per_principal
            &&& evidence.same_tenant_foreign_matches_unknown
            &&& evidence.cross_tenant_foreign_matches_unknown
            &&& evidence.foreign_refusal_status == 404
            &&& evidence.genuine_request_still_served
            &&& evidence.tenant_b_sessions_opened == 1
        },
{
    let rules = tenants_rules(evidence);
    assert(rules.len() == 9);
    if all_hold(rules) {
        assert(rules[0].1);
        assert(rules[1].1);
        assert(rules[2].1);
        assert(rules[3].1);
        assert(rules[4].1);
        assert(rules[5].1);
        assert(rules[6].1);
        assert(rules[7].1);
        assert(rules[8].1);
    }
}

/// What the rules of the forgery section ask of the evidence.
proof fn lemma_forgery_claims(evidence: AcpClusterEvidence)
    ensures
        all_hold(forgery_rules(evidence)) <==> {
            &&& evidence.forgery_attempts == 3
            &&& evidence.forgeries_refused == 3
            &&& evidence.forgery_dispatched == 0
            &&& evidence.forgery_ingress_rejections >= evidence.forgery_attempts
        },
{
    let rules = forgery_rules(evidence);
    assert(rules.len() == 3);
    if all_hold(rules) {
        assert(rules[0].1);
        assert(rules[1].1);
        assert(rules[2].1);
    }
}

/// What the rules of the revocation section ask of the evidence.
proof fn lemma_revocation_claims(evidence: AcpClusterEvidence)
    ensures
        all_hold(revocation_rules(evidence)) <==> {
            &&& evidence.revocation_in_flight_withdrawn
            &&& split_on(evidence.revocation_in_flight_execution@, '+').contains("unknown"@)
            &&& evidence.revocation_dispatch_attempts >= 2
            &&& evidence.revocation_dispatched_after == 0
            &&& evidence.revocation_after_status == 404
            &&& evidence.revocation_after_code@ == "SERVICE_NOT_FOUND"@
            &&& evidence.revocation_after_execution@ == "not_dispatched"@
            &&& evidence.revocation_after_prompt_status == 404
            &&& evidence.revocation_no_stop_reason
        },
{
    let rules = revocation_rules(evidence);
    assert(rules.len() == 7);
    if all_hold(rules) {
        assert(rules[0].1);
        assert(rules[1].1);
        assert(rules[2].1);
        assert(rules[3].1);
        assert(rules[4].1);
        assert(rules[5].1);
        assert(rules[6].1);
    }
}

/// What the rules of the saturation section ask of the evidence.
proof fn lemma_saturation_claims(evidence: AcpClusterEvidence)
    ensures
        all_hold(saturation_rules(evidence)) <==> {
            &&& evidence.ingress_request_direction_saturated
            &&& !evidence.peer_hop_both_directions_saturated
            &&& evidence.owner_device_queue_limit > 0
            &&& evidence.owner_device_queue_high_water > 0
            &&& evidence.owner_device_request_bytes_at_instant > 0
            &&& evidence.owner_device_response_bytes_at_instant > 0
            &&& evidence.owner_device_loaded_samples >= 64
            &&& evidence.peer_hop_live_samples >= 32
            &&& evidence.saturating_upload_stop_reason@ == "end_turn"@
            &&& evidence.live_stream_served_while_parked
            &&& evidence.live_probe_status == 202
        },
{
    let rules = saturation_rules(evidence);
    assert(rules.len() == 8);
    if all_hold(rules) {
        assert(rules[0].1);
        assert(rules[1].1);
        assert(rules[2].1);
        assert(rules[3].1);
        assert(rules[4].1);
        assert(rules[5].1);
        assert(rules[6].1);
        assert(rules[7].1);
    }
}

/// What the rules of the interruptions section ask of the evidence.
proof fn lemma_interruptions_claims(evidence: AcpClusterEvidence)
    ensures
        all_hold(interruptions_rules(evidence)) <==> {
            &&& evidence.path_loss_interrupted
            &&& evidence.path_loss_no_stop_reason
            &&& evidence.key_rotation_interrupted
            &&& evidence.key_rotation_no_stop_reason
            &&& evidence.owner_loss_interrupted
            &&& evidence.owner_loss_no_stop_reason
        },
{
    let rules = interruptions_rules(evidence);
    assert(rules.len() == 6);
    if all_hold(rules) {
        assert(rules[0].1);
        assert(rules[1].1);
        assert(rules[2].1);
        assert(rules[3].1);
        assert(rules[4].1);
        assert(rules[5].1);
    }
}

/// What the rules of a session ask of what it carried.
proof fn lemma_session_claims(span: SessionSpan)
    ensures
        all_hold(session_rules(span)) <==> {
            &&& span.stream_alive_through_window
            &&& span.stop_reason@ == "end_turn"@
            &&& span.callbacks == 1
            &&& span.updates_before >= 1
            &&& span.updates_after >= 1
            &&& span.distinct_agent_ids >= 1
            &&& span.identified_messages == span.distinct_agent_ids
        },
{
    let rules = session_rules(span);
    assert(rules.len() == 6);
    if all_hold(rules) {
        assert(rules[0].1);
        assert(rules[1].1);
        assert(rules[2].1);
        assert(rules[3].1);
        assert(rules[4].1);
        assert(rules[5].1);
    }
}

/// The rules of a run hold exactly when those of each section do.
proof fn lemma_sections_hold(evidence: AcpClusterEvidence)
    ensures
        all_hold(cluster_rules(evidence)) <==> {
            &&& all_hold(run_rules(evidence))
            &&& all_hold(span_rules(evidence))
            &&& all_hold(keys_rules(evidence))
            &&& all_hold(tenants_rules(evidence))
            &&& all_hold(forgery_rules(evidence))
            &&& all_hold(revocation_rules(evidence))
            &&& all_hold(saturation_rules(evidence))
            &&& all_hold(interruptions_rules(evidence))
        },
{
    let steps = cluster_steps(evidence);
    lemma_all_hold_chained(steps, 8);
    assert(steps(0) == run_rules(evidence));
    assert(steps(1) == span_rules(evidence));
    assert(steps(2) == keys_rules(evidence));
    assert(steps(3) == tenants_rules(evidence));
    assert(steps(4) == forgery_rules(evidence));
    assert(steps(5) == revocation_rules(evidence));
    assert(steps(6) == saturation_rules(evidence));
    assert(steps(7) == interruptions_rules(evidence));
}

/// A run passes exactly when it measured this, field by field.
pub proof fn lemma_passing_run_measured(evidence: AcpClusterEvidence)
    ensures
        cluster_failure(evidence) is None <==> {
            &&& evidence.relay_count == 3
            &&& evidence.non_owner_ingress
            &&& evidence.owner_node@ == "relay-a"@
            &&& evidence.ingress_node@ == "relay-c"@
            &&& views(evidence.cases_executed@) == seq![
                "rotation-span"@,
                "two-tenant-ids"@,
                "forged-heads"@,
                "saturation"@,
                "revocation"@,
                "peer-key-rotation"@,
                "peer-path-loss"@,
                "owner-loss"@,
            ]
            &&& evidence.not_covered@.len() == 14
            &&& (exists|i: int|
                0 <= i < 14 && occurs_in(
                    (#[trigger] evidence.not_covered@[i])@,
                    span_text(evidence.rotations_across_span, evidence.rotation_span_ms),
                ))
            &&& evidence.rotations_across_span >= 3
            &&& evidence.owner_rotations_across_span >= 3
            &&& evidence.rotation_span_met_schedule
            &&& evidence.rotation_span_ms < 40000
            &&& evidence.new_sockets_per_round@.len() == 3
            &&& (forall|i: int|
                0 <= i < evidence.new_sockets_per_round@.len()
                    ==> #[trigger] evidence.new_sockets_per_round@[i] == 1)
            &&& evidence.steady_state_sockets@.len() > 0
            &&& (forall|i: int|
                0 <= i < evidence.steady_state_sockets@.len()
                    ==> #[trigger] evidence.steady_state_sockets@[i] == 2)
            &&& evidence.device_socket_peak <= 3
            &&& evidence.connection_stream_alive
            &&& evidence.connection_stable
            &&& evidence.device_session_stable
            &&& evidence.device_epoch_stable
            &&& evidence.side_effects_in_ledger == 2
            &&& evidence.side_effects_after_settle == 2
            &&& evidence.max_membership_age_at_case_end_ms < 60000
            &&& evidence.not_dispatched_refusals == evidence.not_dispatched_retries
            &&& evidence.unexplained_refusal is None
            &&& evidence.key_overlap_staged
            &&& evidence.key_left_ingress_verifier
            &&& views(evidence.key_rotation_reasons@) == seq!["membership_revoked"@]
            &&& views(evidence.version_bump_reasons@) == seq!["membership_changed"@]
            &&& evidence.key_rotation_owner_unready
            &&& views(evidence.key_rotation_owner_reasons@).contains("membership_revoked"@)
            &&& !evidence.version_bump_owner_unready
            &&& evidence.version_bump_owner_reasons@.len() == 0
            &&& views(evidence.shared_rpc_ids@) == seq!["s:1"@, "n:1"@]
            &&& evidence.connection_id_inert_in_other_tenant
            &&& evidence.session_ids_collide
            &&& evidence.replies_routed_per_principal
            &&& evidence.same_tenant_foreign_matches_unknown
            &&& evidence.cross_tenant_foreign_matches_unknown
            &&& evidence.foreign_refusal_status == 404
            &&& evidence.genuine_request_still_served
            &&& evidence.tenant_b_sessions_opened == 1
            &&& evidence.forgery_attempts == 3
            &&& evidence.forgeries_refused == 3
            &&& evidence.forgery_dispatched == 0
            &&& evidence.forgery_ingress_rejections >= evidence.forgery_attempts
            &&& evidence.revocation_in_flight_withdrawn
            &&& split_on(evidence.revocation_in_flight_execution@, '+').contains("unknown"@)
            &&& evidence.revocation_dispatch_attempts >= 2
            &&& evidence.revocation_dispatched_after == 0
            &&& evidence.revocation_after_status == 404
            &&& evidence.revocation_after_code@ == "SERVICE_NOT_FOUND"@
            &&& evidence.revocation_after_execution@ == "not_dispatched"@
            &&& evidence.revocation_after_prompt_status == 404
            &&& evidence.revocation_no_stop_reason
            &&& evidence.ingress_request_direction_saturated
            &&& !evidence.peer_hop_both_directions_saturated
            &&& evidence.owner_device_queue_limit > 0
            &&& evidence.owner_device_queue_high_water > 0
            &&& evidence.owner_device_request_bytes_at_instant > 0
            &&& evidence.owner_device_response_bytes_at_instant > 0
            &&& evidence.owner_device_loaded_samples >= 64
            &&& evidence.peer_hop_live_samples >= 32
            &&& evidence.saturating_upload_stop_reason@ == "end_turn"@
            &&& evidence.live_stream_served_while_parked
            &&& evidence.live_probe_status == 202
            &&& evidence.path_loss_interrupted
            &&& evidence.path_loss_no_stop_reason
            &&& evidence.key_rotation_interrupted
            &&& evidence.key_rotation_no_stop_reason
            &&& evidence.owner_loss_interrupted
            &&& evidence.owner_loss_no_stop_reason
            &&& evidence.sessions@.len() == 2
            &&& (forall|i: int|
                0 <= i < 2 ==> {
                    &&& (#[trigger] evidence.sessions@[i]).stream_alive_through_window
                    &&& evidence.sessions@[i].stop_reason@ == "end_turn"@
                    &&& evidence.sessions@[i].callbacks == 1
                    &&& evidence.sessions@[i].updates_before >= 1
                    &&& evidence.sessions@[i].updates_after >= 1
                    &&& evidence.sessions@[i].distinct_agent_ids >= 1
                    &&& evidence.sessions@[i].identified_messages
                        == evidence.sessions@[i].distinct_agent_ids
                })
            &&& evidence.leftover_processes == 0
        },
{
    lemma_passing_run(evidence);
    lemma_sections_hold(evidence);
    lemma_run_claims(evidence);
    lemma_span_claims(evidence);
    lemma_keys_claims(evidence);
    lemma_tenants_claims(evidence);
    lemma_forgery_claims(evidence);
    lemma_revocation_claims(evidence);
    lemma_saturation_claims(evidence);
    lemma_interruptions_claims(evidence);
    assert forall|i: int| 0 <= i < evidence.sessions@.len() implies (all_hold(
        session_rules(#[trigger] evidence.sessions@[i]),
    ) <==> {
        &&& evidence.sessions@[i].stream_alive_through_window
        &&& evidence.sessions@[i].stop_reason@ == "end_turn"@
        &&& evidence.sessions@[i].callbacks == 1
        &&& evidence.sessions@[i].updates_before >= 1
        &&& evidence.sessions@[i].updates_after >= 1
        &&& evidence.sessions@[i].distinct_agent_ids >= 1
        &&& evidence.sessions@[i].identified_messages == evidence.sessions@[i].distinct_agent_ids
    }) by {
        lemma_session_claims(evidence.sessions@[i]);
    }
}

/// The claim that the rules of the run itself name is one that the evidence breaks,
/// and each of them has its own words.
pub proof fn lemma_run_claim_is_broken(evidence: AcpClusterEvidence)
    ensures
        first_broken(run_rules(evidence)) == Some(
            "three relays"@,
        ) ==> !(evidence.relay_count == 3),
        first_broken(run_rules(evidence)) == Some(
            "the device is owned by relay-a and the consumer entered at relay-c"@,
        ) ==> !(evidence.non_owner_ingress && evidence.owner_node@ == "relay-a"@ && evidence.ingress_node@ == "relay-c"@),
        first_broken(run_rules(evidence)) == Some(
            "every case executed"@,
        ) ==> !(views(evidence.cases_executed@) == str_views(CLUSTER_CASES@)),
        first_broken(run_rules(evidence)) == Some(
            "the limits of the claim are recorded, and the rotation disclosure states this run's own span"@,
        ) ==> !(discloses_span(views(evidence.not_covered@), evidence.rotations_across_span, evidence.rotation_span_ms)),
        first_broken(run_rules(evidence)) matches Some(claim) ==> {
            ||| claim == "three relays"@
            ||| claim == "the device is owned by relay-a and the consumer entered at relay-c"@
            ||| claim == "every case executed"@
            ||| claim == "the limits of the claim are recorded, and the rotation disclosure states this run's own span"@
        },
{
    let rules = run_rules(evidence);
    lemma_first_broken(rules);
    reveal_strlit("three relays");
    reveal_strlit("the device is owned by relay-a and the consumer entered at relay-c");
    reveal_strlit("every case executed");
    reveal_strlit(
        "the limits of the claim are recorded, and the rotation disclosure states this run's own span",
    );
    assert(rules.len() == 4);
    assert(rules[0].0.len() == 12);
    assert(rules[1].0.len() == 66);
    assert(rules[2].0.len() == 19);
    assert(rules[3].0.len() == 92);
}

/// The claim that the rules of the rotation span name is one that the evidence breaks,
/// and each of them has its own words.
pub proof fn lemma_span_claim_is_broken(evidence: AcpClusterEvidence)
    ensures
        first_broken(span_rules(evidence)) == Some(
            "at least three scheduled rotations completed while the sessions were live"@,
        ) ==> !(evidence.rotations_across_span >= 3),
        first_broken(span_rules(evidence)) == Some(
            "the owner counted the same rotations independently of the connector"@,
        ) ==> !(evidence.owner_rotations_across_span >= 3),
        first_broken(span_rules(evidence)) == Some(
            "the window was at least as long as the configured rotation schedule"@,
        ) ==> !(evidence.rotation_span_met_schedule),
        first_broken(span_rules(evidence)) == Some(
            "the rotation window finished inside one membership record"@,
        ) ==> !(evidence.rotation_span_ms < 40000),
        first_broken(span_rules(evidence)) == Some(
            "every rotation round moved the device to exactly one new data socket"@,
        ) ==> !(evidence.new_sockets_per_round@.len() == 3 && all_are(evidence.new_sockets_per_round@, 1)),
        first_broken(span_rules(evidence)) == Some(
            "two device sockets at every settled steady state"@,
        ) ==> !(evidence.steady_state_sockets@.len() > 0 && all_are(evidence.steady_state_sockets@, 2)),
        first_broken(span_rules(evidence)) == Some(
            "at most one candidate data socket at a time"@,
        ) ==> !(evidence.device_socket_peak <= 3),
        first_broken(span_rules(evidence)) == Some(
            "the connection GET stayed live across every rotation"@,
        ) ==> !(evidence.connection_stream_alive && evidence.connection_stable),
        first_broken(span_rules(evidence)) == Some(
            "the device session and owner epoch were unchanged, so these were rotations and not a reconnect"@,
        ) ==> !(evidence.device_session_stable && evidence.device_epoch_stable),
        first_broken(span_rules(evidence)) == Some(
            "each held turn recorded its side effect exactly once in the agent's own ledger, and nothing replayed it"@,
        ) ==> !(evidence.side_effects_in_ledger == 2 && evidence.side_effects_after_settle == 2),
        first_broken(span_rules(evidence)) == Some(
            "every case ended inside the membership records' lifetime"@,
        ) ==> !(evidence.max_membership_age_at_case_end_ms < 60000),
        first_broken(span_rules(evidence)) == Some(
            "every not_dispatched refusal coincided with an observed rotation freeze and was bounded"@,
        ) ==> !(evidence.not_dispatched_refusals == evidence.not_dispatched_retries && evidence.unexplained_refusal is None),
        first_broken(span_rules(evidence)) matches Some(claim) ==> {
            ||| claim == "at least three scheduled rotations completed while the sessions were live"@
            ||| claim == "the owner counted the same rotations independently of the connector"@
            ||| claim == "the window was at least as long as the configured rotation schedule"@
            ||| claim == "the rotation window finished inside one membership record"@
            ||| claim == "every rotation round moved the device to exactly one new data socket"@
            ||| claim == "two device sockets at every settled steady state"@
            ||| claim == "at most one candidate data socket at a time"@
            ||| claim == "the connection GET stayed live across every rotation"@
            ||| claim == "the device session and owner epoch were unchanged, so these were rotations and not a reconnect"@
            ||| claim == "each held turn recorded its side effect exactly once in the agent's own ledger, and nothing replayed it"@
            ||| claim == "every case ended inside the membership records' lifetime"@
            ||| claim == "every not_dispatched refusal coincided with an observed rotation freeze and was bounded"@
        },
{
    let rules = span_rules(evidence);
    lemma_first_broken(rules);
    reveal_strlit(
        "at least three scheduled rotations completed while the sessions were live",
    );
    reveal_strlit("the owner counted the same rotations independently of the connector");
    reveal_strlit("the window was at least as long as the configured rotation schedule");
    reveal_strlit("the rotation window finished inside one membership record");
    reveal_strlit("every rotation round moved the device to exactly one new data socket");
    reveal_strlit("two device sockets at every settled steady state");
    reveal_strlit("at most one candidate data socket at a time");
    reveal_strlit("the connection GET stayed live across every rotation");
    reveal_strlit(
        "the device session and owner epoch were unchanged, so these were rotations and not a reconnect",
    );
    reveal_strlit(
        "each held turn recorded its side effect exactly once in the agent's own ledger, and nothing replayed it",
    );
    reveal_strlit("every case ended inside the membership records' lifetime");
    reveal_strlit(
        "every not_dispatched refusal coincided with an observed rotation freeze and was bounded",
    );
    assert("the owner counted the same rotations independently of the connector"@[4] == 'o');
    assert("the window was at least as long as the configured rotation schedule"@[4] == 'w');
    assert(rules.len() == 12);
    assert(rules[0].0.len() == 73);
    assert(rules[1].0.len() == 67);
    assert(rules[2].0.len() == 67);
    assert(rules[3].0.len() == 57);
    assert(rules[4].0.len() == 68);
    assert(rules[5].0.len() == 48);
    assert(rules[6].0.len() == 43);
    assert(rules[7].0.len() == 52);
    assert(rules[8].0.len() == 94);
    assert(rules[9].0.len() == 103);
    assert(rules[10].0.len() == 56);
    assert(rules[11].0.len() == 87);
}

/// The claim that the rules of the peer keys name is one that the evidence breaks,
/// and each of them has its own words.
pub proof fn lemma_keys_claim_is_broken(evidence: AcpClusterEvidence)
    ensures
        first_broken(keys_rules(evidence)) == Some(
            "the staged key overlap reached every relay's verifier before either arm ran"@,
        ) ==> !(evidence.key_overlap_staged),
        first_broken(keys_rules(evidence)) == Some(
            "the withdrawn peer key left the ingress relay's own verifier"@,
        ) ==> !(evidence.key_left_ingress_verifier),
        first_broken(keys_rules(evidence)) == Some(
            "the product attributed the key arm's teardown to the withdrawn key"@,
        ) ==> !(views(evidence.key_rotation_reasons@) == seq!["membership_revoked"@]),
        first_broken(keys_rules(evidence)) == Some(
            "the same-key control arm was attributed to the record version, naming no key"@,
        ) ==> !(views(evidence.version_bump_reasons@) == seq!["membership_changed"@]),
        first_broken(keys_rules(evidence)) == Some(
            "the key arm is still an owner self-revocation, as everything written about it assumes"@,
        ) ==> !(evidence.key_rotation_owner_unready && views(evidence.key_rotation_owner_reasons@).contains("membership_revoked"@)),
        first_broken(keys_rules(evidence)) == Some(
            "the same-key control arm left the owner ready and invalidated nothing from the owner's side"@,
        ) ==> !(!evidence.version_bump_owner_unready && evidence.version_bump_owner_reasons@.len() == 0),
        first_broken(keys_rules(evidence)) matches Some(claim) ==> {
            ||| claim == "the staged key overlap reached every relay's verifier before either arm ran"@
            ||| claim == "the withdrawn peer key left the ingress relay's own verifier"@
            ||| claim == "the product attributed the key arm's teardown to the withdrawn key"@
            ||| claim == "the same-key control arm was attributed to the record version, naming no key"@
            ||| claim == "the key arm is still an owner self-revocation, as everything written about it assumes"@
            ||| claim == "the same-key control arm left the owner ready and invalidated nothing from the owner's side"@
        },
{
    let rules = keys_rules(evidence);
    lemma_first_broken(rules);
    reveal_strlit(
        "the staged key overlap reached every relay's verifier before either arm ran",
    );
    reveal_strlit("the withdrawn peer key left the ingress relay's own verifier");
    reveal_strlit("the product attributed the key arm's teardown to the withdrawn key");
    reveal_strlit(
        "the same-key control arm was attributed to the record version, naming no key",
    );
    reveal_strlit(
        "the key arm is still an owner self-revocation, as everything written about it assumes",
    );
    reveal_strlit(
        "the same-key control arm left the owner ready and invalidated nothing from the owner's side",
    );
    assert(rules.len() == 6);
    assert(rules[0].0.len() == 75);
    assert(rules[1].0.len() == 60);
    assert(rules[2].0.len() == 66);
    assert(rules[3].0.len() == 76);
    assert(rules[4].0.len() == 85);
    assert(rules[5].0.len() == 91);
}

/// The claim that the rules of the two tenants name is one that the evidence breaks,
/// and each of them has its own words.
pub proof fn lemma_tenants_claim_is_broken(evidence: AcpClusterEvidence)
    ensures
        first_broken(tenants_rules(evidence)) == Some(
            "the two principals really did reuse the same JSON-RPC ids, in both types"@,
        ) ==> !(views(evidence.shared_rpc_ids@) == seq!["s:1"@, "n:1"@]),
        first_broken(tenants_rules(evidence)) == Some(
            "a live connection id from one tenant is refused in the other byte-identically to an id that never existed"@,
        ) ==> !(evidence.connection_id_inert_in_other_tenant),
        first_broken(tenants_rules(evidence)) == Some(
            "the two tenants' exports issued the same session identifier"@,
        ) ==> !(evidence.session_ids_collide),
        first_broken(tenants_rules(evidence)) == Some(
            "every reply was routed to the principal that asked, exactly once"@,
        ) ==> !(evidence.replies_routed_per_principal),
        first_broken(tenants_rules(evidence)) == Some(
            "another principal of the same tenant is refused byte-identically to an id that never existed"@,
        ) ==> !(evidence.same_tenant_foreign_matches_unknown),
        first_broken(tenants_rules(evidence)) == Some(
            "a principal of the other tenant is refused byte-identically to an id that never existed"@,
        ) ==> !(evidence.cross_tenant_foreign_matches_unknown),
        first_broken(tenants_rules(evidence)) == Some(
            "those refusals were the profile's not-found, not some other error"@,
        ) ==> !(evidence.foreign_refusal_status == 404),
        first_broken(tenants_rules(evidence)) == Some(
            "the genuine owner was still served afterwards"@,
        ) ==> !(evidence.genuine_request_still_served),
        first_broken(tenants_rules(evidence)) == Some(
            "tenant B's export served exactly its own principal and opened nothing for the probes"@,
        ) ==> !(evidence.tenant_b_sessions_opened == 1),
        first_broken(tenants_rules(evidence)) matches Some(claim) ==> {
            ||| claim == "the two principals really did reuse the same JSON-RPC ids, in both types"@
            ||| claim == "a live connection id from one tenant is refused in the other byte-identically to an id that never existed"@
            ||| claim == "the two tenants' exports issued the same session identifier"@
            ||| claim == "every reply was routed to the principal that asked, exactly once"@
            ||| claim == "another principal of the same tenant is refused byte-identically to an id that never existed"@
            ||| claim == "a principal of the other tenant is refused byte-identically to an id that never existed"@
            ||| claim == "those refusals were the profile's not-found, not some other error"@
            ||| claim == "the genuine owner was still served afterwards"@
            ||| claim == "tenant B's export served exactly its own principal and opened nothing for the probes"@
        },
{
    let rules = tenants_rules(evidence);
    lemma_first_broken(rules);
    reveal_strlit(
        "the two principals really did reuse the same JSON-RPC ids, in both types",
    );
    reveal_strlit(
        "a live connection id from one tenant is refused in the other byte-identically to an id that never existed",
    );
    reveal_strlit("the two tenants' exports issued the same session identifier");
    reveal_strlit("every reply was routed to the principal that asked, exactly once");
    reveal_strlit(
        "another principal of the same tenant is refused byte-identically to an id that never existed",
    );
    reveal_strlit(
        "a principal of the other tenant is refused byte-identically to an id that never existed",
    );
    reveal_strlit("those refusals were the profile's not-found, not some other error");
    reveal_strlit("the genuine owner was still served afterwards");
    reveal_strlit(
        "tenant B's export served exactly its own principal and opened nothing for the probes",
    );
    assert(rules.len() == 9);
    assert(rules[0].0.len() == 72);
    assert(rules[1].0.len() == 105);
    assert(rules[2].0.len() == 59);
    assert(rules[3].0.len() == 64);
    assert(rules[4].0.len() == 92);
    assert(rules[5].0.len() == 87);
    assert(rules[6].0.len() == 65);
    assert(rules[7].0.len() == 45);
    assert(rules[8].0.len() == 84);
}

/// The claim that the rules of the forged heads name is one that the evidence breaks,
/// and each of them has its own words.
pub proof fn lemma_forgery_claim_is_broken(evidence: AcpClusterEvidence)
    ensures
        first_broken(forgery_rules(evidence)) == Some(
            "every forged head was refused before dispatch"@,
        ) ==> !(evidence.forgery_attempts == 3 && evidence.forgeries_refused == 3),
        first_broken(forgery_rules(evidence)) == Some(
            "not one forged head reached the device"@,
        ) ==> !(evidence.forgery_dispatched == 0),
        first_broken(forgery_rules(evidence)) == Some(
            "the ingress counted each forgery as a rejection before admission"@,
        ) ==> !(evidence.forgery_ingress_rejections >= evidence.forgery_attempts),
        first_broken(forgery_rules(evidence)) matches Some(claim) ==> {
            ||| claim == "every forged head was refused before dispatch"@
            ||| claim == "not one forged head reached the device"@
            ||| claim == "the ingress counted each forgery as a rejection before admission"@
        },
{
    let rules = forgery_rules(evidence);
    lemma_first_broken(rules);
    reveal_strlit("every forged head was refused before dispatch");
    reveal_strlit("not one forged head reached the device");
    reveal_strlit("the ingress counted each forgery as a rejection before admission");
    assert(rules.len() == 3);
    assert(rules[0].0.len() == 45);
    assert(rules[1].0.len() == 38);
    assert(rules[2].0.len() == 64);
}

/// The claim that the rules of the revocation name is one that the evidence breaks,
/// and each of them has its own words.
pub proof fn lemma_revocation_claim_is_broken(evidence: AcpClusterEvidence)
    ensures
        first_broken(revocation_rules(evidence)) == Some(
            "revocation withdrew the admitted exchange"@,
        ) ==> !(evidence.revocation_in_flight_withdrawn),
        first_broken(revocation_rules(evidence)) == Some(
            "the withdrawal included an exchange the relay itself classified execution: unknown"@,
        ) ==> !(split_on(evidence.revocation_in_flight_execution@, '+').contains("unknown"@)),
        first_broken(revocation_rules(evidence)) == Some(
            "admission was actually attempted after revocation"@,
        ) ==> !(evidence.revocation_dispatch_attempts >= 2),
        first_broken(revocation_rules(evidence)) == Some(
            "nothing was dispatched to the device after revocation"@,
        ) ==> !(evidence.revocation_dispatched_after == 0),
        first_broken(revocation_rules(evidence)) == Some(
            "the request after revocation met the revocation's own typed refusal"@,
        ) ==> !(evidence.revocation_after_status == 404 && evidence.revocation_after_code@ == "SERVICE_NOT_FOUND"@ && evidence.revocation_after_execution@ == "not_dispatched"@),
        first_broken(revocation_rules(evidence)) == Some(
            "a prompt on the revoked principal's own session was refused too, with the same status"@,
        ) ==> !(evidence.revocation_after_prompt_status == 404),
        first_broken(revocation_rules(evidence)) == Some(
            "the withdrawn turn never acquired a stop reason"@,
        ) ==> !(evidence.revocation_no_stop_reason),
        first_broken(revocation_rules(evidence)) matches Some(claim) ==> {
            ||| claim == "revocation withdrew the admitted exchange"@
            ||| claim == "the withdrawal included an exchange the relay itself classified execution: unknown"@
            ||| claim == "admission was actually attempted after revocation"@
            ||| claim == "nothing was dispatched to the device after revocation"@
            ||| claim == "the request after revocation met the revocation's own typed refusal"@
            ||| claim == "a prompt on the revoked principal's own session was refused too, with the same status"@
            ||| claim == "the withdrawn turn never acquired a stop reason"@
        },
{
    let rules = revocation_rules(evidence);
    lemma_first_broken(rules);
    reveal_strlit("revocation withdrew the admitted exchange");
    reveal_strlit(
        "the withdrawal included an exchange the relay itself classified execution: unknown",
    );
    reveal_strlit("admission was actually attempted after revocation");
    reveal_strlit("nothing was dispatched to the device after revocation");
    reveal_strlit("the request after revocation met the revocation's own typed refusal");
    reveal_strlit(
        "a prompt on the revoked principal's own session was refused too, with the same status",
    );
    reveal_strlit("the withdrawn turn never acquired a stop reason");
    assert(rules.len() == 7);
    assert(rules[0].0.len() == 41);
    assert(rules[1].0.len() == 82);
    assert(rules[2].0.len() == 49);
    assert(rules[3].0.len() == 53);
    assert(rules[4].0.len() == 67);
    assert(rules[5].0.len() == 85);
    assert(rules[6].0.len() == 47);
}

/// The claim that the rules of the saturated hop name is one that the evidence breaks,
/// and each of them has its own words.
pub proof fn lemma_saturation_claim_is_broken(evidence: AcpClusterEvidence)
    ensures
        first_broken(saturation_rules(evidence)) == Some(
            "the request direction of the ingress-to-owner peer hop reached the enforced saturation threshold of its credit window"@,
        ) ==> !(evidence.ingress_request_direction_saturated),
        first_broken(saturation_rules(evidence)) == Some(
            "both directions of the ingress-to-owner peer hop were never saturated at one instant, which is the measured and disclosed reading"@,
        ) ==> !(!evidence.peer_hop_both_directions_saturated),
        first_broken(saturation_rules(evidence)) == Some(
            "the owner-to-device segment carried measured load"@,
        ) ==> !(evidence.owner_device_queue_limit > 0 && evidence.owner_device_queue_high_water > 0),
        first_broken(saturation_rules(evidence)) == Some(
            "both directions of the owner-to-device segment carried bytes at one coherent instant"@,
        ) ==> !(evidence.owner_device_request_bytes_at_instant > 0 && evidence.owner_device_response_bytes_at_instant > 0),
        first_broken(saturation_rules(evidence)) == Some(
            "the segment was sampled while the upload was still in flight"@,
        ) ==> !(evidence.owner_device_loaded_samples >= 64),
        first_broken(saturation_rules(evidence)) == Some(
            "the peer hop's live pair was sampled while the upload was in flight"@,
        ) ==> !(evidence.peer_hop_live_samples >= 32),
        first_broken(saturation_rules(evidence)) == Some(
            "the saturating upload completed, read off the wire"@,
        ) ==> !(evidence.saturating_upload_stop_reason@ == "end_turn"@),
        first_broken(saturation_rules(evidence)) == Some(
            "a live SSE stream still completed a turn while a stream was parked and stalling"@,
        ) ==> !(evidence.live_stream_served_while_parked && evidence.live_probe_status == 202),
        first_broken(saturation_rules(evidence)) matches Some(claim) ==> {
            ||| claim == "the request direction of the ingress-to-owner peer hop reached the enforced saturation threshold of its credit window"@
            ||| claim == "both directions of the ingress-to-owner peer hop were never saturated at one instant, which is the measured and disclosed reading"@
            ||| claim == "the owner-to-device segment carried measured load"@
            ||| claim == "both directions of the owner-to-device segment carried bytes at one coherent instant"@
            ||| claim == "the segment was sampled while the upload was still in flight"@
            ||| claim == "the peer hop's live pair was sampled while the upload was in flight"@
            ||| claim == "the saturating upload completed, read off the wire"@
            ||| claim == "a live SSE stream still completed a turn while a stream was parked and stalling"@
        },
{
    let rules = saturation_rules(evidence);
    lemma_first_broken(rules);
    reveal_strlit(
        "the request direction of the ingress-to-owner peer hop reached the enforced saturation threshold of its credit window",
    );
    reveal_strlit(
        "both directions of the ingress-to-owner peer hop were never saturated at one instant, which is the measured and disclosed reading",
    );
    reveal_strlit("the owner-to-device segment carried measured load");
    reveal_strlit(
        "both directions of the owner-to-device segment carried bytes at one coherent instant",
    );
    reveal_strlit("the segment was sampled while the upload was still in flight");
    reveal_strlit("the peer hop's live pair was sampled while the upload was in flight");
    reveal_strlit("the saturating upload completed, read off the wire");
    reveal_strlit(
        "a live SSE stream still completed a turn while a stream was parked and stalling",
    );
    assert(rules.len() == 8);
    assert(rules[0].0.len() == 117);
    assert(rules[1].0.len() == 129);
    assert(rules[2].0.len() == 49);
    assert(rules[3].0.len() == 84);
    assert(rules[4].0.len() == 60);
    assert(rules[5].0.len() == 67);
    assert(rules[6].0.len() == 50);
    assert(rules[7].0.len() == 79);
}

/// The claim that the rules of the interruptions name is one that the evidence breaks,
/// and each of them has its own words.
pub proof fn lemma_interruptions_claim_is_broken(evidence: AcpClusterEvidence)
    ensures
        first_broken(interruptions_rules(evidence)) == Some(
            "peer-path loss did not produce an explicit interruption"@,
        ) ==> !(evidence.path_loss_interrupted),
        first_broken(interruptions_rules(evidence)) == Some(
            "peer-path loss produced a stopReason for a turn that never finished, which is a fabricated terminal"@,
        ) ==> !(evidence.path_loss_no_stop_reason),
        first_broken(interruptions_rules(evidence)) == Some(
            "peer-key rotation did not produce an explicit interruption"@,
        ) ==> !(evidence.key_rotation_interrupted),
        first_broken(interruptions_rules(evidence)) == Some(
            "peer-key rotation produced a stopReason for a turn that never finished, which is a fabricated terminal"@,
        ) ==> !(evidence.key_rotation_no_stop_reason),
        first_broken(interruptions_rules(evidence)) == Some(
            "owner loss did not produce an explicit interruption"@,
        ) ==> !(evidence.owner_loss_interrupted),
        first_broken(interruptions_rules(evidence)) == Some(
            "owner loss produced a stopReason for a turn that never finished, which is a fabricated terminal"@,
        ) ==> !(evidence.owner_loss_no_stop_reason),
        first_broken(interruptions_rules(evidence)) matches Some(claim) ==> {
            ||| claim == "peer-path loss did not produce an explicit interruption"@
            ||| claim == "peer-path loss produced a stopReason for a turn that never finished, which is a fabricated terminal"@
            ||| claim == "peer-key rotation did not produce an explicit interruption"@
            ||| claim == "peer-key rotation produced a stopReason for a turn that never finished, which is a fabricated terminal"@
            ||| claim == "owner loss did not produce an explicit interruption"@
            ||| claim == "owner loss produced a stopReason for a turn that never finished, which is a fabricated terminal"@
        },
{
    let rules = interruptions_rules(evidence);
    lemma_first_broken(rules);
    reveal_strlit("peer-path loss did not produce an explicit interruption");
    reveal_strlit(
        "peer-path loss produced a stopReason for a turn that never finished, which is a fabricated terminal",
    );
    reveal_strlit("peer-key rotation did not produce an explicit interruption");
    reveal_strlit(
        "peer-key rotation produced a stopReason for a turn that never finished, which is a fabricated terminal",
    );
    reveal_strlit("owner loss did not produce an explicit interruption");
    reveal_strlit(
        "owner loss produced a stopReason for a turn that never finished, which is a fabricated terminal",
    );
    assert(rules.len() == 6);
    assert(rules[0].0.len() == 55);
    assert(rules[1].0.len() == 99);
    assert(rules[2].0.len() == 58);
    assert(rules[3].0.len() == 102);
    assert(rules[4].0.len() == 51);
    assert(rules[5].0.len() == 95);
}

/// A run is named for the first of its sections that it breaks, in this order.
pub proof fn lemma_sections_in_order(evidence: AcpClusterEvidence)
    ensures
        first_broken(run_rules(evidence)) is Some ==> cluster_failure(evidence)
            == first_broken(run_rules(evidence)),
        first_broken(run_rules(evidence)) is None
            && first_broken(span_rules(evidence)) is Some ==> cluster_failure(evidence)
            == first_broken(span_rules(evidence)),
        first_broken(run_rules(evidence)) is None
            && first_broken(span_rules(evidence)) is None
            && first_broken(keys_rules(evidence)) is Some ==> cluster_failure(evidence)
            == first_broken(keys_rules(evidence)),
        first_broken(run_rules(evidence)) is None
            && first_broken(span_rules(evidence)) is None
            && first_broken(keys_rules(evidence)) is None
            && first_broken(tenants_rules(evidence)) is Some ==> cluster_failure(evidence)
            == first_broken(tenants_rules(evidence)),
        first_broken(run_rules(evidence)) is None
            && first_broken(span_rules(evidence)) is None
            && first_broken(keys_rules(evidence)) is None
            && first_broken(tenants_rules(evidence)) is None
            && first_broken(forgery_rules(evidence)) is Some ==> cluster_failure(evidence)
            == first_broken(forgery_rules(evidence)),
        first_broken(run_rules(evidence)) is None
            && first_broken(span_rules(evidence)) is None
            && first_broken(keys_rules(evidence)) is None
            && first_broken(tenants_rules(evidence)) is None
            && first_broken(forgery_rules(evidence)) is None
            && first_broken(revocation_rules(evidence)) is Some ==> cluster_failure(evidence)
            == first_broken(revocation_rules(evidence)),
        first_broken(run_rules(evidence)) is None
            && first_broken(span_rules(evidence)) is None
            && first_broken(keys_rules(evidence)) is None
            && first_broken(tenants_rules(evidence)) is None
            && first_broken(forgery_rules(evidence)) is None
            && first_broken(revocation_rules(evidence)) is None
            && first_broken(saturation_rules(evidence)) is Some ==> cluster_failure(evidence)
            == first_broken(saturation_rules(evidence)),
        first_broken(run_rules(evidence)) is None
            && first_broken(span_rules(evidence)) is None
            && first_broken(keys_rules(evidence)) is None
            && first_broken(tenants_rules(evidence)) is None
            && first_broken(forgery_rules(evidence)) is None
            && first_broken(revocation_rules(evidence)) is None
            && first_broken(saturation_rules(evidence)) is None
            && first_broken(interruptions_rules(evidence)) is Some ==> cluster_failure(evidence)
            == first_broken(interruptions_rules(evidence)),
{
    assert(chained(cluster_steps(evidence), 0) =~= Seq::empty());
    lemma_section(evidence, 0);
    if first_broken(run_rules(evidence)) is None {
        lemma_section(evidence, 1);
        if first_broken(span_rules(evidence)) is None {
            lemma_section(evidence, 2);
            if first_broken(keys_rules(evidence)) is None {
                lemma_section(evidence, 3);
                if first_broken(tenants_rules(evidence)) is None {
                    lemma_section(evidence, 4);
                    if first_broken(forgery_rules(evidence)) is None {
                        lemma_section(evidence, 5);
                        if first_broken(revocation_rules(evidence)) is None {
                            lemma_section(evidence, 6);
                            if first_broken(saturation_rules(evidence)) is None {
                                lemma_section(evidence, 7);
                            }
                        }
                    }
                }
            }
        }
    }
}

} // verus!
