//! The decisions of the genuine peer-key rotation: the owner relay stages a
//! successor, serves it once every verifier approves it, and retires the
//! predecessor when it is withdrawn, and stays ready throughout.

use vstd::prelude::*;
use vstd::string::*;
use vstd::utf8::*;

use crate::c10::{label_debug, label_view, write_label};
use crate::error::{ErrorView, HarnessError};
use crate::gate_steps::{turn_served, Interruption};
use crate::text::same_text;

verus! {

/// Where a relay stands in a rotation of its own key.
#[derive(Clone, Copy, Debug, Eq, PartialEq, Structural)]
pub enum RekeyPhase {
    Stable,
    Staged,
    Overlap,
}

/// Why a relay retired its predecessor.
#[derive(Clone, Copy, Debug, Eq, PartialEq, Structural)]
pub enum Retirement {
    Withdrawn,
    Other,
}

/// A relay's rotation at one instant.
pub struct RekeySnapshot {
    pub phase: RekeyPhase,
    pub serving_spki: String,
    pub staged_approval: Option<&'static str>,
    pub last_retirement: Option<Retirement>,
}

/// The length of a digest, in bytes.
pub const DIGEST_BYTES: usize = 32;

/// The value of a hexadecimal digit.
pub open spec fn digit_value(byte: u8) -> Option<u8> {
    if 0x30 <= byte <= 0x39 {
        Some((byte - 0x30) as u8)
    } else if 0x61 <= byte <= 0x66 {
        Some((byte - 0x61 + 10) as u8)
    } else if 0x41 <= byte <= 0x46 {
        Some((byte - 0x41 + 10) as u8)
    } else {
        None
    }
}

/// The value of two characters read as one hexadecimal number: two digits, or
/// a plus sign and one digit.
pub open spec fn pair_value(high: u8, low: u8) -> Option<u8> {
    match digit_value(low) {
        Some(ones) => if high == 0x2b {
            Some(ones)
        } else {
            match digit_value(high) {
                Some(sixteens) => Some((sixteens * 16 + ones) as u8),
                None => None,
            }
        },
        None => None,
    }
}

/// The value of pair `i` of a text's bytes.
pub open spec fn pair_at(bytes: Seq<u8>, i: int) -> Option<u8> {
    pair_value(bytes[2 * i], bytes[2 * i + 1])
}

/// All of the first `count` pairs are numbers.
pub open spec fn pairs_read(bytes: Seq<u8>, count: int) -> bool {
    forall|i: int| 0 <= i < count ==> (#[trigger] pair_at(bytes, i)) is Some
}

/// The first pair that is no number ends inside a character.
pub open spec fn splits_character(bytes: Seq<u8>) -> bool {
    bytes.len() == 2 * DIGEST_BYTES && exists|i: int|
        0 <= i < DIGEST_BYTES - 1 && pairs_read(bytes, i) && (#[trigger] pair_at(bytes, i)) is None
            && 0x80 <= bytes[2 * i + 2] <= 0xbf
}

fn read_digit(byte: u8) -> (value: Option<u8>)
    ensures
        value == digit_value(byte),
{
    if 0x30 <= byte && byte <= 0x39 {
        Some(byte - 0x30)
    } else if 0x61 <= byte && byte <= 0x66 {
        Some(byte - 0x61 + 10)
    } else if 0x41 <= byte && byte <= 0x46 {
        Some(byte - 0x41 + 10)
    } else {
        None
    }
}

fn read_pair(high: u8, low: u8) -> (value: Option<u8>)
    ensures
        value == pair_value(high, low),
{
    match read_digit(low) {
        Some(ones) => {
            if high == 0x2b {
                Some(ones)
            } else {
                match read_digit(high) {
                    Some(sixteens) => Some(sixteens * 16 + ones),
                    None => None,
                }
            }
        },
        None => None,
    }
}

/// The digest that a text of hexadecimal digits names.
pub fn spki_from_hex(hex: &str) -> (result: Result<Vec<u8>, HarnessError>)
    requires
        !splits_character(encode_utf8(hex@)),
    ensures
        ({
            let bytes = encode_utf8(hex@);
            match result {
                Ok(digest) => bytes.len() == 2 * DIGEST_BYTES && digest@.len() == DIGEST_BYTES
                    && forall|i: int|
                    0 <= i < DIGEST_BYTES ==> (#[trigger] pair_at(bytes, i)) == Some(digest@[i]),
                Err(error) => if bytes.len() != 2 * DIGEST_BYTES {
                    error@ == ErrorView::InvalidInput("an SPKI digest is 64 hex digits"@)
                } else {
                    !pairs_read(bytes, DIGEST_BYTES as int) && error@ == ErrorView::InvalidInput(
                        "an SPKI digest is hex"@,
                    )
                },
            }
        }),
{
    let bytes = hex.as_bytes();
    if bytes.len() != 2 * DIGEST_BYTES {
        return Err(HarnessError::invalid_input("an SPKI digest is 64 hex digits"));
    }
    let mut digest: Vec<u8> = Vec::new();
    let mut i: usize = 0;
    while i < DIGEST_BYTES
        invariant
            i <= DIGEST_BYTES,
            bytes@ == encode_utf8(hex@),
            bytes@.len() == 2 * DIGEST_BYTES,
            digest@.len() == i,
            forall|k: int| 0 <= k < i ==> (#[trigger] pair_at(bytes@, k)) == Some(digest@[k]),
        decreases DIGEST_BYTES - i,
    {
        match read_pair(bytes[2 * i], bytes[2 * i + 1]) {
            Some(value) => digest.push(value),
            None => {
                assert(pair_at(bytes@, i as int) is None);
                return Err(HarnessError::invalid_input("an SPKI digest is hex"));
            },
        }
        assert(pair_at(bytes@, i as int) == Some(digest@[i as int]));
        i += 1;
    }
    Ok(digest)
}

/// The lower-case hexadecimal digit of a value.
pub open spec fn lower_digit(value: int) -> u8 {
    if value < 10 {
        (0x30 + value) as u8
    } else {
        (0x61 + value - 10) as u8
    }
}

/// A digest as lower-case hexadecimal digits.
pub open spec fn hex_of(digest: Seq<u8>) -> Seq<u8> {
    Seq::new(
        2 * digest.len(),
        |i: int|
            if i % 2 == 0 {
                lower_digit(digest[i / 2] as int / 16)
            } else {
                lower_digit(digest[i / 2] as int % 16)
            },
    )
}

/// A digest written as hexadecimal digits reads back as itself.
pub proof fn lemma_digest_reads_back(digest: Seq<u8>)
    requires
        digest.len() == DIGEST_BYTES,
    ensures
        hex_of(digest).len() == 2 * DIGEST_BYTES,
        !splits_character(hex_of(digest)),
        forall|i: int|
            0 <= i < DIGEST_BYTES ==> (#[trigger] pair_at(hex_of(digest), i)) == Some(digest[i]),
{
    assert forall|i: int| 0 <= i < DIGEST_BYTES implies (#[trigger] pair_at(hex_of(digest), i))
        == Some(digest[i]) by {
        let byte = digest[i] as int;
        assert((2 * i) / 2 == i && (2 * i + 1) / 2 == i);
        assert((2 * i) % 2 == 0 && (2 * i + 1) % 2 == 1);
        assert(byte == (byte / 16) * 16 + byte % 16);
        assert(0 <= byte / 16 < 16 && 0 <= byte % 16 < 16);
        assert(hex_of(digest)[2 * i] == lower_digit(byte / 16));
        assert(hex_of(digest)[2 * i + 1] == lower_digit(byte % 16));
    }
}

/// Whether a staged successor is held and not yet served: no record approves
/// it.
pub fn staged_not_served(staged: &str, now: &RekeySnapshot, old_spki: &str, new_spki: &str) -> (held:
    bool)
    ensures
        held == (staged@ == new_spki@ && now.phase == RekeyPhase::Staged && now.serving_spki@
            == old_spki@ && label_view(now.staged_approval) == Some("absent"@)),
{
    let absent = match now.staged_approval {
        Some(label) => same_text(label, "absent"),
        None => false,
    };
    same_text(staged, new_spki) && now.phase == RekeyPhase::Staged && same_text(
        now.serving_spki.as_str(),
        old_spki,
    ) && absent
}

/// Whether the overlap reached every verifier.
pub fn check_genuine_overlap(converged: bool) -> (result: Result<(), HarnessError>)
    ensures
        match result {
            Ok(()) => converged,
            Err(error) => !converged && error@ == ErrorView::Timeout(
                "the genuine rotation's overlap did not reach every verifier within 20s"@,
            ),
        },
{
    if !converged {
        return Err(
            HarnessError::timeout(
                "the genuine rotation's overlap did not reach every verifier within 20s",
            ),
        );
    }
    Ok(())
}

/// Whether the predecessor's withdrawal reached every verifier.
pub fn check_genuine_withdrawal(converged: bool) -> (result: Result<(), HarnessError>)
    ensures
        match result {
            Ok(()) => converged,
            Err(error) => !converged && error@ == ErrorView::Timeout(
                "the predecessor's withdrawal did not reach every verifier"@,
            ),
        },
{
    if !converged {
        return Err(
            HarnessError::timeout("the predecessor's withdrawal did not reach every verifier"),
        );
    }
    Ok(())
}

/// The relay serves the successor beside its draining predecessor.
pub open spec fn has_switched(now: RekeySnapshot, new_spki: Seq<char>) -> bool {
    now.phase == RekeyPhase::Overlap && now.serving_spki@ == new_spki
}

/// What to do after one look at the owner's switch.
pub enum SwitchStep {
    Switched,
    Again,
    TimedOut(HarnessError),
}

/// Decides on one look at the owner's switch.  The phase and the last refusal
/// come in print.
pub fn judge_switch(
    now: &RekeySnapshot,
    new_spki: &str,
    past_deadline: bool,
    phase: &str,
    refusal: &str,
) -> (step: SwitchStep)
    ensures
        match step {
            SwitchStep::Switched => has_switched(*now, new_spki@),
            SwitchStep::Again => !has_switched(*now, new_spki@) && !past_deadline,
            SwitchStep::TimedOut(error) => !has_switched(*now, new_spki@) && past_deadline && error@
                == ErrorView::Timeout(
                "the owner did not switch to the approved successor within 20s (phase "@ + phase@
                    + ", approval "@ + label_debug(label_view(now.staged_approval)) + ", refusal "@
                    + refusal@ + ")"@,
            ),
        },
{
    if now.phase == RekeyPhase::Overlap && same_text(now.serving_spki.as_str(), new_spki) {
        return SwitchStep::Switched;
    }
    if past_deadline {
        let approval = write_label(now.staged_approval);
        return SwitchStep::TimedOut(
            HarnessError::Timeout(
                "the owner did not switch to the approved successor within 20s (phase ".to_owned().concat(
                phase).concat(", approval ").concat(approval.as_str()).concat(", refusal ").concat(
                    refusal,
                ).concat(")"),
            ),
        );
    }
    SwitchStep::Again
}

/// Whether fresh handshakes present the successor and not the predecessor.  A
/// probe that failed counts against either claim.
pub fn presented(successor: Option<bool>, predecessor: Option<bool>) -> (claims: (bool, bool))
    ensures
        claims.0 == (successor == Some(true)),
        claims.1 == (predecessor == Some(false)),
{
    let successor_presented = match successor {
        Some(answer) => answer,
        None => false,
    };
    let predecessor_presented = match predecessor {
        Some(answer) => answer,
        None => true,
    };
    (successor_presented, !predecessor_presented)
}

/// The relay is stable on the successor, having retired its predecessor
/// because it was withdrawn.
pub open spec fn has_retired(after: RekeySnapshot, new_spki: Seq<char>) -> bool {
    after.phase == RekeyPhase::Stable && after.last_retirement == Some(Retirement::Withdrawn)
        && after.serving_spki@ == new_spki
}

/// Whether the owner retired its predecessor because it was withdrawn, and
/// serves the successor.
pub fn retired_by_withdrawal(after: &RekeySnapshot, new_spki: &str) -> (retired: bool)
    ensures
        retired == has_retired(*after, new_spki@),
{
    let withdrawn = match after.last_retirement {
        Some(retirement) => retirement == Retirement::Withdrawn,
        None => false,
    };
    after.phase == RekeyPhase::Stable && withdrawn && same_text(
        after.serving_spki.as_str(),
        new_spki,
    )
}

/// A node as the membership re-signer pins it.
pub struct PinnedNode {
    pub node_id: String,
    pub peer_spki_sha256: String,
}

/// Pins the successor for every entry of the node, and says whether there was
/// one.
pub fn adopt_successor(nodes: &mut Vec<PinnedNode>, node: &str, spki: &str) -> (adopted: bool)
    ensures
        final(nodes)@.len() == old(nodes)@.len(),
        forall|i: int|
            #![trigger final(nodes)@[i]]
            0 <= i < old(nodes)@.len() ==> final(nodes)@[i].node_id == old(nodes)@[i].node_id
                && final(nodes)@[i].peer_spki_sha256@ == if old(nodes)@[i].node_id@ == node@ {
                spki@
            } else {
                old(nodes)@[i].peer_spki_sha256@
            },
        adopted == exists|i: int|
            0 <= i < old(nodes)@.len() && (#[trigger] old(nodes)@[i]).node_id@ == node@,
{
    let ghost first = nodes@;
    let mut adopted = false;
    let mut i: usize = 0;
    while i < nodes.len()
        invariant
            i <= nodes@.len(),
            nodes@.len() == first.len(),
            first == old(nodes)@,
            forall|k: int| i <= k < first.len() ==> (#[trigger] nodes@[k]) == first[k],
            forall|k: int|
                #![trigger nodes@[k]]
                0 <= k < i ==> nodes@[k].node_id == first[k].node_id
                    && nodes@[k].peer_spki_sha256@ == if first[k].node_id@ == node@ {
                    spki@
                } else {
                    first[k].peer_spki_sha256@
                },
            adopted == exists|k: int| 0 <= k < i && (#[trigger] first[k]).node_id@ == node@,
        decreases nodes@.len() - i,
    {
        assert(nodes@[i as int] == first[i as int]);
        if same_text(nodes[i].node_id.as_str(), node) {
            let mut entry = nodes.remove(i);
            entry.peer_spki_sha256 = spki.to_owned();
            nodes.insert(i, entry);
            adopted = true;
        }
        i += 1;
    }
    adopted
}

/// Whether the cluster serves on the successor alone after its records were
/// signed again.
pub fn resigned_on_successor(
    adopted: bool,
    pinned: &str,
    serving: &str,
    owner_ready: bool,
    successor: &str,
) -> (resigned: bool)
    ensures
        resigned == (adopted && pinned@ == successor@ && serving@ == successor@ && owner_ready),
{
    adopted && same_text(pinned, successor) && same_text(serving, successor) && owner_ready
}

/// The chain that a staged successor presents: its certificate and then the
/// peer authority's, where the node has one.
pub fn successor_chain(certificate: &str, authority: Option<&str>) -> (chain: String)
    ensures
        chain@ == certificate@ + match authority {
            Some(pem) => pem@,
            None => Seq::empty(),
        },
{
    match authority {
        Some(pem) => certificate.to_owned().concat(pem),
        None => {
            assert(certificate@ + Seq::<char>::empty() =~= certificate@);
            certificate.to_owned()
        },
    }
}

/// What a genuine rotation showed.
pub struct GenuineRekeyEvidence {
    /// The successor was held and not served while no record approved it.
    pub staged_not_served: bool,
    /// The overlap reached every verifier.
    pub overlap_staged: bool,
    /// The owner switched to the successor.
    pub switched: bool,
    pub switch_after_overlap_ms: u128,
    pub switch_after_streams_ms: u128,
    /// The held conversation was still served after the switch.
    pub switch_left_acp_serving: bool,
    /// The flooded forwarded stream was still served after the switch.
    pub switch_left_forward_serving: bool,
    pub successor_presented: bool,
    pub predecessor_not_presented: bool,
    /// The withdrawal failed the held stream.
    pub interrupted: bool,
    /// The held turn never acquired a result.
    pub no_stop_reason: bool,
    pub retired_by_withdrawal: bool,
    /// Why the ingress gave up its admission of the owner.
    pub ingress_reasons: Vec<String>,
    /// Why the owner gave up its admission of the ingress.
    pub owner_reasons: Vec<String>,
    /// A whole turn was served across the rotated route.
    pub post_rotation_turn: bool,
    /// The owner was seen unready.
    pub owner_unready: bool,
    /// The cluster serves on the successor after its records were signed again.
    pub resigned_on_successor: bool,
}

impl GenuineRekeyEvidence {
    /// Nothing shown yet.
    pub fn new() -> (evidence: Self)
        ensures
            !evidence.staged_not_served,
            !evidence.overlap_staged,
            !evidence.switched,
            evidence.switch_after_overlap_ms == 0,
            evidence.switch_after_streams_ms == 0,
            !evidence.switch_left_acp_serving,
            !evidence.switch_left_forward_serving,
            !evidence.successor_presented,
            !evidence.predecessor_not_presented,
            !evidence.interrupted,
            !evidence.no_stop_reason,
            !evidence.retired_by_withdrawal,
            evidence.ingress_reasons@.len() == 0,
            evidence.owner_reasons@.len() == 0,
            !evidence.post_rotation_turn,
            !evidence.owner_unready,
            !evidence.resigned_on_successor,
    {
        GenuineRekeyEvidence {
            staged_not_served: false,
            overlap_staged: false,
            switched: false,
            switch_after_overlap_ms: 0,
            switch_after_streams_ms: 0,
            switch_left_acp_serving: false,
            switch_left_forward_serving: false,
            successor_presented: false,
            predecessor_not_presented: false,
            interrupted: false,
            no_stop_reason: false,
            retired_by_withdrawal: false,
            ingress_reasons: Vec::new(),
            owner_reasons: Vec::new(),
            post_rotation_turn: false,
            owner_unready: false,
            resigned_on_successor: false,
        }
    }

    /// Records the staging and the overlap.  An overlap that did not reach
    /// every verifier ends the case.
    pub fn staged(&mut self, not_served: bool, converged: bool) -> (result: Result<
        (),
        HarnessError,
    >)
        ensures
            *final(self) == (GenuineRekeyEvidence {
                staged_not_served: not_served,
                overlap_staged: converged,
                ..*old(self)
            }),
            match result {
                Ok(()) => converged,
                Err(error) => !converged && error@ == ErrorView::Timeout(
                    "the genuine rotation's overlap did not reach every verifier within 20s"@,
                ),
            },
    {
        self.staged_not_served = not_served;
        self.overlap_staged = converged;
        check_genuine_overlap(converged)
    }

    /// Records the switch, and what the live streams did afterwards.
    pub fn switched(
        &mut self,
        after_overlap_ms: u128,
        after_streams_ms: u128,
        acp_gone: bool,
        forward_carries: bool,
    )
        ensures
            *final(self) == (GenuineRekeyEvidence {
                switched: true,
                switch_after_overlap_ms: after_overlap_ms,
                switch_after_streams_ms: after_streams_ms,
                switch_left_acp_serving: !acp_gone,
                switch_left_forward_serving: forward_carries,
                ..*old(self)
            }),
    {
        self.switched = true;
        self.switch_after_overlap_ms = after_overlap_ms;
        self.switch_after_streams_ms = after_streams_ms;
        self.switch_left_acp_serving = !acp_gone;
        self.switch_left_forward_serving = forward_carries;
    }

    /// Records what fresh handshakes presented.  A probe that failed counts
    /// against either claim.
    pub fn probed(&mut self, successor: Option<bool>, predecessor: Option<bool>)
        ensures
            *final(self) == (GenuineRekeyEvidence {
                successor_presented: successor == Some(true),
                predecessor_not_presented: predecessor == Some(false),
                ..*old(self)
            }),
    {
        let claims = presented(successor, predecessor);
        self.successor_presented = claims.0;
        self.predecessor_not_presented = claims.1;
    }

    /// Records the withdrawal: what it did to the held turn, how the owner
    /// retired the predecessor, and what either end latched.
    pub fn withdrawn(
        &mut self,
        held: Interruption,
        after: &RekeySnapshot,
        new_spki: &str,
        ingress_reasons: Vec<String>,
        owner_reasons: Vec<String>,
    )
        ensures
            *final(self) == (GenuineRekeyEvidence {
                interrupted: held.interrupted,
                no_stop_reason: held.no_stop_reason,
                retired_by_withdrawal: has_retired(*after, new_spki@),
                ingress_reasons: ingress_reasons,
                owner_reasons: owner_reasons,
                ..*old(self)
            }),
    {
        self.interrupted = held.interrupted;
        self.no_stop_reason = held.no_stop_reason;
        self.retired_by_withdrawal = retired_by_withdrawal(after, new_spki);
        self.ingress_reasons = ingress_reasons;
        self.owner_reasons = owner_reasons;
    }

    /// Records the turn across the rotated route, the owner's readiness over
    /// the whole case, and whether the cluster serves on the successor.
    pub fn restored(&mut self, status: u16, stop: Option<&str>, owner_unready: bool, resigned: bool)
        ensures
            *final(self) == (GenuineRekeyEvidence {
                post_rotation_turn: status == 202 && label_view(stop) == Some("end_turn"@),
                owner_unready: owner_unready,
                resigned_on_successor: resigned,
                ..*old(self)
            }),
    {
        self.post_rotation_turn = turn_served(status, stop);
        self.owner_unready = owner_unready;
        self.resigned_on_successor = resigned;
    }
}

/// A hexadecimal digit has its value, a letter whatever its case, and no other
/// byte has one.
pub proof fn lemma_hexadecimal_digits(byte: u8, value: int)
    ensures
        digit_value(byte) is Some <==> (0x30 <= byte <= 0x39 || 0x41 <= byte <= 0x46 || 0x61 <= byte
            <= 0x66),
        digit_value(byte) matches Some(found) ==> found < 16,
        0 <= value < 16 ==> digit_value(lower_digit(value)) == Some(value as u8),
        10 <= value < 16 ==> digit_value((lower_digit(value) - 0x20) as u8) == Some(value as u8),
{
}

/// A rotation is seen through in one order: a snapshot that shows the switch
/// does not show the retirement, and each serves the successor.
pub proof fn lemma_rotation_phases(now: RekeySnapshot, new_spki: Seq<char>)
    ensures
        !(has_switched(now, new_spki) && has_retired(now, new_spki)),
        has_switched(now, new_spki) ==> now.phase == RekeyPhase::Overlap && now.serving_spki@
            == new_spki,
        has_retired(now, new_spki) ==> now.phase == RekeyPhase::Stable && now.serving_spki@
            == new_spki && now.last_retirement == Some(Retirement::Withdrawn),
        now.phase == RekeyPhase::Overlap && now.serving_spki@ == new_spki ==> has_switched(
            now,
            new_spki,
        ),
        now.phase == RekeyPhase::Stable && now.serving_spki@ == new_spki && now.last_retirement
            == Some(Retirement::Withdrawn) ==> has_retired(now, new_spki),
{
}

} // verus!
