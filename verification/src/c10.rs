//! The decisions of the admission and framing gate: counter deltas, the
//! owner-token race, cleanup, and the rules of its evidence.

use vstd::prelude::*;
use vstd::string::*;

use crate::error::{ErrorView, HarnessError};
use crate::std_text::{debug_text, write_debug};
use crate::text::{decimal, decimal_text, join_texts, joined, same_bytes, same_text, views};

verus! {

/// Payload-free evidence from the complete real path.  Every race flag is
/// required by the validator; a partial run cannot be presented as complete.
#[derive(Clone, Debug, Eq, PartialEq)]
pub struct C10ActualPathEvidence {
    pub relay_count: usize,
    pub fresh_control_after_no_live_owner: bool,
    pub fresh_epoch_advanced: bool,
    pub empty_body_single_prefix: bool,
    pub empty_body_owner_read: bool,
    pub empty_body_dispatch_delta: [u64; 3],
    pub empty_unary_body_response_exact: bool,
    pub empty_unary_body_owner_read: bool,
    pub empty_unary_body_dispatch_delta: [u64; 3],
    pub truncated_body_owner_read: bool,
    pub truncated_body_not_dispatched: bool,
    pub raw_bearer_owner_revalidated: bool,
    pub owner_token_changed_before_101: bool,
    pub owner_change_pre_101_rejected: bool,
    pub owner_change_pre_101_not_dispatched: bool,
    pub owner_change_pre_101_body_not_polled: bool,
    pub cleanup_joined: bool,
}

/// Exactly one relay counted, and it counted one.
pub open spec fn is_selected_once(delta: Seq<u64>) -> bool {
    exists|owner: int| 0 <= owner < delta.len() && #[trigger] is_owner_only(delta, owner)
}

/// The relay at `owner` counted one and no other counted anything.
pub open spec fn is_owner_only(delta: Seq<u64>, owner: int) -> bool {
    &&& delta[owner] == 1
    &&& forall|i: int| 0 <= i < delta.len() && i != owner ==> #[trigger] delta[i] == 0
}

fn selected_once(delta: &[u64; 3]) -> (answer: bool)
    ensures
        answer == is_selected_once(delta@),
{
    let answer = (delta[0] == 1 && delta[1] == 0 && delta[2] == 0) || (delta[0] == 0 && delta[1]
        == 1 && delta[2] == 0) || (delta[0] == 0 && delta[1] == 0 && delta[2] == 1);
    proof {
        if answer {
            let owner: int = if delta@[0] == 1 {
                0
            } else if delta@[1] == 1 {
                1
            } else {
                2
            };
            assert(is_owner_only(delta@, owner));
        } else if is_selected_once(delta@) {
            let owner = choose|owner: int|
                0 <= owner < delta@.len() && #[trigger] is_owner_only(delta@, owner);
            assert(delta@[owner] == 1);
            assert(owner != 0 ==> delta@[0] == 0);
            assert(owner != 1 ==> delta@[1] == 0);
            assert(owner != 2 ==> delta@[2] == 0);
        }
    }
    answer
}

/// The evidence carries every required invariant.
pub open spec fn is_complete(evidence: C10ActualPathEvidence) -> bool {
    &&& evidence.relay_count == 3
    &&& evidence.fresh_control_after_no_live_owner
    &&& evidence.fresh_epoch_advanced
    &&& evidence.empty_body_single_prefix
    &&& evidence.empty_body_owner_read
    &&& is_selected_once(evidence.empty_body_dispatch_delta@)
    &&& evidence.empty_unary_body_response_exact
    &&& evidence.empty_unary_body_owner_read
    &&& is_selected_once(evidence.empty_unary_body_dispatch_delta@)
    &&& evidence.truncated_body_owner_read
    &&& evidence.truncated_body_not_dispatched
    &&& evidence.raw_bearer_owner_revalidated
    &&& evidence.owner_token_changed_before_101
    &&& evidence.owner_change_pre_101_rejected
    &&& evidence.owner_change_pre_101_not_dispatched
    &&& evidence.owner_change_pre_101_body_not_polled
    &&& evidence.cleanup_joined
}

/// Holds every rule of this gate.
pub fn validate_c10_actual_path_evidence(evidence: &C10ActualPathEvidence) -> (result: Result<
    (),
    HarnessError,
>)
    ensures
        match result {
            Ok(()) => is_complete(*evidence),
            Err(error) => !is_complete(*evidence) && error@ == ErrorView::Process(
                "C10 admission/framing evidence omitted a required invariant"@,
            ),
        },
{
    if evidence.relay_count != 3 || !evidence.fresh_control_after_no_live_owner
        || !evidence.fresh_epoch_advanced || !evidence.empty_body_single_prefix
        || !evidence.empty_body_owner_read || !selected_once(&evidence.empty_body_dispatch_delta)
        || !evidence.empty_unary_body_response_exact || !evidence.empty_unary_body_owner_read
        || !selected_once(&evidence.empty_unary_body_dispatch_delta)
        || !evidence.truncated_body_owner_read || !evidence.truncated_body_not_dispatched
        || !evidence.raw_bearer_owner_revalidated || !evidence.owner_token_changed_before_101
        || !evidence.owner_change_pre_101_rejected || !evidence.owner_change_pre_101_not_dispatched
        || !evidence.owner_change_pre_101_body_not_polled || !evidence.cleanup_joined {
        return Err(
            HarnessError::process("C10 admission/framing evidence omitted a required invariant"),
        );
    }
    Ok(())
}

/// The relays of the cluster, in the order of their counters.
pub const RELAYS: [&'static str; 3] = ["relay-a", "relay-b", "relay-c"];

/// The position of a relay among the counters.
pub fn relay_index(node_id: &str) -> (result: Result<usize, HarnessError>)
    ensures
        match result {
            Ok(index) => index < 3 && RELAYS@[index as int]@ == node_id@ && forall|k: int|
                0 <= k < index ==> (#[trigger] RELAYS@[k])@ != node_id@,
            Err(error) => error@ == ErrorView::InvalidInput("C10 owner was outside the relay set"@)
                && forall|k: int| 0 <= k < 3 ==> (#[trigger] RELAYS@[k])@ != node_id@,
        },
{
    let relays: [&'static str; 3] = RELAYS;
    let mut index: usize = 0;
    while index < 3
        invariant
            index <= 3,
            relays@ == RELAYS@,
            forall|k: int| 0 <= k < index ==> (#[trigger] RELAYS@[k])@ != node_id@,
        decreases 3 - index,
    {
        if same_text(relays[index], node_id) {
            return Ok(index);
        }
        index += 1;
    }
    Err(HarnessError::invalid_input("C10 owner was outside the relay set"))
}

/// What a counter grew by, and zero where it did not.
pub open spec fn growth(after: u64, before: u64) -> u64 {
    if after > before {
        (after - before) as u64
    } else {
        0
    }
}

/// What each counter grew by.
pub fn subtract(after: [u64; 3], before: [u64; 3]) -> (delta: [u64; 3])
    ensures
        forall|i: int| 0 <= i < 3 ==> #[trigger] delta@[i] == growth(after@[i], before@[i]),
{
    [
        after[0].saturating_sub(before[0]),
        after[1].saturating_sub(before[1]),
        after[2].saturating_sub(before[2]),
    ]
}

/// Counters that only grow have exact deltas, and deltas over two windows add
/// up to the delta over both.
pub proof fn lemma_growth_adds_up(first: u64, second: u64, third: u64)
    requires
        first <= second <= third,
    ensures
        first + growth(second, first) == second,
        growth(second, first) + growth(third, second) == growth(third, first),
{
}

/// Three counters in print.
pub open spec fn counters_text(counters: Seq<u64>) -> Seq<char> {
    "["@ + decimal(counters[0] as nat) + ", "@ + decimal(counters[1] as nat) + ", "@ + decimal(
        counters[2] as nat,
    ) + "]"@
}

fn write_counters(counters: &[u64; 3]) -> (text: String)
    ensures
        text@ == counters_text(counters@),
{
    let a = decimal_text(counters[0] as u128);
    let b = decimal_text(counters[1] as u128);
    let c = decimal_text(counters[2] as u128);
    "[".to_owned().concat(a.as_str()).concat(", ").concat(b.as_str()).concat(", ").concat(
        c.as_str(),
    ).concat("]")
}

/// Whether only the relay at `owner` counted, exactly once.
pub fn owner_only(delta: &[u64; 3], owner: usize) -> (answer: bool)
    requires
        owner < 3,
    ensures
        answer == is_owner_only(delta@, owner as int),
{
    let answer = delta[owner] == 1 && (owner == 0 || delta[0] == 0) && (owner == 1 || delta[1]
        == 0) && (owner == 2 || delta[2] == 0);
    proof {
        if !answer && is_owner_only(delta@, owner as int) {
            assert(owner != 0 ==> delta@[0] == 0);
            assert(owner != 1 ==> delta@[1] == 0);
            assert(owner != 2 ==> delta@[2] == 0);
        }
    }
    answer
}

/// An owner-only effect is a selection of exactly one relay.
pub proof fn lemma_owner_only_selects_once(delta: Seq<u64>, owner: int)
    requires
        0 <= owner < delta.len(),
        is_owner_only(delta, owner),
    ensures
        is_selected_once(delta),
{
}

/// Whether the empty body was dispatched to and read by its owner alone.
pub fn check_empty_body(dispatch: &[u64; 3], reads: &[u64; 3], owner: usize) -> (result: Result<
    (),
    HarnessError,
>)
    requires
        owner < 3,
    ensures
        match result {
            Ok(()) => is_owner_only(dispatch@, owner as int) && is_owner_only(
                reads@,
                owner as int,
            ),
            Err(error) => !(is_owner_only(dispatch@, owner as int) && is_owner_only(
                reads@,
                owner as int,
            )) && error@ == ErrorView::Process(
                "C10 empty body counters were not selected-owner-only: dispatch="@
                    + counters_text(dispatch@) + ", reads="@ + counters_text(reads@),
            ),
        },
{
    if !owner_only(dispatch, owner) || !owner_only(reads, owner) {
        let dispatched = write_counters(dispatch);
        let read = write_counters(reads);
        return Err(
            HarnessError::Process(
                "C10 empty body counters were not selected-owner-only: dispatch=".to_owned().concat(
                dispatched.as_str()).concat(", reads=").concat(read.as_str()),
            ),
        );
    }
    Ok(())
}

/// The unary answer is the canary itself.
pub open spec fn is_exact_answer(status: u16, body: Seq<u8>, canary: Seq<u8>) -> bool {
    status == 200 && body == canary
}

/// Whether the empty unary body was answered exactly and had its effect at its
/// owner alone.
pub fn check_empty_unary(
    status: u16,
    body: &[u8],
    canary: &[u8],
    dispatch: &[u64; 3],
    reads: &[u64; 3],
    owner: usize,
) -> (result: Result<(), HarnessError>)
    requires
        owner < 3,
    ensures
        ({
            let holds = is_exact_answer(status, body@, canary@) && is_owner_only(
                reads@,
                owner as int,
            ) && is_owner_only(dispatch@, owner as int);
            match result {
                Ok(()) => holds,
                Err(error) => !holds && error@ == ErrorView::Process(
                    "C10 empty unary body was not a selected-owner effect: status="@ + decimal(
                        status as nat,
                    ) + ", body_len="@ + decimal(body@.len()) + ", dispatch="@ + counters_text(
                        dispatch@,
                    ) + ", reads="@ + counters_text(reads@),
                ),
            }
        }),
{
    let exact = status == 200 && same_bytes(body, canary);
    if !exact || !owner_only(reads, owner) || !owner_only(dispatch, owner) {
        let answered = decimal_text(status as u128);
        let length = decimal_text(body.len() as u128);
        let dispatched = write_counters(dispatch);
        let read = write_counters(reads);
        return Err(
            HarnessError::Process(
                "C10 empty unary body was not a selected-owner effect: status=".to_owned().concat(
                answered.as_str()).concat(", body_len=").concat(length.as_str()).concat(
                    ", dispatch=",
                ).concat(dispatched.as_str()).concat(", reads=").concat(read.as_str()),
            ),
        );
    }
    Ok(())
}

/// No relay counted anything.
pub open spec fn is_untouched(delta: Seq<u64>) -> bool {
    forall|i: int| 0 <= i < delta.len() ==> #[trigger] delta[i] == 0
}

fn untouched(delta: &[u64; 3]) -> (answer: bool)
    ensures
        answer == is_untouched(delta@),
{
    let answer = delta[0] == 0 && delta[1] == 0 && delta[2] == 0;
    proof {
        if !answer && is_untouched(delta@) {
            assert(delta@[0] == 0 && delta@[1] == 0 && delta@[2] == 0);
        }
    }
    answer
}

/// Whether a truncated record was read by its owner and dispatched by nobody.
pub fn check_truncated(owner_read: bool, dispatch: &[u64; 3]) -> (result: Result<(), HarnessError>)
    ensures
        match result {
            Ok(()) => owner_read && is_untouched(dispatch@),
            Err(error) => !(owner_read && is_untouched(dispatch@)) && error@ == ErrorView::Process(
                "C10 truncated body was not a consumed/no-effect record: owner_read="@ + (
                if owner_read {
                    "true"@
                } else {
                    "false"@
                }) + ", dispatch="@ + counters_text(dispatch@),
            ),
        },
{
    if !owner_read || !untouched(dispatch) {
        let dispatched = write_counters(dispatch);
        let read = if owner_read {
            "true"
        } else {
            "false"
        };
        return Err(
            HarnessError::Process(
                "C10 truncated body was not a consumed/no-effect record: owner_read=".to_owned().concat(
                read).concat(", dispatch=").concat(dispatched.as_str()),
            ),
        );
    }
    Ok(())
}

/// An owner token as the catalog publishes it.
#[derive(Clone, Debug, Eq, PartialEq)]
pub struct OwnerToken {
    pub deployment_incarnation: String,
    pub tenant_id: String,
    pub device_id: String,
    pub node_id: String,
    pub boot_id: String,
    pub session_id: String,
    pub epoch: u64,
}

/// The model of an owner token.
pub struct TokenView {
    pub deployment_incarnation: Seq<char>,
    pub tenant_id: Seq<char>,
    pub device_id: Seq<char>,
    pub node_id: Seq<char>,
    pub boot_id: Seq<char>,
    pub session_id: Seq<char>,
    pub epoch: u64,
}

impl View for OwnerToken {
    type V = TokenView;

    open spec fn view(&self) -> TokenView {
        TokenView {
            deployment_incarnation: self.deployment_incarnation@,
            tenant_id: self.tenant_id@,
            device_id: self.device_id@,
            node_id: self.node_id@,
            boot_id: self.boot_id@,
            session_id: self.session_id@,
            epoch: self.epoch,
        }
    }
}

/// Whether two tokens are the same.
pub fn same_token(a: &OwnerToken, b: &OwnerToken) -> (same: bool)
    ensures
        same == (a@ == b@),
{
    same_text(a.deployment_incarnation.as_str(), b.deployment_incarnation.as_str()) && same_text(
        a.tenant_id.as_str(),
        b.tenant_id.as_str(),
    ) && same_text(a.device_id.as_str(), b.device_id.as_str()) && same_text(
        a.node_id.as_str(),
        b.node_id.as_str(),
    ) && same_text(a.boot_id.as_str(), b.boot_id.as_str()) && same_text(
        a.session_id.as_str(),
        b.session_id.as_str(),
    ) && a.epoch == b.epoch
}

/// The replacement is a complete token of the same scope at a higher epoch and
/// of another session.
pub open spec fn is_replacement(initial: TokenView, replacement: TokenView) -> bool {
    &&& replacement.deployment_incarnation == initial.deployment_incarnation
    &&& replacement.tenant_id == initial.tenant_id
    &&& replacement.device_id == initial.device_id
    &&& replacement.epoch > initial.epoch
    &&& replacement.session_id != initial.session_id
    &&& replacement.node_id.len() > 0
    &&& replacement.boot_id.len() > 0
    &&& replacement.session_id.len() > 0
}

/// Whether the owner token changed to a complete higher one.
pub fn owner_token_changed(initial: &OwnerToken, replacement: &OwnerToken) -> (result: Result<
    (),
    HarnessError,
>)
    ensures
        match result {
            Ok(()) => is_replacement(initial@, replacement@) && initial@ != replacement@,
            Err(error) => !is_replacement(initial@, replacement@) && error@ == ErrorView::Process(
                "C10 race replacement did not publish a complete higher owner token"@,
            ),
        },
{
    let changed = same_text(
        replacement.deployment_incarnation.as_str(),
        initial.deployment_incarnation.as_str(),
    ) && same_text(replacement.tenant_id.as_str(), initial.tenant_id.as_str()) && same_text(
        replacement.device_id.as_str(),
        initial.device_id.as_str(),
    ) && replacement.epoch > initial.epoch && !same_text(
        replacement.session_id.as_str(),
        initial.session_id.as_str(),
    ) && !same_token(replacement, initial) && !replacement.node_id.as_str().is_empty()
        && !replacement.boot_id.as_str().is_empty() && !replacement.session_id.as_str().is_empty();
    if !changed {
        return Err(
            HarnessError::process(
                "C10 race replacement did not publish a complete higher owner token",
            ),
        );
    }
    Ok(())
}

/// The owner claim is that of the authenticated client session.
pub fn owner_matches_session(
    owner: &OwnerToken,
    epoch: u64,
    session_id: &str,
    tenant_id: &str,
    device_id: &str,
) -> (result: Result<(), HarnessError>)
    ensures
        ({
            let holds = owner.epoch == epoch && owner.session_id@ == session_id@
                && owner.tenant_id@ == tenant_id@ && owner.device_id@ == device_id@;
            match result {
                Ok(()) => holds,
                Err(error) => !holds && error@ == ErrorView::Process(
                    "C10 initial owner epoch did not match the authenticated client session"@,
                ),
            }
        }),
{
    if owner.epoch != epoch || !same_text(owner.session_id.as_str(), session_id) || !same_text(
        owner.tenant_id.as_str(),
        tenant_id,
    ) || !same_text(owner.device_id.as_str(), device_id) {
        return Err(
            HarnessError::process(
                "C10 initial owner epoch did not match the authenticated client session",
            ),
        );
    }
    Ok(())
}

/// Whether a fresh claim is of the exact scope at a higher epoch.
pub fn fresh_claim(initial: &OwnerToken, fresh: &OwnerToken, tenant_id: &str, device_id: &str) -> (result:
    Result<(), HarnessError>)
    ensures
        ({
            let holds = fresh.epoch > initial.epoch && fresh.tenant_id@ == tenant_id@
                && fresh.device_id@ == device_id@;
            match result {
                Ok(()) => holds,
                Err(error) => !holds && error@ == ErrorView::Process(
                    "C10 fresh CLI did not claim the exact scope at a higher epoch"@,
                ),
            }
        }),
{
    if !(fresh.epoch > initial.epoch && same_text(fresh.tenant_id.as_str(), tenant_id)
        && same_text(fresh.device_id.as_str(), device_id)) {
        return Err(
            HarnessError::process("C10 fresh CLI did not claim the exact scope at a higher epoch"),
        );
    }
    Ok(())
}

/// The first relay that does not own the device.
pub fn non_owner_ingress(nodes: &Vec<String>, owner: &str) -> (result: Result<usize, HarnessError>)
    ensures
        match result {
            Ok(index) => index < nodes@.len() && nodes@[index as int]@ != owner@ && forall|k: int|
                0 <= k < index ==> (#[trigger] nodes@[k])@ == owner@,
            Err(error) => error@ == ErrorView::Process("C10 has no non-owner ingress relay"@)
                && forall|k: int| 0 <= k < nodes@.len() ==> (#[trigger] nodes@[k])@ == owner@,
        },
{
    let mut index: usize = 0;
    while index < nodes.len()
        invariant
            index <= nodes.len(),
            forall|k: int| 0 <= k < index ==> (#[trigger] nodes@[k])@ == owner@,
        decreases nodes.len() - index,
    {
        if !same_text(nodes[index].as_str(), owner) {
            return Ok(index);
        }
        index += 1;
    }
    Err(HarnessError::process("C10 has no non-owner ingress relay"))
}

/// An optional label as a debug listing shows it.
pub open spec fn label_debug(label: Option<Seq<char>>) -> Seq<char> {
    match label {
        Some(text) => "Some("@ + debug_text(text) + ")"@,
        None => "None"@,
    }
}

/// The model of an optional label.
pub open spec fn label_view(label: Option<&str>) -> Option<Seq<char>> {
    match label {
        Some(text) => Some(text@),
        None => None,
    }
}

/// An optional label as a debug listing shows it.
pub fn write_label(label: Option<&str>) -> (text: String)
    ensures
        text@ == label_debug(label_view(label)),
{
    match label {
        Some(text) => {
            let quoted = write_debug(text);
            "Some(".to_owned().concat(quoted.as_str()).concat(")")
        },
        None => "None".to_owned(),
    }
}

/// The raced admission was refused by the owner fence.
pub open spec fn is_fence(
    status: u16,
    code: Option<Seq<char>>,
    execution: Option<Seq<char>>,
) -> bool {
    status == 503 && code == Some("PEER_UNAVAILABLE"@) && execution == Some("not_dispatched"@)
}

fn is_label(label: Option<&str>, wanted: &str) -> (same: bool)
    ensures
        same == (label_view(label) == Some(wanted@)),
{
    match label {
        Some(text) => same_text(text, wanted),
        None => false,
    }
}

/// Whether the raced admission was refused by the owner fence, before 101 and
/// before any dispatch.
pub fn check_race_rejection(status: u16, code: Option<&str>, execution: Option<&str>) -> (result:
    Result<(), HarnessError>)
    ensures
        ({
            let holds = is_fence(status, label_view(code), label_view(execution));
            match result {
                Ok(()) => holds,
                Err(error) => !holds && error@ == ErrorView::Process(
                    "C10 owner-token race returned an unexpected bounded rejection: status="@
                        + decimal(status as nat) + " code="@ + label_debug(label_view(code))
                        + " execution="@ + label_debug(label_view(execution)),
                ),
            }
        }),
{
    if status != 503 || !is_label(code, "PEER_UNAVAILABLE") || !is_label(
        execution,
        "not_dispatched",
    ) {
        let answered = decimal_text(status as u128);
        let code_text = write_label(code);
        let execution_text = write_label(execution);
        return Err(
            HarnessError::Process(
                "C10 owner-token race returned an unexpected bounded rejection: status=".to_owned().concat(
                answered.as_str()).concat(" code=").concat(code_text.as_str()).concat(
                    " execution=",
                ).concat(execution_text.as_str()),
            ),
        );
    }
    Ok(())
}

/// Whether the raced request neither had its body read nor was dispatched.
pub fn check_race_untouched(owner: usize, reads: &[u64; 3], dispatch: &[u64; 3]) -> (result: Result<
    (),
    HarnessError,
>)
    ensures
        ({
            let holds = is_untouched(reads@) && is_untouched(dispatch@);
            match result {
                Ok(()) => holds,
                Err(error) => !holds && error@ == ErrorView::Process(
                    "C10 owner-token race consumed or dispatched a body: owner_index="@ + decimal(
                        owner as nat,
                    ) + ", reads="@ + counters_text(reads@) + ", dispatch="@ + counters_text(
                        dispatch@,
                    ),
                ),
            }
        }),
{
    if !untouched(reads) || !untouched(dispatch) {
        let index = decimal_text(owner as u128);
        let read = write_counters(reads);
        let dispatched = write_counters(dispatch);
        return Err(
            HarnessError::Process(
                "C10 owner-token race consumed or dispatched a body: owner_index=".to_owned().concat(
                index.as_str()).concat(", reads=").concat(read.as_str()).concat(
                    ", dispatch=",
                ).concat(dispatched.as_str()),
            ),
        );
    }
    Ok(())
}

/// Whether reaching the barrier proves that the bearer was revalidated by the
/// owner: exactly one admission reached it, on a non-owner ingress, while the
/// selected owner was still the initial one.
pub fn bearer_revalidated(hits: u64, ingress: &str, selected: &OwnerToken, initial: &OwnerToken) -> (proved:
    bool)
    ensures
        proved == (hits == 1 && ingress@ != initial.node_id@ && selected@ == initial@),
{
    hits == 1 && !same_text(ingress, initial.node_id.as_str()) && same_token(selected, initial)
}

/// Whether cleanup still has time.
pub fn cleanup_remaining(remaining_ms: u64, label: &str) -> (result: Result<u64, HarnessError>)
    ensures
        match result {
            Ok(remaining) => remaining == remaining_ms && remaining_ms > 0,
            Err(error) => remaining_ms == 0 && error@ == ErrorView::Timeout(
                label@ + " cleanup deadline elapsed"@,
            ),
        },
{
    if remaining_ms == 0 {
        return Err(
            HarnessError::Timeout(label.to_owned().concat(" cleanup deadline elapsed")),
        );
    }
    Ok(remaining_ms)
}

/// How the close of a stream within what was left of its deadline ended.
pub enum CloseEnd {
    Closed,
    Failed(HarnessError),
    TimedOut,
}

/// The close of a stream: its own failure, or that it did not end in time.
pub fn judge_close(label: &str, end: CloseEnd) -> (result: Result<(), HarnessError>)
    ensures
        match (end, result) {
            (CloseEnd::Closed, Ok(())) => true,
            (CloseEnd::Failed(cause), Err(error)) => error == cause,
            (CloseEnd::TimedOut, Err(error)) => error@ == ErrorView::Timeout(
                label@ + " cleanup timed out"@,
            ),
            _ => false,
        },
{
    match end {
        CloseEnd::Closed => Ok(()),
        CloseEnd::Failed(cause) => Err(cause),
        CloseEnd::TimedOut => Err(
            HarnessError::Timeout(label.to_owned().concat(" cleanup timed out")),
        ),
    }
}

/// One failed step of a scenario's cleanup, in words.
pub fn cleanup_line(label: &str, error: &HarnessError) -> (line: String)
    ensures
        line@ == label@ + " cleanup: "@ + error@.text(),
{
    let text = error.message();
    label.to_owned().concat(" cleanup: ").concat(text.as_str())
}

/// A failure that a close may have followed: the failure alone where the close
/// succeeded, and both otherwise.
pub fn preserving_primary(primary: HarnessError, close: Result<(), HarnessError>) -> (error:
    HarnessError)
    ensures
        match close {
            Ok(()) => error == primary,
            Err(cleanup) => error@ == ErrorView::Process(
                primary@.text() + "; "@ + cleanup@.text(),
            ),
        },
{
    match close {
        Ok(()) => primary,
        Err(cleanup) => with_cleanup(&primary, &cleanup),
    }
}

/// Classifies the end of an owned cleanup: its failure in words, if it failed,
/// and whether the absolute deadline had elapsed by then.
pub open spec fn cleanup_verdict(
    label: Seq<char>,
    failure: Option<Seq<char>>,
    deadline_elapsed: bool,
) -> Option<ErrorView> {
    match (failure, deadline_elapsed) {
        (None, false) => None,
        (Some(text), false) => Some(ErrorView::Process(label + " cleanup failed: "@ + text)),
        (None, true) => Some(
            ErrorView::Timeout(label + " cleanup exceeded its absolute deadline"@),
        ),
        (Some(text), true) => Some(
            ErrorView::Process(label + " cleanup failed after its absolute deadline: "@ + text),
        ),
    }
}

/// Classifies the end of an owned cleanup.
pub fn classify_cleanup(label: &str, failure: Option<&str>, deadline_elapsed: bool) -> (result:
    Result<(), HarnessError>)
    ensures
        match result {
            Ok(()) => cleanup_verdict(label@, label_view(failure), deadline_elapsed) is None,
            Err(error) => cleanup_verdict(label@, label_view(failure), deadline_elapsed) == Some(
                error@,
            ),
        },
{
    match (failure, deadline_elapsed) {
        (None, false) => Ok(()),
        (Some(text), false) => Err(
            HarnessError::Process(label.to_owned().concat(" cleanup failed: ").concat(text)),
        ),
        (None, true) => Err(
            HarnessError::Timeout(
                label.to_owned().concat(" cleanup exceeded its absolute deadline"),
            ),
        ),
        (Some(text), true) => Err(
            HarnessError::Process(
                label.to_owned().concat(" cleanup failed after its absolute deadline: ").concat(
                    text,
                ),
            ),
        ),
    }
}

/// A failure and what went wrong while cleaning up after it.
pub fn with_cleanup(primary: &HarnessError, cleanup: &HarnessError) -> (error: HarnessError)
    ensures
        error@ == ErrorView::Process(primary@.text() + "; "@ + cleanup@.text()),
{
    let first = primary.message();
    let second = cleanup.message();
    HarnessError::Process(first.concat("; ").concat(second.as_str()))
}

/// The model of an optional error.
pub open spec fn error_view(error: Option<HarnessError>) -> Option<ErrorView> {
    match error {
        Some(error) => Some(error@),
        None => None,
    }
}

/// The model of a result's error.
pub open spec fn failure_of<T>(result: Result<T, HarnessError>) -> Option<ErrorView> {
    match result {
        Ok(_) => None,
        Err(error) => Some(error@),
    }
}

/// The outcome of a scenario and of the cleanup of its resources.
pub open spec fn scenario_verdict(
    scenario: Option<ErrorView>,
    cleanup: Option<ErrorView>,
) -> Option<ErrorView> {
    match (scenario, cleanup) {
        (None, None) => None,
        (None, Some(error)) => Some(
            ErrorView::Process("C10 scenario cleanup failed: "@ + error.text()),
        ),
        (Some(primary), None) => Some(primary),
        (Some(primary), Some(error)) => Some(
            ErrorView::Process(
                primary.text() + "; C10 scenario cleanup failed: "@ + error.text(),
            ),
        ),
    }
}

/// Joins the outcome of a scenario with that of the cleanup of its resources.
/// The scenario's own failure comes first, and a scenario whose cleanup failed
/// is not a success.
pub fn conclude_scenario(
    scenario: Result<C10ActualPathEvidence, HarnessError>,
    cleanup: Result<(), HarnessError>,
) -> (result: Result<C10ActualPathEvidence, HarnessError>)
    ensures
        ({
            let verdict = scenario_verdict(failure_of(scenario), failure_of(cleanup));
            match result {
                Ok(evidence) => verdict is None && scenario == Ok::<
                    C10ActualPathEvidence,
                    HarnessError,
                >(evidence),
                Err(error) => verdict == Some(error@),
            }
        }),
{
    match (scenario, cleanup) {
        (Ok(evidence), Ok(())) => Ok(evidence),
        (Ok(_), Err(error)) => {
            let text = error.message();
            Err(
                HarnessError::Process(
                    "C10 scenario cleanup failed: ".to_owned().concat(text.as_str()),
                ),
            )
        },
        (Err(primary), Ok(())) => Err(primary),
        (Err(primary), Err(error)) => {
            let first = primary.message();
            let text = error.message();
            Err(
                HarnessError::Process(
                    first.concat("; C10 scenario cleanup failed: ").concat(text.as_str()),
                ),
            )
        },
    }
}

/// The failures of a cleanup, or none.
pub fn cleanup_result(failures: &Vec<String>) -> (result: Result<(), HarnessError>)
    ensures
        match result {
            Ok(()) => failures@.len() == 0,
            Err(error) => failures@.len() > 0 && error@ == ErrorView::Process(
                joined(views(failures@), "; "@),
            ),
        },
{
    if failures.len() == 0 {
        Ok(())
    } else {
        Err(HarnessError::Process(join_texts(failures, "; ")))
    }
}

/// The failed halves of a final cleanup, in words.
pub open spec fn cleanup_parts(
    cluster: Option<ErrorView>,
    harness: Option<ErrorView>,
) -> Seq<Seq<char>> {
    (match cluster {
        Some(error) => seq!["cluster cleanup: "@ + error.text()],
        None => Seq::empty(),
    }) + (match harness {
        Some(error) => seq!["catalog cleanup: "@ + error.text()],
        None => Seq::empty(),
    })
}

/// A failed final cleanup, in words.
pub open spec fn cleanup_failure_text(
    label: Seq<char>,
    cluster: Option<ErrorView>,
    harness: Option<ErrorView>,
) -> Seq<char> {
    let parts = cleanup_parts(cluster, harness);
    if parts.len() == 0 {
        label + ": no cleanup error"@
    } else {
        label + ": "@ + joined(parts, "; "@)
    }
}

/// A failed final cleanup: which of its halves failed, and how.
pub fn cleanup_failure(
    label: &str,
    cluster: &Option<HarnessError>,
    harness: &Option<HarnessError>,
) -> (error: HarnessError)
    ensures
        error@ == ErrorView::Process(
            cleanup_failure_text(label@, error_view(*cluster), error_view(*harness)),
        ),
{
    let ghost parts = cleanup_parts(error_view(*cluster), error_view(*harness));
    let mut failures: Vec<String> = Vec::new();
    match cluster {
        Some(error) => {
            let text = error.message();
            failures.push("cluster cleanup: ".to_owned().concat(text.as_str()));
        },
        None => {},
    }
    match harness {
        Some(error) => {
            let text = error.message();
            failures.push("catalog cleanup: ".to_owned().concat(text.as_str()));
        },
        None => {},
    }
    assert(views(failures@) =~= parts);
    if failures.len() == 0 {
        return HarnessError::Process(label.to_owned().concat(": no cleanup error"));
    }
    let text = join_texts(&failures, "; ");
    HarnessError::Process(label.to_owned().concat(": ").concat(text.as_str()))
}

/// The outcome of a run and of its two final cleanups.
pub open spec fn run_verdict(
    scenario: Option<ErrorView>,
    cluster: Option<ErrorView>,
    harness: Option<ErrorView>,
) -> Option<ErrorView> {
    let clean = cluster is None && harness is None;
    match scenario {
        None => if clean {
            None
        } else {
            Some(
                ErrorView::Process(
                    cleanup_failure_text("C10 scenario succeeded"@, cluster, harness),
                ),
            )
        },
        Some(primary) => if clean {
            Some(primary)
        } else {
            Some(
                ErrorView::Process(
                    primary.text() + "; "@ + ErrorView::Process(
                        cleanup_failure_text("C10 cleanup"@, cluster, harness),
                    ).text(),
                ),
            )
        },
    }
}

/// Joins the outcome of a run with that of its two final cleanups.  The evidence
/// says that the cleanup joined only where all of them succeeded.
pub fn conclude_run(
    scenario: Result<C10ActualPathEvidence, HarnessError>,
    cluster: Option<HarnessError>,
    harness: Option<HarnessError>,
) -> (result: Result<C10ActualPathEvidence, HarnessError>)
    ensures
        ({
            let verdict = run_verdict(
                failure_of(scenario),
                error_view(cluster),
                error_view(harness),
            );
            match result {
                Ok(evidence) => verdict is None && scenario is Ok && evidence == (
                C10ActualPathEvidence { cleanup_joined: true, ..scenario->Ok_0 }),
                Err(error) => verdict == Some(error@),
            }
        }),
{
    let clean = cluster.is_none() && harness.is_none();
    match scenario {
        Ok(evidence) => {
            if clean {
                let mut joined = evidence;
                joined.cleanup_joined = true;
                Ok(joined)
            } else {
                Err(cleanup_failure("C10 scenario succeeded", &cluster, &harness))
            }
        },
        Err(primary) => {
            if clean {
                Err(primary)
            } else {
                let cleanup = cleanup_failure("C10 cleanup", &cluster, &harness);
                Err(with_cleanup(&primary, &cleanup))
            }
        },
    }
}

/// A run is a success exactly when its scenario and both of its final cleanups
/// are; and where the cleanups succeed, its failure is the scenario's own.
pub proof fn lemma_cleanup_never_hides_a_failure(
    scenario: Option<ErrorView>,
    cluster: Option<ErrorView>,
    harness: Option<ErrorView>,
)
    ensures
        run_verdict(scenario, cluster, harness) is None <==> scenario is None && cluster is None
            && harness is None,
        cluster is None && harness is None ==> run_verdict(scenario, cluster, harness)
            == scenario,
{
}

/// A selection among the relays, by its sum: exactly one of three counters
/// moved, by one, exactly when all three together moved by one; the owner's
/// moved alone exactly when it is that one; and none moved exactly when the sum
/// did not.
pub proof fn lemma_deltas_by_sum(delta: Seq<u64>, owner: int)
    requires
        delta.len() == 3,
        0 <= owner < 3,
    ensures
        is_selected_once(delta) <==> delta[0] + delta[1] + delta[2] == 1,
        is_owner_only(delta, owner) <==> delta[owner] == 1 && delta[0] + delta[1] + delta[2] == 1,
        is_untouched(delta) <==> delta[0] + delta[1] + delta[2] == 0,
{
    if delta[0] + delta[1] + delta[2] == 1 {
        let one: int = if delta[0] == 1 {
            0
        } else if delta[1] == 1 {
            1
        } else {
            2
        };
        assert(is_owner_only(delta, one));
    }
    if is_selected_once(delta) {
        let one = choose|one: int| 0 <= one < delta.len() && #[trigger] is_owner_only(delta, one);
        assert(one != 0 ==> delta[0] == 0);
        assert(one != 1 ==> delta[1] == 0);
        assert(one != 2 ==> delta[2] == 0);
    }
    if is_owner_only(delta, owner) {
        assert(owner != 0 ==> delta[0] == 0);
        assert(owner != 1 ==> delta[1] == 0);
        assert(owner != 2 ==> delta[2] == 0);
    }
    if is_untouched(delta) {
        assert(delta[0] == 0 && delta[1] == 0 && delta[2] == 0);
    }
}

/// A counter's growth on any two readings: it takes the earlier reading to the
/// later one, and is zero exactly where the later one is no higher.
pub proof fn lemma_growth_is_the_advance(after: u64, before: u64)
    ensures
        after >= before ==> before + growth(after, before) == after,
        after <= before ==> growth(after, before) == 0,
        growth(after, before) <= after,
{
}

/// Evidence is complete exactly when it measured this, field by field: three
/// relays, one dispatch in all for each of the two empty bodies, and every flag.
pub proof fn lemma_complete_evidence(evidence: C10ActualPathEvidence)
    ensures
        is_complete(evidence) <==> {
            let first = evidence.empty_body_dispatch_delta@;
            let second = evidence.empty_unary_body_dispatch_delta@;
            &&& evidence.relay_count == 3
            &&& first[0] + first[1] + first[2] == 1
            &&& second[0] + second[1] + second[2] == 1
            &&& evidence.fresh_control_after_no_live_owner
            &&& evidence.fresh_epoch_advanced
            &&& evidence.empty_body_single_prefix
            &&& evidence.empty_body_owner_read
            &&& evidence.empty_unary_body_response_exact
            &&& evidence.empty_unary_body_owner_read
            &&& evidence.truncated_body_owner_read
            &&& evidence.truncated_body_not_dispatched
            &&& evidence.raw_bearer_owner_revalidated
            &&& evidence.owner_token_changed_before_101
            &&& evidence.owner_change_pre_101_rejected
            &&& evidence.owner_change_pre_101_not_dispatched
            &&& evidence.owner_change_pre_101_body_not_polled
            &&& evidence.cleanup_joined
        },
{
    lemma_deltas_by_sum(evidence.empty_body_dispatch_delta@, 0);
    lemma_deltas_by_sum(evidence.empty_unary_body_dispatch_delta@, 0);
}

/// A replacement moves one owner's scope forward: no token replaces itself, of
/// two tokens at most one replaces the other, and what a replacement replaces
/// has the scope of all that come after it, at a lower epoch.
pub proof fn lemma_replacement_moves_forward(a: TokenView, b: TokenView, c: TokenView)
    ensures
        !is_replacement(a, a),
        !(is_replacement(a, b) && is_replacement(b, a)),
        is_replacement(a, b) ==> b.epoch > a.epoch && b.session_id != a.session_id,
        is_replacement(a, b) ==> b.deployment_incarnation == a.deployment_incarnation && b.tenant_id
            == a.tenant_id && b.device_id == a.device_id,
        is_replacement(a, b) ==> b.node_id.len() > 0 && b.boot_id.len() > 0 && b.session_id.len()
            > 0,
        is_replacement(a, b) && is_replacement(b, c) ==> (is_replacement(a, c) <==> c.session_id
            != a.session_id),
        b.epoch > a.epoch && b.session_id != a.session_id && b.deployment_incarnation
            == a.deployment_incarnation && b.tenant_id == a.tenant_id && b.device_id == a.device_id
            && b.node_id.len() > 0 && b.boot_id.len() > 0 && b.session_id.len() > 0
            ==> is_replacement(a, b),
{
}

/// The raced admission is fenced by one answer alone.
pub proof fn lemma_one_fence(
    status: u16,
    code: Option<Seq<char>>,
    execution: Option<Seq<char>>,
)
    ensures
        is_fence(503, Some("PEER_UNAVAILABLE"@), Some("not_dispatched"@)),
        is_fence(status, code, execution) ==> status == 503 && code == Some("PEER_UNAVAILABLE"@)
            && execution == Some("not_dispatched"@),
{
}

/// A cleanup is in order exactly when it neither failed nor outlasted its
/// deadline, and one that only outlasted it is a timeout.  What it failed with
/// is told either way, and a late failure is told apart from one in time.
pub proof fn lemma_cleanup_verdicts(label: Seq<char>, failure: Option<Seq<char>>, elapsed: bool)
    ensures
        cleanup_verdict(label, failure, elapsed) is None <==> failure is None && !elapsed,
        cleanup_verdict(label, failure, elapsed) matches Some(error) ==> (error is Timeout
            <==> failure is None) && (error is Process <==> failure is Some),
        failure matches Some(text) ==> cleanup_verdict(label, failure, true) != cleanup_verdict(
            label,
            failure,
            false,
        ),
{
    if failure is Some {
        let text = failure->Some_0;
        let late = label + " cleanup failed after its absolute deadline: "@ + text;
        let timely = label + " cleanup failed: "@ + text;
        reveal_strlit(" cleanup failed after its absolute deadline: ");
        reveal_strlit(" cleanup failed: ");
        assert(late.len() != timely.len());
    }
}

/// A scenario is a success exactly when it and the cleanup of its resources
/// are, and a failed cleanup only adds to the failure of the scenario.
pub proof fn lemma_scenario_verdicts(scenario: Option<ErrorView>, cleanup: Option<ErrorView>)
    ensures
        scenario_verdict(scenario, cleanup) is None <==> scenario is None && cleanup is None,
        cleanup is None ==> scenario_verdict(scenario, cleanup) == scenario,
        scenario matches Some(primary) ==> (cleanup matches Some(error) ==> (scenario_verdict(
            scenario,
            cleanup,
        ) matches Some(ErrorView::Process(text)) && primary.text().is_prefix_of(text))),
{
    if scenario is Some && cleanup is Some {
        let primary = scenario->Some_0.text();
        let error = cleanup->Some_0.text();
        let text = primary + "; C10 scenario cleanup failed: "@ + error;
        assert(text.subrange(0, primary.len() as int) =~= primary);
    }
}

/// The halves of a final cleanup are told apart: each that failed is told once
/// and in words of its own, the cluster's first.
pub proof fn lemma_cleanup_parts(cluster: Option<ErrorView>, harness: Option<ErrorView>)
    ensures
        cleanup_parts(cluster, harness).len() == (if cluster is Some {
            1int
        } else {
            0
        }) + (if harness is Some {
            1int
        } else {
            0
        }),
        cluster matches Some(error) ==> cleanup_parts(cluster, harness)[0] == "cluster cleanup: "@
            + error.text(),
        harness matches Some(error) ==> cleanup_parts(cluster, harness).last()
            == "catalog cleanup: "@ + error.text(),
{
}

} // verus!
