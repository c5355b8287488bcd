//! The steps of the actual-path scenario and of its owner-token race, in the
//! order in which they run, and the evidence that they add up to.

use vstd::prelude::*;
use vstd::string::*;

use crate::admission::{numbered, StreamProbe};
use crate::c10::{
    bearer_revalidated, check_empty_body, check_empty_unary, check_race_rejection,
    check_race_untouched, check_truncated, counters_text, fresh_claim, growth, is_complete,
    is_exact_answer, is_fence, is_owner_only, is_replacement, is_untouched, label_debug,
    label_view, lemma_owner_only_selects_once, relay_index, same_token,
    subtract, write_label, C10ActualPathEvidence, OwnerToken, RELAYS,
};
use crate::error::{ErrorView, HarnessError};
use crate::text::{decimal, decimal_text, same_text};

verus! {

/// The relays' counters at one instant: application dispatches and body reads.
#[derive(Clone, Copy, Debug)]
pub struct Counters {
    pub dispatches: [u64; 3],
    pub reads: [u64; 3],
}

/// What each counter grew by.
pub open spec fn grown(before: Seq<u64>, after: Seq<u64>) -> Seq<u64> {
    Seq::new(after.len(), |i: int| growth(after[i], before[i]))
}

/// What the dispatch counters grew by.
pub open spec fn dispatched(before: Counters, after: Counters) -> Seq<u64> {
    grown(before.dispatches@, after.dispatches@)
}

/// What the read counters grew by.
pub open spec fn read(before: Counters, after: Counters) -> Seq<u64> {
    grown(before.reads@, after.reads@)
}

fn deltas(before: &Counters, after: &Counters) -> (delta: ([u64; 3], [u64; 3]))
    ensures
        delta.0@ == dispatched(*before, *after),
        delta.1@ == read(*before, *after),
{
    let dispatches = subtract(after.dispatches, before.dispatches);
    let reads = subtract(after.reads, before.reads);
    assert(dispatches@ =~= dispatched(*before, *after));
    assert(reads@ =~= read(*before, *after));
    (dispatches, reads)
}

/// The request of the race ended before its barrier: what that means.
pub enum EarlyEnd {
    /// The stream was upgraded or refused.
    Answered(StreamProbe),
    /// The request failed.
    Failed(HarnessError),
}

/// The failure of a race whose request ended before its barrier.
pub fn early_end_error(end: &EarlyEnd) -> (error: HarnessError)
    ensures
        error@ == match *end {
            EarlyEnd::Answered(StreamProbe::Accepted) => ErrorView::Process(
                "C10 owner-token race upgraded before its authenticated barrier"@,
            ),
            EarlyEnd::Answered(StreamProbe::Rejected(failure)) => ErrorView::Process(
                "C10 owner-token race rejected before its barrier: status="@ + decimal(
                    failure.status as nat,
                ) + " code="@ + label_debug(label_view(failure.code)) + " execution="@
                    + label_debug(label_view(failure.execution)),
            ),
            EarlyEnd::Failed(cause) => ErrorView::Http(
                "C10 owner-token race ended before its authenticated barrier: "@ + cause@.text(),
            ),
        },
{
    match end {
        EarlyEnd::Answered(StreamProbe::Accepted) => HarnessError::process(
            "C10 owner-token race upgraded before its authenticated barrier",
        ),
        EarlyEnd::Answered(StreamProbe::Rejected(failure)) => {
            let status = decimal_text(failure.status as u128);
            let code = write_label(failure.code);
            let execution = write_label(failure.execution);
            HarnessError::Process(
                "C10 owner-token race rejected before its barrier: status=".to_owned().concat(
                    status.as_str(),
                ).concat(" code=").concat(code.as_str()).concat(" execution=").concat(
                    execution.as_str(),
                ),
            )
        },
        EarlyEnd::Failed(cause) => {
            let printed = cause.message();
            HarnessError::Http(
                "C10 owner-token race ended before its authenticated barrier: ".to_owned().concat(
                    printed.as_str(),
                ),
            )
        },
    }
}

/// Whether the race enters at a relay that does not own the device, and its
/// barrier was free.
pub fn check_race_entry(ingress: &str, owner: &str, armed: bool) -> (result: Result<
    (),
    HarnessError,
>)
    ensures
        match result {
            Ok(()) => ingress@ != owner@ && armed,
            Err(error) => error@ == ErrorView::Process(
                if ingress@ == owner@ {
                    "C10 owner-token race requires a non-owner authenticated ingress"@
                } else {
                    "C10 owner-token race barrier was already armed"@
                },
            ) && !(ingress@ != owner@ && armed),
        },
{
    if same_text(ingress, owner) {
        return Err(
            HarnessError::process(
                "C10 owner-token race requires a non-owner authenticated ingress",
            ),
        );
    }
    if !armed {
        return Err(HarnessError::process("C10 owner-token race barrier was already armed"));
    }
    Ok(())
}

/// Whether exactly one admission reached the barrier, while the initial owner
/// was still selected.
pub fn check_at_barrier(hits: u64, selected: Option<&OwnerToken>, initial: &OwnerToken) -> (result:
    Result<(), HarnessError>)
    ensures
        match result {
            Ok(()) => hits == 1 && selected is Some && selected->Some_0@ == initial@,
            Err(error) => error@ == ErrorView::Process(
                if hits != 1 {
                    "C10 owner-token race did not reach exactly one post-admission barrier"@
                } else if selected is None {
                    "C10 race selected owner disappeared at barrier"@
                } else {
                    "C10 race barrier did not retain the exact selected owner token"@
                },
            ) && !(hits == 1 && selected is Some && selected->Some_0@ == initial@),
        },
{
    if hits != 1 {
        return Err(
            HarnessError::process(
                "C10 owner-token race did not reach exactly one post-admission barrier",
            ),
        );
    }
    match selected {
        None => Err(HarnessError::process("C10 race selected owner disappeared at barrier")),
        Some(token) => {
            if !same_token(token, initial) {
                return Err(
                    HarnessError::process(
                        "C10 race barrier did not retain the exact selected owner token",
                    ),
                );
            }
            Ok(())
        },
    }
}

/// Whether the barrier was still held when the replacement was committed.
pub fn check_still_held(held: bool) -> (result: Result<(), HarnessError>)
    ensures
        match result {
            Ok(()) => held,
            Err(error) => !held && error@ == ErrorView::Process(
                "C10 owner-token race barrier released before replacement owner token was committed"@,
            ),
        },
{
    if !held {
        return Err(
            HarnessError::process(
                "C10 owner-token race barrier released before replacement owner token was committed",
            ),
        );
    }
    Ok(())
}

/// What the race proved.
#[derive(Clone, Copy, Debug, Eq, PartialEq, Structural)]
pub struct C10OwnerRaceEvidence {
    pub raw_bearer_owner_revalidated: bool,
    pub owner_token_changed_before_101: bool,
    pub owner_change_pre_101_rejected: bool,
    pub owner_change_pre_101_not_dispatched: bool,
    pub owner_change_pre_101_body_not_polled: bool,
}

/// The outcome of the raced admission.
pub struct RaceOutcome {
    pub probe: StreamProbe,
    /// The counters before the barrier was released and after the answer.
    pub before: Counters,
    pub after: Counters,
}

/// The raced admission met the fence and had no effect.
pub open spec fn is_fenced(outcome: RaceOutcome) -> bool {
    &&& outcome.probe is Rejected
    &&& is_fence(
        outcome.probe->Rejected_0.status,
        label_view(outcome.probe->Rejected_0.code),
        label_view(outcome.probe->Rejected_0.execution),
    )
    &&& is_untouched(read(outcome.before, outcome.after))
    &&& is_untouched(dispatched(outcome.before, outcome.after))
}

/// Why the raced admission is no proof of the fence.
pub open spec fn race_failure(outcome: RaceOutcome, owner: usize) -> Seq<char> {
    match outcome.probe {
        StreamProbe::Accepted => "C10 owner-token race sent 101 after the owner token changed"@,
        StreamProbe::Rejected(failure) => if !is_fence(
            failure.status,
            label_view(failure.code),
            label_view(failure.execution),
        ) {
            "C10 owner-token race returned an unexpected bounded rejection: status="@ + decimal(
                failure.status as nat,
            ) + " code="@ + label_debug(label_view(failure.code)) + " execution="@ + label_debug(
                label_view(failure.execution),
            )
        } else {
            "C10 owner-token race consumed or dispatched a body: owner_index="@ + decimal(
                owner as nat,
            ) + ", reads="@ + counters_text(read(outcome.before, outcome.after)) + ", dispatch="@
                + counters_text(dispatched(outcome.before, outcome.after))
        },
    }
}

/// Judges the raced admission, after the replacement's token was seen to be a
/// complete higher one.
pub fn judge_race(
    outcome: &RaceOutcome,
    owner: usize,
    hits: u64,
    ingress: &str,
    selected: &OwnerToken,
    initial: &OwnerToken,
    replacement: &OwnerToken,
) -> (result: Result<C10OwnerRaceEvidence, HarnessError>)
    requires
        is_replacement(initial@, replacement@),
    ensures
        match result {
            Ok(evidence) => is_fenced(*outcome) && evidence == (C10OwnerRaceEvidence {
                raw_bearer_owner_revalidated: hits == 1 && ingress@ != initial.node_id@ && selected@
                    == initial@,
                owner_token_changed_before_101: true,
                owner_change_pre_101_rejected: true,
                owner_change_pre_101_not_dispatched: true,
                owner_change_pre_101_body_not_polled: true,
            }),
            Err(error) => !is_fenced(*outcome) && error@ == ErrorView::Process(
                race_failure(*outcome, owner),
            ),
        },
{
    match &outcome.probe {
        StreamProbe::Accepted => {
            return Err(
                HarnessError::process(
                    "C10 owner-token race sent 101 after the owner token changed",
                ),
            );
        },
        StreamProbe::Rejected(failure) => {
            match check_race_rejection(failure.status, failure.code, failure.execution) {
                Ok(()) => {},
                Err(error) => {
                    return Err(error);
                },
            }
        },
    }
    let delta = deltas(&outcome.before, &outcome.after);
    match check_race_untouched(owner, &delta.1, &delta.0) {
        Ok(()) => {},
        Err(error) => {
            return Err(error);
        },
    }
    Ok(
        C10OwnerRaceEvidence {
            raw_bearer_owner_revalidated: bearer_revalidated(hits, ingress, selected, initial),
            owner_token_changed_before_101: true,
            owner_change_pre_101_rejected: true,
            owner_change_pre_101_not_dispatched: true,
            owner_change_pre_101_body_not_polled: true,
        },
    )
}

/// A scenario in progress.
pub struct ActualPath {
    /// The owner's place among the counters.
    pub owner: usize,
    /// The evidence so far.
    pub evidence: C10ActualPathEvidence,
}

/// Whether the cluster has the relays that the scenario is about.
pub fn check_relays(relays: usize) -> (result: Result<(), HarnessError>)
    ensures
        match result {
            Ok(()) => relays == 3,
            Err(error) => relays != 3 && error@ == ErrorView::Process(
                "C10 requires three relays, observed "@ + decimal(relays as nat),
            ),
        },
{
    if relays != 3 {
        return Err(
            HarnessError::Process(
                numbered("C10 requires three relays, observed ", relays as u64),
            ),
        );
    }
    Ok(())
}

/// The evidence of a scenario of which nothing is known yet.
pub open spec fn no_evidence(delta: [u64; 3]) -> C10ActualPathEvidence {
    C10ActualPathEvidence {
        relay_count: 3,
        fresh_control_after_no_live_owner: false,
        fresh_epoch_advanced: false,
        empty_body_single_prefix: false,
        empty_body_owner_read: false,
        empty_body_dispatch_delta: delta,
        empty_unary_body_response_exact: false,
        empty_unary_body_owner_read: false,
        empty_unary_body_dispatch_delta: delta,
        truncated_body_owner_read: false,
        truncated_body_not_dispatched: false,
        raw_bearer_owner_revalidated: false,
        owner_token_changed_before_101: false,
        owner_change_pre_101_rejected: false,
        owner_change_pre_101_not_dispatched: false,
        owner_change_pre_101_body_not_polled: false,
        cleanup_joined: false,
    }
}

impl ActualPath {
    /// What holds of every scenario in progress: the owner is one of the
    /// relays, and a recorded single dispatch is that of the owner alone.
    pub open spec fn wf(self) -> bool {
        &&& self.owner < 3
        &&& self.evidence.relay_count == 3
        &&& self.evidence.empty_body_single_prefix ==> is_owner_only(
            self.evidence.empty_body_dispatch_delta@,
            self.owner as int,
        )
        &&& self.evidence.empty_unary_body_response_exact ==> is_owner_only(
            self.evidence.empty_unary_body_dispatch_delta@,
            self.owner as int,
        )
    }

    /// A scenario whose device is owned by this relay.
    pub fn new(owner_node: &str) -> (result: Result<Self, HarnessError>)
        ensures
            match result {
                Ok(path) => path.wf() && RELAYS@[path.owner as int]@ == owner_node@ && exists|
                    delta: [u64; 3],
                | path.evidence == #[trigger] no_evidence(delta) && is_untouched(delta@),
                Err(error) => error@ == ErrorView::InvalidInput(
                    "C10 owner was outside the relay set"@,
                ) && forall|i: int| 0 <= i < 3 ==> (#[trigger] RELAYS@[i])@ != owner_node@,
            },
    {
        let owner = match relay_index(owner_node) {
            Ok(owner) => owner,
            Err(error) => {
                return Err(error);
            },
        };
        let delta: [u64; 3] = [0, 0, 0];
        let path = ActualPath {
            owner,
            evidence: C10ActualPathEvidence {
                relay_count: 3,
                fresh_control_after_no_live_owner: false,
                fresh_epoch_advanced: false,
                empty_body_single_prefix: false,
                empty_body_owner_read: false,
                empty_body_dispatch_delta: delta,
                empty_unary_body_response_exact: false,
                empty_unary_body_owner_read: false,
                empty_unary_body_dispatch_delta: delta,
                truncated_body_owner_read: false,
                truncated_body_not_dispatched: false,
                raw_bearer_owner_revalidated: false,
                owner_token_changed_before_101: false,
                owner_change_pre_101_rejected: false,
                owner_change_pre_101_not_dispatched: false,
                owner_change_pre_101_body_not_polled: false,
                cleanup_joined: false,
            },
        };
        assert(path.evidence == no_evidence(delta));
        Ok(path)
    }

    /// The empty echo over the stream: nothing after the canary, one dispatch
    /// and one read, both of the owner.
    pub fn empty_echo(&mut self, suffix: &[u8], before: &Counters, after: &Counters) -> (result:
        Result<(), HarnessError>)
        requires
            old(self).wf(),
        ensures
            final(self).wf(),
            ({
                let dispatch = dispatched(*before, *after);
                let reads = read(*before, *after);
                let owner = old(self).owner as int;
                let holds = suffix@.len() == 0 && is_owner_only(dispatch, owner) && is_owner_only(
                    reads,
                    owner,
                );
                match result {
                    Ok(()) => holds && final(self).evidence.empty_body_dispatch_delta@ == dispatch
                        && *final(self) == (ActualPath {
                        evidence: C10ActualPathEvidence {
                            empty_body_single_prefix: true,
                            empty_body_owner_read: true,
                            empty_body_dispatch_delta: final(self).evidence.empty_body_dispatch_delta,
                            ..old(self).evidence
                        },
                        ..*old(self)
                    }),
                    Err(error) => !holds && *final(self) == *old(self) && error@ == if suffix@.len()
                        > 0 {
                        ErrorView::Http("C10 empty echo returned a non-empty payload suffix"@)
                    } else {
                        ErrorView::Process(
                            "C10 empty body counters were not selected-owner-only: dispatch="@
                                + counters_text(dispatch) + ", reads="@ + counters_text(reads),
                        )
                    },
                }
            }),
    {
        if suffix.len() > 0 {
            return Err(HarnessError::http("C10 empty echo returned a non-empty payload suffix"));
        }
        let delta = deltas(before, after);
        match check_empty_body(&delta.0, &delta.1, self.owner) {
            Ok(()) => {},
            Err(error) => {
                return Err(error);
            },
        }
        self.evidence.empty_body_single_prefix = true;
        self.evidence.empty_body_owner_read = true;
        self.evidence.empty_body_dispatch_delta = delta.0;
        Ok(())
    }

    /// The empty unary echo: the canary itself, one dispatch and one read, both
    /// of the owner.
    pub fn empty_unary(
        &mut self,
        status: u16,
        body: &[u8],
        canary: &[u8],
        before: &Counters,
        after: &Counters,
    ) -> (result: Result<(), HarnessError>)
        requires
            old(self).wf(),
        ensures
            final(self).wf(),
            ({
                let dispatch = dispatched(*before, *after);
                let reads = read(*before, *after);
                let owner = old(self).owner as int;
                let holds = is_exact_answer(status, body@, canary@) && is_owner_only(reads, owner)
                    && is_owner_only(dispatch, owner);
                match result {
                    Ok(()) => holds && final(self).evidence.empty_unary_body_dispatch_delta@
                        == dispatch && *final(self) == (ActualPath {
                        evidence: C10ActualPathEvidence {
                            empty_unary_body_response_exact: true,
                            empty_unary_body_owner_read: true,
                            empty_unary_body_dispatch_delta: final(self).evidence.empty_unary_body_dispatch_delta,
                            ..old(self).evidence
                        },
                        ..*old(self)
                    }),
                    Err(error) => !holds && *final(self) == *old(self) && error@
                        == ErrorView::Process(
                        "C10 empty unary body was not a selected-owner effect: status="@ + decimal(
                            status as nat,
                        ) + ", body_len="@ + decimal(body@.len()) + ", dispatch="@ + counters_text(
                            dispatch,
                        ) + ", reads="@ + counters_text(reads),
                    ),
                }
            }),
    {
        let delta = deltas(before, after);
        match check_empty_unary(status, body, canary, &delta.0, &delta.1, self.owner) {
            Ok(()) => {},
            Err(error) => {
                return Err(error);
            },
        }
        self.evidence.empty_unary_body_response_exact = true;
        self.evidence.empty_unary_body_owner_read = true;
        self.evidence.empty_unary_body_dispatch_delta = delta.0;
        Ok(())
    }

    /// The truncated record: read by the owner, dispatched by nobody.
    pub fn truncated(&mut self, owner_read: bool, before: &Counters, after: &Counters) -> (result:
        Result<(), HarnessError>)
        requires
            old(self).wf(),
        ensures
            final(self).wf(),
            ({
                let dispatch = dispatched(*before, *after);
                let holds = owner_read && is_untouched(dispatch);
                match result {
                    Ok(()) => holds && *final(self) == (ActualPath {
                        evidence: C10ActualPathEvidence {
                            truncated_body_owner_read: true,
                            truncated_body_not_dispatched: true,
                            ..old(self).evidence
                        },
                        ..*old(self)
                    }),
                    Err(error) => !holds && *final(self) == *old(self) && error@
                        == ErrorView::Process(
                        "C10 truncated body was not a consumed/no-effect record: owner_read="@ + (
                        if owner_read {
                            "true"@
                        } else {
                            "false"@
                        }) + ", dispatch="@ + counters_text(dispatch),
                    ),
                }
            }),
    {
        let delta = deltas(before, after);
        match check_truncated(owner_read, &delta.0) {
            Ok(()) => {},
            Err(error) => {
                return Err(error);
            },
        }
        self.evidence.truncated_body_owner_read = true;
        self.evidence.truncated_body_not_dispatched = true;
        Ok(())
    }

    /// What the race proved.
    pub fn raced(&mut self, race: C10OwnerRaceEvidence)
        requires
            old(self).wf(),
        ensures
            final(self).wf(),
            *final(self) == (ActualPath {
                evidence: C10ActualPathEvidence {
                    raw_bearer_owner_revalidated: race.raw_bearer_owner_revalidated,
                    owner_token_changed_before_101: race.owner_token_changed_before_101,
                    owner_change_pre_101_rejected: race.owner_change_pre_101_rejected,
                    owner_change_pre_101_not_dispatched: race.owner_change_pre_101_not_dispatched,
                    owner_change_pre_101_body_not_polled: race.owner_change_pre_101_body_not_polled,
                    ..old(self).evidence
                },
                ..*old(self)
            }),
    {
        self.evidence = C10ActualPathEvidence {
            raw_bearer_owner_revalidated: race.raw_bearer_owner_revalidated,
            owner_token_changed_before_101: race.owner_token_changed_before_101,
            owner_change_pre_101_rejected: race.owner_change_pre_101_rejected,
            owner_change_pre_101_not_dispatched: race.owner_change_pre_101_not_dispatched,
            owner_change_pre_101_body_not_polled: race.owner_change_pre_101_body_not_polled,
            ..self.evidence
        };
    }

    /// The fresh claim, after nobody owned the device.
    pub fn fresh(
        &mut self,
        initial: &OwnerToken,
        fresh: &OwnerToken,
        tenant_id: &str,
        device_id: &str,
    ) -> (result: Result<(), HarnessError>)
        requires
            old(self).wf(),
        ensures
            final(self).wf(),
            ({
                let holds = fresh.epoch > initial.epoch && fresh.tenant_id@ == tenant_id@
                    && fresh.device_id@ == device_id@;
                match result {
                    Ok(()) => holds && *final(self) == (ActualPath {
                        evidence: C10ActualPathEvidence {
                            fresh_control_after_no_live_owner: true,
                            fresh_epoch_advanced: true,
                            ..old(self).evidence
                        },
                        ..*old(self)
                    }),
                    Err(error) => !holds && *final(self) == *old(self) && error@
                        == ErrorView::Process(
                        "C10 fresh CLI did not claim the exact scope at a higher epoch"@,
                    ),
                }
            }),
    {
        match fresh_claim(initial, fresh, tenant_id, device_id) {
            Ok(()) => {},
            Err(error) => {
                return Err(error);
            },
        }
        self.evidence.fresh_control_after_no_live_owner = true;
        self.evidence.fresh_epoch_advanced = true;
        Ok(())
    }

    /// Every step of the scenario was accepted, and the race proved everything.
    pub open spec fn complete(self) -> bool {
        &&& self.evidence.empty_body_single_prefix
        &&& self.evidence.empty_body_owner_read
        &&& self.evidence.empty_unary_body_response_exact
        &&& self.evidence.empty_unary_body_owner_read
        &&& self.evidence.truncated_body_owner_read
        &&& self.evidence.truncated_body_not_dispatched
        &&& self.evidence.raw_bearer_owner_revalidated
        &&& self.evidence.owner_token_changed_before_101
        &&& self.evidence.owner_change_pre_101_rejected
        &&& self.evidence.owner_change_pre_101_not_dispatched
        &&& self.evidence.owner_change_pre_101_body_not_polled
        &&& self.evidence.fresh_control_after_no_live_owner
        &&& self.evidence.fresh_epoch_advanced
    }

    /// The evidence of the steps.  The cleanup is still to come.
    pub fn finish(self) -> (evidence: C10ActualPathEvidence)
        ensures
            evidence == self.evidence,
    {
        self.evidence
    }
}

/// A scenario all of whose steps were accepted, and whose cleanup joined, has
/// every invariant that its validator requires; and without the cleanup, or with a
/// step missing, it has not.
pub proof fn lemma_complete_path(path: ActualPath, cleanup_joined: bool)
    requires
        path.wf(),
    ensures
        is_complete((C10ActualPathEvidence { cleanup_joined, ..path.evidence }))
            <==> path.complete() && cleanup_joined,
{
    if path.complete() {
        lemma_owner_only_selects_once(
            path.evidence.empty_body_dispatch_delta@,
            path.owner as int,
        );
        lemma_owner_only_selects_once(
            path.evidence.empty_unary_body_dispatch_delta@,
            path.owner as int,
        );
    }
}

/// A raced admission is fenced exactly when it was refused by the owner fence
/// and no relay's counter stands higher after it than before.
pub proof fn lemma_fenced_race(outcome: RaceOutcome)
    ensures
        is_fenced(outcome) <==> {
            &&& outcome.probe matches StreamProbe::Rejected(failure) && failure.status == 503
                && label_view(failure.code) == Some("PEER_UNAVAILABLE"@) && label_view(
                failure.execution,
            ) == Some("not_dispatched"@)
            &&& forall|i: int|
                0 <= i < 3 ==> #[trigger] outcome.after.reads@[i] <= outcome.before.reads@[i]
            &&& forall|i: int|
                0 <= i < 3 ==> #[trigger] outcome.after.dispatches@[i]
                    <= outcome.before.dispatches@[i]
        },
{
    let reads = read(outcome.before, outcome.after);
    let dispatches = dispatched(outcome.before, outcome.after);
    assert forall|i: int| 0 <= i < 3 implies (#[trigger] reads[i] == 0
        <==> outcome.after.reads@[i] <= outcome.before.reads@[i]) by {}
    assert forall|i: int| 0 <= i < 3 implies (#[trigger] dispatches[i] == 0
        <==> outcome.after.dispatches@[i] <= outcome.before.dispatches@[i]) by {}
    if is_untouched(reads) {
        assert forall|i: int| 0 <= i < 3 implies #[trigger] outcome.after.reads@[i]
            <= outcome.before.reads@[i] by {
            assert(reads[i] == 0);
        }
    }
    if is_untouched(dispatches) {
        assert forall|i: int| 0 <= i < 3 implies #[trigger] outcome.after.dispatches@[i]
            <= outcome.before.dispatches@[i] by {
            assert(dispatches[i] == 0);
        }
    }
    if forall|i: int| 0 <= i < 3 ==> #[trigger] outcome.after.reads@[i] <= outcome.before.reads@[i] {
        assert forall|i: int| 0 <= i < reads.len() implies #[trigger] reads[i] == 0 by {
            assert(outcome.after.reads@[i] <= outcome.before.reads@[i]);
        }
    }
    if forall|i: int|
        0 <= i < 3 ==> #[trigger] outcome.after.dispatches@[i] <= outcome.before.dispatches@[i] {
        assert forall|i: int| 0 <= i < dispatches.len() implies #[trigger] dispatches[i] == 0 by {
            assert(outcome.after.dispatches@[i] <= outcome.before.dispatches@[i]);
        }
    }
}

/// What the counters grew by takes each from its earlier reading to its later
/// one, the dispatches and the reads each by their own.
pub proof fn lemma_deltas_reach_the_later_reading(before: Counters, after: Counters, i: int)
    requires
        0 <= i < 3,
        before.dispatches@[i] <= after.dispatches@[i],
        before.reads@[i] <= after.reads@[i],
    ensures
        before.dispatches@[i] + dispatched(before, after)[i] == after.dispatches@[i],
        before.reads@[i] + read(before, after)[i] == after.reads@[i],
{
}

/// A scenario that has only begun proves nothing: nothing is complete, and no
/// evidence of it passes.
pub proof fn lemma_no_evidence_proves_nothing(delta: [u64; 3], cleanup_joined: bool)
    ensures
        !is_complete((C10ActualPathEvidence { cleanup_joined, ..no_evidence(delta) })),
        no_evidence(delta).relay_count == 3,
        !no_evidence(delta).cleanup_joined,
{
}

} // verus!
