//! The rows of the public negative-admission matrix, in the order in which
//! they run, and the evidence that they add up to.

use vstd::prelude::*;
use vstd::string::*;

use crate::admission::{
    admission_failure, capped, check_closed_path, check_cross_scope, check_forged_headers,
    check_lookup, check_named, check_owner_loss, check_route_label, common_dispatch_delta,
    common_growth, counter_at, failed_steps, failure_text, flag_rules, flag_text, is_lookup,
    is_owner_loss, is_refused_label, is_unscoped, label_failure, lemma_common_delta_covers_each,
    lemma_no_dispatch, lemma_no_other_dispatch, lemma_passing_evidence_measured,
    node_dispatch_delta, numbered,
    other_dispatch_delta, other_growth, unexpected_text, validate_admission_evidence,
    with_admission_cleanup_failures, AdmissionEvidence, AdmissionFailure, CleanupStep, StreamProbe,
    CLOSED_PATHS, ROUTE_LABELS,
};
use crate::c10::{growth, label_view};
use crate::error::{ErrorView, HarnessError};
use crate::ordered::{listing, OrderedMap};
use crate::rules::{all_hold, lemma_first_broken};
use crate::text::{decimal, same_text};

verus! {

/// A negative that one ingress must refuse.
#[derive(Clone, Copy, Debug, Eq, PartialEq, Structural)]
pub enum NegativeRow {
    AbsentRemote,
    AbsentLocal,
    InactiveRemote,
    InactiveLocal,
    UnknownServiceRemote,
    UnknownServiceLocal,
    ForgedRemote,
    ForgedLocal,
}

impl NegativeRow {
    /// The code that the refusal names.
    pub open spec fn expected_code(self) -> Seq<char> {
        match self {
            NegativeRow::UnknownServiceRemote | NegativeRow::UnknownServiceLocal =>
                "SERVICE_NOT_FOUND"@,
            _ => "DEVICE_NOT_FOUND"@,
        }
    }

    /// What the row is called where it fails.
    pub open spec fn title(self) -> Seq<char> {
        match self {
            NegativeRow::AbsentRemote => "absent target"@,
            NegativeRow::AbsentLocal => "absent target through owner-local ingress"@,
            NegativeRow::InactiveRemote => "inactive target"@,
            NegativeRow::InactiveLocal => "inactive target through owner-local ingress"@,
            NegativeRow::UnknownServiceRemote => "unknown service target"@,
            NegativeRow::UnknownServiceLocal =>
                "unknown service target through owner-local ingress"@,
            NegativeRow::ForgedRemote => "forged cross-tenant target"@,
            NegativeRow::ForgedLocal => "forged cross-tenant target through owner-local ingress"@,
        }
    }

    fn code_text(self) -> (code: &'static str)
        ensures
            code@ == self.expected_code(),
    {
        match self {
            NegativeRow::UnknownServiceRemote | NegativeRow::UnknownServiceLocal =>
                "SERVICE_NOT_FOUND",
            _ => "DEVICE_NOT_FOUND",
        }
    }

    fn title_text(self) -> (title: &'static str)
        ensures
            title@ == self.title(),
    {
        match self {
            NegativeRow::AbsentRemote => "absent target",
            NegativeRow::AbsentLocal => "absent target through owner-local ingress",
            NegativeRow::InactiveRemote => "inactive target",
            NegativeRow::InactiveLocal => "inactive target through owner-local ingress",
            NegativeRow::UnknownServiceRemote => "unknown service target",
            NegativeRow::UnknownServiceLocal =>
                "unknown service target through owner-local ingress",
            NegativeRow::ForgedRemote => "forged cross-tenant target",
            NegativeRow::ForgedLocal => "forged cross-tenant target through owner-local ingress",
        }
    }
}

/// The negatives that were refused so far.
#[derive(Clone, Copy, Debug, Eq, PartialEq, Structural)]
pub struct Refusals {
    pub absent_remote: bool,
    pub absent_local: bool,
    pub inactive_remote: bool,
    pub inactive_local: bool,
    pub unknown_remote: bool,
    pub unknown_local: bool,
    pub forged_remote: bool,
    pub forged_local: bool,
}

impl Refusals {
    /// With this row refused too.
    pub open spec fn with(self, row: NegativeRow) -> Refusals {
        match row {
            NegativeRow::AbsentRemote => Refusals { absent_remote: true, ..self },
            NegativeRow::AbsentLocal => Refusals { absent_local: true, ..self },
            NegativeRow::InactiveRemote => Refusals { inactive_remote: true, ..self },
            NegativeRow::InactiveLocal => Refusals { inactive_local: true, ..self },
            NegativeRow::UnknownServiceRemote => Refusals { unknown_remote: true, ..self },
            NegativeRow::UnknownServiceLocal => Refusals { unknown_local: true, ..self },
            NegativeRow::ForgedRemote => Refusals { forged_remote: true, ..self },
            NegativeRow::ForgedLocal => Refusals { forged_local: true, ..self },
        }
    }

    /// Every row was refused.
    pub open spec fn all(self) -> bool {
        &&& self.absent_remote && self.absent_local
        &&& self.inactive_remote && self.inactive_local
        &&& self.unknown_remote && self.unknown_local
        &&& self.forged_remote && self.forged_local
    }
}

/// A matrix in progress.
pub struct AdmissionMatrix {
    pub refusals: Refusals,
    /// Which route labels were refused as services so far.
    pub labels_refused: [bool; 4],
    /// Which closed paths were refused so far.
    pub paths_refused: [bool; 3],
    /// The health routes were served between them.
    pub health_served: bool,
    /// The evidence of the other rows so far.
    pub evidence: AdmissionEvidence,
}

/// The evidence of a matrix of which nothing but the baselines is known.
pub open spec fn baseline_evidence(target: u64, sibling: u64) -> AdmissionEvidence {
    AdmissionEvidence {
        relay_count: 3,
        baseline_target_dispatches: target,
        baseline_sibling_dispatches: sibling,
        negative_dispatch_delta: 0,
        lookup_error_dispatch_delta: 0,
        sibling_dispatch_delta_after_owner_loss: 0,
        owner_loss_dispatch_delta: 0,
        absent_target_rejected: false,
        inactive_target_rejected: false,
        unknown_target_rejected: false,
        selected_owner_unavailable: false,
        route_allowlist_rejected: false,
        forged_identity_headers_ignored: false,
        forged_identity_http_headers_ignored: false,
        forged_identity_http_cross_scope_rejected: false,
        lookup_error_rejected: false,
        sibling_canary_survived: false,
        cleanup_joined: false,
    }
}

/// Whether the cluster started with the relays that the matrix is about.
pub fn check_relay_count(relays: usize) -> (result: Result<(), HarnessError>)
    ensures
        match result {
            Ok(()) => relays == 3,
            Err(error) => relays != 3 && error@ == ErrorView::Process(
                "public admission started "@ + decimal(relays as nat) + " relays, expected three"@,
            ),
        },
{
    if relays != 3 {
        return Err(
            HarnessError::Process(
                numbered("public admission started ", relays as u64).concat(
                    " relays, expected three",
                ),
            ),
        );
    }
    Ok(())
}

/// Whether the selected owner is still the target's owner before it is cut
/// off.
pub fn check_selected_owner(current: Option<&str>, expected: &str) -> (result: Result<
    (),
    HarnessError,
>)
    ensures
        match result {
            Ok(()) => label_view(current) == Some(expected@),
            Err(error) => label_view(current) != Some(expected@) && error@ == ErrorView::Process(
                if current is None {
                    "selected owner disappeared before relay loss"@
                } else {
                    "selected owner changed before the unavailable-owner probe"@
                },
            ),
        },
{
    match current {
        None => Err(HarnessError::process("selected owner disappeared before relay loss")),
        Some(node) => {
            if same_text(node, expected) {
                Ok(())
            } else {
                Err(
                    HarnessError::process(
                        "selected owner changed before the unavailable-owner probe",
                    ),
                )
            }
        },
    }
}

/// Whether the ingress of the fault row is neither an owner nor the sibling's
/// ingress.
pub fn check_fault_ingress(ingress: &str, target: &str, sibling: &str) -> (result: Result<
    (),
    HarnessError,
>)
    ensures
        ({
            let holds = ingress@ != target@ && ingress@ != sibling@ && ingress@ != "relay-b"@;
            match result {
                Ok(()) => holds,
                Err(error) => !holds && error@ == ErrorView::Process(
                    "public admission fault ingress overlaps an owner or sibling ingress"@,
                ),
            }
        }),
{
    if same_text(ingress, target) || same_text(ingress, sibling) || same_text(ingress, "relay-b") {
        return Err(
            HarnessError::process(
                "public admission fault ingress overlaps an owner or sibling ingress",
            ),
        );
    }
    Ok(())
}

/// Whether the fault left the owner where it was: an unavailable owner is
/// tested, not an absent one.
pub fn check_owner_after_fault(current: Option<&str>, expected: &str) -> (result: Result<
    (),
    HarnessError,
>)
    ensures
        match result {
            Ok(()) => label_view(current) == Some(expected@),
            Err(error) => label_view(current) != Some(expected@) && error@ == ErrorView::Process(
                "selected-owner peer fault cleared or changed the owner instead of testing unavailable state"@,
            ),
        },
{
    match current {
        Some(node) => {
            if same_text(node, expected) {
                return Ok(());
            }
        },
        None => {},
    }
    Err(
        HarnessError::process(
            "selected-owner peer fault cleared or changed the owner instead of testing unavailable state",
        ),
    )
}

/// What the relays of both readings dispatched between them.
pub open spec fn dispatched(before: Map<Seq<char>, u64>, after: Map<Seq<char>, u64>) -> u64 {
    capped(common_growth(listing::<String>(before.dom()), before, after))
}

/// What the relays other than `node` dispatched between the readings.
pub open spec fn dispatched_elsewhere(
    before: Map<Seq<char>, u64>,
    after: Map<Seq<char>, u64>,
    node: Seq<char>,
) -> u64 {
    capped(other_growth(listing::<String>(after.dom()), before, after, node))
}

/// What `node` dispatched between the readings.
pub open spec fn dispatched_at(
    before: Map<Seq<char>, u64>,
    after: Map<Seq<char>, u64>,
    node: Seq<char>,
) -> u64 {
    growth(counter_at(after, node), counter_at(before, node))
}

/// Every flag of a list is set.
pub open spec fn all_set(flags: Seq<bool>) -> bool {
    forall|i: int| 0 <= i < flags.len() ==> #[trigger] flags[i]
}

impl AdmissionMatrix {
    /// The public routes are exactly the allowed ones: every route label and
    /// every closed path was refused, and the health routes were served.
    pub open spec fn routes_closed(self) -> bool {
        all_set(self.labels_refused@) && all_set(self.paths_refused@) && self.health_served
    }

    fn are_routes_closed(&self) -> (closed: bool)
        ensures
            closed == self.routes_closed(),
    {
        let labels = self.labels_refused[0] && self.labels_refused[1] && self.labels_refused[2]
            && self.labels_refused[3];
        let paths = self.paths_refused[0] && self.paths_refused[1] && self.paths_refused[2];
        let closed = labels && paths && self.health_served;
        proof {
            if self.routes_closed() {
                assert(self.labels_refused@[0] && self.labels_refused@[1]
                    && self.labels_refused@[2] && self.labels_refused@[3]);
                assert(self.paths_refused@[0] && self.paths_refused@[1] && self.paths_refused@[2]);
            }
        }
        closed
    }

    /// The stream that was opened to a route label as if it were a service.
    pub fn label_refused(&mut self, index: usize, probe: &StreamProbe) -> (result: Result<
        (),
        HarnessError,
    >)
        requires
            index < ROUTE_LABELS@.len(),
        ensures
            old(self).wf() ==> final(self).wf(),
            ({
                let label = ROUTE_LABELS@[index as int]@;
                match result {
                    Ok(()) => is_refused_label(*probe) && final(self).labels_refused@ == old(
                        self,
                    ).labels_refused@.update(index as int, true) && *final(self) == (
                    AdmissionMatrix { labels_refused: final(self).labels_refused, ..*old(self) }),
                    Err(error) => !is_refused_label(*probe) && *final(self) == *old(self) && error@
                        == ErrorView::Process(label_failure(*probe, label)),
                }
            }),
    {
        match check_route_label(probe, ROUTE_LABELS[index]) {
            Ok(()) => {},
            Err(error) => {
                return Err(error);
            },
        }
        let mut flags = self.labels_refused;
        flags[index] = true;
        self.labels_refused = flags;
        Ok(())
    }

    /// The health routes: served, or why they were not.
    pub fn healthy(&mut self, health: Result<(), HarnessError>) -> (result: Result<
        (),
        HarnessError,
    >)
        ensures
            old(self).wf() ==> final(self).wf(),
            result == health,
            *final(self) == (AdmissionMatrix {
                health_served: old(self).health_served || health is Ok,
                ..*old(self)
            }),
    {
        if health.is_ok() {
            self.health_served = true;
        }
        health
    }

    /// The status of a path that the public listener must not serve.
    pub fn path_refused(&mut self, index: usize, status: u16) -> (result: Result<
        (),
        HarnessError,
    >)
        requires
            index < CLOSED_PATHS@.len(),
        ensures
            old(self).wf() ==> final(self).wf(),
            ({
                let path = CLOSED_PATHS@[index as int]@;
                match result {
                    Ok(()) => status == 404 && final(self).paths_refused@ == old(
                        self,
                    ).paths_refused@.update(index as int, true) && *final(self) == (
                    AdmissionMatrix { paths_refused: final(self).paths_refused, ..*old(self) }),
                    Err(error) => status != 404 && *final(self) == *old(self) && error@
                        == ErrorView::Process(
                        "public route "@ + path + " returned status "@ + decimal(status as nat)
                            + ", expected 404"@,
                    ),
                }
            }),
    {
        match check_closed_path(CLOSED_PATHS[index], status) {
            Ok(()) => {},
            Err(error) => {
                return Err(error);
            },
        }
        let mut flags = self.paths_refused;
        flags[index] = true;
        self.paths_refused = flags;
        Ok(())
    }

    /// A matrix whose baseline canaries dispatched on both owners.
    pub fn new(target: u64, sibling: u64) -> (result: Result<Self, HarnessError>)
        ensures
            result is Ok ==> result->Ok_0.wf(),
            match result {
                Ok(matrix) => target > 0 && sibling > 0 && matrix.evidence == baseline_evidence(
                    target,
                    sibling,
                ) && matrix.refusals == (Refusals {
                    absent_remote: false,
                    absent_local: false,
                    inactive_remote: false,
                    inactive_local: false,
                    unknown_remote: false,
                    unknown_local: false,
                    forged_remote: false,
                    forged_local: false,
                }) && matrix.labels_refused@ == seq![false, false, false, false]
                    && matrix.paths_refused@ == seq![false, false, false] && !matrix.health_served,
                Err(error) => (target == 0 || sibling == 0) && error@ == ErrorView::Process(
                    "public admission baseline canaries did not dispatch"@,
                ),
            },
    {
        if target == 0 || sibling == 0 {
            return Err(
                HarnessError::process("public admission baseline canaries did not dispatch"),
            );
        }
        Ok(
            AdmissionMatrix {
                refusals: Refusals {
                    absent_remote: false,
                    absent_local: false,
                    inactive_remote: false,
                    inactive_local: false,
                    unknown_remote: false,
                    unknown_local: false,
                    forged_remote: false,
                    forged_local: false,
                },
                labels_refused: [false, false, false, false],
                paths_refused: [false, false, false],
                health_served: false,
                evidence: AdmissionEvidence {
                    relay_count: 3,
                    baseline_target_dispatches: target,
                    baseline_sibling_dispatches: sibling,
                    negative_dispatch_delta: 0,
                    lookup_error_dispatch_delta: 0,
                    sibling_dispatch_delta_after_owner_loss: 0,
                    owner_loss_dispatch_delta: 0,
                    absent_target_rejected: false,
                    inactive_target_rejected: false,
                    unknown_target_rejected: false,
                    selected_owner_unavailable: false,
                    route_allowlist_rejected: false,
                    forged_identity_headers_ignored: false,
                    forged_identity_http_headers_ignored: false,
                    forged_identity_http_cross_scope_rejected: false,
                    lookup_error_rejected: false,
                    sibling_canary_survived: false,
                    cleanup_joined: false,
                },
            },
        )
    }

    /// The streams opened with forged identity headers at both ingresses.
    pub fn forged_streams(&mut self, remote: bool, local: bool) -> (result: Result<
        (),
        HarnessError,
    >)
        ensures
            old(self).wf() ==> final(self).wf(),
            match result {
                Ok(()) => remote && local && *final(self) == (AdmissionMatrix {
                    evidence: AdmissionEvidence {
                        forged_identity_headers_ignored: true,
                        ..old(self).evidence
                    },
                    ..*old(self)
                }),
                Err(error) => !(remote && local) && *final(self) == *old(self) && error@
                    == ErrorView::Process(
                    "forged public identity headers changed an otherwise valid admission"@,
                ),
            },
    {
        if !(remote && local) {
            return Err(
                HarnessError::process(
                    "forged public identity headers changed an otherwise valid admission",
                ),
            );
        }
        self.evidence.forged_identity_headers_ignored = true;
        Ok(())
    }

    /// The echoes sent with forged identity headers to both ingresses, and the
    /// dispatch counters around them.
    pub fn forged_echoes(
        &mut self,
        remote: bool,
        local: bool,
        before: &OrderedMap<String, u64>,
        after: &OrderedMap<String, u64>,
        owner: &String,
    ) -> (result: Result<(), HarnessError>)
        requires
            before.wf(),
            after.wf(),
        ensures
            old(self).wf() ==> final(self).wf(),
            ({
                let at_owner = dispatched_at(before@, after@, owner@);
                let elsewhere = dispatched_elsewhere(before@, after@, owner@);
                let holds = remote && local && at_owner == 8 && elsewhere == 0;
                match result {
                    Ok(()) => holds && *final(self) == (AdmissionMatrix {
                        evidence: AdmissionEvidence {
                            forged_identity_http_headers_ignored: true,
                            ..old(self).evidence
                        },
                        ..*old(self)
                    }),
                    Err(error) => !holds && *final(self) == *old(self) && error@
                        == ErrorView::Process(
                        "HTTPS forged identity headers changed owner-local/remote scope or dispatch: remote_ok="@
                            + flag_text(remote) + ", local_ok="@ + flag_text(local)
                            + ", target_dispatch_delta="@ + decimal(at_owner as nat)
                            + ", other_dispatch_delta="@ + decimal(elsewhere as nat),
                    ),
                }
            }),
    {
        let at_owner = node_dispatch_delta(before, after, owner);
        let elsewhere = other_dispatch_delta(before, after, owner);
        match check_forged_headers(remote, local, at_owner, elsewhere) {
            Ok(()) => {
                self.evidence.forged_identity_http_headers_ignored = true;
                Ok(())
            },
            Err(error) => Err(error),
        }
    }

    /// The echoes to another tenant's device at both ingresses, and the
    /// dispatch counters around them.
    pub fn cross_scope(
        &mut self,
        remote: &AdmissionFailure,
        local: &AdmissionFailure,
        before: &OrderedMap<String, u64>,
        after: &OrderedMap<String, u64>,
    ) -> (result: Result<(), HarnessError>)
        requires
            before.wf(),
            after.wf(),
        ensures
            old(self).wf() ==> final(self).wf(),
            ({
                let delta = dispatched(before@, after@);
                let holds = is_unscoped(remote@) && is_unscoped(local@) && delta == 0;
                match result {
                    Ok(()) => holds && *final(self) == (AdmissionMatrix {
                        evidence: AdmissionEvidence {
                            forged_identity_http_cross_scope_rejected: true,
                            ..old(self).evidence
                        },
                        ..*old(self)
                    }),
                    Err(error) => !holds && *final(self) == *old(self) && error@
                        == ErrorView::Process(
                        "HTTPS forged cross-scope identity was not rejected before owner-local/remote dispatch: remote="@
                            + failure_text(remote@) + ", local="@ + failure_text(local@)
                            + ", dispatch_delta="@ + decimal(delta as nat),
                    ),
                }
            }),
    {
        let delta = common_dispatch_delta(before, after);
        match check_cross_scope(remote, local, delta) {
            Ok(()) => {
                self.evidence.forged_identity_http_cross_scope_rejected = true;
                Ok(())
            },
            Err(error) => Err(error),
        }
    }

    /// One negative at one ingress.
    pub fn refused(&mut self, row: NegativeRow, probe: &StreamProbe) -> (result: Result<
        (),
        HarnessError,
    >)
        ensures
            old(self).wf() ==> final(self).wf(),
            ({
                let holds = *probe is Rejected && probe->Rejected_0@.status == 404
                    && probe->Rejected_0@.code == Some(row.expected_code());
                match result {
                    Ok(()) => holds && *final(self) == (AdmissionMatrix {
                        refusals: old(self).refusals.with(row),
                        ..*old(self)
                    }),
                    Err(error) => !holds && *final(self) == *old(self) && error@
                        == ErrorView::Process(
                        match *probe {
                            StreamProbe::Accepted => row.title()
                                + " unexpectedly upgraded a consumer stream"@,
                            StreamProbe::Rejected(failure) => unexpected_text(
                                row.title(),
                                failure@,
                            ),
                        },
                    ),
                }
            }),
    {
        match check_named(probe, row.code_text(), row.title_text()) {
            Ok(()) => {},
            Err(error) => {
                return Err(error);
            },
        }
        match row {
            NegativeRow::AbsentRemote => self.refusals.absent_remote = true,
            NegativeRow::AbsentLocal => self.refusals.absent_local = true,
            NegativeRow::InactiveRemote => self.refusals.inactive_remote = true,
            NegativeRow::InactiveLocal => self.refusals.inactive_local = true,
            NegativeRow::UnknownServiceRemote => self.refusals.unknown_remote = true,
            NegativeRow::UnknownServiceLocal => self.refusals.unknown_local = true,
            NegativeRow::ForgedRemote => self.refusals.forged_remote = true,
            NegativeRow::ForgedLocal => self.refusals.forged_local = true,
        }
        Ok(())
    }

    /// The dispatch counters around the negatives and the closed routes.  The
    /// allowlist holds only if every closed route was refused by then.
    pub fn negatives(
        &mut self,
        before: &OrderedMap<String, u64>,
        after: &OrderedMap<String, u64>,
    ) -> (result: Result<(), HarnessError>)
        requires
            before.wf(),
            after.wf(),
        ensures
            old(self).wf() ==> final(self).wf(),
            ({
                let delta = dispatched(before@, after@);
                match result {
                    Ok(()) => delta == 0 && *final(self) == (AdmissionMatrix {
                        evidence: AdmissionEvidence {
                            route_allowlist_rejected: old(self).routes_closed(),
                            negative_dispatch_delta: 0,
                            ..old(self).evidence
                        },
                        ..*old(self)
                    }),
                    Err(error) => delta != 0 && *final(self) == *old(self) && error@
                        == ErrorView::Process(
                        "public admission negative matrix advanced application dispatches by "@
                            + decimal(delta as nat),
                    ),
                }
            }),
    {
        let delta = common_dispatch_delta(before, after);
        if delta != 0 {
            return Err(
                HarnessError::Process(
                    numbered(
                        "public admission negative matrix advanced application dispatches by ",
                        delta,
                    ),
                ),
            );
        }
        let closed = self.are_routes_closed();
        self.evidence.route_allowlist_rejected = closed;
        self.evidence.negative_dispatch_delta = 0;
        Ok(())
    }

    /// The answer of the cut-off owner's ingress.
    pub fn owner_lost(&mut self, failure: &AdmissionFailure) -> (result: Result<(), HarnessError>)
        ensures
            old(self).wf() ==> final(self).wf(),
            match result {
                Ok(()) => is_owner_loss(failure@) && *final(self) == (AdmissionMatrix {
                    evidence: AdmissionEvidence {
                        selected_owner_unavailable: true,
                        ..old(self).evidence
                    },
                    ..*old(self)
                }),
                Err(error) => !is_owner_loss(failure@) && *final(self) == *old(self) && error@
                    == ErrorView::Process(unexpected_text("selected-owner loss"@, failure@)),
            },
    {
        match check_owner_loss(failure) {
            Ok(()) => {
                self.evidence.selected_owner_unavailable = true;
                Ok(())
            },
            Err(error) => Err(error),
        }
    }

    /// The dispatch counters around the owner's loss: nothing on the owner,
    /// and exactly the one canary on the sibling's owner.
    pub fn sibling_survived(
        &mut self,
        before: &OrderedMap<String, u64>,
        after: &OrderedMap<String, u64>,
        target: &String,
        sibling: &String,
    ) -> (result: Result<(), HarnessError>)
        requires
            before.wf(),
            after.wf(),
        ensures
            old(self).wf() ==> final(self).wf(),
            ({
                let lost = dispatched_at(before@, after@, target@);
                let canary = dispatched_at(before@, after@, sibling@);
                match result {
                    Ok(()) => lost == 0 && canary == 1 && *final(self) == (AdmissionMatrix {
                        evidence: AdmissionEvidence {
                            owner_loss_dispatch_delta: 0,
                            sibling_dispatch_delta_after_owner_loss: 1,
                            sibling_canary_survived: true,
                            ..old(self).evidence
                        },
                        ..*old(self)
                    }),
                    Err(error) => !(lost == 0 && canary == 1) && *final(self) == *old(self)
                        && error@ == ErrorView::Process(
                        if lost != 0 {
                            "selected-owner fault advanced application dispatches by "@ + decimal(
                                lost as nat,
                            )
                        } else {
                            "sibling canary dispatch delta after selected-owner loss was "@
                                + decimal(canary as nat)
                        },
                    ),
                }
            }),
    {
        let lost = node_dispatch_delta(before, after, target);
        if lost != 0 {
            return Err(
                HarnessError::Process(
                    numbered("selected-owner fault advanced application dispatches by ", lost),
                ),
            );
        }
        let canary = node_dispatch_delta(before, after, sibling);
        if canary != 1 {
            return Err(
                HarnessError::Process(
                    numbered(
                        "sibling canary dispatch delta after selected-owner loss was ",
                        canary,
                    ),
                ),
            );
        }
        self.evidence.owner_loss_dispatch_delta = 0;
        self.evidence.sibling_dispatch_delta_after_owner_loss = 1;
        self.evidence.sibling_canary_survived = true;
        Ok(())
    }

    /// The stream that was opened while no lookup could prove authorization.
    pub fn lookup_failed(&mut self, probe: &StreamProbe) -> (result: Result<(), HarnessError>)
        ensures
            old(self).wf() ==> final(self).wf(),
            ({
                let holds = *probe is Rejected && is_lookup(probe->Rejected_0@);
                match result {
                    Ok(()) => holds && *final(self) == (AdmissionMatrix {
                        evidence: AdmissionEvidence {
                            lookup_error_rejected: true,
                            ..old(self).evidence
                        },
                        ..*old(self)
                    }),
                    Err(error) => !holds && *final(self) == *old(self) && error@
                        == ErrorView::Process(
                        match *probe {
                            StreamProbe::Accepted =>
                                "Redis lookup failure unexpectedly upgraded a consumer stream"@,
                            StreamProbe::Rejected(failure) => unexpected_text(
                                "Redis lookup negative"@,
                                failure@,
                            ),
                        },
                    ),
                }
            }),
    {
        match check_lookup(probe) {
            Ok(()) => {
                self.evidence.lookup_error_rejected = true;
                Ok(())
            },
            Err(error) => Err(error),
        }
    }

    /// The dispatch counters around the failed lookup.
    pub fn lookup_dispatched_nothing(
        &mut self,
        before: &OrderedMap<String, u64>,
        after: &OrderedMap<String, u64>,
    ) -> (result: Result<(), HarnessError>)
        requires
            before.wf(),
            after.wf(),
        ensures
            old(self).wf() ==> final(self).wf(),
            ({
                let delta = dispatched(before@, after@);
                let rejected = old(self).evidence.lookup_error_rejected;
                let holds = rejected && delta == 0;
                match result {
                    Ok(()) => holds && *final(self) == (AdmissionMatrix {
                        evidence: AdmissionEvidence {
                            lookup_error_dispatch_delta: 0,
                            ..old(self).evidence
                        },
                        ..*old(self)
                    }),
                    Err(error) => !holds && *final(self) == *old(self) && error@
                        == ErrorView::Process(
                        "Redis lookup failure was not a typed no-dispatch result: rejected="@
                            + flag_text(rejected) + ", delta="@ + decimal(delta as nat),
                    ),
                }
            }),
    {
        let delta = common_dispatch_delta(before, after);
        if !self.evidence.lookup_error_rejected || delta != 0 {
            let flag = crate::admission::write_flag(self.evidence.lookup_error_rejected);
            return Err(
                HarnessError::Process(
                    numbered(
                        "Redis lookup failure was not a typed no-dispatch result: rejected=".to_owned().concat(
                        flag).concat(", delta=").as_str(),
                        delta,
                    ),
                ),
            );
        }
        self.evidence.lookup_error_dispatch_delta = 0;
        Ok(())
    }

    /// The evidence of the rows, before the cleanup.
    pub open spec fn result(self) -> AdmissionEvidence {
        AdmissionEvidence {
            absent_target_rejected: self.refusals.absent_remote && self.refusals.absent_local,
            inactive_target_rejected: self.refusals.inactive_remote && self.refusals.inactive_local,
            unknown_target_rejected: self.refusals.unknown_remote && self.refusals.unknown_local
                && self.refusals.forged_remote && self.refusals.forged_local,
            cleanup_joined: false,
            ..self.evidence
        }
    }

    /// The evidence of the rows.  The cleanup is still to come.
    pub fn finish(self) -> (evidence: AdmissionEvidence)
        ensures
            evidence == self.result(),
    {
        let mut evidence = self.evidence;
        evidence.absent_target_rejected = self.refusals.absent_remote && self.refusals.absent_local;
        evidence.inactive_target_rejected = self.refusals.inactive_remote
            && self.refusals.inactive_local;
        evidence.unknown_target_rejected = self.refusals.unknown_remote
            && self.refusals.unknown_local && self.refusals.forged_remote
            && self.refusals.forged_local;
        evidence.cleanup_joined = false;
        evidence
    }

    /// Every row of the matrix was accepted.
    pub open spec fn complete(self) -> bool {
        &&& self.refusals.all()
        &&& self.evidence.forged_identity_headers_ignored
        &&& self.evidence.forged_identity_http_headers_ignored
        &&& self.evidence.forged_identity_http_cross_scope_rejected
        &&& self.evidence.route_allowlist_rejected
        &&& self.evidence.selected_owner_unavailable
        &&& self.evidence.sibling_canary_survived
        &&& self.evidence.lookup_error_rejected
    }

    /// What holds of every matrix in progress: the relays and baselines of its
    /// beginning, deltas of zero, an allowlist only with every closed route
    /// refused, and a surviving sibling only with the one canary counted.
    pub open spec fn wf(self) -> bool {
        &&& self.evidence.relay_count == 3
        &&& self.evidence.baseline_target_dispatches > 0
        &&& self.evidence.baseline_sibling_dispatches > 0
        &&& self.evidence.negative_dispatch_delta == 0
        &&& self.evidence.lookup_error_dispatch_delta == 0
        &&& self.evidence.owner_loss_dispatch_delta == 0
        &&& self.evidence.route_allowlist_rejected ==> self.routes_closed()
        &&& self.evidence.sibling_canary_survived
            ==> self.evidence.sibling_dispatch_delta_after_owner_loss == 1
    }
}

/// A matrix all of whose rows were accepted, and whose cleanup joined, passes;
/// and its rows are only all accepted with every closed route refused.
pub proof fn lemma_complete_matrix_passes(matrix: AdmissionMatrix)
    requires
        matrix.wf(),
        matrix.complete(),
    ensures
        admission_failure(
            (AdmissionEvidence { cleanup_joined: true, ..matrix.result() }),
        ) is None,
        matrix.routes_closed(),
{
    let evidence = AdmissionEvidence { cleanup_joined: true, ..matrix.result() };
    lemma_first_broken(flag_rules(evidence));
    assert(all_hold(flag_rules(evidence)));
}

/// A matrix of which any row is missing fails, whatever the cleanup did.
pub proof fn lemma_incomplete_matrix_fails(matrix: AdmissionMatrix, cleanup_joined: bool)
    requires
        !matrix.complete(),
    ensures
        admission_failure((AdmissionEvidence { cleanup_joined, ..matrix.result() })) is Some,
{
    let evidence = AdmissionEvidence { cleanup_joined, ..matrix.result() };
    let rules = flag_rules(evidence);
    lemma_first_broken(rules);
    if admission_failure(evidence) is None {
        assert(all_hold(rules));
        assert(rules[0].1 && rules[1].1 && rules[2].1 && rules[3].1 && rules[4].1 && rules[5].1);
        assert(rules[6].1 && rules[7].1 && rules[8].1 && rules[9].1);
    }
}

/// The result of the rows and of the two client cleanups: the first failure,
/// of the rows before the sibling before the target.
pub fn conclude_matrix(
    rows: Result<AdmissionEvidence, HarnessError>,
    sibling: Result<(), HarnessError>,
    target: Result<(), HarnessError>,
) -> (result: Result<AdmissionEvidence, HarnessError>)
    ensures
        match (rows, sibling, target) {
            (Err(error), _, _) => result == Err::<AdmissionEvidence, HarnessError>(error),
            (Ok(_), Err(error), _) => result == Err::<AdmissionEvidence, HarnessError>(error),
            (Ok(_), Ok(()), Err(error)) => result == Err::<AdmissionEvidence, HarnessError>(error),
            (Ok(evidence), Ok(()), Ok(())) => result == Ok::<AdmissionEvidence, HarnessError>(
                evidence,
            ),
        },
{
    match rows {
        Err(error) => Err(error),
        Ok(evidence) => match sibling {
            Err(error) => Err(error),
            Ok(()) => match target {
                Err(error) => Err(error),
                Ok(()) => Ok(evidence),
            },
        },
    }
}

/// The result of the whole gate from its scenario and the steps of its
/// cleanup.  Only a run whose every cleanup step succeeded is judged.
pub fn conclude_admission(
    scenario: Result<AdmissionEvidence, HarnessError>,
    steps: &Vec<CleanupStep>,
) -> (result: Result<AdmissionEvidence, HarnessError>)
    ensures
        ({
            let failed = failed_steps(steps@);
            let listed = "; cleanup failures: "@ + crate::text::joined(failed, "; "@);
            match scenario {
                Err(primary) => result is Err && result->Err_0@ == if failed.len() == 0 {
                    primary@
                } else {
                    ErrorView::Process(primary@.text() + listed)
                },
                Ok(evidence) => if failed.len() > 0 {
                    result is Err && result->Err_0@ == ErrorView::Process(
                        ErrorView::Process(
                            "public admission scenario completed but cleanup failed"@,
                        ).text() + listed,
                    )
                } else {
                    let joined = AdmissionEvidence { cleanup_joined: true, ..evidence };
                    match admission_failure(joined) {
                        None => result == Ok::<AdmissionEvidence, HarnessError>(joined),
                        Some(text) => result is Err && result->Err_0@ == ErrorView::Process(text),
                    }
                },
            }
        }),
{
    match scenario {
        Err(primary) => {
            let ghost view = primary@;
            let error = with_admission_cleanup_failures(primary, steps);
            assert(view.text() + ("; cleanup failures: "@ + crate::text::joined(
                failed_steps(steps@),
                "; "@,
            )) =~= view.text() + "; cleanup failures: "@ + crate::text::joined(
                failed_steps(steps@),
                "; "@,
            ));
            Err(error)
        },
        Ok(evidence) => {
            let mut joined = evidence;
            if any_failed(steps) {
                let primary = HarnessError::process(
                    "public admission scenario completed but cleanup failed",
                );
                let ghost view = primary@;
                let error = with_admission_cleanup_failures(primary, steps);
                assert(view.text() + ("; cleanup failures: "@ + crate::text::joined(
                    failed_steps(steps@),
                    "; "@,
                )) =~= view.text() + "; cleanup failures: "@ + crate::text::joined(
                    failed_steps(steps@),
                    "; "@,
                ));
                return Err(error);
            }
            joined.cleanup_joined = true;
            match validate_admission_evidence(&joined) {
                Ok(()) => Ok(joined),
                Err(error) => Err(error),
            }
        },
    }
}

fn any_failed(steps: &Vec<CleanupStep>) -> (failed: bool)
    ensures
        failed == (failed_steps(steps@).len() > 0),
{
    let mut failed = false;
    let mut i: usize = 0;
    assert(steps@.take(0) =~= Seq::<CleanupStep>::empty());
    while i < steps.len()
        invariant
            i <= steps.len(),
            failed == (failed_steps(steps@.take(i as int)).len() > 0),
        decreases steps.len() - i,
    {
        assert(steps@.take(i + 1).drop_last() =~= steps@.take(i as int));
        if steps[i].failure.is_some() {
            failed = true;
        }
        i += 1;
    }
    assert(steps@.take(i as int) =~= steps@);
    failed
}

/// A refused row is marked, no other row's mark changes, and the marks do not
/// depend on the order in which the rows were refused.
pub proof fn lemma_rows_are_marked(refusals: Refusals, row: NegativeRow, other: NegativeRow)
    ensures
        refusals.with(row).with(row) == refusals.with(row),
        refusals.with(row).with(other) == refusals.with(other).with(row),
        refusals.with(row).absent_remote == (refusals.absent_remote || row
            == NegativeRow::AbsentRemote),
        refusals.with(row).absent_local == (refusals.absent_local || row
            == NegativeRow::AbsentLocal),
        refusals.with(row).inactive_remote == (refusals.inactive_remote || row
            == NegativeRow::InactiveRemote),
        refusals.with(row).inactive_local == (refusals.inactive_local || row
            == NegativeRow::InactiveLocal),
        refusals.with(row).unknown_remote == (refusals.unknown_remote || row
            == NegativeRow::UnknownServiceRemote),
        refusals.with(row).unknown_local == (refusals.unknown_local || row
            == NegativeRow::UnknownServiceLocal),
        refusals.with(row).forged_remote == (refusals.forged_remote || row
            == NegativeRow::ForgedRemote),
        refusals.with(row).forged_local == (refusals.forged_local || row
            == NegativeRow::ForgedLocal),
{
}

/// Only a row about a service names a missing service; every other names a
/// missing device.
pub proof fn lemma_row_codes(row: NegativeRow)
    ensures
        row.expected_code() == "SERVICE_NOT_FOUND"@ <==> row == NegativeRow::UnknownServiceRemote
            || row == NegativeRow::UnknownServiceLocal,
        row.expected_code() == "DEVICE_NOT_FOUND"@ <==> row != NegativeRow::UnknownServiceRemote
            && row != NegativeRow::UnknownServiceLocal,
{
    reveal_strlit("DEVICE_NOT_FOUND");
    reveal_strlit("SERVICE_NOT_FOUND");
    assert("DEVICE_NOT_FOUND"@[0] != "SERVICE_NOT_FOUND"@[0]);
}

/// What a finished matrix shows of its rows: a target is rejected only where
/// both ingresses refused it, the forged rows count among the unknown targets,
/// the cleanup is still open, and the rest stands as it was measured.
pub proof fn lemma_result_shows_both_ingresses(matrix: AdmissionMatrix)
    ensures
        matrix.result().absent_target_rejected <==> matrix.refusals.absent_remote
            && matrix.refusals.absent_local,
        matrix.result().inactive_target_rejected <==> matrix.refusals.inactive_remote
            && matrix.refusals.inactive_local,
        matrix.result().unknown_target_rejected <==> matrix.refusals.unknown_remote
            && matrix.refusals.unknown_local && matrix.refusals.forged_remote
            && matrix.refusals.forged_local,
        !matrix.result().cleanup_joined,
        matrix.result().negative_dispatch_delta == matrix.evidence.negative_dispatch_delta,
        matrix.result().lookup_error_dispatch_delta == matrix.evidence.lookup_error_dispatch_delta,
        matrix.result().owner_loss_dispatch_delta == matrix.evidence.owner_loss_dispatch_delta,
        matrix.result().sibling_dispatch_delta_after_owner_loss
            == matrix.evidence.sibling_dispatch_delta_after_owner_loss,
        matrix.result().relay_count == matrix.evidence.relay_count,
        matrix.result().baseline_target_dispatches == matrix.evidence.baseline_target_dispatches,
        matrix.result().baseline_sibling_dispatches == matrix.evidence.baseline_sibling_dispatches,
{
}

/// The routes are closed exactly when each of the four labels and each of the
/// three paths was refused and the health routes were served.
pub proof fn lemma_closed_routes(matrix: AdmissionMatrix)
    ensures
        matrix.routes_closed() <==> {
            &&& matrix.labels_refused@[0] && matrix.labels_refused@[1]
            &&& matrix.labels_refused@[2] && matrix.labels_refused@[3]
            &&& matrix.paths_refused@[0] && matrix.paths_refused@[1] && matrix.paths_refused@[2]
            &&& matrix.health_served
        },
{
    if matrix.routes_closed() {
        assert(matrix.labels_refused@[0] && matrix.labels_refused@[1] && matrix.labels_refused@[2]
            && matrix.labels_refused@[3]);
        assert(matrix.paths_refused@[0] && matrix.paths_refused@[1] && matrix.paths_refused@[2]);
    }
}

/// What one relay dispatched is part of what all of them did: where both
/// readings have the same relays, nothing was dispatched in all exactly when
/// the node dispatched nothing and nothing was dispatched elsewhere.
pub proof fn lemma_dispatches_split_by_node(
    before: Map<Seq<char>, u64>,
    after: Map<Seq<char>, u64>,
    node: Seq<char>,
)
    requires
        before.dom().finite(),
        before.dom() == after.dom(),
    ensures
        dispatched(before, after) == 0 <==> dispatched_at(before, after, node) == 0
            && dispatched_elsewhere(before, after, node) == 0,
        dispatched(before, after) >= dispatched_at(before, after, node),
        dispatched_at(before, after, node) == if !after.dom().contains(node) || after[node]
            <= before[node] {
            0
        } else {
            after[node] - before[node]
        },
{
    lemma_no_dispatch(before, after);
    lemma_no_other_dispatch(before, after, node);
    if before.dom().contains(node) {
        lemma_common_delta_covers_each(before, after, node);
    }
    if dispatched(before, after) == 0 {
        assert forall|relay: Seq<char>| #[trigger]
            after.dom().contains(relay) && relay != node implies if before.dom().contains(relay) {
            after[relay] <= before[relay]
        } else {
            after[relay] == 0
        } by {
            assert(before.dom().contains(relay));
        }
    }
    if dispatched_at(before, after, node) == 0 && dispatched_elsewhere(before, after, node) == 0 {
        assert forall|relay: Seq<char>| #[trigger]
            before.dom().contains(relay) && after.dom().contains(relay) implies after[relay]
            <= before[relay] by {
            if relay != node {
                assert(after.dom().contains(relay));
            }
        }
    }
}

/// A matrix that has only begun shows its baselines and nothing else: no flag
/// is set, nothing was dispatched, and it does not pass.
pub proof fn lemma_baseline_shows_nothing_else(target: u64, sibling: u64, cleanup_joined: bool)
    ensures
        baseline_evidence(target, sibling).relay_count == 3,
        baseline_evidence(target, sibling).baseline_target_dispatches == target,
        baseline_evidence(target, sibling).baseline_sibling_dispatches == sibling,
        baseline_evidence(target, sibling).negative_dispatch_delta == 0,
        baseline_evidence(target, sibling).lookup_error_dispatch_delta == 0,
        baseline_evidence(target, sibling).owner_loss_dispatch_delta == 0,
        admission_failure(
            (AdmissionEvidence { cleanup_joined, ..baseline_evidence(target, sibling) }),
        ) is Some,
{
    let evidence = AdmissionEvidence { cleanup_joined, ..baseline_evidence(target, sibling) };
    lemma_passing_evidence_measured(evidence);
}

} // verus!
