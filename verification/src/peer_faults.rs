//! Peer fault tuples, the requirements a run declares for them, and the strict
//! reading of the relay's peer fault table.

use vstd::prelude::*;
use vstd::string::*;
use vstd::utf8::*;

use crate::ordered::{text_before, Ordered, OrderedSet};
use crate::rules::{
    all_hold, chained, first_broken, is_listed, lemma_all_hold_chained, lemma_chained_broken,
    lemma_chained_step, lemma_first_broken, listed, Audit,
};
use crate::scan_failure::{requirement_text, slashed, RequirementKey, ScanFailure};
use crate::text::{join_texts, same_text, split_on, split_text, views};

verus! {

/// The relay's bounded ring size; a snapshot claiming more is not the relay's.
pub const MAX_PEER_FAULT_RECENT: usize = 32;

/// Relay bound on the retained closure ring.
pub const MAX_TASK_CLOSURE_RECENT: usize = 32;

/// The longest identifier the harness accepts, in bytes.
pub const MAX_TOKEN_BYTES: usize = 128;

/// The relay's closed peer fault stage vocabulary, in dispatch order.
pub const PEER_FAULT_STAGES: [&'static str; 11] = [
    "validation",
    "pool_connect",
    "stream_permit_checkout",
    "sender_lock",
    "h3_dispatch",
    "envelope_send",
    "complete",
    "head",
    "body",
    "lease",
    "owner",
];

/// The relay's closed peer fault cause vocabulary.
pub const PEER_FAULT_CAUSES: [&'static str; 26] = [
    "no_live_owner",
    "catalog",
    "membership",
    "invalid_endpoint",
    "identity_mismatch",
    "transport_timeout",
    "transport_goaway",
    "transport_cancelled",
    "transport_h3",
    "transport_quic",
    "transport_capacity",
    "transport_pins_unavailable",
    "transport_body_limit",
    "transport_other",
    "envelope",
    "frame",
    "remote_unauthorized",
    "remote_forbidden",
    "remote_status",
    "invalid_route",
    "unexpected_record",
    "owner_not_ready",
    "capacity",
    "membership_expired",
    "closed",
    "deadline",
];

/// The two ends of a peer hop.
pub const PEER_FAULT_ROLES: [&'static str; 2] = ["ingress", "owner"];

/// The members of the relay's peer fault table.
pub const PEER_FAULT_SNAPSHOT_KEYS: [&'static str; 10] = [
    "fault_count",
    "ingress_count",
    "owner_count",
    "stage_counts",
    "cause_counts",
    "last_by_stage",
    "recent",
    "closure_stage_counts",
    "closure_cause_counts",
    "closures",
];

/// Task closure lifecycle stages, kept as their own closed vocabulary.
///
/// These are lifecycle ends, not faults, and the relay keeps them in a
/// separate ring so that a routine close never reaches the fault counters.
pub const TASK_CLOSURE_STAGES: [&'static str; 3] = ["control", "data", "consumer_stream"];

/// The relay's closed task closure cause vocabulary.
pub const TASK_CLOSURE_CAUSES: [&'static str; 10] = [
    "peer_closed",
    "write_failed",
    "protocol_error",
    "record_too_large",
    "unexpected_message",
    "server_close",
    "stream_closed",
    "expired",
    "stream_failed",
    "liveness_timeout",
];

/// The members of a task closure entry.
pub const TASK_CLOSURE_EVENT_KEYS: [&'static str; 9] = [
    "sequence",
    "observed_at_ms",
    "stage",
    "cause",
    "tenant_id",
    "device_id",
    "session_id",
    "epoch",
    "stream_id",
];

/// The members of a peer fault entry.
pub const PEER_FAULT_EVENT_KEYS: [&'static str; 12] = [
    "sequence",
    "observed_at_ms",
    "role",
    "stage",
    "cause",
    "tenant_id",
    "device_id",
    "session_id",
    "owner_epoch",
    "owner_node_id",
    "service_id",
    "request_id",
];

/// The model of a peer fault tuple: its role, its stage and its cause.
pub type TupleKey = (Seq<char>, Seq<char>, Seq<char>);

/// One exact `(role, stage, cause)` peer fault tuple observed in a typed relay
/// snapshot.  Only closed vocabulary labels are ever stored.
#[derive(Clone, Debug, Eq, Ord, PartialEq, PartialOrd)]
pub struct PeerFaultTuple {
    pub role: String,
    pub stage: String,
    pub cause: String,
}

impl View for PeerFaultTuple {
    type V = TupleKey;

    open spec fn view(&self) -> TupleKey {
        (self.role@, self.stage@, self.cause@)
    }
}

/// What a tuple must be: every label in its closed vocabulary.
pub open spec fn tuple_rules(role: Seq<char>, stage: Seq<char>, cause: Seq<char>) -> Seq<
    (Seq<char>, bool),
> {
    seq![
        ("role outside the closed vocabulary"@, listed(PEER_FAULT_ROLES@, role)),
        ("stage outside the closed vocabulary"@, listed(PEER_FAULT_STAGES@, stage)),
        ("cause outside the closed vocabulary"@, listed(PEER_FAULT_CAUSES@, cause)),
    ]
}

/// Every label of a tuple is in its closed vocabulary.
pub open spec fn tuple_is_closed(tuple: TupleKey) -> bool {
    &&& listed(PEER_FAULT_ROLES@, tuple.0)
    &&& listed(PEER_FAULT_STAGES@, tuple.1)
    &&& listed(PEER_FAULT_CAUSES@, tuple.2)
}

impl PeerFaultTuple {
    /// The tuple of three labels, each of which must be in its closed
    /// vocabulary.
    pub fn new(role: &str, stage: &str, cause: &str) -> (result: Result<Self, ScanFailure>)
        ensures
            match result {
                Ok(tuple) => tuple@ == (role@, stage@, cause@) && tuple_is_closed(tuple@)
                    && first_broken(tuple_rules(role@, stage@, cause@)) is None,
                Err(failure) => failure@ is InvalidPeerFault && first_broken(
                    tuple_rules(role@, stage@, cause@),
                ) == Some(failure@->InvalidPeerFault_0),
            },
    {
        let mut audit = Audit::new(Ghost(tuple_rules(role@, stage@, cause@)));
        audit.hold(
            "role outside the closed vocabulary",
            is_listed(PEER_FAULT_ROLES.as_slice(), role),
        );
        audit.hold(
            "stage outside the closed vocabulary",
            is_listed(PEER_FAULT_STAGES.as_slice(), stage),
        );
        audit.hold(
            "cause outside the closed vocabulary",
            is_listed(PEER_FAULT_CAUSES.as_slice(), cause),
        );
        match audit.broken() {
            Some(reason) => Err(ScanFailure::InvalidPeerFault { reason }),
            None => {
                proof {
                    let all = tuple_rules(role@, stage@, cause@);
                    assert(all[0].1 && all[1].1 && all[2].1);
                }
                Ok(
                    PeerFaultTuple {
                        role: role.to_owned(),
                        stage: stage.to_owned(),
                        cause: cause.to_owned(),
                    },
                )
            },
        }
    }

    /// The tuple in print.
    pub fn to_text(&self) -> (text: String)
        ensures
            text@ == slashed(self@.0, self@.1, self@.2),
    {
        self.role.clone().concat("/").concat(self.stage.as_str()).concat("/").concat(
            self.cause.as_str(),
        )
    }
}

/// One required peer fault: an exact role and cause, satisfied by any one of
/// a closed set of stages.  Row declarations spell alternatives as
/// `"stage_a|stage_b"`; every alternative must be in the closed vocabulary.
/// A fault whose stage is timing-dependent (a planned GOAWAY can land while
/// the ingress relay checks out a stream permit or while it dispatches the
/// HTTP/3 request) is declared once with both stages instead of pinning one.
#[derive(Clone, Debug, Eq, Ord, PartialEq, PartialOrd)]
pub struct PeerFaultRequirement {
    pub role: String,
    pub stages: Vec<String>,
    pub cause: String,
}

impl View for PeerFaultRequirement {
    type V = RequirementKey;

    open spec fn view(&self) -> RequirementKey {
        (self.role@, views(self.stages@), self.cause@)
    }
}

fn copy_list(texts: &Vec<String>) -> (copy: Vec<String>)
    ensures
        views(copy@) == views(texts@),
{
    let mut copy: Vec<String> = Vec::new();
    let mut i: usize = 0;
    while i < texts.len()
        invariant
            i <= texts.len(),
            views(copy@) == views(texts@).take(i as int),
        decreases texts.len() - i,
    {
        let ghost so_far = copy@;
        copy.push(texts[i].clone());
        assert(views(copy@) =~= views(texts@).take(i + 1)) by {
            assert(views(copy@) =~= views(so_far).push(texts@[i as int]@));
        }
        i += 1;
    }
    assert(views(texts@).take(i as int) =~= views(texts@));
    copy
}

impl PeerFaultRequirement {
    /// A copy of the requirement.
    pub fn copy(&self) -> (copy: Self)
        ensures
            copy@ == self@,
    {
        PeerFaultRequirement {
            role: self.role.clone(),
            stages: copy_list(&self.stages),
            cause: self.cause.clone(),
        }
    }

    /// The requirement in print.
    pub fn to_text(&self) -> (text: String)
        ensures
            text@ == requirement_text(self@),
    {
        let stages = join_texts(&self.stages, "|");
        self.role.clone().concat("/").concat(stages.as_str()).concat("/").concat(
            self.cause.as_str(),
        )
    }
}

/// The texts of a list without repeats, in order of first appearance.
pub open spec fn distinct(texts: Seq<Seq<char>>) -> Seq<Seq<char>>
    decreases texts.len(),
{
    if texts.len() == 0 {
        texts
    } else {
        let front = distinct(texts.drop_last());
        if front.contains(texts.last()) {
            front
        } else {
            front.push(texts.last())
        }
    }
}

/// Dropping repeats keeps every text, once.
pub proof fn lemma_distinct(texts: Seq<Seq<char>>)
    ensures
        distinct(texts).no_duplicates(),
        distinct(texts).to_set() == texts.to_set(),
    decreases texts.len(),
{
    if texts.len() > 0 {
        let front = texts.drop_last();
        lemma_distinct(front);
        assert(texts =~= front.push(texts.last()));
        front.lemma_push_to_set_commute(texts.last());
        if distinct(front).contains(texts.last()) {
            assert(distinct(front).to_set().contains(texts.last()));
            assert(texts.to_set() =~= distinct(texts).to_set());
        } else {
            distinct(front).lemma_push_to_set_commute(texts.last());
        }
    }
}

/// The rules of a requirement: those of each alternative, in order.
pub open spec fn requirement_steps(
    role: Seq<char>,
    stages: Seq<Seq<char>>,
    cause: Seq<char>,
) -> spec_fn(int) -> Seq<(Seq<char>, bool)> {
    |i: int| tuple_rules(role, stages[i], cause)
}

/// The rules of a requirement whose stages are spelled `stage_a|stage_b`.
pub open spec fn requirement_rules(role: Seq<char>, stages: Seq<char>, cause: Seq<char>) -> Seq<
    (Seq<char>, bool),
> {
    let pieces = split_on(stages, '|');
    chained(requirement_steps(role, pieces, cause), pieces.len())
}

/// The tuples that satisfy a requirement.
pub open spec fn satisfied_by(requirement: RequirementKey, present: Set<TupleKey>) -> bool {
    exists|i: int|
        0 <= i < requirement.1.len() && present.contains(
            (requirement.0, #[trigger] requirement.1[i], requirement.2),
        )
}

/// Whether `text` is one of `texts`.
pub fn holds_text(texts: &Vec<String>, text: &str) -> (found: bool)
    ensures
        found == views(texts@).contains(text@),
{
    let mut i: usize = 0;
    while i < texts.len()
        invariant
            i <= texts.len(),
            forall|k: int| 0 <= k < i ==> #[trigger] views(texts@)[k] != text@,
        decreases texts.len() - i,
    {
        if same_text(texts[i].as_str(), text) {
            assert(views(texts@)[i as int] == text@);
            return true;
        }
        i += 1;
    }
    false
}

impl PeerFaultRequirement {
    /// The requirement of `role` and `cause` at any of the stages that
    /// `stages` lists between bars.
    pub fn new(role: &str, stages: &str, cause: &str) -> (result: Result<Self, ScanFailure>)
        ensures
            match result {
                Ok(requirement) => first_broken(requirement_rules(role@, stages@, cause@)) is None
                    && requirement@ == (role@, distinct(split_on(stages@, '|')), cause@),
                Err(failure) => failure@ is InvalidPeerFault && first_broken(
                    requirement_rules(role@, stages@, cause@),
                ) == Some(failure@->InvalidPeerFault_0),
            },
    {
        let pieces = split_text(stages, '|');
        let ghost all = split_on(stages@, '|');
        let ghost steps = requirement_steps(role@, all, cause@);
        let mut alternatives: Vec<String> = Vec::new();
        let mut i: usize = 0;
        assert(views(alternatives@) =~= distinct(all.take(0)));
        while i < pieces.len()
            invariant
                i <= pieces.len(),
                views(pieces@) == all,
                all == split_on(stages@, '|'),
                steps == requirement_steps(role@, all, cause@),
                first_broken(chained(steps, i as nat)) is None,
                views(alternatives@) == distinct(all.take(i as int)),
            decreases pieces.len() - i,
        {
            let piece = pieces[i].as_str();
            assert(piece@ == all[i as int]);
            proof {
                lemma_chained_step(steps, i as nat);
            }
            let tuple = match PeerFaultTuple::new(role, piece, cause) {
                Ok(tuple) => tuple,
                Err(failure) => {
                    proof {
                        lemma_chained_broken(steps, (i + 1) as nat, all.len());
                    }
                    return Err(failure);
                },
            };
            assert(all.take(i + 1).drop_last() =~= all.take(i as int));
            if !holds_text(&alternatives, tuple.stage.as_str()) {
                let ghost so_far = alternatives@;
                alternatives.push(tuple.stage);
                assert(views(alternatives@) =~= views(so_far).push(all[i as int]));
            }
            i += 1;
        }
        assert(all.take(i as int) =~= all);
        Ok(
            PeerFaultRequirement {
                role: role.to_owned(),
                stages: alternatives,
                cause: cause.to_owned(),
            },
        )
    }

    /// Whether one of the tuples present satisfies the requirement.
    pub fn is_satisfied_by(&self, present: &OrderedSet<PeerFaultTuple>) -> (satisfied: bool)
        requires
            present.wf(),
        ensures
            satisfied == satisfied_by(self@, present@),
    {
        let mut i: usize = 0;
        while i < self.stages.len()
            invariant
                i <= self.stages.len(),
                present.wf(),
                forall|k: int|
                    0 <= k < i ==> !present@.contains((self@.0, #[trigger] self@.1[k], self@.2)),
            decreases self.stages.len() - i,
        {
            let wanted = PeerFaultTuple {
                role: self.role.clone(),
                stage: self.stages[i].clone(),
                cause: self.cause.clone(),
            };
            assert(wanted@ == (self@.0, self@.1[i as int], self@.2));
            if present.contains(&wanted) {
                return true;
            }
            i += 1;
        }
        false
    }
}

impl Ordered for PeerFaultTuple {
    type Key = TupleKey;

    open spec fn key(&self) -> TupleKey {
        self@
    }

    open spec fn before(a: TupleKey, b: TupleKey) -> bool {
        ||| text_before(a.0, b.0)
        ||| a.0 == b.0 && text_before(a.1, b.1)
        ||| a.0 == b.0 && a.1 == b.1 && text_before(a.2, b.2)
    }

    proof fn lemma_irreflexive(a: TupleKey) {
        String::lemma_irreflexive(a.0);
        String::lemma_irreflexive(a.1);
        String::lemma_irreflexive(a.2);
    }

    proof fn lemma_transitive(a: TupleKey, b: TupleKey, c: TupleKey) {
        if text_before(a.0, b.0) && text_before(b.0, c.0) {
            String::lemma_transitive(a.0, b.0, c.0);
        } else if text_before(a.1, b.1) && text_before(b.1, c.1) {
            String::lemma_transitive(a.1, b.1, c.1);
        } else if text_before(a.2, b.2) && text_before(b.2, c.2) {
            String::lemma_transitive(a.2, b.2, c.2);
        }
    }

    proof fn lemma_total(a: TupleKey, b: TupleKey) {
        String::lemma_total(a.0, b.0);
        String::lemma_total(a.1, b.1);
        String::lemma_total(a.2, b.2);
    }

    fn precedes(&self, other: &Self) -> (precedes: bool) {
        if !same_text(self.role.as_str(), other.role.as_str()) {
            self.role.precedes(&other.role)
        } else {
            proof {
                String::lemma_irreflexive(self.role@);
            }
            if !same_text(self.stage.as_str(), other.stage.as_str()) {
                self.stage.precedes(&other.stage)
            } else {
                proof {
                    String::lemma_irreflexive(self.stage@);
                }
                self.cause.precedes(&other.cause)
            }
        }
    }
}

/// The order of lists of texts: by the first text that differs, and a proper
/// prefix first.
pub open spec fn texts_before(a: Seq<Seq<char>>, b: Seq<Seq<char>>) -> bool
    decreases a.len(),
{
    if b.len() == 0 {
        false
    } else if a.len() == 0 {
        true
    } else if a[0] != b[0] {
        text_before(a[0], b[0])
    } else {
        texts_before(a.drop_first(), b.drop_first())
    }
}

proof fn lemma_texts_irreflexive(a: Seq<Seq<char>>)
    ensures
        !texts_before(a, a),
    decreases a.len(),
{
    if a.len() > 0 {
        lemma_texts_irreflexive(a.drop_first());
    }
}

proof fn lemma_texts_transitive(a: Seq<Seq<char>>, b: Seq<Seq<char>>, c: Seq<Seq<char>>)
    requires
        texts_before(a, b),
        texts_before(b, c),
    ensures
        texts_before(a, c),
    decreases a.len(),
{
    if a.len() > 0 && b.len() > 0 && c.len() > 0 {
        if a[0] == b[0] && b[0] == c[0] {
            lemma_texts_transitive(a.drop_first(), b.drop_first(), c.drop_first());
        } else if a[0] != b[0] && b[0] != c[0] {
            String::lemma_transitive(a[0], b[0], c[0]);
            String::lemma_irreflexive(a[0]);
        }
    }
}

proof fn lemma_texts_total(a: Seq<Seq<char>>, b: Seq<Seq<char>>)
    ensures
        a == b || texts_before(a, b) || texts_before(b, a),
    decreases a.len(),
{
    if a.len() == 0 {
        if b.len() == 0 {
            assert(a =~= b);
        }
    } else if b.len() > 0 {
        if a[0] == b[0] {
            lemma_texts_total(a.drop_first(), b.drop_first());
            if a.drop_first() == b.drop_first() {
                assert(a =~= seq![a[0]] + a.drop_first());
                assert(b =~= seq![b[0]] + b.drop_first());
            }
        } else {
            String::lemma_total(a[0], b[0]);
        }
    }
}

fn texts_precede(a: &Vec<String>, b: &Vec<String>) -> (precedes: bool)
    ensures
        precedes == texts_before(views(a@), views(b@)),
{
    let ghost va = views(a@);
    let ghost vb = views(b@);
    let mut i: usize = 0;
    assert(va.skip(0) =~= va);
    assert(vb.skip(0) =~= vb);
    while i < a.len() && i < b.len()
        invariant
            i <= a.len(),
            i <= b.len(),
            va == views(a@),
            vb == views(b@),
            texts_before(va, vb) == texts_before(va.skip(i as int), vb.skip(i as int)),
        decreases a.len() - i,
    {
        assert(va[i as int] == a@[i as int]@);
        assert(vb[i as int] == b@[i as int]@);
        if !same_text(a[i].as_str(), b[i].as_str()) {
            return a[i].precedes(&b[i]);
        }
        assert(va.skip(i as int).drop_first() =~= va.skip(i + 1));
        assert(vb.skip(i as int).drop_first() =~= vb.skip(i + 1));
        i += 1;
    }
    i < b.len()
}

impl Ordered for PeerFaultRequirement {
    type Key = RequirementKey;

    open spec fn key(&self) -> RequirementKey {
        self@
    }

    open spec fn before(a: RequirementKey, b: RequirementKey) -> bool {
        ||| text_before(a.0, b.0)
        ||| a.0 == b.0 && texts_before(a.1, b.1)
        ||| a.0 == b.0 && a.1 == b.1 && text_before(a.2, b.2)
    }

    proof fn lemma_irreflexive(a: RequirementKey) {
        String::lemma_irreflexive(a.0);
        lemma_texts_irreflexive(a.1);
        String::lemma_irreflexive(a.2);
    }

    proof fn lemma_transitive(a: RequirementKey, b: RequirementKey, c: RequirementKey) {
        if text_before(a.0, b.0) && text_before(b.0, c.0) {
            String::lemma_transitive(a.0, b.0, c.0);
        } else if texts_before(a.1, b.1) && texts_before(b.1, c.1) {
            lemma_texts_transitive(a.1, b.1, c.1);
        } else if text_before(a.2, b.2) && text_before(b.2, c.2) {
            String::lemma_transitive(a.2, b.2, c.2);
        }
    }

    proof fn lemma_total(a: RequirementKey, b: RequirementKey) {
        String::lemma_total(a.0, b.0);
        lemma_texts_total(a.1, b.1);
        String::lemma_total(a.2, b.2);
    }

    fn precedes(&self, other: &Self) -> (precedes: bool) {
        if !same_text(self.role.as_str(), other.role.as_str()) {
            return self.role.precedes(&other.role);
        }
        proof {
            String::lemma_irreflexive(self.role@);
            lemma_texts_irreflexive(self@.1);
            lemma_texts_total(self@.1, other@.1);
        }
        if texts_precede(&self.stages, &other.stages) {
            return true;
        }
        if texts_precede(&other.stages, &self.stages) {
            proof {
                if self@.1 == other@.1 {
                    lemma_texts_irreflexive(self@.1);
                }
            }
            return false;
        }
        self.cause.precedes(&other.cause)
    }
}

/// A tuple is closed exactly when its role is one of the two sides and its
/// stage and cause are words of the relay's vocabularies.
pub proof fn lemma_closed_tuple(role: Seq<char>, stage: Seq<char>, cause: Seq<char>)
    ensures
        tuple_is_closed((role, stage, cause)) <==> {
            &&& role == "ingress"@ || role == "owner"@
            &&& exists|i: int| 0 <= i < 11 && (#[trigger] PEER_FAULT_STAGES@[i])@ == stage
            &&& exists|i: int| 0 <= i < 26 && (#[trigger] PEER_FAULT_CAUSES@[i])@ == cause
        },
        first_broken(tuple_rules(role, stage, cause)) is None <==> tuple_is_closed(
            (role, stage, cause),
        ),
{
    let rules = tuple_rules(role, stage, cause);
    assert(PEER_FAULT_ROLES@[0]@ == "ingress"@ && PEER_FAULT_ROLES@[1]@ == "owner"@);
    assert(PEER_FAULT_ROLES@.len() == 2 && PEER_FAULT_STAGES@.len() == 11
        && PEER_FAULT_CAUSES@.len() == 26);
    lemma_first_broken(rules);
    assert(rules.len() == 3);
    if all_hold(rules) {
        assert(rules[0].1 && rules[1].1 && rules[2].1);
    }
}

/// A requirement is accepted exactly when its role, its cause and each of the
/// stages between the bars make a closed tuple.
pub proof fn lemma_accepted_requirement(role: Seq<char>, stages: Seq<char>, cause: Seq<char>)
    ensures
        first_broken(requirement_rules(role, stages, cause)) is None <==> forall|i: int|
            0 <= i < split_on(stages, '|').len() ==> tuple_is_closed(
                (role, #[trigger] split_on(stages, '|')[i], cause),
            ),
{
    let pieces = split_on(stages, '|');
    let steps = requirement_steps(role, pieces, cause);
    lemma_first_broken(requirement_rules(role, stages, cause));
    lemma_all_hold_chained(steps, pieces.len());
    assert forall|i: int| 0 <= i < pieces.len() implies (all_hold(#[trigger] steps(i))
        <==> tuple_is_closed((role, pieces[i], cause))) by {
        lemma_closed_tuple(role, pieces[i], cause);
        lemma_first_broken(steps(i));
    }
    if all_hold(chained(steps, pieces.len())) {
        assert forall|i: int| 0 <= i < pieces.len() implies tuple_is_closed(
            (role, #[trigger] pieces[i], cause),
        ) by {
            assert(all_hold(steps(i)));
        }
    }
    if forall|i: int| 0 <= i < pieces.len() ==> tuple_is_closed((role, #[trigger] pieces[i], cause)) {
        assert forall|i: int| 0 <= i < pieces.len() implies all_hold(#[trigger] steps(i)) by {
            let piece = pieces[i];
        }
    }
}

/// What satisfies a requirement: nothing does where no fault is present, and
/// one more fault does exactly when its role and cause are the requirement's
/// and its stage is one of the alternatives.
pub proof fn lemma_satisfaction(
    requirement: RequirementKey,
    present: Set<TupleKey>,
    tuple: TupleKey,
)
    ensures
        !satisfied_by(requirement, Set::empty()),
        satisfied_by(requirement, present.insert(tuple)) <==> satisfied_by(requirement, present)
            || tuple.0 == requirement.0 && tuple.2 == requirement.2 && requirement.1.contains(
            tuple.1,
        ),
        present.contains(tuple) && tuple.0 == requirement.0 && tuple.2 == requirement.2
            && requirement.1.contains(tuple.1) ==> satisfied_by(requirement, present),
{
    let more = present.insert(tuple);
    if tuple.0 == requirement.0 && tuple.2 == requirement.2 && requirement.1.contains(tuple.1) {
        let i = choose|i: int| 0 <= i < requirement.1.len() && requirement.1[i] == tuple.1;
        assert(more.contains((requirement.0, requirement.1[i], requirement.2)));
        if present.contains(tuple) {
            assert(present.contains((requirement.0, requirement.1[i], requirement.2)));
        }
    }
    if satisfied_by(requirement, present) {
        let i = choose|i: int|
            0 <= i < requirement.1.len() && present.contains(
                (requirement.0, #[trigger] requirement.1[i], requirement.2),
            );
        assert(more.contains((requirement.0, requirement.1[i], requirement.2)));
    }
    if satisfied_by(requirement, more) {
        let i = choose|i: int|
            0 <= i < requirement.1.len() && more.contains(
                (requirement.0, #[trigger] requirement.1[i], requirement.2),
            );
        if present.contains((requirement.0, requirement.1[i], requirement.2)) {
            assert(satisfied_by(requirement, present));
        }
    }
}

/// Texts that do not repeat are kept as they stand, and one that repeats an
/// earlier text is dropped where it repeats it.
pub proof fn lemma_distinct_keeps_order(texts: Seq<Seq<char>>, text: Seq<char>)
    ensures
        texts.no_duplicates() ==> distinct(texts) == texts,
        texts.contains(text) ==> distinct(texts.push(text)) == distinct(texts),
        !texts.contains(text) ==> distinct(texts.push(text)) == distinct(texts).push(text),
    decreases texts.len(),
{
    lemma_distinct(texts);
    assert(texts.push(text).drop_last() =~= texts);
    assert(distinct(texts).contains(text) == distinct(texts).to_set().contains(text));
    assert(texts.contains(text) == texts.to_set().contains(text));
    if texts.no_duplicates() && texts.len() > 0 {
        let front = texts.drop_last();
        assert(!front.contains(texts.last())) by {
            if front.contains(texts.last()) {
                let i = choose|i: int| 0 <= i < front.len() && front[i] == texts.last();
                assert(texts[i] == texts[texts.len() - 1]);
            }
        }
        lemma_distinct_keeps_order(front, texts.last());
        assert(front.push(texts.last()) =~= texts);
    }
}

/// Tuples and requirements stand in the order of their roles, then of their
/// stages, then of their causes.
pub proof fn lemma_order_of_faults(a: TupleKey, b: TupleKey, c: RequirementKey, d: RequirementKey)
    ensures
        text_before(a.0, b.0) ==> PeerFaultTuple::before(a, b),
        a.0 == b.0 && text_before(a.1, b.1) ==> PeerFaultTuple::before(a, b),
        a.0 == b.0 && a.1 == b.1 ==> PeerFaultTuple::before(a, b) == text_before(a.2, b.2),
        text_before(c.0, d.0) ==> PeerFaultRequirement::before(c, d),
        c.0 == d.0 && texts_before(c.1, d.1) ==> PeerFaultRequirement::before(c, d),
        c.0 == d.0 && c.1 == d.1 ==> PeerFaultRequirement::before(c, d) == text_before(c.2, d.2),
{
    String::lemma_irreflexive(a.0);
    String::lemma_irreflexive(a.1);
    String::lemma_irreflexive(c.0);
    lemma_texts_irreflexive(c.1);
}

/// The stages of a peer fault, word by word.
pub proof fn lemma_fault_stages(word: Seq<char>)
    ensures
        listed(PEER_FAULT_STAGES@, word) <==> {
            ||| word == "validation"@
            ||| word == "pool_connect"@
            ||| word == "stream_permit_checkout"@
            ||| word == "sender_lock"@
            ||| word == "h3_dispatch"@
            ||| word == "envelope_send"@
            ||| word == "complete"@
            ||| word == "head"@
            ||| word == "body"@
            ||| word == "lease"@
            ||| word == "owner"@
        },
{
    let words = PEER_FAULT_STAGES@;
    assert(words.len() == 11);
    assert(words[0]@ == "validation"@);
    assert(words[1]@ == "pool_connect"@);
    assert(words[2]@ == "stream_permit_checkout"@);
    assert(words[3]@ == "sender_lock"@);
    assert(words[4]@ == "h3_dispatch"@);
    assert(words[5]@ == "envelope_send"@);
    assert(words[6]@ == "complete"@);
    assert(words[7]@ == "head"@);
    assert(words[8]@ == "body"@);
    assert(words[9]@ == "lease"@);
    assert(words[10]@ == "owner"@);
}

/// The causes of a peer fault, word by word.
pub proof fn lemma_fault_causes(word: Seq<char>)
    ensures
        listed(PEER_FAULT_CAUSES@, word) <==> {
            ||| word == "no_live_owner"@
            ||| word == "catalog"@
            ||| word == "membership"@
            ||| word == "invalid_endpoint"@
            ||| word == "identity_mismatch"@
            ||| word == "transport_timeout"@
            ||| word == "transport_goaway"@
            ||| word == "transport_cancelled"@
            ||| word == "transport_h3"@
            ||| word == "transport_quic"@
            ||| word == "transport_capacity"@
            ||| word == "transport_pins_unavailable"@
            ||| word == "transport_body_limit"@
            ||| word == "transport_other"@
            ||| word == "envelope"@
            ||| word == "frame"@
            ||| word == "remote_unauthorized"@
            ||| word == "remote_forbidden"@
            ||| word == "remote_status"@
            ||| word == "invalid_route"@
            ||| word == "unexpected_record"@
            ||| word == "owner_not_ready"@
            ||| word == "capacity"@
            ||| word == "membership_expired"@
            ||| word == "closed"@
            ||| word == "deadline"@
        },
{
    let words = PEER_FAULT_CAUSES@;
    assert(words.len() == 26);
    assert(words[0]@ == "no_live_owner"@);
    assert(words[1]@ == "catalog"@);
    assert(words[2]@ == "membership"@);
    assert(words[3]@ == "invalid_endpoint"@);
    assert(words[4]@ == "identity_mismatch"@);
    assert(words[5]@ == "transport_timeout"@);
    assert(words[6]@ == "transport_goaway"@);
    assert(words[7]@ == "transport_cancelled"@);
    assert(words[8]@ == "transport_h3"@);
    assert(words[9]@ == "transport_quic"@);
    assert(words[10]@ == "transport_capacity"@);
    assert(words[11]@ == "transport_pins_unavailable"@);
    assert(words[12]@ == "transport_body_limit"@);
    assert(words[13]@ == "transport_other"@);
    assert(words[14]@ == "envelope"@);
    assert(words[15]@ == "frame"@);
    assert(words[16]@ == "remote_unauthorized"@);
    assert(words[17]@ == "remote_forbidden"@);
    assert(words[18]@ == "remote_status"@);
    assert(words[19]@ == "invalid_route"@);
    assert(words[20]@ == "unexpected_record"@);
    assert(words[21]@ == "owner_not_ready"@);
    assert(words[22]@ == "capacity"@);
    assert(words[23]@ == "membership_expired"@);
    assert(words[24]@ == "closed"@);
    assert(words[25]@ == "deadline"@);
}

/// The stages of a task closure, word by word.
pub proof fn lemma_closure_stages(word: Seq<char>)
    ensures
        listed(TASK_CLOSURE_STAGES@, word) <==> {
            ||| word == "control"@
            ||| word == "data"@
            ||| word == "consumer_stream"@
        },
{
    let words = TASK_CLOSURE_STAGES@;
    assert(words.len() == 3);
    assert(words[0]@ == "control"@);
    assert(words[1]@ == "data"@);
    assert(words[2]@ == "consumer_stream"@);
}

/// The causes of a task closure, word by word.
pub proof fn lemma_closure_causes(word: Seq<char>)
    ensures
        listed(TASK_CLOSURE_CAUSES@, word) <==> {
            ||| word == "peer_closed"@
            ||| word == "write_failed"@
            ||| word == "protocol_error"@
            ||| word == "record_too_large"@
            ||| word == "unexpected_message"@
            ||| word == "server_close"@
            ||| word == "stream_closed"@
            ||| word == "expired"@
            ||| word == "stream_failed"@
            ||| word == "liveness_timeout"@
        },
{
    let words = TASK_CLOSURE_CAUSES@;
    assert(words.len() == 10);
    assert(words[0]@ == "peer_closed"@);
    assert(words[1]@ == "write_failed"@);
    assert(words[2]@ == "protocol_error"@);
    assert(words[3]@ == "record_too_large"@);
    assert(words[4]@ == "unexpected_message"@);
    assert(words[5]@ == "server_close"@);
    assert(words[6]@ == "stream_closed"@);
    assert(words[7]@ == "expired"@);
    assert(words[8]@ == "stream_failed"@);
    assert(words[9]@ == "liveness_timeout"@);
}

} // verus!
