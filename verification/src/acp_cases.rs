//! The decisions of the cluster gate's cases: answers and isolation, forged
//! heads, withdrawn exchanges, invalidation reasons and membership records.

use vstd::prelude::*;
use vstd::slice::*;
use vstd::string::*;
use vstd::utf8::*;

use crate::acp_wire::{find_under, text_under};
use crate::json::{json_document, parse_document, Json, JsonView};
use crate::ordered::{
    in_order, is_listing, keys_of, lemma_listing_is_unique, listing, sort_items, text_before, Ordered,
    OrderedMap, OrderedSet,
};
use crate::peer_faults::holds_text;
use crate::std_text::{decode_lossy, lossy_text};
use crate::text::{decimal, decimal_text, join_texts, joined, same_bytes, same_text, views};

verus! {

/// One header field of an answer.
#[derive(Clone, Debug, Eq, PartialEq)]
pub struct HeaderField {
    pub name: String,
    pub value: String,
}

impl Ordered for HeaderField {
    type Key = (Seq<char>, Seq<char>);

    open spec fn key(&self) -> (Seq<char>, Seq<char>) {
        (self.name@, self.value@)
    }

    open spec fn before(a: (Seq<char>, Seq<char>), b: (Seq<char>, Seq<char>)) -> bool {
        text_before(a.0, b.0) || a.0 == b.0 && text_before(a.1, b.1)
    }

    proof fn lemma_irreflexive(a: (Seq<char>, Seq<char>)) {
        String::lemma_irreflexive(a.0);
        String::lemma_irreflexive(a.1);
    }

    proof fn lemma_transitive(
        a: (Seq<char>, Seq<char>),
        b: (Seq<char>, Seq<char>),
        c: (Seq<char>, Seq<char>),
    ) {
        if text_before(a.0, b.0) && text_before(b.0, c.0) {
            String::lemma_transitive(a.0, b.0, c.0);
        } else if text_before(a.1, b.1) && text_before(b.1, c.1) {
            String::lemma_transitive(a.1, b.1, c.1);
        }
    }

    proof fn lemma_total(a: (Seq<char>, Seq<char>), b: (Seq<char>, Seq<char>)) {
        String::lemma_total(a.0, b.0);
        String::lemma_total(a.1, b.1);
    }

    fn precedes(&self, other: &Self) -> (precedes: bool) {
        if !same_text(self.name.as_str(), other.name.as_str()) {
            self.name.precedes(&other.name)
        } else {
            proof {
                String::lemma_irreflexive(self.name@);
            }
            self.value.precedes(&other.value)
        }
    }
}

/// One consumer answer, reduced to what the cases assert on.
///
/// The header list is what makes a comparison byte-identical rather than one of
/// statuses: a refusal that leaked another principal's id through a differing
/// header would pass a status check and fail this one.
#[derive(Clone, Debug, Eq, PartialEq)]
pub struct Answer {
    pub status: u16,
    pub headers: Vec<HeaderField>,
    pub body: Vec<u8>,
}

/// The model of an answer.
pub struct AnswerView {
    pub status: u16,
    pub headers: Seq<(Seq<char>, Seq<char>)>,
    pub body: Seq<u8>,
}

impl View for Answer {
    type V = AnswerView;

    open spec fn view(&self) -> AnswerView {
        AnswerView { status: self.status, headers: keys_of(self.headers@), body: self.body@ }
    }
}

/// The header fields that are compared: all but the date.
pub open spec fn compared(headers: Seq<(Seq<char>, Seq<char>)>) -> Seq<(Seq<char>, Seq<char>)> {
    headers.filter(|field: (Seq<char>, Seq<char>)| field.0 != "date"@)
}

/// The text under `key`, of the document itself or of its `error`.
pub open spec fn picked(document: Option<JsonView>, key: Seq<char>) -> Seq<char> {
    match document {
        Some(value) => match value.text_of(key) {
            Some(text) => text,
            None => match text_under(value, "error"@, key) {
                Some(text) => text,
                None => Seq::empty(),
            },
        },
        None => Seq::empty(),
    }
}

fn pick(document: &Option<Json>, key: &str) -> (text: String)
    ensures
        text@ == picked(
            match *document {
                Some(json) => Some(json@),
                None => None,
            },
            key@,
        ),
{
    match document {
        Some(value) => match value.text_of(key) {
            Some(text) => text.to_owned(),
            None => match find_under(value, "error", key) {
                Some(text) => text,
                None => String::new(),
            },
        },
        None => String::new(),
    }
}

/// The code and execution that a parsed error body carries.
pub fn error_of(document: &Option<Json>) -> (result: (String, String))
    ensures
        ({
            let view = match *document {
                Some(json) => Some(json@),
                None => None,
            };
            result.0@ == picked(view, "code"@) && result.1@ == picked(view, "execution"@)
        }),
{
    (pick(document, "code"), pick(document, "execution"))
}

/// The document of an answer's body.
pub open spec fn body_document(body: Seq<u8>) -> Option<JsonView> {
    json_document(encode_utf8(lossy_text(body)))
}

impl Answer {
    /// The answer with these header fields, without the date and in order.
    pub fn new(status: u16, headers: Vec<HeaderField>, body: Vec<u8>) -> (answer: Self)
        ensures
            answer.status == status,
            answer@.body == body@,
            in_order::<HeaderField>(answer@.headers),
            answer@.headers.to_multiset() == compared(keys_of(headers@)).to_multiset(),
    {
        let ghost all = keys_of(headers@);
        let ghost keep = |field: (Seq<char>, Seq<char>)| field.0 != "date"@;
        let mut rest = headers;
        let mut kept: Vec<HeaderField> = Vec::new();
        let ghost mut i: int = 0;
        assert(all.take(0).filter(keep) =~= Seq::<(Seq<char>, Seq<char>)>::empty()) by {
            reveal(Seq::filter);
        }
        while rest.len() > 0
            invariant
                0 <= i <= all.len(),
                keep == (|field: (Seq<char>, Seq<char>)| field.0 != "date"@),
                keys_of(rest@) == all.skip(i),
                keys_of(kept@) == all.take(i).filter(keep),
            decreases rest.len(),
        {
            let ghost old_rest = rest@;
            let ghost before = kept@;
            let field = rest.remove(0);
            proof {
                assert(keys_of(old_rest).len() == all.len() - i);
                assert(field.key() == keys_of(old_rest)[0]);
                assert(all.skip(i)[0] == all[i]);
                assert(keys_of(rest@) =~= keys_of(old_rest).skip(1));
                assert(keys_of(rest@) =~= all.skip(i + 1));
                assert(all.take(i + 1) =~= all.take(i).push(all[i]));
                all.take(i).lemma_filter_push(all[i], keep);
            }
            if !same_text(field.name.as_str(), "date") {
                kept.push(field);
                assert(keys_of(kept@) =~= keys_of(before).push(field.key()));
            }
            proof {
                i = i + 1;
            }
        }
        assert(all.take(i) =~= all) by {
            assert(all.skip(i).len() == 0);
        }
        Answer { status, headers: sort_items(kept), body }
    }

    /// Whether two answers are indistinguishable to a consumer.
    pub fn indistinguishable_from(&self, other: &Self) -> (same: bool)
        ensures
            same == (self@ == other@),
    {
        if self.status != other.status || self.headers.len() != other.headers.len() || !same_bytes(
            self.body.as_slice(),
            other.body.as_slice(),
        ) {
            assert(self@.headers.len() == self.headers.len());
            assert(other@.headers.len() == other.headers.len());
            return false;
        }
        let mut i: usize = 0;
        while i < self.headers.len()
            invariant
                i <= self.headers.len(),
                self.headers.len() == other.headers.len(),
                forall|k: int| 0 <= k < i ==> (#[trigger] self@.headers[k]) == other@.headers[k],
            decreases self.headers.len() - i,
        {
            assert(self@.headers[i as int] == self.headers@[i as int].key());
            assert(other@.headers[i as int] == other.headers@[i as int].key());
            if !same_text(self.headers[i].name.as_str(), other.headers[i].name.as_str())
                || !same_text(self.headers[i].value.as_str(), other.headers[i].value.as_str()) {
                return false;
            }
            i += 1;
        }
        assert(self@.headers =~= other@.headers);
        true
    }

    /// The sanitized error code and execution this answer carried, if any.
    pub fn error(&self) -> (result: (String, String))
        ensures
            result.0@ == picked(body_document(self@.body), "code"@),
            result.1@ == picked(body_document(self@.body), "execution"@),
    {
        let text = decode_lossy(self.body.as_slice());
        let document = parse_document(text.as_str().as_bytes());
        error_of(&document)
    }
}

/// An isolation probe met the profile's not-found, exactly as an identifier
/// that never existed does.
pub fn inert(probe: &Answer, absent: &Answer) -> (answer: bool)
    ensures
        answer == (probe@ == absent@ && probe.status == 404),
{
    probe.indistinguishable_from(absent) && probe.status == 404
}

/// The forgery attempts of a run.
pub struct ForgeryTally {
    pub attempts: u64,
    pub refused: u64,
    pub codes: Vec<String>,
}

/// A forged head was refused before dispatch.
pub open spec fn forgery_refused(status: u16, execution: Seq<char>) -> bool {
    status == 400 && execution == "not_dispatched"@
}

impl ForgeryTally {
    /// No attempt yet.
    pub fn new() -> (tally: Self)
        ensures
            tally.attempts == 0,
            tally.refused == 0,
            tally.codes@.len() == 0,
    {
        ForgeryTally { attempts: 0, refused: 0, codes: Vec::new() }
    }

    /// Counts one attempt and what it met.
    pub fn observe(&mut self, label: &str, status: u16, code: &str, execution: &str)
        requires
            old(self).attempts < u64::MAX,
            old(self).refused < u64::MAX,
        ensures
            final(self).attempts == old(self).attempts + 1,
            final(self).refused == old(self).refused + if forgery_refused(status, execution@) {
                1int
            } else {
                0
            },
            views(final(self).codes@) == views(old(self).codes@).push(
                label@ + "="@ + decimal(status as nat) + ":"@ + code@ + ":"@ + execution@,
            ),
    {
        self.attempts = self.attempts + 1;
        if status == 400 && same_text(execution, "not_dispatched") {
            self.refused = self.refused + 1;
        }
        let number = decimal_text(status as u128);
        let ghost before = self.codes@;
        let text = label.to_owned().concat("=").concat(number.as_str()).concat(":").concat(
            code,
        ).concat(":").concat(execution);
        self.codes.push(text);
        assert(views(self.codes@) =~= views(before).push(text@));
    }
}

/// One exchange as the relay recorded it.
#[derive(Clone, Debug)]
pub struct ExchangeRecord {
    pub role: String,
    pub response_outcome: String,
    pub request_id: Option<String>,
    pub execution: String,
}

/// The record is that of an aborted ingress exchange with a request id.
pub open spec fn is_aborted(record: ExchangeRecord) -> bool {
    record.role@ == "ingress_remote"@ && record.response_outcome@ == "aborted"@
        && record.request_id is Some
}

/// The executions of the aborted ingress exchanges, by request id; of two
/// records with one id, the later.
pub open spec fn aborted(records: Seq<ExchangeRecord>) -> Map<Seq<char>, Seq<char>>
    decreases records.len(),
{
    if records.len() == 0 {
        Map::empty()
    } else if is_aborted(records.last()) {
        aborted(records.drop_last()).insert(
            records.last().request_id->Some_0@,
            records.last().execution@,
        )
    } else {
        aborted(records.drop_last())
    }
}

/// The model of a map from texts to texts.
pub open spec fn text_map(map: Map<Seq<char>, String>) -> Map<Seq<char>, Seq<char>> {
    map.map_values(|text: String| text@)
}

/// Every ingress exchange that the relay has already recorded as aborted.
pub fn aborted_exchanges(records: &Vec<ExchangeRecord>) -> (found: OrderedMap<String, String>)
    ensures
        found.wf(),
        text_map(found@) == aborted(records@),
{
    let mut found: OrderedMap<String, String> = OrderedMap::new();
    let mut i: usize = 0;
    assert(records@.take(0) =~= Seq::<ExchangeRecord>::empty());
    assert(text_map(found@) =~= Map::<Seq<char>, Seq<char>>::empty());
    while i < records.len()
        invariant
            i <= records.len(),
            found.wf(),
            text_map(found@) == aborted(records@.take(i as int)),
        decreases records.len() - i,
    {
        let record = &records[i];
        assert(records@.take(i + 1).drop_last() =~= records@.take(i as int));
        if same_text(record.role.as_str(), "ingress_remote") && same_text(
            record.response_outcome.as_str(),
            "aborted",
        ) {
            match &record.request_id {
                Some(id) => {
                    let ghost before = found@;
                    found.insert(id.clone(), record.execution.clone());
                    assert(text_map(found@) =~= text_map(before).insert(id@, record.execution@));
                },
                None => {},
            }
        }
        i += 1;
    }
    assert(records@.take(i as int) =~= records@);
    found
}

/// The executions of the exchanges of `after` that were not there `before`.
pub open spec fn fresh(
    before: Map<Seq<char>, Seq<char>>,
    after: Map<Seq<char>, Seq<char>>,
) -> Set<Seq<char>> {
    Set::new(
        |execution: Seq<char>|
            exists|id: Seq<char>|
                #![trigger after[id]]
                after.dom().contains(id) && !before.dom().contains(id) && after[id] == execution,
    )
}

/// The executions of the exchanges withdrawn between two readings, sorted and
/// each once.
pub fn fresh_executions(
    before: &OrderedMap<String, String>,
    after: &OrderedMap<String, String>,
) -> (executions: Vec<String>)
    requires
        before.wf(),
        after.wf(),
    ensures
        views(executions@) == listing::<String>(fresh(text_map(before@), text_map(after@))),
        is_listing::<String>(views(executions@), fresh(text_map(before@), text_map(after@))),
{
    let ghost target = fresh(text_map(before@), text_map(after@));
    let ghost keys = after.keys();
    let mut set: OrderedSet<String> = OrderedSet::new();
    let mut i: usize = 0;
    while i < after.len()
        invariant
            before.wf(),
            after.wf(),
            keys == after.keys(),
            i <= keys.len(),
            target == fresh(text_map(before@), text_map(after@)),
            set.wf(),
            forall|execution: Seq<char>| #[trigger]
                set@.contains(execution) ==> target.contains(execution),
            forall|k: int|
                0 <= k < i && !before@.dom().contains(#[trigger] keys[k]) ==> set@.contains(
                    text_map(after@)[keys[k]],
                ),
        decreases keys.len() - i,
    {
        let id = after.key_at(i);
        let execution = after.value_at(i);
        proof {
            crate::ordered::lemma_entry(*after, i as int);
        }
        if !before.contains_key(id) {
            proof {
                assert(text_map(after@)[keys[i as int]] == execution@);
                assert(target.contains(execution@));
            }
            set.insert(execution.clone());
        }
        i += 1;
    }
    proof {
        assert forall|execution: Seq<char>| #[trigger]
            target.contains(execution) implies set@.contains(execution) by {
            let id = choose|id: Seq<char>|
                #![trigger text_map(after@)[id]]
                text_map(after@).dom().contains(id) && !text_map(before@).dom().contains(id)
                    && text_map(after@)[id] == execution;
            crate::ordered::lemma_walk_holds(*after, id);
            let k = keys.index_of(id);
            assert(keys[k] == id);
        }
        assert(set@ =~= target);
    }
    list_texts(&set)
}

/// The texts of a set, in ascending order.
pub fn list_texts(set: &OrderedSet<String>) -> (texts: Vec<String>)
    requires
        set.wf(),
    ensures
        views(texts@) == listing::<String>(set@),
        is_listing::<String>(views(texts@), set@),
        texts@.len() == set@.len(),
{
    let mut texts: Vec<String> = Vec::new();
    let mut k: usize = 0;
    while k < set.len()
        invariant
            k <= set.keys().len(),
            views(texts@) == set.keys().take(k as int),
        decreases set.keys().len() - k,
    {
        let ghost before = texts@;
        texts.push(set.at(k).clone());
        assert(views(texts@) =~= views(before).push(set.keys()[k as int]));
        assert(set.keys().take(k + 1) =~= set.keys().take(k as int).push(set.keys()[k as int]));
        k += 1;
    }
    proof {
        assert(set.keys().take(k as int) =~= set.keys());
        set.lemma_ascending();
        lemma_listing_is_unique::<String>(set.keys(), set@);
        assert(views(texts@).len() == texts@.len());
    }
    texts
}

/// What the wait for the withdrawal's classification found.
pub struct Withdrawal {
    /// The wait is over: an `unknown` execution is there, or time is.
    pub settled: bool,
    /// The executions, joined by plus signs.
    pub executions: String,
}

/// Decides on one reading of the withdrawn exchanges.
pub fn judge_withdrawal(executions: &Vec<String>, past_deadline: bool) -> (withdrawal: Withdrawal)
    ensures
        withdrawal.settled == (views(executions@).contains("unknown"@) || past_deadline),
        withdrawal.executions@ == joined(views(executions@), "+"@),
{
    Withdrawal {
        settled: holds_text(executions, "unknown") || past_deadline,
        executions: join_texts(executions, "+"),
    }
}

/// Why a relay's membership runtime invalidated a peer admission.
#[derive(Clone, Copy, Debug, Eq, PartialEq, Structural)]
pub enum PeerInvalidationReason {
    TrustExpired,
    MembershipRevoked,
    MembershipChanged,
    AuthorityUnknown,
    PersistenceUnavailable,
    RuntimeCancelled,
}

impl PeerInvalidationReason {
    /// What the reason is called.
    pub open spec fn name(self) -> Seq<char> {
        match self {
            PeerInvalidationReason::TrustExpired => "trust_expired"@,
            PeerInvalidationReason::MembershipRevoked => "membership_revoked"@,
            PeerInvalidationReason::MembershipChanged => "membership_changed"@,
            PeerInvalidationReason::AuthorityUnknown => "authority_unknown"@,
            PeerInvalidationReason::PersistenceUnavailable => "persistence_unavailable"@,
            PeerInvalidationReason::RuntimeCancelled => "runtime_cancelled"@,
        }
    }
}

/// A payload-free label for each reason.  Every variant is named, so a third
/// reason shows up as itself.
pub fn reason_label(reason: PeerInvalidationReason) -> (label: &'static str)
    ensures
        label@ == reason.name(),
{
    match reason {
        PeerInvalidationReason::TrustExpired => "trust_expired",
        PeerInvalidationReason::MembershipRevoked => "membership_revoked",
        PeerInvalidationReason::MembershipChanged => "membership_changed",
        PeerInvalidationReason::AuthorityUnknown => "authority_unknown",
        PeerInvalidationReason::PersistenceUnavailable => "persistence_unavailable",
        PeerInvalidationReason::RuntimeCancelled => "runtime_cancelled",
    }
}

/// One invalidation: the observing relay, the invalidated peer, the reason.
pub struct Invalidation {
    pub observer: String,
    pub peer: String,
    pub reason: PeerInvalidationReason,
}

impl View for Invalidation {
    type V = (Seq<char>, Seq<char>, PeerInvalidationReason);

    open spec fn view(&self) -> (Seq<char>, Seq<char>, PeerInvalidationReason) {
        (self.observer@, self.peer@, self.reason)
    }
}

/// The reasons that relays latched for peer admissions they invalidated.
pub struct InvalidationLedger {
    seen: Vec<Invalidation>,
}

impl View for InvalidationLedger {
    type V = Seq<(Seq<char>, Seq<char>, PeerInvalidationReason)>;

    closed spec fn view(&self) -> Seq<(Seq<char>, Seq<char>, PeerInvalidationReason)> {
        self.seen@.map_values(|one: Invalidation| one@)
    }
}

/// The labels of the reasons that `observer` latched for `peer`.
pub open spec fn latched(
    seen: Seq<(Seq<char>, Seq<char>, PeerInvalidationReason)>,
    observer: Seq<char>,
    peer: Seq<char>,
) -> Set<Seq<char>> {
    Set::new(
        |label: Seq<char>|
            exists|i: int|
                0 <= i < seen.len() && (#[trigger] seen[i]).0 == observer && seen[i].1 == peer
                    && seen[i].2.name() == label,
    )
}

impl InvalidationLedger {
    /// Nothing latched yet.
    pub fn new() -> (ledger: Self)
        ensures
            ledger@.len() == 0,
    {
        InvalidationLedger { seen: Vec::new() }
    }

    /// Forgets what was latched.
    pub fn clear(&mut self)
        ensures
            final(self)@.len() == 0,
    {
        self.seen.clear();
    }

    /// Latches one reason.
    pub fn record(&mut self, observer: &str, peer: &str, reason: PeerInvalidationReason)
        ensures
            final(self)@ == old(self)@.push((observer@, peer@, reason)),
    {
        let ghost before = self@;
        self.seen.push(Invalidation { observer: observer.to_owned(), peer: peer.to_owned(), reason });
        assert(self@ =~= before.push((observer@, peer@, reason)));
    }

    /// The distinct reason labels that `observer` latched for admissions of
    /// `peer`, sorted.
    pub fn labels_for(&self, observer: &str, peer: &str) -> (labels: Vec<String>)
        ensures
            views(labels@) == listing::<String>(latched(self@, observer@, peer@)),
            is_listing::<String>(views(labels@), latched(self@, observer@, peer@)),
    {
        let ghost target = latched(self@, observer@, peer@);
        let mut set: OrderedSet<String> = OrderedSet::new();
        let mut i: usize = 0;
        while i < self.seen.len()
            invariant
                i <= self.seen.len(),
                target == latched(self@, observer@, peer@),
                set.wf(),
                forall|label: Seq<char>| #[trigger]
                    set@.contains(label) ==> target.contains(label),
                forall|k: int|
                    0 <= k < i && (#[trigger] self@[k]).0 == observer@ && self@[k].1 == peer@
                        ==> set@.contains(self@[k].2.name()),
            decreases self.seen.len() - i,
        {
            assert(self@[i as int] == self.seen@[i as int]@);
            if same_text(self.seen[i].observer.as_str(), observer) && same_text(
                self.seen[i].peer.as_str(),
                peer,
            ) {
                let label = reason_label(self.seen[i].reason);
                assert(target.contains(label@));
                set.insert(label.to_owned());
            }
            i += 1;
        }
        proof {
            assert forall|label: Seq<char>| #[trigger]
                target.contains(label) implies set@.contains(label) by {
                let k = choose|k: int|
                    0 <= k < self@.len() && (#[trigger] self@[k]).0 == observer@ && self@[k].1
                        == peer@ && self@[k].2.name() == label;
                assert(set@.contains(self@[k].2.name()));
            }
            assert(set@ =~= target);
        }
        list_texts(&set)
    }
}

/// A ledger that was cleared names nothing, and a reason latched afterwards is
/// named for its own observer and peer and for no others.
pub proof fn lemma_ledger_names_what_was_latched(
    seen: Seq<(Seq<char>, Seq<char>, PeerInvalidationReason)>,
    one: (Seq<char>, Seq<char>, PeerInvalidationReason),
    observer: Seq<char>,
    peer: Seq<char>,
)
    ensures
        seen.len() == 0 ==> latched(seen, observer, peer) == Set::<Seq<char>>::empty(),
        latched(seen.push(one), observer, peer) == if one.0 == observer && one.1 == peer {
            latched(seen, observer, peer).insert(one.2.name())
        } else {
            latched(seen, observer, peer)
        },
{
    let after = seen.push(one);
    assert forall|label: Seq<char>| #[trigger]
        latched(after, observer, peer).contains(label) == (latched(seen, observer, peer).contains(
            label,
        ) || one.0 == observer && one.1 == peer && one.2.name() == label) by {
        if latched(seen, observer, peer).contains(label) {
            let i = choose|i: int|
                0 <= i < seen.len() && (#[trigger] seen[i]).0 == observer && seen[i].1 == peer
                    && seen[i].2.name() == label;
            assert(after[i] == seen[i]);
        }
        if one.0 == observer && one.1 == peer && one.2.name() == label {
            assert(after[seen.len() as int] == one);
        }
        if latched(after, observer, peer).contains(label) {
            let i = choose|i: int|
                0 <= i < after.len() && (#[trigger] after[i]).0 == observer && after[i].1 == peer
                    && after[i].2.name() == label;
            if i < seen.len() {
                assert(seen[i] == after[i]);
            }
        }
    }
    assert(latched(after, observer, peer) =~= if one.0 == observer && one.1 == peer {
        latched(seen, observer, peer).insert(one.2.name())
    } else {
        latched(seen, observer, peer)
    });
    if seen.len() == 0 {
        assert(latched(seen, observer, peer) =~= Set::<Seq<char>>::empty());
    }
}

/// One relay's verified view of a member.
pub struct MembershipView {
    pub node_id: String,
    pub record_version: u64,
    pub spki_sha256: Vec<String>,
}

/// The record is the one published: its node, its version, and every published
/// key among exactly as many.
pub open spec fn is_published(
    record: MembershipView,
    node: Seq<char>,
    version: u64,
    spkis: Seq<Seq<char>>,
) -> bool {
    &&& record.node_id@ == node
    &&& record.record_version == version
    &&& record.spki_sha256@.len() == spkis.len()
    &&& forall|i: int|
        0 <= i < spkis.len() ==> views(record.spki_sha256@).contains(#[trigger] spkis[i])
}

/// Whether one relay's verifier carries exactly the published keys.
pub fn relay_converged(
    records: &Vec<MembershipView>,
    node: &str,
    version: u64,
    spkis: &Vec<String>,
) -> (converged: bool)
    ensures
        converged == has_converged(records@, node@, version, views(spkis@)),
{
    let mut i: usize = 0;
    while i < records.len()
        invariant
            i <= records.len(),
            forall|k: int|
                0 <= k < i ==> !is_published(#[trigger] records@[k], node@, version, views(spkis@)),
        decreases records.len() - i,
    {
        if matches_published(&records[i], node, version, spkis) {
            return true;
        }
        i += 1;
    }
    false
}

/// A relay's verifier carries the record as it was published.
pub open spec fn has_converged(
    records: Seq<MembershipView>,
    node: Seq<char>,
    version: u64,
    spkis: Seq<Seq<char>>,
) -> bool {
    exists|i: int|
        0 <= i < records.len() && is_published(#[trigger] records[i], node, version, spkis)
}

/// Whether every running relay's verifier carries exactly the published keys.
pub fn all_converged(
    relays: &Vec<Vec<MembershipView>>,
    node: &str,
    version: u64,
    spkis: &Vec<String>,
) -> (converged: bool)
    ensures
        converged == forall|i: int|
            0 <= i < relays@.len() ==> has_converged(
                (#[trigger] relays@[i])@,
                node@,
                version,
                views(spkis@),
            ),
{
    let mut i: usize = 0;
    while i < relays.len()
        invariant
            i <= relays.len(),
            forall|k: int|
                0 <= k < i ==> has_converged(
                    (#[trigger] relays@[k])@,
                    node@,
                    version,
                    views(spkis@),
                ),
        decreases relays.len() - i,
    {
        if !relay_converged(&relays[i], node, version, spkis) {
            assert(!has_converged(relays@[i as int]@, node@, version, views(spkis@)));
            return false;
        }
        i += 1;
    }
    true
}

fn matches_published(record: &MembershipView, node: &str, version: u64, spkis: &Vec<String>) -> (same:
    bool)
    ensures
        same == is_published(*record, node@, version, views(spkis@)),
{
    if !same_text(record.node_id.as_str(), node) || record.record_version != version
        || record.spki_sha256.len() != spkis.len() {
        return false;
    }
    let mut i: usize = 0;
    while i < spkis.len()
        invariant
            i <= spkis.len(),
            forall|k: int|
                0 <= k < i ==> views(record.spki_sha256@).contains(#[trigger] views(spkis@)[k]),
        decreases spkis.len() - i,
    {
        assert(views(spkis@)[i as int] == spkis@[i as int]@);
        if !holds_text(&record.spki_sha256, spkis[i].as_str()) {
            return false;
        }
        i += 1;
    }
    true
}

/// Some record of `node` still holds the key.
pub open spec fn still_held(records: Seq<MembershipView>, node: Seq<char>, spki: Seq<char>) -> bool {
    exists|i: int|
        0 <= i < records.len() && (#[trigger] records[i]).node_id@ == node && views(
            records[i].spki_sha256@,
        ).contains(spki)
}

/// Whether a withdrawn key left a relay's verifier.  A record that still lists
/// the key withdrew nothing, so there is nothing to observe.
pub fn key_left_verifier(
    published: &Vec<String>,
    records: &Vec<MembershipView>,
    node: &str,
    spki: &str,
) -> (left: bool)
    ensures
        left == (!views(published@).contains(spki@) && !still_held(records@, node@, spki@)),
{
    if holds_text(published, spki) {
        return false;
    }
    let mut i: usize = 0;
    while i < records.len()
        invariant
            i <= records.len(),
            !views(published@).contains(spki@),
            forall|k: int|
                0 <= k < i ==> !((#[trigger] records@[k]).node_id@ == node@ && views(
                    records@[k].spki_sha256@,
                ).contains(spki@)),
        decreases records.len() - i,
    {
        if same_text(records[i].node_id.as_str(), node) && holds_text(
            &records[i].spki_sha256,
            spki,
        ) {
            return false;
        }
        i += 1;
    }
    true
}

/// A record that converged on a list of keys without the withdrawn one shows
/// that the key left, where it is the only record of its node.
pub proof fn lemma_convergence_withdraws(
    records: Seq<MembershipView>,
    node: Seq<char>,
    version: u64,
    spkis: Seq<Seq<char>>,
    spki: Seq<char>,
    i: int,
)
    requires
        0 <= i < records.len(),
        is_published(records[i], node, version, spkis),
        forall|k: int| 0 <= k < records.len() && (#[trigger] records[k]).node_id@ == node ==> k == i,
        spkis.no_duplicates(),
        !spkis.contains(spki),
    ensures
        !still_held(records, node, spki),
{
    if still_held(records, node, spki) {
        let k = choose|k: int|
            0 <= k < records.len() && (#[trigger] records[k]).node_id@ == node && views(
                records[k].spki_sha256@,
            ).contains(spki);
        let held = views(records[i].spki_sha256@);
        assert(held.contains(spki));
        // As many keys, all published ones among them, leave no room for one more.
        assert(spkis.to_set().subset_of(held.to_set())) by {
            assert forall|key: Seq<char>| #[trigger] spkis.to_set().contains(key) implies
                held.to_set().contains(key) by {
                let j = choose|j: int| 0 <= j < spkis.len() && spkis[j] == key;
                assert(held.contains(spkis[j]));
            }
        }
        spkis.unique_seq_to_set();
        held.lemma_cardinality_of_set();
        let more = spkis.to_set().insert(spki);
        assert(more.subset_of(held.to_set()));
        vstd::set_lib::lemma_len_subset(more, held.to_set());
    }
}

/// Takes the next membership record version and reserves it.
pub fn next_record_version(counter: &mut u64) -> (version: u64)
    ensures
        version == *old(counter),
        *final(counter) == if *old(counter) == u64::MAX {
            u64::MAX
        } else {
            (*old(counter) + 1) as u64
        },
{
    let version: u64 = *counter;
    *counter = version.saturating_add(1);
    version
}

/// Header fields are compared one by one: a date is dropped, and any other
/// field is kept at its place.
pub proof fn lemma_compared_fields(
    headers: Seq<(Seq<char>, Seq<char>)>,
    field: (Seq<char>, Seq<char>),
)
    ensures
        compared(Seq::empty()).len() == 0,
        field.0 == "date"@ ==> compared(headers.push(field)) == compared(headers),
        field.0 != "date"@ ==> compared(headers.push(field)) == compared(headers).push(field),
{
    reveal(Seq::filter);
    assert(headers.push(field).drop_last() =~= headers);
}

/// A text is taken from the document itself before its `error`, and is empty
/// where neither has it.
pub proof fn lemma_picked(value: JsonView, key: Seq<char>)
    ensures
        value.get(key) matches Some(JsonView::Text(text)) ==> picked(Some(value), key) == text,
        value.text_of(key) is None ==> (value.get("error"@) matches Some(error) ==> (error.get(
            key,
        ) matches Some(JsonView::Text(text)) ==> picked(Some(value), key) == text)),
        value.text_of(key) is None && text_under(value, "error"@, key) is None ==> picked(
            Some(value),
            key,
        ).len() == 0,
        picked(None, key).len() == 0,
{
}

/// A forged head counts as refused exactly where it was answered 400 and not
/// dispatched.
pub proof fn lemma_refused_forgery(status: u16, execution: Seq<char>)
    ensures
        forgery_refused(400, "not_dispatched"@),
        forgery_refused(status, execution) ==> status == 400 && execution == "not_dispatched"@,
{
}

/// The aborted exchanges are exactly those ingress exchanges that were
/// recorded as aborted under an id.
pub proof fn lemma_aborted(records: Seq<ExchangeRecord>, id: Seq<char>)
    ensures
        aborted(records).dom().contains(id) <==> exists|i: int|
            0 <= i < records.len() && aborts(#[trigger] records[i], id),
    decreases records.len(),
{
    if records.len() > 0 {
        let front = records.drop_last();
        let last = records.len() - 1;
        lemma_aborted(front, id);
        if aborts(records[last], id) {
            assert(aborted(records).dom().contains(id));
        } else {
            assert(aborted(records).dom().contains(id) == aborted(front).dom().contains(id));
            if aborted(front).dom().contains(id) {
                let i = choose|i: int| 0 <= i < front.len() && aborts(#[trigger] front[i], id);
                assert(aborts(records[i], id));
            }
            if exists|i: int| 0 <= i < records.len() && aborts(#[trigger] records[i], id) {
                let i = choose|i: int|
                    0 <= i < records.len() && aborts(#[trigger] records[i], id);
                assert(aborts(front[i], id));
            }
        }
    }
}

/// An aborted exchange has the execution that was recorded for it last.
pub proof fn lemma_last_execution_counts(records: Seq<ExchangeRecord>, id: Seq<char>, i: int)
    requires
        0 <= i < records.len(),
        aborts(records[i], id),
        forall|j: int| i < j < records.len() ==> !aborts(#[trigger] records[j], id),
    ensures
        aborted(records).dom().contains(id),
        aborted(records)[id] == records[i].execution@,
    decreases records.len(),
{
    let front = records.drop_last();
    let last = records.len() - 1;
    if i < last {
        assert(!aborts(records[last], id));
        assert(front[i] == records[i]);
        assert forall|j: int| i < j < front.len() implies !aborts(#[trigger] front[j], id) by {
            assert(front[j] == records[j]);
        }
        lemma_last_execution_counts(front, id, i);
    }
}

/// The record says that the ingress exchange `id` was aborted.
pub open spec fn aborts(record: ExchangeRecord, id: Seq<char>) -> bool {
    &&& record.role@ == "ingress_remote"@
    &&& record.response_outcome@ == "aborted"@
    &&& record.request_id matches Some(found) && found@ == id
}

/// An exchange that was there before is never fresh, whatever became of it
/// since, and one that was not gives its execution.
pub proof fn lemma_fresh_exchanges(
    before: Map<Seq<char>, Seq<char>>,
    after: Map<Seq<char>, Seq<char>>,
    id: Seq<char>,
)
    ensures
        after.dom().subset_of(before.dom()) ==> fresh(before, after) == Set::<Seq<char>>::empty(),
        after.dom().contains(id) && !before.dom().contains(id) ==> fresh(before, after).contains(
            after[id],
        ),
        fresh(before, after.remove(id)).subset_of(fresh(before, after)),
        before.dom().contains(id) ==> fresh(before, after.remove(id)) == fresh(before, after),
{
    let less = after.remove(id);
    if after.dom().subset_of(before.dom()) {
        assert(fresh(before, after) =~= Set::<Seq<char>>::empty());
    }
    assert forall|execution: Seq<char>| #[trigger]
        fresh(before, less).contains(execution) implies fresh(before, after).contains(execution) by {
        let one = choose|one: Seq<char>|
            #![trigger less[one]]
            less.dom().contains(one) && !before.dom().contains(one) && less[one] == execution;
        assert(after[one] == execution);
    }
    if before.dom().contains(id) {
        assert forall|execution: Seq<char>| #[trigger]
            fresh(before, after).contains(execution) implies fresh(before, less).contains(
            execution,
        ) by {
            let one = choose|one: Seq<char>|
                #![trigger after[one]]
                after.dom().contains(one) && !before.dom().contains(one) && after[one]
                    == execution;
            assert(less[one] == execution);
        }
        assert(fresh(before, less) =~= fresh(before, after));
    }
}

/// Each reason has a name of its own.
pub proof fn lemma_reasons_have_names(a: PeerInvalidationReason, b: PeerInvalidationReason)
    ensures
        a.name() == b.name() ==> a == b,
        PeerInvalidationReason::TrustExpired.name() == "trust_expired"@,
        PeerInvalidationReason::MembershipRevoked.name() == "membership_revoked"@,
        PeerInvalidationReason::MembershipChanged.name() == "membership_changed"@,
        PeerInvalidationReason::AuthorityUnknown.name() == "authority_unknown"@,
        PeerInvalidationReason::PersistenceUnavailable.name() == "persistence_unavailable"@,
        PeerInvalidationReason::RuntimeCancelled.name() == "runtime_cancelled"@,
{
    reveal_strlit("trust_expired");
    reveal_strlit("membership_revoked");
    reveal_strlit("membership_changed");
    reveal_strlit("authority_unknown");
    reveal_strlit("persistence_unavailable");
    reveal_strlit("runtime_cancelled");
    assert("trust_expired"@[0] == 't' && "authority_unknown"@[0] == 'a'
        && "persistence_unavailable"@[0] == 'p' && "runtime_cancelled"@[0] == 'r'
        && "membership_revoked"@[0] == 'm' && "membership_changed"@[0] == 'm');
    assert("membership_revoked"@[11] == 'r' && "membership_changed"@[11] == 'c');
}

/// A record is the published one only of its own node, at its own version and
/// with its own keys: a record of distinct published keys holds those and no
/// other.
pub proof fn lemma_published_record(
    record: MembershipView,
    node: Seq<char>,
    version: u64,
    spkis: Seq<Seq<char>>,
)
    requires
        spkis.no_duplicates(),
    ensures
        is_published(record, node, version, spkis) ==> record.node_id@ == node
            && record.record_version == version && views(record.spki_sha256@).to_set()
            == spkis.to_set(),
        record.node_id@ == node && record.record_version == version && record.spki_sha256@.len()
            == spkis.len() && views(record.spki_sha256@).to_set() == spkis.to_set()
            ==> is_published(record, node, version, spkis),
{
    let held = views(record.spki_sha256@);
    if is_published(record, node, version, spkis) {
        assert forall|key: Seq<char>| #[trigger] spkis.to_set().contains(key) implies
            held.to_set().contains(key) by {
            let j = choose|j: int| 0 <= j < spkis.len() && spkis[j] == key;
            assert(held.contains(spkis[j]));
        }
        assert(spkis.to_set().subset_of(held.to_set()));
        spkis.unique_seq_to_set();
        held.lemma_cardinality_of_set();
        vstd::set_lib::lemma_len_subset(spkis.to_set(), held.to_set());
        vstd::set_lib::lemma_subset_equality(spkis.to_set(), held.to_set());
    }
    if held.to_set() == spkis.to_set() {
        assert forall|i: int| 0 <= i < spkis.len() implies held.contains(#[trigger] spkis[i]) by {
            assert(spkis.to_set().contains(spkis[i]));
            assert(held.to_set().contains(spkis[i]));
        }
    }
}

} // verus!
