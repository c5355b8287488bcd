//! Complete bounded diagnostic windows and redaction scanning.
//!
//! The collector reports only safe categories and stream roles.  It scans all
//! captured bytes for the exact values used by each fixture and checks required
//! diagnostic fields across the joined window without retaining them in
//! receipts.

use vstd::prelude::*;
use vstd::slice::*;
use vstd::string::*;
use vstd::utf8::*;

use crate::fields::{contains, holds_bytes};
use crate::json::{json_documents, JsonView};
use crate::ordered::{
    ascending, copy_texts, least, lemma_entry, lemma_first_is_least, lemma_least_exists,
    lemma_walk_holds, lemma_walk_is_listing, OrderedMap, OrderedSet,
};
use crate::peer_fault_table::{
    extend_tuples, is_token, lemma_snapshot_names_last_faults, lemma_snapshot_names_recent_faults,
    scan_peer_faults, snapshot_rules, snapshot_tuples, token,
};
use crate::peer_faults::{
    distinct, lemma_distinct, requirement_rules, satisfied_by, tuple_is_closed, PeerFaultRequirement,
    PeerFaultTuple, TupleKey,
};
use crate::rules::{chained, first_broken, lemma_chained_broken, lemma_chained_step};
use crate::scan_failure::{
    FailureView, FaultStage, RequirementKey, RunOutcome, SafeField, ScanFailure, SentinelKind,
};
use crate::text::{begins_with, occurs_at, same_bytes, split_on, text_starts_with, views};

verus! {

/// The longest sentinel value, in bytes.
pub const MAX_SENTINEL_BYTES: usize = 262144;

/// The capture limit of a stream, unless a run sets its own.
pub const DEFAULT_STREAM_LIMIT: usize = 1048576;

/// Stream roles whose bytes are typed relay snapshots and therefore carry the
/// relay-owned peer fault tuples.
pub const RELAY_SNAPSHOT_ROLE_PREFIX: &'static str = "snapshot-relay-";

/// Exact run-specific value retained only by the in-memory scanner.
///
/// It has no printed form, so a failure cannot accidentally carry the secret,
/// payload, path, or endpoint.
pub struct Sentinel {
    kind: SentinelKind,
    value: Vec<u8>,
}

impl View for Sentinel {
    type V = (SentinelKind, Seq<u8>);

    closed spec fn view(&self) -> (SentinelKind, Seq<u8>) {
        (self.kind, self.value@)
    }
}

impl Sentinel {
    /// A sentinel of `kind`, whose value must not be empty nor longer than
    /// [`MAX_SENTINEL_BYTES`].
    pub fn new(kind: SentinelKind, value: &[u8]) -> (result: Result<Self, ScanFailure>)
        ensures
            match result {
                Ok(sentinel) => 0 < value@.len() <= MAX_SENTINEL_BYTES && sentinel@ == (
                    kind,
                    value@,
                ),
                Err(failure) => !(0 < value@.len() <= MAX_SENTINEL_BYTES) && failure@
                    == FailureView::InvalidSentinel(kind),
            },
    {
        if value.len() == 0 || value.len() > MAX_SENTINEL_BYTES {
            return Err(ScanFailure::InvalidSentinel { kind });
        }
        Ok(Sentinel { kind, value: slice_to_vec(value) })
    }

    /// What the value is.
    pub fn kind(&self) -> (kind: SentinelKind)
        ensures
            kind == self@.0,
    {
        self.kind
    }

    /// Compares this sentinel's exact bytes, for applying a manifest
    /// tombstone.
    ///
    /// Deliberately a comparison rather than an accessor: the value must not
    /// leave this type, so a failure or a log can never carry it.
    pub fn has_value(&self, value: &[u8]) -> (same: bool)
        ensures
            same == (self@.1 == value@),
    {
        same_bytes(self.value.as_slice(), value)
    }

    /// Whether the value stands in `bytes`.
    fn stands_in(&self, bytes: &[u8]) -> (found: bool)
        ensures
            found == holds_bytes(bytes@, self@.1),
    {
        contains(bytes, self.value.as_slice())
    }
}

/// The views of a list of string slices.
pub open spec fn str_views(texts: Seq<&str>) -> Seq<Seq<char>> {
    texts.map_values(|text: &str| text@)
}

/// The model of what a run expects of its window.
pub struct RunSpecView {
    pub run_id: Seq<char>,
    pub source_id: Seq<char>,
    pub build_id: Seq<char>,
    pub stage: FaultStage,
    pub outcome: RunOutcome,
    pub started_utc_ms: i64,
    pub expected_roles: Set<Seq<char>>,
    pub safe_field_roles: Set<Seq<char>>,
    pub required_fields: Set<SafeField>,
    pub required_peer_faults: Set<RequirementKey>,
    pub sentinels: Seq<(SentinelKind, Seq<u8>)>,
    pub max_bytes_per_stream: usize,
}

/// What a run expects of its window.
pub struct C11RunSpec {
    pub run_id: String,
    pub source_id: String,
    pub build_id: String,
    pub stage: FaultStage,
    pub outcome: RunOutcome,
    pub started_utc_ms: i64,
    pub expected_roles: OrderedSet<String>,
    /// Roles whose bytes may establish a safe-field observation.  Adapter
    /// snapshots remain captured and joined, but wrapper text produced by the
    /// collector itself must not satisfy the matrix's diagnostic-field gate.
    pub safe_field_roles: OrderedSet<String>,
    pub required_fields: OrderedSet<SafeField>,
    /// Peer fault requirements the typed relay snapshots must satisfy: an
    /// exact role and cause at one of the declared stages.
    pub required_peer_faults: OrderedSet<PeerFaultRequirement>,
    /// The values that must not stand in any stream.
    pub sentinels: Vec<Sentinel>,
    pub max_bytes_per_stream: usize,
}

/// The models of a list of sentinels.
pub open spec fn sentinel_views(sentinels: Seq<Sentinel>) -> Seq<(SentinelKind, Seq<u8>)> {
    sentinels.map_values(|sentinel: Sentinel| sentinel@)
}

impl View for C11RunSpec {
    type V = RunSpecView;

    open spec fn view(&self) -> RunSpecView {
        RunSpecView {
            run_id: self.run_id@,
            source_id: self.source_id@,
            build_id: self.build_id@,
            stage: self.stage,
            outcome: self.outcome,
            started_utc_ms: self.started_utc_ms,
            expected_roles: self.expected_roles@,
            safe_field_roles: self.safe_field_roles@,
            required_fields: self.required_fields@,
            required_peer_faults: self.required_peer_faults@,
            sentinels: sentinel_views(self.sentinels@),
            max_bytes_per_stream: self.max_bytes_per_stream,
        }
    }
}

/// Why a run specification is refused: an identifier that is not bounded, a
/// role that is not, or no role at all.
pub open spec fn spec_failure(
    run_id: Seq<char>,
    source_id: Seq<char>,
    build_id: Seq<char>,
    roles: Seq<Seq<char>>,
) -> Option<FailureView> {
    if !is_token(run_id) {
        Some(FailureView::InvalidToken("run_id"@))
    } else if !is_token(source_id) {
        Some(FailureView::InvalidToken("source_id"@))
    } else if !is_token(build_id) {
        Some(FailureView::InvalidToken("build_id"@))
    } else if !all_tokens(roles) {
        Some(FailureView::InvalidToken("stream_role"@))
    } else if roles.len() == 0 {
        Some(FailureView::NoExpectedStreams)
    } else {
        None
    }
}

/// Every text is a bounded identifier.
pub open spec fn all_tokens(texts: Seq<Seq<char>>) -> bool {
    forall|i: int| 0 <= i < texts.len() ==> is_token(#[trigger] texts[i])
}

/// `value`, if it is a bounded identifier.
pub fn validate_token(field: &'static str, value: &str) -> (result: Result<String, ScanFailure>)
    ensures
        match result {
            Ok(text) => is_token(value@) && text@ == value@,
            Err(failure) => !is_token(value@) && failure@ == FailureView::InvalidToken(field@),
        },
{
    if token(value) {
        Ok(value.to_owned())
    } else {
        Err(ScanFailure::InvalidToken { field })
    }
}

fn token_set(field: &'static str, roles: &[&str]) -> (result: Result<
    OrderedSet<String>,
    ScanFailure,
>)
    ensures
        match result {
            Ok(set) => all_tokens(str_views(roles@)) && set.wf() && set@ == str_views(
                roles@,
            ).to_set(),
            Err(failure) => !all_tokens(str_views(roles@)) && failure@
                == FailureView::InvalidToken(field@),
        },
{
    let ghost all = str_views(roles@);
    let mut set: OrderedSet<String> = OrderedSet::new();
    let mut i: usize = 0;
    assert(all.take(0).to_set() =~= Set::<Seq<char>>::empty());
    while i < roles.len()
        invariant
            i <= roles.len(),
            all == str_views(roles@),
            forall|k: int| 0 <= k < i ==> is_token(#[trigger] all[k]),
            set.wf(),
            set@ == all.take(i as int).to_set(),
        decreases roles.len() - i,
    {
        assert(all[i as int] == roles@[i as int]@);
        match validate_token(field, roles[i]) {
            Ok(role) => {
                set.insert(role);
            },
            Err(failure) => {
                return Err(failure);
            },
        }
        proof {
            assert(all.take(i + 1) =~= all.take(i as int).push(all[i as int]));
            all.take(i as int).lemma_push_to_set_commute(all[i as int]);
        }
        i += 1;
    }
    assert(all.take(i as int) =~= all);
    Ok(set)
}

fn field_set(fields: &[SafeField]) -> (set: OrderedSet<SafeField>)
    ensures
        set.wf(),
        set@ == fields@.to_set(),
{
    let mut set: OrderedSet<SafeField> = OrderedSet::new();
    let ghost all = fields@;
    let mut i: usize = 0;
    assert(all.take(0).to_set() =~= Set::<SafeField>::empty());
    while i < fields.len()
        invariant
            i <= fields.len(),
            all == fields@,
            set.wf(),
            set@ == all.take(i as int).to_set(),
        decreases fields.len() - i,
    {
        set.insert(fields[i]);
        proof {
            assert(all.take(i + 1) =~= all.take(i as int).push(all[i as int]));
            all.take(i as int).lemma_push_to_set_commute(all[i as int]);
        }
        i += 1;
    }
    assert(all.take(i as int) =~= all);
    set
}

/// Every safe field is in the list of all safe fields.
pub proof fn lemma_all_fields(field: SafeField)
    ensures
        SafeField::ALL@.contains(field),
        SafeField::ALL@[field.rank()] == field,
        SafeField::ALL@.len() == 9,
{
    assert(SafeField::ALL@[field.rank()] == field);
}

/// One declared peer fault: role, `|`-separated stages and cause.
pub open spec fn declared_key(declared: (&str, &str, &str)) -> RequirementKey {
    (declared.0@, distinct(split_on(declared.1@, '|')), declared.2@)
}

/// The rules of each declared peer fault.
pub open spec fn declared_steps(declared: Seq<(&str, &str, &str)>) -> spec_fn(int) -> Seq<
    (Seq<char>, bool),
> {
    |i: int| requirement_rules(declared[i].0@, declared[i].1@, declared[i].2@)
}

/// The requirements of a list of declared peer faults.
pub open spec fn declared_keys(declared: Seq<(&str, &str, &str)>) -> Set<RequirementKey> {
    declared.map_values(|one: (&str, &str, &str)| declared_key(one)).to_set()
}

impl C11RunSpec {
    /// The specification's sets are ordered.
    pub open spec fn wf(&self) -> bool {
        &&& self.expected_roles.wf()
        &&& self.safe_field_roles.wf()
        &&& self.required_fields.wf()
        &&& self.required_peer_faults.wf()
    }

    /// The expectations of a run over all safe fields, without peer faults and
    /// with the default capture limit.
    pub fn new(
        run_id: &str,
        source_id: &str,
        build_id: &str,
        stage: FaultStage,
        outcome: RunOutcome,
        started_utc_ms: i64,
        expected_roles: &[&str],
        sentinels: Vec<Sentinel>,
    ) -> (result: Result<Self, ScanFailure>)
        ensures
            match result {
                Ok(spec) => spec_failure(
                    run_id@,
                    source_id@,
                    build_id@,
                    str_views(expected_roles@),
                ) is None && spec.wf() && spec@ == (RunSpecView {
                    run_id: run_id@,
                    source_id: source_id@,
                    build_id: build_id@,
                    stage,
                    outcome,
                    started_utc_ms,
                    expected_roles: str_views(expected_roles@).to_set(),
                    safe_field_roles: str_views(expected_roles@).to_set(),
                    required_fields: Set::full(),
                    required_peer_faults: Set::empty(),
                    sentinels: sentinel_views(sentinels@),
                    max_bytes_per_stream: DEFAULT_STREAM_LIMIT,
                }),
                Err(failure) => spec_failure(
                    run_id@,
                    source_id@,
                    build_id@,
                    str_views(expected_roles@),
                ) == Some(failure@),
            },
    {
        let run_id = match validate_token("run_id", run_id) {
            Ok(text) => text,
            Err(failure) => {
                return Err(failure);
            },
        };
        let source_id = match validate_token("source_id", source_id) {
            Ok(text) => text,
            Err(failure) => {
                return Err(failure);
            },
        };
        let build_id = match validate_token("build_id", build_id) {
            Ok(text) => text,
            Err(failure) => {
                return Err(failure);
            },
        };
        let expected = match token_set("stream_role", expected_roles) {
            Ok(set) => set,
            Err(failure) => {
                return Err(failure);
            },
        };
        if expected_roles.len() == 0 {
            return Err(ScanFailure::NoExpectedStreams);
        }
        let safe = copy_texts(&expected);
        let fields = field_set(SafeField::ALL.as_slice());
        proof {
            assert forall|field: SafeField| #[trigger] fields@.contains(field) by {
                lemma_all_fields(field);
            }
            assert(fields@ =~= Set::full());
        }
        Ok(C11RunSpec {
            run_id,
            source_id,
            build_id,
            stage,
            outcome,
            started_utc_ms,
            expected_roles: expected,
            safe_field_roles: safe,
            required_fields: fields,
            required_peer_faults: OrderedSet::new(),
            sentinels,
            max_bytes_per_stream: DEFAULT_STREAM_LIMIT,
        })
    }

    /// Requires `(role, stages, cause)` peer faults in the relay snapshots; the
    /// stage field may list `|`-separated closed-vocabulary alternatives.
    pub fn with_required_peer_faults(self, tuples: &[(&str, &str, &str)]) -> (result: Result<
        Self,
        ScanFailure,
    >)
        requires
            self.wf(),
        ensures
            match result {
                Ok(spec) => first_broken(chained(declared_steps(tuples@), tuples@.len())) is None
                    && spec.wf() && spec@ == (RunSpecView {
                    required_peer_faults: declared_keys(tuples@),
                    ..self@
                }),
                Err(failure) => failure@ is InvalidPeerFault && first_broken(
                    chained(declared_steps(tuples@), tuples@.len()),
                ) == Some(failure@->InvalidPeerFault_0),
            },
    {
        let ghost all = tuples@;
        let ghost steps = declared_steps(all);
        let ghost of = |one: (&str, &str, &str)| declared_key(one);
        let mut faults: OrderedSet<PeerFaultRequirement> = OrderedSet::new();
        let mut i: usize = 0;
        assert(declared_keys(all.take(0)) =~= Set::<RequirementKey>::empty());
        while i < tuples.len()
            invariant
                i <= tuples.len(),
                all == tuples@,
                steps == declared_steps(all),
                of == (|one: (&str, &str, &str)| declared_key(one)),
                first_broken(chained(steps, i as nat)) is None,
                faults.wf(),
                faults@ == declared_keys(all.take(i as int)),
            decreases tuples.len() - i,
        {
            let (role, stages, cause) = tuples[i];
            proof {
                lemma_chained_step(steps, i as nat);
                if first_broken(steps(i as int)) is Some {
                    lemma_chained_broken(steps, (i + 1) as nat, all.len());
                }
            }
            match PeerFaultRequirement::new(role, stages, cause) {
                Ok(requirement) => {
                    assert(requirement@ == declared_key(all[i as int]));
                    faults.insert(requirement);
                },
                Err(failure) => {
                    return Err(failure);
                },
            }
            proof {
                assert(all.take(i + 1).map_values(of) =~= all.take(i as int).map_values(of).push(
                    declared_key(all[i as int]),
                ));
                all.take(i as int).map_values(of).lemma_push_to_set_commute(
                    declared_key(all[i as int]),
                );
            }
            i += 1;
        }
        assert(all.take(i as int) =~= all);
        let mut spec = self;
        spec.required_peer_faults = faults;
        Ok(spec)
    }

    /// Requires exactly `fields`.
    pub fn with_required_fields(self, fields: &[SafeField]) -> (spec: Self)
        requires
            self.wf(),
        ensures
            spec.wf(),
            spec@ == (RunSpecView { required_fields: fields@.to_set(), ..self@ }),
    {
        let mut spec = self;
        spec.required_fields = field_set(fields);
        spec
    }

    /// Lets only `roles` establish safe fields.  Each must be expected.
    pub fn with_safe_field_roles(self, roles: &[&str]) -> (result: Result<Self, ScanFailure>)
        requires
            self.wf(),
        ensures
            match result {
                Ok(spec) => all_tokens(str_views(roles@)) && str_views(roles@).to_set().subset_of(
                    self@.expected_roles,
                ) && spec.wf() && spec@ == (RunSpecView {
                    safe_field_roles: str_views(roles@).to_set(),
                    ..self@
                }),
                Err(failure) => if !all_tokens(str_views(roles@)) {
                    failure@ == FailureView::InvalidToken("safe_field_role"@)
                } else {
                    !str_views(roles@).to_set().subset_of(self@.expected_roles) && failure@
                        == FailureView::SafeFieldRoleNotExpected
                },
            },
    {
        let set = match token_set("safe_field_role", roles) {
            Ok(set) => set,
            Err(failure) => {
                return Err(failure);
            },
        };
        let mut i: usize = 0;
        while i < set.len()
            invariant
                i <= set.keys().len(),
                self.wf(),
                all_tokens(str_views(roles@)),
                set@ == str_views(roles@).to_set(),
                forall|k: int| 0 <= k < i ==> self@.expected_roles.contains(#[trigger] set.keys()[k]),
            decreases set.keys().len() - i,
        {
            if !self.expected_roles.contains(set.at(i)) {
                assert(set@.contains(set.keys()[i as int]));
                return Err(ScanFailure::SafeFieldRoleNotExpected);
            }
            i += 1;
        }
        assert forall|role: Seq<char>| #[trigger] set@.contains(role) implies
            self@.expected_roles.contains(role) by {
            let k = choose|k: int| 0 <= k < set.keys().len() && set.keys()[k] == role;
            assert(self@.expected_roles.contains(set.keys()[k]));
        }
        let mut spec = self;
        spec.safe_field_roles = set;
        Ok(spec)
    }

    /// Sets the capture limit of every stream, which must not be zero.
    pub fn with_stream_limit(self, max_bytes_per_stream: usize) -> (result: Result<
        Self,
        ScanFailure,
    >)
        requires
            self.wf(),
        ensures
            match result {
                Ok(spec) => max_bytes_per_stream > 0 && spec.wf() && spec@ == (RunSpecView {
                    max_bytes_per_stream,
                    ..self@
                }),
                Err(failure) => max_bytes_per_stream == 0 && failure@
                    == FailureView::InvalidStreamLimit,
            },
    {
        if max_bytes_per_stream == 0 {
            return Err(ScanFailure::InvalidStreamLimit);
        }
        let mut spec = self;
        spec.max_bytes_per_stream = max_bytes_per_stream;
        Ok(spec)
    }
}

/// What holds of a run specification as it is made: at least one expected role,
/// every role and identifier bounded, safe-field roles among the expected ones,
/// and a capture limit above zero.
pub open spec fn spec_view_is_valid(spec: RunSpecView) -> bool {
    &&& exists|role: Seq<char>| spec.expected_roles.contains(role)
    &&& forall|role: Seq<char>| #[trigger] spec.expected_roles.contains(role) ==> is_token(role)
    &&& spec.safe_field_roles.subset_of(spec.expected_roles)
    &&& spec.max_bytes_per_stream > 0
    &&& is_token(spec.run_id)
    &&& is_token(spec.source_id)
    &&& is_token(spec.build_id)
}

/// A specification that is not refused is valid.
pub proof fn lemma_new_spec_is_valid(spec: RunSpecView, roles: Seq<Seq<char>>)
    requires
        spec_failure(spec.run_id, spec.source_id, spec.build_id, roles) is None,
        spec.expected_roles == roles.to_set(),
        spec.safe_field_roles == roles.to_set(),
        spec.max_bytes_per_stream == DEFAULT_STREAM_LIMIT,
    ensures
        spec_view_is_valid(spec),
{
    assert(spec.expected_roles.contains(roles[0]));
    assert forall|role: Seq<char>| #[trigger] spec.expected_roles.contains(role) implies is_token(
        role,
    ) by {
        let i = choose|i: int| 0 <= i < roles.len() && roles[i] == role;
        assert(is_token(roles[i]));
    }
}

/// Requiring peer faults or fields, narrowing the safe-field roles and setting
/// a capture limit keep a specification valid.
pub proof fn lemma_choices_keep_validity(
    spec: RunSpecView,
    faults: Set<RequirementKey>,
    fields: Set<SafeField>,
    roles: Set<Seq<char>>,
    limit: usize,
)
    requires
        spec_view_is_valid(spec),
    ensures
        spec_view_is_valid((RunSpecView { required_peer_faults: faults, ..spec })),
        spec_view_is_valid((RunSpecView { required_fields: fields, ..spec })),
        roles.subset_of(spec.expected_roles) ==> spec_view_is_valid(
            (RunSpecView { safe_field_roles: roles, ..spec }),
        ),
        limit > 0 ==> spec_view_is_valid((RunSpecView { max_bytes_per_stream: limit, ..spec })),
{
    let role = choose|role: Seq<char>| spec.expected_roles.contains(role);
    let faulted = RunSpecView { required_peer_faults: faults, ..spec };
    assert(faulted.expected_roles.contains(role));
    let fielded = RunSpecView { required_fields: fields, ..spec };
    assert(fielded.expected_roles.contains(role));
    let narrowed = RunSpecView { safe_field_roles: roles, ..spec };
    assert(narrowed.expected_roles.contains(role));
    let limited = RunSpecView { max_bytes_per_stream: limit, ..spec };
    assert(limited.expected_roles.contains(role));
}

/// One captured stream.
pub struct StreamCapture {
    bytes: Vec<u8>,
    closed: bool,
    joined: bool,
}

/// The model of a captured stream.
pub struct StreamView {
    pub bytes: Seq<u8>,
    pub closed: bool,
    pub joined: bool,
}

impl View for StreamCapture {
    type V = StreamView;

    closed spec fn view(&self) -> StreamView {
        StreamView { bytes: self.bytes@, closed: self.closed, joined: self.joined }
    }
}

/// A stream of which nothing has been captured.
pub open spec fn fresh_stream() -> StreamView {
    StreamView { bytes: Seq::empty(), closed: false, joined: false }
}

/// The model of a window.
pub struct WindowView {
    pub spec: RunSpecView,
    pub streams: Map<Seq<char>, StreamView>,
}

impl WindowView {
    /// The stream of `role`, fresh where it was never touched.
    pub open spec fn stream(self, role: Seq<char>) -> StreamView {
        if self.streams.dom().contains(role) {
            self.streams[role]
        } else {
            fresh_stream()
        }
    }

    /// The window with `stream` under `role`.
    pub open spec fn with_stream(self, role: Seq<char>, stream: StreamView) -> WindowView {
        WindowView { spec: self.spec, streams: self.streams.insert(role, stream) }
    }

    /// The invariant: only expected streams, none over the limit, and none
    /// joined before it was closed.
    pub open spec fn is_valid(self) -> bool {
        &&& self.streams.dom().subset_of(self.spec.expected_roles)
        &&& forall|role: Seq<char>| #[trigger]
            self.streams.dom().contains(role) ==> self.streams[role].bytes.len()
                <= self.spec.max_bytes_per_stream && (self.streams[role].joined
                ==> self.streams[role].closed)
    }

    /// No sentinel value stands in any captured stream.
    pub open spec fn is_clean(self) -> bool {
        forall|role: Seq<char>, i: int|
            #![trigger self.streams[role], self.spec.sentinels[i]]
            self.streams.dom().contains(role) && 0 <= i < self.spec.sentinels.len()
                ==> !holds_bytes(self.streams[role].bytes, self.spec.sentinels[i].1)
    }
}

/// The kind of the first sentinel whose value stands in `bytes`.
pub open spec fn first_sentinel(
    sentinels: Seq<(SentinelKind, Seq<u8>)>,
    bytes: Seq<u8>,
) -> Option<SentinelKind>
    decreases sentinels.len(),
{
    if sentinels.len() == 0 {
        None
    } else if holds_bytes(bytes, sentinels[0].1) {
        Some(sentinels[0].0)
    } else {
        first_sentinel(sentinels.drop_first(), bytes)
    }
}

/// No sentinel is named exactly when none stands in the bytes.
pub proof fn lemma_first_sentinel(sentinels: Seq<(SentinelKind, Seq<u8>)>, bytes: Seq<u8>)
    ensures
        first_sentinel(sentinels, bytes) is None <==> forall|i: int|
            0 <= i < sentinels.len() ==> !holds_bytes(bytes, (#[trigger] sentinels[i]).1),
    decreases sentinels.len(),
{
    if sentinels.len() > 0 {
        let rest = sentinels.drop_first();
        lemma_first_sentinel(rest, bytes);
        if first_sentinel(sentinels, bytes) is None {
            assert forall|i: int| 0 <= i < sentinels.len() implies !holds_bytes(
                bytes,
                (#[trigger] sentinels[i]).1,
            ) by {
                if i > 0 {
                    assert(sentinels[i] == rest[i - 1]);
                }
            }
        }
        if forall|i: int|
            0 <= i < sentinels.len() ==> !holds_bytes(bytes, (#[trigger] sentinels[i]).1) {
            assert(!holds_bytes(bytes, sentinels[0].1));
            assert forall|i: int| 0 <= i < rest.len() implies !holds_bytes(
                bytes,
                (#[trigger] rest[i]).1,
            ) by {
                assert(rest[i] == sentinels[i + 1]);
            }
        }
    }
}

/// Why an append is refused.
pub open spec fn append_failure(window: WindowView, role: Seq<char>, bytes: Seq<u8>) -> Option<
    FailureView,
> {
    let stream = window.stream(role);
    if !window.spec.expected_roles.contains(role) {
        Some(FailureView::UnexpectedStream(role))
    } else if stream.closed {
        Some(FailureView::AppendAfterClose(role))
    } else if stream.bytes.len() + bytes.len() > window.spec.max_bytes_per_stream {
        Some(FailureView::CaptureOverflow(role, window.spec.max_bytes_per_stream))
    } else {
        match first_sentinel(window.spec.sentinels, stream.bytes + bytes) {
            Some(kind) => Some(FailureView::SensitiveValue(role, kind)),
            None => None,
        }
    }
}

/// The window after an append: an expected stream is registered, and it has
/// grown unless it was closed or full.
pub open spec fn appended(window: WindowView, role: Seq<char>, bytes: Seq<u8>) -> WindowView {
    let stream = window.stream(role);
    if !window.spec.expected_roles.contains(role) {
        window
    } else if stream.closed || stream.bytes.len() + bytes.len()
        > window.spec.max_bytes_per_stream {
        window.with_stream(role, stream)
    } else {
        window.with_stream(role, StreamView { bytes: stream.bytes + bytes, ..stream })
    }
}

/// Why a close is refused.
pub open spec fn close_failure(window: WindowView, role: Seq<char>) -> Option<FailureView> {
    if !window.spec.expected_roles.contains(role) {
        Some(FailureView::UnexpectedStream(role))
    } else if window.stream(role).closed {
        Some(FailureView::DuplicateClose(role))
    } else {
        None
    }
}

/// The window after a close.
pub open spec fn closed_window(window: WindowView, role: Seq<char>) -> WindowView {
    if !window.spec.expected_roles.contains(role) {
        window
    } else {
        window.with_stream(role, StreamView { closed: true, ..window.stream(role) })
    }
}

/// Why a join is refused.
pub open spec fn join_failure(window: WindowView, role: Seq<char>) -> Option<FailureView> {
    if !window.spec.expected_roles.contains(role) {
        Some(FailureView::UnexpectedStream(role))
    } else if !window.stream(role).closed {
        Some(FailureView::JoinedBeforeClose(role))
    } else {
        None
    }
}

/// The window after a join.
pub open spec fn joined_window(window: WindowView, role: Seq<char>) -> WindowView {
    let stream = window.stream(role);
    if !window.spec.expected_roles.contains(role) {
        window
    } else {
        window.with_stream(role, StreamView { joined: stream.joined || stream.closed, ..stream })
    }
}

/// The streams that are not closed and joined.
pub open spec fn unsettled(window: WindowView) -> Set<Seq<char>> {
    Set::new(
        |role: Seq<char>|
            window.streams.dom().contains(role) && !(window.streams[role].closed
                && window.streams[role].joined),
    )
}

/// The expected streams that were never touched.
pub open spec fn absent(window: WindowView) -> Set<Seq<char>> {
    Set::new(
        |role: Seq<char>|
            window.spec.expected_roles.contains(role) && !window.streams.dom().contains(role),
    )
}

/// `role` is that of a typed relay snapshot.
pub open spec fn is_snapshot_role(role: Seq<char>) -> bool {
    begins_with(role, RELAY_SNAPSHOT_ROLE_PREFIX@)
}

/// The rules of the snapshot captured under `role`.
pub open spec fn captured_rules(window: WindowView, role: Seq<char>) -> Seq<(Seq<char>, bool)> {
    snapshot_rules(json_documents(window.streams[role].bytes))
}

/// The relay snapshots that are not in order.
pub open spec fn malformed(window: WindowView) -> Set<Seq<char>> {
    Set::new(
        |role: Seq<char>|
            window.streams.dom().contains(role) && is_snapshot_role(role) && first_broken(
                captured_rules(window, role),
            ) is Some,
    )
}

/// The peer faults that the relay snapshots name.  Adapter snapshots and
/// process streams are never read here, so wrapper text cannot manufacture a
/// tuple.
pub open spec fn faults_present(window: WindowView) -> Set<TupleKey> {
    Set::new(
        |tuple: TupleKey|
            exists|role: Seq<char>|
                #![trigger window.streams[role]]
                window.streams.dom().contains(role) && is_snapshot_role(role) && snapshot_tuples(
                    json_documents(window.streams[role].bytes),
                ).contains(tuple),
    )
}

/// The required peer faults that the relay snapshots do not show.
pub open spec fn unmet(window: WindowView) -> Set<RequirementKey> {
    Set::new(
        |requirement: RequirementKey|
            window.spec.required_peer_faults.contains(requirement) && !satisfied_by(
                requirement,
                faults_present(window),
            ),
    )
}

/// A stream that may establish safe fields shows `field`.
pub open spec fn shows(window: WindowView, field: SafeField) -> bool {
    exists|role: Seq<char>|
        #![trigger window.streams[role]]
        window.streams.dom().contains(role) && window.spec.safe_field_roles.contains(role)
            && field.shown_in(window.streams[role].bytes)
}

/// The required fields that no stream shows, in the order of all fields.
pub open spec fn missing_fields(window: WindowView) -> Seq<SafeField> {
    SafeField::ALL@.filter(
        |field: SafeField| window.spec.required_fields.contains(field) && !shows(window, field),
    )
}

/// A set that holds something.
pub open spec fn holds_any<A>(set: Set<A>) -> bool {
    exists|item: A| set.contains(item)
}

/// Why a window is refused at its end.
pub open spec fn finish_failure(window: WindowView, ended_utc_ms: i64) -> Option<FailureView> {
    if ended_utc_ms < window.spec.started_utc_ms {
        Some(FailureView::InvalidWindow)
    } else if holds_any(unsettled(window)) {
        let role = least::<String>(unsettled(window));
        if !window.streams[role].closed {
            Some(FailureView::StreamNotClosed(role))
        } else {
            Some(FailureView::StreamNotJoined(role))
        }
    } else if holds_any(absent(window)) {
        Some(FailureView::MissingStream(least::<String>(absent(window))))
    } else if holds_any(malformed(window)) {
        let role = least::<String>(malformed(window));
        Some(FailureView::InvalidPeerFault(first_broken(captured_rules(window, role))->Some_0))
    } else if holds_any(unmet(window)) {
        Some(FailureView::MissingPeerFault(least::<PeerFaultRequirement>(unmet(window))))
    } else if missing_fields(window).len() > 0 {
        Some(FailureView::MissingSafeFields(missing_fields(window)))
    } else {
        None
    }
}

/// The model of a run's report.
pub struct ReportView {
    pub run_id: Seq<char>,
    pub source_id: Seq<char>,
    pub build_id: Seq<char>,
    pub stage: FaultStage,
    pub outcome: RunOutcome,
    pub started_utc_ms: i64,
    pub ended_utc_ms: i64,
    pub bytes_by_role: Map<Seq<char>, usize>,
    pub fields_present: Set<SafeField>,
    pub peer_faults_present: Set<TupleKey>,
}

/// The report of a window that is in order.
pub open spec fn window_report(window: WindowView, ended_utc_ms: i64) -> ReportView {
    ReportView {
        run_id: window.spec.run_id,
        source_id: window.spec.source_id,
        build_id: window.spec.build_id,
        stage: window.spec.stage,
        outcome: window.spec.outcome,
        started_utc_ms: window.spec.started_utc_ms,
        ended_utc_ms,
        bytes_by_role: window.streams.map_values(|stream: StreamView| stream.bytes.len() as usize),
        fields_present: Set::new(|field: SafeField| shows(window, field)),
        peer_faults_present: faults_present(window),
    }
}

/// What a run's window held, in safe terms.
#[derive(Debug)]
pub struct C11ScanReport {
    pub run_id: String,
    pub source_id: String,
    pub build_id: String,
    pub stage: FaultStage,
    pub outcome: RunOutcome,
    pub started_utc_ms: i64,
    pub ended_utc_ms: i64,
    pub bytes_by_role: OrderedMap<String, usize>,
    pub fields_present: OrderedSet<SafeField>,
    /// Exact tuples found in the typed relay snapshots of this run.
    pub peer_faults_present: OrderedSet<PeerFaultTuple>,
}

impl View for C11ScanReport {
    type V = ReportView;

    open spec fn view(&self) -> ReportView {
        ReportView {
            run_id: self.run_id@,
            source_id: self.source_id@,
            build_id: self.build_id@,
            stage: self.stage,
            outcome: self.outcome,
            started_utc_ms: self.started_utc_ms,
            ended_utc_ms: self.ended_utc_ms,
            bytes_by_role: self.bytes_by_role@,
            fields_present: self.fields_present@,
            peer_faults_present: self.peer_faults_present@,
        }
    }
}

impl C11ScanReport {
    /// The report's collections are ordered.
    pub open spec fn wf(&self) -> bool {
        &&& self.bytes_by_role.wf()
        &&& self.fields_present.wf()
        &&& self.peer_faults_present.wf()
    }
}

/// The capture of a run: the streams it expects and what they carried.
pub struct C11Window {
    spec: C11RunSpec,
    streams: OrderedMap<String, StreamCapture>,
}

impl View for C11Window {
    type V = WindowView;

    closed spec fn view(&self) -> WindowView {
        WindowView {
            spec: self.spec@,
            streams: self.streams@.map_values(|stream: StreamCapture| stream@),
        }
    }
}

impl C11Window {
    /// The window's collections are ordered and its model is valid.
    pub closed spec fn wf(&self) -> bool {
        &&& self.spec.wf()
        &&& self.streams.wf()
        &&& self@.is_valid()
    }

    /// A window of which nothing has been captured.
    pub fn new(spec: C11RunSpec) -> (window: Self)
        requires
            spec.wf(),
        ensures
            window.wf(),
            window@ == (WindowView { spec: spec@, streams: Map::empty() }),
    {
        let window = C11Window { spec, streams: OrderedMap::new() };
        assert(window@.streams =~= Map::<Seq<char>, StreamView>::empty());
        window
    }

    /// What a valid window is: see [`WindowView::is_valid`].  Its streams are
    /// finitely many, and so are the roles that it expects.
    pub proof fn lemma_valid(&self)
        requires
            self.wf(),
        ensures
            self@.is_valid(),
            self@.streams.dom().finite(),
            self@.spec.expected_roles.finite(),
    {
        lemma_walk_is_listing(self.streams);
        assert(self@.streams.dom() =~= self.streams@.dom());
        self.spec.expected_roles.lemma_ascending();
    }

    /// Takes the stream of `role` out of the window, fresh where it was never
    /// touched.
    fn take_stream(&mut self, role: &str) -> (result: Result<StreamCapture, ScanFailure>)
        requires
            old(self).wf(),
        ensures
            match result {
                Ok(stream) => {
                    &&& old(self)@.spec.expected_roles.contains(role@)
                    &&& stream@ == old(self)@.stream(role@)
                    &&& final(self).spec == old(self).spec
                    &&& final(self).streams.wf()
                    &&& final(self)@.streams == old(self)@.streams.remove(role@)
                },
                Err(failure) => !old(self)@.spec.expected_roles.contains(role@) && failure@
                    == FailureView::UnexpectedStream(role@) && *final(self) == *old(self),
            },
    {
        let key = role.to_owned();
        if !self.spec.expected_roles.contains(&key) {
            return Err(ScanFailure::UnexpectedStream { role: key });
        }
        let ghost before = self.streams@;
        let taken = self.streams.remove(&key);
        proof {
            assert(self@.streams =~= before.map_values(
                |stream: StreamCapture| stream@,
            ).remove(role@));
        }
        match taken {
            Some(stream) => Ok(stream),
            None => {
                let stream = StreamCapture { bytes: Vec::new(), closed: false, joined: false };
                assert(stream@.bytes =~= fresh_stream().bytes);
                Ok(stream)
            },
        }
    }

    /// Puts the stream of `role` back.
    fn put_stream(&mut self, role: &str, stream: StreamCapture)
        requires
            old(self).streams.wf(),
        ensures
            final(self).streams.wf(),
            final(self).spec == old(self).spec,
            final(self)@.streams == old(self)@.streams.insert(role@, stream@),
    {
        let ghost before = self.streams@;
        self.streams.insert(role.to_owned(), stream);
        proof {
            assert(self@.streams =~= before.map_values(
                |stream: StreamCapture| stream@,
            ).insert(role@, stream@));
        }
    }

    fn sensitive_kind(&self, bytes: &[u8]) -> (kind: Option<SentinelKind>)
        ensures
            kind == first_sentinel(self@.spec.sentinels, bytes@),
    {
        let ghost all = self@.spec.sentinels;
        let mut i: usize = 0;
        assert(all.skip(0) =~= all);
        while i < self.spec.sentinels.len()
            invariant
                i <= self.spec.sentinels.len(),
                all == sentinel_views(self.spec.sentinels@),
                first_sentinel(all, bytes@) == first_sentinel(all.skip(i as int), bytes@),
            decreases self.spec.sentinels.len() - i,
        {
            assert(all[i as int] == self.spec.sentinels@[i as int]@);
            if self.spec.sentinels[i].stands_in(bytes) {
                return Some(self.spec.sentinels[i].kind());
            }
            assert(all.skip(i as int).drop_first() =~= all.skip(i + 1));
            i += 1;
        }
        None
    }

    /// Captures `bytes` of the stream `role`.
    ///
    /// The captured stream is searched as a whole, so a value that arrives in
    /// two pieces is found.
    pub fn append(&mut self, role: &str, bytes: &[u8]) -> (result: Result<(), ScanFailure>)
        requires
            old(self).wf(),
        ensures
            final(self).wf(),
            final(self)@ == appended(old(self)@, role@, bytes@),
            match result {
                Ok(()) => append_failure(old(self)@, role@, bytes@) is None,
                Err(failure) => append_failure(old(self)@, role@, bytes@) == Some(failure@),
            },
    {
        let limit: usize = self.spec.max_bytes_per_stream;
        let ghost before = self@;
        let mut stream = match self.take_stream(role) {
            Ok(stream) => stream,
            Err(failure) => {
                return Err(failure);
            },
        };
        let ghost taken = stream@;
        assert(before.streams.remove(role@).insert(role@, taken) =~= before.streams.insert(
            role@,
            taken,
        ));
        if stream.closed {
            self.put_stream(role, stream);
            proof {
                assert(self@ == appended(before, role@, bytes@));
            }
            return Err(ScanFailure::AppendAfterClose { role: role.to_owned() });
        }
        if bytes.len() > limit || stream.bytes.len() > limit - bytes.len() {
            self.put_stream(role, stream);
            proof {
                assert(self@ == appended(before, role@, bytes@));
            }
            return Err(ScanFailure::CaptureOverflow { role: role.to_owned(), limit });
        }
        stream.bytes.extend_from_slice(bytes);
        proof {
            assert(stream@.bytes =~= taken.bytes + bytes@);
            assert(before.streams.remove(role@).insert(role@, stream@) =~= before.streams.insert(
                role@,
                stream@,
            ));
        }
        let kind = self.sensitive_kind(stream.bytes.as_slice());
        self.put_stream(role, stream);
        proof {
            assert(self@ == appended(before, role@, bytes@));
        }
        match kind {
            Some(kind) => Err(ScanFailure::SensitiveValue { role: role.to_owned(), kind }),
            None => Ok(()),
        }
    }

    /// Marks the stream `role` as ended.
    pub fn close(&mut self, role: &str) -> (result: Result<(), ScanFailure>)
        requires
            old(self).wf(),
        ensures
            final(self).wf(),
            final(self)@ == closed_window(old(self)@, role@),
            match result {
                Ok(()) => close_failure(old(self)@, role@) is None,
                Err(failure) => close_failure(old(self)@, role@) == Some(failure@),
            },
    {
        let ghost before = self@;
        let mut stream = match self.take_stream(role) {
            Ok(stream) => stream,
            Err(failure) => {
                return Err(failure);
            },
        };
        let ghost taken = stream@;
        let was_closed = stream.closed;
        stream.closed = true;
        assert(stream@ == (StreamView { closed: true, ..taken }));
        assert(before.streams.remove(role@).insert(role@, stream@) =~= before.streams.insert(
            role@,
            stream@,
        ));
        self.put_stream(role, stream);
        assert(self@ == closed_window(before, role@));
        if was_closed {
            return Err(ScanFailure::DuplicateClose { role: role.to_owned() });
        }
        Ok(())
    }

    /// Marks the task that fed the stream `role` as joined.
    pub fn mark_joined(&mut self, role: &str) -> (result: Result<(), ScanFailure>)
        requires
            old(self).wf(),
        ensures
            final(self).wf(),
            final(self)@ == joined_window(old(self)@, role@),
            match result {
                Ok(()) => join_failure(old(self)@, role@) is None,
                Err(failure) => join_failure(old(self)@, role@) == Some(failure@),
            },
    {
        let ghost before = self@;
        let mut stream = match self.take_stream(role) {
            Ok(stream) => stream,
            Err(failure) => {
                return Err(failure);
            },
        };
        let ghost taken = stream@;
        let closed = stream.closed;
        if closed {
            stream.joined = true;
        }
        assert(stream@ == (StreamView { joined: taken.joined || taken.closed, ..taken }));
        assert(before.streams.remove(role@).insert(role@, stream@) =~= before.streams.insert(
            role@,
            stream@,
        ));
        self.put_stream(role, stream);
        assert(self@ == joined_window(before, role@));
        if !closed {
            return Err(ScanFailure::JoinedBeforeClose { role: role.to_owned() });
        }
        Ok(())
    }
}

proof fn lemma_filter_step<A>(items: Seq<A>, i: int, keep: spec_fn(A) -> bool)
    requires
        0 <= i < items.len(),
    ensures
        items.take(i + 1).filter(keep) == if keep(items[i]) {
            items.take(i).filter(keep).push(items[i])
        } else {
            items.take(i).filter(keep)
        },
{
    assert(items.take(i + 1) =~= items.take(i).push(items[i]));
    items.take(i).lemma_filter_push(items[i], keep);
}

impl C11Window {
    proof fn lemma_streams(&self, i: int)
        requires
            self.wf(),
            0 <= i < self.streams.keys().len(),
        ensures
            self@.streams.dom().contains(self.streams.keys()[i]),
            self@.streams[self.streams.keys()[i]] == self.streams.values()[i]@,
    {
        lemma_entry(self.streams, i);
    }

    proof fn lemma_walk(&self, role: Seq<char>)
        requires
            self.wf(),
            self@.streams.dom().contains(role),
        ensures
            self.streams.keys().contains(role),
    {
        lemma_walk_holds(self.streams, role);
    }

    /// The failure of the first stream that is not closed and joined.
    fn check_settled(&self) -> (failure: Option<ScanFailure>)
        requires
            self.wf(),
        ensures
            match failure {
                None => !holds_any(unsettled(self@)),
                Some(failure) => holds_any(unsettled(self@)) && ({
                    let role = least::<String>(unsettled(self@));
                    failure@ == if !self@.streams[role].closed {
                        FailureView::StreamNotClosed(role)
                    } else {
                        FailureView::StreamNotJoined(role)
                    }
                }),
            },
    {
        let ghost keys = self.streams.keys();
        let mut i: usize = 0;
        while i < self.streams.len()
            invariant
                self.wf(),
                keys == self.streams.keys(),
                i <= keys.len(),
                forall|k: int| 0 <= k < i ==> !unsettled(self@).contains(#[trigger] keys[k]),
            decreases keys.len() - i,
        {
            let role = self.streams.key_at(i);
            let stream = self.streams.value_at(i);
            proof {
                self.lemma_streams(i as int);
            }
            if !stream.closed || !stream.joined {
                proof {
                    assert(unsettled(self@).contains(keys[i as int]));
                    assert forall|key: Seq<char>| #[trigger]
                        unsettled(self@).contains(key) implies keys.contains(key) by {
                        self.lemma_walk(key);
                    }
                    lemma_first_is_least::<String>(keys, unsettled(self@), i as int);
                }
                if !stream.closed {
                    return Some(ScanFailure::StreamNotClosed { role: role.clone() });
                }
                return Some(ScanFailure::StreamNotJoined { role: role.clone() });
            }
            i += 1;
        }
        proof {
            if holds_any(unsettled(self@)) {
                let role = choose|role: Seq<char>| unsettled(self@).contains(role);
                self.lemma_walk(role);
            }
        }
        None
    }

    /// The failure of the first expected stream that was never touched.
    fn check_present(&self) -> (failure: Option<ScanFailure>)
        requires
            self.wf(),
        ensures
            match failure {
                None => !holds_any(absent(self@)),
                Some(failure) => holds_any(absent(self@)) && failure@ == FailureView::MissingStream(
                    least::<String>(absent(self@)),
                ),
            },
    {
        let roles = &self.spec.expected_roles;
        let ghost keys = roles.keys();
        proof {
            roles.lemma_ascending();
        }
        let mut i: usize = 0;
        while i < roles.len()
            invariant
                self.wf(),
                *roles == self.spec.expected_roles,
                keys == roles.keys(),
                ascending::<String>(keys),
                i <= keys.len(),
                forall|k: int| 0 <= k < i ==> !absent(self@).contains(#[trigger] keys[k]),
            decreases keys.len() - i,
        {
            let role = roles.at(i);
            if !self.streams.contains_key(role) {
                proof {
                    assert(absent(self@).contains(keys[i as int]));
                    lemma_first_is_least::<String>(keys, absent(self@), i as int);
                }
                return Some(ScanFailure::MissingStream { role: role.clone() });
            }
            i += 1;
        }
        None
    }

    /// The peer faults that the relay snapshots name, or the failure of the
    /// first snapshot that is not in order.
    fn collect_faults(&self) -> (result: Result<OrderedSet<PeerFaultTuple>, ScanFailure>)
        requires
            self.wf(),
        ensures
            match result {
                Ok(tuples) => !holds_any(malformed(self@)) && tuples.wf() && tuples@
                    == faults_present(self@) && (forall|tuple: TupleKey| #[trigger]
                    tuples@.contains(tuple) ==> tuple_is_closed(tuple)),
                Err(failure) => holds_any(malformed(self@)) && failure@
                    == FailureView::InvalidPeerFault(
                    first_broken(
                        captured_rules(self@, least::<String>(malformed(self@))),
                    )->Some_0,
                ),
            },
    {
        let ghost keys = self.streams.keys();
        let ghost window = self@;
        let mut tuples: OrderedSet<PeerFaultTuple> = OrderedSet::new();
        let mut i: usize = 0;
        while i < self.streams.len()
            invariant
                self.wf(),
                window == self@,
                keys == self.streams.keys(),
                i <= keys.len(),
                tuples.wf(),
                forall|k: int| 0 <= k < i ==> !malformed(window).contains(#[trigger] keys[k]),
                forall|tuple: TupleKey| #[trigger] tuples@.contains(tuple) ==> tuple_is_closed(tuple),
                forall|tuple: TupleKey| #[trigger]
                    tuples@.contains(tuple) <==> exists|k: int|
                        0 <= k < i && is_snapshot_role(#[trigger] keys[k]) && snapshot_tuples(
                            json_documents(window.streams[keys[k]].bytes),
                        ).contains(tuple),
            decreases keys.len() - i,
        {
            let role = self.streams.key_at(i);
            let stream = self.streams.value_at(i);
            proof {
                self.lemma_streams(i as int);
            }
            let ghost before = tuples@;
            if text_starts_with(role.as_str(), RELAY_SNAPSHOT_ROLE_PREFIX) {
                match scan_peer_faults(stream.bytes.as_slice()) {
                    Ok(found) => {
                        extend_tuples(&mut tuples, &found);
                    },
                    Err(failure) => {
                        proof {
                            assert(malformed(window).contains(keys[i as int]));
                            assert forall|key: Seq<char>| #[trigger]
                                malformed(window).contains(key) implies keys.contains(key) by {
                                self.lemma_walk(key);
                            }
                            lemma_first_is_least::<String>(keys, malformed(window), i as int);
                        }
                        return Err(failure);
                    },
                }
            }
            proof {
                assert forall|tuple: TupleKey| #[trigger]
                    tuples@.contains(tuple) <==> exists|k: int|
                        0 <= k < i + 1 && is_snapshot_role(#[trigger] keys[k]) && snapshot_tuples(
                            json_documents(window.streams[keys[k]].bytes),
                        ).contains(tuple) by {
                    if before.contains(tuple) {
                        let k = choose|k: int|
                            0 <= k < i && is_snapshot_role(#[trigger] keys[k]) && snapshot_tuples(
                                json_documents(window.streams[keys[k]].bytes),
                            ).contains(tuple);
                        assert(0 <= k < i + 1 && is_snapshot_role(keys[k]));
                    }
                    if tuples@.contains(tuple) && !before.contains(tuple) {
                        assert(is_snapshot_role(keys[i as int]));
                    }
                }
            }
            i += 1;
        }
        proof {
            if holds_any(malformed(window)) {
                let role = choose|role: Seq<char>| malformed(window).contains(role);
                self.lemma_walk(role);
            }
            assert forall|tuple: TupleKey| #[trigger]
                tuples@.contains(tuple) == faults_present(window).contains(tuple) by {
                if tuples@.contains(tuple) {
                    let k = choose|k: int|
                        0 <= k < i && is_snapshot_role(#[trigger] keys[k]) && snapshot_tuples(
                            json_documents(window.streams[keys[k]].bytes),
                        ).contains(tuple);
                    self.lemma_streams(k);
                    assert(faults_present(window).contains(tuple));
                }
                if faults_present(window).contains(tuple) {
                    let role = choose|role: Seq<char>|
                        #![trigger window.streams[role]]
                        window.streams.dom().contains(role) && is_snapshot_role(role)
                            && snapshot_tuples(
                            json_documents(window.streams[role].bytes),
                        ).contains(tuple);
                    self.lemma_walk(role);
                    let k = choose|k: int| 0 <= k < keys.len() && keys[k] == role;
                    assert(is_snapshot_role(keys[k]));
                }
            }
            assert(tuples@ =~= faults_present(window));
        }
        Ok(tuples)
    }

    /// The failure of the first required peer fault that is not present.
    fn check_required(&self, present: &OrderedSet<PeerFaultTuple>) -> (failure: Option<
        ScanFailure,
    >)
        requires
            self.wf(),
            present.wf(),
            present@ == faults_present(self@),
        ensures
            match failure {
                None => !holds_any(unmet(self@)),
                Some(failure) => holds_any(unmet(self@)) && failure@
                    == FailureView::MissingPeerFault(
                    least::<PeerFaultRequirement>(unmet(self@)),
                ),
            },
    {
        let required = &self.spec.required_peer_faults;
        let ghost keys = required.keys();
        proof {
            required.lemma_ascending();
        }
        let mut i: usize = 0;
        while i < required.len()
            invariant
                self.wf(),
                present.wf(),
                present@ == faults_present(self@),
                *required == self.spec.required_peer_faults,
                keys == required.keys(),
                ascending::<PeerFaultRequirement>(keys),
                i <= keys.len(),
                forall|k: int| 0 <= k < i ==> !unmet(self@).contains(#[trigger] keys[k]),
            decreases keys.len() - i,
        {
            let requirement = required.at(i);
            if !requirement.is_satisfied_by(present) {
                proof {
                    assert(unmet(self@).contains(keys[i as int]));
                    lemma_first_is_least::<PeerFaultRequirement>(keys, unmet(self@), i as int);
                }
                return Some(
                    ScanFailure::MissingPeerFault { requirement: requirement.copy() },
                );
            }
            i += 1;
        }
        None
    }

    /// Whether a stream that may establish safe fields shows `field`.
    fn shows_field(&self, field: SafeField) -> (found: bool)
        requires
            self.wf(),
        ensures
            found == shows(self@, field),
    {
        let ghost keys = self.streams.keys();
        let mut i: usize = 0;
        while i < self.streams.len()
            invariant
                self.wf(),
                keys == self.streams.keys(),
                i <= keys.len(),
                forall|k: int|
                    0 <= k < i ==> !(self@.spec.safe_field_roles.contains(#[trigger] keys[k])
                        && field.shown_in(self@.streams[keys[k]].bytes)),
            decreases keys.len() - i,
        {
            let role = self.streams.key_at(i);
            let stream = self.streams.value_at(i);
            proof {
                self.lemma_streams(i as int);
            }
            if self.spec.safe_field_roles.contains(role) && field.matches(stream.bytes.as_slice()) {
                assert(self@.streams[keys[i as int]] == stream@);
                return true;
            }
            i += 1;
        }
        proof {
            if shows(self@, field) {
                let role = choose|role: Seq<char>|
                    #![trigger self@.streams[role]]
                    self@.streams.dom().contains(role) && self@.spec.safe_field_roles.contains(role)
                        && field.shown_in(self@.streams[role].bytes);
                self.lemma_walk(role);
            }
        }
        false
    }

    /// The fields shown, and the required ones among those that are not.
    fn sort_fields(&self) -> (result: (OrderedSet<SafeField>, Vec<SafeField>))
        requires
            self.wf(),
        ensures
            result.0.wf(),
            result.0@ == Set::new(|field: SafeField| shows(self@, field)),
            result.1@ == missing_fields(self@),
    {
        let ghost all = SafeField::ALL@;
        let ghost window = self@;
        let ghost keep = |field: SafeField|
            window.spec.required_fields.contains(field) && !shows(window, field);
        let mut present: OrderedSet<SafeField> = OrderedSet::new();
        let mut missing: Vec<SafeField> = Vec::new();
        let fields: [SafeField; 9] = SafeField::ALL;
        let mut i: usize = 0;
        assert(all.take(0).filter(keep) =~= Seq::<SafeField>::empty()) by {
            reveal(Seq::filter);
        }
        while i < 9
            invariant
                self.wf(),
                window == self@,
                fields@ == all,
                all == SafeField::ALL@,
                all.len() == 9,
                keep == (|field: SafeField|
                    window.spec.required_fields.contains(field) && !shows(window, field)),
                i <= 9,
                present.wf(),
                forall|field: SafeField| #[trigger]
                    present@.contains(field) <==> all.take(i as int).contains(field) && shows(
                        window,
                        field,
                    ),
                missing@ == all.take(i as int).filter(keep),
            decreases 9 - i,
        {
            let field = fields[i];
            let ghost before = present@;
            proof {
                lemma_filter_step(all, i as int, keep);
                assert(all.take(i + 1) =~= all.take(i as int).push(field));
            }
            if self.shows_field(field) {
                present.insert(field);
            } else if self.spec.required_fields.contains(&field) {
                missing.push(field);
            }
            proof {
                assert forall|other: SafeField| #[trigger]
                    present@.contains(other) <==> all.take(i + 1).contains(other) && shows(
                        window,
                        other,
                    ) by {
                    assert(all.take(i + 1).contains(other) <==> all.take(i as int).contains(other)
                        || other == field) by {
                        if all.take(i as int).contains(other) {
                            let k = choose|k: int| 0 <= k < i && all.take(i as int)[k] == other;
                            assert(all.take(i + 1)[k] == other);
                        }
                        if other == field {
                            assert(all.take(i + 1)[i as int] == other);
                        }
                    }
                }
            }
            i += 1;
        }
        proof {
            assert(all.take(9) =~= all);
            assert forall|field: SafeField| #[trigger]
                present@.contains(field) == shows(window, field) by {
                lemma_all_fields(field);
            }
            assert(present@ =~= Set::new(|field: SafeField| shows(window, field)));
        }
        (present, missing)
    }

    fn captured_lengths(&self) -> (lengths: OrderedMap<String, usize>)
        requires
            self.wf(),
        ensures
            lengths.wf(),
            lengths@ == self@.streams.map_values(
                |stream: StreamView| stream.bytes.len() as usize,
            ),
    {
        let ghost keys = self.streams.keys();
        let ghost target = self@.streams.map_values(
            |stream: StreamView| stream.bytes.len() as usize,
        );
        let mut lengths: OrderedMap<String, usize> = OrderedMap::new();
        let mut i: usize = 0;
        while i < self.streams.len()
            invariant
                self.wf(),
                keys == self.streams.keys(),
                target == self@.streams.map_values(
                    |stream: StreamView| stream.bytes.len() as usize,
                ),
                i <= keys.len(),
                lengths.wf(),
                forall|role: Seq<char>| #[trigger]
                    lengths@.dom().contains(role) <==> keys.take(i as int).contains(role),
                forall|role: Seq<char>| #[trigger]
                    lengths@.dom().contains(role) ==> lengths@[role] == target[role],
            decreases keys.len() - i,
        {
            let role = self.streams.key_at(i);
            let stream = self.streams.value_at(i);
            let ghost before = lengths@;
            proof {
                self.lemma_streams(i as int);
            }
            lengths.insert(role.clone(), stream.bytes.len());
            proof {
                assert(keys.take(i + 1) =~= keys.take(i as int).push(keys[i as int]));
                assert(forall|other: Seq<char>| #[trigger]
                    keys.take(i + 1).contains(other) <==> keys.take(i as int).contains(other)
                        || other == keys[i as int]) by {
                    assert forall|other: Seq<char>| #[trigger]
                        keys.take(i + 1).contains(other) <==> keys.take(i as int).contains(other)
                            || other == keys[i as int] by {
                        if keys.take(i as int).contains(other) {
                            let k = choose|k: int|
                                0 <= k < i && keys.take(i as int)[k] == other;
                            assert(keys.take(i + 1)[k] == other);
                        }
                        if other == keys[i as int] {
                            assert(keys.take(i + 1)[i as int] == other);
                        }
                    }
                }
            }
            i += 1;
        }
        proof {
            assert(keys.take(i as int) =~= keys);
            assert forall|role: Seq<char>| #[trigger]
                lengths@.dom().contains(role) == target.dom().contains(role) by {
                if target.dom().contains(role) {
                    self.lemma_walk(role);
                }
                if keys.contains(role) {
                    let k = choose|k: int| 0 <= k < keys.len() && keys[k] == role;
                    self.lemma_streams(k);
                }
            }
            assert(lengths@ =~= target);
        }
        lengths
    }

    /// Ends the window: its report, or the first thing that is not in order.
    pub fn finish(self, ended_utc_ms: i64) -> (result: Result<C11ScanReport, ScanFailure>)
        requires
            self.wf(),
        ensures
            match result {
                Ok(report) => finish_failure(self@, ended_utc_ms) is None && report.wf() && report@
                    == window_report(self@, ended_utc_ms) && (forall|tuple: TupleKey| #[trigger]
                    report@.peer_faults_present.contains(tuple) ==> tuple_is_closed(tuple)),
                Err(failure) => finish_failure(self@, ended_utc_ms) == Some(failure@),
            },
    {
        if ended_utc_ms < self.spec.started_utc_ms {
            return Err(ScanFailure::InvalidWindow);
        }
        match self.check_settled() {
            Some(failure) => {
                return Err(failure);
            },
            None => {},
        }
        match self.check_present() {
            Some(failure) => {
                return Err(failure);
            },
            None => {},
        }
        let faults = match self.collect_faults() {
            Ok(faults) => faults,
            Err(failure) => {
                return Err(failure);
            },
        };
        match self.check_required(&faults) {
            Some(failure) => {
                return Err(failure);
            },
            None => {},
        }
        let (present, missing) = self.sort_fields();
        if missing.len() > 0 {
            return Err(ScanFailure::MissingSafeFields { fields: missing });
        }
        let lengths = self.captured_lengths();
        Ok(
            C11ScanReport {
                run_id: self.spec.run_id,
                source_id: self.spec.source_id,
                build_id: self.spec.build_id,
                stage: self.spec.stage,
                outcome: self.spec.outcome,
                started_utc_ms: self.spec.started_utc_ms,
                ended_utc_ms,
                bytes_by_role: lengths,
                fields_present: present,
                peer_faults_present: faults,
            },
        )
    }
}

/// Appending, closing and joining keep a window valid: only expected streams,
/// none over the capture limit, none joined before it was closed.
pub proof fn lemma_operations_keep_validity(window: WindowView, role: Seq<char>, bytes: Seq<u8>)
    requires
        window.is_valid(),
    ensures
        appended(window, role, bytes).is_valid(),
        closed_window(window, role).is_valid(),
        joined_window(window, role).is_valid(),
{
}

/// As long as every append is accepted, no captured stream holds a sentinel
/// value; closing and joining change nothing about it.
pub proof fn lemma_accepted_appends_stay_clean(
    window: WindowView,
    role: Seq<char>,
    bytes: Seq<u8>,
)
    requires
        window.is_clean(),
    ensures
        append_failure(window, role, bytes) is None ==> appended(window, role, bytes).is_clean(),
        closed_window(window, role).is_clean(),
        joined_window(window, role).is_clean(),
{
    if append_failure(window, role, bytes) is None {
        let after = appended(window, role, bytes);
        let grown = window.stream(role).bytes + bytes;
        lemma_first_sentinel(window.spec.sentinels, grown);
        assert forall|other: Seq<char>, i: int|
            #![trigger after.streams[other], after.spec.sentinels[i]]
            after.streams.dom().contains(other) && 0 <= i
                < after.spec.sentinels.len() implies !holds_bytes(
            after.streams[other].bytes,
            after.spec.sentinels[i].1,
        ) by {
            if other != role {
                assert(after.streams[other] == window.streams[other]);
                assert(!holds_bytes(window.streams[other].bytes, window.spec.sentinels[i].1));
            } else {
                assert(after.streams[role].bytes == grown);
                assert(!holds_bytes(grown, window.spec.sentinels[i].1));
            }
        }
    }
    let closed = closed_window(window, role);
    let joined = joined_window(window, role);
    assert forall|other: Seq<char>, i: int|
        #![trigger closed.streams[other], closed.spec.sentinels[i]]
        closed.streams.dom().contains(other) && 0 <= i
            < closed.spec.sentinels.len() implies !holds_bytes(
        closed.streams[other].bytes,
        closed.spec.sentinels[i].1,
    ) by {
        if window.streams.dom().contains(other) {
            assert(closed.streams[other].bytes == window.streams[other].bytes);
        }
    }
    assert forall|other: Seq<char>, i: int|
        #![trigger joined.streams[other], joined.spec.sentinels[i]]
        joined.streams.dom().contains(other) && 0 <= i
            < joined.spec.sentinels.len() implies !holds_bytes(
        joined.streams[other].bytes,
        joined.spec.sentinels[i].1,
    ) by {
        if window.streams.dom().contains(other) {
            assert(joined.streams[other].bytes == window.streams[other].bytes);
        }
    }
}

/// What is said of a refused append holds nothing of the bytes or of the
/// sentinels: two windows whose appends are refused for a sensitive value of
/// the same kind in the same role say the same.
pub proof fn lemma_refusal_is_payload_free(
    first: WindowView,
    second: WindowView,
    role: Seq<char>,
    bytes: Seq<u8>,
    others: Seq<u8>,
    kind: SentinelKind,
)
    requires
        append_failure(first, role, bytes) == Some(FailureView::SensitiveValue(role, kind)),
        append_failure(second, role, others) is Some,
        append_failure(second, role, others)->Some_0 is SensitiveValue,
        append_failure(second, role, others)->Some_0->SensitiveValue_1 == kind,
    ensures
        append_failure(first, role, bytes)->Some_0.text() == append_failure(
            second,
            role,
            others,
        )->Some_0.text(),
        append_failure(first, role, bytes)->Some_0.text() == "sensitive "@ + kind.name()
            + " value in "@ + role,
{
}

/// A sentinel value that arrives in two pieces is refused at the second one,
/// by its role and a kind, as long as the stream is open and has room.
pub proof fn lemma_split_value_is_found(
    window: WindowView,
    role: Seq<char>,
    first: Seq<u8>,
    second: Seq<u8>,
    i: int,
)
    requires
        window.spec.expected_roles.contains(role),
        !window.stream(role).closed,
        window.stream(role).bytes.len() + first.len() + second.len()
            <= window.spec.max_bytes_per_stream,
        0 <= i < window.spec.sentinels.len(),
        holds_bytes(first + second, window.spec.sentinels[i].1),
    ensures
        append_failure(appended(window, role, first), role, second) matches Some(
            FailureView::SensitiveValue(found, kind),
        ) && found == role,
{
    let after = appended(window, role, first);
    let captured = window.stream(role).bytes;
    let value = window.spec.sentinels[i].1;
    let at = choose|at: int| occurs_at(first + second, value, at);
    let whole = after.stream(role).bytes + second;
    assert(whole.subrange(captured.len() + at, captured.len() + at + value.len()) =~= (first
        + second).subrange(at, at + value.len()));
    assert(occurs_at(whole, value, captured.len() + at));
    assert(holds_bytes(whole, value));
    lemma_first_sentinel(window.spec.sentinels, whole);
}

/// What a closed stream captured never changes again.
pub proof fn lemma_closed_stream_is_frozen(
    window: WindowView,
    closed: Seq<char>,
    role: Seq<char>,
    bytes: Seq<u8>,
)
    requires
        window.streams.dom().contains(closed),
        window.streams[closed].closed,
    ensures
        appended(window, role, bytes).streams[closed] == window.streams[closed],
        closed_window(window, role).streams[closed] == window.streams[closed],
        joined_window(window, role).streams[closed].bytes == window.streams[closed].bytes,
        joined_window(window, role).streams[closed].closed,
{
}

/// A window that is not refused is complete: every expected stream was
/// captured, closed and joined, every relay snapshot is in order, every
/// required peer fault is present and every required field is shown.
pub proof fn lemma_accepted_window(window: WindowView, ended: i64)
    requires
        finish_failure(window, ended) is None,
    ensures
        window.spec.started_utc_ms <= ended,
        forall|role: Seq<char>| #[trigger]
            window.spec.expected_roles.contains(role) ==> window.streams.dom().contains(role),
        forall|role: Seq<char>| #[trigger]
            window.streams.dom().contains(role) ==> window.streams[role].closed
                && window.streams[role].joined,
        forall|role: Seq<char>| #[trigger]
            window.streams.dom().contains(role) && is_snapshot_role(role) ==> first_broken(
                captured_rules(window, role),
            ) is None,
        forall|requirement: RequirementKey| #[trigger]
            window.spec.required_peer_faults.contains(requirement) ==> satisfied_by(
                requirement,
                faults_present(window),
            ),
        forall|field: SafeField| #[trigger]
            window.spec.required_fields.contains(field) ==> shows(window, field),
{
    assert forall|role: Seq<char>| #[trigger]
        window.spec.expected_roles.contains(role) implies window.streams.dom().contains(role) by {
        assert(!absent(window).contains(role));
    }
    assert forall|role: Seq<char>| #[trigger]
        window.streams.dom().contains(role) implies window.streams[role].closed
        && window.streams[role].joined by {
        assert(!unsettled(window).contains(role));
    }
    assert forall|role: Seq<char>| #[trigger]
        window.streams.dom().contains(role) && is_snapshot_role(role) implies first_broken(
        captured_rules(window, role),
    ) is None by {
        assert(!malformed(window).contains(role));
    }
    assert forall|requirement: RequirementKey| #[trigger]
        window.spec.required_peer_faults.contains(requirement) implies satisfied_by(
        requirement,
        faults_present(window),
    ) by {
        assert(!unmet(window).contains(requirement));
    }
    let keep = |field: SafeField|
        window.spec.required_fields.contains(field) && !shows(window, field);
    assert forall|field: SafeField| #[trigger]
        window.spec.required_fields.contains(field) implies shows(window, field) by {
        lemma_all_fields(field);
        if keep(field) {
            SafeField::ALL@.lemma_filter_contains(keep, field.rank());
        }
    }
}

/// Only typed relay snapshots name peer faults, and only safe-field roles
/// show fields: what another stream carries changes neither.
pub proof fn lemma_wrapper_text_proves_nothing(
    window: WindowView,
    role: Seq<char>,
    stream: StreamView,
)
    requires
        window.streams.dom().contains(role),
    ensures
        !is_snapshot_role(role) ==> faults_present(window.with_stream(role, stream))
            == faults_present(window),
        !window.spec.safe_field_roles.contains(role) ==> forall|field: SafeField| #[trigger]
            shows(window.with_stream(role, stream), field) == shows(window, field),
{
    let other = window.with_stream(role, stream);
    if !is_snapshot_role(role) {
        assert forall|tuple: TupleKey| #[trigger]
            faults_present(other).contains(tuple) == faults_present(window).contains(tuple) by {
            if faults_present(other).contains(tuple) {
                let at = choose|at: Seq<char>|
                    #![trigger other.streams[at]]
                    other.streams.dom().contains(at) && is_snapshot_role(at) && snapshot_tuples(
                        json_documents(other.streams[at].bytes),
                    ).contains(tuple);
                assert(window.streams[at] == other.streams[at]);
            }
            if faults_present(window).contains(tuple) {
                let at = choose|at: Seq<char>|
                    #![trigger window.streams[at]]
                    window.streams.dom().contains(at) && is_snapshot_role(at) && snapshot_tuples(
                        json_documents(window.streams[at].bytes),
                    ).contains(tuple);
                assert(window.streams[at] == other.streams[at]);
            }
        }
        assert(faults_present(other) =~= faults_present(window));
    }
    if !window.spec.safe_field_roles.contains(role) {
        assert forall|field: SafeField| #[trigger] shows(other, field) == shows(window, field) by {
            if shows(other, field) {
                let at = choose|at: Seq<char>|
                    #![trigger other.streams[at]]
                    other.streams.dom().contains(at) && other.spec.safe_field_roles.contains(at)
                        && field.shown_in(other.streams[at].bytes);
                assert(window.streams[at] == other.streams[at]);
            }
            if shows(window, field) {
                let at = choose|at: Seq<char>|
                    #![trigger window.streams[at]]
                    window.streams.dom().contains(at) && window.spec.safe_field_roles.contains(at)
                        && field.shown_in(window.streams[at].bytes);
                assert(window.streams[at] == other.streams[at]);
            }
        }
    }
}

/// The kind that is named is that of a sentinel whose value stands in the
/// bytes, and no sentinel before it does.
pub proof fn lemma_named_sentinel(sentinels: Seq<(SentinelKind, Seq<u8>)>, bytes: Seq<u8>)
    ensures
        first_sentinel(sentinels, bytes) matches Some(kind) ==> exists|i: int|
            {
                &&& 0 <= i < sentinels.len()
                &&& (#[trigger] sentinels[i]).0 == kind
                &&& holds_bytes(bytes, sentinels[i].1)
                &&& forall|j: int| 0 <= j < i ==> !holds_bytes(bytes, (#[trigger] sentinels[j]).1)
            },
    decreases sentinels.len(),
{
    if sentinels.len() > 0 && !holds_bytes(bytes, sentinels[0].1) {
        let rest = sentinels.drop_first();
        lemma_named_sentinel(rest, bytes);
        if first_sentinel(rest, bytes) is Some {
            let kind = first_sentinel(rest, bytes)->Some_0;
            let i = choose|i: int|
                {
                    &&& 0 <= i < rest.len()
                    &&& (#[trigger] rest[i]).0 == kind
                    &&& holds_bytes(bytes, rest[i].1)
                    &&& forall|j: int| 0 <= j < i ==> !holds_bytes(bytes, (#[trigger] rest[j]).1)
                };
            assert(sentinels[i + 1] == rest[i]);
            assert forall|j: int| 0 <= j < i + 1 implies !holds_bytes(
                bytes,
                (#[trigger] sentinels[j]).1,
            ) by {
                if j > 0 {
                    assert(rest[j - 1] == sentinels[j]);
                }
            }
        }
    } else if sentinels.len() > 0 {
        assert(holds_bytes(bytes, sentinels[0].1));
    }
}

/// An append is accepted exactly when its stream is expected and open, the
/// stream with the new bytes stays inside the limit, and no sentinel value
/// stands anywhere in it.
pub proof fn lemma_accepted_append(window: WindowView, role: Seq<char>, bytes: Seq<u8>)
    ensures
        append_failure(window, role, bytes) is None <==> {
            let held = if window.streams.dom().contains(role) {
                window.streams[role].bytes
            } else {
                Seq::empty()
            };
            &&& window.spec.expected_roles.contains(role)
            &&& window.streams.dom().contains(role) ==> !window.streams[role].closed
            &&& held.len() + bytes.len() <= window.spec.max_bytes_per_stream
            &&& forall|i: int|
                0 <= i < window.spec.sentinels.len() ==> !holds_bytes(
                    held + bytes,
                    (#[trigger] window.spec.sentinels[i]).1,
                )
        },
{
    lemma_first_sentinel(window.spec.sentinels, window.stream(role).bytes + bytes);
}

/// An accepted append adds its bytes at the end of its own stream and leaves
/// the stream open, and every other stream as it is.  A refused one loses no
/// byte that was captured.
pub proof fn lemma_append_adds_at_the_end(
    window: WindowView,
    role: Seq<char>,
    bytes: Seq<u8>,
    other: Seq<char>,
)
    ensures
        appended(window, role, bytes).spec == window.spec,
        append_failure(window, role, bytes) is None ==> {
            let after = appended(window, role, bytes);
            &&& after.streams.dom() == window.streams.dom().insert(role)
            &&& window.streams.dom().contains(role) ==> after.streams[role].bytes
                == window.streams[role].bytes + bytes && after.streams[role].joined
                == window.streams[role].joined
            &&& !window.streams.dom().contains(role) ==> after.streams[role].bytes == bytes
                && !after.streams[role].joined
            &&& !after.streams[role].closed
        },
        other != role && window.streams.dom().contains(other) ==> appended(
            window,
            role,
            bytes,
        ).streams.dom().contains(other) && appended(window, role, bytes).streams[other]
            == window.streams[other],
        window.streams.dom().contains(role) ==> window.streams[role].bytes.is_prefix_of(
            appended(window, role, bytes).streams[role].bytes,
        ),
{
    let after = appended(window, role, bytes);
    if append_failure(window, role, bytes) is None {
        assert(after.streams.dom() =~= window.streams.dom().insert(role));
        assert(Seq::<u8>::empty() + bytes =~= bytes);
    }
    if window.streams.dom().contains(role) {
        let held = window.streams[role].bytes;
        assert(after.streams[role].bytes.subrange(0, held.len() as int) =~= held);
    }
}

/// A stream is closed once and joined only after that: a close is accepted
/// exactly where the stream is expected and open, a join exactly where it is
/// expected and closed, and each marks its own stream and nothing else.
pub proof fn lemma_close_then_join(window: WindowView, role: Seq<char>, other: Seq<char>)
    ensures
        close_failure(window, role) is None <==> window.spec.expected_roles.contains(role) && (
        window.streams.dom().contains(role) ==> !window.streams[role].closed),
        join_failure(window, role) is None <==> window.spec.expected_roles.contains(role)
            && window.streams.dom().contains(role) && window.streams[role].closed,
        window.spec.expected_roles.contains(role) ==> {
            let closed = closed_window(window, role);
            &&& closed.streams.dom().contains(role) && closed.streams[role].closed
            &&& close_failure(closed, role) is Some
            &&& join_failure(closed, role) is None
            &&& joined_window(closed, role).streams[role].joined
            &&& joined_window(closed, role).streams[role].closed
        },
        join_failure(window, role) is Some && window.streams.dom().contains(role) ==> joined_window(
            window,
            role,
        ).streams[role].joined == window.streams[role].joined,
        window.streams.dom().contains(role) ==> closed_window(window, role).streams[role].bytes
            == window.streams[role].bytes && joined_window(window, role).streams[role].bytes
            == window.streams[role].bytes,
        other != role && window.streams.dom().contains(other) ==> closed_window(
            window,
            role,
        ).streams[other] == window.streams[other] && joined_window(window, role).streams[other]
            == window.streams[other],
{
}

/// A window that is complete is accepted: the converse of
/// [`lemma_accepted_window`].
pub proof fn lemma_complete_window_is_accepted(window: WindowView, ended: i64)
    requires
        window.spec.started_utc_ms <= ended,
        forall|role: Seq<char>| #[trigger]
            window.spec.expected_roles.contains(role) ==> window.streams.dom().contains(role),
        forall|role: Seq<char>| #[trigger]
            window.streams.dom().contains(role) ==> window.streams[role].closed
                && window.streams[role].joined,
        forall|role: Seq<char>| #[trigger]
            window.streams.dom().contains(role) && is_snapshot_role(role) ==> first_broken(
                snapshot_rules(json_documents(window.streams[role].bytes)),
            ) is None,
        forall|requirement: RequirementKey| #[trigger]
            window.spec.required_peer_faults.contains(requirement) ==> satisfied_by(
                requirement,
                faults_present(window),
            ),
        forall|field: SafeField| #[trigger]
            window.spec.required_fields.contains(field) ==> shows(window, field),
    ensures
        finish_failure(window, ended) is None,
{
    let keep = |field: SafeField|
        window.spec.required_fields.contains(field) && !shows(window, field);
    let missing = SafeField::ALL@.filter(keep);
    if missing.len() > 0 {
        SafeField::ALL@.lemma_filter_pred(keep, 0);
        assert(keep(missing[0]));
    }
}

/// What a refused window is refused for is so: the stream that is named was
/// not closed, was not joined or was never captured, the peer fault that is
/// named was required and is not there, and the fields that are named are
/// exactly those that were required and that no stream shows.
pub proof fn lemma_refused_window(window: WindowView, ended: i64)
    requires
        window.streams.dom().finite(),
        window.spec.expected_roles.finite(),
        window.spec.required_peer_faults.finite(),
    ensures
        match finish_failure(window, ended) {
            None => true,
            Some(FailureView::InvalidWindow) => ended < window.spec.started_utc_ms,
            Some(FailureView::StreamNotClosed(role)) => window.streams.dom().contains(role)
                && !window.streams[role].closed,
            Some(FailureView::StreamNotJoined(role)) => window.streams.dom().contains(role)
                && window.streams[role].closed && !window.streams[role].joined,
            Some(FailureView::MissingStream(role)) => window.spec.expected_roles.contains(role)
                && !window.streams.dom().contains(role),
            Some(FailureView::InvalidPeerFault(reason)) => exists|role: Seq<char>|
                #![trigger window.streams[role]]
                window.streams.dom().contains(role) && is_snapshot_role(role) && first_broken(
                    snapshot_rules(json_documents(window.streams[role].bytes)),
                ) == Some(reason),
            Some(FailureView::MissingPeerFault(requirement)) =>
                window.spec.required_peer_faults.contains(requirement) && !satisfied_by(
                    requirement,
                    faults_present(window),
                ),
            Some(FailureView::MissingSafeFields(fields)) => forall|field: SafeField|
                fields.contains(field) <==> #[trigger] window.spec.required_fields.contains(field)
                    && !shows(window, field),
            Some(_) => false,
        },
        ended < window.spec.started_utc_ms ==> finish_failure(window, ended) == Some(
            FailureView::InvalidWindow,
        ),
{
    if holds_any(unsettled(window)) {
        let role = choose|role: Seq<char>| unsettled(window).contains(role);
        vstd::set_lib::lemma_set_subset_finite(window.streams.dom(), unsettled(window));
        lemma_least_exists::<String>(unsettled(window), role);
        assert(unsettled(window).contains(least::<String>(unsettled(window))));
    }
    if holds_any(absent(window)) {
        let role = choose|role: Seq<char>| absent(window).contains(role);
        vstd::set_lib::lemma_set_subset_finite(window.spec.expected_roles, absent(window));
        lemma_least_exists::<String>(absent(window), role);
        assert(absent(window).contains(least::<String>(absent(window))));
    }
    if holds_any(malformed(window)) {
        let role = choose|role: Seq<char>| malformed(window).contains(role);
        vstd::set_lib::lemma_set_subset_finite(window.streams.dom(), malformed(window));
        lemma_least_exists::<String>(malformed(window), role);
        let named = least::<String>(malformed(window));
        assert(malformed(window).contains(named));
        assert(window.streams.dom().contains(named));
        let stream = window.streams[named];
    }
    if holds_any(unmet(window)) {
        let one = choose|one: RequirementKey| unmet(window).contains(one);
        vstd::set_lib::lemma_set_subset_finite(window.spec.required_peer_faults, unmet(window));
        lemma_least_exists::<PeerFaultRequirement>(unmet(window), one);
        assert(unmet(window).contains(least::<PeerFaultRequirement>(unmet(window))));
    }
    lemma_missing_fields(window);
}

/// The missing fields are those that were required and that no stream shows.
pub proof fn lemma_missing_fields(window: WindowView)
    ensures
        forall|field: SafeField|
            missing_fields(window).contains(field) <==> #[trigger]
            window.spec.required_fields.contains(field) && !shows(window, field),
{
    let keep = |field: SafeField|
        window.spec.required_fields.contains(field) && !shows(window, field);
    let missing = SafeField::ALL@.filter(keep);
    assert forall|field: SafeField|
        missing.contains(field) <==> #[trigger] window.spec.required_fields.contains(field)
            && !shows(window, field) by {
        if missing.contains(field) {
            let i = choose|i: int| 0 <= i < missing.len() && missing[i] == field;
            SafeField::ALL@.lemma_filter_pred(keep, i);
            assert(keep(missing[i]));
        }
        if keep(field) {
            lemma_all_fields(field);
            SafeField::ALL@.lemma_filter_contains(keep, field.rank());
        }
    }
}

/// What a report says of its window: the identity and the span of the run, the
/// exact number of bytes of each stream, each field that a safe-field stream
/// shows, and the peer faults of the relay snapshots.
pub proof fn lemma_report_measures_its_window(
    window: WindowView,
    ended: i64,
    role: Seq<char>,
    field: SafeField,
)
    requires
        window.is_valid(),
    ensures
        window_report(window, ended).run_id == window.spec.run_id,
        window_report(window, ended).source_id == window.spec.source_id,
        window_report(window, ended).build_id == window.spec.build_id,
        window_report(window, ended).stage == window.spec.stage,
        window_report(window, ended).outcome == window.spec.outcome,
        window_report(window, ended).started_utc_ms == window.spec.started_utc_ms,
        window_report(window, ended).ended_utc_ms == ended,
        window_report(window, ended).bytes_by_role.dom().contains(role)
            <==> window.streams.dom().contains(role),
        window.streams.dom().contains(role) ==> window_report(window, ended).bytes_by_role[role]
            == window.streams[role].bytes.len(),
        window_report(window, ended).fields_present.contains(field) <==> exists|at: Seq<char>|
            #![trigger window.streams[at]]
            window.streams.dom().contains(at) && window.spec.safe_field_roles.contains(at)
                && field.shown_in(window.streams[at].bytes),
{
}

/// No recent fault of any frame of any relay snapshot of an accepted window is
/// missing from its report: each entry of the ring of recent faults is there by
/// its role, stage and cause.
pub proof fn lemma_report_names_recent_faults(
    window: WindowView,
    ended: i64,
    role: Seq<char>,
    frame: int,
    recent: Seq<JsonView>,
    i: int,
)
    requires
        finish_failure(window, ended) is None,
        window.streams.dom().contains(role),
        is_snapshot_role(role),
        0 <= frame < json_documents(window.streams[role].bytes).len(),
        json_documents(window.streams[role].bytes)[frame] matches Some(document) && (document.get(
            "peer_fault_diagnostics"@,
        ) matches Some(table) && table.get("recent"@) == Some(JsonView::Array(recent))),
        0 <= i < recent.len(),
    ensures
        window_report(window, ended).peer_faults_present.contains(
            (
                recent[i].text_of("role"@)->Some_0,
                recent[i].text_of("stage"@)->Some_0,
                recent[i].text_of("cause"@)->Some_0,
            ),
        ),
{
    lemma_accepted_window(window, ended);
    assert(first_broken(captured_rules(window, role)) is None);
    let stream = window.streams[role];
    lemma_snapshot_names_recent_faults(json_documents(stream.bytes), frame, recent, i);
}

/// No last fault of any frame of any relay snapshot of an accepted window is
/// missing from its report.
pub proof fn lemma_report_names_last_faults(
    window: WindowView,
    ended: i64,
    role: Seq<char>,
    frame: int,
    last: Seq<(Seq<char>, JsonView)>,
    i: int,
)
    requires
        finish_failure(window, ended) is None,
        window.streams.dom().contains(role),
        is_snapshot_role(role),
        0 <= frame < json_documents(window.streams[role].bytes).len(),
        json_documents(window.streams[role].bytes)[frame] matches Some(document) && (document.get(
            "peer_fault_diagnostics"@,
        ) matches Some(table) && table.get("last_by_stage"@) == Some(JsonView::Object(last))),
        0 <= i < last.len(),
    ensures
        window_report(window, ended).peer_faults_present.contains(
            (
                last[i].1.text_of("role"@)->Some_0,
                last[i].0,
                last[i].1.text_of("cause"@)->Some_0,
            ),
        ),
{
    lemma_accepted_window(window, ended);
    assert(first_broken(captured_rules(window, role)) is None);
    let stream = window.streams[role];
    lemma_snapshot_names_last_faults(json_documents(stream.bytes), frame, last, i);
}

/// A specification is accepted exactly when its three identifiers and all of
/// its roles are bounded and it has at least one role.
pub proof fn lemma_accepted_spec(
    run_id: Seq<char>,
    source_id: Seq<char>,
    build_id: Seq<char>,
    roles: Seq<Seq<char>>,
)
    ensures
        spec_failure(run_id, source_id, build_id, roles) is None <==> {
            &&& is_token(run_id)
            &&& is_token(source_id)
            &&& is_token(build_id)
            &&& roles.len() > 0
            &&& forall|i: int| 0 <= i < roles.len() ==> is_token(#[trigger] roles[i])
        },
{
}

/// A declared peer fault asks for its role and its cause at each of the stages
/// between its bars, and a list of them asks for each.
pub proof fn lemma_declared_faults(declared: Seq<(&str, &str, &str)>, i: int, stage: Seq<char>)
    requires
        0 <= i < declared.len(),
    ensures
        declared_key(declared[i]).0 == declared[i].0@,
        declared_key(declared[i]).2 == declared[i].2@,
        declared_key(declared[i]).1.contains(stage) <==> split_on(declared[i].1@, '|').contains(
            stage,
        ),
        declared_keys(declared).contains(declared_key(declared[i])),
{
    let of = |one: (&str, &str, &str)| declared_key(one);
    let stages = split_on(declared[i].1@, '|');
    lemma_distinct(stages);
    assert(distinct(stages).contains(stage) == distinct(stages).to_set().contains(stage));
    assert(stages.contains(stage) == stages.to_set().contains(stage));
    assert(declared.map_values(of)[i] == declared_key(declared[i]));
    assert(declared.map_values(of).contains(declared_key(declared[i])));
}

/// A snapshot is a relay's exactly when its role begins as those of relays do.
pub proof fn lemma_relay_snapshots(name: Seq<char>, role: Seq<char>)
    ensures
        is_snapshot_role("snapshot-relay-"@ + name),
        is_snapshot_role(role) ==> role.len() >= 15 && role.take(15) == "snapshot-relay-"@,
{
    reveal_strlit("snapshot-relay-");
    let whole = "snapshot-relay-"@ + name;
    assert(whole.take("snapshot-relay-"@.len() as int) =~= "snapshot-relay-"@);
}

/// What a specification is refused for, in the order in which it is looked at.
pub proof fn lemma_refused_spec(
    run_id: Seq<char>,
    source_id: Seq<char>,
    build_id: Seq<char>,
    roles: Seq<Seq<char>>,
)
    ensures
        !is_token(run_id) ==> spec_failure(run_id, source_id, build_id, roles) == Some(
            FailureView::InvalidToken("run_id"@),
        ),
        is_token(run_id) && !is_token(source_id) ==> spec_failure(
            run_id,
            source_id,
            build_id,
            roles,
        ) == Some(FailureView::InvalidToken("source_id"@)),
        is_token(run_id) && is_token(source_id) && !is_token(build_id) ==> spec_failure(
            run_id,
            source_id,
            build_id,
            roles,
        ) == Some(FailureView::InvalidToken("build_id"@)),
        is_token(run_id) && is_token(source_id) && is_token(build_id) && roles.len() == 0
            ==> spec_failure(run_id, source_id, build_id, roles) == Some(
            FailureView::NoExpectedStreams,
        ),
{
}

/// What a refused append, close or join is refused for is so.
pub proof fn lemma_refused_operations(window: WindowView, role: Seq<char>, bytes: Seq<u8>)
    ensures
        match append_failure(window, role, bytes) {
            None => true,
            Some(FailureView::UnexpectedStream(named)) => named == role
                && !window.spec.expected_roles.contains(role),
            Some(FailureView::AppendAfterClose(named)) => named == role
                && window.streams.dom().contains(role) && window.streams[role].closed,
            Some(FailureView::CaptureOverflow(named, limit)) => named == role && limit
                == window.spec.max_bytes_per_stream && window.stream(role).bytes.len()
                + bytes.len() > limit,
            Some(FailureView::SensitiveValue(named, kind)) => named == role && exists|i: int|
                0 <= i < window.spec.sentinels.len() && (#[trigger] window.spec.sentinels[i]).0
                    == kind && holds_bytes(
                    window.stream(role).bytes + bytes,
                    window.spec.sentinels[i].1,
                ),
            Some(_) => false,
        },
        match close_failure(window, role) {
            None => true,
            Some(FailureView::UnexpectedStream(named)) => named == role
                && !window.spec.expected_roles.contains(role),
            Some(FailureView::DuplicateClose(named)) => named == role
                && window.streams.dom().contains(role) && window.streams[role].closed,
            Some(_) => false,
        },
        match join_failure(window, role) {
            None => true,
            Some(FailureView::UnexpectedStream(named)) => named == role
                && !window.spec.expected_roles.contains(role),
            Some(FailureView::JoinedBeforeClose(named)) => named == role && !(
            window.streams.dom().contains(role) && window.streams[role].closed),
            Some(_) => false,
        },
{
    let whole = window.stream(role).bytes + bytes;
    lemma_named_sentinel(window.spec.sentinels, whole);
    if first_sentinel(window.spec.sentinels, whole) is Some {
        let kind = first_sentinel(window.spec.sentinels, whole)->Some_0;
        let sentinels = window.spec.sentinels;
        let i = choose|i: int|
            {
                &&& 0 <= i < sentinels.len()
                &&& (#[trigger] sentinels[i]).0 == kind
                &&& holds_bytes(whole, sentinels[i].1)
                &&& forall|j: int| 0 <= j < i ==> !holds_bytes(whole, (#[trigger] sentinels[j]).1)
            };
        assert(window.spec.sentinels[i].0 == kind);
    }
}

/// The order in which a window's faults are named: a stream that is not settled
/// before one that was never captured, that before a snapshot that is not in
/// order, that before a peer fault that is not there, and the fields last.
pub proof fn lemma_order_of_refusals(window: WindowView, ended: i64, role: Seq<char>)
    requires
        window.spec.started_utc_ms <= ended,
    ensures
        window.streams.dom().contains(role) && !(window.streams[role].closed
            && window.streams[role].joined) ==> (finish_failure(window, ended) matches Some(
            FailureView::StreamNotClosed(_),
        )) || (finish_failure(window, ended) matches Some(FailureView::StreamNotJoined(_))),
        (forall|other: Seq<char>| #[trigger]
            window.streams.dom().contains(other) ==> window.streams[other].closed
                && window.streams[other].joined) && window.spec.expected_roles.contains(role)
            && !window.streams.dom().contains(role) ==> (finish_failure(window, ended) matches Some(
            FailureView::MissingStream(_),
        )),
{
    if window.streams.dom().contains(role) && !(window.streams[role].closed
        && window.streams[role].joined) {
        assert(unsettled(window).contains(role));
    }
    if window.spec.expected_roles.contains(role) && !window.streams.dom().contains(role) {
        assert(absent(window).contains(role));
    }
}

} // verus!
