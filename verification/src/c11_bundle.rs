//! The evidence matrix: one report for each stage and each outcome.

use vstd::prelude::*;
use vstd::string::*;

use crate::c11_window::{lemma_all_fields, C11ScanReport, ReportView};
use crate::ordered::{lemma_entry, lemma_walk_holds, Ordered, OrderedMap, OrderedSet};
use crate::peer_fault_table::extend_tuples;
use crate::peer_faults::{PeerFaultTuple, TupleKey};
use crate::scan_failure::{FailureView, FaultStage, RunOutcome, SafeField, ScanFailure};
use crate::text::same_text;

verus! {

/// A cell of the matrix.
pub type CaseKey = (FaultStage, RunOutcome);

/// The number of cells of the matrix.
pub const MATRIX_CASES: usize = 8;

impl FaultStage {
    /// The position of the stage in the list of all stages.
    pub open spec fn rank(self) -> int {
        match self {
            FaultStage::Redis => 0,
            FaultStage::Peer => 1,
            FaultStage::Owner => 2,
            FaultStage::Write => 3,
        }
    }
}

impl RunOutcome {
    /// The position of the outcome in the list of all outcomes.
    pub open spec fn rank(self) -> int {
        match self {
            RunOutcome::Success => 0,
            RunOutcome::Failure => 1,
        }
    }
}

/// The position of a cell: by stage, then by outcome.
pub open spec fn case_rank(case: CaseKey) -> int {
    2 * case.0.rank() + case.1.rank()
}

/// The cell at position `i`.
pub open spec fn case_at(i: int) -> CaseKey {
    (FaultStage::ALL@[i / 2], RunOutcome::ALL@[i % 2])
}

/// The positions number all cells.
pub proof fn lemma_cases(case: CaseKey)
    ensures
        0 <= case_rank(case) < MATRIX_CASES,
        case_at(case_rank(case)) == case,
{
    assert(FaultStage::ALL@[case.0.rank()] == case.0);
    assert(RunOutcome::ALL@[case.1.rank()] == case.1);
    assert(case_rank(case) / 2 == case.0.rank());
    assert(case_rank(case) % 2 == case.1.rank());
}

/// The key of a report.
#[derive(Debug)]
pub struct MatrixKey {
    pub stage: FaultStage,
    pub outcome: RunOutcome,
}

fn case_number(key: &MatrixKey) -> (rank: u8)
    ensures
        rank == case_rank(key.key()),
{
    let stage: u8 = match key.stage {
        FaultStage::Redis => 0,
        FaultStage::Peer => 2,
        FaultStage::Owner => 4,
        FaultStage::Write => 6,
    };
    let outcome: u8 = match key.outcome {
        RunOutcome::Success => 0,
        RunOutcome::Failure => 1,
    };
    stage + outcome
}

impl Ordered for MatrixKey {
    type Key = CaseKey;

    open spec fn key(&self) -> CaseKey {
        (self.stage, self.outcome)
    }

    open spec fn before(a: CaseKey, b: CaseKey) -> bool {
        case_rank(a) < case_rank(b)
    }

    proof fn lemma_irreflexive(a: CaseKey) {
    }

    proof fn lemma_transitive(a: CaseKey, b: CaseKey, c: CaseKey) {
    }

    proof fn lemma_total(a: CaseKey, b: CaseKey) {
    }

    fn precedes(&self, other: &Self) -> (precedes: bool) {
        case_number(self) < case_number(other)
    }
}

/// The sum of the values of a map.
pub open spec fn map_total(map: Map<Seq<char>, usize>) -> nat
    decreases map.dom().len(),
    when map.dom().finite()
{
    if map.dom().is_empty() {
        0
    } else {
        let key = map.dom().choose();
        map[key] as nat + map_total(map.remove(key))
    }
}

/// The sum of a map is any of its values and the sum of the rest.
pub proof fn lemma_map_total(map: Map<Seq<char>, usize>, key: Seq<char>)
    requires
        map.dom().finite(),
        map.dom().contains(key),
    ensures
        map_total(map) == map[key] as nat + map_total(map.remove(key)),
    decreases map.dom().len(),
{
    let first = map.dom().choose();
    assert(map.dom().contains(first));
    assert(map.remove(first).dom() =~= map.dom().remove(first));
    assert(map.remove(key).dom() =~= map.dom().remove(key));
    if first != key {
        lemma_map_total(map.remove(first), key);
        lemma_map_total(map.remove(key), first);
        assert(map.remove(first).remove(key) =~= map.remove(key).remove(first));
    }
}

/// The sum of a map's values, where it fits in a `usize`.
fn sum_lengths(map: &OrderedMap<String, usize>) -> (sum: Option<usize>)
    requires
        map.wf(),
    ensures
        map@.dom().finite(),
        map@.dom().len() == map.keys().len(),
        sum == if map_total(map@) <= usize::MAX {
            Some(map_total(map@) as usize)
        } else {
            None
        },
{
    let ghost keys = map.keys();
    proof {
        assert(map@.dom() =~= keys.to_set());
        assert forall|i: int, j: int|
            0 <= i < keys.len() && 0 <= j < keys.len() && i != j implies keys[i] != keys[j] by {
            if keys[i] == keys[j] {
                crate::ordered::lemma_ascending_unique::<String>(keys, i, j);
            }
        }
        keys.unique_seq_to_set();
    }
    let mut total: usize = 0;
    let mut i: usize = 0;
    let ghost mut rest = map@;
    while i < map.len()
        invariant
            map.wf(),
            keys == map.keys(),
            keys.no_duplicates(),
            map@.dom().finite(),
            map@.dom().len() == keys.len(),
            i <= keys.len(),
            rest.dom().finite(),
            rest.submap_of(map@),
            forall|k: int| 0 <= k < keys.len() ==> (rest.dom().contains(#[trigger] keys[k]) <==> i <= k),
            forall|key: Seq<char>| #[trigger] rest.dom().contains(key) ==> keys.contains(key),
            map_total(map@) == total + map_total(rest),
        decreases keys.len() - i,
    {
        let value: usize = *map.value_at(i);
        proof {
            lemma_entry(*map, i as int);
            assert(rest.dom().contains(keys[i as int]));
            lemma_map_total(rest, keys[i as int]);
            rest = rest.remove(keys[i as int]);
        }
        match total.checked_add(value) {
            Some(sum) => {
                total = sum;
            },
            None => {
                return None;
            },
        }
        i += 1;
    }
    proof {
        assert(rest.dom() =~= Set::<Seq<char>>::empty());
    }
    Some(total)
}

/// The model of the matrix under collection.
pub struct BundleView {
    pub matrix_started_utc_ms: i64,
    pub reports: Map<CaseKey, ReportView>,
}

/// Why a report is refused.
pub open spec fn add_failure(bundle: BundleView, report: ReportView) -> Option<FailureView> {
    if report.started_utc_ms < bundle.matrix_started_utc_ms {
        Some(FailureView::RunOutsideMatrix(report.run_id))
    } else if bundle.reports.dom().contains((report.stage, report.outcome)) {
        Some(FailureView::DuplicateMatrixCase(report.stage, report.outcome))
    } else {
        None
    }
}

/// The first cell without a report, from position `from` on.
pub open spec fn first_missing(reports: Map<CaseKey, ReportView>, from: int) -> Option<CaseKey>
    decreases MATRIX_CASES - from,
{
    if from >= MATRIX_CASES {
        None
    } else if !reports.dom().contains(case_at(from)) {
        Some(case_at(from))
    } else {
        first_missing(reports, from + 1)
    }
}

/// No cell is named exactly when every cell has its report.
pub proof fn lemma_first_missing(reports: Map<CaseKey, ReportView>, from: int)
    requires
        0 <= from <= MATRIX_CASES,
    ensures
        first_missing(reports, from) is None <==> forall|i: int|
            from <= i < MATRIX_CASES ==> reports.dom().contains(#[trigger] case_at(i)),
    decreases MATRIX_CASES - from,
{
    if from < MATRIX_CASES {
        lemma_first_missing(reports, from + 1);
    }
}

/// Every cell has its report.
pub open spec fn is_complete(reports: Map<CaseKey, ReportView>) -> bool {
    forall|case: CaseKey| #[trigger] reports.dom().contains(case)
}

/// A report of the matrix satisfies `property`.
pub open spec fn some_report(
    reports: Map<CaseKey, ReportView>,
    property: spec_fn(ReportView) -> bool,
) -> bool {
    exists|case: CaseKey| #[trigger] reports.dom().contains(case) && property(reports[case])
}

/// The fields that some report shows.
pub open spec fn matrix_fields(reports: Map<CaseKey, ReportView>) -> Set<SafeField> {
    Set::new(
        |field: SafeField|
            some_report(reports, |report: ReportView| report.fields_present.contains(field)),
    )
}

/// The fields that no report shows, in the order of all fields.
pub open spec fn unshown_fields(reports: Map<CaseKey, ReportView>) -> Seq<SafeField> {
    SafeField::ALL@.filter(|field: SafeField| !matrix_fields(reports).contains(field))
}

/// The report is of another source or build than the first cell's.
pub open spec fn differs_from_first(reports: Map<CaseKey, ReportView>) -> spec_fn(
    ReportView,
) -> bool {
    |report: ReportView|
        report.source_id != reports[case_at(0)].source_id || report.build_id
            != reports[case_at(0)].build_id
}

/// Why the matrix is refused at its end.
pub open spec fn matrix_failure(bundle: BundleView, matrix_ended_utc_ms: i64) -> Option<
    FailureView,
> {
    let reports = bundle.reports;
    if matrix_ended_utc_ms < bundle.matrix_started_utc_ms {
        Some(FailureView::InvalidWindow)
    } else if some_report(
        reports,
        |report: ReportView| report.ended_utc_ms > matrix_ended_utc_ms,
    ) {
        Some(FailureView::RunOutsideMatrix("matrix-end"@))
    } else if first_missing(reports, 0) is Some {
        let case = first_missing(reports, 0)->Some_0;
        Some(FailureView::MissingMatrixCase(case.0, case.1))
    } else if unshown_fields(reports).len() > 0 {
        Some(FailureView::MissingSafeFields(unshown_fields(reports)))
    } else if some_report(reports, differs_from_first(reports)) {
        Some(FailureView::MixedSourceBuild)
    } else {
        None
    }
}

/// The number of streams captured in the first `count` cells.
pub open spec fn streams_total(reports: Map<CaseKey, ReportView>, count: int) -> nat
    decreases count,
{
    if count <= 0 {
        0
    } else {
        streams_total(reports, count - 1) + reports[case_at(count - 1)].bytes_by_role.dom().len()
    }
}

/// The number of bytes captured in the first `count` cells.
pub open spec fn bytes_total(reports: Map<CaseKey, ReportView>, count: int) -> nat
    decreases count,
{
    if count <= 0 {
        0
    } else {
        bytes_total(reports, count - 1) + map_total(reports[case_at(count - 1)].bytes_by_role)
    }
}

/// The peer fault tuples of the first `count` cells.
pub open spec fn tuples_union(reports: Map<CaseKey, ReportView>, count: int) -> Set<TupleKey>
    decreases count,
{
    if count <= 0 {
        Set::empty()
    } else {
        tuples_union(reports, count - 1).union(reports[case_at(count - 1)].peer_faults_present)
    }
}

/// The matrix's totals fit in the report.
pub open spec fn totals_fit(reports: Map<CaseKey, ReportView>) -> bool {
    &&& streams_total(reports, MATRIX_CASES as int) <= usize::MAX
    &&& bytes_total(reports, MATRIX_CASES as int) <= usize::MAX
}

/// The summary of a complete matrix.
#[derive(Clone, Debug, Eq, PartialEq)]
pub struct C11MatrixReport {
    pub matrix_started_utc_ms: i64,
    pub matrix_ended_utc_ms: i64,
    pub source_id: String,
    pub build_id: String,
    pub safe_field_count: usize,
    pub captured_streams: usize,
    pub captured_bytes: usize,
    pub runs: usize,
    /// Distinct exact peer fault tuples observed across the matrix.
    pub peer_fault_tuples: usize,
}

/// What the summary of a complete matrix says.
pub open spec fn is_matrix_report(
    report: C11MatrixReport,
    bundle: BundleView,
    matrix_ended_utc_ms: i64,
) -> bool {
    let reports = bundle.reports;
    &&& report.matrix_started_utc_ms == bundle.matrix_started_utc_ms
    &&& report.matrix_ended_utc_ms == matrix_ended_utc_ms
    &&& report.source_id@ == reports[case_at(0)].source_id
    &&& report.build_id@ == reports[case_at(0)].build_id
    &&& report.safe_field_count == matrix_fields(reports).len()
    &&& report.captured_streams == streams_total(reports, MATRIX_CASES as int)
    &&& report.captured_bytes == bytes_total(reports, MATRIX_CASES as int)
    &&& report.runs == MATRIX_CASES
    &&& report.peer_fault_tuples == tuples_union(reports, MATRIX_CASES as int).len()
}

/// The matrix under collection.
pub struct C11EvidenceBundle {
    matrix_started_utc_ms: i64,
    reports: OrderedMap<MatrixKey, C11ScanReport>,
}

impl View for C11EvidenceBundle {
    type V = BundleView;

    closed spec fn view(&self) -> BundleView {
        BundleView {
            matrix_started_utc_ms: self.matrix_started_utc_ms,
            reports: self.reports@.map_values(|report: C11ScanReport| report@),
        }
    }
}

/// What holds of every matrix under collection: each report stands in its own
/// cell and began inside the matrix.
pub open spec fn bundle_is_valid(bundle: BundleView) -> bool {
    forall|case: CaseKey| #[trigger]
        bundle.reports.dom().contains(case) ==> case == (
            bundle.reports[case].stage,
            bundle.reports[case].outcome,
        ) && bundle.reports[case].started_utc_ms >= bundle.matrix_started_utc_ms
}

fn key_at(i: usize) -> (key: MatrixKey)
    requires
        i < MATRIX_CASES,
    ensures
        key.key() == case_at(i as int),
{
    let stages: [FaultStage; 4] = FaultStage::ALL;
    let outcomes: [RunOutcome; 2] = RunOutcome::ALL;
    MatrixKey { stage: stages[i / 2], outcome: outcomes[i % 2] }
}

impl C11EvidenceBundle {
    /// The collections are ordered and the model is valid.
    pub closed spec fn wf(&self) -> bool {
        &&& self.reports.wf()
        &&& forall|case: CaseKey| #[trigger]
            self.reports@.dom().contains(case) ==> self.reports@[case].wf()
        &&& bundle_is_valid(self@)
    }

    /// See [`bundle_is_valid`].
    pub proof fn lemma_valid(&self)
        requires
            self.wf(),
        ensures
            bundle_is_valid(self@),
    {
    }

    /// An empty matrix.
    pub fn new(matrix_started_utc_ms: i64) -> (bundle: Self)
        ensures
            bundle.wf(),
            bundle@ == (BundleView { matrix_started_utc_ms, reports: Map::empty() }),
    {
        let bundle = C11EvidenceBundle { matrix_started_utc_ms, reports: OrderedMap::new() };
        assert(bundle@.reports =~= Map::<CaseKey, ReportView>::empty());
        bundle
    }

    /// Puts a run's report into its cell.
    pub fn add(&mut self, report: C11ScanReport) -> (result: Result<(), ScanFailure>)
        requires
            old(self).wf(),
            report.wf(),
        ensures
            final(self).wf(),
            match result {
                Ok(()) => add_failure(old(self)@, report@) is None && final(self)@ == (BundleView {
                    reports: old(self)@.reports.insert((report.stage, report.outcome), report@),
                    ..old(self)@
                }),
                Err(failure) => add_failure(old(self)@, report@) == Some(failure@) && *final(self)
                    == *old(self),
            },
    {
        if report.started_utc_ms < self.matrix_started_utc_ms {
            return Err(ScanFailure::RunOutsideMatrix { run_id: report.run_id });
        }
        let key = MatrixKey { stage: report.stage, outcome: report.outcome };
        if self.reports.contains_key(&key) {
            return Err(
                ScanFailure::DuplicateMatrixCase { stage: report.stage, outcome: report.outcome },
            );
        }
        let ghost before = self@;
        let ghost view = report@;
        self.reports.insert(key, report);
        proof {
            assert(self@.reports =~= before.reports.insert((view.stage, view.outcome), view));
        }
        Ok(())
    }

    proof fn lemma_report(&self, i: int)
        requires
            self.wf(),
            0 <= i < self.reports.keys().len(),
        ensures
            self@.reports.dom().contains(self.reports.keys()[i]),
            self@.reports[self.reports.keys()[i]] == self.reports.values()[i]@,
            self.reports.values()[i].wf(),
    {
        lemma_entry(self.reports, i);
    }

    proof fn lemma_walk(&self, case: CaseKey)
        requires
            self.wf(),
            self@.reports.dom().contains(case),
        ensures
            self.reports.keys().contains(case),
    {
        lemma_walk_holds(self.reports, case);
    }

    /// Whether a run ended after the matrix.
    fn any_ends_after(&self, ended: i64) -> (found: bool)
        requires
            self.wf(),
        ensures
            found == some_report(self@.reports, |report: ReportView| report.ended_utc_ms > ended),
    {
        let ghost keys = self.reports.keys();
        let ghost late = |report: ReportView| report.ended_utc_ms > ended;
        let mut i: usize = 0;
        while i < self.reports.len()
            invariant
                self.wf(),
                keys == self.reports.keys(),
                late == (|report: ReportView| report.ended_utc_ms > ended),
                i <= keys.len(),
                forall|k: int| 0 <= k < i ==> !late(self@.reports[#[trigger] keys[k]]),
            decreases keys.len() - i,
        {
            proof {
                self.lemma_report(i as int);
            }
            if self.reports.value_at(i).ended_utc_ms > ended {
                assert(late(self@.reports[keys[i as int]]));
                return true;
            }
            i += 1;
        }
        proof {
            if some_report(self@.reports, late) {
                let case = choose|case: CaseKey| #[trigger]
                    self@.reports.dom().contains(case) && late(self@.reports[case]);
                self.lemma_walk(case);
            }
        }
        false
    }

    /// The first cell without a report.
    fn find_missing(&self) -> (missing: Option<MatrixKey>)
        requires
            self.wf(),
        ensures
            match missing {
                Some(key) => first_missing(self@.reports, 0) == Some(key.key()),
                None => first_missing(self@.reports, 0) is None && is_complete(self@.reports),
            },
    {
        let mut i: usize = 0;
        while i < MATRIX_CASES
            invariant
                self.wf(),
                i <= MATRIX_CASES,
                first_missing(self@.reports, 0) == first_missing(self@.reports, i as int),
            decreases MATRIX_CASES - i,
        {
            let key = key_at(i);
            if !self.reports.contains_key(&key) {
                return Some(key);
            }
            i += 1;
        }
        proof {
            lemma_first_missing(self@.reports, 0);
            assert forall|case: CaseKey| #[trigger] self@.reports.dom().contains(case) by {
                lemma_cases(case);
                assert(self@.reports.dom().contains(case_at(case_rank(case))));
            }
        }
        None
    }

    /// Whether some report shows `field`.
    fn any_shows(&self, field: SafeField) -> (found: bool)
        requires
            self.wf(),
        ensures
            found == matrix_fields(self@.reports).contains(field),
    {
        let ghost keys = self.reports.keys();
        let ghost shown = |report: ReportView| report.fields_present.contains(field);
        let mut i: usize = 0;
        while i < self.reports.len()
            invariant
                self.wf(),
                keys == self.reports.keys(),
                shown == (|report: ReportView| report.fields_present.contains(field)),
                i <= keys.len(),
                forall|k: int| 0 <= k < i ==> !shown(self@.reports[#[trigger] keys[k]]),
            decreases keys.len() - i,
        {
            proof {
                self.lemma_report(i as int);
            }
            if self.reports.value_at(i).fields_present.contains(&field) {
                proof {
                    assert(shown(self@.reports[keys[i as int]]));
                    assert(some_report(self@.reports, shown));
                }
                return true;
            }
            i += 1;
        }
        proof {
            if some_report(self@.reports, shown) {
                let case = choose|case: CaseKey| #[trigger]
                    self@.reports.dom().contains(case) && shown(self@.reports[case]);
                self.lemma_walk(case);
            }
        }
        false
    }

    /// How many fields the matrix shows, and those it does not.
    fn sort_fields(&self) -> (result: (usize, Vec<SafeField>))
        requires
            self.wf(),
        ensures
            result.0 == matrix_fields(self@.reports).len(),
            result.1@ == unshown_fields(self@.reports),
    {
        let ghost all = SafeField::ALL@;
        let ghost shown = matrix_fields(self@.reports);
        let ghost keep = |field: SafeField| !shown.contains(field);
        let fields: [SafeField; 9] = SafeField::ALL;
        let mut missing: Vec<SafeField> = Vec::new();
        let mut present: OrderedSet<SafeField> = OrderedSet::new();
        let mut i: usize = 0;
        assert(all.take(0).filter(keep) =~= Seq::<SafeField>::empty()) by {
            reveal(Seq::filter);
        }
        while i < 9
            invariant
                self.wf(),
                fields@ == all,
                all.len() == 9,
                shown == matrix_fields(self@.reports),
                keep == (|field: SafeField| !shown.contains(field)),
                i <= 9,
                present.wf(),
                forall|field: SafeField| #[trigger]
                    present@.contains(field) ==> shown.contains(field),
                forall|k: int|
                    0 <= k < i && shown.contains(#[trigger] all[k]) ==> present@.contains(all[k]),
                missing@ == all.take(i as int).filter(keep),
            decreases 9 - i,
        {
            let field = fields[i];
            proof {
                assert(all.take(i + 1) =~= all.take(i as int).push(field));
                all.take(i as int).lemma_filter_push(field, keep);
            }
            if self.any_shows(field) {
                present.insert(field);
            } else {
                missing.push(field);
            }
            i += 1;
        }
        proof {
            assert(all.take(9) =~= all);
            assert forall|field: SafeField| #[trigger]
                present@.contains(field) == shown.contains(field) by {
                lemma_all_fields(field);
                assert(all[field.rank()] == field);
            }
            assert(present@ =~= shown);
            present.lemma_ascending();
        }
        (present.len(), missing)
    }

    /// Whether a report is of another source or build than `first`.
    fn any_differs(&self, source_id: &str, build_id: &str) -> (found: bool)
        requires
            self.wf(),
            source_id@ == self@.reports[case_at(0)].source_id,
            build_id@ == self@.reports[case_at(0)].build_id,
        ensures
            found == some_report(self@.reports, differs_from_first(self@.reports)),
    {
        let ghost keys = self.reports.keys();
        let ghost other = differs_from_first(self@.reports);
        let mut i: usize = 0;
        while i < self.reports.len()
            invariant
                self.wf(),
                keys == self.reports.keys(),
                other == differs_from_first(self@.reports),
                source_id@ == self@.reports[case_at(0)].source_id,
                build_id@ == self@.reports[case_at(0)].build_id,
                i <= keys.len(),
                forall|k: int| 0 <= k < i ==> !other(self@.reports[#[trigger] keys[k]]),
            decreases keys.len() - i,
        {
            proof {
                self.lemma_report(i as int);
            }
            let report = self.reports.value_at(i);
            if !same_text(report.source_id.as_str(), source_id) || !same_text(
                report.build_id.as_str(),
                build_id,
            ) {
                assert(other(self@.reports[keys[i as int]]));
                return true;
            }
            i += 1;
        }
        proof {
            if some_report(self@.reports, other) {
                let case = choose|case: CaseKey| #[trigger]
                    self@.reports.dom().contains(case) && other(self@.reports[case]);
                self.lemma_walk(case);
            }
        }
        false
    }

    /// The captured streams and bytes of a complete matrix, where they fit.
    fn totals(&self) -> (totals: Option<(usize, usize)>)
        requires
            self.wf(),
            is_complete(self@.reports),
        ensures
            match totals {
                Some((streams, bytes)) => totals_fit(self@.reports) && streams == streams_total(
                    self@.reports,
                    MATRIX_CASES as int,
                ) && bytes == bytes_total(self@.reports, MATRIX_CASES as int),
                None => !totals_fit(self@.reports),
            },
    {
        let ghost reports = self@.reports;
        let mut streams: usize = 0;
        let mut bytes: usize = 0;
        let mut i: usize = 0;
        while i < MATRIX_CASES
            invariant
                self.wf(),
                reports == self@.reports,
                is_complete(reports),
                i <= MATRIX_CASES,
                streams == streams_total(reports, i as int),
                bytes == bytes_total(reports, i as int),
            decreases MATRIX_CASES - i,
        {
            let key = key_at(i);
            assert(reports.dom().contains(case_at(i as int)));
            let report = match self.reports.get(&key) {
                Some(report) => report,
                None => {
                    return None;
                },
            };
            assert(report@ == reports[case_at(i as int)]);
            let added = sum_lengths(&report.bytes_by_role);
            proof {
                lemma_totals_grow(reports, (i + 1) as int, MATRIX_CASES as int);
            }
            let next_bytes: Option<usize> = match added {
                Some(added) => bytes.checked_add(added),
                None => None,
            };
            match (streams.checked_add(report.bytes_by_role.len()), next_bytes) {
                (Some(next_streams), Some(next)) => {
                    streams = next_streams;
                    bytes = next;
                },
                _ => {
                    return None;
                },
            }
            i += 1;
        }
        Some((streams, bytes))
    }

    /// The number of distinct peer fault tuples of a complete matrix.
    fn count_tuples(&self) -> (count: usize)
        requires
            self.wf(),
            is_complete(self@.reports),
        ensures
            count == tuples_union(self@.reports, MATRIX_CASES as int).len(),
    {
        let ghost reports = self@.reports;
        let mut tuples: OrderedSet<PeerFaultTuple> = OrderedSet::new();
        let mut i: usize = 0;
        while i < MATRIX_CASES
            invariant
                self.wf(),
                reports == self@.reports,
                is_complete(reports),
                i <= MATRIX_CASES,
                tuples.wf(),
                tuples@ == tuples_union(reports, i as int),
            decreases MATRIX_CASES - i,
        {
            let key = key_at(i);
            assert(reports.dom().contains(case_at(i as int)));
            match self.reports.get(&key) {
                Some(report) => {
                    assert(report@ == reports[case_at(i as int)]);
                    extend_tuples(&mut tuples, &report.peer_faults_present);
                },
                None => {},
            }
            i += 1;
        }
        proof {
            tuples.lemma_ascending();
        }
        tuples.len()
    }

    /// Whether the totals of the matrix fit in its summary.  A matrix that is
    /// not complete has no summary.
    pub fn fits(&self) -> (fits: bool)
        requires
            self.wf(),
        ensures
            fits == (is_complete(self@.reports) ==> totals_fit(self@.reports)),
    {
        match self.find_missing() {
            Some(key) => {
                proof {
                    lemma_first_missing(self@.reports, 0);
                    assert(!is_complete(self@.reports));
                }
                true
            },
            None => self.totals().is_some(),
        }
    }

    /// Ends the matrix: its summary, or the first thing that is not in order.
    pub fn finish(self, matrix_ended_utc_ms: i64) -> (result: Result<C11MatrixReport, ScanFailure>)
        requires
            self.wf(),
            matrix_failure(self@, matrix_ended_utc_ms) is None ==> totals_fit(self@.reports),
        ensures
            match result {
                Ok(report) => matrix_failure(self@, matrix_ended_utc_ms) is None
                    && is_matrix_report(report, self@, matrix_ended_utc_ms),
                Err(failure) => matrix_failure(self@, matrix_ended_utc_ms) == Some(failure@),
            },
    {
        if matrix_ended_utc_ms < self.matrix_started_utc_ms {
            return Err(ScanFailure::InvalidWindow);
        }
        if self.any_ends_after(matrix_ended_utc_ms) {
            return Err(ScanFailure::RunOutsideMatrix { run_id: "matrix-end".to_owned() });
        }
        match self.find_missing() {
            Some(key) => {
                return Err(
                    ScanFailure::MissingMatrixCase { stage: key.stage, outcome: key.outcome },
                );
            },
            None => {},
        }
        let (safe_field_count, missing) = self.sort_fields();
        if missing.len() > 0 {
            return Err(ScanFailure::MissingSafeFields { fields: missing });
        }
        let first = key_at(0);
        assert(self@.reports.dom().contains(case_at(0)));
        let (source_id, build_id) = match self.reports.get(&first) {
            Some(report) => {
                assert(report@ == self@.reports[case_at(0)]);
                (report.source_id.clone(), report.build_id.clone())
            },
            None => (String::new(), String::new()),
        };
        if self.any_differs(source_id.as_str(), build_id.as_str()) {
            return Err(ScanFailure::MixedSourceBuild);
        }
        let (captured_streams, captured_bytes): (usize, usize) = match self.totals() {
            Some(totals) => totals,
            None => (0, 0),
        };
        let peer_fault_tuples = self.count_tuples();
        Ok(
            C11MatrixReport {
                matrix_started_utc_ms: self.matrix_started_utc_ms,
                matrix_ended_utc_ms,
                source_id,
                build_id,
                safe_field_count,
                captured_streams,
                captured_bytes,
                runs: MATRIX_CASES,
                peer_fault_tuples,
            },
        )
    }
}

proof fn lemma_totals_grow(reports: Map<CaseKey, ReportView>, i: int, count: int)
    requires
        i <= count,
    ensures
        streams_total(reports, i) <= streams_total(reports, count),
        bytes_total(reports, i) <= bytes_total(reports, count),
    decreases count - i,
{
    if i < count {
        lemma_totals_grow(reports, i, count - 1);
    }
}

/// A matrix that is not refused is complete: each stage has a run for each
/// outcome, every run lies inside the matrix, all runs are of one source and
/// one build, and every safe field is shown.
pub proof fn lemma_accepted_matrix(bundle: BundleView, ended: i64)
    requires
        bundle_is_valid(bundle),
        matrix_failure(bundle, ended) is None,
    ensures
        is_complete(bundle.reports),
        forall|case: CaseKey|
            #![trigger bundle.reports[case]]
            bundle.matrix_started_utc_ms <= bundle.reports[case].started_utc_ms
                && bundle.reports[case].ended_utc_ms <= ended && bundle.reports[case].stage
                == case.0 && bundle.reports[case].outcome == case.1,
        forall|a: CaseKey, b: CaseKey|
            #![trigger bundle.reports[a], bundle.reports[b]]
            bundle.reports[a].source_id == bundle.reports[b].source_id
                && bundle.reports[a].build_id == bundle.reports[b].build_id,
        forall|field: SafeField| #[trigger] matrix_fields(bundle.reports).contains(field),
{
    let reports = bundle.reports;
    lemma_first_missing(reports, 0);
    assert forall|case: CaseKey| #[trigger] reports.dom().contains(case) by {
        lemma_cases(case);
        assert(reports.dom().contains(case_at(case_rank(case))));
    }
    let late = |report: ReportView| report.ended_utc_ms > ended;
    assert forall|case: CaseKey|
        #![trigger reports[case]]
        bundle.matrix_started_utc_ms <= reports[case].started_utc_ms && reports[case].ended_utc_ms
            <= ended && reports[case].stage == case.0 && reports[case].outcome == case.1 by {
        assert(reports.dom().contains(case));
        assert(!late(reports[case]));
    }
    let other = differs_from_first(reports);
    assert forall|a: CaseKey, b: CaseKey|
        #![trigger reports[a], reports[b]]
        reports[a].source_id == reports[b].source_id && reports[a].build_id
            == reports[b].build_id by {
        assert(reports.dom().contains(a) && !other(reports[a]));
        assert(reports.dom().contains(b) && !other(reports[b]));
    }
    let keep = |field: SafeField| !matrix_fields(reports).contains(field);
    assert forall|field: SafeField| #[trigger] matrix_fields(reports).contains(field) by {
        lemma_all_fields(field);
        if keep(field) {
            SafeField::ALL@.lemma_filter_contains(keep, field.rank());
        }
    }
}

proof fn lemma_cells()
    ensures
        case_at(0) == (FaultStage::Redis, RunOutcome::Success),
        case_at(1) == (FaultStage::Redis, RunOutcome::Failure),
        case_at(2) == (FaultStage::Peer, RunOutcome::Success),
        case_at(3) == (FaultStage::Peer, RunOutcome::Failure),
        case_at(4) == (FaultStage::Owner, RunOutcome::Success),
        case_at(5) == (FaultStage::Owner, RunOutcome::Failure),
        case_at(6) == (FaultStage::Write, RunOutcome::Success),
        case_at(7) == (FaultStage::Write, RunOutcome::Failure),
{
}

/// The totals of a matrix are those of its eight cells, each counted once: its
/// streams and its bytes are the sums of theirs, and its tuples are theirs.
pub proof fn lemma_totals_of_the_cells(reports: Map<CaseKey, ReportView>, tuple: TupleKey)
    ensures
        streams_total(reports, 8) == reports[(FaultStage::Redis, RunOutcome::Success)].bytes_by_role.dom().len()
            + reports[(FaultStage::Redis, RunOutcome::Failure)].bytes_by_role.dom().len()
            + reports[(FaultStage::Peer, RunOutcome::Success)].bytes_by_role.dom().len()
            + reports[(FaultStage::Peer, RunOutcome::Failure)].bytes_by_role.dom().len()
            + reports[(FaultStage::Owner, RunOutcome::Success)].bytes_by_role.dom().len()
            + reports[(FaultStage::Owner, RunOutcome::Failure)].bytes_by_role.dom().len()
            + reports[(FaultStage::Write, RunOutcome::Success)].bytes_by_role.dom().len()
            + reports[(FaultStage::Write, RunOutcome::Failure)].bytes_by_role.dom().len(),
        bytes_total(reports, 8) == map_total(reports[(FaultStage::Redis, RunOutcome::Success)].bytes_by_role)
            + map_total(reports[(FaultStage::Redis, RunOutcome::Failure)].bytes_by_role)
            + map_total(reports[(FaultStage::Peer, RunOutcome::Success)].bytes_by_role)
            + map_total(reports[(FaultStage::Peer, RunOutcome::Failure)].bytes_by_role)
            + map_total(reports[(FaultStage::Owner, RunOutcome::Success)].bytes_by_role)
            + map_total(reports[(FaultStage::Owner, RunOutcome::Failure)].bytes_by_role)
            + map_total(reports[(FaultStage::Write, RunOutcome::Success)].bytes_by_role)
            + map_total(reports[(FaultStage::Write, RunOutcome::Failure)].bytes_by_role),
        tuples_union(reports, 8).contains(tuple) <==> exists|case: CaseKey|
            (#[trigger] reports[case]).peer_faults_present.contains(tuple),
{
    reveal_with_fuel(streams_total, 9);
    reveal_with_fuel(bytes_total, 9);
    lemma_cells();
    lemma_tuples_of_cells(reports, 8, tuple);
    if tuples_union(reports, 8).contains(tuple) {
        let i = choose|i: int|
            0 <= i < 8 && reports[#[trigger] case_at(i)].peer_faults_present.contains(tuple);
        let case = case_at(i);
        assert(reports[case].peer_faults_present.contains(tuple));
    }
    if exists|case: CaseKey| (#[trigger] reports[case]).peer_faults_present.contains(tuple) {
        let case = choose|case: CaseKey|
            (#[trigger] reports[case]).peer_faults_present.contains(tuple);
        lemma_cases(case);
        assert(reports[case_at(case_rank(case))].peer_faults_present.contains(tuple));
    }
}

proof fn lemma_tuples_of_cells(reports: Map<CaseKey, ReportView>, count: int, tuple: TupleKey)
    ensures
        tuples_union(reports, count).contains(tuple) <==> exists|i: int|
            0 <= i < count && reports[#[trigger] case_at(i)].peer_faults_present.contains(tuple),
    decreases count,
{
    if count > 0 {
        lemma_tuples_of_cells(reports, count - 1, tuple);
        if reports[case_at(count - 1)].peer_faults_present.contains(tuple) {
            let i = count - 1;
            assert(reports[case_at(i)].peer_faults_present.contains(tuple));
        }
    }
}

/// The sum of a map, key by key: an empty map sums to zero, and one more key
/// adds its own value.
pub proof fn lemma_map_total_adds_up(map: Map<Seq<char>, usize>, key: Seq<char>, value: usize)
    requires
        map.dom().finite(),
        !map.dom().contains(key),
    ensures
        map_total(Map::empty()) == 0,
        map_total(map.insert(key, value)) == map_total(map) + value,
{
    let more = map.insert(key, value);
    lemma_map_total(more, key);
    assert(more.remove(key) =~= map);
}

/// A report is taken exactly when its run began inside the matrix and its cell
/// is still empty, and a full cell is named as such only for a run in time.
pub proof fn lemma_taken_report(bundle: BundleView, report: ReportView)
    ensures
        add_failure(bundle, report) is None <==> report.started_utc_ms
            >= bundle.matrix_started_utc_ms && !bundle.reports.dom().contains(
            (report.stage, report.outcome),
        ),
        report.started_utc_ms < bundle.matrix_started_utc_ms ==> add_failure(bundle, report)
            == Some(FailureView::RunOutsideMatrix(report.run_id)),
        report.started_utc_ms >= bundle.matrix_started_utc_ms && bundle.reports.dom().contains(
            (report.stage, report.outcome),
        ) ==> add_failure(bundle, report) == Some(
            FailureView::DuplicateMatrixCase(report.stage, report.outcome),
        ),
{
}

/// A complete matrix is accepted: the converse of [`lemma_accepted_matrix`].
pub proof fn lemma_complete_matrix_is_accepted(bundle: BundleView, ended: i64)
    requires
        bundle.matrix_started_utc_ms <= ended,
        forall|case: CaseKey| #[trigger] bundle.reports.dom().contains(case),
        forall|case: CaseKey| (#[trigger] bundle.reports[case]).ended_utc_ms <= ended,
        forall|a: CaseKey, b: CaseKey|
            #![trigger bundle.reports[a], bundle.reports[b]]
            bundle.reports[a].source_id == bundle.reports[b].source_id
                && bundle.reports[a].build_id == bundle.reports[b].build_id,
        forall|field: SafeField| #[trigger] matrix_fields(bundle.reports).contains(field),
    ensures
        matrix_failure(bundle, ended) is None,
{
    let reports = bundle.reports;
    lemma_first_missing(reports, 0);
    lemma_cells();
    let keep = |field: SafeField| !matrix_fields(reports).contains(field);
    let unshown = SafeField::ALL@.filter(keep);
    if unshown.len() > 0 {
        let field = unshown[0];
        SafeField::ALL@.lemma_filter_pred(keep, 0);
        assert(keep(field));
    }
    let other = differs_from_first(reports);
    if some_report(reports, other) {
        let case = choose|case: CaseKey| #[trigger]
            reports.dom().contains(case) && other(reports[case]);
        let first = case_at(0);
        assert(reports[case].source_id == reports[first].source_id);
    }
    let late = |report: ReportView| report.ended_utc_ms > ended;
    if some_report(reports, late) {
        let case = choose|case: CaseKey| #[trigger]
            reports.dom().contains(case) && late(reports[case]);
        assert(reports[case].ended_utc_ms <= ended);
    }
}

/// A field counts for the matrix exactly when some run of it shows the field.
pub proof fn lemma_matrix_fields(reports: Map<CaseKey, ReportView>, field: SafeField)
    ensures
        matrix_fields(reports).contains(field) <==> exists|case: CaseKey| #[trigger]
            reports.dom().contains(case) && reports[case].fields_present.contains(field),
{
    let shown = |report: ReportView| report.fields_present.contains(field);
    if matrix_fields(reports).contains(field) {
        let case = choose|case: CaseKey| #[trigger]
            reports.dom().contains(case) && shown(reports[case]);
        assert(reports[case].fields_present.contains(field));
    }
    if exists|case: CaseKey| #[trigger]
        reports.dom().contains(case) && reports[case].fields_present.contains(field) {
        let case = choose|case: CaseKey| #[trigger]
            reports.dom().contains(case) && reports[case].fields_present.contains(field);
        assert(shown(reports[case]));
        assert(some_report(reports, shown));
    }
}

/// What the report of an accepted matrix says: its own span, the one source and
/// build of all of its runs, all nine safe fields, eight runs, and the streams
/// and bytes of its cells.
pub proof fn lemma_matrix_report(
    report: C11MatrixReport,
    bundle: BundleView,
    ended: i64,
    case: CaseKey,
)
    requires
        bundle_is_valid(bundle),
        matrix_failure(bundle, ended) is None,
        is_matrix_report(report, bundle, ended),
    ensures
        report.matrix_started_utc_ms == bundle.matrix_started_utc_ms,
        report.matrix_ended_utc_ms == ended,
        report.runs == 8,
        report.safe_field_count == 9,
        report.source_id@ == bundle.reports[case].source_id,
        report.build_id@ == bundle.reports[case].build_id,
        report.captured_streams == bundle.reports[(FaultStage::Redis, RunOutcome::Success)].bytes_by_role.dom().len()
            + bundle.reports[(FaultStage::Redis, RunOutcome::Failure)].bytes_by_role.dom().len()
            + bundle.reports[(FaultStage::Peer, RunOutcome::Success)].bytes_by_role.dom().len()
            + bundle.reports[(FaultStage::Peer, RunOutcome::Failure)].bytes_by_role.dom().len()
            + bundle.reports[(FaultStage::Owner, RunOutcome::Success)].bytes_by_role.dom().len()
            + bundle.reports[(FaultStage::Owner, RunOutcome::Failure)].bytes_by_role.dom().len()
            + bundle.reports[(FaultStage::Write, RunOutcome::Success)].bytes_by_role.dom().len()
            + bundle.reports[(FaultStage::Write, RunOutcome::Failure)].bytes_by_role.dom().len(),
        report.captured_bytes == map_total(bundle.reports[(FaultStage::Redis, RunOutcome::Success)].bytes_by_role)
            + map_total(bundle.reports[(FaultStage::Redis, RunOutcome::Failure)].bytes_by_role)
            + map_total(bundle.reports[(FaultStage::Peer, RunOutcome::Success)].bytes_by_role)
            + map_total(bundle.reports[(FaultStage::Peer, RunOutcome::Failure)].bytes_by_role)
            + map_total(bundle.reports[(FaultStage::Owner, RunOutcome::Success)].bytes_by_role)
            + map_total(bundle.reports[(FaultStage::Owner, RunOutcome::Failure)].bytes_by_role)
            + map_total(bundle.reports[(FaultStage::Write, RunOutcome::Success)].bytes_by_role)
            + map_total(bundle.reports[(FaultStage::Write, RunOutcome::Failure)].bytes_by_role),
        exists|tuples: Set<TupleKey>|
            {
                &&& report.peer_fault_tuples == (#[trigger] tuples.len())
                &&& forall|tuple: TupleKey| #[trigger]
                    tuples.contains(tuple) <==> exists|at: CaseKey|
                        (#[trigger] bundle.reports[at]).peer_faults_present.contains(tuple)
            },
{
    let reports = bundle.reports;
    let none: TupleKey = (Seq::empty(), Seq::empty(), Seq::empty());
    lemma_accepted_matrix(bundle, ended);
    lemma_totals_of_the_cells(reports, none);
    assert(reports[case_at(0)].source_id == reports[case].source_id);
    let fields = matrix_fields(reports);
    let all = SafeField::ALL@;
    assert(all.no_duplicates()) by {
        assert forall|i: int, j: int| 0 <= i < j < all.len() implies all[i] != all[j] by {
            assert(all[0].rank() == 0 && all[1].rank() == 1 && all[2].rank() == 2 && all[3].rank()
                == 3 && all[4].rank() == 4 && all[5].rank() == 5 && all[6].rank() == 6
                && all[7].rank() == 7 && all[8].rank() == 8);
        }
    }
    assert(fields =~= all.to_set()) by {
        assert forall|field: SafeField| all.to_set().contains(field) by {
            lemma_all_fields(field);
        }
    }
    all.unique_seq_to_set();
    let tuples = tuples_union(reports, 8);
    assert forall|tuple: TupleKey| #[trigger] tuples.contains(tuple) <==> exists|at: CaseKey|
        (#[trigger] reports[at]).peer_faults_present.contains(tuple) by {
        lemma_totals_of_the_cells(reports, tuple);
    }
    assert(report.peer_fault_tuples == tuples.len());
}

} // verus!
