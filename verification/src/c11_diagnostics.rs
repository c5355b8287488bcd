//! The decisions of the multi-process diagnostic run: whether a child's
//! capture is complete, which streams its window expects, and what the window
//! reports.

use vstd::prelude::*;
use vstd::string::*;
use vstd::utf8::*;

use crate::c11_bundle::{
    add_failure, is_matrix_report, matrix_failure, totals_fit, BundleView, C11EvidenceBundle,
    C11MatrixReport, MATRIX_CASES,
};
use crate::c11_matrix::{is_row, MatrixCase};
use crate::c11_window::{
    all_tokens, append_failure, appended, close_failure, closed_window, declared_keys,
    declared_steps, finish_failure, join_failure, joined_window, lemma_accepted_append,
    lemma_append_adds_at_the_end, lemma_close_then_join, sentinel_views, spec_failure, str_views,
    window_report, C11RunSpec, C11ScanReport, C11Window, RunSpecView, Sentinel,
    WindowView,
};
use crate::capture::{CapturedStream, MAX_CAPTURE};
use crate::capture_directory::{
    inner_views, snapshot_views, InnerProcessCapture, SnapshotCapture,
};
use crate::error::{ErrorView, HarnessError};
use crate::fields::{
    contains_ascii_case_insensitive, holds_bytes, holds_insensitive, insensitive_at, lowered,
};
use crate::ordered::{
    is_listing, lemma_listing_exists, lemma_listing_is_unique, listing, OrderedSet,
};
use crate::peer_fault_table::{is_token, token};
use crate::peer_faults::requirement_rules;
use crate::rules::{
    all_hold, chained, either, first_broken, first_failure, lemma_all_hold_chained,
    lemma_first_broken, lemma_first_failure,
};
use crate::scan_failure::{FailureView, SafeField, ScanFailure, SentinelKind};
use crate::text::{
    begins_with, decimal, decimal_text, join_texts, joined, lemma_signed_decimal, occurs_at, occurs_in, option_debug,
    option_text, same_text, signed_decimal, signed_text, text_starts_with, views,
};

verus! {

/// What an acceptance child left behind.
pub struct ChildCapture {
    pub stdout: CapturedStream,
    pub stderr: CapturedStream,
    pub inner: Vec<InnerProcessCapture>,
    pub snapshots: Vec<SnapshotCapture>,
    pub sentinels: Vec<Sentinel>,
}

/// The model of what an acceptance child left behind.
pub struct CaptureView {
    pub stdout: Seq<u8>,
    pub stderr: Seq<u8>,
    pub stdout_overflow: bool,
    pub stderr_overflow: bool,
    pub stdout_read_error: bool,
    pub stderr_read_error: bool,
    pub inner: Seq<(Seq<char>, Seq<u8>, Seq<u8>)>,
    pub snapshots: Seq<(Seq<char>, Seq<u8>)>,
    pub sentinels: Seq<(SentinelKind, Seq<u8>)>,
}

impl View for ChildCapture {
    type V = CaptureView;

    open spec fn view(&self) -> CaptureView {
        CaptureView {
            stdout: self.stdout.bytes@,
            stderr: self.stderr.bytes@,
            stdout_overflow: self.stdout.overflow,
            stderr_overflow: self.stderr.overflow,
            stdout_read_error: self.stdout.read_error,
            stderr_read_error: self.stderr.read_error,
            inner: inner_views(self.inner@),
            snapshots: snapshot_views(self.snapshots@),
            sentinels: sentinel_views(self.sentinels@),
        }
    }
}

/// How many managed processes have this name.
pub open spec fn named(inner: Seq<(Seq<char>, Seq<u8>, Seq<u8>)>, name: Seq<char>) -> nat
    decreases inner.len(),
{
    if inner.len() == 0 {
        0
    } else {
        named(inner.drop_last(), name) + if inner.last().0 == name {
            1nat
        } else {
            0
        }
    }
}

/// The sum of the required process counts.
pub open spec fn counts_total(counts: Seq<(&'static str, usize)>) -> nat
    decreases counts.len(),
{
    if counts.len() == 0 {
        0
    } else {
        counts_total(counts.drop_last()) + counts.last().1 as nat
    }
}

/// A sentinel of this kind was recorded.
pub open spec fn recorded(sentinels: Seq<(SentinelKind, Seq<u8>)>, kind: SentinelKind) -> bool {
    exists|i: int| 0 <= i < sentinels.len() && (#[trigger] sentinels[i]).0 == kind
}

/// A snapshot of this role was captured.
pub open spec fn captured(snapshots: Seq<(Seq<char>, Seq<u8>)>, role: Seq<char>) -> bool {
    exists|i: int| 0 <= i < snapshots.len() && (#[trigger] snapshots[i]).0 == role
}

/// The name is that of a required process.
pub open spec fn declared(counts: Seq<(&'static str, usize)>, name: Seq<char>) -> bool {
    exists|i: int| 0 <= i < counts.len() && (#[trigger] counts[i]).0@ == name
}

/// The failure of each required sentinel.
pub open spec fn sentinel_steps(case: MatrixCase, capture: CaptureView) -> spec_fn(int) -> Option<
    Seq<char>,
> {
    |i: int|
        if recorded(capture.sentinels, case.required_sentinels@[i]) {
            None
        } else {
            Some(
                "C11 "@ + case.name@ + " fixture did not record its "@
                    + case.required_sentinels@[i].name() + " sentinel"@,
            )
        }
}

/// The failure of each required process count.
pub open spec fn count_steps(case: MatrixCase, capture: CaptureView) -> spec_fn(int) -> Option<
    Seq<char>,
> {
    |i: int|
        {
            let required = case.required_inner_process_counts@[i];
            let observed = named(capture.inner, required.0@);
            if observed == required.1 {
                None
            } else {
                Some(
                    "C11 "@ + case.name@ + " fixture joined "@ + decimal(observed) + " "@
                        + required.0@ + " process roles, expected "@ + decimal(required.1 as nat),
                )
            }
        }
}

/// The failure of each required snapshot.
pub open spec fn snapshot_steps(case: MatrixCase, capture: CaptureView) -> spec_fn(int) -> Option<
    Seq<char>,
> {
    |i: int|
        if captured(capture.snapshots, case.required_snapshot_roles@[i]@) {
            None
        } else {
            Some("C11 "@ + case.name@ + " fixture did not capture required snapshot role"@)
        }
}

/// Why the managed processes of a child are refused as a whole.
pub open spec fn process_set_failure(case: MatrixCase, capture: CaptureView) -> Option<Seq<char>> {
    let counts = case.required_inner_process_counts@;
    if capture.inner.len() != counts_total(counts) {
        Some(
            "C11 "@ + case.name@ + " fixture joined "@ + decimal(capture.inner.len())
                + " managed process roles, expected "@ + decimal(counts_total(counts)),
        )
    } else if exists|i: int|
        0 <= i < capture.inner.len() && !declared(counts, (#[trigger] capture.inner[i]).0) {
        Some("C11 "@ + case.name@ + " fixture joined an undeclared managed process role"@)
    } else {
        None
    }
}

/// Why a child's capture is not complete: a sentinel, a managed process or a
/// snapshot that its row requires is missing, or a process is not declared.
pub open spec fn capture_failure(case: MatrixCase, capture: CaptureView) -> Option<Seq<char>> {
    either(
        first_failure(sentinel_steps(case, capture), 0, case.required_sentinels@.len() as int),
        either(
            first_failure(
                count_steps(case, capture),
                0,
                case.required_inner_process_counts@.len() as int,
            ),
            either(
                process_set_failure(case, capture),
                first_failure(
                    snapshot_steps(case, capture),
                    0,
                    case.required_snapshot_roles@.len() as int,
                ),
            ),
        ),
    )
}

fn any_recorded(sentinels: &Vec<Sentinel>, kind: SentinelKind) -> (found: bool)
    ensures
        found == recorded(sentinel_views(sentinels@), kind),
{
    let mut i: usize = 0;
    while i < sentinels.len()
        invariant
            i <= sentinels.len(),
            forall|k: int| 0 <= k < i ==> (#[trigger] sentinel_views(sentinels@)[k]).0 != kind,
        decreases sentinels.len() - i,
    {
        assert(sentinel_views(sentinels@)[i as int] == sentinels@[i as int]@);
        if sentinels[i].kind() == kind {
            return true;
        }
        i += 1;
    }
    false
}

fn count_named(inner: &Vec<InnerProcessCapture>, name: &str) -> (count: usize)
    ensures
        count == named(inner_views(inner@), name@),
        count <= inner.len(),
{
    let ghost all = inner_views(inner@);
    let mut count: usize = 0;
    let mut i: usize = 0;
    assert(all.take(0) =~= Seq::<(Seq<char>, Seq<u8>, Seq<u8>)>::empty());
    while i < inner.len()
        invariant
            i <= inner.len(),
            count <= i,
            all == inner_views(inner@),
            count == named(all.take(i as int), name@),
        decreases inner.len() - i,
    {
        assert(all[i as int] == inner@[i as int]@);
        assert(all.take(i + 1).drop_last() =~= all.take(i as int));
        if same_text(inner[i].name.as_str(), name) {
            count += 1;
        }
        i += 1;
    }
    assert(all.take(i as int) =~= all);
    count
}

fn any_captured(snapshots: &Vec<SnapshotCapture>, role: &str) -> (found: bool)
    ensures
        found == captured(snapshot_views(snapshots@), role@),
{
    let mut i: usize = 0;
    while i < snapshots.len()
        invariant
            i <= snapshots.len(),
            forall|k: int| 0 <= k < i ==> (#[trigger] snapshot_views(snapshots@)[k]).0 != role@,
        decreases snapshots.len() - i,
    {
        assert(snapshot_views(snapshots@)[i as int] == snapshots@[i as int]@);
        if same_text(snapshots[i].role.as_str(), role) {
            return true;
        }
        i += 1;
    }
    false
}

fn is_declared(counts: &[(&'static str, usize)], name: &str) -> (found: bool)
    ensures
        found == declared(counts@, name@),
{
    let mut i: usize = 0;
    while i < counts.len()
        invariant
            i <= counts.len(),
            forall|k: int| 0 <= k < i ==> (#[trigger] counts@[k]).0@ != name@,
        decreases counts.len() - i,
    {
        if same_text(counts[i].0, name) {
            return true;
        }
        i += 1;
    }
    false
}

fn named_text(head: &str, name: &str, tail: &str) -> (text: String)
    ensures
        text@ == head@ + name@ + tail@,
{
    head.to_owned().concat(name).concat(tail)
}

fn check_sentinels(case: &MatrixCase, capture: &ChildCapture) -> (failure: Option<String>)
    ensures
        match failure {
            Some(text) => first_failure(
                sentinel_steps(*case, capture@),
                0,
                case.required_sentinels@.len() as int,
            ) == Some(text@),
            None => first_failure(
                sentinel_steps(*case, capture@),
                0,
                case.required_sentinels@.len() as int,
            ) is None,
        },
{
    let ghost steps = sentinel_steps(*case, capture@);
    let ghost count = case.required_sentinels@.len() as int;
    let mut i: usize = 0;
    while i < case.required_sentinels.len()
        invariant
            i <= case.required_sentinels.len(),
            count == case.required_sentinels@.len(),
            steps == sentinel_steps(*case, capture@),
            first_failure(steps, 0, count) == first_failure(steps, i as int, count),
        decreases case.required_sentinels.len() - i,
    {
        let kind = case.required_sentinels[i];
        if !any_recorded(&capture.sentinels, kind) {
            return Some(
                named_text("C11 ", case.name, " fixture did not record its ").concat(
                    kind.label(),
                ).concat(" sentinel"),
            );
        }
        i += 1;
    }
    None
}

fn check_counts(case: &MatrixCase, capture: &ChildCapture) -> (failure: Option<String>)
    ensures
        match failure {
            Some(text) => first_failure(
                count_steps(*case, capture@),
                0,
                case.required_inner_process_counts@.len() as int,
            ) == Some(text@),
            None => first_failure(
                count_steps(*case, capture@),
                0,
                case.required_inner_process_counts@.len() as int,
            ) is None,
        },
{
    let ghost steps = count_steps(*case, capture@);
    let ghost count = case.required_inner_process_counts@.len() as int;
    let mut i: usize = 0;
    while i < case.required_inner_process_counts.len()
        invariant
            i <= case.required_inner_process_counts.len(),
            count == case.required_inner_process_counts@.len(),
            steps == count_steps(*case, capture@),
            first_failure(steps, 0, count) == first_failure(steps, i as int, count),
        decreases case.required_inner_process_counts.len() - i,
    {
        let (name, required) = case.required_inner_process_counts[i];
        let observed = count_named(&capture.inner, name);
        if observed != required {
            let observed_text = decimal_text(observed as u128);
            let required_text = decimal_text(required as u128);
            return Some(
                named_text("C11 ", case.name, " fixture joined ").concat(
                    observed_text.as_str(),
                ).concat(" ").concat(name).concat(" process roles, expected ").concat(
                    required_text.as_str(),
                ),
            );
        }
        i += 1;
    }
    None
}

proof fn lemma_counts_grow(counts: Seq<(&'static str, usize)>, i: int)
    requires
        0 <= i <= counts.len(),
    ensures
        counts_total(counts.take(i)) <= counts_total(counts),
    decreases counts.len() - i,
{
    if i < counts.len() {
        assert(counts.take(i + 1).drop_last() =~= counts.take(i));
        lemma_counts_grow(counts, i + 1);
    } else {
        assert(counts.take(i) =~= counts);
    }
}

/// The managed processes of a row are five, two, one or none.
pub proof fn lemma_rows_count_their_processes(case: MatrixCase, i: int)
    requires
        0 <= i < MATRIX_CASES,
        is_row(case, i),
    ensures
        counts_total(case.required_inner_process_counts@) == if i == 4 {
            5nat
        } else if i == 7 {
            2
        } else if i == 2 || i == 6 {
            1
        } else {
            0
        },
{
    reveal_with_fuel(counts_total, 6);
}

fn check_process_set(case: &MatrixCase, capture: &ChildCapture) -> (failure: Option<String>)
    requires
        counts_total(case.required_inner_process_counts@) <= usize::MAX,
    ensures
        match failure {
            Some(text) => process_set_failure(*case, capture@) == Some(text@),
            None => process_set_failure(*case, capture@) is None,
        },
{
    let counts = case.required_inner_process_counts;
    let mut expected: usize = 0;
    let mut i: usize = 0;
    assert(counts@.take(0) =~= Seq::<(&'static str, usize)>::empty());
    while i < counts.len()
        invariant
            i <= counts.len(),
            counts_total(counts@) <= usize::MAX,
            expected == counts_total(counts@.take(i as int)),
        decreases counts.len() - i,
    {
        proof {
            assert(counts@.take(i + 1).drop_last() =~= counts@.take(i as int));
            lemma_counts_grow(counts@, i + 1);
        }
        expected += counts[i].1;
        i += 1;
    }
    assert(counts@.take(i as int) =~= counts@);
    if capture.inner.len() != expected {
        let observed_text = decimal_text(capture.inner.len() as u128);
        let expected_text = decimal_text(expected as u128);
        return Some(
            named_text("C11 ", case.name, " fixture joined ").concat(
                observed_text.as_str(),
            ).concat(" managed process roles, expected ").concat(expected_text.as_str()),
        );
    }
    let mut k: usize = 0;
    while k < capture.inner.len()
        invariant
            k <= capture.inner.len(),
            counts@ == case.required_inner_process_counts@,
            capture@.inner.len() == counts_total(counts@),
            forall|j: int| 0 <= j < k ==> declared(counts@, (#[trigger] capture@.inner[j]).0),
        decreases capture.inner.len() - k,
    {
        assert(capture@.inner[k as int] == capture.inner@[k as int]@);
        if !is_declared(counts, capture.inner[k].name.as_str()) {
            return Some(
                named_text(
                    "C11 ",
                    case.name,
                    " fixture joined an undeclared managed process role",
                ),
            );
        }
        k += 1;
    }
    None
}

fn check_snapshots(case: &MatrixCase, capture: &ChildCapture) -> (failure: Option<String>)
    ensures
        match failure {
            Some(text) => first_failure(
                snapshot_steps(*case, capture@),
                0,
                case.required_snapshot_roles@.len() as int,
            ) == Some(text@),
            None => first_failure(
                snapshot_steps(*case, capture@),
                0,
                case.required_snapshot_roles@.len() as int,
            ) is None,
        },
{
    let ghost steps = snapshot_steps(*case, capture@);
    let ghost count = case.required_snapshot_roles@.len() as int;
    let mut i: usize = 0;
    while i < case.required_snapshot_roles.len()
        invariant
            i <= case.required_snapshot_roles.len(),
            count == case.required_snapshot_roles@.len(),
            steps == snapshot_steps(*case, capture@),
            first_failure(steps, 0, count) == first_failure(steps, i as int, count),
        decreases case.required_snapshot_roles.len() - i,
    {
        if !any_captured(&capture.snapshots, case.required_snapshot_roles[i]) {
            return Some(
                named_text("C11 ", case.name, " fixture did not capture required snapshot role"),
            );
        }
        i += 1;
    }
    None
}

/// Whether a child's capture is complete for its row.
pub fn check_capture(case: &MatrixCase, capture: &ChildCapture) -> (result: Result<
    (),
    HarnessError,
>)
    requires
        counts_total(case.required_inner_process_counts@) <= usize::MAX,
    ensures
        match result {
            Ok(()) => capture_failure(*case, capture@) is None,
            Err(error) => error@ is Process && capture_failure(*case, capture@) == Some(
                error@->Process_0,
            ),
        },
{
    match check_sentinels(case, capture) {
        Some(text) => {
            return Err(HarnessError::Process(text));
        },
        None => {},
    }
    match check_counts(case, capture) {
        Some(text) => {
            return Err(HarnessError::Process(text));
        },
        None => {},
    }
    match check_process_set(case, capture) {
        Some(text) => {
            return Err(HarnessError::Process(text));
        },
        None => {},
    }
    match check_snapshots(case, capture) {
        Some(text) => Err(HarnessError::Process(text)),
        None => Ok(()),
    }
}

/// The stream role of an output of managed process `index`.
pub open spec fn process_role(index: nat, output: Seq<char>) -> Seq<char> {
    "managed_process_"@ + decimal(index) + output
}

/// The stream roles of the first `count` managed processes.
pub open spec fn process_roles(count: nat) -> Seq<Seq<char>>
    decreases count,
{
    if count == 0 {
        Seq::empty()
    } else {
        process_roles((count - 1) as nat).push(
            process_role((count - 1) as nat, "_stdout"@),
        ).push(process_role((count - 1) as nat, "_stderr"@))
    }
}

/// The roles of a list of snapshots.
pub open spec fn snapshot_roles(snapshots: Seq<(Seq<char>, Seq<u8>)>) -> Seq<Seq<char>> {
    snapshots.map_values(|snapshot: (Seq<char>, Seq<u8>)| snapshot.0)
}

/// The streams that a child's window expects: its own outputs, those of its
/// managed processes, and its snapshots.
pub open spec fn expected_roles(capture: CaptureView) -> Seq<Seq<char>> {
    seq!["harness_stdout"@, "harness_stderr"@] + process_roles(capture.inner.len())
        + snapshot_roles(capture.snapshots)
}

/// The streams that may establish safe fields: the relay snapshot is a typed
/// runtime-owned observation, while the adapter-generated wrappers are kept
/// for joining only.
pub open spec fn safe_roles(capture: CaptureView) -> Seq<Seq<char>> {
    seq!["harness_stdout"@, "harness_stderr"@] + process_roles(capture.inner.len())
        + snapshot_roles(capture.snapshots).filter(
        |role: Seq<char>| begins_with(role, "snapshot-relay-"@),
    )
}

fn build_process_role(index: usize, output: &str) -> (role: String)
    ensures
        role@ == process_role(index as nat, output@),
{
    let number = decimal_text(index as u128);
    "managed_process_".to_owned().concat(number.as_str()).concat(output)
}

fn build_head_roles(count: usize) -> (roles: Vec<String>)
    ensures
        views(roles@) == seq!["harness_stdout"@, "harness_stderr"@] + process_roles(count as nat),
{
    let ghost head = seq!["harness_stdout"@, "harness_stderr"@];
    let mut roles: Vec<String> = Vec::new();
    roles.push("harness_stdout".to_owned());
    roles.push("harness_stderr".to_owned());
    let mut i: usize = 0;
    assert(views(roles@) =~= head + process_roles(0));
    while i < count
        invariant
            i <= count,
            views(roles@) == head + process_roles(i as nat),
        decreases count - i,
    {
        let ghost before = roles@;
        roles.push(build_process_role(i, "_stdout"));
        roles.push(build_process_role(i, "_stderr"));
        assert(views(roles@) =~= views(before).push(process_role(i as nat, "_stdout"@)).push(
            process_role(i as nat, "_stderr"@),
        ));
        assert(views(roles@) =~= head + process_roles((i + 1) as nat));
        i += 1;
    }
    roles
}

/// The streams that a child's window expects, and those that may establish
/// safe fields.
pub fn case_roles(capture: &ChildCapture) -> (roles: (Vec<String>, Vec<String>))
    ensures
        views(roles.0@) == expected_roles(capture@),
        views(roles.1@) == safe_roles(capture@),
{
    let ghost all = snapshot_roles(capture@.snapshots);
    let ghost keep = |role: Seq<char>| begins_with(role, "snapshot-relay-"@);
    let ghost head = seq!["harness_stdout"@, "harness_stderr"@] + process_roles(
        capture@.inner.len(),
    );
    let mut expected = build_head_roles(capture.inner.len());
    let mut safe = build_head_roles(capture.inner.len());
    let mut i: usize = 0;
    assert(all.take(0).filter(keep) =~= Seq::<Seq<char>>::empty()) by {
        reveal(Seq::filter);
    }
    assert(views(expected@) =~= head + all.take(0));
    assert(views(safe@) =~= head + all.take(0).filter(keep));
    while i < capture.snapshots.len()
        invariant
            i <= capture.snapshots.len(),
            all == snapshot_roles(capture@.snapshots),
            keep == (|role: Seq<char>| begins_with(role, "snapshot-relay-"@)),
            views(expected@) == head + all.take(i as int),
            views(safe@) == head + all.take(i as int).filter(keep),
        decreases capture.snapshots.len() - i,
    {
        let role = &capture.snapshots[i].role;
        let ghost before_expected = expected@;
        let ghost before_safe = safe@;
        proof {
            assert(capture@.snapshots[i as int] == capture.snapshots@[i as int]@);
            assert(all[i as int] == role@);
            assert(all.take(i + 1) =~= all.take(i as int).push(role@));
            all.take(i as int).lemma_filter_push(role@, keep);
        }
        expected.push(role.clone());
        assert(views(expected@) =~= views(before_expected).push(role@));
        assert(views(expected@) =~= head + all.take(i + 1));
        if text_starts_with(role.as_str(), "snapshot-relay-") {
            safe.push(role.clone());
            assert(views(safe@) =~= views(before_safe).push(role@));
            assert(views(safe@) =~= head + all.take(i + 1).filter(keep));
        }
        i += 1;
    }
    assert(all.take(i as int) =~= all);
    (expected, safe)
}

/// The captured bytes of each expected stream, in the order of capture.
pub open spec fn process_appends(
    inner: Seq<(Seq<char>, Seq<u8>, Seq<u8>)>,
    count: nat,
) -> Seq<(Seq<char>, Seq<u8>)>
    decreases count,
{
    if count == 0 {
        Seq::empty()
    } else {
        let i = (count - 1) as nat;
        process_appends(inner, i).push(
            (process_role(i, "_stdout"@), inner[i as int].1),
        ).push((process_role(i, "_stderr"@), inner[i as int].2))
    }
}

/// A window after a list of appends, or the failure of the first that is
/// refused.
pub open spec fn after_appends(window: WindowView, list: Seq<(Seq<char>, Seq<u8>)>) -> Result<
    WindowView,
    FailureView,
>
    decreases list.len(),
{
    if list.len() == 0 {
        Ok(window)
    } else {
        match after_appends(window, list.drop_last()) {
            Err(failure) => Err(failure),
            Ok(before) => match append_failure(before, list.last().0, list.last().1) {
                Some(failure) => Err(failure),
                None => Ok(appended(before, list.last().0, list.last().1)),
            },
        }
    }
}

/// A window after each stream was closed and joined, or the failure of the
/// first that is refused.
pub open spec fn after_joins(window: WindowView, roles: Seq<Seq<char>>) -> Result<
    WindowView,
    FailureView,
>
    decreases roles.len(),
{
    if roles.len() == 0 {
        Ok(window)
    } else {
        match after_joins(window, roles.drop_last()) {
            Err(failure) => Err(failure),
            Ok(before) => match close_failure(before, roles.last()) {
                Some(failure) => Err(failure),
                None => match join_failure(closed_window(before, roles.last()), roles.last()) {
                    Some(failure) => Err(failure),
                    None => Ok(joined_window(closed_window(before, roles.last()), roles.last())),
                },
            },
        }
    }
}

proof fn lemma_appends_fail_early(window: WindowView, list: Seq<(Seq<char>, Seq<u8>)>, i: int)
    requires
        0 <= i <= list.len(),
        after_appends(window, list.take(i)) is Err,
    ensures
        after_appends(window, list) == after_appends(window, list.take(i)),
    decreases list.len() - i,
{
    if i < list.len() {
        assert(list.take(i + 1).drop_last() =~= list.take(i));
        lemma_appends_fail_early(window, list, i + 1);
    } else {
        assert(list.take(i) =~= list);
    }
}

proof fn lemma_joins_fail_early(window: WindowView, roles: Seq<Seq<char>>, i: int)
    requires
        0 <= i <= roles.len(),
        after_joins(window, roles.take(i)) is Err,
    ensures
        after_joins(window, roles) == after_joins(window, roles.take(i)),
    decreases roles.len() - i,
{
    if i < roles.len() {
        assert(roles.take(i + 1).drop_last() =~= roles.take(i));
        lemma_joins_fail_early(window, roles, i + 1);
    } else {
        assert(roles.take(i) =~= roles);
    }
}

/// The appends of a child's capture.
pub open spec fn case_appends(capture: CaptureView) -> Seq<(Seq<char>, Seq<u8>)> {
    seq![("harness_stdout"@, capture.stdout), ("harness_stderr"@, capture.stderr)]
        + process_appends(capture.inner, capture.inner.len()) + capture.snapshots
}

/// The identifier of a run of this row.
pub open spec fn case_run_id(case: MatrixCase, started_utc_ms: i64) -> Seq<char> {
    "c11-"@ + case.name@ + "-"@ + signed_decimal(started_utc_ms as int)
}

/// Why the window of a run cannot be set up.
pub open spec fn setup_failure(
    case: MatrixCase,
    capture: CaptureView,
    source_id: Seq<char>,
    build_id: Seq<char>,
    started_utc_ms: i64,
) -> Option<FailureView> {
    let faults = chained(
        declared_steps(case.required_peer_faults@),
        case.required_peer_faults@.len(),
    );
    let refused = spec_failure(
        case_run_id(case, started_utc_ms),
        source_id,
        build_id,
        expected_roles(capture),
    );
    if refused is Some {
        refused
    } else if !all_tokens(safe_roles(capture)) {
        Some(FailureView::InvalidToken("safe_field_role"@))
    } else if !safe_roles(capture).to_set().subset_of(expected_roles(capture).to_set()) {
        Some(FailureView::SafeFieldRoleNotExpected)
    } else if first_broken(faults) is Some {
        Some(FailureView::InvalidPeerFault(first_broken(faults)->Some_0))
    } else {
        None
    }
}

/// What a run's window expects.
pub open spec fn case_spec(
    case: MatrixCase,
    capture: CaptureView,
    source_id: Seq<char>,
    build_id: Seq<char>,
    started_utc_ms: i64,
) -> RunSpecView {
    RunSpecView {
        run_id: case_run_id(case, started_utc_ms),
        source_id,
        build_id,
        stage: case.stage,
        outcome: case.outcome,
        started_utc_ms,
        expected_roles: expected_roles(capture).to_set(),
        safe_field_roles: safe_roles(capture).to_set(),
        required_fields: case.required_safe_fields@.to_set(),
        required_peer_faults: declared_keys(case.required_peer_faults@),
        sentinels: capture.sentinels,
        max_bytes_per_stream: MAX_CAPTURE,
    }
}

/// The window of a run once everything was captured, closed and joined.
pub open spec fn case_window(
    case: MatrixCase,
    capture: CaptureView,
    source_id: Seq<char>,
    build_id: Seq<char>,
    started_utc_ms: i64,
) -> Result<WindowView, FailureView> {
    let empty = WindowView {
        spec: case_spec(case, capture, source_id, build_id, started_utc_ms),
        streams: Map::empty(),
    };
    match after_appends(empty, case_appends(capture)) {
        Err(failure) => Err(failure),
        Ok(window) => after_joins(window, expected_roles(capture)),
    }
}

/// A scan failure of this row, in words.
pub open spec fn diagnostics_text(case: MatrixCase, failure: FailureView) -> Seq<char> {
    "C11 "@ + case.name@ + " diagnostics: "@ + failure.text()
}

/// Why a run is refused, or its window.
pub open spec fn case_verdict(
    case: MatrixCase,
    capture: CaptureView,
    source_id: Seq<char>,
    build_id: Seq<char>,
    started_utc_ms: i64,
    ended_utc_ms: i64,
) -> Result<WindowView, Seq<char>> {
    let setup = setup_failure(case, capture, source_id, build_id, started_utc_ms);
    if capture_failure(case, capture) is Some {
        Err(capture_failure(case, capture)->Some_0)
    } else if setup is Some {
        Err(diagnostics_text(case, setup->Some_0))
    } else if capture.stdout_overflow || capture.stderr_overflow {
        Err("C11 "@ + case.name@ + " diagnostics capture exceeded its bounded buffer"@)
    } else if capture.stdout_read_error || capture.stderr_read_error {
        Err("C11 "@ + case.name@ + " diagnostics capture read failed"@)
    } else {
        match case_window(case, capture, source_id, build_id, started_utc_ms) {
            Err(failure) => Err(diagnostics_text(case, failure)),
            Ok(window) => match finish_failure(window, ended_utc_ms) {
                Some(failure) => Err(diagnostics_text(case, failure)),
                None => Ok(window),
            },
        }
    }
}

fn diagnostics_error(case: &MatrixCase, failure: &ScanFailure) -> (error: HarnessError)
    ensures
        error@ == ErrorView::Process(diagnostics_text(*case, failure@)),
{
    let text = failure.message();
    HarnessError::Process(
        named_text("C11 ", case.name, " diagnostics: ").concat(text.as_str()),
    )
}

fn borrow_all(texts: &Vec<String>) -> (borrowed: Vec<&str>)
    ensures
        str_views(borrowed@) == views(texts@),
{
    let mut borrowed: Vec<&str> = Vec::new();
    let mut i: usize = 0;
    while i < texts.len()
        invariant
            i <= texts.len(),
            str_views(borrowed@) == views(texts@).take(i as int),
        decreases texts.len() - i,
    {
        let ghost before = borrowed@;
        borrowed.push(texts[i].as_str());
        assert(str_views(borrowed@) =~= str_views(before).push(texts@[i as int]@));
        assert(views(texts@).take(i + 1) =~= views(texts@).take(i as int).push(texts@[i as int]@));
        i += 1;
    }
    assert(views(texts@).take(i as int) =~= views(texts@));
    borrowed
}

fn set_up_window(
    case: &MatrixCase,
    Ghost(capture): Ghost<CaptureView>,
    expected: &Vec<String>,
    safe: &Vec<String>,
    sentinels: Vec<Sentinel>,
    source_id: &str,
    build_id: &str,
    started_utc_ms: i64,
) -> (result: Result<C11Window, ScanFailure>)
    requires
        views(expected@) == expected_roles(capture),
        views(safe@) == safe_roles(capture),
        sentinel_views(sentinels@) == capture.sentinels,
    ensures
        match result {
            Ok(window) => setup_failure(
                *case,
                capture,
                source_id@,
                build_id@,
                started_utc_ms,
            ) is None && window.wf() && window@ == (WindowView {
                spec: case_spec(*case, capture, source_id@, build_id@, started_utc_ms),
                streams: Map::empty(),
            }),
            Err(failure) => setup_failure(*case, capture, source_id@, build_id@, started_utc_ms)
                == Some(failure@),
        },
{
    let number = signed_text(started_utc_ms);
    let run_id = named_text("c11-", case.name, "-").concat(number.as_str());
    let expected_refs = borrow_all(expected);
    let safe_refs = borrow_all(safe);
    let spec = match C11RunSpec::new(
        run_id.as_str(),
        source_id,
        build_id,
        case.stage,
        case.outcome,
        started_utc_ms,
        expected_refs.as_slice(),
        sentinels,
    ) {
        Ok(spec) => spec,
        Err(failure) => {
            return Err(failure);
        },
    };
    let spec = match spec.with_safe_field_roles(safe_refs.as_slice()) {
        Ok(spec) => spec,
        Err(failure) => {
            return Err(failure);
        },
    };
    let spec = spec.with_required_fields(case.required_safe_fields);
    let spec = match spec.with_required_peer_faults(case.required_peer_faults) {
        Ok(spec) => spec,
        Err(failure) => {
            return Err(failure);
        },
    };
    match spec.with_stream_limit(MAX_CAPTURE) {
        Ok(spec) => Ok(C11Window::new(spec)),
        Err(failure) => Err(failure),
    }
}

fn append_step(
    window: &mut C11Window,
    role: &str,
    bytes: &[u8],
    Ghost(empty): Ghost<WindowView>,
    Ghost(list): Ghost<Seq<(Seq<char>, Seq<u8>)>>,
    Ghost(i): Ghost<int>,
) -> (result: Result<(), ScanFailure>)
    requires
        old(window).wf(),
        0 <= i < list.len(),
        list[i] == (role@, bytes@),
        after_appends(empty, list.take(i)) == Ok::<WindowView, FailureView>(old(window)@),
    ensures
        final(window).wf(),
        match result {
            Ok(()) => after_appends(empty, list.take(i + 1)) == Ok::<WindowView, FailureView>(
                final(window)@,
            ),
            Err(failure) => after_appends(empty, list) == Err::<WindowView, FailureView>(failure@),
        },
{
    assert(list.take(i + 1).drop_last() =~= list.take(i));
    assert(list.take(i + 1).last() == list[i]);
    let result = window.append(role, bytes);
    proof {
        if result is Err {
            lemma_appends_fail_early(empty, list, i + 1);
        }
    }
    result
}

fn append_all(window: &mut C11Window, capture: &ChildCapture) -> (result: Result<(), ScanFailure>)
    requires
        old(window).wf(),
    ensures
        final(window).wf(),
        match result {
            Ok(()) => after_appends(old(window)@, case_appends(capture@)) == Ok::<
                WindowView,
                FailureView,
            >(final(window)@),
            Err(failure) => after_appends(old(window)@, case_appends(capture@)) == Err::<
                WindowView,
                FailureView,
            >(failure@),
        },
{
    let ghost empty = window@;
    let ghost list = case_appends(capture@);
    let ghost inner = capture@.inner;
    let ghost head = seq![("harness_stdout"@, capture@.stdout), ("harness_stderr"@, capture@.stderr)];
    proof {
        lemma_process_appends_len(inner, inner.len());
        assert(list.take(0) =~= Seq::<(Seq<char>, Seq<u8>)>::empty());
        assert(list[0] == head[0]);
        assert(list[1] == head[1]);
    }
    match append_step(
        window,
        "harness_stdout",
        capture.stdout.bytes.as_slice(),
        Ghost(empty),
        Ghost(list),
        Ghost(0),
    ) {
        Ok(()) => {},
        Err(failure) => {
            return Err(failure);
        },
    }
    match append_step(
        window,
        "harness_stderr",
        capture.stderr.bytes.as_slice(),
        Ghost(empty),
        Ghost(list),
        Ghost(1),
    ) {
        Ok(()) => {},
        Err(failure) => {
            return Err(failure);
        },
    }
    let mut i: usize = 0;
    while i < capture.inner.len()
        invariant
            window.wf(),
            i <= capture.inner.len(),
            inner == capture@.inner,
            empty == old(window)@,
            list == case_appends(capture@),
            list.len() == 2 + 2 * inner.len() + capture@.snapshots.len(),
            after_appends(empty, list.take(2 + 2 * i)) == Ok::<WindowView, FailureView>(window@),
        decreases capture.inner.len() - i,
    {
        proof {
            lemma_process_append(inner, inner.len(), i as int);
            lemma_process_appends_len(inner, inner.len());
            assert(inner[i as int] == capture.inner@[i as int]@);
            assert(list[2 + 2 * i] == process_appends(inner, inner.len())[2 * i]);
            assert(list[2 + 2 * i + 1] == process_appends(inner, inner.len())[2 * i + 1]);
        }
        let stdout_role = build_process_role(i, "_stdout");
        match append_step(
            window,
            stdout_role.as_str(),
            capture.inner[i].stdout.as_slice(),
            Ghost(empty),
            Ghost(list),
            Ghost(2 + 2 * i as int),
        ) {
            Ok(()) => {},
            Err(failure) => {
                return Err(failure);
            },
        }
        let stderr_role = build_process_role(i, "_stderr");
        match append_step(
            window,
            stderr_role.as_str(),
            capture.inner[i].stderr.as_slice(),
            Ghost(empty),
            Ghost(list),
            Ghost(2 + 2 * i as int + 1),
        ) {
            Ok(()) => {},
            Err(failure) => {
                return Err(failure);
            },
        }
        i += 1;
    }
    let mut k: usize = 0;
    while k < capture.snapshots.len()
        invariant
            window.wf(),
            k <= capture.snapshots.len(),
            inner == capture@.inner,
            empty == old(window)@,
            list == case_appends(capture@),
            list.len() == 2 + 2 * inner.len() + capture@.snapshots.len(),
            after_appends(empty, list.take(2 + 2 * inner.len() + k)) == Ok::<
                WindowView,
                FailureView,
            >(window@),
        decreases capture.snapshots.len() - k,
    {
        proof {
            lemma_process_appends_len(inner, inner.len());
            assert(capture@.snapshots[k as int] == capture.snapshots@[k as int]@);
            assert(list[2 + 2 * inner.len() + k] == capture@.snapshots[k as int]);
        }
        match append_step(
            window,
            capture.snapshots[k].role.as_str(),
            capture.snapshots[k].bytes.as_slice(),
            Ghost(empty),
            Ghost(list),
            Ghost(2 + 2 * inner.len() + k as int),
        ) {
            Ok(()) => {},
            Err(failure) => {
                return Err(failure);
            },
        }
        k += 1;
    }
    assert(list.take(2 + 2 * inner.len() + k as int) =~= list);
    Ok(())
}

proof fn lemma_process_appends_len(inner: Seq<(Seq<char>, Seq<u8>, Seq<u8>)>, count: nat)
    ensures
        process_appends(inner, count).len() == 2 * count,
    decreases count,
{
    if count > 0 {
        lemma_process_appends_len(inner, (count - 1) as nat);
    }
}

proof fn lemma_process_append(inner: Seq<(Seq<char>, Seq<u8>, Seq<u8>)>, count: nat, i: int)
    requires
        0 <= i < count,
    ensures
        process_appends(inner, count)[2 * i] == (process_role(i as nat, "_stdout"@), inner[i].1),
        process_appends(inner, count)[2 * i + 1] == (
            process_role(i as nat, "_stderr"@),
            inner[i].2,
        ),
    decreases count,
{
    lemma_process_appends_len(inner, count);
    lemma_process_appends_len(inner, (count - 1) as nat);
    if i < count - 1 {
        lemma_process_append(inner, (count - 1) as nat, i);
    }
}

fn join_all(window: &mut C11Window, roles: &Vec<String>) -> (result: Result<(), ScanFailure>)
    requires
        old(window).wf(),
    ensures
        final(window).wf(),
        match result {
            Ok(()) => after_joins(old(window)@, views(roles@)) == Ok::<WindowView, FailureView>(
                final(window)@,
            ),
            Err(failure) => after_joins(old(window)@, views(roles@)) == Err::<
                WindowView,
                FailureView,
            >(failure@),
        },
{
    let ghost first = window@;
    let ghost all = views(roles@);
    let mut i: usize = 0;
    assert(all.take(0) =~= Seq::<Seq<char>>::empty());
    while i < roles.len()
        invariant
            window.wf(),
            i <= roles.len(),
            all == views(roles@),
            first == old(window)@,
            after_joins(first, all.take(i as int)) == Ok::<WindowView, FailureView>(window@),
        decreases roles.len() - i,
    {
        let role = roles[i].as_str();
        proof {
            assert(all[i as int] == role@);
            assert(all.take(i + 1).drop_last() =~= all.take(i as int));
            assert(all.take(i + 1).last() == role@);
        }
        match window.close(role) {
            Ok(()) => {},
            Err(failure) => {
                proof {
                    lemma_joins_fail_early(first, all, i + 1);
                }
                return Err(failure);
            },
        }
        match window.mark_joined(role) {
            Ok(()) => {},
            Err(failure) => {
                proof {
                    lemma_joins_fail_early(first, all, i + 1);
                }
                return Err(failure);
            },
        }
        i += 1;
    }
    assert(all.take(i as int) =~= all);
    Ok(())
}

/// Turns a child's capture into the report of its run.
pub fn assemble_report(
    case: &MatrixCase,
    capture: ChildCapture,
    source_id: &str,
    build_id: &str,
    started_utc_ms: i64,
    ended_utc_ms: i64,
) -> (result: Result<C11ScanReport, HarnessError>)
    requires
        counts_total(case.required_inner_process_counts@) <= usize::MAX,
    ensures
        match result {
            Ok(report) => case_verdict(
                *case,
                capture@,
                source_id@,
                build_id@,
                started_utc_ms,
                ended_utc_ms,
            ) is Ok && report.wf() && report@ == window_report(
                case_verdict(
                    *case,
                    capture@,
                    source_id@,
                    build_id@,
                    started_utc_ms,
                    ended_utc_ms,
                )->Ok_0,
                ended_utc_ms,
            ),
            Err(error) => error@ is Process && case_verdict(
                *case,
                capture@,
                source_id@,
                build_id@,
                started_utc_ms,
                ended_utc_ms,
            ) == Err::<WindowView, Seq<char>>(error@->Process_0),
        },
{
    let ghost view = capture@;
    match check_capture(case, &capture) {
        Ok(()) => {},
        Err(error) => {
            return Err(error);
        },
    }
    let (expected, safe) = case_roles(&capture);
    let mut capture = capture;
    let mut sentinels: Vec<Sentinel> = Vec::new();
    sentinels.append(&mut capture.sentinels);
    assert(sentinel_views(sentinels@) =~= view.sentinels);
    let mut window = match set_up_window(
        case,
        Ghost(view),
        &expected,
        &safe,
        sentinels,
        source_id,
        build_id,
        started_utc_ms,
    ) {
        Ok(window) => window,
        Err(failure) => {
            return Err(diagnostics_error(case, &failure));
        },
    };
    if capture.stdout.overflow || capture.stderr.overflow {
        return Err(
            HarnessError::Process(
                named_text("C11 ", case.name, " diagnostics capture exceeded its bounded buffer"),
            ),
        );
    }
    if capture.stdout.read_error || capture.stderr.read_error {
        return Err(
            HarnessError::Process(
                named_text("C11 ", case.name, " diagnostics capture read failed"),
            ),
        );
    }
    assert(case_appends(capture@) == case_appends(view));
    match append_all(&mut window, &capture) {
        Ok(()) => {},
        Err(failure) => {
            return Err(diagnostics_error(case, &failure));
        },
    }
    match join_all(&mut window, &expected) {
        Ok(()) => {},
        Err(failure) => {
            return Err(diagnostics_error(case, &failure));
        },
    }
    match window.finish(ended_utc_ms) {
        Ok(report) => Ok(report),
        Err(failure) => Err(diagnostics_error(case, &failure)),
    }
}

/// What a failed child's output may mention, and the label it is reported by.
pub const CHILD_ERROR_MARKERS: [(&'static str, &'static str); 17] = [
    ("tunnel-test-harness:", "harness_error"),
    ("HTTP/TLS probe error:", "http"),
    ("Redis harness error:", "redis"),
    ("managed process error:", "managed_process"),
    ("harness timeout:", "timeout"),
    ("invalid harness input:", "invalid_input"),
    ("owner-loss", "owner_loss"),
    ("owner loss", "owner_loss"),
    ("snapshot", "snapshot"),
    ("cleanup", "cleanup"),
    ("authorization", "authorization"),
    ("recovery", "recovery"),
    ("transport", "transport"),
    ("sentinel", "sentinel"),
    ("route", "route"),
    ("stream", "stream"),
    ("expected", "assertion"),
];

/// The output mentions marker `i`.
pub open spec fn mentions(bytes: Seq<u8>, i: int) -> bool {
    holds_insensitive(bytes, encode_utf8(CHILD_ERROR_MARKERS@[i].0@))
}

/// The labels of the markers that a child's outputs mention.
pub open spec fn marker_labels(stdout: Seq<u8>, stderr: Seq<u8>) -> Set<Seq<char>> {
    Set::new(
        |label: Seq<char>|
            exists|i: int|
                0 <= i < CHILD_ERROR_MARKERS@.len() && (#[trigger] CHILD_ERROR_MARKERS@[i]).1@
                    == label && (mentions(stdout, i) || mentions(stderr, i)),
    )
}

/// The labels in print: sorted, between bars, or `none`.
pub open spec fn marker_text(labels: Seq<Seq<char>>) -> Seq<char> {
    if labels.len() == 0 {
        "none"@
    } else {
        joined(labels, "|"@)
    }
}

/// A failed child in fixed diagnostic categories and lengths.
pub open spec fn child_summary(
    status_code: Option<i32>,
    signal: Option<i32>,
    stdout: Seq<u8>,
    stderr: Seq<u8>,
) -> Seq<char> {
    "status_code="@ + option_debug(status_code) + ",signal="@ + option_debug(signal)
        + ",stdout_bytes="@ + decimal(stdout.len()) + ",stderr_bytes="@ + decimal(stderr.len())
        + ",markers="@ + marker_text(listing::<String>(marker_labels(stdout, stderr)))
}

/// The markers of a summary are listed in ascending order, each once.
pub proof fn lemma_markers_are_listed(stdout: Seq<u8>, stderr: Seq<u8>)
    ensures
        is_listing::<String>(
            listing::<String>(marker_labels(stdout, stderr)),
            marker_labels(stdout, stderr),
        ),
{
    let labels = CHILD_ERROR_MARKERS@.map_values(
        |marker: (&'static str, &'static str)| marker.1@,
    );
    let found = marker_labels(stdout, stderr);
    assert forall|label: Seq<char>| #[trigger] found.contains(label) implies labels.to_set().contains(
        label,
    ) by {
        let k = choose|k: int|
            0 <= k < CHILD_ERROR_MARKERS@.len() && (#[trigger] CHILD_ERROR_MARKERS@[k]).1@ == label
                && (mentions(stdout, k) || mentions(stderr, k));
        assert(labels[k] == label);
    }
    vstd::set_lib::lemma_set_subset_finite(labels.to_set(), found);
    lemma_listing_exists::<String>(found);
}

fn find_markers(stdout: &[u8], stderr: &[u8]) -> (labels: Vec<String>)
    ensures
        views(labels@) == listing::<String>(marker_labels(stdout@, stderr@)),
{
    let markers: [(&'static str, &'static str); 17] = CHILD_ERROR_MARKERS;
    let ghost target = marker_labels(stdout@, stderr@);
    let mut found: OrderedSet<String> = OrderedSet::new();
    let mut i: usize = 0;
    while i < 17
        invariant
            i <= 17,
            markers@ == CHILD_ERROR_MARKERS@,
            markers@.len() == 17,
            found.wf(),
            target == marker_labels(stdout@, stderr@),
            forall|label: Seq<char>| #[trigger]
                found@.contains(label) <==> exists|k: int|
                    0 <= k < i && (#[trigger] CHILD_ERROR_MARKERS@[k]).1@ == label && (mentions(
                        stdout@,
                        k,
                    ) || mentions(stderr@, k)),
        decreases 17 - i,
    {
        let (needle, label) = markers[i];
        let ghost before = found@;
        let ghost here = mentions(stdout@, i as int) || mentions(stderr@, i as int);
        if contains_ascii_case_insensitive(stdout, needle.as_bytes())
            || contains_ascii_case_insensitive(stderr, needle.as_bytes()) {
            found.insert(label.to_owned());
        }
        proof {
            assert forall|other: Seq<char>| #[trigger]
                found@.contains(other) <==> exists|k: int|
                    0 <= k < i + 1 && (#[trigger] CHILD_ERROR_MARKERS@[k]).1@ == other && (mentions(
                        stdout@,
                        k,
                    ) || mentions(stderr@, k)) by {
                if before.contains(other) {
                    let k = choose|k: int|
                        0 <= k < i && (#[trigger] CHILD_ERROR_MARKERS@[k]).1@ == other && (mentions(
                            stdout@,
                            k,
                        ) || mentions(stderr@, k));
                    assert(CHILD_ERROR_MARKERS@[k].1@ == other);
                }
                if here && other == label@ {
                    assert(CHILD_ERROR_MARKERS@[i as int].1@ == other);
                }
            }
        }
        i += 1;
    }
    let mut labels: Vec<String> = Vec::new();
    let mut k: usize = 0;
    while k < found.len()
        invariant
            k <= found.keys().len(),
            views(labels@) == found.keys().take(k as int),
        decreases found.keys().len() - k,
    {
        let ghost before = labels@;
        labels.push(found.at(k).clone());
        assert(views(labels@) =~= views(before).push(found.keys()[k as int]));
        assert(found.keys().take(k + 1) =~= found.keys().take(k as int).push(
            found.keys()[k as int],
        ));
        k += 1;
    }
    proof {
        assert(found.keys().take(k as int) =~= found.keys());
        assert(found@ =~= target);
        found.lemma_ascending();
        lemma_listing_is_unique::<String>(found.keys(), target);
    }
    labels
}

/// No text of a child's output reaches its summary: outputs of equal lengths
/// that mention the same categories have the same summary, whatever else they
/// say.
pub proof fn lemma_summary_is_payload_free(
    status_code: Option<i32>,
    signal: Option<i32>,
    first: (Seq<u8>, Seq<u8>),
    second: (Seq<u8>, Seq<u8>),
)
    requires
        first.0.len() == second.0.len(),
        first.1.len() == second.1.len(),
        marker_labels(first.0, first.1) == marker_labels(second.0, second.1),
    ensures
        child_summary(status_code, signal, first.0, first.1) == child_summary(
            status_code,
            signal,
            second.0,
            second.1,
        ),
{
}

/// Summarizes a failed acceptance child using only fixed diagnostic categories
/// and lengths.
///
/// The child output itself can contain fixture credentials, payloads, paths,
/// or endpoints, so no line or tail is ever copied into the summary.
pub fn child_failure_summary(
    status_code: Option<i32>,
    signal: Option<i32>,
    stdout: &[u8],
    stderr: &[u8],
) -> (text: String)
    ensures
        text@ == child_summary(status_code, signal, stdout@, stderr@),
{
    let labels = find_markers(stdout, stderr);
    let markers = if labels.len() == 0 {
        "none".to_owned()
    } else {
        join_texts(&labels, "|")
    };
    let code = option_text(status_code);
    let signal = option_text(signal);
    let stdout_length = decimal_text(stdout.len() as u128);
    let stderr_length = decimal_text(stderr.len() as u128);
    named_text("status_code=", code.as_str(), ",signal=").concat(signal.as_str()).concat(
        ",stdout_bytes=",
    ).concat(stdout_length.as_str()).concat(",stderr_bytes=").concat(
        stderr_length.as_str(),
    ).concat(",markers=").concat(markers.as_str())
}

/// Why a case's child failed, in words: its summary, and where its output was
/// kept, if it was.
pub fn child_failure(case: &MatrixCase, summary: &str, preserved: Option<&str>) -> (error:
    HarnessError)
    ensures
        error@ == ErrorView::Process(
            "C11 "@ + case.name@ + " acceptance child exited unsuccessfully: "@ + summary@
                + match preserved {
                Some(path) => ",preserved="@ + path@,
                None => Seq::empty(),
            },
        ),
{
    let head = named_text("C11 ", case.name, " acceptance child exited unsuccessfully: ").concat(
        summary,
    );
    match preserved {
        Some(path) => {
            let tail = ",preserved=".to_owned().concat(path);
            HarnessError::Process(head.concat(tail.as_str()))
        },
        None => {
            assert(head@ + Seq::<char>::empty() =~= head@);
            HarnessError::Process(head)
        },
    }
}

/// The value of the environment identifier `name`, if it was set to a bounded
/// identifier.
pub fn safe_environment_id(name: &'static str, value: Option<String>) -> (result: Result<
    String,
    HarnessError,
>)
    ensures
        match value {
            None => result is Err && result->Err_0@ == ErrorView::InvalidInput(
                "C11 diagnostics requires "@ + name@,
            ),
            Some(text) => if is_token(text@) {
                result is Ok && result->Ok_0@ == text@
            } else {
                result is Err && result->Err_0@ == ErrorView::InvalidInput(
                    "C11 diagnostics "@ + name@ + " must be a bounded identifier"@,
                )
            },
        },
{
    match value {
        None => Err(
            HarnessError::InvalidInput("C11 diagnostics requires ".to_owned().concat(name)),
        ),
        Some(text) => {
            if token(text.as_str()) {
                Ok(text)
            } else {
                Err(
                    HarnessError::InvalidInput(
                        named_text("C11 diagnostics ", name, " must be a bounded identifier"),
                    ),
                )
            }
        },
    }
}

/// The parent's wall time for one case, in milliseconds: the child's own
/// deadline and room to reap it and to join both of its readers.
pub const CASE_WALL_MS: u64 = 250000;

/// The matrix's deadline, in milliseconds.
pub const MATRIX_MS: u64 = 1800000;

/// Why the next case may not start with this much of the matrix's time left.
pub open spec fn pacing_failure(remaining_ms: u64) -> Option<Seq<char>> {
    if remaining_ms == 0 {
        Some("C11 diagnostics matrix exceeded its bounded deadline"@)
    } else if remaining_ms < CASE_WALL_MS {
        Some("C11 diagnostics matrix left insufficient cleanup time for the next case"@)
    } else {
        None
    }
}

/// Whether the next case may start with this much of the matrix's time left.
pub fn may_start_case(remaining_ms: u64) -> (result: Result<(), HarnessError>)
    ensures
        match result {
            Ok(()) => pacing_failure(remaining_ms) is None,
            Err(error) => error@ is Timeout && pacing_failure(remaining_ms) == Some(
                error@->Timeout_0,
            ),
        },
{
    if remaining_ms == 0 {
        return Err(HarnessError::timeout("C11 diagnostics matrix exceeded its bounded deadline"));
    }
    if remaining_ms < CASE_WALL_MS {
        return Err(
            HarnessError::timeout(
                "C11 diagnostics matrix left insufficient cleanup time for the next case",
            ),
        );
    }
    Ok(())
}

/// Takes a case's report into the matrix, unless the case and its cleanup took
/// more time than the matrix has.
pub fn accept_case(bundle: &mut C11EvidenceBundle, report: C11ScanReport, past_deadline: bool) -> (result:
    Result<(), HarnessError>)
    requires
        old(bundle).wf(),
        report.wf(),
    ensures
        final(bundle).wf(),
        match result {
            Ok(()) => !past_deadline && add_failure(old(bundle)@, report@) is None
                && final(bundle)@ == (BundleView {
                reports: old(bundle)@.reports.insert((report.stage, report.outcome), report@),
                ..old(bundle)@
            }),
            Err(error) => *final(bundle) == *old(bundle) && if past_deadline {
                error@ == ErrorView::Timeout(
                    "C11 diagnostics matrix exceeded its bounded deadline after case cleanup"@,
                )
            } else {
                add_failure(old(bundle)@, report@) is Some && error@ == ErrorView::Process(
                    "C11 diagnostics: "@ + add_failure(old(bundle)@, report@)->Some_0.text(),
                )
            },
        },
{
    if past_deadline {
        return Err(
            HarnessError::timeout(
                "C11 diagnostics matrix exceeded its bounded deadline after case cleanup",
            ),
        );
    }
    match bundle.add(report) {
        Ok(()) => Ok(()),
        Err(failure) => {
            let printed = failure.message();
            Err(HarnessError::Process("C11 diagnostics: ".to_owned().concat(printed.as_str())))
        },
    }
}

/// Ends the matrix.  Its totals must fit, which `fits` says.
pub fn finish_matrix(bundle: C11EvidenceBundle, ended_utc_ms: i64) -> (result: Result<
    C11MatrixReport,
    HarnessError,
>)
    requires
        bundle.wf(),
        matrix_failure(bundle@, ended_utc_ms) is None ==> totals_fit(bundle@.reports),
    ensures
        match result {
            Ok(report) => matrix_failure(bundle@, ended_utc_ms) is None && is_matrix_report(
                report,
                bundle@,
                ended_utc_ms,
            ),
            Err(error) => matrix_failure(bundle@, ended_utc_ms) is Some && error@
                == ErrorView::Process(
                "C11 diagnostics: "@ + matrix_failure(bundle@, ended_utc_ms)->Some_0.text(),
            ),
        },
{
    match bundle.finish(ended_utc_ms) {
        Ok(report) => Ok(report),
        Err(failure) => {
            let printed = failure.message();
            Err(HarnessError::Process("C11 diagnostics: ".to_owned().concat(printed.as_str())))
        },
    }
}

/// A time since the epoch as a timestamp.
pub fn timestamp(elapsed_ms: u128) -> (result: Result<i64, HarnessError>)
    ensures
        match result {
            Ok(stamp) => stamp == elapsed_ms,
            Err(error) => elapsed_ms > i64::MAX && error@ == ErrorView::Process(
                "C11 diagnostics timestamp overflow"@,
            ),
        },
{
    if elapsed_ms > 9223372036854775807u128 {
        return Err(HarnessError::process("C11 diagnostics timestamp overflow"));
    }
    Ok(elapsed_ms as i64)
}

/// Managed processes are counted by name, one by one: those of two lists in a
/// row are those of each, and one process counts for its own name alone.  The
/// required counts add up in the same way.
pub proof fn lemma_processes_add_up(
    first: Seq<(Seq<char>, Seq<u8>, Seq<u8>)>,
    second: Seq<(Seq<char>, Seq<u8>, Seq<u8>)>,
    one: (Seq<char>, Seq<u8>, Seq<u8>),
    name: Seq<char>,
)
    ensures
        named(first + second, name) == named(first, name) + named(second, name),
        named(seq![one], name) == if one.0 == name {
            1nat
        } else {
            0
        },
    decreases second.len(),
{
    reveal_with_fuel(named, 2);
    assert(seq![one].drop_last() =~= Seq::empty());
    if second.len() == 0 {
        assert(first + second =~= first);
    } else {
        assert((first + second).drop_last() =~= first + second.drop_last());
        lemma_processes_add_up(first, second.drop_last(), one, name);
    }
}

/// The required counts of two lists in a row add up, and one requirement asks
/// for its own number.
pub proof fn lemma_counts_add_up(
    first: Seq<(&'static str, usize)>,
    second: Seq<(&'static str, usize)>,
    one: (&'static str, usize),
)
    ensures
        counts_total(first + second) == counts_total(first) + counts_total(second),
        counts_total(seq![one]) == one.1,
    decreases second.len(),
{
    reveal_with_fuel(counts_total, 2);
    assert(seq![one].drop_last() =~= Seq::empty());
    if second.len() == 0 {
        assert(first + second =~= first);
    } else {
        assert((first + second).drop_last() =~= first + second.drop_last());
        lemma_counts_add_up(first, second.drop_last(), one);
    }
}

/// A child's capture is complete exactly when it has a sentinel of every
/// required category, every required process in its exact number and no other,
/// and a snapshot of every required role.
pub proof fn lemma_complete_capture(case: MatrixCase, capture: CaptureView)
    ensures
        capture_failure(case, capture) is None <==> {
            &&& forall|i: int|
                0 <= i < case.required_sentinels@.len() ==> recorded(
                    capture.sentinels,
                    #[trigger] case.required_sentinels@[i],
                )
            &&& forall|i: int|
                0 <= i < case.required_inner_process_counts@.len() ==> named(
                    capture.inner,
                    (#[trigger] case.required_inner_process_counts@[i]).0@,
                ) == case.required_inner_process_counts@[i].1
            &&& capture.inner.len() == counts_total(case.required_inner_process_counts@)
            &&& forall|i: int|
                0 <= i < capture.inner.len() ==> declared(
                    case.required_inner_process_counts@,
                    (#[trigger] capture.inner[i]).0,
                )
            &&& forall|i: int|
                0 <= i < case.required_snapshot_roles@.len() ==> captured(
                    capture.snapshots,
                    (#[trigger] case.required_snapshot_roles@[i])@,
                )
        },
{
    let sentinels = sentinel_steps(case, capture);
    let counts = count_steps(case, capture);
    let snapshots = snapshot_steps(case, capture);
    let required = case.required_inner_process_counts@;
    lemma_first_failure(sentinels, 0, case.required_sentinels@.len() as int);
    lemma_first_failure(counts, 0, required.len() as int);
    lemma_first_failure(snapshots, 0, case.required_snapshot_roles@.len() as int);
    assert forall|i: int| 0 <= i < case.required_sentinels@.len() implies (#[trigger] sentinels(
        i,
    ) is None <==> recorded(capture.sentinels, case.required_sentinels@[i])) by {}
    assert forall|i: int| 0 <= i < required.len() implies (#[trigger] counts(i) is None <==> named(
        capture.inner,
        required[i].0@,
    ) == required[i].1) by {}
    assert forall|i: int| 0 <= i < case.required_snapshot_roles@.len() implies (
    #[trigger] snapshots(i) is None <==> captured(
        capture.snapshots,
        case.required_snapshot_roles@[i]@,
    )) by {}
    if capture_failure(case, capture) is None {
        assert forall|i: int| 0 <= i < case.required_sentinels@.len() implies recorded(
            capture.sentinels,
            #[trigger] case.required_sentinels@[i],
        ) by {
            assert(sentinels(i) is None);
        }
        assert forall|i: int| 0 <= i < required.len() implies named(
            capture.inner,
            (#[trigger] required[i]).0@,
        ) == required[i].1 by {
            assert(counts(i) is None);
        }
        assert forall|i: int| 0 <= i < case.required_snapshot_roles@.len() implies captured(
            capture.snapshots,
            (#[trigger] case.required_snapshot_roles@[i])@,
        ) by {
            assert(snapshots(i) is None);
        }
    }
}

/// Each managed process has a stream for each of its two outputs, and each
/// output's bytes go to its own.
pub proof fn lemma_process_streams(inner: Seq<(Seq<char>, Seq<u8>, Seq<u8>)>, count: nat, i: int)
    requires
        0 <= i < count,
    ensures
        process_roles(count).len() == 2 * count,
        process_roles(count)[2 * i] == "managed_process_"@ + decimal(i as nat) + "_stdout"@,
        process_roles(count)[2 * i + 1] == "managed_process_"@ + decimal(i as nat) + "_stderr"@,
        process_appends(inner, count).len() == 2 * count,
        process_appends(inner, count)[2 * i] == (process_roles(count)[2 * i], inner[i].1),
        process_appends(inner, count)[2 * i + 1] == (process_roles(count)[2 * i + 1], inner[i].2),
    decreases count,
{
    let front = (count - 1) as nat;
    if i < front {
        lemma_process_streams(inner, front, i);
    } else {
        lemma_stream_counts(inner, front);
    }
}

proof fn lemma_stream_counts(inner: Seq<(Seq<char>, Seq<u8>, Seq<u8>)>, count: nat)
    ensures
        process_roles(count).len() == 2 * count,
        process_appends(inner, count).len() == 2 * count,
    decreases count,
{
    if count > 0 {
        lemma_stream_counts(inner, (count - 1) as nat);
    }
}

/// A stream that may establish fields is one that is expected.  A snapshot is
/// such a stream exactly when it is a relay's.
pub proof fn lemma_safe_streams(capture: CaptureView, role: Seq<char>, i: int)
    requires
        0 <= i < capture.snapshots.len(),
        begins_with(capture.snapshots[i].0, "snapshot-"@),
    ensures
        safe_roles(capture).contains(role) ==> expected_roles(capture).contains(role),
        safe_roles(capture).contains(capture.snapshots[i].0) <==> begins_with(
            capture.snapshots[i].0,
            "snapshot-relay-"@,
        ),
        expected_roles(capture).contains(capture.snapshots[i].0),
{
    let head = seq!["harness_stdout"@, "harness_stderr"@] + process_roles(capture.inner.len());
    let roles = snapshot_roles(capture.snapshots);
    let keep = |role: Seq<char>| begins_with(role, "snapshot-relay-"@);
    let kept = roles.filter(keep);
    let all = expected_roles(capture);
    let safe = safe_roles(capture);
    let snapshot = capture.snapshots[i].0;
    assert(all =~= head + roles);
    assert(safe =~= head + kept);
    assert(roles[i] == snapshot);
    assert(all[head.len() + i] == snapshot);
    if safe.contains(role) {
        let k = choose|k: int| 0 <= k < safe.len() && safe[k] == role;
        if k < head.len() {
            assert(all[k] == role);
        } else {
            assert(kept[k - head.len()] == role);
            roles.lemma_filter_contains_rev(keep, role);
            let j = choose|j: int| 0 <= j < roles.len() && roles[j] == role;
            assert(all[head.len() + j] == role);
        }
    }
    if keep(snapshot) {
        roles.lemma_filter_contains(keep, i);
        let j = choose|j: int| 0 <= j < kept.len() && kept[j] == snapshot;
        assert(safe[head.len() + j] == snapshot);
    }
    if safe.contains(snapshot) {
        let k = choose|k: int| 0 <= k < safe.len() && safe[k] == snapshot;
        if k < head.len() {
            lemma_head_roles(capture.inner.len(), k);
            reveal_strlit("snapshot-");
            assert(snapshot[0] == "snapshot-"@[0]) by {
                assert(snapshot.subrange(0, "snapshot-"@.len() as int)[0] == snapshot[0]);
            }
        } else {
            assert(kept[k - head.len()] == snapshot);
            roles.lemma_filter_pred(keep, k - head.len());
        }
    }
}

proof fn lemma_head_roles(count: nat, k: int)
    requires
        0 <= k < 2 + process_roles(count).len(),
    ensures
        (seq!["harness_stdout"@, "harness_stderr"@] + process_roles(count))[k].len() > 0,
        (seq!["harness_stdout"@, "harness_stderr"@] + process_roles(count))[k][0] != 's',
{
    reveal_strlit("harness_stdout");
    reveal_strlit("harness_stderr");
    reveal_strlit("managed_process_");
    if k >= 2 {
        let none = Seq::<(Seq<char>, Seq<u8>, Seq<u8>)>::empty();
        lemma_stream_counts(none, count);
        lemma_process_streams(none, count, (k - 2) / 2);
        let role = process_roles(count)[k - 2];
        assert(k - 2 == 2 * ((k - 2) / 2) || k - 2 == 2 * ((k - 2) / 2) + 1);
        assert(role[0] == "managed_process_"@[0]);
    }
}

proof fn lemma_accepted_appends(window: WindowView, list: Seq<(Seq<char>, Seq<u8>)>, k: int)
    requires
        after_appends(window, list) is Ok,
        0 <= k < list.len(),
    ensures
        after_appends(window, list)->Ok_0.spec == window.spec,
        window.spec.expected_roles.contains(list[k].0),
        forall|i: int|
            0 <= i < window.spec.sentinels.len() ==> !holds_bytes(
                list[k].1,
                (#[trigger] window.spec.sentinels[i]).1,
            ),
        after_appends(window, list)->Ok_0.streams.dom().contains(list[k].0),
        occurs_in(after_appends(window, list)->Ok_0.streams[list[k].0].bytes, list[k].1),
    decreases list.len(),
{
    let front = list.drop_last();
    let before = after_appends(window, front)->Ok_0;
    let last = list.last();
    let after = appended(before, last.0, last.1);
    lemma_appends_keep_spec(window, front);
    lemma_accepted_append(before, last.0, last.1);
    lemma_append_adds_at_the_end(before, last.0, last.1, list[k].0);
    if k == list.len() - 1 {
        let held = if before.streams.dom().contains(last.0) {
            before.streams[last.0].bytes
        } else {
            Seq::empty()
        };
        assert(after.streams[last.0].bytes =~= held + last.1);
        assert((held + last.1).subrange(held.len() as int, held.len() + last.1.len() as int)
            =~= last.1);
        assert(occurs_at(after.streams[last.0].bytes, last.1, held.len() as int));
        assert forall|i: int| 0 <= i < window.spec.sentinels.len() implies !holds_bytes(
            last.1,
            (#[trigger] window.spec.sentinels[i]).1,
        ) by {
            let value = window.spec.sentinels[i].1;
            assert(!holds_bytes(held + last.1, value));
            if holds_bytes(last.1, value) {
                let at = choose|at: int| occurs_at(last.1, value, at);
                assert((held + last.1).subrange(
                    held.len() + at,
                    held.len() + at + value.len(),
                ) =~= last.1.subrange(at, at + value.len()));
                assert(occurs_at(held + last.1, value, held.len() + at));
            }
        }
    } else {
        assert(front[k] == list[k]);
        lemma_accepted_appends(window, front, k);
        let role = list[k].0;
        let part = list[k].1;
        let at = choose|at: int| occurs_at(before.streams[role].bytes, part, at);
        if role == last.0 {
            let short = before.streams[role].bytes;
            let long = after.streams[role].bytes;
            assert(long == short + last.1);
            assert(long.subrange(at, at + part.len()) =~= short.subrange(at, at + part.len()));
            assert(occurs_at(long, part, at));
        } else {
            assert(occurs_at(after.streams[role].bytes, part, at));
        }
    }
}

proof fn lemma_appends_keep_spec(window: WindowView, list: Seq<(Seq<char>, Seq<u8>)>)
    requires
        after_appends(window, list) is Ok,
    ensures
        after_appends(window, list)->Ok_0.spec == window.spec,
    decreases list.len(),
{
    if list.len() > 0 {
        lemma_appends_keep_spec(window, list.drop_last());
    }
}

proof fn lemma_joins_keep_bytes(window: WindowView, roles: Seq<Seq<char>>, role: Seq<char>)
    requires
        after_joins(window, roles) is Ok,
    ensures
        after_joins(window, roles)->Ok_0.spec == window.spec,
        window.streams.dom().contains(role) ==> after_joins(
            window,
            roles,
        )->Ok_0.streams.dom().contains(role) && after_joins(window, roles)->Ok_0.streams[role].bytes
            == window.streams[role].bytes,
    decreases roles.len(),
{
    if roles.len() > 0 {
        let before = after_joins(window, roles.drop_last())->Ok_0;
        lemma_joins_keep_bytes(window, roles.drop_last(), role);
        lemma_close_then_join(before, roles.last(), role);
        lemma_close_then_join(closed_window(before, roles.last()), roles.last(), role);
    }
}

/// The appends of a capture are each output and each snapshot of it.
proof fn lemma_case_appends(capture: CaptureView)
    ensures
        case_appends(capture).len() == 2 + 2 * capture.inner.len() + capture.snapshots.len(),
        case_appends(capture)[0] == ("harness_stdout"@, capture.stdout),
        case_appends(capture)[1] == ("harness_stderr"@, capture.stderr),
        forall|j: int|
            #![trigger capture.inner[j]]
            0 <= j < capture.inner.len() ==> case_appends(capture)[2 + 2 * j].1
                == capture.inner[j].1 && case_appends(capture)[3 + 2 * j].1 == capture.inner[j].2,
        forall|j: int|
            0 <= j < capture.snapshots.len() ==> case_appends(
                capture,
            )[2 + 2 * capture.inner.len() + j] == #[trigger] capture.snapshots[j],
{
    let own = seq![("harness_stdout"@, capture.stdout), ("harness_stderr"@, capture.stderr)];
    let middle = process_appends(capture.inner, capture.inner.len());
    lemma_stream_counts(capture.inner, capture.inner.len());
    assert(case_appends(capture) =~= own + middle + capture.snapshots);
    assert forall|j: int|
        #![trigger capture.inner[j]]
        0 <= j < capture.inner.len() implies case_appends(capture)[2 + 2 * j].1
        == capture.inner[j].1 && case_appends(capture)[3 + 2 * j].1 == capture.inner[j].2 by {
        lemma_process_streams(capture.inner, capture.inner.len(), j);
        assert(case_appends(capture)[2 + 2 * j] == middle[2 * j]);
        assert(case_appends(capture)[3 + 2 * j] == middle[2 * j + 1]);
    }
}

/// No output and no snapshot of an accepted run holds a sentinel value: not
/// the harness's own outputs, not those of any managed process, and not any
/// snapshot.
pub proof fn lemma_accepted_run_is_clean(
    case: MatrixCase,
    capture: CaptureView,
    source_id: Seq<char>,
    build_id: Seq<char>,
    started_utc_ms: i64,
    ended_utc_ms: i64,
    i: int,
)
    requires
        case_verdict(case, capture, source_id, build_id, started_utc_ms, ended_utc_ms) is Ok,
        0 <= i < capture.sentinels.len(),
    ensures
        !holds_bytes(capture.stdout, capture.sentinels[i].1),
        !holds_bytes(capture.stderr, capture.sentinels[i].1),
        forall|j: int|
            0 <= j < capture.inner.len() ==> !holds_bytes(
                (#[trigger] capture.inner[j]).1,
                capture.sentinels[i].1,
            ) && !holds_bytes(capture.inner[j].2, capture.sentinels[i].1),
        forall|j: int|
            0 <= j < capture.snapshots.len() ==> !holds_bytes(
                (#[trigger] capture.snapshots[j]).1,
                capture.sentinels[i].1,
            ),
{
    let empty = WindowView {
        spec: case_spec(case, capture, source_id, build_id, started_utc_ms),
        streams: Map::empty(),
    };
    let list = case_appends(capture);
    let value = empty.spec.sentinels[i];
    lemma_case_appends(capture);
    lemma_accepted_appends(empty, list, 0);
    lemma_accepted_appends(empty, list, 1);
    assert forall|j: int| 0 <= j < capture.inner.len() implies !holds_bytes(
        (#[trigger] capture.inner[j]).1,
        capture.sentinels[i].1,
    ) && !holds_bytes(capture.inner[j].2, capture.sentinels[i].1) by {
        lemma_accepted_appends(empty, list, 2 + 2 * j);
        lemma_accepted_appends(empty, list, 3 + 2 * j);
    }
    assert forall|j: int| 0 <= j < capture.snapshots.len() implies !holds_bytes(
        (#[trigger] capture.snapshots[j]).1,
        capture.sentinels[i].1,
    ) by {
        lemma_accepted_appends(empty, list, 2 + 2 * capture.inner.len() + j);
    }
}

/// An accepted run is the whole of what its child left behind: nothing
/// overflowed or failed to be read, every output and every snapshot stands in
/// the window's streams, the harness's own and each snapshot under its name,
/// and the window is that of the row, the source and the build.
pub proof fn lemma_accepted_run_is_whole(
    case: MatrixCase,
    capture: CaptureView,
    source_id: Seq<char>,
    build_id: Seq<char>,
    started_utc_ms: i64,
    ended_utc_ms: i64,
    j: int,
)
    requires
        case_verdict(case, capture, source_id, build_id, started_utc_ms, ended_utc_ms) is Ok,
    ensures
        capture_failure(case, capture) is None,
        !capture.stdout_overflow && !capture.stderr_overflow,
        !capture.stdout_read_error && !capture.stderr_read_error,
        ({
            let window = case_verdict(
                case,
                capture,
                source_id,
                build_id,
                started_utc_ms,
                ended_utc_ms,
            )->Ok_0;
            &&& finish_failure(window, ended_utc_ms) is None
            &&& window.spec.source_id == source_id
            &&& window.spec.build_id == build_id
            &&& window.spec.stage == case.stage
            &&& window.spec.outcome == case.outcome
            &&& window.spec.started_utc_ms == started_utc_ms
            &&& window.spec.sentinels == capture.sentinels
            &&& window.spec.max_bytes_per_stream == 1048576
            &&& forall|field: SafeField| #[trigger]
                window.spec.required_fields.contains(field)
                    <==> case.required_safe_fields@.contains(field)
            &&& occurs_in(window.streams["harness_stdout"@].bytes, capture.stdout)
            &&& occurs_in(window.streams["harness_stderr"@].bytes, capture.stderr)
            &&& 0 <= j < capture.inner.len() ==> occurs_in(
                window.streams["managed_process_"@ + decimal(j as nat) + "_stdout"@].bytes,
                capture.inner[j].1,
            ) && occurs_in(
                window.streams["managed_process_"@ + decimal(j as nat) + "_stderr"@].bytes,
                capture.inner[j].2,
            )
            &&& 0 <= j < capture.snapshots.len() ==> occurs_in(
                window.streams[capture.snapshots[j].0].bytes,
                capture.snapshots[j].1,
            )
        }),
{
    let empty = WindowView {
        spec: case_spec(case, capture, source_id, build_id, started_utc_ms),
        streams: Map::empty(),
    };
    let list = case_appends(capture);
    let roles = expected_roles(capture);
    let filled = after_appends(empty, list)->Ok_0;
    lemma_case_appends(capture);
    lemma_accepted_appends(empty, list, 0);
    lemma_accepted_appends(empty, list, 1);
    lemma_joins_keep_bytes(filled, roles, "harness_stdout"@);
    lemma_joins_keep_bytes(filled, roles, "harness_stderr"@);
    if 0 <= j < capture.inner.len() {
        let middle = process_appends(capture.inner, capture.inner.len());
        lemma_process_streams(capture.inner, capture.inner.len(), j);
        assert(list[2 + 2 * j] == middle[2 * j]);
        assert(list[3 + 2 * j] == middle[2 * j + 1]);
        lemma_accepted_appends(empty, list, 2 + 2 * j);
        lemma_accepted_appends(empty, list, 3 + 2 * j);
        lemma_joins_keep_bytes(filled, roles, list[2 + 2 * j].0);
        lemma_joins_keep_bytes(filled, roles, list[3 + 2 * j].0);
    }
    if 0 <= j < capture.snapshots.len() {
        let at = 2 + 2 * capture.inner.len() + j;
        assert(list[at] == capture.snapshots[j]);
        lemma_accepted_appends(empty, list, at);
        lemma_joins_keep_bytes(filled, roles, list[at].0);
    }
    assert forall|field: SafeField| #[trigger]
        empty.spec.required_fields.contains(field)
            <==> case.required_safe_fields@.contains(field) by {}
}

/// The categories that a failed child mentions: it does not matter on which
/// output, an output that holds another mentions all that the other does, and
/// silence mentions none.
pub proof fn lemma_mentions(first: Seq<u8>, second: Seq<u8>, more: Seq<u8>)
    ensures
        marker_labels(first, second) == marker_labels(second, first),
        marker_labels(first, second).subset_of(marker_labels(first + more, second)),
        marker_labels(first, second).subset_of(marker_labels(more + first, second)),
        marker_labels(Seq::empty(), Seq::empty()) == Set::<Seq<char>>::empty(),
{
    assert(marker_labels(first, second) =~= marker_labels(second, first));
    assert forall|i: int| #[trigger] mentions(first, i) implies mentions(first + more, i)
        && mentions(more + first, i) by {
        let marker = encode_utf8(CHILD_ERROR_MARKERS@[i].0@);
        let at = choose|at: int| insensitive_at(first, marker, at);
        assert forall|k: int| 0 <= k < marker.len() implies lowered((first + more)[at + k])
            == lowered(#[trigger] marker[k]) by {
            assert((first + more)[at + k] == first[at + k]);
        }
        assert forall|k: int| 0 <= k < marker.len() implies lowered(
            (more + first)[more.len() + at + k],
        ) == lowered(#[trigger] marker[k]) by {
            assert((more + first)[more.len() + at + k] == first[at + k]);
        }
        assert(insensitive_at(first + more, marker, at));
        assert(insensitive_at(more + first, marker, more.len() + at));
    }
    assert forall|i: int| !mentions(Seq::empty(), i) by {
        let marker = encode_utf8(CHILD_ERROR_MARKERS@[i].0@);
        if mentions(Seq::empty(), i) {
            let at = choose|at: int| insensitive_at(Seq::empty(), marker, at);
            assert(marker.len() > 0);
        }
    }
    assert(marker_labels(Seq::empty(), Seq::empty()) =~= Set::<Seq<char>>::empty());
}

/// A case may start exactly with the wall time of one case left, and with any
/// more than that too.
pub proof fn lemma_pacing(remaining_ms: u64, more_ms: u64)
    ensures
        pacing_failure(remaining_ms) is None <==> remaining_ms >= 250000,
        remaining_ms <= more_ms && pacing_failure(remaining_ms) is None ==> pacing_failure(
            more_ms,
        ) is None,
        pacing_failure(remaining_ms) == Some(
            "C11 diagnostics matrix exceeded its bounded deadline"@,
        ) <==> remaining_ms == 0,
{
    reveal_strlit("C11 diagnostics matrix exceeded its bounded deadline");
    reveal_strlit("C11 diagnostics matrix left insufficient cleanup time for the next case");
    assert("C11 diagnostics matrix exceeded its bounded deadline"@.len()
        != "C11 diagnostics matrix left insufficient cleanup time for the next case"@.len());
}

/// What marker `i` looks for, and the label it is reported by, one by one.
pub proof fn lemma_markers(bytes: Seq<u8>)
    ensures
        mentions(bytes, 0) <==> holds_insensitive(bytes, encode_utf8("tunnel-test-harness:"@)),
        mentions(bytes, 1) <==> holds_insensitive(bytes, encode_utf8("HTTP/TLS probe error:"@)),
        mentions(bytes, 2) <==> holds_insensitive(bytes, encode_utf8("Redis harness error:"@)),
        mentions(bytes, 3) <==> holds_insensitive(bytes, encode_utf8("managed process error:"@)),
        mentions(bytes, 4) <==> holds_insensitive(bytes, encode_utf8("harness timeout:"@)),
        mentions(bytes, 5) <==> holds_insensitive(bytes, encode_utf8("invalid harness input:"@)),
        mentions(bytes, 6) <==> holds_insensitive(bytes, encode_utf8("owner-loss"@)),
        mentions(bytes, 7) <==> holds_insensitive(bytes, encode_utf8("owner loss"@)),
        mentions(bytes, 8) <==> holds_insensitive(bytes, encode_utf8("snapshot"@)),
        mentions(bytes, 9) <==> holds_insensitive(bytes, encode_utf8("cleanup"@)),
        mentions(bytes, 10) <==> holds_insensitive(bytes, encode_utf8("authorization"@)),
        mentions(bytes, 11) <==> holds_insensitive(bytes, encode_utf8("recovery"@)),
        mentions(bytes, 12) <==> holds_insensitive(bytes, encode_utf8("transport"@)),
        mentions(bytes, 13) <==> holds_insensitive(bytes, encode_utf8("sentinel"@)),
        mentions(bytes, 14) <==> holds_insensitive(bytes, encode_utf8("route"@)),
        mentions(bytes, 15) <==> holds_insensitive(bytes, encode_utf8("stream"@)),
        mentions(bytes, 16) <==> holds_insensitive(bytes, encode_utf8("expected"@)),
        CHILD_ERROR_MARKERS@[0].1@ == "harness_error"@,
        CHILD_ERROR_MARKERS@[1].1@ == "http"@,
        CHILD_ERROR_MARKERS@[2].1@ == "redis"@,
        CHILD_ERROR_MARKERS@[3].1@ == "managed_process"@,
        CHILD_ERROR_MARKERS@[4].1@ == "timeout"@,
        CHILD_ERROR_MARKERS@[5].1@ == "invalid_input"@,
        CHILD_ERROR_MARKERS@[6].1@ == "owner_loss"@,
        CHILD_ERROR_MARKERS@[7].1@ == "owner_loss"@,
        CHILD_ERROR_MARKERS@[8].1@ == "snapshot"@,
        CHILD_ERROR_MARKERS@[9].1@ == "cleanup"@,
        CHILD_ERROR_MARKERS@[10].1@ == "authorization"@,
        CHILD_ERROR_MARKERS@[11].1@ == "recovery"@,
        CHILD_ERROR_MARKERS@[12].1@ == "transport"@,
        CHILD_ERROR_MARKERS@[13].1@ == "sentinel"@,
        CHILD_ERROR_MARKERS@[14].1@ == "route"@,
        CHILD_ERROR_MARKERS@[15].1@ == "stream"@,
        CHILD_ERROR_MARKERS@[16].1@ == "assertion"@,
{
}

/// Runs of one row that began at different times have different identifiers.
pub proof fn lemma_run_ids_differ(case: MatrixCase, first_ms: i64, second_ms: i64)
    ensures
        case_run_id(case, first_ms) == case_run_id(case, second_ms) ==> first_ms == second_ms,
{
    let head = "c11-"@ + case.name@ + "-"@;
    let at = head.len() as int;
    assert(case_run_id(case, first_ms).skip(at) =~= signed_decimal(first_ms as int));
    assert(case_run_id(case, second_ms).skip(at) =~= signed_decimal(second_ms as int));
    lemma_signed_decimal(first_ms as int, second_ms as int);
}

/// A window is set up exactly when its identifiers and its roles are bounded,
/// the streams that may establish fields are among the expected ones, and each
/// required peer fault is one that a relay could report.
pub proof fn lemma_set_up_window(
    case: MatrixCase,
    capture: CaptureView,
    source_id: Seq<char>,
    build_id: Seq<char>,
    started_utc_ms: i64,
)
    ensures
        setup_failure(case, capture, source_id, build_id, started_utc_ms) is None <==> {
            &&& is_token(case_run_id(case, started_utc_ms))
            &&& is_token(source_id)
            &&& is_token(build_id)
            &&& forall|i: int|
                0 <= i < expected_roles(capture).len() ==> is_token(
                    #[trigger] expected_roles(capture)[i],
                )
            &&& forall|i: int|
                0 <= i < safe_roles(capture).len() ==> is_token(#[trigger] safe_roles(capture)[i])
            &&& safe_roles(capture).to_set().subset_of(expected_roles(capture).to_set())
            &&& forall|i: int|
                0 <= i < case.required_peer_faults@.len() ==> first_broken(
                    requirement_rules(
                        (#[trigger] case.required_peer_faults@[i]).0@,
                        case.required_peer_faults@[i].1@,
                        case.required_peer_faults@[i].2@,
                    ),
                ) is None
        },
{
    let declared = case.required_peer_faults@;
    let steps = declared_steps(declared);
    let faults = chained(steps, declared.len());
    lemma_first_broken(faults);
    lemma_all_hold_chained(steps, declared.len());
    assert forall|i: int| 0 <= i < declared.len() implies (all_hold(#[trigger] steps(i))
        <==> first_broken(
        requirement_rules(declared[i].0@, declared[i].1@, declared[i].2@),
    ) is None) by {
        lemma_first_broken(steps(i));
    }
    if first_broken(faults) is None {
        assert forall|i: int| 0 <= i < declared.len() implies first_broken(
            requirement_rules(
                (#[trigger] declared[i]).0@,
                declared[i].1@,
                declared[i].2@,
            ),
        ) is None by {
            assert(all_hold(steps(i)));
        }
    }
    if forall|i: int|
        0 <= i < declared.len() ==> first_broken(
            requirement_rules((#[trigger] declared[i]).0@, declared[i].1@, declared[i].2@),
        ) is None {
        assert forall|i: int| 0 <= i < declared.len() implies all_hold(#[trigger] steps(i)) by {
            let one = declared[i];
        }
    }
    assert(expected_roles(capture).len() >= 2);
}

/// What a child recorded, captured and joined is looked up item by item: one
/// more item adds its own category, role or name and no other.
pub proof fn lemma_lookups(
    sentinels: Seq<(SentinelKind, Seq<u8>)>,
    sentinel: (SentinelKind, Seq<u8>),
    kind: SentinelKind,
    snapshots: Seq<(Seq<char>, Seq<u8>)>,
    snapshot: (Seq<char>, Seq<u8>),
    role: Seq<char>,
)
    ensures
        !recorded(Seq::empty(), kind),
        recorded(sentinels.push(sentinel), kind) <==> recorded(sentinels, kind) || sentinel.0
            == kind,
        !captured(Seq::empty(), role),
        captured(snapshots.push(snapshot), role) <==> captured(snapshots, role) || snapshot.0
            == role,
{
    let more = sentinels.push(sentinel);
    let longer = snapshots.push(snapshot);
    assert(more[sentinels.len() as int] == sentinel);
    assert(longer[snapshots.len() as int] == snapshot);
    if recorded(sentinels, kind) {
        let i = choose|i: int| 0 <= i < sentinels.len() && (#[trigger] sentinels[i]).0 == kind;
        assert(more[i] == sentinels[i]);
    }
    if recorded(more, kind) && sentinel.0 != kind {
        let i = choose|i: int| 0 <= i < more.len() && (#[trigger] more[i]).0 == kind;
        assert(sentinels[i] == more[i]);
    }
    if captured(snapshots, role) {
        let i = choose|i: int| 0 <= i < snapshots.len() && (#[trigger] snapshots[i]).0 == role;
        assert(longer[i] == snapshots[i]);
    }
    if captured(longer, role) && snapshot.0 != role {
        let i = choose|i: int| 0 <= i < longer.len() && (#[trigger] longer[i]).0 == role;
        assert(snapshots[i] == longer[i]);
    }
}

} // verus!
