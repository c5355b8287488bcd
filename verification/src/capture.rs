//! The files of a capture directory: their names, their framing and their
//! bounds.

use vstd::prelude::*;
use vstd::slice::*;
use vstd::string::*;
use vstd::utf8::*;

use crate::c11_window::{sentinel_views, Sentinel, MAX_SENTINEL_BYTES};
use crate::error::{ErrorView, HarnessError};
use crate::peer_fault_table::{alphanumeric, is_alphanumeric, is_letter_or_digit};
use crate::scan_failure::SentinelKind;
use crate::text::{
    all_bytes, begins_with, decimal, join_texts, joined, lemma_ascii_bytes, lemma_decimal_reads_back,
    lemma_ends_of_a_text, lemma_joined_adds_up, lemma_split_at_the_first, lemma_split_then_join,
    same_text, split_on, split_text, strip_text_prefix, strip_text_suffix, views, without_prefix,
    without_suffix,
};

verus! {

/// The longest capture of one stream, in bytes.
pub const MAX_CAPTURE: usize = 1048576;

/// The longest sentinel manifest, in bytes.
pub const MAX_MANIFEST: usize = 4194304;

/// The most files a capture directory may hold.
pub const MAX_CAPTURE_ENTRIES: usize = 256;

/// The bit of a manifest record's category that marks a tombstone.
pub const RETIRED_SENTINEL_FLAG: u8 = 128;

/// A little-endian number of four bytes.
pub open spec fn le32(bytes: Seq<u8>, at: int) -> nat {
    (bytes[at] + 256 * bytes[at + 1] + 65536 * bytes[at + 2] + 16777216 * bytes[at + 3]) as nat
}

fn read_le32(bytes: &[u8], at: usize) -> (number: u32)
    requires
        at + 4 <= bytes.len(),
    ensures
        number == le32(bytes@, at as int),
{
    bytes[at] as u32 + 256 * (bytes[at + 1] as u32) + 65536 * (bytes[at + 2] as u32) + 16777216 * (
    bytes[at + 3] as u32)
}

/// The category that a manifest record names.
pub open spec fn sentinel_kind(code: int) -> Option<SentinelKind> {
    if code == 1 {
        Some(SentinelKind::Credential)
    } else if code == 2 {
        Some(SentinelKind::ApplicationPayload)
    } else if code == 3 {
        Some(SentinelKind::FilesystemPath)
    } else if code == 4 {
        Some(SentinelKind::PrivateEndpoint)
    } else {
        None
    }
}

/// The values that stand after one more record: a live record adds its value,
/// a tombstone takes out every equal value of its category.
pub open spec fn with_record(
    values: Seq<(SentinelKind, Seq<u8>)>,
    kind: SentinelKind,
    retired: bool,
    value: Seq<u8>,
) -> Seq<(SentinelKind, Seq<u8>)> {
    if retired {
        values.filter(|one: (SentinelKind, Seq<u8>)| one != (kind, value))
    } else {
        values.push((kind, value))
    }
}

/// The live values of the manifest `bytes` from `at` on, after `values`, or
/// why it is refused.
///
/// A record is a category, a length of four bytes and a value.  Records are
/// applied in order, so a value can be recorded, retired, and recorded again.
pub open spec fn manifest_from(
    bytes: Seq<u8>,
    at: int,
    values: Seq<(SentinelKind, Seq<u8>)>,
) -> Result<Seq<(SentinelKind, Seq<u8>)>, Seq<char>>
    decreases bytes.len() - at,
{
    if at >= bytes.len() {
        Ok(values)
    } else if at + 5 > bytes.len() {
        Err("C11 sentinel manifest was truncated"@)
    } else {
        let length = le32(bytes, at + 1);
        let end = at + 5 + length;
        let code = bytes[at] as int;
        if end > usize::MAX {
            Err("C11 sentinel manifest length overflowed"@)
        } else if end > bytes.len() || length == 0 || length > MAX_SENTINEL_BYTES {
            Err("C11 sentinel manifest record exceeded its bound"@)
        } else {
            match sentinel_kind(code % 128) {
                None => Err("C11 sentinel manifest contained an unknown category"@),
                Some(kind) => manifest_from(
                    bytes,
                    end,
                    with_record(values, kind, code >= 128, bytes.subrange(at + 5, end)),
                ),
            }
        }
    }
}

/// The live values of a sentinel manifest.
pub open spec fn manifest(bytes: Seq<u8>) -> Result<Seq<(SentinelKind, Seq<u8>)>, Seq<char>> {
    manifest_from(bytes, 0, Seq::empty())
}

fn retain_others(values: Vec<Sentinel>, kind: SentinelKind, value: &[u8]) -> (kept: Vec<Sentinel>)
    ensures
        sentinel_views(kept@) == with_record(sentinel_views(values@), kind, true, value@),
{
    let ghost all = sentinel_views(values@);
    let ghost keep = |one: (SentinelKind, Seq<u8>)| one != (kind, value@);
    let mut rest = values;
    let mut kept: Vec<Sentinel> = Vec::new();
    let ghost mut i: int = 0;
    assert(all.take(0).filter(keep) =~= Seq::<(SentinelKind, Seq<u8>)>::empty()) by {
        reveal(Seq::filter);
    }
    while rest.len() > 0
        invariant
            0 <= i <= all.len(),
            keep == (|one: (SentinelKind, Seq<u8>)| one != (kind, value@)),
            sentinel_views(rest@) == all.skip(i),
            sentinel_views(kept@) == all.take(i).filter(keep),
        decreases rest.len(),
    {
        let ghost before = kept@;
        let ghost old_rest = rest@;
        let sentinel = rest.remove(0);
        proof {
            assert(sentinel_views(old_rest).len() == all.len() - i);
            assert(sentinel@ == sentinel_views(old_rest)[0]);
            assert(all.skip(i)[0] == all[i]);
            assert(sentinel_views(rest@) =~= sentinel_views(old_rest).skip(1));
            assert(sentinel_views(rest@) =~= all.skip(i + 1));
            assert(all.take(i + 1) =~= all.take(i).push(all[i]));
            all.take(i).lemma_filter_push(all[i], keep);
        }
        if sentinel.kind() != kind || !sentinel.has_value(value) {
            kept.push(sentinel);
            assert(sentinel_views(kept@) =~= sentinel_views(before).push(sentinel@));
        }
        proof {
            i = i + 1;
        }
    }
    assert(all.take(i) =~= all) by {
        assert(all.skip(i).len() == 0);
    }
    kept
}

/// Reads a sentinel manifest: the values that are live at its end.
pub fn read_sentinel_manifest(bytes: &[u8]) -> (result: Result<Vec<Sentinel>, HarnessError>)
    ensures
        match result {
            Ok(sentinels) => manifest(bytes@) == Ok::<Seq<(SentinelKind, Seq<u8>)>, Seq<char>>(
                sentinel_views(sentinels@),
            ),
            Err(error) => error@ is Process && manifest(bytes@) == Err::<
                Seq<(SentinelKind, Seq<u8>)>,
                Seq<char>,
            >(error@->Process_0),
        },
{
    let mut offset: usize = 0;
    let mut values: Vec<Sentinel> = Vec::new();
    assert(sentinel_views(values@) =~= Seq::<(SentinelKind, Seq<u8>)>::empty());
    while offset < bytes.len()
        invariant
            offset <= bytes.len(),
            manifest(bytes@) == manifest_from(bytes@, offset as int, sentinel_views(values@)),
        decreases bytes.len() - offset,
    {
        if bytes.len() - offset < 5 {
            return Err(HarnessError::process("C11 sentinel manifest was truncated"));
        }
        let kind_code: u8 = bytes[offset];
        let length: usize = read_le32(bytes, offset + 1) as usize;
        let start: usize = offset + 5;
        let end: usize = match start.checked_add(length) {
            Some(end) => end,
            None => {
                return Err(HarnessError::process("C11 sentinel manifest length overflowed"));
            },
        };
        if end > bytes.len() || length == 0 || length > MAX_SENTINEL_BYTES {
            return Err(HarnessError::process("C11 sentinel manifest record exceeded its bound"));
        }
        let retired = kind_code >= RETIRED_SENTINEL_FLAG;
        let code: u8 = kind_code % RETIRED_SENTINEL_FLAG;
        let kind = if code == 1 {
            SentinelKind::Credential
        } else if code == 2 {
            SentinelKind::ApplicationPayload
        } else if code == 3 {
            SentinelKind::FilesystemPath
        } else if code == 4 {
            SentinelKind::PrivateEndpoint
        } else {
            return Err(
                HarnessError::process("C11 sentinel manifest contained an unknown category"),
            );
        };
        let value = slice_subrange(bytes, start, end);
        let ghost before = sentinel_views(values@);
        if retired {
            values = retain_others(values, kind, value);
        } else {
            match Sentinel::new(kind, value) {
                Ok(sentinel) => {
                    let ghost old_values = values@;
                    values.push(sentinel);
                    assert(sentinel_views(values@) =~= sentinel_views(old_values).push(sentinel@));
                },
                Err(_) => {
                    return Err(HarnessError::process("C11 sentinel manifest was invalid"));
                },
            }
        }
        offset = end;
    }
    Ok(values)
}

/// The bytes of a four-byte little-endian number.
pub open spec fn le32_bytes(number: nat) -> Seq<u8> {
    seq![
        (number % 256) as u8,
        (number / 256 % 256) as u8,
        (number / 65536 % 256) as u8,
        (number / 16777216 % 256) as u8,
    ]
}

proof fn lemma_le32(bytes: Seq<u8>, at: int, number: nat)
    requires
        0 <= at,
        at + 4 <= bytes.len(),
        number < 4294967296,
        bytes.subrange(at, at + 4) == le32_bytes(number),
    ensures
        le32(bytes, at) == number,
{
    let part = bytes.subrange(at, at + 4);
    assert(part[0] == bytes[at] && part[1] == bytes[at + 1] && part[2] == bytes[at + 2] && part[3]
        == bytes[at + 3]);
    assert(number == number % 256 + 256 * (number / 256 % 256) + 65536 * (number / 65536 % 256)
        + 16777216 * (number / 16777216 % 256)) by (nonlinear_arith)
        requires
            number < 4294967296,
    ;
}

/// One record of a manifest.
pub struct RecordView {
    pub kind: SentinelKind,
    pub retired: bool,
    pub value: Seq<u8>,
}

/// The code of a category.
pub open spec fn kind_code(kind: SentinelKind) -> int {
    match kind {
        SentinelKind::Credential => 1,
        SentinelKind::ApplicationPayload => 2,
        SentinelKind::FilesystemPath => 3,
        SentinelKind::PrivateEndpoint => 4,
    }
}

/// A record in the manifest's framing.
pub open spec fn record_bytes(record: RecordView) -> Seq<u8> {
    seq![
        (kind_code(record.kind) + if record.retired {
            128int
        } else {
            0
        }) as u8,
    ] + le32_bytes(record.value.len()) + record.value
}

/// Records one after the other.
pub open spec fn records_bytes(records: Seq<RecordView>) -> Seq<u8>
    decreases records.len(),
{
    if records.len() == 0 {
        Seq::empty()
    } else {
        record_bytes(records[0]) + records_bytes(records.drop_first())
    }
}

/// The values live after a list of records.
pub open spec fn live_after(
    values: Seq<(SentinelKind, Seq<u8>)>,
    records: Seq<RecordView>,
) -> Seq<(SentinelKind, Seq<u8>)>
    decreases records.len(),
{
    if records.len() == 0 {
        values
    } else {
        live_after(
            with_record(values, records[0].kind, records[0].retired, records[0].value),
            records.drop_first(),
        )
    }
}

/// Every record's value is inside its bound.
pub open spec fn records_are_bounded(records: Seq<RecordView>) -> bool {
    forall|i: int|
        0 <= i < records.len() ==> 0 < (#[trigger] records[i]).value.len() <= MAX_SENTINEL_BYTES
}

proof fn lemma_manifest_reads_from(
    bytes: Seq<u8>,
    at: int,
    values: Seq<(SentinelKind, Seq<u8>)>,
    records: Seq<RecordView>,
)
    requires
        records_are_bounded(records),
        0 <= at <= bytes.len() <= usize::MAX,
        bytes.skip(at) == records_bytes(records),
    ensures
        manifest_from(bytes, at, values) == Ok::<Seq<(SentinelKind, Seq<u8>)>, Seq<char>>(
            live_after(values, records),
        ),
    decreases records.len(),
{
    let tail = bytes.skip(at);
    if records.len() > 0 {
        let record = records[0];
        let rest = records_bytes(records.drop_first());
        let head = record_bytes(record);
        let length = record.value.len();
        assert(0 < record.value.len() <= MAX_SENTINEL_BYTES);
        assert(tail == head + rest);
        assert(head.len() == 5 + length);
        assert(bytes.len() == at + tail.len());
        assert(bytes[at] == tail[0]);
        assert(tail[0] == head[0]);
        assert(bytes.subrange(at + 1, at + 5) =~= le32_bytes(length)) by {
            assert forall|i: int| 0 <= i < 4 implies bytes.subrange(at + 1, at + 5)[i]
                == le32_bytes(length)[i] by {
                assert(bytes[at + 1 + i] == tail[1 + i]);
                assert(tail[1 + i] == head[1 + i]);
            }
        }
        lemma_le32(bytes, at + 1, length);
        let end = at + 5 + length;
        assert(bytes.subrange(at + 5, end) =~= record.value) by {
            assert forall|i: int| 0 <= i < length implies bytes.subrange(at + 5, end)[i]
                == record.value[i] by {
                assert(bytes[at + 5 + i] == tail[5 + i]);
                assert(tail[5 + i] == head[5 + i]);
            }
        }
        assert(bytes.skip(end) =~= rest) by {
            assert forall|i: int| 0 <= i < rest.len() implies bytes.skip(end)[i] == rest[i] by {
                assert(bytes[end + i] == tail[5 + length + i]);
            }
        }
        let next = with_record(values, record.kind, record.retired, record.value);
        assert(records_are_bounded(records.drop_first())) by {
            assert forall|i: int| 0 <= i < records.drop_first().len() implies 0 < (
            #[trigger] records.drop_first()[i]).value.len() <= MAX_SENTINEL_BYTES by {
                assert(records.drop_first()[i] == records[i + 1]);
            }
        }
        lemma_manifest_reads_from(bytes, end, next, records.drop_first());
    } else {
        assert(tail.len() == 0);
    }
}

/// A manifest written record by record reads back as what those records leave
/// live.
pub proof fn lemma_manifest_reads_back(records: Seq<RecordView>)
    requires
        records_are_bounded(records),
        records_bytes(records).len() <= usize::MAX,
    ensures
        manifest(records_bytes(records)) == Ok::<Seq<(SentinelKind, Seq<u8>)>, Seq<char>>(
            live_after(Seq::empty(), records),
        ),
{
    let bytes = records_bytes(records);
    assert(bytes.skip(0) =~= bytes);
    lemma_manifest_reads_from(bytes, 0, Seq::empty(), records);
}

/// A tombstone takes its value out of the scan, touches no other value of any
/// category, and a later record makes the value live again.
pub proof fn lemma_tombstone(
    values: Seq<(SentinelKind, Seq<u8>)>,
    kind: SentinelKind,
    value: Seq<u8>,
    other: (SentinelKind, Seq<u8>),
)
    ensures
        !with_record(values, kind, true, value).contains((kind, value)),
        other != (kind, value) ==> (with_record(values, kind, true, value).contains(other)
            <==> values.contains(other)),
        with_record(with_record(values, kind, true, value), kind, false, value).contains(
            (kind, value),
        ),
{
    let keep = |one: (SentinelKind, Seq<u8>)| one != (kind, value);
    let kept = values.filter(keep);
    if kept.contains((kind, value)) {
        let i = choose|i: int| 0 <= i < kept.len() && kept[i] == (kind, value);
        values.lemma_filter_pred(keep, i);
    }
    if other != (kind, value) {
        if values.contains(other) {
            let i = choose|i: int| 0 <= i < values.len() && values[i] == other;
            values.lemma_filter_contains(keep, i);
        }
        if kept.contains(other) {
            values.lemma_filter_contains_rev(keep, other);
        }
    }
    let again = kept.push((kind, value));
    assert(again[again.len() - 1] == (kind, value));
}

/// A live record adds its value at the end and keeps every value that was live
/// before it, in order.
pub proof fn lemma_live_record(
    values: Seq<(SentinelKind, Seq<u8>)>,
    kind: SentinelKind,
    value: Seq<u8>,
)
    ensures
        with_record(values, kind, false, value).len() == values.len() + 1,
        with_record(values, kind, false, value)[values.len() as int] == (kind, value),
        forall|i: int|
            0 <= i < values.len() ==> with_record(values, kind, false, value)[i]
                == #[trigger] values[i],
        forall|other: (SentinelKind, Seq<u8>)| #[trigger]
            values.contains(other) ==> with_record(values, kind, false, value).contains(other),
{
    let after = with_record(values, kind, false, value);
    assert forall|other: (SentinelKind, Seq<u8>)| #[trigger]
        values.contains(other) implies after.contains(other) by {
        let i = choose|i: int| 0 <= i < values.len() && values[i] == other;
        assert(after[i] == other);
    }
}

/// A tombstone leaves the values it does not name where they stand: it treats
/// them one by one, drops each that is its own, and keeps each other at its
/// place in the order.
pub proof fn lemma_tombstone_keeps_order(
    values: Seq<(SentinelKind, Seq<u8>)>,
    last: (SentinelKind, Seq<u8>),
    kind: SentinelKind,
    value: Seq<u8>,
)
    ensures
        with_record(Seq::empty(), kind, true, value).len() == 0,
        last == (kind, value) ==> with_record(values.push(last), kind, true, value) == with_record(
            values,
            kind,
            true,
            value,
        ),
        last != (kind, value) ==> with_record(values.push(last), kind, true, value) == with_record(
            values,
            kind,
            true,
            value,
        ).push(last),
{
    let keep = |one: (SentinelKind, Seq<u8>)| one != (kind, value);
    reveal(Seq::filter);
    assert(values.push(last).drop_last() =~= values);
}

/// A record is of this category and value.
pub open spec fn records_one(record: RecordView, one: (SentinelKind, Seq<u8>)) -> bool {
    record.kind == one.0 && record.value == one.1
}

/// Record `i` makes this value live, and no tombstone of it comes later.
pub open spec fn stays_live(
    records: Seq<RecordView>,
    one: (SentinelKind, Seq<u8>),
    i: int,
) -> bool {
    &&& 0 <= i < records.len()
    &&& records_one(records[i], one)
    &&& !records[i].retired
    &&& no_tombstone(records, one, i + 1)
}

/// No record from `from` on is a tombstone of this value.
pub open spec fn no_tombstone(
    records: Seq<RecordView>,
    one: (SentinelKind, Seq<u8>),
    from: int,
) -> bool {
    forall|j: int|
        from <= j < records.len() && records_one(#[trigger] records[j], one)
            ==> !records[j].retired
}

proof fn lemma_live_after(
    values: Seq<(SentinelKind, Seq<u8>)>,
    records: Seq<RecordView>,
    one: (SentinelKind, Seq<u8>),
)
    ensures
        live_after(values, records).contains(one) <==> {
            ||| values.contains(one) && no_tombstone(records, one, 0)
            ||| exists|i: int| #[trigger] stays_live(records, one, i)
        },
    decreases records.len(),
{
    if records.len() > 0 {
        let first = records[0];
        let rest = records.drop_first();
        let next = with_record(values, first.kind, first.retired, first.value);
        lemma_live_after(next, rest, one);
        lemma_tombstone(values, first.kind, first.value, one);
        lemma_live_record(values, first.kind, first.value);
        assert forall|i: int| 0 <= i <= rest.len() implies #[trigger] no_tombstone(rest, one, i)
            == no_tombstone(records, one, i + 1) by {
            if no_tombstone(rest, one, i) {
                assert forall|j: int|
                    i + 1 <= j < records.len() && records_one(
                        #[trigger] records[j],
                        one,
                    ) implies !records[j].retired by {
                    assert(rest[j - 1] == records[j]);
                }
            }
            if no_tombstone(records, one, i + 1) {
                assert forall|j: int|
                    i <= j < rest.len() && records_one(
                        #[trigger] rest[j],
                        one,
                    ) implies !rest[j].retired by {
                    assert(rest[j] == records[j + 1]);
                }
            }
        }
        assert(no_tombstone(rest, one, 0) == no_tombstone(records, one, 1));
        if !first.retired && records_one(first, one) {
            assert(next[values.len() as int] == one);
        }
        if !first.retired && next.contains(one) && !records_one(first, one) {
            let i = choose|i: int| 0 <= i < next.len() && next[i] == one;
            assert(values[i] == one);
        }
        if live_after(values, records).contains(one) {
            if next.contains(one) && no_tombstone(rest, one, 0) {
                if !first.retired && records_one(first, one) {
                    assert(stays_live(records, one, 0));
                } else {
                    assert(values.contains(one) && no_tombstone(records, one, 0));
                }
            } else {
                let i = choose|i: int| #[trigger] stays_live(rest, one, i);
                assert(no_tombstone(rest, one, i + 1));
                assert(stays_live(records, one, i + 1));
            }
        }
        if values.contains(one) && no_tombstone(records, one, 0) {
            assert(!(records_one(records[0], one) && records[0].retired));
        }
        if exists|i: int| #[trigger] stays_live(records, one, i) {
            let i = choose|i: int| #[trigger] stays_live(records, one, i);
            if i > 0 {
                assert(no_tombstone(rest, one, i) == no_tombstone(records, one, i + 1));
                assert(stays_live(rest, one, i - 1));
            }
        }
    }
}

/// What a manifest leaves live: exactly the values of which some live record
/// is followed by no tombstone of the same value and category.
pub proof fn lemma_manifest_leaves_live(records: Seq<RecordView>, one: (SentinelKind, Seq<u8>))
    requires
        records_are_bounded(records),
        records_bytes(records).len() <= usize::MAX,
    ensures
        manifest(records_bytes(records)) matches Ok(values) && (values.contains(one) <==> exists|
            i: int,
        | #[trigger]
            stays_live(records, one, i)),
{
    lemma_manifest_reads_back(records);
    lemma_live_after(Seq::empty(), records, one);
}

proof fn lemma_live_records(values: Seq<(SentinelKind, Seq<u8>)>, records: Seq<RecordView>)
    requires
        forall|i: int| 0 <= i < records.len() ==> !(#[trigger] records[i]).retired,
    ensures
        live_after(values, records) == values + Seq::new(
            records.len(),
            |i: int| (records[i].kind, records[i].value),
        ),
    decreases records.len(),
{
    let all = Seq::new(records.len(), |i: int| (records[i].kind, records[i].value));
    if records.len() > 0 {
        let first = records[0];
        let rest = records.drop_first();
        let next = with_record(values, first.kind, first.retired, first.value);
        lemma_live_records(next, rest);
        assert(next + Seq::new(rest.len(), |i: int| (rest[i].kind, rest[i].value)) =~= values
            + all);
    } else {
        assert(values + all =~= values);
    }
}

/// A manifest of live records alone reads back as exactly their values, one
/// for each record and in the records' order.
pub proof fn lemma_live_records_read_back(records: Seq<RecordView>)
    requires
        records_are_bounded(records),
        records_bytes(records).len() <= usize::MAX,
        forall|i: int| 0 <= i < records.len() ==> !(#[trigger] records[i]).retired,
    ensures
        manifest(records_bytes(records)) matches Ok(values) && {
            &&& values.len() == records.len()
            &&& forall|i: int|
                0 <= i < records.len() ==> #[trigger] values[i] == (
                    records[i].kind,
                    records[i].value,
                )
        },
{
    lemma_manifest_reads_back(records);
    lemma_live_records(Seq::empty(), records);
}

proof fn lemma_le32_writes_back(bytes: Seq<u8>, at: int)
    requires
        0 <= at,
        at + 4 <= bytes.len(),
    ensures
        le32_bytes(le32(bytes, at)) == bytes.subrange(at, at + 4),
{
    let number = le32(bytes, at);
    let a = bytes[at] as int;
    let b = bytes[at + 1] as int;
    let c = bytes[at + 2] as int;
    let d = bytes[at + 3] as int;
    assert(number == a + 256 * b + 65536 * c + 16777216 * d);
    assert(number % 256 == a && number / 256 % 256 == b && number / 65536 % 256 == c && number
        / 16777216 % 256 == d) by (nonlinear_arith)
        requires
            number == a + 256 * b + 65536 * c + 16777216 * d,
            0 <= a < 256,
            0 <= b < 256,
            0 <= c < 256,
            0 <= d < 256,
    ;
    assert(le32_bytes(number) =~= bytes.subrange(at, at + 4));
}

proof fn lemma_accepted_from(bytes: Seq<u8>, at: int, values: Seq<(SentinelKind, Seq<u8>)>)
    requires
        0 <= at <= bytes.len(),
        manifest_from(bytes, at, values) is Ok,
    ensures
        exists|records: Seq<RecordView>| #[trigger]
            records_bytes(records) == bytes.skip(at) && records_are_bounded(records),
    decreases bytes.len() - at,
{
    if at >= bytes.len() {
        let none = Seq::<RecordView>::empty();
        assert(records_bytes(none) =~= bytes.skip(at));
        assert(records_are_bounded(none));
    } else {
        let length = le32(bytes, at + 1);
        let end = at + 5 + length;
        let code = bytes[at] as int;
        let kind = sentinel_kind(code % 128)->Some_0;
        let value = bytes.subrange(at + 5, end);
        lemma_accepted_from(bytes, end, with_record(values, kind, code >= 128, value));
        let rest = choose|records: Seq<RecordView>| #[trigger]
            records_bytes(records) == bytes.skip(end) && records_are_bounded(records);
        let first = RecordView { kind, retired: code >= 128, value };
        let all = seq![first] + rest;
        lemma_le32_writes_back(bytes, at + 1);
        assert(all.drop_first() =~= rest);
        assert(record_bytes(first) =~= bytes.subrange(at, end)) by {
            assert(le32_bytes(value.len()) == bytes.subrange(at + 1, at + 5));
            assert forall|i: int| 0 <= i < end - at implies record_bytes(first)[i]
                == bytes.subrange(at, end)[i] by {
                if i == 0 {
                } else if i < 5 {
                    assert(le32_bytes(value.len())[i - 1] == bytes[at + i]);
                } else {
                    assert(value[i - 5] == bytes[at + i]);
                }
            }
        }
        assert(records_bytes(all) =~= bytes.skip(at));
        assert(records_are_bounded(all)) by {
            assert forall|i: int| 0 <= i < all.len() implies 0 < (
            #[trigger] all[i]).value.len() <= MAX_SENTINEL_BYTES by {
                if i > 0 {
                    assert(all[i] == rest[i - 1]);
                }
            }
        }
    }
}

/// A manifest is accepted exactly when it is a row of whole records, each with
/// a value inside its bound.
pub proof fn lemma_accepted_manifest(bytes: Seq<u8>)
    requires
        bytes.len() <= usize::MAX,
    ensures
        manifest(bytes) is Ok <==> exists|records: Seq<RecordView>| #[trigger]
            records_bytes(records) == bytes && forall|i: int|
            0 <= i < records.len() ==> 0 < (#[trigger] records[i]).value.len() <= 262144,
{
    if manifest(bytes) is Ok {
        lemma_accepted_from(bytes, 0, Seq::empty());
        assert(bytes.skip(0) =~= bytes);
    }
    if exists|records: Seq<RecordView>| #[trigger]
        records_bytes(records) == bytes && forall|i: int|
            0 <= i < records.len() ==> 0 < (#[trigger] records[i]).value.len() <= 262144 {
        let records = choose|records: Seq<RecordView>| #[trigger]
            records_bytes(records) == bytes && forall|i: int|
                0 <= i < records.len() ==> 0 < (#[trigger] records[i]).value.len() <= 262144;
        lemma_manifest_reads_back(records);
    }
}

/// The payload of the frames of a snapshot file from `at` on, after `output`,
/// or why it is refused.
pub open spec fn frames_from(bytes: Seq<u8>, at: int, output: Seq<u8>) -> Result<
    Seq<u8>,
    Seq<char>,
>
    decreases bytes.len() - at,
{
    if at >= bytes.len() {
        Ok(output)
    } else if at + 4 > bytes.len() {
        Err("C11 snapshot frame was truncated"@)
    } else {
        let length = le32(bytes, at);
        let end = at + 4 + length;
        if end > usize::MAX {
            Err("C11 snapshot frame length overflowed"@)
        } else if end > bytes.len() {
            Err("C11 snapshot frame was truncated"@)
        } else if output.len() + length > MAX_CAPTURE {
            Err("C11 snapshot capture exceeded its bounded buffer"@)
        } else {
            frames_from(bytes, end, output + bytes.subrange(at + 4, end))
        }
    }
}

/// Reads the frames of a snapshot file, each behind its length, and returns
/// their payload.
pub fn read_snapshot_frames(bytes: &[u8]) -> (result: Result<Vec<u8>, HarnessError>)
    ensures
        match result {
            Ok(output) => frames_from(bytes@, 0, Seq::empty()) == Ok::<Seq<u8>, Seq<char>>(output@)
                && output@.len() <= MAX_CAPTURE,
            Err(error) => error@ is Process && frames_from(bytes@, 0, Seq::empty()) == Err::<
                Seq<u8>,
                Seq<char>,
            >(error@->Process_0),
        },
{
    let mut offset: usize = 0;
    let mut output: Vec<u8> = Vec::new();
    while offset < bytes.len()
        invariant
            offset <= bytes.len(),
            output@.len() <= MAX_CAPTURE,
            frames_from(bytes@, 0, Seq::empty()) == frames_from(bytes@, offset as int, output@),
        decreases bytes.len() - offset,
    {
        if bytes.len() - offset < 4 {
            return Err(HarnessError::process("C11 snapshot frame was truncated"));
        }
        let length: usize = read_le32(bytes, offset) as usize;
        let start: usize = offset + 4;
        let end: usize = match start.checked_add(length) {
            Some(end) => end,
            None => {
                return Err(HarnessError::process("C11 snapshot frame length overflowed"));
            },
        };
        if end > bytes.len() {
            return Err(HarnessError::process("C11 snapshot frame was truncated"));
        }
        if length > MAX_CAPTURE || output.len() > MAX_CAPTURE - length {
            return Err(HarnessError::process("C11 snapshot capture exceeded its bounded buffer"));
        }
        let ghost before = output@;
        let frame = slice_subrange(bytes, start, end);
        output.extend_from_slice(frame);
        assert(output@ =~= before + bytes@.subrange(offset + 4, end as int));
        offset = end;
    }
    Ok(output)
}

/// Frames one after the other, each behind its length.
pub open spec fn framed(frames: Seq<Seq<u8>>) -> Seq<u8>
    decreases frames.len(),
{
    if frames.len() == 0 {
        Seq::empty()
    } else {
        le32_bytes(frames[0].len()) + frames[0] + framed(frames.drop_first())
    }
}

/// Frames laid end to end.
pub open spec fn payload(frames: Seq<Seq<u8>>) -> Seq<u8>
    decreases frames.len(),
{
    if frames.len() == 0 {
        Seq::empty()
    } else {
        frames[0] + payload(frames.drop_first())
    }
}

proof fn lemma_frames_read_from(bytes: Seq<u8>, at: int, output: Seq<u8>, frames: Seq<Seq<u8>>)
    requires
        0 <= at <= bytes.len() <= usize::MAX,
        bytes.skip(at) == framed(frames),
        output.len() + payload(frames).len() <= MAX_CAPTURE,
    ensures
        frames_from(bytes, at, output) == Ok::<Seq<u8>, Seq<char>>(output + payload(frames)),
    decreases frames.len(),
{
    let tail = bytes.skip(at);
    if frames.len() > 0 {
        let frame = frames[0];
        let rest = framed(frames.drop_first());
        let length = frame.len();
        assert(payload(frames).len() == length + payload(frames.drop_first()).len());
        assert(bytes.len() == at + tail.len());
        assert(bytes.subrange(at, at + 4) =~= le32_bytes(length)) by {
            assert forall|i: int| 0 <= i < 4 implies bytes.subrange(at, at + 4)[i] == le32_bytes(
                length,
            )[i] by {
                assert(bytes[at + i] == tail[i]);
            }
        }
        lemma_le32(bytes, at, length);
        let end = at + 4 + length;
        assert(bytes.subrange(at + 4, end) =~= frame) by {
            assert forall|i: int| 0 <= i < length implies bytes.subrange(at + 4, end)[i]
                == frame[i] by {
                assert(bytes[at + 4 + i] == tail[4 + i]);
            }
        }
        assert(bytes.skip(end) =~= rest) by {
            assert forall|i: int| 0 <= i < rest.len() implies bytes.skip(end)[i] == rest[i] by {
                assert(bytes[end + i] == tail[4 + length + i]);
            }
        }
        lemma_frames_read_from(bytes, end, output + frame, frames.drop_first());
        assert(output + frame + payload(frames.drop_first()) =~= output + payload(frames));
    } else {
        assert(tail.len() == 0);
        assert(output + payload(frames) =~= output);
    }
}

/// A snapshot file written frame by frame reads back as the frames' payload,
/// as long as that is inside the capture bound.
pub proof fn lemma_frames_read_back(frames: Seq<Seq<u8>>)
    requires
        payload(frames).len() <= MAX_CAPTURE,
        framed(frames).len() <= usize::MAX,
    ensures
        frames_from(framed(frames), 0, Seq::empty()) == Ok::<Seq<u8>, Seq<char>>(payload(frames)),
{
    let bytes = framed(frames);
    assert(bytes.skip(0) =~= bytes);
    lemma_frames_read_from(bytes, 0, Seq::empty(), frames);
    assert(Seq::<u8>::empty() + payload(frames) =~= payload(frames));
}

proof fn lemma_framed_from(bytes: Seq<u8>, at: int, output: Seq<u8>)
    requires
        0 <= at <= bytes.len(),
        frames_from(bytes, at, output) is Ok,
    ensures
        exists|frames: Seq<Seq<u8>>| #[trigger]
            framed(frames) == bytes.skip(at) && frames_from(bytes, at, output) == Ok::<
                Seq<u8>,
                Seq<char>,
            >(output + payload(frames)),
        output.len() <= MAX_CAPTURE ==> frames_from(bytes, at, output)->Ok_0.len() <= MAX_CAPTURE,
    decreases bytes.len() - at,
{
    if at >= bytes.len() {
        let none = Seq::<Seq<u8>>::empty();
        assert(framed(none) =~= bytes.skip(at));
        assert(output + payload(none) =~= output);
    } else {
        let length = le32(bytes, at);
        let end = at + 4 + length;
        let frame = bytes.subrange(at + 4, end);
        lemma_framed_from(bytes, end, output + frame);
        let rest = choose|frames: Seq<Seq<u8>>| #[trigger]
            framed(frames) == bytes.skip(end) && frames_from(bytes, end, output + frame) == Ok::<
                Seq<u8>,
                Seq<char>,
            >(output + frame + payload(frames));
        let all = seq![frame] + rest;
        lemma_le32_writes_back(bytes, at);
        assert(all.drop_first() =~= rest);
        assert(framed(all) =~= bytes.skip(at)) by {
            assert forall|i: int| 0 <= i < bytes.len() - at implies framed(all)[i] == bytes.skip(
                at,
            )[i] by {
                if i < 4 {
                    assert(le32_bytes(frame.len())[i] == bytes[at + i]);
                } else if i < 4 + length {
                    assert(frame[i - 4] == bytes[at + i]);
                } else {
                    assert(framed(rest)[i - 4 - length] == bytes[at + i]);
                }
            }
        }
        assert(output + frame + payload(rest) =~= output + payload(all));
    }
}

/// Every snapshot file that is read is a row of whole frames, and what is read
/// is the bytes of those frames end to end, inside the capture bound.
pub proof fn lemma_read_frames_are_whole(bytes: Seq<u8>)
    requires
        frames_from(bytes, 0, Seq::empty()) is Ok,
    ensures
        exists|frames: Seq<Seq<u8>>| #[trigger]
            framed(frames) == bytes && frames_from(bytes, 0, Seq::empty()) == Ok::<
                Seq<u8>,
                Seq<char>,
            >(payload(frames)),
        frames_from(bytes, 0, Seq::empty())->Ok_0.len() <= 1048576,
{
    lemma_framed_from(bytes, 0, Seq::empty());
    let frames = choose|frames: Seq<Seq<u8>>| #[trigger]
        framed(frames) == bytes.skip(0) && frames_from(bytes, 0, Seq::empty()) == Ok::<
            Seq<u8>,
            Seq<char>,
        >(Seq::<u8>::empty() + payload(frames));
    assert(bytes.skip(0) =~= bytes);
    assert(Seq::<u8>::empty() + payload(frames) =~= payload(frames));
}

/// Frames laid end to end lose nothing: those of two lists in a row are those
/// of each, and one frame is its own bytes.
pub proof fn lemma_payload_adds_up(first: Seq<Seq<u8>>, second: Seq<Seq<u8>>, frame: Seq<u8>)
    ensures
        payload(first + second) == payload(first) + payload(second),
        payload(seq![frame]) == frame,
    decreases first.len(),
{
    reveal_with_fuel(payload, 2);
    assert(seq![frame].drop_first() =~= Seq::empty());
    assert(payload(seq![frame]) =~= frame);
    if first.len() == 0 {
        assert(first + second =~= second);
        assert(payload(first) + payload(second) =~= payload(second));
    } else {
        assert((first + second).drop_first() =~= first.drop_first() + second);
        lemma_payload_adds_up(first.drop_first(), second, frame);
        assert(payload(first + second) =~= payload(first) + payload(second));
    }
}

/// A text of ASCII digits, at least one.
pub open spec fn is_digits(text: Seq<char>) -> bool {
    text.len() > 0 && all_bytes(text, |byte: u8| 0x30 <= byte <= 0x39)
}

/// The name of a managed process: ASCII letters, digits, `-` and `_`, at least
/// one.
pub open spec fn is_process_name(text: Seq<char>) -> bool {
    text.len() > 0 && all_bytes(
        text,
        |byte: u8| is_alphanumeric(byte) || byte == 0x2d || byte == 0x5f,
    )
}

/// The managed process that a capture file's prefix names, or why it is
/// refused.  A prefix is `managed-`, a process number, a sequence number and
/// the name, which may hold hyphens itself.
pub open spec fn process_name(prefix: Seq<char>) -> Result<Seq<char>, Seq<char>> {
    let pieces = split_on(prefix, '-');
    if pieces[0] != "managed"@ || pieces.len() < 2 || !is_digits(pieces[1]) || pieces.len() < 3
        || !is_digits(pieces[2]) {
        Err("C11 managed-process capture role was malformed"@)
    } else if pieces.len() < 4 {
        Err("C11 managed-process capture role was missing"@)
    } else {
        let name = joined(pieces.skip(3), "-"@);
        if !is_process_name(name) {
            Err("C11 managed-process capture role was invalid"@)
        } else {
            Ok(name)
        }
    }
}

fn digits(text: &str) -> (answer: bool)
    ensures
        answer == is_digits(text@),
{
    let ghost property = |byte: u8| 0x30 <= byte <= 0x39;
    if text.is_empty() {
        return false;
    }
    let bytes = text.as_bytes();
    let mut i: usize = 0;
    while i < bytes.len()
        invariant
            i <= bytes.len(),
            bytes@ == encode_utf8(text@),
            property == (|byte: u8| 0x30 <= byte <= 0x39),
            forall|k: int| 0 <= k < i ==> property(#[trigger] encode_utf8(text@)[k]),
        decreases bytes.len() - i,
    {
        if bytes[i] < 0x30 || bytes[i] > 0x39 {
            assert(!property(encode_utf8(text@)[i as int]));
            return false;
        }
        i += 1;
    }
    true
}

fn process_word(text: &str) -> (answer: bool)
    ensures
        answer == is_process_name(text@),
{
    let ghost property = |byte: u8| is_alphanumeric(byte) || byte == 0x2d || byte == 0x5f;
    if text.is_empty() {
        return false;
    }
    let bytes = text.as_bytes();
    let mut i: usize = 0;
    while i < bytes.len()
        invariant
            i <= bytes.len(),
            bytes@ == encode_utf8(text@),
            property == (|byte: u8| is_alphanumeric(byte) || byte == 0x2d || byte == 0x5f),
            forall|k: int| 0 <= k < i ==> property(#[trigger] encode_utf8(text@)[k]),
        decreases bytes.len() - i,
    {
        let byte: u8 = bytes[i];
        if !(alphanumeric(byte) || byte == 0x2d || byte == 0x5f) {
            assert(!property(encode_utf8(text@)[i as int]));
            return false;
        }
        i += 1;
    }
    true
}

/// The managed process that a capture file's prefix names.
pub fn managed_process_name(prefix: &str) -> (result: Result<String, HarnessError>)
    ensures
        match result {
            Ok(name) => process_name(prefix@) == Ok::<Seq<char>, Seq<char>>(name@),
            Err(error) => error@ is Process && process_name(prefix@) == Err::<
                Seq<char>,
                Seq<char>,
            >(error@->Process_0),
        },
{
    let pieces = split_text(prefix, '-');
    let ghost all = split_on(prefix@, '-');
    assert forall|i: int| 0 <= i < pieces.len() implies (#[trigger] pieces@[i])@ == all[i] by {
        assert(views(pieces@)[i] == pieces@[i]@);
    }
    if !same_text(pieces[0].as_str(), "managed") || pieces.len() < 2 || !digits(
        pieces[1].as_str(),
    ) || pieces.len() < 3 || !digits(pieces[2].as_str()) {
        return Err(HarnessError::process("C11 managed-process capture role was malformed"));
    }
    if pieces.len() < 4 {
        return Err(HarnessError::process("C11 managed-process capture role was missing"));
    }
    let mut rest = pieces;
    let _ = rest.remove(0);
    let _ = rest.remove(0);
    let _ = rest.remove(0);
    assert(views(rest@) =~= all.skip(3));
    let name = join_texts(&rest, "-");
    if !process_word(name.as_str()) {
        return Err(HarnessError::process("C11 managed-process capture role was invalid"));
    }
    Ok(name)
}

/// What a file of a capture directory is.
pub enum CaptureEntry {
    /// The sentinel manifest.
    Sentinels,
    /// The output of the managed process with this prefix.
    Stdout(String),
    /// The error output of the managed process with this prefix.
    Stderr(String),
    /// The snapshot of this role.
    Snapshot(String),
}

/// The model of a capture entry.
pub enum EntryView {
    Sentinels,
    Stdout(Seq<char>),
    Stderr(Seq<char>),
    Snapshot(Seq<char>),
}

impl View for CaptureEntry {
    type V = EntryView;

    open spec fn view(&self) -> EntryView {
        match *self {
            CaptureEntry::Sentinels => EntryView::Sentinels,
            CaptureEntry::Stdout(prefix) => EntryView::Stdout(prefix@),
            CaptureEntry::Stderr(prefix) => EntryView::Stderr(prefix@),
            CaptureEntry::Snapshot(role) => EntryView::Snapshot(role@),
        }
    }
}

/// What the file `name` is, if a capture directory may hold it.
pub open spec fn entry_of(name: Seq<char>) -> Option<EntryView> {
    if name == "sentinels.bin"@ {
        Some(EntryView::Sentinels)
    } else if without_suffix(name, ".stdout"@) is Some {
        Some(EntryView::Stdout(without_suffix(name, ".stdout"@)->Some_0))
    } else if without_suffix(name, ".stderr"@) is Some {
        Some(EntryView::Stderr(without_suffix(name, ".stderr"@)->Some_0))
    } else {
        match without_prefix(name, "snapshot-"@) {
            Some(rest) => match without_suffix(rest, ".bin"@) {
                Some(role) => Some(EntryView::Snapshot("snapshot-"@ + role)),
                None => None,
            },
            None => None,
        }
    }
}

/// What the file `name` is, if a capture directory may hold it.
pub fn classify_entry(name: &str) -> (result: Result<CaptureEntry, HarnessError>)
    ensures
        match result {
            Ok(entry) => entry_of(name@) == Some(entry@),
            Err(error) => entry_of(name@) is None && error@ == ErrorView::Process(
                "C11 capture directory contained an unknown file"@,
            ),
        },
{
    if same_text(name, "sentinels.bin") {
        return Ok(CaptureEntry::Sentinels);
    }
    match strip_text_suffix(name, ".stdout") {
        Some(prefix) => {
            return Ok(CaptureEntry::Stdout(prefix));
        },
        None => {},
    }
    match strip_text_suffix(name, ".stderr") {
        Some(prefix) => {
            return Ok(CaptureEntry::Stderr(prefix));
        },
        None => {},
    }
    match strip_text_prefix(name, "snapshot-") {
        Some(rest) => match strip_text_suffix(rest.as_str(), ".bin") {
            Some(role) => Ok(CaptureEntry::Snapshot("snapshot-".to_owned().concat(role.as_str()))),
            None => Err(HarnessError::process("C11 capture directory contained an unknown file")),
        },
        None => Err(HarnessError::process("C11 capture directory contained an unknown file")),
    }
}

impl CaptureEntry {
    /// The longest file that may stand for this entry, in bytes.
    pub fn limit(&self) -> (limit: usize)
        ensures
            limit == if self@ is Sentinels {
                MAX_MANIFEST
            } else {
                MAX_CAPTURE
            },
    {
        match self {
            CaptureEntry::Sentinels => MAX_MANIFEST,
            _ => MAX_CAPTURE,
        }
    }
}

/// Why a capture file is refused before it is read: it must be a regular
/// private file inside its bound.
pub open spec fn file_failure(
    is_symlink: bool,
    is_file: bool,
    mode: u32,
    length: u64,
    limit: usize,
) -> Option<Seq<char>> {
    if is_symlink || !is_file {
        Some("C11 capture file was not a regular file"@)
    } else if mode % 64 != 0 {
        Some("C11 capture file permissions were not private"@)
    } else if length > limit {
        Some("C11 capture file exceeded its bounded buffer"@)
    } else {
        None
    }
}

/// Whether a capture file with these properties may be read.  Its permission
/// bits for group and others, the low six of `mode`, must be clear.
pub fn check_capture_file(
    is_symlink: bool,
    is_file: bool,
    mode: u32,
    length: u64,
    limit: usize,
) -> (result: Result<(), HarnessError>)
    ensures
        match result {
            Ok(()) => file_failure(is_symlink, is_file, mode, length, limit) is None,
            Err(error) => error@ is Process && file_failure(is_symlink, is_file, mode, length, limit)
                == Some(error@->Process_0),
        },
{
    if is_symlink || !is_file {
        return Err(HarnessError::process("C11 capture file was not a regular file"));
    }
    if mode % 64 != 0 {
        return Err(HarnessError::process("C11 capture file permissions were not private"));
    }
    if length > limit as u64 {
        return Err(HarnessError::process("C11 capture file exceeded its bounded buffer"));
    }
    Ok(())
}

/// A stream read into bounded memory.
pub struct CapturedStream {
    pub bytes: Vec<u8>,
    pub overflow: bool,
    pub read_error: bool,
}

/// The smaller of two numbers.
pub open spec fn smaller(a: int, b: int) -> int {
    if a < b {
        a
    } else {
        b
    }
}

impl CapturedStream {
    /// The capture is inside its bound.
    pub open spec fn wf(&self) -> bool {
        self.bytes@.len() <= MAX_CAPTURE
    }

    /// Nothing captured yet.
    pub fn new() -> (stream: Self)
        ensures
            stream.wf(),
            stream.bytes@ == Seq::<u8>::empty(),
            !stream.overflow,
            !stream.read_error,
    {
        CapturedStream { bytes: Vec::new(), overflow: false, read_error: false }
    }

    /// Takes in one chunk: as much of it as there is room for, and the rest is
    /// an overflow.
    pub fn accept(&mut self, chunk: &[u8])
        requires
            old(self).wf(),
        ensures
            final(self).wf(),
            final(self).read_error == old(self).read_error,
            ({
                let room = MAX_CAPTURE - old(self).bytes@.len();
                &&& final(self).bytes@ == old(self).bytes@ + chunk@.take(
                    smaller(chunk@.len() as int, room),
                )
                &&& final(self).overflow == (old(self).overflow || chunk@.len() > room)
            }),
            old(self).bytes@.len() + chunk@.len() <= 1048576 ==> final(self).bytes@
                == old(self).bytes@ + chunk@ && final(self).overflow == old(self).overflow,
            old(self).bytes@.len() + chunk@.len() > 1048576 ==> final(self).bytes@.len() == 1048576
                && final(self).overflow && final(self).bytes@.is_prefix_of(
                old(self).bytes@ + chunk@,
            ),
    {
        let room: usize = MAX_CAPTURE - self.bytes.len();
        let accepted: usize = if chunk.len() < room {
            chunk.len()
        } else {
            room
        };
        let ghost before = self.bytes@;
        let part = slice_subrange(chunk, 0, accepted);
        self.bytes.extend_from_slice(part);
        assert(self.bytes@ =~= before + chunk@.take(accepted as int));
        if accepted != chunk.len() {
            self.overflow = true;
        }
        proof {
            let whole = before + chunk@;
            assert(accepted == chunk@.len() ==> chunk@.take(accepted as int) =~= chunk@);
            assert(self.bytes@ =~= whole.subrange(0, self.bytes@.len() as int));
        }
    }
}

/// A managed process whose files are named by its numbers and its name is read
/// back by that name, whatever hyphens the name holds.
pub proof fn lemma_process_name_reads_back(process: nat, sequence: nat, name: Seq<char>)
    requires
        is_process_name(name),
    ensures
        process_name(
            "managed"@ + seq!['-'] + (decimal(process) + seq!['-'] + (decimal(sequence) + seq!['-']
                + name)),
        ) == Ok::<Seq<char>, Seq<char>>(name),
{
    let last = decimal(sequence) + seq!['-'] + name;
    let middle = decimal(process) + seq!['-'] + last;
    let prefix = "managed"@ + seq!['-'] + middle;
    reveal_strlit("managed");
    reveal_strlit("-");
    assert(!"managed"@.contains('-')) by {
        if "managed"@.contains('-') {
            let i = choose|i: int| 0 <= i < "managed"@.len() && "managed"@[i] == '-';
            assert("managed"@.len() == 7);
        }
    }
    lemma_decimal_is_digits(process);
    lemma_decimal_is_digits(sequence);
    lemma_split_at_the_first("managed"@, middle, '-');
    lemma_split_at_the_first(decimal(process), last, '-');
    lemma_split_at_the_first(decimal(sequence), name, '-');
    let pieces = split_on(prefix, '-');
    let parts = split_on(name, '-');
    lemma_split_then_join(name, '-');
    assert(pieces =~= seq!["managed"@, decimal(process), decimal(sequence)] + parts);
    assert(pieces.skip(3) =~= parts);
    assert(seq!['-'] =~= "-"@);
}

proof fn lemma_decimal_is_digits(n: nat)
    ensures
        is_digits(decimal(n)),
        !decimal(n).contains('-'),
{
    let text = decimal(n);
    lemma_decimal_reads_back(n);
    assert(is_ascii_chars(text)) by {
        assert forall|i: int| 0 <= i < text.len() implies '\0' <= #[trigger] text[i] <= '\u{7f}' by {
            assert('0' <= decimal(n)[i] <= '9');
        }
    }
    is_ascii_chars_encode_utf8(text);
    let property = |byte: u8| 0x30 <= byte <= 0x39;
    assert forall|i: int| 0 <= i < encode_utf8(text).len() implies property(
        #[trigger] encode_utf8(text)[i],
    ) by {
        assert('0' <= decimal(n)[i] <= '9');
        assert(text[i] as u8 == encode_utf8(text)[i]);
    }
    if text.contains('-') {
        let i = choose|i: int| 0 <= i < text.len() && text[i] == '-';
        assert('0' <= decimal(n)[i]);
    }
}

/// The name of a managed process is what its prefix ends with, behind a first
/// word and two numbers.
pub proof fn lemma_process_name_ends_its_prefix(prefix: Seq<char>)
    requires
        process_name(prefix) is Ok,
    ensures
        is_process_name(process_name(prefix)->Ok_0),
        exists|process: Seq<char>, sequence: Seq<char>|
            #![trigger is_digits(process), is_digits(sequence)]
            is_digits(process) && is_digits(sequence) && prefix == "managed"@ + "-"@ + process
                + "-"@ + sequence + "-"@ + process_name(prefix)->Ok_0,
{
    let pieces = split_on(prefix, '-');
    let name = process_name(prefix)->Ok_0;
    reveal_strlit("-");
    lemma_split_then_join(prefix, '-');
    assert(seq!['-'] =~= "-"@);
    assert(pieces.take(3) + pieces.skip(3) =~= pieces);
    lemma_joined_adds_up(pieces.take(3), pieces.skip(3), "-"@);
    reveal_with_fuel(joined, 4);
    let head = pieces.take(3);
    assert(head.drop_last() =~= pieces.take(2));
    assert(pieces.take(2).drop_last() =~= pieces.take(1));
    assert(joined(head, "-"@) =~= "managed"@ + "-"@ + pieces[1] + "-"@ + pieces[2]);
    assert(is_digits(pieces[1]) && is_digits(pieces[2]));
    assert(prefix =~= "managed"@ + "-"@ + pieces[1] + "-"@ + pieces[2] + "-"@ + name);
}

/// What a file is, by its name: the outputs of a managed process carry their
/// prefix and their ending, a snapshot its role, the manifest is one file, and
/// nothing else is taken.
pub proof fn lemma_file_names(text: Seq<char>)
    ensures
        entry_of(text + ".stdout"@) == Some(EntryView::Stdout(text)),
        entry_of(text + ".stderr"@) == Some(EntryView::Stderr(text)),
        entry_of("snapshot-"@ + text + ".bin"@) == Some(EntryView::Snapshot("snapshot-"@ + text)),
        entry_of("sentinels.bin"@) == Some(EntryView::Sentinels),
        entry_of(text) matches Some(entry) ==> match entry {
            EntryView::Sentinels => text == "sentinels.bin"@,
            EntryView::Stdout(prefix) => text == prefix + ".stdout"@,
            EntryView::Stderr(prefix) => text == prefix + ".stderr"@,
            EntryView::Snapshot(role) => text == role + ".bin"@ && begins_with(
                role,
                "snapshot-"@,
            ),
        },
{
    let stdout = text + ".stdout"@;
    let stderr = text + ".stderr"@;
    let snapshot = "snapshot-"@ + text + ".bin"@;
    reveal_strlit(".stdout");
    reveal_strlit(".stderr");
    reveal_strlit(".bin");
    reveal_strlit("snapshot-");
    reveal_strlit("sentinels.bin");
    lemma_ends_of_a_text(stdout, ".stdout"@, text);
    lemma_ends_of_a_text(stderr, ".stderr"@, text);
    assert(stdout.last() == 't');
    assert(stderr.last() == 'r');
    assert(snapshot.last() == 'n');
    assert("sentinels.bin"@.last() == 'n');
    assert(snapshot[1] == 'n');
    assert("sentinels.bin"@[1] == 'e');
    lemma_last_of_suffix(stderr, ".stdout"@);
    lemma_last_of_suffix(snapshot, ".stdout"@);
    lemma_last_of_suffix(snapshot, ".stderr"@);
    lemma_ends_of_a_text(snapshot, "snapshot-"@, text + ".bin"@);
    assert(snapshot =~= "snapshot-"@ + (text + ".bin"@));
    lemma_ends_of_a_text(text + ".bin"@, ".bin"@, text);
    if without_suffix(text, ".stdout"@) is Some {
        lemma_ends_of_a_text(text, ".stdout"@, without_suffix(text, ".stdout"@)->Some_0);
    }
    if without_suffix(text, ".stderr"@) is Some {
        lemma_ends_of_a_text(text, ".stderr"@, without_suffix(text, ".stderr"@)->Some_0);
    }
    if without_prefix(text, "snapshot-"@) is Some {
        let rest = without_prefix(text, "snapshot-"@)->Some_0;
        lemma_ends_of_a_text(text, "snapshot-"@, rest);
        if without_suffix(rest, ".bin"@) is Some {
            let role = without_suffix(rest, ".bin"@)->Some_0;
            lemma_ends_of_a_text(rest, ".bin"@, role);
            assert(text =~= "snapshot-"@ + role + ".bin"@);
            lemma_ends_of_a_text("snapshot-"@ + role, "snapshot-"@, role);
        }
    }
}

proof fn lemma_last_of_suffix(text: Seq<char>, suffix: Seq<char>)
    requires
        text.len() > 0,
        suffix.len() > 0,
        text.last() != suffix.last(),
    ensures
        without_suffix(text, suffix) is None,
{
    if without_suffix(text, suffix) is Some {
        let rest = without_suffix(text, suffix)->Some_0;
        lemma_ends_of_a_text(text, suffix, rest);
        assert((rest + suffix).last() == suffix.last());
    }
}

/// A capture file is read exactly when it is a regular file and no link, grants
/// nothing to its group or to others, and is no longer than its bound.
pub proof fn lemma_readable_file(
    is_symlink: bool,
    is_file: bool,
    mode: u32,
    length: u64,
    limit: usize,
)
    ensures
        file_failure(is_symlink, is_file, mode, length, limit) is None <==> is_file && !is_symlink
            && mode & 0o077 == 0 && length <= limit,
{
    assert(mode % 64 == 0 <==> mode & 0o077 == 0) by (bit_vector);
}

/// A tombstone and its value's category are one byte apart from the live
/// record's: the category of a code does not depend on the tombstone's bit, and
/// each category has its own code.
pub proof fn lemma_categories(kind: SentinelKind, other: SentinelKind, code: int)
    ensures
        sentinel_kind(kind_code(kind)) == Some(kind),
        kind_code(kind) == kind_code(other) ==> kind == other,
        sentinel_kind(code) is Some <==> 1 <= code <= 4,
{
}

/// A text of digits is one to any number of ASCII digits, and the name of a
/// process one to any number of ASCII letters, digits, hyphens and underscores.
pub proof fn lemma_name_characters(text: Seq<char>)
    ensures
        is_digits(text) <==> text.len() > 0 && forall|i: int|
            0 <= i < text.len() ==> '0' <= #[trigger] text[i] <= '9',
        is_process_name(text) <==> text.len() > 0 && forall|i: int|
            0 <= i < text.len() ==> is_letter_or_digit(#[trigger] text[i]) || text[i] == '-'
                || text[i] == '_',
{
    let bytes = encode_utf8(text);
    let digit = |byte: u8| 0x30 <= byte <= 0x39;
    let word = |byte: u8| is_alphanumeric(byte) || byte == 0x2d || byte == 0x5f;
    if is_digits(text) {
        assert forall|i: int| 0 <= i < bytes.len() implies #[trigger] bytes[i] < 0x80 by {
            assert(digit(encode_utf8(text)[i]));
        }
        lemma_ascii_bytes(text);
        assert forall|i: int| 0 <= i < text.len() implies '0' <= #[trigger] text[i] <= '9' by {
            assert(text[i] as u8 == bytes[i]);
            assert(digit(encode_utf8(text)[i]));
        }
    }
    if is_process_name(text) {
        assert forall|i: int| 0 <= i < bytes.len() implies #[trigger] bytes[i] < 0x80 by {
            assert(word(encode_utf8(text)[i]));
        }
        lemma_ascii_bytes(text);
        assert forall|i: int| 0 <= i < text.len() implies is_letter_or_digit(#[trigger] text[i])
            || text[i] == '-' || text[i] == '_' by {
            assert(text[i] as u8 == bytes[i]);
            assert(word(encode_utf8(text)[i]));
        }
    }
    if text.len() > 0 && forall|i: int| 0 <= i < text.len() ==> '0' <= #[trigger] text[i] <= '9' {
        assert(is_ascii_chars(text));
        is_ascii_chars_encode_utf8(text);
        assert forall|i: int| 0 <= i < bytes.len() implies digit(
            #[trigger] encode_utf8(text)[i],
        ) by {
            assert(text[i] as u8 == bytes[i]);
        }
        assert(all_bytes(text, digit));
    }
    if text.len() > 0 && forall|i: int|
        0 <= i < text.len() ==> is_letter_or_digit(#[trigger] text[i]) || text[i] == '-' || text[i]
            == '_' {
        assert(is_ascii_chars(text));
        is_ascii_chars_encode_utf8(text);
        assert forall|i: int| 0 <= i < bytes.len() implies word(
            #[trigger] encode_utf8(text)[i],
        ) by {
            assert(text[i] as u8 == bytes[i]);
        }
        assert(all_bytes(text, word));
    }
}

} // verus!
