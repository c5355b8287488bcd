//! Captured files, directories and streams, on concrete bytes and names.

use tunnel_test_harness::capture::{
    check_capture_file, classify_entry, managed_process_name, read_sentinel_manifest,
    read_snapshot_frames, CaptureEntry, CapturedStream, MAX_CAPTURE, MAX_CAPTURE_ENTRIES,
    MAX_MANIFEST,
};
use tunnel_test_harness::capture_directory::{check_entry_type, CaptureDirectory};
use tunnel_test_harness::error::HarnessError;
use tunnel_test_harness::scan_failure::SentinelKind;

fn detail<T>(result: Result<T, HarnessError>) -> String {
    match result {
        Ok(_) => panic!("an input that must fail was accepted"),
        Err(error) => error.detail().to_owned(),
    }
}

fn record(kind: u8, value: &[u8]) -> Vec<u8> {
    let mut bytes = vec![kind];
    bytes.extend_from_slice(&(value.len() as u32).to_le_bytes());
    bytes.extend_from_slice(value);
    bytes
}

fn frame(payload: &[u8]) -> Vec<u8> {
    let mut bytes = (payload.len() as u32).to_le_bytes().to_vec();
    bytes.extend_from_slice(payload);
    bytes
}

#[test]
fn a_manifest_reads_back_every_kind() {
    let mut bytes = record(1, b"credential");
    bytes.extend(record(2, b"payload"));
    bytes.extend(record(3, b"/path"));
    bytes.extend(record(4, b"endpoint"));
    let sentinels = read_sentinel_manifest(&bytes).expect("a manifest");
    let kinds: Vec<SentinelKind> = sentinels.iter().map(|sentinel| sentinel.kind()).collect();
    assert_eq!(
        kinds,
        vec![
            SentinelKind::Credential,
            SentinelKind::ApplicationPayload,
            SentinelKind::FilesystemPath,
            SentinelKind::PrivateEndpoint,
        ]
    );
    assert!(sentinels[2].has_value(b"/path"));
    assert!(read_sentinel_manifest(b"").expect("an empty manifest").is_empty());
}

#[test]
fn a_broken_manifest_says_how() {
    assert_eq!(
        detail(read_sentinel_manifest(&[1, 0])),
        "C11 sentinel manifest was truncated"
    );
    let mut short = record(1, b"value");
    short.pop();
    assert_eq!(
        detail(read_sentinel_manifest(&short)),
        "C11 sentinel manifest record exceeded its bound"
    );
    assert_eq!(
        detail(read_sentinel_manifest(&record(9, b"value"))),
        "C11 sentinel manifest contained an unknown category"
    );
}

#[test]
fn frames_read_back_as_their_payloads() {
    let mut bytes = frame(b"{}");
    bytes.extend(frame(b"[1]"));
    assert_eq!(read_snapshot_frames(&bytes).expect("frames"), b"{}[1]");
    assert_eq!(
        detail(read_snapshot_frames(&[5, 0, 0, 0, 1])),
        "C11 snapshot frame was truncated"
    );
    assert_eq!(
        detail(read_snapshot_frames(&[1, 0])),
        "C11 snapshot frame was truncated"
    );
}

#[test]
fn a_managed_process_is_named_behind_two_numbers() {
    assert_eq!(
        managed_process_name("managed-12-3-relay-a").expect("a name"),
        "relay-a"
    );
    assert_eq!(
        detail(managed_process_name("managed-x-3-relay")),
        "C11 managed-process capture role was malformed"
    );
    assert_eq!(
        detail(managed_process_name("managed-12-3")),
        "C11 managed-process capture role was missing"
    );
    assert_eq!(
        detail(managed_process_name("managed-12-3-a.b")),
        "C11 managed-process capture role was invalid"
    );
}

#[test]
fn a_capture_directory_holds_only_known_files() {
    assert!(matches!(
        classify_entry("sentinels.bin"),
        Ok(CaptureEntry::Sentinels)
    ));
    match classify_entry("snapshot-relay-relay-a.bin") {
        Ok(CaptureEntry::Snapshot(role)) => assert_eq!(role, "snapshot-relay-relay-a"),
        _ => panic!("a snapshot was not recognized"),
    }
    match classify_entry("managed-1-2-x.stderr") {
        Ok(CaptureEntry::Stderr(prefix)) => assert_eq!(prefix, "managed-1-2-x"),
        _ => panic!("an output was not recognized"),
    }
    assert_eq!(
        detail(classify_entry("notes.txt")),
        "C11 capture directory contained an unknown file"
    );
    assert_eq!(CaptureEntry::Sentinels.limit(), MAX_MANIFEST);
    assert_eq!(CaptureEntry::Stdout("x".to_owned()).limit(), MAX_CAPTURE);
}

#[test]
fn a_capture_file_is_regular_private_and_bounded() {
    assert!(check_capture_file(false, true, 0o100600, 10, 10).is_ok());
    assert_eq!(
        detail(check_capture_file(true, true, 0o100600, 1, 10)),
        "C11 capture file was not a regular file"
    );
    assert_eq!(
        detail(check_capture_file(false, true, 0o100644, 1, 10)),
        "C11 capture file permissions were not private"
    );
    assert_eq!(
        detail(check_capture_file(false, true, 0o100600, 11, 10)),
        "C11 capture file exceeded its bounded buffer"
    );
}

#[test]
fn a_directory_pairs_the_outputs_of_each_process() {
    let mut directory = CaptureDirectory::new();
    for (name, bytes) in [
        ("managed-2-0-relay.stdout", "out-2"),
        ("managed-1-0-relay.stdout", "out-1"),
        ("managed-1-0-relay.stderr", "err-1"),
        ("managed-2-0-relay.stderr", "err-2"),
    ] {
        directory.count_entry().expect("an entry");
        directory
            .take_file(name, bytes.as_bytes().to_vec())
            .expect("a file");
    }
    let mut snapshot = frame(b"{}");
    snapshot.extend(frame(b"{}"));
    directory
        .take_file("snapshot-relay-relay-a.bin", snapshot)
        .expect("a snapshot");
    directory
        .take_file("sentinels.bin", record(1, b"token"))
        .expect("the sentinels");
    let contents = directory.finish().expect("a complete directory");
    let outputs: Vec<(&str, &[u8], &[u8])> = contents
        .inner
        .iter()
        .map(|inner| (inner.name.as_str(), &inner.stdout[..], &inner.stderr[..]))
        .collect();
    assert_eq!(
        outputs,
        vec![
            ("relay", &b"out-1"[..], &b"err-1"[..]),
            ("relay", &b"out-2"[..], &b"err-2"[..]),
        ]
    );
    assert_eq!(contents.snapshots.len(), 1);
    assert_eq!(contents.sentinels.len(), 1);
}

#[test]
fn an_unpaired_output_is_incomplete() {
    let mut directory = CaptureDirectory::new();
    directory
        .take_file("managed-1-0-relay.stdout", Vec::new())
        .expect("a file");
    assert_eq!(
        detail(directory.finish()),
        "C11 managed-process stderr capture was incomplete"
    );
    let mut directory = CaptureDirectory::new();
    directory
        .take_file("managed-1-0-relay.stderr", Vec::new())
        .expect("a file");
    assert_eq!(
        detail(directory.finish()),
        "C11 managed-process stdout capture was incomplete"
    );
    assert!(check_entry_type(true).is_ok());
    assert_eq!(
        detail(check_entry_type(false)),
        "C11 capture directory contained a non-file entry"
    );
    let mut directory = CaptureDirectory::new();
    for _ in 0..MAX_CAPTURE_ENTRIES {
        directory.count_entry().expect("an entry");
    }
    for _ in 0..2 {
        assert_eq!(
            detail(directory.count_entry()),
            "C11 capture directory contained too many files"
        );
    }
}

#[test]
fn snapshots_of_one_role_stay_in_the_order_in_which_they_were_read() {
    let mut directory = CaptureDirectory::new();
    for (name, bytes) in [
        ("snapshot-relay-b.bin", "[1]"),
        ("snapshot-relay-a.bin", "[2]"),
        ("snapshot-relay-b.bin", "[3]"),
    ] {
        directory
            .take_file(name, frame(bytes.as_bytes()))
            .expect("a snapshot");
    }
    let contents = directory.finish().expect("the contents");
    let roles: Vec<&str> = contents
        .snapshots
        .iter()
        .map(|snapshot| snapshot.role.as_str())
        .collect();
    assert_eq!(
        roles,
        vec!["snapshot-relay-a", "snapshot-relay-b", "snapshot-relay-b"]
    );
    assert!(contents.snapshots[1].bytes.starts_with(b"[1]"));
    assert!(contents.snapshots[2].bytes.starts_with(b"[3]"));
}

#[test]
fn a_stream_keeps_what_fits_and_remembers_that_it_overflowed() {
    let mut stream = CapturedStream::new();
    stream.accept(b"abc");
    stream.accept(b"de");
    assert_eq!(stream.bytes, b"abcde");
    assert!(!stream.overflow);
    stream.accept(&vec![0; MAX_CAPTURE]);
    assert!(stream.overflow);
    assert_eq!(stream.bytes.len(), MAX_CAPTURE);
}
