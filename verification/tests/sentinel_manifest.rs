//! The sentinel manifest on concrete bytes.

use tunnel_test_harness::capture::{read_sentinel_manifest, RETIRED_SENTINEL_FLAG};
use tunnel_test_harness::scan_failure::SentinelKind;

fn record(kind_code: u8, value: &[u8]) -> Vec<u8> {
    let mut bytes = vec![kind_code];
    bytes.extend_from_slice(&(value.len() as u32).to_le_bytes());
    bytes.extend_from_slice(value);
    bytes
}

fn manifest(records: &[(u8, &[u8])]) -> Vec<u8> {
    records
        .iter()
        .flat_map(|(kind, value)| record(*kind, value))
        .collect()
}

#[test]
fn a_retired_endpoint_is_dropped_and_can_be_recorded_again() {
    // Record a listener, retire it when its socket closes, and record a
    // different one: only the live value may still be scanned for.
    let sentinels = read_sentinel_manifest(&manifest(&[
        (4, b"127.0.0.1:51190"),
        (4 | RETIRED_SENTINEL_FLAG, b"127.0.0.1:51190"),
        (4, b"127.0.0.1:51191"),
    ]))
    .expect("read sentinel manifest");
    assert_eq!(sentinels.len(), 1);
    assert_eq!(sentinels[0].kind(), SentinelKind::PrivateEndpoint);
    assert!(sentinels[0].has_value(b"127.0.0.1:51191"));

    // The same port recorded again after retirement is live once more.
    let sentinels = read_sentinel_manifest(&manifest(&[
        (4, b"127.0.0.1:51190"),
        (4 | RETIRED_SENTINEL_FLAG, b"127.0.0.1:51190"),
        (4, b"127.0.0.1:51190"),
    ]))
    .expect("reread sentinel manifest");
    assert_eq!(sentinels.len(), 1);
    assert!(sentinels[0].has_value(b"127.0.0.1:51190"));

    // Retirement is category-exact: a credential with the same bytes is
    // untouched by an endpoint tombstone.
    let sentinels = read_sentinel_manifest(&manifest(&[
        (1, b"shared-bytes"),
        (4, b"shared-bytes"),
        (4 | RETIRED_SENTINEL_FLAG, b"shared-bytes"),
    ]))
    .expect("reread sentinel manifest again");
    assert_eq!(sentinels.len(), 1);
    assert_eq!(sentinels[0].kind(), SentinelKind::Credential);
}
