//! The rows of the diagnostic matrix: which acceptance command covers each
//! cell, and what its fixture must show.

use vstd::prelude::*;

use crate::c11_bundle::{case_at, MATRIX_CASES};
use crate::scan_failure::{FaultStage, RunOutcome, SafeField, SentinelKind};

verus! {

/// One row of the matrix.
pub struct MatrixCase {
    pub name: &'static str,
    pub command: &'static str,
    pub stage: FaultStage,
    pub outcome: RunOutcome,
    pub required_sentinels: &'static [SentinelKind],
    pub required_inner_process_counts: &'static [(&'static str, usize)],
    pub required_snapshot_roles: &'static [&'static str],
    pub required_safe_fields: &'static [SafeField],
    /// Exact `(role, stage, cause)` peer fault tuples the typed relay
    /// snapshots must carry.  Only tuples structurally implied by the induced
    /// fault are listed; timing-dependent tuples are reported, not required.
    pub required_peer_faults: &'static [(&'static str, &'static str, &'static str)],
}

/// What every fixture of the production cluster records.
pub const PRODUCTION_SENTINELS: [SentinelKind; 4] = [
    SentinelKind::Credential,
    SentinelKind::ApplicationPayload,
    SentinelKind::FilesystemPath,
    SentinelKind::PrivateEndpoint,
];

/// What the transport-only Redis fixture records.
pub const REDIS_TLS_SENTINELS: [SentinelKind; 2] = [
    SentinelKind::Credential,
    SentinelKind::PrivateEndpoint,
];

/// The snapshots of a production cluster.
pub const PRODUCTION_SNAPSHOT_ROLES: [&'static str; 5] = [
    "snapshot-relay-relay-a",
    "snapshot-relay-relay-b",
    "snapshot-relay-relay-c",
    "snapshot-device_fanout",
    "snapshot-tenant_b_fanout",
];

/// No snapshot.
pub const NO_SNAPSHOT_ROLES: [&'static str; 0] = [];

/// Redis partition prints `relays`; the typed relay snapshot contributes the
/// bounded application-dispatch counters.  Peer readiness shows the same.
pub const MINIMUM_SAFE_FIELDS: [SafeField; 2] = [SafeField::Relay, SafeField::Counter];

/// No safe field.
pub const NO_SAFE_FIELDS: [SafeField; 0] = [];

/// Key rotation emits an explicit phase and candidate generation; counters are
/// provided by the typed relay snapshot.
pub const KEY_ROTATION_SAFE_FIELDS: [SafeField; 4] = [
    SafeField::Relay,
    SafeField::Phase,
    SafeField::EpochGenerationFence,
    SafeField::Counter,
];

/// The production summary has exact `relays`, `tenants`, `ingress_relays`,
/// `key_revocation`, and `owner_death` keys.
pub const PRODUCTION_SAFE_FIELDS: [SafeField; 5] = [
    SafeField::Relay,
    SafeField::Tenant,
    SafeField::Route,
    SafeField::RevocationOwnerDeath,
    SafeField::Counter,
];

/// The owner-loss evidence has exact `owner_relay`, `owner_loss`, and
/// `post_terminal` keys.
pub const OWNER_LOSS_SAFE_FIELDS: [SafeField; 5] = [
    SafeField::Relay,
    SafeField::Owner,
    SafeField::RevocationOwnerDeath,
    SafeField::Counter,
    SafeField::CloseCause,
];

/// Lifecycle and pressure both have relay summaries plus typed counters and
/// terminal-event containers.
pub const WRITE_SAFE_FIELDS: [SafeField; 3] = [
    SafeField::Relay,
    SafeField::Counter,
    SafeField::CloseCause,
];

/// Key rotation withdraws the pooled peer pin mid-stream: the ingress and the
/// owner both observe the stream reset while forwarding body records.
pub const KEY_ROTATION_PEER_FAULTS: [(&'static str, &'static str, &'static str); 2] = [
    ("ingress", "body", "transport_h3"),
    ("owner", "body", "transport_h3"),
];

/// No peer fault.
pub const NO_PEER_FAULTS: [(&'static str, &'static str, &'static str); 0] = [];

/// No managed process.
pub const NO_PROCESSES: [(&'static str, usize); 0] = [];

/// The one managed process of the readiness and lifecycle fixtures.
pub const ONE_CLI: [(&'static str, usize); 1] = [("m7-production-cli", 1)];

/// The two managed processes of the pressure fixture.
pub const TWO_CLIS: [(&'static str, usize); 1] = [("m7-production-cli", 2)];

/// The production gate composes the concurrent same-identifier tenant race
/// (four managed roles) with its single production process.
pub const PRODUCTION_PROCESSES: [(&'static str, usize); 5] = [
    ("m7-production-cli", 1),
    ("m7-tenant-race-first", 1),
    ("m7-tenant-race-second", 1),
    ("m7-tenant-race-sibling", 1),
    ("m7-tenant-race-successor", 1),
];

/// The name of row `i`.
pub open spec fn row_name(i: int) -> Seq<char> {
    if i == 0 {
        "redis-success"@
    } else if i == 1 {
        "redis-fault"@
    } else if i == 2 {
        "peer-success"@
    } else if i == 3 {
        "peer-fault"@
    } else if i == 4 {
        "owner-success"@
    } else if i == 5 {
        "owner-fault"@
    } else if i == 6 {
        "write-success"@
    } else {
        "write-fault"@
    }
}

/// The acceptance command of row `i`.
pub open spec fn row_command(i: int) -> Seq<char> {
    if i == 0 {
        "verify-m7-redis-partition"@
    } else if i == 1 {
        "verify-m7-redis-tls"@
    } else if i == 2 {
        "verify-m7-peer-readiness"@
    } else if i == 3 {
        "verify-m7-key-rotation"@
    } else if i == 4 {
        "verify-m7-production"@
    } else if i == 5 {
        "verify-m7-owner-loss-effect"@
    } else if i == 6 {
        "verify-m7-lifecycle"@
    } else {
        "verify-m7-pressure"@
    }
}

/// The managed processes of row `i`.
pub open spec fn row_processes(i: int) -> Seq<(&'static str, usize)> {
    if i == 2 || i == 6 {
        ONE_CLI@
    } else if i == 4 {
        PRODUCTION_PROCESSES@
    } else if i == 7 {
        TWO_CLIS@
    } else {
        NO_PROCESSES@
    }
}

/// The safe fields of row `i`.
pub open spec fn row_fields(i: int) -> Seq<SafeField> {
    if i == 0 || i == 2 {
        MINIMUM_SAFE_FIELDS@
    } else if i == 1 {
        NO_SAFE_FIELDS@
    } else if i == 3 {
        KEY_ROTATION_SAFE_FIELDS@
    } else if i == 4 {
        PRODUCTION_SAFE_FIELDS@
    } else if i == 5 {
        OWNER_LOSS_SAFE_FIELDS@
    } else {
        WRITE_SAFE_FIELDS@
    }
}

/// `case` is row `i` of the matrix: the cell at position `i`, with its own
/// requirements.
pub open spec fn is_row(case: MatrixCase, i: int) -> bool {
    &&& case.name@ == row_name(i)
    &&& case.command@ == row_command(i)
    &&& (case.stage, case.outcome) == case_at(i)
    &&& case.required_sentinels@ == if i == 1 {
        REDIS_TLS_SENTINELS@
    } else {
        PRODUCTION_SENTINELS@
    }
    &&& case.required_inner_process_counts@ == row_processes(i)
    &&& case.required_snapshot_roles@ == if i == 1 {
        NO_SNAPSHOT_ROLES@
    } else {
        PRODUCTION_SNAPSHOT_ROLES@
    }
    &&& case.required_safe_fields@ == row_fields(i)
    &&& case.required_peer_faults@ == if i == 3 {
        KEY_ROTATION_PEER_FAULTS@
    } else {
        NO_PEER_FAULTS@
    }
}

/// Row `i` of the matrix.
pub fn matrix_case(i: usize) -> (case: MatrixCase)
    requires
        i < MATRIX_CASES,
    ensures
        is_row(case, i as int),
{
    let production = MatrixCase {
        name: "redis-success",
        command: "verify-m7-redis-partition",
        stage: FaultStage::Redis,
        outcome: RunOutcome::Success,
        required_sentinels: PRODUCTION_SENTINELS.as_slice(),
        required_inner_process_counts: NO_PROCESSES.as_slice(),
        required_snapshot_roles: PRODUCTION_SNAPSHOT_ROLES.as_slice(),
        required_safe_fields: MINIMUM_SAFE_FIELDS.as_slice(),
        required_peer_faults: NO_PEER_FAULTS.as_slice(),
    };
    assert(FaultStage::ALL@[0] == FaultStage::Redis && FaultStage::ALL@[1] == FaultStage::Peer
        && FaultStage::ALL@[2] == FaultStage::Owner && FaultStage::ALL@[3] == FaultStage::Write);
    assert(RunOutcome::ALL@[0] == RunOutcome::Success && RunOutcome::ALL@[1]
        == RunOutcome::Failure);
    if i == 0 {
        production
    } else if i == 1 {
        MatrixCase {
            name: "redis-fault",
            command: "verify-m7-redis-tls",
            outcome: RunOutcome::Failure,
            required_sentinels: REDIS_TLS_SENTINELS.as_slice(),
            required_snapshot_roles: NO_SNAPSHOT_ROLES.as_slice(),
            required_safe_fields: NO_SAFE_FIELDS.as_slice(),
            ..production
        }
    } else if i == 2 {
        MatrixCase {
            name: "peer-success",
            command: "verify-m7-peer-readiness",
            stage: FaultStage::Peer,
            required_inner_process_counts: ONE_CLI.as_slice(),
            ..production
        }
    } else if i == 3 {
        MatrixCase {
            name: "peer-fault",
            command: "verify-m7-key-rotation",
            stage: FaultStage::Peer,
            outcome: RunOutcome::Failure,
            required_safe_fields: KEY_ROTATION_SAFE_FIELDS.as_slice(),
            required_peer_faults: KEY_ROTATION_PEER_FAULTS.as_slice(),
            ..production
        }
    } else if i == 4 {
        MatrixCase {
            name: "owner-success",
            command: "verify-m7-production",
            stage: FaultStage::Owner,
            required_inner_process_counts: PRODUCTION_PROCESSES.as_slice(),
            required_safe_fields: PRODUCTION_SAFE_FIELDS.as_slice(),
            ..production
        }
    } else if i == 5 {
        MatrixCase {
            name: "owner-fault",
            command: "verify-m7-owner-loss-effect",
            stage: FaultStage::Owner,
            outcome: RunOutcome::Failure,
            required_safe_fields: OWNER_LOSS_SAFE_FIELDS.as_slice(),
            ..production
        }
    } else if i == 6 {
        MatrixCase {
            name: "write-success",
            command: "verify-m7-lifecycle",
            stage: FaultStage::Write,
            required_inner_process_counts: ONE_CLI.as_slice(),
            required_safe_fields: WRITE_SAFE_FIELDS.as_slice(),
            ..production
        }
    } else {
        MatrixCase {
            name: "write-fault",
            command: "verify-m7-pressure",
            stage: FaultStage::Write,
            outcome: RunOutcome::Failure,
            required_inner_process_counts: TWO_CLIS.as_slice(),
            required_safe_fields: WRITE_SAFE_FIELDS.as_slice(),
            ..production
        }
    }
}

/// Every safe field is required by some row, so a matrix whose rows all pass
/// shows all of them.
pub proof fn lemma_rows_require_every_field(field: SafeField)
    ensures
        exists|i: int| 0 <= i < MATRIX_CASES && (#[trigger] row_fields(i)).contains(field),
{
    assert(row_fields(3)[0] == SafeField::Relay);
    assert(row_fields(4)[1] == SafeField::Tenant);
    assert(row_fields(5)[1] == SafeField::Owner);
    assert(row_fields(4)[2] == SafeField::Route);
    assert(row_fields(3)[1] == SafeField::Phase);
    assert(row_fields(3)[2] == SafeField::EpochGenerationFence);
    assert(row_fields(4)[3] == SafeField::RevocationOwnerDeath);
    assert(row_fields(3)[3] == SafeField::Counter);
    assert(row_fields(5)[4] == SafeField::CloseCause);
    let i: int = match field {
        SafeField::Tenant | SafeField::Route | SafeField::RevocationOwnerDeath => 4,
        SafeField::Owner | SafeField::CloseCause => 5,
        _ => 3,
    };
    assert(row_fields(i).contains(field));
}

/// A row is called by its stage and by whether its fixture is a success or a
/// fault, and stands in the cell of that stage and that outcome.
pub proof fn lemma_row_is_called_by_its_cell(case: MatrixCase, i: int)
    requires
        0 <= i < 8,
        is_row(case, i),
    ensures
        case.stage == FaultStage::ALL@[i / 2],
        case.outcome == if i % 2 == 0 {
            RunOutcome::Success
        } else {
            RunOutcome::Failure
        },
        case.name@ == case.stage.name() + "-"@ + if case.outcome == RunOutcome::Success {
            "success"@
        } else {
            "fault"@
        },
{
    reveal_strlit("redis");
    reveal_strlit("peer");
    reveal_strlit("owner");
    reveal_strlit("write");
    reveal_strlit("-");
    reveal_strlit("success");
    reveal_strlit("fault");
    reveal_strlit("redis-success");
    reveal_strlit("redis-fault");
    reveal_strlit("peer-success");
    reveal_strlit("peer-fault");
    reveal_strlit("owner-success");
    reveal_strlit("owner-fault");
    reveal_strlit("write-success");
    reveal_strlit("write-fault");
    assert(FaultStage::ALL@[0] == FaultStage::Redis && FaultStage::ALL@[1] == FaultStage::Peer
        && FaultStage::ALL@[2] == FaultStage::Owner && FaultStage::ALL@[3] == FaultStage::Write);
    assert(RunOutcome::ALL@[0] == RunOutcome::Success && RunOutcome::ALL@[1]
        == RunOutcome::Failure);
    assert("redis-success"@ =~= "redis"@ + "-"@ + "success"@);
    assert("redis-fault"@ =~= "redis"@ + "-"@ + "fault"@);
    assert("peer-success"@ =~= "peer"@ + "-"@ + "success"@);
    assert("peer-fault"@ =~= "peer"@ + "-"@ + "fault"@);
    assert("owner-success"@ =~= "owner"@ + "-"@ + "success"@);
    assert("owner-fault"@ =~= "owner"@ + "-"@ + "fault"@);
    assert("write-success"@ =~= "write"@ + "-"@ + "success"@);
    assert("write-fault"@ =~= "write"@ + "-"@ + "fault"@);
}

/// Every row but the transport-only one records all four categories of
/// sentinel and captures all three relays; that one records its credential and
/// its endpoint and captures nothing.
pub proof fn lemma_rows_record_sentinels(case: MatrixCase, i: int)
    requires
        0 <= i < 8,
        is_row(case, i),
    ensures
        case.required_sentinels@.contains(SentinelKind::Credential),
        case.required_sentinels@.contains(SentinelKind::PrivateEndpoint),
        case.required_sentinels@.contains(SentinelKind::ApplicationPayload) <==> i != 1,
        case.required_sentinels@.contains(SentinelKind::FilesystemPath) <==> i != 1,
        i == 1 ==> case.required_snapshot_roles@.len() == 0,
        i != 1 ==> case.required_snapshot_roles@.len() == 5 && case.required_snapshot_roles@[0]@
            == "snapshot-relay-relay-a"@ && case.required_snapshot_roles@[1]@
            == "snapshot-relay-relay-b"@ && case.required_snapshot_roles@[2]@
            == "snapshot-relay-relay-c"@,
{
    let kinds = case.required_sentinels@;
    if i == 1 {
        assert(kinds[0] == SentinelKind::Credential && kinds[1] == SentinelKind::PrivateEndpoint);
        assert(kinds.len() == 2);
    } else {
        assert(kinds[0] == SentinelKind::Credential && kinds[1]
            == SentinelKind::ApplicationPayload && kinds[2] == SentinelKind::FilesystemPath
            && kinds[3] == SentinelKind::PrivateEndpoint);
    }
}

/// Which rows must show which fields, and that the key rotation alone must show
/// peer faults, on both sides of the hop.
pub proof fn lemma_rows_show_fields(case: MatrixCase, i: int)
    requires
        0 <= i < 8,
        is_row(case, i),
    ensures
        case.required_safe_fields@.contains(SafeField::Relay) <==> i != 1,
        case.required_safe_fields@.contains(SafeField::Counter) <==> i != 1,
        case.required_safe_fields@.contains(SafeField::Phase) <==> i == 3,
        case.required_safe_fields@.contains(SafeField::EpochGenerationFence) <==> i == 3,
        case.required_safe_fields@.contains(SafeField::Tenant) <==> i == 4,
        case.required_safe_fields@.contains(SafeField::Route) <==> i == 4,
        case.required_safe_fields@.contains(SafeField::RevocationOwnerDeath) <==> i == 4 || i == 5,
        case.required_safe_fields@.contains(SafeField::Owner) <==> i == 5,
        case.required_safe_fields@.contains(SafeField::CloseCause) <==> i >= 5,
        case.required_peer_faults@.len() == if i == 3 {
            2nat
        } else {
            0
        },
        i == 3 ==> {
            let faults = case.required_peer_faults@;
            &&& faults[0].0@ == "ingress"@ && faults[1].0@ == "owner"@
            &&& faults[0].1@ == "body"@ && faults[1].1@ == "body"@
            &&& faults[0].2@ == "transport_h3"@ && faults[1].2@ == "transport_h3"@
        },
{
    let fields = case.required_safe_fields@;
    if i == 0 || i == 2 {
        assert(fields.len() == 2 && fields[0] == SafeField::Relay && fields[1]
            == SafeField::Counter);
    } else if i == 1 {
        assert(fields.len() == 0);
    } else if i == 3 {
        assert(fields.len() == 4 && fields[0] == SafeField::Relay && fields[1] == SafeField::Phase
            && fields[2] == SafeField::EpochGenerationFence && fields[3] == SafeField::Counter);
    } else if i == 4 {
        assert(fields.len() == 5 && fields[0] == SafeField::Relay && fields[1] == SafeField::Tenant
            && fields[2] == SafeField::Route && fields[3] == SafeField::RevocationOwnerDeath
            && fields[4] == SafeField::Counter);
    } else if i == 5 {
        assert(fields.len() == 5 && fields[0] == SafeField::Relay && fields[1] == SafeField::Owner
            && fields[2] == SafeField::RevocationOwnerDeath && fields[3] == SafeField::Counter
            && fields[4] == SafeField::CloseCause);
    } else {
        assert(fields.len() == 3 && fields[0] == SafeField::Relay && fields[1]
            == SafeField::Counter && fields[2] == SafeField::CloseCause);
    }
}

} // verus!
