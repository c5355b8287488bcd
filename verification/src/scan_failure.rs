//! The failures of the diagnostic windows, and what they print.
//!
//! A failure carries safe labels and stream roles only: never a sentinel's
//! value and never captured bytes.

use vstd::prelude::*;
use vstd::string::*;

use crate::peer_faults::PeerFaultRequirement;
use crate::text::{decimal, decimal_text, joined};

verus! {

/// The part of the system that a run disturbs.
#[derive(Clone, Copy, Debug, Eq, Ord, PartialEq, PartialOrd, Structural)]
pub enum FaultStage {
    Redis,
    Peer,
    Owner,
    Write,
}

impl FaultStage {
    /// Every stage, in order.
    pub const ALL: [FaultStage; 4] = [
        FaultStage::Redis,
        FaultStage::Peer,
        FaultStage::Owner,
        FaultStage::Write,
    ];

    /// What the stage is called.
    pub open spec fn name(self) -> Seq<char> {
        match self {
            FaultStage::Redis => "redis"@,
            FaultStage::Peer => "peer"@,
            FaultStage::Owner => "owner"@,
            FaultStage::Write => "write"@,
        }
    }

    /// What the stage is called.
    pub fn label(self) -> (label: &'static str)
        ensures
            label@ == self.name(),
    {
        match self {
            FaultStage::Redis => "redis",
            FaultStage::Peer => "peer",
            FaultStage::Owner => "owner",
            FaultStage::Write => "write",
        }
    }
}

/// Whether a run was meant to succeed.
#[derive(Clone, Copy, Debug, Eq, Ord, PartialEq, PartialOrd, Structural)]
pub enum RunOutcome {
    Success,
    Failure,
}

impl RunOutcome {
    /// Every outcome, in order.
    pub const ALL: [RunOutcome; 2] = [RunOutcome::Success, RunOutcome::Failure];

    /// What the outcome is called.
    pub open spec fn name(self) -> Seq<char> {
        match self {
            RunOutcome::Success => "success"@,
            RunOutcome::Failure => "failure"@,
        }
    }

    /// What the outcome is called.
    pub fn label(self) -> (label: &'static str)
        ensures
            label@ == self.name(),
    {
        match self {
            RunOutcome::Success => "success",
            RunOutcome::Failure => "failure",
        }
    }
}

/// What a sentinel value is.
#[derive(Clone, Copy, Debug, Eq, Ord, PartialEq, PartialOrd, Structural)]
pub enum SentinelKind {
    Credential,
    ApplicationPayload,
    FilesystemPath,
    PrivateEndpoint,
}

impl SentinelKind {
    /// What the kind is called.
    pub open spec fn name(self) -> Seq<char> {
        match self {
            SentinelKind::Credential => "credential"@,
            SentinelKind::ApplicationPayload => "application_payload"@,
            SentinelKind::FilesystemPath => "filesystem_path"@,
            SentinelKind::PrivateEndpoint => "private_endpoint"@,
        }
    }

    /// What the kind is called.
    pub fn label(self) -> (label: &'static str)
        ensures
            label@ == self.name(),
    {
        match self {
            SentinelKind::Credential => "credential",
            SentinelKind::ApplicationPayload => "application_payload",
            SentinelKind::FilesystemPath => "filesystem_path",
            SentinelKind::PrivateEndpoint => "private_endpoint",
        }
    }
}

/// A category of diagnostic field that a window may have to show.
#[derive(Clone, Copy, Debug, Eq, Ord, PartialEq, PartialOrd, Structural)]
pub enum SafeField {
    Relay,
    Tenant,
    Owner,
    Route,
    Phase,
    EpochGenerationFence,
    RevocationOwnerDeath,
    Counter,
    CloseCause,
}

impl SafeField {
    /// Every category, in order.
    pub const ALL: [SafeField; 9] = [
        SafeField::Relay,
        SafeField::Tenant,
        SafeField::Owner,
        SafeField::Route,
        SafeField::Phase,
        SafeField::EpochGenerationFence,
        SafeField::RevocationOwnerDeath,
        SafeField::Counter,
        SafeField::CloseCause,
    ];

    /// What the category is called.
    pub open spec fn name(self) -> Seq<char> {
        match self {
            SafeField::Relay => "relay"@,
            SafeField::Tenant => "tenant"@,
            SafeField::Owner => "owner"@,
            SafeField::Route => "route"@,
            SafeField::Phase => "phase"@,
            SafeField::EpochGenerationFence => "epoch_generation_fence"@,
            SafeField::RevocationOwnerDeath => "revocation_owner_death"@,
            SafeField::Counter => "counter"@,
            SafeField::CloseCause => "close_cause"@,
        }
    }

    /// What the category is called.
    pub fn label(self) -> (label: &'static str)
        ensures
            label@ == self.name(),
    {
        match self {
            SafeField::Relay => "relay",
            SafeField::Tenant => "tenant",
            SafeField::Owner => "owner",
            SafeField::Route => "route",
            SafeField::Phase => "phase",
            SafeField::EpochGenerationFence => "epoch_generation_fence",
            SafeField::RevocationOwnerDeath => "revocation_owner_death",
            SafeField::Counter => "counter",
            SafeField::CloseCause => "close_cause",
        }
    }
}

/// Why a window, a run or a matrix was refused.
#[derive(Clone, Debug, Eq, PartialEq)]
pub enum ScanFailure {
    InvalidToken { field: &'static str },
    InvalidSentinel { kind: SentinelKind },
    InvalidStreamLimit,
    NoExpectedStreams,
    UnexpectedStream { role: String },
    AppendAfterClose { role: String },
    CaptureOverflow { role: String, limit: usize },
    SensitiveValue { role: String, kind: SentinelKind },
    DuplicateClose { role: String },
    JoinedBeforeClose { role: String },
    StreamNotClosed { role: String },
    StreamNotJoined { role: String },
    MissingStream { role: String },
    MissingSafeFields { fields: Vec<SafeField> },
    SafeFieldRoleNotExpected,
    MixedSourceBuild,
    InvalidWindow,
    RunOutsideMatrix { run_id: String },
    DuplicateMatrixCase { stage: FaultStage, outcome: RunOutcome },
    MissingMatrixCase { stage: FaultStage, outcome: RunOutcome },
    /// A required peer fault (exact role and cause at any declared stage) was
    /// absent from every relay snapshot.
    MissingPeerFault { requirement: PeerFaultRequirement },
    /// A relay snapshot's peer fault table was malformed or outside the closed
    /// vocabulary.  The reason is a fixed label; no snapshot bytes are copied.
    InvalidPeerFault { reason: &'static str },
}

/// The model of a peer fault requirement: its role, its stages and its cause.
pub type RequirementKey = (Seq<char>, Seq<Seq<char>>, Seq<char>);

/// The model of a failure.
pub enum FailureView {
    InvalidToken(Seq<char>),
    InvalidSentinel(SentinelKind),
    InvalidStreamLimit,
    NoExpectedStreams,
    UnexpectedStream(Seq<char>),
    AppendAfterClose(Seq<char>),
    CaptureOverflow(Seq<char>, usize),
    SensitiveValue(Seq<char>, SentinelKind),
    DuplicateClose(Seq<char>),
    JoinedBeforeClose(Seq<char>),
    StreamNotClosed(Seq<char>),
    StreamNotJoined(Seq<char>),
    MissingStream(Seq<char>),
    MissingSafeFields(Seq<SafeField>),
    SafeFieldRoleNotExpected,
    MixedSourceBuild,
    InvalidWindow,
    RunOutsideMatrix(Seq<char>),
    DuplicateMatrixCase(FaultStage, RunOutcome),
    MissingMatrixCase(FaultStage, RunOutcome),
    MissingPeerFault(RequirementKey),
    InvalidPeerFault(Seq<char>),
}

impl View for ScanFailure {
    type V = FailureView;

    open spec fn view(&self) -> FailureView {
        match *self {
            ScanFailure::InvalidToken { field } => FailureView::InvalidToken(field@),
            ScanFailure::InvalidSentinel { kind } => FailureView::InvalidSentinel(kind),
            ScanFailure::InvalidStreamLimit => FailureView::InvalidStreamLimit,
            ScanFailure::NoExpectedStreams => FailureView::NoExpectedStreams,
            ScanFailure::UnexpectedStream { role } => FailureView::UnexpectedStream(role@),
            ScanFailure::AppendAfterClose { role } => FailureView::AppendAfterClose(role@),
            ScanFailure::CaptureOverflow { role, limit } => FailureView::CaptureOverflow(
                role@,
                limit,
            ),
            ScanFailure::SensitiveValue { role, kind } => FailureView::SensitiveValue(role@, kind),
            ScanFailure::DuplicateClose { role } => FailureView::DuplicateClose(role@),
            ScanFailure::JoinedBeforeClose { role } => FailureView::JoinedBeforeClose(role@),
            ScanFailure::StreamNotClosed { role } => FailureView::StreamNotClosed(role@),
            ScanFailure::StreamNotJoined { role } => FailureView::StreamNotJoined(role@),
            ScanFailure::MissingStream { role } => FailureView::MissingStream(role@),
            ScanFailure::MissingSafeFields { fields } => FailureView::MissingSafeFields(fields@),
            ScanFailure::SafeFieldRoleNotExpected => FailureView::SafeFieldRoleNotExpected,
            ScanFailure::MixedSourceBuild => FailureView::MixedSourceBuild,
            ScanFailure::InvalidWindow => FailureView::InvalidWindow,
            ScanFailure::RunOutsideMatrix { run_id } => FailureView::RunOutsideMatrix(run_id@),
            ScanFailure::DuplicateMatrixCase { stage, outcome } => FailureView::DuplicateMatrixCase(
                stage,
                outcome,
            ),
            ScanFailure::MissingMatrixCase { stage, outcome } => FailureView::MissingMatrixCase(
                stage,
                outcome,
            ),
            ScanFailure::MissingPeerFault { requirement } => FailureView::MissingPeerFault(
                requirement@,
            ),
            ScanFailure::InvalidPeerFault { reason } => FailureView::InvalidPeerFault(reason@),
        }
    }
}

/// A peer fault or a requirement in print: role, stage and cause.
pub open spec fn slashed(role: Seq<char>, stage: Seq<char>, cause: Seq<char>) -> Seq<char> {
    role + "/"@ + stage + "/"@ + cause
}

/// A requirement in print, its alternative stages between bars.
pub open spec fn requirement_text(requirement: RequirementKey) -> Seq<char> {
    slashed(requirement.0, joined(requirement.1, "|"@), requirement.2)
}

/// The names of a list of safe fields.
pub open spec fn field_names(fields: Seq<SafeField>) -> Seq<Seq<char>> {
    fields.map_values(|field: SafeField| field.name())
}

impl FailureView {
    /// What the failure prints.
    pub open spec fn text(self) -> Seq<char> {
        match self {
            FailureView::InvalidToken(field) => "invalid bounded "@ + field,
            FailureView::InvalidSentinel(kind) => "invalid "@ + kind.name() + " sentinel"@,
            FailureView::InvalidStreamLimit => "invalid stream capture limit"@,
            FailureView::NoExpectedStreams => "no expected diagnostic streams"@,
            FailureView::UnexpectedStream(role) => "unexpected stream role "@ + role,
            FailureView::AppendAfterClose(role) => "append after close for "@ + role,
            FailureView::CaptureOverflow(role, limit) => "capture overflow for "@ + role + " at "@
                + decimal(limit as nat) + " bytes"@,
            FailureView::SensitiveValue(role, kind) => "sensitive "@ + kind.name() + " value in "@
                + role,
            FailureView::DuplicateClose(role) => "duplicate close for "@ + role,
            FailureView::JoinedBeforeClose(role) => "join before close for "@ + role,
            FailureView::StreamNotClosed(role) => "stream not closed: "@ + role,
            FailureView::StreamNotJoined(role) => "stream not joined: "@ + role,
            FailureView::MissingStream(role) => "missing expected stream: "@ + role,
            FailureView::MissingSafeFields(fields) => "missing safe fields: "@ + joined(
                field_names(fields),
                ","@,
            ),
            FailureView::SafeFieldRoleNotExpected => "safe-field role was not an expected stream"@,
            FailureView::MixedSourceBuild => "matrix mixed source/build identities"@,
            FailureView::InvalidWindow => "invalid diagnostic window"@,
            FailureView::RunOutsideMatrix(run_id) => "run outside matrix window: "@ + run_id,
            FailureView::DuplicateMatrixCase(stage, outcome) => "duplicate "@ + stage.name() + " "@
                + outcome.name() + " matrix case"@,
            FailureView::MissingMatrixCase(stage, outcome) => "missing "@ + stage.name() + " "@
                + outcome.name() + " matrix case"@,
            FailureView::MissingPeerFault(requirement) => "missing peer fault tuple: "@
                + requirement_text(requirement),
            FailureView::InvalidPeerFault(reason) => "invalid peer fault table: "@ + reason,
        }
    }
}

fn two(a: &str, b: &str) -> (text: String)
    ensures
        text@ == a@ + b@,
{
    a.to_owned().concat(b)
}

fn three(a: &str, b: &str, c: &str) -> (text: String)
    ensures
        text@ == a@ + b@ + c@,
{
    a.to_owned().concat(b).concat(c)
}

fn five(a: &str, b: &str, c: &str, d: &str, e: &str) -> (text: String)
    ensures
        text@ == a@ + b@ + c@ + d@ + e@,
{
    a.to_owned().concat(b).concat(c).concat(d).concat(e)
}

fn join_fields(fields: &Vec<SafeField>) -> (text: String)
    ensures
        text@ == joined(field_names(fields@), ","@),
{
    let mut text = String::new();
    let ghost names = field_names(fields@);
    let mut i: usize = 0;
    assert(names.take(0) =~= Seq::<Seq<char>>::empty());
    while i < fields.len()
        invariant
            i <= fields.len(),
            names == field_names(fields@),
            text@ == joined(names.take(i as int), ","@),
        decreases fields.len() - i,
    {
        assert(names.take(i + 1).drop_last() =~= names.take(i as int));
        if i > 0 {
            text.append(",");
        }
        text.append(fields[i].label());
        assert(text@ =~= joined(names.take(i + 1), ","@));
        i += 1;
    }
    assert(names.take(i as int) =~= names);
    text
}

impl ScanFailure {
    /// What the failure prints.
    pub fn message(&self) -> (text: String)
        ensures
            text@ == self@.text(),
    {
        match self {
            ScanFailure::InvalidToken { field } => two("invalid bounded ", field),
            ScanFailure::InvalidSentinel { kind } => three("invalid ", kind.label(), " sentinel"),
            ScanFailure::InvalidStreamLimit => "invalid stream capture limit".to_owned(),
            ScanFailure::NoExpectedStreams => "no expected diagnostic streams".to_owned(),
            ScanFailure::UnexpectedStream { role } => two("unexpected stream role ", role.as_str()),
            ScanFailure::AppendAfterClose { role } => two("append after close for ", role.as_str()),
            ScanFailure::CaptureOverflow { role, limit } => {
                let number = decimal_text(*limit as u128);
                five("capture overflow for ", role.as_str(), " at ", number.as_str(), " bytes")
            },
            ScanFailure::SensitiveValue { role, kind } => {
                three("sensitive ", kind.label(), " value in ").concat(role.as_str())
            },
            ScanFailure::DuplicateClose { role } => two("duplicate close for ", role.as_str()),
            ScanFailure::JoinedBeforeClose { role } => two("join before close for ", role.as_str()),
            ScanFailure::StreamNotClosed { role } => two("stream not closed: ", role.as_str()),
            ScanFailure::StreamNotJoined { role } => two("stream not joined: ", role.as_str()),
            ScanFailure::MissingStream { role } => two("missing expected stream: ", role.as_str()),
            ScanFailure::MissingSafeFields { fields } => {
                let names = join_fields(fields);
                two("missing safe fields: ", names.as_str())
            },
            ScanFailure::SafeFieldRoleNotExpected => {
                "safe-field role was not an expected stream".to_owned()
            },
            ScanFailure::MixedSourceBuild => "matrix mixed source/build identities".to_owned(),
            ScanFailure::InvalidWindow => "invalid diagnostic window".to_owned(),
            ScanFailure::RunOutsideMatrix { run_id } => {
                two("run outside matrix window: ", run_id.as_str())
            },
            ScanFailure::DuplicateMatrixCase { stage, outcome } => {
                five("duplicate ", stage.label(), " ", outcome.label(), " matrix case")
            },
            ScanFailure::MissingMatrixCase { stage, outcome } => {
                five("missing ", stage.label(), " ", outcome.label(), " matrix case")
            },
            ScanFailure::MissingPeerFault { requirement } => {
                let text = requirement.to_text();
                two("missing peer fault tuple: ", text.as_str())
            },
            ScanFailure::InvalidPeerFault { reason } => {
                two("invalid peer fault table: ", reason)
            },
        }
    }
}

} // verus!
