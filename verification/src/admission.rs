//! The decisions of the public negative-admission gate.
//!
//! Every negative is classified from the bounded public error envelope and
//! from relay application-dispatch counters; no request body, token, or
//! response payload is part of the evidence.

use vstd::prelude::*;
use vstd::slice::*;
use vstd::string::*;
use vstd::utf8::*;

use crate::c10::{growth, label_debug, label_view, write_label};
use crate::error::{ErrorView, HarnessError};
use crate::json::{json_document, parse_document, Json, JsonView};
use crate::ordered::{
    lemma_entry, lemma_listing_exists, lemma_listing_is_unique, listing, OrderedMap,
};
use crate::rules::{all_hold, first_broken, lemma_first_broken, listed, Audit};
use crate::text::{decimal, decimal_text, join_texts, joined, same_bytes, same_text, views};

verus! {

/// The longest error body of a refused stream, in bytes.
pub const MAX_ERROR_BODY_BYTES: usize = 1024;

/// The longest echo body, in bytes.
pub const MAX_PUBLIC_ECHO_BODY_BYTES: usize = 65536;

/// The header by which a caller could try to name a tenant.
pub const FORGED_TENANT_HEADER: &'static str = "x-agent-tunnel-tenant-id";

/// The header by which a caller could try to name a device.
pub const FORGED_DEVICE_HEADER: &'static str = "x-agent-tunnel-device-id";

/// The header by which a caller could try to name a principal.
pub const FORGED_PRINCIPAL_HEADER: &'static str = "x-agent-tunnel-principal-id";

/// The header by which a caller could try to name a service.
pub const FORGED_SERVICE_HEADER: &'static str = "x-agent-tunnel-service-id";

/// The header by which a caller could try to name an owner.
pub const FORGED_OWNER_HEADER: &'static str = "x-agent-tunnel-owner-id";

/// Payload-free evidence from one public three-relay admission matrix.
#[derive(Clone, Debug, Eq, PartialEq)]
pub struct AdmissionEvidence {
    /// Number of relays before the selected-owner fault is injected.
    pub relay_count: usize,
    /// Application dispatches observed on the two selected owner actors after
    /// their baseline canaries.
    pub baseline_target_dispatches: u64,
    pub baseline_sibling_dispatches: u64,
    /// What the negatives advanced any relay's dispatch counter by.
    pub negative_dispatch_delta: u64,
    /// What a lookup that could not prove authorization dispatched.
    pub lookup_error_dispatch_delta: u64,
    /// What the surviving sibling owner dispatched after the selected owner's
    /// peer path was faulted: exactly one canary.
    pub sibling_dispatch_delta_after_owner_loss: u64,
    /// What the selected owner dispatched after its peer path was faulted.
    pub owner_loss_dispatch_delta: u64,
    pub absent_target_rejected: bool,
    pub inactive_target_rejected: bool,
    pub unknown_target_rejected: bool,
    pub selected_owner_unavailable: bool,
    pub route_allowlist_rejected: bool,
    pub forged_identity_headers_ignored: bool,
    /// An authenticated HTTPS echo ignored caller-supplied identity headers.
    pub forged_identity_http_headers_ignored: bool,
    /// An authenticated HTTPS echo rejected a cross-tenant target before any
    /// application dispatch.
    pub forged_identity_http_cross_scope_rejected: bool,
    pub lookup_error_rejected: bool,
    pub sibling_canary_survived: bool,
    /// Set only after all child processes, sockets, relays, the Redis
    /// namespace, and the Redis proxy have completed bounded cleanup.
    pub cleanup_joined: bool,
}

/// The flags that every complete run sets.
pub open spec fn flag_rules(evidence: AdmissionEvidence) -> Seq<(Seq<char>, bool)> {
    seq![
        ("absent_target_rejected"@, evidence.absent_target_rejected),
        ("inactive_target_rejected"@, evidence.inactive_target_rejected),
        ("unknown_target_rejected"@, evidence.unknown_target_rejected),
        ("selected_owner_unavailable"@, evidence.selected_owner_unavailable),
        ("route_allowlist_rejected"@, evidence.route_allowlist_rejected),
        ("forged_identity_headers_ignored"@, evidence.forged_identity_headers_ignored),
        ("forged_identity_http_headers_ignored"@, evidence.forged_identity_http_headers_ignored),
        (
            "forged_identity_http_cross_scope_rejected"@,
            evidence.forged_identity_http_cross_scope_rejected,
        ),
        ("lookup_error_rejected"@, evidence.lookup_error_rejected),
        ("sibling_canary_survived"@, evidence.sibling_canary_survived),
        ("cleanup_joined"@, evidence.cleanup_joined),
    ]
}

/// The first rule that the evidence does not keep.
pub open spec fn admission_failure(evidence: AdmissionEvidence) -> Option<Seq<char>> {
    if evidence.relay_count != 3 {
        Some(
            "public admission requires exactly three relays, observed "@ + decimal(
                evidence.relay_count as nat,
            ),
        )
    } else if first_broken(flag_rules(evidence)) is Some {
        Some(
            "public admission required gate "@ + first_broken(flag_rules(evidence))->Some_0
                + " was false"@,
        )
    } else if evidence.baseline_target_dispatches == 0 || evidence.baseline_sibling_dispatches
        == 0 {
        Some("baseline canaries did not advance both selected owner counters"@)
    } else if evidence.negative_dispatch_delta != 0 || evidence.lookup_error_dispatch_delta != 0 {
        Some(
            "negative admission dispatched application work: negative_delta="@ + decimal(
                evidence.negative_dispatch_delta as nat,
            ) + ", lookup_delta="@ + decimal(evidence.lookup_error_dispatch_delta as nat),
        )
    } else if evidence.owner_loss_dispatch_delta != 0 {
        Some(
            "selected-owner fault dispatched application work: delta="@ + decimal(
                evidence.owner_loss_dispatch_delta as nat,
            ),
        )
    } else if evidence.sibling_dispatch_delta_after_owner_loss != 1 {
        Some(
            "sibling canary dispatch count after selected-owner loss was "@ + decimal(
                evidence.sibling_dispatch_delta_after_owner_loss as nat,
            ) + ", expected one"@,
        )
    } else {
        None
    }
}

fn check_flags(evidence: &AdmissionEvidence) -> (broken: Option<&'static str>)
    ensures
        match broken {
            Some(name) => first_broken(flag_rules(*evidence)) == Some(name@),
            None => first_broken(flag_rules(*evidence)) is None,
        },
{
    let mut audit = Audit::new(Ghost(flag_rules(*evidence)));
    audit.hold("absent_target_rejected", evidence.absent_target_rejected);
    audit.hold("inactive_target_rejected", evidence.inactive_target_rejected);
    audit.hold("unknown_target_rejected", evidence.unknown_target_rejected);
    audit.hold("selected_owner_unavailable", evidence.selected_owner_unavailable);
    audit.hold("route_allowlist_rejected", evidence.route_allowlist_rejected);
    audit.hold("forged_identity_headers_ignored", evidence.forged_identity_headers_ignored);
    audit.hold(
        "forged_identity_http_headers_ignored",
        evidence.forged_identity_http_headers_ignored,
    );
    audit.hold(
        "forged_identity_http_cross_scope_rejected",
        evidence.forged_identity_http_cross_scope_rejected,
    );
    audit.hold("lookup_error_rejected", evidence.lookup_error_rejected);
    audit.hold("sibling_canary_survived", evidence.sibling_canary_survived);
    audit.hold("cleanup_joined", evidence.cleanup_joined);
    audit.broken()
}

pub(crate) fn numbered(head: &str, number: u64) -> (text: String)
    ensures
        text@ == head@ + decimal(number as nat),
{
    let digits = decimal_text(number as u128);
    head.to_owned().concat(digits.as_str())
}

/// Validates the mandatory public negative-admission evidence.
pub fn validate_admission_evidence(evidence: &AdmissionEvidence) -> (result: Result<
    (),
    HarnessError,
>)
    ensures
        match result {
            Ok(()) => admission_failure(*evidence) is None,
            Err(error) => error@ is Process && admission_failure(*evidence) == Some(
                error@->Process_0,
            ),
        },
{
    if evidence.relay_count != 3 {
        return Err(
            HarnessError::Process(
                numbered(
                    "public admission requires exactly three relays, observed ",
                    evidence.relay_count as u64,
                ),
            ),
        );
    }
    match check_flags(evidence) {
        Some(name) => {
            return Err(
                HarnessError::Process(
                    "public admission required gate ".to_owned().concat(name).concat(" was false"),
                ),
            );
        },
        None => {},
    }
    if evidence.baseline_target_dispatches == 0 || evidence.baseline_sibling_dispatches == 0 {
        return Err(
            HarnessError::process("baseline canaries did not advance both selected owner counters"),
        );
    }
    if evidence.negative_dispatch_delta != 0 || evidence.lookup_error_dispatch_delta != 0 {
        let lookup = decimal_text(evidence.lookup_error_dispatch_delta as u128);
        return Err(
            HarnessError::Process(
                numbered(
                    "negative admission dispatched application work: negative_delta=",
                    evidence.negative_dispatch_delta,
                ).concat(", lookup_delta=").concat(lookup.as_str()),
            ),
        );
    }
    if evidence.owner_loss_dispatch_delta != 0 {
        return Err(
            HarnessError::Process(
                numbered(
                    "selected-owner fault dispatched application work: delta=",
                    evidence.owner_loss_dispatch_delta,
                ),
            ),
        );
    }
    if evidence.sibling_dispatch_delta_after_owner_loss != 1 {
        return Err(
            HarnessError::Process(
                numbered(
                    "sibling canary dispatch count after selected-owner loss was ",
                    evidence.sibling_dispatch_delta_after_owner_loss,
                ).concat(", expected one"),
            ),
        );
    }
    Ok(())
}

/// Evidence that passes shows that no negative dispatched anything, that the
/// surviving sibling dispatched exactly once, and that every flag was set.
pub proof fn lemma_passing_evidence(evidence: AdmissionEvidence)
    ensures
        admission_failure(evidence) is None <==> evidence.relay_count == 3
            && all_hold(flag_rules(evidence)) && evidence.baseline_target_dispatches
            > 0 && evidence.baseline_sibling_dispatches > 0 && evidence.negative_dispatch_delta
            == 0 && evidence.lookup_error_dispatch_delta == 0
            && evidence.owner_loss_dispatch_delta == 0
            && evidence.sibling_dispatch_delta_after_owner_loss == 1,
{
    lemma_first_broken(flag_rules(evidence));
}

/// Evidence passes exactly when it measured this, field by field.
pub proof fn lemma_passing_evidence_measured(evidence: AdmissionEvidence)
    ensures
        admission_failure(evidence) is None <==> {
            &&& evidence.relay_count == 3
            &&& evidence.absent_target_rejected
            &&& evidence.inactive_target_rejected
            &&& evidence.unknown_target_rejected
            &&& evidence.selected_owner_unavailable
            &&& evidence.route_allowlist_rejected
            &&& evidence.forged_identity_headers_ignored
            &&& evidence.forged_identity_http_headers_ignored
            &&& evidence.forged_identity_http_cross_scope_rejected
            &&& evidence.lookup_error_rejected
            &&& evidence.sibling_canary_survived
            &&& evidence.cleanup_joined
            &&& evidence.baseline_target_dispatches >= 1
            &&& evidence.baseline_sibling_dispatches >= 1
            &&& evidence.negative_dispatch_delta == 0
            &&& evidence.lookup_error_dispatch_delta == 0
            &&& evidence.owner_loss_dispatch_delta == 0
            &&& evidence.sibling_dispatch_delta_after_owner_loss == 1
        },
{
    let rules = flag_rules(evidence);
    lemma_first_broken(rules);
    assert(rules.len() == 11);
    if all_hold(rules) {
        assert(rules[0].1 && rules[1].1 && rules[2].1 && rules[3].1 && rules[4].1 && rules[5].1
            && rules[6].1 && rules[7].1 && rules[8].1 && rules[9].1 && rules[10].1);
    }
}

/// One step of a cleanup, and how it failed, if it did.
pub struct CleanupStep {
    pub label: String,
    pub failure: Option<HarnessError>,
}

/// The failed steps of a cleanup, in words.
pub open spec fn failed_steps(steps: Seq<CleanupStep>) -> Seq<Seq<char>>
    decreases steps.len(),
{
    if steps.len() == 0 {
        Seq::empty()
    } else {
        let front = failed_steps(steps.drop_last());
        match steps.last().failure {
            Some(error) => front.push(steps.last().label@ + ": "@ + error@.text()),
            None => front,
        }
    }
}

/// The failed steps of a cleanup are told one by one: those of two lists in a
/// row are those of each, a step that failed gives its label and its error, and
/// one that did not gives nothing.
pub proof fn lemma_failed_steps(first: Seq<CleanupStep>, second: Seq<CleanupStep>, step: CleanupStep)
    ensures
        failed_steps(first + second) == failed_steps(first) + failed_steps(second),
        step.failure is None ==> failed_steps(seq![step]).len() == 0,
        step.failure matches Some(error) ==> failed_steps(seq![step]) == seq![
            step.label@ + ": "@ + error@.text(),
        ],
    decreases second.len(),
{
    reveal_with_fuel(failed_steps, 2);
    assert(seq![step].drop_last() =~= Seq::empty());
    if second.len() == 0 {
        assert(first + second =~= first);
        assert(failed_steps(first) + failed_steps(second) =~= failed_steps(first));
    } else {
        assert((first + second).drop_last() =~= first + second.drop_last());
        lemma_failed_steps(first, second.drop_last(), step);
        assert(failed_steps(first + second) =~= failed_steps(first) + failed_steps(second));
    }
    if step.failure is Some {
        assert(failed_steps(seq![step]) =~= seq![
            step.label@ + ": "@ + step.failure->Some_0@.text(),
        ]);
    }
}

/// A failure together with what failed while cleaning up after it.  Without a
/// cleanup failure it is the failure itself.
pub fn with_admission_cleanup_failures(primary: HarnessError, steps: &Vec<CleanupStep>) -> (error:
    HarnessError)
    ensures
        error@ == if failed_steps(steps@).len() == 0 {
            primary@
        } else {
            ErrorView::Process(
                primary@.text() + "; cleanup failures: "@ + joined(failed_steps(steps@), "; "@),
            )
        },
{
    let mut failures: Vec<String> = Vec::new();
    let mut i: usize = 0;
    assert(steps@.take(0) =~= Seq::<CleanupStep>::empty());
    assert(views(failures@) =~= failed_steps(steps@.take(0)));
    while i < steps.len()
        invariant
            i <= steps.len(),
            views(failures@) == failed_steps(steps@.take(i as int)),
        decreases steps.len() - i,
    {
        let ghost before = failures@;
        assert(steps@.take(i + 1).drop_last() =~= steps@.take(i as int));
        match &steps[i].failure {
            Some(error) => {
                let printed = error.message();
                let text = steps[i].label.clone().concat(": ").concat(printed.as_str());
                failures.push(text);
                assert(views(failures@) =~= views(before).push(text@));
            },
            None => {},
        }
        i += 1;
    }
    assert(steps@.take(i as int) =~= steps@);
    assert(views(failures@).len() == failures@.len());
    if failures.len() == 0 {
        return primary;
    }
    let printed = primary.message();
    let list = join_texts(&failures, "; ");
    HarnessError::Process(printed.concat("; cleanup failures: ").concat(list.as_str()))
}

/// The error codes that a public failure may name.
pub const KNOWN_CODES: [&'static str; 19] = [
    "ADMISSION_LIMIT",
    "BODY_LIMIT",
    "BODY_TIMEOUT",
    "DEVICE_NOT_FOUND",
    "DEVICE_MTLS_REQUIRED",
    "DATA_TICKET_REQUIRED",
    "FORBIDDEN",
    "NOT_FOUND",
    "REVERSE_CHANNEL_INTERRUPTED",
    "REVERSE_CHANNEL_UNAVAILABLE",
    "SERVICE_NOT_FOUND",
    "SOCKET_LIMIT",
    "STREAM_LIMIT",
    "AUTHORIZATION_UNAVAILABLE",
    "CLUSTER_UNREADY",
    "UNAUTHORIZED",
    "PEER_UNAVAILABLE",
    "PEER_UNTRUSTED",
    "SUBPROTOCOL_REQUIRED",
];

/// The executions that a public failure may name.
pub const KNOWN_EXECUTIONS: [&'static str; 2] = ["not_dispatched", "unknown"];

/// The word itself, if it is one of `words`.
pub open spec fn known(words: Seq<&'static str>, word: Seq<char>) -> Option<Seq<char>> {
    if listed(words, word) {
        Some(word)
    } else {
        None
    }
}

fn find_known(words: &[&'static str], word: &str) -> (found: Option<&'static str>)
    ensures
        match found {
            Some(label) => known(words@, word@) == Some(label@),
            None => known(words@, word@) is None,
        },
{
    let mut i: usize = 0;
    while i < words.len()
        invariant
            i <= words.len(),
            forall|k: int| 0 <= k < i ==> (#[trigger] words@[k])@ != word@,
        decreases words.len() - i,
    {
        if same_text(words[i], word) {
            return Some(words[i]);
        }
        i += 1;
    }
    None
}

/// The error code, if it is a known one.
pub fn known_failure_code(value: &str) -> (code: Option<&'static str>)
    ensures
        match code {
            Some(code) => known(KNOWN_CODES@, value@) == Some(code@),
            None => known(KNOWN_CODES@, value@) is None,
        },
{
    find_known(KNOWN_CODES.as_slice(), value)
}

/// The execution, if it is a known one.
pub fn known_execution(value: &str) -> (execution: Option<&'static str>)
    ensures
        match execution {
            Some(execution) => known(KNOWN_EXECUTIONS@, value@) == Some(execution@),
            None => known(KNOWN_EXECUTIONS@, value@) is None,
        },
{
    find_known(KNOWN_EXECUTIONS.as_slice(), value)
}

/// A public failure, in known labels only.
#[derive(Clone, Debug, Eq, PartialEq)]
pub struct AdmissionFailure {
    pub status: u16,
    pub code: Option<&'static str>,
    pub execution: Option<&'static str>,
}

/// The model of a public failure.
pub struct FailedAdmission {
    pub status: u16,
    pub code: Option<Seq<char>>,
    pub execution: Option<Seq<char>>,
}

impl View for AdmissionFailure {
    type V = FailedAdmission;

    open spec fn view(&self) -> FailedAdmission {
        FailedAdmission {
            status: self.status,
            code: label_view(self.code),
            execution: label_view(self.execution),
        }
    }
}

/// The known label under `key`.
pub open spec fn known_at(
    value: JsonView,
    key: Seq<char>,
    words: Seq<&'static str>,
) -> Option<Seq<char>> {
    match value.text_of(key) {
        Some(text) => known(words, text),
        None => None,
    }
}

/// The failure that an error body names.
pub open spec fn failure_of(status: u16, value: JsonView) -> FailedAdmission {
    FailedAdmission {
        status,
        code: known_at(value, "code"@, KNOWN_CODES@),
        execution: known_at(value, "execution"@, KNOWN_EXECUTIONS@),
    }
}

/// A failure says of its body only what the vocabularies have: a code or an
/// execution is kept word for word where it is known, and otherwise dropped.
pub proof fn lemma_failure_labels(status: u16, value: JsonView, label: Seq<char>)
    ensures
        failure_of(status, value).status == status,
        failure_of(status, value).code == Some(label) <==> value.text_of("code"@) == Some(label)
            && exists|i: int| 0 <= i < KNOWN_CODES@.len() && (#[trigger] KNOWN_CODES@[i])@ == label,
        failure_of(status, value).execution == Some(label) <==> value.text_of("execution"@) == Some(
            label,
        ) && (label == "not_dispatched"@ || label == "unknown"@),
{
    let words = KNOWN_EXECUTIONS@;
    assert(words[0]@ == "not_dispatched"@ && words[1]@ == "unknown"@);
    assert(words.len() == 2);
}

/// The failure that a parsed error body names.
pub fn read_failure(status: u16, value: &Json) -> (failure: AdmissionFailure)
    ensures
        failure@ == failure_of(status, value@),
{
    let code = match value.text_of("code") {
        Some(text) => known_failure_code(text),
        None => None,
    };
    let execution = match value.text_of("execution") {
        Some(text) => known_execution(text),
        None => None,
    };
    AdmissionFailure { status, code, execution }
}

/// The failure of an echo, or the error of an answer that is not one.
///
/// A successful echo is no failure: it has neither code nor execution.
pub fn echo_failure(status: u16, body: &[u8]) -> (result: Result<AdmissionFailure, HarnessError>)
    ensures
        match result {
            Ok(failure) => if status == 200 {
                failure@ == (FailedAdmission { status, code: None, execution: None })
            } else {
                json_document(body@) is Some && failure@ == failure_of(
                    status,
                    json_document(body@)->Some_0,
                )
            },
            Err(error) => status != 200 && json_document(body@) is None && error@
                == ErrorView::Http("public admission echo error was not bounded JSON"@),
        },
{
    if status == 200 {
        return Ok(AdmissionFailure { status, code: None, execution: None });
    }
    match parse_document(body) {
        Some(value) => Ok(read_failure(status, &value)),
        None => Err(HarnessError::http("public admission echo error was not bounded JSON")),
    }
}

/// The failure of a refused stream, or the error of an answer that is not one.
pub fn stream_rejection(status: u16, body: &[u8]) -> (result: Result<
    AdmissionFailure,
    HarnessError,
>)
    ensures
        match result {
            Ok(failure) => body@.len() <= MAX_ERROR_BODY_BYTES && json_document(body@) is Some
                && failure@ == failure_of(status, json_document(body@)->Some_0),
            Err(error) => if body@.len() > MAX_ERROR_BODY_BYTES {
                error@ == ErrorView::Http("public admission error body exceeded its bound"@)
            } else {
                json_document(body@) is None && error@ == ErrorView::Http(
                    "public admission error was not bounded JSON"@,
                )
            },
        },
{
    if body.len() > MAX_ERROR_BODY_BYTES {
        return Err(HarnessError::http("public admission error body exceeded its bound"));
    }
    match parse_document(body) {
        Some(value) => Ok(read_failure(status, &value)),
        None => Err(HarnessError::http("public admission error was not bounded JSON")),
    }
}

/// The label, or a default.
pub open spec fn label_or(label: Option<Seq<char>>, otherwise: Seq<char>) -> Seq<char> {
    match label {
        Some(text) => text,
        None => otherwise,
    }
}

/// The failure of a forged-header echo, in words.
pub open spec fn corpus_text(
    ingress: Seq<char>,
    corpus: Seq<char>,
    failure: FailedAdmission,
) -> Seq<char> {
    "public admission HTTPS forged-header echo failed: ingress="@ + ingress + ",corpus="@ + corpus
        + ",status="@ + decimal(failure.status as nat) + ",code="@ + label_or(
        failure.code,
        "UNKNOWN"@,
    ) + ",execution="@ + label_or(failure.execution, "unknown"@)
}

/// The error of a forged-header echo that was refused with this document.
pub fn forged_echo_error(ingress: &str, corpus: &str, status: u16, value: &Json) -> (error:
    HarnessError)
    ensures
        error@ == ErrorView::Http(corpus_text(ingress@, corpus@, failure_of(status, value@))),
{
    let failure = read_failure(status, value);
    let number = decimal_text(status as u128);
    let code = match failure.code {
        Some(code) => code,
        None => "UNKNOWN",
    };
    let execution = match failure.execution {
        Some(execution) => execution,
        None => "unknown",
    };
    HarnessError::Http(
        "public admission HTTPS forged-header echo failed: ingress=".to_owned().concat(
            ingress,
        ).concat(",corpus=").concat(corpus).concat(",status=").concat(number.as_str()).concat(
            ",code=",
        ).concat(code).concat(",execution=").concat(execution),
    )
}

/// Whether a forged-header echo succeeded.
pub fn check_forged_echo(ingress: &str, corpus: &str, status: u16, body: &[u8]) -> (result: Result<
    (),
    HarnessError,
>)
    ensures
        match result {
            Ok(()) => status == 200,
            Err(error) => status != 200 && error@ == ErrorView::Http(
                match json_document(body@) {
                    Some(value) => corpus_text(ingress@, corpus@, failure_of(status, value)),
                    None =>
                        "public admission HTTPS forged-header response was not bounded JSON: ingress="@
                        + ingress@ + ",corpus="@ + corpus@ + ",status="@ + decimal(status as nat),
                },
            ),
        },
{
    if status == 200 {
        return Ok(());
    }
    match parse_document(body) {
        Some(value) => Err(forged_echo_error(ingress, corpus, status, &value)),
        None => {
            let number = decimal_text(status as u128);
            Err(
                HarnessError::Http(
                    "public admission HTTPS forged-header response was not bounded JSON: ingress=".to_owned().concat(
                    ingress).concat(",corpus=").concat(corpus).concat(",status=").concat(
                        number.as_str(),
                    ),
                ),
            )
        },
    }
}

/// The label is one of two words.
pub open spec fn is_either(label: Option<Seq<char>>, a: Seq<char>, b: Seq<char>) -> bool {
    label == Some(a) || label == Some(b)
}

fn is_label(label: Option<&'static str>, word: &str) -> (same: bool)
    ensures
        same == (label_view(label) == Some(word@)),
{
    match label {
        Some(text) => same_text(text, word),
        None => false,
    }
}

/// A failure that a lookup which could not prove authorization gives.
pub open spec fn is_lookup(failure: FailedAdmission) -> bool {
    &&& (failure.status == 401 && failure.code == Some("UNAUTHORIZED"@)) || (failure.status == 503
        && is_either(failure.code, "AUTHORIZATION_UNAVAILABLE"@, "CLUSTER_UNREADY"@))
    &&& is_either(failure.execution, "not_dispatched"@, "unknown"@)
}

/// Whether a failure is that of a lookup which could not prove authorization.
pub fn is_lookup_failure(failure: &AdmissionFailure) -> (answer: bool)
    ensures
        answer == is_lookup(failure@),
{
    ((failure.status == 401 && is_label(failure.code, "UNAUTHORIZED")) || (failure.status == 503
        && (is_label(failure.code, "AUTHORIZATION_UNAVAILABLE") || is_label(
        failure.code,
        "CLUSTER_UNREADY",
    )))) && (is_label(failure.execution, "not_dispatched") || is_label(
        failure.execution,
        "unknown",
    ))
}

/// A failure that an unreachable selected owner gives.
pub open spec fn is_owner_loss(failure: FailedAdmission) -> bool {
    &&& failure.status == 503
    &&& is_either(failure.code, "PEER_UNAVAILABLE"@, "PEER_UNTRUSTED"@)
    &&& is_either(failure.execution, "not_dispatched"@, "unknown"@)
}

/// Whether a failure is that of an unreachable selected owner.
pub fn is_selected_owner_failure(failure: &AdmissionFailure) -> (answer: bool)
    ensures
        answer == is_owner_loss(failure@),
{
    failure.status == 503 && (is_label(failure.code, "PEER_UNAVAILABLE") || is_label(
        failure.code,
        "PEER_UNTRUSTED",
    )) && (is_label(failure.execution, "not_dispatched") || is_label(failure.execution, "unknown"))
}

/// The two classes of failure exclude each other, and neither is a success.
pub proof fn lemma_failure_classes(failure: FailedAdmission)
    ensures
        !(is_lookup(failure) && is_owner_loss(failure)),
        failure.status == 200 ==> !is_lookup(failure) && !is_owner_loss(failure),
{
    reveal_strlit("AUTHORIZATION_UNAVAILABLE");
    reveal_strlit("CLUSTER_UNREADY");
    reveal_strlit("PEER_UNAVAILABLE");
    reveal_strlit("PEER_UNTRUSTED");
    assert("AUTHORIZATION_UNAVAILABLE"@[0] == 'A');
    assert("CLUSTER_UNREADY"@[0] == 'C');
    assert("PEER_UNAVAILABLE"@[0] == 'P');
    assert("PEER_UNTRUSTED"@[0] == 'P');
}

/// Which answers count as a lookup that failed closed, and which as a lost
/// owner, status by status.  A dispatched execution is never either.
pub proof fn lemma_failure_statuses(failure: FailedAdmission)
    ensures
        failure.status != 401 && failure.status != 503 ==> !is_lookup(failure),
        failure.status != 503 ==> !is_owner_loss(failure),
        failure.execution != Some("not_dispatched"@) && failure.execution != Some("unknown"@)
            ==> !is_lookup(failure) && !is_owner_loss(failure),
        failure.execution == Some("not_dispatched"@) || failure.execution == Some("unknown"@) ==> {
            &&& failure.status == 401 ==> (is_lookup(failure) <==> failure.code == Some(
                "UNAUTHORIZED"@,
            ))
            &&& failure.status == 503 ==> (is_lookup(failure) <==> (failure.code == Some(
                "AUTHORIZATION_UNAVAILABLE"@,
            ) || failure.code == Some("CLUSTER_UNREADY"@)))
            &&& failure.status == 503 ==> (is_owner_loss(failure) <==> (failure.code == Some(
                "PEER_UNAVAILABLE"@,
            ) || failure.code == Some("PEER_UNTRUSTED"@)))
        },
{
}

/// Whether an echo returned the canary followed by exactly the payload.
pub fn echo_body_matches(response: &[u8], canary: &[u8], payload: &[u8]) -> (matches: bool)
    ensures
        matches == (response@ == canary@ + payload@),
{
    if response.len() < canary.len() || response.len() - canary.len() != payload.len() {
        assert(response@.len() != (canary@ + payload@).len());
        return false;
    }
    let head = slice_subrange(response, 0, canary.len());
    let tail = slice_subrange(response, canary.len(), response.len());
    let matches = same_bytes(head, canary) && same_bytes(tail, payload);
    proof {
        let whole = canary@ + payload@;
        if matches {
            assert(response@ =~= head@ + tail@);
        } else if response@ == whole {
            assert(head@ =~= canary@);
            assert(tail@ =~= payload@);
        }
    }
    matches
}

/// The error of a mismatched forged-header echo.
pub fn echo_mismatch(ingress: &str, corpus: &str, response: usize, canary: usize, request: usize) -> (error:
    HarnessError)
    ensures
        error@ == ErrorView::Process(
            "public admission HTTPS forged-header body mismatch: ingress="@ + ingress@ + ",corpus="@
                + corpus@ + ",response_len="@ + decimal(response as nat) + ",canary_len="@
                + decimal(canary as nat) + ",request_len="@ + decimal(request as nat),
        ),
{
    let a = decimal_text(response as u128);
    let b = decimal_text(canary as u128);
    let c = decimal_text(request as u128);
    HarnessError::Process(
        "public admission HTTPS forged-header body mismatch: ingress=".to_owned().concat(
            ingress,
        ).concat(",corpus=").concat(corpus).concat(",response_len=").concat(a.as_str()).concat(
            ",canary_len=",
        ).concat(b.as_str()).concat(",request_len=").concat(c.as_str()),
    )
}

/// The class of an error, as a label.
pub open spec fn error_kind(error: ErrorView) -> Seq<char> {
    match error {
        ErrorView::Timeout(_) => "timeout"@,
        ErrorView::Http(_) => "http"@,
        ErrorView::Io(_) => "io"@,
        ErrorView::Json(_) => "json"@,
        ErrorView::InvalidInput(_) => "invalid_input"@,
        ErrorView::Process(_) => "process"@,
        ErrorView::CliExitedBeforeReady(_) => "cli_exited_before_ready"@,
        ErrorView::Redis(_) => "redis"@,
        ErrorView::Proxy(_) => "proxy"@,
        ErrorView::Pki(_) => "pki"@,
        ErrorView::Jwt(_) => "jwt"@,
        ErrorView::MissingRedisUrl(_) => "missing_redis_url"@,
        ErrorView::InvalidRedisUrl(_) => "invalid_redis_url"@,
        ErrorView::Unsupported(_) => "unsupported"@,
    }
}

/// The class of an error, as a label that carries nothing of its text.
pub fn admission_error_kind(error: &HarnessError) -> (kind: &'static str)
    ensures
        kind@ == error_kind(error@),
{
    match error {
        HarnessError::Timeout(_) => "timeout",
        HarnessError::Http(_) => "http",
        HarnessError::Io(_) => "io",
        HarnessError::Json(_) => "json",
        HarnessError::InvalidInput(_) => "invalid_input",
        HarnessError::Process(_) => "process",
        HarnessError::CliExitedBeforeReady(_) => "cli_exited_before_ready",
        HarnessError::Redis(_) => "redis",
        HarnessError::Proxy(_) => "proxy",
        HarnessError::Pki(_) => "pki",
        HarnessError::Jwt(_) => "jwt",
        HarnessError::MissingRedisUrl(_) => "missing_redis_url",
        HarnessError::InvalidRedisUrl(_) => "invalid_redis_url",
        HarnessError::Unsupported(_) => "unsupported",
    }
}

/// What the counters of the nodes of `keys` that both readings have grew by,
/// in all.
pub open spec fn common_growth(
    keys: Seq<Seq<char>>,
    before: Map<Seq<char>, u64>,
    after: Map<Seq<char>, u64>,
) -> nat
    decreases keys.len(),
{
    if keys.len() == 0 {
        0
    } else {
        let node = keys.last();
        common_growth(keys.drop_last(), before, after) + if after.dom().contains(node) {
            growth(after[node], before[node]) as nat
        } else {
            0
        }
    }
}

/// A sum, or the greatest number where it does not fit.
pub open spec fn capped(sum: nat) -> u64 {
    if sum > u64::MAX {
        u64::MAX
    } else {
        sum as u64
    }
}

/// What the dispatch counters of the relays that both readings have advanced
/// by, in all.
pub fn common_dispatch_delta(before: &OrderedMap<String, u64>, after: &OrderedMap<String, u64>) -> (delta:
    u64)
    requires
        before.wf(),
        after.wf(),
    ensures
        delta == capped(common_growth(listing::<String>(before@.dom()), before@, after@)),
        delta == 0 <==> forall|relay: Seq<char>| #[trigger]
            before@.dom().contains(relay) && after@.dom().contains(relay) ==> after@[relay]
                <= before@[relay],
        forall|relay: Seq<char>| #[trigger]
            before@.dom().contains(relay) && after@.dom().contains(relay) ==> delta + before@[relay]
                >= after@[relay],
{
    let ghost keys = before.keys();
    let mut delta: u64 = 0;
    let mut i: usize = 0;
    assert(keys.take(0) =~= Seq::<Seq<char>>::empty());
    while i < before.len()
        invariant
            before.wf(),
            after.wf(),
            keys == before.keys(),
            i <= keys.len(),
            delta == capped(common_growth(keys.take(i as int), before@, after@)),
        decreases keys.len() - i,
    {
        proof {
            lemma_entry(*before, i as int);
            assert(keys.take(i + 1).drop_last() =~= keys.take(i as int));
            assert(keys.take(i + 1).last() == keys[i as int]);
        }
        match after.get(before.key_at(i)) {
            Some(observed) => {
                let grown = observed.saturating_sub(*before.value_at(i));
                delta = delta.saturating_add(grown);
            },
            None => {},
        }
        i += 1;
    }
    proof {
        assert(keys.take(i as int) =~= keys);
        assert(keys.to_set() =~= before@.dom());
        lemma_listing_is_unique::<String>(keys, before@.dom());
        lemma_no_dispatch(before@, after@);
        assert forall|relay: Seq<char>| #[trigger]
            before@.dom().contains(relay) && after@.dom().contains(relay) implies delta
            + before@[relay] >= after@[relay] by {
            lemma_common_delta_covers_each(before@, after@, relay);
        }
    }
    delta
}

proof fn lemma_common_growth_is_zero(
    keys: Seq<Seq<char>>,
    before: Map<Seq<char>, u64>,
    after: Map<Seq<char>, u64>,
)
    ensures
        common_growth(keys, before, after) == 0 <==> forall|i: int|
            0 <= i < keys.len() && after.dom().contains(#[trigger] keys[i]) ==> after[keys[i]]
                <= before[keys[i]],
    decreases keys.len(),
{
    if keys.len() > 0 {
        let front = keys.drop_last();
        lemma_common_growth_is_zero(front, before, after);
        assert forall|i: int| 0 <= i < front.len() implies #[trigger] front[i] == keys[i] by {}
        if common_growth(keys, before, after) == 0 {
            assert forall|i: int|
                0 <= i < keys.len() && after.dom().contains(#[trigger] keys[i]) implies after[keys[i]]
                <= before[keys[i]] by {
                if i < front.len() {
                    assert(front[i] == keys[i]);
                }
            }
        }
        if forall|i: int|
            0 <= i < keys.len() && after.dom().contains(#[trigger] keys[i]) ==> after[keys[i]]
                <= before[keys[i]] {
            assert(keys[keys.len() - 1] == keys.last());
            assert forall|i: int|
                0 <= i < front.len() && after.dom().contains(#[trigger] front[i]) implies after[front[i]]
                <= before[front[i]] by {
                assert(front[i] == keys[i]);
            }
        }
    }
}

/// The common delta is zero exactly when no relay that both readings have
/// advanced.
pub proof fn lemma_no_dispatch(before: Map<Seq<char>, u64>, after: Map<Seq<char>, u64>)
    requires
        before.dom().finite(),
    ensures
        capped(common_growth(listing::<String>(before.dom()), before, after)) == 0 <==> forall|
            node: Seq<char>,
        | #[trigger]
            before.dom().contains(node) && after.dom().contains(node) ==> after[node]
                <= before[node],
{
    lemma_listing_exists::<String>(before.dom());
    let keys = listing::<String>(before.dom());
    lemma_common_growth_is_zero(keys, before, after);
    if common_growth(keys, before, after) == 0 {
        assert forall|node: Seq<char>| #[trigger]
            before.dom().contains(node) && after.dom().contains(node) implies after[node]
            <= before[node] by {
            assert(keys.to_set().contains(node));
            let i = choose|i: int| 0 <= i < keys.len() && keys[i] == node;
            assert(after.dom().contains(keys[i]));
        }
    }
    if forall|node: Seq<char>| #[trigger]
        before.dom().contains(node) && after.dom().contains(node) ==> after[node] <= before[node] {
        assert forall|i: int|
            0 <= i < keys.len() && after.dom().contains(#[trigger] keys[i]) implies after[keys[i]]
            <= before[keys[i]] by {
            assert(keys.to_set().contains(keys[i]));
            assert(before.dom().contains(keys[i]));
        }
    }
}

/// The common advance adds up relay by relay, whatever the order: two lists of
/// relays in a row advance by what each does, and one relay by its own counter
/// where both readings have it and it climbed, and otherwise by nothing.
pub proof fn lemma_common_growth_adds_up(
    first: Seq<Seq<char>>,
    second: Seq<Seq<char>>,
    relay: Seq<char>,
    before: Map<Seq<char>, u64>,
    after: Map<Seq<char>, u64>,
)
    ensures
        common_growth(first + second, before, after) == common_growth(first, before, after)
            + common_growth(second, before, after),
        common_growth(seq![relay], before, after) == if after.dom().contains(relay)
            && after[relay] > before[relay] {
            after[relay] - before[relay]
        } else {
            0
        },
    decreases second.len(),
{
    reveal_with_fuel(common_growth, 2);
    assert(seq![relay].drop_last() =~= Seq::empty());
    if second.len() == 0 {
        assert(first + second =~= first);
    } else {
        assert((first + second).drop_last() =~= first + second.drop_last());
        lemma_common_growth_adds_up(first, second.drop_last(), relay, before, after);
    }
}

/// The common delta is at least what each relay that both readings have
/// advanced by.
pub proof fn lemma_common_delta_covers_each(
    before: Map<Seq<char>, u64>,
    after: Map<Seq<char>, u64>,
    relay: Seq<char>,
)
    requires
        before.dom().finite(),
        before.dom().contains(relay),
        after.dom().contains(relay),
    ensures
        capped(common_growth(listing::<String>(before.dom()), before, after)) + before[relay]
            >= after[relay],
{
    lemma_listing_exists::<String>(before.dom());
    let keys = listing::<String>(before.dom());
    assert(keys.to_set().contains(relay));
    let i = choose|i: int| 0 <= i < keys.len() && keys[i] == relay;
    lemma_common_growth_adds_up(keys.take(i), keys.skip(i), relay, before, after);
    assert(keys.take(i) + keys.skip(i) =~= keys);
    lemma_common_growth_adds_up(seq![relay], keys.skip(i + 1), relay, before, after);
    assert(seq![relay] + keys.skip(i + 1) =~= keys.skip(i));
}

/// A counter, and zero where a reading lacks it.
pub open spec fn counter_at(reading: Map<Seq<char>, u64>, node: Seq<char>) -> u64 {
    if reading.dom().contains(node) {
        reading[node]
    } else {
        0
    }
}

fn counter_of(reading: &OrderedMap<String, u64>, node: &String) -> (count: u64)
    requires
        reading.wf(),
    ensures
        count == counter_at(reading@, node@),
{
    match reading.get(node) {
        Some(count) => *count,
        None => 0,
    }
}

/// What one relay's dispatch counter advanced by.
pub fn node_dispatch_delta(
    before: &OrderedMap<String, u64>,
    after: &OrderedMap<String, u64>,
    node: &String,
) -> (delta: u64)
    requires
        before.wf(),
        after.wf(),
    ensures
        delta == growth(counter_at(after@, node@), counter_at(before@, node@)),
        !after@.dom().contains(node@) ==> delta == 0,
        after@.dom().contains(node@) && !before@.dom().contains(node@) ==> delta == after@[node@],
        after@.dom().contains(node@) && before@.dom().contains(node@) ==> delta == if after@[node@]
            > before@[node@] {
            after@[node@] - before@[node@]
        } else {
            0
        },
{
    let observed = counter_of(after, node);
    observed.saturating_sub(counter_of(before, node))
}

/// What the counters of the nodes of `keys` other than `node` grew by, in all.
pub open spec fn other_growth(
    keys: Seq<Seq<char>>,
    before: Map<Seq<char>, u64>,
    after: Map<Seq<char>, u64>,
    node: Seq<char>,
) -> nat
    decreases keys.len(),
{
    if keys.len() == 0 {
        0
    } else {
        let other = keys.last();
        other_growth(keys.drop_last(), before, after, node) + if other != node {
            growth(after[other], counter_at(before, other)) as nat
        } else {
            0
        }
    }
}

/// The advance of the other relays adds up relay by relay, whatever the order:
/// two lists of relays in a row advance by what each does, and one relay by its
/// own counter, from zero where the first reading lacks it.  The node itself
/// adds nothing.
pub proof fn lemma_other_growth_adds_up(
    first: Seq<Seq<char>>,
    second: Seq<Seq<char>>,
    relay: Seq<char>,
    before: Map<Seq<char>, u64>,
    after: Map<Seq<char>, u64>,
    node: Seq<char>,
)
    ensures
        other_growth(first + second, before, after, node) == other_growth(
            first,
            before,
            after,
            node,
        ) + other_growth(second, before, after, node),
        other_growth(seq![relay], before, after, node) == if relay == node {
            0
        } else if !before.dom().contains(relay) {
            after[relay] as int
        } else if after[relay] > before[relay] {
            after[relay] - before[relay]
        } else {
            0
        },
    decreases second.len(),
{
    reveal_with_fuel(other_growth, 2);
    assert(seq![relay].drop_last() =~= Seq::empty());
    if second.len() == 0 {
        assert(first + second =~= first);
    } else {
        assert((first + second).drop_last() =~= first + second.drop_last());
        lemma_other_growth_adds_up(first, second.drop_last(), relay, before, after, node);
    }
}

/// The delta of the other relays is at least what each of them advanced by,
/// from zero where the first reading lacks it.
pub proof fn lemma_other_delta_covers_each(
    before: Map<Seq<char>, u64>,
    after: Map<Seq<char>, u64>,
    node: Seq<char>,
    relay: Seq<char>,
)
    requires
        after.dom().finite(),
        after.dom().contains(relay),
        relay != node,
    ensures
        before.dom().contains(relay) ==> capped(
            other_growth(listing::<String>(after.dom()), before, after, node),
        ) + before[relay] >= after[relay],
        !before.dom().contains(relay) ==> capped(
            other_growth(listing::<String>(after.dom()), before, after, node),
        ) >= after[relay],
{
    lemma_listing_exists::<String>(after.dom());
    let keys = listing::<String>(after.dom());
    assert(keys.to_set().contains(relay));
    let i = choose|i: int| 0 <= i < keys.len() && keys[i] == relay;
    lemma_other_growth_adds_up(keys.take(i), keys.skip(i), relay, before, after, node);
    assert(keys.take(i) + keys.skip(i) =~= keys);
    lemma_other_growth_adds_up(seq![relay], keys.skip(i + 1), relay, before, after, node);
    assert(seq![relay] + keys.skip(i + 1) =~= keys.skip(i));
}

proof fn lemma_other_growth_is_zero(
    keys: Seq<Seq<char>>,
    before: Map<Seq<char>, u64>,
    after: Map<Seq<char>, u64>,
    node: Seq<char>,
)
    requires
        forall|i: int|
            0 <= i < keys.len() && (#[trigger] keys[i]) != node ==> if before.dom().contains(
                keys[i],
            ) {
                after[keys[i]] <= before[keys[i]]
            } else {
                after[keys[i]] == 0
            },
    ensures
        other_growth(keys, before, after, node) == 0,
    decreases keys.len(),
{
    if keys.len() > 0 {
        let front = keys.drop_last();
        assert forall|i: int| 0 <= i < front.len() && (#[trigger] front[i]) != node implies if before.dom().contains(
            front[i],
        ) {
            after[front[i]] <= before[front[i]]
        } else {
            after[front[i]] == 0
        } by {
            assert(front[i] == keys[i]);
        }
        lemma_other_growth_is_zero(front, before, after, node);
        assert(keys[keys.len() - 1] == keys.last());
    }
}

/// The delta of the other relays is zero exactly when none of them advanced: a
/// relay that the first reading has stands no higher, and one that it lacks
/// stands at zero.
pub proof fn lemma_no_other_dispatch(
    before: Map<Seq<char>, u64>,
    after: Map<Seq<char>, u64>,
    node: Seq<char>,
)
    requires
        after.dom().finite(),
    ensures
        capped(other_growth(listing::<String>(after.dom()), before, after, node)) == 0 <==> forall|
            relay: Seq<char>,
        | #[trigger]
            after.dom().contains(relay) && relay != node ==> if before.dom().contains(relay) {
                after[relay] <= before[relay]
            } else {
                after[relay] == 0
            },
{
    lemma_listing_exists::<String>(after.dom());
    let keys = listing::<String>(after.dom());
    if capped(other_growth(keys, before, after, node)) == 0 {
        assert forall|relay: Seq<char>| #[trigger]
            after.dom().contains(relay) && relay != node implies if before.dom().contains(relay) {
            after[relay] <= before[relay]
        } else {
            after[relay] == 0
        } by {
            lemma_other_delta_covers_each(before, after, node, relay);
        }
    }
    if forall|relay: Seq<char>| #[trigger]
        after.dom().contains(relay) && relay != node ==> if before.dom().contains(relay) {
            after[relay] <= before[relay]
        } else {
            after[relay] == 0
        } {
        assert forall|i: int| 0 <= i < keys.len() && (#[trigger] keys[i]) != node implies if before.dom().contains(
            keys[i],
        ) {
            after[keys[i]] <= before[keys[i]]
        } else {
            after[keys[i]] == 0
        } by {
            assert(keys.to_set().contains(keys[i]));
            assert(after.dom().contains(keys[i]));
        }
        lemma_other_growth_is_zero(keys, before, after, node);
    }
}

/// What every other relay's dispatch counter advanced by, in all.
pub fn other_dispatch_delta(
    before: &OrderedMap<String, u64>,
    after: &OrderedMap<String, u64>,
    node: &String,
) -> (delta: u64)
    requires
        before.wf(),
        after.wf(),
    ensures
        delta == capped(other_growth(listing::<String>(after@.dom()), before@, after@, node@)),
        delta == 0 <==> forall|relay: Seq<char>| #[trigger]
            after@.dom().contains(relay) && relay != node@ ==> if before@.dom().contains(relay) {
                after@[relay] <= before@[relay]
            } else {
                after@[relay] == 0
            },
        forall|relay: Seq<char>| #[trigger]
            after@.dom().contains(relay) && relay != node@ ==> if before@.dom().contains(relay) {
                delta + before@[relay] >= after@[relay]
            } else {
                delta >= after@[relay]
            },
{
    let ghost keys = after.keys();
    let mut delta: u64 = 0;
    let mut i: usize = 0;
    assert(keys.take(0) =~= Seq::<Seq<char>>::empty());
    while i < after.len()
        invariant
            before.wf(),
            after.wf(),
            keys == after.keys(),
            i <= keys.len(),
            delta == capped(other_growth(keys.take(i as int), before@, after@, node@)),
        decreases keys.len() - i,
    {
        proof {
            lemma_entry(*after, i as int);
            assert(keys.take(i + 1).drop_last() =~= keys.take(i as int));
            assert(keys.take(i + 1).last() == keys[i as int]);
        }
        let other = after.key_at(i);
        if !same_text(other.as_str(), node.as_str()) {
            let grown = after.value_at(i).saturating_sub(counter_of(before, other));
            delta = delta.saturating_add(grown);
        }
        i += 1;
    }
    proof {
        assert(keys.take(i as int) =~= keys);
        assert(keys.to_set() =~= after@.dom());
        lemma_listing_is_unique::<String>(keys, after@.dom());
        lemma_no_other_dispatch(before@, after@, node@);
        assert forall|relay: Seq<char>| #[trigger]
            after@.dom().contains(relay) && relay != node@ implies if before@.dom().contains(
            relay,
        ) {
            delta + before@[relay] >= after@[relay]
        } else {
            delta >= after@[relay]
        } by {
            lemma_other_delta_covers_each(before@, after@, node@, relay);
        }
    }
    delta
}

/// A flag in print.
pub open spec fn flag_text(flag: bool) -> Seq<char> {
    if flag {
        "true"@
    } else {
        "false"@
    }
}

pub(crate) fn write_flag(flag: bool) -> (text: &'static str)
    ensures
        text@ == flag_text(flag),
{
    if flag {
        "true"
    } else {
        "false"
    }
}

/// Whether the forged identity headers were ignored: both ingresses answered,
/// the target owner dispatched each of the eight bodies, and nobody else
/// dispatched anything.
pub fn check_forged_headers(remote: bool, local: bool, target_delta: u64, other_delta: u64) -> (result:
    Result<(), HarnessError>)
    ensures
        ({
            let holds = remote && local && target_delta == 8 && other_delta == 0;
            match result {
                Ok(()) => holds,
                Err(error) => !holds && error@ == ErrorView::Process(
                    "HTTPS forged identity headers changed owner-local/remote scope or dispatch: remote_ok="@
                        + flag_text(remote) + ", local_ok="@ + flag_text(local)
                        + ", target_dispatch_delta="@ + decimal(target_delta as nat)
                        + ", other_dispatch_delta="@ + decimal(other_delta as nat),
                ),
            }
        }),
{
    if !(remote && local && target_delta == 8 && other_delta == 0) {
        let target = decimal_text(target_delta as u128);
        let other = decimal_text(other_delta as u128);
        return Err(
            HarnessError::Process(
                "HTTPS forged identity headers changed owner-local/remote scope or dispatch: remote_ok=".to_owned().concat(
                write_flag(remote)).concat(", local_ok=").concat(write_flag(local)).concat(
                    ", target_dispatch_delta=",
                ).concat(target.as_str()).concat(", other_dispatch_delta=").concat(other.as_str()),
            ),
        );
    }
    Ok(())
}

/// The failure is the not-found of a device, before any dispatch.
pub open spec fn is_unscoped(failure: FailedAdmission) -> bool {
    failure.status == 404 && failure.code == Some("DEVICE_NOT_FOUND"@) && failure.execution == Some(
        "not_dispatched"@,
    )
}

/// A failure as a triple in print.
pub open spec fn failure_text(failure: FailedAdmission) -> Seq<char> {
    "("@ + decimal(failure.status as nat) + ","@ + label_debug(failure.code) + ","@ + label_debug(
        failure.execution,
    ) + ")"@
}

fn write_failure(failure: &AdmissionFailure) -> (text: String)
    ensures
        text@ == failure_text(failure@),
{
    let status = decimal_text(failure.status as u128);
    let code = write_label(failure.code);
    let execution = write_label(failure.execution);
    "(".to_owned().concat(status.as_str()).concat(",").concat(code.as_str()).concat(",").concat(
        execution.as_str(),
    ).concat(")")
}

/// Whether a cross-tenant target was refused at both ingresses before any
/// dispatch, whatever identity the headers claimed.
pub fn check_cross_scope(remote: &AdmissionFailure, local: &AdmissionFailure, delta: u64) -> (result:
    Result<(), HarnessError>)
    ensures
        ({
            let holds = is_unscoped(remote@) && is_unscoped(local@) && delta == 0;
            match result {
                Ok(()) => holds,
                Err(error) => !holds && error@ == ErrorView::Process(
                    "HTTPS forged cross-scope identity was not rejected before owner-local/remote dispatch: remote="@
                        + failure_text(remote@) + ", local="@ + failure_text(local@)
                        + ", dispatch_delta="@ + decimal(delta as nat),
                ),
            }
        }),
{
    let remote_holds = remote.status == 404 && is_label(remote.code, "DEVICE_NOT_FOUND")
        && is_label(remote.execution, "not_dispatched");
    let local_holds = local.status == 404 && is_label(local.code, "DEVICE_NOT_FOUND") && is_label(
        local.execution,
        "not_dispatched",
    );
    if !(remote_holds && local_holds && delta == 0) {
        let first = write_failure(remote);
        let second = write_failure(local);
        let number = decimal_text(delta as u128);
        return Err(
            HarnessError::Process(
                "HTTPS forged cross-scope identity was not rejected before owner-local/remote dispatch: remote=".to_owned().concat(
                first.as_str()).concat(", local=").concat(second.as_str()).concat(
                    ", dispatch_delta=",
                ).concat(number.as_str()),
            ),
        );
    }
    Ok(())
}

/// What a public stream probe met.
pub enum StreamProbe {
    /// The stream was upgraded.
    Accepted,
    /// The stream was refused.
    Rejected(AdmissionFailure),
}

/// A refusal that was not the one expected, in words.
pub open spec fn unexpected_text(label: Seq<char>, failure: FailedAdmission) -> Seq<char> {
    label + " returned status "@ + decimal(failure.status as nat) + " and bounded code "@
        + label_debug(failure.code)
}

fn unexpected(label: &str, failure: &AdmissionFailure) -> (error: HarnessError)
    ensures
        error@ == ErrorView::Process(unexpected_text(label@, failure@)),
{
    let status = decimal_text(failure.status as u128);
    let code = write_label(failure.code);
    HarnessError::Process(
        label.to_owned().concat(" returned status ").concat(status.as_str()).concat(
            " and bounded code ",
        ).concat(code.as_str()),
    )
}

/// Whether a named negative was refused with a not-found of this code.
pub fn check_named(probe: &StreamProbe, code: &str, label: &str) -> (result: Result<
    (),
    HarnessError,
>)
    ensures
        match *probe {
            StreamProbe::Accepted => result is Err && result->Err_0@ == ErrorView::Process(
                label@ + " unexpectedly upgraded a consumer stream"@,
            ),
            StreamProbe::Rejected(failure) => if failure.status == 404 && label_view(failure.code)
                == Some(code@) {
                result is Ok
            } else {
                result is Err && result->Err_0@ == ErrorView::Process(
                    unexpected_text(label@, failure@),
                )
            },
        },
{
    match probe {
        StreamProbe::Accepted => Err(
            HarnessError::Process(
                label.to_owned().concat(" unexpectedly upgraded a consumer stream"),
            ),
        ),
        StreamProbe::Rejected(failure) => {
            if failure.status == 404 && is_label(failure.code, code) {
                Ok(())
            } else {
                Err(unexpected(label, failure))
            }
        },
    }
}

/// The service labels that are routes of their own and never a device's.
pub const ROUTE_LABELS: [&'static str; 4] = ["control", "health", "membership", "diagnostic"];

/// The paths that the public listener must not serve.
pub const CLOSED_PATHS: [&'static str; 3] = [
    "/v1/tunnel/control",
    "/v1/membership",
    "/diagnostics",
];

/// A route label was refused as a service, before any dispatch.
pub open spec fn is_refused_label(probe: StreamProbe) -> bool {
    match probe {
        StreamProbe::Accepted => false,
        StreamProbe::Rejected(failure) => failure.status == 404 && label_view(failure.code) == Some(
            "SERVICE_NOT_FOUND"@,
        ) && label_view(failure.execution) == Some("not_dispatched"@),
    }
}

/// A target outside the scope and a route label taken for a service are both
/// answered not found and not dispatched, each by its own code, and no answer
/// is both.
pub proof fn lemma_not_found_codes(failure: AdmissionFailure)
    ensures
        is_unscoped(failure@) ==> failure@.status == 404 && failure@.code == Some(
            "DEVICE_NOT_FOUND"@,
        ) && failure@.execution == Some("not_dispatched"@),
        is_refused_label(StreamProbe::Rejected(failure)) ==> failure@.status == 404 && failure@.code
            == Some("SERVICE_NOT_FOUND"@) && failure@.execution == Some("not_dispatched"@),
        failure@.status == 404 && failure@.execution == Some("not_dispatched"@) ==> {
            &&& failure@.code == Some("DEVICE_NOT_FOUND"@) ==> is_unscoped(failure@)
            &&& failure@.code == Some("SERVICE_NOT_FOUND"@) ==> is_refused_label(
                StreamProbe::Rejected(failure),
            )
        },
        !(is_unscoped(failure@) && is_refused_label(StreamProbe::Rejected(failure))),
        !is_refused_label(StreamProbe::Accepted),
{
    reveal_strlit("DEVICE_NOT_FOUND");
    reveal_strlit("SERVICE_NOT_FOUND");
    assert("DEVICE_NOT_FOUND"@[0] != "SERVICE_NOT_FOUND"@[0]);
}

/// What is said of a route label that was not refused so.
pub open spec fn label_failure(probe: StreamProbe, label: Seq<char>) -> Seq<char> {
    match probe {
        StreamProbe::Accepted => "route label "@ + label + " unexpectedly reached an adapter"@,
        StreamProbe::Rejected(failure) => unexpected_text("route label "@ + label, failure@),
    }
}

/// Whether a route label was refused as a service, before any dispatch.
pub fn check_route_label(probe: &StreamProbe, label: &str) -> (result: Result<(), HarnessError>)
    ensures
        match result {
            Ok(()) => is_refused_label(*probe),
            Err(error) => !is_refused_label(*probe) && error@ == ErrorView::Process(
                label_failure(*probe, label@),
            ),
        },
{
    match probe {
        StreamProbe::Accepted => Err(
            HarnessError::Process(
                "route label ".to_owned().concat(label).concat(" unexpectedly reached an adapter"),
            ),
        ),
        StreamProbe::Rejected(failure) => {
            if failure.status == 404 && is_label(failure.code, "SERVICE_NOT_FOUND") && is_label(
                failure.execution,
                "not_dispatched",
            ) {
                Ok(())
            } else {
                let name = "route label ".to_owned().concat(label);
                Err(unexpected(name.as_str(), failure))
            }
        },
    }
}

/// Whether a closed path answered not found.
pub fn check_closed_path(path: &str, status: u16) -> (result: Result<(), HarnessError>)
    ensures
        match result {
            Ok(()) => status == 404,
            Err(error) => status != 404 && error@ == ErrorView::Process(
                "public route "@ + path@ + " returned status "@ + decimal(status as nat)
                    + ", expected 404"@,
            ),
        },
{
    if status != 404 {
        let number = decimal_text(status as u128);
        return Err(
            HarnessError::Process(
                "public route ".to_owned().concat(path).concat(" returned status ").concat(
                    number.as_str(),
                ).concat(", expected 404"),
            ),
        );
    }
    Ok(())
}

/// Whether the lookup that could not prove authorization failed closed.
pub fn check_lookup(probe: &StreamProbe) -> (result: Result<(), HarnessError>)
    ensures
        match *probe {
            StreamProbe::Accepted => result is Err && result->Err_0@ == ErrorView::Process(
                "Redis lookup failure unexpectedly upgraded a consumer stream"@,
            ),
            StreamProbe::Rejected(failure) => if is_lookup(failure@) {
                result is Ok
            } else {
                result is Err && result->Err_0@ == ErrorView::Process(
                    unexpected_text("Redis lookup negative"@, failure@),
                )
            },
        },
{
    match probe {
        StreamProbe::Accepted => Err(
            HarnessError::process("Redis lookup failure unexpectedly upgraded a consumer stream"),
        ),
        StreamProbe::Rejected(failure) => {
            if is_lookup_failure(failure) {
                Ok(())
            } else {
                Err(unexpected("Redis lookup negative", failure))
            }
        },
    }
}

/// Whether an unreachable selected owner was answered as one.
pub fn check_owner_loss(failure: &AdmissionFailure) -> (result: Result<(), HarnessError>)
    ensures
        match result {
            Ok(()) => is_owner_loss(failure@),
            Err(error) => !is_owner_loss(failure@) && error@ == ErrorView::Process(
                unexpected_text("selected-owner loss"@, failure@),
            ),
        },
{
    if is_selected_owner_failure(failure) {
        Ok(())
    } else {
        Err(unexpected("selected-owner loss", failure))
    }
}

/// Whether the fixture's owners are the two relays that the matrix is about.
pub fn check_owner_nodes(target: &str, sibling: &str) -> (result: Result<(), HarnessError>)
    ensures
        match result {
            Ok(()) => target@ == "relay-a"@ && sibling@ == "relay-b"@,
            Err(error) => error@ == ErrorView::Process(
                if target@ == sibling@ {
                    "public admission target and sibling owners shared one relay"@
                } else {
                    "public admission fixture owner assignment was not deterministic: target="@
                        + target@ + ", sibling="@ + sibling@
                        + ", expected target=relay-a and sibling=relay-b"@
                },
            ) && !(target@ == "relay-a"@ && sibling@ == "relay-b"@),
        },
{
    proof {
        reveal_strlit("relay-a");
        reveal_strlit("relay-b");
        assert("relay-a"@[6] != "relay-b"@[6]);
    }
    if same_text(target, sibling) {
        return Err(
            HarnessError::process("public admission target and sibling owners shared one relay"),
        );
    }
    if !same_text(target, "relay-a") || !same_text(sibling, "relay-b") {
        return Err(
            HarnessError::Process(
                "public admission fixture owner assignment was not deterministic: target=".to_owned().concat(
                target).concat(", sibling=").concat(sibling).concat(
                    ", expected target=relay-a and sibling=relay-b",
                ),
            ),
        );
    }
    Ok(())
}

/// The ingress for a device: the first relay that does not own it, or else the
/// first relay.
pub fn choose_ingress(nodes: &Vec<String>, owner: &str) -> (result: Result<usize, HarnessError>)
    ensures
        match result {
            Ok(index) => index < nodes@.len() && ((nodes@[index as int]@ != owner@ && forall|k: int|
                0 <= k < index ==> (#[trigger] nodes@[k])@ == owner@) || (index == 0 && forall|
                k: int,
            |
                0 <= k < nodes@.len() ==> (#[trigger] nodes@[k])@ == owner@)),
            Err(error) => nodes@.len() == 0 && error@ == ErrorView::Process(
                "public admission has no consumer ingress"@,
            ),
        },
{
    if nodes.len() == 0 {
        return Err(HarnessError::process("public admission has no consumer ingress"));
    }
    let mut index: usize = 0;
    while index < nodes.len()
        invariant
            0 < nodes.len(),
            index <= nodes.len(),
            forall|k: int| 0 <= k < index ==> (#[trigger] nodes@[k])@ == owner@,
        decreases nodes.len() - index,
    {
        if !same_text(nodes[index].as_str(), owner) {
            return Ok(index);
        }
        index += 1;
    }
    Ok(0)
}

/// The headers by which a caller claims an identity that is not its own.
pub fn forged_headers(
    tenant_id: &str,
    principal_id: &str,
    device_id: &str,
    service_id: &str,
    owner_id: &str,
) -> (headers: Vec<(&'static str, String)>)
    ensures
        headers@.len() == 5,
        headers@[0].0@ == FORGED_TENANT_HEADER@ && headers@[0].1@ == tenant_id@,
        headers@[1].0@ == FORGED_PRINCIPAL_HEADER@ && headers@[1].1@ == principal_id@,
        headers@[2].0@ == FORGED_DEVICE_HEADER@ && headers@[2].1@ == device_id@,
        headers@[3].0@ == FORGED_SERVICE_HEADER@ && headers@[3].1@ == service_id@,
        headers@[4].0@ == FORGED_OWNER_HEADER@ && headers@[4].1@ == owner_id@,
{
    let mut headers: Vec<(&'static str, String)> = Vec::new();
    headers.push((FORGED_TENANT_HEADER, tenant_id.to_owned()));
    headers.push((FORGED_PRINCIPAL_HEADER, principal_id.to_owned()));
    headers.push((FORGED_DEVICE_HEADER, device_id.to_owned()));
    headers.push((FORGED_SERVICE_HEADER, service_id.to_owned()));
    headers.push((FORGED_OWNER_HEADER, owner_id.to_owned()));
    headers
}

/// The error of a forged-header echo that could not be sent, which tells only
/// the class of what failed.
pub fn echo_transport_error(ingress: &str, corpus: &str, cause: &HarnessError) -> (error:
    HarnessError)
    ensures
        error@ == ErrorView::Http(
            "public admission HTTPS forged-header echo transport failure: ingress="@ + ingress@
                + ",corpus="@ + corpus@ + ",kind="@ + error_kind(cause@),
        ),
{
    HarnessError::Http(
        "public admission HTTPS forged-header echo transport failure: ingress=".to_owned().concat(
            ingress,
        ).concat(",corpus=").concat(corpus).concat(",kind=").concat(admission_error_kind(cause)),
    )
}

/// Whether a stream probe is inside its bound.
pub fn check_stream_bound(service: &str) -> (result: Result<(), HarnessError>)
    ensures
        ({
            let holds = 0 < encode_utf8(service@).len() <= 128;
            match result {
                Ok(()) => holds,
                Err(error) => !holds && error@ == ErrorView::InvalidInput(
                    "public admission service path is outside its bound"@,
                ),
            }
        }),
{
    let length = service.as_bytes().len();
    if length == 0 || length > 128 {
        return Err(
            HarnessError::invalid_input("public admission service path is outside its bound"),
        );
    }
    Ok(())
}

/// The subprotocol that a public stream speaks.
pub const ECHO_SUBPROTOCOL: &'static str = "agent-tunnel.echo.v1";

/// Whether an upgraded stream selected the echo subprotocol.
pub fn check_subprotocol(selected: Option<&str>) -> (result: Result<(), HarnessError>)
    ensures
        ({
            let holds = label_view(selected) == Some(ECHO_SUBPROTOCOL@);
            match result {
                Ok(()) => holds,
                Err(error) => !holds && error@ == ErrorView::Http(
                    "public admission selected an unexpected subprotocol"@,
                ),
            }
        }),
{
    match selected {
        Some(text) => {
            if same_text(text, ECHO_SUBPROTOCOL) {
                return Ok(());
            }
        },
        None => {},
    }
    Err(HarnessError::http("public admission selected an unexpected subprotocol"))
}

/// A route of one service of one device behind the local listener at `port`.
pub open spec fn service_route(
    scheme: Seq<char>,
    port: u16,
    device: Seq<char>,
    service: Seq<char>,
    operation: Seq<char>,
) -> Seq<char> {
    scheme + "://localhost:"@ + decimal(port as nat) + "/v1/devices/"@ + device + "/services/"@
        + service + "/"@ + operation
}

fn route_text(scheme: &str, port: u16, device: &str, service: &str, operation: &str) -> (text:
    String)
    ensures
        text@ == service_route(scheme@, port, device@, service@, operation@),
{
    let number = decimal_text(port as u128);
    scheme.to_owned().concat("://localhost:").concat(number.as_str()).concat(
        "/v1/devices/",
    ).concat(device).concat("/services/").concat(service).concat("/").concat(operation)
}

/// The route of an echo.
pub fn echo_route(port: u16, device: &str, service: &str) -> (text: String)
    ensures
        text@ == service_route("https"@, port, device@, service@, "echo"@),
{
    route_text("https", port, device, service, "echo")
}

/// The route of a stream.
pub fn stream_route(port: u16, device: &str, service: &str) -> (text: String)
    ensures
        text@ == service_route("wss"@, port, device@, service@, "stream"@),
{
    route_text("wss", port, device, service, "stream")
}

/// Whether an echo probe is inside its bound.
pub fn check_echo_bound(service: &str, body: usize) -> (result: Result<(), HarnessError>)
    ensures
        ({
            let length = encode_utf8(service@).len();
            let holds = 0 < length <= 128 && body <= MAX_PUBLIC_ECHO_BODY_BYTES;
            match result {
                Ok(()) => holds,
                Err(error) => !holds && error@ == ErrorView::InvalidInput(
                    "public admission echo probe is outside its bound"@,
                ),
            }
        }),
{
    let length = service.as_bytes().len();
    if length == 0 || length > 128 || body > MAX_PUBLIC_ECHO_BODY_BYTES {
        return Err(
            HarnessError::invalid_input("public admission echo probe is outside its bound"),
        );
    }
    Ok(())
}

/// The codes that a public failure may name, word by word.
pub proof fn lemma_known_codes(word: Seq<char>)
    ensures
        known(KNOWN_CODES@, word) == Some(word) <==> {
            ||| word == "ADMISSION_LIMIT"@
            ||| word == "BODY_LIMIT"@
            ||| word == "BODY_TIMEOUT"@
            ||| word == "DEVICE_NOT_FOUND"@
            ||| word == "DEVICE_MTLS_REQUIRED"@
            ||| word == "DATA_TICKET_REQUIRED"@
            ||| word == "FORBIDDEN"@
            ||| word == "NOT_FOUND"@
            ||| word == "REVERSE_CHANNEL_INTERRUPTED"@
            ||| word == "REVERSE_CHANNEL_UNAVAILABLE"@
            ||| word == "SERVICE_NOT_FOUND"@
            ||| word == "SOCKET_LIMIT"@
            ||| word == "STREAM_LIMIT"@
            ||| word == "AUTHORIZATION_UNAVAILABLE"@
            ||| word == "CLUSTER_UNREADY"@
            ||| word == "UNAUTHORIZED"@
            ||| word == "PEER_UNAVAILABLE"@
            ||| word == "PEER_UNTRUSTED"@
            ||| word == "SUBPROTOCOL_REQUIRED"@
        },
{
    let words = KNOWN_CODES@;
    assert(words.len() == 19);
    assert(words[0]@ == "ADMISSION_LIMIT"@);
    assert(words[1]@ == "BODY_LIMIT"@);
    assert(words[2]@ == "BODY_TIMEOUT"@);
    assert(words[3]@ == "DEVICE_NOT_FOUND"@);
    assert(words[4]@ == "DEVICE_MTLS_REQUIRED"@);
    assert(words[5]@ == "DATA_TICKET_REQUIRED"@);
    assert(words[6]@ == "FORBIDDEN"@);
    assert(words[7]@ == "NOT_FOUND"@);
    assert(words[8]@ == "REVERSE_CHANNEL_INTERRUPTED"@);
    assert(words[9]@ == "REVERSE_CHANNEL_UNAVAILABLE"@);
    assert(words[10]@ == "SERVICE_NOT_FOUND"@);
    assert(words[11]@ == "SOCKET_LIMIT"@);
    assert(words[12]@ == "STREAM_LIMIT"@);
    assert(words[13]@ == "AUTHORIZATION_UNAVAILABLE"@);
    assert(words[14]@ == "CLUSTER_UNREADY"@);
    assert(words[15]@ == "UNAUTHORIZED"@);
    assert(words[16]@ == "PEER_UNAVAILABLE"@);
    assert(words[17]@ == "PEER_UNTRUSTED"@);
    assert(words[18]@ == "SUBPROTOCOL_REQUIRED"@);
}

/// The flag that is named is one that the run did not set.
pub proof fn lemma_unset_flag(evidence: AdmissionEvidence)
    ensures
        first_broken(flag_rules(evidence)) == Some("absent_target_rejected"@) ==> !(evidence.absent_target_rejected),
        first_broken(flag_rules(evidence)) == Some("inactive_target_rejected"@) ==> !(evidence.inactive_target_rejected),
        first_broken(flag_rules(evidence)) == Some("unknown_target_rejected"@) ==> !(evidence.unknown_target_rejected),
        first_broken(flag_rules(evidence)) == Some("selected_owner_unavailable"@) ==> !(evidence.selected_owner_unavailable),
        first_broken(flag_rules(evidence)) == Some("route_allowlist_rejected"@) ==> !(evidence.route_allowlist_rejected),
        first_broken(flag_rules(evidence)) == Some("forged_identity_headers_ignored"@) ==> !(evidence.forged_identity_headers_ignored),
        first_broken(flag_rules(evidence)) == Some("forged_identity_http_headers_ignored"@) ==> !(evidence.forged_identity_http_headers_ignored),
        first_broken(flag_rules(evidence)) == Some("forged_identity_http_cross_scope_rejected"@) ==> !(evidence.forged_identity_http_cross_scope_rejected),
        first_broken(flag_rules(evidence)) == Some("lookup_error_rejected"@) ==> !(evidence.lookup_error_rejected),
        first_broken(flag_rules(evidence)) == Some("sibling_canary_survived"@) ==> !(evidence.sibling_canary_survived),
        first_broken(flag_rules(evidence)) == Some("cleanup_joined"@) ==> !(evidence.cleanup_joined),
        first_broken(flag_rules(evidence)) matches Some(claim) ==> {
            ||| claim == "absent_target_rejected"@
            ||| claim == "inactive_target_rejected"@
            ||| claim == "unknown_target_rejected"@
            ||| claim == "selected_owner_unavailable"@
            ||| claim == "route_allowlist_rejected"@
            ||| claim == "forged_identity_headers_ignored"@
            ||| claim == "forged_identity_http_headers_ignored"@
            ||| claim == "forged_identity_http_cross_scope_rejected"@
            ||| claim == "lookup_error_rejected"@
            ||| claim == "sibling_canary_survived"@
            ||| claim == "cleanup_joined"@
        },
{
    let rules = flag_rules(evidence);
    lemma_first_broken(rules);
    reveal_strlit("absent_target_rejected");
    reveal_strlit("inactive_target_rejected");
    reveal_strlit("unknown_target_rejected");
    reveal_strlit("selected_owner_unavailable");
    reveal_strlit("route_allowlist_rejected");
    reveal_strlit("forged_identity_headers_ignored");
    reveal_strlit("forged_identity_http_headers_ignored");
    reveal_strlit("forged_identity_http_cross_scope_rejected");
    reveal_strlit("lookup_error_rejected");
    reveal_strlit("sibling_canary_survived");
    reveal_strlit("cleanup_joined");
    assert("inactive_target_rejected"@[0] == 'i');
    assert("route_allowlist_rejected"@[0] == 'r');
    assert("unknown_target_rejected"@[0] == 'u');
    assert("sibling_canary_survived"@[0] == 's');
    assert(rules.len() == 11);
    assert(rules[0].0.len() == 22);
    assert(rules[1].0.len() == 24);
    assert(rules[2].0.len() == 23);
    assert(rules[3].0.len() == 26);
    assert(rules[4].0.len() == 24);
    assert(rules[5].0.len() == 31);
    assert(rules[6].0.len() == 36);
    assert(rules[7].0.len() == 41);
    assert(rules[8].0.len() == 21);
    assert(rules[9].0.len() == 23);
    assert(rules[10].0.len() == 14);
}

/// What evidence is refused for, in this order: its relays, a flag, its
/// baselines, a dispatch of the negatives, one after the owner's loss, and the
/// sibling's canary.
pub proof fn lemma_refused_evidence(evidence: AdmissionEvidence)
    ensures
        evidence.relay_count != 3 ==> admission_failure(evidence) == Some(
            "public admission requires exactly three relays, observed "@ + decimal(
                evidence.relay_count as nat,
            ),
        ),
        evidence.relay_count == 3 ==> (first_broken(flag_rules(evidence)) matches Some(name)
            ==> admission_failure(evidence) == Some(
            "public admission required gate "@ + name + " was false"@,
        )),
        evidence.relay_count == 3 && first_broken(flag_rules(evidence)) is None ==> {
            let baselines = evidence.baseline_target_dispatches > 0
                && evidence.baseline_sibling_dispatches > 0;
            let quiet = evidence.negative_dispatch_delta == 0
                && evidence.lookup_error_dispatch_delta == 0;
            &&& !baselines ==> admission_failure(evidence) == Some(
                "baseline canaries did not advance both selected owner counters"@,
            )
            &&& baselines && !quiet ==> admission_failure(evidence) == Some(
                "negative admission dispatched application work: negative_delta="@ + decimal(
                    evidence.negative_dispatch_delta as nat,
                ) + ", lookup_delta="@ + decimal(evidence.lookup_error_dispatch_delta as nat),
            )
            &&& baselines && quiet && evidence.owner_loss_dispatch_delta != 0 ==> admission_failure(
                evidence,
            ) == Some(
                "selected-owner fault dispatched application work: delta="@ + decimal(
                    evidence.owner_loss_dispatch_delta as nat,
                ),
            )
        },
{
}

/// Each class of error has a label of its own, and the label says nothing of
/// the error's text.
pub proof fn lemma_error_kinds(text: Seq<char>, other: Seq<char>)
    ensures
        error_kind(ErrorView::Timeout(text)) == "timeout"@,
        error_kind(ErrorView::Http(text)) == "http"@,
        error_kind(ErrorView::Io(text)) == "io"@,
        error_kind(ErrorView::Json(text)) == "json"@,
        error_kind(ErrorView::InvalidInput(text)) == "invalid_input"@,
        error_kind(ErrorView::Process(text)) == "process"@,
        error_kind(ErrorView::CliExitedBeforeReady(text)) == "cli_exited_before_ready"@,
        error_kind(ErrorView::Redis(text)) == "redis"@,
        error_kind(ErrorView::Proxy(text)) == "proxy"@,
        error_kind(ErrorView::Pki(text)) == "pki"@,
        error_kind(ErrorView::Jwt(text)) == "jwt"@,
        error_kind(ErrorView::MissingRedisUrl(text)) == "missing_redis_url"@,
        error_kind(ErrorView::InvalidRedisUrl(text)) == "invalid_redis_url"@,
        error_kind(ErrorView::Unsupported(text)) == "unsupported"@,
{
}

} // verus!
