//! Rotation freezes and the refusals they explain.
//!
//! A refusal may be resent only if it coincides with a rotation phase that was
//! observed, never because it looks like one that a rotation would produce.

use vstd::prelude::*;
use vstd::string::*;

use crate::acp_cluster;
use crate::acp_real_path;
use crate::error::{ErrorView, HarnessError};
use crate::rules::{is_listed, listed};
use crate::std_text::{debug_text, write_debug};
use crate::text::{decimal, decimal_text, occurs_in, text_contains};

verus! {

/// How close to an observed frozen sample a refusal must be to count as
/// coinciding with it, in milliseconds.
pub const FREEZE_COINCIDENCE_MS: u64 = 750;

/// The connector phases in which the owner refuses new stream admission.
pub const FROZEN_PHASES: [&'static str; 3] = ["quiescing", "draining", "committing"];

/// The connector's rotation phase, sampled from its own status watch.
#[derive(Clone, Debug)]
pub struct FreezeWatch {
    frozen: bool,
    seen_frozen: bool,
    last_frozen_ms: u64,
    phase: String,
    rotations_completed: u64,
}

/// The model of the watch.
pub struct WatchView {
    pub frozen: bool,
    pub last_frozen_ms: Option<u64>,
    pub phase: Seq<char>,
    pub rotations_completed: u64,
}

impl View for FreezeWatch {
    type V = WatchView;

    closed spec fn view(&self) -> WatchView {
        WatchView {
            frozen: self.frozen,
            last_frozen_ms: if self.seen_frozen {
                Some(self.last_frozen_ms)
            } else {
                None
            },
            phase: self.phase@,
            rotations_completed: self.rotations_completed,
        }
    }
}

/// The watch before any sample.
pub open spec fn unwatched() -> WatchView {
    WatchView { frozen: false, last_frozen_ms: None, phase: Seq::empty(), rotations_completed: 0 }
}

/// The watch after one more sample at `now_ms`.
pub open spec fn sampled(
    watch: WatchView,
    phase: Seq<char>,
    rotations_completed: u64,
    now_ms: u64,
) -> WatchView {
    let frozen = listed(FROZEN_PHASES@, phase);
    WatchView {
        frozen,
        last_frozen_ms: if frozen {
            Some(now_ms)
        } else {
            watch.last_frozen_ms
        },
        phase,
        rotations_completed,
    }
}

/// A refusal at `now_ms` coincides with a freeze: the last sample was frozen,
/// or a frozen sample was taken at most [`FREEZE_COINCIDENCE_MS`] before.
pub open spec fn coincides_at(watch: WatchView, now_ms: u64) -> bool {
    watch.frozen || match watch.last_frozen_ms {
        Some(last) => now_ms - last <= FREEZE_COINCIDENCE_MS,
        None => false,
    }
}

/// The sentence a refusal outside a freeze is reported with.
pub open spec fn unexplained_text(watch: WatchView) -> Seq<char> {
    "not_dispatched refusal outside a rotation freeze: connector phase="@ + debug_text(watch.phase)
        + " rotations_completed="@ + decimal(watch.rotations_completed as nat)
}

impl FreezeWatch {
    /// A watch without a sample.
    pub fn new() -> (watch: Self)
        ensures
            watch@ == unwatched(),
    {
        let watch = FreezeWatch {
            frozen: false,
            seen_frozen: false,
            last_frozen_ms: 0,
            phase: String::new(),
            rotations_completed: 0,
        };
        assert(watch@.phase =~= unwatched().phase);
        watch
    }

    /// Takes one sample.
    pub fn record(&mut self, phase: &str, rotations_completed: u64, now_ms: u64)
        ensures
            final(self)@ == sampled(old(self)@, phase@, rotations_completed, now_ms),
    {
        self.phase = phase.to_owned();
        self.rotations_completed = rotations_completed;
        self.frozen = is_listed(FROZEN_PHASES.as_slice(), phase);
        if self.frozen {
            self.seen_frozen = true;
            self.last_frozen_ms = now_ms;
        }
    }

    /// Whether a refusal at `now_ms` coincides with an observed freeze.
    pub fn coincides(&self, now_ms: u64) -> (coincides: bool)
        ensures
            coincides == coincides_at(self@, now_ms),
    {
        if self.frozen {
            return true;
        }
        if !self.seen_frozen {
            return false;
        }
        now_ms.saturating_sub(self.last_frozen_ms) <= FREEZE_COINCIDENCE_MS
    }

    /// The sentence a refusal outside a freeze is reported with.  It names the
    /// connector state, so the failure is diagnosable without a rerun.
    pub fn unexplained(&self) -> (text: String)
        ensures
            text@ == unexplained_text(self@),
    {
        let phase = write_debug(self.phase.as_str());
        let rotations = decimal_text(self.rotations_completed as u128);
        "not_dispatched refusal outside a rotation freeze: connector phase=".to_owned().concat(
            phase.as_str(),
        ).concat(" rotations_completed=").concat(rotations.as_str())
    }
}

/// A connector that was never sampled in a frozen phase explains no refusal,
/// and one sampled frozen explains every refusal up to the bound after it.
pub proof fn lemma_only_observed_freezes_explain(
    watch: WatchView,
    phase: Seq<char>,
    rotations: u64,
    at_ms: u64,
    now_ms: u64,
)
    ensures
        !watch.frozen && watch.last_frozen_ms is None && !listed(FROZEN_PHASES@, phase)
            ==> !coincides_at(sampled(watch, phase, rotations, at_ms), now_ms),
        listed(FROZEN_PHASES@, phase) ==> coincides_at(
            sampled(watch, phase, rotations, at_ms),
            now_ms,
        ),
        watch.last_frozen_ms is Some && !listed(FROZEN_PHASES@, phase) && now_ms
            - watch.last_frozen_ms->Some_0 > FREEZE_COINCIDENCE_MS ==> !coincides_at(
            sampled(watch, phase, rotations, at_ms),
            now_ms,
        ),
{
}

/// Every `not_dispatched` refusal, how many of them a freeze explained, and
/// the first that none did.
#[derive(Clone, Debug)]
pub struct RefusalLedger {
    pub refusals: u64,
    pub retries: u64,
    pub unexplained: Option<String>,
}

/// The model of the ledger.
pub struct LedgerView {
    pub refusals: u64,
    pub retries: u64,
    pub unexplained: Option<Seq<char>>,
}

impl View for RefusalLedger {
    type V = LedgerView;

    open spec fn view(&self) -> LedgerView {
        LedgerView {
            refusals: self.refusals,
            retries: self.retries,
            unexplained: match self.unexplained {
                Some(text) => Some(text@),
                None => None,
            },
        }
    }
}

/// The ledger after one more refusal.
pub open spec fn noted(ledger: LedgerView, watch: WatchView, now_ms: u64) -> LedgerView {
    let coincides = coincides_at(watch, now_ms);
    LedgerView {
        refusals: ledger.refusals.wrapping_add(1),
        retries: if coincides {
            ledger.retries.wrapping_add(1)
        } else {
            ledger.retries
        },
        unexplained: if coincides || ledger.unexplained is Some {
            ledger.unexplained
        } else {
            Some(unexplained_text(watch))
        },
    }
}

/// The ledger explains itself: every refusal was explained exactly when none
/// is reported as unexplained, and there are never more retries than refusals.
pub open spec fn is_consistent(ledger: LedgerView) -> bool {
    &&& ledger.retries <= ledger.refusals
    &&& ledger.unexplained is None <==> ledger.refusals == ledger.retries
}

/// Noting a refusal keeps the ledger consistent, as long as its counter has
/// room: a refusal outside a freeze can never be counted as an explained one.
pub proof fn lemma_ledger_stays_consistent(ledger: LedgerView, watch: WatchView, now_ms: u64)
    requires
        is_consistent(ledger),
        ledger.refusals < u64::MAX,
    ensures
        is_consistent(noted(ledger, watch, now_ms)),
        !coincides_at(watch, now_ms) ==> noted(ledger, watch, now_ms).unexplained is Some,
{
}

impl RefusalLedger {
    /// No refusal yet.
    pub fn new() -> (ledger: Self)
        ensures
            ledger@ == (LedgerView { refusals: 0, retries: 0, unexplained: None }),
            is_consistent(ledger@),
    {
        RefusalLedger { refusals: 0, retries: 0, unexplained: None }
    }

    /// Records one refusal and says whether it coincided with a freeze.
    pub fn note_refusal(&mut self, watch: &FreezeWatch, now_ms: u64) -> (coincides: bool)
        ensures
            final(self)@ == noted(old(self)@, watch@, now_ms),
            coincides == coincides_at(watch@, now_ms),
    {
        let coincides = watch.coincides(now_ms);
        self.refusals = self.refusals.wrapping_add(1);
        if coincides {
            self.retries = self.retries.wrapping_add(1);
        } else if self.unexplained.is_none() {
            self.unexplained = Some(watch.unexplained());
        }
        coincides
    }
}

/// An answer is a `not_dispatched` refusal.
pub open spec fn is_refusal(status: u16, body: Seq<char>) -> bool {
    status == 503 && occurs_in(body, "not_dispatched"@)
}

/// What to do with an answer.
#[derive(Clone, Debug)]
pub enum PostAction {
    /// Wait for the retry hint and send the request again.
    Resend,
    /// Hand the answer to the case.
    Answer,
    /// Fail the run with this error.
    Refused(HarnessError),
}

/// Decides on an answer to a POST of the real-path gate.
///
/// Only a refusal that coincides with an observed freeze is resent, and only
/// up to its budget; whatever else came back is the case's answer.
pub fn real_path_post(
    ledger: &mut RefusalLedger,
    watch: &FreezeWatch,
    status: u16,
    body: &str,
    retries: u64,
    now_ms: u64,
) -> (action: PostAction)
    ensures
        final(ledger)@ == if is_refusal(status, body@) {
            noted(old(ledger)@, watch@, now_ms)
        } else {
            old(ledger)@
        },
        action == if is_refusal(status, body@) && coincides_at(watch@, now_ms) && retries
            < acp_real_path::NOT_DISPATCHED_RETRIES {
            PostAction::Resend
        } else {
            PostAction::Answer
        },
{
    if status == 503 && text_contains(body, "not_dispatched") {
        let coincides = ledger.note_refusal(watch, now_ms);
        if coincides && retries < acp_real_path::NOT_DISPATCHED_RETRIES {
            return PostAction::Resend;
        }
    }
    PostAction::Answer
}

/// The refusal of the cluster gate, in words.
pub open spec fn refused_text(verb: Seq<char>, coincides: bool, watch: WatchView) -> Seq<char> {
    "ACP "@ + verb + " refused "@ + decimal(acp_cluster::NOT_DISPATCHED_RETRIES as nat)
        + " times with not_dispatched (coincided with an observed freeze: "@ + (if coincides {
        "true"@
    } else {
        "false"@
    }) + "); "@ + unexplained_text(watch)
}

/// Decides on an answer of the cluster gate to `verb`.
///
/// A refusal that is out of budget, or was never correlated, is reported as a
/// refusal and not handed back as a status.
pub fn cluster_answer(
    ledger: &mut RefusalLedger,
    watch: &FreezeWatch,
    verb: &str,
    status: u16,
    body: &str,
    retries: u64,
    now_ms: u64,
) -> (action: PostAction)
    ensures
        final(ledger)@ == if is_refusal(status, body@) {
            noted(old(ledger)@, watch@, now_ms)
        } else {
            old(ledger)@
        },
        if !is_refusal(status, body@) {
            action is Answer
        } else if coincides_at(watch@, now_ms) && retries < acp_cluster::NOT_DISPATCHED_RETRIES {
            action is Resend
        } else {
            action is Refused && action->Refused_0@ == ErrorView::Process(
                refused_text(verb@, coincides_at(watch@, now_ms), watch@),
            )
        },
{
    if status != 503 || !text_contains(body, "not_dispatched") {
        return PostAction::Answer;
    }
    let coincides = ledger.note_refusal(watch, now_ms);
    if coincides && retries < acp_cluster::NOT_DISPATCHED_RETRIES {
        return PostAction::Resend;
    }
    let budget = decimal_text(acp_cluster::NOT_DISPATCHED_RETRIES as u128);
    let sentence = watch.unexplained();
    let answer = if coincides {
        "true"
    } else {
        "false"
    };
    PostAction::Refused(
        HarnessError::Process(
            "ACP ".to_owned().concat(verb).concat(" refused ").concat(budget.as_str()).concat(
                " times with not_dispatched (coincided with an observed freeze: ",
            ).concat(answer).concat("); ").concat(sentence.as_str()),
        ),
    )
}

/// A sample is frozen in exactly the three phases in which the owner refuses
/// new streams, and a watch remembers the last frozen sample and not an earlier
/// one.
pub proof fn lemma_samples(
    watch: WatchView,
    phase: Seq<char>,
    rotations: u64,
    at_ms: u64,
    later: Seq<char>,
    more: u64,
    later_ms: u64,
    now_ms: u64,
)
    ensures
        sampled(watch, phase, rotations, at_ms).frozen <==> phase == "quiescing"@ || phase
            == "draining"@ || phase == "committing"@,
        sampled(watch, phase, rotations, at_ms).phase == phase,
        sampled(watch, phase, rotations, at_ms).rotations_completed == rotations,
        sampled(watch, phase, rotations, at_ms).frozen ==> {
            let after = sampled(
                sampled(watch, phase, rotations, at_ms),
                later,
                more,
                later_ms,
            );
            &&& after.frozen ==> coincides_at(after, now_ms) && after.last_frozen_ms == Some(
                later_ms,
            )
            &&& !after.frozen ==> (coincides_at(after, now_ms) <==> now_ms - at_ms <= 750)
        },
{
    assert(FROZEN_PHASES@.len() == 3 && FROZEN_PHASES@[0]@ == "quiescing"@ && FROZEN_PHASES@[1]@
        == "draining"@ && FROZEN_PHASES@[2]@ == "committing"@);
}

/// One more refusal is counted once, and as explained exactly when it coincides
/// with a freeze; the first unexplained one is kept and every later one leaves it.
pub proof fn lemma_noted_refusal(ledger: LedgerView, watch: WatchView, now_ms: u64)
    requires
        ledger.refusals < u64::MAX,
        ledger.retries < u64::MAX,
    ensures
        noted(ledger, watch, now_ms).refusals == ledger.refusals + 1,
        coincides_at(watch, now_ms) ==> noted(ledger, watch, now_ms).retries == ledger.retries + 1
            && noted(ledger, watch, now_ms).unexplained == ledger.unexplained,
        !coincides_at(watch, now_ms) ==> noted(ledger, watch, now_ms).retries == ledger.retries
            && noted(ledger, watch, now_ms).unexplained is Some,
        ledger.unexplained is Some ==> noted(ledger, watch, now_ms).unexplained
            == ledger.unexplained,
{
}

/// Only an unavailable answer is a refusal, and only one that says anywhere that
/// nothing was dispatched.
pub proof fn lemma_refusals(status: u16, before: Seq<char>, after: Seq<char>, body: Seq<char>)
    ensures
        is_refusal(503, before + "not_dispatched"@ + after),
        status != 503 ==> !is_refusal(status, body),
        body.len() < "not_dispatched"@.len() ==> !is_refusal(status, body),
{
    let part = "not_dispatched"@;
    let whole = before + part + after;
    assert(whole.subrange(before.len() as int, before.len() + part.len() as int) =~= part);
    assert(crate::text::occurs_at(whole, part, before.len() as int));
}

} // verus!
