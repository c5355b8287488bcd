//! The small decisions that the acceptance cases share: what an answered request,
//! a watched stream, a marker file or a process table means for the case.

use vstd::prelude::*;
use vstd::string::*;

use crate::acp_wire::{
    has_result_for, message_views, no_stop_reason_for, session_id, text_under,
};
use crate::admission_diagnostics::{list_debug, write_list};
use crate::c10::label_view;
use crate::error::{ErrorView, HarnessError};
use crate::json::Json;
use crate::peer_faults::holds_text;
use crate::text::{
    decimal, decimal_text, same_text, strip_text_prefix, trim_text, trimmed, views, without_prefix,
};

verus! {

/// The reason phrase that the `http` crate knows for a status.
pub uninterp spec fn reason_phrase(status: u16) -> Option<Seq<char>>;

/// Calls `http::StatusCode::canonical_reason`.
///
/// Trusted: the phrase depends on the status alone, and a number that is no
/// status has none.
#[verifier::external_body]
fn canonical_reason(status: u16) -> (phrase: Option<&'static str>)
    ensures
        label_view(phrase) == reason_phrase(status),
        !(100 <= status <= 999) ==> phrase is None,
{
    http::StatusCode::from_u16(status).ok().and_then(|code| code.canonical_reason())
}

/// A status in print.
pub open spec fn status_text(status: u16) -> Seq<char> {
    decimal(status as nat) + " "@ + match reason_phrase(status) {
        Some(phrase) => phrase,
        None => "<unknown status code>"@,
    }
}

/// A status in print.
pub fn write_status(status: u16) -> (text: String)
    ensures
        text@ == status_text(status),
{
    let digits = decimal_text(status as u128);
    let phrase = match canonical_reason(status) {
        Some(phrase) => phrase,
        None => "<unknown status code>",
    };
    digits.concat(" ").concat(phrase)
}

/// Whether a request was accepted.  An accepted request is only that: what it
/// led to is read elsewhere.
pub fn expect_accepted(what: &str, status: u16) -> (result: Result<(), HarnessError>)
    ensures
        match result {
            Ok(()) => status == 202,
            Err(error) => status != 202 && error@ == ErrorView::Http(
                what@ + " answered "@ + status_text(status) + ", not 202"@,
            ),
        },
{
    if status != 202 {
        let number = write_status(status);
        return Err(
            HarnessError::Http(
                what.to_owned().concat(" answered ").concat(number.as_str()).concat(", not 202"),
            ),
        );
    }
    Ok(())
}

/// Whether a request was accepted.  What came back is part of the failure.
pub fn expect_accepted_with_body(what: &str, status: u16, body: &str) -> (result: Result<
    (),
    HarnessError,
>)
    ensures
        match result {
            Ok(()) => status == 202,
            Err(error) => status != 202 && error@ == ErrorView::Http(
                what@ + " answered "@ + status_text(status) + ", not 202: "@ + body@,
            ),
        },
{
    if status != 202 {
        let number = write_status(status);
        return Err(
            HarnessError::Http(
                what.to_owned().concat(" answered ").concat(number.as_str()).concat(
                    ", not 202: ",
                ).concat(body),
            ),
        );
    }
    Ok(())
}

/// Whether a stream was opened.
pub fn expect_stream(what: &str, status: u16, opened: bool) -> (result: Result<(), HarnessError>)
    ensures
        match result {
            Ok(()) => opened,
            Err(error) => !opened && error@ == ErrorView::Http(
                what@ + " answered "@ + status_text(status),
            ),
        },
{
    if !opened {
        let number = write_status(status);
        return Err(
            HarnessError::Http(what.to_owned().concat(" answered ").concat(number.as_str())),
        );
    }
    Ok(())
}

/// The connection that an `initialize` opened: the identifier comes from the
/// response's header.
pub fn opened_connection(status: u16, header: Option<&str>) -> (result: Result<
    String,
    HarnessError,
>)
    ensures
        match result {
            Ok(connection) => status == 200 && label_view(header) == Some(connection@),
            Err(error) => error@ == ErrorView::Http(
                if status != 200 {
                    "initialize over the real route answered "@ + status_text(status)
                } else {
                    "initialize returned no Acp-Connection-Id"@
                },
            ) && (status != 200 || header is None),
        },
{
    if status != 200 {
        let number = write_status(status);
        return Err(
            HarnessError::Http(
                "initialize over the real route answered ".to_owned().concat(number.as_str()),
            ),
        );
    }
    match header {
        Some(connection) => Ok(connection.to_owned()),
        None => Err(HarnessError::http("initialize returned no Acp-Connection-Id")),
    }
}

/// Whether a wait for a stream to fail is over: the stream failed or ended, or
/// its time is up.
pub fn wait_over(errored: bool, ended: bool, past_deadline: bool) -> (over: bool)
    ensures
        over == (errored || ended || past_deadline),
{
    errored || ended || past_deadline
}

/// What to do after one look for a message on a stream that has not come yet.
pub enum MessageStep {
    Again,
    Failed(HarnessError),
}

/// Decides on one look for a message that a stream has not carried yet.  A
/// stream that never carries it is a failure with a name, not a hang.
pub fn judge_absent_message(what: &str, errored: bool, past_deadline: bool) -> (step: MessageStep)
    ensures
        match step {
            MessageStep::Again => !errored && !past_deadline,
            MessageStep::Failed(error) => (errored || past_deadline) && error@ == if errored {
                ErrorView::Process("the stream errored before "@ + what@ + " arrived"@)
            } else {
                ErrorView::Timeout(what@ + " never arrived on the stream"@)
            },
        },
{
    if errored {
        MessageStep::Failed(
            HarnessError::Process(
                "the stream errored before ".to_owned().concat(what).concat(" arrived"),
            ),
        )
    } else if past_deadline {
        MessageStep::Failed(
            HarnessError::Timeout(what.to_owned().concat(" never arrived on the stream")),
        )
    } else {
        MessageStep::Again
    }
}

/// What a disturbance did to a held turn.
#[derive(Clone, Copy, Debug, Eq, PartialEq, Structural)]
pub struct Interruption {
    /// The stream failed.  A clean end would say that the turn finished.
    pub interrupted: bool,
    /// No result for the held request was ever seen.
    pub no_stop_reason: bool,
}

/// What a disturbance did to a held turn.
pub fn judge_interruption(errored: bool, seen: &Vec<Json>, held: &str) -> (found: Interruption)
    ensures
        found.interrupted == errored,
        found.no_stop_reason == !has_result_for(message_views(seen@), held@),
{
    Interruption { interrupted: errored, no_stop_reason: no_stop_reason_for(seen, held) }
}

/// Whether the turn was accepted and its own result ended it.
pub fn turn_served(status: u16, stop: Option<&str>) -> (served: bool)
    ensures
        served == (status == 202 && label_view(stop) == Some("end_turn"@)),
{
    match stop {
        Some(reason) => status == 202 && same_text(reason, "end_turn"),
        None => false,
    }
}

/// What to do after one look at an agent's marker file.
pub enum MarkerStep {
    /// The agent recorded this outcome.
    Recorded(String),
    /// Look again.
    Again,
    /// The agent never recorded one.
    TimedOut(HarnessError),
}

/// Decides on one look at an agent's marker file, which counts as written once
/// it holds more than white space.
pub fn judge_marker(text: Option<&str>, past_deadline: bool, complaint: &str) -> (step: MarkerStep)
    ensures
        match step {
            MarkerStep::Recorded(outcome) => text is Some && outcome@ == trimmed(text->Some_0@)
                && outcome@.len() > 0,
            MarkerStep::Again => !past_deadline && (text is None || trimmed(text->Some_0@).len()
                == 0),
            MarkerStep::TimedOut(error) => past_deadline && (text is None || trimmed(
                text->Some_0@,
            ).len() == 0) && error@ == ErrorView::Timeout(complaint@),
        },
{
    match text {
        Some(text) => {
            let outcome = trim_text(text);
            if !is_blank(outcome.as_str()) {
                return MarkerStep::Recorded(outcome);
            }
        },
        None => {},
    }
    if past_deadline {
        MarkerStep::TimedOut(HarnessError::timeout(complaint))
    } else {
        MarkerStep::Again
    }
}

fn is_blank(text: &str) -> (blank: bool)
    ensures
        blank == (text@.len() == 0),
{
    proof {
        reveal_strlit("");
    }
    let blank = same_text(text, "");
    assert(text@.len() == 0 ==> text@ =~= ""@);
    blank
}

/// The identifier to answer a callback under: a string, without the mark of
/// its type.
pub fn callback_id(typed: &str) -> (result: Result<String, HarnessError>)
    ensures
        match result {
            Ok(id) => without_prefix(typed@, "s:"@) == Some(id@),
            Err(error) => without_prefix(typed@, "s:"@) is None && error@ == ErrorView::Process(
                "the callback id was not a string"@,
            ),
        },
{
    match strip_text_prefix(typed, "s:") {
        Some(id) => Ok(id),
        None => Err(HarnessError::process("the callback id was not a string")),
    }
}

/// Whether the option to answer with is one that the agent offered.
pub fn check_offered(offered: &Vec<String>, chosen: &str) -> (result: Result<(), HarnessError>)
    ensures
        match result {
            Ok(()) => views(offered@).contains(chosen@),
            Err(error) => !views(offered@).contains(chosen@) && error@ == ErrorView::Process(
                "the agent never offered "@ + chosen@ + "; it offered "@ + list_debug(
                    views(offered@),
                ),
            ),
        },
{
    if !holds_text(offered, chosen) {
        let list = write_list(offered);
        return Err(
            HarnessError::Process(
                "the agent never offered ".to_owned().concat(chosen).concat(
                    "; it offered ",
                ).concat(list.as_str()),
            ),
        );
    }
    Ok(())
}

/// The session that a `session/new` result names, unless it is known already.
pub fn fresh_session_id(value: &Json, known: &Vec<String>) -> (session: Option<String>)
    ensures
        match session {
            Some(session) => text_under(value@, "result"@, "sessionId"@) == Some(session@)
                && !views(known@).contains(session@),
            None => match text_under(value@, "result"@, "sessionId"@) {
                Some(found) => views(known@).contains(found),
                None => true,
            },
        },
{
    match session_id(value) {
        Some(session) => {
            if holds_text(known, session.as_str()) {
                None
            } else {
                Some(session)
            }
        },
        None => None,
    }
}

/// How many of the flags are set.
pub open spec fn set_flags(flags: Seq<bool>) -> nat
    decreases flags.len(),
{
    if flags.len() == 0 {
        0
    } else {
        set_flags(flags.drop_last()) + if flags.last() {
            1nat
        } else {
            0
        }
    }
}

/// How many of the agents' processes are left in the process table.
pub fn leftover_processes(alive: &Vec<bool>) -> (count: usize)
    ensures
        count == set_flags(alive@),
        count <= alive@.len(),
{
    let mut count: usize = 0;
    let mut i: usize = 0;
    assert(alive@.take(0) =~= Seq::<bool>::empty());
    while i < alive.len()
        invariant
            i <= alive.len(),
            count <= i,
            count == set_flags(alive@.take(i as int)),
        decreases alive.len() - i,
    {
        assert(alive@.take(i + 1).drop_last() =~= alive@.take(i as int));
        if alive[i] {
            count += 1;
        }
        i += 1;
    }
    assert(alive@.take(i as int) =~= alive@);
    count
}

/// The processes that are left add up, and one counts exactly when it is alive.
pub proof fn lemma_set_flags_add_up(first: Seq<bool>, second: Seq<bool>, one: bool)
    ensures
        set_flags(first + second) == set_flags(first) + set_flags(second),
        set_flags(seq![one]) == if one {
            1nat
        } else {
            0
        },
        set_flags(first) == 0 <==> forall|i: int| 0 <= i < first.len() ==> !#[trigger] first[i],
    decreases first.len() + second.len(),
{
    reveal_with_fuel(set_flags, 2);
    assert(seq![one].drop_last() =~= Seq::empty());
    if second.len() == 0 {
        assert(first + second =~= first);
    } else {
        assert((first + second).drop_last() =~= first + second.drop_last());
        lemma_set_flags_add_up(first, second.drop_last(), one);
    }
    lemma_none_set(first);
}

proof fn lemma_none_set(flags: Seq<bool>)
    ensures
        set_flags(flags) == 0 <==> forall|i: int| 0 <= i < flags.len() ==> !#[trigger] flags[i],
    decreases flags.len(),
{
    if flags.len() > 0 {
        let front = flags.drop_last();
        lemma_none_set(front);
        assert(flags.last() == flags[flags.len() - 1]);
        if set_flags(flags) == 0 {
            assert forall|i: int| 0 <= i < flags.len() implies !#[trigger] flags[i] by {
                if i < front.len() {
                    assert(!front[i]);
                }
            }
        }
        if forall|i: int| 0 <= i < flags.len() ==> !#[trigger] flags[i] {
            assert forall|i: int| 0 <= i < front.len() implies !#[trigger] front[i] by {
                assert(front[i] == flags[i]);
            }
        }
    }
}

} // verus!
