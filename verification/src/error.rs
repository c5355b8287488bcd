//! The errors of the harness.

use vstd::prelude::*;
use vstd::string::*;

verus! {

/// Why a step of the harness failed, with what went wrong in words.
#[derive(Clone, Debug, Eq, PartialEq)]
pub enum HarnessError {
    Timeout(String),
    Http(String),
    Io(String),
    Json(String),
    InvalidInput(String),
    Process(String),
    CliExitedBeforeReady(String),
    Redis(String),
    Proxy(String),
    Pki(String),
    Jwt(String),
    MissingRedisUrl(String),
    InvalidRedisUrl(String),
    Unsupported(String),
}

/// The model of an error.
pub enum ErrorView {
    Timeout(Seq<char>),
    Http(Seq<char>),
    Io(Seq<char>),
    Json(Seq<char>),
    InvalidInput(Seq<char>),
    Process(Seq<char>),
    CliExitedBeforeReady(Seq<char>),
    Redis(Seq<char>),
    Proxy(Seq<char>),
    Pki(Seq<char>),
    Jwt(Seq<char>),
    MissingRedisUrl(Seq<char>),
    InvalidRedisUrl(Seq<char>),
    Unsupported(Seq<char>),
}

impl View for HarnessError {
    type V = ErrorView;

    open spec fn view(&self) -> ErrorView {
        match *self {
            HarnessError::Timeout(text) => ErrorView::Timeout(text@),
            HarnessError::Http(text) => ErrorView::Http(text@),
            HarnessError::Io(text) => ErrorView::Io(text@),
            HarnessError::Json(text) => ErrorView::Json(text@),
            HarnessError::InvalidInput(text) => ErrorView::InvalidInput(text@),
            HarnessError::Process(text) => ErrorView::Process(text@),
            HarnessError::CliExitedBeforeReady(text) => ErrorView::CliExitedBeforeReady(text@),
            HarnessError::Redis(text) => ErrorView::Redis(text@),
            HarnessError::Proxy(text) => ErrorView::Proxy(text@),
            HarnessError::Pki(text) => ErrorView::Pki(text@),
            HarnessError::Jwt(text) => ErrorView::Jwt(text@),
            HarnessError::MissingRedisUrl(text) => ErrorView::MissingRedisUrl(text@),
            HarnessError::InvalidRedisUrl(text) => ErrorView::InvalidRedisUrl(text@),
            HarnessError::Unsupported(text) => ErrorView::Unsupported(text@),
        }
    }
}

impl ErrorView {
    /// What went wrong, in words.
    pub open spec fn detail(self) -> Seq<char> {
        match self {
            ErrorView::Timeout(text) => text,
            ErrorView::Http(text) => text,
            ErrorView::Io(text) => text,
            ErrorView::Json(text) => text,
            ErrorView::InvalidInput(text) => text,
            ErrorView::Process(text) => text,
            ErrorView::CliExitedBeforeReady(text) => text,
            ErrorView::Redis(text) => text,
            ErrorView::Proxy(text) => text,
            ErrorView::Pki(text) => text,
            ErrorView::Jwt(text) => text,
            ErrorView::MissingRedisUrl(text) => text,
            ErrorView::InvalidRedisUrl(text) => text,
            ErrorView::Unsupported(text) => text,
        }
    }
}

impl ErrorView {
    /// What the error prints: its class, where that has a name of its own in
    /// print, and what went wrong.
    pub open spec fn text(self) -> Seq<char> {
        match self {
            ErrorView::Timeout(text) => "harness timeout: "@ + text,
            ErrorView::Http(text) => "HTTP/TLS probe error: "@ + text,
            ErrorView::InvalidInput(text) => "invalid harness input: "@ + text,
            ErrorView::Process(text) => "managed process error: "@ + text,
            ErrorView::Redis(text) => "Redis harness error: "@ + text,
            _ => self.detail(),
        }
    }
}

impl HarnessError {
    /// What the error prints.
    pub fn message(&self) -> (text: String)
        ensures
            text@ == self@.text(),
    {
        match self {
            HarnessError::Timeout(text) => "harness timeout: ".to_owned().concat(text.as_str()),
            HarnessError::Http(text) => "HTTP/TLS probe error: ".to_owned().concat(text.as_str()),
            HarnessError::InvalidInput(text) => "invalid harness input: ".to_owned().concat(
                text.as_str(),
            ),
            HarnessError::Process(text) => "managed process error: ".to_owned().concat(
                text.as_str(),
            ),
            HarnessError::Redis(text) => "Redis harness error: ".to_owned().concat(text.as_str()),
            _ => self.detail().to_owned(),
        }
    }

    /// What went wrong, in words.
    pub fn detail(&self) -> (text: &str)
        ensures
            text@ == self@.detail(),
    {
        match self {
            HarnessError::Timeout(text) => text.as_str(),
            HarnessError::Http(text) => text.as_str(),
            HarnessError::Io(text) => text.as_str(),
            HarnessError::Json(text) => text.as_str(),
            HarnessError::InvalidInput(text) => text.as_str(),
            HarnessError::Process(text) => text.as_str(),
            HarnessError::CliExitedBeforeReady(text) => text.as_str(),
            HarnessError::Redis(text) => text.as_str(),
            HarnessError::Proxy(text) => text.as_str(),
            HarnessError::Pki(text) => text.as_str(),
            HarnessError::Jwt(text) => text.as_str(),
            HarnessError::MissingRedisUrl(text) => text.as_str(),
            HarnessError::InvalidRedisUrl(text) => text.as_str(),
            HarnessError::Unsupported(text) => text.as_str(),
        }
    }

    /// A failure of a managed process or of what it showed.
    pub fn process(text: &str) -> (error: Self)
        ensures
            error@ == ErrorView::Process(text@),
    {
        HarnessError::Process(text.to_owned())
    }

    /// A missed deadline.
    pub fn timeout(text: &str) -> (error: Self)
        ensures
            error@ == ErrorView::Timeout(text@),
    {
        HarnessError::Timeout(text.to_owned())
    }

    /// An input that the harness does not accept.
    pub fn invalid_input(text: &str) -> (error: Self)
        ensures
            error@ == ErrorView::InvalidInput(text@),
    {
        HarnessError::InvalidInput(text.to_owned())
    }

    /// An answer of the route that was not the one expected.
    pub fn http(text: &str) -> (error: Self)
        ensures
            error@ == ErrorView::Http(text@),
    {
        HarnessError::Http(text.to_owned())
    }
}

/// What an error prints ends with what went wrong, and its class stands before
/// that where it has a name in print.
pub proof fn lemma_error_in_print(text: Seq<char>)
    ensures
        ErrorView::Timeout(text).text() == "harness timeout: "@ + text,
        ErrorView::Http(text).text() == "HTTP/TLS probe error: "@ + text,
        ErrorView::InvalidInput(text).text() == "invalid harness input: "@ + text,
        ErrorView::Process(text).text() == "managed process error: "@ + text,
        ErrorView::Redis(text).text() == "Redis harness error: "@ + text,
        ErrorView::Io(text).text() == text,
        ErrorView::Json(text).text() == text,
        ErrorView::CliExitedBeforeReady(text).text() == text,
        ErrorView::Proxy(text).text() == text,
        ErrorView::Pki(text).text() == text,
        ErrorView::Jwt(text).text() == text,
        ErrorView::MissingRedisUrl(text).text() == text,
        ErrorView::InvalidRedisUrl(text).text() == text,
        ErrorView::Unsupported(text).text() == text,
        ErrorView::Process(text).detail() == text,
        ErrorView::Timeout(text).detail() == text,
        ErrorView::Http(text).detail() == text,
{
}

} // verus!
