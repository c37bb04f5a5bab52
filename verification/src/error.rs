//! The errors of fetching the server-driven model config.
use vstd::prelude::*;

verus! {

/// Errors from fetching the server-driven model config. Neither variant is retried: model config
/// comes from the server or not at all.
#[derive(Debug, PartialEq, Eq)]
pub enum AdAgentConfigError {
    NotLoggedIn,
    Unavailable(String),
}

impl AdAgentConfigError {
    /// What the error says.
    pub open spec fn text(&self) -> Seq<char> {
        match self {
            AdAgentConfigError::NotLoggedIn => "not logged in; run `codex login`"@,
            AdAgentConfigError::Unavailable(reason) =>
                "failed to fetch model config from server: "@ + reason@,
        }
    }

    /// The error's message.
    pub fn message(&self) -> (message: String)
        ensures
            message@ == self.text(),
            match self {
                AdAgentConfigError::NotLoggedIn => message@ == "not logged in; run `codex login`"@,
                AdAgentConfigError::Unavailable(reason) => message@
                    == "failed to fetch model config from server: "@ + reason@,
            },
    {
        match self {
            AdAgentConfigError::NotLoggedIn => "not logged in; run `codex login`".to_owned(),
            AdAgentConfigError::Unavailable(reason) => {
                let mut message = "failed to fetch model config from server: ".to_owned();
                message.append(reason.as_str());
                message
            },
        }
    }
}

/// The error type of `std::io`.
#[verifier::external_type_specification]
#[verifier::external_body]
pub struct ExIoError(std::io::Error);

/// The message of an I/O error.
pub uninterp spec fn io_error_text(error: std::io::Error) -> Seq<char>;

/// Whether the kind of an I/O error is `std::io::ErrorKind::Other`.
pub uninterp spec fn io_error_is_other(error: std::io::Error) -> bool;

/// Calls `std::io::Error::other`, which makes an I/O error of the kind `Other` with `message` as
/// its payload. The payload is the error's message.
#[verifier::external_body]
fn other_io_error(message: String) -> (error: std::io::Error)
    ensures
        io_error_text(error) == message@,
        io_error_is_other(error),
{
    std::io::Error::other(message)
}

impl vstd::std_specs::convert::FromSpecImpl<AdAgentConfigError> for std::io::Error {
    open spec fn obeys_from_spec() -> bool {
        false
    }

    open spec fn from_spec(err: AdAgentConfigError) -> std::io::Error {
        arbitrary()
    }
}

impl From<AdAgentConfigError> for std::io::Error {
    /// An I/O error of no particular kind that carries the error's message.
    fn from(err: AdAgentConfigError) -> (error: std::io::Error)
        ensures
            io_error_text(error) == err.text(),
            match err {
                AdAgentConfigError::NotLoggedIn => io_error_text(error)
                    == "not logged in; run `codex login`"@,
                AdAgentConfigError::Unavailable(reason) => io_error_text(error)
                    == "failed to fetch model config from server: "@ + reason@,
            },
            io_error_is_other(error),
    {
        other_io_error(err.message())
    }
}

} // verus!
