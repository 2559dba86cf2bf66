//! The error type shared by the codec, the command model and the storage engine.

use vstd::prelude::*;

verus! {

/// What can go wrong while serving one request.
///
/// Each variant carries a human-readable description; `to_string` is the
/// only form in which an error ever reaches a client.
#[derive(Debug, PartialEq, Eq)]
pub enum Error {
    /// A storage fault: the durability log or the snapshot could not be written or read.
    Io(String),
    /// Malformed or unsupported wire input.
    Protocol(String),
    /// A well-formed frame that is not a valid command.
    Command(String),
}

/// The mathematical model of an [`Error`].
pub enum ErrorView {
    Io(Seq<char>),
    Protocol(Seq<char>),
    Command(Seq<char>),
}

impl ErrorView {
    /// The text shown for the error: its kind, a colon, and its description.
    pub open spec fn text(self) -> Seq<char> {
        match self {
            ErrorView::Io(m) => "IO error: "@ + m,
            ErrorView::Protocol(m) => "Protocol error: "@ + m,
            ErrorView::Command(m) => "Command error: "@ + m,
        }
    }
}

impl View for Error {
    type V = ErrorView;

    open spec fn view(&self) -> ErrorView {
        match self {
            Error::Io(m) => ErrorView::Io(m@),
            Error::Protocol(m) => ErrorView::Protocol(m@),
            Error::Command(m) => ErrorView::Command(m@),
        }
    }
}

impl Clone for Error {
    fn clone(&self) -> (e: Error)
        ensures
            e@ == self@,
    {
        match self {
            Error::Io(m) => Error::Io(m.clone()),
            Error::Protocol(m) => Error::Protocol(m.clone()),
            Error::Command(m) => Error::Command(m.clone()),
        }
    }
}

impl Error {
    /// A protocol error with the given description.
    pub fn protocol(description: &str) -> (e: Error)
        ensures
            e@ == ErrorView::Protocol(description@),
    {
        Error::Protocol(description.to_owned())
    }

    /// A command error with the given description.
    pub fn command(description: &str) -> (e: Error)
        ensures
            e@ == ErrorView::Command(description@),
    {
        Error::Command(description.to_owned())
    }

    /// The text shown to a client.
    pub fn to_string(&self) -> (text: String)
        ensures
            text@ == self@.text(),
    {
        match self {
            Error::Io(m) => "IO error: ".to_owned().concat(m.as_str()),
            Error::Protocol(m) => "Protocol error: ".to_owned().concat(m.as_str()),
            Error::Command(m) => "Command error: ".to_owned().concat(m.as_str()),
        }
    }
}

} // verus!
