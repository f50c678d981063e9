//! The kinds of failure a run can end with.

use vstd::prelude::*;
use vstd::std_specs::convert::FromSpecImpl;
use vstd::string::StringExecFns;

verus! {

/// What went wrong, by kind.
#[derive(Debug, Clone, Copy, PartialEq, Eq, Structural)]
pub enum ErrorKind {
    /// No credentials were supplied and none are stored.
    LoginRequired,
    /// The local file system failed while reading or writing state.
    IoError,
    /// The credentials were rejected.
    LoginError,
    /// Fetched content did not have the expected shape.
    InvalidResponse,
    /// The transport failed.
    NetworkError,
}

impl ErrorKind {
    /// The text of the one-line description of this kind.
    pub open spec fn message_text(self) -> Seq<char> {
        match self {
            ErrorKind::LoginRequired => "you must be logged in before doing this operation"@,
            ErrorKind::IoError => "io error"@,
            ErrorKind::LoginError => "login error"@,
            ErrorKind::InvalidResponse => "received invalid response"@,
            ErrorKind::NetworkError => "network error"@,
        }
    }

    /// The one-line description of this kind.
    pub fn message(&self) -> (text: &'static str)
        ensures
            text@ == self.message_text(),
    {
        match self {
            ErrorKind::LoginRequired => "you must be logged in before doing this operation",
            ErrorKind::IoError => "io error",
            ErrorKind::LoginError => "login error",
            ErrorKind::InvalidResponse => "received invalid response",
            ErrorKind::NetworkError => "network error",
        }
    }
}

/// A failure: its kind and, where something underneath caused it, a
/// summary of that cause.
#[derive(Debug)]
pub struct Error {
    pub kind: ErrorKind,
    pub cause: Option<String>,
}

/// A failure as a plain value.
pub struct ErrorView {
    pub kind: ErrorKind,
    pub cause: Option<Seq<char>>,
}

impl View for Error {
    type V = ErrorView;

    open spec fn view(&self) -> ErrorView {
        ErrorView {
            kind: self.kind,
            cause: match self.cause {
                Some(cause) => Some(cause@),
                None => None,
            },
        }
    }
}

impl Error {
    /// A failure of the given kind that something underneath caused.
    pub fn with_cause(kind: ErrorKind, cause: String) -> (error: Error)
        ensures
            error.kind == kind,
            error.cause == Some(cause),
    {
        Error { kind, cause: Some(cause) }
    }

    /// A failure of the given kind with the given summary of its cause.
    pub fn caused_by(kind: ErrorKind, cause: &str) -> (error: Error)
        ensures
            error@ == (ErrorView { kind, cause: Some(cause@) }),
    {
        Error { kind, cause: Some(String::from_str(cause)) }
    }

    /// The text of the one-line description of this failure: the
    /// description of its kind and, after a colon, the summary of its cause.
    pub open spec fn description_text(self) -> Seq<char> {
        match self.cause {
            Some(cause) => self.kind.message_text() + ": "@ + cause@,
            None => self.kind.message_text(),
        }
    }

    /// The one-line description of this failure.
    pub fn description(&self) -> (text: String)
        ensures
            text@ == self.description_text(),
    {
        let mut text = String::from_str(self.kind.message());
        match &self.cause {
            Some(cause) => {
                text.append(": ");
                text.append(cause.as_str());
            },
            None => {},
        }
        text
    }
}

impl From<ErrorKind> for Error {
    fn from(kind: ErrorKind) -> (error: Error) {
        Error { kind, cause: None }
    }
}

impl FromSpecImpl<ErrorKind> for Error {
    open spec fn obeys_from_spec() -> bool {
        true
    }

    open spec fn from_spec(kind: ErrorKind) -> Error {
        Error { kind, cause: None }
    }
}

} // verus!
