//! Failures, and how the program reports them.
use vstd::prelude::*;
use vstd::string::StringExecFns;

verus! {

/// A failure: what kind it is, what to tell the user, and the exit code of the program.
#[derive(Debug)]
pub struct Error {
    pub kind: &'static str,
    pub message: String,
    pub exit_code: u8,
}

/// What an [`Error`] says.
#[verifier::ext_equal]
pub struct ErrorView {
    pub kind: Seq<char>,
    pub message: Seq<char>,
    pub exit_code: u8,
}

impl View for Error {
    type V = ErrorView;

    open spec fn view(&self) -> ErrorView {
        ErrorView { kind: self.kind@, message: self.message@, exit_code: self.exit_code }
    }
}

impl ErrorView {
    /// A request that cannot be carried out as it stands.
    pub open spec fn invalid(message: Seq<char>) -> ErrorView {
        ErrorView { kind: "invalid_request"@, message, exit_code: 2 }
    }

    /// A reply that does not follow the protocol.
    pub open spec fn protocol(message: Seq<char>) -> ErrorView {
        ErrorView { kind: "protocol"@, message, exit_code: 1 }
    }

    /// A device, or a state of one, that the program does not support.
    pub open spec fn unsupported(message: Seq<char>) -> ErrorView {
        ErrorView { kind: "unsupported"@, message, exit_code: 5 }
    }

    /// The same failure with its circumstances put in front of the message.
    pub open spec fn context(self, context: Seq<char>) -> ErrorView {
        ErrorView {
            kind: self.kind,
            message: context + ": "@ + self.message,
            exit_code: self.exit_code,
        }
    }

    /// A failure of the operating system.
    pub open spec fn io(context: Seq<char>, kind: OsErrorKind, detail: Seq<char>) -> ErrorView {
        ErrorView {
            kind: if kind is PermissionDenied {
                "permission"@
            } else {
                "io"@
            },
            message: context + ": "@ + detail,
            exit_code: 1,
        }
    }
}

/// A result as its error reads.
pub open spec fn outcome<T>(result: Result<T, Error>) -> Result<T, ErrorView> {
    match result {
        Ok(value) => Ok(value),
        Err(error) => Err(error@),
    }
}

/// The kinds of operating system errors that are told apart.
#[derive(Clone, Copy, Debug, PartialEq, Eq, Structural)]
pub enum OsErrorKind {
    PermissionDenied,
    NotFound,
    WouldBlock,
    Other,
}

/// An error of the operating system, with its own description.
#[derive(Debug)]
pub struct OsError {
    pub kind: OsErrorKind,
    pub detail: String,
}

impl Error {
    pub fn new(code: u8, kind: &'static str, message: &str) -> (error: Self)
        ensures
            error@ == (ErrorView { kind: kind@, message: message@, exit_code: code }),
            error.kind == kind,
    {
        Error { kind, message: String::from_str(message), exit_code: code }
    }

    pub fn invalid(message: &str) -> (error: Self)
        ensures
            error@ == ErrorView::invalid(message@),
    {
        Self::new(2, "invalid_request", message)
    }

    pub fn protocol(message: &str) -> (error: Self)
        ensures
            error@ == ErrorView::protocol(message@),
    {
        Self::new(1, "protocol", message)
    }

    pub fn unsupported(message: &str) -> (error: Self)
        ensures
            error@ == ErrorView::unsupported(message@),
    {
        Self::new(5, "unsupported", message)
    }

    /// Puts the circumstances of the failure in front of its message.
    pub fn context(self, context: &str) -> (error: Self)
        ensures
            error@ == self@.context(context@),
    {
        let message = String::from_str(context).concat(": ").concat(self.message.as_str());
        Error { kind: self.kind, message, exit_code: self.exit_code }
    }

    /// Reports an error of the operating system. A missing permission is a kind of its own.
    pub fn io(context: &str, error: &OsError) -> (reported: Self)
        ensures
            reported@ == ErrorView::io(context@, error.kind, error.detail@),
    {
        let kind = if error.kind == OsErrorKind::PermissionDenied {
            "permission"
        } else {
            "io"
        };
        let message = String::from_str(context).concat(": ").concat(error.detail.as_str());
        Self::new(1, kind, message.as_str())
    }
}

} // verus!
