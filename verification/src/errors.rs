//! The error type shared by the whole library.

use vstd::prelude::*;
use vstd::string::*;

verus! {

/// What went wrong, without the cause.
#[derive(Debug)]
pub enum ErrorKind {
    /// A filesystem operation failed at this path.
    Io(String),
    /// The archive is unreadable or could not be produced.
    Snapshot(String),
    /// No build service could be recognised.
    UnrecognizedService,
    /// The blob store or its address is unusable.
    Storage,
}

/// Mathematical value of an [`ErrorKind`].
pub enum KindView {
    Io(Seq<char>),
    Snapshot(Seq<char>),
    UnrecognizedService,
    Storage,
}

impl View for ErrorKind {
    type V = KindView;

    open spec fn view(&self) -> KindView {
        match self {
            ErrorKind::Io(path) => KindView::Io(path@),
            ErrorKind::Snapshot(message) => KindView::Snapshot(message@),
            ErrorKind::UnrecognizedService => KindView::UnrecognizedService,
            ErrorKind::Storage => KindView::Storage,
        }
    }
}

/// An error kind together with the text of what caused it.
#[derive(Debug)]
pub struct Error {
    pub kind: ErrorKind,
    pub cause: Option<String>,
}

/// Mathematical value of an [`Error`].
pub struct ErrorView {
    pub kind: KindView,
    pub cause: Option<Seq<char>>,
}

impl View for Error {
    type V = ErrorView;

    open spec fn view(&self) -> ErrorView {
        ErrorView {
            kind: self.kind@,
            cause: match self.cause {
                Some(cause) => Some(cause@),
                None => None,
            },
        }
    }
}

/// The text that `{:?}` prints for a path: the path between double quotes,
/// with the characters that need it escaped.
pub uninterp spec fn quoted_path(path: Seq<char>) -> Seq<char>;

/// `format!("{:?}", ..)` on the path as an `OsStr`.
#[verifier::external_body]
pub(crate) fn quote_path(path: &str) -> (text: String)
    ensures
        text@ == quoted_path(path@),
{
    format!("{:?}", std::path::Path::new(path).as_os_str())
}

/// The text that `{:?}` prints for a string: the string between double
/// quotes, with the characters that need it escaped.
pub uninterp spec fn quoted_text(text: Seq<char>) -> Seq<char>;

/// `format!("{:?}", ..)` on a string slice.
#[verifier::external_body]
pub(crate) fn quote_text(text: &str) -> (quoted: String)
    ensures
        quoted@ == quoted_text(text@),
{
    format!("{:?}", text)
}

/// The fixed words that introduce an error of this kind.
pub open spec fn description(kind: KindView) -> Seq<char> {
    match kind {
        KindView::Io(_) => "I/O error"@,
        KindView::Snapshot(_) => "Snapshot error"@,
        KindView::UnrecognizedService => "Unrecognized service"@,
        KindView::Storage => "Storage error"@,
    }
}

/// The message of an error without its cause.
pub open spec fn headline(kind: KindView) -> Seq<char> {
    match kind {
        KindView::Io(path) => description(kind) + " at "@ + quoted_path(path),
        KindView::Snapshot(message) => description(kind) + "; "@ + message,
        KindView::UnrecognizedService => description(kind),
        KindView::Storage => description(kind),
    }
}

/// The full message of an error: the headline, then the cause after `"; "`.
pub open spec fn message(error: ErrorView) -> Seq<char> {
    match error.cause {
        Some(cause) => headline(error.kind) + "; "@ + cause,
        None => headline(error.kind),
    }
}

impl Error {
    /// A storage error caused by `cause`.
    pub fn storage(cause: &str) -> (error: Error)
        ensures
            error@ == (ErrorView { kind: KindView::Storage, cause: Some(cause@) }),
    {
        Error { kind: ErrorKind::Storage, cause: Some(String::from_str(cause)) }
    }

    /// An unrecognised-service error caused by `cause`.
    pub fn unrecognized_service(cause: &str) -> (error: Error)
        ensures
            error@ == (ErrorView { kind: KindView::UnrecognizedService, cause: Some(cause@) }),
    {
        Error { kind: ErrorKind::UnrecognizedService, cause: Some(String::from_str(cause)) }
    }

    /// An I/O error at `path` caused by `cause`.
    pub fn io(path: &str, cause: &str) -> (error: Error)
        ensures
            error@ == (ErrorView { kind: KindView::Io(path@), cause: Some(cause@) }),
    {
        Error { kind: ErrorKind::Io(String::from_str(path)), cause: Some(String::from_str(cause)) }
    }

    /// A snapshot error with `message`, caused by `cause`.
    pub fn snapshot(message: &str, cause: &str) -> (error: Error)
        ensures
            error@ == (ErrorView { kind: KindView::Snapshot(message@), cause: Some(cause@) }),
    {
        Error {
            kind: ErrorKind::Snapshot(String::from_str(message)),
            cause: Some(String::from_str(cause)),
        }
    }

    /// The failure `Err(Error::io(path, cause))`, for any success type.
    pub fn io_err<R>(path: &str, cause: &str) -> (result: Result<R, Error>)
        ensures
            result is Err,
            result->Err_0@ == (ErrorView { kind: KindView::Io(path@), cause: Some(cause@) }),
    {
        Err(Error::io(path, cause))
    }

    /// The failure `Err(Error::snapshot(message, cause))`, for any success type.
    pub fn snapshot_err<R>(message: &str, cause: &str) -> (result: Result<R, Error>)
        ensures
            result is Err,
            result->Err_0@ == (ErrorView { kind: KindView::Snapshot(message@), cause: Some(cause@) }),
    {
        Err(Error::snapshot(message, cause))
    }

    /// The words that introduce this error's kind.
    pub fn description(&self) -> (text: &'static str)
        ensures
            text@ == description(self@.kind),
    {
        match &self.kind {
            ErrorKind::Io(_) => "I/O error",
            ErrorKind::Snapshot(_) => "Snapshot error",
            ErrorKind::UnrecognizedService => "Unrecognized service",
            ErrorKind::Storage => "Storage error",
        }
    }

    /// The text of the cause, if one was recorded.
    pub fn source(&self) -> (cause: Option<&str>)
        ensures
            match cause {
                Some(text) => self@.cause == Some(text@),
                None => self@.cause is None,
            },
    {
        match &self.cause {
            Some(cause) => Some(cause.as_str()),
            None => None,
        }
    }

    /// The message shown to the user.
    pub fn to_string(&self) -> (text: String)
        ensures
            text@ == message(self@),
    {
        let mut text = String::from_str(self.description());
        match &self.kind {
            ErrorKind::Io(path) => {
                let quoted = quote_path(path.as_str());
                text.append(" at ");
                text.append(quoted.as_str());
            },
            ErrorKind::Snapshot(message) => {
                text.append("; ");
                text.append(message.as_str());
            },
            ErrorKind::UnrecognizedService => {},
            ErrorKind::Storage => {},
        }
        match &self.cause {
            Some(cause) => {
                text.append("; ");
                text.append(cause.as_str());
            },
            None => {},
        }
        text
    }
}

/// Turning the failure of a step into an [`Error`] that says where it happened.
pub trait ResultExt<T>: Sized {
    /// The success value, or the text of the failure.
    spec fn outcome(self) -> Result<T, Seq<char>>;

    /// Keeps a success; a failure becomes an I/O error at `path`.
    fn io_err(self, path: &str) -> (result: Result<T, Error>)
        ensures
            match self.outcome() {
                Ok(value) => result == Ok::<T, Error>(value),
                Err(cause) => result is Err && result->Err_0@ == (ErrorView {
                    kind: KindView::Io(path@),
                    cause: Some(cause),
                }),
            },
    ;

    /// Keeps a success; a failure becomes a snapshot error with `message`.
    fn snapshot_err(self, message: &str) -> (result: Result<T, Error>)
        ensures
            match self.outcome() {
                Ok(value) => result == Ok::<T, Error>(value),
                Err(cause) => result is Err && result->Err_0@ == (ErrorView {
                    kind: KindView::Snapshot(message@),
                    cause: Some(cause),
                }),
            },
    ;
}

impl<T> ResultExt<T> for Result<T, String> {
    open spec fn outcome(self) -> Result<T, Seq<char>> {
        match self {
            Ok(value) => Ok(value),
            Err(cause) => Err(cause@),
        }
    }

    fn io_err(self, path: &str) -> (result: Result<T, Error>) {
        match self {
            Ok(value) => Ok(value),
            Err(cause) => Err(Error::io(path, cause.as_str())),
        }
    }

    fn snapshot_err(self, message: &str) -> (result: Result<T, Error>) {
        match self {
            Ok(value) => Ok(value),
            Err(cause) => Err(Error::snapshot(message, cause.as_str())),
        }
    }
}

} // verus!
