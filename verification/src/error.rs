//! The errors that the library reports.

use vstd::prelude::*;

verus! {

/// What went wrong.
#[derive(Debug, Clone, Copy, PartialEq, Eq, Structural)]
pub enum ErrorKind {
    MessageNotFound,
    /// The server responded with some unexpected data.
    UnexpectedBehavior,
    /// The requested feature is unsupported for this client type.
    Unsupported,
    Io,
    /// An error from the IMAP server.
    Imap,
    /// An error from the POP server.
    Pop,
    Smtp,
    Tls,
    /// Failed to parse a date or time.
    ParseTime,
    ParseInt,
    /// Failed to parse a socket address.
    ParseAddress,
    /// Failed to parse the provided login configuration.
    InvalidLoginConfig,
    /// Failed to parse a mail message.
    ParseMessage,
    InvalidMessage,
    /// Error from the remote mail server.
    MailServer,
    /// Failed to serialize the given data to JSON.
    SerializeJSON,
    /// Could not detect a configuration from the given email address.
    ConfigNotFound,
    ParseEmailAddress,
    MailBoxNotFound,
    AttachmentNotFound,
    NoClientAvailable,
}

/// An error: its kind and a message for people.
#[derive(Debug)]
pub struct Error {
    message: String,
    kind: ErrorKind,
}

/// What an [`Error`] holds.
pub struct ErrorView {
    pub message: Seq<char>,
    pub kind: ErrorKind,
}

impl View for Error {
    type V = ErrorView;

    closed spec fn view(&self) -> ErrorView {
        ErrorView { message: self.message@, kind: self.kind }
    }
}

impl Error {
    pub fn new(kind: ErrorKind, message: String) -> (error: Self)
        ensures
            error@ == (ErrorView { message: message@, kind }),
    {
        Self { message, kind }
    }

    /// An error whose message is `prefix` followed by `subject`.
    pub fn about(kind: ErrorKind, prefix: &str, subject: &str) -> (error: Self)
        ensures
            error@ == (ErrorView { message: prefix@ + subject@, kind }),
    {
        let mut message = prefix.to_owned();
        message.append(subject);
        Self { message, kind }
    }

    pub fn kind(&self) -> (kind: &ErrorKind)
        ensures
            *kind == self@.kind,
    {
        &self.kind
    }

    /// The message, as the error displays it.
    pub fn message(&self) -> (message: &str)
        ensures
            message@ == self@.message,
    {
        self.message.as_str()
    }
}

} // verus!
