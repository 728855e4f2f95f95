//! Errors of the store, and which of them end the work in hand.
use vstd::prelude::*;

verus! {

/// Why a table could not be opened.
pub enum TableErrorKind {
    /// The table has never been written.
    TableDoesNotExist(String),
    /// The storage underneath failed.
    Storage(String),
    /// The table exists with another type, or is already open.
    Other(String),
}

/// Why a transaction could not begin.
pub enum TransactionErrorKind {
    /// A read transaction still holds the data.
    ReadTransactionStillInUse(String),
    /// The storage underneath failed.
    Storage(String),
    /// Another reason.
    Other(String),
}

/// An error of the store.
pub enum StoreError {
    /// A row or a line of text could not be read.
    ParseError(String),
    /// A login failed; `fatal` is what the login reported of itself.
    LoginError { fatal: bool, message: String },
    /// A table could not be opened.
    TableError(TableErrorKind),
    /// The storage failed.
    StorageError(String),
    /// A transaction could not begin.
    TransactionError(TransactionErrorKind),
    /// A transaction could not be committed.
    CommitError(String),
    /// A write was asked of a read transaction.
    WriteOnReadTransaction,
    /// The operation makes no sense on the data as it stands.
    LogicError(String),
    /// A value that must exist was missing.
    UnexpectedNone(String),
}

/// Whether an error ends the work in hand, or only the item it was met on.
pub open spec fn spec_is_fatal(e: StoreError) -> bool {
    match e {
        StoreError::ParseError(_) => false,
        StoreError::LoginError { fatal, .. } => fatal,
        StoreError::TransactionError(TransactionErrorKind::ReadTransactionStillInUse(_)) => false,
        StoreError::WriteOnReadTransaction => false,
        _ => true,
    }
}

impl StoreError {
    /// Whether this error ends the work in hand: only a parse error, a write on a
    /// read transaction, a read transaction still in use, or a login error that
    /// is not fatal itself, let the work go on.
    pub fn is_fatal(&self) -> (r: bool)
        ensures
            r == spec_is_fatal(*self),
    {
        match self {
            StoreError::StorageError(_) => true,
            StoreError::TableError(_) => true,
            StoreError::ParseError(_) => false,
            StoreError::LoginError { fatal, .. } => *fatal,
            StoreError::TransactionError(e) => match e {
                TransactionErrorKind::Storage(_) => true,
                TransactionErrorKind::ReadTransactionStillInUse(_) => false,
                TransactionErrorKind::Other(_) => true,
            },
            StoreError::CommitError(_) => true,
            StoreError::WriteOnReadTransaction => false,
            StoreError::LogicError(_) => true,
            StoreError::UnexpectedNone(_) => true,
        }
    }
}

/// An error of a command: one that the sign-in service reported, where `fatal` is
/// what that error reported of itself, or an error of the store.
pub enum Error {
    AgentError { fatal: bool, message: String },
    ActivityError { fatal: bool, message: String },
    CaptchaError(String),
    CourseError { fatal: bool, message: String },
    LoginError { fatal: bool, message: String },
    ProtocolError(String),
    SignError { fatal: bool, message: String },
    StoreError(StoreError),
}

/// Whether an error of a command ends the run: a captcha or protocol error never
/// does; a store error as `spec_is_fatal` states; the others as they report.
pub open spec fn error_is_fatal(e: Error) -> bool {
    match e {
        Error::AgentError { fatal, .. } => fatal,
        Error::ActivityError { fatal, .. } => fatal,
        Error::CaptchaError(_) => false,
        Error::CourseError { fatal, .. } => fatal,
        Error::LoginError { fatal, .. } => fatal,
        Error::ProtocolError(_) => false,
        Error::SignError { fatal, .. } => fatal,
        Error::StoreError(s) => spec_is_fatal(s),
    }
}

impl Error {
    /// Whether this error ends the run, as `error_is_fatal` states.
    pub fn is_fatal(&self) -> (r: bool)
        ensures
            r == error_is_fatal(*self),
    {
        match self {
            Error::AgentError { fatal, .. } => *fatal,
            Error::ActivityError { fatal, .. } => *fatal,
            Error::CaptchaError(_) => false,
            Error::CourseError { fatal, .. } => *fatal,
            Error::LoginError { fatal, .. } => *fatal,
            Error::ProtocolError(_) => false,
            Error::SignError { fatal, .. } => *fatal,
            Error::StoreError(e) => e.is_fatal(),
        }
    }
}

} // verus!
