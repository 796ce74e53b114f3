//! Errors: a code that callers act on, a sentence for people, and advice on what to do next.
use crate::ids::OperationId;
use vstd::prelude::*;

verus! {

/// What went wrong, as far as a caller can act on it.
#[derive(Clone, Copy, Debug, PartialEq, Eq, PartialOrd, Ord, Hash, Structural)]
pub enum ErrorCode {
    InternalInvariant,
    InvalidLimit,
    PreconditionFailed,
    InvalidRequest,
    RefConflict,
    RepositoryFormatConflict,
    InvalidRevision,
    RepositoryNotInitialized,
    CorruptCommit,
    BatchExpired,
    BatchConflict,
    EntityTooLarge,
    InvalidKey,
    InvalidRange,
    CorruptContent,
    MissingClosure,
    ChecksumMismatch,
    InvalidContinuationToken,
    HistoryLimitExceeded,
    CorruptNode,
    MissingCapability,
    IdempotencyConflict,
    MergeConflict,
    NoMergeBase,
    InvalidBranch,
    UnsupportedRepositoryFormat,
    OutcomeUnknown,
    ProviderNotQualified,
    Transport,
}

/// What a caller should do with a failed operation.
#[derive(Clone, Copy, Debug, PartialEq, Eq, Structural)]
pub enum RetryAdvice {
    /// Nothing is gained by trying again.
    Never,
    /// Try again after so many milliseconds.
    AfterMillis(u64),
    /// Look up what became of the operation before trying again.
    ReconcileOperation,
}

/// A failed operation.
#[derive(Clone, Debug, PartialEq, Eq)]
pub struct Error {
    pub code: ErrorCode,
    pub message: String,
    pub retry: RetryAdvice,
    pub operation: Option<OperationId>,
}

/// The contents of an error.
pub struct Fault {
    pub code: ErrorCode,
    pub message: Seq<char>,
    pub retry: RetryAdvice,
    pub operation: Option<OperationId>,
}

impl View for Error {
    type V = Fault;

    open spec fn view(&self) -> Fault {
        Fault {
            code: self.code,
            message: self.message@,
            retry: self.retry,
            operation: self.operation,
        }
    }
}

/// An error with no advice that names no operation.
pub open spec fn fault(code: ErrorCode, message: &str) -> Fault {
    Fault { code, message: message@, retry: RetryAdvice::Never, operation: None }
}

impl Fault {
    /// The same error, naming an operation.
    pub open spec fn of_operation(self, operation: OperationId) -> Fault {
        Fault { operation: Some(operation), ..self }
    }

    /// The same error, with advice.
    pub open spec fn with_retry(self, retry: RetryAdvice) -> Fault {
        Fault { retry, ..self }
    }
}

/// A result, its error taken by its contents.
pub open spec fn outcome<T>(r: Result<T, Error>) -> Result<T, Fault> {
    match r {
        Ok(value) => Ok(value),
        Err(error) => Err(error@),
    }
}

impl Error {
    /// An error with no advice that names no operation.
    pub fn new(code: ErrorCode, message: &str) -> (r: Self)
        ensures
            r@ == fault(code, message),
    {
        Error { code, message: message.to_owned(), retry: RetryAdvice::Never, operation: None }
    }

    /// The same error, naming an operation.
    pub fn operation(self, operation: OperationId) -> (r: Self)
        ensures
            r@ == self@.of_operation(operation),
    {
        Error {
            code: self.code,
            message: self.message,
            retry: self.retry,
            operation: Some(operation),
        }
    }

    /// The same error, with advice.
    pub fn retry(self, retry: RetryAdvice) -> (r: Self)
        ensures
            r@ == self@.with_retry(retry),
    {
        Error { code: self.code, message: self.message, retry, operation: self.operation }
    }

    /// A copy of the error.
    pub fn copied(&self) -> (r: Self)
        ensures
            r@ == self@,
    {
        Error {
            code: self.code,
            message: self.message.clone(),
            retry: self.retry,
            operation: self.operation,
        }
    }
}

/// An error says its code, its sentence, its advice and its operation, and a result says what it holds or what went
/// wrong: two errors are the same exactly where they say the same.
pub proof fn law_error_says_all_it_holds<T>(error: Error, value: T, code: ErrorCode, message: &str)
    ensures
        error@.code == error.code,
        error@.message == error.message@,
        error@.retry == error.retry,
        error@.operation == error.operation,
        outcome(Ok::<T, Error>(value)) == Ok::<T, Fault>(value),
        outcome(Err::<T, Error>(error)) == Err::<T, Fault>(error@),
        fault(code, message).code == code,
        fault(code, message).message == message@,
        fault(code, message).retry == RetryAdvice::Never,
        fault(code, message).operation is None,
{
}

} // verus!
