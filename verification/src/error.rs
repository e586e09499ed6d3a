use vstd::prelude::*;
use crate::domain::json::JsonValue;

verus! {

/// Category of a failure reported by the library.
#[derive(Debug, Clone, Copy, PartialEq, Eq, Structural)]
pub enum ErrorKind {
    Validation,
    NotFound,
    Conflict,
    Internal,
    Timeout,
    StorageUnavailable,
    SearchDegraded,
}

/// A failure with its category, a human readable message, an optional
/// stable error code that overrides the category's default code, and
/// optional structured details.
#[derive(Debug)]
pub struct AppError {
    pub kind: ErrorKind,
    pub message: String,
    pub code: Option<String>,
    pub details: Option<JsonValue>,
}

impl AppError {
    pub fn new(kind: ErrorKind, message: &str) -> (r: AppError)
        ensures
            r.kind == kind,
            r.message@ == message@,
            r.code.is_none(),
            r.details.is_none(),
    {
        AppError { kind, message: message.to_owned(), code: None, details: None }
    }

    pub fn validation(message: &str) -> (r: AppError)
        ensures
            r.kind == ErrorKind::Validation,
            r.message@ == message@,
            r.code.is_none(),
            r.details.is_none(),
    {
        AppError::new(ErrorKind::Validation, message)
    }

    /// An invalid-input error carrying structured details.
    pub fn invalid_input(message: &str, details: Option<JsonValue>) -> (r: AppError)
        ensures
            r.kind == ErrorKind::Validation,
            r.message@ == message@,
            r.code.is_none(),
            r.details == details,
    {
        AppError { kind: ErrorKind::Validation, message: message.to_owned(), code: None, details }
    }

    pub fn conflict(message: &str) -> (r: AppError)
        ensures
            r.kind == ErrorKind::Conflict,
            r.message@ == message@,
            r.code.is_none(),
    {
        AppError::new(ErrorKind::Conflict, message)
    }

    pub fn internal(message: &str) -> (r: AppError)
        ensures
            r.kind == ErrorKind::Internal,
            r.message@ == message@,
            r.code.is_none(),
    {
        AppError::new(ErrorKind::Internal, message)
    }

    pub fn storage_unavailable(message: &str) -> (r: AppError)
        ensures
            r.kind == ErrorKind::StorageUnavailable,
            r.message@ == message@,
            r.code.is_none(),
    {
        AppError::new(ErrorKind::StorageUnavailable, message)
    }

    pub fn search_degraded(message: &str) -> (r: AppError)
        ensures
            r.kind == ErrorKind::SearchDegraded,
            r.message@ == message@,
            r.code.is_none(),
    {
        AppError::new(ErrorKind::SearchDegraded, message)
    }

    pub fn timeout(message: &str) -> (r: AppError)
        ensures
            r.kind == ErrorKind::Timeout,
            r.message@ == message@,
            r.code.is_none(),
    {
        AppError::new(ErrorKind::Timeout, message)
    }

    pub fn not_found(message: &str) -> (r: AppError)
        ensures
            r.kind == ErrorKind::NotFound,
            r.message@ == message@,
            r.code.is_none(),
    {
        AppError::new(ErrorKind::NotFound, message)
    }

    /// Replaces the error code reported for this error.
    pub fn with_error_code(self, code: &str) -> (r: AppError)
        ensures
            r.kind == self.kind,
            r.message@ == self.message@,
            r.code matches Some(c) && c@ == code@,
            r.details == self.details,
    {
        AppError { kind: self.kind, message: self.message, code: Some(code.to_owned()), details: self.details }
    }
}

/// The error code an error reports: its own code when one was set, otherwise
/// the default code of its category.
pub open spec fn spec_error_code(e: AppError) -> Seq<char> {
    match e.code {
        Some(c) => c@,
        None => default_code(e.kind),
    }
}

pub open spec fn default_code(kind: ErrorKind) -> Seq<char> {
    match kind {
        ErrorKind::Validation => "INVALID_INPUT"@,
        ErrorKind::NotFound => "NOT_FOUND"@,
        ErrorKind::Conflict => "CONFLICT"@,
        ErrorKind::Internal => "INTERNAL"@,
        ErrorKind::Timeout => "TIMEOUT"@,
        ErrorKind::StorageUnavailable => "STORAGE_UNAVAILABLE"@,
        ErrorKind::SearchDegraded => "SEARCH_UNAVAILABLE"@,
    }
}

impl AppError {
    pub fn error_code(&self) -> (r: String)
        ensures
            r@ == spec_error_code(*self),
    {
        match &self.code {
            Some(c) => c.clone(),
            None => match self.kind {
                ErrorKind::Validation => "INVALID_INPUT".to_owned(),
                ErrorKind::NotFound => "NOT_FOUND".to_owned(),
                ErrorKind::Conflict => "CONFLICT".to_owned(),
                ErrorKind::Internal => "INTERNAL".to_owned(),
                ErrorKind::Timeout => "TIMEOUT".to_owned(),
                ErrorKind::StorageUnavailable => "STORAGE_UNAVAILABLE".to_owned(),
                ErrorKind::SearchDegraded => "SEARCH_UNAVAILABLE".to_owned(),
            },
        }
    }
}

pub type AppResult<T> = Result<T, AppError>;

} // verus!
