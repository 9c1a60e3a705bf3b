//! The failures that every operation of the store reports.

use vstd::prelude::*;
use crate::text::opt_chars;

verus! {

/// The body of a failure as it is serialised for the client.
#[derive(Debug, PartialEq, Eq)]
pub struct ErrorResponse {
    pub error: String,
}

/// The five families of failure. Storage faults and broken invariants are
/// both reported as `InternalServerError`.
#[derive(Clone, Copy, Debug, PartialEq, Eq, Structural)]
pub enum ErrorKind {
    InternalServerError,
    NotFound,
    Unauthorized,
    Forbidden,
    BadRequest,
}

/// A failure with an optional human-readable message.
#[derive(Debug, PartialEq, Eq)]
pub enum ApiError {
    InternalServerError(Option<String>),
    NotFound(Option<String>),
    Unauthorized(Option<String>),
    Forbidden(Option<String>),
    BadRequest(Option<String>),
}

/// A status code together with the body that goes with it.
#[derive(Debug, PartialEq, Eq)]
pub struct CustomResponse {
    pub status: u16,
    pub body: ErrorResponse,
}

/// The status code that belongs to a family of failure.
pub open spec fn status_of(kind: ErrorKind) -> u16 {
    match kind {
        ErrorKind::InternalServerError => 500,
        ErrorKind::NotFound => 404,
        ErrorKind::Unauthorized => 401,
        ErrorKind::Forbidden => 403,
        ErrorKind::BadRequest => 400,
    }
}

/// The message a failure of this family carries when none was given.
pub open spec fn default_message(kind: ErrorKind) -> Seq<char> {
    match kind {
        ErrorKind::InternalServerError => "Internal Server Error"@,
        ErrorKind::NotFound => "Not Found"@,
        ErrorKind::Unauthorized => "Unauthorized"@,
        ErrorKind::Forbidden => "Forbidden"@,
        ErrorKind::BadRequest => "Bad Request"@,
    }
}

impl ApiError {
    /// The family this failure belongs to.
    pub open spec fn spec_kind(&self) -> ErrorKind {
        match self {
            ApiError::InternalServerError(_) => ErrorKind::InternalServerError,
            ApiError::NotFound(_) => ErrorKind::NotFound,
            ApiError::Unauthorized(_) => ErrorKind::Unauthorized,
            ApiError::Forbidden(_) => ErrorKind::Forbidden,
            ApiError::BadRequest(_) => ErrorKind::BadRequest,
        }
    }

    /// The message this failure carries, if any.
    pub open spec fn message(&self) -> Option<Seq<char>> {
        match self {
            ApiError::InternalServerError(m) => opt_chars(*m),
            ApiError::NotFound(m) => opt_chars(*m),
            ApiError::Unauthorized(m) => opt_chars(*m),
            ApiError::Forbidden(m) => opt_chars(*m),
            ApiError::BadRequest(m) => opt_chars(*m),
        }
    }

    /// Whether this failure is of family `kind` and carries exactly `text`.
    pub open spec fn says(&self, kind: ErrorKind, text: Seq<char>) -> bool {
        self.spec_kind() == kind && self.message() == Some(text)
    }

    /// The family this failure belongs to.
    #[verifier::when_used_as_spec(spec_kind)]
    pub fn kind(&self) -> (k: ErrorKind)
        ensures
            k == self.spec_kind(),
    {
        match self {
            ApiError::InternalServerError(_) => ErrorKind::InternalServerError,
            ApiError::NotFound(_) => ErrorKind::NotFound,
            ApiError::Unauthorized(_) => ErrorKind::Unauthorized,
            ApiError::Forbidden(_) => ErrorKind::Forbidden,
            ApiError::BadRequest(_) => ErrorKind::BadRequest,
        }
    }

    /// Builds a failure of family `kind` with the given message.
    pub fn with_message(kind: ErrorKind, message: &str) -> (e: ApiError)
        ensures
            e.says(kind, message@),
    {
        let m = Some(message.to_string());
        match kind {
            ErrorKind::InternalServerError => ApiError::InternalServerError(m),
            ErrorKind::NotFound => ApiError::NotFound(m),
            ErrorKind::Unauthorized => ApiError::Unauthorized(m),
            ErrorKind::Forbidden => ApiError::Forbidden(m),
            ErrorKind::BadRequest => ApiError::BadRequest(m),
        }
    }

    /// The status code and body for this failure: the message it carries, or
    /// the family's default message when it carries none.
    pub fn to_response(&self) -> (r: CustomResponse)
        ensures
            r.status == status_of(self.spec_kind()),
            r.body.error@ == match self.message() {
                Some(m) => m,
                None => default_message(self.spec_kind()),
            },
    {
        match self {
            ApiError::InternalServerError(message) => CustomResponse {
                status: 500,
                body: ErrorResponse { error: text_or(message, "Internal Server Error") },
            },
            ApiError::NotFound(message) => CustomResponse {
                status: 404,
                body: ErrorResponse { error: text_or(message, "Not Found") },
            },
            ApiError::Unauthorized(message) => CustomResponse {
                status: 401,
                body: ErrorResponse { error: text_or(message, "Unauthorized") },
            },
            ApiError::Forbidden(message) => CustomResponse {
                status: 403,
                body: ErrorResponse { error: text_or(message, "Forbidden") },
            },
            ApiError::BadRequest(message) => CustomResponse {
                status: 400,
                body: ErrorResponse { error: text_or(message, "Bad Request") },
            },
        }
    }

    /// The same family of failure with `message` in place of its own.
    pub fn _change_message(&self, message: String) -> (e: ApiError)
        ensures
            e.says(self.spec_kind(), message@),
    {
        match self {
            ApiError::InternalServerError(_) => ApiError::InternalServerError(Some(message)),
            ApiError::NotFound(_) => ApiError::NotFound(Some(message)),
            ApiError::Unauthorized(_) => ApiError::Unauthorized(Some(message)),
            ApiError::Forbidden(_) => ApiError::Forbidden(Some(message)),
            ApiError::BadRequest(_) => ApiError::BadRequest(Some(message)),
        }
    }

    /// The message this failure carries, or the empty string.
    pub fn _to_string(&self) -> (s: String)
        ensures
            s@ == match self.message() {
                Some(m) => m,
                None => Seq::<char>::empty(),
            },
    {
        proof {
            reveal_strlit("");
            assert(""@ =~= Seq::<char>::empty());
        }
        match self {
            ApiError::InternalServerError(message) => text_or(message, ""),
            ApiError::NotFound(message) => text_or(message, ""),
            ApiError::Unauthorized(message) => text_or(message, ""),
            ApiError::Forbidden(message) => text_or(message, ""),
            ApiError::BadRequest(message) => text_or(message, ""),
        }
    }
}

/// The driver's error type. Nothing inside it is read: a failed lookup is
/// reported as one fixed message whatever the driver said.
#[verifier::external_type_specification]
#[verifier::external_body]
pub struct ExMongoError(mongodb::error::Error);

/// Turns the answer of a document lookup into the document or a failure:
/// a missing document is `NotFound` with "`document_name` not found"
/// ("document" when no name is given), a driver error is
/// `InternalServerError` with "MongoDB error".
pub fn mongo_error_check<T>(
    result: Result<Option<T>, mongodb::error::Error>,
    document_name: Option<&str>,
) -> (r: Result<T, ApiError>)
    ensures
        match result {
            Ok(Some(document)) => r == Ok::<T, ApiError>(document),
            Ok(None) => r matches Err(e) && e.says(
                ErrorKind::NotFound,
                match document_name {
                    Some(n) => n@,
                    None => "document"@,
                } + " not found"@,
            ),
            Err(_) => r matches Err(e) && e.says(ErrorKind::InternalServerError, "MongoDB error"@),
        },
{
    match result {
        Ok(Some(document)) => Ok(document),
        Ok(None) => {
            let mut text = match document_name {
                Some(n) => n.to_string(),
                None => "document".to_string(),
            };
            text.append(" not found");
            Err(ApiError::NotFound(Some(text)))
        },
        Err(_) => Err(ApiError::with_message(ErrorKind::InternalServerError, "MongoDB error")),
    }
}

/// A copy of the string inside `message`, or of `fallback` when there is none.
fn text_or(message: &Option<String>, fallback: &str) -> (s: String)
    ensures
        s@ == match opt_chars(*message) {
            Some(m) => m,
            None => fallback@,
        },
{
    match message {
        Some(m) => m.clone(),
        None => fallback.to_string(),
    }
}

} // verus!
