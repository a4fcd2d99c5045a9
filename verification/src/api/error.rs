//! Errors of the index API, their messages, and the answer each gets.

use vstd::prelude::*;

use crate::num::{decimal, format_usize};

verus! {

/// An error of the index API.
#[derive(Debug)]
pub enum ApiError {
    IndexNotFound(String),
    IndexAlreadyExists(String),
    IndexNotDeclared(String),
    BadRequest(String),
    DimensionMismatch { expected: usize, actual: usize },
    MetadataNotFound(String),
    Internal(String),
    ServiceUnavailable(String),
    /// An error of the search engine, by its message.
    NextPlaid(String),
}

/// The JSON body of an error answer (without details, which are never set).
#[derive(Debug)]
pub struct ErrorResponse {
    pub code: String,
    pub message: String,
}

/// The message of an error (its `Display` text).
pub open spec fn error_text(e: ApiError) -> Seq<char> {
    match e {
        ApiError::IndexNotFound(m) => "Index not found: "@ + m@,
        ApiError::IndexAlreadyExists(m) => "Index already exists: "@ + m@,
        ApiError::IndexNotDeclared(m) => "Index not declared: "@ + m@
            + ". Call POST /indices first to declare the index."@,
        ApiError::BadRequest(m) => "Invalid request: "@ + m@,
        ApiError::DimensionMismatch { expected, actual } => "Embedding dimension mismatch: expected "@
            + decimal(expected as nat) + ", got "@ + decimal(actual as nat),
        ApiError::MetadataNotFound(m) => "Metadata database not found for index: "@ + m@,
        ApiError::Internal(m) => "Internal error: "@ + m@,
        ApiError::ServiceUnavailable(m) => "Service unavailable: "@ + m@,
        ApiError::NextPlaid(m) => "Next-Plaid error: "@ + m@,
    }
}

/// The HTTP status of the answer to an error.
pub open spec fn error_status(e: ApiError) -> u16 {
    match e {
        ApiError::IndexNotFound(_) => 404,
        ApiError::IndexAlreadyExists(_) => 409,
        ApiError::IndexNotDeclared(_) => 404,
        ApiError::BadRequest(_) => 400,
        ApiError::DimensionMismatch { .. } => 400,
        ApiError::MetadataNotFound(_) => 404,
        ApiError::Internal(_) => 500,
        ApiError::ServiceUnavailable(_) => 503,
        ApiError::NextPlaid(_) => 500,
    }
}

/// The machine-readable code of the answer to an error.
pub open spec fn error_code(e: ApiError) -> Seq<char> {
    match e {
        ApiError::IndexNotFound(_) => "INDEX_NOT_FOUND"@,
        ApiError::IndexAlreadyExists(_) => "INDEX_ALREADY_EXISTS"@,
        ApiError::IndexNotDeclared(_) => "INDEX_NOT_DECLARED"@,
        ApiError::BadRequest(_) => "BAD_REQUEST"@,
        ApiError::DimensionMismatch { .. } => "DIMENSION_MISMATCH"@,
        ApiError::MetadataNotFound(_) => "METADATA_NOT_FOUND"@,
        ApiError::Internal(_) => "INTERNAL_ERROR"@,
        ApiError::ServiceUnavailable(_) => "SERVICE_UNAVAILABLE"@,
        ApiError::NextPlaid(_) => "NEXT_PLAID_ERROR"@,
    }
}

/// The human-readable message of the answer to an error.
pub open spec fn error_message(e: ApiError) -> Seq<char> {
    match e {
        ApiError::IndexNotDeclared(m) => "Index '"@ + m@
            + "' not declared. Call POST /indices first to declare the index."@,
        ApiError::DimensionMismatch { expected, actual } => "Expected dimension "@ + decimal(
            expected as nat,
        ) + ", got "@ + decimal(actual as nat),
        ApiError::IndexNotFound(m) => m@,
        ApiError::IndexAlreadyExists(m) => m@,
        ApiError::BadRequest(m) => m@,
        ApiError::MetadataNotFound(m) => m@,
        ApiError::Internal(m) => m@,
        ApiError::ServiceUnavailable(m) => m@,
        ApiError::NextPlaid(m) => m@,
    }
}

/// Every error is answered with a client error (4xx) or a server error (5xx), and a
/// server error exactly for internal, unavailable and search-engine failures.
pub proof fn lemma_error_answers_are_failures(e: ApiError)
    ensures
        400 <= error_status(e) < 600,
        error_status(e) >= 500 <==> (e is Internal || e is ServiceUnavailable || e is NextPlaid),
{
}

fn text(lit: &str) -> (s: String)
    ensures
        s@ == lit@,
{
    broadcast use vstd::string::group_string_axioms;

    lit.to_string()
}

/// `a` followed by `b`.
fn joined(a: &str, b: &str) -> (s: String)
    ensures
        s@ == a@ + b@,
{
    let mut s = text(a);
    s.append(b);
    s
}

/// `a`, `b`, `c` in a row.
fn joined3(a: &str, b: &str, c: &str) -> (s: String)
    ensures
        s@ == a@ + b@ + c@,
{
    let mut s = joined(a, b);
    s.append(c);
    s
}

/// `prefix`, `x`, `middle`, `y` in a row, for two numbers `x` and `y`.
fn two_numbers(prefix: &str, x: usize, middle: &str, y: usize) -> (s: String)
    ensures
        s@ == prefix@ + decimal(x as nat) + middle@ + decimal(y as nat),
{
    let mut s = text(prefix);
    let xs = format_usize(x);
    s.append(xs.as_str());
    s.append(middle);
    let ys = format_usize(y);
    s.append(ys.as_str());
    s
}

impl ApiError {
    /// The message of the error (what `to_string` gives).
    pub fn to_display_string(&self) -> (s: String)
        ensures
            s@ == error_text(*self),
    {
        match self {
            ApiError::IndexNotFound(m) => joined("Index not found: ", m.as_str()),
            ApiError::IndexAlreadyExists(m) => joined("Index already exists: ", m.as_str()),
            ApiError::IndexNotDeclared(m) => joined3(
                "Index not declared: ",
                m.as_str(),
                ". Call POST /indices first to declare the index.",
            ),
            ApiError::BadRequest(m) => joined("Invalid request: ", m.as_str()),
            ApiError::DimensionMismatch { expected, actual } => two_numbers(
                "Embedding dimension mismatch: expected ",
                *expected,
                ", got ",
                *actual,
            ),
            ApiError::MetadataNotFound(m) => joined(
                "Metadata database not found for index: ",
                m.as_str(),
            ),
            ApiError::Internal(m) => joined("Internal error: ", m.as_str()),
            ApiError::ServiceUnavailable(m) => joined("Service unavailable: ", m.as_str()),
            ApiError::NextPlaid(m) => joined("Next-Plaid error: ", m.as_str()),
        }
    }

    /// The status and body of the HTTP answer to the error.
    pub fn into_response_parts(&self) -> (r: (u16, ErrorResponse))
        ensures
            r.0 == error_status(*self),
            r.1.code@ == error_code(*self),
            r.1.message@ == error_message(*self),
    {
        match self {
            ApiError::IndexNotFound(m) => (
                404,
                ErrorResponse { code: text("INDEX_NOT_FOUND"), message: m.clone() },
            ),
            ApiError::IndexAlreadyExists(m) => (
                409,
                ErrorResponse { code: text("INDEX_ALREADY_EXISTS"), message: m.clone() },
            ),
            ApiError::IndexNotDeclared(m) => (
                404,
                ErrorResponse {
                    code: text("INDEX_NOT_DECLARED"),
                    message: joined3(
                        "Index '",
                        m.as_str(),
                        "' not declared. Call POST /indices first to declare the index.",
                    ),
                },
            ),
            ApiError::BadRequest(m) => (
                400,
                ErrorResponse { code: text("BAD_REQUEST"), message: m.clone() },
            ),
            ApiError::DimensionMismatch { expected, actual } => (
                400,
                ErrorResponse {
                    code: text("DIMENSION_MISMATCH"),
                    message: two_numbers("Expected dimension ", *expected, ", got ", *actual),
                },
            ),
            ApiError::MetadataNotFound(m) => (
                404,
                ErrorResponse { code: text("METADATA_NOT_FOUND"), message: m.clone() },
            ),
            ApiError::Internal(m) => (
                500,
                ErrorResponse { code: text("INTERNAL_ERROR"), message: m.clone() },
            ),
            ApiError::ServiceUnavailable(m) => (
                503,
                ErrorResponse { code: text("SERVICE_UNAVAILABLE"), message: m.clone() },
            ),
            ApiError::NextPlaid(m) => (
                500,
                ErrorResponse { code: text("NEXT_PLAID_ERROR"), message: m.clone() },
            ),
        }
    }
}

} // verus!
