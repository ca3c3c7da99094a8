use vstd::prelude::*;

verus! {

/// Declares `hyper::Error`, a transport failure, so errors can carry it.
#[verifier::external_type_specification]
#[verifier::external_body]
pub struct ExHyperError(hyper::Error);

/// Declares `hyper::http::Error`, a failure to build a request.
#[verifier::external_type_specification]
#[verifier::external_body]
pub struct ExHttpError(hyper::http::Error);

/// Declares `serde_json::Error`, a failure to decode a body.
#[verifier::external_type_specification]
#[verifier::external_body]
pub struct ExJsonError(serde_json::Error);

/// The error body the service sends with a rejected request.
#[derive(Debug)]
pub struct ApiErrorResponse {
    pub error: String,
}

/// Every way a request to the service can fail.
#[derive(Debug)]
pub enum OsuApiError {
    /// Connection or I/O failure.
    HyperError { inner: hyper::Error },
    /// The request could not be built.
    HyperHttpError { inner: hyper::http::Error },
    /// The service answered with an error body.
    ApiError { inner: ApiErrorResponse },
    /// A body did not match the expected schema; `body` holds its bytes.
    ParsingError { inner: serde_json::Error, body: Vec<u8> },
    BadRequest,
    ServiceUnavailable,
    RateLimited,
    NoToken,
}

/// The human-readable description of each error kind.
pub open spec fn message_of(e: &OsuApiError) -> Seq<char> {
    match e {
        OsuApiError::HyperError { .. } => "hyper error!"@,
        OsuApiError::HyperHttpError { .. } => "hyper inner error!"@,
        OsuApiError::ApiError { .. } => "got api error!"@,
        OsuApiError::ParsingError { .. } => "parsing error!"@,
        OsuApiError::BadRequest => "bad request!"@,
        OsuApiError::ServiceUnavailable => "service is unavailable!"@,
        OsuApiError::RateLimited => "got 429"@,
        OsuApiError::NoToken => "no token provided!"@,
    }
}

impl OsuApiError {
    /// A short description of the error kind.
    pub fn message(&self) -> (r: &'static str)
        ensures
            r@ == message_of(self),
    {
        match self {
            OsuApiError::HyperError { .. } => "hyper error!",
            OsuApiError::HyperHttpError { .. } => "hyper inner error!",
            OsuApiError::ApiError { .. } => "got api error!",
            OsuApiError::ParsingError { .. } => "parsing error!",
            OsuApiError::BadRequest => "bad request!",
            OsuApiError::ServiceUnavailable => "service is unavailable!",
            OsuApiError::RateLimited => "got 429",
            OsuApiError::NoToken => "no token provided!",
        }
    }
}

} // verus!
