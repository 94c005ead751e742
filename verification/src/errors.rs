//! Error taxonomy of the authentication core.
//!
//! Every rejection path of the library yields exactly one of these
//! variants; the boundary turns the variant into an HTTP response via
//! `status_code` and `message`.

use vstd::prelude::*;

verus! {

/// The typed failures the authentication core can produce.
#[derive(Clone, Copy, Debug, PartialEq, Eq, Structural)]
pub enum MyError {
    /// No `Authorization` header was present on the request.
    MissingHeader,
    /// The header was present but not of the `Bearer <token>` form.
    InvalidHeader,
    /// The token is structurally malformed or its signature is wrong.
    InvalidToken,
    /// The token's expiry lies more than the allowed leeway in the past.
    TokenExpired,
    /// The token's issuer or audience does not match the configured policy.
    IssuerOrAudienceMismatch,
    /// The token's subject does not resolve to a stored user.
    UserNotFound,
    /// Login credentials did not match the stored digest.
    InvalidCredentials,
    /// The credential store failed; no internal detail is exposed.
    StoreFailure,
    /// A claim set could not be serialized at issuance.
    EncodingFailure,
}

/// The HTTP status that each error variant is surfaced as.
pub open spec fn spec_status_code(e: MyError) -> u16 {
    match e {
        MyError::MissingHeader => 400,
        MyError::InvalidHeader => 400,
        MyError::InvalidToken => 401,
        MyError::TokenExpired => 401,
        MyError::IssuerOrAudienceMismatch => 401,
        MyError::UserNotFound => 401,
        MyError::InvalidCredentials => 400,
        MyError::StoreFailure => 500,
        MyError::EncodingFailure => 500,
    }
}

impl MyError {
    /// HTTP status for this error: bad requests are 400, failed
    /// authentication is 401 (a missing user is deliberately not 404, so
    /// that user existence cannot be probed), internal faults are 500.
    pub fn status_code(&self) -> (code: u16)
        ensures
            code == spec_status_code(*self),
    {
        match self {
            MyError::MissingHeader => 400,
            MyError::InvalidHeader => 400,
            MyError::InvalidToken => 401,
            MyError::TokenExpired => 401,
            MyError::IssuerOrAudienceMismatch => 401,
            MyError::UserNotFound => 401,
            MyError::InvalidCredentials => 400,
            MyError::StoreFailure => 500,
            MyError::EncodingFailure => 500,
        }
    }

    /// A short client-safe description of the error.
    pub fn message(&self) -> (msg: &'static str)
        ensures
            msg@ == spec_message(*self),
    {
        match self {
            MyError::MissingHeader => "Missing Authorization header",
            MyError::InvalidHeader => "Invalid Authorization header format",
            MyError::InvalidToken => "The provided token is invalid",
            MyError::TokenExpired => "The provided token has expired",
            MyError::IssuerOrAudienceMismatch => "The token issuer or audience is not accepted",
            MyError::UserNotFound => "User not found",
            MyError::InvalidCredentials => "Invalid password",
            MyError::StoreFailure => "Internal Server Error",
            MyError::EncodingFailure => "Internal Server Error",
        }
    }
}

/// The text `message` returns for each variant.
pub open spec fn spec_message(e: MyError) -> Seq<char> {
    match e {
        MyError::MissingHeader => "Missing Authorization header"@,
        MyError::InvalidHeader => "Invalid Authorization header format"@,
        MyError::InvalidToken => "The provided token is invalid"@,
        MyError::TokenExpired => "The provided token has expired"@,
        MyError::IssuerOrAudienceMismatch => "The token issuer or audience is not accepted"@,
        MyError::UserNotFound => "User not found"@,
        MyError::InvalidCredentials => "Invalid password"@,
        MyError::StoreFailure => "Internal Server Error"@,
        MyError::EncodingFailure => "Internal Server Error"@,
    }
}

/// A status/message pair, the shape a handler turns into a response.
pub struct HttpError {
    pub status: u16,
    pub message: String,
}

impl MyError {
    /// The response body for this error as a status/message pair.
    pub fn to_http_error(&self) -> (r: HttpError)
        ensures
            r.status == spec_status_code(*self),
            r.message@ == spec_message(*self),
    {
        HttpError { status: self.status_code(), message: self.message().to_owned() }
    }
}

} // verus!
