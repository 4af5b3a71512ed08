//! Errors of the crawler.

use vstd::prelude::*;

verus! {

#[verifier::external_type_specification]
#[verifier::external_body]
pub struct ExParseError(url::ParseError);

#[verifier::external_type_specification]
#[verifier::external_body]
pub struct ExReqwestError(reqwest::Error);

#[verifier::external_type_specification]
#[verifier::external_body]
pub struct ExSerdeJsonError(serde_json::Error);

#[verifier::external_type_specification]
#[verifier::external_body]
pub struct ExIoError(std::io::Error);

/// What can go wrong while setting up or running a crawl.
#[derive(Debug)]
pub enum CrawlerError {
    /// The HTTP request failed.
    Http(reqwest::Error),
    /// The response body was not valid JSON.
    Json(serde_json::Error),
    /// A URL did not parse.
    Url(url::ParseError),
    /// Reading or writing a file failed.
    Io(std::io::Error),
    /// The response had an unexpected shape.
    InvalidResponse { message: String },
    /// The depth limit was reached.
    MaxDepthReached { depth: usize },
    /// The server refused further requests.
    RateLimitExceeded,
    /// A request took too long.
    Timeout,
    /// The configuration is unusable.
    Config { message: String },
}

/// Results whose error is a [`CrawlerError`].
pub type Result<T> = core::result::Result<T, CrawlerError>;

impl CrawlerError {
    /// An `InvalidResponse` error with the given message.
    pub fn invalid_response(message: String) -> (r: Self)
        ensures
            r matches CrawlerError::InvalidResponse { message: m } && m@ == message@,
    {
        CrawlerError::InvalidResponse { message }
    }

    /// A `Config` error with the given message.
    pub fn config(message: String) -> (r: Self)
        ensures
            r matches CrawlerError::Config { message: m } && m@ == message@,
    {
        CrawlerError::Config { message }
    }
}

} // verus!
