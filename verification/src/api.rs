//! The errors this service answers with, each with its HTTP status and the
//! message of its JSON body.

use vstd::prelude::*;

verus! {

/// Why a request to this service failed.
#[derive(PartialEq, Eq, Structural, Clone, Copy, Debug)]
pub enum ApiError {
    /// The RIDB API key is not configured.
    MissingApiKey,
    /// The RIDB service could not be reached.
    UpstreamUnreachable,
    /// The RIDB service answered with something that is not a facility list.
    UpstreamUnparsable,
    /// The search text is empty once trimmed.
    EmptyQuery,
    /// The embedding model cannot be used.
    ModelUnavailable,
    /// The embedding of the search text could not be computed.
    EmbeddingFailed,
    /// The database query failed.
    DatabaseFailed,
}

/// The HTTP status that answers `e`.
pub open spec fn status_of(e: ApiError) -> u16 {
    match e {
        ApiError::UpstreamUnreachable => 502,
        ApiError::EmptyQuery => 400,
        _ => 500,
    }
}

/// The message of the JSON body that answers `e`.
pub open spec fn message_of(e: ApiError) -> Seq<char> {
    match e {
        ApiError::MissingApiKey => "RIDB_API_KEY not set"@,
        ApiError::UpstreamUnreachable => "Failed to reach RIDB API"@,
        ApiError::UpstreamUnparsable => "Failed to parse RIDB response"@,
        ApiError::EmptyQuery => "q must not be empty"@,
        ApiError::ModelUnavailable => "Embedding model unavailable"@,
        ApiError::EmbeddingFailed => "Failed to generate embedding"@,
        ApiError::DatabaseFailed => "Database query failed"@,
    }
}

impl ApiError {
    /// The HTTP status of the response for this error.
    pub fn status(&self) -> (r: u16)
        ensures
            r == status_of(*self),
    {
        match self {
            ApiError::UpstreamUnreachable => 502,
            ApiError::EmptyQuery => 400,
            _ => 500,
        }
    }

    /// The `error` message of the response for this error.
    pub fn message(&self) -> (r: String)
        ensures
            r@ == message_of(*self),
    {
        match self {
            ApiError::MissingApiKey => "RIDB_API_KEY not set".to_owned(),
            ApiError::UpstreamUnreachable => "Failed to reach RIDB API".to_owned(),
            ApiError::UpstreamUnparsable => "Failed to parse RIDB response".to_owned(),
            ApiError::EmptyQuery => "q must not be empty".to_owned(),
            ApiError::ModelUnavailable => "Embedding model unavailable".to_owned(),
            ApiError::EmbeddingFailed => "Failed to generate embedding".to_owned(),
            ApiError::DatabaseFailed => "Database query failed".to_owned(),
        }
    }
}

} // verus!
