use vstd::prelude::*;

verus! {

/// Failures of the domain model: recognized-but-malformed structured text,
/// or anything else.
#[derive(Debug, Clone, PartialEq, Eq)]
pub enum CoreError {
    ParseError(String),
    Unknown(String),
}

/// Failures of the storage layer: an engine/driver failure, or a
/// post-fetch decoding failure (bad identifier, bad date, bad stored text).
#[derive(Debug, Clone, PartialEq, Eq)]
pub enum DbError {
    Sql(String),
    Unknown(String),
}

/// Failure of deck-list parsing.
#[derive(Debug, Clone, PartialEq, Eq)]
pub enum DeckError {
    Parse(String),
}

/// Failures of the ingestion pipeline: opening the export file, a malformed
/// wire object, or a storage failure surfaced mid-ingestion.
#[derive(Debug, Clone, PartialEq, Eq)]
pub enum ScryfallError {
    Io(String),
    Json(String),
    Network(String),
}

} // verus!
