//! Decoding of the structured content payloads that posts and comments carry.
//!
//! A payload is stored as JSON text. The archive never looks inside one: it
//! decodes the text and hands the document on.

use vstd::prelude::*;
use crate::error::ArchiveError;

verus! {

/// A JSON document, `serde_json::Value`, carried through without a look
/// inside.
#[verifier::external_type_specification]
#[verifier::external_body]
pub struct ExJsonValue(serde_json::Value);

/// The error of a failed parse, `serde_json::Error`.
#[verifier::external_type_specification]
#[verifier::external_body]
pub struct ExJsonError(serde_json::Error);

/// The document that `text` denotes, if `text` is well-formed JSON.
pub uninterp spec fn parsed_json(text: Seq<char>) -> Option<serde_json::Value>;

/// Calls `serde_json::from_str` for a `serde_json::Value`. The result depends
/// on the text alone: it is the document named by `parsed_json`, or an error
/// where the text denotes none.
#[verifier::external_body]
fn parse_json(text: &str) -> (r: Result<serde_json::Value, serde_json::Error>)
    ensures
        match r {
            Ok(document) => parsed_json(text@) == Some(document),
            Err(_) => parsed_json(text@) is None,
        },
{
    serde_json::from_str::<serde_json::Value>(text)
}

/// What `decode_payload` returns for the outcome of parsing a payload.
pub open spec fn decoded(parsed: Option<serde_json::Value>) -> Result<
    serde_json::Value,
    ArchiveError,
> {
    match parsed {
        Some(document) => Ok(document),
        None => Err(ArchiveError::DataInconsistency),
    }
}

/// Turns the outcome of parsing a stored payload into the document or into
/// the error that a malformed payload stands for.
pub fn payload_from_parse(parsed: Result<serde_json::Value, serde_json::Error>) -> (r: Result<
    serde_json::Value,
    ArchiveError,
>)
    ensures
        r == decoded(
            match parsed {
                Ok(document) => Some(document),
                Err(_) => None,
            },
        ),
{
    match parsed {
        Ok(document) => Ok(document),
        Err(_) => Err(ArchiveError::DataInconsistency),
    }
}

/// Decodes a stored content payload. A payload that is not well-formed is a
/// `DataInconsistency`.
pub fn decode_payload(raw: &str) -> (r: Result<serde_json::Value, ArchiveError>)
    ensures
        r == decoded(parsed_json(raw@)),
{
    payload_from_parse(parse_json(raw))
}

} // verus!
