use vstd::prelude::*;

verus! {

/// Validation failures for the checked string types, one variant per kind of
/// identifier that the wider system validates.
#[derive(Debug, Clone, PartialEq, Eq)]
pub enum ValidError {
    UserName(String),
    Slug(String),
    Email(String),
    Jwt(String),
    BranchName(String),
    NonEmpty(String),
    Url(String),
}

/// Failure of one parse invocation. Every variant aborts the whole parse:
/// no partial collection is ever returned.
#[derive(Debug, Clone, PartialEq, Eq)]
pub enum AdapterError {
    /// The input text does not match the expected format schema.
    Deserialization(String),
    /// A benchmark identifier failed validation.
    Validation(ValidError),
    /// Two entries in one input resolved to the same canonical name,
    /// which is carried here.
    DuplicateBenchmarkName(String),
    /// The raw bytes are not valid text in the expected encoding.
    Encoding(String),
}

} // verus!
