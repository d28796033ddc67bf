use vstd::prelude::*;
use crate::error::AdapterError;
use crate::results::AdapterResults;

verus! {

/// The dispatch capability every format parser offers: one entry point from
/// raw tool output to the canonical collection, so callers need not know
/// which concrete format produced the text.
pub trait Adapter {
    /// What this format's parse fixes for every input: each implementation
    /// states, over its own schema, which texts fail and what the rest
    /// denote.
    spec fn parse_post(input: Seq<char>, r: Result<AdapterResults, AdapterError>) -> bool;

    /// Parses raw tool output into the canonical collection; each call is
    /// stateless and yields either a well-formed collection or one typed
    /// error.
    fn parse(input: &str) -> (r: Result<AdapterResults, AdapterError>)
        ensures
            Self::parse_post(input@, r),
            r matches Ok(c) ==> c.wf(),
    ;
}

/// The closed set of supported formats; dispatch over it is exhaustive, so
/// a missing format is a build-time error.
#[derive(Debug, Clone, Copy, PartialEq, Eq, Structural)]
pub enum AdapterKind {
    CppGoogle,
}

/// Parses raw tool output with the chosen format's parser.
pub fn parse_with(kind: AdapterKind, input: &str) -> (r: Result<AdapterResults, AdapterError>)
    ensures
        match kind {
            AdapterKind::CppGoogle => <crate::google::AdapterCppGoogle as Adapter>::parse_post(
                input@,
                r,
            ),
        },
        r matches Ok(c) ==> c.wf(),
{
    match kind {
        AdapterKind::CppGoogle => crate::google::AdapterCppGoogle::parse(input),
    }
}

} // verus!
