use vstd::prelude::*;
use crate::error::AdapterError;

verus! {

/// What UTF-8 decoding yields for a byte sequence, when the bytes are valid.
pub uninterp spec fn utf8_chars(b: Seq<u8>) -> Option<Seq<char>>;

/// Relies on str::from_utf8: decodes the bytes exactly when they are valid
/// UTF-8 text; the error carries the failure's description.
#[verifier::external_body]
pub fn decode_utf8(bytes: &Vec<u8>) -> (r: Result<String, AdapterError>)
    ensures
        r matches Ok(s) ==> utf8_chars(bytes@) == Some(s@),
        r matches Err(e) ==> utf8_chars(bytes@) is None && e matches AdapterError::Encoding(_),
{
    match core::str::from_utf8(bytes.as_slice()) {
        Ok(s) => Ok(s.to_string()),
        Err(e) => Err(AdapterError::Encoding(format!("{e}"))),
    }
}

} // verus!
