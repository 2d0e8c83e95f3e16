//! UTF-8 decoding of byte strings.
use vstd::prelude::*;
use vstd::utf8::{decode_utf8, valid_utf8};

verus! {

/// `String::from_utf8` on a copy of the bytes: `Some` exactly when the bytes
/// are valid UTF-8, holding the decoded characters.
#[verifier::external_body]
pub fn decode_utf8_bytes(bytes: &[u8]) -> (r: Option<String>)
    ensures
        r is Some <==> valid_utf8(bytes@),
        r matches Some(s) ==> s@ == decode_utf8(bytes@),
{
    String::from_utf8(bytes.to_vec()).ok()
}

} // verus!
