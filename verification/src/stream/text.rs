//! Text in the stream: strings travel as their UTF-8 bytes.

use vstd::prelude::*;
use std::string::FromUtf8Error;
use vstd::utf8::{decode_utf8, valid_utf8};

verus! {

/// The text that `bytes` encode in UTF-8, or no text when they are not
/// valid UTF-8.
pub open spec fn utf8_or_empty(bytes: Seq<u8>) -> Seq<char> {
    if valid_utf8(bytes) {
        decode_utf8(bytes)
    } else {
        Seq::empty()
    }
}

#[verifier::external_type_specification]
#[verifier::external_body]
pub struct ExFromUtf8Error(FromUtf8Error);

/// `String::from_utf8`: the string that `bytes` encode in UTF-8, or an
/// error exactly when they are not valid UTF-8.
#[verifier::external_body]
pub(crate) fn string_from_utf8(bytes: Vec<u8>) -> (r: Result<String, FromUtf8Error>)
    ensures
        r is Ok <==> valid_utf8(bytes@),
        r matches Ok(s) ==> s@ == decode_utf8(bytes@),
{
    String::from_utf8(bytes)
}

} // verus!
