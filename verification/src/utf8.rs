//! Bytes read as UTF-8 text.

use vstd::prelude::*;

verus! {

/// The text that bytes hold, with a replacement character for each part of them that is not
/// UTF-8.
pub uninterp spec fn utf8_lossy(bytes: Seq<u8>) -> Seq<char>;

/// Reads bytes as UTF-8, by `core::str::from_utf8`: it gives the text exactly where the bytes are
/// UTF-8, and the text is the one they encode.
#[verifier::external_body]
pub(crate) fn utf8_text(bytes: &[u8]) -> (r: Option<&str>)
    ensures
        r is Some <==> vstd::utf8::valid_utf8(bytes@),
        r matches Some(s) ==> s@ == vstd::utf8::decode_utf8(bytes@),
{
    core::str::from_utf8(bytes).ok()
}

/// Reads bytes as UTF-8 as far as they are, by `String::from_utf8_lossy`: bytes that are UTF-8
/// give the text they encode. What stands for the others is left to the name [`utf8_lossy`].
#[verifier::external_body]
pub(crate) fn lossy_text(bytes: &[u8]) -> (r: String)
    ensures
        r@ == utf8_lossy(bytes@),
        vstd::utf8::valid_utf8(bytes@) ==> r@ == vstd::utf8::decode_utf8(bytes@),
{
    String::from_utf8_lossy(bytes).into_owned()
}

} // verus!
