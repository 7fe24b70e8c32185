//! The text form that the bytes of a condition take on the wire.

use vstd::prelude::*;

verus! {

/// The base64 text of `bytes`, in the standard alphabet.
pub uninterp spec fn base64_text(bytes: Seq<u8>) -> Seq<char>;

/// `base64::encode`. The contract names the text that it gives.
#[verifier::external_body]
fn base64_encode(bytes: &Vec<u8>) -> (text: String)
    ensures
        text@ == base64_text(bytes@),
{
    ::base64::encode(bytes)
}

/// The text that stands for the bytes `v` on the wire.
pub fn serialize(v: &Vec<u8>) -> (text: String)
    ensures
        text@ == base64_text(v@),
{
    base64_encode(v)
}

} // verus!
