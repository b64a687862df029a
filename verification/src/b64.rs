//! Trusted boundary to the `base64` crate: standard alphabet with padding,
//! as used for the key and signature fields of the wire encoding.

use vstd::prelude::*;

verus! {

/// The standard base64 rendering (with padding) of a byte sequence, as ASCII
/// bytes: a function of the input bytes alone.
pub uninterp spec fn b64_of(bytes: Seq<u8>) -> Seq<u8>;

/// What standard base64 decoding yields for a byte sequence of text:
/// `Some` exactly on well-formed standard base64, a function of the input
/// alone.
pub uninterp spec fn b64_dec_of(text: Seq<u8>) -> Option<Seq<u8>>;

/// A byte of the standard base64 alphabet, or the padding byte.
pub open spec fn is_b64_byte(b: u8) -> bool {
    ||| 0x41 <= b <= 0x5a  // A-Z
    ||| 0x61 <= b <= 0x7a  // a-z
    ||| 0x30 <= b <= 0x39  // 0-9
    ||| b == 0x2b  // +
    ||| b == 0x2f  // /
    ||| b == 0x3d  // =
}

/// Every byte is from the standard base64 alphabet (or padding).
pub open spec fn is_b64_text(bs: Seq<u8>) -> bool {
    forall|i: int| 0 <= i < bs.len() ==> is_b64_byte(#[trigger] bs[i])
}

/// Relies on `base64::encode`: standard-alphabet base64 with padding; its
/// output uses only alphabet and padding bytes, and `base64::decode` inverts
/// it.
#[verifier::external_body]
pub(crate) fn b64_encode(bytes: &[u8]) -> (r: Vec<u8>)
    ensures
        r@ == b64_of(bytes@),
        is_b64_text(r@),
        b64_dec_of(r@) == Some(bytes@),
{
    base64::encode(bytes).into_bytes()
}

/// Relies on `base64::decode`: succeeds exactly on well-formed standard
/// base64 text and returns the decoded bytes.
#[verifier::external_body]
pub(crate) fn b64_decode(text: &[u8]) -> (r: Option<Vec<u8>>)
    ensures
        r is Some <==> b64_dec_of(text@) is Some,
        r matches Some(v) ==> b64_dec_of(text@) == Some(v@),
{
    match base64::decode(text) {
        Ok(v) => Some(v),
        Err(_) => None,
    }
}

} // verus!
