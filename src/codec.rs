//! Base64 (URL-safe alphabet, no padding) and UTF-8 text, through outside code.

use base64::Engine;
use vstd::prelude::*;
use vstd::utf8::*;

verus! {

/// The URL-safe base64 text (no padding) of a byte sequence, as bytes.
pub uninterp spec fn b64u_of(b: Seq<u8>) -> Seq<u8>;

/// What URL-safe base64 decoding (no padding) yields for a text, if it is one.
pub uninterp spec fn b64u_decoded(s: Seq<u8>) -> Option<Seq<u8>>;

/// A byte of the URL-safe base64 alphabet: letters, digits, `-` and `_`.
pub open spec fn is_b64u_byte(c: u8) -> bool {
    (0x41u8 <= c <= 0x5au8) || (0x61u8 <= c <= 0x7au8) || (0x30u8 <= c <= 0x39u8) || c == 0x2du8
        || c == 0x5fu8
}

/// Relies on base64's `URL_SAFE_NO_PAD.encode`: text over the URL-safe alphabet, four
/// characters for three bytes (rounded up, no padding), which that engine decodes back
/// and which no other byte sequence shares.
#[verifier::external_body]
pub(crate) fn b64u_encode(b: &[u8]) -> (r: Vec<u8>)
    ensures
        r@ == b64u_of(b@),
        r@.len() == (4 * b@.len() + 2) / 3,
        forall|i: int| 0 <= i < r@.len() ==> is_b64u_byte(#[trigger] r@[i]),
        b64u_decoded(r@) == Some(b@),
        forall|x: Seq<u8>| #[trigger] b64u_of(x) == r@ ==> x == b@,
{
    base64::engine::general_purpose::URL_SAFE_NO_PAD.encode(b).into_bytes()
}

/// Relies on base64's `URL_SAFE_NO_PAD.decode`: the bytes, or an error on text that is
/// not base64 of that engine.
#[verifier::external_body]
pub(crate) fn b64u_decode(s: &[u8]) -> (r: Option<Vec<u8>>)
    ensures
        match b64u_decoded(s@) {
            Some(d) => r matches Some(v) && v@ == d,
            None => r is None,
        },
{
    base64::engine::general_purpose::URL_SAFE_NO_PAD.decode(s).ok()
}

/// Relies on `String::from_utf8`: it accepts exactly the valid UTF-8 byte sequences.
#[verifier::external_body]
pub(crate) fn utf8_string(b: Vec<u8>) -> (r: Option<String>)
    ensures
        r is Some <==> valid_utf8(b@),
        r matches Some(s) ==> s@ == decode_utf8(b@),
{
    String::from_utf8(b).ok()
}

} // verus!
