//! Base64 (standard alphabet, padded) over the `base64` crate.

use vstd::prelude::*;
use base64::Engine;

verus! {

/// The standard padded Base64 text of `bytes` (base64 `STANDARD.encode`).
pub uninterp spec fn base64_encoding(bytes: Seq<u8>) -> Seq<char>;

/// The bytes that standard padded Base64 `text` decodes to, or `None` when
/// the text is not valid standard Base64 (base64 `STANDARD.decode`).
pub uninterp spec fn base64_decoding(text: Seq<char>) -> Option<Seq<u8>>;

/// `base64::engine::general_purpose::STANDARD.encode`: the named encoding,
/// which the same engine decodes back to the input (RFC 4648 encoding is
/// invertible).
#[verifier::external_body]
pub(crate) fn base64_encode(bytes: &[u8]) -> (r: String)
    ensures
        r@ == base64_encoding(bytes@),
        base64_decoding(r@) == Some(bytes@),
{
    base64::engine::general_purpose::STANDARD.encode(bytes)
}

/// `base64::engine::general_purpose::STANDARD.decode`: the named decoding;
/// `None` stands for the crate's `DecodeError`.
#[verifier::external_body]
pub(crate) fn base64_decode(text: &str) -> (r: Option<Vec<u8>>)
    ensures
        r is Some ==> base64_decoding(text@) == Some(r->0@),
        r is None ==> base64_decoding(text@) is None,
{
    base64::engine::general_purpose::STANDARD.decode(text).ok()
}

} // verus!
