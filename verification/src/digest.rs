//! Calls into the hashing and encoding crates.

use vstd::prelude::*;
use base64::Engine as _;
use sha2::Digest as _;
use hmac::Mac as _;

verus! {

/// The lower-case hexadecimal SHA-256 digest of some bytes.
pub uninterp spec fn spec_sha256_hex(bytes: Seq<u8>) -> Seq<char>;

/// The bytes encoded by a standard (padded) Base64 text, or `None` when the text is not
/// valid Base64.
pub uninterp spec fn spec_base64_decode(text: Seq<char>) -> Option<Seq<u8>>;

pub open spec fn opt_bytes(v: Option<Vec<u8>>) -> Option<Seq<u8>> {
    match v {
        Some(b) => Some(b@),
        None => None,
    }
}

/// `sha2::Sha256::digest`, formatted as lower-case hexadecimal. The result is
/// `spec_sha256_hex` of the input bytes: the 32 digest bytes, two hexadecimal digits
/// each (`0-9`, `a-f`), so 64 characters.
#[verifier::external_body]
pub fn sha256_hex(bytes: &[u8]) -> (r: String)
    ensures
        r@ == spec_sha256_hex(bytes@),
        r@.len() == 64,
        forall|i: int| 0 <= i < 64 ==> ('0' <= #[trigger] r@[i] <= '9') || ('a' <= r@[i] <= 'f'),
{
    format!("{:x}", sha2::Sha256::digest(bytes))
}

/// `base64::engine::general_purpose::STANDARD.decode`. The result is
/// `spec_base64_decode` of the input text (`None` for a decode error).
#[verifier::external_body]
pub fn decode_base64(text: &str) -> (r: Option<Vec<u8>>)
    ensures
        opt_bytes(r) == spec_base64_decode(text@),
{
    base64::engine::general_purpose::STANDARD.decode(text).ok()
}

/// A character of the URL-safe Base64 alphabet.
pub open spec fn url_safe_char(c: char) -> bool {
    ('A' <= c && c <= 'Z') || ('a' <= c && c <= 'z') || ('0' <= c && c <= '9') || c == '-' || c == '_'
}

/// The unpadded URL-safe Base64 text of some bytes.
pub uninterp spec fn spec_base64url_encode(bytes: Seq<u8>) -> Seq<char>;

/// The bytes of an unpadded URL-safe Base64 text, or `None` for an invalid text.
pub uninterp spec fn spec_base64url_decode(text: Seq<char>) -> Option<Seq<u8>>;

/// `base64::engine::general_purpose::URL_SAFE_NO_PAD.encode`. The result is
/// `spec_base64url_encode` of the bytes, written in the URL-safe alphabet
/// (`A`-`Z`, `a`-`z`, `0`-`9`, `-`, `_`) as the crate's alphabet definition shows.
#[verifier::external_body]
pub fn encode_base64url(bytes: &[u8]) -> (r: String)
    requires
        bytes@.len() <= usize::MAX / 2,
    ensures
        r@ == spec_base64url_encode(bytes@),
        forall|i: int| 0 <= i < r@.len() ==> url_safe_char(#[trigger] r@[i]),
{
    base64::engine::general_purpose::URL_SAFE_NO_PAD.encode(bytes)
}

/// `base64::engine::general_purpose::URL_SAFE_NO_PAD.decode`. The result is
/// `spec_base64url_decode` of the text; decoding what the engine encoded gives the
/// encoded bytes back.
#[verifier::external_body]
pub fn decode_base64url(text: &str) -> (r: Option<Vec<u8>>)
    ensures
        opt_bytes(r) == spec_base64url_decode(text@),
        forall|b: Seq<u8>| #[trigger] spec_base64url_encode(b) == text@ ==> opt_bytes(r) == Some(b),
{
    base64::engine::general_purpose::URL_SAFE_NO_PAD.decode(text).ok()
}

/// The HMAC-SHA-256 tag of `data` under `key`.
pub uninterp spec fn spec_hmac_sha256(key: Seq<u8>, data: Seq<u8>) -> Seq<u8>;

/// `hmac::Hmac::<sha2::Sha256>` keyed with `key` (any key length is accepted), updated
/// with `data` and finalized. The result is `spec_hmac_sha256(key, data)`, 32 bytes long.
#[verifier::external_body]
pub fn hmac_sha256(key: &[u8], data: &[u8]) -> (r: Vec<u8>)
    ensures
        r@ == spec_hmac_sha256(key@, data@),
        r@.len() == 32,
{
    let mut mac = <hmac::Hmac<sha2::Sha256> as hmac::Mac>::new_from_slice(key).expect("HMAC accepts any key length");
    mac.update(data);
    mac.finalize().into_bytes().to_vec()
}

/// `hmac::Mac::verify_slice` on an HMAC-SHA-256 keyed with `key` and updated with
/// `data`: it accepts exactly the tag `spec_hmac_sha256(key, data)`.
#[verifier::external_body]
pub fn hmac_sha256_verify(key: &[u8], data: &[u8], tag: &[u8]) -> (r: bool)
    ensures
        r == (tag@ == spec_hmac_sha256(key@, data@)),
{
    let mut mac = <hmac::Hmac<sha2::Sha256> as hmac::Mac>::new_from_slice(key).expect("HMAC accepts any key length");
    mac.update(data);
    mac.verify_slice(tag).is_ok()
}

} // verus!
