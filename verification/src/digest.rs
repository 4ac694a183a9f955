//! SHA-256 digests of text, rendered as lowercase hexadecimal.

use crate::text::{hex, to_hex};
use sha2::Digest;
use vstd::prelude::*;
use vstd::utf8::encode_utf8;

verus! {

/// The SHA-256 digest of a byte sequence, as computed by `sha2::Sha256`.
pub uninterp spec fn sha256(data: Seq<u8>) -> Seq<u8>;

/// `sha2::Sha256::digest`: the digest is a function of the input bytes alone
/// and is thirty-two bytes long. Nothing else about the digest is claimed.
#[verifier::external_body]
fn sha256_digest(data: &[u8]) -> (digest: Vec<u8>)
    ensures
        digest@ == sha256(data@),
        digest@.len() == 32,
{
    sha2::Sha256::digest(data).to_vec()
}

/// The fingerprint of a text: the SHA-256 digest of its UTF-8 encoding in
/// lowercase hexadecimal.
pub open spec fn fingerprint(text: Seq<char>) -> Seq<char> {
    hex(sha256(encode_utf8(text)))
}

/// Computes the fingerprint of `text`: sixty-four hexadecimal digits.
pub fn fingerprint_of(text: &str) -> (out: String)
    ensures
        out@ == fingerprint(text@),
        out@.len() == 64,
{
    let digest = sha256_digest(text.as_bytes());
    to_hex(digest.as_slice())
}

} // verus!
