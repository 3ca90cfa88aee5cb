//! Digests of byte strings.
use sha1::{Digest, Sha1};
use sha2::Sha256;
use vstd::prelude::*;
use crate::text;

verus! {

/// The SHA-1 digest of `bytes`.
pub uninterp spec fn sha1_digest(bytes: Seq<u8>) -> Seq<u8>;

/// The SHA-256 digest of `bytes`.
pub uninterp spec fn sha256_digest(bytes: Seq<u8>) -> Seq<u8>;

/// `sha1::Sha1::digest`: the digest, 20 bytes long.
#[verifier::external_body]
fn sha1_of(bytes: &[u8]) -> (digest: Vec<u8>)
    ensures
        digest@ == sha1_digest(bytes@),
        digest@.len() == 20,
{
    Sha1::digest(bytes).to_vec()
}

/// `sha2::Sha256::digest`: the digest, 32 bytes long.
#[verifier::external_body]
fn sha256_of(bytes: &[u8]) -> (digest: Vec<u8>)
    ensures
        digest@ == sha256_digest(bytes@),
        digest@.len() == 32,
{
    Sha256::digest(bytes).to_vec()
}

/// The first `n` bytes of the SHA-1 digest of `bytes`, in hexadecimal.
pub fn sha1_hex_prefix(bytes: &[u8], n: usize) -> (hex: String)
    requires
        n <= 20,
    ensures
        hex@ == text::hex_text(sha1_digest(bytes@).take(n as int)),
        hex@.len() == 2 * n,
{
    let digest = sha1_of(bytes);
    let prefix = vstd::slice::slice_subrange(&digest, 0, n);
    assert(prefix@ =~= digest@.take(n as int));
    text::string_of(&text::hex_chars(prefix))
}

/// The SHA-1 digest of `bytes`, in lower-case hexadecimal.
pub fn sha1_hex(bytes: &[u8]) -> (hex: String)
    ensures
        hex@ == text::hex_text(sha1_digest(bytes@)),
        hex@.len() == 40,
{
    text::string_of(&text::hex_chars(&sha1_of(bytes)))
}

/// The SHA-256 digest of `bytes`, in lower-case hexadecimal.
pub fn sha256_hex(bytes: &[u8]) -> (hex: String)
    ensures
        hex@ == text::hex_text(sha256_digest(bytes@)),
        hex@.len() == 64,
{
    text::string_of(&text::hex_chars(&sha256_of(bytes)))
}

} // verus!
