//! Content digests: the deduplication key of the image store.

use vstd::prelude::*;

verus! {

/// The lower-case hexadecimal SHA-256 digest of a byte sequence.
///
/// The digest is a pure function of the bytes alone, so two calls on equal
/// byte sequences always see the same digest. What the digest is on given
/// bytes is not stated here; it is whatever the SHA-256 implementation
/// computes.
pub uninterp spec fn sha256_hex_of(data: Seq<u8>) -> Seq<char>;

/// Relies on sha2::Sha256 (Digest::new, update, finalize) and on lower-hex
/// formatting of the 32-byte digest: the result is a function of the input
/// bytes alone.
#[verifier::external_body]
pub(crate) fn sha256_hex(data: &[u8]) -> (r: String)
    ensures
        r@ == sha256_hex_of(data@),
{
    let mut hasher = <sha2::Sha256 as sha2::Digest>::new();
    sha2::Digest::update(&mut hasher, data);
    format!("{:x}", sha2::Digest::finalize(hasher))
}

/// Computes the content digest of an attachment: pure, no persistence.
///
/// Always succeeds; the `Result` shape is kept for the command surface,
/// which reports every operation as fallible.
pub fn calculate_image_hash(data: Vec<u8>) -> (r: Result<String, String>)
    ensures
        r is Ok,
        r->Ok_0@ == sha256_hex_of(data@),
{
    Ok(sha256_hex(data.as_slice()))
}

/// The digest is deterministic: equal byte sequences have equal digests.
pub proof fn lemma_digest_deterministic(b1: Seq<u8>, b2: Seq<u8>)
    requires
        b1 == b2,
    ensures
        sha256_hex_of(b1) == sha256_hex_of(b2),
{
}

} // verus!
