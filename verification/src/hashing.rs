//! Content hashing.

use sha2::Digest;
use vstd::prelude::*;

verus! {

/// What the SHA-256 digest of a text's UTF-8 bytes is in lower-case
/// hexadecimal.
pub uninterp spec fn sha256_hex_of(content: Seq<char>) -> Seq<char>;

/// `sha2::Sha256` over the UTF-8 bytes of the text, printed with `{:x}`: the
/// digest is named [`sha256_hex_of`]; it has 32 bytes, so 64 hexadecimal
/// digits.
#[verifier::external_body]
fn sha256_hex(content: &str) -> (r: String)
    ensures
        r@ == sha256_hex_of(content@),
        r@.len() == 64,
{
    let mut hasher = sha2::Sha256::new();
    hasher.update(content.as_bytes());
    format!("{:x}", hasher.finalize())
}

/// Hashes file content for cache invalidation.
pub fn hash_file_content(content: &str) -> (r: String)
    ensures
        r@ == sha256_hex_of(content@),
        r@.len() == 64,
{
    sha256_hex(content)
}

} // verus!
