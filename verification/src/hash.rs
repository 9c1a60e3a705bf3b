//! Content digests.

use vstd::prelude::*;
use sha2::Digest;
use crate::text::same_text;

verus! {

/// The SHA-256 digest of `data`, written as 64 lower-case hexadecimal digits.
pub uninterp spec fn sha256_hex(data: Seq<u8>) -> Seq<char>;

/// `sha2::Sha256::digest`, formatted with `{:x}`: the digest of the bytes
/// given, as lower-case hexadecimal text. The digest depends on the bytes
/// alone.
#[verifier::external_body]
fn sha256_digest_hex(data: &[u8]) -> (hash: String)
    ensures
        hash@ == sha256_hex(data@),
{
    format!("{:x}", sha2::Sha256::digest(data))
}

/// The digest of the contents of a file.
pub fn file_sha256(data: &[u8]) -> (hash: String)
    ensures
        hash@ == sha256_hex(data@),
{
    sha256_digest_hex(data)
}

/// Hands `hash` back where it reads exactly `sha256`, and fails otherwise.
pub fn check_digest(hash: String, sha256: &str) -> (r: Result<String, ()>)
    ensures
        hash@ == sha256@ ==> (r matches Ok(h) && h@ == hash@),
        hash@ != sha256@ ==> r.is_err(),
{
    if same_text(hash.as_str(), sha256) {
        Ok(hash)
    } else {
        Err(())
    }
}

/// The digest of `data` where it is the digest `sha256` that was declared
/// for it; a failure where it is not.
pub fn check_file_sha256(data: &[u8], sha256: &str) -> (r: Result<String, ()>)
    ensures
        sha256_hex(data@) == sha256@ ==> (r matches Ok(h) && h@ == sha256@),
        sha256_hex(data@) != sha256@ ==> r.is_err(),
{
    check_digest(file_sha256(data), sha256)
}

} // verus!
