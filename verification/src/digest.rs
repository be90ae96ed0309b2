//! SHA-256 fingerprints of decoded payloads, from the `sha2` crate.

use vstd::prelude::*;
use sha2::Digest;

verus! {

/// Lower-case hexadecimal SHA-256 digest of a byte sequence, as `sha2` computes it.
pub uninterp spec fn sha256_hex_of(data: Seq<u8>) -> Seq<char>;

/// Trusted: calls `sha2::Sha256::digest` and formats the 32-byte digest with
/// `{:x}`. The contract claims that the text is a function of the bytes
/// (named `sha256_hex_of`), that it has 64 characters, and that each is a
/// lower-case hexadecimal digit (generic-array's `LowerHex` writes two such
/// digits per byte); the hash itself is not stated.
#[verifier::external_body]
pub fn sha256_hex(data: &[u8]) -> (hex: String)
    ensures
        hex@ == sha256_hex_of(data@),
        hex@.len() == 64,
        forall|i: int| 0 <= i < 64 ==> ('0' <= #[trigger] hex@[i] <= '9' || 'a' <= hex@[i] <= 'f'),
{
    format!("{:x}", sha2::Sha256::digest(data))
}

} // verus!
