//! Content hashing: a file's recorded digest is the lowercase hexadecimal
//! rendering of the SHA-256 of its bytes.

use vstd::prelude::*;

use sha2::{Digest, Sha256};

verus! {

/// The SHA-256 digest of a byte string; it depends on those bytes alone.
pub uninterp spec fn sha256_of(bytes: Seq<u8>) -> Seq<u8>;

/// The digit that stands for one hexadecimal place.
pub open spec fn hex_digit(n: u8) -> char {
    seq!['0', '1', '2', '3', '4', '5', '6', '7', '8', '9', 'a', 'b', 'c', 'd', 'e', 'f'][n as int]
}

/// Lowercase hexadecimal rendering of a byte string: two digits per byte,
/// most significant nibble first.
pub open spec fn hex_lower(bytes: Seq<u8>) -> Seq<char>
    decreases bytes.len(),
{
    if bytes.len() == 0 {
        Seq::empty()
    } else {
        hex_lower(bytes.drop_last()) + seq![
            hex_digit(bytes.last() / 16),
            hex_digit(bytes.last() % 16),
        ]
    }
}

/// The digest recorded for a file with the given content.
pub open spec fn file_digest(content: Seq<u8>) -> Seq<char> {
    hex_lower(sha256_of(content))
}

/// Relies on sha2::Sha256::digest: the digest of a byte string is a function
/// of those bytes alone.
#[verifier::external_body]
fn sha256(bytes: &Vec<u8>) -> (r: Vec<u8>)
    ensures
        r@ == sha256_of(bytes@),
{
    Sha256::digest(bytes).to_vec()
}

/// Relies on hex::encode: two lowercase hexadecimal digits per input byte,
/// most significant nibble first.
#[verifier::external_body]
fn hex_encode(bytes: &Vec<u8>) -> (r: String)
    ensures
        r@ == hex_lower(bytes@),
{
    hex::encode(bytes)
}

/// Computes the digest recorded for a file with the given content.
pub fn hash_contents(content: &Vec<u8>) -> (r: String)
    ensures
        r@ == file_digest(content@),
{
    let d = sha256(content);
    hex_encode(&d)
}

} // verus!
