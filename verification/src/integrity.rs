//! Integrity verification: hash the installed binary's bytes and compare the
//! hex digest, case-insensitively, with the hash the caller supplied.
//! Reading the file happens at the program edge; this module owns the digest,
//! the encoding and the comparison.

use vstd::prelude::*;

use sha2::Digest;

use crate::strutil::{lower, lower_char, eq_ci};

verus! {

/// Why a verification failed. An unreadable file is reported at the program
/// edge as `Io`; a computed digest that differs from the expected one is a
/// `HashMismatch` carrying both values.
#[derive(Debug)]
pub enum VerificationError {
    /// The file to verify could not be read.
    Io,
    /// The computed hash differs from the expected one.
    HashMismatch { expected: String, actual: String },
}

/// The lowercase hex digit for a value below 16.
pub open spec fn hex_digit(n: u8) -> char {
    if n < 10 {
        ((n + 48) as u8) as char
    } else {
        ((n + 87) as u8) as char
    }
}

/// The lowercase hex encoding of a byte sequence: two digits per byte, high
/// nibble first.
pub open spec fn hex_of(bytes: Seq<u8>) -> Seq<char> {
    Seq::new(
        2 * bytes.len(),
        |i: int|
            if i % 2 == 0 {
                hex_digit(bytes[i / 2] >> 4u8)
            } else {
                hex_digit(bytes[i / 2] & 0xfu8)
            },
    )
}

/// The SHA-256 digest of a byte sequence, named but not written out: it is a
/// function of the input bytes alone.
pub uninterp spec fn sha256_of(data: Seq<u8>) -> Seq<u8>;

/// Relies on sha2's `Sha256`: the digest of the input bytes, 32 bytes long,
/// depending on the input alone.
#[verifier::external_body]
fn sha256_digest(data: &Vec<u8>) -> (r: Vec<u8>)
    ensures
        r@ == sha256_of(data@),
        r@.len() == 32,
{
    sha2::Sha256::digest(data.as_slice()).to_vec()
}

/// Relies on hex::encode: two lowercase hex digits for every input byte,
/// high nibble first.
#[verifier::external_body]
fn hex_encode(data: &Vec<u8>) -> (r: String)
    ensures
        r@ == hex_of(data@),
{
    hex::encode(data.as_slice())
}

/// The lowercase hex SHA-256 digest of the given bytes.
pub fn hash_hex(data: &Vec<u8>) -> (r: String)
    ensures
        r@ == hex_of(sha256_of(data@)),
{
    let digest = sha256_digest(data);
    hex_encode(&digest)
}

/// A hex encoding is already lowercase: case folding leaves it unchanged.
proof fn lemma_hex_lower(bytes: Seq<u8>)
    ensures
        lower(hex_of(bytes)) == hex_of(bytes),
{
    assert forall|i: int|
        0 <= i < hex_of(bytes).len() implies lower(hex_of(bytes))[i] == hex_of(bytes)[i] by {
        let c = hex_of(bytes)[i];
        let b = bytes[i / 2];
        assert((b >> 4u8) < 16 && (b & 0xfu8) < 16) by (bit_vector);
        let n = if i % 2 == 0 {
            b >> 4u8
        } else {
            b & 0xfu8
        };
        assert(n < 16);
        assert(c == hex_digit(n));
        if n < 10 {
            assert(c as u32 == n + 48);
        } else {
            assert(c as u32 == n + 87);
        }
        assert(lower_char(c) == c);
    }
    assert(lower(hex_of(bytes)) =~= hex_of(bytes));
}

/// Compare the SHA-256 digest of the given bytes with the expected hash,
/// case-insensitively: success exactly when the folded expected hash equals
/// the digest's hex encoding; otherwise a mismatch error carrying the
/// expected hash as given and the computed digest.
pub fn verify_hash_bytes(data: &Vec<u8>, expected_hash: &str) -> (r: Result<
    (),
    VerificationError,
>)
    ensures
        r is Ok <==> lower(expected_hash@) == hex_of(sha256_of(data@)),
        r matches Err(VerificationError::HashMismatch { expected, actual }) ==> expected@
            == expected_hash@ && actual@ == hex_of(sha256_of(data@)),
        r is Err ==> r->Err_0 is HashMismatch,
{
    let actual = hash_hex(data);
    proof {
        lemma_hex_lower(sha256_of(data@));
    }
    if eq_ci(actual.as_str(), expected_hash) {
        Ok(())
    } else {
        Err(VerificationError::HashMismatch { expected: expected_hash.to_owned(), actual })
    }
}

} // verus!
