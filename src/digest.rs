use vstd::prelude::*;
use vstd::string::StringSliceAdditionalSpecFns;

use crate::account::User;

verus! {

/// The lowercase hexadecimal digit of `d`, for `d` in `0..16`.
pub open spec fn hex_digit(d: int) -> char {
    seq!['0', '1', '2', '3', '4', '5', '6', '7', '8', '9', 'a', 'b', 'c', 'd', 'e', 'f'][d]
}

/// Lowercase hexadecimal text of `b`: two digits per byte, high nibble first.
pub open spec fn hex_of(b: Seq<u8>) -> Seq<char> {
    Seq::new(
        2 * b.len(),
        |i: int|
            if i % 2 == 0 {
                hex_digit(b[i / 2] as int / 16)
            } else {
                hex_digit(b[i / 2] as int % 16)
            },
    )
}

/// The SHA-256 digest of `data`.
pub uninterp spec fn sha256_of(data: Seq<u8>) -> Seq<u8>;

/// The stored form of a password: the hex text of its SHA-256 digest.
pub open spec fn password_digest(secret: Seq<u8>) -> Seq<char> {
    hex_of(sha256_of(secret))
}

/// Relies on `sha2::Sha256::digest`: the SHA-256 digest of the bytes, 32 bytes long.
#[verifier::external_body]
fn sha256(data: &[u8]) -> (r: Vec<u8>)
    ensures
        r@ == sha256_of(data@),
        r@.len() == 32,
{
    <sha2::Sha256 as sha2::Digest>::digest(data).to_vec()
}

/// Relies on `hex::encode`: each byte as two lowercase hex digits, high nibble first.
#[verifier::external_body]
fn hex_encode(b: &[u8]) -> (r: String)
    ensures
        r@ == hex_of(b@),
{
    hex::encode(b)
}

/// The digest under which a password is stored: SHA-256, as lowercase hex.
pub fn hash(data: &str) -> (r: String)
    ensures
        r@ == password_digest(data.spec_bytes()),
        r@.len() == 64,
{
    let digest = sha256(data.as_bytes());
    hex_encode(digest.as_slice())
}

impl User {
    /// Whether `digest` is this account's stored password digest.
    pub fn password_matches(&self, digest: &String) -> (r: bool)
        ensures
            r == (self.password@ == digest@),
    {
        self.password == *digest
    }

    /// Whether `secret` is this account's password.
    pub fn check_password(&self, secret: &str) -> (r: bool)
        ensures
            r == (self.password@ == password_digest(secret.spec_bytes())),
    {
        let digest = hash(secret);
        self.password_matches(&digest)
    }
}

} // verus!
