use vstd::prelude::*;

verus! {

/// The BLAKE3 digest of `bytes` in lowercase hexadecimal.
pub uninterp spec fn blake3_hex(bytes: Seq<u8>) -> Seq<char>;

/// The SHA-256 digest of `bytes` in lowercase hexadecimal.
pub uninterp spec fn sha256_hex(bytes: Seq<u8>) -> Seq<char>;

/// Relies on `blake3::hash` and `Hash::to_hex`: 32 digest bytes written as 64
/// lowercase hexadecimal digits.
#[verifier::external_body]
fn blake3_hex_of(bytes: &[u8]) -> (r: String)
    ensures
        r@ == blake3_hex(bytes@),
        r@.len() == 64,
{
    blake3::hash(bytes).to_hex().to_string()
}

/// Relies on `sha2::Sha256::digest`, written with `{:x}`: 32 digest bytes as
/// 64 lowercase hexadecimal digits.
#[verifier::external_body]
fn sha256_hex_of(bytes: &[u8]) -> (r: String)
    ensures
        r@ == sha256_hex(bytes@),
        r@.len() == 64,
{
    format!("{:x}", <sha2::Sha256 as sha2::Digest>::digest(bytes))
}

/// Content key of a file's bytes: their BLAKE3 digest in hexadecimal.
pub fn calculate_blake3_hash(bytes: &[u8]) -> (r: String)
    ensures
        r@ == blake3_hex(bytes@),
        r@.len() == 64,
{
    blake3_hex_of(bytes)
}

/// SHA-256 digest of a model artifact's bytes, in hexadecimal.
pub fn calculate_file_hash(bytes: &[u8]) -> (r: String)
    ensures
        r@ == sha256_hex(bytes@),
        r@.len() == 64,
{
    sha256_hex_of(bytes)
}

/// A model artifact's digest differs from the expected one.
#[derive(Clone, Debug)]
pub struct HashMismatch {
    pub expected: String,
    pub calculated: String,
}

/// Checks a digest against the expected one; with no expected digest any
/// digest is accepted. A mismatch names both digests.
pub fn verify_hash(calculated: &str, expected: Option<&str>) -> (r: Result<bool, HashMismatch>)
    ensures
        match expected {
            Some(e) => if calculated@ == e@ {
                r matches Ok(true)
            } else {
                r matches Err(m) && m.expected@ == e@ && m.calculated@ == calculated@
            },
            None => r matches Ok(true),
        },
{
    match expected {
        Some(e) => {
            let got = calculated.to_owned();
            let want = e.to_owned();
            if got == want {
                Ok(true)
            } else {
                Err(HashMismatch { expected: want, calculated: got })
            }
        },
        None => Ok(true),
    }
}

} // verus!
