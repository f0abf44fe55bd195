//! The hash facade: SHA3-256 (H), SHA3-512 (G), SHAKE-128 (the XOF) and
//! SHAKE-256 (the PRF and J), each behind a trusted wrapper whose result
//! is named by an uninterpreted function of the input alone.

use vstd::prelude::*;

use sha3::digest::ExtendableOutput;
use sha3::digest::Update;
use sha3::digest::XofReader;
use sha3::Digest;

verus! {

/// The SHA3-256 digest of a byte string.
pub uninterp spec fn sha3_256_of(s: Seq<u8>) -> Seq<u8>;

/// The SHA3-512 digest of a byte string.
pub uninterp spec fn sha3_512_of(s: Seq<u8>) -> Seq<u8>;

/// Byte i of the unbounded SHAKE-128 output stream of a byte string.
pub uninterp spec fn shake128_byte(s: Seq<u8>, i: int) -> u8;

/// Byte i of the unbounded SHAKE-256 output stream of a byte string.
pub uninterp spec fn shake256_byte(s: Seq<u8>, i: int) -> u8;

/// The first n bytes of the SHAKE-128 stream of a byte string.
pub open spec fn shake128_prefix(s: Seq<u8>, n: nat) -> Seq<u8> {
    Seq::new(n, |t: int| shake128_byte(s, t))
}

/// The first n bytes of the SHAKE-256 stream of a byte string.
pub open spec fn shake256_prefix(s: Seq<u8>, n: nat) -> Seq<u8> {
    Seq::new(n, |t: int| shake256_byte(s, t))
}

/// Relies on sha3::Sha3_256 (new, update, finalize): the 32-byte digest
/// depends on the input bytes alone.
#[verifier::external_body]
pub fn sha3_256(s: &[u8]) -> (r: Vec<u8>)
    ensures
        r@ == sha3_256_of(s@),
        r@.len() == 32,
{
    let mut hasher = sha3::Sha3_256::new();
    Update::update(&mut hasher, s);
    hasher.finalize().to_vec()
}

/// Relies on sha3::Sha3_512 (new, update, finalize): the 64-byte digest
/// depends on the input bytes alone.
#[verifier::external_body]
pub fn sha3_512(s: &[u8]) -> (r: Vec<u8>)
    ensures
        r@ == sha3_512_of(s@),
        r@.len() == 64,
{
    let mut hasher = sha3::Sha3_512::new();
    Update::update(&mut hasher, s);
    hasher.finalize().to_vec()
}

/// Relies on sha3::Shake128 (default, update, finalize_xof, read): the
/// output is a deterministic stream depending on the input bytes alone,
/// and reading n bytes yields the stream's first n bytes.
#[verifier::external_body]
pub fn shake128(s: &[u8], n: usize) -> (r: Vec<u8>)
    ensures
        r@.len() == n,
        forall|t: int| 0 <= t < n ==> r@[t] == shake128_byte(s@, t),
        r@ == shake128_prefix(s@, n as nat),
{
    let mut hasher = sha3::Shake128::default();
    hasher.update(s);
    let mut reader = hasher.finalize_xof();
    let mut buf = vec![0u8; n];
    reader.read(&mut buf);
    buf
}

/// Relies on sha3::Shake256 (default, update, finalize_xof, read): the
/// output is a deterministic stream depending on the input bytes alone,
/// and reading n bytes yields the stream's first n bytes.
#[verifier::external_body]
pub fn shake256(s: &[u8], n: usize) -> (r: Vec<u8>)
    ensures
        r@.len() == n,
        forall|t: int| 0 <= t < n ==> r@[t] == shake256_byte(s@, t),
        r@ == shake256_prefix(s@, n as nat),
{
    let mut hasher = sha3::Shake256::default();
    hasher.update(s);
    let mut reader = hasher.finalize_xof();
    let mut buf = vec![0u8; n];
    reader.read(&mut buf);
    buf
}

} // verus!
