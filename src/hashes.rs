//! The digests of the crypto opcodes, computed by `bitcoin_hashes`.
use vstd::prelude::*;

verus! {

/// The RIPEMD-160 digest of a byte string.
pub uninterp spec fn ripemd160_of(data: Seq<u8>) -> Seq<u8>;

/// The SHA-1 digest of a byte string.
pub uninterp spec fn sha1_of(data: Seq<u8>) -> Seq<u8>;

/// The SHA-256 digest of a byte string.
pub uninterp spec fn sha256_of(data: Seq<u8>) -> Seq<u8>;

/// RIPEMD-160 of SHA-256 of a byte string.
pub uninterp spec fn hash160_of(data: Seq<u8>) -> Seq<u8>;

/// SHA-256 applied twice to a byte string.
pub uninterp spec fn sha256d_of(data: Seq<u8>) -> Seq<u8>;

/// Relies on `bitcoin_hashes::ripemd160::hash`: a 20-byte digest that depends
/// on the input alone.
#[verifier::external_body]
pub(crate) fn ripemd160(data: &[u8]) -> (r: Vec<u8>)
    ensures
        r@ == ripemd160_of(data@),
        r@.len() == 20,
{
    bitcoin_hashes::ripemd160::hash(data).to_byte_array().to_vec()
}

/// Relies on `bitcoin_hashes::sha1::hash`: a 20-byte digest that depends on
/// the input alone.
#[verifier::external_body]
pub(crate) fn sha1(data: &[u8]) -> (r: Vec<u8>)
    ensures
        r@ == sha1_of(data@),
        r@.len() == 20,
{
    bitcoin_hashes::sha1::hash(data).to_byte_array().to_vec()
}

/// Relies on `bitcoin_hashes::sha256::hash`: a 32-byte digest that depends on
/// the input alone.
#[verifier::external_body]
pub(crate) fn sha256(data: &[u8]) -> (r: Vec<u8>)
    ensures
        r@ == sha256_of(data@),
        r@.len() == 32,
{
    bitcoin_hashes::sha256::hash(data).to_byte_array().to_vec()
}

/// Relies on `bitcoin_hashes::hash160::hash`: a 20-byte digest that depends
/// on the input alone.
#[verifier::external_body]
pub(crate) fn hash160(data: &[u8]) -> (r: Vec<u8>)
    ensures
        r@ == hash160_of(data@),
        r@.len() == 20,
{
    bitcoin_hashes::hash160::hash(data).to_byte_array().to_vec()
}

/// Relies on `bitcoin_hashes::sha256d::hash`: a 32-byte digest that depends
/// on the input alone.
#[verifier::external_body]
pub(crate) fn sha256d(data: &[u8]) -> (r: Vec<u8>)
    ensures
        r@ == sha256d_of(data@),
        r@.len() == 32,
{
    bitcoin_hashes::sha256d::hash(data).to_byte_array().to_vec()
}

} // verus!
