//! SHA-256 digests: script hashes, the burn sentinel, and the hash used by
//! the proof-of-history chain.

use vstd::prelude::*;
use crate::types::{bytes_eq, FullHash};

verus! {

/// What SHA-256 returns on a byte string; a function of those bytes alone.
pub uninterp spec fn sha256_of(data: Seq<u8>) -> Seq<u8>;

/// Relies on sha2::Sha256 (Digest::digest): the 32-byte digest of the input,
/// a pure function of the input bytes.
#[verifier::external_body]
fn sha256_digest(data: &[u8]) -> (r: [u8; 32])
    ensures
        r@ == sha256_of(data@),
        r@.len() == sha256_of(data@).len(),
{
    let d = <sha2::Sha256 as sha2::Digest>::digest(data);
    let mut out = [0u8; 32];
    out.copy_from_slice(&d);
    out
}

/// The SHA-256 digest of a byte string, for the crate's own hashing needs.
pub(crate) fn sha256_arr(data: &[u8]) -> (r: [u8; 32])
    ensures
        r@ == sha256_of(data@),
{
    sha256_digest(data)
}

/// The canonical address key of a locking script: its SHA-256.
pub fn compute_script_hash(script: &[u8]) -> (r: FullHash)
    ensures
        r@ == sha256_of(script@),
{
    FullHash(sha256_digest(script))
}

/// The bytes of the burn marker string.
pub open spec fn burned_bytes() -> Seq<u8> {
    seq![66u8, 85u8, 82u8, 78u8, 69u8, 68u8]
}

/// The reserved script hash that stands for burned tokens.
pub open spec fn op_return_hash_spec() -> Seq<u8> {
    sha256_of(burned_bytes())
}

/// Compute the burn sentinel hash.
pub fn op_return_hash() -> (r: FullHash)
    ensures
        r@ == op_return_hash_spec(),
{
    let data: Vec<u8> = vec![66u8, 85u8, 82u8, 78u8, 69u8, 68u8];
    proof {
        assert(data@ =~= burned_bytes());
    }
    FullHash(sha256_digest(data.as_slice()))
}

impl FullHash {
    /// Whether this address is the burn sentinel.
    pub fn is_op_return_hash(&self) -> (r: bool)
        ensures
            r == (self@ == op_return_hash_spec()),
    {
        let burn = op_return_hash();
        bytes_eq(self.0.as_slice(), burn.0.as_slice())
    }
}

/// The bytes of the string hashed for an empty block and for the genesis
/// proof-of-history link.
pub open spec fn null_bytes() -> Seq<u8> {
    seq![110u8, 117u8, 108u8, 108u8]
}

/// The proof-of-history seed: the digest standing in for "nothing".
pub open spec fn default_hash_spec() -> Seq<u8> {
    sha256_of(null_bytes())
}

/// Compute the proof-of-history seed digest.
pub fn default_poh_hash() -> (r: [u8; 32])
    ensures
        r@ == default_hash_spec(),
{
    let data: Vec<u8> = vec![110u8, 117u8, 108u8, 108u8];
    proof {
        assert(data@ =~= null_bytes());
    }
    sha256_digest(data.as_slice())
}

} // verus!
