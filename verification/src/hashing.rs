//! The single 256-bit hash primitive used for file commitments, column-name
//! commitments, and every Merkle tree node.

use vstd::prelude::*;

verus! {

/// The Keccak-256 digest of a byte sequence. The digest is a pure function of
/// the bytes alone; nothing more is assumed of it.
pub uninterp spec fn keccak256(bytes: Seq<u8>) -> Seq<u8>;

/// Relies on tiny_keccak's `Keccak::v256` / `update` / `finalize`: the digest
/// is a deterministic function of the absorbed bytes alone, written into a
/// 32-byte buffer.
#[verifier::external_body]
pub fn hash(s: &[u8]) -> (r: Vec<u8>)
    ensures
        r@ == keccak256(s@),
        r@.len() == 32,
{
    let mut keccak = tiny_keccak::Keccak::v256();
    let mut out = [0u8; 32];
    tiny_keccak::Hasher::update(&mut keccak, s);
    tiny_keccak::Hasher::finalize(keccak, &mut out);
    out.to_vec()
}

} // verus!
