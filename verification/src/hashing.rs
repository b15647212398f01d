//! The 256-bit digest used by the commitment scheme.
//!
//! The digest itself is computed outside this crate. Nothing is proved about
//! it here beyond its being a function of the hashed bytes: the proofs in this
//! crate hold for whatever function that is.

use vstd::prelude::*;

verus! {

/// A 256-bit digest.
#[derive(Clone, Copy, Debug, PartialEq, Eq, Hash)]
pub struct Hash256(pub [u8; 32]);

impl View for Hash256 {
    type V = Seq<u8>;

    open spec fn view(&self) -> Seq<u8> {
        self.0@
    }
}

/// The digest whose 32 bytes are all zero.
pub open spec fn zero_digest() -> Seq<u8> {
    Seq::new(32, |i: int| 0u8)
}

impl Default for Hash256 {
    fn default() -> (digest: Self)
        ensures
            digest@ == zero_digest(),
    {
        let digest = Hash256([0u8; 32]);
        assert(digest@ =~= zero_digest());
        digest
    }
}

/// The Blake2b digest of 256 bits of `data`.
pub uninterp spec fn blake2_256(data: Seq<u8>) -> Seq<u8>;

/// The bytes that are hashed to join two nodes of a tree into their parent.
pub open spec fn pair_encoding(left: Seq<u8>, right: Seq<u8>) -> Seq<u8> {
    left + right
}

/// The digest that joins two nodes of a tree into their parent.
pub open spec fn hash_pair(left: Seq<u8>, right: Seq<u8>) -> Seq<u8> {
    blake2_256(pair_encoding(left, right))
}

/// Calls `sp_runtime::traits::Hash::hash` of `BlakeTwo256`.
///
/// Trusted: the digest returned depends on the bytes of `data` alone, so it
/// is the value that [`blake2_256`] names.
#[verifier::external_body]
pub(crate) fn hash_bytes(data: &[u8]) -> (digest: Hash256)
    ensures
        digest@ == blake2_256(data@),
{
    Hash256(<sp_runtime::traits::BlakeTwo256 as sp_runtime::traits::Hash>::hash(data).0)
}

/// Calls `parity_scale_codec::Encode::encode` on a pair of `sp_core::H256`.
///
/// Trusted: a tuple is encoded as its fields one after the other, and a
/// fixed-size hash as its 32 bytes with no prefix, so the encoding is the 64
/// bytes of `left` followed by `right`.
#[verifier::external_body]
pub(crate) fn encode_pair(left: &Hash256, right: &Hash256) -> (bytes: Vec<u8>)
    ensures
        bytes@ == pair_encoding(left@, right@),
{
    parity_scale_codec::Encode::encode(&(sp_core::H256(left.0), sp_core::H256(right.0)))
}

impl Hash256 {
    /// Whether two digests hold the same bytes.
    pub fn equals(&self, other: &Hash256) -> (same: bool)
        ensures
            same <==> self@ == other@,
    {
        let mut i: usize = 0;
        while i < 32
            invariant
                i <= 32,
                forall|k: int| 0 <= k < i ==> self@[k] == other@[k],
            decreases 32 - i,
        {
            if self.0[i] != other.0[i] {
                return false;
            }
            i += 1;
        }
        assert(self@ =~= other@);
        true
    }

    /// The digest of two nodes joined in this order.
    pub fn join(left: &Hash256, right: &Hash256) -> (parent: Hash256)
        ensures
            parent@ == hash_pair(left@, right@),
    {
        let bytes = encode_pair(left, right);
        hash_bytes(bytes.as_slice())
    }
}

} // verus!
