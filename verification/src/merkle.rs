//! Membership proofs against a Merkle commitment.
//!
//! A proof lists, from the leaf up to the root, the sibling digest met at
//! each level and the side on which that sibling stands. Folding the proof
//! over the digest of a leaf rebuilds the root of the tree the leaf belongs to.

use vstd::prelude::*;
use crate::hashing::{blake2_256, hash_bytes, pair_encoding, Hash256};

verus! {

/// The side of the running digest on which a sibling is joined.
#[derive(Clone, Copy, Debug, PartialEq, Eq, Structural, Hash)]
pub enum MerkleSide {
    /// The sibling stands to the right of the running digest.
    Right,
    /// The sibling stands to the left of the running digest.
    Left,
}

impl Default for MerkleSide {
    fn default() -> (side: Self)
        ensures
            side == MerkleSide::Right,
    {
        MerkleSide::Right
    }
}

/// A path of sibling digests, read from the leaf to the root.
#[derive(Clone, Debug, PartialEq, Eq)]
pub struct MerkleProof(pub Vec<(Hash256, MerkleSide)>);

/// The steps of a path as digests and sides.
pub open spec fn path_view(path: Seq<(Hash256, MerkleSide)>) -> Seq<(Seq<u8>, MerkleSide)> {
    Seq::new(path.len(), |i: int| (path[i].0@, path[i].1))
}

impl View for MerkleProof {
    type V = Seq<(Seq<u8>, MerkleSide)>;

    open spec fn view(&self) -> Seq<(Seq<u8>, MerkleSide)> {
        path_view(self.0@)
    }
}

/// The bytes hashed to climb one level up from `acc`, whose sibling stands
/// on `side`.
pub open spec fn climb_input(acc: Seq<u8>, sibling: Seq<u8>, side: MerkleSide) -> Seq<u8> {
    match side {
        MerkleSide::Left => pair_encoding(sibling, acc),
        MerkleSide::Right => pair_encoding(acc, sibling),
    }
}

/// The digest one level up from `acc`, whose sibling stands on `side`.
pub open spec fn climb(acc: Seq<u8>, sibling: Seq<u8>, side: MerkleSide) -> Seq<u8> {
    blake2_256(climb_input(acc, sibling, side))
}

/// The other side.
pub open spec fn opposite(side: MerkleSide) -> MerkleSide {
    match side {
        MerkleSide::Left => MerkleSide::Right,
        MerkleSide::Right => MerkleSide::Left,
    }
}

/// The digest reached from `acc` by climbing every step of `path` in turn.
pub open spec fn fold_path(acc: Seq<u8>, path: Seq<(Seq<u8>, MerkleSide)>) -> Seq<u8>
    decreases path.len(),
{
    if path.len() == 0 {
        acc
    } else {
        fold_path(climb(acc, path[0].0, path[0].1), path.drop_first())
    }
}

impl MerkleProof {
    /// Whether the proof leads from an already hashed leaf to `commit`.
    pub fn verify_from_leaf_hash(&self, leaf_hash: Hash256, commit: Hash256) -> (valid: bool)
        ensures
            valid <==> fold_path(leaf_hash@, self@) == commit@,
    {
        let mut acc = leaf_hash;
        let mut i: usize = 0;
        assert(self@.skip(0) =~= self@);
        while i < self.0.len()
            invariant
                i <= self.0.len(),
                fold_path(leaf_hash@, self@) == fold_path(acc@, self@.skip(i as int)),
            decreases self.0.len() - i,
        {
            let (sibling, side) = self.0[i];
            proof {
                let rest = self@.skip(i as int);
                assert(rest[0] == (sibling@, side));
                assert(rest.drop_first() =~= self@.skip(i + 1));
            }
            acc = match side {
                MerkleSide::Left => Hash256::join(&sibling, &acc),
                MerkleSide::Right => Hash256::join(&acc, &sibling),
            };
            i += 1;
        }
        acc.equals(&commit)
    }

    /// Whether the proof shows that the leaf with the encoding `leaf` belongs
    /// to the collection committed to by `commit`.
    pub fn verify_for_commit(&self, leaf: &[u8], commit: Hash256) -> (valid: bool)
        ensures
            valid <==> fold_path(blake2_256(leaf@), self@) == commit@,
    {
        let init = hash_bytes(leaf);
        self.verify_from_leaf_hash(init, commit)
    }
}

/// The digest reached from `leaf` by the first `k` steps of `path`.
pub open spec fn digest_after(leaf: Seq<u8>, path: Seq<(Seq<u8>, MerkleSide)>, k: int) -> Seq<u8> {
    fold_path(leaf, path.take(k))
}

/// Whether the digest function tells apart what is hashed at step `j` of the
/// path `p` and at step `j` of the path `q`, both climbed from `leaf`: if the
/// hashed bytes differ, so do their digests.
pub open spec fn step_told_apart(
    leaf: Seq<u8>,
    p: Seq<(Seq<u8>, MerkleSide)>,
    q: Seq<(Seq<u8>, MerkleSide)>,
    j: int,
) -> bool {
    let of_p = climb_input(digest_after(leaf, p, j), p[j].0, p[j].1);
    let of_q = climb_input(digest_after(leaf, q, j), q[j].0, q[j].1);
    of_p != of_q ==> blake2_256(of_p) != blake2_256(of_q)
}

/// Climbing a path in one go or in two parts reaches the same digest.
pub proof fn lemma_fold_path_split(acc: Seq<u8>, path: Seq<(Seq<u8>, MerkleSide)>, k: int)
    requires
        0 <= k <= path.len(),
    ensures
        fold_path(acc, path) == fold_path(fold_path(acc, path.take(k)), path.skip(k)),
    decreases k,
{
    if k == 0 {
        assert(path.take(0) =~= Seq::empty());
        assert(path.skip(0) =~= path);
    } else {
        let next = climb(acc, path[0].0, path[0].1);
        let rest = path.drop_first();
        lemma_fold_path_split(next, rest, k - 1);
        assert(path.take(k).drop_first() =~= rest.take(k - 1));
        assert(path.skip(k) =~= rest.skip(k - 1));
    }
}

/// Climbing one step further than `k` steps.
pub proof fn lemma_digest_after_next(leaf: Seq<u8>, path: Seq<(Seq<u8>, MerkleSide)>, k: int)
    requires
        0 <= k < path.len(),
    ensures
        digest_after(leaf, path, k + 1) == climb(digest_after(leaf, path, k), path[k].0, path[k].1),
{
    let longer = path.take(k + 1);
    lemma_fold_path_split(leaf, longer, k);
    assert(longer.take(k) =~= path.take(k));
    let last = longer.skip(k);
    assert(last[0] == path[k]);
    assert(last.drop_first() =~= Seq::empty());
    assert(fold_path(climb(digest_after(leaf, path, k), path[k].0, path[k].1), last.drop_first())
        == climb(digest_after(leaf, path, k), path[k].0, path[k].1));
}

/// Two byte strings with a common prefix differ if what follows it differs,
/// and two with a common suffix differ if what precedes it differs.
pub proof fn lemma_pair_encoding_injective(a: Seq<u8>, b: Seq<u8>, common: Seq<u8>)
    requires
        a != b,
    ensures
        pair_encoding(common, a) != pair_encoding(common, b),
        pair_encoding(a, common) != pair_encoding(b, common),
{
    if pair_encoding(common, a) == pair_encoding(common, b) {
        assert(pair_encoding(common, a).len() == pair_encoding(common, b).len());
        assert forall|i: int| 0 <= i < a.len() implies a[i] == b[i] by {
            assert(pair_encoding(common, a)[common.len() + i] == a[i]);
            assert(pair_encoding(common, b)[common.len() + i] == b[i]);
        }
        assert(a =~= b);
    }
    if pair_encoding(a, common) == pair_encoding(b, common) {
        assert(pair_encoding(a, common).len() == pair_encoding(b, common).len());
        assert forall|i: int| 0 <= i < a.len() implies a[i] == b[i] by {
            assert(pair_encoding(a, common)[i] == a[i]);
            assert(pair_encoding(b, common)[i] == b[i]);
        }
        assert(a =~= b);
    }
}

/// Two byte strings of one length, joined in one order and in the other,
/// give the same bytes only if they are equal.
pub proof fn lemma_pair_encoding_order(a: Seq<u8>, b: Seq<u8>)
    requires
        a.len() == b.len(),
        a != b,
    ensures
        pair_encoding(a, b) != pair_encoding(b, a),
{
    if pair_encoding(a, b) == pair_encoding(b, a) {
        assert forall|i: int| 0 <= i < a.len() implies a[i] == b[i] by {
            assert(pair_encoding(a, b)[i] == a[i]);
            assert(pair_encoding(b, a)[i] == b[i]);
        }
        assert(a =~= b);
    }
}

/// Tampering with one step of a path changes the digest it leads to.
///
/// The paths `p` and `q` differ at step `k` alone, and what is hashed at that
/// step differs. Then, unless the digest function maps two different inputs
/// met on the way to one digest, the two paths lead from `leaf` to different
/// digests: at most one of them verifies against a given commitment.
pub proof fn lemma_tampered_path_leads_elsewhere(
    leaf: Seq<u8>,
    p: Seq<(Seq<u8>, MerkleSide)>,
    q: Seq<(Seq<u8>, MerkleSide)>,
    k: int,
)
    requires
        0 <= k < p.len(),
        q.len() == p.len(),
        forall|j: int| 0 <= j < p.len() && j != k ==> q[j] == p[j],
        climb_input(digest_after(leaf, p, k), p[k].0, p[k].1) != climb_input(
            digest_after(leaf, p, k),
            q[k].0,
            q[k].1,
        ),
        forall|j: int| k <= j < p.len() ==> step_told_apart(leaf, p, q, j),
    ensures
        fold_path(leaf, q) != fold_path(leaf, p),
{
    assert(p.take(k) =~= q.take(k));
    lemma_digests_stay_apart(leaf, p, q, k, p.len() as int);
    assert(p.take(p.len() as int) =~= p);
    assert(q.take(q.len() as int) =~= q);
}

/// From the tampered step on, the two paths never reach the same digest.
proof fn lemma_digests_stay_apart(
    leaf: Seq<u8>,
    p: Seq<(Seq<u8>, MerkleSide)>,
    q: Seq<(Seq<u8>, MerkleSide)>,
    k: int,
    upto: int,
)
    requires
        0 <= k < upto <= p.len(),
        q.len() == p.len(),
        forall|j: int| 0 <= j < p.len() && j != k ==> q[j] == p[j],
        digest_after(leaf, p, k) == digest_after(leaf, q, k),
        climb_input(digest_after(leaf, p, k), p[k].0, p[k].1) != climb_input(
            digest_after(leaf, p, k),
            q[k].0,
            q[k].1,
        ),
        forall|j: int| k <= j < p.len() ==> step_told_apart(leaf, p, q, j),
    ensures
        digest_after(leaf, p, upto) != digest_after(leaf, q, upto),
    decreases upto,
{
    let j = upto - 1;
    lemma_digest_after_next(leaf, p, j);
    lemma_digest_after_next(leaf, q, j);
    assert(step_told_apart(leaf, p, q, j));
    if j > k {
        lemma_digests_stay_apart(leaf, p, q, k, j);
        lemma_pair_encoding_injective(digest_after(leaf, p, j), digest_after(leaf, q, j), p[j].0);
    }
}

/// Replacing the sibling digest of one step of a path changes the digest the
/// path leads to, unless the digest function maps two different inputs met
/// on the way to one digest.
pub proof fn lemma_replaced_sibling_rejected(
    leaf: Seq<u8>,
    p: Seq<(Seq<u8>, MerkleSide)>,
    k: int,
    sibling: Seq<u8>,
)
    requires
        0 <= k < p.len(),
        sibling != p[k].0,
        forall|j: int| k <= j < p.len() ==> step_told_apart(leaf, p, p.update(k, (sibling, p[k].1)), j),
    ensures
        fold_path(leaf, p.update(k, (sibling, p[k].1))) != fold_path(leaf, p),
{
    let q = p.update(k, (sibling, p[k].1));
    lemma_pair_encoding_injective(p[k].0, sibling, digest_after(leaf, p, k));
    lemma_tampered_path_leads_elsewhere(leaf, p, q, k);
}

/// Swapping the side of one step of a path changes the digest the path leads
/// to, unless joining the sibling and the running digest in either order
/// gives the same bytes, or the digest function maps two different inputs met
/// on the way to one digest.
pub proof fn lemma_swapped_side_rejected(leaf: Seq<u8>, p: Seq<(Seq<u8>, MerkleSide)>, k: int)
    requires
        0 <= k < p.len(),
        pair_encoding(p[k].0, digest_after(leaf, p, k)) != pair_encoding(
            digest_after(leaf, p, k),
            p[k].0,
        ),
        forall|j: int|
            k <= j < p.len() ==> step_told_apart(leaf, p, p.update(k, (p[k].0, opposite(p[k].1))), j),
    ensures
        fold_path(leaf, p.update(k, (p[k].0, opposite(p[k].1)))) != fold_path(leaf, p),
{
    let q = p.update(k, (p[k].0, opposite(p[k].1)));
    lemma_tampered_path_leads_elsewhere(leaf, p, q, k);
}

} // verus!
