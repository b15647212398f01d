//! Building a Merkle tree over an ordered collection, and proofs from it.
//!
//! The leaves of the tree are the digests of the encoded items of the
//! collection. Every further layer joins the nodes of the layer below two by
//! two; a node left without a partner at the end of a layer of odd length is
//! joined with itself. The layers are stored one after the other, leaves
//! first, so that one position names one node; the last node is the root.

use vstd::prelude::*;
use crate::hashing::{blake2_256, hash_bytes, hash_pair, Hash256};
use crate::merkle::{climb, fold_path, path_view, MerkleSide};

verus! {

/// The position of a sibling in a tree stored layer by layer, counted from
/// one, and the side on which the sibling is joined.
#[derive(Clone, Copy, Debug, PartialEq, Eq, Structural)]
pub struct IndexItem {
    /// Position of the sibling, counted from one.
    pub index: usize,
    /// Side on which the sibling is joined.
    pub side: MerkleSide,
}

/// The positions and sides held by a sequence of items.
pub open spec fn positions_of(items: Seq<IndexItem>) -> Seq<(nat, MerkleSide)> {
    Seq::new(items.len(), |k: int| (items[k].index as nat, items[k].side))
}

/// The digests held by a sequence of nodes.
pub open spec fn digests(nodes: Seq<Hash256>) -> Seq<Seq<u8>> {
    Seq::new(nodes.len(), |i: int| nodes[i]@)
}

/// The encodings held by a collection of encoded items.
pub open spec fn payloads(collection: Seq<Vec<u8>>) -> Seq<Seq<u8>> {
    Seq::new(collection.len(), |i: int| collection[i]@)
}

/// The bottom layer of the tree: the digest of every item, in order.
pub open spec fn leaf_hashes(collection: Seq<Seq<u8>>) -> Seq<Seq<u8>> {
    Seq::new(collection.len(), |i: int| blake2_256(collection[i]))
}

/// Half of `n`, rounded up: the length of the layer above a layer of `n`
/// nodes, and the place in it of the parent of the node at place `n`, places
/// counted from one.
pub open spec fn half_up(n: nat) -> nat {
    (n + 1) / 2
}

/// The layer above `layer`.
pub open spec fn parent_layer(layer: Seq<Seq<u8>>) -> Seq<Seq<u8>> {
    Seq::new(
        half_up(layer.len()),
        |j: int|
            hash_pair(
                layer[2 * j],
                if 2 * j + 1 < layer.len() {
                    layer[2 * j + 1]
                } else {
                    layer[2 * j]
                },
            ),
    )
}

/// `layer` followed by every layer above it, up to the root.
pub open spec fn tree_above(layer: Seq<Seq<u8>>) -> Seq<Seq<u8>>
    decreases layer.len(),
{
    if layer.len() <= 1 {
        layer
    } else {
        layer + tree_above(parent_layer(layer))
    }
}

/// The root of the tree whose bottom layer is `layer`.
pub open spec fn root_above(layer: Seq<Seq<u8>>) -> Seq<u8>
    decreases layer.len(),
{
    if layer.len() <= 1 {
        layer[0]
    } else {
        root_above(parent_layer(layer))
    }
}

/// The number of nodes of a tree over `len` leaves.
pub open spec fn tree_size(len: nat) -> nat
    decreases len,
{
    if len <= 1 {
        len
    } else {
        len + tree_size(half_up(len))
    }
}

/// All nodes of the tree over `collection`, layer by layer from the leaves.
pub open spec fn merkle_tree(collection: Seq<Seq<u8>>) -> Seq<Seq<u8>> {
    tree_above(leaf_hashes(collection))
}

/// The commitment to `collection`: the root of its tree.
pub open spec fn merkle_root(collection: Seq<Seq<u8>>) -> Seq<u8> {
    root_above(leaf_hashes(collection))
}

/// The sibling of the node at place `idx` of `layer`, places counted from
/// one, and the side on which it is joined.
pub open spec fn sibling_in(layer: Seq<Seq<u8>>, idx: nat) -> (Seq<u8>, MerkleSide) {
    if idx % 2 == 1 && idx == layer.len() {
        (layer[idx - 1], MerkleSide::Left)
    } else if idx % 2 == 1 {
        (layer[idx as int], MerkleSide::Right)
    } else {
        (layer[idx - 2], MerkleSide::Left)
    }
}

/// The proof for the node at place `idx` of `layer`, places counted from one.
pub open spec fn path_above(layer: Seq<Seq<u8>>, idx: nat) -> Seq<(Seq<u8>, MerkleSide)>
    decreases layer.len(),
{
    if layer.len() <= 1 {
        Seq::empty()
    } else {
        seq![sibling_in(layer, idx)] + path_above(parent_layer(layer), half_up(idx))
    }
}

/// The proof that the item at place `leaf` of `collection`, places counted
/// from one, belongs to it.
pub open spec fn merkle_path(collection: Seq<Seq<u8>>, leaf: nat) -> Seq<(Seq<u8>, MerkleSide)> {
    path_above(leaf_hashes(collection), leaf)
}

/// The position, counted from one, of the sibling of the node at place `idx`
/// of a layer of `len` nodes that starts after `offset` nodes of the tree,
/// and the side on which that sibling is joined.
pub open spec fn sibling_position(len: nat, idx: nat, offset: nat) -> (nat, MerkleSide) {
    if idx % 2 == 1 && idx == len {
        (offset + idx, MerkleSide::Left)
    } else if idx % 2 == 1 {
        (offset + idx + 1, MerkleSide::Right)
    } else {
        ((offset + idx - 1) as nat, MerkleSide::Left)
    }
}

/// The positions of the siblings met on the way from the node at place `idx`
/// of a layer of `len` nodes to the root, where the layer starts after
/// `offset` nodes of the tree.
pub open spec fn index_path(len: nat, idx: nat, offset: nat) -> Seq<(nat, MerkleSide)>
    decreases len,
{
    if len <= 1 {
        Seq::empty()
    } else {
        seq![sibling_position(len, idx, offset)] + index_path(
            half_up(len),
            half_up(idx),
            offset + len,
        )
    }
}

/// The steps of a proof read off `tree` at the given positions.
pub open spec fn read_path(tree: Seq<Seq<u8>>, positions: Seq<(nat, MerkleSide)>) -> Seq<
    (Seq<u8>, MerkleSide),
> {
    Seq::new(positions.len(), |k: int| (tree[positions[k].0 - 1], positions[k].1))
}

/// A tree has as many nodes as [`tree_size`] counts.
pub proof fn lemma_tree_above_len(layer: Seq<Seq<u8>>)
    ensures
        tree_above(layer).len() == tree_size(layer.len()),
    decreases layer.len(),
{
    if layer.len() > 1 {
        lemma_tree_above_len(parent_layer(layer));
    }
}

/// A tree over `len` leaves has at least `len` and at most `3 * len` nodes.
pub proof fn lemma_tree_size_bounds(len: nat)
    ensures
        len <= tree_size(len) <= 3 * len,
        len >= 1 ==> tree_size(len) >= 1,
        len >= 2 ==> tree_size(len) + 2 <= 3 * len,
    decreases len,
{
    if len > 1 {
        lemma_tree_size_bounds(half_up(len));
        if len == 2 {
            assert(half_up(2) == 1);
            assert(tree_size(1) == 1);
        } else if len == 3 {
            assert(half_up(3) == 2);
            assert(half_up(2) == 1);
            assert(tree_size(1) == 1);
            assert(tree_size(2) == 3);
        }
    }
}

/// The last node of a tree is its root.
pub proof fn lemma_root_is_last(layer: Seq<Seq<u8>>)
    requires
        layer.len() >= 1,
    ensures
        tree_above(layer).len() >= 1,
        tree_above(layer).last() == root_above(layer),
    decreases layer.len(),
{
    if layer.len() > 1 {
        lemma_root_is_last(parent_layer(layer));
    }
}

/// Climbing from a node with its sibling reaches its parent.
pub proof fn lemma_climb_reaches_parent(layer: Seq<Seq<u8>>, idx: nat)
    requires
        1 <= idx <= layer.len(),
        layer.len() >= 2,
    ensures
        1 <= half_up(idx) <= half_up(layer.len()),
        climb(layer[idx - 1], sibling_in(layer, idx).0, sibling_in(layer, idx).1) == parent_layer(
            layer,
        )[half_up(idx) - 1],
{
}

/// A proof built for a node of a layer leads from that node to the root.
pub proof fn lemma_path_above_reaches_root(layer: Seq<Seq<u8>>, idx: nat)
    requires
        1 <= idx <= layer.len(),
    ensures
        fold_path(layer[idx - 1], path_above(layer, idx)) == root_above(layer),
    decreases layer.len(),
{
    if layer.len() > 1 {
        let step = sibling_in(layer, idx);
        let rest = path_above(parent_layer(layer), half_up(idx));
        let path = path_above(layer, idx);
        assert(path[0] == step);
        assert(path.drop_first() =~= rest);
        lemma_climb_reaches_parent(layer, idx);
        lemma_path_above_reaches_root(parent_layer(layer), half_up(idx));
    }
}

/// The positions computed for a node name, in a tree stored layer by layer,
/// the siblings of its proof.
pub proof fn lemma_index_path_locates_siblings(
    tree: Seq<Seq<u8>>,
    layer: Seq<Seq<u8>>,
    idx: nat,
    offset: nat,
)
    requires
        1 <= idx <= layer.len(),
        offset + tree_above(layer).len() <= tree.len(),
        tree.subrange(offset as int, (offset + tree_above(layer).len()) as int) == tree_above(layer),
    ensures
        read_path(tree, index_path(layer.len(), idx, offset)) == path_above(layer, idx),
        forall|k: int|
            0 <= k < index_path(layer.len(), idx, offset).len() ==> 1 <= (#[trigger] index_path(
                layer.len(),
                idx,
                offset,
            )[k]).0 <= offset + tree_above(layer).len(),
    decreases layer.len(),
{
    let len = layer.len();
    if len > 1 {
        let above = parent_layer(layer);
        let sub = tree.subrange(offset as int, (offset + tree_above(layer).len()) as int);
        lemma_tree_above_len(above);
        lemma_tree_size_bounds(above.len());
        assert forall|j: int| 0 <= j < tree_above(layer).len() implies tree[offset + j]
            == tree_above(layer)[j] by {
            assert(sub[j] == tree[offset + j]);
        }
        assert(tree.subrange((offset + len) as int, (offset + len + tree_above(above).len()) as int) =~= tree_above(
            above,
        )) by {
            assert forall|j: int| 0 <= j < tree_above(above).len() implies tree[offset + len + j]
                == tree_above(above)[j] by {
                assert(tree_above(layer)[len + j] == tree_above(above)[j]);
            }
        }
        lemma_index_path_locates_siblings(tree, above, half_up(idx), offset + len);
        let positions = index_path(len, idx, offset);
        let rest_positions = index_path(half_up(len), half_up(idx), offset + len);
        let first = sibling_position(len, idx, offset);
        assert(positions == seq![first] + rest_positions);
        assert forall|k: int| 0 <= k < positions.len() implies 1 <= (#[trigger] positions[k]).0
            <= offset + tree_above(layer).len() by {
            if k > 0 {
                assert(positions[k] == rest_positions[k - 1]);
            }
        }
        let expected = path_above(layer, idx);
        let rest_expected = path_above(above, half_up(idx));
        assert(expected == seq![sibling_in(layer, idx)] + rest_expected);
        assert(read_path(tree, rest_positions) == rest_expected);
        assert(read_path(tree, positions) =~= expected) by {
            assert(read_path(tree, positions).len() == expected.len());
            assert forall|k: int| 0 <= k < positions.len() implies read_path(tree, positions)[k]
                == expected[k] by {
                if k == 0 {
                    assert(tree_above(layer)[first.0 - 1 - offset] == layer[first.0 - 1 - offset]);
                } else {
                    assert(positions[k] == rest_positions[k - 1]);
                    assert(read_path(tree, rest_positions)[k - 1] == rest_expected[k - 1]);
                }
            }
        }
    } else {
        assert(read_path(tree, index_path(len, idx, offset)) =~= path_above(layer, idx));
    }
}

/// Round trip: the proof built for an item of a collection leads from the
/// digest of that item to the commitment to the collection. Places are
/// counted from one.
pub proof fn lemma_built_proof_verifies(collection: Seq<Seq<u8>>, leaf: nat)
    requires
        1 <= leaf <= collection.len(),
    ensures
        fold_path(blake2_256(collection[leaf - 1]), merkle_path(collection, leaf)) == merkle_root(
            collection,
        ),
{
    lemma_path_above_reaches_root(leaf_hashes(collection), leaf);
}

/// Half of `n`, rounded up.
fn half_up_of(n: usize) -> (half: usize)
    ensures
        half == half_up(n as nat),
{
    n / 2 + n % 2
}

/// The positions of the siblings needed to prove that the leaf at place
/// `index`, counted from one, belongs to a tree over `len` leaves, with the
/// side of each, from the leaf layer up.
pub fn index_path_helper(len: usize, index: usize) -> (path: Vec<IndexItem>)
    requires
        0 < index <= len,
        tree_size(len as nat) <= usize::MAX,
    ensures
        positions_of(path@) == index_path(len as nat, index as nat, 0),
{
    let mut idx = index;
    let mut path: Vec<IndexItem> = Vec::new();
    let mut prev_len: usize = 0;
    let mut el = len;
    assert(positions_of(path@) =~= Seq::empty());
    while el != 1
        invariant
            0 < idx <= el,
            prev_len + tree_size(el as nat) <= usize::MAX,
            index_path(len as nat, index as nat, 0) == positions_of(path@) + index_path(
                el as nat,
                idx as nat,
                prev_len as nat,
            ),
        decreases el,
    {
        proof {
            lemma_tree_size_bounds(half_up(el as nat));
        }
        let ghost before = positions_of(path@);
        let item = if idx % 2 == 1 && idx == el {
            IndexItem { index: prev_len + idx, side: MerkleSide::Left }
        } else if idx % 2 == 1 {
            IndexItem { index: prev_len + idx + 1, side: MerkleSide::Right }
        } else {
            IndexItem { index: prev_len + idx - 1, side: MerkleSide::Left }
        };
        path.push(item);
        proof {
            let step = sibling_position(el as nat, idx as nat, prev_len as nat);
            let rest = index_path(
                half_up(el as nat),
                half_up(idx as nat),
                (prev_len + el) as nat,
            );
            assert(positions_of(path@) =~= before.push(step));
            assert(before + (seq![step] + rest) =~= before.push(step) + rest);
        }
        prev_len += el;
        idx = half_up_of(idx);
        el = half_up_of(el);
    }
    path
}

/// The digests of the items of `collection`, in order.
fn hash_leaves(collection: &[Vec<u8>]) -> (leaves: Vec<Hash256>)
    ensures
        digests(leaves@) == leaf_hashes(payloads(collection@)),
{
    let mut leaves: Vec<Hash256> = Vec::new();
    let mut k: usize = 0;
    while k < collection.len()
        invariant
            k <= collection.len(),
            leaves.len() == k,
            forall|i: int| 0 <= i < k ==> (#[trigger] leaves[i])@ == blake2_256(collection[i]@),
        decreases collection.len() - k,
    {
        let leaf = hash_bytes(collection[k].as_slice());
        leaves.push(leaf);
        k += 1;
    }
    assert(digests(leaves@) =~= leaf_hashes(payloads(collection@)));
    leaves
}

/// Appends to `nodes` the layer above its last `nodes.len() - start` nodes.
fn push_parent_layer(nodes: &mut Vec<Hash256>, start: usize)
    requires
        start < old(nodes).len(),
    ensures
        digests(final(nodes)@) == digests(old(nodes)@) + parent_layer(
            digests(old(nodes)@).skip(start as int),
        ),
{
    let last_len = nodes.len();
    let max_len = (last_len - start) / 2;
    let rem = (last_len - start) % 2;
    let ghost below = digests(nodes@);
    let ghost top = below.skip(start as int);
    let mut i: usize = 0;
    assert(digests(nodes@) =~= below + parent_layer(top).take(0));
    while i < max_len
        invariant
            i <= max_len,
            start + 2 * max_len + rem == last_len,
            nodes.len() == last_len + i,
            below.len() == last_len,
            top == below.skip(start as int),
            digests(nodes@) == below + parent_layer(top).take(i as int),
        decreases max_len - i,
    {
        let ghost before = digests(nodes@);
        let left = nodes[start + 2 * i];
        let right = nodes[start + 2 * i + 1];
        proof {
            assert(before[start + 2 * i] == below[start + 2 * i]);
            assert(before[start + 2 * i + 1] == below[start + 2 * i + 1]);
            assert(top[2 * i] == below[start + 2 * i]);
            assert(top[2 * i + 1] == below[start + 2 * i + 1]);
        }
        let parent = Hash256::join(&left, &right);
        nodes.push(parent);
        proof {
            assert(parent@ == parent_layer(top)[i as int]);
            assert(digests(nodes@) =~= before.push(parent@));
            assert(parent_layer(top).take(i + 1) =~= parent_layer(top).take(i as int).push(
                parent@,
            ));
            assert(before.push(parent@) =~= below + parent_layer(top).take(i + 1));
        }
        i += 1;
    }
    if rem == 1 {
        let ghost before = digests(nodes@);
        let lone = nodes[last_len - 1];
        proof {
            assert(before[last_len - 1] == below[last_len - 1]);
            assert(top[2 * max_len] == below[last_len - 1]);
        }
        let parent = Hash256::join(&lone, &lone);
        nodes.push(parent);
        proof {
            assert(parent@ == parent_layer(top)[max_len as int]);
            assert(digests(nodes@) =~= before.push(parent@));
            assert(parent_layer(top) =~= parent_layer(top).take(max_len as int).push(parent@));
        }
    } else {
        assert(parent_layer(top) =~= parent_layer(top).take(max_len as int));
    }
}

/// Builds the Merkle tree over `collection`, whose items are given by their
/// encodings. The nodes are returned layer by layer, leaves first; the last
/// node is the root, the commitment to the collection.
pub fn generate_merkle_root_helper(collection: &[Vec<u8>]) -> (tree: Vec<Hash256>)
    requires
        collection.len() > 0,
    ensures
        digests(tree@) == merkle_tree(payloads(collection@)),
        tree.len() == tree_size(collection.len() as nat),
        tree.len() > 0,
        tree@.last()@ == merkle_root(payloads(collection@)),
{
    let mut out = hash_leaves(collection);
    let ghost leaves = leaf_hashes(payloads(collection@));
    let mut start: usize = 0;
    assert(digests(out@).skip(0) =~= leaves);
    assert(digests(out@).take(0) + tree_above(leaves) =~= tree_above(leaves));
    while out.len() - start != 1
        invariant
            start < out.len(),
            leaves == leaf_hashes(payloads(collection@)),
            tree_above(leaves) == digests(out@).take(start as int) + tree_above(
                digests(out@).skip(start as int),
            ),
        decreases out.len() - start,
    {
        let ghost below = digests(out@);
        let ghost top = below.skip(start as int);
        let last_len = out.len();
        push_parent_layer(&mut out, start);
        proof {
            let grown = digests(out@);
            assert(grown.take(last_len as int) =~= below);
            assert(grown.skip(last_len as int) =~= parent_layer(top));
            assert(below =~= below.take(start as int) + top);
            assert(below.take(start as int) + (top + tree_above(parent_layer(top))) =~= below
                + tree_above(parent_layer(top)));
        }
        start = last_len;
    }
    proof {
        let top = digests(out@).skip(start as int);
        assert(tree_above(top) == top);
        assert(digests(out@).take(start as int) + top =~= digests(out@));
        lemma_tree_above_len(leaves);
        lemma_root_is_last(leaves);
        assert(digests(out@).last() == out@.last()@);
    }
    out
}

/// Builds the proof that the item at `index_for_proof` of `collection`,
/// counted from zero, belongs to it. The items are given by their encodings.
pub fn build_merkle_path_helper(collection: &[Vec<u8>], index_for_proof: usize) -> (path: Vec<
    (Hash256, MerkleSide),
>)
    requires
        index_for_proof < collection.len(),
    ensures
        path_view(path@) == merkle_path(payloads(collection@), (index_for_proof + 1) as nat),
        fold_path(blake2_256(collection[index_for_proof as int]@), path_view(path@)) == merkle_root(
            payloads(collection@),
        ),
{
    proof {
        lemma_built_proof_verifies(payloads(collection@), (index_for_proof + 1) as nat);
    }
    let merkle_tree = generate_merkle_root_helper(collection);
    let index_path = index_path_helper(collection.len(), index_for_proof + 1);
    let ghost leaves = leaf_hashes(payloads(collection@));
    let ghost tree = digests(merkle_tree@);
    let ghost positions = positions_of(index_path@);
    let ghost expected = merkle_path(payloads(collection@), (index_for_proof + 1) as nat);
    proof {
        lemma_tree_above_len(leaves);
        assert(tree.subrange(0, tree.len() as int) =~= tree);
        lemma_index_path_locates_siblings(tree, leaves, (index_for_proof + 1) as nat, 0);
        assert(read_path(tree, positions).len() == expected.len());
    }
    let mut path: Vec<(Hash256, MerkleSide)> = Vec::new();
    let mut k: usize = 0;
    while k < index_path.len()
        invariant
            k <= index_path.len(),
            path.len() == k,
            tree == digests(merkle_tree@),
            positions == positions_of(index_path@),
            read_path(tree, positions) == expected,
            forall|j: int| 0 <= j < positions.len() ==> 1 <= (#[trigger] positions[j]).0 <= tree.len(),
            forall|j: int| 0 <= j < k ==> path_view(path@)[j] == expected[j],
        decreases index_path.len() - k,
    {
        let item = index_path[k];
        proof {
            assert(positions[k as int] == (item.index as nat, item.side));
            assert(read_path(tree, positions)[k as int] == expected[k as int]);
        }
        let ghost before = path_view(path@);
        let sibling = merkle_tree[item.index - 1];
        path.push((sibling, item.side));
        proof {
            assert(path_view(path@) =~= before.push((sibling@, item.side)));
        }
        k += 1;
    }
    assert(path_view(path@) =~= expected);
    path
}

} // verus!
