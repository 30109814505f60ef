//! Laws of the Merkle path: it folds back into the root, its length is the
//! height of the tree, and it is a function of the leaves and the index.

use crate::merkle::{
    apply_step, fold_path, is_ceil_log2, merkle_path, merkle_root_of, node_hash, parent_level,
    sibling,
};
use vstd::arithmetic::power2::{lemma_pow2_unfold, pow2};
use vstd::prelude::*;

verus! {

/// One path entry takes a node to its parent on the level above.
proof fn lemma_step_reaches_parent(level: Seq<Seq<u8>>, pos: int)
    requires
        0 <= pos < level.len(),
    ensures
        apply_step(level[pos], sibling(level, pos)) == parent_level(level)[pos / 2],
{
}

/// For every non-empty sequence of leaves and every index among them, the
/// authentication path of that leaf folds back into the Merkle root.
pub proof fn lemma_round_trip(leaves: Seq<Seq<u8>>, index: int)
    requires
        0 <= index < leaves.len(),
    ensures
        fold_path(leaves[index], merkle_path(leaves, index)) == merkle_root_of(leaves),
    decreases leaves.len(),
{
    if leaves.len() > 1 {
        let up = parent_level(leaves);
        lemma_step_reaches_parent(leaves, index);
        lemma_round_trip(up, index / 2);
        let p = merkle_path(leaves, index);
        assert(p.drop_first() =~= merkle_path(up, index / 2));
    }
}

/// For n leaves, every authentication path has ceil(log2(n)) entries, which
/// is zero for a single leaf.
pub proof fn lemma_path_length(leaves: Seq<Seq<u8>>, index: int)
    requires
        leaves.len() >= 1,
    ensures
        is_ceil_log2(leaves.len(), merkle_path(leaves, index).len()),
    decreases leaves.len(),
{
    if leaves.len() > 1 {
        let up = parent_level(leaves);
        lemma_path_length(up, index / 2);
        let k = merkle_path(up, index / 2).len();
        assert(merkle_path(leaves, index).len() == k + 1);
        lemma_pow2_unfold(k + 1);
        if k > 0 {
            lemma_pow2_unfold(k);
        } else {
            assert(pow2(0) == 1) by {
                reveal(vstd::arithmetic::power::pow);
            }
        }
    } else {
        assert(pow2(0) == 1) by {
            reveal(vstd::arithmetic::power::pow);
        }
    }
}

/// A block of one leaf has an empty path, and that leaf is its own root.
pub proof fn lemma_single_leaf(leaves: Seq<Seq<u8>>)
    requires
        leaves.len() == 1,
    ensures
        merkle_path(leaves, 0) == Seq::<(bool, Seq<u8>)>::empty(),
        merkle_root_of(leaves) == leaves[0],
        fold_path(leaves[0], merkle_path(leaves, 0)) == leaves[0],
{
}

/// On a level with an odd number of hashes the last one is paired with
/// itself; when the level is not yet the root, the path of that last hash
/// starts with the hash itself as the following sibling, and it still folds
/// back into the root.
pub proof fn lemma_odd_level_duplicates_last(level: Seq<Seq<u8>>)
    requires
        level.len() % 2 == 1,
    ensures
        parent_level(level).last() == node_hash(level.last(), level.last()),
        level.len() > 1 ==> merkle_path(level, level.len() - 1)[0] == (false, level.last()),
        fold_path(level.last(), merkle_path(level, level.len() - 1)) == merkle_root_of(level),
{
    lemma_round_trip(level, level.len() - 1);
}

/// The path is a function of the leaves and the index: the same inputs give
/// the same entries, in the same order.
pub proof fn lemma_path_deterministic(
    leaves_a: Seq<Seq<u8>>,
    leaves_b: Seq<Seq<u8>>,
    index_a: int,
    index_b: int,
)
    requires
        leaves_a == leaves_b,
        index_a == index_b,
    ensures
        merkle_path(leaves_a, index_a) == merkle_path(leaves_b, index_b),
{
}

} // verus!
