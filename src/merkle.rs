//! Bitcoin's binary Merkle tree over 32-byte hashes, the authentication path
//! of one leaf, and the root that a path folds back into.

use crate::primitives::{sha256d, sha256d_of};
use crate::theorems::lemma_path_length;
use vstd::arithmetic::power2::pow2;
use vstd::prelude::*;

verus! {

/// The parent of two nodes: the double SHA-256 of the left bytes followed by
/// the right bytes.
pub open spec fn node_hash(left: Seq<u8>, right: Seq<u8>) -> Seq<u8> {
    sha256d_of(left + right)
}

/// The level above `level`: consecutive pairs are hashed together, and a lone
/// last hash is paired with itself.
pub open spec fn parent_level(level: Seq<Seq<u8>>) -> Seq<Seq<u8>> {
    Seq::new(
        ((level.len() + 1) / 2) as nat,
        |j: int|
            if 2 * j + 1 < level.len() {
                node_hash(level[2 * j], level[2 * j + 1])
            } else {
                node_hash(level[2 * j], level[2 * j])
            },
    )
}

/// The Merkle root of a non-empty sequence of leaves.
pub open spec fn merkle_root_of(level: Seq<Seq<u8>>) -> Seq<u8>
    decreases level.len(),
{
    if level.len() <= 1 {
        level[0]
    } else {
        merkle_root_of(parent_level(level))
    }
}

/// The entry of the authentication path at `level` for the node at `pos`:
/// whether the sibling comes before it, and the sibling's hash. The lone last
/// node of an odd level is its own sibling.
pub open spec fn sibling(level: Seq<Seq<u8>>, pos: int) -> (bool, Seq<u8>) {
    if pos % 2 == 0 {
        if pos + 1 < level.len() {
            (false, level[pos + 1])
        } else {
            (false, level[pos])
        }
    } else {
        (true, level[pos - 1])
    }
}

/// The authentication path of the leaf at `pos`, from the leaf up to the root.
pub open spec fn merkle_path(level: Seq<Seq<u8>>, pos: int) -> Seq<(bool, Seq<u8>)>
    decreases level.len(),
{
    if level.len() <= 1 {
        seq![]
    } else {
        seq![sibling(level, pos)] + merkle_path(parent_level(level), pos / 2)
    }
}

/// The node one level up from `node`, given its path entry.
pub open spec fn apply_step(node: Seq<u8>, step: (bool, Seq<u8>)) -> Seq<u8> {
    if step.0 {
        node_hash(step.1, node)
    } else {
        node_hash(node, step.1)
    }
}

/// The root that `path` implies for `leaf`: its entries applied in order.
pub open spec fn fold_path(leaf: Seq<u8>, path: Seq<(bool, Seq<u8>)>) -> Seq<u8>
    decreases path.len(),
{
    if path.len() == 0 {
        leaf
    } else {
        fold_path(apply_step(leaf, path[0]), path.drop_first())
    }
}

/// Whether `k` is the base-2 logarithm of `n`, rounded up.
pub open spec fn is_ceil_log2(n: nat, k: nat) -> bool {
    n <= pow2(k) && (k == 0 || pow2((k - 1) as nat) < n)
}

/// The hashes held by a vector of 32-byte arrays.
pub open spec fn hashes_view(v: Seq<[u8; 32]>) -> Seq<Seq<u8>> {
    v.map_values(|h: [u8; 32]| h@)
}

/// The path held by a vector of (sibling-is-before, sibling hash) entries.
pub open spec fn path_view(p: Seq<(bool, [u8; 32])>) -> Seq<(bool, Seq<u8>)> {
    p.map_values(|e: (bool, [u8; 32])| (e.0, e.1@))
}

/// Why no authentication path can be built.
#[derive(Clone, Copy, Debug, PartialEq, Eq, Structural)]
pub enum ProofError {
    /// The block holds no transaction.
    EmptyBlock,
    /// The tracked index is not that of a transaction of the block.
    IndexOutOfRange,
}

/// The hash of `left` and `right` as a tree node.
pub fn hash_pair(left: &[u8; 32], right: &[u8; 32]) -> (r: [u8; 32])
    ensures
        r@ == node_hash(left@, right@),
{
    let mut data: Vec<u8> = Vec::with_capacity(64);
    let mut i: usize = 0;
    while i < 32
        invariant
            i <= 32,
            data@ == left@.take(i as int),
        decreases 32 - i,
    {
        data.push(left[i]);
        i += 1;
    }
    let mut j: usize = 0;
    while j < 32
        invariant
            j <= 32,
            data@ == left@ + right@.take(j as int),
        decreases 32 - j,
    {
        data.push(right[j]);
        j += 1;
    }
    assert(left@.take(32) == left@);
    assert(right@.take(32) == right@);
    sha256d(data.as_slice())
}

/// The level above `level`, computed.
pub fn parent_hashes(level: &Vec<[u8; 32]>) -> (r: Vec<[u8; 32]>)
    ensures
        hashes_view(r@) == parent_level(hashes_view(level@)),
{
    let n = level.len();
    let half = n / 2 + n % 2;
    let ghost lv = hashes_view(level@);
    let mut out: Vec<[u8; 32]> = Vec::with_capacity(half);
    let mut j: usize = 0;
    while j < half
        invariant
            n == level.len(),
            half == (n + 1) / 2,
            lv == hashes_view(level@),
            j <= half,
            hashes_view(out@) == parent_level(lv).take(j as int),
        decreases half - j,
    {
        let k = 2 * j;
        let h = if k + 1 < n {
            hash_pair(&level[k], &level[k + 1])
        } else {
            hash_pair(&level[k], &level[k])
        };
        let ghost before = out@;
        out.push(h);
        assert(hashes_view(out@) =~= hashes_view(before).push(h@));
        assert(parent_level(lv).take(j + 1) =~= parent_level(lv).take(j as int).push(h@));
        j += 1;
    }
    assert(parent_level(lv).take(half as int) =~= parent_level(lv));
    out
}

/// The authentication path of the leaf at `track` among the leaves `ids`.
pub fn compute_path(ids: &Vec<[u8; 32]>, track: usize) -> (r: Result<Vec<(bool, [u8; 32])>, ProofError>)
    ensures
        ids.len() == 0 <==> r == Err::<Vec<(bool, [u8; 32])>, ProofError>(ProofError::EmptyBlock),
        (ids.len() > 0 && track >= ids.len()) <==> r == Err::<Vec<(bool, [u8; 32])>, ProofError>(ProofError::IndexOutOfRange),
        r is Ok <==> track < ids.len(),
        r matches Ok(p) ==> path_view(p@) == merkle_path(hashes_view(ids@), track as int),
        r matches Ok(p) ==> is_ceil_log2(ids.len() as nat, p.len() as nat),
{
    if ids.len() == 0 {
        return Err(ProofError::EmptyBlock);
    }
    if track >= ids.len() {
        return Err(ProofError::IndexOutOfRange);
    }
    let ghost leaves = hashes_view(ids@);
    let mut level: Vec<[u8; 32]> = Vec::with_capacity(ids.len());
    let mut i: usize = 0;
    while i < ids.len()
        invariant
            i <= ids.len(),
            level@ == ids@.take(i as int),
        decreases ids.len() - i,
    {
        level.push(ids[i]);
        i += 1;
    }
    assert(ids@.take(ids.len() as int) =~= ids@);
    let mut proof: Vec<(bool, [u8; 32])> = Vec::new();
    let mut pos: usize = track;
    while level.len() > 1
        invariant
            1 <= level.len(),
            pos < level.len(),
            merkle_path(leaves, track as int) == path_view(proof@) + merkle_path(hashes_view(level@), pos as int),
        decreases level.len(),
    {
        let ghost lv = hashes_view(level@);
        let ghost old_pos = pos as int;
        let step = if pos % 2 == 0 {
            if pos + 1 < level.len() {
                (false, level[pos + 1])
            } else {
                (false, level[pos])
            }
        } else {
            (true, level[pos - 1])
        };
        assert((step.0, step.1@) == sibling(lv, pos as int));
        let ghost before = proof@;
        proof.push(step);
        assert(path_view(proof@) =~= path_view(before).push((step.0, step.1@)));
        level = parent_hashes(&level);
        pos = pos / 2;
        assert(merkle_path(lv, old_pos) == seq![sibling(lv, old_pos)] + merkle_path(
            hashes_view(level@),
            pos as int,
        ));
        assert(path_view(proof@) + merkle_path(hashes_view(level@), pos as int) =~= path_view(
            before,
        ) + merkle_path(lv, old_pos));
    }
    assert(path_view(proof@) + merkle_path(hashes_view(level@), pos as int) =~= path_view(proof@));
    proof {
        lemma_path_length(leaves, track as int);
    }
    Ok(proof)
}

/// The root that `path` implies for `leaf`, computed.
pub fn root_from_path(leaf: &[u8; 32], path: &Vec<(bool, [u8; 32])>) -> (r: [u8; 32])
    ensures
        r@ == fold_path(leaf@, path_view(path@)),
{
    let ghost pv = path_view(path@);
    let mut acc: [u8; 32] = *leaf;
    let mut i: usize = 0;
    assert(pv.skip(0) =~= pv);
    while i < path.len()
        invariant
            i <= path.len(),
            pv == path_view(path@),
            fold_path(leaf@, pv) == fold_path(acc@, pv.skip(i as int)),
        decreases path.len() - i,
    {
        let (before, h) = path[i];
        assert(pv.skip(i as int).drop_first() =~= pv.skip(i + 1));
        acc = if before {
            hash_pair(&h, &acc)
        } else {
            hash_pair(&acc, &h)
        };
        i += 1;
    }
    assert(pv.skip(path.len() as int) =~= Seq::<(bool, Seq<u8>)>::empty());
    acc
}

} // verus!
