//! Merkle trees over 32-byte leaves, and inclusion proofs.
use crate::external::keccak256_digest;
use vstd::prelude::*;

verus! {

/// The node above `left` and `right`.
pub open spec fn parent(left: crate::Hash, right: crate::Hash) -> crate::Hash {
    crate::Hash(crate::external::keccak256(left.0@ + right.0@))
}

/// The level above `level`: neighbours are combined in pairs, and a last node
/// without a neighbour is combined with itself.
pub open spec fn next_level(level: Seq<crate::Hash>) -> Seq<crate::Hash> {
    Seq::new(
        ((level.len() + 1) / 2) as nat,
        |i: int|
            parent(
                level[2 * i],
                if 2 * i + 1 < level.len() {
                    level[2 * i + 1]
                } else {
                    level[2 * i]
                },
            ),
    )
}

/// The root of the tree over `leaves`, of which there is at least one.
pub open spec fn tree_root(leaves: Seq<crate::Hash>) -> crate::Hash
    decreases leaves.len(),
{
    if leaves.len() <= 1 {
        leaves[0]
    } else {
        tree_root(next_level(leaves))
    }
}

/// Combines two nodes into their parent.
pub fn combine_hashes(left: &crate::Hash, right: &crate::Hash) -> (node: crate::Hash)
    ensures
        node == parent(*left, *right),
{
    let mut combined: Vec<u8> = Vec::new();
    combined.extend_from_slice(left.0.as_slice());
    combined.extend_from_slice(right.0.as_slice());
    assert(combined@ =~= left.0@ + right.0@);
    crate::Hash(keccak256_digest(combined.as_slice()))
}

/// Computes the level above `level`.
fn combine_level(level: &Vec<crate::Hash>) -> (above: Vec<crate::Hash>)
    requires
        level@.len() > 0,
    ensures
        above@ == next_level(level@),
{
    let pairs: usize = level.len() / 2 + level.len() % 2;
    let mut above: Vec<crate::Hash> = Vec::new();
    let mut i: usize = 0;
    while i < pairs
        invariant
            level@.len() <= usize::MAX,
            pairs == (level@.len() + 1) / 2,
            i <= pairs,
            above@ =~= next_level(level@).take(i as int),
        decreases pairs - i,
    {
        let left = level[2 * i];
        let right = if 2 * i < level.len() - 1 {
            level[2 * i + 1]
        } else {
            left
        };
        above.push(combine_hashes(&left, &right));
        i += 1;
    }
    assert(above@ =~= next_level(level@));
    above
}

/// Computes the root of the tree over `leaves`.
pub fn merkle_root(leaves: Vec<crate::Hash>) -> (root: crate::Hash)
    requires
        leaves@.len() > 0,
    ensures
        root == tree_root(leaves@),
{
    let mut level = leaves;
    while level.len() > 1
        invariant
            level@.len() > 0,
            tree_root(level@) == tree_root(leaves@),
        decreases level@.len(),
    {
        level = combine_level(&level);
    }
    level[0]
}

/// An inclusion proof: a leaf, its position, and the sibling at each level from
/// the leaves up.
pub struct MerkleProof {
    pub leaf_hash: crate::Hash,
    pub proof_hashes: Vec<crate::Hash>,
    pub leaf_index: usize,
}

/// The node reached from `current` by combining it with each hash of `path` in
/// turn. The bits of `index`, lowest first, say on which side: 0 puts the
/// running node on the left.
pub open spec fn climb(current: crate::Hash, path: Seq<crate::Hash>, index: nat) -> crate::Hash
    decreases path.len(),
{
    if path.len() == 0 {
        current
    } else {
        let above = if index % 2 == 0 {
            parent(current, path[0])
        } else {
            parent(path[0], current)
        };
        climb(above, path.drop_first(), index / 2)
    }
}

impl MerkleProof {
    /// Whether the proof leads from its leaf to `root`.
    pub fn verify(&self, root: &crate::Hash) -> (valid: bool)
        requires
            self.proof_hashes@.len() <= usize::BITS,
        ensures
            valid == (climb(self.leaf_hash, self.proof_hashes@, self.leaf_index as nat) == *root),
    {
        let mut current = self.leaf_hash;
        let mut index: usize = self.leaf_index;
        let mut i: usize = 0;
        assert(self.proof_hashes@.skip(0) =~= self.proof_hashes@);
        while i < self.proof_hashes.len()
            invariant
                i <= self.proof_hashes@.len(),
                climb(current, self.proof_hashes@.skip(i as int), index as nat) == climb(
                    self.leaf_hash,
                    self.proof_hashes@,
                    self.leaf_index as nat,
                ),
            decreases self.proof_hashes@.len() - i,
        {
            let sibling = self.proof_hashes[i];
            assert(self.proof_hashes@.skip(i as int).drop_first() =~= self.proof_hashes@.skip(
                i + 1,
            ));
            current = if index % 2 == 0 {
                combine_hashes(&current, &sibling)
            } else {
                combine_hashes(&sibling, &current)
            };
            index = index / 2;
            i += 1;
        }
        current == *root
    }
}

/// The node that `level[i]` is combined with.
pub open spec fn sibling(level: Seq<crate::Hash>, i: int) -> crate::Hash {
    if i % 2 == 1 {
        level[i - 1]
    } else if i + 1 < level.len() {
        level[i + 1]
    } else {
        level[i]
    }
}

/// The siblings on the way from leaf `i` up to the root.
pub open spec fn sibling_path(leaves: Seq<crate::Hash>, i: int) -> Seq<crate::Hash>
    decreases leaves.len(),
{
    if leaves.len() <= 1 {
        Seq::empty()
    } else {
        seq![sibling(leaves, i)] + sibling_path(next_level(leaves), i / 2)
    }
}

/// Two different inputs of Keccak-256 that have the same digest.
pub open spec fn collide(a: Seq<u8>, b: Seq<u8>) -> bool {
    a != b && crate::external::keccak256(a) == crate::external::keccak256(b)
}

/// An input from each set, and the two collide.
pub open spec fn collision_between(inputs1: Set<Seq<u8>>, inputs2: Set<Seq<u8>>) -> bool {
    exists|a: Seq<u8>, b: Seq<u8>|
        inputs1.contains(a) && inputs2.contains(b) && #[trigger] collide(a, b)
}

/// What is hashed to get node `k` of the level above `level`.
pub open spec fn pair_bytes(level: Seq<crate::Hash>, k: int) -> Seq<u8> {
    level[2 * k].0@ + (if 2 * k + 1 < level.len() {
        level[2 * k + 1]
    } else {
        level[2 * k]
    }).0@
}

/// All that is hashed to get from leaves to their root.
pub open spec fn tree_inputs(leaves: Seq<crate::Hash>) -> Set<Seq<u8>>
    decreases leaves.len(),
{
    if leaves.len() <= 1 {
        Set::empty()
    } else {
        tree_inputs(next_level(leaves)).union(
            Set::new(
                |input: Seq<u8>|
                    exists|k: int|
                        0 <= k < next_level(leaves).len() && input == #[trigger] pair_bytes(
                            leaves,
                            k,
                        ),
            ),
        )
    }
}

/// All that is hashed to follow a path from `current`.
pub open spec fn path_inputs(
    current: crate::Hash,
    path: Seq<crate::Hash>,
    index: nat,
) -> Set<Seq<u8>>
    decreases path.len(),
{
    if path.len() == 0 {
        Set::empty()
    } else if index % 2 == 0 {
        path_inputs(parent(current, path[0]), path.drop_first(), index / 2).insert(
            current.0@ + path[0].0@,
        )
    } else {
        path_inputs(parent(path[0], current), path.drop_first(), index / 2).insert(
            path[0].0@ + current.0@,
        )
    }
}

/// Completeness: the siblings of a leaf lead from it to the root of the tree,
/// so a proof made of them is valid against that root.
pub proof fn law_sibling_path_leads_to_root(leaves: Seq<crate::Hash>, i: int)
    requires
        0 <= i < leaves.len(),
    ensures
        climb(leaves[i], sibling_path(leaves, i), i as nat) == tree_root(leaves),
    decreases leaves.len(),
{
    if leaves.len() > 1 {
        let above = next_level(leaves);
        let path = sibling_path(leaves, i);
        assert(path.drop_first() =~= sibling_path(above, i / 2));
        law_sibling_path_leads_to_root(above, i / 2);
    }
}

proof fn lemma_sibling_path_len(leaves: Seq<crate::Hash>, i: int, height: nat)
    requires
        0 <= i < leaves.len(),
        leaves.len() <= vstd::arithmetic::power2::pow2(height),
    ensures
        sibling_path(leaves, i).len() <= height,
    decreases leaves.len(),
{
    if leaves.len() > 1 {
        if height == 0 {
            vstd::arithmetic::power2::lemma2_to64();
        } else {
            vstd::arithmetic::power2::lemma_pow2_unfold(height);
            lemma_sibling_path_len(next_level(leaves), i / 2, (height - 1) as nat);
        }
    }
}

/// A tree whose leaves fit in memory has inclusion proofs that
/// `MerkleProof::verify` takes.
pub proof fn law_sibling_path_fits_index(leaves: Seq<crate::Hash>, i: int)
    requires
        0 <= i < leaves.len() <= usize::MAX,
    ensures
        sibling_path(leaves, i).len() <= usize::BITS,
{
    vstd::arithmetic::power2::lemma2_to64();
    lemma_sibling_path_len(leaves, i, usize::BITS as nat);
}

/// Of a position only as many bits count as the path has hashes: the higher
/// ones are ignored.
pub proof fn law_high_bits_of_index_are_ignored(
    leaf: crate::Hash,
    path: Seq<crate::Hash>,
    index: nat,
)
    ensures
        climb(leaf, path, index) == climb(
            leaf,
            path,
            index % vstd::arithmetic::power2::pow2(path.len()),
        ),
    decreases path.len(),
{
    vstd::arithmetic::power2::lemma_pow2_pos(path.len());
    if path.len() > 0 {
        let rest = path.drop_first();
        let half = vstd::arithmetic::power2::pow2(rest.len());
        vstd::arithmetic::power2::lemma_pow2_unfold(path.len());
        vstd::arithmetic::power2::lemma_pow2_pos(rest.len());
        vstd::arithmetic::div_mod::lemma_mod_breakdown(index as int, 2, half as int);
        let low = index % vstd::arithmetic::power2::pow2(path.len());
        assert(low == 2 * ((index / 2) % half) + index % 2);
        assert(low % 2 == index % 2 && low / 2 == (index / 2) % half);
        let above = if index % 2 == 0 {
            parent(leaf, path[0])
        } else {
            parent(path[0], leaf)
        };
        law_high_bits_of_index_are_ignored(above, rest, index / 2);
    }
}

/// Positions that agree in the bits that a path uses lead to the same node, so
/// a proof is valid for the one exactly when it is valid for the other.
pub proof fn law_indices_with_equal_low_bits_agree(
    leaf: crate::Hash,
    path: Seq<crate::Hash>,
    index1: nat,
    index2: nat,
)
    requires
        index1 % vstd::arithmetic::power2::pow2(path.len()) == index2
            % vstd::arithmetic::power2::pow2(path.len()),
    ensures
        climb(leaf, path, index1) == climb(leaf, path, index2),
{
    law_high_bits_of_index_are_ignored(leaf, path, index1);
    law_high_bits_of_index_are_ignored(leaf, path, index2);
}

/// Equal parents have equal children, or what was hashed for them collides.
proof fn lemma_parent_binds(
    left1: crate::Hash,
    right1: crate::Hash,
    left2: crate::Hash,
    right2: crate::Hash,
)
    requires
        parent(left1, right1) == parent(left2, right2),
    ensures
        left1 == left2 && right1 == right2 || collide(
            left1.0@ + right1.0@,
            left2.0@ + right2.0@,
        ),
{
    let a = left1.0@ + right1.0@;
    let b = left2.0@ + right2.0@;
    if a == b {
        assert(left1.0@ =~= a.take(32));
        assert(left2.0@ =~= b.take(32));
        assert(right1.0@ =~= a.skip(32));
        assert(right2.0@ =~= b.skip(32));
        crate::types::lemma_same_view(left1.0, left2.0);
        crate::types::lemma_same_view(right1.0, right2.0);
    }
}

/// A collision stays one where more is hashed.
pub proof fn lemma_collision_stays(
    inputs1: Set<Seq<u8>>,
    inputs2: Set<Seq<u8>>,
    more1: Set<Seq<u8>>,
    more2: Set<Seq<u8>>,
)
    requires
        collision_between(inputs1, inputs2),
        inputs1.subset_of(more1),
        inputs2.subset_of(more2),
    ensures
        collision_between(more1, more2),
{
    let (a, b) = choose|a: Seq<u8>, b: Seq<u8>|
        inputs1.contains(a) && inputs2.contains(b) && #[trigger] collide(a, b);
    assert(more1.contains(a) && more2.contains(b) && collide(a, b));
}

/// Soundness: a proof of the tree's height that leads to the root at position
/// `i` holds the leaf at `i` and its siblings, unless something that is hashed
/// to follow it collides under Keccak-256 with something that is hashed to
/// build the tree.
pub proof fn law_valid_proof_shows_leaf(
    leaves: Seq<crate::Hash>,
    i: int,
    leaf: crate::Hash,
    path: Seq<crate::Hash>,
)
    requires
        0 <= i < leaves.len(),
        path.len() == sibling_path(leaves, i).len(),
        climb(leaf, path, i as nat) == tree_root(leaves),
    ensures
        leaf == leaves[i] && path == sibling_path(leaves, i) || collision_between(
            path_inputs(leaf, path, i as nat),
            tree_inputs(leaves),
        ),
    decreases leaves.len(),
{
    if leaves.len() <= 1 {
        assert(path =~= sibling_path(leaves, i));
    } else {
        let above = next_level(leaves);
        let rest = path.drop_first();
        let (reached, left, right) = if i % 2 == 0 {
            (parent(leaf, path[0]), leaf, path[0])
        } else {
            (parent(path[0], leaf), path[0], leaf)
        };
        let (tree_left, tree_right) = if i % 2 == 0 {
            (leaves[i], sibling(leaves, i))
        } else {
            (sibling(leaves, i), leaves[i])
        };
        law_valid_proof_shows_leaf(above, i / 2, reached, rest);
        if reached == above[i / 2] && rest == sibling_path(above, i / 2) {
            lemma_parent_binds(left, right, tree_left, tree_right);
            if left == tree_left && right == tree_right {
                assert(path =~= seq![path[0]] + rest);
            } else {
                assert(pair_bytes(leaves, i / 2) == tree_left.0@ + tree_right.0@);
                assert(tree_inputs(leaves).contains(pair_bytes(leaves, i / 2)));
                assert(path_inputs(leaf, path, i as nat).contains(left.0@ + right.0@));
                assert(collide(left.0@ + right.0@, pair_bytes(leaves, i / 2)));
            }
        } else {
            lemma_collision_stays(
                path_inputs(reached, rest, (i / 2) as nat),
                tree_inputs(above),
                path_inputs(leaf, path, i as nat),
                tree_inputs(leaves),
            );
        }
    }
}

/// Binding: two trees with equally many leaves and the same root have the same
/// leaves, unless something that is hashed to build the one collides under
/// Keccak-256 with something that is hashed to build the other.
pub proof fn law_root_binds_leaves(leaves1: Seq<crate::Hash>, leaves2: Seq<crate::Hash>)
    requires
        leaves1.len() == leaves2.len() > 0,
        tree_root(leaves1) == tree_root(leaves2),
    ensures
        leaves1 == leaves2 || collision_between(tree_inputs(leaves1), tree_inputs(leaves2)),
    decreases leaves1.len(),
{
    if leaves1.len() == 1 {
        assert(leaves1 =~= leaves2);
    } else {
        let above1 = next_level(leaves1);
        let above2 = next_level(leaves2);
        law_root_binds_leaves(above1, above2);
        if above1 != above2 {
            lemma_collision_stays(
                tree_inputs(above1),
                tree_inputs(above2),
                tree_inputs(leaves1),
                tree_inputs(leaves2),
            );
        } else if !collision_between(tree_inputs(leaves1), tree_inputs(leaves2)) {
            assert forall|i: int| 0 <= i < leaves1.len() implies leaves1[i] == leaves2[i] by {
                let k = i / 2;
                assert(above1[k] == above2[k]);
                let right1 = if 2 * k + 1 < leaves1.len() {
                    leaves1[2 * k + 1]
                } else {
                    leaves1[2 * k]
                };
                let right2 = if 2 * k + 1 < leaves2.len() {
                    leaves2[2 * k + 1]
                } else {
                    leaves2[2 * k]
                };
                lemma_parent_binds(leaves1[2 * k], right1, leaves2[2 * k], right2);
                assert(tree_inputs(leaves1).contains(pair_bytes(leaves1, k)));
                assert(tree_inputs(leaves2).contains(pair_bytes(leaves2, k)));
                assert(!collide(pair_bytes(leaves1, k), pair_bytes(leaves2, k)));
            }
            assert(leaves1 =~= leaves2);
        }
    }
}

/// The count of leaves is not bound by the root: an odd tree of more than one
/// leaf has the root of the tree in which its last leaf stands twice.
pub proof fn law_last_leaf_counts_twice(leaves: Seq<crate::Hash>)
    requires
        leaves.len() > 1,
        leaves.len() % 2 == 1,
    ensures
        tree_root(leaves.push(leaves.last())) == tree_root(leaves),
{
    assert(next_level(leaves.push(leaves.last())) =~= next_level(leaves));
}

/// A parent is the digest of its children, the left one first.
pub proof fn law_parent_is_digest_of_children(left: crate::Hash, right: crate::Hash)
    ensures
        parent(left, right).0 == crate::external::keccak256(left.0@ + right.0@),
{
}

/// A single leaf is its own root.
pub proof fn law_single_leaf_is_root(leaf: crate::Hash)
    ensures
        tree_root(seq![leaf]) == leaf,
{
}

/// The root of a full tree is the parent of the roots of its halves.
pub proof fn law_root_of_halves(left: Seq<crate::Hash>, right: Seq<crate::Hash>, height: nat)
    requires
        left.len() == vstd::arithmetic::power2::pow2(height),
        right.len() == left.len(),
    ensures
        tree_root(left + right) == parent(tree_root(left), tree_root(right)),
    decreases height,
{
    let whole = left + right;
    vstd::arithmetic::power2::lemma_pow2_pos(height);
    if height == 0 {
        vstd::arithmetic::power2::lemma2_to64();
        let above = next_level(whole);
        assert(above =~= seq![parent(left[0], right[0])]);
        assert(tree_root(above) == parent(left[0], right[0]));
    } else {
        let below = (height - 1) as nat;
        vstd::arithmetic::power2::lemma_pow2_unfold(height);
        vstd::arithmetic::power2::lemma_pow2_pos(below);
        assert forall|i: int| 0 <= i < next_level(whole).len() implies #[trigger] next_level(
            whole,
        )[i] == (next_level(left) + next_level(right))[i] by {
            let half = next_level(left).len() as int;
            if i < half {
                assert(whole[2 * i] == left[2 * i] && whole[2 * i + 1] == left[2 * i + 1]);
            } else {
                let k = i - half;
                assert(whole[2 * i] == right[2 * k] && whole[2 * i + 1] == right[2 * k + 1]);
            }
        }
        assert(next_level(whole) =~= next_level(left) + next_level(right));
        law_root_of_halves(next_level(left), next_level(right), below);
    }
}

proof fn lemma_half_of_odd_multiple(n: int, h: int)
    requires
        n >= 0,
        h > 0,
        n % (4 * h) == 2 * h,
    ensures
        (n / 2) % (2 * h) == h,
{
    let q = n / (4 * h);
    vstd::arithmetic::div_mod::lemma_fundamental_div_mod(n, 4 * h);
    assert(n / 2 == q * (2 * h) + h) by (nonlinear_arith)
        requires
            n == (4 * h) * q + 2 * h,
    ;
    vstd::arithmetic::div_mod::lemma_fundamental_div_mod_converse(n / 2, 2 * h, q, h);
}

/// A tree that is not full has the root of the tree in which its last block is
/// repeated, where a block is as many leaves as the largest power of two that
/// divides their number. Repeating blocks fills the tree up.
pub proof fn law_last_block_counts_twice(leaves: Seq<crate::Hash>, height: nat)
    requires
        ({
            let block = vstd::arithmetic::power2::pow2(height);
            block < leaves.len() && leaves.len() % (2 * block) == block
        }),
    ensures
        tree_root(
            leaves + leaves.skip(leaves.len() - vstd::arithmetic::power2::pow2(height)),
        ) == tree_root(leaves),
    decreases height,
{
    let block = vstd::arithmetic::power2::pow2(height);
    let filled = leaves + leaves.skip(leaves.len() - block);
    vstd::arithmetic::power2::lemma_pow2_pos(height);
    if height == 0 {
        vstd::arithmetic::power2::lemma2_to64();
        assert(filled =~= leaves.push(leaves.last()));
        law_last_leaf_counts_twice(leaves);
    } else {
        let below = (height - 1) as nat;
        let half = vstd::arithmetic::power2::pow2(below);
        vstd::arithmetic::power2::lemma_pow2_unfold(height);
        vstd::arithmetic::power2::lemma_pow2_pos(below);
        lemma_half_of_odd_multiple(leaves.len() as int, half as int);
        vstd::arithmetic::div_mod::lemma_mod_breakdown(leaves.len() as int, 2, 2 * half as int);
        let above = next_level(leaves);
        let above_filled = above + above.skip(above.len() - half);
        assert(leaves.len() % 2 == 0);
        assert(above.len() == leaves.len() / 2);
        assert forall|i: int| 0 <= i < above_filled.len() implies #[trigger] next_level(filled)[i]
            == above_filled[i] by {
            if i < above.len() {
                assert(filled[2 * i] == leaves[2 * i] && filled[2 * i + 1] == leaves[2 * i + 1]);
            } else {
                let k = i - half;
                assert(above_filled[i] == above[k]);
                assert(filled[2 * i] == leaves[2 * k] && filled[2 * i + 1] == leaves[2 * k + 1]);
            }
        }
        assert(next_level(filled) =~= above_filled);
        law_last_block_counts_twice(above, below);
    }
}

/// The last hash of a path is combined with what the hashes before it lead to;
/// the bit of the position that stands for it says on which side. A path
/// without hashes leads nowhere else.
pub proof fn law_climb_takes_last_step(
    leaf: crate::Hash,
    path: Seq<crate::Hash>,
    last: crate::Hash,
    index: nat,
)
    ensures
        climb(leaf, Seq::empty(), index) == leaf,
        (index / vstd::arithmetic::power2::pow2(path.len())) % 2 == 0 ==> climb(
            leaf,
            path.push(last),
            index,
        ) == parent(climb(leaf, path, index), last),
        (index / vstd::arithmetic::power2::pow2(path.len())) % 2 == 1 ==> climb(
            leaf,
            path.push(last),
            index,
        ) == parent(last, climb(leaf, path, index)),
    decreases path.len(),
{
    let longer = path.push(last);
    vstd::arithmetic::power2::lemma_pow2_pos(path.len());
    if path.len() == 0 {
        vstd::arithmetic::power2::lemma2_to64();
        assert(longer.drop_first() =~= Seq::empty());
        assert(climb(parent(leaf, last), longer.drop_first(), index / 2) == parent(leaf, last));
        assert(climb(parent(last, leaf), longer.drop_first(), index / 2) == parent(last, leaf));
    } else {
        let rest = path.drop_first();
        vstd::arithmetic::power2::lemma_pow2_unfold(path.len());
        vstd::arithmetic::power2::lemma_pow2_pos(rest.len());
        vstd::arithmetic::div_mod::lemma_div_denominator(
            index as int,
            2,
            vstd::arithmetic::power2::pow2(rest.len()) as int,
        );
        assert(longer.drop_first() =~= rest.push(last));
        let above = if index % 2 == 0 {
            parent(leaf, path[0])
        } else {
            parent(path[0], leaf)
        };
        law_climb_takes_last_step(above, rest, last, index / 2);
    }
}

} // verus!
