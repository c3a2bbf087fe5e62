//! The commitment Merkle tree: a binary hash tree whose nodes also carry the
//! aggregate commitment of their subtree.
//!
//! Levels are stored leaves first. A node without a right neighbour is
//! carried up to the next level unchanged.

use crate::aggregation::{
    commitment_views, lemma_add_mod_assoc, lemma_sum_mod_concat, sum_mod, AggregateCommitment,
};
use crate::bytes::{append_be, append_bytes, be_bytes, bytes_equal};
use crate::commitment::{add_mod, Commitment};
use crate::digest::{sha256, sha256_digest};
use crate::errors::ArchimedesError;
use crate::group::group_order;
use vstd::arithmetic::div_mod::lemma_small_mod;
use vstd::prelude::*;

verus! {

/// A node of the tree: the hash and the aggregate of its subtree.
#[derive(Clone, Copy, Debug)]
pub struct MerkleNode {
    pub hash: [u8; 32],
    pub aggregate: AggregateCommitment,
}

/// The hash of the leaf at `index` for a commitment with the given encoding:
/// the digest of the index (8 bytes, big-endian) followed by the encoding.
pub open spec fn leaf_hash(index: nat, encoding: Seq<u8>) -> Seq<u8> {
    sha256(be_bytes(index, 8) + encoding)
}

/// The hash of an internal node over the hashes of its two children.
pub open spec fn internal_hash(left: Seq<u8>, right: Seq<u8>) -> Seq<u8> {
    sha256(left + right)
}

/// The sum of the aggregates of a level, by their views.
pub open spec fn aggregate_sum(level: Seq<MerkleNode>) -> nat {
    sum_mod(aggregate_views(level))
}

/// The views of the aggregates of a level.
pub open spec fn aggregate_views(level: Seq<MerkleNode>) -> Seq<nat> {
    Seq::new(level.len(), |i: int| level[i].aggregate.commitment@)
}

/// The number of leaves under the nodes of a level.
pub open spec fn count_sum(level: Seq<MerkleNode>) -> nat
    decreases level.len(),
{
    if level.len() == 0 {
        0
    } else {
        count_sum(level.drop_last()) + level.last().aggregate.count as nat
    }
}

/// Whether `node` is the parent at position `j` over the level `lower`: the
/// combination of the children `2j` and `2j + 1`, or the child `2j` itself
/// where it has no right neighbour.
pub open spec fn parent_of(lower: Seq<MerkleNode>, node: MerkleNode, j: int) -> bool {
    if 2 * j + 1 < lower.len() {
        &&& node.hash@ == internal_hash(lower[2 * j].hash@, lower[2 * j + 1].hash@)
        &&& node.aggregate.commitment@ == add_mod(
            lower[2 * j].aggregate.commitment@,
            lower[2 * j + 1].aggregate.commitment@,
        )
        &&& node.aggregate.count == lower[2 * j].aggregate.count + lower[2 * j
            + 1].aggregate.count
    } else {
        node == lower[2 * j]
    }
}

/// Whether `upper` is the level above `lower`.
pub open spec fn level_above(lower: Seq<MerkleNode>, upper: Seq<MerkleNode>) -> bool {
    &&& upper.len() == (lower.len() + 1) / 2
    &&& forall|j: int| 0 <= j < upper.len() ==> parent_of(lower, #[trigger] upper[j], j)
}

/// Every aggregate of the level is a group element in range.
pub open spec fn in_range(level: Seq<MerkleNode>) -> bool {
    forall|i: int| 0 <= i < level.len() ==> (#[trigger] level[i]).aggregate.commitment@
        < group_order()
}

/// The first `a` nodes of a level cover no more leaves than the first `b`.
pub proof fn lemma_count_sum_monotone(level: Seq<MerkleNode>, a: int, b: int)
    requires
        0 <= a <= b <= level.len(),
    ensures
        count_sum(level.subrange(0, a)) <= count_sum(level.subrange(0, b)),
    decreases b - a,
{
    if a < b {
        lemma_count_sum_monotone(level, a, b - 1);
        assert(level.subrange(0, b).drop_last() =~= level.subrange(0, b - 1));
    }
}

/// Taking one more node into a prefix of a level.
pub proof fn lemma_prefix_step(level: Seq<MerkleNode>, a: int)
    requires
        0 <= a < level.len(),
    ensures
        count_sum(level.subrange(0, a + 1)) == count_sum(level.subrange(0, a))
            + level[a].aggregate.count,
        aggregate_sum(level.subrange(0, a + 1)) == add_mod(
            aggregate_sum(level.subrange(0, a)),
            level[a].aggregate.commitment@,
        ),
{
    let next = level.subrange(0, a + 1);
    assert(next.drop_last() =~= level.subrange(0, a));
    assert(aggregate_views(next).drop_last() =~= aggregate_views(level.subrange(0, a)));
    assert(aggregate_views(next).last() == level[a].aggregate.commitment@);
}

/// A level and the level above it cover the same leaves and carry the same
/// total.
pub proof fn lemma_level_above_keeps_sums(lower: Seq<MerkleNode>, upper: Seq<MerkleNode>)
    requires
        level_above(lower, upper),
        in_range(lower),
    ensures
        aggregate_sum(upper) == aggregate_sum(lower),
        count_sum(upper) == count_sum(lower),
        in_range(upper),
{
    lemma_level_prefix_keeps_sums(lower, upper, upper.len() as int);
    assert(upper.subrange(0, upper.len() as int) =~= upper);
    if 2 * upper.len() <= lower.len() {
        assert(lower.subrange(0, 2 * (upper.len() as int)) =~= lower);
    } else {
        assert(lower.subrange(0, lower.len() as int) =~= lower);
    }
    assert forall|i: int| 0 <= i < upper.len() implies (#[trigger] upper[i]).aggregate.commitment@
        < group_order() by {
        assert(parent_of(lower, upper[i], i));
        if 2 * i + 1 < lower.len() {
            vstd::arithmetic::div_mod::lemma_mod_bound(
                (lower[2 * i].aggregate.commitment@ + lower[2 * i + 1].aggregate.commitment@) as int,
                group_order() as int,
            );
        } else {
            assert(lower[2 * i].aggregate.commitment@ < group_order());
        }
    }
}

/// The number of nodes of `lower` that the first `j` nodes of the level
/// above it stand for.
pub open spec fn covered(lower: Seq<MerkleNode>, j: int) -> int {
    if 2 * j <= lower.len() {
        2 * j
    } else {
        lower.len() as int
    }
}

/// The first `j` nodes of the upper level carry what the nodes of the lower
/// level that they stand for carry.
pub proof fn lemma_level_prefix_keeps_sums(
    lower: Seq<MerkleNode>,
    upper: Seq<MerkleNode>,
    j: int,
)
    requires
        level_above(lower, upper),
        in_range(lower),
        0 <= j <= upper.len(),
    ensures
        aggregate_sum(upper.subrange(0, j)) == aggregate_sum(lower.subrange(0, covered(lower, j))),
        count_sum(upper.subrange(0, j)) == count_sum(lower.subrange(0, covered(lower, j))),
    decreases j,
{
    if j == 0 {
        assert(aggregate_views(upper.subrange(0, 0)) =~= Seq::<nat>::empty());
        assert(aggregate_views(lower.subrange(0, 0)) =~= Seq::<nat>::empty());
    } else {
        let k = j - 1;
        lemma_level_prefix_keeps_sums(lower, upper, k);
        lemma_prefix_step(upper, k);
        assert(parent_of(lower, upper[k], k));
        assert(covered(lower, k) == 2 * k);
        lemma_prefix_step(lower, 2 * k);
        if 2 * k + 1 < lower.len() {
            lemma_prefix_step(lower, 2 * k + 1);
            lemma_add_mod_assoc(
                aggregate_sum(lower.subrange(0, 2 * k)),
                lower[2 * k].aggregate.commitment@,
                lower[2 * k + 1].aggregate.commitment@,
            );
        }
    }
}

impl MerkleNode {
    /// The leaf for `commitment` at position `index`.
    pub fn leaf(commitment: &Commitment, index: usize) -> (r: Self)
        ensures
            r.hash@ == leaf_hash(index as nat, commitment.0.spec_bytes()),
            r.aggregate.commitment@ == commitment@,
            r.aggregate.count == 1,
    {
        let mut buf: Vec<u8> = Vec::new();
        append_be(&mut buf, index as u128, 8);
        let encoding = commitment.0.to_bytes();
        append_bytes(&mut buf, encoding.as_slice());
        let hash = sha256_digest(buf.as_slice());
        let aggregate = AggregateCommitment::empty().add(commitment);
        commitment.0.check_range();
        proof {
            lemma_small_mod(commitment@, group_order());
        }
        MerkleNode { hash, aggregate }
    }

    /// The parent of two nodes.
    pub fn internal(left: &MerkleNode, right: &MerkleNode) -> (r: Self)
        requires
            left.aggregate.count + right.aggregate.count <= usize::MAX,
        ensures
            r.hash@ == internal_hash(left.hash@, right.hash@),
            r.aggregate.commitment@ == add_mod(
                left.aggregate.commitment@,
                right.aggregate.commitment@,
            ),
            r.aggregate.count == left.aggregate.count + right.aggregate.count,
    {
        let mut buf: Vec<u8> = Vec::new();
        append_bytes(&mut buf, left.hash.as_slice());
        append_bytes(&mut buf, right.hash.as_slice());
        MerkleNode {
            hash: sha256_digest(buf.as_slice()),
            aggregate: left.aggregate.merge(&right.aggregate),
        }
    }
}

/// The tree over a list of commitments.
#[derive(Debug)]
pub struct CommitmentMerkleTree {
    nodes: Vec<Vec<MerkleNode>>,
    leaf_count: usize,
}

/// A path from a leaf to the root: for each level at which the node on the
/// path has a neighbour, the neighbour's hash and whether the node on the
/// path is the left one of the two.
#[derive(Clone, Debug)]
pub struct MerkleProof {
    pub index: usize,
    pub siblings: Vec<([u8; 32], bool)>,
}

/// The levels that a vector of vectors holds.
pub open spec fn levels_of(nodes: Seq<Vec<MerkleNode>>) -> Seq<Seq<MerkleNode>> {
    Seq::new(nodes.len(), |k: int| nodes[k]@)
}

/// Levels over `n` leaves, each above the one before it; the last one may
/// still be wider than a root.
pub open spec fn stacked_levels(levels: Seq<Seq<MerkleNode>>, n: nat) -> bool {
    &&& levels.len() >= 1
    &&& n >= 1
    &&& levels[0].len() == n
    &&& forall|i: int| 0 <= i < n ==> (#[trigger] levels[0][i]).aggregate.count == 1
    &&& in_range(levels[0])
    &&& forall|k: int| 0 <= k < levels.len() - 1 ==> #[trigger] linked(levels, k)
}

/// Level `k` is wider than a root, and level `k + 1` is the level above it.
pub open spec fn linked(levels: Seq<Seq<MerkleNode>>, k: int) -> bool {
    levels[k].len() >= 2 && level_above(levels[k], levels[k + 1])
}

/// The levels of a complete tree over `n` leaves: stacked, and ending in a
/// root.
pub open spec fn tree_levels(levels: Seq<Seq<MerkleNode>>, n: nat) -> bool {
    &&& stacked_levels(levels, n)
    &&& levels.last().len() == 1
}

/// The position at `level` of the node above leaf `index`.
pub open spec fn index_at(index: nat, level: nat) -> nat
    decreases level,
{
    if level == 0 {
        index
    } else {
        index_at(index, (level - 1) as nat) / 2
    }
}

/// The siblings on the way from leaf `index` up to `level`.
pub open spec fn path_upto(levels: Seq<Seq<MerkleNode>>, index: nat, level: nat) -> Seq<
    ([u8; 32], bool),
>
    decreases level,
{
    if level == 0 {
        Seq::empty()
    } else {
        let below = (level - 1) as nat;
        let at = index_at(index, below);
        let sibling: int = if at % 2 == 0 {
            at as int + 1
        } else {
            at as int - 1
        };
        let rest = path_upto(levels, index, below);
        if sibling < levels[below as int].len() {
            rest.push((levels[below as int][sibling].hash, at % 2 == 0))
        } else {
            rest
        }
    }
}

/// The siblings on the way from leaf `index` to the root.
pub open spec fn merkle_path(levels: Seq<Seq<MerkleNode>>, index: nat) -> Seq<([u8; 32], bool)> {
    path_upto(levels, index, (levels.len() - 1) as nat)
}

/// The hash that a path leads to from `start`: each step hashes the current
/// hash with the sibling's, the current one first where it is the left one.
pub open spec fn fold_path(start: Seq<u8>, siblings: Seq<([u8; 32], bool)>) -> Seq<u8>
    decreases siblings.len(),
{
    if siblings.len() == 0 {
        start
    } else {
        let current = fold_path(start, siblings.drop_last());
        let (sibling, is_left) = siblings.last();
        if is_left {
            internal_hash(current, sibling@)
        } else {
            internal_hash(sibling@, current)
        }
    }
}

/// The leaves each stand for one leaf.
pub proof fn lemma_leaf_counts(level: Seq<MerkleNode>)
    requires
        forall|i: int| 0 <= i < level.len() ==> (#[trigger] level[i]).aggregate.count == 1,
    ensures
        count_sum(level) == level.len(),
    decreases level.len(),
{
    if level.len() > 0 {
        lemma_leaf_counts(level.drop_last());
    }
}

/// Every level of a stack covers all leaves and carries their total.
pub proof fn lemma_levels_keep_sums(levels: Seq<Seq<MerkleNode>>, n: nat, k: int)
    requires
        stacked_levels(levels, n),
        0 <= k < levels.len(),
    ensures
        aggregate_sum(levels[k]) == aggregate_sum(levels[0]),
        count_sum(levels[k]) == n,
        in_range(levels[k]),
    decreases k,
{
    if k == 0 {
        lemma_leaf_counts(levels[0]);
    } else {
        lemma_levels_keep_sums(levels, n, k - 1);
        assert(linked(levels, k - 1));
        lemma_level_above_keeps_sums(levels[k - 1], levels[k]);
    }
}

/// Two nodes of a level cover no more leaves than the level.
pub proof fn lemma_pair_count_bound(level: Seq<MerkleNode>, a: int)
    requires
        0 <= a,
        a + 1 < level.len(),
    ensures
        level[a].aggregate.count + level[a + 1].aggregate.count <= count_sum(level),
{
    lemma_prefix_step(level, a);
    lemma_prefix_step(level, a + 1);
    lemma_count_sum_monotone(level, a + 2, level.len() as int);
    assert(level.subrange(0, level.len() as int) =~= level);
}

/// The root carries the total of the leaves and their number.
pub proof fn lemma_root_aggregate(levels: Seq<Seq<MerkleNode>>, n: nat)
    requires
        tree_levels(levels, n),
    ensures
        levels.last()[0].aggregate.commitment@ == aggregate_sum(levels[0]),
        levels.last()[0].aggregate.count == n,
{
    let top = levels.last();
    lemma_levels_keep_sums(levels, n, levels.len() - 1);
    let views = aggregate_views(top);
    assert(top.drop_last() =~= Seq::<MerkleNode>::empty());
    assert(views.drop_last() =~= Seq::<nat>::empty());
    assert(views.last() == top[0].aggregate.commitment@);
    assert(sum_mod(views.drop_last()) == 0);
    assert(sum_mod(views) == add_mod(sum_mod(views.drop_last()), views.last()));
    assert(top[0].aggregate.commitment@ < group_order());
    lemma_small_mod(top[0].aggregate.commitment@, group_order());
    assert(count_sum(top.drop_last()) == 0);
    assert(count_sum(top) == count_sum(top.drop_last()) + top.last().aggregate.count);
}

/// The path from a leaf up to a level folds to the hash of the node that it
/// reaches there.
pub proof fn lemma_path_reaches(levels: Seq<Seq<MerkleNode>>, n: nat, index: nat, level: nat)
    requires
        stacked_levels(levels, n),
        index < n,
        level < levels.len(),
    ensures
        index_at(index, level) < levels[level as int].len(),
        fold_path(levels[0][index as int].hash@, path_upto(levels, index, level))
            == levels[level as int][index_at(index, level) as int].hash@,
    decreases level,
{
    if level > 0 {
        let below = (level - 1) as nat;
        lemma_path_reaches(levels, n, index, below);
        let lower = levels[below as int];
        let upper = levels[level as int];
        assert(linked(levels, below as int));
        let at = index_at(index, below);
        let j = (at / 2) as int;
        assert(index_at(index, level) == at / 2);
        assert(parent_of(lower, upper[j], j));
        let rest = path_upto(levels, index, below);
        if at % 2 == 0 {
            if at + 1 < lower.len() {
                let p = rest.push((lower[at as int + 1].hash, true));
                assert(p.drop_last() =~= rest);
            }
        } else {
            let p = rest.push((lower[at as int - 1].hash, false));
            assert(p.drop_last() =~= rest);
        }
    }
}

impl CommitmentMerkleTree {
    /// The levels of the tree, leaves first.
    pub closed spec fn levels(&self) -> Seq<Seq<MerkleNode>> {
        levels_of(self.nodes@)
    }

    /// The number of leaves.
    pub closed spec fn spec_leaf_count(&self) -> nat {
        self.leaf_count as nat
    }

    /// The tree is complete over its leaves.
    #[verifier::type_invariant]
    pub closed spec fn wf(&self) -> bool {
        tree_levels(levels_of(self.nodes@), self.leaf_count as nat)
    }

    /// The leaves.
    pub open spec fn spec_leaves(&self) -> Seq<MerkleNode> {
        self.levels()[0]
    }

    /// The root.
    pub open spec fn spec_root(&self) -> MerkleNode {
        self.levels().last()[0]
    }

    /// The sum of the leaf aggregates in `[start, end)`.
    pub open spec fn spec_range_aggregate(&self, start: int, end: int) -> nat {
        aggregate_sum(self.spec_leaves().subrange(start, end))
    }

    /// A well-formed tree has complete levels over its leaves.
    pub proof fn lemma_wf(&self)
        requires
            self.wf(),
        ensures
            tree_levels(self.levels(), self.spec_leaf_count()),
            self.spec_leaves().len() == self.spec_leaf_count(),
    {
    }

    /// Builds the tree over the given commitments. Fails exactly when there
    /// is none.
    pub fn build(commitments: &[Commitment]) -> (res: Result<Self, ArchimedesError>)
        ensures
            commitments@.len() == 0 ==> (res matches Err(ArchimedesError::MerkleTreeError(m))
                && m@ == "Cannot build empty tree"@),
            commitments@.len() > 0 ==> (res matches Ok(tree) && tree.wf()
                && tree.spec_leaf_count() == commitments@.len() && tree.spec_leaves().len()
                == commitments@.len() && forall|i: int|
                0 <= i < commitments@.len() ==> {
                    &&& (#[trigger] tree.spec_leaves()[i]).hash@ == leaf_hash(
                        i as nat,
                        commitments@[i].0.spec_bytes(),
                    )
                    &&& tree.spec_leaves()[i].aggregate.commitment@ == commitments@[i]@
                    &&& tree.spec_leaves()[i].aggregate.count == 1
                } && tree.spec_root().aggregate.commitment@ == sum_mod(
                commitment_views(commitments@),
            ) && tree.spec_root().aggregate.count == commitments@.len()),
    {
        if commitments.len() == 0 {
            return Err(ArchimedesError::MerkleTreeError("Cannot build empty tree".to_string()));
        }
        let leaf_count = commitments.len();
        let mut leaves: Vec<MerkleNode> = Vec::new();
        let mut i: usize = 0;
        while i < leaf_count
            invariant
                i <= leaf_count,
                leaf_count == commitments@.len(),
                leaves@.len() == i,
                forall|q: int|
                    0 <= q < i ==> {
                        &&& (#[trigger] leaves@[q]).hash@ == leaf_hash(
                            q as nat,
                            commitments@[q].0.spec_bytes(),
                        )
                        &&& leaves@[q].aggregate.commitment@ == commitments@[q]@
                        &&& leaves@[q].aggregate.count == 1
                        &&& leaves@[q].aggregate.commitment@ < group_order()
                    },
            decreases leaf_count - i,
        {
            commitments[i].0.check_range();
            leaves.push(MerkleNode::leaf(&commitments[i], i));
            i = i + 1;
        }
        let ghost bottom = leaves@;
        let mut nodes: Vec<Vec<MerkleNode>> = Vec::new();
        nodes.push(leaves);
        let mut width: usize = leaf_count;
        proof {
            assert(levels_of(nodes@)[0] =~= bottom);
        }
        while width > 1
            invariant
                nodes@.len() >= 1,
                stacked_levels(levels_of(nodes@), leaf_count as nat),
                width == nodes@[nodes@.len() - 1]@.len(),
                width >= 1,
                levels_of(nodes@)[0] == bottom,
            decreases width,
        {
            let last = nodes.len() - 1;
            let prev = &nodes[last];
            let below: usize = prev.len();
            let parents: usize = below / 2 + below % 2;
            let mut next: Vec<MerkleNode> = Vec::new();
            let mut p: usize = 0;
            proof {
                lemma_levels_keep_sums(levels_of(nodes@), leaf_count as nat, last as int);
            }
            while p < parents
                invariant
                    p <= parents,
                    below == prev@.len(),
                    parents == (below + 1) / 2,
                    next@.len() == p,
                    count_sum(prev@) == leaf_count,
                    forall|q: int| 0 <= q < p ==> parent_of(prev@, #[trigger] next@[q], q),
                decreases parents - p,
            {
                if 2 * p + 1 < below {
                    proof {
                        lemma_pair_count_bound(prev@, 2 * p);
                    }
                    next.push(MerkleNode::internal(&prev[2 * p], &prev[2 * p + 1]));
                } else {
                    next.push(prev[2 * p]);
                }
                p = p + 1;
            }
            proof {
                assert(level_above(prev@, next@));
            }
            let ghost before = levels_of(nodes@);
            width = next.len();
            nodes.push(next);
            proof {
                let after = levels_of(nodes@);
                assert(after.len() == before.len() + 1);
                assert forall|k: int| 0 <= k < before.len() implies after[k] == before[k] by {}
                assert forall|k: int| 0 <= k < after.len() - 1 implies #[trigger] linked(
                    after,
                    k,
                ) by {
                    if k < before.len() - 1 {
                        assert(linked(before, k));
                    }
                }
            }
        }
        proof {
            lemma_root_aggregate(levels_of(nodes@), leaf_count as nat);
            assert(aggregate_views(bottom) =~= commitment_views(commitments@));
        }
        Ok(CommitmentMerkleTree { nodes, leaf_count })
    }

    /// The root node.
    pub fn root(&self) -> (r: &MerkleNode)
        ensures
            *r == self.spec_root(),
    {
        proof {
            use_type_invariant(self);
        }
        let top = &self.nodes[self.nodes.len() - 1];
        &top[0]
    }

    /// The hash of the root.
    pub fn root_hash(&self) -> (r: [u8; 32])
        ensures
            r == self.spec_root().hash,
    {
        self.root().hash
    }

    /// The aggregate of the root: the sum of all leaves, and their number.
    pub fn aggregate(&self) -> (r: &AggregateCommitment)
        ensures
            *r == self.spec_root().aggregate,
            r.commitment@ == aggregate_sum(self.spec_leaves()),
            r.commitment@ == self.spec_range_aggregate(0, self.spec_leaf_count() as int),
            r.count == self.spec_leaf_count(),
    {
        proof {
            use_type_invariant(self);
            lemma_root_aggregate(self.levels(), self.spec_leaf_count());
            assert(self.spec_leaves().subrange(0, self.spec_leaf_count() as int)
                =~= self.spec_leaves());
        }
        &self.root().aggregate
    }

    /// The sum of the leaf aggregates in `[start, end)`. Fails exactly when
    /// the range is empty, reversed or reaches past the leaves.
    pub fn range_aggregate(&self, start: usize, end: usize) -> (res: Result<
        AggregateCommitment,
        ArchimedesError,
    >)
        ensures
            (start < end <= self.spec_leaf_count()) ==> (res matches Ok(a) && a.commitment@
                == self.spec_range_aggregate(start as int, end as int) && a.count == end
                - start),
            !(start < end <= self.spec_leaf_count()) ==> (res matches Err(
                ArchimedesError::MerkleTreeError(m),
            ) && m@ == "Invalid range"@),
    {
        proof {
            use_type_invariant(self);
        }
        if end > self.leaf_count || start >= end {
            return Err(ArchimedesError::MerkleTreeError("Invalid range".to_string()));
        }
        let leaves = &self.nodes[0];
        let mut agg = AggregateCommitment::empty();
        let mut i: usize = start;
        proof {
            assert(aggregate_views(leaves@.subrange(start as int, start as int))
                =~= Seq::<nat>::empty());
        }
        while i < end
            invariant
                start <= i <= end <= leaves@.len(),
                forall|q: int| 0 <= q < leaves@.len() ==> (#[trigger] leaves@[q]).aggregate.count
                    == 1,
                agg.commitment@ == aggregate_sum(leaves@.subrange(start as int, i as int)),
                agg.count == i - start,
            decreases end - i,
        {
            agg = agg.merge(&leaves[i].aggregate);
            proof {
                let next = aggregate_views(leaves@.subrange(start as int, i + 1));
                assert(next.drop_last() =~= aggregate_views(
                    leaves@.subrange(start as int, i as int),
                ));
                assert(next.last() == leaves@[i as int].aggregate.commitment@);
            }
            i = i + 1;
        }
        Ok(agg)
    }

    /// The path from leaf `index` to the root. Fails exactly when there is no
    /// such leaf. The path leads from the leaf's hash to the root's.
    pub fn generate_proof(&self, index: usize) -> (res: Result<MerkleProof, ArchimedesError>)
        ensures
            index < self.spec_leaf_count() ==> (res matches Ok(proof) && proof.index == index
                && proof.siblings@ == merkle_path(self.levels(), index as nat) && fold_path(
                self.spec_leaves()[index as int].hash@,
                proof.siblings@,
            ) == self.spec_root().hash@),
            index >= self.spec_leaf_count() ==> (res matches Err(
                ArchimedesError::MerkleTreeError(m),
            ) && m@ == "Index out of bounds"@),
    {
        proof {
            use_type_invariant(self);
        }
        if index >= self.leaf_count {
            return Err(ArchimedesError::MerkleTreeError("Index out of bounds".to_string()));
        }
        let mut siblings: Vec<([u8; 32], bool)> = Vec::new();
        let mut current: usize = index;
        let mut level: usize = 0;
        while level < self.nodes.len() - 1
            invariant
                self.wf(),
                index < self.leaf_count,
                level <= self.nodes@.len() - 1,
                current == index_at(index as nat, level as nat),
                current < self.nodes@[level as int]@.len(),
                siblings@ == path_upto(self.levels(), index as nat, level as nat),
            decreases self.nodes@.len() - level,
        {
            let row = &self.nodes[level];
            let is_left = current % 2 == 0;
            let sibling: usize = if is_left {
                current + 1
            } else {
                current - 1
            };
            if sibling < row.len() {
                siblings.push((row[sibling].hash, is_left));
            }
            current = current / 2;
            level = level + 1;
            proof {
                lemma_path_reaches(
                    self.levels(),
                    self.leaf_count as nat,
                    index as nat,
                    level as nat,
                );
            }
        }
        proof {
            lemma_path_reaches(self.levels(), self.leaf_count as nat, index as nat, level as nat);
        }
        Ok(MerkleProof { index, siblings })
    }

    /// The number of leaves.
    pub fn leaf_count(&self) -> (r: usize)
        ensures
            r == self.spec_leaf_count(),
    {
        self.leaf_count
    }

    /// The leaf at `index`, if there is one.
    pub fn leaf(&self, index: usize) -> (r: Option<&MerkleNode>)
        ensures
            index < self.spec_leaf_count() ==> r == Some(&self.spec_leaves()[index as int]),
            index >= self.spec_leaf_count() ==> r is None,
    {
        proof {
            use_type_invariant(self);
        }
        if index < self.leaf_count {
            Some(&self.nodes[0][index])
        } else {
            None
        }
    }
}

impl Clone for CommitmentMerkleTree {
    fn clone(&self) -> (r: Self)
        ensures
            r.levels() == self.levels(),
            r.spec_leaf_count() == self.spec_leaf_count(),
    {
        proof {
            use_type_invariant(self);
        }
        let mut nodes: Vec<Vec<MerkleNode>> = Vec::new();
        let mut k: usize = 0;
        while k < self.nodes.len()
            invariant
                k <= self.nodes@.len(),
                nodes@.len() == k,
                forall|q: int| 0 <= q < k ==> (#[trigger] nodes@[q])@ == self.nodes@[q]@,
            decreases self.nodes@.len() - k,
        {
            let row = &self.nodes[k];
            let mut copy: Vec<MerkleNode> = Vec::new();
            let mut j: usize = 0;
            while j < row.len()
                invariant
                    j <= row@.len(),
                    copy@ == row@.subrange(0, j as int),
                decreases row@.len() - j,
            {
                copy.push(row[j]);
                j = j + 1;
                proof {
                    assert(copy@ =~= row@.subrange(0, j as int));
                }
            }
            proof {
                assert(row@.subrange(0, j as int) =~= row@);
            }
            nodes.push(copy);
            k = k + 1;
        }
        proof {
            assert(levels_of(nodes@) =~= levels_of(self.nodes@));
        }
        CommitmentMerkleTree { nodes, leaf_count: self.leaf_count }
    }
}

impl MerkleProof {
    /// Whether the path leads from `leaf_hash` to `root_hash`.
    pub open spec fn spec_verify(&self, leaf_hash: Seq<u8>, root_hash: Seq<u8>) -> bool {
        fold_path(leaf_hash, self.siblings@) == root_hash
    }

    /// Recomputes the root from the leaf hash along the path and compares it
    /// with `root_hash`.
    pub fn verify(&self, leaf_hash: [u8; 32], root_hash: [u8; 32]) -> (r: bool)
        ensures
            r == self.spec_verify(leaf_hash@, root_hash@),
    {
        let mut current: [u8; 32] = leaf_hash;
        let mut i: usize = 0;
        proof {
            assert(self.siblings@.subrange(0, 0) =~= Seq::<([u8; 32], bool)>::empty());
        }
        while i < self.siblings.len()
            invariant
                i <= self.siblings@.len(),
                current@ == fold_path(leaf_hash@, self.siblings@.subrange(0, i as int)),
            decreases self.siblings@.len() - i,
        {
            let mut buf: Vec<u8> = Vec::new();
            if self.siblings[i].1 {
                append_bytes(&mut buf, current.as_slice());
                append_bytes(&mut buf, self.siblings[i].0.as_slice());
            } else {
                append_bytes(&mut buf, self.siblings[i].0.as_slice());
                append_bytes(&mut buf, current.as_slice());
            }
            current = sha256_digest(buf.as_slice());
            proof {
                assert(self.siblings@.subrange(0, i + 1).drop_last() =~= self.siblings@.subrange(
                    0,
                    i as int,
                ));
            }
            i = i + 1;
        }
        proof {
            assert(self.siblings@.subrange(0, i as int) =~= self.siblings@);
        }
        bytes_equal(current.as_slice(), root_hash.as_slice())
    }
}

/// The root aggregate of a tree is the aggregate of the range of all its
/// leaves: the sum of the commitments that the tree was built over.
pub proof fn lemma_root_is_full_range(tree: CommitmentMerkleTree)
    requires
        tree.wf(),
    ensures
        tree.spec_root().aggregate.commitment@ == aggregate_sum(tree.spec_leaves()),
        tree.spec_root().aggregate.commitment@ == tree.spec_range_aggregate(
            0,
            tree.spec_leaf_count() as int,
        ),
        tree.spec_root().aggregate.count == tree.spec_leaf_count(),
{
    tree.lemma_wf();
    lemma_root_aggregate(tree.levels(), tree.spec_leaf_count());
    assert(tree.spec_leaves().subrange(0, tree.spec_leaf_count() as int) =~= tree.spec_leaves());
}

/// Whether SHA-256 tells two byte strings apart: they are equal, or their
/// digests differ.
pub open spec fn told_apart(a: Seq<u8>, b: Seq<u8>) -> bool {
    a != b ==> sha256(a) != sha256(b)
}

/// The bytes that are hashed at step `j` of a path from `start`.
pub open spec fn step_input(start: Seq<u8>, siblings: Seq<([u8; 32], bool)>, j: int) -> Seq<u8> {
    let current = fold_path(start, siblings.subrange(0, j));
    if siblings[j].1 {
        current + siblings[j].0@
    } else {
        siblings[j].0@ + current
    }
}

/// The hash after step `j` of a path is the digest of what is hashed at that
/// step.
pub proof fn lemma_fold_step(start: Seq<u8>, siblings: Seq<([u8; 32], bool)>, j: int)
    requires
        0 <= j < siblings.len(),
    ensures
        fold_path(start, siblings.subrange(0, j + 1)) == sha256(step_input(start, siblings, j)),
{
    let prefix = siblings.subrange(0, j + 1);
    assert(prefix.drop_last() =~= siblings.subrange(0, j));
    assert(prefix.last() == siblings[j]);
}

/// Byte strings that differ still differ with the same string before or
/// after them.
pub proof fn lemma_concat_differs(a: Seq<u8>, b: Seq<u8>, c: Seq<u8>)
    requires
        a != b,
    ensures
        a + c != b + c,
        c + a != c + b,
{
    if a + c == b + c {
        assert((a + c).len() == (b + c).len());
        assert forall|i: int| 0 <= i < a.len() implies a[i] == b[i] by {
            assert((a + c)[i] == (b + c)[i]);
        }
        assert(a =~= b);
    }
    if c + a == c + b {
        assert((c + a).len() == (c + b).len());
        assert forall|i: int| 0 <= i < a.len() implies a[i] == b[i] by {
            assert((c + a)[c.len() + i] == (c + b)[c.len() + i]);
        }
        assert(a =~= b);
    }
}

/// A tampered path does not verify. Take a path that leads from `start` to a
/// root, and another that differs from it at step `k` alone, in the hash or
/// in the direction, so that different bytes are hashed at that step. Unless
/// SHA-256 fails to tell apart what the two paths hash at some step from `k`
/// on, the other path leads elsewhere.
pub proof fn lemma_tampered_path_fails(
    start: Seq<u8>,
    path: Seq<([u8; 32], bool)>,
    tampered: Seq<([u8; 32], bool)>,
    k: int,
    root: Seq<u8>,
)
    requires
        path.len() == tampered.len(),
        0 <= k < path.len(),
        forall|j: int| 0 <= j < path.len() && j != k ==> path[j] == tampered[j],
        step_input(start, path, k) != step_input(start, tampered, k),
        forall|j: int|
            k <= j < path.len() ==> told_apart(
                #[trigger] step_input(start, path, j),
                step_input(start, tampered, j),
            ),
        fold_path(start, path) == root,
    ensures
        fold_path(start, tampered) != root,
{
    lemma_tampered_prefix_differs(start, path, tampered, k, path.len() as int);
    assert(path.subrange(0, path.len() as int) =~= path);
    assert(tampered.subrange(0, path.len() as int) =~= tampered);
}

/// From the step after the tampered one on, the two paths have led to
/// different hashes.
pub proof fn lemma_tampered_prefix_differs(
    start: Seq<u8>,
    path: Seq<([u8; 32], bool)>,
    tampered: Seq<([u8; 32], bool)>,
    k: int,
    upto: int,
)
    requires
        path.len() == tampered.len(),
        0 <= k < upto <= path.len(),
        forall|j: int| 0 <= j < path.len() && j != k ==> path[j] == tampered[j],
        step_input(start, path, k) != step_input(start, tampered, k),
        forall|j: int|
            k <= j < path.len() ==> told_apart(
                #[trigger] step_input(start, path, j),
                step_input(start, tampered, j),
            ),
    ensures
        fold_path(start, path.subrange(0, upto)) != fold_path(start, tampered.subrange(0, upto)),
    decreases upto - k,
{
    let j = upto - 1;
    lemma_fold_step(start, path, j);
    lemma_fold_step(start, tampered, j);
    assert(told_apart(step_input(start, path, j), step_input(start, tampered, j)));
    if j > k {
        lemma_tampered_prefix_differs(start, path, tampered, k, j);
        assert(path[j] == tampered[j]);
        lemma_concat_differs(
            fold_path(start, path.subrange(0, j)),
            fold_path(start, tampered.subrange(0, j)),
            path[j].0@,
        );
    }
}

/// A changed sibling hash changes what is hashed at its step.
pub proof fn lemma_changed_hash_changes_input(
    start: Seq<u8>,
    path: Seq<([u8; 32], bool)>,
    tampered: Seq<([u8; 32], bool)>,
    k: int,
)
    requires
        path.len() == tampered.len(),
        0 <= k < path.len(),
        forall|j: int| 0 <= j < k ==> path[j] == tampered[j],
        path[k].1 == tampered[k].1,
        path[k].0@ != tampered[k].0@,
    ensures
        step_input(start, path, k) != step_input(start, tampered, k),
{
    assert(path.subrange(0, k) =~= tampered.subrange(0, k));
    lemma_concat_differs(path[k].0@, tampered[k].0@, fold_path(start, path.subrange(0, k)));
}

/// A flipped direction changes what is hashed at its step, where the hash
/// that the path has led to is of the size of a digest and is not the
/// sibling's.
pub proof fn lemma_flipped_direction_changes_input(
    start: Seq<u8>,
    path: Seq<([u8; 32], bool)>,
    tampered: Seq<([u8; 32], bool)>,
    k: int,
)
    requires
        path.len() == tampered.len(),
        0 <= k < path.len(),
        forall|j: int| 0 <= j < k ==> path[j] == tampered[j],
        path[k].0 == tampered[k].0,
        path[k].1 != tampered[k].1,
        fold_path(start, path.subrange(0, k)).len() == 32,
        fold_path(start, path.subrange(0, k)) != path[k].0@,
    ensures
        step_input(start, path, k) != step_input(start, tampered, k),
{
    assert(path.subrange(0, k) =~= tampered.subrange(0, k));
    let current = fold_path(start, path.subrange(0, k));
    let sibling = path[k].0@;
    if current + sibling == sibling + current {
        assert forall|i: int| 0 <= i < 32 implies current[i] == sibling[i] by {
            assert((current + sibling)[i] == (sibling + current)[i]);
        }
        assert(current =~= sibling);
    }
}

/// Range aggregates add up: the aggregate of `[lo, hi)` is the sum of the
/// aggregates of `[lo, mid)` and of `[mid, hi)`.
pub proof fn lemma_range_aggregate_splits(tree: CommitmentMerkleTree, lo: int, mid: int, hi: int)
    requires
        tree.wf(),
        0 <= lo <= mid <= hi <= tree.spec_leaf_count(),
    ensures
        tree.spec_range_aggregate(lo, hi) == add_mod(
            tree.spec_range_aggregate(lo, mid),
            tree.spec_range_aggregate(mid, hi),
        ),
{
    tree.lemma_wf();
    let leaves = tree.spec_leaves();
    let left = aggregate_views(leaves.subrange(lo, mid));
    let right = aggregate_views(leaves.subrange(mid, hi));
    assert(aggregate_views(leaves.subrange(lo, hi)) =~= left + right);
    lemma_sum_mod_concat(left, right);
}

/// The path of every leaf verifies: it leads from the leaf's hash to the
/// root's.
pub proof fn lemma_own_path_verifies(tree: CommitmentMerkleTree, index: nat)
    requires
        tree.wf(),
        index < tree.spec_leaf_count(),
    ensures
        fold_path(
            tree.spec_leaves()[index as int].hash@,
            merkle_path(tree.levels(), index),
        ) == tree.spec_root().hash@,
{
    tree.lemma_wf();
    let levels = tree.levels();
    let top = (levels.len() - 1) as nat;
    lemma_path_reaches(levels, tree.spec_leaf_count(), index, top);
}

} // verus!
