//! The commitment tree: a binary hash tree over an ordered sequence of
//! fixed-width leaf hashes, with inclusion proofs. Leaves are padded with a
//! zero digest up to a power of two, so every node has a sibling and any two
//! builders given the same ordered leaves produce the identical root.

use vstd::prelude::*;
use crate::hashing::{digest_of, hash_pair};
use crate::output::MerkleHash;

verus! {

/// An inclusion proof: the ordered sibling-hash path from one leaf to the
/// root, bottom level first. The leaf's position decides on which side each
/// sibling stands.
pub struct MerkleBranch(pub Vec<MerkleHash>);

impl MerkleBranch {
    /// The sibling digests, bottom level first.
    pub open spec fn view(self) -> Seq<Seq<u8>> {
        self.0@.map(|i: int, h: MerkleHash| h@)
    }
}

/// The digests of one row of nodes.
pub open spec fn row_view(row: Seq<MerkleHash>) -> Seq<Seq<u8>> {
    row.map(|i: int, h: MerkleHash| h@)
}

/// One tree row combined: each pair of nodes hashed into its parent.
pub open spec fn level_up(nodes: Seq<Seq<u8>>) -> Seq<Seq<u8>> {
    Seq::new(nodes.len() / 2, |i: int| digest_of(nodes[2 * i] + nodes[2 * i + 1]))
}

/// The root recomputed from one leaf, its position, and a sibling path: at
/// each level the pair is ordered by the position's lowest bit, hashed, and
/// the position halved.
pub open spec fn branch_root_of(leaf: Seq<u8>, idx: nat, branch: Seq<Seq<u8>>) -> Seq<u8>
    decreases branch.len(),
{
    if branch.len() == 0 {
        leaf
    } else {
        let parent = if idx % 2 == 0 {
            digest_of(leaf + branch[0])
        } else {
            digest_of(branch[0] + leaf)
        };
        branch_root_of(parent, idx / 2, branch.drop_first())
    }
}

/// A power of two.
pub open spec fn is_pow2(n: nat) -> bool
    decreases n,
{
    if n == 0 {
        false
    } else if n == 1 {
        true
    } else {
        n % 2 == 0 && is_pow2(n / 2)
    }
}

/// The commitment tree: all node rows, leaves first, root row last.
pub struct MerkleTree {
    rows: Vec<Vec<MerkleHash>>,
}

impl MerkleTree {
    /// Rows halve pairwise up to a single root node.
    pub closed spec fn wf(self) -> bool {
        &&& self.rows@.len() >= 1
        &&& self.rows@.last()@.len() == 1
        &&& forall|i: int|
            0 <= i < self.rows@.len() - 1 ==> row_view(#[trigger] self.rows@[i + 1]@) == level_up(
                row_view(self.rows@[i]@),
            )
        &&& forall|i: int|
            0 <= i < self.rows@.len() - 1 ==> (#[trigger] self.rows@[i]@.len()) == 2 * self.rows@[
                i + 1
            ]@.len()
    }

    /// The bottom row: the committed leaves, zero-padded to a power of two.
    pub closed spec fn padded_leaves(self) -> Seq<Seq<u8>> {
        row_view(self.rows@[0]@)
    }

    /// The root digest.
    pub closed spec fn spec_root(self) -> Seq<u8> {
        row_view(self.rows@.last()@)[0]
    }

    /// Builds the tree over the given leaf hashes, in their order.
    pub fn build(leaves: &Vec<MerkleHash>) -> (t: MerkleTree)
        requires
            1 <= leaves@.len(),
            2 * leaves@.len() <= usize::MAX as nat,
        ensures
            t.wf(),
            leaves@.len() <= t.padded_leaves().len(),
            forall|i: int|
                0 <= i < leaves@.len() ==> t.padded_leaves()[i] == (#[trigger] leaves@[i])@,
    {
        let n = leaves.len();
        let mut p: usize = 1;
        while p < n
            invariant
                1 <= p,
                is_pow2(p as nat),
                2 * n <= usize::MAX as nat,
                n >= 1,
                p <= 2 * n,
            decreases 2 * n - p,
        {
            proof {
                assert(is_pow2(2 * p as nat)) by {
                    assert((2 * p as nat) % 2 == 0);
                    assert((2 * p as nat) / 2 == p as nat);
                }
            }
            p = 2 * p;
        }
        let mut base: Vec<MerkleHash> = Vec::new();
        let mut i: usize = 0;
        while i < n
            invariant
                i <= n,
                n == leaves@.len(),
                base@.len() == i,
                forall|j: int| 0 <= j < i ==> base@[j] == leaves@[j],
            decreases n - i,
        {
            base.push(leaves[i]);
            i = i + 1;
        }
        while base.len() < p
            invariant
                n <= base@.len() <= p,
                n == leaves@.len(),
                forall|j: int| 0 <= j < n ==> base@[j] == leaves@[j],
            decreases p - base@.len(),
        {
            base.push(MerkleHash([0u8; 32]));
        }
        let ghost base_snapshot = base@;
        let mut rows: Vec<Vec<MerkleHash>> = Vec::new();
        rows.push(base);
        while rows[rows.len() - 1].len() > 1
            invariant
                rows@.len() >= 1,
                rows@.last()@.len() >= 1,
                is_pow2(rows@.last()@.len() as nat),
                rows@[0]@ == base_snapshot,
                forall|i: int|
                    0 <= i < rows@.len() - 1 ==> row_view(#[trigger] rows@[i + 1]@) == level_up(
                        row_view(rows@[i]@),
                    ),
                forall|i: int|
                    0 <= i < rows@.len() - 1 ==> (#[trigger] rows@[i]@.len()) == 2 * rows@[i
                        + 1]@.len(),
            decreases rows@.last()@.len(),
        {
            let last = rows.len() - 1;
            let row_len = rows[last].len();
            let m = row_len / 2;
            proof {
                assert(rows@.last()@.len() % 2 == 0);
            }
            let mut next: Vec<MerkleHash> = Vec::new();
            let mut k: usize = 0;
            while k < m
                invariant
                    last == rows@.len() - 1,
                    rows@.last()@.len() == 2 * m,
                    2 * m <= usize::MAX as nat,
                    k <= m,
                    next@.len() == k,
                    forall|j: int|
                        0 <= j < k ==> (#[trigger] next@[j])@ == digest_of(
                            row_view(rows@.last()@)[2 * j] + row_view(rows@.last()@)[2 * j + 1],
                        ),
                decreases m - k,
            {
                let h = hash_pair(&rows[last][2 * k].0, &rows[last][2 * k + 1].0);
                next.push(MerkleHash(h));
                k = k + 1;
            }
            proof {
                assert(row_view(next@) =~= level_up(row_view(rows@.last()@)));
            }
            rows.push(next);
        }
        let t = MerkleTree { rows };
        proof {
            assert(t.padded_leaves() =~= row_view(base_snapshot));
            assert forall|i: int| 0 <= i < leaves@.len() implies t.padded_leaves()[i] == (
            #[trigger] leaves@[i])@ by {}
        }
        t
    }

    /// The committed root.
    pub fn root(&self) -> (r: MerkleHash)
        requires
            self.wf(),
        ensures
            r@ == self.spec_root(),
    {
        let last = self.rows.len() - 1;
        self.rows[last][0]
    }

    /// The number of committed (padded) leaf slots.
    pub fn leaf_count(&self) -> (n: usize)
        requires
            self.wf(),
        ensures
            n == self.padded_leaves().len(),
    {
        self.rows[0].len()
    }

    /// The inclusion proof for the leaf at `idx`: carrying that leaf up this
    /// path reproduces this tree's root.
    pub fn branch(&self, idx: usize) -> (b: MerkleBranch)
        requires
            self.wf(),
            idx < self.padded_leaves().len(),
        ensures
            branch_root_of(self.padded_leaves()[idx as int], idx as nat, b@) == self.spec_root(),
    {
        self.branch_from(0, idx)
    }

    /// The sibling path from the node at `(level, j)` to the root.
    fn branch_from(&self, level: usize, j: usize) -> (b: MerkleBranch)
        requires
            self.wf(),
            level < self.rows@.len(),
            j < self.rows@[level as int]@.len(),
        ensures
            branch_root_of(row_view(self.rows@[level as int]@)[j as int], j as nat, b@)
                == self.spec_root(),
        decreases self.rows@.len() - level,
    {
        if level == self.rows.len() - 1 {
            proof {
                assert(j == 0);
                assert(self.rows@[level as int] == self.rows@.last());
            }
            MerkleBranch(Vec::new())
        } else {
            let sibling = if j % 2 == 0 {
                self.rows[level][j + 1]
            } else {
                self.rows[level][j - 1]
            };
            let mut b = self.branch_from(level + 1, j / 2);
            let ghost rest_view = b@;
            b.0.insert(0, sibling);
            proof {
                let row = row_view(self.rows@[level as int]@);
                let up = row_view(self.rows@[level + 1]@);
                assert(b@ =~= seq![sibling@] + rest_view);
                assert(b@.drop_first() =~= rest_view);
                assert(up == level_up(row));
                assert(up[j as int / 2] == digest_of(
                    row[2 * (j as int / 2)] + row[2 * (j as int / 2) + 1],
                ));
                if j % 2 == 0 {
                    assert(2 * (j as int / 2) == j as int);
                    assert(digest_of(row[j as int] + b@[0]) == up[j as int / 2]);
                } else {
                    assert(2 * (j as int / 2) + 1 == j as int);
                    assert(digest_of(b@[0] + row[j as int]) == up[j as int / 2]);
                }
                assert(branch_root_of(row[j as int], j as nat, b@) == branch_root_of(
                    up[j as int / 2],
                    (j / 2) as nat,
                    rest_view,
                ));
            }
            b
        }
    }
}

/// Round trip: builds the commitment tree over the given leaves and checks
/// every leaf's inclusion proof against the root. Every proof verifies.
pub fn audit_round_trip(leaves: &Vec<MerkleHash>) -> (ok: bool)
    requires
        1 <= leaves@.len(),
        2 * leaves@.len() <= usize::MAX as nat,
    ensures
        ok,
{
    let t = MerkleTree::build(leaves);
    let root = t.root();
    let mut i: usize = 0;
    while i < leaves.len()
        invariant
            t.wf(),
            leaves@.len() <= t.padded_leaves().len(),
            forall|j: int|
                0 <= j < leaves@.len() ==> t.padded_leaves()[j] == (#[trigger] leaves@[j])@,
            root@ == t.spec_root(),
            i <= leaves@.len(),
        decreases leaves@.len() - i,
    {
        let b = t.branch(i);
        let computed = branch_root(&leaves[i], i, &b);
        if !computed.eq_hash(&root) {
            return false;
        }
        i = i + 1;
    }
    true
}

/// Recomputes the root from a leaf, its position, and a sibling path.
pub fn branch_root(leaf: &MerkleHash, idx: usize, branch: &MerkleBranch) -> (r: MerkleHash)
    ensures
        r@ == branch_root_of(leaf@, idx as nat, branch@),
{
    let mut cur: MerkleHash = *leaf;
    let mut j: usize = idx;
    let n = branch.0.len();
    let mut k: usize = 0;
    proof {
        assert(branch@.skip(0) =~= branch@);
    }
    while k < n
        invariant
            n == branch@.len(),
            k <= n,
            branch_root_of(leaf@, idx as nat, branch@) == branch_root_of(
                cur@,
                j as nat,
                branch@.skip(k as int),
            ),
        decreases n - k,
    {
        let sib = &branch.0[k];
        let h = if j % 2 == 0 {
            hash_pair(&cur.0, &sib.0)
        } else {
            hash_pair(&sib.0, &cur.0)
        };
        proof {
            assert(branch@.skip(k as int)[0] == sib@);
            assert(branch@.skip(k as int).drop_first() =~= branch@.skip(k + 1));
        }
        cur = MerkleHash(h);
        j = j / 2;
        k = k + 1;
    }
    proof {
        assert(branch@.skip(n as int).len() == 0);
    }
    cur
}

} // verus!
