//! Sparse quaternary digest tree over the balance leaves.
//!
//! The tree has a fixed shape: 64 leaves, 16 level-two nodes of four leaves
//! each, 4 level-one nodes and one root.  Every internal node holds the
//! digest of its four children, and `set` recomputes the digests on the path
//! from the touched leaf to the root, so the stored root always equals
//! `root_of` of the current leaf values.

use vstd::prelude::*;
use crate::digest::combine;
use crate::digest::combine4;
use crate::LEAF_COUNT;

verus! {

/// Digest of the level-two node `p` (covering leaves `4p .. 4p+4`).
pub open spec fn l2_digest(leaves: Seq<u64>, p: int) -> u64 {
    combine4(leaves[4 * p], leaves[4 * p + 1], leaves[4 * p + 2], leaves[4 * p + 3])
}

/// Digest of the level-one node `i` (covering level-two nodes `4i .. 4i+4`).
pub open spec fn l1_digest(leaves: Seq<u64>, i: int) -> u64 {
    combine4(
        l2_digest(leaves, 4 * i),
        l2_digest(leaves, 4 * i + 1),
        l2_digest(leaves, 4 * i + 2),
        l2_digest(leaves, 4 * i + 3),
    )
}

/// Root digest of a full assignment of the 64 leaves.
pub open spec fn root_of(leaves: Seq<u64>) -> u64 {
    combine4(
        l1_digest(leaves, 0),
        l1_digest(leaves, 1),
        l1_digest(leaves, 2),
        l1_digest(leaves, 3),
    )
}

/// The three siblings of the child in position `r` among four children.
pub open spec fn siblings3(a: u64, b: u64, c: u64, d: u64, r: int) -> Seq<u64> {
    if r == 0 {
        seq![b, c, d]
    } else if r == 1 {
        seq![a, c, d]
    } else if r == 2 {
        seq![a, b, d]
    } else {
        seq![a, b, c]
    }
}

/// Authentication path of leaf `x`: its three sibling leaves, then the three
/// sibling level-two digests, then the three sibling level-one digests.
pub open spec fn path_of(leaves: Seq<u64>, x: int) -> Seq<u64> {
    let p = x / 4;
    let i = x / 16;
    siblings3(leaves[4 * p], leaves[4 * p + 1], leaves[4 * p + 2], leaves[4 * p + 3], x % 4)
        + siblings3(
        l2_digest(leaves, 4 * i),
        l2_digest(leaves, 4 * i + 1),
        l2_digest(leaves, 4 * i + 2),
        l2_digest(leaves, 4 * i + 3),
        p % 4,
    ) + siblings3(
        l1_digest(leaves, 0),
        l1_digest(leaves, 1),
        l1_digest(leaves, 2),
        l1_digest(leaves, 3),
        i,
    )
}

/// Digest of a four-child group in which `v` stands at position `r` among
/// the three siblings `sibs`.
pub open spec fn with_siblings(v: u64, sibs: Seq<u64>, r: int) -> u64 {
    if r == 0 {
        combine4(v, sibs[0], sibs[1], sibs[2])
    } else if r == 1 {
        combine4(sibs[0], v, sibs[1], sibs[2])
    } else if r == 2 {
        combine4(sibs[0], sibs[1], v, sibs[2])
    } else {
        combine4(sibs[0], sibs[1], sibs[2], v)
    }
}

/// The root digest recomputed from one leaf value and its authentication
/// path.
pub open spec fn root_from_path(value: u64, x: int, path: Seq<u64>) -> u64 {
    let l2 = with_siblings(value, path.subrange(0, 3), x % 4);
    let l1 = with_siblings(l2, path.subrange(3, 6), (x / 4) % 4);
    with_siblings(l1, path.subrange(6, 9), x / 16)
}

/// An authentication path authenticates: rebuilding the root from leaf `x`
/// and its path gives the tree's root.
#[verifier::rlimit(100)]
pub proof fn lemma_path_authenticates(leaves: Seq<u64>, x: int)
    requires
        leaves.len() == 64,
        0 <= x < 64,
    ensures
        root_from_path(leaves[x], x, path_of(leaves, x)) == root_of(leaves),
{
    let p = x / 4;
    let i = x / 16;
    let path = path_of(leaves, x);
    assert(path.subrange(0, 3) =~= siblings3(
        leaves[4 * p],
        leaves[4 * p + 1],
        leaves[4 * p + 2],
        leaves[4 * p + 3],
        x % 4,
    ));
    assert(path.subrange(3, 6) =~= siblings3(
        l2_digest(leaves, 4 * i),
        l2_digest(leaves, 4 * i + 1),
        l2_digest(leaves, 4 * i + 2),
        l2_digest(leaves, 4 * i + 3),
        p % 4,
    ));
    assert(path.subrange(6, 9) =~= siblings3(
        l1_digest(leaves, 0),
        l1_digest(leaves, 1),
        l1_digest(leaves, 2),
        l1_digest(leaves, 3),
        i,
    ));
    assert(x == 4 * p + x % 4);
    assert(with_siblings(leaves[x], path.subrange(0, 3), x % 4) == l2_digest(leaves, p));
    assert(p == 4 * i + p % 4);
    assert(with_siblings(l2_digest(leaves, p), path.subrange(3, 6), p % 4) == l1_digest(
        leaves,
        i,
    ));
    assert(0 <= i < 4);
    assert(with_siblings(l1_digest(leaves, i), path.subrange(6, 9), i) == root_of(leaves));
}

/// Computes the digest of a group from a value, its three siblings and its
/// position.
fn group_digest(v: u64, s0: u64, s1: u64, s2: u64, r: usize) -> (d: u64)
    requires
        r < 4,
    ensures
        d == with_siblings(v, seq![s0, s1, s2], r as int),
{
    if r == 0 {
        combine(v, s0, s1, s2)
    } else if r == 1 {
        combine(s0, v, s1, s2)
    } else if r == 2 {
        combine(s0, s1, v, s2)
    } else {
        combine(s0, s1, s2, v)
    }
}

/// Checks one leaf value against a root digest using its authentication
/// path.
pub fn verify_leaf(root: u64, x: usize, value: u64, path: &Vec<u64>) -> (r: bool)
    requires
        x < 64,
        path@.len() == 9,
    ensures
        r == (root == root_from_path(value, x as int, path@)),
{
    let l2 = group_digest(value, path[0], path[1], path[2], x % 4);
    proof {
        assert(seq![path@[0], path@[1], path@[2]] =~= path@.subrange(0, 3));
        assert(seq![path@[3], path@[4], path@[5]] =~= path@.subrange(3, 6));
        assert(seq![path@[6], path@[7], path@[8]] =~= path@.subrange(6, 9));
    }
    let l1 = group_digest(l2, path[3], path[4], path[5], (x / 4) % 4);
    let r0 = group_digest(l1, path[6], path[7], path[8], x / 16);
    root == r0
}

/// Authenticated tree of 64 balance leaves.  `nodes[0]` is the root,
/// `nodes[1..5]` the level-one digests and `nodes[5..21]` the level-two
/// digests.
pub struct StateTree {
    leaves: Vec<u64>,
    nodes: Vec<u64>,
}

impl View for StateTree {
    type V = Seq<u64>;

    closed spec fn view(&self) -> Seq<u64> {
        self.leaves@
    }
}

impl StateTree {
    /// Every stored digest matches the digest of the stored leaves.
    pub closed spec fn wf(self) -> bool {
        &&& self.leaves@.len() == 64
        &&& self.nodes@.len() == 21
        &&& self.nodes@[0] == root_of(self.leaves@)
        &&& forall|i: int| 0 <= i < 4 ==> self.nodes@[1 + i] == l1_digest(self.leaves@, i)
        &&& forall|p: int| 0 <= p < 16 ==> self.nodes@[5 + p] == l2_digest(self.leaves@, p)
    }

    /// The tree with every leaf zero.
    pub fn new() -> (t: StateTree)
        ensures
            t.wf(),
            t@ == Seq::new(64, |i: int| 0u64),
    {
        let mut leaves: Vec<u64> = Vec::new();
        let mut k: usize = 0;
        while k < LEAF_COUNT
            invariant
                k <= 64,
                leaves@.len() == k,
                forall|j: int| 0 <= j < k ==> leaves@[j] == 0u64,
            decreases 64 - k,
        {
            leaves.push(0);
            k = k + 1;
        }
        let z2 = combine(0, 0, 0, 0);
        let z1 = combine(z2, z2, z2, z2);
        let z0 = combine(z1, z1, z1, z1);
        let mut nodes: Vec<u64> = Vec::new();
        nodes.push(z0);
        let mut k1: usize = 0;
        while k1 < 4
            invariant
                k1 <= 4,
                nodes@.len() == 1 + k1,
                nodes@[0] == z0,
                forall|j: int| 1 <= j < 1 + k1 ==> nodes@[j] == z1,
            decreases 4 - k1,
        {
            nodes.push(z1);
            k1 = k1 + 1;
        }
        let mut k2: usize = 0;
        while k2 < 16
            invariant
                k2 <= 16,
                nodes@.len() == 5 + k2,
                nodes@[0] == z0,
                forall|j: int| 1 <= j < 5 ==> nodes@[j] == z1,
                forall|j: int| 5 <= j < 5 + k2 ==> nodes@[j] == z2,
            decreases 16 - k2,
        {
            nodes.push(z2);
            k2 = k2 + 1;
        }
        let t = StateTree { leaves, nodes };
        proof {
            assert(t.leaves@ =~= Seq::new(64, |i: int| 0u64));
            assert forall|p: int| 0 <= p < 16 implies t.nodes@[5 + p] == l2_digest(
                t.leaves@,
                p,
            ) by {
                assert(t.leaves@[4 * p] == 0u64);
                assert(t.leaves@[4 * p + 1] == 0u64);
                assert(t.leaves@[4 * p + 2] == 0u64);
                assert(t.leaves@[4 * p + 3] == 0u64);
            }
            assert forall|i: int| 0 <= i < 4 implies t.nodes@[1 + i] == l1_digest(
                t.leaves@,
                i,
            ) by {
                assert(l2_digest(t.leaves@, 4 * i) == z2);
                assert(l2_digest(t.leaves@, 4 * i + 1) == z2);
                assert(l2_digest(t.leaves@, 4 * i + 2) == z2);
                assert(l2_digest(t.leaves@, 4 * i + 3) == z2);
            }
            assert(l1_digest(t.leaves@, 0) == z1);
            assert(l1_digest(t.leaves@, 1) == z1);
            assert(l1_digest(t.leaves@, 2) == z1);
            assert(l1_digest(t.leaves@, 3) == z1);
        }
        t
    }

    /// Value of leaf `x`; zero until something was stored there.
    pub fn get(&self, x: usize) -> (v: u64)
        requires
            self.wf(),
            x < 64,
        ensures
            v == self@[x as int],
    {
        self.leaves[x]
    }

    /// Current root digest.
    pub fn root(&self) -> (r: u64)
        requires
            self.wf(),
        ensures
            r == root_of(self@),
    {
        self.nodes[0]
    }

    /// Stores `v` at leaf `x`, returns the old value, and recomputes the
    /// digests on the path from `x` to the root.
    #[verifier::rlimit(30)]
    pub fn set(&mut self, x: usize, v: u64) -> (old_v: u64)
        requires
            old(self).wf(),
            x < 64,
        ensures
            final(self).wf(),
            final(self)@ == old(self)@.update(x as int, v),
            old_v == old(self)@[x as int],
    {
        let ghost ol = self.leaves@;
        let old_v = self.leaves[x];
        self.leaves.set(x, v);
        let ghost nl = self.leaves@;
        proof {
            lemma_untouched_groups(ol, nl, x as int);
        }
        let p = x / 4;
        let n2 = combine(
            self.leaves[4 * p],
            self.leaves[4 * p + 1],
            self.leaves[4 * p + 2],
            self.leaves[4 * p + 3],
        );
        self.nodes.set(5 + p, n2);
        let i = x / 16;
        proof {
            assert(x as int / 16 == (x as int / 4) / 4);
        }
        let n1 = combine(
            self.nodes[5 + 4 * i],
            self.nodes[5 + 4 * i + 1],
            self.nodes[5 + 4 * i + 2],
            self.nodes[5 + 4 * i + 3],
        );
        self.nodes.set(1 + i, n1);
        let n0 = combine(self.nodes[1], self.nodes[2], self.nodes[3], self.nodes[4]);
        self.nodes.set(0, n0);
        proof {
            assert(nl =~= ol.update(x as int, v));
        }
        old_v
    }

    /// Authentication path of leaf `x` against the current leaves.
    pub fn auth_path(&self, x: usize) -> (path: Vec<u64>)
        requires
            self.wf(),
            x < 64,
        ensures
            path@ == path_of(self@, x as int),
            path@.len() == 9,
    {
        let p = x / 4;
        let i = x / 16;
        proof {
            assert(x as int / 16 == (x as int / 4) / 4);
        }
        let mut path: Vec<u64> = Vec::new();
        push_siblings(
            &mut path,
            self.leaves[4 * p],
            self.leaves[4 * p + 1],
            self.leaves[4 * p + 2],
            self.leaves[4 * p + 3],
            x % 4,
        );
        push_siblings(
            &mut path,
            self.nodes[5 + 4 * i],
            self.nodes[5 + 4 * i + 1],
            self.nodes[5 + 4 * i + 2],
            self.nodes[5 + 4 * i + 3],
            p % 4,
        );
        push_siblings(&mut path, self.nodes[1], self.nodes[2], self.nodes[3], self.nodes[4], i);
        path
    }

    /// A structurally equal copy, backing a round's buffered mirror.
    pub fn duplicate(&self) -> (t: StateTree)
        requires
            self.wf(),
        ensures
            t.wf(),
            t@ == self@,
    {
        let mut leaves: Vec<u64> = Vec::new();
        let mut k: usize = 0;
        while k < LEAF_COUNT
            invariant
                k <= 64,
                self.wf(),
                leaves@ == self.leaves@.take(k as int),
            decreases 64 - k,
        {
            leaves.push(self.leaves[k]);
            k = k + 1;
        }
        let mut nodes: Vec<u64> = Vec::new();
        let mut j: usize = 0;
        while j < 21
            invariant
                j <= 21,
                self.wf(),
                nodes@ == self.nodes@.take(j as int),
            decreases 21 - j,
        {
            nodes.push(self.nodes[j]);
            j = j + 1;
        }
        proof {
            assert(leaves@ =~= self.leaves@);
            assert(nodes@ =~= self.nodes@);
        }
        StateTree { leaves, nodes }
    }
}

/// Appends the three siblings of position `r` among `a, b, c, d`.
fn push_siblings(out: &mut Vec<u64>, a: u64, b: u64, c: u64, d: u64, r: usize)
    requires
        r < 4,
    ensures
        final(out)@ == old(out)@ + siblings3(a, b, c, d, r as int),
{
    if r == 0 {
        out.push(b);
        out.push(c);
        out.push(d);
    } else if r == 1 {
        out.push(a);
        out.push(c);
        out.push(d);
    } else if r == 2 {
        out.push(a);
        out.push(b);
        out.push(d);
    } else {
        out.push(a);
        out.push(b);
        out.push(c);
    }
    proof {
        assert(out@ =~= old(out)@ + siblings3(a, b, c, d, r as int));
    }
}

/// The root is a function of the leaves: a changed root needs a changed
/// leaf.  (The converse would be collision freedom of the digest and is not
/// claimed.)
pub proof fn lemma_root_change_needs_leaf_change(a: Seq<u64>, b: Seq<u64>)
    ensures
        root_of(a) != root_of(b) ==> a != b,
{
}

/// A single leaf update leaves the digest of every level-two group it does
/// not belong to, and of every level-one group not above it, unchanged.
proof fn lemma_untouched_groups(ol: Seq<u64>, nl: Seq<u64>, x: int)
    requires
        ol.len() == 64,
        nl.len() == 64,
        0 <= x < 64,
        forall|j: int| 0 <= j < 64 && j != x ==> nl[j] == ol[j],
    ensures
        forall|q: int| 0 <= q < 16 && q != x / 4 ==> l2_digest(nl, q) == l2_digest(ol, q),
        forall|k: int| 0 <= k < 4 && k != x / 16 ==> l1_digest(nl, k) == l1_digest(ol, k),
{
    assert forall|q: int| 0 <= q < 16 && q != x / 4 implies l2_digest(nl, q) == l2_digest(
        ol,
        q,
    ) by {
        assert(4 * q != x && 4 * q + 1 != x && 4 * q + 2 != x && 4 * q + 3 != x);
    }
    assert forall|k: int| 0 <= k < 4 && k != x / 16 implies l1_digest(nl, k) == l1_digest(
        ol,
        k,
    ) by {
        assert(x / 16 == (x / 4) / 4);
        assert(4 * k != x / 4 && 4 * k + 1 != x / 4 && 4 * k + 2 != x / 4 && 4 * k + 3 != x / 4);
    }
}

} // verus!
