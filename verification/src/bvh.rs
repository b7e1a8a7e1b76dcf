//! Topology of a dynamic bounding volume hierarchy (after Erin Catto's
//! "Dynamic BVH" talk): a binary tree whose leaves carry data and whose inner
//! nodes always have two children. This module owns the links between nodes;
//! the bounding boxes and the surface-area heuristic that chooses where a leaf
//! goes and which rotation to make are computed by the caller, which then asks
//! this module to make the change.
use vstd::prelude::*;
use slab::Slab;
use crate::bvh_store::{BvhNode, slab_nodes, slab_vacant_key, slab_new, slab_len, slab_contains, slab_insert, slab_remove, slab_node, slab_set, slab_clear};

verus! {

/// The four tree rotations at a node: a child of the node trades places with a
/// grandchild under the node's other child.
#[derive(Debug, Clone, Copy, PartialEq, Eq, Structural)]
pub enum Rotation {
    /// The left child moves into the left slot of the right child, whose old
    /// left child becomes the node's left child.
    LeftToRightLeft,
    /// The left child moves into the right slot of the right child, whose old
    /// right child becomes the node's left child.
    LeftToRightRight,
    /// The right child moves into the left slot of the left child, whose old
    /// left child becomes the node's right child.
    RightToLeftLeft,
    /// The right child moves into the right slot of the left child, whose old
    /// right child becomes the node's right child.
    RightToLeftRight,
}

/// Whether the child that stays (the pivot) is the right child.
pub open spec fn pivot_is_right(r: Rotation) -> bool {
    r == Rotation::LeftToRightLeft || r == Rotation::LeftToRightRight
}

/// Whether the grandchild that moves up is the right child of the pivot.
pub open spec fn grandchild_is_right(r: Rotation) -> bool {
    r == Rotation::LeftToRightRight || r == Rotation::RightToLeftRight
}

pub open spec fn child_on(n: BvhNode, right: bool) -> usize {
    if right {
        n.right
    } else {
        n.left
    }
}

pub open spec fn with_child(n: BvhNode, right: bool, c: usize) -> BvhNode {
    if right {
        BvhNode { right: c, ..n }
    } else {
        BvhNode { left: c, ..n }
    }
}

pub open spec fn with_parent(n: BvhNode, p: Option<usize>) -> BvhNode {
    BvhNode { parent: p, ..n }
}

/// The data held by the leaves, by node key.
pub open spec fn leaf_data(m: Map<usize, BvhNode>) -> Map<usize, u64> {
    Map::new(|k: usize| m.dom().contains(k) && m[k].data is Some, |k: usize| m[k].data->0)
}

/// An inner node's children are two distinct nodes that name it as parent.
pub open spec fn inner_ok(m: Map<usize, BvhNode>, i: usize) -> bool {
    &&& m.dom().contains(m[i].left)
    &&& m.dom().contains(m[i].right)
    &&& m[i].left != m[i].right
    &&& m[m[i].left].parent == Some(i)
    &&& m[m[i].right].parent == Some(i)
}

/// A node's parent is an inner node that has it as a child.
pub open spec fn parent_ok(m: Map<usize, BvhNode>, i: usize) -> bool {
    let p = m[i].parent->0;
    &&& m.dom().contains(p)
    &&& m[p].data is None
    &&& (m[p].left == i || m[p].right == i)
}

/// The shape of a hierarchy: finite, rooted at `root` when not empty, every
/// other node has a parent, and parent and child links agree.
pub open spec fn tree_shape(m: Map<usize, BvhNode>, root: usize) -> bool {
    &&& m.dom().finite()
    &&& m.dom().len() > 0 ==> m.dom().contains(root) && m[root].parent is None
    &&& forall|i: usize| #[trigger] m.dom().contains(i) && i != root ==> m[i].parent is Some
    &&& forall|i: usize| #[trigger] m.dom().contains(i) && m[i].data is None ==> inner_ok(m, i)
    &&& forall|i: usize| #[trigger] m.dom().contains(i) && m[i].parent is Some ==> parent_ok(m, i)
}

/// Ranks that strictly decrease from parent to child and are bounded by the
/// root's rank: they rule out cycles of parent links.
pub open spec fn ranked(m: Map<usize, BvhNode>, root: usize, rank: Map<usize, nat>) -> bool {
    &&& forall|i: usize| #[trigger] m.dom().contains(i) ==> rank[i] <= rank[root]
    &&& forall|i: usize| #[trigger] m.dom().contains(i) && m[i].parent is Some ==> rank[i]
        < rank[m[i].parent->0]
}

/// The nodes after a leaf holding `data` is put beside `sibling` under a new
/// inner node `p`, which takes the sibling's place under the sibling's parent.
pub open spec fn attached(
    m: Map<usize, BvhNode>,
    leaf: usize,
    data: u64,
    sibling: usize,
    p: usize,
) -> Map<usize, BvhNode> {
    let s = m[sibling];
    let base = m.insert(leaf, BvhNode { data: Some(data), parent: Some(p), left: 0, right: 0 }).insert(
        p,
        BvhNode { data: None, parent: s.parent, left: leaf, right: sibling },
    ).insert(sibling, with_parent(s, Some(p)));
    match s.parent {
        None => base,
        Some(o) => base.insert(o, with_child(m[o], m[o].right == sibling, p)),
    }
}

/// The nodes after the leaf `index` and its parent are taken out and the
/// leaf's sibling takes the parent's place.
pub open spec fn detached(m: Map<usize, BvhNode>, index: usize) -> Map<usize, BvhNode> {
    match m[index].parent {
        None => m.remove(index),
        Some(p) => {
            let gp = m[p].parent;
            let y = if m[p].left == index {
                m[p].right
            } else {
                m[p].left
            };
            let base = m.insert(y, with_parent(m[y], gp));
            let linked = match gp {
                None => base,
                Some(g) => base.insert(g, with_child(m[g], m[g].right == p, y)),
            };
            linked.remove(p).remove(index)
        },
    }
}

/// The nodes after a rotation at `index`.
pub open spec fn rotated(m: Map<usize, BvhNode>, index: usize, r: Rotation) -> Map<usize, BvhNode> {
    let pr = pivot_is_right(r);
    let gr = grandchild_is_right(r);
    let n = m[index];
    let x = child_on(n, pr);
    let y = child_on(n, !pr);
    let g = child_on(m[x], gr);
    m.insert(x, with_child(m[x], gr, y)).insert(y, with_parent(m[y], Some(x))).insert(
        index,
        with_child(n, !pr, g),
    ).insert(g, with_parent(m[g], Some(index)))
}

/// Ranks after `attached`: every old rank doubles, the new inner node sits just
/// above the sibling and the leaf gets the lowest rank.
pub open spec fn attach_rank(r0: Map<usize, nat>, leaf: usize, np: usize, sibling: usize) -> Map<
    usize,
    nat,
> {
    Map::new(
        |k: usize| true,
        |k: usize|
            if k == leaf {
                0nat
            } else if k == np {
                2 * r0[sibling] + 1
            } else {
                2 * r0[k]
            },
    )
}

#[verifier::spinoff_prover]
#[verifier::rlimit(100)]
proof fn lemma_attached_wf(
    m0: Map<usize, BvhNode>,
    root0: usize,
    r0: Map<usize, nat>,
    leaf: usize,
    data: u64,
    sibling: usize,
    np: usize,
)
    requires
        tree_shape(m0, root0),
        ranked(m0, root0, r0),
        m0.dom().contains(sibling),
        !m0.dom().contains(leaf),
        !m0.dom().contains(np),
        leaf != np,
    ensures
        ({
            let m = attached(m0, leaf, data, sibling, np);
            let root1 = if m0[sibling].parent is None {
                np
            } else {
                root0
            };
            &&& tree_shape(m, root1)
            &&& ranked(m, root1, attach_rank(r0, leaf, np, sibling))
            &&& leaf_data(m) == leaf_data(m0).insert(leaf, data)
            &&& m.dom() == m0.dom().insert(leaf).insert(np)
        }),
{
    let m = attached(m0, leaf, data, sibling, np);
    let r1 = attach_rank(r0, leaf, np, sibling);
    let s = m0[sibling];
    let root1 = if s.parent is None {
        np
    } else {
        root0
    };
    let leaf_node = BvhNode { data: Some(data), parent: None, left: 0, right: 0 };
    assert(m0.dom().contains(root0));
    if s.parent is None {
        assert(sibling == root0);
    } else {
        let o = s.parent->0;
        assert(parent_ok(m0, sibling));
        assert(o != sibling);
        assert(r0[sibling] < r0[o]);
    }
    assert(m.dom() =~= m0.dom().insert(leaf).insert(np));
    lemma_fresh_len(m0, leaf, leaf_node);
    lemma_fresh_len(m0.insert(leaf, leaf_node), np, leaf_node);
    assert(m.dom().len() > 0);
    assert forall|i: usize| #[trigger] m.dom().contains(i) && i != root1 implies m[i].parent is Some by {
    }
    assert forall|i: usize| #[trigger] m.dom().contains(i) && m[i].data is None implies inner_ok(m, i) by {
        if i != np && i != leaf {
            assert(m0.dom().contains(i));
            assert(inner_ok(m0, i));
            if s.parent != Some(i) {
                assert(m0[i].left != sibling);
                assert(m0[i].right != sibling);
            }
        }
    }
    assert forall|i: usize| #[trigger] m.dom().contains(i) && m[i].parent is Some implies parent_ok(m, i) by {
        if i != np && i != leaf && i != sibling {
            assert(m0.dom().contains(i));
            assert(parent_ok(m0, i));
        } else if i == np {
            assert(parent_ok(m0, sibling));
        }
    }
    assert forall|i: usize| #[trigger] m.dom().contains(i) && m[i].parent is Some implies r1[i] < r1[m[i].parent->0] by {
        if i != np && i != leaf && i != sibling {
            assert(m0.dom().contains(i));
            assert(parent_ok(m0, i));
            assert(r0[i] < r0[m0[i].parent->0]);
        }
    }
    assert forall|i: usize| #[trigger] m.dom().contains(i) implies r1[i] <= r1[root1] by {
        if i != np && i != leaf {
            assert(r0[i] <= r0[root0]);
        }
        if s.parent is Some {
            assert(r0[s.parent->0] <= r0[root0]);
        }
    }
    assert(leaf_data(m) =~= leaf_data(m0).insert(leaf, data));
}

/// Ranks after `detached`: unchanged, except that a sibling that becomes the
/// root takes the old root's rank.
pub open spec fn detach_rank(m0: Map<usize, BvhNode>, r0: Map<usize, nat>, index: usize) -> Map<
    usize,
    nat,
> {
    let p = m0[index].parent->0;
    let y = if m0[p].left == index {
        m0[p].right
    } else {
        m0[p].left
    };
    if m0[p].parent is None {
        r0.insert(y, r0[p])
    } else {
        r0
    }
}

/// The node under key `k` after `detached`.
pub open spec fn detached_entry(m0: Map<usize, BvhNode>, index: usize, k: usize) -> BvhNode {
    let p = m0[index].parent->0;
    let gp = m0[p].parent;
    let y = if m0[p].left == index {
        m0[p].right
    } else {
        m0[p].left
    };
    if k == y {
        with_parent(m0[y], gp)
    } else if gp == Some(k) {
        with_child(m0[k], m0[k].right == p, y)
    } else {
        m0[k]
    }
}

/// The facts about a leaf with a parent that `detached` relies on.
pub open spec fn detach_ready(m0: Map<usize, BvhNode>, root0: usize, r0: Map<usize, nat>, index: usize) -> bool {
    let p = m0[index].parent->0;
    let gp = m0[p].parent;
    let y = if m0[p].left == index {
        m0[p].right
    } else {
        m0[p].left
    };
    &&& tree_shape(m0, root0)
    &&& ranked(m0, root0, r0)
    &&& m0.dom().contains(index)
    &&& m0[index].data is Some
    &&& m0[index].parent is Some
    &&& m0.dom().contains(p)
    &&& inner_ok(m0, p)
    &&& p != index
    &&& y != index
    &&& y != p
    &&& m0[y].parent == Some(p)
    &&& r0[y] < r0[p]
    &&& (gp is None ==> p == root0)
    &&& (gp is Some ==> {
        &&& m0.dom().contains(gp->0)
        &&& inner_ok(m0, gp->0)
        &&& parent_ok(m0, p)
        &&& r0[p] < r0[gp->0]
        &&& gp->0 != y
        &&& gp->0 != index
        &&& gp->0 != p
    })
}

#[verifier::spinoff_prover]
#[verifier::rlimit(100)]
proof fn lemma_detach_ready(m0: Map<usize, BvhNode>, root0: usize, r0: Map<usize, nat>, index: usize)
    requires
        tree_shape(m0, root0),
        ranked(m0, root0, r0),
        m0.dom().contains(index),
        m0[index].data is Some,
        m0[index].parent is Some,
    ensures
        detach_ready(m0, root0, r0, index),
{
    let p = m0[index].parent->0;
    assert(parent_ok(m0, index));
    assert(inner_ok(m0, p));
    if m0[p].parent is Some {
        assert(parent_ok(m0, p));
        assert(inner_ok(m0, m0[p].parent->0));
    } else {
        assert(m0.dom().contains(root0));
    }
}

#[verifier::spinoff_prover]
#[verifier::rlimit(100)]
proof fn lemma_detached_entries(m0: Map<usize, BvhNode>, root0: usize, r0: Map<usize, nat>, index: usize)
    requires
        detach_ready(m0, root0, r0, index),
    ensures
        detached(m0, index).dom() == m0.dom().remove(m0[index].parent->0).remove(index),
        forall|k: usize| #[trigger]
            detached(m0, index).dom().contains(k) ==> detached(m0, index)[k] == detached_entry(
                m0,
                index,
                k,
            ),
{
    let m = detached(m0, index);
    assert(m.dom() =~= m0.dom().remove(m0[index].parent->0).remove(index));
}

/// The root after `detached`.
pub open spec fn detached_root(m0: Map<usize, BvhNode>, root0: usize, index: usize) -> usize {
    let p = m0[index].parent->0;
    if m0[p].parent is None {
        if m0[p].left == index {
            m0[p].right
        } else {
            m0[p].left
        }
    } else {
        root0
    }
}

#[verifier::spinoff_prover]
#[verifier::rlimit(100)]
proof fn lemma_detached_roots(
    m0: Map<usize, BvhNode>,
    root0: usize,
    r0: Map<usize, nat>,
    index: usize,
    m: Map<usize, BvhNode>,
)
    requires
        detach_ready(m0, root0, r0, index),
        m.dom() == m0.dom().remove(m0[index].parent->0).remove(index),
        forall|k: usize| #[trigger] m.dom().contains(k) ==> m[k] == detached_entry(m0, index, k),
    ensures
        m.dom().finite(),
        m.dom().len() > 0,
        m.dom().contains(detached_root(m0, root0, index)),
        m[detached_root(m0, root0, index)].parent is None,
        forall|i: usize| #[trigger] m.dom().contains(i) && i != detached_root(m0, root0, index) ==> m[i].parent is Some,
{
    let p = m0[index].parent->0;
    let gp = m0[p].parent;
    let y = if m0[p].left == index {
        m0[p].right
    } else {
        m0[p].left
    };
    let root1 = if gp is None {
        y
    } else {
        root0
    };
    assert(m.dom().contains(y));
    assert forall|i: usize| #[trigger] m.dom().contains(i) && i != root1 implies m[i].parent is Some by {
        assert(m0.dom().contains(i));
    }
}

#[verifier::spinoff_prover]
#[verifier::rlimit(100)]
proof fn lemma_detached_inner(
    m0: Map<usize, BvhNode>,
    root0: usize,
    r0: Map<usize, nat>,
    index: usize,
    m: Map<usize, BvhNode>,
)
    requires
        detach_ready(m0, root0, r0, index),
        m.dom() == m0.dom().remove(m0[index].parent->0).remove(index),
        forall|k: usize| #[trigger] m.dom().contains(k) ==> m[k] == detached_entry(m0, index, k),
    ensures
        forall|i: usize| #[trigger] m.dom().contains(i) && m[i].data is None ==> inner_ok(m, i),
{
    let p = m0[index].parent->0;
    let gp = m0[p].parent;
    let y = if m0[p].left == index {
        m0[p].right
    } else {
        m0[p].left
    };
    let root1 = if gp is None {
        y
    } else {
        root0
    };
    assert forall|i: usize| #[trigger] m.dom().contains(i) && m[i].data is None implies inner_ok(m, i) by {
        assert(m0.dom().contains(i));
        assert(inner_ok(m0, i));
        let l = m0[i].left;
        let r = m0[i].right;
        if gp == Some(i) {
            let c = if l == p {
                r
            } else {
                l
            };
            assert(m0[c].parent == Some(i));
            assert(m.dom().contains(c));
        } else {
            assert(l != p && r != p);
            assert(l != index && r != index);
            assert(m.dom().contains(l));
            assert(m.dom().contains(r));
            assert(l != y || i == p);
            assert(r != y || i == p);
        }
    }
}

#[verifier::spinoff_prover]
#[verifier::rlimit(100)]
proof fn lemma_detached_parents(
    m0: Map<usize, BvhNode>,
    root0: usize,
    r0: Map<usize, nat>,
    index: usize,
    m: Map<usize, BvhNode>,
)
    requires
        detach_ready(m0, root0, r0, index),
        m.dom() == m0.dom().remove(m0[index].parent->0).remove(index),
        forall|k: usize| #[trigger] m.dom().contains(k) ==> m[k] == detached_entry(m0, index, k),
    ensures
        forall|i: usize| #[trigger] m.dom().contains(i) && m[i].parent is Some ==> parent_ok(m, i),
{
    let p = m0[index].parent->0;
    let gp = m0[p].parent;
    let y = if m0[p].left == index {
        m0[p].right
    } else {
        m0[p].left
    };
    let root1 = if gp is None {
        y
    } else {
        root0
    };
    assert forall|i: usize| #[trigger] m.dom().contains(i) && m[i].parent is Some implies parent_ok(m, i) by {
        assert(m0.dom().contains(i));
        if i != y {
            assert(parent_ok(m0, i));
            let q = m0[i].parent->0;
            assert(q != p);
            assert(q != index);
        }
    }
}

#[verifier::spinoff_prover]
#[verifier::rlimit(100)]
proof fn lemma_detached_ranks(
    m0: Map<usize, BvhNode>,
    root0: usize,
    r0: Map<usize, nat>,
    index: usize,
    m: Map<usize, BvhNode>,
)
    requires
        detach_ready(m0, root0, r0, index),
        m.dom() == m0.dom().remove(m0[index].parent->0).remove(index),
        forall|k: usize| #[trigger] m.dom().contains(k) ==> m[k] == detached_entry(m0, index, k),
    ensures
        ranked(m, detached_root(m0, root0, index), detach_rank(m0, r0, index)),
{
    let p = m0[index].parent->0;
    let gp = m0[p].parent;
    let y = if m0[p].left == index {
        m0[p].right
    } else {
        m0[p].left
    };
    let root1 = if gp is None {
        y
    } else {
        root0
    };
    let r1 = detach_rank(m0, r0, index);
    assert forall|i: usize| #[trigger] m.dom().contains(i) && m[i].parent is Some implies r1[i] < r1[m[i].parent->0] by {
        assert(m0.dom().contains(i));
        if i != y {
            assert(parent_ok(m0, i));
            assert(r0[i] < r0[m0[i].parent->0]);
        }
    }
    assert forall|i: usize| #[trigger] m.dom().contains(i) implies r1[i] <= r1[root1] by {
        assert(m0.dom().contains(i));
        assert(r0[i] <= r0[root0]);
    }
}

#[verifier::spinoff_prover]
#[verifier::rlimit(100)]
proof fn lemma_detached_shape(
    m0: Map<usize, BvhNode>,
    root0: usize,
    r0: Map<usize, nat>,
    index: usize,
    m: Map<usize, BvhNode>,
)
    requires
        detach_ready(m0, root0, r0, index),
        m.dom() == m0.dom().remove(m0[index].parent->0).remove(index),
        forall|k: usize| #[trigger] m.dom().contains(k) ==> m[k] == detached_entry(m0, index, k),
    ensures
        tree_shape(m, detached_root(m0, root0, index)),
        ranked(m, detached_root(m0, root0, index), detach_rank(m0, r0, index)),
{
    lemma_detached_roots(m0, root0, r0, index, m);
    lemma_detached_inner(m0, root0, r0, index, m);
    lemma_detached_parents(m0, root0, r0, index, m);
    lemma_detached_ranks(m0, root0, r0, index, m);
}

#[verifier::spinoff_prover]
#[verifier::rlimit(100)]
proof fn lemma_detached_leaves(m0: Map<usize, BvhNode>, root0: usize, r0: Map<usize, nat>, index: usize)
    requires
        detach_ready(m0, root0, r0, index),
        detached(m0, index).dom() == m0.dom().remove(m0[index].parent->0).remove(index),
        forall|k: usize| #[trigger]
            detached(m0, index).dom().contains(k) ==> detached(m0, index)[k] == detached_entry(
                m0,
                index,
                k,
            ),
    ensures
        leaf_data(detached(m0, index)) == leaf_data(m0).remove(index),
{
    let m = detached(m0, index);
    let p = m0[index].parent->0;
    assert forall|k: usize| #[trigger] m.dom().contains(k) implies m[k].data == m0[k].data by {
    }
    assert(leaf_data(m).dom() =~= leaf_data(m0).remove(index).dom());
    assert(leaf_data(m) =~= leaf_data(m0).remove(index));
}

#[verifier::spinoff_prover]
#[verifier::rlimit(100)]
proof fn lemma_detached_wf(m0: Map<usize, BvhNode>, root0: usize, r0: Map<usize, nat>, index: usize)
    requires
        tree_shape(m0, root0),
        ranked(m0, root0, r0),
        m0.dom().contains(index),
        m0[index].data is Some,
        m0[index].parent is Some,
    ensures
        tree_shape(detached(m0, index), detached_root(m0, root0, index)),
        ranked(detached(m0, index), detached_root(m0, root0, index), detach_rank(m0, r0, index)),
        leaf_data(detached(m0, index)) == leaf_data(m0).remove(index),
        detached(m0, index).dom() == m0.dom().remove(m0[index].parent->0).remove(index),
        m0.dom().contains(m0[index].parent->0),
        m0[index].parent->0 != index,
{
    lemma_detach_ready(m0, root0, r0, index);
    lemma_detached_entries(m0, root0, r0, index);
    lemma_detached_shape(m0, root0, r0, index, detached(m0, index));
    lemma_detached_leaves(m0, root0, r0, index);
}

/// The node under key `k` after a rotation at `index`.
pub open spec fn rotated_entry(m0: Map<usize, BvhNode>, index: usize, r: Rotation, k: usize) -> BvhNode {
    let pr = pivot_is_right(r);
    let gr = grandchild_is_right(r);
    let n = m0[index];
    let x = child_on(n, pr);
    let y = child_on(n, !pr);
    let g = child_on(m0[x], gr);
    if k == g {
        with_parent(m0[g], Some(index))
    } else if k == index {
        with_child(n, !pr, g)
    } else if k == y {
        with_parent(m0[y], Some(x))
    } else if k == x {
        with_child(m0[x], gr, y)
    } else {
        m0[k]
    }
}

/// Ranks after a rotation: every old rank doubles and the pivot sits just
/// above its two new children.
pub open spec fn rotate_rank(m0: Map<usize, BvhNode>, r0: Map<usize, nat>, index: usize, r: Rotation) -> Map<
    usize,
    nat,
> {
    let pr = pivot_is_right(r);
    let gr = grandchild_is_right(r);
    let x = child_on(m0[index], pr);
    let y = child_on(m0[index], !pr);
    let g2 = child_on(m0[x], !gr);
    let top = if r0[y] >= r0[g2] {
        2 * r0[y] + 1
    } else {
        2 * r0[g2] + 1
    };
    Map::new(
        |k: usize| true,
        |k: usize|
            if k == x {
                top
            } else {
                2 * r0[k]
            },
    )
}

/// What a rotation at `index` relies on.
pub open spec fn rotate_ready(
    m0: Map<usize, BvhNode>,
    root0: usize,
    r0: Map<usize, nat>,
    index: usize,
    r: Rotation,
) -> bool {
    let pr = pivot_is_right(r);
    let gr = grandchild_is_right(r);
    let x = child_on(m0[index], pr);
    let y = child_on(m0[index], !pr);
    let g = child_on(m0[x], gr);
    let g2 = child_on(m0[x], !gr);
    &&& tree_shape(m0, root0)
    &&& ranked(m0, root0, r0)
    &&& m0.dom().contains(index)
    &&& m0[index].data is None
    &&& inner_ok(m0, index)
    &&& m0[x].data is None
    &&& inner_ok(m0, x)
    &&& m0.dom().contains(x)
    &&& m0.dom().contains(y)
    &&& m0.dom().contains(g)
    &&& m0.dom().contains(g2)
    &&& x != y
    &&& g != g2
    &&& index != x && index != y && index != g && index != g2
    &&& x != g && x != g2
    &&& y != g && y != g2
    &&& m0[x].parent == Some(index)
    &&& m0[y].parent == Some(index)
    &&& m0[g].parent == Some(x)
    &&& m0[g2].parent == Some(x)
    &&& r0[g] < r0[x]
    &&& r0[g2] < r0[x]
    &&& r0[x] < r0[index]
    &&& r0[y] < r0[index]
}

#[verifier::spinoff_prover]
#[verifier::rlimit(100)]
proof fn lemma_rotate_ready(m0: Map<usize, BvhNode>, root0: usize, r0: Map<usize, nat>, index: usize, r: Rotation)
    requires
        tree_shape(m0, root0),
        ranked(m0, root0, r0),
        m0.dom().contains(index),
        m0[index].data is None,
        m0[child_on(m0[index], pivot_is_right(r))].data is None,
    ensures
        rotate_ready(m0, root0, r0, index, r),
{
    let pr = pivot_is_right(r);
    let gr = grandchild_is_right(r);
    assert(inner_ok(m0, index));
    let x = child_on(m0[index], pr);
    let y = child_on(m0[index], !pr);
    assert(inner_ok(m0, x));
    let g = child_on(m0[x], gr);
    let g2 = child_on(m0[x], !gr);
    assert(parent_ok(m0, x));
    assert(parent_ok(m0, y));
    assert(parent_ok(m0, g));
    assert(parent_ok(m0, g2));
}

#[verifier::spinoff_prover]
#[verifier::rlimit(100)]
proof fn lemma_rotated_entries(m0: Map<usize, BvhNode>, root0: usize, r0: Map<usize, nat>, index: usize, r: Rotation)
    requires
        rotate_ready(m0, root0, r0, index, r),
    ensures
        rotated(m0, index, r).dom() == m0.dom(),
        forall|k: usize| #[trigger]
            rotated(m0, index, r).dom().contains(k) ==> rotated(m0, index, r)[k] == rotated_entry(
                m0,
                index,
                r,
                k,
            ),
{
    let pr = pivot_is_right(r);
    let gr = grandchild_is_right(r);
    let x = child_on(m0[index], pr);
    let y = child_on(m0[index], !pr);
    let g = child_on(m0[x], gr);
    assert(rotated(m0, index, r).dom() =~= m0.dom().insert(x).insert(y).insert(index).insert(g));
    assert(rotated(m0, index, r).dom() =~= m0.dom());
}

#[verifier::spinoff_prover]
#[verifier::rlimit(100)]
proof fn lemma_rotated_inner(
    m0: Map<usize, BvhNode>,
    root0: usize,
    r0: Map<usize, nat>,
    index: usize,
    r: Rotation,
    m: Map<usize, BvhNode>,
)
    requires
        rotate_ready(m0, root0, r0, index, r),
        m.dom() == m0.dom(),
        forall|k: usize| #[trigger] m.dom().contains(k) ==> m[k] == rotated_entry(m0, index, r, k),
    ensures
        forall|i: usize| #[trigger] m.dom().contains(i) && m[i].data is None ==> inner_ok(m, i),
{
    let pr = pivot_is_right(r);
    let gr = grandchild_is_right(r);
    let x = child_on(m0[index], pr);
    let y = child_on(m0[index], !pr);
    let g = child_on(m0[x], gr);
    let g2 = child_on(m0[x], !gr);
    assert forall|i: usize| #[trigger] m.dom().contains(i) && m[i].data is None implies inner_ok(m, i) by {
        assert(inner_ok(m0, i));
        if i != index && i != x {
            let l = m0[i].left;
            let rr = m0[i].right;
            assert(l != x && rr != x);
            assert(l != y && rr != y);
            assert(l != g && rr != g);
        }
    }
}

#[verifier::spinoff_prover]
#[verifier::rlimit(100)]
proof fn lemma_rotated_parents(
    m0: Map<usize, BvhNode>,
    root0: usize,
    r0: Map<usize, nat>,
    index: usize,
    r: Rotation,
    m: Map<usize, BvhNode>,
)
    requires
        rotate_ready(m0, root0, r0, index, r),
        m.dom() == m0.dom(),
        forall|k: usize| #[trigger] m.dom().contains(k) ==> m[k] == rotated_entry(m0, index, r, k),
    ensures
        forall|i: usize| #[trigger] m.dom().contains(i) && m[i].parent is Some ==> parent_ok(m, i),
{
    let pr = pivot_is_right(r);
    let gr = grandchild_is_right(r);
    let x = child_on(m0[index], pr);
    let y = child_on(m0[index], !pr);
    let g = child_on(m0[x], gr);
    let g2 = child_on(m0[x], !gr);
    assert forall|i: usize| #[trigger] m.dom().contains(i) && m[i].parent is Some implies parent_ok(m, i) by {
        if i != g && i != y && i != x && i != g2 {
            assert(parent_ok(m0, i));
            let q = m0[i].parent->0;
            assert(q != index && q != x);
        } else if i == x || i == g2 {
            assert(parent_ok(m0, i));
        }
    }
}

#[verifier::spinoff_prover]
#[verifier::rlimit(100)]
proof fn lemma_rotated_ranks(
    m0: Map<usize, BvhNode>,
    root0: usize,
    r0: Map<usize, nat>,
    index: usize,
    r: Rotation,
    m: Map<usize, BvhNode>,
)
    requires
        rotate_ready(m0, root0, r0, index, r),
        m.dom() == m0.dom(),
        forall|k: usize| #[trigger] m.dom().contains(k) ==> m[k] == rotated_entry(m0, index, r, k),
    ensures
        ranked(m, root0, rotate_rank(m0, r0, index, r)),
{
    let pr = pivot_is_right(r);
    let gr = grandchild_is_right(r);
    let x = child_on(m0[index], pr);
    let y = child_on(m0[index], !pr);
    let g = child_on(m0[x], gr);
    let g2 = child_on(m0[x], !gr);
    let r1 = rotate_rank(m0, r0, index, r);
    assert forall|i: usize| #[trigger] m.dom().contains(i) && m[i].parent is Some implies r1[i] < r1[m[i].parent->0] by {
        if i != g && i != y {
            assert(parent_ok(m0, i));
            assert(r0[i] < r0[m0[i].parent->0]);
        }
    }
    assert forall|i: usize| #[trigger] m.dom().contains(i) implies r1[i] <= r1[root0] by {
        assert(r0[i] <= r0[root0]);
        assert(r0[index] <= r0[root0]);
    }
}

#[verifier::spinoff_prover]
#[verifier::rlimit(100)]
proof fn lemma_rotated_roots(
    m0: Map<usize, BvhNode>,
    root0: usize,
    r0: Map<usize, nat>,
    index: usize,
    r: Rotation,
    m: Map<usize, BvhNode>,
)
    requires
        rotate_ready(m0, root0, r0, index, r),
        m.dom() == m0.dom(),
        forall|k: usize| #[trigger] m.dom().contains(k) ==> m[k] == rotated_entry(m0, index, r, k),
    ensures
        m.dom().finite(),
        m.dom().len() > 0 ==> m.dom().contains(root0) && m[root0].parent is None,
        forall|i: usize| #[trigger] m.dom().contains(i) && i != root0 ==> m[i].parent is Some,
{
    assert(m0.dom().contains(root0));
    assert forall|i: usize| #[trigger] m.dom().contains(i) && i != root0 implies m[i].parent is Some by {
    }
}

#[verifier::spinoff_prover]
#[verifier::rlimit(100)]
proof fn lemma_rotated_leaves(
    m0: Map<usize, BvhNode>,
    root0: usize,
    r0: Map<usize, nat>,
    index: usize,
    r: Rotation,
    m: Map<usize, BvhNode>,
)
    requires
        rotate_ready(m0, root0, r0, index, r),
        m.dom() == m0.dom(),
        forall|k: usize| #[trigger] m.dom().contains(k) ==> m[k] == rotated_entry(m0, index, r, k),
    ensures
        leaf_data(m) == leaf_data(m0),
{
    assert forall|k: usize| #[trigger] m.dom().contains(k) implies m[k].data == m0[k].data by {
    }
    assert(leaf_data(m).dom() =~= leaf_data(m0).dom());
    assert(leaf_data(m) =~= leaf_data(m0));
}

#[verifier::spinoff_prover]
#[verifier::rlimit(100)]
proof fn lemma_rotated_shape(
    m0: Map<usize, BvhNode>,
    root0: usize,
    r0: Map<usize, nat>,
    index: usize,
    r: Rotation,
    m: Map<usize, BvhNode>,
)
    requires
        rotate_ready(m0, root0, r0, index, r),
        m.dom() == m0.dom(),
        forall|k: usize| #[trigger] m.dom().contains(k) ==> m[k] == rotated_entry(m0, index, r, k),
    ensures
        tree_shape(m, root0),
        ranked(m, root0, rotate_rank(m0, r0, index, r)),
        leaf_data(m) == leaf_data(m0),
{
    lemma_rotated_roots(m0, root0, r0, index, r, m);
    lemma_rotated_inner(m0, root0, r0, index, r, m);
    lemma_rotated_parents(m0, root0, r0, index, r, m);
    lemma_rotated_ranks(m0, root0, r0, index, r, m);
    lemma_rotated_leaves(m0, root0, r0, index, r, m);
}

/// The number of leaves.
pub open spec fn leaf_count(m: Map<usize, BvhNode>) -> nat {
    leaf_data(m).dom().len()
}

/// A binary tree whose inner nodes all have two children has one node fewer
/// than twice its leaves (and an empty tree has none).
pub open spec fn count_ok(m: Map<usize, BvhNode>) -> bool {
    m.dom().len() == if leaf_count(m) == 0 {
        0
    } else {
        2 * leaf_count(m) - 1
    }
}

#[verifier::spinoff_prover]
proof fn lemma_leaves_within(m: Map<usize, BvhNode>)
    requires
        m.dom().finite(),
    ensures
        leaf_data(m).dom().finite(),
        leaf_data(m).dom().subset_of(m.dom()),
        leaf_count(m) <= m.dom().len(),
{
    vstd::set_lib::lemma_len_subset(leaf_data(m).dom(), m.dom());
}

#[verifier::spinoff_prover]
proof fn lemma_count_empty(m: Map<usize, BvhNode>)
    requires
        m.dom() == Set::<usize>::empty(),
    ensures
        count_ok(m),
{
    assert(leaf_data(m).dom() =~= Set::<usize>::empty());
}

#[verifier::spinoff_prover]
proof fn lemma_count_grows(m0: Map<usize, BvhNode>, m: Map<usize, BvhNode>, leaf: usize, data: u64, extra: Set<usize>)
    requires
        m0.dom().finite(),
        count_ok(m0),
        !m0.dom().contains(leaf),
        leaf_data(m) == leaf_data(m0).insert(leaf, data),
        m.dom() == m0.dom().insert(leaf).union(extra),
        extra.finite(),
        extra.disjoint(m0.dom().insert(leaf)),
        extra.len() == (if m0.dom().len() == 0 {
            0nat
        } else {
            1nat
        }),
    ensures
        count_ok(m),
{
    lemma_leaves_within(m0);
    assert(leaf_data(m).dom() == leaf_data(m0).dom().insert(leaf));
    assert(!leaf_data(m0).dom().contains(leaf));
    vstd::set_lib::lemma_set_disjoint_lens(m0.dom().insert(leaf), extra);
    if m0.dom().len() > 0 {
        assert(leaf_count(m0) > 0);
    }
}

#[verifier::spinoff_prover]
proof fn lemma_count_shrinks(m0: Map<usize, BvhNode>, m: Map<usize, BvhNode>, index: usize, p: usize)
    requires
        m0.dom().finite(),
        count_ok(m0),
        m0.dom().contains(index),
        m0.dom().contains(p),
        index != p,
        m0[index].data is Some,
        leaf_data(m) == leaf_data(m0).remove(index),
        m.dom() == m0.dom().remove(p).remove(index),
    ensures
        count_ok(m),
{
    lemma_leaves_within(m0);
    assert(leaf_data(m).dom() == leaf_data(m0).dom().remove(index));
    assert(leaf_data(m0).dom().contains(index));
    assert(m0.dom().remove(p).contains(index));
    assert(m0.dom().len() >= 2) by {
        vstd::set_lib::lemma_len_subset(set![index, p], m0.dom());
    }
}

/// The keys whose data is `d`.
pub open spec fn keys_holding(data: Map<usize, u64>, d: u64) -> Set<usize> {
    data.dom().filter(|k: usize| data[k] == d)
}

/// The data a depth-first walk from `n` finds: nothing when `n` fails the
/// test, a leaf's data when it passes, and for an inner node that passes,
/// what the walk finds under its right child and then under its left child.
pub open spec fn visit(
    m: Map<usize, BvhNode>,
    rank: Map<usize, nat>,
    n: usize,
    accept: spec_fn(usize) -> bool,
) -> Seq<u64>
    decreases rank[n],
{
    if !m.dom().contains(n) || !accept(n) {
        seq![]
    } else if m[n].data is Some {
        seq![m[n].data->0]
    } else if rank[m[n].right] < rank[n] && rank[m[n].left] < rank[n] {
        visit(m, rank, m[n].right, accept) + visit(m, rank, m[n].left, accept)
    } else {
        seq![]
    }
}

/// The data a walk finds from a stack of pending nodes, top (last) first.
pub open spec fn pending_visit(
    m: Map<usize, BvhNode>,
    rank: Map<usize, nat>,
    stack: Seq<usize>,
    accept: spec_fn(usize) -> bool,
) -> Seq<u64>
    decreases stack.len(),
{
    if stack.len() == 0 {
        seq![]
    } else {
        visit(m, rank, stack.last(), accept) + pending_visit(m, rank, stack.drop_last(), accept)
    }
}

/// The keys of the leaves a depth-first walk from `n` finds, in the order
/// `visit` finds their data.
pub open spec fn visit_keys(
    m: Map<usize, BvhNode>,
    rank: Map<usize, nat>,
    n: usize,
    accept: spec_fn(usize) -> bool,
) -> Seq<usize>
    decreases rank[n],
{
    if !m.dom().contains(n) || !accept(n) {
        seq![]
    } else if m[n].data is Some {
        seq![n]
    } else if rank[m[n].right] < rank[n] && rank[m[n].left] < rank[n] {
        visit_keys(m, rank, m[n].right, accept) + visit_keys(m, rank, m[n].left, accept)
    } else {
        seq![]
    }
}

/// The node `s` parent links above `k`.
spec fn ancestor(m: Map<usize, BvhNode>, k: usize, s: nat) -> usize
    decreases s,
{
    if s == 0 {
        k
    } else {
        m[ancestor(m, k, (s - 1) as nat)].parent->0
    }
}

/// The first `s` steps up from `k` each leave a node of `m` for its parent.
spec fn climbs(m: Map<usize, BvhNode>, k: usize, s: nat) -> bool {
    forall|t: nat| t < s ==> m.dom().contains(#[trigger] ancestor(m, k, t)) && m[ancestor(m, k, t)].parent is Some
}

proof fn lemma_in_concat(a: Seq<usize>, b: Seq<usize>, k: usize)
    requires
        (a + b).contains(k),
    ensures
        a.contains(k) || b.contains(k),
{
    let i = choose|i: int| 0 <= i < (a + b).len() && (a + b)[i] == k;
    if i < a.len() {
        assert(a[i] == k);
    } else {
        assert(b[i - a.len()] == k);
    }
}

/// The data a walk finds is the data of the leaves whose keys it finds.
#[verifier::spinoff_prover]
#[verifier::rlimit(100)]
proof fn lemma_visit_keys_data(m: Map<usize, BvhNode>, rank: Map<usize, nat>, x: usize, accept: spec_fn(usize) -> bool)
    ensures
        visit(m, rank, x, accept).len() == visit_keys(m, rank, x, accept).len(),
        forall|i: int| 0 <= i < visit(m, rank, x, accept).len() ==> #[trigger] visit(m, rank, x, accept)[i]
            == m[visit_keys(m, rank, x, accept)[i]].data->0,
    decreases rank[x],
{
    if m.dom().contains(x) && accept(x) && m[x].data is None && rank[m[x].right] < rank[x] && rank[m[x].left]
        < rank[x] {
        let l = m[x].left;
        let r = m[x].right;
        lemma_visit_keys_data(m, rank, r, accept);
        lemma_visit_keys_data(m, rank, l, accept);
        let vr = visit(m, rank, r, accept);
        let kr = visit_keys(m, rank, r, accept);
        let vl = visit(m, rank, l, accept);
        let kl = visit_keys(m, rank, l, accept);
        assert forall|i: int| 0 <= i < (vr + vl).len() implies #[trigger] (vr + vl)[i] == m[(kr + kl)[i]].data->0 by {
            if i >= vr.len() {
                assert(vl[i - vr.len()] == m[kl[i - vr.len()]].data->0);
            } else {
                assert(vr[i] == m[kr[i]].data->0);
            }
        }
    }
}

/// Every key a walk from `x` finds is a leaf of `m` that lies below `x`.
#[verifier::spinoff_prover]
#[verifier::rlimit(100)]
proof fn lemma_keys_descend(
    m: Map<usize, BvhNode>,
    root: usize,
    rank: Map<usize, nat>,
    x: usize,
    accept: spec_fn(usize) -> bool,
    k: usize,
) -> (s: nat)
    requires
        tree_shape(m, root),
        ranked(m, root, rank),
        visit_keys(m, rank, x, accept).contains(k),
    ensures
        m.dom().contains(k),
        m[k].data is Some,
        ancestor(m, k, s) == x,
        climbs(m, k, s),
    decreases rank[x],
{
    if m[x].data is Some {
        assert(visit_keys(m, rank, x, accept) == seq![x]);
        assert(seq![x][0] == x);
        assert(k == x);
        0
    } else {
        assert(inner_ok(m, x));
        let l = m[x].left;
        let r = m[x].right;
        lemma_in_concat(visit_keys(m, rank, r, accept), visit_keys(m, rank, l, accept), k);
        let c = if visit_keys(m, rank, r, accept).contains(k) {
            r
        } else {
            l
        };
        let s0 = lemma_keys_descend(m, root, rank, c, accept, k);
        assert(ancestor(m, k, s0 + 1) == x);
        assert forall|t: nat| t < s0 + 1 implies m.dom().contains(#[trigger] ancestor(m, k, t)) && m[ancestor(
            m,
            k,
            t,
        )].parent is Some by {
            if t == s0 {
                assert(ancestor(m, k, t) == c);
            }
        }
        s0 + 1
    }
}

/// Ranks rise along a climb.
#[verifier::spinoff_prover]
#[verifier::rlimit(100)]
proof fn lemma_ranks_rise(m: Map<usize, BvhNode>, root: usize, rank: Map<usize, nat>, k: usize, a: nat, b: nat)
    requires
        tree_shape(m, root),
        ranked(m, root, rank),
        climbs(m, k, b),
        a <= b,
    ensures
        rank[ancestor(m, k, a)] <= rank[ancestor(m, k, b)],
    decreases b - a,
{
    if a < b {
        let b1 = (b - 1) as nat;
        assert(climbs(m, k, b1));
        lemma_ranks_rise(m, root, rank, k, a, b1);
        let y = ancestor(m, k, b1);
        assert(m.dom().contains(y) && m[y].parent is Some);
        assert(ancestor(m, k, b) == m[y].parent->0);
    }
}

/// No leaf lies below both children of an inner node.
#[verifier::spinoff_prover]
#[verifier::rlimit(100)]
proof fn lemma_children_apart(
    m: Map<usize, BvhNode>,
    root: usize,
    rank: Map<usize, nat>,
    x: usize,
    accept: spec_fn(usize) -> bool,
    k: usize,
)
    requires
        tree_shape(m, root),
        ranked(m, root, rank),
        m.dom().contains(x),
        m[x].data is None,
        visit_keys(m, rank, m[x].right, accept).contains(k),
    ensures
        !visit_keys(m, rank, m[x].left, accept).contains(k),
{
    assert(inner_ok(m, x));
    let l = m[x].left;
    let r = m[x].right;
    assert(parent_ok(m, l));
    assert(parent_ok(m, r));
    if visit_keys(m, rank, l, accept).contains(k) {
        let sr = lemma_keys_descend(m, root, rank, r, accept, k);
        let sl = lemma_keys_descend(m, root, rank, l, accept, k);
        if sr < sl {
            assert(ancestor(m, k, sr + 1) == x);
            lemma_ranks_rise(m, root, rank, k, sr + 1, sl);
        } else if sl < sr {
            assert(ancestor(m, k, sl + 1) == x);
            lemma_ranks_rise(m, root, rank, k, sl + 1, sr);
        }
    }
}

/// A walk finds no leaf twice.
#[verifier::spinoff_prover]
#[verifier::rlimit(100)]
proof fn lemma_visit_keys_distinct(
    m: Map<usize, BvhNode>,
    root: usize,
    rank: Map<usize, nat>,
    x: usize,
    accept: spec_fn(usize) -> bool,
)
    requires
        tree_shape(m, root),
        ranked(m, root, rank),
    ensures
        visit_keys(m, rank, x, accept).no_duplicates(),
    decreases rank[x],
{
    if m.dom().contains(x) && accept(x) && m[x].data is None && rank[m[x].right] < rank[x] && rank[m[x].left]
        < rank[x] {
        let l = m[x].left;
        let r = m[x].right;
        lemma_visit_keys_distinct(m, root, rank, r, accept);
        lemma_visit_keys_distinct(m, root, rank, l, accept);
        let kr = visit_keys(m, rank, r, accept);
        let kl = visit_keys(m, rank, l, accept);
        assert forall|i: int, j: int| 0 <= i < kr.len() && 0 <= j < kl.len() implies kr[i] != kl[j] by {
            assert(kr.contains(kr[i]));
            lemma_children_apart(m, root, rank, x, accept, kr[i]);
            assert(kl.contains(kl[j]));
        }
        vstd::seq_lib::lemma_no_dup_in_concat(kr, kl);
    }
}

/// A leaf found by a full walk from any node is found by the full walk from
/// the root.
#[verifier::spinoff_prover]
#[verifier::rlimit(100)]
proof fn lemma_keys_climb(m: Map<usize, BvhNode>, root: usize, rank: Map<usize, nat>, x: usize, k: usize)
    requires
        tree_shape(m, root),
        ranked(m, root, rank),
        m.dom().contains(x),
        visit_keys(m, rank, x, |i: usize| true).contains(k),
    ensures
        visit_keys(m, rank, root, |i: usize| true).contains(k),
    decreases rank[root] - rank[x],
{
    let all = |i: usize| true;
    if x != root {
        let p = m[x].parent->0;
        assert(parent_ok(m, x));
        assert(inner_ok(m, p));
        assert(parent_ok(m, m[p].left));
        assert(parent_ok(m, m[p].right));
        let kl = visit_keys(m, rank, m[p].left, all);
        let kr = visit_keys(m, rank, m[p].right, all);
        assert(visit_keys(m, rank, p, all) == kr + kl);
        let j = choose|j: int| 0 <= j < visit_keys(m, rank, x, all).len() && visit_keys(m, rank, x, all)[j] == k;
        if m[p].left == x {
            assert((kr + kl)[kr.len() + j] == k);
        } else {
            assert((kr + kl)[j] == k);
        }
        assert(visit_keys(m, rank, p, all).contains(k));
        lemma_keys_climb(m, root, rank, p, k);
    }
}

/// In a sequence of distinct keys, a value occurs among the keys' data as
/// often as there are keys whose data it is.
#[verifier::spinoff_prover]
#[verifier::rlimit(100)]
proof fn lemma_count_by_keys(ks: Seq<usize>, vs: Seq<u64>, data: Map<usize, u64>, d: u64)
    requires
        ks.no_duplicates(),
        vs.len() == ks.len(),
        forall|i: int| 0 <= i < vs.len() ==> #[trigger] vs[i] == data[ks[i]],
    ensures
        ks.to_set().finite(),
        vs.to_multiset().count(d) == ks.to_set().filter(|k: usize| data[k] == d).len(),
    decreases ks.len(),
{
    broadcast use vstd::seq_lib::group_seq_properties;
    broadcast use vstd::set::group_set_axioms;
    broadcast use vstd::multiset::group_multiset_axioms;

    if ks.len() == 0 {
        assert(ks.to_set() =~= Set::<usize>::empty());
        assert(ks.to_set().filter(|k: usize| data[k] == d) =~= Set::<usize>::empty());
        assert(vs =~= Seq::<u64>::empty());
        assert(vs.to_multiset() =~= vstd::multiset::Multiset::<u64>::empty());
    } else {
        let ks0 = ks.drop_last();
        let vs0 = vs.drop_last();
        let k = ks.last();
        assert(ks0.no_duplicates());
        assert forall|i: int| 0 <= i < vs0.len() implies #[trigger] vs0[i] == data[ks0[i]] by {
            assert(vs0[i] == vs[i]);
        }
        lemma_count_by_keys(ks0, vs0, data, d);
        assert(ks =~= ks0.push(k));
        assert(vs =~= vs0.push(vs.last()));
        vstd::seq_lib::to_multiset_build(vs0, vs.last());
        ks0.lemma_push_to_set_commute(k);
        assert(!ks0.contains(k));
        let f0 = ks0.to_set().filter(|j: usize| data[j] == d);
        let f = ks.to_set().filter(|j: usize| data[j] == d);
        if data[k] == d {
            assert(f =~= f0.insert(k));
        } else {
            assert(f =~= f0);
        }
    }
}

/// The listing of the subtree at `n`, which lies `depth` levels below the
/// root: a line for `n` (its key, its depth and whether it is a leaf), then,
/// for an inner node, the listing of its right child and then that of its
/// left child, one level deeper.
pub open spec fn listing(m: Map<usize, BvhNode>, rank: Map<usize, nat>, n: usize, depth: nat) -> Seq<
    (usize, nat, bool),
>
    decreases rank[n],
{
    if !m.dom().contains(n) {
        seq![]
    } else if m[n].data is Some {
        seq![(n, depth, true)]
    } else if rank[m[n].right] < rank[n] && rank[m[n].left] < rank[n] {
        seq![(n, depth, false)] + listing(m, rank, m[n].right, depth + 1) + listing(
            m,
            rank,
            m[n].left,
            depth + 1,
        )
    } else {
        seq![(n, depth, false)]
    }
}

/// The listing still owed for a stack of (node, depth) pairs, top (last)
/// first.
spec fn pending_listing(m: Map<usize, BvhNode>, rank: Map<usize, nat>, stack: Seq<(usize, usize)>) -> Seq<
    (usize, nat, bool),
>
    decreases stack.len(),
{
    if stack.len() == 0 {
        seq![]
    } else {
        listing(m, rank, stack.last().0, stack.last().1 as nat) + pending_listing(m, rank, stack.drop_last())
    }
}

/// Listing lines with machine-sized depths, read as lines of `listing`.
pub open spec fn listing_lines(v: Seq<(usize, usize, bool)>) -> Seq<(usize, nat, bool)> {
    v.map_values(|e: (usize, usize, bool)| (e.0, e.1 as nat, e.2))
}

/// One step up from a node's parent is two steps up from the node.
proof fn lemma_ancestor_shift(m: Map<usize, BvhNode>, k: usize, t: nat)
    ensures
        ancestor(m, k, t + 1) == ancestor(m, m[k].parent->0, t),
    decreases t,
{
    let p = m[k].parent->0;
    if t > 0 {
        lemma_ancestor_shift(m, k, (t - 1) as nat);
        assert(ancestor(m, k, t) == ancestor(m, p, (t - 1) as nat));
        assert(ancestor(m, k, t + 1) == m[ancestor(m, k, t)].parent->0);
        assert(ancestor(m, p, t) == m[ancestor(m, p, (t - 1) as nat)].parent->0);
    } else {
        assert(ancestor(m, k, 0) == k);
        assert(ancestor(m, k, 1) == m[ancestor(m, k, 0)].parent->0);
        assert(ancestor(m, p, 0) == p);
    }
}

/// A child of a node `d` levels below the root is `d + 1` levels below it.
#[verifier::spinoff_prover]
#[verifier::rlimit(100)]
proof fn lemma_climb_child(m: Map<usize, BvhNode>, root: usize, n: usize, d: nat, c: usize)
    requires
        tree_shape(m, root),
        m.dom().contains(n),
        m[n].data is None,
        c == m[n].left || c == m[n].right,
        climbs(m, n, d),
        ancestor(m, n, d) == root,
    ensures
        m.dom().contains(c),
        climbs(m, c, d + 1),
        ancestor(m, c, d + 1) == root,
{
    assert(inner_ok(m, n));
    lemma_ancestor_shift(m, c, d);
    assert forall|t: nat| t < d + 1 implies m.dom().contains(#[trigger] ancestor(m, c, t)) && m[ancestor(
        m,
        c,
        t,
    )].parent is Some by {
        if t > 0 {
            lemma_ancestor_shift(m, c, (t - 1) as nat);
            assert(ancestor(m, n, (t - 1) as nat) == ancestor(m, c, t));
        }
    }
}

/// A node `d` levels below the root has `d` distinct nodes above it, so the
/// hierarchy has more than `d` nodes.
#[verifier::spinoff_prover]
#[verifier::rlimit(100)]
proof fn lemma_depth_bound(m: Map<usize, BvhNode>, root: usize, rank: Map<usize, nat>, n: usize, d: nat)
    requires
        tree_shape(m, root),
        ranked(m, root, rank),
        m.dom().contains(n),
        climbs(m, n, d),
    ensures
        d < m.dom().len(),
{
    let chain = Seq::new(d + 1, |t: int| ancestor(m, n, t as nat));
    assert forall|t: int| 0 <= t < chain.len() implies m.dom().contains(#[trigger] chain[t]) by {
        if 0 < t {
            let y = ancestor(m, n, (t - 1) as nat);
            assert(m.dom().contains(y) && m[y].parent is Some);
            assert(parent_ok(m, y));
        }
    }
    assert forall|a: int, b: int| 0 <= a < b < chain.len() implies chain[a] != chain[b] by {
        let y = ancestor(m, n, a as nat);
        assert(m.dom().contains(y) && m[y].parent is Some);
        assert(ancestor(m, n, (a + 1) as nat) == m[y].parent->0);
        assert(climbs(m, n, b as nat));
        lemma_ranks_rise(m, root, rank, n, (a + 1) as nat, b as nat);
    }
    assert(chain.no_duplicates());
    chain.unique_seq_to_set();
    assert(chain.to_set().subset_of(m.dom()));
    vstd::set_lib::lemma_len_subset(chain.to_set(), m.dom());
}

/// A dynamic bounding volume hierarchy's tree of nodes. Leaves carry a `u64`
/// (the game stores entity ids there).
pub struct DynamicBvh {
    nodes: Slab<BvhNode>,
    root: usize,
    rank: Ghost<Map<usize, nat>>,
}

impl View for DynamicBvh {
    type V = Map<usize, BvhNode>;

    closed spec fn view(&self) -> Map<usize, BvhNode> {
        slab_nodes(self.nodes)
    }
}

#[verifier::spinoff_prover]
#[verifier::rlimit(100)]
proof fn lemma_nonroot_means_inner_root(m: Map<usize, BvhNode>, root: usize, rank: Map<usize, nat>, i: usize)
    requires
        tree_shape(m, root),
        ranked(m, root, rank),
        m.dom().contains(i),
        i != root,
    ensures
        m[root].data is None,
    decreases rank[root] - rank[i],
{
    let p = m[i].parent->0;
    assert(parent_ok(m, i));
    if p != root {
        lemma_nonroot_means_inner_root(m, root, rank, p);
    }
}

#[verifier::spinoff_prover]
#[verifier::rlimit(100)]
proof fn lemma_fresh_len(m: Map<usize, BvhNode>, k: usize, v: BvhNode)
    requires
        m.dom().finite(),
        !m.dom().contains(k),
    ensures
        m.insert(k, v).dom().finite(),
        m.insert(k, v).dom().len() == m.dom().len() + 1,
{
}

impl DynamicBvh {
    /// The hierarchy's invariant: its shape, and ranks that rule out cycles.
    pub closed spec fn wf(&self) -> bool {
        &&& tree_shape(self@, self.root)
        &&& ranked(self@, self.root, self.rank@)
        &&& count_ok(self@)
    }

    /// The key the next stored node gets: 0 in a new or cleared hierarchy,
    /// and after a removal the key of the leaf taken out.
    pub closed spec fn next_key(&self) -> usize {
        slab_vacant_key(self.nodes)
    }

    /// The root's key (meaningful when the hierarchy is not empty).
    pub closed spec fn spec_root(&self) -> usize {
        self.root
    }

    /// Every well-formed hierarchy has the shape of a tree rooted at its root.
    pub proof fn lemma_shape(&self)
        requires
            self.wf(),
        ensures
            tree_shape(self@, self.spec_root()),
    {
    }

    /// A hierarchy with `n` leaves has `2n - 1` nodes (none when empty).
    pub proof fn law_node_count(&self)
        requires
            self.wf(),
        ensures
            self@.dom().len() == if leaf_count(self@) == 0 {
                0
            } else {
                2 * leaf_count(self@) - 1
            },
    {
    }

    /// A hierarchy whose root is a leaf holds nothing but that leaf.
    pub proof fn lemma_leaf_root_is_alone(&self)
        requires
            self.wf(),
            self@.dom().contains(self.spec_root()),
            self@[self.spec_root()].data is Some,
        ensures
            self@.dom() =~= set![self.spec_root()],
    {
        assert forall|i: usize| self@.dom().contains(i) implies i == self.spec_root() by {
            if i != self.root {
                lemma_nonroot_means_inner_root(self@, self.root, self.rank@, i);
            }
        }
    }

    /// Ranks that decrease from parent to child, for the walk's measure.
    pub closed spec fn ranks(&self) -> Map<usize, nat> {
        self.rank@
    }

    /// A walk starting at the root finds what a visit of the root finds.
    pub proof fn law_walk_starts_at_root(&self, accept: spec_fn(usize) -> bool)
        requires
            self.wf(),
            self@.dom().len() > 0,
        ensures
            pending_visit(self@, self.ranks(), seq![self.spec_root()], accept) == visit(
                self@,
                self.ranks(),
                self.spec_root(),
                accept,
            ),
    {
        let st = seq![self.root];
        assert(st.drop_last() =~= Seq::<usize>::empty());
        assert(pending_visit(self@, self.rank@, st.drop_last(), accept) == Seq::<u64>::empty());
        assert(visit(self@, self.rank@, self.root, accept) + Seq::<u64>::empty() =~= visit(
            self@,
            self.rank@,
            self.root,
            accept,
        ));
    }

    /// One step of a walk, answered with `accept` on the node tested, finds
    /// (in what it returns, then in what is left pending) exactly what the
    /// pending nodes held before the step: a walk that is answered with
    /// `accept` each time finds what `visit` of the root says, in order.
    pub proof fn law_walk_step(&self, stack: Seq<usize>, accept: spec_fn(usize) -> bool)
        requires
            self.wf(),
            stack.len() > 0,
            forall|k: int| 0 <= k < stack.len() ==> self@.dom().contains(#[trigger] stack[k]),
        ensures
            ({
                let top = stack.last();
                let node = self@[top];
                let rest = stack.drop_last();
                pending_visit(self@, self.ranks(), stack, accept) == if !accept(top) {
                    pending_visit(self@, self.ranks(), rest, accept)
                } else if node.data is Some {
                    seq![node.data->0] + pending_visit(self@, self.ranks(), rest, accept)
                } else {
                    pending_visit(self@, self.ranks(), rest.push(node.left).push(node.right), accept)
                }
            }),
    {
        let m = self@;
        let r = self.rank@;
        let top = stack.last();
        let node = m[top];
        let rest = stack.drop_last();
        assert(m.dom().contains(top));
        if accept(top) && node.data is None {
            assert(inner_ok(m, top));
            assert(parent_ok(m, node.left));
            assert(parent_ok(m, node.right));
            assert(r[node.left] < r[top]);
            assert(r[node.right] < r[top]);
            let s1 = rest.push(node.left);
            let s2 = s1.push(node.right);
            assert(s2.drop_last() =~= s1);
            assert(s1.drop_last() =~= rest);
            assert(visit(m, r, top, accept) == visit(m, r, node.right, accept) + visit(m, r, node.left, accept));
            assert(s2.last() == node.right);
            assert(s1.last() == node.left);
            assert(pending_visit(m, r, s2, accept) == visit(m, r, node.right, accept) + pending_visit(
                m,
                r,
                s1,
                accept,
            ));
            assert(pending_visit(m, r, s1, accept) == visit(m, r, node.left, accept) + pending_visit(
                m,
                r,
                rest,
                accept,
            ));
            assert(pending_visit(m, r, stack, accept) == visit(m, r, top, accept) + pending_visit(
                m,
                r,
                rest,
                accept,
            ));
            assert(pending_visit(m, r, s2, accept) =~= pending_visit(m, r, stack, accept));
        }
    }

    /// A walk that accepts every node finds the data of every leaf.
    pub proof fn law_full_walk_finds_every_leaf(&self, k: usize)
        requires
            self.wf(),
            leaf_data(self@).dom().contains(k),
        ensures
            self.full_walk().contains(leaf_data(self@)[k]),
    {
        let m = self@;
        let r = self.rank@;
        let all = |i: usize| true;
        assert(visit_keys(m, r, k, all) == seq![k]);
        assert(visit_keys(m, r, k, all)[0] == k);
        lemma_keys_climb(m, self.root, r, k, k);
        let keys = visit_keys(m, r, self.root, all);
        let j = choose|j: int| 0 <= j < keys.len() && keys[j] == k;
        lemma_visit_keys_data(m, r, self.root, all);
        assert(visit(m, r, self.root, all)[j] == leaf_data(m)[k]);
    }

    /// What a walk that accepts every node finds.
    pub open spec fn full_walk(&self) -> Seq<u64> {
        visit(self@, self.ranks(), self.spec_root(), |i: usize| true)
    }

    /// The keys of the leaves a walk that accepts every node finds, in the
    /// order it finds them.
    pub open spec fn full_walk_keys(&self) -> Seq<usize> {
        visit_keys(self@, self.ranks(), self.spec_root(), |i: usize| true)
    }

    /// A walk that accepts every node finds each leaf exactly once: the keys
    /// of the leaves it finds are all the leaves, none twice, and what it
    /// returns is their data in that order.
    pub proof fn law_full_walk_finds_each_leaf_once(&self)
        requires
            self.wf(),
        ensures
            self.full_walk_keys().no_duplicates(),
            self.full_walk_keys().to_set() == leaf_data(self@).dom(),
            self.full_walk().len() == self.full_walk_keys().len(),
            forall|j: int|
                0 <= j < self.full_walk().len() ==> #[trigger] self.full_walk()[j] == leaf_data(
                    self@,
                )[self.full_walk_keys()[j]],
    {
        let m = self@;
        let r = self.rank@;
        let all = |i: usize| true;
        let keys = visit_keys(m, r, self.root, all);
        lemma_visit_keys_distinct(m, self.root, r, self.root, all);
        lemma_visit_keys_data(m, r, self.root, all);
        assert forall|j: int| 0 <= j < keys.len() implies leaf_data(m).dom().contains(#[trigger] keys[j]) by {
            assert(keys.contains(keys[j]));
            lemma_keys_descend(m, self.root, r, self.root, all, keys[j]);
        }
        assert forall|k: usize| leaf_data(m).dom().contains(k) implies #[trigger] keys.contains(k) by {
            assert(visit_keys(m, r, k, all) == seq![k]);
            assert(visit_keys(m, r, k, all)[0] == k);
            lemma_keys_climb(m, self.root, r, k, k);
        }
        assert(keys.to_set() =~= leaf_data(m).dom());
    }

    /// A walk that accepts every node finds each value as many times as there
    /// are leaves holding it: what it returns and the leaves' data are the
    /// same multiset.
    pub proof fn law_full_walk_counts_match(&self, d: u64)
        requires
            self.wf(),
        ensures
            self.full_walk().to_multiset().count(d) == keys_holding(leaf_data(self@), d).len(),
    {
        let all = |i: usize| true;
        self.law_full_walk_finds_each_leaf_once();
        let keys = visit_keys(self@, self.rank@, self.root, all);
        lemma_count_by_keys(keys, visit(self@, self.rank@, self.root, all), leaf_data(self@), d);
        assert(keys_holding(leaf_data(self@), d) =~= keys.to_set().filter(|k: usize| leaf_data(self@)[k] == d));
    }

    /// After a new leaf holding `data` is added (as `insert` does), a walk that
    /// accepts every node finds what it found before and `data` once more.
    pub proof fn law_insert_adds_to_full_walk(before: &DynamicBvh, after: &DynamicBvh, leaf: usize, data: u64)
        requires
            before.wf(),
            after.wf(),
            !before@.dom().contains(leaf),
            leaf_data(after@) == leaf_data(before@).insert(leaf, data),
        ensures
            after.full_walk().to_multiset() == before.full_walk().to_multiset().insert(data),
    {
        broadcast use vstd::multiset::group_multiset_axioms;

        lemma_leaves_within(before@);
        let d0 = leaf_data(before@);
        let d1 = leaf_data(after@);
        assert forall|x: u64| #[trigger] after.full_walk().to_multiset().count(x) == before.full_walk().to_multiset().insert(
            data,
        ).count(x) by {
            before.law_full_walk_counts_match(x);
            after.law_full_walk_counts_match(x);
            let f0 = keys_holding(d0, x);
            let f1 = keys_holding(d1, x);
            assert(!f0.contains(leaf));
            vstd::set_lib::lemma_len_subset(f0, d0.dom());
            assert(before.full_walk().to_multiset().count(x) == f0.len());
            assert(after.full_walk().to_multiset().count(x) == f1.len());
            if data == x {
                assert(f1 =~= f0.insert(leaf));
                assert(f1.len() == f0.len() + 1);
                assert(before.full_walk().to_multiset().insert(data).count(x) == f0.len() + 1);
            } else {
                assert(f1 =~= f0);
                assert(before.full_walk().to_multiset().insert(data).count(x) == f0.len());
            }
        }
        assert(after.full_walk().to_multiset() =~= before.full_walk().to_multiset().insert(data));
    }

    /// After a leaf is taken out (as `remove` does), a walk that accepts every
    /// node finds what it found before less that leaf's data, once.
    pub proof fn law_remove_takes_from_full_walk(before: &DynamicBvh, after: &DynamicBvh, leaf: usize)
        requires
            before.wf(),
            after.wf(),
            leaf_data(before@).dom().contains(leaf),
            leaf_data(after@) == leaf_data(before@).remove(leaf),
        ensures
            after.full_walk().to_multiset() == before.full_walk().to_multiset().remove(leaf_data(before@)[leaf]),
    {
        broadcast use vstd::multiset::group_multiset_axioms;

        lemma_leaves_within(before@);
        let d0 = leaf_data(before@);
        let d1 = leaf_data(after@);
        let data = d0[leaf];
        assert forall|x: u64| #[trigger] after.full_walk().to_multiset().count(x) == before.full_walk().to_multiset().remove(
            data,
        ).count(x) by {
            before.law_full_walk_counts_match(x);
            after.law_full_walk_counts_match(x);
            let f0 = keys_holding(d0, x);
            let f1 = keys_holding(d1, x);
            vstd::set_lib::lemma_len_subset(f0, d0.dom());
            if data == x {
                assert(f0.contains(leaf));
                assert(f1 =~= f0.remove(leaf));
            } else {
                assert(f1 =~= f0);
            }
        }
        assert(after.full_walk().to_multiset() =~= before.full_walk().to_multiset().remove(data));
    }

    /// What each rotation at an inner node `index` does, with `l` and `r` its
    /// left and right children before the rotation. `LeftToRightLeft`: `l`
    /// takes the left slot of `r`, and `r`'s old left child becomes `index`'s
    /// left child. `LeftToRightRight`: `l` takes the right slot of `r`, and
    /// `r`'s old right child becomes `index`'s left child. `RightToLeftLeft`:
    /// `r` takes the left slot of `l`, and `l`'s old left child becomes
    /// `index`'s right child. `RightToLeftRight`: `r` takes the right slot of
    /// `l`, and `l`'s old right child becomes `index`'s right child. The
    /// pivot's other child stays, and the moved nodes name their new parents.
    pub proof fn law_rotation_moves(&self, index: usize, rotation: Rotation)
        requires
            self.wf(),
            self@.dom().contains(index),
            self@[index].data is None,
            (rotation == Rotation::LeftToRightLeft || rotation == Rotation::LeftToRightRight)
                ==> self@[self@[index].right].data is None,
            (rotation == Rotation::RightToLeftLeft || rotation == Rotation::RightToLeftRight)
                ==> self@[self@[index].left].data is None,
        ensures
            ({
                let m = self@;
                let n = rotated(m, index, rotation);
                let l = m[index].left;
                let r = m[index].right;
                &&& rotation == Rotation::LeftToRightLeft ==> {
                    &&& n[index].left == m[r].left
                    &&& n[index].right == r
                    &&& n[r].left == l
                    &&& n[r].right == m[r].right
                    &&& n[l].parent == Some(r)
                    &&& n[m[r].left].parent == Some(index)
                }
                &&& rotation == Rotation::LeftToRightRight ==> {
                    &&& n[index].left == m[r].right
                    &&& n[index].right == r
                    &&& n[r].left == m[r].left
                    &&& n[r].right == l
                    &&& n[l].parent == Some(r)
                    &&& n[m[r].right].parent == Some(index)
                }
                &&& rotation == Rotation::RightToLeftLeft ==> {
                    &&& n[index].left == l
                    &&& n[index].right == m[l].left
                    &&& n[l].left == r
                    &&& n[l].right == m[l].right
                    &&& n[r].parent == Some(l)
                    &&& n[m[l].left].parent == Some(index)
                }
                &&& rotation == Rotation::RightToLeftRight ==> {
                    &&& n[index].left == l
                    &&& n[index].right == m[l].right
                    &&& n[l].left == m[l].left
                    &&& n[l].right == r
                    &&& n[r].parent == Some(l)
                    &&& n[m[l].right].parent == Some(index)
                }
            }),
    {
        lemma_rotate_ready(self@, self.root, self.rank@, index, rotation);
    }

    /// Taking out a leaf that was just put beside `sibling` gives back exactly
    /// the nodes there were before.
    pub proof fn law_remove_undoes_insert(&self, leaf: usize, data: u64, sibling: usize, p: usize)
        requires
            self.wf(),
            self@.dom().contains(sibling),
            !self@.dom().contains(leaf),
            !self@.dom().contains(p),
            leaf != p,
        ensures
            detached(attached(self@, leaf, data, sibling, p), leaf) == self@,
    {
        let m0 = self@;
        let m1 = attached(m0, leaf, data, sibling, p);
        let s = m0[sibling];
        assert(sibling != leaf && sibling != p);
        if s.parent is Some {
            let o = s.parent->0;
            assert(parent_ok(m0, sibling));
            assert(inner_ok(m0, o));
            assert(self.rank@[sibling] < self.rank@[o]);
        }
        let m2 = detached(m1, leaf);
        assert(m2 =~= m0);
    }

    pub fn new() -> (t: Self)
        ensures
            t.wf(),
            t@.dom() == Set::<usize>::empty(),
            t.next_key() == 0,
    {
        let t = DynamicBvh { nodes: slab_new(), root: 0, rank: Ghost(Map::new(|k: usize| true, |k: usize| 0nat)) };
        proof {
            lemma_count_empty(t@);
        }
        t
    }

    /// Number of nodes, leaves and inner nodes together.
    pub fn len(&self) -> (n: usize)
        ensures
            n == self@.dom().len(),
    {
        slab_len(&self.nodes)
    }

    pub fn is_empty(&self) -> (b: bool)
        ensures
            b == (self@.dom().len() == 0),
    {
        slab_len(&self.nodes) == 0
    }

    pub fn root(&self) -> (r: usize)
        ensures
            r == self.spec_root(),
    {
        self.root
    }

    pub fn contains(&self, index: usize) -> (b: bool)
        ensures
            b == self@.dom().contains(index),
    {
        slab_contains(&self.nodes, index)
    }

    /// A copy of the node stored under `index`.
    pub fn node(&self, index: usize) -> (n: BvhNode)
        requires
            self@.dom().contains(index),
        ensures
            n == self@[index],
    {
        slab_node(&self.nodes, index)
    }

    /// The left and right children of an inner node.
    pub fn children(&self, parent: usize) -> (c: (usize, usize))
        requires
            self@.dom().contains(parent),
        ensures
            c == (self@[parent].left, self@[parent].right),
    {
        let node = slab_node(&self.nodes, parent);
        (node.left, node.right)
    }

    /// The other child of `parent`: its right child when `child` is its left
    /// child, and its left child otherwise.
    pub fn sibling_of(&self, parent: usize, child: usize) -> (s: usize)
        requires
            self@.dom().contains(parent),
        ensures
            s == (if child == self@[parent].left {
                self@[parent].right
            } else {
                self@[parent].left
            }),
    {
        let (left_child, right_child) = self.children(parent);
        if child == left_child {
            right_child
        } else {
            left_child
        }
    }

    /// Removes every node.
    pub fn clear(&mut self)
        requires
            old(self).wf(),
        ensures
            final(self).wf(),
            final(self)@.dom() == Set::<usize>::empty(),
            final(self).next_key() == 0,
    {
        slab_clear(&mut self.nodes);
        proof {
            lemma_count_empty(self@);
        }
    }

    /// Stores a new leaf holding `data`. In an empty hierarchy the leaf becomes
    /// the root; otherwise a new inner node takes the place of `sibling` and
    /// gets the leaf as its left child and `sibling` as its right child.
    /// Returns the leaf's key and, when one was made, the new inner node's
    /// key, from which the caller refits bounding boxes upwards.
    pub fn insert(&mut self, data: u64, sibling: usize) -> (res: (usize, Option<usize>))
        requires
            old(self).wf(),
            old(self)@.dom().len() > 0 ==> old(self)@.dom().contains(sibling),
        ensures
            final(self).wf(),
            res.0 == old(self).next_key(),
            !old(self)@.dom().contains(res.0),
            leaf_data(final(self)@) == leaf_data(old(self)@).insert(res.0, data),
            old(self)@.dom().len() == 0 ==> {
                &&& res.1 is None
                &&& final(self)@ == old(self)@.insert(
                    res.0,
                    BvhNode { data: Some(data), parent: None, left: 0, right: 0 },
                )
                &&& final(self).spec_root() == res.0
            },
            old(self)@.dom().len() > 0 ==> {
                &&& res.1 is Some
                &&& !old(self)@.dom().contains(res.1->0)
                &&& res.0 != res.1->0
                &&& final(self)@ == attached(old(self)@, res.0, data, sibling, res.1->0)
                &&& final(self).spec_root() == (if old(self)@[sibling].parent is None {
                    res.1->0
                } else {
                    old(self).spec_root()
                })
            },
    {
        let ghost m0 = self@;
        let ghost r0 = self.rank@;
        let ghost root0 = self.root;
        let leaf_node = BvhNode { data: Some(data), parent: None, left: 0, right: 0 };
        let leaf = slab_insert(&mut self.nodes, leaf_node);
        proof {
            lemma_fresh_len(m0, leaf, leaf_node);
        }
        if slab_len(&self.nodes) == 1 {
            self.root = leaf;
            proof {
                let m = self@;
                assert(m0.dom().len() == 0);
                assert(m0.dom() =~= Set::<usize>::empty());
                assert(m.dom() =~= set![leaf]);
                assert(leaf_data(m) =~= leaf_data(m0).insert(leaf, data));
                assert(m.dom() =~= m0.dom().insert(leaf).union(Set::<usize>::empty()));
                lemma_count_grows(m0, m, leaf, data, Set::<usize>::empty());
            }
            return (leaf, None);
        }
        let s = slab_node(&self.nodes, sibling);
        let old_parent = s.parent;
        let parent_node = BvhNode { data: None, parent: old_parent, left: leaf, right: sibling };
        let new_parent = slab_insert(&mut self.nodes, parent_node);
        slab_set(&mut self.nodes, sibling, BvhNode { parent: Some(new_parent), ..s });
        slab_set(&mut self.nodes, leaf, BvhNode { parent: Some(new_parent), ..leaf_node });
        match old_parent {
            Some(op) => {
                let on = slab_node(&self.nodes, op);
                if on.left == sibling {
                    slab_set(&mut self.nodes, op, BvhNode { left: new_parent, ..on });
                } else {
                    slab_set(&mut self.nodes, op, BvhNode { right: new_parent, ..on });
                }
            },
            None => {
                self.root = new_parent;
            },
        }
        let ghost np = new_parent;
        self.rank = Ghost(attach_rank(r0, leaf, np, sibling));
        proof {
            assert(self@ == attached(m0, leaf, data, sibling, np));
            lemma_attached_wf(m0, root0, r0, leaf, data, sibling, np);
            assert(self@.dom() =~= m0.dom().insert(leaf).union(set![np]));
            lemma_count_grows(m0, self@, leaf, data, set![np]);
        }
        (leaf, Some(new_parent))
    }

    /// Takes the leaf `index` out and returns its data. When the leaf has a
    /// parent, the parent is removed too and the leaf's sibling takes the
    /// parent's place; the second result is then the sibling's new parent (the
    /// node from which the caller refits bounding boxes upwards), if any.
    pub fn remove(&mut self, index: usize) -> (res: (u64, Option<usize>))
        requires
            old(self).wf(),
            old(self)@.dom().contains(index),
            old(self)@[index].data is Some,
        ensures
            final(self).wf(),
            res.0 == old(self)@[index].data->0,
            final(self).next_key() == index,
            leaf_data(final(self)@) == leaf_data(old(self)@).remove(index),
            final(self)@ == detached(old(self)@, index),
            old(self)@[index].parent is None ==> {
                &&& res.1 is None
                &&& final(self)@.dom() == Set::<usize>::empty()
            },
            old(self)@[index].parent is Some ==> {
                let p = old(self)@[index].parent->0;
                &&& res.1 == old(self)@[p].parent
                &&& final(self).spec_root() == (if old(self)@[p].parent is None {
                    if old(self)@[p].left == index {
                        old(self)@[p].right
                    } else {
                        old(self)@[p].left
                    }
                } else {
                    old(self).spec_root()
                })
            },
    {
        let ghost m0 = self@;
        let ghost r0 = self.rank@;
        let ghost root0 = self.root;
        let node = slab_node(&self.nodes, index);
        let mut refit_from: Option<usize> = None;
        match node.parent {
            Some(parent) => {
                proof {
                    assert(parent_ok(m0, index));
                    assert(inner_ok(m0, parent));
                    if m0[parent].parent is Some {
                        assert(parent_ok(m0, parent));
                        assert(inner_ok(m0, m0[parent].parent->0));
                        assert(r0[parent] < r0[m0[parent].parent->0]);
                    }
                    assert(r0[index] < r0[parent]);
                }
                let pn = slab_node(&self.nodes, parent);
                let grandparent = pn.parent;
                let new_parent = self.sibling_of(parent, index);
                let yn = slab_node(&self.nodes, new_parent);
                slab_set(&mut self.nodes, new_parent, BvhNode { parent: grandparent, ..yn });
                match grandparent {
                    Some(g) => {
                        let gn = slab_node(&self.nodes, g);
                        if gn.left == parent {
                            slab_set(&mut self.nodes, g, BvhNode { left: new_parent, ..gn });
                        } else {
                            slab_set(&mut self.nodes, g, BvhNode { right: new_parent, ..gn });
                        }
                    },
                    None => {
                        self.root = new_parent;
                    },
                }
                let _ = slab_remove(&mut self.nodes, parent);
                refit_from = grandparent;
            },
            None => {},
        }
        let removed = slab_remove(&mut self.nodes, index);
        proof {
            if m0[index].parent is Some {
                self.rank = Ghost(detach_rank(m0, r0, index));
                lemma_detached_wf(m0, root0, r0, index);
                assert(self@ == detached(m0, index));
                lemma_count_shrinks(m0, self@, index, m0[index].parent->0);
            } else {
                assert(index == root0);
                assert forall|i: usize| m0.dom().contains(i) implies i == root0 by {
                    if i != root0 {
                        lemma_nonroot_means_inner_root(m0, root0, r0, i);
                    }
                }
                assert(self@.dom() =~= Set::<usize>::empty());
                assert(leaf_data(self@) =~= leaf_data(m0).remove(index));
                lemma_count_empty(self@);
            }
        }
        (removed.data.unwrap(), refit_from)
    }

    /// Performs a tree rotation at the inner node `index`; the pivot child
    /// (the right child for the `LeftTo..` rotations, the left child for the
    /// `RightTo..` ones) must be an inner node. The leaves and the root stay.
    pub fn rotate(&mut self, index: usize, rotation: Rotation)
        requires
            old(self).wf(),
            old(self)@.dom().contains(index),
            old(self)@[index].data is None,
            old(self)@[child_on(old(self)@[index], pivot_is_right(rotation))].data is None,
        ensures
            final(self).wf(),
            final(self)@ == rotated(old(self)@, index, rotation),
            final(self)@.dom() == old(self)@.dom(),
            final(self).spec_root() == old(self).spec_root(),
            leaf_data(final(self)@) == leaf_data(old(self)@),
            final(self).next_key() == old(self).next_key(),
            rotation == Rotation::LeftToRightRight ==> {
                let l = old(self)@[index].left;
                let r = old(self)@[index].right;
                &&& final(self)@[index].left == old(self)@[r].right
                &&& final(self)@[index].right == r
                &&& final(self)@[r].left == old(self)@[r].left
                &&& final(self)@[r].right == l
            },
            rotation == Rotation::LeftToRightLeft ==> {
                let l = old(self)@[index].left;
                let r = old(self)@[index].right;
                &&& final(self)@[index].left == old(self)@[r].left
                &&& final(self)@[index].right == r
                &&& final(self)@[r].left == l
                &&& final(self)@[r].right == old(self)@[r].right
            },
            rotation == Rotation::RightToLeftLeft ==> {
                let l = old(self)@[index].left;
                let r = old(self)@[index].right;
                &&& final(self)@[index].left == l
                &&& final(self)@[index].right == old(self)@[l].left
                &&& final(self)@[l].left == r
                &&& final(self)@[l].right == old(self)@[l].right
            },
            rotation == Rotation::RightToLeftRight ==> {
                let l = old(self)@[index].left;
                let r = old(self)@[index].right;
                &&& final(self)@[index].left == l
                &&& final(self)@[index].right == old(self)@[l].right
                &&& final(self)@[l].left == old(self)@[l].left
                &&& final(self)@[l].right == r
            },
    {
        let ghost m0 = self@;
        let ghost r0 = self.rank@;
        let ghost before = *self;
        proof {
            lemma_rotate_ready(m0, self.root, r0, index, rotation);
            before.law_rotation_moves(index, rotation);
        }
        let (left_child, right_child) = self.children(index);
        match rotation {
            Rotation::LeftToRightLeft => {
                let (right_left, _) = self.children(right_child);
                self.set_left_child(right_child, left_child);
                self.set_left_child(index, right_left);
            },
            Rotation::LeftToRightRight => {
                let (_, right_right) = self.children(right_child);
                self.set_right_child(right_child, left_child);
                self.set_left_child(index, right_right);
            },
            Rotation::RightToLeftLeft => {
                let (left_left, _) = self.children(left_child);
                self.set_left_child(left_child, right_child);
                self.set_right_child(index, left_left);
            },
            Rotation::RightToLeftRight => {
                let (_, left_right) = self.children(left_child);
                self.set_right_child(left_child, right_child);
                self.set_right_child(index, left_right);
            },
        }
        proof {
            assert(self@ == rotated(m0, index, rotation));
            lemma_rotated_entries(m0, self.root, r0, index, rotation);
            lemma_rotated_shape(m0, self.root, r0, index, rotation, self@);
            assert(count_ok(self@));
            self.rank = Ghost(rotate_rank(m0, r0, index, rotation));
        }
    }

    fn set_left_child(&mut self, parent: usize, child: usize)
        requires
            old(self)@.dom().contains(parent),
            old(self)@.dom().contains(child),
            parent != child,
        ensures
            final(self)@ == old(self)@.insert(parent, with_child(old(self)@[parent], false, child)).insert(
                child,
                with_parent(old(self)@[child], Some(parent)),
            ),
            final(self).root == old(self).root,
            final(self).rank == old(self).rank,
            final(self).next_key() == old(self).next_key(),
    {
        let pn = slab_node(&self.nodes, parent);
        slab_set(&mut self.nodes, parent, BvhNode { left: child, ..pn });
        let cn = slab_node(&self.nodes, child);
        slab_set(&mut self.nodes, child, BvhNode { parent: Some(parent), ..cn });
    }

    fn set_right_child(&mut self, parent: usize, child: usize)
        requires
            old(self)@.dom().contains(parent),
            old(self)@.dom().contains(child),
            parent != child,
        ensures
            final(self)@ == old(self)@.insert(parent, with_child(old(self)@[parent], true, child)).insert(
                child,
                with_parent(old(self)@[child], Some(parent)),
            ),
            final(self).root == old(self).root,
            final(self).rank == old(self).rank,
            final(self).next_key() == old(self).next_key(),
    {
        let pn = slab_node(&self.nodes, parent);
        slab_set(&mut self.nodes, parent, BvhNode { right: child, ..pn });
        let cn = slab_node(&self.nodes, child);
        slab_set(&mut self.nodes, child, BvhNode { parent: Some(parent), ..cn });
    }
}

impl Default for DynamicBvh {
    fn default() -> (t: Self)
        ensures
            t.wf(),
            t@.dom() == Set::<usize>::empty(),
            t.next_key() == 0,
    {
        DynamicBvh::new()
    }
}

/// A depth-first walk over the leaves of a hierarchy whose bounding boxes
/// pass a test. The caller runs the test: `peek` names the node to test next
/// and `next` is told whether it passed.
pub struct BvhIterator<'a> {
    stack: Vec<usize>,
    bvh: &'a DynamicBvh,
}

impl<'a> BvhIterator<'a> {
    /// The nodes still to test; the last one is tested next.
    pub closed spec fn pending(&self) -> Seq<usize> {
        self.stack@
    }

    /// The hierarchy being walked.
    pub closed spec fn tree(&self) -> DynamicBvh {
        *self.bvh
    }

    pub open spec fn wf(&self) -> bool {
        &&& self.tree().wf()
        &&& forall|k: int| 0 <= k < self.pending().len() ==> self.tree()@.dom().contains(
            #[trigger] self.pending()[k],
        )
    }

    /// The node to test next, if any.
    pub fn peek(&self) -> (n: Option<usize>)
        ensures
            n == (if self.pending().len() > 0 {
                Some(self.pending().last())
            } else {
                None::<usize>
            }),
    {
        let len = self.stack.len();
        if len > 0 {
            Some(self.stack[len - 1])
        } else {
            None
        }
    }

    /// Takes the next node off the walk. If it passed the test (`accepted`),
    /// a leaf's data is returned and an inner node's children are queued,
    /// the right one to be tested first; a node that failed is dropped with
    /// its whole subtree.
    pub fn next(&mut self, accepted: bool) -> (found: Option<u64>)
        requires
            old(self).wf(),
        ensures
            final(self).wf(),
            final(self).tree() == old(self).tree(),
            old(self).pending().len() == 0 ==> found is None && final(self).pending() == old(
                self,
            ).pending(),
            old(self).pending().len() > 0 ==> {
                let top = old(self).pending().last();
                let node = old(self).tree()@[top];
                let rest = old(self).pending().drop_last();
                if !accepted {
                    found is None && final(self).pending() == rest
                } else if node.data is Some {
                    found == node.data && final(self).pending() == rest
                } else {
                    found is None && final(self).pending() == rest.push(node.left).push(node.right)
                }
            },
    {
        match self.stack.pop() {
            None => None,
            Some(index) => {
                let node = self.bvh.node(index);
                if accepted {
                    match node.data {
                        Some(data) => Some(data),
                        None => {
                            proof {
                                assert(inner_ok(self.bvh@, index));
                            }
                            self.stack.push(node.left);
                            self.stack.push(node.right);
                            None
                        },
                    }
                } else {
                    None
                }
            },
        }
    }
}

impl DynamicBvh {
    /// Starts a walk from the root (nothing to walk in an empty hierarchy).
    pub fn find(&self) -> (it: BvhIterator)
        requires
            self.wf(),
        ensures
            it.wf(),
            it.tree() == *self,
            it.pending() == (if self@.dom().len() > 0 {
                seq![self.spec_root()]
            } else {
                Seq::<usize>::empty()
            }),
    {
        let mut stack: Vec<usize> = Vec::new();
        if slab_contains(&self.nodes, self.root) {
            stack.push(self.root);
        }
        proof {
            if self@.dom().len() == 0 {
                assert(!self@.dom().contains(self.root));
            }
            assert(stack@ =~= (if self@.dom().len() > 0 {
                seq![self.root]
            } else {
                Seq::<usize>::empty()
            }));
        }
        BvhIterator { stack, bvh: self }
    }
}

impl DynamicBvh {
    /// The listing of the whole hierarchy (empty when it is).
    pub open spec fn spec_listing(&self) -> Seq<(usize, nat, bool)> {
        listing(self@, self.ranks(), self.spec_root(), 0)
    }

    /// Lists the hierarchy from the root down for debugging: one line per
    /// node, with its key, its depth and whether it is a leaf; an inner
    /// node's line is followed by the lines of its right subtree and then of
    /// its left subtree.
    #[verifier::spinoff_prover]
    #[verifier::rlimit(100)]
    pub fn listing(&self) -> (lines: Vec<(usize, usize, bool)>)
        requires
            self.wf(),
        ensures
            listing_lines(lines@) == self.spec_listing(),
    {
        let ghost m = self@;
        let ghost r = self.rank@;
        let total = self.len();
        let mut lines: Vec<(usize, usize, bool)> = Vec::new();
        let mut stack: Vec<(usize, usize)> = Vec::new();
        if slab_contains(&self.nodes, self.root) {
            stack.push((self.root, 0));
        }
        proof {
            if stack@.len() == 0 {
                assert(listing(m, r, self.root, 0) =~= Seq::<(usize, nat, bool)>::empty());
            } else {
                assert(stack@.drop_last() =~= Seq::<(usize, usize)>::empty());
                assert(ancestor(m, self.root, 0) == self.root);
                assert(pending_listing(m, r, stack@) == listing(m, r, self.root, 0) + pending_listing(
                    m,
                    r,
                    stack@.drop_last(),
                ));
                assert(pending_listing(m, r, stack@.drop_last()) == Seq::<(usize, nat, bool)>::empty());
            }
            assert(listing_lines(lines@) =~= Seq::<(usize, nat, bool)>::empty());
            assert(listing_lines(lines@) + pending_listing(m, r, stack@) =~= listing(m, r, self.root, 0));
        }
        while stack.len() > 0
            invariant
                self.wf(),
                m == self@,
                r == self.rank@,
                total == m.dom().len(),
                forall|k: int|
                    0 <= k < stack@.len() ==> {
                        &&& m.dom().contains(#[trigger] stack@[k].0)
                        &&& climbs(m, stack@[k].0, stack@[k].1 as nat)
                        &&& ancestor(m, stack@[k].0, stack@[k].1 as nat) == self.root
                    },
                listing_lines(lines@) + pending_listing(m, r, stack@) == listing(m, r, self.root, 0),
            decreases pending_listing(m, r, stack@).len(),
        {
            let ghost before = stack@;
            let ghost done = listing_lines(lines@);
            let (index, depth) = stack.pop().unwrap();
            let ghost rest = stack@;
            proof {
                assert(before.drop_last() =~= rest);
                assert(before.last() == (index, depth));
                assert(m.dom().contains(before[before.len() - 1].0));
            }
            let node = slab_node(&self.nodes, index);
            let leaf = node.data.is_some();
            lines.push((index, depth, leaf));
            proof {
                assert(listing_lines(lines@) =~= done.push((index, depth as nat, leaf)));
            }
            if !leaf {
                proof {
                    assert(inner_ok(m, index));
                    assert(parent_ok(m, node.left));
                    assert(parent_ok(m, node.right));
                    lemma_depth_bound(m, self.root, r, index, depth as nat);
                    lemma_climb_child(m, self.root, index, depth as nat, node.left);
                    lemma_climb_child(m, self.root, index, depth as nat, node.right);
                }
                stack.push((node.left, depth + 1));
                stack.push((node.right, depth + 1));
                proof {
                    let s1 = rest.push((node.left, (depth + 1) as usize));
                    assert(stack@.drop_last() =~= s1);
                    assert(s1.drop_last() =~= rest);
                    let lr = listing(m, r, node.right, depth as nat + 1);
                    let ll = listing(m, r, node.left, depth as nat + 1);
                    assert(listing(m, r, index, depth as nat) == seq![(index, depth as nat, false)] + lr + ll);
                    assert(pending_listing(m, r, stack@) == lr + pending_listing(m, r, s1));
                    assert(pending_listing(m, r, s1) == ll + pending_listing(m, r, rest));
                    assert(pending_listing(m, r, before) == listing(m, r, index, depth as nat) + pending_listing(
                        m,
                        r,
                        rest,
                    ));
                    assert(listing_lines(lines@) + pending_listing(m, r, stack@) =~= done + pending_listing(
                        m,
                        r,
                        before,
                    ));
                }
            } else {
                proof {
                    assert(listing(m, r, index, depth as nat) == seq![(index, depth as nat, true)]);
                    assert(pending_listing(m, r, before) == listing(m, r, index, depth as nat) + pending_listing(
                        m,
                        r,
                        rest,
                    ));
                    assert(listing_lines(lines@) + pending_listing(m, r, stack@) =~= done + pending_listing(
                        m,
                        r,
                        before,
                    ));
                }
            }
        }
        proof {
            assert(pending_listing(m, r, stack@) =~= Seq::<(usize, nat, bool)>::empty());
            assert(listing_lines(lines@) + Seq::<(usize, nat, bool)>::empty() =~= listing_lines(lines@));
        }
        lines
    }
}

} // verus!
