//! Node storage of the bounding volume hierarchy: a `slab::Slab` of nodes,
//! reached through the trusted items below.
use vstd::prelude::*;
use slab::Slab;

verus! {

/// One node of the hierarchy. A leaf holds `Some(data)`; an inner node holds
/// `None` and always has two children. `parent` is `None` only at the root.
#[derive(Debug, Clone, Copy, PartialEq, Eq, Structural)]
pub struct BvhNode {
    pub data: Option<u64>,
    pub parent: Option<usize>,
    pub left: usize,
    pub right: usize,
}

#[verifier::external_type_specification]
#[verifier::external_body]
#[verifier::reject_recursive_types(T)]
pub struct ExSlab<T>(Slab<T>);

/// The occupied entries of a slab of nodes: key to stored node.
pub uninterp spec fn slab_nodes(s: Slab<BvhNode>) -> Map<usize, BvhNode>;

/// The key the slab gives the next inserted value (what `Slab::vacant_key`
/// returns).
pub uninterp spec fn slab_vacant_key(s: Slab<BvhNode>) -> usize;

/// `Slab::new`: a slab with no occupied entry, whose first insertion gets
/// key 0.
#[verifier::external_body]
pub(crate) fn slab_new() -> (s: Slab<BvhNode>)
    ensures
        slab_nodes(s).dom() == Set::<usize>::empty(),
        slab_vacant_key(s) == 0,
{
    Slab::new()
}

/// `Slab::len`: the number of occupied entries.
#[verifier::external_body]
pub(crate) fn slab_len(s: &Slab<BvhNode>) -> (n: usize)
    ensures
        n == slab_nodes(*s).dom().len(),
{
    s.len()
}

/// `Slab::contains`: whether the key is occupied.
#[verifier::external_body]
pub(crate) fn slab_contains(s: &Slab<BvhNode>, key: usize) -> (b: bool)
    ensures
        b == slab_nodes(*s).dom().contains(key),
{
    s.contains(key)
}

/// `Slab::insert`: stores the node under the slab's vacant key, which was
/// not occupied, and returns that key; no other entry changes. Which key the
/// slab offers after that is left unsaid.
#[verifier::external_body]
pub(crate) fn slab_insert(s: &mut Slab<BvhNode>, node: BvhNode) -> (key: usize)
    ensures
        key == slab_vacant_key(*old(s)),
        !slab_nodes(*old(s)).dom().contains(key),
        slab_nodes(*final(s)) == slab_nodes(*old(s)).insert(key, node),
{
    s.insert(node)
}

/// `Slab::remove`: takes the node out of an occupied key, which becomes the
/// key of the next insertion; panics on a vacant key, which `requires`
/// leaves out.
#[verifier::external_body]
pub(crate) fn slab_remove(s: &mut Slab<BvhNode>, key: usize) -> (node: BvhNode)
    requires
        slab_nodes(*old(s)).dom().contains(key),
    ensures
        node == slab_nodes(*old(s))[key],
        slab_vacant_key(*final(s)) == key,
        slab_nodes(*final(s)) == slab_nodes(*old(s)).remove(key),
{
    s.remove(key)
}

/// `Index::index` of `Slab`: a copy of the node at an occupied key; panics on
/// a vacant key, which `requires` leaves out.
#[verifier::external_body]
pub(crate) fn slab_node(s: &Slab<BvhNode>, key: usize) -> (node: BvhNode)
    requires
        slab_nodes(*s).dom().contains(key),
    ensures
        node == slab_nodes(*s)[key],
{
    s[key]
}

/// `IndexMut::index_mut` of `Slab`: overwrites the node at an occupied key,
/// leaving the vacant key as it was; panics on a vacant key, which
/// `requires` leaves out.
#[verifier::external_body]
pub(crate) fn slab_set(s: &mut Slab<BvhNode>, key: usize, node: BvhNode)
    requires
        slab_nodes(*old(s)).dom().contains(key),
    ensures
        slab_vacant_key(*final(s)) == slab_vacant_key(*old(s)),
        slab_nodes(*final(s)) == slab_nodes(*old(s)).insert(key, node),
{
    s[key] = node;
}

/// `Slab::clear`: removes every entry; the next insertion gets key 0.
#[verifier::external_body]
pub(crate) fn slab_clear(s: &mut Slab<BvhNode>)
    ensures
        slab_nodes(*final(s)).dom() == Set::<usize>::empty(),
        slab_vacant_key(*final(s)) == 0,
{
    s.clear();
}

} // verus!
