use space_rts::bvh::{DynamicBvh, Rotation};

#[test]
fn first_leaf_becomes_root() {
    let mut bvh = DynamicBvh::new();
    assert!(bvh.is_empty());
    let (leaf, parent) = bvh.insert(7, 0);
    assert_eq!(parent, None);
    assert_eq!(bvh.root(), leaf);
    assert_eq!(bvh.len(), 1);
    assert_eq!(bvh.node(leaf).data, Some(7));
}

#[test]
fn second_leaf_gets_a_parent() {
    let mut bvh = DynamicBvh::new();
    let (a, _) = bvh.insert(1, 0);
    let (b, parent) = bvh.insert(2, a);
    let p = parent.unwrap();
    assert_eq!(bvh.len(), 3);
    assert_eq!(bvh.root(), p);
    assert_eq!(bvh.children(p), (b, a));
    assert_eq!(bvh.node(a).parent, Some(p));
    assert_eq!(bvh.node(b).parent, Some(p));
    assert_eq!(bvh.node(p).data, None);
    assert_eq!(bvh.sibling_of(p, a), b);
    assert_eq!(bvh.sibling_of(p, b), a);
}

#[test]
fn remove_gives_back_data_and_restores_tree() {
    let mut bvh = DynamicBvh::new();
    let (a, _) = bvh.insert(10, 0);
    let (b, _) = bvh.insert(20, a);
    let (c, parent) = bvh.insert(30, b);
    let p = parent.unwrap();
    assert_eq!(bvh.len(), 5);
    let (data, refit_from) = bvh.remove(c);
    assert_eq!(data, 30);
    assert_eq!(refit_from, bvh.node(b).parent);
    assert!(!bvh.contains(c));
    assert!(!bvh.contains(p));
    assert_eq!(bvh.len(), 3);
    let (data, _) = bvh.remove(a);
    assert_eq!(data, 10);
    assert_eq!(bvh.root(), b);
    assert_eq!(bvh.node(b).parent, None);
    let (data, refit_from) = bvh.remove(b);
    assert_eq!(data, 20);
    assert_eq!(refit_from, None);
    assert!(bvh.is_empty());
}

#[test]
fn rotation_swaps_child_and_grandchild() {
    let mut bvh = DynamicBvh::new();
    let (a, _) = bvh.insert(1, 0);
    let (b, p1) = bvh.insert(2, a);
    let p1 = p1.unwrap();
    // p1 = (b, a); put c beside a: p1 = (b, p2), p2 = (c, a)
    let (c, p2) = bvh.insert(3, a);
    let p2 = p2.unwrap();
    assert_eq!(bvh.children(p1), (b, p2));
    assert_eq!(bvh.children(p2), (c, a));
    // left child b moves into the left slot of p2; c moves up to p1's left
    bvh.rotate(p1, Rotation::LeftToRightLeft);
    assert_eq!(bvh.children(p1), (c, p2));
    assert_eq!(bvh.children(p2), (b, a));
    assert_eq!(bvh.node(c).parent, Some(p1));
    assert_eq!(bvh.node(b).parent, Some(p2));
    assert_eq!(bvh.root(), p1);
    // and back with the mirror image: right child p2 stays, b returns
    bvh.rotate(p1, Rotation::LeftToRightLeft);
    assert_eq!(bvh.children(p1), (b, p2));
    assert_eq!(bvh.children(p2), (c, a));
}

#[test]
fn rotation_right_to_left() {
    let mut bvh = DynamicBvh::new();
    let (a, _) = bvh.insert(1, 0);
    let (b, p1) = bvh.insert(2, a);
    let p1 = p1.unwrap();
    let (c, p2) = bvh.insert(3, b);
    let p2 = p2.unwrap();
    // p1 = (p2, a), p2 = (c, b)
    assert_eq!(bvh.children(p1), (p2, a));
    bvh.rotate(p1, Rotation::RightToLeftRight);
    // a goes to p2's right slot, b comes up as p1's right child
    assert_eq!(bvh.children(p1), (p2, b));
    assert_eq!(bvh.children(p2), (c, a));
    assert_eq!(bvh.node(a).parent, Some(p2));
    assert_eq!(bvh.node(b).parent, Some(p1));
}

fn walk(bvh: &DynamicBvh, accept: impl Fn(usize) -> bool) -> Vec<u64> {
    let mut it = bvh.find();
    let mut out = Vec::new();
    while let Some(index) = it.peek() {
        if let Some(data) = it.next(accept(index)) {
            out.push(data);
        }
    }
    out
}

#[test]
fn find_walks_right_subtree_first() {
    let mut bvh = DynamicBvh::new();
    let (a, _) = bvh.insert(1, 0);
    let (_b, _) = bvh.insert(2, a);
    let (c, _) = bvh.insert(3, a);
    assert_eq!(walk(&bvh, |_| true), vec![1, 3, 2]);
    assert_eq!(walk(&bvh, |i| i != c), vec![1, 2]);
    let root = bvh.root();
    assert_eq!(walk(&bvh, |i| i != root), Vec::<u64>::new());
    assert_eq!(walk(&DynamicBvh::new(), |_| true), Vec::<u64>::new());
}

#[test]
fn test() {
    let mut bvh = DynamicBvh::new();
    let mut last = 0;
    for i in 0..100u64 {
        let (leaf, _) = bvh.insert(i, last);
        last = leaf;
    }
    assert_eq!(bvh.len(), 199);
    let mut found = walk(&bvh, |_| true);
    found.sort();
    assert_eq!(found, (0..100).collect::<Vec<u64>>());
    let listing = bvh.listing();
    assert_eq!(listing.len(), 199);
    assert_eq!(listing[0], (bvh.root(), 0, false));
    assert_eq!(listing.iter().filter(|line| line.2).count(), 100);
    bvh.clear();
    assert!(bvh.is_empty());
}

#[test]
fn full_walk_finds_each_stored_value_once_per_leaf() {
    let mut bvh = DynamicBvh::new();
    let (a, _) = bvh.insert(7, 0);
    let (b, _) = bvh.insert(7, a);
    let (c, _) = bvh.insert(9, b);
    let (_d, _) = bvh.insert(7, c);
    let mut found = walk(&bvh, |_| true);
    found.sort();
    assert_eq!(found, vec![7, 7, 7, 9]);
    bvh.remove(b);
    let mut found = walk(&bvh, |_| true);
    found.sort();
    assert_eq!(found, vec![7, 7, 9]);
    bvh.remove(c);
    assert_eq!(walk(&bvh, |_| true), vec![7, 7]);
}

#[test]
fn listing_goes_right_before_left() {
    assert_eq!(DynamicBvh::new().listing(), Vec::<(usize, usize, bool)>::new());
    let mut bvh = DynamicBvh::new();
    let (a, _) = bvh.insert(1, 0);
    assert_eq!(bvh.listing(), vec![(a, 0, true)]);
    let (b, p) = bvh.insert(2, a);
    let p = p.unwrap();
    let (c, q) = bvh.insert(3, a);
    let q = q.unwrap();
    // p has children (b, q); q has children (c, a).
    assert_eq!(
        bvh.listing(),
        vec![(p, 0, false), (q, 1, false), (a, 2, true), (c, 2, true), (b, 1, true)]
    );
}

#[test]
fn keys_start_at_zero_and_are_reused() {
    let mut bvh = DynamicBvh::default();
    assert_eq!(bvh.listing(), Vec::<(usize, usize, bool)>::new());
    let (a, _) = bvh.insert(5, 0);
    assert_eq!(a, 0);
    assert_eq!(bvh.listing(), vec![(0, 0, true)]);
    let (b, _) = bvh.insert(6, a);
    bvh.remove(b);
    let (c, _) = bvh.insert(7, a);
    assert_eq!(c, b);
    bvh.clear();
    let (d, _) = bvh.insert(8, 0);
    assert_eq!(d, 0);
    assert_eq!(bvh.listing(), vec![(0, 0, true)]);
}
