//! Node storage: the tree's nodes live in a dense slot map and refer to their
//! children by key.
use crate::geometry::Rect;
use crate::model::Tree;
use slotmap::{DefaultKey, DenseSlotMap};
use vstd::prelude::*;

verus! {

/// `slotmap::DefaultKey`, the key under which the arena stores a node; only
/// compared and copied here.
#[verifier::external_type_specification]
#[verifier::external_body]
pub struct ExDefaultKey(DefaultKey);


/// Most elements the arena may hold: inserting past this panics.
pub const ARENA_LIMIT: u64 = 0xffff_fffd;

/// A leaf: its rectangle and the field samples at its four corners.
#[derive(Clone, Copy, Debug)]
pub struct QtLeaf {
    pub geom: Rect,
    pub vertex_eval: [i64; 4],
}

/// An interior node: its rectangle and the keys of its four quadrants.
#[derive(Clone, Copy, Debug)]
pub struct QtInterior {
    pub geom: Rect,
    pub children: [DefaultKey; 4],
}

#[derive(Clone, Copy, Debug)]
pub enum QtNode {
    Interior(QtInterior),
    Leaf(QtLeaf),
}

/// The store of all nodes of one tree: a dense slot map, seen by Verus only
/// through what it holds.
#[verifier::external_body]
pub struct Arena {
    map: DenseSlotMap<DefaultKey, QtNode>,
}

/// The nodes that an arena holds, by key.
pub uninterp spec fn arena_nodes(m: Arena) -> Map<DefaultKey, QtNode>;

pub open spec fn no_nodes() -> Map<DefaultKey, QtNode> {
    Map::empty()
}

/// Relies on `DenseSlotMap::new`: a new map holds no element.
#[verifier::external_body]
pub(crate) fn arena_new() -> (r: Arena)
    ensures
        arena_nodes(r) == no_nodes(),
{
    Arena { map: DenseSlotMap::new() }
}

/// Relies on `DenseSlotMap::insert`: the value is stored under a key that no
/// element of the map held, and nothing else changes; it panics only once the
/// map holds 2^32 - 2 elements.
#[verifier::external_body]
pub(crate) fn arena_insert(m: &mut Arena, v: QtNode) -> (k: DefaultKey)
    requires
        arena_nodes(*old(m)).dom().finite(),
        arena_nodes(*old(m)).len() < ARENA_LIMIT,
    ensures
        !arena_nodes(*old(m)).contains_key(k),
        arena_nodes(*final(m)) == arena_nodes(*old(m)).insert(k, v),
{
    m.map.insert(v)
}

/// Relies on `DenseSlotMap::get`: the element stored under the key, if any.
#[verifier::external_body]
pub(crate) fn arena_get(m: &Arena, k: DefaultKey) -> (r: Option<&QtNode>)
    ensures
        r.is_some() == arena_nodes(*m).contains_key(k),
        r.is_some() ==> *r.unwrap() == arena_nodes(*m)[k],
{
    m.map.get(k)
}

/// Relies on `DenseSlotMap::contains_key`: whether an element is stored under the key.
#[verifier::external_body]
pub(crate) fn arena_contains(m: &Arena, k: DefaultKey) -> (r: bool)
    ensures
        r == arena_nodes(*m).contains_key(k),
{
    m.map.contains_key(k)
}

/// Node `n` heads a tree of height at most `h` whose child keys all resolve in `m`.
pub open spec fn node_wf(m: Map<DefaultKey, QtNode>, n: QtNode, h: nat) -> bool
    decreases h,
{
    match n {
        QtNode::Leaf(_) => true,
        QtNode::Interior(i) => {
            &&& h > 0
            &&& m.contains_key(i.children[0])
            &&& m.contains_key(i.children[1])
            &&& m.contains_key(i.children[2])
            &&& m.contains_key(i.children[3])
            &&& node_wf(m, m[i.children[0]], (h - 1) as nat)
            &&& node_wf(m, m[i.children[1]], (h - 1) as nat)
            &&& node_wf(m, m[i.children[2]], (h - 1) as nat)
            &&& node_wf(m, m[i.children[3]], (h - 1) as nat)
        },
    }
}

/// The tree headed by node `n`, read through `m` down to height `h`.
pub open spec fn node_model(m: Map<DefaultKey, QtNode>, n: QtNode, h: nat) -> Tree
    decreases h,
{
    match n {
        QtNode::Leaf(l) => Tree::Leaf { rect: l.geom, vals: l.vertex_eval },
        QtNode::Interior(i) => if h == 0 {
            Tree::Leaf { rect: i.geom, vals: [0, 0, 0, 0] }
        } else {
            Tree::Node {
                rect: i.geom,
                c0: Box::new(node_model(m, m[i.children[0]], (h - 1) as nat)),
                c1: Box::new(node_model(m, m[i.children[1]], (h - 1) as nat)),
                c2: Box::new(node_model(m, m[i.children[2]], (h - 1) as nat)),
                c3: Box::new(node_model(m, m[i.children[3]], (h - 1) as nat)),
            }
        },
    }
}

/// Adding entries to an arena leaves every well-formed subtree as it was.
pub proof fn lemma_extend(m1: Map<DefaultKey, QtNode>, m2: Map<DefaultKey, QtNode>, n: QtNode, h: nat)
    requires
        m1.submap_of(m2),
        node_wf(m1, n, h),
    ensures
        node_wf(m2, n, h),
        node_model(m2, n, h) == node_model(m1, n, h),
    decreases h,
{
    if let QtNode::Interior(i) = n {
        let h1 = (h - 1) as nat;
        lemma_extend(m1, m2, m1[i.children[0]], h1);
        lemma_extend(m1, m2, m1[i.children[1]], h1);
        lemma_extend(m1, m2, m1[i.children[2]], h1);
        lemma_extend(m1, m2, m1[i.children[3]], h1);
    }
}

} // verus!
