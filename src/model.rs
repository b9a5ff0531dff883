//! The mathematical model of a quadtree: a finite tree of rectangles whose
//! leaves carry the field samples at their four corners.
use crate::geometry::{Point, Rect};
use vstd::prelude::*;

verus! {

/// Sign class of a cell: all four corner samples strictly positive, all
/// strictly negative, or anything else (a zero sample counts as neither sign).
#[derive(Clone, Copy, Debug, PartialEq, Eq, Hash, Structural)]
pub enum CellClass {
    Positive,
    Negative,
    Mixed,
}

pub open spec fn class_of(v: [i64; 4]) -> CellClass {
    if v[0] > 0 && v[1] > 0 && v[2] > 0 && v[3] > 0 {
        CellClass::Positive
    } else if v[0] < 0 && v[1] < 0 && v[2] < 0 && v[3] < 0 {
        CellClass::Negative
    } else {
        CellClass::Mixed
    }
}

pub open spec fn homogeneous(v: [i64; 4]) -> bool {
    class_of(v) != CellClass::Mixed
}

/// A quadtree as a value: children are listed in quadrant order.
pub enum Tree {
    Leaf { rect: Rect, vals: [i64; 4] },
    Node { rect: Rect, c0: Box<Tree>, c1: Box<Tree>, c2: Box<Tree>, c3: Box<Tree> },
}

/// Corner samples of quadrant `i`, given the parent's corner samples `cv`,
/// its edge midpoint samples `mv` and its center sample `z`.
pub open spec fn child_vals(cv: [i64; 4], mv: [i64; 4], z: i64, i: int) -> [i64; 4] {
    if i == 0 {
        [cv[0], mv[0], z, mv[3]]
    } else if i == 1 {
        [mv[0], cv[1], mv[1], z]
    } else if i == 2 {
        [z, mv[1], cv[2], mv[2]]
    } else {
        [mv[3], z, mv[2], cv[3]]
    }
}

/// Samples of `g` at the corners of `r`, in corner order.
pub open spec fn corner_samples(g: spec_fn(Point) -> i64, r: Rect) -> [i64; 4] {
    let c = r.corners_spec();
    [g(c[0]), g(c[1]), g(c[2]), g(c[3])]
}

/// Samples of `g` at the edge midpoints of `r`, in edge order.
pub open spec fn midpoint_samples(g: spec_fn(Point) -> i64, r: Rect) -> [i64; 4] {
    let m = r.midpoints_spec();
    [g(m[0]), g(m[1]), g(m[2]), g(m[3])]
}

/// Sign of a sample: 1, -1, or 0 for a zero sample.
pub open spec fn sign(v: i64) -> int {
    if v > 0 {
        1
    } else if v < 0 {
        -1
    } else {
        0
    }
}

/// Edge `i` of a cell, from corner `i` to corner `i + 1`, when its two end
/// samples differ in sign; nothing otherwise.
pub open spec fn edge_crossing(rect: Rect, vals: [i64; 4], i: int) -> Seq<(Point, Point)> {
    let c = rect.corners_spec();
    let j = (i + 1) % 4;
    if sign(vals[i]) != sign(vals[j]) {
        seq![(c[i], c[j])]
    } else {
        Seq::empty()
    }
}

/// The sign-changing edges among the first `n` edges of a cell, in edge order.
pub open spec fn crossings_upto(rect: Rect, vals: [i64; 4], n: nat) -> Seq<(Point, Point)>
    decreases n,
{
    if n == 0 {
        Seq::empty()
    } else {
        crossings_upto(rect, vals, (n - 1) as nat) + edge_crossing(rect, vals, n - 1)
    }
}

/// The sign-changing edges of a cell, in edge order.
pub open spec fn leaf_crossings(rect: Rect, vals: [i64; 4]) -> Seq<(Point, Point)> {
    crossings_upto(rect, vals, 4)
}

/// Four children can be fused into one leaf: each is a leaf and each is
/// homogeneous on its own.
pub open spec fn collapsible(a: Tree, b: Tree, c: Tree, d: Tree) -> bool {
    a.is_leaf() && b.is_leaf() && c.is_leaf() && d.is_leaf() && homogeneous(a.leaf_vals())
        && homogeneous(b.leaf_vals()) && homogeneous(c.leaf_vals()) && homogeneous(d.leaf_vals())
}

/// The node over `rect` with the given children, fused into one leaf when
/// they are collapsible. Corner `i` of the fused leaf is corner `i` of child `i`.
pub open spec fn merge(rect: Rect, a: Tree, b: Tree, c: Tree, d: Tree) -> Tree {
    if collapsible(a, b, c, d) {
        Tree::Leaf {
            rect,
            vals: [a.leaf_vals()[0], b.leaf_vals()[1], c.leaf_vals()[2], d.leaf_vals()[3]],
        }
    } else {
        Tree::Node { rect, c0: Box::new(a), c1: Box::new(b), c2: Box::new(c), c3: Box::new(d) }
    }
}

/// The tree that recursive subdivision of `r` to depth `d` yields, where `cv`
/// are the samples at the corners of `r`; with `eager`, each node is merged
/// as soon as its children exist.
pub open spec fn build_model(
    g: spec_fn(Point) -> i64,
    r: Rect,
    d: nat,
    cv: [i64; 4],
    eager: bool,
) -> Tree
    decreases d,
{
    if d == 0 {
        Tree::Leaf { rect: r, vals: cv }
    } else {
        let mv = midpoint_samples(g, r);
        let z = g(r.center_spec());
        let a = build_model(g, r.quadrant(0), (d - 1) as nat, child_vals(cv, mv, z, 0), eager);
        let b = build_model(g, r.quadrant(1), (d - 1) as nat, child_vals(cv, mv, z, 1), eager);
        let c = build_model(g, r.quadrant(2), (d - 1) as nat, child_vals(cv, mv, z, 2), eager);
        let e = build_model(g, r.quadrant(3), (d - 1) as nat, child_vals(cv, mv, z, 3), eager);
        if eager {
            merge(r, a, b, c, e)
        } else {
            Tree::Node { rect: r, c0: Box::new(a), c1: Box::new(b), c2: Box::new(c), c3: Box::new(e) }
        }
    }
}

/// Number of field samples taken by subdivision below a node of depth `d`
/// whose corner samples are already known: five per subdivided node.
pub open spec fn inner_evaluations(d: nat) -> nat
    decreases d,
{
    if d == 0 {
        0
    } else {
        5 + 4 * inner_evaluations((d - 1) as nat)
    }
}

/// Number of field samples taken by a whole build of depth `d`.
pub open spec fn build_evaluations(d: nat) -> nat {
    4 + inner_evaluations(d)
}

/// Largest number of nodes below a node of depth `d`.
pub open spec fn max_nodes_below(d: nat) -> nat
    decreases d,
{
    if d == 0 {
        0
    } else {
        4 + 4 * max_nodes_below((d - 1) as nat)
    }
}

pub open spec fn pow2(d: nat) -> nat
    decreases d,
{
    if d == 0 {
        1
    } else {
        2 * pow2((d - 1) as nat)
    }
}

pub open spec fn pow4(d: nat) -> nat
    decreases d,
{
    if d == 0 {
        1
    } else {
        4 * pow4((d - 1) as nat)
    }
}

/// Some leaf of `new` has the class of `e` and holds its rectangle.
pub open spec fn covered_by(new: Seq<(Rect, CellClass)>, e: (Rect, CellClass)) -> bool {
    exists|j: int| 0 <= j < new.len() && (#[trigger] new[j]).1 == e.1 && e.0.within(new[j].0)
}

/// Every leaf of `old` lies inside a leaf of `new` of the same class.
pub open spec fn covers(new: Seq<(Rect, CellClass)>, old: Seq<(Rect, CellClass)>) -> bool {
    forall|i: int| 0 <= i < old.len() ==> #[trigger] covered_by(new, old[i])
}

impl Tree {
    pub open spec fn rect(self) -> Rect {
        match self {
            Tree::Leaf { rect, .. } => rect,
            Tree::Node { rect, .. } => rect,
        }
    }

    pub open spec fn is_leaf(self) -> bool {
        self is Leaf
    }

    pub open spec fn leaf_vals(self) -> [i64; 4] {
        match self {
            Tree::Leaf { vals, .. } => vals,
            Tree::Node { .. } => [0, 0, 0, 0],
        }
    }

    /// The sample at corner `i` of the region: taken from the leaf that holds
    /// that corner.
    pub open spec fn corner_val(self, i: int) -> i64
        decreases self,
    {
        match self {
            Tree::Leaf { vals, .. } => vals[i],
            Tree::Node { c0, c1, c2, c3, .. } => if i == 0 {
                c0.corner_val(i)
            } else if i == 1 {
                c1.corner_val(i)
            } else if i == 2 {
                c2.corner_val(i)
            } else {
                c3.corner_val(i)
            },
        }
    }

    /// The leaves in pre-order, each with its rectangle and class.
    pub open spec fn leaves(self) -> Seq<(Rect, CellClass)>
        decreases self,
    {
        match self {
            Tree::Leaf { rect, vals } => seq![(rect, class_of(vals))],
            Tree::Node { c0, c1, c2, c3, .. } => c0.leaves() + c1.leaves() + c2.leaves()
                + c3.leaves(),
        }
    }

    /// The sign-changing edges of every leaf, leaves in pre-order.
    pub open spec fn crossings(self) -> Seq<(Point, Point)>
        decreases self,
    {
        match self {
            Tree::Leaf { rect, vals } => leaf_crossings(rect, vals),
            Tree::Node { c0, c1, c2, c3, .. } => c0.crossings() + c1.crossings() + c2.crossings()
                + c3.crossings(),
        }
    }

    pub open spec fn leaf_count(self) -> nat {
        self.leaves().len()
    }

    /// Children cover the quadrants of their parent and agree on the sample
    /// at the parent's center.
    pub open spec fn consistent(self) -> bool
        decreases self,
    {
        self.rect().in_limits() && match self {
            Tree::Leaf { .. } => true,
            Tree::Node { rect, c0, c1, c2, c3 } => {
                &&& c0.rect() == rect.quadrant(0)
                &&& c1.rect() == rect.quadrant(1)
                &&& c2.rect() == rect.quadrant(2)
                &&& c3.rect() == rect.quadrant(3)
                &&& c0.corner_val(2) == c1.corner_val(3)
                &&& c1.corner_val(3) == c2.corner_val(0)
                &&& c2.corner_val(0) == c3.corner_val(1)
                &&& c0.consistent()
                &&& c1.consistent()
                &&& c2.consistent()
                &&& c3.consistent()
            },
        }
    }

    /// Bottom-up collapse: children first, then the node itself is merged.
    pub open spec fn collapse_model(self) -> Tree
        decreases self,
    {
        match self {
            Tree::Leaf { .. } => self,
            Tree::Node { rect, c0, c1, c2, c3 } => merge(
                rect,
                c0.collapse_model(),
                c1.collapse_model(),
                c2.collapse_model(),
                c3.collapse_model(),
            ),
        }
    }
}


proof fn lemma_merge_shape(rect: Rect, a: Tree, b: Tree, c: Tree, d: Tree)
    ensures
        merge(rect, a, b, c, d).rect() == rect,
        merge(rect, a, b, c, d).corner_val(0) == a.corner_val(0),
        merge(rect, a, b, c, d).corner_val(1) == b.corner_val(1),
        merge(rect, a, b, c, d).corner_val(2) == c.corner_val(2),
        merge(rect, a, b, c, d).corner_val(3) == d.corner_val(3),
{
}

proof fn lemma_merge_consistent(rect: Rect, a: Tree, b: Tree, c: Tree, d: Tree)
    requires
        rect.in_limits(),
        a.rect() == rect.quadrant(0),
        b.rect() == rect.quadrant(1),
        c.rect() == rect.quadrant(2),
        d.rect() == rect.quadrant(3),
        a.corner_val(2) == b.corner_val(3),
        b.corner_val(3) == c.corner_val(0),
        c.corner_val(0) == d.corner_val(1),
        a.consistent(),
        b.consistent(),
        c.consistent(),
        d.consistent(),
    ensures
        merge(rect, a, b, c, d).consistent(),
{
}

/// Subdivision yields a consistent tree over `r` whose corner samples are `cv`.
pub proof fn lemma_build_shape(g: spec_fn(Point) -> i64, r: Rect, d: nat, cv: [i64; 4], eager: bool)
    requires
        r.in_limits(),
    ensures
        build_model(g, r, d, cv, eager).rect() == r,
        build_model(g, r, d, cv, eager).consistent(),
        build_model(g, r, d, cv, eager).corner_val(0) == cv[0],
        build_model(g, r, d, cv, eager).corner_val(1) == cv[1],
        build_model(g, r, d, cv, eager).corner_val(2) == cv[2],
        build_model(g, r, d, cv, eager).corner_val(3) == cv[3],
    decreases d,
{
    if d > 0 {
        let mv = midpoint_samples(g, r);
        let z = g(r.center_spec());
        let d1 = (d - 1) as nat;
        crate::geometry::lemma_quadrant_within(r, 0);
        crate::geometry::lemma_quadrant_within(r, 1);
        crate::geometry::lemma_quadrant_within(r, 2);
        crate::geometry::lemma_quadrant_within(r, 3);
        lemma_build_shape(g, r.quadrant(0), d1, child_vals(cv, mv, z, 0), eager);
        lemma_build_shape(g, r.quadrant(1), d1, child_vals(cv, mv, z, 1), eager);
        lemma_build_shape(g, r.quadrant(2), d1, child_vals(cv, mv, z, 2), eager);
        lemma_build_shape(g, r.quadrant(3), d1, child_vals(cv, mv, z, 3), eager);
        let a = build_model(g, r.quadrant(0), d1, child_vals(cv, mv, z, 0), eager);
        let b = build_model(g, r.quadrant(1), d1, child_vals(cv, mv, z, 1), eager);
        let c = build_model(g, r.quadrant(2), d1, child_vals(cv, mv, z, 2), eager);
        let e = build_model(g, r.quadrant(3), d1, child_vals(cv, mv, z, 3), eager);
        lemma_merge_shape(r, a, b, c, e);
        lemma_merge_consistent(r, a, b, c, e);
    }
}

/// Building with eager merging gives the same tree as building in full and
/// collapsing afterwards.
pub proof fn lemma_eager_is_collapse(g: spec_fn(Point) -> i64, r: Rect, d: nat, cv: [i64; 4])
    ensures
        build_model(g, r, d, cv, true) == build_model(g, r, d, cv, false).collapse_model(),
    decreases d,
{
    if d > 0 {
        let mv = midpoint_samples(g, r);
        let z = g(r.center_spec());
        let d1 = (d - 1) as nat;
        lemma_eager_is_collapse(g, r.quadrant(0), d1, child_vals(cv, mv, z, 0));
        lemma_eager_is_collapse(g, r.quadrant(1), d1, child_vals(cv, mv, z, 1));
        lemma_eager_is_collapse(g, r.quadrant(2), d1, child_vals(cv, mv, z, 2));
        lemma_eager_is_collapse(g, r.quadrant(3), d1, child_vals(cv, mv, z, 3));
    }
}

/// Every leaf of `s` has class `k` and lies inside `r`.
pub open spec fn all_inside(s: Seq<(Rect, CellClass)>, r: Rect, k: CellClass) -> bool {
    forall|i: int| 0 <= i < s.len() ==> (#[trigger] s[i]).1 == k && s[i].0.within(r)
}

proof fn lemma_covers_concat(
    n1: Seq<(Rect, CellClass)>,
    o1: Seq<(Rect, CellClass)>,
    n2: Seq<(Rect, CellClass)>,
    o2: Seq<(Rect, CellClass)>,
)
    requires
        covers(n1, o1),
        covers(n2, o2),
    ensures
        covers(n1 + n2, o1 + o2),
{
    let n = n1 + n2;
    let o = o1 + o2;
    assert forall|i: int| 0 <= i < o.len() implies #[trigger] covered_by(n, o[i]) by {
        if i < o1.len() {
            assert(o[i] == o1[i]);
            assert(covered_by(n1, o1[i]));
            let j = choose|j: int| 0 <= j < n1.len() && (#[trigger] n1[j]).1 == o1[i].1 && o1[i].0.within(n1[j].0);
            assert(n[j] == n1[j]);
        } else {
            let k = i - o1.len();
            assert(o[i] == o2[k]);
            assert(covered_by(n2, o2[k]));
            let j = choose|j: int| 0 <= j < n2.len() && (#[trigger] n2[j]).1 == o2[k].1 && o2[k].0.within(n2[j].0);
            assert(n[j + n1.len()] == n2[j]);
        }
    }
}

proof fn lemma_all_inside_concat(s1: Seq<(Rect, CellClass)>, s2: Seq<(Rect, CellClass)>, r: Rect, k: CellClass)
    requires
        all_inside(s1, r, k),
        all_inside(s2, r, k),
    ensures
        all_inside(s1 + s2, r, k),
{
    let s = s1 + s2;
    assert forall|i: int| 0 <= i < s.len() implies (#[trigger] s[i]).1 == k && s[i].0.within(r) by {
        if i < s1.len() {
            assert(s[i] == s1[i]);
        } else {
            assert(s[i] == s2[i - s1.len()]);
        }
    }
}

proof fn lemma_within_trans(a: Rect, b: Rect, c: Rect)
    requires
        a.within(b),
        b.within(c),
    ensures
        a.within(c),
{
}

/// A leaf's single entry covers `s` when `s` lies inside that leaf with its class.
proof fn lemma_leaf_covers(s: Seq<(Rect, CellClass)>, r: Rect, k: CellClass)
    requires
        all_inside(s, r, k),
    ensures
        covers(seq![(r, k)], s),
{
    let one = seq![(r, k)];
    assert forall|i: int| 0 <= i < s.len() implies #[trigger] covered_by(one, s[i]) by {
        assert(one[0] == (r, k));
    }
}

/// What collapsing keeps: the region, the corner samples and consistency;
/// what it may only lower: the leaf count; and each old leaf lies
/// inside a new leaf of the same class.
pub proof fn lemma_collapse(t: Tree)
    requires
        t.consistent(),
    ensures
        t.collapse_model().rect() == t.rect(),
        t.collapse_model().corner_val(0) == t.corner_val(0),
        t.collapse_model().corner_val(1) == t.corner_val(1),
        t.collapse_model().corner_val(2) == t.corner_val(2),
        t.collapse_model().corner_val(3) == t.corner_val(3),
        t.collapse_model().consistent(),
        t.collapse_model().leaf_count() <= t.leaf_count(),
        covers(t.collapse_model().leaves(), t.leaves()),
    decreases t,
{
    match t {
        Tree::Leaf { .. } => {
            assert forall|i: int| 0 <= i < t.leaves().len() implies #[trigger] covered_by(t.leaves(), t.leaves()[i]) by {
                assert(t.leaves()[i].0.within(t.leaves()[i].0));
            }
        },
        Tree::Node { rect, c0, c1, c2, c3 } => {
            lemma_collapse(*c0);
            lemma_collapse(*c1);
            lemma_collapse(*c2);
            lemma_collapse(*c3);
            let a = c0.collapse_model();
            let b = c1.collapse_model();
            let c = c2.collapse_model();
            let d = c3.collapse_model();
            lemma_merge_shape(rect, a, b, c, d);
            lemma_merge_consistent(rect, a, b, c, d);
            if collapsible(a, b, c, d) {
                let k = class_of(a.leaf_vals());
                crate::geometry::lemma_quadrant_within(rect, 0);
                crate::geometry::lemma_quadrant_within(rect, 1);
                crate::geometry::lemma_quadrant_within(rect, 2);
                crate::geometry::lemma_quadrant_within(rect, 3);
                assert(a.leaves() == seq![(a.rect(), class_of(a.leaf_vals()))]);
                assert(b.leaves() == seq![(b.rect(), class_of(b.leaf_vals()))]);
                assert(c.leaves() == seq![(c.rect(), class_of(c.leaf_vals()))]);
                assert(d.leaves() == seq![(d.rect(), class_of(d.leaf_vals()))]);
                assert(class_of(b.leaf_vals()) == k);
                assert(class_of(c.leaf_vals()) == k);
                assert(class_of(d.leaf_vals()) == k);
                assert(t.collapse_model().leaves() == seq![(rect, k)]);
                assert(all_inside(c0.leaves(), rect, k)) by {
                    assert forall|i: int| 0 <= i < c0.leaves().len() implies (#[trigger] c0.leaves()[i]).1 == k
                        && c0.leaves()[i].0.within(rect) by {
                        assert(a.leaves()[0] == (a.rect(), k));
                        assert(covered_by(a.leaves(), c0.leaves()[i]));
                        lemma_within_trans(c0.leaves()[i].0, a.rect(), rect);
                    }
                }
                assert(all_inside(c1.leaves(), rect, k)) by {
                    assert forall|i: int| 0 <= i < c1.leaves().len() implies (#[trigger] c1.leaves()[i]).1 == k
                        && c1.leaves()[i].0.within(rect) by {
                        assert(b.leaves()[0] == (b.rect(), k));
                        assert(covered_by(b.leaves(), c1.leaves()[i]));
                        lemma_within_trans(c1.leaves()[i].0, b.rect(), rect);
                    }
                }
                assert(all_inside(c2.leaves(), rect, k)) by {
                    assert forall|i: int| 0 <= i < c2.leaves().len() implies (#[trigger] c2.leaves()[i]).1 == k
                        && c2.leaves()[i].0.within(rect) by {
                        assert(c.leaves()[0] == (c.rect(), k));
                        assert(covered_by(c.leaves(), c2.leaves()[i]));
                        lemma_within_trans(c2.leaves()[i].0, c.rect(), rect);
                    }
                }
                assert(all_inside(c3.leaves(), rect, k)) by {
                    assert forall|i: int| 0 <= i < c3.leaves().len() implies (#[trigger] c3.leaves()[i]).1 == k
                        && c3.leaves()[i].0.within(rect) by {
                        assert(d.leaves()[0] == (d.rect(), k));
                        assert(covered_by(d.leaves(), c3.leaves()[i]));
                        lemma_within_trans(c3.leaves()[i].0, d.rect(), rect);
                    }
                }
                lemma_all_inside_concat(c0.leaves(), c1.leaves(), rect, k);
                lemma_all_inside_concat(c0.leaves() + c1.leaves(), c2.leaves(), rect, k);
                lemma_all_inside_concat(c0.leaves() + c1.leaves() + c2.leaves(), c3.leaves(), rect, k);
                lemma_leaf_covers(t.leaves(), rect, k);
            } else {
                lemma_covers_concat(a.leaves(), c0.leaves(), b.leaves(), c1.leaves());
                lemma_covers_concat(a.leaves() + b.leaves(), c0.leaves() + c1.leaves(), c.leaves(), c2.leaves());
                lemma_covers_concat(
                    a.leaves() + b.leaves() + c.leaves(),
                    c0.leaves() + c1.leaves() + c2.leaves(),
                    d.leaves(),
                    c3.leaves(),
                );
            }
        },
    }
}

/// Collapsing a collapsed tree changes nothing.
pub proof fn lemma_collapse_idempotent(t: Tree)
    ensures
        t.collapse_model().collapse_model() == t.collapse_model(),
    decreases t,
{
    match t {
        Tree::Leaf { .. } => {},
        Tree::Node { rect, c0, c1, c2, c3 } => {
            lemma_collapse_idempotent(*c0);
            lemma_collapse_idempotent(*c1);
            lemma_collapse_idempotent(*c2);
            lemma_collapse_idempotent(*c3);
        },
    }
}

} // verus!
