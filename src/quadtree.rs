//! The adaptive quadtree: construction from a field, collapse and traversal.
use crate::arena::{
    arena_contains, arena_get, arena_insert, arena_new, arena_nodes, lemma_extend, node_model,
    node_wf, Arena, QtInterior, QtLeaf, QtNode, ARENA_LIMIT,
};
use crate::geometry::{lemma_quadrant_within, Point, Rect};
use crate::model::{
    build_evaluations, build_model, class_of, corner_samples, covers, homogeneous,
    crossings_upto, inner_evaluations, leaf_crossings, lemma_build_shape, lemma_collapse, lemma_eager_is_collapse,
    max_nodes_below, merge, pow2, pow4, sign, CellClass, Tree,
};
use slotmap::DefaultKey;
use vstd::prelude::*;

verus! {

/// Deepest subdivision accepted: a full tree one level deeper would not fit
/// in the arena.
pub const MAX_DEPTH: usize = 15;

/// `f` can be sampled at every lattice point inside the coordinate limits, and
/// gives one value for each point.
pub open spec fn is_field<F: Fn(Point) -> i64>(f: F) -> bool {
    &&& forall|p: Point| p.in_limits() ==> #[trigger] f.requires((p,))
    &&& forall|p: Point, a: i64, b: i64|
        #[trigger] f.ensures((p,), a) && #[trigger] f.ensures((p,), b) ==> a == b
}

/// The function of points that `f` computes.
pub open spec fn field_of<F: Fn(Point) -> i64>(f: F) -> spec_fn(Point) -> i64 {
    |p: Point| choose|v: i64| f.ensures((p,), v)
}

proof fn lemma_sample<F: Fn(Point) -> i64>(f: F, p: Point, v: i64)
    requires
        is_field(f),
        f.ensures((p,), v),
    ensures
        field_of(f)(p) == v,
{
    let w = choose|w: i64| f.ensures((p,), w);
    assert(f.ensures((p,), w));
}

proof fn lemma_pow4_identities(d: nat)
    ensures
        3 * inner_evaluations(d) + 5 == 5 * pow4(d),
        3 * max_nodes_below(d) + 4 == 4 * pow4(d),
        pow4(d) >= 1,
    decreases d,
{
    if d > 0 {
        lemma_pow4_identities((d - 1) as nat);
    }
}

proof fn lemma_pow4_monotone(a: nat, b: nat)
    requires
        a <= b,
    ensures
        pow4(a) <= pow4(b),
    decreases b,
{
    if a < b {
        lemma_pow4_monotone(a, (b - 1) as nat);
    }
}

/// What a build of depth at most `MAX_DEPTH` costs, in leaves, nodes and samples.
proof fn lemma_budget(d: nat)
    requires
        d <= MAX_DEPTH,
    ensures
        pow4(d) <= 0x4000_0000,
        max_nodes_below(d) + 1 <= ARENA_LIMIT,
        build_evaluations(d) <= 0xffff_ffff,
{
    reveal_with_fuel(pow4, 16);
    assert(pow4(15) == 0x4000_0000);
    lemma_pow4_monotone(d, 15);
    lemma_pow4_identities(d);
}

/// A node of height at most `h` has at most `4^h` leaves below it.
proof fn lemma_leaf_bound(m: Map<DefaultKey, QtNode>, n: QtNode, h: nat)
    requires
        node_wf(m, n, h),
    ensures
        node_model(m, n, h).leaf_count() <= pow4(h),
    decreases h,
{
    lemma_pow4_identities(h);
    if let QtNode::Interior(i) = n {
        let h1 = (h - 1) as nat;
        lemma_leaf_bound(m, m[i.children[0]], h1);
        lemma_leaf_bound(m, m[i.children[1]], h1);
        lemma_leaf_bound(m, m[i.children[2]], h1);
        lemma_leaf_bound(m, m[i.children[3]], h1);
    }
}

/// Samples the field at `p`, counting the evaluation.
fn sample<F: Fn(Point) -> i64>(f: &F, p: Point, evals: &mut usize) -> (v: i64)
    requires
        is_field(*f),
        p.in_limits(),
        *old(evals) < usize::MAX,
    ensures
        v == field_of(*f)(p),
        *final(evals) == *old(evals) + 1,
{
    let v = f(p);
    proof {
        lemma_sample(*f, p, v);
    }
    *evals = *evals + 1;
    v
}

/// Sign of a sample: 1, -1, or 0.
fn signum(v: i64) -> (r: i8)
    ensures
        r == sign(v),
{
    if v > 0 {
        1
    } else if v < 0 {
        -1
    } else {
        0
    }
}

impl QtLeaf {
    /// The sign class of this leaf's corner samples.
    pub fn cell_class(&self) -> (r: CellClass)
        ensures
            r == class_of(self.vertex_eval),
    {
        let v = &self.vertex_eval;
        if v[0] > 0 && v[1] > 0 && v[2] > 0 && v[3] > 0 {
            CellClass::Positive
        } else if v[0] < 0 && v[1] < 0 && v[2] < 0 && v[3] < 0 {
            CellClass::Negative
        } else {
            CellClass::Mixed
        }
    }

    /// The edges whose end samples differ in sign, each as its two end
    /// corners, in edge order: where the zero set crosses this leaf's boundary.
    pub fn crossing_edges(&self) -> (r: Vec<(Point, Point)>)
        ensures
            r@ == leaf_crossings(self.geom, self.vertex_eval),
    {
        let c = self.geom.corners();
        let v = &self.vertex_eval;
        let mut r: Vec<(Point, Point)> = Vec::new();
        let mut i: usize = 0;
        while i < 4
            invariant
                i <= 4,
                c == self.geom.corners_spec(),
                *v == self.vertex_eval,
                r@ == crossings_upto(self.geom, self.vertex_eval, i as nat),
            decreases 4 - i,
        {
            let j = (i + 1) % 4;
            if signum(v[i]) != signum(v[j]) {
                r.push((c[i], c[j]));
            }
            i = i + 1;
        }
        r
    }

    /// Whether all four corner samples have one strict sign.
    pub fn is_homogenous(&self) -> (r: bool)
        ensures
            r == homogeneous(self.vertex_eval),
    {
        match self.cell_class() {
            CellClass::Mixed => false,
            _ => true,
        }
    }
}

impl QtNode {
    /// The corner samples of this node when it is a homogeneous leaf.
    fn homogeneous_leaf(&self) -> (r: Option<[i64; 4]>)
        ensures
            r == (match *self {
                QtNode::Leaf(l) => if homogeneous(l.vertex_eval) {
                    Some(l.vertex_eval)
                } else {
                    None
                },
                QtNode::Interior(_) => None,
            }),
    {
        match self {
            QtNode::Leaf(l) => if l.is_homogenous() {
                Some(l.vertex_eval)
            } else {
                None
            },
            QtNode::Interior(_) => None,
        }
    }
}

/// Stores four subtrees in the arena and returns the interior node over `bb`
/// that holds their keys.
fn join(
    bb: &Rect,
    a: QtNode,
    b: QtNode,
    c: QtNode,
    d: QtNode,
    nm: &mut Arena,
    Ghost(h): Ghost<nat>,
) -> (r: QtNode)
    requires
        arena_nodes(*old(nm)).dom().finite(),
        arena_nodes(*old(nm)).len() + 4 <= ARENA_LIMIT,
        node_wf(arena_nodes(*old(nm)), a, h),
        node_wf(arena_nodes(*old(nm)), b, h),
        node_wf(arena_nodes(*old(nm)), c, h),
        node_wf(arena_nodes(*old(nm)), d, h),
    ensures
        arena_nodes(*old(nm)).submap_of(arena_nodes(*final(nm))),
        arena_nodes(*final(nm)).dom().finite(),
        arena_nodes(*final(nm)).len() == arena_nodes(*old(nm)).len() + 4,
        node_wf(arena_nodes(*final(nm)), r, h + 1),
        node_model(arena_nodes(*final(nm)), r, h + 1) == (Tree::Node {
            rect: *bb,
            c0: Box::new(node_model(arena_nodes(*old(nm)), a, h)),
            c1: Box::new(node_model(arena_nodes(*old(nm)), b, h)),
            c2: Box::new(node_model(arena_nodes(*old(nm)), c, h)),
            c3: Box::new(node_model(arena_nodes(*old(nm)), d, h)),
        }),
{
    let ghost m0 = arena_nodes(*nm);
    let ka = arena_insert(nm, a);
    let kb = arena_insert(nm, b);
    let kc = arena_insert(nm, c);
    let kd = arena_insert(nm, d);
    let ghost m4 = arena_nodes(*nm);
    proof {
        assert(m0.submap_of(m4));
        lemma_extend(m0, m4, a, h);
        lemma_extend(m0, m4, b, h);
        lemma_extend(m0, m4, c, h);
        lemma_extend(m0, m4, d, h);
    }
    QtNode::Interior(QtInterior { geom: *bb, children: [ka, kb, kc, kd] })
}

/// The node over `bb` with the given subtrees: one merged leaf when all four
/// are homogeneous leaves, else an interior node that stores them.
fn merge_or_join(
    bb: &Rect,
    a: QtNode,
    b: QtNode,
    c: QtNode,
    d: QtNode,
    nm: &mut Arena,
    Ghost(h): Ghost<nat>,
) -> (r: QtNode)
    requires
        arena_nodes(*old(nm)).dom().finite(),
        arena_nodes(*old(nm)).len() + 4 <= ARENA_LIMIT,
        node_wf(arena_nodes(*old(nm)), a, h),
        node_wf(arena_nodes(*old(nm)), b, h),
        node_wf(arena_nodes(*old(nm)), c, h),
        node_wf(arena_nodes(*old(nm)), d, h),
    ensures
        arena_nodes(*old(nm)).submap_of(arena_nodes(*final(nm))),
        arena_nodes(*final(nm)).dom().finite(),
        arena_nodes(*final(nm)).len() <= arena_nodes(*old(nm)).len() + 4,
        node_wf(arena_nodes(*final(nm)), r, h + 1),
        node_model(arena_nodes(*final(nm)), r, h + 1) == merge(
            *bb,
            node_model(arena_nodes(*old(nm)), a, h),
            node_model(arena_nodes(*old(nm)), b, h),
            node_model(arena_nodes(*old(nm)), c, h),
            node_model(arena_nodes(*old(nm)), d, h),
        ),
{
    let va = a.homogeneous_leaf();
    let vb = b.homogeneous_leaf();
    let vc = c.homogeneous_leaf();
    let vd = d.homogeneous_leaf();
    if va.is_some() && vb.is_some() && vc.is_some() && vd.is_some() {
        let va = va.unwrap();
        let vb = vb.unwrap();
        let vc = vc.unwrap();
        let vd = vd.unwrap();
        QtNode::Leaf(QtLeaf { geom: *bb, vertex_eval: [va[0], vb[1], vc[2], vd[3]] })
    } else {
        join(bb, a, b, c, d, nm, Ghost(h))
    }
}

/// Subdivides `bb` down to `depth` levels, given the samples `cv` at its
/// corners; with `eager`, each node is merged as soon as its children exist.
/// Children are stored in the arena; the node itself is returned.
fn build_node<F: Fn(Point) -> i64>(
    f: &F,
    bb: &Rect,
    depth: usize,
    cv: [i64; 4],
    eager: bool,
    nm: &mut Arena,
    evals: &mut usize,
) -> (r: QtNode)
    requires
        is_field(*f),
        bb.in_limits(),
        depth <= MAX_DEPTH,
        arena_nodes(*old(nm)).dom().finite(),
        arena_nodes(*old(nm)).len() + max_nodes_below(depth as nat) <= ARENA_LIMIT,
        *old(evals) + inner_evaluations(depth as nat) <= usize::MAX,
    ensures
        arena_nodes(*old(nm)).submap_of(arena_nodes(*final(nm))),
        arena_nodes(*final(nm)).dom().finite(),
        arena_nodes(*final(nm)).len() <= arena_nodes(*old(nm)).len() + max_nodes_below(
            depth as nat,
        ),
        node_wf(arena_nodes(*final(nm)), r, depth as nat),
        node_model(arena_nodes(*final(nm)), r, depth as nat) == build_model(
            field_of(*f),
            *bb,
            depth as nat,
            cv,
            eager,
        ),
        *final(evals) == *old(evals) + inner_evaluations(depth as nat),
    decreases depth,
{
    if depth == 0 {
        return QtNode::Leaf(QtLeaf { geom: *bb, vertex_eval: cv });
    }
    let ghost g = field_of(*f);
    let mp = bb.midpoints();
    let c = bb.center();
    let mid = [sample(f, mp[0], evals), sample(f, mp[1], evals), sample(f, mp[2], evals), sample(f, mp[3], evals)];
    let c_eval = sample(f, c, evals);

    let evs = [
        [cv[0], mid[0], c_eval, mid[3]],
        [mid[0], cv[1], mid[1], c_eval],
        [c_eval, mid[1], cv[2], mid[2]],
        [mid[3], c_eval, mid[2], cv[3]],
    ];
    let corners = bb.corners();
    let rects = [
        Rect::from_points(&corners[0], &c),
        Rect::from_points(&mp[0], &mp[1]),
        Rect::from_points(&c, &corners[2]),
        Rect::from_points(&mp[3], &mp[2]),
    ];
    proof {
        lemma_quadrant_within(*bb, 0);
        lemma_quadrant_within(*bb, 1);
        lemma_quadrant_within(*bb, 2);
        lemma_quadrant_within(*bb, 3);
        assert(rects[0] == bb.quadrant(0));
        assert(rects[1] == bb.quadrant(1));
        assert(rects[2] == bb.quadrant(2));
        assert(rects[3] == bb.quadrant(3));
    }
    let d1 = depth - 1;
    let ghost m0 = arena_nodes(*nm);
    let n0 = build_node(f, &rects[0], d1, evs[0], eager, nm, evals);
    let ghost m1 = arena_nodes(*nm);
    let n1 = build_node(f, &rects[1], d1, evs[1], eager, nm, evals);
    let ghost m2 = arena_nodes(*nm);
    let n2 = build_node(f, &rects[2], d1, evs[2], eager, nm, evals);
    let ghost m3 = arena_nodes(*nm);
    let n3 = build_node(f, &rects[3], d1, evs[3], eager, nm, evals);
    let ghost m4 = arena_nodes(*nm);
    proof {
        vstd::map_lib::lemma_submap_of_trans(m1, m2, m3);
        vstd::map_lib::lemma_submap_of_trans(m1, m3, m4);
        vstd::map_lib::lemma_submap_of_trans(m2, m3, m4);
        vstd::map_lib::lemma_submap_of_trans(m0, m1, m4);
        lemma_extend(m1, m4, n0, d1 as nat);
        lemma_extend(m2, m4, n1, d1 as nat);
        lemma_extend(m3, m4, n2, d1 as nat);
    }
    let r = if eager {
        merge_or_join(bb, n0, n1, n2, n3, nm, Ghost(d1 as nat))
    } else {
        join(bb, n0, n1, n2, n3, nm, Ghost(d1 as nat))
    };
    proof {
        vstd::map_lib::lemma_submap_of_trans(m0, m4, arena_nodes(*nm));
    }
    r
}


/// Copies the subtree headed by `n` from `src` into `dst`, collapsing it
/// bottom-up on the way; the new head is returned, its children stored in `dst`.
fn collapse_copy(src: &Arena, n: &QtNode, h: usize, dst: &mut Arena) -> (r: QtNode)
    requires
        node_wf(arena_nodes(*src), *n, h as nat),
        arena_nodes(*old(dst)).dom().finite(),
        arena_nodes(*old(dst)).len() + max_nodes_below(h as nat) <= ARENA_LIMIT,
    ensures
        arena_nodes(*old(dst)).submap_of(arena_nodes(*final(dst))),
        arena_nodes(*final(dst)).dom().finite(),
        arena_nodes(*final(dst)).len() <= arena_nodes(*old(dst)).len() + max_nodes_below(h as nat),
        node_wf(arena_nodes(*final(dst)), r, h as nat),
        node_model(arena_nodes(*final(dst)), r, h as nat) == node_model(
            arena_nodes(*src),
            *n,
            h as nat,
        ).collapse_model(),
    decreases h,
{
    match n {
        QtNode::Leaf(l) => QtNode::Leaf(*l),
        QtNode::Interior(i) => {
            let h1 = h - 1;
            let ghost m0 = arena_nodes(*dst);
            let r0 = collapse_copy(src, arena_get(src, i.children[0]).unwrap(), h1, dst);
            let ghost m1 = arena_nodes(*dst);
            let r1 = collapse_copy(src, arena_get(src, i.children[1]).unwrap(), h1, dst);
            let ghost m2 = arena_nodes(*dst);
            let r2 = collapse_copy(src, arena_get(src, i.children[2]).unwrap(), h1, dst);
            let ghost m3 = arena_nodes(*dst);
            let r3 = collapse_copy(src, arena_get(src, i.children[3]).unwrap(), h1, dst);
            let ghost m4 = arena_nodes(*dst);
            proof {
                vstd::map_lib::lemma_submap_of_trans(m1, m2, m3);
                vstd::map_lib::lemma_submap_of_trans(m1, m3, m4);
                vstd::map_lib::lemma_submap_of_trans(m2, m3, m4);
                vstd::map_lib::lemma_submap_of_trans(m0, m1, m4);
                lemma_extend(m1, m4, r0, h1 as nat);
                lemma_extend(m2, m4, r1, h1 as nat);
                lemma_extend(m3, m4, r2, h1 as nat);
            }
            let r = merge_or_join(&i.geom, r0, r1, r2, r3, dst, Ghost(h1 as nat));
            proof {
                vstd::map_lib::lemma_submap_of_trans(m0, m4, arena_nodes(*dst));
            }
            r
        },
    }
}

/// Number of leaves below node `n`.
fn count_node(m: &Arena, n: &QtNode, h: usize) -> (r: usize)
    requires
        node_wf(arena_nodes(*m), *n, h as nat),
        h <= MAX_DEPTH,
    ensures
        r == node_model(arena_nodes(*m), *n, h as nat).leaf_count(),
    decreases h,
{
    match n {
        QtNode::Leaf(_) => 1,
        QtNode::Interior(i) => {
            let h1 = h - 1;
            proof {
                let mm = arena_nodes(*m);
                lemma_budget(h as nat);
                lemma_pow4_identities(h as nat);
                lemma_leaf_bound(mm, mm[i.children[0]], h1 as nat);
                lemma_leaf_bound(mm, mm[i.children[1]], h1 as nat);
                lemma_leaf_bound(mm, mm[i.children[2]], h1 as nat);
                lemma_leaf_bound(mm, mm[i.children[3]], h1 as nat);
            }
            let a = count_node(m, arena_get(m, i.children[0]).unwrap(), h1);
            let b = count_node(m, arena_get(m, i.children[1]).unwrap(), h1);
            let c = count_node(m, arena_get(m, i.children[2]).unwrap(), h1);
            let d = count_node(m, arena_get(m, i.children[3]).unwrap(), h1);
            a + b + c + d
        },
    }
}

/// Appends the leaves below node `n`, in pre-order, to `out`.
fn collect_leaves(m: &Arena, n: &QtNode, h: usize, out: &mut Vec<(Rect, CellClass)>)
    requires
        node_wf(arena_nodes(*m), *n, h as nat),
    ensures
        final(out)@ == old(out)@ + node_model(arena_nodes(*m), *n, h as nat).leaves(),
    decreases h,
{
    match n {
        QtNode::Leaf(l) => {
            out.push((l.geom, l.cell_class()));
        },
        QtNode::Interior(i) => {
            let h1 = h - 1;
            let ghost s0 = out@;
            collect_leaves(m, arena_get(m, i.children[0]).unwrap(), h1, out);
            collect_leaves(m, arena_get(m, i.children[1]).unwrap(), h1, out);
            collect_leaves(m, arena_get(m, i.children[2]).unwrap(), h1, out);
            collect_leaves(m, arena_get(m, i.children[3]).unwrap(), h1, out);
            proof {
                let t = node_model(arena_nodes(*m), *n, h as nat);
                if let Tree::Node { c0, c1, c2, c3, .. } = t {
                    assert(out@ =~= s0 + (c0.leaves() + c1.leaves() + c2.leaves() + c3.leaves()));
                }
            }
        },
    }
}

/// Appends the sign-changing edges of the leaves below node `n`, leaves in
/// pre-order, to `out`.
fn collect_crossings(m: &Arena, n: &QtNode, h: usize, out: &mut Vec<(Point, Point)>)
    requires
        node_wf(arena_nodes(*m), *n, h as nat),
    ensures
        final(out)@ == old(out)@ + node_model(arena_nodes(*m), *n, h as nat).crossings(),
    decreases h,
{
    match n {
        QtNode::Leaf(l) => {
            let mut e = l.crossing_edges();
            out.append(&mut e);
        },
        QtNode::Interior(i) => {
            let h1 = h - 1;
            let ghost s0 = out@;
            collect_crossings(m, arena_get(m, i.children[0]).unwrap(), h1, out);
            collect_crossings(m, arena_get(m, i.children[1]).unwrap(), h1, out);
            collect_crossings(m, arena_get(m, i.children[2]).unwrap(), h1, out);
            collect_crossings(m, arena_get(m, i.children[3]).unwrap(), h1, out);
            proof {
                let t = node_model(arena_nodes(*m), *n, h as nat);
                if let Tree::Node { c0, c1, c2, c3, .. } = t {
                    assert(out@ =~= s0 + (c0.crossings() + c1.crossings() + c2.crossings()
                        + c3.crossings()));
                }
            }
        },
    }
}

/// Whether every child key below node `n` resolves in the arena, within
/// height `h`.
fn check_node(m: &Arena, n: &QtNode, h: usize) -> (r: bool)
    ensures
        r == node_wf(arena_nodes(*m), *n, h as nat),
    decreases h,
{
    match n {
        QtNode::Leaf(_) => true,
        QtNode::Interior(i) => {
            if h == 0 {
                return false;
            }
            let all_present = arena_contains(m, i.children[0]) && arena_contains(m, i.children[1])
                && arena_contains(m, i.children[2]) && arena_contains(m, i.children[3]);
            if !all_present {
                return false;
            }
            check_node(m, arena_get(m, i.children[0]).unwrap(), h - 1) && check_node(
                m,
                arena_get(m, i.children[1]).unwrap(),
                h - 1,
            ) && check_node(m, arena_get(m, i.children[2]).unwrap(), h - 1) && check_node(
                m,
                arena_get(m, i.children[3]).unwrap(),
                h - 1,
            )
        },
    }
}

/// An adaptive quadtree over a rectangle of the lattice, its nodes held in an
/// arena under generated keys.
pub struct QuadTree {
    node_data: Arena,
    root_node: DefaultKey,
    depth: usize,
    evaluations: usize,
}

impl View for QuadTree {
    type V = Tree;

    closed spec fn view(&self) -> Tree {
        node_model(arena_nodes(self.node_data), arena_nodes(self.node_data)[self.root_node], self.depth as nat)
    }
}

impl QuadTree {
    /// The root key and every key reachable from it through interior nodes
    /// resolve in the arena.
    pub closed spec fn valid(&self) -> bool {
        &&& arena_nodes(self.node_data).contains_key(self.root_node)
        &&& node_wf(
            arena_nodes(self.node_data),
            arena_nodes(self.node_data)[self.root_node],
            self.depth as nat,
        )
    }

    /// Number of field samples taken to build this tree.
    pub closed spec fn evaluation_count(&self) -> nat {
        self.evaluations as nat
    }

    #[verifier::type_invariant]
    closed spec fn inv(&self) -> bool {
        &&& self.valid()
        &&& self.depth <= MAX_DEPTH
        &&& arena_nodes(self.node_data).dom().finite()
        &&& self@.consistent()
    }

    /// Leaves in pre-order, each with its rectangle and class.
    pub open spec fn leaf_list(&self) -> Seq<(Rect, CellClass)> {
        self@.leaves()
    }

    pub open spec fn leaf_count(&self) -> nat {
        self@.leaf_count()
    }

    fn build<F: Fn(Point) -> i64>(f: &F, bb: &Rect, max_depth: usize, eager: bool) -> (r: QuadTree)
        requires
            is_field(*f),
            bb.in_limits(),
            max_depth <= MAX_DEPTH,
        ensures
            r.valid(),
            r@ == build_model(
                field_of(*f),
                *bb,
                max_depth as nat,
                corner_samples(field_of(*f), *bb),
                eager,
            ),
            r.evaluation_count() == build_evaluations(max_depth as nat),
    {
        proof {
            lemma_budget(max_depth as nat);
        }
        let corners = bb.corners();
        let mut evaluations: usize = 0;
        let corner_evals = [
            sample(f, corners[0], &mut evaluations),
            sample(f, corners[1], &mut evaluations),
            sample(f, corners[2], &mut evaluations),
            sample(f, corners[3], &mut evaluations),
        ];
        let mut node_map = arena_new();
        let root_node = build_node(f, bb, max_depth, corner_evals, eager, &mut node_map, &mut evaluations);
        let ghost m0 = arena_nodes(node_map);
        let root_key = arena_insert(&mut node_map, root_node);
        proof {
            lemma_extend(m0, arena_nodes(node_map), root_node, max_depth as nat);
            lemma_build_shape(field_of(*f), *bb, max_depth as nat, corner_evals, eager);
        }
        QuadTree { node_data: node_map, root_node: root_key, depth: max_depth, evaluations }
    }

    /// Builds the tree of `f` over `bb`, subdividing `max_depth` times and
    /// merging each group of four homogeneous leaves as soon as it is built.
    pub fn build_from_fn<F: Fn(Point) -> i64>(f: &F, bb: &Rect, max_depth: usize) -> (r: QuadTree)
        requires
            is_field(*f),
            bb.in_limits(),
            max_depth <= MAX_DEPTH,
        ensures
            r.valid(),
            r@ == build_model(
                field_of(*f),
                *bb,
                max_depth as nat,
                corner_samples(field_of(*f), *bb),
                true,
            ),
            r@ == build_model(
                field_of(*f),
                *bb,
                max_depth as nat,
                corner_samples(field_of(*f), *bb),
                false,
            ).collapse_model(),
            r.evaluation_count() == build_evaluations(max_depth as nat),
    {
        proof {
            lemma_eager_is_collapse(field_of(*f), *bb, max_depth as nat, corner_samples(field_of(*f), *bb));
        }
        Self::build(f, bb, max_depth, true)
    }

    /// Builds the full tree of `f` over `bb`, subdividing `max_depth` times
    /// with no merging; `collapse` can merge it afterwards.
    pub fn build_uncollapsed<F: Fn(Point) -> i64>(f: &F, bb: &Rect, max_depth: usize) -> (r: QuadTree)
        requires
            is_field(*f),
            bb.in_limits(),
            max_depth <= MAX_DEPTH,
        ensures
            r.valid(),
            r@ == build_model(
                field_of(*f),
                *bb,
                max_depth as nat,
                corner_samples(field_of(*f), *bb),
                false,
            ),
            r.evaluation_count() == build_evaluations(max_depth as nat),
    {
        Self::build(f, bb, max_depth, false)
    }

    fn root(&self) -> (r: &QtNode)
        ensures
            *r == arena_nodes(self.node_data)[self.root_node],
    {
        proof {
            use_type_invariant(self);
        }
        arena_get(&self.node_data, self.root_node).unwrap()
    }

    /// Merges, bottom-up, every interior node whose four children are
    /// homogeneous leaves into one leaf over its rectangle.
    pub fn collapse(&mut self)
        ensures
            final(self).valid(),
            final(self)@ == old(self)@.collapse_model(),
            final(self).leaf_count() <= old(self).leaf_count(),
            covers(final(self).leaf_list(), old(self).leaf_list()),
            final(self).evaluation_count() == old(self).evaluation_count(),
    {
        proof {
            use_type_invariant(&*self);
            lemma_budget(self.depth as nat);
            lemma_collapse(self@);
        }
        let depth = self.depth;
        let evaluations = self.evaluations;
        let mut node_map = arena_new();
        let root_node = collapse_copy(&self.node_data, self.root(), depth, &mut node_map);
        let ghost m0 = arena_nodes(node_map);
        let root_key = arena_insert(&mut node_map, root_node);
        proof {
            lemma_extend(m0, arena_nodes(node_map), root_node, depth as nat);
        }
        *self = QuadTree { node_data: node_map, root_node: root_key, depth, evaluations };
    }

    /// Total number of leaves.
    pub fn count_leaves(&self) -> (r: usize)
        ensures
            r == self.leaf_count(),
    {
        proof {
            use_type_invariant(self);
        }
        count_node(&self.node_data, self.root(), self.depth)
    }

    /// Checks that the root key and every child key below it resolve in the
    /// arena.
    pub fn is_valid(&self) -> (r: bool)
        ensures
            r == self.valid(),
    {
        if !arena_contains(&self.node_data, self.root_node) {
            return false;
        }
        check_node(&self.node_data, arena_get(&self.node_data, self.root_node).unwrap(), self.depth)
    }

    /// Each leaf's rectangle and class, in pre-order.
    pub fn leaf_rects(&self) -> (r: Vec<(Rect, CellClass)>)
        ensures
            r@ == self.leaf_list(),
    {
        proof {
            use_type_invariant(self);
        }
        let mut v: Vec<(Rect, CellClass)> = Vec::new();
        collect_leaves(&self.node_data, self.root(), self.depth, &mut v);
        proof {
            assert(v@ =~= self.leaf_list());
        }
        v
    }

    /// The edges of every leaf whose end samples differ in sign, leaves in
    /// pre-order and edges in edge order: the places where a root of the
    /// field is to be sought for the leaf's boundary crossings.
    pub fn crossing_edges(&self) -> (r: Vec<(Point, Point)>)
        ensures
            r@ == self@.crossings(),
    {
        proof {
            use_type_invariant(self);
        }
        let mut v: Vec<(Point, Point)> = Vec::new();
        collect_crossings(&self.node_data, self.root(), self.depth, &mut v);
        proof {
            assert(v@ =~= self@.crossings());
        }
        v
    }

    /// Number of field samples that the build took.
    pub fn evaluations(&self) -> (r: usize)
        ensures
            r == self.evaluation_count(),
    {
        self.evaluations
    }
}

/// Building one field over one rectangle to one depth gives the same tree
/// each time, and so the same leaves and the same leaf count: the tree
/// depends on the field's values alone, not on which closure computes them.
pub proof fn lemma_build_deterministic<F1: Fn(Point) -> i64, F2: Fn(Point) -> i64>(
    f1: F1,
    f2: F2,
    bb: Rect,
    max_depth: nat,
    a: QuadTree,
    b: QuadTree,
)
    requires
        forall|p: Point| #[trigger] field_of(f1)(p) == field_of(f2)(p),
        a@ == build_model(field_of(f1), bb, max_depth, corner_samples(field_of(f1), bb), true),
        b@ == build_model(field_of(f2), bb, max_depth, corner_samples(field_of(f2), bb), true),
    ensures
        a@ == b@,
        a.leaf_list() == b.leaf_list(),
        a.leaf_count() == b.leaf_count(),
{
    assert(field_of(f1) =~= field_of(f2));
}

/// Number of distinct lattice points on the grid that `d` subdivisions
/// of a rectangle sample: (2^d + 1)^2.
pub open spec fn grid_points(d: nat) -> nat {
    (pow2(d) + 1) * (pow2(d) + 1)
}

/// A build samples the field 4 + 5 (4^d - 1) / 3 times; at depths 0 and 1
/// that is exactly one sample per distinct grid point.
pub proof fn lemma_evaluations_per_point(d: nat)
    ensures
        3 * build_evaluations(d) == 5 * pow4(d) + 7,
        d <= 1 ==> build_evaluations(d) == grid_points(d),
{
    lemma_pow4_identities(d);
    reveal_with_fuel(pow2, 2);
    if d == 0 {
        assert(inner_evaluations(0) == 0);
        assert(pow2(0) == 1);
        assert(grid_points(0) == 2 * 2);
    } else if d == 1 {
        assert(inner_evaluations(0) == 0);
        assert(inner_evaluations(1) == 5);
        assert(pow2(1) == 2 * pow2(0));
        assert(pow2(1) == 2);
        assert(grid_points(1) == 3 * 3);
    }
}

} // verus!
