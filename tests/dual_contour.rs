use art_util::{CellClass, Point, QtLeaf, QuadTree, Rect};
use std::cell::Cell;

// The lattice square from (-16, -16) to (16, 16) stands for the square from
// (-1.5, -1.5) to (1.5, 1.5): one lattice step is 1.5 / 16. Field values are
// kept in fixed point with 20 fractional bits.
const SCALE: f64 = 1048576.0;

fn circle_f32(p: Point) -> i64 {
    let x = p.x as f32 * (1.5f32 / 16.0);
    let y = p.y as f32 * (1.5f32 / 16.0);
    let v = 1.0f32 - (x * x + y * y).sqrt();
    (v * SCALE as f32).round() as i64
}

fn circle_f64(p: Point) -> i64 {
    let x = p.x as f64 * (1.5 / 16.0);
    let y = p.y as f64 * (1.5 / 16.0);
    let v = 1.0 - (x * x + y * y).sqrt();
    (v * SCALE).round() as i64
}

fn square() -> Rect {
    Rect::from_points(&Point::new(-16, -16), &Point::new(16, 16))
}

fn create_qt_f32() -> QuadTree {
    let f = |p: Point| circle_f32(p);
    QuadTree::build_from_fn(&f, &square(), 5)
}

fn create_qt_f64() -> QuadTree {
    let f = |p: Point| circle_f64(p);
    QuadTree::build_from_fn(&f, &square(), 5)
}

fn within(a: &Rect, b: &Rect) -> bool {
    let (ax0, ax1) = (a.p[0].x.min(a.p[1].x), a.p[0].x.max(a.p[1].x));
    let (ay0, ay1) = (a.p[0].y.min(a.p[1].y), a.p[0].y.max(a.p[1].y));
    let (bx0, bx1) = (b.p[0].x.min(b.p[1].x), b.p[0].x.max(b.p[1].x));
    let (by0, by1) = (b.p[0].y.min(b.p[1].y), b.p[0].y.max(b.p[1].y));
    bx0 <= ax0 && ax1 <= bx1 && by0 <= ay0 && ay1 <= by1
}

#[test]
fn creation_f32() {
    let qt = create_qt_f32();
    assert!(qt.is_valid());
    assert_eq!(qt.count_leaves(), 244);
}

#[test]
fn creation_f64() {
    let qt = create_qt_f64();
    assert!(qt.is_valid());
    assert_eq!(qt.count_leaves(), 244);
}

#[test]
fn build_is_deterministic() {
    let a = create_qt_f64();
    let b = create_qt_f64();
    assert_eq!(a.count_leaves(), b.count_leaves());
    assert_eq!(a.leaf_rects(), b.leaf_rects());
    assert_eq!(create_qt_f32().leaf_rects(), a.leaf_rects());
}

#[test]
fn evaluation_count_matches_grid_at_small_depths() {
    let counter = Cell::new(0usize);
    let f = |p: Point| {
        counter.set(counter.get() + 1);
        circle_f64(p)
    };
    let r = Rect::from_points(&Point::new(0, 0), &Point::new(4, 4));
    let t0 = QuadTree::build_from_fn(&f, &r, 0);
    assert_eq!(counter.get(), 4);
    assert_eq!(t0.evaluations(), 4);
    counter.set(0);
    let t1 = QuadTree::build_from_fn(&f, &r, 1);
    assert_eq!(counter.get(), 9);
    assert_eq!(t1.evaluations(), 9);
    // At depth 2 the midpoints of edges shared by siblings are sampled twice:
    // 29 samples for 25 grid points.
    counter.set(0);
    let t2 = QuadTree::build_uncollapsed(&f, &r, 2);
    assert_eq!(counter.get(), 29);
    assert_eq!(t2.evaluations(), 29);
}

#[test]
fn evaluation_count_at_depth_five() {
    let counter = Cell::new(0usize);
    let f = |p: Point| {
        counter.set(counter.get() + 1);
        circle_f64(p)
    };
    let t = QuadTree::build_from_fn(&f, &square(), 5);
    assert_eq!(counter.get(), 1709);
    assert_eq!(t.evaluations(), 1709);
}

#[test]
fn valid_after_build_and_collapse() {
    let f = |p: Point| circle_f64(p);
    for depth in 0..6 {
        let mut t = QuadTree::build_uncollapsed(&f, &square(), depth);
        assert!(t.is_valid());
        t.collapse();
        assert!(t.is_valid());
        let mut e = QuadTree::build_from_fn(&f, &square(), depth);
        assert!(e.is_valid());
        e.collapse();
        assert!(e.is_valid());
    }
}

#[test]
fn depth_zero_is_one_leaf() {
    let f = |p: Point| circle_f64(p);
    let t = QuadTree::build_from_fn(&f, &square(), 0);
    assert_eq!(t.count_leaves(), 1);
    let leaves = t.leaf_rects();
    assert_eq!(leaves, vec![(square(), CellClass::Negative)]);
}

#[test]
fn collapse_lowers_leaf_count() {
    let f = |p: Point| circle_f64(p);
    let mut t = QuadTree::build_uncollapsed(&f, &square(), 5);
    assert_eq!(t.count_leaves(), 1024);
    t.collapse();
    assert_eq!(t.count_leaves(), 244);
    t.collapse();
    assert_eq!(t.count_leaves(), 244);
}

#[test]
fn collapse_matches_eager_build() {
    let f = |p: Point| circle_f64(p);
    let mut t = QuadTree::build_uncollapsed(&f, &square(), 4);
    t.collapse();
    let e = QuadTree::build_from_fn(&f, &square(), 4);
    assert_eq!(t.leaf_rects(), e.leaf_rects());
}

#[test]
fn collapse_keeps_classes() {
    let f = |p: Point| circle_f64(p);
    let mut t = QuadTree::build_uncollapsed(&f, &square(), 5);
    let before = t.leaf_rects();
    t.collapse();
    let after = t.leaf_rects();
    assert!(after.len() < before.len());
    for (r, c) in &before {
        assert!(after.iter().any(|(r2, c2)| c2 == c && within(r, r2)));
    }
}

#[test]
fn uniform_field_collapses_to_one_leaf() {
    let f = |_p: Point| 7i64;
    let t = QuadTree::build_from_fn(&f, &square(), 3);
    assert_eq!(t.leaf_rects(), vec![(square(), CellClass::Positive)]);
    let g = |_p: Point| -7i64;
    let t = QuadTree::build_from_fn(&g, &square(), 3);
    assert_eq!(t.leaf_rects(), vec![(square(), CellClass::Negative)]);
}

#[test]
fn zero_samples_are_mixed() {
    let f = |_p: Point| 0i64;
    let t = QuadTree::build_from_fn(&f, &square(), 2);
    assert_eq!(t.count_leaves(), 16);
    assert!(t.leaf_rects().iter().all(|(_, c)| *c == CellClass::Mixed));
}

#[test]
fn positive_plane_collapses_to_one_leaf() {
    // Positive everywhere, with a distinct value at each corner of the square.
    let f = |p: Point| 1000 + 3 * p.x + p.y;
    let r = Rect::from_points(&Point::new(0, 0), &Point::new(8, 8));
    let t = QuadTree::build_from_fn(&f, &r, 2);
    assert_eq!(t.count_leaves(), 1);
    assert_eq!(t.crossing_edges(), vec![]);
}

#[test]
fn leaf_classes() {
    let r = Rect::from_points(&Point::new(0, 0), &Point::new(2, 2));
    let pos = QtLeaf { geom: r, vertex_eval: [1, 2, 3, 4] };
    let neg = QtLeaf { geom: r, vertex_eval: [-1, -2, -3, -4] };
    let mixed = QtLeaf { geom: r, vertex_eval: [1, -2, 3, 4] };
    let zero = QtLeaf { geom: r, vertex_eval: [1, 0, 3, 4] };
    assert_eq!(pos.cell_class(), CellClass::Positive);
    assert_eq!(neg.cell_class(), CellClass::Negative);
    assert_eq!(mixed.cell_class(), CellClass::Mixed);
    assert_eq!(zero.cell_class(), CellClass::Mixed);
    assert!(pos.is_homogenous());
    assert!(neg.is_homogenous());
    assert!(!mixed.is_homogenous());
    assert!(!zero.is_homogenous());
}

#[test]
fn leaf_crossing_edges() {
    let r = Rect::from_points(&Point::new(0, 0), &Point::new(2, 2));
    let leaf = QtLeaf { geom: r, vertex_eval: [1, -2, -3, 4] };
    assert_eq!(
        leaf.crossing_edges(),
        vec![
            (Point::new(0, 0), Point::new(2, 0)),
            (Point::new(2, 2), Point::new(0, 2)),
        ]
    );
    let flat = QtLeaf { geom: r, vertex_eval: [5, 5, 5, 5] };
    assert_eq!(flat.crossing_edges(), vec![]);
}

#[test]
fn tree_crossing_edges_follow_the_circle() {
    let f = |p: Point| circle_f64(p);
    let t = QuadTree::build_from_fn(&f, &square(), 5);
    let edges = t.crossing_edges();
    assert!(!edges.is_empty());
    for (a, b) in &edges {
        let (fa, fb) = (circle_f64(*a), circle_f64(*b));
        assert!(fa.signum() != fb.signum());
    }
    let mut t2 = QuadTree::build_uncollapsed(&f, &square(), 5);
    t2.collapse();
    assert_eq!(t2.crossing_edges(), edges);
}

#[test]
fn center_and_midpoints() {
    let r = Rect::from_points(&Point::new(-3, 0), &Point::new(4, 8));
    assert_eq!(r.center(), Point::new(0, 4));
    assert_eq!(
        r.corners(),
        [Point::new(-3, 0), Point::new(4, 0), Point::new(4, 8), Point::new(-3, 8)]
    );
    assert_eq!(
        r.midpoints(),
        [Point::new(0, 0), Point::new(4, 4), Point::new(0, 8), Point::new(-3, 4)]
    );
}

#[test]
fn rect_dimensions() {
    let r = Rect::from_point_dim(&Point::new(-3, 2), &Point::new(7, 6));
    assert_eq!(r, Rect::from_points(&Point::new(-3, 2), &Point::new(4, 8)));
    assert_eq!(r.dim(), Point::new(7, 6));
}
