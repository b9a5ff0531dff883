//! Results of intersecting lines and rays.
use vstd::prelude::*;

verus! {

/// How two rays meet: on one line, never, or at parameters `t1` along the
/// first and `t2` along the second.
#[derive(Debug, Clone, Copy, PartialEq)]
pub enum RayInt<T> {
    Colinear,
    Parallel,
    Intersection(T, T),
}

impl<T: Copy> RayInt<T> {
    /// The parameter along the first ray, if the rays meet at a point.
    pub fn t1(&self) -> (r: Option<T>)
        ensures
            r == (match *self {
                RayInt::Intersection(a, _) => Some(a),
                _ => None,
            }),
    {
        if let RayInt::Intersection(a, _) = self {
            Some(*a)
        } else {
            None
        }
    }

    /// The parameter along the second ray, if the rays meet at a point.
    pub fn t2(&self) -> (r: Option<T>)
        ensures
            r == (match *self {
                RayInt::Intersection(_, b) => Some(b),
                _ => None,
            }),
    {
        if let RayInt::Intersection(_, b) = self {
            Some(*b)
        } else {
            None
        }
    }
}

/// Where a point lies with respect to an oriented line.
#[derive(Clone, Copy, PartialEq, Eq, Hash, Debug)]
pub enum PointTest {
    Inside,
    On,
    Outside,
}

} // verus!
