//! Easing curves: maps of the unit interval onto itself.
use vstd::prelude::*;

verus! {

/// A curve that maps the unit interval to itself, used to ease a transition
/// from one value to another.
pub trait Easing<F> {
    /// The curve itself; it corresponds to easing in.
    fn map_unity(t: F) -> F;
}

/// The identity curve: no easing.
pub struct Linear;

impl<F> Easing<F> for Linear {
    fn map_unity(t: F) -> (r: F)
        ensures
            r == t,
    {
        t
    }
}

} // verus!
