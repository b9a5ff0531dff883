//! Index lists for rendering.
use vstd::prelude::*;

verus! {

/// Number of indices that `add_linear_index` produces.
pub open spec fn linear_index_len(n: u32, with_loop: bool) -> int {
    2 * (if with_loop { n as int } else { n - 1 })
}

/// Indices that draw `n` points from `start` on as consecutive line
/// segments: start, start+1, start+1, start+2, ..., each inner point twice.
/// With `with_loop`, one more segment follows the last point.
pub fn add_linear_index(start: u32, n: u32, with_loop: bool) -> (r: Vec<u32>)
    requires
        with_loop || n >= 1,
        2 * (n as int) <= u32::MAX,
        start + n <= u32::MAX,
    ensures
        r@.len() == linear_index_len(n, with_loop),
        forall|i: int| 0 <= i < r@.len() ==> #[trigger] r@[i] == start + (i + 1) / 2,
{
    let last: u32 = 2 * if with_loop { n } else { n - 1 };
    let mut r: Vec<u32> = Vec::new();
    let mut i: u32 = 0;
    while i < last
        invariant
            i <= last,
            last == linear_index_len(n, with_loop),
            start + n <= u32::MAX,
            r@.len() == i,
            forall|k: int| 0 <= k < i ==> #[trigger] r@[k] == start + (k + 1) / 2,
        decreases last - i,
    {
        r.push(start + (i + 1) / 2);
        i = i + 1;
    }
    r
}

} // verus!
