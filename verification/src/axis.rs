//! Coordinate axes that the library accepts, and stretches of them.

use crate::tile::{coord_ok, COORD_LIMIT};
use crate::utils::{ascending, descending, is_monotonic, monotonic};
use vstd::prelude::*;

verus! {

/// The smaller of two coordinates.
pub open spec fn lesser(a: i64, b: i64) -> i64 {
    if a <= b {
        a
    } else {
        b
    }
}

/// The greater of two coordinates.
pub open spec fn greater(a: i64, b: i64) -> i64 {
    if a >= b {
        a
    } else {
        b
    }
}

/// Every coordinate of the axis is one that the library accepts.
pub open spec fn axis_in_limits(s: Seq<i64>) -> bool {
    forall|i: int| 0 <= i < s.len() ==> coord_ok(#[trigger] s[i])
}

/// A usable axis: not empty, strictly rising or falling, within limits.
pub open spec fn axis_ok(s: Seq<i64>) -> bool {
    s.len() > 0 && monotonic(s) && axis_in_limits(s)
}

/// Tells whether the axis is not empty, strictly rising or falling, and
/// within the limits of the library.
pub fn check_axis(axis: &Vec<i64>) -> (r: bool)
    ensures
        r == axis_ok(axis@),
{
    if axis.len() == 0 {
        return false;
    }
    if !is_monotonic(axis.as_slice()) {
        return false;
    }
    let n = axis.len();
    let mut i: usize = 0;
    while i < n
        invariant
            i <= n,
            n == axis@.len(),
            forall|k: int| 0 <= k < i ==> coord_ok(#[trigger] axis@[k]),
        decreases n - i,
    {
        if axis[i] < -COORD_LIMIT || axis[i] > COORD_LIMIT {
            return false;
        }
        i += 1;
    }
    true
}

/// Copies the coordinates `first ..= last` of an axis.
pub fn slice_axis(axis: &Vec<i64>, first: usize, last: usize) -> (out: Vec<i64>)
    requires
        first <= last < axis@.len(),
    ensures
        out@ == axis@.subrange(first as int, last + 1),
{
    let n = axis.len();
    let mut out: Vec<i64> = Vec::new();
    let mut i: usize = first;
    while i <= last
        invariant
            first <= i <= last + 1,
            last < n,
            n == axis@.len(),
            out@ == axis@.subrange(first as int, i as int),
        decreases last + 1 - i,
    {
        out.push(axis[i]);
        proof {
            assert(out@ =~= axis@.subrange(first as int, i + 1));
        }
        i += 1;
    }
    out
}

/// A stretch of a usable axis is a usable axis.
pub proof fn lemma_slice_axis_ok(s: Seq<i64>, first: int, last: int)
    requires
        axis_ok(s),
        0 <= first <= last < s.len(),
    ensures
        axis_ok(s.subrange(first, last + 1)),
        ascending(s) ==> ascending(s.subrange(first, last + 1)),
        descending(s) ==> descending(s.subrange(first, last + 1)),
{
    let t = s.subrange(first, last + 1);
    assert forall|i: int| 0 <= i < t.len() implies coord_ok(#[trigger] t[i]) by {
        assert(t[i] == s[first + i]);
    }
    if ascending(s) {
        assert forall|i: int, j: int| 0 <= i < j < t.len() implies t[i] < t[j] by {
            assert(s[first + i] < s[first + j]);
        }
    } else {
        assert forall|i: int, j: int| 0 <= i < j < t.len() implies t[i] > t[j] by {
            assert(s[first + i] > s[first + j]);
        }
    }
}

} // verus!
