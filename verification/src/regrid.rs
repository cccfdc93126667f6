//! The arithmetic of regridding: the place of a cell in a buffer, the mean
//! of the samples in a rectangle, the linear blend of two samples, and the
//! cells that divide a stretch.

use crate::tile::{coord_ok, COORD_LIMIT, TILE_SIZE};
use crate::utils::{floor_at, gap, monotonic};
use vstd::prelude::*;

verus! {

/// Position of the cell `(row, col)` in a row-major buffer with `width`
/// cells in a row.
pub open spec fn cell(row: int, col: int, width: int) -> int {
    row * width + col
}

/// A cell in a grid of `rows` by `width` lies inside its buffer.
pub proof fn lemma_cell_in_buffer(row: int, col: int, rows: int, width: int)
    requires
        0 <= row < rows,
        0 <= col < width,
    ensures
        0 <= cell(row, col, width) < rows * width,
        cell(row, col, width) < cell(row + 1, 0, width),
{
    assert(row * width + col < rows * width && 0 <= row * width) by (nonlinear_arith)
        requires
            0 <= row < rows,
            0 <= col < width,
    ;
    assert((row + 1) * width == row * width + width) by (nonlinear_arith);
}

/// The quotient of `a` by a positive `b`, rounded towards zero.
pub open spec fn div_toward_zero(a: int, b: int) -> int {
    if a >= 0 {
        a / b
    } else {
        -((-a) / b)
    }
}

/// What a sample adds to a sum: its value, or nothing where it is missing.
pub open spec fn amount(v: Option<i64>) -> int {
    match v {
        Some(x) => x as int,
        None => 0,
    }
}

/// What a sample adds to a count: one, or nothing where it is missing.
pub open spec fn presence(v: Option<i64>) -> int {
    match v {
        Some(_) => 1,
        None => 0,
    }
}

/// Sum of the samples of one row in the columns `col0 .. col_end`.
pub open spec fn row_sum(values: Seq<Option<i64>>, width: int, row: int, col0: int, col_end: int) -> int
    decreases col_end - col0,
{
    if col_end <= col0 {
        0
    } else {
        row_sum(values, width, row, col0, col_end - 1) + amount(values[cell(row, col_end - 1, width)])
    }
}

/// Number of samples present in one row in the columns `col0 .. col_end`.
pub open spec fn row_count(values: Seq<Option<i64>>, width: int, row: int, col0: int, col_end: int) -> int
    decreases col_end - col0,
{
    if col_end <= col0 {
        0
    } else {
        row_count(values, width, row, col0, col_end - 1) + presence(
            values[cell(row, col_end - 1, width)],
        )
    }
}

/// Sum of the samples in the rows `row0 .. row_end` and the columns
/// `col0 .. col_end`.
pub open spec fn rect_sum(
    values: Seq<Option<i64>>,
    width: int,
    row0: int,
    row_end: int,
    col0: int,
    col_end: int,
) -> int
    decreases row_end - row0,
{
    if row_end <= row0 {
        0
    } else {
        rect_sum(values, width, row0, row_end - 1, col0, col_end) + row_sum(
            values,
            width,
            row_end - 1,
            col0,
            col_end,
        )
    }
}

/// Number of samples present in the rows `row0 .. row_end` and the columns
/// `col0 .. col_end`.
pub open spec fn rect_count(
    values: Seq<Option<i64>>,
    width: int,
    row0: int,
    row_end: int,
    col0: int,
    col_end: int,
) -> int
    decreases row_end - row0,
{
    if row_end <= row0 {
        0
    } else {
        rect_count(values, width, row0, row_end - 1, col0, col_end) + row_count(
            values,
            width,
            row_end - 1,
            col0,
            col_end,
        )
    }
}

/// Mean of the samples present in the rows `row0 ..= row1` and the columns
/// `col0 ..= col1`, rounded towards zero; none where no sample is present.
pub open spec fn rect_average(
    values: Seq<Option<i64>>,
    width: int,
    row0: int,
    row1: int,
    col0: int,
    col1: int,
) -> Option<i64> {
    let n = rect_count(values, width, row0, row1 + 1, col0, col1 + 1);
    if n == 0 {
        None
    } else {
        Some(div_toward_zero(rect_sum(values, width, row0, row1 + 1, col0, col1 + 1), n) as i64)
    }
}

/// Linear blend at `x` of the sample `va` at `a` and the sample `vb` at `b`,
/// rounded towards zero. Where one sample is missing the other stands for
/// both.
pub open spec fn blend(va: Option<i64>, a: int, vb: Option<i64>, b: int, x: int) -> Option<i64> {
    match (va, vb) {
        (None, _) => vb,
        (_, None) => va,
        (Some(p), Some(q)) => Some(
            div_toward_zero(p * gap(x, b) + q * gap(x, a), gap(a, b)) as i64,
        ),
    }
}

/// The neighbour of position `k` with the greater coordinate, if there is one.
pub open spec fn upper_neighbour(s: Seq<i64>, k: int) -> Option<int> {
    if k > 0 && s[k - 1] > s[k] {
        Some(k - 1)
    } else if k < s.len() - 1 && s[k + 1] > s[k] {
        Some(k + 1)
    } else {
        None
    }
}

/// The second sample between which a query is interpolated along one axis:
/// the neighbour on the far side of the query from its floor `k`. There is
/// none where the query is not above the floor or the axis ends there.
pub open spec fn partner(s: Seq<i64>, k: int, x: int) -> Option<int> {
    if s[k] < x {
        upper_neighbour(s, k)
    } else {
        None
    }
}

/// Centre of cell `k` of the 256 cells that divide the stretch of length
/// `extent` starting at `origin`.
pub open spec fn cell_center(origin: int, extent: int, k: int) -> int {
    origin + (extent * (2 * k + 1)) / 512
}

/// Lower edge of cell `k` of the 256 cells that divide the stretch of
/// length `extent` starting at `origin`.
pub open spec fn cell_edge(origin: int, extent: int, k: int) -> int {
    origin + (extent * k) / 256
}

/// The partner of a floor lies above the query.
pub proof fn lemma_partner_above(s: Seq<i64>, k: int, x: int)
    requires
        monotonic(s),
        floor_at(s, x, k),
        partner(s, k, x).is_some(),
    ensures
        0 <= partner(s, k, x).unwrap() < s.len(),
        s[k] < x < s[partner(s, k, x).unwrap()],
{
}

/// A weighted mean of two values, rounded towards zero, lies between
/// whatever bounds the two values lie between: it is never beyond both.
pub proof fn lemma_mean_between(p: int, q: int, wp: int, wq: int, lo: int, hi: int)
    requires
        lo <= p <= hi,
        lo <= q <= hi,
        0 <= wp,
        0 <= wq,
        wp + wq > 0,
    ensures
        lo * wp <= p * wp <= hi * wp,
        lo * wq <= q * wq <= hi * wq,
        lo <= div_toward_zero(p * wp + q * wq, wp + wq) <= hi,
{
    let d = wp + wq;
    let n = p * wp + q * wq;
    assert(lo * wp <= p * wp <= hi * wp) by (nonlinear_arith)
        requires
            lo <= p <= hi,
            0 <= wp,
    ;
    assert(lo * wq <= q * wq <= hi * wq) by (nonlinear_arith)
        requires
            lo <= q <= hi,
            0 <= wq,
    ;
    assert(lo * d == lo * wp + lo * wq && hi * d == hi * wp + hi * wq) by (nonlinear_arith)
        requires
            d == wp + wq,
    ;
    lemma_quotient_between(n, d, lo, hi);
}

/// A sum of `d` values between two bounds, divided by `d` and rounded
/// towards zero, lies between the bounds.
pub proof fn lemma_quotient_between(n: int, d: int, lo: int, hi: int)
    requires
        d > 0,
        lo * d <= n <= hi * d,
    ensures
        lo <= div_toward_zero(n, d) <= hi,
{
    if n >= 0 {
        assert(0 <= n / d <= hi) by (nonlinear_arith)
            requires
                0 <= n <= hi * d,
                d > 0,
        ;
        if lo > 0 {
            assert(n / d >= lo) by (nonlinear_arith)
                requires
                    n >= lo * d,
                    d > 0,
            ;
        }
    } else {
        let m = -n;
        assert((-lo) * d == -(lo * d) && (-hi) * d == -(hi * d)) by (nonlinear_arith);
        assert(0 <= m / d <= -lo) by (nonlinear_arith)
            requires
                0 <= m <= (-lo) * d,
                d > 0,
        ;
        if hi < 0 {
            assert(m / d >= -hi) by (nonlinear_arith)
                requires
                    m >= (-hi) * d,
                    d > 0,
            ;
        }
    }
}

/// Distance between two coordinates within the limits.
pub fn extent_between(a: i64, b: i64) -> (d: i64)
    requires
        coord_ok(a),
        coord_ok(b),
    ensures
        d == gap(a as int, b as int),
        0 <= d <= 2 * COORD_LIMIT,
{
    if a >= b {
        a - b
    } else {
        b - a
    }
}

/// Centre of cell `k` of the 256 cells that divide the stretch of length
/// `extent` starting at `origin`.
pub fn center_of_cell(origin: i64, extent: i64, k: usize) -> (c: i64)
    requires
        coord_ok(origin),
        0 <= extent <= 2 * COORD_LIMIT,
        k < TILE_SIZE,
    ensures
        c == cell_center(origin as int, extent as int, k as int),
        origin <= c <= origin + extent,
{
    let twice: i64 = 2 * (k as i64) + 1;
    assert(0 <= extent * twice <= extent * 512 && (extent * twice) / 512 <= extent)
        by (nonlinear_arith)
        requires
            0 <= extent,
            0 <= twice < 512,
    ;
    origin + (extent * twice) / 512
}

/// Lower edge of cell `k` of the 256 cells that divide the stretch of
/// length `extent` starting at `origin`; `k` = 256 gives the upper edge of
/// the last cell.
pub fn edge_of_cell(origin: i64, extent: i64, k: usize) -> (e: i64)
    requires
        coord_ok(origin),
        0 <= extent <= 2 * COORD_LIMIT,
        k <= TILE_SIZE,
    ensures
        e == cell_edge(origin as int, extent as int, k as int),
        origin <= e <= origin + extent,
{
    let steps: i64 = k as i64;
    assert(0 <= extent * steps <= extent * 256 && (extent * steps) / 256 <= extent)
        by (nonlinear_arith)
        requires
            0 <= extent,
            0 <= steps <= 256,
    ;
    origin + (extent * steps) / 256
}

/// Interpolates linearly at `x` between the sample `va` at `a` and the
/// sample `vb` at `b`. Where one of the two is missing, the other is
/// returned as it is.
pub fn interp_between(va: Option<i64>, a: i64, vb: Option<i64>, b: i64, x: i64) -> (v: Option<i64>)
    requires
        a != b,
        a <= x <= b || b <= x <= a,
    ensures
        v == blend(va, a as int, vb, b as int, x as int),
        va matches Some(p) ==> (vb matches Some(q) ==> (v matches Some(r) && (p <= r <= q || q
            <= r <= p))),
{
    match (va, vb) {
        (None, _) => vb,
        (_, None) => va,
        (Some(p), Some(q)) => {
            let wp: i128 = if x >= b {
                x as i128 - b as i128
            } else {
                b as i128 - x as i128
            };
            let wq: i128 = if x >= a {
                x as i128 - a as i128
            } else {
                a as i128 - x as i128
            };
            let d: i128 = wp + wq;
            proof {
                lemma_mean_between(
                    p as int,
                    q as int,
                    wp as int,
                    wq as int,
                    i64::MIN as int,
                    i64::MAX as int,
                );
                lemma_mean_between(
                    p as int,
                    q as int,
                    wp as int,
                    wq as int,
                    if p <= q { p as int } else { q as int },
                    if p <= q { q as int } else { p as int },
                );
            }
            let n: i128 = (p as i128) * wp + (q as i128) * wq;
            let r: i128 = if n >= 0 {
                n / d
            } else {
                -((-n) / d)
            };
            Some(r as i64)
        },
    }
}

/// The neighbour of position `k` on the axis with the greater coordinate.
pub fn find_upper_neighbour(axis: &Vec<i64>, k: usize) -> (r: Option<usize>)
    requires
        k < axis@.len(),
    ensures
        r.is_some() == upper_neighbour(axis@, k as int).is_some(),
        r matches Some(m) ==> upper_neighbour(axis@, k as int) == Some(m as int),
{
    if k > 0 && axis[k - 1] > axis[k] {
        Some(k - 1)
    } else if k < axis.len() - 1 && axis[k + 1] > axis[k] {
        Some(k + 1)
    } else {
        None
    }
}

} // verus!
