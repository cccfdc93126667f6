//! Search over a coordinate axis: a sequence of coordinates that either
//! strictly rises or strictly falls.

use vstd::prelude::*;

verus! {

/// Distance between two coordinates.
pub open spec fn gap(a: int, b: int) -> int {
    if a >= b {
        a - b
    } else {
        b - a
    }
}

/// Every coordinate is smaller than the ones after it.
pub open spec fn ascending(s: Seq<i64>) -> bool {
    forall|i: int, j: int| 0 <= i < j < s.len() ==> s[i] < s[j]
}

/// Every coordinate is greater than the ones after it.
pub open spec fn descending(s: Seq<i64>) -> bool {
    forall|i: int, j: int| 0 <= i < j < s.len() ==> s[i] > s[j]
}

/// An axis either strictly rises or strictly falls.
pub open spec fn monotonic(s: Seq<i64>) -> bool {
    ascending(s) || descending(s)
}

/// `k` is the position of the coordinate closest to `target`; of two
/// coordinates at the same distance, `k` is the one that comes first.
pub open spec fn nearest(s: Seq<i64>, target: int, k: int) -> bool {
    &&& 0 <= k < s.len()
    &&& forall|j: int| 0 <= j < s.len() ==> gap(s[k] as int, target) <= gap(s[j] as int, target)
    &&& forall|j: int| 0 <= j < k ==> gap(s[k] as int, target) < gap(s[j] as int, target)
}

/// `k` is the position of the greatest coordinate that does not exceed
/// `target`, or of the smallest coordinate where all of them exceed it.
pub open spec fn floor_at(s: Seq<i64>, target: int, k: int) -> bool {
    &&& 0 <= k < s.len()
    &&& if s[k] <= target {
        forall|j: int| 0 <= j < s.len() && s[j] <= target ==> s[j] <= s[k]
    } else {
        forall|j: int| 0 <= j < s.len() ==> s[k] <= s[j]
    }
}

/// `k` is the position of the smallest coordinate that is not below
/// `target`, or of the greatest coordinate where all of them are below it.
pub open spec fn ceil_at(s: Seq<i64>, target: int, k: int) -> bool {
    &&& 0 <= k < s.len()
    &&& if s[k] >= target {
        forall|j: int| 0 <= j < s.len() && s[j] >= target ==> s[j] >= s[k]
    } else {
        forall|j: int| 0 <= j < s.len() ==> s[k] >= s[j]
    }
}

/// The position of the coordinate closest to `target`, the earlier of two
/// that are equally close.
pub open spec fn nearest_index(s: Seq<i64>, target: int) -> int {
    choose|k: int| nearest(s, target, k)
}

/// The position of the greatest coordinate that does not exceed `target`,
/// or of the smallest coordinate where all of them exceed it.
pub open spec fn floor_index(s: Seq<i64>, target: int) -> int {
    choose|k: int| floor_at(s, target, k)
}

/// The position of the smallest coordinate that is not below `target`, or
/// of the greatest coordinate where all of them are below it.
pub open spec fn ceil_index(s: Seq<i64>, target: int) -> int {
    choose|k: int| ceil_at(s, target, k)
}

/// Only one position is the closest one.
pub proof fn lemma_nearest_unique(s: Seq<i64>, target: int, k: int)
    requires
        nearest(s, target, k),
    ensures
        nearest_index(s, target) == k,
{
    let c = nearest_index(s, target);
    assert(nearest(s, target, c));
    if c < k {
        assert(gap(s[k] as int, target) < gap(s[c] as int, target));
    }
    if k < c {
        assert(gap(s[c] as int, target) < gap(s[k] as int, target));
    }
}

/// On an axis only one position is the floor of a target.
pub proof fn lemma_floor_unique(s: Seq<i64>, target: int, k: int)
    requires
        monotonic(s),
        floor_at(s, target, k),
    ensures
        floor_index(s, target) == k,
{
    let c = floor_index(s, target);
    assert(floor_at(s, target, c));
    assert(s[c] == s[k]);
    if c < k {
        assert(ascending(s) ==> s[c] < s[k]);
        assert(descending(s) ==> s[c] > s[k]);
    }
    if k < c {
        assert(ascending(s) ==> s[k] < s[c]);
        assert(descending(s) ==> s[k] > s[c]);
    }
}

/// On an axis only one position is the ceiling of a target.
pub proof fn lemma_ceil_unique(s: Seq<i64>, target: int, k: int)
    requires
        monotonic(s),
        ceil_at(s, target, k),
    ensures
        ceil_index(s, target) == k,
{
    let c = ceil_index(s, target);
    assert(ceil_at(s, target, c));
    assert(s[c] == s[k]);
    if c < k {
        assert(ascending(s) ==> s[c] < s[k]);
        assert(descending(s) ==> s[c] > s[k]);
    }
    if k < c {
        assert(ascending(s) ==> s[k] < s[c]);
        assert(descending(s) ==> s[k] > s[c]);
    }
}

/// Tells whether the axis strictly rises or strictly falls.
pub fn is_monotonic(values: &[i64]) -> (r: bool)
    ensures
        r == monotonic(values@),
{
    let n = values.len();
    if n < 2 {
        return true;
    }
    let rising = values[0] < values[1];
    let mut i: usize = 1;
    while i < n
        invariant
            1 <= i <= n,
            n == values@.len(),
            rising == (values@[0] < values@[1]),
            rising ==> forall|a: int| 0 <= a < i - 1 ==> values@[a] < #[trigger] values@[a + 1],
            !rising ==> forall|a: int| 0 <= a < i - 1 ==> values@[a] > #[trigger] values@[a + 1],
        decreases n - i,
    {
        let broken = if rising {
            values[i - 1] >= values[i]
        } else {
            values[i - 1] <= values[i]
        };
        if broken {
            proof {
                let s = values@;
                let k = i as int;
                if ascending(s) {
                    assert(s[0] < s[1]);
                    assert(s[k - 1] < s[k]);
                }
                if descending(s) {
                    assert(s[0] > s[1]);
                    assert(s[k - 1] > s[k]);
                }
            }
            return false;
        }
        i += 1;
    }
    proof {
        if rising {
            lemma_steps_rise(values@, n as int);
        } else {
            lemma_steps_fall(values@, n as int);
        }
    }
    true
}

/// Neighbours that rise make the whole prefix rise.
proof fn lemma_steps_rise(s: Seq<i64>, n: int)
    requires
        0 <= n <= s.len(),
        forall|a: int| 0 <= a < n - 1 ==> s[a] < #[trigger] s[a + 1],
    ensures
        forall|i: int, j: int| 0 <= i < j < n ==> s[i] < s[j],
    decreases n,
{
    if n >= 2 {
        lemma_steps_rise(s, n - 1);
        assert forall|i: int, j: int| 0 <= i < j < n implies s[i] < s[j] by {
            if j == n - 1 {
                assert(s[n - 2] < s[(n - 2) + 1]);
            }
        }
    }
}

/// Neighbours that fall make the whole prefix fall.
proof fn lemma_steps_fall(s: Seq<i64>, n: int)
    requires
        0 <= n <= s.len(),
        forall|a: int| 0 <= a < n - 1 ==> s[a] > #[trigger] s[a + 1],
    ensures
        forall|i: int, j: int| 0 <= i < j < n ==> s[i] > s[j],
    decreases n,
{
    if n >= 2 {
        lemma_steps_fall(s, n - 1);
        assert forall|i: int, j: int| 0 <= i < j < n implies s[i] > s[j] by {
            if j == n - 1 {
                assert(s[n - 2] > s[(n - 2) + 1]);
            }
        }
    }
}

/// Position of the coordinate closest to `target_value` on a rising axis.
fn search_closest_idx_asc(values: &[i64], target_value: i64) -> (k: usize)
    requires
        values@.len() > 0,
    ensures
        k < values@.len(),
        ascending(values@) ==> nearest(values@, target_value as int, k as int),
{
    let n = values.len();
    let mut lo: usize = 0;
    let mut hi: usize = n;
    while lo < hi
        invariant
            lo <= hi <= n,
            n == values@.len(),
            ascending(values@) ==> forall|j: int| 0 <= j < lo ==> values@[j] < target_value,
            ascending(values@) ==> forall|j: int| hi <= j < n ==> values@[j] >= target_value,
        decreases hi - lo,
    {
        let mid = lo + (hi - lo) / 2;
        if values[mid] < target_value {
            lo = mid + 1;
        } else {
            hi = mid;
        }
    }
    if lo == 0 {
        0
    } else if lo == n {
        n - 1
    } else {
        let below: i128 = target_value as i128 - values[lo - 1] as i128;
        let above: i128 = values[lo] as i128 - target_value as i128;
        if above < below {
            lo
        } else {
            lo - 1
        }
    }
}

/// Position of the coordinate closest to `target_value` on a falling axis.
fn search_closest_idx_desc(values: &[i64], target_value: i64) -> (k: usize)
    requires
        values@.len() > 0,
    ensures
        k < values@.len(),
        descending(values@) ==> nearest(values@, target_value as int, k as int),
{
    let n = values.len();
    let mut lo: usize = 0;
    let mut hi: usize = n;
    while lo < hi
        invariant
            lo <= hi <= n,
            n == values@.len(),
            descending(values@) ==> forall|j: int| 0 <= j < lo ==> values@[j] > target_value,
            descending(values@) ==> forall|j: int| hi <= j < n ==> values@[j] <= target_value,
        decreases hi - lo,
    {
        let mid = lo + (hi - lo) / 2;
        if values[mid] > target_value {
            lo = mid + 1;
        } else {
            hi = mid;
        }
    }
    if lo == 0 {
        0
    } else if lo == n {
        n - 1
    } else {
        let above: i128 = values[lo - 1] as i128 - target_value as i128;
        let below: i128 = target_value as i128 - values[lo] as i128;
        if below < above {
            lo
        } else {
            lo - 1
        }
    }
}

/// Binary search on an axis for the position of the coordinate closest to
/// `target_value`. The direction of the axis is read off its two ends.
/// Where two coordinates are equally close, the earlier position is returned.
/// An empty axis has no such position.
pub fn search_closest_idx(values: &[i64], target_value: i64) -> (r: Option<usize>)
    ensures
        r.is_some() <==> values@.len() > 0,
        r matches Some(k) ==> k < values@.len() && (monotonic(values@) ==> nearest(
            values@,
            target_value as int,
            k as int,
        ) && k == nearest_index(values@, target_value as int)),
{
    let n = values.len();
    if n == 0 {
        return None;
    }
    let k = if n == 1 {
        0
    } else if values[0] < values[n - 1] {
        search_closest_idx_asc(values, target_value)
    } else {
        search_closest_idx_desc(values, target_value)
    };
    proof {
        if monotonic(values@) {
            if n > 1 {
                assert(ascending(values@) ==> values@[0] < values@[n - 1]);
                assert(descending(values@) ==> values@[0] > values@[n - 1]);
            }
            lemma_nearest_unique(values@, target_value as int, k as int);
        }
    }
    Some(k)
}

/// Position of the greatest coordinate that does not exceed `target_value`;
/// where every coordinate exceeds it, the position of the smallest one.
/// Works on rising and on falling axes alike.
pub fn search_closest_idx_below(values: &[i64], target_value: i64) -> (r: Option<usize>)
    ensures
        r.is_some() <==> values@.len() > 0,
        r matches Some(k) ==> k < values@.len() && (monotonic(values@) ==> floor_at(
            values@,
            target_value as int,
            k as int,
        ) && k == floor_index(values@, target_value as int)),
{
    match search_closest_idx(values, target_value) {
        Some(idx) => {
            let mut k = idx;
            if values[idx] > target_value {
                if idx > 0 && values[idx - 1] < values[idx] {
                    k = idx - 1;
                } else if idx < values.len() - 1 && values[idx] > values[idx + 1] {
                    k = idx + 1;
                }
            }
            proof {
                if monotonic(values@) {
                    lemma_floor_from_nearest(values@, target_value as int, idx as int, k as int);
                    lemma_floor_unique(values@, target_value as int, k as int);
                }
            }
            Some(k)
        },
        None => None,
    }
}

/// Position of the smallest coordinate that is not below `target_value`;
/// where every coordinate is below it, the position of the greatest one.
/// Works on rising and on falling axes alike.
pub fn search_closest_idx_over(values: &[i64], target_value: i64) -> (r: Option<usize>)
    ensures
        r.is_some() <==> values@.len() > 0,
        r matches Some(k) ==> k < values@.len() && (monotonic(values@) ==> ceil_at(
            values@,
            target_value as int,
            k as int,
        ) && k == ceil_index(values@, target_value as int)),
{
    match search_closest_idx(values, target_value) {
        Some(idx) => {
            let mut k = idx;
            if values[idx] < target_value {
                if idx < values.len() - 1 && values[idx + 1] > values[idx] {
                    k = idx + 1;
                } else if idx > 0 && values[idx - 1] > values[idx] {
                    k = idx - 1;
                }
            }
            proof {
                if monotonic(values@) {
                    lemma_ceil_from_nearest(values@, target_value as int, idx as int, k as int);
                    lemma_ceil_unique(values@, target_value as int, k as int);
                }
            }
            Some(k)
        },
        None => None,
    }
}

/// One step from the closest coordinate towards smaller coordinates reaches
/// the floor of the target.
proof fn lemma_floor_from_nearest(s: Seq<i64>, target: int, idx: int, k: int)
    requires
        monotonic(s),
        nearest(s, target, idx),
        k == if s[idx] > target {
            if idx > 0 && s[idx - 1] < s[idx] {
                idx - 1
            } else if idx < s.len() - 1 && s[idx] > s[idx + 1] {
                idx + 1
            } else {
                idx
            }
        } else {
            idx
        },
    ensures
        floor_at(s, target, k),
{
    if s[idx] > target {
        if k != idx {
            // the neighbour below cannot exceed the target, or it would be closer
            assert(gap(s[idx] as int, target) <= gap(s[k] as int, target));
            assert(s[k] <= target);
            assert forall|j: int| 0 <= j < s.len() && s[j] <= target implies s[j] <= s[k] by {
                if s[j] > s[k] {
                    if ascending(s) {
                        assert(j > k) by {
                            if j < k {
                                assert(s[j] < s[k]);
                            }
                        }
                        assert(j >= idx);
                        if j > idx {
                            assert(s[idx] < s[j]);
                        }
                    } else {
                        assert(j < k) by {
                            if j > k {
                                assert(s[k] > s[j]);
                            }
                        }
                        assert(j <= idx);
                        if j < idx {
                            assert(s[j] > s[idx]);
                        }
                    }
                }
            }
        } else {
            assert forall|j: int| 0 <= j < s.len() implies s[idx] <= s[j] by {
                if ascending(s) {
                    if idx > 0 {
                        assert(s[idx - 1] < s[idx]);
                    }
                    if j > idx {
                        assert(s[idx] < s[j]);
                    }
                } else {
                    if idx < s.len() - 1 {
                        assert(s[idx] > s[idx + 1]);
                    }
                    if j < idx {
                        assert(s[j] > s[idx]);
                    }
                }
            }
        }
    } else {
        assert forall|j: int| 0 <= j < s.len() && s[j] <= target implies s[j] <= s[idx] by {
            assert(gap(s[idx] as int, target) <= gap(s[j] as int, target));
        }
    }
}

/// One step from the closest coordinate towards greater coordinates reaches
/// the ceiling of the target.
proof fn lemma_ceil_from_nearest(s: Seq<i64>, target: int, idx: int, k: int)
    requires
        monotonic(s),
        nearest(s, target, idx),
        k == if s[idx] < target {
            if idx < s.len() - 1 && s[idx + 1] > s[idx] {
                idx + 1
            } else if idx > 0 && s[idx - 1] > s[idx] {
                idx - 1
            } else {
                idx
            }
        } else {
            idx
        },
    ensures
        ceil_at(s, target, k),
{
    if s[idx] < target {
        if k != idx {
            assert(gap(s[idx] as int, target) <= gap(s[k] as int, target));
            assert(s[k] >= target);
            assert forall|j: int| 0 <= j < s.len() && s[j] >= target implies s[j] >= s[k] by {
                if s[j] < s[k] {
                    if ascending(s) {
                        assert(j < k) by {
                            if j > k {
                                assert(s[k] < s[j]);
                            }
                        }
                        assert(j <= idx);
                        if j < idx {
                            assert(s[j] < s[idx]);
                        }
                    } else {
                        assert(j > k) by {
                            if j < k {
                                assert(s[j] > s[k]);
                            }
                        }
                        assert(j >= idx);
                        if j > idx {
                            assert(s[idx] > s[j]);
                        }
                    }
                }
            }
        } else {
            assert forall|j: int| 0 <= j < s.len() implies s[idx] >= s[j] by {
                if ascending(s) {
                    if idx < s.len() - 1 {
                        assert(s[idx] < s[idx + 1]);
                    }
                    if j < idx {
                        assert(s[j] < s[idx]);
                    }
                } else {
                    if idx > 0 {
                        assert(s[idx - 1] > s[idx]);
                    }
                    if j > idx {
                        assert(s[idx] > s[j]);
                    }
                }
            }
        }
    } else {
        assert forall|j: int| 0 <= j < s.len() && s[j] >= target implies s[j] >= s[idx] by {
            assert(gap(s[idx] as int, target) <= gap(s[j] as int, target));
        }
    }
}

/// Among the first `n` coordinates, a greatest one that does not exceed
/// `target`, where there is any.
proof fn lemma_greatest_below(s: Seq<i64>, target: int, n: int) -> (k: int)
    requires
        0 < n <= s.len(),
        exists|j: int| 0 <= j < n && s[j] <= target,
    ensures
        0 <= k < n,
        s[k] <= target,
        forall|j: int| 0 <= j < n && s[j] <= target ==> s[j] <= s[k],
    decreases n,
{
    if exists|j: int| 0 <= j < n - 1 && s[j] <= target {
        let k = lemma_greatest_below(s, target, n - 1);
        if s[n - 1] <= target && s[n - 1] > s[k] {
            n - 1
        } else {
            k
        }
    } else {
        n - 1
    }
}

/// Among the first `n` coordinates, a smallest one that is not below
/// `target`, where there is any.
proof fn lemma_smallest_above(s: Seq<i64>, target: int, n: int) -> (k: int)
    requires
        0 < n <= s.len(),
        exists|j: int| 0 <= j < n && s[j] >= target,
    ensures
        0 <= k < n,
        s[k] >= target,
        forall|j: int| 0 <= j < n && s[j] >= target ==> s[j] >= s[k],
    decreases n,
{
    if exists|j: int| 0 <= j < n - 1 && s[j] >= target {
        let k = lemma_smallest_above(s, target, n - 1);
        if s[n - 1] >= target && s[n - 1] < s[k] {
            n - 1
        } else {
            k
        }
    } else {
        n - 1
    }
}

/// Every axis that is not empty has a floor for every target.
pub proof fn lemma_floor_exists(s: Seq<i64>, target: int)
    requires
        s.len() > 0,
    ensures
        floor_at(s, target, floor_index(s, target)),
{
    let n = s.len() as int;
    if exists|j: int| 0 <= j < n && s[j] <= target {
        let k = lemma_greatest_below(s, target, n);
        assert(floor_at(s, target, k));
    } else {
        let least = i64::MIN as int;
        assert(s[0] >= least);
        // every coordinate exceeds the target: the smallest of them
        let k = lemma_smallest_above(s, least, n);
        assert forall|j: int| 0 <= j < n implies s[k] <= s[j] by {
            assert(s[j] >= least);
        }
        assert(floor_at(s, target, k));
    }
}

/// Every axis that is not empty has a ceiling for every target.
pub proof fn lemma_ceil_exists(s: Seq<i64>, target: int)
    requires
        s.len() > 0,
    ensures
        ceil_at(s, target, ceil_index(s, target)),
{
    let n = s.len() as int;
    if exists|j: int| 0 <= j < n && s[j] >= target {
        let k = lemma_smallest_above(s, target, n);
        assert(ceil_at(s, target, k));
    } else {
        let most = i64::MAX as int;
        assert(s[0] <= most);
        // every coordinate is below the target: the greatest of them
        let k = lemma_greatest_below(s, most, n);
        assert forall|j: int| 0 <= j < n implies s[k] >= s[j] by {
            assert(s[j] <= most);
        }
        assert(ceil_at(s, target, k));
    }
}

/// On an axis, every coordinate from a lower bound up to an upper bound
/// lies between the floor of the lower bound and the ceiling of the upper
/// bound.
pub proof fn lemma_bracket_holds(s: Seq<i64>, lower: int, upper: int, i: int)
    requires
        monotonic(s),
        0 <= i < s.len(),
        lower <= s[i] <= upper,
    ensures
        floor_index(s, lower) <= i <= ceil_index(s, upper) || ceil_index(s, upper) <= i
            <= floor_index(s, lower),
        0 <= floor_index(s, lower) < s.len(),
        0 <= ceil_index(s, upper) < s.len(),
{
    lemma_floor_exists(s, lower);
    lemma_ceil_exists(s, upper);
    let a = floor_index(s, lower);
    let b = ceil_index(s, upper);
    if ascending(s) {
        if i < a {
            assert(s[i] < s[a]);
        }
        if b < i {
            assert(s[b] < s[i]);
        }
    } else {
        if a < i {
            assert(s[a] > s[i]);
        }
        if i < b {
            assert(s[i] > s[b]);
        }
    }
}

} // verus!
