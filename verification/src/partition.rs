//! Partition arithmetic for one round of `n` tasks over the range `[1, w]`.
//!
//! Task `i` owns the contiguous sub-range
//! `[i * (w / n) + 1, (i + 1) * (w / n)]`, except that the last task
//! (`i == n - 1`) owns everything up to `w`, absorbing the `w % n`
//! elements left over by the truncating division.

use vstd::prelude::*;
use vstd::arithmetic::mul::*;
use vstd::arithmetic::div_mod::*;

verus! {

/// The number of elements every task but the last owns.
pub open spec fn chunk_size(n: int, w: int) -> int
    recommends 0 < n,
{
    w / n
}

/// First element of the sub-range owned by task `i` of `n` over `[1, w]`.
pub open spec fn part_lo(i: int, n: int, w: int) -> int {
    i * chunk_size(n, w) + 1
}

/// Last element of the sub-range owned by task `i` of `n` over `[1, w]`.
pub open spec fn part_hi(i: int, n: int, w: int) -> int {
    if i == n - 1 {
        w
    } else {
        (i + 1) * chunk_size(n, w)
    }
}

/// The bounds of the sub-range task `task_index` of `num_tasks` owns when
/// the whole range is `[1, work]`: both ends inclusive, and an empty range
/// whenever the first component exceeds the second.
pub fn task_range(task_index: u32, num_tasks: u32, work: u64) -> (r: (u64, u64))
    requires
        0 < num_tasks,
        task_index < num_tasks,
    ensures
        r.0 == part_lo(task_index as int, num_tasks as int, work as int),
        r.1 == part_hi(task_index as int, num_tasks as int, work as int),
        r.0 >= 1,
        r.1 <= work,
{
    let chunk: u64 = work / (num_tasks as u64);
    proof {
        lemma_lo_fits(task_index as int, num_tasks as int, work as int);
        lemma_mul_bound_by_total(task_index as int + 1, num_tasks as int, work as int);
    }
    let lo: u64 = (task_index as u64) * chunk + 1;
    let hi: u64 = if task_index == num_tasks - 1 {
        work
    } else {
        (task_index as u64 + 1) * chunk
    };
    (lo, hi)
}

/// For `k <= n`, the first `k` chunks cannot reach past `w` itself:
/// `k * (w / n) <= w`.
proof fn lemma_mul_bound_by_total(k: int, n: int, w: int)
    requires
        0 < n,
        0 <= k <= n,
        0 <= w,
    ensures
        0 <= k * (w / n) <= w,
{
    let c = w / n;
    lemma_div_pos_is_pos(w, n);
    lemma_mul_nonnegative(k, c);
    lemma_mul_inequality(k, n, c);
    lemma_fundamental_div_mod(w, n);
    lemma_mod_bound(w, n);
    assert(n * c <= w);
    assert(k * c <= n * c);
}

/// The first element of task `i`'s sub-range stays within `[1, w]` (or is
/// `1` when every chunk is empty), so computing it in a 64-bit word is safe.
proof fn lemma_lo_fits(i: int, n: int, w: int)
    requires
        0 < n,
        0 <= i < n,
        0 <= w,
    ensures
        0 <= i * (w / n) <= w,
        w / n == 0 ==> i * (w / n) == 0,
        w / n >= 1 ==> i * (w / n) + 1 <= w,
{
    let c = w / n;
    lemma_div_pos_is_pos(w, n);
    lemma_mul_nonnegative(i, c);
    lemma_mul_inequality(i, n - 1, c);
    lemma_mul_is_distributive_sub_other_way(c, n, 1);
    lemma_fundamental_div_mod(w, n);
    lemma_mod_bound(w, n);
    if c == 0 {
        lemma_mul_by_zero_is_zero(i);
    }
    assert(n * c <= w);
    assert(i * c <= (n - 1) * c);
}

/// Partition coverage: the `n` task-owned sub-ranges tile `[1, w]`
/// exactly. The first range starts at `1`, the last ends at `w`, each
/// range begins right after its predecessor ends (so there is no gap and
/// no overlap), and the last range is the ordinary chunk plus the
/// `w % n` elements left over by the truncating division.
pub proof fn lemma_partition_coverage(n: int, w: int)
    requires
        0 < n,
        0 <= w,
    ensures
        part_lo(0, n, w) == 1,
        part_hi(n - 1, n, w) == w,
        forall|i: int|
            0 <= i && i + 1 < n ==> part_lo(i + 1, n, w) == #[trigger] part_hi(i, n, w) + 1,
        forall|i: int| 0 <= i < n ==> #[trigger] part_lo(i, n, w) <= part_hi(i, n, w) + 1,
        part_hi(n - 1, n, w) + 1 - part_lo(n - 1, n, w) == chunk_size(n, w) + w % n,
{
    let c = w / n;
    lemma_div_pos_is_pos(w, n);
    lemma_mul_by_zero_is_zero(c);
    assert forall|i: int| 0 <= i && i + 1 < n implies part_lo(i + 1, n, w)
        == #[trigger] part_hi(i, n, w) + 1 by {
        assert((i + 1) * c == i * c + c) by {
            lemma_mul_is_distributive_add_other_way(c, i, 1);
        }
    }
    assert forall|i: int| 0 <= i < n implies #[trigger] part_lo(i, n, w)
        <= part_hi(i, n, w) + 1 by {
        lemma_lo_fits(i, n, w);
        if i + 1 < n {
            lemma_mul_is_distributive_add_other_way(c, i, 1);
            lemma_mul_nonnegative(i, c);
        }
    }
    lemma_fundamental_div_mod(w, n);
    lemma_mul_is_distributive_sub_other_way(c, n, 1);
}

/// The sum of `f` over the integer range `[lo, hi]`, both ends inclusive;
/// `0` when the range is empty.
pub open spec fn sum_over(lo: int, hi: int, f: spec_fn(int) -> int) -> int
    decreases hi + 1 - lo,
{
    if lo > hi {
        0
    } else {
        f(lo) + sum_over(lo + 1, hi, f)
    }
}

/// Splitting a range at `mid` splits its sum: the sum over `[lo, hi]` is
/// the sum over `[lo, mid]` plus the sum over `[mid + 1, hi]`.
pub proof fn lemma_sum_split(lo: int, mid: int, hi: int, f: spec_fn(int) -> int)
    requires
        lo <= mid + 1,
        mid <= hi,
    ensures
        sum_over(lo, hi, f) == sum_over(lo, mid, f) + sum_over(mid + 1, hi, f),
    decreases mid + 1 - lo,
{
    if lo > mid {
        assert(sum_over(lo, mid, f) == 0);
    } else {
        lemma_sum_split(lo + 1, mid, hi, f);
    }
}

/// The combined result of the first `k` of `n` tasks: the sum of each
/// task's partial sum of `f` over the sub-range that task owns.
pub open spec fn partial_sums(k: int, n: int, w: int, f: spec_fn(int) -> int) -> int
    decreases k,
{
    if k <= 0 {
        0
    } else {
        partial_sums(k - 1, n, w, f) + sum_over(
            part_lo(k - 1, n, w),
            part_hi(k - 1, n, w),
            f,
        )
    }
}

/// The last element covered once the first `k` tasks are done: `0` before
/// any task, `w` after all `n`.
spec fn prefix_end(k: int, n: int, w: int) -> int {
    if k == n {
        w
    } else {
        k * chunk_size(n, w)
    }
}

proof fn lemma_partials_prefix(k: int, n: int, w: int, f: spec_fn(int) -> int)
    requires
        0 < n,
        0 <= k <= n,
        0 <= w,
    ensures
        partial_sums(k, n, w, f) == sum_over(1, prefix_end(k, n, w), f),
    decreases k,
{
    let c = w / n;
    if k == 0 {
        lemma_mul_by_zero_is_zero(c);
    } else {
        lemma_partials_prefix(k - 1, n, w, f);
        lemma_lo_fits(k - 1, n, w);
        lemma_mul_bound_by_total(k, n, w);
        assert(k * c == (k - 1) * c + c) by {
            lemma_mul_is_distributive_sub_other_way(c, k, 1);
        }
        assert((k - 1) * c <= prefix_end(k, n, w)) by {
            if k == n {
                lemma_fundamental_div_mod(w, n);
                lemma_mod_bound(w, n);
            }
        }
        lemma_sum_split(1, prefix_end(k - 1, n, w), prefix_end(k, n, w), f);
    }
}

/// Order-free total: for every per-element function `f`, the sum of the
/// `n` tasks' partial results equals a direct computation of the whole
/// reduction over `[1, w]`.
pub proof fn lemma_sum_of_partials(n: int, w: int, f: spec_fn(int) -> int)
    requires
        0 < n,
        0 <= w,
    ensures
        partial_sums(n, n, w, f) == sum_over(1, w, f),
{
    lemma_partials_prefix(n, n, w, f);
}

} // verus!
