//! Sums of chip counts over seats.
//!
//! A chip assignment is a function from seat numbers to chip counts that is
//! zero where nobody sits. Totals are taken over every seat number below a
//! bound, which avoids any dependence on the order in which a map is walked.

use vstd::prelude::*;

verus! {

/// One past the largest seat number.
pub open spec fn seat_limit() -> int {
    usize::MAX as int + 1
}

/// The sum of `f` over the seats `0, 1, .., n - 1`.
pub open spec fn sum_below(f: spec_fn(int) -> int, n: int) -> int
    decreases n,
{
    if n <= 0 {
        0
    } else {
        sum_below(f, n - 1) + f(n - 1)
    }
}

/// The sum of `f` over every seat.
pub open spec fn sum_all(f: spec_fn(int) -> int) -> int {
    sum_below(f, seat_limit())
}

/// The number of seats in `lo, .., hi - 1` that satisfy `p`.
pub open spec fn count_in(p: spec_fn(int) -> bool, lo: int, hi: int) -> int
    decreases hi - lo,
{
    if hi <= lo {
        0
    } else {
        let here: int = if p(hi - 1) {
            1
        } else {
            0
        };
        count_in(p, lo, hi - 1) + here
    }
}

/// Two assignments that agree below `n` have the same sum below `n`.
pub proof fn lemma_sum_below_agree(f: spec_fn(int) -> int, g: spec_fn(int) -> int, n: int)
    requires
        forall|k: int| 0 <= k < n ==> #[trigger] f(k) == g(k),
    ensures
        sum_below(f, n) == sum_below(g, n),
    decreases n,
{
    if n > 0 {
        lemma_sum_below_agree(f, g, n - 1);
    }
}

/// Changing an assignment at one seat changes the sum by the difference there.
pub proof fn lemma_sum_below_update(f: spec_fn(int) -> int, g: spec_fn(int) -> int, k: int, n: int)
    requires
        forall|j: int| 0 <= j < n && j != k ==> #[trigger] f(j) == g(j),
    ensures
        0 <= k < n ==> sum_below(g, n) == sum_below(f, n) + g(k) - f(k),
        !(0 <= k < n) ==> sum_below(g, n) == sum_below(f, n),
    decreases n,
{
    if n > 0 {
        lemma_sum_below_update(f, g, k, n - 1);
    }
}

/// A sum of non-negative counts grows with the bound.
pub proof fn lemma_sum_below_monotone(f: spec_fn(int) -> int, a: int, b: int)
    requires
        a <= b,
        forall|k: int| 0 <= k < b ==> #[trigger] f(k) >= 0,
    ensures
        sum_below(f, a) <= sum_below(f, b),
        0 <= sum_below(f, a),
    decreases b - a,
{
    if a < b {
        lemma_sum_below_monotone(f, a, b - 1);
    } else {
        lemma_sum_below_nonneg(f, a);
    }
}

/// A sum of non-negative counts is non-negative.
pub proof fn lemma_sum_below_nonneg(f: spec_fn(int) -> int, n: int)
    requires
        forall|k: int| 0 <= k < n ==> #[trigger] f(k) >= 0,
    ensures
        0 <= sum_below(f, n),
    decreases n,
{
    if n > 0 {
        lemma_sum_below_nonneg(f, n - 1);
    }
}

/// Every single count is bounded by the sum of all of them.
pub proof fn lemma_sum_below_bounds_term(f: spec_fn(int) -> int, k: int, n: int)
    requires
        0 <= k < n,
        forall|j: int| 0 <= j < n ==> #[trigger] f(j) >= 0,
    ensures
        f(k) <= sum_below(f, n),
    decreases n,
{
    if k == n - 1 {
        lemma_sum_below_nonneg(f, n - 1);
    } else {
        lemma_sum_below_bounds_term(f, k, n - 1);
    }
}

/// Seats that hold nothing between two bounds add nothing.
pub proof fn lemma_sum_below_gap(f: spec_fn(int) -> int, a: int, b: int)
    requires
        0 <= a <= b,
        forall|k: int| a <= k < b ==> #[trigger] f(k) == 0,
    ensures
        sum_below(f, b) == sum_below(f, a),
    decreases b - a,
{
    if a < b {
        lemma_sum_below_gap(f, a, b - 1);
    }
}

/// The sum of a pointwise sum is the sum of the sums.
pub proof fn lemma_sum_below_add(
    f: spec_fn(int) -> int,
    g: spec_fn(int) -> int,
    h: spec_fn(int) -> int,
    n: int,
)
    requires
        forall|k: int| 0 <= k < n ==> #[trigger] h(k) == f(k) + g(k),
    ensures
        sum_below(h, n) == sum_below(f, n) + sum_below(g, n),
    decreases n,
{
    if n > 0 {
        lemma_sum_below_add(f, g, h, n - 1);
    }
}

/// Where no seat holds more in one assignment than in another, the first
/// sums to no more than the second.
pub proof fn lemma_sum_below_le(f: spec_fn(int) -> int, g: spec_fn(int) -> int, n: int)
    requires
        forall|k: int| 0 <= k < n ==> #[trigger] f(k) <= g(k),
    ensures
        sum_below(f, n) <= sum_below(g, n),
    decreases n,
{
    if n > 0 {
        lemma_sum_below_le(f, g, n - 1);
    }
}

/// A sum of zeros is zero.
pub proof fn lemma_sum_below_zero(f: spec_fn(int) -> int, n: int)
    requires
        forall|k: int| 0 <= k < n ==> #[trigger] f(k) == 0,
    ensures
        sum_below(f, n) == 0,
    decreases n,
{
    if n > 0 {
        lemma_sum_below_zero(f, n - 1);
    }
}

/// Counting over two adjacent ranges adds up.
pub proof fn lemma_count_split(p: spec_fn(int) -> bool, lo: int, mid: int, hi: int)
    requires
        lo <= mid <= hi,
    ensures
        count_in(p, lo, hi) == count_in(p, lo, mid) + count_in(p, mid, hi),
    decreases hi - mid,
{
    if mid < hi {
        lemma_count_split(p, lo, mid, hi - 1);
    }
}

/// A range without members counts zero.
pub proof fn lemma_count_none(p: spec_fn(int) -> bool, lo: int, hi: int)
    requires
        forall|k: int| lo <= k < hi ==> !#[trigger] p(k),
    ensures
        count_in(p, lo, hi) == 0,
    decreases hi - lo,
{
    if lo < hi {
        lemma_count_none(p, lo, hi - 1);
    }
}

/// A count lies between zero and the width of its range.
pub proof fn lemma_count_bounds(p: spec_fn(int) -> bool, lo: int, hi: int)
    ensures
        0 <= count_in(p, lo, hi),
        lo <= hi ==> count_in(p, lo, hi) <= hi - lo,
    decreases hi - lo,
{
    if lo < hi {
        lemma_count_bounds(p, lo, hi - 1);
    }
}

} // verus!
