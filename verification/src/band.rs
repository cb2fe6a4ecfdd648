//! The banded dynamic-programming topology shared by all three alignment
//! engines: for row `i` of an `n x m` table the evaluated columns are a
//! window of half-width `band_width / 2` around `band_middle = m * i / n`,
//! clipped to `[1, m]`.

use vstd::prelude::*;

verus! {

/// Centre column of the band in row `i` of an `n x m` table.
pub open spec fn band_middle_spec(n: int, m: int, i: int) -> int {
    (m * i) / n
}

/// First evaluated column of the band in row `i`.
pub open spec fn band_start_spec(n: int, m: int, band_width: int, i: int) -> int {
    let bm = band_middle_spec(n, m, i);
    if bm >= band_width / 2 + 1 {
        bm - band_width / 2
    } else {
        1
    }
}

/// Last evaluated column of the band in row `i` (one less than the first
/// evaluated column when the band is empty, which happens only for `m == 0`).
pub open spec fn band_end_spec(n: int, m: int, band_width: int, i: int) -> int {
    let bm = band_middle_spec(n, m, i);
    if bm + band_width / 2 <= m {
        bm + band_width / 2
    } else {
        m
    }
}

/// The band's centre column never lies right of column `m`.
pub proof fn lemma_band_middle_le(n: int, m: int, i: int)
    requires
        1 <= i <= n,
        0 <= m,
    ensures
        0 <= band_middle_spec(n, m, i) <= m,
{
    vstd::arithmetic::mul::lemma_mul_inequality(i, n, m);
    vstd::arithmetic::div_mod::lemma_div_is_ordered(m * i, m * n, n);
    vstd::arithmetic::div_mod::lemma_div_multiples_vanish(m, n);
    vstd::arithmetic::mul::lemma_mul_is_commutative(m, i);
    vstd::arithmetic::mul::lemma_mul_is_commutative(m, n);
    vstd::arithmetic::div_mod::lemma_div_pos_is_pos(m * i, n);
    vstd::arithmetic::mul::lemma_mul_nonnegative(m, i);
}

/// As rows advance the band only moves right: both window bounds are
/// monotone in the row.  In particular a row reads the previous row only
/// at columns at or right of `band_start - 1`, which the previous row's
/// roll has freshly copied — no stale value left of the band is ever read.
pub proof fn lemma_band_monotone(n: int, m: int, band_width: int, i: int)
    requires
        1 <= i,
        i + 1 <= n,
        0 <= m,
        0 <= band_width,
    ensures
        band_start_spec(n, m, band_width, i) <= band_start_spec(n, m, band_width, i + 1),
        band_end_spec(n, m, band_width, i) <= band_end_spec(n, m, band_width, i + 1),
{
    vstd::arithmetic::mul::lemma_mul_inequality(i, i + 1, m);
    vstd::arithmetic::mul::lemma_mul_is_commutative(m, i);
    vstd::arithmetic::mul::lemma_mul_is_commutative(m, i + 1);
    vstd::arithmetic::div_mod::lemma_div_is_ordered(m * i, m * (i + 1), n);
}

/// Column window evaluated in row `i`: exactly the window that
/// `band_start_spec` / `band_end_spec` describe, always within `[1, m]`
/// on the right and starting at column 1 or later.
pub fn band_bounds(n: usize, m: usize, band_width: usize, i: usize) -> (r: (usize, usize))
    requires
        1 <= i <= n,
        n * m <= usize::MAX,
        m + band_width <= usize::MAX,
    ensures
        r.0 as int == band_start_spec(n as int, m as int, band_width as int, i as int),
        r.1 as int == band_end_spec(n as int, m as int, band_width as int, i as int),
        1 <= r.0,
        r.1 <= m,
{
    proof {
        lemma_band_middle_le(n as int, m as int, i as int);
        vstd::arithmetic::mul::lemma_mul_inequality(i as int, n as int, m as int);
        vstd::arithmetic::mul::lemma_mul_is_commutative(m as int, i as int);
        vstd::arithmetic::mul::lemma_mul_is_commutative(m as int, n as int);
    }
    let band_middle = (m * i) / n;
    let band_start = if band_middle >= band_width / 2 + 1 {
        band_middle - band_width / 2
    } else {
        1
    };
    let band_end = if band_middle + band_width / 2 <= m {
        band_middle + band_width / 2
    } else {
        m
    };
    (band_start, band_end)
}

} // verus!
