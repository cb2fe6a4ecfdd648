//! The numerically stable forward algorithm: total log-probability of all
//! banded alignments, computed entirely in the log domain with two rows of
//! buffers per state.

use vstd::prelude::*;
use bio::stats::LogProb;
use crate::band::band_bounds;
use crate::band::band_end_spec;
use crate::band::band_start_spec;
use crate::buffers::ln_zero_row;
use crate::params::LnAlignmentParameters;
use crate::params::LnEmissionProbs;
use crate::params::LnTransitionProbs;
use crate::probs::lp_add_exp_of;
use crate::probs::lp_ln_add_exp;
use crate::probs::lp_ln_one;
use crate::probs::lp_ln_sum_exp3;
use crate::probs::lp_ln_zero;
use crate::probs::lp_mul;
use crate::probs::lp_mul_of;
use crate::probs::lp_one_of;
use crate::probs::lp_sum_exp3_of;
use crate::probs::lp_zero_of;

verus! {

/// The six rolling buffers of a log-domain engine: the previous and the
/// current row of the insertion, match and deletion tables, in the order
/// (lower_prev, middle_prev, upper_prev, lower_curr, middle_curr,
/// upper_curr).
pub type RollingRows = (
    Seq<LogProb>,
    Seq<LogProb>,
    Seq<LogProb>,
    Seq<LogProb>,
    Seq<LogProb>,
    Seq<LogProb>,
);

/// The effective band width: the caller's minimum plus the length
/// difference of the two sequences.
pub open spec fn band_width_spec(n: int, m: int, min_band_width: int) -> int {
    min_band_width + if n >= m {
        n - m
    } else {
        m - n
    }
}

/// Row zero of the deletion table: a geometric decay of
/// deletion-continuation transitions seeded by deletion-from-match.
pub open spec fn upper_seed(t: LnTransitionProbs, j: int) -> LogProb
    decreases j,
{
    if j <= 1 {
        t.deletion_from_match
    } else {
        lp_mul_of(upper_seed(t, j - 1), t.deletion_from_deletion)
    }
}

/// The buffers before the first row: everything log-zero, except the
/// origin cell of the match table (log-one) and row zero of the deletion
/// table (the geometric seed).
pub open spec fn log_engine_init(w: Seq<char>, t: LnTransitionProbs) -> RollingRows {
    let m = w.len() as int;
    let zrow = Seq::new((m + 1) as nat, |j: int| lp_zero_of(()));
    let mp = zrow.update(0, lp_one_of(()));
    let up = Seq::new(
        (m + 1) as nat,
        |j: int|
            if j == 0 {
                lp_zero_of(())
            } else {
                upper_seed(t, j)
            },
    );
    (zrow, mp, up, zrow, zrow, zrow)
}

/// The left-boundary seeding of a row whose band starts at column 1:
/// the current match cell of column 0 is log-zero and the current
/// insertion cell of column 0 continues the pure-insertion path.
pub open spec fn log_engine_seed_col0(
    t: LnTransitionProbs,
    i: int,
    lp: Seq<LogProb>,
    lc: Seq<LogProb>,
) -> Seq<LogProb> {
    if i == 1 {
        lc.update(0, t.insertion_from_match)
    } else {
        lc.update(0, lp_mul_of(lp[0], t.insertion_from_insertion))
    }
}

/// The current rows after evaluating columns `band_start .. j` of row `i`
/// by the stable forward recurrence: per column, the insertion cell is the
/// emission times the stable sum of continue and from-match, the deletion
/// cell likewise over the current row's previous column, and the match
/// cell is the emission for the symbol pair times the stable three-way sum
/// over the previous row's diagonal neighbours.
pub open spec fn stable_cells(
    v: Seq<char>,
    w: Seq<char>,
    t: LnTransitionProbs,
    e: LnEmissionProbs,
    i: int,
    band_start: int,
    lp: Seq<LogProb>,
    mp: Seq<LogProb>,
    up: Seq<LogProb>,
    lc: Seq<LogProb>,
    mc: Seq<LogProb>,
    uc: Seq<LogProb>,
    j: int,
) -> (Seq<LogProb>, Seq<LogProb>, Seq<LogProb>)
    decreases j - band_start,
{
    if j <= band_start {
        (lc, mc, uc)
    } else {
        let prev = stable_cells(v, w, t, e, i, band_start, lp, mp, up, lc, mc, uc, j - 1);
        let col = j - 1;
        let lower_j = lp_mul_of(
            e.insertion,
            lp_add_exp_of(
                lp_mul_of(lp[col], t.insertion_from_insertion),
                lp_mul_of(mp[col], t.insertion_from_match),
            ),
        );
        let upper_j = lp_mul_of(
            e.deletion,
            lp_add_exp_of(
                lp_mul_of(prev.2[col - 1], t.deletion_from_deletion),
                lp_mul_of(prev.1[col - 1], t.deletion_from_match),
            ),
        );
        let emis = if v[i - 1] == w[col - 1] {
            e.equal
        } else {
            e.not_equal
        };
        let middle_j = lp_mul_of(
            emis,
            lp_sum_exp3_of(
                lp_mul_of(lp[col - 1], t.match_from_insertion),
                lp_mul_of(mp[col - 1], t.match_from_match),
                lp_mul_of(up[col - 1], t.match_from_deletion),
            ),
        );
        (prev.0.update(col, lower_j), prev.1.update(col, middle_j), prev.2.update(col, upper_j))
    }
}

/// One full row of the stable forward engine: seed column 0 where the band
/// starts at 1, evaluate the band, roll the band plus the column just left
/// of it into the previous-row buffers, and reset the band's first column
/// of the current rows.
pub open spec fn stable_row(
    v: Seq<char>,
    w: Seq<char>,
    t: LnTransitionProbs,
    e: LnEmissionProbs,
    band_width: int,
    i: int,
    s: RollingRows,
) -> RollingRows {
    let n = v.len() as int;
    let m = w.len() as int;
    let band_start = band_start_spec(n, m, band_width, i);
    let band_end = band_end_spec(n, m, band_width, i);
    let lc0 = if band_start == 1 {
        log_engine_seed_col0(t, i, s.0, s.3)
    } else {
        s.3
    };
    let mc0 = if band_start == 1 {
        s.4.update(0, lp_zero_of(()))
    } else {
        s.4
    };
    let cells = stable_cells(v, w, t, e, i, band_start, s.0, s.1, s.2, lc0, mc0, s.5, band_end + 1);
    let lp1 = Seq::new(
        s.0.len(),
        |jj: int|
            if band_start - 1 <= jj <= band_end {
                cells.0[jj]
            } else {
                s.0[jj]
            },
    );
    let mp1 = Seq::new(
        s.1.len(),
        |jj: int|
            if band_start - 1 <= jj <= band_end {
                cells.1[jj]
            } else {
                s.1[jj]
            },
    );
    let up1 = Seq::new(
        s.2.len(),
        |jj: int|
            if band_start - 1 <= jj <= band_end {
                cells.2[jj]
            } else {
                s.2[jj]
            },
    );
    let lc2 = if band_start <= m {
        cells.0.update(band_start, lp_zero_of(()))
    } else {
        cells.0
    };
    let mc2 = if band_start <= m {
        cells.1.update(band_start, lp_zero_of(()))
    } else {
        cells.1
    };
    let uc2 = if band_start <= m {
        cells.2.update(band_start, lp_zero_of(()))
    } else {
        cells.2
    };
    (lp1, mp1, up1, lc2, mc2, uc2)
}

/// Evaluating cells keeps the row lengths.
pub proof fn lemma_stable_cells_len(
    v: Seq<char>,
    w: Seq<char>,
    t: LnTransitionProbs,
    e: LnEmissionProbs,
    i: int,
    band_start: int,
    lp: Seq<LogProb>,
    mp: Seq<LogProb>,
    up: Seq<LogProb>,
    lc: Seq<LogProb>,
    mc: Seq<LogProb>,
    uc: Seq<LogProb>,
    j: int,
)
    requires
        1 <= band_start,
        j <= lc.len(),
        lc.len() == mc.len(),
        lc.len() == uc.len(),
    ensures
        stable_cells(v, w, t, e, i, band_start, lp, mp, up, lc, mc, uc, j).0.len() == lc.len(),
        stable_cells(v, w, t, e, i, band_start, lp, mp, up, lc, mc, uc, j).1.len() == mc.len(),
        stable_cells(v, w, t, e, i, band_start, lp, mp, up, lc, mc, uc, j).2.len() == uc.len(),
    decreases j - band_start,
{
    if j > band_start {
        lemma_stable_cells_len(v, w, t, e, i, band_start, lp, mp, up, lc, mc, uc, j - 1);
    }
}

/// Every buffer of the stable engine's state has one cell per read column
/// plus one.
pub proof fn lemma_stable_rows_len(
    v: Seq<char>,
    w: Seq<char>,
    t: LnTransitionProbs,
    e: LnEmissionProbs,
    band_width: int,
    i: int,
)
    ensures
        stable_rows(v, w, t, e, band_width, i).0.len() == w.len() + 1,
        stable_rows(v, w, t, e, band_width, i).1.len() == w.len() + 1,
        stable_rows(v, w, t, e, band_width, i).2.len() == w.len() + 1,
        stable_rows(v, w, t, e, band_width, i).3.len() == w.len() + 1,
        stable_rows(v, w, t, e, band_width, i).4.len() == w.len() + 1,
        stable_rows(v, w, t, e, band_width, i).5.len() == w.len() + 1,
    decreases i,
{
    if i > 0 {
        lemma_stable_rows_len(v, w, t, e, band_width, i - 1);
        let s = stable_rows(v, w, t, e, band_width, i - 1);
        let n = v.len() as int;
        let m = w.len() as int;
        let band_start = band_start_spec(n, m, band_width, i);
        let band_end = band_end_spec(n, m, band_width, i);
        let lc0 = if band_start == 1 {
            log_engine_seed_col0(t, i, s.0, s.3)
        } else {
            s.3
        };
        let mc0 = if band_start == 1 {
            s.4.update(0, lp_zero_of(()))
        } else {
            s.4
        };
        lemma_stable_cells_len(v, w, t, e, i, band_start, s.0, s.1, s.2, lc0, mc0, s.5, band_end + 1);
    }
}

/// The buffers after the first `i` rows of the stable forward engine.
pub open spec fn stable_rows(
    v: Seq<char>,
    w: Seq<char>,
    t: LnTransitionProbs,
    e: LnEmissionProbs,
    band_width: int,
    i: int,
) -> RollingRows
    decreases i,
{
    if i <= 0 {
        log_engine_init(w, t)
    } else {
        stable_row(v, w, t, e, band_width, i, stable_rows(v, w, t, e, band_width, i - 1))
    }
}

/// The stable forward engine's result: the match-table value at the final
/// column of the final row.
pub open spec fn stable_forward_spec(
    v: Seq<char>,
    w: Seq<char>,
    t: LnTransitionProbs,
    e: LnEmissionProbs,
    min_band_width: int,
) -> LogProb {
    let n = v.len() as int;
    let m = w.len() as int;
    stable_rows(v, w, t, e, band_width_spec(n, m, min_band_width), n).1[m]
}

/// Total forward log-probability over all alignment paths inside the band,
/// in the log domain throughout: log-domain products are sums and sums of
/// paths are stable log-sum-exp combinations.  Keeps only the previous and
/// the current row of each state's table.  Columns outside the band are
/// never evaluated and keep probability zero.
///
/// The contract pins the result as the fold of the banded recurrence over
/// the named log-domain operations: the result depends on the two
/// sequences, the transition and emission tables and the band width alone
/// (in particular never on the homopolymer table, and identically across
/// repeated calls), and every access the fold makes lies inside the row's
/// band plus the seeded column left of it.
pub fn forward_algorithm_numerically_stable(
    v: &Vec<char>,
    w: &Vec<char>,
    params: &LnAlignmentParameters,
    min_band_width: usize,
) -> (r: LogProb)
    requires
        v@.len() >= 1,
        v@.len() * w@.len() <= usize::MAX,
        v@.len() + w@.len() <= usize::MAX / 4,
        min_band_width <= usize::MAX / 4,
    ensures
        r == stable_forward_spec(
            v@,
            w@,
            params.transition_probs,
            params.emission_probs,
            min_band_width as int,
        ),
{
    let n = v.len();
    let m = w.len();
    let len_diff = if n >= m {
        n - m
    } else {
        m - n
    };
    let band_width = min_band_width + len_diff;

    let mut lower_prev = ln_zero_row(m + 1);
    let mut middle_prev = ln_zero_row(m + 1);
    let mut upper_prev = ln_zero_row(m + 1);
    let mut lower_curr = ln_zero_row(m + 1);
    let mut middle_curr = ln_zero_row(m + 1);
    let mut upper_curr = ln_zero_row(m + 1);

    middle_prev[0] = lp_ln_one();
    let t = params.transition_probs;
    let e = params.emission_probs;

    proof {
        assert(lower_prev@ =~= log_engine_init(w@, t).0);
        assert(middle_prev@ =~= log_engine_init(w@, t).1);
        assert(lower_curr@ =~= log_engine_init(w@, t).3);
        assert(middle_curr@ =~= log_engine_init(w@, t).4);
        assert(upper_curr@ =~= log_engine_init(w@, t).5);
    }

    if m >= 1 {
        upper_prev[1] = t.deletion_from_match;
        let mut j: usize = 2;
        while j <= m
            invariant
                2 <= j <= m + 1,
                m < usize::MAX,
                upper_prev@.len() == m + 1,
                upper_prev@[0] == lp_zero_of(()),
                forall|q: int| 1 <= q < j ==> upper_prev@[q] == upper_seed(t, q),
                forall|q: int| j <= q <= m ==> upper_prev@[q] == lp_zero_of(()),
            decreases m + 1 - j,
        {
            let val = lp_mul(upper_prev[j - 1], t.deletion_from_deletion);
            upper_prev[j] = val;
            proof {
                assert(upper_seed(t, j as int) == lp_mul_of(
                    upper_seed(t, j - 1),
                    t.deletion_from_deletion,
                ));
            }
            j = j + 1;
        }
    }
    proof {
        assert(upper_prev@ =~= log_engine_init(w@, t).2);
    }

    let ghost gv = v@;
    let ghost gw = w@;
    let mut i: usize = 1;
    while i <= n
        invariant
            gv == v@,
            gw == w@,
            n == v@.len(),
            m == w@.len(),
            1 <= i <= n + 1,
            n >= 1,
            n < usize::MAX,
            m < usize::MAX,
            n * m <= usize::MAX,
            m + band_width <= usize::MAX,
            band_width == band_width_spec(n as int, m as int, min_band_width as int),
            lower_prev@.len() == m + 1,
            middle_prev@.len() == m + 1,
            upper_prev@.len() == m + 1,
            lower_curr@.len() == m + 1,
            middle_curr@.len() == m + 1,
            upper_curr@.len() == m + 1,
            lower_prev@ == stable_rows(gv, gw, t, e, band_width as int, i - 1).0,
            middle_prev@ == stable_rows(gv, gw, t, e, band_width as int, i - 1).1,
            upper_prev@ == stable_rows(gv, gw, t, e, band_width as int, i - 1).2,
            lower_curr@ == stable_rows(gv, gw, t, e, band_width as int, i - 1).3,
            middle_curr@ == stable_rows(gv, gw, t, e, band_width as int, i - 1).4,
            upper_curr@ == stable_rows(gv, gw, t, e, band_width as int, i - 1).5,
        decreases n + 1 - i,
    {
        let ghost s = stable_rows(gv, gw, t, e, band_width as int, i - 1);
        proof {
            lemma_stable_rows_len(gv, gw, t, e, band_width as int, i - 1);
        }
        let (band_start, band_end) = band_bounds(n, m, band_width, i);

        if band_start == 1 {
            middle_curr[0] = lp_ln_zero();
            if i == 1 {
                lower_curr[0] = t.insertion_from_match;
            } else {
                let val = lp_mul(lower_prev[0], t.insertion_from_insertion);
                lower_curr[0] = val;
            }
        }
        let ghost lc0 = lower_curr@;
        let ghost mc0 = middle_curr@;
        proof {
            if band_start == 1 {
                assert(lc0 == log_engine_seed_col0(t, i as int, s.0, s.3));
                assert(mc0 == s.4.update(0, lp_zero_of(())));
            }
        }

        let mut j: usize = band_start;
        while j <= band_end
            invariant
                gv == v@,
                gw == w@,
                n == v@.len(),
                m == w@.len(),
                1 <= i <= n,
                1 <= band_start,
                band_end <= m,
                m < usize::MAX,
                band_start <= j,
                j <= band_end + 1 || j == band_start,
                lower_prev@.len() == m + 1,
                middle_prev@.len() == m + 1,
                upper_prev@.len() == m + 1,
                lower_curr@.len() == m + 1,
                middle_curr@.len() == m + 1,
                upper_curr@.len() == m + 1,
                lower_prev@ == s.0,
                middle_prev@ == s.1,
                upper_prev@ == s.2,
                (lower_curr@, middle_curr@, upper_curr@) == stable_cells(
                    gv,
                    gw,
                    t,
                    e,
                    i as int,
                    band_start as int,
                    s.0,
                    s.1,
                    s.2,
                    lc0,
                    mc0,
                    s.5,
                    j as int,
                ),
            decreases band_end + 1 - j,
        {
            let lower_continue = lp_mul(lower_prev[j], t.insertion_from_insertion);
            let lower_from_middle = lp_mul(middle_prev[j], t.insertion_from_match);
            let lc = lp_mul(e.insertion, lp_ln_add_exp(lower_continue, lower_from_middle));
            lower_curr[j] = lc;

            let upper_continue = lp_mul(upper_curr[j - 1], t.deletion_from_deletion);
            let upper_from_middle = lp_mul(middle_curr[j - 1], t.deletion_from_match);
            let uc = lp_mul(e.deletion, lp_ln_add_exp(upper_continue, upper_from_middle));
            upper_curr[j] = uc;

            let middle_from_lower = lp_mul(lower_prev[j - 1], t.match_from_insertion);
            let middle_continue = lp_mul(middle_prev[j - 1], t.match_from_match);
            let middle_from_upper = lp_mul(upper_prev[j - 1], t.match_from_deletion);
            let match_emission = if v[i - 1] == w[j - 1] {
                e.equal
            } else {
                e.not_equal
            };
            let mc = lp_mul(
                match_emission,
                lp_ln_sum_exp3(middle_from_lower, middle_continue, middle_from_upper),
            );
            middle_curr[j] = mc;
            j = j + 1;
        }
        proof {
            if band_start > band_end {
                assert((lower_curr@, middle_curr@, upper_curr@) == stable_cells(
                    gv,
                    gw,
                    t,
                    e,
                    i as int,
                    band_start as int,
                    s.0,
                    s.1,
                    s.2,
                    lc0,
                    mc0,
                    s.5,
                    band_end + 1,
                ));
            }
        }
        let ghost cells = stable_cells(
            gv,
            gw,
            t,
            e,
            i as int,
            band_start as int,
            s.0,
            s.1,
            s.2,
            lc0,
            mc0,
            s.5,
            band_end + 1,
        );
        proof {
            lemma_stable_cells_len(
                gv,
                gw,
                t,
                e,
                i as int,
                band_start as int,
                s.0,
                s.1,
                s.2,
                lc0,
                mc0,
                s.5,
                band_end + 1,
            );
        }

        // Roll the rows: copy the evaluated band plus the column just left
        // of it, which seeds the next row's left boundary.
        let mut j2: usize = band_start - 1;
        while j2 <= band_end
            invariant
                1 <= band_start,
                band_end <= m,
                m < usize::MAX,
                band_start - 1 <= j2,
                j2 <= band_end + 1 || j2 == band_start - 1,
                lower_prev@.len() == m + 1,
                middle_prev@.len() == m + 1,
                upper_prev@.len() == m + 1,
                lower_curr@.len() == m + 1,
                middle_curr@.len() == m + 1,
                upper_curr@.len() == m + 1,
                lower_curr@ == cells.0,
                middle_curr@ == cells.1,
                upper_curr@ == cells.2,
                forall|q: int|
                    0 <= q <= m && !(band_start - 1 <= q < j2) ==> lower_prev@[q] == s.0[q]
                        && middle_prev@[q] == s.1[q] && upper_prev@[q] == s.2[q],
                forall|q: int|
                    band_start - 1 <= q < j2 && q <= m ==> lower_prev@[q] == cells.0[q]
                        && middle_prev@[q] == cells.1[q] && upper_prev@[q] == cells.2[q],
            decreases band_end + 1 - j2,
        {
            let a = upper_curr[j2];
            upper_prev[j2] = a;
            let b = middle_curr[j2];
            middle_prev[j2] = b;
            let c = lower_curr[j2];
            lower_prev[j2] = c;
            j2 = j2 + 1;
        }
        proof {
            let srow = stable_row(gv, gw, t, e, band_width as int, i as int, s);
            assert(srow.0.len() == s.0.len());
            assert forall|q: int| 0 <= q <= m implies lower_prev@[q] == srow.0[q]
                && middle_prev@[q] == srow.1[q] && upper_prev@[q] == srow.2[q] by {
                if band_start - 1 <= q <= band_end {
                    assert(lower_prev@[q] == cells.0[q]);
                    assert(middle_prev@[q] == cells.1[q]);
                    assert(upper_prev@[q] == cells.2[q]);
                } else {
                    assert(lower_prev@[q] == s.0[q]);
                    assert(middle_prev@[q] == s.1[q]);
                    assert(upper_prev@[q] == s.2[q]);
                }
            }
            assert(lower_prev@ =~= srow.0);
            assert(middle_prev@ =~= srow.1);
            assert(upper_prev@ =~= srow.2);
        }

        // Reset the first column of the band so the next row never reuses a
        // stale value there; the verified index discipline above keeps the
        // fold off anything left of the band.
        if band_start <= m {
            upper_curr[band_start] = lp_ln_zero();
            middle_curr[band_start] = lp_ln_zero();
            lower_curr[band_start] = lp_ln_zero();
        }
        proof {
            let srow = stable_row(gv, gw, t, e, band_width as int, i as int, s);
            assert(lower_curr@ == srow.3);
            assert(middle_curr@ == srow.4);
            assert(upper_curr@ == srow.5);
            assert(srow == stable_rows(gv, gw, t, e, band_width as int, i as int));
        }
        i = i + 1;
    }

    middle_prev[m]
}

} // verus!
