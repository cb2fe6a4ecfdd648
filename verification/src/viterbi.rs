//! The Viterbi engine: log-probability of the single best-scoring banded
//! alignment.  Structurally the numerically stable forward algorithm with
//! every log-sum-exp combination replaced by a maximum; on exact ties the
//! first-evaluated candidate is kept, since a candidate only replaces the
//! running maximum on strict improvement.

use vstd::prelude::*;
use bio::stats::LogProb;
use crate::band::band_bounds;
use crate::band::band_end_spec;
use crate::band::band_start_spec;
use crate::buffers::ln_zero_row;
use crate::params::LnAlignmentParameters;
use crate::params::LnEmissionProbs;
use crate::params::LnTransitionProbs;
use crate::probs::lp_gt;
use crate::probs::lp_gt_of;
use crate::probs::lp_ln_one;
use crate::probs::lp_ln_zero;
use crate::probs::lp_mul;
use crate::probs::lp_mul_of;
use crate::probs::lp_zero_of;
use crate::stable::band_width_spec;
use crate::stable::log_engine_init;
use crate::stable::log_engine_seed_col0;
use crate::stable::upper_seed;
use crate::stable::RollingRows;

verus! {

/// The larger of two log-probabilities, the first on ties.
pub open spec fn lp_max(cand: LogProb, acc: LogProb) -> LogProb {
    if lp_gt_of(cand, acc) {
        cand
    } else {
        acc
    }
}

/// The current rows after evaluating columns `band_start .. j` of row `i`
/// by the Viterbi recurrence: per column, each state takes the emission
/// times the strict maximum of its candidate predecessors (the match state
/// maximizes over log-zero and its three diagonal candidates, in their
/// evaluation order).
pub open spec fn viterbi_cells(
    v: Seq<char>,
    w: Seq<char>,
    t: LnTransitionProbs,
    e: LnEmissionProbs,
    i: int,
    band_start: int,
    lp: Seq<LogProb>,
    mp: Seq<LogProb>,
    up: Seq<LogProb>,
    lc: Seq<LogProb>,
    mc: Seq<LogProb>,
    uc: Seq<LogProb>,
    j: int,
) -> (Seq<LogProb>, Seq<LogProb>, Seq<LogProb>)
    decreases j - band_start,
{
    if j <= band_start {
        (lc, mc, uc)
    } else {
        let prev = viterbi_cells(v, w, t, e, i, band_start, lp, mp, up, lc, mc, uc, j - 1);
        let col = j - 1;
        let lower_continue = lp_mul_of(lp[col], t.insertion_from_insertion);
        let lower_from_middle = lp_mul_of(mp[col], t.insertion_from_match);
        let lower_j = if lp_gt_of(lower_continue, lower_from_middle) {
            lp_mul_of(e.insertion, lower_continue)
        } else {
            lp_mul_of(e.insertion, lower_from_middle)
        };
        let upper_continue = lp_mul_of(prev.2[col - 1], t.deletion_from_deletion);
        let upper_from_middle = lp_mul_of(prev.1[col - 1], t.deletion_from_match);
        let upper_j = if lp_gt_of(upper_continue, upper_from_middle) {
            lp_mul_of(e.deletion, upper_continue)
        } else {
            lp_mul_of(e.deletion, upper_from_middle)
        };
        let emis = if v[i - 1] == w[col - 1] {
            e.equal
        } else {
            e.not_equal
        };
        let best = lp_max(
            lp_mul_of(up[col - 1], t.match_from_deletion),
            lp_max(
                lp_mul_of(mp[col - 1], t.match_from_match),
                lp_max(lp_mul_of(lp[col - 1], t.match_from_insertion), lp_zero_of(())),
            ),
        );
        let middle_j = lp_mul_of(emis, best);
        (prev.0.update(col, lower_j), prev.1.update(col, middle_j), prev.2.update(col, upper_j))
    }
}

/// One full row of the Viterbi engine: seed column 0 where the band starts
/// at 1, evaluate the band, roll the band plus the column just left of it
/// into the previous-row buffers, and reset the band's first column of the
/// current rows.
pub open spec fn viterbi_row(
    v: Seq<char>,
    w: Seq<char>,
    t: LnTransitionProbs,
    e: LnEmissionProbs,
    band_width: int,
    i: int,
    s: RollingRows,
) -> RollingRows {
    let n = v.len() as int;
    let m = w.len() as int;
    let band_start = band_start_spec(n, m, band_width, i);
    let band_end = band_end_spec(n, m, band_width, i);
    let lc0 = if band_start == 1 {
        log_engine_seed_col0(t, i, s.0, s.3)
    } else {
        s.3
    };
    let mc0 = if band_start == 1 {
        s.4.update(0, lp_zero_of(()))
    } else {
        s.4
    };
    let cells = viterbi_cells(
        v,
        w,
        t,
        e,
        i,
        band_start,
        s.0,
        s.1,
        s.2,
        lc0,
        mc0,
        s.5,
        band_end + 1,
    );
    let lp1 = Seq::new(
        s.0.len(),
        |jj: int|
            if band_start - 1 <= jj <= band_end {
                cells.0[jj]
            } else {
                s.0[jj]
            },
    );
    let mp1 = Seq::new(
        s.1.len(),
        |jj: int|
            if band_start - 1 <= jj <= band_end {
                cells.1[jj]
            } else {
                s.1[jj]
            },
    );
    let up1 = Seq::new(
        s.2.len(),
        |jj: int|
            if band_start - 1 <= jj <= band_end {
                cells.2[jj]
            } else {
                s.2[jj]
            },
    );
    let lc2 = if band_start <= m {
        cells.0.update(band_start, lp_zero_of(()))
    } else {
        cells.0
    };
    let mc2 = if band_start <= m {
        cells.1.update(band_start, lp_zero_of(()))
    } else {
        cells.1
    };
    let uc2 = if band_start <= m {
        cells.2.update(band_start, lp_zero_of(()))
    } else {
        cells.2
    };
    (lp1, mp1, up1, lc2, mc2, uc2)
}

/// Evaluating cells keeps the row lengths.
pub proof fn lemma_viterbi_cells_len(
    v: Seq<char>,
    w: Seq<char>,
    t: LnTransitionProbs,
    e: LnEmissionProbs,
    i: int,
    band_start: int,
    lp: Seq<LogProb>,
    mp: Seq<LogProb>,
    up: Seq<LogProb>,
    lc: Seq<LogProb>,
    mc: Seq<LogProb>,
    uc: Seq<LogProb>,
    j: int,
)
    requires
        1 <= band_start,
        j <= lc.len(),
        lc.len() == mc.len(),
        lc.len() == uc.len(),
    ensures
        viterbi_cells(v, w, t, e, i, band_start, lp, mp, up, lc, mc, uc, j).0.len() == lc.len(),
        viterbi_cells(v, w, t, e, i, band_start, lp, mp, up, lc, mc, uc, j).1.len() == mc.len(),
        viterbi_cells(v, w, t, e, i, band_start, lp, mp, up, lc, mc, uc, j).2.len() == uc.len(),
    decreases j - band_start,
{
    if j > band_start {
        lemma_viterbi_cells_len(v, w, t, e, i, band_start, lp, mp, up, lc, mc, uc, j - 1);
    }
}

/// The buffers after the first `i` rows of the Viterbi engine.
pub open spec fn viterbi_rows(
    v: Seq<char>,
    w: Seq<char>,
    t: LnTransitionProbs,
    e: LnEmissionProbs,
    band_width: int,
    i: int,
) -> RollingRows
    decreases i,
{
    if i <= 0 {
        log_engine_init(w, t)
    } else {
        viterbi_row(v, w, t, e, band_width, i, viterbi_rows(v, w, t, e, band_width, i - 1))
    }
}

/// Every buffer of the Viterbi engine's state has one cell per read column
/// plus one.
pub proof fn lemma_viterbi_rows_len(
    v: Seq<char>,
    w: Seq<char>,
    t: LnTransitionProbs,
    e: LnEmissionProbs,
    band_width: int,
    i: int,
)
    ensures
        viterbi_rows(v, w, t, e, band_width, i).0.len() == w.len() + 1,
        viterbi_rows(v, w, t, e, band_width, i).1.len() == w.len() + 1,
        viterbi_rows(v, w, t, e, band_width, i).2.len() == w.len() + 1,
        viterbi_rows(v, w, t, e, band_width, i).3.len() == w.len() + 1,
        viterbi_rows(v, w, t, e, band_width, i).4.len() == w.len() + 1,
        viterbi_rows(v, w, t, e, band_width, i).5.len() == w.len() + 1,
    decreases i,
{
    if i > 0 {
        lemma_viterbi_rows_len(v, w, t, e, band_width, i - 1);
        let s = viterbi_rows(v, w, t, e, band_width, i - 1);
        let n = v.len() as int;
        let m = w.len() as int;
        let band_start = band_start_spec(n, m, band_width, i);
        let band_end = band_end_spec(n, m, band_width, i);
        let lc0 = if band_start == 1 {
            log_engine_seed_col0(t, i, s.0, s.3)
        } else {
            s.3
        };
        let mc0 = if band_start == 1 {
            s.4.update(0, lp_zero_of(()))
        } else {
            s.4
        };
        lemma_viterbi_cells_len(
            v,
            w,
            t,
            e,
            i,
            band_start,
            s.0,
            s.1,
            s.2,
            lc0,
            mc0,
            s.5,
            band_end + 1,
        );
    }
}

/// The Viterbi engine's result: the match-table value at the final column
/// of the final row.
pub open spec fn viterbi_spec(
    v: Seq<char>,
    w: Seq<char>,
    t: LnTransitionProbs,
    e: LnEmissionProbs,
    min_band_width: int,
) -> LogProb {
    let n = v.len() as int;
    let m = w.len() as int;
    viterbi_rows(v, w, t, e, band_width_spec(n, m, min_band_width), n).1[m]
}

/// Log-probability of the single highest-scoring alignment path inside the
/// band — the best path, not the marginal over all paths.  Same banding,
/// same rolling two-row buffers and same boundary reset discipline as the
/// stable forward algorithm.
///
/// The contract pins the result as the fold of the banded max recurrence
/// over the named log-domain operations: the result depends on the two
/// sequences, the transition and emission tables and the band width alone
/// (in particular never on the homopolymer table, and identically across
/// repeated calls), and every access the fold makes lies inside the row's
/// band plus the seeded column left of it.
pub fn viterbi_max_scoring_alignment(
    v: &Vec<char>,
    w: &Vec<char>,
    params: &LnAlignmentParameters,
    min_band_width: usize,
) -> (r: LogProb)
    requires
        v@.len() >= 1,
        v@.len() * w@.len() <= usize::MAX,
        v@.len() + w@.len() <= usize::MAX / 4,
        min_band_width <= usize::MAX / 4,
    ensures
        r == viterbi_spec(
            v@,
            w@,
            params.transition_probs,
            params.emission_probs,
            min_band_width as int,
        ),
{
    let n = v.len();
    let m = w.len();
    let len_diff = if n >= m {
        n - m
    } else {
        m - n
    };
    let band_width = min_band_width + len_diff;

    let mut lower_prev = ln_zero_row(m + 1);
    let mut middle_prev = ln_zero_row(m + 1);
    let mut upper_prev = ln_zero_row(m + 1);
    let mut lower_curr = ln_zero_row(m + 1);
    let mut middle_curr = ln_zero_row(m + 1);
    let mut upper_curr = ln_zero_row(m + 1);

    middle_prev[0] = lp_ln_one();
    let t = params.transition_probs;
    let e = params.emission_probs;

    proof {
        assert(lower_prev@ =~= log_engine_init(w@, t).0);
        assert(middle_prev@ =~= log_engine_init(w@, t).1);
        assert(lower_curr@ =~= log_engine_init(w@, t).3);
        assert(middle_curr@ =~= log_engine_init(w@, t).4);
        assert(upper_curr@ =~= log_engine_init(w@, t).5);
    }

    if m >= 1 {
        upper_prev[1] = t.deletion_from_match;
        let mut j: usize = 2;
        while j <= m
            invariant
                2 <= j <= m + 1,
                m < usize::MAX,
                upper_prev@.len() == m + 1,
                upper_prev@[0] == lp_zero_of(()),
                forall|q: int| 1 <= q < j ==> upper_prev@[q] == upper_seed(t, q),
                forall|q: int| j <= q <= m ==> upper_prev@[q] == lp_zero_of(()),
            decreases m + 1 - j,
        {
            let val = lp_mul(upper_prev[j - 1], t.deletion_from_deletion);
            upper_prev[j] = val;
            proof {
                assert(upper_seed(t, j as int) == lp_mul_of(
                    upper_seed(t, j - 1),
                    t.deletion_from_deletion,
                ));
            }
            j = j + 1;
        }
    }
    proof {
        assert(upper_prev@ =~= log_engine_init(w@, t).2);
    }

    let ghost gv = v@;
    let ghost gw = w@;
    let mut i: usize = 1;
    while i <= n
        invariant
            gv == v@,
            gw == w@,
            n == v@.len(),
            m == w@.len(),
            1 <= i <= n + 1,
            n >= 1,
            n < usize::MAX,
            m < usize::MAX,
            n * m <= usize::MAX,
            m + band_width <= usize::MAX,
            band_width == band_width_spec(n as int, m as int, min_band_width as int),
            lower_prev@.len() == m + 1,
            middle_prev@.len() == m + 1,
            upper_prev@.len() == m + 1,
            lower_curr@.len() == m + 1,
            middle_curr@.len() == m + 1,
            upper_curr@.len() == m + 1,
            lower_prev@ == viterbi_rows(gv, gw, t, e, band_width as int, i - 1).0,
            middle_prev@ == viterbi_rows(gv, gw, t, e, band_width as int, i - 1).1,
            upper_prev@ == viterbi_rows(gv, gw, t, e, band_width as int, i - 1).2,
            lower_curr@ == viterbi_rows(gv, gw, t, e, band_width as int, i - 1).3,
            middle_curr@ == viterbi_rows(gv, gw, t, e, band_width as int, i - 1).4,
            upper_curr@ == viterbi_rows(gv, gw, t, e, band_width as int, i - 1).5,
        decreases n + 1 - i,
    {
        let ghost s = viterbi_rows(gv, gw, t, e, band_width as int, i - 1);
        proof {
            lemma_viterbi_rows_len(gv, gw, t, e, band_width as int, i - 1);
        }
        let (band_start, band_end) = band_bounds(n, m, band_width, i);

        if band_start == 1 {
            middle_curr[0] = lp_ln_zero();
            if i == 1 {
                lower_curr[0] = t.insertion_from_match;
            } else {
                let val = lp_mul(lower_prev[0], t.insertion_from_insertion);
                lower_curr[0] = val;
            }
        }
        let ghost lc0 = lower_curr@;
        let ghost mc0 = middle_curr@;
        proof {
            if band_start == 1 {
                assert(lc0 == log_engine_seed_col0(t, i as int, s.0, s.3));
                assert(mc0 == s.4.update(0, lp_zero_of(())));
            }
        }

        let mut j: usize = band_start;
        while j <= band_end
            invariant
                gv == v@,
                gw == w@,
                n == v@.len(),
                m == w@.len(),
                1 <= i <= n,
                1 <= band_start,
                band_end <= m,
                m < usize::MAX,
                band_start <= j,
                j <= band_end + 1 || j == band_start,
                lower_prev@.len() == m + 1,
                middle_prev@.len() == m + 1,
                upper_prev@.len() == m + 1,
                lower_curr@.len() == m + 1,
                middle_curr@.len() == m + 1,
                upper_curr@.len() == m + 1,
                lower_prev@ == s.0,
                middle_prev@ == s.1,
                upper_prev@ == s.2,
                (lower_curr@, middle_curr@, upper_curr@) == viterbi_cells(
                    gv,
                    gw,
                    t,
                    e,
                    i as int,
                    band_start as int,
                    s.0,
                    s.1,
                    s.2,
                    lc0,
                    mc0,
                    s.5,
                    j as int,
                ),
            decreases band_end + 1 - j,
        {
            let lower_continue = lp_mul(lower_prev[j], t.insertion_from_insertion);
            let lower_from_middle = lp_mul(middle_prev[j], t.insertion_from_match);
            let lc = if lp_gt(lower_continue, lower_from_middle) {
                lp_mul(e.insertion, lower_continue)
            } else {
                lp_mul(e.insertion, lower_from_middle)
            };
            lower_curr[j] = lc;

            let upper_continue = lp_mul(upper_curr[j - 1], t.deletion_from_deletion);
            let upper_from_middle = lp_mul(middle_curr[j - 1], t.deletion_from_match);
            let uc = if lp_gt(upper_continue, upper_from_middle) {
                lp_mul(e.deletion, upper_continue)
            } else {
                lp_mul(e.deletion, upper_from_middle)
            };
            upper_curr[j] = uc;

            let middle_from_lower = lp_mul(lower_prev[j - 1], t.match_from_insertion);
            let middle_continue = lp_mul(middle_prev[j - 1], t.match_from_match);
            let middle_from_upper = lp_mul(upper_prev[j - 1], t.match_from_deletion);
            let mut max_option = lp_ln_zero();
            if lp_gt(middle_from_lower, max_option) {
                max_option = middle_from_lower;
            }
            if lp_gt(middle_continue, max_option) {
                max_option = middle_continue;
            }
            if lp_gt(middle_from_upper, max_option) {
                max_option = middle_from_upper;
            }
            let match_emission = if v[i - 1] == w[j - 1] {
                e.equal
            } else {
                e.not_equal
            };
            let mc = lp_mul(match_emission, max_option);
            middle_curr[j] = mc;
            j = j + 1;
        }
        proof {
            if band_start > band_end {
                assert((lower_curr@, middle_curr@, upper_curr@) == viterbi_cells(
                    gv,
                    gw,
                    t,
                    e,
                    i as int,
                    band_start as int,
                    s.0,
                    s.1,
                    s.2,
                    lc0,
                    mc0,
                    s.5,
                    band_end + 1,
                ));
            }
        }
        let ghost cells = viterbi_cells(
            gv,
            gw,
            t,
            e,
            i as int,
            band_start as int,
            s.0,
            s.1,
            s.2,
            lc0,
            mc0,
            s.5,
            band_end + 1,
        );
        proof {
            lemma_viterbi_cells_len(
                gv,
                gw,
                t,
                e,
                i as int,
                band_start as int,
                s.0,
                s.1,
                s.2,
                lc0,
                mc0,
                s.5,
                band_end + 1,
            );
        }

        // Roll the rows: copy the evaluated band plus the column just left
        // of it, which seeds the next row's left boundary.
        let mut j2: usize = band_start - 1;
        while j2 <= band_end
            invariant
                1 <= band_start,
                band_end <= m,
                m < usize::MAX,
                band_start - 1 <= j2,
                j2 <= band_end + 1 || j2 == band_start - 1,
                lower_prev@.len() == m + 1,
                middle_prev@.len() == m + 1,
                upper_prev@.len() == m + 1,
                lower_curr@.len() == m + 1,
                middle_curr@.len() == m + 1,
                upper_curr@.len() == m + 1,
                lower_curr@ == cells.0,
                middle_curr@ == cells.1,
                upper_curr@ == cells.2,
                forall|q: int|
                    0 <= q <= m && !(band_start - 1 <= q < j2) ==> lower_prev@[q] == s.0[q]
                        && middle_prev@[q] == s.1[q] && upper_prev@[q] == s.2[q],
                forall|q: int|
                    band_start - 1 <= q < j2 && q <= m ==> lower_prev@[q] == cells.0[q]
                        && middle_prev@[q] == cells.1[q] && upper_prev@[q] == cells.2[q],
            decreases band_end + 1 - j2,
        {
            let a = upper_curr[j2];
            upper_prev[j2] = a;
            let b = middle_curr[j2];
            middle_prev[j2] = b;
            let c = lower_curr[j2];
            lower_prev[j2] = c;
            j2 = j2 + 1;
        }
        proof {
            let srow = viterbi_row(gv, gw, t, e, band_width as int, i as int, s);
            assert(srow.0.len() == s.0.len());
            assert forall|q: int| 0 <= q <= m implies lower_prev@[q] == srow.0[q]
                && middle_prev@[q] == srow.1[q] && upper_prev@[q] == srow.2[q] by {
                if band_start - 1 <= q <= band_end {
                    assert(lower_prev@[q] == cells.0[q]);
                    assert(middle_prev@[q] == cells.1[q]);
                    assert(upper_prev@[q] == cells.2[q]);
                } else {
                    assert(lower_prev@[q] == s.0[q]);
                    assert(middle_prev@[q] == s.1[q]);
                    assert(upper_prev@[q] == s.2[q]);
                }
            }
            assert(lower_prev@ =~= srow.0);
            assert(middle_prev@ =~= srow.1);
            assert(upper_prev@ =~= srow.2);
        }

        // Reset the first column of the band so the next row never reuses a
        // stale value there; the verified index discipline above keeps the
        // fold off anything left of the band.
        if band_start <= m {
            upper_curr[band_start] = lp_ln_zero();
            middle_curr[band_start] = lp_ln_zero();
            lower_curr[band_start] = lp_ln_zero();
        }
        proof {
            let srow = viterbi_row(gv, gw, t, e, band_width as int, i as int, s);
            assert(lower_curr@ == srow.3);
            assert(middle_curr@ == srow.4);
            assert(upper_curr@ == srow.5);
            assert(srow == viterbi_rows(gv, gw, t, e, band_width as int, i as int));
        }
        i = i + 1;
    }

    middle_prev[m]
}

} // verus!
