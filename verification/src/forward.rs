//! The non-numerically-stable forward algorithm: total probability of all
//! banded alignments, computed in the linear probability domain over the
//! full table, with a homopolymer-run shortcut that scores a whole run of
//! equal symbols as a single transition out of the run's starting cell.
//!
//! Linear-domain values can underflow to zero on long inputs; this engine
//! is meant for short sequences and for cross-validation against the
//! stable engine.

use vstd::prelude::*;
use bio::stats::LogProb;
use bio::stats::Prob;
use crate::band::band_bounds;
use crate::band::band_end_spec;
use crate::band::band_start_spec;
use crate::buffers::is_matrix;
use crate::buffers::prob_matrix;
use crate::params::AlignmentParameters;
use crate::params::EmissionProbs;
use crate::params::TransitionProbs;
use crate::probs::ln_of;
use crate::probs::ln_of_prob;
use crate::probs::prob_add;
use crate::probs::prob_add_of;
use crate::probs::prob_mul;
use crate::probs::prob_mul_of;
use crate::probs::prob_one;
use crate::probs::prob_one_of;
use crate::probs::prob_zero;
use crate::probs::prob_zero_of;
use crate::runs::first_occ_vector;
use crate::runs::last_occ_vector;
use crate::runs::lemma_run_first_bounds;
use crate::runs::run_first;
use crate::runs::run_last;
use crate::stable::band_width_spec;
use crate::table::HomopolymerProbs;

verus! {

/// The three full tables of the linear-domain engine, in the order
/// (lower, middle, upper).
pub type ProbMatrices = (Seq<Seq<Prob>>, Seq<Seq<Prob>>, Seq<Seq<Prob>>);

/// Each table has one row per reference position plus one, each of one
/// cell per read position plus one.
pub open spec fn pmat_wf(mat: Seq<Seq<Prob>>, n: int, m: int) -> bool {
    &&& mat.len() == n + 1
    &&& forall|x: int| 0 <= x <= n ==> (#[trigger] mat[x]).len() == m + 1
}

/// Column zero of the insertion table: a geometric decay of
/// insertion-continuation transitions seeded by insertion-from-match.
pub open spec fn prob_lower_seed(t: TransitionProbs, i: int) -> Prob
    decreases i,
{
    if i <= 1 {
        t.insertion_from_match
    } else {
        prob_mul_of(prob_lower_seed(t, i - 1), t.insertion_from_insertion)
    }
}

/// Row zero of the deletion table: a geometric decay of
/// deletion-continuation transitions seeded by deletion-from-match.
pub open spec fn prob_upper_seed(t: TransitionProbs, j: int) -> Prob
    decreases j,
{
    if j <= 1 {
        t.deletion_from_match
    } else {
        prob_mul_of(prob_upper_seed(t, j - 1), t.deletion_from_deletion)
    }
}

/// The tables before the first row: all zero, except the origin cell of
/// the match table (one), column zero of the insertion table and row zero
/// of the deletion table (the geometric seeds).
pub open spec fn fwd_init(n: int, m: int, t: TransitionProbs) -> ProbMatrices {
    let lower = Seq::new(
        (n + 1) as nat,
        |x: int|
            Seq::new(
                (m + 1) as nat,
                |y: int|
                    if y == 0 && x >= 1 {
                        prob_lower_seed(t, x)
                    } else {
                        prob_zero_of(())
                    },
            ),
    );
    let middle = Seq::new(
        (n + 1) as nat,
        |x: int|
            Seq::new(
                (m + 1) as nat,
                |y: int|
                    if x == 0 && y == 0 {
                        prob_one_of(())
                    } else {
                        prob_zero_of(())
                    },
            ),
    );
    let upper = Seq::new(
        (n + 1) as nat,
        |x: int|
            Seq::new(
                (m + 1) as nat,
                |y: int|
                    if x == 0 && y >= 1 {
                        prob_upper_seed(t, y)
                    } else {
                        prob_zero_of(())
                    },
            ),
    );
    (lower, middle, upper)
}

/// The probability of observing, for a run of `base`, the given read
/// length given the given reference length: the table's entry, or zero
/// where the table holds none.
pub open spec fn hp_val(table: HomopolymerProbs, base: char, len_ref: int, len_read: int) -> Prob {
    match table.spec_get((base, len_ref as usize, len_read as usize)) {
        Some(p) => p,
        None => prob_zero_of(()),
    }
}

/// The perimeter of cells bounding the homopolymer square with terminal
/// cell (i, j) and run starts (fv, fw): the start column walked bottom-up,
/// the starting cell, then the start row left-to-right.
pub open spec fn hp_perimeter_spec(fv: int, fw: int, i: int, j: int) -> Seq<(int, int)> {
    Seq::new((i - 1 - fv) as nat, |k: int| (i - 1 - k, fw)).push((fv, fw)) + Seq::new(
        (j - 1 - fw) as nat,
        |k: int| (fv, fw + 1 + k),
    )
}

/// The match cell (i, j) after accumulating the first `k` perimeter cells:
/// each adds the three-state mass at that boundary cell times the table
/// probability of the run observation it stands for.
pub open spec fn hp_accum(
    s: ProbMatrices,
    table: HomopolymerProbs,
    base: char,
    i: int,
    j: int,
    per: Seq<(int, int)>,
    k: int,
) -> Prob
    decreases k,
{
    if k <= 0 {
        s.1[i][j]
    } else {
        let hi = per[k - 1].0;
        let hj = per[k - 1].1;
        let boundary = prob_add_of(prob_add_of(s.0[hi][hj], s.1[hi][hj]), s.2[hi][hj]);
        prob_add_of(
            hp_accum(s, table, base, i, j, per, k - 1),
            prob_mul_of(boundary, hp_val(table, base, j - hj, i - hi)),
        )
    }
}

/// One banded cell (i, j) of the linear-domain engine.  A cell whose
/// symbols match mid-run either performs the homopolymer shortcut (when it
/// is terminal for the run on one side) or is skipped; every other cell
/// takes the standard three-state recurrence.
pub open spec fn fwd_cell(
    v: Seq<char>,
    w: Seq<char>,
    t: TransitionProbs,
    e: EmissionProbs,
    table: HomopolymerProbs,
    i: int,
    j: int,
    s: ProbMatrices,
) -> ProbMatrices {
    if v[i - 1] == w[j - 1] && (run_first(v, i - 1) != i - 1 || run_first(w, j - 1) != j - 1) {
        if run_last(v, i - 1) == i - 1 || run_last(w, j - 1) == j - 1 {
            let fv = run_first(v, i - 1);
            let fw = run_first(w, j - 1);
            let per = hp_perimeter_spec(fv, fw, i, j);
            let acc = hp_accum(s, table, v[i - 1], i, j, per, per.len() as int);
            (s.0, s.1.update(i, s.1[i].update(j, acc)), s.2)
        } else {
            s
        }
    } else {
        let lower_j = prob_mul_of(
            e.insertion,
            prob_add_of(
                prob_mul_of(s.0[i - 1][j], t.insertion_from_insertion),
                prob_mul_of(s.1[i - 1][j], t.insertion_from_match),
            ),
        );
        let upper_j = prob_mul_of(
            e.deletion,
            prob_add_of(
                prob_mul_of(s.2[i][j - 1], t.deletion_from_deletion),
                prob_mul_of(s.1[i][j - 1], t.deletion_from_match),
            ),
        );
        let emis = if v[i - 1] == w[j - 1] {
            e.equal
        } else {
            e.not_equal
        };
        let middle_j = prob_mul_of(
            emis,
            prob_add_of(
                prob_add_of(
                    prob_mul_of(s.0[i - 1][j - 1], t.match_from_insertion),
                    prob_mul_of(s.1[i - 1][j - 1], t.match_from_match),
                ),
                prob_mul_of(s.2[i - 1][j - 1], t.match_from_deletion),
            ),
        );
        (
            s.0.update(i, s.0[i].update(j, lower_j)),
            s.1.update(i, s.1[i].update(j, middle_j)),
            s.2.update(i, s.2[i].update(j, upper_j)),
        )
    }
}

/// The tables after evaluating columns `band_start .. j` of row `i`.
pub open spec fn fwd_cells(
    v: Seq<char>,
    w: Seq<char>,
    t: TransitionProbs,
    e: EmissionProbs,
    table: HomopolymerProbs,
    i: int,
    band_start: int,
    s: ProbMatrices,
    j: int,
) -> ProbMatrices
    decreases j - band_start,
{
    if j <= band_start {
        s
    } else {
        fwd_cell(v, w, t, e, table, i, j - 1, fwd_cells(v, w, t, e, table, i, band_start, s, j - 1))
    }
}

/// The tables after the first `i` rows of the linear-domain engine.
pub open spec fn fwd_rows(
    v: Seq<char>,
    w: Seq<char>,
    t: TransitionProbs,
    e: EmissionProbs,
    table: HomopolymerProbs,
    band_width: int,
    i: int,
) -> ProbMatrices
    decreases i,
{
    let n = v.len() as int;
    let m = w.len() as int;
    if i <= 0 {
        fwd_init(n, m, t)
    } else {
        let band_start = band_start_spec(n, m, band_width, i);
        let band_end = band_end_spec(n, m, band_width, i);
        fwd_cells(
            v,
            w,
            t,
            e,
            table,
            i,
            band_start,
            fwd_rows(v, w, t, e, table, band_width, i - 1),
            band_end + 1,
        )
    }
}

/// Evaluating a banded cell keeps the tables rectangular.
pub proof fn lemma_fwd_cell_wf(
    v: Seq<char>,
    w: Seq<char>,
    t: TransitionProbs,
    e: EmissionProbs,
    table: HomopolymerProbs,
    i: int,
    j: int,
    s: ProbMatrices,
    n: int,
    m: int,
)
    requires
        pmat_wf(s.0, n, m),
        pmat_wf(s.1, n, m),
        pmat_wf(s.2, n, m),
        1 <= i <= n,
        1 <= j <= m,
    ensures
        pmat_wf(fwd_cell(v, w, t, e, table, i, j, s).0, n, m),
        pmat_wf(fwd_cell(v, w, t, e, table, i, j, s).1, n, m),
        pmat_wf(fwd_cell(v, w, t, e, table, i, j, s).2, n, m),
{
}

/// Evaluating a row's band keeps the tables rectangular.
pub proof fn lemma_fwd_cells_wf(
    v: Seq<char>,
    w: Seq<char>,
    t: TransitionProbs,
    e: EmissionProbs,
    table: HomopolymerProbs,
    i: int,
    band_start: int,
    s: ProbMatrices,
    j: int,
    n: int,
    m: int,
)
    requires
        pmat_wf(s.0, n, m),
        pmat_wf(s.1, n, m),
        pmat_wf(s.2, n, m),
        1 <= i <= n,
        1 <= band_start,
        j <= m + 1,
    ensures
        pmat_wf(fwd_cells(v, w, t, e, table, i, band_start, s, j).0, n, m),
        pmat_wf(fwd_cells(v, w, t, e, table, i, band_start, s, j).1, n, m),
        pmat_wf(fwd_cells(v, w, t, e, table, i, band_start, s, j).2, n, m),
    decreases j - band_start,
{
    if j > band_start {
        lemma_fwd_cells_wf(v, w, t, e, table, i, band_start, s, j - 1, n, m);
        lemma_fwd_cell_wf(
            v,
            w,
            t,
            e,
            table,
            i,
            j - 1,
            fwd_cells(v, w, t, e, table, i, band_start, s, j - 1),
            n,
            m,
        );
    }
}

/// The tables stay rectangular across rows.
pub proof fn lemma_fwd_rows_wf(
    v: Seq<char>,
    w: Seq<char>,
    t: TransitionProbs,
    e: EmissionProbs,
    table: HomopolymerProbs,
    band_width: int,
    i: int,
)
    requires
        0 <= i <= v.len(),
        v.len() >= 1,
    ensures
        pmat_wf(fwd_rows(v, w, t, e, table, band_width, i).0, v.len() as int, w.len() as int),
        pmat_wf(fwd_rows(v, w, t, e, table, band_width, i).1, v.len() as int, w.len() as int),
        pmat_wf(fwd_rows(v, w, t, e, table, band_width, i).2, v.len() as int, w.len() as int),
    decreases i,
{
    let n = v.len() as int;
    let m = w.len() as int;
    if i > 0 {
        lemma_fwd_rows_wf(v, w, t, e, table, band_width, i - 1);
        lemma_fwd_cells_wf(
            v,
            w,
            t,
            e,
            table,
            i,
            band_start_spec(n, m, band_width, i),
            fwd_rows(v, w, t, e, table, band_width, i - 1),
            band_end_spec(n, m, band_width, i) + 1,
            n,
            m,
        );
    }
}

/// The linear-domain engine's result before the final log conversion: the
/// match-table value at the last row and column.
pub open spec fn forward_spec(
    v: Seq<char>,
    w: Seq<char>,
    t: TransitionProbs,
    e: EmissionProbs,
    table: HomopolymerProbs,
    min_band_width: int,
) -> Prob {
    let n = v.len() as int;
    let m = w.len() as int;
    fwd_rows(v, w, t, e, table, band_width_spec(n, m, min_band_width), n).1[n][m]
}

/// The deep view of an executable matrix.
pub open spec fn deep(mat: Seq<Vec<Prob>>) -> Seq<Seq<Prob>> {
    Seq::new(mat.len(), |x: int| mat[x]@)
}

/// The perimeter of cells bounding the homopolymer square whose terminal
/// cell is `(i, j)` and whose runs start at `run_start_v` on the reference
/// side and `run_start_w` on the read side: the run's start column walked
/// from row `i - 1` down to the row just below the start, then the run's
/// starting cell, then the run's start row from the column just right of
/// the start up to column `j - 1`.
fn homopolymer_perimeter(run_start_v: usize, run_start_w: usize, i: usize, j: usize) -> (r: Vec<
    (usize, usize),
>)
    requires
        run_start_v < i,
        run_start_w < j,
    ensures
        r@.len() == hp_perimeter_spec(
            run_start_v as int,
            run_start_w as int,
            i as int,
            j as int,
        ).len(),
        forall|k: int|
            0 <= k < r@.len() ==> (#[trigger] r@[k]).0 as int == hp_perimeter_spec(
                run_start_v as int,
                run_start_w as int,
                i as int,
                j as int,
            )[k].0 && r@[k].1 as int == hp_perimeter_spec(
                run_start_v as int,
                run_start_w as int,
                i as int,
                j as int,
            )[k].1,
{
    let ghost per = hp_perimeter_spec(run_start_v as int, run_start_w as int, i as int, j as int);
    let mut r: Vec<(usize, usize)> = Vec::new();
    let mut h: usize = i - 1;
    while h > run_start_v
        invariant
            run_start_v < i,
            run_start_v <= h <= i - 1,
            r@.len() == i - 1 - h,
            forall|k: int|
                0 <= k < r@.len() ==> (#[trigger] r@[k]).0 as int == i - 1 - k && r@[k].1
                    == run_start_w,
        decreases h,
    {
        r.push((h, run_start_w));
        h = h - 1;
    }
    r.push((run_start_v, run_start_w));
    let mut hj: usize = run_start_w + 1;
    while hj < j
        invariant
            run_start_v < i,
            run_start_w < j,
            run_start_w < hj <= j,
            r@.len() == (i - run_start_v) + (hj - 1 - run_start_w),
            forall|k: int|
                0 <= k < i - 1 - run_start_v ==> (#[trigger] r@[k]).0 as int == i - 1 - k
                    && r@[k].1 == run_start_w,
            (r@[i - 1 - run_start_v]).0 == run_start_v && (r@[i - 1 - run_start_v]).1
                == run_start_w,
            forall|k: int|
                0 <= k < hj - 1 - run_start_w ==> (#[trigger] r@[i - run_start_v + k]).0
                    == run_start_v && r@[i - run_start_v + k].1 as int == run_start_w + 1 + k,
        decreases j - hj,
    {
        r.push((run_start_v, hj));
        hj = hj + 1;
    }
    proof {
        assert(r@.len() == per.len());
        assert forall|k: int| 0 <= k < r@.len() implies (#[trigger] r@[k]).0 as int == per[k].0
            && r@[k].1 as int == per[k].1 by {
            let cl = i - 1 - run_start_v;
            if k > cl {
                assert((r@[i - run_start_v + (k - cl - 1)]).0 == run_start_v);
            }
        }
    }
    r
}

/// Total forward probability over all alignment paths inside the band,
/// returned as a log-probability.  Cells where the two symbols match
/// mid-run are skipped and only the run's terminal cells accumulate, over
/// the perimeter of the homopolymer square, the probability of observing
/// the run's read length given its reference length (a missing table entry
/// contributes probability zero).
///
/// The contract pins the result as the natural logarithm of the fold of
/// the banded shortcut recurrence over the named linear-domain operations:
/// the result depends on the two sequences, the parameter bundle and the
/// band width alone, identically across repeated calls.
pub fn forward_algorithm_non_numerically_stable(
    v: &Vec<char>,
    w: &Vec<char>,
    params: &AlignmentParameters,
    min_band_width: usize,
) -> (r: LogProb)
    requires
        v@.len() >= 1,
        v@.len() * w@.len() <= usize::MAX,
        v@.len() + w@.len() <= usize::MAX / 4,
        min_band_width <= usize::MAX / 4,
        params.homopolymer_probs.wf(),
    ensures
        r == ln_of(
            forward_spec(
                v@,
                w@,
                params.transition_probs,
                params.emission_probs,
                params.homopolymer_probs,
                min_band_width as int,
            ),
        ),
{
    let n = v.len();
    let m = w.len();
    let len_diff = if n >= m {
        n - m
    } else {
        m - n
    };
    let band_width = min_band_width + len_diff;

    let mut forward_lower = prob_matrix(n + 1, m + 1);
    let mut forward_middle = prob_matrix(n + 1, m + 1);
    let mut forward_upper = prob_matrix(n + 1, m + 1);

    let first_occ_v = first_occ_vector(v);
    let first_occ_w = first_occ_vector(w);
    let last_occ_v = last_occ_vector(v);
    let last_occ_w = last_occ_vector(w);

    forward_middle[0][0] = prob_one();

    let t = params.transition_probs;
    let e = params.emission_probs;
    let ghost gv = v@;
    let ghost gw = w@;
    let ghost table = params.homopolymer_probs;

    if m >= 1 {
        forward_upper[0][1] = t.deletion_from_match;
        let mut j: usize = 2;
        while j <= m
            invariant
                2 <= j <= m + 1,
                m < usize::MAX,
                n < usize::MAX,
                is_matrix(forward_upper@, n + 1, m + 1),
                forward_upper@[0]@[0] == prob_zero_of(()),
                forall|q: int| 1 <= q < j ==> forward_upper@[0]@[q] == prob_upper_seed(t, q),
                forall|q: int| j <= q <= m ==> forward_upper@[0]@[q] == prob_zero_of(()),
                forall|x: int, y: int|
                    1 <= x <= n && 0 <= y <= m ==> #[trigger] forward_upper@[x]@[y]
                        == prob_zero_of(()),
            decreases m + 1 - j,
        {
            let val = prob_mul(forward_upper[0][j - 1], t.deletion_from_deletion);
            forward_upper[0][j] = val;
            proof {
                assert(prob_upper_seed(t, j as int) == prob_mul_of(
                    prob_upper_seed(t, j - 1),
                    t.deletion_from_deletion,
                ));
            }
            j = j + 1;
        }
    }

    forward_lower[1][0] = t.insertion_from_match;
    let mut i0: usize = 2;
    while i0 <= n
        invariant
            2 <= i0 <= n + 1,
            n >= 1,
            n < usize::MAX,
            m < usize::MAX,
            is_matrix(forward_lower@, n + 1, m + 1),
            forall|x: int| 1 <= x < i0 ==> forward_lower@[x]@[0] == prob_lower_seed(t, x),
            forall|x: int, y: int|
                0 <= x <= n && 0 <= y <= m && y != 0 ==> #[trigger] forward_lower@[x]@[y]
                    == prob_zero_of(()),
            forall|x: int| (x == 0 || i0 <= x <= n) ==> forward_lower@[x]@[0] == prob_zero_of(()),
        decreases n + 1 - i0,
    {
        let val = prob_mul(forward_lower[i0 - 1][0], t.insertion_from_insertion);
        forward_lower[i0][0] = val;
        proof {
            assert(prob_lower_seed(t, i0 as int) == prob_mul_of(
                prob_lower_seed(t, i0 - 1),
                t.insertion_from_insertion,
            ));
        }
        i0 = i0 + 1;
    }

    proof {
        assert forall|x: int| 0 <= x <= n implies deep(forward_lower@)[x] =~= fwd_init(
            n as int,
            m as int,
            t,
        ).0[x] && deep(forward_middle@)[x] =~= fwd_init(n as int, m as int, t).1[x] && deep(
            forward_upper@,
        )[x] =~= fwd_init(n as int, m as int, t).2[x] by {}
        assert(deep(forward_lower@) =~~= fwd_init(n as int, m as int, t).0);
        assert(deep(forward_middle@) =~~= fwd_init(n as int, m as int, t).1);
        assert(deep(forward_upper@) =~~= fwd_init(n as int, m as int, t).2);
    }

    let mut i: usize = 1;
    while i <= n
        invariant
            gv == v@,
            gw == w@,
            table == params.homopolymer_probs,
            n == v@.len(),
            m == w@.len(),
            1 <= i <= n + 1,
            n >= 1,
            n < usize::MAX,
            m < usize::MAX,
            n * m <= usize::MAX,
            m + band_width <= usize::MAX,
            band_width == band_width_spec(n as int, m as int, min_band_width as int),
            is_matrix(forward_lower@, n + 1, m + 1),
            is_matrix(forward_middle@, n + 1, m + 1),
            is_matrix(forward_upper@, n + 1, m + 1),
            first_occ_v@.len() == n,
            first_occ_w@.len() == m,
            last_occ_v@.len() == n,
            last_occ_w@.len() == m,
            forall|k: int| 0 <= k < n ==> first_occ_v@[k] as int == run_first(gv, k),
            forall|k: int| 0 <= k < m ==> first_occ_w@[k] as int == run_first(gw, k),
            forall|k: int| 0 <= k < n ==> last_occ_v@[k] as int == run_last(gv, k),
            forall|k: int| 0 <= k < m ==> last_occ_w@[k] as int == run_last(gw, k),
            params.homopolymer_probs.wf(),
            deep(forward_lower@) == fwd_rows(gv, gw, t, e, table, band_width as int, i - 1).0,
            deep(forward_middle@) == fwd_rows(gv, gw, t, e, table, band_width as int, i - 1).1,
            deep(forward_upper@) == fwd_rows(gv, gw, t, e, table, band_width as int, i - 1).2,
        decreases n + 1 - i,
    {
        let ghost s_row = fwd_rows(gv, gw, t, e, table, band_width as int, i - 1);
        proof {
            lemma_fwd_rows_wf(gv, gw, t, e, table, band_width as int, i - 1);
        }
        let (band_start, band_end) = band_bounds(n, m, band_width, i);

        let mut j: usize = band_start;
        while j <= band_end
            invariant
                gv == v@,
                gw == w@,
                table == params.homopolymer_probs,
                n == v@.len(),
                m == w@.len(),
                1 <= i <= n,
                1 <= band_start,
                band_end <= m,
                n < usize::MAX,
                m < usize::MAX,
                band_start <= j,
                j <= band_end + 1 || j == band_start,
                is_matrix(forward_lower@, n + 1, m + 1),
                is_matrix(forward_middle@, n + 1, m + 1),
                is_matrix(forward_upper@, n + 1, m + 1),
                first_occ_v@.len() == n,
                first_occ_w@.len() == m,
                last_occ_v@.len() == n,
                last_occ_w@.len() == m,
                forall|k: int| 0 <= k < n ==> first_occ_v@[k] as int == run_first(gv, k),
                forall|k: int| 0 <= k < m ==> first_occ_w@[k] as int == run_first(gw, k),
                forall|k: int| 0 <= k < n ==> last_occ_v@[k] as int == run_last(gv, k),
                forall|k: int| 0 <= k < m ==> last_occ_w@[k] as int == run_last(gw, k),
                params.homopolymer_probs.wf(),
                pmat_wf(s_row.0, n as int, m as int),
                pmat_wf(s_row.1, n as int, m as int),
                pmat_wf(s_row.2, n as int, m as int),
                deep(forward_lower@) == fwd_cells(
                    gv,
                    gw,
                    t,
                    e,
                    table,
                    i as int,
                    band_start as int,
                    s_row,
                    j as int,
                ).0,
                deep(forward_middle@) == fwd_cells(
                    gv,
                    gw,
                    t,
                    e,
                    table,
                    i as int,
                    band_start as int,
                    s_row,
                    j as int,
                ).1,
                deep(forward_upper@) == fwd_cells(
                    gv,
                    gw,
                    t,
                    e,
                    table,
                    i as int,
                    band_start as int,
                    s_row,
                    j as int,
                ).2,
            decreases band_end + 1 - j,
        {
            let ghost s_cell = fwd_cells(
                gv,
                gw,
                t,
                e,
                table,
                i as int,
                band_start as int,
                s_row,
                j as int,
            );
            proof {
                lemma_fwd_rows_wf(gv, gw, t, e, table, band_width as int, i - 1);
                lemma_fwd_cells_wf(
                    gv,
                    gw,
                    t,
                    e,
                    table,
                    i as int,
                    band_start as int,
                    s_row,
                    j as int,
                    n as int,
                    m as int,
                );
            }
            let vc = v[i - 1];
            let wc = w[j - 1];
            let fv = first_occ_v[i - 1];
            let fw = first_occ_w[j - 1];
            if vc == wc && (fv != i - 1 || fw != j - 1) {
                // Cells matching mid-run are skipped: only the run's
                // terminal cells perform the homopolymer shortcut, reading
                // the perimeter of the homopolymer square.
                if last_occ_v[i - 1] == i - 1 || last_occ_w[j - 1] == j - 1 {
                    proof {
                        lemma_run_first_bounds(gv, i - 1);
                        lemma_run_first_bounds(gw, j - 1);
                    }
                    let hp_base = vc;
                    let indices = homopolymer_perimeter(fv, fw, i, j);
                    let ghost per = hp_perimeter_spec(fv as int, fw as int, i as int, j as int);
                    proof {
                        assert forall|q: int| 0 <= q < per.len() implies 0 <= (
                        #[trigger] per[q]).0 <= i - 1 && 0 <= per[q].1 <= j - 1 by {
                            assert(per[q].0 == indices@[q].0 as int);
                            assert(per[q].1 == indices@[q].1 as int);
                            let cl = i - 1 - fv;
                            if q > cl {
                                assert(per[q] == (fv as int, fw + 1 + (q - cl - 1)));
                            }
                        }
                    }
                    proof {
                        assert(s_cell.1.update(
                            i as int,
                            s_cell.1[i as int].update(
                                j as int,
                                hp_accum(s_cell, table, vc, i as int, j as int, per, 0),
                            ),
                        ) =~~= s_cell.1);
                    }
                    let mut k: usize = 0;
                    while k < indices.len()
                        invariant
                            gv == v@,
                            gw == w@,
                            table == params.homopolymer_probs,
                            n == v@.len(),
                            m == w@.len(),
                            1 <= i <= n,
                            1 <= j <= m,
                            n < usize::MAX,
                            m < usize::MAX,
                            k <= indices@.len(),
                            indices@.len() == per.len(),
                            forall|q: int|
                                0 <= q < per.len() ==> (#[trigger] indices@[q]).0 as int == per[q].0
                                    && indices@[q].1 as int == per[q].1,
                            forall|q: int|
                                0 <= q < per.len() ==> 0 <= (#[trigger] per[q]).0 <= i - 1 && 0
                                    <= per[q].1 <= j - 1,
                            is_matrix(forward_lower@, n + 1, m + 1),
                            is_matrix(forward_middle@, n + 1, m + 1),
                            is_matrix(forward_upper@, n + 1, m + 1),
                            pmat_wf(s_cell.0, n as int, m as int),
                            pmat_wf(s_cell.1, n as int, m as int),
                            pmat_wf(s_cell.2, n as int, m as int),
                            hp_base == vc,
                            params.homopolymer_probs.wf(),
                            deep(forward_lower@) == s_cell.0,
                            deep(forward_upper@) == s_cell.2,
                            deep(forward_middle@) == s_cell.1.update(
                                i as int,
                                s_cell.1[i as int].update(
                                    j as int,
                                    hp_accum(s_cell, table, vc, i as int, j as int, per, k as int),
                                ),
                            ),
                        decreases indices@.len() - k,
                    {
                        let pair = indices[k];
                        let h_i = pair.0;
                        let h_j = pair.1;
                        let hp_len_read = i - h_i;
                        let hp_len_ref = j - h_j;
                        let prob_homopolymer = match params.homopolymer_probs.get(
                            hp_base,
                            hp_len_ref,
                            hp_len_read,
                        ) {
                            Some(prob) => prob,
                            None => prob_zero(),
                        };
                        proof {
                            assert(h_i as int == per[k as int].0 && h_j as int == per[k
                                as int].1);
                            assert(0 <= per[k as int].0 <= i - 1 && 0 <= per[k as int].1 <= j
                                - 1);
                            assert(prob_homopolymer == hp_val(
                                table,
                                vc,
                                j - h_j as int,
                                i - h_i as int,
                            ));
                            assert(deep(forward_lower@)[h_i as int][h_j as int] == s_cell.0[h_i
                                as int][h_j as int]);
                            assert(deep(forward_middle@)[h_i as int][h_j as int] == s_cell.1[h_i
                                as int][h_j as int]);
                            assert(deep(forward_upper@)[h_i as int][h_j as int] == s_cell.2[h_i
                                as int][h_j as int]);
                            assert(deep(forward_middle@)[i as int][j as int] == hp_accum(
                                s_cell,
                                table,
                                vc,
                                i as int,
                                j as int,
                                per,
                                k as int,
                            ));
                        }
                        let boundary = prob_add(
                            prob_add(forward_lower[h_i][h_j], forward_middle[h_i][h_j]),
                            forward_upper[h_i][h_j],
                        );
                        let term = prob_mul(boundary, prob_homopolymer);
                        let ghost dm0 = deep(forward_middle@);
                        let acc = prob_add(forward_middle[i][j], term);
                        forward_middle[i][j] = acc;
                        proof {
                            assert(per[k as int] == (h_i as int, h_j as int));
                            assert(hp_accum(s_cell, table, vc, i as int, j as int, per, k + 1)
                                == prob_add_of(
                                hp_accum(s_cell, table, vc, i as int, j as int, per, k as int),
                                prob_mul_of(
                                    prob_add_of(
                                        prob_add_of(
                                            s_cell.0[h_i as int][h_j as int],
                                            s_cell.1[h_i as int][h_j as int],
                                        ),
                                        s_cell.2[h_i as int][h_j as int],
                                    ),
                                    hp_val(table, vc, j - h_j as int, i - h_i as int),
                                ),
                            ));
                            assert(acc == hp_accum(
                                s_cell,
                                table,
                                vc,
                                i as int,
                                j as int,
                                per,
                                k + 1,
                            ));
                            assert(deep(forward_middle@) =~~= dm0.update(
                                i as int,
                                dm0[i as int].update(j as int, acc),
                            ));
                            assert(dm0.update(i as int, dm0[i as int].update(j as int, acc))
                                =~~= s_cell.1.update(
                                i as int,
                                s_cell.1[i as int].update(
                                    j as int,
                                    hp_accum(s_cell, table, vc, i as int, j as int, per, k + 1),
                                ),
                            ));
                        }
                        k = k + 1;
                    }
                    proof {
                        assert(fwd_cells(
                            gv,
                            gw,
                            t,
                            e,
                            table,
                            i as int,
                            band_start as int,
                            s_row,
                            j + 1 as int,
                        ) == fwd_cell(gv, gw, t, e, table, i as int, j as int, s_cell));
                    }
                } else {
                    proof {
                        assert(fwd_cell(gv, gw, t, e, table, i as int, j as int, s_cell)
                            == s_cell);
                    }
                }
            } else {
                // Not part of an eligible homopolymer boundary: the
                // standard three-state pair-HMM recurrence.
                let lower_continue = prob_mul(forward_lower[i - 1][j], t.insertion_from_insertion);
                let lower_from_middle = prob_mul(forward_middle[i - 1][j], t.insertion_from_match);
                let lc = prob_mul(e.insertion, prob_add(lower_continue, lower_from_middle));
                forward_lower[i][j] = lc;

                let upper_continue = prob_mul(forward_upper[i][j - 1], t.deletion_from_deletion);
                let upper_from_middle = prob_mul(forward_middle[i][j - 1], t.deletion_from_match);
                let uc = prob_mul(e.deletion, prob_add(upper_continue, upper_from_middle));
                forward_upper[i][j] = uc;

                let middle_from_lower = prob_mul(
                    forward_lower[i - 1][j - 1],
                    t.match_from_insertion,
                );
                let middle_continue = prob_mul(forward_middle[i - 1][j - 1], t.match_from_match);
                let middle_from_upper = prob_mul(
                    forward_upper[i - 1][j - 1],
                    t.match_from_deletion,
                );
                let match_emission = if vc == wc {
                    e.equal
                } else {
                    e.not_equal
                };
                let mc = prob_mul(
                    match_emission,
                    prob_add(prob_add(middle_from_lower, middle_continue), middle_from_upper),
                );
                forward_middle[i][j] = mc;
                proof {
                    let c = fwd_cell(gv, gw, t, e, table, i as int, j as int, s_cell);
                    assert(deep(forward_lower@) =~~= c.0);
                    assert(deep(forward_middle@) =~~= c.1);
                    assert(deep(forward_upper@) =~~= c.2);
                }
            }
            j = j + 1;
        }
        proof {
            if band_start > band_end {
                assert(fwd_cells(
                    gv,
                    gw,
                    t,
                    e,
                    table,
                    i as int,
                    band_start as int,
                    s_row,
                    band_end + 1,
                ) == s_row);
            }
            assert(fwd_rows(gv, gw, t, e, table, band_width as int, i as int) == fwd_cells(
                gv,
                gw,
                t,
                e,
                table,
                i as int,
                band_start as int,
                s_row,
                band_end + 1,
            ));
        }
        i = i + 1;
    }

    proof {
        assert(deep(forward_middle@)[n as int] == forward_middle@[n as int]@);
    }
    ln_of_prob(forward_middle[n][m])
}

} // verus!
