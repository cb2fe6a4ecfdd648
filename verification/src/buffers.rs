//! Row and matrix buffers for the banded engines, initialized to the
//! domain's representation of probability zero.

use vstd::prelude::*;
use bio::stats::LogProb;
use bio::stats::Prob;
use crate::probs::lp_ln_zero;
use crate::probs::lp_zero_of;
use crate::probs::prob_zero;
use crate::probs::prob_zero_of;

verus! {

/// A rectangular matrix: `rows` rows, each of `cols` cells.
pub(crate) open spec fn is_matrix(mat: Seq<Vec<Prob>>, rows: int, cols: int) -> bool {
    &&& mat.len() == rows
    &&& forall|x: int| 0 <= x < rows ==> #[trigger] mat[x]@.len() == cols
}

/// A row of `len` log-domain zeros.
pub(crate) fn ln_zero_row(len: usize) -> (r: Vec<LogProb>)
    ensures
        r@.len() == len,
        forall|k: int| 0 <= k < len ==> r@[k] == lp_zero_of(()),
{
    let mut r: Vec<LogProb> = Vec::new();
    let mut k: usize = 0;
    while k < len
        invariant
            k <= len,
            r@.len() == k,
            forall|q: int| 0 <= q < k ==> r@[q] == lp_zero_of(()),
        decreases len - k,
    {
        r.push(lp_ln_zero());
        k = k + 1;
    }
    r
}

/// A `rows` by `cols` matrix of linear-domain zeros.
pub(crate) fn prob_matrix(rows: usize, cols: usize) -> (r: Vec<Vec<Prob>>)
    ensures
        is_matrix(r@, rows as int, cols as int),
        forall|x: int, y: int|
            0 <= x < rows && 0 <= y < cols ==> #[trigger] r@[x]@[y] == prob_zero_of(()),
{
    let mut r: Vec<Vec<Prob>> = Vec::new();
    let mut x: usize = 0;
    while x < rows
        invariant
            x <= rows,
            r@.len() == x,
            forall|y: int| 0 <= y < x ==> #[trigger] r@[y]@.len() == cols,
            forall|y: int, z: int|
                0 <= y < x && 0 <= z < cols ==> #[trigger] r@[y]@[z] == prob_zero_of(()),
        decreases rows - x,
    {
        let mut row: Vec<Prob> = Vec::new();
        let mut k: usize = 0;
        while k < cols
            invariant
                k <= cols,
                row@.len() == k,
                forall|z: int| 0 <= z < k ==> row@[z] == prob_zero_of(()),
            decreases cols - k,
        {
            row.push(prob_zero());
            k = k + 1;
        }
        r.push(row);
        x = x + 1;
    }
    r
}

} // verus!
