//! Run-index vectors: for every position of a sequence, the first and the
//! last index of the maximal run of equal consecutive symbols containing it.

use vstd::prelude::*;

verus! {

/// The first index of the maximal run of equal symbols that contains
/// position `i` of `s`.
pub open spec fn run_first(s: Seq<char>, i: int) -> int
    decreases i,
{
    if i <= 0 {
        0
    } else if s[i] == s[i - 1] {
        run_first(s, i - 1)
    } else {
        i
    }
}

/// The last index of the maximal run of equal symbols that contains
/// position `i` of `s`.
pub open spec fn run_last(s: Seq<char>, i: int) -> int
    decreases s.len() - i,
{
    if i < 0 || i + 1 >= s.len() {
        i
    } else if s[i] == s[i + 1] {
        run_last(s, i + 1)
    } else {
        i
    }
}

/// A run's first index lies at or before the position itself, and holds the
/// same symbol.
pub proof fn lemma_run_first_bounds(s: Seq<char>, i: int)
    requires
        0 <= i < s.len(),
    ensures
        0 <= run_first(s, i) <= i,
        s[run_first(s, i)] == s[i],
    decreases i,
{
    if i > 0 && s[i] == s[i - 1] {
        lemma_run_first_bounds(s, i - 1);
    }
}

/// A run's last index lies at or after the position itself and before the
/// sequence's end, and holds the same symbol.
pub proof fn lemma_run_last_bounds(s: Seq<char>, i: int)
    requires
        0 <= i < s.len(),
    ensures
        i <= run_last(s, i) < s.len(),
        s[run_last(s, i)] == s[i],
    decreases s.len() - i,
{
    if i + 1 < s.len() && s[i] == s[i + 1] {
        lemma_run_last_bounds(s, i + 1);
    }
}

/// The run starting at `run_first` is a run and is maximal: every symbol
/// from its first index up to the position equals the position's symbol,
/// and the symbol just before the run, if any, differs.
pub proof fn lemma_run_first_maximal(s: Seq<char>, i: int)
    requires
        0 <= i < s.len(),
    ensures
        forall|k: int| run_first(s, i) <= k <= i ==> s[k] == s[i],
        run_first(s, i) > 0 ==> s[run_first(s, i) - 1] != s[run_first(s, i)],
    decreases i,
{
    if i > 0 && s[i] == s[i - 1] {
        lemma_run_first_maximal(s, i - 1);
    }
}

/// The run ending at `run_last` is a run and is maximal: every symbol from
/// the position up to its last index equals the position's symbol, and the
/// symbol just after the run, if any, differs.
pub proof fn lemma_run_last_maximal(s: Seq<char>, i: int)
    requires
        0 <= i < s.len(),
    ensures
        forall|k: int| i <= k <= run_last(s, i) ==> s[k] == s[i],
        run_last(s, i) + 1 < s.len() ==> s[run_last(s, i) + 1] != s[run_last(s, i)],
    decreases s.len() - i,
{
    if i + 1 < s.len() && s[i] == s[i + 1] {
        lemma_run_last_maximal(s, i + 1);
    }
}

/// For each position of `seq`, the first index of the maximal run of equal
/// consecutive symbols containing that position.
///
/// Example: `A T C C C C T` gives `0 1 2 2 2 2 6`.
pub fn first_occ_vector(seq: &Vec<char>) -> (occ: Vec<usize>)
    ensures
        occ@.len() == seq@.len(),
        forall|i: int| 0 <= i < seq@.len() ==> occ@[i] as int == run_first(seq@, i),
{
    let mut occ: Vec<usize> = Vec::new();
    let mut prev_occ: usize = 0;
    let mut i: usize = 0;
    while i < seq.len()
        invariant
            i <= seq@.len(),
            occ@.len() == i,
            forall|k: int| 0 <= k < i ==> occ@[k] as int == run_first(seq@, k),
            i > 0 ==> prev_occ as int == run_first(seq@, i - 1),
        decreases seq@.len() - i,
    {
        if i > 0 && seq[i] == seq[i - 1] {
            occ.push(prev_occ);
        } else {
            occ.push(i);
            prev_occ = i;
        }
        i = i + 1;
    }
    occ
}

/// For each position of `seq`, the last index of the maximal run of equal
/// consecutive symbols containing that position.
///
/// Example: `A T C C C C T` gives `0 1 5 5 5 5 6`.
pub fn last_occ_vector(seq: &Vec<char>) -> (occ: Vec<usize>)
    ensures
        occ@.len() == seq@.len(),
        forall|i: int| 0 <= i < seq@.len() ==> occ@[i] as int == run_last(seq@, i),
{
    let n = seq.len();
    // Backward pass: rev[k] is the run's last index for position n - 1 - k.
    let mut rev: Vec<usize> = Vec::new();
    let mut prev_occ: usize = 0;
    let mut i: usize = n;
    while i > 0
        invariant
            n == seq@.len(),
            i <= n,
            rev@.len() == n - i,
            forall|k: int| 0 <= k < n - i ==> rev@[k] as int == run_last(seq@, n - 1 - k),
            i < n ==> prev_occ as int == run_last(seq@, i as int),
        decreases i,
    {
        let idx = i - 1;
        if idx + 1 < n && seq[idx] == seq[idx + 1] {
            rev.push(prev_occ);
        } else {
            rev.push(idx);
            prev_occ = idx;
        }
        i = idx;
    }
    let mut occ: Vec<usize> = Vec::new();
    let mut t: usize = 0;
    while t < n
        invariant
            n == seq@.len(),
            t <= n,
            rev@.len() == n,
            occ@.len() == t,
            forall|k: int| 0 <= k < n ==> rev@[k] as int == run_last(seq@, n - 1 - k),
            forall|k: int| 0 <= k < t ==> occ@[k] as int == run_last(seq@, k),
        decreases n - t,
    {
        occ.push(rev[n - 1 - t]);
        t = t + 1;
    }
    occ
}

} // verus!
