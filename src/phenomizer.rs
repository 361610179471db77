//! Symmetric best-match-average ("phenomizer") similarity between two term sets.
//!
//! Scores are fixed-point values (`u32`): the pairwise similarities between the
//! terms of a query set and of a target set are handed in as a matrix whose rows
//! are the query terms and whose columns are the target terms.
use vstd::prelude::*;

verus! {

/// Largest element of `s`, or 0 for an empty sequence.
pub open spec fn max_of(s: Seq<u32>) -> nat
    decreases s.len(),
{
    if s.len() == 0 {
        0
    } else {
        let m = max_of(s.drop_last());
        if s.last() as nat > m {
            s.last() as nat
        } else {
            m
        }
    }
}

/// Sum of a sequence of naturals.
pub open spec fn sum_of(s: Seq<nat>) -> nat
    decreases s.len(),
{
    if s.len() == 0 {
        0
    } else {
        sum_of(s.drop_last()) + s.last()
    }
}

/// Column `j` of the matrix `m`.
pub open spec fn column(m: Seq<Seq<u32>>, j: int) -> Seq<u32> {
    Seq::new(m.len(), |i: int| m[i][j])
}

/// The transpose of `m`, which has `cols` columns.
pub open spec fn transpose(m: Seq<Seq<u32>>, cols: nat) -> Seq<Seq<u32>> {
    Seq::new(cols, |j: int| column(m, j))
}

/// Every row of `m` has `cols` entries.
pub open spec fn is_rectangular(m: Seq<Seq<u32>>, cols: nat) -> bool {
    forall|i: int| 0 <= i < m.len() ==> #[trigger] m[i].len() == cols
}

/// Best similarity of each row.
pub open spec fn row_maxes(m: Seq<Seq<u32>>) -> Seq<nat> {
    Seq::new(m.len(), |i: int| max_of(m[i]))
}

/// Directed score from the row terms to the column terms: the mean over the rows
/// of the best similarity in that row (rounded down), 0 when there are no rows.
pub open spec fn directed_spec(m: Seq<Seq<u32>>) -> nat {
    if m.len() == 0 {
        0
    } else {
        sum_of(row_maxes(m)) / m.len()
    }
}

/// Symmetric score: the mean (rounded down) of the directed scores in both directions.
pub open spec fn phenomizer_spec(m: Seq<Seq<u32>>, cols: nat) -> nat {
    (directed_spec(m) + directed_spec(transpose(m, cols))) / 2
}

/// Pairwise similarities between a query term set (rows) and a target term set
/// (columns), in fixed-point units.
#[derive(Debug, Clone)]
pub struct SimilarityMatrix {
    /// Number of target terms.
    pub cols: usize,
    /// One row per query term, each with one entry per target term.
    pub rows: Vec<Vec<u32>>,
}

impl SimilarityMatrix {
    /// The rows as mathematical sequences.
    pub open spec fn cells(&self) -> Seq<Seq<u32>> {
        self.rows@.map_values(|r: Vec<u32>| r@)
    }

    /// Every row has `cols` entries.
    pub open spec fn wf(&self) -> bool {
        is_rectangular(self.cells(), self.cols as nat)
    }

    /// The matrix with the roles of query and target swapped.
    pub fn transposed(&self) -> (r: SimilarityMatrix)
        requires
            self.wf(),
        ensures
            r.wf(),
            r.cols == self.rows@.len(),
            r.cells() == transpose(self.cells(), self.cols as nat),
    {
        let ghost m = self.cells();
        let mut out: Vec<Vec<u32>> = Vec::new();
        let mut j: usize = 0;
        while j < self.cols
            invariant
                self.wf(),
                m == self.cells(),
                j <= self.cols,
                out@.len() == j,
                forall|k: int| 0 <= k < j ==> (#[trigger] out@[k])@ == column(m, k),
            decreases self.cols - j,
        {
            let mut col: Vec<u32> = Vec::new();
            let mut i: usize = 0;
            while i < self.rows.len()
                invariant
                    self.wf(),
                    m == self.cells(),
                    j < self.cols,
                    i <= self.rows@.len(),
                    col@ == column(m, j as int).subrange(0, i as int),
                decreases self.rows@.len() - i,
            {
                assert(m[i as int] == self.rows@[i as int]@);
                col.push(self.rows[i][j]);
                assert(col@ =~= column(m, j as int).subrange(0, i as int + 1));
                i += 1;
            }
            assert(col@ =~= column(m, j as int));
            out.push(col);
            j += 1;
        }
        let r = SimilarityMatrix { cols: self.rows.len(), rows: out };
        assert(r.cells() =~= transpose(m, self.cols as nat));
        r
    }
}

/// The maximum of a sequence of `u32` fits in a `u32`.
pub proof fn lemma_max_of_bounded(s: Seq<u32>)
    ensures
        max_of(s) <= u32::MAX,
    decreases s.len(),
{
    if s.len() > 0 {
        lemma_max_of_bounded(s.drop_last());
    }
}

/// A sum of zeros is zero.
proof fn lemma_sum_of_zeros(s: Seq<nat>)
    requires
        forall|i: int| 0 <= i < s.len() ==> s[i] == 0,
    ensures
        sum_of(s) == 0,
    decreases s.len(),
{
    if s.len() > 0 {
        lemma_sum_of_zeros(s.drop_last());
    }
}

/// Largest value of a row of similarities (0 when the row is empty).
pub fn row_max(row: &Vec<u32>) -> (r: u32)
    ensures
        r as nat == max_of(row@),
{
    let mut best: u32 = 0;
    let mut j: usize = 0;
    while j < row.len()
        invariant
            j <= row@.len(),
            best as nat == max_of(row@.subrange(0, j as int)),
        decreases row@.len() - j,
    {
        assert(row@.subrange(0, j as int + 1).drop_last() =~= row@.subrange(0, j as int));
        if row[j] > best {
            best = row[j];
        }
        j += 1;
    }
    assert(row@.subrange(0, row@.len() as int) =~= row@);
    best
}

/// Directed score from the query terms (rows) to the target terms (columns): the
/// mean of each query term's best similarity, 0 for an empty query.
pub fn score_dir(m: &SimilarityMatrix) -> (r: u32)
    requires
        m.wf(),
        m.rows@.len() <= u16::MAX,
    ensures
        r as nat == directed_spec(m.cells()),
{
    let ghost cells = m.cells();
    let n = m.rows.len();
    if n == 0 {
        return 0;
    }
    let mut total: u64 = 0;
    let mut i: usize = 0;
    while i < n
        invariant
            n == m.rows@.len(),
            cells == m.cells(),
            n <= u16::MAX,
            i <= n,
            total as nat == sum_of(row_maxes(cells).subrange(0, i as int)),
            total <= i * 0xffff_ffff,
        decreases n - i,
    {
        let best = row_max(&m.rows[i]);
        assert(row_maxes(cells).subrange(0, i as int + 1).drop_last() =~= row_maxes(
            cells,
        ).subrange(0, i as int));
        total = total + best as u64;
        i += 1;
    }
    assert(row_maxes(cells).subrange(0, n as int) =~= row_maxes(cells));
    let mean = total / (n as u64);
    assert(mean <= 0xffff_ffff) by (nonlinear_arith)
        requires
            mean == total / (n as u64),
            total <= n * 0xffff_ffff,
            n > 0,
    ;
    mean as u32
}

/// Symmetric phenomizer score: the mean of the directed scores from query to
/// target and from target to query. An empty query or target contributes 0 for
/// its direction.
pub fn score(m: &SimilarityMatrix) -> (r: u32)
    requires
        m.wf(),
        m.rows@.len() <= u16::MAX,
        m.cols <= u16::MAX,
    ensures
        r as nat == phenomizer_spec(m.cells(), m.cols as nat),
{
    let t = m.transposed();
    assert(t.cells().len() == t.rows@.len());
    let forward = score_dir(m);
    let backward = score_dir(&t);
    ((forward as u64 + backward as u64) / 2) as u32
}

/// Transposing twice gives the matrix back.
proof fn lemma_transpose_twice(m: Seq<Seq<u32>>, cols: nat)
    requires
        is_rectangular(m, cols),
    ensures
        transpose(transpose(m, cols), m.len()) =~= m,
{
    let t2 = transpose(transpose(m, cols), m.len());
    assert forall|i: int| 0 <= i < m.len() implies t2[i] =~= m[i] by {
        assert(m[i].len() == cols);
    }
}

/// The phenomizer score does not depend on which set is the query: scoring with
/// the roles swapped (the transposed matrix) gives the same value.
pub proof fn lemma_score_symmetric(m: Seq<Seq<u32>>, cols: nat)
    requires
        is_rectangular(m, cols),
    ensures
        phenomizer_spec(transpose(m, cols), m.len()) == phenomizer_spec(m, cols),
{
    lemma_transpose_twice(m, cols);
}

/// An empty query or an empty target scores 0.
pub proof fn lemma_empty_scores_zero(m: Seq<Seq<u32>>, cols: nat)
    requires
        is_rectangular(m, cols),
        m.len() == 0 || cols == 0,
    ensures
        phenomizer_spec(m, cols) == 0,
{
    let t = transpose(m, cols);
    if m.len() == 0 {
        assert forall|j: int| 0 <= j < t.len() implies row_maxes(t)[j] == 0 by {
            assert(t[j].len() == 0);
        }
        lemma_sum_of_zeros(row_maxes(t));
    } else {
        assert forall|i: int| 0 <= i < m.len() implies row_maxes(m)[i] == 0 by {
            assert(m[i].len() == 0);
        }
        lemma_sum_of_zeros(row_maxes(m));
    }
}

} // verus!
