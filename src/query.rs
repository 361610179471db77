//! Calibration of live scores against stored null distributions, and ranking of
//! genes with a per-term explanation.
use vstd::prelude::*;

use crate::error::Error;
use crate::phenomizer::{column, max_of, phenomizer_spec, score, SimilarityMatrix};
use crate::ranking::{
    descending_order, frac_gt, is_descending_order, lemma_order_covers, precedes, Fraction,
};
use crate::store::{distribution_key, key_spec, NullDistribution};

verus! {

/// Largest query size that has its own simulated distribution by default.
pub const DEFAULT_MAX_TERMS: usize = 10;

/// Number of entries of `s` strictly below `x`.
pub open spec fn count_less(s: Seq<u32>, x: u32) -> nat
    decreases s.len(),
{
    if s.len() == 0 {
        0
    } else {
        count_less(s.drop_last(), x) + if s.last() < x {
            1nat
        } else {
            0nat
        }
    }
}

/// Number of entries of `s` at most `x`.
pub open spec fn count_at_most(s: Seq<u32>, x: u32) -> nat
    decreases s.len(),
{
    if s.len() == 0 {
        0
    } else {
        count_at_most(s.drop_last(), x) + if s.last() <= x {
            1nat
        } else {
            0nat
        }
    }
}

/// Tie-aware rank of `x` among the samples `s`: the midpoint of the two partition
/// points, at most `s.len() - 1`.
pub open spec fn rank_spec(s: Seq<u32>, x: u32) -> nat {
    let mid = (count_less(s, x) + count_at_most(s, x)) / 2;
    if mid < s.len() {
        mid
    } else {
        (s.len() - 1) as nat
    }
}

/// The p-value of `x` against the samples `s`: `1 - rank / len`, as a fraction.
pub open spec fn p_value_spec(s: Seq<u32>, x: u32) -> Fraction {
    Fraction { num: (s.len() - rank_spec(s, x)) as u64, den: s.len() as u64 }
}

/// Query size under which a distribution is looked up: the query size, capped.
pub open spec fn capped_spec(query_len: nat, cap: nat) -> nat {
    if query_len < cap {
        query_len
    } else {
        cap
    }
}

/// Position of the first largest entry of `s` (0 for an empty sequence).
pub open spec fn first_max_index(s: Seq<u32>) -> nat
    decreases s.len(),
{
    if s.len() == 0 {
        0
    } else if s.last() as nat > max_of(s.drop_last()) {
        (s.len() - 1) as nat
    } else {
        first_max_index(s.drop_last())
    }
}

/// How well a gene term is matched by the query.
#[derive(Debug, Clone, Copy, PartialEq, Eq, Structural)]
pub struct TermMatch {
    /// Position of the gene term (a column of the similarity matrix).
    pub gene_term: usize,
    /// Position of the best matching query term (a row), `None` when the best
    /// similarity is 0.
    pub query_term: Option<usize>,
    /// The best similarity.
    pub score: u32,
}

/// The explanation entry of gene term `j` of `m`.
pub open spec fn term_match_spec(m: Seq<Seq<u32>>, j: int) -> TermMatch {
    let best = max_of(column(m, j));
    TermMatch {
        gene_term: j as usize,
        query_term: if best > 0 {
            Some(first_max_index(column(m, j)) as usize)
        } else {
            None
        },
        score: best as u32,
    }
}

/// Ordering keys of the explanation entries: the best similarity of each column.
pub open spec fn match_keys(m: Seq<Seq<u32>>, cols: nat) -> Seq<Fraction> {
    Seq::new(cols, |j: int| Fraction { num: max_of(column(m, j)) as u64, den: 1 })
}

/// `terms` explains `m`: one entry per gene term, by descending score, ties in
/// the order of the gene terms.
pub open spec fn is_explanation(m: Seq<Seq<u32>>, cols: nat, terms: Seq<TermMatch>) -> bool {
    &&& is_descending_order(match_keys(m, cols), terms.map_values(|t: TermMatch| t.gene_term))
    &&& forall|k: int|
        0 <= k < terms.len() ==> #[trigger] terms[k] == term_match_spec(
            m,
            terms[k].gene_term as int,
        )
}

/// Position of a sample array's partition points and the resulting rank.
#[derive(Debug, Clone, Copy, PartialEq, Eq, Structural)]
pub struct Rank {
    /// Number of samples strictly below the live score.
    pub lower: usize,
    /// Number of samples at most the live score.
    pub upper: usize,
    /// Midpoint of the two, at most `len - 1`.
    pub rank: usize,
    /// Number of samples.
    pub len: usize,
}

impl Rank {
    /// The p-value `1 - rank / len` as a fraction.
    pub fn p_value(&self) -> (r: Fraction)
        requires
            self.rank < self.len,
        ensures
            r == (Fraction { num: (self.len - self.rank) as u64, den: self.len as u64 }),
    {
        Fraction { num: (self.len - self.rank) as u64, den: self.len as u64 }
    }
}

/// The query size under which a distribution is looked up: `min(query_len, cap)`.
pub fn capped_term_count(query_len: usize, cap: usize) -> (r: usize)
    ensures
        r as nat == capped_spec(query_len as nat, cap as nat),
{
    if query_len < cap {
        query_len
    } else {
        cap
    }
}

/// Store key of the distribution that a query of `query_len` terms against gene
/// `gene_id` is calibrated with; query sizes above `cap` use the one for `cap`.
pub fn lookup_key(gene_id: u32, query_len: usize, cap: u32) -> (r: Vec<u8>)
    ensures
        r@ == key_spec(gene_id as nat, capped_spec(query_len as nat, cap as nat)),
{
    let k = capped_term_count(query_len, cap as usize);
    distribution_key(gene_id, k as u32)
}

/// Partition points of `live` in `samples` and its tie-aware rank.
pub fn rank_of(samples: &Vec<u32>, live: u32) -> (r: Rank)
    requires
        samples@.len() > 0,
    ensures
        r.lower == count_less(samples@, live),
        r.upper == count_at_most(samples@, live),
        r.rank == rank_spec(samples@, live),
        r.len == samples@.len(),
{
    let ghost s = samples@;
    let mut lower: usize = 0;
    let mut upper: usize = 0;
    let mut i: usize = 0;
    while i < samples.len()
        invariant
            s == samples@,
            i <= s.len(),
            lower == count_less(s.subrange(0, i as int), live),
            upper == count_at_most(s.subrange(0, i as int), live),
            lower <= upper <= i,
        decreases s.len() - i,
    {
        assert(s.subrange(0, i as int + 1).drop_last() =~= s.subrange(0, i as int));
        if samples[i] < live {
            lower += 1;
        }
        if samples[i] <= live {
            upper += 1;
        }
        i += 1;
    }
    assert(s.subrange(0, s.len() as int) =~= s);
    let mid = lower + (upper - lower) / 2;
    let rank = if mid < samples.len() {
        mid
    } else {
        samples.len() - 1
    };
    Rank { lower, upper, rank, len: samples.len() }
}

/// Entries below `x` are no more than entries below a larger `y`; the same for
/// entries at most `x`.
proof fn lemma_counts_monotone(s: Seq<u32>, x: u32, y: u32)
    requires
        x < y,
    ensures
        count_less(s, x) <= count_less(s, y),
        count_at_most(s, x) <= count_at_most(s, y),
    decreases s.len(),
{
    if s.len() > 0 {
        lemma_counts_monotone(s.drop_last(), x, y);
    }
}

/// A higher live score never gets a higher p-value against the same distribution.
pub proof fn lemma_p_value_monotone(s: Seq<u32>, x: u32, y: u32)
    requires
        0 < s.len() <= usize::MAX,
        x < y,
    ensures
        p_value_spec(s, y).den == p_value_spec(s, x).den,
        p_value_spec(s, y).num <= p_value_spec(s, x).num,
{
    lemma_counts_monotone(s, x, y);
    assert(rank_spec(s, x) <= rank_spec(s, y));
    assert(rank_spec(s, y) < s.len());
}

/// The best query term for gene term `j`: the first row with the largest
/// similarity, or none when that similarity is 0.
pub fn best_match(m: &SimilarityMatrix, j: usize) -> (r: TermMatch)
    requires
        m.wf(),
        j < m.cols,
    ensures
        r == term_match_spec(m.cells(), j as int),
{
    let ghost cells = m.cells();
    let ghost col = column(cells, j as int);
    let mut best: u32 = 0;
    let mut at: usize = 0;
    let mut i: usize = 0;
    while i < m.rows.len()
        invariant
            m.wf(),
            cells == m.cells(),
            j < m.cols,
            col == column(cells, j as int),
            i <= m.rows@.len(),
            best as nat == max_of(col.subrange(0, i as int)),
            at as nat == first_max_index(col.subrange(0, i as int)),
        decreases m.rows@.len() - i,
    {
        assert(col.subrange(0, i as int + 1).drop_last() =~= col.subrange(0, i as int));
        assert(cells[i as int] == m.rows@[i as int]@);
        let x = m.rows[i][j];
        if x > best {
            best = x;
            at = i;
        }
        i += 1;
    }
    assert(col.subrange(0, m.rows@.len() as int) =~= col);
    let query_term = if best > 0 {
        Some(at)
    } else {
        None
    };
    TermMatch { gene_term: j, query_term, score: best }
}

/// For each gene term (column), the best matching query term (row), sorted by
/// descending similarity; equal similarities keep the order of the gene terms.
pub fn explain(m: &SimilarityMatrix) -> (r: Vec<TermMatch>)
    requires
        m.wf(),
    ensures
        is_explanation(m.cells(), m.cols as nat, r@),
{
    let ghost cells = m.cells();
    let mut matches: Vec<TermMatch> = Vec::new();
    let mut keys: Vec<Fraction> = Vec::new();
    let mut j: usize = 0;
    while j < m.cols
        invariant
            m.wf(),
            cells == m.cells(),
            j <= m.cols,
            matches@.len() == j,
            keys@ == match_keys(cells, m.cols as nat).subrange(0, j as int),
            forall|q: int| 0 <= q < j ==> #[trigger] matches@[q] == term_match_spec(cells, q),
        decreases m.cols - j,
    {
        let t = best_match(m, j);
        proof {
            crate::phenomizer::lemma_max_of_bounded(column(cells, j as int));
        }
        matches.push(t);
        keys.push(Fraction { num: t.score as u64, den: 1 });
        assert(keys@ =~= match_keys(cells, m.cols as nat).subrange(0, j as int + 1));
        j += 1;
    }
    assert(keys@ =~= match_keys(cells, m.cols as nat));
    let order = descending_order(&keys);
    let mut out: Vec<TermMatch> = Vec::new();
    let mut k: usize = 0;
    while k < order.len()
        invariant
            cells == m.cells(),
            matches@.len() == m.cols,
            forall|q: int| 0 <= q < m.cols ==> #[trigger] matches@[q] == term_match_spec(cells, q),
            is_descending_order(match_keys(cells, m.cols as nat), order@),
            k <= order@.len(),
            out@.len() == k,
            forall|q: int| 0 <= q < k ==> #[trigger] out@[q] == matches@[order@[q] as int],
        decreases order@.len() - k,
    {
        out.push(matches[order[k]]);
        k += 1;
    }
    assert(out@.map_values(|t: TermMatch| t.gene_term) =~= order@);
    out
}

/// The calibrated score of one gene.
#[derive(Debug, Clone)]
pub struct GeneScore {
    /// Position of the gene among the candidates.
    pub candidate: usize,
    /// NCBI gene ID.
    pub gene_id: u32,
    /// Live phenomizer score of the query against the gene.
    pub live: u32,
    /// Rank of the live score in the gene's null distribution.
    pub rank: Rank,
    /// The p-value `1 - rank / len`.
    pub p_value: Fraction,
    /// Per-term explanation, by descending similarity.
    pub terms: Vec<TermMatch>,
}

/// What the evaluation of a gene with similarities `m` and samples `s` holds.
pub open spec fn is_gene_score(
    g: GeneScore,
    candidate: nat,
    gene_id: u32,
    m: Seq<Seq<u32>>,
    cols: nat,
    s: Seq<u32>,
) -> bool {
    let live = phenomizer_spec(m, cols);
    &&& g.candidate == candidate
    &&& g.gene_id == gene_id
    &&& g.live as nat == live
    &&& g.rank.lower == count_less(s, g.live)
    &&& g.rank.upper == count_at_most(s, g.live)
    &&& g.rank.rank == rank_spec(s, g.live)
    &&& g.rank.len == s.len()
    &&& g.p_value == p_value_spec(s, g.live)
    &&& is_explanation(m, cols, g.terms@)
}

/// Score a query against one gene (the rows of `m` are the query terms, its
/// columns the gene's terms) and calibrate the score with the gene's null
/// distribution.
pub fn evaluate_gene(candidate: usize, gene_id: u32, m: &SimilarityMatrix, dist: &NullDistribution) -> (r:
    GeneScore)
    requires
        m.wf(),
        m.rows@.len() <= u16::MAX,
        m.cols <= u16::MAX,
        dist.wf(),
    ensures
        is_gene_score(r, candidate as nat, gene_id, m.cells(), m.cols as nat, dist.samples@),
{
    let live = score(m);
    let rank = rank_of(&dist.samples, live);
    let p_value = rank.p_value();
    let terms = explain(m);
    GeneScore { candidate, gene_id, live, rank, p_value, terms }
}

/// A gene to score: its similarities to the query and the distribution found
/// under its lookup key, if any.
#[derive(Debug, Clone)]
pub struct Candidate {
    /// NCBI gene ID.
    pub gene_id: u32,
    /// Similarities between the query terms (rows) and the gene's terms (columns).
    pub similarities: SimilarityMatrix,
    /// The stored null distribution, `None` when the store has none.
    pub distribution: Option<NullDistribution>,
}

/// The candidate can be calibrated: its distribution is present, well formed, and
/// belongs to the gene and to the capped query size.
pub open spec fn is_calibrated(c: Candidate, cap: nat) -> bool {
    &&& c.distribution is Some
    &&& c.distribution->0.wf()
    &&& c.distribution->0.gene_id == c.gene_id
    &&& c.distribution->0.term_count as nat == capped_spec(c.similarities.rows@.len(), cap)
}

/// Whether candidate `c` can be calibrated (see `is_calibrated`).
fn calibrated(c: &Candidate, cap: usize) -> (r: bool)
    ensures
        r == is_calibrated(*c, cap as nat),
{
    match &c.distribution {
        None => false,
        Some(d) => {
            let k = capped_term_count(c.similarities.rows.len(), cap);
            d.samples.len() >= 2 && crate::store::sorted_ascending(&d.samples) && d.gene_id
                == c.gene_id && d.term_count as usize == k
        },
    }
}

/// Whether candidate `c` can be calibrated; `CalibrationMissing` when the store
/// has no matching distribution for it.
pub fn check_calibration(c: &Candidate, cap: usize) -> (r: Result<(), Error>)
    ensures
        r is Ok <==> is_calibrated(*c, cap as nat),
        r is Err ==> r == Err::<(), Error>(Error::CalibrationMissing),
{
    if calibrated(c, cap) {
        Ok(())
    } else {
        Err(Error::CalibrationMissing)
    }
}

/// Significance ordering key of a p-value: `1 / p`.
pub open spec fn significance_key(p: Fraction) -> Fraction {
    Fraction { num: p.den, den: p.num }
}

/// `a` comes before `b` in the result: more significant, or as significant and
/// an earlier candidate.
pub open spec fn ranks_before(a: GeneScore, b: GeneScore) -> bool {
    let (ka, kb) = (significance_key(a.p_value), significance_key(b.p_value));
    frac_gt(ka, kb) || (!frac_gt(kb, ka) && a.candidate < b.candidate)
}

/// `g` is the evaluation of candidate `g.candidate`, which can be calibrated.
pub open spec fn is_candidate_score(candidates: Seq<Candidate>, cap: nat, g: GeneScore) -> bool {
    let c = candidates[g.candidate as int];
    &&& g.candidate < candidates.len()
    &&& is_calibrated(c, cap)
    &&& is_gene_score(
        g,
        g.candidate as nat,
        c.gene_id,
        c.similarities.cells(),
        c.similarities.cols as nat,
        c.distribution->0.samples@,
    )
}

/// Every candidate can be handed to `evaluate_gene`.
pub open spec fn candidates_in_bounds(candidates: Seq<Candidate>) -> bool {
    forall|i: int|
        0 <= i < candidates.len() ==> {
            let c = #[trigger] candidates[i];
            &&& c.similarities.wf()
            &&& c.similarities.rows@.len() <= u16::MAX
            &&& c.similarities.cols <= u16::MAX
        }
}

/// Score and calibrate each candidate that can be calibrated, omit the others,
/// and order the results by descending significance (ascending p-value), equal
/// ones in candidate order.
pub fn evaluate(candidates: &Vec<Candidate>, cap: usize) -> (r: Vec<GeneScore>)
    requires
        candidates_in_bounds(candidates@),
    ensures
        forall|k: int| 0 <= k < r@.len() ==> is_candidate_score(candidates@, cap as nat, #[trigger] r@[k]),
        forall|i: int|
            0 <= i < candidates@.len() && is_calibrated(#[trigger] candidates@[i], cap as nat)
                ==> exists|k: int| 0 <= k < r@.len() && r@[k].candidate == i,
        forall|i: int, j: int| 0 <= i < j < r@.len() ==> ranks_before(r@[i], r@[j]),
{
    // First pass: the p-value of each candidate that can be calibrated.
    let mut positions: Vec<usize> = Vec::new();
    let mut keys: Vec<Fraction> = Vec::new();
    let mut i: usize = 0;
    while i < candidates.len()
        invariant
            candidates_in_bounds(candidates@),
            i <= candidates@.len(),
            keys@.len() == positions@.len(),
            forall|k: int|
                0 <= k < positions@.len() ==> {
                    let q = #[trigger] positions@[k];
                    let c = candidates@[q as int];
                    &&& q < i
                    &&& is_calibrated(c, cap as nat)
                    &&& keys@[k] == significance_key(
                        p_value_spec(
                            c.distribution->0.samples@,
                            phenomizer_spec(c.similarities.cells(), c.similarities.cols as nat)
                                as u32,
                        ),
                    )
                    &&& keys@[k].den > 0
                },
            forall|k1: int, k2: int|
                0 <= k1 < k2 < positions@.len() ==> positions@[k1] < positions@[k2],
            forall|q: int|
                0 <= q < i && is_calibrated(#[trigger] candidates@[q], cap as nat) ==> positions@.contains(
                    q as usize,
                ),
        decreases candidates@.len() - i,
    {
        let c = &candidates[i];
        if calibrated(c, cap) {
            if let Some(d) = &c.distribution {
                let live = score(&c.similarities);
                let rank = rank_of(&d.samples, live);
                let p = rank.p_value();
                let ghost before = positions@;
                keys.push(Fraction { num: p.den, den: p.num });
                positions.push(i);
                assert(positions@[positions@.len() - 1] == i);
                assert forall|q: int|
                    0 <= q < i && is_calibrated(#[trigger] candidates@[q], cap as nat)
                        implies positions@.contains(q as usize) by {
                    let w = choose|w: int| 0 <= w < before.len() && before[w] == q as usize;
                    assert(positions@[w] == q as usize);
                }
            }
        }
        i += 1;
    }
    assert forall|t: int| 0 <= t < keys@.len() implies #[trigger] keys@[t].den > 0 by {
        assert(positions@[t] < candidates@.len());
    }
    let order = descending_order(&keys);
    proof {
        lemma_order_covers(keys@, order@);
    }
    // Second pass: evaluate the candidates in that order.
    let mut out: Vec<GeneScore> = Vec::new();
    let mut k: usize = 0;
    while k < order.len()
        invariant
            candidates_in_bounds(candidates@),
            is_descending_order(keys@, order@),
            keys@.len() == positions@.len(),
            forall|t: int|
                0 <= t < positions@.len() ==> {
                    let q = #[trigger] positions@[t];
                    let c = candidates@[q as int];
                    &&& q < candidates@.len()
                    &&& is_calibrated(c, cap as nat)
                    &&& keys@[t] == significance_key(
                        p_value_spec(
                            c.distribution->0.samples@,
                            phenomizer_spec(c.similarities.cells(), c.similarities.cols as nat)
                                as u32,
                        ),
                    )
                },
            forall|k1: int, k2: int|
                0 <= k1 < k2 < positions@.len() ==> positions@[k1] < positions@[k2],
            k <= order@.len(),
            out@.len() == k,
            forall|t: int|
                0 <= t < k ==> {
                    let g = #[trigger] out@[t];
                    &&& g.candidate == positions@[order@[t] as int]
                    &&& is_candidate_score(candidates@, cap as nat, g)
                    &&& significance_key(g.p_value) == keys@[order@[t] as int]
                },
        decreases order@.len() - k,
    {
        let q = positions[order[k]];
        let c = &candidates[q];
        if let Some(d) = &c.distribution {
            let g = evaluate_gene(q, c.gene_id, &c.similarities, d);
            out.push(g);
        }
        k += 1;
    }
    assert forall|i: int, j: int| 0 <= i < j < out@.len() implies ranks_before(out@[i], out@[j]) by {
        assert(precedes(keys@, order@[i] as int, order@[j] as int));
        if order@[i] < order@[j] {
            assert(positions@[order@[i] as int] < positions@[order@[j] as int]);
        }
    }
    assert forall|i: int|
        0 <= i < candidates@.len() && is_calibrated(#[trigger] candidates@[i], cap as nat)
            implies exists|k: int| 0 <= k < out@.len() && out@[k].candidate == i by {
        let t = choose|t: int| 0 <= t < positions@.len() && positions@[t] == i as usize;
        assert(order@.contains(t as usize));
        let k = choose|k: int| 0 <= k < order@.len() && order@[k] == t as usize;
        assert(out@[k].candidate == i);
    }
    out
}

} // verus!
