//! Monte Carlo simulation of the null distribution of phenomizer scores.
//!
//! For one gene the caller provides a similarity matrix whose rows are the terms
//! of the sampling population and whose columns are the gene's terms. Each sample
//! draws a set of distinct population terms by rejection sampling and scores the
//! rows picked against the gene.
use vstd::prelude::*;

use crate::error::Error;
use crate::phenomizer::{phenomizer_spec, score, SimilarityMatrix};
use crate::common::str_eq;
use crate::store::{decimal, push_decimal, NullDistribution};
use vstd::string::StringSliceAdditionalSpecFns;

verus! {

broadcast use vstd::seq_lib::group_to_multiset_ensures;

/// Number of draws allowed for one sample before giving up.
pub const MAX_TRIES: usize = 1000;

/// The indices kept by rejection sampling from `draws`: in order, each draw that
/// is not kept yet, until `count` indices are kept.
pub open spec fn rejection_select(draws: Seq<usize>, count: nat) -> Seq<usize>
    decreases draws.len(),
{
    if draws.len() == 0 {
        Seq::empty()
    } else {
        let kept = rejection_select(draws.drop_last(), count);
        if kept.len() >= count || kept.contains(draws.last()) {
            kept
        } else {
            kept.push(draws.last())
        }
    }
}

/// `sel` holds `count` distinct indices below `n`.
pub open spec fn is_selection(sel: Seq<usize>, n: nat, count: nat) -> bool {
    &&& sel.len() == count
    &&& sel.no_duplicates()
    &&& forall|k: int| 0 <= k < sel.len() ==> #[trigger] sel[k] < n
}

/// The rows of `m` named by `sel`, in that order.
pub open spec fn select_rows(m: Seq<Seq<u32>>, sel: Seq<usize>) -> Seq<Seq<u32>> {
    Seq::new(sel.len(), |k: int| m[sel[k] as int])
}

/// `x` is the score of some set of `count` distinct population terms against the
/// gene whose similarities are `m` (population rows, `cols` gene terms).
pub open spec fn is_sample_score(m: Seq<Seq<u32>>, cols: nat, count: nat, x: u32) -> bool {
    exists|sel: Seq<usize>|
        is_selection(sel, m.len(), count) && x as nat == phenomizer_spec(
            #[trigger] select_rows(m, sel),
            cols,
        )
}

/// `s` is sorted ascending.
pub open spec fn is_sorted(s: Seq<u32>) -> bool {
    forall|i: int, j: int| 0 <= i <= j < s.len() ==> s[i] <= s[j]
}

/// The seed of the random stream used for one gene and term count.
pub open spec fn stream_seed_spec(base: u64, gene_id: u32, term_count: u32) -> int {
    (base as int + gene_id as int * 0x1_0000_0000 + term_count as int) % 0x1_0000_0000_0000_0000
}

/// What rejection sampling keeps has no duplicates, at most `count` entries, and
/// only drawn indices.
proof fn lemma_rejection_select(draws: Seq<usize>, count: nat)
    ensures
        rejection_select(draws, count).no_duplicates(),
        rejection_select(draws, count).len() <= count,
        forall|k: int|
            0 <= k < rejection_select(draws, count).len() ==> draws.contains(
                #[trigger] rejection_select(draws, count)[k],
            ),
    decreases draws.len(),
{
    if draws.len() > 0 {
        let prev = draws.drop_last();
        lemma_rejection_select(prev, count);
        let kept = rejection_select(prev, count);
        let cur = rejection_select(draws, count);
        assert forall|k: int| 0 <= k < cur.len() implies draws.contains(#[trigger] cur[k]) by {
            if k < kept.len() {
                let w = choose|w: int| 0 <= w < prev.len() && prev[w] == kept[k];
                assert(draws[w] == kept[k]);
            } else {
                assert(draws[draws.len() - 1] == cur[k]);
            }
        }
    }
}

/// Keep the draw `d` unless it is already kept.
pub fn absorb_draw(sel: &mut Vec<usize>, d: usize)
    ensures
        final(sel)@ == if old(sel)@.contains(d) {
            old(sel)@
        } else {
            old(sel)@.push(d)
        },
{
    let mut i: usize = 0;
    while i < sel.len()
        invariant
            i <= sel@.len(),
            forall|k: int| 0 <= k < i ==> sel@[k] != d,
        decreases sel@.len() - i,
    {
        if sel[i] == d {
            return;
        }
        i += 1;
    }
    sel.push(d);
}

/// Rejection sampling over a given sequence of draws: the distinct indices kept,
/// in order of first appearance, stopping once `count` are kept.
pub fn select_distinct(draws: &Vec<usize>, count: usize) -> (r: Vec<usize>)
    ensures
        r@ == rejection_select(draws@, count as nat),
{
    let mut sel: Vec<usize> = Vec::new();
    let mut i: usize = 0;
    while i < draws.len()
        invariant
            i <= draws@.len(),
            sel@ == rejection_select(draws@.subrange(0, i as int), count as nat),
        decreases draws@.len() - i,
    {
        assert(draws@.subrange(0, i as int + 1).drop_last() =~= draws@.subrange(0, i as int));
        if sel.len() < count {
            absorb_draw(&mut sel, draws[i]);
        }
        i += 1;
    }
    assert(draws@.subrange(0, draws@.len() as int) =~= draws@);
    sel
}

/// What `fastrand`'s generator gives from state `state` for a draw below `n`:
/// the value drawn and the state after the draw.
pub uninterp spec fn draw_of(state: u64, n: u64) -> (u64, u64);

/// Relies on `fastrand::Rng::with_seed`, `Rng::u64` over `0..n` and
/// `Rng::get_seed`: the generator is its 64-bit state alone, so one draw is a
/// function of that state and `n`; the value lies below `n` (the call panics
/// only on an empty range).
#[verifier::external_body]
fn draw_below(state: u64, n: u64) -> (r: (u64, u64))
    requires
        n > 0,
    ensures
        r == draw_of(state, n),
        r.0 < n,
{
    let mut rng = fastrand::Rng::with_seed(state);
    let value = rng.u64(0..n);
    (value, rng.get_seed())
}

/// The draws of one sample, and the state after them: starting from `draws`,
/// draw below `n` while fewer than `count` distinct indices are kept and the
/// `budget` of draws is not spent.
pub open spec fn sample_draws(state: u64, n: u64, count: nat, budget: nat, draws: Seq<usize>) -> (
    Seq<usize>,
    u64,
)
    decreases budget,
{
    if budget == 0 || rejection_select(draws, count).len() >= count {
        (draws, state)
    } else {
        let (v, next) = draw_of(state, n);
        sample_draws(next, n, count, (budget - 1) as nat, draws.push(v as usize))
    }
}

/// The score of the sample that `draws` select, or `None` when they keep fewer
/// than `count` distinct indices.
pub open spec fn sample_score_spec(m: Seq<Seq<u32>>, cols: nat, draws: Seq<usize>, count: nat) -> Option<u32> {
    let sel = rejection_select(draws, count);
    if sel.len() == count {
        Some(phenomizer_spec(select_rows(m, sel), cols) as u32)
    } else {
        None
    }
}

/// The scores of the first `k` samples, in drawing order, and the state after
/// them; `None` when one of them runs out of draws.
pub open spec fn run_spec(m: Seq<Seq<u32>>, cols: nat, count: nat, k: nat, seed: u64) -> Option<
    (Seq<u32>, u64),
>
    decreases k,
{
    if k == 0 {
        Some((Seq::empty(), seed))
    } else {
        match run_spec(m, cols, count, (k - 1) as nat, seed) {
            None => None,
            Some(done) => {
                let (draws, next) = sample_draws(done.1, m.len() as u64, count, MAX_TRIES as nat, Seq::empty());
                match sample_score_spec(m, cols, draws, count) {
                    None => None,
                    Some(x) => Some((done.0.push(x), next)),
                }
            },
        }
    }
}

/// With at most one term per sample, one draw always completes a sample.
proof fn lemma_small_sample_completes(state: u64, n: u64, count: nat)
    requires
        count <= 1,
    ensures
        rejection_select(sample_draws(state, n, count, MAX_TRIES as nat, Seq::empty()).0, count).len()
            == count,
{
    let d = sample_draws(state, n, count, MAX_TRIES as nat, Seq::empty()).0;
    lemma_rejection_select(d, count);
    if count == 1 {
        let (v, next) = draw_of(state, n);
        let one = Seq::<usize>::empty().push(v as usize);
        assert(one.drop_last() =~= Seq::<usize>::empty());
        assert(rejection_select(one, 1).len() == 1);
        assert(sample_draws(next, n, 1, (MAX_TRIES - 1) as nat, one) == (one, next));
    }
}

/// Once a run fails, every longer run fails.
proof fn lemma_run_fails_on(m: Seq<Seq<u32>>, cols: nat, count: nat, k: nat, j: nat, seed: u64)
    requires
        k <= j,
        run_spec(m, cols, count, k, seed) is None,
    ensures
        run_spec(m, cols, count, j, seed) is None,
    decreases j - k,
{
    if k < j {
        lemma_run_fails_on(m, cols, count, k, (j - 1) as nat, seed);
    }
}

/// With at most one term per sample, a run never fails.
proof fn lemma_small_run_completes(m: Seq<Seq<u32>>, cols: nat, count: nat, k: nat, seed: u64)
    requires
        count <= 1,
    ensures
        run_spec(m, cols, count, k, seed) is Some,
    decreases k,
{
    if k > 0 {
        lemma_small_run_completes(m, cols, count, (k - 1) as nat, seed);
        let done = run_spec(m, cols, count, (k - 1) as nat, seed)->0;
        lemma_small_sample_completes(done.1, m.len() as u64, count);
    }
}

/// Draw one sample from state `state`: the draws made and the state after them.
fn draw_selection(state: u64, n: usize, count: usize) -> (r: (Vec<usize>, u64))
    requires
        n > 0,
    ensures
        (r.0@, r.1) == sample_draws(state, n as u64, count as nat, MAX_TRIES as nat, Seq::empty()),
        forall|k: int| 0 <= k < r.0@.len() ==> #[trigger] r.0@[k] < n,
{
    let mut draws: Vec<usize> = Vec::new();
    let mut sel: Vec<usize> = Vec::new();
    let mut st: u64 = state;
    let mut tries: usize = 0;
    while sel.len() < count && tries < MAX_TRIES
        invariant
            n > 0,
            tries <= MAX_TRIES,
            sel@ == rejection_select(draws@, count as nat),
            sample_draws(st, n as u64, count as nat, (MAX_TRIES - tries) as nat, draws@)
                == sample_draws(state, n as u64, count as nat, MAX_TRIES as nat, Seq::empty()),
            forall|k: int| 0 <= k < draws@.len() ==> #[trigger] draws@[k] < n,
        decreases MAX_TRIES - tries,
    {
        let (v, next) = draw_below(st, n as u64);
        let d = v as usize;
        let ghost before = draws@;
        draws.push(d);
        assert(draws@.drop_last() =~= before);
        absorb_draw(&mut sel, d);
        st = next;
        tries += 1;
    }
    (draws, st)
}

/// The score of the sample that `draws` select by rejection sampling, or `None`
/// when they keep fewer than `term_count` distinct indices.
pub fn sample_score(table: &SimilarityMatrix, draws: &Vec<usize>, term_count: usize) -> (r: Option<u32>)
    requires
        table.wf(),
        table.cols <= u16::MAX,
        term_count <= u16::MAX,
        forall|k: int| 0 <= k < draws@.len() ==> #[trigger] draws@[k] < table.rows@.len(),
    ensures
        r == sample_score_spec(table.cells(), table.cols as nat, draws@, term_count as nat),
        r matches Some(x) ==> is_sample_score(table.cells(), table.cols as nat, term_count as nat, x),
{
    let sel = select_distinct(draws, term_count);
    proof {
        lemma_rejection_select(draws@, term_count as nat);
        assert forall|k: int| 0 <= k < sel@.len() implies #[trigger] sel@[k] < table.rows@.len() by {
            let w = choose|w: int| 0 <= w < draws@.len() && draws@[w] == sel@[k];
        }
    }
    if sel.len() == term_count {
        let sub = pick_rows(table, &sel);
        let x = score(&sub);
        assert(is_selection(sel@, table.cells().len(), term_count as nat));
        Some(x)
    } else {
        None
    }
}

/// The rows of `table` named by `sel`.
fn pick_rows(table: &SimilarityMatrix, sel: &Vec<usize>) -> (r: SimilarityMatrix)
    requires
        table.wf(),
        forall|k: int| 0 <= k < sel@.len() ==> #[trigger] sel@[k] < table.rows@.len(),
    ensures
        r.wf(),
        r.cols == table.cols,
        r.rows@.len() == sel@.len(),
        r.cells() == select_rows(table.cells(), sel@),
{
    let ghost m = table.cells();
    let mut rows: Vec<Vec<u32>> = Vec::new();
    let mut k: usize = 0;
    while k < sel.len()
        invariant
            table.wf(),
            m == table.cells(),
            forall|q: int| 0 <= q < sel@.len() ==> #[trigger] sel@[q] < table.rows@.len(),
            k <= sel@.len(),
            rows@.len() == k,
            forall|q: int| 0 <= q < k ==> (#[trigger] rows@[q])@ == m[sel@[q] as int],
        decreases sel@.len() - k,
    {
        let src = &table.rows[sel[k]];
        let mut row: Vec<u32> = Vec::new();
        let mut j: usize = 0;
        while j < src.len()
            invariant
                j <= src@.len(),
                row@ == src@.subrange(0, j as int),
            decreases src@.len() - j,
        {
            row.push(src[j]);
            assert(row@ =~= src@.subrange(0, j as int + 1));
            j += 1;
        }
        assert(row@ =~= src@);
        rows.push(row);
        k += 1;
    }
    let r = SimilarityMatrix { cols: table.cols, rows };
    assert(r.cells() =~= select_rows(m, sel@));
    r
}

/// Relies on `slice::sort_unstable`: the same values, ascending.
#[verifier::external_body]
fn sort_ascending(v: &mut Vec<u32>)
    ensures
        is_sorted(final(v)@),
        final(v)@.to_multiset() == old(v)@.to_multiset(),
{
    v.sort_unstable();
}

/// What a simulation that returned `v` holds: `num_samples` scores, sorted,
/// each the score of a set of `term_count` distinct population terms, and
/// together the scores of the run from `seed`.
pub open spec fn is_simulation(
    m: Seq<Seq<u32>>,
    cols: nat,
    term_count: nat,
    num_samples: nat,
    seed: u64,
    v: Seq<u32>,
) -> bool {
    &&& v.len() == num_samples
    &&& is_sorted(v)
    &&& forall|k: int| 0 <= k < v.len() ==> is_sample_score(m, cols, term_count, #[trigger] v[k])
    &&& run_spec(m, cols, term_count, num_samples, seed) matches Some(run)
        && v.to_multiset() == run.0.to_multiset()
}

/// Simulate the null distribution of one gene for one term count: `num_samples`
/// scores of random sets of `term_count` distinct population terms against the
/// gene, sorted ascending, drawn from the random stream `seed`. It fails with
/// `SamplingExhausted` only when a sample runs out of draws, which cannot happen
/// with at most one term per sample.
pub fn simulate(table: &SimilarityMatrix, term_count: usize, num_samples: usize, seed: u64) -> (r:
    Result<Vec<u32>, Error>)
    requires
        table.wf(),
        table.cols <= u16::MAX,
        term_count <= u16::MAX,
    ensures
        num_samples < 2 ==> r == Err::<Vec<u32>, Error>(Error::SampleCountTooSmall),
        num_samples >= 2 && table.rows@.len() <= term_count ==> r == Err::<Vec<u32>, Error>(
            Error::PopulationTooSmall,
        ),
        num_samples >= 2 && table.rows@.len() > term_count ==> {
            &&& r is Ok <==> run_spec(
                table.cells(),
                table.cols as nat,
                term_count as nat,
                num_samples as nat,
                seed,
            ) is Some
            &&& r is Err ==> r == Err::<Vec<u32>, Error>(Error::SamplingExhausted)
        },
        num_samples >= 2 && table.rows@.len() > term_count && term_count <= 1 ==> r is Ok,
        r matches Ok(v) ==> is_simulation(
            table.cells(),
            table.cols as nat,
            term_count as nat,
            num_samples as nat,
            seed,
            v@,
        ),
{
    if num_samples < 2 {
        return Err(Error::SampleCountTooSmall);
    }
    if table.rows.len() <= term_count {
        return Err(Error::PopulationTooSmall);
    }
    let ghost m = table.cells();
    let ghost cols = table.cols as nat;
    let ghost count = term_count as nat;
    proof {
        if term_count <= 1 {
            lemma_small_run_completes(m, cols, count, num_samples as nat, seed);
        }
    }
    let mut scores: Vec<u32> = Vec::new();
    let mut st: u64 = seed;
    let mut s: usize = 0;
    while s < num_samples
        invariant
            table.wf(),
            m == table.cells(),
            cols == table.cols,
            count == term_count,
            m.len() == table.rows@.len(),
            table.cols <= u16::MAX,
            term_count <= u16::MAX,
            table.rows@.len() > term_count,
            num_samples >= 2,
            s <= num_samples,
            scores@.len() == s,
            run_spec(m, cols, count, s as nat, seed) == Some((scores@, st)),
            term_count <= 1 ==> run_spec(m, cols, count, num_samples as nat, seed) is Some,
            forall|k: int| 0 <= k < s ==> is_sample_score(m, cols, count, #[trigger] scores@[k]),
        decreases num_samples - s,
    {
        let (draws, next) = draw_selection(st, table.rows.len(), term_count);
        match sample_score(table, &draws, term_count) {
            None => {
                proof {
                    lemma_run_fails_on(m, cols, count, s as nat + 1, num_samples as nat, seed);
                }
                return Err(Error::SamplingExhausted);
            },
            Some(x) => {
                scores.push(x);
                st = next;
                s += 1;
            },
        }
    }
    let ghost unsorted = scores@;
    sort_ascending(&mut scores);
    assert(scores@.len() == unsorted.len()) by {
        assert(scores@.to_multiset().len() == unsorted.to_multiset().len());
    }
    assert forall|k: int| 0 <= k < scores@.len() implies is_sample_score(
        m,
        cols,
        count,
        #[trigger] scores@[k],
    ) by {
        assert(scores@.contains(scores@[k]));
        assert(unsorted.to_multiset().count(scores@[k]) > 0);
        assert(unsorted.contains(scores@[k]));
        let w = choose|w: int| 0 <= w < unsorted.len() && unsorted[w] == scores@[k];
    }
    Ok(scores)
}

/// The largest element of a non-empty sorted sequence is its last one.
proof fn lemma_sorted_last_is_max(a: Seq<u32>, x: u32)
    requires
        is_sorted(a),
        a.contains(x),
    ensures
        x <= a.last(),
{
    let w = choose|w: int| 0 <= w < a.len() && a[w] == x;
}

/// Sorted sequences that hold the same values are equal.
pub proof fn lemma_sorted_unique(a: Seq<u32>, b: Seq<u32>)
    requires
        is_sorted(a),
        is_sorted(b),
        a.to_multiset() == b.to_multiset(),
    ensures
        a == b,
    decreases a.len(),
{
    assert(a.len() == a.to_multiset().len());
    assert(b.len() == b.to_multiset().len());
    if a.len() > 0 {
        let (x, y) = (a.last(), b.last());
        assert(a.contains(x));
        assert(a.to_multiset().count(x) > 0);
        assert(b.contains(x));
        assert(b.contains(y));
        assert(b.to_multiset().count(y) > 0);
        assert(a.contains(y));
        lemma_sorted_last_is_max(a, y);
        lemma_sorted_last_is_max(b, x);
        assert(a.remove(a.len() - 1) =~= a.drop_last());
        assert(b.remove(b.len() - 1) =~= b.drop_last());
        assert(a.drop_last().to_multiset() =~= b.drop_last().to_multiset());
        lemma_sorted_unique(a.drop_last(), b.drop_last());
        assert(a =~= a.drop_last().push(x));
        assert(b =~= b.drop_last().push(y));
    }
}

/// Simulating twice with the same table, term count, sample count and seed gives
/// bit-identical distributions: both are sorted and hold the scores of the same
/// run.
pub proof fn lemma_same_seed_same_distribution(
    m: Seq<Seq<u32>>,
    cols: nat,
    term_count: nat,
    num_samples: nat,
    seed: u64,
    a: Seq<u32>,
    b: Seq<u32>,
)
    requires
        is_simulation(m, cols, term_count, num_samples, seed, a),
        is_simulation(m, cols, term_count, num_samples, seed, b),
    ensures
        a == b,
{
    lemma_sorted_unique(a, b);
}

/// Seed of the independent random stream for one gene and term count, derived
/// from a base seed so that runs with one base seed repeat exactly.
pub fn stream_seed(base: u64, gene_id: u32, term_count: u32) -> (r: u64)
    ensures
        r as int == stream_seed_spec(base, gene_id, term_count),
{
    let offset: u64 = (gene_id as u64) * 0x1_0000_0000 + term_count as u64;
    base.wrapping_add(offset)
}

/// Simulate the null distribution of one gene for one term count with the random
/// stream `stream_seed(base_seed, gene_id, term_count)`.
pub fn simulate_gene(
    table: &SimilarityMatrix,
    gene_id: u32,
    term_count: u32,
    num_samples: usize,
    base_seed: u64,
) -> (r: Result<Vec<u32>, Error>)
    requires
        table.wf(),
        table.cols <= u16::MAX,
        term_count <= u16::MAX,
    ensures
        ({
            let seed = stream_seed_spec(base_seed, gene_id, term_count) as u64;
            &&& num_samples < 2 ==> r == Err::<Vec<u32>, Error>(Error::SampleCountTooSmall)
            &&& num_samples >= 2 && table.rows@.len() <= term_count ==> r == Err::<
                Vec<u32>,
                Error,
            >(Error::PopulationTooSmall)
            &&& num_samples >= 2 && table.rows@.len() > term_count ==> {
                &&& r is Ok <==> run_spec(
                    table.cells(),
                    table.cols as nat,
                    term_count as nat,
                    num_samples as nat,
                    seed,
                ) is Some
                &&& r is Err ==> r == Err::<Vec<u32>, Error>(Error::SamplingExhausted)
            }
            &&& num_samples >= 2 && table.rows@.len() > term_count && term_count <= 1 ==> r is Ok
            &&& r matches Ok(v) ==> is_simulation(
                table.cells(),
                table.cols as nat,
                term_count as nat,
                num_samples as nat,
                seed,
                v@,
            )
        }),
{
    simulate(table, term_count as usize, num_samples, stream_seed(base_seed, gene_id, term_count))
}

/// Simulate the null distributions of one gene for every term count from
/// `min_terms` to `max_terms`. The configuration is checked before any sampling:
/// an empty range, fewer than two samples, or a population no larger than
/// `max_terms` is refused.
pub fn simulate_gene_range(
    table: &SimilarityMatrix,
    gene_id: u32,
    gene_symbol: &str,
    min_terms: u32,
    max_terms: u32,
    num_samples: usize,
    base_seed: u64,
) -> (r: Result<Vec<NullDistribution>, Error>)
    requires
        table.wf(),
        table.cols <= u16::MAX,
        max_terms <= u16::MAX,
    ensures
        min_terms > max_terms ==> r == Err::<Vec<NullDistribution>, Error>(Error::TermCountRange),
        min_terms <= max_terms && num_samples < 2 ==> r == Err::<Vec<NullDistribution>, Error>(
            Error::SampleCountTooSmall,
        ),
        min_terms <= max_terms && num_samples >= 2 && table.rows@.len() <= max_terms ==> r
            == Err::<Vec<NullDistribution>, Error>(Error::PopulationTooSmall),
        min_terms <= max_terms && num_samples >= 2 && table.rows@.len() > max_terms ==> (r is Ok
            || r == Err::<Vec<NullDistribution>, Error>(Error::SamplingExhausted)),
        min_terms <= max_terms && max_terms <= 1 && num_samples >= 2 && table.rows@.len()
            > max_terms ==> r is Ok,
        r matches Ok(v) ==> {
            &&& v@.len() == max_terms - min_terms + 1
            &&& forall|k: int|
                0 <= k < v@.len() ==> {
                    let d = #[trigger] v@[k];
                    &&& d.wf()
                    &&& d.gene_id == gene_id
                    &&& d.gene_symbol@ == gene_symbol@
                    &&& d.term_count == min_terms + k
                    &&& d.samples@.len() == num_samples
                    &&& forall|q: int|
                        0 <= q < d.samples@.len() ==> is_sample_score(
                            table.cells(),
                            table.cols as nat,
                            d.term_count as nat,
                            #[trigger] d.samples@[q],
                        )
                }
        },
{
    if min_terms > max_terms {
        return Err(Error::TermCountRange);
    }
    if num_samples < 2 {
        return Err(Error::SampleCountTooSmall);
    }
    if table.rows.len() <= max_terms as usize {
        return Err(Error::PopulationTooSmall);
    }
    let mut out: Vec<NullDistribution> = Vec::new();
    let mut t: u32 = min_terms;
    loop
        invariant
            table.wf(),
            table.cols <= u16::MAX,
            max_terms <= u16::MAX,
            num_samples >= 2,
            table.rows@.len() > max_terms,
            min_terms <= t <= max_terms,
            out@.len() == t - min_terms,
            forall|k: int|
                0 <= k < out@.len() ==> {
                    let d = #[trigger] out@[k];
                    &&& d.wf()
                    &&& d.gene_id == gene_id
                    &&& d.gene_symbol@ == gene_symbol@
                    &&& d.term_count == min_terms + k
                    &&& d.samples@.len() == num_samples
                    &&& forall|q: int|
                        0 <= q < d.samples@.len() ==> is_sample_score(
                            table.cells(),
                            table.cols as nat,
                            d.term_count as nat,
                            #[trigger] d.samples@[q],
                        )
                },
        decreases max_terms - t,
    {
        let samples = match simulate_gene(table, gene_id, t, num_samples, base_seed) {
            Ok(v) => v,
            Err(e) => {
                return Err(e);
            },
        };
        out.push(NullDistribution { gene_id, gene_symbol: gene_symbol.to_owned(), term_count: t, samples });
        if t == max_terms {
            return Ok(out);
        }
        t += 1;
    }
}

/// Whether a gene takes part in a simulation limited to `only_gene`: every gene
/// when there is no limit, else the gene whose decimal ID or symbol it is.
pub fn is_selected_gene(only_gene: Option<&str>, gene_id: u32, symbol: &str) -> (r: bool)
    ensures
        r == match only_gene {
            None => true,
            Some(o) => o.spec_bytes() == decimal(gene_id as nat) || o@ == symbol@,
        },
{
    match only_gene {
        None => true,
        Some(o) => {
            let mut id: Vec<u8> = Vec::new();
            push_decimal(&mut id, gene_id);
            assert(id@ =~= decimal(gene_id as nat));
            let b = o.as_bytes();
            let mut same = b.len() == id.len();
            let mut i: usize = 0;
            while same && i < b.len()
                invariant
                    same ==> b@.len() == id@.len(),
                    i <= b@.len(),
                    same ==> forall|k: int| 0 <= k < i ==> b@[k] == id@[k],
                    !same ==> b@ != id@,
                decreases b@.len() - i,
            {
                if b[i] != id[i] {
                    same = false;
                }
                i += 1;
            }
            if same {
                assert(b@ =~= id@);
                true
            } else {
                str_eq(o, symbol)
            }
        },
    }
}

} // verus!
