use viguno::phenomizer::SimilarityMatrix;
use viguno::simulate::{
    absorb_draw, is_selected_gene, sample_score, select_distinct, simulate, simulate_gene, simulate_gene_range,
    stream_seed,
};
use viguno::Error;

fn population() -> SimilarityMatrix {
    // Ten population terms against a gene with two terms.
    SimilarityMatrix {
        cols: 2,
        rows: (0..10u32).map(|i| vec![i * 1000, (9 - i) * 500]).collect(),
    }
}

fn is_sorted(v: &[u32]) -> bool {
    v.windows(2).all(|w| w[0] <= w[1])
}

#[test]
fn absorb_keeps_distinct_draws() {
    let mut sel = vec![3, 1];
    absorb_draw(&mut sel, 1);
    assert_eq!(sel, vec![3, 1]);
    absorb_draw(&mut sel, 7);
    assert_eq!(sel, vec![3, 1, 7]);
}

#[test]
fn rejection_sampling_skips_duplicates_and_stops() {
    assert_eq!(select_distinct(&vec![4, 4, 2, 4, 9, 5], 3), vec![4, 2, 9]);
    assert_eq!(select_distinct(&vec![1, 1, 1], 2), vec![1]);
    assert_eq!(select_distinct(&vec![], 2), Vec::<usize>::new());
}

#[test]
fn simulation_is_sorted_with_requested_length() {
    let scores = simulate(&population(), 3, 200, 7).unwrap();
    assert_eq!(scores.len(), 200);
    assert!(is_sorted(&scores));
    // Not all samples are equal, so the sort had work to do.
    assert!(scores[0] < scores[199]);
}

#[test]
fn simulation_with_one_term_yields_population_scores() {
    let table = population();
    let scores = simulate(&table, 1, 50, 11).unwrap();
    let singles: Vec<u32> = (0..10)
        .map(|i| viguno::phenomizer::score(&SimilarityMatrix { cols: 2, rows: vec![table.rows[i].clone()] }))
        .collect();
    assert!(scores.iter().all(|s| singles.contains(s)));
}

#[test]
fn simulation_rejects_too_few_samples() {
    assert_eq!(simulate(&population(), 3, 1, 1), Err(Error::SampleCountTooSmall));
    assert_eq!(simulate(&population(), 3, 0, 1), Err(Error::SampleCountTooSmall));
}

#[test]
fn simulation_rejects_small_population() {
    assert_eq!(simulate(&population(), 10, 5, 1), Err(Error::PopulationTooSmall));
    assert_eq!(simulate(&population(), 12, 5, 1), Err(Error::PopulationTooSmall));
}

#[test]
fn same_seed_gives_identical_distribution() {
    let a = simulate_gene(&population(), 2348, 4, 100, 42).unwrap();
    let b = simulate_gene(&population(), 2348, 4, 100, 42).unwrap();
    assert_eq!(a, b);
}

#[test]
fn other_seed_keeps_sortedness_and_length() {
    let a = simulate_gene(&population(), 2348, 4, 100, 42).unwrap();
    let c = simulate_gene(&population(), 2348, 4, 100, 43).unwrap();
    assert_eq!(c.len(), 100);
    assert!(is_sorted(&c));
    assert_eq!(a.len(), c.len());
}

#[test]
fn stream_seed_combines_gene_and_term_count() {
    assert_eq!(stream_seed(42, 0, 0), 42);
    assert_eq!(stream_seed(42, 1, 3), 42 + (1u64 << 32) + 3);
    assert_eq!(stream_seed(u64::MAX, 0, 1), 0);
}

#[test]
fn range_simulation_covers_every_term_count() {
    let dists = simulate_gene_range(&population(), 2348, "FOLR1", 1, 4, 20, 5).unwrap();
    assert_eq!(dists.len(), 4);
    for (k, d) in dists.iter().enumerate() {
        assert_eq!(d.term_count, 1 + k as u32);
        assert_eq!(d.gene_id, 2348);
        assert_eq!(d.gene_symbol, "FOLR1");
        assert_eq!(d.samples.len(), 20);
        assert!(is_sorted(&d.samples));
    }
}

#[test]
fn range_simulation_checks_configuration_first() {
    assert!(matches!(
        simulate_gene_range(&population(), 1, "G", 5, 4, 20, 0),
        Err(Error::TermCountRange)
    ));
    assert!(matches!(
        simulate_gene_range(&population(), 1, "G", 1, 4, 1, 0),
        Err(Error::SampleCountTooSmall)
    ));
    assert!(matches!(
        simulate_gene_range(&population(), 1, "G", 1, 10, 20, 0),
        Err(Error::PopulationTooSmall)
    ));
}

#[test]
fn gene_filter_by_id_or_symbol() {
    assert!(is_selected_gene(None, 2348, "FOLR1"));
    assert!(is_selected_gene(Some("2348"), 2348, "FOLR1"));
    assert!(is_selected_gene(Some("FOLR1"), 2348, "FOLR1"));
    assert!(!is_selected_gene(Some("234"), 2348, "FOLR1"));
    assert!(!is_selected_gene(Some("TGDS"), 2348, "FOLR1"));
}

#[test]
fn sample_score_of_given_draws() {
    let table = population();
    // Draws 2, 2, 7 keep rows 2 and 7.
    let picked = SimilarityMatrix { cols: 2, rows: vec![table.rows[2].clone(), table.rows[7].clone()] };
    assert_eq!(sample_score(&table, &vec![2, 2, 7], 2), Some(viguno::phenomizer::score(&picked)));
    assert_eq!(sample_score(&table, &vec![2, 2, 2], 2), None);
    assert_eq!(sample_score(&table, &vec![], 0), Some(0));
}

#[test]
fn one_term_samples_always_succeed() {
    for seed in 0..20u64 {
        assert!(simulate(&population(), 1, 30, seed).is_ok());
        assert_eq!(simulate(&population(), 0, 3, seed), Ok(vec![0, 0, 0]));
    }
}

#[test]
fn same_seed_same_simulation() {
    assert_eq!(simulate(&population(), 5, 64, 99), simulate(&population(), 5, 64, 99));
}
