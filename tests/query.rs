use viguno::phenomizer::SimilarityMatrix;
use viguno::query::{
    best_match, capped_term_count, check_calibration, evaluate, evaluate_gene, explain, lookup_key, rank_of,
    Candidate, TermMatch, DEFAULT_MAX_TERMS,
};
use viguno::ranking::{descending_order, fraction_greater, Fraction};
use viguno::store::NullDistribution;

fn dist(gene_id: u32, term_count: u32, samples: Vec<u32>) -> NullDistribution {
    NullDistribution::new(gene_id, String::from("G"), term_count, samples).unwrap()
}

fn significance(p: Fraction) -> f64 {
    -10.0 * (p.num as f64 / p.den as f64).log10()
}

#[test]
fn rank_of_live_score_in_example_distribution() {
    let samples = vec![100_000, 300_000, 500_000, 700_000, 900_000];
    let r = rank_of(&samples, 500_000);
    assert_eq!((r.lower, r.upper, r.rank, r.len), (2, 3, 2, 5));
    let p = r.p_value();
    assert_eq!(p, Fraction { num: 3, den: 5 });
    assert!((significance(p) - 2.218).abs() < 0.001);
}

#[test]
fn rank_is_clamped_below_length() {
    let r = rank_of(&vec![1, 2, 3], 10);
    assert_eq!((r.lower, r.upper, r.rank), (3, 3, 2));
    assert_eq!(r.p_value(), Fraction { num: 1, den: 3 });
}

#[test]
fn higher_score_has_no_higher_p_value() {
    let samples = vec![1, 3, 3, 5, 8, 8, 9];
    let mut last = rank_of(&samples, 0).p_value();
    for live in 1..12 {
        let p = rank_of(&samples, live).p_value();
        assert_eq!(p.den, last.den);
        assert!(p.num <= last.num);
        last = p;
    }
}

#[test]
fn empty_query_has_p_value_one() {
    let m = SimilarityMatrix { cols: 2, rows: vec![] };
    let d = dist(7, 0, vec![100, 200, 300, 400, 500]);
    let g = evaluate_gene(0, 7, &m, &d);
    assert_eq!(g.live, 0);
    assert_eq!(g.rank.rank, 0);
    assert_eq!(g.p_value, Fraction { num: 5, den: 5 });
    assert_eq!(significance(g.p_value), 0.0);
}

#[test]
fn query_size_is_capped() {
    assert_eq!(DEFAULT_MAX_TERMS, 10);
    assert_eq!(capped_term_count(3, 10), 3);
    assert_eq!(capped_term_count(15, 10), 10);
    assert_eq!(lookup_key(2348, 15, 10), b"2348:10".to_vec());
    assert_eq!(lookup_key(2348, 4, 10), b"2348:4".to_vec());
}

#[test]
fn explanation_orders_by_best_match() {
    // Query Q1, Q2 (rows) against gene terms T1, T2 (columns).
    let m = SimilarityMatrix { cols: 2, rows: vec![vec![900_000, 0], vec![200_000, 0]] };
    let terms = explain(&m);
    assert_eq!(
        terms,
        vec![
            TermMatch { gene_term: 0, query_term: Some(0), score: 900_000 },
            TermMatch { gene_term: 1, query_term: None, score: 0 },
        ]
    );
}

#[test]
fn explanation_breaks_ties_by_first_maximum() {
    let m = SimilarityMatrix { cols: 3, rows: vec![vec![1, 5, 2], vec![5, 5, 9]] };
    assert_eq!(best_match(&m, 1), TermMatch { gene_term: 1, query_term: Some(0), score: 5 });
    let terms = explain(&m);
    let order: Vec<usize> = terms.iter().map(|t| t.gene_term).collect();
    assert_eq!(order, vec![2, 0, 1]);
}

#[test]
fn fractions_order_descending_and_stable() {
    assert!(fraction_greater(Fraction { num: 2, den: 3 }, Fraction { num: 3, den: 5 }));
    assert!(!fraction_greater(Fraction { num: 2, den: 4 }, Fraction { num: 1, den: 2 }));
    let keys = vec![
        Fraction { num: 1, den: 2 },
        Fraction { num: 3, den: 4 },
        Fraction { num: 2, den: 4 },
        Fraction { num: 9, den: 1 },
    ];
    assert_eq!(descending_order(&keys), vec![3, 1, 0, 2]);
}

#[test]
fn evaluation_omits_uncalibrated_and_orders_by_significance() {
    let query_vs = |x: u32| SimilarityMatrix { cols: 1, rows: vec![vec![x], vec![x]] };
    let samples = vec![10, 20, 30, 40];
    let candidates = vec![
        Candidate { gene_id: 1, similarities: query_vs(15), distribution: Some(dist(1, 2, samples.clone())) },
        Candidate { gene_id: 2, similarities: query_vs(35), distribution: Some(dist(2, 2, samples.clone())) },
        Candidate { gene_id: 3, similarities: query_vs(35), distribution: None },
        Candidate { gene_id: 4, similarities: query_vs(35), distribution: Some(dist(4, 3, samples.clone())) },
        Candidate { gene_id: 5, similarities: query_vs(15), distribution: Some(dist(5, 2, samples.clone())) },
    ];
    let result = evaluate(&candidates, 10);
    let ids: Vec<u32> = result.iter().map(|g| g.gene_id).collect();
    assert_eq!(ids, vec![2, 1, 5]);
    assert_eq!(result[0].p_value, Fraction { num: 1, den: 4 });
    assert_eq!(result[1].p_value, Fraction { num: 3, den: 4 });
    assert_eq!(result[2].candidate, 4);
}

#[test]
fn missing_calibration_is_reported() {
    let m = SimilarityMatrix { cols: 1, rows: vec![vec![3]] };
    let none = Candidate { gene_id: 9, similarities: m.clone(), distribution: None };
    assert_eq!(check_calibration(&none, 10), Err(viguno::Error::CalibrationMissing));
    let other_size = Candidate { gene_id: 9, similarities: m.clone(), distribution: Some(dist(9, 2, vec![1, 2])) };
    assert_eq!(check_calibration(&other_size, 10), Err(viguno::Error::CalibrationMissing));
    let other_gene = Candidate { gene_id: 9, similarities: m.clone(), distribution: Some(dist(8, 1, vec![1, 2])) };
    assert_eq!(check_calibration(&other_gene, 10), Err(viguno::Error::CalibrationMissing));
    let good = Candidate { gene_id: 9, similarities: m, distribution: Some(dist(9, 1, vec![1, 2])) };
    assert_eq!(check_calibration(&good, 10), Ok(()));
}
