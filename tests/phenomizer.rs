use viguno::phenomizer::{row_max, score, score_dir, SimilarityMatrix};

fn matrix(cols: usize, rows: Vec<Vec<u32>>) -> SimilarityMatrix {
    SimilarityMatrix { cols, rows }
}

#[test]
fn row_max_of_empty_row_is_zero() {
    assert_eq!(row_max(&vec![]), 0);
    assert_eq!(row_max(&vec![3, 9, 4]), 9);
}

#[test]
fn directed_score_is_mean_of_row_maxima() {
    let m = matrix(3, vec![vec![1, 2, 3], vec![4, 5, 6]]);
    // (3 + 6) / 2, rounded down
    assert_eq!(score_dir(&m), 4);
    // (4 + 5 + 6) / 3
    assert_eq!(score_dir(&m.transposed()), 5);
}

#[test]
fn score_is_mean_of_both_directions() {
    let m = matrix(3, vec![vec![1, 2, 3], vec![4, 5, 6]]);
    assert_eq!(score(&m), 4);
}

#[test]
fn score_is_symmetric() {
    let m = matrix(3, vec![vec![10, 0, 7], vec![2, 30, 1]]);
    let t = m.transposed();
    assert_eq!(t.cols, 2);
    assert_eq!(t.rows, vec![vec![10, 2], vec![0, 30], vec![7, 1]]);
    assert_eq!(score(&m), score(&t));
    assert_eq!(score(&m), 17);
}

#[test]
fn empty_query_or_target_scores_zero() {
    let no_query = matrix(3, vec![]);
    assert_eq!(score(&no_query), 0);
    let no_target = matrix(0, vec![vec![], vec![]]);
    assert_eq!(score(&no_target), 0);
}
