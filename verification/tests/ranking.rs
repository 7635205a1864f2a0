use nightybot::mlchess::{best_from, best_to, rank_squares};

#[test]
fn ranking_goes_from_the_highest_score_down() {
    assert_eq!(rank_squares(&[3, 9, -4, 7]), vec![1, 3, 0, 2]);
    assert_eq!(rank_squares(&[]), Vec::<usize>::new());
    assert_eq!(rank_squares(&[5]), vec![0]);
}

#[test]
fn equal_scores_keep_ascending_squares() {
    assert_eq!(rank_squares(&[1, 1, 1, 1]), vec![0, 1, 2, 3]);
    assert_eq!(rank_squares(&[2, 7, 2, 7, 2]), vec![1, 3, 0, 2, 4]);
    assert_eq!(rank_squares(&[i64::MIN, i64::MAX, i64::MIN]), vec![1, 0, 2]);
}

#[test]
fn equal_scores_give_equal_rankings() {
    let scores: Vec<i64> = (0..64).map(|k| (k * 37 % 11) as i64).collect();
    let again = scores.clone();
    assert_eq!(rank_squares(&scores), rank_squares(&again));
}

#[test]
fn a_ranking_of_64_scores_lists_every_square_once() {
    let scores: Vec<i64> = (0..64).map(|k| (k * 29 % 13) as i64 - 6).collect();
    let order = rank_squares(&scores);
    assert_eq!(order.len(), 64);
    let mut seen = [false; 64];
    for &square in &order {
        assert!(!seen[square]);
        seen[square] = true;
    }
    for pair in order.windows(2) {
        let (a, b) = (pair[0], pair[1]);
        assert!(scores[a] > scores[b] || (scores[a] == scores[b] && a < b));
    }
}

#[test]
fn best_from_ranks_each_side_on_its_own() {
    let mut row = vec![0i64; 128];
    row[12] = 50;
    row[11] = 40;
    row[64 + 52] = 90;
    row[64 + 1] = 10;
    let ranked = best_from(&vec![row.clone(), row]);
    assert_eq!(ranked.len(), 2);
    assert_eq!(ranked[0][0].len(), 64);
    assert_eq!(ranked[0][1].len(), 64);
    assert_eq!(&ranked[0][0][0..3], &[12, 11, 0]);
    assert_eq!(&ranked[0][1][0..3], &[52, 1, 0]);
    assert_eq!(ranked[1][0], ranked[0][0]);
}

#[test]
fn best_to_ranks_each_row() {
    let mut first = vec![0i64; 64];
    first[28] = 5;
    let mut second = vec![1i64; 64];
    second[63] = 2;
    second[0] = -1;
    let ranked = best_to(&vec![first, second]);
    assert_eq!(ranked.len(), 2);
    assert_eq!(&ranked[0][0..3], &[28, 0, 1]);
    assert_eq!(ranked[1][0], 63);
    assert_eq!(ranked[1][1], 1);
    assert_eq!(ranked[1][63], 0);
    assert!(best_to(&Vec::new()).is_empty());
}
