use nightybot::position::{Move, Position};
use nightybot::resolver::ensure_legal;

fn mv(from: u8, to: u8) -> Move {
    Move { from, to, promotion: None }
}

fn ascending() -> Vec<usize> {
    (0..64).collect()
}

fn first(square: usize) -> Vec<usize> {
    let mut order = vec![square];
    order.extend((0..64).filter(|&k| k != square));
    order
}

#[test]
fn the_first_ranked_pair_of_the_start_resolves_to_e2_e4() {
    let start = Position::start();
    let from = first(12);
    let to = vec![first(28)];
    assert_eq!(ensure_legal(&start, &from, &to, 0, 1), Some(mv(12, 28)));
}

#[test]
fn later_ordinals_are_later_hits_and_then_nothing() {
    let start = Position::start();
    let from = first(12);
    let to = vec![first(28)];
    assert_eq!(ensure_legal(&start, &from, &to, 0, 1), Some(mv(12, 28)));
    assert_eq!(ensure_legal(&start, &from, &to, 0, 2), Some(mv(12, 20)));
    assert_eq!(ensure_legal(&start, &from, &to, 0, 3), None);
    assert_eq!(ensure_legal(&start, &from, &to, 0, 64), None);
}

#[test]
fn ordinal_zero_asks_for_the_first_hit() {
    let start = Position::start();
    let from = first(12);
    let to = vec![ascending()];
    assert_eq!(ensure_legal(&start, &from, &to, 0, 0), Some(mv(12, 20)));
    assert_eq!(ensure_legal(&start, &from, &to, 0, 1), Some(mv(12, 20)));
}

#[test]
fn a_source_without_moves_resolves_to_nothing() {
    let start = Position::start();
    let from = first(0);
    let to = vec![ascending()];
    assert_eq!(ensure_legal(&start, &from, &to, 0, 1), None);
}

#[test]
fn each_source_scans_its_own_destinations() {
    let start = Position::start();
    let from = vec![6, 1];
    let to = vec![first(21), first(16)];
    assert_eq!(ensure_legal(&start, &from, &to, 0, 1), Some(mv(6, 21)));
    assert_eq!(ensure_legal(&start, &from, &to, 0, 2), Some(mv(6, 23)));
    assert_eq!(ensure_legal(&start, &from, &to, 1, 1), Some(mv(1, 16)));
    assert_eq!(ensure_legal(&start, &from, &to, 1, 2), Some(mv(1, 18)));
}

#[test]
fn a_promotion_is_never_resolved() {
    let mut ready = Position::start();
    for &(from, to) in &[
        (8u8, 24u8),
        (49, 33),
        (24, 33),
        (48, 40),
        (33, 40),
        (58, 49),
        (40, 49),
        (57, 42),
    ] {
        ready = ready.play(mv(from, to)).expect("a legal move");
    }
    let from = first(49);
    let to = vec![first(56)];
    assert_eq!(ensure_legal(&ready, &from, &to, 0, 1), None);
}
