use nightybot::evaluation::eval_pos;
use nightybot::position::{Move, Position};
use nightybot::search::INFINITY;

fn after(moves: &[(u8, u8)]) -> Position {
    let mut position = Position::start();
    for &(from, to) in moves {
        position = position
            .play(Move { from, to, promotion: None })
            .expect("a legal move");
    }
    position
}

#[test]
fn equal_material_is_worth_nothing() {
    let start = Position::start();
    assert_eq!(eval_pos(&start, 0), 0);
    assert_eq!(eval_pos(&start, 1), 0);
}

#[test]
fn a_captured_pawn_counts_for_the_capturer() {
    let position = after(&[(12, 28), (51, 35), (28, 35)]);
    assert_eq!(eval_pos(&position, 0), 100);
    assert_eq!(eval_pos(&position, 1), -100);
}

#[test]
fn a_captured_queen_counts_nine_hundred() {
    let position = after(&[(12, 28), (51, 35), (28, 35), (59, 35), (1, 18), (35, 28), (18, 28)]);
    assert_eq!(eval_pos(&position, 0), 100 + 900 - 100);
    assert_eq!(eval_pos(&position, 1), -900);
}

#[test]
fn mate_scores_stand_above_every_material_value() {
    let largest = 64 * 900;
    assert!(INFINITY / 3 > largest);
    assert!(-largest + INFINITY / 2 > largest);
    let position = after(&[(12, 28), (51, 35), (28, 35)]);
    for side in 0..2 {
        let value = eval_pos(&position, side);
        assert!(value.abs() <= largest);
        assert!(INFINITY / 3 > value.abs());
        assert!(value + INFINITY / 2 > value.abs());
    }
}
