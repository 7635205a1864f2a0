use nightybot::position::{Move, Position, Status};

fn mv(from: u8, to: u8) -> Move {
    Move { from, to, promotion: None }
}

fn after(moves: &[(u8, u8)]) -> Position {
    let mut position = Position::start();
    for &(from, to) in moves {
        position = position.play(mv(from, to)).expect("a legal move");
    }
    position
}

#[test]
fn start_position_prints_as_the_starting_text() {
    assert_eq!(
        Position::start().fen(),
        "rnbqkbnr/pppppppp/8/8/8/8/PPPPPPPP/RNBQKBNR w KQkq - 0 1"
    );
}

#[test]
fn start_position_has_twenty_moves_and_white_to_move() {
    let start = Position::start();
    assert_eq!(start.legal_move_count(), 20);
    assert_eq!(start.side_to_move(), 0);
    assert_eq!(start.status(), Status::Ongoing);
    assert!(!start.is_checkmate());
    let first = start.first_legal_move().expect("the start has moves");
    assert!(start.legal(first));
}

#[test]
fn legality_is_decided_by_the_rules() {
    let start = Position::start();
    assert!(start.legal(mv(12, 28)));
    assert!(start.legal(mv(12, 20)));
    assert!(!start.legal(mv(12, 36)));
    assert!(!start.legal(mv(0, 8)));
    assert!(!start.legal(mv(64, 0)));
    assert!(!start.legal(mv(0, 200)));
    assert!(!start.legal(Move { from: 12, to: 28, promotion: Some(4) }));
    assert!(!start.legal(Move { from: 12, to: 28, promotion: Some(6) }));
}

#[test]
fn play_changes_the_side_and_the_board() {
    let next = after(&[(12, 28)]);
    assert_eq!(next.side_to_move(), 1);
    assert_eq!(next.piece_on(28), Some(0));
    assert_eq!(next.color_on(28), Some(0));
    assert_eq!(next.piece_on(12), None);
    assert_eq!(next.color_on(12), None);
    assert_eq!(next.piece_on(60), Some(5));
    assert_eq!(next.color_on(60), Some(1));
    assert!(Position::start().play(mv(12, 36)).is_none());
    assert_ne!(next.fen(), Position::start().fen());
}

#[test]
fn fools_mate_is_checkmate() {
    let mated = after(&[(13, 21), (52, 36), (14, 30), (59, 31)]);
    assert_eq!(mated.legal_move_count(), 0);
    assert_eq!(mated.status(), Status::Checkmate);
    assert!(mated.is_checkmate());
    assert_eq!(mated.first_legal_move(), None);
    assert_eq!(mated.side_to_move(), 0);
}

#[test]
fn a_check_with_one_answer_has_one_legal_move() {
    let checked = after(&[(12, 28), (53, 45), (3, 39)]);
    assert_eq!(checked.legal_move_count(), 1);
    assert_eq!(checked.first_legal_move(), Some(mv(54, 46)));
    assert_eq!(checked.status(), Status::Ongoing);
}

#[test]
fn a_promotion_names_its_piece() {
    let ready = after(&[
        (8, 24),
        (49, 33),
        (24, 33),
        (48, 40),
        (33, 40),
        (58, 49),
        (40, 49),
        (57, 42),
    ]);
    let queening = Move { from: 49, to: 56, promotion: Some(4) };
    assert!(ready.legal(queening));
    assert!(ready.legal(Move { from: 49, to: 56, promotion: Some(1) }));
    assert!(!ready.legal(mv(49, 56)));
    assert!(!ready.legal(Move { from: 49, to: 56, promotion: Some(5) }));
    let queened = ready.play(queening).expect("the promotion is legal");
    assert_eq!(queened.piece_on(56), Some(4));
    assert_eq!(queened.color_on(56), Some(0));
    assert_eq!(queened.side_to_move(), 1);
}

#[test]
fn moves_in_range_have_squares_and_pieces_on_the_board() {
    assert!(mv(0, 63).in_range());
    assert!(Move { from: 0, to: 63, promotion: Some(5) }.in_range());
    assert!(!mv(64, 0).in_range());
    assert!(!mv(0, 64).in_range());
    assert!(!Move { from: 0, to: 63, promotion: Some(6) }.in_range());
}
