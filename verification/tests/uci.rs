use nightybot::chessbot::ChessBot;
use nightybot::position::Move;
use nightybot::uci::{move_text, parse_command, parse_move, split_words, square_text, Command};

fn mv(from: u8, to: u8) -> Move {
    Move { from, to, promotion: None }
}

#[test]
fn squares_are_named_by_file_and_rank() {
    assert_eq!(ChessBot::sqr_to_str(0), "a1");
    assert_eq!(ChessBot::sqr_to_str(1), "b1");
    assert_eq!(ChessBot::sqr_to_str(7), "h1");
    assert_eq!(ChessBot::sqr_to_str(8), "a2");
    assert_eq!(ChessBot::sqr_to_str(12), "e2");
    assert_eq!(ChessBot::sqr_to_str(28), "e4");
    assert_eq!(ChessBot::sqr_to_str(63), "h8");
    assert_eq!(square_text(36), "e5");
}

#[test]
fn moves_are_named_by_their_squares_and_promotion() {
    assert_eq!(move_text(mv(12, 28)), "e2e4");
    assert_eq!(move_text(mv(6, 21)), "g1f3");
    assert_eq!(move_text(Move { from: 52, to: 60, promotion: Some(4) }), "e7e8q");
    assert_eq!(move_text(Move { from: 52, to: 60, promotion: Some(1) }), "e7e8n");
    assert_eq!(move_text(Move { from: 8, to: 0, promotion: Some(3) }), "a2a1r");
    assert_eq!(move_text(Move { from: 8, to: 0, promotion: Some(2) }), "a2a1b");
}

#[test]
fn move_names_are_read_back() {
    assert_eq!(parse_move(b"e2e4"), Some(mv(12, 28)));
    assert_eq!(parse_move(b"a1h8"), Some(mv(0, 63)));
    assert_eq!(
        parse_move(b"e7e8q"),
        Some(Move { from: 52, to: 60, promotion: Some(4) })
    );
    assert_eq!(
        parse_move(b"e7e8n"),
        Some(Move { from: 52, to: 60, promotion: Some(1) })
    );
    assert_eq!(
        parse_move(b"e7e8r"),
        Some(Move { from: 52, to: 60, promotion: Some(3) })
    );
    assert_eq!(
        parse_move(b"e7e8b"),
        Some(Move { from: 52, to: 60, promotion: Some(2) })
    );
    for from in 0..64u8 {
        for to in 0..64u8 {
            let text = move_text(mv(from, to));
            assert_eq!(parse_move(text.as_bytes()), Some(mv(from, to)));
        }
    }
}

#[test]
fn texts_that_name_no_move_are_refused() {
    assert_eq!(parse_move(b""), None);
    assert_eq!(parse_move(b"e2e"), None);
    assert_eq!(parse_move(b"e2e9"), None);
    assert_eq!(parse_move(b"i2e4"), None);
    assert_eq!(parse_move(b"e0e4"), None);
    assert_eq!(parse_move(b"E2E4"), None);
    assert_eq!(parse_move(b"e7e8k"), None);
    assert_eq!(parse_move(b"e7e8p"), None);
    assert_eq!(parse_move(b"e7e8Q"), None);
    assert_eq!(parse_move(b"e2e4xyz"), Some(mv(12, 28)));
}

#[test]
fn texts_are_split_at_each_blank() {
    assert_eq!(split_words(b""), vec![Vec::<u8>::new()]);
    assert_eq!(split_words(b"go"), vec![b"go".to_vec()]);
    assert_eq!(
        split_words(b"a bc  d "),
        vec![
            b"a".to_vec(),
            b"bc".to_vec(),
            Vec::new(),
            b"d".to_vec(),
            Vec::new()
        ]
    );
}

#[test]
fn plain_commands_are_whole_lines() {
    assert_eq!(parse_command(b"uci\n"), Command::Uci);
    assert_eq!(parse_command(b"isready\n"), Command::IsReady);
    assert_eq!(parse_command(b"ucinewgame\n"), Command::NewGame);
    assert_eq!(parse_command(b"quit\n"), Command::Quit);
    assert_eq!(parse_command(b"benchmark\n"), Command::Benchmark);
    assert_eq!(parse_command(b"test\n"), Command::Test);
    assert_eq!(parse_command(b"uci"), Command::Other);
    assert_eq!(parse_command(b"quit \n"), Command::Other);
    assert_eq!(parse_command(b""), Command::Other);
    assert_eq!(parse_command(b"\n"), Command::Other);
}

#[test]
fn position_lines_set_up_the_board() {
    assert_eq!(parse_command(b"position startpos\n"), Command::Start);
    assert_eq!(parse_command(b"position startpos mov\n"), Command::Start);
    assert_eq!(
        parse_command(b"position startpos moves\n"),
        Command::Moves(Vec::new())
    );
    assert_eq!(
        parse_command(b"position startpos moves e2e4 e7e5 g1f3\n"),
        Command::Moves(vec![mv(12, 28), mv(52, 36), mv(6, 21)])
    );
    assert_eq!(
        parse_command(b"position startpos moves e2e4 e7e8q\n"),
        Command::Moves(vec![mv(12, 28), Move { from: 52, to: 60, promotion: Some(4) }])
    );
}

#[test]
fn position_lines_that_cannot_be_read_are_malformed() {
    assert_eq!(parse_command(b"position \n"), Command::Malformed);
    assert_eq!(parse_command(b"position x\n"), Command::Malformed);
    assert_eq!(
        parse_command(b"position startpos moves e2e4 zz\n"),
        Command::Malformed
    );
    assert_eq!(
        parse_command(b"position startpos moves e2e4  e7e5\n"),
        Command::Malformed
    );
    assert_eq!(
        parse_command(b"position startpos moves e2e4"),
        Command::Malformed
    );
    assert_eq!(parse_command(b"position"), Command::Other);
}

#[test]
fn go_lines_ask_for_a_search() {
    assert_eq!(parse_command(b"go\n"), Command::Go);
    assert_eq!(parse_command(b"go"), Command::Go);
    assert_eq!(parse_command(b"go movetime 1000\n"), Command::Go);
    assert_eq!(parse_command(b"g\n"), Command::Other);
    assert_eq!(parse_command(b"stop\n"), Command::Other);
}
