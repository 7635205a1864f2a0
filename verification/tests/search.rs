use nightybot::chessbot::{ChessBot, Reply, Request};
use nightybot::mlchess::{best_from, best_to, encode_board};
use nightybot::resolver::ensure_legal;
use nightybot::position::{Move, Position};
use nightybot::search::{Awaiting, FALLBACK_SCORE, INFINITY};

fn mv(from: u8, to: u8) -> Move {
    Move { from, to, promotion: None }
}

fn favouring(white: &[usize], black: &[usize]) -> Vec<i64> {
    let mut row = vec![0i64; 128];
    for (rank, &square) in white.iter().enumerate() {
        row[square] = 1000 - rank as i64;
    }
    for (rank, &square) in black.iter().enumerate() {
        row[64 + square] = 1000 - rank as i64;
    }
    row
}

fn row_favouring(square: usize) -> Vec<i64> {
    let mut row = vec![0i64; 64];
    row[square] = 9;
    row
}

/// Drives a search to its end. The source scores are one fixed row, every
/// destination row favours the same square, and the leaves are valued in turn
/// from `values`.
fn drive(
    bot: &mut ChessBot,
    depth: usize,
    sources: &Vec<i64>,
    target: usize,
    values: &[i32],
) -> (Option<(Option<Move>, i32)>, usize, usize, usize) {
    let mut request = bot.find_best_move(depth);
    let (mut asked_sources, mut asked_targets, mut asked_values) = (0, 0, 0);
    loop {
        let reply = match request {
            Request::Done { outcome } => {
                return (outcome, asked_sources, asked_targets, asked_values)
            }
            Request::Sources { board } => {
                assert_eq!(board.len(), 64);
                asked_sources += 1;
                Reply::Sources(vec![sources.clone()])
            }
            Request::Targets { board: _, squares } => {
                asked_targets += 1;
                Reply::Targets(squares.iter().map(|_| row_favouring(target)).collect())
            }
            Request::Evaluate { position: _, side: _ } => {
                let value = values[asked_values % values.len()];
                asked_values += 1;
                Reply::Evaluation(value)
            }
        };
        request = bot.try_resume(reply).expect("the reply fits the request");
    }
}

fn replay(bot: &mut ChessBot, moves: &[(u8, u8)]) {
    bot.reset_board();
    for &(from, to) in moves {
        bot.make_move(mv(from, to));
    }
}

#[test]
fn a_new_engine_has_searched_nothing() {
    let bot = ChessBot::new();
    assert_eq!(bot.nodes(), 0);
    assert_eq!(bot.ml_calls(), 0);
    assert_eq!(bot.best_move(), mv(12, 20));
    assert_eq!(bot.best_score(), -10000);
    assert_eq!(bot.awaiting(), Awaiting::Nothing);
    assert_eq!(bot.position().fen(), Position::start().fen());
}

#[test]
fn limits_out_of_range_make_no_engine() {
    assert!(ChessBot::with_limits(1, 1, 1).is_some());
    assert!(ChessBot::with_limits(7, 64, 64).is_some());
    assert!(ChessBot::with_limits(0, 1, 1).is_none());
    assert!(ChessBot::with_limits(1, 0, 1).is_none());
    assert!(ChessBot::with_limits(1, 1, 0).is_none());
    assert!(ChessBot::with_limits(1, 65, 1).is_none());
    assert!(ChessBot::with_limits(1, 1, 65).is_none());
}

#[test]
fn mate_scores_are_a_third_and_a_half_of_infinity() {
    assert_eq!(INFINITY, 10_000_000);
    assert_eq!(INFINITY / 3, 3_333_333);
    assert_eq!(INFINITY / 2, 5_000_000);
    assert_eq!(FALLBACK_SCORE, -100_000_000);
}

#[test]
fn the_first_ranked_pair_is_chosen_at_depth_one() {
    let mut bot = ChessBot::with_limits(1, 1, 1).expect("limits in range");
    let mut request = bot.find_best_move(1);
    match &request {
        Request::Sources { board } => assert_eq!(board[12], 1),
        _ => panic!("the search asks for source scores first"),
    }
    assert_eq!(bot.awaiting(), Awaiting::Sources);
    request = bot.resume(Reply::Sources(vec![favouring(&[12], &[])]));
    match &request {
        Request::Targets { board: _, squares } => assert_eq!(squares, &vec![12]),
        _ => panic!("the search asks for destination scores next"),
    }
    assert_eq!(bot.ml_calls(), 0);
    request = bot.resume(Reply::Targets(vec![row_favouring(28)]));
    match &request {
        Request::Evaluate { position, side } => {
            assert_eq!(*side, 1);
            assert_eq!(
                position.fen(),
                Position::start().play(mv(12, 28)).expect("legal").fen()
            );
        }
        _ => panic!("the search asks for the value of the leaf"),
    }
    assert_eq!(bot.ml_calls(), 2);
    assert_eq!(bot.nodes(), 1);
    request = bot.resume(Reply::Evaluation(35));
    match request {
        Request::Done { outcome } => assert_eq!(outcome, Some((Some(mv(12, 28)), -35))),
        _ => panic!("the search is over"),
    }
    assert_eq!(bot.best_move(), mv(12, 28));
    assert_eq!(bot.best_score(), -35);
    assert_eq!(bot.nodes(), 1);
    assert_eq!(bot.ml_calls(), 2);
    assert_eq!(bot.awaiting(), Awaiting::Nothing);
    assert!(Position::start().legal(bot.best_move()));
}

#[test]
fn a_single_legal_move_is_found_by_the_fallback() {
    let mut bot = ChessBot::with_limits(1, 1, 1).expect("limits in range");
    replay(&mut bot, &[(12, 28), (53, 45), (3, 39)]);
    assert_eq!(bot.position().legal_move_count(), 1);
    let sources = favouring(&[], &[56]);
    let (outcome, asked_sources, asked_targets, asked_values) =
        drive(&mut bot, 1, &sources, 48, &[0]);
    assert_eq!(outcome, Some((Some(mv(54, 46)), FALLBACK_SCORE)));
    assert_eq!((asked_sources, asked_targets, asked_values), (1, 1, 0));
    assert_eq!(bot.nodes(), 0);
    assert_eq!(bot.ml_calls(), 2);
    assert_eq!(bot.best_move(), mv(54, 46));
    assert_eq!(bot.best_score(), FALLBACK_SCORE);
}

#[test]
fn a_checkmate_at_the_root_gives_its_score_and_no_move() {
    let mut bot = ChessBot::new();
    replay(&mut bot, &[(13, 21), (52, 36), (14, 30), (59, 31)]);
    let request = bot.find_best_move(1);
    match request {
        Request::Done { outcome } => assert_eq!(outcome, Some((None, INFINITY / 3))),
        _ => panic!("a checkmate ends the search at once"),
    }
    assert_eq!(bot.best_move(), mv(12, 20));
    assert_eq!(bot.best_score(), -10000);
    assert_eq!(bot.nodes(), 0);
    assert_eq!(bot.ml_calls(), 0);
    assert_eq!(bot.awaiting(), Awaiting::Nothing);
}

#[test]
fn two_by_two_at_depth_two_tries_four_pairs_a_level() {
    let mut bot = ChessBot::with_limits(2, 2, 2).expect("limits in range");
    let sources = favouring(&[12, 11], &[52, 51]);
    let values: Vec<i32> = (1..=16).collect();
    let (outcome, asked_sources, asked_targets, asked_values) =
        drive(&mut bot, 1, &sources, 0, &values);
    assert_eq!(asked_values, 16);
    assert_eq!(asked_sources, 5);
    assert_eq!(asked_targets, 5);
    assert_eq!(bot.nodes(), 20);
    assert_eq!(bot.ml_calls(), 10);
    assert_eq!(outcome, Some((Some(mv(12, 20)), 4)));
    assert_eq!(bot.best_move(), mv(12, 20));
    assert_eq!(bot.best_score(), 4);
}

#[test]
fn a_depth_outside_the_limits_is_no_search() {
    let mut bot = ChessBot::with_limits(2, 1, 1).expect("limits in range");
    match bot.find_best_move(3) {
        Request::Done { outcome } => assert_eq!(outcome, None),
        _ => panic!("no search"),
    }
    match bot.find_best_move(0) {
        Request::Done { outcome } => assert_eq!(outcome, None),
        _ => panic!("no search"),
    }
    assert_eq!(bot.awaiting(), Awaiting::Nothing);
}

#[test]
fn a_search_below_the_root_keeps_the_counters_and_the_record() {
    let mut bot = ChessBot::with_limits(2, 1, 1).expect("limits in range");
    let sources = favouring(&[12], &[52]);
    let (first, _, _, _) = drive(&mut bot, 1, &sources, 0, &[3]);
    assert_eq!(first, Some((Some(mv(12, 20)), 3)));
    let (nodes, calls) = (bot.nodes(), bot.ml_calls());
    assert_eq!((nodes, calls), (2, 4));
    let (second, _, _, _) = drive(&mut bot, 2, &sources, 0, &[8]);
    assert_eq!(second, Some((Some(mv(12, 20)), -8)));
    assert_eq!(bot.nodes(), nodes + 1);
    assert_eq!(bot.ml_calls(), calls + 2);
    assert_eq!(bot.best_score(), 3);
}

#[test]
fn a_reply_of_the_wrong_kind_or_shape_is_not_taken() {
    let mut bot = ChessBot::with_limits(1, 2, 1).expect("limits in range");
    assert!(bot.try_resume(Reply::Evaluation(0)).is_none());
    let _ = bot.find_best_move(1);
    assert!(bot.try_resume(Reply::Evaluation(0)).is_none());
    assert!(bot.try_resume(Reply::Targets(vec![vec![0; 64]; 2])).is_none());
    assert!(bot.try_resume(Reply::Sources(Vec::new())).is_none());
    assert!(bot.try_resume(Reply::Sources(vec![vec![0; 127]])).is_none());
    assert_eq!(bot.awaiting(), Awaiting::Sources);
    assert!(bot.try_resume(Reply::Sources(vec![vec![0; 128]])).is_some());
    assert!(bot.try_resume(Reply::Targets(vec![vec![0; 64]])).is_none());
    assert!(bot.try_resume(Reply::Targets(vec![vec![0; 64], vec![0; 63]])).is_none());
    assert!(bot.try_resume(Reply::Targets(vec![vec![0; 64]; 2])).is_some());
}

#[test]
fn a_leaf_that_is_checkmate_scores_half_of_infinity_more() {
    let mut bot = ChessBot::with_limits(1, 1, 1).expect("limits in range");
    replay(&mut bot, &[(13, 21), (52, 36), (14, 30)]);
    let sources = favouring(&[], &[59]);
    let (outcome, _, _, asked_values) = drive(&mut bot, 1, &sources, 31, &[-20]);
    assert_eq!(asked_values, 1);
    assert_eq!(outcome, Some((Some(mv(59, 31)), -(INFINITY / 2 - 20))));
    assert_eq!(bot.best_score(), -(INFINITY / 2 - 20));
}

#[test]
fn a_checkmate_below_the_root_scores_a_third_of_infinity() {
    let mut bot = ChessBot::with_limits(2, 1, 1).expect("limits in range");
    replay(&mut bot, &[(13, 21), (52, 36), (14, 30)]);
    let sources = favouring(&[], &[59]);
    let (outcome, asked_sources, _, asked_values) = drive(&mut bot, 1, &sources, 31, &[0]);
    assert_eq!(asked_values, 0);
    assert_eq!(asked_sources, 1);
    assert_eq!(outcome, Some((Some(mv(59, 31)), -(INFINITY / 3))));
    assert_eq!(bot.nodes(), 1);
    assert_eq!(bot.ml_calls(), 2);
}

#[test]
fn moves_that_are_not_legal_leave_the_board() {
    let mut bot = ChessBot::new();
    bot.make_move(mv(12, 36));
    assert_eq!(bot.position().fen(), Position::start().fen());
    bot.make_move(mv(12, 28));
    assert_ne!(bot.position().fen(), Position::start().fen());
    bot.reset_board();
    assert_eq!(bot.position().fen(), Position::start().fen());
}

fn mix(seed: u64, k: u64) -> i64 {
    let mut x = seed ^ k.wrapping_mul(0x9E37_79B9_7F4A_7C15);
    x ^= x >> 29;
    x = x.wrapping_mul(0xBF58_476D_1CE4_E5B9);
    x ^= x >> 32;
    (x % 1000) as i64
}

fn seed_of(board: &[i32; 64]) -> u64 {
    board
        .iter()
        .fold(17u64, |h, &code| h.wrapping_mul(31).wrapping_add(code as u64))
}

fn source_rows(board: &[i32; 64]) -> Vec<Vec<i64>> {
    let seed = seed_of(board);
    vec![(0..128).map(|k| mix(seed, k)).collect()]
}

fn target_rows(board: &[i32; 64], squares: &[usize]) -> Vec<Vec<i64>> {
    let seed = seed_of(board);
    squares
        .iter()
        .map(|&s| (0..64).map(|k| mix(seed ^ (s as u64 + 1), 1000 + k)).collect())
        .collect()
}

fn value_of(position: &Position, side: usize) -> i32 {
    let seed = position.fen().bytes().fold(5u64, |h, b| h.wrapping_mul(131).wrapping_add(b as u64));
    mix(seed, side as u64) as i32 - 500
}

/// The search by plain recursion, with the nodes and the questions it counts.
fn by_recursion(
    position: &Position,
    depth: usize,
    limits: (usize, usize, usize),
    counts: &mut (usize, usize),
) -> Option<(Option<Move>, i32)> {
    let (deepest, pieces, moves) = limits;
    if position.legal_move_count() < 1 {
        let value = if position.is_checkmate() { INFINITY / 3 } else { 0 };
        return Some((None, value));
    }
    let board = encode_board(position);
    let side = position.side_to_move();
    let from = best_from(&source_rows(&board))[0][side].clone();
    let to = best_to(&target_rows(&board, &from[0..pieces]));
    counts.1 += 2;
    let mut score = -INFINITY;
    let mut best = (0, 0);
    for i in 0..pieces {
        for i2 in 0..moves {
            if let Some(mv) = ensure_legal(position, &from, &to, i, i2 + 1) {
                counts.0 += 1;
                let child = position.play(mv).expect("a resolved move is legal");
                let value = if depth == deepest {
                    let bonus = if child.is_checkmate() { INFINITY / 2 } else { 0 };
                    Some(value_of(&child, 1 - side) + bonus)
                } else {
                    by_recursion(&child, depth + 1, limits, counts).map(|found| found.1)
                };
                if let Some(value) = value {
                    if value > score {
                        best = (i, i2);
                        score = value;
                    }
                }
            }
        }
    }
    if let Some(mv) = ensure_legal(position, &from, &to, best.0, best.1 + 1) {
        return Some((Some(mv), -score));
    }
    if depth == 1 {
        if let Some(mv) = ensure_legal(position, &from, &to, 0, 1) {
            return Some((Some(mv), -score));
        }
        return Some((position.first_legal_move(), FALLBACK_SCORE));
    }
    None
}

fn by_machine(bot: &mut ChessBot) -> Option<(Option<Move>, i32)> {
    let mut request = bot.find_best_move(1);
    loop {
        let reply = match request {
            Request::Done { outcome } => return outcome,
            Request::Sources { board } => Reply::Sources(source_rows(&board)),
            Request::Targets { board, squares } => Reply::Targets(target_rows(&board, &squares)),
            Request::Evaluate { position, side } => Reply::Evaluation(value_of(&position, side)),
        };
        request = bot.try_resume(reply).expect("the reply fits the request");
    }
}

#[test]
fn the_machine_finds_what_the_recursion_finds() {
    let openings: [&[(u8, u8)]; 4] = [
        &[],
        &[(12, 28), (52, 36)],
        &[(13, 21), (52, 36), (14, 30)],
        &[(12, 28), (53, 45), (3, 39)],
    ];
    for &limits in &[(1usize, 2usize, 2usize), (2, 3, 2), (3, 2, 2), (3, 4, 1)] {
        for opening in openings.iter() {
            let mut bot =
                ChessBot::with_limits(limits.0, limits.1, limits.2).expect("limits in range");
            replay(&mut bot, opening);
            let position = bot.position();
            let found = by_machine(&mut bot);
            let mut counts = (0, 0);
            let expected = by_recursion(&position, 1, limits, &mut counts);
            assert_eq!(found, expected);
            assert_eq!(bot.nodes(), counts.0);
            assert_eq!(bot.ml_calls(), counts.1);
            if let Some((Some(mv), score)) = found {
                assert!(position.legal(mv));
                assert_eq!(bot.best_move(), mv);
                assert_eq!(bot.best_score(), score);
            }
        }
    }
}
