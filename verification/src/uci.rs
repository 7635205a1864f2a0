//! The text side of the engine: square and move names, and the lines that a
//! chess interface sends.

use crate::mlchess::rows;
use crate::position::Move;
use vstd::prelude::*;
use vstd::string::*;

verus! {

/// The bytes of a text of plain characters.
pub open spec fn ascii(text: Seq<char>) -> Seq<u8> {
    Seq::new(text.len(), |i: int| text[i] as u8)
}

/// The name of a square: the letter of its file and the digit of its rank.
pub open spec fn square_name(square: int) -> Seq<char> {
    seq!["abcdefgh"@[square % 8], "12345678"@[square / 8]]
}

/// The name of a move: the names of its two squares and, for a promotion, the
/// letter of the piece.
pub open spec fn move_name(mv: Move) -> Seq<char> {
    match mv.promotion {
        Some(piece) => square_name(mv.from as int) + square_name(mv.to as int) + seq![
            "pnbrqk"@[piece as int],
        ],
        None => square_name(mv.from as int) + square_name(mv.to as int),
    }
}

/// Names a square of the board, 0 to 63: `a1` for 0, `b1` for 1, `h8` for 63.
pub fn square_text(square: u8) -> (text: String)
    requires
        square < 64,
    ensures
        text@ == square_name(square as int),
{
    let files = "abcdefgh";
    let ranks = "12345678";
    proof {
        reveal_strlit("abcdefgh");
        reveal_strlit("12345678");
    }
    let file = (square % 8) as usize;
    let rank = (square / 8) as usize;
    let mut text = String::from_str(files.substring_ascii(file, file + 1));
    text.append(ranks.substring_ascii(rank, rank + 1));
    text
}

/// Names a move as a chess interface reads it: `e2e4`, `e7e8q`.
pub fn move_text(mv: Move) -> (text: String)
    requires
        mv.wf(),
    ensures
        text@ == move_name(mv),
{
    let mut text = square_text(mv.from);
    let to = square_text(mv.to);
    text.append(to.as_str());
    match mv.promotion {
        Some(piece) => {
            let pieces = "pnbrqk";
            proof {
                reveal_strlit("pnbrqk");
            }
            let k = piece as usize;
            text.append(pieces.substring_ascii(k, k + 1));
        },
        None => {},
    }
    text
}

/// Whether a byte is the letter of a file, `a` to `h`.
pub open spec fn is_file(byte: u8) -> bool {
    97 <= byte <= 104
}

/// Whether a byte is the digit of a rank, `1` to `8`.
pub open spec fn is_rank(byte: u8) -> bool {
    49 <= byte <= 56
}

/// The square that a file letter and a rank digit name.
pub open spec fn square_at(file: u8, rank: u8) -> u8 {
    ((rank - 49) * 8 + (file - 97)) as u8
}

/// The piece that a promotion letter names: `n`, `b`, `r` or `q`.
pub open spec fn promotion_of(byte: u8) -> Option<u8> {
    if byte == 110 {
        Some(1u8)
    } else if byte == 98 {
        Some(2u8)
    } else if byte == 114 {
        Some(3u8)
    } else if byte == 113 {
        Some(4u8)
    } else {
        None
    }
}

/// The move that a text names, if it names one: two squares and, in a text of
/// five bytes, a promotion letter. What follows in a longer text counts for
/// nothing.
pub open spec fn named_move(text: Seq<u8>) -> Option<Move> {
    if text.len() >= 4 && is_file(text[0]) && is_rank(text[1]) && is_file(text[2]) && is_rank(
        text[3],
    ) {
        let from = square_at(text[0], text[1]);
        let to = square_at(text[2], text[3]);
        if text.len() == 5 {
            match promotion_of(text[4]) {
                Some(piece) => Some(Move { from, to, promotion: Some(piece) }),
                None => None,
            }
        } else {
            Some(Move { from, to, promotion: None })
        }
    } else {
        None
    }
}

/// Reads a move from its name.
pub fn parse_move(text: &[u8]) -> (parsed: Option<Move>)
    ensures
        parsed == named_move(text@),
        parsed matches Some(mv) ==> mv.wf(),
{
    if text.len() < 4 {
        return None;
    }
    let (f0, r0, f1, r1) = (text[0], text[1], text[2], text[3]);
    if !(97 <= f0 && f0 <= 104 && 49 <= r0 && r0 <= 56 && 97 <= f1 && f1 <= 104 && 49 <= r1 && r1
        <= 56) {
        return None;
    }
    let from = (r0 - 49) * 8 + (f0 - 97);
    let to = (r1 - 49) * 8 + (f1 - 97);
    if text.len() == 5 {
        let letter = text[4];
        let piece: u8 = if letter == 110 {
            1
        } else if letter == 98 {
            2
        } else if letter == 114 {
            3
        } else if letter == 113 {
            4
        } else {
            return None;
        };
        Some(Move { from, to, promotion: Some(piece) })
    } else {
        Some(Move { from, to, promotion: None })
    }
}

/// The name of a move reads back as the move: for every move in range that
/// promotes to nothing or to a knight, a bishop, a rook or a queen.
pub proof fn move_names_read_back(mv: Move)
    requires
        mv.wf(),
        mv.promotion matches Some(piece) ==> 1 <= piece <= 4,
    ensures
        named_move(ascii(move_name(mv))) == Some(mv),
{
    reveal_strlit("abcdefgh");
    reveal_strlit("12345678");
    reveal_strlit("pnbrqk");
    let text = ascii(move_name(mv));
    let from = mv.from as int;
    let to = mv.to as int;
    assert(text[0] == 97 + from % 8 && text[1] == 49 + from / 8);
    assert(text[2] == 97 + to % 8 && text[3] == 49 + to / 8);
    match mv.promotion {
        Some(piece) => {
            assert(text.len() == 5 && text[4] == "pnbrqk"@[piece as int] as u8);
        },
        None => {
            assert(text.len() == 4);
        },
    }
}

/// The words of a text: what stands between its blanks. A text without a blank
/// is one word, and two blanks in a row hold an empty word between them.
pub open spec fn words(text: Seq<u8>) -> Seq<Seq<u8>>
    decreases text.len(),
{
    if text.len() == 0 {
        seq![Seq::empty()]
    } else {
        let before = words(text.drop_last());
        if text.last() == 32 {
            before.push(Seq::empty())
        } else {
            before.drop_last().push(before.last().push(text.last()))
        }
    }
}

/// Splits a text at its blanks.
pub fn split_words(text: &[u8]) -> (list: Vec<Vec<u8>>)
    ensures
        rows(list@) == words(text@),
{
    let mut done: Vec<Vec<u8>> = Vec::new();
    let mut word: Vec<u8> = Vec::new();
    let mut i: usize = 0;
    while i < text.len()
        invariant
            i <= text@.len(),
            rows(done@).push(word@) == words(text@.subrange(0, i as int)),
        decreases text@.len() - i,
    {
        let ghost upto = text@.subrange(0, i + 1);
        assert(upto.drop_last() =~= text@.subrange(0, i as int));
        let ghost before = rows(done@).push(word@);
        if text[i] == 32 {
            done.push(word);
            word = Vec::new();
            assert(rows(done@).push(word@) =~= before.push(Seq::empty()));
        } else {
            word.push(text[i]);
            assert(rows(done@).push(word@) =~= before.drop_last().push(
                before.last().push(text@[i as int]),
            ));
        }
        i += 1;
    }
    assert(text@.subrange(0, i as int) =~= text@);
    done.push(word);
    done
}

/// The moves that words name, if each names one.
pub open spec fn named_moves(list: Seq<Seq<u8>>) -> Option<Seq<Move>>
    decreases list.len(),
{
    if list.len() == 0 {
        Some(Seq::empty())
    } else {
        match (named_moves(list.drop_last()), named_move(list.last())) {
            (Some(moves), Some(mv)) => Some(moves.push(mv)),
            _ => None,
        }
    }
}

/// What a line asks of the engine.
#[derive(Debug, PartialEq, Eq)]
pub enum Command {
    /// `uci`: the engine names itself and its options.
    Uci,
    /// `isready`: the engine says that it is ready.
    IsReady,
    /// `ucinewgame`: the starting position.
    NewGame,
    /// `quit`: the end.
    Quit,
    /// `benchmark`: speed is measured.
    Benchmark,
    /// `test`: the predictors are tried.
    Test,
    /// `position startpos`: the starting position.
    Start,
    /// `position`, two more words and then moves: the starting position with
    /// the moves made on it.
    Moves(Vec<Move>),
    /// `position` with fewer than three words, or with a word in the place of
    /// a move that names none.
    Malformed,
    /// `go`: the best move is searched.
    Go,
    /// Any other line.
    Other,
}

/// What a line asks of the engine, with the moves as a sequence.
pub ghost enum Order {
    Uci,
    IsReady,
    NewGame,
    Quit,
    Benchmark,
    Test,
    Start,
    Moves(Seq<Move>),
    Malformed,
    Go,
    Other,
}

impl View for Command {
    type V = Order;

    open spec fn view(&self) -> Order {
        match *self {
            Command::Uci => Order::Uci,
            Command::IsReady => Order::IsReady,
            Command::NewGame => Order::NewGame,
            Command::Quit => Order::Quit,
            Command::Benchmark => Order::Benchmark,
            Command::Test => Order::Test,
            Command::Start => Order::Start,
            Command::Moves(list) => Order::Moves(list@),
            Command::Malformed => Order::Malformed,
            Command::Go => Order::Go,
            Command::Other => Order::Other,
        }
    }
}

/// Whether a line begins with a word.
pub open spec fn begins_with(line: Seq<u8>, word: Seq<char>) -> bool {
    line.len() >= word.len() && line.subrange(0, word.len() as int) == ascii(word)
}

/// What a line with its line end asks of the engine.
///
/// The six plain commands are whole lines. A line of 18 to 23 bytes that begins
/// with `position startpos` sets up the start. Any other line of more than 8
/// bytes that begins with `position` is cut of its last byte and split at its
/// blanks; the words after the third are moves. A line that begins with `go`
/// asks for a search.
pub open spec fn order_of(line: Seq<u8>) -> Order {
    if line == ascii("uci\n"@) {
        Order::Uci
    } else if line == ascii("isready\n"@) {
        Order::IsReady
    } else if line == ascii("ucinewgame\n"@) {
        Order::NewGame
    } else if line == ascii("quit\n"@) {
        Order::Quit
    } else if line == ascii("benchmark\n"@) {
        Order::Benchmark
    } else if line == ascii("test\n"@) {
        Order::Test
    } else if 18 <= line.len() < 24 && begins_with(line, "position startpos"@) {
        Order::Start
    } else if line.len() > 8 && begins_with(line, "position"@) {
        let list = words(line.drop_last());
        if list.len() < 3 {
            Order::Malformed
        } else {
            match named_moves(list.subrange(3, list.len() as int)) {
                Some(moves) => Order::Moves(moves),
                None => Order::Malformed,
            }
        }
    } else if line.len() >= 2 && begins_with(line, "go"@) {
        Order::Go
    } else {
        Order::Other
    }
}

fn is_word(line: &[u8], word: &str) -> (same: bool)
    requires
        word.is_ascii(),
    ensures
        same == (line@ == ascii(word@)),
{
    broadcast use is_ascii_spec_bytes;

    let bytes = word.as_bytes();
    if line.len() != bytes.len() {
        return false;
    }
    let mut i: usize = 0;
    while i < line.len()
        invariant
            i <= line@.len(),
            line@.len() == bytes@.len(),
            bytes@ == ascii(word@),
            forall|k: int| 0 <= k < i ==> line@[k] == bytes@[k],
        decreases line@.len() - i,
    {
        if line[i] != bytes[i] {
            return false;
        }
        i += 1;
    }
    assert(line@ =~= bytes@);
    true
}

fn has_prefix(line: &[u8], word: &str) -> (same: bool)
    requires
        word.is_ascii(),
    ensures
        same == begins_with(line@, word@),
{
    broadcast use is_ascii_spec_bytes;

    let bytes = word.as_bytes();
    if line.len() < bytes.len() {
        return false;
    }
    let mut i: usize = 0;
    while i < bytes.len()
        invariant
            i <= bytes@.len() <= line@.len(),
            bytes@ == ascii(word@),
            bytes@.len() == word@.len(),
            forall|k: int| 0 <= k < i ==> line@[k] == bytes@[k],
        decreases bytes@.len() - i,
    {
        if line[i] != bytes[i] {
            return false;
        }
        i += 1;
    }
    assert(line@.subrange(0, bytes@.len() as int) =~= bytes@);
    true
}

/// Reads what a line with its line end asks of the engine.
#[verifier::loop_isolation(false)]
pub fn parse_command(line: &[u8]) -> (command: Command)
    ensures
        command@ == order_of(line@),
        command matches Command::Moves(list) ==> forall|k: int|
            0 <= k < list@.len() ==> (#[trigger] list@[k]).wf(),
{
    proof {
        reveal_strlit("uci\n");
        reveal_strlit("isready\n");
        reveal_strlit("ucinewgame\n");
        reveal_strlit("quit\n");
        reveal_strlit("benchmark\n");
        reveal_strlit("test\n");
        reveal_strlit("position startpos");
        reveal_strlit("position");
        reveal_strlit("go");
    }
    if is_word(line, "uci\n") {
        Command::Uci
    } else if is_word(line, "isready\n") {
        Command::IsReady
    } else if is_word(line, "ucinewgame\n") {
        Command::NewGame
    } else if is_word(line, "quit\n") {
        Command::Quit
    } else if is_word(line, "benchmark\n") {
        Command::Benchmark
    } else if is_word(line, "test\n") {
        Command::Test
    } else if line.len() >= 18 && line.len() < 24 && has_prefix(line, "position startpos") {
        Command::Start
    } else if line.len() > 8 && has_prefix(line, "position") {
        let cut = vstd::slice::slice_subrange(line, 0, line.len() - 1);
        let list = split_words(cut);
        if list.len() < 3 {
            return Command::Malformed;
        }
        let ghost named = rows(list@).subrange(3, list@.len() as int);
        let mut moves: Vec<Move> = Vec::new();
        let mut k: usize = 3;
        while k < list.len()
            invariant
                3 <= k <= list@.len(),
                named == rows(list@).subrange(3, list@.len() as int),
                named_moves(named.subrange(0, k - 3)) == Some(moves@),
                forall|j: int| 0 <= j < moves@.len() ==> (#[trigger] moves@[j]).wf(),
            decreases list@.len() - k,
        {
            let ghost upto = named.subrange(0, k - 3 + 1);
            assert(upto.drop_last() =~= named.subrange(0, k - 3));
            match parse_move(list[k].as_slice()) {
                Some(mv) => {
                    moves.push(mv);
                },
                None => {
                    proof {
                        named_moves_fail_on(named, k - 3 + 1);
                    }
                    return Command::Malformed;
                },
            }
            k += 1;
        }
        assert(named.subrange(0, k - 3) =~= named);
        Command::Moves(moves)
    } else if line.len() >= 2 && has_prefix(line, "go") {
        Command::Go
    } else {
        Command::Other
    }
}

/// Words whose beginning names no moves name none.
proof fn named_moves_fail_on(list: Seq<Seq<u8>>, upto: int)
    requires
        0 <= upto <= list.len(),
        named_moves(list.subrange(0, upto)) is None,
    ensures
        named_moves(list) is None,
    decreases list.len() - upto,
{
    if upto < list.len() {
        assert(list.subrange(0, upto + 1).drop_last() =~= list.subrange(0, upto));
        named_moves_fail_on(list, upto + 1);
    } else {
        assert(list.subrange(0, upto) =~= list);
    }
}

} // verus!
