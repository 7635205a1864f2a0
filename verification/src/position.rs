//! Chess positions and moves.
//!
//! The rules of chess are not written here: the `chess` crate generates the
//! moves. A [`Position`] carries one of its boards, and this module says of each
//! call into the crate what the rest of the library relies on. A position is
//! viewed as the text that its board prints as, and every fact about a position
//! is a fact about that text.

use vstd::prelude::*;

verus! {

/// `Board` of the chess crate, made known as a type whose inside is not looked
/// into: a position carries one, and only the calls below read it.
#[verifier::external_type_specification]
#[verifier::external_body]
pub struct ExBoard(chess::Board);

/// A move: source square, destination square and, for a promotion, the piece.
///
/// Squares count from 0 (a1) along the first rank to 7 (h1) and on to 63 (h8).
/// Pieces count as the rules engine counts them: pawn 0, knight 1, bishop 2,
/// rook 3, queen 4, king 5.
#[derive(Clone, Copy, Debug, PartialEq, Eq)]
pub struct Move {
    pub from: u8,
    pub to: u8,
    pub promotion: Option<u8>,
}

impl Move {
    /// Both squares are on the board and the promotion, if any, is a piece.
    pub open spec fn wf(self) -> bool {
        &&& self.from < 64
        &&& self.to < 64
        &&& self.promotion matches Some(p) ==> p < 6
    }

    /// Whether both squares are on the board and the promotion, if any, is a
    /// piece.
    pub fn in_range(&self) -> (ok: bool)
        ensures
            ok == self.wf(),
    {
        self.from < 64 && self.to < 64 && match self.promotion {
            Some(p) => p < 6,
            None => true,
        }
    }

    /// The move from one square to another that promotes nothing.
    pub open spec fn plain(from: int, to: int) -> Move {
        Move { from: from as u8, to: to as u8, promotion: None }
    }
}

/// How a position stands for the side that is to move.
#[derive(Clone, Copy, Debug, PartialEq, Eq, Structural)]
pub enum Status {
    Ongoing,
    Stalemate,
    Checkmate,
}

/// What a board holds, written as the text that the board prints as: the
/// placement of the pieces, the side to move, the castling rights and the
/// en-passant square.
pub uninterp spec fn board_text(board: chess::Board) -> Seq<char>;

/// The legal moves of the position that prints as `text`, in the order in which
/// the rules engine generates them.
pub uninterp spec fn legal_moves(text: Seq<char>) -> Seq<Move>;

/// Whether the side to move is in check in the position that prints as `text`.
pub uninterp spec fn in_check(text: Seq<char>) -> bool;

/// The text of the position that a legal move leads to.
pub uninterp spec fn text_after(text: Seq<char>, mv: Move) -> Seq<char>;

/// The side to move in the position that prints as `text`: 0 for White, 1 for
/// Black.
pub uninterp spec fn side_index(text: Seq<char>) -> int;

/// The kind of the piece on a square of the position that prints as `text`.
pub uninterp spec fn piece_at(text: Seq<char>, square: int) -> Option<u8>;

/// The colour of the piece on a square of the position that prints as `text`:
/// 0 for White, 1 for Black.
pub uninterp spec fn color_at(text: Seq<char>, square: int) -> Option<u8>;

/// The text of the position in which every game starts.
pub open spec fn start_text() -> Seq<char> {
    "rnbqkbnr/pppppppp/8/8/8/8/PPPPPPPP/RNBQKBNR w KQkq - 0 1"@
}

/// The status that follows from the legal moves and from the check.
pub open spec fn status_of(text: Seq<char>) -> Status {
    if legal_moves(text).len() > 0 {
        Status::Ongoing
    } else if in_check(text) {
        Status::Checkmate
    } else {
        Status::Stalemate
    }
}

/// `Board::default` of the chess crate. Trusted: the board it gives prints as
/// the starting position, which is the text that the crate builds it from.
#[verifier::external_body]
pub(crate) fn board_default() -> (board: chess::Board)
    ensures
        board_text(board) == start_text(),
{
    chess::Board::default()
}

/// `to_string` on a board of the chess crate. Trusted: the text is what
/// [`board_text`] names.
#[verifier::external_body]
pub(crate) fn board_print(board: &chess::Board) -> (text: String)
    ensures
        text@ == board_text(*board),
{
    board.to_string()
}

/// `MoveGen::new_legal(board).len()` of the chess crate. Trusted: it is the
/// number of moves that the generator yields.
#[verifier::external_body]
pub(crate) fn board_move_count(board: &chess::Board) -> (count: usize)
    ensures
        count == legal_moves(board_text(*board)).len(),
{
    chess::MoveGen::new_legal(board).len()
}

/// `MoveGen::new_legal(board).next()` of the chess crate. Trusted: it is the
/// first move that the generator yields, if it yields any, and the squares and
/// the piece of a generated move are in range.
#[verifier::external_body]
pub(crate) fn board_first_move(board: &chess::Board) -> (first: Option<Move>)
    ensures
        first is None <==> legal_moves(board_text(*board)).len() == 0,
        first matches Some(m) ==> m == legal_moves(board_text(*board))[0] && m.wf(),
{
    chess::MoveGen::new_legal(board).next().map(|m| Move {
        from: m.get_source().to_index() as u8,
        to: m.get_dest().to_index() as u8,
        promotion: m.get_promotion().map(|p| p.to_index() as u8),
    })
}

/// `Board::legal` of the chess crate. Trusted: it searches the generated moves
/// for the given one, so it answers whether the move is among them.
#[verifier::external_body]
pub(crate) fn board_legal(board: &chess::Board, mv: Move) -> (legal: bool)
    requires
        mv.wf(),
    ensures
        legal == legal_moves(board_text(*board)).contains(mv),
{
    board.legal(chess::ChessMove::new(
        chess::ALL_SQUARES[mv.from as usize],
        chess::ALL_SQUARES[mv.to as usize],
        mv.promotion.map(|p| chess::ALL_PIECES[p as usize]),
    ))
}

/// `Board::status` of the chess crate. Trusted: a board with a legal move is
/// ongoing; one without is checkmate when the side to move is in check and
/// stalemate when it is not.
#[verifier::external_body]
pub(crate) fn board_status(board: &chess::Board) -> (status: Status)
    ensures
        legal_moves(board_text(*board)).len() > 0 ==> status == Status::Ongoing,
        legal_moves(board_text(*board)).len() == 0 && in_check(board_text(*board)) ==> status
            == Status::Checkmate,
        legal_moves(board_text(*board)).len() == 0 && !in_check(board_text(*board)) ==> status
            == Status::Stalemate,
{
    match board.status() {
        chess::BoardStatus::Ongoing => Status::Ongoing,
        chess::BoardStatus::Stalemate => Status::Stalemate,
        chess::BoardStatus::Checkmate => Status::Checkmate,
    }
}

/// `Board::make_move_new` of the chess crate, which must not be given an
/// illegal move. Trusted: the board it gives depends on the board and the move
/// alone.
#[verifier::external_body]
pub(crate) fn board_after(board: &chess::Board, mv: Move) -> (next: chess::Board)
    requires
        mv.wf(),
        legal_moves(board_text(*board)).contains(mv),
    ensures
        board_text(next) == text_after(board_text(*board), mv),
{
    board.make_move_new(chess::ChessMove::new(
        chess::ALL_SQUARES[mv.from as usize],
        chess::ALL_SQUARES[mv.to as usize],
        mv.promotion.map(|p| chess::ALL_PIECES[p as usize]),
    ))
}

/// `Board::side_to_move` of the chess crate, as the index of the colour.
/// Trusted: the index is 0 or 1.
#[verifier::external_body]
pub(crate) fn board_side(board: &chess::Board) -> (side: usize)
    ensures
        side == side_index(board_text(*board)),
        side < 2,
{
    board.side_to_move().to_index()
}

/// `Board::piece_on` of the chess crate, as the index of the piece. Trusted:
/// the index is below 6.
#[verifier::external_body]
pub(crate) fn board_piece(board: &chess::Board, square: u8) -> (piece: Option<u8>)
    requires
        square < 64,
    ensures
        piece == piece_at(board_text(*board), square as int),
        piece matches Some(p) ==> p < 6,
{
    board.piece_on(chess::ALL_SQUARES[square as usize]).map(|p| p.to_index() as u8)
}

/// `Board::color_on` of the chess crate, as the index of the colour. Trusted:
/// the index is 0 or 1.
#[verifier::external_body]
pub(crate) fn board_color(board: &chess::Board, square: u8) -> (color: Option<u8>)
    requires
        square < 64,
    ensures
        color == color_at(board_text(*board), square as int),
        color matches Some(c) ==> c < 2,
{
    board.color_on(chess::ALL_SQUARES[square as usize]).map(|c| c.to_index() as u8)
}

/// A chess position: the pieces, the side to move, the castling rights and the
/// en-passant square. Its view is the text that it prints as.
#[derive(Clone, Copy, Debug)]
pub struct Position {
    board: chess::Board,
}

impl View for Position {
    type V = Seq<char>;

    closed spec fn view(&self) -> Seq<char> {
        board_text(self.board)
    }
}

impl Position {
    /// The position in which every game starts.
    pub fn start() -> (position: Position)
        ensures
            position@ == start_text(),
    {
        Position { board: board_default() }
    }

    /// The text of the position.
    pub fn fen(&self) -> (text: String)
        ensures
            text@ == self@,
    {
        board_print(&self.board)
    }

    /// The side to move: 0 for White, 1 for Black.
    pub fn side_to_move(&self) -> (side: usize)
        ensures
            side == side_index(self@),
            side < 2,
    {
        board_side(&self.board)
    }

    /// The number of legal moves.
    pub fn legal_move_count(&self) -> (count: usize)
        ensures
            count == legal_moves(self@).len(),
    {
        board_move_count(&self.board)
    }

    /// The first legal move in the order of the rules engine, if there is one.
    pub fn first_legal_move(&self) -> (first: Option<Move>)
        ensures
            first is None <==> legal_moves(self@).len() == 0,
            first matches Some(m) ==> m == legal_moves(self@)[0] && m.wf() && legal_moves(
                self@,
            ).contains(m),
    {
        board_first_move(&self.board)
    }

    /// Whether a move is legal. A move with a square or a piece out of range is
    /// not.
    pub fn legal(&self, mv: Move) -> (legal: bool)
        ensures
            legal == (mv.wf() && legal_moves(self@).contains(mv)),
    {
        mv.in_range() && board_legal(&self.board, mv)
    }

    /// Ongoing, stalemate or checkmate.
    pub fn status(&self) -> (status: Status)
        ensures
            status == status_of(self@),
    {
        board_status(&self.board)
    }

    /// Whether the side to move is checkmated.
    pub fn is_checkmate(&self) -> (mate: bool)
        ensures
            mate == (status_of(self@) == Status::Checkmate),
    {
        match board_status(&self.board) {
            Status::Checkmate => true,
            _ => false,
        }
    }

    /// The position after a legal move.
    pub fn apply(&self, mv: Move) -> (next: Position)
        requires
            mv.wf(),
            legal_moves(self@).contains(mv),
        ensures
            next@ == text_after(self@, mv),
    {
        Position { board: board_after(&self.board, mv) }
    }

    /// The position after a move, if the move is legal.
    pub fn play(&self, mv: Move) -> (next: Option<Position>)
        ensures
            next is Some <==> mv.wf() && legal_moves(self@).contains(mv),
            next matches Some(p) ==> p@ == text_after(self@, mv),
    {
        if self.legal(mv) {
            Some(self.apply(mv))
        } else {
            None
        }
    }

    /// The kind of the piece on a square, if one stands there.
    pub fn piece_on(&self, square: u8) -> (piece: Option<u8>)
        requires
            square < 64,
        ensures
            piece == piece_at(self@, square as int),
            piece matches Some(p) ==> p < 6,
    {
        board_piece(&self.board, square)
    }

    /// The colour of the piece on a square, if one stands there: 0 for White, 1
    /// for Black.
    pub fn color_on(&self, square: u8) -> (color: Option<u8>)
        requires
            square < 64,
        ensures
            color == color_at(self@, square as int),
            color matches Some(c) ==> c < 2,
    {
        board_color(&self.board, square)
    }
}

} // verus!
