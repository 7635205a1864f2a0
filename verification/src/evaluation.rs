//! A static evaluation by material.
//!
//! The search takes the value of a leaf from whoever drives it. This module
//! offers the plainest evaluator to answer with: the worth of a side's pieces
//! less the worth of the other side's.

use crate::position::{color_at, piece_at, status_of, Position, Status};
use crate::search::{leaf_value, terminal_value};
use vstd::prelude::*;

verus! {

/// The worth of a kind of piece: 100 for a pawn, 320 for a knight, 330 for a
/// bishop, 500 for a rook, 900 for a queen, nothing for a king.
pub open spec fn piece_worth(piece: int) -> int {
    if piece == 0 {
        100
    } else if piece == 1 {
        320
    } else if piece == 2 {
        330
    } else if piece == 3 {
        500
    } else if piece == 4 {
        900
    } else {
        0
    }
}

/// What one square adds to the worth of a side: the worth of the piece on it,
/// counted for the side when the piece has its colour and against the side
/// when not.
pub open spec fn square_worth(color: Option<u8>, piece: Option<u8>, side: int) -> int {
    match (color, piece) {
        (Some(c), Some(p)) => if c == side {
            piece_worth(p as int)
        } else {
            -piece_worth(p as int)
        },
        _ => 0,
    }
}

/// The material of a side on the squares below `upto` of the position that
/// prints as `text`.
pub open spec fn material(text: Seq<char>, side: int, upto: int) -> int
    decreases upto,
{
    if upto <= 0 {
        0
    } else {
        material(text, side, upto - 1) + square_worth(
            color_at(text, upto - 1),
            piece_at(text, upto - 1),
            side,
        )
    }
}

/// No square is worth more than a queen, so the material of `upto` squares
/// stays within 900 for each.
pub proof fn material_is_bounded(text: Seq<char>, side: int, upto: int)
    requires
        0 <= upto,
    ensures
        -900 * upto <= material(text, side, upto) <= 900 * upto,
    decreases upto,
{
    if upto > 0 {
        material_is_bounded(text, side, upto - 1);
    }
}

/// The worth of a kind of piece.
fn worth(piece: u8) -> (value: i32)
    ensures
        value == piece_worth(piece as int),
{
    match piece {
        0 => 100,
        1 => 320,
        2 => 330,
        3 => 500,
        4 => 900,
        _ => 0,
    }
}

/// Evaluates a position for a side, 0 for White and 1 for Black: the material
/// of the side on the board. Larger is better for the side.
pub fn eval_pos(board: &Position, side: usize) -> (value: i32)
    ensures
        value == material(board@, side as int, 64),
        -57600 <= value <= 57600,
{
    let mut value: i32 = 0;
    let mut square: u8 = 0;
    while square < 64
        invariant
            square <= 64,
            value == material(board@, side as int, square as int),
            -900 * square <= value <= 900 * square,
        decreases 64 - square,
    {
        let here: i32 = match (board.color_on(square), board.piece_on(square)) {
            (Some(c), Some(p)) => if c as usize == side {
                worth(p)
            } else {
                -worth(p)
            },
            _ => 0,
        };
        value = value + here;
        square += 1;
    }
    value
}

/// The scores of a checkmate stand above this evaluation: whatever position
/// is evaluated for whatever side, the terminal score of a checkmate and the
/// score of a leaf that is a checkmate are greater than the value's size.
pub proof fn mate_scores_exceed_material(text: Seq<char>, side: int, leaf: Seq<char>)
    requires
        status_of(leaf) == Status::Checkmate,
    ensures
        terminal_value(leaf) > material(text, side, 64),
        terminal_value(leaf) > -material(text, side, 64),
        leaf_value(material(text, side, 64), leaf) > material(text, side, 64),
        leaf_value(material(text, side, 64), leaf) > -material(text, side, 64),
        leaf_value(material(text, side, 64), leaf) <= i32::MAX,
{
    material_is_bounded(text, side, 64);
}

} // verus!
