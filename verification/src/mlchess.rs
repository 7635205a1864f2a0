//! Board encoding for the predictors and ranking of their scores.
//!
//! A predictor scores the 64 squares. A ranking lists the squares from the
//! highest score down; squares of equal score stay in ascending order.

use crate::position::{color_at, piece_at, Position};
use vstd::prelude::*;
use vstd::slice::slice_subrange;

verus! {

/// The predictors' numbering of a piece kind, from the board's numbering
/// (pawn 0, knight 1, bishop 2, rook 3, queen 4, king 5): the knight and the
/// bishop, which stand next to each other in that numbering, change places,
/// and every other number stays.
pub open spec fn spec_swap_piece(piece: int) -> int {
    if piece == 1 {
        2
    } else if piece == 2 {
        1
    } else {
        piece
    }
}

/// Renumbers a piece kind for the predictors: the knight and the bishop change
/// places.
pub fn swap_piece(piece: i32) -> (code: i32)
    ensures
        code == spec_swap_piece(piece as int),
{
    match piece {
        1 => 2,
        2 => 1,
        _ => piece,
    }
}

/// The renumbering is an exchange of two neighbours: done twice it gives every
/// number back, and the numbers that it moves are 1 and 2 and no others, each
/// to the other.
pub proof fn swap_piece_is_its_own_inverse(piece: int)
    ensures
        spec_swap_piece(spec_swap_piece(piece)) == piece,
        spec_swap_piece(piece) != piece <==> piece == 1 || piece == 2,
        spec_swap_piece(1) == 2 && spec_swap_piece(2) == 1,
        0 <= piece <= 5 ==> 0 <= spec_swap_piece(piece) <= 5,
{
}

/// The code of one square: 0 when it is empty, 1 to 6 for a white piece and 7
/// to 12 for a black one, by the renumbered kind of the piece.
pub open spec fn square_code(color: Option<u8>, piece: Option<u8>) -> int {
    match (color, piece) {
        (Some(c), Some(p)) => if c == 0 {
            1 + spec_swap_piece(p as int)
        } else {
            7 + spec_swap_piece(p as int)
        },
        _ => 0,
    }
}

/// The codes of the 64 squares of the position that prints as `text`.
pub open spec fn encoding(text: Seq<char>) -> Seq<i32> {
    Seq::new(64, |sq: int| square_code(color_at(text, sq), piece_at(text, sq)) as i32)
}

/// Encodes a position for the predictors: one code for each square.
pub fn encode_board(board: &Position) -> (out: [i32; 64])
    ensures
        out@ == encoding(board@),
        forall|sq: int| 0 <= sq < 64 ==> 0 <= #[trigger] out@[sq] <= 12,
{
    let mut out: [i32; 64] = [0; 64];
    let mut sq: u8 = 0;
    while sq < 64
        invariant
            sq <= 64,
            forall|k: int| 0 <= k < sq ==> out@[k] == #[trigger] encoding(board@)[k],
            forall|k: int| 0 <= k < sq ==> 0 <= #[trigger] out@[k] <= 12,
        decreases 64 - sq,
    {
        let code: i32 = match (board.color_on(sq), board.piece_on(sq)) {
            (Some(c), Some(p)) => if c == 0 {
                1 + swap_piece(p as i32)
            } else {
                7 + swap_piece(p as i32)
            },
            _ => 0,
        };
        out[sq as usize] = code;
        sq += 1;
    }
    out
}

/// The rows of a table, each as a sequence.
pub open spec fn rows<T>(table: Seq<Vec<T>>) -> Seq<Seq<T>> {
    Seq::new(table.len(), |r: int| table[r]@)
}

/// Whether square `a` goes before square `b`: by the higher score, and between
/// equal scores by the lower square.
pub open spec fn ranks_before(scores: Seq<i64>, a: int, b: int) -> bool {
    scores[a] > scores[b] || (scores[a] == scores[b] && a < b)
}

/// Whether a square occurs in a list.
pub open spec fn occurs(order: Seq<usize>, square: int) -> bool {
    exists|i: int| 0 <= i < order.len() && order[i] == square
}

/// Whether `order` is the ranking of `scores`: it lists every index of
/// `scores`, each before all those that it goes before.
pub open spec fn is_ranking(scores: Seq<i64>, order: Seq<usize>) -> bool {
    &&& order.len() == scores.len()
    &&& forall|i: int| 0 <= i < order.len() ==> #[trigger] order[i] < scores.len()
    &&& forall|i: int, j: int|
        0 <= i < j < order.len() ==> ranks_before(
            scores,
            #[trigger] order[i] as int,
            #[trigger] order[j] as int,
        )
    &&& forall|s: int| 0 <= s < scores.len() ==> occurs(order, s)
}

/// The ranking of `scores`.
pub open spec fn ranking_of(scores: Seq<i64>) -> Seq<usize> {
    choose|order: Seq<usize>| is_ranking(scores, order)
}

/// Ranks the indices of `scores` from the highest score down; equal scores
/// keep their indices in ascending order.
pub fn rank_squares(scores: &[i64]) -> (order: Vec<usize>)
    ensures
        is_ranking(scores@, order@),
        order@ == ranking_of(scores@),
{
    let n = scores.len();
    let mut order: Vec<usize> = Vec::new();
    let mut k: usize = 0;
    while k < n
        invariant
            k <= n,
            n == scores@.len(),
            order@.len() == k,
            forall|i: int| 0 <= i < k ==> #[trigger] order@[i] < k,
            forall|i: int, j: int|
                0 <= i < j < k ==> ranks_before(
                    scores@,
                    #[trigger] order@[i] as int,
                    #[trigger] order@[j] as int,
                ),
            forall|s: int| 0 <= s < k ==> occurs(order@, s),
        decreases n - k,
    {
        let mut p: usize = 0;
        while p < k && scores[order[p]] >= scores[k]
            invariant
                p <= k,
                k < n,
                n == scores@.len(),
                order@.len() == k,
                forall|i: int| 0 <= i < k ==> #[trigger] order@[i] < k,
                forall|i: int|
                    0 <= i < p ==> scores@[#[trigger] order@[i] as int] >= scores@[k as int],
            decreases k - p,
        {
            p += 1;
        }
        let ghost before = order@;
        order.insert(p, k);
        proof {
            assert forall|s: int| 0 <= s < k + 1 implies occurs(order@, s) by {
                if s == k {
                    assert(order@[p as int] == s);
                } else {
                    assert(occurs(before, s));
                    let i = choose|i: int| 0 <= i < before.len() && before[i] == s;
                    if i < p {
                        assert(order@[i] == s);
                    } else {
                        assert(order@[i + 1] == s);
                    }
                }
            }
        }
        k += 1;
    }
    proof {
        assert(is_ranking(scores@, order@));
        ranking_is_unique(scores@, order@, ranking_of(scores@));
    }
    order
}

/// The ranking of given scores is one list and no other: equal scores give
/// equal rankings, and squares of equal score keep their order.
pub proof fn ranking_is_unique(scores: Seq<i64>, a: Seq<usize>, b: Seq<usize>)
    requires
        is_ranking(scores, a),
        is_ranking(scores, b),
    ensures
        a == b,
{
    ranking_prefix_agrees(scores, a, b, a.len() as int);
}

proof fn ranking_prefix_agrees(scores: Seq<i64>, a: Seq<usize>, b: Seq<usize>, upto: int)
    requires
        is_ranking(scores, a),
        is_ranking(scores, b),
        0 <= upto <= a.len(),
    ensures
        forall|i: int| 0 <= i < upto ==> a[i] == b[i],
    decreases upto,
{
    if upto > 0 {
        ranking_prefix_agrees(scores, a, b, upto - 1);
        let i = upto - 1;
        let x = a[i];
        let y = b[i];
        if x != y {
            // Each list holds the other's square further on, so each square
            // would go before the other.
            assert(occurs(b, x as int));
            let j = choose|j: int| 0 <= j < b.len() && b[j] == x;
            assert(occurs(a, y as int));
            let k = choose|k: int| 0 <= k < a.len() && a[k] == y;
            assert(i < j && ranks_before(scores, y as int, x as int));
            assert(i < k && ranks_before(scores, x as int, y as int));
        }
    }
}

/// For each predicted row of 128 scores, the ranking of its first 64 (White's
/// source squares) and the ranking of its next 64 (Black's).
pub fn best_from(outputs: &Vec<Vec<i64>>) -> (rankings: Vec<[Vec<usize>; 2]>)
    requires
        forall|b: int| 0 <= b < outputs@.len() ==> #[trigger] outputs@[b]@.len() >= 128,
    ensures
        rankings@.len() == outputs@.len(),
        forall|b: int|
            0 <= b < outputs@.len() ==> (#[trigger] rankings@[b])@[0]@ == ranking_of(
                outputs@[b]@.subrange(0, 64),
            ) && rankings@[b]@[1]@ == ranking_of(outputs@[b]@.subrange(64, 128)),
        forall|b: int|
            0 <= b < outputs@.len() ==> is_ranking(
                outputs@[b]@.subrange(0, 64),
                (#[trigger] rankings@[b])@[0]@,
            ) && is_ranking(outputs@[b]@.subrange(64, 128), rankings@[b]@[1]@),
{
    let mut rankings: Vec<[Vec<usize>; 2]> = Vec::new();
    let mut b: usize = 0;
    while b < outputs.len()
        invariant
            b <= outputs@.len(),
            rankings@.len() == b,
            forall|r: int| 0 <= r < outputs@.len() ==> #[trigger] outputs@[r]@.len() >= 128,
            forall|r: int|
                0 <= r < b ==> is_ranking(
                    outputs@[r]@.subrange(0, 64),
                    (#[trigger] rankings@[r])@[0]@,
                ) && is_ranking(outputs@[r]@.subrange(64, 128), rankings@[r]@[1]@),
            forall|r: int|
                0 <= r < b ==> (#[trigger] rankings@[r])@[0]@ == ranking_of(
                    outputs@[r]@.subrange(0, 64),
                ) && rankings@[r]@[1]@ == ranking_of(outputs@[r]@.subrange(64, 128)),
        decreases outputs@.len() - b,
    {
        let row = outputs[b].as_slice();
        let white = rank_squares(slice_subrange(row, 0, 64));
        let black = rank_squares(slice_subrange(row, 64, 128));
        rankings.push([white, black]);
        b += 1;
    }
    rankings
}

/// For each predicted row of destination scores, its ranking.
pub fn best_to(outputs: &Vec<Vec<i64>>) -> (rankings: Vec<Vec<usize>>)
    ensures
        rankings@.len() == outputs@.len(),
        forall|r: int|
            0 <= r < outputs@.len() ==> (#[trigger] rankings@[r])@ == ranking_of(outputs@[r]@),
        forall|r: int|
            0 <= r < outputs@.len() ==> is_ranking(outputs@[r]@, (#[trigger] rankings@[r])@),
{
    let mut rankings: Vec<Vec<usize>> = Vec::new();
    let mut r: usize = 0;
    while r < outputs.len()
        invariant
            r <= outputs@.len(),
            rankings@.len() == r,
            forall|k: int|
                0 <= k < r ==> is_ranking(outputs@[k]@, (#[trigger] rankings@[k])@),
            forall|k: int|
                0 <= k < r ==> (#[trigger] rankings@[k])@ == ranking_of(outputs@[k]@),
        decreases outputs@.len() - r,
    {
        let ranking = rank_squares(outputs[r].as_slice());
        rankings.push(ranking);
        r += 1;
    }
    rankings
}

} // verus!
