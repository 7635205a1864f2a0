//! From two rankings to a legal move.
//!
//! A source ranking and, for each examined source, a destination ranking name
//! candidate moves. The resolver scans the destinations of one source in rank
//! order, counts those that make a legal move, and stops at the hit that was
//! asked for.

use crate::mlchess::rows;
use crate::position::{legal_moves, Move, Position};
use vstd::prelude::*;

verus! {

/// Whether the move from `source` to the `k`-th ranked destination is legal
/// in the position that prints as `text`.
pub open spec fn is_hit(text: Seq<char>, source: int, targets: Seq<usize>, k: int) -> bool {
    legal_moves(text).contains(Move::plain(source, targets[k] as int))
}

/// The number of legal hits among the ranked destinations from scan position
/// `start` up to the 64th.
pub open spec fn hit_count(text: Seq<char>, source: int, targets: Seq<usize>, start: int) -> nat
    decreases 64 - start,
{
    if start >= 64 {
        0
    } else if is_hit(text, source, targets, start) {
        1 + hit_count(text, source, targets, start + 1)
    } else {
        hit_count(text, source, targets, start + 1)
    }
}

/// The scan position, from `start` on, of the legal hit that is the `need`-th
/// from there; a `need` below 1 asks for the first.
pub open spec fn scan(
    text: Seq<char>,
    source: int,
    targets: Seq<usize>,
    start: int,
    need: int,
) -> Option<int>
    decreases 64 - start,
{
    if start >= 64 {
        None
    } else if is_hit(text, source, targets, start) {
        if need <= 1 {
            Some(start)
        } else {
            scan(text, source, targets, start + 1, need - 1)
        }
    } else {
        scan(text, source, targets, start + 1, need)
    }
}

/// The move that the pair of a source ordinal and a legal ordinal names: from
/// the source of that rank to the destination that makes the `ordinal`-th legal
/// hit in the source's own destination ranking. None when the 64 destinations
/// hold fewer hits.
pub open spec fn resolve(
    text: Seq<char>,
    from: Seq<usize>,
    to: Seq<Seq<usize>>,
    idx: int,
    ordinal: int,
) -> Option<Move> {
    match scan(text, from[idx] as int, to[idx], 0, ordinal) {
        Some(k) => Some(Move::plain(from[idx] as int, to[idx][k] as int)),
        None => None,
    }
}

/// Whether the rankings can be scanned for the source of rank `idx`: the source
/// and its first 64 destinations are squares of the board.
pub open spec fn scannable(from: Seq<usize>, to: Seq<Seq<usize>>, idx: int) -> bool {
    &&& 0 <= idx < from.len()
    &&& idx < to.len()
    &&& from[idx] < 64
    &&& to[idx].len() >= 64
    &&& forall|k: int| 0 <= k < 64 ==> #[trigger] to[idx][k] < 64
}

/// Resolves the pair of the source ordinal `idx` and the legal ordinal `depth`
/// (counted from 1) to a move, or to nothing when the ranked destinations of
/// that source hold fewer legal hits.
pub fn ensure_legal(
    board: &Position,
    from: &[usize],
    to: &[Vec<usize>],
    idx: usize,
    depth: usize,
) -> (found: Option<Move>)
    requires
        scannable(from@, rows(to@), idx as int),
    ensures
        found == resolve(board@, from@, rows(to@), idx as int, depth as int),
        found matches Some(mv) ==> mv.wf() && legal_moves(board@).contains(mv),
{
    let source = from[idx];
    let targets = &to[idx];
    let mut pick: usize = 0;
    let mut ok: usize = 0;
    while pick < 64
        invariant
            pick <= 64,
            ok <= pick,
            ok < depth || ok == 0,
            source < 64,
            source == from@[idx as int],
            targets@ == rows(to@)[idx as int],
            targets@.len() >= 64,
            forall|k: int| 0 <= k < 64 ==> #[trigger] targets@[k] < 64,
            scan(board@, source as int, targets@, 0, depth as int) == scan(
                board@,
                source as int,
                targets@,
                pick as int,
                depth - ok,
            ),
        decreases 64 - pick,
    {
        let mv = Move { from: source as u8, to: targets[pick] as u8, promotion: None };
        if board.legal(mv) {
            ok += 1;
            if ok >= depth {
                return Some(mv);
            }
        }
        pick += 1;
    }
    None
}

/// A later legal hit lies later in the scan: where the `later`-th hit exists,
/// so does every earlier one, at a strictly smaller scan position.
pub proof fn hits_are_scanned_in_order(
    text: Seq<char>,
    source: int,
    targets: Seq<usize>,
    earlier: int,
    later: int,
)
    requires
        1 <= earlier < later,
        scan(text, source, targets, 0, later) is Some,
    ensures
        scan(text, source, targets, 0, earlier) is Some,
        scan(text, source, targets, 0, earlier)->0 < scan(text, source, targets, 0, later)->0,
{
    scan_order_from(text, source, targets, 0, earlier, later);
}

proof fn scan_order_from(
    text: Seq<char>,
    source: int,
    targets: Seq<usize>,
    start: int,
    earlier: int,
    later: int,
)
    requires
        0 <= start,
        1 <= earlier < later,
        scan(text, source, targets, start, later) is Some,
    ensures
        scan(text, source, targets, start, earlier) is Some,
        start <= scan(text, source, targets, start, earlier)->0 < scan(
            text,
            source,
            targets,
            start,
            later,
        )->0,
    decreases 64 - start,
{
    if start < 64 {
        if is_hit(text, source, targets, start) {
            scan_is_at_or_after(text, source, targets, start + 1, later - 1);
            if earlier > 1 {
                scan_order_from(text, source, targets, start + 1, earlier - 1, later - 1);
            }
        } else {
            scan_order_from(text, source, targets, start + 1, earlier, later);
        }
    }
}

/// A scan finds its hit at or after the position where it starts, below 64,
/// and what it finds is a hit.
pub proof fn scan_is_at_or_after(
    text: Seq<char>,
    source: int,
    targets: Seq<usize>,
    start: int,
    need: int,
)
    requires
        0 <= start,
    ensures
        scan(text, source, targets, start, need) matches Some(k) ==> start <= k < 64 && is_hit(
            text,
            source,
            targets,
            k,
        ),
    decreases 64 - start,
{
    if start < 64 {
        scan_is_at_or_after(text, source, targets, start + 1, need);
        scan_is_at_or_after(text, source, targets, start + 1, need - 1);
    }
}

/// A scan comes back empty exactly when it is asked for more legal hits than
/// the ranked destinations hold from its start on.
pub proof fn scan_fails_beyond_hits(
    text: Seq<char>,
    source: int,
    targets: Seq<usize>,
    start: int,
    need: int,
)
    requires
        0 <= start,
        1 <= need,
    ensures
        scan(text, source, targets, start, need) is None <==> hit_count(
            text,
            source,
            targets,
            start,
        ) < need,
    decreases 64 - start,
{
    if start < 64 {
        if is_hit(text, source, targets, start) {
            if need > 1 {
                scan_fails_beyond_hits(text, source, targets, start + 1, need - 1);
            }
        } else {
            scan_fails_beyond_hits(text, source, targets, start + 1, need);
        }
    }
}

/// What a pair resolves to is a move of the position, in range.
pub proof fn resolved_move_is_legal(
    text: Seq<char>,
    from: Seq<usize>,
    to: Seq<Seq<usize>>,
    idx: int,
    ordinal: int,
)
    requires
        scannable(from, to, idx),
    ensures
        resolve(text, from, to, idx, ordinal) matches Some(mv) ==> mv.wf() && legal_moves(
            text,
        ).contains(mv),
{
    scan_is_at_or_after(text, from[idx] as int, to[idx], 0, ordinal);
}

} // verus!
