//! The guided search as a mathematical machine.
//!
//! The search walks a tree of positions to a fixed depth. At each position it
//! tries a fixed number of candidate pairs (a source ordinal and a legal
//! ordinal), scores what each leads to, and hands the best back to the level
//! above with the sign turned. It cannot score or rank by itself: it asks for
//! the predictors' scores and for the evaluation of a leaf, and goes on when it
//! has the answer. This module says, over plain values, what it asks and what
//! state each answer leaves.

use crate::mlchess::{encoding, ranking_of};
use crate::position::{legal_moves, side_index, status_of, text_after, Move, Status};
use crate::resolver::{resolve, scannable};
use vstd::prelude::*;

verus! {

/// A score beyond every evaluation.
pub const INFINITY: i32 = 10_000_000;

/// The score recorded with a move that no ranking led to.
pub const FALLBACK_SCORE: i32 = -100_000_000;

/// What the search is waiting for.
#[derive(Clone, Copy, Debug, PartialEq, Eq, Structural)]
pub enum Awaiting {
    /// No search is under way.
    Nothing,
    /// The source scores of the newest level's position.
    Sources,
    /// The destination scores for the newest level's best sources.
    Targets,
    /// The evaluation of the leaf that the newest level's current pair leads to.
    Evaluation,
}

/// One level of a search under way: a position and how far its pairs have
/// been tried.
#[verifier::ext_equal]
pub ghost struct Level {
    /// The position, as text.
    pub position: Seq<char>,
    /// The depth of the level, 1 at the root.
    pub depth: int,
    /// The ranking of the source squares.
    pub from: Seq<usize>,
    /// The rankings of the destinations, one for each examined source.
    pub to: Seq<Seq<usize>>,
    /// The source ordinal of the pair that is tried next.
    pub i: int,
    /// The legal ordinal of that pair, counted from 0.
    pub i2: int,
    /// The highest score so far.
    pub score: int,
    /// The pair that gave it.
    pub best: (int, int),
    /// The leaf whose evaluation is awaited.
    pub child: Seq<char>,
}

/// The whole state of an engine.
#[verifier::ext_equal]
pub ghost struct Session {
    /// The current position, as text.
    pub position: Seq<char>,
    /// The depth to which the search goes.
    pub depth: int,
    /// The number of sources tried at each level.
    pub pieces: int,
    /// The number of legal destinations tried for each source.
    pub moves: int,
    /// The moves made in the search since the last root entry.
    pub nodes: int,
    /// The questions put to the predictors since the last root entry.
    pub ml_calls: int,
    /// The move that the last root search chose.
    pub best_move: Move,
    /// The score that it had.
    pub best_score: int,
    /// The levels of the search under way, the root first.
    pub levels: Seq<Level>,
    /// What the search waits for.
    pub awaiting: Awaiting,
}

/// What the search asks for, or what it found.
pub ghost enum Ask {
    /// The 128 source scores of an encoded position.
    Sources { board: Seq<i32> },
    /// For each listed source square of an encoded position, the 64
    /// destination scores.
    Targets { board: Seq<i32>, squares: Seq<usize> },
    /// The evaluation of a position for a side.
    Evaluate { position: Seq<char>, side: int },
    /// The search is over: no result, or a move (none at a position without
    /// legal moves) and its score.
    Done { outcome: Option<(Option<Move>, int)> },
}

/// An answer to what the search asked for.
pub ghost enum Answer {
    /// One row of source scores for each encoded position.
    Sources(Seq<Seq<i64>>),
    /// One row of destination scores for each source square.
    Targets(Seq<Seq<i64>>),
    /// The evaluation.
    Evaluation(int),
}

/// The score of a position without legal moves: a third of infinity for a
/// checkmate, nothing for a stalemate.
pub open spec fn terminal_value(text: Seq<char>) -> int {
    if status_of(text) == Status::Checkmate {
        INFINITY as int / 3
    } else {
        0
    }
}

/// The score of a leaf: its evaluation, and half of infinity on top when the
/// leaf is a checkmate.
pub open spec fn leaf_value(evaluation: int, text: Seq<char>) -> int {
    if status_of(text) == Status::Checkmate {
        evaluation + INFINITY as int / 2
    } else {
        evaluation
    }
}

/// The level that a search opens on a position.
pub open spec fn fresh_level(position: Seq<char>, depth: int) -> Level {
    Level {
        position,
        depth,
        from: Seq::empty(),
        to: Seq::empty(),
        i: 0,
        i2: 0,
        score: -(INFINITY as int),
        best: (0, 0),
        child: position,
    }
}

/// The level with its next pair in turn.
pub open spec fn stepped(level: Level, moves: int) -> Level {
    if level.i2 + 1 < moves {
        Level { i2: level.i2 + 1, ..level }
    } else {
        Level { i: level.i + 1, i2: 0, ..level }
    }
}

/// The level after its current pair scored `value`: a higher score than any
/// before makes the pair the best; then the next pair is in turn.
pub open spec fn scored(level: Level, value: int, moves: int) -> Level {
    if value > level.score {
        stepped(Level { score: value, best: (level.i, level.i2), ..level }, moves)
    } else {
        stepped(level, moves)
    }
}

/// What a level hands back when all its pairs are tried: the move of its best
/// pair, resolved again, with the best score's sign turned. Where the best pair
/// resolves to nothing, a level below the root hands back nothing; the root
/// falls back to the first pair of all, and from there to the first legal move
/// with [`FALLBACK_SCORE`].
pub open spec fn outcome_of(level: Level) -> Option<(Option<Move>, int)> {
    match resolve(level.position, level.from, level.to, level.best.0, level.best.1 + 1) {
        Some(mv) => Some((Some(mv), -level.score)),
        None => if level.depth == 1 {
            match resolve(level.position, level.from, level.to, 0, 1) {
                Some(mv) => Some((Some(mv), -level.score)),
                None => Some((Some(legal_moves(level.position)[0]), FALLBACK_SCORE as int)),
            }
        } else {
            None
        },
    }
}

/// The session after a level is done: the root records its move and score.
pub open spec fn recorded(session: Session, level: Level) -> Session {
    if level.depth == 1 {
        match outcome_of(level) {
            Some((Some(mv), score)) => Session { best_move: mv, best_score: score, ..session },
            _ => session,
        }
    } else {
        session
    }
}

/// Runs a search under way until it needs an answer or is over, and gives the
/// state it stops in and what it asks.
///
/// The newest level tries its pairs in turn. A pair that resolves to nothing is
/// passed over. One that resolves to a move counts as a node: at the deepest
/// level the leaf is to be evaluated; above it, a position without legal moves
/// scores at once, and any other opens a level of its own. A level whose pairs
/// are all tried hands its outcome to the level above, which takes the score
/// as that of its current pair; the root's outcome ends the search.
pub open spec fn run(session: Session) -> (Session, Ask)
    decreases
        session.levels.len(),
        session.pieces - session.levels.last().i,
        session.moves - session.levels.last().i2,
{
    if session.levels.len() == 0 {
        (Session { awaiting: Awaiting::Nothing, ..session }, Ask::Done { outcome: None })
    } else {
        let level = session.levels.last();
        let below = session.levels.drop_last();
        if 0 <= level.i < session.pieces && 0 <= level.i2 < session.moves {
            match resolve(level.position, level.from, level.to, level.i, level.i2 + 1) {
                None => run(
                    Session { levels: below.push(stepped(level, session.moves)), ..session },
                ),
                Some(mv) => {
                    let child = text_after(level.position, mv);
                    let counted = Session { nodes: session.nodes + 1, ..session };
                    if level.depth >= session.depth {
                        (
                            Session {
                                levels: below.push(Level { child, ..level }),
                                awaiting: Awaiting::Evaluation,
                                ..counted
                            },
                            Ask::Evaluate { position: child, side: 1 - side_index(level.position) },
                        )
                    } else if legal_moves(child).len() == 0 {
                        run(
                            Session {
                                levels: below.push(
                                    scored(level, terminal_value(child), session.moves),
                                ),
                                ..counted
                            },
                        )
                    } else {
                        (
                            Session {
                                levels: session.levels.push(fresh_level(child, level.depth + 1)),
                                awaiting: Awaiting::Sources,
                                ..counted
                            },
                            Ask::Sources { board: encoding(child) },
                        )
                    }
                },
            }
        } else {
            let stored = recorded(session, level);
            if below.len() == 0 {
                (
                    Session { levels: below, awaiting: Awaiting::Nothing, ..stored },
                    Ask::Done { outcome: outcome_of(level) },
                )
            } else {
                let parent = below.last();
                let resumed = match outcome_of(level) {
                    Some((_, value)) => scored(parent, value, session.moves),
                    None => stepped(parent, session.moves),
                };
                run(Session { levels: below.drop_last().push(resumed), ..stored })
            }
        }
    }
}

/// Begins a search of the current position at a depth, and gives the state it
/// stops in and what it asks.
///
/// A depth outside 1 to the session's own is no search: nothing changes. The
/// root (depth 1) first sets both counters to zero. A position without legal
/// moves is over at once, with its terminal score and no move, and with the
/// recorded best move and score as they were. Any other position opens the
/// first level and asks for its source scores. A search that was under way is
/// given up.
pub open spec fn begin(session: Session, depth: int) -> (Session, Ask) {
    if depth < 1 || depth > session.depth {
        (session, Ask::Done { outcome: None })
    } else {
        let reset = if depth == 1 {
            Session { nodes: 0, ml_calls: 0, ..session }
        } else {
            session
        };
        if legal_moves(session.position).len() == 0 {
            (
                Session { levels: Seq::empty(), awaiting: Awaiting::Nothing, ..reset },
                Ask::Done { outcome: Some((None, terminal_value(session.position))) },
            )
        } else {
            (
                Session {
                    levels: seq![fresh_level(session.position, depth)],
                    awaiting: Awaiting::Sources,
                    ..reset
                },
                Ask::Sources { board: encoding(session.position) },
            )
        }
    }
}

/// The ranking of the source squares of one side from a row of 128 scores:
/// White's are the first 64, Black's the next.
pub open spec fn source_ranking(row: Seq<i64>, side: int) -> Seq<usize> {
    if side == 0 {
        ranking_of(row.subrange(0, 64))
    } else {
        ranking_of(row.subrange(64, 128))
    }
}

/// The rankings of the rows of a table of scores.
pub open spec fn target_rankings(rows: Seq<Seq<i64>>) -> Seq<Seq<usize>> {
    Seq::new(rows.len(), |r: int| ranking_of(rows[r]))
}

/// The session with an answer taken into its newest level, before the search
/// goes on.
///
/// Source scores are ranked for the side to move. Destination scores are
/// ranked row by row; that completes one ranking of candidates, which counts
/// as two questions to the predictors. An evaluation scores the current pair.
pub open spec fn taken(session: Session, answer: Answer) -> Session {
    let level = session.levels.last();
    let below = session.levels.drop_last();
    match answer {
        Answer::Sources(rows) => Session {
            levels: below.push(
                Level { from: source_ranking(rows[0], side_index(level.position)), ..level },
            ),
            awaiting: Awaiting::Targets,
            ..session
        },
        Answer::Targets(rows) => Session {
            levels: below.push(Level { to: target_rankings(rows), ..level }),
            ml_calls: session.ml_calls + 2,
            ..session
        },
        Answer::Evaluation(evaluation) => Session {
            levels: below.push(scored(level, leaf_value(evaluation, level.child), session.moves)),
            ..session
        },
    }
}

/// Takes an answer into a search that waits for it, and gives the state in
/// which the search next stops and what it asks.
///
/// After source scores the destination scores of the best sources are asked
/// for. After destination scores and after an evaluation the pairs are tried.
pub open spec fn answered(session: Session, answer: Answer) -> (Session, Ask) {
    let next = taken(session, answer);
    match answer {
        Answer::Sources(rows) => (
            next,
            Ask::Targets {
                board: encoding(session.levels.last().position),
                squares: next.levels.last().from.subrange(0, session.pieces),
            },
        ),
        _ => run(next),
    }
}

/// Whether an answer can be taken: a search waits for an answer of its kind,
/// the answer has the shape that was asked for, and no score or counter leaves
/// its machine range.
pub open spec fn accepts(session: Session, answer: Answer) -> bool {
    &&& session.levels.len() > 0
    &&& session.nodes + session.levels.len() * (session.pieces * session.moves) <= usize::MAX
    &&& match answer {
        Answer::Sources(rows) => {
            &&& session.awaiting == Awaiting::Sources
            &&& rows.len() >= 1
            &&& forall|r: int| 0 <= r < rows.len() ==> (#[trigger] rows[r]).len() >= 128
        },
        Answer::Targets(rows) => {
            &&& session.awaiting == Awaiting::Targets
            &&& rows.len() >= session.pieces
            &&& forall|r: int| 0 <= r < rows.len() ==> (#[trigger] rows[r]).len() == 64
            &&& session.ml_calls + 2 <= usize::MAX
        },
        Answer::Evaluation(evaluation) => {
            &&& session.awaiting == Awaiting::Evaluation
            &&& i32::MIN <= evaluation
            &&& leaf_value(evaluation, session.levels.last().child) <= i32::MAX
        },
    }
}

/// The limits of a search: a depth of at least 1, and from 1 to 64 sources
/// and destinations.
pub open spec fn limits_ok(session: Session) -> bool {
    &&& 1 <= session.depth <= usize::MAX
    &&& 1 <= session.pieces <= 64
    &&& 1 <= session.moves <= 64
}

/// Whether a level holds its source ranking: 64 squares of the board.
pub open spec fn sourced(level: Level) -> bool {
    &&& level.from.len() == 64
    &&& forall|k: int| 0 <= k < 64 ==> #[trigger] level.from[k] < 64
}

/// Whether a level holds all its rankings, so that each of its pairs can be
/// resolved.
pub open spec fn ranked(level: Level, pieces: int) -> bool {
    &&& sourced(level)
    &&& forall|r: int| 0 <= r < pieces ==> #[trigger] scannable(level.from, level.to, r)
}

/// Whether a level fits the session's limits: it stands on a position with a
/// legal move, and its pairs and its score are in range.
pub open spec fn level_ok(level: Level, session: Session) -> bool {
    &&& legal_moves(level.position).len() > 0
    &&& 1 <= level.depth <= session.depth
    &&& 0 <= level.i <= session.pieces
    &&& 0 <= level.i2 < session.moves
    &&& level.i == session.pieces ==> level.i2 == 0
    &&& 0 <= level.best.0 < session.pieces
    &&& 0 <= level.best.1 < session.moves
    &&& -INFINITY <= level.score <= i32::MAX
}

/// Whether the levels fit together: each fits the limits, each but the newest
/// holds its rankings and waits on its current pair, and the root stands on
/// the session's position.
pub open spec fn stack_ok(session: Session) -> bool {
    &&& forall|k: int|
        0 <= k < session.levels.len() ==> level_ok(#[trigger] session.levels[k], session)
    &&& forall|k: int|
        0 <= k < session.levels.len() - 1 ==> ranked(
            #[trigger] session.levels[k],
            session.pieces,
        ) && session.levels[k].i < session.pieces
    &&& session.levels.len() > 0 ==> session.levels[0].position == session.position
}

/// Whether the plain parts of a session are in range.
pub open spec fn base_ok(session: Session) -> bool {
    &&& limits_ok(session)
    &&& session.best_move.wf()
    &&& 0 <= session.nodes <= usize::MAX
    &&& 0 <= session.ml_calls <= usize::MAX
    &&& i32::MIN <= session.best_score <= i32::MAX
}

/// Whether a session can try pairs: it is in range and its newest level holds
/// its rankings.
pub open spec fn running(session: Session) -> bool {
    &&& base_ok(session)
    &&& stack_ok(session)
    &&& session.levels.len() > 0
    &&& ranked(session.levels.last(), session.pieces)
}

/// Whether a session is in order: it is in range, and its newest level holds
/// what the search had when it last stopped.
pub open spec fn well_formed(session: Session) -> bool {
    &&& base_ok(session)
    &&& stack_ok(session)
    &&& match session.awaiting {
        Awaiting::Nothing => session.levels.len() == 0,
        Awaiting::Sources => session.levels.len() > 0,
        Awaiting::Targets => session.levels.len() > 0 && sourced(session.levels.last()),
        Awaiting::Evaluation => session.levels.len() > 0 && ranked(
            session.levels.last(),
            session.pieces,
        ) && session.levels.last().i < session.pieces,
    }
}

/// The pairs that a level has not tried yet.
pub open spec fn pairs_left(level: Level, pieces: int, moves: int) -> int {
    (pieces - level.i) * moves - level.i2
}

/// The pairs that the levels together have not tried yet.
pub open spec fn work_left(levels: Seq<Level>, pieces: int, moves: int) -> int
    decreases levels.len(),
{
    if levels.len() == 0 {
        0
    } else {
        work_left(levels.drop_last(), pieces, moves) + pairs_left(levels.last(), pieces, moves)
    }
}

/// The number of pairs that [`run`] resolves to a move before it stops.
pub open spec fn resolutions(session: Session) -> int
    decreases
        session.levels.len(),
        session.pieces - session.levels.last().i,
        session.moves - session.levels.last().i2,
{
    if session.levels.len() == 0 {
        0
    } else {
        let level = session.levels.last();
        let below = session.levels.drop_last();
        if 0 <= level.i < session.pieces && 0 <= level.i2 < session.moves {
            match resolve(level.position, level.from, level.to, level.i, level.i2 + 1) {
                None => resolutions(
                    Session { levels: below.push(stepped(level, session.moves)), ..session },
                ),
                Some(mv) => {
                    let child = text_after(level.position, mv);
                    let counted = Session { nodes: session.nodes + 1, ..session };
                    if level.depth < session.depth && legal_moves(child).len() == 0 {
                        1 + resolutions(
                            Session {
                                levels: below.push(
                                    scored(level, terminal_value(child), session.moves),
                                ),
                                ..counted
                            },
                        )
                    } else {
                        1
                    }
                },
            }
        } else if below.len() == 0 {
            0
        } else {
            let parent = below.last();
            let resumed = match outcome_of(level) {
                Some((_, value)) => scored(parent, value, session.moves),
                None => stepped(parent, session.moves),
            };
            resolutions(
                Session { levels: below.drop_last().push(resumed), ..recorded(session, level) },
            )
        }
    }
}

/// Trying pairs adds one node for each pair that resolves to a move and no
/// other; it puts no question to the predictors and leaves the position.
pub proof fn run_counts_resolutions(session: Session)
    ensures
        run(session).0.nodes == session.nodes + resolutions(session),
        run(session).0.ml_calls == session.ml_calls,
        run(session).0.position == session.position,
    decreases
        session.levels.len(),
        session.pieces - session.levels.last().i,
        session.moves - session.levels.last().i2,
{
    if session.levels.len() > 0 {
        let level = session.levels.last();
        let below = session.levels.drop_last();
        if 0 <= level.i < session.pieces && 0 <= level.i2 < session.moves {
            match resolve(level.position, level.from, level.to, level.i, level.i2 + 1) {
                None => {
                    run_counts_resolutions(
                        Session { levels: below.push(stepped(level, session.moves)), ..session },
                    );
                },
                Some(mv) => {
                    let child = text_after(level.position, mv);
                    let counted = Session { nodes: session.nodes + 1, ..session };
                    if level.depth < session.depth && legal_moves(child).len() == 0 {
                        run_counts_resolutions(
                            Session {
                                levels: below.push(
                                    scored(level, terminal_value(child), session.moves),
                                ),
                                ..counted
                            },
                        );
                    }
                },
            }
        } else if below.len() > 0 {
            let parent = below.last();
            let resumed = match outcome_of(level) {
                Some((_, value)) => scored(parent, value, session.moves),
                None => stepped(parent, session.moves),
            };
            run_counts_resolutions(
                Session { levels: below.drop_last().push(resumed), ..recorded(session, level) },
            );
        }
    }
}

/// What an answer does to the counters: destination scores complete a ranking
/// of candidates, which counts as two questions to the predictors, and no other
/// answer counts as any; source scores make no node, and after any other
/// answer the nodes grow by one for each pair that resolves to a move while
/// the search goes on.
pub proof fn answer_counts(session: Session, answer: Answer)
    ensures
        answered(session, answer).0.ml_calls == session.ml_calls + (if answer is Targets {
            2int
        } else {
            0int
        }),
        answered(session, answer).0.nodes == session.nodes + (if answer is Sources {
            0
        } else {
            resolutions(taken(session, answer))
        }),
        answered(session, answer).0.nodes >= session.nodes,
        answered(session, answer).0.position == session.position,
{
    run_counts_resolutions(taken(session, answer));
    resolutions_are_counted(taken(session, answer));
}

/// A count of pairs is not negative.
pub proof fn resolutions_are_counted(session: Session)
    ensures
        resolutions(session) >= 0,
    decreases
        session.levels.len(),
        session.pieces - session.levels.last().i,
        session.moves - session.levels.last().i2,
{
    if session.levels.len() > 0 {
        let level = session.levels.last();
        let below = session.levels.drop_last();
        if 0 <= level.i < session.pieces && 0 <= level.i2 < session.moves {
            match resolve(level.position, level.from, level.to, level.i, level.i2 + 1) {
                None => {
                    resolutions_are_counted(
                        Session { levels: below.push(stepped(level, session.moves)), ..session },
                    );
                },
                Some(mv) => {
                    let child = text_after(level.position, mv);
                    let counted = Session { nodes: session.nodes + 1, ..session };
                    if level.depth < session.depth && legal_moves(child).len() == 0 {
                        resolutions_are_counted(
                            Session {
                                levels: below.push(
                                    scored(level, terminal_value(child), session.moves),
                                ),
                                ..counted
                            },
                        );
                    }
                },
            }
        } else if below.len() > 0 {
            let parent = below.last();
            let resumed = match outcome_of(level) {
                Some((_, value)) => scored(parent, value, session.moves),
                None => stepped(parent, session.moves),
            };
            resolutions_are_counted(
                Session { levels: below.drop_last().push(resumed), ..recorded(session, level) },
            );
        }
    }
}

/// A search that begins on a position without legal moves is over at once: it
/// hands back the terminal score and no move, asks the predictors nothing,
/// makes no move, and leaves the recorded best move and score as they were. At
/// the root both counters are zero afterwards.
pub proof fn terminal_entry_is_silent(session: Session, depth: int)
    requires
        1 <= depth <= session.depth,
        legal_moves(session.position).len() == 0,
    ensures
        begin(session, depth).1 == (Ask::Done {
            outcome: Some((None, terminal_value(session.position))),
        }),
        begin(session, depth).0.best_move == session.best_move,
        begin(session, depth).0.best_score == session.best_score,
        depth == 1 ==> begin(session, depth).0.nodes == 0 && begin(session, depth).0.ml_calls == 0,
        depth > 1 ==> begin(session, depth).0.nodes == session.nodes && begin(
            session,
            depth,
        ).0.ml_calls == session.ml_calls,
{
}

/// The scores of a checkmate stand above every evaluation: where the
/// evaluator's values stay within a bound below a quarter of infinity on either
/// side of zero, the terminal score of a checkmate and the score of a leaf that
/// is a checkmate are both greater than the bound.
pub proof fn mate_scores_dominate(bound: int, evaluation: int, text: Seq<char>)
    requires
        0 <= bound,
        4 * bound < INFINITY,
        -bound <= evaluation <= bound,
        status_of(text) == Status::Checkmate,
    ensures
        terminal_value(text) > bound,
        leaf_value(evaluation, text) > bound,
{
}

} // verus!
