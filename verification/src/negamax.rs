//! What the search finds, said at once.
//!
//! The machine of [`crate::search`] stops whenever it needs an answer. This
//! module says what it finds in the end when the answers come from fixed
//! predictors and a fixed evaluator: the value of a position is defined by
//! recursion over the depth, and the machine, driven with those answers, is
//! proved to end with that value, that many nodes and that many questions.

use crate::mlchess::encoding;
use crate::position::{legal_moves, side_index, text_after, Move};
use crate::resolver::{resolve, scan, scan_is_at_or_after};
use crate::search::{
    answered, begin, fresh_level, leaf_value, outcome_of, recorded, run, scored, source_ranking,
    stepped, target_rankings, terminal_value, Answer, Ask, Awaiting, Level, Session, INFINITY,
};
use vstd::prelude::*;

verus! {

/// Predictors and an evaluator that answer each question in one way.
pub ghost struct Oracle {
    /// The rows of source scores for an encoded position.
    pub sources: spec_fn(Seq<i32>) -> Seq<Seq<i64>>,
    /// The rows of destination scores for an encoded position and source
    /// squares.
    pub targets: spec_fn(Seq<i32>, Seq<usize>) -> Seq<Seq<i64>>,
    /// The evaluation of a position for a side.
    pub value: spec_fn(Seq<char>, int) -> int,
}

/// The limits of a search.
pub ghost struct Limits {
    /// The depth to which the search goes.
    pub depth: int,
    /// The number of sources tried at each level.
    pub pieces: int,
    /// The number of legal destinations tried for each source.
    pub moves: int,
}

/// The limits of a session.
pub open spec fn limits_of(session: Session) -> Limits {
    Limits { depth: session.depth, pieces: session.pieces, moves: session.moves }
}

/// What a search comes to: what it hands back, the nodes it made and the
/// questions it put to the predictors.
pub ghost struct Found {
    pub outcome: Option<(Option<Move>, int)>,
    pub nodes: int,
    pub calls: int,
}

/// What trying pairs comes to: the level when no pair is left, the nodes made
/// and the questions put on the way.
pub ghost struct Tried {
    pub level: Level,
    pub nodes: int,
    pub calls: int,
}

/// The level that a search opens on a position, with the rankings that the
/// predictors give it.
pub open spec fn ranked_level(
    oracle: Oracle,
    limits: Limits,
    position: Seq<char>,
    depth: int,
) -> Level {
    let board = encoding(position);
    let from = source_ranking((oracle.sources)(board)[0], side_index(position));
    let to = target_rankings((oracle.targets)(board, from.subrange(0, limits.pieces)));
    Level { from, to, ..fresh_level(position, depth) }
}

/// Searches a position at a depth.
///
/// A position without legal moves has its terminal score and no move. Any
/// other is ranked, which costs two questions; its pairs are tried; and the
/// move of the best pair comes back with the best score's sign turned.
pub open spec fn searched(oracle: Oracle, limits: Limits, position: Seq<char>, depth: int) -> Found
    decreases limits.depth - depth, 1int, 0int, 0int,
{
    if legal_moves(position).len() == 0 {
        Found { outcome: Some((None, terminal_value(position))), nodes: 0, calls: 0 }
    } else {
        let tried = explored(oracle, limits, ranked_level(oracle, limits, position, depth));
        Found { outcome: outcome_of(tried.level), nodes: tried.nodes, calls: tried.calls + 2 }
    }
}

/// Tries the pairs of a level from its current pair on.
///
/// A pair that resolves to nothing is passed over. A pair that resolves to a
/// move is a node: at the deepest level the position after the move is
/// evaluated for the side that made it; above, it is searched one level
/// deeper, and what that search hands back is the score of the pair. A search
/// that hands back nothing scores nothing.
pub open spec fn explored(oracle: Oracle, limits: Limits, level: Level) -> Tried
    decreases limits.depth - level.depth, 0int, limits.pieces - level.i, limits.moves - level.i2,
{
    if 0 <= level.i < limits.pieces && 0 <= level.i2 < limits.moves {
        match resolve(level.position, level.from, level.to, level.i, level.i2 + 1) {
            None => explored(oracle, limits, stepped(level, limits.moves)),
            Some(mv) => {
                let child = text_after(level.position, mv);
                if level.depth >= limits.depth {
                    let value = leaf_value(
                        (oracle.value)(child, 1 - side_index(level.position)),
                        child,
                    );
                    let rest = explored(
                        oracle,
                        limits,
                        scored(Level { child, ..level }, value, limits.moves),
                    );
                    Tried { nodes: rest.nodes + 1, ..rest }
                } else {
                    let found = searched(oracle, limits, child, level.depth + 1);
                    let next = match found.outcome {
                        Some((_, value)) => scored(level, value, limits.moves),
                        None => stepped(level, limits.moves),
                    };
                    let rest = explored(oracle, limits, next);
                    Tried {
                        level: rest.level,
                        nodes: 1 + found.nodes + rest.nodes,
                        calls: found.calls + rest.calls,
                    }
                }
            },
        }
    } else {
        Tried { level, nodes: 0, calls: 0 }
    }
}

/// The answer of an oracle to what a search asks.
pub open spec fn reply_of(oracle: Oracle, ask: Ask) -> Answer {
    match ask {
        Ask::Sources { board } => Answer::Sources((oracle.sources)(board)),
        Ask::Targets { board, squares } => Answer::Targets((oracle.targets)(board, squares)),
        Ask::Evaluate { position, side } => Answer::Evaluation((oracle.value)(position, side)),
        Ask::Done { outcome } => Answer::Evaluation(0),
    }
}

/// Drives a search with the answers of an oracle: up to `steps` questions are
/// answered, fewer if the search is over before.
pub open spec fn driven(oracle: Oracle, state: (Session, Ask), steps: nat) -> (Session, Ask)
    decreases steps,
{
    if steps == 0 || state.1 is Done {
        state
    } else {
        driven(oracle, answered(state.0, reply_of(oracle, state.1)), (steps - 1) as nat)
    }
}

/// Driving a search some steps and then some more is driving it all of them.
pub proof fn driven_on(oracle: Oracle, state: (Session, Ask), first: nat, more: nat)
    ensures
        driven(oracle, state, first + more) == driven(
            oracle,
            driven(oracle, state, first),
            more,
        ),
    decreases first,
{
    if first > 0 && !(state.1 is Done) {
        driven_on(
            oracle,
            answered(state.0, reply_of(oracle, state.1)),
            (first - 1) as nat,
            more,
        );
    }
}

/// Trying pairs leaves a level without a pair to try, at its depth and on its
/// position.
pub proof fn explored_is_through(oracle: Oracle, limits: Limits, level: Level)
    ensures
        !(0 <= explored(oracle, limits, level).level.i < limits.pieces && 0 <= explored(
            oracle,
            limits,
            level,
        ).level.i2 < limits.moves),
        explored(oracle, limits, level).level.depth == level.depth,
        explored(oracle, limits, level).level.position == level.position,
    decreases limits.depth - level.depth, 0int, limits.pieces - level.i, limits.moves - level.i2,
{
    if 0 <= level.i < limits.pieces && 0 <= level.i2 < limits.moves {
        match resolve(level.position, level.from, level.to, level.i, level.i2 + 1) {
            None => {
                explored_is_through(oracle, limits, stepped(level, limits.moves));
            },
            Some(mv) => {
                let child = text_after(level.position, mv);
                if level.depth >= limits.depth {
                    let value = leaf_value(
                        (oracle.value)(child, 1 - side_index(level.position)),
                        child,
                    );
                    explored_is_through(
                        oracle,
                        limits,
                        scored(Level { child, ..level }, value, limits.moves),
                    );
                } else {
                    let found = searched(oracle, limits, child, level.depth + 1);
                    let next = match found.outcome {
                        Some((_, value)) => scored(level, value, limits.moves),
                        None => stepped(level, limits.moves),
                    };
                    explored_is_through(oracle, limits, next);
                }
            },
        }
    }
}

/// The session in which the newest level has tried its pairs.
pub open spec fn tried_out(oracle: Oracle, session: Session) -> Session {
    let tried = explored(oracle, limits_of(session), session.levels.last());
    Session {
        levels: session.levels.drop_last().push(tried.level),
        nodes: session.nodes + tried.nodes,
        ml_calls: session.ml_calls + tried.calls,
        ..session
    }
}

/// A machine that tries the pairs of its newest level, driven by an oracle,
/// comes in some number of steps to where that level has tried all its
/// pairs: with the level, the nodes and the questions that the recursion
/// says, and with everything else as it was.
pub proof fn machine_explores(oracle: Oracle, session: Session) -> (steps: nat)
    requires
        session.levels.len() > 0,
        session.levels.last().depth >= 1,
    ensures
        driven(oracle, run(session), steps) == run(tried_out(oracle, session)),
    decreases
        session.depth - session.levels.last().depth,
        0int,
        session.pieces - session.levels.last().i,
        session.moves - session.levels.last().i2,
{
    let limits = limits_of(session);
    let level = session.levels.last();
    let below = session.levels.drop_last();
    if 0 <= level.i < session.pieces && 0 <= level.i2 < session.moves {
        match resolve(level.position, level.from, level.to, level.i, level.i2 + 1) {
            None => {
                let next = Session {
                    levels: below.push(stepped(level, session.moves)),
                    ..session
                };
                let steps = machine_explores(oracle, next);
                assert(tried_out(oracle, next) =~= tried_out(oracle, session));
                steps
            },
            Some(mv) => {
                let child = text_after(level.position, mv);
                let counted = Session { nodes: session.nodes + 1, ..session };
                if level.depth >= session.depth {
                    let held = Session {
                        levels: below.push(Level { child, ..level }),
                        awaiting: Awaiting::Evaluation,
                        ..counted
                    };
                    let evaluation = (oracle.value)(child, 1 - side_index(level.position));
                    let value = leaf_value(evaluation, child);
                    let next = Session {
                        levels: below.push(
                            scored(Level { child, ..level }, value, session.moves),
                        ),
                        ..held
                    };
                    assert(held.levels.drop_last() =~= below);
                    assert(next.levels.drop_last() =~= below);
                    let steps = machine_explores(oracle, next);
                    assert(run(tried_out(oracle, next)) == run(tried_out(oracle, session))) by {
                        run_ignores_awaiting(
                            tried_out(oracle, next),
                            tried_out(oracle, session),
                        );
                    }
                    (steps + 1) as nat
                } else if legal_moves(child).len() == 0 {
                    let next = Session {
                        levels: below.push(scored(level, terminal_value(child), session.moves)),
                        ..counted
                    };
                    let steps = machine_explores(oracle, next);
                    assert(tried_out(oracle, next) =~= tried_out(oracle, session));
                    steps
                } else {
                    let fresh = fresh_level(child, level.depth + 1);
                    let opened = Session {
                        levels: session.levels.push(fresh),
                        awaiting: Awaiting::Sources,
                        ..counted
                    };
                    let board = encoding(child);
                    let from = source_ranking((oracle.sources)(board)[0], side_index(child));
                    let sourced = Session {
                        levels: session.levels.push(Level { from, ..fresh }),
                        awaiting: Awaiting::Targets,
                        ..opened
                    };
                    assert(answered(opened, Answer::Sources((oracle.sources)(board))) == (
                        sourced,
                        Ask::Targets { board, squares: from.subrange(0, session.pieces) },
                    ));
                    let ranked = ranked_level(oracle, limits, child, level.depth + 1);
                    let deeper = Session {
                        levels: session.levels.push(ranked),
                        ml_calls: session.ml_calls + 2,
                        ..sourced
                    };
                    assert(sourced.levels.drop_last() =~= session.levels);
                    let inner = machine_explores(oracle, deeper);
                    let through = tried_out(oracle, deeper);
                    explored_is_through(oracle, limits, ranked);
                    assert(through.levels.drop_last() =~= session.levels);
                    let found = searched(oracle, limits, child, level.depth + 1);
                    let resumed = match found.outcome {
                        Some((_, value)) => scored(level, value, session.moves),
                        None => stepped(level, session.moves),
                    };
                    let back = Session { levels: below.push(resumed), ..through };
                    assert(back.levels.drop_last() =~= below);
                    let outer = machine_explores(oracle, back);
                    assert(run(tried_out(oracle, back)) == run(tried_out(oracle, session))) by {
                        run_ignores_awaiting(
                            tried_out(oracle, back),
                            tried_out(oracle, session),
                        );
                    }
                    let first = answered(opened, Answer::Sources((oracle.sources)(board)));
                    driven_on(oracle, run(deeper), inner, outer);
                    assert(driven(oracle, run(session), (inner + outer + 2) as nat) == driven(
                        oracle,
                        run(deeper),
                        inner + outer,
                    )) by {
                        assert(driven(oracle, first, (inner + outer + 1) as nat) == driven(
                            oracle,
                            run(deeper),
                            inner + outer,
                        ));
                    }
                    (inner + outer + 2) as nat
                }
            },
        }
    } else {
        assert(tried_out(oracle, session) =~= session);
        0
    }
}

/// What the machine does next does not depend on what it was waiting for.
pub proof fn run_ignores_awaiting(a: Session, b: Session)
    requires
        a == (Session { awaiting: a.awaiting, ..b }),
    ensures
        run(a) == run(b),
    decreases a.levels.len(), a.pieces - a.levels.last().i, a.moves - a.levels.last().i2,
{
    if a.levels.len() > 0 {
        let level = a.levels.last();
        let below = a.levels.drop_last();
        if 0 <= level.i < a.pieces && 0 <= level.i2 < a.moves {
            match resolve(level.position, level.from, level.to, level.i, level.i2 + 1) {
                None => {
                    run_ignores_awaiting(
                        Session { levels: below.push(stepped(level, a.moves)), ..a },
                        Session { levels: below.push(stepped(level, b.moves)), ..b },
                    );
                },
                Some(mv) => {
                    let child = text_after(level.position, mv);
                    if level.depth < a.depth && legal_moves(child).len() == 0 {
                        run_ignores_awaiting(
                            Session {
                                levels: below.push(scored(level, terminal_value(child), a.moves)),
                                nodes: a.nodes + 1,
                                ..a
                            },
                            Session {
                                levels: below.push(scored(level, terminal_value(child), b.moves)),
                                nodes: b.nodes + 1,
                                ..b
                            },
                        );
                    }
                },
            }
        } else if below.len() > 0 {
            let parent = below.last();
            let resumed = match outcome_of(level) {
                Some((_, value)) => scored(parent, value, a.moves),
                None => stepped(parent, a.moves),
            };
            run_ignores_awaiting(
                Session { levels: below.drop_last().push(resumed), ..recorded(a, level) },
                Session { levels: below.drop_last().push(resumed), ..recorded(b, level) },
            );
        }
    }
}

/// The machine finds what the recursion says. A search that begins at a
/// depth within the limits and is driven by an oracle is over after some
/// number of steps; it hands back what [`searched`] hands back for the
/// engine's position, it has made that many nodes and put that many
/// questions, at the root counted from zero; and the root, if it has a move,
/// has recorded the move and its score, while any other search leaves the
/// record alone.
pub proof fn search_is_negamax(oracle: Oracle, session: Session, depth: int) -> (steps: nat)
    requires
        1 <= depth <= session.depth,
    ensures
        ({
            let end = driven(oracle, begin(session, depth), steps);
            let found = searched(oracle, limits_of(session), session.position, depth);
            &&& end.1 == (Ask::Done { outcome: found.outcome })
            &&& end.0.levels.len() == 0
            &&& end.0.awaiting == Awaiting::Nothing
            &&& end.0.position == session.position
            &&& end.0.nodes == found.nodes + if depth == 1 {
                0
            } else {
                session.nodes
            }
            &&& end.0.ml_calls == found.calls + if depth == 1 {
                0
            } else {
                session.ml_calls
            }
            &&& match found.outcome {
                Some((Some(mv), score)) if depth == 1 => end.0.best_move == mv
                    && end.0.best_score == score,
                _ => end.0.best_move == session.best_move && end.0.best_score
                    == session.best_score,
            }
        }),
{
    let limits = limits_of(session);
    let position = session.position;
    if legal_moves(position).len() == 0 {
        0
    } else {
        let reset = if depth == 1 {
            Session { nodes: 0, ml_calls: 0, ..session }
        } else {
            session
        };
        let fresh = fresh_level(position, depth);
        let opened = Session { levels: seq![fresh], awaiting: Awaiting::Sources, ..reset };
        let board = encoding(position);
        let from = source_ranking((oracle.sources)(board)[0], side_index(position));
        let sourced = Session {
            levels: seq![Level { from, ..fresh }],
            awaiting: Awaiting::Targets,
            ..opened
        };
        let first = answered(opened, Answer::Sources((oracle.sources)(board)));
        assert(first == (
            sourced,
            Ask::Targets { board, squares: from.subrange(0, session.pieces) },
        ));
        let ranked = ranked_level(oracle, limits, position, depth);
        let deeper = Session {
            levels: seq![ranked],
            ml_calls: reset.ml_calls + 2,
            ..sourced
        };
        assert(sourced.levels.drop_last().push(ranked) =~= deeper.levels);
        let inner = machine_explores(oracle, deeper);
        explored_is_through(oracle, limits, ranked);
        assert(tried_out(oracle, deeper).levels.drop_last() =~= Seq::<Level>::empty());
        assert(driven(oracle, begin(session, depth), (inner + 2) as nat) == driven(
            oracle,
            run(deeper),
            inner,
        )) by {
            assert(driven(oracle, begin(session, depth), (inner + 2) as nat) == driven(
                oracle,
                first,
                (inner + 1) as nat,
            ));
        }
        (inner + 2) as nat
    }
}

/// What a level hands back, if it hands back a move, is a legal move of its
/// position.
pub proof fn outcome_is_legal(level: Level)
    requires
        legal_moves(level.position).len() > 0,
    ensures
        outcome_of(level) matches Some((Some(mv), _)) ==> legal_moves(level.position).contains(
            mv,
        ),
{
    scan_is_at_or_after(
        level.position,
        level.from[level.best.0] as int,
        level.to[level.best.0],
        0,
        level.best.1 + 1,
    );
    scan_is_at_or_after(level.position, level.from[0] as int, level.to[0], 0, 1);
}

/// The move that a search chooses is a legal move of the position searched,
/// whatever the predictors and the evaluator answer.
pub proof fn chosen_move_is_legal(oracle: Oracle, limits: Limits, position: Seq<char>, depth: int)
    ensures
        searched(oracle, limits, position, depth).outcome matches Some((Some(mv), _))
            ==> legal_moves(position).contains(mv),
{
    if legal_moves(position).len() > 0 {
        let ranked = ranked_level(oracle, limits, position, depth);
        explored_is_through(oracle, limits, ranked);
        outcome_is_legal(explored(oracle, limits, ranked).level);
    }
}

/// The limits of the smallest search: one level, one source, one destination.
pub open spec fn single() -> Limits {
    Limits { depth: 1, pieces: 1, moves: 1 }
}

/// The move from the source that the predictors rank first to the destination
/// that they rank first for it.
pub open spec fn first_pair(oracle: Oracle, position: Seq<char>) -> Move {
    let level = ranked_level(oracle, single(), position, 1);
    Move::plain(level.from[0] as int, level.to[0][0] as int)
}

/// The score that the root hands back for its one pair: the score of the leaf
/// with its sign turned, and infinity where the leaf scores no more than minus
/// infinity.
pub open spec fn first_pair_score(oracle: Oracle, position: Seq<char>) -> int {
    let child = text_after(position, first_pair(oracle, position));
    let value = leaf_value((oracle.value)(child, 1 - side_index(position)), child);
    if value > -INFINITY {
        -value
    } else {
        INFINITY as int
    }
}

/// The smallest search chooses the first ranked pair: where the source ranked
/// first and the destination ranked first for it make a legal move, a search
/// of one level with one source and one destination hands back that move with
/// the turned score of the position after it, makes one node and puts two
/// questions.
pub proof fn first_pair_is_chosen(oracle: Oracle, position: Seq<char>)
    requires
        legal_moves(position).contains(first_pair(oracle, position)),
    ensures
        searched(oracle, single(), position, 1) == (Found {
            outcome: Some(
                (Some(first_pair(oracle, position)), first_pair_score(oracle, position)),
            ),
            nodes: 1,
            calls: 2,
        }),
{
    let level = ranked_level(oracle, single(), position, 1);
    let mv = first_pair(oracle, position);
    let child = text_after(position, mv);
    let value = leaf_value((oracle.value)(child, 1 - side_index(position)), child);
    assert(legal_moves(position).len() > 0);
    assert(scan(position, level.from[0] as int, level.to[0], 0, 1) == Some(0int));
    assert(resolve(position, level.from, level.to, 0, 1) == Some(mv));
    let after = scored(Level { child, ..level }, value, 1);
    assert(after.i == 1 && after.i2 == 0 && after.best == (0int, 0int));
    assert(explored(oracle, single(), after) == (Tried { level: after, nodes: 0, calls: 0 }));
    assert(explored(oracle, single(), level) == (Tried { level: after, nodes: 1, calls: 0 }));
    assert(resolve(after.position, after.from, after.to, 0, 1) == Some(mv));
}

/// The engine on the smallest search: driven by an oracle whose first ranked
/// pair is a legal move of the engine's position, a root search of one level
/// with one source and one destination is over after some number of steps with
/// that move and its score, which the engine has recorded, with one node and
/// with two questions put.
pub proof fn smallest_search_picks_first_pair(oracle: Oracle, session: Session) -> (steps: nat)
    requires
        limits_of(session) == single(),
        legal_moves(session.position).contains(first_pair(oracle, session.position)),
    ensures
        ({
            let end = driven(oracle, begin(session, 1), steps);
            let mv = first_pair(oracle, session.position);
            let score = first_pair_score(oracle, session.position);
            &&& end.1 == (Ask::Done { outcome: Some((Some(mv), score)) })
            &&& end.0.best_move == mv
            &&& end.0.best_score == score
            &&& end.0.nodes == 1
            &&& end.0.ml_calls == 2
            &&& end.0.position == session.position
        }),
{
    first_pair_is_chosen(oracle, session.position);
    search_is_negamax(oracle, session, 1)
}

/// The most nodes that a search of so many levels can make: each of its pairs
/// is one node and may be searched with one level less.
pub open spec fn node_budget(limits: Limits, levels: int) -> int
    decreases levels,
{
    if levels <= 0 {
        0
    } else {
        limits.pieces * limits.moves * (1 + node_budget(limits, levels - 1))
    }
}

/// A budget of nodes is not negative.
pub proof fn node_budget_is_counted(limits: Limits, levels: int)
    requires
        0 <= limits.pieces,
        0 <= limits.moves,
    ensures
        node_budget(limits, levels) >= 0,
    decreases levels,
{
    if levels > 0 {
        node_budget_is_counted(limits, levels - 1);
        assert(limits.pieces * limits.moves * (1 + node_budget(limits, levels - 1)) >= 0)
            by (nonlinear_arith)
            requires
                0 <= limits.pieces,
                0 <= limits.moves,
                0 <= node_budget(limits, levels - 1),
        ;
    }
}

/// Whether a level's current pair is a pair of the limits, or the one after
/// the last.
pub open spec fn pair_in_turn(limits: Limits, level: Level) -> bool {
    &&& 0 <= level.i <= limits.pieces
    &&& 0 <= level.i2 < limits.moves
    &&& level.i == limits.pieces ==> level.i2 == 0
}

/// A search stays within its budget and asks in twos. A search at a depth
/// makes no more nodes than the budget of the levels from that depth down, so
/// no more than `pieces * moves` at the deepest level; and the questions it
/// puts to the predictors are an even number.
pub proof fn search_is_bounded(oracle: Oracle, limits: Limits, position: Seq<char>, depth: int)
    requires
        1 <= limits.pieces,
        1 <= limits.moves,
        depth <= limits.depth,
    ensures
        0 <= searched(oracle, limits, position, depth).nodes <= node_budget(
            limits,
            limits.depth - depth + 1,
        ),
        searched(oracle, limits, position, depth).calls >= 0,
        searched(oracle, limits, position, depth).calls % 2 == 0,
    decreases limits.depth - depth, 1int, 0int, 0int,
{
    node_budget_is_counted(limits, limits.depth - depth + 1);
    if legal_moves(position).len() > 0 {
        let level = ranked_level(oracle, limits, position, depth);
        pairs_are_bounded(oracle, limits, level);
        assert(((limits.pieces - 0) * limits.moves - 0) * (1 + node_budget(
            limits,
            limits.depth - depth,
        )) == limits.pieces * limits.moves * (1 + node_budget(limits, limits.depth - depth)))
            by (nonlinear_arith);
    }
}

/// Trying the pairs of a level from its current pair on makes, for each pair
/// left, no more than one node and the budget of the levels below; and the
/// questions put on the way are an even number.
pub proof fn pairs_are_bounded(oracle: Oracle, limits: Limits, level: Level)
    requires
        1 <= limits.pieces,
        1 <= limits.moves,
        level.depth <= limits.depth,
        pair_in_turn(limits, level),
    ensures
        0 <= explored(oracle, limits, level).nodes <= ((limits.pieces - level.i) * limits.moves
            - level.i2) * (1 + node_budget(limits, limits.depth - level.depth)),
        explored(oracle, limits, level).calls >= 0,
        explored(oracle, limits, level).calls % 2 == 0,
    decreases limits.depth - level.depth, 0int, limits.pieces - level.i, limits.moves - level.i2,
{
    let below = node_budget(limits, limits.depth - level.depth);
    let left = (limits.pieces - level.i) * limits.moves - level.i2;
    node_budget_is_counted(limits, limits.depth - level.depth);
    assert(left >= 0) by (nonlinear_arith)
        requires
            left == (limits.pieces - level.i) * limits.moves - level.i2,
            0 <= level.i <= limits.pieces,
            0 <= level.i2 < limits.moves,
            level.i == limits.pieces ==> level.i2 == 0,
    ;
    assert(left * (1 + below) >= 0) by (nonlinear_arith)
        requires
            left >= 0,
            below >= 0,
    ;
    if 0 <= level.i < limits.pieces && 0 <= level.i2 < limits.moves {
        let next = match resolve(level.position, level.from, level.to, level.i, level.i2 + 1) {
            None => stepped(level, limits.moves),
            Some(mv) => {
                let child = text_after(level.position, mv);
                if level.depth >= limits.depth {
                    let value = leaf_value(
                        (oracle.value)(child, 1 - side_index(level.position)),
                        child,
                    );
                    scored(Level { child, ..level }, value, limits.moves)
                } else {
                    let found = searched(oracle, limits, child, level.depth + 1);
                    search_is_bounded(oracle, limits, child, level.depth + 1);
                    match found.outcome {
                        Some((_, value)) => scored(level, value, limits.moves),
                        None => stepped(level, limits.moves),
                    }
                }
            },
        };
        let next_left = (limits.pieces - next.i) * limits.moves - next.i2;
        assert(next_left == left - 1) by (nonlinear_arith)
            requires
                left == (limits.pieces - level.i) * limits.moves - level.i2,
                next_left == (limits.pieces - next.i) * limits.moves - next.i2,
                (next.i == level.i && next.i2 == level.i2 + 1) || (next.i == level.i + 1
                    && next.i2 == 0 && level.i2 + 1 == limits.moves),
        ;
        pairs_are_bounded(oracle, limits, next);
        assert((left - 1) * (1 + below) + 1 + below == left * (1 + below)) by (nonlinear_arith);
    }
}

} // verus!
