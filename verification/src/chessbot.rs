//! The engine: a position, the limits of its search, and a search that can be
//! run step by step.
//!
//! The engine does not score positions itself. [`ChessBot::find_best_move`]
//! begins a search and [`ChessBot::resume`] takes an answer into it; each hands
//! back a [`Request`] that says what the search needs next, or what it found.
//! Whoever drives the engine puts each request to the predictors or to the
//! evaluator and resumes with the reply.

use crate::mlchess::{best_from, best_to, encode_board, rows};
use crate::position::{legal_moves, start_text, text_after, Move, Position};
use crate::resolver::ensure_legal;
use crate::search::{
    accepts, answer_counts, answered, base_ok, begin, fresh_level, leaf_value, level_ok,
    limits_ok, outcome_of, pairs_left, ranked, recorded, resolutions, run, running, scored,
    source_ranking, stepped, taken, target_rankings, terminal_value, well_formed, work_left,
    Answer, Ask, Awaiting, Level, Session, FALLBACK_SCORE, INFINITY,
};
use crate::uci::{square_name, square_text};
use vstd::prelude::*;

verus! {

/// What a search needs next, or what it found.
#[derive(Debug)]
pub enum Request {
    /// The 128 source scores of an encoded position are needed.
    Sources { board: [i32; 64] },
    /// For each listed source square of an encoded position, the 64
    /// destination scores are needed.
    Targets { board: [i32; 64], squares: Vec<usize> },
    /// The evaluation of a position for a side is needed.
    Evaluate { position: Position, side: usize },
    /// The search is over: no result, or a move (none at a position without
    /// legal moves) and its score.
    Done { outcome: Option<(Option<Move>, i32)> },
}

impl View for Request {
    type V = Ask;

    open spec fn view(&self) -> Ask {
        match *self {
            Request::Sources { board } => Ask::Sources { board: board@ },
            Request::Targets { board, squares } => Ask::Targets {
                board: board@,
                squares: squares@,
            },
            Request::Evaluate { position, side } => Ask::Evaluate {
                position: position@,
                side: side as int,
            },
            Request::Done { outcome } => Ask::Done {
                outcome: match outcome {
                    Some((mv, score)) => Some((mv, score as int)),
                    None => None,
                },
            },
        }
    }
}

/// A reply to a request.
#[derive(Debug)]
pub enum Reply {
    /// One row of source scores for each encoded position that was sent.
    Sources(Vec<Vec<i64>>),
    /// One row of destination scores for each source square that was sent.
    Targets(Vec<Vec<i64>>),
    /// The evaluation.
    Evaluation(i32),
}

impl View for Reply {
    type V = Answer;

    open spec fn view(&self) -> Answer {
        match *self {
            Reply::Sources(table) => Answer::Sources(rows(table@)),
            Reply::Targets(table) => Answer::Targets(rows(table@)),
            Reply::Evaluation(evaluation) => Answer::Evaluation(evaluation as int),
        }
    }
}

/// One level of a search under way.
#[derive(Debug)]
struct Frame {
    board: Position,
    depth: usize,
    from: Vec<usize>,
    to: Vec<Vec<usize>>,
    i: usize,
    i2: usize,
    score: i32,
    best_i: usize,
    best_i2: usize,
    child: Position,
}

impl Frame {
    spec fn model(&self) -> Level {
        Level {
            position: self.board@,
            depth: self.depth as int,
            from: self.from@,
            to: rows(self.to@),
            i: self.i as int,
            i2: self.i2 as int,
            score: self.score as int,
            best: (self.best_i as int, self.best_i2 as int),
            child: self.child@,
        }
    }

    fn open(board: Position, depth: usize) -> (frame: Frame)
        ensures
            frame.model() == fresh_level(board@, depth as int),
    {
        let frame = Frame {
            board,
            depth,
            from: Vec::new(),
            to: Vec::new(),
            i: 0,
            i2: 0,
            score: -INFINITY,
            best_i: 0,
            best_i2: 0,
            child: board,
        };
        frame
    }

    fn step(&mut self, moves: usize)
        requires
            old(self).i < usize::MAX,
            old(self).i2 < moves,
        ensures
            final(self).model() == stepped(old(self).model(), moves as int),
    {
        if self.i2 + 1 < moves {
            self.i2 = self.i2 + 1;
        } else {
            self.i = self.i + 1;
            self.i2 = 0;
        }
    }

    fn take(&mut self, value: i32, moves: usize)
        requires
            old(self).i < usize::MAX,
            old(self).i2 < moves,
        ensures
            final(self).model() == scored(old(self).model(), value as int, moves as int),
    {
        if value > self.score {
            self.score = value;
            self.best_i = self.i;
            self.best_i2 = self.i2;
        }
        self.step(moves);
    }
}

spec fn levels_of(frames: Seq<Frame>) -> Seq<Level> {
    Seq::new(frames.len(), |k: int| frames[k].model())
}

/// A chess engine: the current position, the limits of its search, what its
/// last root search chose, and the search under way.
#[derive(Debug)]
pub struct ChessBot {
    board: Position,
    depth: usize,
    moves: usize,
    pieces: usize,
    nodes: usize,
    ml_calls: usize,
    best_move: Move,
    best_score: i32,
    frames: Vec<Frame>,
    awaiting: Awaiting,
}

impl View for ChessBot {
    type V = Session;

    closed spec fn view(&self) -> Session {
        Session {
            position: self.board@,
            depth: self.depth as int,
            pieces: self.pieces as int,
            moves: self.moves as int,
            nodes: self.nodes as int,
            ml_calls: self.ml_calls as int,
            best_move: self.best_move,
            best_score: self.best_score as int,
            levels: levels_of(self.frames@),
            awaiting: self.awaiting,
        }
    }
}

/// The session of an engine that has searched nothing yet: no level, no node,
/// no question, and e2 to e3 with a score of -10000 in the place of the best
/// move.
pub open spec fn new_session(position: Seq<char>, depth: int, pieces: int, moves: int) -> Session {
    Session {
        position,
        depth,
        pieces,
        moves,
        nodes: 0,
        ml_calls: 0,
        best_move: Move::plain(12, 20),
        best_score: -10000,
        levels: Seq::empty(),
        awaiting: Awaiting::Nothing,
    }
}

impl ChessBot {
    /// Whether the engine's state is in order. Every engine that this module
    /// hands out is, and stays so.
    pub open spec fn wf(&self) -> bool {
        well_formed(self@)
    }

    /// An engine on the starting position that searches to depth 4 with 6
    /// sources and 6 destinations at each level.
    pub fn new() -> (bot: ChessBot)
        ensures
            bot.wf(),
            bot@ == new_session(start_text(), 4, 6, 6),
    {
        let bot = ChessBot {
            board: Position::start(),
            depth: 4,
            moves: 6,
            pieces: 6,
            nodes: 0,
            ml_calls: 0,
            best_move: Move { from: 12, to: 20, promotion: None },
            best_score: -10000,
            frames: Vec::new(),
            awaiting: Awaiting::Nothing,
        };
        bot
    }

    /// An engine on the starting position with limits of its own, where the
    /// limits are in order: a depth of at least 1, and from 1 to 64 sources and
    /// destinations.
    pub fn with_limits(depth: usize, pieces: usize, moves: usize) -> (made: Option<ChessBot>)
        ensures
            made is Some <==> depth >= 1 && 1 <= pieces <= 64 && 1 <= moves <= 64,
            made matches Some(bot) ==> bot.wf() && bot@ == new_session(
                start_text(),
                depth as int,
                pieces as int,
                moves as int,
            ),
    {
        if depth < 1 || pieces < 1 || pieces > 64 || moves < 1 || moves > 64 {
            return None;
        }
        let bot = ChessBot {
            board: Position::start(),
            depth,
            moves,
            pieces,
            nodes: 0,
            ml_calls: 0,
            best_move: Move { from: 12, to: 20, promotion: None },
            best_score: -10000,
            frames: Vec::new(),
            awaiting: Awaiting::Nothing,
        };
        Some(bot)
    }

    /// The current position.
    pub fn position(&self) -> (board: Position)
        ensures
            board@ == self@.position,
    {
        self.board
    }

    /// The moves made in the search since the last root entry.
    pub fn nodes(&self) -> (count: usize)
        ensures
            count == self@.nodes,
    {
        self.nodes
    }

    /// The questions put to the predictors since the last root entry.
    pub fn ml_calls(&self) -> (count: usize)
        ensures
            count == self@.ml_calls,
    {
        self.ml_calls
    }

    /// The move that the last root search chose.
    pub fn best_move(&self) -> (mv: Move)
        ensures
            mv == self@.best_move,
    {
        self.best_move
    }

    /// The score of that move.
    pub fn best_score(&self) -> (score: i32)
        ensures
            score == self@.best_score,
    {
        self.best_score
    }

    /// What the search under way waits for.
    pub fn awaiting(&self) -> (kind: Awaiting)
        ensures
            kind == self@.awaiting,
    {
        self.awaiting
    }

    /// Puts the starting position on the board. A search under way is given
    /// up; the counters and the recorded best move stay.
    pub fn reset_board(&mut self)
        requires
            old(self).wf(),
        ensures
            final(self).wf(),
            final(self)@ == (Session {
                position: start_text(),
                levels: Seq::empty(),
                awaiting: Awaiting::Nothing,
                ..old(self)@
            }),
    {
        self.board = Position::start();
        self.frames = Vec::new();
        self.awaiting = Awaiting::Nothing;
    }

    /// Makes a move on the board if it is legal there, and leaves the board as
    /// it is if not. A search under way is given up; the counters and the
    /// recorded best move stay.
    pub fn make_move(&mut self, mv: Move)
        requires
            old(self).wf(),
        ensures
            final(self).wf(),
            final(self)@ == (Session {
                position: if mv.wf() && legal_moves(old(self)@.position).contains(mv) {
                    text_after(old(self)@.position, mv)
                } else {
                    old(self)@.position
                },
                levels: Seq::empty(),
                awaiting: Awaiting::Nothing,
                ..old(self)@
            }),
    {
        match self.board.play(mv) {
            Some(next) => {
                self.board = next;
            },
            None => {},
        }
        self.frames = Vec::new();
        self.awaiting = Awaiting::Nothing;
    }

    /// Names a square of the board, 0 to 63: `a1` for 0, `b1` for 1, `h8` for 63.
    pub fn sqr_to_str(sqr: i32) -> (text: String)
        requires
            0 <= sqr < 64,
        ensures
            text@ == square_name(sqr as int),
    {
        square_text(sqr as u8)
    }

    /// Begins a search of the current position at a depth, 1 for the root, and
    /// says what the search needs first or, where it is over at once, what it
    /// found.
    pub fn find_best_move(&mut self, depth: usize) -> (request: Request)
        requires
            old(self).wf(),
        ensures
            final(self).wf(),
            (final(self)@, request@) == begin(old(self)@, depth as int),
            final(self)@.position == old(self)@.position,
            request matches Request::Done { outcome: Some((Some(mv), _)) } ==> mv.wf()
                && legal_moves(old(self)@.position).contains(mv),
    {
        if depth < 1 || depth > self.depth {
            return Request::Done { outcome: None };
        }
        if depth == 1 {
            self.nodes = 0;
            self.ml_calls = 0;
        }
        self.frames = Vec::new();
        if self.board.legal_move_count() < 1 {
            let value: i32 = if self.board.is_checkmate() {
                INFINITY / 3
            } else {
                0
            };
            self.awaiting = Awaiting::Nothing;
            return Request::Done { outcome: Some((None, value)) };
        }
        let frame = Frame::open(self.board, depth);
        self.frames.push(frame);
        self.awaiting = Awaiting::Sources;
        let board = encode_board(&self.board);
        Request::Sources { board }
    }
}

/// The value of an outcome's score as a number.
pub open spec fn outcome_view(outcome: Option<(Option<Move>, i32)>) -> Option<(Option<Move>, int)> {
    match outcome {
        Some((mv, score)) => Some((mv, score as int)),
        None => None,
    }
}

fn copy_prefix(list: &[usize], count: usize) -> (copy: Vec<usize>)
    requires
        count <= list@.len(),
    ensures
        copy@ == list@.subrange(0, count as int),
{
    let mut copy: Vec<usize> = Vec::new();
    let mut k: usize = 0;
    while k < count
        invariant
            k <= count <= list@.len(),
            copy@ == list@.subrange(0, k as int),
        decreases count - k,
    {
        copy.push(list[k]);
        k += 1;
    }
    copy
}

proof fn levels_push(frames: Seq<Frame>, frame: Frame)
    ensures
        levels_of(frames.push(frame)) == levels_of(frames).push(frame.model()),
{
}

proof fn levels_drop(frames: Seq<Frame>)
    requires
        frames.len() > 0,
    ensures
        levels_of(frames.drop_last()) == levels_of(frames).drop_last(),
        levels_of(frames).last() == frames.last().model(),
{
}

proof fn pairs_left_steps(level: Level, pieces: int, moves: int)
    requires
        0 <= level.i < pieces,
        0 <= level.i2 < moves,
    ensures
        pairs_left(level, pieces, moves) >= 1,
        pairs_left(stepped(level, moves), pieces, moves) == pairs_left(level, pieces, moves) - 1,
{
    assert((pieces - (level.i + 1)) * moves == (pieces - level.i) * moves - moves)
        by (nonlinear_arith);
}

proof fn work_left_push(levels: Seq<Level>, level: Level, pieces: int, moves: int)
    ensures
        work_left(levels.push(level), pieces, moves) == work_left(levels, pieces, moves)
            + pairs_left(level, pieces, moves),
{
    assert(levels.push(level).drop_last() =~= levels);
}

proof fn work_left_bounds(levels: Seq<Level>, session: Session)
    requires
        limits_ok(session),
        forall|k: int| 0 <= k < levels.len() ==> level_ok(#[trigger] levels[k], session),
    ensures
        0 <= work_left(levels, session.pieces, session.moves) <= levels.len() * (session.pieces
            * session.moves),
    decreases levels.len(),
{
    if levels.len() > 0 {
        work_left_bounds(levels.drop_last(), session);
        let level = levels.last();
        let p = session.pieces;
        let m = session.moves;
        assert(0 <= (p - level.i) * m - level.i2 <= p * m) by (nonlinear_arith)
            requires
                0 <= level.i <= p,
                0 <= level.i2 < m,
                level.i == p ==> level.i2 == 0,
        ;
        assert(levels.len() * (p * m) == (levels.len() - 1) * (p * m) + p * m)
            by (nonlinear_arith);
    }
}

impl ChessBot {
    /// Ends a level whose pairs are all tried: resolves its best pair again,
    /// falls back at the root, and records what the root chose.
    fn finish(&mut self, frame: &Frame) -> (outcome: Option<(Option<Move>, i32)>)
        requires
            base_ok(old(self)@),
            level_ok(frame.model(), old(self)@),
            ranked(frame.model(), old(self)@.pieces),
        ensures
            outcome_view(outcome) == outcome_of(frame.model()),
            final(self)@ == recorded(old(self)@, frame.model()),
            base_ok(final(self)@),
            final(self).frames == old(self).frames,
            outcome matches Some((Some(mv), _)) ==> mv.wf() && legal_moves(frame.board@).contains(
                mv,
            ),
            outcome matches Some((_, score)) ==> score >= -i32::MAX,
    {
        let chosen = match ensure_legal(
            &frame.board,
            frame.from.as_slice(),
            frame.to.as_slice(),
            frame.best_i,
            frame.best_i2 + 1,
        ) {
            Some(mv) => Some((mv, -frame.score)),
            None => if frame.depth == 1 {
                match ensure_legal(
                    &frame.board,
                    frame.from.as_slice(),
                    frame.to.as_slice(),
                    0,
                    1,
                ) {
                    Some(mv) => Some((mv, -frame.score)),
                    None => match frame.board.first_legal_move() {
                        Some(mv) => Some((mv, FALLBACK_SCORE)),
                        None => None,
                    },
                }
            } else {
                None
            },
        };
        match chosen {
            Some((mv, score)) => {
                if frame.depth == 1 {
                    self.best_move = mv;
                    self.best_score = score;
                }
                Some((Some(mv), score))
            },
            None => {
                None
            },
        }
    }

    /// Tries pairs until the search needs an answer or is over.
    fn advance(&mut self) -> (request: Request)
        requires
            running(old(self)@),
            old(self)@.nodes + work_left(
                old(self)@.levels,
                old(self)@.pieces,
                old(self)@.moves,
            ) <= usize::MAX,
        ensures
            final(self).wf(),
            (final(self)@, request@) == run(old(self)@),
            final(self)@.position == old(self)@.position,
            final(self)@.ml_calls == old(self)@.ml_calls,
            final(self)@.nodes >= old(self)@.nodes,
            request matches Request::Done { outcome: Some((Some(mv), _)) } ==> mv.wf()
                && legal_moves(old(self)@.position).contains(mv),
    {
        let ghost start = self@;
        loop
            invariant
                running(self@),
                self@.nodes + work_left(self@.levels, self@.pieces, self@.moves) <= usize::MAX,
                run(self@) == run(start),
                self@.position == start.position,
                self@.ml_calls == start.ml_calls,
                self@.nodes >= start.nodes,
                start == old(self)@,
            decreases
                    self.frames@.len(),
                    self.pieces - self.frames@.last().i,
                    self.moves - self.frames@.last().i2,
        {
            let ghost before = self@;
            let ghost frames_before = self.frames@;
            proof {
                levels_drop(self.frames@);
                work_left_bounds(before.levels.drop_last(), before);
            }
            let mut frame = self.frames.pop().unwrap();
            let ghost below = levels_of(self.frames@);
            let ghost level = frame.model();
            if frame.i < self.pieces {
                proof {
                    pairs_left_steps(level, before.pieces, before.moves);
                }
                match ensure_legal(
                    &frame.board,
                    frame.from.as_slice(),
                    frame.to.as_slice(),
                    frame.i,
                    frame.i2 + 1,
                ) {
                    None => {
                        frame.step(self.moves);
                        self.frames.push(frame);
                        proof {
                            let next = stepped(level, before.moves);
                            levels_push(frames_before.drop_last(), frame);
                            work_left_push(below, next, before.pieces, before.moves);
                        }
                    },
                    Some(mv) => {
                        self.nodes = self.nodes + 1;
                        let child = frame.board.apply(mv);
                        if frame.depth >= self.depth {
                            frame.child = child;
                            let side = frame.board.side_to_move();
                            self.frames.push(frame);
                            self.awaiting = Awaiting::Evaluation;
                            proof {
                                let held = Level { child: child@, ..level };
                                assert(self@ =~= (Session {
                                    levels: below.push(held),
                                    awaiting: Awaiting::Evaluation,
                                    nodes: before.nodes + 1,
                                    ..before
                                }));
                            }
                            return Request::Evaluate { position: child, side: 1 - side };
                        } else if child.legal_move_count() < 1 {
                            let value: i32 = if child.is_checkmate() {
                                INFINITY / 3
                            } else {
                                0
                            };
                            frame.take(value, self.moves);
                            self.frames.push(frame);
                            proof {
                                let next = scored(level, terminal_value(child@), before.moves);
                                work_left_push(below, next, before.pieces, before.moves);
                                assert(self@ =~= (Session {
                                    levels: below.push(next),
                                    nodes: before.nodes + 1,
                                    ..before
                                }));
                            }
                        } else {
                            let depth = frame.depth + 1;
                            self.frames.push(frame);
                            let opened = Frame::open(child, depth);
                            self.frames.push(opened);
                            self.awaiting = Awaiting::Sources;
                            let board = encode_board(&child);
                            proof {
                                let fresh = fresh_level(child@, level.depth + 1);
                                assert(self@ =~= (Session {
                                    levels: before.levels.push(fresh),
                                    awaiting: Awaiting::Sources,
                                    nodes: before.nodes + 1,
                                    ..before
                                }));
                            }
                            return Request::Sources { board };
                        }
                    },
                }
            } else {
                let outcome = self.finish(&frame);
                let ghost stored = recorded(before, level);
                if self.frames.len() == 0 {
                    self.awaiting = Awaiting::Nothing;
                    assert(self@ =~= (Session {
                        levels: below,
                        awaiting: Awaiting::Nothing,
                        ..stored
                    }));
                    return Request::Done { outcome };
                }
                let ghost frames_below = self.frames@;
                proof {
                    levels_drop(self.frames@);
                }
                let mut parent = self.frames.pop().unwrap();
                let ghost waiting = parent.model();
                let ghost rest = levels_of(self.frames@);
                proof {
                    pairs_left_steps(waiting, before.pieces, before.moves);
                }
                match outcome {
                    Some((_, value)) => {
                        parent.take(value, self.moves);
                    },
                    None => {
                        parent.step(self.moves);
                    },
                }
                self.frames.push(parent);
                proof {
                    let resumed = match outcome_of(level) {
                        Some((_, value)) => scored(waiting, value, before.moves),
                        None => stepped(waiting, before.moves),
                    };
                    levels_push(frames_below.drop_last(), parent);
                    work_left_push(rest, resumed, before.pieces, before.moves);
                    assert(self@ =~= (Session { levels: rest.push(resumed), ..stored }));
                }
            }
        }
    }
}

impl ChessBot {
    /// Takes a reply into the search that waits for it, goes on with the
    /// search, and says what it needs next or what it found.
    ///
    /// Each move that the search makes counts as one node, and each ranking of
    /// candidates that the destination scores complete as two questions to the
    /// predictors. A move that the search hands out in the end is a legal move
    /// of the engine's position.
    pub fn resume(&mut self, reply: Reply) -> (request: Request)
        requires
            old(self).wf(),
            accepts(old(self)@, reply@),
        ensures
            final(self).wf(),
            (final(self)@, request@) == answered(old(self)@, reply@),
            final(self)@.position == old(self)@.position,
            final(self)@.nodes == old(self)@.nodes + (if reply is Sources {
                0
            } else {
                resolutions(taken(old(self)@, reply@))
            }),
            final(self)@.ml_calls == old(self)@.ml_calls + (if reply is Targets {
                2int
            } else {
                0int
            }),
            request matches Request::Done { outcome: Some((Some(mv), _)) } ==> mv.wf()
                && legal_moves(old(self)@.position).contains(mv),
    {
        let ghost before = self@;
        let ghost frames_before = self.frames@;
        proof {
            levels_drop(self.frames@);
            work_left_bounds(before.levels, before);
            answer_counts(before, reply@);
        }
        let mut frame = self.frames.pop().unwrap();
        let ghost below = levels_of(self.frames@);
        let ghost level = frame.model();
        match reply {
            Reply::Sources(table) => {
                let side = frame.board.side_to_move();
                proof {
                    assert forall|b: int| 0 <= b < table@.len() implies #[trigger] table@[b]@.len()
                        >= 128 by {
                        assert(rows(table@)[b] == table@[b]@);
                    }
                }
                let rankings = best_from(&table);
                let from = copy_prefix(rankings[0][side].as_slice(), 64);
                let squares = copy_prefix(from.as_slice(), self.pieces);
                let board = encode_board(&frame.board);
                frame.from = from;
                self.frames.push(frame);
                self.awaiting = Awaiting::Targets;
                proof {
                    let ranking = source_ranking(rows(table@)[0], side as int);
                    let held = Level { from: ranking, ..level };
                    assert(frame.model() =~= held);
                    assert(self@ =~= (Session {
                        levels: below.push(held),
                        awaiting: Awaiting::Targets,
                        ..before
                    }));
                }
                Request::Targets { board, squares }
            },
            Reply::Targets(table) => {
                frame.to = best_to(&table);
                self.frames.push(frame);
                self.ml_calls = self.ml_calls + 2;
                proof {
                    let held = Level { to: target_rankings(rows(table@)), ..level };
                    assert(frame.model() =~= held);
                    work_left_push(below, held, before.pieces, before.moves);
                    assert(self@ =~= (Session {
                        levels: below.push(held),
                        ml_calls: before.ml_calls + 2,
                        ..before
                    }));
                }
                self.advance()
            },
            Reply::Evaluation(evaluation) => {
                let value: i32 = if frame.child.is_checkmate() {
                    evaluation + INFINITY / 2
                } else {
                    evaluation
                };
                frame.take(value, self.moves);
                self.frames.push(frame);
                proof {
                    let next = scored(
                        level,
                        leaf_value(evaluation as int, level.child),
                        before.moves,
                    );
                    pairs_left_steps(
                        Level { score: value as int, best: (level.i, level.i2), ..level },
                        before.pieces,
                        before.moves,
                    );
                    levels_push(frames_before.drop_last(), frame);
                    work_left_push(below, next, before.pieces, before.moves);
                }
                self.advance()
            },
        }
    }
}

fn rows_at_least(table: &Vec<Vec<i64>>, width: usize) -> (all: bool)
    ensures
        all == forall|r: int| 0 <= r < rows(table@).len() ==> (#[trigger] rows(table@)[r]).len()
            >= width,
{
    let mut r: usize = 0;
    while r < table.len()
        invariant
            r <= table@.len(),
            forall|k: int| 0 <= k < r ==> (#[trigger] rows(table@)[k]).len() >= width,
        decreases table@.len() - r,
    {
        if table[r].len() < width {
            assert(rows(table@)[r as int].len() < width);
            return false;
        }
        r += 1;
    }
    true
}

fn rows_exactly(table: &Vec<Vec<i64>>, width: usize) -> (all: bool)
    ensures
        all == forall|r: int| 0 <= r < rows(table@).len() ==> (#[trigger] rows(table@)[r]).len()
            == width,
{
    let mut r: usize = 0;
    while r < table.len()
        invariant
            r <= table@.len(),
            forall|k: int| 0 <= k < r ==> (#[trigger] rows(table@)[k]).len() == width,
        decreases table@.len() - r,
    {
        if table[r].len() != width {
            assert(rows(table@)[r as int].len() != width);
            return false;
        }
        r += 1;
    }
    true
}

impl ChessBot {
    /// Whether a reply can be taken: a search waits for a reply of its kind,
    /// the reply has the shape that was asked for, and no score or counter
    /// would leave its machine range.
    pub fn can_resume(&self, reply: &Reply) -> (fits: bool)
        requires
            self.wf(),
        ensures
            fits == accepts(self@, reply@),
    {
        if self.frames.len() == 0 {
            return false;
        }
        assert(self@.pieces * self@.moves <= 4096) by (nonlinear_arith)
            requires
                0 <= self@.pieces <= 64,
                0 <= self@.moves <= 64,
        ;
        let per_level = self.pieces * self.moves;
        let room = match self.frames.len().checked_mul(per_level) {
            Some(work) => match self.nodes.checked_add(work) {
                Some(_) => true,
                None => false,
            },
            None => false,
        };
        if !room {
            return false;
        }
        match reply {
            Reply::Sources(table) => {
                let wide = rows_at_least(table, 128);
                self.awaiting == Awaiting::Sources && table.len() >= 1 && wide
            },
            Reply::Targets(table) => {
                let wide = rows_exactly(table, 64);
                self.awaiting == Awaiting::Targets && table.len() >= self.pieces && wide
                    && self.ml_calls <= usize::MAX - 2
            },
            Reply::Evaluation(evaluation) => {
                if self.awaiting == Awaiting::Evaluation {
                    let mate = self.frames[self.frames.len() - 1].child.is_checkmate();
                    !mate || *evaluation <= i32::MAX - INFINITY / 2
                } else {
                    false
                }
            },
        }
    }

    /// Takes a reply into the search if it can be taken, as [`resume`] does,
    /// and leaves the engine as it is if not.
    ///
    /// [`resume`]: ChessBot::resume
    pub fn try_resume(&mut self, reply: Reply) -> (request: Option<Request>)
        requires
            old(self).wf(),
        ensures
            final(self).wf(),
            request is Some <==> accepts(old(self)@, reply@),
            request matches Some(next) ==> (final(self)@, next@) == answered(old(self)@, reply@),
            request is None ==> final(self)@ == old(self)@,
    {
        if self.can_resume(&reply) {
            Some(self.resume(reply))
        } else {
            None
        }
    }
}

} // verus!
