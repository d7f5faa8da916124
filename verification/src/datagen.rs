//! Training data for the network: self-play games, each move searched with a
//! fixed node budget, each position recorded with the search's score and
//! the game's result.
//!
//! Every game is a pure function of (seed, index, node budget): an opening
//! drawn by a seeded generator, the table cleared at the start of each game,
//! one thread per search. The score is written from White's point of view,
//! and a castling or an en-passant capture carries a flag the two squares
//! alone do not give.
use vstd::prelude::*;

use crate::board::{
    spec_fen, spec_hash, initial_state, spec_checkers, spec_is_legal, spec_legal_moves, spec_play, BoardState,
    Chessboard,
};
use crate::eval::{insufficient_spec, is_insufficient_material};
use crate::position::{repetitions_spec, Position};
use crate::search::{next_random, scramble, xorshift, Info, Limits, Score, Search};
use crate::text::{parse_unsigned, same_text, unsigned_value};
use crate::types::{Color, Move, Piece};
use crate::bitboard::contains;

verus! {

/// The node budget per move by default.
pub const DEFAULT_NODES: u64 = 5_000;

/// Random plies of an opening, at least.
pub const OPENING_MIN_PLIES: u32 = 8;

/// Random plies of an opening, beyond the minimum: up to this many more.
pub const OPENING_EXTRA_PLIES: u64 = 4;

/// Beyond this score at the first position, the opening is unbalanced and
/// the game discarded.
pub const OPENING_MAX_SCORE: i32 = 1_000;

/// A score beyond which a side is winning, for adjudication.
pub const WIN_ADJ_SCORE: i32 = 2_000;

/// Consecutive plies of a winning score that adjudicate the game.
pub const WIN_ADJ_PLIES: u32 = 8;

/// The longest game; beyond it, a draw by adjudication.
pub const MAX_GAME_PLIES: u32 = 400;

/// The score written for a mate, from the mating side's point of view.
pub const MATE_SCORE: i16 = 32_000;

/// The bound of a centipawn score, short of the mate score.
pub const CP_LIMIT: i32 = 31_000;

/// A value of 64 bits, wrapped.
pub open spec fn wrap64(x: int) -> u64 {
    (x % 0x1_0000_0000_0000_0000) as u64
}

/// The seed of game `index`: splitmix64 of the seed and the index, forced
/// odd since zero is a fixed point of xorshift.
pub open spec fn game_seed_spec(seed: u64, index: u64) -> u64 {
    let z0 = wrap64(seed + wrap64(index * 0x9E37_79B9_7F4A_7C15));
    let z1 = wrap64((z0 ^ (z0 >> 30u64)) * 0xBF58_476D_1CE4_E5B9);
    let z2 = wrap64((z1 ^ (z1 >> 27u64)) * 0x94D0_49BB_1331_11EB);
    (z2 ^ (z2 >> 31u64)) | 1
}

/// The seed of game `index` of a generation seeded `seed`.
pub fn game_seed(seed: u64, index: u64) -> (r: u64)
    ensures
        r == game_seed_spec(seed, index),
        r % 2 == 1,
{
    let mut z = seed.wrapping_add(index.wrapping_mul(0x9E37_79B9_7F4A_7C15));
    z = (z ^ (z >> 30u64)).wrapping_mul(0xBF58_476D_1CE4_E5B9);
    z = (z ^ (z >> 27u64)).wrapping_mul(0x94D0_49BB_1331_11EB);
    let r = (z ^ (z >> 31u64)) | 1;
    proof {
        let y = z ^ (z >> 31u64);
        assert((y | 1) % 2 == 1) by (bit_vector);
    }
    r
}

/// The random walk of an opening: the board after `plies` random legal
/// moves from `s`, or `None` if a position on the way has no legal move;
/// and the generator's state afterwards.
pub open spec fn opening_walk(s: BoardState, plies: nat, state: u64) -> (Option<BoardState>, u64)
    decreases plies,
{
    if plies == 0 {
        (Some(s), state)
    } else {
        let moves = spec_legal_moves(s);
        if moves.len() == 0 {
            (None, state)
        } else {
            let next = xorshift(state);
            let m = moves[scramble(next) as int % moves.len() as int];
            opening_walk(spec_play(s, m), (plies - 1) as nat, next)
        }
    }
}

/// Plays `plies` random moves from the starting position; `None` if a
/// position on the way, or the last one, has no legal move.
pub fn random_opening(plies: u32, state: &mut u64) -> (r: Option<Chessboard>)
    ensures
        *final(state) == opening_walk(initial_state(), plies as nat, *old(state)).1,
        r matches Some(b) ==> Some(b@) == opening_walk(initial_state(), plies as nat, *old(state)).0
            && spec_legal_moves(b@).len() > 0,
        opening_walk(initial_state(), plies as nat, *old(state)).0 matches Some(s)
            && spec_legal_moves(s).len() > 0 ==> r is Some,
{
    let mut board = Chessboard::startpos();
    let mut k: u32 = 0;
    while k < plies
        invariant
            k <= plies,
            opening_walk(initial_state(), plies as nat, *old(state)) == opening_walk(
                board@,
                (plies - k) as nat,
                *state,
            ),
        decreases plies - k,
    {
        let moves = board.legal_moves();
        if moves.len() == 0 {
            return None;
        }
        let drawn = next_random(state);
        let index = (drawn % (moves.len() as u64)) as usize;
        proof {
            assert(moves@.contains(moves@[index as int]));
        }
        board = board.play(moves[index]);
        k = k + 1;
    }
    let moves = board.legal_moves();
    if moves.len() == 0 {
        None
    } else {
        Some(board)
    }
}

/// The score of a search brought to White's point of view and to the
/// format's scale; `None` for a mate in zero moves, which has no sign.
pub open spec fn white_relative_spec(score: Score, side_to_move: Color) -> Option<i16> {
    let stm: Option<int> = match score {
        Score::Cp(cp) => Some(
            if cp < -CP_LIMIT {
                -CP_LIMIT as int
            } else if cp > CP_LIMIT {
                CP_LIMIT as int
            } else {
                cp as int
            },
        ),
        Score::Mate(moves) => if moves > 0 {
            Some(MATE_SCORE as int)
        } else if moves < 0 {
            Some(-MATE_SCORE as int)
        } else {
            None
        },
    };
    match stm {
        None => None,
        Some(v) => Some(
            (if side_to_move == Color::White {
                v
            } else {
                -v
            }) as i16,
        ),
    }
}

/// The score of a search from White's point of view, on the format's scale.
pub fn white_relative(score: Score, side_to_move: Color) -> (r: Option<i16>)
    ensures
        r == white_relative_spec(score, side_to_move),
{
    let stm: i16 = match score {
        Score::Cp(cp) => if cp < -CP_LIMIT {
            -31_000
        } else if cp > CP_LIMIT {
            31_000
        } else {
            cp as i16
        },
        Score::Mate(moves) => if moves > 0 {
            MATE_SCORE
        } else if moves < 0 {
            -MATE_SCORE
        } else {
            return None;
        },
    };
    Some(
        match side_to_move {
            Color::White => stm,
            Color::Black => -stm,
        },
    )
}

/// How a game was won.
#[derive(Clone, Copy, Debug, PartialEq, Eq, Structural)]
pub enum WinKind {
    /// By mate.
    Mate,
    /// By a long winning score.
    Adjudication,
}

/// How a game was drawn.
#[derive(Clone, Copy, Debug, PartialEq, Eq, Structural)]
pub enum DrawKind {
    /// No legal move, not in check.
    Stalemate,
    /// The third occurrence of a position.
    Repetition,
    /// The fifty-move rule.
    FiftyMoves,
    /// Neither side can mate.
    InsufficientMaterial,
    /// The game reached its length limit.
    Adjudication,
}

/// The end of a game.
#[derive(Clone, Copy, Debug, PartialEq, Eq, Structural)]
pub enum Outcome {
    /// White won.
    WhiteWin(WinKind),
    /// Black won.
    BlackWin(WinKind),
    /// A draw.
    Draw(DrawKind),
}

/// The end the rules impose on a position, if any: no legal move first —
/// mate on the fiftieth move stays a mate — then the third occurrence, the
/// fifty-move rule, dead material.
pub open spec fn rule_outcome_spec(history: Seq<u64>, s: BoardState, hash: u64) -> Option<Outcome> {
    if spec_legal_moves(s).len() == 0 {
        Some(
            if spec_checkers(s) == 0 {
                Outcome::Draw(DrawKind::Stalemate)
            } else if s.side == Color::White {
                Outcome::BlackWin(WinKind::Mate)
            } else {
                Outcome::WhiteWin(WinKind::Mate)
            },
        )
    } else if repetitions_spec(history, hash, s.halfmove_clock as int) >= 2 {
        Some(Outcome::Draw(DrawKind::Repetition))
    } else if s.halfmove_clock >= 100 {
        Some(Outcome::Draw(DrawKind::FiftyMoves))
    } else if insufficient_spec(s) {
        Some(Outcome::Draw(DrawKind::InsufficientMaterial))
    } else {
        None
    }
}

/// The end the rules impose on a position, if any.
pub fn rule_outcome(position: &Position) -> (r: Option<Outcome>)
    requires
        position.wf(),
    ensures
        r == rule_outcome_spec(
            position.history_spec(),
            position.board_spec()@,
            spec_hash(position.board_spec()@),
        ),
{
    let board = position.board();
    if board.legal_moves().len() == 0 {
        return Some(
            if board.checkers() == 0 {
                Outcome::Draw(DrawKind::Stalemate)
            } else if board.side_to_move().same(Color::White) {
                Outcome::BlackWin(WinKind::Mate)
            } else {
                Outcome::WhiteWin(WinKind::Mate)
            },
        );
    }
    if position.repetition_count() >= 2 {
        return Some(Outcome::Draw(DrawKind::Repetition));
    }
    if position.is_fifty_move_draw() {
        return Some(Outcome::Draw(DrawKind::FiftyMoves));
    }
    if is_insufficient_material(board) {
        return Some(Outcome::Draw(DrawKind::InsufficientMaterial));
    }
    None
}

/// What distinguishes a move in the data format beyond its two squares.
#[derive(Clone, Copy, Debug, PartialEq, Eq, Structural)]
pub enum MoveKind {
    /// An ordinary move or capture.
    Normal,
    /// Castling, king takes rook.
    Castle,
    /// An en-passant capture.
    EnPassant,
    /// A promotion, to a knight, bishop, rook or queen.
    Promotion(Piece),
}

/// A move as the data format writes it.
#[derive(Clone, Copy, Debug, PartialEq, Eq, Structural)]
pub struct EncodedMove {
    /// The square left.
    pub from: u8,
    /// The square reached.
    pub to: u8,
    /// The flag the squares do not give.
    pub kind: MoveKind,
}

/// A move in the data format's encoding, its flags deduced from the position
/// before it: a castling is a king reaching a square its own side holds; an
/// en-passant capture a pawn changing file onto an empty square. `None` for
/// a move the format cannot write.
pub open spec fn encode_spec(s: BoardState, mv: Move) -> Option<EncodedMove> {
    if mv.from == mv.to {
        None
    } else if mv.promotion is Some {
        match mv.promotion.unwrap() {
            Piece::Pawn => None,
            Piece::King => None,
            p => Some(EncodedMove { from: mv.from, to: mv.to, kind: MoveKind::Promotion(p) }),
        }
    } else {
        match s.piece_at(mv.from as int) {
            None => None,
            Some(moved) => Some(
                EncodedMove {
                    from: mv.from,
                    to: mv.to,
                    kind: if moved == Piece::King && crate::bitboard::holds(
                        s.colors[crate::types::color_idx(s.side)],
                        mv.to as int,
                    ) {
                        MoveKind::Castle
                    } else if moved == Piece::Pawn && crate::types::file_of(mv.from as int)
                        != crate::types::file_of(mv.to as int) && s.piece_at(mv.to as int) is None {
                        MoveKind::EnPassant
                    } else {
                        MoveKind::Normal
                    },
                },
            ),
        }
    }
}

/// A move in the data format's encoding.
pub fn encode_move(board: &Chessboard, mv: Move) -> (r: Option<EncodedMove>)
    requires
        mv.wf(),
    ensures
        r == encode_spec(board@, mv),
{
    if mv.from == mv.to {
        return None;
    }
    if let Some(piece) = mv.promotion {
        return match piece {
            Piece::Pawn => None,
            Piece::King => None,
            _ => Some(EncodedMove { from: mv.from, to: mv.to, kind: MoveKind::Promotion(piece) }),
        };
    }
    let moved = match board.piece_on(mv.from) {
        Some(p) => p,
        None => {
            return None;
        },
    };
    let side = board.side_to_move();
    let kind = if moved.same(Piece::King) && contains(board.colors(side), mv.to) {
        MoveKind::Castle
    } else if moved.same(Piece::Pawn) && crate::types::file(mv.from) != crate::types::file(mv.to)
        && board.piece_on(mv.to).is_none() {
        MoveKind::EnPassant
    } else {
        MoveKind::Normal
    };
    Some(EncodedMove { from: mv.from, to: mv.to, kind })
}

/// A recorded game: its start, each move with the search's score from
/// White's point of view, and its end.
pub struct GameRecord {
    /// The FEN of the first position.
    pub start: String,
    /// The moves played, each with its score.
    pub moves: Vec<(EncodedMove, i16)>,
    /// The end of the game.
    pub outcome: Option<Outcome>,
}

/// The adjudication state after a score: the side winning and for how many
/// consecutive plies, and the outcome once the streak is long enough.
pub open spec fn adjudicate_spec(leader: Color, streak: u32, white: i16) -> (Color, u32, Option<
    Outcome,
>) {
    let magnitude = if white < 0 {
        -(white as int)
    } else {
        white as int
    };
    if magnitude >= WIN_ADJ_SCORE {
        let side = if white > 0 {
            Color::White
        } else {
            Color::Black
        };
        let count: u32 = if side == leader {
            (streak + 1) as u32
        } else {
            1
        };
        (
            side,
            count,
            if count >= WIN_ADJ_PLIES {
                Some(
                    if side == Color::White {
                        Outcome::WhiteWin(WinKind::Adjudication)
                    } else {
                        Outcome::BlackWin(WinKind::Adjudication)
                    },
                )
            } else {
                None
            },
        )
    } else {
        (leader, 0, None)
    }
}

/// Updates the adjudication state with a score.
pub fn adjudicate(leader: Color, streak: u32, white: i16) -> (r: (Color, u32, Option<Outcome>))
    requires
        streak < WIN_ADJ_PLIES,
    ensures
        r == adjudicate_spec(leader, streak, white),
        r.1 <= WIN_ADJ_PLIES,
{
    let magnitude: i32 = if white < 0 {
        -(white as i32)
    } else {
        white as i32
    };
    if magnitude >= WIN_ADJ_SCORE {
        let side = if white > 0 {
            Color::White
        } else {
            Color::Black
        };
        let count: u32 = if side.same(leader) {
            streak + 1
        } else {
            1
        };
        let outcome = if count >= WIN_ADJ_PLIES {
            Some(
                match side {
                    Color::White => Outcome::WhiteWin(WinKind::Adjudication),
                    Color::Black => Outcome::BlackWin(WinKind::Adjudication),
                },
            )
        } else {
            None
        };
        (side, count, outcome)
    } else {
        (leader, 0, None)
    }
}

/// The position after the first `n` moves of `played`, from `s`.
pub open spec fn replay_state(s: BoardState, played: Seq<Move>, n: int) -> BoardState
    decreases n,
{
    if n <= 0 {
        s
    } else {
        spec_play(replay_state(s, played, n - 1), played[n - 1])
    }
}

/// The keys of the positions of a game up to its `n`-th move, the first
/// position's included.
pub open spec fn replay_keys(s: BoardState, played: Seq<Move>, n: int) -> Seq<u64>
    decreases n,
{
    if n <= 0 {
        seq![spec_hash(s)]
    } else {
        replay_keys(s, played, n - 1).push(spec_hash(replay_state(s, played, n)))
    }
}

/// The adjudication state after the first `n` scores of a game.
pub open spec fn adjudication_after(scores: Seq<(EncodedMove, i16)>, n: int) -> (Color, u32, Option<Outcome>)
    decreases n,
{
    if n <= 0 {
        (Color::White, 0, None)
    } else {
        let before = adjudication_after(scores, n - 1);
        adjudicate_spec(before.0, before.1, scores[n - 1].1)
    }
}

/// The end the rules impose after the first `n` moves of a game.
pub open spec fn rule_end(s: BoardState, played: Seq<Move>, n: int) -> Option<Outcome> {
    rule_outcome_spec(replay_keys(s, played, n), replay_state(s, played, n), spec_hash(replay_state(s, played, n)))
}

/// Whether `moves` records the game of the legal moves `played` from `s`:
/// each move legal where it is played and written in the format's encoding,
/// the game not over — neither by the rules nor by adjudication — before
/// its last move, and its outcome the one due after it: adjudication first,
/// then the rules, and past the length limit a draw.
pub open spec fn records_game(s: BoardState, played: Seq<Move>, moves: Seq<(EncodedMove, i16)>, outcome: Option<Outcome>) -> bool {
    let n = moves.len() as int;
    &&& played.len() == n
    &&& 1 <= n <= MAX_GAME_PLIES
    &&& forall|i: int| 0 <= i < n ==> spec_is_legal(#[trigger] replay_state(s, played, i), played[i])
    &&& forall|i: int| 0 <= i < n ==> encode_spec(#[trigger] replay_state(s, played, i), played[i]) == Some(moves[i].0)
    &&& forall|i: int| 0 <= i < n ==> (#[trigger] rule_end(s, played, i)) is None
    &&& forall|i: int| 0 < i < n ==> (#[trigger] adjudication_after(moves, i)).2 is None
    &&& outcome == (if adjudication_after(moves, n).2 is Some {
        adjudication_after(moves, n).2
    } else if n < MAX_GAME_PLIES {
        rule_end(s, played, n)
    } else {
        Some(Outcome::Draw(DrawKind::Adjudication))
    })
    &&& outcome is Some
}

/// Whether the legal moves `played` from `s` make a game the rules let go on
/// up to its last move, every move but the last written in the format's
/// encoding, and the last one not writable in it.
pub open spec fn fails_to_encode(s: BoardState, played: Seq<Move>) -> bool {
    let n = played.len() - 1;
    &&& 0 <= n < MAX_GAME_PLIES
    &&& forall|i: int| 0 <= i <= n ==> spec_is_legal(#[trigger] replay_state(s, played, i), played[i])
    &&& forall|i: int| 0 <= i < n ==> encode_spec(#[trigger] replay_state(s, played, i), played[i]) is Some
    &&& forall|i: int| 0 <= i <= n ==> (#[trigger] rule_end(s, played, i)) is None
    &&& encode_spec(replay_state(s, played, n), played[n]) is None
}

/// Whether a search's score can be recorded: there is one, and it is not a
/// mate in zero.
pub open spec fn recordable(score: Option<Score>) -> bool {
    score matches Some(sc) && white_relative_spec(sc, Color::White) is Some
}

/// Whether a recordable score lies beyond `limit`, for either side.
pub open spec fn beyond(score: Option<Score>, limit: int) -> bool {
    score matches Some(sc) && (white_relative_spec(sc, Color::White) matches Some(w) && (w > limit
        || -w > limit))
}

/// Ignores a search report.
fn ignore_report(_info: &Info) {
}

/// Plays a game from `opening` and records it.
///
/// `Ok(None)`: the game is discarded — unbalanced opening beyond
/// `opening_limit`, or a search without a score. `Err`: a move the format
/// cannot write, and the whole generation must stop rather than produce
/// wrong data silently.
pub fn play_game(opening: Chessboard, nodes: u64, opening_limit: Option<i32>, search: &mut Search) -> (r:
    Result<Option<GameRecord>, String>)
    requires
        old(search).wf(),
    ensures
        final(search).wf(),
        r matches Ok(Some(g)) ==> g.outcome is Some && g.moves@.len() <= MAX_GAME_PLIES,
        r matches Ok(Some(g)) ==> forall|i: int|
            0 <= i < g.moves@.len() ==> -32_000 <= (#[trigger] g.moves@[i]).1 <= 32_000,
        r matches Ok(Some(g)) ==> g.start@ == spec_fen(opening@),
        r matches Ok(Some(g)) ==> exists|played: Seq<Move>|
            #[trigger] records_game(opening@, played, g.moves@, g.outcome),
        r matches Ok(Some(g)) ==> (opening_limit matches Some(limit) ==> -limit <= g.moves@[0].1 <= limit),
        r is Err ==> exists|played: Seq<Move>| #[trigger] fails_to_encode(opening@, played),
        rule_end(opening@, Seq::<Move>::empty(), 0) is Some ==> r matches Ok(None),
        r matches Ok(None) ==> rule_end(opening@, Seq::<Move>::empty(), 0) is Some || !recordable(
            final(search).last_result(),
        ) || (opening_limit matches Some(limit) && beyond(final(search).last_result(), limit as int)),
{
    search.clear_table();
    let mut limits = Limits::default();
    limits.nodes = Some(nodes);
    let start = opening.to_fen();
    let mut record = GameRecord { start, moves: Vec::new(), outcome: None };
    let mut position = Position::from_board(opening);
    let mut leader = Color::White;
    let mut streak: u32 = 0;
    let mut ply: u32 = 0;
    let ghost s0 = opening@;
    let ghost mut played: Seq<Move> = Seq::empty();
    while ply < MAX_GAME_PLIES
        invariant
            search.wf(),
            position.wf(),
            ply <= MAX_GAME_PLIES,
            record.moves@.len() == ply,
            record.outcome is None,
            streak < WIN_ADJ_PLIES,
            record.start@ == spec_fen(s0),
            s0 == opening@,
            played.len() == ply,
            position.board_spec()@ == replay_state(s0, played, ply as int),
            position.history_spec() == replay_keys(s0, played, ply as int),
            (leader, streak, None::<Outcome>) == adjudication_after(record.moves@, ply as int),
            forall|i: int| 0 <= i < ply ==> spec_is_legal(#[trigger] replay_state(s0, played, i), played[i]),
            forall|i: int| 0 <= i < ply ==> encode_spec(#[trigger] replay_state(s0, played, i), played[i]) == Some(record.moves@[i].0),
            forall|i: int| 0 <= i < ply ==> (#[trigger] rule_end(s0, played, i)) is None,
            forall|i: int| 0 < i < ply ==> (#[trigger] adjudication_after(record.moves@, i)).2 is None,
            ply > 0 ==> (opening_limit matches Some(limit) ==> -limit <= record.moves@[0].1 <= limit),
            ply > 0 ==> rule_end(s0, Seq::<Move>::empty(), 0) is None,
            limits.nodes == Some(nodes),
            limits.movetime is None && limits.wtime is None && limits.btime is None,
            !limits.infinite,
            forall|i: int| 0 <= i < record.moves@.len() ==> -32_000 <= (
            #[trigger] record.moves@[i]).1 <= 32_000,
        decreases MAX_GAME_PLIES - ply,
    {
        let ended = rule_outcome(&position);
        if let Some(outcome) = ended {
            record.outcome = Some(outcome);
            proof {
                if ply > 0 {
                    assert(records_game(s0, played, record.moves@, record.outcome));
                } else {
                    assert(rule_end(s0, Seq::<Move>::empty(), 0) == rule_end(s0, played, 0));
                }
            }
            return Ok(
                if record.moves.len() == 0 {
                    None
                } else {
                    Some(record)
                },
            );
        }
        let board = position.board().duplicate();
        let side = board.side_to_move();
        proof {
            assert(crate::search::budget_in_range(limits, position.board_spec()@.side));
        }
        proof {
            if ply == 0 {
                assert(rule_end(s0, Seq::<Move>::empty(), 0) == rule_end(s0, played, 0));
            }
            assert(spec_legal_moves(position.board_spec()@).len() > 0);
        }
        let mv = match search.go(&position, &limits, ignore_report) {
            Some(m) => m,
            None => {
                let mut message = String::from_str("aucun coup rendu dans une position jouable : ");
                message.append(board.to_fen().as_str());
                return Err(message);
            },
        };
        let white = match search.last_score() {
            Some(score) => match white_relative(score, side) {
                Some(w) => w,
                None => {
                    return Ok(None);
                },
            },
            None => {
                return Ok(None);
            },
        };
        if ply == 0 {
            if let Some(limit) = opening_limit {
                if (white as i32) > limit || -(white as i32) > limit {
                    return Ok(None);
                }
            }
        }
        let encoded = match encode_move(&board, mv) {
            Some(e) => e,
            None => {
                proof {
                    let next_played = played.push(mv);
                    assert forall|i: int| 0 <= i <= ply implies #[trigger] replay_state(
                        s0,
                        next_played,
                        i,
                    ) == replay_state(s0, played, i) && replay_keys(s0, next_played, i)
                        == replay_keys(s0, played, i) by {
                        lemma_replay_prefix(s0, played, next_played, i);
                    }
                    assert forall|i: int| 0 <= i <= ply implies (#[trigger] rule_end(
                        s0,
                        next_played,
                        i,
                    )) is None by {
                        lemma_replay_prefix(s0, played, next_played, i);
                        assert(rule_end(s0, next_played, i) == rule_end(s0, played, i));
                    }
                    assert forall|i: int| 0 <= i <= ply implies spec_is_legal(
                        #[trigger] replay_state(s0, next_played, i),
                        next_played[i],
                    ) by {
                        lemma_replay_prefix(s0, played, next_played, i);
                    }
                    assert forall|i: int| 0 <= i < ply implies encode_spec(
                        #[trigger] replay_state(s0, next_played, i),
                        next_played[i],
                    ) is Some by {
                        lemma_replay_prefix(s0, played, next_played, i);
                    }
                    assert(fails_to_encode(s0, next_played));
                }
                let mut message = String::from_str("coup ");
                message.append(board.uci_text(mv).as_str());
                message.append(" intraduisible dans ");
                message.append(board.to_fen().as_str());
                return Err(message);
            },
        };
        let ghost earlier = record.moves@;
        record.moves.push((encoded, white));
        let ghost next_played = played.push(mv);
        proof {
            assert(rule_end(s0, played, ply as int) is None);
            lemma_adjudication_prefix(earlier, record.moves@, ply as int);
            assert forall|i: int| 0 <= i <= ply implies #[trigger] replay_state(s0, next_played, i)
                == replay_state(s0, played, i) && replay_keys(s0, next_played, i) == replay_keys(
                s0,
                played,
                i,
            ) by {
                lemma_replay_prefix(s0, played, next_played, i);
            }
            assert forall|i: int| 0 < i <= ply implies (#[trigger] adjudication_after(
                record.moves@,
                i,
            )).2 is None by {
                lemma_adjudication_prefix(earlier, record.moves@, i);
            }
            assert forall|i: int| 0 <= i <= ply implies (#[trigger] rule_end(s0, next_played, i)) is None by {
                lemma_replay_prefix(s0, played, next_played, i);
                assert(rule_end(s0, played, i) is None);
                assert(rule_end(s0, next_played, i) == rule_end(s0, played, i));
            }
            assert forall|i: int| 0 <= i <= ply implies spec_is_legal(
                #[trigger] replay_state(s0, next_played, i),
                next_played[i],
            ) && encode_spec(replay_state(s0, next_played, i), next_played[i]) == Some(
                record.moves@[i].0,
            ) by {
                lemma_replay_prefix(s0, played, next_played, i);
            }
        }
        let (next_leader, next_streak, adjudged) = adjudicate(leader, streak, white);
        if let Some(outcome) = adjudged {
            record.outcome = Some(outcome);
            proof {
                assert(records_game(s0, next_played, record.moves@, record.outcome));
            }
            return Ok(Some(record));
        }
        leader = next_leader;
        streak = next_streak;
        position.play(mv);
        proof {
            assert(next_played[ply as int] == mv);
            assert(replay_state(s0, next_played, ply + 1) == spec_play(
                replay_state(s0, next_played, ply as int),
                mv,
            ));
            assert(replay_keys(s0, next_played, ply + 1) == replay_keys(
                s0,
                next_played,
                ply as int,
            ).push(spec_hash(replay_state(s0, next_played, ply + 1))));
            played = next_played;
        }
        ply = ply + 1;
    }
    record.outcome = Some(Outcome::Draw(DrawKind::Adjudication));
    proof {
        assert(records_game(s0, played, record.moves@, record.outcome));
    }
    Ok(Some(record))
}

/// The positions of a game depend on its first moves only.
proof fn lemma_replay_prefix(s: BoardState, p: Seq<Move>, q: Seq<Move>, n: int)
    requires
        0 <= n <= p.len(),
        n <= q.len(),
        forall|i: int| 0 <= i < n ==> p[i] == q[i],
    ensures
        replay_state(s, p, n) == replay_state(s, q, n),
        replay_keys(s, p, n) == replay_keys(s, q, n),
    decreases n,
{
    if n > 0 {
        lemma_replay_prefix(s, p, q, n - 1);
    }
}

/// The adjudication state depends on the first scores only.
proof fn lemma_adjudication_prefix(a: Seq<(EncodedMove, i16)>, b: Seq<(EncodedMove, i16)>, n: int)
    requires
        0 <= n <= a.len(),
        n <= b.len(),
        forall|i: int| 0 <= i < n ==> a[i] == b[i],
    ensures
        adjudication_after(a, n) == adjudication_after(b, n),
    decreases n,
{
    if n > 0 {
        lemma_adjudication_prefix(a, b, n - 1);
    }
}

/// The opening of game `index` of a generation seeded `seed`: eight to
/// eleven random plies from the starting position, `None` if the walk meets
/// a position without a legal move.
pub open spec fn indexed_opening(seed: u64, index: u64) -> Option<BoardState> {
    let first = xorshift(game_seed_spec(seed, index));
    let plies = OPENING_MIN_PLIES + scramble(first) % OPENING_EXTRA_PLIES;
    let walk = opening_walk(initial_state(), plies as nat, first).0;
    match walk {
        Some(b) => if spec_legal_moves(b).len() > 0 {
            Some(b)
        } else {
            None
        },
        None => None,
    }
}

/// Game `index` of a generation seeded `seed`: an opening of eight to
/// eleven random plies, then the game, discarded if the opening is
/// unbalanced.
pub fn play_indexed_game(seed: u64, index: u64, nodes: u64, search: &mut Search) -> (r: Result<
    Option<GameRecord>,
    String,
>)
    requires
        old(search).wf(),
    ensures
        final(search).wf(),
        indexed_opening(seed, index) is None ==> r matches Ok(None),
        r matches Ok(Some(g)) ==> indexed_opening(seed, index) matches Some(o) && g.start@
            == spec_fen(o) && (exists|played: Seq<Move>|
            #[trigger] records_game(o, played, g.moves@, g.outcome)) && -OPENING_MAX_SCORE
            <= g.moves@[0].1 <= OPENING_MAX_SCORE,
        r is Err ==> (indexed_opening(seed, index) matches Some(o) && exists|played: Seq<Move>|
            #[trigger] fails_to_encode(o, played)),
        indexed_opening(seed, index) matches Some(o) && rule_end(o, Seq::<Move>::empty(), 0) is Some
            ==> r matches Ok(None),
        r matches Ok(None) ==> indexed_opening(seed, index) is None || (indexed_opening(
            seed,
            index,
        ) matches Some(o) && rule_end(o, Seq::<Move>::empty(), 0) is Some) || !recordable(
            final(search).last_result(),
        ) || beyond(final(search).last_result(), OPENING_MAX_SCORE as int),
{
    let mut state = game_seed(seed, index);
    let extra = next_random(&mut state) % OPENING_EXTRA_PLIES;
    let plies = OPENING_MIN_PLIES + extra as u32;
    match random_opening(plies, &mut state) {
        Some(opening) => play_game(opening, nodes, Some(OPENING_MAX_SCORE), search),
        None => Ok(None),
    }
}

/// What a generation produced.
#[derive(Clone, Copy, Debug, PartialEq, Eq, Structural)]
pub struct Stats {
    /// Games recorded.
    pub games: u64,
    /// Games discarded.
    pub discarded: u64,
    /// Positions recorded.
    pub positions: u64,
    /// Positions the format's default filter would keep.
    pub kept_by_default_filter: u64,
    /// Games won by White.
    pub white_wins: u64,
    /// Games won by Black.
    pub black_wins: u64,
    /// Games drawn.
    pub draws: u64,
}

impl Stats {
    /// Nothing produced yet.
    pub fn new() -> (r: Stats)
        ensures
            r == (Stats {
                games: 0,
                discarded: 0,
                positions: 0,
                kept_by_default_filter: 0,
                white_wins: 0,
                black_wins: 0,
                draws: 0,
            }),
    {
        Stats {
            games: 0,
            discarded: 0,
            positions: 0,
            kept_by_default_filter: 0,
            white_wins: 0,
            black_wins: 0,
            draws: 0,
        }
    }

    /// Counts a recorded game: its positions, those the default filter
    /// keeps, and its result.
    pub fn record(&mut self, positions: u64, kept: u64, outcome: Outcome)
        requires
            old(self).games < u64::MAX,
            old(self).positions + positions <= u64::MAX,
            old(self).kept_by_default_filter + kept <= u64::MAX,
            old(self).white_wins < u64::MAX,
            old(self).black_wins < u64::MAX,
            old(self).draws < u64::MAX,
        ensures
            final(self).games == old(self).games + 1,
            final(self).discarded == old(self).discarded,
            final(self).positions == old(self).positions + positions,
            final(self).kept_by_default_filter == old(self).kept_by_default_filter + kept,
            final(self).white_wins == old(self).white_wins + (if outcome is WhiteWin {
                1int
            } else {
                0
            }),
            final(self).black_wins == old(self).black_wins + (if outcome is BlackWin {
                1int
            } else {
                0
            }),
            final(self).draws == old(self).draws + (if outcome is Draw {
                1int
            } else {
                0
            }),
    {
        self.games = self.games + 1;
        self.positions = self.positions + positions;
        self.kept_by_default_filter = self.kept_by_default_filter + kept;
        match outcome {
            Outcome::WhiteWin(_) => self.white_wins = self.white_wins + 1,
            Outcome::BlackWin(_) => self.black_wins = self.black_wins + 1,
            Outcome::Draw(_) => self.draws = self.draws + 1,
        }
    }

    /// Adds what another generator produced.
    pub fn merge(&mut self, other: &Stats)
        requires
            old(self).games + other.games <= u64::MAX,
            old(self).discarded + other.discarded <= u64::MAX,
            old(self).positions + other.positions <= u64::MAX,
            old(self).kept_by_default_filter + other.kept_by_default_filter <= u64::MAX,
            old(self).white_wins + other.white_wins <= u64::MAX,
            old(self).black_wins + other.black_wins <= u64::MAX,
            old(self).draws + other.draws <= u64::MAX,
        ensures
            final(self).games == old(self).games + other.games,
            final(self).discarded == old(self).discarded + other.discarded,
            final(self).positions == old(self).positions + other.positions,
            final(self).kept_by_default_filter == old(self).kept_by_default_filter
                + other.kept_by_default_filter,
            final(self).white_wins == old(self).white_wins + other.white_wins,
            final(self).black_wins == old(self).black_wins + other.black_wins,
            final(self).draws == old(self).draws + other.draws,
    {
        self.games = self.games + other.games;
        self.discarded = self.discarded + other.discarded;
        self.positions = self.positions + other.positions;
        self.kept_by_default_filter = self.kept_by_default_filter + other.kept_by_default_filter;
        self.white_wins = self.white_wins + other.white_wins;
        self.black_wins = self.black_wins + other.black_wins;
        self.draws = self.draws + other.draws;
    }
}

/// What a generation is asked to do.
pub struct Config {
    /// The directory the files go to.
    pub out: String,
    /// Generation threads.
    pub threads: usize,
    /// Node budget per move.
    pub nodes: u64,
    /// The generation's seed.
    pub seed: u64,
    /// Games to start, `u64::MAX` for no limit.
    pub games: u64,
    /// Minutes after which no game starts.
    pub minutes: Option<u64>,
}

/// A configuration as plain values: directory, threads, nodes, seed,
/// games, minutes.
pub type Settings = (Seq<char>, int, u64, u64, u64, Option<u64>);

/// The settings by default: no directory, one thread, the default node
/// budget, seed one, no limit.
pub open spec fn default_settings() -> Settings {
    (Seq::empty(), 1, DEFAULT_NODES, 1, u64::MAX, None)
}

/// The message for an option without a value.
pub open spec fn missing_value_message(flag: Seq<char>) -> Seq<char> {
    flag + " attend une valeur"@
}

/// The message for a value that is not an integer.
pub open spec fn not_integer_message(flag: Seq<char>, value: Seq<char>) -> Seq<char> {
    flag + " : « "@ + value + " » n'est pas un entier"@
}

/// The message for an unknown option.
pub open spec fn unknown_option_message(flag: Seq<char>) -> Seq<char> {
    "option inconnue : "@ + flag
}

/// The message for a thread count beyond `usize`.
pub open spec fn conversion_message() -> Seq<char> {
    "out of range integral type conversion attempted"@
}

/// Whether a flag takes a number.
pub open spec fn numeric_flag(flag: Seq<char>) -> bool {
    flag == "--threads"@ || flag == "--nodes"@ || flag == "--seed"@ || flag == "--games"@ || flag
        == "--minutes"@
}

/// Reads the options from `args[i]` on, pairs of a flag and its value.
pub open spec fn read_options(args: Seq<Seq<char>>, i: int, c: Settings) -> Result<Settings, Seq<char>>
    decreases args.len() - i,
{
    if i < 0 || i >= args.len() {
        Ok(c)
    } else if i + 1 >= args.len() {
        Err(missing_value_message(args[i]))
    } else {
        let flag = args[i];
        let value = args[i + 1];
        let number = unsigned_value(value);
        if flag == "--out"@ {
            read_options(args, i + 2, (value, c.1, c.2, c.3, c.4, c.5))
        } else if numeric_flag(flag) {
            match number {
                Some(n) => if n > u64::MAX {
                    Err(not_integer_message(flag, value))
                } else if flag == "--threads"@ {
                    if n > usize::MAX {
                        Err(conversion_message())
                    } else {
                        read_options(args, i + 2, (c.0, n, c.2, c.3, c.4, c.5))
                    }
                } else if flag == "--nodes"@ {
                    read_options(args, i + 2, (c.0, c.1, n as u64, c.3, c.4, c.5))
                } else if flag == "--seed"@ {
                    read_options(args, i + 2, (c.0, c.1, c.2, n as u64, c.4, c.5))
                } else if flag == "--games"@ {
                    read_options(args, i + 2, (c.0, c.1, c.2, c.3, n as u64, c.5))
                } else {
                    read_options(args, i + 2, (c.0, c.1, c.2, c.3, c.4, Some(n as u64)))
                },
                None => Err(not_integer_message(flag, value)),
            }
        } else {
            Err(unknown_option_message(flag))
        }
    }
}

/// The configuration the arguments ask for, checked: a directory is
/// required, threads and nodes must be positive, and something must stop
/// the generation.
pub open spec fn args_spec(args: Seq<Seq<char>>) -> Result<Settings, Seq<char>> {
    match read_options(args, 0, default_settings()) {
        Err(e) => Err(e),
        Ok(c) => if c.0.len() == 0 {
            Err("--out est obligatoire"@)
        } else if c.1 == 0 || c.2 == 0 {
            Err("--threads et --nodes doivent être positifs"@)
        } else if c.4 == u64::MAX && c.5 is None {
            Err("il faut --games ou --minutes : sans l'un d'eux, rien ne s'arrête"@)
        } else {
            Ok(c)
        },
    }
}

/// The texts of owned strings.
pub open spec fn owned_texts(args: Seq<String>) -> Seq<Seq<char>> {
    args.map_values(|a: String| a@)
}

/// Reads the command line of a generation.
pub fn parse_args(args: &[String]) -> (r: Result<Config, String>)
    ensures
        match args_spec(owned_texts(args@)) {
            Ok(c) => r matches Ok(config) && config.out@ == c.0 && config.threads == c.1
                && config.nodes == c.2 && config.seed == c.3 && config.games == c.4
                && config.minutes == c.5,
            Err(m) => r matches Err(e) && e@ == m,
        },
{
    let ghost all = owned_texts(args@);
    let mut config = Config {
        out: String::new(),
        threads: 1,
        nodes: DEFAULT_NODES,
        seed: 1,
        games: u64::MAX,
        minutes: None,
    };
    let mut i: usize = 0;
    while i < args.len()
        invariant
            all == owned_texts(args@),
            i <= args@.len(),
            read_options(all, 0, default_settings()) == read_options(
                all,
                i as int,
                (config.out@, config.threads as int, config.nodes, config.seed, config.games, config.minutes),
            ),
        decreases args@.len() - i,
    {
        let flag = args[i].as_str();
        proof {
            assert(all[i as int] == flag@);
        }
        if args.len() - i < 2 {
            let mut message = String::from_str(flag);
            message.append(" attend une valeur");
            return Err(message);
        }
        let value = args[i + 1].as_str();
        proof {
            assert(all[i + 1] == value@);
            reveal_strlit("--out");
            reveal_strlit("--threads");
            reveal_strlit("--nodes");
            reveal_strlit("--seed");
            reveal_strlit("--games");
            reveal_strlit("--minutes");
            crate::text::lemma_unsigned_nonneg(value@);
        }
        if same_text(flag, "--out") {
            config.out = String::from_str(value);
        } else if same_text(flag, "--threads") || same_text(flag, "--nodes") || same_text(
            flag,
            "--seed",
        ) || same_text(flag, "--games") || same_text(flag, "--minutes") {
            let number = match parse_unsigned(value, u64::MAX) {
                Some(n) => n,
                None => {
                    let mut message = String::from_str(flag);
                    message.append(" : « ");
                    message.append(value);
                    message.append(" » n'est pas un entier");
                    return Err(message);
                },
            };
            if same_text(flag, "--threads") {
                if number > usize::MAX as u64 {
                    return Err(String::from_str("out of range integral type conversion attempted"));
                }
                config.threads = number as usize;
            } else if same_text(flag, "--nodes") {
                config.nodes = number;
            } else if same_text(flag, "--seed") {
                config.seed = number;
            } else if same_text(flag, "--games") {
                config.games = number;
            } else {
                config.minutes = Some(number);
            }
        } else {
            let mut message = String::from_str("option inconnue : ");
            message.append(flag);
            return Err(message);
        }
        i = i + 2;
    }
    if config.out.unicode_len() == 0 {
        return Err(String::from_str("--out est obligatoire"));
    }
    if config.threads == 0 || config.nodes == 0 {
        return Err(String::from_str("--threads et --nodes doivent être positifs"));
    }
    if config.games == u64::MAX && config.minutes.is_none() {
        return Err(
            String::from_str("il faut --games ou --minutes : sans l'un d'eux, rien ne s'arrête"),
        );
    }
    Ok(config)
}

} // verus!
