//! Search: negamax with alpha-beta pruning, iterative deepening and
//! quiescence, and the decisions around it.
use vstd::prelude::*;
use vstd::slice::slice_to_vec;

use std::sync::atomic::AtomicBool;
use std::sync::Arc;

use crate::bitboard::{contains, holds};
use crate::board::{
    null_move_state, spec_checkers, spec_hash, spec_is_legal, spec_legal_moves, spec_play, BoardState,
    Chessboard,
};
use crate::clock::{is_raised, millis_since, now};
use crate::eval::{
    endgame_value, evaluate, evaluate_spec, insufficient_spec, is_insufficient_material, midgame_value,
    DRAW, INFINITY, MATE, MATE_THRESHOLD,
};
use crate::position::{repetitions, repetitions_spec, Position};
use crate::tt::{
    after_write, empty_data_spec, entry_of, move_code, pack_move, probe_entry, slot_of, Bound, Hit,
    TableWrite, TranspositionTable,
};
use crate::nnue::tdiv;
use crate::see::{piece_value, see, see_spec, value_spec};
use crate::types::{color_idx, file_of, opposite, rank_of, Color, Move, Piece};

verus! {

/// The piece a move really captures, if any.
///
/// Three cases a plain look at the arrival square would miss: castling is
/// written king-takes-own-rook, so the arrival square holds our own rook and
/// nothing is captured; an en-passant capture leaves the arrival square empty
/// while a pawn disappears; a quiet move has no victim.
pub open spec fn captured_spec(s: BoardState, mv: Move) -> Option<Piece> {
    if holds(s.colors[color_idx(s.side)], mv.to as int) {
        None
    } else if s.piece_at(mv.to as int).is_some() {
        s.piece_at(mv.to as int)
    } else if s.piece_at(mv.from as int) == Some(Piece::Pawn) && file_of(mv.from as int) != file_of(
        mv.to as int,
    ) {
        Some(Piece::Pawn)
    } else {
        None
    }
}

/// The piece a move really captures, if any.
pub fn captured_piece(board: &Chessboard, mv: Move) -> (r: Option<Piece>)
    requires
        mv.wf(),
    ensures
        r == captured_spec(board@, mv),
{
    if crate::bitboard::contains(board.colors(board.side_to_move()), mv.to) {
        return None;
    }
    if let Some(piece) = board.piece_on(mv.to) {
        return Some(piece);
    }
    let is_pawn = match board.piece_on(mv.from) {
        Some(Piece::Pawn) => true,
        _ => false,
    };
    if is_pawn && crate::types::file(mv.from) != crate::types::file(mv.to) {
        return Some(Piece::Pawn);
    }
    None
}

/// The deepest main search.
pub const MAX_DEPTH: u32 = 64;

/// The deepest ply, quiescence included. Bounds the arrays indexed by ply.
pub const MAX_PLY: usize = 128;

/// The most search threads, the UCI option `Threads`.
pub const MAX_THREADS: usize = 64;

/// The deepest remaining depth at which move-count pruning applies.
pub const LMP_MAX_DEPTH: i32 = 3;

/// Quiet moves always examined, before the quadratic term.
pub const LMP_BASE: usize = 6;

/// Moves assumed left to play when the interface does not say.
pub const MOVES_TO_GO_DEFAULT: u32 = 12;

/// The constraints of a `go` command.
#[derive(Clone, Copy, Debug, PartialEq, Eq, Structural)]
pub struct Limits {
    /// White's remaining time, in milliseconds.
    pub wtime: Option<u64>,
    /// Black's remaining time, in milliseconds.
    pub btime: Option<u64>,
    /// White's increment, in milliseconds.
    pub winc: Option<u64>,
    /// Black's increment, in milliseconds.
    pub binc: Option<u64>,
    /// Moves until the next time control.
    pub movestogo: Option<u32>,
    /// The time imposed for this move, in milliseconds.
    pub movetime: Option<u64>,
    /// The deepest search.
    pub depth: Option<u32>,
    /// The node budget.
    pub nodes: Option<u64>,
    /// Search until `stop`.
    pub infinite: bool,
    /// `go ponder`: search on the opponent's time; the deadlines only count
    /// after `ponderhit`.
    pub ponder: bool,
}

impl Default for Limits {
    /// No constraint at all.
    fn default() -> (r: Limits)
        ensures
            r == (Limits {
                wtime: None,
                btime: None,
                winc: None,
                binc: None,
                movestogo: None,
                movetime: None,
                depth: None,
                nodes: None,
                infinite: false,
                ponder: false,
            }),
    {
        Limits {
            wtime: None,
            btime: None,
            winc: None,
            binc: None,
            movestogo: None,
            movetime: None,
            depth: None,
            nodes: None,
            infinite: false,
            ponder: false,
        }
    }
}

/// The score of a position as UCI tells them apart.
#[derive(Clone, Copy, Debug, PartialEq, Eq, Structural)]
pub enum Score {
    /// Advantage in centipawns, from the side to move's point of view.
    Cp(i32),
    /// Mate in this many **moves**, positive for the side to move.
    Mate(i32),
}

/// The UCI score of an internal score, where a mate is `±(MATE - ply)`:
/// beyond the threshold, the plies to mate rounded up to moves.
pub open spec fn score_spec(score: int) -> Score {
    let magnitude = if score < 0 {
        -score
    } else {
        score
    };
    if magnitude > MATE_THRESHOLD {
        let moves = tdiv(MATE - magnitude + 1, 2);
        Score::Mate(
            if score > 0 {
                moves as i32
            } else {
                (-moves) as i32
            },
        )
    } else {
        Score::Cp(score as i32)
    }
}

impl Score {
    /// Translates an internal score, where a mate is `±(MATE - ply)`.
    pub fn from_internal(score: i32) -> (r: Score)
        requires
            score > i32::MIN,
        ensures
            r == score_spec(score as int),
    {
        let magnitude = if score < 0 {
            -score
        } else {
            score
        };
        if magnitude > MATE_THRESHOLD {
            // `MATE - |score|` plies to mate; UCI counts moves, hence half
            // rounded up.
            let plies = MATE - magnitude;
            let moves = (plies + 1) / 2;
            Score::Mate(
                if score > 0 {
                    moves
                } else {
                    -moves
                },
            )
        } else {
            Score::Cp(score)
        }
    }
}

/// Quiet moves examined before the rest are dropped: more depth left, more
/// chances for a late move to prove good.
pub open spec fn lmp_limit_spec(depth: int) -> int {
    let d = if depth < 0 {
        0
    } else {
        depth
    };
    LMP_BASE + d * d
}

/// Quiet moves examined before the rest are dropped.
pub fn lmp_limit(depth: i32) -> (r: usize)
    requires
        depth <= 0xffff,
    ensures
        r == lmp_limit_spec(depth as int),
{
    let d: usize = if depth < 0 {
        0
    } else {
        depth as usize
    };
    proof {
        assert(d * d <= 0xffff * 0xffff) by (nonlinear_arith)
            requires
                d <= 0xffff,
        ;
    }
    LMP_BASE + d * d
}

/// The move-count threshold grows strictly with the depth: a deeper node
/// never prunes earlier.
pub proof fn lemma_lmp_limit_grows(depth: int)
    requires
        depth >= 0,
    ensures
        lmp_limit_spec(depth) < lmp_limit_spec(depth + 1),
{
    assert(depth * depth < (depth + 1) * (depth + 1)) by (nonlinear_arith)
        requires
            depth >= 0,
    ;
}

/// The time budget of a move in milliseconds; `None` when no clock constrains
/// the search. A fixed move time keeps a margin of twenty milliseconds for
/// the answer's way back; otherwise a share of the remaining time plus half
/// the increment, never less than one and always fifty short of the clock.
pub open spec fn time_budget_spec(limits: Limits, side: Color) -> Option<u64> {
    if limits.infinite {
        None
    } else if limits.movetime is Some {
        let movetime = limits.movetime.unwrap();
        Some(if movetime < 21 { 1 } else { (movetime - 20) as u64 })
    } else {
        let remaining = match side {
            Color::White => limits.wtime,
            Color::Black => limits.btime,
        };
        let increment = match side {
            Color::White => limits.winc,
            Color::Black => limits.binc,
        };
        match remaining {
            None => None,
            Some(remaining) => {
                let inc = match increment {
                    Some(i) => i as int,
                    None => 0,
                };
                let moves = match limits.movestogo {
                    Some(m) => if m == 0 { 1 } else { m as int },
                    None => MOVES_TO_GO_DEFAULT as int,
                };
                let budget = remaining as int / moves + inc / 2;
                let ceiling: int = if remaining <= 51 { 1 } else { remaining - 50 };
                Some(
                    (if budget < 1 {
                        1
                    } else if budget > ceiling {
                        ceiling
                    } else {
                        budget
                    }) as u64,
                )
            },
        }
    }
}

/// Whether the share of the clock and half the increment add up within a
/// `u64`, which any real clock does.
pub open spec fn budget_in_range(limits: Limits, side: Color) -> bool {
    let remaining = match side {
        Color::White => limits.wtime,
        Color::Black => limits.btime,
    };
    let increment = match side {
        Color::White => limits.winc,
        Color::Black => limits.binc,
    };
    let moves = match limits.movestogo {
        Some(m) => if m == 0 { 1 } else { m as int },
        None => MOVES_TO_GO_DEFAULT as int,
    };
    let inc = match increment {
        Some(i) => i as int,
        None => 0,
    };
    match remaining {
        Some(r) => r as int / moves + inc / 2 <= u64::MAX,
        None => true,
    }
}

/// Whether the answer to a search must still wait once the search is over:
/// a `go infinite` answers only when stopped, and a search that ends while
/// pondering answers only after `ponderhit` or `stop` — the interface expects
/// no `bestmove` during the opponent's time.
pub fn answer_waits(limits: &Limits, stopped: bool, pondering: bool) -> (r: bool)
    ensures
        r == (!stopped && (limits.infinite || pondering)),
{
    !stopped && (limits.infinite || pondering)
}

/// Whether the clock of `side` can be budgeted: see [`budget_in_range`].
pub fn budget_fits(limits: &Limits, side: Color) -> (r: bool)
    ensures
        r == budget_in_range(*limits, side),
{
    let remaining = match side {
        Color::White => limits.wtime,
        Color::Black => limits.btime,
    };
    let increment = match side {
        Color::White => limits.winc,
        Color::Black => limits.binc,
    };
    let moves: u64 = match limits.movestogo {
        Some(m) => if m == 0 {
            1
        } else {
            m as u64
        },
        None => MOVES_TO_GO_DEFAULT as u64,
    };
    let inc: u64 = match increment {
        Some(i) => i,
        None => 0,
    };
    match remaining {
        Some(r) => r / moves <= u64::MAX - inc / 2,
        None => true,
    }
}

/// The time budget of the move to play, in milliseconds.
pub fn time_budget_ms(limits: &Limits, side: Color) -> (r: Option<u64>)
    requires
        budget_in_range(*limits, side),
    ensures
        r == time_budget_spec(*limits, side),
{
    if limits.infinite {
        return None;
    }
    if let Some(movetime) = limits.movetime {
        let budget = if movetime < 21 {
            1
        } else {
            movetime - 20
        };
        return Some(budget);
    }
    let (remaining, increment) = match side {
        Color::White => (limits.wtime, limits.winc),
        Color::Black => (limits.btime, limits.binc),
    };
    let remaining = match remaining {
        Some(r) => r,
        None => {
            return None;
        },
    };
    let increment = match increment {
        Some(i) => i,
        None => 0,
    };
    let moves_to_go: u64 = match limits.movestogo {
        Some(m) => if m == 0 {
            1
        } else {
            m as u64
        },
        None => MOVES_TO_GO_DEFAULT as u64,
    };
    let budget = remaining / moves_to_go + increment / 2;
    let ceiling = if remaining <= 51 {
        1
    } else {
        remaining - 50
    };
    let clamped = if budget < 1 {
        1
    } else if budget > ceiling {
        ceiling
    } else {
        budget
    };
    Some(clamped)
}

/// The seed of a draw: the Zobrist key, forced odd. Zero is a fixed point of
/// xorshift, so an odd seed keeps the generator from degenerating.
pub fn random_seed(hash: u64) -> (r: u64)
    ensures
        r == hash | 1,
        r % 2 == 1,
{
    proof {
        assert((hash | 1) % 2 == 1) by (bit_vector);
    }
    hash | 1
}

/// The state after one xorshift64 step.
pub open spec fn xorshift(x: u64) -> u64 {
    let a = x ^ (x >> 12u64);
    let b = a ^ ((a << 25u64) as u64);
    b ^ (b >> 27u64)
}

/// The number a state yields: the xorshift64* multiplier, wrapping.
pub open spec fn scramble(x: u64) -> u64 {
    ((x as int * 0x2545_F491_4F6C_DD1D) % 0x1_0000_0000_0000_0000) as u64
}

/// xorshift64*, enough to draw a move and entirely deterministic.
pub fn next_random(state: &mut u64) -> (r: u64)
    ensures
        *final(state) == xorshift(*old(state)),
        r == scramble(xorshift(*old(state))),
{
    let mut x = *state;
    x = x ^ (x >> 12u64);
    x = x ^ (x << 25u64);
    x = x ^ (x >> 27u64);
    *state = x;
    x.wrapping_mul(0x2545_F491_4F6C_DD1D)
}

/// A non-zero state never reaches zero: each xorshift step is invertible.
pub proof fn lemma_xorshift_nonzero(x: u64)
    requires
        x != 0,
    ensures
        xorshift(x) != 0,
{
    let a = x ^ (x >> 12u64);
    let b = a ^ ((a << 25u64) as u64);
    assert(a != 0) by (bit_vector)
        requires
            x != 0,
            a == x ^ (x >> 12u64),
    ;
    assert(b != 0) by (bit_vector)
        requires
            a != 0,
            b == a ^ ((a << 25u64) as u64),
    ;
    assert(b ^ (b >> 27u64) != 0) by (bit_vector)
        requires
            b != 0,
    ;
}

/// Whether the side to move has anything besides pawns and its king.
pub open spec fn non_pawn_material_spec(s: BoardState) -> bool {
    s.colors[color_idx(s.side)] & !s.pieces[0] & !s.pieces[5] != 0
}

/// Whether the side to move has anything besides pawns and its king: the
/// guard of the null move, since zugzwang becomes common in pawn endings.
pub fn has_non_pawn_material(board: &Chessboard) -> (r: bool)
    ensures
        r == non_pawn_material_spec(board@),
{
    let side = board.side_to_move();
    board.colors(side) & !board.pieces(Piece::Pawn) & !board.pieces(Piece::King) != 0
}

/// The arrival square of an en-passant capture, if one is open: on the sixth
/// rank from the side to move's point of view.
pub open spec fn en_passant_spec(s: BoardState) -> Option<u8> {
    match s.en_passant {
        None => None,
        Some(file) => Some(
            (match s.side {
                Color::White => 40 + file,
                Color::Black => 16 + file,
            }) as u8,
        ),
    }
}

/// The arrival square of an en-passant capture, if one is open.
pub fn en_passant_square(board: &Chessboard) -> (r: Option<u8>)
    ensures
        r == en_passant_spec(board@),
        r matches Some(sq) ==> sq < 64,
{
    let side = board.side_to_move();
    match board.en_passant() {
        None => None,
        Some(file) => Some(
            match side {
                Color::White => 40 + file,
                Color::Black => 16 + file,
            },
        ),
    }
}

/// The first legal move of the position, in generation order.
pub fn first_legal_move(board: &Chessboard) -> (r: Option<Move>)
    ensures
        spec_legal_moves(board@).len() == 0 ==> r is None,
        spec_legal_moves(board@).len() > 0 ==> r == Some(spec_legal_moves(board@)[0]),
        r matches Some(m) ==> spec_is_legal(board@, m) && m.wf(),
        forall|m: Move| m.wf() ==> (spec_legal_moves(board@).contains(m) <==> spec_is_legal(board@, m)),
{
    let moves = board.legal_moves();
    if moves.len() == 0 {
        None
    } else {
        proof {
            assert(moves@.contains(moves@[0]));
        }
        Some(moves[0])
    }
}

/// Whether the side to move is checkmated: in check with no legal move.
pub open spec fn checkmated(s: BoardState) -> bool {
    spec_checkers(s) != 0 && spec_legal_moves(s).len() == 0
}

/// Whether a line of moves can be played from `s`, each move legal where it
/// is played.
pub open spec fn line_is_legal(s: BoardState, line: Seq<Move>) -> bool
    decreases line.len(),
{
    line.len() == 0 || (spec_legal_moves(s).contains(line[0]) && line_is_legal(
        spec_play(s, line[0]),
        line.drop_first(),
    ))
}

/// The position a line of moves leads to from `s`.
pub open spec fn line_end(s: BoardState, line: Seq<Move>) -> BoardState
    decreases line.len(),
{
    if line.len() == 0 {
        s
    } else {
        line_end(spec_play(s, line[0]), line.drop_first())
    }
}

/// Whether every position up to `plies` legal moves from `s` evaluates
/// strictly inside the mate threshold, so that no evaluation reads as a mate.
pub open spec fn calm_tree(s: BoardState, plies: nat) -> bool {
    forall|line: Seq<Move>|
        line.len() <= plies && line_is_legal(s, line) ==> -MATE_THRESHOLD < evaluate_spec(
            #[trigger] line_end(s, line),
        ) < MATE_THRESHOLD
}

/// A calm position itself evaluates inside the mate threshold.
pub proof fn lemma_calm_here(s: BoardState, plies: nat)
    requires
        calm_tree(s, plies),
    ensures
        -MATE_THRESHOLD < evaluate_spec(s) < MATE_THRESHOLD,
{
    let empty = Seq::<Move>::empty();
    assert(line_is_legal(s, empty));
    assert(line_end(s, empty) == s);
}

/// Below a calm position, every legal move leads to a position calm one ply
/// less deep.
pub proof fn lemma_calm_child(s: BoardState, plies: nat, mv: Move)
    requires
        calm_tree(s, plies),
        plies > 0,
        spec_legal_moves(s).contains(mv),
    ensures
        calm_tree(spec_play(s, mv), (plies - 1) as nat),
{
    let child = spec_play(s, mv);
    assert forall|rest: Seq<Move>|
        rest.len() <= (plies - 1) as nat && line_is_legal(child, rest) implies -MATE_THRESHOLD
        < evaluate_spec(#[trigger] line_end(child, rest)) < MATE_THRESHOLD by {
        let line = seq![mv] + rest;
        assert(line[0] == mv);
        assert(line.drop_first() =~= rest);
        assert(line_is_legal(s, line));
        assert(line_end(s, line) == line_end(child, rest));
    }
}

/// Whether `mv` mates at once from `s` after the positions of `path`: a
/// legal move whose reply position is checkmated and not drawn by rule.
pub open spec fn mates_at_once(path: Seq<u64>, marks: Seq<usize>, s: BoardState, mv: Move) -> bool {
    let child = spec_play(s, mv);
    &&& spec_legal_moves(s).contains(mv)
    &&& checkmated(child)
    &&& !rule_draw_spec(path.push(spec_hash(child)), marks, child)
}

/// Whether a move appears in an ordered move list.
pub open spec fn listed(moves: Seq<(Move, i32)>, mv: Move) -> bool {
    exists|i: int| 0 <= i < moves.len() && #[trigger] moves[i].0 == mv
}

/// What a sequence keeps through `filter_map` stays in the result.
proof fn lemma_filter_map_keeps<A, B>(xs: Seq<A>, f: spec_fn(A) -> Option<B>, x: A)
    requires
        xs.contains(x),
        f(x) is Some,
    ensures
        xs.filter_map(f).contains(f(x).unwrap()),
    decreases xs.len(),
{
    reveal_with_fuel(Seq::filter_map, 1);
    let rest = xs.drop_last();
    if xs.last() == x {
        assert(xs.filter_map(f) == rest.filter_map(f) + seq![f(x).unwrap()]);
        assert(xs.filter_map(f)[xs.filter_map(f).len() - 1] == f(x).unwrap());
    } else {
        let i = choose|i: int| 0 <= i < xs.len() && xs[i] == x;
        assert(rest[i] == x);
        lemma_filter_map_keeps(rest, f, x);
        let j = choose|j: int| 0 <= j < rest.filter_map(f).len() && rest.filter_map(f)[j] == f(x).unwrap();
        match f(xs.last()) {
            Some(b) => {
                assert(xs.filter_map(f) == rest.filter_map(f) + seq![b]);
                assert(xs.filter_map(f)[j] == f(x).unwrap());
            },
            None => {
                assert(xs.filter_map(f) == rest.filter_map(f));
            },
        }
    }
}

/// A full move list, ordered, still lists every legal move.
pub proof fn lemma_every_move_listed(
    s: BoardState,
    moves: Seq<(Move, i32)>,
    killers: Seq<[u16; 2]>,
    history: Seq<i32>,
    tt_move: Option<Move>,
    ply: int,
    mv: Move,
)
    requires
        moves.to_multiset() == ordering_entries(s, killers, history, false, tt_move, ply).to_multiset(),
        spec_legal_moves(s).contains(mv),
    ensures
        listed(moves, mv),
{
    let f = |m: Move|
        if keeps(s, m, false) {
            Some((m, move_score(s, killers, history, m, tt_move, ply) as i32))
        } else {
            None
        };
    let entry = (mv, move_score(s, killers, history, mv, tt_move, ply) as i32);
    lemma_filter_map_keeps(spec_legal_moves(s), f, mv);
    assert(ordering_entries(s, killers, history, false, tt_move, ply) == spec_legal_moves(s).filter_map(f));
    vstd::seq_lib::to_multiset_contains(ordering_entries(s, killers, history, false, tt_move, ply), entry);
    vstd::seq_lib::to_multiset_contains(moves, entry);
    let i = choose|i: int| 0 <= i < moves.len() && moves[i] == entry;
    assert(moves[i].0 == mv);
}

/// Whether the side to move is checkmated: in check with no legal move.
pub fn is_checkmate(board: &Chessboard) -> (r: bool)
    ensures
        r == (spec_checkers(board@) != 0 && spec_legal_moves(board@).len() == 0),
{
    board.checkers() != 0 && first_legal_move(board).is_none()
}

/// A legal move drawn reproducibly, with no evaluation at all: the seed is the
/// Zobrist key, so the same position always gives the same move.
pub fn random_legal_move(board: &Chessboard) -> (r: Option<Move>)
    ensures
        spec_legal_moves(board@).len() == 0 ==> r is None,
        spec_legal_moves(board@).len() > 0 ==> r == Some(
            spec_legal_moves(board@)[scramble(xorshift(spec_hash(board@) | 1)) as int
                % spec_legal_moves(board@).len() as int],
        ),
{
    let legal = board.legal_moves();
    if legal.len() == 0 {
        return None;
    }
    let mut state = random_seed(board.hash());
    let drawn = next_random(&mut state);
    let index = (drawn % (legal.len() as u64)) as usize;
    Some(legal[index])
}

/// Whether a capture may lose material: only then is the exchange worth
/// evaluating. The king capturing is never losing — its move is legal, so
/// nothing attacks the square afterwards — and a victim worth at least its
/// attacker always repays the exchange.
pub open spec fn may_lose_spec(s: BoardState, mv: Move, victim: Piece) -> bool {
    match s.piece_at(mv.from as int) {
        None => false,
        Some(attacker) => attacker != Piece::King && value_spec(victim) < value_spec(attacker),
    }
}

/// Whether a capture may lose material.
pub fn may_lose_material(board: &Chessboard, mv: Move, victim: Piece) -> (r: bool)
    requires
        mv.wf(),
    ensures
        r == may_lose_spec(board@, mv, victim),
{
    match board.piece_on(mv.from) {
        None => false,
        Some(attacker) => !attacker.same(Piece::King) && piece_value(victim) < piece_value(attacker),
    }
}

/// The economy is sound: a capture that is not a promotion and is said not to
/// lose material, its victim worth at least its attacker, never loses
/// material in the exchange.
pub proof fn lemma_no_loss_without_risk(s: BoardState, mv: Move)
    requires
        captured_spec(s, mv).is_some(),
        s.piece_at(mv.from as int).is_some(),
        mv.promotion is None,
        s.piece_at(mv.from as int) != Some(Piece::King),
        !(s.piece_at(mv.from as int) == Some(Piece::Pawn) && rank_of(mv.to as int) == if s.side
            == Color::White {
            7int
        } else {
            0int
        }),
        !may_lose_spec(s, mv, captured_spec(s, mv).unwrap()),
    ensures
        see_spec(s, mv) >= 0,
{
    crate::see::lemma_see_bounds(s, mv);
}

/// A capture by the king is never sent to the exchange evaluator, whatever
/// it takes: the evaluator ignores legality, and a legal king capture is safe.
pub proof fn lemma_king_never_risks(s: BoardState, mv: Move, victim: Piece)
    requires
        s.piece_at(mv.from as int) == Some(Piece::King),
    ensures
        !may_lose_spec(s, mv, victim),
{
}

/// Quiescence drops only a capture that loses material in the exchange and
/// is not a promotion, and nothing while in check: a quiet move, an even
/// exchange and a winning capture are all kept.
pub proof fn lemma_prunes_only_losing_captures(s: BoardState, mv: Move, in_check: bool)
    requires
        see_prunable_spec(s, mv, in_check),
    ensures
        !in_check,
        captured_spec(s, mv) is Some,
        mv.promotion is None,
        see_spec(s, mv) < 0,
{
}

/// Whether quiescence drops a capture that loses material: never in check,
/// never a promotion.
pub open spec fn see_prunable_spec(s: BoardState, mv: Move, in_check: bool) -> bool {
    !in_check && match captured_spec(s, mv) {
        None => false,
        Some(victim) => mv.promotion is None && may_lose_spec(s, mv, victim) && see_spec(s, mv)
            < 0,
    }
}

/// Whether quiescence drops a capture that loses material.
pub fn see_prunable(board: &Chessboard, mv: Move, in_check: bool) -> (r: bool)
    requires
        mv.wf(),
    ensures
        r == see_prunable_spec(board@, mv, in_check),
{
    if in_check {
        return false;
    }
    let victim = match captured_piece(board, mv) {
        Some(v) => v,
        None => {
            return false;
        },
    };
    mv.promotion.is_none() && may_lose_material(board, mv, victim) && see(board, mv) < 0
}


/// A triangular table of principal variations: at each improvement of
/// `alpha`, the move played is prefixed to the line the child returned; the
/// whole line is read at ply 0.
pub struct PvTable {
    moves: Vec<Option<Move>>,
    lengths: Vec<usize>,
}

/// The moves of the entries that hold one, in order.
pub open spec fn present(entries: Seq<Option<Move>>) -> Seq<Move>
    decreases entries.len(),
{
    if entries.len() == 0 {
        Seq::empty()
    } else {
        let rest = present(entries.drop_last());
        match entries.last() {
            Some(m) => rest.push(m),
            None => rest,
        }
    }
}

impl PvTable {
    /// The entries, row `ply` from `ply * MAX_PLY` on.
    pub closed spec fn entries(&self) -> Seq<Option<Move>> {
        self.moves@
    }

    /// The length of each row's line.
    pub closed spec fn line_lengths(&self) -> Seq<usize> {
        self.lengths@
    }

    /// A row per ply, each no longer than a row.
    pub open spec fn wf(&self) -> bool {
        &&& self.entries().len() == MAX_PLY * MAX_PLY
        &&& self.line_lengths().len() == MAX_PLY
        &&& forall|i: int| 0 <= i < MAX_PLY ==> #[trigger] self.line_lengths()[i] <= MAX_PLY
        &&& forall|k: int|
            0 <= k < self.entries().len() ==> (#[trigger] self.entries()[k] matches Some(m)
                ==> m.wf())
    }

    /// An empty table.
    pub fn new() -> (r: PvTable)
        ensures
            r.wf(),
            forall|i: int| 0 <= i < MAX_PLY ==> #[trigger] r.line_lengths()[i] == 0,
    {
        let mut moves: Vec<Option<Move>> = Vec::new();
        let mut i: usize = 0;
        while i < MAX_PLY * MAX_PLY
            invariant
                i <= MAX_PLY * MAX_PLY,
                moves@.len() == i,
                forall|k: int| 0 <= k < i ==> moves@[k] is None,
            decreases MAX_PLY * MAX_PLY - i,
        {
            moves.push(None);
            i = i + 1;
        }
        let mut lengths: Vec<usize> = Vec::new();
        let mut j: usize = 0;
        while j < MAX_PLY
            invariant
                j <= MAX_PLY,
                lengths@.len() == j,
                forall|k: int| 0 <= k < j ==> lengths@[k] == 0,
            decreases MAX_PLY - j,
        {
            lengths.push(0);
            j = j + 1;
        }
        PvTable { moves, lengths }
    }

    /// Forgets the line of a ply.
    pub fn clear(&mut self, ply: usize)
        requires
            old(self).wf(),
        ensures
            final(self).wf(),
            final(self).entries() == old(self).entries(),
            final(self).line_lengths() == (if ply < MAX_PLY {
                old(self).line_lengths().update(ply as int, 0)
            } else {
                old(self).line_lengths()
            }),
    {
        if ply < MAX_PLY {
            self.lengths.set(ply, 0);
        }
    }

    /// Records `mv` followed by the child's line as the line of `ply`; the
    /// line is cut at the table's width, and nothing is recorded at the last
    /// ply.
    pub fn push(&mut self, ply: usize, mv: Move)
        requires
            old(self).wf(),
            mv.wf(),
        ensures
            final(self).wf(),
            ply + 1 >= MAX_PLY ==> *final(self) == *old(self),
            ply + 1 < MAX_PLY ==> ({
                let child = if old(self).line_lengths()[ply + 1] < MAX_PLY - 1 {
                    old(self).line_lengths()[ply + 1] as int
                } else {
                    MAX_PLY - 1
                };
                let row = ply * MAX_PLY;
                let next = (ply + 1) * MAX_PLY;
                &&& final(self).line_lengths() == old(self).line_lengths().update(
                    ply as int,
                    (child + 1) as usize,
                )
                &&& final(self).entries()[row] == Some(mv)
                &&& forall|i: int|
                    0 <= i < child ==> #[trigger] final(self).entries()[row + i + 1] == old(
                        self,
                    ).entries()[next + i]
                &&& forall|k: int|
                    0 <= k < MAX_PLY * MAX_PLY && !(row <= k <= row + child)
                        ==> #[trigger] final(self).entries()[k] == old(self).entries()[k]
            }),
    {
        if ply >= MAX_PLY - 1 {
            return ;
        }
        let row = ply * MAX_PLY;
        let next = (ply + 1) * MAX_PLY;
        self.moves.set(row, Some(mv));
        let stored = self.lengths[ply + 1];
        let child = if stored < MAX_PLY - 1 {
            stored
        } else {
            MAX_PLY - 1
        };
        let mut index: usize = 0;
        while index < child
            invariant
                ply + 1 < MAX_PLY,
                row == ply * MAX_PLY,
                next == (ply + 1) * MAX_PLY,
                child < MAX_PLY,
                index <= child,
                self.moves@.len() == MAX_PLY * MAX_PLY,
                self.lengths@ == old(self).lengths@,
                old(self).wf(),
                mv.wf(),
                forall|k: int|
                    0 <= k < self.moves@.len() ==> (#[trigger] self.moves@[k] matches Some(m)
                        ==> m.wf()),
                self.moves@[row as int] == Some(mv),
                forall|i: int|
                    0 <= i < index ==> #[trigger] self.moves@[row + i + 1] == old(self).moves@[next + i],
                forall|k: int|
                    0 <= k < MAX_PLY * MAX_PLY && !(row <= k <= row + index) ==> #[trigger] self.moves@[k]
                        == old(self).moves@[k],
            decreases child - index,
        {
            let moved = self.moves[next + index];
            proof {
                assert(old(self).entries()[next + index] == moved);
            }
            self.moves.set(row + index + 1, moved);
            index = index + 1;
        }
        self.lengths.set(ply, child + 1);
    }

    /// The principal variation, read at ply 0.
    pub fn line(&self) -> (r: Vec<Move>)
        requires
            self.wf(),
        ensures
            r@ == present(self.entries().subrange(0, self.line_lengths()[0] as int)),
            forall|i: int| 0 <= i < r@.len() ==> (#[trigger] r@[i]).wf(),
    {
        let n = self.lengths[0];
        let mut out: Vec<Move> = Vec::new();
        let mut index: usize = 0;
        while index < n
            invariant
                n == self.line_lengths()[0],
                n <= MAX_PLY,
                self.wf(),
                index <= n,
                out@ == present(self.entries().subrange(0, index as int)),
                forall|i: int| 0 <= i < out@.len() ==> (#[trigger] out@[i]).wf(),
            decreases n - index,
        {
            proof {
                assert(self.entries().subrange(0, index + 1).drop_last() =~= self.entries().subrange(
                    0,
                    index as int,
                ));
            }
            match self.moves[index] {
                Some(m) => out.push(m),
                None => {},
            }
            index = index + 1;
        }
        out
    }
}

/// Move ordering values of the pieces, pawn to king.
pub open spec fn order_value(piece: Piece) -> int {
    crate::types::piece_idx(piece) + 1
}

/// Ordering tiers. The gaps are wide so that no tier can overtake another,
/// whatever the history heuristic accumulates.
pub const SCORE_TT: i32 = 8_000_000;

/// Ordering tier of captures, plus ten times a hundred per victim step.
pub const SCORE_CAPTURE: i32 = 4_000_000;

/// Ordering tier of promotions.
pub const SCORE_PROMOTION: i32 = 2_000_000;

/// Ordering tier of the first killer.
pub const SCORE_KILLER_1: i32 = 1_000_000;

/// Ordering tier of the second killer.
pub const SCORE_KILLER_2: i32 = 900_000;

/// The ceiling of the history values: beyond it, all are halved.
pub const HISTORY_MAX: i32 = 800_000;

/// The order `slice::sort_unstable_by_key` gives a list of scored moves,
/// keyed on the score reversed: a deterministic function of the list.
pub uninterp spec fn spec_sorted_by_score(entries: Seq<(Move, i32)>) -> Seq<(Move, i32)>;

/// Sorts scored moves from the highest score down: `slice::sort_unstable_by_key`
/// keyed on the score, reversed. The result is a permutation of the moves,
/// ordered by score; the order of moves of equal score is the sort's own,
/// which its documentation leaves unsaid, but the same list always sorts the
/// same way (the sort draws on nothing but the list).
#[verifier::external_body]
fn sort_by_score(v: &mut Vec<(Move, i32)>)
    ensures
        final(v)@ == spec_sorted_by_score(old(v)@),
        final(v)@.len() == old(v)@.len(),
        final(v)@.to_multiset() == old(v)@.to_multiset(),
        forall|i: int| 0 <= i < final(v)@.len() ==> old(v)@.contains(#[trigger] final(v)@[i]),
        forall|i: int, j: int| 0 <= i < j < final(v)@.len() ==> final(v)@[i].1 >= final(v)@[j].1,
{
    v.sort_unstable_by_key(|entry| std::cmp::Reverse(entry.1));
}


/// The bound on the scores a search establishes: evaluations, table scores
/// and mates all lie within it.
pub const SCORE_BOUND: i32 = 500_000;

/// The bound on the finite edges of a search window.
pub const WINDOW_BOUND: i32 = 1_000_000;

/// A score the search can establish.
pub open spec fn in_range(x: int) -> bool {
    -SCORE_BOUND <= x <= SCORE_BOUND
}

/// An edge of a search window: infinite, or finite within the window bound.
pub open spec fn window_bound(x: int) -> bool {
    x == -INFINITY || x == INFINITY || -WINDOW_BOUND <= x <= WINDOW_BOUND
}

/// What a search of window `(alpha, beta)` may return: an established score,
/// or one of the window's edges when it is finite (fail-hard at the edge).
pub open spec fn result_ok(r: int, alpha: int, beta: int) -> bool {
    &&& (in_range(r) || r == alpha || r == beta)
    &&& -INFINITY < r < INFINITY
}

/// Deepest remaining depth for reverse futility.
pub const RFP_MAX_DEPTH: i32 = 8;

/// Reverse futility margin per unit of remaining depth.
pub const RFP_MARGIN: i32 = 100;

/// Shallowest depth for a null move.
pub const NULL_MOVE_MIN_DEPTH: i32 = 3;

/// Reduction of the search that follows a null move.
pub const NULL_MOVE_REDUCTION: i32 = 2;

/// Shallowest depth for late move reductions.
pub const LMR_MIN_DEPTH: i32 = 3;

/// Rank from which a move counts as late.
pub const LMR_FIRST_REDUCED: usize = 3;

/// Side of the reduction table, in depth as in move rank.
pub const LMR_TABLE_SIDE: usize = 64;

/// Depth from which the root searches a narrow window.
pub const ASPIRATION_MIN_DEPTH: u32 = 4;

/// Initial half-width of the aspiration window, in centipawns.
pub const ASPIRATION_DELTA: i32 = 25;

/// Margin of delta pruning in quiescence, in centipawns.
pub const DELTA_MARGIN: i32 = 200;

/// Nodes between two looks at the clock and the stop flag.
pub const CHECK_INTERVAL: u64 = 2_048;

/// An `info` line, ready for the UCI layer.
#[derive(Clone, Debug)]
pub struct Info {
    /// Depth reached.
    pub depth: u32,
    /// Score of the position.
    pub score: Score,
    /// Nodes visited since the search started.
    pub nodes: u64,
    /// Time elapsed, in milliseconds.
    pub time_ms: u64,
    /// Principal variation.
    pub pv: Vec<Move>,
    /// Transposition table use, in permille.
    pub hashfull: u32,
}

/// The key window a repetition is looked for in: from the last null move on,
/// since a line through a null move cannot meet the positions before it.
pub open spec fn window_start(marks: Seq<usize>) -> int {
    if marks.len() == 0 {
        0
    } else {
        marks.last() as int
    }
}

/// Whether the search scores a position as drawn by rule: a repetition in
/// its window, the fifty-move rule unless the side to move is mated, or
/// material too short to mate.
pub open spec fn rule_draw_spec(path: Seq<u64>, marks: Seq<usize>, s: BoardState) -> bool {
    ||| repetitions_spec(
        path.subrange(window_start(marks), path.len() as int),
        spec_hash(s),
        s.halfmove_clock as int,
    ) > 0
    ||| (s.halfmove_clock >= 100 && !(spec_checkers(s) != 0 && spec_legal_moves(s).len() == 0))
    ||| insufficient_spec(s)
}

/// The value of a reduction table at a depth and a move rank, both capped
/// at the table's side; `1` outside the table.
pub open spec fn reduction_spec(lmr: Seq<i32>, depth: int, index: int) -> int {
    let d = if depth < 0 {
        0
    } else if depth > 63 {
        63
    } else {
        depth
    };
    let i = if index > 63 {
        63
    } else {
        index
    };
    let at = d * 64 + i;
    if at < lmr.len() {
        lmr[at] as int
    } else {
        1
    }
}

/// The move to ponder on after `best`: none if `best` is illegal; else the
/// second move of the last line when that line starts with `best`, or
/// failing that the table's move for the position after `best` — kept only
/// if it is legal there.
pub open spec fn ponder_spec(s: BoardState, best: Move, line: Seq<Move>, hit: Option<Hit>) -> Option<
    Move,
> {
    if !spec_is_legal(s, best) {
        None
    } else {
        let candidate = if line.len() >= 2 && line[0] == best {
            Some(line[1])
        } else {
            match hit {
                Some(h) => h.mv,
                None => None,
            }
        };
        match candidate {
            Some(m) => if spec_is_legal(spec_play(s, best), m) {
                Some(m)
            } else {
                None
            },
            None => None,
        }
    }
}

/// The killers once the quiet move coded `code` caused a cut-off at `ply`:
/// it becomes the first of its ply, the former first the second, unless it
/// was the first already.
pub open spec fn killers_after(killers: Seq<[u16; 2]>, code: u16, ply: int) -> Seq<[u16; 2]> {
    if 0 <= ply < killers.len() && killers[ply][0] != code {
        killers.update(ply, [code, killers[ply][0]])
    } else {
        killers
    }
}

/// The history once `bonus` is added at `index`: past `HISTORY_MAX`, every
/// entry is halved.
pub open spec fn history_after(history: Seq<i32>, index: int, bonus: int) -> Seq<i32> {
    let value = history[index] + bonus;
    let raised = history.update(index, value as i32);
    if value > HISTORY_MAX {
        Seq::new(raised.len(), |i: int| (raised[i] / 2) as i32)
    } else {
        raised
    }
}

/// The ordering score of a move: the table's move first, then captures by
/// victim then attacker, promotions, the two killers of the ply, and the
/// history of its squares.
pub open spec fn move_score(
    s: BoardState,
    killers: Seq<[u16; 2]>,
    history: Seq<i32>,
    mv: Move,
    tt_move: Option<Move>,
    ply: int,
) -> int {
    let capture = match captured_spec(s, mv) {
        None => 0,
        Some(victim) => SCORE_CAPTURE + 1000 * order_value(victim) - match s.piece_at(
            mv.from as int,
        ) {
            Some(attacker) => order_value(attacker),
            None => 0,
        },
    };
    let promotion = match mv.promotion {
        None => 0,
        Some(p) => SCORE_PROMOTION + 1000 * order_value(p),
    };
    if tt_move == Some(mv) {
        SCORE_TT as int
    } else if capture + promotion > 0 {
        capture + promotion
    } else if 0 <= ply < killers.len() && killers[ply][0] == move_code(mv) {
        SCORE_KILLER_1 as int
    } else if 0 <= ply < killers.len() && killers[ply][1] == move_code(mv) {
        SCORE_KILLER_2 as int
    } else {
        history[mv.from * 64 + mv.to] as int
    }
}

/// Apart from the table's move, every capture and every promotion ranks
/// above every quiet move, whatever the killers and the history hold: the
/// ordering puts them first, which lets pruning by move count stop at the
/// first quiet move it drops without skipping a capture.
pub proof fn lemma_tactical_before_quiet(
    s: BoardState,
    killers: Seq<[u16; 2]>,
    history: Seq<i32>,
    tactical: Move,
    quiet: Move,
    tt_move: Option<Move>,
    ply: int,
)
    requires
        history.len() == 4096,
        forall|i: int| 0 <= i < 4096 ==> #[trigger] history[i] <= HISTORY_MAX,
        quiet.wf(),
        tt_move != Some(tactical),
        tt_move != Some(quiet),
        captured_spec(s, tactical) is Some || tactical.promotion is Some,
        captured_spec(s, quiet) is None,
        quiet.promotion is None,
    ensures
        move_score(s, killers, history, tactical, tt_move, ply) > move_score(
            s,
            killers,
            history,
            quiet,
            tt_move,
            ply,
        ),
{
    let index = quiet.from * 64 + quiet.to;
    assert(0 <= index < 4096) by (nonlinear_arith)
        requires
            quiet.from < 64,
            quiet.to < 64,
            index == quiet.from * 64 + quiet.to,
    ;
    assert(history[index] <= HISTORY_MAX);
}

/// The move list a node searches: its entries, sorted by score.
pub open spec fn ordered_spec(
    s: BoardState,
    killers: Seq<[u16; 2]>,
    history: Seq<i32>,
    tactical_only: bool,
    tt_move: Option<Move>,
    ply: int,
) -> Seq<(Move, i32)> {
    spec_sorted_by_score(ordering_entries(s, killers, history, tactical_only, tt_move, ply))
}

/// The scored moves that ordering gives before sorting: the legal moves it
/// keeps, in generation order, each with its ordering score.
pub open spec fn ordering_entries(
    s: BoardState,
    killers: Seq<[u16; 2]>,
    history: Seq<i32>,
    tactical_only: bool,
    tt_move: Option<Move>,
    ply: int,
) -> Seq<(Move, i32)> {
    spec_legal_moves(s).filter_map(
        |m: Move|
            if keeps(s, m, tactical_only) {
                Some((m, move_score(s, killers, history, m, tt_move, ply) as i32))
            } else {
                None
            },
    )
}

/// Whether ordering keeps a move: all of them, or in quiescence only those
/// that change material — captures, en passant, and every move of a pawn
/// about to promote.
pub open spec fn keeps(s: BoardState, mv: Move, tactical_only: bool) -> bool {
    let them = s.colors[color_idx(opposite(s.side))];
    let promotion_rank = if s.side == Color::White {
        6int
    } else {
        1int
    };
    ||| !tactical_only
    ||| (s.piece_at(mv.from as int) == Some(Piece::Pawn) && rank_of(mv.from as int)
        == promotion_rank)
    ||| holds(them, mv.to as int)
    ||| en_passant_spec(s) == Some(mv.to)
}

/// The state of a search.
pub struct Search {
    stop: Arc<AtomicBool>,
    pondering: Arc<AtomicBool>,
    started: std::time::Instant,
    nodes: u64,
    /// Milliseconds after which the search stops mid-iteration.
    hard_deadline: Option<u64>,
    /// Milliseconds after which no new iteration starts.
    soft_deadline: Option<u64>,
    node_limit: Option<u64>,
    /// The line of the last completed iteration; its second move is the
    /// ponder guess.
    last_pv: Vec<Move>,
    /// The score of the last completed iteration.
    last_score: Option<Score>,
    aborted: bool,
    /// Keys of the game, then of the current path in the tree.
    path: Vec<u64>,
    /// Indices in `path` of the positions reached by a null move, a stack.
    null_marks: Vec<usize>,
    pv: PvTable,
    root_best: Option<Move>,
    /// The root move of the last iteration the running search completed.
    completed: Ghost<Option<Move>>,
    /// The scores reported by the completed iterations of the running search.
    reports: Ghost<Seq<Score>>,
    tt: TranspositionTable,
    threads: usize,
    /// Two quiet moves per ply that caused a beta cut-off.
    killers: Vec<[u16; 2]>,
    /// Butterfly table indexed by origin then destination square.
    history: Vec<i32>,
    /// Reductions, indexed by depth then move rank.
    lmr: Vec<i32>,
}

impl Search {
    /// The table sized, the tables of the move ordering in place, the
    /// thread count in range.
    pub closed spec fn wf(&self) -> bool {
        &&& self.tt.wf()
        &&& self.pv.wf()
        &&& self.killers@.len() == MAX_PLY
        &&& self.history@.len() == 4096
        &&& forall|i: int| 0 <= i < 4096 ==> 0 <= #[trigger] self.history@[i] <= HISTORY_MAX
        &&& forall|i: int|
            0 <= i < self.null_marks@.len() ==> #[trigger] self.null_marks@[i] <= self.path@.len()
        &&& 1 <= self.threads <= MAX_THREADS
        &&& forall|i: int| 0 <= i < self.last_pv@.len() ==> (#[trigger] self.last_pv@[i]).wf()
        &&& (self.last_score matches Some(Score::Cp(c)) ==> -MATE_THRESHOLD <= c <= MATE_THRESHOLD)
    }

    /// The number of search threads.
    pub closed spec fn thread_count(&self) -> usize {
        self.threads
    }

    /// The transposition table.
    pub closed spec fn table(&self) -> TranspositionTable {
        self.tt
    }

    /// The nodes visited by the last search.
    pub closed spec fn node_count(&self) -> u64 {
        self.nodes
    }

    /// The score of the last completed iteration.
    pub closed spec fn last_result(&self) -> Option<Score> {
        self.last_score
    }

    /// The reduction table, depth major.
    pub closed spec fn reductions(&self) -> Seq<i32> {
        self.lmr@
    }

    /// The line of the last completed iteration.
    pub closed spec fn last_line(&self) -> Seq<Move> {
        self.last_pv@
    }

    /// The two killer moves of each ply, by move code.
    pub closed spec fn killer_slots(&self) -> Seq<[u16; 2]> {
        self.killers@
    }

    /// The history score of each pair of squares, origin major.
    pub closed spec fn history_scores(&self) -> Seq<i32> {
        self.history@
    }

    /// What searching changes besides the node count and the principal
    /// variation: the table's slots, the killers, the history and the best
    /// root move.
    pub closed spec fn search_state(&self) -> (Seq<[u64; 2]>, Seq<[u16; 2]>, Seq<i32>, Option<Move>) {
        (self.tt.slots(), self.killers@, self.history@, self.root_best)
    }

    /// Whether `self` and `other` differ at most in their killers and
    /// history.
    pub closed spec fn same_but_ordering(&self, other: &Search) -> bool {
        *self == (Search { killers: self.killers, history: self.history, ..*other })
    }

    /// Whether the running search has been stopped: by the flag, the clock
    /// or the node budget.
    pub closed spec fn is_aborted(&self) -> bool {
        self.aborted
    }

    /// The keys of the game, then of the path searched, oldest first.
    pub closed spec fn path_keys(&self) -> Seq<u64> {
        self.path@
    }

    /// The indices in the path of the positions reached by a null move.
    pub closed spec fn null_move_marks(&self) -> Seq<usize> {
        self.null_marks@
    }

    /// The best move of the root so far.
    pub closed spec fn root_move(&self) -> Option<Move> {
        self.root_best
    }

    /// What searching a node leaves as it found it: the path and its null
    /// moves, the thread count, both flags, the start, the soft deadline,
    /// and what the iterations reported.
    pub closed spec fn frame(&self) -> (
        Seq<u64>,
        Seq<usize>,
        usize,
        Arc<AtomicBool>,
        Arc<AtomicBool>,
        std::time::Instant,
        Option<u64>,
        Seq<Score>,
        Option<Score>,
    ) {
        (
            self.path@,
            self.null_marks@,
            self.threads,
            self.stop,
            self.pondering,
            self.started,
            self.soft_deadline,
            self.reports@,
            self.last_score,
        )
    }

    /// The root move of the last iteration the running search completed,
    /// if one did.
    pub closed spec fn completed_move(&self) -> Option<Move> {
        self.completed@
    }

    /// The scores the completed iterations of the last search reported, in
    /// order.
    pub closed spec fn reported_scores(&self) -> Seq<Score> {
        self.reports@
    }

    /// The milliseconds after the start past which the search stops
    /// mid-iteration.
    pub closed spec fn hard_limit(&self) -> Option<u64> {
        self.hard_deadline
    }

    /// The milliseconds after the start past which no new iteration starts.
    pub closed spec fn soft_limit(&self) -> Option<u64> {
        self.soft_deadline
    }

    /// Whether `self` and `other` differ at most in their deadlines.
    pub closed spec fn same_but_deadlines(&self, other: &Search) -> bool {
        *self == (Search {
            hard_deadline: self.hard_deadline,
            soft_deadline: self.soft_deadline,
            ..*other
        })
    }

    /// The node budget of the running search, if any.
    pub closed spec fn node_budget(&self) -> Option<u64> {
        self.node_limit
    }

    /// Whether `self` and `other` differ at most in whether they stopped.
    pub closed spec fn same_but_aborted(&self, other: &Search) -> bool {
        *self == (Search { aborted: self.aborted, ..*other })
    }

    /// The flag that says whether the search ponders.
    pub closed spec fn ponder_flag(&self) -> Arc<AtomicBool> {
        self.pondering
    }

    /// Whether `self` and `other` differ at most in their ponder flag.
    pub closed spec fn same_but_ponder_flag(&self, other: &Search) -> bool {
        *self == (Search { pondering: self.pondering, ..*other })
    }

    /// Whether the root's best move is none yet or a legal move of `s`.
    pub closed spec fn root_ok(&self, s: BoardState) -> bool {
        self.root_best matches Some(m) ==> spec_is_legal(s, m) && m.wf()
    }

    /// A search driven by the given stop flag, with its reduction table.
    ///
    /// The reduction table holds a reduction per remaining depth and move
    /// rank, `LMR_TABLE_SIDE` of each, depth major.
    pub fn new(stop: Arc<AtomicBool>, lmr: Vec<i32>) -> (r: Search)
        ensures
            r.wf(),
            r.thread_count() == 1,
            r.node_count() == 0,
            !r.is_aborted(),
            r.node_budget() is None,
            r.path_keys() == Seq::<u64>::empty(),
            r.null_move_marks() == Seq::<usize>::empty(),
            r.root_move() is None,
            r.reductions() == lmr@,
            forall|i: int|
                0 <= i < r.table().slots().len() ==> r.table().slots()[i] == entry_of(
                    0,
                    empty_data_spec(),
                ),
    {
        let mut killers: Vec<[u16; 2]> = Vec::new();
        let mut i: usize = 0;
        while i < MAX_PLY
            invariant
                i <= MAX_PLY,
                killers@.len() == i,
            decreases MAX_PLY - i,
        {
            killers.push([0u16, 0u16]);
            i = i + 1;
        }
        let mut history: Vec<i32> = Vec::new();
        let mut j: usize = 0;
        while j < 4096
            invariant
                j <= 4096,
                history@.len() == j,
                forall|k: int| 0 <= k < j ==> history@[k] == 0,
            decreases 4096 - j,
        {
            history.push(0);
            j = j + 1;
        }
        Search {
            stop,
            pondering: Arc::new(AtomicBool::new(false)),
            started: now(),
            nodes: 0,
            hard_deadline: None,
            soft_deadline: None,
            node_limit: None,
            last_pv: Vec::new(),
            last_score: None,
            aborted: false,
            path: Vec::new(),
            null_marks: Vec::new(),
            pv: PvTable::new(),
            root_best: None,
            completed: Ghost(None),
            reports: Ghost(Seq::empty()),
            tt: TranspositionTable::default(),
            threads: 1,
            killers,
            history,
            lmr,
        }
    }

    /// Replaces the transposition table by an empty one of `megabytes`
    /// mebibytes.
    pub fn resize_table(&mut self, megabytes: usize)
        requires
            old(self).wf(),
        ensures
            final(self).wf(),
            final(self).thread_count() == old(self).thread_count(),
            final(self).table().wf(),
            ({
                let bytes = (if megabytes < 1 {
                    1
                } else if megabytes > 4096 {
                    4096
                } else {
                    megabytes as int
                }) * 1024 * 1024;
                &&& final(self).table().slots().len() * 16 <= bytes
                &&& bytes < final(self).table().slots().len() * 32
            }),
    {
        self.tt = TranspositionTable::new(megabytes);
    }

    /// Sets the number of search threads, the UCI option `Threads`, clamped
    /// to `[1, MAX_THREADS]`.
    pub fn set_threads(&mut self, threads: usize)
        requires
            old(self).wf(),
        ensures
            final(self).wf(),
            final(self).thread_count() == (if threads < 1 {
                1
            } else if threads > MAX_THREADS {
                MAX_THREADS
            } else {
                threads
            }),
    {
        self.threads = if threads < 1 {
            1
        } else if threads > MAX_THREADS {
            MAX_THREADS
        } else {
            threads
        };
    }

    /// The number of search threads.
    pub fn threads(&self) -> (r: usize)
        ensures
            r == self.thread_count(),
    {
        self.threads
    }

    /// Empties the transposition table and forgets the move ordering's
    /// memory. To be called on `ucinewgame`.
    pub fn clear_table(&mut self)
        requires
            old(self).wf(),
        ensures
            final(self).wf(),
            final(self).thread_count() == old(self).thread_count(),
            final(self).table().slots().len() == old(self).table().slots().len(),
            forall|i: int|
                0 <= i < final(self).table().slots().len() ==> final(self).table().slots()[i]
                    == entry_of(0, empty_data_spec()),
    {
        self.tt.clear();
        self.forget_ordering();
    }

    /// Forgets the killers and the history.
    fn forget_ordering(&mut self)
        requires
            old(self).wf(),
        ensures
            final(self).wf(),
            final(self).same_but_ordering(old(self)),
            final(self).killers@.len() == MAX_PLY,
            forall|k: int| 0 <= k < MAX_PLY ==> #[trigger] final(self).killers@[k] == [0u16, 0u16],
            final(self).history@.len() == 4096,
            forall|k: int| 0 <= k < 4096 ==> #[trigger] final(self).history@[k] == 0,
            final(self).killers@ == Seq::new(MAX_PLY as nat, |k: int| [0u16, 0u16]),
            final(self).history@ == Seq::new(4096, |k: int| 0i32),
    {
        let mut i: usize = 0;
        while i < MAX_PLY
            invariant
                i <= MAX_PLY,
                self.killers@.len() == MAX_PLY,
                self.wf(),
                self.same_but_ordering(old(self)),
                self.history == old(self).history,
                forall|k: int| 0 <= k < i ==> #[trigger] self.killers@[k] == [0u16, 0u16],
            decreases MAX_PLY - i,
        {
            self.killers.set(i, [0u16, 0u16]);
            i = i + 1;
        }
        let mut j: usize = 0;
        while j < 4096
            invariant
                j <= 4096,
                self.wf(),
                self.same_but_ordering(old(self)),
                self.killers@.len() == MAX_PLY,
                forall|k: int| 0 <= k < MAX_PLY ==> #[trigger] self.killers@[k] == [0u16, 0u16],
                self.history@.len() == 4096,
                forall|k: int| 0 <= k < j ==> #[trigger] self.history@[k] == 0,
            decreases 4096 - j,
        {
            self.history.set(j, 0);
            j = j + 1;
        }
    }

    /// How full the transposition table is, in permille.
    pub fn table_permille(&self) -> (r: u32)
        requires
            self.wf(),
        ensures
            r == self.table().permille_spec(),
            r <= 1000,
    {
        self.tt.permille_used()
    }

    /// The number of slots of the transposition table.
    pub fn table_capacity(&self) -> (r: usize)
        ensures
            r == self.table().slots().len(),
    {
        self.tt.capacity()
    }

    /// Nodes visited by the last search.
    pub fn nodes(&self) -> (r: u64)
        ensures
            r == self.node_count(),
    {
        self.nodes
    }

    /// The score of the last completed iteration of the last search, as
    /// reported; `None` if no iteration completed.
    pub fn last_score(&self) -> (r: Option<Score>)
        ensures
            r == self.last_result(),
            self.wf() ==> (r matches Some(Score::Cp(c)) ==> -MATE_THRESHOLD <= c <= MATE_THRESHOLD),
    {
        self.last_score
    }

    /// Connects the ponder flag the UCI layer writes: raised before `go
    /// ponder`, lowered on `ponderhit` or `stop`.
    pub fn set_ponder_flag(&mut self, pondering: Arc<AtomicBool>)
        requires
            old(self).wf(),
        ensures
            final(self).wf(),
            final(self).thread_count() == old(self).thread_count(),
            final(self).ponder_flag() == pondering,
            final(self).same_but_ponder_flag(old(self)),
    {
        self.pondering = pondering;
    }

    /// Replaces the path the search starts from: the keys of the positions
    /// played, oldest first, and the indices among them of positions reached
    /// by a null move.
    pub fn set_path(&mut self, keys: Vec<u64>, null_marks: Vec<usize>)
        requires
            old(self).wf(),
            forall|i: int| 0 <= i < null_marks@.len() ==> #[trigger] null_marks@[i] <= keys@.len(),
        ensures
            final(self).wf(),
            final(self).path_keys() == keys@,
            final(self).null_move_marks() == null_marks@,
    {
        self.path = keys;
        self.null_marks = null_marks;
    }

    /// Replaces the line of the last completed iteration, which the ponder
    /// guess is read from.
    pub fn set_last_line(&mut self, line: Vec<Move>)
        requires
            old(self).wf(),
            forall|i: int| 0 <= i < line@.len() ==> (#[trigger] line@[i]).wf(),
        ensures
            final(self).wf(),
            final(self).last_line() == line@,
            final(self).table() == old(self).table(),
    {
        self.last_pv = line;
    }

    /// The indices in the path of the positions reached by a null move.
    pub fn null_move_indices(&self) -> (r: Vec<usize>)
        ensures
            r@ == self.null_move_marks(),
    {
        slice_to_vec(self.null_marks.as_slice())
    }

    /// The soft and the hard deadline, in milliseconds after the start.
    pub fn deadlines(&self) -> (r: (Option<u64>, Option<u64>))
        ensures
            r == (self.soft_limit(), self.hard_limit()),
    {
        (self.soft_deadline, self.hard_deadline)
    }

    /// Whether the search is pondering: launched by `go ponder`, not yet
    /// confirmed by `ponderhit`.
    pub fn is_pondering(&self) -> bool {
        is_raised(&*self.pondering)
    }

    /// The move bet on as the opponent's answer to `best`: the second move of
    /// the last completed line if that line starts with `best`, else the move
    /// the table keeps for the position after it, else none. The move given
    /// is legal after `best`.
    pub fn ponder_move(&self, board: &Chessboard, best: Move) -> (r: Option<Move>)
        requires
            self.wf(),
            best.wf(),
        ensures
            r == ponder_spec(
                board@,
                best,
                self.last_line(),
                self.table().lookup(spec_hash(spec_play(board@, best)), 0),
            ),
            r matches Some(m) ==> spec_is_legal(board@, best) && spec_is_legal(
                spec_play(board@, best),
                m,
            ),
    {
        if !board.is_legal(best) {
            return None;
        }
        let child = board.play(best);
        let from_pv = if self.last_pv.len() >= 2 && self.last_pv[0].same(&best) {
            Some(self.last_pv[1])
        } else {
            None
        };
        let candidate = match from_pv {
            Some(m) => Some(m),
            None => match self.tt.probe(child.hash(), 0) {
                Some(hit) => hit.mv,
                None => None,
            },
        };
        match candidate {
            Some(m) => if child.is_legal(m) {
                Some(m)
            } else {
                None
            },
            None => None,
        }
    }

    /// Whether the search must stop: already stopped, or the node budget
    /// spent; every `CHECK_INTERVAL` nodes, the stop flag raised or, unless
    /// pondering, the hard deadline passed.
    pub fn should_abort(&mut self) -> (r: bool)
        ensures
            r == final(self).is_aborted(),
            old(self).is_aborted() ==> r,
            (old(self).node_budget() matches Some(limit) && old(self).node_count() >= limit) ==> r,
            !old(self).is_aborted() && !(old(self).node_budget() matches Some(limit)
                && old(self).node_count() >= limit) && old(self).node_count() % CHECK_INTERVAL != 0
                ==> !r,
            final(self).same_but_aborted(old(self)),
    {
        if self.aborted {
            return true;
        }
        if let Some(limit) = self.node_limit {
            if self.nodes >= limit {
                self.aborted = true;
                return true;
            }
        }
        if self.nodes % CHECK_INTERVAL == 0 {
            let stopped = is_raised(&*self.stop);
            let late = !is_raised(&*self.pondering) && match self.hard_deadline {
                Some(at) => millis_since(&self.started) >= at,
                None => false,
            };
            self.aborted = stopped || late;
        }
        self.aborted
    }

    /// The reduction of a late move.
    pub fn reduction(&self, depth: i32, index: usize) -> (r: i32)
        ensures
            r == reduction_spec(self.reductions(), depth as int, index as int),
    {
        let d: usize = if depth < 0 {
            0
        } else if depth > 63 {
            63
        } else {
            depth as usize
        };
        let i: usize = if index > 63 {
            63
        } else {
            index
        };
        let at = d * 64 + i;
        if at < self.lmr.len() {
            self.lmr[at]
        } else {
            1
        }
    }

    /// Whether the position repeats one of the search's window.
    pub fn is_repetition(&self, board: &Chessboard) -> (r: bool)
        requires
            self.wf(),
        ensures
            r == (repetitions_spec(
                self.path_keys().subrange(
                    window_start(self.null_move_marks()),
                    self.path_keys().len() as int,
                ),
                spec_hash(board@),
                board@.halfmove_clock as int,
            ) > 0),
    {
        let from: usize = if self.null_marks.len() == 0 {
            0
        } else {
            self.null_marks[self.null_marks.len() - 1]
        };
        let (_, window) = self.path.as_slice().split_at(from);
        repetitions(window, board.hash(), board.halfmove_clock()) > 0
    }

    /// Whether the position is drawn by rule, seen from the search. One
    /// repetition is enough; the fifty-move rule yields to mate.
    fn is_rule_draw(&self, board: &Chessboard) -> (r: bool)
        requires
            self.wf(),
        ensures
            r == rule_draw_spec(self.path@, self.null_marks@, board@),
    {
        self.is_repetition(board) || (board.halfmove_clock() >= 100 && !is_checkmate(board))
            || is_insufficient_material(board)
    }

    /// Remembers a quiet move that just caused a beta cut-off: as the first
    /// killer of its ply, and in the history of its squares. Past the
    /// ceiling, the whole history is halved, which keeps the relative order.
    pub fn remember_quiet(&mut self, mv: Move, ply: usize, depth: i32)
        requires
            old(self).wf(),
            mv.wf(),
            0 <= depth <= MAX_DEPTH,
        ensures
            final(self).wf(),
            final(self).same_but_ordering(old(self)),
            final(self).killer_slots() == killers_after(
                old(self).killer_slots(),
                move_code(mv),
                ply as int,
            ),
            final(self).history_scores() == history_after(
                old(self).history_scores(),
                mv.from * 64 + mv.to,
                depth * depth,
            ),
    {
        let packed = pack_move(mv);
        if ply < self.killers.len() {
            let slot = self.killers[ply];
            if slot[0] != packed {
                self.killers.set(ply, [packed, slot[0]]);
            }
        }
        let index = (mv.from as usize) * 64 + (mv.to as usize);
        proof {
            assert(depth * depth <= 64 * 64) by (nonlinear_arith)
                requires
                    0 <= depth <= 64,
            ;
        }
        let value = self.history[index] + depth * depth;
        self.history.set(index, value);
        if value > HISTORY_MAX {
            let ghost before = *self;
            let mut k: usize = 0;
            while k < 4096
                invariant
                    *self == (Search { history: self.history, ..before }),
                    k <= 4096,
                    self.history@.len() == 4096,
                    forall|i: int| 0 <= i < k ==> #[trigger] self.history@[i] == (before.history@[i] / 2) as i32,
                    forall|i: int| k <= i < 4096 ==> #[trigger] self.history@[i] == before.history@[i],
                    forall|i: int| 0 <= i < 4096 ==> 0 <= #[trigger] self.history@[i] <= HISTORY_MAX
                        + 4096,
                    forall|i: int| 0 <= i < k ==> #[trigger] self.history@[i] <= HISTORY_MAX,
                decreases 4096 - k,
            {
                let halved = self.history[k] / 2;
                self.history.set(k, halved);
                k = k + 1;
            }
        }
    }

    /// The ordering score of a move.
    pub fn score_move(&self, board: &Chessboard, mv: Move, tt_move: Option<Move>, ply: usize) -> (r:
        i32)
        requires
            self.wf(),
            mv.wf(),
        ensures
            r == move_score(board@, self.killer_slots(), self.history_scores(), mv, tt_move, ply as int),
    {
        let same_as_table = match tt_move {
            Some(t) => t.same(&mv),
            None => false,
        };
        if same_as_table {
            return SCORE_TT;
        }
        let mut score: i32 = 0;
        if let Some(victim) = captured_piece(board, mv) {
            let attacker: i32 = match board.piece_on(mv.from) {
                Some(piece) => piece.index() as i32 + 1,
                None => 0,
            };
            score = score + SCORE_CAPTURE + 1_000 * (victim.index() as i32 + 1) - attacker;
        }
        if let Some(promotion) = mv.promotion {
            score = score + SCORE_PROMOTION + 1_000 * (promotion.index() as i32 + 1);
        }
        if score > 0 {
            return score;
        }
        let packed = pack_move(mv);
        if ply < self.killers.len() {
            let slot = self.killers[ply];
            if slot[0] == packed {
                return SCORE_KILLER_1;
            }
            if slot[1] == packed {
                return SCORE_KILLER_2;
            }
        }
        self.history[(mv.from as usize) * 64 + (mv.to as usize)]
    }

    /// The legal moves, or in quiescence the tactical ones, from the most
    /// promising down.
    pub fn ordered_moves(
        &self,
        board: &Chessboard,
        tactical_only: bool,
        tt_move: Option<Move>,
        ply: usize,
    ) -> (r: Vec<(Move, i32)>)
        requires
            self.wf(),
        ensures
            forall|i: int|
                0 <= i < r@.len() ==> spec_legal_moves(board@).contains(#[trigger] r@[i].0)
                    && r@[i].0.wf() && keeps(board@, r@[i].0, tactical_only) && spec_is_legal(
                    board@,
                    r@[i].0,
                ),
            !tactical_only ==> r@.len() == spec_legal_moves(board@).len(),
            r@.to_multiset() == ordering_entries(
                board@,
                self.killer_slots(),
                self.history_scores(),
                tactical_only,
                tt_move,
                ply as int,
            ).to_multiset(),
            forall|i: int, j: int| 0 <= i < j < r@.len() ==> r@[i].1 >= r@[j].1,
            r@ == ordered_spec(
                board@,
                self.killer_slots(),
                self.history_scores(),
                tactical_only,
                tt_move,
                ply as int,
            ),
    {
        let side = board.side_to_move();
        let them = board.colors(side.other());
        let passing = en_passant_square(board);
        let promotion_rank: u8 = match side {
            Color::White => 6,
            Color::Black => 1,
        };
        let legal = board.legal_moves();
        let mut out: Vec<(Move, i32)> = Vec::new();
        let mut k: usize = 0;
        while k < legal.len()
            invariant
                k <= legal@.len(),
                legal@ == spec_legal_moves(board@),
                forall|i: int| 0 <= i < legal@.len() ==> (#[trigger] legal@[i]).wf(),
                self.wf(),
                them == board@.colors[color_idx(opposite(board@.side))],
                passing == en_passant_spec(board@),
                promotion_rank == (if board@.side == Color::White {
                    6int
                } else {
                    1int
                }),
                forall|m: Move| m.wf() ==> (legal@.contains(m) <==> spec_is_legal(board@, m)),
                forall|i: int|
                    0 <= i < out@.len() ==> spec_legal_moves(board@).contains(#[trigger] out@[i].0)
                        && out@[i].0.wf() && keeps(board@, out@[i].0, tactical_only)
                        && spec_is_legal(board@, out@[i].0),
                !tactical_only ==> out@.len() == k,
                out@ == legal@.take(k as int).filter_map(
                    |m: Move|
                        if keeps(board@, m, tactical_only) {
                            Some((m, move_score(board@, self.killers@, self.history@, m, tt_move, ply as int) as i32))
                        } else {
                            None
                        },
                ),
            decreases legal@.len() - k,
        {
            let mv = legal[k];
            let promoting = match board.piece_on(mv.from) {
                Some(Piece::Pawn) => crate::types::rank(mv.from) == promotion_rank,
                _ => false,
            };
            let en_passant = match passing {
                Some(square) => square == mv.to,
                None => false,
            };
            let ghost f = |m: Move|
                if keeps(board@, m, tactical_only) {
                    Some((m, move_score(board@, self.killers@, self.history@, m, tt_move, ply as int) as i32))
                } else {
                    None
                };
            proof {
                legal@.lemma_filter_map_take_succ(f, k as int);
                assert(legal@[k as int] == mv);
            }
            if !tactical_only || promoting || contains(them, mv.to) || en_passant {
                let score = self.score_move(board, mv, tt_move, ply);
                out.push((mv, score));
            }
            k = k + 1;
        }
        proof {
            assert(legal@.take(legal@.len() as int) == legal@);
        }
        let ghost unsorted = out@;
        sort_by_score(&mut out);
        proof {
            assert forall|i: int|
                0 <= i < out@.len() implies spec_legal_moves(board@).contains(#[trigger] out@[i].0)
                && out@[i].0.wf() && keeps(board@, out@[i].0, tactical_only) && spec_is_legal(
                board@,
                out@[i].0,
            ) by {
                assert(unsorted.contains(out@[i]));
                let j = choose|j: int| 0 <= j < unsorted.len() && unsorted[j] == out@[i];
                assert(unsorted[j].0 == out@[i].0);
            }
        }
        out
    }
}


/// The value quiescence gives a position searched with the window
/// `(alpha, beta)` at `ply`, the move ordering reading `killers` and
/// `history`: the evaluation at the ply ceiling; out of check, the static
/// score if it already reaches `beta`, else the best of it (raising alpha)
/// and what the captures and promotions give; in check, mate without a
/// move, else the best of what every move gives.
pub open spec fn q_value(
    s: BoardState,
    alpha: int,
    beta: int,
    ply: int,
    killers: Seq<[u16; 2]>,
    history: Seq<i32>,
) -> int
    decreases MAX_PLY - ply, 1int, 0int,
{
    if ply >= MAX_PLY - 1 {
        evaluate_spec(s)
    } else {
        let in_check = spec_checkers(s) != 0;
        let stand = evaluate_spec(s);
        if !in_check && stand >= beta {
            stand
        } else {
            let floor = if !in_check && stand > alpha {
                stand
            } else {
                alpha
            };
            let moves = ordered_spec(s, killers, history, !in_check, None, ply);
            if moves.len() == 0 {
                if in_check {
                    -MATE + ply
                } else {
                    floor
                }
            } else {
                q_fold(
                    s,
                    moves,
                    0,
                    in_check,
                    if in_check {
                        -INFINITY as int
                    } else {
                        stand
                    },
                    floor,
                    beta,
                    if in_check {
                        -INFINITY as int
                    } else {
                        floor
                    },
                    ply,
                    killers,
                    history,
                )
            }
        }
    }
}

/// The rest of a quiescence node from move `i` on, with `alpha` and the
/// best score so far: a move that delta or exchange pruning drops is
/// skipped; otherwise its score is minus the child's value searched with
/// the window negated; a score above the best replaces it and may raise
/// alpha, and reaching `beta` ends the node.
pub open spec fn q_fold(
    s: BoardState,
    moves: Seq<(Move, i32)>,
    i: int,
    in_check: bool,
    stand: int,
    alpha: int,
    beta: int,
    best: int,
    ply: int,
    killers: Seq<[u16; 2]>,
    history: Seq<i32>,
) -> int
    decreases MAX_PLY - ply, 0int, moves.len() - i,
{
    if i < 0 || i >= moves.len() || ply >= MAX_PLY - 1 {
        best
    } else {
        let mv = moves[i].0;
        if delta_prunable_spec(s, mv, in_check, stand, alpha) || see_prunable_spec(s, mv, in_check) {
            q_fold(s, moves, i + 1, in_check, stand, alpha, beta, best, ply, killers, history)
        } else {
            let score = -q_value(spec_play(s, mv), -beta, -alpha, ply + 1, killers, history);
            if score > best {
                if score > alpha && score >= beta {
                    score
                } else {
                    q_fold(
                        s,
                        moves,
                        i + 1,
                        in_check,
                        stand,
                        if score > alpha {
                            score
                        } else {
                            alpha
                        },
                        beta,
                        score,
                        ply,
                        killers,
                        history,
                    )
                }
            } else {
                q_fold(s, moves, i + 1, in_check, stand, alpha, beta, best, ply, killers, history)
            }
        }
    }
}

/// The reduction a late move gets: quiet, not in or into check, deep
/// enough and late enough in the ordering; the table's value capped at
/// `depth - 2` and floored at zero; none otherwise.
pub open spec fn late_reduction(
    quiet: bool,
    in_check: bool,
    child: BoardState,
    depth: int,
    index: int,
    lmr: Seq<i32>,
) -> int {
    if quiet && !in_check && spec_checkers(child) == 0 && depth >= LMR_MIN_DEPTH && index
        >= LMR_FIRST_REDUCED {
        let raw = reduction_spec(lmr, depth, index);
        let capped = if raw < depth - 2 {
            raw
        } else {
            depth - 2
        };
        if capped < 0 {
            0
        } else {
            capped
        }
    } else {
        0
    }
}

/// The value a search gives a position, `depth` plies deep at `ply` with the
/// window `(alpha, beta)`, after the positions of `path` (and the null moves
/// marked in `marks`), together with what it leaves behind: the table's
/// slots, the killer moves, the history scores and the best root move, all
/// four taken from `state` as the search finds them. In order: a draw by
/// rule below the root; quiescence at the horizon; the evaluation at the ply
/// ceiling; a table hit that settles the node below the root; reverse
/// futility; a null move that still reaches `beta` (its mate cut to `beta`);
/// then the moves.
pub open spec fn nm_value(
    s: BoardState,
    depth: int,
    ply: int,
    alpha: int,
    beta: int,
    path: Seq<u64>,
    marks: Seq<usize>,
    state: (Seq<[u64; 2]>, Seq<[u16; 2]>, Seq<i32>, Option<Move>),
    mask: usize,
    generation: u8,
    lmr: Seq<i32>,
) -> (int, (Seq<[u64; 2]>, Seq<[u16; 2]>, Seq<i32>, Option<Move>))
    decreases (if depth > 0 {
        depth
    } else {
        0
    }), 2int, 0int,
{
    if ply > 0 && rule_draw_spec(path, marks, s) {
        (0, state)
    } else if depth <= 0 {
        (q_value(s, alpha, beta, ply, state.1, state.2), state)
    } else if ply >= MAX_PLY {
        (evaluate_spec(s), state)
    } else {
        let key = spec_hash(s);
        let hit = probe_entry(state.0[slot_of(key, mask)], key, ply);
        if ply > 0 && (hit matches Some(h) && cut_by_table(h, depth, alpha, beta)) {
            (hit.unwrap().score as int, state)
        } else {
            let tt_move = match hit {
                Some(h) => match h.mv {
                    Some(m) => if spec_is_legal(s, m) {
                        Some(m)
                    } else {
                        None
                    },
                    None => None,
                },
                None => None,
            };
            match futility_cut_spec(s, depth, ply, beta) {
                Some(v) => (v, state),
                None => {
                    if ply > 0 && depth >= NULL_MOVE_MIN_DEPTH && spec_checkers(s) == 0 && beta
                        < MATE_THRESHOLD && beta > -MATE_THRESHOLD && non_pawn_material_spec(s) {
                        let passed = null_move_state(s);
                        let (reply, after) = nm_value(
                            passed,
                            depth - 1 - NULL_MOVE_REDUCTION,
                            ply + 1,
                            -beta,
                            -beta + 1,
                            path.push(spec_hash(passed)),
                            marks.push(path.len() as usize),
                            state,
                            mask,
                            generation,
                            lmr,
                        );
                        if -reply >= beta {
                            (
                                if -reply > MATE_THRESHOLD || -reply < -MATE_THRESHOLD {
                                    beta
                                } else {
                                    -reply
                                },
                                after,
                            )
                        } else {
                            nm_moves(s, depth, ply, alpha, beta, path, marks, after, tt_move, mask, generation, lmr)
                        }
                    } else {
                        nm_moves(s, depth, ply, alpha, beta, path, marks, state, tt_move, mask, generation, lmr)
                    }
                },
            }
        }
    }
}

/// A searched node's moves: stalemate or mate without any, else the moves
/// in order from a best of minus infinity.
pub open spec fn nm_moves(
    s: BoardState,
    depth: int,
    ply: int,
    alpha: int,
    beta: int,
    path: Seq<u64>,
    marks: Seq<usize>,
    state: (Seq<[u64; 2]>, Seq<[u16; 2]>, Seq<i32>, Option<Move>),
    tt_move: Option<Move>,
    mask: usize,
    generation: u8,
    lmr: Seq<i32>,
) -> (int, (Seq<[u64; 2]>, Seq<[u16; 2]>, Seq<i32>, Option<Move>))
    decreases (if depth > 0 {
        depth
    } else {
        0
    }), 1int, 0int,
{
    let moves = ordered_spec(s, state.1, state.2, false, tt_move, ply);
    if moves.len() == 0 {
        (
            if spec_checkers(s) == 0 {
                0
            } else {
                -MATE + ply
            },
            state,
        )
    } else {
        nm_fold(
            s,
            moves,
            0,
            depth,
            ply,
            alpha,
            alpha,
            beta,
            -INFINITY as int,
            None,
            0,
            spec_checkers(s) != 0,
            path,
            marks,
            state,
            mask,
            generation,
            lmr,
        )
    }
}

/// The end of a searched node: its best score, stored in the table for the
/// node's key with the best move, the depth and the bound the score is.
pub open spec fn nm_close(
    s: BoardState,
    depth: int,
    ply: int,
    beta: int,
    alpha0: int,
    best: int,
    best_move: Option<Move>,
    state: (Seq<[u64; 2]>, Seq<[u16; 2]>, Seq<i32>, Option<Move>),
    mask: usize,
    generation: u8,
) -> (int, (Seq<[u64; 2]>, Seq<[u16; 2]>, Seq<i32>, Option<Move>)) {
    let bound = if best >= beta {
        Bound::Lower
    } else if best > alpha0 {
        Bound::Exact
    } else {
        Bound::Upper
    };
    let written = after_write(
        state.0,
        mask,
        generation,
        TableWrite::Store {
            key: spec_hash(s),
            mv: best_move,
            score: best as i32,
            depth: depth as i32,
            bound,
            ply: ply as i32,
        },
    );
    (best, (written.0, state.1, state.2, state.3))
}

/// The moves of a searched node from move `i` on, with the current alpha,
/// the best score and move so far and the quiet moves seen: move-count
/// pruning ends the node; otherwise the child is searched one ply less deep
/// (less a late-move reduction, searched again at full depth when it beats
/// alpha) with the window negated, a better score is kept (the best root
/// move with it), may raise alpha, and reaching `beta` ends the node after
/// a quiet move is remembered.
pub open spec fn nm_fold(
    s: BoardState,
    moves: Seq<(Move, i32)>,
    i: int,
    depth: int,
    ply: int,
    alpha0: int,
    alpha: int,
    beta: int,
    best: int,
    best_move: Option<Move>,
    quiets: int,
    in_check: bool,
    path: Seq<u64>,
    marks: Seq<usize>,
    state: (Seq<[u64; 2]>, Seq<[u16; 2]>, Seq<i32>, Option<Move>),
    mask: usize,
    generation: u8,
    lmr: Seq<i32>,
) -> (int, (Seq<[u64; 2]>, Seq<[u16; 2]>, Seq<i32>, Option<Move>))
    decreases (if depth > 0 {
        depth
    } else {
        0
    }), 0int, moves.len() - i,
{
    if i < 0 || depth <= 0 || i >= moves.len() {
        nm_close(s, depth, ply, beta, alpha0, best, best_move, state, mask, generation)
    } else {
        let mv = moves[i].0;
        let quiet = captured_spec(s, mv) is None && mv.promotion is None;
        if late_prune_spec(quiet, in_check, ply, depth, best, quiets) {
            nm_close(s, depth, ply, beta, alpha0, best, best_move, state, mask, generation)
        } else {
            let seen = if quiet {
                quiets + 1
            } else {
                quiets
            };
            let child = spec_play(s, mv);
            let reduction = late_reduction(quiet, in_check, child, depth, i, lmr);
            let below = path.push(spec_hash(child));
            let (first, after_first) = nm_value(
                child,
                depth - 1 - reduction,
                ply + 1,
                -beta,
                -alpha,
                below,
                marks,
                state,
                mask,
                generation,
                lmr,
            );
            let (score, after) = if reduction > 0 && -first > alpha {
                let (again, after_again) = nm_value(
                    child,
                    depth - 1,
                    ply + 1,
                    -beta,
                    -alpha,
                    below,
                    marks,
                    after_first,
                    mask,
                    generation,
                    lmr,
                );
                (-again, after_again)
            } else {
                (-first, after_first)
            };
            if score > best {
                let kept = (after.0, after.1, after.2, if ply == 0 {
                    Some(mv)
                } else {
                    after.3
                });
                if score > alpha && score >= beta {
                    let remembered = if quiet {
                        (
                            kept.0,
                            killers_after(kept.1, move_code(mv), ply),
                            history_after(kept.2, mv.from * 64 + mv.to, depth * depth),
                            kept.3,
                        )
                    } else {
                        kept
                    };
                    nm_close(s, depth, ply, beta, alpha0, score, Some(mv), remembered, mask, generation)
                } else {
                    nm_fold(
                        s,
                        moves,
                        i + 1,
                        depth,
                        ply,
                        alpha0,
                        if score > alpha {
                            score
                        } else {
                            alpha
                        },
                        beta,
                        score,
                        Some(mv),
                        seen,
                        in_check,
                        path,
                        marks,
                        kept,
                        mask,
                        generation,
                        lmr,
                    )
                }
            } else {
                nm_fold(
                    s,
                    moves,
                    i + 1,
                    depth,
                    ply,
                    alpha0,
                    alpha,
                    beta,
                    best,
                    best_move,
                    seen,
                    in_check,
                    path,
                    marks,
                    after,
                    mask,
                    generation,
                    lmr,
                )
            }
        }
    }
}

/// The root searched with an aspiration window `(alpha, beta)` of half-width
/// `delta`: a score inside the window is the answer; one at or below the
/// floor brings the ceiling to the window's middle and the floor to the score
/// less `delta`; one at or above the ceiling lifts it to the score plus
/// `delta`. The half-width then grows by half, and past the mate threshold
/// the full window decides.
pub open spec fn aspiration_value(
    s: BoardState,
    depth: int,
    alpha: int,
    beta: int,
    delta: int,
    path: Seq<u64>,
    marks: Seq<usize>,
    state: (Seq<[u64; 2]>, Seq<[u16; 2]>, Seq<i32>, Option<Move>),
    mask: usize,
    generation: u8,
    lmr: Seq<i32>,
) -> (int, (Seq<[u64; 2]>, Seq<[u16; 2]>, Seq<i32>, Option<Move>))
    decreases MATE_THRESHOLD - delta,
{
    let (score, after) = nm_value(s, depth, 0, alpha, beta, path, marks, state, mask, generation, lmr);
    if alpha < score < beta || delta < ASPIRATION_DELTA {
        (score, after)
    } else {
        let (next_alpha, next_beta) = if score <= alpha {
            (score - delta, tdiv(alpha + beta, 2))
        } else {
            (alpha, score + delta)
        };
        let wider = delta + delta / 2;
        if wider > MATE_THRESHOLD {
            nm_value(s, depth, 0, -INFINITY as int, INFINITY as int, path, marks, after, mask, generation, lmr)
        } else {
            aspiration_value(s, depth, next_alpha, next_beta, wider, path, marks, after, mask, generation, lmr)
        }
    }
}

/// The root searched at `depth` for iteration `iteration`, after an
/// iteration that scored `previous`: the full window at the first
/// iterations or around a mate, else an aspiration window around
/// `previous`.
pub open spec fn root_value(
    s: BoardState,
    depth: int,
    iteration: int,
    previous: int,
    path: Seq<u64>,
    marks: Seq<usize>,
    state: (Seq<[u64; 2]>, Seq<[u16; 2]>, Seq<i32>, Option<Move>),
    mask: usize,
    generation: u8,
    lmr: Seq<i32>,
) -> (int, (Seq<[u64; 2]>, Seq<[u16; 2]>, Seq<i32>, Option<Move>)) {
    if iteration <= ASPIRATION_MIN_DEPTH || previous > MATE_THRESHOLD || previous < -MATE_THRESHOLD {
        nm_value(s, depth, 0, -INFINITY as int, INFINITY as int, path, marks, state, mask, generation, lmr)
    } else {
        aspiration_value(
            s,
            depth,
            previous - ASPIRATION_DELTA,
            previous + ASPIRATION_DELTA,
            ASPIRATION_DELTA as int,
            path,
            marks,
            state,
            mask,
            generation,
            lmr,
        )
    }
}

/// The first `k` iterations of iterative deepening, each at the next depth
/// from what the previous one left and after its score (a draw before the
/// first): their scores and their best root moves, and what the last one
/// leaves.
pub open spec fn deepening(
    s: BoardState,
    k: nat,
    path: Seq<u64>,
    marks: Seq<usize>,
    state: (Seq<[u64; 2]>, Seq<[u16; 2]>, Seq<i32>, Option<Move>),
    mask: usize,
    generation: u8,
    lmr: Seq<i32>,
) -> (Seq<int>, Seq<Option<Move>>, (Seq<[u64; 2]>, Seq<[u16; 2]>, Seq<i32>, Option<Move>))
    decreases k,
{
    if k == 0 {
        (Seq::empty(), Seq::empty(), state)
    } else {
        let (scores, roots, before) = deepening(s, (k - 1) as nat, path, marks, state, mask, generation, lmr);
        let previous = if k == 1 {
            DRAW as int
        } else {
            scores.last()
        };
        let (score, after) = root_value(s, k as int, k as int, previous, path, marks, before, mask, generation, lmr);
        (scores.push(score), roots.push(after.3), after)
    }
}

/// Iterative deepening to `k` iterations gives `k` scores and `k` moves.
pub proof fn lemma_deepening_len(
    s: BoardState,
    k: nat,
    path: Seq<u64>,
    marks: Seq<usize>,
    state: (Seq<[u64; 2]>, Seq<[u16; 2]>, Seq<i32>, Option<Move>),
    mask: usize,
    generation: u8,
    lmr: Seq<i32>,
)
    ensures
        deepening(s, k, path, marks, state, mask, generation, lmr).0.len() == k,
        deepening(s, k, path, marks, state, mask, generation, lmr).1.len() == k,
    decreases k,
{
    if k > 0 {
        lemma_deepening_len(s, (k - 1) as nat, path, marks, state, mask, generation, lmr);
    }
}

/// The depth a search goes to: the limit given, clamped to `[1, MAX_DEPTH]`,
/// else `MAX_DEPTH`.
pub open spec fn depth_limit(limits: Limits) -> int {
    match limits.depth {
        Some(d) => if d < 1 {
            1
        } else if d > MAX_DEPTH {
            MAX_DEPTH as int
        } else {
            d as int
        },
        None => MAX_DEPTH as int,
    }
}

/// The generation a table takes at a new search.
pub open spec fn next_generation(generation: u8) -> u8 {
    if generation == 255 {
        0
    } else {
        (generation + 1) as u8
    }
}

/// Whether a table hit settles a node searched at `depth` with the window
/// `(alpha, beta)`: deep enough, and exact or a bound on the right side.
pub open spec fn cut_by_table(h: Hit, depth: int, alpha: int, beta: int) -> bool {
    &&& h.depth >= depth
    &&& match h.bound {
        Bound::Exact => true,
        Bound::Lower => h.score >= beta,
        Bound::Upper => h.score <= alpha,
    }
}

/// A node count after one more node, saturating.
pub open spec fn one_more(n: u64) -> int {
    if n < u64::MAX {
        n + 1
    } else {
        n as int
    }
}

/// Reverse futility: the static score when it beats `beta` even after
/// conceding the margin per remaining depth. Never at the root, in check,
/// beyond its depth, or against a mate bound.
pub open spec fn futility_cut_spec(s: BoardState, depth: int, ply: int, beta: int) -> Option<int> {
    if ply == 0 || depth > RFP_MAX_DEPTH || spec_checkers(s) != 0 || beta >= MATE_THRESHOLD || beta
        <= -MATE_THRESHOLD {
        None
    } else if evaluate_spec(s) - RFP_MARGIN * depth >= beta {
        Some(evaluate_spec(s))
    } else {
        None
    }
}

/// Move-count pruning: drop the remaining quiet moves once enough were seen.
/// Never in check, at the root, beyond its depth, or while no move has done
/// better than a mate bound — which also means never before a first move was
/// searched.
pub open spec fn late_prune_spec(
    quiet: bool,
    in_check: bool,
    ply: int,
    depth: int,
    best: int,
    quiets_seen: int,
) -> bool {
    &&& quiet
    &&& !in_check
    &&& ply > 0
    &&& depth <= LMP_MAX_DEPTH
    &&& best > -MATE_THRESHOLD
    &&& quiets_seen >= lmp_limit_spec(depth)
}

/// The largest value a victim can bring, middlegame or endgame.
pub open spec fn victim_gain(victim: Piece) -> int {
    if midgame_value(victim) >= endgame_value(victim) {
        midgame_value(victim)
    } else {
        endgame_value(victim)
    }
}

/// A sum clamped to the range of an `i32`.
pub open spec fn saturate(x: int) -> int {
    if x < i32::MIN {
        i32::MIN as int
    } else if x > i32::MAX {
        i32::MAX as int
    } else {
        x
    }
}

/// The sum of two `i32`, clamped to the range of an `i32`.
pub fn add_saturating(a: i32, b: i32) -> (r: i32)
    ensures
        r == saturate(a + b),
{
    let sum = a as i64 + b as i64;
    if sum < i32::MIN as i64 {
        i32::MIN
    } else if sum > i32::MAX as i64 {
        i32::MAX
    } else {
        sum as i32
    }
}

/// Delta pruning: a capture that, even with its victim at the largest value
/// and a margin, cannot bring the position back to `alpha`. Never in check,
/// for a promotion, or around a mate score.
pub open spec fn delta_prunable_spec(
    s: BoardState,
    mv: Move,
    in_check: bool,
    stand_pat: int,
    alpha: int,
) -> bool {
    if in_check || mv.promotion is Some || alpha >= MATE_THRESHOLD || alpha <= -MATE_THRESHOLD {
        false
    } else {
        match captured_spec(s, mv) {
            None => false,
            Some(victim) => saturate(saturate(stand_pat + victim_gain(victim)) + DELTA_MARGIN)
                <= alpha,
        }
    }
}

impl Search {
    /// Counts a node, saturating.
    fn count_node(&mut self)
        ensures
            *final(self) == (Search { nodes: final(self).nodes, ..*old(self) }),
            final(self).nodes == (if old(self).nodes < u64::MAX {
                old(self).nodes + 1
            } else {
                old(self).nodes as int
            }),
    {
        if self.nodes < u64::MAX {
            self.nodes = self.nodes + 1;
        }
    }

    /// The score to return if reverse futility cuts here.
    pub fn reverse_futility_cut(&self, board: &Chessboard, depth: i32, ply: usize, beta: i32) -> (r:
        Option<i32>)
        requires
            RFP_MARGIN * depth >= SCORE_BOUND - i32::MAX,
        ensures
            r == match futility_cut_spec(board@, depth as int, ply as int, beta as int) {
                Some(v) => Some(v as i32),
                None => None,
            },
            r matches Some(v) ==> in_range(v as int),
            r matches Some(v) ==> futility_cut_spec(board@, depth as int, ply as int, beta as int)
                == Some(v as int),
    {
        if ply == 0 || depth > RFP_MAX_DEPTH || board.checkers() != 0 || beta >= MATE_THRESHOLD
            || beta <= -MATE_THRESHOLD {
            return None;
        }
        let static_eval = evaluate(board);
        if static_eval - RFP_MARGIN * depth >= beta {
            Some(static_eval)
        } else {
            None
        }
    }

    /// Whether the remaining quiet moves are dropped.
    pub fn late_move_prune(
        &self,
        quiet: bool,
        in_check: bool,
        ply: usize,
        depth: i32,
        best: i32,
        quiets_seen: usize,
    ) -> (r: bool)
        ensures
            r == late_prune_spec(
                quiet,
                in_check,
                ply as int,
                depth as int,
                best as int,
                quiets_seen as int,
            ),
    {
        quiet && !in_check && ply > 0 && depth <= LMP_MAX_DEPTH && best > -MATE_THRESHOLD
            && quiets_seen >= lmp_limit(depth)
    }

    /// Whether this capture cannot bring the position back to `alpha`.
    pub fn delta_prunable(
        &self,
        board: &Chessboard,
        mv: Move,
        in_check: bool,
        stand_pat: i32,
        alpha: i32,
    ) -> (r: bool)
        requires
            mv.wf(),
            alpha > i32::MIN,
        ensures
            r == delta_prunable_spec(board@, mv, in_check, stand_pat as int, alpha as int),
    {
        if in_check || mv.promotion.is_some() || alpha >= MATE_THRESHOLD || alpha
            <= -MATE_THRESHOLD {
            return false;
        }
        let victim = match captured_piece(board, mv) {
            Some(v) => v,
            None => {
                return false;
            },
        };
        let (midgame, endgame): (i32, i32) = match victim {
            Piece::Pawn => (100, 130),
            Piece::Knight => (320, 310),
            Piece::Bishop => (335, 340),
            Piece::Rook => (500, 540),
            Piece::Queen => (980, 1000),
            Piece::King => (0, 0),
        };
        let gain = if midgame >= endgame {
            midgame
        } else {
            endgame
        };
        add_saturating(add_saturating(stand_pat, gain), DELTA_MARGIN) <= alpha
    }

    /// Negamax with alpha-beta pruning; the score is from the point of view
    /// of the side to move in `board`.
    ///
    /// A repetition, the fifty-move rule or dead material draw, never at the
    /// root — the starting position is not a result, a move must be played.
    /// At the horizon, quiescence. The table cuts below the root; reverse
    /// futility and the null move prune; moves are searched best first,
    /// quiet late ones reduced, re-searched at full depth when the reduction
    /// lied, and dropped once enough were seen at shallow depth. Unless the
    /// search is stopped, the score and what the search leaves behind are
    /// those of `nm_value`.
    #[verifier::spinoff_prover]
    #[verifier::rlimit(100)]
    pub fn negamax(&mut self, board: &Chessboard, depth: i32, ply: usize, alpha: i32, beta: i32) -> (r:
        i32)
        requires
            old(self).wf(),
            !old(self).is_aborted(),
            ply <= MAX_PLY,
            depth <= MAX_DEPTH,
            window_bound(alpha as int),
            window_bound(beta as int),
            alpha < beta,
            ply == 0 ==> old(self).root_ok(board@),
        ensures
            final(self).wf(),
            result_ok(r as int, alpha as int, beta as int),
            final(self).is_aborted() ==> r == 0,
            final(self).frame() == old(self).frame(),
            final(self).completed_move() == old(self).completed_move(),
            final(self).node_count() >= old(self).node_count(),
            ply < MAX_PLY ==> final(self).node_count() >= 1,
            ply > 0 ==> final(self).root_move() == old(self).root_move(),
            ply == 0 ==> final(self).root_ok(board@),
            ply > 0 && rule_draw_spec(old(self).path_keys(), old(self).null_move_marks(), board@) ==> r == 0,
            ply > 0 && rule_draw_spec(old(self).path_keys(), old(self).null_move_marks(), board@)
                ==> final(self).node_count() == one_more(old(self).node_count()),
            !final(self).is_aborted() && 0 < ply < MAX_PLY && depth >= 1 && !rule_draw_spec(
                old(self).path_keys(),
                old(self).null_move_marks(),
                board@,
            ) && !(old(self).table().lookup(spec_hash(board@), ply as int) matches Some(h)
                && cut_by_table(h, depth as int, alpha as int, beta as int)) && spec_legal_moves(
                board@,
            ).len() == 0 && (spec_checkers(board@) != 0 || beta >= MATE_THRESHOLD || beta
                <= -MATE_THRESHOLD) ==> r == (if spec_checkers(board@) == 0 {
                0
            } else {
                -MATE + ply
            }),
            spec_legal_moves(board@).len() == 0 && (spec_checkers(board@) != 0 || beta
                >= MATE_THRESHOLD || beta <= -MATE_THRESHOLD) ==> final(self).table() == old(
                self,
            ).table(),
            !final(self).is_aborted() && 0 < ply < MAX_PLY && depth >= 1 && !rule_draw_spec(
                old(self).path_keys(),
                old(self).null_move_marks(),
                board@,
            ) && (old(self).table().lookup(spec_hash(board@), ply as int) matches Some(h)
                && cut_by_table(h, depth as int, alpha as int, beta as int)) ==> r == old(
                self,
            ).table().lookup(spec_hash(board@), ply as int).unwrap().score,
            final(self).table().mask_spec() == old(self).table().mask_spec(),
            final(self).table().generation_spec() == old(self).table().generation_spec(),
            final(self).reductions() == old(self).reductions(),
            !final(self).is_aborted() ==> ({
                let o = nm_value(
                    board@,
                    depth as int,
                    ply as int,
                    alpha as int,
                    beta as int,
                    old(self).path_keys(),
                    old(self).null_move_marks(),
                    old(self).search_state(),
                    old(self).table().mask_spec(),
                    old(self).table().generation_spec(),
                    old(self).reductions(),
                );
                &&& r == o.0
                &&& final(self).search_state() == o.1
            }),
            !final(self).is_aborted() && depth <= 0 && !(ply > 0 && rule_draw_spec(
                old(self).path_keys(),
                old(self).null_move_marks(),
                board@,
            )) ==> r == q_value(
                board@,
                alpha as int,
                beta as int,
                ply as int,
                old(self).killer_slots(),
                old(self).history_scores(),
            ),
            !final(self).is_aborted() && depth <= 0 && !(ply > 0 && rule_draw_spec(
                old(self).path_keys(),
                old(self).null_move_marks(),
                board@,
            )) && spec_checkers(board@) == 0 ==> r >= evaluate_spec(board@),
            depth <= 0 && calm_tree(board@, (MAX_PLY - ply) as nat) ==> (r >= -MATE + ply + 2 || r
                >= beta || (r == -MATE + ply && checkmated(board@))),
            depth <= 0 && calm_tree(board@, (MAX_PLY - ply) as nat) ==> (r <= MATE - ply - 1 || r
                <= alpha),
            (old(self).node_budget() matches Some(limit) && old(self).node_count() >= limit)
                && !(ply > 0 && rule_draw_spec(
                old(self).path_keys(),
                old(self).null_move_marks(),
                board@,
            )) && !(depth > 0 && ply >= MAX_PLY) ==> final(self).is_aborted() && r == 0
                && final(self).node_count() == one_more(old(self).node_count()),
            depth <= 0 && !final(self).is_aborted() && 0 < ply < MAX_PLY - 1 && !rule_draw_spec(
                old(self).path_keys(),
                old(self).null_move_marks(),
                board@,
            ) && checkmated(board@) ==> r == -MATE + ply,
            ply == 0 && depth == 1 && alpha == -INFINITY && beta == INFINITY
                && !final(self).is_aborted() && calm_tree(board@, MAX_PLY as nat) && (exists|m: Move|
                mates_at_once(old(self).path_keys(), old(self).null_move_marks(), board@, m))
                ==> r == MATE - 1 && (final(self).root_move() matches Some(m) && mates_at_once(
                old(self).path_keys(),
                old(self).null_move_marks(),
                board@,
                m,
            )),
            ply == 0 && depth >= 1 && !final(self).is_aborted() ==> if spec_legal_moves(board@).len()
                == 0 {
                r == (if spec_checkers(board@) == 0 {
                    0
                } else {
                    -MATE
                })
            } else {
                final(self).root_move() is Some
            },
        decreases (if depth > 0 {
            depth as int
        } else {
            0int
        }), 1int, 0int,
    {
        self.pv.clear(ply);
        if ply > 0 && self.is_rule_draw(board) {
            self.count_node();
            return DRAW;
        }
        if depth <= 0 {
            return self.quiescence(board, alpha, beta, ply);
        }
        if ply >= MAX_PLY {
            return evaluate(board);
        }
        self.count_node();
        if self.should_abort() {
            return 0;
        }
        let key = board.hash();
        let ply_i32 = ply as i32;
        let hit = self.tt.probe(key, ply_i32);
        // The table cuts below the root only: the root needs a move, not
        // just a score.
        if ply > 0 {
            if let Some(h) = hit {
                if h.depth as i32 >= depth {
                    let usable = match h.bound {
                        Bound::Exact => true,
                        Bound::Lower => h.score >= beta,
                        Bound::Upper => h.score <= alpha,
                    };
                    if usable {
                        return h.score;
                    }
                }
            }
        }
        // Even with an unusable score, the stored move is the best known
        // candidate; the legality check covers a key collision.
        let tt_move = match hit {
            Some(h) => match h.mv {
                Some(m) => if board.is_legal(m) {
                    Some(m)
                } else {
                    None
                },
                None => None,
            },
            None => None,
        };
        if let Some(score) = self.reverse_futility_cut(board, depth, ply, beta) {
            return score;
        }
        // Null move: if passing still cuts, playing does too. Not in check,
        // not without pieces (zugzwang), not against a mate bound, never at
        // the root.
        if ply > 0 && depth >= NULL_MOVE_MIN_DEPTH && board.checkers() == 0 && beta
            < MATE_THRESHOLD && beta > -MATE_THRESHOLD && has_non_pawn_material(board) {
            if let Some(passed) = board.null_move() {
                let mark = self.path.len();
                self.null_marks.push(mark);
                self.path.push(passed.hash());
                let reply = self.negamax(
                    &passed,
                    depth - 1 - NULL_MOVE_REDUCTION,
                    ply + 1,
                    -beta,
                    -beta + 1,
                );
                self.path.pop();
                self.null_marks.pop();
                if self.aborted {
                    return 0;
                }
                let score = -reply;
                if score >= beta {
                    // A mate found thanks to a move one may not play is
                    // false: return the bound, not the mate.
                    return if score > MATE_THRESHOLD || score < -MATE_THRESHOLD {
                        beta
                    } else {
                        score
                    };
                }
            }
        }
        let moves = self.ordered_moves(board, false, tt_move, ply);
        proof {
            assert(nm_value(
                board@,
                depth as int,
                ply as int,
                alpha as int,
                beta as int,
                old(self).path@,
                old(self).null_marks@,
                old(self).search_state(),
                old(self).table().mask_spec(),
                old(self).table().generation_spec(),
                old(self).reductions(),
            ) == nm_moves(
                board@,
                depth as int,
                ply as int,
                alpha as int,
                beta as int,
                old(self).path@,
                old(self).null_marks@,
                self.search_state(),
                tt_move,
                old(self).table().mask_spec(),
                old(self).table().generation_spec(),
                old(self).reductions(),
            ));
        }
        if moves.len() == 0 {
            // Stalemate, or mate: a near mate beats a far one.
            return if board.checkers() == 0 {
                DRAW
            } else {
                -MATE + ply_i32
            };
        }
        let in_check = board.checkers() != 0;
        let original_alpha = alpha;
        let mut alpha = alpha;
        let ghost alpha0 = alpha as int;
        let mut best: i32 = -INFINITY;
        let mut best_move: Option<Move> = None;
        let mut quiets_seen: usize = 0;
        let mut index: usize = 0;
        let mut done = false;
        let ghost root_law = ply == 0 && depth == 1 && alpha0 == -INFINITY && beta == INFINITY
            && calm_tree(board@, MAX_PLY as nat);
        proof {
            if root_law {
                assert forall|m: Move| #[trigger]
                    spec_legal_moves(board@).contains(m) implies listed(moves@, m) by {
                    lemma_every_move_listed(
                        board@,
                        moves@,
                        self.killer_slots(),
                        self.history_scores(),
                        tt_move,
                        ply as int,
                        m,
                    );
                }
            }
        }
        let ghost st_moves = self.search_state();
        let ghost target = nm_fold(
            board@,
            moves@,
            0,
            depth as int,
            ply as int,
            alpha0,
            alpha0,
            beta as int,
            -INFINITY as int,
            None,
            0,
            in_check,
            old(self).path@,
            old(self).null_marks@,
            st_moves,
            old(self).table().mask_spec(),
            old(self).table().generation_spec(),
            old(self).reductions(),
        );
        while index < moves.len() && !done
            invariant
                self.wf(),
                !self.aborted,
                target == nm_value(
                    board@,
                    depth as int,
                    ply as int,
                    alpha0,
                    beta as int,
                    old(self).path@,
                    old(self).null_marks@,
                    old(self).search_state(),
                    old(self).table().mask_spec(),
                    old(self).table().generation_spec(),
                    old(self).reductions(),
                ),
                in_check == (spec_checkers(board@) != 0),
                target == (if done {
                    nm_close(
                        board@,
                        depth as int,
                        ply as int,
                        beta as int,
                        alpha0,
                        best as int,
                        best_move,
                        self.search_state(),
                        old(self).table().mask_spec(),
                        old(self).table().generation_spec(),
                    )
                } else {
                    nm_fold(
                        board@,
                        moves@,
                        index as int,
                        depth as int,
                        ply as int,
                        alpha0,
                        alpha as int,
                        beta as int,
                        best as int,
                        best_move,
                        quiets_seen as int,
                        in_check,
                        old(self).path@,
                        old(self).null_marks@,
                        self.search_state(),
                        old(self).table().mask_spec(),
                        old(self).table().generation_spec(),
                        old(self).reductions(),
                    )
                }),
                self.path@ == old(self).path@,
                self.null_marks@ == old(self).null_marks@,
                self.threads == old(self).threads,
                self.stop == old(self).stop,
                self.pondering == old(self).pondering,
                self.started == old(self).started,
                self.soft_deadline == old(self).soft_deadline,
                self.completed == old(self).completed,
                self.nodes >= old(self).nodes,
                self.nodes >= 1,
                ply > 0 ==> self.root_best == old(self).root_best,
                ply == 0 ==> self.root_ok(board@),
                ply < MAX_PLY,
                1 <= depth <= MAX_DEPTH,
                window_bound(beta as int),
                window_bound(alpha0),
                alpha0 < beta,
                index <= moves@.len(),
                moves@.len() > 0,
                forall|i: int|
                    0 <= i < moves@.len() ==> spec_legal_moves(board@).contains(
                        #[trigger] moves@[i].0,
                    ) && moves@[i].0.wf() && spec_is_legal(board@, moves@[i].0),
                alpha as int == (if best > alpha0 {
                    best as int
                } else {
                    alpha0
                }),
                !done ==> alpha < beta,
                best == -INFINITY || result_ok(best as int, alpha0, beta as int),
                (index > 0 || done) ==> best != -INFINITY,
                best_move matches Some(m) ==> m.wf(),
                ply == 0 && (index > 0 || done) ==> self.root_best is Some,
                index == 0 && !done ==> best == -INFINITY,
                quiets_seen <= index,
                key == spec_hash(board@),
                ply_i32 == ply,
                original_alpha == alpha0,
                !(ply > 0 && rule_draw_spec(old(self).path_keys(), old(self).null_move_marks(), board@)),
                root_law == (ply == 0 && depth == 1 && alpha0 == -INFINITY && beta == INFINITY
                    && calm_tree(board@, MAX_PLY as nat)),
                self.table().mask_spec() == old(self).table().mask_spec(),
                self.table().generation_spec() == old(self).table().generation_spec(),
                self.lmr@ == old(self).lmr@,
                self.reports == old(self).reports,
                self.last_score == old(self).last_score,
                !(old(self).node_budget() matches Some(limit) && old(self).node_count() >= limit),
                root_law ==> forall|m: Move| #[trigger]
                    spec_legal_moves(board@).contains(m) ==> listed(moves@, m),
                root_law ==> !done,
                root_law ==> (best == -INFINITY || best <= MATE - 1),
                root_law && best == MATE - 1 ==> (self.root_best matches Some(m) && mates_at_once(
                    old(self).path@,
                    old(self).null_marks@,
                    board@,
                    m,
                )),
                root_law ==> forall|i: int|
                    0 <= i < index && mates_at_once(
                        old(self).path@,
                        old(self).null_marks@,
                        board@,
                        #[trigger] moves@[i].0,
                    ) ==> best == MATE - 1,
            decreases moves@.len() - index, (if done {
                0int
            } else {
                1int
            }),
        {
            let mv = moves[index].0;
            let quiet = captured_piece(board, mv).is_none() && mv.promotion.is_none();
            if self.late_move_prune(quiet, in_check, ply, depth, best, quiets_seen) {
                // The ordering puts every capture before every quiet move, so
                // what remains is quiet and ranked lower still.
                done = true;
            } else {
                if quiet {
                    quiets_seen = quiets_seen + 1;
                }
                proof {
                    assert(spec_is_legal(board@, moves@[index as int].0));
                }
                let child = board.play(mv);
                proof {
                    if root_law {
                        lemma_calm_child(board@, MAX_PLY as nat, mv);
                    }
                }
                let ghost alpha_before = alpha;
                let ghost best_before = best;
                // Late move reduction: quiet, not in or into check, deep
                // enough, and late in the ordering.
                let reduction: i32 = if quiet && !in_check && child.checkers() == 0 && depth
                    >= LMR_MIN_DEPTH && index >= LMR_FIRST_REDUCED {
                    let raw = self.reduction(depth, index);
                    let capped = if raw < depth - 2 {
                        raw
                    } else {
                        depth - 2
                    };
                    if capped < 0 {
                        0
                    } else {
                        capped
                    }
                } else {
                    0
                };
                self.path.push(child.hash());
                let first = self.negamax(&child, depth - 1 - reduction, ply + 1, -beta, -alpha);
                let mut score = -first;
                // The reduction lied: this move deserves the full depth.
                if reduction > 0 && !self.aborted && score > alpha {
                    let again = self.negamax(&child, depth - 1, ply + 1, -beta, -alpha);
                    score = -again;
                }
                self.path.pop();
                if self.aborted {
                    return 0;
                }
                proof {
                    if root_law {
                        assert(reduction == 0);
                        assert(score <= MATE - 3 || score <= alpha || (score == MATE - 1
                            && checkmated(child@)));
                        if score == MATE - 1 && score > alpha {
                            assert(mates_at_once(old(self).path@, old(self).null_marks@, board@, mv));
                        }
                        if mates_at_once(old(self).path@, old(self).null_marks@, board@, mv) {
                            assert(score == MATE - 1);
                        }
                    }
                }
                if score > best {
                    best = score;
                    best_move = Some(mv);
                    if ply == 0 {
                        self.root_best = Some(mv);
                    }
                    if score > alpha {
                        alpha = score;
                        self.pv.push(ply, mv);
                        if alpha >= beta {
                            // A quiet move refuting a line often refutes
                            // others: remember it.
                            if quiet {
                                self.remember_quiet(mv, ply, depth);
                            }
                            done = true;
                        }
                    }
                }
                index = index + 1;
            }
        }
        // The bound says what the score guarantees: a lower bound after a
        // cut-off, exact if alpha was raised, an upper bound otherwise.
        let bound = if best >= beta {
            Bound::Lower
        } else if best > original_alpha {
            Bound::Exact
        } else {
            Bound::Upper
        };
        self.tt.store(key, best_move, best, depth, bound, ply_i32);
        best
    }

    /// Quiescence: searches captures and promotions until the position is
    /// quiet — every move when in check, since ignoring the defences would
    /// call a lost position quiet. Standing pat is an option outside check.
    /// Unless the search is stopped, the score is `q_value`'s.
    fn quiescence(&mut self, board: &Chessboard, alpha: i32, beta: i32, ply: usize) -> (r: i32)
        requires
            old(self).wf(),
            !old(self).aborted,
            ply <= MAX_PLY,
            window_bound(alpha as int),
            window_bound(beta as int),
            alpha < beta,
        ensures
            final(self).wf(),
            result_ok(r as int, alpha as int, beta as int),
            final(self).aborted ==> r == 0,
            final(self).path@ == old(self).path@,
            final(self).null_marks@ == old(self).null_marks@,
            final(self).threads == old(self).threads,
            final(self).stop == old(self).stop,
            final(self).pondering == old(self).pondering,
            final(self).started == old(self).started,
            final(self).soft_deadline == old(self).soft_deadline,
            final(self).completed == old(self).completed,
            final(self).node_count() >= old(self).node_count(),
            final(self).node_count() >= 1,
            final(self).root_best == old(self).root_best,
            !final(self).aborted && ply >= MAX_PLY - 1 ==> r == evaluate_spec(board@),
            !final(self).aborted && spec_checkers(board@) == 0 ==> r >= evaluate_spec(board@),
            !final(self).aborted && spec_checkers(board@) == 0 && evaluate_spec(board@) >= beta
                ==> r == evaluate_spec(board@),
            !final(self).aborted && ply < MAX_PLY - 1 && spec_checkers(board@) != 0
                && spec_legal_moves(board@).len() == 0 ==> r == -MATE + ply,
            calm_tree(board@, (MAX_PLY - ply) as nat) ==> (r >= -MATE + ply + 2 || r >= beta || (r
                == -MATE + ply && checkmated(board@))),
            calm_tree(board@, (MAX_PLY - ply) as nat) ==> (r <= MATE - ply - 1 || r <= alpha),
            (old(self).node_budget() matches Some(limit) && old(self).node_count() >= limit)
                ==> final(self).aborted && r == 0 && final(self).node_count() == one_more(
                old(self).node_count(),
            ),
            final(self).killer_slots() == old(self).killer_slots(),
            final(self).history_scores() == old(self).history_scores(),
            final(self).table() == old(self).table(),
            final(self).lmr@ == old(self).lmr@,
            final(self).reports == old(self).reports,
            final(self).last_score == old(self).last_score,
            !final(self).aborted ==> r == q_value(
                board@,
                alpha as int,
                beta as int,
                ply as int,
                old(self).killer_slots(),
                old(self).history_scores(),
            ),
        decreases 0int, 0int, MAX_PLY - ply,
    {
        let ghost calm = calm_tree(board@, (MAX_PLY - ply) as nat);
        proof {
            if calm {
                lemma_calm_here(board@, (MAX_PLY - ply) as nat);
            }
        }
        self.pv.clear(ply);
        self.count_node();
        if self.should_abort() {
            return 0;
        }
        if ply >= MAX_PLY - 1 {
            return evaluate(board);
        }
        let in_check = board.checkers() != 0;
        let mut stand_pat: i32 = -INFINITY;
        let mut alpha = alpha;
        let ghost original = alpha as int;
        if !in_check {
            stand_pat = evaluate(board);
            if stand_pat >= beta {
                return stand_pat;
            }
            if stand_pat > alpha {
                alpha = stand_pat;
            }
        }
        let ghost alpha0 = alpha as int;
        let moves = self.ordered_moves(board, !in_check, None, ply);
        if moves.len() == 0 {
            return if in_check {
                -MATE + ply as i32
            } else {
                alpha
            };
        }
        let mut best: i32 = if in_check {
            -INFINITY
        } else {
            alpha
        };
        let mut index: usize = 0;
        let mut done = false;
        let ghost killers = old(self).killer_slots();
        let ghost history = old(self).history_scores();
        let ghost target = q_fold(
            board@,
            moves@,
            0,
            in_check,
            stand_pat as int,
            alpha as int,
            beta as int,
            best as int,
            ply as int,
            killers,
            history,
        );
        while index < moves.len() && !done
            invariant
                self.wf(),
                !self.aborted,
                self.killers@ == killers,
                self.history@ == history,
                killers == old(self).killer_slots(),
                history == old(self).history_scores(),
                self.tt == old(self).tt,
                self.lmr@ == old(self).lmr@,
                self.reports == old(self).reports,
                self.last_score == old(self).last_score,
                moves@ == ordered_spec(board@, killers, history, !in_check, None, ply as int),
                target == (if done {
                    best as int
                } else {
                    q_fold(
                        board@,
                        moves@,
                        index as int,
                        in_check,
                        stand_pat as int,
                        alpha as int,
                        beta as int,
                        best as int,
                        ply as int,
                        killers,
                        history,
                    )
                }),
                self.path@ == old(self).path@,
                self.null_marks@ == old(self).null_marks@,
                self.threads == old(self).threads,
                self.stop == old(self).stop,
                self.pondering == old(self).pondering,
                self.started == old(self).started,
                self.soft_deadline == old(self).soft_deadline,
                self.completed == old(self).completed,
                self.nodes >= old(self).nodes,
                self.nodes >= 1,
                self.root_best == old(self).root_best,
                ply < MAX_PLY - 1,
                window_bound(beta as int),
                window_bound(original),
                original < beta,
                in_check ==> alpha0 == original && stand_pat == -INFINITY,
                !in_check ==> result_ok(alpha0, original, beta as int) && in_range(stand_pat as int)
                    && alpha0 >= stand_pat,
                alpha0 < beta,
                index <= moves@.len(),
                moves@.len() > 0,
                forall|i: int|
                    0 <= i < moves@.len() ==> spec_legal_moves(board@).contains(
                        #[trigger] moves@[i].0,
                    ) && moves@[i].0.wf() && spec_is_legal(board@, moves@[i].0),
                alpha as int == (if best > alpha0 {
                    best as int
                } else {
                    alpha0
                }),
                !done ==> alpha < beta,
                best == -INFINITY || result_ok(best as int, original, beta as int),
                !in_check ==> best >= alpha0,
                (!in_check || index > 0 || done) ==> best != -INFINITY,
                calm == calm_tree(board@, (MAX_PLY - ply) as nat),
                !(old(self).node_budget() matches Some(limit) && old(self).node_count() >= limit),
                calm ==> (best == -INFINITY || best <= MATE - ply - 1 || best <= original),
                calm ==> (alpha <= MATE - ply - 1 || alpha <= original),
                calm && in_check && best != -INFINITY ==> (best >= -MATE + ply + 2 || best >= beta),
            decreases moves@.len() - index, (if done {
                0int
            } else {
                1int
            }),
        {
            let mv = moves[index].0;
            // Skip, not stop: the ordering mixes victim, attacker and
            // promotion, so a prunable capture may precede one that is not.
            if !self.delta_prunable(board, mv, in_check, stand_pat, alpha) && !see_prunable(
                board,
                mv,
                in_check,
            ) {
                proof {
                    assert(spec_is_legal(board@, moves@[index as int].0));
                }
                let child = board.play(mv);
                proof {
                    if calm {
                        lemma_calm_child(board@, (MAX_PLY - ply) as nat, mv);
                    }
                }
                let reply = self.quiescence(&child, -beta, -alpha, ply + 1);
                if self.aborted {
                    return 0;
                }
                let score = -reply;
                if score > best {
                    best = score;
                    if score > alpha {
                        alpha = score;
                        self.pv.push(ply, mv);
                        if alpha >= beta {
                            done = true;
                        }
                    }
                }
            }
            index = index + 1;
        }
        best
    }
}



impl Search {
    /// Sets the deadlines from the clocks: past the hard one the search stops
    /// mid-iteration; past the soft one — half the budget — no iteration
    /// starts, since one begun with more than half the budget spent is
    /// nearly always thrown away.
    /// Sets the deadlines from the clock of `side`: none without a budget;
    /// else the hard one a budget after now, the soft one half a budget
    /// after now, both in milliseconds after the start and saturated. The
    /// soft deadline comes first.
    pub fn set_deadlines(&mut self, limits: &Limits, side: Color)
        requires
            old(self).wf(),
            budget_in_range(*limits, side),
        ensures
            final(self).wf(),
            final(self).same_but_deadlines(old(self)),
            time_budget_spec(*limits, side) is None ==> final(self).hard_limit() is None
                && final(self).soft_limit() is None,
            time_budget_spec(*limits, side) is Some ==> (final(self).hard_limit() matches Some(h)
                && final(self).soft_limit() matches Some(soft) && soft <= h && (h < u64::MAX
                ==> soft < h)),
    {
        match time_budget_ms(limits, side) {
            None => {
                self.hard_deadline = None;
                self.soft_deadline = None;
            },
            Some(budget) => {
                let elapsed = millis_since(&self.started);
                self.hard_deadline = Some(
                    if budget > u64::MAX - elapsed {
                        u64::MAX
                    } else {
                        elapsed + budget
                    },
                );
                self.soft_deadline = Some(
                    if budget / 2 > u64::MAX - elapsed {
                        u64::MAX
                    } else {
                        elapsed + budget / 2
                    },
                );
            },
        }
    }

    /// Searches the root at a depth, betting on the stability of the score:
    /// a narrow window centred on the previous score cuts sooner, and when
    /// the bet fails the window widens geometrically until it is full. No
    /// bet at the first depths nor around a mate score.
    pub fn search_root(&mut self, board: &Chessboard, depth: i32, iteration: u32, previous: i32) -> (r:
        i32)
        requires
            old(self).wf(),
            !old(self).is_aborted(),
            1 <= depth <= MAX_DEPTH,
            -WINDOW_BOUND <= previous <= WINDOW_BOUND,
            old(self).root_ok(board@),
        ensures
            final(self).wf(),
            -WINDOW_BOUND <= r <= WINDOW_BOUND,
            final(self).frame() == old(self).frame(),
            final(self).completed_move() == old(self).completed_move(),
            final(self).node_count() >= old(self).node_count(),
            final(self).node_count() >= 1,
            final(self).root_ok(board@),
            !final(self).is_aborted() && spec_legal_moves(board@).len() > 0 ==> (final(self).root_move() is Some),
            !final(self).is_aborted() && spec_legal_moves(board@).len() == 0 ==> r == (if spec_checkers(board@) == 0 {
                0
            } else {
                -MATE
            }),
            iteration <= ASPIRATION_MIN_DEPTH && depth == 1 && !final(self).is_aborted() && calm_tree(
                board@,
                MAX_PLY as nat,
            ) && (exists|m: Move|
                mates_at_once(old(self).path_keys(), old(self).null_move_marks(), board@, m))
                ==> r == MATE - 1 && (final(self).root_move() matches Some(m) && mates_at_once(
                old(self).path_keys(),
                old(self).null_move_marks(),
                board@,
                m,
            )),
            final(self).table().mask_spec() == old(self).table().mask_spec(),
            final(self).table().generation_spec() == old(self).table().generation_spec(),
            final(self).reductions() == old(self).reductions(),
            !final(self).is_aborted() ==> ({
                let o = root_value(
                    board@,
                    depth as int,
                    iteration as int,
                    previous as int,
                    old(self).path_keys(),
                    old(self).null_move_marks(),
                    old(self).search_state(),
                    old(self).table().mask_spec(),
                    old(self).table().generation_spec(),
                    old(self).reductions(),
                );
                &&& r == o.0
                &&& final(self).search_state() == o.1
            }),
    {
        let ghost target = root_value(
            board@,
            depth as int,
            iteration as int,
            previous as int,
            old(self).path_keys(),
            old(self).null_move_marks(),
            old(self).search_state(),
            old(self).table().mask_spec(),
            old(self).table().generation_spec(),
            old(self).reductions(),
        );
        if iteration <= ASPIRATION_MIN_DEPTH || previous > MATE_THRESHOLD || previous
            < -MATE_THRESHOLD {
            return self.negamax(board, depth, 0, -INFINITY, INFINITY);
        }
        let mut delta: i32 = ASPIRATION_DELTA;
        let mut alpha: i32 = previous - delta;
        let mut beta: i32 = previous + delta;
        loop
            invariant
                self.wf(),
                !self.aborted,
                1 <= depth <= MAX_DEPTH,
                self.path@ == old(self).path@,
                self.null_marks@ == old(self).null_marks@,
                self.threads == old(self).threads,
                self.stop == old(self).stop,
                self.pondering == old(self).pondering,
                self.started == old(self).started,
                self.soft_deadline == old(self).soft_deadline,
                self.completed == old(self).completed,
                self.nodes >= old(self).nodes,
                self.root_ok(board@),
                ASPIRATION_DELTA <= delta <= MATE_THRESHOLD,
                iteration > ASPIRATION_MIN_DEPTH,
                self.reports == old(self).reports,
                self.last_score == old(self).last_score,
                self.table().mask_spec() == old(self).table().mask_spec(),
                self.table().generation_spec() == old(self).table().generation_spec(),
                self.lmr@ == old(self).lmr@,
                target == root_value(
                    board@,
                    depth as int,
                    iteration as int,
                    previous as int,
                    old(self).path_keys(),
                    old(self).null_move_marks(),
                    old(self).search_state(),
                    old(self).table().mask_spec(),
                    old(self).table().generation_spec(),
                    old(self).reductions(),
                ),
                target == aspiration_value(
                    board@,
                    depth as int,
                    alpha as int,
                    beta as int,
                    delta as int,
                    old(self).path_keys(),
                    old(self).null_move_marks(),
                    self.search_state(),
                    old(self).table().mask_spec(),
                    old(self).table().generation_spec(),
                    old(self).reductions(),
                ),
                -(SCORE_BOUND + 4 * delta) <= alpha < beta <= SCORE_BOUND + 4 * delta,
            decreases MATE_THRESHOLD - delta,
        {
            let score = self.negamax(board, depth, 0, alpha, beta);
            if self.aborted {
                return score;
            }
            if score <= alpha {
                // Failed low: lower the floor, and bring the ceiling back to
                // the middle rather than widen on both sides.
                beta = ((alpha as i64 + beta as i64) / 2) as i32;
                alpha = score - delta;
            } else if score >= beta {
                beta = score + delta;
            } else {
                return score;
            }
            delta = delta + delta / 2;
            if delta > MATE_THRESHOLD {
                return self.negamax(board, depth, 0, -INFINITY, INFINITY);
            }
        }
    }

    /// Iterative deepening: returns the move of the last COMPLETED iteration,
    /// reporting each one. An interrupted iteration explored its moves out of
    /// order, so its result does not replace the previous one; a mate found
    /// does not improve with depth; past the soft deadline, unless
    /// pondering, no iteration starts.
    fn iterate<F: FnMut(&Info)>(&mut self, board: &Chessboard, max_depth: u32, report: F) -> (r:
        Option<Move>)
        requires
            old(self).wf(),
            !old(self).aborted,
            1 <= max_depth <= MAX_DEPTH,
            old(self).root_ok(board@),
            spec_legal_moves(board@).len() == 0 ==> old(self).root_best is None,
            forall|i: &Info| call_requires(report, (i,)),
        ensures
            final(self).wf(),
            final(self).threads == old(self).threads,
            r matches Some(m) ==> spec_is_legal(board@, m) && m.wf(),
            !final(self).is_aborted() && spec_legal_moves(board@).len() > 0 ==> r is Some && r
                == final(self).root_move(),
            r == final(self).completed_move(),
            final(self).node_count() >= 1,
            calm_tree(board@, MAX_PLY as nat) && (exists|m: Move|
                mates_at_once(old(self).path_keys(), old(self).null_move_marks(), board@, m)) ==> (r
                matches Some(m) ==> mates_at_once(
                old(self).path_keys(),
                old(self).null_move_marks(),
                board@,
                m,
            ) && final(self).last_result() == Some(Score::Mate(1))),
            final(self).table().mask_spec() == old(self).table().mask_spec(),
            final(self).table().generation_spec() == old(self).table().generation_spec(),
            final(self).reductions() == old(self).reductions(),
            ({
                let d = deepening(
                    board@,
                    final(self).reported_scores().len(),
                    old(self).path_keys(),
                    old(self).null_move_marks(),
                    old(self).search_state(),
                    old(self).table().mask_spec(),
                    old(self).table().generation_spec(),
                    old(self).reductions(),
                );
                &&& final(self).reported_scores().len() <= max_depth
                &&& final(self).reported_scores() == d.0.map_values(|x: int| score_spec(x))
                &&& forall|i: int|
                    0 <= i < d.0.len() - 1 ==> -MATE_THRESHOLD <= #[trigger] d.0[i] <= MATE_THRESHOLD
                &&& d.0.len() > 0 ==> r == d.1.last() && final(self).last_result() == Some(
                    score_spec(d.0.last()),
                )
                &&& d.0.len() == 0 ==> r is None
                &&& d.0.len() > 0 ==> r is Some
                &&& !final(self).is_aborted() && old(self).soft_limit() is None && spec_legal_moves(
                    board@,
                ).len() > 0 ==> d.0.len() == max_depth || (d.0.len() > 0 && (d.0.last()
                    > MATE_THRESHOLD || d.0.last() < -MATE_THRESHOLD))
            }),
    {
        let ghost mate_law = calm_tree(board@, MAX_PLY as nat) && (exists|m: Move|
            mates_at_once(old(self).path_keys(), old(self).null_move_marks(), board@, m));
        let mut report = report;
        let mut best: Option<Move> = None;
        self.completed = Ghost(None);
        self.reports = Ghost(Seq::empty());
        proof {
            assert(Seq::<int>::empty().map_values(|x: int| score_spec(x)) =~= Seq::<Score>::empty());
            lemma_deepening_len(
                board@,
                0,
                old(self).path_keys(),
                old(self).null_move_marks(),
                old(self).search_state(),
                old(self).table().mask_spec(),
                old(self).table().generation_spec(),
                old(self).reductions(),
            );
        }
        let mut previous: i32 = DRAW;
        let mut depth: u32 = 1;
        while depth <= max_depth
            invariant_except_break
                !self.aborted,
                depth > 1 ==> best is Some && best == self.root_best,
                mate_law ==> depth == 1 && best is None,
                self.reports@.len() == depth - 1,
                self.search_state() == deepening(
                    board@,
                    (depth - 1) as nat,
                    old(self).path_keys(),
                    old(self).null_move_marks(),
                    old(self).search_state(),
                    old(self).table().mask_spec(),
                    old(self).table().generation_spec(),
                    old(self).reductions(),
                ).2,
                previous == (if depth == 1 {
                    DRAW as int
                } else {
                    deepening(
                    board@,
                    (depth - 1) as nat,
                    old(self).path_keys(),
                    old(self).null_move_marks(),
                    old(self).search_state(),
                    old(self).table().mask_spec(),
                    old(self).table().generation_spec(),
                    old(self).reductions(),
                ).0.last()
                }),
                self.reports@.len() > 0 ==> -MATE_THRESHOLD <= deepening(
                    board@,
                    self.reports@.len(),
                    old(self).path_keys(),
                    old(self).null_move_marks(),
                    old(self).search_state(),
                    old(self).table().mask_spec(),
                    old(self).table().generation_spec(),
                    old(self).reductions(),
                ).0.last()
                    <= MATE_THRESHOLD,
                self.soft_deadline == old(self).soft_deadline,
            invariant
                self.table().mask_spec() == old(self).table().mask_spec(),
                self.table().generation_spec() == old(self).table().generation_spec(),
                self.lmr@ == old(self).lmr@,
                self.reports@.len() <= depth,
                self.reports@.len() <= max_depth,
                self.reports@ == deepening(
                    board@,
                    self.reports@.len(),
                    old(self).path_keys(),
                    old(self).null_move_marks(),
                    old(self).search_state(),
                    old(self).table().mask_spec(),
                    old(self).table().generation_spec(),
                    old(self).reductions(),
                ).0.map_values(|x: int| score_spec(x)),
                forall|i: int|
                    0 <= i < self.reports@.len() - 1 ==> -MATE_THRESHOLD <= #[trigger] deepening(
                    board@,
                    self.reports@.len(),
                    old(self).path_keys(),
                    old(self).null_move_marks(),
                    old(self).search_state(),
                    old(self).table().mask_spec(),
                    old(self).table().generation_spec(),
                    old(self).reductions(),
                ).0[i]
                        <= MATE_THRESHOLD,
                self.reports@.len() > 0 ==> best == deepening(
                    board@,
                    self.reports@.len(),
                    old(self).path_keys(),
                    old(self).null_move_marks(),
                    old(self).search_state(),
                    old(self).table().mask_spec(),
                    old(self).table().generation_spec(),
                    old(self).reductions(),
                ).1.last()
                    && self.last_score == Some(score_spec(deepening(
                    board@,
                    self.reports@.len(),
                    old(self).path_keys(),
                    old(self).null_move_marks(),
                    old(self).search_state(),
                    old(self).table().mask_spec(),
                    old(self).table().generation_spec(),
                    old(self).reductions(),
                ).0.last())),
                self.reports@.len() == 0 ==> best is None,
                self.reports@.len() > 0 ==> best is Some,
                best == self.completed@,
                depth > 1 ==> self.nodes >= 1,
                self.wf(),
                1 <= depth,
                1 <= max_depth <= MAX_DEPTH,
                self.threads == old(self).threads,
                self.root_ok(board@),
                best matches Some(m) ==> spec_is_legal(board@, m) && m.wf(),
                -WINDOW_BOUND <= previous <= WINDOW_BOUND,
                forall|i: &Info| call_requires(report, (i,)),
                self.path@ == old(self).path@,
                self.null_marks@ == old(self).null_marks@,
                mate_law == (calm_tree(board@, MAX_PLY as nat) && (exists|m: Move|
                    mates_at_once(old(self).path_keys(), old(self).null_move_marks(), board@, m))),
            ensures
                !self.aborted && spec_legal_moves(board@).len() > 0 ==> best is Some && best
                    == self.root_best,
                self.nodes >= 1,
                mate_law ==> (best matches Some(m) ==> mates_at_once(
                    old(self).path@,
                    old(self).null_marks@,
                    board@,
                    m,
                ) && self.last_score == Some(Score::Mate(1))),
                !self.aborted && old(self).soft_limit() is None && spec_legal_moves(board@).len()
                    > 0 ==> self.reports@.len() == max_depth || (self.reports@.len() > 0 && (deepening(
                    board@,
                    self.reports@.len(),
                    old(self).path_keys(),
                    old(self).null_move_marks(),
                    old(self).search_state(),
                    old(self).table().mask_spec(),
                    old(self).table().generation_spec(),
                    old(self).reductions(),
                ).0.last()
                    > MATE_THRESHOLD || deepening(
                    board@,
                    self.reports@.len(),
                    old(self).path_keys(),
                    old(self).null_move_marks(),
                    old(self).search_state(),
                    old(self).table().mask_spec(),
                    old(self).table().generation_spec(),
                    old(self).reductions(),
                ).0.last() < -MATE_THRESHOLD)),
            decreases max_depth + 1 - depth,
        {
            let score = self.search_root(board, depth as i32, depth, previous);
            if self.aborted {
                break ;
            }
            let mv = match self.root_best {
                Some(m) => m,
                None => {
                    break ;
                },
            };
            best = Some(mv);
            self.completed = Ghost(Some(mv));
            previous = score;
            self.last_pv = self.pv.line();
            let reported = Score::from_internal(score);
            proof {
                let before = deepening(
                    board@,
                    (depth - 1) as nat,
                    old(self).path_keys(),
                    old(self).null_move_marks(),
                    old(self).search_state(),
                    old(self).table().mask_spec(),
                    old(self).table().generation_spec(),
                    old(self).reductions(),
                );
                let now = deepening(
                    board@,
                    depth as nat,
                    old(self).path_keys(),
                    old(self).null_move_marks(),
                    old(self).search_state(),
                    old(self).table().mask_spec(),
                    old(self).table().generation_spec(),
                    old(self).reductions(),
                );
                lemma_deepening_len(
                    board@,
                    depth as nat,
                    old(self).path_keys(),
                    old(self).null_move_marks(),
                    old(self).search_state(),
                    old(self).table().mask_spec(),
                    old(self).table().generation_spec(),
                    old(self).reductions(),
                );
                assert(now.0 == before.0.push(score as int));
                assert(now.0.map_values(|x: int| score_spec(x)) =~= before.0.map_values(
                    |x: int| score_spec(x),
                ).push(reported));
                self.reports = Ghost(self.reports@.push(reported));
            }
            proof {
                if score == MATE - 1 {
                    assert(tdiv(MATE - (MATE - 1) + 1, 2) == 1);
                    assert(reported == Score::Mate(1));
                }
            }
            self.last_score = Some(reported);
            let info = Info {
                depth,
                score: reported,
                nodes: self.nodes,
                time_ms: millis_since(&self.started),
                pv: self.pv.line(),
                hashfull: self.tt.permille_used(),
            };
            report(&info);
            if score > MATE_THRESHOLD || score < -MATE_THRESHOLD {
                break ;
            }
            let late = !self.is_pondering() && match self.soft_deadline {
                Some(at) => millis_since(&self.started) >= at,
                None => false,
            };
            if late {
                break ;
            }
            depth = depth + 1;
        }
        best
    }

    /// Searches the best move of the position, reporting each completed
    /// iteration. `None` only if the position has no legal move, in which
    /// case the UCI layer answers `bestmove 0000`: if even the first
    /// iteration was interrupted, the first legal move is played rather than
    /// nothing. A mate in one is found by the first iteration and ends the
    /// search: the move played mates and the score reads `mate 1`, whenever
    /// no position within reach evaluates beyond the mate threshold. The
    /// scores reported and the move played are those of `deepening` from
    /// the table as found, with fresh killers and history; without a clock
    /// and unless stopped, the iterations run to the depth limit or to the
    /// first mate score.
    pub fn go<F: FnMut(&Info)>(&mut self, position: &Position, limits: &Limits, report: F) -> (r:
        Option<Move>)
        requires
            old(self).wf(),
            position.wf(),
            budget_in_range(*limits, position.board_spec()@.side),
            forall|i: &Info| call_requires(report, (i,)),
        ensures
            final(self).wf(),
            final(self).thread_count() == old(self).thread_count(),
            r is Some <==> spec_legal_moves(position.board_spec()@).len() > 0,
            r matches Some(m) ==> spec_is_legal(position.board_spec()@, m) && m.wf(),
            final(self).node_count() >= 1,
            r == (if final(self).completed_move() is Some {
                final(self).completed_move()
            } else if spec_legal_moves(position.board_spec()@).len() > 0 {
                Some(spec_legal_moves(position.board_spec()@)[0])
            } else {
                None
            }),
            !final(self).is_aborted() && calm_tree(position.board_spec()@, MAX_PLY as nat) && (exists|
                m: Move,
            | mates_at_once(position.history_spec(), Seq::empty(), position.board_spec()@, m)) ==> (r
                matches Some(m) && mates_at_once(
                position.history_spec(),
                Seq::empty(),
                position.board_spec()@,
                m,
            )) && final(self).last_result() == Some(Score::Mate(1)),
            ({
                let d = deepening(
                    position.board_spec()@,
                    final(self).reported_scores().len(),
                    position.history_spec(),
                    Seq::empty(),
                    (
                        old(self).table().slots(),
                        Seq::new(MAX_PLY as nat, |k: int| [0u16, 0u16]),
                        Seq::new(4096, |k: int| 0i32),
                        None,
                    ),
                    old(self).table().mask_spec(),
                    next_generation(old(self).table().generation_spec()),
                    old(self).reductions(),
                );
                &&& final(self).reported_scores().len() <= depth_limit(*limits)
                &&& final(self).reported_scores() == d.0.map_values(|x: int| score_spec(x))
                &&& forall|i: int|
                    0 <= i < d.0.len() - 1 ==> -MATE_THRESHOLD <= #[trigger] d.0[i] <= MATE_THRESHOLD
                &&& d.0.len() > 0 ==> r == d.1.last() && final(self).last_result() == Some(
                    score_spec(d.0.last()),
                )
                &&& !final(self).is_aborted() && time_budget_spec(*limits, position.board_spec()@.side)
                    is None && spec_legal_moves(position.board_spec()@).len() > 0 ==> d.0.len()
                    == depth_limit(*limits) || (d.0.len() > 0 && (d.0.last() > MATE_THRESHOLD
                    || d.0.last() < -MATE_THRESHOLD))
            }),
    {
        self.started = now();
        self.nodes = 0;
        self.aborted = false;
        self.root_best = None;
        self.last_pv = Vec::new();
        self.last_score = None;
        self.path = slice_to_vec(position.history());
        self.null_marks = Vec::new();
        self.tt.new_search();
        // Killers hold for one ply of one search: keeping them from a move to
        // the next would propose unrelated moves.
        self.forget_ordering();
        self.node_limit = limits.nodes;
        let board = position.board();
        self.set_deadlines(limits, board.side_to_move());
        let max_depth: u32 = match limits.depth {
            Some(d) => if d < 1 {
                1
            } else if d > MAX_DEPTH {
                MAX_DEPTH
            } else {
                d
            },
            None => MAX_DEPTH,
        };
        let best = self.iterate(board, max_depth, report);
        let fallback = first_legal_move(board);
        match best {
            Some(m) => Some(m),
            None => fallback,
        }
    }
}


} // verus!
