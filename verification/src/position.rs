//! A game position: the board, plus the history the board does not keep.
//!
//! The board holds about as much as a FEN and no history. Repetition
//! detection needs one, so it lives here.
use vstd::prelude::*;

use crate::board::{spec_hash, spec_is_legal, spec_parse_fen, spec_parse_uci, spec_play, Chessboard};
use crate::types::Move;

verus! {

/// The number of earlier occurrences of `hash` in a history whose last key is
/// the current position: the keys `2, 4, 6, ...` steps back from the end,
/// while fewer than `bound` steps back.
pub open spec fn reps_from(history: Seq<u64>, hash: u64, bound: int, k: int) -> int
    decreases bound + 2 - k,
{
    if k >= bound || k < 0 {
        0
    } else {
        (if history[history.len() - 1 - k] == hash {
            1int
        } else {
            0int
        }) + reps_from(history, hash, bound, k + 2)
    }
}

/// The window a repetition is looked for in: the half-move clock plus one
/// keys, no more than the history holds.
pub open spec fn rep_bound(len: int, halfmove_clock: int) -> int {
    if halfmove_clock + 1 < len {
        halfmove_clock + 1
    } else {
        len
    }
}

/// Earlier occurrences of `hash` at the same side to move, back to the last
/// irreversible move.
pub open spec fn repetitions_spec(history: Seq<u64>, hash: u64, halfmove_clock: int) -> int {
    reps_from(history, hash, rep_bound(history.len() as int, halfmove_clock), 2)
}

proof fn lemma_reps_bounds(history: Seq<u64>, hash: u64, bound: int, k: int)
    requires
        k >= 0,
    ensures
        0 <= reps_from(history, hash, bound, k),
        reps_from(history, hash, bound, k) <= if bound > k {
            bound - k
        } else {
            0
        },
    decreases bound + 2 - k,
{
    if k < bound {
        lemma_reps_bounds(history, hash, bound, k + 2);
    }
}

/// Counts the earlier occurrences of `hash` in a history of Zobrist keys whose
/// last element is the current position.
///
/// Only looks back to the last irreversible move — beyond it no repetition is
/// possible — and only at every other key, since only positions with the same
/// side to move can coincide; the current position and the one before it are
/// skipped.
pub fn repetitions(history: &[u64], hash: u64, halfmove_clock: u8) -> (r: usize)
    ensures
        r == repetitions_spec(history@, hash, halfmove_clock as int),
{
    let len = history.len();
    let bound: usize = if (halfmove_clock as usize) + 1 < len {
        (halfmove_clock as usize) + 1
    } else {
        len
    };
    let mut count: usize = 0;
    let mut k: usize = 2;
    proof {
        lemma_reps_bounds(history@, hash, bound as int, 2);
    }
    while k < bound
        invariant
            bound <= len,
            len == history@.len(),
            bound == rep_bound(len as int, halfmove_clock as int),
            k >= 2,
            count + reps_from(history@, hash, bound as int, k as int) == reps_from(
                history@,
                hash,
                bound as int,
                2,
            ),
            reps_from(history@, hash, bound as int, 2) <= bound,
            count <= k,
        decreases bound + 2 - k,
    {
        proof {
            lemma_reps_bounds(history@, hash, bound as int, k + 2);
        }
        if history[len - 1 - k] == hash {
            count = count + 1;
        }
        k = k + 2;
    }
    count
}

/// The current position of a game, with the keys traversed.
pub struct Position {
    board: Chessboard,
    /// Keys of every position since the root, the last being the board's.
    /// Never empty.
    history: Vec<u64>,
}

impl Position {
    /// The board.
    pub closed spec fn board_spec(&self) -> Chessboard {
        self.board
    }

    /// The keys traversed.
    pub closed spec fn history_spec(&self) -> Seq<u64> {
        self.history@
    }

    /// Never empty; the last key is the current board's; the board is valid.
    pub open spec fn wf(&self) -> bool {
        &&& self.history_spec().len() >= 1
        &&& self.history_spec().last() == spec_hash(self.board_spec()@)
        &&& self.board_spec()@.wf()
    }

    /// The starting position of chess.
    pub fn startpos() -> (r: Position)
        ensures
            r.wf(),
            r.board_spec()@ == crate::board::initial_state(),
            r.history_spec() == seq![spec_hash(crate::board::initial_state())],
    {
        Self::from_board(Chessboard::startpos())
    }

    /// A position from a board, without earlier history.
    pub fn from_board(board: Chessboard) -> (r: Position)
        ensures
            r.wf(),
            r.board_spec()@ == board@,
            r.history_spec() == seq![spec_hash(board@)],
    {
        proof {
            use_type_invariant(&board);
        }
        let key = board.hash();
        let mut history = Vec::new();
        history.push(key);
        Position { board, history }
    }

    /// Reads a FEN, standard or Shredder.
    ///
    /// The error is a readable message.
    pub fn from_fen(fen: &str) -> (r: Result<Position, String>)
        ensures
            r.is_ok() <==> spec_parse_fen(fen@).is_some(),
            r matches Ok(p) ==> p.wf() && Some(p.board_spec()@) == spec_parse_fen(fen@)
                && p.history_spec() == seq![spec_hash(p.board_spec()@)],
    {
        match Chessboard::from_fen(fen) {
            Ok(board) => Ok(Self::from_board(board)),
            Err(e) => {
                let mut message = String::from_str("FEN invalide : ");
                message.append(e.as_str());
                Err(message)
            },
        }
    }

    /// The current board.
    pub fn board(&self) -> (r: &Chessboard)
        ensures
            r == self.board_spec(),
    {
        &self.board
    }

    /// A copy of the position, board and history.
    pub fn duplicate(&self) -> (r: Position)
        ensures
            r.board_spec()@ == self.board_spec()@,
            r.history_spec() == self.history_spec(),
    {
        Position { board: self.board.duplicate(), history: vstd::slice::slice_to_vec(self.history.as_slice()) }
    }

    /// Plays a legal move.
    pub fn play(&mut self, mv: Move)
        requires
            old(self).wf(),
            mv.wf(),
            spec_is_legal(old(self).board_spec()@, mv),
        ensures
            final(self).wf(),
            final(self).board_spec()@ == spec_play(old(self).board_spec()@, mv),
            final(self).history_spec() == old(self).history_spec().push(
                spec_hash(spec_play(old(self).board_spec()@, mv)),
            ),
    {
        let next = self.board.play(mv);
        let key = next.hash();
        self.board = next;
        self.history.push(key);
    }

    /// Plays a move written in UCI notation (`e2e4`, `e7e8q`, `e1g1`),
    /// converting castling to the king-takes-rook form the board uses.
    ///
    /// A malformed or illegal move is refused with a readable message and
    /// leaves the position unchanged.
    pub fn play_uci(&mut self, token: &str) -> (r: Result<Move, String>)
        requires
            old(self).wf(),
        ensures
            final(self).wf(),
            match spec_parse_uci(old(self).board_spec()@, token@) {
                None => r.is_err() && *final(self) == *old(self),
                Some(m) => if m.wf() && spec_is_legal(old(self).board_spec()@, m) {
                    r == Ok::<Move, String>(m) && final(self).board_spec()@ == spec_play(
                        old(self).board_spec()@,
                        m,
                    ) && final(self).history_spec() == old(self).history_spec().push(
                        spec_hash(spec_play(old(self).board_spec()@, m)),
                    )
                } else {
                    r.is_err() && *final(self) == *old(self)
                },
            },
            r matches Err(e) ==> e@ == (if spec_parse_uci(old(self).board_spec()@, token@) is None {
                "coup illisible ou illégal : "@ + token@
            } else {
                "coup illégal : "@ + token@
            }),
    {
        let mv = match self.board.parse_uci(token) {
            Some(mv) => mv,
            None => {
                let mut message = String::from_str("coup illisible ou illégal : ");
                message.append(token);
                return Err(message);
            },
        };
        if !self.board.is_legal(mv) {
            let mut message = String::from_str("coup illégal : ");
            message.append(token);
            return Err(message);
        }
        self.play(mv);
        Ok(mv)
    }

    /// The keys traversed, the last being the board's.
    ///
    /// The search needs them to carry repetition detection into its own tree.
    pub fn history(&self) -> (r: &[u64])
        ensures
            r@ == self.history_spec(),
    {
        self.history.as_slice()
    }

    /// How many times the current position already occurred.
    pub fn repetition_count(&self) -> (r: usize)
        requires
            self.wf(),
        ensures
            r == repetitions_spec(
                self.history_spec(),
                spec_hash(self.board_spec()@),
                self.board_spec()@.halfmove_clock as int,
            ),
    {
        repetitions(self.history.as_slice(), self.board.hash(), self.board.halfmove_clock())
    }

    /// Whether the current position already occurred at least once — the
    /// criterion used inside the search; the game rule needs three
    /// occurrences, see [`Position::repetition_count`].
    pub fn is_repetition(&self) -> (r: bool)
        requires
            self.wf(),
        ensures
            r == (repetitions_spec(
                self.history_spec(),
                spec_hash(self.board_spec()@),
                self.board_spec()@.halfmove_clock as int,
            ) > 0),
    {
        self.repetition_count() > 0
    }

    /// Whether the fifty-move rule is reached.
    pub fn is_fifty_move_draw(&self) -> (r: bool)
        ensures
            r == (self.board_spec()@.halfmove_clock >= 100),
    {
        self.board.halfmove_clock() >= 100
    }
}

} // verus!
