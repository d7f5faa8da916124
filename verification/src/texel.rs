//! Quiet positions labelled with the result of the game they come from, to
//! tune the hand-written evaluation; and books of balanced openings, to
//! start matches from varied positions.
//!
//! Each game starts from a random opening and is played by the engine at a
//! fixed depth. A side keeping a decisive score for long enough resigns.
use vstd::prelude::*;

use crate::board::{
    initial_state, spec_checkers, spec_fen, spec_hash, spec_is_legal, spec_legal_moves, spec_play,
    BoardState, Chessboard,
};
use crate::datagen::{opening_walk, owned_texts, random_opening, replay_keys, replay_state};
use crate::eval::{evaluate, evaluate_spec};
use crate::position::{repetitions_spec, Position};
use crate::search::{Info, Limits, Score, Search};
use crate::text::{joined, texts, words, words_of};
use crate::types::{Color, Move};

verus! {

/// A decisive score, in centipawns.
pub const RESIGN_SCORE: i32 = 1000;

/// Consecutive decisive plies after which the losing side resigns.
pub const RESIGN_PLIES: u32 = 6;

/// Plies after which the game is drawn.
pub const MAX_PLIES: u32 = 300;

/// The result of a game.
#[derive(Clone, Copy, Debug, PartialEq, Eq, Structural)]
pub enum GameResult {
    /// White won.
    WhiteWin,
    /// A draw.
    Draw,
    /// Black won.
    BlackWin,
}

/// The labelled positions of a game: FENs of its quiet positions, and the
/// game's result.
pub struct TexelGame {
    /// The FENs of the positions not in check, from the third on.
    pub positions: Vec<String>,
    /// The result.
    pub result: GameResult,
}

/// The end the rules impose on the `n`-th position of a game, if any: a
/// position already seen, the fifty-move rule, then no legal move.
pub open spec fn texel_rule(s: BoardState, played: Seq<Move>, n: int) -> Option<GameResult> {
    let now = replay_state(s, played, n);
    if repetitions_spec(replay_keys(s, played, n), spec_hash(now), now.halfmove_clock as int) > 0
        || now.halfmove_clock >= 100 {
        Some(GameResult::Draw)
    } else if spec_legal_moves(now).len() == 0 {
        Some(
            if spec_checkers(now) == 0 {
                GameResult::Draw
            } else if now.side == Color::White {
                GameResult::BlackWin
            } else {
                GameResult::WhiteWin
            },
        )
    } else {
        None
    }
}

/// The FENs recorded among the first `n` positions of a game: those not in
/// check, from the third on.
pub open spec fn recorded(s: BoardState, played: Seq<Move>, n: int) -> Seq<Seq<char>>
    decreases n,
{
    if n <= 0 {
        Seq::empty()
    } else {
        let now = replay_state(s, played, n - 1);
        if spec_checkers(now) == 0 && n - 1 >= 2 {
            recorded(s, played, n - 1).push(spec_fen(now))
        } else {
            recorded(s, played, n - 1)
        }
    }
}

/// Whether `g` is the labelling of the game of the legal moves `played`
/// from `s`: the game not over before its last position, the quiet
/// positions recorded up to it, and the result due there — a resignation,
/// the rules, or past the length limit a draw.
pub open spec fn labels_game(s: BoardState, played: Seq<Move>, positions: Seq<Seq<char>>, result: GameResult) -> bool {
    let n = played.len() as int;
    &&& n <= MAX_PLIES
    &&& forall|i: int| 0 <= i < n ==> spec_is_legal(#[trigger] replay_state(s, played, i), played[i])
    &&& forall|i: int| 0 <= i < n ==> (#[trigger] texel_rule(s, played, i)) is None
    &&& {
        ||| (positions == recorded(s, played, n + 1) && n < MAX_PLIES && texel_rule(s, played, n) is None
            && result != GameResult::Draw)
        ||| (positions == recorded(s, played, n) && n < MAX_PLIES && texel_rule(s, played, n) == Some(
            result,
        ))
        ||| (positions == recorded(s, played, n) && n == MAX_PLIES && result == GameResult::Draw)
    }
}

/// Ignores a search report.
fn ignore_report(_info: &Info) {
}

/// Plays a game from `opening` at a fixed depth and labels its quiet
/// positions with the result.
pub fn play_texel_game(opening: Chessboard, depth: u32, search: &mut Search) -> (r: TexelGame)
    requires
        old(search).wf(),
    ensures
        final(search).wf(),
        exists|played: Seq<Move>|
            #[trigger] labels_game(
                opening@,
                played,
                owned_texts(r.positions@),
                r.result,
            ),
{
    let ghost s0 = opening@;
    let mut position = Position::from_board(opening);
    let mut positions: Vec<String> = Vec::new();
    let mut decided: u32 = 0;
    let mut leader = Color::White;
    search.clear_table();
    let mut limits = Limits::default();
    limits.depth = Some(depth);
    let ghost mut played: Seq<Move> = Seq::empty();
    let mut ply: u32 = 0;
    while ply < MAX_PLIES
        invariant
            search.wf(),
            position.wf(),
            ply <= MAX_PLIES,
            decided < RESIGN_PLIES,
            limits.depth == Some(depth),
            limits.movetime is None && limits.wtime is None && limits.btime is None,
            !limits.infinite,
            s0 == opening@,
            played.len() == ply,
            position.board_spec()@ == replay_state(s0, played, ply as int),
            position.history_spec() == replay_keys(s0, played, ply as int),
            owned_texts(positions@) == recorded(s0, played, ply as int),
            forall|i: int| 0 <= i < ply ==> spec_is_legal(#[trigger] replay_state(s0, played, i), played[i]),
            forall|i: int| 0 <= i < ply ==> (#[trigger] texel_rule(s0, played, i)) is None,
        decreases MAX_PLIES - ply,
    {
        if position.is_repetition() || position.is_fifty_move_draw() {
            proof {
            }
            let r = TexelGame { positions, result: GameResult::Draw };
            proof {
                assert(labels_game(opening@, played, owned_texts(r.positions@), r.result));
            }
            return r;
        }
        let board = position.board().duplicate();
        if board.legal_moves().len() == 0 {
            let result = if board.checkers() == 0 {
                GameResult::Draw
            } else {
                match board.side_to_move() {
                    Color::White => GameResult::BlackWin,
                    Color::Black => GameResult::WhiteWin,
                }
            };
            let r = TexelGame { positions, result };
            proof {
                assert(labels_game(opening@, played, owned_texts(r.positions@), r.result));
            }
            return r;
        }
        proof {
            assert(spec_legal_moves(position.board_spec()@).len() > 0);
        }
        let mv = match search.go(&position, &limits, ignore_report) {
            Some(m) => m,
            None => {
                return TexelGame { positions, result: GameResult::Draw };
            },
        };
        let score: i32 = match search.last_score() {
            Some(Score::Cp(cp)) => cp,
            Some(Score::Mate(moves)) => if moves > 0 {
                RESIGN_SCORE * 10
            } else {
                -RESIGN_SCORE * 10
            },
            None => 0,
        };
        let ghost before = positions@;
        let quiet = board.checkers() == 0 && ply >= 2;
        if quiet {
            positions.push(board.to_fen());
        }
        proof {
            let now = replay_state(s0, played, ply as int);
            assert(recorded(s0, played, ply + 1) == if spec_checkers(now) == 0 && ply >= 2 {
                recorded(s0, played, ply as int).push(spec_fen(now))
            } else {
                recorded(s0, played, ply as int)
            });
            if quiet {
                assert(owned_texts(positions@) =~= before.map_values(|p: String| p@).push(
                    spec_fen(now),
                ));
            }
        }
        let white_score: i32 = match board.side_to_move() {
            Color::White => score,
            Color::Black => -score,
        };
        if white_score >= RESIGN_SCORE || white_score <= -RESIGN_SCORE {
            let side = if white_score > 0 {
                Color::White
            } else {
                Color::Black
            };
            if side.same(leader) {
                decided = decided + 1;
            } else {
                leader = side;
                decided = 1;
            }
            if decided >= RESIGN_PLIES {
                let result = match leader {
                    Color::White => GameResult::WhiteWin,
                    Color::Black => GameResult::BlackWin,
                };
                let r = TexelGame { positions, result };
                proof {
                    assert(labels_game(opening@, played, owned_texts(r.positions@), r.result));
                }
                return r;
            }
        } else {
            decided = 0;
        }
        let ghost next_played = played.push(mv);
        proof {
            assert forall|i: int| 0 <= i <= ply implies #[trigger] replay_state(s0, next_played, i)
                == replay_state(s0, played, i) && replay_keys(s0, next_played, i) == replay_keys(
                s0,
                played,
                i,
            ) by {
                lemma_replay_prefix(s0, played, next_played, i);
            }
            assert forall|i: int| 0 <= i <= ply implies (#[trigger] texel_rule(s0, next_played, i)) is None by {
                lemma_replay_prefix(s0, played, next_played, i);
                assert(texel_rule(s0, played, i) is None);
                assert(texel_rule(s0, next_played, i) == texel_rule(s0, played, i));
            }
            assert forall|i: int| 0 <= i <= ply implies spec_is_legal(
                #[trigger] replay_state(s0, next_played, i),
                next_played[i],
            ) by {
                lemma_replay_prefix(s0, played, next_played, i);
            }
            lemma_recorded_prefix(s0, played, next_played, ply + 1);
        }
        position.play(mv);
        proof {
            assert(next_played[ply as int] == mv);
            assert(replay_state(s0, next_played, ply + 1) == spec_play(
                replay_state(s0, next_played, ply as int),
                mv,
            ));
            assert(replay_keys(s0, next_played, ply + 1) == replay_keys(
                s0,
                next_played,
                ply as int,
            ).push(spec_hash(replay_state(s0, next_played, ply + 1))));
            played = next_played;
        }
        ply = ply + 1;
    }
    let r = TexelGame { positions, result: GameResult::Draw };
    proof {
        assert(labels_game(opening@, played, owned_texts(r.positions@), r.result));
    }
    r
}

/// The positions of a game depend on its first moves only.
proof fn lemma_replay_prefix(s: BoardState, p: Seq<Move>, q: Seq<Move>, n: int)
    requires
        0 <= n <= p.len(),
        n <= q.len(),
        forall|i: int| 0 <= i < n ==> p[i] == q[i],
    ensures
        replay_state(s, p, n) == replay_state(s, q, n),
        replay_keys(s, p, n) == replay_keys(s, q, n),
    decreases n,
{
    if n > 0 {
        lemma_replay_prefix(s, p, q, n - 1);
    }
}

/// The recorded positions depend on the first moves only.
proof fn lemma_recorded_prefix(s: BoardState, p: Seq<Move>, q: Seq<Move>, n: int)
    requires
        0 <= n <= p.len() + 1,
        n <= q.len() + 1,
        forall|i: int| 0 <= i < n - 1 ==> p[i] == q[i],
    ensures
        recorded(s, p, n) == recorded(s, q, n),
    decreases n,
{
    if n > 0 {
        lemma_recorded_prefix(s, p, q, n - 1);
        lemma_replay_prefix(s, p, q, n - 1);
    }
}

// ---------------------------------------------------------------------------
// Books of balanced openings.
// ---------------------------------------------------------------------------

/// A book position: the first four fields of a FEN — placement, side to
/// move, castling, en passant — without the clocks.
pub open spec fn epd_text(fen: Seq<char>) -> Seq<char> {
    let fields = words_of(fen);
    joined(
        if fields.len() > 4 {
            fields.take(4)
        } else {
            fields
        },
    )
}

/// The book position of a FEN.
pub fn epd_of(fen: &str) -> (r: String)
    ensures
        r@ == epd_text(fen@),
{
    let fields = words(fen);
    if fields.len() > 4 {
        let first = vstd::slice::slice_subrange(fields.as_slice(), 0, 4);
        proof {
            assert(texts(first@) =~= words_of(fen@).take(4));
        }
        crate::text::join(first)
    } else {
        crate::text::join(fields.as_slice())
    }
}

/// The opening a draw from `state` gives: the random walk of `plies`
/// plies, kept if its last position has a legal move; and the generator's
/// state afterwards.
pub open spec fn drawn_opening(plies: nat, state: u64) -> (Option<BoardState>, u64) {
    let walk = opening_walk(initial_state(), plies, state);
    (
        match walk.0 {
            Some(b) => if spec_legal_moves(b).len() > 0 {
                Some(b)
            } else {
                None
            },
            None => None,
        },
        walk.1,
    )
}

/// Draws openings from `state` until `wanted` are found or `budget` draws
/// are spent: an opening is kept if its evaluation stays within `max_cp`
/// and no kept opening has the same key. Returns the book positions of
/// those kept, the draws spent, and the generator's state.
pub open spec fn book_from(
    plies: nat,
    max_cp: int,
    state: u64,
    budget: nat,
    wanted: nat,
    seen: Seq<u64>,
    found: Seq<Seq<char>>,
) -> (Seq<Seq<char>>, nat, u64)
    decreases budget,
{
    if budget == 0 || found.len() >= wanted {
        (found, 0, state)
    } else {
        let (o, next) = drawn_opening(plies, state);
        let keep = o matches Some(b) && -max_cp <= evaluate_spec(b) <= max_cp && !seen.contains(
            spec_hash(b),
        );
        let rest = if keep {
            book_from(
                plies,
                max_cp,
                next,
                (budget - 1) as nat,
                wanted,
                seen.push(spec_hash(o.unwrap())),
                found.push(epd_text(spec_fen(o.unwrap()))),
            )
        } else {
            book_from(plies, max_cp, next, (budget - 1) as nat, wanted, seen, found)
        };
        (rest.0, rest.1 + 1, rest.2)
    }
}

/// The draws allowed for a book of `wanted` positions: two hundred per
/// position, and at least ten thousand.
pub open spec fn book_budget(wanted: usize) -> nat {
    let b = if wanted as int * 200 > usize::MAX {
        usize::MAX as int
    } else {
        wanted as int * 200
    };
    (if b < 10_000 {
        10_000
    } else {
        b
    }) as nat
}

/// A book of `wanted` distinct balanced openings of `plies` random plies,
/// drawn from `state`: the book positions, and the draws spent.
pub fn opening_book(wanted: usize, plies: u32, max_cp: i32, state: &mut u64) -> (r: (Vec<String>, usize))
    ensures
        ({
            let spec = book_from(
                plies as nat,
                max_cp as int,
                *old(state),
                book_budget(wanted),
                wanted as nat,
                Seq::empty(),
                Seq::empty(),
            );
            &&& owned_texts(r.0@) == spec.0
            &&& r.1 == spec.1
            &&& *final(state) == spec.2
        }),
{
    let budget = if wanted > usize::MAX / 200 {
        usize::MAX
    } else {
        wanted * 200
    };
    let budget = if budget < 10_000 {
        10_000
    } else {
        budget
    };
    let mut seen: Vec<u64> = Vec::new();
    let mut found: Vec<String> = Vec::new();
    let mut attempts: usize = 0;
    let ghost start = *state;
    proof {
        assert(owned_texts(found@) =~= Seq::<Seq<char>>::empty());
        assert(budget == book_budget(wanted)) by (nonlinear_arith)
            requires
                budget == (if (if wanted > usize::MAX / 200 {
                    usize::MAX as int
                } else {
                    wanted * 200
                }) < 10_000 {
                    10_000
                } else {
                    if wanted > usize::MAX / 200 {
                        usize::MAX as int
                    } else {
                        wanted * 200
                    }
                }),
        ;
    }
    while found.len() < wanted && attempts < budget
        invariant
            attempts <= budget,
            budget == book_budget(wanted),
            book_from(plies as nat, max_cp as int, start, budget as nat, wanted as nat, Seq::empty(), Seq::empty())
                == ({
                let rest = book_from(
                    plies as nat,
                    max_cp as int,
                    *state,
                    (budget - attempts) as nat,
                    wanted as nat,
                    seen@,
                    owned_texts(found@),
                );
                (rest.0, (rest.1 + attempts) as nat, rest.2)
            }),
        decreases budget - attempts,
    {
        attempts = attempts + 1;
        let ghost before = *state;
        let ghost old_found = found@;
        let drawn = random_opening(plies, state);
        let board = match drawn {
            Some(b) => b,
            None => {
                continue;
            },
        };
        let score = evaluate(&board);
        if score > max_cp || score < -max_cp {
            continue;
        }
        let key = board.hash();
        let mut known = false;
        let mut k: usize = 0;
        while k < seen.len()
            invariant
                k <= seen@.len(),
                known <==> exists|j: int| 0 <= j < k && seen@[j] == key,
            decreases seen@.len() - k,
        {
            if seen[k] == key {
                known = true;
            }
            k = k + 1;
        }
        proof {
            if seen@.contains(key) {
                let j = choose|j: int| 0 <= j < seen@.len() && seen@[j] == key;
                assert(exists|j: int| 0 <= j < k && seen@[j] == key);
            }
        }
        if known {
            continue;
        }
        seen.push(key);
        let fen = board.to_fen();
        found.push(epd_of(fen.as_str()));
        proof {
            assert(owned_texts(found@) =~= old_found.map_values(|p: String| p@).push(
                epd_text(spec_fen(board@)),
            ));
        }
    }
    proof {
        let rest = book_from(
            plies as nat,
            max_cp as int,
            *state,
            (budget - attempts) as nat,
            wanted as nat,
            seen@,
            owned_texts(found@),
        );
        assert(rest.1 == 0);
    }
    (found, attempts)
}

} // verus!
