//! Static exchange evaluation: the material outcome of a sequence of captures
//! on one square.
//!
//! Move ordering ranks captures by victim first, cheapest attacker second;
//! that is cheap and blind to defence. The exchange evaluator plays out the
//! captures on the arrival square, each side using its least valuable
//! attacker and free to stop at any time.
//!
//! It reasons in pure geometry: a pinned piece still attacks, and a
//! discovered check during the exchange does not stop it. That is the known,
//! characterised limit.
use vstd::prelude::*;

use crate::attacks::{
    bishop_attacks, king_attacks, knight_attacks, pawn_attacks, rook_attacks, spec_bishop_attacks,
    spec_king_attacks, spec_knight_attacks, spec_pawn_attacks, spec_rook_attacks,
};
use crate::bitboard::{bit, holds, lemma_ops, square_bit};
use crate::board::{legal_shape, spec_is_legal, spec_legal_moves, spec_play, BoardState, Chessboard};
use crate::search::{captured_piece, captured_spec};
use crate::types::{color_idx, file_of, opposite, piece_idx, rank_of, Color, Move, Piece};

verus! {

/// Piece values of the exchange evaluator, in centipawns, pawn to king.
///
/// Deliberately separate from the evaluation's: the exchange evaluator is a
/// decision mechanism — it orders and prunes — not an evaluation term. The
/// king is worth enough that no exchange makes it profitable, without risk
/// of overflow when added up.
pub open spec fn value_spec(piece: Piece) -> int {
    match piece {
        Piece::Pawn => 100,
        Piece::Knight => 320,
        Piece::Bishop => 335,
        Piece::Rook => 500,
        Piece::Queen => 980,
        Piece::King => 10_000,
    }
}

/// The longest sequence of exchanges. A square can only be attacked by a
/// bounded number of men; the guard exists because overflowing silently would
/// give a wrong score, not because the case occurs.
pub const MAX_SWAPS: usize = 32;

/// The exchange value of a piece, in centipawns.
pub fn piece_value(piece: Piece) -> (r: i32)
    ensures
        r == value_spec(piece),
{
    match piece {
        Piece::Pawn => 100,
        Piece::Knight => 320,
        Piece::Bishop => 335,
        Piece::Rook => 500,
        Piece::Queen => 980,
        Piece::King => 10_000,
    }
}

/// What a capture yields at once: the victim, plus the promotion if any.
pub open spec fn capture_gain(victim: Piece, promotion: Option<Piece>) -> int {
    value_spec(victim) + match promotion {
        Some(p) => value_spec(p) - value_spec(Piece::Pawn),
        None => 0,
    }
}

/// What `mv` yields at once: the victim, plus the promotion if any. `None`
/// if the move captures nothing.
pub fn capture_value(board: &Chessboard, mv: Move) -> (r: Option<i32>)
    requires
        mv.wf(),
    ensures
        r == match captured_spec(board@, mv) {
            None => None,
            Some(victim) => Some(capture_gain(victim, mv.promotion) as i32),
        },
{
    let victim = match captured_piece(board, mv) {
        Some(v) => v,
        None => {
            return None;
        },
    };
    let bonus = match mv.promotion {
        Some(promoted) => piece_value(promoted) - piece_value(Piece::Pawn),
        None => 0,
    };
    Some(piece_value(victim) + bonus)
}

/// The attackers a side could have on a square, for each kind: the squares a
/// piece of that kind would need to stand on.
pub open spec fn candidates(kind: Piece, square: u8, side: Color, occupied: u64) -> u64 {
    match kind {
        Piece::Pawn => spec_pawn_attacks(square, opposite(side)),
        Piece::Knight => spec_knight_attacks(square),
        Piece::Bishop => spec_bishop_attacks(square, occupied),
        Piece::Rook => spec_rook_attacks(square, occupied),
        Piece::Queen => spec_bishop_attacks(square, occupied) | spec_rook_attacks(
            square,
            occupied,
        ),
        Piece::King => spec_king_attacks(square),
    }
}

/// The men of a side, of one kind, that attack a square given the
/// occupancy.
pub open spec fn attackers(
    s: BoardState,
    square: u8,
    side: Color,
    occupied: u64,
    kind: Piece,
) -> u64 {
    candidates(kind, square, side, occupied) & s.pieces[piece_idx(kind)] & (s.colors[color_idx(side)]
        & occupied)
}

/// Whether a square is attacked by a man of `by`, given the occupancy.
///
/// Pure geometry: a pinned piece still attacks. The occupancy is a parameter
/// rather than read from the board because an exchange changes it — which
/// gives x-ray attacks for free: the rook behind the bishop that just
/// captured appears as soon as the bishop leaves the occupancy.
pub open spec fn attacked_spec(s: BoardState, square: u8, by: Color, occupied: u64) -> bool {
    let them = s.colors[color_idx(by)] & occupied;
    let queens = s.pieces[4];
    ||| spec_knight_attacks(square) & s.pieces[1] & them != 0
    ||| spec_king_attacks(square) & s.pieces[5] & them != 0
    ||| spec_bishop_attacks(square, occupied) & (s.pieces[2] | queens) & them != 0
    ||| spec_rook_attacks(square, occupied) & (s.pieces[3] | queens) & them != 0
    ||| spec_pawn_attacks(square, opposite(by)) & s.pieces[0] & them != 0
}

/// Whether `square` is attacked by a man of `by`, given the occupancy.
pub fn attacked_by(board: &Chessboard, square: u8, by: Color, occupied: u64) -> (r: bool)
    requires
        square < 64,
    ensures
        r == attacked_spec(board@, square, by, occupied),
{
    let them = board.colors(by) & occupied;
    let queens = board.pieces(Piece::Queen);
    knight_attacks(square) & board.pieces(Piece::Knight) & them != 0 || king_attacks(square)
        & board.pieces(Piece::King) & them != 0 || bishop_attacks(square, occupied) & (board.pieces(
        Piece::Bishop,
    ) | queens) & them != 0 || rook_attacks(square, occupied) & (board.pieces(Piece::Rook)
        | queens) & them != 0 || pawn_attacks(square, by.other()) & board.pieces(Piece::Pawn)
        & them != 0
}

/// The lowest square of a word from `from` on, `64` if none.
pub open spec fn lowest_from(set: u64, from: int) -> int
    decreases 64 - from,
{
    if from >= 64 || from < 0 {
        64
    } else if holds(set, from) {
        from
    } else {
        lowest_from(set, from + 1)
    }
}

proof fn lemma_lowest(set: u64, k: int, s: int)
    requires
        0 <= k <= s < 64,
        holds(set, s),
        forall|t: int| k <= t < s ==> !holds(set, t),
    ensures
        lowest_from(set, k) == s,
    decreases s - k,
{
    if k < s {
        lemma_lowest(set, k + 1, s);
    }
}

/// The cheapest man of `side` attacking `square`, if any: its square and
/// kind. Kinds are tried from pawn to king — increasing value, which the
/// correctness of the exchange depends on — and within a kind the lowest
/// square first.
pub open spec fn lva_spec(s: BoardState, square: u8, side: Color, occupied: u64) -> Option<(u8, Piece)> {
    lva_from(s, square, side, occupied, 0)
}

/// The cheapest attacker among the kinds from index `k` on.
pub open spec fn lva_from(s: BoardState, square: u8, side: Color, occupied: u64, k: int) -> Option<
    (u8, Piece),
>
    decreases 6 - k,
{
    if k >= 6 || k < 0 {
        None
    } else {
        let kind = crate::types::piece_of(k);
        let set = attackers(s, square, side, occupied, kind);
        if set != 0 {
            Some((lowest_from(set, 0) as u8, kind))
        } else {
            lva_from(s, square, side, occupied, k + 1)
        }
    }
}

/// The cheapest man of `side` attacking `square`, if any.
fn least_valuable_attacker(board: &Chessboard, square: u8, side: Color, occupied: u64) -> (r: Option<
    (u8, Piece),
>)
    requires
        square < 64,
    ensures
        r == lva_spec(board@, square, side, occupied),
        r matches Some((from, _)) ==> from < 64 && holds(occupied, from as int),
{
    let them = board.colors(side) & occupied;
    let mut k: usize = 0;
    while k < 6
        invariant
            k <= 6,
            square < 64,
            them == board@.colors[color_idx(side)] & occupied,
            lva_spec(board@, square, side, occupied) == lva_from(
                board@,
                square,
                side,
                occupied,
                k as int,
            ),
        decreases 6 - k,
    {
        let kind = match Piece::from_index(k) {
            Some(p) => p,
            None => Piece::King,
        };
        let candidates = match kind {
            Piece::Pawn => pawn_attacks(square, side.other()),
            Piece::Knight => knight_attacks(square),
            Piece::Bishop => bishop_attacks(square, occupied),
            Piece::Rook => rook_attacks(square, occupied),
            Piece::Queen => bishop_attacks(square, occupied) | rook_attacks(square, occupied),
            Piece::King => king_attacks(square),
        };
        let set = candidates & board.pieces(kind) & them;
        match crate::bitboard::first_square(set) {
            Some(from) => {
                proof {
                    lemma_lowest(set, 0, from as int);
                    let p = board@.pieces[piece_idx(kind)];
                    let c = board@.colors[color_idx(side)];
                    lemma_ops(candidates & p, c & occupied, from as u64);
                    lemma_ops(c, occupied, from as u64);
                }
                return Some((from, kind));
            },
            None => {},
        }
        k = k + 1;
    }
    None
}

/// The value a man of kind `piece` has on `square`, promotion included: a
/// pawn recapturing on the last rank promotes and is then worth a queen.
pub open spec fn value_on_spec(piece: Piece, square: int, side: Color) -> int {
    let last = if side == Color::White {
        7int
    } else {
        0int
    };
    if piece == Piece::Pawn && rank_of(square) == last {
        value_spec(Piece::Queen)
    } else {
        value_spec(piece)
    }
}

/// The value a man of kind `piece` has on `square`, promotion included.
fn value_on(piece: Piece, square: u8, side: Color) -> (r: i32)
    requires
        square < 64,
    ensures
        r == value_on_spec(piece, square as int, side),
{
    let last: u8 = match side {
        Color::White => 7,
        Color::Black => 0,
    };
    if piece.same(Piece::Pawn) && crate::types::rank(square) == last {
        piece_value(Piece::Queen)
    } else {
        piece_value(piece)
    }
}

/// The outcome of the exchange from a given point, for the side that made the
/// last capture, whose balance is `gain`: the next side either stops, and
/// that balance stands, or captures with its least valuable attacker, and the
/// capturing side then keeps the better of stopping and letting the exchange
/// continue. No more than `MAX_SWAPS` captures are played.
pub open spec fn exchange(
    s: BoardState,
    target: u8,
    occupied: u64,
    side: Color,
    on_target: int,
    gain: int,
    depth: int,
) -> int
    decreases MAX_SWAPS - depth,
{
    if depth < 0 || depth + 1 >= MAX_SWAPS {
        gain
    } else {
        match lva_spec(s, target, side, occupied) {
            None => gain,
            Some((from, piece)) => {
                let rest = exchange(
                    s,
                    target,
                    occupied ^ bit(from as int),
                    opposite(side),
                    value_on_spec(piece, target as int, side),
                    on_target - gain,
                    depth + 1,
                );
                if gain < -rest {
                    gain
                } else {
                    -rest
                }
            },
        }
    }
}

/// Step `k` of a recorded exchange: the side to capture had an attacker, and
/// state `k + 1` is the one its capture leads to.
pub open spec fn exchange_step(
    s: BoardState,
    target: u8,
    occs: Seq<u64>,
    sides: Seq<Color>,
    values: Seq<int>,
    gains: Seq<int>,
    k: int,
) -> bool {
    let next = lva_spec(s, target, sides[k], occs[k]);
    &&& next.is_some()
    &&& occs[k + 1] == occs[k] ^ bit(next.unwrap().0 as int)
    &&& sides[k + 1] == opposite(sides[k])
    &&& values[k + 1] == value_on_spec(next.unwrap().1, target as int, sides[k])
    &&& gains[k + 1] == values[k] - gains[k]
}

/// The square of the man a capture removes: the arrival square, except for
/// an en-passant capture, where it stands beside the capturing pawn.
pub open spec fn victim_square(s: BoardState, mv: Move) -> int {
    if s.piece_at(mv.to as int).is_some() {
        mv.to as int
    } else {
        rank_of(mv.from as int) * 8 + file_of(mv.to as int)
    }
}

/// What the capturing man is worth on the target once there: the promoted
/// piece for a promotion.
pub open spec fn on_target_spec(s: BoardState, mv: Move, attacker: Piece) -> int {
    match mv.promotion {
        Some(p) => value_spec(p),
        None => value_on_spec(attacker, mv.to as int, s.side),
    }
}

/// The material gain of `mv`, both sides playing the exchange on the arrival
/// square at best; `0` for a move that captures nothing.
pub open spec fn see_spec(s: BoardState, mv: Move) -> int {
    match captured_spec(s, mv) {
        None => 0,
        Some(victim) => match s.piece_at(mv.from as int) {
            None => 0,
            Some(attacker) => {
                let occupied = (s.occupied() ^ bit(mv.from as int) ^ bit(victim_square(s, mv)))
                    | bit(mv.to as int);
                exchange(
                    s,
                    mv.to,
                    occupied,
                    opposite(s.side),
                    on_target_spec(s, mv, attacker),
                    capture_gain(victim, mv.promotion),
                    0,
                )
            },
        },
    }
}

/// The exchange never gives the side that captured last more than its
/// balance, nor less than that balance minus the piece it left on the
/// target: the next side may always decline, and recapturing once then
/// stopping is always open.
pub proof fn lemma_exchange_bounds(
    s: BoardState,
    target: u8,
    occupied: u64,
    side: Color,
    on_target: int,
    gain: int,
    depth: int,
)
    requires
        on_target >= 0,
    ensures
        gain - on_target <= exchange(s, target, occupied, side, on_target, gain, depth) <= gain,
    decreases MAX_SWAPS - depth,
{
    if depth >= 0 && depth + 1 < MAX_SWAPS {
        match lva_spec(s, target, side, occupied) {
            None => {},
            Some((from, piece)) => {
                let v = value_on_spec(piece, target as int, side);
                assert(v >= 0);
                lemma_exchange_bounds(
                    s,
                    target,
                    occupied ^ bit(from as int),
                    opposite(side),
                    v,
                    on_target - gain,
                    depth + 1,
                );
            },
        }
    }
}

/// A capture never yields more than what it takes at once, and never less
/// than that minus the capturing man — so a capture whose victim is worth at
/// least its attacker never loses material.
pub proof fn lemma_see_bounds(s: BoardState, mv: Move)
    requires
        captured_spec(s, mv).is_some(),
        s.piece_at(mv.from as int).is_some(),
    ensures
        ({
            let victim = captured_spec(s, mv).unwrap();
            let attacker = s.piece_at(mv.from as int).unwrap();
            let on_target = match mv.promotion {
                Some(p) => value_spec(p),
                None => value_on_spec(attacker, mv.to as int, s.side),
            };
            &&& see_spec(s, mv) <= capture_gain(victim, mv.promotion)
            &&& see_spec(s, mv) >= capture_gain(victim, mv.promotion) - on_target
        }),
{
    let victim = captured_spec(s, mv).unwrap();
    let attacker = s.piece_at(mv.from as int).unwrap();
    let occupied = (s.occupied() ^ bit(mv.from as int) ^ bit(victim_square(s, mv))) | bit(
        mv.to as int,
    );
    let on_target = match mv.promotion {
        Some(p) => value_spec(p),
        None => value_on_spec(attacker, mv.to as int, s.side),
    };
    lemma_exchange_bounds(
        s,
        mv.to,
        occupied,
        opposite(s.side),
        on_target,
        capture_gain(victim, mv.promotion),
        0,
    );
}

/// For a legal capture: the exchange yields at most what the capture takes
/// at once, and loses at most the man then left on the square — the
/// promoted piece, else the capturing man.
pub proof fn lemma_see_bounds_legal(s: BoardState, mv: Move)
    requires
        legal_shape(s, mv),
        captured_spec(s, mv).is_some(),
    ensures
        ({
            let victim = captured_spec(s, mv).unwrap();
            let attacker = s.piece_at(mv.from as int).unwrap();
            let left = match mv.promotion {
                Some(p) => value_spec(p),
                None => value_spec(attacker),
            };
            &&& see_spec(s, mv) <= capture_gain(victim, mv.promotion)
            &&& see_spec(s, mv) >= capture_gain(victim, mv.promotion) - left
        }),
{
    lemma_see_bounds(s, mv);
}

/// The material gain of `mv`, in centipawns, both sides playing the sequence
/// of exchanges on the arrival square at best.
///
/// `0` for a move that captures nothing. A negative result means the capture
/// loses material. Both sides may stop at any time: nobody is forced to
/// recapture. The textbook cut-off (`max(-gain[d-1], gain[d]) < 0`) is absent
/// on purpose: it preserves the sign, not the value, and here the value
/// orders moves.
pub fn see(board: &Chessboard, mv: Move) -> (r: i32)
    requires
        mv.wf(),
    ensures
        r == see_spec(board@, mv),
{
    let victim = match captured_piece(board, mv) {
        Some(v) => v,
        None => {
            return 0;
        },
    };
    let attacker = match board.piece_on(mv.from) {
        Some(a) => a,
        None => {
            return 0;
        },
    };
    let target = mv.to;
    let us = board.side_to_move();
    let ghost s = board@;
    // Two squares are freed by our move: the attacker's, and the victim's —
    // which is not the target for an en-passant capture.
    let victim_sq = match board.piece_on(target) {
        Some(_) => target,
        None => crate::types::square_at(crate::types::file(target), crate::types::rank(mv.from)),
    };
    let mut occupied = (board.occupied() ^ square_bit(mv.from) ^ square_bit(victim_sq))
        | square_bit(target);
    let mut gain = [0i32; MAX_SWAPS];
    let first_gain: i32 = match mv.promotion {
        Some(promoted) => piece_value(victim) + piece_value(promoted) - piece_value(Piece::Pawn),
        None => piece_value(victim),
    };
    gain[0] = first_gain;
    let mut on_target: i32 = match mv.promotion {
        Some(p) => piece_value(p),
        None => value_on(attacker, target, us),
    };
    let mut depth: usize = 0;
    let mut side = us.other();
    proof {
        assert(victim_sq as int == victim_square(s, mv));
    }
    // The states of the exchange, one per capture, for the backward pass.
    let ghost start = occupied;
    let ghost mut occs: Seq<u64> = seq![occupied];
    let ghost mut sides: Seq<Color> = seq![side];
    let ghost mut values: Seq<int> = seq![on_target as int];
    let ghost mut gains: Seq<int> = seq![first_gain as int];
    loop
        invariant
            depth < MAX_SWAPS,
            s == board@,
            target < 64,
            occs.len() == depth + 1,
            sides.len() == depth + 1,
            values.len() == depth + 1,
            gains.len() == depth + 1,
            occs[0] == start,
            sides[0] == opposite(s.side),
            values[0] == on_target_spec(s, mv, attacker),
            gains[0] == first_gain,
            occs[depth as int] == occupied,
            sides[depth as int] == side,
            values[depth as int] == on_target,
            forall|k: int| 0 <= k <= depth ==> gain[k] == gains[k],
            forall|k: int| 0 <= k <= depth ==> 0 <= #[trigger] values[k] <= 10_000,
            forall|k: int|
                0 <= k <= depth ==> -20_000 * (k + 1) <= #[trigger] gains[k] <= 20_000 * (k + 1),
            forall|k: int|
                0 <= k < depth ==> #[trigger] exchange_step(s, target, occs, sides, values, gains, k),
        ensures
            depth < MAX_SWAPS,
            occs.len() == depth + 1,
            sides.len() == depth + 1,
            values.len() == depth + 1,
            gains.len() == depth + 1,
            occs[0] == start,
            sides[0] == opposite(s.side),
            values[0] == on_target_spec(s, mv, attacker),
            gains[0] == first_gain,
            gain[depth as int] == gains[depth as int],
            forall|k: int|
                0 <= k <= depth ==> -20_000 * (k + 1) <= #[trigger] gains[k] <= 20_000 * (k + 1),
            forall|k: int|
                0 <= k < depth ==> #[trigger] exchange_step(s, target, occs, sides, values, gains, k),
            depth + 1 >= MAX_SWAPS || lva_spec(s, target, sides[depth as int], occs[depth as int])
                is None,
        decreases MAX_SWAPS - depth,
    {
        let next = least_valuable_attacker(board, target, side, occupied);
        let (from, piece) = match next {
            Some(found) => found,
            None => {
                break ;
            },
        };
        if depth + 1 >= MAX_SWAPS {
            break ;
        }
        let current = gain[depth];
        proof {
            assert(current == gains[depth as int]);
            assert(-20_000 * (depth + 1) <= gains[depth as int] <= 20_000 * (depth + 1));
            assert(0 <= values[depth as int] <= 10_000);
        }
        let step = on_target - current;
        gain[depth + 1] = step;
        occupied = occupied ^ square_bit(from);
        on_target = value_on(piece, target, side);
        side = side.other();
        proof {
            let ghost old_occs = occs;
            let ghost old_sides = sides;
            let ghost old_values = values;
            let ghost old_gains = gains;
            occs = occs.push(occupied);
            sides = sides.push(side);
            values = values.push(on_target as int);
            gains = gains.push(step as int);
            assert forall|k: int| 0 <= k < depth + 1 implies #[trigger] exchange_step(
                s,
                target,
                occs,
                sides,
                values,
                gains,
                k,
            ) by {
                if k < depth {
                    assert(exchange_step(s, target, old_occs, old_sides, old_values, old_gains, k));
                }
            }
        }
        depth = depth + 1;
    }
    // Backward pass: at each step the side to capture chooses between
    // capturing and stopping, and takes the better of the two.
    let ghost last = depth;
    proof {
        assert(gain[depth as int] == exchange(
            s,
            target,
            occs[depth as int],
            sides[depth as int],
            values[depth as int],
            gains[depth as int],
            depth as int,
        ));
    }
    while depth > 0
        invariant
            depth <= last,
            last < MAX_SWAPS,
            occs.len() == last + 1,
            sides.len() == last + 1,
            values.len() == last + 1,
            gains.len() == last + 1,
            forall|k: int| 0 <= k < depth ==> gain[k] == gains[k],
            forall|k: int|
                0 <= k <= last ==> -20_000 * (k + 1) <= #[trigger] gains[k] <= 20_000 * (k + 1),
            forall|k: int| 0 <= k <= last ==> 0 <= #[trigger] values[k],
            gain[depth as int] == exchange(
                s,
                target,
                occs[depth as int],
                sides[depth as int],
                values[depth as int],
                gains[depth as int],
                depth as int,
            ),
            forall|k: int|
                0 <= k < last ==> #[trigger] exchange_step(s, target, occs, sides, values, gains, k),
        decreases depth,
    {
        let ghost k = (depth - 1) as int;
        proof {
            assert(exchange_step(s, target, occs, sides, values, gains, k));
            lemma_exchange_bounds(
                s,
                target,
                occs[depth as int],
                sides[depth as int],
                values[depth as int],
                gains[depth as int],
                depth as int,
            );
            assert(-20_000 * (depth + 1) <= gains[depth as int] <= 20_000 * (depth + 1));
            assert(0 <= values[depth as int]);
            assert(-20_000 * (k + 1) <= gains[k] <= 20_000 * (k + 1));
        }
        let previous = gain[depth - 1];
        let later = gain[depth];
        let chosen = if -previous > later {
            -previous
        } else {
            later
        };
        gain[depth - 1] = -chosen;
        depth = depth - 1;
    }
    gain[0]
}

/// The squares `by` attacks on the board as it stands: those where it has
/// a least valuable attacker.
pub fn attack_mask(board: &Chessboard, by: Color) -> (r: u64)
    ensures
        forall|sq: int|
            0 <= sq < 64 ==> (holds(r, sq) <==> lva_spec(board@, sq as u8, by, board@.occupied()) is Some),
{
    let occupied = board.occupied();
    let mut bits: u64 = 0;
    let mut index: u8 = 0;
    proof {
        assert forall|sq: int| 0 <= sq < 64 implies !holds(bits, sq) by {
            crate::bitboard::lemma_empty(sq as u64);
        }
    }
    while index < 64
        invariant
            index <= 64,
            occupied == board@.occupied(),
            forall|sq: int|
                0 <= sq < 64 ==> (holds(bits, sq) <==> (sq < index && lva_spec(
                    board@,
                    sq as u8,
                    by,
                    occupied,
                ) is Some)),
        decreases 64 - index,
    {
        let attacker = least_valuable_attacker(board, index, by, occupied);
        let ghost before = bits;
        if attacker.is_some() {
            let b = square_bit(index);
            bits = bits | b;
            proof {
                assert forall|sq: int| 0 <= sq < 64 implies (holds(bits, sq) <==> (sq < index + 1
                    && lva_spec(board@, sq as u8, by, occupied) is Some)) by {
                    lemma_ops(before, b, sq as u64);
                    assert(holds(b, sq) <==> sq == index);
                    assert(holds(bits, sq) <==> holds(before, sq) || holds(b, sq));
                    assert(holds(before, sq) <==> (sq < index && lva_spec(board@, sq as u8, by, occupied) is Some));
                    assert(lva_spec(board@, index, by, occupied) is Some);
                    if sq == index {
                        assert((sq as u8) == index);
                    }
                }
            }
        } else {
            proof {
                assert forall|sq: int| 0 <= sq < 64 implies (holds(bits, sq) <==> (sq < index + 1
                    && lva_spec(board@, sq as u8, by, occupied) is Some)) by {
                    if sq == index {
                        assert((sq as u8) == index);
                    }
                }
            }
        }
        index = index + 1;
    }
    bits
}

// ---------------------------------------------------------------------------
// An exhaustive exchange on one square, to hold the evaluator to.
// ---------------------------------------------------------------------------

/// The most captures a square can take: one per man on the board, less one.
pub const MAX_CAPTURES: u32 = 31;

/// The best a side to move gets from capturing on `target` with any legal
/// capture, and then the best the opponent gets in turn, or zero by
/// stopping; `depth` captures at most.
pub open spec fn exchange_oracle(s: BoardState, target: u8, depth: nat) -> int
    decreases depth, 1nat, 0nat,
{
    if depth == 0 {
        0
    } else {
        best_capture(s, target, spec_legal_moves(s), (depth - 1) as nat)
    }
}

/// The best capture on `target` among `moves`, the reply being searched
/// `depth` captures deep; zero if none is worth it.
pub open spec fn best_capture(s: BoardState, target: u8, moves: Seq<Move>, depth: nat) -> int
    decreases depth + 1, 0nat, moves.len(),
{
    if moves.len() == 0 {
        0
    } else {
        let rest = best_capture(s, target, moves.drop_last(), depth);
        let m = moves.last();
        if m.to == target && captured_spec(s, m) is Some {
            let here = capture_gain(captured_spec(s, m).unwrap(), m.promotion) - exchange_oracle(
                spec_play(s, m),
                target,
                depth,
            );
            if here > rest {
                here
            } else {
                rest
            }
        } else {
            rest
        }
    }
}

/// The most a single capture can count: the dearest victim, plus the
/// dearest promotion less the pawn.
pub const MAX_CAPTURE_GAIN: i32 = 19_900;

proof fn lemma_capture_gain_bounds(victim: Piece, promotion: Option<Piece>)
    ensures
        0 < capture_gain(victim, promotion) <= MAX_CAPTURE_GAIN,
{
}

/// The exhaustive exchange on `target`, `depth` captures deep.
pub fn oracle(board: &Chessboard, target: u8, depth: u32) -> (r: i32)
    ensures
        r == exchange_oracle(board@, target, depth as nat),
        0 <= r <= MAX_CAPTURE_GAIN,
    decreases depth,
{
    if depth == 0 {
        return 0;
    }
    let moves = board.legal_moves();
    let mut best: i32 = 0;
    let mut k: usize = 0;
    while k < moves.len()
        invariant
            k <= moves@.len(),
            depth >= 1,
            moves@ == spec_legal_moves(board@),
            forall|i: int| 0 <= i < moves@.len() ==> (#[trigger] moves@[i]).wf(),
            forall|m: Move| m.wf() ==> (moves@.contains(m) <==> spec_is_legal(board@, m)),
            best == best_capture(board@, target, moves@.take(k as int), (depth - 1) as nat),
            0 <= best <= MAX_CAPTURE_GAIN,
        decreases moves@.len() - k,
    {
        let mv = moves[k];
        proof {
            assert(moves@.take(k + 1).drop_last() =~= moves@.take(k as int));
            assert(moves@.take(k + 1).last() == mv);
            assert(moves@.contains(mv));
        }
        if mv.to == target {
            if let Some(gain) = capture_value(board, mv) {
                let child = board.play(mv);
                let reply = oracle(&child, target, depth - 1);
                proof {
                    lemma_capture_gain_bounds(captured_spec(board@, mv).unwrap(), mv.promotion);
                }
                let here = gain - reply;
                if here > best {
                    best = here;
                }
            }
        }
        k = k + 1;
    }
    proof {
        assert(moves@.take(moves@.len() as int) =~= moves@);
    }
    best
}

/// What an exhaustive exchange says a capture yields: the victim, less
/// the best the opponent then gets on the same square. `None` if the move
/// captures nothing.
pub fn exact(board: &Chessboard, mv: Move) -> (r: Option<i32>)
    requires
        mv.wf(),
        spec_is_legal(board@, mv),
    ensures
        r == match captured_spec(board@, mv) {
            None => None,
            Some(victim) => Some(
                (capture_gain(victim, mv.promotion) - exchange_oracle(
                    spec_play(board@, mv),
                    mv.to,
                    MAX_CAPTURES as nat,
                )) as i32,
            ),
        },
{
    let gain = match capture_value(board, mv) {
        Some(g) => g,
        None => {
            return None;
        },
    };
    let child = board.play(mv);
    let reply = oracle(&child, mv.to, MAX_CAPTURES);
    proof {
        lemma_capture_gain_bounds(captured_spec(board@, mv).unwrap(), mv.promotion);
    }
    Some(gain - reply)
}

/// A capture held to the exhaustive exchange: what the exchange evaluator
/// gives, and what the exhaustive exchange gives.
#[derive(Clone, Copy, Debug, PartialEq, Eq, Structural)]
pub struct CaptureCheck {
    /// The capture.
    pub mv: Move,
    /// The exhaustive exchange's value.
    pub exhaustive: i32,
    /// The exchange evaluator's value.
    pub evaluated: i32,
}

/// The captures among `moves`, each with both values, in order.
pub open spec fn checks_of(s: BoardState, moves: Seq<Move>) -> Seq<CaptureCheck>
    decreases moves.len(),
{
    if moves.len() == 0 {
        Seq::empty()
    } else {
        let m = moves.last();
        let rest = checks_of(s, moves.drop_last());
        match captured_spec(s, m) {
            Some(victim) => rest.push(
                CaptureCheck {
                    mv: m,
                    exhaustive: (capture_gain(victim, m.promotion) - exchange_oracle(
                        spec_play(s, m),
                        m.to,
                        MAX_CAPTURES as nat,
                    )) as i32,
                    evaluated: see_spec(s, m) as i32,
                },
            ),
            None => rest,
        }
    }
}

/// Every legal capture of a position, with what the exchange evaluator and
/// the exhaustive exchange say of it.
pub fn capture_checks(board: &Chessboard) -> (r: Vec<CaptureCheck>)
    ensures
        r@ == checks_of(board@, spec_legal_moves(board@)),
{
    let moves = board.legal_moves();
    let mut out: Vec<CaptureCheck> = Vec::new();
    let mut k: usize = 0;
    while k < moves.len()
        invariant
            k <= moves@.len(),
            moves@ == spec_legal_moves(board@),
            forall|i: int| 0 <= i < moves@.len() ==> (#[trigger] moves@[i]).wf(),
            forall|m: Move| m.wf() ==> (moves@.contains(m) <==> spec_is_legal(board@, m)),
            out@ == checks_of(board@, moves@.take(k as int)),
        decreases moves@.len() - k,
    {
        let mv = moves[k];
        proof {
            assert(moves@.take(k + 1).drop_last() =~= moves@.take(k as int));
            assert(moves@.take(k + 1).last() == mv);
            assert(moves@.contains(mv));
        }
        if let Some(exhaustive) = exact(board, mv) {
            let evaluated = see(board, mv);
            out.push(CaptureCheck { mv, exhaustive, evaluated });
        }
        k = k + 1;
    }
    proof {
        assert(moves@.take(moves@.len() as int) =~= moves@);
    }
    out
}

} // verus!
