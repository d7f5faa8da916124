//! NNUE evaluation: a small `(768 → 128) × 2 → 1` network, the successor
//! being trained for the hand-written evaluation.
//!
//! - **Inputs**: one per (side, piece, square), seen by each side: the index
//!   seen by a side is `384 × (opponent's piece) + 64 × kind + square`, the
//!   square flipped (`^ 56`) when that side is black — each side sees itself
//!   as white.
//! - **File**: the hidden weights (one row of 128 per input) and biases,
//!   quantised by `QA`; the 256 output weights — side to move first — by
//!   `QB`; the output bias by `QA × QB`. Little-endian `i16`s, padded to a
//!   multiple of 64 bytes.
//! - **Output**: SCReLU (clamp to `[0, QA]`, then square), dot product,
//!   division by `QA`, bias, `× SCALE`, division by `QA × QB`, each division
//!   truncating toward zero.
//!
//! A loaded network cannot overflow: an accumulator is the bias plus at most
//! 32 rows, and [`Network::from_bytes`] refuses a network where a unit, with
//! its 32 largest weights, would leave an `i16`; the dot product stays in an
//! `i32` as long as the output weights sum, in absolute value, to at most
//! `i32::MAX / QA²`. The output is clamped to `MATE_THRESHOLD - 1`, so an
//! evaluation never announces a mate.
use vstd::prelude::*;

use crate::bitboard::holds;
use crate::board::{BoardState, Chessboard};
use crate::eval::MATE_THRESHOLD;
use crate::types::{
    color_idx, file_of, opposite, piece_idx, piece_of, rank_of, Color, Move, Piece,
};

verus! {

/// Number of inputs: 2 relative sides × 6 kinds × 64 squares.
pub const INPUTS: usize = 768;

/// Size of the hidden layer, for each of the two perspectives.
pub const HIDDEN: usize = 128;

/// Quantisation of the hidden layer, weights and biases.
pub const QA: i32 = 255;

/// Quantisation of the output weights.
pub const QB: i32 = 64;

/// Scale: the network's output times this is in centipawns.
pub const SCALE: i32 = 400;

/// The most pieces a legal board can carry: the bound the no-overflow
/// guarantee of the accumulator rests on.
pub const MAX_PIECES: usize = 32;

/// Number of `i16` values in a file, in the order they are written.
pub const VALUES: usize = INPUTS * HIDDEN + HIDDEN + 2 * HIDDEN + 1;

/// Exact size of a network file: the values, then padding to a multiple of
/// 64 bytes.
pub const FILE_BYTES: usize = 197440;

/// The largest sum of output weights, in absolute value, for which the dot
/// product fits an `i32`: each term is at most `QA²` times its weight.
pub const MAX_OUTPUT_WEIGHT_SUM: i64 = 33025;

/// Where the hidden biases start among the values.
pub const BIAS_AT: usize = INPUTS * HIDDEN;

/// Where the output weights start among the values.
pub const OUTPUT_AT: usize = BIAS_AT + HIDDEN;

/// Where the output bias is among the values.
pub const OUTPUT_BIAS_AT: usize = OUTPUT_AT + 2 * HIDDEN;

/// The `i16` an integer leaves behind in sixteen-bit two's complement.
pub open spec fn wrap16(x: int) -> i16 {
    let m = x % 65536;
    if m > 32767 {
        (m - 65536) as i16
    } else {
        m as i16
    }
}

/// The absolute value.
pub open spec fn abs(x: int) -> int {
    if x < 0 {
        -x
    } else {
        x
    }
}

/// Division truncating toward zero, by a positive divisor.
pub open spec fn tdiv(a: int, b: int) -> int {
    if a >= 0 {
        a / b
    } else {
        -((-a) / b)
    }
}

proof fn lemma_wrapping_add(x: i16, y: i16)
    ensures
        vstd::wrapping::i16_specs::wrapping_add(x, y) == wrap16(x + y),
        vstd::wrapping::i16_specs::wrapping_sub(x, y) == wrap16(x - y),
{
}

proof fn lemma_wrap16_add(a: int, b: int)
    ensures
        wrap16(wrap16(a) + b) == wrap16(a + b),
{
    vstd::arithmetic::div_mod::lemma_mod_bound(a, 65536);
    let r = wrap16(a);
    assert((r - a) % 65536 == 0) by {
        let m = a % 65536;
        vstd::arithmetic::div_mod::lemma_fundamental_div_mod(a, 65536);
        if m > 32767 {
            assert(r == m - 65536);
            assert(r - a == -65536 * (a / 65536) - 65536);
            vstd::arithmetic::div_mod::lemma_mod_multiples_basic(-(a / 65536) - 1, 65536);
            assert(r - a == (-(a / 65536) - 1) * 65536) by (nonlinear_arith)
                requires
                    r - a == -65536 * (a / 65536) - 65536,
            ;
        } else {
            assert(r - a == (-(a / 65536)) * 65536) by (nonlinear_arith)
                requires
                    r == a - 65536 * (a / 65536),
            ;
            vstd::arithmetic::div_mod::lemma_mod_multiples_basic(-(a / 65536), 65536);
        }
    }
    vstd::arithmetic::div_mod::lemma_mod_sub_multiples_vanish(a + b, 65536);
    assert(((r + b) - (a + b)) % 65536 == 0);
    lemma_mod_eq(r + b, a + b);
}

proof fn lemma_mod_eq(x: int, y: int)
    requires
        (x - y) % 65536 == 0,
    ensures
        x % 65536 == y % 65536,
{
    vstd::arithmetic::div_mod::lemma_fundamental_div_mod(x - y, 65536);
    let k = (x - y) / 65536;
    assert(x == y + k * 65536) by (nonlinear_arith)
        requires
            x - y == 65536 * k + (x - y) % 65536,
            (x - y) % 65536 == 0,
    ;
    vstd::arithmetic::div_mod::lemma_mod_multiples_vanish(k, y, 65536);
}

/// One half of the hidden layer: what one side sees, before activation.
#[derive(Clone, Copy, Debug, PartialEq, Eq)]
pub struct Accumulator {
    pub values: [i16; HIDDEN],
}

impl Accumulator {
    /// Adds a row of weights, in sixteen-bit modular arithmetic: on an
    /// accepted network and a legal board it never wraps, and otherwise it
    /// gives a wrong value rather than failing — adding and removing stay
    /// inverse to each other.
    pub fn add(&mut self, weights: &Vec<i16>, row: usize)
        requires
            row * HIDDEN + HIDDEN <= weights@.len(),
        ensures
            forall|u: int|
                0 <= u < HIDDEN ==> final(self).values[u] == wrap16(
                    old(self).values[u] + weights@[row * HIDDEN + u],
                ),
    {
        let len = weights.len();
        assert(row * HIDDEN <= len);
        let start = row * HIDDEN;
        let mut u: usize = 0;
        while u < HIDDEN
            invariant
                u <= HIDDEN,
                start == row * HIDDEN,
                start + HIDDEN <= weights@.len(),
                forall|v: int|
                    0 <= v < u ==> self.values[v] == wrap16(
                        old(self).values[v] + weights@[start + v],
                    ),
                forall|v: int| u <= v < HIDDEN ==> self.values[v] == old(self).values[v],
            decreases HIDDEN - u,
        {
            let value = self.values[u];
            proof {
                lemma_wrapping_add(value, weights@[start + u]);
            }
            self.values[u] = value.wrapping_add(weights[start + u]);
            u = u + 1;
        }
    }

    /// Removes a row of weights, in sixteen-bit modular arithmetic.
    pub fn sub(&mut self, weights: &Vec<i16>, row: usize)
        requires
            row * HIDDEN + HIDDEN <= weights@.len(),
        ensures
            forall|u: int|
                0 <= u < HIDDEN ==> final(self).values[u] == wrap16(
                    old(self).values[u] - weights@[row * HIDDEN + u],
                ),
    {
        let len = weights.len();
        assert(row * HIDDEN <= len);
        let start = row * HIDDEN;
        let mut u: usize = 0;
        while u < HIDDEN
            invariant
                u <= HIDDEN,
                start == row * HIDDEN,
                start + HIDDEN <= weights@.len(),
                forall|v: int|
                    0 <= v < u ==> self.values[v] == wrap16(
                        old(self).values[v] - weights@[start + v],
                    ),
                forall|v: int| u <= v < HIDDEN ==> self.values[v] == old(self).values[v],
            decreases HIDDEN - u,
        {
            let value = self.values[u];
            proof {
                lemma_wrapping_add(value, weights@[start + u]);
            }
            self.values[u] = value.wrapping_sub(weights[start + u]);
            u = u + 1;
        }
    }
}

/// The index of the input of a piece, seen by `perspective`.
pub open spec fn feature_spec(perspective: Color, color: Color, piece: Piece, square: int) -> int {
    (if color == perspective {
        0int
    } else {
        384int
    }) + 64 * piece_idx(piece) + (if perspective == Color::White {
        square
    } else {
        flip_rank(square)
    })
}

/// A square seen from the other side of the board: same file, mirrored rank.
pub open spec fn flip_rank(square: int) -> int {
    (7 - rank_of(square)) * 8 + file_of(square)
}

proof fn lemma_xor56(s: u8)
    requires
        s < 64,
    ensures
        (s ^ 56u8) as int == flip_rank(s as int),
        (s ^ 56u8) < 64,
{
    assert((s ^ 56u8) == (7 - s / 8) * 8 + s % 8 && (s ^ 56u8) < 64) by (bit_vector)
        requires
            s < 64,
    ;
}

/// The index of the input of a piece, seen by `perspective`.
pub fn feature(perspective: Color, color: Color, piece: Piece, square: u8) -> (r: usize)
    requires
        square < 64,
    ensures
        r == feature_spec(perspective, color, piece, square as int),
        r < INPUTS,
{
    let side: usize = if color.same(perspective) {
        0
    } else {
        384
    };
    let square: usize = match perspective {
        Color::White => square as usize,
        Color::Black => {
            proof {
                lemma_xor56(square);
            }
            (square ^ 56) as usize
        },
    };
    side + 64 * piece.index() + square
}

/// Whether the input `f` is lit for `perspective` on a position: the piece it
/// stands for is on its square.
pub open spec fn active(s: BoardState, perspective: Color, f: int) -> bool {
    let color = if f / 384 == 0 {
        perspective
    } else {
        opposite(perspective)
    };
    let piece = piece_of((f % 384) / 64);
    let seen = f % 64;
    let square = if perspective == Color::White {
        seen
    } else {
        flip_rank(seen)
    };
    holds(s.colored(color, piece), square)
}

/// The sum, over the lit inputs among the first `n`, of their weight for a
/// hidden unit.
pub open spec fn lit_sum(weights: Seq<i16>, s: BoardState, perspective: Color, unit: int, n: int) -> int
    decreases n,
{
    if n <= 0 {
        0
    } else {
        lit_sum(weights, s, perspective, unit, n - 1) + if active(s, perspective, n - 1) {
            weights[(n - 1) * 128 + unit] as int
        } else {
            0int
        }
    }
}

/// A piece that appears on or leaves a square: all a move does to an
/// accumulator, which is only a sum of contributions per (side, kind, square).
#[derive(Clone, Copy, Debug, PartialEq, Eq, Structural)]
pub struct Change {
    /// `true` if the piece appears, `false` if it leaves.
    pub added: bool,
    /// The kind of the piece — after promotion where there is one.
    pub piece: Piece,
    /// The side owning it.
    pub color: Color,
    /// The square it appears on or leaves.
    pub square: u8,
}

impl Change {
    /// Filler for a buffer of changes: never read past the count that
    /// [`changes`] returns.
    pub fn blank() -> (r: Change)
        ensures
            r == (Change { added: false, piece: Piece::Pawn, color: Color::White, square: 0 }),
    {
        Change { added: false, piece: Piece::Pawn, color: Color::White, square: 0 }
    }
}

/// What a move does to the pieces of a position, derived from the parent
/// position and the move alone.
///
/// Castling, written king-takes-own-rook, removes king and rook and puts them
/// on the squares fixed by the side castled toward. An en-passant capture
/// removes the pawn standing beside the capturing pawn, on the rank it
/// starts from. A promotion puts the promoted kind on the arrival square.
pub open spec fn move_changes(s: BoardState, mv: Move) -> Seq<Change> {
    match s.piece_at(mv.from as int) {
        None => Seq::empty(),
        Some(moving) => {
            let us = s.side;
            let them = opposite(us);
            let rank = rank_of(mv.from as int);
            if moving == Piece::King && holds(s.colors[color_idx(us)], mv.to as int) {
                let (king_to, rook_to) = if file_of(mv.to as int) > file_of(mv.from as int) {
                    (rank * 8 + 6, rank * 8 + 5)
                } else {
                    (rank * 8 + 2, rank * 8 + 3)
                };
                seq![
                    Change { added: false, piece: Piece::King, color: us, square: mv.from },
                    Change { added: false, piece: Piece::Rook, color: us, square: mv.to },
                    Change { added: true, piece: Piece::King, color: us, square: king_to as u8 },
                    Change { added: true, piece: Piece::Rook, color: us, square: rook_to as u8 },
                ]
            } else {
                let taken: Seq<Change> = match s.piece_at(mv.to as int) {
                    Some(victim) => seq![
                        Change { added: false, piece: victim, color: them, square: mv.to },
                    ],
                    None => if moving == Piece::Pawn && file_of(mv.from as int) != file_of(
                        mv.to as int,
                    ) {
                        seq![
                            Change {
                                added: false,
                                piece: Piece::Pawn,
                                color: them,
                                square: (rank * 8 + file_of(mv.to as int)) as u8,
                            },
                        ]
                    } else {
                        Seq::empty()
                    },
                };
                let arrived = match mv.promotion {
                    Some(p) => p,
                    None => moving,
                };
                seq![Change { added: false, piece: moving, color: us, square: mv.from }] + taken
                    + seq![Change { added: true, piece: arrived, color: us, square: mv.to }]
            }
        },
    }
}

/// Derives from the parent position and the move what the move does to the
/// pieces, WITHOUT playing it. Writes the changes into `out` and returns how
/// many there are: at most four — castling makes four, a capturing
/// promotion three.
pub fn changes(board: &Chessboard, mv: Move, out: &mut [Change; 4]) -> (r: usize)
    requires
        mv.wf(),
    ensures
        r == move_changes(board@, mv).len(),
        r <= 4,
        forall|i: int| 0 <= i < r ==> final(out)[i] == move_changes(board@, mv)[i],
        forall|i: int| 0 <= i < r ==> final(out)[i].square < 64,
        forall|i: int| r <= i < 4 ==> final(out)[i] == old(out)[i],
{
    let moving = match board.piece_on(mv.from) {
        Some(p) => p,
        None => {
            return 0;
        },
    };
    let us = board.side_to_move();
    let them = us.other();
    let rank = crate::types::rank(mv.from);
    let from_file = crate::types::file(mv.from);
    let to_file = crate::types::file(mv.to);
    if moving.same(Piece::King) && crate::bitboard::contains(board.colors(us), mv.to) {
        let (king_to, rook_to) = if to_file > from_file {
            (rank * 8 + 6, rank * 8 + 5)
        } else {
            (rank * 8 + 2, rank * 8 + 3)
        };
        out[0] = Change { added: false, piece: Piece::King, color: us, square: mv.from };
        out[1] = Change { added: false, piece: Piece::Rook, color: us, square: mv.to };
        out[2] = Change { added: true, piece: Piece::King, color: us, square: king_to };
        out[3] = Change { added: true, piece: Piece::Rook, color: us, square: rook_to };
        return 4;
    }
    out[0] = Change { added: false, piece: moving, color: us, square: mv.from };
    let mut count: usize = 1;
    match board.piece_on(mv.to) {
        Some(victim) => {
            out[1] = Change { added: false, piece: victim, color: them, square: mv.to };
            count = 2;
        },
        None => {
            if moving.same(Piece::Pawn) && from_file != to_file {
                out[1] = Change {
                    added: false,
                    piece: Piece::Pawn,
                    color: them,
                    square: rank * 8 + to_file,
                };
                count = 2;
            }
        },
    }
    let arrived = match mv.promotion {
        Some(p) => p,
        None => moving,
    };
    out[count] = Change { added: true, piece: arrived, color: us, square: mv.to };
    proof {
        let s = board@;
        let spec = move_changes(s, mv);
        assert(spec.len() == count + 1);
        assert forall|i: int| 0 <= i < count + 1 implies out[i] == spec[i] by {}
    }
    count + 1
}

/// SCReLU: the input clamped to `[0, QA]`, then squared.
pub open spec fn screlu_spec(value: i16) -> int {
    let c = if value < 0 {
        0int
    } else if value > 255 {
        255int
    } else {
        value as int
    };
    c * c
}

/// SCReLU: the input clamped to `[0, QA]`, then squared.
pub fn screlu(value: i16) -> (r: i32)
    ensures
        r == screlu_spec(value),
        0 <= r <= 65025,
{
    let clipped: i32 = if value < 0 {
        0
    } else if value > 255 {
        255
    } else {
        value as i32
    };
    assert(clipped * clipped <= 65025) by (nonlinear_arith)
        requires
            0 <= clipped <= 255,
    ;
    clipped * clipped
}

/// The dot product of the first `n` activated values with the weights from
/// `start` on.
pub open spec fn dot_spec(values: Seq<i16>, weights: Seq<i16>, start: int, n: int) -> int
    decreases n,
{
    if n <= 0 {
        0
    } else {
        dot_spec(values, weights, start, n - 1) + screlu_spec(values[n - 1]) * weights[start + n
            - 1] as int
    }
}

/// The sum of absolute values of `n` weights from `start` on.
pub open spec fn abs_sum(weights: Seq<i16>, start: int, n: int) -> int
    decreases n,
{
    if n <= 0 {
        0
    } else {
        abs_sum(weights, start, n - 1) + abs(weights[start + n - 1] as int)
    }
}

proof fn lemma_abs_sum_split(weights: Seq<i16>, a: int, b: int)
    requires
        0 <= a,
        0 <= b,
    ensures
        abs_sum(weights, 0, a + b) == abs_sum(weights, 0, a) + abs_sum(weights, a, b),
    decreases b,
{
    if b > 0 {
        lemma_abs_sum_split(weights, a, b - 1);
    }
}

proof fn lemma_abs_sum_nonneg(weights: Seq<i16>, start: int, n: int)
    ensures
        abs_sum(weights, start, n) >= 0,
    decreases n,
{
    if n > 0 {
        lemma_abs_sum_nonneg(weights, start, n - 1);
    }
}

/// The dot product of an activated half with its output weights.
fn dot(accumulator: &Accumulator, weights: &[i16; 256], start: usize) -> (r: i32)
    requires
        start + HIDDEN <= 256,
        abs_sum(weights@, start as int, HIDDEN as int) * 65025 <= i32::MAX,
    ensures
        r == dot_spec(accumulator.values@, weights@, start as int, HIDDEN as int),
        abs(r as int) <= abs_sum(weights@, start as int, HIDDEN as int) * 65025,
{
    let mut sum: i32 = 0;
    let mut i: usize = 0;
    proof {
        lemma_abs_sum_nonneg(weights@, start as int, HIDDEN as int);
    }
    while i < HIDDEN
        invariant
            i <= HIDDEN,
            start + HIDDEN <= 256,
            sum == dot_spec(accumulator.values@, weights@, start as int, i as int),
            abs(sum as int) <= abs_sum(weights@, start as int, i as int) * 65025,
            abs_sum(weights@, start as int, HIDDEN as int) * 65025 <= i32::MAX,
        decreases HIDDEN - i,
    {
        proof {
            lemma_abs_sum_prefix(weights@, start as int, (i + 1) as int, HIDDEN as int);
        }
        let activated = screlu(accumulator.values[i]);
        let weight = weights[start + i] as i32;
        assert(abs(activated * weight) <= 65025 * abs(weight as int)) by (nonlinear_arith)
            requires
                0 <= activated <= 65025,
        ;
        assert(65025 * abs(weight as int) <= 65025 * 32768) by (nonlinear_arith)
            requires
                -32768 <= weight <= 32767,
        ;
        let term = activated * weight;
        sum = sum + term;
        i = i + 1;
    }
    sum
}

proof fn lemma_abs_sum_prefix(weights: Seq<i16>, start: int, m: int, n: int)
    requires
        0 <= m <= n,
    ensures
        abs_sum(weights, start, m) <= abs_sum(weights, start, n),
    decreases n - m,
{
    if m < n {
        lemma_abs_sum_prefix(weights, start, m, n - 1);
    }
}

/// The largest sum of at most `k` of the values.
pub open spec fn top_sum(values: Seq<int>, k: int) -> int
    decreases values.len(),
{
    if values.len() == 0 || k <= 0 {
        0
    } else {
        let without = top_sum(values.drop_last(), k);
        let with = top_sum(values.drop_last(), k - 1) + values.last();
        if with > without {
            with
        } else {
            without
        }
    }
}

proof fn lemma_top_sum_bounds(values: Seq<int>, k: int, cap: int)
    requires
        forall|i: int| 0 <= i < values.len() ==> 0 <= #[trigger] values[i] <= cap,
        k >= 0,
        cap >= 0,
    ensures
        0 <= top_sum(values, k) <= k * cap,
    decreases values.len(),
{
    if values.len() > 0 && k > 0 {
        let rest = values.drop_last();
        assert forall|i: int| 0 <= i < rest.len() implies 0 <= #[trigger] rest[i] <= cap by {
            assert(rest[i] == values[i]);
        }
        lemma_top_sum_bounds(rest, k, cap);
        lemma_top_sum_bounds(rest, k - 1, cap);
        assert((k - 1) * cap + cap == k * cap) by (nonlinear_arith);
        assert(values.last() == values[values.len() - 1]);
    }
}

/// The magnitudes of the weights of a hidden unit, one per input.
pub open spec fn column(weights: Seq<i16>, unit: int) -> Seq<int> {
    Seq::new(INPUTS as nat, |f: int| abs(weights[f * 128 + unit] as int))
}

/// The most a hidden unit can reach: its bias plus its 32 largest weights,
/// all in absolute value.
pub open spec fn unit_worst(weights: Seq<i16>, bias: Seq<i16>, unit: int) -> int {
    abs(bias[unit] as int) + top_sum(column(weights, unit), MAX_PIECES as int)
}

/// A hidden unit that never leaves an `i16`.
pub open spec fn unit_ok(weights: Seq<i16>, bias: Seq<i16>, unit: int) -> bool {
    unit_worst(weights, bias, unit) <= 32767
}

/// The `i`-th little-endian `i16` of a byte string.
pub open spec fn le_value(bytes: Seq<u8>, i: int) -> i16 {
    let v = bytes[2 * i] + 256 * bytes[2 * i + 1];
    (if v >= 32768 {
        v - 65536
    } else {
        v
    }) as i16
}

/// The `i16` values a network file holds.
pub open spec fn file_values(bytes: Seq<u8>) -> Seq<i16> {
    Seq::new(VALUES as nat, |i: int| le_value(bytes, i))
}

/// The decimal text of an integer.
pub open spec fn decimal_text(n: int) -> Seq<char> {
    if n < 0 {
        seq!['-'] + digits((-n) as nat)
    } else {
        digits(n as nat)
    }
}

/// The value of a decimal digit character: its distance from `'0'`.
pub open spec fn digit_value(c: char) -> int {
    c as int - '0' as int
}

/// Whether a text is one or more decimal digit characters.
pub open spec fn all_digits(t: Seq<char>) -> bool {
    &&& t.len() > 0
    &&& forall|i: int| 0 <= i < t.len() ==> '0' as int <= #[trigger] t[i] as int <= '9' as int
}

/// Whether a text is written as an integer in decimal: digits, after a
/// minus sign or not.
pub open spec fn is_decimal(t: Seq<char>) -> bool {
    all_digits(t) || (t.len() > 0 && t[0] == '-' && all_digits(t.drop_first()))
}

/// The number a string of digits reads as, most significant first.
pub open spec fn digits_value(t: Seq<char>) -> int
    decreases t.len(),
{
    if t.len() == 0 {
        0
    } else {
        digits_value(t.drop_last()) * 10 + digit_value(t.last())
    }
}

/// The integer a decimal text reads as: its digits, negated after a minus
/// sign.
pub open spec fn read_decimal(t: Seq<char>) -> int {
    if t.len() > 0 && t[0] == '-' {
        -digits_value(t.drop_first())
    } else {
        digits_value(t)
    }
}

/// A digit character is one, and reads back as its digit.
proof fn lemma_digit_reads_back(d: nat)
    requires
        d < 10,
    ensures
        digit_value(digit(d)) == d,
        '0' as int <= digit(d) as int <= '9' as int,
{
}

/// The digits of a natural number are digits, and read back as it.
pub proof fn lemma_digits_read_back(n: nat)
    ensures
        all_digits(digits(n)),
        digits_value(digits(n)) == n,
    decreases n,
{
    if n < 10 {
        lemma_digit_reads_back(n);
        assert(digits(n).drop_last() =~= Seq::<char>::empty());
        assert(digits_value(Seq::<char>::empty()) == 0);
        assert(digits(n).last() == digit(n));
    } else {
        lemma_digit_reads_back(n % 10);
        assert(n / 10 * 10 + n % 10 == n);
        lemma_digits_read_back(n / 10);
        let t = digits(n);
        assert(t.drop_last() =~= digits(n / 10));
        assert(t.last() == digit(n % 10));
        assert(digits_value(t) == digits_value(digits(n / 10)) * 10 + digit_value(digit(n % 10)));
        assert forall|i: int| 0 <= i < t.len() implies '0' as int <= #[trigger] t[i] as int
            <= '9' as int by {
            if i < t.len() - 1 {
                assert(t[i] == digits(n / 10)[i]);
            }
        }
    }
}

/// The decimal text of an integer is a decimal that reads back as it, with
/// a minus sign exactly when it is negative.
pub proof fn lemma_decimal_reads_back(n: int)
    ensures
        is_decimal(decimal_text(n)),
        read_decimal(decimal_text(n)) == n,
        (decimal_text(n)[0] == '-') == (n < 0),
{
    if n < 0 {
        lemma_digits_read_back((-n) as nat);
        assert(decimal_text(n).drop_first() =~= digits((-n) as nat));
    } else {
        lemma_digits_read_back(n as nat);
    }
}

/// The decimal digits of a natural number.
pub open spec fn digits(n: nat) -> Seq<char>
    decreases n,
{
    if n < 10 {
        seq![digit(n)]
    } else {
        digits(n / 10).push(digit(n % 10))
    }
}

/// The character of a decimal digit.
pub open spec fn digit(d: nat) -> char {
    if d == 0 {
        '0'
    } else if d == 1 {
        '1'
    } else if d == 2 {
        '2'
    } else if d == 3 {
        '3'
    } else if d == 4 {
        '4'
    } else if d == 5 {
        '5'
    } else if d == 6 {
        '6'
    } else if d == 7 {
        '7'
    } else if d == 8 {
        '8'
    } else {
        '9'
    }
}

/// The text of a decimal digit.
fn digit_text(d: u64) -> (r: &'static str)
    requires
        d < 10,
    ensures
        r@ == seq![digit(d as nat)],
{
    proof {
        reveal_strlit("0");
        reveal_strlit("1");
        reveal_strlit("2");
        reveal_strlit("3");
        reveal_strlit("4");
        reveal_strlit("5");
        reveal_strlit("6");
        reveal_strlit("7");
        reveal_strlit("8");
        reveal_strlit("9");
    }
    if d == 0 {
        "0"
    } else if d == 1 {
        "1"
    } else if d == 2 {
        "2"
    } else if d == 3 {
        "3"
    } else if d == 4 {
        "4"
    } else if d == 5 {
        "5"
    } else if d == 6 {
        "6"
    } else if d == 7 {
        "7"
    } else if d == 8 {
        "8"
    } else {
        "9"
    }
}

/// Writes an integer in decimal, most significant digit first.
pub(crate) fn decimal(n: u64) -> (r: String)
    ensures
        r@ == decimal_text(n as int),
    decreases n,
{
    if n < 10 {
        String::from_str(digit_text(n))
    } else {
        let mut text = decimal(n / 10);
        text.append(digit_text(n % 10));
        text
    }
}

/// The message refusing a file of the wrong size.
pub open spec fn size_message(len: int) -> Seq<char> {
    "réseau de "@ + decimal_text(len) + " octets : l'architecture (768 → 128) × 2 → 1 en attend 197440"@
}

/// The message refusing a hidden unit that could overflow.
pub open spec fn unit_message(unit: int, worst: int) -> Seq<char> {
    "l'unité cachée "@ + decimal_text(unit) + " peut atteindre "@ + decimal_text(worst)
        + ", au-delà d'un i16"@
}

/// The message refusing output weights whose dot product could overflow.
pub open spec fn output_message(total: int) -> Seq<char> {
    "les poids de sortie totalisent "@ + decimal_text(total)
        + " en valeur absolue, au-delà des 33025 qu'admet un produit scalaire sur 32 bits"@
}

/// A quantised network, as the trainer writes it.
pub struct Network {
    /// One row of `HIDDEN` weights per input, quantised by `QA`.
    feature_weights: Vec<i16>,
    /// The hidden biases, quantised by `QA`.
    feature_bias: [i16; HIDDEN],
    /// The output weights of the side to move, then the other's, quantised by
    /// `QB`.
    output_weights: [i16; 256],
    /// The output bias, quantised by `QA × QB`.
    output_bias: i16,
}

impl Network {
    /// The hidden weights, row after row.
    pub closed spec fn weights(&self) -> Seq<i16> {
        self.feature_weights@
    }

    /// The hidden biases.
    pub closed spec fn bias(&self) -> Seq<i16> {
        self.feature_bias@
    }

    /// The output weights.
    pub closed spec fn output(&self) -> Seq<i16> {
        self.output_weights@
    }

    /// The output bias.
    pub closed spec fn output_bias_spec(&self) -> i16 {
        self.output_bias
    }

    /// An accepted network: the right shape, no unit that could leave an
    /// `i16`, and output weights whose dot product fits an `i32`.
    pub open spec fn wf(&self) -> bool {
        &&& self.weights().len() == INPUTS * HIDDEN
        &&& self.bias().len() == HIDDEN
        &&& self.output().len() == 2 * HIDDEN
        &&& forall|u: int| 0 <= u < HIDDEN ==> unit_ok(self.weights(), self.bias(), u)
        &&& abs_sum(self.output(), 0, 256) <= MAX_OUTPUT_WEIGHT_SUM
    }

    /// Reads a network in the trainer's format, and REFUSES it if it could
    /// overflow.
    ///
    /// Refused: a size other than the architecture's, a hidden unit that with
    /// its 32 largest weights would leave an `i16` (the first such unit is
    /// reported), or output weights whose dot product could leave an `i32`.
    pub fn from_bytes(bytes: &[u8]) -> (r: Result<Network, String>)
        ensures
            bytes@.len() != FILE_BYTES ==> (r matches Err(e) && e@ == size_message(
                bytes@.len() as int,
            )),
            bytes@.len() == FILE_BYTES ==> {
                let values = file_values(bytes@);
                let weights = values.subrange(0, BIAS_AT as int);
                let bias = values.subrange(BIAS_AT as int, OUTPUT_AT as int);
                let output = values.subrange(OUTPUT_AT as int, OUTPUT_BIAS_AT as int);
                &&& (forall|u: int|
                    0 <= u < HIDDEN && !unit_ok(weights, bias, u) && (forall|v: int|
                        0 <= v < u ==> unit_ok(weights, bias, v)) ==> (r matches Err(e) && e@
                        == unit_message(u, unit_worst(weights, bias, u))))
                &&& ((forall|u: int| 0 <= u < HIDDEN ==> unit_ok(weights, bias, u)) && abs_sum(
                    output,
                    0,
                    256,
                ) > MAX_OUTPUT_WEIGHT_SUM ==> (r matches Err(e) && e@ == output_message(
                    abs_sum(output, 0, 256),
                )))
                &&& ((forall|u: int| 0 <= u < HIDDEN ==> unit_ok(weights, bias, u)) && abs_sum(
                    output,
                    0,
                    256,
                ) <= MAX_OUTPUT_WEIGHT_SUM ==> (r matches Ok(n) && n.wf() && n.weights()
                    == weights && n.bias() == bias && n.output() == output
                    && n.output_bias_spec() == values[OUTPUT_BIAS_AT as int]))
            },
    {
        if bytes.len() != FILE_BYTES {
            let mut message = String::from_str("réseau de ");
            let count = decimal(bytes.len() as u64);
            message.append(count.as_str());
            message.append(" octets : l'architecture (768 → 128) × 2 → 1 en attend 197440");
            return Err(message);
        }
        let ghost values = file_values(bytes@);
        let mut weights: Vec<i16> = Vec::new();
        let mut i: usize = 0;
        while i < BIAS_AT
            invariant
                i <= BIAS_AT,
                bytes@.len() == FILE_BYTES,
                values == file_values(bytes@),
                weights@ == values.subrange(0, i as int),
            decreases BIAS_AT - i,
        {
            weights.push(read_value(bytes, i));
            proof {
                assert(weights@ =~= values.subrange(0, i + 1));
            }
            i = i + 1;
        }
        let mut bias = [0i16; HIDDEN];
        let mut u: usize = 0;
        while u < HIDDEN
            invariant
                u <= HIDDEN,
                bytes@.len() == FILE_BYTES,
                values == file_values(bytes@),
                forall|v: int| 0 <= v < u ==> bias[v] == values[BIAS_AT + v],
            decreases HIDDEN - u,
        {
            bias[u] = read_value(bytes, BIAS_AT + u);
            u = u + 1;
        }
        let mut output = [0i16; 256];
        let mut o: usize = 0;
        while o < 256
            invariant
                o <= 256,
                bytes@.len() == FILE_BYTES,
                values == file_values(bytes@),
                forall|v: int| 0 <= v < o ==> output[v] == values[OUTPUT_AT + v],
            decreases 256 - o,
        {
            output[o] = read_value(bytes, OUTPUT_AT + o);
            o = o + 1;
        }
        let output_bias = read_value(bytes, OUTPUT_BIAS_AT);
        proof {
            assert(bias@ =~= values.subrange(BIAS_AT as int, OUTPUT_AT as int));
            assert(output@ =~= values.subrange(OUTPUT_AT as int, OUTPUT_BIAS_AT as int));
        }
        let network = Network {
            feature_weights: weights,
            feature_bias: bias,
            output_weights: output,
            output_bias,
        };
        match network.check_bounds() {
            Ok(()) => Ok(network),
            Err(message) => Err(message),
        }
    }

    /// Refuses a network where an accumulator or the dot product could
    /// overflow.
    fn check_bounds(&self) -> (r: Result<(), String>)
        requires
            self.weights().len() == INPUTS * HIDDEN,
            self.bias().len() == HIDDEN,
            self.output().len() == 2 * HIDDEN,
        ensures
            forall|u: int|
                0 <= u < HIDDEN && !unit_ok(self.weights(), self.bias(), u) && (forall|v: int|
                    0 <= v < u ==> unit_ok(self.weights(), self.bias(), v)) ==> (r matches Err(e)
                    && e@ == unit_message(u, unit_worst(self.weights(), self.bias(), u))),
            (forall|u: int| 0 <= u < HIDDEN ==> unit_ok(self.weights(), self.bias(), u))
                && abs_sum(self.output(), 0, 256) > MAX_OUTPUT_WEIGHT_SUM ==> (r matches Err(e)
                && e@ == output_message(abs_sum(self.output(), 0, 256))),
            r.is_ok() <==> self.wf(),
    {
        let mut unit: usize = 0;
        while unit < HIDDEN
            invariant
                unit <= HIDDEN,
                self.weights().len() == INPUTS * HIDDEN,
                self.bias().len() == HIDDEN,
                forall|v: int| 0 <= v < unit ==> unit_ok(self.weights(), self.bias(), v),
            decreases HIDDEN - unit,
        {
            let top = top_weights(&self.feature_weights, unit);
            let bias = self.feature_bias[unit] as i32;
            let magnitude: i32 = if bias < 0 {
                -bias
            } else {
                bias
            };
            let worst = magnitude + top;
            proof {
                assert(worst == unit_worst(self.weights(), self.bias(), unit as int));
            }
            if worst > 32767 {
                proof {
                    assert(!unit_ok(self.weights(), self.bias(), unit as int));
                    assert forall|u: int|
                        0 <= u < HIDDEN && !unit_ok(self.weights(), self.bias(), u) && (forall|v: int|
                            0 <= v < u ==> unit_ok(self.weights(), self.bias(), v)) implies u == unit by {
                        if u < unit {
                            assert(unit_ok(self.weights(), self.bias(), u));
                        }
                        if u > unit {
                            assert(unit_ok(self.weights(), self.bias(), unit as int));
                        }
                    }
                    assert(!self.wf()) by {
                        assert(!unit_ok(self.weights(), self.bias(), unit as int));
                    }
                }
                let mut message = String::from_str("l'unité cachée ");
                let which = decimal(unit as u64);
                message.append(which.as_str());
                message.append(" peut atteindre ");
                let amount = decimal(worst as u64);
                message.append(amount.as_str());
                message.append(", au-delà d'un i16");
                return Err(message);
            }
            unit = unit + 1;
        }
        let mut total: i64 = 0;
        let mut o: usize = 0;
        while o < 256
            invariant
                o <= 256,
                self.output().len() == 256,
                total == abs_sum(self.output(), 0, o as int),
                0 <= total <= o * 32768,
            decreases 256 - o,
        {
            let weight = self.output_weights[o] as i64;
            total = total + if weight < 0 {
                -weight
            } else {
                weight
            };
            o = o + 1;
        }
        if total > MAX_OUTPUT_WEIGHT_SUM {
            let mut message = String::from_str("les poids de sortie totalisent ");
            let amount = decimal(total as u64);
            message.append(amount.as_str());
            message.append(
                " en valeur absolue, au-delà des 33025 qu'admet un produit scalaire sur 32 bits",
            );
            return Err(message);
        }
        Ok(())
    }

    /// Both accumulators of a position, computed from scratch: each is the
    /// bias plus the rows of the inputs lit for its side.
    pub fn refresh(&self, board: &Chessboard) -> (r: [Accumulator; 2])
        requires
            self.wf(),
        ensures
            forall|p: int, u: int|
                0 <= p < 2 && 0 <= u < HIDDEN ==> #[trigger] r[p].values[u] == wrap16(
                    self.bias()[u] + lit_sum(
                        self.weights(),
                        board@,
                        if p == 0 {
                            Color::White
                        } else {
                            Color::Black
                        },
                        u,
                        INPUTS as int,
                    ),
                ),
            r[0].values@ == accumulator_of(self.weights(), self.bias(), board@, Color::White),
            r[1].values@ == accumulator_of(self.weights(), self.bias(), board@, Color::Black),
    {
        let white = self.refresh_side(board, Color::White);
        let black = self.refresh_side(board, Color::Black);
        proof {
            assert(white.values@ =~= accumulator_of(self.weights(), self.bias(), board@, Color::White));
            assert(black.values@ =~= accumulator_of(self.weights(), self.bias(), board@, Color::Black));
        }
        [white, black]
    }

    /// One accumulator of a position, computed from scratch.
    fn refresh_side(&self, board: &Chessboard, perspective: Color) -> (r: Accumulator)
        requires
            self.wf(),
        ensures
            forall|u: int|
                0 <= u < HIDDEN ==> r.values[u] == wrap16(
                    self.bias()[u] + lit_sum(self.weights(), board@, perspective, u, INPUTS as int),
                ),
    {
        let mut accumulator = Accumulator { values: self.feature_bias };
        let mut f: usize = 0;
        while f < INPUTS
            invariant
                f <= INPUTS,
                self.wf(),
                forall|u: int|
                    0 <= u < HIDDEN ==> accumulator.values[u] == wrap16(
                        self.bias()[u] + lit_sum(self.weights(), board@, perspective, u, f as int),
                    ),
            decreases INPUTS - f,
        {
            if input_lit(board, perspective, f) {
                let ghost before = accumulator;
                accumulator.add(&self.feature_weights, f);
                proof {
                    assert forall|u: int| 0 <= u < HIDDEN implies accumulator.values[u] == wrap16(
                        self.bias()[u] + lit_sum(
                            self.weights(),
                            board@,
                            perspective,
                            u,
                            (f + 1) as int,
                        ),
                    ) by {
                        lemma_wrap16_add(
                            self.bias()[u] + lit_sum(
                                self.weights(),
                                board@,
                                perspective,
                                u,
                                f as int,
                            ),
                            self.weights()[f * 128 + u] as int,
                        );
                    }
                }
            }
            f = f + 1;
        }
        accumulator
    }

    /// The accumulators after `mv`, played from `board`, derived from those
    /// before without recomputing anything: at most four rows added or
    /// removed, for each side.
    pub fn apply_move(
        &self,
        before: &[Accumulator; 2],
        after: &mut [Accumulator; 2],
        board: &Chessboard,
        mv: Move,
    )
        requires
            self.wf(),
            mv.wf(),
        ensures
            forall|p: int, u: int|
                0 <= p < 2 && 0 <= u < HIDDEN ==> #[trigger] final(after)[p].values[u] == wrap16(
                    before[p].values[u] + change_sum(
                        self.weights(),
                        move_changes(board@, mv),
                        if p == 0 {
                            Color::White
                        } else {
                            Color::Black
                        },
                        u,
                        move_changes(board@, mv).len() as int,
                    ),
                ),
    {
        let mut buffer = [Change::blank();4];
        let count = changes(board, mv, &mut buffer);
        let ghost list = move_changes(board@, mv);
        let mut white = before[0];
        let mut black = before[1];
        let mut i: usize = 0;
        while i < count
            invariant
                i <= count,
                count == list.len(),
                count <= 4,
                list == move_changes(board@, mv),
                forall|j: int| 0 <= j < count ==> buffer[j] == list[j] && buffer[j].square < 64,
                self.wf(),
                forall|u: int|
                    0 <= u < HIDDEN ==> white.values[u] == wrap16(
                        before[0].values[u] + change_sum(
                            self.weights(),
                            list,
                            Color::White,
                            u,
                            i as int,
                        ),
                    ),
                forall|u: int|
                    0 <= u < HIDDEN ==> black.values[u] == wrap16(
                        before[1].values[u] + change_sum(
                            self.weights(),
                            list,
                            Color::Black,
                            u,
                            i as int,
                        ),
                    ),
            decreases count - i,
        {
            let change = buffer[i];
            proof {
                assert(buffer[i as int] == list[i as int]);
                assert(change.square < 64);
            }
            self.apply_change(&mut white, change, Color::White);
            self.apply_change(&mut black, change, Color::Black);
            proof {
                assert forall|u: int| 0 <= u < HIDDEN implies white.values[u] == wrap16(
                    before[0].values[u] + change_sum(
                        self.weights(),
                        list,
                        Color::White,
                        u,
                        (i + 1) as int,
                    ),
                ) by {
                    lemma_wrap16_add(
                        before[0].values[u] + change_sum(
                            self.weights(),
                            list,
                            Color::White,
                            u,
                            i as int,
                        ),
                        change_term(self.weights(), change, Color::White, u),
                    );
                }
                assert forall|u: int| 0 <= u < HIDDEN implies black.values[u] == wrap16(
                    before[1].values[u] + change_sum(
                        self.weights(),
                        list,
                        Color::Black,
                        u,
                        (i + 1) as int,
                    ),
                ) by {
                    lemma_wrap16_add(
                        before[1].values[u] + change_sum(
                            self.weights(),
                            list,
                            Color::Black,
                            u,
                            i as int,
                        ),
                        change_term(self.weights(), change, Color::Black, u),
                    );
                }
            }
            i = i + 1;
        }
        after[0] = white;
        after[1] = black;
    }

    /// Adds or removes the row of one change, for one perspective.
    fn apply_change(&self, accumulator: &mut Accumulator, change: Change, perspective: Color)
        requires
            self.wf(),
            change.square < 64,
        ensures
            forall|u: int|
                0 <= u < HIDDEN ==> final(accumulator).values[u] == wrap16(
                    old(accumulator).values[u] + change_term(self.weights(), change, perspective, u),
                ),
    {
        let row = feature(perspective, change.color, change.piece, change.square);
        if change.added {
            accumulator.add(&self.feature_weights, row);
        } else {
            accumulator.sub(&self.feature_weights, row);
        }
    }

    /// The network's evaluation, in centipawns, from the side to move's point
    /// of view — the convention negamax needs, as for the hand-written
    /// evaluation.
    ///
    /// Clamped to `MATE_THRESHOLD - 1`: an evaluation never announces a mate.
    pub fn evaluate(&self, accumulators: &[Accumulator; 2], side_to_move: Color) -> (r: i32)
        requires
            self.wf(),
        ensures
            r == output_of(
                dot_spec(
                    accumulators[color_idx(side_to_move)].values@,
                    self.output(),
                    0,
                    HIDDEN as int,
                ) + dot_spec(
                    accumulators[color_idx(opposite(side_to_move))].values@,
                    self.output(),
                    HIDDEN as int,
                    HIDDEN as int,
                ),
                self.output_bias_spec() as int,
            ),
            -(MATE_THRESHOLD - 1) <= r <= MATE_THRESHOLD - 1,
    {
        proof {
            lemma_abs_sum_split(self.output(), 128, 128);
            lemma_abs_sum_nonneg(self.output(), 0, 128);
            lemma_abs_sum_nonneg(self.output(), 128, 128);
        }
        let ours = dot(&accumulators[side_to_move.index()], &self.output_weights, 0);
        let theirs = dot(&accumulators[side_to_move.other().index()], &self.output_weights, HIDDEN);
        proof {
            let s1 = abs_sum(self.output(), 0, 128);
            let s2 = abs_sum(self.output(), 128, 128);
            assert(s1 * 65025 + s2 * 65025 <= 33025 * 65025) by (nonlinear_arith)
                requires
                    s1 + s2 <= 33025,
                    s1 >= 0,
                    s2 >= 0,
            ;
        }
        let sum = ours + theirs;
        let wide = sum as i64;
        let scaled = wide / 255;
        assert(-2147450625 <= wide <= 2147450625);
        assert(-8421376 <= scaled <= 8421376);
        let biased = scaled + (self.output_bias as i64);
        let output = biased * 400 / 16320;
        let bound = (MATE_THRESHOLD - 1) as i64;
        let clamped = if output < -bound {
            -bound
        } else if output > bound {
            bound
        } else {
            output
        };
        clamped as i32
    }
}

/// The output of the network from its dot product and output bias: the
/// trainer's steps and truncations, then the clamp away from mate scores.
pub open spec fn output_of(sum: int, output_bias: int) -> i32 {
    let raw = tdiv((tdiv(sum, 255) + output_bias) * 400, 16320);
    let bound = MATE_THRESHOLD - 1;
    (if raw < -bound {
        -bound
    } else if raw > bound {
        bound
    } else {
        raw
    }) as i32
}

/// The signed weight a change brings to a hidden unit, for one perspective.
pub open spec fn change_term(weights: Seq<i16>, change: Change, perspective: Color, unit: int) -> int {
    let row = feature_spec(perspective, change.color, change.piece, change.square as int);
    if change.added {
        weights[row * 128 + unit] as int
    } else {
        -(weights[row * 128 + unit] as int)
    }
}

/// The sum of the first `n` changes' terms for a hidden unit.
pub open spec fn change_sum(
    weights: Seq<i16>,
    list: Seq<Change>,
    perspective: Color,
    unit: int,
    n: int,
) -> int
    decreases n,
{
    if n <= 0 {
        0
    } else {
        change_sum(weights, list, perspective, unit, n - 1) + change_term(
            weights,
            list[n - 1],
            perspective,
            unit,
        )
    }
}

/// Whether input `f` is lit for `perspective` on the board.
fn input_lit(board: &Chessboard, perspective: Color, f: usize) -> (r: bool)
    requires
        f < INPUTS,
    ensures
        r == active(board@, perspective, f as int),
{
    let color = if f / 384 == 0 {
        perspective
    } else {
        perspective.other()
    };
    let piece = match Piece::from_index((f % 384) / 64) {
        Some(p) => p,
        None => Piece::King,
    };
    let seen = (f % 64) as u8;
    let square = match perspective {
        Color::White => seen,
        Color::Black => {
            proof {
                lemma_xor56(seen);
            }
            seen ^ 56
        },
    };
    crate::bitboard::contains(board.colored_pieces(color, piece), square)
}

/// Reads the `i`-th little-endian `i16` of a byte string.
fn read_value(bytes: &[u8], i: usize) -> (r: i16)
    requires
        2 * i + 1 < bytes@.len(),
    ensures
        r == le_value(bytes@, i as int),
{
    let len = bytes.len();
    assert(2 * i + 1 < len);
    let lo = bytes[2 * i] as i32;
    let hi = bytes[2 * i + 1] as i32;
    let v = lo + 256 * hi;
    if v >= 32768 {
        (v - 65536) as i16
    } else {
        v as i16
    }
}

/// The sum of the 32 largest weight magnitudes of a hidden unit, by dynamic
/// programming over the inputs: `best[j]` is the largest sum of at most `j`
/// magnitudes among the inputs seen so far.
fn top_weights(weights: &Vec<i16>, unit: usize) -> (r: i32)
    requires
        weights@.len() == INPUTS * HIDDEN,
        unit < HIDDEN,
    ensures
        r == top_sum(column(weights@, unit as int), MAX_PIECES as int),
        0 <= r <= 32 * 32768,
{
    let ghost col = column(weights@, unit as int);
    let mut best = [0i32; 33];
    let mut f: usize = 0;
    while f < INPUTS
        invariant
            f <= INPUTS,
            unit < HIDDEN,
            weights@.len() == INPUTS * HIDDEN,
            col == column(weights@, unit as int),
            forall|j: int| 0 <= j <= 32 ==> best[j] == top_sum(col.take(f as int), j),
            forall|j: int| 0 <= j <= 32 ==> 0 <= #[trigger] best[j] <= j * 32768,
        decreases INPUTS - f,
    {
        let w = weights[f * HIDDEN + unit] as i32;
        let x: i32 = if w < 0 {
            -w
        } else {
            w
        };
        let ghost prefix = col.take(f as int);
        let ghost next = col.take((f + 1) as int);
        proof {
            assert(next.drop_last() =~= prefix);
            assert(next.last() == x);
            assert forall|i: int| 0 <= i < next.len() implies 0 <= #[trigger] next[i] <= 32768 by {}
        }
        let mut j: usize = 32;
        while j > 0
            invariant
                j <= 32,
                0 <= x <= 32768,
                next.drop_last() == prefix,
                next.last() == x,
                next.len() > 0,
                forall|i: int| 0 <= i < next.len() ==> 0 <= #[trigger] next[i] <= 32768,
                forall|k: int| 0 <= k <= j ==> best[k] == top_sum(prefix, k),
                forall|k: int| j < k <= 32 ==> best[k] == top_sum(next, k),
                forall|k: int| 0 <= k <= 32 ==> 0 <= #[trigger] best[k] <= k * 32768,
            decreases j,
        {
            let ghost below = top_sum(prefix, j - 1);
            let ghost here = top_sum(prefix, j as int);
            assert(best[j - 1] == below);
            assert(best[j as int] == here);
            assert(top_sum(next, j as int) == if below + x > here {
                below + x
            } else {
                here
            });
            let with = best[j - 1] + x;
            if with > best[j] {
                best[j] = with;
            }
            proof {
                assert(best[j as int] == top_sum(next, j as int));
                lemma_top_sum_bounds(next, j as int, 32768);
            }
            j = j - 1;
        }
        proof {
            assert(best[0] == top_sum(next, 0));
        }
        f = f + 1;
    }
    proof {
        assert(col.take(INPUTS as int) =~= col);
    }
    best[32]
}


/// The piece an input stands for, seen by `perspective`: its side, its kind
/// and its square.
pub open spec fn decode(perspective: Color, f: int) -> (Color, Piece, int) {
    let color = if f / 384 == 0 {
        perspective
    } else {
        opposite(perspective)
    };
    let seen = f % 64;
    (color, piece_of((f % 384) / 64), if perspective == Color::White {
        seen
    } else {
        flip_rank(seen)
    })
}

proof fn lemma_flip_involutive(sq: int)
    requires
        0 <= sq < 64,
    ensures
        0 <= flip_rank(sq) < 64,
        flip_rank(flip_rank(sq)) == sq,
{
}

/// An input is lit exactly when the piece it decodes to stands on its
/// square; and the inputs and the pieces correspond one to one.
proof fn lemma_decode(perspective: Color, f: int, color: Color, piece: Piece, sq: int)
    requires
        0 <= f < INPUTS,
        0 <= sq < 64,
    ensures
        0 <= decode(perspective, f).2 < 64,
        (decode(perspective, f) == (color, piece, sq)) <==> (f == feature_spec(perspective, color, piece, sq)),
        0 <= feature_spec(perspective, color, piece, sq) < INPUTS,
{
    let seen = f % 64;
    lemma_flip_involutive(seen);
    lemma_flip_involutive(sq);
    let k = (f % 384) / 64;
    assert(0 <= k < 6);
    assert(piece_idx(piece_of(k)) == k);
    assert(piece_of(piece_idx(piece)) == piece);
    assert(0 <= piece_idx(piece) < 6);
    let g = feature_spec(perspective, color, piece, sq);
    let sq2 = if perspective == Color::White {
        sq
    } else {
        flip_rank(sq)
    };
    assert(0 <= sq2 < 64);
    assert(g == (if color == perspective {
        0int
    } else {
        384int
    }) + 64 * piece_idx(piece) + sq2);
    assert(f == 384 * (f / 384) + 64 * k + seen);
    if decode(perspective, f) == (color, piece, sq) {
        assert(sq2 == seen);
        assert(f / 384 == 0 <==> color == perspective);
    }
    if f == g {
        assert(f / 384 == (if color == perspective {
            0int
        } else {
            1int
        }));
        assert(k == piece_idx(piece));
        assert(seen == sq2);
    }
}

/// `active` reads the board at the decoded piece.
proof fn lemma_active_decoded(s: BoardState, perspective: Color, f: int)
    requires
        0 <= f < INPUTS,
    ensures
        active(s, perspective, f) == holds(
            s.colored(decode(perspective, f).0, decode(perspective, f).1),
            decode(perspective, f).2,
        ),
{
}

// ---------------------------------------------------------------------------
// A position and its mirror image.
// ---------------------------------------------------------------------------

/// Whether `t` is `s` seen from the other side of the board: every piece
/// changes side and mirrors its rank, and the other side is to move.
pub open spec fn mirrored(s: BoardState, t: BoardState) -> bool {
    &&& t.side == opposite(s.side)
    &&& forall|c: Color, p: Piece, sq: int|
        0 <= sq < 64 ==> #[trigger] holds(t.colored(opposite(c), p), sq) == holds(
            s.colored(c, p),
            flip_rank(sq),
        )
}

proof fn lemma_lit_sum_mirrored(weights: Seq<i16>, s: BoardState, t: BoardState, c: Color, unit: int, n: int)
    requires
        mirrored(s, t),
        0 <= n <= INPUTS,
    ensures
        lit_sum(weights, t, opposite(c), unit, n) == lit_sum(weights, s, c, unit, n),
    decreases n,
{
    if n > 0 {
        lemma_lit_sum_mirrored(weights, s, t, c, unit, n - 1);
        let f = n - 1;
        let seen = f % 64;
        lemma_flip_involutive(seen);
        let x = if f / 384 == 0 {
            c
        } else {
            opposite(c)
        };
        let piece = piece_of((f % 384) / 64);
        let sq_t = if opposite(c) == Color::White {
            seen
        } else {
            flip_rank(seen)
        };
        assert(holds(t.colored(opposite(x), piece), sq_t) == holds(s.colored(x, piece), flip_rank(sq_t)));
        assert(active(t, opposite(c), f) == active(s, c, f));
    }
}

/// The accumulator of `perspective` on a position, computed from scratch:
/// what [`Network::refresh`] gives.
pub open spec fn accumulator_of(weights: Seq<i16>, bias: Seq<i16>, s: BoardState, perspective: Color) -> Seq<i16> {
    Seq::new(HIDDEN as nat, |u: int| wrap16(bias[u] + lit_sum(weights, s, perspective, u, INPUTS as int)))
}

/// A network's evaluation of a position, its accumulators computed from
/// scratch: what [`Network::evaluate`] gives on [`Network::refresh`].
pub open spec fn position_eval(weights: Seq<i16>, bias: Seq<i16>, output: Seq<i16>, output_bias: i16, s: BoardState) -> i32 {
    output_of(
        dot_spec(accumulator_of(weights, bias, s, s.side), output, 0, HIDDEN as int) + dot_spec(
            accumulator_of(weights, bias, s, opposite(s.side)),
            output,
            HIDDEN as int,
            HIDDEN as int,
        ),
        output_bias as int,
    )
}

/// A position and its mirror image — colors exchanged, board turned over,
/// the other side to move — evaluate alike, whatever the weights: each side
/// sees itself as white.
pub proof fn lemma_mirror_evaluates_alike(
    weights: Seq<i16>,
    bias: Seq<i16>,
    output: Seq<i16>,
    output_bias: i16,
    s: BoardState,
    t: BoardState,
)
    requires
        mirrored(s, t),
    ensures
        accumulator_of(weights, bias, t, t.side) == accumulator_of(weights, bias, s, s.side),
        accumulator_of(weights, bias, t, opposite(t.side)) == accumulator_of(
            weights,
            bias,
            s,
            opposite(s.side),
        ),
        position_eval(weights, bias, output, output_bias, t) == position_eval(
            weights,
            bias,
            output,
            output_bias,
            s,
        ),
{
    assert forall|u: int| 0 <= u < HIDDEN implies lit_sum(weights, t, opposite(s.side), u, INPUTS as int)
        == lit_sum(weights, s, s.side, u, INPUTS as int) by {
        lemma_lit_sum_mirrored(weights, s, t, s.side, u, INPUTS as int);
    }
    assert forall|u: int| 0 <= u < HIDDEN implies lit_sum(
        weights,
        t,
        opposite(opposite(s.side)),
        u,
        INPUTS as int,
    ) == lit_sum(weights, s, opposite(s.side), u, INPUTS as int) by {
        lemma_lit_sum_mirrored(weights, s, t, opposite(s.side), u, INPUTS as int);
    }
    assert(opposite(opposite(s.side)) == s.side);
    assert(accumulator_of(weights, bias, t, t.side) =~= accumulator_of(weights, bias, s, s.side));
    assert(accumulator_of(weights, bias, t, opposite(t.side)) =~= accumulator_of(
        weights,
        bias,
        s,
        opposite(s.side),
    ));
}

// ---------------------------------------------------------------------------
// The incremental update against the refresh.
// ---------------------------------------------------------------------------

/// `1` for true, `0` for false.
pub open spec fn indicator(b: bool) -> int {
    if b {
        1
    } else {
        0
    }
}

/// How many times the first `n` changes of `cs` put the piece
/// `(color, piece)` down on `square`, minus how many times they take it off.
pub open spec fn net_changes(cs: Seq<Change>, color: Color, piece: Piece, square: int, n: int) -> int
    decreases n,
{
    if n <= 0 {
        0
    } else {
        net_changes(cs, color, piece, square, n - 1) + if cs[n - 1].color == color && cs[n - 1].piece
            == piece && cs[n - 1].square == square {
            if cs[n - 1].added {
                1int
            } else {
                -1int
            }
        } else {
            0int
        }
    }
}

/// Whether `t` holds the pieces of `s`, with those that `cs` takes off
/// removed and those it puts down added — every change on a square of the
/// board.
pub open spec fn placed_after(s: BoardState, t: BoardState, cs: Seq<Change>) -> bool {
    &&& forall|i: int| 0 <= i < cs.len() ==> (#[trigger] cs[i]).square < 64
    &&& forall|c: Color, p: Piece, sq: int|
        0 <= sq < 64 ==> #[trigger] indicator(holds(t.colored(c, p), sq)) == indicator(
            holds(s.colored(c, p), sq),
        ) + net_changes(cs, c, p, sq, cs.len() as int)
}

/// The sum over the first `n` inputs of `g(f)` times the input's weight for
/// a hidden unit.
spec fn weighted(g: spec_fn(int) -> int, weights: Seq<i16>, unit: int, n: int) -> int
    decreases n,
{
    if n <= 0 {
        0
    } else {
        weighted(g, weights, unit, n - 1) + g(n - 1) * weights[(n - 1) * 128 + unit]
    }
}

/// The net changes of the piece an input stands for.
spec fn net_of_input(cs: Seq<Change>, perspective: Color, k: int) -> spec_fn(int) -> int {
    |f: int|
        net_changes(
            cs,
            decode(perspective, f).0,
            decode(perspective, f).1,
            decode(perspective, f).2,
            k,
        )
}

proof fn lemma_weighted_sum(
    g: spec_fn(int) -> int,
    h: spec_fn(int) -> int,
    sum: spec_fn(int) -> int,
    weights: Seq<i16>,
    unit: int,
    n: int,
)
    requires
        forall|f: int| 0 <= f < n ==> #[trigger] sum(f) == g(f) + h(f),
    ensures
        weighted(sum, weights, unit, n) == weighted(g, weights, unit, n) + weighted(h, weights, unit, n),
    decreases n,
{
    if n > 0 {
        lemma_weighted_sum(g, h, sum, weights, unit, n - 1);
        let f = n - 1;
        let w = weights[f * 128 + unit] as int;
        assert(sum(f) * w == g(f) * w + h(f) * w) by (nonlinear_arith)
            requires
                sum(f) == g(f) + h(f),
        ;
    }
}

proof fn lemma_weighted_point(g: spec_fn(int) -> int, weights: Seq<i16>, unit: int, n: int, at: int, c: int)
    requires
        forall|f: int| 0 <= f < n ==> #[trigger] g(f) == if f == at {
            c
        } else {
            0
        },
    ensures
        weighted(g, weights, unit, n) == if 0 <= at < n {
            c * weights[at * 128 + unit]
        } else {
            0
        },
    decreases n,
{
    if n > 0 {
        lemma_weighted_point(g, weights, unit, n - 1, at, c);
    }
}

proof fn lemma_weighted_zero(g: spec_fn(int) -> int, weights: Seq<i16>, unit: int, n: int)
    requires
        forall|f: int| 0 <= f < n ==> #[trigger] g(f) == 0,
    ensures
        weighted(g, weights, unit, n) == 0,
    decreases n,
{
    if n > 0 {
        lemma_weighted_zero(g, weights, unit, n - 1);
    }
}

/// The lit inputs of `t` against those of `s` are the net changes.
proof fn lemma_lit_difference(
    weights: Seq<i16>,
    s: BoardState,
    t: BoardState,
    cs: Seq<Change>,
    perspective: Color,
    unit: int,
    n: int,
)
    requires
        placed_after(s, t, cs),
        0 <= n <= INPUTS,
    ensures
        lit_sum(weights, t, perspective, unit, n) - lit_sum(weights, s, perspective, unit, n)
            == weighted(net_of_input(cs, perspective, cs.len() as int), weights, unit, n),
    decreases n,
{
    if n > 0 {
        lemma_lit_difference(weights, s, t, cs, perspective, unit, n - 1);
        let f = n - 1;
        let d = decode(perspective, f);
        lemma_decode(perspective, f, d.0, d.1, d.2);
        lemma_active_decoded(s, perspective, f);
        lemma_active_decoded(t, perspective, f);
        assert(indicator(holds(t.colored(d.0, d.1), d.2)) == indicator(holds(s.colored(d.0, d.1), d.2))
            + net_changes(cs, d.0, d.1, d.2, cs.len() as int));
        let g = net_of_input(cs, perspective, cs.len() as int);
        assert(g(f) == net_changes(cs, d.0, d.1, d.2, cs.len() as int));
        let w = weights[f * 128 + unit] as int;
        let a = indicator(active(t, perspective, f));
        let b = indicator(active(s, perspective, f));
        assert(a - b == g(f));
        assert((if active(t, perspective, f) {
            w
        } else {
            0int
        }) == a * w);
        assert((if active(s, perspective, f) {
            w
        } else {
            0int
        }) == b * w);
        assert(a * w - b * w == (a - b) * w) by (nonlinear_arith);
        assert(weighted(g, weights, unit, n) == weighted(g, weights, unit, n - 1) + g(f) * w);
    }
}

/// The changes' terms are the net changes, input by input.
proof fn lemma_changes_by_input(weights: Seq<i16>, cs: Seq<Change>, perspective: Color, unit: int, k: int)
    requires
        0 <= k <= cs.len(),
        forall|i: int| 0 <= i < cs.len() ==> (#[trigger] cs[i]).square < 64,
    ensures
        change_sum(weights, cs, perspective, unit, k) == weighted(
            net_of_input(cs, perspective, k),
            weights,
            unit,
            INPUTS as int,
        ),
    decreases k,
{
    if k == 0 {
        lemma_weighted_zero(net_of_input(cs, perspective, 0), weights, unit, INPUTS as int);
    } else {
        lemma_changes_by_input(weights, cs, perspective, unit, k - 1);
        let c = cs[k - 1];
        assert(c.square < 64);
        let at = feature_spec(perspective, c.color, c.piece, c.square as int);
        let sign = if c.added {
            1int
        } else {
            -1int
        };
        let point = |f: int| if f == at {
            sign
        } else {
            0int
        };
        assert forall|f: int| 0 <= f < INPUTS implies #[trigger] point(f) == (if f == at {
            sign
        } else {
            0int
        }) by {}
        assert forall|f: int| 0 <= f < INPUTS implies #[trigger] net_of_input(cs, perspective, k)(f)
            == net_of_input(cs, perspective, k - 1)(f) + point(f) by {
            let d = decode(perspective, f);
            lemma_decode(perspective, f, c.color, c.piece, c.square as int);
        }
        lemma_weighted_sum(
            net_of_input(cs, perspective, k - 1),
            point,
            net_of_input(cs, perspective, k),
            weights,
            unit,
            INPUTS as int,
        );
        lemma_decode(perspective, 0, c.color, c.piece, c.square as int);
        lemma_weighted_point(point, weights, unit, INPUTS as int, at, sign);
        assert(change_term(weights, c, perspective, unit) == sign * weights[at * 128 + unit]);
    }
}

/// Applying to the accumulators of `s` the changes that lead to `t` gives
/// the accumulators of `t` computed from scratch: the incremental update of
/// [`Network::apply_move`] agrees with [`Network::refresh`], for each side
/// and each hidden unit, in sixteen-bit arithmetic as in the engine.
pub proof fn lemma_incremental_matches_refresh(
    weights: Seq<i16>,
    bias: Seq<i16>,
    s: BoardState,
    t: BoardState,
    cs: Seq<Change>,
)
    requires
        placed_after(s, t, cs),
    ensures
        forall|perspective: Color, u: int|
            0 <= u < HIDDEN ==> wrap16(
                #[trigger] accumulator_of(weights, bias, s, perspective)[u] + change_sum(
                    weights,
                    cs,
                    perspective,
                    u,
                    cs.len() as int,
                ),
            ) == accumulator_of(weights, bias, t, perspective)[u],
{
    assert forall|perspective: Color, u: int| 0 <= u < HIDDEN implies wrap16(
        #[trigger] accumulator_of(weights, bias, s, perspective)[u] + change_sum(
            weights,
            cs,
            perspective,
            u,
            cs.len() as int,
        ),
    ) == accumulator_of(weights, bias, t, perspective)[u] by {
        lemma_lit_difference(weights, s, t, cs, perspective, u, INPUTS as int);
        lemma_changes_by_input(weights, cs, perspective, u, cs.len() as int);
        lemma_wrap16_add(
            bias[u] + lit_sum(weights, s, perspective, u, INPUTS as int),
            change_sum(weights, cs, perspective, u, cs.len() as int),
        );
    }
}

} // verus!
