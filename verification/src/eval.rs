//! Static evaluation of a position, and the score scale the search shares
//! with it.
//!
//! Material, piece-square tables, the bishop pair and mobility, each counted
//! twice — for the middlegame and for the endgame — and the two blended by
//! the material left on the board. A king must hide in the middlegame and
//! centralise in the endgame; a pawn is worth more near promotion: one table
//! cannot say both.
//!
//! The values are conventional, chosen to be sane rather than tuned.
//!
//! The tables are written from White's side in the visual order of a board:
//! the first row is the eighth rank, the last row the first.
use vstd::prelude::*;

use crate::attacks::{
    bishop_attacks, knight_attacks, rook_attacks, spec_bishop_attacks, spec_knight_attacks,
    spec_rook_attacks,
};
use crate::bitboard::{
    contains, count, holds, lemma_count_at_most_one, lemma_count_bounds, lemma_ops,
    lemma_zero_holds_none, popcount,
};
use crate::board::{BoardState, Chessboard};
use crate::nnue::tdiv;
use crate::types::{color_idx, file_of, opposite, rank_of, Color, Piece};

verus! {

/// The score of a mate. Large enough to dominate any material count, small
/// enough that no addition overflows an `i32`.
pub const MATE: i32 = 30_000;

/// Beyond this threshold, a score encodes a mate and not an evaluation: a
/// mate is always announced as `±(MATE - ply)` with `ply` bounded by the
/// search depth.
pub const MATE_THRESHOLD: i32 = MATE - 1_000;

/// The score of a drawn position.
pub const DRAW: i32 = 0;

/// Initial bound of a window: one above `i32::MIN` so that negating it never
/// overflows.
pub const INFINITY: i32 = i32::MAX - 1;

/// The sum of the phase weights in the starting position: four knights, four
/// bishops, four rooks, two queens.
pub const PHASE_TOTAL: i32 = 24;

/// Material value in the middlegame.
pub open spec fn midgame_value(piece: Piece) -> int {
    match piece {
        Piece::Pawn => 100,
        Piece::Knight => 320,
        Piece::Bishop => 335,
        Piece::Rook => 500,
        Piece::Queen => 980,
        Piece::King => 0,
    }
}

/// Material value in the endgame: pawns rise, knights fall.
pub open spec fn endgame_value(piece: Piece) -> int {
    match piece {
        Piece::Pawn => 130,
        Piece::Knight => 310,
        Piece::Bishop => 340,
        Piece::Rook => 540,
        Piece::Queen => 1000,
        Piece::King => 0,
    }
}

/// The weight of a piece in the game phase.
pub open spec fn phase_weight(piece: Piece) -> int {
    match piece {
        Piece::Knight => 1,
        Piece::Bishop => 1,
        Piece::Rook => 2,
        Piece::Queen => 4,
        _ => 0,
    }
}

/// The value of one reachable square, middlegame. The rook is paid more in
/// the endgame, where files open; the queen little anywhere, her raw
/// mobility being large and uninformative. Pawns and kings count nothing.
pub open spec fn mobility_midgame(piece: Piece) -> int {
    match piece {
        Piece::Knight => 4,
        Piece::Bishop => 3,
        Piece::Rook => 2,
        Piece::Queen => 1,
        _ => 0,
    }
}

/// The value of one reachable square, endgame.
pub open spec fn mobility_endgame(piece: Piece) -> int {
    match piece {
        Piece::Knight => 4,
        Piece::Bishop => 3,
        Piece::Rook => 4,
        Piece::Queen => 2,
        _ => 0,
    }
}

/// The bishop pair bonus: two bishops cover both colours of squares.
pub const BISHOP_PAIR_MIDGAME: i32 = 30;

/// The bishop pair bonus in the endgame.
pub const BISHOP_PAIR_ENDGAME: i32 = 45;

/// Pawn squares in the middlegame.
pub open spec fn pawn_midgame() -> Seq<int> {
    seq![
           0,    0,    0,    0,    0,    0,    0,    0,
          50,   50,   50,   50,   50,   50,   50,   50,
          10,   10,   20,   30,   30,   20,   10,   10,
           5,    5,   10,   25,   25,   10,    5,    5,
           0,    0,    0,   20,   20,    0,    0,    0,
           5,   -5,  -10,    0,    0,  -10,   -5,    5,
           5,   10,   10,  -20,  -20,   10,   10,    5,
           0,    0,    0,    0,    0,    0,    0,    0,
    ]
}

/// Pawn squares in the endgame: the closer to promotion, the more.
pub open spec fn pawn_endgame() -> Seq<int> {
    seq![
           0,    0,    0,    0,    0,    0,    0,    0,
          90,   90,   90,   90,   90,   90,   90,   90,
          55,   55,   55,   55,   55,   55,   55,   55,
          30,   30,   30,   30,   30,   30,   30,   30,
          20,   20,   20,   20,   20,   20,   20,   20,
          10,   10,   10,   10,   10,   10,   10,   10,
           5,    5,    5,    5,    5,    5,    5,    5,
           0,    0,    0,    0,    0,    0,    0,    0,
    ]
}

/// Knight squares, both phases.
pub open spec fn knight_squares() -> Seq<int> {
    seq![
         -50,  -40,  -30,  -30,  -30,  -30,  -40,  -50,
         -40,  -20,    0,    0,    0,    0,  -20,  -40,
         -30,    0,   10,   15,   15,   10,    0,  -30,
         -30,    5,   15,   20,   20,   15,    5,  -30,
         -30,    0,   15,   20,   20,   15,    0,  -30,
         -30,    5,   10,   15,   15,   10,    5,  -30,
         -40,  -20,    0,    5,    5,    0,  -20,  -40,
         -50,  -40,  -30,  -30,  -30,  -30,  -40,  -50,
    ]
}

/// Bishop squares, both phases.
pub open spec fn bishop_squares() -> Seq<int> {
    seq![
         -20,  -10,  -10,  -10,  -10,  -10,  -10,  -20,
         -10,    0,    0,    0,    0,    0,    0,  -10,
         -10,    0,    5,   10,   10,    5,    0,  -10,
         -10,    5,    5,   10,   10,    5,    5,  -10,
         -10,    0,   10,   10,   10,   10,    0,  -10,
         -10,   10,   10,   10,   10,   10,   10,  -10,
         -10,    5,    0,    0,    0,    0,    5,  -10,
         -20,  -10,  -10,  -10,  -10,  -10,  -10,  -20,
    ]
}

/// Rook squares, both phases.
pub open spec fn rook_squares() -> Seq<int> {
    seq![
           0,    0,    0,    0,    0,    0,    0,    0,
           5,   10,   10,   10,   10,   10,   10,    5,
          -5,    0,    0,    0,    0,    0,    0,   -5,
          -5,    0,    0,    0,    0,    0,    0,   -5,
          -5,    0,    0,    0,    0,    0,    0,   -5,
          -5,    0,    0,    0,    0,    0,    0,   -5,
          -5,    0,    0,    0,    0,    0,    0,   -5,
           0,    0,    0,    5,    5,    5,    0,    0,
    ]
}

/// Queen squares, both phases.
pub open spec fn queen_squares() -> Seq<int> {
    seq![
         -20,  -10,  -10,   -5,   -5,  -10,  -10,  -20,
         -10,    0,    0,    0,    0,    0,    0,  -10,
         -10,    0,    5,    5,    5,    5,    0,  -10,
          -5,    0,    5,    5,    5,    5,    0,   -5,
           0,    0,    5,    5,    5,    5,    0,   -5,
         -10,    5,    5,    5,    5,    5,    0,  -10,
         -10,    0,    5,    0,    0,    0,    0,  -10,
         -20,  -10,  -10,   -5,   -5,  -10,  -10,  -20,
    ]
}

/// King squares in the middlegame: stay behind the pawns, castle.
pub open spec fn king_midgame() -> Seq<int> {
    seq![
         -30,  -40,  -40,  -50,  -50,  -40,  -40,  -30,
         -30,  -40,  -40,  -50,  -50,  -40,  -40,  -30,
         -30,  -40,  -40,  -50,  -50,  -40,  -40,  -30,
         -30,  -40,  -40,  -50,  -50,  -40,  -40,  -30,
         -20,  -30,  -30,  -40,  -40,  -30,  -30,  -20,
         -10,  -20,  -20,  -20,  -20,  -20,  -20,  -10,
          20,   20,    0,    0,    0,    0,   20,   20,
          20,   30,   10,    0,    0,   10,   30,   20,
    ]
}

/// King squares in the endgame: centralise, the king is an active piece.
pub open spec fn king_endgame() -> Seq<int> {
    seq![
         -50,  -40,  -30,  -20,  -20,  -30,  -40,  -50,
         -30,  -20,  -10,    0,    0,  -10,  -20,  -30,
         -30,  -10,   20,   30,   30,   20,  -10,  -30,
         -30,  -10,   30,   40,   40,   30,  -10,  -30,
         -30,  -10,   30,   40,   40,   30,  -10,  -30,
         -30,  -10,   20,   30,   30,   20,  -10,  -30,
         -30,  -30,    0,    0,    0,    0,  -30,  -30,
         -50,  -30,  -30,  -30,  -30,  -30,  -30,  -50,
    ]
}
fn pawn_midgame_array() -> (r: [i32; 64])
    ensures
        r@.map_values(|v: i32| v as int) == pawn_midgame(),
{
    let table: [i32; 64] = [
           0,    0,    0,    0,    0,    0,    0,    0,
          50,   50,   50,   50,   50,   50,   50,   50,
          10,   10,   20,   30,   30,   20,   10,   10,
           5,    5,   10,   25,   25,   10,    5,    5,
           0,    0,    0,   20,   20,    0,    0,    0,
           5,   -5,  -10,    0,    0,  -10,   -5,    5,
           5,   10,   10,  -20,  -20,   10,   10,    5,
           0,    0,    0,    0,    0,    0,    0,    0,
    ];
    proof {
        assert(table@.map_values(|v: i32| v as int) =~= pawn_midgame());
    }
    table
}

fn pawn_endgame_array() -> (r: [i32; 64])
    ensures
        r@.map_values(|v: i32| v as int) == pawn_endgame(),
{
    let table: [i32; 64] = [
           0,    0,    0,    0,    0,    0,    0,    0,
          90,   90,   90,   90,   90,   90,   90,   90,
          55,   55,   55,   55,   55,   55,   55,   55,
          30,   30,   30,   30,   30,   30,   30,   30,
          20,   20,   20,   20,   20,   20,   20,   20,
          10,   10,   10,   10,   10,   10,   10,   10,
           5,    5,    5,    5,    5,    5,    5,    5,
           0,    0,    0,    0,    0,    0,    0,    0,
    ];
    proof {
        assert(table@.map_values(|v: i32| v as int) =~= pawn_endgame());
    }
    table
}

fn knight_squares_array() -> (r: [i32; 64])
    ensures
        r@.map_values(|v: i32| v as int) == knight_squares(),
{
    let table: [i32; 64] = [
         -50,  -40,  -30,  -30,  -30,  -30,  -40,  -50,
         -40,  -20,    0,    0,    0,    0,  -20,  -40,
         -30,    0,   10,   15,   15,   10,    0,  -30,
         -30,    5,   15,   20,   20,   15,    5,  -30,
         -30,    0,   15,   20,   20,   15,    0,  -30,
         -30,    5,   10,   15,   15,   10,    5,  -30,
         -40,  -20,    0,    5,    5,    0,  -20,  -40,
         -50,  -40,  -30,  -30,  -30,  -30,  -40,  -50,
    ];
    proof {
        assert(table@.map_values(|v: i32| v as int) =~= knight_squares());
    }
    table
}

fn bishop_squares_array() -> (r: [i32; 64])
    ensures
        r@.map_values(|v: i32| v as int) == bishop_squares(),
{
    let table: [i32; 64] = [
         -20,  -10,  -10,  -10,  -10,  -10,  -10,  -20,
         -10,    0,    0,    0,    0,    0,    0,  -10,
         -10,    0,    5,   10,   10,    5,    0,  -10,
         -10,    5,    5,   10,   10,    5,    5,  -10,
         -10,    0,   10,   10,   10,   10,    0,  -10,
         -10,   10,   10,   10,   10,   10,   10,  -10,
         -10,    5,    0,    0,    0,    0,    5,  -10,
         -20,  -10,  -10,  -10,  -10,  -10,  -10,  -20,
    ];
    proof {
        assert(table@.map_values(|v: i32| v as int) =~= bishop_squares());
    }
    table
}

fn rook_squares_array() -> (r: [i32; 64])
    ensures
        r@.map_values(|v: i32| v as int) == rook_squares(),
{
    let table: [i32; 64] = [
           0,    0,    0,    0,    0,    0,    0,    0,
           5,   10,   10,   10,   10,   10,   10,    5,
          -5,    0,    0,    0,    0,    0,    0,   -5,
          -5,    0,    0,    0,    0,    0,    0,   -5,
          -5,    0,    0,    0,    0,    0,    0,   -5,
          -5,    0,    0,    0,    0,    0,    0,   -5,
          -5,    0,    0,    0,    0,    0,    0,   -5,
           0,    0,    0,    5,    5,    5,    0,    0,
    ];
    proof {
        assert(table@.map_values(|v: i32| v as int) =~= rook_squares());
    }
    table
}

fn queen_squares_array() -> (r: [i32; 64])
    ensures
        r@.map_values(|v: i32| v as int) == queen_squares(),
{
    let table: [i32; 64] = [
         -20,  -10,  -10,   -5,   -5,  -10,  -10,  -20,
         -10,    0,    0,    0,    0,    0,    0,  -10,
         -10,    0,    5,    5,    5,    5,    0,  -10,
          -5,    0,    5,    5,    5,    5,    0,   -5,
           0,    0,    5,    5,    5,    5,    0,   -5,
         -10,    5,    5,    5,    5,    5,    0,  -10,
         -10,    0,    5,    0,    0,    0,    0,  -10,
         -20,  -10,  -10,   -5,   -5,  -10,  -10,  -20,
    ];
    proof {
        assert(table@.map_values(|v: i32| v as int) =~= queen_squares());
    }
    table
}

fn king_midgame_array() -> (r: [i32; 64])
    ensures
        r@.map_values(|v: i32| v as int) == king_midgame(),
{
    let table: [i32; 64] = [
         -30,  -40,  -40,  -50,  -50,  -40,  -40,  -30,
         -30,  -40,  -40,  -50,  -50,  -40,  -40,  -30,
         -30,  -40,  -40,  -50,  -50,  -40,  -40,  -30,
         -30,  -40,  -40,  -50,  -50,  -40,  -40,  -30,
         -20,  -30,  -30,  -40,  -40,  -30,  -30,  -20,
         -10,  -20,  -20,  -20,  -20,  -20,  -20,  -10,
          20,   20,    0,    0,    0,    0,   20,   20,
          20,   30,   10,    0,    0,   10,   30,   20,
    ];
    proof {
        assert(table@.map_values(|v: i32| v as int) =~= king_midgame());
    }
    table
}

fn king_endgame_array() -> (r: [i32; 64])
    ensures
        r@.map_values(|v: i32| v as int) == king_endgame(),
{
    let table: [i32; 64] = [
         -50,  -40,  -30,  -20,  -20,  -30,  -40,  -50,
         -30,  -20,  -10,    0,    0,  -10,  -20,  -30,
         -30,  -10,   20,   30,   30,   20,  -10,  -30,
         -30,  -10,   30,   40,   40,   30,  -10,  -30,
         -30,  -10,   30,   40,   40,   30,  -10,  -30,
         -30,  -10,   20,   30,   30,   20,  -10,  -30,
         -30,  -30,    0,    0,    0,    0,  -30,  -30,
         -50,  -30,  -30,  -30,  -30,  -30,  -30,  -50,
    ];
    proof {
        assert(table@.map_values(|v: i32| v as int) =~= king_endgame());
    }
    table
}
/// The middlegame table of a piece kind.
pub open spec fn table_midgame(piece: Piece) -> Seq<int> {
    match piece {
        Piece::Pawn => pawn_midgame(),
        Piece::Knight => knight_squares(),
        Piece::Bishop => bishop_squares(),
        Piece::Rook => rook_squares(),
        Piece::Queen => queen_squares(),
        Piece::King => king_midgame(),
    }
}

/// The endgame table of a piece kind.
pub open spec fn table_endgame(piece: Piece) -> Seq<int> {
    match piece {
        Piece::Pawn => pawn_endgame(),
        Piece::Knight => knight_squares(),
        Piece::Bishop => bishop_squares(),
        Piece::Rook => rook_squares(),
        Piece::Queen => queen_squares(),
        Piece::King => king_endgame(),
    }
}

/// Every table has a value for each square, none beyond a pawn's worth.
pub proof fn lemma_tables(piece: Piece)
    ensures
        table_midgame(piece).len() == 64,
        table_endgame(piece).len() == 64,
        forall|i: int| 0 <= i < 64 ==> -50 <= #[trigger] table_midgame(piece)[i] <= 50,
        forall|i: int| 0 <= i < 64 ==> -50 <= #[trigger] table_endgame(piece)[i] <= 90,
{
}

/// The row of a square's entry in a table: White reads the table from the
/// bottom, Black from the top, which mirrors the values without copying them.
pub open spec fn pst_index_spec(square: int, color: Color) -> int {
    let row = match color {
        Color::White => 7 - rank_of(square),
        Color::Black => rank_of(square),
    };
    row * 8 + file_of(square)
}

/// The index of a square in a table written in visual order.
pub fn pst_index(square: u8, color: Color) -> (r: usize)
    requires
        square < 64,
    ensures
        r == pst_index_spec(square as int, color),
        r < 64,
{
    let file = crate::types::file(square) as usize;
    let rank = crate::types::rank(square) as usize;
    let row = match color {
        Color::White => 7 - rank,
        Color::Black => rank,
    };
    row * 8 + file
}

/// The middlegame table of a piece kind.
pub fn midgame_table(piece: Piece) -> (r: [i32; 64])
    ensures
        r@.map_values(|v: i32| v as int) == table_midgame(piece),
{
    match piece {
        Piece::Pawn => pawn_midgame_array(),
        Piece::Knight => knight_squares_array(),
        Piece::Bishop => bishop_squares_array(),
        Piece::Rook => rook_squares_array(),
        Piece::Queen => queen_squares_array(),
        Piece::King => king_midgame_array(),
    }
}

/// The endgame table of a piece kind.
pub fn endgame_table(piece: Piece) -> (r: [i32; 64])
    ensures
        r@.map_values(|v: i32| v as int) == table_endgame(piece),
{
    match piece {
        Piece::Pawn => pawn_endgame_array(),
        Piece::Knight => knight_squares_array(),
        Piece::Bishop => bishop_squares_array(),
        Piece::Rook => rook_squares_array(),
        Piece::Queen => queen_squares_array(),
        Piece::King => king_endgame_array(),
    }
}

/// What the men of one kind and side on the squares `0..n` are worth in the
/// middlegame: material plus table.
pub open spec fn placement_midgame(s: BoardState, color: Color, piece: Piece, n: int) -> int
    decreases n,
{
    if n <= 0 {
        0
    } else {
        placement_midgame(s, color, piece, n - 1) + if holds(s.colored(color, piece), n - 1) {
            midgame_value(piece) + table_midgame(piece)[pst_index_spec(n - 1, color)]
        } else {
            0
        }
    }
}

/// What the men of one kind and side on the squares `0..n` are worth in the
/// endgame.
pub open spec fn placement_endgame(s: BoardState, color: Color, piece: Piece, n: int) -> int
    decreases n,
{
    if n <= 0 {
        0
    } else {
        placement_endgame(s, color, piece, n - 1) + if holds(s.colored(color, piece), n - 1) {
            endgame_value(piece) + table_endgame(piece)[pst_index_spec(n - 1, color)]
        } else {
            0
        }
    }
}

/// The worth of the men of one kind and side, middlegame then endgame.
fn placement(board: &Chessboard, color: Color, piece: Piece) -> (r: (i32, i32))
    ensures
        r.0 == placement_midgame(board@, color, piece, 64),
        r.1 == placement_endgame(board@, color, piece, 64),
        -50 * 64 <= r.0 <= 1100 * 64,
        -50 * 64 <= r.1 <= 1100 * 64,
{
    let ghost s = board@;
    let mg_table = midgame_table(piece);
    let eg_table = endgame_table(piece);
    let (mg_value, eg_value): (i32, i32) = match piece {
        Piece::Pawn => (100, 130),
        Piece::Knight => (320, 310),
        Piece::Bishop => (335, 340),
        Piece::Rook => (500, 540),
        Piece::Queen => (980, 1000),
        Piece::King => (0, 0),
    };
    let set = board.colored_pieces(color, piece);
    let mut midgame: i32 = 0;
    let mut endgame: i32 = 0;
    let mut square: u8 = 0;
    proof {
        lemma_tables(piece);
    }
    while square < 64
        invariant
            square <= 64,
            set == s.colored(color, piece),
            mg_value == midgame_value(piece),
            eg_value == endgame_value(piece),
            mg_table@.map_values(|v: i32| v as int) == table_midgame(piece),
            eg_table@.map_values(|v: i32| v as int) == table_endgame(piece),
            forall|i: int| 0 <= i < 64 ==> -50 <= #[trigger] table_midgame(piece)[i] <= 50,
            forall|i: int| 0 <= i < 64 ==> -50 <= #[trigger] table_endgame(piece)[i] <= 90,
            midgame == placement_midgame(s, color, piece, square as int),
            endgame == placement_endgame(s, color, piece, square as int),
            -50 * square <= midgame <= 1100 * square,
            -50 * square <= endgame <= 1100 * square,
        decreases 64 - square,
    {
        if contains(set, square) {
            let index = pst_index(square, color);
            proof {
                assert(mg_table@.map_values(|v: i32| v as int)[index as int] == mg_table[index as int]);
                assert(eg_table@.map_values(|v: i32| v as int)[index as int] == eg_table[index as int]);
            }
            midgame = midgame + mg_value + mg_table[index];
            endgame = endgame + eg_value + eg_table[index];
        }
        square = square + 1;
    }
    (midgame, endgame)
}

/// The squares a piece of a kind on `square` reaches, given the occupancy;
/// nothing for pawns and kings, whose mobility is not counted.
pub open spec fn reach(piece: Piece, square: u8, occupied: u64) -> u64 {
    match piece {
        Piece::Knight => spec_knight_attacks(square),
        Piece::Bishop => spec_bishop_attacks(square, occupied),
        Piece::Rook => spec_rook_attacks(square, occupied),
        Piece::Queen => spec_bishop_attacks(square, occupied) | spec_rook_attacks(square, occupied),
        _ => 0,
    }
}

/// The squares reachable by the men of one kind and side standing on `0..n`,
/// counted with multiplicity: attacked and not held by their own side.
/// Squares the enemy defends count too — a choice, not an omission.
pub open spec fn reachable(s: BoardState, color: Color, piece: Piece, n: int) -> int
    decreases n,
{
    if n <= 0 {
        0
    } else {
        reachable(s, color, piece, n - 1) + if holds(s.colored(color, piece), n - 1) {
            popcount(reach(piece, (n - 1) as u8, s.occupied()) & !s.colors[color_idx(color)])
        } else {
            0
        }
    }
}

/// The squares reachable by the men of one kind and side.
fn reachable_squares(board: &Chessboard, color: Color, piece: Piece) -> (r: i32)
    ensures
        r == reachable(board@, color, piece, 64),
        0 <= r <= 64 * 64,
{
    let ghost s = board@;
    let occupied = board.occupied();
    let ours = board.colors(color);
    let set = board.colored_pieces(color, piece);
    let mut total: i32 = 0;
    let mut square: u8 = 0;
    while square < 64
        invariant
            square <= 64,
            set == s.colored(color, piece),
            occupied == s.occupied(),
            ours == s.colors[color_idx(color)],
            total == reachable(s, color, piece, square as int),
            0 <= total <= 64 * square,
        decreases 64 - square,
    {
        if contains(set, square) {
            let attacks = match piece {
                Piece::Knight => knight_attacks(square),
                Piece::Bishop => bishop_attacks(square, occupied),
                Piece::Rook => rook_attacks(square, occupied),
                Piece::Queen => bishop_attacks(square, occupied) | rook_attacks(square, occupied),
                _ => 0,
            };
            let seen = count(attacks & !ours);
            total = total + seen as i32;
        }
        square = square + 1;
    }
    total
}

/// The mobility of a side, middlegame.
pub open spec fn mobility_midgame_of(s: BoardState, color: Color) -> int {
    mobility_midgame(Piece::Knight) * reachable(s, color, Piece::Knight, 64) + mobility_midgame(
        Piece::Bishop,
    ) * reachable(s, color, Piece::Bishop, 64) + mobility_midgame(Piece::Rook) * reachable(
        s,
        color,
        Piece::Rook,
        64,
    ) + mobility_midgame(Piece::Queen) * reachable(s, color, Piece::Queen, 64)
}

/// The mobility of a side, endgame.
pub open spec fn mobility_endgame_of(s: BoardState, color: Color) -> int {
    mobility_endgame(Piece::Knight) * reachable(s, color, Piece::Knight, 64) + mobility_endgame(
        Piece::Bishop,
    ) * reachable(s, color, Piece::Bishop, 64) + mobility_endgame(Piece::Rook) * reachable(
        s,
        color,
        Piece::Rook,
        64,
    ) + mobility_endgame(Piece::Queen) * reachable(s, color, Piece::Queen, 64)
}

/// The reachable squares of a side weighted by piece kind, middlegame then
/// endgame.
///
/// A boxed-in piece is not worth an active one, and the tables cannot say
/// so: they judge the square, never what the piece sees from it.
pub fn mobility(board: &Chessboard, color: Color) -> (r: (i32, i32))
    ensures
        r.0 == mobility_midgame_of(board@, color),
        r.1 == mobility_endgame_of(board@, color),
        0 <= r.0 <= 10 * 4096,
        0 <= r.1 <= 13 * 4096,
{
    let knights = reachable_squares(board, color, Piece::Knight);
    let bishops = reachable_squares(board, color, Piece::Bishop);
    let rooks = reachable_squares(board, color, Piece::Rook);
    let queens = reachable_squares(board, color, Piece::Queen);
    (4 * knights + 3 * bishops + 2 * rooks + queens, 4 * knights + 3 * bishops + 4 * rooks + 2
        * queens)
}

/// The middlegame score of a side: its men, the bishop pair, its mobility.
pub open spec fn side_midgame(s: BoardState, color: Color) -> int {
    placement_midgame(s, color, Piece::Pawn, 64) + placement_midgame(s, color, Piece::Knight, 64)
        + placement_midgame(s, color, Piece::Bishop, 64) + placement_midgame(
        s,
        color,
        Piece::Rook,
        64,
    ) + placement_midgame(s, color, Piece::Queen, 64) + placement_midgame(
        s,
        color,
        Piece::King,
        64,
    ) + (if popcount(s.colored(color, Piece::Bishop)) >= 2 {
        BISHOP_PAIR_MIDGAME as int
    } else {
        0
    }) + mobility_midgame_of(s, color)
}

/// The endgame score of a side.
pub open spec fn side_endgame(s: BoardState, color: Color) -> int {
    placement_endgame(s, color, Piece::Pawn, 64) + placement_endgame(s, color, Piece::Knight, 64)
        + placement_endgame(s, color, Piece::Bishop, 64) + placement_endgame(
        s,
        color,
        Piece::Rook,
        64,
    ) + placement_endgame(s, color, Piece::Queen, 64) + placement_endgame(
        s,
        color,
        Piece::King,
        64,
    ) + (if popcount(s.colored(color, Piece::Bishop)) >= 2 {
        BISHOP_PAIR_ENDGAME as int
    } else {
        0
    }) + mobility_endgame_of(s, color)
}

/// The phase weight of a side's men.
pub open spec fn side_phase(s: BoardState, color: Color) -> int {
    phase_weight(Piece::Knight) * popcount(s.colored(color, Piece::Knight)) + phase_weight(
        Piece::Bishop,
    ) * popcount(s.colored(color, Piece::Bishop)) + phase_weight(Piece::Rook) * popcount(
        s.colored(color, Piece::Rook),
    ) + phase_weight(Piece::Queen) * popcount(s.colored(color, Piece::Queen))
}

/// The game phase: `PHASE_TOTAL` with all pieces on, `0` with none, capped
/// since promotions can exceed the starting total.
pub open spec fn game_phase(s: BoardState) -> int {
    let phase = side_phase(s, Color::White) + side_phase(s, Color::Black);
    if phase > PHASE_TOTAL {
        PHASE_TOTAL as int
    } else {
        phase
    }
}

/// The evaluation of a position, from the side to move's point of view: the
/// two phase scores blended by the phase, divided rounding toward zero.
pub open spec fn evaluate_spec(s: BoardState) -> int {
    let us = s.side;
    let them = opposite(s.side);
    let midgame = side_midgame(s, us) - side_midgame(s, them);
    let endgame = side_endgame(s, us) - side_endgame(s, them);
    let phase = game_phase(s);
    tdiv(midgame * phase + endgame * (PHASE_TOTAL - phase), PHASE_TOTAL as int)
}

/// The scores of a side, middlegame then endgame.
fn side_scores(board: &Chessboard, color: Color) -> (r: (i32, i32))
    ensures
        r.0 == side_midgame(board@, color),
        r.1 == side_endgame(board@, color),
        -6 * 3200 <= r.0 <= 6 * 70400 + 45 + 13 * 4096,
        -6 * 3200 <= r.1 <= 6 * 70400 + 45 + 13 * 4096,
{
    let mut midgame: i32 = 0;
    let mut endgame: i32 = 0;
    let (mg, eg) = placement(board, color, Piece::Pawn);
    midgame = midgame + mg;
    endgame = endgame + eg;
    let (mg, eg) = placement(board, color, Piece::Knight);
    midgame = midgame + mg;
    endgame = endgame + eg;
    let (mg, eg) = placement(board, color, Piece::Bishop);
    midgame = midgame + mg;
    endgame = endgame + eg;
    let (mg, eg) = placement(board, color, Piece::Rook);
    midgame = midgame + mg;
    endgame = endgame + eg;
    let (mg, eg) = placement(board, color, Piece::Queen);
    midgame = midgame + mg;
    endgame = endgame + eg;
    let (mg, eg) = placement(board, color, Piece::King);
    midgame = midgame + mg;
    endgame = endgame + eg;
    if count(board.colored_pieces(color, Piece::Bishop)) >= 2 {
        midgame = midgame + BISHOP_PAIR_MIDGAME;
        endgame = endgame + BISHOP_PAIR_ENDGAME;
    }
    let (mg, eg) = mobility(board, color);
    (midgame + mg, endgame + eg)
}

/// The phase weight of a side's men.
fn phase_of(board: &Chessboard, color: Color) -> (r: i32)
    ensures
        r == side_phase(board@, color),
        0 <= r <= 8 * 64,
{
    let knights = count(board.colored_pieces(color, Piece::Knight));
    let bishops = count(board.colored_pieces(color, Piece::Bishop));
    let rooks = count(board.colored_pieces(color, Piece::Rook));
    let queens = count(board.colored_pieces(color, Piece::Queen));
    (knights + bishops + 2 * rooks + 4 * queens) as i32
}

/// Evaluates the position **from the side to move's point of view**, in
/// centipawns: positive means the side to move is better. The negamax needs
/// exactly that convention — flipping the sign at each level alternates the
/// points of view.
pub fn evaluate(board: &Chessboard) -> (r: i32)
    ensures
        r == evaluate_spec(board@),
        -500_000 <= r <= 500_000,
{
    let us = board.side_to_move();
    let them = us.other();
    let (our_mg, our_eg) = side_scores(board, us);
    let (their_mg, their_eg) = side_scores(board, them);
    let midgame = our_mg - their_mg;
    let endgame = our_eg - their_eg;
    let total = phase_of(board, Color::White) + phase_of(board, Color::Black);
    let phase = if total > PHASE_TOTAL {
        PHASE_TOTAL
    } else {
        total
    };
    proof {
        assert(-1_000_000 <= midgame <= 1_000_000);
        assert(-1_000_000 <= endgame <= 1_000_000);
        assert(0 <= phase <= 24);
        assert(-24_000_000 <= midgame * phase <= 24_000_000) by (nonlinear_arith)
            requires
                -1_000_000 <= midgame <= 1_000_000,
                0 <= phase <= 24,
        ;
        assert(-24_000_000 <= endgame * (PHASE_TOTAL - phase) <= 24_000_000) by (nonlinear_arith)
            requires
                -1_000_000 <= endgame <= 1_000_000,
                0 <= phase <= 24,
        ;
        assert(-495_000 * 24 <= midgame * phase + endgame * (24 - phase) <= 495_000 * 24)
            by (nonlinear_arith)
            requires
                -495_000 <= midgame <= 495_000,
                -495_000 <= endgame <= 495_000,
                0 <= phase <= 24,
        ;
    }
    (midgame * phase + endgame * (PHASE_TOTAL - phase)) / PHASE_TOTAL
}

/// Whether neither side can ever mate: no pawn, rook or queen on the board,
/// and at most one minor piece in all (king against king, with a knight or
/// a bishop at most).
pub open spec fn insufficient_spec(s: BoardState) -> bool {
    &&& s.pieces[0] | s.pieces[3] | s.pieces[4] == 0
    &&& popcount(s.pieces[1] | s.pieces[2]) <= 1
}

/// Whether a square holds a pawn, a rook or a queen.
pub open spec fn mating_man_on(s: BoardState, square: int) -> bool {
    s.piece_at(square) == Some(Piece::Pawn) || s.piece_at(square) == Some(Piece::Rook)
        || s.piece_at(square) == Some(Piece::Queen)
}

/// Whether a square holds a knight or a bishop.
pub open spec fn minor_on(s: BoardState, square: int) -> bool {
    s.piece_at(square) == Some(Piece::Knight) || s.piece_at(square) == Some(Piece::Bishop)
}

/// The material is insufficient exactly when, square by square, no pawn,
/// rook or queen stands on the board and at most one square in all holds a
/// knight or a bishop, whichever of the two it is: king against king, alone
/// or with one minor piece.
pub proof fn lemma_insufficient_is_lone_minor(s: BoardState)
    requires
        s.wf(),
    ensures
        insufficient_spec(s) <==> ((forall|square: int|
            0 <= square < 64 ==> !#[trigger] mating_man_on(s, square)) && (forall|a: int, b: int|
            0 <= a < 64 && 0 <= b < 64 && #[trigger] minor_on(s, a) && #[trigger] minor_on(s, b)
                ==> a == b)),
{
    let p = s.pieces;
    let heavy = p[0] | p[3] | p[4];
    let minors = p[1] | p[2];
    assert forall|square: int|
        #![trigger mating_man_on(s, square)]
        #![trigger minor_on(s, square)]
        #![trigger holds(heavy, square)]
        #![trigger holds(minors, square)]
        0 <= square < 64 implies (mating_man_on(s, square) <==> holds(heavy, square)) && (minor_on(
            s,
            square,
        ) <==> holds(minors, square)) by {
        let q = square as u64;
        lemma_ops(p[0] | p[3], p[4], q);
        lemma_ops(p[0], p[3], q);
        lemma_ops(p[1], p[2], q);
        assert forall|i: int, j: int| 0 <= i < 6 && 0 <= j < 6 && i != j implies !(holds(p[i], square)
            && holds(p[j], square)) by {
            assert(p[i] & p[j] == 0);
            lemma_ops(p[i], p[j], q);
            crate::bitboard::lemma_empty(q);
        }
    }
    lemma_zero_holds_none(heavy);
    lemma_count_at_most_one(minors, 64);
    if forall|square: int| 0 <= square < 64 ==> !#[trigger] mating_man_on(s, square) {
        assert forall|square: int| 0 <= square < 64 implies !#[trigger] holds(heavy, square) by {
            assert(!mating_man_on(s, square));
        }
    }
    if forall|square: int| 0 <= square < 64 ==> !#[trigger] holds(heavy, square) {
        assert forall|square: int| 0 <= square < 64 implies !#[trigger] mating_man_on(s, square) by {
            assert(!holds(heavy, square));
        }
    }
    if forall|a: int, b: int|
        0 <= a < 64 && 0 <= b < 64 && #[trigger] minor_on(s, a) && #[trigger] minor_on(s, b) ==> a
            == b {
        assert forall|a: int, b: int|
            0 <= a < 64 && 0 <= b < 64 && #[trigger] holds(minors, a) && #[trigger] holds(minors, b)
                implies a == b by {
            assert(minor_on(s, a) && minor_on(s, b));
        }
    }
    if forall|a: int, b: int|
        0 <= a < 64 && 0 <= b < 64 && #[trigger] holds(minors, a) && #[trigger] holds(minors, b)
            ==> a == b {
        assert forall|a: int, b: int|
            0 <= a < 64 && 0 <= b < 64 && #[trigger] minor_on(s, a) && #[trigger] minor_on(s, b)
                implies a == b by {
            assert(holds(minors, a) && holds(minors, b));
        }
    }
}

/// Whether neither side has the material to mate.
pub fn is_insufficient_material(board: &Chessboard) -> (r: bool)
    ensures
        r == insufficient_spec(board@),
{
    board.pieces(Piece::Pawn) | board.pieces(Piece::Rook) | board.pieces(Piece::Queen) == 0
        && count(board.pieces(Piece::Knight) | board.pieces(Piece::Bishop)) <= 1
}

/// The placement and mobility terms read the placement alone.
proof fn lemma_same_placement(s: BoardState, t: BoardState, color: Color, piece: Piece, n: int)
    requires
        s.colors == t.colors,
        s.pieces == t.pieces,
    ensures
        placement_midgame(s, color, piece, n) == placement_midgame(t, color, piece, n),
        placement_endgame(s, color, piece, n) == placement_endgame(t, color, piece, n),
        reachable(s, color, piece, n) == reachable(t, color, piece, n),
    decreases n,
{
    if n > 0 {
        lemma_same_placement(s, t, color, piece, n - 1);
    }
}

/// The scores of a side read the placement alone.
proof fn lemma_same_side_scores(s: BoardState, t: BoardState, color: Color)
    requires
        s.colors == t.colors,
        s.pieces == t.pieces,
    ensures
        side_midgame(s, color) == side_midgame(t, color),
        side_endgame(s, color) == side_endgame(t, color),
{
    lemma_same_placement(s, t, color, Piece::Pawn, 64);
    lemma_same_placement(s, t, color, Piece::Knight, 64);
    lemma_same_placement(s, t, color, Piece::Bishop, 64);
    lemma_same_placement(s, t, color, Piece::Rook, 64);
    lemma_same_placement(s, t, color, Piece::Queen, 64);
    lemma_same_placement(s, t, color, Piece::King, 64);
}

/// The evaluation is antisymmetric in the side to move: the same placement
/// with the other side to move scores the opposite.
pub proof fn lemma_evaluate_turn_symmetry(s: BoardState)
    ensures
        evaluate_spec(BoardState { side: opposite(s.side), ..s }) == -evaluate_spec(s),
{
    let t = BoardState { side: opposite(s.side), ..s };
    lemma_same_side_scores(s, t, Color::White);
    lemma_same_side_scores(s, t, Color::Black);
    let m = side_midgame(s, s.side) - side_midgame(s, opposite(s.side));
    let e = side_endgame(s, s.side) - side_endgame(s, opposite(s.side));
    let p = game_phase(s);
    assert((-m) * p + (-e) * (24 - p) == -(m * p + e * (24 - p))) by (nonlinear_arith);
}

} // verus!
