//! Attack sets of the pieces, from the move generator's tables.
//!
//! Pure geometry: which squares a piece on a square attacks, sliding pieces
//! stopping at the first occupied square. Legality plays no part.
use vstd::prelude::*;

use crate::types::Color;

verus! {

/// The bit of the square `df` files and `dr` ranks away from `square`, or
/// no bit when that square lies off the board.
pub open spec fn step_bit(square: u8, df: int, dr: int) -> u64 {
    let file = square % 8 + df;
    let rank = square / 8 + dr;
    if 0 <= file < 8 && 0 <= rank < 8 {
        1u64 << ((rank * 8 + file) as u64)
    } else {
        0u64
    }
}

/// The squares a knight on `square` attacks: the eight leaps of one file and
/// two ranks, or two files and one rank, that stay on the board.
#[verifier::opaque]
pub open spec fn spec_knight_attacks(square: u8) -> u64 {
    step_bit(square, -1, 2) | step_bit(square, 1, 2) | step_bit(square, 2, 1) | step_bit(
        square,
        2,
        -1,
    ) | step_bit(square, 1, -2) | step_bit(square, -1, -2) | step_bit(square, -2, -1) | step_bit(
        square,
        -2,
        1,
    )
}

/// The squares a king on `square` attacks: the neighbouring squares.
#[verifier::opaque]
pub open spec fn spec_king_attacks(square: u8) -> u64 {
    step_bit(square, 0, 1) | step_bit(square, 1, 1) | step_bit(square, 1, 0) | step_bit(
        square,
        1,
        -1,
    ) | step_bit(square, 0, -1) | step_bit(square, -1, -1) | step_bit(square, -1, 0) | step_bit(
        square,
        -1,
        1,
    )
}

/// The squares a pawn of `color` on `square` attacks: one file aside and one
/// rank forward, up the board for White, down for Black.
#[verifier::opaque]
pub open spec fn spec_pawn_attacks(square: u8, color: Color) -> u64 {
    let forward: int = match color {
        Color::White => 1,
        Color::Black => -1,
    };
    step_bit(square, 1, forward) | step_bit(square, -1, forward)
}

/// The squares a bishop on `square` attacks, given the occupied squares
/// (`get_bishop_moves`).
pub uninterp spec fn spec_bishop_attacks(square: u8, occupied: u64) -> u64;

/// The squares a rook on `square` attacks, given the occupied squares
/// (`get_rook_moves`).
pub uninterp spec fn spec_rook_attacks(square: u8, occupied: u64) -> u64;

/// The squares a knight attacks (`get_knight_moves`, which ORs the board
/// squares among its eight knight offsets).
#[verifier::external_body]
pub(crate) fn knight_attacks(square: u8) -> (r: u64)
    requires
        square < 64,
    ensures
        r == spec_knight_attacks(square),
{
    cozy_chess::get_knight_moves(cozy_chess::Square::index(square as usize)).0
}

/// The squares a king attacks (`get_king_moves`, which ORs the board
/// squares among its eight king offsets).
#[verifier::external_body]
pub(crate) fn king_attacks(square: u8) -> (r: u64)
    requires
        square < 64,
    ensures
        r == spec_king_attacks(square),
{
    cozy_chess::get_king_moves(cozy_chess::Square::index(square as usize)).0
}

/// The squares a pawn of `color` attacks (`get_pawn_attacks`, which ORs the
/// board squares one file aside and one rank toward the opponent).
#[verifier::external_body]
pub(crate) fn pawn_attacks(square: u8, color: Color) -> (r: u64)
    requires
        square < 64,
    ensures
        r == spec_pawn_attacks(square, color),
{
    let color = match color {
        Color::White => cozy_chess::Color::White,
        Color::Black => cozy_chess::Color::Black,
    };
    cozy_chess::get_pawn_attacks(cozy_chess::Square::index(square as usize), color).0
}

/// The squares a bishop attacks.
#[verifier::external_body]
pub(crate) fn bishop_attacks(square: u8, occupied: u64) -> (r: u64)
    requires
        square < 64,
    ensures
        r == spec_bishop_attacks(square, occupied),
{
    cozy_chess::get_bishop_moves(
        cozy_chess::Square::index(square as usize),
        cozy_chess::BitBoard(occupied),
    ).0
}

/// The squares a rook attacks.
#[verifier::external_body]
pub(crate) fn rook_attacks(square: u8, occupied: u64) -> (r: u64)
    requires
        square < 64,
    ensures
        r == spec_rook_attacks(square, occupied),
{
    cozy_chess::get_rook_moves(
        cozy_chess::Square::index(square as usize),
        cozy_chess::BitBoard(occupied),
    ).0
}

} // verus!
