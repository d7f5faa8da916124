//! The small value types of the engine: sides, piece kinds, squares and moves.
//!
//! A square is an index `0..64` in rank-major order (a1, b1, ..., h8), so its
//! file is `square % 8` and its rank `square / 8`.
use vstd::prelude::*;

verus! {

/// A side.
#[derive(Clone, Copy, Debug, PartialEq, Eq, Structural)]
pub enum Color {
    White,
    Black,
}

/// A kind of piece, ordered by approximate material value.
#[derive(Clone, Copy, Debug, PartialEq, Eq, Structural)]
pub enum Piece {
    Pawn,
    Knight,
    Bishop,
    Rook,
    Queen,
    King,
}

/// The index of a side: white `0`, black `1`.
pub open spec fn color_idx(c: Color) -> int {
    match c {
        Color::White => 0,
        Color::Black => 1,
    }
}

/// The opposite side.
pub open spec fn opposite(c: Color) -> Color {
    match c {
        Color::White => Color::Black,
        Color::Black => Color::White,
    }
}

/// The index of a piece kind, from pawn `0` to king `5`.
pub open spec fn piece_idx(p: Piece) -> int {
    match p {
        Piece::Pawn => 0,
        Piece::Knight => 1,
        Piece::Bishop => 2,
        Piece::Rook => 3,
        Piece::Queen => 4,
        Piece::King => 5,
    }
}

/// The piece kind of an index `0..6`.
pub open spec fn piece_of(i: int) -> Piece {
    if i == 0 {
        Piece::Pawn
    } else if i == 1 {
        Piece::Knight
    } else if i == 2 {
        Piece::Bishop
    } else if i == 3 {
        Piece::Rook
    } else if i == 4 {
        Piece::Queen
    } else {
        Piece::King
    }
}

impl Color {
    /// The index of this side: white `0`, black `1`.
    pub fn index(self) -> (r: usize)
        ensures
            r == color_idx(self),
            r < 2,
    {
        match self {
            Color::White => 0,
            Color::Black => 1,
        }
    }

    /// The opposite side.
    pub fn other(self) -> (r: Color)
        ensures
            r == opposite(self),
    {
        match self {
            Color::White => Color::Black,
            Color::Black => Color::White,
        }
    }

    /// Whether two sides are the same.
    pub fn same(self, other: Color) -> (r: bool)
        ensures
            r == (self == other),
    {
        match (self, other) {
            (Color::White, Color::White) => true,
            (Color::Black, Color::Black) => true,
            _ => false,
        }
    }
}

impl Piece {
    /// The index of this piece kind, from pawn `0` to king `5`.
    pub fn index(self) -> (r: usize)
        ensures
            r == piece_idx(self),
            r < 6,
    {
        match self {
            Piece::Pawn => 0,
            Piece::Knight => 1,
            Piece::Bishop => 2,
            Piece::Rook => 3,
            Piece::Queen => 4,
            Piece::King => 5,
        }
    }

    /// The piece kind of an index, if it names one.
    pub fn from_index(i: usize) -> (r: Option<Piece>)
        ensures
            i < 6 ==> r == Some(piece_of(i as int)),
            i >= 6 ==> r.is_none(),
    {
        if i == 0 {
            Some(Piece::Pawn)
        } else if i == 1 {
            Some(Piece::Knight)
        } else if i == 2 {
            Some(Piece::Bishop)
        } else if i == 3 {
            Some(Piece::Rook)
        } else if i == 4 {
            Some(Piece::Queen)
        } else if i == 5 {
            Some(Piece::King)
        } else {
            None
        }
    }

    /// Whether two piece kinds are the same.
    pub fn same(self, other: Piece) -> (r: bool)
        ensures
            r == (self == other),
    {
        self.index() == other.index()
    }
}

/// Every piece kind has the index it was built from.
pub proof fn lemma_piece_index_roundtrip(p: Piece)
    ensures
        piece_of(piece_idx(p)) == p,
        0 <= piece_idx(p) < 6,
{
}

/// A move: the square it leaves, the square it reaches and, for a pawn reaching
/// the last rank, the kind it becomes.
///
/// Castling is written king-takes-own-rook (`e1h1`), the convention of the move
/// generator the engine relies on.
#[derive(Clone, Copy, Debug, PartialEq, Eq, Structural)]
pub struct Move {
    pub from: u8,
    pub to: u8,
    pub promotion: Option<Piece>,
}

impl Move {
    /// A move is well formed when both squares lie on the board.
    pub open spec fn wf(self) -> bool {
        self.from < 64 && self.to < 64
    }

    /// Builds a move.
    pub fn new(from: u8, to: u8, promotion: Option<Piece>) -> (r: Move)
        ensures
            r == (Move { from, to, promotion }),
    {
        Move { from, to, promotion }
    }

    /// Whether two moves are the same.
    pub fn same(&self, other: &Move) -> (r: bool)
        ensures
            r == (*self == *other),
    {
        self.from == other.from && self.to == other.to && match (self.promotion, other.promotion) {
            (None, None) => true,
            (Some(a), Some(b)) => a.same(b),
            _ => false,
        }
    }
}

/// The file (`0` for a to `7` for h) of a square.
pub open spec fn file_of(square: int) -> int {
    square % 8
}

/// The rank (`0` for the first to `7` for the eighth) of a square.
pub open spec fn rank_of(square: int) -> int {
    square / 8
}

/// The file of a square.
pub fn file(square: u8) -> (r: u8)
    requires
        square < 64,
    ensures
        r == file_of(square as int),
        r < 8,
{
    square % 8
}

/// The rank of a square.
pub fn rank(square: u8) -> (r: u8)
    requires
        square < 64,
    ensures
        r == rank_of(square as int),
        r < 8,
{
    square / 8
}

/// The square on a file and a rank.
pub fn square_at(file: u8, rank: u8) -> (r: u8)
    requires
        file < 8,
        rank < 8,
    ensures
        r == rank * 8 + file,
        r < 64,
        file_of(r as int) == file,
        rank_of(r as int) == rank,
{
    rank * 8 + file
}

} // verus!
