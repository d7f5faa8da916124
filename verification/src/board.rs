//! The chessboard, as the rest of the engine sees it.
//!
//! Move generation, legality, Zobrist hashing, FEN and UCI move notation come
//! from the `cozy-chess` move generator. A [`Chessboard`] keeps the generator's
//! board next to a plain copy of everything it holds — placement, side to
//! move, castling rights, en-passant file and clocks — which the evaluation,
//! the exchange evaluator and the network read directly. Every `Chessboard` is
//! produced by the functions of this module, which keep the two in step.
//!
//! What the generator computes (the legal moves, the position after a move,
//! the hash, ...) is named by a spec function of the plain copy; the
//! functions below are the only places that call the generator.
use vstd::prelude::*;

use crate::bitboard::{first_square, holds};
use crate::types::{color_idx, file_of, piece_idx, piece_of, rank_of, Color, Move, Piece};

verus! {

#[verifier::external_type_specification]
#[verifier::external_body]
pub struct ExCozyBoard(cozy_chess::Board);

/// The rook files a side may still castle with.
#[derive(Clone, Copy, Debug, PartialEq, Eq, Structural)]
pub struct CastleRights {
    /// The rook file for short castling.
    pub short: Option<u8>,
    /// The rook file for long castling.
    pub long: Option<u8>,
}

/// Everything a position is, as plain values.
#[derive(Clone, Copy, Debug)]
pub struct BoardState {
    /// The squares of each side, white then black.
    pub colors: [u64; 2],
    /// The squares of each piece kind, pawn to king.
    pub pieces: [u64; 6],
    /// The side to move.
    pub side: Color,
    /// The castling rights of each side, white then black.
    pub castles: [CastleRights; 2],
    /// The file of a pawn that just moved two squares, if any.
    pub en_passant: Option<u8>,
    /// Half-moves since the last capture or pawn move.
    pub halfmove_clock: u8,
    /// The move number.
    pub fullmove_number: u16,
}

impl BoardState {
    /// The squares something stands on.
    pub open spec fn occupied(self) -> u64 {
        self.colors[0] | self.colors[1]
    }

    /// A valid placement: sides disjoint, piece kinds disjoint, every occupied
    /// square carries exactly one kind, each side has a king, files in range.
    pub open spec fn wf(self) -> bool {
        &&& self.colors[0] & self.colors[1] == 0
        &&& forall|i: int, j: int|
            0 <= i < 6 && 0 <= j < 6 && i != j ==> #[trigger] self.pieces[i] & #[trigger] self.pieces[j]
                == 0
        &&& self.pieces[0] | self.pieces[1] | self.pieces[2] | self.pieces[3] | self.pieces[4]
            | self.pieces[5] == self.colors[0] | self.colors[1]
        &&& self.pieces[5] & self.colors[0] != 0
        &&& self.pieces[5] & self.colors[1] != 0
        &&& (self.en_passant matches Some(f) ==> f < 8)
        &&& self.halfmove_clock <= 100
        &&& self.fullmove_number > 0
        &&& forall|c: int|
            0 <= c < 2 ==> (#[trigger] self.castles[c].short matches Some(f) ==> f < 8) && (
            self.castles[c].long matches Some(f) ==> f < 8)
    }

    /// The piece kind on a square, if any.
    pub open spec fn piece_at(self, square: int) -> Option<Piece> {
        if holds(self.pieces[0], square) {
            Some(Piece::Pawn)
        } else if holds(self.pieces[1], square) {
            Some(Piece::Knight)
        } else if holds(self.pieces[2], square) {
            Some(Piece::Bishop)
        } else if holds(self.pieces[3], square) {
            Some(Piece::Rook)
        } else if holds(self.pieces[4], square) {
            Some(Piece::Queen)
        } else if holds(self.pieces[5], square) {
            Some(Piece::King)
        } else {
            None
        }
    }

    /// The side owning a square, if any.
    pub open spec fn color_at(self, square: int) -> Option<Color> {
        if holds(self.colors[0], square) {
            Some(Color::White)
        } else if holds(self.colors[1], square) {
            Some(Color::Black)
        } else {
            None
        }
    }

    /// The squares of one kind of one side.
    pub open spec fn colored(self, color: Color, piece: Piece) -> u64 {
        self.colors[color_idx(color)] & self.pieces[piece_idx(piece)]
    }
}

/// The Zobrist key of a position, as the move generator computes it.
pub uninterp spec fn spec_hash(state: BoardState) -> u64;

/// The pieces giving check to the side to move, as the move generator
/// computes them.
pub uninterp spec fn spec_checkers(state: BoardState) -> u64;

/// The legal moves of a position, in the order the move generator produces
/// them.
pub uninterp spec fn spec_legal_moves(state: BoardState) -> Seq<Move>;

/// Whether the move generator judges a move legal.
pub uninterp spec fn spec_is_legal(state: BoardState, mv: Move) -> bool;

/// The position after a legal move, as the move generator plays it.
pub uninterp spec fn spec_play(state: BoardState, mv: Move) -> BoardState;

/// The position a FEN text describes, if the move generator accepts it.
pub uninterp spec fn spec_parse_fen(text: Seq<char>) -> Option<BoardState>;

/// The FEN text of a position, as the move generator writes it.
pub uninterp spec fn spec_fen(state: BoardState) -> Seq<char>;

/// The file letter and rank digit of a square, as in `e4`.
pub open spec fn square_text(square: int) -> Seq<char> {
    seq![(97 + square % 8) as char, (49 + square / 8) as char]
}

/// The letter of a promotion piece, if any.
pub open spec fn promotion_text(promotion: Option<Piece>) -> Seq<char> {
    match promotion {
        None => seq![],
        Some(Piece::Pawn) => seq!['p'],
        Some(Piece::Knight) => seq!['n'],
        Some(Piece::Bishop) => seq!['b'],
        Some(Piece::Rook) => seq!['r'],
        Some(Piece::Queen) => seq!['q'],
        Some(Piece::King) => seq!['k'],
    }
}

/// Whether `square` is where the move generator finds the king of `color`:
/// the lowest square of that side's kings.
pub open spec fn is_king_square(s: BoardState, color: Color, square: int) -> bool {
    let kings = s.colored(color, Piece::King);
    holds(kings, square) && forall|q: int| 0 <= q < square ==> !holds(kings, q)
}

/// Where the UCI text puts the arrival of a move: a king move onto a rook
/// it may castle with lands on the g-file (short) or the c-file (long) of
/// its first rank instead; any other move keeps its square.
pub open spec fn uci_target(s: BoardState, mv: Move) -> int {
    let first: int = match s.side {
        Color::White => 0,
        Color::Black => 56,
    };
    let rights = s.castles[color_idx(s.side)];
    let king_move = is_king_square(s, s.side, mv.from as int);
    let after_short = if king_move && (rights.short matches Some(f) && mv.to == first + f) {
        first + 6
    } else {
        mv.to as int
    };
    if king_move && (rights.long matches Some(f) && after_short == first + f) {
        first + 2
    } else {
        after_short
    }
}

/// The UCI text of a move: its departure, its arrival with castling written
/// king-two-squares, and the promotion letter.
#[verifier::opaque]
pub open spec fn spec_uci_text(state: BoardState, mv: Move) -> Seq<char> {
    square_text(mv.from as int) + square_text(uci_target(state, mv)) + promotion_text(mv.promotion)
}

/// The square a file letter and a rank digit name, if they do.
pub open spec fn square_of_text(file: char, rank: char) -> Option<int> {
    if 97 <= file as int <= 104 && 49 <= rank as int <= 56 {
        Some((rank as int - 49) * 8 + (file as int - 97))
    } else {
        None
    }
}

/// What a promotion letter reads as: `None` if it is no piece letter, else
/// the promotion, none for a pawn or a king.
pub open spec fn promotion_of_text(letter: char) -> Option<Option<Piece>> {
    if letter == 'n' {
        Some(Some(Piece::Knight))
    } else if letter == 'b' {
        Some(Some(Piece::Bishop))
    } else if letter == 'r' {
        Some(Some(Piece::Rook))
    } else if letter == 'q' {
        Some(Some(Piece::Queen))
    } else if letter == 'p' || letter == 'k' {
        Some(None)
    } else {
        None
    }
}

/// The arrival a UCI move gets once castling is converted: the king on its
/// e-file square going to the g-file (then the c-file) of its first rank
/// goes to the rook it may castle with on that side instead.
pub open spec fn castle_converted(s: BoardState, from: int, to: int) -> int {
    let first: int = match s.side {
        Color::White => 0,
        Color::Black => 56,
    };
    let rights = s.castles[color_idx(s.side)];
    let from_start = is_king_square(s, s.side, from) && from == first + 4;
    let after_short = if from_start && to == first + 6 && rights.short is Some {
        first + rights.short.unwrap()
    } else {
        to
    };
    if from_start && after_short == first + 2 && rights.long is Some {
        first + rights.long.unwrap()
    } else {
        after_short
    }
}

/// The move a UCI text names on a position: two squares, then an optional
/// promotion letter read only when the fifth character is a single byte;
/// anything after it is ignored. Castling is converted to king-takes-rook.
#[verifier::opaque]
pub open spec fn spec_parse_uci(state: BoardState, text: Seq<char>) -> Option<Move> {
    if text.len() < 4 {
        None
    } else {
        match (square_of_text(text[0], text[1]), square_of_text(text[2], text[3])) {
            (Some(from), Some(to)) => {
                let promotion = if text.len() >= 5 && (text[4] as int) < 128 {
                    promotion_of_text(text[4])
                } else {
                    Some(None)
                };
                match promotion {
                    Some(p) => Some(
                        Move { from: from as u8, to: castle_converted(state, from, to) as u8, promotion: p },
                    ),
                    None => None,
                }
            },
            _ => None,
        }
    }
}

/// The starting position of chess.
pub open spec fn initial_state() -> BoardState {
    BoardState {
        colors: [0x0000_0000_0000_FFFFu64, 0xFFFF_0000_0000_0000u64],
        pieces: [
            0x00FF_0000_0000_FF00u64,
            0x4200_0000_0000_0042u64,
            0x2400_0000_0000_0024u64,
            0x8100_0000_0000_0081u64,
            0x0800_0000_0000_0008u64,
            0x1000_0000_0000_0010u64,
        ],
        side: Color::White,
        castles: [
            CastleRights { short: Some(7u8), long: Some(0u8) },
            CastleRights { short: Some(7u8), long: Some(0u8) },
        ],
        en_passant: None,
        halfmove_clock: 0,
        fullmove_number: 1,
    }
}

/// The position after passing the turn: same placement and castling rights,
/// the other side to move, no en-passant file, the half-move clock advanced
/// (capped at a hundred), and the move number advanced after black.
pub open spec fn null_move_state(s: BoardState) -> BoardState {
    BoardState {
        side: match s.side {
            Color::White => Color::Black,
            Color::Black => Color::White,
        },
        en_passant: None,
        halfmove_clock: if s.halfmove_clock >= 100 {
            100u8
        } else {
            (s.halfmove_clock + 1) as u8
        },
        fullmove_number: match s.side {
            Color::Black => if s.fullmove_number == u16::MAX {
                u16::MAX
            } else {
                (s.fullmove_number + 1) as u16
            },
            Color::White => s.fullmove_number,
        },
        ..s
    }
}

/// The piece and the side on a square, if any.
pub open spec fn content(s: BoardState, square: int) -> Option<(Piece, Color)> {
    match (s.piece_at(square), s.color_at(square)) {
        (Some(p), Some(c)) => Some((p, c)),
        _ => None,
    }
}

/// Where castling puts the king and the rook, the king standing on `from`
/// and taking its own rook on `to`: the g- and f-files toward the h-side,
/// the c- and d-files toward the a-side, on the king's rank.
pub open spec fn castle_targets(from: int, to: int) -> (int, int) {
    let rank = rank_of(from);
    if file_of(to) > file_of(from) {
        (rank * 8 + 6, rank * 8 + 5)
    } else {
        (rank * 8 + 2, rank * 8 + 3)
    }
}

/// The square an en-passant capture lands on, if any: on the en-passant
/// file, on the sixth rank of the side to move.
pub open spec fn passing_square(s: BoardState) -> Option<int> {
    match s.en_passant {
        Some(f) => Some(
            if s.side == Color::White {
                40 + f
            } else {
                16 + f
            },
        ),
        None => None,
    }
}

/// The square of the pawn an en-passant capture onto `to` takes: on the
/// arrival file, on the fifth rank of the side to move.
pub open spec fn passed_pawn_square(side: Color, to: int) -> int {
    if side == Color::White {
        32 + file_of(to)
    } else {
        24 + file_of(to)
    }
}

/// What a legal move leaves on a square, as the move generator plays it.
/// Castling, written as the king taking its own rook, puts the king and the
/// rook on their castling squares and empties the squares they left; any
/// other move empties its square of departure and puts the moving piece —
/// the promoted piece where a pawn promotes — on its square of arrival; an
/// en-passant capture, a pawn moving onto the en-passant square, also
/// empties the square of the pawn it takes. Every other square keeps what
/// it held.
pub open spec fn content_after(s: BoardState, mv: Move, square: int) -> Option<(Piece, Color)> {
    let us = s.side;
    if holds(s.colors[color_idx(us)], mv.to as int) {
        let (king_to, rook_to) = castle_targets(mv.from as int, mv.to as int);
        if square == king_to {
            Some((Piece::King, us))
        } else if square == rook_to {
            Some((Piece::Rook, us))
        } else if square == mv.from || square == mv.to {
            None
        } else {
            content(s, square)
        }
    } else {
        match s.piece_at(mv.from as int) {
            None => content(s, square),
            Some(moved) => {
                let arrived = if moved == Piece::Pawn && mv.promotion is Some {
                    mv.promotion.unwrap()
                } else {
                    moved
                };
                if square == mv.to {
                    Some((arrived, us))
                } else if square == mv.from {
                    None
                } else if moved == Piece::Pawn && mv.promotion is None && passing_square(s) == Some(
                    mv.to as int,
                ) && square == passed_pawn_square(us, mv.to as int) {
                    None
                } else {
                    content(s, square)
                }
            },
        }
    }
}

/// What every legal move of a position is. It leaves a square of a piece of
/// the side to move for another square. Only the king lands on a piece of its
/// own side, a rook, and only when castling, whose two landing squares are
/// empty unless the king or the rook stands there. Only a pawn promotes, and
/// a pawn reaching the first or last rank always does. A
/// pawn changes file onto an empty square only by taking en passant, onto
/// the en-passant square, without promoting, the pawn it takes standing on
/// its own rank; and it reaches the en-passant square only so.
pub open spec fn legal_shape(s: BoardState, mv: Move) -> bool {
    let us = s.side;
    let them = match us {
        Color::White => Color::Black,
        Color::Black => Color::White,
    };
    &&& mv.from != mv.to
    &&& s.piece_at(mv.from as int) is Some
    &&& s.color_at(mv.from as int) == Some(us)
    &&& holds(s.colors[color_idx(us)], mv.to as int) ==> {
        let (king_to, rook_to) = castle_targets(mv.from as int, mv.to as int);
        &&& s.piece_at(mv.from as int) == Some(Piece::King)
        &&& s.piece_at(mv.to as int) == Some(Piece::Rook)
        &&& mv.promotion is None
        &&& (king_to != mv.from && king_to != mv.to ==> content(s, king_to) is None)
        &&& (rook_to != mv.from && rook_to != mv.to ==> content(s, rook_to) is None)
    }
    &&& mv.promotion is Some ==> s.piece_at(mv.from as int) == Some(Piece::Pawn)
    &&& (s.piece_at(mv.from as int) == Some(Piece::Pawn) && (rank_of(mv.to as int) == 0 || rank_of(
        mv.to as int,
    ) == 7)) ==> mv.promotion is Some
    &&& (s.piece_at(mv.from as int) == Some(Piece::Pawn) && file_of(mv.from as int) != file_of(
        mv.to as int,
    ) && s.piece_at(mv.to as int) is None) ==> {
        &&& passing_square(s) == Some(mv.to as int)
        &&& mv.promotion is None
        &&& passed_pawn_square(us, mv.to as int) == rank_of(mv.from as int) * 8 + file_of(
            mv.to as int,
        )
        &&& content(s, passed_pawn_square(us, mv.to as int)) == Some((Piece::Pawn, them))
    }
    &&& (s.piece_at(mv.from as int) == Some(Piece::Pawn) && passing_square(s) == Some(
        mv.to as int,
    )) ==> file_of(mv.from as int) != file_of(mv.to as int) && s.piece_at(mv.to as int) is None
}

/// A position: the move generator's board and its plain copy.
pub struct Chessboard {
    inner: cozy_chess::Board,
    state: BoardState,
}

impl Chessboard {
    /// Every board is valid: the move generator only builds legal positions.
    #[verifier::type_invariant]
    pub(crate) open spec fn valid(self) -> bool {
        self@.wf()
    }
}

impl View for Chessboard {
    type V = BoardState;

    closed spec fn view(&self) -> BoardState {
        self.state
    }
}

/// Reads the move generator's board into plain values.
#[verifier::external_body]
fn state_of(b: &cozy_chess::Board) -> (r: BoardState)
    ensures
        r.wf(),
{
    let rights = |c: cozy_chess::Color| {
        let r = b.castle_rights(c);
        CastleRights { short: r.short.map(|f| f as u8), long: r.long.map(|f| f as u8) }
    };
    BoardState {
        colors: [b.colors(cozy_chess::Color::White).0, b.colors(cozy_chess::Color::Black).0],
        pieces: cozy_chess::Piece::ALL.map(|p| b.pieces(p).0),
        side: if b.side_to_move() == cozy_chess::Color::White { Color::White } else { Color::Black },
        castles: [rights(cozy_chess::Color::White), rights(cozy_chess::Color::Black)],
        en_passant: b.en_passant().map(|f| f as u8),
        halfmove_clock: b.halfmove_clock(),
        fullmove_number: b.fullmove_number(),
    }
}

/// The piece kinds in the move generator's order.
const KINDS: [Piece; 6] = [Piece::Pawn, Piece::Knight, Piece::Bishop, Piece::Rook, Piece::Queen, Piece::King];

impl Chessboard {
    /// The starting position (`Chessboard::default` of the move generator).
    #[verifier::external_body]
    pub fn startpos() -> (r: Chessboard)
        ensures
            r@ == initial_state(),
            r@.wf(),
    {
        let inner = cozy_chess::Board::default();
        Chessboard { state: state_of(&inner), inner }
    }

    /// Reads a FEN, standard or Shredder (`str::parse` of the move generator).
    /// The error is the generator's message.
    #[verifier::external_body]
    pub fn from_fen(text: &str) -> (r: Result<Chessboard, String>)
        ensures
            r.is_ok() <==> spec_parse_fen(text@).is_some(),
            r matches Ok(b) ==> Some(b@) == spec_parse_fen(text@) && b@.wf(),
    {
        match text.parse::<cozy_chess::Board>() {
            Ok(inner) => Ok(Chessboard { state: state_of(&inner), inner }),
            Err(e) => Err(format!("{e}")),
        }
    }

    /// The FEN of the position (`Display` of the move generator's board).
    #[verifier::external_body]
    pub fn to_fen(&self) -> (r: String)
        ensures
            r@ == spec_fen(self@),
    {
        format!("{}", self.inner)
    }

    /// The Zobrist key of the position (`Chessboard::hash`).
    #[verifier::external_body]
    pub fn hash(&self) -> (r: u64)
        ensures
            r == spec_hash(self@),
    {
        self.inner.hash()
    }

    /// The pieces giving check to the side to move (`Chessboard::checkers`).
    #[verifier::external_body]
    pub fn checkers(&self) -> (r: u64)
        ensures
            r == spec_checkers(self@),
    {
        self.inner.checkers().0
    }

    /// The legal moves, in generation order (`Chessboard::generate_moves`). Every
    /// generated move is legal, and every legal move is generated.
    #[verifier::external_body]
    pub fn legal_moves(&self) -> (r: Vec<Move>)
        ensures
            r@ == spec_legal_moves(self@),
            forall|i: int| 0 <= i < r@.len() ==> (#[trigger] r@[i]).wf(),
            forall|m: Move| m.wf() ==> (r@.contains(m) <==> spec_is_legal(self@, m)),
            forall|i: int| 0 <= i < r@.len() ==> legal_shape(self@, #[trigger] r@[i]),
    {
        let mut out = Vec::new();
        self.inner.generate_moves(|moves| {
            for m in moves {
                out.push(Move { from: m.from as u8, to: m.to as u8, promotion: m.promotion.map(|p| KINDS[p as usize]) });
            }
            false
        });
        out
    }

    /// Whether a move is legal here (`Chessboard::is_legal`).
    #[verifier::external_body]
    pub fn is_legal(&self, mv: Move) -> (r: bool)
        requires
            mv.wf(),
        ensures
            r == spec_is_legal(self@, mv),
            r ==> legal_shape(self@, mv),
    {
        let mv = cozy_chess::Move {
            from: cozy_chess::Square::index(mv.from as usize),
            to: cozy_chess::Square::index(mv.to as usize),
            promotion: mv.promotion.map(|p| cozy_chess::Piece::index(p as usize)),
        };
        self.inner.is_legal(mv)
    }

    /// The position after a legal move (`Chessboard::play_unchecked` on a copy).
    #[verifier::external_body]
    pub fn play(&self, mv: Move) -> (r: Chessboard)
        requires
            mv.wf(),
            spec_is_legal(self@, mv),
        ensures
            r@ == spec_play(self@, mv),
            r@.wf(),
            legal_shape(self@, mv) ==> forall|square: int|
                0 <= square < 64 ==> #[trigger] content(r@, square) == content_after(self@, mv, square),
    {
        let mut inner = self.inner.clone();
        inner.play_unchecked(cozy_chess::Move {
            from: cozy_chess::Square::index(mv.from as usize),
            to: cozy_chess::Square::index(mv.to as usize),
            promotion: mv.promotion.map(|p| cozy_chess::Piece::index(p as usize)),
        });
        Chessboard { state: state_of(&inner), inner }
    }

    /// The position after passing the turn, unless in check
    /// (`Chessboard::null_move`).
    #[verifier::external_body]
    pub fn null_move(&self) -> (r: Option<Chessboard>)
        ensures
            r.is_some() <==> spec_checkers(self@) == 0,
            r matches Some(b) ==> b@ == null_move_state(self@),
    {
        self.inner.null_move().map(|inner| Chessboard { state: state_of(&inner), inner })
    }

    /// A move in UCI notation (`util::display_uci_move`, then `Move`'s
    /// `Display`): the two squares, a king move onto one of its castling
    /// rooks rewritten to the g- or c-file, and the promotion letter.
    #[verifier::external_body]
    pub fn uci_text(&self, mv: Move) -> (r: String)
        requires
            mv.wf(),
        ensures
            r@ == spec_uci_text(self@, mv),
    {
        let mv = cozy_chess::Move {
            from: cozy_chess::Square::index(mv.from as usize),
            to: cozy_chess::Square::index(mv.to as usize),
            promotion: mv.promotion.map(|p| cozy_chess::Piece::index(p as usize)),
        };
        format!("{}", cozy_chess::util::display_uci_move(&self.inner, mv))
    }

    /// Reads a move in UCI notation (`util::parse_uci_move`, on `Move`'s
    /// `FromStr`, which slices the text by bytes): two squares, an optional
    /// promotion letter, castling converted to king-takes-rook. Says nothing
    /// of legality.
    #[verifier::external_body]
    pub fn parse_uci(&self, text: &str) -> (r: Option<Move>)
        ensures
            r == spec_parse_uci(self@, text@),
            r matches Some(m) ==> m.wf(),
    {
        cozy_chess::util::parse_uci_move(&self.inner, text).ok().map(|m| Move { from: m.from as u8, to: m.to as u8, promotion: m.promotion.map(|p| KINDS[p as usize]) })
    }

    /// A copy of the position.
    #[verifier::external_body]
    pub fn duplicate(&self) -> (r: Chessboard)
        ensures
            r@ == self@,
    {
        Chessboard { inner: self.inner.clone(), state: self.state }
    }

    /// The plain copy of the position.
    pub fn state(&self) -> (r: BoardState)
        ensures
            r == self@,
            r.wf(),
    {
        proof {
            use_type_invariant(self);
        }
        self.state
    }

    /// The side to move.
    pub fn side_to_move(&self) -> (r: Color)
        ensures
            r == self@.side,
            self@.wf(),
    {
        proof {
            use_type_invariant(self);
        }
        self.state.side
    }

    /// The squares of a side.
    pub fn colors(&self, color: Color) -> (r: u64)
        ensures
            r == self@.colors[color_idx(color)],
    {
        self.state.colors[color.index()]
    }

    /// The squares of a piece kind, both sides together.
    pub fn pieces(&self, piece: Piece) -> (r: u64)
        ensures
            r == self@.pieces[piece_idx(piece)],
    {
        self.state.pieces[piece.index()]
    }

    /// The squares of a piece kind of a side.
    pub fn colored_pieces(&self, color: Color, piece: Piece) -> (r: u64)
        ensures
            r == self@.colored(color, piece),
    {
        self.state.colors[color.index()] & self.state.pieces[piece.index()]
    }

    /// The occupied squares.
    pub fn occupied(&self) -> (r: u64)
        ensures
            r == self@.occupied(),
    {
        self.state.colors[0] | self.state.colors[1]
    }

    /// The en-passant file, if any.
    pub fn en_passant(&self) -> (r: Option<u8>)
        ensures
            r == self@.en_passant,
    {
        self.state.en_passant
    }

    /// Half-moves since the last capture or pawn move.
    pub fn halfmove_clock(&self) -> (r: u8)
        ensures
            r == self@.halfmove_clock,
    {
        self.state.halfmove_clock
    }

    /// The castling rights of a side.
    pub fn castle_rights(&self, color: Color) -> (r: CastleRights)
        ensures
            r == self@.castles[color_idx(color)],
    {
        self.state.castles[color.index()]
    }

    /// The piece kind on a square, if any.
    pub fn piece_on(&self, square: u8) -> (r: Option<Piece>)
        requires
            square < 64,
        ensures
            r == self@.piece_at(square as int),
    {
        let s = &self.state;
        if crate::bitboard::contains(s.pieces[0], square) {
            Some(Piece::Pawn)
        } else if crate::bitboard::contains(s.pieces[1], square) {
            Some(Piece::Knight)
        } else if crate::bitboard::contains(s.pieces[2], square) {
            Some(Piece::Bishop)
        } else if crate::bitboard::contains(s.pieces[3], square) {
            Some(Piece::Rook)
        } else if crate::bitboard::contains(s.pieces[4], square) {
            Some(Piece::Queen)
        } else if crate::bitboard::contains(s.pieces[5], square) {
            Some(Piece::King)
        } else {
            None
        }
    }

    /// The side owning a square, if any.
    pub fn color_on(&self, square: u8) -> (r: Option<Color>)
        requires
            square < 64,
        ensures
            r == self@.color_at(square as int),
    {
        if crate::bitboard::contains(self.state.colors[0], square) {
            Some(Color::White)
        } else if crate::bitboard::contains(self.state.colors[1], square) {
            Some(Color::Black)
        } else {
            None
        }
    }

    /// The square of a side's king.
    pub fn king(&self, color: Color) -> (r: u8)
        ensures
            r < 64,
            holds(self@.colored(color, Piece::King), r as int),
            forall|t: int| 0 <= t < r ==> !holds(self@.colored(color, Piece::King), t),
    {
        proof {
            use_type_invariant(self);
        }
        let kings = self.colored_pieces(color, Piece::King);
        match first_square(kings) {
            Some(square) => square,
            None => {
                proof {
                    let s = self@;
                    assert(s.pieces[5] & s.colors[color_idx(color)] != 0);
                    let a = s.pieces[5];
                    let b = s.colors[color_idx(color)];
                    assert(a & b == b & a) by (bit_vector);
                }
                0
            },
        }
    }
}

} // verus!
