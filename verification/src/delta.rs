//! The accumulator changes of a move, held to the board itself.
//!
//! What a move does to the NNUE accumulator can be derived from the parent
//! position and the move alone, without playing it. This module states that
//! derivation for a single move and reads the other side of the comparison,
//! the difference between the positions before and after, square by square.
use vstd::multiset::Multiset;
use vstd::prelude::*;

use crate::bitboard::holds;
use crate::board::{
    castle_targets, content, content_after, legal_shape, passed_pawn_square, BoardState, Chessboard,
};
use crate::nnue::{
    accumulator_of, change_sum, changes, indicator, move_changes, net_changes, placed_after, wrap16,
    Change, HIDDEN,
};
use crate::types::{color_idx, file_of, piece_idx, rank_of, Color, Move, Piece};

verus! {

/// Derives what a move does to the pieces, without playing it: the changes
/// go to `out`, their number is returned. The square left must hold a piece.
pub fn accumulator_delta(board: &Chessboard, mv: Move, out: &mut [Change; 4]) -> (r: usize)
    requires
        mv.wf(),
        board@.piece_at(mv.from as int) is Some,
    ensures
        r == move_changes(board@, mv).len(),
        2 <= r <= 4,
        forall|i: int| 0 <= i < r ==> final(out)[i] == move_changes(board@, mv)[i],
        forall|i: int| r <= i < 4 ==> final(out)[i] == old(out)[i],
{
    changes(board, mv, out)
}

/// The side owning a square, for a square that holds a piece: white if
/// White's squares hold it, black otherwise.
pub open spec fn owner(s: BoardState, square: int) -> Color {
    if holds(s.colors[0], square) {
        Color::White
    } else {
        Color::Black
    }
}

/// The piece on a square and its side, if any.
pub open spec fn occupant(s: BoardState, square: int) -> Option<(Piece, Color)> {
    match s.piece_at(square) {
        Some(p) => Some((p, owner(s, square))),
        None => None,
    }
}

/// The change a square's occupant makes, if there is one: `added` says
/// whether it arrives or leaves.
pub open spec fn occupant_change(o: Option<(Piece, Color)>, added: bool, square: int) -> Seq<
    Change,
> {
    match o {
        Some((piece, color)) => seq![Change { added, piece, color, square: square as u8 }],
        None => Seq::empty(),
    }
}

/// What changed on one square: nothing where the occupant is the same,
/// else the piece that left, if any, then the piece that arrived, if any.
pub open spec fn square_delta(before: BoardState, after: BoardState, square: int) -> Seq<Change> {
    let b = occupant(before, square);
    let a = occupant(after, square);
    if a == b {
        Seq::empty()
    } else {
        occupant_change(b, false, square) + occupant_change(a, true, square)
    }
}

/// What changed on the first `n` squares, square by square.
pub open spec fn board_delta(before: BoardState, after: BoardState, n: int) -> Seq<Change>
    decreases n,
{
    if n <= 0 {
        Seq::empty()
    } else {
        board_delta(before, after, n - 1) + square_delta(before, after, n - 1)
    }
}

/// The side owning the piece on a square: white if White's squares hold it,
/// black otherwise.
pub fn piece_color(board: &Chessboard, square: u8) -> (r: Color)
    requires
        square < 64,
    ensures
        r == owner(board@, square as int),
{
    if crate::bitboard::contains(board.colors(Color::White), square) {
        Color::White
    } else {
        Color::Black
    }
}

/// The piece on a square and its side, if any.
fn occupant_on(board: &Chessboard, square: u8) -> (r: Option<(Piece, Color)>)
    requires
        square < 64,
    ensures
        r == occupant(board@, square as int),
{
    match board.piece_on(square) {
        Some(p) => Some((p, piece_color(board, square))),
        None => None,
    }
}

/// Whether two occupants are the same.
fn same_occupant(a: Option<(Piece, Color)>, b: Option<(Piece, Color)>) -> (r: bool)
    ensures
        r == (a == b),
{
    match (a, b) {
        (Some((p, c)), Some((q, d))) => p == q && c == d,
        (None, None) => true,
        _ => false,
    }
}

/// The real difference between two positions, read square by square from
/// the first square to the last.
pub fn true_delta(before: &Chessboard, after: &Chessboard) -> (r: Vec<Change>)
    ensures
        r@ == board_delta(before@, after@, 64),
{
    let mut out: Vec<Change> = Vec::new();
    let mut square: u8 = 0;
    while square < 64
        invariant
            square <= 64,
            out@ == board_delta(before@, after@, square as int),
        decreases 64 - square,
    {
        let b = occupant_on(before, square);
        let a = occupant_on(after, square);
        let ghost prefix = out@;
        if !same_occupant(a, b) {
            match b {
                Some((piece, color)) => out.push(Change { added: false, piece, color, square }),
                None => {},
            }
            match a {
                Some((piece, color)) => out.push(Change { added: true, piece, color, square }),
                None => {},
            }
        }
        proof {
            assert(out@ =~= prefix + square_delta(before@, after@, square as int));
        }
        square = square + 1;
    }
    out
}

/// Whether two lists of changes hold the same changes, each as many times,
/// in whatever order.
pub fn same_changes(a: &[Change], b: &[Change]) -> (r: bool)
    ensures
        r == (a@.to_multiset() == b@.to_multiset()),
{
    broadcast use vstd::multiset::group_multiset_axioms, vstd::seq_lib::group_to_multiset_ensures;

    let mut rest: Vec<Change> = Vec::new();
    let mut j: usize = 0;
    while j < b.len()
        invariant
            j <= b@.len(),
            rest@ == b@.subrange(0, j as int),
        decreases b@.len() - j,
    {
        rest.push(b[j]);
        j = j + 1;
        proof {
            assert(rest@ =~= b@.subrange(0, j as int));
        }
    }
    proof {
        assert(b@.subrange(0, b@.len() as int) =~= b@);
        assert(a@.subrange(0, 0) =~= Seq::<Change>::empty());
        assert(rest@.to_multiset().add(a@.subrange(0, 0).to_multiset()) =~= b@.to_multiset());
    }
    let mut i: usize = 0;
    while i < a.len()
        invariant
            i <= a@.len(),
            rest@.to_multiset().add(a@.subrange(0, i as int).to_multiset()) =~= b@.to_multiset(),
        decreases a@.len() - i,
    {
        let x = a[i];
        let mut k: usize = 0;
        while k < rest.len() && rest[k] != x
            invariant
                k <= rest@.len(),
                forall|t: int| 0 <= t < k ==> rest@[t] != x,
            decreases rest@.len() - k,
        {
            k = k + 1;
        }
        if k == rest.len() {
            proof {
                let taken = a@.subrange(0, i as int);
                let left = a@.subrange(i as int, a@.len() as int);
                rest@.to_multiset_ensures();
                left.to_multiset_ensures();
                assert(!rest@.contains(x));
                assert(rest@.to_multiset().count(x) == 0);
                assert(b@.to_multiset().count(x) == taken.to_multiset().count(x));
                assert(a@ =~= taken + left);
                vstd::seq_lib::lemma_multiset_commutative(taken, left);
                assert(left[0] == x);
                assert(left.contains(x));
                assert(left.to_multiset().count(x) > 0);
                assert(a@.to_multiset().count(x) > b@.to_multiset().count(x));
            }
            return false;
        }
        let ghost before = rest@;
        rest.remove(k);
        proof {
            before.to_multiset_ensures();
            assert(before.remove(k as int).to_multiset() =~= before.to_multiset().remove(x));
            assert(a@.subrange(0, i + 1) =~= a@.subrange(0, i as int).push(x));
            a@.subrange(0, i as int).to_multiset_ensures();
            assert(before.contains(x));
            assert(before.to_multiset().count(x) > 0);
            assert(rest@.to_multiset().add(a@.subrange(0, i + 1).to_multiset()) =~= b@.to_multiset());
        }
        i = i + 1;
    }
    proof {
        assert(a@.subrange(0, a@.len() as int) =~= a@);
        rest@.to_multiset_ensures();
        a@.to_multiset_ensures();
        b@.to_multiset_ensures();
        if rest@.len() == 0 {
            assert(rest@.to_multiset().len() == 0);
            assert(rest@.to_multiset() =~= Multiset::<Change>::empty());
            assert(Multiset::<Change>::empty().add(a@.to_multiset()) =~= a@.to_multiset());
            assert(a@.to_multiset() == b@.to_multiset());
        } else {
            assert(rest@.to_multiset().len() > 0);
            assert(b@.to_multiset().len() == rest@.to_multiset().len() + a@.to_multiset().len());
            assert(a@.to_multiset() != b@.to_multiset());
        }
    }
    rest.len() == 0
}

/// What checking one move found: whether the changes derived from the parent
/// position are, up to order, the real difference, and the kind of the move.
#[derive(Clone, Copy, Debug, PartialEq, Eq, Structural)]
pub struct MoveCheck {
    /// The derived changes are the real difference.
    pub agrees: bool,
    /// The king takes its own rook: a castling move.
    pub castle: bool,
    /// A pawn moves to another file onto an empty square.
    pub en_passant: bool,
    /// The move promotes.
    pub promotion: bool,
}

/// Checks the changes derived from `board` and `mv` against the real
/// difference between `board` and `child`, the position after the move, and
/// says what kind of move it was. The square left must hold a piece.
pub fn check_move(board: &Chessboard, mv: Move, child: &Chessboard) -> (r: MoveCheck)
    requires
        mv.wf(),
        board@.piece_at(mv.from as int) is Some,
    ensures
        r.agrees == (move_changes(board@, mv).to_multiset() == board_delta(
            board@,
            child@,
            64,
        ).to_multiset()),
        r.castle == (board@.piece_at(mv.from as int) == Some(Piece::King) && holds(
            board@.colors[crate::types::color_idx(board@.side)],
            mv.to as int,
        )),
        r.en_passant == (board@.piece_at(mv.from as int) == Some(Piece::Pawn) && file_of(
            mv.from as int,
        ) != file_of(mv.to as int) && board@.piece_at(mv.to as int) is None),
        r.promotion == mv.promotion is Some,
        legal_shape(board@, mv) && castling_moves_both(board@, mv) && (forall|square: int|
            0 <= square < 64 ==> #[trigger] content(child@, square) == content_after(
                board@,
                mv,
                square,
            )) ==> r.agrees,
{
    let moving = match board.piece_on(mv.from) {
        Some(p) => p,
        None => Piece::Pawn,
    };
    let us = board.side_to_move();
    let castle = moving == Piece::King && crate::bitboard::contains(board.colors(us), mv.to);
    let en_passant = moving == Piece::Pawn && crate::types::file(mv.from) != crate::types::file(
        mv.to,
    ) && board.piece_on(mv.to).is_none();
    let mut buf = [Change::blank();4];
    let n = accumulator_delta(board, mv, &mut buf);
    let mut derived: Vec<Change> = Vec::new();
    let mut i: usize = 0;
    while i < n
        invariant
            n == move_changes(board@, mv).len(),
            n <= 4,
            i <= n,
            forall|t: int| 0 <= t < n ==> buf[t] == move_changes(board@, mv)[t],
            derived@ == move_changes(board@, mv).subrange(0, i as int),
        decreases n - i,
    {
        derived.push(buf[i]);
        i = i + 1;
        proof {
            assert(derived@ =~= move_changes(board@, mv).subrange(0, i as int));
        }
    }
    proof {
        assert(move_changes(board@, mv).subrange(0, n as int) =~= move_changes(board@, mv));
    }
    let truth = true_delta(board, child);
    let agrees = same_changes(derived.as_slice(), truth.as_slice());
    proof {
        use_type_invariant(board);
        use_type_invariant(child);
        if legal_shape(board@, mv) && castling_moves_both(board@, mv) && (forall|square: int|
            0 <= square < 64 ==> #[trigger] content(child@, square) == content_after(
                board@,
                mv,
                square,
            )) {
            lemma_difference_is_the_changes(board@, mv, child@);
        }
    }
    MoveCheck { agrees, castle, en_passant, promotion: mv.promotion.is_some() }
}


// ---------------------------------------------------------------------------
// The derived changes against the move as the generator plays it.
// ---------------------------------------------------------------------------

/// Two disjoint words never both hold a square.
proof fn lemma_disjoint(a: u64, b: u64, sq: u64)
    by (bit_vector)
    requires
        a & b == 0,
        sq < 64,
    ensures
        !(((a >> sq) & 1u64 == 1u64) && ((b >> sq) & 1u64 == 1u64)),
{
}

/// A square of a valid position holds a piece of a side exactly when that
/// side's word and that piece's word both hold it.
pub proof fn lemma_content_holds(x: BoardState, c: Color, p: Piece, sq: int)
    requires
        x.wf(),
        0 <= sq < 64,
    ensures
        holds(x.colored(c, p), sq) <==> content(x, sq) == Some((p, c)),
{
    let s = sq as u64;
    crate::bitboard::lemma_ops(x.colors[color_idx(c)], x.pieces[piece_idx(p)], s);
    lemma_disjoint(x.colors[0], x.colors[1], s);
    assert forall|i: int, j: int| 0 <= i < 6 && 0 <= j < 6 && i != j implies !(holds(
        x.pieces[i],
        sq,
    ) && holds(x.pieces[j], sq)) by {
        assert(x.pieces[i] & x.pieces[j] == 0);
        lemma_disjoint(x.pieces[i], x.pieces[j], s);
    }
}

/// In a valid position, a square with a piece on it has a side, and a
/// square of no side has no piece.
proof fn lemma_piece_has_side(x: BoardState, sq: int)
    requires
        x.wf(),
        0 <= sq < 64,
    ensures
        x.piece_at(sq) is Some <==> x.color_at(sq) is Some,
        x.color_at(sq) == Some(Color::White) <==> holds(x.colors[0], sq),
        x.color_at(sq) == Some(Color::Black) <==> holds(x.colors[1], sq),
{
    let s = sq as u64;
    let p = x.pieces;
    lemma_disjoint(x.colors[0], x.colors[1], s);
    crate::bitboard::lemma_ops(x.colors[0], x.colors[1], s);
    crate::bitboard::lemma_ops(p[0] | p[1] | p[2] | p[3] | p[4], p[5], s);
    crate::bitboard::lemma_ops(p[0] | p[1] | p[2] | p[3], p[4], s);
    crate::bitboard::lemma_ops(p[0] | p[1] | p[2], p[3], s);
    crate::bitboard::lemma_ops(p[0] | p[1], p[2], s);
    crate::bitboard::lemma_ops(p[0], p[1], s);
}

/// Whether castling moves both its pieces: the king leaves its square and
/// the rook leaves its own (they may land on each other's). In some
/// positions of chess 960 one of them stays put; the move's changes then
/// take that piece off its square and put it back, which cancels in the
/// accumulators but is no difference between the boards.
pub open spec fn castling_moves_both(s: BoardState, mv: Move) -> bool {
    holds(s.colors[color_idx(s.side)], mv.to as int) ==> {
        let (king_to, rook_to) = castle_targets(mv.from as int, mv.to as int);
        &&& king_to != mv.from as int
        &&& rook_to != mv.to as int
    }
}

/// The changes a legal move is derived to make are what the move generator
/// does to the board: every piece of the position after the move is a piece
/// of the position before, with the changes taken off and put on.
pub proof fn lemma_changes_are_the_move(s: BoardState, mv: Move, t: BoardState)
    requires
        s.wf(),
        t.wf(),
        mv.wf(),
        legal_shape(s, mv),
        forall|square: int| 0 <= square < 64 ==> #[trigger] content(t, square) == content_after(
            s,
            mv,
            square,
        ),
    ensures
        placed_after(s, t, move_changes(s, mv)),
{
    let cs = move_changes(s, mv);
    let us = s.side;
    let n = cs.len() as int;
    reveal_with_fuel(net_changes, 5);
    lemma_piece_has_side(s, mv.from as int);
    lemma_piece_has_side(s, mv.to as int);
    let taken = passed_pawn_square(us, mv.to as int);
    if 0 <= taken < 64 {
        lemma_piece_has_side(s, taken);
    }
    assert(file_of(taken) == file_of(mv.to as int));
    assert forall|i: int| 0 <= i < cs.len() implies (#[trigger] cs[i]).square < 64 by {
    }
    assert forall|c: Color, p: Piece, sq: int| 0 <= sq < 64 implies #[trigger] indicator(
        holds(t.colored(c, p), sq),
    ) == indicator(holds(s.colored(c, p), sq)) + net_changes(cs, c, p, sq, n) by {
        lemma_content_holds(s, c, p, sq);
        lemma_content_holds(t, c, p, sq);
        lemma_piece_has_side(s, sq);
        assert(content(t, sq) == content_after(s, mv, sq));
    }
}


/// The network's incremental update on a legal move, from the accumulators
/// of the position before it, gives what a full refresh computes on the
/// position the move generator plays: for each side's perspective and each
/// hidden unit, the accumulated value plus the weights of the derived
/// changes, wrapped to sixteen bits, is the refreshed value.
pub proof fn lemma_update_matches_refresh(
    weights: Seq<i16>,
    bias: Seq<i16>,
    s: BoardState,
    mv: Move,
    t: BoardState,
)
    requires
        s.wf(),
        t.wf(),
        mv.wf(),
        legal_shape(s, mv),
        forall|square: int| 0 <= square < 64 ==> #[trigger] content(t, square) == content_after(
            s,
            mv,
            square,
        ),
    ensures
        forall|perspective: Color, u: int|
            0 <= u < HIDDEN ==> wrap16(
                #[trigger] accumulator_of(weights, bias, s, perspective)[u] + change_sum(
                    weights,
                    move_changes(s, mv),
                    perspective,
                    u,
                    move_changes(s, mv).len() as int,
                ),
            ) == accumulator_of(weights, bias, t, perspective)[u],
{
    lemma_changes_are_the_move(s, mv, t);
    crate::nnue::lemma_incremental_matches_refresh(weights, bias, s, t, move_changes(s, mv));
}


/// Whether no two changes of `cs` bear on the same piece of the same side
/// on the same square.
pub open spec fn apart(cs: Seq<Change>) -> bool {
    forall|i: int, j: int|
        0 <= i < j < cs.len() ==> !((#[trigger] cs[i]).color == (#[trigger] cs[j]).color
            && cs[i].piece == cs[j].piece && cs[i].square == cs[j].square)
}

/// Without a change on a piece, side and square among the first `n`, their
/// net is zero.
proof fn lemma_net_untouched(cs: Seq<Change>, c: Color, p: Piece, sq: int, n: int)
    requires
        0 <= n <= cs.len(),
        forall|i: int|
            0 <= i < n ==> !((#[trigger] cs[i]).color == c && cs[i].piece == p && cs[i].square
                == sq),
    ensures
        net_changes(cs, c, p, sq, n) == 0,
    decreases n,
{
    if n > 0 {
        lemma_net_untouched(cs, c, p, sq, n - 1);
    }
}

/// In changes apart, a change occurs once if its piece, side and square go
/// up by one and it puts down, or down by one and it takes off; never
/// otherwise.
proof fn lemma_count_by_net(cs: Seq<Change>, x: Change, n: int)
    requires
        0 <= n <= cs.len(),
        apart(cs),
    ensures
        cs.take(n).to_multiset().count(x) == indicator(
            x.added && net_changes(cs, x.color, x.piece, x.square as int, n) == 1,
        ) + indicator(!x.added && net_changes(cs, x.color, x.piece, x.square as int, n) == -1),
        -1 <= net_changes(cs, x.color, x.piece, x.square as int, n) <= 1,
    decreases n,
{
    broadcast use vstd::multiset::group_multiset_axioms;

    if n == 0 {
        assert(cs.take(0) =~= Seq::<Change>::empty());
        cs.take(0).to_multiset_ensures();
        assert(!cs.take(0).contains(x));
    } else {
        lemma_count_by_net(cs, x, n - 1);
        assert(cs.take(n) =~= cs.take(n - 1).push(cs[n - 1]));
        cs.take(n - 1).to_multiset_ensures();
        let y = cs[n - 1];
        let prev = net_changes(cs, x.color, x.piece, x.square as int, n - 1);
        let step = if y.color == x.color && y.piece == x.piece && y.square as int == x.square as int {
            if y.added {
                1int
            } else {
                -1int
            }
        } else {
            0int
        };
        assert(net_changes(cs, x.color, x.piece, x.square as int, n) == prev + step);
        assert(cs.take(n).to_multiset().count(x) == cs.take(n - 1).to_multiset().count(x) + (if y
            == x {
            1int
        } else {
            0int
        }));
        if y.color == x.color && y.piece == x.piece && y.square == x.square {
            assert forall|i: int| 0 <= i < n - 1 implies !((#[trigger] cs[i]).color == x.color
                && cs[i].piece == x.piece && cs[i].square as int == x.square as int) by {
                assert(!(cs[i].color == cs[n - 1].color && cs[i].piece == cs[n - 1].piece
                    && cs[i].square == cs[n - 1].square));
            }
            lemma_net_untouched(cs, x.color, x.piece, x.square as int, n - 1);
        }
    }
}

/// A valid position's occupant of a square is its content.
proof fn lemma_occupant_is_content(x: BoardState, sq: int)
    requires
        x.wf(),
        0 <= sq < 64,
    ensures
        occupant(x, sq) == content(x, sq),
{
    lemma_piece_has_side(x, sq);
}

/// The change of an occupant bears on its own square only.
proof fn lemma_occupant_change_count(o: Option<(Piece, Color)>, added: bool, sq: int, x: Change)
    requires
        0 <= sq < 64,
        x.square as int != sq,
    ensures
        occupant_change(o, added, sq).to_multiset().count(x) == 0,
{
    broadcast use vstd::multiset::group_multiset_axioms;

    let d = occupant_change(o, added, sq);
    d.to_multiset_ensures();
    if d.len() > 0 {
        assert(d =~= seq![d[0]]);
        assert(d[0].square == sq as u8);
        assert(d[0] != x);
        assert(!d.contains(x)) by {
            if d.contains(x) {
                let k = choose|k: int| 0 <= k < d.len() && d[k] == x;
                assert(k == 0);
            }
        }
    } else {
        assert(!d.contains(x));
    }
}

/// The changes square by square hold a change only on its own square, and
/// there as many times as the square's difference holds it.
proof fn lemma_board_delta_count(s: BoardState, t: BoardState, x: Change, n: int)
    requires
        0 <= n <= 64,
    ensures
        board_delta(s, t, n).to_multiset().count(x) == if (x.square as int) < n {
            square_delta(s, t, x.square as int).to_multiset().count(x)
        } else {
            0
        },
    decreases n,
{
    broadcast use vstd::multiset::group_multiset_axioms;

    if n == 0 {
        board_delta(s, t, 0).to_multiset_ensures();
        assert(!board_delta(s, t, 0).contains(x));
    } else {
        lemma_board_delta_count(s, t, x, n - 1);
        vstd::seq_lib::lemma_multiset_commutative(
            board_delta(s, t, n - 1),
            square_delta(s, t, n - 1),
        );
        assert(board_delta(s, t, n) == board_delta(s, t, n - 1) + square_delta(s, t, n - 1));
        if (x.square as int) != n - 1 {
            let b = occupant(s, n - 1);
            let a = occupant(t, n - 1);
            if a != b {
                vstd::seq_lib::lemma_multiset_commutative(
                    occupant_change(b, false, n - 1),
                    occupant_change(a, true, n - 1),
                );
                lemma_occupant_change_count(b, false, n - 1, x);
                lemma_occupant_change_count(a, true, n - 1, x);
            } else {
                Seq::<Change>::empty().to_multiset_ensures();
                assert(!Seq::<Change>::empty().contains(x));
            }
            assert(square_delta(s, t, n - 1).to_multiset().count(x) == 0);
        }
    }
}


/// On one square of two valid positions, the difference holds a change
/// once if the piece of that side is there after and not before and the
/// change puts down, or there before and not after and it takes off.
proof fn lemma_square_delta_count(s: BoardState, t: BoardState, x: Change)
    requires
        s.wf(),
        t.wf(),
        (x.square as int) < 64,
    ensures
        ({
            let sq = x.square as int;
            let diff = indicator(holds(t.colored(x.color, x.piece), sq)) - indicator(
                holds(s.colored(x.color, x.piece), sq),
            );
            square_delta(s, t, sq).to_multiset().count(x) == indicator(x.added && diff == 1)
                + indicator(!x.added && diff == -1)
        }),
{
    broadcast use vstd::multiset::group_multiset_axioms;

    let sq = x.square as int;
    lemma_occupant_is_content(s, sq);
    lemma_occupant_is_content(t, sq);
    lemma_content_holds(s, x.color, x.piece, sq);
    lemma_content_holds(t, x.color, x.piece, sq);
    let b = occupant(s, sq);
    let a = occupant(t, sq);
    let removed = occupant_change(b, false, sq);
    let put = occupant_change(a, true, sq);
    removed.to_multiset_ensures();
    put.to_multiset_ensures();
    Seq::<Change>::empty().to_multiset_ensures();
    assert(!Seq::<Change>::empty().contains(x));
    vstd::seq_lib::lemma_multiset_commutative(removed, put);
    if removed.len() > 0 {
        assert(removed =~= seq![removed[0]]);
        assert(removed.contains(x) <==> removed[0] == x) by {
            if removed.contains(x) {
                let k = choose|k: int| 0 <= k < removed.len() && removed[k] == x;
                assert(k == 0);
            }
        }
    } else {
        assert(!removed.contains(x));
    }
    if put.len() > 0 {
        assert(put =~= seq![put[0]]);
        assert(put.contains(x) <==> put[0] == x) by {
            if put.contains(x) {
                let k = choose|k: int| 0 <= k < put.len() && put[k] == x;
                assert(k == 0);
            }
        }
    } else {
        assert(!put.contains(x));
    }
    assert(seq![removed[0]].to_multiset().count(x) <= 1) by {
        seq![removed[0]].to_multiset_ensures();
        Seq::<Change>::empty().push(removed[0]).to_multiset_ensures();
        assert(seq![removed[0]] =~= Seq::<Change>::empty().push(removed[0]));
    }
    assert(seq![put[0]].to_multiset().count(x) <= 1) by {
        Seq::<Change>::empty().push(put[0]).to_multiset_ensures();
        assert(seq![put[0]] =~= Seq::<Change>::empty().push(put[0]));
    }
}


/// The changes derived for a legal move bear on distinct pieces, sides and
/// squares: castling moves the king and the rook each off their own
/// square, the squares a move leaves,
/// reaches and takes on en passant are distinct, and on its square of
/// arrival the piece taken and the piece put are of opposite sides.
proof fn lemma_move_changes_apart(s: BoardState, mv: Move)
    requires
        s.wf(),
        mv.wf(),
        legal_shape(s, mv),
        castling_moves_both(s, mv),
    ensures
        apart(move_changes(s, mv)),
        forall|i: int|
            0 <= i < move_changes(s, mv).len() ==> (#[trigger] move_changes(s, mv)[i]).square < 64,
{
    let us = s.side;
    lemma_piece_has_side(s, mv.from as int);
    lemma_piece_has_side(s, mv.to as int);
    let taken = passed_pawn_square(us, mv.to as int);
    if 0 <= taken < 64 {
        lemma_piece_has_side(s, taken);
    }
    assert(file_of(taken) == file_of(mv.to as int));
}

/// The real difference between the positions before and after a legal
/// move, read square by square, holds the changes derived from the position
/// before and the move alone, each as many times, in whatever order.
pub proof fn lemma_difference_is_the_changes(s: BoardState, mv: Move, t: BoardState)
    requires
        s.wf(),
        t.wf(),
        mv.wf(),
        legal_shape(s, mv),
        castling_moves_both(s, mv),
        forall|square: int| 0 <= square < 64 ==> #[trigger] content(t, square) == content_after(
            s,
            mv,
            square,
        ),
    ensures
        board_delta(s, t, 64).to_multiset() == move_changes(s, mv).to_multiset(),
{
    let cs = move_changes(s, mv);
    lemma_changes_are_the_move(s, mv, t);
    lemma_move_changes_apart(s, mv);
    assert(cs.take(cs.len() as int) =~= cs);
    assert forall|x: Change| #[trigger]
        board_delta(s, t, 64).to_multiset().count(x) == cs.to_multiset().count(x) by {
        lemma_board_delta_count(s, t, x, 64);
        lemma_count_by_net(cs, x, cs.len() as int);
        if (x.square as int) < 64 {
            lemma_square_delta_count(s, t, x);
            assert(indicator(holds(t.colored(x.color, x.piece), x.square as int)) == indicator(
                holds(s.colored(x.color, x.piece), x.square as int),
            ) + net_changes(cs, x.color, x.piece, x.square as int, cs.len() as int));
        } else {
            lemma_net_untouched(cs, x.color, x.piece, x.square as int, cs.len() as int);
        }
    }
    assert(board_delta(s, t, 64).to_multiset() =~= cs.to_multiset());
}

} // verus!
