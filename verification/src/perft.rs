//! Perft: exhaustive enumeration of the move tree to a fixed depth.
//!
//! Perft is the one part of the engine whose correctness is checked exactly:
//! a single move generated too many or too few, anywhere, and the total is
//! wrong.
use vstd::prelude::*;

use crate::board::{spec_is_legal, spec_legal_moves, spec_play, BoardState, Chessboard};
use crate::types::Move;

verus! {

/// The number of leaves of the legal move tree `depth` plies deep.
pub open spec fn perft_spec(s: BoardState, depth: nat) -> nat
    decreases depth, 1nat, 0nat,
{
    if depth == 0 {
        1
    } else {
        children_sum(s, spec_legal_moves(s), (depth - 1) as nat)
    }
}

/// The leaves under each of `moves`, `depth` plies below the position they
/// lead to, added up.
pub open spec fn children_sum(s: BoardState, moves: Seq<Move>, depth: nat) -> nat
    decreases depth + 1, 0nat, moves.len(),
{
    if moves.len() == 0 {
        0
    } else {
        children_sum(s, moves.drop_last(), depth) + perft_spec(spec_play(s, moves.last()), depth)
    }
}

/// The leaves of the tree, if their number fits a `u64`.
pub fn perft_checked(board: &Chessboard, depth: u32) -> (r: Option<u64>)
    ensures
        r == (if perft_spec(board@, depth as nat) <= u64::MAX {
            Some(perft_spec(board@, depth as nat) as u64)
        } else {
            None::<u64>
        }),
    decreases depth,
{
    if depth == 0 {
        return Some(1);
    }
    let moves = board.legal_moves();
    let mut nodes: u64 = 0;
    let mut k: usize = 0;
    while k < moves.len()
        invariant
            k <= moves@.len(),
            depth >= 1,
            moves@ == spec_legal_moves(board@),
            forall|m: Move| m.wf() ==> (moves@.contains(m) <==> spec_is_legal(board@, m)),
            forall|i: int| 0 <= i < moves@.len() ==> (#[trigger] moves@[i]).wf(),
            nodes == children_sum(board@, moves@.subrange(0, k as int), (depth - 1) as nat),
        decreases moves@.len() - k,
    {
        let mv = moves[k];
        proof {
            assert(moves@.contains(moves@[k as int]));
            assert(moves@.subrange(0, k + 1).drop_last() =~= moves@.subrange(0, k as int));
            assert(moves@.subrange(0, k + 1).last() == moves@[k as int]);
            lemma_children_sum_prefix(board@, moves@, (depth - 1) as nat, k + 1);
            lemma_child_within(board@, moves@, (depth - 1) as nat, k as int);
            assert(perft_spec(board@, depth as nat) == children_sum(
                board@,
                moves@,
                (depth - 1) as nat,
            ));
            assert(perft_spec(spec_play(board@, mv), 0) == 1);
        }
        let below: u64 = if depth == 1 {
            1
        } else {
            let child = board.play(mv);
            match perft_checked(&child, depth - 1) {
                Some(n) => n,
                None => {
                    return None;
                },
            }
        };
        match nodes.checked_add(below) {
            Some(sum) => nodes = sum,
            None => {
                return None;
            },
        }
        k = k + 1;
    }
    proof {
        assert(moves@.subrange(0, moves@.len() as int) =~= moves@);
    }
    Some(nodes)
}

/// A prefix of the moves never holds more leaves than all of them.
proof fn lemma_children_sum_prefix(s: BoardState, moves: Seq<Move>, depth: nat, k: int)
    requires
        0 <= k <= moves.len(),
    ensures
        children_sum(s, moves.subrange(0, k), depth) <= children_sum(s, moves, depth),
    decreases moves.len() - k,
{
    if k < moves.len() {
        lemma_children_sum_prefix(s, moves, depth, k + 1);
        assert(moves.subrange(0, k + 1).drop_last() =~= moves.subrange(0, k));
    } else {
        assert(moves.subrange(0, k) =~= moves);
    }
}

/// Counts the leaves of the legal move tree `depth` plies deep. At the last
/// depth, moves are counted without being played.
pub fn perft(board: &Chessboard, depth: u32) -> (r: u64)
    requires
        perft_spec(board@, depth as nat) <= u64::MAX,
    ensures
        r == perft_spec(board@, depth as nat),
{
    match perft_checked(board, depth) {
        Some(n) => n,
        None => 0,
    }
}

/// The leaves under each root move, in generation order: the tool to use
/// when a perft total diverges from a reference.
pub fn divide(board: &Chessboard, depth: u32) -> (r: Vec<(Move, u64)>)
    requires
        perft_spec(board@, depth as nat) <= u64::MAX,
    ensures
        depth == 0 ==> r@.len() == 0,
        forall|i: int| 0 <= i < r@.len() ==> (#[trigger] r@[i]).0.wf(),
        depth >= 1 ==> r@.len() == spec_legal_moves(board@).len(),
        depth >= 1 ==> forall|i: int|
            0 <= i < r@.len() ==> #[trigger] r@[i] == (
                spec_legal_moves(board@)[i],
                perft_spec(spec_play(board@, spec_legal_moves(board@)[i]), (depth - 1) as nat)
                    as u64,
            ),
{
    let mut out: Vec<(Move, u64)> = Vec::new();
    if depth == 0 {
        return out;
    }
    let moves = board.legal_moves();
    let mut k: usize = 0;
    while k < moves.len()
        invariant
            k <= moves@.len(),
            depth >= 1,
            moves@ == spec_legal_moves(board@),
            forall|m: Move| m.wf() ==> (moves@.contains(m) <==> spec_is_legal(board@, m)),
            forall|i: int| 0 <= i < moves@.len() ==> (#[trigger] moves@[i]).wf(),
            perft_spec(board@, depth as nat) <= u64::MAX,
            out@.len() == k,
            forall|i: int| 0 <= i < k ==> (#[trigger] out@[i]).0.wf(),
            forall|i: int|
                0 <= i < k ==> #[trigger] out@[i] == (
                    moves@[i],
                    perft_spec(spec_play(board@, moves@[i]), (depth - 1) as nat) as u64,
                ),
        decreases moves@.len() - k,
    {
        let mv = moves[k];
        proof {
            assert(moves@.contains(moves@[k as int]));
            lemma_child_within(board@, moves@, (depth - 1) as nat, k as int);
            assert(moves@.subrange(0, moves@.len() as int) =~= moves@);
            lemma_children_sum_prefix(board@, moves@, (depth - 1) as nat, moves@.len() as int);
        }
        let child = board.play(mv);
        let count = perft(&child, depth - 1);
        out.push((mv, count));
        k = k + 1;
    }
    out
}

/// Each move's leaves count at most all of them.
pub(crate) proof fn lemma_child_within(s: BoardState, moves: Seq<Move>, depth: nat, i: int)
    requires
        0 <= i < moves.len(),
    ensures
        perft_spec(spec_play(s, moves[i]), depth) <= children_sum(s, moves, depth),
    decreases moves.len(),
{
    if i < moves.len() - 1 {
        lemma_child_within(s, moves.drop_last(), depth, i);
    }
}

/// The leaf counts of a divide, added up.
pub open spec fn total(entries: Seq<(Move, u64)>) -> int
    decreases entries.len(),
{
    if entries.len() == 0 {
        0
    } else {
        total(entries.drop_last()) + entries.last().1
    }
}

/// A prefix one entry longer adds that entry's count.
pub(crate) proof fn lemma_total_take(entries: Seq<(Move, u64)>, j: int)
    requires
        1 <= j <= entries.len(),
    ensures
        total(entries.take(j)) == total(entries.take(j - 1)) + entries[j - 1].1,
{
    assert(entries.take(j).drop_last() =~= entries.take(j - 1));
}

/// A prefix counts no more than the whole.
pub(crate) proof fn lemma_total_take_within(entries: Seq<(Move, u64)>, j: int)
    requires
        0 <= j <= entries.len(),
    ensures
        0 <= total(entries.take(j)) <= total(entries),
    decreases entries.len() - j,
{
    if j < entries.len() {
        lemma_total_take_within(entries, j + 1);
        lemma_total_take(entries, j + 1);
        lemma_total_nonneg(entries.take(j));
    } else {
        assert(entries.take(j) =~= entries);
        lemma_total_nonneg(entries);
    }
}

/// Counts add up to no less than zero.
proof fn lemma_total_nonneg(entries: Seq<(Move, u64)>)
    ensures
        total(entries) >= 0,
    decreases entries.len(),
{
    if entries.len() > 0 {
        lemma_total_nonneg(entries.drop_last());
    }
}

/// The counts of a divide add up to the perft of the position: each root
/// move's count is the perft of the position it leads to, one ply shallower.
pub proof fn lemma_divide_sums_to_perft(s: BoardState, depth: nat, entries: Seq<(Move, u64)>)
    requires
        depth >= 1,
        entries.len() == spec_legal_moves(s).len(),
        forall|i: int|
            0 <= i < entries.len() ==> #[trigger] entries[i].1 == perft_spec(
                spec_play(s, spec_legal_moves(s)[i]),
                (depth - 1) as nat,
            ) && entries[i].0 == spec_legal_moves(s)[i],
    ensures
        total(entries) == perft_spec(s, depth),
{
    lemma_total_prefix(s, spec_legal_moves(s), (depth - 1) as nat, entries);
}

proof fn lemma_total_prefix(s: BoardState, moves: Seq<Move>, depth: nat, entries: Seq<(Move, u64)>)
    requires
        entries.len() == moves.len(),
        forall|i: int|
            0 <= i < entries.len() ==> #[trigger] entries[i].1 == perft_spec(
                spec_play(s, moves[i]),
                depth,
            ),
    ensures
        total(entries) == children_sum(s, moves, depth),
    decreases entries.len(),
{
    if entries.len() > 0 {
        let shorter = entries.drop_last();
        assert forall|i: int| 0 <= i < shorter.len() implies #[trigger] shorter[i].1 == perft_spec(
            spec_play(s, moves.drop_last()[i]),
            depth,
        ) by {
            assert(shorter[i] == entries[i]);
        }
        lemma_total_prefix(s, moves.drop_last(), depth, shorter);
    }
}

} // verus!
