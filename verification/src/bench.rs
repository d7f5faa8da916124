//! The fixed workload that measures the search's work: how many nodes it
//! visits to reach a depth on a set of positions. The node count is
//! deterministic; the speed is not.
use vstd::prelude::*;

use std::sync::atomic::AtomicBool;
use std::sync::Arc;

use crate::board::spec_parse_fen;
use crate::position::Position;
use crate::search::{Limits, Search};

verus! {

/// The positions of the workload: opening, dense middlegame, endgame,
/// promotions, castling.
pub const BENCH_FENS: [&'static str; 6] = [
    "rnbqkbnr/pppppppp/8/8/8/8/PPPPPPPP/RNBQKBNR w KQkq - 0 1",
    "r3k2r/p1ppqpb1/bn2pnp1/3PN3/1p2P3/2N2Q1p/PPPBBPPP/R3K2R w KQkq - 0 1",
    "8/2p5/3p4/KP5r/1R3p1k/8/4P1P1/8 w - - 0 1",
    "r3k2r/Pppp1ppp/1b3nbN/nP6/BBP1P3/q4N2/Pp1P2PP/R2Q1RK1 w kq - 0 1",
    "rnbq1k1r/pp1Pbppp/2p5/8/2B5/8/PPP1NnPP/RNBQK2R w KQ - 1 8",
    "r4rk1/1pp1qppp/p1np1n2/2b1p1B1/2B1P1b1/P1NP1N2/1PP1QPPP/R4RK1 w - - 0 10",
];

/// The default depth of the workload.
pub const DEFAULT_DEPTH: u32 = 7;

/// The nodes a fresh search visits to reach `depth` from a position, with
/// the given reduction table; the error of a FEN that does not read.
pub fn bench_nodes(fen: &str, depth: u32, lmr: Vec<i32>) -> (r: Result<u64, String>)
    ensures
        r is Ok <==> spec_parse_fen(fen@) is Some,
        r matches Ok(n) ==> n >= 1,
{
    let position = match Position::from_fen(fen) {
        Ok(p) => p,
        Err(e) => {
            return Err(e);
        },
    };
    let mut search = Search::new(Arc::new(AtomicBool::new(false)), lmr);
    let mut limits = Limits::default();
    limits.depth = Some(depth);
    search.go(&position, &limits, ignore);
    Ok(search.nodes())
}

/// Ignores a search report.
fn ignore(_info: &crate::search::Info) {
}

} // verus!
