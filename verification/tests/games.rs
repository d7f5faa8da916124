use std::sync::atomic::AtomicBool;
use std::sync::Arc;

use shallowred::position::Position;
use shallowred::search::{random_legal_move, Limits, Search, LMR_TABLE_SIDE};
use shallowred::types::Color;

/// The reduction table the engine builds at start-up.
fn lmr_table() -> Vec<i32> {
    let mut table = vec![0; LMR_TABLE_SIDE * LMR_TABLE_SIDE];
    for depth in 1..LMR_TABLE_SIDE {
        for index in 1..LMR_TABLE_SIDE {
            let value = 0.75 + (depth as f64).ln() * (index as f64).ln() / 2.25;
            table[depth * LMR_TABLE_SIDE + index] = (value as i32).max(1);
        }
    }
    table
}

#[derive(Debug, Clone, Copy, PartialEq, Eq)]
enum Outcome {
    EngineWin,
    EngineLoss,
    Draw,
}

const OPENINGS: [&[&str]; 12] = [
    &[],
    &["e2e4", "e7e5"],
    &["d2d4", "d7d5"],
    &["c2c4", "e7e5"],
    &["g1f3", "g8f6"],
    &["e2e4", "c7c5"],
    &["d2d4", "g8f6", "c2c4", "e7e6"],
    &["e2e4", "e7e6", "d2d4", "d7d5"],
    &["e2e4", "c7c6", "d2d4", "d7d5"],
    &["g1f3", "d7d5", "g2g3", "g8f6"],
    &["b2b3", "e7e5"],
    &["f2f4", "d7d5"],
];

/// A whole game, the engine against the draw of lots.
fn play_game(opening: &[&str], engine_is_white: bool, depth: u32) -> Outcome {
    let mut position = Position::startpos();
    for token in opening {
        position.play_uci(token).unwrap();
    }

    let stop = Arc::new(AtomicBool::new(false));
    let limits = Limits { depth: Some(depth), ..Limits::default() };

    for _ in 0..300 {
        if position.board().legal_moves().is_empty() {
            let side_to_move_is_engine =
                (position.board().side_to_move() == Color::White) == engine_is_white;
            return if position.board().checkers() == 0 {
                Outcome::Draw
            } else if side_to_move_is_engine {
                Outcome::EngineLoss
            } else {
                Outcome::EngineWin
            };
        }
        if position.is_fifty_move_draw() || position.repetition_count() >= 2 {
            return Outcome::Draw;
        }

        let engine_turn = (position.board().side_to_move() == Color::White) == engine_is_white;
        let mv = if engine_turn {
            Search::new(Arc::clone(&stop), lmr_table()).go(&position, &limits, |_| {}).unwrap()
        } else {
            random_legal_move(position.board()).unwrap()
        };
        position.play(mv);
    }
    Outcome::Draw
}

struct Tally {
    wins: usize,
    draws: usize,
    losses: Vec<String>,
}

fn tournament(openings: &[&[&str]], depth: u32) -> Tally {
    let mut tally = Tally { wins: 0, draws: 0, losses: Vec::new() };
    for opening in openings {
        for engine_is_white in [true, false] {
            match play_game(opening, engine_is_white, depth) {
                Outcome::EngineWin => tally.wins += 1,
                Outcome::Draw => tally.draws += 1,
                Outcome::EngineLoss => tally.losses.push(format!(
                    "{opening:?} (moteur aux {})",
                    if engine_is_white { "Blancs" } else { "Noirs" }
                )),
            }
        }
    }
    tally
}

#[test]
fn le_moteur_ne_perd_jamais_contre_le_tirage_au_sort() {
    let tally = tournament(&OPENINGS[..6], 3);
    assert!(tally.losses.is_empty(), "défaites contre le hasard : {:?}", tally.losses);
    assert!(
        tally.wins >= 10,
        "sur 12 parties : {} gains, {} nulles — la conversion est trop faible",
        tally.wins,
        tally.draws
    );
}
