use std::sync::atomic::AtomicBool;
use std::sync::Arc;

use shallowred::board::Chessboard;
use shallowred::eval::evaluate;
use shallowred::search::{Search, LMR_TABLE_SIDE};
use shallowred::texel::{epd_of, opening_book, play_texel_game, GameResult};

fn lmr_table() -> Vec<i32> {
    let mut table = vec![0; LMR_TABLE_SIDE * LMR_TABLE_SIDE];
    for depth in 1..LMR_TABLE_SIDE {
        for index in 1..LMR_TABLE_SIDE {
            let value = 0.75 + (depth as f64).ln() * (index as f64).ln() / 2.25;
            table[depth * LMR_TABLE_SIDE + index] = (value as i32).max(1);
        }
    }
    table
}

fn search() -> Search {
    Search::new(Arc::new(AtomicBool::new(false)), lmr_table())
}

fn board(fen: &str) -> Chessboard {
    Chessboard::from_fen(fen).unwrap()
}

#[test]
fn une_position_matee_donne_le_resultat_sans_rien_enregistrer() {
    let game = play_texel_game(board("R5k1/5ppp/8/8/8/8/8/6K1 b - - 0 1"), 3, &mut search());
    assert_eq!(game.result, GameResult::WhiteWin);
    assert!(game.positions.is_empty());
    let pat = play_texel_game(board("7k/5Q2/6K1/8/8/8/8/8 b - - 0 1"), 3, &mut search());
    assert_eq!(pat.result, GameResult::Draw);
}

#[test]
fn un_mat_en_un_finit_la_partie_au_coup_suivant() {
    let game = play_texel_game(board("6k1/5ppp/8/8/8/8/5PPP/3Q2K1 w - - 0 1"), 3, &mut search());
    assert_eq!(game.result, GameResult::WhiteWin);
    // Only the first two positions were seen: neither is recorded.
    assert!(game.positions.is_empty());
}

#[test]
fn un_gros_avantage_gagne_la_partie() {
    let game = play_texel_game(board("4k3/8/8/3q4/8/8/7r/4K3 b - - 0 1"), 3, &mut search());
    assert_eq!(game.result, GameResult::BlackWin);
    for fen in &game.positions {
        assert_eq!(board(fen).checkers(), 0, "{fen} est en échec");
    }
}

#[test]
fn les_positions_enregistrees_sont_calmes() {
    let game = play_texel_game(board("8/8/4k3/8/8/3K4/4P3/8 w - - 0 1"), 2, &mut search());
    assert!(!game.positions.is_empty());
    assert!(game.positions.len() <= 300);
    for fen in &game.positions {
        assert_eq!(board(fen).checkers(), 0, "{fen} est en échec");
    }
}

#[test]
fn la_position_de_livre_perd_ses_compteurs() {
    assert_eq!(
        epd_of("rnbqkbnr/pppppppp/8/8/8/8/PPPPPPPP/RNBQKBNR w KQkq - 0 1"),
        "rnbqkbnr/pppppppp/8/8/8/8/PPPPPPPP/RNBQKBNR w KQkq -"
    );
    assert_eq!(epd_of("8/8 w"), "8/8 w");
}

#[test]
fn le_livre_est_equilibre_distinct_et_reproductible() {
    let mut a = 0x5EED_1234_ABCD_0001_u64;
    let mut b = a;
    let (first, tries) = opening_book(20, 8, 80, &mut a);
    let (again, tries_again) = opening_book(20, 8, 80, &mut b);
    assert_eq!(first, again);
    assert_eq!(tries, tries_again);
    assert_eq!(first.len(), 20);
    assert!(tries >= 20);
    for (i, epd) in first.iter().enumerate() {
        let position = board(&format!("{epd} 0 1"));
        assert!(evaluate(&position).abs() <= 80, "{epd}");
        assert!(!first[..i].contains(epd), "{epd} en double");
    }
}
