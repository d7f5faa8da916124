use std::sync::atomic::AtomicBool;
use std::sync::Arc;

use shallowred::board::Chessboard;
use shallowred::datagen::{
    adjudicate, encode_move, game_seed, parse_args, play_game, play_indexed_game,
    random_opening, rule_outcome, white_relative, DrawKind, MoveKind, Outcome, Stats, WinKind,
    DEFAULT_NODES, MATE_SCORE, OPENING_MAX_SCORE,
};
use shallowred::position::Position;
use shallowred::search::{Score, Search, LMR_TABLE_SIDE};
use shallowred::types::{Color, Piece};

fn lmr_table() -> Vec<i32> {
    let mut table = vec![0; LMR_TABLE_SIDE * LMR_TABLE_SIDE];
    for depth in 1..LMR_TABLE_SIDE {
        for index in 1..LMR_TABLE_SIDE {
            let value = 0.75 + (depth as f64).ln() * (index as f64).ln() / 2.25;
            table[depth * LMR_TABLE_SIDE + index] = (value as i32).max(1);
        }
    }
    table
}

fn search() -> Search {
    Search::new(Arc::new(AtomicBool::new(false)), lmr_table())
}

fn board(fen: &str) -> Chessboard {
    Chessboard::from_fen(fen).unwrap()
}

fn args(list: &[&str]) -> Vec<String> {
    list.iter().map(ToString::to_string).collect()
}

#[test]
fn le_score_est_ecrit_du_point_de_vue_des_blancs() {
    assert_eq!(white_relative(Score::Cp(150), Color::White), Some(150));
    assert_eq!(white_relative(Score::Cp(150), Color::Black), Some(-150));
    assert_eq!(white_relative(Score::Mate(3), Color::Black), Some(-MATE_SCORE));
    assert_eq!(white_relative(Score::Mate(-2), Color::White), Some(-MATE_SCORE));
    assert_eq!(white_relative(Score::Mate(1), Color::White), Some(MATE_SCORE));
    assert_eq!(white_relative(Score::Cp(99_999), Color::White), Some(31_000));
    assert_eq!(white_relative(Score::Mate(0), Color::White), None);
}

#[test]
fn une_partie_noire_gagnante_s_ecrit_en_negatif() {
    let opening = board("4k3/8/8/3q4/8/8/7r/4K3 b - - 0 1");
    let game = play_game(opening, 2_000, None, &mut search()).unwrap().unwrap();
    let first = game.moves[0].1;
    assert!(i32::from(first) < -OPENING_MAX_SCORE / 2, "score écrit : {first}");
    assert!(matches!(game.outcome, Some(Outcome::BlackWin(_))), "les Noirs gagnent");
}

#[test]
fn le_mat_est_etiquete_pour_le_bon_camp() {
    let white_mates = board("6k1/5ppp/8/8/8/8/5PPP/3Q2K1 w - - 0 1");
    let game = play_game(white_mates, 5_000, None, &mut search()).unwrap().unwrap();
    assert_eq!(game.moves.len(), 1);
    assert_eq!(game.outcome, Some(Outcome::WhiteWin(WinKind::Mate)));
    let black_mates = board("3q2k1/5ppp/8/8/8/8/5PPP/6K1 b - - 0 1");
    let game = play_game(black_mates, 5_000, None, &mut search()).unwrap().unwrap();
    assert_eq!(game.moves.len(), 1);
    assert_eq!(game.outcome, Some(Outcome::BlackWin(WinKind::Mate)));
}

#[test]
fn les_regles_arretent_la_partie() {
    let stalemate = Position::from_board(board("7k/5Q2/6K1/8/8/8/8/8 b - - 0 1"));
    assert_eq!(rule_outcome(&stalemate), Some(Outcome::Draw(DrawKind::Stalemate)));
    let bare_kings = Position::from_board(board("8/8/4k3/8/8/3K4/8/8 w - - 0 1"));
    assert_eq!(rule_outcome(&bare_kings), Some(Outcome::Draw(DrawKind::InsufficientMaterial)));
    let fifty = Position::from_board(board("4k3/8/8/8/8/8/4P3/4K3 w - - 100 80"));
    assert_eq!(rule_outcome(&fifty), Some(Outcome::Draw(DrawKind::FiftyMoves)));
    let mated = Position::from_board(board("R5k1/5ppp/8/8/8/8/8/6K1 b - - 0 1"));
    assert_eq!(rule_outcome(&mated), Some(Outcome::WhiteWin(WinKind::Mate)));
    assert_eq!(rule_outcome(&Position::startpos()), None);
}

#[test]
fn la_repetition_de_partie_demande_trois_occurrences() {
    let mut position = Position::startpos();
    for (round, expected) in [(1, None), (2, Some(Outcome::Draw(DrawKind::Repetition)))] {
        for token in ["g1f3", "g8f6", "f3g1", "f6g8"] {
            position.play_uci(token).unwrap();
        }
        assert_eq!(rule_outcome(&position), expected, "tour {round}");
    }
}

#[test]
fn les_coups_speciaux_sont_codes_selon_leur_sorte() {
    let b = board("r3k2r/8/8/8/8/8/8/R3K2R w KQkq - 0 1");
    let roque = b.parse_uci("e1g1").unwrap();
    let code = encode_move(&b, roque).unwrap();
    assert_eq!(code.kind, MoveKind::Castle);
    // Castling is written king takes rook: e1 (4) to h1 (7).
    assert_eq!((code.from, code.to), (4, 7));

    let b = board("rnbqkbnr/ppp1p1pp/8/3pPp2/8/8/PPPP1PPP/RNBQKBNR w KQkq f6 0 3");
    let prise = b.parse_uci("e5f6").unwrap();
    assert_eq!(encode_move(&b, prise).unwrap().kind, MoveKind::EnPassant);

    let b = board("r1r1k3/1P6/8/8/8/8/8/4K3 w - - 0 1");
    let promo = b.parse_uci("b7a8n").unwrap();
    assert_eq!(encode_move(&b, promo).unwrap().kind, MoveKind::Promotion(Piece::Knight));

    let b = Chessboard::startpos();
    let e4 = b.parse_uci("e2e4").unwrap();
    assert_eq!(encode_move(&b, e4).unwrap().kind, MoveKind::Normal);
}

#[test]
fn meme_graine_memes_parties() {
    let fens = |seed: u64, s: &mut Search| {
        let mut out = Vec::new();
        for index in 0..12 {
            if let Some(game) = play_indexed_game(seed, index, 400, s).unwrap() {
                out.push((game.start.clone(), game.moves.len(), game.outcome));
            }
        }
        out
    };
    let mut shared = search();
    let first = fens(11, &mut shared);
    let again = fens(11, &mut shared);
    assert!(!first.is_empty());
    assert_eq!(first, again);
    assert_eq!(first, fens(11, &mut search()));
}

#[test]
fn une_ouverture_desequilibree_est_ecartee() {
    let lopsided = board("rnb1kbnr/pppppppp/8/8/8/8/PPPPPPPP/RNBQKBNR w KQkq - 0 1");
    assert!(play_game(lopsided, 2_000, Some(OPENING_MAX_SCORE), &mut search())
        .unwrap()
        .is_none());
}

#[test]
fn les_options_sont_lues_et_bornees() {
    let config = parse_args(&args(&["--out", "d", "--games", "3", "--threads", "2"])).unwrap();
    assert_eq!((config.games, config.threads, config.nodes), (3, 2, DEFAULT_NODES));
    assert!(parse_args(&args(&["--out", "d"])).is_err(), "rien ne s'arrêterait");
    assert!(parse_args(&args(&["--games", "3"])).is_err(), "--out manque");
    assert!(parse_args(&args(&["--out", "d", "--games", "x"])).is_err());
    assert!(parse_args(&args(&["--out", "d", "--games", "1", "--nodes", "0"])).is_err());
    assert!(parse_args(&args(&["--out", "d", "--bruit", "1"])).is_err());
}

#[test]
fn la_graine_dune_partie_est_impaire_et_propre_a_son_rang() {
    for index in 0..10 {
        assert_eq!(game_seed(7, index) % 2, 1);
    }
    assert_ne!(game_seed(7, 0), game_seed(7, 1));
    assert_ne!(game_seed(7, 0), game_seed(8, 0));
}

#[test]
fn une_ouverture_au_hasard_est_reproductible() {
    let mut a = 12345_u64;
    let mut b = 12345_u64;
    let x = random_opening(8, &mut a).map(|o| o.to_fen());
    let y = random_opening(8, &mut b).map(|o| o.to_fen());
    assert_eq!(x, y);
    assert_eq!(a, b);
}

#[test]
fn ladjudication_compte_les_plies_du_meme_camp() {
    assert_eq!(adjudicate(Color::White, 0, 2_500), (Color::White, 1, None));
    assert_eq!(adjudicate(Color::White, 6, 2_500), (Color::White, 7, None));
    assert_eq!(
        adjudicate(Color::White, 7, 2_500),
        (Color::White, 8, Some(Outcome::WhiteWin(WinKind::Adjudication)))
    );
    assert_eq!(adjudicate(Color::White, 5, -2_500), (Color::Black, 1, None));
    assert_eq!(adjudicate(Color::Black, 5, 100), (Color::Black, 0, None));
}

#[test]
fn les_statistiques_se_cumulent() {
    let mut a = Stats::new();
    a.record(10, 8, Outcome::WhiteWin(WinKind::Mate));
    a.record(5, 5, Outcome::Draw(DrawKind::Stalemate));
    let mut b = Stats::new();
    b.record(3, 1, Outcome::BlackWin(WinKind::Adjudication));
    a.merge(&b);
    assert_eq!(
        (a.games, a.positions, a.kept_by_default_filter, a.white_wins, a.black_wins, a.draws),
        (3, 18, 14, 1, 1, 1)
    );
}
