use shallowred::board::Chessboard;
use shallowred::eval::{endgame_table, evaluate, is_insufficient_material, midgame_table, mobility, pst_index};
use shallowred::types::{Color, Piece};

fn board(fen: &str) -> Chessboard {
    Chessboard::from_fen(fen).unwrap()
}

/// A square from its name.
fn square(name: &str) -> u8 {
    let b = name.as_bytes();
    (b[1] - b'1') * 8 + (b[0] - b'a')
}

#[test]
fn une_piece_qui_voit_plus_de_cases_vaut_plus() {
    let centre = mobility(&board("7k/8/8/8/3N4/8/8/K7 w - - 0 1"), Color::White);
    let coin = mobility(&board("7k/8/8/8/8/8/8/KN6 w - - 0 1"), Color::White);
    assert!(centre.0 > coin.0 && centre.1 > coin.1, "cavalier au centre {centre:?} contre cavalier au coin {coin:?}");
    let ouverte = mobility(&board("7k/8/8/8/8/8/8/K3R3 w - - 0 1"), Color::White);
    let enfermee = mobility(&board("7k/8/8/8/8/8/PPP5/KR6 w - - 0 1"), Color::White);
    assert!(ouverte.0 > enfermee.0, "tour libre {ouverte:?} contre tour enfermée {enfermee:?}");
    let fou = mobility(&board("7k/8/8/8/8/3B4/8/K7 w - - 0 1"), Color::White);
    assert!(fou.0 > 0, "un fou en pleine diagonale doit compter : {fou:?}");
}

#[test]
fn les_pions_et_le_roi_ne_comptent_pas_dans_la_mobilite() {
    assert_eq!(mobility(&board("8/8/8/8/8/8/8/K6k w - - 0 1"), Color::White), (0, 0));
    assert_eq!(mobility(&board("7k/pppppppp/8/8/8/8/PPPPPPPP/K7 w - - 0 1"), Color::White), (0, 0));
}

#[test]
fn la_mobilite_se_compte_pour_les_deux_camps() {
    let b = Chessboard::startpos();
    let blancs = mobility(&b, Color::White);
    let noirs = mobility(&b, Color::Black);
    assert_eq!(blancs, noirs);
    assert!(blancs.0 > 0, "les cavaliers initiaux voient des cases");
}

#[test]
fn la_position_initiale_est_equilibree() {
    assert_eq!(evaluate(&Chessboard::startpos()), 0);
}

#[test]
fn levaluation_est_symetrique_par_couleur() {
    let blancs = board("rnbqkbnr/pppppppp/8/8/8/8/PPPPPPPP/RNBQKBNR w KQkq - 0 1");
    let noirs = board("rnbqkbnr/pppppppp/8/8/8/8/PPPPPPPP/RNBQKBNR b KQkq - 0 1");
    assert_eq!(evaluate(&blancs), -evaluate(&noirs));
}

#[test]
fn une_dame_de_plus_vaut_environ_une_dame() {
    let b = board("rnbqkbnr/pppppppp/8/8/8/8/PPPPPPPP/RNB1KBNR b KQkq - 0 1");
    let score = evaluate(&b);
    assert!((900..=1100).contains(&score), "une dame devrait valoir environ 1000, obtenu {score}");
}

#[test]
fn le_roi_se_centralise_en_finale() {
    let centre = board("8/8/8/3K4/8/8/4P3/7k w - - 0 1");
    let coin = board("8/8/8/8/8/8/4P3/K6k w - - 0 1");
    assert!(evaluate(&centre) > evaluate(&coin), "le roi centralisé doit être mieux noté en finale");
}

#[test]
fn la_paire_de_fous_est_un_avantage() {
    let paire = board("4k3/8/8/8/8/8/8/2B1KB2 w - - 0 1");
    let fou_et_cavalier = board("4k3/8/8/8/8/8/8/2B1KN2 w - - 0 1");
    assert!(evaluate(&paire) > evaluate(&fou_et_cavalier));
}

#[test]
fn lindice_de_table_est_bien_mirore() {
    assert_eq!(pst_index(square("e1"), Color::White), pst_index(square("e8"), Color::Black));
    assert_eq!(pst_index(square("a2"), Color::White), pst_index(square("a7"), Color::Black));
    assert_eq!(pst_index(square("a1"), Color::White), 56);
    assert_eq!(pst_index(square("a8"), Color::White), 0);
}

#[test]
fn toutes_les_tables_sont_completes() {
    let kinds = [Piece::Pawn, Piece::Knight, Piece::Bishop, Piece::Rook, Piece::Queen, Piece::King];
    for table in kinds.iter().map(|&p| midgame_table(p)).chain(kinds.iter().map(|&p| endgame_table(p))) {
        assert_eq!(table.len(), 64);
    }
}

#[test]
fn une_valeur_de_table_connue() {
    // A white pawn on e4: 20 in the middlegame, 20 in the endgame, read
    // from the tables written in visual order; on e5, 30 in the endgame.
    let index = pst_index(square("e4"), Color::White);
    assert_eq!(index, 36);
    assert_eq!(midgame_table(Piece::Pawn)[index], 20);
    assert_eq!(endgame_table(Piece::Pawn)[index], 20);
    assert_eq!(endgame_table(Piece::Pawn)[pst_index(square("e5"), Color::White)], 30);
    assert_eq!(midgame_table(Piece::King)[pst_index(square("g1"), Color::White)], 30);
}

#[test]
fn le_materiel_insuffisant_se_reconnait() {
    assert!(is_insufficient_material(&board("8/8/4k3/8/8/3K4/8/8 w - - 0 1")));
    assert!(is_insufficient_material(&board("8/8/4k3/8/8/3KN3/8/8 w - - 0 1")));
    assert!(!is_insufficient_material(&board("8/8/4k3/8/8/3KNN2/8/8 w - - 0 1")));
    assert!(!is_insufficient_material(&board("8/8/4k3/8/8/3KP3/8/8 w - - 0 1")));
}
