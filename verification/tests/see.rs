use shallowred::board::Chessboard;
use shallowred::see::{capture_value, piece_value, see};
use shallowred::types::{Move, Piece};

fn board(fen: &str) -> Chessboard {
    Chessboard::from_fen(fen).unwrap()
}

fn coup(b: &Chessboard, uci: &str) -> Move {
    b.parse_uci(uci).unwrap()
}

fn v(piece: Piece) -> i32 {
    piece_value(piece)
}

#[test]
fn un_coup_tranquille_ne_rapporte_rien() {
    let b = board("rnbqkbnr/pppppppp/8/8/8/8/PPPPPPPP/RNBQKBNR w KQkq - 0 1");
    assert_eq!(see(&b, coup(&b, "e2e4")), 0);
}

#[test]
fn une_capture_non_defendue_rapporte_la_victime() {
    let b = board("4k3/8/8/3p4/4P3/8/8/4K3 w - - 0 1");
    assert_eq!(see(&b, coup(&b, "e4d5")), v(Piece::Pawn));
}

#[test]
fn un_echange_egal_ne_coute_rien() {
    let b = board("4k3/8/2p5/3p4/4P3/8/8/4K3 w - - 0 1");
    assert_eq!(see(&b, coup(&b, "e4d5")), 0);
}

#[test]
fn prendre_une_piece_defendue_par_un_pion_perd() {
    let b = board("rnbqkbnr/pp2pppp/2p5/3p4/8/2N5/PPPPPPPP/R1BQKBNR w KQkq - 0 3");
    let gain = see(&b, coup(&b, "c3d5"));
    assert_eq!(gain, v(Piece::Pawn) - v(Piece::Knight));
    assert!(gain < 0);
}

#[test]
fn une_tour_qui_prend_un_pion_defendu_perd_la_difference() {
    let b = board("4k3/8/5p2/4p3/4R3/8/8/4K3 w - - 0 1");
    assert_eq!(see(&b, coup(&b, "e4e5")), v(Piece::Pawn) - v(Piece::Rook));
}

#[test]
fn la_prise_en_passant_est_comptee() {
    let b = board("4k3/8/8/3pP3/8/8/8/4K3 w - d6 0 1");
    assert_eq!(see(&b, coup(&b, "e5d6")), v(Piece::Pawn));
}

#[test]
fn une_promotion_par_capture_compte_la_piece_promue() {
    let b = board("r3k3/1P6/8/8/8/8/8/4K3 w q - 0 1");
    assert_eq!(see(&b, coup(&b, "b7a8q")), v(Piece::Rook) + v(Piece::Queen) - v(Piece::Pawn));
}

#[test]
fn le_rayon_x_derriere_lagresseur_compte() {
    let b = board("4k3/8/8/4p3/8/8/4R3/4RK2 w - - 0 1");
    assert_eq!(see(&b, coup(&b, "e2e5")), v(Piece::Pawn));
}

#[test]
fn le_roi_compte_comme_repreneur_quand_il_le_peut() {
    let b = board("4k3/8/4p3/R2p4/4K3/8/8/8 w - - 0 1");
    assert_eq!(see(&b, coup(&b, "a5d5")), v(Piece::Pawn) - v(Piece::Rook) + v(Piece::Pawn));
}

#[test]
fn la_coupure_du_manuel_se_tromperait_ici() {
    let b = board("r2q1rk1/p1p2ppp/bp3n2/2bp2B1/4P3/N1QP1N1P/PP3PP1/R3K2R w KQ - 2 13");
    assert_eq!(see(&b, coup(&b, "c3f6")), -660);
}

#[test]
fn la_geometrie_ignore_le_clouage_et_cest_assume() {
    let b = board("r3kb1r/1p3npp/p1n5/P1pb1pq1/4p3/3PP3/1P1N1PBP/RNBQ1RK1 w kq - 0 13");
    assert_eq!(see(&b, coup(&b, "d3e4")), v(Piece::Pawn));
}

#[test]
fn la_valeur_dune_capture_est_celle_de_la_victime() {
    let b = board("4k3/8/8/3p4/4P3/8/8/4K3 w - - 0 1");
    assert_eq!(capture_value(&b, coup(&b, "e4d5")), Some(v(Piece::Pawn)));
    assert_eq!(capture_value(&b, coup(&b, "e4e5")), None);
    assert_eq!(
        (v(Piece::Pawn), v(Piece::Knight), v(Piece::Bishop), v(Piece::Rook), v(Piece::Queen)),
        (100, 320, 335, 500, 980)
    );
}

#[test]
fn lechange_exhaustif_voit_le_clouage_que_see_ignore() {
    let b = board("r3kb1r/1p3npp/p1n5/P1pb1pq1/4p3/3PP3/1P1N1PBP/RNBQ1RK1 w kq - 0 13");
    let checks = shallowred::see::capture_checks(&b);
    let d3e4 = coup(&b, "d3e4");
    let check = checks.iter().find(|c| c.mv == d3e4).unwrap();
    assert_eq!(check.evaluated, v(Piece::Pawn));
    assert_eq!(check.exhaustive, 0, "le fou g2 est cloué : la reprise réelle annule le gain");
}

#[test]
fn lechange_exhaustif_rejoint_see_sans_clouage() {
    let b = board("4k3/8/5p2/4p3/4R3/8/8/4K3 w - - 0 1");
    let checks = shallowred::see::capture_checks(&b);
    assert_eq!(checks.len(), 1);
    assert_eq!(checks[0].exhaustive, v(Piece::Pawn) - v(Piece::Rook));
    assert_eq!(checks[0].evaluated, checks[0].exhaustive);
    assert_eq!(shallowred::see::exact(&b, coup(&b, "e4e5")), Some(v(Piece::Pawn) - v(Piece::Rook)));
}

#[test]
fn le_masque_dattaque_couvre_les_cases_vues() {
    // A lone white rook on a1, kings on e1 and e8.
    let b = board("4k3/8/8/8/8/8/8/R3K3 w - - 0 1");
    let white = shallowred::see::attack_mask(&b, shallowred::types::Color::White);
    // The a-file above the rook, b1 to d1, and the king's squares.
    for square in [8u8, 16, 56, 1, 2, 3, 5, 11, 12, 13] {
        assert!(white >> square & 1 == 1, "case {square}");
    }
    assert_eq!(white >> 60 & 1, 0, "e8 n'est pas attaquée");
    let black = shallowred::see::attack_mask(&b, shallowred::types::Color::Black);
    assert_eq!(black, (1 << 51) | (1 << 52) | (1 << 53) | (1 << 59) | (1 << 61));
}
