use shallowred::board::Chessboard;
use shallowred::delta::{accumulator_delta, check_move, piece_color, same_changes, true_delta};
use shallowred::nnue::Change;
use shallowred::types::{Color, Move, Piece};

fn board(fen: &str) -> Chessboard {
    Chessboard::from_fen(fen).unwrap()
}

fn coup(b: &Chessboard, uci: &str) -> Move {
    b.parse_uci(uci).unwrap()
}

fn change(added: bool, piece: Piece, color: Color, square: u8) -> Change {
    Change { added, piece, color, square }
}

fn derive(b: &Chessboard, mv: Move) -> Vec<Change> {
    let mut buf = [Change::blank(); 4];
    let n = accumulator_delta(b, mv, &mut buf);
    buf[..n].to_vec()
}

#[test]
fn le_roque_deplace_roi_et_tour() {
    let b = board("r3k2r/8/8/8/8/8/8/R3K2R w KQkq - 0 1");
    let mv = coup(&b, "e1g1");
    assert_eq!(
        derive(&b, mv),
        vec![
            change(false, Piece::King, Color::White, 4),
            change(false, Piece::Rook, Color::White, 7),
            change(true, Piece::King, Color::White, 6),
            change(true, Piece::Rook, Color::White, 5),
        ]
    );
    let mv = coup(&b, "e1c1");
    assert_eq!(
        derive(&b, mv),
        vec![
            change(false, Piece::King, Color::White, 4),
            change(false, Piece::Rook, Color::White, 0),
            change(true, Piece::King, Color::White, 2),
            change(true, Piece::Rook, Color::White, 3),
        ]
    );
}

#[test]
fn la_prise_en_passant_retire_le_pion_voisin() {
    let b = board("4k3/8/8/3pP3/8/8/8/4K3 w - d6 0 1");
    let mv = coup(&b, "e5d6");
    assert_eq!(
        derive(&b, mv),
        vec![
            change(false, Piece::Pawn, Color::White, 36),
            change(false, Piece::Pawn, Color::Black, 35),
            change(true, Piece::Pawn, Color::White, 43),
        ]
    );
}

#[test]
fn la_promotion_avec_prise_fait_trois_changements() {
    let b = board("1r2k3/P7/8/8/8/8/8/4K3 w - - 0 1");
    let mv = coup(&b, "a7b8q");
    assert_eq!(
        derive(&b, mv),
        vec![
            change(false, Piece::Pawn, Color::White, 48),
            change(false, Piece::Rook, Color::Black, 57),
            change(true, Piece::Queen, Color::White, 57),
        ]
    );
}

#[test]
fn un_coup_tranquille_fait_deux_changements() {
    let b = Chessboard::startpos();
    let mv = coup(&b, "g1f3");
    assert_eq!(
        derive(&b, mv),
        vec![change(false, Piece::Knight, Color::White, 6), change(true, Piece::Knight, Color::White, 21)]
    );
}

#[test]
fn la_difference_se_lit_case_par_case() {
    let b = board("1r2k3/P7/8/8/8/8/8/4K3 w - - 0 1");
    let mv = coup(&b, "a7b8q");
    let after = b.play(mv);
    assert_eq!(
        true_delta(&b, &after),
        vec![
            change(false, Piece::Pawn, Color::White, 48),
            change(false, Piece::Rook, Color::Black, 57),
            change(true, Piece::Queen, Color::White, 57),
        ]
    );
    assert_eq!(true_delta(&b, &b), Vec::new());
}

#[test]
fn la_difference_du_roque_suit_l_ordre_des_cases() {
    let b = board("r3k2r/8/8/8/8/8/8/R3K2R w KQkq - 0 1");
    let mv = coup(&b, "e1g1");
    let after = b.play(mv);
    assert_eq!(
        true_delta(&b, &after),
        vec![
            change(false, Piece::King, Color::White, 4),
            change(true, Piece::Rook, Color::White, 5),
            change(true, Piece::King, Color::White, 6),
            change(false, Piece::Rook, Color::White, 7),
        ]
    );
}

#[test]
fn la_couleur_d_une_piece_est_celle_de_son_camp() {
    let b = Chessboard::startpos();
    assert_eq!(piece_color(&b, 4), Color::White);
    assert_eq!(piece_color(&b, 60), Color::Black);
}

#[test]
fn l_ordre_ne_compte_pas_mais_le_nombre_si() {
    let a = change(false, Piece::Pawn, Color::White, 8);
    let b = change(true, Piece::Pawn, Color::White, 16);
    assert!(same_changes(&[a, b], &[b, a]));
    assert!(same_changes(&[], &[]));
    assert!(!same_changes(&[a, a], &[a]));
    assert!(!same_changes(&[a], &[a, a]));
    assert!(!same_changes(&[a, a, b], &[a, b, b]));
    assert!(!same_changes(&[a], &[b]));
}

#[test]
fn chaque_coup_legal_passe_la_verite_terrain() {
    let fens = [
        "r3k2r/p1ppqpb1/bn2pnp1/3PN3/1p2P3/2N2Q1p/PPPBBPPP/R3K2R w KQkq - 0 1",
        "n1n5/PPPk4/8/8/8/8/4Kppp/5N1N b - - 0 1",
        "r3k2r/pP4P1/8/8/8/8/1p4p1/R3K2R w KQkq - 0 1",
        "4k3/8/8/3pP3/8/8/8/4K3 w - d6 0 1",
    ];
    let (mut castles, mut en_passant, mut promotions) = (0, 0, 0);
    for fen in fens {
        let b = board(fen);
        for mv in b.legal_moves() {
            let child = b.play(mv);
            let check = check_move(&b, mv, &child);
            assert!(check.agrees, "{fen} {}", b.uci_text(mv));
            castles += u32::from(check.castle);
            en_passant += u32::from(check.en_passant);
            promotions += u32::from(check.promotion);
        }
    }
    assert_eq!(castles, 2);
    assert_eq!(en_passant, 1);
    assert!(promotions > 20);
}

#[test]
fn une_difference_fausse_est_vue() {
    let b = Chessboard::startpos();
    let mv = coup(&b, "e2e4");
    let other = b.play(coup(&b, "d2d4"));
    let check = check_move(&b, mv, &other);
    assert!(!check.agrees);
    assert!(!check.castle && !check.en_passant && !check.promotion);
}

#[test]
fn la_lecture_uci_suit_le_texte_caractere_par_caractere() {
    let b = Chessboard::startpos();
    let e4 = b.parse_uci("e2e4").unwrap();
    assert_eq!((e4.from, e4.to, e4.promotion), (12, 28, None));
    // Past the promotion letter, the rest of the text is ignored.
    let suite = b.parse_uci("e2e4kz").unwrap();
    assert_eq!((suite.from, suite.to, suite.promotion), (12, 28, None));
    assert!(b.parse_uci("e2e4x").is_none());
    assert!(b.parse_uci("e2e").is_none());
    assert!(b.parse_uci("i2e4").is_none());
    assert_eq!(b.uci_text(e4), "e2e4");
}

#[test]
fn un_roque_960_qui_echange_roi_et_tour_reste_la_difference_de_l_echiquier() {
    // King on f1, rook on g1: castling short puts the king on g1 and the
    // rook on f1, each on the other's square.
    let b = board("4k3/8/8/8/8/8/8/5KR1 w G - 0 1");
    let mv = coup(&b, "f1g1");
    assert!(b.is_legal(mv));
    let child = b.play(mv);
    let check = check_move(&b, mv, &child);
    assert!(check.castle);
    assert!(check.agrees);
}
