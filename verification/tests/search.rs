use std::sync::atomic::AtomicBool;
use std::sync::Arc;
use std::time::{Duration, Instant};

use shallowred::board::Chessboard;
use shallowred::eval::{DRAW, INFINITY, MATE, MATE_THRESHOLD};
use shallowred::position::Position;
use shallowred::search::{
    answer_waits, ASPIRATION_MIN_DEPTH,
    captured_piece, has_non_pawn_material, may_lose_material, see_prunable, MAX_PLY, lmp_limit, next_random, random_legal_move,
    random_seed, time_budget_ms, Limits, PvTable, Score, Search, LMP_BASE, LMP_MAX_DEPTH,
    LMR_TABLE_SIDE, RFP_MAX_DEPTH, SCORE_CAPTURE,
};
use shallowred::see::see;
use shallowred::types::{Color, Move, Piece};

/// The reduction table the engine builds at start-up: logarithmic in the
/// remaining depth and in the move rank, at least one ply.
fn lmr_table() -> Vec<i32> {
    let mut table = vec![0; LMR_TABLE_SIDE * LMR_TABLE_SIDE];
    for depth in 1..LMR_TABLE_SIDE {
        for index in 1..LMR_TABLE_SIDE {
            let value = 0.75 + (depth as f64).ln() * (index as f64).ln() / 2.25;
            table[depth * LMR_TABLE_SIDE + index] = (value as i32).max(1);
        }
    }
    table
}

fn search() -> Search {
    Search::new(Arc::new(AtomicBool::new(false)), lmr_table())
}

fn board(fen: &str) -> Chessboard {
    Chessboard::from_fen(fen).unwrap()
}

fn coup(b: &Chessboard, uci: &str) -> Move {
    b.parse_uci(uci).unwrap()
}

fn jusqua(depth: u32) -> Limits {
    Limits { depth: Some(depth), ..Limits::default() }
}

fn best(fen: &str, depth: u32) -> String {
    let position = Position::from_fen(fen).unwrap();
    let mv = search().go(&position, &jusqua(depth), |_| {}).unwrap();
    position.board().uci_text(mv)
}

#[test]
fn le_roque_nest_pas_compte_comme_une_capture() {
    let b = board("r3k2r/8/8/8/8/8/8/R3K2R w KQkq - 0 1");
    let roque = coup(&b, "e1g1");
    assert_eq!(captured_piece(&b, roque), None);
    assert_eq!(search().score_move(&b, roque, None, 0), 0);
}

#[test]
fn la_prise_en_passant_est_reconnue_comme_capture() {
    let b = board("rnbqkbnr/ppp1p1pp/8/3pPp2/8/8/PPPP1PPP/RNBQKBNR w KQkq f6 0 3");
    let prise = coup(&b, "e5f6");
    assert_eq!(captured_piece(&b, prise), Some(Piece::Pawn));
    assert!(search().score_move(&b, prise, None, 0) > 0);
}

#[test]
fn une_capture_ordinaire_est_notee_selon_mvv_lva() {
    let b = board("rnbqkbnr/ppp1pppp/8/3p4/4P3/8/PPPP1PPP/RNBQKBNR w KQkq - 0 2");
    let prise = coup(&b, "e4d5");
    assert_eq!(captured_piece(&b, prise), Some(Piece::Pawn));
    let tranquille = coup(&b, "d2d3");
    let s = search();
    assert!(s.score_move(&b, prise, None, 0) > s.score_move(&b, tranquille, None, 0));
    // Pawn takes pawn: the capture tier, plus the victim, minus the attacker.
    assert_eq!(s.score_move(&b, prise, None, 0), SCORE_CAPTURE + 1_000 - 1);
}

#[test]
fn les_coups_tactiques_seuls_excluent_les_coups_tranquilles() {
    let b = board("rnbqkbnr/ppp1pppp/8/3p4/4P3/8/PPPP1PPP/RNBQKBNR w KQkq - 0 2");
    let s = search();
    let tactiques = s.ordered_moves(&b, true, None, 0);
    assert_eq!(tactiques.len(), 1, "seule exd5 change le matériel");
    assert!(s.ordered_moves(&b, false, None, 0).len() > 1);
}

#[test]
fn le_tampon_de_coups_couvre_la_position_la_plus_riche_connue() {
    let b = board("R6R/3Q4/1Q4Q1/4Q3/2Q4Q/Q4Q2/pp1Q4/kBNN1KB1 w - - 0 1");
    let count = search().ordered_moves(&b, false, None, 0).len();
    assert_eq!(count, 218, "la position de référence doit produire 218 coups");
}

#[test]
fn toutes_les_captures_precedent_tous_les_coups_tranquilles() {
    let b = board("r1bqkb1r/pppp1ppp/2n2n2/4p3/2B1P3/5N2/PPPP1PPP/RNBQK2R w KQkq - 4 4");
    let coups = search().ordered_moves(&b, false, None, 1);
    let mut tranquille_vu = false;
    let mut captures = 0;
    for (mv, _) in &coups {
        let quiet = captured_piece(&b, *mv).is_none() && mv.promotion.is_none();
        if quiet {
            tranquille_vu = true;
        } else {
            captures += 1;
            assert!(!tranquille_vu, "une capture arrive après un coup tranquille");
        }
    }
    assert!(captures > 0, "la position doit offrir des captures");
    assert!(tranquille_vu, "la position doit offrir des coups tranquilles");
}

#[test]
fn la_prise_en_passant_est_un_coup_tactique() {
    let b = board("rnbqkbnr/ppp1p1pp/8/3pPp2/8/8/PPPP1PPP/RNBQKBNR w KQkq f6 0 3");
    let prise = coup(&b, "e5f6");
    let tactiques = search().ordered_moves(&b, true, None, 0);
    assert!(tactiques.iter().any(|(mv, _)| *mv == prise));
}

#[test]
fn un_mat_en_un_est_trouve() {
    assert_eq!(
        best("r1bqkbnr/pppp1ppp/2n5/4p3/2B1P3/5Q2/PPPP1PPP/RNB1K1NR w KQkq - 0 1", 3),
        "f3f7"
    );
    assert_eq!(
        best("rnbqkbnr/pppp1ppp/8/4p3/6P1/5P2/PPPPP2P/RNBQKBNR b KQkq - 0 2", 3),
        "d8h4"
    );
}

#[test]
fn le_score_dun_mat_est_annonce_comme_tel() {
    let position =
        Position::from_fen("r1bqkbnr/pppp1ppp/2n5/4p3/2B1P3/5Q2/PPPP1PPP/RNB1K1NR w KQkq - 0 1")
            .unwrap();
    let mut vu = None;
    search().go(&position, &jusqua(3), |info| {
        if vu.is_none() {
            vu = Some(info.score);
        }
    });
    assert_eq!(vu, Some(Score::Mate(1)));
}

#[test]
fn le_camp_qui_subit_le_mat_voit_un_score_negatif() {
    let position = Position::from_fen("k7/2K5/8/8/8/8/8/1R6 b - - 0 1").unwrap();
    let mut dernier = None;
    search().go(&position, &jusqua(5), |info| dernier = Some(info.score));
    assert_eq!(dernier, Some(Score::Mate(-1)));
}

#[test]
fn une_piece_en_prise_gratuite_est_capturee() {
    assert_eq!(best("4k3/8/8/3q4/8/8/3R4/4K3 w - - 0 1", 3), "d2d5");
}

#[test]
fn le_seuil_de_compte_croit_avec_la_profondeur() {
    assert_eq!(lmp_limit(1), LMP_BASE + 1);
    assert_eq!(lmp_limit(2), LMP_BASE + 4);
    assert_eq!(lmp_limit(3), LMP_BASE + 9);
    for d in 1..LMP_MAX_DEPTH {
        assert!(lmp_limit(d) < lmp_limit(d + 1));
    }
}

#[test]
fn seuls_les_coups_tranquilles_sont_elagues() {
    let s = search();
    assert!(!s.late_move_prune(false, false, 1, 1, 0, 1_000));
    assert!(s.late_move_prune(true, false, 1, 1, 0, 1_000));
}

#[test]
fn en_echec_lelagage_par_compte_ne_coupe_jamais() {
    let s = search();
    assert!(!s.late_move_prune(true, true, 1, 1, 0, 1_000));
    assert!(s.late_move_prune(true, false, 1, 1, 0, 1_000));
}

#[test]
fn a_la_racine_lelagage_par_compte_ne_coupe_jamais() {
    let s = search();
    assert!(!s.late_move_prune(true, false, 0, 1, 0, 1_000));
    assert!(s.late_move_prune(true, false, 1, 1, 0, 1_000));
}

#[test]
fn au_dela_de_la_profondeur_maximale_lelagage_par_compte_ne_coupe_jamais() {
    let s = search();
    assert!(!s.late_move_prune(true, false, 1, LMP_MAX_DEPTH + 1, 0, 1_000));
    assert!(s.late_move_prune(true, false, 1, LMP_MAX_DEPTH, 0, 1_000));
}

#[test]
fn contre_un_mat_subi_lelagage_par_compte_ne_coupe_jamais() {
    let s = search();
    assert!(!s.late_move_prune(true, false, 1, 1, -MATE + 5, 1_000));
    assert!(s.late_move_prune(true, false, 1, 1, -MATE_THRESHOLD + 1, 1_000));
}

#[test]
fn aucun_elagage_avant_davoir_cherche_un_coup() {
    let s = search();
    assert!(!s.late_move_prune(true, false, 1, 1, -shallowred::eval::INFINITY, 1_000));
}

#[test]
fn le_compte_doit_etre_atteint_pour_elaguer() {
    let s = search();
    let seuil = lmp_limit(1);
    assert!(!s.late_move_prune(true, false, 1, 1, 0, seuil - 1));
    assert!(s.late_move_prune(true, false, 1, 1, 0, seuil));
}

#[test]
fn en_echec_la_futilite_inverse_ne_coupe_jamais() {
    let b = board("4k3/8/8/8/8/8/6Q1/4K2r w - - 0 1");
    assert!(b.checkers() != 0, "la position doit être un échec");
    assert_eq!(search().reverse_futility_cut(&b, 1, 1, -5_000), None);
}

#[test]
fn a_la_racine_la_futilite_inverse_ne_coupe_jamais() {
    let b = board("4k3/8/8/8/8/8/6Q1/4K3 w - - 0 1");
    assert_eq!(search().reverse_futility_cut(&b, 1, 0, -5_000), None);
    assert!(search().reverse_futility_cut(&b, 1, 1, -5_000).is_some());
}

#[test]
fn autour_dun_mat_la_futilite_inverse_ne_coupe_jamais() {
    let b = board("4k3/8/8/8/8/8/6Q1/4K3 w - - 0 1");
    assert_eq!(search().reverse_futility_cut(&b, 1, 1, MATE - 5), None);
    assert_eq!(search().reverse_futility_cut(&b, 1, 1, -MATE + 5), None);
}

#[test]
fn au_dela_de_sa_profondeur_la_futilite_inverse_ne_coupe_pas() {
    let b = board("4k3/8/8/8/8/8/6Q1/4K3 w - - 0 1");
    assert!(search().reverse_futility_cut(&b, RFP_MAX_DEPTH, 1, -5_000).is_some());
    assert_eq!(search().reverse_futility_cut(&b, RFP_MAX_DEPTH + 1, 1, -5_000), None);
}

#[test]
fn en_echec_aucune_capture_nest_elaguee() {
    let fen = "3k4/8/8/R2q4/8/8/8/3K4 w - - 0 1";
    let b = board(fen);
    assert!(b.checkers() != 0, "la position doit être un échec");
    let mv = coup(&b, "a5d5");
    let sp = shallowred::eval::evaluate(&b);
    assert!(!search().delta_prunable(&b, mv, true, sp, shallowred::eval::INFINITY / 2));
}

#[test]
fn une_promotion_nest_jamais_elaguee() {
    let b = board("r1r1k3/1P6/8/8/8/8/8/4K3 w - - 0 1");
    let sp = shallowred::eval::evaluate(&b);
    for uci in ["b7a8q", "b7c8q"] {
        let mv = coup(&b, uci);
        assert!(mv.promotion.is_some(), "{uci} doit être une promotion");
        assert!(!search().delta_prunable(&b, mv, false, sp, shallowred::eval::INFINITY / 2));
    }
}

#[test]
fn autour_dun_score_de_mat_rien_nest_elague() {
    let b = board("4k3/p7/8/8/8/8/6Q1/R3K3 w - - 0 1");
    let mv = coup(&b, "a1a7");
    let sp = shallowred::eval::evaluate(&b);
    assert!(!search().delta_prunable(&b, mv, false, sp, MATE - 5));
}

#[test]
fn une_capture_trop_petite_pour_rattraper_est_elaguee() {
    let b = board("4k3/p7/8/8/8/8/6Q1/R3K3 w - - 0 1");
    let mv = coup(&b, "a1a7");
    let sp = shallowred::eval::evaluate(&b);
    assert!(search().delta_prunable(&b, mv, false, sp, sp + 2_000));
    assert!(!search().delta_prunable(&b, mv, false, sp, sp - 100));
}

#[test]
fn la_quiescence_refuse_une_capture_perdante() {
    assert_ne!(best("4k3/8/2p5/3p4/8/8/3Q4/4K3 w - - 0 1", 1), "d2d5");
}

#[test]
fn la_recherche_est_deterministe() {
    let fen = "r1bqkbnr/pppp1ppp/2n5/4p3/2B1P3/5N2/PPPP1PPP/RNBQK2R w KQkq - 0 1";
    assert_eq!(best(fen, 4), best(fen, 4));
}

#[test]
fn une_position_matee_ne_rend_aucun_coup() {
    let position =
        Position::from_fen("r1bqkb1r/pppp1Qpp/2n2n2/4p3/2B1P3/8/PPPP1PPP/RNB1K1NR b KQkq - 0 4")
            .unwrap();
    assert!(search().go(&position, &Limits::default(), |_| {}).is_none());
}

#[test]
fn la_variante_principale_est_legale_depuis_la_racine() {
    let position =
        Position::from_fen("r1bqkbnr/pppp1ppp/2n5/4p3/2B1P3/5N2/PPPP1PPP/RNBQK2R w KQkq - 0 1")
            .unwrap();
    let mut pv = Vec::new();
    search().go(&position, &jusqua(5), |info| pv.clone_from(&info.pv));
    assert!(!pv.is_empty(), "la variante ne doit pas être vide");
    let mut b = position.board().duplicate();
    for mv in pv {
        assert!(b.is_legal(mv), "coup illégal dans la variante");
        b = b.play(mv);
    }
}

#[test]
fn le_budget_de_temps_est_respecte() {
    let position = Position::startpos();
    let limits = Limits { movetime: Some(120), ..Limits::default() };
    let at = Instant::now();
    assert!(search().go(&position, &limits, |_| {}).is_some());
    assert!(at.elapsed() < Duration::from_millis(900), "dépassement du budget");
}

#[test]
fn le_budget_de_noeuds_est_respecte() {
    for budget in [1, 1_000, 50_000] {
        let limits = Limits { nodes: Some(budget), ..Limits::default() };
        let mut s = search();
        let best = s.go(&Position::startpos(), &limits, |_| {});
        assert!(best.is_some(), "un coup légal est dû même à {budget} nœuds");
        assert!(s.nodes() <= budget, "budget {budget} dépassé : {} nœuds", s.nodes());
    }
}

#[test]
fn un_budget_de_noeuds_rend_un_coup_legal() {
    let limits = Limits { nodes: Some(1), ..Limits::default() };
    let position = Position::startpos();
    let best = search().go(&position, &limits, |_| {}).unwrap();
    assert!(position.board().is_legal(best));
}

#[test]
fn un_budget_large_ne_bride_pas_la_profondeur_demandee() {
    let limits = Limits { depth: Some(6), nodes: Some(u64::MAX), ..Limits::default() };
    let mut avec = search();
    avec.go(&Position::startpos(), &limits, |_| {});
    let mut sans = search();
    sans.go(&Position::startpos(), &jusqua(6), |_| {});
    assert_eq!(avec.nodes(), sans.nodes());
}

#[test]
fn le_pari_est_le_deuxieme_coup_de_la_variante_puis_celui_de_la_table() {
    let b = Chessboard::startpos();
    let mut s = search();
    let mut variante = Vec::new();
    let meilleur = s.go(&Position::startpos(), &jusqua(5), |info| variante.clone_from(&info.pv)).unwrap();
    assert!(variante.len() >= 2, "à la profondeur 5, la variante a un pari");
    assert_eq!(variante[0], meilleur);
    assert_eq!(s.ponder_move(&b, meilleur), Some(variante[1]));
    // An illegal best move gives no guess.
    let e4 = coup(&b, "e2e4");
    let noirs = b.play(e4);
    assert_eq!(s.ponder_move(&noirs, e4), None);
}

#[test]
fn la_conversion_des_scores_de_mat_est_correcte() {
    assert_eq!(Score::from_internal(0), Score::Cp(0));
    assert_eq!(Score::from_internal(-45), Score::Cp(-45));
    assert_eq!(Score::from_internal(MATE - 1), Score::Mate(1));
    assert_eq!(Score::from_internal(MATE - 2), Score::Mate(1));
    assert_eq!(Score::from_internal(MATE - 3), Score::Mate(2));
    assert_eq!(Score::from_internal(-(MATE - 3)), Score::Mate(-2));
}

#[test]
fn le_coup_de_la_table_passe_devant_tous_les_autres() {
    let b = Chessboard::startpos();
    let tranquille = coup(&b, "a2a3");
    let s = search();
    let sans = s.score_move(&b, tranquille, None, 0);
    let avec = s.score_move(&b, tranquille, Some(tranquille), 0);
    assert!(avec > sans);
    let capture_board = board("rnbqkbnr/ppp1pppp/8/3p4/4P3/8/PPPP1PPP/RNBQKBNR w KQkq - 0 2");
    let prise = coup(&capture_board, "e4d5");
    assert!(avec > s.score_move(&capture_board, prise, None, 0));
}

#[test]
fn un_killer_passe_devant_un_coup_tranquille_ordinaire() {
    let b = Chessboard::startpos();
    let killer = coup(&b, "a2a3");
    let autre = coup(&b, "h2h3");
    let mut s = search();
    s.remember_quiet(killer, 3, 4);
    assert!(s.score_move(&b, killer, None, 3) > s.score_move(&b, autre, None, 3));
    // At another ply the killer is only a quiet move with history.
    assert!(s.score_move(&b, killer, None, 5) < s.score_move(&b, killer, None, 3));
}

#[test]
fn la_table_ne_change_pas_le_coup_trouve_sur_un_mat() {
    assert_eq!(
        best("r1bqkbnr/pppp1ppp/2n5/4p3/2B1P3/5Q2/PPPP1PPP/RNB1K1NR w KQkq - 0 1", 6),
        "f3f7"
    );
}

#[test]
fn vider_la_table_restaure_letat_initial() {
    let mut s = search();
    s.resize_table(1);
    s.go(&Position::startpos(), &jusqua(6), |_| {});
    assert!(s.table_permille() > 0, "la table doit s'être remplie");
    s.clear_table();
    assert_eq!(s.table_permille(), 0);
}

#[test]
fn la_garde_du_coup_nul_distingue_les_finales_de_pions() {
    assert!(has_non_pawn_material(&Chessboard::startpos()));
    assert!(has_non_pawn_material(&board("4k3/8/8/8/8/8/4P3/3RK3 w - - 0 1")));
    assert!(!has_non_pawn_material(&board("4k3/4p3/8/8/8/8/4P3/4K3 w - - 0 1")));
    assert!(!has_non_pawn_material(&board("3rk3/4p3/8/8/8/8/4P3/4K3 w - - 0 1")));
    assert!(has_non_pawn_material(&board("3rk3/4p3/8/8/8/8/4P3/4K3 b - - 0 1")));
}

#[test]
fn le_coup_nul_ne_casse_pas_la_detection_de_mat() {
    let position =
        Position::from_fen("r1bqkbnr/pppp1ppp/2n5/4p3/2B1P3/5Q2/PPPP1PPP/RNB1K1NR w KQkq - 0 1")
            .unwrap();
    let mut dernier = None;
    let mv = search().go(&position, &jusqua(5), |info| dernier = Some(info.score));
    assert_eq!(position.board().uci_text(mv.unwrap()), "f3f7");
    assert_eq!(dernier, Some(Score::Mate(1)));
}

#[test]
fn le_coup_nul_ne_sapplique_pas_en_echec() {
    let position = Position::from_fen("4r2k/8/8/8/8/8/8/4K3 w - - 0 1").unwrap();
    assert!(position.board().checkers() != 0);
    let mv = search().go(&position, &jusqua(4), |_| {}).unwrap();
    assert!(position.board().is_legal(mv));
}

#[test]
fn la_table_de_reduction_croit_avec_la_profondeur_et_le_rang() {
    let s = search();
    assert!(s.reduction(3, 3) >= 1);
    assert!(s.reduction(20, 3) >= s.reduction(4, 3));
    assert!(s.reduction(8, 30) >= s.reduction(8, 4));
    for depth in 3..40 {
        for index in 3..40 {
            let r = s.reduction(depth, index);
            assert!(r >= 1 && r < depth, "profondeur {depth}, rang {index} : r={r}");
        }
    }
}

#[test]
fn la_reduction_ne_casse_pas_la_detection_de_mat() {
    assert_eq!(
        best("r1bqkbnr/pppp1ppp/2n5/4p3/2B1P3/5Q2/PPPP1PPP/RNB1K1NR w KQkq - 0 1", 6),
        "f3f7"
    );
    assert_eq!(
        best("rnbqkbnr/pppp1ppp/8/4p3/6P1/5P2/PPPPP2P/RNBQKBNR b KQkq - 0 2", 6),
        "d8h4"
    );
}

#[test]
fn la_fenetre_etroite_ne_casse_pas_la_detection_de_mat() {
    assert_eq!(
        best("r1bqkbnr/pppp1ppp/2n5/4p3/2B1P3/5Q2/PPPP1PPP/RNB1K1NR w KQkq - 0 1", 6),
        "f3f7"
    );
    let position = Position::from_fen("k7/2K5/8/8/8/8/8/1R6 b - - 0 1").unwrap();
    let mut annonces = Vec::new();
    let mv = search().go(&position, &jusqua(6), |info| annonces.push(info.score)).unwrap();
    assert!(position.board().is_legal(mv));
    assert!(matches!(annonces.last(), Some(Score::Mate(n)) if *n < 0), "{annonces:?}");
}

#[test]
fn le_tirage_au_sort_reste_disponible_et_legal() {
    let b = Chessboard::startpos();
    let a = random_legal_move(&b).unwrap();
    assert_eq!(Some(a), random_legal_move(&b), "doit rester déterministe");
    assert!(b.is_legal(a));
}

#[test]
fn le_tirage_au_sort_ne_degenere_pas() {
    assert_eq!(next_random(&mut 0), 0, "zéro est bien un point fixe");
    assert_eq!(random_seed(0), 1);
    assert_eq!(random_seed(2), 3);
    assert_eq!(random_seed(3), 3);
    assert_eq!(random_seed(u64::MAX), u64::MAX);
    let mut position = Position::startpos();
    let mut rangs = Vec::new();
    for _ in 0..20 {
        let b = position.board().duplicate();
        let legaux = b.legal_moves();
        if legaux.is_empty() {
            break;
        }
        let mv = random_legal_move(&b).unwrap();
        let rang = legaux.iter().position(|c| *c == mv).unwrap();
        if !rangs.contains(&rang) {
            rangs.push(rang);
        }
        position.play(mv);
    }
    assert!(rangs.len() >= 8, "le tirage doit visiter des rangs variés : {}", rangs.len());
}

#[test]
fn le_generateur_pseudo_aleatoire_rend_une_suite_connue() {
    let mut dense = 0xDEAD_BEEF_CAFE_1234_u64;
    assert_eq!(next_random(&mut dense), 9_195_287_788_668_050_452);
    assert_eq!(next_random(&mut dense), 8_999_892_485_905_921_430);

    let mut etat = 1_u64;
    assert_eq!(next_random(&mut etat), 5_180_492_295_206_395_165);
    assert_eq!(next_random(&mut etat), 12_380_297_144_915_551_517);
}

#[test]
fn le_seuil_de_mat_est_une_borne_stricte() {
    assert_eq!(Score::from_internal(MATE_THRESHOLD), Score::Cp(MATE_THRESHOLD));
    assert_eq!(Score::from_internal(-MATE_THRESHOLD), Score::Cp(-MATE_THRESHOLD));
    assert!(matches!(Score::from_internal(MATE_THRESHOLD + 1), Score::Mate(_)));
}

#[test]
fn redimensionner_la_table_change_vraiment_sa_taille() {
    let mut s = search();
    s.resize_table(1);
    let petite = s.table_capacity();
    s.resize_table(64);
    assert!(s.table_capacity() > petite);
}

#[test]
fn le_budget_dhorloge_est_exact() {
    let pendule = |remaining, increment, movestogo| Limits {
        wtime: Some(remaining),
        winc: Some(increment),
        movestogo,
        ..Limits::default()
    };
    assert_eq!(time_budget_ms(&pendule(60_000, 100, Some(30)), Color::White), Some(2_050));
    assert_eq!(time_budget_ms(&pendule(60_000, 100, None), Color::White), Some(5_050));
    assert_eq!(time_budget_ms(&pendule(60_000, 0, Some(30)), Color::White), Some(2_000));
    assert_eq!(time_budget_ms(&pendule(60_000, 0, Some(1)), Color::White), Some(59_950));
    assert_eq!(time_budget_ms(&pendule(30, 10_000, None), Color::White), Some(1));
    assert_eq!(
        time_budget_ms(
            &Limits { movetime: Some(1_000), wtime: Some(60_000), ..Limits::default() },
            Color::White
        ),
        Some(980)
    );
    assert_eq!(
        time_budget_ms(&Limits { movetime: Some(5), ..Limits::default() }, Color::White),
        Some(1)
    );
    let noirs = Limits { btime: Some(60_000), movestogo: Some(30), ..Limits::default() };
    assert_eq!(time_budget_ms(&noirs, Color::Black), Some(2_000));
    assert_eq!(time_budget_ms(&noirs, Color::White), None);
    assert_eq!(
        time_budget_ms(&Limits { infinite: true, wtime: Some(60_000), ..Limits::default() }, Color::White),
        None
    );
    assert_eq!(time_budget_ms(&Limits { depth: Some(8), ..Limits::default() }, Color::White), None);
}

#[test]
fn une_pendule_genereuse_ne_bride_pas_lapprofondissement() {
    let limits = Limits { depth: Some(6), movetime: Some(10_000), ..Limits::default() };
    let mut atteinte = 0;
    search().go(&Position::startpos(), &limits, |info| {
        atteinte = atteinte.max(info.depth);
    });
    assert_eq!(atteinte, 6);
}

#[test]
fn la_variante_se_recopie_du_ply_suivant() {
    let b = Chessboard::startpos();
    let e4 = coup(&b, "e2e4");
    let apres = b.play(e4);
    let e5 = coup(&apres, "e7e5");
    let mut pv = PvTable::new();
    pv.clear(1);
    pv.push(1, e5);
    pv.clear(0);
    pv.push(0, e4);
    assert_eq!(pv.line(), vec![e4, e5]);
    pv.clear(0);
    assert!(pv.line().is_empty());
}

#[test]
fn un_killer_ne_se_double_pas() {
    let b = Chessboard::startpos();
    let a3 = coup(&b, "a2a3");
    let h3 = coup(&b, "h2h3");
    let mut s = search();
    s.remember_quiet(a3, 2, 1);
    s.remember_quiet(a3, 2, 1);
    s.remember_quiet(h3, 2, 1);
    // h3 first, a3 second: both killers, h3 ahead.
    assert!(s.score_move(&b, h3, None, 2) > s.score_move(&b, a3, None, 2));
    assert!(s.score_move(&b, a3, None, 2) > s.score_move(&b, coup(&b, "b2b3"), None, 2));
}

#[test]
fn une_variante_dun_seul_coup_se_lit() {
    let mut pv = PvTable::new();
    let b = Chessboard::startpos();
    let mv = coup(&b, "e2e4");
    pv.clear(1);
    pv.push(0, mv);
    assert_eq!(pv.line(), vec![mv]);
}

#[test]
fn une_variante_enchaine_les_plies() {
    let b = board("rnbqkbnr/pppppppp/8/8/8/8/PPPPPPPP/RNBQKBNR w KQkq - 0 1");
    let e2e4 = coup(&b, "e2e4");
    let g1f3 = coup(&b, "g1f3");
    let b1c3 = coup(&b, "b1c3");

    let mut pv = PvTable::new();
    pv.clear(3);
    pv.push(2, b1c3);
    pv.push(1, g1f3);
    pv.push(0, e2e4);
    assert_eq!(
        pv.line(),
        vec![e2e4, g1f3, b1c3],
        "la variante doit se lire de la racine vers les feuilles"
    );
}

#[test]
fn vider_un_ply_coupe_la_variante_a_cet_endroit() {
    let b = Chessboard::startpos();
    let e2e4 = coup(&b, "e2e4");
    let g1f3 = coup(&b, "g1f3");

    let mut pv = PvTable::new();
    pv.clear(2);
    pv.push(1, g1f3);
    pv.clear(1);
    pv.push(0, e2e4);
    assert_eq!(pv.line(), vec![e2e4], "le fils vidé ne doit plus suivre");
}

#[test]
fn la_variante_supporte_les_bornes_du_tableau() {
    let b = Chessboard::startpos();
    let mv = coup(&b, "e2e4");
    let mut pv = PvTable::new();
    pv.clear(MAX_PLY);
    pv.clear(MAX_PLY + 7);
    pv.push(MAX_PLY - 1, mv);
    pv.push(MAX_PLY, mv);
    assert_eq!(pv.line(), Vec::new(), "rien n'a été écrit à la racine");
}

/// A deterministic walk from the starting position, one xorshift per game.
fn marche(parties: u32, plis: u32, mut visiter: impl FnMut(&Chessboard)) {
    for graine in 1..=parties {
        let mut etat = (u64::from(graine) * 2_654_435_761) | 1;
        let mut board = Chessboard::startpos();
        for _ in 0..plis {
            let coups = board.legal_moves();
            if coups.is_empty() {
                break;
            }
            visiter(&board);
            etat ^= etat << 13;
            etat ^= etat >> 7;
            etat ^= etat << 17;
            let mv = coups[(etat as usize) % coups.len()];
            board = board.play(mv);
        }
    }
}

#[test]
fn economie_jamais_a_tort() {
    let mut vus = 0u64;
    marche(60, 80, |board| {
        for mv in board.legal_moves() {
            let Some(victim) = captured_piece(board, mv) else {
                continue;
            };
            if mv.promotion.is_some() {
                continue;
            }
            vus += 1;
            if !may_lose_material(board, mv, victim) {
                let exchange = see(board, mv);
                assert!(
                    exchange >= 0,
                    "économie fausse : {} vaut {exchange} sur {}",
                    board.uci_text(mv),
                    board.to_fen()
                );
            }
        }
    });
    assert!(vus > 10_000, "corpus trop maigre : {vus} captures");
}

#[test]
fn le_roi_ne_passe_jamais_par_lechange_statique() {
    let mut vus = 0u64;
    marche(60, 80, |board| {
        for mv in board.legal_moves() {
            if board.piece_on(mv.from) != Some(Piece::King) {
                continue;
            }
            let Some(victim) = captured_piece(board, mv) else {
                continue;
            };
            vus += 1;
            assert!(
                !may_lose_material(board, mv, victim),
                "prise de roi {} envoyée à `see`, qui ignore la légalité : {}",
                board.uci_text(mv),
                board.to_fen()
            );
        }
    });
    assert!(vus > 100, "corpus trop maigre : {vus} prises de roi");
}

#[test]
fn capture_perdante_sautee() {
    let b = board("r2q1rk1/p1p2ppp/bp3n2/2bp2B1/4P3/N1QP1N1P/PP3PP1/R3K2R w KQ - 2 13");
    let mv = coup(&b, "c3f6");
    assert_eq!(see(&b, mv), -660);
    assert!(see_prunable(&b, mv, false));
}

#[test]
fn jamais_en_echec() {
    let b = board("r2q1rk1/p1p2ppp/bp3n2/2bp2B1/4P3/N1QP1N1P/PP3PP1/R3K2R w KQ - 2 13");
    let mv = coup(&b, "c3f6");
    assert!(see_prunable(&b, mv, false));
    assert!(!see_prunable(&b, mv, true));
}

#[test]
fn coup_tranquille_intact() {
    let b = board("r2q1rk1/p1p2ppp/bp3n2/2bp2B1/4P3/N1QP1N1P/PP3PP1/R3K2R w KQ - 2 13");
    let mv = coup(&b, "h3h4");
    assert_eq!(captured_piece(&b, mv), None);
    assert!(!see_prunable(&b, mv, false));
}

#[test]
fn capture_gagnante_et_capture_egale_conservees() {
    let b = board("rnbqkbnr/ppp2ppp/8/3pp3/4P3/5N2/PPPP1PPP/RNBQKB1R w KQkq - 0 3");

    let gagnante = coup(&b, "f3e5");
    assert_eq!(see(&b, gagnante), 100);
    assert!(!see_prunable(&b, gagnante, false));

    let egale = coup(&b, "e4d5");
    assert_eq!(see(&b, egale), 0);
    assert!(!see_prunable(&b, egale, false));
}

#[test]
fn la_reponse_attend_l_arret_en_infini_et_en_ponder() {
    let infini = Limits { infinite: true, ..Limits::default() };
    assert!(answer_waits(&infini, false, false));
    assert!(!answer_waits(&infini, true, false));
    let borne = jusqua(4);
    assert!(!answer_waits(&borne, false, false));
    assert!(answer_waits(&borne, false, true));
    assert!(!answer_waits(&borne, true, true));
}

#[test]
fn un_mat_au_fond_de_larbre_rend_le_score_exact() {
    let mut s = search();
    let mat = board("7k/5QQ1/8/8/8/8/8/7K b - - 0 1");
    assert_eq!(
        s.negamax(&mat, 3, 2, -INFINITY, INFINITY),
        -MATE + 2,
        "un mat vaut -(MATE - ply), et le ply compte depuis la racine"
    );
    assert_eq!(s.negamax(&mat, 3, 5, -INFINITY, INFINITY), -MATE + 5, "un mat plus lointain vaut moins cher");

    let pat = board("7k/5Q2/6K1/8/8/8/8/8 b - - 0 1");
    assert_eq!(s.negamax(&pat, 3, 2, -INFINITY, INFINITY), DRAW, "zéro coup sans échec est un pat, pas un mat");
}

#[test]
fn la_regle_des_cinquante_coups_se_voit_aussi_a_lhorizon() {
    let temoin = board("7k/8/8/8/8/8/8/1Q5K w - - 99 80");
    assert!(
        search().negamax(&temoin, 0, 1, -INFINITY, INFINITY) > 500,
        "témoin : à 99 demi-coups, la partie continue"
    );
    let b = board("7k/8/8/8/8/8/8/1Q5K w - - 100 80");
    assert_eq!(
        search().negamax(&b, 0, 1, -INFINITY, INFINITY),
        DRAW,
        "à 100 demi-coups, c'est nul — à l'horizon comme ailleurs"
    );
    assert_eq!(search().negamax(&b, 2, 1, -INFINITY, INFINITY), DRAW, "et à l'intérieur");
}

#[test]
fn un_mat_au_centieme_demi_coup_reste_un_mat() {
    let mat = board("3R2k1/5ppp/8/8/8/8/5PPP/6K1 b - - 100 80");
    assert_eq!(
        search().negamax(&mat, 3, 2, -INFINITY, INFINITY),
        -MATE + 2,
        "à l'intérieur, le mat l'emporte sur la règle des cinquante coups"
    );
    assert_eq!(search().negamax(&mat, 0, 2, -INFINITY, INFINITY), -MATE + 2, "à l'horizon aussi");

    let echec = board("3R3k/7p/8/8/8/8/5PPP/6K1 b - - 100 80");
    assert_eq!(
        search().negamax(&echec, 3, 2, -INFINITY, INFINITY),
        DRAW,
        "un simple échec ne suspend pas la règle des cinquante coups"
    );
}

#[test]
fn un_echec_au_centieme_demi_coup_est_nul_meme_quand_la_parade_remet_la_pendule_a_zero() {
    let temoin = board("3R3k/6pp/8/8/8/8/3r1PPP/6K1 b - - 99 80");
    assert!(
        search().negamax(&temoin, 3, 2, -INFINITY, INFINITY) > 300,
        "témoin : à 99 demi-coups, la prise de la tour gagne"
    );
    let b = board("3R3k/6pp/8/8/8/8/3r1PPP/6K1 b - - 100 80");
    assert_eq!(
        search().negamax(&b, 3, 2, -INFINITY, INFINITY),
        DRAW,
        "en échec sans être mat, à 100 demi-coups, c'est nul — au nœud même"
    );
}

#[test]
fn jamais_de_nulle_a_la_racine_meme_au_centieme_demi_coup() {
    assert_eq!(best("4k3/8/8/3q4/8/8/8/3QK3 w - - 100 80", 3), "d1d5");

    let position = Position::from_fen("4k3/8/8/3q4/8/8/8/3QK3 w - - 100 80").unwrap();
    let mut scores = Vec::new();
    search().go(&position, &jusqua(3), |info| scores.push(info.score));
    assert!(
        matches!(scores.last(), Some(Score::Cp(cp)) if *cp > 500),
        "la racine se cherche et rend le gain : {scores:?}"
    );
}

#[test]
fn sous_la_profondeur_minimale_la_fenetre_reste_pleine() {
    let b = board("r1bqkbnr/pppp1ppp/2n5/4p3/2B1P3/8/PPPP1PPP/RNBQK1NR w KQkq - 0 1");

    let mut avec = search();
    let pari = avec.search_root(&b, 4, ASPIRATION_MIN_DEPTH, 4_000);
    let mut sans = search();
    let plein = sans.negamax(&b, 4, 0, -INFINITY, INFINITY);

    assert_eq!(pari, plein, "le score doit être identique");
    assert_eq!(avec.nodes(), sans.nodes(), "sous la profondeur minimale, aucun pari ne doit être tenté");
}

#[test]
fn autour_dun_score_de_mat_la_fenetre_reste_pleine() {
    let b = board("r1bqkbnr/pppp1ppp/2n5/4p3/2B1P3/8/PPPP1PPP/RNBQK1NR w KQkq - 0 1");
    let mut sans = search();
    let plein = sans.negamax(&b, 5, 0, -INFINITY, INFINITY);

    for previous in [MATE - 5, MATE_THRESHOLD + 1, -(MATE_THRESHOLD + 1)] {
        let mut avec = search();
        let pari = avec.search_root(&b, 5, 8, previous);
        assert_eq!(pari, plein, "pari {previous} : score");
        assert_eq!(avec.nodes(), sans.nodes(), "pari {previous} : la fenêtre devait rester pleine");
    }
}

#[test]
fn lecheance_douce_precede_toujours_la_dure() {
    let mut s = search();
    s.set_deadlines(&Limits { wtime: Some(60_000), ..Limits::default() }, Color::White);
    let (douce, dure) = s.deadlines();
    assert!(douce.unwrap() < dure.unwrap(), "l'échéance douce doit précéder la dure");
}

#[test]
fn la_recherche_voit_une_repetition_de_son_chemin() {
    let mut s = search();
    let b = board("rnbqkbnr/pppppppp/8/8/8/8/PPPPPPPP/RNBQKBNR w KQkq - 4 3");
    assert!(!s.is_repetition(&b), "un chemin vide ne répète rien");
    s.set_path(vec![b.hash(), 0xAAAA, 0xBBBB], Vec::new());
    assert!(s.is_repetition(&b), "la position doit être reconnue");
    s.set_path(vec![b.hash() ^ 1, 0xAAAA, 0xBBBB], Vec::new());
    assert!(!s.is_repetition(&b), "une autre position ne compte pas");
}

#[test]
fn deux_coups_nuls_de_suite_ne_font_pas_une_repetition() {
    let mut s = search();
    let b = board("rnbqkbnr/pppppppp/8/8/8/8/PPPPPPPP/RNBQKBNR w KQkq - 4 3");
    s.set_path(vec![b.hash(), 0xAAAA, b.hash()], vec![1, 2]);
    assert!(!s.is_repetition(&b), "deux coups nuls ne répètent rien");
    s.set_path(vec![b.hash(), 0xAAAA, b.hash()], Vec::new());
    assert!(s.is_repetition(&b));
}

#[test]
fn une_repetition_ne_traverse_pas_un_coup_nul() {
    let mut s = search();
    let b = board("rnbqkbnr/pppppppp/8/8/8/8/PPPPPPPP/RNBQKBNR w KQkq - 4 3");
    s.set_path(vec![b.hash(), 0xA1, 0xB2, 0xC3, b.hash()], vec![1, 3]);
    assert!(!s.is_repetition(&b), "la fenêtre s'arrête au dernier coup nul");
    s.set_path(vec![b.hash(), 0xA1, 0xB2, 0xC3, b.hash()], Vec::new());
    assert!(s.is_repetition(&b), "témoin : sans coup nul, c'est une répétition");
}

#[test]
fn un_second_coup_nul_ne_rend_pas_une_nulle() {
    let mut s = search();
    let blancs = board("r3k3/8/8/8/8/8/8/3QK2R w - - 0 1");
    let noirs = blancs.null_move().unwrap();
    s.set_path(vec![blancs.hash(), noirs.hash()], Vec::new());
    let score = s.negamax(&noirs, 4, 1, -1, 0);
    assert!(score < 0, "les Noirs sont perdus, la recherche a rendu {score}");
    assert!(s.null_move_indices().is_empty());
}

#[test]
fn une_repetition_apres_le_coup_nul_compte_toujours() {
    let mut s = search();
    let b = board("rnbqkbnr/pppppppp/8/8/8/8/PPPPPPPP/RNBQKBNR w KQkq - 4 3");
    s.set_path(vec![0x11, b.hash(), 0xA1, 0xB2, 0xC3, b.hash()], vec![1]);
    assert!(s.is_repetition(&b));
}

#[test]
fn une_repetition_se_voit_aussi_a_lhorizon() {
    let b = board("7k/8/8/8/8/8/8/1Q5K w - - 4 3");

    let mut temoin = search();
    assert!(
        temoin.negamax(&b, 0, 1, -INFINITY, INFINITY) > 500,
        "témoin : sans répétition, la position ne vaut pas zéro"
    );

    let mut s = search();
    s.set_path(vec![b.hash(), 0xAAAA, b.hash()], Vec::new());
    assert_eq!(
        s.negamax(&b, 0, 1, -INFINITY, INFINITY),
        DRAW,
        "à l'horizon, une répétition est une nulle — pas une évaluation"
    );
    assert_eq!(s.negamax(&b, 1, 1, -INFINITY, INFINITY), DRAW, "à l'intérieur aussi, comme avant");
}

#[test]
fn une_nulle_compte_pour_un_noeud() {
    let b = board("7k/8/8/8/8/8/8/1Q5K w - - 4 3");
    for profondeur in [0, 1] {
        let mut s = search();
        s.set_path(vec![b.hash(), 0xAAAA, b.hash()], Vec::new());
        assert_eq!(s.negamax(&b, profondeur, 1, -INFINITY, INFINITY), DRAW);
        assert_eq!(s.nodes(), 1, "profondeur {profondeur} : une nulle est un nœud visité, ni plus ni moins");
    }
}

#[test]
fn le_pari_ne_vient_que_dune_variante_qui_commence_par_le_coup_joue() {
    let b = Chessboard::startpos();
    let mut s = search();
    let e4 = coup(&b, "e2e4");
    let d4 = coup(&b, "d2d4");
    let apres = b.play(e4);
    let e5 = coup(&apres, "e7e5");

    s.set_last_line(vec![e4, e5]);
    assert_eq!(
        s.ponder_move(&b, e4),
        Some(e5),
        "une variante qui commence par le coup joué donne son deuxième coup"
    );

    s.set_last_line(vec![d4, e5]);
    assert_eq!(s.ponder_move(&b, e4), None, "la variante d'un autre coup ne parie pas pour celui-ci");
}

#[test]
fn une_echeance_deja_passee_arrete_la_recherche() {
    let mut s = search();
    s.set_deadlines(&Limits { movetime: Some(1), ..Limits::default() }, Color::White);
    let posee = Instant::now();
    while posee.elapsed() < Duration::from_millis(5) {}
    assert!(s.should_abort(), "une échéance passée arrête tout de suite");
    assert!(s.should_abort(), "et l'arrêt reste acquis");
}
