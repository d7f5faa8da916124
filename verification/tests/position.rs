use shallowred::position::{repetitions, Position};
use shallowred::types::Color;

#[test]
fn startpos_a_un_historique_dun_element() {
    let pos = Position::startpos();
    assert_eq!(pos.history().len(), 1);
    assert!(!pos.is_repetition());
}

#[test]
fn lhistorique_porte_une_cle_par_position_traversee() {
    let mut pos = Position::startpos();
    assert_eq!(pos.history(), &[pos.board().hash()]);
    let mut attendu = vec![pos.board().hash()];
    for token in ["e2e4", "e7e5", "g1f3"] {
        pos.play_uci(token).unwrap();
        attendu.push(pos.board().hash());
    }
    assert_eq!(pos.history(), attendu.as_slice());
    assert_eq!(pos.history().last(), Some(&pos.board().hash()));
}

#[test]
fn une_fenetre_non_vide_sans_correspondance_ne_compte_rien() {
    let mut pos = Position::startpos();
    for token in ["g1f3", "g8f6", "f3g1", "f6g8", "b1c3"] {
        pos.play_uci(token).unwrap();
    }
    assert_eq!(pos.board().halfmove_clock(), 5, "la fenêtre doit être ouverte");
    assert_eq!(pos.repetition_count(), 0);
    assert!(!pos.is_repetition());
}

#[test]
fn la_regle_des_cinquante_coups_se_declenche_a_cent_demi_coups() {
    let atteinte = Position::from_fen("4k3/8/8/8/8/8/8/R3K3 w - - 100 60").unwrap();
    assert!(atteinte.is_fifty_move_draw());
    let juste_avant = Position::from_fen("4k3/8/8/8/8/8/8/R3K3 w - - 99 60").unwrap();
    assert!(!juste_avant.is_fifty_move_draw());
    assert!(!Position::startpos().is_fifty_move_draw());
}

#[test]
fn aller_retour_de_cavaliers_produit_une_repetition() {
    let mut pos = Position::startpos();
    for token in ["g1f3", "g8f6", "f3g1", "f6g8"] {
        pos.play_uci(token).unwrap();
    }
    assert_eq!(pos.repetition_count(), 1);
    assert!(pos.is_repetition());
}

#[test]
fn une_position_intermediaire_nest_pas_une_repetition() {
    let mut pos = Position::startpos();
    pos.play_uci("g1f3").unwrap();
    assert!(!pos.is_repetition());
}

#[test]
fn un_coup_de_pion_coupe_la_fenetre_de_repetition() {
    let mut pos = Position::startpos();
    for token in ["g1f3", "g8f6", "f3g1", "f6g8", "e2e4"] {
        pos.play_uci(token).unwrap();
    }
    assert_eq!(pos.repetition_count(), 0);
}

#[test]
fn le_roque_uci_est_accepte_et_converti() {
    let mut pos =
        Position::from_fen("rnbqkbnr/pppppppp/8/8/8/8/PPPPPPPP/RNBQK2R w KQkq - 0 1").unwrap();
    let mv = pos.play_uci("e1g1").unwrap();
    // h1 is 7, g1 is 6.
    assert_eq!(mv.to, 7);
    assert_eq!(pos.board().king(Color::White), 6);
}

#[test]
fn un_coup_illegal_est_rejete_sans_paniquer() {
    let mut pos = Position::startpos();
    assert_eq!(pos.play_uci("e1e8"), Err("coup illégal : e1e8".to_string()));
    assert_eq!(pos.play_uci("zzzz"), Err("coup illisible ou illégal : zzzz".to_string()));
    assert_eq!(pos.history().len(), 1, "un coup rejeté n'allonge pas l'historique");
}

#[test]
fn une_fen_invalide_est_rejetee() {
    assert!(Position::from_fen("pas une fen").is_err());
}

#[test]
fn la_fenetre_de_repetition_saute_le_coup_adverse() {
    // The current key last; the window is the clock, every other key back.
    assert_eq!(repetitions(&[5, 9, 5, 9, 5], 5, 4), 2);
    assert_eq!(repetitions(&[5, 9, 5, 9, 5], 5, 2), 1);
    assert_eq!(repetitions(&[5, 9, 5, 9, 5], 5, 0), 0);
    assert_eq!(repetitions(&[5], 5, 10), 0);
}
