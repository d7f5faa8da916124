use shallowred::eval::{MATE, MATE_THRESHOLD};
use shallowred::tt::{pack_move, score_from_tt, score_to_tt, unpack_move, Bound, TranspositionTable};
use shallowred::types::{Move, Piece};

/// A move from its coordinate text, without a board.
fn mv(text: &str) -> Move {
    let b = text.as_bytes();
    let square = |file: u8, rank: u8| (rank - b'1') * 8 + (file - b'a');
    let promotion = match b.get(4) {
        Some(b'n') => Some(Piece::Knight),
        Some(b'b') => Some(Piece::Bishop),
        Some(b'r') => Some(Piece::Rook),
        Some(b'q') => Some(Piece::Queen),
        _ => None,
    };
    Move { from: square(b[0], b[1]), to: square(b[2], b[3]), promotion }
}

#[test]
fn un_coup_survit_a_laller_retour() {
    for text in ["e2e4", "a1h8", "e7e8q", "b2b1n", "h7h8r", "a7a8b", "e1h1"] {
        let original = mv(text);
        assert_eq!(unpack_move(pack_move(original)), Some(original), "{text}");
    }
}

#[test]
fn zero_ne_code_aucun_coup() {
    assert_eq!(unpack_move(0), None);
    assert_eq!(pack_move(mv("a1a1")), 0);
}

#[test]
fn un_score_ordinaire_traverse_la_table_sans_changer() {
    assert_eq!(score_from_tt(score_to_tt(42, 7), 7), 42);
    assert_eq!(score_from_tt(score_to_tt(-350, 3), 3), -350);
}

#[test]
fn un_score_de_mat_est_corrige_du_ply() {
    let score_a_la_racine = MATE - 4;
    let stocke = score_to_tt(score_a_la_racine, 4);
    assert_eq!(stocke, MATE, "la distance stockée est relative à la position");
    assert_eq!(score_from_tt(stocke, 10), MATE - 10);
}

#[test]
fn un_mat_subi_est_corrige_dans_lautre_sens() {
    let stocke = score_to_tt(-(MATE - 4), 4);
    assert_eq!(stocke, -MATE);
    assert_eq!(score_from_tt(stocke, 10), -(MATE - 10));
}

#[test]
fn la_table_rend_ce_quelle_a_stocke() {
    let mut tt = TranspositionTable::new(1);
    tt.new_search();
    tt.store(0xDEAD_BEEF, Some(mv("e2e4")), 123, 5, Bound::Exact, 0);
    let hit = tt.probe(0xDEAD_BEEF, 0).unwrap();
    assert_eq!(hit.mv, Some(mv("e2e4")));
    assert_eq!(hit.score, 123);
    assert_eq!(hit.depth, 5);
    assert_eq!(hit.bound, Bound::Exact);
}

#[test]
fn une_cle_absente_ne_rend_rien() {
    let tt = TranspositionTable::new(1);
    assert!(tt.probe(0x1234, 0).is_none());
}

#[test]
fn une_entree_profonde_nest_pas_ecrasee_par_une_superficielle() {
    let mut tt = TranspositionTable::new(1);
    tt.new_search();
    tt.store(7, Some(mv("e2e4")), 100, 8, Bound::Exact, 0);
    tt.store(7, Some(mv("d2d4")), 200, 2, Bound::Exact, 0);
    assert_eq!(tt.probe(7, 0).unwrap().depth, 8, "la profonde doit survivre");
}

#[test]
fn une_entree_dune_recherche_anterieure_est_remplacable() {
    let mut tt = TranspositionTable::new(1);
    tt.new_search();
    tt.store(7, Some(mv("e2e4")), 100, 8, Bound::Exact, 0);
    tt.new_search();
    tt.store(7, Some(mv("d2d4")), 200, 2, Bound::Exact, 0);
    assert_eq!(tt.probe(7, 0).unwrap().depth, 2);
}

#[test]
fn un_coup_connu_nest_pas_efface_par_une_entree_sans_coup() {
    let mut tt = TranspositionTable::new(1);
    tt.new_search();
    tt.store(7, Some(mv("e2e4")), 100, 4, Bound::Exact, 0);
    tt.store(7, None, 50, 6, Bound::Upper, 0);
    assert_eq!(tt.probe(7, 0).unwrap().mv, Some(mv("e2e4")));
}

#[test]
fn vider_la_table_efface_tout() {
    let mut tt = TranspositionTable::new(1);
    tt.new_search();
    tt.store(7, Some(mv("e2e4")), 100, 4, Bound::Exact, 0);
    tt.clear();
    assert!(tt.probe(7, 0).is_none());
    assert_eq!(tt.permille_used(), 0);
}

#[test]
fn le_taux_de_remplissage_suit_le_contenu() {
    let mut tt = TranspositionTable::new(1);
    assert_eq!(tt.permille_used(), 0, "une table vide est vide");
    let echantillon = tt.capacity().min(1_000);
    for index in 0..echantillon as u64 {
        tt.store(index, None, 0, 1, Bound::Exact, 0);
    }
    assert_eq!(tt.permille_used(), 1_000, "un échantillon plein vaut mille pour mille");
    assert!(tt.permille_used() <= 1_000, "un pour-mille ne dépasse pas mille");
}

#[test]
fn une_entree_vide_ne_repond_jamais() {
    let tt = TranspositionTable::new(1);
    assert!(tt.probe(0, 0).is_none(), "clé zéro sur table vierge");
    assert!(tt.probe(1, 0).is_none());
}

#[test]
fn une_collision_dindex_ne_rend_pas_lentree_de_lautre_cle() {
    let mut tt = TranspositionTable::new(1);
    let capacite = tt.capacity() as u64;
    let masque = tt.capacity() - 1;
    let (une, autre) = (0xDEAD_BEEF_u64, 0xDEAD_BEEF + capacite);
    assert_eq!(une as usize & masque, autre as usize & masque, "les deux clés doivent bien entrer en collision");
    tt.store(une, Some(mv("e2e4")), 100, 5, Bound::Exact, 0);
    assert!(tt.probe(une, 0).is_some(), "la clé stockée répond");
    assert!(tt.probe(autre, 0).is_none(), "l'autre clé ne doit RIEN obtenir");
}

#[test]
fn une_entree_de_profondeur_zero_reste_lisible() {
    let mut tt = TranspositionTable::new(1);
    tt.store(7, Some(mv("d2d4")), 12, 0, Bound::Exact, 0);
    let hit = tt.probe(7, 0).unwrap();
    assert_eq!(hit.depth, 0);
    assert_eq!(hit.score, 12);
}

#[test]
fn une_entree_superficielle_est_ecrasee_par_une_profonde() {
    let mut tt = TranspositionTable::new(1);
    tt.store(9, Some(mv("a2a3")), 10, 1, Bound::Exact, 0);
    tt.store(9, Some(mv("h2h4")), 99, 5, Bound::Lower, 0);
    let hit = tt.probe(9, 0).unwrap();
    assert_eq!(hit.depth, 5, "la profonde l'emporte");
    assert_eq!(hit.score, 99);
    assert_eq!(hit.mv, Some(mv("h2h4")));
}

#[test]
fn une_autre_position_deloge_toujours_lentree_meme_moins_profonde() {
    let mut tt = TranspositionTable::new(1);
    let capacite = tt.capacity() as u64;
    let (occupant, nouveau) = (0xFEED_u64, 0xFEED + capacite);
    tt.store(occupant, Some(mv("e2e4")), 100, 9, Bound::Exact, 0);
    tt.store(nouveau, Some(mv("d2d4")), -30, 2, Bound::Upper, 0);
    assert!(tt.probe(occupant, 0).is_none(), "l'ancienne position a cédé la place");
    let hit = tt.probe(nouveau, 0).unwrap();
    assert_eq!(hit.depth, 2);
    assert_eq!(hit.score, -30);
    assert_eq!(hit.mv, Some(mv("d2d4")));
}

#[test]
fn un_coup_nest_herite_que_de_la_meme_position() {
    let mut tt = TranspositionTable::new(1);
    let capacite = tt.capacity() as u64;
    let (une, autre) = (0x1234_u64, 0x1234 + capacite);
    tt.store(une, Some(mv("e2e4")), 50, 3, Bound::Exact, 0);
    tt.store(autre, None, 20, 4, Bound::Exact, 0);
    let hit = tt.probe(autre, 0).unwrap();
    assert_eq!(hit.mv, None, "le coup de l'autre position ne doit pas être hérité");
}

#[test]
fn la_borne_des_scores_de_mat_est_exacte() {
    const PLY: i32 = 6;
    assert_eq!(score_to_tt(MATE_THRESHOLD, PLY), MATE_THRESHOLD);
    assert_eq!(score_from_tt(MATE_THRESHOLD, PLY), MATE_THRESHOLD);
    assert_eq!(score_to_tt(-MATE_THRESHOLD, PLY), -MATE_THRESHOLD);
    assert_eq!(score_from_tt(-MATE_THRESHOLD, PLY), -MATE_THRESHOLD);
    assert_eq!(score_to_tt(MATE_THRESHOLD + 1, PLY), MATE_THRESHOLD + 1 + PLY);
    assert_eq!(score_from_tt(MATE_THRESHOLD + 1, PLY), MATE_THRESHOLD + 1 - PLY);
    assert_eq!(score_to_tt(-MATE_THRESHOLD - 1, PLY), -MATE_THRESHOLD - 1 - PLY);
    assert_eq!(score_from_tt(-MATE_THRESHOLD - 1, PLY), -MATE_THRESHOLD - 1 + PLY);
}

#[test]
fn la_taille_est_une_puissance_de_deux_sous_la_demande() {
    for mb in [1, 2, 7, 16, 64] {
        let tt = TranspositionTable::new(mb);
        assert!(tt.capacity().is_power_of_two(), "{mb} Mio");
        let octets = tt.capacity() * std::mem::size_of::<[u64; 2]>();
        assert!(octets <= mb * 1024 * 1024, "{mb} Mio dépassé");
        assert!(octets > mb * 1024 * 1024 / 2, "{mb} Mio : la table n'utilise que {octets} octets");
    }
}

#[test]
fn stocker_puis_lire_rend_le_coup_et_le_score_a_tout_ply() {
    let mut tt = TranspositionTable::new(1);
    tt.store(99, Some(mv("g1f3")), MATE - 8, 3, Bound::Lower, 5);
    let hit = tt.probe(99, 2).unwrap();
    assert_eq!(hit.score, MATE - 5, "un mat relu deux plys de la racine");
    assert_eq!(hit.bound, Bound::Lower);
    assert_eq!(TranspositionTable::with_entry_count(5).capacity(), 8);
}

#[test]
fn seule_la_derniere_ecriture_du_slot_repond() {
    let mut tt = TranspositionTable::with_entry_count(8);
    let c = tt.capacity() as u64;
    tt.store(3, None, 10, 5, Bound::Exact, 0);
    tt.new_search();
    tt.store(3 + c, None, 20, 1, Bound::Exact, 0);
    assert!(tt.probe(3, 0).is_none());
    assert_eq!(tt.probe(3 + c, 0).map(|h| h.score), Some(20));
    tt.clear();
    assert!(tt.probe(3 + c, 0).is_none());
    assert!(tt.probe(3, 0).is_none());
}
