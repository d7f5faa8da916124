use shallowred::board::Chessboard;
use shallowred::search::{Limits, MAX_THREADS};
use shallowred::types::Move;
use shallowred::uci::{
    bestmove_line, identification, parse_command, parse_go, parse_option, perft_lines,
    position_command, pv_to_uci, setting_of, Command, Setting,
};

fn go(ligne: &str) -> (Limits, Option<u32>) {
    let mots: Vec<&str> = ligne.split_whitespace().collect();
    parse_go(&mots)
}

fn coup(b: &Chessboard, uci: &str) -> Move {
    b.parse_uci(uci).unwrap()
}

#[test]
fn go_ponder_se_lit_sans_deranger_la_pendule() {
    let (limites, _) = go("ponder wtime 1000 btime 2000 winc 10 binc 20");
    assert!(limites.ponder, "le jeton ponder doit être vu");
    assert_eq!(limites.wtime, Some(1000));
    assert_eq!(limites.btime, Some(2000));
    let (sans, _) = go("wtime 1000 btime 2000");
    assert!(!sans.ponder, "sans le jeton, pas de ponder");
}

#[test]
fn le_moteur_annonce_le_ponder_desactive_avant_uciok() {
    let lignes = identification();
    let ponder = lignes.iter().position(|l| l == "option name Ponder type check default false");
    assert!(ponder.is_some(), "l'option Ponder doit être annoncée, désactivée par défaut");
    let ponder = ponder.unwrap();
    let fin = lignes.iter().position(|l| l == "uciok").unwrap();
    assert!(ponder < fin, "une option annoncée après uciok est ignorée");
    assert_eq!(fin, lignes.len() - 1, "uciok clôt l'identification");
}

#[test]
fn threads_est_annonce_avant_uciok() {
    let lignes = identification();
    let annonce = format!("option name Threads type spin default 1 min 1 max {MAX_THREADS}");
    let threads = lignes.iter().position(|l| *l == annonce);
    let fin = lignes.iter().position(|l| l == "uciok").unwrap();
    assert!(threads.is_some_and(|t| t < fin), "Threads annoncé avant uciok");
}

#[test]
fn le_pari_se_convertit_sur_le_plateau_dapres() {
    let racine = Chessboard::from_fen("r3k2r/8/8/8/8/8/8/R3K2R w KQkq - 0 1").unwrap();
    let meilleur = coup(&racine, "a1a2");
    let apres = racine.play(meilleur);
    let roque = coup(&apres, "e8g8");
    assert_eq!(bestmove_line(&racine, Some(meilleur), Some(roque)), "bestmove a1a2 ponder e8g8");
}

#[test]
fn un_pari_illegal_ou_absent_disparait_de_bestmove() {
    let racine = Chessboard::startpos();
    let e4 = coup(&racine, "e2e4");
    assert_eq!(bestmove_line(&racine, Some(e4), None), "bestmove e2e4");
    assert_eq!(bestmove_line(&racine, Some(e4), Some(e4)), "bestmove e2e4");
    assert_eq!(bestmove_line(&racine, None, None), "bestmove 0000");
}

#[test]
fn chaque_parametre_de_go_est_lu() {
    let (l, perft) =
        go("wtime 1 btime 2 winc 3 binc 4 movestogo 5 movetime 6 depth 7 nodes 8 infinite");
    assert_eq!(l.wtime, Some(1));
    assert_eq!(l.btime, Some(2));
    assert_eq!(l.winc, Some(3));
    assert_eq!(l.binc, Some(4));
    assert_eq!(l.movestogo, Some(5));
    assert_eq!(l.movetime, Some(6));
    assert_eq!(l.depth, Some(7));
    assert_eq!(l.nodes, Some(8));
    assert!(l.infinite);
    assert_eq!(perft, None);
}

#[test]
fn un_go_nu_ne_contraint_rien() {
    assert_eq!(go(""), (Limits::default(), None));
    assert_eq!(go("ponder"), (Limits { ponder: true, ..Limits::default() }, None));
}

#[test]
fn go_perft_se_distingue_dune_recherche() {
    let (l, perft) = go("perft 4");
    assert_eq!(perft, Some(4));
    assert_eq!(l, Limits::default(), "perft n'impose aucune contrainte");
}

#[test]
fn un_parametre_mal_forme_est_ignore_sans_casser_les_autres() {
    let (l, _) = go("depth abc movetime 50");
    assert_eq!(l.depth, None);
    assert_eq!(l.movetime, Some(50));
}

#[test]
fn un_jeton_inconnu_nest_pas_pris_pour_une_valeur() {
    let (l, _) = go("searchmoves e2e4 depth 3");
    assert_eq!(l.depth, Some(3));
}

#[test]
fn le_nom_et_la_valeur_dune_option_sont_extraits() {
    let mots: Vec<&str> = "name Hash value 64".split_whitespace().collect();
    assert_eq!(parse_option(&mots), Some(("Hash".to_owned(), Some("64"))));
}

#[test]
fn un_nom_doption_en_plusieurs_mots_est_recolle() {
    let mots: Vec<&str> = "name Move Overhead value 30".split_whitespace().collect();
    assert_eq!(parse_option(&mots), Some(("Move Overhead".to_owned(), Some("30"))));
}

#[test]
fn une_option_sans_valeur_rend_un_nom_sans_valeur() {
    let mots: Vec<&str> = "name Ponder".split_whitespace().collect();
    assert_eq!(parse_option(&mots), Some(("Ponder".to_owned(), None)));
}

#[test]
fn une_option_sans_mot_cle_name_est_refusee() {
    let mots: Vec<&str> = "Hash value 64".split_whitespace().collect();
    assert_eq!(parse_option(&mots), None);
}

#[test]
fn la_variante_est_convertie_coup_par_coup() {
    let plateau = Chessboard::startpos();
    let mut b = plateau.duplicate();
    let mut coups = Vec::new();
    for uci in ["e2e4", "e7e5", "g1f3"] {
        let mv = coup(&b, uci);
        b = b.play(mv);
        coups.push(mv);
    }
    assert_eq!(pv_to_uci(&plateau, &coups), "e2e4 e7e5 g1f3");
    assert_eq!(pv_to_uci(&plateau, &[]), "", "une variante vide reste vide");
}

#[test]
fn la_variante_se_coupe_au_premier_coup_illegal() {
    let plateau = Chessboard::startpos();
    let legal = coup(&plateau, "e2e4");
    let apres = plateau.play(legal);
    // e4 is 28, e5 is 36: a white move, illegal with Black to move.
    let illegal = Move::new(28, 36, None);
    assert!(!apres.is_legal(illegal), "le coup doit être illégal APRÈS e2e4");
    assert_eq!(pv_to_uci(&plateau, &[legal, illegal]), "e2e4");
}

#[test]
fn le_roque_est_rendu_en_notation_uci_et_non_roi_prend_tour() {
    let plateau =
        Chessboard::from_fen("rnbqkbnr/pppppppp/8/8/8/8/PPPPPPPP/RNBQK2R w KQkq - 0 1").unwrap();
    let roque = coup(&plateau, "e1g1");
    // h1 is square 7: the move generator writes king takes own rook.
    assert_eq!(roque.to, 7, "encodage interne");
    assert_eq!(pv_to_uci(&plateau, &[roque]), "e1g1", "sortie UCI");
}

#[test]
fn une_option_se_lit_sans_casse_et_refuse_une_valeur_illisible() {
    let mots: Vec<&str> = "name threads value 3".split_whitespace().collect();
    assert_eq!(setting_of(&mots), Setting::Threads(3));
    let mots: Vec<&str> = "name Threads value deux".split_whitespace().collect();
    assert_eq!(setting_of(&mots), Setting::Ignored);
    let mots: Vec<&str> = "name Hash value 16".split_whitespace().collect();
    assert_eq!(setting_of(&mots), Setting::Hash(16));
}

#[test]
fn une_position_se_rejoue_et_un_coup_illegal_est_refuse() {
    let mots: Vec<&str> = "startpos moves e2e4 e7e5".split_whitespace().collect();
    let position = position_command(&mots).unwrap();
    assert_eq!(
        position.board().to_fen(),
        "rnbqkbnr/pppp1ppp/8/4p3/4P3/8/PPPP1PPP/RNBQKBNR w KQkq e6 0 2"
    );
    let mots: Vec<&str> = "startpos moves e2e5".split_whitespace().collect();
    assert!(position_command(&mots).is_err());
    let mots: Vec<&str> = "moves e2e4".split_whitespace().collect();
    assert!(position_command(&mots).is_err());
}

#[test]
fn go_perft_reproduit_les_valeurs_de_reference() {
    let lignes = perft_lines(&Chessboard::startpos(), 3).unwrap();
    assert_eq!(lignes.last().unwrap(), "Nodes searched: 8902");
    assert_eq!(lignes.len(), 20 + 2);
}

#[test]
fn les_commandes_se_reconnaissent() {
    assert!(matches!(parse_command("quit"), Command::Quit));
    assert!(matches!(parse_command("isready"), Command::IsReady));
    assert!(matches!(parse_command("uci"), Command::Uci));
    assert!(matches!(parse_command("commande inconnue"), Command::Ignored));
    assert!(matches!(parse_command(""), Command::Ignored));
    assert!(matches!(parse_command("go depth 3"), Command::Go(l, None) if l.depth == Some(3)));
}
