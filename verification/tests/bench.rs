use shallowred::bench::{bench_nodes, BENCH_FENS, DEFAULT_DEPTH};
use shallowred::board::Chessboard;
use shallowred::search::LMR_TABLE_SIDE;

fn lmr_table() -> Vec<i32> {
    let mut table = vec![0; LMR_TABLE_SIDE * LMR_TABLE_SIDE];
    for depth in 1..LMR_TABLE_SIDE {
        for index in 1..LMR_TABLE_SIDE {
            let value = 0.75 + (depth as f64).ln() * (index as f64).ln() / 2.25;
            table[depth * LMR_TABLE_SIDE + index] = (value as i32).max(1);
        }
    }
    table
}

#[test]
fn toutes_les_fens_de_bench_sont_valides() {
    for fen in BENCH_FENS {
        let board = Chessboard::from_fen(fen).unwrap();
        assert_eq!(board.to_fen(), fen, "aller-retour FEN non exact");
    }
}

#[test]
fn le_bench_sexecute_a_faible_profondeur() {
    for fen in BENCH_FENS {
        assert!(bench_nodes(fen, 2, lmr_table()).unwrap() > 0);
    }
    assert_eq!(DEFAULT_DEPTH, 7);
}

#[test]
fn le_compte_de_noeuds_est_deterministe() {
    for fen in BENCH_FENS {
        assert_eq!(bench_nodes(fen, 3, lmr_table()), bench_nodes(fen, 3, lmr_table()));
    }
}

#[test]
fn une_fen_illisible_est_une_erreur() {
    assert!(bench_nodes("pas une fen", 2, lmr_table()).is_err());
}
