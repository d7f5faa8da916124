use shallowred::board::Chessboard;
use shallowred::perft::{divide, perft, perft_checked};

struct Reference {
    name: &'static str,
    fen: &'static str,
    nodes: &'static [u64],
}

const REFERENCES: [Reference; 6] = [
    Reference {
        name: "initiale",
        fen: "rnbqkbnr/pppppppp/8/8/8/8/PPPPPPPP/RNBQKBNR w KQkq - 0 1",
        nodes: &[20, 400, 8_902, 197_281, 4_865_609, 119_060_324],
    },
    Reference {
        name: "kiwipete",
        fen: "r3k2r/p1ppqpb1/bn2pnp1/3PN3/1p2P3/2N2Q1p/PPPBBPPP/R3K2R w KQkq - 0 1",
        nodes: &[48, 2_039, 97_862, 4_085_603, 193_690_690],
    },
    Reference {
        name: "position3",
        fen: "8/2p5/3p4/KP5r/1R3p1k/8/4P1P1/8 w - - 0 1",
        nodes: &[14, 191, 2_812, 43_238, 674_624, 11_030_083],
    },
    Reference {
        name: "position4",
        fen: "r3k2r/Pppp1ppp/1b3nbN/nP6/BBP1P3/q4N2/Pp1P2PP/R2Q1RK1 w kq - 0 1",
        nodes: &[6, 264, 9_467, 422_333, 15_833_292],
    },
    Reference {
        name: "position5",
        fen: "rnbq1k1r/pp1Pbppp/2p5/8/2B5/8/PPP1NnPP/RNBQK2R w KQ - 1 8",
        nodes: &[44, 1_486, 62_379, 2_103_487, 89_941_194],
    },
    Reference {
        name: "position6",
        fen: "r4rk1/1pp1qppp/p1np1n2/2b1p1B1/2B1P1b1/P1NP1N2/1PP1QPPP/R4RK1 w - - 0 10",
        nodes: &[46, 2_079, 89_890, 3_894_594, 164_075_551],
    },
];

#[test]
fn aller_retour_fen_exact_sur_les_six_positions() {
    for reference in &REFERENCES {
        let board = Chessboard::from_fen(reference.fen).unwrap();
        assert_eq!(board.to_fen(), reference.fen, "{}", reference.name);
    }
}

#[test]
fn perft_de_reference_faible_profondeur() {
    for reference in &REFERENCES {
        let board = Chessboard::from_fen(reference.fen).unwrap();
        for (index, &expected) in reference.nodes.iter().take(3).enumerate() {
            let depth = index as u32 + 1;
            assert_eq!(perft(&board, depth), expected, "{} à la profondeur {depth}", reference.name);
        }
    }
}

#[test]
fn perft_zero_compte_la_position_elle_meme() {
    assert_eq!(perft(&Chessboard::startpos(), 0), 1);
}

#[test]
fn divide_somme_au_total() {
    let board = Chessboard::startpos();
    let total: u64 = divide(&board, 3).iter().map(|(_, n)| n).sum();
    assert_eq!(total, perft(&board, 3));
    assert_eq!(total, 8_902);
}

#[test]
fn divide_produit_un_coup_par_coup_legal() {
    let board = Chessboard::from_fen("8/2p5/3p4/KP5r/1R3p1k/8/4P1P1/8 w - - 0 1").unwrap();
    let entries = divide(&board, 1);
    assert_eq!(entries.len(), 14);
    assert!(entries.iter().all(|(mv, n)| board.is_legal(*mv) && *n == 1));
}

#[test]
fn le_compte_verifie_rend_le_meme_nombre() {
    assert_eq!(perft_checked(&Chessboard::startpos(), 2), Some(400));
}
