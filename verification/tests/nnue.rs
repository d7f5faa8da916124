use shallowred::board::Chessboard;
use shallowred::eval::MATE_THRESHOLD;
use shallowred::nnue::{
    changes, feature, Change, Network, BIAS_AT, FILE_BYTES, HIDDEN, INPUTS, OUTPUT_AT,
    OUTPUT_BIAS_AT, VALUES,
};
use shallowred::types::{Color, Piece};

/// A seeded xorshift64, so that the tests are deterministic.
struct Rng(u64);

impl Rng {
    fn next(&mut self) -> u64 {
        let mut x = self.0;
        x ^= x << 13;
        x ^= x >> 7;
        x ^= x << 17;
        self.0 = x;
        x
    }

    /// Uniform in `[-bound, bound]`.
    fn spread(&mut self, bound: i16) -> i16 {
        let span = 2 * u64::try_from(bound).unwrap() + 1;
        i16::try_from(i64::try_from(self.next() % span).unwrap() - i64::from(bound)).unwrap()
    }
}

/// The bytes of a network file as the trainer writes it.
fn file_of(values: &[i16]) -> Vec<u8> {
    assert_eq!(values.len(), VALUES);
    let mut bytes: Vec<u8> = values.iter().flat_map(|v| v.to_le_bytes()).collect();
    let pattern = b"bullet";
    let mut index = 0;
    while bytes.len() % 64 != 0 {
        bytes.push(pattern[index % pattern.len()]);
        index += 1;
    }
    bytes
}

fn random_values(seed: u64, hidden: i16, output: i16) -> Vec<i16> {
    let mut rng = Rng(seed | 1);
    let mut values = Vec::with_capacity(VALUES);
    values.extend((0..INPUTS * HIDDEN + HIDDEN).map(|_| rng.spread(hidden)));
    values.extend((0..2 * HIDDEN).map(|_| rng.spread(output)));
    values.push(rng.spread(5_000));
    values
}

fn random_network(seed: u64) -> Network {
    Network::from_bytes(&file_of(&random_values(seed, 300, 127))).unwrap()
}

fn network_with(edit: impl FnOnce(&mut Vec<i16>)) -> Network {
    let mut values = vec![0; VALUES];
    edit(&mut values);
    Network::from_bytes(&file_of(&values)).unwrap()
}

fn board(fen: &str) -> Chessboard {
    Chessboard::from_fen(fen).unwrap()
}

const FENS: &[&str] = &[
    "rnbqkbnr/pppppppp/8/8/8/8/PPPPPPPP/RNBQKBNR w KQkq - 0 1",
    "r3k2r/p1ppqpb1/bn2pnp1/3PN3/1p2P3/2N2Q1p/PPPBBPPP/R3K2R w KQkq - 0 1",
    "r3k2r/p1ppqpb1/bn2pnp1/3PN3/1p2P3/2N2Q1p/PPPBBPPP/R3K2R b KQkq - 0 1",
    "8/2p5/3p4/KP5r/1R3p1k/8/4P1P1/8 w - - 0 1",
    "r3k2r/Pppp1ppp/1b3nbN/nP6/BBP1P3/q4N2/Pp1P2PP/R2Q1RK1 w kq - 0 1",
    "rnbq1k1r/pp1Pbppp/2p5/8/2B5/8/PPP1NnPP/RNBQK2R w KQ - 1 8",
    "n1n5/PPPk4/8/8/8/8/4Kppp/5N1N b - - 0 1",
    "8/2P1P3/3K4/8/8/3k4/3p1p2/8 w - - 0 1",
    "r3k2r/pP4P1/8/8/8/8/1p4p1/R3K2R w KQkq - 0 1",
    "rnbqkbnr/ppp1p1pp/8/3pPp2/8/8/PPPP1PPP/RNBQKBNR w KQkq f6 0 3",
    "rnbqkbnr/pppp1ppp/8/8/3Pp3/8/PPP1PPPP/RNBQKBNR b KQkq d3 0 2",
    "rnbqkbnr/pp1ppppp/8/2pP4/8/8/PPP1PPPP/RNBQKBNR w KQkq c6 0 2",
    "rnbqkbnr/ppp1pppp/8/8/3pP3/8/PPPP1PPP/RNBQKBNR b KQkq e3 0 2",
];

/// The positions of `FENS`, then those of a seeded walk from each.
fn positions() -> Vec<Chessboard> {
    let mut rng = Rng(0x9e37_79b9_7f4a_7c15);
    let mut out = Vec::new();
    for fen in FENS {
        let mut current = board(fen);
        out.push(current.duplicate());
        for _ in 0..26 {
            let moves = current.legal_moves();
            if moves.is_empty() {
                break;
            }
            let index = usize::try_from(rng.next() % moves.len() as u64).unwrap();
            current = current.play(moves[index]);
            out.push(current.duplicate());
        }
    }
    out
}

const COLORS: [Color; 2] = [Color::White, Color::Black];
const PIECES: [Piece; 6] =
    [Piece::Pawn, Piece::Knight, Piece::Bishop, Piece::Rook, Piece::Queen, Piece::King];

fn squares(set: u64) -> Vec<u8> {
    (0..64u8).filter(|s| set >> s & 1 == 1).collect()
}

fn other(c: Color) -> Color {
    match c {
        Color::White => Color::Black,
        Color::Black => Color::White,
    }
}

#[test]
fn le_fichier_a_la_taille_que_bullet_ecrit() {
    assert_eq!(FILE_BYTES, 197_440);
    assert!(Network::from_bytes(&file_of(&random_values(7, 300, 127))).is_ok());
}

#[test]
fn un_fichier_d_une_autre_taille_est_refuse() {
    let bytes = file_of(&random_values(7, 300, 127));
    assert!(Network::from_bytes(&bytes[..FILE_BYTES - 64]).is_err());
    assert!(Network::from_bytes(&bytes[..FILE_BYTES - 2]).is_err());
    let mut longer = bytes.clone();
    longer.extend_from_slice(&[0; 64]);
    assert!(Network::from_bytes(&longer).is_err());
    assert!(Network::from_bytes(&[]).is_err());
}

#[test]
fn un_accumulateur_qui_pourrait_deborder_est_refuse() {
    let limit = |bias: i16| {
        let mut values = vec![0; VALUES];
        values[BIAS_AT + 5] = bias;
        for input in 0..32 {
            values[input * 7 * HIDDEN + 5] = if input % 2 == 0 { 1_000 } else { -1_000 };
        }
        Network::from_bytes(&file_of(&values))
    };
    assert!(limit(767).is_ok(), "32 767 tient dans un i16");
    assert!(limit(-767).is_ok(), "le signe du biais ne compte pas");
    assert!(limit(768).is_err(), "32 768 n'y tient pas");
    assert!(limit(-768).is_err());
    let mut values = vec![0; VALUES];
    for input in 0..33 {
        values[input * HIDDEN] = 1_000;
    }
    values[BIAS_AT] = 767;
    assert!(Network::from_bytes(&file_of(&values)).is_ok());
}

#[test]
fn un_produit_scalaire_qui_pourrait_deborder_est_refuse() {
    let total = |extra: i16| {
        let mut values = vec![0; VALUES];
        for index in 0..2 * HIDDEN {
            values[OUTPUT_AT + index] = if index % 3 == 0 { -129 } else { 129 };
        }
        values[OUTPUT_AT] -= extra;
        Network::from_bytes(&file_of(&values))
    };
    assert!(total(1).is_ok(), "33 025 est admis");
    assert!(total(2).is_err(), "33 026 ne l'est pas");
}

#[test]
fn le_pire_reseau_admis_ne_deborde_pas_et_reste_hors_des_mats() {
    for sign in [1, -1] {
        let network = network_with(|values| {
            for unit in 0..HIDDEN {
                values[BIAS_AT + unit] = 1_000;
            }
            for index in 0..2 * HIDDEN {
                values[OUTPUT_AT + index] = sign * 129;
            }
            values[OUTPUT_BIAS_AT] = sign * i16::MAX;
        });
        let accumulators = network.refresh(&board(FENS[0]));
        let expected = i32::from(sign) * (MATE_THRESHOLD - 1);
        assert_eq!(network.evaluate(&accumulators, Color::White), expected);
        assert_eq!(network.evaluate(&accumulators, Color::Black), expected);
    }
}

#[test]
fn un_calcul_a_la_main_retombe_sur_les_troncatures_de_bullet() {
    let biais = network_with(|values| values[OUTPUT_BIAS_AT] = 16_320);
    let start = board(FENS[0]);
    assert_eq!(biais.evaluate(&biais.refresh(&start), Color::White), 400);
    for (weight, expected) in [(64, 400), (1, 6), (-1, -6)] {
        let network = network_with(|values| {
            values[324 * HIDDEN] = 255;
            values[OUTPUT_AT] = weight;
        });
        let accumulators = network.refresh(&start);
        assert_eq!(network.evaluate(&accumulators, Color::White), expected);
        let black = board("rnbqkbnr/pppppppp/8/8/8/8/PPPPPPPP/RNBQKBNR b KQkq - 0 1");
        assert_eq!(network.evaluate(&network.refresh(&black), Color::Black), expected);
    }
    let sature = network_with(|values| {
        values[324 * HIDDEN] = 300;
        values[OUTPUT_AT] = 64;
    });
    assert_eq!(sature.evaluate(&sature.refresh(&start), Color::White), 400);
    let negatif = network_with(|values| {
        values[324 * HIDDEN] = -300;
        values[OUTPUT_AT] = 64;
    });
    assert_eq!(negatif.evaluate(&negatif.refresh(&start), Color::White), 0);
}

#[test]
fn les_indices_suivent_la_convention_de_bullet() {
    // e1 is 4, e8 is 60, a2 is 8, d8 is 59.
    assert_eq!(feature(Color::White, Color::White, Piece::King, 4), 324);
    assert_eq!(feature(Color::Black, Color::White, Piece::King, 4), 764);
    assert_eq!(feature(Color::Black, Color::Black, Piece::King, 60), 324);
    assert_eq!(feature(Color::White, Color::Black, Piece::King, 60), 764);
    assert_eq!(feature(Color::White, Color::White, Piece::Pawn, 8), 8);
    assert_eq!(feature(Color::Black, Color::White, Piece::Pawn, 8), 432);
    assert_eq!(feature(Color::White, Color::Black, Piece::Queen, 59), 699);
    assert_eq!(feature(Color::Black, Color::Black, Piece::Queen, 59), 259);
}

/// What the trainer computes, step by step: the board turned over when
/// Black is to move, then both indices of its 768 inputs.
fn bullet_features(board: &Chessboard) -> Vec<(usize, usize)> {
    let us = board.side_to_move();
    let black = us == Color::Black;
    let mut out = Vec::new();
    for color in COLORS {
        for (kind, piece) in PIECES.iter().enumerate() {
            for square in squares(board.colored_pieces(color, *piece)) {
                let sq = if black { square as usize ^ 56 } else { square as usize };
                let c = usize::from(color != us);
                let pc = 64 * kind;
                out.push(([0, 384][c] + pc + sq, [384, 0][c] + pc + (sq ^ 56)));
            }
        }
    }
    out.sort_unstable();
    out
}

#[test]
fn les_indices_sont_ceux_du_pipeline_de_bullet() {
    for position in positions() {
        let us = position.side_to_move();
        let mut ours = Vec::new();
        for color in COLORS {
            for piece in PIECES {
                for square in squares(position.colored_pieces(color, piece)) {
                    ours.push((feature(us, color, piece, square), feature(other(us), color, piece, square)));
                }
            }
        }
        ours.sort_unstable();
        assert_eq!(ours, bullet_features(&position), "sur {}", position.to_fen());
    }
}

fn key(added: bool, piece: Piece, color: Color, square: u8) -> (bool, usize, usize, u8) {
    (added, piece.index(), color.index(), square)
}

/// What the move really does to the board, read square by square.
fn true_changes(before: &Chessboard, after: &Chessboard) -> Vec<(bool, usize, usize, u8)> {
    let mut out = Vec::new();
    for square in 0..64u8 {
        let b = before.piece_on(square).zip(before.color_on(square));
        let a = after.piece_on(square).zip(after.color_on(square));
        if a == b {
            continue;
        }
        if let Some((piece, color)) = b {
            out.push(key(false, piece, color, square));
        }
        if let Some((piece, color)) = a {
            out.push(key(true, piece, color, square));
        }
    }
    out.sort_unstable();
    out
}

#[test]
fn les_changements_d_un_coup_sont_ceux_de_l_echiquier() {
    let (mut castles, mut en_passant, mut promotions, mut checked) = (0, 0, 0, 0);
    for position in positions() {
        for mv in position.legal_moves() {
            let mut buffer = [Change::blank(); 4];
            let count = changes(&position, mv, &mut buffer);
            let mut derived: Vec<_> =
                buffer[..count].iter().map(|c| key(c.added, c.piece, c.color, c.square)).collect();
            derived.sort_unstable();
            let after = position.play(mv);
            assert_eq!(derived, true_changes(&position, &after), "sur {}", position.to_fen());
            let moving = position.piece_on(mv.from).unwrap();
            let ours = position.colors(position.side_to_move());
            castles += usize::from(moving == Piece::King && ours >> mv.to & 1 == 1);
            en_passant += usize::from(
                moving == Piece::Pawn && mv.from % 8 != mv.to % 8 && position.piece_on(mv.to).is_none(),
            );
            promotions += usize::from(mv.promotion.is_some());
            checked += 1;
        }
    }
    assert!(castles >= 4, "roques couverts : {castles}");
    assert!(en_passant >= 4, "prises en passant couvertes : {en_passant}");
    assert!(promotions >= 20, "promotions couvertes : {promotions}");
    assert!(checked >= 5_000, "coups vérifiés : {checked}");
}

#[test]
fn l_increment_egale_le_recalcul() {
    let network = random_network(11);
    let mut checked = 0;
    for (index, position) in positions().into_iter().enumerate() {
        if index % 3 != 0 {
            continue;
        }
        let before = network.refresh(&position);
        for mv in position.legal_moves() {
            let mut after = before;
            network.apply_move(&before, &mut after, &position, mv);
            let child = position.play(mv);
            assert_eq!(after, network.refresh(&child), "sur {}", position.to_fen());
            checked += 1;
        }
    }
    assert!(checked >= 1_000, "coups vérifiés : {checked}");
}

/// The reference computation: the file's bytes read back without the
/// network, the trainer's inputs, everything in `i64`, then the trainer's
/// inference steps. The output BEFORE the clamp.
fn reference(bytes: &[u8], board: &Chessboard) -> i64 {
    let value = |index: usize| i64::from(i16::from_le_bytes([bytes[2 * index], bytes[2 * index + 1]]));
    let features = bullet_features(board);
    let activate = |x: i64| x.clamp(0, 255) * x.clamp(0, 255);
    let mut sum = 0i64;
    for unit in 0..HIDDEN {
        let mut stm = value(BIAS_AT + unit);
        let mut ntm = value(BIAS_AT + unit);
        for &(us, them) in &features {
            stm += value(us * HIDDEN + unit);
            ntm += value(them * HIDDEN + unit);
        }
        sum += activate(stm) * value(OUTPUT_AT + unit);
        sum += activate(ntm) * value(OUTPUT_AT + HIDDEN + unit);
    }
    (sum / 255 + value(OUTPUT_BIAS_AT)) * 400 / (255 * 64)
}

#[test]
fn la_sortie_est_celle_du_calcul_de_reference() {
    for (seed, hidden, output) in [(3, 300, 127), (5, 40, 20)] {
        let bytes = file_of(&random_values(seed, hidden, output));
        let network = Network::from_bytes(&bytes).unwrap();
        let bound = i64::from(MATE_THRESHOLD - 1);
        let mut inside = 0;
        for position in positions() {
            let expected = reference(&bytes, &position);
            inside += usize::from(expected.abs() < bound);
            let got = network.evaluate(&network.refresh(&position), position.side_to_move());
            assert_eq!(i64::from(got), expected.clamp(-bound, bound), "sur {}", position.to_fen());
        }
        assert!(inside > 0, "le réseau {seed} ne rend que des bornes");
    }
}

/// The same position, colors exchanged and board turned over.
fn mirror(position: &Chessboard) -> Chessboard {
    let text = position.to_fen();
    let fields: Vec<&str> = text.split(' ').collect();
    let placement: Vec<String> = fields[0]
        .split('/')
        .rev()
        .map(|rank| {
            rank.chars()
                .map(|c| if c.is_ascii_uppercase() { c.to_ascii_lowercase() } else { c.to_ascii_uppercase() })
                .collect()
        })
        .collect();
    let side = if fields[1] == "w" { "b" } else { "w" };
    let castling: String = if fields[2] == "-" {
        "-".to_owned()
    } else {
        ['K', 'Q', 'k', 'q']
            .into_iter()
            .filter(|&right| {
                let swapped =
                    if right.is_ascii_uppercase() { right.to_ascii_lowercase() } else { right.to_ascii_uppercase() };
                fields[2].contains(swapped)
            })
            .collect()
    };
    let en_passant = if fields[3] == "-" {
        "-".to_owned()
    } else {
        let (file, rank) = fields[3].split_at(1);
        format!("{file}{}", if rank == "3" { "6" } else { "3" })
    };
    board(&format!("{} {side} {castling} {en_passant} {} {}", placement.join("/"), fields[4], fields[5]))
}

#[test]
fn une_position_et_son_miroir_s_evaluent_pareil() {
    let network = random_network(13);
    for position in positions() {
        let mirrored = mirror(&position);
        assert_eq!(
            network.evaluate(&network.refresh(&position), position.side_to_move()),
            network.evaluate(&network.refresh(&mirrored), mirrored.side_to_move()),
            "{} contre {}",
            position.to_fen(),
            mirrored.to_fen()
        );
    }
}

