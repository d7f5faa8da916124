use std::sync::atomic::AtomicBool;
use std::sync::Arc;

use shallowred::board::Chessboard;
use shallowred::datagen::{
    encode_move, play_indexed_game, DrawKind, EncodedMove, GameRecord, MoveKind, Outcome, WinKind,
};
use shallowred::nnue::feature;
use shallowred::search::{next_random, Search, LMR_TABLE_SIDE};
use shallowred::types::{Color, Piece};
use viriformat::chess::board::{Board as VfBoard, DrawType, GameOutcome, WinType};
use viriformat::chess::chessmove::{Move as VfMove, MoveFlags};
use viriformat::chess::piece::PieceType;
use viriformat::chess::types::Square as VfSquare;
use viriformat::dataformat::{Filter, Game};

fn lmr_table() -> Vec<i32> {
    let mut table = vec![0; LMR_TABLE_SIDE * LMR_TABLE_SIDE];
    for depth in 1..LMR_TABLE_SIDE {
        for index in 1..LMR_TABLE_SIDE {
            let value = 0.75 + (depth as f64).ln() * (index as f64).ln() / 2.25;
            table[depth * LMR_TABLE_SIDE + index] = (value as i32).max(1);
        }
    }
    table
}

fn search() -> Search {
    Search::new(Arc::new(AtomicBool::new(false)), lmr_table())
}

fn vf_board(fen: &str) -> VfBoard {
    let mut board = VfBoard::new();
    board.set_from_fen(fen).unwrap();
    board
}

fn vf_move(mv: EncodedMove) -> VfMove {
    let from = VfSquare::new(mv.from).unwrap();
    let to = VfSquare::new(mv.to).unwrap();
    match mv.kind {
        MoveKind::Normal => VfMove::new(from, to),
        MoveKind::Castle => VfMove::new_with_flags(from, to, MoveFlags::Castle),
        MoveKind::EnPassant => VfMove::new_with_flags(from, to, MoveFlags::EnPassant),
        MoveKind::Promotion(piece) => {
            let kind = match piece {
                Piece::Knight => PieceType::Knight,
                Piece::Bishop => PieceType::Bishop,
                Piece::Rook => PieceType::Rook,
                _ => PieceType::Queen,
            };
            VfMove::new_with_promo(from, to, kind)
        }
    }
}

fn vf_win(kind: WinKind) -> WinType {
    match kind {
        WinKind::Mate => WinType::Mate,
        WinKind::Adjudication => WinType::Adjudication,
    }
}

fn vf_outcome(outcome: Outcome) -> GameOutcome {
    match outcome {
        Outcome::WhiteWin(kind) => GameOutcome::WhiteWin(vf_win(kind)),
        Outcome::BlackWin(kind) => GameOutcome::BlackWin(vf_win(kind)),
        Outcome::Draw(kind) => GameOutcome::Draw(match kind {
            DrawKind::Stalemate => DrawType::Stalemate,
            DrawKind::Repetition => DrawType::Repetition,
            DrawKind::FiftyMoves => DrawType::FiftyMoves,
            DrawKind::InsufficientMaterial => DrawType::InsufficientMaterial,
            DrawKind::Adjudication => DrawType::Adjudication,
        }),
    }
}

fn to_game(record: &GameRecord) -> Game {
    let mut game = Game::new(&vf_board(&record.start));
    for (mv, eval) in &record.moves {
        game.add_move(vf_move(*mv), *eval);
    }
    game.set_outcome(vf_outcome(record.outcome.unwrap()));
    game
}

fn placement(fen: String) -> String {
    fen.split(' ').take(2).collect::<Vec<_>>().join(" ")
}

#[test]
fn trente_parties_au_hasard_passent_l_oracle_viriformat() {
    let (mut castles, mut en_passant, mut promotions, mut under) = (0, 0, 0, 0);
    let mut state = 0x5EED_u64 | 1;
    for _ in 0..30 {
        let mut ours = Chessboard::startpos();
        let mut theirs = vf_board(&ours.to_fen());
        for _ in 0..300 {
            let moves = ours.legal_moves();
            if moves.is_empty() || ours.halfmove_clock() >= 100 {
                break;
            }
            let mv = moves[(next_random(&mut state) % moves.len() as u64) as usize];
            let encoded = vf_move(encode_move(&ours, mv).unwrap());
            assert!(
                theirs.legal_moves().contains(&encoded),
                "{} illégal pour viriformat dans {}",
                ours.uci_text(mv),
                ours.to_fen()
            );
            castles += usize::from(encoded.is_castle());
            en_passant += usize::from(encoded.is_ep());
            promotions += usize::from(encoded.is_promo());
            under += usize::from(mv.promotion.is_some_and(|piece| piece != Piece::Queen));
            ours = ours.play(mv);
            assert!(theirs.make_move_simple(encoded));
            assert_eq!(placement(theirs.to_string()), placement(ours.to_fen()));
        }
    }
    assert!(
        castles > 0 && en_passant > 0 && promotions > 0 && under > 0,
        "roques {castles}, en passant {en_passant}, promotions {promotions}, sous-promotions {under}"
    );
}

#[test]
fn les_entrees_du_moteur_sont_celles_de_l_entraineur() {
    let (mut checked, mut black) = (0, 0);
    let mut state = 0x00B0_11E7_u64 | 1;
    for _ in 0..40 {
        let mut ours = Chessboard::startpos();
        for _ in 0..120 {
            let moves = ours.legal_moves();
            if moves.is_empty() || ours.halfmove_clock() >= 100 {
                break;
            }
            let theirs = vf_board(&ours.to_fen());
            let mut trainer: Vec<(usize, usize)> = theirs
                .to_bulletformat(1, 0)
                .unwrap()
                .into_iter()
                .map(|(piece, square)| {
                    let c = usize::from(piece & 8 > 0);
                    let pc = 64 * usize::from(piece & 7);
                    let sq = usize::from(square);
                    ([0, 384][c] + pc + sq, [384, 0][c] + pc + (sq ^ 56))
                })
                .collect();
            trainer.sort_unstable();

            let us = ours.side_to_move();
            let them = us.other();
            let mut engine = Vec::new();
            for color in [Color::White, Color::Black] {
                for piece in [Piece::Pawn, Piece::Knight, Piece::Bishop, Piece::Rook, Piece::Queen, Piece::King] {
                    for square in 0..64u8 {
                        if ours.piece_on(square) == Some(piece) && ours.color_on(square) == Some(color) {
                            engine.push((feature(us, color, piece, square), feature(them, color, piece, square)));
                        }
                    }
                }
            }
            engine.sort_unstable();
            assert_eq!(engine, trainer, "sur {}", ours.to_fen());
            checked += 1;
            black += usize::from(us == Color::Black);

            let mv = moves[(next_random(&mut state) % moves.len() as u64) as usize];
            ours = ours.play(mv);
        }
    }
    assert!(checked >= 2_000 && black >= 1_000, "positions {checked}, dont {black} aux Noirs");
}

#[test]
fn une_partie_ecrite_se_relit_par_viriformat() {
    let mut search = search();
    let mut written = 0;
    for index in 0..6 {
        let Some(record) = play_indexed_game(7, index, 500, &mut search).unwrap() else {
            continue;
        };
        let game = to_game(&record);
        let mut bytes = Vec::new();
        game.serialise_into(&mut bytes).unwrap();
        let read = Game::deserialise_from(&mut bytes.as_slice(), Vec::new()).unwrap();
        assert_eq!(read, game);
        let mut positions = 0;
        read.splat_to_bulletformat(
            |_| {
                positions += 1;
                Ok(())
            },
            &Filter::UNRESTRICTED,
        )
        .unwrap();
        assert_eq!(positions, game.len());
        written += 1;
    }
    assert!(written > 0, "aucune partie retenue sur six");
}
