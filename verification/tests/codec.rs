use chessdata::{CastlingRights, Color, Outcome, Piece, Position, Sample};
use rand::seq::IndexedRandom;
use rand::{RngExt, SeedableRng};
use std::str::FromStr;

fn conv_color(c: dama::Color) -> Color {
    match c {
        dama::Color::White => Color::White,
        dama::Color::Black => Color::Black,
    }
}

fn conv_piece(k: dama::Piece) -> Piece {
    match k {
        dama::Piece::Pawn => Piece::Pawn,
        dama::Piece::Knight => Piece::Knight,
        dama::Piece::Bishop => Piece::Bishop,
        dama::Piece::Rook => Piece::Rook,
        dama::Piece::Queen => Piece::Queen,
        dama::Piece::King => Piece::King,
    }
}

fn conv_castling(c: dama::Castling) -> CastlingRights {
    CastlingRights {
        queen_side: c.queen_side.map(|f| f as u8),
        king_side: c.king_side.map(|f| f as u8),
    }
}

fn convert(p: &dama::Position) -> Position {
    let mut board = Vec::new();
    for i in 0..64 {
        let sq = dama::Square::from_index(i);
        board.push(match (p.color_at(sq), p.piece_at(sq)) {
            (Some(c), Some(k)) => Some((conv_color(c), conv_piece(k))),
            _ => None,
        });
    }
    Position {
        board,
        side_to_move: conv_color(p.side_to_move()),
        white_castling: conv_castling(p.castling(dama::Color::White)),
        black_castling: conv_castling(p.castling(dama::Color::Black)),
        en_passant: p.en_passant().map(|s| s as u8),
        halfmove_clock: p.halfmove_clock(),
        fullmove_number: p.fullmove_number(),
    }
}

#[test]
fn pack_roundtrip_initial() {
    let sample = Sample {
        position: convert(&dama::Position::new_initial()),
        outcome: Outcome::Draw,
        eval: None,
    };

    let packed = sample.pack().unwrap();
    let unpacked = packed.unpack().unwrap();
    assert_eq!(sample, unpacked);

    let sample = Sample {
        position: convert(&dama::Position::new_initial()),
        outcome: Outcome::Winner(Color::White),
        eval: Some(-202),
    };

    let packed = sample.pack().unwrap();
    let unpacked = packed.unpack().unwrap();
    assert_eq!(sample, unpacked);
}

fn random_eval(rng: &mut rand_xoshiro::Xoroshiro128Plus) -> Option<i16> {
    match rng.random_range(0..100) {
        0..=10 => None,
        _ => Some(rng.random_range(-5000..=5000)),
    }
}

fn random_outcome(rng: &mut rand_xoshiro::Xoroshiro128Plus) -> Outcome {
    *[
        Outcome::Winner(Color::White),
        Outcome::Winner(Color::Black),
        Outcome::Draw,
    ]
    .choose(rng)
    .unwrap()
}

fn check_roundtrip(rng: &mut rand_xoshiro::Xoroshiro128Plus, position: &dama::Position) {
    let sample = Sample {
        position: convert(position),
        outcome: random_outcome(rng),
        eval: random_eval(rng),
    };
    let packed = sample.pack().unwrap();
    let unpacked = packed.unpack().unwrap();
    assert_eq!(sample, unpacked);
}

#[test]
fn pack_roundtrip_random_moves() {
    let mut rng = rand_xoshiro::Xoroshiro128Plus::seed_from_u64(0x278B3E360F7ACC92);
    for _ in 0..1000 {
        let mut position = dama::Position::new_initial();
        check_roundtrip(&mut rng, &position);

        for _ in 0..100 {
            let moves = position.legal_moves();
            if moves.is_empty() {
                break;
            }
            position.play_unchecked(&moves.choose(&mut rng).unwrap());
            check_roundtrip(&mut rng, &position);
        }
    }
}

#[test]
fn pack_roundtrip_game() {
    let moves = [
        "Nf3", "d5", "g3", "c5", "Bg2", "Nc6", "d4", "e6", "O-O", "cxd4", "Nxd4", "Nge7", "c4",
        "Nxd4", "Qxd4", "Nc6", "Qd1", "d4", "e3", "Bc5", "exd4", "Bxd4", "Nc3", "O-O", "Nb5",
        "Bb6", "b3", "a6", "Nc3", "Bd4", "Bb2", "e5", "Qd2", "Be6", "Nd5", "b5", "cxb5", "axb5",
        "Nf4", "exf4", "Bxc6", "Bxb2", "Qxb2", "Rb8", "Rfd1", "Qb6", "Bf3", "fxg3", "hxg3", "b4",
        "a4", "bxa3", "Rxa3", "g6", "Qd4", "Qb5", "b4", "Qxb4", "Qxb4", "Rxb4", "Ra8", "Rxa8",
        "Bxa8", "g5", "Bd5", "Bf5", "Rc1", "Kg7", "Rc7", "Bg6", "Rc4", "Rb1+", "Kg2", "Re1", "Rb4",
        "h5", "Ra4", "Re5", "Bf3", "Kh6", "Kg1", "Re6", "Rc4", "g4", "Bd5", "Rd6", "Bb7", "Kg5",
        "f3", "f5", "fxg4", "hxg4", "Rb4", "Bf7", "Kf2", "Rd2+", "Kg1", "Kf6", "Rb6+", "Kg5",
        "Rb4", "Be6", "Ra4", "Rb2", "Ba8", "Kf6", "Rf4", "Ke5", "Rf2", "Rxf2", "Kxf2", "Bd5",
        "Bxd5", "Kxd5", "Ke3", "Ke5",
    ];

    let mut position = dama::Position::new_initial();

    let sample = Sample {
        position: convert(&position),
        outcome: Outcome::Draw,
        eval: None,
    };
    let packed = sample.pack().unwrap();
    let unpacked = packed.unpack().unwrap();
    assert_eq!(sample, unpacked);

    for mv in moves.map(dama::SanMove::from_str).map(Result::unwrap) {
        position.play(&mv).unwrap();
        let sample = Sample {
            position: convert(&position),
            outcome: Outcome::Draw,
            eval: None,
        };
        let packed = sample.pack().unwrap();
        let unpacked = packed.unpack().unwrap();
        assert_eq!(
            sample,
            unpacked,
            "failed in move {}",
            position.fullmove_number()
        );
    }
}

#[test]
fn castling_disambiguation() {
    let position =
        dama::Position::from_fen("r3k2r/8/8/8/8/8/8/R3K2R w KQkq - 0 1").unwrap();
    let sample = Sample {
        position: convert(&position),
        outcome: Outcome::Draw,
        eval: Some(17),
    };
    assert_eq!(
        sample.position.white_castling,
        CastlingRights { queen_side: Some(0), king_side: Some(7) }
    );
    assert_eq!(
        sample.position.black_castling,
        CastlingRights { queen_side: Some(0), king_side: Some(7) }
    );

    let unpacked = sample.pack().unwrap().unpack().unwrap();
    assert_eq!(sample, unpacked);
    assert_eq!(
        unpacked.position.white_castling,
        CastlingRights { queen_side: Some(0), king_side: Some(7) }
    );
    assert_eq!(
        unpacked.position.black_castling,
        CastlingRights { queen_side: Some(0), king_side: Some(7) }
    );
}

#[test]
fn en_passant_roundtrip() {
    let mut position = dama::Position::new_initial();
    for mv in ["e4", "c5", "e5", "d5"] {
        position.play(&dama::SanMove::from_str(mv).unwrap()).unwrap();
    }
    let sample = Sample {
        position: convert(&position),
        outcome: Outcome::Winner(Color::Black),
        eval: None,
    };
    assert!(sample.position.en_passant.is_some());
    let unpacked = sample.pack().unwrap().unpack().unwrap();
    assert_eq!(sample, unpacked);
}
