use chessdata::{CastlingRights, Color, Outcome, PackError, Piece, Position, Sample, UnpackError};

fn empty_rights() -> CastlingRights {
    CastlingRights { queen_side: None, king_side: None }
}

fn kings_position() -> Position {
    let mut board = vec![None; 64];
    board[4] = Some((Color::White, Piece::King));
    board[60] = Some((Color::Black, Piece::King));
    Position {
        board,
        side_to_move: Color::White,
        white_castling: empty_rights(),
        black_castling: empty_rights(),
        en_passant: None,
        halfmove_clock: 3,
        fullmove_number: 7,
    }
}

fn kings_sample(eval: Option<i16>) -> Sample {
    Sample { position: kings_position(), outcome: Outcome::Draw, eval }
}

#[test]
fn record_is_32_bytes() {
    let bytes = kings_sample(Some(11)).pack().unwrap().to_bytes();
    assert_eq!(bytes.len(), 32);
}

#[test]
fn bytes_roundtrip() {
    let packed = kings_sample(Some(-202)).pack().unwrap();
    let bytes = packed.to_bytes();
    let reread = chessdata::PackedSample::from_bytes(&bytes, 0);
    assert_eq!(packed, reread);
    assert_eq!(bytes, reread.to_bytes());
    let unpacked = reread.unpack().unwrap();
    assert_eq!(unpacked, kings_sample(Some(-202)));
}

#[test]
fn field_layout_is_little_endian() {
    let packed = kings_sample(Some(-202)).pack().unwrap();
    let bytes = packed.to_bytes();
    // Occupancy: e1 is bit 4 of the first byte, e8 bit 4 of the last.
    assert_eq!(bytes[16], 0b0001_0000);
    assert_eq!(bytes[23], 0b0001_0000);
    // Evaluation, two's complement little endian.
    let eval_bits = (-202i16) as u16;
    assert_eq!(bytes[24], (eval_bits % 256) as u8);
    assert_eq!(bytes[25], (eval_bits / 256) as u8);
    // Fullmove number, little endian; then the four single-byte fields.
    assert_eq!(bytes[26], 7);
    assert_eq!(bytes[27], 0);
    assert_eq!(bytes[28], 3);
    assert_eq!(bytes[29], 0);
    assert_eq!(bytes[30], 0);
    assert_eq!(bytes[31], 0b11);
}

#[test]
fn capacity_boundary() {
    // 32 occupied squares pack fine; a 33rd makes packing fail.
    let mut board = vec![None; 64];
    board[4] = Some((Color::White, Piece::King));
    board[60] = Some((Color::Black, Piece::King));
    for i in 0..30 {
        board[8 + i] = Some((Color::White, Piece::Pawn));
    }
    let mut position = kings_position();
    position.board = board.clone();
    let sample = Sample { position, outcome: Outcome::Draw, eval: None };
    assert!(sample.pack().is_ok());

    board[40] = Some((Color::Black, Piece::Pawn));
    let mut position = kings_position();
    position.board = board;
    let sample = Sample { position, outcome: Outcome::Draw, eval: None };
    assert_eq!(sample.pack(), Err(PackError::TooManyPieces));
}

fn valid_bytes() -> Vec<u8> {
    kings_sample(Some(5)).pack().unwrap().to_bytes()
}

#[test]
fn unpack_rejects_invalid_outcome() {
    let mut bytes = valid_bytes();
    bytes[31] = 0;
    let r = chessdata::PackedSample::from_bytes(&bytes, 0).unpack();
    assert_eq!(r, Err(UnpackError::InvalidOutcome));
}

#[test]
fn unpack_rejects_invalid_side_to_move() {
    let mut bytes = valid_bytes();
    bytes[30] = 2;
    let r = chessdata::PackedSample::from_bytes(&bytes, 0).unpack();
    assert_eq!(r, Err(UnpackError::InvalidSideToMove));
}

#[test]
fn unpack_rejects_invalid_en_passant() {
    let mut bytes = valid_bytes();
    bytes[29] = 64;
    let r = chessdata::PackedSample::from_bytes(&bytes, 0).unpack();
    assert_eq!(r, Err(UnpackError::InvalidEnPassant));
}

#[test]
fn unpack_rejects_too_many_pieces() {
    let mut bytes = valid_bytes();
    for i in 16..24 {
        bytes[i] = 0xff;
    }
    let r = chessdata::PackedSample::from_bytes(&bytes, 0).unpack();
    assert_eq!(r, Err(UnpackError::TooManyPieces));
}

#[test]
fn unpack_rejects_empty_piece_slot() {
    let mut bytes = vec![0u8; 32];
    bytes[16] = 1;
    bytes[31] = 0b11;
    let r = chessdata::PackedSample::from_bytes(&bytes, 0).unpack();
    assert_eq!(r, Err(UnpackError::InvalidPiece));
}

#[test]
fn unpack_rejects_illegal_position() {
    // Two white kings on a1 and b1: the rules engine must refuse it.
    let mut bytes = vec![0u8; 32];
    bytes[16] = 0b11;
    bytes[0] = 0xee;
    bytes[31] = 0b11;
    let r = chessdata::PackedSample::from_bytes(&bytes, 0).unpack();
    assert!(matches!(r, Err(UnpackError::InvalidPosition(_))));
}

#[test]
fn unpack_accepts_legal_record() {
    let bytes = valid_bytes();
    let r = chessdata::PackedSample::from_bytes(&bytes, 0).unpack();
    assert!(r.is_ok());
}

#[test]
fn eval_sentinel_reads_back_as_absent() {
    let packed = kings_sample(None).pack().unwrap();
    let unpacked = packed.unpack().unwrap();
    assert_eq!(unpacked.eval, None);
}

#[test]
fn eval_equal_to_sentinel_collapses_to_absent() {
    // The one evaluation value the format cannot represent: it is stored
    // as the absence sentinel and reads back as no evaluation.
    let unpacked = kings_sample(Some(i16::MIN)).pack().unwrap().unpack().unwrap();
    assert_eq!(unpacked.eval, None);
}

#[test]
fn halfmove_clock_saturates_at_255() {
    let mut sample = kings_sample(None);
    sample.position.halfmove_clock = 300;
    let unpacked = sample.pack().unwrap().unpack().unwrap();
    assert_eq!(unpacked.position.halfmove_clock, 255);
}
