use chessdata::{
    feature, Batch, CastlingRights, Color, EvalTarget, Outcome, OutcomeTarget, Piece, Position,
    Sample,
};

fn no_rights() -> CastlingRights {
    CastlingRights { queen_side: None, king_side: None }
}

fn position_with(board: Vec<Option<(Color, Piece)>>, side_to_move: Color) -> Position {
    Position {
        board,
        side_to_move,
        white_castling: no_rights(),
        black_castling: no_rights(),
        en_passant: None,
        halfmove_clock: 0,
        fullmove_number: 1,
    }
}

#[test]
fn feature_index_formula() {
    // White pawn on e2 (square 12) seen by white: own pawn, square kept.
    assert_eq!(feature(Color::White, Color::White, Piece::Pawn, 12), 12);
    // The same pawn seen by black: enemy pawn, square mirrored to e7 (52).
    assert_eq!(feature(Color::Black, Color::White, Piece::Pawn, 12), (6 * 64) + 52);
    // A black king on d8 (59) seen by black: own king, mirrored to d1 (3).
    assert_eq!(feature(Color::Black, Color::Black, Piece::King, 59), (5 * 64) + 3);
    // Every index stays below the 2 * 6 * 64 feature space.
    assert!(feature(Color::White, Color::Black, Piece::King, 63) < 768);
}

fn feature_sets(position: &Position) -> (Vec<u32>, Vec<u32>) {
    let stm = position.side_to_move;
    let mut ours = Vec::new();
    let mut theirs = Vec::new();
    for sq in 0..64u8 {
        if let Some((color, piece)) = position.board[sq as usize] {
            ours.push(feature(stm, color, piece, sq));
            theirs.push(feature(stm.opposite(), color, piece, sq));
        }
    }
    ours.sort();
    theirs.sort();
    (ours, theirs)
}

fn color_flip(position: &Position) -> Position {
    let mut board = vec![None; 64];
    for sq in 0..64usize {
        let mirrored = (7 - sq / 8) * 8 + sq % 8;
        board[sq] = position.board[mirrored].map(|(c, k)| (c.opposite(), k));
    }
    Position {
        board,
        side_to_move: position.side_to_move.opposite(),
        white_castling: position.black_castling,
        black_castling: position.white_castling,
        en_passant: position.en_passant.map(|s| (7 - s / 8) * 8 + s % 8),
        halfmove_clock: position.halfmove_clock,
        fullmove_number: position.fullmove_number,
    }
}

#[test]
fn feature_symmetry_under_color_flip() {
    // An asymmetric middlegame-like position, black to move.
    let mut board = vec![None; 64];
    board[4] = Some((Color::White, Piece::King));
    board[60] = Some((Color::Black, Piece::King));
    board[12] = Some((Color::White, Piece::Pawn));
    board[27] = Some((Color::White, Piece::Knight));
    board[35] = Some((Color::Black, Piece::Queen));
    board[49] = Some((Color::Black, Piece::Pawn));
    let position = position_with(board, Color::Black);
    let flipped = color_flip(&position);

    let (stm, non_stm) = feature_sets(&position);
    let (stm_f, non_stm_f) = feature_sets(&flipped);
    // The mover's view and the opponent's view are each unchanged by the
    // color flip.
    assert_eq!(stm, stm_f);
    assert_eq!(non_stm, non_stm_f);
    // And the two views differ from each other.
    assert_ne!(stm, non_stm);
}

fn kings_with_eval(eval: Option<i16>, outcome: Outcome, side_to_move: Color) -> Sample {
    let mut board = vec![None; 64];
    board[4] = Some((Color::White, Piece::King));
    board[60] = Some((Color::Black, Piece::King));
    Sample { position: position_with(board, side_to_move), outcome, eval }
}

#[test]
fn batch_targets() {
    let mut batch = Batch::new(8);
    assert_eq!(batch.capacity(), 8);
    assert_eq!(batch.len(), 0);

    batch.add(&kings_with_eval(Some(120), Outcome::Draw, Color::White));
    batch.add(&kings_with_eval(None, Outcome::Winner(Color::White), Color::White));
    batch.add(&kings_with_eval(None, Outcome::Winner(Color::Black), Color::White));
    batch.add(&kings_with_eval(None, Outcome::Draw, Color::White));
    batch.add(&kings_with_eval(None, Outcome::Winner(Color::Black), Color::Black));

    assert_eq!(batch.len(), 5);
    assert_eq!(batch.target_at(0), (OutcomeTarget::Draw, EvalTarget::Centipawns(120)));
    assert_eq!(batch.target_at(1), (OutcomeTarget::Win, EvalTarget::PlusInfinity));
    assert_eq!(batch.target_at(2), (OutcomeTarget::Loss, EvalTarget::MinusInfinity));
    assert_eq!(batch.target_at(3), (OutcomeTarget::Draw, EvalTarget::Centipawns(0)));
    assert_eq!(batch.target_at(4), (OutcomeTarget::Win, EvalTarget::PlusInfinity));
}

#[test]
fn batch_feature_coordinates() {
    let mut batch = Batch::new(2);
    batch.add(&kings_with_eval(Some(1), Outcome::Draw, Color::White));
    batch.add(&kings_with_eval(Some(2), Outcome::Draw, Color::Black));

    // Two pieces per example, one coordinate pair per piece.
    assert_eq!(batch.total_features(), 4);
    // First example, white to move: own king on e1, enemy king on e8.
    assert_eq!(batch.stm_coordinate(0), (0, feature(Color::White, Color::White, Piece::King, 4)));
    assert_eq!(
        batch.non_stm_coordinate(0),
        (0, feature(Color::Black, Color::White, Piece::King, 4))
    );
    assert_eq!(batch.stm_coordinate(1), (0, feature(Color::White, Color::Black, Piece::King, 60)));
    // Second example is tagged with its own index.
    assert_eq!(batch.stm_coordinate(2).0, 1);
    assert_eq!(batch.stm_coordinate(2), (1, feature(Color::Black, Color::White, Piece::King, 4)));
}

#[test]
fn batch_clear_resets_for_refill() {
    let mut batch = Batch::new(3);
    batch.add(&kings_with_eval(Some(7), Outcome::Draw, Color::White));
    batch.add(&kings_with_eval(Some(8), Outcome::Draw, Color::White));
    assert_eq!(batch.len(), 2);
    assert_eq!(batch.total_features(), 4);

    batch.clear();
    assert_eq!(batch.len(), 0);
    assert_eq!(batch.total_features(), 0);
    assert_eq!(batch.capacity(), 3);

    batch.add(&kings_with_eval(Some(9), Outcome::Draw, Color::White));
    assert_eq!(batch.len(), 1);
    assert_eq!(batch.target_at(0), (OutcomeTarget::Draw, EvalTarget::Centipawns(9)));
}
