use chessdata::{
    Batch, BufferedLoader, CastlingRights, Color, EvalTarget, Outcome, Piece, Position, Sample,
};

fn record_bytes_with_eval(eval: i16) -> Vec<u8> {
    let mut board = vec![None; 64];
    board[4] = Some((Color::White, Piece::King));
    board[60] = Some((Color::Black, Piece::King));
    let sample = Sample {
        position: Position {
            board,
            side_to_move: Color::White,
            white_castling: CastlingRights { queen_side: None, king_side: None },
            black_castling: CastlingRights { queen_side: None, king_side: None },
            en_passant: None,
            halfmove_clock: 0,
            fullmove_number: 1,
        },
        outcome: Outcome::Draw,
        eval: Some(eval),
    };
    sample.pack().unwrap().to_bytes()
}

fn batch_evals(batch: &Batch) -> Vec<i16> {
    let mut evals = Vec::new();
    for i in 0..batch.len() {
        match batch.target_at(i).1 {
            EvalTarget::Centipawns(e) => evals.push(e),
            _ => panic!("unexpected target"),
        }
    }
    evals.sort();
    evals
}

#[test]
fn loader_cycling() {
    // A file holding exactly one batch's worth of records: two consecutive
    // batches return the file's content twice over, refilling in between
    // as rewinding the file would.
    let mut file = Vec::new();
    for eval in 1..=4i16 {
        file.extend(record_bytes_with_eval(eval));
    }

    let mut loader = BufferedLoader::new();
    let mut batch = Batch::new(4);
    assert!(loader.needs_refill());

    loader.refill(&file);
    let full = loader.load_into(&mut batch);
    assert!(full);
    assert_eq!(batch_evals(&batch), vec![1, 2, 3, 4]);
    assert!(loader.needs_refill());

    batch.clear();
    loader.refill(&file);
    let full = loader.load_into(&mut batch);
    assert!(full);
    assert_eq!(batch_evals(&batch), vec![1, 2, 3, 4]);
}

#[test]
fn corrupt_record_skip() {
    // One corrupted record among five valid ones: the batch holds the five
    // valid examples, and the stream does not abort.
    let mut file = Vec::new();
    for eval in 1..=3i16 {
        file.extend(record_bytes_with_eval(eval));
    }
    let mut corrupt = record_bytes_with_eval(99);
    corrupt[31] = 0;
    file.extend(corrupt);
    for eval in 4..=5i16 {
        file.extend(record_bytes_with_eval(eval));
    }

    let mut loader = BufferedLoader::new();
    loader.refill(&file);
    assert_eq!(loader.buffered(), 6);
    assert_eq!(loader.skipped(), 0);

    let mut batch = Batch::new(10);
    let full = loader.load_into(&mut batch);
    assert!(!full);
    assert_eq!(batch.len(), 5);
    assert_eq!(batch_evals(&batch), vec![1, 2, 3, 4, 5]);
    // The skipped record is counted, so the loader's owner can report it.
    assert_eq!(loader.skipped(), 1);
}

#[test]
fn partial_trailing_record_is_dropped() {
    let mut file = record_bytes_with_eval(42);
    file.extend([1u8, 2, 3]);
    let mut loader = BufferedLoader::new();
    assert_eq!(loader.trailing_bytes(), 0);
    loader.refill(&file);
    assert_eq!(loader.buffered(), 1);
    // The dropped remainder is surfaced: a record file's size should be a
    // whole number of records.
    assert_eq!(loader.trailing_bytes(), 3);

    loader.refill(&record_bytes_with_eval(7));
    assert_eq!(loader.trailing_bytes(), 0);
}

#[test]
fn empty_source_loads_nothing() {
    let mut loader = BufferedLoader::new();
    loader.refill(&Vec::new());
    assert_eq!(loader.buffered(), 0);
    let mut batch = Batch::new(2);
    let full = loader.load_into(&mut batch);
    assert!(!full);
    assert_eq!(batch.len(), 0);
}

#[test]
fn full_batch_leaves_rest_buffered() {
    let mut file = Vec::new();
    for eval in 1..=5i16 {
        file.extend(record_bytes_with_eval(eval));
    }
    let mut loader = BufferedLoader::new();
    loader.refill(&file);
    let mut batch = Batch::new(3);
    let full = loader.load_into(&mut batch);
    assert!(full);
    assert_eq!(batch.len(), 3);
    assert_eq!(loader.buffered(), 2);
}
