//! The chess domain model the codec and the feature encoder work on.
//!
//! A position is held as plain values: a 64-entry board (square index 0 is
//! a1, 7 is h1, 56 is a8, 63 is h8), the side to move, per-color castling
//! rights given as the files of the still-eligible rooks, an optional
//! en-passant square, and the two move counters.

use vstd::prelude::*;

verus! {

/// One of the two sides of a chess game.
#[derive(Clone, Copy, Debug, PartialEq, Eq, Hash, Structural)]
pub enum Color {
    White,
    Black,
}

impl Color {
    /// The opposing color.
    pub open spec fn opposite_spec(self) -> Color {
        match self {
            Color::White => Color::Black,
            Color::Black => Color::White,
        }
    }

    /// The opposing color.
    #[verifier::when_used_as_spec(opposite_spec)]
    pub fn opposite(self) -> (r: Color)
        ensures
            r == self.opposite_spec(),
    {
        match self {
            Color::White => Color::Black,
            Color::Black => Color::White,
        }
    }

    /// Numeric code of the color: white is 0, black is 1.
    pub open spec fn index_spec(self) -> u8 {
        match self {
            Color::White => 0u8,
            Color::Black => 1u8,
        }
    }

    /// Numeric code of the color: white is 0, black is 1.
    #[verifier::when_used_as_spec(index_spec)]
    pub fn index(self) -> (r: u8)
        ensures
            r == self.index_spec(),
    {
        match self {
            Color::White => 0u8,
            Color::Black => 1u8,
        }
    }
}

/// A kind of chess piece.
#[derive(Clone, Copy, Debug, PartialEq, Eq, Hash, Structural)]
pub enum Piece {
    Pawn,
    Knight,
    Bishop,
    Rook,
    Queen,
    King,
}

impl Piece {
    /// Numeric index of the piece kind, from pawn (0) to king (5).
    pub open spec fn index_spec(self) -> u8 {
        match self {
            Piece::Pawn => 0u8,
            Piece::Knight => 1u8,
            Piece::Bishop => 2u8,
            Piece::Rook => 3u8,
            Piece::Queen => 4u8,
            Piece::King => 5u8,
        }
    }

    /// Numeric index of the piece kind, from pawn (0) to king (5).
    #[verifier::when_used_as_spec(index_spec)]
    pub fn index(self) -> (r: u8)
        ensures
            r == self.index_spec(),
    {
        match self {
            Piece::Pawn => 0u8,
            Piece::Knight => 1u8,
            Piece::Bishop => 2u8,
            Piece::Rook => 3u8,
            Piece::Queen => 4u8,
            Piece::King => 5u8,
        }
    }
}

/// How a finished game ended.
#[derive(Clone, Copy, Debug, PartialEq, Eq, Hash, Structural)]
pub enum Outcome {
    Winner(Color),
    Draw,
}

impl Outcome {
    /// The winning color, if the game was not drawn.
    pub open spec fn winner_spec(self) -> Option<Color> {
        match self {
            Outcome::Winner(c) => Some(c),
            Outcome::Draw => None,
        }
    }

    /// The winning color, if the game was not drawn.
    #[verifier::when_used_as_spec(winner_spec)]
    pub fn winner(self) -> (r: Option<Color>)
        ensures
            r == self.winner_spec(),
    {
        match self {
            Outcome::Winner(c) => Some(c),
            Outcome::Draw => None,
        }
    }
}

/// File (column) of a square index, 0 for the a-file through 7 for the h-file.
pub open spec fn file_of(sq: int) -> int {
    sq % 8
}

/// Rank (row) of a square index, 0 for the first rank through 7 for the eighth.
pub open spec fn rank_of(sq: int) -> int {
    sq / 8
}

/// Square index of a file and rank pair.
pub open spec fn square_at(file: int, rank: int) -> int {
    rank * 8 + file
}

/// The square as seen after flipping the board vertically (a1 becomes a8).
pub open spec fn flip_vertical_spec(sq: int) -> int {
    square_at(file_of(sq), 7 - rank_of(sq))
}

/// The square as seen after flipping the board vertically (a1 becomes a8).
pub fn flip_vertical(sq: u8) -> (r: u8)
    requires
        sq < 64,
    ensures
        r == flip_vertical_spec(sq as int),
        r < 64,
{
    (7 - sq / 8) * 8 + sq % 8
}

/// The rank a color's pieces start on: 0 for white, 7 for black.
pub open spec fn back_rank_spec(color: Color) -> int {
    match color {
        Color::White => 0,
        Color::Black => 7,
    }
}

/// The rank a color's pieces start on: 0 for white, 7 for black.
pub fn back_rank(color: Color) -> (r: u8)
    ensures
        r == back_rank_spec(color),
{
    match color {
        Color::White => 0,
        Color::Black => 7,
    }
}

/// Which of a color's rooks are still eligible to castle, by the file each
/// rook started the game on.
#[derive(Clone, Copy, Debug, PartialEq, Eq)]
pub struct CastlingRights {
    pub queen_side: Option<u8>,
    pub king_side: Option<u8>,
}

impl CastlingRights {
    /// Both files, where present, denote one of the eight board files.
    pub open spec fn wf(self) -> bool {
        &&& (self.queen_side matches Some(f) ==> f < 8)
        &&& (self.king_side matches Some(f) ==> f < 8)
    }

    /// Whether the rook that started on `file` is still eligible to castle.
    pub open spec fn contains_spec(self, file: u8) -> bool {
        self.queen_side == Some(file) || self.king_side == Some(file)
    }

    /// Whether the rook that started on `file` is still eligible to castle.
    #[verifier::when_used_as_spec(contains_spec)]
    pub fn contains(self, file: u8) -> (r: bool)
        ensures
            r == self.contains_spec(file),
    {
        self.queen_side == Some(file) || self.king_side == Some(file)
    }

    /// Rights with no castling-eligible rook.
    pub fn none() -> (r: CastlingRights)
        ensures
            r == (CastlingRights { queen_side: None, king_side: None }),
    {
        CastlingRights { queen_side: None, king_side: None }
    }
}

/// A chess position held as plain values.
#[derive(Clone, Debug, PartialEq, Eq)]
pub struct Position {
    /// What stands on each of the 64 squares, indexed by square.
    pub board: Vec<Option<(Color, Piece)>>,
    pub side_to_move: Color,
    pub white_castling: CastlingRights,
    pub black_castling: CastlingRights,
    /// The skipped square of the double pawn push of the previous move, if any.
    pub en_passant: Option<u8>,
    pub halfmove_clock: u32,
    pub fullmove_number: u32,
}

/// The mathematical view of a [`Position`].
#[verifier::ext_equal]
pub ghost struct PositionV {
    pub board: Seq<Option<(Color, Piece)>>,
    pub side_to_move: Color,
    pub white_castling: CastlingRights,
    pub black_castling: CastlingRights,
    pub en_passant: Option<u8>,
    pub halfmove_clock: u32,
    pub fullmove_number: u32,
}

impl View for Position {
    type V = PositionV;

    open spec fn view(&self) -> PositionV {
        PositionV {
            board: self.board@,
            side_to_move: self.side_to_move,
            white_castling: self.white_castling,
            black_castling: self.black_castling,
            en_passant: self.en_passant,
            halfmove_clock: self.halfmove_clock,
            fullmove_number: self.fullmove_number,
        }
    }
}

impl PositionV {
    /// The castling rights of one color.
    pub open spec fn castling(self, color: Color) -> CastlingRights {
        match color {
            Color::White => self.white_castling,
            Color::Black => self.black_castling,
        }
    }

    /// Structural soundness of the held values: a 64-entry board, and file
    /// and square indices in range.
    pub open spec fn wf(self) -> bool {
        &&& self.board.len() == 64
        &&& self.white_castling.wf()
        &&& self.black_castling.wf()
        &&& (self.en_passant matches Some(sq) ==> sq < 64)
    }

    /// Number of occupied squares among the first `n` squares.
    pub open spec fn count_up_to(self, n: int) -> int
        decreases n,
    {
        if n <= 0 {
            0
        } else {
            self.count_up_to(n - 1) + if self.board[n - 1] is Some {
                1int
            } else {
                0int
            }
        }
    }

    /// Number of occupied squares on the board.
    pub open spec fn piece_count(self) -> int {
        self.count_up_to(64)
    }

    /// Position in the packed piece table of an occupied square: the number
    /// of occupied squares with a smaller index.
    pub open spec fn slot_of(self, sq: int) -> int {
        self.count_up_to(sq)
    }
}

impl Position {
    /// The castling rights of one color.
    pub fn castling(&self, color: Color) -> (r: CastlingRights)
        ensures
            r == self@.castling(color),
    {
        match color {
            Color::White => self.white_castling,
            Color::Black => self.black_castling,
        }
    }
}

/// Counting occupied squares square by square never decreases, and grows by
/// at most one per square.
pub proof fn lemma_count_up_to_bounds(p: PositionV, m: int, n: int)
    requires
        0 <= m <= n,
    ensures
        p.count_up_to(m) <= p.count_up_to(n) <= p.count_up_to(m) + (n - m),
    decreases n - m,
{
    if m < n {
        lemma_count_up_to_bounds(p, m, n - 1);
    }
}

/// A training example: a position, how the game ended, and an optional
/// engine evaluation in centipawns from the side to move's point of view.
#[derive(Clone, Debug, PartialEq, Eq)]
pub struct Sample {
    pub position: Position,
    pub outcome: Outcome,
    pub eval: Option<i16>,
}

/// The mathematical view of a [`Sample`].
#[verifier::ext_equal]
pub ghost struct SampleV {
    pub position: PositionV,
    pub outcome: Outcome,
    pub eval: Option<i16>,
}

impl View for Sample {
    type V = SampleV;

    open spec fn view(&self) -> SampleV {
        SampleV { position: self.position@, outcome: self.outcome, eval: self.eval }
    }
}

} // verus!
