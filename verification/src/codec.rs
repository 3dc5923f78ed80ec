//! The fixed-width binary codec for one training example.
//!
//! A packed record is 32 bytes: a 64-bit occupancy set, a table of 32
//! four-bit piece slots filled in ascending square order, the evaluation,
//! the move counters, the en-passant square, the side to move and the game
//! outcome. A rook still eligible to castle is stored with a distinguished
//! slot value; decoding resolves it to the queen-side or king-side right by
//! whether its color's king has already been seen in the square order.

use vstd::prelude::*;
use crate::chess::{
    back_rank_spec, file_of, rank_of, CastlingRights, Color, Outcome, Piece, Position, PositionV,
    Sample,
};

verus! {

/// Sentinel stored in the evaluation field when no evaluation is present.
pub const NO_EVAL: i16 = i16::MIN;

pub const BLACK: u8 = 0b0000;
pub const WHITE: u8 = 0b1000;
pub const COLOR_MASK: u8 = 0b1000;
pub const PIECE_MASK: u8 = 0b0111;
pub const CASTLING_ROOK: u8 = 0b0111;

/// Why a sample could not be packed.
#[derive(Copy, Clone, Debug, PartialEq, Eq, Structural)]
pub enum PackError {
    TooManyPieces,
}

/// Why a packed record could not be decoded back into a sample.
#[derive(Clone, Debug, PartialEq, Eq)]
pub enum UnpackError {
    /// The assembled position was rejected by the chess rules; the payload
    /// describes the violation.
    InvalidPosition(String),
    InvalidOutcome,
    InvalidSideToMove,
    InvalidEnPassant,
    /// A piece slot holds the reserved empty value.
    InvalidPiece,
    TooManyPieces,
}

/// The four-bit slot at position `i` of a piece table, low nibble first.
pub open spec fn nibble(bytes: Seq<u8>, i: int) -> u8 {
    if i % 2 == 0 {
        bytes[i / 2] & 0x0f
    } else {
        bytes[i / 2] >> 4
    }
}

/// Bit `i` of a 64-bit occupancy set.
pub open spec fn bit64(x: u64, i: u64) -> bool {
    (x >> i) & 1 == 1
}

/// The table of 32 four-bit piece slots of a packed record.
#[derive(Clone, Copy, Debug, PartialEq, Eq, Hash, PartialOrd, Ord)]
pub struct PackedPieces(pub [u8; 16]);

impl View for PackedPieces {
    type V = Seq<u8>;

    open spec fn view(&self) -> Seq<u8> {
        self.0@
    }
}

impl Default for PackedPieces {
    /// An all-empty piece table.
    fn default() -> (r: Self)
        ensures
            r@.len() == 16,
            forall|i: int| 0 <= i < 32 ==> nibble(r@, i) == 0,
    {
        let r = PackedPieces([0u8; 16]);
        proof {
            assert forall|i: int| 0 <= i < 32 implies nibble(r@, i) == 0 by {
                let b = r@[i / 2];
                assert(b == 0);
                assert(0u8 & 0x0f == 0 && 0u8 >> 4 == 0) by (bit_vector);
            }
        }
        r
    }
}

impl PackedPieces {
    /// Merges `bits` into slot `index` by bitwise or, leaving every other
    /// slot as it was.
    pub fn set(&mut self, index: usize, bits: u8)
        requires
            index < 32,
            bits < 16,
        ensures
            final(self)@.len() == old(self)@.len(),
            nibble(final(self)@, index as int) == (nibble(old(self)@, index as int) | bits),
            forall|j: int|
                0 <= j < 32 && j != index ==> nibble(final(self)@, j) == nibble(old(self)@, j),
    {
        let b = self.0[index / 2];
        let nb = if index % 2 == 0 {
            b | bits
        } else {
            b | (bits << 4)
        };
        self.0[index / 2] = nb;
        proof {
            let bits = bits;
            if index % 2 == 0 {
                assert(bits < 16 ==> ((b | bits) & 0x0f) == ((b & 0x0f) | bits) && ((b | bits) >> 4)
                    == (b >> 4)) by (bit_vector);
            } else {
                assert(bits < 16 ==> ((b | (bits << 4)) >> 4) == ((b >> 4) | bits) && ((b | (bits
                    << 4)) & 0x0f) == (b & 0x0f)) by (bit_vector);
            }
            assert forall|j: int| 0 <= j < 32 && j != index implies nibble(self@, j) == nibble(
                old(self)@,
                j,
            ) by {
                if j / 2 != index / 2 {
                    assert(self@[j / 2] == old(self)@[j / 2]);
                }
            }
        }
    }

    /// What a slot value denotes: the color, the piece kind, and whether it
    /// is the castling-rook sentinel. The reserved empty value denotes
    /// nothing.
    pub open spec fn decode_slot(v: u8) -> Option<(Color, Piece, bool)> {
        let color = if v & COLOR_MASK == WHITE {
            Color::White
        } else {
            Color::Black
        };
        let piece_bits = v & PIECE_MASK;
        if piece_bits == 0 {
            None
        } else if piece_bits == CASTLING_ROOK {
            Some((color, Piece::Rook, true))
        } else if piece_bits == 1 {
            Some((color, Piece::Pawn, false))
        } else if piece_bits == 2 {
            Some((color, Piece::Knight, false))
        } else if piece_bits == 3 {
            Some((color, Piece::Bishop, false))
        } else if piece_bits == 4 {
            Some((color, Piece::Rook, false))
        } else if piece_bits == 5 {
            Some((color, Piece::Queen, false))
        } else {
            Some((color, Piece::King, false))
        }
    }

    /// Reads slot `index` back as a color, a piece and a castling-rook
    /// flag, or nothing for the reserved empty value.
    fn get(&self, index: usize) -> (r: Option<(Color, Piece, bool)>)
        requires
            index < 32,
            self@.len() == 16,
        ensures
            r == Self::decode_slot(nibble(self@, index as int)),
    {
        let entry = self.0[index / 2];
        let value = if index % 2 == 0 {
            entry & 0x0f
        } else {
            entry >> 4
        };
        let color = if value & COLOR_MASK == WHITE {
            Color::White
        } else {
            Color::Black
        };
        let piece_bits = value & PIECE_MASK;
        proof {
            assert((value & 0b0111u8) < 8) by (bit_vector);
        }
        match piece_bits {
            0 => None,
            7 => Some((color, Piece::Rook, true)),
            1 => Some((color, Piece::Pawn, false)),
            2 => Some((color, Piece::Knight, false)),
            3 => Some((color, Piece::Bishop, false)),
            4 => Some((color, Piece::Rook, false)),
            5 => Some((color, Piece::Queen, false)),
            _ => Some((color, Piece::King, false)),
        }
    }
}

/// Color bits of a slot value: the high bit of the nibble.
fn encode_color(color: Color) -> (r: u8)
    ensures
        r == color_bits(color),
{
    match color {
        Color::Black => BLACK,
        Color::White => WHITE,
    }
}

/// Color bits of a slot value: the high bit of the nibble.
pub open spec fn color_bits(color: Color) -> u8 {
    match color {
        Color::Black => BLACK,
        Color::White => WHITE,
    }
}

/// Piece bits of a slot value, pawn (1) through king (6).
fn encode_piece(piece: Piece) -> (r: u8)
    ensures
        r == piece.index_spec() + 1,
{
    piece.index() + 1
}

/// Whether the piece on `sq` is packed as the castling-rook sentinel: a
/// rook on its color's back rank whose file is still castling-eligible.
pub open spec fn is_castling_rook(p: PositionV, sq: int, color: Color, piece: Piece) -> bool {
    &&& piece == Piece::Rook
    &&& rank_of(sq) == back_rank_spec(color)
    &&& p.castling(color).contains_spec(file_of(sq) as u8)
}

/// The slot value that packing writes for the occupied square `sq`.
pub open spec fn slot_for(p: PositionV, sq: int) -> u8
    recommends
        p.board[sq] is Some,
{
    let (color, piece) = p.board[sq]->Some_0;
    if is_castling_rook(p, sq, color, piece) {
        (color_bits(color) + CASTLING_ROOK) as u8
    } else {
        (color_bits(color) + piece.index_spec() + 1) as u8
    }
}

/// The evaluation field: the value itself, or the absence sentinel.
pub open spec fn eval_repr(eval: Option<i16>) -> i16 {
    match eval {
        Some(e) => e,
        None => NO_EVAL,
    }
}

/// The en-passant field: the square index, or 0 for none (square 0 is
/// never a legal en-passant target).
pub open spec fn ep_repr(ep: Option<u8>) -> u8 {
    match ep {
        Some(sq) => sq,
        None => 0,
    }
}

/// The halfmove-clock field: the clock saturated at 255.
pub open spec fn clock_repr(halfmove_clock: u32) -> u8 {
    if halfmove_clock < 255 {
        halfmove_clock as u8
    } else {
        255u8
    }
}

/// The outcome field: 3 for a draw, 2 for a white win, 1 for a black win.
pub open spec fn outcome_code(outcome: Outcome) -> u8 {
    match outcome {
        Outcome::Draw => 0b11u8,
        Outcome::Winner(Color::White) => 0b10u8,
        Outcome::Winner(Color::Black) => 0b01u8,
    }
}

/// One example packed into its fixed-width on-disk form.
#[derive(Clone, Copy, Debug, PartialEq, Eq, Hash, PartialOrd, Ord)]
pub struct PackedSample {
    pub(crate) pieces: PackedPieces,
    pub(crate) occupied: u64,
    pub(crate) eval: i16,
    pub(crate) fullmove_number: u16,
    pub(crate) halfmove_clock: u8,
    pub(crate) en_passant: u8,
    pub(crate) side_to_move: u8,
    pub(crate) game_outcome: u8,
}

/// The mathematical view of a [`PackedSample`].
#[verifier::ext_equal]
pub ghost struct PackedV {
    pub pieces: Seq<u8>,
    pub occupied: u64,
    pub eval: i16,
    pub fullmove_number: u16,
    pub halfmove_clock: u8,
    pub en_passant: u8,
    pub side_to_move: u8,
    pub game_outcome: u8,
}

impl View for PackedSample {
    type V = PackedV;

    closed spec fn view(&self) -> PackedV {
        PackedV {
            pieces: self.pieces@,
            occupied: self.occupied,
            eval: self.eval,
            fullmove_number: self.fullmove_number,
            halfmove_clock: self.halfmove_clock,
            en_passant: self.en_passant,
            side_to_move: self.side_to_move,
            game_outcome: self.game_outcome,
        }
    }
}

/// What packing the sample `s` produces: occupancy mirrors the board, each
/// occupied square's slot holds its slot value at its position in square
/// order, unused slots stay empty, and the scalar fields hold the field
/// representations of the sample's values.
pub open spec fn packs_to(s: crate::chess::SampleV, r: PackedV) -> bool {
    &&& r.pieces.len() == 16
    &&& forall|j: u64| j < 64 ==> #[trigger] bit64(r.occupied, j) == (s.position.board[j as int]
        is Some)
    &&& forall|sq: int|
        0 <= sq < 64 && s.position.board[sq] is Some ==> nibble(
            r.pieces,
            #[trigger] s.position.slot_of(sq),
        ) == slot_for(s.position, sq)
    &&& forall|n: int| s.position.piece_count() <= n < 32 ==> #[trigger] nibble(r.pieces, n) == 0
    &&& r.eval == eval_repr(s.eval)
    &&& r.en_passant == ep_repr(s.position.en_passant)
    &&& r.halfmove_clock == clock_repr(s.position.halfmove_clock)
    &&& r.fullmove_number == s.position.fullmove_number as u16
    &&& r.side_to_move == s.position.side_to_move.index_spec()
    &&& r.game_outcome == outcome_code(s.outcome)
}

/// Number of set bits among the low `n` bits of an occupancy set.
pub open spec fn count_bits_up_to(x: u64, n: int) -> int
    decreases n,
{
    if n <= 0 {
        0
    } else {
        count_bits_up_to(x, n - 1) + if bit64(x, (n - 1) as u64) {
            1int
        } else {
            0int
        }
    }
}

/// Number of set bits of an occupancy set.
pub open spec fn count_bits(x: u64) -> int {
    count_bits_up_to(x, 64)
}

/// Position in the piece table of the record entry for square `sq`: the
/// number of occupied squares with a smaller index.
pub open spec fn occ_slot(x: u64, sq: int) -> int {
    count_bits_up_to(x, sq)
}

/// Counting set bits bit by bit never decreases, and grows by at most one
/// per bit.
pub proof fn lemma_count_bits_bounds(x: u64, m: int, n: int)
    requires
        0 <= m <= n,
    ensures
        count_bits_up_to(x, m) <= count_bits_up_to(x, n) <= count_bits_up_to(x, m) + (n - m),
    decreases n - m,
{
    if m < n {
        lemma_count_bits_bounds(x, m, n - 1);
    }
}

proof fn lemma_set_bit(x: u64, s: u64)
    by (bit_vector)
    requires
        s < 64,
    ensures
        forall|j: u64| j < 64 ==> #[trigger] bit64(x | (1u64 << s), j) == (bit64(x, j) || j == s),
{
}

proof fn lemma_zero_bits()
    by (bit_vector)
    ensures
        forall|j: u64| j < 64 ==> !#[trigger] bit64(0u64, j),
{
}

impl Sample {
    /// Packs the sample, failing when more than 32 squares are occupied.
    #[inline]
    pub fn pack(&self) -> (r: Result<PackedSample, PackError>)
        requires
            self@.position.wf(),
        ensures
            r is Ok <==> self@.position.piece_count() <= 32,
            r matches Ok(packed) ==> packs_to(self@, packed@),
    {
        PackedSample::new(self)
    }
}

impl PackedSample {
    /// Packs a sample, failing when more than 32 squares are occupied.
    fn new(sample: &Sample) -> (r: Result<Self, PackError>)
        requires
            sample@.position.wf(),
        ensures
            r is Ok <==> sample@.position.piece_count() <= 32,
            r matches Ok(packed) ==> packs_to(sample@, packed@),
    {
        let position = &sample.position;
        let ghost p = position@;
        let mut pieces = PackedPieces::default();

        let mut count: u32 = 0;
        for sq in 0..64usize
            invariant
                count == p.count_up_to(sq as int),
                count <= sq,
                p == position@,
                position@.wf(),
        {
            if position.board[sq].is_some() {
                count = count + 1;
            }
        }
        if count > 32 {
            return Err(PackError::TooManyPieces);
        }

        let mut occupied: u64 = 0;
        let mut n: usize = 0;
        proof {
            lemma_zero_bits();
        }
        for sq in 0..64usize
            invariant
                p == position@,
                position@.wf(),
                p.piece_count() <= 32,
                n == p.count_up_to(sq as int),
                pieces@.len() == 16,
                forall|j: u64| j < 64 ==> #[trigger] bit64(occupied, j) == (j < sq && p.board[j as int]
                    is Some),
                forall|t: int|
                    0 <= t < sq && p.board[t] is Some ==> nibble(
                        pieces@,
                        #[trigger] p.slot_of(t),
                    ) == slot_for(p, t),
                forall|m: int| n <= m < 32 ==> #[trigger] nibble(pieces@, m) == 0,
        {
            proof {
                crate::chess::lemma_count_up_to_bounds(p, sq as int, 64);
            }
            if let Some((color, piece)) = position.board[sq] {
                let castling = position.castling(color);
                let backrank = crate::chess::back_rank(color);

                let bits = if piece == Piece::Rook && sq as u8 / 8 == backrank && castling.contains(
                    sq as u8 % 8,
                ) {
                    encode_color(color) | CASTLING_ROOK
                } else {
                    encode_color(color) | encode_piece(piece)
                };
                proof {
                    let cb = color_bits(color);
                    let pb = if is_castling_rook(p, sq as int, color, piece) {
                        CASTLING_ROOK
                    } else {
                        (piece.index_spec() + 1) as u8
                    };
                    assert((cb == 0 || cb == 8) && 0 < pb < 8 ==> (cb | pb) == (cb + pb) && (cb
                        | pb) < 16) by (bit_vector);
                    assert(bits == slot_for(p, sq as int));
                    crate::chess::lemma_count_up_to_bounds(p, sq as int + 1, 64);
                }
                pieces.set(n, bits);
                proof {
                    assert(bits < 16 ==> (0u8 | bits) == bits) by (bit_vector);
                    assert forall|t: int| 0 <= t <= sq && p.board[t] is Some implies nibble(
                        pieces@,
                        #[trigger] p.slot_of(t),
                    ) == slot_for(p, t) by {
                        if t < sq {
                            crate::chess::lemma_count_up_to_bounds(p, 0, t);
                            crate::chess::lemma_count_up_to_bounds(p, t + 1, sq as int);
                            assert(p.slot_of(t) < n);
                        } else {
                            assert(p.slot_of(t) == n);
                        }
                    }
                    lemma_set_bit(occupied, sq as u64);
                }
                occupied = occupied | (1u64 << (sq as u64));
                n = n + 1;
            }
        }

        Ok(
            PackedSample {
                pieces,
                occupied,
                en_passant: match position.en_passant {
                    Some(sq) => sq,
                    None => 0,
                },
                halfmove_clock: if position.halfmove_clock < 255 {
                    position.halfmove_clock as u8
                } else {
                    255
                },
                fullmove_number: #[verifier::truncate] (position.fullmove_number as u16),
                side_to_move: position.side_to_move.index(),
                eval: match sample.eval {
                    Some(e) => e,
                    None => NO_EVAL,
                },
                game_outcome: match sample.outcome {
                    Outcome::Draw => 0b11,
                    Outcome::Winner(Color::White) => 0b10,
                    Outcome::Winner(Color::Black) => 0b01,
                },
            },
        )
    }
}

/// Whether the en-passant field is decodable: 0 (none) or a square index.
pub open spec fn ep_field_ok(r: PackedV) -> bool {
    r.en_passant == 0 || r.en_passant < 64
}

/// Whether the side-to-move field is decodable.
pub open spec fn stm_field_ok(r: PackedV) -> bool {
    r.side_to_move < 2
}

/// Whether the occupancy fits the 32-slot piece table.
pub open spec fn count_field_ok(r: PackedV) -> bool {
    count_bits(r.occupied) <= 32
}

/// Whether every occupied square's slot holds a decodable value.
pub open spec fn pieces_field_ok(r: PackedV) -> bool {
    forall|sq: int|
        0 <= sq < 64 && bit64(r.occupied, sq as u64) ==> PackedPieces::decode_slot(
            nibble(r.pieces, #[trigger] occ_slot(r.occupied, sq)),
        ) is Some
}

/// Whether the outcome field holds one of the three defined codes.
pub open spec fn outcome_field_ok(r: PackedV) -> bool {
    1 <= r.game_outcome <= 3
}

/// What decoding puts on square `sq`.
pub open spec fn decoded_square(r: PackedV, sq: int) -> Option<(Color, Piece)> {
    if bit64(r.occupied, sq as u64) {
        match PackedPieces::decode_slot(nibble(r.pieces, occ_slot(r.occupied, sq))) {
            Some((c, k, cr)) => Some((c, k)),
            None => None,
        }
    } else {
        None
    }
}

/// Castling rights and king sightings accumulated while decoding squares
/// in ascending order.
#[verifier::ext_equal]
pub ghost struct DecodeAcc {
    pub white_castling: CastlingRights,
    pub black_castling: CastlingRights,
    pub saw_white_king: bool,
    pub saw_black_king: bool,
}

impl DecodeAcc {
    /// The state before any square is decoded.
    pub open spec fn initial() -> DecodeAcc {
        DecodeAcc {
            white_castling: CastlingRights { queen_side: None, king_side: None },
            black_castling: CastlingRights { queen_side: None, king_side: None },
            saw_white_king: false,
            saw_black_king: false,
        }
    }

    /// Whether this color's king has been seen.
    pub open spec fn saw_king(self, color: Color) -> bool {
        match color {
            Color::White => self.saw_white_king,
            Color::Black => self.saw_black_king,
        }
    }

    /// The accumulated castling rights of one color.
    pub open spec fn castling(self, color: Color) -> CastlingRights {
        match color {
            Color::White => self.white_castling,
            Color::Black => self.black_castling,
        }
    }
}

/// The accumulator state after decoding the first `n` squares: a decoded
/// king marks its color as seen, and a castling-rook sentinel grants the
/// king-side right when its color's king was already seen, else the
/// queen-side right, at the rook's file.
pub open spec fn decode_acc(r: PackedV, n: int) -> DecodeAcc
    decreases n,
{
    if n <= 0 {
        DecodeAcc::initial()
    } else {
        let acc = decode_acc(r, n - 1);
        let sq = n - 1;
        if bit64(r.occupied, sq as u64) {
            match PackedPieces::decode_slot(nibble(r.pieces, occ_slot(r.occupied, sq))) {
                Some((c, k, cr)) => {
                    let acc1 = if k == Piece::King {
                        match c {
                            Color::White => DecodeAcc { saw_white_king: true, ..acc },
                            Color::Black => DecodeAcc { saw_black_king: true, ..acc },
                        }
                    } else {
                        acc
                    };
                    if cr {
                        let file = file_of(sq) as u8;
                        let rights = if acc1.saw_king(c) {
                            CastlingRights { king_side: Some(file), ..acc1.castling(c) }
                        } else {
                            CastlingRights { queen_side: Some(file), ..acc1.castling(c) }
                        };
                        match c {
                            Color::White => DecodeAcc { white_castling: rights, ..acc1 },
                            Color::Black => DecodeAcc { black_castling: rights, ..acc1 },
                        }
                    } else {
                        acc1
                    }
                },
                None => acc,
            }
        } else {
            acc
        }
    }
}

/// The position a record decodes to.
pub open spec fn decoded_position(r: PackedV) -> PositionV {
    PositionV {
        board: Seq::new(64, |sq: int| decoded_square(r, sq)),
        side_to_move: if r.side_to_move == 0 {
            Color::White
        } else {
            Color::Black
        },
        white_castling: decode_acc(r, 64).white_castling,
        black_castling: decode_acc(r, 64).black_castling,
        en_passant: if r.en_passant == 0 {
            None
        } else {
            Some(r.en_passant)
        },
        halfmove_clock: r.halfmove_clock as u32,
        fullmove_number: r.fullmove_number as u32,
    }
}

/// The outcome a record decodes to.
pub open spec fn decoded_outcome(r: PackedV) -> Outcome {
    if r.game_outcome == 3 {
        Outcome::Draw
    } else if r.game_outcome == 2 {
        Outcome::Winner(Color::White)
    } else {
        Outcome::Winner(Color::Black)
    }
}

/// The evaluation a record decodes to.
pub open spec fn decoded_eval(r: PackedV) -> Option<i16> {
    if r.eval == NO_EVAL {
        None
    } else {
        Some(r.eval)
    }
}

/// Whether decoding the record succeeds: every field is decodable and the
/// assembled position is accepted by the chess rules.
pub open spec fn unpack_accepts(r: PackedV) -> bool {
    &&& ep_field_ok(r)
    &&& stm_field_ok(r)
    &&& count_field_ok(r)
    &&& pieces_field_ok(r)
    &&& crate::rules::rules_ok(decoded_position(r))
    &&& outcome_field_ok(r)
}

/// The sample an accepted record decodes to.
pub open spec fn unpack_sample(r: PackedV) -> crate::chess::SampleV {
    crate::chess::SampleV {
        position: decoded_position(r),
        outcome: decoded_outcome(r),
        eval: decoded_eval(r),
    }
}

impl PackedSample {
    /// Decodes the record back into a sample, rebuilding the board square
    /// by square in ascending index order and validating the result
    /// through the chess rules engine. Each error names the first field,
    /// in decoding order, that cannot be decoded.
    pub fn unpack(&self) -> (r: Result<Sample, UnpackError>)
        ensures
            r is Ok <==> unpack_accepts(self@),
            r matches Ok(s) ==> s@ == unpack_sample(self@) && s@.position.wf(),
            r matches Err(e) ==> match e {
                UnpackError::InvalidEnPassant => !ep_field_ok(self@),
                UnpackError::InvalidSideToMove => ep_field_ok(self@) && !stm_field_ok(self@),
                UnpackError::TooManyPieces => ep_field_ok(self@) && stm_field_ok(self@)
                    && !count_field_ok(self@),
                UnpackError::InvalidPiece => ep_field_ok(self@) && stm_field_ok(self@)
                    && count_field_ok(self@) && !pieces_field_ok(self@),
                UnpackError::InvalidPosition(m) => ep_field_ok(self@) && stm_field_ok(self@)
                    && count_field_ok(self@) && pieces_field_ok(self@) && !crate::rules::rules_ok(
                    decoded_position(self@),
                ) && m@ == crate::rules::rules_message(decoded_position(self@)),
                UnpackError::InvalidOutcome => ep_field_ok(self@) && stm_field_ok(self@)
                    && count_field_ok(self@) && pieces_field_ok(self@) && crate::rules::rules_ok(
                    decoded_position(self@),
                ) && !outcome_field_ok(self@),
            },
    {
        let ghost rv = self@;

        let en_passant = if self.en_passant != 0 {
            if self.en_passant >= 64 {
                return Err(UnpackError::InvalidEnPassant);
            }
            Some(self.en_passant)
        } else {
            None
        };

        let side_to_move = match self.side_to_move {
            0 => Color::White,
            1 => Color::Black,
            _ => {
                return Err(UnpackError::InvalidSideToMove);
            },
        };

        let occupied = self.occupied;
        let mut count: u32 = 0;
        for sq in 0..64u64
            invariant
                occupied == rv.occupied,
                count as int == count_bits_up_to(occupied, sq as int),
                count as int <= sq as int,
        {
            if (occupied >> sq) & 1 == 1 {
                count = count + 1;
            }
        }
        if count > 32 {
            return Err(UnpackError::TooManyPieces);
        }

        let mut board: Vec<Option<(Color, Piece)>> = Vec::new();
        let mut white_castling = CastlingRights::none();
        let mut black_castling = CastlingRights::none();
        let mut saw_white_king = false;
        let mut saw_black_king = false;
        let mut n: usize = 0;
        for sq in 0..64u64
            invariant
                occupied == rv.occupied,
                self@ == rv,
                rv.pieces.len() == 16,
                ep_field_ok(rv),
                stm_field_ok(rv),
                count as int == count_bits(occupied),
                count <= 32,
                n as int == count_bits_up_to(occupied, sq as int),
                board@.len() == sq as int,
                forall|j: int| 0 <= j < sq ==> board@[j] == decoded_square(rv, j),
                forall|j: int|
                    0 <= j < sq && bit64(occupied, j as u64) ==> PackedPieces::decode_slot(
                        nibble(rv.pieces, #[trigger] occ_slot(occupied, j)),
                    ) is Some,
                decode_acc(rv, sq as int) == (DecodeAcc {
                    white_castling,
                    black_castling,
                    saw_white_king,
                    saw_black_king,
                }),
                white_castling.wf(),
                black_castling.wf(),
        {
            proof {
                lemma_count_bits_bounds(occupied, sq as int + 1, 64);
            }
            if (occupied >> sq) & 1 == 1 {
                match self.pieces.get(n) {
                    None => {
                        proof {
                            assert(PackedPieces::decode_slot(
                                nibble(rv.pieces, occ_slot(rv.occupied, sq as int)),
                            ) is None);
                            assert(!pieces_field_ok(rv));
                        }
                        return Err(UnpackError::InvalidPiece);
                    },
                    Some((color, piece, is_castling_rook)) => {
                        if piece == Piece::King {
                            match color {
                                Color::White => saw_white_king = true,
                                Color::Black => saw_black_king = true,
                            }
                        }
                        if is_castling_rook {
                            let file = (sq % 8) as u8;
                            match color {
                                Color::White => {
                                    if saw_white_king {
                                        white_castling.king_side = Some(file);
                                    } else {
                                        white_castling.queen_side = Some(file);
                                    }
                                },
                                Color::Black => {
                                    if saw_black_king {
                                        black_castling.king_side = Some(file);
                                    } else {
                                        black_castling.queen_side = Some(file);
                                    }
                                },
                            }
                        }
                        board.push(Some((color, piece)));
                        n = n + 1;
                    },
                }
            } else {
                board.push(None);
            }
        }

        let position = Position {
            board,
            side_to_move,
            white_castling,
            black_castling,
            en_passant,
            halfmove_clock: self.halfmove_clock as u32,
            fullmove_number: self.fullmove_number as u32,
        };
        proof {
            assert(position@.board =~= decoded_position(rv).board);
            assert(position@ =~= decoded_position(rv));
        }

        if let Some(msg) = crate::rules::check_rules(&position) {
            return Err(UnpackError::InvalidPosition(msg));
        }

        let outcome = match self.game_outcome {
            0b11 => Outcome::Draw,
            0b10 => Outcome::Winner(Color::White),
            0b01 => Outcome::Winner(Color::Black),
            _ => {
                return Err(UnpackError::InvalidOutcome);
            },
        };

        let eval = if self.eval == NO_EVAL {
            None
        } else {
            Some(self.eval)
        };

        Ok(Sample { position, outcome, eval })
    }
}

/// The size of one packed record on disk, in bytes.
pub const RECORD_SIZE: usize = 32;

/// The byte of a 64-bit occupancy set found `s` bits up, for `s` a
/// multiple of 8 below 64.
pub open spec fn occ_byte(x: u64, s: u64) -> u8 {
    ((x >> s) & 0xff) as u8
}

/// The on-disk serialization of a record: the 16 piece-table bytes, the
/// occupancy in little-endian order, the evaluation and fullmove number in
/// little-endian order, then the four single-byte fields.
pub open spec fn record_bytes(r: PackedV) -> Seq<u8> {
    Seq::new(
        32,
        |i: int|
            {
                if i < 16 {
                    r.pieces[i]
                } else if i < 24 {
                    occ_byte(r.occupied, (8 * (i - 16)) as u64)
                } else if i == 24 {
                    (((r.eval as u16) & 0xff) as u8)
                } else if i == 25 {
                    ((((r.eval as u16) >> 8) & 0xff) as u8)
                } else if i == 26 {
                    ((r.fullmove_number & 0xff) as u8)
                } else if i == 27 {
                    (((r.fullmove_number >> 8) & 0xff) as u8)
                } else if i == 28 {
                    r.halfmove_clock
                } else if i == 29 {
                    r.en_passant
                } else if i == 30 {
                    r.side_to_move
                } else {
                    r.game_outcome
                }
            },
    )
}

/// No two records serialize to the same bytes: the serialization
/// determines every field.
pub proof fn lemma_record_bytes_injective(a: PackedV, b: PackedV)
    requires
        a.pieces.len() == 16,
        b.pieces.len() == 16,
        record_bytes(a) == record_bytes(b),
    ensures
        a == b,
{
    assert forall|i: int| 0 <= i < 16 implies a.pieces[i] == b.pieces[i] by {
        assert(record_bytes(a)[i] == a.pieces[i]);
        assert(record_bytes(b)[i] == b.pieces[i]);
        assert(record_bytes(a)[i] == record_bytes(b)[i]);
    }
    assert(a.pieces =~= b.pieces);
    let x = a.occupied;
    let y = b.occupied;
    assert(record_bytes(a)[16] == occ_byte(x, 0) && record_bytes(a)[17] == occ_byte(x, 8)
        && record_bytes(a)[18] == occ_byte(x, 16) && record_bytes(a)[19] == occ_byte(x, 24)
        && record_bytes(a)[20] == occ_byte(x, 32) && record_bytes(a)[21] == occ_byte(x, 40)
        && record_bytes(a)[22] == occ_byte(x, 48) && record_bytes(a)[23] == occ_byte(x, 56));
    assert(record_bytes(b)[16] == occ_byte(y, 0) && record_bytes(b)[17] == occ_byte(y, 8)
        && record_bytes(b)[18] == occ_byte(y, 16) && record_bytes(b)[19] == occ_byte(y, 24)
        && record_bytes(b)[20] == occ_byte(y, 32) && record_bytes(b)[21] == occ_byte(y, 40)
        && record_bytes(b)[22] == occ_byte(y, 48) && record_bytes(b)[23] == occ_byte(y, 56));
    assert(occ_byte(x, 0) == occ_byte(y, 0) && occ_byte(x, 8) == occ_byte(y, 8) && occ_byte(x, 16)
        == occ_byte(y, 16) && occ_byte(x, 24) == occ_byte(y, 24) && occ_byte(x, 32) == occ_byte(
        y,
        32,
    ) && occ_byte(x, 40) == occ_byte(y, 40) && occ_byte(x, 48) == occ_byte(y, 48) && occ_byte(
        x,
        56,
    ) == occ_byte(y, 56) ==> x == y) by (bit_vector);
    let e = a.eval;
    let g = b.eval;
    assert(record_bytes(a)[24] == record_bytes(b)[24] && record_bytes(a)[25] == record_bytes(b)[25]);
    assert(record_bytes(a)[24] == (((e as u16) & 0xff) as u8) && record_bytes(a)[25] == ((((e
        as u16) >> 8) & 0xff) as u8));
    assert(record_bytes(b)[24] == (((g as u16) & 0xff) as u8) && record_bytes(b)[25] == ((((g
        as u16) >> 8) & 0xff) as u8));
    assert((((e as u16) & 0xff) as u8) == (((g as u16) & 0xff) as u8) && ((((e as u16) >> 8) & 0xff)
        as u8) == ((((g as u16) >> 8) & 0xff) as u8) ==> e == g) by (bit_vector);
    let m = a.fullmove_number;
    let w = b.fullmove_number;
    assert(record_bytes(a)[26] == record_bytes(b)[26] && record_bytes(a)[27] == record_bytes(b)[27]);
    assert(record_bytes(a)[26] == ((m & 0xff) as u8) && record_bytes(a)[27] == (((m >> 8) & 0xff)
        as u8));
    assert(record_bytes(b)[26] == ((w & 0xff) as u8) && record_bytes(b)[27] == (((w >> 8) & 0xff)
        as u8));
    assert(((m & 0xff) as u8) == ((w & 0xff) as u8) && (((m >> 8) & 0xff) as u8) == (((w >> 8)
        & 0xff) as u8) ==> m == w) by (bit_vector);
    assert(record_bytes(a)[28] == record_bytes(b)[28]);
    assert(record_bytes(a)[29] == record_bytes(b)[29]);
    assert(record_bytes(a)[30] == record_bytes(b)[30]);
    assert(record_bytes(a)[31] == record_bytes(b)[31]);
    assert(a.occupied == b.occupied);
    assert(a.eval == b.eval);
    assert(a.fullmove_number == b.fullmove_number);
    assert(record_bytes(a)[28] == a.halfmove_clock && record_bytes(b)[28] == b.halfmove_clock);
    assert(record_bytes(a)[29] == a.en_passant && record_bytes(b)[29] == b.en_passant);
    assert(record_bytes(a)[30] == a.side_to_move && record_bytes(b)[30] == b.side_to_move);
    assert(record_bytes(a)[31] == a.game_outcome && record_bytes(b)[31] == b.game_outcome);
    assert(a =~= b);
}

proof fn lemma_occ_byte_zero()
    by (bit_vector)
    ensures
        forall|s: u64| s < 64 ==> #[trigger] occ_byte(0u64, s) == 0,
{
}

impl PackedSample {
    /// Serializes the record into its 32-byte on-disk form.
    pub fn to_bytes(&self) -> (r: Vec<u8>)
        ensures
            r@ =~= record_bytes(self@),
    {
        let mut out: Vec<u8> = Vec::new();
        let mut i: usize = 0;
        while i < 16
            invariant
                i <= 16,
                out@.len() == i as int,
                forall|j: int| 0 <= j < i ==> out@[j] == self@.pieces[j],
                self@.pieces.len() == 16,
            decreases 16 - i,
        {
            out.push(self.pieces.0[i]);
            i += 1;
        }
        let occ = self.occupied;
        let mut k: usize = 0;
        while k < 8
            invariant
                k <= 8,
                occ == self@.occupied,
                out@.len() == 16 + k as int,
                forall|j: int| 0 <= j < 16 ==> out@[j] == self@.pieces[j],
                self@.pieces.len() == 16,
                forall|s: u64|
                    s % 8 == 0 && (s as int) < 8 * (k as int) ==> #[trigger] occ_byte(occ, s)
                        == out@[16 + (s as int) / 8],
            decreases 8 - k,
        {
            let shift = (k as u64) * 8;
            let byte = #[verifier::truncate] ((occ >> shift) as u8);
            proof {
                let s = shift;
                assert(s < 64 ==> ((occ >> s) as u8) == (((occ >> s) & 0xff) as u8)) by (bit_vector);
                assert(byte == occ_byte(occ, s));
            }
            out.push(byte);
            k += 1;
        }
        let ebits = #[verifier::truncate] (self.eval as u16);
        out.push(#[verifier::truncate] (ebits as u8));
        out.push(#[verifier::truncate] ((ebits >> 8) as u8));
        let fm = self.fullmove_number;
        out.push(#[verifier::truncate] (fm as u8));
        out.push(#[verifier::truncate] ((fm >> 8) as u8));
        out.push(self.halfmove_clock);
        out.push(self.en_passant);
        out.push(self.side_to_move);
        out.push(self.game_outcome);
        proof {
            let e = ebits;
            assert((e as u8) == ((e & 0xff) as u8) && ((e >> 8) as u8) == (((e >> 8) & 0xff) as u8))
                by (bit_vector);
            assert((fm as u8) == ((fm & 0xff) as u8) && ((fm >> 8) as u8) == (((fm >> 8) & 0xff)
                as u8)) by (bit_vector);
            assert forall|i: int| 0 <= i < 32 implies out@[i] == record_bytes(self@)[i] by {
                if 16 <= i < 24 {
                    let s = (8 * (i - 16)) as u64;
                    assert(out@[16 + (s as int) / 8] == occ_byte(occ, s));
                }
            }
            assert(out@ =~= record_bytes(self@));
        }
        out
    }

    /// Reads the record whose serialization starts at `offset`: the
    /// returned record serializes back to exactly those 32 bytes. Every
    /// 32-byte string is the serialization of one record.
    pub fn from_bytes(bytes: &Vec<u8>, offset: usize) -> (r: PackedSample)
        requires
            offset + RECORD_SIZE <= bytes@.len(),
        ensures
            r@.pieces.len() == 16,
            record_bytes(r@) =~= bytes@.subrange(offset as int, offset as int + 32),
    {
        let n = bytes.len();
        let mut pieces = PackedPieces([0u8; 16]);
        let mut i: usize = 0;
        while i < 16
            invariant
                i <= 16,
                n == bytes@.len(),
                offset + 32 <= n,
                pieces@.len() == 16,
                forall|j: int| 0 <= j < i ==> pieces@[j] == bytes@[offset + j],
            decreases 16 - i,
        {
            pieces.0[i] = bytes[offset + i];
            i += 1;
        }
        let mut occ: u64 = 0;
        let mut k: usize = 0;
        proof {
            lemma_occ_byte_zero();
        }
        while k < 8
            invariant
                k <= 8,
                n == bytes@.len(),
                offset + 32 <= n,
                forall|s: u64|
                    s % 8 == 0 && (s as int) < 8 * (k as int) ==> #[trigger] occ_byte(occ, s)
                        == bytes@[offset + 16 + (s as int) / 8],
                forall|s: u64|
                    s % 8 == 0 && 8 * (k as int) <= (s as int) < 64 ==> #[trigger] occ_byte(occ, s)
                        == 0,
            decreases 8 - k,
        {
            let byte = bytes[offset + 16 + k];
            let shift = (k as u64) * 8;
            let ghost occ0 = occ;
            occ = occ | ((byte as u64) << shift);
            proof {
                let s0 = shift;
                let b = byte;
                assert forall|s: u64| s % 8 == 0 && s < 64 implies #[trigger] occ_byte(occ, s) == (
                if s == s0 {
                    b
                } else {
                    occ_byte(occ0, s)
                }) by {
                    assert(s0 < 64 && s % 8 == 0 && s0 % 8 == 0 && s < 64 && occ_byte(occ0, s0) == 0
                        ==> occ_byte((occ0 | ((b as u64) << s0)), s) == (if s == s0 {
                        b
                    } else {
                        occ_byte(occ0, s)
                    })) by (bit_vector);
                }
            }
            k += 1;
        }
        let eval_bits: u16 = (bytes[offset + 24] as u16) | ((bytes[offset + 25] as u16) << 8);
        let eval: i16 = #[verifier::truncate] (eval_bits as i16);
        let fullmove: u16 = (bytes[offset + 26] as u16) | ((bytes[offset + 27] as u16) << 8);
        let r = PackedSample {
            pieces,
            occupied: occ,
            eval,
            fullmove_number: fullmove,
            halfmove_clock: bytes[offset + 28],
            en_passant: bytes[offset + 29],
            side_to_move: bytes[offset + 30],
            game_outcome: bytes[offset + 31],
        };
        proof {
            let e = eval_bits;
            assert(((e as i16) as u16) == e) by (bit_vector);
            let lo = bytes@[offset + 24];
            let hi = bytes@[offset + 25];
            assert(((((lo as u16) | ((hi as u16) << 8)) & 0xff) as u8) == lo && (((((lo as u16) | ((
            hi as u16) << 8)) >> 8) & 0xff) as u8) == hi) by (bit_vector);
            let flo = bytes@[offset + 26];
            let fhi = bytes@[offset + 27];
            assert(((((flo as u16) | ((fhi as u16) << 8)) & 0xff) as u8) == flo && (((((flo as u16)
                | ((fhi as u16) << 8)) >> 8) & 0xff) as u8) == fhi) by (bit_vector);
            assert forall|i: int| 0 <= i < 32 implies record_bytes(r@)[i] == bytes@[offset + i] by {
                if 16 <= i < 24 {
                    let s = (8 * (i - 16)) as u64;
                    assert(occ_byte(occ, s) == bytes@[offset + 16 + (s as int) / 8]);
                }
            }
        }
        r
    }
}

/// The views of a sequence of packed records.
pub open spec fn record_views(s: Seq<PackedSample>) -> Seq<PackedV> {
    s.map_values(|r: PackedSample| r@)
}

/// Whether square `sq` holds this color's king.
pub open spec fn is_king_at(p: PositionV, color: Color, sq: int) -> bool {
    0 <= sq < 64 && p.board[sq] == Some((color, Piece::King))
}

/// The square of a castling-eligible rook: the given file on its color's
/// back rank.
pub open spec fn castling_square(color: Color, file: u8) -> int {
    crate::chess::square_at(file as int, back_rank_spec(color))
}

/// The castling rights are witnessed by the board as decoding relies on:
/// each named file holds this color's rook on its back rank, the
/// queen-side rook stands before every king of its color in square order,
/// and the king-side rook stands after one.
pub open spec fn castling_consistent(p: PositionV, color: Color) -> bool {
    &&& (p.castling(color).queen_side matches Some(f) ==> {
        let rsq = castling_square(color, f);
        &&& p.board[rsq] == Some((color, Piece::Rook))
        &&& forall|k: int| is_king_at(p, color, k) ==> rsq < k
    })
    &&& (p.castling(color).king_side matches Some(f) ==> {
        let rsq = castling_square(color, f);
        &&& p.board[rsq] == Some((color, Piece::Rook))
        &&& exists|k: int| is_king_at(p, color, k) && k < rsq
    })
}

/// A sample the record format represents exactly: a well-formed board
/// with at most 32 occupied squares, castling rights witnessed by the
/// board, no en-passant target on square 0, a halfmove clock within the
/// stored byte, a fullmove number within the stored word, and no
/// evaluation equal to the absence sentinel. Every position reachable by
/// legal play that respects these counter bounds satisfies this.
pub open spec fn representable(s: crate::chess::SampleV) -> bool {
    &&& s.position.wf()
    &&& s.position.piece_count() <= 32
    &&& castling_consistent(s.position, Color::White)
    &&& castling_consistent(s.position, Color::Black)
    &&& (s.position.en_passant matches Some(sq) ==> sq != 0)
    &&& s.position.halfmove_clock <= 255
    &&& s.position.fullmove_number <= 65535
    &&& s.eval != Some(NO_EVAL)
}

/// The castling rights of one color restricted to the rooks whose squares
/// were already decoded: what the decoder has granted after `n` squares.
pub open spec fn partial_rights(p: PositionV, color: Color, n: int) -> CastlingRights {
    CastlingRights {
        queen_side: match p.castling(color).queen_side {
            Some(f) => if castling_square(color, f) < n {
                Some(f)
            } else {
                None
            },
            None => None,
        },
        king_side: match p.castling(color).king_side {
            Some(f) => if castling_square(color, f) < n {
                Some(f)
            } else {
                None
            },
            None => None,
        },
    }
}

/// Occupancy bits that mirror the board count the same squares.
proof fn lemma_counts_agree(s: crate::chess::SampleV, r: PackedV, m: int)
    requires
        packs_to(s, r),
        s.position.wf(),
        0 <= m <= 64,
    ensures
        count_bits_up_to(r.occupied, m) == s.position.count_up_to(m),
    decreases m,
{
    if m > 0 {
        lemma_counts_agree(s, r, m - 1);
        assert(bit64(r.occupied, (m - 1) as u64) == (s.position.board[m - 1] is Some));
    }
}

/// The nibble arithmetic behind a slot value: color and piece bits are
/// recovered intact.
proof fn lemma_nibble_fields(cb: u8, code: u8)
    by (bit_vector)
    requires
        cb == 0 || cb == 8,
        1 <= code,
        code <= 7,
    ensures
        (((cb + code) as u8) & 8) == cb,
        (((cb + code) as u8) & 7) == code,
{
}

/// Decoding the slot that packing wrote for an occupied square yields the
/// square's own color and piece, with the castling-rook flag exactly for
/// the sentinel.
proof fn lemma_slot_decodes(s: crate::chess::SampleV, r: PackedV, sq: int)
    requires
        packs_to(s, r),
        s.position.wf(),
        0 <= sq < 64,
        s.position.board[sq] is Some,
    ensures
        ({
            let (c, k) = s.position.board[sq]->Some_0;
            &&& occ_slot(r.occupied, sq) == s.position.slot_of(sq)
            &&& PackedPieces::decode_slot(nibble(r.pieces, occ_slot(r.occupied, sq))) == Some(
                (c, k, is_castling_rook(s.position, sq, c, k)),
            )
        }),
{
    let p = s.position;
    let (c, k) = p.board[sq]->Some_0;
    lemma_counts_agree(s, r, sq);
    assert(nibble(r.pieces, p.slot_of(sq)) == slot_for(p, sq));
    let cb = color_bits(c);
    if is_castling_rook(p, sq, c, k) {
        lemma_nibble_fields(cb, CASTLING_ROOK);
    } else {
        lemma_nibble_fields(cb, (k.index_spec() + 1) as u8);
    }
}

/// After any number of decoded squares, the decoder's king sightings and
/// granted castling rights are exactly those whose witnessing squares
/// have been passed.
proof fn lemma_decode_acc(s: crate::chess::SampleV, r: PackedV, n: int)
    requires
        representable(s),
        packs_to(s, r),
        0 <= n <= 64,
    ensures
        decode_acc(r, n).saw_white_king == (exists|k: int|
            is_king_at(s.position, Color::White, k) && k < n),
        decode_acc(r, n).saw_black_king == (exists|k: int|
            is_king_at(s.position, Color::Black, k) && k < n),
        decode_acc(r, n).white_castling == partial_rights(s.position, Color::White, n),
        decode_acc(r, n).black_castling == partial_rights(s.position, Color::Black, n),
    decreases n,
{
    let p = s.position;
    if n > 0 {
        lemma_decode_acc(s, r, n - 1);
        let sq = n - 1;
        let acc = decode_acc(r, sq);
        if p.board[sq] is Some {
            let (c, k) = p.board[sq]->Some_0;
            lemma_slot_decodes(s, r, sq);
            assert(bit64(r.occupied, sq as u64));
            let cr = is_castling_rook(p, sq, c, k);
            if k == Piece::King {
                assert(is_king_at(p, c, sq));
                assert(!cr);
                assert(decode_acc(r, n).castling(Color::White) == acc.castling(Color::White));
                assert(decode_acc(r, n).castling(Color::Black) == acc.castling(Color::Black));
                lemma_no_castling_square_here(p, Color::White, sq, c, k, n);
                lemma_no_castling_square_here(p, Color::Black, sq, c, k, n);
            } else {
                assert(forall|col: Color| !is_king_at(p, col, sq));
                if cr {
                    let file = file_of(sq) as u8;
                    lemma_castling_rook_cases(s, r, sq, c, k, n);
                } else {
                    lemma_no_castling_square_here(p, Color::White, sq, c, k, n);
                    lemma_no_castling_square_here(p, Color::Black, sq, c, k, n);
                }
            }
        } else {
            assert(forall|col: Color| !is_king_at(p, col, sq));
            assert forall|col: Color| partial_rights(p, col, n) == partial_rights(p, col, sq) by {
                lemma_empty_not_castling_square(p, col, sq, n);
            }
            assert(decode_acc(r, n) == acc);
        }
    }
}

/// A square that does not hold this color's castling rook is not one of
/// its castling squares, so passing it grants nothing.
proof fn lemma_no_castling_square_here(p: PositionV, color: Color, sq: int, c: Color, k: Piece, n: int)
    requires
        p.wf(),
        castling_consistent(p, color),
        0 <= sq < 64,
        n == sq + 1,
        p.board[sq] == Some((c, k)),
        !is_castling_rook(p, sq, c, k) || k != Piece::Rook || c != color,
    ensures
        partial_rights(p, color, n) == partial_rights(p, color, sq),
{
    if let Some(f) = p.castling(color).queen_side {
        if castling_square(color, f) == sq {
            assert(p.board[sq] == Some((color, Piece::Rook)));
            assert(rank_of(sq) == back_rank_spec(color) && file_of(sq) == f);
            assert(is_castling_rook(p, sq, color, Piece::Rook));
        }
    }
    if let Some(f) = p.castling(color).king_side {
        if castling_square(color, f) == sq {
            assert(p.board[sq] == Some((color, Piece::Rook)));
            assert(rank_of(sq) == back_rank_spec(color) && file_of(sq) == f);
            assert(is_castling_rook(p, sq, color, Piece::Rook));
        }
    }
}

/// An empty square is not a castling square of either color.
proof fn lemma_empty_not_castling_square(p: PositionV, color: Color, sq: int, n: int)
    requires
        p.wf(),
        castling_consistent(p, color),
        0 <= sq < 64,
        n == sq + 1,
        p.board[sq] is None,
    ensures
        partial_rights(p, color, n) == partial_rights(p, color, sq),
{
}

/// Decoding the castling-rook sentinel grants exactly the right that the
/// rook's square witnesses: the queen-side right when no king of its
/// color has been passed, the king-side right otherwise.
proof fn lemma_castling_rook_cases(
    s: crate::chess::SampleV,
    r: PackedV,
    sq: int,
    c: Color,
    k: Piece,
    n: int,
)
    requires
        representable(s),
        packs_to(s, r),
        0 <= sq < 64,
        n == sq + 1,
        s.position.board[sq] == Some((c, k)),
        is_castling_rook(s.position, sq, c, k),
        decode_acc(r, sq).saw_white_king == (exists|x: int|
            is_king_at(s.position, Color::White, x) && x < sq),
        decode_acc(r, sq).saw_black_king == (exists|x: int|
            is_king_at(s.position, Color::Black, x) && x < sq),
        decode_acc(r, sq).white_castling == partial_rights(s.position, Color::White, sq),
        decode_acc(r, sq).black_castling == partial_rights(s.position, Color::Black, sq),
    ensures
        decode_acc(r, n).saw_white_king == decode_acc(r, sq).saw_white_king,
        decode_acc(r, n).saw_black_king == decode_acc(r, sq).saw_black_king,
        decode_acc(r, n).white_castling == partial_rights(s.position, Color::White, n),
        decode_acc(r, n).black_castling == partial_rights(s.position, Color::Black, n),
{
    let p = s.position;
    lemma_slot_decodes(s, r, sq);
    assert(k == Piece::Rook);
    let file = file_of(sq) as u8;
    let other = c.opposite_spec();
    assert(file_of(sq) == file as int && rank_of(sq) == back_rank_spec(c));
    assert(castling_square(c, file) == sq);
    // The sentinel file is the queen-side or the king-side right of `c`.
    if p.castling(c).queen_side == Some(file) {
        // The rook stands before every king of its color, so no king has
        // been passed yet.
        assert(forall|x: int| is_king_at(p, c, x) ==> sq < x);
        assert(!decode_acc(r, sq).saw_king(c));
        if p.castling(c).king_side == Some(file) {
            // Then a king would stand both before and after this square.
            assert(exists|x: int| is_king_at(p, c, x) && x < sq);
            assert(false);
        }
        assert(decode_acc(r, n).castling(c) == (CastlingRights {
            queen_side: Some(file),
            ..decode_acc(r, sq).castling(c)
        }));
        assert(partial_rights(p, c, n) == (CastlingRights {
            queen_side: Some(file),
            ..partial_rights(p, c, sq)
        }));
    } else {
        assert(p.castling(c).king_side == Some(file));
        assert(exists|x: int| is_king_at(p, c, x) && x < castling_square(c, file));
        assert(decode_acc(r, sq).saw_king(c));
        assert(decode_acc(r, n).castling(c) == (CastlingRights {
            king_side: Some(file),
            ..decode_acc(r, sq).castling(c)
        }));
        assert(partial_rights(p, c, n) == (CastlingRights {
            king_side: Some(file),
            ..partial_rights(p, c, sq)
        }));
    }
    // The other color's bookkeeping is untouched.
    assert(decode_acc(r, n).castling(other) == decode_acc(r, sq).castling(other));
    lemma_no_castling_square_here(p, other, sq, c, k, n);
    assert(forall|col: Color| !is_king_at(p, col, sq));
}

/// The board a packed record decodes to is the board that was packed.
proof fn lemma_decoded_board(s: crate::chess::SampleV, r: PackedV)
    requires
        packs_to(s, r),
        s.position.wf(),
    ensures
        forall|sq: int| 0 <= sq < 64 ==> #[trigger] decoded_square(r, sq) == s.position.board[sq],
        pieces_field_ok(r),
{
    assert forall|sq: int| 0 <= sq < 64 implies #[trigger] decoded_square(r, sq)
        == s.position.board[sq] by {
        if s.position.board[sq] is Some {
            lemma_slot_decodes(s, r, sq);
        } else {
            assert(!bit64(r.occupied, sq as u64));
        }
    }
    assert forall|sq: int| 0 <= sq < 64 && bit64(r.occupied, sq as u64) implies
        PackedPieces::decode_slot(nibble(r.pieces, #[trigger] occ_slot(r.occupied, sq)))
        is Some by {
        assert(s.position.board[sq] is Some);
        lemma_slot_decodes(s, r, sq);
    }
}

/// The round-trip law: packing a representable sample whose position the
/// chess rules accept, and decoding the packed record, gives back exactly
/// the sample. Together with the contracts of [`Sample::pack`] and
/// [`PackedSample::unpack`] this says `unpack(pack(s)) == Ok(s)` for every
/// such sample, castling rights and en-passant target included.
pub proof fn lemma_pack_unpack_roundtrip(s: crate::chess::SampleV, r: PackedV)
    requires
        representable(s),
        crate::rules::rules_ok(s.position),
        packs_to(s, r),
    ensures
        unpack_accepts(r),
        unpack_sample(r) == s,
{
    let p = s.position;
    lemma_counts_agree(s, r, 64);
    lemma_decoded_board(s, r);
    lemma_decode_acc(s, r, 64);
    assert(decoded_position(r).board =~= p.board);
    assert forall|col: Color| partial_rights(p, col, 64) == p.castling(col) by {
        if let Some(f) = p.castling(col).queen_side {
            assert(castling_square(col, f) < 64);
        }
        if let Some(f) = p.castling(col).king_side {
            assert(castling_square(col, f) < 64);
        }
    }
    assert(decoded_position(r) =~= p);
    assert(unpack_sample(r).position == p);
    assert(unpack_sample(r).outcome == s.outcome);
    assert(unpack_sample(r).eval == s.eval);
    assert(unpack_sample(r) =~= s);
}

} // verus!
