//! The boundary to the chess rules engine.
//!
//! Decoding rebuilds a position square by square and then asks the rules
//! engine whether the assembled position is legal. The engine's board
//! builder is driven through small trusted wrappers; what a builder holds
//! is named by [`setup_model`], and the engine's verdict on a position by
//! [`rules_ok`], so the codec's contracts can speak of both.

use vstd::prelude::*;
use crate::chess::{CastlingRights, Color, Piece, Position, PositionV};

verus! {

#[verifier::external_type_specification]
#[verifier::external_body]
pub struct ExSetup(dama::position::Setup);

/// The position that a rules-engine board builder currently holds.
pub uninterp spec fn setup_model(s: dama::position::Setup) -> PositionV;

/// Whether the rules engine accepts the position as legal. The verdict
/// depends on the position alone.
pub uninterp spec fn rules_ok(p: PositionV) -> bool;

/// The rules engine's description of why it rejects a position. Like the
/// verdict, the text depends on the position alone.
pub uninterp spec fn rules_message(p: PositionV) -> Seq<char>;

/// What an empty board builder holds: no pieces, white to move, no
/// castling rights, no en-passant square, clocks 0 and 1.
pub open spec fn empty_setup_model() -> PositionV {
    PositionV {
        board: Seq::new(64, |i: int| None),
        side_to_move: Color::White,
        white_castling: CastlingRights { queen_side: None, king_side: None },
        black_castling: CastlingRights { queen_side: None, king_side: None },
        en_passant: None,
        halfmove_clock: 0,
        fullmove_number: 1,
    }
}

/// Relies on dama's `Setup::new_empty`: a builder with no pieces, white to
/// move, no castling rights, no en passant, halfmove clock 0, fullmove
/// number 1.
#[verifier::external_body]
fn setup_new() -> (s: dama::position::Setup)
    ensures
        setup_model(s) == empty_setup_model(),
{
    dama::position::Setup::new_empty()
}

/// Relies on dama's `Setup::put_piece`: the square now holds exactly the
/// given piece, and nothing else changes.
#[verifier::external_body]
fn setup_put_piece(s: &mut dama::position::Setup, square: u8, color: Color, piece: Piece)
    requires
        square < 64,
    ensures
        setup_model(*final(s)) == (PositionV {
            board: setup_model(*old(s)).board.update(square as int, Some((color, piece))),
            ..setup_model(*old(s))
        }),
{
    let sq = dama::Square::from_index(square as usize);
    let c = match color {
        Color::White => dama::Color::White,
        Color::Black => dama::Color::Black,
    };
    let k = match piece {
        Piece::Pawn => dama::Piece::Pawn,
        Piece::Knight => dama::Piece::Knight,
        Piece::Bishop => dama::Piece::Bishop,
        Piece::Rook => dama::Piece::Rook,
        Piece::Queen => dama::Piece::Queen,
        Piece::King => dama::Piece::King,
    };
    s.put_piece(sq, c, k);
}

/// Relies on dama's `Setup::set_side_to_move`: only the side to move
/// changes.
#[verifier::external_body]
fn setup_set_side_to_move(s: &mut dama::position::Setup, color: Color)
    ensures
        setup_model(*final(s)) == (PositionV { side_to_move: color, ..setup_model(*old(s)) }),
{
    let c = match color {
        Color::White => dama::Color::White,
        Color::Black => dama::Color::Black,
    };
    s.set_side_to_move(c);
}

/// Relies on dama's `Setup::set_en_passant`: only the en-passant square
/// changes.
#[verifier::external_body]
fn setup_set_en_passant(s: &mut dama::position::Setup, square: u8)
    requires
        square < 64,
    ensures
        setup_model(*final(s)) == (PositionV {
            en_passant: Some(square),
            ..setup_model(*old(s))
        }),
{
    let sq = dama::Square::from_index(square as usize);
    s.set_en_passant(Some(sq));
}

/// Relies on dama's `Setup::set_halfmove_clock`: only the halfmove clock
/// changes.
#[verifier::external_body]
fn setup_set_halfmove_clock(s: &mut dama::position::Setup, clock: u32)
    ensures
        setup_model(*final(s)) == (PositionV { halfmove_clock: clock, ..setup_model(*old(s)) }),
{
    s.set_halfmove_clock(clock);
}

/// Relies on dama's `Setup::set_fullmove_number`: only the fullmove number
/// changes.
#[verifier::external_body]
fn setup_set_fullmove_number(s: &mut dama::position::Setup, number: u32)
    ensures
        setup_model(*final(s)) == (PositionV { fullmove_number: number, ..setup_model(*old(s)) }),
{
    s.set_fullmove_number(number);
}

/// Relies on dama's `Setup::set_castling`: only the given color's castling
/// rights change.
#[verifier::external_body]
fn setup_set_castling(s: &mut dama::position::Setup, color: Color, rights: CastlingRights)
    requires
        rights.wf(),
    ensures
        setup_model(*final(s)) == (match color {
            Color::White => PositionV { white_castling: rights, ..setup_model(*old(s)) },
            Color::Black => PositionV { black_castling: rights, ..setup_model(*old(s)) },
        }),
{
    let c = match color {
        Color::White => dama::Color::White,
        Color::Black => dama::Color::Black,
    };
    let queen_side = match rights.queen_side {
        Some(f) => Some(dama::File::from_index(f as usize)),
        None => None,
    };
    let king_side = match rights.king_side {
        Some(f) => Some(dama::File::from_index(f as usize)),
        None => None,
    };
    s.set_castling(c, dama::Castling { king_side, queen_side });
}

/// Relies on dama's `Setup::into_position`: it returns a position exactly
/// when the held setup passes the engine's legality validation, a verdict
/// that depends on the held setup alone; the error, and so its rendered
/// text, is likewise a function of the held setup alone.
#[verifier::external_body]
fn setup_validate(s: &dama::position::Setup) -> (r: Option<String>)
    ensures
        r is None <==> rules_ok(setup_model(*s)),
        r matches Some(m) ==> m@ == rules_message(setup_model(*s)),
{
    match s.into_position() {
        Ok(_) => None,
        Err(e) => Some(format!("{}", e)),
    }
}

/// Asks the chess rules engine whether the position is legal. `None` means
/// it is; `Some` carries the engine's description of the violation.
pub fn check_rules(position: &Position) -> (r: Option<String>)
    requires
        position@.wf(),
    ensures
        r is None <==> rules_ok(position@),
        r matches Some(m) ==> m@ == rules_message(position@),
{
    let mut setup = setup_new();
    let mut i: usize = 0;
    while i < 64
        invariant
            position@.wf(),
            i <= 64,
            setup_model(setup).board.len() == 64,
            forall|j: int| 0 <= j < i ==> setup_model(setup).board[j] == position@.board[j],
            forall|j: int| i <= j < 64 ==> setup_model(setup).board[j] is None,
            setup_model(setup).side_to_move == Color::White,
            setup_model(setup).white_castling == empty_setup_model().white_castling,
            setup_model(setup).black_castling == empty_setup_model().black_castling,
            setup_model(setup).en_passant is None,
            setup_model(setup).halfmove_clock == 0,
            setup_model(setup).fullmove_number == 1,
        decreases 64 - i,
    {
        if let Some((color, piece)) = position.board[i] {
            setup_put_piece(&mut setup, i as u8, color, piece);
        }
        i += 1;
    }
    setup_set_side_to_move(&mut setup, position.side_to_move);
    if let Some(ep) = position.en_passant {
        setup_set_en_passant(&mut setup, ep);
    }
    setup_set_halfmove_clock(&mut setup, position.halfmove_clock);
    setup_set_fullmove_number(&mut setup, position.fullmove_number);
    setup_set_castling(&mut setup, Color::White, position.white_castling);
    setup_set_castling(&mut setup, Color::Black, position.black_castling);
    proof {
        assert(setup_model(setup).board =~= position@.board);
        assert(setup_model(setup) =~= position@);
    }
    setup_validate(&setup)
}

} // verus!
