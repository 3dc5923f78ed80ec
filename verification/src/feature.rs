//! The sparse feature encoding of a position.
//!
//! Every piece on the board yields one dense index per viewing
//! perspective, combining whether the piece belongs to the viewer, its
//! kind, and its square as seen from the viewer's side of the board.

use vstd::prelude::*;
use crate::chess::{flip_vertical, flip_vertical_spec, Color, Piece, PositionV};

verus! {

/// Upper bound on features per example per perspective: one per occupied
/// square.
pub const MAX_ACTIVE_FEATURES: usize = 64;

/// The feature index of a piece seen from a perspective: the square is
/// mirrored vertically for the black perspective, the piece counts as own
/// (0) or enemy (1) relative to the perspective, and
/// `(ownership * 6 + kind) * 64 + square` packs the three into one index.
pub open spec fn feature_spec(perspective: Color, color: Color, piece: Piece, square: u8) -> u32 {
    let sq = if perspective == Color::White {
        square as int
    } else {
        flip_vertical_spec(square as int)
    };
    let ownership: int = if perspective == color {
        0
    } else {
        1
    };
    ((ownership * 6 + piece.index_spec()) * 64 + sq) as u32
}

/// The feature index of a piece seen from a perspective.
pub fn feature(perspective: Color, color: Color, piece: Piece, square: u8) -> (r: u32)
    requires
        square < 64,
    ensures
        r == feature_spec(perspective, color, piece, square),
        r < 768,
{
    let sq: u32 = match perspective {
        Color::White => square as u32,
        Color::Black => flip_vertical(square) as u32,
    };
    let ownership: u32 = if perspective == color {
        0
    } else {
        1
    };
    let index = ownership * 6 + piece.index() as u32;
    let index = index * 64 + sq;
    index
}

/// Mirroring the board twice gives the board back.
pub proof fn lemma_flip_vertical_involution(sq: int)
    requires
        0 <= sq < 64,
    ensures
        0 <= flip_vertical_spec(sq) < 64,
        flip_vertical_spec(flip_vertical_spec(sq)) == sq,
{
    let f = sq % 8;
    let r = sq / 8;
    let m = (7 - r) * 8 + f;
    assert(m % 8 == f && m / 8 == 7 - r) by (nonlinear_arith)
        requires
            0 <= f < 8,
            0 <= r < 8,
            m == (7 - r) * 8 + f,
    ;
}

/// A piece's feature index is unchanged when the board, the piece's color
/// and the viewing perspective are all flipped.
pub proof fn lemma_feature_flip(perspective: Color, color: Color, piece: Piece, square: u8)
    requires
        square < 64,
    ensures
        feature_spec(perspective, color, piece, square) == feature_spec(
            perspective.opposite_spec(),
            color.opposite_spec(),
            piece,
            flip_vertical_spec(square as int) as u8,
        ),
{
    lemma_flip_vertical_involution(square as int);
}

/// The position with the board mirrored vertically, every piece's color
/// flipped, the castling rights swapped between the colors, the
/// en-passant square mirrored, and the other side to move.
pub open spec fn color_flipped(p: PositionV) -> PositionV {
    PositionV {
        board: Seq::new(
            64,
            |sq: int|
                match p.board[flip_vertical_spec(sq)] {
                    Some((c, k)) => Some((c.opposite_spec(), k)),
                    None => None,
                },
        ),
        side_to_move: p.side_to_move.opposite_spec(),
        white_castling: p.black_castling,
        black_castling: p.white_castling,
        en_passant: match p.en_passant {
            Some(sq) => Some(flip_vertical_spec(sq as int) as u8),
            None => None,
        },
        halfmove_clock: p.halfmove_clock,
        fullmove_number: p.fullmove_number,
    }
}

/// The set of feature indices of a position from one perspective.
pub open spec fn feature_set(p: PositionV, perspective: Color) -> Set<u32> {
    Set::new(
        |f: u32|
            exists|sq: int|
                0 <= sq < 64 && (#[trigger] p.board[sq]) is Some && f == feature_spec(
                    perspective,
                    p.board[sq]->Some_0.0,
                    p.board[sq]->Some_0.1,
                    sq as u8,
                ),
    )
}

/// Feature symmetry: color-flipping a position and flipping the viewing
/// perspective with it leaves the feature set unchanged. With the
/// perspectives the loader uses this says the side-to-move feature set of
/// a position equals the side-to-move feature set of its color-flipped
/// counterpart, and likewise for the two opponent-perspective sets.
pub proof fn lemma_feature_set_flip(p: PositionV, perspective: Color)
    requires
        p.wf(),
    ensures
        feature_set(color_flipped(p), perspective.opposite_spec()) == feature_set(p, perspective),
{
    let q = color_flipped(p);
    let qpersp = perspective.opposite_spec();
    assert forall|f: u32| feature_set(p, perspective).contains(f) implies feature_set(
        q,
        qpersp,
    ).contains(f) by {
        let sq = choose|sq: int|
            0 <= sq < 64 && (#[trigger] p.board[sq]) is Some && f == feature_spec(
                perspective,
                p.board[sq]->Some_0.0,
                p.board[sq]->Some_0.1,
                sq as u8,
            );
        let (c, k) = p.board[sq]->Some_0;
        lemma_flip_vertical_involution(sq);
        let msq = flip_vertical_spec(sq);
        assert(q.board[msq] == Some((c.opposite_spec(), k)));
        lemma_feature_flip(perspective, c, k, sq as u8);
        assert(q.board[msq] is Some && f == feature_spec(
            qpersp,
            q.board[msq]->Some_0.0,
            q.board[msq]->Some_0.1,
            msq as u8,
        ));
    }
    assert forall|f: u32| feature_set(q, qpersp).contains(f) implies feature_set(
        p,
        perspective,
    ).contains(f) by {
        let msq = choose|msq: int|
            0 <= msq < 64 && (#[trigger] q.board[msq]) is Some && f == feature_spec(
                qpersp,
                q.board[msq]->Some_0.0,
                q.board[msq]->Some_0.1,
                msq as u8,
            );
        lemma_flip_vertical_involution(msq);
        let sq = flip_vertical_spec(msq);
        let (c, k) = p.board[sq]->Some_0;
        lemma_flip_vertical_involution(sq);
        assert(q.board[msq] == Some((c.opposite_spec(), k)));
        lemma_feature_flip(perspective, c, k, sq as u8);
        assert(p.board[sq] is Some && f == feature_spec(
            perspective,
            p.board[sq]->Some_0.0,
            p.board[sq]->Some_0.1,
            sq as u8,
        ));
    }
    assert(feature_set(q, qpersp) =~= feature_set(p, perspective));
}

} // verus!
