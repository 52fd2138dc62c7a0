use vstd::prelude::*;

use crate::bitboards::{has_square, lemma_clear_square, lemma_square_basics};
use crate::board::PieceType;
use crate::evaluation::EvaluationResult;
use crate::params::{
    PSQT_BISHOP_EG, PSQT_BISHOP_MG, PSQT_KING_EG, PSQT_KING_MG, PSQT_KNIGHT_EG, PSQT_KNIGHT_MG,
    PSQT_PAWN_EG, PSQT_PAWN_MG,
};
use vstd::std_specs::bits::axiom_u64_trailing_zeros;

verus! {

/// The entry of an 8x8 table for square `sq` (rank `sq / 8`, file `sq % 8`).
pub open spec fn table_entry(t: [[i16; 8]; 8], sq: int) -> int {
    t[sq / 8][sq % 8] as int
}

/// The piece-square value of `piece` on square `sq`, seen from white, middle game when `mg`.
/// Rooks and queens have no piece-square table and count zero.
pub open spec fn psqt_entry(piece: PieceType, sq: int, mg: bool) -> int {
    match piece {
        PieceType::Pawn => if mg {
            table_entry(PSQT_PAWN_MG, sq)
        } else {
            table_entry(PSQT_PAWN_EG, sq)
        },
        PieceType::Knight => if mg {
            table_entry(PSQT_KNIGHT_MG, sq)
        } else {
            table_entry(PSQT_KNIGHT_EG, sq)
        },
        PieceType::Bishop => if mg {
            table_entry(PSQT_BISHOP_MG, sq)
        } else {
            table_entry(PSQT_BISHOP_EG, sq)
        },
        PieceType::King => if mg {
            table_entry(PSQT_KING_MG, sq)
        } else {
            table_entry(PSQT_KING_EG, sq)
        },
        _ => 0,
    }
}

/// The square as white sees it: black's squares are mirrored.
pub open spec fn mirrored(sq: int, is_black: bool) -> int {
    if is_black {
        63 - sq
    } else {
        sq
    }
}

/// A value counted for white, negated for black.
pub open spec fn signed(v: int, is_black: bool) -> int {
    if is_black {
        -v
    } else {
        v
    }
}

/// Change of the piece-square sum when `piece` of the given colour moves from `from` to `to`.
pub open spec fn move_delta(piece: PieceType, from: int, to: int, is_black: bool, mg: bool) -> int {
    signed(
        psqt_entry(piece, mirrored(to, is_black), mg) - psqt_entry(piece, mirrored(from, is_black), mg),
        is_black,
    )
}

/// Change of the piece-square sum when `piece` of the given colour appears on `sq`.
pub open spec fn add_delta(piece: PieceType, sq: int, is_black: bool, mg: bool) -> int {
    signed(psqt_entry(piece, mirrored(sq, is_black), mg), is_black)
}

fn psqt_value(piece: &PieceType, sq: usize, mg: bool) -> (r: i16)
    requires
        sq < 64,
    ensures
        r as int == psqt_entry(*piece, sq as int, mg),
{
    let (rank, file) = (sq / 8, sq % 8);
    match piece {
        PieceType::Pawn => if mg {
            PSQT_PAWN_MG[rank][file]
        } else {
            PSQT_PAWN_EG[rank][file]
        },
        PieceType::Knight => if mg {
            PSQT_KNIGHT_MG[rank][file]
        } else {
            PSQT_KNIGHT_EG[rank][file]
        },
        PieceType::Bishop => if mg {
            PSQT_BISHOP_MG[rank][file]
        } else {
            PSQT_BISHOP_EG[rank][file]
        },
        PieceType::King => if mg {
            PSQT_KING_MG[rank][file]
        } else {
            PSQT_KING_EG[rank][file]
        },
        _ => 0,
    }
}

/// The piece-square sums after `piece` moves from `from_square` to `to_square`.
pub fn psqt_incremental_move_piece(
    piece: &PieceType,
    from_square: usize,
    to_square: usize,
    is_black: bool,
    psqt_mg: i16,
    psqt_eg: i16,
) -> (r: (i16, i16))
    requires
        from_square < 64,
        to_square < 64,
        i16::MIN <= psqt_mg + move_delta(*piece, from_square as int, to_square as int, is_black, true)
            <= i16::MAX,
        i16::MIN <= psqt_eg + move_delta(*piece, from_square as int, to_square as int, is_black, false)
            <= i16::MAX,
    ensures
        r.0 == psqt_mg + move_delta(*piece, from_square as int, to_square as int, is_black, true),
        r.1 == psqt_eg + move_delta(*piece, from_square as int, to_square as int, is_black, false),
{
    let (mut from_square, mut to_square) = (from_square, to_square);
    if is_black {
        from_square = 63 - from_square;
        to_square = 63 - to_square;
    }
    let mut mg_plus: i32 = psqt_value(piece, to_square, true) as i32 - psqt_value(
        piece,
        from_square,
        true,
    ) as i32;
    let mut eg_plus: i32 = psqt_value(piece, to_square, false) as i32 - psqt_value(
        piece,
        from_square,
        false,
    ) as i32;
    if is_black {
        mg_plus = -mg_plus;
        eg_plus = -eg_plus;
    }
    ((psqt_mg as i32 + mg_plus) as i16, (psqt_eg as i32 + eg_plus) as i16)
}

/// The piece-square sums after `piece` leaves the board from `from_square`.
pub fn psqt_incremental_delete_piece(
    piece: &PieceType,
    from_square: usize,
    is_black: bool,
    psqt_mg: i16,
    psqt_eg: i16,
) -> (r: (i16, i16))
    requires
        from_square < 64,
        i16::MIN <= psqt_mg - add_delta(*piece, from_square as int, is_black, true) <= i16::MAX,
        i16::MIN <= psqt_eg - add_delta(*piece, from_square as int, is_black, false) <= i16::MAX,
    ensures
        r.0 == psqt_mg - add_delta(*piece, from_square as int, is_black, true),
        r.1 == psqt_eg - add_delta(*piece, from_square as int, is_black, false),
{
    let sq = if is_black {
        63 - from_square
    } else {
        from_square
    };
    let mut mg_plus: i32 = -(psqt_value(piece, sq, true) as i32);
    let mut eg_plus: i32 = -(psqt_value(piece, sq, false) as i32);
    if is_black {
        mg_plus = -mg_plus;
        eg_plus = -eg_plus;
    }
    ((psqt_mg as i32 + mg_plus) as i16, (psqt_eg as i32 + eg_plus) as i16)
}

/// The piece-square sums after `piece` appears on `from_square`.
pub fn psqt_incremental_add_piece(
    piece: &PieceType,
    from_square: usize,
    is_black: bool,
    psqt_mg: i16,
    psqt_eg: i16,
) -> (r: (i16, i16))
    requires
        from_square < 64,
        i16::MIN <= psqt_mg + add_delta(*piece, from_square as int, is_black, true) <= i16::MAX,
        i16::MIN <= psqt_eg + add_delta(*piece, from_square as int, is_black, false) <= i16::MAX,
    ensures
        r.0 == psqt_mg + add_delta(*piece, from_square as int, is_black, true),
        r.1 == psqt_eg + add_delta(*piece, from_square as int, is_black, false),
{
    let sq = if is_black {
        63 - from_square
    } else {
        from_square
    };
    let mut mg_plus: i32 = psqt_value(piece, sq, true) as i32;
    let mut eg_plus: i32 = psqt_value(piece, sq, false) as i32;
    if is_black {
        mg_plus = -mg_plus;
        eg_plus = -eg_plus;
    }
    ((psqt_mg as i32 + mg_plus) as i16, (psqt_eg as i32 + eg_plus) as i16)
}

/// Sum of the piece-square values of `piece` on the squares below `n` that `b` holds, for the
/// side that `white` names.
pub open spec fn board_sum(b: u64, piece: PieceType, white: bool, mg: bool, n: int) -> int
    decreases n,
{
    if n <= 0 {
        0
    } else {
        board_sum(b, piece, white, mg, n - 1) + if has_square(b, (n - 1) as u64) {
            psqt_entry(piece, mirrored(n - 1, !white), mg)
        } else {
            0
        }
    }
}

/// The piece-square sum of one side: its pawns, knights and bishops, and its king on the
/// lowest square of its king board.
pub open spec fn psqt_total(white: bool, pieces: [[u64; 2]; 6], mg: bool) -> int {
    let side = if white {
        0int
    } else {
        1int
    };
    board_sum(pieces[0][side], PieceType::Pawn, white, mg, 64) + board_sum(
        pieces[1][side],
        PieceType::Knight,
        white,
        mg,
        64,
    ) + board_sum(pieces[2][side], PieceType::Bishop, white, mg, 64) + psqt_entry(
        PieceType::King,
        mirrored(vstd::std_specs::bits::u64_trailing_zeros(pieces[5][side]) as int, !white),
        mg,
    )
}

/// Clearing a set square below `n` takes its value out of the sum.
proof fn lemma_board_sum_clear(x: u64, i: u64, piece: PieceType, white: bool, mg: bool, n: int)
    requires
        i < 64,
        has_square(x, i),
        0 <= n <= 64,
    ensures
        board_sum(x, piece, white, mg, n) == board_sum(x ^ (1u64 << i), piece, white, mg, n) + if i
            < n {
            psqt_entry(piece, mirrored(i as int, !white), mg)
        } else {
            0
        },
    decreases n,
{
    lemma_clear_square(x, i);
    if n > 0 {
        lemma_board_sum_clear(x, i, piece, white, mg, n - 1);
    }
}

/// A sum over `n` squares stays within `n` times the largest table magnitude.
proof fn lemma_board_sum_bound(b: u64, piece: PieceType, white: bool, mg: bool, n: int)
    requires
        0 <= n <= 64,
    ensures
        -32768 * n <= board_sum(b, piece, white, mg, n) <= 32768 * n,
    decreases n,
{
    if n > 0 {
        lemma_board_sum_bound(b, piece, white, mg, n - 1);
        let sq = mirrored(n - 1, !white);
        if sq / 8 < 8 && sq % 8 < 8 {
        }
    }
}

/// Both piece-square sums of `piece` over the squares of `b`.
fn sum_board(b: u64, piece: &PieceType, white: bool) -> (r: (i32, i32))
    ensures
        r.0 == board_sum(b, *piece, white, true, 64),
        r.1 == board_sum(b, *piece, white, false, 64),
{
    let mut rest = b;
    let mut mg: i32 = 0;
    let mut eg: i32 = 0;
    proof {
        lemma_board_sum_bound(b, *piece, white, true, 64);
        lemma_board_sum_bound(b, *piece, white, false, 64);
    }
    while rest != 0u64
        invariant
            mg == board_sum(b, *piece, white, true, 64) - board_sum(rest, *piece, white, true, 64),
            eg == board_sum(b, *piece, white, false, 64) - board_sum(rest, *piece, white, false, 64),
            -32768 * 64 <= board_sum(b, *piece, white, true, 64) <= 32768 * 64,
            -32768 * 64 <= board_sum(b, *piece, white, false, 64) <= 32768 * 64,
        decreases rest,
    {
        proof {
            axiom_u64_trailing_zeros(rest);
        }
        let idx = rest.trailing_zeros() as u64;
        let sq: usize = if white {
            idx as usize
        } else {
            63 - idx as usize
        };
        let old_rest = rest;
        proof {
            lemma_clear_square(old_rest, idx);
            lemma_board_sum_clear(old_rest, idx, *piece, white, true, 64);
            lemma_board_sum_clear(old_rest, idx, *piece, white, false, 64);
            lemma_board_sum_bound(old_rest ^ (1u64 << idx), *piece, white, true, 64);
            lemma_board_sum_bound(old_rest ^ (1u64 << idx), *piece, white, false, 64);
        }
        mg = mg + psqt_value(piece, sq, true) as i32;
        eg = eg + psqt_value(piece, sq, false) as i32;
        rest = rest ^ (1u64 << idx);
    }
    proof {
        lemma_square_basics(0u64, 0u64);
        lemma_board_sum_zero(*piece, white, true, 64);
        lemma_board_sum_zero(*piece, white, false, 64);
    }
    (mg, eg)
}

/// The empty board sums to zero.
proof fn lemma_board_sum_zero(piece: PieceType, white: bool, mg: bool, n: int)
    requires
        0 <= n <= 64,
    ensures
        board_sum(0u64, piece, white, mg, n) == 0,
    decreases n,
{
    lemma_square_basics(0u64, 0u64);
    if n > 0 {
        lemma_board_sum_zero(piece, white, mg, n - 1);
    }
}

/// The piece-square sums (middle game, end game) of the side that `white` names. `pieces` holds
/// a bitboard per piece kind (pawn .. king) and side (white, black); the side's king board is
/// not empty.
pub fn psqt(white: bool, pieces: &[[u64; 2]; 6], _eval: &mut EvaluationResult) -> (r: (i16, i16))
    requires
        pieces[5][if white {
            0int
        } else {
            1int
        }] != 0,
        i16::MIN <= psqt_total(white, *pieces, true) <= i16::MAX,
        i16::MIN <= psqt_total(white, *pieces, false) <= i16::MAX,
    ensures
        r.0 == psqt_total(white, *pieces, true),
        r.1 == psqt_total(white, *pieces, false),
        *final(_eval) == *old(_eval),
{
    let side: usize = if white {
        0
    } else {
        1
    };
    let (pawn_mg, pawn_eg) = sum_board(pieces[0][side], &PieceType::Pawn, white);
    let (knight_mg, knight_eg) = sum_board(pieces[1][side], &PieceType::Knight, white);
    let (bishop_mg, bishop_eg) = sum_board(pieces[2][side], &PieceType::Bishop, white);
    proof {
        axiom_u64_trailing_zeros(pieces[5][side as int]);
    }
    let mut king_idx = pieces[5][side].trailing_zeros() as usize;
    if !white {
        king_idx = 63 - king_idx;
    }
    let king_mg = psqt_value(&PieceType::King, king_idx, true) as i32;
    let king_eg = psqt_value(&PieceType::King, king_idx, false) as i32;
    proof {
        lemma_board_sum_bound(pieces[0][side as int], PieceType::Pawn, white, true, 64);
        lemma_board_sum_bound(pieces[1][side as int], PieceType::Knight, white, true, 64);
        lemma_board_sum_bound(pieces[2][side as int], PieceType::Bishop, white, true, 64);
        lemma_board_sum_bound(pieces[0][side as int], PieceType::Pawn, white, false, 64);
        lemma_board_sum_bound(pieces[1][side as int], PieceType::Knight, white, false, 64);
        lemma_board_sum_bound(pieces[2][side as int], PieceType::Bishop, white, false, 64);
    }
    let mg_sum = pawn_mg + knight_mg + bishop_mg + king_mg;
    let eg_sum = pawn_eg + knight_eg + bishop_eg + king_eg;
    (mg_sum as i16, eg_sum as i16)
}

} // verus!
