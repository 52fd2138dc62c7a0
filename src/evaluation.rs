use vstd::prelude::*;

use crate::bitboards::{count_squares, square_count};
use crate::params::{
    BISHOP_PAIR_BONUS_EG, BISHOP_PAIR_BONUS_MG, BISHOP_PIECE_VALUE_EG, BISHOP_PIECE_VALUE_MG,
    KNIGHT_PIECE_VALUE_EG, KNIGHT_PIECE_VALUE_MG, KNIGHT_VALUE_WITH_PAWNS, PAWN_PIECE_VALUE_EG,
    PAWN_PIECE_VALUE_MG, QUEEN_PIECE_VALUE_EG, QUEEN_PIECE_VALUE_MG, ROOK_PIECE_VALUE_EG,
    ROOK_PIECE_VALUE_MG,
};

verus! {

/// A score as a pair: its middle-game part and its end-game part.
#[derive(Clone, Copy, Debug, PartialEq, Eq, Structural)]
pub struct EvaluationScore(pub i16, pub i16);

impl Default for EvaluationScore {
    fn default() -> (r: EvaluationScore)
        ensures
            r == EvaluationScore(0, 0),
    {
        EvaluationScore(0, 0)
    }
}

impl std::ops::Add<EvaluationScore> for EvaluationScore {
    type Output = EvaluationScore;

    fn add(self, other: EvaluationScore) -> (r: EvaluationScore) {
        EvaluationScore(self.0 + other.0, self.1 + other.1)
    }
}

impl vstd::std_specs::ops::AddSpecImpl<EvaluationScore> for EvaluationScore {
    open spec fn obeys_add_spec() -> bool {
        true
    }

    open spec fn add_req(self, other: EvaluationScore) -> bool {
        &&& i16::MIN <= self.0 + other.0 <= i16::MAX
        &&& i16::MIN <= self.1 + other.1 <= i16::MAX
    }

    open spec fn add_spec(self, other: EvaluationScore) -> EvaluationScore {
        EvaluationScore((self.0 + other.0) as i16, (self.1 + other.1) as i16)
    }
}

impl std::ops::Add<i16> for EvaluationScore {
    type Output = EvaluationScore;

    fn add(self, other: i16) -> (r: EvaluationScore) {
        EvaluationScore(self.0 + other, self.1 + other)
    }
}

impl vstd::std_specs::ops::AddSpecImpl<i16> for EvaluationScore {
    open spec fn obeys_add_spec() -> bool {
        true
    }

    open spec fn add_req(self, other: i16) -> bool {
        &&& i16::MIN <= self.0 + other <= i16::MAX
        &&& i16::MIN <= self.1 + other <= i16::MAX
    }

    open spec fn add_spec(self, other: i16) -> EvaluationScore {
        EvaluationScore((self.0 + other) as i16, (self.1 + other) as i16)
    }
}

impl std::ops::Sub<EvaluationScore> for EvaluationScore {
    type Output = EvaluationScore;

    fn sub(self, other: EvaluationScore) -> (r: EvaluationScore) {
        EvaluationScore(self.0 - other.0, self.1 - other.1)
    }
}

impl vstd::std_specs::ops::SubSpecImpl<EvaluationScore> for EvaluationScore {
    open spec fn obeys_sub_spec() -> bool {
        true
    }

    open spec fn sub_req(self, other: EvaluationScore) -> bool {
        &&& i16::MIN <= self.0 - other.0 <= i16::MAX
        &&& i16::MIN <= self.1 - other.1 <= i16::MAX
    }

    open spec fn sub_spec(self, other: EvaluationScore) -> EvaluationScore {
        EvaluationScore((self.0 - other.0) as i16, (self.1 - other.1) as i16)
    }
}

impl std::ops::Mul<i16> for EvaluationScore {
    type Output = EvaluationScore;

    fn mul(self, other: i16) -> (r: EvaluationScore) {
        EvaluationScore(self.0 * other, self.1 * other)
    }
}

impl vstd::std_specs::ops::MulSpecImpl<i16> for EvaluationScore {
    open spec fn obeys_mul_spec() -> bool {
        true
    }

    open spec fn mul_req(self, other: i16) -> bool {
        &&& i16::MIN <= self.0 * other <= i16::MAX
        &&& i16::MIN <= self.1 * other <= i16::MAX
    }

    open spec fn mul_spec(self, other: i16) -> EvaluationScore {
        EvaluationScore((self.0 * other) as i16, (self.1 * other) as i16)
    }
}

/// The result of a static evaluation.
#[derive(Clone, Copy, Debug, PartialEq, Eq, Structural)]
pub struct EvaluationResult {
    pub final_eval: i16,
}

/// Distance in king moves between two squares (0..64): the larger of the rank distance and
/// the file distance.
pub open spec fn king_distance(sq: int, sq2: int) -> int {
    let dr = if sq / 8 >= sq2 / 8 {
        sq / 8 - sq2 / 8
    } else {
        sq2 / 8 - sq / 8
    };
    let df = if sq % 8 >= sq2 % 8 {
        sq % 8 - sq2 % 8
    } else {
        sq2 % 8 - sq % 8
    };
    if dr >= df {
        dr
    } else {
        df
    }
}

pub fn get_distance(sq: isize, sq2: isize) -> (r: usize)
    requires
        0 <= sq < 64,
        0 <= sq2 < 64,
    ensures
        r as int == king_distance(sq as int, sq2 as int),
        r <= 7,
{
    let (a, b) = (sq as usize, sq2 as usize);
    let dr = if a / 8 >= b / 8 {
        a / 8 - b / 8
    } else {
        b / 8 - a / 8
    };
    let df = if a % 8 >= b % 8 {
        a % 8 - b % 8
    } else {
        b % 8 - a % 8
    };
    if dr >= df {
        dr
    } else {
        df
    }
}

/// Material of one side (middle game when `mg`). Pieces are counted on the bitboards of
/// `pieces` (pawn .. king, then white, black); a knight is worth more or less with the number
/// of pawns on the board; two bishops earn the pair bonus; and a side whose only piece besides
/// its king is one minor piece has that piece counted as nothing.
pub open spec fn material(white: bool, pieces: [[u64; 2]; 6], mg: bool) -> int {
    let side = if white {
        0int
    } else {
        1int
    };
    let pawns = square_count(pieces[0][side]);
    let knights0 = square_count(pieces[1][side]);
    let bishops0 = square_count(pieces[2][side]);
    let rooks = square_count(pieces[3][side]);
    let queens = square_count(pieces[4][side]);
    let lone = pawns + knights0 + bishops0 + rooks + queens == 1;
    let knights = if lone {
        0
    } else {
        knights0
    };
    let bishops = if lone {
        0
    } else {
        bishops0
    };
    let knight_bonus = KNIGHT_VALUE_WITH_PAWNS[square_count(pieces[0][0] | pieces[0][1])] as int;
    if mg {
        PAWN_PIECE_VALUE_MG * pawns + (KNIGHT_PIECE_VALUE_MG + knight_bonus) * knights
            + BISHOP_PIECE_VALUE_MG * bishops + (if bishops > 1 {
            BISHOP_PAIR_BONUS_MG as int
        } else {
            0
        }) + ROOK_PIECE_VALUE_MG * rooks + QUEEN_PIECE_VALUE_MG * queens
    } else {
        PAWN_PIECE_VALUE_EG * pawns + (KNIGHT_PIECE_VALUE_EG + knight_bonus) * knights
            + BISHOP_PIECE_VALUE_EG * bishops + (if bishops > 1 {
            BISHOP_PAIR_BONUS_EG as int
        } else {
            0
        }) + ROOK_PIECE_VALUE_EG * rooks + QUEEN_PIECE_VALUE_EG * queens
    }
}

/// The material term of the side that `white` names. At most sixteen pawns stand on the board.
pub fn piece_values(white: bool, pieces: &[[u64; 2]; 6], _eval: &mut EvaluationResult) -> (r:
    EvaluationScore)
    requires
        square_count(pieces[0][0] | pieces[0][1]) <= 16,
        i16::MIN <= material(white, *pieces, true) <= i16::MAX,
        i16::MIN <= material(white, *pieces, false) <= i16::MAX,
    ensures
        r.0 == material(white, *pieces, true),
        r.1 == material(white, *pieces, false),
        *final(_eval) == *old(_eval),
{
    let side: usize = if white {
        0
    } else {
        1
    };
    let pawns = count_squares(pieces[0][side]) as i32;
    let mut knights = count_squares(pieces[1][side]) as i32;
    let mut bishops = count_squares(pieces[2][side]) as i32;
    let rooks = count_squares(pieces[3][side]) as i32;
    let queens = count_squares(pieces[4][side]) as i32;
    if pawns + knights + bishops + rooks + queens == 1 {
        knights = 0;
        bishops = 0;
    }
    let pawns_on_board = count_squares(pieces[0][0] | pieces[0][1]) as usize;
    let kv = KNIGHT_VALUE_WITH_PAWNS[pawns_on_board] as i32;
    proof {
        assert(-200 <= kv <= 200) by {
            let k = pawns_on_board as int;
            if k == 0 {
            } else if k == 1 {
            } else if k == 2 {
            } else if k == 3 {
            } else if k == 4 {
            } else if k == 5 {
            } else if k == 6 {
            } else if k == 7 {
            } else if k == 8 {
            } else if k == 9 {
            } else if k == 10 {
            } else if k == 11 {
            } else if k == 12 {
            } else if k == 13 {
            } else if k == 14 {
            } else if k == 15 {
            } else {
            }
        }
        assert(-200 * 64 <= kv * knights <= 200 * 64) by (nonlinear_arith)
            requires
                -200 <= kv <= 200,
                0 <= knights <= 64,
        ;
    }
    let mut mg: i32 = PAWN_PIECE_VALUE_MG as i32 * pawns + (KNIGHT_PIECE_VALUE_MG as i32 * knights
        + kv * knights) + BISHOP_PIECE_VALUE_MG as i32 * bishops + ROOK_PIECE_VALUE_MG as i32 * rooks
        + QUEEN_PIECE_VALUE_MG as i32 * queens;
    let mut eg: i32 = PAWN_PIECE_VALUE_EG as i32 * pawns + (KNIGHT_PIECE_VALUE_EG as i32 * knights
        + kv * knights) + BISHOP_PIECE_VALUE_EG as i32 * bishops + ROOK_PIECE_VALUE_EG as i32 * rooks
        + QUEEN_PIECE_VALUE_EG as i32 * queens;
    if bishops > 1 {
        mg = mg + BISHOP_PAIR_BONUS_MG as i32;
        eg = eg + BISHOP_PAIR_BONUS_EG as i32;
    }
    proof {
        assert((KNIGHT_PIECE_VALUE_MG + kv) * knights == KNIGHT_PIECE_VALUE_MG * knights + kv * knights)
            by (nonlinear_arith);
        assert((KNIGHT_PIECE_VALUE_EG + kv) * knights == KNIGHT_PIECE_VALUE_EG * knights + kv * knights)
            by (nonlinear_arith);
    }
    EvaluationScore(mg as i16, eg as i16)
}

} // verus!
