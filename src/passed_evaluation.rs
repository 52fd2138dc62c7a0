use vstd::prelude::*;

use crate::bitboards::{
    b_front_span, b_front_span_of, b_rear_span, has_square, lemma_clear_square, lemma_set_square,
    lemma_square_basics, w_front_span, w_front_span_of, w_rear_span,
};
use vstd::std_specs::bits::axiom_u64_trailing_zeros;

verus! {

/// Middle-game bonus of a passed pawn, by rank counted from its own side.
pub const PAWN_PASSED_VALUES_MG: [i16; 7] = [0, -20, -10, 30, 50, 70, 90];

/// Middle-game bonus of a passed pawn whose path is free, by rank.
pub const PAWN_PASSED_NOT_BLOCKED_VALUES_MG: [i16; 7] = [0, 0, 30, 50, 70, 90, 110];

/// End-game bonus of a passed pawn, by rank.
pub const PAWN_PASSED_VALUES_EG: [i16; 7] = [0, -40, -20, 20, 40, 60, 80];

/// End-game bonus of a passed pawn whose path is free, by rank.
pub const PAWN_PASSED_NOT_BLOCKED_VALUES_EG: [i16; 7] = [0, 0, 0, 50, 80, 110, 140];

/// Rank of square `sq` counted from the side that `white` names (0..8).
pub open spec fn relative_rank(sq: int, white: bool) -> int {
    if white {
        sq / 8
    } else {
        7 - sq / 8
    }
}

/// No set square of `b` lies on the last rank of the side that `white` names, where no pawn
/// stands.
pub open spec fn off_last_rank(b: u64, white: bool) -> bool {
    forall|sq: u64| sq < 64 && #[trigger] has_square(b, sq) ==> relative_rank(sq as int, white) < 7
}

/// Sum of `table` over the relative ranks of the squares below `n` that `b` holds.
pub open spec fn rank_sum(b: u64, table: [i16; 7], white: bool, n: int) -> int
    decreases n,
{
    if n <= 0 {
        0
    } else {
        rank_sum(b, table, white, n - 1) + if has_square(b, (n - 1) as u64) {
            table[relative_rank(n - 1, white)] as int
        } else {
            0
        }
    }
}

proof fn lemma_rank_sum_clear(x: u64, i: u64, table: [i16; 7], white: bool, n: int)
    requires
        i < 64,
        has_square(x, i),
        0 <= n <= 64,
    ensures
        rank_sum(x, table, white, n) == rank_sum(x ^ (1u64 << i), table, white, n) + if i < n {
            table[relative_rank(i as int, white)] as int
        } else {
            0
        },
    decreases n,
{
    lemma_clear_square(x, i);
    if n > 0 {
        lemma_rank_sum_clear(x, i, table, white, n - 1);
    }
}

proof fn lemma_rank_sum_bound(b: u64, table: [i16; 7], white: bool, n: int)
    requires
        0 <= n <= 64,
        off_last_rank(b, white),
        forall|k: int| 0 <= k < 7 ==> -200 <= #[trigger] table[k] <= 200,
    ensures
        -200 * n <= rank_sum(b, table, white, n) <= 200 * n,
    decreases n,
{
    if n > 0 {
        lemma_rank_sum_bound(b, table, white, n - 1);
    }
}

proof fn lemma_rank_sum_zero(table: [i16; 7], white: bool, n: int)
    requires
        0 <= n <= 64,
    ensures
        rank_sum(0u64, table, white, n) == 0,
    decreases n,
{
    lemma_square_basics(0u64, 0u64);
    if n > 0 {
        lemma_rank_sum_zero(table, white, n - 1);
    }
}

proof fn lemma_off_last_rank_clear(x: u64, i: u64, white: bool)
    requires
        i < 64,
        has_square(x, i),
        off_last_rank(x, white),
    ensures
        off_last_rank(x ^ (1u64 << i), white),
{
    lemma_clear_square(x, i);
    assert forall|sq: u64| sq < 64 && #[trigger] has_square(x ^ (1u64 << i), sq) implies relative_rank(
        sq as int,
        white,
    ) < 7 by {
        assert(sq != i);
        assert(has_square(x, sq));
    }
}

/// Sum of `table` over the relative ranks of the squares of `b`.
fn sum_by_rank(b: u64, table: &[i16; 7], white: bool) -> (r: i32)
    requires
        off_last_rank(b, white),
        forall|k: int| 0 <= k < 7 ==> -200 <= #[trigger] table[k] <= 200,
    ensures
        r == rank_sum(b, *table, white, 64),
        -12800 <= r <= 12800,
{
    let mut rest = b;
    let mut sum: i32 = 0;
    proof {
        lemma_rank_sum_bound(b, *table, white, 64);
    }
    while rest != 0u64
        invariant
            sum == rank_sum(b, *table, white, 64) - rank_sum(rest, *table, white, 64),
            -12800 <= rank_sum(b, *table, white, 64) <= 12800,
            off_last_rank(rest, white),
            forall|k: int| 0 <= k < 7 ==> -200 <= #[trigger] table[k] <= 200,
        decreases rest,
    {
        proof {
            axiom_u64_trailing_zeros(rest);
        }
        let idx = rest.trailing_zeros() as u64;
        let old_rest = rest;
        proof {
            lemma_clear_square(old_rest, idx);
            lemma_rank_sum_clear(old_rest, idx, *table, white, 64);
            lemma_off_last_rank_clear(old_rest, idx, white);
            lemma_rank_sum_bound(old_rest ^ (1u64 << idx), *table, white, 64);
            assert(has_square(old_rest, idx));
            assert(relative_rank(idx as int, white) < 7);
        }
        let rank = if white {
            (idx / 8) as usize
        } else {
            7 - (idx / 8) as usize
        };
        sum = sum + table[rank] as i32;
        rest = rest ^ (1u64 << idx);
    }
    proof {
        lemma_rank_sum_zero(*table, white, 64);
    }
    sum
}

proof fn lemma_passed_tables()
    ensures
        forall|k: int| 0 <= k < 7 ==> -200 <= #[trigger] PAWN_PASSED_VALUES_MG[k] <= 200,
        forall|k: int| 0 <= k < 7 ==> -200 <= #[trigger] PAWN_PASSED_NOT_BLOCKED_VALUES_MG[k] <= 200,
        forall|k: int| 0 <= k < 7 ==> -200 <= #[trigger] PAWN_PASSED_VALUES_EG[k] <= 200,
        forall|k: int| 0 <= k < 7 ==> -200 <= #[trigger] PAWN_PASSED_NOT_BLOCKED_VALUES_EG[k] <= 200,
{
    assert forall|k: int| 0 <= k < 7 implies {
        &&& -200 <= #[trigger] PAWN_PASSED_VALUES_MG[k] <= 200
        &&& -200 <= PAWN_PASSED_NOT_BLOCKED_VALUES_MG[k] <= 200
        &&& -200 <= PAWN_PASSED_VALUES_EG[k] <= 200
        &&& -200 <= PAWN_PASSED_NOT_BLOCKED_VALUES_EG[k] <= 200
    } by {
        if k == 0 {
        } else if k == 1 {
        } else if k == 2 {
        } else if k == 3 {
        } else if k == 4 {
        } else if k == 5 {
        } else {
        }
    }
}

/// The passed pawns of one side and those of them whose path to promotion is free of enemy
/// pieces.
pub struct PassedEvaluation {
    passed_pawns: u64,
    passed_not_blocked_pawns: u64,
    is_white: bool,
}

impl View for PassedEvaluation {
    /// Passed pawns, passed pawns not blocked, and whether they are white.
    type V = (u64, u64, bool);

    closed spec fn view(&self) -> (u64, u64, bool) {
        (self.passed_pawns, self.passed_not_blocked_pawns, self.is_white)
    }
}

impl PassedEvaluation {
    pub fn new(passed_pawns: u64, passed_not_blocked_pawns: u64, is_white: bool) -> (r:
        PassedEvaluation)
        ensures
            r@ == (passed_pawns, passed_not_blocked_pawns, is_white),
    {
        PassedEvaluation { passed_pawns, passed_not_blocked_pawns, is_white }
    }

    pub fn copy(&self) -> (r: PassedEvaluation)
        ensures
            r@ == self@,
    {
        PassedEvaluation::new(self.passed_pawns, self.passed_not_blocked_pawns, self.is_white)
    }

    /// The middle-game bonus: each passed pawn by its rank, plus each one not blocked by its
    /// rank.
    pub open spec fn mg_value(self) -> int {
        rank_sum(self@.0, PAWN_PASSED_VALUES_MG, self@.2, 64) + rank_sum(
            self@.1,
            PAWN_PASSED_NOT_BLOCKED_VALUES_MG,
            self@.2,
            64,
        )
    }

    /// The end-game bonus, counted as the middle-game one with the end-game tables.
    pub open spec fn eg_value(self) -> int {
        rank_sum(self@.0, PAWN_PASSED_VALUES_EG, self@.2, 64) + rank_sum(
            self@.1,
            PAWN_PASSED_NOT_BLOCKED_VALUES_EG,
            self@.2,
            64,
        )
    }

    pub fn eval_mg(&self) -> (r: i16)
        requires
            off_last_rank(self@.0, self@.2),
            off_last_rank(self@.1, self@.2),
        ensures
            r == self.mg_value(),
    {
        proof {
            lemma_passed_tables();
        }
        let a = sum_by_rank(self.passed_pawns, &PAWN_PASSED_VALUES_MG, self.is_white);
        let b = sum_by_rank(self.passed_not_blocked_pawns, &PAWN_PASSED_NOT_BLOCKED_VALUES_MG, self.is_white);
        (a + b) as i16
    }

    pub fn eval_eg(&self) -> (r: i16)
        requires
            off_last_rank(self@.0, self@.2),
            off_last_rank(self@.1, self@.2),
        ensures
            r == self.eg_value(),
    {
        proof {
            lemma_passed_tables();
        }
        let a = sum_by_rank(self.passed_pawns, &PAWN_PASSED_VALUES_EG, self.is_white);
        let b = sum_by_rank(self.passed_not_blocked_pawns, &PAWN_PASSED_NOT_BLOCKED_VALUES_EG, self.is_white);
        (a + b) as i16
    }

    /// Both bonuses at once.
    pub fn eval_mg_eg(&self) -> (r: (i16, i16))
        requires
            off_last_rank(self@.0, self@.2),
            off_last_rank(self@.1, self@.2),
        ensures
            r.0 == self.mg_value(),
            r.1 == self.eg_value(),
    {
        (self.eval_mg(), self.eval_eg())
    }

    pub fn passed_pawns(&self) -> (r: u64)
        ensures
            r == self@.0,
    {
        self.passed_pawns
    }

    pub fn passed_not_blocked_pawns(&self) -> (r: u64)
        ensures
            r == self@.1,
    {
        self.passed_not_blocked_pawns
    }

    pub fn is_white(&self) -> (r: bool)
        ensures
            r == self@.2,
    {
        self.is_white
    }
}

/// `not_blocked` holds exactly the squares of `passed` whose span ahead (white's when `white`)
/// holds no enemy piece.
pub open spec fn not_blocked_squares(passed: u64, not_blocked: u64, enemy_pieces: u64, white: bool) -> bool {
    forall|sq: u64|
        sq < 64 ==> (#[trigger] has_square(not_blocked, sq) <==> (has_square(passed, sq) && (if white {
            w_front_span_of(1u64 << sq)
        } else {
            b_front_span_of(1u64 << sq)
        }) & enemy_pieces == 0))
}

/// Passed pawns of `pawns` against the enemy front spans, and those of them not blocked.
fn passed_pawns_of(pawns: u64, enemy_front_spans: u64, enemy_pieces: u64, white: bool) -> (r: (
    u64,
    u64,
))
    ensures
        r.0 == pawns & !enemy_front_spans,
        not_blocked_squares(r.0, r.1, enemy_pieces, white),
{
    let mut passed_board = pawns & !enemy_front_spans;
    let passed_board_cl = passed_board;
    let mut passed_not_blocked = 0u64;
    proof {
        lemma_square_basics(0u64, 0u64);
    }
    while passed_board != 0u64
        invariant
            forall|sq: u64| sq < 64 && has_square(passed_board, sq) ==> has_square(passed_board_cl, sq),
            forall|sq: u64|
                sq < 64 ==> (#[trigger] has_square(passed_not_blocked, sq) <==> (has_square(
                    passed_board_cl,
                    sq,
                ) && !has_square(passed_board, sq) && (if white {
                    w_front_span_of(1u64 << sq)
                } else {
                    b_front_span_of(1u64 << sq)
                }) & enemy_pieces == 0)),
        decreases passed_board,
    {
        proof {
            axiom_u64_trailing_zeros(passed_board);
        }
        let idx = passed_board.trailing_zeros() as u64;
        let piece = 1u64 << idx;
        let span = if white {
            w_front_span(piece)
        } else {
            b_front_span(piece)
        };
        let old_nb = passed_not_blocked;
        let old_pb = passed_board;
        if span & enemy_pieces == 0u64 {
            passed_not_blocked = passed_not_blocked | piece;
            proof {
                lemma_set_square(old_nb, idx);
            }
        }
        passed_board = passed_board ^ piece;
        proof {
            lemma_clear_square(old_pb, idx);
        }
    }
    proof {
        lemma_square_basics(0u64, 0u64);
        assert forall|sq: u64| sq < 64 implies (#[trigger] has_square(passed_not_blocked, sq) <==> (
        has_square(passed_board_cl, sq) && (if white {
            w_front_span_of(1u64 << sq)
        } else {
            b_front_span_of(1u64 << sq)
        }) & enemy_pieces == 0)) by {
            assert(!has_square(passed_board, sq));
        }
    }
    (passed_board_cl, passed_not_blocked)
}

/// White passed pawns: pawns with no black pawn ahead on their file or the files beside it
/// (given as the black pawns' front spans widened to the side files), and those of them with
/// no enemy piece ahead on their file.
pub fn w_passed_pawns(w_pawns: u64, b_pawns_all_front_spans: u64, enemy_pieces: u64) -> (r: (
    u64,
    u64,
))
    ensures
        r.0 == w_pawns & !b_pawns_all_front_spans,
        not_blocked_squares(r.0, r.1, enemy_pieces, true),
{
    passed_pawns_of(w_pawns, b_pawns_all_front_spans, enemy_pieces, true)
}

/// Black passed pawns, as `w_passed_pawns` with the board seen from black.
pub fn b_passed_pawns(b_pawns: u64, w_pawns_all_front_spans: u64, enemy_pieces: u64) -> (r: (
    u64,
    u64,
))
    ensures
        r.0 == b_pawns & !w_pawns_all_front_spans,
        not_blocked_squares(r.0, r.1, enemy_pieces, false),
{
    passed_pawns_of(b_pawns, w_pawns_all_front_spans, enemy_pieces, false)
}

/// The passed pawns of white, counting only the frontmost pawn of each file.
pub fn passed_eval_white(w_pawns: u64, b_pawns_all_front_spans: u64, enemy_pieces: u64) -> (r:
    PassedEvaluation)
    ensures
        r@.0 == (w_pawns & !b_front_span_of(w_pawns)) & !b_pawns_all_front_spans,
        not_blocked_squares(r@.0, r@.1, enemy_pieces, true),
        r@.2,
{
    let (passed_pawns, passed_not_blocked) = w_passed_pawns(
        w_pawns & !w_rear_span(w_pawns),
        b_pawns_all_front_spans,
        enemy_pieces,
    );
    PassedEvaluation { passed_pawns, passed_not_blocked_pawns: passed_not_blocked, is_white: true }
}

/// The passed pawns of black, counting only the frontmost pawn of each file.
pub fn passed_eval_black(b_pawns: u64, w_pawns_all_front_spans: u64, enemy_pieces: u64) -> (r:
    PassedEvaluation)
    ensures
        r@.0 == (b_pawns & !w_front_span_of(b_pawns)) & !w_pawns_all_front_spans,
        not_blocked_squares(r@.0, r@.1, enemy_pieces, false),
        !r@.2,
{
    let (passed_pawns, passed_not_blocked) = b_passed_pawns(
        b_pawns & !b_rear_span(b_pawns),
        w_pawns_all_front_spans,
        enemy_pieces,
    );
    PassedEvaluation { passed_pawns, passed_not_blocked_pawns: passed_not_blocked, is_white: false }
}

} // verus!
