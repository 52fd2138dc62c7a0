use chess_core::bitboards::{
    b_front_span, count_squares, north_fill, south_fill, w_front_span, w_rear_span,
};
use chess_core::board::PieceType;
use chess_core::evaluation::{get_distance, piece_values, EvaluationResult, EvaluationScore};
use chess_core::passed_evaluation::{
    b_passed_pawns, passed_eval_black, passed_eval_white, w_passed_pawns, PassedEvaluation,
};
use chess_core::psqt_evaluation::{
    psqt, psqt_incremental_add_piece, psqt_incremental_delete_piece, psqt_incremental_move_piece,
};

fn sq(s: u32) -> u64 {
    1u64 << s
}

#[test]
fn distances() {
    assert_eq!(get_distance(0, 63), 7);
    assert_eq!(get_distance(12, 12), 0);
    assert_eq!(get_distance(9, 27), 2);
    assert_eq!(get_distance(7, 8), 7);
}

#[test]
fn fills_and_spans() {
    assert_eq!(north_fill(sq(8)), 0x0101_0101_0101_0100);
    assert_eq!(south_fill(sq(48)), 0x0001_0101_0101_0101);
    assert_eq!(w_front_span(sq(8)), 0x0101_0101_0101_0000);
    assert_eq!(b_front_span(sq(48)), 0x0000_0101_0101_0101);
    assert_eq!(w_rear_span(sq(24)), 0x0000_0000_0001_0101);
}

#[test]
fn white_passers() {
    // White pawns on a2 and e4; a black pawn on d6 guards e4's path.
    let w = sq(8) | sq(28);
    let black_spans = {
        let s = b_front_span(sq(43));
        s | ((s << 1) & !0x0101_0101_0101_0101) | ((s >> 1) & !0x8080_8080_8080_8080)
    };
    // A black knight blocks a7.
    let (passed, free) = w_passed_pawns(w, black_spans, sq(48));
    assert_eq!(passed, sq(8));
    assert_eq!(free, 0);
    let (passed, free) = w_passed_pawns(w, black_spans, sq(49));
    assert_eq!(passed, sq(8));
    assert_eq!(free, sq(8));
}

#[test]
fn black_passers() {
    let b = sq(48) | sq(55);
    let (passed, free) = b_passed_pawns(b, 0, sq(15));
    assert_eq!(passed, b);
    assert_eq!(free, sq(48));
}

#[test]
fn passed_evaluations_keep_front_pawn_per_file() {
    // Doubled white pawns on a2 and a3: only a3 counts.
    let e = passed_eval_white(sq(8) | sq(16), 0, 0);
    assert_eq!(e.passed_pawns(), sq(16));
    assert_eq!(e.passed_not_blocked_pawns(), sq(16));
    assert!(e.is_white());
    // Doubled black pawns on h7 and h6: only h6 counts, blocked by a piece on h2.
    let e = passed_eval_black(sq(55) | sq(47), 0, sq(15));
    assert_eq!(e.passed_pawns(), sq(47));
    assert_eq!(e.passed_not_blocked_pawns(), 0);
    assert!(!e.is_white());
    let c = PassedEvaluation::new(3, 1, true).copy();
    assert_eq!((c.passed_pawns(), c.passed_not_blocked_pawns(), c.is_white()), (3, 1, true));
}

#[test]
fn incremental_piece_square_values() {
    // White pawn e2 -> e4: mg -26 -> 33, eg -16 -> -9.
    assert_eq!(psqt_incremental_move_piece(&PieceType::Pawn, 12, 28, false, 0, 0), (59, 7));
    // Black pawn e7 -> e5 mirrors to white's d2 -> d4, negated.
    assert_eq!(psqt_incremental_move_piece(&PieceType::Pawn, 52, 36, true, 10, 10), (-63, -8));
    // Rooks have no table.
    assert_eq!(psqt_incremental_move_piece(&PieceType::Rook, 0, 56, false, 5, 6), (5, 6));
    // White knight added on g1, then removed.
    assert_eq!(psqt_incremental_add_piece(&PieceType::Knight, 6, false, 0, 0), (-40, -43));
    assert_eq!(psqt_incremental_delete_piece(&PieceType::Knight, 6, false, -40, -43), (0, 0));
    // Black king on e8 mirrors to d1.
    assert_eq!(psqt_incremental_add_piece(&PieceType::King, 60, true, 0, 0), (24, 73));
}

#[test]
fn piece_square_sums() {
    let mut pieces = [[0u64; 2]; 6];
    pieces[0][0] = sq(12) | sq(13);
    pieces[1][0] = sq(6);
    pieces[5][0] = sq(4);
    pieces[5][1] = sq(60);
    let mut eval = EvaluationResult { final_eval: 7 };
    // Pawns e2, f2: (-26 - 24, -16 - 19); knight g1: (-40, -43); king e1: (47, -99).
    assert_eq!(psqt(true, &pieces, &mut eval), (-43, -177));
    assert_eq!(eval.final_eval, 7);
    // Black king e8 mirrors to d1: (-24, -73).
    assert_eq!(psqt(false, &pieces, &mut eval), (-24, -73));
    assert_eq!(EvaluationScore::default(), EvaluationScore(0, 0));
}

#[test]
fn passed_pawn_bonuses() {
    // A free white passer on a5 (fifth rank): 50 + 70 in the middle game, 40 + 80 in the end game.
    let w = PassedEvaluation::new(sq(32), sq(32), true);
    assert_eq!(w.eval_mg(), 120);
    assert_eq!(w.eval_eg(), 120);
    assert_eq!(w.eval_mg_eg(), (120, 120));
    // A blocked black passer on h3, its sixth rank: 70 and 60.
    let b = PassedEvaluation::new(sq(23), 0, false);
    assert_eq!(b.eval_mg_eg(), (70, 60));
    assert_eq!(PassedEvaluation::new(0, 0, true).eval_mg_eg(), (0, 0));
}

#[test]
fn material_terms() {
    let mut pieces = [[0u64; 2]; 6];
    pieces[0][0] = 0xff00;
    pieces[0][1] = 0x00ff_0000_0000_0000;
    pieces[1][0] = sq(1) | sq(6);
    pieces[2][0] = sq(2) | sq(5);
    pieces[3][0] = sq(0) | sq(7);
    pieces[4][0] = sq(3);
    pieces[5][0] = sq(4);
    pieces[5][1] = sq(60);
    let mut eval = EvaluationResult { final_eval: 0 };
    assert_eq!(piece_values(true, &pieces, &mut eval), EvaluationScore(5714, 9567));
    // Black with pawns only.
    assert_eq!(piece_values(false, &pieces, &mut eval), EvaluationScore(848, 1496));
    // A lone black knight is worth nothing.
    pieces[0][1] = 0;
    pieces[1][1] = sq(57);
    assert_eq!(piece_values(false, &pieces, &mut eval), EvaluationScore(0, 0));
    // A black bishop and rook: no pair, no lone piece.
    pieces[1][1] = 0;
    pieces[2][1] = sq(58);
    pieces[3][1] = sq(63);
    assert_eq!(piece_values(false, &pieces, &mut eval), EvaluationScore(1152, 1997));
}

#[test]
fn square_counts() {
    assert_eq!(count_squares(0), 0);
    assert_eq!(count_squares(u64::MAX), 64);
    assert_eq!(count_squares(0x8000_0000_0000_0101), 3);
}

#[test]
fn score_arithmetic() {
    let a = EvaluationScore(10, -4);
    assert_eq!(a + EvaluationScore(5, 6), EvaluationScore(15, 2));
    assert_eq!(a + 3, EvaluationScore(13, -1));
    assert_eq!(a - EvaluationScore(5, 6), EvaluationScore(5, -10));
    assert_eq!(a * 3, EvaluationScore(30, -12));
}
