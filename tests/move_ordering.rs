use chess_core::board::{GameMove, GameMoveType, PieceType};
use chess_core::heuristics::HistoryTable;
use chess_core::movelist::{GradedMove, MoveList};
use chess_core::moveordering::{mvvlva, MoveOrderer, StageSequence, Step};

fn mv(from: u8, to: u8, piece_type: PieceType, move_type: GameMoveType) -> GameMove {
    GameMove { from, to, move_type, piece_type }
}

fn quiet(from: u8, to: u8, piece_type: PieceType) -> GameMove {
    mv(from, to, piece_type, GameMoveType::Quiet)
}

fn capture(from: u8, to: u8, piece_type: PieceType, victim: PieceType) -> GameMove {
    mv(from, to, piece_type, GameMoveType::Capture(victim))
}

/// Drives a pipeline to exhaustion: hands it `generated` when asked, and the exchange value
/// that `exchanges` lists for a capture (zero when it lists none). Returns the moves in the
/// order handed out, with the number of generation requests.
fn drive(
    orderer: &mut MoveOrderer,
    generated: &[GameMove],
    has_legal_move: bool,
    exchanges: &[(GameMove, i16)],
    killers: &[Option<GameMove>; 2],
    history: &HistoryTable,
) -> (Vec<GameMove>, usize) {
    let mut out = Vec::new();
    let mut generations = 0;
    for _ in 0..1000 {
        match orderer.next(killers, history, 0) {
            Step::Move(m, _) => out.push(m),
            Step::GenerateMoves => {
                generations += 1;
                orderer.moves_generated(generated, has_legal_move);
            }
            Step::EvaluateExchange(c) => {
                let value = exchanges.iter().find(|(m, _)| *m == c).map(|(_, v)| *v).unwrap_or(0);
                if let Some(m) = orderer.exchange_evaluated(value) {
                    out.push(m);
                }
            }
            Step::Exhausted => return (out, generations),
        }
    }
    panic!("pipeline did not finish");
}

fn new_orderer(stages: StageSequence, pv: Option<GameMove>, tt: Option<GameMove>) -> MoveOrderer {
    MoveOrderer::new(stages, stages == StageSequence::Quiescence, pv, tt, MoveList::new())
}

#[test]
fn queen_capture_quiets_then_losing_capture() {
    let pxq = capture(27, 36, PieceType::Pawn, PieceType::Queen);
    let nxp = capture(21, 38, PieceType::Knight, PieceType::Pawn);
    let q1 = quiet(12, 20, PieceType::Bishop);
    let q2 = quiet(6, 7, PieceType::King);
    let mut history = HistoryTable::new();
    // q1: 1 cutoff in 4 tries; q2: 3 cutoffs in 4 tries.
    history.record_cutoff(0, &q1);
    for _ in 0..3 {
        history.record_cutoff(0, &q2);
    }
    for _ in 0..4 {
        history.record_tried(0, &q1);
        history.record_tried(0, &q2);
    }
    let mut o = new_orderer(StageSequence::Normal, None, None);
    let generated = vec![q1, nxp, q2, pxq];
    let (order, _) = drive(&mut o, &generated, true, &[(nxp, -300)], &[None, None], &history);
    assert_eq!(order, vec![pxq, q2, q1, nxp]);
}

#[test]
fn quiescence_without_captures_reports_legal_moves() {
    let mut o = new_orderer(StageSequence::Quiescence, None, None);
    let killers = [None, None];
    let history = HistoryTable::new();
    assert_eq!(o.next(&killers, &history, 0), Step::GenerateMoves);
    o.moves_generated(&[], true);
    assert_eq!(o.next(&killers, &history, 0), Step::Exhausted);
    assert!(o.has_legal_move());
    assert_eq!(o.next(&killers, &history, 0), Step::Exhausted);

    let mut mate = new_orderer(StageSequence::Quiescence, None, None);
    assert_eq!(mate.next(&killers, &history, 0), Step::GenerateMoves);
    mate.moves_generated(&[], false);
    assert_eq!(mate.next(&killers, &history, 0), Step::Exhausted);
    assert!(!mate.has_legal_move());
}

#[test]
fn every_generated_move_handed_out_once() {
    let a = quiet(8, 16, PieceType::Pawn);
    let b = quiet(1, 18, PieceType::Knight);
    let c = capture(28, 35, PieceType::Pawn, PieceType::Knight);
    let d = capture(3, 35, PieceType::Queen, PieceType::Knight);
    let e = mv(52, 60, PieceType::Pawn, GameMoveType::Promotion(PieceType::Queen, None));
    let f = mv(36, 43, PieceType::Pawn, GameMoveType::EnPassant);
    let generated = vec![a, b, c, d, e, f];
    let history = HistoryTable::new();
    let killers = [Some(b), Some(quiet(0, 1, PieceType::Rook))];
    let mut o = new_orderer(StageSequence::Normal, Some(c), Some(a));
    let (order, generations) =
        drive(&mut o, &generated, true, &[(d, -700)], &killers, &history);
    assert_eq!(generations, 1);
    assert_eq!(order.len(), generated.len());
    for m in &generated {
        assert_eq!(order.iter().filter(|x| *x == m).count(), 1);
    }
    assert_eq!(order[0], c);
    assert_eq!(order[1], a);
    assert_eq!(*order.last().unwrap(), d);
}

#[test]
fn in_check_quiescence_hands_out_all_moves() {
    let a = quiet(4, 5, PieceType::King);
    let b = capture(4, 12, PieceType::King, PieceType::Bishop);
    let c = capture(10, 12, PieceType::Queen, PieceType::Bishop);
    let generated = vec![a, b, c];
    let history = HistoryTable::new();
    let mut o = new_orderer(StageSequence::QuiescenceInCheck, None, None);
    let (order, _) = drive(&mut o, &generated, true, &[(c, -1000)], &[None, None], &history);
    assert_eq!(order, vec![b, a, c]);
}

#[test]
fn quiescence_drops_losing_captures() {
    let good = capture(9, 18, PieceType::Pawn, PieceType::Rook);
    let bad = capture(3, 18, PieceType::Queen, PieceType::Pawn);
    let generated = vec![bad, good];
    let history = HistoryTable::new();
    let mut o = new_orderer(StageSequence::Quiescence, None, None);
    let (order, _) = drive(&mut o, &generated, true, &[(bad, -900)], &[None, None], &history);
    assert_eq!(order, vec![good]);
}

#[test]
fn equal_hints_hand_out_one_move() {
    let h = quiet(12, 28, PieceType::Pawn);
    let other = quiet(11, 27, PieceType::Pawn);
    let generated = vec![other, h];
    let history = HistoryTable::new();
    let mut o = new_orderer(StageSequence::Normal, Some(h), Some(h));
    let killers = [None, None];
    assert_eq!(o.next(&killers, &history, 0), Step::Move(h, 0));
    assert_eq!(o.next(&killers, &history, 0), Step::GenerateMoves);
    o.moves_generated(&generated, true);
    assert_eq!(o.next(&killers, &history, 0), Step::Move(other, 0));
    assert_eq!(o.next(&killers, &history, 0), Step::Exhausted);
}

#[test]
fn pv_before_tt() {
    let p = quiet(6, 21, PieceType::Knight);
    let t = capture(21, 38, PieceType::Knight, PieceType::Bishop);
    let history = HistoryTable::new();
    let killers = [None, None];
    let mut o = new_orderer(StageSequence::Normal, Some(p), Some(t));
    assert_eq!(o.next(&killers, &history, 0), Step::Move(p, 0));
    assert_eq!(o.next(&killers, &history, 0), Step::Move(t, 0));
    assert_eq!(o.next(&killers, &history, 0), Step::GenerateMoves);
    assert_eq!(o.stage(), 2);
}

#[test]
fn quiescence_ignores_pv_hint() {
    let p = capture(9, 18, PieceType::Pawn, PieceType::Knight);
    let history = HistoryTable::new();
    let mut o = new_orderer(StageSequence::Quiescence, Some(p), None);
    let (order, _) = drive(&mut o, &[p], true, &[], &[None, None], &history);
    assert_eq!(order, vec![p]);
}

#[test]
fn cheap_captures_before_exchange_checked_ones() {
    let rxn = capture(0, 40, PieceType::Rook, PieceType::Knight);
    let pxp = capture(9, 16, PieceType::Pawn, PieceType::Pawn);
    let qxb = capture(3, 39, PieceType::Queen, PieceType::Bishop);
    let generated = vec![pxp, qxb, rxn];
    let history = HistoryTable::new();
    let mut o = new_orderer(StageSequence::Normal, None, None);
    let killers = [None, None];
    assert_eq!(o.next(&killers, &history, 0), Step::GenerateMoves);
    o.moves_generated(&generated, true);
    // Pawn takes pawn ranks lowest but needs no exchange evaluation.
    assert_eq!(o.next(&killers, &history, 0), Step::Move(pxp, 0));
    // Rook takes knight ranks highest of the others and risks more than it takes.
    assert_eq!(o.next(&killers, &history, 0), Step::EvaluateExchange(rxn));
    assert_eq!(o.next(&killers, &history, 0), Step::EvaluateExchange(rxn));
    assert_eq!(o.exchange_evaluated(-250), None);
    // Queen takes bishop comes next and its exchange breaks even.
    assert_eq!(o.next(&killers, &history, 0), Step::EvaluateExchange(qxb));
    assert_eq!(o.exchange_evaluated(0), Some(qxb));
    assert_eq!(o.next(&killers, &history, 0), Step::Move(rxn, -250));
    assert_eq!(o.next(&killers, &history, 0), Step::Exhausted);
}

#[test]
fn cheap_capture_before_even_exchange() {
    let pxp = capture(9, 16, PieceType::Pawn, PieceType::Pawn);
    let rxn = capture(0, 40, PieceType::Rook, PieceType::Knight);
    let history = HistoryTable::new();
    let mut o = new_orderer(StageSequence::Normal, None, None);
    let (order, _) = drive(&mut o, &[rxn, pxp], true, &[(rxn, 0)], &[None, None], &history);
    assert_eq!(order, vec![pxp, rxn]);
}

#[test]
fn close_history_ratios_keep_their_order() {
    let q1 = quiet(12, 20, PieceType::Bishop);
    let q2 = quiet(6, 7, PieceType::King);
    let mut history = HistoryTable::new();
    // q1: 2 cutoffs in 3001 tries; q2: 1 cutoff in 3000 tries.
    for _ in 0..2 {
        history.record_cutoff(0, &q1);
    }
    history.record_cutoff(0, &q2);
    for _ in 0..3000 {
        history.record_tried(0, &q1);
        history.record_tried(0, &q2);
    }
    history.record_tried(0, &q1);
    assert!(history.quiet_rank(0, &q1) > history.quiet_rank(0, &q2));
    let mut o = new_orderer(StageSequence::Normal, None, None);
    let (order, _) = drive(&mut o, &[q2, q1], true, &[], &[None, None], &history);
    assert_eq!(order, vec![q1, q2]);
}

#[test]
fn killer_absent_from_list_is_not_handed_out() {
    let k_absent = quiet(1, 18, PieceType::Knight);
    let k_present = quiet(6, 21, PieceType::Knight);
    let q = quiet(12, 20, PieceType::Pawn);
    let mut history = HistoryTable::new();
    history.record_cutoff(0, &q);
    history.record_tried(0, &q);
    let generated = vec![q, k_present];
    let killers = [Some(k_absent), Some(k_present)];
    let mut o = new_orderer(StageSequence::Normal, None, None);
    let (order, _) = drive(&mut o, &generated, true, &[], &killers, &history);
    assert_eq!(order, vec![k_present, q]);
}

#[test]
fn same_inputs_same_order() {
    let moves = vec![
        quiet(8, 16, PieceType::Pawn),
        quiet(9, 17, PieceType::Pawn),
        capture(28, 35, PieceType::Pawn, PieceType::Knight),
        capture(3, 35, PieceType::Queen, PieceType::Knight),
        capture(2, 35, PieceType::Bishop, PieceType::Knight),
        quiet(1, 18, PieceType::Knight),
    ];
    let mut history = HistoryTable::new();
    history.record_cutoff(0, &moves[1]);
    history.record_tried(0, &moves[1]);
    history.record_tried(0, &moves[0]);
    let killers = [Some(moves[5]), None];
    let exchanges = [(moves[3], -500)];
    let mut first = new_orderer(StageSequence::Normal, Some(moves[4]), None);
    let mut second = new_orderer(StageSequence::Normal, Some(moves[4]), None);
    let a = drive(&mut first, &moves, true, &exchanges, &killers, &history);
    let b = drive(&mut second, &moves, true, &exchanges, &killers, &history);
    assert_eq!(a, b);
    assert_eq!(a.0.len(), moves.len());
}

#[test]
fn mvvlva_ranks() {
    assert_eq!(mvvlva(&capture(27, 36, PieceType::Pawn, PieceType::Queen)), 1100);
    assert_eq!(mvvlva(&capture(3, 36, PieceType::Queen, PieceType::Pawn)), 96);
    assert_eq!(mvvlva(&capture(4, 12, PieceType::King, PieceType::Rook)), 645);
    assert_eq!(mvvlva(&mv(36, 43, PieceType::Pawn, GameMoveType::EnPassant)), 100);
    let promo = mv(52, 61, PieceType::Pawn, GameMoveType::Promotion(PieceType::Queen, Some(PieceType::Bishop)));
    assert_eq!(mvvlva(&promo), 400);
}

#[test]
fn quiet_rank_ratio() {
    let m = quiet(12, 28, PieceType::Pawn);
    let mut history = HistoryTable::new();
    assert_eq!(history.quiet_rank(0, &m), 0);
    for _ in 0..3 {
        history.record_cutoff(0, &m);
    }
    assert_eq!(history.quiet_rank(0, &m), 0);
    for _ in 0..4 {
        history.record_tried(0, &m);
    }
    assert_eq!(history.quiet_rank(0, &m), 3 * (1i128 << 64) / 4);
    assert_eq!(history.quiet_rank(1, &m), 0);
}

#[test]
fn highest_score_takes_first_of_equal_grades() {
    let a = quiet(8, 16, PieceType::Pawn);
    let b = quiet(9, 17, PieceType::Pawn);
    let c = quiet(10, 18, PieceType::Pawn);
    let list = MoveList {
        move_list: vec![GradedMove(a, None), GradedMove(b, Some(5)), GradedMove(c, Some(5))],
    };
    assert_eq!(list.highest_score(), Some((1, GradedMove(b, Some(5)))));
    assert_eq!(list.find_move(&c), 2);
    assert_eq!(list.find_move(&quiet(0, 1, PieceType::Rook)), 3);
    let empty = MoveList { move_list: vec![GradedMove(a, None)] };
    assert_eq!(empty.highest_score(), None);
}

#[test]
fn storage_is_reused() {
    let a = quiet(8, 16, PieceType::Pawn);
    let list = MoveList { move_list: vec![GradedMove(a, Some(3))] };
    let o = MoveOrderer::new(StageSequence::Normal, false, None, None, list);
    assert_eq!(o.into_list().move_list.len(), 0);
}
