use vstd::prelude::*;

use crate::board::GameMove;
use crate::heuristics::HistoryTable;
use crate::movelist::{grade, highest, moves_of, GradedMove};
use crate::moveordering::{
    cheap_good, cheap_index, grade_quiets, initial_state, is_cheap_capture, killer_match,
    lemma_after_exchange_wf, lemma_cheap_index, lemma_grade_quiets, lemma_stage_action_wf,
    lemma_step_wf, needs_exchange, MoveOrderingStage, OrdererState, StageSequence, Step,
};

verus! {

/// Exhaustion is complete: once a request answers `Exhausted`, a sequence that ends with the
/// deferred captures has handed out exactly the hints and the generated moves, each once. The
/// quiescence sequence has handed out all of them but what its list still holds, and that is
/// only non-captures and captures whose exchange value was negative.
pub proof fn lemma_exhaustion_complete(
    s: OrdererState,
    killers: Seq<Option<GameMove>>,
    hist: HistoryTable,
    side: int,
)
    requires
        s.wf(),
        s.step(killers, hist, side).1 == Step::Exhausted,
    ensures
        ({
            let e = s.step(killers, hist, side).0;
            &&& e.emitted.no_duplicates()
            &&& e.stages.ends_with_bad_captures() ==> e.emitted.to_set() == e.target()
            &&& !e.stages.ends_with_bad_captures() ==> {
                &&& e.emitted.to_set() + moves_of(e.list).to_set() == e.target()
                &&& forall|k: int|
                    0 <= k < e.list.len() && (#[trigger] e.list[k]).0.spec_is_capture() ==> {
                        &&& e.list[k].1 is Some
                        &&& grade(e.list[k]) < 0
                    }
            }
        }),
{
    lemma_step_wf(s, killers, hist, side);
    let e = s.step(killers, hist, side).0;
    assert(e.stage == e.len());
    assert(e.stage > e.stages.generation_index());
    assert(e.pending is None);
    if e.stages.ends_with_bad_captures() {
        assert(moves_of(e.list).len() == 0);
        assert(e.held() =~= e.emitted.to_set());
        assert(e.emitted.to_set() =~= e.target());
    } else {
        assert(e.held() =~= e.emitted.to_set() + moves_of(e.list).to_set());
    }
}

/// No move is handed out twice: each answer hands out at most one move, one not handed out
/// before, and the record of handed-out moves stays free of duplicates.
pub proof fn lemma_at_most_once(
    s: OrdererState,
    killers: Seq<Option<GameMove>>,
    hist: HistoryTable,
    side: int,
    value: int,
)
    requires
        s.wf(),
        i16::MIN <= value <= i16::MAX,
    ensures
        ({
            let (t, r) = s.step(killers, hist, side);
            &&& t.emitted.no_duplicates()
            &&& match r {
                Step::Move(m, _) => !s.emitted.contains(m) && t.emitted == s.emitted.push(m),
                _ => t.emitted == s.emitted,
            }
        }),
        s.pending is Some ==> {
            let (t, r) = s.after_exchange(value);
            &&& t.emitted.no_duplicates()
            &&& match r {
                Some(m) => !s.emitted.contains(m) && t.emitted == s.emitted.push(m),
                None => t.emitted == s.emitted,
            }
        },
{
    lemma_step_wf(s, killers, hist, side);
    if s.pending is Some {
        lemma_after_exchange_wf(s, value);
    }
}

/// The PV hint comes first, then the TT hint when it differs; a TT hint equal to the PV hint
/// is not handed out again, and the next request asks for generation.
pub proof fn lemma_hint_precedence(
    gen_only_captures: bool,
    pv: Option<GameMove>,
    tt: Option<GameMove>,
    killers: Seq<Option<GameMove>>,
    hist: HistoryTable,
    side: int,
)
    ensures
        ({
            let s0 = initial_state(StageSequence::Normal, gen_only_captures, pv, tt);
            let (s1, r1) = s0.step(killers, hist, side);
            let (s2, r2) = s1.step(killers, hist, side);
            &&& pv is Some ==> r1 == Step::Move(pv.unwrap(), 0)
            &&& pv is Some && tt is Some && tt != pv ==> r2 == Step::Move(tt.unwrap(), 0)
            &&& pv is Some && tt == pv ==> r2 == Step::GenerateMoves
        }),
{
    let s0 = initial_state(StageSequence::Normal, gen_only_captures, pv, tt);
    let (s1, r1) = s0.step(killers, hist, side);
    if pv is Some {
        assert(s1 == s0.advance().emit_hint(pv.unwrap()));
        assert(s1.current() == MoveOrderingStage::TTMove);
        if tt == pv {
            let s2 = s1.advance();
            assert(s2.current() == MoveOrderingStage::GoodCaptureInitialization);
            assert(s1.stage_action(killers, hist, side) == (s2, None::<Step>));
            assert(s2.step(killers, hist, side) == (s2, Step::GenerateMoves));
        }
    }
}

/// Deferred captures come last: when the pipeline reaches the deferred captures, every move
/// left is a capture whose exchange value was negative, so every quiet move and every capture
/// settled by its material difference that the pipeline accounts for has been handed out.
pub proof fn lemma_deferred_captures_last(s: OrdererState)
    requires
        s.wf(),
        0 <= s.stage < s.len(),
        s.current() == MoveOrderingStage::BadCapture,
    ensures
        s.pending is None,
        forall|k: int|
            0 <= k < s.list.len() ==> {
                &&& needs_exchange((#[trigger] s.list[k]).0)
                &&& s.list[k].1 is Some
                &&& grade(s.list[k]) < 0
            },
        forall|x: GameMove| s.target().contains(x) && !needs_exchange(x) ==> s.emitted.contains(x),
{
    assert(s.stage > s.stages.generation_index());
    assert forall|x: GameMove| s.target().contains(x) && !needs_exchange(x) implies s.emitted.contains(
        x,
    ) by {
        assert(s.held().contains(x));
        if moves_of(s.list).contains(x) {
            let k = choose|k: int| 0 <= k < moves_of(s.list).len() && moves_of(s.list)[k] == x;
            assert(s.list[k].0 == x);
        }
    }
}

/// Losing captures come last over a whole run: a request that hands out a capture deferred by
/// a negative exchange value does so only once every move that the pipeline accounts for and
/// that needs no exchange value (every quiet move among them) has been handed out.
pub proof fn lemma_losing_captures_after_the_rest(
    s: OrdererState,
    killers: Seq<Option<GameMove>>,
    hist: HistoryTable,
    side: int,
    k: int,
)
    requires
        s.wf(),
        0 <= k < s.list.len(),
        s.list[k].1 is Some,
        grade(s.list[k]) < 0,
    ensures
        match s.step(killers, hist, side).1 {
            Step::Move(m, _) => m == s.list[k].0 ==> forall|x: GameMove|
                s.target().contains(x) && !needs_exchange(x) ==> s.emitted.contains(x),
            _ => true,
        },
    decreases s.len() - s.stage,
{
    if s.pending is None && 0 <= s.stage < s.len() {
        lemma_stage_action_wf(s, killers, hist, side);
        let (n, a) = s.stage_action(killers, hist, side);
        let len = s.list.len() as int;
        assert(forall|a: int| 0 <= a < len ==> moves_of(s.list)[a] == s.list[a].0);
        assert forall|a: int| 0 <= a < len && a != k implies s.list[a].0 != s.list[k].0 by {
            assert(moves_of(s.list)[a] == s.list[a].0);
            assert(moves_of(s.list)[k] == s.list[k].0);
        }
        match s.current() {
            MoveOrderingStage::BadCapture => {
                lemma_deferred_captures_last(s);
            },
            MoveOrderingStage::GoodCapture => {
                crate::movelist::lemma_best_index(s.list, len);
                lemma_cheap_index(s.list, len);
            },
            MoveOrderingStage::Killer => {
                crate::moveordering::lemma_killer_index(s.list, killers, len);
            },
            MoveOrderingStage::Quiet => {
                crate::movelist::lemma_best_index(s.list, len);
            },
            MoveOrderingStage::QuietInitialization => {
                lemma_grade_quiets(s.list, hist, side);
            },
            _ => {},
        }
        if a is None {
            assert(n.emitted == s.emitted && n.target() == s.target());
            lemma_losing_captures_after_the_rest(n, killers, hist, side, k);
        }
    }
}

/// Captures settled by the cheap material test come first: the capture stage sets a capture
/// aside for an exchange evaluation only when no such capture is left, so by then every one
/// that the pipeline accounts for has been handed out. Of those captures it hands out the one
/// with the highest grade.
pub proof fn lemma_cheap_captures_first(
    s: OrdererState,
    killers: Seq<Option<GameMove>>,
    hist: HistoryTable,
    side: int,
)
    requires
        s.wf(),
        s.pending is None,
        0 <= s.stage < s.len(),
        s.current() == MoveOrderingStage::GoodCapture,
    ensures
        ({
            let (t, r) = s.step(killers, hist, side);
            &&& r is EvaluateExchange && t.stage == s.stage ==> {
                &&& forall|k: int|
                    0 <= k < s.list.len() ==> !(#[trigger] s.list[k]).0.spec_is_capture() || !cheap_good(
                        s.list[k].0,
                    )
                &&& forall|m: GameMove|
                    s.target().contains(m) && m.spec_is_capture() && cheap_good(m)
                        ==> s.emitted.contains(m)
            }
            &&& r is Move && t.stage == s.stage ==> exists|j: int|
                0 <= j < s.list.len() && r == Step::Move((#[trigger] s.list[j]).0, 0)
                    && is_cheap_capture(s.list[j]) && forall|k: int|
                    0 <= k < s.list.len() && is_cheap_capture(#[trigger] s.list[k]) ==> grade(
                        s.list[k],
                    ) <= grade(s.list[j])
        }),
{
    lemma_stage_action_wf(s, killers, hist, side);
    let (n, a) = s.stage_action(killers, hist, side);
    let len = s.list.len() as int;
    crate::movelist::lemma_best_index(s.list, len);
    lemma_cheap_index(s.list, len);
    if a is None {
        lemma_step_wf(n, killers, hist, side);
    } else if cheap_index(s.list, len) is None {
        assert(s.stage > s.stages.generation_index());
        assert forall|k: int| 0 <= k < len implies !(#[trigger] s.list[k]).0.spec_is_capture()
            || !cheap_good(s.list[k].0) by {
            assert(!is_cheap_capture(s.list[k]));
        }
        assert forall|m: GameMove|
            s.target().contains(m) && m.spec_is_capture() && cheap_good(m) implies s.emitted.contains(
            m,
        ) by {
            assert(s.held().contains(m));
            if moves_of(s.list).contains(m) {
                let k = choose|k: int| 0 <= k < moves_of(s.list).len() && moves_of(s.list)[k] == m;
                assert(s.list[k].0 == m);
                assert(!is_cheap_capture(s.list[k]));
            }
        }
    }
}

/// Quiet moves are graded in the order of their ratios: when the quiet grading stage runs, of
/// two ungraded moves tried at least once, the one with the higher history / butterfly ratio
/// gets the higher grade.
pub proof fn lemma_quiet_grades_follow_ratio(
    s: OrdererState,
    hist: HistoryTable,
    side: int,
    i: int,
    j: int,
)
    requires
        s.wf(),
        hist.wf(),
        0 <= side < 2,
        0 <= i < s.list.len(),
        0 <= j < s.list.len(),
        s.list[i].1 is None,
        s.list[j].1 is None,
        hist.butterfly(side, s.list[i].0) > 0,
        hist.butterfly(side, s.list[j].0) > 0,
        hist.history(side, s.list[i].0) * hist.butterfly(side, s.list[j].0) > hist.history(
            side,
            s.list[j].0,
        ) * hist.butterfly(side, s.list[i].0),
    ensures
        grade(grade_quiets(s.list, hist, side)[i]) > grade(grade_quiets(s.list, hist, side)[j]),
{
    let (mi, mj) = (s.list[i].0, s.list[j].0);
    let ki = crate::heuristics::slot(side, mi.from as int, mi.to as int);
    let kj = crate::heuristics::slot(side, mj.from as int, mj.to as int);
    assert(0 <= ki < crate::heuristics::HISTORY_SLOTS && 0 <= kj < crate::heuristics::HISTORY_SLOTS);
    lemma_grade_quiets(s.list, hist, side);
    crate::heuristics::lemma_rank_range(hist.history(side, mi), hist.butterfly(side, mi));
    crate::heuristics::lemma_rank_range(hist.history(side, mj), hist.butterfly(side, mj));
    crate::heuristics::lemma_rank_order(
        hist.history(side, mi),
        hist.butterfly(side, mi),
        hist.history(side, mj),
        hist.butterfly(side, mj),
    );
}

/// The quiet stage hands out by grade: while two entries remain, a request in the quiet stage
/// does not hand out the one with the lower grade. With the grading law above, of two quiet
/// moves the one with the higher history / butterfly ratio comes out first.
pub proof fn lemma_quiet_stage_by_grade(
    s: OrdererState,
    killers: Seq<Option<GameMove>>,
    hist: HistoryTable,
    side: int,
    i: int,
    j: int,
)
    requires
        s.wf(),
        s.pending is None,
        0 <= s.stage < s.len(),
        s.current() == MoveOrderingStage::Quiet,
        0 <= i < s.list.len(),
        0 <= j < s.list.len(),
        s.list[i].1 is Some,
        s.list[j].1 is Some,
        grade(s.list[i]) > grade(s.list[j]),
    ensures
        match s.step(killers, hist, side).1 {
            Step::Move(m, _) => m != s.list[j].0,
            _ => true,
        },
{
    let len = s.list.len() as int;
    crate::movelist::lemma_best_index(s.list, len);
    let b = highest(s.list).unwrap();
    assert(b != j);
    assert(moves_of(s.list)[b] == s.list[b].0 && moves_of(s.list)[j] == s.list[j].0);
    if grade(s.list[b]) < 0 {
        let adv = s.advance();
        assert(adv.current() == MoveOrderingStage::BadCapture);
        assert(highest(adv.list) == Some(b));
        assert(adv.step(killers, hist, side).1 == adv.stage_action(killers, hist, side).1.unwrap());
    }
}

/// A killer hit is a remaining ungraded candidate: a request in the killer stage that hands
/// out a move and stays in that stage hands out a move of the list that a killer slot holds.
pub proof fn lemma_killer_hit(
    s: OrdererState,
    killers: Seq<Option<GameMove>>,
    hist: HistoryTable,
    side: int,
)
    requires
        s.wf(),
        s.pending is None,
        0 <= s.stage < s.len(),
        s.current() == MoveOrderingStage::Killer,
    ensures
        ({
            let (t, r) = s.step(killers, hist, side);
            match r {
                Step::Move(x, _) => t.stage == s.stage ==> exists|k: int|
                    0 <= k < s.list.len() && (#[trigger] s.list[k]).0 == x && killer_match(
                        s.list[k],
                        killers,
                    ),
                _ => true,
            }
        }),
{
    lemma_stage_action_wf(s, killers, hist, side);
    let (n, a) = s.stage_action(killers, hist, side);
    match crate::moveordering::killer_index(s.list, killers, s.list.len() as int) {
        Some(_) => {
            crate::moveordering::lemma_killer_index(s.list, killers, s.list.len() as int);
        },
        None => {
            lemma_step_wf(n, killers, hist, side);
        },
    }
}

/// Whether an entry may still be handed out by the capture or quiet stages: it is not a
/// capture deferred by a negative grade.
pub open spec fn is_open(g: GradedMove) -> bool {
    !(g.1 is Some && grade(g) < 0)
}

/// Number of open entries of a list.
pub open spec fn open_count(l: Seq<GradedMove>) -> int
    decreases l.len(),
{
    if l.len() == 0 {
        0
    } else {
        open_count(l.drop_last()) + if is_open(l.last()) {
            1int
        } else {
            0
        }
    }
}

/// What is left to do: stages ahead, entries in the list (open ones counted more), and a
/// capture waiting for its exchange value.
pub open spec fn remaining_work(s: OrdererState) -> int {
    (s.len() - s.stage) + 2 * s.list.len() + 2 * open_count(s.list) + if s.pending is Some {
        3int
    } else {
        0
    }
}

proof fn lemma_open_count_remove(l: Seq<GradedMove>, i: int)
    requires
        0 <= i < l.len(),
    ensures
        open_count(l) == open_count(l.remove(i)) + if is_open(l[i]) {
            1int
        } else {
            0
        },
    decreases l.len(),
{
    if i == l.len() - 1 {
        assert(l.remove(i) =~= l.drop_last());
    } else {
        let r = l.remove(i);
        assert(r.drop_last() =~= l.drop_last().remove(i));
        assert(r.last() == l.last());
        lemma_open_count_remove(l.drop_last(), i);
    }
}

proof fn lemma_open_count_grade_quiets(l: Seq<GradedMove>, hist: HistoryTable, side: int)
    ensures
        open_count(grade_quiets(l, hist, side)) == open_count(l),
    decreases l.len(),
{
    lemma_grade_quiets(l, hist, side);
    if l.len() > 0 {
        let q = grade_quiets(l, hist, side);
        assert(q.drop_last() =~= grade_quiets(l.drop_last(), hist, side));
        lemma_open_count_grade_quiets(l.drop_last(), hist, side);
        assert(q.last() == q[l.len() - 1]);
    }
}

/// Every request lowers the remaining work when it hands out a move or asks for an exchange
/// value (with none pending), and so does every exchange report; a generation request leaves
/// the pipeline waiting for the moves. So a pipeline whose caller answers its requests
/// reaches `Exhausted`.
pub proof fn lemma_progress(
    s: OrdererState,
    killers: Seq<Option<GameMove>>,
    hist: HistoryTable,
    side: int,
    value: int,
)
    requires
        s.wf(),
        i16::MIN <= value <= i16::MAX,
    ensures
        remaining_work(s) >= 0,
        ({
            let (t, r) = s.step(killers, hist, side);
            &&& s.pending is None && (r is Move || r is EvaluateExchange) ==> 0 <= remaining_work(t)
                < remaining_work(s)
            &&& r is GenerateMoves ==> t.awaits_generation() && remaining_work(t) <= remaining_work(s)
        }),
        s.pending is Some ==> 0 <= remaining_work(s.after_exchange(value).0) < remaining_work(s),
    decreases s.len() - s.stage,
{
    lemma_open_count_bounds(s.list);
    if s.pending is Some {
        lemma_after_exchange_wf(s, value);
        let c = s.pending.unwrap();
        let e = GradedMove(c, Some(value as i128));
        assert(s.list.push(e).drop_last() =~= s.list);
        lemma_open_count_bounds(s.after_exchange(value).0.list);
    } else if 0 <= s.stage < s.len() {
        lemma_stage_action_wf(s, killers, hist, side);
        let (n, a) = s.stage_action(killers, hist, side);
        lemma_open_count_bounds(n.list);
        match s.current() {
            MoveOrderingStage::GoodCapture => {
                crate::movelist::lemma_best_index(s.list, s.list.len() as int);
                lemma_cheap_index(s.list, s.list.len() as int);
                match highest(s.list) {
                    Some(i) => {
                        lemma_open_count_remove(s.list, i);
                    },
                    None => {},
                }
                match cheap_index(s.list, s.list.len() as int) {
                    Some(j) => {
                        lemma_open_count_remove(s.list, j);
                    },
                    None => {},
                }
            },
            MoveOrderingStage::Quiet | MoveOrderingStage::BadCapture => {
                crate::movelist::lemma_best_index(s.list, s.list.len() as int);
                match highest(s.list) {
                    Some(i) => {
                        lemma_open_count_remove(s.list, i);
                    },
                    None => {},
                }
            },
            MoveOrderingStage::Killer => {
                crate::moveordering::lemma_killer_index(s.list, killers, s.list.len() as int);
                match crate::moveordering::killer_index(s.list, killers, s.list.len() as int) {
                    Some(i) => {
                        lemma_open_count_remove(s.list, i);
                    },
                    None => {},
                }
            },
            MoveOrderingStage::QuietInitialization => {
                lemma_open_count_grade_quiets(s.list, hist, side);
            },
            _ => {},
        }
        if a is None {
            lemma_progress(n, killers, hist, side, value);
        }
    }
}

/// The open count lies between zero and the list's length.
proof fn lemma_open_count_bounds(l: Seq<GradedMove>)
    ensures
        0 <= open_count(l) <= l.len(),
    decreases l.len(),
{
    if l.len() > 0 {
        lemma_open_count_bounds(l.drop_last());
    }
}

} // verus!
