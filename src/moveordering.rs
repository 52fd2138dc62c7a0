use vstd::prelude::*;

use crate::board::{same_move, GameMove, GameMoveType, PieceType};
use crate::heuristics::HistoryTable;
use crate::movelist::{
    grade, highest, lemma_best_index, lemma_moves_push, lemma_moves_remove, moves_of,
    GradedMove, MoveList,
};

verus! {

/// Cheap attacker weight of the MVV-LVA rank, by piece index.
pub const ATTACKER_VALUE: [i16; 6] = [0, 1, 2, 3, 4, 5];

/// Cheap victim weight of the MVV-LVA rank, by piece index (a king is never taken).
pub const TARGET_VALUE: [i16; 5] = [100, 400, 400, 650, 1100];

/// Material worth of each piece kind, by piece index.
pub const PIECE_VALUES: [i16; 6] = [100, 400, 400, 650, 1100, 30000];

/// MVV-LVA rank of a capture: victim weight minus attacker weight.
pub open spec fn mvvlva_rank(mv: GameMove) -> int {
    TARGET_VALUE[mv.captured().index() as int] - ATTACKER_VALUE[mv.piece_type.index() as int]
}

/// A capture that the cheap material difference settles: it takes at least as much as it
/// risks, or the king takes.
pub open spec fn cheap_good(mv: GameMove) -> bool {
    PIECE_VALUES[mv.captured().index() as int] - PIECE_VALUES[mv.piece_type.index() as int] >= 0
        || mv.piece_type == PieceType::King
}

/// A capture whose cheap material difference is negative: only an exchange evaluation can
/// tell whether it is good.
pub open spec fn needs_exchange(mv: GameMove) -> bool {
    mv.spec_is_capture() && !cheap_good(mv)
}

/// MVV-LVA rank of a capture.
pub fn mvvlva(mv: &GameMove) -> (r: i16)
    requires
        mv.spec_is_capture(),
        mv.captured() != PieceType::King,
    ensures
        r as int == mvvlva_rank(*mv),
        r > 0,
{
    TARGET_VALUE[mv.get_captured_piece().to_index()] - ATTACKER_VALUE[mv.piece_type.to_index()]
}

fn is_cheap_good(mv: &GameMove) -> (r: bool)
    ensures
        r == cheap_good(*mv),
{
    let victim = match mv.move_type {
        GameMoveType::Capture(p) => p,
        GameMoveType::Promotion(_, Some(p)) => p,
        _ => PieceType::Pawn,
    };
    PIECE_VALUES[victim.to_index()] - PIECE_VALUES[mv.piece_type.to_index()] >= 0
        || mv.piece_type == PieceType::King
}

/// The stages of the pipeline.
#[derive(Clone, Copy, Debug, PartialEq, Eq, Structural)]
pub enum MoveOrderingStage {
    PVMove,
    TTMove,
    GoodCaptureInitialization,
    GoodCapture,
    Killer,
    QuietInitialization,
    Quiet,
    BadCapture,
}

/// The three stage sequences: full search, quiescence, and quiescence with the side to move
/// in check.
#[derive(Clone, Copy, Debug, PartialEq, Eq, Structural)]
pub enum StageSequence {
    Normal,
    Quiescence,
    QuiescenceInCheck,
}

impl StageSequence {
    pub open spec fn stages(self) -> Seq<MoveOrderingStage> {
        match self {
            StageSequence::Normal => seq![
                MoveOrderingStage::PVMove,
                MoveOrderingStage::TTMove,
                MoveOrderingStage::GoodCaptureInitialization,
                MoveOrderingStage::GoodCapture,
                MoveOrderingStage::Killer,
                MoveOrderingStage::QuietInitialization,
                MoveOrderingStage::Quiet,
                MoveOrderingStage::BadCapture,
            ],
            StageSequence::Quiescence => seq![
                MoveOrderingStage::TTMove,
                MoveOrderingStage::GoodCaptureInitialization,
                MoveOrderingStage::GoodCapture,
            ],
            StageSequence::QuiescenceInCheck => seq![
                MoveOrderingStage::TTMove,
                MoveOrderingStage::GoodCaptureInitialization,
                MoveOrderingStage::GoodCapture,
                MoveOrderingStage::QuietInitialization,
                MoveOrderingStage::Quiet,
                MoveOrderingStage::BadCapture,
            ],
        }
    }

    /// Position of the generation stage in the sequence.
    pub open spec fn generation_index(self) -> int {
        match self {
            StageSequence::Normal => 2,
            _ => 1,
        }
    }

    /// Position of the quiet grading stage; the length of the sequence when it has none.
    pub open spec fn quiet_init_index(self) -> int {
        match self {
            StageSequence::Normal => 5,
            StageSequence::Quiescence => 3,
            StageSequence::QuiescenceInCheck => 3,
        }
    }

    /// Whether the sequence ends by handing out the deferred captures.
    pub open spec fn ends_with_bad_captures(self) -> bool {
        self != StageSequence::Quiescence
    }

    pub fn len(&self) -> (r: usize)
        ensures
            r == self.stages().len(),
    {
        match self {
            StageSequence::Normal => 8,
            StageSequence::Quiescence => 3,
            StageSequence::QuiescenceInCheck => 6,
        }
    }

    pub fn stage_at(&self, i: usize) -> (r: MoveOrderingStage)
        requires
            i < self.stages().len(),
        ensures
            r == self.stages()[i as int],
    {
        match self {
            StageSequence::Normal => {
                if i == 0 {
                    MoveOrderingStage::PVMove
                } else if i == 1 {
                    MoveOrderingStage::TTMove
                } else if i == 2 {
                    MoveOrderingStage::GoodCaptureInitialization
                } else if i == 3 {
                    MoveOrderingStage::GoodCapture
                } else if i == 4 {
                    MoveOrderingStage::Killer
                } else if i == 5 {
                    MoveOrderingStage::QuietInitialization
                } else if i == 6 {
                    MoveOrderingStage::Quiet
                } else {
                    MoveOrderingStage::BadCapture
                }
            },
            StageSequence::Quiescence => {
                if i == 0 {
                    MoveOrderingStage::TTMove
                } else if i == 1 {
                    MoveOrderingStage::GoodCaptureInitialization
                } else {
                    MoveOrderingStage::GoodCapture
                }
            },
            StageSequence::QuiescenceInCheck => {
                if i == 0 {
                    MoveOrderingStage::TTMove
                } else if i == 1 {
                    MoveOrderingStage::GoodCaptureInitialization
                } else if i == 2 {
                    MoveOrderingStage::GoodCapture
                } else if i == 3 {
                    MoveOrderingStage::QuietInitialization
                } else if i == 4 {
                    MoveOrderingStage::Quiet
                } else {
                    MoveOrderingStage::BadCapture
                }
            },
        }
    }
}

/// What a request to the pipeline answers.
#[derive(Clone, Copy, Debug, PartialEq, Eq, Structural)]
pub enum Step {
    /// The next move, with its exchange value when it is a deferred capture (else zero).
    Move(GameMove, i128),
    /// Legal moves are needed: generate them and hand them to `moves_generated`.
    GenerateMoves,
    /// The exchange value of this capture is needed: hand it to `exchange_evaluated`.
    EvaluateExchange(GameMove),
    /// Every move has been handed out.
    Exhausted,
}

/// The pipeline's state as a mathematical value.
pub ghost struct OrdererState {
    pub stage: int,
    pub stages: StageSequence,
    pub gen_only_captures: bool,
    pub has_legal_move: bool,
    pub pv: Option<GameMove>,
    pub tt: Option<GameMove>,
    pub list: Seq<GradedMove>,
    pub pending: Option<GameMove>,
    /// Every move handed out so far, in order.
    pub emitted: Seq<GameMove>,
    /// The moves that generation produced.
    pub generated: Set<GameMove>,
}

/// Whether `mv` is one of the two hints.
pub open spec fn is_hint(pv: Option<GameMove>, tt: Option<GameMove>, mv: GameMove) -> bool {
    pv == Some(mv) || tt == Some(mv)
}

/// The grade generation gives a move: its MVV-LVA rank for a capture, none otherwise.
pub open spec fn initial_grade(mv: GameMove) -> GradedMove {
    if mv.spec_is_capture() {
        GradedMove(mv, Some(mvvlva_rank(mv) as i128))
    } else {
        GradedMove(mv, None)
    }
}

/// The candidate list built from the generated moves: the hints left out (they were handed
/// out already), captures graded by MVV-LVA.
pub open spec fn initial_list(g: Seq<GameMove>, pv: Option<GameMove>, tt: Option<GameMove>) -> Seq<
    GradedMove,
>
    decreases g.len(),
{
    if g.len() == 0 {
        seq![]
    } else {
        let rest = initial_list(g.drop_last(), pv, tt);
        if is_hint(pv, tt, g.last()) {
            rest
        } else {
            rest.push(initial_grade(g.last()))
        }
    }
}

/// The list with every ungraded entry graded by the history tables.
pub open spec fn grade_quiets(s: Seq<GradedMove>, hist: HistoryTable, side: int) -> Seq<GradedMove> {
    s.map_values(
        |g: GradedMove|
            if g.1 is None {
                GradedMove(g.0, Some(hist.rank(side, g.0) as i128))
            } else {
                g
            },
    )
}

/// Whether an entry is a capture that the cheap material test settles, with a non-negative
/// grade.
pub open spec fn is_cheap_capture(g: GradedMove) -> bool {
    &&& g.1 is Some
    &&& grade(g) >= 0
    &&& g.0.spec_is_capture()
    &&& cheap_good(g.0)
}

/// Index of the highest-graded cheap capture among the first `n` entries, the earliest one on
/// a tie; `None` when there is none.
pub open spec fn cheap_index(s: Seq<GradedMove>, n: int) -> Option<int>
    decreases n,
{
    if n <= 0 {
        None
    } else {
        let b = cheap_index(s, n - 1);
        if !is_cheap_capture(s[n - 1]) {
            b
        } else {
            match b {
                None => Some(n - 1),
                Some(j) => if grade(s[n - 1]) > grade(s[j]) {
                    Some(n - 1)
                } else {
                    Some(j)
                },
            }
        }
    }
}

/// What `cheap_index` promises: the best cheap capture before `n`, or none there.
pub proof fn lemma_cheap_index(s: Seq<GradedMove>, n: int)
    requires
        0 <= n <= s.len(),
    ensures
        match cheap_index(s, n) {
            None => forall|k: int| 0 <= k < n ==> !is_cheap_capture(#[trigger] s[k]),
            Some(j) => {
                &&& 0 <= j < n
                &&& is_cheap_capture(s[j])
                &&& forall|k: int|
                    0 <= k < n && is_cheap_capture(#[trigger] s[k]) ==> grade(s[k]) <= grade(s[j])
            },
        },
    decreases n,
{
    if n > 0 {
        lemma_cheap_index(s, n - 1);
    }
}

/// Whether an entry is an ungraded move that one of the killer slots holds.
pub open spec fn killer_match(g: GradedMove, killers: Seq<Option<GameMove>>) -> bool {
    g.1 is None && (killers[0] == Some(g.0) || killers[1] == Some(g.0))
}

/// Index of the first killer match among the first `n` entries.
pub open spec fn killer_index(s: Seq<GradedMove>, killers: Seq<Option<GameMove>>, n: int) -> Option<
    int,
>
    decreases n,
{
    if n <= 0 {
        None
    } else {
        match killer_index(s, killers, n - 1) {
            Some(j) => Some(j),
            None => if killer_match(s[n - 1], killers) {
                Some(n - 1)
            } else {
                None
            },
        }
    }
}

impl OrdererState {
    pub open spec fn len(self) -> int {
        self.stages.stages().len() as int
    }

    pub open spec fn current(self) -> MoveOrderingStage {
        self.stages.stages()[self.stage]
    }

    /// The state one stage further.
    pub open spec fn advance(self) -> OrdererState {
        OrdererState { stage: self.stage + 1, ..self }
    }

    /// Hands out the hint `mv`.
    pub open spec fn emit_hint(self, mv: GameMove) -> OrdererState {
        OrdererState { emitted: self.emitted.push(mv), ..self }
    }

    /// Removes entry `i` from the list and hands out its move.
    pub open spec fn take(self, i: int) -> OrdererState {
        OrdererState { list: self.list.remove(i), emitted: self.emitted.push(self.list[i].0), ..self }
    }

    /// Removes entry `i` from the list to wait for its exchange value.
    pub open spec fn hold(self, i: int) -> OrdererState {
        OrdererState { list: self.list.remove(i), pending: Some(self.list[i].0), ..self }
    }

    /// The terminal state.
    pub open spec fn finish(self) -> OrdererState {
        OrdererState { stage: self.len(), ..self }
    }

    /// The hints: the moves handed out before generation.
    pub open spec fn hint_set(self) -> Set<GameMove> {
        Set::new(|m: GameMove| is_hint(self.pv, self.tt, m))
    }

    /// Every move the pipeline is to account for: the hints and the generated moves.
    pub open spec fn target(self) -> Set<GameMove> {
        self.hint_set() + self.generated
    }

    /// The moves handed out, in the list, or waiting for their exchange value.
    pub open spec fn held(self) -> Set<GameMove> {
        self.emitted.to_set() + moves_of(self.list).to_set() + match self.pending {
            Some(c) => set![c],
            None => Set::empty(),
        }
    }

    /// The pipeline waits for the legal moves.
    pub open spec fn awaits_generation(self) -> bool {
        &&& 0 <= self.stage < self.len()
        &&& self.current() == MoveOrderingStage::GoodCaptureInitialization
    }

    /// The invariant of the pipeline's state.
    pub open spec fn wf(self) -> bool {
        let n = self.list.len();
        let gen = self.stages.generation_index();
        &&& 0 <= self.stage <= self.len()
        &&& self.stages != StageSequence::Normal ==> self.pv is None
        &&& self.emitted.no_duplicates()
        &&& moves_of(self.list).no_duplicates()
        &&& forall|k: int| 0 <= k < n ==> (#[trigger] self.list[k]).0.well_formed()
        &&& forall|k: int| 0 <= k < n ==> !self.emitted.contains((#[trigger] self.list[k]).0)
        &&& forall|k: int|
            0 <= k < n && (#[trigger] self.list[k]).0.spec_is_capture() ==> self.list[k].1 is Some
        &&& forall|k: int|
            0 <= k < n && (#[trigger] self.list[k]).1 is Some && grade(self.list[k]) < 0
                ==> needs_exchange(self.list[k].0)
        &&& self.stage <= self.stages.quiet_init_index() ==> forall|k: int|
            0 <= k < n ==> ((#[trigger] self.list[k]).1 is Some <==> self.list[k].0.spec_is_capture())
        &&& self.stage > self.stages.quiet_init_index() ==> forall|k: int|
            0 <= k < n ==> (#[trigger] self.list[k]).1 is Some
        &&& match self.pending {
            Some(c) => {
                &&& self.stage < self.len()
                &&& self.current() == MoveOrderingStage::GoodCapture
                &&& needs_exchange(c)
                &&& c.well_formed()
                &&& !self.emitted.contains(c)
                &&& !moves_of(self.list).contains(c)
            },
            None => true,
        }
        &&& self.stage <= gen ==> {
            &&& n == 0
            &&& self.pending is None
            &&& self.generated == Set::<GameMove>::empty()
            &&& forall|x: GameMove| self.emitted.contains(x) ==> is_hint(self.pv, self.tt, x)
        }
        &&& self.stage < gen && self.current() == MoveOrderingStage::PVMove ==> self.emitted.len() == 0
        &&& self.stage < gen && self.current() == MoveOrderingStage::TTMove ==> {
            &&& forall|x: GameMove| self.emitted.contains(x) ==> self.pv == Some(x)
            &&& self.pv is Some ==> self.emitted.contains(self.pv.unwrap())
        }
        &&& self.stage == gen ==> forall|x: GameMove|
            is_hint(self.pv, self.tt, x) ==> self.emitted.contains(x)
        &&& self.stage > gen ==> self.held() == self.target()
        &&& self.stage < self.len() && self.current() == MoveOrderingStage::BadCapture ==> forall|k: int|
            0 <= k < n ==> (#[trigger] self.list[k]).1 is Some && grade(self.list[k]) < 0
        &&& self.stage == self.len() ==> if self.stages.ends_with_bad_captures() {
            n == 0
        } else {
            forall|k: int|
                0 <= k < n ==> (#[trigger] self.list[k]).1 is None || grade(self.list[k]) < 0
        }
    }

    /// What the current stage does: the state afterwards, and the answer, or `None` when the
    /// stage yields nothing and the request goes on with the next stage.
    pub open spec fn stage_action(self, killers: Seq<Option<GameMove>>, hist: HistoryTable, side: int) -> (
        OrdererState,
        Option<Step>,
    ) {
        let adv = self.advance();
        match self.current() {
            MoveOrderingStage::PVMove => match self.pv {
                Some(p) => (adv.emit_hint(p), Some(Step::Move(p, 0))),
                None => (adv, None),
            },
            MoveOrderingStage::TTMove => match self.tt {
                Some(t) => if self.tt != self.pv {
                    (adv.emit_hint(t), Some(Step::Move(t, 0)))
                } else {
                    (adv, None)
                },
                None => (adv, None),
            },
            MoveOrderingStage::GoodCaptureInitialization => (self, Some(Step::GenerateMoves)),
            MoveOrderingStage::GoodCapture => match highest(self.list) {
                None => (adv, None),
                Some(i) => if grade(self.list[i]) < 0 {
                    (adv, None)
                } else {
                    match cheap_index(self.list, self.list.len() as int) {
                        Some(j) => (self.take(j), Some(Step::Move(self.list[j].0, 0))),
                        None => (self.hold(i), Some(Step::EvaluateExchange(self.list[i].0))),
                    }
                },
            },
            MoveOrderingStage::Killer => match killer_index(
                self.list,
                killers,
                self.list.len() as int,
            ) {
                Some(i) => (self.take(i), Some(Step::Move(self.list[i].0, 0))),
                None => (adv, None),
            },
            MoveOrderingStage::QuietInitialization => (
                OrdererState { list: grade_quiets(self.list, hist, side), ..adv },
                None,
            ),
            MoveOrderingStage::Quiet => match highest(self.list) {
                None => (self.finish(), Some(Step::Exhausted)),
                Some(i) => if grade(self.list[i]) < 0 {
                    (adv, None)
                } else {
                    (self.take(i), Some(Step::Move(self.list[i].0, 0)))
                },
            },
            MoveOrderingStage::BadCapture => match highest(self.list) {
                None => (self.finish(), Some(Step::Exhausted)),
                Some(i) => (self.take(i), Some(Step::Move(self.list[i].0, grade(self.list[i]) as i128))),
            },
        }
    }

    /// What one request does: the state afterwards and the answer. Stages that yield nothing
    /// are passed over within the same request.
    pub open spec fn step(self, killers: Seq<Option<GameMove>>, hist: HistoryTable, side: int) -> (
        OrdererState,
        Step,
    )
        decreases self.len() - self.stage,
    {
        if self.pending is Some {
            (self, Step::EvaluateExchange(self.pending.unwrap()))
        } else if self.stage < 0 || self.stage >= self.len() {
            (self, Step::Exhausted)
        } else {
            let (next, answer) = self.stage_action(killers, hist, side);
            match answer {
                Some(r) => (next, r),
                None => if next.stages == self.stages && next.stage == self.stage + 1 {
                    next.step(killers, hist, side)
                } else {
                    (next, Step::Exhausted)
                },
            }
        }
    }

    /// The state once the generated moves `g` are in, with the generator's report on whether a
    /// legal move exists.
    pub open spec fn after_generation(self, g: Seq<GameMove>, has_legal_move: bool) -> OrdererState {
        OrdererState {
            stage: self.stage + 1,
            has_legal_move,
            list: initial_list(g, self.pv, self.tt),
            generated: g.to_set(),
            ..self
        }
    }

    /// The state once the pending capture's exchange value is known, and the move handed out
    /// (none when the capture is deferred).
    pub open spec fn after_exchange(self, value: int) -> (OrdererState, Option<GameMove>) {
        let c = self.pending.unwrap();
        if value >= 0 {
            (OrdererState { pending: None, emitted: self.emitted.push(c), ..self }, Some(c))
        } else {
            (
                OrdererState {
                    pending: None,
                    list: self.list.push(GradedMove(c, Some(value as i128))),
                    ..self
                },
                None,
            )
        }
    }
}

/// An answer hands out at most one move, one not handed out before, and records it.
pub open spec fn emits_once(before: Seq<GameMove>, after: Seq<GameMove>, r: Step) -> bool {
    match r {
        Step::Move(m, _) => !before.contains(m) && after == before.push(m),
        _ => after == before,
    }
}

/// The state of a fresh pipeline. Only the full-search sequence has a PV stage; the others
/// ignore the PV hint.
pub open spec fn initial_state(
    stages: StageSequence,
    gen_only_captures: bool,
    pv: Option<GameMove>,
    tt: Option<GameMove>,
) -> OrdererState {
    OrdererState {
        stage: 0,
        stages,
        gen_only_captures,
        has_legal_move: false,
        pv: if stages == StageSequence::Normal {
            pv
        } else {
            None
        },
        tt,
        list: seq![],
        pending: None,
        emitted: seq![],
        generated: Set::empty(),
    }
}

/// The move-ordering pipeline of one search node. It answers each request with the next
/// move, or asks its caller for the legal moves or for a capture's exchange value.
pub struct MoveOrderer {
    stage: usize,
    stages: StageSequence,
    gen_only_captures: bool,
    has_legal_move: bool,
    pv: Option<GameMove>,
    tt: Option<GameMove>,
    list: MoveList,
    pending: Option<GameMove>,
    emitted: Ghost<Seq<GameMove>>,
    generated: Ghost<Set<GameMove>>,
}

impl View for MoveOrderer {
    type V = OrdererState;

    closed spec fn view(&self) -> OrdererState {
        OrdererState {
            stage: self.stage as int,
            stages: self.stages,
            gen_only_captures: self.gen_only_captures,
            has_legal_move: self.has_legal_move,
            pv: self.pv,
            tt: self.tt,
            list: self.list.move_list@,
            pending: self.pending,
            emitted: self.emitted@,
            generated: self.generated@,
        }
    }
}

impl MoveOrderer {
    pub open spec fn wf(&self) -> bool {
        self@.wf()
    }

    /// A pipeline over `stages` with the PV and TT hints of the node. `list` is storage for
    /// the candidate list, reused across nodes of one ply; its entries are dropped.
    pub fn new(
        stages: StageSequence,
        gen_only_captures: bool,
        pv: Option<GameMove>,
        tt: Option<GameMove>,
        list: MoveList,
    ) -> (r: MoveOrderer)
        ensures
            r@ == initial_state(stages, gen_only_captures, pv, tt),
            r.wf(),
    {
        let mut list = list;
        list.move_list.clear();
        let pv = match stages {
            StageSequence::Normal => pv,
            _ => None,
        };
        MoveOrderer {
            stage: 0,
            stages,
            gen_only_captures,
            has_legal_move: false,
            pv,
            tt,
            list,
            pending: None,
            emitted: Ghost(Seq::empty()),
            generated: Ghost(Set::empty()),
        }
    }

    /// Hands back the candidate list's storage.
    pub fn into_list(self) -> (r: MoveList)
        ensures
            r.move_list@ == self@.list,
    {
        self.list
    }

    pub fn stage(&self) -> (r: usize)
        ensures
            r == self@.stage,
    {
        self.stage
    }

    pub fn stages(&self) -> (r: StageSequence)
        ensures
            r == self@.stages,
    {
        self.stages
    }

    /// Whether generation was asked for captures only.
    pub fn gen_only_captures(&self) -> (r: bool)
        ensures
            r == self@.gen_only_captures,
    {
        self.gen_only_captures
    }

    /// Whether the side to move has a legal move, as generation reported it.
    pub fn has_legal_move(&self) -> (r: bool)
        ensures
            r == self@.has_legal_move,
    {
        self.has_legal_move
    }

    /// Answers one request: the next move, a request for generation or for an exchange value,
    /// or exhaustion. `killers` are the killer slots of this ply, `history` the history
    /// tables, `side` the side to move.
    pub fn next(&mut self, killers: &[Option<GameMove>; 2], history: &HistoryTable, side: usize) -> (r:
        Step)
        requires
            old(self).wf(),
            history.wf(),
            side < 2,
        ensures
            (final(self)@, r) == old(self)@.step(killers@, *history, side as int),
            final(self).wf(),
    {
        proof {
            lemma_step_wf(old(self)@, killers@, *history, side as int);
        }
        if let Some(c) = self.pending {
            return Step::EvaluateExchange(c);
        }
        let ghost start = self@;
        loop
            invariant
                start == old(self)@,
                start.step(killers@, *history, side as int).0.wf(),
                self.pending is None,
                self.stage <= self.stages.stages().len(),
                forall|k: int| 0 <= k < self@.list.len() ==> self@.list[k].0.well_formed(),
                self@.step(killers@, *history, side as int) == start.step(
                    killers@,
                    *history,
                    side as int,
                ),
                history.wf(),
                side < 2,
            decreases self.stages.stages().len() - self.stage,
        {
            if self.stage >= self.stages.len() {
                return Step::Exhausted;
            }
            if let Some(r) = self.run_stage(killers, history, side) {
                return r;
            }
        }
    }

    /// Runs the current stage once.
    fn run_stage(&mut self, killers: &[Option<GameMove>; 2], history: &HistoryTable, side: usize) -> (r:
        Option<Step>)
        requires
            forall|k: int| 0 <= k < old(self)@.list.len() ==> old(self)@.list[k].0.well_formed(),
            old(self)@.stage < old(self)@.len(),
            old(self).pending is None,
            history.wf(),
            side < 2,
        ensures
            (final(self)@, r) == old(self)@.stage_action(killers@, *history, side as int),
            final(self).pending is None || r is Some,
            forall|k: int| 0 <= k < final(self)@.list.len() ==> final(self)@.list[k].0.well_formed(),
    {
        let ghost before = self@;
        match self.stages.stage_at(self.stage) {
            MoveOrderingStage::PVMove => {
                self.stage = self.stage + 1;
                if let Some(p) = self.pv {
                    self.emitted = Ghost(self.emitted@.push(p));
                    return Some(Step::Move(p, 0));
                }
                None
            },
            MoveOrderingStage::TTMove => {
                self.stage = self.stage + 1;
                if let Some(t) = self.tt {
                    if !same_move(&self.tt, &self.pv) {
                        self.emitted = Ghost(self.emitted@.push(t));
                        return Some(Step::Move(t, 0));
                    }
                }
                None
            },
            MoveOrderingStage::GoodCaptureInitialization => Some(Step::GenerateMoves),
            MoveOrderingStage::GoodCapture => {
                match self.list.highest_score() {
                    None => {
                        self.stage = self.stage + 1;
                        None
                    },
                    Some((i, g)) => {
                        assert(highest(before.list) == Some(i as int));
                        assert(g == before.list[i as int]);
                        if g.1.unwrap() < 0 {
                            self.stage = self.stage + 1;
                            None
                        } else {
                            let j = self.find_cheap_capture();
                            if j < self.list.move_list.len() {
                                let c = self.list.move_list.remove(j);
                                self.emitted = Ghost(self.emitted@.push(c.0));
                                assert(self@ == before.take(j as int));
                                Some(Step::Move(c.0, 0))
                            } else {
                                let g = self.list.move_list.remove(i);
                                self.pending = Some(g.0);
                                assert(self@ == before.hold(i as int));
                                Some(Step::EvaluateExchange(g.0))
                            }
                        }
                    },
                }
            },
            MoveOrderingStage::Killer => {
                let i = self.find_killer(killers);
                if i < self.list.move_list.len() {
                    let g = self.list.move_list.remove(i);
                    self.emitted = Ghost(self.emitted@.push(g.0));
                    assert(self@ == before.take(i as int));
                    Some(Step::Move(g.0, 0))
                } else {
                    self.stage = self.stage + 1;
                    None
                }
            },
            MoveOrderingStage::QuietInitialization => {
                self.grade_quiets(history, side);
                self.stage = self.stage + 1;
                None
            },
            MoveOrderingStage::Quiet => {
                match self.list.highest_score() {
                    None => {
                        self.stage = self.stages.len();
                        Some(Step::Exhausted)
                    },
                    Some((i, g)) => {
                        assert(highest(before.list) == Some(i as int));
                        assert(g == before.list[i as int]);
                        if g.1.unwrap() < 0 {
                            self.stage = self.stage + 1;
                            None
                        } else {
                            let g = self.list.move_list.remove(i);
                            self.emitted = Ghost(self.emitted@.push(g.0));
                            assert(self@ == before.take(i as int));
                            Some(Step::Move(g.0, 0))
                        }
                    },
                }
            },
            MoveOrderingStage::BadCapture => {
                match self.list.highest_score() {
                    None => {
                        self.stage = self.stages.len();
                        Some(Step::Exhausted)
                    },
                    Some((i, g)) => {
                        assert(highest(before.list) == Some(i as int));
                        assert(g == before.list[i as int]);
                        let g = self.list.move_list.remove(i);
                        self.emitted = Ghost(self.emitted@.push(g.0));
                        assert(self@ == before.take(i as int));
                        Some(Step::Move(g.0, g.1.unwrap()))
                    },
                }
            },
        }
    }

    /// Takes the generated moves after a `GenerateMoves` answer, with the generator's report
    /// on whether the side to move has any legal move. The hints are left out of the list
    /// (they were handed out already) and each capture is graded by its MVV-LVA rank.
    pub fn moves_generated(&mut self, generated: &[GameMove], has_legal_move: bool)
        requires
            old(self).wf(),
            old(self)@.awaits_generation(),
            generated@.no_duplicates(),
            forall|k: int| 0 <= k < generated@.len() ==> generated@[k].well_formed(),
        ensures
            final(self)@ == old(self)@.after_generation(generated@, has_legal_move),
            final(self).wf(),
    {
        let ghost g = generated@;
        self.list.move_list.clear();
        let mut i: usize = 0;
        while i < generated.len()
            invariant
                i <= g.len(),
                g == generated@,
                forall|k: int| 0 <= k < g.len() ==> g[k].well_formed(),
                self.list.move_list@ == initial_list(g.subrange(0, i as int), self.pv, self.tt),
                self@ == (OrdererState { list: self@.list, ..old(self)@ }),
            decreases g.len() - i,
        {
            let m = generated[i];
            let sm = Some(m);
            proof {
                assert(g.subrange(0, i + 1).drop_last() =~= g.subrange(0, i as int));
                assert(g.subrange(0, i + 1).last() == m);
            }
            if !(same_move(&sm, &self.pv) || same_move(&sm, &self.tt)) {
                let entry = if m.is_capture() {
                    GradedMove(m, Some(mvvlva(&m) as i128))
                } else {
                    GradedMove(m, None)
                };
                self.list.move_list.push(entry);
            }
            i = i + 1;
        }
        proof {
            assert(g.subrange(0, g.len() as int) =~= g);
        }
        self.has_legal_move = has_legal_move;
        self.generated = Ghost(g.to_set());
        self.stage = self.stage + 1;
        proof {
            lemma_after_generation_wf(old(self)@, g, has_legal_move);
        }
    }

    /// Takes the exchange value of the capture named by an `EvaluateExchange` answer. A
    /// capture that does not lose material is handed out; a losing one goes back into the list
    /// graded by its exchange value, to come after the quiet moves.
    pub fn exchange_evaluated(&mut self, value: i16) -> (r: Option<GameMove>)
        requires
            old(self).wf(),
            old(self)@.pending is Some,
        ensures
            (final(self)@, r) == old(self)@.after_exchange(value as int),
            final(self).wf(),
    {
        let c = self.pending.unwrap();
        self.pending = None;
        proof {
            lemma_after_exchange_wf(old(self)@, value as int);
        }
        if value >= 0 {
            self.emitted = Ghost(self.emitted@.push(c));
            Some(c)
        } else {
            self.list.move_list.push(GradedMove(c, Some(value as i128)));
            None
        }
    }

    /// Index of the highest-graded cheap capture (the earliest on a tie); the list's length
    /// when there is none.
    fn find_cheap_capture(&self) -> (r: usize)
        ensures
            r <= self@.list.len(),
            r < self@.list.len() ==> cheap_index(self@.list, self@.list.len() as int) == Some(
                r as int,
            ),
            r == self@.list.len() ==> cheap_index(self@.list, self@.list.len() as int) is None,
    {
        let n = self.list.move_list.len();
        let mut best: Option<usize> = None;
        let mut i: usize = 0;
        while i < n
            invariant
                i <= n,
                n == self@.list.len(),
                match cheap_index(self@.list, i as int) {
                    None => best is None,
                    Some(j) => best == Some(j as usize),
                },
            decreases n - i,
        {
            proof {
                lemma_cheap_index(self@.list, i as int);
            }
            let g = self.list.move_list[i];
            if let Some(x) = g.1 {
                if x >= 0 && g.0.is_capture() && is_cheap_good(&g.0) {
                    match best {
                        None => {
                            best = Some(i);
                        },
                        Some(j) => {
                            let y = self.list.move_list[j].1.unwrap();
                            if x > y {
                                best = Some(i);
                            }
                        },
                    }
                }
            }
            i = i + 1;
        }
        proof {
            lemma_cheap_index(self@.list, n as int);
        }
        match best {
            None => n,
            Some(j) => j,
        }
    }

    /// Index of the first ungraded entry that a killer slot holds; the list's length when none.
    fn find_killer(&self, killers: &[Option<GameMove>; 2]) -> (r: usize)
        ensures
            r <= self@.list.len(),
            r < self@.list.len() ==> killer_index(self@.list, killers@, self@.list.len() as int)
                == Some(r as int),
            r == self@.list.len() ==> killer_index(self@.list, killers@, self@.list.len() as int) is None,
    {
        let n = self.list.move_list.len();
        let mut i: usize = 0;
        while i < n
            invariant
                i <= n,
                n == self@.list.len(),
                killer_index(self@.list, killers@, i as int) is None,
            decreases n - i,
        {
            let g = self.list.move_list[i];
            if g.1.is_none() {
                let k = Some(g.0);
                if same_move(&k, &killers[0]) || same_move(&k, &killers[1]) {
                    proof {
                        lemma_killer_index_extends(self@.list, killers@, i as int, (n - (i as int)) as nat);
                    }
                    return i;
                }
            }
            i = i + 1;
        }
        i
    }

    /// Grades every ungraded entry by the history tables.
    fn grade_quiets(&mut self, history: &HistoryTable, side: usize)
        requires
            forall|k: int| 0 <= k < old(self)@.list.len() ==> old(self)@.list[k].0.well_formed(),
            history.wf(),
            side < 2,
        ensures
            final(self)@ == (OrdererState {
                list: grade_quiets(old(self)@.list, *history, side as int),
                ..old(self)@
            }),
    {
        let n = self.list.move_list.len();
        let ghost orig = self@.list;
        let mut i: usize = 0;
        while i < n
            invariant
                i <= n,
                n == orig.len(),
                self@.list.len() == n,
                forall|k: int| 0 <= k < n ==> orig[k].0.well_formed(),
                forall|k: int|
                    0 <= k < i ==> self@.list[k] == grade_quiets(orig, *history, side as int)[k],
                forall|k: int| i <= k < n ==> self@.list[k] == orig[k],
                self@ == (OrdererState { list: self@.list, ..old(self)@ }),
                history.wf(),
                side < 2,
            decreases n - i,
        {
            let g = self.list.move_list[i];
            assert(g == orig[i as int]);
            if g.1.is_none() {
                let r = history.quiet_rank(side, &g.0);
                self.list.move_list.set(i, GradedMove(g.0, Some(r)));
            }
            i = i + 1;
        }
        proof {
            assert(self@.list =~= grade_quiets(orig, *history, side as int));
        }
    }
}

/// Once a killer match sits at `i`, the first match among any longer prefix is at or before it.
proof fn lemma_killer_index_extends(
    s: Seq<GradedMove>,
    killers: Seq<Option<GameMove>>,
    i: int,
    extra: nat,
)
    requires
        0 <= i < s.len(),
        i + extra <= s.len(),
        killer_index(s, killers, i) is None,
        killer_match(s[i], killers),
    ensures
        killer_index(s, killers, i + 1 + extra) == Some(i),
    decreases extra,
{
    if extra > 0 {
        lemma_killer_index_extends(s, killers, i, (extra - 1) as nat);
    }
}

proof fn lemma_after_generation_wf(s: OrdererState, g: Seq<GameMove>, has_legal_move: bool)
    requires
        s.wf(),
        s.awaits_generation(),
        g.no_duplicates(),
        forall|k: int| 0 <= k < g.len() ==> g[k].well_formed(),
    ensures
        s.after_generation(g, has_legal_move).wf(),
{
    let s2 = s.after_generation(g, has_legal_move);
    let l = initial_list(g, s.pv, s.tt);
    lemma_initial_list(g, s.pv, s.tt);
    assert forall|k: int| 0 <= k < l.len() implies (#[trigger] l[k]).0.well_formed() && !s.emitted.contains(
        l[k].0,
    ) && (l[k].1 is Some <==> l[k].0.spec_is_capture()) && (l[k].1 is Some ==> grade(l[k]) > 0) by {
        let j = choose|j: int| 0 <= j < g.len() && g[j] == l[k].0;
        if l[k].0.spec_is_capture() {
            lemma_mvvlva_positive(l[k].0);
        }
    }
    assert forall|x: GameMove| s2.held().contains(x) <==> s2.target().contains(x) by {
        assert(moves_of(l).to_set().contains(x) <==> moves_of(l).contains(x));
        if is_hint(s.pv, s.tt, x) {
            assert(s.emitted.contains(x));
        }
    }
    assert(s2.held() =~= s2.target());
}

/// The list built from generation holds each generated move but the hints, once, graded as
/// generation grades it.
proof fn lemma_initial_list(g: Seq<GameMove>, pv: Option<GameMove>, tt: Option<GameMove>)
    requires
        g.no_duplicates(),
    ensures
        moves_of(initial_list(g, pv, tt)).no_duplicates(),
        forall|k: int|
            0 <= k < initial_list(g, pv, tt).len() ==> {
                let e = #[trigger] initial_list(g, pv, tt)[k];
                &&& e == initial_grade(e.0)
                &&& g.contains(e.0)
                &&& !is_hint(pv, tt, e.0)
            },
        forall|x: GameMove|
            moves_of(initial_list(g, pv, tt)).contains(x) <==> (g.contains(x) && !is_hint(pv, tt, x)),
    decreases g.len(),
{
    if g.len() > 0 {
        let d = g.drop_last();
        let m = g.last();
        assert(d.no_duplicates()) by {
            assert forall|a: int, b: int| 0 <= a < b < d.len() implies d[a] != d[b] by {
                assert(d[a] == g[a] && d[b] == g[b]);
            }
        }
        lemma_initial_list(d, pv, tt);
        let rest = initial_list(d, pv, tt);
        assert forall|x: GameMove| g.contains(x) <==> (d.contains(x) || x == m) by {
            if g.contains(x) {
                let j = choose|j: int| 0 <= j < g.len() && g[j] == x;
                if j < d.len() {
                    assert(d[j] == x);
                }
            }
            if d.contains(x) {
                let j = choose|j: int| 0 <= j < d.len() && d[j] == x;
                assert(g[j] == x);
            }
            if x == m {
                assert(g[g.len() - 1] == x);
            }
        }
        assert(!d.contains(m)) by {
            if d.contains(m) {
                let j = choose|j: int| 0 <= j < d.len() && d[j] == m;
                assert(g[j] == m && g[g.len() - 1] == m);
            }
        }
        if !is_hint(pv, tt, m) {
            lemma_moves_push(rest, initial_grade(m));
            let l = rest.push(initial_grade(m));
            assert forall|k: int| 0 <= k < l.len() implies {
                let e = #[trigger] l[k];
                &&& e == initial_grade(e.0)
                &&& g.contains(e.0)
                &&& !is_hint(pv, tt, e.0)
            } by {
                if k < rest.len() {
                    assert(l[k] == rest[k]);
                }
            }
        }
    }
}

/// A capture's MVV-LVA rank is positive and small.
proof fn lemma_mvvlva_positive(mv: GameMove)
    requires
        mv.spec_is_capture(),
        mv.captured() != PieceType::King,
    ensures
        0 < mvvlva_rank(mv) <= 1100,
{
    let v = mv.captured().index() as int;
    let a = mv.piece_type.index() as int;
    assert(0 <= v < 5);
    assert(0 <= a < 6);
    assert(TARGET_VALUE[v] >= 100 && TARGET_VALUE[v] <= 1100) by {
        if v == 0 {
        } else if v == 1 {
        } else if v == 2 {
        } else if v == 3 {
        } else {
        }
    }
    assert(ATTACKER_VALUE[a] >= 0 && ATTACKER_VALUE[a] <= 5) by {
        if a == 0 {
        } else if a == 1 {
        } else if a == 2 {
        } else if a == 3 {
        } else if a == 4 {
        } else {
        }
    }
}

pub(crate) proof fn lemma_after_exchange_wf(s: OrdererState, value: int)
    requires
        s.wf(),
        s.pending is Some,
        i16::MIN <= value <= i16::MAX,
    ensures
        s.after_exchange(value).0.wf(),
{
    let c = s.pending.unwrap();
    let s2 = s.after_exchange(value).0;
    assert(forall|k: int| 0 <= k < s.list.len() ==> moves_of(s.list)[k] == s.list[k].0);
    if value >= 0 {
        lemma_push_no_duplicates(s.emitted, c);
        assert forall|k: int| 0 <= k < s2.list.len() implies !s2.emitted.contains(
            (#[trigger] s2.list[k]).0,
        ) by {
            assert(moves_of(s.list)[k] == s.list[k].0);
            assert(moves_of(s.list).contains(s.list[k].0));
        }
        assert(s2.held() =~= s.held());
    } else {
        let e = GradedMove(c, Some(value as i128));
        lemma_moves_push(s.list, e);
        assert(s2.list == s.list.push(e));
        assert(grade(e) == value);
        assert forall|k: int| 0 <= k < s2.list.len() implies s2.list[k] == if k < s.list.len() {
            s.list[k]
        } else {
            e
        } by {}
        assert(s2.held() =~= s.held());
    }
}

/// Appending a new element keeps a sequence free of duplicates.
proof fn lemma_push_no_duplicates<A>(s: Seq<A>, x: A)
    requires
        s.no_duplicates(),
        !s.contains(x),
    ensures
        s.push(x).no_duplicates(),
        forall|y: A| s.push(x).contains(y) <==> (s.contains(y) || y == x),
{
    let r = s.push(x);
    assert forall|a: int, b: int| 0 <= a < b < r.len() implies r[a] != r[b] by {
        assert(r[a] == s[a]);
        if b < s.len() {
            assert(r[b] == s[b]);
        }
    }
    assert forall|y: A| r.contains(y) <==> (s.contains(y) || y == x) by {
        if r.contains(y) {
            let k = choose|k: int| 0 <= k < r.len() && r[k] == y;
            if k < s.len() {
                assert(s[k] == y);
            }
        }
        if s.contains(y) {
            let k = choose|k: int| 0 <= k < s.len() && s[k] == y;
            assert(r[k] == y);
        }
        if y == x {
            assert(r[s.len() as int] == y);
        }
    }
}

pub(crate) proof fn lemma_step_wf(s: OrdererState, killers: Seq<Option<GameMove>>, hist: HistoryTable, side: int)
    requires
        s.wf(),
    ensures
        s.step(killers, hist, side).0.wf(),
        s.step(killers, hist, side).1 == Step::Exhausted ==> s.step(killers, hist, side).0.stage
            == s.step(killers, hist, side).0.len(),
        s.step(killers, hist, side).0.stage >= s.stage,
        s.step(killers, hist, side).0.stages == s.stages,
        emits_once(s.emitted, s.step(killers, hist, side).0.emitted, s.step(killers, hist, side).1),
    decreases s.len() - s.stage,
{
    if s.pending is None && 0 <= s.stage < s.len() {
        lemma_stage_action_wf(s, killers, hist, side);
        let (n, a) = s.stage_action(killers, hist, side);
        if a is None {
            lemma_step_wf(n, killers, hist, side);
        }
    }
}

/// The entries left after removing entry `i`.
proof fn lemma_remove_entries(l: Seq<GradedMove>, i: int)
    requires
        0 <= i < l.len(),
    ensures
        forall|k: int|
            0 <= k < l.len() - 1 ==> #[trigger] l.remove(i)[k] == if k < i {
                l[k]
            } else {
                l[k + 1]
            },
{
}

/// Handing out entry `i` keeps the invariant.
proof fn lemma_take_wf(s: OrdererState, i: int)
    requires
        s.wf(),
        s.pending is None,
        0 <= s.stage < s.len(),
        s.stage > s.stages.generation_index(),
        0 <= i < s.list.len(),
    ensures
        s.take(i).wf(),
{
    let t = s.take(i);
    let x = s.list[i].0;
    lemma_moves_remove(s.list, i);
    lemma_remove_entries(s.list, i);
    assert(moves_of(s.list)[i] == x);
    assert(!s.emitted.contains(x));
    lemma_push_no_duplicates(s.emitted, x);
    assert forall|k: int| 0 <= k < t.list.len() implies !t.emitted.contains((#[trigger] t.list[k]).0) by {
        let k2 = if k < i {
            k
        } else {
            k + 1
        };
        assert(t.list[k] == s.list[k2]);
        assert(moves_of(s.list)[k2] == s.list[k2].0);
    }
    assert forall|y: GameMove| t.held().contains(y) <==> s.held().contains(y) by {
        assert(moves_of(s.list).contains(x));
    }
    assert(t.held() =~= s.held());
}

/// Setting entry `i` aside for an exchange evaluation keeps the invariant.
proof fn lemma_hold_wf(s: OrdererState, i: int)
    requires
        s.wf(),
        s.pending is None,
        0 <= s.stage < s.len(),
        s.stage > s.stages.generation_index(),
        s.current() == MoveOrderingStage::GoodCapture,
        0 <= i < s.list.len(),
        needs_exchange(s.list[i].0),
    ensures
        s.hold(i).wf(),
{
    let t = s.hold(i);
    let x = s.list[i].0;
    lemma_moves_remove(s.list, i);
    lemma_remove_entries(s.list, i);
    assert(moves_of(s.list)[i] == x);
    assert forall|y: GameMove| t.held().contains(y) <==> s.held().contains(y) by {
        assert(moves_of(s.list).contains(x));
    }
    assert(t.held() =~= s.held());
}

/// Grading the quiet moves keeps each entry's move and gives no negative grade.
pub(crate) proof fn lemma_grade_quiets(l: Seq<GradedMove>, hist: HistoryTable, side: int)
    ensures
        moves_of(grade_quiets(l, hist, side)) == moves_of(l),
        grade_quiets(l, hist, side).len() == l.len(),
        forall|k: int|
            0 <= k < l.len() ==> {
                let e = #[trigger] grade_quiets(l, hist, side)[k];
                &&& e.0 == l[k].0
                &&& e.1 is Some
                &&& l[k].1 is Some ==> e == l[k]
                &&& l[k].1 is None ==> grade(e) >= 0
            },
{
    let q = grade_quiets(l, hist, side);
    assert(moves_of(q) =~= moves_of(l));
    assert forall|k: int| 0 <= k < l.len() implies {
        let e = #[trigger] q[k];
        &&& e.0 == l[k].0
        &&& e.1 is Some
        &&& l[k].1 is Some ==> e == l[k]
        &&& l[k].1 is None ==> grade(e) >= 0
    } by {
        if l[k].1 is None {
            let r = hist.rank(side, l[k].0);
            crate::heuristics::lemma_rank_range(hist.history(side, l[k].0), hist.butterfly(side, l[k].0));
        }
    }
}

/// One stage keeps the invariant, and a stage that yields nothing moves on by one.
pub(crate) proof fn lemma_stage_action_wf(
    s: OrdererState,
    killers: Seq<Option<GameMove>>,
    hist: HistoryTable,
    side: int,
)
    requires
        s.wf(),
        s.pending is None,
        0 <= s.stage < s.len(),
    ensures
        s.stage_action(killers, hist, side).0.wf(),
        s.stage_action(killers, hist, side).1 is None ==> s.stage_action(killers, hist, side).0.stage
            == s.stage + 1,
        s.stage_action(killers, hist, side).1 == Some(Step::Exhausted) ==> s.stage_action(
            killers,
            hist,
            side,
        ).0.stage == s.len(),
        s.stage_action(killers, hist, side).0.stage >= s.stage,
        s.stage_action(killers, hist, side).0.stages == s.stages,
        match s.stage_action(killers, hist, side).1 {
            Some(r) => emits_once(s.emitted, s.stage_action(killers, hist, side).0.emitted, r),
            None => s.stage_action(killers, hist, side).0.emitted == s.emitted,
        },
{
    let n = s.list.len();
    let adv = s.advance();
    match s.current() {
        MoveOrderingStage::PVMove => {
            assert(s.stages == StageSequence::Normal && s.stage == 0);
            assert(adv.current() == MoveOrderingStage::TTMove);
            assert(s.emitted.len() == 0);
            match s.pv {
                Some(p) => {
                    let t = adv.emit_hint(p);
                    assert(t.emitted =~= seq![p]);
                    assert(forall|x: GameMove| t.emitted.contains(x) ==> x == p);
                    assert(t.emitted[0] == p);
                    assert(t.emitted.no_duplicates());
                },
                None => {
                    assert(adv.emitted.len() == 0);
                },
            }
        },
        MoveOrderingStage::TTMove => {
            assert(s.stage + 1 == s.stages.generation_index());
            assert(s.stage < s.stages.generation_index());
            assert(forall|x: GameMove| s.emitted.contains(x) ==> s.pv == Some(x));
            let r = s.stage_action(killers, hist, side).0;
            match s.tt {
                Some(t) => {
                    if s.tt != s.pv {
                        assert(!s.emitted.contains(t));
                        lemma_push_no_duplicates(s.emitted, t);
                        assert(r.emitted == s.emitted.push(t));
                    } else {
                        assert(r.emitted == s.emitted);
                    }
                },
                None => {
                    assert(r.emitted == s.emitted);
                },
            }
            assert forall|x: GameMove| is_hint(r.pv, r.tt, x) implies r.emitted.contains(x) by {
                if s.pv == Some(x) {
                    assert(s.emitted.contains(x));
                }
            }
            assert forall|x: GameMove| r.emitted.contains(x) implies is_hint(r.pv, r.tt, x) by {
                if s.tt is Some && s.tt != s.pv {
                    let t = s.tt.unwrap();
                    assert(s.emitted.push(t).contains(x));
                    if x != t {
                        assert(s.emitted.contains(x));
                    }
                } else {
                    assert(s.emitted.contains(x));
                }
            }
        },
        MoveOrderingStage::GoodCaptureInitialization => {},
        MoveOrderingStage::GoodCapture => {
            assert(s.stage > s.stages.generation_index());
            assert(s.stage <= s.stages.quiet_init_index());
            lemma_best_index(s.list, n as int);
            match highest(s.list) {
                None => {},
                Some(i) => {
                    if grade(s.list[i]) >= 0 {
                        lemma_cheap_index(s.list, n as int);
                        match cheap_index(s.list, n as int) {
                            Some(j) => {
                                lemma_take_wf(s, j);
                            },
                            None => {
                                assert(!is_cheap_capture(s.list[i]));
                                lemma_hold_wf(s, i);
                            },
                        }
                    }
                },
            }
        },
        MoveOrderingStage::Killer => {
            assert(s.stages == StageSequence::Normal && s.stage == 4);
            match killer_index(s.list, killers, n as int) {
                Some(i) => {
                    lemma_killer_index(s.list, killers, n as int);
                    lemma_take_wf(s, i);
                },
                None => {},
            }
        },
        MoveOrderingStage::QuietInitialization => {
            assert(s.stage == s.stages.quiet_init_index());
            assert(s.stage > s.stages.generation_index());
            let q = grade_quiets(s.list, hist, side);
            lemma_grade_quiets(s.list, hist, side);
            let t = OrdererState { list: q, ..adv };
            assert(t.held() =~= s.held());
        },
        MoveOrderingStage::Quiet => {
            assert(s.stage > s.stages.quiet_init_index());
            assert(s.stage > s.stages.generation_index());
            lemma_best_index(s.list, n as int);
            match highest(s.list) {
                None => {},
                Some(i) => {
                    if grade(s.list[i]) >= 0 {
                        lemma_take_wf(s, i);
                    }
                },
            }
        },
        MoveOrderingStage::BadCapture => {
            assert(s.stage > s.stages.quiet_init_index());
            assert(s.stage > s.stages.generation_index());
            lemma_best_index(s.list, n as int);
            match highest(s.list) {
                None => {},
                Some(i) => {
                    lemma_take_wf(s, i);
                },
            }
        },
    }
}

/// A killer match found lies in the list and matches.
pub(crate) proof fn lemma_killer_index(s: Seq<GradedMove>, killers: Seq<Option<GameMove>>, n: int)
    requires
        0 <= n <= s.len(),
    ensures
        match killer_index(s, killers, n) {
            Some(i) => 0 <= i < n && killer_match(s[i], killers),
            None => true,
        },
    decreases n,
{
    if n > 0 {
        lemma_killer_index(s, killers, n - 1);
    }
}

} // verus!
