use vstd::prelude::*;

use crate::board::GameMove;

verus! {

/// Factor applied to the history / butterfly ratio so that quiet ranks stay integers: large
/// enough that two different ratios of 32-bit counters always get different ranks.
pub const HISTORY_SCALE: u128 = 0x1_0000_0000_0000_0000;

/// Number of counters of each table: two sides, 64 origin squares, 64 target squares.
pub const HISTORY_SLOTS: usize = 8192;

/// Index of the counter of `side` for a move from `from` to `to`.
pub open spec fn slot(side: int, from: int, to: int) -> int {
    side * 4096 + from * 64 + to
}

/// Rank of a quiet move from its history count and its butterfly count: the ratio of the two,
/// scaled and rounded down. A move whose butterfly count is zero has never been tried; it
/// counts as ratio zero, as a move that never caused a cutoff.
pub open spec fn quiet_rank_of(history: int, butterfly: int) -> int {
    if butterfly == 0 {
        0
    } else {
        history * (HISTORY_SCALE as int) / butterfly
    }
}

/// History counters (cutoffs a quiet move caused) and butterfly counters (times it was
/// tried), per side to move, origin square and target square.
pub struct HistoryTable {
    pub hh_score: Vec<u32>,
    pub bf_score: Vec<u32>,
}

impl HistoryTable {
    pub open spec fn wf(&self) -> bool {
        &&& self.hh_score@.len() == HISTORY_SLOTS
        &&& self.bf_score@.len() == HISTORY_SLOTS
    }

    pub open spec fn history(&self, side: int, mv: GameMove) -> int {
        self.hh_score@[slot(side, mv.from as int, mv.to as int)] as int
    }

    pub open spec fn butterfly(&self, side: int, mv: GameMove) -> int {
        self.bf_score@[slot(side, mv.from as int, mv.to as int)] as int
    }

    /// The rank that the quiet stage gives `mv` when `side` is to move.
    pub open spec fn rank(&self, side: int, mv: GameMove) -> int {
        quiet_rank_of(self.history(side, mv), self.butterfly(side, mv))
    }

    /// Tables with every counter at zero.
    pub fn new() -> (r: HistoryTable)
        ensures
            r.wf(),
            forall|k: int| 0 <= k < HISTORY_SLOTS ==> r.hh_score@[k] == 0 && r.bf_score@[k] == 0,
    {
        let mut hh_score: Vec<u32> = Vec::new();
        let mut bf_score: Vec<u32> = Vec::new();
        let mut i: usize = 0;
        while i < HISTORY_SLOTS
            invariant
                i <= HISTORY_SLOTS,
                hh_score@.len() == i,
                bf_score@.len() == i,
                forall|k: int| 0 <= k < i ==> hh_score@[k] == 0 && bf_score@[k] == 0,
            decreases HISTORY_SLOTS - i,
        {
            hh_score.push(0);
            bf_score.push(0);
            i = i + 1;
        }
        HistoryTable { hh_score, bf_score }
    }

    /// Rank of the quiet move `mv` for `side`: history count times the scale, divided by the
    /// butterfly count, or zero for a move never tried.
    pub fn quiet_rank(&self, side: usize, mv: &GameMove) -> (r: i128)
        requires
            self.wf(),
            side < 2,
            mv.from < 64,
            mv.to < 64,
        ensures
            r as int == self.rank(side as int, *mv),
            r >= 0,
    {
        let k = side * 4096 + (mv.from as usize) * 64 + (mv.to as usize);
        let h = self.hh_score[k] as u128;
        let b = self.bf_score[k] as u128;
        proof {
            lemma_rank_range(h as int, b as int);
        }
        if b == 0 {
            0
        } else {
            proof {
                assert(h * HISTORY_SCALE <= 0xffff_ffffu128 * HISTORY_SCALE) by (nonlinear_arith)
                    requires
                        h <= 0xffff_ffffu128,
                ;
            }
            let q = h * HISTORY_SCALE / b;
            q as i128
        }
    }

    /// Counts a cutoff by the quiet move `mv` for `side` (saturating at the counter's maximum).
    pub fn record_cutoff(&mut self, side: usize, mv: &GameMove)
        requires
            old(self).wf(),
            side < 2,
            mv.from < 64,
            mv.to < 64,
        ensures
            final(self).wf(),
            ({
                let k = slot(side as int, mv.from as int, mv.to as int);
                &&& final(self).hh_score@ == old(self).hh_score@.update(
                    k,
                    if old(self).hh_score@[k] == u32::MAX {
                        u32::MAX
                    } else {
                        (old(self).hh_score@[k] + 1) as u32
                    },
                )
                &&& final(self).bf_score@ == old(self).bf_score@
            }),
    {
        let k = side * 4096 + (mv.from as usize) * 64 + (mv.to as usize);
        let v = self.hh_score[k];
        let n = if v == u32::MAX {
            v
        } else {
            v + 1
        };
        self.hh_score.set(k, n);
    }

    /// Counts one more try of the quiet move `mv` for `side` (saturating at the counter's
    /// maximum).
    pub fn record_tried(&mut self, side: usize, mv: &GameMove)
        requires
            old(self).wf(),
            side < 2,
            mv.from < 64,
            mv.to < 64,
        ensures
            final(self).wf(),
            ({
                let k = slot(side as int, mv.from as int, mv.to as int);
                &&& final(self).bf_score@ == old(self).bf_score@.update(
                    k,
                    if old(self).bf_score@[k] == u32::MAX {
                        u32::MAX
                    } else {
                        (old(self).bf_score@[k] + 1) as u32
                    },
                )
                &&& final(self).hh_score@ == old(self).hh_score@
            }),
    {
        let k = side * 4096 + (mv.from as usize) * 64 + (mv.to as usize);
        let v = self.bf_score[k];
        let n = if v == u32::MAX {
            v
        } else {
            v + 1
        };
        self.bf_score.set(k, n);
    }
}

/// A quiet rank lies between zero and the scaled largest counter.
pub proof fn lemma_rank_range(h: int, b: int)
    requires
        0 <= h <= u32::MAX,
        0 <= b,
    ensures
        0 <= quiet_rank_of(h, b) <= u32::MAX * HISTORY_SCALE,
{
    if b > 0 {
        assert(0 <= h * HISTORY_SCALE / b <= h * HISTORY_SCALE) by (nonlinear_arith)
            requires
                0 <= h,
                b > 0,
        ;
        assert(h * HISTORY_SCALE <= u32::MAX * HISTORY_SCALE) by (nonlinear_arith)
            requires
                h <= u32::MAX,
        ;
    }
}

/// Ranks keep the order of ratios: of two moves tried at least once, the one with the higher
/// history / butterfly ratio has the higher rank.
pub proof fn lemma_rank_order(h1: int, b1: int, h2: int, b2: int)
    requires
        0 <= h1 <= u32::MAX,
        0 <= h2 <= u32::MAX,
        0 < b1 <= u32::MAX,
        0 < b2 <= u32::MAX,
        h1 * b2 > h2 * b1,
    ensures
        quiet_rank_of(h1, b1) > quiet_rank_of(h2, b2),
{
    let sc = HISTORY_SCALE as int;
    let r1 = h1 * sc / b1;
    let r2 = h2 * sc / b2;
    assert(r2 * b2 <= h2 * sc) by (nonlinear_arith)
        requires
            r2 == h2 * sc / b2,
            b2 > 0,
            h2 >= 0,
            sc > 0,
    ;
    assert(b1 * b2 < sc) by (nonlinear_arith)
        requires
            0 < b1 <= u32::MAX,
            0 < b2 <= u32::MAX,
            sc == 0x1_0000_0000_0000_0000int,
    ;
    assert((r2 + 1) * b1 * b2 < h1 * sc * b2) by (nonlinear_arith)
        requires
            r2 * b2 <= h2 * sc,
            b1 * b2 < sc,
            h1 * b2 >= h2 * b1 + 1,
            b1 > 0,
            b2 > 0,
            sc > 0,
    ;
    assert((r2 + 1) * b1 <= h1 * sc) by (nonlinear_arith)
        requires
            (r2 + 1) * b1 * b2 < h1 * sc * b2,
            b2 > 0,
    ;
    assert(r2 + 1 <= r1) by (nonlinear_arith)
        requires
            (r2 + 1) * b1 <= h1 * sc,
            r1 == h1 * sc / b1,
            b1 > 0,
    ;
}

} // verus!
