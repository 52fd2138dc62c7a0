use vstd::prelude::*;

use crate::board::GameMove;

verus! {

/// A move with its ranking grade; `None` until a stage grades it.
#[derive(Clone, Copy, Debug, PartialEq, Eq, Structural)]
pub struct GradedMove(pub GameMove, pub Option<i128>);

/// The moves that the entries of a candidate list hold, in list order.
pub open spec fn moves_of(s: Seq<GradedMove>) -> Seq<GameMove> {
    s.map_values(|g: GradedMove| g.0)
}

/// Grade of a graded entry (callers only use it on graded entries).
pub open spec fn grade(g: GradedMove) -> int {
    match g.1 {
        Some(x) => x as int,
        None => 0,
    }
}

/// Index of the highest-graded entry among the first `n` entries of `s`, the earliest one on a
/// tie; `None` when none of them is graded.
pub open spec fn best_index(s: Seq<GradedMove>, n: int) -> Option<int>
    decreases n,
{
    if n <= 0 {
        None
    } else {
        let b = best_index(s, n - 1);
        if s[n - 1].1 is None {
            b
        } else {
            match b {
                None => Some(n - 1),
                Some(j) => if grade(s[n - 1]) > grade(s[j]) {
                    Some(n - 1)
                } else {
                    Some(j)
                },
            }
        }
    }
}

/// The index of the highest-graded entry of the whole list.
pub open spec fn highest(s: Seq<GradedMove>) -> Option<int> {
    best_index(s, s.len() as int)
}

/// What `best_index` promises: a graded entry no graded entry before `n` exceeds, or no graded
/// entry at all.
pub proof fn lemma_best_index(s: Seq<GradedMove>, n: int)
    requires
        0 <= n <= s.len(),
    ensures
        match best_index(s, n) {
            None => forall|k: int| 0 <= k < n ==> s[k].1 is None,
            Some(j) => {
                &&& 0 <= j < n
                &&& s[j].1 is Some
                &&& forall|k: int| 0 <= k < n && s[k].1 is Some ==> grade(s[k]) <= grade(s[j])
            },
        },
    decreases n,
{
    if n > 0 {
        lemma_best_index(s, n - 1);
    }
}

/// Removing entry `i` removes its move, and only that move when moves are unique.
pub proof fn lemma_moves_remove(s: Seq<GradedMove>, i: int)
    requires
        0 <= i < s.len(),
        moves_of(s).no_duplicates(),
    ensures
        moves_of(s.remove(i)) == moves_of(s).remove(i),
        moves_of(s.remove(i)).no_duplicates(),
        forall|x: GameMove|
            moves_of(s.remove(i)).contains(x) <==> (moves_of(s).contains(x) && x != s[i].0),
{
    let m = moves_of(s);
    assert(moves_of(s.remove(i)) =~= m.remove(i));
    let r = m.remove(i);
    assert(r.len() == m.len() - 1);
    assert forall|k: int| 0 <= k < r.len() implies r[k] == if k < i {
        m[k]
    } else {
        m[k + 1]
    } by {}
    assert forall|a: int, b: int| 0 <= a < b < r.len() implies r[a] != r[b] by {
        let a2 = if a < i {
            a
        } else {
            a + 1
        };
        let b2 = if b < i {
            b
        } else {
            b + 1
        };
        assert(r[a] == m[a2]);
        assert(r[b] == m[b2]);
    }
    assert forall|x: GameMove| r.contains(x) <==> (m.contains(x) && x != s[i].0) by {
        if r.contains(x) {
            let k = choose|k: int| 0 <= k < r.len() && r[k] == x;
            let k2 = if k < i {
                k
            } else {
                k + 1
            };
            assert(m[k2] == x);
            assert(k2 != i);
            assert(m[i] == s[i].0);
        }
        if m.contains(x) && x != s[i].0 {
            let k = choose|k: int| 0 <= k < m.len() && m[k] == x;
            assert(m[i] == s[i].0);
            assert(k != i);
            let k2 = if k < i {
                k
            } else {
                k - 1
            };
            assert(r[k2] == x);
        }
    }
}

/// Appending an entry appends its move.
pub proof fn lemma_moves_push(s: Seq<GradedMove>, g: GradedMove)
    ensures
        moves_of(s.push(g)) == moves_of(s).push(g.0),
        forall|x: GameMove| moves_of(s.push(g)).contains(x) <==> (moves_of(s).contains(x) || x == g.0),
        moves_of(s).no_duplicates() && !moves_of(s).contains(g.0) ==> moves_of(s.push(g)).no_duplicates(),
{
    let m = moves_of(s);
    let r = moves_of(s.push(g));
    assert(r =~= m.push(g.0));
    assert forall|x: GameMove| r.contains(x) <==> (m.contains(x) || x == g.0) by {
        if r.contains(x) {
            let k = choose|k: int| 0 <= k < r.len() && r[k] == x;
            if k < m.len() {
                assert(m[k] == x);
            }
        }
        if m.contains(x) {
            let k = choose|k: int| 0 <= k < m.len() && m[k] == x;
            assert(r[k] == x);
        }
        if x == g.0 {
            assert(r[m.len() as int] == x);
        }
    }
    if m.no_duplicates() && !m.contains(g.0) {
        assert forall|a: int, b: int| 0 <= a < b < r.len() implies r[a] != r[b] by {
            if b == m.len() {
                assert(r[a] == m[a]);
            } else {
                assert(r[a] == m[a]);
                assert(r[b] == m[b]);
            }
        }
    }
}

/// The candidate list of one search ply.
pub struct MoveList {
    pub move_list: Vec<GradedMove>,
}

impl MoveList {
    pub fn new() -> (r: MoveList)
        ensures
            r.move_list@.len() == 0,
    {
        MoveList { move_list: Vec::new() }
    }

    /// Position of the first entry holding `mv`, or the list's length when there is none.
    pub fn find_move(&self, mv: &GameMove) -> (r: usize)
        ensures
            r <= self.move_list@.len(),
            r < self.move_list@.len() ==> self.move_list@[r as int].0 == *mv,
            forall|k: int| 0 <= k < r ==> self.move_list@[k].0 != *mv,
    {
        let mut i: usize = 0;
        while i < self.move_list.len()
            invariant
                i <= self.move_list@.len(),
                forall|k: int| 0 <= k < i ==> self.move_list@[k].0 != *mv,
            decreases self.move_list@.len() - i,
        {
            if self.move_list[i].0 == *mv {
                return i;
            }
            i = i + 1;
        }
        i
    }

    /// The highest-graded entry with its position (the earliest on a tie); `None` when no entry
    /// is graded.
    pub fn highest_score(&self) -> (r: Option<(usize, GradedMove)>)
        ensures
            r is None <==> highest(self.move_list@) is None,
            r is Some ==> {
                &&& highest(self.move_list@) == Some(r.unwrap().0 as int)
                &&& r.unwrap().0 < self.move_list@.len()
                &&& r.unwrap().1 == self.move_list@[r.unwrap().0 as int]
                &&& r.unwrap().1.1 is Some
            },
    {
        let mut best: Option<usize> = None;
        let mut i: usize = 0;
        while i < self.move_list.len()
            invariant
                i <= self.move_list@.len(),
                match best_index(self.move_list@, i as int) {
                    None => best is None,
                    Some(j) => best == Some(j as usize),
                },
            decreases self.move_list@.len() - i,
        {
            proof {
                lemma_best_index(self.move_list@, i as int);
            }
            match self.move_list[i].1 {
                None => {},
                Some(x) => {
                    match best {
                        None => {
                            best = Some(i);
                        },
                        Some(j) => {
                            let y = self.move_list[j].1.unwrap();
                            if x > y {
                                best = Some(i);
                            }
                        },
                    }
                },
            }
            i = i + 1;
        }
        proof {
            lemma_best_index(self.move_list@, i as int);
        }
        match best {
            None => None,
            Some(j) => Some((j, self.move_list[j])),
        }
    }
}

} // verus!
