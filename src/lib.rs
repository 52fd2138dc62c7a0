//! Staged move ordering for an alpha-beta chess search, with the piece-square and passed-pawn
//! terms of the static evaluation.
//!
//! The pipeline of `moveordering` hands out the moves of one search node one at a time: the
//! principal-variation hint, the transposition-table hint, the captures that the cheap material
//! test settles (by MVV-LVA rank), then the other captures that an exchange evaluation finds
//! not losing, the killer moves, the quiet moves by their history / butterfly ratio, and last
//! the losing captures. It asks its caller for the legal moves only when the captures are due,
//! and for an exchange value only for a capture that needs one. `ordering_laws` states and
//! proves what it guarantees.

use vstd::prelude::*;

pub mod bitboards;
pub mod board;
pub mod evaluation;
pub mod heuristics;
pub mod movelist;
pub mod moveordering;
pub mod ordering_laws;
pub mod params;
pub mod psqt_evaluation;
pub mod passed_evaluation;

verus! {

} // verus!
