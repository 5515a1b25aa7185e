//! Exhaustive search for squared squares and squared rectangles.
//!
//! A partial tiling is described by its skyline: a row of plates, each a
//! horizontal segment with a height and a width, framed by a wall plate on
//! either side.  Squares are placed on the lowest enclosed plate; every placement
//! can be undone exactly, which is what lets the search backtrack.
use vstd::prelude::*;

pub mod squares;
pub mod skyline;
pub mod text;
pub mod exhaustive;
pub mod glasses;
pub mod checks;
pub mod coordinator;
pub mod model;
pub mod laws;

verus! {

/// Length of the per-width lookup tables (glass heights and largest squares).
pub const CONFIG_SIZE: usize = 151;

} // verus!
