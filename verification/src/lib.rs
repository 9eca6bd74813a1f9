//! Board-simulation engine for a two-player grid combat game, together with
//! the small verified cores of the sibling programs in the same collection:
//! a rectangle area function and a challenge-response check.

pub mod auth;
pub mod board;
pub mod input;
pub mod placement;
pub mod rect;
pub mod rng;
pub mod strategy;
pub mod turns;

use vstd::prelude::*;

verus! {

/// Side length of the standard game grid.
pub const BOARD_SIZE: usize = 10;

} // verus!
