//! Opponent strategy: a target drawn uniformly from the full grid, with no
//! memory of prior shots.

use vstd::prelude::*;
use crate::rng::sample_below;

verus! {

/// A target coordinate for the opponent's next shot, drawn from the full
/// standard grid; it may repeat a previously fired-upon coordinate.
pub fn generate_opponent_move(rng: &mut rand::rngs::ThreadRng) -> (target: (usize, usize))
    ensures
        target.0 < crate::BOARD_SIZE,
        target.1 < crate::BOARD_SIZE,
{
    let row = sample_below(rng, crate::BOARD_SIZE);
    let col = sample_below(rng, crate::BOARD_SIZE);
    (row, col)
}

} // verus!
