//! The single-threaded reference strategy.

use crate::game_of_life::{grid_ok, successor};
use vstd::prelude::*;

verus! {

/// A serial step is cell-wise, left-to-right, top-to-bottom; it defines the
/// ground truth every concurrent strategy is held to.
pub fn step_serial(curr_buffer: &Vec<u8>, next_buffer: &mut Vec<u8>, width: usize, height: usize)
    requires
        curr_buffer@.len() == width * height,
        old(next_buffer)@.len() == width * height,
        width <= isize::MAX,
        height <= isize::MAX,
        grid_ok(curr_buffer@),
    ensures
        final(next_buffer)@ == successor(curr_buffer@, width as int, height as int),
        grid_ok(final(next_buffer)@),
{
    crate::game_of_life::step_serial(curr_buffer, next_buffer, width, height)
}

} // verus!
