//! The static-partition strategy: contiguous disjoint bands, one per worker.

use crate::game_of_life::{
    advance_cell, grid_ok, lemma_idx_split, neighbor_count, step_cell, successor,
};
use vstd::arithmetic::div_mod::lemma_div_non_zero;
use vstd::prelude::*;

verus! {

/// Computes the successor cells of the flat index range [start, end): the
/// work one worker performs on its band, staged in a private buffer so that
/// no synchronization is needed while computing.
#[verifier::loop_isolation(false)]
pub fn step_band(curr_buffer: &Vec<u8>, start: usize, end: usize, width: usize, height: usize) -> (band: Vec<u8>)
    requires
        curr_buffer@.len() == width * height,
        start <= end <= width * height,
        width <= isize::MAX,
        height <= isize::MAX,
        grid_ok(curr_buffer@),
    ensures
        band@.len() == end - start,
        forall|k: int|
            0 <= k < end - start ==> band@[k] == step_cell(
                curr_buffer@,
                width as int,
                height as int,
                start + k,
            ),
{
    let ghost g = curr_buffer@;
    let ghost w = width as int;
    let ghost h = height as int;
    let mut band: Vec<u8> = Vec::new();
    let mut cell = start;
    while cell < end
        invariant
            start <= cell <= end,
            band@.len() == cell - start,
            forall|k: int| 0 <= k < cell - start ==> band@[k] == step_cell(g, w, h, start + k),
        decreases end - cell,
    {
        proof {
            lemma_idx_split(cell as int, w, h);
        }
        let x = cell % width;
        let y = cell / width;
        let n = neighbor_count(curr_buffer, x, y, width, height);
        band.push(advance_cell(curr_buffer[cell], n));
        cell = cell + 1;
    }
    band
}

/// Copies one finished band into the next buffer at its destination offset;
/// everything outside [start, start + band.len()) is left untouched.
#[verifier::loop_isolation(false)]
pub fn copy_band_into(next_buffer: &mut Vec<u8>, start: usize, band: &Vec<u8>)
    requires
        start + band@.len() <= old(next_buffer)@.len(),
    ensures
        final(next_buffer)@.len() == old(next_buffer)@.len(),
        forall|k: int| 0 <= k < band@.len() ==> final(next_buffer)@[start + k] == band@[k],
        forall|i: int|
            0 <= i < old(next_buffer)@.len() && !(start <= i < start + band@.len())
                ==> final(next_buffer)@[i] == old(next_buffer)@[i],
{
    let buffer_len = next_buffer.len();
    let mut k: usize = 0;
    while k < band.len()
        invariant
            k <= band@.len(),
            next_buffer@.len() == old(next_buffer)@.len(),
            forall|j: int| 0 <= j < k ==> next_buffer@[start + j] == band@[j],
            forall|i: int|
                0 <= i < old(next_buffer)@.len() && !(start <= i < start + band@.len())
                    ==> next_buffer@[i] == old(next_buffer)@[i],
        decreases band@.len() - k,
    {
        next_buffer.set(start + k, band[k]);
        k = k + 1;
    }
}

/// Static-partition stepper: divides the flat index space [0, total) into
/// ceil(total / num_threads)-sized contiguous bands (the last one may be
/// shorter), computes each band with [`step_band`], and writes it into its
/// disjoint destination range. A threaded driver hands one band per worker;
/// the partitioning never affects the result.
#[verifier::loop_isolation(false)]
pub fn step_parallel(
    curr_buffer: &Vec<u8>,
    next_buffer: &mut Vec<u8>,
    num_threads: usize,
    width: usize,
    height: usize,
)
    requires
        curr_buffer@.len() == width * height,
        old(next_buffer)@.len() == width * height,
        1 <= num_threads,
        width * height + num_threads <= usize::MAX,
        width <= isize::MAX,
        height <= isize::MAX,
        grid_ok(curr_buffer@),
    ensures
        final(next_buffer)@ == successor(curr_buffer@, width as int, height as int),
        grid_ok(final(next_buffer)@),
{
    let ghost g = curr_buffer@;
    let ghost w = width as int;
    let ghost h = height as int;
    let total = curr_buffer.len();
    let cells_per_worker = (total + num_threads - 1) / num_threads;
    proof {
        if 1 <= total {
            lemma_div_non_zero((total + num_threads - 1) as int, num_threads as int);
        }
    }
    let mut start: usize = 0;
    while start < total
        invariant
            start <= total,
            next_buffer@.len() == total,
            1 <= total ==> 1 <= cells_per_worker,
            forall|i: int| 0 <= i < start ==> next_buffer@[i] == step_cell(g, w, h, i),
        decreases total - start,
    {
        let len = if cells_per_worker < total - start {
            cells_per_worker
        } else {
            total - start
        };
        let band = step_band(curr_buffer, start, start + len, width, height);
        copy_band_into(next_buffer, start, &band);
        proof {
            assert forall|i: int| start <= i < start + len implies next_buffer@[i] == step_cell(
                g,
                w,
                h,
                i,
            ) by {
                let k = i - start;
                assert(band@[k] == step_cell(g, w, h, start + k));
                assert(next_buffer@[start + k] == band@[k]);
            }
        }
        start = start + len;
    }
    assert(next_buffer@ =~= successor(g, w, h));
}

} // verus!
