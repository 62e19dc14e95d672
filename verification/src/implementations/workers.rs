//! The dynamic-queue strategy: workers pull fixed-size chunks from a shared
//! job cursor until the index space is exhausted.

use crate::game_of_life::{grid_ok, step_cell, successor};
use crate::implementations::parallel::{copy_band_into, step_band};
use vstd::prelude::*;

verus! {

/// Claim-and-advance on the shared job cursor: if work is left, claims the
/// half-open range [cursor, min(cursor + chunk_size, total)); the new cursor
/// value is the claimed end. This is the whole critical section of the
/// dynamic queue, so claimed ranges are disjoint and advance monotonically.
pub fn claim_chunk(cursor: usize, chunk_size: usize, total: usize) -> (claimed: Option<(usize, usize)>)
    requires
        1 <= chunk_size,
        cursor <= total,
    ensures
        match claimed {
            None => cursor == total,
            Some(range) => {
                &&& cursor < total
                &&& range.0 == cursor
                &&& range.1 == if cursor + chunk_size <= total {
                    cursor + chunk_size
                } else {
                    total as int
                }
                &&& cursor < range.1 <= total
            },
        },
{
    if cursor >= total {
        None
    } else {
        let end = if chunk_size <= total - cursor {
            cursor + chunk_size
        } else {
            total
        };
        Some((cursor, end))
    }
}

/// Dynamic-queue stepper: repeatedly claims a chunk from the job cursor,
/// computes it into a private scratch buffer with [`step_band`], and copies
/// the finished chunk into its disjoint destination range. A threaded driver
/// runs this claim loop on `num_threads` workers; the chunk schedule never
/// affects the result.
#[verifier::loop_isolation(false)]
pub fn step_workers(
    curr_buffer: &Vec<u8>,
    next_buffer: &mut Vec<u8>,
    num_threads: usize,
    chunk_size: usize,
    width: usize,
    height: usize,
)
    requires
        curr_buffer@.len() == width * height,
        old(next_buffer)@.len() == width * height,
        1 <= num_threads,
        1 <= chunk_size,
        width <= isize::MAX,
        height <= isize::MAX,
        grid_ok(curr_buffer@),
    ensures
        final(next_buffer)@ == successor(curr_buffer@, width as int, height as int),
        grid_ok(final(next_buffer)@),
{
    let ghost g = curr_buffer@;
    let ghost w = width as int;
    let ghost h = height as int;
    let total = curr_buffer.len();
    let mut next_job: usize = 0;
    while next_job < total
        invariant
            next_job <= total,
            next_buffer@.len() == total,
            forall|i: int| 0 <= i < next_job ==> next_buffer@[i] == step_cell(g, w, h, i),
        decreases total - next_job,
    {
        let claimed = claim_chunk(next_job, chunk_size, total);
        match claimed {
            Some(range) => {
                let scratch = step_band(curr_buffer, range.0, range.1, width, height);
                copy_band_into(next_buffer, range.0, &scratch);
                proof {
                    assert forall|i: int| range.0 <= i < range.1 implies next_buffer@[i]
                        == step_cell(g, w, h, i) by {
                        let k = i - range.0;
                        assert(scratch@[k] == step_cell(g, w, h, range.0 + k));
                        assert(next_buffer@[range.0 + k] == scratch@[k]);
                    }
                }
                next_job = range.1;
            },
            None => {
                proof {
                    assert(false);
                }
            },
        }
    }
    assert(next_buffer@ =~= successor(g, w, h));
}

} // verus!
