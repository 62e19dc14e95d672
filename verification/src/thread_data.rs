//! The units of work that the processing strategies hand to their workers.
//!
//! Each unit owns the pixels it is responsible for; a strategy partitions an
//! image into such units and reassembles them after processing.

use crate::image_array::Pixel;
use vstd::prelude::*;

verus! {

/// The whole image as one unit: all rows, for a single worker.
pub struct SingleThreadData {
    pub rows: Vec<Vec<Pixel>>,
}

/// One row and its row index.
pub struct ByRowThreadData {
    pub y: usize,
    pub row: Vec<Pixel>,
}

/// One column and its column index.
pub struct ByColumnThreadData {
    pub x: usize,
    pub column: Vec<Pixel>,
}

/// One rectangular tile: the coordinates of its top-left pixel, the tile's
/// rows, and the order in which they are to be visited.
pub struct ByChunkThreadData {
    pub x: usize,
    pub y: usize,
    pub up_to_down: bool,
    pub chunk_rows: Vec<Vec<Pixel>>,
}

} // verus!
