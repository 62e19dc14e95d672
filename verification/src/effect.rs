//! Per-pixel effects, applied by the processing strategies.

use crate::image_array::Pixel;
use vstd::prelude::*;

verus! {

/// A picture effect rewrites one pixel in place, given its coordinates.
/// Implementors decide what the effect does; the strategies only promise to
/// visit every pixel of their partition.
pub trait PictureEffect {
    fn process_pixel(x: usize, y: usize, pixel: &mut Pixel);
}

} // verus!
