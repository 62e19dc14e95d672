//! The invert process: every color byte becomes 255 minus itself.

use crate::effect::PictureEffect;
use crate::image_array::Pixel;
use vstd::prelude::*;

verus! {

/// Inverts the bytes of the half-open range [start, end) of a raw image
/// buffer in place; bytes outside the range keep their value. One call per
/// disjoint band is the whole work of a concurrent invert worker.
#[verifier::loop_isolation(false)]
pub fn invert_range(buffer: &mut Vec<u8>, start: usize, end: usize)
    requires
        start <= end <= old(buffer)@.len(),
    ensures
        final(buffer)@.len() == old(buffer)@.len(),
        forall|i: int| start <= i < end ==> final(buffer)@[i] == 255 - old(buffer)@[i],
        forall|i: int|
            0 <= i < old(buffer)@.len() && !(start <= i < end)
                ==> final(buffer)@[i] == old(buffer)@[i],
{
    let mut i: usize = start;
    while i < end
        invariant
            start <= i <= end,
            buffer@.len() == old(buffer)@.len(),
            forall|j: int| start <= j < i ==> buffer@[j] == 255 - old(buffer)@[j],
            forall|j: int|
                0 <= j < old(buffer)@.len() && !(start <= j < i) ==> buffer@[j] == old(buffer)@[j],
        decreases end - i,
    {
        let b = buffer[i];
        buffer.set(i, 255u8 - b);
        i = i + 1;
    }
}

/// Inverts every byte of a raw image buffer in place: the whole computation
/// of the serial invert process.
pub fn invert_bytes(buffer: &mut Vec<u8>)
    ensures
        final(buffer)@.len() == old(buffer)@.len(),
        forall|i: int| 0 <= i < old(buffer)@.len() ==> final(buffer)@[i] == 255 - old(buffer)@[i],
{
    let n: usize = buffer.len();
    invert_range(buffer, 0, n);
}

/// The invert effect on one pixel: flips the three color channels and keeps
/// the alpha channel.
pub struct InvertEffect;

impl PictureEffect for InvertEffect {
    fn process_pixel(x: usize, y: usize, pixel: &mut Pixel) {
        pixel.red = 255 - pixel.red;
        pixel.green = 255 - pixel.green;
        pixel.blue = 255 - pixel.blue;
    }
}

} // verus!
