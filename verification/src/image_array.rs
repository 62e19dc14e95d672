//! An image held as rows of pixels, grown on demand while pixels stream in.

use vstd::prelude::*;

verus! {

/// One RGBA pixel.
#[derive(Debug, Clone, Copy, PartialEq, Eq, Structural)]
pub struct Pixel {
    pub red: u8,
    pub green: u8,
    pub blue: u8,
    pub alpha: u8,
}

/// The all-zero pixel used to pad rows that are extended past their end.
pub open spec fn blank_pixel() -> Pixel {
    Pixel { red: 0, green: 0, blue: 0, alpha: 0 }
}

impl Default for Pixel {
    /// The default pixel is fully transparent black.
    fn default() -> (p: Pixel)
        ensures
            p == blank_pixel(),
    {
        Pixel { red: 0, green: 0, blue: 0, alpha: 0 }
    }
}

/// An image as a growable list of pixel rows; rows may have different
/// lengths while the image is being filled.
#[derive(Debug, Clone)]
pub struct ImageArray(pub Vec<Vec<Pixel>>);

impl Default for ImageArray {
    /// The default image has no rows.
    fn default() -> (a: ImageArray)
        ensures
            a.0@.len() == 0,
    {
        ImageArray(Vec::new())
    }
}

/// Pads `row` with blank pixels up to column `x` if it is shorter, then
/// appends `pixel`; a row already longer than `x` just gets `pixel` appended.
#[verifier::loop_isolation(false)]
fn pad_and_push(row: &mut Vec<Pixel>, x: usize, pixel: Pixel)
    ensures
        old(row)@.len() <= x ==> {
            &&& final(row)@.len() == x + 1
            &&& (forall|j: int| 0 <= j < old(row)@.len() ==> final(row)@[j] == old(row)@[j])
            &&& (forall|j: int| old(row)@.len() <= j < x ==> final(row)@[j] == blank_pixel())
            &&& final(row)@[x as int] == pixel
        },
        old(row)@.len() > x ==> final(row)@ == old(row)@.push(pixel),
{
    while row.len() < x
        invariant
            old(row)@.len() <= x ==> old(row)@.len() <= row@.len() <= x,
            old(row)@.len() > x ==> row@ == old(row)@,
            forall|j: int| 0 <= j < old(row)@.len() ==> row@[j] == old(row)@[j],
            forall|j: int| old(row)@.len() <= j < row@.len() ==> row@[j] == blank_pixel(),
        decreases x - row@.len(),
    {
        row.push(Pixel::default());
    }
    row.push(pixel);
    proof {
        if old(row)@.len() > x {
            assert(row@ =~= old(row)@.push(pixel));
        }
    }
}

impl ImageArray {
    /// Places `pixel` at column `x` of row `y`, first growing the image with
    /// empty rows so that row `y` exists, and padding that row with blank
    /// pixels so that the pixel lands at column `x`; a row already longer
    /// than `x` just gets the pixel appended. All other rows are unchanged.
    #[verifier::loop_isolation(false)]
    pub fn add_pixel(&mut self, x: u32, y: u32, pixel: Pixel)
        requires
            y < usize::MAX,
        ensures
            final(self).0@.len() == if old(self).0@.len() <= y {
                y + 1
            } else {
                old(self).0@.len() as int
            },
            forall|r: int|
                0 <= r < old(self).0@.len() && r != y ==> final(self).0@[r]@ == old(self).0@[r]@,
            forall|r: int|
                old(self).0@.len() <= r < final(self).0@.len() && r != y
                    ==> final(self).0@[r]@.len() == 0,
            ({
                let prior = if y < old(self).0@.len() {
                    old(self).0@[y as int]@
                } else {
                    Seq::<Pixel>::empty()
                };
                if prior.len() <= x {
                    &&& final(self).0@[y as int]@.len() == x + 1
                    &&& (forall|j: int|
                        0 <= j < prior.len() ==> final(self).0@[y as int]@[j] == prior[j])
                    &&& (forall|j: int|
                        prior.len() <= j < x ==> final(self).0@[y as int]@[j] == blank_pixel())
                    &&& final(self).0@[y as int]@[x as int] == pixel
                } else {
                    final(self).0@[y as int]@ == prior.push(pixel)
                }
            }),
    {
        let y_pos = y as usize;
        let x_pos = x as usize;
        while self.0.len() <= y_pos
            invariant
                self.0@.len() <= y_pos + 1 || self.0@ == old(self).0@,
                old(self).0@.len() <= self.0@.len(),
                forall|r: int| 0 <= r < old(self).0@.len() ==> self.0@[r]@ == old(self).0@[r]@,
                forall|r: int| old(self).0@.len() <= r < self.0@.len() ==> self.0@[r]@.len() == 0,
            decreases y_pos + 1 - self.0@.len(),
        {
            self.0.push(Vec::new());
        }
        pad_and_push(&mut self.0[y_pos], x_pos, pixel);
    }
}

} // verus!
