//! The rotate process: quarter-turn rotations of a packed RGB byte buffer.

use crate::game_of_life::{idx_spec, lemma_idx_in_bounds};
use vstd::prelude::*;

verus! {

/// The dimensions of the rotated image: a quarter turn swaps width and
/// height, a half turn (or no turn) keeps them.
pub open spec fn rotated_dims_spec(w: int, h: int, deg: int) -> (int, int) {
    if deg == 90 || deg == 270 {
        (h, w)
    } else {
        (w, h)
    }
}

/// The source pixel that lands on output position (ox, oy) under a rotation
/// of `deg` degrees of a w x h image; any degree other than 90, 180 or 270
/// copies the pixel straight across.
pub open spec fn source_coord_spec(ox: int, oy: int, w: int, h: int, deg: int) -> (int, int) {
    if deg == 90 {
        (oy, h - 1 - ox)
    } else if deg == 180 {
        (w - 1 - ox, h - 1 - oy)
    } else if deg == 270 {
        (w - 1 - oy, ox)
    } else {
        (ox, oy)
    }
}

/// The flat byte index of channel `c` of the pixel at (x, y) in a packed
/// RGB buffer of the given width.
pub open spec fn rgb_index(width: int, x: int, y: int, c: int) -> int {
    idx_spec(x, y, width) * 3 + c
}

/// Output dimensions for a quarter-turn rotation.
pub fn rotated_dims(w: u32, h: u32, deg: u16) -> (r: (u32, u32))
    ensures
        (r.0 as int, r.1 as int) == rotated_dims_spec(w as int, h as int, deg as int),
{
    match deg {
        90 | 270 => (h, w),
        _ => (w, h),
    }
}

/// Source coordinates for one output position; total once the output
/// position lies inside the rotated dimensions.
pub fn source_coord_for_out(ox: u32, oy: u32, w: u32, h: u32, deg: u16) -> (r: (u32, u32))
    requires
        (deg == 90 || deg == 270) ==> (ox < h && oy < w),
        (deg == 180 || !(deg == 90 || deg == 270)) ==> (ox < w && oy < h),
    ensures
        (r.0 as int, r.1 as int) == source_coord_spec(
            ox as int,
            oy as int,
            w as int,
            h as int,
            deg as int,
        ),
        r.0 < w,
        r.1 < h,
{
    match deg {
        90 => (oy, h - 1 - ox),
        180 => (w - 1 - ox, h - 1 - oy),
        270 => (w - 1 - oy, ox),
        _ => (ox, oy),
    }
}

/// Computes the output rows [oy_start, oy_end) of the rotated image as a
/// packed RGB buffer: the work of one concurrent rotate worker. Bytes appear
/// band-relative, row-major, three channels per pixel.
#[verifier::loop_isolation(false)]
pub fn rotate_rows(src: &Vec<u8>, w: u32, h: u32, degrees: u16, oy_start: u32, oy_end: u32) -> (band: Vec<u8>)
    requires
        src@.len() == 3 * w * h,
        3 * w <= usize::MAX,
        3 * h <= usize::MAX,
        oy_start <= oy_end,
        oy_end as int <= rotated_dims_spec(w as int, h as int, degrees as int).1,
    ensures
        band@.len() == (oy_end - oy_start) * rotated_dims_spec(
            w as int,
            h as int,
            degrees as int,
        ).0 * 3,
        forall|ox: int, oy: int, c: int|
            {
                let source = source_coord_spec(ox, oy, w as int, h as int, degrees as int);
                0 <= ox < rotated_dims_spec(w as int, h as int, degrees as int).0 && oy_start <= oy
                    < oy_end && 0 <= c < 3 ==> #[trigger] band@[rgb_index(
                    rotated_dims_spec(w as int, h as int, degrees as int).0,
                    ox,
                    oy - oy_start,
                    c,
                )] == src@[rgb_index(w as int, source.0, source.1, c)]
            },
{
    let ghost wi = w as int;
    let ghost hi = h as int;
    let ghost di = degrees as int;
    let ghost dims = rotated_dims_spec(wi, hi, di);
    let total: usize = src.len();
    let (nw, nh) = rotated_dims(w, h, degrees);
    let mut band: Vec<u8> = Vec::new();
    let mut oy: u32 = oy_start;
    while oy < oy_end
        invariant
            oy_start <= oy <= oy_end,
            band@.len() == (oy - oy_start) * (nw as int) * 3,
            forall|a: int, b: int, cc: int|
                {
                    let source = source_coord_spec(a, b, wi, hi, di);
                    0 <= a < nw && oy_start <= b < oy && 0 <= cc < 3
                        ==> #[trigger] band@[rgb_index(nw as int, a, b - oy_start, cc)]
                        == src@[rgb_index(wi, source.0, source.1, cc)]
                },
        decreases oy_end - oy,
    {
        let mut ox: u32 = 0;
        while ox < nw
            invariant
                ox <= nw,
                oy < oy_end,
                band@.len() == ((oy - oy_start) * (nw as int) + ox) * 3,
                forall|a: int, b: int, cc: int|
                    {
                        let source = source_coord_spec(a, b, wi, hi, di);
                        0 <= a < nw && oy_start <= b < oy && 0 <= cc < 3
                            ==> #[trigger] band@[rgb_index(nw as int, a, b - oy_start, cc)]
                            == src@[rgb_index(wi, source.0, source.1, cc)]
                    },
                forall|a: int, cc: int|
                    {
                        let source = source_coord_spec(a, oy as int, wi, hi, di);
                        0 <= a < ox && 0 <= cc < 3
                            ==> #[trigger] band@[rgb_index(nw as int, a, oy - oy_start, cc)]
                            == src@[rgb_index(wi, source.0, source.1, cc)]
                    },
            decreases nw - ox,
        {
            let source = source_coord_for_out(ox, oy, w, h, degrees);
            let sx = source.0;
            let sy = source.1;
            proof {
                lemma_idx_in_bounds(sx as int, sy as int, wi, hi);
                lemma_idx_in_bounds(ox as int, (oy - oy_start) as int, nw as int, (oy_end
                    - oy_start) as int);
                assert((wi * hi) * 3 == 3 * wi * hi) by (nonlinear_arith);
                assert(idx_spec(sx as int, sy as int, wi) * 3 + 3 <= total as int);
            }
            let src_base: usize = (sy as usize * w as usize + sx as usize) * 3;
            let mut c: usize = 0;
            while c < 3
                invariant
                    c <= 3,
                    band@.len() == ((oy - oy_start) * (nw as int) + ox) * 3 + c,
                    forall|a: int, b: int, cc: int|
                        {
                            let source2 = source_coord_spec(a, b, wi, hi, di);
                            0 <= a < nw && oy_start <= b < oy && 0 <= cc < 3
                                ==> #[trigger] band@[rgb_index(nw as int, a, b - oy_start, cc)]
                                == src@[rgb_index(wi, source2.0, source2.1, cc)]
                        },
                    forall|a: int, cc: int|
                        {
                            let source2 = source_coord_spec(a, oy as int, wi, hi, di);
                            0 <= a < ox && 0 <= cc < 3
                                ==> #[trigger] band@[rgb_index(nw as int, a, oy - oy_start, cc)]
                                == src@[rgb_index(wi, source2.0, source2.1, cc)]
                        },
                    forall|cc: int|
                        {
                            let source2 = source_coord_spec(ox as int, oy as int, wi, hi, di);
                            0 <= cc < c
                                ==> #[trigger] band@[rgb_index(nw as int, ox as int, oy - oy_start, cc)]
                                == src@[rgb_index(wi, source2.0, source2.1, cc)]
                        },
                decreases 3 - c,
            {
                let byte = src[src_base + c];
                band.push(byte);
                proof {
                    assert forall|a: int, b: int, cc: int|
                        0 <= a < nw && oy_start <= b < oy && 0 <= cc
                            < 3 implies #[trigger] band@[rgb_index(nw as int, a, b - oy_start, cc)]
                        == src@[rgb_index(
                        wi,
                        source_coord_spec(a, b, wi, hi, di).0,
                        source_coord_spec(a, b, wi, hi, di).1,
                        cc,
                    )] by {
                        assert((b - oy_start) * (nw as int) + a < (oy - oy_start) * (nw as int)
                            + ox) by (nonlinear_arith)
                            requires
                                0 <= a < nw as int,
                                oy_start <= b < oy,
                                0 <= ox,
                        ;
                    }
                }
                c = c + 1;
            }
            proof {
                assert(((oy - oy_start) * (nw as int) + ox) * 3 + 3 == ((oy - oy_start) * (nw as int)
                    + (ox + 1)) * 3) by (nonlinear_arith);
            }
            ox = ox + 1;
        }
        proof {
            assert(((oy - oy_start) * (nw as int) + (nw as int)) * 3 == ((oy + 1 - oy_start) * (
            nw as int)) * 3) by (nonlinear_arith);
        }
        oy = oy + 1;
    }
    band
}

/// Rotates a packed RGB image by 90, 180 or 270 degrees (any other degree
/// copies the image unchanged): the whole computation of the serial rotate
/// process.
pub fn rotate_rgb(src: &Vec<u8>, w: u32, h: u32, degrees: u16) -> (out: Vec<u8>)
    requires
        src@.len() == 3 * w * h,
        3 * w <= usize::MAX,
        3 * h <= usize::MAX,
    ensures
        out@.len() == 3 * w * h,
        forall|ox: int, oy: int, c: int|
            {
                let source = source_coord_spec(ox, oy, w as int, h as int, degrees as int);
                0 <= ox < rotated_dims_spec(w as int, h as int, degrees as int).0 && 0 <= oy
                    < rotated_dims_spec(w as int, h as int, degrees as int).1 && 0 <= c < 3
                    ==> #[trigger] out@[rgb_index(
                    rotated_dims_spec(w as int, h as int, degrees as int).0,
                    ox,
                    oy,
                    c,
                )] == src@[rgb_index(w as int, source.0, source.1, c)]
            },
{
    let (nw, nh) = rotated_dims(w, h, degrees);
    let out = rotate_rows(src, w, h, degrees, 0, nh);
    proof {
        assert((nh as int) * (nw as int) * 3 == 3 * (w as int) * (h as int)) by (nonlinear_arith)
            requires
                (nw as int, nh as int) == rotated_dims_spec(w as int, h as int, degrees as int),
                rotated_dims_spec(w as int, h as int, degrees as int) == if degrees == 90
                    || degrees == 270 {
                    (h as int, w as int)
                } else {
                    (w as int, h as int)
                },
        ;
        assert forall|ox: int, oy: int, c: int|
            0 <= ox < rotated_dims_spec(w as int, h as int, degrees as int).0 && 0 <= oy
                < rotated_dims_spec(w as int, h as int, degrees as int).1 && 0 <= c
                < 3 implies #[trigger] out@[rgb_index(
            rotated_dims_spec(w as int, h as int, degrees as int).0,
            ox,
            oy,
            c,
        )] == src@[rgb_index(
            w as int,
            source_coord_spec(ox, oy, w as int, h as int, degrees as int).0,
            source_coord_spec(ox, oy, w as int, h as int, degrees as int).1,
            c,
        )] by {
            assert(out@[rgb_index(
                rotated_dims_spec(w as int, h as int, degrees as int).0,
                ox,
                oy - 0,
                c,
            )] == src@[rgb_index(
                w as int,
                source_coord_spec(ox, oy, w as int, h as int, degrees as int).0,
                source_coord_spec(ox, oy, w as int, h as int, degrees as int).1,
                c,
            )]);
        }
    }
    out
}

} // verus!
