//! The blur process: a box blur over a packed RGB byte buffer, with
//! edge-clamped sampling.

use crate::game_of_life::{idx_spec, lemma_idx_in_bounds};
use crate::rotate::rgb_index;
use vstd::prelude::*;

verus! {

/// Clamps a sampling coordinate into [0, max).
pub open spec fn clamp_coord(v: int, max: int) -> int {
    if v < 0 {
        0
    } else if v > max - 1 {
        max - 1
    } else {
        v
    }
}

/// The channel `c` of the pixel sampled at (x, y) with both coordinates
/// clamped to the image.
pub open spec fn clamped_channel(img: Seq<u8>, w: int, h: int, x: int, y: int, c: int) -> int {
    img[rgb_index(w, clamp_coord(x, w), clamp_coord(y, h), c)] as int
}

/// Sum of `n` horizontally consecutive clamped samples starting at x_lo.
pub open spec fn blur_row_sum(img: Seq<u8>, w: int, h: int, x_lo: int, y: int, c: int, n: nat) -> int
    decreases n,
{
    if n == 0 {
        0
    } else {
        blur_row_sum(img, w, h, x_lo, y, c, (n - 1) as nat) + clamped_channel(
            img,
            w,
            h,
            x_lo + n - 1,
            y,
            c,
        )
    }
}

/// Sum of `m` rows of `n` clamped samples each, starting at (x_lo, y_lo).
pub open spec fn blur_window_sum(
    img: Seq<u8>,
    w: int,
    h: int,
    x_lo: int,
    y_lo: int,
    c: int,
    n: nat,
    m: nat,
) -> int
    decreases m,
{
    if m == 0 {
        0
    } else {
        blur_window_sum(img, w, h, x_lo, y_lo, c, n, (m - 1) as nat) + blur_row_sum(
            img,
            w,
            h,
            x_lo,
            y_lo + m - 1,
            c,
            n,
        )
    }
}

/// The blurred value of channel `c` at (x, y): the average, rounded down, of
/// the (2r+1) x (2r+1) window of clamped samples centered there.
pub open spec fn blur_channel(img: Seq<u8>, w: int, h: int, x: int, y: int, c: int, r: int) -> int {
    blur_window_sum(img, w, h, x - r, y - r, c, (2 * r + 1) as nat, (2 * r + 1) as nat) / ((2 * r
        + 1) * (2 * r + 1))
}

/// Every sample is a byte, so a row of `n` samples sums to at most 255 n.
proof fn lemma_row_sum_bounds(img: Seq<u8>, w: int, h: int, x_lo: int, y: int, c: int, n: nat)
    requires
        img.len() == 3 * w * h,
        0 < w,
        0 < h,
        0 <= c < 3,
    ensures
        0 <= blur_row_sum(img, w, h, x_lo, y, c, n) <= 255 * n,
    decreases n,
{
    if n > 0 {
        lemma_row_sum_bounds(img, w, h, x_lo, y, c, (n - 1) as nat);
        lemma_idx_in_bounds(clamp_coord(x_lo + n - 1, w), clamp_coord(y, h), w, h);
    }
}

/// A window of `m` rows of `n` samples sums to at most 255 n m.
proof fn lemma_window_sum_bounds(
    img: Seq<u8>,
    w: int,
    h: int,
    x_lo: int,
    y_lo: int,
    c: int,
    n: nat,
    m: nat,
)
    requires
        img.len() == 3 * w * h,
        0 < w,
        0 < h,
        0 <= c < 3,
    ensures
        0 <= blur_window_sum(img, w, h, x_lo, y_lo, c, n, m) <= 255 * n * m,
    decreases m,
{
    if m > 0 {
        lemma_window_sum_bounds(img, w, h, x_lo, y_lo, c, n, (m - 1) as nat);
        lemma_row_sum_bounds(img, w, h, x_lo, y_lo + m - 1, c, n);
        assert(255 * n * ((m - 1) as int) + 255 * n <= 255 * n * m) by (nonlinear_arith)
            requires
                m >= 1,
        ;
        assert(0 <= 255 * n * ((m - 1) as int)) by (nonlinear_arith)
            requires
                m >= 1,
        ;
    }
}

/// Clamps a sampling coordinate into [0, max).
fn clamp(v: i64, max: u32) -> (r: u32)
    requires
        1 <= max,
    ensures
        r == clamp_coord(v as int, max as int),
        r < max,
{
    if v < 0 {
        0
    } else if v > (max - 1) as i64 {
        max - 1
    } else {
        v as u32
    }
}

/// The blurred value of one channel of one pixel: sums the clamped window
/// and divides by the window size.
#[verifier::loop_isolation(false)]
fn blur_channel_at(src: &Vec<u8>, w: u32, h: u32, x: u32, y: u32, radius: u32, c: usize) -> (v: u8)
    requires
        src@.len() == 3 * w * h,
        x < w,
        y < h,
        c < 3,
        (2 * radius + 1) * (2 * radius + 1) * 255 <= u32::MAX,
    ensures
        v == blur_channel(src@, w as int, h as int, x as int, y as int, c as int, radius as int),
{
    let ghost wi = w as int;
    let ghost hi = h as int;
    let ghost ci = c as int;
    let ghost ri = radius as int;
    let ghost x_lo = x - ri;
    let ghost y_lo = y - ri;
    let total: usize = src.len();
    proof {
        assert(2 * radius + 1 <= 4104) by (nonlinear_arith)
            requires
                (2 * radius + 1) * (2 * radius + 1) * 255 <= u32::MAX,
        ;
    }
    let side: u32 = 2 * radius + 1;
    proof {
        assert(side * side * 255 <= u32::MAX && 1 <= side * side) by (nonlinear_arith)
            requires
                1 <= side <= 4104,
                (2 * radius + 1) * (2 * radius + 1) * 255 <= u32::MAX,
                side == 2 * radius + 1,
        ;
    }
    let count: u32 = side * side;
    let ghost n = side as nat;
    let mut acc: u32 = 0;
    let mut m: u32 = 0;
    while m < side
        invariant
            m <= side,
            acc == blur_window_sum(src@, wi, hi, x_lo, y_lo, ci, n, m as nat),
        decreases side - m,
    {
        let yy: u32 = clamp(y as i64 - radius as i64 + m as i64, h);
        let mut k: u32 = 0;
        while k < side
            invariant
                k <= side,
                m < side,
                yy == clamp_coord(y_lo + m, hi),
                acc == blur_window_sum(src@, wi, hi, x_lo, y_lo, ci, n, m as nat) + blur_row_sum(
                    src@,
                    wi,
                    hi,
                    x_lo,
                    y_lo + m,
                    ci,
                    k as nat,
                ),
            decreases side - k,
        {
            let xx: u32 = clamp(x as i64 - radius as i64 + k as i64, w);
            proof {
                lemma_idx_in_bounds(xx as int, yy as int, wi, hi);
                assert((wi * hi) * 3 == 3 * wi * hi) by (nonlinear_arith);
                lemma_window_sum_bounds(src@, wi, hi, x_lo, y_lo, ci, n, m as nat);
                lemma_row_sum_bounds(src@, wi, hi, x_lo, y_lo + m, ci, k as nat);
                assert(255 * n * (m as int) + 255 * (k as int) + 255 <= 255 * n * n) by (nonlinear_arith)
                    requires
                        0 <= m < n,
                        0 <= k < n,
                ;
                assert(n * n * 255 == (2 * ri + 1) * (2 * ri + 1) * 255) by (nonlinear_arith)
                    requires
                        n == 2 * ri + 1,
                ;
                assert(255 * n * n == n * n * 255) by (nonlinear_arith);
                assert(acc <= 255 * n * (m as nat) + 255 * (k as nat));
                assert(acc + 255 <= 255 * n * n);
                assert(acc + 255 <= u32::MAX);
            }
            let sample = src[(yy as usize * w as usize + xx as usize) * 3 + c];
            acc = acc + sample as u32;
            k = k + 1;
        }
        m = m + 1;
    }
    proof {
        lemma_window_sum_bounds(src@, wi, hi, x_lo, y_lo, ci, n, n);
        assert(255 * n * n == (count as int) * 255) by (nonlinear_arith)
            requires
                count == n * n,
        ;
        vstd::arithmetic::div_mod::lemma_div_is_ordered(
            acc as int,
            (count as int) * 255,
            count as int,
        );
        vstd::arithmetic::div_mod::lemma_div_multiples_vanish(255, count as int);
        vstd::arithmetic::div_mod::lemma_div_pos_is_pos(acc as int, count as int);
        assert((count as int) * 255 == 255 * (count as int)) by (nonlinear_arith);
        assert((n * n) as int == (2 * ri + 1) * (2 * ri + 1)) by (nonlinear_arith)
            requires
                n == 2 * ri + 1,
        ;
    }
    (acc / count) as u8
}

/// Computes the blurred output rows [y_start, y_end): the work of one
/// concurrent blur worker. Bytes appear band-relative, row-major, three
/// channels per pixel.
#[verifier::loop_isolation(false)]
pub fn blur_rows(src: &Vec<u8>, w: u32, h: u32, radius: u32, y_start: u32, y_end: u32) -> (band: Vec<u8>)
    requires
        src@.len() == 3 * w * h,
        y_start <= y_end <= h,
        (2 * radius + 1) * (2 * radius + 1) * 255 <= u32::MAX,
    ensures
        band@.len() == (y_end - y_start) * (w as int) * 3,
        forall|x: int, y: int, c: int|
            0 <= x < w && y_start <= y < y_end && 0 <= c < 3 ==> #[trigger] band@[rgb_index(
                w as int,
                x,
                y - y_start,
                c,
            )] == blur_channel(src@, w as int, h as int, x, y, c, radius as int),
{
    let ghost wi = w as int;
    let ghost hi = h as int;
    let ghost ri = radius as int;
    let mut band: Vec<u8> = Vec::new();
    let mut y: u32 = y_start;
    while y < y_end
        invariant
            y_start <= y <= y_end,
            band@.len() == (y - y_start) * wi * 3,
            forall|a: int, b: int, cc: int|
                0 <= a < w && y_start <= b < y && 0 <= cc < 3 ==> #[trigger] band@[rgb_index(
                    wi,
                    a,
                    b - y_start,
                    cc,
                )] == blur_channel(src@, wi, hi, a, b, cc, ri),
        decreases y_end - y,
    {
        let mut x: u32 = 0;
        while x < w
            invariant
                x <= w,
                y < y_end,
                band@.len() == ((y - y_start) * wi + x) * 3,
                forall|a: int, b: int, cc: int|
                    0 <= a < w && y_start <= b < y && 0 <= cc < 3 ==> #[trigger] band@[rgb_index(
                        wi,
                        a,
                        b - y_start,
                        cc,
                    )] == blur_channel(src@, wi, hi, a, b, cc, ri),
                forall|a: int, cc: int|
                    0 <= a < x && 0 <= cc < 3 ==> #[trigger] band@[rgb_index(
                        wi,
                        a,
                        y - y_start,
                        cc,
                    )] == blur_channel(src@, wi, hi, a, y as int, cc, ri),
            decreases w - x,
        {
            let mut c: usize = 0;
            while c < 3
                invariant
                    c <= 3,
                    band@.len() == ((y - y_start) * wi + x) * 3 + c,
                    forall|a: int, b: int, cc: int|
                        0 <= a < w && y_start <= b < y && 0 <= cc < 3 ==> #[trigger] band@[rgb_index(
                            wi,
                            a,
                            b - y_start,
                            cc,
                        )] == blur_channel(src@, wi, hi, a, b, cc, ri),
                    forall|a: int, cc: int|
                        0 <= a < x && 0 <= cc < 3 ==> #[trigger] band@[rgb_index(
                            wi,
                            a,
                            y - y_start,
                            cc,
                        )] == blur_channel(src@, wi, hi, a, y as int, cc, ri),
                    forall|cc: int|
                        0 <= cc < c ==> #[trigger] band@[rgb_index(wi, x as int, y - y_start, cc)]
                            == blur_channel(src@, wi, hi, x as int, y as int, cc, ri),
                decreases 3 - c,
            {
                let v = blur_channel_at(src, w, h, x, y, radius, c);
                band.push(v);
                proof {
                    assert forall|a: int, b: int, cc: int|
                        0 <= a < w && y_start <= b < y && 0 <= cc
                            < 3 implies #[trigger] band@[rgb_index(wi, a, b - y_start, cc)]
                        == blur_channel(src@, wi, hi, a, b, cc, ri) by {
                        assert((b - y_start) * wi + a < (y - y_start) * wi + x) by (nonlinear_arith)
                            requires
                                0 <= a < wi,
                                y_start <= b < y,
                                0 <= x,
                        ;
                    }
                }
                c = c + 1;
            }
            proof {
                assert(((y - y_start) * wi + x) * 3 + 3 == ((y - y_start) * wi + (x + 1)) * 3)
                    by (nonlinear_arith);
            }
            x = x + 1;
        }
        proof {
            assert(((y - y_start) * wi + wi) * 3 == ((y + 1 - y_start) * wi) * 3)
                by (nonlinear_arith);
        }
        y = y + 1;
    }
    band
}

/// Blurs a whole packed RGB image: the computation of the serial blur
/// process.
pub fn blur_rgb(src: &Vec<u8>, w: u32, h: u32, radius: u32) -> (out: Vec<u8>)
    requires
        src@.len() == 3 * w * h,
        (2 * radius + 1) * (2 * radius + 1) * 255 <= u32::MAX,
    ensures
        out@.len() == 3 * w * h,
        forall|x: int, y: int, c: int|
            0 <= x < w && 0 <= y < h && 0 <= c < 3 ==> #[trigger] out@[rgb_index(w as int, x, y, c)]
                == blur_channel(src@, w as int, h as int, x, y, c, radius as int),
{
    let out = blur_rows(src, w, h, radius, 0, h);
    proof {
        assert((h as int) * (w as int) * 3 == 3 * (w as int) * (h as int)) by (nonlinear_arith);
        assert forall|x: int, y: int, c: int|
            0 <= x < w && 0 <= y < h && 0 <= c < 3 implies #[trigger] out@[rgb_index(
            w as int,
            x,
            y,
            c,
        )] == blur_channel(src@, w as int, h as int, x, y, c, radius as int) by {
            assert(out@[rgb_index(w as int, x, y - 0, c)] == blur_channel(
                src@,
                w as int,
                h as int,
                x,
                y,
                c,
                radius as int,
            ));
        }
    }
    out
}

} // verus!
