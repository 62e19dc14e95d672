//! Run-length-encoded (RLE) pattern loading: decodes the text of an RLE
//! file into a grid, centering the pattern's declared bounding box.
//!
//! The text is split into lines; blank lines and `#` comments are skipped,
//! the first remaining line that mentions `x`, `y` and `=` is the header,
//! and every other remaining line joins the payload. The payload is a
//! stream of run counts and tags: `b` skips cells, `o` marks them live,
//! `$` ends a row, `!` ends the pattern.

use crate::game_of_life::{grid_ok, lemma_idx_in_bounds};
use vstd::prelude::*;

verus! {

/// Why a text failed to decode.
#[derive(Clone, Copy, PartialEq, Eq, Structural, Debug)]
pub enum RleError {
    /// No line of the text is an RLE header.
    MissingHeader,
    /// The header line does not carry parsable x and y sizes.
    InvalidHeader,
    /// The pattern's declared bounding box does not fit the target grid.
    PatternTooLarge,
}

/// ASCII whitespace, as `trim` removes it.
pub open spec fn is_space(b: u8) -> bool {
    b == 32 || b == 9 || b == 10 || b == 11 || b == 12 || b == 13
}

/// ASCII decimal digit.
pub open spec fn is_digit(b: u8) -> bool {
    48 <= b <= 57
}

/// The first index of `b` in `s`, or -1 if `b` does not occur.
pub open spec fn find_byte(s: Seq<u8>, b: u8) -> int
    decreases s.len(),
{
    if s.len() == 0 {
        -1
    } else if s[0] == b {
        0
    } else {
        let r = find_byte(s.subrange(1, s.len() as int), b);
        if r < 0 {
            -1
        } else {
            r + 1
        }
    }
}

/// Where `find_byte` points: at the first occurrence, or nowhere when the
/// byte does not occur.
pub proof fn lemma_find_byte_bounds(s: Seq<u8>, b: u8)
    ensures
        find_byte(s, b) == -1 || (0 <= find_byte(s, b) < s.len() && s[find_byte(s, b)] == b),
        find_byte(s, b) == -1 ==> (forall|i: int| 0 <= i < s.len() ==> s[i] != b),
        find_byte(s, b) >= 0 ==> (forall|i: int| 0 <= i < find_byte(s, b) ==> s[i] != b),
    decreases s.len(),
{
    if s.len() > 0 && s[0] != b {
        let tail = s.subrange(1, s.len() as int);
        lemma_find_byte_bounds(tail, b);
        if find_byte(tail, b) == -1 {
            assert forall|i: int| 0 <= i < s.len() implies s[i] != b by {
                if i >= 1 {
                    assert(tail[i - 1] != b);
                }
            }
        } else {
            assert forall|i: int| 0 <= i < find_byte(s, b) implies s[i] != b by {
                if i >= 1 {
                    assert(tail[i - 1] != b);
                }
            }
        }
    }
}

/// `s` without its leading whitespace.
pub open spec fn trim_start(s: Seq<u8>) -> Seq<u8>
    decreases s.len(),
{
    if s.len() > 0 && is_space(s[0]) {
        trim_start(s.subrange(1, s.len() as int))
    } else {
        s
    }
}

/// `s` without its trailing whitespace.
pub open spec fn trim_end(s: Seq<u8>) -> Seq<u8>
    decreases s.len(),
{
    if s.len() > 0 && is_space(s[s.len() - 1]) {
        trim_end(s.subrange(0, s.len() - 1))
    } else {
        s
    }
}

/// `s` without leading and trailing whitespace.
pub open spec fn trim(s: Seq<u8>) -> Seq<u8> {
    trim_end(trim_start(s))
}

/// Whether `s` holds the byte `b`.
pub open spec fn contains_byte(s: Seq<u8>, b: u8) -> bool {
    exists|i: int| 0 <= i < s.len() && s[i] == b
}

/// A trimmed line is skipped when it is empty or a `#` comment.
pub open spec fn is_skipped(l: Seq<u8>) -> bool {
    l.len() == 0 || l[0] == 35
}

/// A header line mentions `x`, `y` and `=`.
pub open spec fn is_header_line(l: Seq<u8>) -> bool {
    contains_byte(l, 120) && contains_byte(l, 121) && contains_byte(l, 61)
}

/// Walks the text line by line: the first non-skipped line that looks like
/// a header becomes the header, every other non-skipped line joins the
/// payload.
pub open spec fn scan_lines(t: Seq<u8>, header: Option<Seq<u8>>, payload: Seq<u8>) -> (Option<
    Seq<u8>,
>, Seq<u8>)
    decreases t.len(),
    via scan_lines_decreases
{
    if t.len() == 0 {
        (header, payload)
    } else {
        let nl = find_byte(t, 10);
        let line = if nl < 0 {
            t
        } else {
            t.subrange(0, nl)
        };
        let rest = if nl < 0 {
            Seq::<u8>::empty()
        } else {
            t.subrange(nl + 1, t.len() as int)
        };
        let l = trim(line);
        if is_skipped(l) {
            scan_lines(rest, header, payload)
        } else if header is None && is_header_line(l) {
            scan_lines(rest, Some(l), payload)
        } else {
            scan_lines(rest, header, payload + l)
        }
    }
}

#[via_fn]
proof fn scan_lines_decreases(t: Seq<u8>, header: Option<Seq<u8>>, payload: Seq<u8>) {
    lemma_find_byte_bounds(t, 10);
}

/// The header and payload of a whole text.
pub open spec fn scanned(t: Seq<u8>) -> (Option<Seq<u8>>, Seq<u8>) {
    scan_lines(t, None::<Seq<u8>>, Seq::<u8>::empty())
}

/// The numeric value of the first `n` bytes of `s`, read as decimal digits.
pub open spec fn digits_value(s: Seq<u8>, n: int) -> int
    decreases n,
{
    if n <= 0 {
        0
    } else {
        digits_value(s, n - 1) * 10 + (s[n - 1] - 48)
    }
}

/// How many leading bytes of `s` are digits.
pub open spec fn digit_run(s: Seq<u8>) -> int
    decreases s.len(),
{
    if s.len() > 0 && is_digit(s[0]) {
        1 + digit_run(s.subrange(1, s.len() as int))
    } else {
        0
    }
}

/// One key of the header: find the key byte, skip whitespace, expect `=`,
/// skip whitespace, then read the digit run, which must be nonempty and fit
/// a usize.
pub open spec fn parse_key_spec(s: Seq<u8>, key: u8) -> Option<int> {
    let i = find_byte(s, key);
    if i < 0 {
        None
    } else {
        let rest = trim_start(s.subrange(i + 1, s.len() as int));
        if rest.len() == 0 || rest[0] != 61 {
            None
        } else {
            let digits = trim_start(rest.subrange(1, rest.len() as int));
            let n = digit_run(digits);
            if n == 0 || digits_value(digits, n) > usize::MAX {
                None
            } else {
                Some(digits_value(digits, n))
            }
        }
    }
}

/// The declared pattern width and height of a header line.
pub open spec fn parse_header_spec(s: Seq<u8>) -> Option<(int, int)> {
    match (parse_key_spec(s, 120), parse_key_spec(s, 121)) {
        (Some(x), Some(y)) => Some((x, y)),
        _ => None,
    }
}

/// Marks one grid cell live, if it lies inside the grid; out-of-bounds
/// marks are dropped.
pub open spec fn mark_cell(g: Seq<u8>, w: int, h: int, gx: int, gy: int) -> Seq<u8> {
    if 0 <= gx < w && 0 <= gy < h {
        g.update(gy * w + gx, 1u8)
    } else {
        g
    }
}

/// A run of `n` marks at pattern row `y`, starting at pattern column `x`,
/// offset by the centering anchor (ox, oy).
pub open spec fn mark_run(g: Seq<u8>, w: int, h: int, ox: int, oy: int, x: int, y: int, n: int) -> Seq<u8>
    decreases n,
{
    if n <= 0 {
        g
    } else {
        mark_cell(mark_run(g, w, h, ox, oy, x, y, n - 1), w, h, ox + x + n - 1, oy + y)
    }
}

/// Decimal accumulation of one more digit, saturating at usize::MAX.
pub open spec fn sat_run(run: int, d: int) -> int {
    if run * 10 + d > usize::MAX {
        usize::MAX as int
    } else {
        run * 10 + d
    }
}

/// Cursor advance, saturating at usize::MAX.
pub open spec fn sat_add(a: int, b: int) -> int {
    if a + b > usize::MAX {
        usize::MAX as int
    } else {
        a + b
    }
}

/// A run count of 0 means 1.
pub open spec fn run_or_one(run: int) -> int {
    if run < 1 {
        1
    } else {
        run
    }
}

/// The payload interpreter: digits accumulate a run count, `b` skips cells,
/// `o` marks them, `$` ends rows, `!` ends the pattern, anything else is
/// ignored. Counts and cursors saturate at usize::MAX.
pub open spec fn rle_apply(
    g: Seq<u8>,
    w: int,
    h: int,
    ox: int,
    oy: int,
    p: Seq<u8>,
    x: int,
    y: int,
    run: int,
) -> Seq<u8>
    decreases p.len(),
{
    if p.len() == 0 {
        g
    } else {
        let c = p[0];
        let rest = p.subrange(1, p.len() as int);
        if is_digit(c) {
            rle_apply(g, w, h, ox, oy, rest, x, y, sat_run(run, c - 48))
        } else if c == 98 {
            rle_apply(g, w, h, ox, oy, rest, sat_add(x, run_or_one(run)), y, 0)
        } else if c == 111 {
            rle_apply(
                mark_run(g, w, h, ox, oy, x, y, run_or_one(run)),
                w,
                h,
                ox,
                oy,
                rest,
                sat_add(x, run_or_one(run)),
                y,
                0,
            )
        } else if c == 36 {
            rle_apply(g, w, h, ox, oy, rest, 0, sat_add(y, run_or_one(run)), 0)
        } else if c == 33 {
            g
        } else {
            rle_apply(g, w, h, ox, oy, rest, x, y, run)
        }
    }
}

/// An all-dead grid of `n` cells.
pub open spec fn zero_grid(n: int) -> Seq<u8> {
    Seq::new(n as nat, |i: int| 0u8)
}

/// The grid a text decodes to, once its header declared a pattern of
/// pw x ph cells: the payload interpreted from (0, 0) over a cleared grid,
/// anchored so that the declared box is centered.
pub open spec fn decoded_grid(t: Seq<u8>, w: int, h: int, pw: int, ph: int) -> Seq<u8> {
    rle_apply(zero_grid(w * h), w, h, w / 2 - pw / 2, h / 2 - ph / 2, scanned(t).1, 0, 0, 0)
}

/// `find_byte` is pinned down by any index with the first-occurrence
/// properties.
proof fn lemma_find_byte_agrees(s: Seq<u8>, b: u8, k: int)
    requires
        0 <= k <= s.len(),
        forall|j: int| 0 <= j < k ==> s[j] != b,
        k < s.len() ==> s[k] == b,
    ensures
        find_byte(s, b) == if k == s.len() {
            -1int
        } else {
            k
        },
{
    lemma_find_byte_bounds(s, b);
}

/// `trim_start` drops exactly the leading whitespace.
proof fn lemma_trim_start_is(s: Seq<u8>, k: int)
    requires
        0 <= k <= s.len(),
        forall|j: int| 0 <= j < k ==> is_space(s[j]),
        k < s.len() ==> !is_space(s[k]),
    ensures
        trim_start(s) == s.subrange(k, s.len() as int),
    decreases k,
{
    if k == 0 {
        assert(s.subrange(0, s.len() as int) =~= s);
    } else {
        let tail = s.subrange(1, s.len() as int);
        assert(is_space(s[0]));
        assert forall|j: int| 0 <= j < k - 1 implies is_space(tail[j]) by {
            assert(tail[j] == s[j + 1]);
        }
        lemma_trim_start_is(tail, k - 1);
        assert(tail.subrange(k - 1, tail.len() as int) =~= s.subrange(k, s.len() as int));
    }
}

/// `trim_end` drops exactly the trailing whitespace.
proof fn lemma_trim_end_is(s: Seq<u8>, k: int)
    requires
        0 <= k <= s.len(),
        forall|j: int| k <= j < s.len() ==> is_space(s[j]),
        k > 0 ==> !is_space(s[k - 1]),
    ensures
        trim_end(s) == s.subrange(0, k),
    decreases s.len(),
{
    if s.len() > k {
        let head = s.subrange(0, s.len() - 1);
        assert forall|j: int| k <= j < head.len() implies is_space(head[j]) by {
            assert(head[j] == s[j]);
        }
        lemma_trim_end_is(head, k);
        assert(head.subrange(0, k) =~= s.subrange(0, k));
    } else {
        assert(s.subrange(0, k) =~= s);
    }
}

/// Every byte of the digit run is a digit.
proof fn lemma_digit_run_digits(s: Seq<u8>)
    ensures
        0 <= digit_run(s) <= s.len(),
        forall|j: int| 0 <= j < digit_run(s) ==> is_digit(s[j]),
    decreases s.len(),
{
    if s.len() > 0 && is_digit(s[0]) {
        let tail = s.subrange(1, s.len() as int);
        lemma_digit_run_digits(tail);
        assert forall|j: int| 0 <= j < digit_run(s) implies is_digit(s[j]) by {
            if j >= 1 {
                assert(tail[j - 1] == s[j]);
            }
        }
    }
}

/// `digit_run` is pinned down by any count with the leading-digits
/// properties.
proof fn lemma_digit_run_is(s: Seq<u8>, k: int)
    requires
        0 <= k <= s.len(),
        forall|j: int| 0 <= j < k ==> is_digit(s[j]),
        k < s.len() ==> !is_digit(s[k]),
    ensures
        digit_run(s) == k,
    decreases k,
{
    if k == 0 {
    } else {
        let tail = s.subrange(1, s.len() as int);
        assert forall|j: int| 0 <= j < k - 1 implies is_digit(tail[j]) by {
            assert(tail[j] == s[j + 1]);
        }
        lemma_digit_run_is(tail, k - 1);
    }
}

/// `digit_run` is at least any count of known leading digits.
proof fn lemma_digit_run_at_least(s: Seq<u8>, k: int)
    requires
        0 <= k <= s.len(),
        forall|j: int| 0 <= j < k ==> is_digit(s[j]),
    ensures
        digit_run(s) >= k,
    decreases k,
{
    if k > 0 {
        assert(is_digit(s[0]));
        let tail = s.subrange(1, s.len() as int);
        assert forall|j: int| 0 <= j < k - 1 implies is_digit(tail[j]) by {
            assert(tail[j] == s[j + 1]);
        }
        lemma_digit_run_at_least(tail, k - 1);
    } else {
        lemma_digit_run_digits(s);
    }
}

/// Reading more digits never shrinks the value.
proof fn lemma_digits_value_mono(s: Seq<u8>, m: int, n: int)
    requires
        0 <= m <= n <= s.len(),
        forall|j: int| 0 <= j < n ==> is_digit(s[j]),
    ensures
        0 <= digits_value(s, m) <= digits_value(s, n),
    decreases n,
{
    if n > 0 {
        if m == n {
            lemma_digits_value_mono(s, n - 1, n - 1);
        } else {
            lemma_digits_value_mono(s, m, n - 1);
        }
    }
}

/// True exactly when `b` is ASCII whitespace.
fn byte_is_space(b: u8) -> (r: bool)
    ensures
        r == is_space(b),
{
    b == 32 || b == 9 || b == 10 || b == 11 || b == 12 || b == 13
}

/// True exactly when `b` is an ASCII digit.
fn byte_is_digit(b: u8) -> (r: bool)
    ensures
        r == is_digit(b),
{
    48 <= b && b <= 57
}

/// The first position of `b` at or after `from`.
#[verifier::loop_isolation(false)]
fn find_byte_from(s: &Vec<u8>, from: usize, b: u8) -> (r: Option<usize>)
    requires
        from <= s@.len(),
    ensures
        match r {
            Some(i) => from <= i < s@.len() && s@[i as int] == b && (forall|j: int|
                from <= j < i ==> s@[j] != b),
            None => forall|j: int| from <= j < s@.len() ==> s@[j] != b,
        },
{
    let n: usize = s.len();
    let mut i: usize = from;
    while i < n
        invariant
            from <= i <= n,
            forall|j: int| from <= j < i ==> s@[j] != b,
        decreases n - i,
    {
        if s[i] == b {
            return Some(i);
        }
        i = i + 1;
    }
    None
}

/// The first non-whitespace position in [from, to).
#[verifier::loop_isolation(false)]
fn first_non_space_in(s: &Vec<u8>, from: usize, to: usize) -> (r: usize)
    requires
        from <= to <= s@.len(),
    ensures
        from <= r <= to,
        forall|j: int| from <= j < r ==> is_space(s@[j]),
        r < to ==> !is_space(s@[r as int]),
{
    let mut i: usize = from;
    while i < to
        invariant
            from <= i <= to,
            forall|j: int| from <= j < i ==> is_space(s@[j]),
        decreases to - i,
    {
        if !byte_is_space(s[i]) {
            return i;
        }
        i = i + 1;
    }
    i
}

/// One past the last non-whitespace position in [from, to).
#[verifier::loop_isolation(false)]
fn last_non_space_in(s: &Vec<u8>, from: usize, to: usize) -> (r: usize)
    requires
        from <= to <= s@.len(),
    ensures
        from <= r <= to,
        forall|j: int| r <= j < to ==> is_space(s@[j]),
        r > from ==> !is_space(s@[r - 1]),
{
    let mut i: usize = to;
    while i > from
        invariant
            from <= i <= to,
            forall|j: int| i <= j < to ==> is_space(s@[j]),
        decreases i,
    {
        if !byte_is_space(s[i - 1]) {
            return i;
        }
        i = i - 1;
    }
    i
}

/// The first non-digit position in [from, to).
#[verifier::loop_isolation(false)]
fn first_non_digit_in(s: &Vec<u8>, from: usize, to: usize) -> (r: usize)
    requires
        from <= to <= s@.len(),
    ensures
        from <= r <= to,
        forall|j: int| from <= j < r ==> is_digit(s@[j]),
        r < to ==> !is_digit(s@[r as int]),
{
    let mut i: usize = from;
    while i < to
        invariant
            from <= i <= to,
            forall|j: int| from <= j < i ==> is_digit(s@[j]),
        decreases to - i,
    {
        if !byte_is_digit(s[i]) {
            return i;
        }
        i = i + 1;
    }
    i
}

/// Whether `b` occurs in [from, to).
#[verifier::loop_isolation(false)]
fn contains_in(s: &Vec<u8>, from: usize, to: usize, b: u8) -> (r: bool)
    requires
        from <= to <= s@.len(),
    ensures
        r <==> exists|j: int| from <= j < to && s@[j] == b,
{
    let mut i: usize = from;
    while i < to
        invariant
            from <= i <= to,
            forall|j: int| from <= j < i ==> s@[j] != b,
        decreases to - i,
    {
        if s[i] == b {
            return true;
        }
        i = i + 1;
    }
    false
}

/// Copies the bytes of [from, to) into a fresh buffer.
#[verifier::loop_isolation(false)]
fn copy_range(s: &Vec<u8>, from: usize, to: usize) -> (out: Vec<u8>)
    requires
        from <= to <= s@.len(),
    ensures
        out@ == s@.subrange(from as int, to as int),
{
    let mut out: Vec<u8> = Vec::new();
    let mut i: usize = from;
    while i < to
        invariant
            from <= i <= to,
            out@ =~= s@.subrange(from as int, i as int),
        decreases to - i,
    {
        out.push(s[i]);
        proof {
            assert(out@ =~= s@.subrange(from as int, i + 1));
        }
        i = i + 1;
    }
    proof {
        assert(out@ =~= s@.subrange(from as int, to as int));
    }
    out
}

/// One key of the header line, as `parse_key_spec` reads it.
#[verifier::loop_isolation(false)]
fn parse_key(s: &Vec<u8>, key: u8) -> (r: Option<usize>)
    ensures
        match r {
            Some(v) => parse_key_spec(s@, key) == Some(v as int),
            None => parse_key_spec(s@, key) is None,
        },
{
    let n: usize = s.len();
    let found = find_byte_from(s, 0, key);
    match found {
        None => {
            proof {
                lemma_find_byte_agrees(s@, key, n as int);
            }
            None
        },
        Some(i) => {
            proof {
                lemma_find_byte_agrees(s@, key, i as int);
            }
            let ghost after_key = s@.subrange(i + 1, n as int);
            let p1 = first_non_space_in(s, i + 1, n);
            proof {
                assert forall|j: int| 0 <= j < p1 - (i + 1) implies is_space(after_key[j]) by {
                    assert(after_key[j] == s@[i + 1 + j]);
                }
                lemma_trim_start_is(after_key, p1 - (i + 1));
                assert(after_key.subrange(p1 - (i + 1), after_key.len() as int) =~= s@.subrange(
                    p1 as int,
                    n as int,
                ));
            }
            let ghost rest = trim_start(after_key);
            if p1 == n {
                return None;
            }
            if s[p1] != 61 {
                return None;
            }
            let ghost after_eq = rest.subrange(1, rest.len() as int);
            proof {
                assert(after_eq =~= s@.subrange(p1 + 1, n as int));
            }
            let p2 = first_non_space_in(s, p1 + 1, n);
            proof {
                assert forall|j: int| 0 <= j < p2 - (p1 + 1) implies is_space(after_eq[j]) by {
                    assert(after_eq[j] == s@[p1 + 1 + j]);
                }
                lemma_trim_start_is(after_eq, p2 - (p1 + 1));
                assert(after_eq.subrange(p2 - (p1 + 1), after_eq.len() as int) =~= s@.subrange(
                    p2 as int,
                    n as int,
                ));
            }
            let ghost digits = trim_start(after_eq);
            proof {
                assert(digits =~= s@.subrange(p2 as int, n as int));
            }
            let dend = first_non_digit_in(s, p2, n);
            proof {
                assert forall|t: int| 0 <= t < dend - p2 implies is_digit(digits[t]) by {
                    assert(digits[t] == s@[p2 + t]);
                }
                if dend < n {
                    assert(!is_digit(digits[dend - p2]));
                }
                lemma_digit_run_is(digits, dend - p2);
            }
            if dend == p2 {
                return None;
            }
            let mut j: usize = p2;
            let mut val: usize = 0;
            while j < dend
                invariant
                    p2 <= j <= dend,
                    val == digits_value(digits, j - p2),
                decreases dend - j,
            {
                let d: usize = (s[j] - 48) as usize;
                proof {
                    assert(digits[j - p2] == s@[j as int]);
                    assert(is_digit(s@[j as int]));
                }
                let overflowed = match val.checked_mul(10) {
                    Some(v10) => match v10.checked_add(d) {
                        Some(v2) => {
                            val = v2;
                            false
                        },
                        None => true,
                    },
                    None => true,
                };
                if overflowed {
                    proof {
                        assert(digits_value(digits, j + 1 - p2) > usize::MAX);
                        lemma_digits_value_mono(digits, j + 1 - p2, dend - p2);
                    }
                    return None;
                }
                j = j + 1;
            }
            Some(val)
        },
    }
}

/// Splits the text into its header line and its payload, as `scanned`
/// reads them.
#[verifier::loop_isolation(false)]
#[verifier::rlimit(50)]
fn extract_header_and_payload(text: &Vec<u8>) -> (r: (Option<Vec<u8>>, Vec<u8>))
    ensures
        (r.0 is Some) == (scanned(text@).0 is Some),
        r.0 matches Some(hv) ==> scanned(text@).0 == Some(hv@),
        scanned(text@).1 == r.1@,
{
    let n: usize = text.len();
    let mut pos: usize = 0;
    let mut header: Option<Vec<u8>> = None;
    let mut payload: Vec<u8> = Vec::new();
    let ghost mut header_view: Option<Seq<u8>> = None::<Seq<u8>>;
    proof {
        assert(text@.subrange(0, n as int) =~= text@);
    }
    while pos < n
        invariant
            pos <= n,
            (header is Some) == (header_view is Some),
            header matches Some(hv) ==> header_view == Some(hv@),
            scan_lines(text@.subrange(pos as int, n as int), header_view, payload@) == scanned(
                text@,
            ),
        decreases n - pos,
    {
        let ghost t = text@.subrange(pos as int, n as int);
        let ghost header_view_before = header_view;
        let ghost payload_before = payload@;
        let nl_found = find_byte_from(text, pos, 10);
        let line_end: usize = match nl_found {
            Some(a) => a,
            None => n,
        };
        let next_pos: usize = match nl_found {
            Some(a) => a + 1,
            None => n,
        };
        proof {
            match nl_found {
                Some(a) => {
                    assert forall|j: int| 0 <= j < a - pos implies t[j] != 10 by {
                        assert(t[j] == text@[pos + j]);
                    }
                    assert(t[a - pos] == text@[a as int]);
                    lemma_find_byte_agrees(t, 10, a - pos);
                    assert(t.subrange(0, a - pos) =~= text@.subrange(pos as int, a as int));
                    assert(t.subrange(a - pos + 1, t.len() as int) =~= text@.subrange(
                        a + 1,
                        n as int,
                    ));
                },
                None => {
                    assert forall|j: int| 0 <= j < t.len() implies t[j] != 10 by {
                        assert(t[j] == text@[pos + j]);
                    }
                    lemma_find_byte_agrees(t, 10, t.len() as int);
                    assert(t =~= text@.subrange(pos as int, n as int));
                },
            }
        }
        let ts = first_non_space_in(text, pos, line_end);
        let te = last_non_space_in(text, ts, line_end);
        let ghost lineseq = text@.subrange(pos as int, line_end as int);
        let ghost l = text@.subrange(ts as int, te as int);
        proof {
            assert forall|j: int| 0 <= j < ts - pos implies is_space(lineseq[j]) by {
                assert(lineseq[j] == text@[pos + j]);
            }
            lemma_trim_start_is(lineseq, ts - pos);
            assert(lineseq.subrange(ts - pos, lineseq.len() as int) =~= text@.subrange(
                ts as int,
                line_end as int,
            ));
            let sub2 = text@.subrange(ts as int, line_end as int);
            assert forall|j: int| te - ts <= j < sub2.len() implies is_space(sub2[j]) by {
                assert(sub2[j] == text@[ts + j]);
            }
            lemma_trim_end_is(sub2, te - ts);
            assert(sub2.subrange(0, te - ts) =~= l);
            assert(trim(lineseq) == l);
        }
        if ts == te || text[ts] == 35 {
            proof {
                assert(is_skipped(l));
            }
        } else {
            let has_x = contains_in(text, ts, te, 120);
            let has_y = contains_in(text, ts, te, 121);
            let has_eq = contains_in(text, ts, te, 61);
            proof {
                assert(!is_skipped(l)) by {
                    assert(l[0] == text@[ts as int]);
                }
                if has_x {
                    let j = choose|j: int| ts <= j < te && text@[j] == 120;
                    assert(l[j - ts] == 120);
                } else {
                    assert forall|i: int| 0 <= i < l.len() implies l[i] != 120 by {
                        assert(l[i] == text@[ts + i]);
                    }
                }
                if has_y {
                    let j = choose|j: int| ts <= j < te && text@[j] == 121;
                    assert(l[j - ts] == 121);
                } else {
                    assert forall|i: int| 0 <= i < l.len() implies l[i] != 121 by {
                        assert(l[i] == text@[ts + i]);
                    }
                }
                if has_eq {
                    let j = choose|j: int| ts <= j < te && text@[j] == 61;
                    assert(l[j - ts] == 61);
                } else {
                    assert forall|i: int| 0 <= i < l.len() implies l[i] != 61 by {
                        assert(l[i] == text@[ts + i]);
                    }
                }
                assert(is_header_line(l) == (has_x && has_y && has_eq));
            }
            if header.is_none() && has_x && has_y && has_eq {
                let hv = copy_range(text, ts, te);
                header = Some(hv);
                proof {
                    header_view = Some(l);
                }
            } else {
                let mut i2: usize = ts;
                while i2 < te
                    invariant
                        ts <= i2 <= te,
                        te <= text@.len(),
                        payload@ == payload_before + text@.subrange(ts as int, i2 as int),
                    decreases te - i2,
                {
                    payload.push(text[i2]);
                    proof {
                        assert(payload@ =~= payload_before + text@.subrange(ts as int, i2 + 1));
                    }
                    i2 = i2 + 1;
                }
                proof {
                    assert(payload@ == payload_before + l);
                }
            }
        }
        proof {
            assert(text@.subrange(next_pos as int, n as int) =~= (if find_byte(t, 10) < 0 {
                Seq::<u8>::empty()
            } else {
                t.subrange(find_byte(t, 10) + 1, t.len() as int)
            }));
            assert(scan_lines(t, header_view_before, payload_before) == scan_lines(
                text@.subrange(next_pos as int, n as int),
                header_view,
                payload@,
            ));
        }
        pos = next_pos;
    }
    proof {
        assert(text@.subrange(pos as int, n as int).len() == 0);
    }
    (header, payload)
}

/// The declared pattern width and height of a header line.
pub fn parse_rle_header_xy(header: &Vec<u8>) -> (r: Option<(usize, usize)>)
    ensures
        match r {
            Some(p) => parse_header_spec(header@) == Some((p.0 as int, p.1 as int)),
            None => parse_header_spec(header@) is None,
        },
{
    match (parse_key(header, 120), parse_key(header, 121)) {
        (Some(x), Some(y)) => Some((x, y)),
        _ => None,
    }
}

/// Interprets the payload over the grid, as `rle_apply` does from the
/// initial cursor state.
#[verifier::loop_isolation(false)]
#[verifier::rlimit(50)]
fn apply_payload(grid: &mut Vec<u8>, payload: &Vec<u8>, ox: isize, oy: isize, width: usize, height: usize)
    requires
        old(grid)@.len() == width * height,
        grid_ok(old(grid)@),
        width <= isize::MAX,
        height <= isize::MAX,
    ensures
        final(grid)@ == rle_apply(
            old(grid)@,
            width as int,
            height as int,
            ox as int,
            oy as int,
            payload@,
            0,
            0,
            0,
        ),
        final(grid)@.len() == width * height,
        grid_ok(final(grid)@),
{
    let ghost w = width as int;
    let ghost h = height as int;
    let ghost oxi = ox as int;
    let ghost oyi = oy as int;
    let n: usize = payload.len();
    let total: usize = grid.len();
    let mut j: usize = 0;
    let mut x: usize = 0;
    let mut y: usize = 0;
    let mut run: usize = 0;
    proof {
        assert(payload@.subrange(0, n as int) =~= payload@);
    }
    while j < n
        invariant
            j <= n,
            grid@.len() == width * height,
            grid_ok(grid@),
            rle_apply(old(grid)@, w, h, oxi, oyi, payload@, 0, 0, 0) == rle_apply(
                grid@,
                w,
                h,
                oxi,
                oyi,
                payload@.subrange(j as int, n as int),
                x as int,
                y as int,
                run as int,
            ),
        decreases n - j,
    {
        let ghost p = payload@.subrange(j as int, n as int);
        let ghost grid_before = grid@;
        proof {
            assert(p[0] == payload@[j as int]);
            assert(p.subrange(1, p.len() as int) =~= payload@.subrange(j + 1, n as int));
        }
        let c = payload[j];
        if byte_is_digit(c) {
            let d: usize = (c - 48) as usize;
            run = match run.checked_mul(10) {
                Some(v10) => match v10.checked_add(d) {
                    Some(v2) => v2,
                    None => usize::MAX,
                },
                None => usize::MAX,
            };
        } else if c == 98 {
            let step: usize = if run < 1 {
                1
            } else {
                run
            };
            x = x.saturating_add(step);
            run = 0;
        } else if c == 111 {
            let step: usize = if run < 1 {
                1
            } else {
                run
            };
            let ghost g0 = grid@;
            let mut k: usize = 0;
            while k < step
                invariant
                    k <= step,
                    grid@.len() == width * height,
                    grid_ok(grid@),
                    grid@ == mark_run(g0, w, h, oxi, oyi, x as int, y as int, k as int),
                decreases step - k,
            {
                let gx: i128 = ox as i128 + x as i128 + k as i128;
                let gy: i128 = oy as i128 + y as i128;
                if 0 <= gx && gx < width as i128 && 0 <= gy && gy < height as i128 {
                    let gxu: usize = gx as usize;
                    let gyu: usize = gy as usize;
                    proof {
                        lemma_idx_in_bounds(gxu as int, gyu as int, w, h);
                    }
                    grid.set(gyu * width + gxu, 1);
                }
                k = k + 1;
            }
            x = x.saturating_add(step);
            run = 0;
        } else if c == 36 {
            let step: usize = if run < 1 {
                1
            } else {
                run
            };
            y = y.saturating_add(step);
            x = 0;
            run = 0;
        } else if c == 33 {
            proof {
                assert(rle_apply(grid@, w, h, oxi, oyi, p, x as int, y as int, run as int)
                    == grid@);
            }
            return ;
        } else {
            // ignored byte: state unchanged
        }
        j = j + 1;
    }
    proof {
        assert(payload@.subrange(j as int, n as int).len() == 0);
    }
}

/// Decodes an RLE text into the grid, centered within (width, height);
/// every cell the payload does not mark stays dead. On an error the grid is
/// left cleared.
pub fn decode_rle_into_centered(text: &Vec<u8>, grid: &mut Vec<u8>, width: usize, height: usize) -> (r: Result<(), RleError>)
    requires
        old(grid)@.len() == width * height,
        width <= isize::MAX,
        height <= isize::MAX,
    ensures
        final(grid)@.len() == width * height,
        grid_ok(final(grid)@),
        r is Ok ==> (scanned(text@).0 matches Some(hl) && parse_header_spec(hl) matches Some(dims)
            && dims.0 <= width && dims.1 <= height && final(grid)@ == decoded_grid(
            text@,
            width as int,
            height as int,
            dims.0,
            dims.1,
        )),
        r is Err ==> (forall|i: int| 0 <= i < width * height ==> final(grid)@[i] == 0),
        r == Err::<(), RleError>(RleError::MissingHeader) <==> scanned(text@).0 is None,
        r == Err::<(), RleError>(RleError::InvalidHeader) <==> (scanned(text@).0 matches Some(hl)
            && parse_header_spec(hl) is None),
        r == Err::<(), RleError>(RleError::PatternTooLarge) <==> (scanned(text@).0 matches Some(hl)
            && parse_header_spec(hl) matches Some(dims) && !(dims.0 <= width && dims.1 <= height)),
{
    crate::seed::clear_grid(grid);
    let ghost cleared = grid@;
    proof {
        assert(cleared =~= zero_grid(width * height));
    }
    let scan = extract_header_and_payload(text);
    let header = scan.0;
    let payload = scan.1;
    match header {
        None => Err(RleError::MissingHeader),
        Some(header_bytes) => {
            match parse_rle_header_xy(&header_bytes) {
                None => Err(RleError::InvalidHeader),
                Some(dims) => {
                    let pat_w = dims.0;
                    let pat_h = dims.1;
                    if !(pat_w <= width && pat_h <= height) {
                        return Err(RleError::PatternTooLarge);
                    }
                    let ox: isize = (width / 2) as isize - (pat_w / 2) as isize;
                    let oy: isize = (height / 2) as isize - (pat_h / 2) as isize;
                    apply_payload(grid, &payload, ox, oy, width, height);
                    Ok(())
                },
            }
        },
    }
}

} // verus!

