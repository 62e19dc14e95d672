//! Strategies that partition an image into independently processable units
//! of work, one unit per worker.

use crate::effect::PictureEffect;
use crate::image_array::{ImageArray, Pixel};
use crate::thread_data::{ByChunkThreadData, ByColumnThreadData, ByRowThreadData, SingleThreadData};
use vstd::arithmetic::div_mod::{
    lemma_fundamental_div_mod, lemma_fundamental_div_mod_converse, lemma_mod_bound,
};
use vstd::prelude::*;

verus! {

/// A processing strategy partitions an image into units of work, each of
/// which a worker processes independently by applying a picture effect to
/// every pixel the unit owns.
pub trait ProcessingStrategy: Sized {
    type ThreadData;

    /// What the strategy's own parameters must satisfy.
    spec fn wf(&self) -> bool;

    /// What a unit of work must satisfy before it can be processed.
    spec fn data_wf(data: &Self::ThreadData) -> bool;

    /// Partitions the image into this strategy's units of work.
    fn thread_datas(&self, output_array: ImageArray) -> Vec<Self::ThreadData>
        requires
            self.wf(),
    ;

    /// Applies the effect to every pixel of one unit of work.
    fn process_data<P: PictureEffect>(thread_data: Self::ThreadData) -> Self::ThreadData
        requires
            Self::data_wf(&thread_data),
    ;
}

/// Applies the effect to each pixel of one row whose leftmost pixel sits at
/// (x0, y); the row keeps its length.
#[verifier::loop_isolation(false)]
fn apply_effect_to_row<P: PictureEffect>(row: &Vec<Pixel>, x0: usize, y: usize) -> (out: Vec<Pixel>)
    requires
        x0 + row@.len() <= usize::MAX,
    ensures
        out@.len() == row@.len(),
{
    let mut out: Vec<Pixel> = Vec::new();
    let n: usize = row.len();
    let mut i: usize = 0;
    while i < n
        invariant
            i <= n,
            out@.len() == i,
        decreases n - i,
    {
        let mut px: Pixel = row[i];
        P::process_pixel(x0 + i, y, &mut px);
        out.push(px);
        i = i + 1;
    }
    out
}

/// Processes the whole image on the calling thread, as one unit.
pub struct SingleThreadedStrategy;

/// The single-threaded partition: one unit holding every row.
pub fn single_thread_datas(image_array: ImageArray) -> (datas: Vec<SingleThreadData>)
    ensures
        datas@.len() == 1,
        datas@[0].rows == image_array.0,
{
    let mut datas: Vec<SingleThreadData> = Vec::new();
    datas.push(SingleThreadData { rows: image_array.0 });
    datas
}

/// Applies the effect to every pixel of the whole image, row-major; the row
/// count and every row's length are preserved.
#[verifier::loop_isolation(false)]
pub fn single_process_data<P: PictureEffect>(thread_data: SingleThreadData) -> (out: SingleThreadData)
    ensures
        out.rows@.len() == thread_data.rows@.len(),
        forall|r: int|
            0 <= r < out.rows@.len() ==> out.rows@[r]@.len() == thread_data.rows@[r]@.len(),
{
    let rows = thread_data.rows;
    let mut out_rows: Vec<Vec<Pixel>> = Vec::new();
    let n: usize = rows.len();
    let mut y: usize = 0;
    while y < n
        invariant
            y <= n,
            out_rows@.len() == y,
            forall|r: int| 0 <= r < y ==> out_rows@[r]@.len() == rows@[r]@.len(),
        decreases n - y,
    {
        let row = &rows[y];
        // binding the executable length pins row@.len() inside the usize range
        let row_len: usize = row.len();
        let processed = apply_effect_to_row::<P>(row, 0, y);
        assert(processed@.len() == row_len);
        out_rows.push(processed);
        y = y + 1;
    }
    SingleThreadData { rows: out_rows }
}

impl ProcessingStrategy for SingleThreadedStrategy {
    type ThreadData = SingleThreadData;

    open spec fn wf(&self) -> bool {
        true
    }

    open spec fn data_wf(data: &SingleThreadData) -> bool {
        true
    }

    fn thread_datas(&self, output_array: ImageArray) -> Vec<SingleThreadData> {
        single_thread_datas(output_array)
    }

    fn process_data<P: PictureEffect>(thread_data: SingleThreadData) -> SingleThreadData {
        single_process_data::<P>(thread_data)
    }
}

/// Hands each worker one full row.
pub struct ByRowThreadStrategy;

/// The by-row partition: one unit per row, tagged with its row index.
#[verifier::loop_isolation(false)]
pub fn by_row_thread_datas(image_array: ImageArray) -> (datas: Vec<ByRowThreadData>)
    ensures
        datas@.len() == image_array.0@.len(),
        forall|r: int|
            0 <= r < datas@.len() ==> (#[trigger] datas@[r]).y == r && datas@[r].row
                == image_array.0@[r],
{
    let mut rows = image_array.0;
    let ghost original = rows@;
    let mut datas: Vec<ByRowThreadData> = Vec::new();
    let n: usize = rows.len();
    let mut y: usize = 0;
    while y < n
        invariant
            y <= n,
            rows@ == original.subrange(y as int, n as int),
            datas@.len() == y,
            forall|r: int|
                0 <= r < y ==> (#[trigger] datas@[r]).y == r && datas@[r].row == original[r],
        decreases n - y,
    {
        let row = rows.remove(0);
        proof {
            assert(rows@ =~= original.subrange(y + 1, n as int));
        }
        datas.push(ByRowThreadData { y, row });
        y = y + 1;
    }
    datas
}

/// Applies the effect to every pixel of one row; the row index and the row's
/// length are preserved.
pub fn by_row_process_data<P: PictureEffect>(thread_data: ByRowThreadData) -> (out: ByRowThreadData)
    ensures
        out.y == thread_data.y,
        out.row@.len() == thread_data.row@.len(),
{
    // binding the executable length pins row@.len() inside the usize range
    let row_len: usize = thread_data.row.len();
    let processed = apply_effect_to_row::<P>(&thread_data.row, 0, thread_data.y);
    assert(processed@.len() == row_len);
    ByRowThreadData { y: thread_data.y, row: processed }
}

impl ProcessingStrategy for ByRowThreadStrategy {
    type ThreadData = ByRowThreadData;

    open spec fn wf(&self) -> bool {
        true
    }

    open spec fn data_wf(data: &ByRowThreadData) -> bool {
        true
    }

    fn thread_datas(&self, output_array: ImageArray) -> Vec<ByRowThreadData> {
        by_row_thread_datas(output_array)
    }

    fn process_data<P: PictureEffect>(thread_data: ByRowThreadData) -> ByRowThreadData {
        by_row_process_data::<P>(thread_data)
    }
}

/// Hands each worker one full column.
pub struct ByColumnThreadStrategy;

/// The by-column partition: one unit per column, tagged with its column
/// index. There are as many columns as the shortest row is long; an image
/// with no rows has no columns.
#[verifier::loop_isolation(false)]
pub fn by_column_thread_datas(image_array: ImageArray) -> (datas: Vec<ByColumnThreadData>)
    ensures
        image_array.0@.len() == 0 ==> datas@.len() == 0,
        image_array.0@.len() > 0 ==> {
            &&& (forall|r: int|
                0 <= r < image_array.0@.len() ==> datas@.len() <= (
                #[trigger] image_array.0@[r])@.len())
            &&& (exists|r: int|
                0 <= r < image_array.0@.len() && datas@.len() == (
                #[trigger] image_array.0@[r])@.len())
        },
        forall|j: int|
            0 <= j < datas@.len() ==> (#[trigger] datas@[j]).x == j && datas@[j].column@.len()
                == image_array.0@.len() && (forall|r: int|
                0 <= r < image_array.0@.len() ==> datas@[j].column@[r] == image_array.0@[r]@[j]),
{
    let n: usize = image_array.0.len();
    if n == 0 {
        return Vec::new();
    }
    let first = &image_array.0[0];
    let mut min_len: usize = first.len();
    let ghost mut min_at: int = 0;
    let mut r: usize = 1;
    while r < n
        invariant
            1 <= r <= n,
            forall|k: int| 0 <= k < r ==> min_len <= (#[trigger] image_array.0@[k])@.len(),
            0 <= min_at < r,
            min_len == image_array.0@[min_at]@.len(),
        decreases n - r,
    {
        let row = &image_array.0[r];
        if row.len() < min_len {
            min_len = row.len();
            proof {
                min_at = r as int;
            }
        }
        r = r + 1;
    }
    let mut datas: Vec<ByColumnThreadData> = Vec::new();
    let mut j: usize = 0;
    while j < min_len
        invariant
            j <= min_len,
            datas@.len() == j,
            forall|jj: int|
                0 <= jj < j ==> (#[trigger] datas@[jj]).x == jj && datas@[jj].column@.len() == n
                    && (forall|k: int| 0 <= k < n ==> datas@[jj].column@[k] == image_array.0@[k]@[jj]),
        decreases min_len - j,
    {
        let mut column: Vec<Pixel> = Vec::new();
        let mut k: usize = 0;
        while k < n
            invariant
                k <= n,
                j < min_len,
                column@.len() == k,
                forall|kk: int| 0 <= kk < k ==> column@[kk] == image_array.0@[kk]@[j as int],
            decreases n - k,
        {
            let row = &image_array.0[k];
            column.push(row[j]);
            k = k + 1;
        }
        datas.push(ByColumnThreadData { x: j, column });
        j = j + 1;
    }
    datas
}

/// Applies the effect to every pixel of one column; the column index and the
/// column's length are preserved.
#[verifier::loop_isolation(false)]
pub fn by_column_process_data<P: PictureEffect>(thread_data: ByColumnThreadData) -> (out: ByColumnThreadData)
    ensures
        out.x == thread_data.x,
        out.column@.len() == thread_data.column@.len(),
{
    let column = thread_data.column;
    let mut out_column: Vec<Pixel> = Vec::new();
    let n: usize = column.len();
    let mut i: usize = 0;
    while i < n
        invariant
            i <= n,
            out_column@.len() == i,
        decreases n - i,
    {
        let mut px: Pixel = column[i];
        P::process_pixel(thread_data.x, i, &mut px);
        out_column.push(px);
        i = i + 1;
    }
    ByColumnThreadData { x: thread_data.x, column: out_column }
}

/// Hands each worker one rectangular tile of chunk_width x chunk_height
/// pixels.
pub struct ByChunkThreadStrategy {
    pub chunk_width: usize,
    pub chunk_height: usize,
}

/// Every row holds exactly `w` pixels.
pub open spec fn rectangular(rows: Seq<Vec<Pixel>>, w: int) -> bool {
    forall|r: int| 0 <= r < rows.len() ==> (#[trigger] rows[r])@.len() == w
}

/// The tile at group `g`, column slot `c` of the by-chunk partition of
/// `rows` is tagged with the coordinates of its top-left pixel, keeps the
/// given orientation, and holds the matching slice of every row of its
/// group (the last group may be shorter than `ch` rows).
pub open spec fn chunk_data_ok(
    datas: Seq<ByChunkThreadData>,
    rows: Seq<Vec<Pixel>>,
    cw: int,
    ch: int,
    cpg: int,
    g: int,
    c: int,
) -> bool {
    let d = datas[g * cpg + c];
    &&& d.x == c * cw
    &&& d.y == g * ch
    &&& d.up_to_down == false
    &&& d.chunk_rows@.len() == (if rows.len() - g * ch < ch {
        rows.len() - g * ch
    } else {
        ch
    })
    &&& (forall|r: int|
        0 <= r < d.chunk_rows@.len() ==> (#[trigger] d.chunk_rows@[r])@ == rows[g * ch
            + r]@.subrange(c * cw, (c + 1) * cw))
}

/// The by-chunk partition: the rows are cut into groups of `chunk_height`
/// (the last group may be shorter), each group into tiles of `chunk_width`
/// columns, dropping a remainder narrower than a tile. On a rectangular
/// image of width w this yields ceil(rows / chunk_height) * (w /
/// chunk_width) tiles, group by group, left to right.
#[verifier::loop_isolation(false)]
#[verifier::rlimit(60)]
pub fn by_chunk_thread_datas(
    image_array: ImageArray,
    chunk_width: usize,
    chunk_height: usize,
) -> (datas: Vec<ByChunkThreadData>)
    requires
        1 <= chunk_width,
        1 <= chunk_height,
    ensures
        forall|w: int|
            #[trigger] rectangular(image_array.0@, w) ==> {
                let rows_n = image_array.0@.len() as int;
                let cpg = w / (chunk_width as int);
                let groups = (rows_n + chunk_height - 1) / (chunk_height as int);
                &&& datas@.len() == groups * cpg
                &&& (forall|g: int, c: int|
                    0 <= g < groups && 0 <= c < cpg ==> #[trigger] chunk_data_ok(
                        datas@,
                        image_array.0@,
                        chunk_width as int,
                        chunk_height as int,
                        cpg,
                        g,
                        c,
                    ))
            },
{
    let ghost rows_view = image_array.0@;
    let rows_n: usize = image_array.0.len();
    let ghost w0: int = if rows_n > 0 {
        rows_view[0]@.len() as int
    } else {
        0
    };
    let ghost cwi = chunk_width as int;
    let ghost chi = chunk_height as int;
    let ghost cpg0 = w0 / cwi;
    let ghost rect = rows_n > 0 && rectangular(rows_view, w0);
    let mut datas: Vec<ByChunkThreadData> = Vec::new();
    let mut y0: usize = 0;
    let ghost mut groups_done: int = 0;
    proof {
        lemma_fundamental_div_mod_converse(chi - 1, chi, 0, chi - 1);
    }
    while y0 < rows_n
        invariant
            y0 <= rows_n,
            0 <= groups_done,
            y0 == groups_done * chi || y0 == rows_n,
            groups_done == (y0 + chi - 1) / chi,
            rows_n == 0 ==> datas@.len() == 0,
            rect ==> datas@.len() == groups_done * cpg0,
            rect ==> (forall|g: int, c: int|
                0 <= g < groups_done && 0 <= c < cpg0 ==> #[trigger] chunk_data_ok(
                    datas@,
                    rows_view,
                    cwi,
                    chi,
                    cpg0,
                    g,
                    c,
                )),
        decreases rows_n - y0,
    {
        proof {
            assert(y0 == groups_done * chi);
        }
        let group_rows: usize = if chunk_height < rows_n - y0 {
            chunk_height
        } else {
            rows_n - y0
        };
        // the group's narrowest row bounds how many whole tiles fit
        let first = &image_array.0[y0];
        let mut m: usize = first.len();
        let mut rr: usize = y0 + 1;
        while rr < y0 + group_rows
            invariant
                y0 + 1 <= rr <= y0 + group_rows,
                y0 + group_rows <= rows_n,
                forall|j: int| y0 <= j < rr ==> m <= (#[trigger] rows_view[j])@.len(),
                rect ==> m == w0,
            decreases y0 + group_rows - rr,
        {
            let row = &image_array.0[rr];
            if row.len() < m {
                m = row.len();
            }
            rr = rr + 1;
        }
        let chunks_here: usize = m / chunk_width;
        proof {
            lemma_fundamental_div_mod(m as int, cwi);
            lemma_mod_bound(m as int, cwi);
        }
        let mut c: usize = 0;
        let mut x0: usize = 0;
        while c < chunks_here
            invariant
                c <= chunks_here,
                x0 == c * cwi,
                rect ==> chunks_here == cpg0,
                rect ==> datas@.len() == groups_done * cpg0 + c,
                rect ==> (forall|g: int, cc: int|
                    0 <= g < groups_done && 0 <= cc < cpg0 ==> #[trigger] chunk_data_ok(
                        datas@,
                        rows_view,
                        cwi,
                        chi,
                        cpg0,
                        g,
                        cc,
                    )),
                rect ==> (forall|cc: int|
                    0 <= cc < c ==> #[trigger] chunk_data_ok(
                        datas@,
                        rows_view,
                        cwi,
                        chi,
                        cpg0,
                        groups_done,
                        cc,
                    )),
            decreases chunks_here - c,
        {
            proof {
                assert((c + 1) * cwi <= chunks_here * cwi) by (nonlinear_arith)
                    requires
                        c + 1 <= chunks_here,
                        0 < cwi,
                ;
                assert(chunks_here * cwi <= m) by (nonlinear_arith)
                    requires
                        chunks_here == m as int / cwi,
                        0 < cwi,
                        m as int == cwi * (m as int / cwi) + m as int % cwi,
                        m as int % cwi >= 0,
                ;
                assert(x0 + cwi == (c + 1) * cwi) by (nonlinear_arith)
                    requires
                        x0 == c * cwi,
                ;
                assert(x0 + chunk_width <= m);
            }
            let mut chunk_rows: Vec<Vec<Pixel>> = Vec::new();
            let mut r: usize = 0;
            while r < group_rows
                invariant
                    r <= group_rows,
                    chunk_rows@.len() == r,
                    x0 + chunk_width <= m,
                    forall|j: int|
                        0 <= j < r ==> (#[trigger] chunk_rows@[j])@ == rows_view[y0 + j]@.subrange(
                            x0 as int,
                            x0 + chunk_width,
                        ),
                decreases group_rows - r,
            {
                let row = &image_array.0[y0 + r];
                let mut tile_row: Vec<Pixel> = Vec::new();
                let mut i: usize = 0;
                while i < chunk_width
                    invariant
                        i <= chunk_width,
                        x0 + chunk_width <= row@.len(),
                        tile_row@ == row@.subrange(x0 as int, x0 + i),
                    decreases chunk_width - i,
                {
                    tile_row.push(row[x0 + i]);
                    proof {
                        assert(tile_row@ =~= row@.subrange(x0 as int, x0 + i + 1));
                    }
                    i = i + 1;
                }
                chunk_rows.push(tile_row);
                r = r + 1;
            }
            let ghost datas_before = datas@;
            datas.push(ByChunkThreadData { x: x0, y: y0, up_to_down: false, chunk_rows });
            proof {
                if rect {
                    assert forall|g: int, cc: int|
                        0 <= g < groups_done && 0 <= cc < cpg0 implies #[trigger] chunk_data_ok(
                        datas@,
                        rows_view,
                        cwi,
                        chi,
                        cpg0,
                        g,
                        cc,
                    ) by {
                        assert(g * cpg0 + cc < groups_done * cpg0) by (nonlinear_arith)
                            requires
                                0 <= g < groups_done,
                                0 <= cc < cpg0,
                        ;
                        assert(datas@[g * cpg0 + cc] == datas_before[g * cpg0 + cc]);
                        assert(chunk_data_ok(datas_before, rows_view, cwi, chi, cpg0, g, cc));
                    }
                    assert forall|cc: int| 0 <= cc < c + 1 implies #[trigger] chunk_data_ok(
                        datas@,
                        rows_view,
                        cwi,
                        chi,
                        cpg0,
                        groups_done,
                        cc,
                    ) by {
                        if cc < c {
                            assert(datas@[groups_done * cpg0 + cc] == datas_before[groups_done
                                * cpg0 + cc]);
                            assert(chunk_data_ok(
                                datas_before,
                                rows_view,
                                cwi,
                                chi,
                                cpg0,
                                groups_done,
                                cc,
                            ));
                        } else {
                            assert(datas@[groups_done * cpg0 + c].x == c * cwi);
                            assert(group_rows as int == (if rows_view.len() - groups_done * chi
                                < chi {
                                rows_view.len() - groups_done * chi
                            } else {
                                chi
                            }));
                        }
                    }
                }
            }
            x0 = x0 + chunk_width;
            c = c + 1;
        }
        proof {
            if rect {
                assert((groups_done + 1) * cpg0 == groups_done * cpg0 + cpg0) by (nonlinear_arith);
            }
            groups_done = groups_done + 1;
            assert((groups_done - 1) * chi + chi == groups_done * chi) by (nonlinear_arith);
            if chunk_height < rows_n - y0 {
                assert(y0 + group_rows == groups_done * chi);
                assert((y0 + group_rows + chi - 1) / chi == groups_done) by {
                    lemma_fundamental_div_mod_converse(
                        y0 + group_rows + chi - 1,
                        chi,
                        groups_done,
                        chi - 1,
                    );
                }
            } else {
                assert(y0 + group_rows == rows_n);
                assert((y0 + group_rows + chi - 1) / chi == groups_done) by {
                    assert(rows_n as int == (groups_done - 1) * chi + group_rows);
                    lemma_fundamental_div_mod_converse(
                        rows_n + chi - 1,
                        chi,
                        groups_done,
                        group_rows - 1,
                    );
                }
            }
        }
        y0 = y0 + group_rows;
    }
    proof {
        assert forall|w: int| #[trigger] rectangular(image_array.0@, w) implies {
            let rows_ni = image_array.0@.len() as int;
            let cpg = w / cwi;
            let groups = (rows_ni + chunk_height - 1) / chi;
            &&& datas@.len() == groups * cpg
            &&& (forall|g: int, c: int|
                0 <= g < groups && 0 <= c < cpg ==> #[trigger] chunk_data_ok(
                    datas@,
                    image_array.0@,
                    cwi,
                    chi,
                    cpg,
                    g,
                    c,
                ))
        } by {
            if rows_n > 0 {
                assert(rows_view[0]@.len() == w);
                assert(rect);
                assert(w == w0);
                assert(w / cwi == cpg0);
                assert(datas@.len() == ((rows_view.len() as int + chi - 1) / chi) * (w / cwi));
                assert forall|g: int, c: int|
                    0 <= g < (rows_view.len() as int + chi - 1) / chi && 0 <= c < w
                        / cwi implies #[trigger] chunk_data_ok(
                    datas@,
                    image_array.0@,
                    cwi,
                    chi,
                    w / cwi,
                    g,
                    c,
                ) by {
                    assert(chunk_data_ok(datas@, rows_view, cwi, chi, cpg0, g, c));
                }
            } else {
                assert(0 * (w / cwi) == 0) by (nonlinear_arith);
            }
        }
    }
    datas
}

/// Applies the effect to every pixel of one tile, row-major within the
/// tile; the tile's coordinates, orientation, row count and row lengths are
/// preserved.
#[verifier::loop_isolation(false)]
pub fn by_chunk_process_data<P: PictureEffect>(thread_data: ByChunkThreadData) -> (out: ByChunkThreadData)
    requires
        thread_data.y + thread_data.chunk_rows@.len() <= usize::MAX,
        forall|r: int|
            0 <= r < thread_data.chunk_rows@.len() ==> thread_data.x + (
            #[trigger] thread_data.chunk_rows@[r])@.len() <= usize::MAX,
    ensures
        out.x == thread_data.x,
        out.y == thread_data.y,
        out.up_to_down == thread_data.up_to_down,
        out.chunk_rows@.len() == thread_data.chunk_rows@.len(),
        forall|r: int|
            0 <= r < out.chunk_rows@.len() ==> (#[trigger] out.chunk_rows@[r])@.len()
                == thread_data.chunk_rows@[r]@.len(),
{
    let rows = thread_data.chunk_rows;
    let mut out_rows: Vec<Vec<Pixel>> = Vec::new();
    let n: usize = rows.len();
    let mut r: usize = 0;
    while r < n
        invariant
            r <= n,
            out_rows@.len() == r,
            forall|j: int|
                0 <= j < r ==> (#[trigger] out_rows@[j])@.len() == rows@[j]@.len(),
        decreases n - r,
    {
        let processed = apply_effect_to_row::<P>(&rows[r], thread_data.x, thread_data.y + r);
        out_rows.push(processed);
        r = r + 1;
    }
    ByChunkThreadData {
        x: thread_data.x,
        y: thread_data.y,
        up_to_down: thread_data.up_to_down,
        chunk_rows: out_rows,
    }
}

impl ProcessingStrategy for ByChunkThreadStrategy {
    type ThreadData = ByChunkThreadData;

    open spec fn wf(&self) -> bool {
        1 <= self.chunk_width && 1 <= self.chunk_height
    }

    open spec fn data_wf(data: &ByChunkThreadData) -> bool {
        &&& data.y + data.chunk_rows@.len() <= usize::MAX
        &&& forall|r: int|
            0 <= r < data.chunk_rows@.len() ==> data.x + (#[trigger] data.chunk_rows@[r])@.len()
                <= usize::MAX
    }

    fn thread_datas(&self, output_array: ImageArray) -> Vec<ByChunkThreadData> {
        by_chunk_thread_datas(output_array, self.chunk_width, self.chunk_height)
    }

    fn process_data<P: PictureEffect>(thread_data: ByChunkThreadData) -> ByChunkThreadData {
        by_chunk_process_data::<P>(thread_data)
    }
}

impl ProcessingStrategy for ByColumnThreadStrategy {
    type ThreadData = ByColumnThreadData;

    open spec fn wf(&self) -> bool {
        true
    }

    open spec fn data_wf(data: &ByColumnThreadData) -> bool {
        true
    }

    fn thread_datas(&self, output_array: ImageArray) -> Vec<ByColumnThreadData> {
        by_column_thread_datas(output_array)
    }

    fn process_data<P: PictureEffect>(thread_data: ByColumnThreadData) -> ByColumnThreadData {
        by_column_process_data::<P>(thread_data)
    }
}

} // verus!
