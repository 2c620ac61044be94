//! The compositor: one tile per grid cell, chosen by the cell's mean
//! brightness.
use crate::dice::{map_intensity_to_dice_side, side_for, DiceSides};
use crate::raster::{lemma_inside_grid, lemma_rgba_index, lemma_row_major, Canvas, Source};
use crate::tiles::TileSet;
use vstd::arithmetic::div_mod::{lemma_fundamental_div_mod, lemma_mod_pos_bound};
use vstd::prelude::*;

verus! {

/// Sum of the `n` samples of row `y` that start at column `x0`.
pub open spec fn row_sum(s: Source, x0: int, y: int, n: int) -> int
    decreases n,
{
    if n <= 0 {
        0
    } else {
        row_sum(s, x0, y, n - 1) + s.at(x0 + n - 1, y)
    }
}

/// Sum of the samples of the `w` by `h` block whose top-left corner is
/// (`x0`, `y0`), taken row by row.
pub open spec fn block_sum(s: Source, x0: int, y0: int, w: int, h: int) -> int
    decreases h,
{
    if h <= 0 {
        0
    } else {
        block_sum(s, x0, y0, w, h - 1) + row_sum(s, x0, y0 + h - 1, w)
    }
}

/// Mean brightness of a block, rounded down; zero for an empty block.
pub open spec fn block_mean(s: Source, x0: int, y0: int, w: int, h: int) -> int {
    if w * h > 0 {
        block_sum(s, x0, y0, w, h) / (w * h)
    } else {
        0
    }
}

/// Number of whole tile columns that fit across the source.
pub open spec fn grid_cols(s: Source, t: TileSet) -> int {
    s.width as int / t.size as int
}

/// Number of whole tile rows that fit down the source.
pub open spec fn grid_rows(s: Source, t: TileSet) -> int {
    s.height as int / t.size as int
}

/// The face chosen for grid cell (`cx`, `cy`).
pub open spec fn cell_side(s: Source, t: TileSet, cx: int, cy: int) -> DiceSides {
    let n = t.size as int;
    side_for(block_mean(s, cx * n, cy * n, n, n))
}

/// Channel `k` of mosaic pixel (`x`, `y`): the matching pixel of the tile
/// chosen for the cell that holds it.
pub open spec fn mosaic_byte(s: Source, t: TileSet, x: int, y: int, k: int) -> u8 {
    let n = t.size as int;
    t.tile_for(cell_side(s, t, x / n, y / n)).image.byte(x % n, y % n, k)
}

/// Byte `i` of the row-major mosaic buffer, `w` pixels wide.
pub open spec fn mosaic_flat(s: Source, t: TileSet, w: int, i: int) -> u8 {
    mosaic_byte(s, t, (i / 4) % w, (i / 4) / w, i % 4)
}

/// `m` is the mosaic of `s` drawn with `t`: its grid counts the whole
/// cells across and down the source, its canvas covers exactly those cells,
/// and every pixel is the matching pixel of the tile its cell selects.
pub open spec fn is_mosaic_of(m: Mosaic, s: Source, t: TileSet) -> bool {
    &&& m.cols == grid_cols(s, t)
    &&& m.rows == grid_rows(s, t)
    &&& m.canvas.wf()
    &&& m.canvas.width == m.cols * t.size
    &&& m.canvas.height == m.rows * t.size
    &&& forall|x: int, y: int, k: int|
        0 <= x < m.canvas.width && 0 <= y < m.canvas.height && 0 <= k < 4
            ==> #[trigger] m.canvas.byte(x, y, k) == mosaic_byte(s, t, x, y, k)
}

/// Why no mosaic was made.
#[derive(Debug, Clone, Copy, PartialEq, Eq, Structural)]
pub enum MosaicError {
    /// The source is narrower or shorter than one tile.
    TooSmall,
}

/// A composited mosaic and its grid.
#[derive(Debug, Clone)]
pub struct Mosaic {
    pub canvas: Canvas,
    pub cols: u32,
    pub rows: u32,
}

/// Mean brightness of the `w` by `h` block at (`x0`, `y0`): the sum of its
/// samples divided by their count, rounded down; zero for an empty block.
pub fn cell_average(source: &Source, x0: u32, y0: u32, w: u32, h: u32) -> (r: u8)
    requires
        source.wf(),
        x0 + w <= source.width,
        y0 + h <= source.height,
    ensures
        r == block_mean(*source, x0 as int, y0 as int, w as int, h as int),
{
    let ghost s = *source;
    let len = source.pixels.len();
    let mut total: u128 = 0;
    let mut dy: u32 = 0;
    assert(w * h <= u32::MAX * u32::MAX) by (nonlinear_arith);
    while dy < h
        invariant
            s == *source,
            len == source.pixels@.len(),
            source.wf(),
            x0 + w <= source.width,
            y0 + h <= source.height,
            w * h <= u32::MAX * u32::MAX,
            0 <= dy <= h,
            total == block_sum(s, x0 as int, y0 as int, w as int, dy as int),
            total <= 255 * (w * dy),
        decreases h - dy,
    {
        let mut dx: u32 = 0;
        while dx < w
            invariant
                s == *source,
                len == source.pixels@.len(),
                source.wf(),
                x0 + w <= source.width,
                y0 + h <= source.height,
                w * h <= u32::MAX * u32::MAX,
                0 <= dy < h,
                0 <= dx <= w,
                total == block_sum(s, x0 as int, y0 as int, w as int, dy as int) + row_sum(
                    s,
                    x0 as int,
                    y0 + dy,
                    dx as int,
                ),
                total <= 255 * (w * dy + dx),
            decreases w - dx,
        {
            proof {
                lemma_inside_grid(x0 + dx, y0 + dy, source.width as int, source.height as int);
                assert(w * dy + dx + 1 <= w * h) by (nonlinear_arith)
                    requires
                        dx < w,
                        dy < h,
                ;
            }
            let v = source.pixels[(y0 + dy) as usize * source.width as usize + (x0 + dx) as usize];
            total = total + v as u128;
            dx = dx + 1;
        }
        proof {
            assert(w * dy + w == w * (dy + 1)) by (nonlinear_arith);
        }
        dy = dy + 1;
    }
    if w == 0 || h == 0 {
        proof {
            assert(w * h == 0) by (nonlinear_arith)
                requires
                    w == 0 || h == 0,
            ;
        }
        0
    } else {
        let count: u128 = w as u128 * h as u128;
        proof {
            assert(w * h > 0) by (nonlinear_arith)
                requires
                    w > 0,
                    h > 0,
            ;
            assert(total / count <= 255) by (nonlinear_arith)
                requires
                    total <= 255 * count,
                    count > 0,
            ;
        }
        (total / count) as u8
    }
}

/// Whole cells of side `n` along a length `len` end inside it.
proof fn lemma_cells_fit(len: int, n: int, c: int)
    requires
        n > 0,
        len >= 0,
        0 <= c < len / n,
    ensures
        (len / n) * n <= len,
        c * n + n <= len,
        0 <= c * n,
{
    lemma_fundamental_div_mod(len, n);
    lemma_mod_pos_bound(len, n);
    assert(c * n + n <= (len / n) * n) by (nonlinear_arith)
        requires
            c + 1 <= len / n,
            n > 0,
    ;
    assert(0 <= c * n) by (nonlinear_arith)
        requires
            0 <= c,
            n > 0,
    ;
}

/// The face of every grid cell, row by row: entry `cy * cols + cx` is the
/// face chosen for cell (`cx`, `cy`).
pub fn classify_cells(source: &Source, tiles: &TileSet) -> (r: Vec<DiceSides>)
    requires
        source.wf(),
        tiles.wf(),
    ensures
        r@.len() == grid_cols(*source, *tiles) * grid_rows(*source, *tiles),
        forall|cx: int, cy: int|
            0 <= cx < grid_cols(*source, *tiles) && 0 <= cy < grid_rows(*source, *tiles)
                ==> #[trigger] r@[cy * grid_cols(*source, *tiles) + cx] == cell_side(
                *source,
                *tiles,
                cx,
                cy,
            ),
{
    let ghost s = *source;
    let ghost t = *tiles;
    let n = tiles.size;
    let cols = source.width / n;
    let rows = source.height / n;
    let mut faces: Vec<DiceSides> = Vec::new();
    let mut cy: u32 = 0;
    while cy < rows
        invariant
            s == *source,
            t == *tiles,
            source.wf(),
            tiles.wf(),
            n == tiles.size,
            cols == grid_cols(s, t),
            rows == grid_rows(s, t),
            0 <= cy <= rows,
            faces@.len() == cy * cols,
            forall|i: int|
                0 <= i < faces@.len() ==> #[trigger] faces@[i] == cell_side(
                    s,
                    t,
                    i % cols as int,
                    i / cols as int,
                ),
        decreases rows - cy,
    {
        let mut cx: u32 = 0;
        while cx < cols
            invariant
                s == *source,
                t == *tiles,
                source.wf(),
                tiles.wf(),
                n == tiles.size,
                cols == grid_cols(s, t),
                rows == grid_rows(s, t),
                0 <= cy < rows,
                0 <= cx <= cols,
                faces@.len() == cy * cols + cx,
                forall|i: int|
                    0 <= i < faces@.len() ==> #[trigger] faces@[i] == cell_side(
                        s,
                        t,
                        i % cols as int,
                        i / cols as int,
                    ),
            decreases cols - cx,
        {
            proof {
                lemma_cells_fit(source.width as int, n as int, cx as int);
                lemma_cells_fit(source.height as int, n as int, cy as int);
                lemma_row_major(cx as int, cy as int, cols as int);
            }
            let avg = cell_average(source, cx * n, cy * n, n, n);
            faces.push(map_intensity_to_dice_side(avg));
            cx = cx + 1;
        }
        proof {
            assert(cy * cols + cols == (cy + 1) * cols) by (nonlinear_arith);
        }
        cy = cy + 1;
    }
    assert(rows * cols == cols * rows) by (nonlinear_arith);
    assert forall|cx: int, cy: int|
        0 <= cx < grid_cols(s, t) && 0 <= cy < grid_rows(s, t) implies #[trigger] faces@[cy
        * grid_cols(s, t) + cx] == cell_side(s, t, cx, cy) by {
        lemma_inside_grid(cx, cy, cols as int, rows as int);
        lemma_row_major(cx, cy, cols as int);
    }
    faces
}

/// A position `p` inside `cells` cells of side `n` lies in cell `p / n`, at
/// offset `p % n`.
proof fn lemma_cell_of(p: int, n: int, cells: int)
    requires
        n > 0,
        0 <= p < cells * n,
    ensures
        0 <= p / n < cells,
        0 <= p % n < n,
{
    lemma_fundamental_div_mod(p, n);
    lemma_mod_pos_bound(p, n);
    let q = p / n;
    let r = p % n;
    assert(0 <= q < cells) by (nonlinear_arith)
        requires
            p == n * q + r,
            0 <= r < n,
            0 <= p < cells * n,
    ;
}

/// Builds the mosaic: the source is cut into whole `size` by `size` cells
/// (a trailing strip narrower than a cell is dropped), and each cell of the
/// canvas receives the tile of the face that its mean brightness selects.
/// Fails when not even one cell fits across or down the source.
pub fn composite(source: &Source, tiles: &TileSet) -> (r: Result<Mosaic, MosaicError>)
    requires
        source.wf(),
        tiles.wf(),
    ensures
        (r == Err::<Mosaic, MosaicError>(MosaicError::TooSmall)) <==> (grid_cols(*source, *tiles)
            == 0 || grid_rows(*source, *tiles) == 0),
        r matches Ok(m) ==> is_mosaic_of(m, *source, *tiles),
{
    let ghost s = *source;
    let ghost t = *tiles;
    let n = tiles.size;
    let cols = source.width / n;
    let rows = source.height / n;
    if cols == 0 || rows == 0 {
        return Err(MosaicError::TooSmall);
    }
    let faces = classify_cells(source, tiles);
    let nfaces = faces.len();
    proof {
        lemma_cells_fit(source.width as int, n as int, 0);
        lemma_cells_fit(source.height as int, n as int, 0);
    }
    let cw: u32 = cols * n;
    let ch: u32 = rows * n;
    let mut out: Vec<u8> = Vec::new();
    let mut y: u32 = 0;
    while y < ch
        invariant
            s == *source,
            t == *tiles,
            source.wf(),
            tiles.wf(),
            n == tiles.size,
            cols == grid_cols(s, t),
            rows == grid_rows(s, t),
            cw == cols * n,
            ch == rows * n,
            faces@.len() == cols * rows,
            nfaces == faces@.len(),
            forall|cx: int, cy: int|
                0 <= cx < cols && 0 <= cy < rows ==> #[trigger] faces@[cy * cols + cx]
                    == cell_side(s, t, cx, cy),
            0 <= y <= ch,
            out@.len() == (y * cw) * 4,
            forall|i: int|
                0 <= i < out@.len() ==> #[trigger] out@[i] == mosaic_flat(s, t, cw as int, i),
        decreases ch - y,
    {
        let mut x: u32 = 0;
        while x < cw
            invariant
                s == *source,
                t == *tiles,
                source.wf(),
                tiles.wf(),
                n == tiles.size,
                cols == grid_cols(s, t),
                rows == grid_rows(s, t),
                cw == cols * n,
                ch == rows * n,
                faces@.len() == cols * rows,
                nfaces == faces@.len(),
                forall|cx: int, cy: int|
                    0 <= cx < cols && 0 <= cy < rows ==> #[trigger] faces@[cy * cols + cx]
                        == cell_side(s, t, cx, cy),
                0 <= y < ch,
                0 <= x <= cw,
                out@.len() == (y * cw + x) * 4,
                forall|i: int|
                    0 <= i < out@.len() ==> #[trigger] out@[i] == mosaic_flat(s, t, cw as int, i),
            decreases cw - x,
        {
            let cx = x / n;
            let cy = y / n;
            proof {
                lemma_cell_of(x as int, n as int, cols as int);
                lemma_cell_of(y as int, n as int, rows as int);
                lemma_inside_grid(cx as int, cy as int, cols as int, rows as int);
                assert(cols * rows == rows * cols) by (nonlinear_arith);
            }
            let side = faces[cy as usize * cols as usize + cx as usize];
            let tile = tiles.tile(side);
            let tlen = tile.image.pixels.len();
            proof {
                lemma_inside_grid((x % n) as int, (y % n) as int, n as int, n as int);
                assert(tlen == n * n * 4);
            }
            let base: usize = ((y % n) as usize * n as usize + (x % n) as usize) * 4;
            let ghost before = out@;
            out.push(tile.image.pixels[base]);
            out.push(tile.image.pixels[base + 1]);
            out.push(tile.image.pixels[base + 2]);
            out.push(tile.image.pixels[base + 3]);
            proof {
                assert forall|i: int| 0 <= i < out@.len() implies #[trigger] out@[i] == mosaic_flat(
                    s,
                    t,
                    cw as int,
                    i,
                ) by {
                    if i >= before.len() {
                        let k = i - before.len();
                        lemma_rgba_index(x as int, y as int, k, cw as int);
                    } else {
                        assert(out@[i] == before[i]);
                    }
                }
            }
            x = x + 1;
        }
        proof {
            assert((y * cw + cw) * 4 == ((y + 1) * cw) * 4) by (nonlinear_arith);
        }
        y = y + 1;
    }
    let canvas = Canvas { width: cw, height: ch, pixels: out };
    proof {
        assert(ch * cw * 4 == cw * ch * 4) by (nonlinear_arith);
        assert forall|x: int, y: int, k: int|
            0 <= x < cw && 0 <= y < ch && 0 <= k < 4 implies #[trigger] canvas.byte(x, y, k)
            == mosaic_byte(s, t, x, y, k) by {
            lemma_inside_grid(x, y, cw as int, ch as int);
            lemma_rgba_index(x, y, k, cw as int);
        }
    }
    Ok(Mosaic { canvas, cols, rows })
}

/// Sum of the `h` samples of column `x` that start at row `y0`.
pub open spec fn column_sum(s: Source, x: int, y0: int, h: int) -> int
    decreases h,
{
    if h <= 0 {
        0
    } else {
        column_sum(s, x, y0, h - 1) + s.at(x, y0 + h - 1)
    }
}

/// Sum of the samples of the `w` by `h` block at (`x0`, `y0`), taken
/// column by column.
pub open spec fn block_sum_by_columns(s: Source, x0: int, y0: int, w: int, h: int) -> int
    decreases w,
{
    if w <= 0 {
        0
    } else {
        block_sum_by_columns(s, x0, y0, w - 1, h) + column_sum(s, x0 + w - 1, y0, h)
    }
}

proof fn lemma_block_sum_empty(s: Source, x0: int, y0: int, h: int)
    ensures
        block_sum(s, x0, y0, 0, h) == 0,
    decreases h,
{
    if h > 0 {
        lemma_block_sum_empty(s, x0, y0, h - 1);
    }
}

proof fn lemma_block_sum_last_column(s: Source, x0: int, y0: int, w: int, h: int)
    requires
        w >= 1,
    ensures
        block_sum(s, x0, y0, w, h) == block_sum(s, x0, y0, w - 1, h) + column_sum(
            s,
            x0 + w - 1,
            y0,
            h,
        ),
    decreases h,
{
    if h > 0 {
        lemma_block_sum_last_column(s, x0, y0, w, h - 1);
    }
}

/// A block's sum does not depend on the order its samples are added in:
/// row by row and column by column give the same total, and so the same
/// mean.
pub proof fn lemma_block_sum_order_free(s: Source, x0: int, y0: int, w: int, h: int)
    requires
        w >= 0,
    ensures
        block_sum(s, x0, y0, w, h) == block_sum_by_columns(s, x0, y0, w, h),
    decreases w,
{
    if w == 0 {
        lemma_block_sum_empty(s, x0, y0, h);
    } else {
        lemma_block_sum_order_free(s, x0, y0, w - 1, h);
        lemma_block_sum_last_column(s, x0, y0, w, h);
    }
}

/// The mosaic is a function of its inputs: any two mosaics of one source
/// drawn with one tile set have the same grid and byte-identical canvases.
pub proof fn lemma_mosaic_deterministic(a: Mosaic, b: Mosaic, s: Source, t: TileSet)
    requires
        is_mosaic_of(a, s, t),
        is_mosaic_of(b, s, t),
    ensures
        a.cols == b.cols,
        a.rows == b.rows,
        a.canvas.width == b.canvas.width,
        a.canvas.height == b.canvas.height,
        a.canvas.pixels@ == b.canvas.pixels@,
{
    let w = a.canvas.width as int;
    let h = a.canvas.height as int;
    assert forall|i: int| 0 <= i < a.canvas.pixels@.len() implies a.canvas.pixels@[i]
        == b.canvas.pixels@[i] by {
        let p = i / 4;
        let k = i % 4;
        lemma_fundamental_div_mod(i, 4);
        lemma_mod_pos_bound(i, 4);
        assert(0 <= p < w * h) by (nonlinear_arith)
            requires
                i == 4 * p + k,
                0 <= k < 4,
                0 <= i < w * h * 4,
        ;
        assert(w > 0) by (nonlinear_arith)
            requires
                0 <= p < w * h,
                h >= 0,
        ;
        lemma_fundamental_div_mod(p, w);
        lemma_mod_pos_bound(p, w);
        let x = p % w;
        let y = p / w;
        lemma_cell_of(p, w, h);
        assert(p == y * w + x) by (nonlinear_arith)
            requires
                p == w * y + x,
        ;
        assert(a.canvas.byte(x, y, k) == b.canvas.byte(x, y, k));
    }
    assert(a.canvas.pixels@ =~= b.canvas.pixels@);
}

} // verus!
