use vstd::prelude::*;

use vstd::arithmetic::div_mod::{
    lemma_div_pos_is_pos, lemma_fundamental_div_mod, lemma_fundamental_div_mod_converse,
    lemma_mod_bound,
};
use vstd::arithmetic::mul::{lemma_mul_inequality, lemma_mul_nonnegative};

use crate::grid::{check_shape, grid_wf, lemma_row_view, LifeError};

verus! {

/// Color painted on the top row and left column of every cell block.
pub const BORDER_COLOR: u32 = 0x0033_3333;

/// Color of the interior of a live cell's block.
pub const ALIVE_COLOR: u32 = 0x00FF_FFFF;

/// Color of the interior of a dead cell's block, and of every pixel that no
/// block covers (the buffer's zero-initialized value).
pub const DEAD_COLOR: u32 = 0x0000_0000;

/// Width in pixels of one cell's block: integer division, truncating.
pub open spec fn cell_width_of(g: Seq<Seq<bool>>, ww: int) -> int {
    ww / (g[0].len() as int)
}

/// Height in pixels of one cell's block: integer division, truncating.
pub open spec fn cell_height_of(g: Seq<Seq<bool>>, wh: int) -> int {
    wh / (g.len() as int)
}

/// The color the rasterizer gives the window pixel at column `px_total`, row
/// `py_total`. A pixel inside some cell's block is border-colored when it
/// lies on the block's top row or left column, and otherwise takes the
/// cell's alive/dead color; a pixel of the residual strip that no block
/// covers keeps the buffer's zero value.
pub open spec fn raster_color(
    g: Seq<Seq<bool>>,
    ww: int,
    wh: int,
    px_total: int,
    py_total: int,
) -> u32 {
    let gh = g.len() as int;
    let gw = g[0].len() as int;
    let cw = ww / gw;
    let ch = wh / gh;
    if cw > 0 && ch > 0 && px_total < gw * cw && py_total < gh * ch {
        if px_total % cw == 0 || py_total % ch == 0 {
            BORDER_COLOR
        } else if g[py_total / ch][px_total / cw] {
            ALIVE_COLOR
        } else {
            DEAD_COLOR
        }
    } else {
        DEAD_COLOR
    }
}

/// `buf` is the rasterization of `g` into a `ww`-by-`wh` window: a row-major
/// buffer of exactly `ww * wh` pixels, each holding its `raster_color`.
pub open spec fn rasterized(g: Seq<Seq<bool>>, ww: int, wh: int, buf: Seq<u32>) -> bool {
    &&& buf.len() == ww * wh
    &&& forall|i: int|
        0 <= i < buf.len() ==> #[trigger] buf[i] == raster_color(g, ww, wh, i % ww, i / ww)
}

/// Flat buffer index of the top-left pixel of the block that cell (y, x)
/// paints.
pub open spec fn block_origin_index(g: Seq<Seq<bool>>, ww: int, wh: int, y: int, x: int) -> int {
    (y * cell_height_of(g, wh)) * ww + x * cell_width_of(g, ww)
}

/// Rasterize the grid into a flat row-major pixel buffer of exactly
/// `window_width * window_height` entries. Every cell is magnified into a
/// `cell_width`-by-`cell_height` block whose top row and left column carry
/// the border color; when the grid dimensions do not divide the window
/// dimensions, the residual strip at the right/bottom stays zero (black).
pub fn create_pixel_buffer(
    grid: &Vec<Vec<bool>>,
    window_width: usize,
    window_height: usize,
) -> (buffer: Vec<u32>)
    requires
        grid_wf(grid.deep_view()),
        window_width * window_height <= usize::MAX,
    ensures
        buffer@.len() == window_width * window_height,
        rasterized(grid.deep_view(), window_width as int, window_height as int, buffer@),
{
    broadcast use lemma_div_pos_is_pos, lemma_mod_bound;

    let ghost g = grid.deep_view();
    let ghost ww = window_width as int;
    let ghost wh = window_height as int;
    let grid_height = grid.len();
    proof {
        lemma_row_view(grid, 0);
    }
    let grid_width = grid[0].len();
    let ghost gh = grid_height as int;
    let ghost gw = grid_width as int;
    let cell_width = window_width / grid_width;
    let cell_height = window_height / grid_height;
    let ghost cw = cell_width as int;
    let ghost ch = cell_height as int;
    proof {
        lemma_fundamental_div_mod(ww, gw);
        lemma_mod_bound(ww, gw);
        lemma_fundamental_div_mod(wh, gh);
        lemma_mod_bound(wh, gh);
        assert(gw * cw <= ww);
        assert(gh * ch <= wh);
    }

    let total = window_width * window_height;
    let mut buffer: Vec<u32> = Vec::new();
    while buffer.len() < total
        invariant
            buffer@.len() <= total,
            forall|i: int| 0 <= i < buffer@.len() ==> #[trigger] buffer@[i] == 0u32,
        decreases total - buffer@.len(),
    {
        buffer.push(0u32);
    }

    let mut y: usize = 0;
    while y < grid_height
        invariant
            grid_wf(g),
            g == grid.deep_view(),
            gh == g.len(),
            gh == grid@.len(),
            gw == g[0].len(),
            ww == window_width as int,
            wh == window_height as int,
            grid_height == gh,
            grid_width == gw,
            cw == ww / gw,
            ch == wh / gh,
            cell_width == cw,
            cell_height == ch,
            gw * cw <= ww,
            gh * ch <= wh,
            ww * wh <= usize::MAX,
            0 <= y <= gh,
            buffer@.len() == ww * wh,
            forall|i: int|
                0 <= i < buffer@.len() ==> #[trigger] buffer@[i] == (if i / ww < y * ch {
                    raster_color(g, ww, wh, i % ww, i / ww)
                } else {
                    0u32
                }),
        decreases gh - y,
    {
        proof {
            lemma_row_view(grid, y as int);
            assert(g[y as int].len() == gw);
        }
        let mut x: usize = 0;
        while x < grid_width
            invariant
                grid_wf(g),
                g == grid.deep_view(),
                gh == g.len(),
                gh == grid@.len(),
                gw == g[0].len(),
                ww == window_width as int,
                wh == window_height as int,
                grid_width == gw,
                cw == ww / gw,
                ch == wh / gh,
                cell_width == cw,
                cell_height == ch,
                gw * cw <= ww,
                gh * ch <= wh,
                ww * wh <= usize::MAX,
                0 <= y < gh,
                grid@[y as int]@.len() == gw,
                0 <= x <= gw,
                buffer@.len() == ww * wh,
                forall|i: int|
                    0 <= i < buffer@.len() ==> #[trigger] buffer@[i] == (if i / ww < y * ch || (i
                        / ww < (y + 1) * ch && i % ww < x * cw) {
                        raster_color(g, ww, wh, i % ww, i / ww)
                    } else {
                        0u32
                    }),
            decreases gw - x,
        {
            let alive = grid[y][x];
            proof {
                lemma_row_view(grid, y as int);
                assert(alive == g[y as int][x as int]);
                assert(y * ch + ch == (y + 1) * ch) by (nonlinear_arith);
                assert(x * cw + cw == (x + 1) * cw) by (nonlinear_arith);
                assert((y + 1) * ch <= gh * ch) by {
                    lemma_mul_inequality(y + 1, gh, ch);
                }
                assert((x + 1) * cw <= gw * cw) by {
                    lemma_mul_inequality(x + 1, gw, cw);
                }
            }
            let mut py: usize = 0;
            while py < cell_height
                invariant
                    grid_wf(g),
                    g == grid.deep_view(),
                    gh == g.len(),
                    gw == g[0].len(),
                    ww == window_width as int,
                    wh == window_height as int,
                    cw == ww / gw,
                    ch == wh / gh,
                    cell_width == cw,
                    cell_height == ch,
                    gw * cw <= ww,
                    gh * ch <= wh,
                    ww * wh <= usize::MAX,
                    0 <= y < gh,
                    0 <= x < gw,
                    alive == g[y as int][x as int],
                    y * ch + ch == (y + 1) * ch,
                    x * cw + cw == (x + 1) * cw,
                    (y + 1) * ch <= gh * ch,
                    (x + 1) * cw <= gw * cw,
                    0 <= py <= ch,
                    buffer@.len() == ww * wh,
                    forall|i: int|
                        0 <= i < buffer@.len() ==> #[trigger] buffer@[i] == (if i / ww < y * ch
                            || (i / ww < (y + 1) * ch && i % ww < x * cw) || (i / ww < y * ch + py
                            && i % ww < x * cw + cw) {
                            raster_color(g, ww, wh, i % ww, i / ww)
                        } else {
                            0u32
                        }),
                decreases ch - py,
            {
                let row_base = y * cell_height + py;
                let mut px: usize = 0;
                while px < cell_width
                    invariant
                        grid_wf(g),
                        g == grid.deep_view(),
                        gh == g.len(),
                        gw == g[0].len(),
                        ww == window_width as int,
                        wh == window_height as int,
                        cw == ww / gw,
                        ch == wh / gh,
                        cell_width == cw,
                        gw * cw <= ww,
                        gh * ch <= wh,
                        ww * wh <= usize::MAX,
                        0 <= y < gh,
                        0 <= x < gw,
                        alive == g[y as int][x as int],
                        y * ch + ch == (y + 1) * ch,
                        x * cw + cw == (x + 1) * cw,
                        (y + 1) * ch <= gh * ch,
                        (x + 1) * cw <= gw * cw,
                        0 <= py < ch,
                        row_base == y * ch + py,
                        0 <= px <= cw,
                        buffer@.len() == ww * wh,
                        forall|i: int|
                            0 <= i < buffer@.len() ==> #[trigger] buffer@[i] == (if i / ww < y * ch
                                || (i / ww < (y + 1) * ch && i % ww < x * cw) || (i / ww < y * ch
                                + py && i % ww < x * cw + cw) || (i / ww == y * ch + py && i % ww
                                < x * cw + px) {
                                raster_color(g, ww, wh, i % ww, i / ww)
                            } else {
                                0u32
                            }),
                    decreases cw - px,
                {
                    let color = if px == 0 || py == 0 {
                        BORDER_COLOR
                    } else if alive {
                        ALIVE_COLOR
                    } else {
                        DEAD_COLOR
                    };
                    proof {
                        assert(y * ch + py < gh * ch);
                        assert(x * cw + px < gw * cw);
                        assert(row_base * ww <= (wh - 1) * ww) by {
                            lemma_mul_inequality(row_base as int, wh - 1, ww);
                        }
                        assert((wh - 1) * ww + ww == wh * ww) by (nonlinear_arith);
                        assert(wh * ww == ww * wh) by (nonlinear_arith);
                    }
                    let col = x * cell_width + px;
                    let pixel_index = row_base * window_width + col;
                    buffer[pixel_index] = color;
                    proof {
                        let ii = pixel_index as int;
                        let rr = y * ch + py;
                        let cc = x * cw + px;
                        lemma_fundamental_div_mod_converse(ii, ww, rr, cc);
                        lemma_fundamental_div_mod_converse(cc, cw, x as int, px as int);
                        lemma_fundamental_div_mod_converse(rr, ch, y as int, py as int);
                        assert(raster_color(g, ww, wh, cc, rr) == color);
                        assert forall|i: int| 0 <= i < buffer@.len() implies #[trigger] buffer@[i]
                            == (if i / ww < y * ch || (i / ww < (y + 1) * ch && i % ww < x * cw)
                                || (i / ww < y * ch + py && i % ww < x * cw + cw) || (i / ww == y
                                * ch + py && i % ww < x * cw + (px + 1)) {
                            raster_color(g, ww, wh, i % ww, i / ww)
                        } else {
                            0u32
                        }) by {
                            if i != ii && i / ww == rr && i % ww == cc {
                                lemma_fundamental_div_mod(i, ww);
                                assert(ww * rr == rr * ww) by (nonlinear_arith);
                                assert(false);
                            }
                        }
                    }
                    px += 1;
                }
                py += 1;
            }
            x += 1;
        }
        proof {
            assert(y * ch + ch == (y + 1) * ch) by (nonlinear_arith);
            assert((y + 1) * ch <= gh * ch) by {
                lemma_mul_inequality(y + 1, gh, ch);
            }
            assert forall|i: int| 0 <= i < buffer@.len() implies #[trigger] buffer@[i] == (if i
                / ww < (y + 1) * ch {
                raster_color(g, ww, wh, i % ww, i / ww)
            } else {
                0u32
            }) by {
                assert(buffer@[i] == (if i / ww < y * ch || (i / ww < (y + 1) * ch && i % ww < gw
                    * cw) {
                    raster_color(g, ww, wh, i % ww, i / ww)
                } else {
                    0u32
                }));
                if i / ww < (y + 1) * ch && !(i / ww < y * ch) && !(i % ww < gw * cw) {
                    assert(raster_color(g, ww, wh, i % ww, i / ww) == DEAD_COLOR);
                }
            }
        }
        y += 1;
    }
    buffer
}

/// Checked entry point for the rasterizer: refuses a degenerate grid with
/// `InvalidDimension` and a jagged one with `ShapeMismatch`, and otherwise
/// returns the pixel buffer.
pub fn try_create_pixel_buffer(
    grid: &Vec<Vec<bool>>,
    window_width: usize,
    window_height: usize,
) -> (r: Result<Vec<u32>, LifeError>)
    requires
        window_width * window_height <= usize::MAX,
    ensures
        r is Err <==> !grid_wf(grid.deep_view()),
        r matches Err(e) ==> e == (if grid@.len() == 0 || grid.deep_view()[0].len() == 0 {
            LifeError::InvalidDimension
        } else {
            LifeError::ShapeMismatch
        }),
        r matches Ok(buffer) ==> rasterized(
            grid.deep_view(),
            window_width as int,
            window_height as int,
            buffer@,
        ),
{
    match check_shape(grid) {
        Ok(()) => Ok(create_pixel_buffer(grid, window_width, window_height)),
        Err(e) => Err(e),
    }
}

/// For every painted cell block, the pixel at the block's local (0, 0)
/// offset — the block's top-left corner — is the border color, never the
/// cell's alive/dead color.
pub proof fn lemma_block_origin_is_border(
    g: Seq<Seq<bool>>,
    ww: int,
    wh: int,
    buf: Seq<u32>,
    y: int,
    x: int,
)
    requires
        grid_wf(g),
        rasterized(g, ww, wh, buf),
        0 <= ww,
        0 <= wh,
        0 <= y < g.len(),
        0 <= x < g[0].len(),
        cell_width_of(g, ww) > 0,
        cell_height_of(g, wh) > 0,
    ensures
        0 <= block_origin_index(g, ww, wh, y, x) < buf.len(),
        buf[block_origin_index(g, ww, wh, y, x)] == BORDER_COLOR,
{
    let gh = g.len() as int;
    let gw = g[0].len() as int;
    let cw = ww / gw;
    let ch = wh / gh;
    let rr = y * ch;
    let cc = x * cw;
    lemma_fundamental_div_mod(ww, gw);
    lemma_mod_bound(ww, gw);
    lemma_fundamental_div_mod(wh, gh);
    lemma_mod_bound(wh, gh);
    assert(gw * cw <= ww);
    assert(gh * ch <= wh);
    assert((y + 1) * ch <= gh * ch) by {
        lemma_mul_inequality(y + 1, gh, ch);
    }
    assert((x + 1) * cw <= gw * cw) by {
        lemma_mul_inequality(x + 1, gw, cw);
    }
    assert(y * ch + ch == (y + 1) * ch) by (nonlinear_arith);
    assert(x * cw + cw == (x + 1) * cw) by (nonlinear_arith);
    lemma_mul_nonnegative(y, ch);
    lemma_mul_nonnegative(x, cw);
    let ii = rr * ww + cc;
    assert(rr * ww <= (wh - 1) * ww) by {
        lemma_mul_inequality(rr, wh - 1, ww);
    }
    assert((wh - 1) * ww + ww == wh * ww) by (nonlinear_arith);
    assert(wh * ww == ww * wh) by (nonlinear_arith);
    lemma_fundamental_div_mod_converse(ii, ww, rr, cc);
    lemma_fundamental_div_mod_converse(cc, cw, x, 0);
    lemma_fundamental_div_mod_converse(rr, ch, y, 0);
    assert(buf[ii] == raster_color(g, ww, wh, cc, rr));
}

} // verus!
