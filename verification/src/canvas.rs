//! The fixed-size pixel buffer and the clipped compositing blit.
//!
//! A canvas is one `BMP_WIDTH` by `BMP_HEIGHT` row-major buffer of
//! 32-bit colours.  Drawing a bitmap into it clips the bitmap to the
//! canvas and copies only opaque source pixels; transparent source
//! pixels leave the destination untouched.

use vstd::prelude::*;
use vstd::math::{max, min};
use crate::bitmap::{bmp_height, bmp_pixel, bmp_wf, Bitmap, BitmapV};
use crate::game::{BMP_HEIGHT, BMP_WIDTH};

verus! {

/// A canvas holds exactly one pixel per buffer position.
pub open spec fn canvas_wf(c: Seq<u32>) -> bool {
    c.len() == BMP_WIDTH * BMP_HEIGHT
}

/// The column a buffer index addresses.
pub open spec fn col_of(k: int) -> int {
    k % (BMP_WIDTH as int)
}

/// The row a buffer index addresses.
pub open spec fn row_of(k: int) -> int {
    k / (BMP_WIDTH as int)
}

/// The colour a blit of bitmap `b` at `(x, y)` over canvas `c` leaves at
/// buffer index `k`: the source pixel where the clipped bitmap covers
/// the position with an opaque pixel, the old colour everywhere else.
pub open spec fn blit_pixel(c: Seq<u32>, b: BitmapV, x: int, y: int, k: int) -> u32 {
    let cx = col_of(k);
    let cy = row_of(k);
    if x <= cx < x + b.w && y <= cy < y + bmp_height(b) && bmp_pixel(b, cx - x, cy - y) != 0 {
        bmp_pixel(b, cx - x, cy - y)
    } else {
        c[k]
    }
}

/// The whole canvas after a blit of bitmap `b` at `(x, y)`.
pub open spec fn blit(c: Seq<u32>, b: BitmapV, x: int, y: int) -> Seq<u32> {
    Seq::new(c.len(), |k: int| blit_pixel(c, b, x, y, k))
}

/// The canvas after a blit, with only the first `lim` buffer positions
/// settled: the tail still shows the old canvas.
pub open spec fn blit_upto(c: Seq<u32>, b: BitmapV, x: int, y: int, lim: int) -> Seq<u32> {
    Seq::new(c.len(), |k: int| if k < lim {
        blit_pixel(c, b, x, y, k)
    } else {
        c[k]
    })
}

/// The area of the destination rectangle after clipping to the canvas,
/// independent of how many source pixels are opaque.
pub open spec fn clip_area(b: BitmapV, x: int, y: int) -> int {
    let dx = max(0, x);
    let dy = max(0, y);
    let dr = min(BMP_WIDTH as int, x + b.w);
    let db = min(BMP_HEIGHT as int, y + bmp_height(b));
    if dr <= dx || db <= dy {
        0
    } else {
        (dr - dx) * (db - dy)
    }
}

/// The colour at a canvas position, reading out-of-bounds positions as
/// transparent.
pub open spec fn canvas_pixel(c: Seq<u32>, x: int, y: int) -> u32 {
    if 0 <= x < BMP_WIDTH && 0 <= y < BMP_HEIGHT {
        c[y * (BMP_WIDTH as int) + x]
    } else {
        0
    }
}

/// An in-bounds row and column address their own buffer index.
proof fn lemma_coord_index(cx: int, cy: int)
    requires
        0 <= cx < BMP_WIDTH,
        0 <= cy < BMP_HEIGHT,
    ensures
        0 <= cy * (BMP_WIDTH as int) + cx < BMP_WIDTH * BMP_HEIGHT,
        col_of(cy * (BMP_WIDTH as int) + cx) == cx,
        row_of(cy * (BMP_WIDTH as int) + cx) == cy,
{
    let w = BMP_WIDTH as int;
    let h = BMP_HEIGHT as int;
    assert(cy * w + cx < w * h && cy * w >= 0) by (nonlinear_arith)
        requires
            0 <= cx < w,
            0 <= cy < h,
    ;
    vstd::arithmetic::div_mod::lemma_fundamental_div_mod_converse(cy * w + cx, w, cy, cx);
}

/// Every buffer index addresses an in-bounds row and column.
proof fn lemma_index_coord(k: int)
    requires
        0 <= k < BMP_WIDTH * BMP_HEIGHT,
    ensures
        0 <= col_of(k) < BMP_WIDTH,
        0 <= row_of(k) < BMP_HEIGHT,
        k == row_of(k) * (BMP_WIDTH as int) + col_of(k),
{
    let w = BMP_WIDTH as int;
    let h = BMP_HEIGHT as int;
    vstd::arithmetic::div_mod::lemma_fundamental_div_mod(k, w);
    vstd::arithmetic::div_mod::lemma_mod_bound(k, w);
    assert(k / w < h) by (nonlinear_arith)
        requires
            0 <= k < w * h,
            k == w * (k / w) + k % w,
            0 <= k % w < w,
    ;
    assert(k / w >= 0) by (nonlinear_arith)
        requires
            0 <= k,
            k == w * (k / w) + k % w,
            0 <= k % w < w,
    ;
}

/// One fixed-size pixel buffer, origin top-left, row-major.
pub struct Canvas {
    pixels: Vec<u32>,
}

impl View for Canvas {
    type V = Seq<u32>;

    closed spec fn view(&self) -> Seq<u32> {
        self.pixels@
    }
}

impl Canvas {
    /// A fully transparent canvas.
    pub fn new() -> (r: Canvas)
        ensures
            canvas_wf(r@),
            r@ =~= Seq::new((BMP_WIDTH * BMP_HEIGHT) as nat, |i: int| 0u32),
    {
        let mut pixels: Vec<u32> = Vec::new();
        let n: usize = (BMP_WIDTH * BMP_HEIGHT) as usize;
        let mut i: usize = 0;
        while i < n
            invariant
                i <= n,
                pixels@ =~= Seq::new(i as nat, |k: int| 0u32),
            decreases n - i,
        {
            pixels.push(0);
            i = i + 1;
        }
        Canvas { pixels }
    }

    /// The colour at a canvas position; out-of-bounds positions read as
    /// transparent.
    pub fn get_pixel(&self, x: usize, y: usize) -> (r: u32)
        requires
            canvas_wf(self@),
        ensures
            r == canvas_pixel(self@, x as int, y as int),
    {
        if x >= BMP_WIDTH as usize || y >= BMP_HEIGHT as usize {
            return 0;
        }
        proof {
            lemma_coord_index(x as int, y as int);
        }
        self.pixels[y * (BMP_WIDTH as usize) + x]
    }

    /// The raw row-major pixel buffer, for hosts that hand frames on.
    pub fn buffer(&self) -> (r: &Vec<u32>)
        ensures
            r@ == self@,
    {
        &self.pixels
    }

    /// Overwrites this canvas with the contents of another.
    pub fn copy_from(&mut self, other: &Canvas)
        ensures
            final(self)@ == other@,
    {
        let n = other.pixels.len();
        let mut pixels: Vec<u32> = Vec::new();
        let mut i: usize = 0;
        while i < n
            invariant
                i <= n,
                n == other.pixels@.len(),
                pixels@ =~= other.pixels@.take(i as int),
            decreases n - i,
        {
            pixels.push(other.pixels[i]);
            i = i + 1;
        }
        proof {
            assert(other.pixels@.take(n as int) =~= other.pixels@);
        }
        self.pixels = pixels;
    }

    /// Blits the bitmap's top-left at `(x, y)`, clipped to the canvas.
    /// Only opaque source pixels are copied; transparent source pixels
    /// leave the destination untouched.  Returns the area of the
    /// clipped destination rectangle, which counts transparent source
    /// pixels too.
    pub fn draw(&mut self, x: i32, y: i32, bmp: &Bitmap) -> (r: usize)
        requires
            canvas_wf(old(self)@),
            bmp_wf(bmp@),
        ensures
            canvas_wf(final(self)@),
            final(self)@ == blit(old(self)@, bmp@, x as int, y as int),
            r == clip_area(bmp@, x as int, y as int),
    {
        let ghost c0 = self@;
        let ghost bv = bmp@;
        let bw = bmp.width();
        let bh = bmp.height();
        let wi = BMP_WIDTH as i64;
        let hi = BMP_HEIGHT as i64;
        let dest_x: i64 = if x > 0 {
            x as i64
        } else {
            0
        };
        let dest_y: i64 = if y > 0 {
            y as i64
        } else {
            0
        };
        let dest_right: i64 = if bw > u32::MAX as usize {
            wi
        } else if (x as i64) + (bw as i64) > wi {
            wi
        } else {
            (x as i64) + (bw as i64)
        };
        let dest_bottom: i64 = if bh > u32::MAX as usize {
            hi
        } else if (y as i64) + (bh as i64) > hi {
            hi
        } else {
            (y as i64) + (bh as i64)
        };
        proof {
            assert(dest_x == max(0, x as int));
            assert(dest_y == max(0, y as int));
            assert(dest_right == min(BMP_WIDTH as int, x + bv.w));
            assert(dest_bottom == min(BMP_HEIGHT as int, y + bmp_height(bv)));
        }
        if dest_right <= dest_x || dest_bottom <= dest_y {
            proof {
                assert forall|k: int| 0 <= k < c0.len() implies blit_pixel(c0, bv, x as int, y as int, k)
                    == c0[k] by {
                    lemma_index_coord(k);
                }
                assert(blit(c0, bv, x as int, y as int) =~= c0);
            }
            return 0;
        }
        let dw: usize = (dest_right - dest_x) as usize;
        let dh: usize = (dest_bottom - dest_y) as usize;
        let dxu: usize = dest_x as usize;
        let dyu: usize = dest_y as usize;
        let mut i: usize = 0;
        proof {
            assert(self@ =~= blit_upto(c0, bv, x as int, y as int, (dyu as int) * (BMP_WIDTH as int)))
                by {
                assert forall|k: int| 0 <= k < c0.len() && k < (dyu as int) * (BMP_WIDTH as int)
                    implies blit_pixel(c0, bv, x as int, y as int, k) == c0[k] by {
                    lemma_index_coord(k);
                    assert(row_of(k) < dyu) by {
                        if row_of(k) >= dyu {
                            assert(k >= (dyu as int) * (BMP_WIDTH as int)) by (nonlinear_arith)
                                requires
                                    row_of(k) >= dyu as int,
                                    k == row_of(k) * (BMP_WIDTH as int) + col_of(k),
                                    col_of(k) >= 0,
                            ;
                        }
                    }
                }
            }
        }
        while i < dh
            invariant
                i <= dh,
                bv.w <= usize::MAX,
                bmp_height(bv) <= usize::MAX,
                canvas_wf(self@),
                canvas_wf(c0),
                bmp_wf(bv),
                bv == bmp@,
                dxu == max(0, x as int),
                dyu == max(0, y as int),
                dxu + dw == min(BMP_WIDTH as int, x + bv.w),
                dyu + dh == min(BMP_HEIGHT as int, y + bmp_height(bv)),
                dw >= 1 && dh >= 1,
                dxu + dw <= BMP_WIDTH && dyu + dh <= BMP_HEIGHT,
                self@ == blit_upto(c0, bv, x as int, y as int, (dyu + i) * (BMP_WIDTH as int)),
            decreases dh - i,
        {
            let cy = dyu + i;
            let mut j: usize = 0;
            proof {
                assert(blit_upto(c0, bv, x as int, y as int, (dyu + i) * (BMP_WIDTH as int)) =~=
                    blit_upto(
                    c0,
                    bv,
                    x as int,
                    y as int,
                    (dyu + i) * (BMP_WIDTH as int) + dxu as int,
                )) by {
                    assert forall|k: int|
                        0 <= k < c0.len() && (dyu + i) * (BMP_WIDTH as int) <= k < (dyu + i) * (
                        BMP_WIDTH as int) + dxu as int implies blit_pixel(
                        c0,
                        bv,
                        x as int,
                        y as int,
                        k,
                    ) == c0[k] by {
                        lemma_index_coord(k);
                        lemma_row_range(k, (dyu + i) as int, dxu as int);
                        assert(col_of(k) < x);
                    }
                }
            }
            while j < dw
                invariant
                    j <= dw,
                    i < dh,
                    cy == dyu + i,
                    bv.w <= usize::MAX,
                    bmp_height(bv) <= usize::MAX,
                    canvas_wf(self@),
                    canvas_wf(c0),
                    bmp_wf(bv),
                    bv == bmp@,
                    dxu == max(0, x as int),
                    dyu == max(0, y as int),
                    dxu + dw == min(BMP_WIDTH as int, x + bv.w),
                    dyu + dh == min(BMP_HEIGHT as int, y + bmp_height(bv)),
                    dw >= 1 && dh >= 1,
                    dxu + dw <= BMP_WIDTH && dyu + dh <= BMP_HEIGHT,
                    self@ == blit_upto(
                        c0,
                        bv,
                        x as int,
                        y as int,
                        (dyu + i) * (BMP_WIDTH as int) + dxu + j,
                    ),
                decreases dw - j,
            {
                let cx = dxu + j;
                let ci = (dyu + i) * (BMP_WIDTH as usize) + cx;
                proof {
                    lemma_coord_index(cx as int, (dyu + i) as int);
                }
                let px = bmp.get_pixel(((cx as i64) - (x as i64)) as usize, ((cy as i64) - (y as i64)) as usize);
                if px != 0 {
                    self.pixels.set(ci, px);
                }
                proof {
                    let lim = (dyu + i) as int * (BMP_WIDTH as int) + dxu + j;
                    assert(ci as int == lim);
                    assert(blit_pixel(c0, bv, x as int, y as int, lim) == if px != 0 {
                        px
                    } else {
                        c0[lim]
                    });
                    assert(self@ =~= blit_upto(c0, bv, x as int, y as int, lim + 1));
                }
                j = j + 1;
            }
            proof {
                let lim = (dyu + i) as int * (BMP_WIDTH as int) + dxu + dw;
                let next = (dyu + i + 1) as int * (BMP_WIDTH as int);
                assert(next == (dyu + i) as int * (BMP_WIDTH as int) + BMP_WIDTH) by (nonlinear_arith)
                    requires
                        next == ((dyu + i) as int + 1) * (BMP_WIDTH as int),
                ;
                assert(blit_upto(c0, bv, x as int, y as int, lim) =~= blit_upto(
                    c0,
                    bv,
                    x as int,
                    y as int,
                    next,
                )) by {
                    assert forall|k: int| 0 <= k < c0.len() && lim <= k < next implies blit_pixel(
                        c0,
                        bv,
                        x as int,
                        y as int,
                        k,
                    ) == c0[k] by {
                        lemma_index_coord(k);
                        lemma_row_range2(k, (dyu + i) as int, (dxu + dw) as int);
                        assert(col_of(k) >= dxu + dw);
                        assert(col_of(k) >= x + bv.w || col_of(k) >= BMP_WIDTH);
                    }
                }
            }
            i = i + 1;
        }
        proof {
            let fin = (dyu + dh) as int * (BMP_WIDTH as int);
            assert(blit_upto(c0, bv, x as int, y as int, fin) =~= blit(c0, bv, x as int, y as int))
                by {
                assert forall|k: int| 0 <= k < c0.len() && k >= fin implies blit_pixel(
                    c0,
                    bv,
                    x as int,
                    y as int,
                    k,
                ) == c0[k] by {
                    lemma_index_coord(k);
                    assert(row_of(k) >= dyu + dh) by {
                        if row_of(k) < (dyu + dh) as int {
                            assert(k < fin) by (nonlinear_arith)
                                requires
                                    row_of(k) < (dyu + dh) as int,
                                    k == row_of(k) * (BMP_WIDTH as int) + col_of(k),
                                    col_of(k) < BMP_WIDTH as int,
                                    fin == (dyu + dh) as int * (BMP_WIDTH as int),
                            ;
                        }
                    }
                    assert(row_of(k) >= y + bmp_height(bv) || row_of(k) >= BMP_HEIGHT);
                }
            }
        }
        proof {
            assert(dw * dh == clip_area(bv, x as int, y as int));
            assert(dw * dh <= BMP_WIDTH * BMP_HEIGHT) by (nonlinear_arith)
                requires
                    0 <= dw <= BMP_WIDTH,
                    0 <= dh <= BMP_HEIGHT,
            ;
        }
        let area = dw * dh;
        area
    }
}

/// A buffer index in the given row, before the given column, addresses
/// a column before it.
proof fn lemma_row_range(k: int, row: int, col: int)
    requires
        0 <= k,
        k == row_of(k) * (BMP_WIDTH as int) + col_of(k),
        0 <= col_of(k) < BMP_WIDTH,
        row * (BMP_WIDTH as int) <= k < row * (BMP_WIDTH as int) + col,
        col <= BMP_WIDTH,
    ensures
        row_of(k) == row,
        col_of(k) < col,
{
    assert(row_of(k) == row && col_of(k) < col) by (nonlinear_arith)
        requires
            k == row_of(k) * (BMP_WIDTH as int) + col_of(k),
            0 <= col_of(k) < BMP_WIDTH,
            row * (BMP_WIDTH as int) <= k < row * (BMP_WIDTH as int) + col,
            col <= BMP_WIDTH,
    ;
}

/// A buffer index in the given row, at or after the given column,
/// addresses a column at or after it.
proof fn lemma_row_range2(k: int, row: int, col: int)
    requires
        0 <= k,
        k == row_of(k) * (BMP_WIDTH as int) + col_of(k),
        0 <= col_of(k) < BMP_WIDTH,
        row * (BMP_WIDTH as int) + col <= k < (row + 1) * (BMP_WIDTH as int),
        0 <= col <= BMP_WIDTH,
    ensures
        row_of(k) == row,
        col_of(k) >= col,
{
    assert(row_of(k) == row && col_of(k) >= col) by (nonlinear_arith)
        requires
            k == row_of(k) * (BMP_WIDTH as int) + col_of(k),
            0 <= col_of(k) < BMP_WIDTH,
            row * (BMP_WIDTH as int) + col <= k < (row + 1) * (BMP_WIDTH as int),
            0 <= col <= BMP_WIDTH,
    ;
}

} // verus!
