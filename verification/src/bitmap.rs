//! Immutable pixel grids and the pixel-exact overlap test.
//!
//! A bitmap is a flat row-major sequence of 32-bit colour values plus a
//! width; its height is the pixel count divided by the width, which must
//! divide evenly.  Colour value 0 is transparent: never drawn, never
//! counted as present by the overlap test.

use vstd::prelude::*;
use vstd::string::StringSliceAdditionalSpecFns;
use crate::color::{map_color, map_color2, spec_map_color, spec_map_color2};
use crate::geom::Rect;
use crate::text::{
    all_colors, all_eq_to, closed_widths, lemma_parse_step, lemma_positives_in_base,
    lemma_positives_push, lemma_row_widths_concat, lemma_row_widths_len,
    lemma_two_widths_inconsistent, parse_pixels, parse_width, pos_widths, positives,
    row_widths, rows_consistent, sig_bytes, BYTE_CR, BYTE_NEWLINE, BYTE_SPACE,
};
use crate::EngineError;

verus! {

/// The mathematical content of a [`Bitmap`]: its pixels and its width.
pub struct BitmapV {
    pub pixels: Seq<u32>,
    pub w: nat,
}

/// A bitmap is well formed when its pixel count is an exact multiple of
/// its width; a width of zero forces an empty bitmap.
pub open spec fn bmp_wf(b: BitmapV) -> bool {
    if b.w == 0 {
        b.pixels.len() == 0
    } else {
        b.pixels.len() % b.w == 0
    }
}

/// The height of a bitmap: pixel count divided by width.
pub open spec fn bmp_height(b: BitmapV) -> nat {
    if b.w == 0 {
        0
    } else {
        b.pixels.len() / b.w
    }
}

/// The pixel at column `x`, row `y`.  Meaningful only in bounds.
pub open spec fn bmp_pixel(b: BitmapV, x: int, y: int) -> u32 {
    b.pixels[y * b.w + x]
}

/// The pixel at column `x`, row `y`, reading out-of-bounds positions as
/// transparent.
pub open spec fn bmp_pixel_or_transparent(b: BitmapV, x: int, y: int) -> u32 {
    if 0 <= x < b.w && 0 <= y < bmp_height(b) {
        bmp_pixel(b, x, y)
    } else {
        0
    }
}

/// Both bitmaps carry an opaque pixel at offset `(dx, dy)` into their
/// respective local rectangles.
pub open spec fn spec_overlap_at(a: BitmapV, ca: Rect, b: BitmapV, cb: Rect, dx: int, dy: int) -> bool {
    bmp_pixel(a, ca.x + dx, ca.y + dy) != 0 && bmp_pixel(b, cb.x + dx, cb.y + dy) != 0
}

/// Somewhere inside the two equal-size local rectangles the bitmaps
/// carry opaque pixels at the same offset.
pub open spec fn spec_overlaps(a: BitmapV, ca: Rect, b: BitmapV, cb: Rect) -> bool {
    exists|dx: int, dy: int|
        0 <= dx < ca.w && 0 <= dy < ca.h && spec_overlap_at(a, ca, b, cb, dx, dy)
}

/// The local rectangle lies inside the bitmap.
pub open spec fn clip_in_bounds(b: BitmapV, c: Rect) -> bool {
    0 <= c.x && 0 <= c.y && c.x + c.w <= b.w && c.y + c.h <= bmp_height(b)
}

/// An immutable-after-construction pixel grid.
pub struct Bitmap {
    pixels: Vec<u32>,
    w: usize,
}

impl View for Bitmap {
    type V = BitmapV;

    closed spec fn view(&self) -> BitmapV {
        BitmapV { pixels: self.pixels@, w: self.w as nat }
    }
}

/// A vector holding `n` copies of `v`.
pub(crate) fn filled(n: usize, v: u32) -> (r: Vec<u32>)
    ensures
        r@ =~= Seq::new(n as nat, |i: int| v),
{
    let mut r: Vec<u32> = Vec::new();
    let mut i: usize = 0;
    while i < n
        invariant
            i <= n,
            r@ =~= Seq::new(i as nat, |k: int| v),
        decreases n - i,
    {
        r.push(v);
        i = i + 1;
    }
    r
}

impl Bitmap {
    /// The bitmap's own rectangle: origin corner, full extent.  Extents
    /// beyond `u32::MAX` saturate.
    pub fn rect(&self) -> (r: Rect)
        ensures
            r.x == 0 && r.y == 0,
            r.w == if self@.w > u32::MAX { u32::MAX as nat } else { self@.w },
            r.h == if bmp_height(self@) > u32::MAX { u32::MAX as nat } else { bmp_height(self@) },
    {
        let h = self.height();
        let wc: u32 = if self.w > u32::MAX as usize {
            u32::MAX
        } else {
            self.w as u32
        };
        let hc: u32 = if h > u32::MAX as usize {
            u32::MAX
        } else {
            h as u32
        };
        Rect { x: 0, y: 0, w: wc, h: hc }
    }

    /// A `w` by `h` bitmap filled solid with the colour the glyph byte
    /// `color` selects as a fill.
    pub fn new_with_color(w: usize, h: usize, color: u8) -> (r: Bitmap)
        requires
            w * h <= usize::MAX,
        ensures
            r@.w == w,
            r@.pixels =~= Seq::new((w * h) as nat, |i: int| spec_map_color2(color)),
            bmp_wf(r@),
            bmp_height(r@) == if w == 0 { 0int } else { h as int },
    {
        let c = map_color2(color);
        let n = w * h;
        let pixels = filled(n, c);
        proof {
            if w != 0 {
                assert((w as int * h as int) % (w as int) == 0) by {
                    vstd::arithmetic::div_mod::lemma_mod_multiples_basic(h as int, w as int);
                    assert(h * w == w * h) by {
                        vstd::arithmetic::mul::lemma_mul_is_commutative(h as int, w as int);
                    }
                }
                assert((w as int * h as int) / (w as int) == h as int) by {
                    vstd::arithmetic::div_mod::lemma_div_multiples_vanish(h as int, w as int);
                    assert(h * w == w * h) by {
                        vstd::arithmetic::mul::lemma_mul_is_commutative(h as int, w as int);
                    }
                }
            }
        }
        Bitmap { pixels, w }
    }

    /// A bitmap over an existing pixel vector.  The pixel count must be
    /// an exact multiple of the width.
    pub fn new_with_bmp(pixels: Vec<u32>, w: usize) -> (r: Bitmap)
        requires
            w == 0 ==> pixels@.len() == 0,
            w != 0 ==> pixels@.len() % (w as nat) == 0,
        ensures
            r@.pixels == pixels@,
            r@.w == w,
            bmp_wf(r@),
    {
        Bitmap { pixels, w }
    }

    /// A fully transparent `w` by `h` bitmap.
    pub fn new(w: usize, h: usize) -> (r: Bitmap)
        requires
            w * h <= usize::MAX,
        ensures
            r@.w == w,
            r@.pixels =~= Seq::new((w * h) as nat, |i: int| 0u32),
            bmp_wf(r@),
    {
        let n = w * h;
        let pixels = filled(n, 0);
        proof {
            if w != 0 {
                assert((w as int * h as int) % (w as int) == 0) by {
                    vstd::arithmetic::div_mod::lemma_mod_multiples_basic(h as int, w as int);
                    assert(h * w == w * h) by {
                        vstd::arithmetic::mul::lemma_mul_is_commutative(h as int, w as int);
                    }
                }
            }
        }
        Bitmap { pixels, w }
    }

    /// Replaces the bitmap's contents.  The new pixel count must be an
    /// exact multiple of the new width.
    pub fn set_data(&mut self, w: usize, src: Vec<u32>)
        requires
            w == 0 ==> src@.len() == 0,
            w != 0 ==> src@.len() % (w as nat) == 0,
        ensures
            final(self)@.pixels == src@,
            final(self)@.w == w,
            bmp_wf(final(self)@),
    {
        self.w = w;
        self.pixels = src;
    }

    /// The bitmap's width in pixels.
    pub fn width(&self) -> (r: usize)
        ensures
            r == self@.w,
    {
        self.w
    }

    /// The bitmap's height in pixels: pixel count divided by width.
    pub fn height(&self) -> (r: usize)
        ensures
            r == bmp_height(self@),
    {
        if self.w == 0 {
            return 0;
        }
        self.pixels.len() / self.w
    }

    /// The pixel at column `x`, row `y`.
    pub fn get_pixel(&self, x: usize, y: usize) -> (r: u32)
        requires
            bmp_wf(self@),
            x < self@.w,
            y < bmp_height(self@),
        ensures
            r == bmp_pixel(self@, x as int, y as int),
    {
        let n = self.pixels.len();
        proof {
            lemma_pixel_index_in_bounds(self@, x as int, y as int);
        }
        self.pixels[y * self.w + x]
    }

    /// The pixel at a signed position, reading everything outside the
    /// bitmap as transparent.
    pub fn pixel_or_transparent(&self, x: i64, y: i64) -> (r: u32)
        requires
            bmp_wf(self@),
        ensures
            r == bmp_pixel_or_transparent(self@, x as int, y as int),
    {
        if x < 0 || y < 0 {
            return 0;
        }
        let h = self.height();
        if (x as u64) >= (self.w as u64) || (y as u64) >= (h as u64) {
            return 0;
        }
        self.get_pixel(x as usize, y as usize)
    }

    /// Scans two equal-size local rectangles and reports whether the two
    /// bitmaps carry opaque pixels at any common offset.  Cost is
    /// proportional to the rectangle area.
    pub fn test_overlap(&self, rhs: &Bitmap, clip1: &Rect, clip2: &Rect) -> (r: bool)
        requires
            bmp_wf(self@),
            bmp_wf(rhs@),
            clip1.w == clip2.w,
            clip1.h == clip2.h,
            clip_in_bounds(self@, *clip1),
            clip_in_bounds(rhs@, *clip2),
        ensures
            r == spec_overlaps(self@, *clip1, rhs@, *clip2),
    {
        let w = clip1.w;
        let h = clip1.h;
        let n1 = self.pixels.len();
        let n2 = rhs.pixels.len();
        proof {
            if self@.w != 0 {
                vstd::arithmetic::div_mod::lemma_div_nonincreasing(
                    self@.pixels.len() as int,
                    self@.w as int,
                );
            }
            if rhs@.w != 0 {
                vstd::arithmetic::div_mod::lemma_div_nonincreasing(
                    rhs@.pixels.len() as int,
                    rhs@.w as int,
                );
            }
            assert(bmp_height(self@) <= n1 && bmp_height(rhs@) <= n2);
        }
        let mut dy: u32 = 0;
        while dy < h
            invariant
                dy <= h,
                bmp_wf(self@),
                bmp_wf(rhs@),
                clip1.w == w && clip2.w == w,
                clip1.h == h && clip2.h == h,
                clip_in_bounds(self@, *clip1),
                clip_in_bounds(rhs@, *clip2),
                bmp_height(self@) <= usize::MAX,
                bmp_height(rhs@) <= usize::MAX,
                forall|qx: int, qy: int|
                    0 <= qx < w && 0 <= qy < dy ==> !spec_overlap_at(self@, *clip1, rhs@, *clip2, qx, qy),
            decreases h - dy,
        {
            let mut dx: u32 = 0;
            while dx < w
                invariant
                    dx <= w,
                    dy < h,
                    bmp_wf(self@),
                    bmp_wf(rhs@),
                    clip1.w == w && clip2.w == w,
                    clip1.h == h && clip2.h == h,
                    clip_in_bounds(self@, *clip1),
                    clip_in_bounds(rhs@, *clip2),
                    bmp_height(self@) <= usize::MAX,
                    bmp_height(rhs@) <= usize::MAX,
                    forall|qx: int, qy: int|
                        0 <= qx < w && 0 <= qy < dy ==> !spec_overlap_at(self@, *clip1, rhs@, *clip2, qx, qy),
                    forall|qx: int|
                        0 <= qx < dx ==> !spec_overlap_at(self@, *clip1, rhs@, *clip2, qx, dy as int),
                decreases w - dx,
            {
                let x1 = ((clip1.x as i64) + (dx as i64)) as usize;
                let y1 = ((clip1.y as i64) + (dy as i64)) as usize;
                let x2 = ((clip2.x as i64) + (dx as i64)) as usize;
                let y2 = ((clip2.y as i64) + (dy as i64)) as usize;
                proof {
                    assert(x1 == clip1.x + dx && y1 == clip1.y + dy);
                    assert(x2 == clip2.x + dx && y2 == clip2.y + dy);
                }
                if self.get_pixel(x1, y1) != 0 && rhs.get_pixel(x2, y2) != 0 {
                    proof {
                        assert(spec_overlap_at(self@, *clip1, rhs@, *clip2, dx as int, dy as int));
                    }
                    return true;
                }
                dx = dx + 1;
            }
            dy = dy + 1;
        }
        false
    }
}

impl Bitmap {
    /// Parses bitmap text whose width is taken from its first non-empty
    /// row.  Fails with [`EngineError::BadFormat`] exactly when two
    /// non-empty rows have different glyph counts.
    pub fn new_from_string_without_size(data: &str) -> (r: Result<Bitmap, EngineError>)
        ensures
            r is Ok <==> rows_consistent(data.spec_bytes()),
            r matches Ok(b) ==> b@.w == parse_width(data.spec_bytes()) && b@.pixels
                == parse_pixels(data.spec_bytes()) && bmp_wf(b@),
            r matches Err(e) ==> e == EngineError::BadFormat,
    {
        let bytes: &[u8] = data.as_bytes();
        let n = bytes.len();
        let ghost all: Seq<u8> = data.spec_bytes();
        let mut pixels: Vec<u32> = Vec::new();
        let mut width: usize = 0;
        let mut cur: usize = 0;
        let mut i: usize = 0;
        while i < n
            invariant
                i <= n,
                n == all.len(),
                bytes@ == all,
                all == data.spec_bytes(),
                cur <= i,
                row_widths(all.take(i as int)).last() == cur,
                row_widths(all.take(i as int)).len() >= 1,
                width == 0 ==> positives(closed_widths(all.take(i as int))).len() == 0 && pixels@.len()
                    == cur,
                width > 0 ==> positives(closed_widths(all.take(i as int))).len() >= 1 && all_eq_to(
                    positives(closed_widths(all.take(i as int))),
                    width as int,
                ) && pixels@.len() == positives(closed_widths(all.take(i as int))).len() * width
                    + cur,
                pixels@ == parse_pixels(all.take(i as int)),
            decreases n - i,
        {
            let b = bytes[i];
            let ghost pfx = all.take(i as int);
            let ghost pfx2 = all.take(i as int + 1);
            proof {
                assert(pfx2 =~= pfx.push(all[i as int]));
                lemma_parse_step(pfx, all[i as int]);
                lemma_row_widths_len(pfx);
                assert(row_widths(pfx) =~= closed_widths(pfx).push(cur as int));
            }
            if b == BYTE_NEWLINE {
                proof {
                    assert(closed_widths(pfx2) =~= row_widths(pfx));
                    lemma_positives_push(closed_widths(pfx), cur as int);
                }
                if cur > 0 {
                    if width == 0 {
                        width = cur;
                    } else if cur != width {
                        proof {
                            let rest = all.skip(i as int + 1);
                            assert(all =~= pfx2 + rest);
                            lemma_row_widths_concat(pfx2, rest);
                            let cw = closed_widths(pfx2);
                            lemma_positives_in_base(closed_widths(pfx), 0);
                            let i1 = choose|k: int|
                                0 <= k < closed_widths(pfx).len() && #[trigger] closed_widths(
                                    pfx,
                                )[k] == positives(closed_widths(pfx))[0];
                            let i2 = cw.len() - 1;
                            assert(cw[i1] == width);
                            assert(cw[i2] == cur);
                            assert(row_widths(all)[i1] == width && row_widths(all)[i2] == cur);
                            lemma_two_widths_inconsistent(all, i1, i2);
                        }
                        return Result::Err(EngineError::BadFormat);
                    } else {
                        proof {
                            let k = positives(closed_widths(pfx)).len() as int;
                            assert((k + 1) * width == k * width + width) by (nonlinear_arith);
                        }
                    }
                }
                cur = 0;
            } else if b == BYTE_CR || b == BYTE_SPACE {
            } else {
                let c = map_color(&b);
                pixels.push(c);
                cur = cur + 1;
                proof {
                    assert(closed_widths(pfx2) =~= closed_widths(pfx));
                    assert(row_widths(pfx2).last() == cur as int);
                    assert(sig_bytes(pfx2) =~= sig_bytes(pfx).push(all[i as int]));
                    assert(parse_pixels(pfx2) =~= parse_pixels(pfx).push(
                        spec_map_color(all[i as int]),
                    ));
                }
            }
            i = i + 1;
        }
        proof {
            assert(all.take(n as int) =~= all);
            lemma_row_widths_len(all);
            assert(row_widths(all) =~= closed_widths(all).push(cur as int));
            lemma_positives_push(closed_widths(all), cur as int);
        }
        let ghost m = positives(closed_widths(all)).len() as int;
        let ghost width0 = width as int;
        if cur > 0 {
            if width == 0 {
                width = cur;
            } else if cur != width {
                proof {
                    lemma_positives_in_base(closed_widths(all), 0);
                    let i1 = choose|k: int|
                        0 <= k < closed_widths(all).len() && #[trigger] closed_widths(all)[k]
                            == positives(closed_widths(all))[0];
                    let i2 = row_widths(all).len() - 1;
                    assert(row_widths(all)[i1] == width);
                    assert(row_widths(all)[i2] == cur);
                    lemma_two_widths_inconsistent(all, i1, i2);
                }
                return Result::Err(EngineError::BadFormat);
            }
        }
        proof {
            let p = pos_widths(all);
            if cur > 0 {
                assert(p =~= positives(closed_widths(all)).push(cur as int));
                if width0 == 0 {
                    assert(p.len() == 1);
                    assert(pixels@.len() == width);
                    assert(pixels@.len() == p.len() * width) by (nonlinear_arith)
                        requires
                            p.len() == 1,
                            pixels@.len() == width,
                    ;
                } else {
                    assert(p.len() == m + 1);
                    assert(pixels@.len() == m * width + width);
                    assert(pixels@.len() == p.len() * width) by (nonlinear_arith)
                        requires
                            p.len() == m + 1,
                            pixels@.len() == m * width + width,
                    ;
                }
            } else {
                assert(p =~= positives(closed_widths(all)));
                if width0 == 0 {
                    assert(pixels@.len() == 0);
                } else {
                    assert(p.len() == m);
                    assert(pixels@.len() == m * width);
                    assert(pixels@.len() == p.len() * width) by (nonlinear_arith)
                        requires
                            p.len() == m,
                            pixels@.len() == m * width,
                    ;
                }
            }
            assert(rows_consistent(all));
            if width > 0 {
                assert(p[0] == width);
                assert(pixels@.len() % (width as nat) == 0) by {
                    vstd::arithmetic::div_mod::lemma_mod_multiples_basic(
                        p.len() as int,
                        width as int,
                    );
                    assert(pixels@.len() == p.len() * width);
                }
            } else {
                assert(pixels@.len() == 0);
            }
        }
        Result::Ok(Bitmap { pixels, w: width })
    }

    /// Parses bitmap text whose glyph count is known to be exactly
    /// `w * h`: the glyphs in order, each mapped to its colour.
    pub fn new_from_string(data: &str, w: usize, h: usize) -> (r: Bitmap)
        requires
            sig_bytes(data.spec_bytes()).len() == w * h,
        ensures
            r@.w == w,
            r@.pixels == parse_pixels(data.spec_bytes()),
            bmp_wf(r@),
    {
        let bytes: &[u8] = data.as_bytes();
        let n = bytes.len();
        let ghost all: Seq<u8> = data.spec_bytes();
        let mut pixels: Vec<u32> = Vec::new();
        let mut i: usize = 0;
        while i < n
            invariant
                i <= n,
                n == all.len(),
                bytes@ == all,
                all == data.spec_bytes(),
                pixels@ == parse_pixels(all.take(i as int)),
                pixels@.len() == sig_bytes(all.take(i as int)).len(),
            decreases n - i,
        {
            let b = bytes[i];
            let ghost pfx = all.take(i as int);
            let ghost pfx2 = all.take(i as int + 1);
            proof {
                assert(pfx2 =~= pfx.push(all[i as int]));
                lemma_parse_step(pfx, all[i as int]);
            }
            if b != BYTE_NEWLINE && b != BYTE_CR && b != BYTE_SPACE {
                let c = map_color(&b);
                pixels.push(c);
                proof {
                    assert(parse_pixels(pfx2) =~= parse_pixels(pfx).push(
                        spec_map_color(all[i as int]),
                    ));
                }
            }
            i = i + 1;
        }
        proof {
            assert(all.take(n as int) =~= all);
            if w != 0 {
                assert((w as int * h as int) % (w as int) == 0) by {
                    vstd::arithmetic::div_mod::lemma_mod_multiples_basic(h as int, w as int);
                    vstd::arithmetic::mul::lemma_mul_is_commutative(h as int, w as int);
                }
            }
        }
        Bitmap { pixels, w }
    }

    /// A bitmap over raw glyph bytes: every byte, unstripped, mapped to
    /// its colour.  The byte count must be an exact multiple of the
    /// width.
    pub fn new_from(data: &Vec<u8>, w: usize) -> (r: Bitmap)
        requires
            w != 0,
            data@.len() % (w as nat) == 0,
        ensures
            r@.w == w,
            r@.pixels == all_colors(data@),
            bmp_wf(r@),
    {
        let n = data.len();
        let mut pixels: Vec<u32> = Vec::new();
        let mut i: usize = 0;
        while i < n
            invariant
                i <= n,
                n == data@.len(),
                pixels@ =~= all_colors(data@.take(i as int)),
            decreases n - i,
        {
            let c = map_color(&data[i]);
            pixels.push(c);
            proof {
                assert(all_colors(data@.take(i as int + 1)) =~= all_colors(
                    data@.take(i as int),
                ).push(spec_map_color(data@[i as int])));
            }
            i = i + 1;
        }
        proof {
            assert(data@.take(n as int) =~= data@);
            assert(pixels@ =~= all_colors(data@));
        }
        Bitmap { pixels, w }
    }
}

/// A row-major pixel index computed from in-bounds coordinates lies
/// inside the pixel sequence.
pub proof fn lemma_pixel_index_in_bounds(b: BitmapV, x: int, y: int)
    requires
        bmp_wf(b),
        0 <= x < b.w,
        0 <= y < bmp_height(b),
    ensures
        0 <= y * b.w + x < b.pixels.len(),
{
    let w = b.w as int;
    let n = b.pixels.len() as int;
    let h = bmp_height(b) as int;
    assert(n == w * h) by {
        vstd::arithmetic::div_mod::lemma_fundamental_div_mod(n, w);
    }
    assert(0 <= y * w + x <= (h - 1) * w + (w - 1) < n) by (nonlinear_arith)
        requires
            0 <= x < w,
            0 <= y < h,
            n == w * h,
    ;
}

/// The pixel-exact overlap test is symmetric in its two bitmaps: over
/// equal-size local rectangles, the bitmaps overlap seen from the first
/// exactly when they overlap seen from the second.
pub proof fn lemma_overlap_symmetric(a: BitmapV, ca: Rect, b: BitmapV, cb: Rect)
    requires
        ca.w == cb.w,
        ca.h == cb.h,
    ensures
        spec_overlaps(a, ca, b, cb) == spec_overlaps(b, cb, a, ca),
{
    if spec_overlaps(a, ca, b, cb) {
        let (dx, dy) = choose|dx: int, dy: int|
            0 <= dx < ca.w && 0 <= dy < ca.h && spec_overlap_at(a, ca, b, cb, dx, dy);
        assert(spec_overlap_at(b, cb, a, ca, dx, dy));
        assert(spec_overlaps(b, cb, a, ca));
    }
    if spec_overlaps(b, cb, a, ca) {
        let (dx, dy) = choose|dx: int, dy: int|
            0 <= dx < cb.w && 0 <= dy < cb.h && spec_overlap_at(b, cb, a, ca, dx, dy);
        assert(spec_overlap_at(a, ca, b, cb, dx, dy));
        assert(spec_overlaps(a, ca, b, cb));
    }
}

} // verus!
