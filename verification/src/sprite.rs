//! Sprites: positioned, physically integrated entities with an owned
//! bitmap and an animation cursor.
//!
//! Positions, velocities and accelerations are fixed-point milli-pixel
//! values (see [`crate::fixed`]).  The bounding box is centred on the
//! position; width and height are taken from whichever image is
//! currently displayed.  `z` is the caller-set render priority and `z2`
//! the engine-assigned insertion tie-breaker: together they order the
//! render pass strictly.

use vstd::prelude::*;
use crate::anim::{anim_current, fmr_wf, sat_add_u64, Animation, FrameMgr};
use crate::bitmap::{
    bmp_height, bmp_pixel_or_transparent, bmp_wf, Bitmap, BitmapV,
};
use crate::fixed::{
    milli_of_px, px_of, px_of_milli, sat_add_i64, sat_i32, sat_i64, scale_by_dt, scaled_step,
    to_milli,
};
use crate::game::{BMP_HEIGHT, BMP_WIDTH};
use crate::geom::{spec_intersect, Rect};

verus! {

/// Sprite behaviour flags, combined into a bitmask.
pub enum Flag {
    /// Remove the sprite at end of tick once its bounding box no longer
    /// intersects the canvas.
    Autodestory,
    /// Exclude the sprite from the draw pass; it still updates and
    /// still participates in overlap checks.
    Invisible,
}

impl Flag {
    /// The flag's bit in the mask.
    pub fn u32(self) -> (r: u32)
        ensures
            self is Autodestory ==> r == 1,
            self is Invisible ==> r == 2,
    {
        match self {
            Flag::Autodestory => 1,
            Flag::Invisible => 2,
        }
    }
}

/// A positioned, physically integrated entity.
pub struct Sprite {
    /// Centre position, velocity and acceleration, in milli-pixels and
    /// milli-pixels per second.
    pub x: i64,
    pub y: i64,
    pub z: i32,
    /// Insertion-order tie-breaker, assigned by the scene.
    pub z2: i64,
    pub vx: i64,
    pub vy: i64,
    pub ax: i64,
    pub ay: i64,
    /// Inert gating scalars: they only decide whether position
    /// integrates, and carry no force semantics of their own.
    pub fx: i64,
    pub fy: i64,
    /// Unused-by-physics scalars, stored for the caller.
    pub sx: i64,
    pub sy: i64,
    pub kind: usize,
    pub width: usize,
    pub height: usize,
    pub image: Bitmap,
    pub anmi: Animation,
    pub flag: u32,
}

/// A sprite is well formed when its native bitmap is.
pub open spec fn sprite_wf(s: Sprite) -> bool {
    bmp_wf(s.image@)
}

/// Half the given extent, saturated into the `i32` range.
pub open spec fn spec_half(w: int) -> int {
    if w / 2 > i32::MAX {
        i32::MAX as int
    } else {
        w / 2
    }
}

/// The left edge of the sprite's centred bounding box.
pub open spec fn spec_left(s: Sprite) -> int {
    sat_i32(px_of_milli(s.x as int) - spec_half(s.width as int))
}

/// The right edge of the sprite's centred bounding box.
pub open spec fn spec_right(s: Sprite) -> int {
    sat_i32(px_of_milli(s.x as int) + spec_half(s.width as int))
}

/// The top edge of the sprite's centred bounding box.
pub open spec fn spec_top(s: Sprite) -> int {
    sat_i32(px_of_milli(s.y as int) - spec_half(s.height as int))
}

/// The bottom edge of the sprite's centred bounding box.
pub open spec fn spec_bottom(s: Sprite) -> int {
    sat_i32(px_of_milli(s.y as int) + spec_half(s.height as int))
}

/// An extent clamped into the `u32` range.
pub open spec fn spec_extent32(w: int) -> int {
    if w > u32::MAX {
        u32::MAX as int
    } else {
        w
    }
}

/// The sprite's bounding rectangle: top-left corner and extent.
pub open spec fn spec_rect(s: Sprite) -> Rect {
    Rect {
        x: spec_left(s) as i32,
        y: spec_top(s) as i32,
        w: spec_extent32(s.width as int) as u32,
        h: spec_extent32(s.height as int) as u32,
    }
}

/// Strict render order over two priority pairs: higher `z` is in
/// front; equal `z` falls back to higher `z2`.
pub open spec fn spec_front_of2(z11: int, z12: int, z21: int, z22: int) -> bool {
    z11 > z21 || (z11 == z21 && z12 > z22)
}

/// This sprite renders in front of the other.
pub open spec fn spec_front_of(a: Sprite, b: Sprite) -> bool {
    spec_front_of2(a.z as int, a.z2 as int, b.z as int, b.z2 as int)
}

/// The image a sprite currently displays: its animation frame when the
/// cursor resolves to one, its native bitmap otherwise.
pub open spec fn spec_displayed(s: Sprite, fm: Seq<(String, crate::anim::Frames)>) -> BitmapV {
    match anim_current(s.anmi, fm) {
        Option::Some(b) => b@,
        Option::None => s.image@,
    }
}

/// Both sprites show an opaque pixel at offset `(dx, dy)` into the
/// given region, each through its currently displayed image; pixels
/// outside an image read as transparent.
pub open spec fn spec_overlap_hit(
    s1: Sprite,
    s2: Sprite,
    region: Rect,
    fm: Seq<(String, crate::anim::Frames)>,
    dx: int,
    dy: int,
) -> bool {
    &&& bmp_pixel_or_transparent(
        spec_displayed(s1, fm),
        region.x - spec_left(s1) + dx,
        region.y - spec_top(s1) + dy,
    ) != 0
    &&& bmp_pixel_or_transparent(
        spec_displayed(s2, fm),
        region.x - spec_left(s2) + dx,
        region.y - spec_top(s2) + dy,
    ) != 0
}

/// Somewhere in the region the two sprites' displayed images both show
/// an opaque pixel.
pub open spec fn spec_pixel_overlap(
    s1: Sprite,
    s2: Sprite,
    region: Rect,
    fm: Seq<(String, crate::anim::Frames)>,
) -> bool {
    exists|dx: int, dy: int|
        0 <= dx < region.w && 0 <= dy < region.h && spec_overlap_hit(s1, s2, region, fm, dx, dy)
}

/// A velocity advanced by an acceleration over a time span; a zero
/// acceleration leaves it untouched.
pub open spec fn spec_vel_step(v: int, a: int, dt: int) -> int {
    if a != 0 {
        sat_i64(v + scaled_step(a, dt))
    } else {
        v
    }
}

/// A position advanced by a velocity over a time span, gated on live
/// motion: it integrates only when the velocity, the acceleration or
/// the gating scalar is non-zero.
pub open spec fn spec_pos_step(p: int, v: int, a: int, f: int, dt: int) -> int {
    if v != 0 || a != 0 || f != 0 {
        sat_i64(p + scaled_step(v, dt))
    } else {
        p
    }
}

/// Clamps a wide value into the `i32` range.
fn clamp_i32(v: i64) -> (r: i32)
    ensures
        r as int == sat_i32(v as int),
{
    if v > i32::MAX as i64 {
        i32::MAX
    } else if v < i32::MIN as i64 {
        i32::MIN
    } else {
        v as i32
    }
}

impl Sprite {
    /// A sprite at the canvas centre with no image, no motion, kind 0
    /// and no flags.
    pub fn new() -> (s: Sprite)
        ensures
            s.x == (BMP_WIDTH / 2) as i64 * 1000 && s.y == (BMP_HEIGHT / 2) as i64 * 1000,
            s.z == 0 && s.z2 == 0,
            s.vx == 0 && s.vy == 0 && s.ax == 0 && s.ay == 0,
            s.fx == 0 && s.fy == 0 && s.sx == 0 && s.sy == 0,
            s.kind == 0 && s.width == 0 && s.height == 0 && s.flag == 0,
            s.image@.w == 0 && s.image@.pixels.len() == 0,
            s.anmi.current_name@ == Seq::<char>::empty() && s.anmi.elapsed_ms == 0,
            sprite_wf(s),
    {
        Sprite {
            x: (BMP_WIDTH / 2) as i64 * 1000,
            y: (BMP_HEIGHT / 2) as i64 * 1000,
            z: 0,
            z2: 0,
            vx: 0,
            vy: 0,
            ax: 0,
            ay: 0,
            fx: 0,
            fy: 0,
            sx: 0,
            sy: 0,
            kind: 0,
            width: 0,
            height: 0,
            image: Bitmap::new(0, 0),
            anmi: Animation::new(),
            flag: 0,
        }
    }

    /// A sprite owning the given bitmap, with its extent taken from it.
    pub fn new_with_bmp(bmp: Bitmap, kind: usize) -> (s: Sprite)
        requires
            bmp_wf(bmp@),
        ensures
            s.image@ == bmp@,
            s.width == bmp@.w && s.height == bmp_height(bmp@),
            s.kind == kind,
            s.x == (BMP_WIDTH / 2) as i64 * 1000 && s.y == (BMP_HEIGHT / 2) as i64 * 1000,
            s.z == 0 && s.z2 == 0,
            s.vx == 0 && s.vy == 0 && s.ax == 0 && s.ay == 0,
            s.fx == 0 && s.fy == 0 && s.sx == 0 && s.sy == 0,
            s.flag == 0,
            s.anmi.current_name@ == Seq::<char>::empty() && s.anmi.elapsed_ms == 0,
            sprite_wf(s),
    {
        let w = bmp.width();
        let h = bmp.height();
        let mut s = Sprite::new();
        s.image = bmp;
        s.width = w;
        s.height = h;
        s.kind = kind;
        s
    }

    /// Half this sprite's width, saturated.
    fn half_w(&self) -> (r: i32)
        ensures
            r as int == spec_half(self.width as int),
    {
        let h = self.width / 2;
        if h > i32::MAX as usize {
            i32::MAX
        } else {
            h as i32
        }
    }

    /// Half this sprite's height, saturated.
    fn half_h(&self) -> (r: i32)
        ensures
            r as int == spec_half(self.height as int),
    {
        let h = self.height / 2;
        if h > i32::MAX as usize {
            i32::MAX
        } else {
            h as i32
        }
    }

    /// Moves the sprite so its left edge sits at `x`.
    pub fn set_left(&mut self, x: i32)
        ensures
            final(self).x as int == milli_of_px(x + spec_half(old(self).width as int)),
            *final(self) == (Sprite { x: final(self).x, ..*old(self) }),
    {
        let half = self.half_w();
        self.x = to_milli((x as i64) + (half as i64));
    }

    /// Moves the sprite so its right edge sits at `x`.
    pub fn set_right(&mut self, x: i32)
        ensures
            final(self).x as int == milli_of_px(x - spec_half(old(self).width as int)),
            *final(self) == (Sprite { x: final(self).x, ..*old(self) }),
    {
        let half = self.half_w();
        self.x = to_milli((x as i64) - (half as i64));
    }

    /// Moves the sprite so its top edge sits at `y`.
    pub fn set_top(&mut self, y: i32)
        ensures
            final(self).y as int == milli_of_px(y + spec_half(old(self).height as int)),
            *final(self) == (Sprite { y: final(self).y, ..*old(self) }),
    {
        let half = self.half_h();
        self.y = to_milli((y as i64) + (half as i64));
    }

    /// Moves the sprite so its bottom edge sits at `y`.
    pub fn set_bottom(&mut self, y: i32)
        ensures
            final(self).y as int == milli_of_px(y - spec_half(old(self).height as int)),
            *final(self) == (Sprite { y: final(self).y, ..*old(self) }),
    {
        let half = self.half_h();
        self.y = to_milli((y as i64) - (half as i64));
    }

    /// Sets or clears the given flag bits.
    pub fn set_flag(&mut self, flag: u32, on: bool)
        ensures
            on ==> final(self).flag == (old(self).flag | flag),
            !on ==> final(self).flag == (old(self).flag & !flag),
            *final(self) == (Sprite { flag: final(self).flag, ..*old(self) }),
    {
        if on {
            self.flag = self.flag | flag;
        } else {
            self.flag = self.flag & !flag;
        }
    }

    /// The image the sprite currently displays through its animation
    /// cursor, or `None` when it falls back to its native bitmap.
    pub fn current_image<'a>(&self, frame_mgr: &'a FrameMgr) -> (r: Option<&'a Bitmap>)
        requires
            fmr_wf(frame_mgr.frames@),
        ensures
            match r {
                Option::Some(b) => anim_current(self.anmi, frame_mgr.frames@) == Option::Some(*b),
                Option::None => anim_current(self.anmi, frame_mgr.frames@) is None,
            },
    {
        self.anmi.current(frame_mgr)
    }

    /// The sprite's own bitmap.
    pub fn native_image(&self) -> (r: &Bitmap)
        ensures
            *r == self.image,
    {
        &self.image
    }

    /// Clips are registered globally by name, so attaching one to a
    /// sprite is a recorded no-op; activation happens through
    /// [`Sprite::active_animation`].
    pub fn attach_animation(&mut self, _name: String)
        ensures
            *final(self) == *old(self),
    {
    }

    /// Activates the named clip on this sprite's cursor.  Re-activating
    /// the active clip keeps its elapsed time.
    pub fn active_animation(&mut self, name: String)
        ensures
            old(self).anmi.current_name@ == name@ ==> *final(self) == *old(self),
            old(self).anmi.current_name@ != name@ ==> final(self).anmi.current_name@ == name@
                && final(self).anmi.elapsed_ms == 0 && *final(self) == (Sprite {
                anmi: final(self).anmi,
                ..*old(self)
            }),
    {
        self.anmi.reset(name);
    }

    /// The right edge of the bounding box.
    pub fn right(&self) -> (r: i32)
        ensures
            r as int == spec_right(*self),
    {
        let px = px_of(self.x);
        let half = self.half_w();
        clamp_i32((px as i64) + (half as i64))
    }

    /// The left edge of the bounding box.
    pub fn left(&self) -> (r: i32)
        ensures
            r as int == spec_left(*self),
    {
        let px = px_of(self.x);
        let half = self.half_w();
        clamp_i32((px as i64) - (half as i64))
    }

    /// The top edge of the bounding box.
    pub fn top(&self) -> (r: i32)
        ensures
            r as int == spec_top(*self),
    {
        let px = px_of(self.y);
        let half = self.half_h();
        clamp_i32((px as i64) - (half as i64))
    }

    /// The bottom edge of the bounding box.
    pub fn bottom(&self) -> (r: i32)
        ensures
            r as int == spec_bottom(*self),
    {
        let px = px_of(self.y);
        let half = self.half_h();
        clamp_i32((px as i64) + (half as i64))
    }

    /// The sprite's bounding rectangle.
    pub fn rect(&self) -> (r: Rect)
        ensures
            r == spec_rect(*self),
    {
        let w: u32 = if self.width > u32::MAX as usize {
            u32::MAX
        } else {
            self.width as u32
        };
        let h: u32 = if self.height > u32::MAX as usize {
            u32::MAX
        } else {
            self.height as u32
        };
        Rect { x: self.left(), y: self.top(), w, h }
    }

    /// The overlap of the two sprites' bounding rectangles.
    pub fn intersect_with(&self, other: &Sprite) -> (r: Option<Rect>)
        ensures
            r == spec_intersect(spec_rect(*self), spec_rect(*other)),
    {
        self.rect().intersect(&other.rect())
    }

    /// Scans the given region — the bounding-box intersection, in
    /// canvas coordinates — and reports whether the two sprites'
    /// displayed images both show an opaque pixel at any common
    /// position.  Cost is proportional to the region area.
    pub fn pixel_overlap(&self, rhs: &Sprite, intersection: &Rect, frame_mgr: &FrameMgr) -> (r:
        bool)
        requires
            sprite_wf(*self),
            sprite_wf(*rhs),
            fmr_wf(frame_mgr.frames@),
        ensures
            r == spec_pixel_overlap(*self, *rhs, *intersection, frame_mgr.frames@),
    {
        let img1 = match self.current_image(frame_mgr) {
            Option::Some(b) => b,
            Option::None => &self.image,
        };
        let img2 = match rhs.current_image(frame_mgr) {
            Option::Some(b) => b,
            Option::None => &rhs.image,
        };
        proof {
            assert(img1@ == spec_displayed(*self, frame_mgr.frames@));
            assert(img2@ == spec_displayed(*rhs, frame_mgr.frames@));
        }
        let l1 = self.left();
        let t1 = self.top();
        let l2 = rhs.left();
        let t2 = rhs.top();
        let w = intersection.w;
        let h = intersection.h;
        let mut dy: u32 = 0;
        while dy < h
            invariant
                dy <= h,
                bmp_wf(img1@),
                bmp_wf(img2@),
                img1@ == spec_displayed(*self, frame_mgr.frames@),
                img2@ == spec_displayed(*rhs, frame_mgr.frames@),
                l1 as int == spec_left(*self) && t1 as int == spec_top(*self),
                l2 as int == spec_left(*rhs) && t2 as int == spec_top(*rhs),
                w == intersection.w && h == intersection.h,
                forall|qx: int, qy: int|
                    0 <= qx < w && 0 <= qy < dy ==> !spec_overlap_hit(
                        *self,
                        *rhs,
                        *intersection,
                        frame_mgr.frames@,
                        qx,
                        qy,
                    ),
            decreases h - dy,
        {
            let mut dx: u32 = 0;
            while dx < w
                invariant
                    dx <= w,
                    dy < h,
                    bmp_wf(img1@),
                    bmp_wf(img2@),
                    img1@ == spec_displayed(*self, frame_mgr.frames@),
                    img2@ == spec_displayed(*rhs, frame_mgr.frames@),
                    l1 as int == spec_left(*self) && t1 as int == spec_top(*self),
                    l2 as int == spec_left(*rhs) && t2 as int == spec_top(*rhs),
                    w == intersection.w && h == intersection.h,
                    forall|qx: int, qy: int|
                        0 <= qx < w && 0 <= qy < dy ==> !spec_overlap_hit(
                            *self,
                            *rhs,
                            *intersection,
                            frame_mgr.frames@,
                            qx,
                            qy,
                        ),
                    forall|qx: int|
                        0 <= qx < dx ==> !spec_overlap_hit(
                            *self,
                            *rhs,
                            *intersection,
                            frame_mgr.frames@,
                            qx,
                            dy as int,
                        ),
                decreases w - dx,
            {
                let cx = (intersection.x as i64) + (dx as i64);
                let cy = (intersection.y as i64) + (dy as i64);
                let p1 = img1.pixel_or_transparent(cx - (l1 as i64), cy - (t1 as i64));
                let p2 = img2.pixel_or_transparent(cx - (l2 as i64), cy - (t2 as i64));
                if p1 != 0 && p2 != 0 {
                    proof {
                        assert(spec_overlap_hit(
                            *self,
                            *rhs,
                            *intersection,
                            frame_mgr.frames@,
                            dx as int,
                            dy as int,
                        ));
                    }
                    return true;
                }
                dx = dx + 1;
            }
            dy = dy + 1;
        }
        false
    }

    /// Strict render order over two raw priority pairs.
    pub fn front_of2(z11: i32, z12: i64, z21: i32, z22: i64) -> (r: bool)
        ensures
            r == spec_front_of2(z11 as int, z12 as int, z21 as int, z22 as int),
    {
        z11 > z21 || (z11 == z21 && z12 > z22)
    }

    /// This sprite renders in front of the other.
    pub fn front_of(&self, other: &Sprite) -> (r: bool)
        ensures
            r == spec_front_of(*self, *other),
    {
        self.z > other.z || (self.z == other.z && self.z2 > other.z2)
    }

    /// One tick: advance the animation cursor by `dt_ms`, refresh the
    /// extent from the displayed frame if one resolves, accelerate,
    /// then integrate position where motion is live.
    pub fn update(&mut self, dt_ms: u64, frame_mgr: &FrameMgr)
        requires
            fmr_wf(frame_mgr.frames@),
        ensures
            final(self).anmi.current_name@ == old(self).anmi.current_name@,
            final(self).anmi.elapsed_ms == sat_add_u64(
                old(self).anmi.elapsed_ms as int,
                dt_ms as int,
            ),
            match anim_current(final(self).anmi, frame_mgr.frames@) {
                Option::Some(b) => final(self).width == b@.w && final(self).height == bmp_height(
                    b@,
                ),
                Option::None => final(self).width == old(self).width && final(self).height == old(
                    self,
                ).height,
            },
            final(self).vx as int == spec_vel_step(
                old(self).vx as int,
                old(self).ax as int,
                dt_ms as int,
            ),
            final(self).vy as int == spec_vel_step(
                old(self).vy as int,
                old(self).ay as int,
                dt_ms as int,
            ),
            final(self).x as int == spec_pos_step(
                old(self).x as int,
                final(self).vx as int,
                old(self).ax as int,
                old(self).fx as int,
                dt_ms as int,
            ),
            final(self).y as int == spec_pos_step(
                old(self).y as int,
                final(self).vy as int,
                old(self).ay as int,
                old(self).fy as int,
                dt_ms as int,
            ),
            final(self).z == old(self).z && final(self).z2 == old(self).z2,
            final(self).ax == old(self).ax && final(self).ay == old(self).ay,
            final(self).fx == old(self).fx && final(self).fy == old(self).fy,
            final(self).sx == old(self).sx && final(self).sy == old(self).sy,
            final(self).kind == old(self).kind && final(self).flag == old(self).flag,
            final(self).image == old(self).image,
    {
        self.anmi.time_go(dt_ms);
        match self.anmi.current(frame_mgr) {
            Option::Some(img) => {
                self.width = img.width();
                self.height = img.height();
            },
            Option::None => {},
        }
        if self.ax != 0 {
            self.vx = sat_add_i64(self.vx, scale_by_dt(self.ax, dt_ms));
        }
        if self.ay != 0 {
            self.vy = sat_add_i64(self.vy, scale_by_dt(self.ay, dt_ms));
        }
        if self.vx != 0 || self.ax != 0 || self.fx != 0 {
            self.x = sat_add_i64(self.x, scale_by_dt(self.vx, dt_ms));
        }
        if self.vy != 0 || self.ay != 0 || self.fy != 0 {
            self.y = sat_add_i64(self.y, scale_by_dt(self.vy, dt_ms));
        }
    }
}

/// Allocates the next custom sprite kind from the caller's counter.
/// Kinds 1 and 2 are reserved; custom kinds count upward from above the
/// reserved range.
pub fn create(last_kind: &mut usize) -> (k: usize)
    requires
        *old(last_kind) < usize::MAX,
    ensures
        *final(last_kind) == *old(last_kind) + 1,
        k == *final(last_kind),
{
    *last_kind = *last_kind + 1;
    *last_kind
}

/// The reserved kind of player sprites.
pub fn player() -> (k: usize)
    ensures
        k == 1,
{
    1
}

/// The reserved kind of projectile sprites.
pub fn projectile() -> (k: usize)
    ensures
        k == 2,
{
    2
}

} // verus!
