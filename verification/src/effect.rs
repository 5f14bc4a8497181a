//! The particle-effect overlay: a fixed-size field of transient items
//! that respawn forever.
//!
//! Each item owns a small solid bitmap, a milli-pixel position, a fixed
//! lifetime and a diagonal speed.  When an item outlives its lifetime
//! it is replaced in place by a freshly randomized item drawn from the
//! same spawn cell, so the field never shrinks.  All randomness comes
//! from the seedable generator the effect owns.

use vstd::prelude::*;
use crate::bitmap::{bmp_height, bmp_wf, filled, Bitmap};
use crate::canvas::{blit, canvas_wf, Canvas};
use crate::fixed::{px_of, px_of_milli, sat_i64, sat_mul_dt, sat_mul_i64, to_milli};
use crate::game::{BMP_HEIGHT, BMP_WIDTH};
use crate::anim::sat_add_u64;
use crate::rng::{randint, spec_randint, Rng};

verus! {

/// The colour every effect item is painted in.
pub const COLOR_SNOW: u32 = 0xffffff;

/// One transient item of the overlay.
pub struct Snow {
    /// Milli-pixel position of the item's top-left corner.
    pub x: i64,
    pub y: i64,
    /// Fixed lifetime and age, in milliseconds.
    pub life_ms: u64,
    pub age_ms: u64,
    /// Diagonal speed in milli-pixels per millisecond.
    pub speed: i64,
    /// The item's solid bitmap.
    pub current: Bitmap,
    /// The spawn cell: left, top, width, height.
    pub params: (i32, i32, u32, u32),
}

/// A freshly spawned item: placed inside its spawn cell, alive between
/// half a second and a second, painted solid in the snow colour as a
/// 1-by-1 up to 2-by-2 square, falling at a cell-derived speed.
pub open spec fn snow_fresh(s: Snow, left: int, top: int, width: int, height: int) -> bool {
    &&& s.params.0 == left && s.params.1 == top && s.params.2 == width && s.params.3 == height
    &&& s.age_ms == 0
    &&& 500 <= s.life_ms < 1000
    &&& 1000 * left <= s.x <= 1000 * (left + width)
    &&& 1000 * top <= s.y <= 1000 * (top + height)
    &&& 0 <= s.speed <= 4 * width + 4
    &&& 1 <= s.current@.w <= 2
    &&& 1 <= bmp_height(s.current@) <= 2
    &&& bmp_wf(s.current@)
    &&& forall|i: int| 0 <= i < s.current@.pixels.len() ==> s.current@.pixels[i] == COLOR_SNOW
}

/// The speed multiplier a dice draw selects: base speed six times in
/// ten, double three times, triple once.
pub open spec fn spec_mult(d: int) -> int {
    if d < 6 {
        1
    } else if d < 9 {
        2
    } else {
        3
    }
}

/// A milli-pixel coordinate advanced by `speed * mult` over `dt`
/// milliseconds, saturating.
pub open spec fn snow_step(x: int, speed: int, m: int, dt: int) -> int {
    sat_i64(x + sat_i64(sat_i64(speed * m) * dt))
}

/// The old item advanced by one tick: both axes moved equally by some
/// dice-selected multiple of its speed, its age grown by the tick.
pub open spec fn snow_adv(o: Snow, n: Snow, dt: int) -> bool {
    exists|m: int|
        (m == 1 || m == 2 || m == 3) && n.x == #[trigger] snow_step(
            o.x as int,
            o.speed as int,
            m,
            dt,
        ) && n.y == snow_step(o.y as int, o.speed as int, m, dt)
}

/// What one tick leaves of an item: advanced while it still lives,
/// replaced by a fresh item from the same cell once its grown age
/// reaches its lifetime.
pub open spec fn snow_ticked(o: Snow, n: Snow, dt: int) -> bool {
    if sat_add_u64(o.age_ms as int, dt) >= o.life_ms {
        snow_fresh(
            n,
            o.params.0 as int,
            o.params.1 as int,
            o.params.2 as int,
            o.params.3 as int,
        )
    } else {
        &&& snow_adv(o, n, dt)
        &&& n.age_ms == sat_add_u64(o.age_ms as int, dt)
        &&& n.life_ms == o.life_ms && n.speed == o.speed && n.current == o.current && n.params
            == o.params
    }
}

/// The canvas after one item is composited: its bitmap blitted at its
/// pixel position while it lives, the canvas untouched once it is past
/// its lifetime.
pub open spec fn snow_blit(c: Seq<u32>, s: Snow) -> Seq<u32> {
    if s.age_ms < s.life_ms {
        blit(c, s.current@, px_of_milli(s.x as int), px_of_milli(s.y as int))
    } else {
        c
    }
}

/// The canvas after every item is composited, in item order.
pub open spec fn effect_render(c: Seq<u32>, items: Seq<Snow>) -> Seq<u32>
    decreases items.len(),
{
    if items.len() == 0 {
        c
    } else {
        effect_render(snow_blit(c, items[0]), items.drop_first())
    }
}

impl Snow {
    /// A freshly randomized item spawned inside the given cell.
    #[verifier::rlimit(100)]
    pub fn new(left: i32, top: i32, width: u32, height: u32, rng: &mut Rng) -> (s: Snow)
        requires
            width <= 0x7fffffff,
            height <= 0x7fffffff,
        ensures
            snow_fresh(s, left as int, top as int, width as int, height as int),
    {
        let dx = randint(rng, 0, width as i32);
        let dy = randint(rng, 0, height as i32);
        let x = to_milli((left as i64) + (dx as i64));
        let y = to_milli((top as i64) + (dy as i64));
        let life_ms: u64 = (500 + randint(rng, 0, 500)) as u64;
        let factor: u64 = (1000 + randint(rng, 0, 1000)) as u64;
        proof {
            assert((width as int) * (factor as int) <= 0x100000000 * 2000 && (width as int) * (
            factor as int) <= (width as int) * 2000) by (nonlinear_arith)
                requires
                    0 <= (width as int) <= 0x100000000,
                    0 <= (factor as int) <= 2000,
            ;
        }
        let scaled: u64 = (width as u64) * factor;
        let q: u64 = scaled / life_ms;
        proof {
            vstd::arithmetic::div_mod::lemma_fundamental_div_mod(scaled as int, life_ms as int);
            assert((q as int) <= 4 * (width as int) + 4) by (nonlinear_arith)
                requires
                    (scaled as int) == (life_ms as int) * (q as int) + ((scaled as int) % (
                    life_ms as int)),
                    0 <= (scaled as int) % (life_ms as int),
                    (scaled as int) <= (width as int) * 2000,
                    500 <= (life_ms as int) < 1000,
                    0 <= (q as int),
                    0 <= (width as int),
            ;
        }
        let speed: i64 = q as i64;
        let mut size = randint(rng, 0, 5);
        if size == 4 {
            size = 1;
        }
        let w: usize = if size == 3 {
            2
        } else {
            1
        };
        let h: usize = if size >= 2 {
            2
        } else {
            1
        };
        let pixels = filled(w * h, COLOR_SNOW);
        let current = Bitmap::new_with_bmp(pixels, w);
        Snow {
            x,
            y,
            life_ms,
            age_ms: 0,
            speed,
            current,
            params: (left, top, width, height),
        }
    }

    /// A replacement item drawn from this item's own spawn cell.
    pub fn renew(&self, rng: &mut Rng) -> (s: Snow)
        requires
            self.params.2 <= 0x7fffffff,
            self.params.3 <= 0x7fffffff,
        ensures
            snow_fresh(
                s,
                self.params.0 as int,
                self.params.1 as int,
                self.params.2 as int,
                self.params.3 as int,
            ),
    {
        Snow::new(self.params.0, self.params.1, self.params.2, self.params.3, rng)
    }

    /// One tick: draw the dice, move both axes equally by the selected
    /// multiple of the speed, and grow the age.
    pub fn update(&mut self, dt_ms: u64, rng: &mut Rng)
        ensures
            snow_adv(*old(self), *final(self), dt_ms as int),
            final(self).x == snow_step(
                old(self).x as int,
                old(self).speed as int,
                spec_mult(spec_randint(old(rng).state as int, 0, 10)),
                dt_ms as int,
            ),
            final(self).y == snow_step(
                old(self).y as int,
                old(self).speed as int,
                spec_mult(spec_randint(old(rng).state as int, 0, 10)),
                dt_ms as int,
            ),
            final(rng).state as int == crate::rng::rng_next(old(rng).state as int),
            final(self).age_ms == sat_add_u64(old(self).age_ms as int, dt_ms as int),
            final(self).life_ms == old(self).life_ms,
            final(self).speed == old(self).speed,
            final(self).current == old(self).current,
            final(self).params == old(self).params,
    {
        let dice = randint(rng, 0, 10);
        let m: i64 = if dice < 6 {
            1
        } else if dice < 9 {
            2
        } else {
            3
        };
        let step = sat_mul_dt(sat_mul_i64(self.speed, m), dt_ms);
        self.x = crate::fixed::sat_add_i64(self.x, step);
        self.y = crate::fixed::sat_add_i64(self.y, step);
        if self.age_ms <= u64::MAX - dt_ms {
            self.age_ms = self.age_ms + dt_ms;
        } else {
            self.age_ms = u64::MAX;
        }
        proof {
            let mm = m as int;
            assert(mm == spec_mult(spec_randint(old(rng).state as int, 0, 10)));
            assert(self.x == snow_step(
                old(self).x as int,
                old(self).speed as int,
                mm,
                dt_ms as int,
            ));
            assert(self.y == snow_step(
                old(self).y as int,
                old(self).speed as int,
                mm,
                dt_ms as int,
            ));
            assert(snow_adv(*old(self), *self, dt_ms as int));
        }
    }

    /// The item's pixel position and bitmap while it lives, nothing
    /// once it is past its lifetime.
    pub fn get_bmp(&self) -> (r: Option<(i32, i32, &Bitmap)>)
        ensures
            self.age_ms >= self.life_ms ==> r is None,
            self.age_ms < self.life_ms ==> match r {
                Option::Some(t) => t.0 as int == px_of_milli(self.x as int) && t.1 as int
                    == px_of_milli(self.y as int) && *t.2 == self.current,
                Option::None => false,
            },
    {
        if self.age_ms >= self.life_ms {
            Option::None
        } else {
            Option::Some((px_of(self.x), px_of(self.y), &self.current))
        }
    }
}

/// A homogeneous collection of transient items with its own random
/// source.  The collection size never changes: items keep respawning.
pub struct EffectContainer {
    pub items: Vec<Snow>,
    pub rng: Rng,
}

/// Every item's bitmap is well formed and its spawn cell small enough
/// to respawn from.
pub open spec fn effect_items_wf(items: Seq<Snow>) -> bool {
    forall|i: int|
        0 <= i < items.len() ==> bmp_wf(#[trigger] items[i].current@) && items[i].params.2
            <= 0x7fffffff && items[i].params.3 <= 0x7fffffff
}

impl EffectContainer {
    /// One tick for every item: advance it, and respawn it in place
    /// once it outlives its lifetime.
    pub fn update(&mut self, dt_ms: u64)
        requires
            effect_items_wf(old(self).items@),
        ensures
            final(self).items@.len() == old(self).items@.len(),
            effect_items_wf(final(self).items@),
            forall|i: int|
                0 <= i < old(self).items@.len() ==> snow_ticked(
                    old(self).items@[i],
                    #[trigger] final(self).items@[i],
                    dt_ms as int,
                ),
    {
        let n = self.items.len();
        let mut i: usize = 0;
        while i < n
            invariant
                i <= n,
                n == self.items@.len(),
                self.items@.len() == old(self).items@.len(),
                effect_items_wf(old(self).items@),
                forall|k: int| i <= k < n ==> self.items@[k] == old(self).items@[k],
                forall|k: int|
                    0 <= k < i ==> snow_ticked(
                        old(self).items@[k],
                        #[trigger] self.items@[k],
                        dt_ms as int,
                    ),
                forall|k: int|
                    0 <= k < i ==> bmp_wf(#[trigger] self.items@[k].current@) && self.items@[k].params.2
                        <= 0x7fffffff && self.items@[k].params.3 <= 0x7fffffff,
            decreases n - i,
        {
            let ghost pre = self.items@;
            proof {
                assert(pre[i as int] == old(self).items@[i as int]);
                assert(bmp_wf(pre[i as int].current@) && pre[i as int].params.2 <= 0x7fffffff
                    && pre[i as int].params.3 <= 0x7fffffff);
            }
            let item = &mut self.items[i];
            item.update(dt_ms, &mut self.rng);
            let dead = item.age_ms >= item.life_ms;
            proof {
                assert(self.items@ == pre.update(i as int, self.items@[i as int]));
                assert(snow_adv(pre[i as int], self.items@[i as int], dt_ms as int));
            }
            if dead {
                let fresh = self.items[i].renew(&mut self.rng);
                self.items.set(i, fresh);
            }
            proof {
                assert(snow_ticked(
                    old(self).items@[i as int],
                    self.items@[i as int],
                    dt_ms as int,
                ));
            }
            i = i + 1;
        }
    }

    /// Composites every living item onto the canvas, in item order.
    pub fn draw(&self, canvas: &mut Canvas)
        requires
            canvas_wf(old(canvas)@),
            effect_items_wf(self.items@),
        ensures
            final(canvas)@ == effect_render(old(canvas)@, self.items@),
            canvas_wf(final(canvas)@),
    {
        let ghost c0 = canvas@;
        let n = self.items.len();
        let mut i: usize = 0;
        proof {
            assert(self.items@.skip(0) =~= self.items@);
        }
        while i < n
            invariant
                i <= n,
                n == self.items@.len(),
                effect_items_wf(self.items@),
                canvas_wf(canvas@),
                effect_render(c0, self.items@) == effect_render(canvas@, self.items@.skip(i as int)),
            decreases n - i,
        {
            let ghost rest = self.items@.skip(i as int);
            proof {
                assert(rest[0] == self.items@[i as int]);
                assert(rest.drop_first() =~= self.items@.skip(i as int + 1));
            }
            let ghost cpre = canvas@;
            let item = &self.items[i];
            match item.get_bmp() {
                Option::Some((px, py, bmp)) => {
                    canvas.draw(px, py, bmp);
                },
                Option::None => {},
            }
            proof {
                assert(canvas@ == snow_blit(cpre, self.items@[i as int]));
                assert(effect_render(cpre, rest) == effect_render(
                    canvas@,
                    self.items@.skip(i as int + 1),
                ));
            }
            i = i + 1;
        }
        proof {
            assert(self.items@.skip(n as int) =~= Seq::<Snow>::empty());
        }
    }
}

/// The scene's effect overlay: either idle or the blizzard field.
pub enum SceneEffect {
    /// No active effect: draws and updates nothing.
    Dummy,
    /// The blizzard particle field.
    Blizzard(EffectContainer),
}

/// What the overlay leaves on a canvas: nothing when idle, every living
/// item composited in order for the blizzard.
pub open spec fn effect_draw_spec(e: SceneEffect, c: Seq<u32>) -> Seq<u32> {
    match e {
        SceneEffect::Dummy => c,
        SceneEffect::Blizzard(ec) => effect_render(c, ec.items@),
    }
}

/// The overlay's items are well formed.
pub open spec fn effect_wf(e: SceneEffect) -> bool {
    match e {
        SceneEffect::Dummy => true,
        SceneEffect::Blizzard(ec) => effect_items_wf(ec.items@),
    }
}

/// One overlay tick: nothing when idle, every item advanced or
/// respawned for the blizzard.
pub open spec fn effect_ticked(o: SceneEffect, n: SceneEffect, dt: int) -> bool {
    match o {
        SceneEffect::Dummy => n is Dummy,
        SceneEffect::Blizzard(oc) => match n {
            SceneEffect::Blizzard(nc) => nc.items@.len() == oc.items@.len() && forall|i: int|
                0 <= i < oc.items@.len() ==> snow_ticked(
                    oc.items@[i],
                    #[trigger] nc.items@[i],
                    dt,
                ),
            SceneEffect::Dummy => false,
        },
    }
}

impl SceneEffect {
    /// The blizzard: the canvas tiled into a 5-by-4 grid of spawn
    /// cells, extended one cell before the origin on both axes, one
    /// item seeded per cell.
    pub fn blizzard(rng: Rng) -> (r: SceneEffect)
        ensures
            effect_wf(r),
            r is Blizzard,
            match r {
                SceneEffect::Blizzard(ec) => ec.items@.len() == 30 && forall|k: int|
                    0 <= k < 30 ==> snow_fresh(
                        #[trigger] ec.items@[k],
                        -32 + 32 * (k / 5),
                        -30 + 30 * (k % 5),
                        32,
                        30,
                    ),
                SceneEffect::Dummy => false,
            },
    {
        let width: i32 = (BMP_WIDTH as i32) / 5;
        let height: i32 = (BMP_HEIGHT as i32) / 4;
        let mut rng = rng;
        let mut items: Vec<Snow> = Vec::new();
        let mut cx: usize = 0;
        while cx < 6
            invariant
                cx <= 6,
                width == 32,
                height == 30,
                items@.len() == 5 * cx,
                forall|k: int|
                    0 <= k < items@.len() ==> snow_fresh(
                        #[trigger] items@[k],
                        -32 + 32 * (k / 5),
                        -30 + 30 * (k % 5),
                        32,
                        30,
                    ),
            decreases 6 - cx,
        {
            let x: i32 = -32 + 32 * (cx as i32);
            let mut cy: usize = 0;
            while cy < 5
                invariant
                    cy <= 5,
                    cx < 6,
                    width == 32,
                    height == 30,
                    x == -32 + 32 * (cx as int),
                    items@.len() == 5 * cx + cy,
                    forall|k: int|
                        0 <= k < items@.len() ==> snow_fresh(
                            #[trigger] items@[k],
                            -32 + 32 * (k / 5),
                            -30 + 30 * (k % 5),
                            32,
                            30,
                        ),
                decreases 5 - cy,
            {
                let y: i32 = -30 + 30 * (cy as i32);
                let s = Snow::new(x, y, 32, 30, &mut rng);
                items.push(s);
                proof {
                    let k = items@.len() - 1;
                    assert(k == 5 * cx + cy);
                    vstd::arithmetic::div_mod::lemma_fundamental_div_mod_converse(
                        k,
                        5,
                        cx as int,
                        cy as int,
                    );
                }
                cy = cy + 1;
            }
            cx = cx + 1;
        }
        SceneEffect::Blizzard(EffectContainer { items, rng })
    }

    /// The idle overlay: draws and updates nothing.
    pub fn dummy() -> (r: SceneEffect)
        ensures
            r is Dummy,
            effect_wf(r),
    {
        SceneEffect::Dummy
    }

    /// One overlay tick.
    pub fn update(&mut self, dt_ms: u64)
        requires
            effect_wf(*old(self)),
        ensures
            effect_wf(*final(self)),
            effect_ticked(*old(self), *final(self), dt_ms as int),
    {
        match self {
            SceneEffect::Dummy => {},
            SceneEffect::Blizzard(ec) => {
                ec.update(dt_ms);
            },
        }
    }

    /// Composites the overlay onto the canvas.
    pub fn draw(&self, canvas: &mut Canvas)
        requires
            canvas_wf(old(canvas)@),
            effect_wf(*self),
        ensures
            final(canvas)@ == effect_draw_spec(*self, old(canvas)@),
            canvas_wf(final(canvas)@),
    {
        match self {
            SceneEffect::Dummy => {},
            SceneEffect::Blizzard(ec) => {
                ec.draw(canvas);
            },
        }
    }
}

} // verus!
