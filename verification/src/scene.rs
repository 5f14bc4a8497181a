//! The scene: sprite registry, overlap detection, background and the
//! active effect overlay, driven once per tick.
//!
//! Sprite ids come from a strictly increasing counter starting at 1 and
//! are never reused while the scene lives.  Every insertion also
//! assigns the sprite a fresh `z2` tie-breaker from a second strictly
//! increasing counter, so no two live sprites ever compare equal in the
//! render order.

use vstd::prelude::*;
use crate::anim::{anim_current, fmr_wf, sat_add_u64, FrameMgr};
use crate::bitmap::{bmp_height, Bitmap, bmp_wf};
use crate::canvas::{blit, canvas_wf, Canvas};
use crate::effect::{effect_draw_spec, effect_ticked, effect_wf, SceneEffect};
use crate::game::{BMP_HEIGHT, BMP_WIDTH};
use crate::geom::{spec_intersect, Rect};
use crate::sprite::{
    spec_displayed, spec_front_of, spec_left, spec_pixel_overlap, spec_pos_step, spec_rect,
    spec_top, spec_vel_step, sprite_wf, Sprite,
};

verus! {

/// The canvas bounds as a rectangle at the origin.
pub open spec fn spec_canvas_rect() -> Rect {
    Rect { x: 0, y: 0, w: BMP_WIDTH, h: BMP_HEIGHT }
}

/// Some entry of the registry carries this sprite id.
pub open spec fn has_id(s: Seq<(usize, Sprite)>, id: usize) -> bool {
    exists|k: int| 0 <= k < s.len() && (#[trigger] s[k]).0 == id
}

/// The position of the entry carrying an id; meaningful only when
/// [`has_id`].
pub open spec fn id_index(s: Seq<(usize, Sprite)>, id: usize) -> int {
    choose|k: int| 0 <= k < s.len() && (#[trigger] s[k]).0 == id
}

/// The sprite registered under an id; meaningful only when [`has_id`].
pub open spec fn sprite_of(s: Seq<(usize, Sprite)>, id: usize) -> Sprite {
    s[id_index(s, id)].1
}

/// The kind pair is registered, in this orientation.
pub open spec fn registered(pairs: Seq<(usize, usize)>, a: usize, b: usize) -> bool {
    exists|k: int| 0 <= k < pairs.len() && #[trigger] pairs[k] == (a, b)
}

/// The sprite takes part in the draw pass.
pub open spec fn visible(sp: Sprite) -> bool {
    sp.flag & 2 == 0
}

/// The sprite is flagged for automatic removal and its bounding box no
/// longer intersects the canvas.
pub open spec fn purged(sp: Sprite) -> bool {
    sp.flag & 1 != 0 && spec_intersect(spec_rect(sp), spec_canvas_rect()) is None
}

/// One sprite tick, as [`Sprite::update`] performs it: the cursor
/// advanced, the extent refreshed from the displayed frame, the
/// velocity accelerated and the position integrated where motion is
/// live.
pub open spec fn sprite_ticked(
    o: Sprite,
    n: Sprite,
    dt: int,
    fm: Seq<(String, crate::anim::Frames)>,
) -> bool {
    &&& n.anmi.current_name@ == o.anmi.current_name@
    &&& n.anmi.elapsed_ms == sat_add_u64(o.anmi.elapsed_ms as int, dt)
    &&& match anim_current(n.anmi, fm) {
        Option::Some(b) => n.width == b@.w && n.height == bmp_height(b@),
        Option::None => n.width == o.width && n.height == o.height,
    }
    &&& n.vx as int == spec_vel_step(o.vx as int, o.ax as int, dt)
    &&& n.vy as int == spec_vel_step(o.vy as int, o.ay as int, dt)
    &&& n.x as int == spec_pos_step(o.x as int, n.vx as int, o.ax as int, o.fx as int, dt)
    &&& n.y as int == spec_pos_step(o.y as int, n.vy as int, o.ay as int, o.fy as int, dt)
    &&& n.z == o.z && n.z2 == o.z2
    &&& n.ax == o.ax && n.ay == o.ay
    &&& n.fx == o.fx && n.fy == o.fy
    &&& n.sx == o.sx && n.sy == o.sy
    &&& n.kind == o.kind && n.flag == o.flag
    &&& n.image == o.image
}

/// Every sprite of the new registry is its old counterpart advanced by
/// one tick, ids kept in place.
pub open spec fn sprites_all_ticked(
    o: Seq<(usize, Sprite)>,
    n: Seq<(usize, Sprite)>,
    dt: int,
    fm: Seq<(String, crate::anim::Frames)>,
) -> bool {
    &&& n.len() == o.len()
    &&& forall|k: int|
        0 <= k < n.len() ==> (#[trigger] n[k]).0 == o[k].0 && sprite_ticked(
            o[k].1,
            n[k].1,
            dt,
            fm,
        )
}

/// The registry of live sprites, the set of kind pairs to check for
/// overlap, the background, the active overlay and the clip registry.
pub struct Scene {
    /// The id counter: the last id handed out.
    pub last_idx: usize,
    /// Live sprites, keyed by id, in insertion order.
    pub sprites: Vec<(usize, Sprite)>,
    /// Registered unordered kind pairs for overlap checking.
    pub overlap_detections: Vec<(usize, usize)>,
    /// The background image every draw starts from.
    pub bgi: Canvas,
    /// The `z2` tie-breaker counter.
    pub current_z: i64,
    /// The clip registry, populated by the driving collaborator.
    pub frame_mgr: FrameMgr,
    /// The active effect overlay.
    pub effect: SceneEffect,
}

/// The scene's invariant: ids and tie-breakers strictly increase in
/// insertion order and stay below their counters, every sprite and
/// every clip frame is a well-formed bitmap, and the background is a
/// full canvas.
pub open spec fn scene_wf(s: Scene) -> bool {
    &&& forall|i: int, j: int|
        0 <= i < j < s.sprites@.len() ==> (#[trigger] s.sprites@[i]).0 < (
        #[trigger] s.sprites@[j]).0
    &&& forall|i: int, j: int|
        0 <= i < j < s.sprites@.len() ==> (#[trigger] s.sprites@[i]).1.z2 < (
        #[trigger] s.sprites@[j]).1.z2
    &&& forall|i: int| 0 <= i < s.sprites@.len() ==> (#[trigger] s.sprites@[i]).0 <= s.last_idx
    &&& forall|i: int| 0 <= i < s.sprites@.len() ==> (#[trigger] s.sprites@[i]).1.z2 <= s.current_z
    &&& forall|i: int| 0 <= i < s.sprites@.len() ==> sprite_wf((#[trigger] s.sprites@[i]).1)
    &&& canvas_wf(s.bgi@)
    &&& effect_wf(s.effect)
    &&& fmr_wf(s.frame_mgr.frames@)
}

impl Scene {
    /// An empty scene over the given clip registry: no sprites, no
    /// registered pairs, a transparent background and the idle overlay.
    pub fn new(fmr: FrameMgr) -> (s: Scene)
        requires
            fmr_wf(fmr.frames@),
        ensures
            s.last_idx == 0,
            s.sprites@ == Seq::<(usize, Sprite)>::empty(),
            s.overlap_detections@ == Seq::<(usize, usize)>::empty(),
            s.bgi@ =~= Seq::new((BMP_WIDTH * BMP_HEIGHT) as nat, |i: int| 0u32),
            s.current_z == 1,
            s.frame_mgr == fmr,
            s.effect is Dummy,
            scene_wf(s),
    {
        Scene {
            last_idx: 0,
            sprites: Vec::new(),
            overlap_detections: Vec::new(),
            bgi: Canvas::new(),
            current_z: 1,
            frame_mgr: fmr,
            effect: SceneEffect::dummy(),
        }
    }

    /// Replaces the active effect overlay wholesale.
    pub fn active_effect(&mut self, effect: SceneEffect)
        requires
            effect_wf(effect),
        ensures
            final(self).effect == effect,
            final(self).sprites == old(self).sprites,
            final(self).overlap_detections == old(self).overlap_detections,
            final(self).bgi == old(self).bgi,
            final(self).last_idx == old(self).last_idx,
            final(self).current_z == old(self).current_z,
            final(self).frame_mgr == old(self).frame_mgr,
            scene_wf(*old(self)) ==> scene_wf(*final(self)),
    {
        self.effect = effect;
    }

    /// Inserts a sprite: assigns it the next id and the next `z2`
    /// tie-breaker, and returns the id.
    pub fn add_sprite(&mut self, s: Sprite) -> (r: usize)
        requires
            scene_wf(*old(self)),
            sprite_wf(s),
            old(self).last_idx < usize::MAX,
            old(self).current_z < i64::MAX,
        ensures
            r == old(self).last_idx + 1,
            final(self).last_idx == old(self).last_idx + 1,
            final(self).current_z == old(self).current_z + 1,
            final(self).sprites@ == old(self).sprites@.push(
                (r, Sprite { z2: (old(self).current_z + 1) as i64, ..s }),
            ),
            final(self).overlap_detections == old(self).overlap_detections,
            final(self).bgi == old(self).bgi,
            final(self).frame_mgr == old(self).frame_mgr,
            final(self).effect == old(self).effect,
            scene_wf(*final(self)),
            has_id(final(self).sprites@, r),
    {
        self.current_z = self.current_z + 1;
        let mut s2 = s;
        s2.z2 = self.current_z;
        self.last_idx = self.last_idx + 1;
        self.sprites.push((self.last_idx, s2));
        proof {
            let v = self.sprites@;
            assert((v[v.len() - 1]).0 == self.last_idx);
        }
        self.last_idx
    }

    /// Removes the sprite registered under the id; unknown ids leave
    /// the scene untouched.
    pub fn remove_sprite(&mut self, i: usize)
        requires
            scene_wf(*old(self)),
        ensures
            !has_id(old(self).sprites@, i) ==> *final(self) == *old(self),
            has_id(old(self).sprites@, i) ==> final(self).sprites@ == old(self).sprites@.remove(
                id_index(old(self).sprites@, i),
            ),
            !has_id(final(self).sprites@, i),
            final(self).overlap_detections == old(self).overlap_detections,
            final(self).bgi == old(self).bgi,
            final(self).last_idx == old(self).last_idx,
            final(self).current_z == old(self).current_z,
            final(self).frame_mgr == old(self).frame_mgr,
            final(self).effect == old(self).effect,
            scene_wf(*final(self)),
    {
        match self.index_of(i) {
            Option::None => {},
            Option::Some(k) => {
                proof {
                    lemma_id_at(self.sprites@, k as int, i);
                }
                self.sprites.remove(k);
                proof {
                    let v0 = old(self).sprites@;
                    let v1 = self.sprites@;
                    assert forall|a: int| 0 <= a < v1.len() implies (#[trigger] v1[a]).0 != i by {
                        if a < k as int {
                            assert(v1[a] == v0[a]);
                        } else {
                            assert(v1[a] == v0[a + 1]);
                        }
                    }
                }
            },
        }
    }

    /// The position of the entry carrying this id, if any.
    fn index_of(&self, i: usize) -> (r: Option<usize>)
        ensures
            match r {
                Option::Some(k) => k < self.sprites@.len() && self.sprites@[k as int].0 == i,
                Option::None => !has_id(self.sprites@, i),
            },
    {
        let n = self.sprites.len();
        let mut k: usize = 0;
        while k < n
            invariant
                k <= n,
                n == self.sprites@.len(),
                forall|a: int| 0 <= a < k ==> (#[trigger] self.sprites@[a]).0 != i,
            decreases n - k,
        {
            if self.sprites[k].0 == i {
                return Option::Some(k);
            }
            k = k + 1;
        }
        Option::None
    }

    /// A read view of the sprite registered under the id, or `None`
    /// when the id is unknown.
    pub fn get(&self, i: usize) -> (r: Option<&Sprite>)
        requires
            scene_wf(*self),
        ensures
            match r {
                Option::Some(sp) => has_id(self.sprites@, i) && *sp == sprite_of(
                    self.sprites@,
                    i,
                ),
                Option::None => !has_id(self.sprites@, i),
            },
    {
        match self.index_of(i) {
            Option::None => Option::None,
            Option::Some(k) => {
                proof {
                    lemma_id_at(self.sprites@, k as int, i);
                }
                Option::Some(&self.sprites[k].1)
            },
        }
    }

    /// A write view of the sprite registered under the id, or `None`
    /// when the id is unknown.  The caller may change every field but
    /// must leave `z2` alone to keep the render order strict.
    pub fn get_mut(&mut self, i: usize) -> (r: Option<&mut Sprite>)
        requires
            scene_wf(*old(self)),
        ensures
            match r {
                Option::Some(p) => {
                    &&& has_id(old(self).sprites@, i)
                    &&& *p == sprite_of(old(self).sprites@, i)
                    &&& final(self).sprites@ == old(self).sprites@.update(
                        id_index(old(self).sprites@, i),
                        (i, *final(p)),
                    )
                    &&& final(self).overlap_detections == old(self).overlap_detections
                    &&& final(self).bgi == old(self).bgi
                    &&& final(self).last_idx == old(self).last_idx
                    &&& final(self).current_z == old(self).current_z
                    &&& final(self).frame_mgr == old(self).frame_mgr
                    &&& final(self).effect == old(self).effect
                },
                Option::None => !has_id(old(self).sprites@, i) && *final(self) == *old(self),
            },
    {
        match self.index_of(i) {
            Option::None => Option::None,
            Option::Some(k) => {
                proof {
                    lemma_id_at(self.sprites@, k as int, i);
                }
                let entry = &mut self.sprites[k];
                Option::Some(&mut entry.1)
            },
        }
    }

    /// Composites an image into the background at the origin.  A fully
    /// opaque image replaces the background; transparent pixels keep
    /// what was there.
    pub fn set_bgi(&mut self, img: Bitmap)
        requires
            scene_wf(*old(self)),
            bmp_wf(img@),
        ensures
            final(self).bgi@ == blit(old(self).bgi@, img@, 0, 0),
            final(self).sprites == old(self).sprites,
            final(self).overlap_detections == old(self).overlap_detections,
            final(self).last_idx == old(self).last_idx,
            final(self).current_z == old(self).current_z,
            final(self).frame_mgr == old(self).frame_mgr,
            final(self).effect == old(self).effect,
            scene_wf(*final(self)),
    {
        self.bgi.draw(0, 0, &img);
    }

    /// Registers an unordered kind pair for overlap checking.  The
    /// registered set only grows; a pair already present, in this
    /// orientation, is not duplicated.
    pub fn add_overlap_detection(&mut self, kind1: usize, kind2: usize)
        requires
            scene_wf(*old(self)),
        ensures
            registered(final(self).overlap_detections@, kind1, kind2),
            forall|a: usize, b: usize|
                #[trigger] registered(final(self).overlap_detections@, a, b) == (registered(
                    old(self).overlap_detections@,
                    a,
                    b,
                ) || (a == kind1 && b == kind2)),
            final(self).sprites == old(self).sprites,
            final(self).bgi == old(self).bgi,
            final(self).last_idx == old(self).last_idx,
            final(self).current_z == old(self).current_z,
            final(self).frame_mgr == old(self).frame_mgr,
            final(self).effect == old(self).effect,
            scene_wf(*final(self)),
    {
        let n = self.overlap_detections.len();
        let mut k: usize = 0;
        while k < n
            invariant
                k <= n,
                n == self.overlap_detections@.len(),
                *self == *old(self),
                scene_wf(*self),
                forall|a: int| 0 <= a < k ==> #[trigger] self.overlap_detections@[a] != (
                kind1, kind2),
            decreases n - k,
        {
            let p = self.overlap_detections[k];
            if p.0 == kind1 && p.1 == kind2 {
                proof {
                    assert(registered(self.overlap_detections@, kind1, kind2));
                    lemma_registered_same(self.overlap_detections@, kind1, kind2);
                }
                return ;
            }
            k = k + 1;
        }
        self.overlap_detections.push((kind1, kind2));
        proof {
            let v0 = old(self).overlap_detections@;
            let v1 = self.overlap_detections@;
            assert(v1[v1.len() - 1] == (kind1, kind2));
            assert forall|a: usize, b: usize| #[trigger] registered(v1, a, b) == (registered(
                v0,
                a,
                b,
            ) || (a == kind1 && b == kind2)) by {
                if registered(v0, a, b) {
                    let w = choose|w: int| 0 <= w < v0.len() && #[trigger] v0[w] == (a, b);
                    assert(v1[w] == (a, b));
                }
                if a == kind1 && b == kind2 {
                    assert(v1[v1.len() - 1] == (a, b));
                }
                if registered(v1, a, b) {
                    let w = choose|w: int| 0 <= w < v1.len() && #[trigger] v1[w] == (a, b);
                    if w < v0.len() {
                        assert(v0[w] == (a, b));
                    }
                }
            }
        }
    }

    /// One tick: advance every sprite's animation and physics, advance
    /// the effect overlay, then purge every auto-destroy sprite whose
    /// post-physics bounding box no longer intersects the canvas.
    pub fn update(&mut self, dt_ms: u64)
        requires
            scene_wf(*old(self)),
        ensures
            exists|mid: Seq<(usize, Sprite)>|
                #[trigger] sprites_all_ticked(
                    old(self).sprites@,
                    mid,
                    dt_ms as int,
                    old(self).frame_mgr.frames@,
                ) && final(self).sprites@ == mid.filter(|e: (usize, Sprite)| !purged(e.1)),
            effect_ticked(old(self).effect, final(self).effect, dt_ms as int),
            final(self).overlap_detections == old(self).overlap_detections,
            final(self).bgi == old(self).bgi,
            final(self).last_idx == old(self).last_idx,
            final(self).current_z == old(self).current_z,
            final(self).frame_mgr == old(self).frame_mgr,
            scene_wf(*final(self)),
    {
        let n = self.sprites.len();
        let mut k: usize = 0;
        while k < n
            invariant
                k <= n,
                n == self.sprites@.len(),
                self.sprites@.len() == old(self).sprites@.len(),
                fmr_wf(self.frame_mgr.frames@),
                self.frame_mgr == old(self).frame_mgr,
                self.effect == old(self).effect,
                self.bgi == old(self).bgi,
                self.overlap_detections == old(self).overlap_detections,
                self.last_idx == old(self).last_idx,
                self.current_z == old(self).current_z,
                effect_wf(self.effect),
                canvas_wf(self.bgi@),
                forall|a: int|
                    k <= a < n ==> #[trigger] self.sprites@[a] == old(self).sprites@[a],
                forall|a: int|
                    0 <= a < k ==> (#[trigger] self.sprites@[a]).0 == old(self).sprites@[a].0
                        && sprite_ticked(
                        old(self).sprites@[a].1,
                        self.sprites@[a].1,
                        dt_ms as int,
                        old(self).frame_mgr.frames@,
                    ),
                forall|a: int|
                    0 <= a < n ==> (#[trigger] self.sprites@[a]).0 == old(self).sprites@[a].0
                        && self.sprites@[a].1.z2 == old(self).sprites@[a].1.z2 && sprite_wf(
                        self.sprites@[a].1,
                    ),
            decreases n - k,
        {
            let ghost pre = self.sprites@;
            let entry = &mut self.sprites[k];
            entry.1.update(dt_ms, &self.frame_mgr);
            proof {
                assert(self.sprites@ == pre.update(k as int, self.sprites@[k as int]));
                assert(self.sprites@[k as int].0 == pre[k as int].0);
                assert(sprite_ticked(
                    pre[k as int].1,
                    self.sprites@[k as int].1,
                    dt_ms as int,
                    old(self).frame_mgr.frames@,
                ));
            }
            k = k + 1;
        }
        let ghost mid = self.sprites@;
        self.effect.update(dt_ms);
        let mut r: usize = n;
        proof {
            assert(mid.skip(n as int) =~= Seq::<(usize, Sprite)>::empty());
            assert(mid.take(n as int) =~= mid);
            
        }
        while r > 0
            invariant
                r <= n,
                n == mid.len(),
                effect_wf(self.effect),
                effect_ticked(old(self).effect, self.effect, dt_ms as int),
                fmr_wf(self.frame_mgr.frames@),
                self.frame_mgr == old(self).frame_mgr,
                self.bgi == old(self).bgi,
                self.overlap_detections == old(self).overlap_detections,
                self.last_idx == old(self).last_idx,
                self.current_z == old(self).current_z,
                canvas_wf(self.bgi@),
                self.sprites@ =~= mid.take(r as int) + mid.skip(r as int).filter(
                    |e: (usize, Sprite)| !purged(e.1),
                ),
                forall|i: int, j: int|
                    0 <= i < j < self.sprites@.len() ==> (#[trigger] self.sprites@[i]).0 < (
                    #[trigger] self.sprites@[j]).0,
                forall|i: int, j: int|
                    0 <= i < j < self.sprites@.len() ==> (#[trigger] self.sprites@[i]).1.z2 < (
                    #[trigger] self.sprites@[j]).1.z2,
                forall|i: int|
                    0 <= i < self.sprites@.len() ==> (#[trigger] self.sprites@[i]).0
                        <= old(self).last_idx,
                forall|i: int|
                    0 <= i < self.sprites@.len() ==> (#[trigger] self.sprites@[i]).1.z2
                        <= old(self).current_z,
                forall|i: int|
                    0 <= i < self.sprites@.len() ==> sprite_wf((#[trigger] self.sprites@[i]).1),
            decreases r,
        {
            r = r - 1;
            let ghost pred = |e: (usize, Sprite)| !purged(e.1);
            let ghost before = self.sprites@;
            proof {
                assert(mid.skip(r as int) =~= seq![mid[r as int]] + mid.skip(r as int + 1));
                Seq::filter_distributes_over_add(
                    seq![mid[r as int]],
                    mid.skip(r as int + 1),
                    pred,
                );
                reveal(Seq::filter);
                assert(seq![mid[r as int]].drop_last() =~= Seq::<(usize, Sprite)>::empty());
                assert(Seq::<(usize, Sprite)>::empty().filter(pred) =~= Seq::<(
                    usize,
                    Sprite,
                )>::empty());
                assert(seq![mid[r as int]].filter(pred) =~= (if pred(mid[r as int]) {
                    seq![mid[r as int]]
                } else {
                    Seq::<(usize, Sprite)>::empty()
                }));
            }
            let flagged = self.sprites[r].1.flag & 1u32 != 0;
            let gone = if flagged {
                let rect = self.sprites[r].1.rect();
                let cr = Rect { x: 0, y: 0, w: BMP_WIDTH, h: BMP_HEIGHT };
                rect.intersect(&cr).is_none()
            } else {
                false
            };
            proof {
                assert(before[r as int] == mid[r as int]);
                assert(gone == purged(mid[r as int].1));
            }
            if gone {
                self.sprites.remove(r);
                proof {
                    assert(mid.skip(r as int).filter(pred) =~= mid.skip(r as int + 1).filter(
                        pred,
                    ));
                    assert(self.sprites@ =~= before.remove(r as int));
                    assert(self.sprites@ =~= mid.take(r as int) + mid.skip(r as int).filter(
                        pred,
                    ));
                }
            } else {
                proof {
                    assert(mid.skip(r as int).filter(pred) =~= seq![mid[r as int]] + mid.skip(
                        r as int + 1,
                    ).filter(pred));
                    assert(self.sprites@ =~= mid.take(r as int) + mid.skip(r as int).filter(
                        pred,
                    ));
                }
            }
        }
        proof {
            assert(mid.take(0) =~= Seq::<(usize, Sprite)>::empty());
            assert(mid.skip(0) =~= mid);
            assert(self.sprites@ =~= mid.filter(|e: (usize, Sprite)| !purged(e.1)));
            assert(sprites_all_ticked(
                old(self).sprites@,
                mid,
                dt_ms as int,
                old(self).frame_mgr.frames@,
            ));
        }
    }
}

/// A back-to-front order over the registry: every listed position is a
/// visible sprite, every visible sprite is listed exactly once, and no
/// listed sprite is in front of a later one.
pub open spec fn valid_draw_order(s: Seq<(usize, Sprite)>, ord: Seq<usize>) -> bool {
    &&& forall|a: int|
        0 <= a < ord.len() ==> (#[trigger] ord[a]) < s.len() && visible(s[ord[a] as int].1)
    &&& forall|k: int|
        0 <= k < s.len() && visible((#[trigger] s[k]).1) ==> ord.contains(k as usize)
    &&& forall|a: int, b: int| 0 <= a < b < ord.len() ==> ord[a] != ord[b]
    &&& forall|a: int, b: int|
        0 <= a < b < ord.len() ==> !spec_front_of(s[ord[a] as int].1, s[ord[b] as int].1)
}

/// The canvas after the sprite at registry position `k` is composited
/// through its displayed image at its top-left corner.
pub open spec fn draw_one(
    c: Seq<u32>,
    s: Seq<(usize, Sprite)>,
    fm: Seq<(String, crate::anim::Frames)>,
    k: int,
) -> Seq<u32> {
    blit(c, spec_displayed(s[k].1, fm), spec_left(s[k].1), spec_top(s[k].1))
}

/// The canvas after every listed sprite is composited, in list order.
pub open spec fn render_list(
    c: Seq<u32>,
    s: Seq<(usize, Sprite)>,
    fm: Seq<(String, crate::anim::Frames)>,
    ord: Seq<usize>,
) -> Seq<u32>
    decreases ord.len(),
{
    if ord.len() == 0 {
        c
    } else {
        render_list(draw_one(c, s, fm, ord[0] as int), s, fm, ord.drop_first())
    }
}

impl Scene {
    /// Renders one frame: resets the canvas to the background,
    /// composites the effect overlay, then composites every visible
    /// sprite back to front in the strict render order.
    pub fn draw(&self, canvas: &mut Canvas)
        requires
            scene_wf(*self),
        ensures
            canvas_wf(final(canvas)@),
            exists|ord: Seq<usize>|
                #[trigger] valid_draw_order(self.sprites@, ord) && final(canvas)@ == render_list(
                    effect_draw_spec(self.effect, self.bgi@),
                    self.sprites@,
                    self.frame_mgr.frames@,
                    ord,
                ),
    {
        canvas.copy_from(&self.bgi);
        self.effect.draw(canvas);
        let ghost base = canvas@;
        let n = self.sprites.len();
        let mut remaining: Vec<usize> = Vec::new();
        let mut k: usize = 0;
        while k < n
            invariant
                k <= n,
                n == self.sprites@.len(),
                forall|a: int|
                    0 <= a < remaining@.len() ==> (#[trigger] remaining@[a]) < k && visible(
                        self.sprites@[remaining@[a] as int].1,
                    ),
                forall|a: int, b: int|
                    0 <= a < b < remaining@.len() ==> remaining@[a] < remaining@[b],
                forall|q: int|
                    0 <= q < k && visible((#[trigger] self.sprites@[q]).1)
                        ==> remaining@.contains(q as usize),
            decreases n - k,
        {
            if self.sprites[k].1.flag & 2u32 == 0 {
                let ghost rem0 = remaining@;
                remaining.push(k);
                proof {
                    assert(remaining@[remaining@.len() - 1] == k);
                    assert forall|q: int|
                        0 <= q < k + 1 && visible((#[trigger] self.sprites@[q]).1)
                            implies remaining@.contains(q as usize) by {
                        if q < k {
                            let w = choose|w: int| 0 <= w < rem0.len() && rem0[w] == q as usize;
                            assert(remaining@[w] == q as usize);
                        } else {
                            assert(remaining@[remaining@.len() - 1] == q as usize);
                        }
                    }
                }
            }
            k = k + 1;
        }
        let mut rs: Vec<usize> = Vec::new();
        while remaining.len() > 0
            invariant
                n == self.sprites@.len(),
                scene_wf(*self),
                forall|a: int|
                    0 <= a < remaining@.len() ==> (#[trigger] remaining@[a]) < n && visible(
                        self.sprites@[remaining@[a] as int].1,
                    ),
                forall|a: int|
                    0 <= a < rs@.len() ==> (#[trigger] rs@[a]) < n && visible(
                        self.sprites@[rs@[a] as int].1,
                    ),
                forall|a: int, b: int|
                    0 <= a < b < remaining@.len() ==> remaining@[a] != remaining@[b],
                forall|a: int, b: int| 0 <= a < b < rs@.len() ==> rs@[a] != rs@[b],
                forall|a: int, b: int|
                    0 <= a < rs@.len() && 0 <= b < remaining@.len() ==> rs@[a] != remaining@[b],
                forall|q: int|
                    0 <= q < n && visible((#[trigger] self.sprites@[q]).1) ==> rs@.contains(
                        q as usize,
                    ) || remaining@.contains(q as usize),
                forall|a: int, b: int|
                    0 <= a < b < rs@.len() ==> !spec_front_of(
                        self.sprites@[rs@[a] as int].1,
                        self.sprites@[rs@[b] as int].1,
                    ),
                forall|a: int, b: int|
                    0 <= a < rs@.len() && 0 <= b < remaining@.len() ==> !spec_front_of(
                        self.sprites@[rs@[a] as int].1,
                        self.sprites@[remaining@[b] as int].1,
                    ),
            decreases remaining@.len(),
        {
            let mut mi: usize = 0;
            let mut m: usize = remaining[0];
            let mut j: usize = 1;
            while j < remaining.len()
                invariant
                    n == self.sprites@.len(),
                    scene_wf(*self),
                    remaining@.len() > 0,
                    1 <= j <= remaining@.len(),
                    mi < j,
                    m == remaining@[mi as int],
                    forall|a: int|
                        0 <= a < remaining@.len() ==> (#[trigger] remaining@[a]) < n && visible(
                            self.sprites@[remaining@[a] as int].1,
                        ),
                    forall|a: int, b: int|
                        0 <= a < b < remaining@.len() ==> remaining@[a] != remaining@[b],
                    forall|a: int|
                        0 <= a < j && a != mi ==> spec_front_of(
                            self.sprites@[remaining@[a] as int].1,
                            self.sprites@[m as int].1,
                        ),
                decreases remaining@.len() - j,
            {
                let cand = remaining[j];
                if Sprite::front_of(&self.sprites[m].1, &self.sprites[cand].1) {
                    proof {
                        lemma_front_of_asymmetric(
                            self.sprites@[m as int].1,
                            self.sprites@[cand as int].1,
                        );
                        assert forall|a: int|
                            0 <= a < j + 1 && a != j implies spec_front_of(
                            self.sprites@[remaining@[a] as int].1,
                            self.sprites@[cand as int].1,
                        ) by {
                            if a != mi as int {
                                lemma_front_of_transfer(
                                    self.sprites@[remaining@[a] as int].1,
                                    self.sprites@[m as int].1,
                                    self.sprites@[cand as int].1,
                                );
                            }
                        }
                    }
                    m = cand;
                    mi = j;
                }
                j = j + 1;
            }
            proof {
                let rem = remaining@;
                assert forall|a: int| 0 <= a < rem.len() && a != mi implies spec_front_of(
                    self.sprites@[rem[a] as int].1,
                    self.sprites@[m as int].1,
                ) by {}
            }
            let ghost rem0 = remaining@;
            let ghost rs0 = rs@;
            remaining.remove(mi);
            rs.push(m);
            proof {
                assert(rs@[rs@.len() - 1] == m);
                assert forall|q: int|
                    0 <= q < n && visible((#[trigger] self.sprites@[q]).1) implies rs@.contains(
                    q as usize,
                ) || remaining@.contains(q as usize) by {
                    if rs0.contains(q as usize) {
                        let w = choose|w: int| 0 <= w < rs0.len() && rs0[w] == q as usize;
                        assert(rs@[w] == q as usize);
                    } else {
                        let w = choose|w: int| 0 <= w < rem0.len() && rem0[w] == q as usize;
                        if w == mi as int {
                            assert(rs@[rs@.len() - 1] == q as usize);
                        } else if w < mi as int {
                            assert(remaining@[w] == q as usize);
                        } else {
                            assert(remaining@[w - 1] == q as usize);
                        }
                    }
                }
                assert forall|a: int, b: int|
                    0 <= a < rs@.len() && 0 <= b < remaining@.len() implies !spec_front_of(
                    self.sprites@[rs@[a] as int].1,
                    self.sprites@[remaining@[b] as int].1,
                ) && rs@[a] != remaining@[b] by {
                    let ob = if b < mi as int {
                        b
                    } else {
                        b + 1
                    };
                    assert(remaining@[b] == rem0[ob]);
                    if a < rs@.len() - 1 {
                        assert(rs@[a] == rs0[a]);
                    } else {
                        assert(rs@[a] == m);
                        lemma_front_of_asymmetric(
                            self.sprites@[rem0[ob] as int].1,
                            self.sprites@[m as int].1,
                        );
                    }
                }
            }
        }
        let ghost ord = rs@;
        proof {
            assert(valid_draw_order(self.sprites@, ord));
            assert(ord.skip(0) =~= ord);
        }
        let rn = rs.len();
        let mut i: usize = 0;
        while i < rn
            invariant
                i <= rn,
                rn == ord.len(),
                ord == rs@,
                n == self.sprites@.len(),
                scene_wf(*self),
                canvas_wf(canvas@),
                forall|a: int|
                    0 <= a < ord.len() ==> (#[trigger] ord[a]) < n && visible(
                        self.sprites@[ord[a] as int].1,
                    ),
                render_list(base, self.sprites@, self.frame_mgr.frames@, ord) == render_list(
                    canvas@,
                    self.sprites@,
                    self.frame_mgr.frames@,
                    ord.skip(i as int),
                ),
            decreases rn - i,
        {
            let ghost rest = ord.skip(i as int);
            proof {
                assert(rest[0] == ord[i as int]);
                assert(rest.drop_first() =~= ord.skip(i as int + 1));
            }
            let ghost cpre = canvas@;
            let k = rs[i];
            let sp = &self.sprites[k].1;
            proof {
                crate::anim::lemma_anim_current_wf(sp.anmi, self.frame_mgr.frames@);
            }
            let img = match sp.current_image(&self.frame_mgr) {
                Option::Some(b) => b,
                Option::None => &sp.image,
            };
            proof {
                assert(img@ == spec_displayed(*sp, self.frame_mgr.frames@));
            }
            let l = sp.left();
            let t = sp.top();
            canvas.draw(l, t, img);
            proof {
                assert(canvas@ == draw_one(
                    cpre,
                    self.sprites@,
                    self.frame_mgr.frames@,
                    k as int,
                ));
            }
            i = i + 1;
        }
        proof {
            assert(ord.skip(rn as int) =~= Seq::<usize>::empty());
        }
    }
}

/// The two sprites' bounding boxes intersect and their displayed
/// images share an opaque pixel somewhere inside the intersection.
pub open spec fn sprites_overlap(
    sp1: Sprite,
    sp2: Sprite,
    fm: Seq<(String, crate::anim::Frames)>,
) -> bool {
    match spec_intersect(spec_rect(sp1), spec_rect(sp2)) {
        Option::Some(r) => spec_pixel_overlap(sp1, sp2, r, fm),
        Option::None => false,
    }
}

/// The overlap check reports this tuple: two distinct live sprites with
/// these ids and kinds, their kind pair registered in either
/// orientation, overlapping pixel-exactly.
pub open spec fn reported(s: Scene, t: (usize, usize, usize, usize)) -> bool {
    exists|i: int, j: int|
        {
            &&& 0 <= i < s.sprites@.len() && 0 <= j < s.sprites@.len()
            &&& i != j
            &&& (#[trigger] s.sprites@[i]).0 == t.0 && (#[trigger] s.sprites@[j]).0 == t.1
            &&& s.sprites@[i].1.kind == t.2 && s.sprites@[j].1.kind == t.3
            &&& (registered(s.overlap_detections@, t.2, t.3) || registered(
                s.overlap_detections@,
                t.3,
                t.2,
            ))
            &&& sprites_overlap(s.sprites@[i].1, s.sprites@[j].1, s.frame_mgr.frames@)
        }
}

/// The registered pair at this position matches the tuple's kinds, in
/// either orientation.
pub open spec fn pair_covers(
    pairs: Seq<(usize, usize)>,
    a: int,
    t: (usize, usize, usize, usize),
) -> bool {
    pairs[a] == (t.2, t.3) || pairs[a] == (t.3, t.2)
}

/// Appends a tuple unless it is already present, keeping the list free
/// of duplicates.
fn push_unique(out: &mut Vec<(usize, usize, usize, usize)>, t: (usize, usize, usize, usize))
    requires
        old(out)@.no_duplicates(),
    ensures
        final(out)@.no_duplicates(),
        forall|q: (usize, usize, usize, usize)|
            #[trigger] final(out)@.contains(q) == (old(out)@.contains(q) || q == t),
{
    let n = out.len();
    let mut k: usize = 0;
    while k < n
        invariant
            k <= n,
            n == out@.len(),
            out@ == old(out)@,
            out@.no_duplicates(),
            forall|a: int| 0 <= a < k ==> #[trigger] out@[a] != t,
        decreases n - k,
    {
        if out[k].0 == t.0 && out[k].1 == t.1 && out[k].2 == t.2 && out[k].3 == t.3 {
            proof {
                assert(out@[k as int] == t);
                assert(out@.contains(t));
            }
            return ;
        }
        k = k + 1;
    }
    let ghost o0 = out@;
    out.push(t);
    proof {
        assert(out@[out@.len() - 1] == t);
        assert(!o0.contains(t));
        assert forall|q: (usize, usize, usize, usize)| #[trigger] out@.contains(q) == (
        o0.contains(q) || q == t) by {
            if o0.contains(q) {
                let w = choose|w: int| 0 <= w < o0.len() && o0[w] == q;
                assert(out@[w] == q);
            }
            if out@.contains(q) {
                let w = choose|w: int| 0 <= w < out@.len() && out@[w] == q;
                if w < o0.len() {
                    assert(o0[w] == q);
                }
            }
        }
        assert forall|x: int, y: int|
            0 <= x < out@.len() && 0 <= y < out@.len() && x != y implies out@[x] != out@[y] by {
            if x < o0.len() && y < o0.len() {
                assert(o0[x] == out@[x] && o0[y] == out@[y]);
            } else if y == o0.len() as int {
                assert(out@[y] == t && out@[x] == o0[x]);
                assert(o0.contains(o0[x]));
            } else {
                assert(out@[x] == t && out@[y] == o0[y]);
                assert(o0.contains(o0[y]));
            }
        }
    }
}

/// Overlap between two sprites is symmetric: the same region is tested
/// from both sides, pixel for pixel.
pub proof fn lemma_sprites_overlap_symmetric(
    sp1: Sprite,
    sp2: Sprite,
    fm: Seq<(String, crate::anim::Frames)>,
)
    ensures
        sprites_overlap(sp1, sp2, fm) == sprites_overlap(sp2, sp1, fm),
{
    crate::geom::lemma_intersect_symmetric(spec_rect(sp1), spec_rect(sp2));
    match spec_intersect(spec_rect(sp1), spec_rect(sp2)) {
        Option::Some(r) => {
            if spec_pixel_overlap(sp1, sp2, r, fm) {
                let (dx, dy) = choose|dx: int, dy: int|
                    0 <= dx < r.w && 0 <= dy < r.h && crate::sprite::spec_overlap_hit(
                        sp1,
                        sp2,
                        r,
                        fm,
                        dx,
                        dy,
                    );
                assert(crate::sprite::spec_overlap_hit(sp2, sp1, r, fm, dx, dy));
                assert(spec_pixel_overlap(sp2, sp1, r, fm));
            }
            if spec_pixel_overlap(sp2, sp1, r, fm) {
                let (dx, dy) = choose|dx: int, dy: int|
                    0 <= dx < r.w && 0 <= dy < r.h && crate::sprite::spec_overlap_hit(
                        sp2,
                        sp1,
                        r,
                        fm,
                        dx,
                        dy,
                    );
                assert(crate::sprite::spec_overlap_hit(sp1, sp2, r, fm, dx, dy));
                assert(spec_pixel_overlap(sp1, sp2, r, fm));
            }
        },
        Option::None => {},
    }
}

impl Scene {
    /// Runs the registered overlap checks: for every registered kind
    /// pair, every pair of distinct live sprites crossing both kinds is
    /// bounding-box filtered and then pixel-tested; a true result is
    /// reported in both orderings, deduplicated.
    pub fn check_overlaps(&self) -> (r: Vec<(usize, usize, usize, usize)>)
        requires
            scene_wf(*self),
        ensures
            r@.no_duplicates(),
            forall|t: (usize, usize, usize, usize)|
                #[trigger] r@.contains(t) <==> reported(*self, t),
    {
        let mut out: Vec<(usize, usize, usize, usize)> = Vec::new();
        let np = self.overlap_detections.len();
        if np == 0 {
            proof {
                assert forall|t: (usize, usize, usize, usize)| !reported(*self, t) by {
                    assert(!registered(self.overlap_detections@, t.2, t.3));
                    assert(!registered(self.overlap_detections@, t.3, t.2));
                }
            }
            return out;
        }
        let n = self.sprites.len();
        let mut a: usize = 0;
        while a < np
            invariant
                a <= np,
                np == self.overlap_detections@.len(),
                n == self.sprites@.len(),
                scene_wf(*self),
                out@.no_duplicates(),
                forall|q: (usize, usize, usize, usize)|
                    #[trigger] out@.contains(q) ==> reported(*self, q),
                forall|t: (usize, usize, usize, usize), a2: int|
                    reported(*self, t) && 0 <= a2 < a && #[trigger] pair_covers(
                        self.overlap_detections@,
                        a2,
                        t,
                    ) ==> out@.contains(t),
            decreases np - a,
        {
            let k1 = self.overlap_detections[a].0;
            let k2 = self.overlap_detections[a].1;
            let mut i: usize = 0;
            while i < n
                invariant
                    i <= n,
                    a < np,
                    np == self.overlap_detections@.len(),
                    n == self.sprites@.len(),
                    scene_wf(*self),
                    (k1, k2) == self.overlap_detections@[a as int],
                    out@.no_duplicates(),
                    forall|q: (usize, usize, usize, usize)|
                        #[trigger] out@.contains(q) ==> reported(*self, q),
                    forall|t: (usize, usize, usize, usize), a2: int|
                        reported(*self, t) && 0 <= a2 < a && #[trigger] pair_covers(
                            self.overlap_detections@,
                            a2,
                            t,
                        ) ==> out@.contains(t),
                    forall|t: (usize, usize, usize, usize)|
                        #[trigger] reported(*self, t) && self.overlap_detections@[a as int] == (
                        t.2, t.3) && id_index(self.sprites@, t.0) < i ==> out@.contains(t),
                    forall|t: (usize, usize, usize, usize)|
                        #[trigger] reported(*self, t) && self.overlap_detections@[a as int] == (
                        t.3, t.2) && id_index(self.sprites@, t.1) < i ==> out@.contains(t),
                decreases n - i,
            {
                if self.sprites[i].1.kind == k1 {
                    let mut j: usize = 0;
                    while j < n
                        invariant
                            j <= n,
                            i < n,
                            a < np,
                            np == self.overlap_detections@.len(),
                            n == self.sprites@.len(),
                            scene_wf(*self),
                            (k1, k2) == self.overlap_detections@[a as int],
                            self.sprites@[i as int].1.kind == k1,
                            out@.no_duplicates(),
                            forall|q: (usize, usize, usize, usize)|
                                #[trigger] out@.contains(q) ==> reported(*self, q),
                            forall|t: (usize, usize, usize, usize), a2: int|
                                reported(*self, t) && 0 <= a2 < a && #[trigger] pair_covers(
                                    self.overlap_detections@,
                                    a2,
                                    t,
                                ) ==> out@.contains(t),
                            forall|t: (usize, usize, usize, usize)|
                                #[trigger] reported(*self, t)
                                    && self.overlap_detections@[a as int] == (t.2, t.3)
                                    && id_index(self.sprites@, t.0) < i ==> out@.contains(t),
                            forall|t: (usize, usize, usize, usize)|
                                #[trigger] reported(*self, t)
                                    && self.overlap_detections@[a as int] == (t.3, t.2)
                                    && id_index(self.sprites@, t.1) < i ==> out@.contains(t),
                            forall|t: (usize, usize, usize, usize)|
                                #[trigger] reported(*self, t)
                                    && self.overlap_detections@[a as int] == (t.2, t.3)
                                    && id_index(self.sprites@, t.0) == i && id_index(
                                    self.sprites@,
                                    t.1,
                                ) < j ==> out@.contains(t),
                            forall|t: (usize, usize, usize, usize)|
                                #[trigger] reported(*self, t)
                                    && self.overlap_detections@[a as int] == (t.3, t.2)
                                    && id_index(self.sprites@, t.1) == i && id_index(
                                    self.sprites@,
                                    t.0,
                                ) < j ==> out@.contains(t),
                        decreases n - j,
                    {
                        if i != j && self.sprites[j].1.kind == k2 {
                            let sp1 = &self.sprites[i].1;
                            let sp2 = &self.sprites[j].1;
                            let hit = match sp1.intersect_with(sp2) {
                                Option::Some(rect) => sp1.pixel_overlap(
                                    sp2,
                                    &rect,
                                    &self.frame_mgr,
                                ),
                                Option::None => false,
                            };
                            proof {
                                assert(hit == sprites_overlap(
                                    self.sprites@[i as int].1,
                                    self.sprites@[j as int].1,
                                    self.frame_mgr.frames@,
                                ));
                            }
                            if hit {
                                let id1 = self.sprites[i].0;
                                let id2 = self.sprites[j].0;
                                proof {
                                    lemma_id_at(self.sprites@, i as int, id1);
                                    lemma_id_at(self.sprites@, j as int, id2);
                                    lemma_sprites_overlap_symmetric(
                                        self.sprites@[i as int].1,
                                        self.sprites@[j as int].1,
                                        self.frame_mgr.frames@,
                                    );
                                    assert(registered(self.overlap_detections@, k1, k2)) by {
                                        assert(self.overlap_detections@[a as int] == (k1, k2));
                                    }
                                    assert(reported(*self, (id1, id2, k1, k2)));
                                    assert(reported(*self, (id2, id1, k2, k1)));
                                }
                                push_unique(&mut out, (id1, id2, k1, k2));
                                push_unique(&mut out, (id2, id1, k2, k1));
                            }
                            proof {
                                lemma_step_settled(
                                    *self,
                                    out@,
                                    a as int,
                                    i as int,
                                    j as int,
                                    k1,
                                    k2,
                                    hit,
                                );
                            }
                        } else {
                            proof {
                                lemma_step_skipped(*self, out@, a as int, i as int, j as int, k1, k2);
                            }
                        }
                        j = j + 1;
                    }
                } else {
                    proof {
                        assert forall|t: (usize, usize, usize, usize)|
                            #[trigger] reported(*self, t) && self.overlap_detections@[a as int]
                                == (t.2, t.3) && id_index(self.sprites@, t.0) == i
                                implies out@.contains(t) by {
                            lemma_reported_witness(*self, t);
                            assert(self.sprites@[i as int].1.kind == t.2);
                        }
                        assert forall|t: (usize, usize, usize, usize)|
                            #[trigger] reported(*self, t) && self.overlap_detections@[a as int]
                                == (t.3, t.2) && id_index(self.sprites@, t.1) == i
                                implies out@.contains(t) by {
                            lemma_reported_witness(*self, t);
                            assert(self.sprites@[i as int].1.kind == t.3);
                        }
                    }
                }
                i = i + 1;
            }
            a = a + 1;
        }
        proof {
            assert forall|t: (usize, usize, usize, usize)| #[trigger] out@.contains(t)
                <==> reported(*self, t) by {
                if reported(*self, t) {
                    if registered(self.overlap_detections@, t.2, t.3) {
                        let w = choose|w: int|
                            0 <= w < self.overlap_detections@.len()
                                && #[trigger] self.overlap_detections@[w] == (t.2, t.3);
                        assert(pair_covers(self.overlap_detections@, w, t));
                    } else {
                        let w = choose|w: int|
                            0 <= w < self.overlap_detections@.len()
                                && #[trigger] self.overlap_detections@[w] == (t.3, t.2);
                        assert(pair_covers(self.overlap_detections@, w, t));
                    }
                }
            }
        }
        out
    }
}

/// A reported tuple's witness indices are exactly the positions its two
/// ids select.
proof fn lemma_reported_witness(s: Scene, t: (usize, usize, usize, usize))
    requires
        scene_wf(s),
        reported(s, t),
    ensures
        has_id(s.sprites@, t.0),
        has_id(s.sprites@, t.1),
        0 <= id_index(s.sprites@, t.0) < s.sprites@.len(),
        0 <= id_index(s.sprites@, t.1) < s.sprites@.len(),
        id_index(s.sprites@, t.0) != id_index(s.sprites@, t.1),
        s.sprites@[id_index(s.sprites@, t.0)].1.kind == t.2,
        s.sprites@[id_index(s.sprites@, t.1)].1.kind == t.3,
        sprites_overlap(
            s.sprites@[id_index(s.sprites@, t.0)].1,
            s.sprites@[id_index(s.sprites@, t.1)].1,
            s.frame_mgr.frames@,
        ),
{
    let (i, j) = choose|i: int, j: int|
        {
            &&& 0 <= i < s.sprites@.len() && 0 <= j < s.sprites@.len()
            &&& i != j
            &&& (#[trigger] s.sprites@[i]).0 == t.0 && (#[trigger] s.sprites@[j]).0 == t.1
            &&& s.sprites@[i].1.kind == t.2 && s.sprites@[j].1.kind == t.3
            &&& (registered(s.overlap_detections@, t.2, t.3) || registered(
                s.overlap_detections@,
                t.3,
                t.2,
            ))
            &&& sprites_overlap(s.sprites@[i].1, s.sprites@[j].1, s.frame_mgr.frames@)
        };
    lemma_id_at(s.sprites@, i, t.0);
    lemma_id_at(s.sprites@, j, t.1);
}

/// After the pair at `(i, j)` is tested and, on a hit, both orderings
/// are recorded, every tuple whose witness sits at `(i, j)` for the
/// processed kind pair is settled.
proof fn lemma_step_settled(
    s: Scene,
    out: Seq<(usize, usize, usize, usize)>,
    a: int,
    i: int,
    j: int,
    k1: usize,
    k2: usize,
    hit: bool,
)
    requires
        scene_wf(s),
        0 <= a < s.overlap_detections@.len(),
        0 <= i < s.sprites@.len(),
        0 <= j < s.sprites@.len(),
        i != j,
        s.overlap_detections@[a] == (k1, k2),
        s.sprites@[i].1.kind == k1,
        s.sprites@[j].1.kind == k2,
        hit == sprites_overlap(s.sprites@[i].1, s.sprites@[j].1, s.frame_mgr.frames@),
        hit ==> out.contains((s.sprites@[i].0, s.sprites@[j].0, k1, k2)) && out.contains(
            (s.sprites@[j].0, s.sprites@[i].0, k2, k1),
        ),
    ensures
        forall|t: (usize, usize, usize, usize)|
            #[trigger] reported(s, t) && s.overlap_detections@[a] == (t.2, t.3) && id_index(
                s.sprites@,
                t.0,
            ) == i && id_index(s.sprites@, t.1) == j ==> out.contains(t),
        forall|t: (usize, usize, usize, usize)|
            #[trigger] reported(s, t) && s.overlap_detections@[a] == (t.3, t.2) && id_index(
                s.sprites@,
                t.1,
            ) == i && id_index(s.sprites@, t.0) == j ==> out.contains(t),
{
    assert forall|t: (usize, usize, usize, usize)|
        #[trigger] reported(s, t) && s.overlap_detections@[a] == (t.2, t.3) && id_index(
            s.sprites@,
            t.0,
        ) == i && id_index(s.sprites@, t.1) == j implies out.contains(t) by {
        lemma_reported_witness(s, t);
        assert(t.0 == s.sprites@[i].0 && t.1 == s.sprites@[j].0);
        assert(t.2 == k1 && t.3 == k2);
        assert(hit);
    }
    assert forall|t: (usize, usize, usize, usize)|
        #[trigger] reported(s, t) && s.overlap_detections@[a] == (t.3, t.2) && id_index(
            s.sprites@,
            t.1,
        ) == i && id_index(s.sprites@, t.0) == j implies out.contains(t) by {
        lemma_reported_witness(s, t);
        assert(t.1 == s.sprites@[i].0 && t.0 == s.sprites@[j].0);
        assert(t.3 == k1 && t.2 == k2);
        lemma_sprites_overlap_symmetric(s.sprites@[i].1, s.sprites@[j].1, s.frame_mgr.frames@);
        assert(hit);
    }
}

/// A position skipped because it is the tested sprite itself or has the
/// wrong kind settles no tuple.
proof fn lemma_step_skipped(
    s: Scene,
    out: Seq<(usize, usize, usize, usize)>,
    a: int,
    i: int,
    j: int,
    k1: usize,
    k2: usize,
)
    requires
        scene_wf(s),
        0 <= a < s.overlap_detections@.len(),
        0 <= i < s.sprites@.len(),
        0 <= j < s.sprites@.len(),
        s.overlap_detections@[a] == (k1, k2),
        s.sprites@[i].1.kind == k1,
        i == j || s.sprites@[j].1.kind != k2,
    ensures
        forall|t: (usize, usize, usize, usize)|
            #[trigger] reported(s, t) && s.overlap_detections@[a] == (t.2, t.3) && id_index(
                s.sprites@,
                t.0,
            ) == i && id_index(s.sprites@, t.1) == j ==> out.contains(t),
        forall|t: (usize, usize, usize, usize)|
            #[trigger] reported(s, t) && s.overlap_detections@[a] == (t.3, t.2) && id_index(
                s.sprites@,
                t.1,
            ) == i && id_index(s.sprites@, t.0) == j ==> out.contains(t),
{
    assert forall|t: (usize, usize, usize, usize)|
        #[trigger] reported(s, t) && s.overlap_detections@[a] == (t.2, t.3) && id_index(
            s.sprites@,
            t.0,
        ) == i && id_index(s.sprites@, t.1) == j implies out.contains(t) by {
        lemma_reported_witness(s, t);
    }
    assert forall|t: (usize, usize, usize, usize)|
        #[trigger] reported(s, t) && s.overlap_detections@[a] == (t.3, t.2) && id_index(
            s.sprites@,
            t.1,
        ) == i && id_index(s.sprites@, t.0) == j implies out.contains(t) by {
        lemma_reported_witness(s, t);
    }
}

/// The render order never reports a tie: of two sprites with different
/// tie-breakers, exactly one is in front of the other.
pub proof fn lemma_front_of_asymmetric(a: Sprite, b: Sprite)
    requires
        a.z2 != b.z2,
    ensures
        spec_front_of(a, b) <==> !spec_front_of(b, a),
{
}

/// The render order is transitive through a middle sprite.
pub proof fn lemma_front_of_transfer(a: Sprite, b: Sprite, c: Sprite)
    requires
        spec_front_of(a, b),
        spec_front_of(b, c),
    ensures
        spec_front_of(a, c),
{
}

/// What a draw pass walks is strictly ascending: every sprite listed
/// later in a valid draw order is strictly in front of every sprite
/// listed before it.
pub proof fn lemma_draw_order_strictly_ascending(
    s: Scene,
    ord: Seq<usize>,
    a: int,
    b: int,
)
    requires
        scene_wf(s),
        valid_draw_order(s.sprites@, ord),
        0 <= a < b < ord.len(),
    ensures
        spec_front_of(s.sprites@[ord[b] as int].1, s.sprites@[ord[a] as int].1),
        !spec_front_of(s.sprites@[ord[a] as int].1, s.sprites@[ord[b] as int].1),
{
    lemma_render_order_strict(s, ord[a] as int, ord[b] as int);
}

/// Sorting live sprites by the render order meets no tie: any two
/// distinct live sprites of a well-formed scene compare strictly, one
/// way exactly.
pub proof fn lemma_render_order_strict(s: Scene, i: int, j: int)
    requires
        scene_wf(s),
        0 <= i < s.sprites@.len(),
        0 <= j < s.sprites@.len(),
        i != j,
    ensures
        s.sprites@[i].1.z2 != s.sprites@[j].1.z2,
        spec_front_of(s.sprites@[i].1, s.sprites@[j].1) <==> !spec_front_of(
            s.sprites@[j].1,
            s.sprites@[i].1,
        ),
{
    if i < j {
        assert(s.sprites@[i].1.z2 < s.sprites@[j].1.z2);
    } else {
        assert(s.sprites@[j].1.z2 < s.sprites@[i].1.z2);
    }
    lemma_front_of_asymmetric(s.sprites@[i].1, s.sprites@[j].1);
}

/// In a well-formed registry, the entry found at a position carrying an
/// id is the entry the id selects.
proof fn lemma_id_at(s: Seq<(usize, Sprite)>, k: int, id: usize)
    requires
        forall|i: int, j: int| 0 <= i < j < s.len() ==> (#[trigger] s[i]).0 < (#[trigger] s[j]).0,
        0 <= k < s.len(),
        s[k].0 == id,
    ensures
        has_id(s, id),
        id_index(s, id) == k,
        sprite_of(s, id) == s[k].1,
{
    let j = id_index(s, id);
    assert(has_id(s, id));
    if j < k {
        assert(s[j].0 < s[k].0);
    } else if k < j {
        assert(s[k].0 < s[j].0);
    }
}

/// Registering a pair already present changes nothing of what is
/// registered.
proof fn lemma_registered_same(pairs: Seq<(usize, usize)>, kind1: usize, kind2: usize)
    requires
        registered(pairs, kind1, kind2),
    ensures
        forall|a: usize, b: usize|
            #[trigger] registered(pairs, a, b) == (registered(pairs, a, b) || (a == kind1 && b
                == kind2)),
{
}

} // verus!
