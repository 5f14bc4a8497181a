//! Named animation clips and the per-sprite playback cursor.
//!
//! A clip is an ordered list of bitmaps plus one playback interval in
//! milliseconds shared by all its frames.  A cursor names the active
//! clip and counts the time since it was activated; the current frame
//! is `floor(elapsed / interval) mod frame_count`.

use vstd::prelude::*;
use crate::bitmap::{bmp_wf, Bitmap};
use crate::EngineError;

verus! {

/// One clip: its frames in order and the shared playback interval.
pub struct Frames {
    pub bmp: Vec<Bitmap>,
    pub interval_ms: u32,
}

impl Frames {
    /// An empty clip with the given playback interval.
    pub fn new(interval_ms: u32) -> (r: Frames)
        ensures
            r.bmp@ == Seq::<Bitmap>::empty(),
            r.interval_ms == interval_ms,
    {
        Frames { bmp: Vec::new(), interval_ms }
    }

    /// Appends one frame to the clip.
    pub fn add_bmp(&mut self, bmp: Bitmap)
        ensures
            final(self).bmp@ == old(self).bmp@.push(bmp),
            final(self).interval_ms == old(self).interval_ms,
    {
        self.bmp.push(bmp);
    }
}

/// Some entry of the registry carries this clip name.
pub open spec fn fmr_has(s: Seq<(String, Frames)>, q: Seq<char>) -> bool {
    exists|i: int| 0 <= i < s.len() && #[trigger] s[i].0@ == q
}

/// The clip registered under a name; meaningful only when [`fmr_has`].
pub open spec fn fmr_at(s: Seq<(String, Frames)>, q: Seq<char>) -> Frames {
    s[choose|i: int| 0 <= i < s.len() && #[trigger] s[i].0@ == q].1
}

/// The registry is well formed: clip names are unique, and every frame
/// of every clip is a well-formed bitmap.
pub open spec fn fmr_wf(s: Seq<(String, Frames)>) -> bool {
    &&& forall|i: int, j: int|
        0 <= i < j < s.len() ==> #[trigger] s[i].0@ != #[trigger] s[j].0@
    &&& forall|i: int, j: int|
        0 <= i < s.len() && 0 <= j < s[i].1.bmp@.len() ==> bmp_wf(#[trigger] s[i].1.bmp@[j]@)
}

/// The clip registry: a mapping from clip name to clip, populated by
/// the driving collaborator and never mutated by the scene logic.
pub struct FrameMgr {
    pub frames: Vec<(String, Frames)>,
}

impl FrameMgr {
    /// An empty registry.
    pub fn new() -> (r: FrameMgr)
        ensures
            r.frames@ == Seq::<(String, Frames)>::empty(),
            fmr_wf(r.frames@),
    {
        FrameMgr { frames: Vec::new() }
    }

    /// The position of the entry carrying this name, if any.
    fn find(&self, name: &str) -> (r: Option<usize>)
        ensures
            match r {
                Option::Some(i) => i < self.frames@.len() && self.frames@[i as int].0@ == name@,
                Option::None => !fmr_has(self.frames@, name@),
            },
    {
        let n = self.frames.len();
        let key: String = name.to_owned();
        let mut i: usize = 0;
        while i < n
            invariant
                i <= n,
                n == self.frames@.len(),
                key@ == name@,
                forall|k: int| 0 <= k < i ==> #[trigger] self.frames@[k].0@ != name@,
            decreases n - i,
        {
            if self.frames[i].0 == key {
                return Option::Some(i);
            }
            i = i + 1;
        }
        Option::None
    }

    /// Registers an empty clip under the name with the given interval,
    /// replacing any clip the name already carried.
    pub fn create(&mut self, name: &str, interval_ms: u32)
        requires
            fmr_wf(old(self).frames@),
        ensures
            fmr_wf(final(self).frames@),
            fmr_has(final(self).frames@, name@),
            fmr_at(final(self).frames@, name@).bmp@ == Seq::<Bitmap>::empty(),
            fmr_at(final(self).frames@, name@).interval_ms == interval_ms,
            forall|q: Seq<char>|
                q != name@ ==> (#[trigger] fmr_has(final(self).frames@, q) == fmr_has(
                    old(self).frames@,
                    q,
                )),
            forall|q: Seq<char>|
                q != name@ && fmr_has(old(self).frames@, q) ==> #[trigger] fmr_at(
                    final(self).frames@,
                    q,
                ) == fmr_at(old(self).frames@, q),
    {
        let entry = (name.to_owned(), Frames::new(interval_ms));
        match self.find(name) {
            Option::Some(i) => {
                self.frames.set(i, entry);
                proof {
                    lemma_registry_update(old(self).frames@, self.frames@, i as int, name@);
                }
            },
            Option::None => {
                self.frames.push(entry);
                proof {
                    lemma_registry_push(old(self).frames@, self.frames@, name@);
                }
            },
        }
    }

    /// Appends one frame to the clip registered under the name.  Fails
    /// with [`EngineError::NotFound`] exactly when no clip carries the
    /// name.
    pub fn append(&mut self, name: &str, bmp: Bitmap) -> (r: Result<(), EngineError>)
        requires
            fmr_wf(old(self).frames@),
            bmp_wf(bmp@),
        ensures
            fmr_wf(final(self).frames@),
            r is Ok <==> fmr_has(old(self).frames@, name@),
            r is Err ==> *final(self) == *old(self) && (r matches Err(e) && e
                == EngineError::NotFound),
            r is Ok ==> {
                &&& fmr_has(final(self).frames@, name@)
                &&& fmr_at(final(self).frames@, name@).bmp@ == fmr_at(
                    old(self).frames@,
                    name@,
                ).bmp@.push(bmp)
                &&& fmr_at(final(self).frames@, name@).interval_ms == fmr_at(
                    old(self).frames@,
                    name@,
                ).interval_ms
                &&& forall|q: Seq<char>|
                    q != name@ ==> (#[trigger] fmr_has(final(self).frames@, q) == fmr_has(
                        old(self).frames@,
                        q,
                    ))
                &&& forall|q: Seq<char>|
                    q != name@ && fmr_has(old(self).frames@, q) ==> #[trigger] fmr_at(
                        final(self).frames@,
                        q,
                    ) == fmr_at(old(self).frames@, q)
            },
    {
        match self.find(name) {
            Option::Some(i) => {
                proof {
                    lemma_registry_at(self.frames@, i as int, name@);
                }
                let entry = &mut self.frames[i];
                entry.1.bmp.push(bmp);
                proof {
                    lemma_registry_update(old(self).frames@, self.frames@, i as int, name@);
                }
                Result::Ok(())
            },
            Option::None => Result::Err(EngineError::NotFound),
        }
    }
}

/// In a well-formed registry, the entry found at a position carrying a
/// name is the entry the name selects.
proof fn lemma_registry_at(s: Seq<(String, Frames)>, i: int, q: Seq<char>)
    requires
        forall|a: int, b: int| 0 <= a < b < s.len() ==> #[trigger] s[a].0@ != #[trigger] s[b].0@,
        0 <= i < s.len(),
        s[i].0@ == q,
    ensures
        fmr_has(s, q),
        fmr_at(s, q) == s[i].1,
{
    let j = choose|j: int| 0 <= j < s.len() && #[trigger] s[j].0@ == q;
    if i < j {
        assert(s[i].0@ != s[j].0@);
    } else if j < i {
        assert(s[j].0@ != s[i].0@);
    }
}

/// Replacing the entry at the position a name selects changes what the
/// registry holds under that name and nothing else.
proof fn lemma_registry_update(s0: Seq<(String, Frames)>, s1: Seq<(String, Frames)>, i: int, q: Seq<char>)
    requires
        forall|a: int, b: int|
            0 <= a < b < s0.len() ==> #[trigger] s0[a].0@ != #[trigger] s0[b].0@,
        0 <= i < s0.len(),
        s0[i].0@ == q,
        s1.len() == s0.len(),
        s1[i].0@ == q,
        forall|k: int| 0 <= k < s0.len() && k != i ==> s1[k] == s0[k],
        forall|j: int| 0 <= j < s0[i].1.bmp@.len() ==> bmp_wf(#[trigger] s0[i].1.bmp@[j]@),
        forall|i2: int, j: int|
            0 <= i2 < s0.len() && 0 <= j < s0[i2].1.bmp@.len() ==> bmp_wf(
                #[trigger] s0[i2].1.bmp@[j]@,
            ),
        forall|j: int| 0 <= j < s1[i].1.bmp@.len() ==> bmp_wf(#[trigger] s1[i].1.bmp@[j]@),
    ensures
        fmr_wf(s1),
        fmr_has(s1, q),
        fmr_at(s1, q) == s1[i].1,
        forall|q2: Seq<char>| q2 != q ==> (#[trigger] fmr_has(s1, q2) == fmr_has(s0, q2)),
        forall|q2: Seq<char>|
            q2 != q && fmr_has(s0, q2) ==> #[trigger] fmr_at(s1, q2) == fmr_at(s0, q2),
{
    assert(forall|a: int, b: int|
        0 <= a < b < s1.len() ==> #[trigger] s1[a].0@ != #[trigger] s1[b].0@);
    lemma_registry_at(s1, i, q);
    assert forall|q2: Seq<char>| q2 != q implies (#[trigger] fmr_has(s1, q2) == fmr_has(
        s0,
        q2,
    )) by {
        if fmr_has(s0, q2) {
            let a = choose|a: int| 0 <= a < s0.len() && #[trigger] s0[a].0@ == q2;
            assert(s1[a].0@ == q2);
        }
        if fmr_has(s1, q2) {
            let a = choose|a: int| 0 <= a < s1.len() && #[trigger] s1[a].0@ == q2;
            assert(s0[a].0@ == q2);
        }
    }
    assert forall|q2: Seq<char>| q2 != q && fmr_has(s0, q2) implies #[trigger] fmr_at(s1, q2)
        == fmr_at(s0, q2) by {
        let a = choose|a: int| 0 <= a < s0.len() && #[trigger] s0[a].0@ == q2;
        lemma_registry_at(s0, a, q2);
        lemma_registry_at(s1, a, q2);
    }
}

/// Appending an entry under a fresh-or-replaced name: what the grown
/// registry holds.
proof fn lemma_registry_push(s0: Seq<(String, Frames)>, s1: Seq<(String, Frames)>, q: Seq<char>)
    requires
        fmr_wf(s0),
        !fmr_has(s0, q),
        s1.len() == s0.len() + 1,
        forall|k: int| 0 <= k < s0.len() ==> s1[k] == s0[k],
        s1[s0.len() as int].0@ == q,
        s1[s0.len() as int].1.bmp@.len() == 0,
    ensures
        fmr_wf(s1),
        fmr_has(s1, q),
        fmr_at(s1, q) == s1[s0.len() as int].1,
        forall|q2: Seq<char>| q2 != q ==> (#[trigger] fmr_has(s1, q2) == fmr_has(s0, q2)),
        forall|q2: Seq<char>|
            q2 != q && fmr_has(s0, q2) ==> #[trigger] fmr_at(s1, q2) == fmr_at(s0, q2),
{
    assert forall|a: int, b: int| 0 <= a < b < s1.len() implies #[trigger] s1[a].0@
        != #[trigger] s1[b].0@ by {
        if b == s0.len() as int {
            assert(!(0 <= a < s0.len() && s0[a].0@ == q));
        }
    }
    lemma_registry_at(s1, s0.len() as int, q);
    assert forall|q2: Seq<char>| q2 != q implies (#[trigger] fmr_has(s1, q2) == fmr_has(
        s0,
        q2,
    )) by {
        if fmr_has(s0, q2) {
            let a = choose|a: int| 0 <= a < s0.len() && #[trigger] s0[a].0@ == q2;
            assert(s1[a].0@ == q2);
        }
        if fmr_has(s1, q2) {
            let a = choose|a: int| 0 <= a < s1.len() && #[trigger] s1[a].0@ == q2;
            assert(a < s0.len());
            assert(s0[a].0@ == q2);
        }
    }
    assert forall|q2: Seq<char>| q2 != q && fmr_has(s0, q2) implies #[trigger] fmr_at(s1, q2)
        == fmr_at(s0, q2) by {
        let a = choose|a: int| 0 <= a < s0.len() && #[trigger] s0[a].0@ == q2;
        lemma_registry_at(s0, a, q2);
        lemma_registry_at(s1, a, q2);
    }
}

/// Adds two counters, stopping at the largest representable value.
pub open spec fn sat_add_u64(a: int, b: int) -> int {
    if a + b > u64::MAX {
        u64::MAX as int
    } else {
        a + b
    }
}

/// The frame a clip shows at a given elapsed time:
/// `floor(elapsed / interval) mod frame_count`.
pub open spec fn spec_frame_index(elapsed: int, interval: int, n: int) -> int {
    (elapsed / interval) % n
}

/// What a cursor shows over a clip registry: the current frame of its
/// active clip, or nothing when no clip is active, the active name is
/// not registered, the clip has no frames, or the interval is zero.
pub open spec fn anim_current(a: Animation, s: Seq<(String, Frames)>) -> Option<Bitmap> {
    if a.current_name@ =~= Seq::<char>::empty() {
        Option::None
    } else if !fmr_has(s, a.current_name@) {
        Option::None
    } else {
        let f = fmr_at(s, a.current_name@);
        if f.bmp@.len() == 0 || f.interval_ms == 0 {
            Option::None
        } else {
            Option::Some(
                f.bmp@[spec_frame_index(
                    a.elapsed_ms as int,
                    f.interval_ms as int,
                    f.bmp@.len() as int,
                )],
            )
        }
    }
}

/// Every frame a cursor can resolve to over a well-formed registry is
/// a well-formed bitmap.
pub proof fn lemma_anim_current_wf(a: Animation, s: Seq<(String, Frames)>)
    requires
        fmr_wf(s),
    ensures
        match anim_current(a, s) {
            Option::Some(b) => bmp_wf(b@),
            Option::None => true,
        },
{
    if anim_current(a, s) is Some {
        let i = choose|i: int| 0 <= i < s.len() && #[trigger] s[i].0@ == a.current_name@;
        assert(fmr_at(s, a.current_name@) == s[i].1);
    }
}

/// A playback cursor: the active clip's name (empty = none) and the
/// time since it was activated.
#[derive(Clone)]
pub struct Animation {
    pub current_name: String,
    pub elapsed_ms: u64,
}

impl Animation {
    /// A cursor with no active clip.
    pub fn new() -> (r: Animation)
        ensures
            r.current_name@ == Seq::<char>::empty(),
            r.elapsed_ms == 0,
    {
        Animation { current_name: String::new(), elapsed_ms: 0 }
    }

    /// Activates a clip by name.  Re-activating the clip already active
    /// keeps its elapsed time; switching resets elapsed time to zero.
    pub fn reset(&mut self, name: String)
        ensures
            old(self).current_name@ == name@ ==> *final(self) == *old(self),
            old(self).current_name@ != name@ ==> final(self).current_name@ == name@
                && final(self).elapsed_ms == 0,
    {
        if self.current_name == name {
            return ;
        }
        self.current_name = name;
        self.elapsed_ms = 0;
    }

    /// Advances the cursor's elapsed time, stopping at the largest
    /// representable value.
    pub fn time_go(&mut self, dt_ms: u64)
        ensures
            final(self).current_name@ == old(self).current_name@,
            final(self).elapsed_ms == sat_add_u64(old(self).elapsed_ms as int, dt_ms as int),
    {
        if self.elapsed_ms <= u64::MAX - dt_ms {
            self.elapsed_ms = self.elapsed_ms + dt_ms;
        } else {
            self.elapsed_ms = u64::MAX;
        }
    }

    /// The frame the cursor currently shows, or `None` when it shows
    /// none and the sprite falls back to its native bitmap.
    pub fn current<'a>(&self, fmr: &'a FrameMgr) -> (r: Option<&'a Bitmap>)
        requires
            fmr_wf(fmr.frames@),
        ensures
            match r {
                Option::Some(b) => anim_current(*self, fmr.frames@) == Option::Some(*b),
                Option::None => anim_current(*self, fmr.frames@) is None,
            },
    {
        if self.current_name.as_str().is_empty() {
            return Option::None;
        }
        match fmr.find(self.current_name.as_str()) {
            Option::None => Option::None,
            Option::Some(i) => {
                proof {
                    lemma_registry_at(fmr.frames@, i as int, self.current_name@);
                }
                let f = &fmr.frames[i].1;
                let n = f.bmp.len();
                if n == 0 || f.interval_ms == 0 {
                    return Option::None;
                }
                let idx = ((self.elapsed_ms / (f.interval_ms as u64)) % (n as u64)) as usize;
                Option::Some(&f.bmp[idx])
            },
        }
    }
}

} // verus!
