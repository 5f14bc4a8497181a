//! A fixed-resolution 2D scene/sprite engine.
//!
//! The engine owns a bitmap compositor, a sprite registry with simple
//! physics, an animation-clip player, an axis-aligned plus pixel-exact
//! overlap detector, and a particle-effect overlay.  Pixels are 32-bit
//! colours; the colour value `0` is the reserved transparent sentinel and
//! is never drawn nor counted as present in overlap tests.  Positions and
//! velocities are fixed-point integers carrying thousandths of a pixel,
//! so every computation is deterministic and free of floating point.

use vstd::prelude::*;

pub mod anim;
pub mod bitmap;
pub mod canvas;
pub mod color;
pub mod effect;
pub mod engine;
pub mod fixed;
pub mod game;
pub mod geom;
pub mod rng;
pub mod scene;
pub mod sprite;
pub mod text;

verus! {

/// Errors reported by the engine.  Every failure is local and recoverable:
/// the caller keeps the prior state and may retry with fixed input.
#[derive(Clone, Copy, Debug, PartialEq, Eq, Structural)]
pub enum EngineError {
    /// Bitmap text whose rows do not all have the same column count.
    BadFormat,
    /// A sprite id or clip name that is not present in the registry.
    NotFound,
}

} // verus!
