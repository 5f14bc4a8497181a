//! The events a host hands the engine between ticks, and the project
//! payload a host loads.
//!
//! The engine itself is single-threaded and synchronous: the host owns
//! the tick loop, turns its input into these events, and feeds them in
//! between `update` calls.

use vstd::prelude::*;
use crate::game::KeyCode;

verus! {

/// A project to load: its named script and asset sources.
pub struct Project {
    pub sources: Vec<(String, String)>,
}

/// One host event delivered between ticks.
pub enum Event {
    KeyUp(KeyCode),
    KeyDown(KeyCode),
    KeyRepeat(KeyCode),
    Load(Project),
    Unload,
    Exit,
}

} // verus!
