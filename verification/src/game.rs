//! Frame geometry constants, input-event types and the game-over latch.

use vstd::prelude::*;

verus! {

/// Width of the engine's pixel buffer, in pixels.
pub const BMP_WIDTH: u32 = 160;

/// Height of the engine's pixel buffer, in pixels.
pub const BMP_HEIGHT: u32 = 120;

/// Width of the host's scaled display window, in pixels.
pub const DISPL_WIDTH: u32 = 640;

/// Height of the host's scaled display window, in pixels.
pub const DISPL_HEIGHT: u32 = 480;

/// A key recognised by the engine's input layer.
#[derive(PartialEq, Eq, Structural, Clone, Copy, Debug, Hash)]
pub enum KeyCode {
    Up,
    Down,
    Left,
    Right,
    X,
    Y,
    A,
    B,
    NoKey,
}

/// A keyboard event as delivered by the host.
#[derive(PartialEq, Eq, Structural, Clone, Copy, Debug, Hash)]
pub enum KeyEvt {
    Up(KeyCode),
    Down(KeyCode),
    Repeat(KeyCode),
    Exit,
}

/// The game-over latch: once a round ends it stays ended until the host
/// resets the whole engine.
pub struct Game {
    pub over: bool,
    pub win: bool,
}

impl Game {
    /// A fresh round: not over yet.
    pub fn new() -> (g: Game)
        ensures
            !g.over,
            g.win,
    {
        Game { over: false, win: true }
    }

    /// Ends the round.  The reported win flag is recorded nowhere else;
    /// the latch only remembers that the round ended.
    pub fn over(&mut self, _win: bool)
        ensures
            final(self).over,
            final(self).win == old(self).win,
    {
        self.over = true;
    }
}

} // verus!
