//! The sounds that the engine asks its host to play.

use vstd::prelude::*;

verus! {

/// A sound effect or a piece of music.
#[derive(Clone, Copy, Debug, PartialEq, Eq, Structural)]
pub enum Sounds {
    /// The cursor moved while dragging.
    MOVE,
    /// The jingle that opens a level.
    LevelIntro,
    /// The music that plays during a level.
    Playing,
    /// Two tiles matched.
    Collided,
}

} // verus!
