//! A side-view game's core: the character's animation state machine, the
//! sprite clips it is drawn from, and the per-frame scheduler that routes key
//! events, ticks animations and plans physics steps and drawing.

use vstd::prelude::*;

pub mod animate;
pub mod character;
pub mod picture;
pub mod sprite;
pub mod level;
pub mod utils;
pub mod world;

verus! {

} // verus!
