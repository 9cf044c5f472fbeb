// A small arcade survival game: the per-frame update of the player, the
// bullets and the enemies, in integer units (millionths of a pixel,
// microseconds). Input, randomness and drawing are left to the caller.
use vstd::prelude::*;

pub mod game;
pub mod geometry;

verus! {

} // verus!
