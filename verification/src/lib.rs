//! The game logic of a small vertical shoot-'em-up: the lady, the enemy aircraft chasing her, the
//! shots both sides fire, the seats they all hold in one physics world, and the score.

use vstd::prelude::*;

pub mod common;
pub mod entity;
pub mod sky;
pub mod bullet;
pub mod shooter;
pub mod enemy_aircraft;
pub mod the_lady;
pub mod racks;
pub mod cast;
pub mod console;
pub mod explosion;
pub mod scene;

verus! {

/// The most shots either side can have in flight at once.
pub const MAX_BULLETS: usize = 47;

/// The most enemy aircraft in the air at once.
pub const MAX_ENEMY_AIRCRAFTS: usize = 16;

/// The lady, every aircraft in the air and every shot either side has in flight: everybody the
/// world can seat at once, and so the number of its seats.
pub const MAX_CAST: usize = 1 + MAX_ENEMY_AIRCRAFTS + MAX_BULLETS;

/// The most explosions on screen at once.
pub const MAX_EXPLOSIONS: usize = MAX_ENEMY_AIRCRAFTS + 8;

/// Points for an enemy aircraft let go off the screen alive.
pub const LET_GO_SCORE_BUMP: u32 = 20;

/// Points for an enemy aircraft shot down.
pub const DESTROY_SCORE_BUMP: u32 = 10;

} // verus!
