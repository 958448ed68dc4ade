# airwolf

The game logic of a small vertical shoot-'em-up for the Pixel8 fantasy console, verified with
Verus: the lady (the player's helicopter), the enemy aircraft that chase and shoot at her, the
shots both sides fire, the one physics world all of them are seated in, the score, the scenes of
the game, and the explosions.

- `src/` is the library. `cast.rs` keeps the whole fight and proves that its books balance: every
  seat the world holds belongs to exactly one living shot, aircraft or the lady, refused arrivals
  give their seats straight back, and a restart leaves the lady alone in the world. `bullet.rs`,
  `enemy_aircraft.rs` and `the_lady.rs` hold what each kind decides; `scene.rs` the scenes;
  `explosion.rs` the sparks. `sky.rs`, `racks.rs` and `console.rs` are the trusted boundary to
  the `pixel8` world and context and to `heapless` vectors.
- `app/` is the cart around it: the clock, the dice and the speeds in floating point, the
  buttons, sound, music, the store and the drawing, and the scrolling map.
- `tests/` runs the library against the real outside crates.
