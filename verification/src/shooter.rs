//! Whoever fires shots: when they may, and where the shot leaves from.

use vstd::prelude::*;

use crate::entity::Entity;

verus! {

/// Where a shooter's shots leave from, relative to the pixel it draws at.
#[derive(Debug, Clone, Copy, PartialEq, Eq, Structural)]
pub struct BulletProps {
    pub x_offset: i16,
    pub y_offset: i16,
}

/// Whether a shooter fires this update: it is alive, its cooldown has run out, and it is either
/// on the enemy's side (who fire whenever they can) or the fire button is held.
pub open spec fn fires(alive: bool, cooled_down: bool, is_enemy: bool, fire_held: bool) -> bool {
    alive && cooled_down && (is_enemy || fire_held)
}

/// Where a shot leaves a shooter drawn at `pos` with `props`.
pub open spec fn muzzle_of(pos: (i16, i16), props: BulletProps) -> (int, int) {
    (pos.0 + props.x_offset, pos.1 + props.y_offset)
}

pub trait Shooter: Entity {
    /// Where this shooter's shots leave from.
    spec fn props(&self) -> BulletProps;

    /// The bullet properties.
    fn bullet_props(&self) -> (p: BulletProps)
        ensures
            p == self.props(),
    ;

    /// Whether this shooter fires this update, given whether its cooldown has run out and whether
    /// the fire button is held: [`fires`].
    fn wants_to_fire(&self, cooled_down: bool, fire_held: bool) -> (r: bool)
        ensures
            r == fires(self.living(), cooled_down, self.kind().is_enemy_spec(), fire_held),
    {
        self.alive() && cooled_down && (self.is_enemy() || fire_held)
    }

    /// Where a shot leaves this shooter when it draws at `pos`.
    fn muzzle(&self, pos: (i16, i16)) -> (m: (i32, i32))
        ensures
            m.0 == muzzle_of(pos, self.props()).0,
            m.1 == muzzle_of(pos, self.props()).1,
    {
        let props = self.bullet_props();
        (pos.0 as i32 + props.x_offset as i32, pos.1 as i32 + props.y_offset as i32)
    }
}

} // verus!
