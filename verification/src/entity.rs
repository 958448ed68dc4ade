use vstd::prelude::*;
use pixel8::physics::MemberId;

verus! {

/// Which side of the fight an entity is on, and what it is there.
#[derive(Debug, PartialEq, Eq, Clone, Copy, Structural)]
pub enum Type {
    Protoganist,
    Enemy,
    FriendlyBullet,
    EnemyBullet,
}

impl Type {
    /// The enemy's side: its aircraft and every shot they fire.
    pub open spec fn is_enemy_spec(self) -> bool {
        self == Type::Enemy || self == Type::EnemyBullet
    }

    /// Whether this is the enemy's side of the fight.
    pub fn is_enemy(self) -> (r: bool)
        ensures
            r == self.is_enemy_spec(),
    {
        matches!(self, Type::Enemy | Type::EnemyBullet)
    }
}

/// What the game makes of an entity, on top of the seat the world gives it: which side of the
/// fight it is on, which seat is its, and whether it is still alive.
pub trait Entity {
    /// Which side of the fight, and what it is there.
    spec fn kind(&self) -> Type;

    /// Its seat in the world.
    spec fn seat(&self) -> MemberId;

    /// Whether it is still alive.
    spec fn living(&self) -> bool;

    fn entity_type(&self) -> (t: Type)
        ensures
            t == self.kind(),
    ;

    /// This entity's seat in the world: where it is, what it covers and what its last step ran
    /// into are all asked for with this.
    fn member(&self) -> (m: MemberId)
        ensures
            m == self.seat(),
    ;

    /// Whether this entity is still alive.
    fn alive(&self) -> (a: bool)
        ensures
            a == self.living(),
    ;

    /// Whether this entity is on the enemy's side.
    fn is_enemy(&self) -> (r: bool)
        ensures
            r == self.kind().is_enemy_spec(),
    {
        self.entity_type().is_enemy()
    }
}

} // verus!
