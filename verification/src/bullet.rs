//! A shot, either side's: aimed once, never steered, spent on the first of the other side's kind
//! it arrives at.

use vstd::prelude::*;
use pixel8::physics::{MemberBuilder, MemberId};

use crate::common::{meets, touches, AIRCRAFT, ENEMY_SHOT, FRIENDLY_SHOT, LADY};
use crate::entity::{Entity, Type};
use crate::sky::{
    bounds_in, cast_of, draw_pos, enlist, pos_in, reads_alike, retire, sky_wf, touched, touched_in,
    velocity_in, Sky,
};

verus! {

/// A shot in flight: its seat in the world, which side fired it, and whether it is still flying.
#[derive(Debug, Clone, Copy)]
pub struct Bullet {
    member: MemberId,
    entity_type: Type,
    alive: bool,
}

/// How a shot is put into the sky: how fast it goes down the screen (up, when negative), the
/// rectangle it covers, the sprite it is drawn from and the flags of what it is spent on.
#[derive(Debug, Clone, Copy, PartialEq, Eq, Structural)]
pub struct ShotLook {
    pub dy: i8,
    pub width: u16,
    pub height: u16,
    pub sprite: u8,
    pub heeds: u8,
}

/// The pace both sides' shots fly at, in pixels an update.
pub const SPEED: i8 = 2;

/// The same pace, up the screen.
pub const UP_SPEED: i8 = -2;

/// The sprite of our shots, and their size.
pub const FRIENDLY_SPRITE_ID: u8 = 64;
pub const FRIENDLY_SIZE: (u16, u16) = (8, 8);

/// The sprite of theirs, and their size.
pub const ENEMY_SPRITE_ID: u8 = 65;
pub const ENEMY_SIZE: (u16, u16) = (1, 7);

/// The one kind a shot fired by `side` is spent on: the lady for theirs, an aircraft for ours.
pub open spec fn target_of(side: Type) -> u8 {
    if side.is_enemy_spec() {
        LADY
    } else {
        AIRCRAFT
    }
}

/// How a shot fired by `side` looks and flies: the enemy's goes down the screen and ours up it, at
/// the same pace.
pub open spec fn look_of(side: Type) -> ShotLook {
    if side.is_enemy_spec() {
        ShotLook {
            dy: SPEED,
            width: ENEMY_SIZE.0,
            height: ENEMY_SIZE.1,
            sprite: ENEMY_SPRITE_ID,
            heeds: LADY,
        }
    } else {
        ShotLook {
            dy: UP_SPEED,
            width: FRIENDLY_SIZE.0,
            height: FRIENDLY_SIZE.1,
            sprite: FRIENDLY_SPRITE_ID,
            heeds: AIRCRAFT,
        }
    }
}

impl Bullet {
    /// How a shot fired by `side` is described to the world: [`look_of`].
    pub fn look(side: Type) -> (l: ShotLook)
        ensures
            l == look_of(side),
    {
        let is_enemy = side.is_enemy();
        if is_enemy {
            ShotLook {
                dy: SPEED,
                width: ENEMY_SIZE.0,
                height: ENEMY_SIZE.1,
                sprite: ENEMY_SPRITE_ID,
                heeds: LADY,
            }
        } else {
            ShotLook {
                dy: UP_SPEED,
                width: FRIENDLY_SIZE.0,
                height: FRIENDLY_SIZE.1,
                sprite: FRIENDLY_SPRITE_ID,
                heeds: AIRCRAFT,
            }
        }
    }

    /// A shot of ours, seated as `description` says, or `None` when the world has no seat left.
    pub fn new_friendly(description: MemberBuilder, world: &mut Sky) -> (b: Option<Self>)
        requires
            sky_wf(*old(world)),
        ensures
            Self::seated_as(*old(world), *final(world), b, Type::FriendlyBullet),
    {
        Self::new(description, Type::FriendlyBullet, world)
    }

    /// A shot of theirs, seated as `description` says, or `None` when the world has no seat left.
    pub fn new_enemy(description: MemberBuilder, world: &mut Sky) -> (b: Option<Self>)
        requires
            sky_wf(*old(world)),
        ensures
            Self::seated_as(*old(world), *final(world), b, Type::EnemyBullet),
    {
        Self::new(description, Type::EnemyBullet, world)
    }

    /// What seating a shot of `side` did to the world `before`, leaving it `after`: no shot and no
    /// change when every seat was taken; otherwise a live shot of that side in a seat new to the
    /// cast, and that seat the only one added. Either way everybody seated before reads as they
    /// did.
    pub open spec fn seated_as(before: Sky, after: Sky, b: Option<Self>, side: Type) -> bool {
        &&& sky_wf(after)
        &&& b is None <==> cast_of(before).len() == crate::MAX_CAST
        &&& b is None ==> after == before
        &&& forall|id: MemberId|
            #![trigger touched_in(after, id)]
            #![trigger pos_in(after, id)]
            #![trigger bounds_in(after, id)]
            #![trigger velocity_in(after, id)]
            cast_of(before).contains(id) ==> reads_alike(before, after, id)
        &&& b matches Some(shot) ==> {
            &&& shot.kind() == side
            &&& shot.living()
            &&& !cast_of(before).contains(shot.seat())
            &&& cast_of(after) == cast_of(before).insert(shot.seat())
        }
    }

    /// Whether the step `world` last took spends this shot: it is alive, and what its step met
    /// includes the one kind it is fired at.
    pub open spec fn spent_in(self, world: Sky) -> bool {
        self.living() && meets(touched_in(world, self.seat()), target_of(self.kind()))
    }

    fn new(description: MemberBuilder, entity_type: Type, world: &mut Sky) -> (b: Option<Self>)
        requires
            sky_wf(*old(world)),
        ensures
            Self::seated_as(*old(world), *final(world), b, entity_type),
    {
        match enlist(world, description) {
            Some(member) => Some(Self { member, entity_type, alive: true }),
            None => None,
        }
    }

    /// Whether a step that met the flags in `touched` spent this shot: it met the one kind it is
    /// fired at, and nothing else counts — not its own kind, and not whoever fired it.
    pub fn is_hit(&self, touched: u8) -> (r: bool)
        ensures
            r == meets(touched, target_of(self.kind())),
    {
        let target = if self.entity_type.is_enemy() {
            LADY
        } else {
            AIRCRAFT
        };
        touches(touched, target)
    }

    /// What the shot makes of the step it has just taken: spent, if the step met what it was
    /// fired at. A spent shot dies, gives its seat back and hands back where its wreck is. A shot
    /// already spent has nothing left to react with.
    pub fn react(&mut self, world: &mut Sky) -> (wreck: Option<(i16, i16)>)
        requires
            sky_wf(*old(world)),
            old(self).living() ==> cast_of(*old(world)).contains(old(self).seat()),
        ensures
            sky_wf(*final(world)),
            final(self).seat() == old(self).seat(),
            final(self).kind() == old(self).kind(),
            !old(self).living() ==> wreck is None,
            wreck is None ==> *final(self) == *old(self) && *final(world) == *old(world),
            forall|other: MemberId|
                #![trigger touched_in(*final(world), other)]
                #![trigger pos_in(*final(world), other)]
                #![trigger bounds_in(*final(world), other)]
                #![trigger velocity_in(*final(world), other)]
                cast_of(*final(world)).contains(other) ==> reads_alike(*old(world), *final(world), other),
            wreck is Some ==> old(self).living() && !final(self).living() && cast_of(*final(world))
                == cast_of(*old(world)).remove(old(self).seat()),
            wreck is Some <==> old(self).spent_in(*old(world)),
            wreck matches Some(pos) ==> pos == pos_in(*old(world), old(self).seat()),
    {
        if !self.alive {
            return None;
        }
        let met = touched(world, self.member);
        if self.is_hit(met) {
            Some(self.destroy(world))
        } else {
            None
        }
    }

    /// Die, and give the seat back; hands back where the shot was, for its blast.
    pub fn destroy(&mut self, world: &mut Sky) -> (pos: (i16, i16))
        requires
            sky_wf(*old(world)),
            cast_of(*old(world)).contains(old(self).seat()),
        ensures
            sky_wf(*final(world)),
            final(self).seat() == old(self).seat(),
            final(self).kind() == old(self).kind(),
            !final(self).living(),
            cast_of(*final(world)) == cast_of(*old(world)).remove(old(self).seat()),
            pos == pos_in(*old(world), old(self).seat()),
            forall|other: MemberId|
                #![trigger touched_in(*final(world), other)]
                #![trigger pos_in(*final(world), other)]
                #![trigger bounds_in(*final(world), other)]
                #![trigger velocity_in(*final(world), other)]
                cast_of(*final(world)).contains(other) ==> reads_alike(*old(world), *final(world), other),
    {
        self.alive = false;
        let pos = draw_pos(world, self.member);
        retire(world, self.member);
        pos
    }
}

/// A shot is spent on the other side's kind and on nothing else: whatever else its step met — its
/// own kind, or the side that fired it — makes no difference to whether it is spent.
pub proof fn lemma_own_side_never_counts(touched: u8)
    ensures
        meets(touched | FRIENDLY_SHOT | LADY, target_of(Type::FriendlyBullet)) == meets(
            touched,
            target_of(Type::FriendlyBullet),
        ),
        meets(touched | ENEMY_SHOT | AIRCRAFT, target_of(Type::EnemyBullet)) == meets(
            touched,
            target_of(Type::EnemyBullet),
        ),
{
    assert(((touched | 4u8 | 1u8) & 2u8 != 0) == (touched & 2u8 != 0)) by (bit_vector);
    assert(((touched | 8u8 | 2u8) & 1u8 != 0) == (touched & 1u8 != 0)) by (bit_vector);
}

impl Entity for Bullet {
    closed spec fn kind(&self) -> Type {
        self.entity_type
    }

    closed spec fn seat(&self) -> MemberId {
        self.member
    }

    closed spec fn living(&self) -> bool {
        self.alive
    }

    fn entity_type(&self) -> (t: Type) {
        self.entity_type
    }

    fn member(&self) -> (m: MemberId) {
        self.member
    }

    fn alive(&self) -> (a: bool) {
        self.alive
    }
}

} // verus!
