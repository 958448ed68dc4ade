//! The one physics world everything that flies is seated in, as this game sees it: a set of
//! seats, each held by one member, and the few questions the game asks of a seat.
//!
//! The world is the console's own engine, reached through the trusted items below. What is
//! modelled of it is which members it holds — [`cast_of`] — and what each member's seat holds:
//! what its last step met, where it draws, the rectangle it covers and what it travels at. Those
//! are read back as the seat keeps them, and seating or retiring one member leaves everybody
//! else's as it was; what a step writes into them is the engine's answer and is not stated.

use vstd::prelude::*;
use pixel8::physics::{MemberBuilder, MemberId, Velocity, World};
use pixel8::Context;

use crate::MAX_CAST;

verus! {

#[verifier::external_type_specification]
#[verifier::external_body]
pub struct ExMemberId(MemberId);

#[verifier::external_type_specification]
#[verifier::external_body]
pub struct ExMemberBuilder(MemberBuilder);

#[verifier::external_type_specification]
#[verifier::external_body]
pub struct ExVelocity(Velocity);

#[verifier::external_type_specification]
#[verifier::external_body]
pub struct ExContext(Context);

/// The one world everything that flies is seated in: [`MAX_CAST`] seats, exactly enough for the
/// lady, every aircraft in the air and every shot either side has in flight. The console's world
/// is held privately; what the game asks of it goes through the items below.
#[verifier::external_body]
pub struct Sky {
    world: World<MAX_CAST>,
}

/// The members `world` holds: the id of whoever sits in each of its taken seats. An id to a
/// member that has been retired, or to nobody, is not in it.
pub uninterp spec fn cast_of(world: Sky) -> Set<MemberId>;

/// What the last step the member `id` took met in `world`: the flag bits of its contacts, as the
/// world keeps them in the member's seat. Only a member `world` holds has any.
pub uninterp spec fn touched_in(world: Sky, id: MemberId) -> u8;

/// The pixel the member `id` draws at in `world`, as the world keeps it in the member's seat. Only
/// a member `world` holds has one.
pub uninterp spec fn pos_in(world: Sky, id: MemberId) -> (i16, i16);

/// What the member `id` is travelling at in `world`, as the world keeps it in the member's seat.
/// Only a member `world` holds has one.
pub uninterp spec fn velocity_in(world: Sky, id: MemberId) -> Velocity;

/// The rectangle the member `id` covers in `world`, as `(x, y, width, height)`, as the world
/// keeps it in the member's seat. Only a member `world` holds has one.
pub uninterp spec fn bounds_in(world: Sky, id: MemberId) -> (i16, i16, u16, u16);

/// [`bounds_in`], as a [`Bounds`].
pub open spec fn seat_bounds(world: Sky, id: MemberId) -> Bounds {
    Bounds {
        x: bounds_in(world, id).0,
        y: bounds_in(world, id).1,
        width: bounds_in(world, id).2,
        height: bounds_in(world, id).3,
    }
}

/// Whether the member `id` reads the same from its seat in `before` and in `after`: what its
/// last step met, where it draws, the rectangle it covers and what it travels at.
pub open spec fn reads_alike(before: Sky, after: Sky, id: MemberId) -> bool {
    &&& touched_in(after, id) == touched_in(before, id)
    &&& pos_in(after, id) == pos_in(before, id)
    &&& bounds_in(after, id) == bounds_in(before, id)
    &&& velocity_in(after, id) == velocity_in(before, id)
}

/// What every world this game can build satisfies: finitely many members, no more than its seats.
pub open spec fn sky_wf(world: Sky) -> bool {
    &&& cast_of(world).finite()
    &&& cast_of(world).len() <= MAX_CAST
}

/// Whether `id` is one no world ever holds, whatever is seated or retired in it.
pub open spec fn unseatable(id: MemberId) -> bool {
    forall|world: Sky| !cast_of(world).contains(id)
}

/// `World::mapless`: a world of [`MAX_CAST`] empty seats whose map is only scenery. Claimed: it
/// holds nobody.
#[verifier::external_body]
pub(crate) fn mapless_sky() -> (world: Sky)
    ensures
        cast_of(world) == Set::<MemberId>::empty(),
{
    Sky { world: World::mapless() }
}

/// `MemberId::NOBODY`: the id an actor holds before it has a seat. Claimed: no world holds it
/// (its seat number is past every world's last seat).
#[verifier::external_body]
pub(crate) fn nobody() -> (id: MemberId)
    ensures
        unseatable(id),
{
    MemberId::NOBODY
}

/// `MemberBuilder::enlist`: seats the member `description` describes in the lowest empty seat.
/// Claimed: `None` exactly when every seat is taken, and then the world is left as it was (the
/// full house is answered before anything is written); otherwise the id handed back is new to the
/// cast and is the only one added to it, and every member already seated reads as it did (only
/// the claimed seat is written).
#[verifier::external_body]
pub(crate) fn enlist(world: &mut Sky, description: MemberBuilder) -> (id: Option<MemberId>)
    requires
        sky_wf(*old(world)),
    ensures
        sky_wf(*final(world)),
        id is None <==> cast_of(*old(world)).len() == MAX_CAST,
        id is None ==> *final(world) == *old(world),
        forall|other: MemberId|
            #![trigger touched_in(*final(world), other)]
            #![trigger pos_in(*final(world), other)]
            #![trigger bounds_in(*final(world), other)]
            #![trigger velocity_in(*final(world), other)]
            cast_of(*old(world)).contains(other) ==> reads_alike(*old(world), *final(world), other),
        id matches Some(m) ==> !cast_of(*old(world)).contains(m) && cast_of(*final(world))
            == cast_of(*old(world)).insert(m),
{
    description.enlist(&mut world.world)
}

/// `MemberMut::retire`, on the member `id` names: empties its seat. Claimed: `id` leaves the cast
/// and nobody else does, and every other member reads as it did (only that seat is written). It
/// panics on an id the world does not hold, which `requires` rules out.
#[verifier::external_body]
pub(crate) fn retire(world: &mut Sky, id: MemberId)
    requires
        sky_wf(*old(world)),
        cast_of(*old(world)).contains(id),
    ensures
        sky_wf(*final(world)),
        cast_of(*final(world)) == cast_of(*old(world)).remove(id),
        forall|other: MemberId|
            #![trigger touched_in(*final(world), other)]
            #![trigger pos_in(*final(world), other)]
            #![trigger bounds_in(*final(world), other)]
            #![trigger velocity_in(*final(world), other)]
            cast_of(*old(world)).contains(other) && other != id ==> reads_alike(
                *old(world),
                *final(world),
                other,
            ),
{
    world.world.member_mut(id).retire()
}

/// `World::get_member(id).is_some()`: whether the world holds the member `id` names.
#[verifier::external_body]
pub(crate) fn seated(world: &Sky, id: MemberId) -> (r: bool)
    ensures
        r == cast_of(*world).contains(id),
{
    world.world.get_member(id).is_some()
}

/// `Member::draw_pos`: the pixel the member draws at, read from its seat. Claimed: it is what the
/// world keeps there, [`pos_in`]; where that is, is wherever the last step left the member, and
/// is not stated.
#[verifier::external_body]
pub(crate) fn draw_pos(world: &Sky, id: MemberId) -> (pos: (i16, i16))
    requires
        cast_of(*world).contains(id),
    ensures
        pos == pos_in(*world, id),
{
    world.world.member(id).draw_pos()
}

/// `Member::bounds`: the rectangle the member covers, field for field, read from its seat.
/// Claimed: it is what the world keeps there, [`bounds_in`]; where that is, is wherever the last
/// step left the member, and is not stated.
#[verifier::external_body]
pub(crate) fn bounds(world: &Sky, id: MemberId) -> (b: Bounds)
    requires
        cast_of(*world).contains(id),
    ensures
        (b.x, b.y, b.width, b.height) == bounds_in(*world, id),
{
    let b = world.world.member(id).bounds();
    Bounds { x: b.x(), y: b.y(), width: b.width(), height: b.height() }
}

/// `Contacts::touched`, of the member's contacts, as its bits: the flags of everything its last
/// step met, read from its seat. Claimed: they are what the world keeps there, [`touched_in`];
/// which flags those are is the step's answer, and is not stated.
#[verifier::external_body]
pub(crate) fn touched(world: &Sky, id: MemberId) -> (flags: u8)
    requires
        cast_of(*world).contains(id),
    ensures
        flags == touched_in(*world, id),
{
    world.world.member(id).contacts().touched().bits()
}

/// `MemberMut::set_velocity`: what the member means to travel at this update, written into its
/// seat. Claimed: the cast is unchanged (the seat keeps its member), the member now travels at
/// `velocity` (`Member::velocity` reads back the two components written) and keeps what its last
/// step met, where it draws and its rectangle (only the velocity of the seat is written), and
/// every other member the world holds reads as it did, its own seat being untouched.
#[verifier::external_body]
pub(crate) fn set_velocity(world: &mut Sky, id: MemberId, velocity: Velocity)
    requires
        sky_wf(*old(world)),
        cast_of(*old(world)).contains(id),
    ensures
        sky_wf(*final(world)),
        cast_of(*final(world)) == cast_of(*old(world)),
        velocity_in(*final(world), id) == velocity,
        touched_in(*final(world), id) == touched_in(*old(world), id),
        pos_in(*final(world), id) == pos_in(*old(world), id),
        bounds_in(*final(world), id) == bounds_in(*old(world), id),
        forall|other: MemberId|
            #![trigger touched_in(*final(world), other)]
            #![trigger pos_in(*final(world), other)]
            #![trigger bounds_in(*final(world), other)]
            #![trigger velocity_in(*final(world), other)]
            cast_of(*old(world)).contains(other) && other != id ==> reads_alike(
                *old(world),
                *final(world),
                other,
            ),
{
    world.world.member_mut(id).set_velocity(velocity)
}

/// `World::step`: moves the whole cast one update and writes what each member met into its
/// contacts. Claimed: the cast is unchanged, a step seating and retiring nobody. The positions,
/// velocities and contacts it leaves depend on the console's map and sprite sheet as well as on
/// the world, and nothing is claimed of them.
#[verifier::external_body]
pub(crate) fn step(world: &mut Sky, ctx: &Context)
    requires
        sky_wf(*old(world)),
    ensures
        sky_wf(*final(world)),
        cast_of(*final(world)) == cast_of(*old(world)),
{
    world.world.step(ctx)
}

/// The rectangle a member covers, in whole pixels from where it draws: the console's own
/// rectangle, field for field, and the questions the game asks of one.
#[derive(Debug, Clone, Copy, PartialEq, Eq, Structural)]
pub struct Bounds {
    pub x: i16,
    pub y: i16,
    pub width: u16,
    pub height: u16,
}

/// The screen's width and height, in pixels.
pub const SCREEN_WIDTH: i16 = 128;
pub const SCREEN_HEIGHT: i16 = 128;

impl Bounds {
    /// The first pixel column to the right of the rectangle, held at the edge of the coordinate
    /// space rather than wrapping round it.
    pub open spec fn right_spec(self) -> int {
        if self.x + self.width > i16::MAX {
            i16::MAX as int
        } else {
            self.x + self.width
        }
    }

    /// The first pixel row below the rectangle, held the same way.
    pub open spec fn bottom_spec(self) -> int {
        if self.y + self.height > i16::MAX {
            i16::MAX as int
        } else {
            self.y + self.height
        }
    }

    /// Whether any pixel of the rectangle is on the screen: it covers pixels at all, and it
    /// overlaps the screen's rectangle.
    pub open spec fn on_screen_spec(self) -> bool {
        &&& self.width != 0
        &&& self.height != 0
        &&& self.x < SCREEN_WIDTH
        &&& self.right_spec() > 0
        &&& self.y < SCREEN_HEIGHT
        &&& self.bottom_spec() > 0
    }

    pub fn right(&self) -> (r: i16)
        ensures
            r == self.right_spec(),
    {
        let sum: i32 = self.x as i32 + self.width as i32;
        if sum > i16::MAX as i32 {
            i16::MAX
        } else {
            sum as i16
        }
    }

    pub fn bottom(&self) -> (r: i16)
        ensures
            r == self.bottom_spec(),
    {
        let sum: i32 = self.y as i32 + self.height as i32;
        if sum > i16::MAX as i32 {
            i16::MAX
        } else {
            sum as i16
        }
    }

    pub fn on_screen(&self) -> (r: bool)
        ensures
            r == self.on_screen_spec(),
    {
        self.width != 0 && self.height != 0 && self.x < SCREEN_WIDTH && self.right() > 0
            && self.y < SCREEN_HEIGHT && self.bottom() > 0
    }
}

} // verus!
