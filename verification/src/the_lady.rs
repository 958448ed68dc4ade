//! The lady: the helicopter the player flies, and whose death ends the game.

use vstd::prelude::*;
use pixel8::physics::{MemberBuilder, MemberId};

use crate::common::{meets, touches, AIRCRAFT, ENEMY_SHOT, FRIENDLY_SHOT, LADY};
use crate::entity::{Entity, Type};
use crate::shooter::{BulletProps, Shooter};
use crate::sky::{
    bounds_in, cast_of, draw_pos, enlist, nobody, pos_in, reads_alike, retire, seated, sky_wf, touched,
    touched_in, unseatable, velocity_in, Bounds, Sky,
    SCREEN_HEIGHT,
    SCREEN_WIDTH,
};

verus! {

/// The lady: her seat, whether she is alive, and where she last drew, kept from the moment she
/// dies (her seat is retired then, but an aircraft still chases wherever she went down). Dead, she
/// keeps the id to the seat she gave back, and nothing asks that seat of her again.
#[derive(Debug, Clone, Copy)]
pub struct TheLady {
    member: MemberId,
    alive: bool,
    last_pos: (i16, i16),
}

/// The console's buttons, as the bits of the set of buttons held down.
pub const BUTTON_LEFT: u8 = 1;
pub const BUTTON_RIGHT: u8 = 2;
pub const BUTTON_UP: u8 = 4;
pub const BUTTON_DOWN: u8 = 8;
pub const BUTTON_O: u8 = 16;

/// The sprite she is drawn from, whose `LADY` flag is what an aircraft hunting her, and every shot
/// aimed at her, is told it met; and the rectangle she covers.
pub const SPRITE_ID: u8 = 1;
pub const WIDTH: u16 = 8;
pub const HEIGHT: u16 = 8;

/// Where she is seated at the start of every run.
pub const STARTING_X: i16 = 63;
pub const STARTING_Y: i16 = 111;

/// Where her shots leave from: straight up out of her nose.
pub const MUZZLE_X: i16 = 0;
pub const MUZZLE_Y: i16 = -1;

/// A ram or a shot: the whole of what can end her, and all she is told about.
pub const HEEDS: u8 = AIRCRAFT | ENEMY_SHOT;

/// Which way she is flown this update, as the signs of her two speeds, by the buttons held down
/// in `buttons` with her covering `b`: an axis at a time, and each way only while there is screen
/// left on that side, so a diagonal held into an edge carries on along it.
pub open spec fn flight_of(buttons: u8, b: Bounds) -> (int, int) {
    let left = buttons & BUTTON_LEFT != 0 && b.x > -1;
    let right = buttons & BUTTON_RIGHT != 0 && b.right_spec() < SCREEN_WIDTH - 2;
    let up = buttons & BUTTON_UP != 0 && b.y > 0;
    let down = buttons & BUTTON_DOWN != 0 && b.bottom_spec() < SCREEN_HEIGHT;
    ((if right { 1int } else { 0 }) - (if left { 1int } else { 0 }), (if down { 1int } else { 0 }) - (
    if up { 1int } else { 0 }))
}

impl TheLady {
    /// The lady before she has a seat: alive, seated nowhere.
    pub fn waiting() -> (l: Self)
        ensures
            l.living(),
            l.spot() == (0i16, 0i16),
            unseatable(l.seat()),
    {
        Self { member: nobody(), alive: true, last_pos: (0, 0) }
    }

    /// Seats her in `world`, as `description` says; the world must have a seat left.
    pub fn new(description: MemberBuilder, world: &mut Sky) -> (l: Self)
        requires
            sky_wf(*old(world)),
            cast_of(*old(world)).len() < crate::MAX_CAST,
        ensures
            sky_wf(*final(world)),
            l.living(),
            l.spot() == (0i16, 0i16),
            !cast_of(*old(world)).contains(l.seat()),
            cast_of(*final(world)) == cast_of(*old(world)).insert(l.seat()),
    {
        // There is a seat left, so the world hands one over.
        let member = enlist(world, description).unwrap();
        Self { member, alive: true, last_pos: (0, 0) }
    }

    /// Whether the step `world` last took is the end of her: she is alive and seated in it, and
    /// what her step met includes a ram or a shot.
    pub open spec fn hit_in(self, world: Sky) -> bool {
        &&& self.living()
        &&& cast_of(world).contains(self.seat())
        &&& meets(touched_in(world, self.seat()), HEEDS)
    }

    /// Where she was when she died.
    pub closed spec fn spot(&self) -> (i16, i16) {
        self.last_pos
    }

    /// Where she draws: her seat's position while she is seated, and the position she died at
    /// once she has been retired.
    pub fn draw_pos(&self, world: &Sky) -> (pos: (i16, i16))
        ensures
            !(self.living() && cast_of(*world).contains(self.seat())) ==> pos == self.spot(),
            self.living() && cast_of(*world).contains(self.seat()) ==> pos == pos_in(
                *world,
                self.seat(),
            ),
    {
        if self.alive && seated(world, self.member) {
            draw_pos(world, self.member)
        } else {
            self.last_pos
        }
    }

    /// [`flight_of`], computed.
    pub fn flight(buttons: u8, b: Bounds) -> (d: (i8, i8))
        ensures
            d.0 == flight_of(buttons, b).0,
            d.1 == flight_of(buttons, b).1,
    {
        let mut dx: i8 = 0;
        let mut dy: i8 = 0;
        if buttons & BUTTON_LEFT != 0 && b.x > -1 {
            dx = dx - 1;
        }
        if buttons & BUTTON_RIGHT != 0 && b.right() < SCREEN_WIDTH - 2 {
            dx = dx + 1;
        }
        if buttons & BUTTON_UP != 0 && b.y > 0 {
            dy = dy - 1;
        }
        if buttons & BUTTON_DOWN != 0 && b.bottom() < SCREEN_HEIGHT {
            dy = dy + 1;
        }
        (dx, dy)
    }

    /// Which way she is flown this update: nowhere, when she is dead (and then nothing about her
    /// is touched); in a game, [`flight_of`] the buttons; between games, she holds her hover.
    pub fn heading(&self, in_game: bool, buttons: u8, b: Bounds) -> (d: Option<(i8, i8)>)
        ensures
            !self.living() ==> d is None,
            self.living() && !in_game ==> d == Some((0i8, 0i8)),
            self.living() && in_game ==> (d matches Some(h) && h.0 == flight_of(buttons, b).0 && h.1
                == flight_of(buttons, b).1),
    {
        if !self.alive {
            None
        } else if in_game {
            Some(Self::flight(buttons, b))
        } else {
            Some((0, 0))
        }
    }

    /// Whether a step that met the flags in `touched` is the end of her: a ram or a shot.
    pub fn is_hit(touched: u8) -> (r: bool)
        ensures
            r == meets(touched, HEEDS),
    {
        touches(touched, HEEDS)
    }

    /// What she makes of the step she has just taken. A ram or a shot kills her: she keeps where
    /// she was, gives her seat back (keeping the id to it), and hands back where
    /// her wreck is. Dead, or never seated, she has nothing to react with.
    pub fn react(&mut self, world: &mut Sky) -> (wreck: Option<(i16, i16)>)
        requires
            sky_wf(*old(world)),
        ensures
            sky_wf(*final(world)),
            !(old(self).living() && cast_of(*old(world)).contains(old(self).seat())) ==> wreck is None,
            wreck is None ==> *final(self) == *old(self) && *final(world) == *old(world),
            forall|other: MemberId|
                #![trigger touched_in(*final(world), other)]
                #![trigger pos_in(*final(world), other)]
                #![trigger bounds_in(*final(world), other)]
                #![trigger velocity_in(*final(world), other)]
                cast_of(*final(world)).contains(other) ==> reads_alike(*old(world), *final(world), other),
            wreck matches Some(pos) ==> old(self).living() && !final(self).living(),
            wreck is Some <==> old(self).hit_in(*old(world)),
            wreck matches Some(pos) ==> final(self).spot() == pos && pos == pos_in(
                *old(world),
                old(self).seat(),
            ),
            final(self).seat() == old(self).seat(),
            wreck is Some ==> cast_of(*final(world)) == cast_of(*old(world)).remove(old(self).seat()),
    {
        if !self.alive || !seated(world, self.member) {
            return None;
        }
        let pos = draw_pos(world, self.member);
        let met = touched(world, self.member);
        if Self::is_hit(met) {
            self.last_pos = pos;
            self.alive = false;
            retire(world, self.member);
            Some(pos)
        } else {
            None
        }
    }
}

/// Each axis is flown on its own: the way she goes across depends only on the left and right
/// buttons and the way she goes up or down only on the up and down buttons; a button held alone
/// with screen left on its side takes her that way.
pub proof fn lemma_axes_are_flown_apart(buttons: u8, b: Bounds)
    ensures
        flight_of(buttons, b).0 == flight_of(buttons & (BUTTON_LEFT | BUTTON_RIGHT), b).0,
        flight_of(buttons, b).1 == flight_of(buttons & (BUTTON_UP | BUTTON_DOWN), b).1,
        buttons & BUTTON_DOWN != 0 && buttons & BUTTON_UP == 0 && b.bottom_spec() < SCREEN_HEIGHT
            ==> flight_of(buttons, b).1 == 1,
        buttons & BUTTON_UP != 0 && buttons & BUTTON_DOWN == 0 && b.y > 0 ==> flight_of(buttons, b).1
            == -1,
        buttons & BUTTON_RIGHT != 0 && buttons & BUTTON_LEFT == 0 && b.right_spec() < SCREEN_WIDTH - 2
            ==> flight_of(buttons, b).0 == 1,
        buttons & BUTTON_LEFT != 0 && buttons & BUTTON_RIGHT == 0 && b.x > -1 ==> flight_of(buttons, b).0
            == -1,
        buttons & (BUTTON_UP | BUTTON_DOWN) == 0 ==> flight_of(buttons, b).1 == 0,
        buttons & (BUTTON_LEFT | BUTTON_RIGHT) == 0 ==> flight_of(buttons, b).0 == 0,
{
    assert((buttons & (1u8 | 2u8)) & 1u8 == buttons & 1u8) by (bit_vector);
    assert((buttons & (1u8 | 2u8)) & 2u8 == buttons & 2u8) by (bit_vector);
    assert((buttons & (4u8 | 8u8)) & 4u8 == buttons & 4u8) by (bit_vector);
    assert((buttons & (4u8 | 8u8)) & 8u8 == buttons & 8u8) by (bit_vector);
    assert(buttons & (4u8 | 8u8) == 0 ==> buttons & 4u8 == 0 && buttons & 8u8 == 0) by (bit_vector);
    assert(buttons & (1u8 | 2u8) == 0 ==> buttons & 1u8 == 0 && buttons & 2u8 == 0) by (bit_vector);
}

/// The lady is never flown further off the screen: she is taken left only while her left edge is
/// still on it, right only while her right edge is short of the last two columns, up only while
/// her top is below the top, and down only while her bottom is above the bottom.
pub proof fn lemma_flight_keeps_to_the_screen(buttons: u8, b: Bounds)
    ensures
        flight_of(buttons, b).0 < 0 ==> b.x > -1,
        flight_of(buttons, b).0 > 0 ==> b.right_spec() < SCREEN_WIDTH - 2,
        flight_of(buttons, b).1 < 0 ==> b.y > 0,
        flight_of(buttons, b).1 > 0 ==> b.bottom_spec() < SCREEN_HEIGHT,
{
}

/// Our own shots stream past the lady every update and are none of her business, and so is
/// another of her own kind: whatever else her step met, whether it is the end of her is the same.
pub proof fn lemma_own_shots_never_hurt(touched: u8)
    ensures
        meets(touched | FRIENDLY_SHOT | LADY, HEEDS) == meets(touched, HEEDS),
{
    assert((2u8 | 8u8) == 10u8) by (bit_vector);
    assert(((touched | 4u8 | 1u8) & 10u8 != 0) == (touched & 10u8 != 0)) by (bit_vector);
}

impl Entity for TheLady {
    open spec fn kind(&self) -> Type {
        Type::Protoganist
    }

    closed spec fn seat(&self) -> MemberId {
        self.member
    }

    closed spec fn living(&self) -> bool {
        self.alive
    }

    fn entity_type(&self) -> (t: Type) {
        Type::Protoganist
    }

    fn member(&self) -> (m: MemberId) {
        self.member
    }

    fn alive(&self) -> (a: bool) {
        self.alive
    }
}

impl Shooter for TheLady {
    open spec fn props(&self) -> BulletProps {
        BulletProps { x_offset: MUZZLE_X, y_offset: MUZZLE_Y }
    }

    fn bullet_props(&self) -> (p: BulletProps) {
        BulletProps { x_offset: MUZZLE_X, y_offset: MUZZLE_Y }
    }
}

} // verus!
