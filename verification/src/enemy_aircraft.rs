//! An enemy aircraft: it comes down from above the screen, drifts across towards the lady, shoots
//! at her, and dies of one of our shots or of flying into her.

use vstd::prelude::*;
use pixel8::physics::{MemberBuilder, MemberId};

use crate::common::{meets, touches, AIRCRAFT, ENEMY_SHOT, FRIENDLY_SHOT, LADY};
use crate::entity::{Entity, Type};
use crate::shooter::{BulletProps, Shooter};
use crate::sky::{
    bounds_in, cast_of, draw_pos, enlist, pos_in, reads_alike, retire, sky_wf, touched, touched_in,
    velocity_in, Bounds, Sky, SCREEN_HEIGHT, SCREEN_WIDTH,
};

verus! {

/// An enemy aircraft in the air: its seat, whether it still flies, and whether what brought it
/// down was a shot of ours (never set on the ram).
#[derive(Debug, Clone, Copy)]
pub struct EnemyAircraft {
    member: MemberId,
    alive: bool,
    died_to_shot: bool,
}

/// What an aircraft's step met came to.
#[derive(Debug, Clone, Copy, PartialEq, Eq, Structural)]
pub enum Fate {
    /// Nothing that concerns it.
    Unhurt,
    /// A shot of ours.
    ShotDown,
    /// The lady herself.
    Rammed,
}

/// The sprite an aircraft is drawn from, whose `AIRCRAFT` flag is what the lady and our shots are
/// told they met, and the rectangle it covers.
pub const SPRITE_ID: u8 = 32;
pub const WIDTH: u16 = 6;
pub const HEIGHT: u16 = 8;

/// Where an aircraft starts: above the top of the screen.
pub const STARTING_Y: i16 = -8;

/// What an aircraft is told about: our shots, and the lady it flies into. Its own side's shots
/// fill the sky around it and never concern it.
pub const HEEDS: u8 = FRIENDLY_SHOT | LADY;

/// What a step that met the flags in `touched` means for an aircraft: a shot of ours outranks the
/// ram, and anything else is no concern of it.
pub open spec fn fate_of(touched: u8) -> Fate {
    if meets(touched, FRIENDLY_SHOT) {
        Fate::ShotDown
    } else if meets(touched, LADY) {
        Fate::Rammed
    } else {
        Fate::Unhurt
    }
}

/// Whether an aircraft covering `b` has left the play: past the right edge, past the left, or
/// below the bottom. Not above the top, which is where it comes from.
pub open spec fn left_play(b: Bounds) -> bool {
    b.x >= SCREEN_WIDTH || b.right_spec() <= 0 || b.y >= SCREEN_HEIGHT
}

/// What one reaction makes of an aircraft that is `state.0` alive and `state.1` shot down, when
/// its step met the flags in `touched`: a live one shot at dies shot down, a live one that rammed
/// the lady dies as it was, and anything else leaves it be.
pub open spec fn reaction(state: (bool, bool), touched: u8) -> (bool, bool) {
    if !state.0 {
        state
    } else {
        match fate_of(touched) {
            Fate::ShotDown => (false, true),
            Fate::Rammed => (false, state.1),
            Fate::Unhurt => state,
        }
    }
}

/// What a run of reactions, to the flags in `touches` in turn, makes of an aircraft that starts
/// as `state`.
pub open spec fn after_reactions(state: (bool, bool), touches: Seq<u8>) -> (bool, bool)
    decreases touches.len(),
{
    if touches.len() == 0 {
        state
    } else {
        reaction(after_reactions(state, touches.drop_last()), touches.last())
    }
}

/// Whether the `i`th of `touches` is the first that concerns an aircraft: nothing before it did.
pub open spec fn first_blow(touches: Seq<u8>, i: int) -> bool {
    &&& 0 <= i < touches.len()
    &&& fate_of(touches[i]) != Fate::Unhurt
    &&& forall|j: int| 0 <= j < i ==> fate_of(#[trigger] touches[j]) == Fate::Unhurt
}

/// Which way an aircraft at `x` heads this update, as signs of its two speeds: in a game, slowly
/// down the screen and across towards the lady's `lady_x`; otherwise, nowhere.
pub open spec fn heading_of(in_game: bool, x: i16, lady_x: i16) -> (int, int) {
    if !in_game {
        (0, 0)
    } else if x < lady_x {
        (1, 1)
    } else if x > lady_x {
        (-1, 1)
    } else {
        (0, 1)
    }
}

impl EnemyAircraft {
    /// An aircraft seated as `description` says, or `None` when the world has no seat left.
    pub fn new(description: MemberBuilder, world: &mut Sky) -> (a: Option<Self>)
        requires
            sky_wf(*old(world)),
        ensures
            sky_wf(*final(world)),
            a is None <==> cast_of(*old(world)).len() == crate::MAX_CAST,
            a is None ==> *final(world) == *old(world),
            forall|id: MemberId|
                #![trigger touched_in(*final(world), id)]
                #![trigger pos_in(*final(world), id)]
                #![trigger bounds_in(*final(world), id)]
                #![trigger velocity_in(*final(world), id)]
                cast_of(*old(world)).contains(id) ==> reads_alike(*old(world), *final(world), id),
            a matches Some(craft) ==> {
                &&& craft.living()
                &&& !craft.shot_down()
                &&& !cast_of(*old(world)).contains(craft.seat())
                &&& cast_of(*final(world)) == cast_of(*old(world)).insert(craft.seat())
            },
    {
        match enlist(world, description) {
            Some(member) => Some(Self { member, alive: true, died_to_shot: false }),
            None => None,
        }
    }

    /// What the step `world` last took means for this aircraft: [`fate_of`] what its step met.
    pub open spec fn fate_in(self, world: Sky) -> Fate {
        fate_of(touched_in(world, self.seat()))
    }

    /// Whether a shot of ours brought it down.
    pub closed spec fn shot_down(&self) -> bool {
        self.died_to_shot
    }

    /// Whether this aircraft was shot down, as opposed to rammed or still flying.
    pub fn died_to_shot(&self) -> (r: bool)
        ensures
            r == self.shot_down(),
    {
        self.died_to_shot
    }

    /// [`heading_of`], computed.
    pub fn heading(in_game: bool, x: i16, lady_x: i16) -> (h: (i8, i8))
        ensures
            h.0 == heading_of(in_game, x, lady_x).0,
            h.1 == heading_of(in_game, x, lady_x).1,
    {
        if !in_game {
            (0, 0)
        } else if x < lady_x {
            (1, 1)
        } else if x > lady_x {
            (-1, 1)
        } else {
            (0, 1)
        }
    }

    /// [`fate_of`], computed.
    pub fn fate(touched: u8) -> (f: Fate)
        ensures
            f == fate_of(touched),
    {
        if touches(touched, FRIENDLY_SHOT) {
            Fate::ShotDown
        } else if touches(touched, LADY) {
            Fate::Rammed
        } else {
            Fate::Unhurt
        }
    }

    /// [`left_play`], computed.
    pub fn outside(b: Bounds) -> (r: bool)
        ensures
            r == left_play(b),
    {
        b.x >= SCREEN_WIDTH || b.right() <= 0 || b.y >= SCREEN_HEIGHT
    }

    /// What the aircraft makes of the step it has just taken: one of our shots kills it and marks
    /// it shot down; flying into the lady kills it too; anything else leaves it be. A dead one
    /// gives its seat back and hands back where its wreck is.
    pub fn react(&mut self, world: &mut Sky) -> (wreck: Option<(i16, i16)>)
        requires
            sky_wf(*old(world)),
            old(self).living() ==> cast_of(*old(world)).contains(old(self).seat()),
        ensures
            sky_wf(*final(world)),
            final(self).seat() == old(self).seat(),
            !old(self).living() ==> wreck is None,
            wreck is None ==> *final(self) == *old(self) && *final(world) == *old(world),
            forall|other: MemberId|
                #![trigger touched_in(*final(world), other)]
                #![trigger pos_in(*final(world), other)]
                #![trigger bounds_in(*final(world), other)]
                #![trigger velocity_in(*final(world), other)]
                cast_of(*final(world)).contains(other) ==> reads_alike(*old(world), *final(world), other),
            wreck is Some ==> old(self).living() && !final(self).living() && cast_of(*final(world))
                == cast_of(*old(world)).remove(old(self).seat()),
            final(self).shot_down() != old(self).shot_down() ==> wreck is Some && final(self).shot_down(),
            wreck is Some <==> old(self).living() && old(self).fate_in(*old(world)) != Fate::Unhurt,
            wreck is Some ==> final(self).shot_down() == (old(self).shot_down() || old(self).fate_in(
                *old(world),
            ) == Fate::ShotDown),
            wreck matches Some(pos) ==> pos == pos_in(*old(world), old(self).seat()),
            (final(self).living(), final(self).shot_down()) == reaction(
                (old(self).living(), old(self).shot_down()),
                touched_in(*old(world), old(self).seat()),
            ),
    {
        if !self.alive {
            return None;
        }
        let met = touched(world, self.member);
        match Self::fate(met) {
            Fate::ShotDown => {
                self.died_to_shot = true;
                Some(self.destroy(world))
            },
            Fate::Rammed => Some(self.destroy(world)),
            Fate::Unhurt => None,
        }
    }

    /// Die, and give the seat back; hands back where the aircraft was, for its blast.
    pub fn destroy(&mut self, world: &mut Sky) -> (pos: (i16, i16))
        requires
            sky_wf(*old(world)),
            cast_of(*old(world)).contains(old(self).seat()),
        ensures
            sky_wf(*final(world)),
            final(self).seat() == old(self).seat(),
            final(self).shot_down() == old(self).shot_down(),
            !final(self).living(),
            cast_of(*final(world)) == cast_of(*old(world)).remove(old(self).seat()),
            pos == pos_in(*old(world), old(self).seat()),
            forall|other: MemberId|
                #![trigger touched_in(*final(world), other)]
                #![trigger pos_in(*final(world), other)]
                #![trigger bounds_in(*final(world), other)]
                #![trigger velocity_in(*final(world), other)]
                cast_of(*final(world)).contains(other) ==> reads_alike(*old(world), *final(world), other),
    {
        self.alive = false;
        let pos = draw_pos(world, self.member);
        retire(world, self.member);
        pos
    }
}

/// In a game an aircraft always comes down the screen and drifts across towards the lady, wherever
/// she is: right when she is to its right, left when she is to its left, and straight down when
/// it is level with her; so two aircraft on either side of her drift opposite ways. Between games
/// it goes nowhere.
pub proof fn lemma_chases_the_lady(x: i16, lady_x: i16)
    ensures
        heading_of(true, x, lady_x).1 == 1,
        heading_of(true, x, lady_x).0 > 0 <==> x < lady_x,
        heading_of(true, x, lady_x).0 < 0 <==> lady_x < x,
        -1 <= heading_of(true, x, lady_x).0 <= 1,
        heading_of(true, x, lady_x).0 == -heading_of(true, lady_x, x).0,
        heading_of(false, x, lady_x) == (0int, 0int),
{
}

/// Its own side's shots fill the sky around an aircraft and never concern it, nor does another
/// aircraft it flies through: whatever else its step met, its fate is the same.
pub proof fn lemma_own_side_never_hurts(touched: u8)
    ensures
        fate_of(touched | ENEMY_SHOT | AIRCRAFT) == fate_of(touched),
{
    assert(((touched | 8u8 | 2u8) & 4u8 != 0) == (touched & 4u8 != 0)) by (bit_vector);
    assert(((touched | 8u8 | 2u8) & 1u8 != 0) == (touched & 1u8 != 0)) by (bit_vector);
}

/// An aircraft that has been reacting since it was new — alive and not shot down — is shot down
/// exactly when the first of its steps that concerned it met one of our shots, and once shot
/// down it stays so: a rammed one, or one still flying, is not.
pub proof fn lemma_shot_down_by_the_first_blow(touches: Seq<u8>)
    ensures
        after_reactions((true, false), touches).0 <==> forall|j: int|
            0 <= j < touches.len() ==> fate_of(#[trigger] touches[j]) == Fate::Unhurt,
        after_reactions((true, false), touches).1 <==> exists|i: int|
            #[trigger] first_blow(touches, i) && fate_of(touches[i]) == Fate::ShotDown,
    decreases touches.len(),
{
    if touches.len() > 0 {
        let prior = touches.drop_last();
        let n = touches.len() - 1;
        lemma_shot_down_by_the_first_blow(prior);
        assert forall|j: int| 0 <= j < n implies touches[j] == prior[j] by {}
        assert((forall|j: int| 0 <= j < n ==> fate_of(#[trigger] prior[j]) == Fate::Unhurt) <==> (
        forall|j: int| 0 <= j < n ==> fate_of(#[trigger] touches[j]) == Fate::Unhurt)) by {
            if forall|j: int| 0 <= j < n ==> fate_of(#[trigger] prior[j]) == Fate::Unhurt {
                assert forall|j: int| 0 <= j < n implies fate_of(#[trigger] touches[j]) == Fate::Unhurt by {
                    assert(touches[j] == prior[j]);
                }
            }
            if forall|j: int| 0 <= j < n ==> fate_of(#[trigger] touches[j]) == Fate::Unhurt {
                assert forall|j: int| 0 <= j < n implies fate_of(#[trigger] prior[j]) == Fate::Unhurt by {
                    assert(touches[j] == prior[j]);
                }
            }
        }
        assert forall|i: int| 0 <= i < n implies #[trigger] first_blow(touches, i) == first_blow(prior, i) by {
            assert(touches[i] == prior[i]);
            if first_blow(prior, i) {
                assert forall|j: int| 0 <= j < i implies fate_of(#[trigger] touches[j]) == Fate::Unhurt by {
                    assert(touches[j] == prior[j]);
                }
            }
            if first_blow(touches, i) {
                assert forall|j: int| 0 <= j < i implies fate_of(#[trigger] prior[j]) == Fate::Unhurt by {
                    assert(touches[j] == prior[j]);
                }
            }
        }
        let st = after_reactions((true, false), prior);
        if st.0 {
            if fate_of(touches[n]) == Fate::ShotDown {
                assert(first_blow(touches, n));
            } else {
                if exists|i: int| #[trigger] first_blow(touches, i) && fate_of(touches[i]) == Fate::ShotDown {
                    let i = choose|i: int| #[trigger] first_blow(touches, i) && fate_of(touches[i]) == Fate::ShotDown;
                    if i < n {
                        assert(first_blow(prior, i));
                        assert(fate_of(prior[i]) != Fate::Unhurt);
                    }
                }
            }
            if fate_of(touches[n]) != Fate::Unhurt {
                assert(fate_of(touches[n]) != Fate::Unhurt);
            }
        } else {
            if exists|i: int| #[trigger] first_blow(touches, i) && fate_of(touches[i]) == Fate::ShotDown {
                let i = choose|i: int| #[trigger] first_blow(touches, i) && fate_of(touches[i]) == Fate::ShotDown;
                if i == n {
                    let j = choose|j: int| 0 <= j < n && fate_of(#[trigger] prior[j]) != Fate::Unhurt;
                    assert(touches[j] == prior[j]);
                } else {
                    assert(first_blow(prior, i));
                }
            }
            if exists|i: int| #[trigger] first_blow(prior, i) && fate_of(prior[i]) == Fate::ShotDown {
                let i = choose|i: int| #[trigger] first_blow(prior, i) && fate_of(prior[i]) == Fate::ShotDown;
                assert(first_blow(touches, i));
            }
            let j = choose|j: int| 0 <= j < n && fate_of(#[trigger] prior[j]) != Fate::Unhurt;
            assert(touches[j] == prior[j]);
        }
    }
}

/// Once shot down, an aircraft stays shot down whatever it meets afterwards.
pub proof fn lemma_shot_down_stays(state: (bool, bool), touches: Seq<u8>)
    requires
        state.1,
    ensures
        after_reactions(state, touches).1,
    decreases touches.len(),
{
    if touches.len() > 0 {
        lemma_shot_down_stays(state, touches.drop_last());
    }
}

impl Entity for EnemyAircraft {
    open spec fn kind(&self) -> Type {
        Type::Enemy
    }

    closed spec fn seat(&self) -> MemberId {
        self.member
    }

    closed spec fn living(&self) -> bool {
        self.alive
    }

    fn entity_type(&self) -> (t: Type) {
        Type::Enemy
    }

    fn member(&self) -> (m: MemberId) {
        self.member
    }

    fn alive(&self) -> (a: bool) {
        self.alive
    }
}

impl Shooter for EnemyAircraft {
    open spec fn props(&self) -> BulletProps {
        BulletProps { x_offset: 3, y_offset: 4 }
    }

    fn bullet_props(&self) -> (p: BulletProps) {
        BulletProps { x_offset: 3, y_offset: 4 }
    }
}

} // verus!
