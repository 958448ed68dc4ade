//! The whole cast of the fight and the score: the world they are seated in, the lady, the enemy
//! aircraft and every shot in flight, kept so that every seat the world holds belongs to exactly
//! one of them.

use vstd::prelude::*;
use pixel8::physics::{MemberBuilder, MemberId, Velocity};
use pixel8::Context;

use crate::bullet::Bullet;
use crate::common::Position;
use crate::enemy_aircraft::{EnemyAircraft, Fate};
use crate::entity::{Entity, Type};
use crate::shooter::{fires, muzzle_of, Shooter};
use crate::the_lady::flight_of;
use crate::enemy_aircraft::{heading_of, left_play};
use crate::racks::{aircraft_in, bullets_in, Bullets, Squadron};
use crate::sky::{
    bounds, bounds_in, cast_of, draw_pos, mapless_sky, pos_in, reads_alike, retire, seat_bounds, seated,
    set_velocity, sky_wf, step, touched_in, unseatable, velocity_in, Bounds, Sky,
};
use crate::the_lady::TheLady;
use crate::{DESTROY_SCORE_BUMP, LET_GO_SCORE_BUMP, MAX_BULLETS, MAX_CAST, MAX_ENEMY_AIRCRAFTS};

verus! {

/// What became of an attempt to put somebody new into the sky.
#[derive(Debug, Clone, Copy, PartialEq, Eq, Structural)]
pub enum Seating {
    /// Nobody was put up: the shooter did not fire.
    Held,
    /// Seated in the world and kept on the list.
    Seated,
    /// The world had no seat left.
    NoSeat,
    /// The world had a seat, but the list was full: the seat was given straight back.
    NoRoom,
}

/// Somebody who died this update, and where: where the blast goes.
#[derive(Debug, Clone, Copy, PartialEq, Eq, Structural)]
pub struct Wreck {
    pub kind: Type,
    pub pos: Position,
}

/// The wreck of somebody of `kind` who died in the seat `id`: where that seat drew in `world`.
pub open spec fn wreck_at(kind: Type, world: Sky, id: MemberId) -> Wreck {
    Wreck { kind, pos: Position { x: pos_in(world, id).0, y: pos_in(world, id).1 } }
}

/// The wrecks of the shots among the first `n` that were alive `before` and are dead `after`, in
/// order: each of its own kind, where its seat drew in `world`.
pub open spec fn fallen_shots(before: Seq<Bullet>, after: Seq<Bullet>, world: Sky, n: int) -> Seq<Wreck>
    decreases n,
{
    if n <= 0 {
        Seq::empty()
    } else {
        fallen_shots(before, after, world, n - 1) + if before[n - 1].living() && !after[n - 1].living() {
            seq![wreck_at(before[n - 1].kind(), world, before[n - 1].seat())]
        } else {
            Seq::empty()
        }
    }
}

/// The wrecks of the first `n` aircraft that were alive `before` and are dead `after`, in order:
/// each an `Enemy`, where its seat drew in `world`.
pub open spec fn fallen_aircraft(
    before: Seq<EnemyAircraft>,
    after: Seq<EnemyAircraft>,
    world: Sky,
    n: int,
) -> Seq<Wreck>
    decreases n,
{
    if n <= 0 {
        Seq::empty()
    } else {
        fallen_aircraft(before, after, world, n - 1) + if before[n - 1].living() && !after[n - 1].living() {
            seq![wreck_at(Type::Enemy, world, before[n - 1].seat())]
        } else {
            Seq::empty()
        }
    }
}

/// The shots among the first `n` of `shots` a sweep keeps, in order, when `gone[k]` says whether
/// the `k`th had left the screen: the live ones still on it.
pub open spec fn shots_kept(shots: Seq<Bullet>, gone: Seq<bool>, n: int) -> Seq<Bullet>
    decreases n,
{
    if n <= 0 {
        Seq::empty()
    } else {
        shots_kept(shots, gone, n - 1) + if shots[n - 1].living() && !gone[n - 1] {
            seq![shots[n - 1]]
        } else {
            Seq::empty()
        }
    }
}

/// Which of `shots` have left the screen in `world`: the `k`th when the rectangle its seat covers
/// there has no pixel on the screen.
pub open spec fn off_screen(shots: Seq<Bullet>, world: Sky) -> Seq<bool> {
    Seq::new(shots.len(), |k: int| !seat_bounds(world, shots[k].seat()).on_screen_spec())
}

/// The seats of the live shots among the first `n` of `shots` that have left the screen in
/// `world`: the seats a sweep gives back.
pub open spec fn swept_seats(shots: Seq<Bullet>, world: Sky, n: int) -> Set<MemberId> {
    Set::new(
        |id: MemberId|
            exists|k: int|
                0 <= k < n && #[trigger] shots[k].living() && shots[k].seat() == id
                    && !seat_bounds(world, id).on_screen_spec(),
    )
}

/// Which of `fleet` have escaped in `world`: the `k`th when it is alive and the rectangle its seat
/// covers there has left the play.
pub open spec fn escapes(fleet: Seq<EnemyAircraft>, world: Sky) -> Seq<bool> {
    Seq::new(fleet.len(), |k: int| fleet[k].living() && left_play(seat_bounds(world, fleet[k].seat())))
}

/// The seats of the aircraft among the first `n` of `fleet` that have escaped in `world`: the
/// seats the pass over the aircraft gives back.
pub open spec fn escaped_seats(fleet: Seq<EnemyAircraft>, world: Sky, n: int) -> Set<MemberId> {
    Set::new(
        |id: MemberId|
            exists|k: int|
                0 <= k < n && #[trigger] fleet[k].living() && fleet[k].seat() == id && left_play(
                    seat_bounds(world, id),
                ),
    )
}

/// The seats of the shots of `shots` from the `from`th on.
pub open spec fn shot_seats(shots: Seq<Bullet>, from: int) -> Set<MemberId> {
    Set::new(|id: MemberId| exists|k: int| #![trigger shots[k]] from <= k < shots.len() && shots[k].seat() == id)
}

/// How many of `outcomes` seated a shot.
pub open spec fn seated_count(outcomes: Seq<Seating>) -> int
    decreases outcomes.len(),
{
    if outcomes.len() == 0 {
        0
    } else {
        seated_count(outcomes.drop_last()) + if outcomes.last() == Seating::Seated {
            1int
        } else {
            0int
        }
    }
}

/// What the pass pays for one aircraft, in points: an aircraft our shot brought down is worth 10
/// as it is dropped, one that escaped alive is worth 20, and one rammed or still in play is worth
/// nothing. Only a live one still in play is kept.
pub proof fn lemma_what_an_aircraft_is_worth(craft: EnemyAircraft, out: bool)
    requires
        craft.shot_down() ==> !craft.living(),
    ensures
        !craft.living() && craft.shot_down() ==> craft_points(craft, out) == 10,
        craft.living() && out ==> craft_points(craft, out) == 20,
        craft.living() && !out ==> craft_points(craft, out) == 0,
        !craft.living() && !craft.shot_down() ==> craft_points(craft, out) == 0,
        craft_kept(craft, out) <==> craft.living() && !out,
{
}

/// No count of seated shots is below nothing.
proof fn lemma_seated_count_nonneg(outcomes: Seq<Seating>)
    ensures
        seated_count(outcomes) >= 0,
    decreases outcomes.len(),
{
    if outcomes.len() > 0 {
        lemma_seated_count_nonneg(outcomes.drop_last());
    }
}

/// Whether the pass over the aircraft keeps `craft`, `out` saying whether it has left the play:
/// only a live one still in it.
pub open spec fn craft_kept(craft: EnemyAircraft, out: bool) -> bool {
    craft.living() && !out
}

/// The points `craft` is worth as the pass over the aircraft leaves it, `out` saying whether it
/// has left the play: a shot-down one as it is dropped, a live one as it escapes.
pub open spec fn craft_points(craft: EnemyAircraft, out: bool) -> int {
    (if !craft_kept(craft, out) && craft.shot_down() {
        DESTROY_SCORE_BUMP as int
    } else {
        0
    }) + (if craft.living() && out {
        LET_GO_SCORE_BUMP as int
    } else {
        0
    })
}

/// The aircraft among the first `n` of `fleet` the pass keeps, in order, `out[k]` saying whether
/// the `k`th had left the play.
pub open spec fn fleet_kept(fleet: Seq<EnemyAircraft>, out: Seq<bool>, n: int) -> Seq<EnemyAircraft>
    decreases n,
{
    if n <= 0 {
        Seq::empty()
    } else {
        fleet_kept(fleet, out, n - 1) + if craft_kept(fleet[n - 1], out[n - 1]) {
            seq![fleet[n - 1]]
        } else {
            Seq::empty()
        }
    }
}

/// The points the first `n` of `fleet` are worth to the pass, `out[k]` saying whether the `k`th
/// had left the play.
pub open spec fn fleet_points(fleet: Seq<EnemyAircraft>, out: Seq<bool>, n: int) -> int
    decreases n,
{
    if n <= 0 {
        0
    } else {
        fleet_points(fleet, out, n - 1) + craft_points(fleet[n - 1], out[n - 1])
    }
}

/// The fight: one world, and everybody seated in it.
pub struct Cast {
    world: Sky,
    bullets: Bullets,
    lady: TheLady,
    aircraft: Squadron,
    score: u32,
    high_score: u32,
}

impl Cast {
    /// The members the world holds.
    pub closed spec fn seats(self) -> Set<MemberId> {
        cast_of(self.world)
    }

    /// Every shot on the list, in order, the dead ones not yet dropped among them.
    pub closed spec fn shots(self) -> Seq<Bullet> {
        bullets_in(self.bullets)
    }

    /// Every aircraft on the list, in order, the dead ones not yet dropped among them.
    pub closed spec fn fleet(self) -> Seq<EnemyAircraft> {
        aircraft_in(self.aircraft)
    }

    /// The lady.
    pub closed spec fn heroine(self) -> TheLady {
        self.lady
    }

    /// This run's score.
    pub closed spec fn points(self) -> u32 {
        self.score
    }

    /// The best score seen.
    pub closed spec fn best(self) -> u32 {
        self.high_score
    }

    /// The world everybody is seated in, as it stands.
    pub closed spec fn sky(self) -> Sky {
        self.world
    }

    /// The shots a sweep of this fight keeps, in order: the live ones still on the screen.
    pub open spec fn sweep_keeps(self) -> Seq<Bullet> {
        shots_kept(self.shots(), off_screen(self.shots(), self.sky()), self.shots().len() as int)
    }

    /// What the member `id` is travelling at, as the world keeps it.
    pub closed spec fn velocity_of(self, id: MemberId) -> Velocity {
        velocity_in(self.world, id)
    }

    /// Whether `id` is the seat of somebody alive: the lady, a shot or an aircraft.
    pub open spec fn owned(self, id: MemberId) -> bool {
        ||| self.heroine().living() && self.heroine().seat() == id
        ||| exists|i: int| 0 <= i < self.shots().len() && #[trigger] self.shots()[i].living()
            && self.shots()[i].seat() == id
        ||| exists|j: int| 0 <= j < self.fleet().len() && #[trigger] self.fleet()[j].living()
            && self.fleet()[j].seat() == id
    }

    /// Every live shot holds a seat, and no two hold the same one.
    pub open spec fn shots_seated(self) -> bool {
        &&& forall|i: int|
            0 <= i < self.shots().len() && #[trigger] self.shots()[i].living() ==> self.seats().contains(
                self.shots()[i].seat(),
            )
        &&& forall|i: int, k: int|
            0 <= i < self.shots().len() && 0 <= k < self.shots().len() && i != k
                && #[trigger] self.shots()[i].living() && #[trigger] self.shots()[k].living()
                ==> self.shots()[i].seat() != self.shots()[k].seat()
    }

    /// Every live aircraft holds a seat, no two hold the same one, and only a dead one can have
    /// been shot down.
    pub open spec fn fleet_seated(self) -> bool {
        &&& forall|j: int|
            0 <= j < self.fleet().len() && #[trigger] self.fleet()[j].living() ==> self.seats().contains(
                self.fleet()[j].seat(),
            )
        &&& forall|j: int, k: int|
            0 <= j < self.fleet().len() && 0 <= k < self.fleet().len() && j != k
                && #[trigger] self.fleet()[j].living() && #[trigger] self.fleet()[k].living()
                ==> self.fleet()[j].seat() != self.fleet()[k].seat()
        &&& forall|j: int|
            0 <= j < self.fleet().len() && #[trigger] self.fleet()[j].shot_down()
                ==> !self.fleet()[j].living()
    }

    /// No live shot shares a seat with a live aircraft, and neither shares one with the lady while
    /// she is alive and seated.
    pub open spec fn seats_apart(self) -> bool {
        &&& forall|i: int, j: int|
            0 <= i < self.shots().len() && 0 <= j < self.fleet().len()
                && #[trigger] self.shots()[i].living() && #[trigger] self.fleet()[j].living()
                ==> self.shots()[i].seat() != self.fleet()[j].seat()
        &&& forall|i: int|
            0 <= i < self.shots().len() && #[trigger] self.shots()[i].living()
                && self.heroine().living() && self.seats().contains(self.heroine().seat())
                ==> self.shots()[i].seat() != self.heroine().seat()
        &&& forall|j: int|
            0 <= j < self.fleet().len() && #[trigger] self.fleet()[j].living()
                && self.heroine().living() && self.seats().contains(self.heroine().seat())
                ==> self.fleet()[j].seat() != self.heroine().seat()
    }

    /// The books balance: the world is one this game can build, every seat it holds is somebody
    /// alive's, everybody alive on a list holds a seat of their own, the lady holds one while she
    /// is alive (bar before she is first seated, when she holds the id to nobody), and the lists
    /// are within their capacities. Once she is dead she keeps the id to the seat she gave back,
    /// which is nobody's business.
    pub open spec fn wf(self) -> bool {
        &&& self.seats().finite()
        &&& self.seats().len() <= MAX_CAST
        &&& forall|id: MemberId| #[trigger] self.seats().contains(id) ==> self.owned(id)
        &&& self.shots_seated()
        &&& self.fleet_seated()
        &&& self.seats_apart()
        &&& self.heroine().living() ==> self.seats().contains(self.heroine().seat()) || unseatable(
            self.heroine().seat(),
        )
        &&& self.shots().len() <= MAX_BULLETS
        &&& self.fleet().len() <= MAX_ENEMY_AIRCRAFTS
    }

    /// Whoever holds no seat, holds it no differently: two fights with the same seats, the same
    /// lists and the same lady are balanced alike.
    proof fn lemma_wf_kept(a: Self, b: Self)
        requires
            a.wf(),
            b.seats() == a.seats(),
            b.shots() == a.shots(),
            b.fleet() == a.fleet(),
            b.heroine() == a.heroine(),
        ensures
            b.wf(),
    {
        assert forall|id: MemberId| #[trigger] b.seats().contains(id) implies b.owned(id) by {
            assert(a.owned(id));
        }
    }

    /// The fight as the cart ships: an empty world whose map is scenery, no shots, no aircraft,
    /// the lady waiting for a seat, no score and no best score read yet.
    pub fn new() -> (c: Self)
        ensures
            c.wf(),
            c.seats() == Set::<MemberId>::empty(),
            c.shots() == Seq::<Bullet>::empty(),
            c.fleet() == Seq::<EnemyAircraft>::empty(),
            c.heroine().living(),
            c.heroine().spot() == (0i16, 0i16),
            !c.seats().contains(c.heroine().seat()),
            c.points() == 0,
            c.best() == 0,
    {
        Cast {
            world: mapless_sky(),
            bullets: Bullets::new(),
            lady: TheLady::waiting(),
            aircraft: Squadron::new(),
            score: 0,
            high_score: 0,
        }
    }

    /// The best score as the store gives it (none is nothing), and the lady's first seat, as
    /// `lady` describes it. What every restart after this one does again, bar the score.
    pub fn boot(&mut self, stored_high_score: Option<i64>, lady: MemberBuilder)
        requires
            old(self).wf(),
            !old(self).seats().contains(old(self).heroine().seat()),
            old(self).seats().len() < MAX_CAST,
        ensures
            final(self).wf(),
            final(self).best() == (match stored_high_score {
                Some(v) => #[verifier::truncate] (v as u32),
                None => 0u32,
            }),
            final(self).heroine().living(),
            !old(self).seats().contains(final(self).heroine().seat()),
            final(self).seats() == old(self).seats().insert(final(self).heroine().seat()),
            final(self).shots() == old(self).shots(),
            final(self).fleet() == old(self).fleet(),
            final(self).points() == old(self).points(),
    {
        self.high_score = match stored_high_score {
            Some(v) => #[verifier::truncate] (v as u32),
            None => 0,
        };
        let lady = TheLady::new(lady, &mut self.world);
        self.lady = lady;
        assert forall|id: MemberId| #[trigger] self.seats().contains(id) implies self.owned(id) by {
            if id != self.lady.seat() {
                assert(old(self).seats().contains(id));
                assert(old(self).owned(id));
                assert(self.shots() == old(self).shots());
                assert(self.fleet() == old(self).fleet());
                if exists|i: int| 0 <= i < old(self).shots().len() && #[trigger] old(self).shots()[i].living()
                    && old(self).shots()[i].seat() == id {
                    let i = choose|i: int| 0 <= i < old(self).shots().len() && #[trigger] old(self).shots()[i].living()
                        && old(self).shots()[i].seat() == id;
                    assert(self.shots()[i].living());
                } else if exists|j: int| 0 <= j < old(self).fleet().len() && #[trigger] old(self).fleet()[j].living()
                    && old(self).fleet()[j].seat() == id {
                    let j = choose|j: int| 0 <= j < old(self).fleet().len() && #[trigger] old(self).fleet()[j].living()
                        && old(self).fleet()[j].seat() == id;
                    assert(self.fleet()[j].living());
                }
            }
        }
    }

    /// Puts a shot fired by `side` into the sky as `description` says, and on the list. A shot the
    /// world has no seat for is not fired; one the world seats while the list is full gives its
    /// seat straight back, so a refused shot never keeps one.
    pub fn seat_shot(&mut self, side: Type, description: MemberBuilder) -> (outcome: Seating)
        requires
            old(self).wf(),
            side == Type::FriendlyBullet || side == Type::EnemyBullet,
        ensures
            final(self).wf(),
            outcome != Seating::Held,
            outcome == Seating::NoSeat <==> old(self).seats().len() == MAX_CAST,
            outcome == Seating::NoRoom <==> old(self).seats().len() < MAX_CAST
                && old(self).shots().len() == MAX_BULLETS,
            old(self).shots().len() < MAX_BULLETS ==> outcome == Seating::Seated,
            outcome != Seating::Seated ==> final(self).seats() == old(self).seats()
                && final(self).shots() == old(self).shots(),
            outcome == Seating::Seated ==> {
                let shot = final(self).shots().last();
                &&& final(self).shots() == old(self).shots().push(shot)
                &&& shot.living()
                &&& shot.kind() == side
                &&& !old(self).seats().contains(shot.seat())
                &&& final(self).seats() == old(self).seats().insert(shot.seat())
            },
            outcome == Seating::NoSeat ==> final(self).sky() == old(self).sky(),
            forall|id: MemberId|
                #![trigger touched_in(final(self).sky(), id)]
                #![trigger pos_in(final(self).sky(), id)]
                #![trigger bounds_in(final(self).sky(), id)]
                #![trigger velocity_in(final(self).sky(), id)]
                old(self).seats().contains(id) ==> reads_alike(old(self).sky(), final(self).sky(), id),
            final(self).fleet() == old(self).fleet(),
            final(self).heroine() == old(self).heroine(),
            final(self).points() == old(self).points(),
            final(self).best() == old(self).best(),
    {
        proof {
            self.lemma_seats_within_lists();
        }
        let shot = if side.is_enemy() {
            Bullet::new_enemy(description, &mut self.world)
        } else {
            Bullet::new_friendly(description, &mut self.world)
        };
        match shot {
            None => {
                proof {
                    Self::lemma_wf_kept(*old(self), *self);
                }
                Seating::NoSeat
            },
            Some(shot) => {
                match self.bullets.push(shot) {
                    Ok(()) => {
                        proof {
                            self.lemma_pushed_shot(*old(self), shot);
                        }
                        Seating::Seated
                    },
                    Err(shot) => {
                        retire(&mut self.world, shot.member());
                        assert(self.seats() =~= old(self).seats());
                        proof {
                            Self::lemma_wf_kept(*old(self), *self);
                        }
                        Seating::NoRoom
                    },
                }
            },
        }
    }

    /// A live shot seated fresh and appended keeps the books balanced.
    proof fn lemma_pushed_shot(self, before: Self, shot: Bullet)
        requires
            before.wf(),
            shot.living(),
            !before.seats().contains(shot.seat()),
            self.seats() == before.seats().insert(shot.seat()),
            self.shots() == before.shots().push(shot),
            self.shots().len() <= MAX_BULLETS,
            self.seats().len() <= MAX_CAST,
            self.fleet() == before.fleet(),
            self.heroine() == before.heroine(),
        ensures
            self.wf(),
    {
        let n = before.shots().len();
        assert(self.shots()[n as int] == shot);
        assert forall|i: int| 0 <= i < n implies #[trigger] self.shots()[i] == before.shots()[i] by {}
        assert forall|id: MemberId| #[trigger] self.seats().contains(id) implies self.owned(id) by {
            if id == shot.seat() {
                assert(self.shots()[n as int].living());
            } else {
                assert(before.owned(id));
                if exists|i: int| 0 <= i < before.shots().len() && #[trigger] before.shots()[i].living()
                    && before.shots()[i].seat() == id {
                    let i = choose|i: int| 0 <= i < before.shots().len() && #[trigger] before.shots()[i].living()
                        && before.shots()[i].seat() == id;
                    assert(self.shots()[i].living());
                } else if exists|j: int| 0 <= j < before.fleet().len() && #[trigger] before.fleet()[j].living()
                    && before.fleet()[j].seat() == id {
                    let j = choose|j: int| 0 <= j < before.fleet().len() && #[trigger] before.fleet()[j].living()
                        && before.fleet()[j].seat() == id;
                    assert(self.fleet()[j].living());
                }
            }
        }
        assert(self.shots_seated());
        assert(self.fleet_seated());
        assert(self.seats_apart());
    }

    /// Puts a new enemy aircraft into the sky as `description` says, and on the list. One the
    /// world has no seat for never flies; one the world seats while the list is full gives its
    /// seat straight back, so a refused aircraft never keeps one.
    pub fn spawn_aircraft(&mut self, description: MemberBuilder) -> (outcome: Seating)
        requires
            old(self).wf(),
        ensures
            final(self).wf(),
            outcome != Seating::Held,
            outcome == Seating::NoSeat <==> old(self).seats().len() == MAX_CAST,
            outcome == Seating::NoRoom <==> old(self).seats().len() < MAX_CAST
                && old(self).fleet().len() == MAX_ENEMY_AIRCRAFTS,
            old(self).fleet().len() < MAX_ENEMY_AIRCRAFTS ==> outcome == Seating::Seated,
            outcome != Seating::Seated ==> final(self).seats() == old(self).seats()
                && final(self).fleet() == old(self).fleet(),
            outcome == Seating::Seated ==> {
                let craft = final(self).fleet().last();
                &&& final(self).fleet() == old(self).fleet().push(craft)
                &&& craft.living()
                &&& !craft.shot_down()
                &&& !old(self).seats().contains(craft.seat())
                &&& final(self).seats() == old(self).seats().insert(craft.seat())
            },
            outcome == Seating::NoSeat ==> final(self).sky() == old(self).sky(),
            forall|id: MemberId|
                #![trigger touched_in(final(self).sky(), id)]
                #![trigger pos_in(final(self).sky(), id)]
                #![trigger bounds_in(final(self).sky(), id)]
                #![trigger velocity_in(final(self).sky(), id)]
                old(self).seats().contains(id) ==> reads_alike(old(self).sky(), final(self).sky(), id),
            final(self).shots() == old(self).shots(),
            final(self).heroine() == old(self).heroine(),
            final(self).points() == old(self).points(),
            final(self).best() == old(self).best(),
    {
        proof {
            self.lemma_seats_within_lists();
        }
        match EnemyAircraft::new(description, &mut self.world) {
            None => {
                proof {
                    Self::lemma_wf_kept(*old(self), *self);
                }
                Seating::NoSeat
            },
            Some(craft) => {
                match self.aircraft.push(craft) {
                    Ok(()) => {
                        proof {
                            self.lemma_pushed_craft(*old(self), craft);
                        }
                        Seating::Seated
                    },
                    Err(craft) => {
                        retire(&mut self.world, craft.member());
                        assert(self.seats() =~= old(self).seats());
                        proof {
                            Self::lemma_wf_kept(*old(self), *self);
                        }
                        Seating::NoRoom
                    },
                }
            },
        }
    }

    /// A live aircraft seated fresh and appended keeps the books balanced.
    proof fn lemma_pushed_craft(self, before: Self, craft: EnemyAircraft)
        requires
            before.wf(),
            craft.living(),
            !craft.shot_down(),
            !before.seats().contains(craft.seat()),
            self.seats() == before.seats().insert(craft.seat()),
            self.fleet() == before.fleet().push(craft),
            self.fleet().len() <= MAX_ENEMY_AIRCRAFTS,
            self.seats().len() <= MAX_CAST,
            self.shots() == before.shots(),
            self.heroine() == before.heroine(),
        ensures
            self.wf(),
    {
        let n = before.fleet().len();
        assert(self.fleet()[n as int] == craft);
        assert forall|j: int| 0 <= j < n implies #[trigger] self.fleet()[j] == before.fleet()[j] by {}
        assert forall|id: MemberId| #[trigger] self.seats().contains(id) implies self.owned(id) by {
            if id == craft.seat() {
                assert(self.fleet()[n as int].living());
            } else {
                assert(before.owned(id));
                if exists|i: int| 0 <= i < before.shots().len() && #[trigger] before.shots()[i].living()
                    && before.shots()[i].seat() == id {
                    let i = choose|i: int| 0 <= i < before.shots().len() && #[trigger] before.shots()[i].living()
                        && before.shots()[i].seat() == id;
                    assert(self.shots()[i].living());
                } else if exists|j: int| 0 <= j < before.fleet().len() && #[trigger] before.fleet()[j].living()
                    && before.fleet()[j].seat() == id {
                    let j = choose|j: int| 0 <= j < before.fleet().len() && #[trigger] before.fleet()[j].living()
                        && before.fleet()[j].seat() == id;
                    assert(self.fleet()[j].living());
                }
            }
        }
        assert(self.shots_seated());
        assert(self.fleet_seated());
        assert(self.seats_apart());
    }

    /// Whether `id` is the seat of the live lady, of a live shot from the `i`th on, or of a live
    /// aircraft from the `j`th on.
    pub open spec fn held_beyond(self, i: int, j: int, id: MemberId) -> bool {
        ||| self.heroine().living() && self.heroine().seat() == id
        ||| exists|k: int| i <= k < self.shots().len() && #[trigger] self.shots()[k].living()
            && self.shots()[k].seat() == id
        ||| exists|k: int| j <= k < self.fleet().len() && #[trigger] self.fleet()[k].living()
            && self.fleet()[k].seat() == id
    }

    /// A new run: everything the last one seated gives its seat back — the shots and aircraft
    /// still flying, and the lady if she is still seated — the lists are emptied, the lady is
    /// seated afresh as `lady` describes her, and the score starts again from nothing. So a restart
    /// never grows the cast: afterwards the world holds the lady and nobody else.
    pub fn restart(&mut self, lady: MemberBuilder)
        requires
            old(self).wf(),
        ensures
            final(self).wf(),
            final(self).seats() == Set::<MemberId>::empty().insert(final(self).heroine().seat()),
            final(self).heroine().living(),
            final(self).shots() == Seq::<Bullet>::empty(),
            final(self).fleet() == Seq::<EnemyAircraft>::empty(),
            final(self).points() == 0,
            final(self).best() == old(self).best(),
    {
        let ghost before = *self;
        assert forall|id: MemberId| #[trigger] self.seats().contains(id) implies self.held_beyond(
            0,
            0,
            id,
        ) by {
            assert(self.owned(id));
        }
        let n = self.bullets.len();
        let mut i: usize = 0;
        while i < n
            invariant
                before.wf(),
                n == self.shots().len(),
                0 <= i <= n,
                self.shots() == before.shots(),
                self.fleet() == before.fleet(),
                self.heroine() == before.heroine(),
                self.points() == before.points(),
                self.best() == before.best(),
                self.seats().finite(),
                self.seats().len() <= MAX_CAST,
                self.seats().subset_of(before.seats()),
                forall|id: MemberId| #[trigger]
                    self.seats().contains(id) ==> self.held_beyond(i as int, 0, id),
                forall|k: int|
                    i <= k < n && #[trigger] self.shots()[k].living() ==> self.seats().contains(
                        self.shots()[k].seat(),
                    ),
                forall|j: int|
                    0 <= j < self.fleet().len() && #[trigger] self.fleet()[j].living()
                        ==> self.seats().contains(self.fleet()[j].seat()),
                self.heroine().living() && before.seats().contains(self.heroine().seat())
                    ==> self.seats().contains(self.heroine().seat()),
            decreases n - i,
        {
            let shot = self.bullets.get(i);
            if shot.alive() {
                let ghost gone = shot.seat();
                retire(&mut self.world, shot.member());
                assert forall|id: MemberId| #[trigger]
                    self.seats().contains(id) implies self.held_beyond(i + 1, 0, id) by {
                    assert(id != gone);
                    if exists|k: int| i <= k < self.shots().len() && #[trigger] self.shots()[k].living()
                        && self.shots()[k].seat() == id {
                        let k = choose|k: int| i <= k < self.shots().len() && #[trigger] self.shots()[k].living()
                            && self.shots()[k].seat() == id;
                        assert(k != i);
                    }
                }
            } else {
                assert forall|id: MemberId| #[trigger]
                    self.seats().contains(id) implies self.held_beyond(i + 1, 0, id) by {
                    if exists|k: int| i <= k < self.shots().len() && #[trigger] self.shots()[k].living()
                        && self.shots()[k].seat() == id {
                        let k = choose|k: int| i <= k < self.shots().len() && #[trigger] self.shots()[k].living()
                            && self.shots()[k].seat() == id;
                        assert(k != i);
                    }
                }
            }
            i = i + 1;
        }
        let m = self.aircraft.len();
        let mut j: usize = 0;
        while j < m
            invariant
                before.wf(),
                m == self.fleet().len(),
                0 <= j <= m,
                self.shots() == before.shots(),
                self.fleet() == before.fleet(),
                self.heroine() == before.heroine(),
                self.points() == before.points(),
                self.best() == before.best(),
                self.seats().finite(),
                self.seats().len() <= MAX_CAST,
                self.seats().subset_of(before.seats()),
                forall|id: MemberId| #[trigger]
                    self.seats().contains(id) ==> self.held_beyond(self.shots().len() as int, j as int, id),
                forall|k: int|
                    j <= k < m && #[trigger] self.fleet()[k].living() ==> self.seats().contains(
                        self.fleet()[k].seat(),
                    ),
                self.heroine().living() && before.seats().contains(self.heroine().seat())
                    ==> self.seats().contains(self.heroine().seat()),
            decreases m - j,
        {
            let craft = self.aircraft.get(j);
            if craft.alive() {
                let ghost gone = craft.seat();
                retire(&mut self.world, craft.member());
                assert forall|id: MemberId| #[trigger]
                    self.seats().contains(id) implies self.held_beyond(self.shots().len() as int, j + 1, id) by {
                    assert(id != gone);
                    if exists|k: int| j <= k < self.fleet().len() && #[trigger] self.fleet()[k].living()
                        && self.fleet()[k].seat() == id {
                        let k = choose|k: int| j <= k < self.fleet().len() && #[trigger] self.fleet()[k].living()
                            && self.fleet()[k].seat() == id;
                        assert(k != j);
                    }
                }
            } else {
                assert forall|id: MemberId| #[trigger]
                    self.seats().contains(id) implies self.held_beyond(self.shots().len() as int, j + 1, id) by {
                    if exists|k: int| j <= k < self.fleet().len() && #[trigger] self.fleet()[k].living()
                        && self.fleet()[k].seat() == id {
                        let k = choose|k: int| j <= k < self.fleet().len() && #[trigger] self.fleet()[k].living()
                            && self.fleet()[k].seat() == id;
                        assert(k != j);
                    }
                }
            }
            j = j + 1;
        }
        if seated(&self.world, self.lady.member()) {
            retire(&mut self.world, self.lady.member());
        }
        assert forall|id: MemberId| !#[trigger] self.seats().contains(id) by {
            if self.seats().contains(id) {
                assert(self.held_beyond(self.shots().len() as int, self.fleet().len() as int, id));
            }
        }
        assert(self.seats() =~= Set::<MemberId>::empty());
        self.bullets.clear();
        self.aircraft.clear();
        self.lady = TheLady::new(lady, &mut self.world);
        self.score = 0;
        assert(self.seats() =~= Set::<MemberId>::empty().insert(self.heroine().seat()));
        assert forall|id: MemberId| #[trigger] self.seats().contains(id) implies self.owned(id) by {}
    }

    /// A live shot dying, its seat given back, keeps the books balanced.
    proof fn lemma_shot_fell(self, before: Self, i: int)
        requires
            before.wf(),
            0 <= i < before.shots().len(),
            before.shots()[i].living(),
            self.shots().len() == before.shots().len(),
            !self.shots()[i].living(),
            self.shots()[i].seat() == before.shots()[i].seat(),
            forall|k: int| 0 <= k < self.shots().len() && k != i ==> #[trigger] self.shots()[k] == before.shots()[k],
            self.seats() == before.seats().remove(before.shots()[i].seat()),
            self.fleet() == before.fleet(),
            self.heroine() == before.heroine(),
        ensures
            self.wf(),
    {
        let gone = before.shots()[i].seat();
        assert forall|id: MemberId| #[trigger] self.seats().contains(id) implies self.owned(id) by {
            assert(before.owned(id));
            if exists|k: int| 0 <= k < before.shots().len() && #[trigger] before.shots()[k].living()
                && before.shots()[k].seat() == id {
                let k = choose|k: int| 0 <= k < before.shots().len() && #[trigger] before.shots()[k].living()
                    && before.shots()[k].seat() == id;
                assert(k != i);
                assert(self.shots()[k].living());
            } else if exists|j: int| 0 <= j < before.fleet().len() && #[trigger] before.fleet()[j].living()
                && before.fleet()[j].seat() == id {
                let j = choose|j: int| 0 <= j < before.fleet().len() && #[trigger] before.fleet()[j].living()
                    && before.fleet()[j].seat() == id;
                assert(self.fleet()[j].living());
            }
        }
        assert forall|k: int| 0 <= k < self.shots().len() && #[trigger] self.shots()[k].living()
            implies self.seats().contains(self.shots()[k].seat()) by {
            assert(self.shots()[k] == before.shots()[k]);
            assert(before.shots()[k].seat() != gone);
        }
        assert forall|j: int| 0 <= j < self.fleet().len() && #[trigger] self.fleet()[j].living()
            implies self.seats().contains(self.fleet()[j].seat()) by {
            assert(before.fleet()[j].seat() != gone);
        }
        assert(self.shots_seated());
        assert(self.fleet_seated());
        assert(self.seats_apart());
    }

    /// A live aircraft dying, its seat given back, keeps the books balanced.
    proof fn lemma_craft_fell(self, before: Self, j: int)
        requires
            before.wf(),
            0 <= j < before.fleet().len(),
            before.fleet()[j].living(),
            self.fleet().len() == before.fleet().len(),
            !self.fleet()[j].living(),
            self.fleet()[j].seat() == before.fleet()[j].seat(),
            forall|k: int| 0 <= k < self.fleet().len() && k != j ==> #[trigger] self.fleet()[k] == before.fleet()[k],
            self.seats() == before.seats().remove(before.fleet()[j].seat()),
            self.shots() == before.shots(),
            self.heroine() == before.heroine(),
        ensures
            self.wf(),
    {
        let gone = before.fleet()[j].seat();
        assert forall|id: MemberId| #[trigger] self.seats().contains(id) implies self.owned(id) by {
            assert(before.owned(id));
            if exists|i: int| 0 <= i < before.shots().len() && #[trigger] before.shots()[i].living()
                && before.shots()[i].seat() == id {
                let i = choose|i: int| 0 <= i < before.shots().len() && #[trigger] before.shots()[i].living()
                    && before.shots()[i].seat() == id;
                assert(self.shots()[i].living());
            } else if exists|k: int| 0 <= k < before.fleet().len() && #[trigger] before.fleet()[k].living()
                && before.fleet()[k].seat() == id {
                let k = choose|k: int| 0 <= k < before.fleet().len() && #[trigger] before.fleet()[k].living()
                    && before.fleet()[k].seat() == id;
                assert(k != j);
                assert(self.fleet()[k].living());
            }
        }
        assert forall|k: int| 0 <= k < self.fleet().len() && #[trigger] self.fleet()[k].living()
            implies self.seats().contains(self.fleet()[k].seat()) by {
            assert(self.fleet()[k] == before.fleet()[k]);
            assert(before.fleet()[k].seat() != gone);
        }
        assert forall|i: int| 0 <= i < self.shots().len() && #[trigger] self.shots()[i].living()
            implies self.seats().contains(self.shots()[i].seat()) by {
            assert(before.shots()[i].seat() != gone);
        }
        assert forall|k: int| 0 <= k < self.fleet().len() && #[trigger] self.fleet()[k].shot_down()
            implies !self.fleet()[k].living() by {
            if k != j {
                assert(self.fleet()[k] == before.fleet()[k]);
            }
        }
        assert(self.shots_seated());
        assert(self.fleet_seated());
        assert(self.seats_apart());
    }

    /// The lady dying, her seat given back and her id let go, keeps the books balanced.
    proof fn lemma_lady_fell(self, before: Self)
        requires
            before.wf(),
            before.heroine().living(),
            before.seats().contains(before.heroine().seat()),
            !self.heroine().living(),
            self.heroine().seat() == before.heroine().seat(),
            self.seats() == before.seats().remove(before.heroine().seat()),
            self.shots() == before.shots(),
            self.fleet() == before.fleet(),
        ensures
            self.wf(),
    {
        let gone = before.heroine().seat();
        assert(!self.seats().contains(self.heroine().seat()));
        assert forall|id: MemberId| #[trigger] self.seats().contains(id) implies self.owned(id) by {
            assert(before.owned(id));
            if exists|i: int| 0 <= i < before.shots().len() && #[trigger] before.shots()[i].living()
                && before.shots()[i].seat() == id {
                let i = choose|i: int| 0 <= i < before.shots().len() && #[trigger] before.shots()[i].living()
                    && before.shots()[i].seat() == id;
                assert(self.shots()[i].living());
            } else if exists|k: int| 0 <= k < before.fleet().len() && #[trigger] before.fleet()[k].living()
                && before.fleet()[k].seat() == id {
                let k = choose|k: int| 0 <= k < before.fleet().len() && #[trigger] before.fleet()[k].living()
                    && before.fleet()[k].seat() == id;
                assert(self.fleet()[k].living());
            }
        }
        assert forall|k: int| 0 <= k < self.fleet().len() && #[trigger] self.fleet()[k].living()
            implies self.seats().contains(self.fleet()[k].seat()) by {
            assert(before.fleet()[k].seat() != gone);
        }
        assert forall|i: int| 0 <= i < self.shots().len() && #[trigger] self.shots()[i].living()
            implies self.seats().contains(self.shots()[i].seat()) by {
            assert(before.shots()[i].seat() != gone);
        }
        assert(self.shots_seated());
        assert(self.fleet_seated());
        assert(self.seats_apart());
    }

    /// What everybody makes of the step just taken, read from their own contacts: the lady first,
    /// then every aircraft, then every shot, in list order. Whoever it kills gives its seat back on
    /// the spot; the dead stay on the lists, to be dropped later. Hands back a wreck for every
    /// death, in that order.
    pub fn react(&mut self) -> (wrecks: Vec<Wreck>)
        requires
            old(self).wf(),
        ensures
            final(self).wf(),
            final(self).seats().subset_of(old(self).seats()),
            final(self).shots().len() == old(self).shots().len(),
            final(self).fleet().len() == old(self).fleet().len(),
            forall|i: int| #![trigger final(self).shots()[i]] 0 <= i < final(self).shots().len() ==> {
                &&& final(self).shots()[i].seat() == old(self).shots()[i].seat()
                &&& final(self).shots()[i].kind() == old(self).shots()[i].kind()
                &&& final(self).shots()[i].living() ==> final(self).shots()[i] == old(self).shots()[i]
                &&& final(self).shots()[i].living() == (old(self).shots()[i].living()
                    && !old(self).shots()[i].spent_in(old(self).sky()))
            },
            forall|j: int| #![trigger final(self).fleet()[j]] 0 <= j < final(self).fleet().len() ==> {
                &&& final(self).fleet()[j].seat() == old(self).fleet()[j].seat()
                &&& final(self).fleet()[j].living() ==> final(self).fleet()[j] == old(self).fleet()[j]
                &&& final(self).fleet()[j].living() == (old(self).fleet()[j].living()
                    && old(self).fleet()[j].fate_in(old(self).sky()) == Fate::Unhurt)
                &&& final(self).fleet()[j].shot_down() == (old(self).fleet()[j].shot_down() || (old(self).fleet()[j].living() && old(self).fleet()[j].fate_in(old(self).sky()) == Fate::ShotDown))
            },
            final(self).heroine().living() ==> final(self).heroine() == old(self).heroine(),
            final(self).heroine().living() == (old(self).heroine().living() && !old(self).heroine().hit_in(
                old(self).sky(),
            )),
            final(self).points() == old(self).points(),
            final(self).best() == old(self).best(),
            wrecks@ == (if old(self).heroine().living() && !final(self).heroine().living() {
                seq![wreck_at(Type::Protoganist, old(self).sky(), old(self).heroine().seat())]
            } else {
                Seq::empty()
            }) + fallen_aircraft(old(self).fleet(), final(self).fleet(), old(self).sky(), old(self).fleet().len() as int)
                + fallen_shots(old(self).shots(), final(self).shots(), old(self).sky(), old(self).shots().len() as int),
    {
        let ghost before = *self;
        let mut wrecks: Vec<Wreck> = Vec::new();
        let mut lady = self.lady;
        let fell = lady.react(&mut self.world);
        self.lady = lady;
        match fell {
            Some(pos) => {
                proof {
                    self.lemma_lady_fell(before);
                }
                wrecks.push(Wreck { kind: Type::Protoganist, pos: Position::from(pos) });
            },
            None => {
                proof {
                    Self::lemma_wf_kept(before, *self);
                }
            },
        }
        assert(self.heroine().living() == (before.heroine().living() && !before.heroine().hit_in(
            before.sky(),
        )));
        let ghost after_lady = *self;
        let ghost lady_wrecks = wrecks@;
        assert(lady_wrecks == (if before.heroine().living() && !self.heroine().living() {
            seq![wreck_at(Type::Protoganist, before.sky(), before.heroine().seat())]
        } else {
            Seq::<Wreck>::empty()
        }));
        let m = self.aircraft.len();
        let mut j: usize = 0;
        while j < m
            invariant
                self.wf(),
                m == self.fleet().len(),
                m == before.fleet().len(),
                0 <= j <= m,
                self.shots() == before.shots(),
                self.heroine() == after_lady.heroine(),
                self.points() == before.points(),
                self.best() == before.best(),
                self.seats().subset_of(before.seats()),
                forall|k: int| j <= k < m ==> #[trigger] self.fleet()[k] == before.fleet()[k],
                forall|k: int| #![trigger self.fleet()[k]] 0 <= k < j ==> {
                    &&& self.fleet()[k].seat() == before.fleet()[k].seat()
                    &&& self.fleet()[k].living() ==> self.fleet()[k] == before.fleet()[k]
                    &&& self.fleet()[k].living() == (before.fleet()[k].living()
                        && before.fleet()[k].fate_in(before.sky()) == Fate::Unhurt)
                    &&& self.fleet()[k].shot_down() == (before.fleet()[k].shot_down() || (
                    before.fleet()[k].living() && before.fleet()[k].fate_in(before.sky())
                        == Fate::ShotDown))
                },
                forall|id: MemberId| #[trigger] self.seats().contains(id) ==> touched_in(self.sky(), id)
                    == touched_in(before.sky(), id) && pos_in(self.sky(), id) == pos_in(before.sky(), id),
                self.heroine().living() == (before.heroine().living() && !before.heroine().hit_in(
                    before.sky(),
                )),
                wrecks@ == lady_wrecks + fallen_aircraft(before.fleet(), self.fleet(), before.sky(), j as int),
            decreases m - j,
        {
            let ghost prev = *self;
            let ghost kinds = wrecks@;
            let mut craft = self.aircraft.get(j);
            let ghost was = craft;
            proof {
                if was.living() {
                    assert(self.fleet()[j as int].living());
                    assert(self.seats().contains(was.seat()));
                }
            }
            let fell = craft.react(&mut self.world);
            assert(craft.seat() == was.seat() && (craft.living() ==> craft == was));
            assert(craft.living() == (was.living() && was.fate_in(before.sky()) == Fate::Unhurt));
            assert(craft.shot_down() == (was.shot_down() || (was.living() && was.fate_in(before.sky())
                == Fate::ShotDown)));
            self.aircraft.set(j, craft);
            assert(self.fleet() == prev.fleet().update(j as int, craft));
            assert(prev.fleet()[j as int] == before.fleet()[j as int]);
            proof {
                Self::lemma_fallen_aircraft_prefix(before.fleet(), prev.fleet(), self.fleet(), before.sky(), j as int, j as int);
            }
            match fell {
                Some(pos) => {
                    proof {
                        self.lemma_craft_fell(prev, j as int);
                    }
                    wrecks.push(Wreck { kind: Type::Enemy, pos: Position::from(pos) });
                    assert(wrecks@ =~= kinds.push(wreck_at(Type::Enemy, before.sky(), was.seat())));
                },
                None => {
                    assert(self.fleet() =~= prev.fleet());
                    proof {
                        Self::lemma_wf_kept(prev, *self);
                    }
                    assert(wrecks@ =~= kinds);
                },
            }
            assert(fallen_aircraft(before.fleet(), self.fleet(), before.sky(), j + 1) =~= fallen_aircraft(
                before.fleet(),
                self.fleet(),
                before.sky(),
                j as int,
            ) + if before.fleet()[j as int].living() && !self.fleet()[j as int].living() {
                seq![wreck_at(Type::Enemy, before.sky(), before.fleet()[j as int].seat())]
            } else {
                Seq::<Wreck>::empty()
            });
            proof {
                Self::lemma_fleet_reacted(before.fleet(), prev.fleet(), self.fleet(), j as int, before.sky());
            }
            j = j + 1;
        }
        let ghost after_fleet = *self;
        let n = self.bullets.len();
        let mut i: usize = 0;
        while i < n
            invariant
                self.wf(),
                n == self.shots().len(),
                n == before.shots().len(),
                0 <= i <= n,
                self.fleet() == after_fleet.fleet(),
                self.heroine() == after_lady.heroine(),
                self.points() == before.points(),
                self.best() == before.best(),
                self.seats().subset_of(before.seats()),
                forall|k: int| i <= k < n ==> #[trigger] self.shots()[k] == before.shots()[k],
                forall|k: int| #![trigger self.shots()[k]] 0 <= k < i ==> {
                    &&& self.shots()[k].seat() == before.shots()[k].seat()
                    &&& self.shots()[k].kind() == before.shots()[k].kind()
                    &&& self.shots()[k].living() ==> self.shots()[k] == before.shots()[k]
                    &&& self.shots()[k].living() == (before.shots()[k].living()
                        && !before.shots()[k].spent_in(before.sky()))
                },
                forall|id: MemberId| #[trigger] self.seats().contains(id) ==> touched_in(self.sky(), id)
                    == touched_in(before.sky(), id) && pos_in(self.sky(), id) == pos_in(before.sky(), id),
                forall|k: int| #![trigger after_fleet.fleet()[k]] 0 <= k < m ==> {
                    &&& after_fleet.fleet()[k].seat() == before.fleet()[k].seat()
                    &&& after_fleet.fleet()[k].living() ==> after_fleet.fleet()[k] == before.fleet()[k]
                    &&& after_fleet.fleet()[k].living() == (before.fleet()[k].living()
                        && before.fleet()[k].fate_in(before.sky()) == Fate::Unhurt)
                    &&& after_fleet.fleet()[k].shot_down() == (before.fleet()[k].shot_down() || (
                    before.fleet()[k].living() && before.fleet()[k].fate_in(before.sky())
                        == Fate::ShotDown))
                },
                m == before.fleet().len(),
                self.heroine().living() == (before.heroine().living() && !before.heroine().hit_in(
                    before.sky(),
                )),
                wrecks@ == lady_wrecks + fallen_aircraft(before.fleet(), after_fleet.fleet(), before.sky(), m as int)
                    + fallen_shots(before.shots(), self.shots(), before.sky(), i as int),
            decreases n - i,
        {
            let ghost prev = *self;
            let ghost kinds = wrecks@;
            let mut shot = self.bullets.get(i);
            let ghost was = shot;
            proof {
                if was.living() {
                    assert(self.shots()[i as int].living());
                    assert(self.seats().contains(was.seat()));
                }
            }
            let fell = shot.react(&mut self.world);
            assert(shot.seat() == was.seat() && shot.kind() == was.kind() && (shot.living() ==> shot
                == was));
            assert(shot.living() == (was.living() && !was.spent_in(before.sky())));
            self.bullets.set(i, shot);
            assert(self.shots() == prev.shots().update(i as int, shot));
            assert(prev.shots()[i as int] == before.shots()[i as int]);
            proof {
                Self::lemma_fallen_shots_prefix(before.shots(), prev.shots(), self.shots(), before.sky(), i as int, i as int);
            }
            match fell {
                Some(pos) => {
                    proof {
                        self.lemma_shot_fell(prev, i as int);
                    }
                    let kind = shot.entity_type();
                    wrecks.push(Wreck { kind, pos: Position::from(pos) });
                    assert(wrecks@ =~= kinds.push(wreck_at(was.kind(), before.sky(), was.seat())));
                },
                None => {
                    assert(self.shots() =~= prev.shots());
                    proof {
                        Self::lemma_wf_kept(prev, *self);
                    }
                    assert(wrecks@ =~= kinds);
                },
            }
            assert(fallen_shots(before.shots(), self.shots(), before.sky(), i + 1) =~= fallen_shots(
                before.shots(),
                self.shots(),
                before.sky(),
                i as int,
            ) + if before.shots()[i as int].living() && !self.shots()[i as int].living() {
                seq![wreck_at(before.shots()[i as int].kind(), before.sky(), before.shots()[i as int].seat())]
            } else {
                Seq::<Wreck>::empty()
            });
            proof {
                Self::lemma_shots_reacted(before.shots(), prev.shots(), self.shots(), i as int, before.sky());
            }
            i = i + 1;
        }
        wrecks
    }

    /// One more shot has reacted: the `i`th, which kept its seat and kind, still alive is as it
    /// was, and is alive exactly when it was and `w` did not spend it. So the first `i + 1`
    /// stand to `before` as the first `i` did.
    proof fn lemma_shots_reacted(before: Seq<Bullet>, prev: Seq<Bullet>, now: Seq<Bullet>, i: int, w: Sky)
        requires
            0 <= i < before.len(),
            prev.len() == before.len(),
            now == prev.update(i, now[i]),
            prev[i] == before[i],
            forall|k: int| #![trigger prev[k]] 0 <= k < i ==> {
                &&& prev[k].seat() == before[k].seat()
                &&& prev[k].kind() == before[k].kind()
                &&& prev[k].living() ==> prev[k] == before[k]
                &&& prev[k].living() == (before[k].living() && !before[k].spent_in(w))
            },
            now[i].seat() == prev[i].seat(),
            now[i].kind() == prev[i].kind(),
            now[i].living() ==> now[i] == prev[i],
            now[i].living() == (prev[i].living() && !prev[i].spent_in(w)),
        ensures
            forall|k: int| #![trigger now[k]] 0 <= k < i + 1 ==> {
                &&& now[k].seat() == before[k].seat()
                &&& now[k].kind() == before[k].kind()
                &&& now[k].living() ==> now[k] == before[k]
                &&& now[k].living() == (before[k].living() && !before[k].spent_in(w))
            },
    {
        assert forall|k: int| #![trigger now[k]] 0 <= k < i + 1 implies {
            &&& now[k].seat() == before[k].seat()
            &&& now[k].kind() == before[k].kind()
            &&& now[k].living() ==> now[k] == before[k]
            &&& now[k].living() == (before[k].living() && !before[k].spent_in(w))
        } by {
            if k < i {
                assert(now[k] == prev[k]);
                assert(prev[k].seat() == before[k].seat());
            }
        }
    }

    /// One more aircraft has reacted: the `j`th, which kept its seat, still alive is as it was,
    /// is alive exactly when it was and its fate in `w` left it unhurt, and is marked shot down
    /// exactly when it was or that fate shot it down. So the first `j + 1` stand to `before` as
    /// the first `j` did.
    proof fn lemma_fleet_reacted(
        before: Seq<EnemyAircraft>,
        prev: Seq<EnemyAircraft>,
        now: Seq<EnemyAircraft>,
        j: int,
        w: Sky,
    )
        requires
            0 <= j < before.len(),
            prev.len() == before.len(),
            now == prev.update(j, now[j]),
            prev[j] == before[j],
            forall|k: int| #![trigger prev[k]] 0 <= k < j ==> {
                &&& prev[k].seat() == before[k].seat()
                &&& prev[k].living() ==> prev[k] == before[k]
                &&& prev[k].living() == (before[k].living() && before[k].fate_in(w) == Fate::Unhurt)
                &&& prev[k].shot_down() == (before[k].shot_down() || (before[k].living()
                    && before[k].fate_in(w) == Fate::ShotDown))
            },
            now[j].seat() == prev[j].seat(),
            now[j].living() ==> now[j] == prev[j],
            now[j].living() == (prev[j].living() && prev[j].fate_in(w) == Fate::Unhurt),
            now[j].shot_down() == (prev[j].shot_down() || (prev[j].living() && prev[j].fate_in(w)
                == Fate::ShotDown)),
        ensures
            forall|k: int| #![trigger now[k]] 0 <= k < j + 1 ==> {
                &&& now[k].seat() == before[k].seat()
                &&& now[k].living() ==> now[k] == before[k]
                &&& now[k].living() == (before[k].living() && before[k].fate_in(w) == Fate::Unhurt)
                &&& now[k].shot_down() == (before[k].shot_down() || (before[k].living()
                    && before[k].fate_in(w) == Fate::ShotDown))
            },
    {
        assert forall|k: int| #![trigger now[k]] 0 <= k < j + 1 implies {
            &&& now[k].seat() == before[k].seat()
            &&& now[k].living() ==> now[k] == before[k]
            &&& now[k].living() == (before[k].living() && before[k].fate_in(w) == Fate::Unhurt)
            &&& now[k].shot_down() == (before[k].shot_down() || (before[k].living()
                && before[k].fate_in(w) == Fate::ShotDown))
        } by {
            if k < j {
                assert(now[k] == prev[k]);
                assert(prev[k].seat() == before[k].seat());
            }
        }
    }

    /// [`fallen_aircraft`] over a prefix only reads the prefix.
    proof fn lemma_fallen_aircraft_prefix(
        before: Seq<EnemyAircraft>,
        a: Seq<EnemyAircraft>,
        b: Seq<EnemyAircraft>,
        world: Sky,
        k: int,
        j: int,
    )
        requires
            0 <= k <= j,
            j <= a.len(),
            a.len() == b.len(),
            forall|x: int| 0 <= x < j ==> #[trigger] a[x] == b[x],
        ensures
            fallen_aircraft(before, a, world, k) == fallen_aircraft(before, b, world, k),
        decreases k,
    {
        if k > 0 {
            Self::lemma_fallen_aircraft_prefix(before, a, b, world, k - 1, j);
        }
    }

    /// [`fallen_shots`] over a prefix only reads the prefix.
    proof fn lemma_fallen_shots_prefix(
        before: Seq<Bullet>,
        a: Seq<Bullet>,
        b: Seq<Bullet>,
        world: Sky,
        k: int,
        j: int,
    )
        requires
            0 <= k <= j,
            j <= a.len(),
            a.len() == b.len(),
            forall|x: int| 0 <= x < j ==> #[trigger] a[x] == b[x],
        ensures
            fallen_shots(before, a, world, k) == fallen_shots(before, b, world, k),
        decreases k,
    {
        if k > 0 {
            Self::lemma_fallen_shots_prefix(before, a, b, world, k - 1, j);
        }
    }

    /// Dropping the shot at `i` from the list, its seat given back first if it was alive, keeps
    /// the books balanced.
    proof fn lemma_shot_dropped(self, before: Self, i: int)
        requires
            before.wf(),
            0 <= i < before.shots().len(),
            self.shots() == before.shots().remove(i),
            before.shots()[i].living() ==> self.seats() == before.seats().remove(before.shots()[i].seat()),
            !before.shots()[i].living() ==> self.seats() == before.seats(),
            self.fleet() == before.fleet(),
            self.heroine() == before.heroine(),
        ensures
            self.wf(),
    {
        let gone = before.shots()[i].seat();
        let n = before.shots().len();
        assert forall|k: int| 0 <= k < n - 1 implies #[trigger] self.shots()[k] == (if k < i {
            before.shots()[k]
        } else {
            before.shots()[k + 1]
        }) by {}
        assert forall|id: MemberId| #[trigger] self.seats().contains(id) implies self.owned(id) by {
            assert(before.owned(id));
            if exists|k: int| 0 <= k < before.shots().len() && #[trigger] before.shots()[k].living()
                && before.shots()[k].seat() == id {
                let k = choose|k: int| 0 <= k < before.shots().len() && #[trigger] before.shots()[k].living()
                    && before.shots()[k].seat() == id;
                assert(k != i);
                if k < i {
                    assert(self.shots()[k].living());
                } else {
                    assert(self.shots()[k - 1].living());
                }
            } else if exists|j: int| 0 <= j < before.fleet().len() && #[trigger] before.fleet()[j].living()
                && before.fleet()[j].seat() == id {
                let j = choose|j: int| 0 <= j < before.fleet().len() && #[trigger] before.fleet()[j].living()
                    && before.fleet()[j].seat() == id;
                assert(self.fleet()[j].living());
            }
        }
        assert forall|k: int| 0 <= k < self.shots().len() && #[trigger] self.shots()[k].living()
            implies self.seats().contains(self.shots()[k].seat()) by {
            let o = if k < i { k } else { k + 1 };
            assert(self.shots()[k] == before.shots()[o]);
        }
        assert forall|k: int, l: int|
            0 <= k < self.shots().len() && 0 <= l < self.shots().len() && k != l
                && #[trigger] self.shots()[k].living() && #[trigger] self.shots()[l].living()
                implies self.shots()[k].seat() != self.shots()[l].seat() by {
            let ok = if k < i { k } else { k + 1 };
            let ol = if l < i { l } else { l + 1 };
            assert(self.shots()[k] == before.shots()[ok]);
            assert(self.shots()[l] == before.shots()[ol]);
        }
        assert forall|j: int| 0 <= j < self.fleet().len() && #[trigger] self.fleet()[j].living()
            implies self.seats().contains(self.fleet()[j].seat()) by {
            if before.shots()[i].living() {
                assert(before.fleet()[j].seat() != gone);
            }
        }
        assert forall|k: int, j: int|
            0 <= k < self.shots().len() && 0 <= j < self.fleet().len()
                && #[trigger] self.shots()[k].living() && #[trigger] self.fleet()[j].living()
                implies self.shots()[k].seat() != self.fleet()[j].seat() by {
            let ok = if k < i { k } else { k + 1 };
            assert(self.shots()[k] == before.shots()[ok]);
        }
        assert forall|k: int|
            0 <= k < self.shots().len() && #[trigger] self.shots()[k].living()
                && self.heroine().living() && self.seats().contains(self.heroine().seat()) implies
                self.shots()[k].seat() != self.heroine().seat() by {
            let ok = if k < i { k } else { k + 1 };
            assert(self.shots()[k] == before.shots()[ok]);
        }
        assert(self.shots_seated());
        assert(self.fleet_seated());
        assert(self.seats_apart());
    }

    /// Drops the spent shots: the dead ones, already retired, and the live ones that have left the
    /// screen, whose seats are given back on the way out. What stays is every live shot still on
    /// the screen, in order.
    pub fn sweep_bullets(&mut self)
        requires
            old(self).wf(),
        ensures
            final(self).wf(),
            final(self).shots() == shots_kept(
                old(self).shots(),
                off_screen(old(self).shots(), old(self).sky()),
                old(self).shots().len() as int,
            ),
            final(self).seats() == old(self).seats().difference(
                swept_seats(old(self).shots(), old(self).sky(), old(self).shots().len() as int),
            ),
            forall|id: MemberId|
                #![trigger touched_in(final(self).sky(), id)]
                #![trigger pos_in(final(self).sky(), id)]
                #![trigger bounds_in(final(self).sky(), id)]
                #![trigger velocity_in(final(self).sky(), id)]
                final(self).seats().contains(id) ==> reads_alike(old(self).sky(), final(self).sky(), id),
            swept_seats(old(self).shots(), old(self).sky(), old(self).shots().len() as int) == Set::<
                MemberId,
            >::empty() ==> final(self).sky() == old(self).sky(),
            forall|k: int| 0 <= k < final(self).shots().len() ==> #[trigger] final(self).shots()[k].living(),
            final(self).fleet() == old(self).fleet(),
            final(self).heroine() == old(self).heroine(),
            final(self).points() == old(self).points(),
            final(self).best() == old(self).best(),
    {
        let ghost before = *self;
        let ghost n = before.shots().len();
        let ghost flags = off_screen(before.shots(), before.sky());
        let ghost mut gone: Seq<bool> = Seq::empty();
        let ghost mut seen: int = 0;
        let mut i: usize = 0;
        while i < self.bullets.len()
            invariant
                self.wf(),
                0 <= seen <= n,
                gone.len() == seen,
                gone == flags.subrange(0, seen),
                flags == off_screen(before.shots(), before.sky()),
                n == before.shots().len(),
                i <= self.shots().len(),
                self.shots().len() == i + (n - seen),
                self.shots().subrange(0, i as int) == shots_kept(before.shots(), gone, seen),
                forall|k: int| seen <= k < n ==> #[trigger] before.shots()[k] == self.shots()[i + (k - seen)],
                forall|k: int| 0 <= k < i ==> #[trigger] self.shots()[k].living(),
                self.seats() == before.seats().difference(swept_seats(before.shots(), before.sky(), seen)),
                forall|id: MemberId| #[trigger] self.seats().contains(id) ==> reads_alike(
                    before.sky(),
                    self.sky(),
                    id,
                ),
                swept_seats(before.shots(), before.sky(), seen) == Set::<MemberId>::empty() ==> self.sky()
                    == before.sky(),
                self.fleet() == before.fleet(),
                self.heroine() == before.heroine(),
                self.points() == before.points(),
                self.best() == before.best(),
            decreases self.shots().len() - i,
        {
            let ghost prev = *self;
            let ghost prev_gone = gone;
            let ghost prev_i = i as int;
            let shot = self.bullets.get(i);
            assert(shot == before.shots()[seen]);
            proof {
                Self::lemma_swept_step(before.shots(), before.sky(), seen);
                assert(flags[seen] == !seat_bounds(before.sky(), shot.seat()).on_screen_spec());
            }
            if !shot.alive() {
                self.bullets.remove(i);
                proof {
                    self.lemma_shot_dropped(prev, i as int);
                    gone = gone.push(flags[seen]);
                    assert(self.seats() =~= before.seats().difference(
                        swept_seats(before.shots(), before.sky(), seen + 1),
                    ));
                }
            } else {
                assert(self.shots()[i as int].living());
                assert(self.seats().contains(shot.seat()));
                let b = bounds(&self.world, shot.member());
                assert(b == seat_bounds(before.sky(), shot.seat()));
                if !b.on_screen() {
                    retire(&mut self.world, shot.member());
                    self.bullets.remove(i);
                    proof {
                        assert(swept_seats(before.shots(), before.sky(), seen + 1).contains(shot.seat()));
                        self.lemma_shot_dropped(prev, i as int);
                        gone = gone.push(flags[seen]);
                        assert(self.seats() =~= before.seats().difference(
                            swept_seats(before.shots(), before.sky(), seen + 1),
                        ));
                    }
                } else {
                    i = i + 1;
                    proof {
                        gone = gone.push(flags[seen]);
                        assert(self.seats() =~= before.seats().difference(
                            swept_seats(before.shots(), before.sky(), seen + 1),
                        ));
                    }
                }
            }
            proof {
                assert(gone =~= flags.subrange(0, seen + 1));
                Self::lemma_shots_kept_prefix(before.shots(), gone, seen);
                assert(gone.subrange(0, seen) =~= prev_gone);
                assert(shots_kept(before.shots(), gone, seen) == shots_kept(before.shots(), prev_gone, seen));
                assert(shots_kept(before.shots(), gone, seen + 1) == shots_kept(before.shots(), gone, seen)
                    + if before.shots()[seen].living() && !gone[seen] {
                    seq![before.shots()[seen]]
                } else {
                    Seq::<Bullet>::empty()
                });
                if i as int == prev_i {
                    assert(self.shots().subrange(0, i as int) =~= prev.shots().subrange(0, i as int));
                } else {
                    assert(self.shots() == prev.shots());
                    assert(self.shots().subrange(0, i as int) =~= prev.shots().subrange(0, prev_i).push(shot));
                }
                seen = seen + 1;
                assert(self.shots().subrange(0, i as int) =~= shots_kept(before.shots(), gone, seen));
            }
        }
        assert(self.shots().subrange(0, i as int) =~= self.shots());
        assert(gone =~= flags);
    }

    /// One more shot swept: its seat is given back exactly when it is alive and off the screen.
    proof fn lemma_swept_step(shots: Seq<Bullet>, world: Sky, n: int)
        requires
            0 <= n < shots.len(),
        ensures
            swept_seats(shots, world, n + 1) == (if shots[n].living() && !seat_bounds(
                world,
                shots[n].seat(),
            ).on_screen_spec() {
                swept_seats(shots, world, n).insert(shots[n].seat())
            } else {
                swept_seats(shots, world, n)
            }),
    {
        let next = swept_seats(shots, world, n + 1);
        let prev = swept_seats(shots, world, n);
        let hit = shots[n].living() && !seat_bounds(world, shots[n].seat()).on_screen_spec();
        let want = if hit {
            prev.insert(shots[n].seat())
        } else {
            prev
        };
        assert forall|id: MemberId| next.contains(id) == want.contains(id) by {
            if next.contains(id) {
                let k = choose|k: int|
                    0 <= k < n + 1 && #[trigger] shots[k].living() && shots[k].seat() == id
                        && !seat_bounds(world, id).on_screen_spec();
                if k < n {
                    assert(prev.contains(id));
                }
            }
            if prev.contains(id) {
                let k = choose|k: int|
                    0 <= k < n && #[trigger] shots[k].living() && shots[k].seat() == id
                        && !seat_bounds(world, id).on_screen_spec();
                assert(shots[k].living());
                assert(next.contains(id));
            }
            if hit && id == shots[n].seat() {
                assert(shots[n].living());
                assert(next.contains(id));
            }
        }
        assert(next =~= want);
    }


    /// [`shots_kept`] over a prefix only reads that prefix of the verdicts.
    proof fn lemma_shots_kept_prefix(shots: Seq<Bullet>, gone: Seq<bool>, n: int)
        requires
            0 <= n < gone.len(),
        ensures
            shots_kept(shots, gone, n) == shots_kept(shots, gone.subrange(0, n), n),
        decreases n,
    {
        if n > 0 {
            Self::lemma_shots_kept_prefix(shots, gone, n - 1);
            Self::lemma_shots_kept_prefix(shots, gone.subrange(0, n), n - 1);
            assert(gone.subrange(0, n).subrange(0, n - 1) =~= gone.subrange(0, n - 1));
        }
    }

    /// Dropping the aircraft at `j` from the list, its seat given back first if it was alive,
    /// keeps the books balanced.
    proof fn lemma_craft_dropped(self, before: Self, j: int)
        requires
            before.wf(),
            0 <= j < before.fleet().len(),
            self.fleet() == before.fleet().remove(j),
            before.fleet()[j].living() ==> self.seats() == before.seats().remove(before.fleet()[j].seat()),
            !before.fleet()[j].living() ==> self.seats() == before.seats(),
            self.shots() == before.shots(),
            self.heroine() == before.heroine(),
        ensures
            self.wf(),
    {
        let gone = before.fleet()[j].seat();
        let n = before.fleet().len();
        assert forall|k: int| 0 <= k < n - 1 implies #[trigger] self.fleet()[k] == (if k < j {
            before.fleet()[k]
        } else {
            before.fleet()[k + 1]
        }) by {}
        assert forall|id: MemberId| #[trigger] self.seats().contains(id) implies self.owned(id) by {
            assert(before.owned(id));
            if exists|i: int| 0 <= i < before.shots().len() && #[trigger] before.shots()[i].living()
                && before.shots()[i].seat() == id {
                let i = choose|i: int| 0 <= i < before.shots().len() && #[trigger] before.shots()[i].living()
                    && before.shots()[i].seat() == id;
                assert(self.shots()[i].living());
            } else if exists|k: int| 0 <= k < before.fleet().len() && #[trigger] before.fleet()[k].living()
                && before.fleet()[k].seat() == id {
                let k = choose|k: int| 0 <= k < before.fleet().len() && #[trigger] before.fleet()[k].living()
                    && before.fleet()[k].seat() == id;
                assert(k != j);
                if k < j {
                    assert(self.fleet()[k].living());
                } else {
                    assert(self.fleet()[k - 1].living());
                }
            }
        }
        assert forall|k: int| 0 <= k < self.fleet().len() && #[trigger] self.fleet()[k].living()
            implies self.seats().contains(self.fleet()[k].seat()) by {
            let o = if k < j { k } else { k + 1 };
            assert(self.fleet()[k] == before.fleet()[o]);
        }
        assert forall|k: int, l: int|
            0 <= k < self.fleet().len() && 0 <= l < self.fleet().len() && k != l
                && #[trigger] self.fleet()[k].living() && #[trigger] self.fleet()[l].living()
                implies self.fleet()[k].seat() != self.fleet()[l].seat() by {
            let ok = if k < j { k } else { k + 1 };
            let ol = if l < j { l } else { l + 1 };
            assert(self.fleet()[k] == before.fleet()[ok]);
            assert(self.fleet()[l] == before.fleet()[ol]);
        }
        assert forall|k: int| 0 <= k < self.fleet().len() && #[trigger] self.fleet()[k].shot_down()
            implies !self.fleet()[k].living() by {
            let o = if k < j { k } else { k + 1 };
            assert(self.fleet()[k] == before.fleet()[o]);
        }
        assert forall|i: int| 0 <= i < self.shots().len() && #[trigger] self.shots()[i].living()
            implies self.seats().contains(self.shots()[i].seat()) by {
            if before.fleet()[j].living() {
                assert(before.shots()[i].seat() != gone);
            }
        }
        assert forall|i: int, k: int|
            0 <= i < self.shots().len() && 0 <= k < self.fleet().len()
                && #[trigger] self.shots()[i].living() && #[trigger] self.fleet()[k].living()
                implies self.shots()[i].seat() != self.fleet()[k].seat() by {
            let ok = if k < j { k } else { k + 1 };
            assert(self.fleet()[k] == before.fleet()[ok]);
        }
        assert forall|k: int|
            0 <= k < self.fleet().len() && #[trigger] self.fleet()[k].living()
                && self.heroine().living() && self.seats().contains(self.heroine().seat()) implies
                self.fleet()[k].seat() != self.heroine().seat() by {
            let ok = if k < j { k } else { k + 1 };
            assert(self.fleet()[k] == before.fleet()[ok]);
        }
        assert(self.shots_seated());
        assert(self.fleet_seated());
        assert(self.seats_apart());
    }

    /// What the pass over the aircraft makes of one, given whether it is alive, whether a shot of
    /// ours brought it down and whether it has left the play: whether it stays on the list, and
    /// the points it is worth.
    pub fn verdict(craft: &EnemyAircraft, out: bool) -> (r: (bool, u32))
        ensures
            r.0 == craft_kept(*craft, out),
            r.1 == craft_points(*craft, out),
    {
        let alive = craft.alive();
        let keep = alive && !out;
        let mut bump: u32 = 0;
        // The aircraft is the only one that knows a shot of ours took it down rather than a ram,
        // and it is dropped exactly once — so the bump rides the drop.
        if !keep && craft.died_to_shot() {
            bump = bump + DESTROY_SCORE_BUMP;
        }
        // Only a live escape earns the let-go points.
        if alive && out {
            bump = bump + LET_GO_SCORE_BUMP;
        }
        (keep, bump)
    }

    /// One pass over the aircraft, in list order. In a game, each live one whose shot is due —
    /// `volleys[k]` describing the shot of the `k`th — fires it first. Then it is kept only if it
    /// is alive and still in play; one shot down earns its points as it is dropped, and one that
    /// escaped alive earns the let-go points and gives its seat back on the way out (the dead ones
    /// gave theirs already). Hands back, for each aircraft, what became of its shot.
    pub fn aircraft_pass(&mut self, in_game: bool, volleys: &Vec<Option<MemberBuilder>>) -> (outcomes: Vec<Seating>)
        requires
            old(self).wf(),
            volleys@.len() == old(self).fleet().len(),
            old(self).points() + fleet_points(
                old(self).fleet(),
                escapes(old(self).fleet(), old(self).sky()),
                old(self).fleet().len() as int,
            ) <= u32::MAX,
        ensures
            final(self).wf(),
            final(self).fleet() == fleet_kept(
                old(self).fleet(),
                escapes(old(self).fleet(), old(self).sky()),
                old(self).fleet().len() as int,
            ),
            final(self).points() == old(self).points() + fleet_points(
                old(self).fleet(),
                escapes(old(self).fleet(), old(self).sky()),
                old(self).fleet().len() as int,
            ),
            final(self).shots().len() == old(self).shots().len() + seated_count(outcomes@),
            final(self).seats() == old(self).seats().difference(
                escaped_seats(old(self).fleet(), old(self).sky(), old(self).fleet().len() as int),
            ).union(shot_seats(final(self).shots(), old(self).shots().len() as int)),
            forall|id: MemberId|
                #![trigger touched_in(final(self).sky(), id)]
                #![trigger pos_in(final(self).sky(), id)]
                #![trigger bounds_in(final(self).sky(), id)]
                #![trigger velocity_in(final(self).sky(), id)]
                old(self).seats().contains(id) && !escaped_seats(
                    old(self).fleet(),
                    old(self).sky(),
                    old(self).fleet().len() as int,
                ).contains(id) ==> reads_alike(old(self).sky(), final(self).sky(), id),
            (forall|k: int| 0 <= k < outcomes@.len() ==> #[trigger] outcomes@[k] == Seating::Held
                || outcomes@[k] == Seating::NoSeat) && escaped_seats(
                old(self).fleet(),
                old(self).sky(),
                old(self).fleet().len() as int,
            ) == Set::<MemberId>::empty() ==> final(self).sky() == old(self).sky(),
            forall|k: int| 0 <= k < final(self).fleet().len() ==> #[trigger] final(self).fleet()[k].living(),
            old(self).points() <= final(self).points() <= old(self).points() + LET_GO_SCORE_BUMP * old(self).fleet().len(),
            outcomes@.len() == old(self).fleet().len(),
            forall|k: int| 0 <= k < outcomes@.len() ==> (#[trigger] outcomes@[k] != Seating::Held <==> (in_game
                && old(self).fleet()[k].living() && volleys@[k] is Some)),
            final(self).shots().len() >= old(self).shots().len(),
            final(self).shots().subrange(0, old(self).shots().len() as int) == old(self).shots(),
            forall|k: int| #![trigger final(self).shots()[k]] old(self).shots().len() <= k && k < final(self).shots().len() ==> final(self).shots()[k].living()
                && final(self).shots()[k].kind() == Type::EnemyBullet,
            final(self).heroine() == old(self).heroine(),
            final(self).best() == old(self).best(),
    {
        let ghost before = *self;
        let ghost n = before.fleet().len();
        let ghost flags = escapes(before.fleet(), before.sky());
        let ghost mut out: Seq<bool> = Seq::empty();
        let ghost mut seen: int = 0;
        let mut outcomes: Vec<Seating> = Vec::new();
        let mut j: usize = 0;
        let mut i: usize = 0;
        let count = self.aircraft.len();
        while i < count
            invariant
                self.wf(),
                count == n,
                volleys@.len() == n,
                seen == i,
                0 <= i <= n,
                out.len() == i,
                j <= self.fleet().len(),
                self.fleet().len() == j + (n - i),
                self.fleet().subrange(0, j as int) == fleet_kept(before.fleet(), out, i as int),
                forall|k: int| i <= k < n ==> #[trigger] before.fleet()[k] == self.fleet()[j + (k - i)],
                forall|k: int| 0 <= k < j ==> #[trigger] self.fleet()[k].living(),
                self.points() == before.points() + fleet_points(before.fleet(), out, i as int),
                0 <= fleet_points(before.fleet(), out, i as int) <= LET_GO_SCORE_BUMP * i,
                before.points() + fleet_points(before.fleet(), flags, n as int) <= u32::MAX,
                outcomes@.len() == i,
                forall|k: int| 0 <= k < i ==> (#[trigger] outcomes@[k] != Seating::Held <==> (in_game
                    && before.fleet()[k].living() && volleys@[k] is Some)),
                self.shots().len() >= before.shots().len(),
                self.shots().subrange(0, before.shots().len() as int) == before.shots(),
                forall|k: int| #![trigger self.shots()[k]] before.shots().len() <= k && k < self.shots().len() ==> self.shots()[k].living()
                    && self.shots()[k].kind() == Type::EnemyBullet,
                self.heroine() == before.heroine(),
                self.best() == before.best(),
                flags == escapes(before.fleet(), before.sky()),
                n == before.fleet().len(),
                out == flags.subrange(0, i as int),
                forall|k: int| #![trigger before.fleet()[k]] i <= k < n && before.fleet()[k].living()
                    ==> bounds_in(self.sky(), before.fleet()[k].seat()) == bounds_in(
                    before.sky(),
                    before.fleet()[k].seat(),
                ),
                self.shots().len() == before.shots().len() + seated_count(outcomes@),
                self.seats() == before.seats().difference(
                    escaped_seats(before.fleet(), before.sky(), i as int),
                ).union(shot_seats(self.shots(), before.shots().len() as int)),
                forall|id: MemberId| #[trigger] before.seats().contains(id) && !escaped_seats(
                    before.fleet(),
                    before.sky(),
                    i as int,
                ).contains(id) ==> self.seats().contains(id) && reads_alike(before.sky(), self.sky(), id),
                (forall|k: int| 0 <= k < i ==> #[trigger] outcomes@[k] == Seating::Held || outcomes@[k]
                    == Seating::NoSeat) && escaped_seats(before.fleet(), before.sky(), i as int) == Set::<
                    MemberId,
                >::empty() ==> self.sky() == before.sky(),
            decreases n - i,
        {
            let craft = self.aircraft.get(j);
            assert(craft == before.fleet()[i as int]);
            let ghost pre = *self;
            proof {
                assert forall|k: int| #![trigger before.fleet()[k]] i <= k < n && before.fleet()[k].living()
                    implies self.seats().contains(before.fleet()[k].seat()) by {
                    assert(self.fleet()[j + (k - i)] == before.fleet()[k]);
                    assert(self.fleet()[j + (k - i)].living());
                }
            }
            let ghost outcomes_before = outcomes@;
            let ghost shots_before = self.shots();
            let outcome = self.volley(&craft, in_game, volleys[i]);
            proof {
                Self::lemma_tail_shots(before.shots().len() as int, shots_before, self.shots());
            }
            outcomes.push(outcome);
            assert(outcomes@ == outcomes_before.push(outcome));
            assert(outcomes@.drop_last() =~= outcomes_before);
            let ghost prev = *self;
            let ghost prev_out = out;
            let ghost prev_j = j as int;
            proof {
                if outcome == Seating::Seated {
                    Self::lemma_shot_seats_push(pre.shots(), before.shots().len() as int, self.shots().last());
                    assert(self.shots() == pre.shots().push(self.shots().last()));
                }
                assert(self.seats() =~= before.seats().difference(
                    escaped_seats(before.fleet(), before.sky(), i as int),
                ).union(shot_seats(self.shots(), before.shots().len() as int)));
            }
            let alive = craft.alive();
            let gone = if alive {
                assert(pre.fleet()[j as int].living());
                assert(self.seats().contains(craft.seat()));
                let b = bounds(&self.world, craft.member());
                proof {
                    assert(before.fleet()[i as int].living());
                    assert(pre.seats().contains(craft.seat()));
                    assert(bounds_in(self.sky(), craft.seat()) == bounds_in(pre.sky(), craft.seat()));
                    assert(bounds_in(pre.sky(), craft.seat()) == bounds_in(before.sky(), craft.seat()));
                    assert((b.x, b.y, b.width, b.height) == bounds_in(self.sky(), craft.seat()));
                }
                assert(b == seat_bounds(before.sky(), craft.seat()));
                EnemyAircraft::outside(b)
            } else {
                false
            };
            assert(gone == flags[i as int]);
            let (keep, bump) = Self::verdict(&craft, gone);
            proof {
                Self::lemma_escaped_step(before.fleet(), before.sky(), i as int);
            }
            if alive && gone {
                proof {
                    assert forall|k: int| before.shots().len() <= k < self.shots().len() implies #[trigger] self.shots()[k].seat()
                        != craft.seat() by {
                        assert(self.shots()[k].living());
                        assert(self.fleet()[j as int].living());
                    }
                }
                retire(&mut self.world, craft.member());
                assert(self.seats() =~= before.seats().difference(
                    escaped_seats(before.fleet(), before.sky(), i + 1),
                ).union(shot_seats(self.shots(), before.shots().len() as int)));
            } else {
                assert(self.seats() =~= before.seats().difference(
                    escaped_seats(before.fleet(), before.sky(), i + 1),
                ).union(shot_seats(self.shots(), before.shots().len() as int)));
            }
            proof {
                assert forall|k: int| #![trigger before.fleet()[k]] i + 1 <= k < n && before.fleet()[k].living()
                    implies bounds_in(self.sky(), before.fleet()[k].seat()) == bounds_in(
                    before.sky(),
                    before.fleet()[k].seat(),
                ) by {
                    assert(pre.seats().contains(before.fleet()[k].seat()));
                    assert(prev.fleet()[j + (k - i)] == before.fleet()[k]);
                    assert(prev.fleet()[j + (k - i)].living());
                    if alive && gone {
                        assert(prev.fleet()[j as int] == craft);
                        assert(prev.fleet()[j as int].living());
                        assert(prev.fleet_seated());
                        assert(prev.fleet()[j as int].seat() != prev.fleet()[j + (k - i)].seat());
                    }
                    assert(bounds_in(prev.sky(), before.fleet()[k].seat()) == bounds_in(
                        pre.sky(),
                        before.fleet()[k].seat(),
                    ));
                }
            }
            proof {
                Self::lemma_fleet_points_agree(before.fleet(), prev_out, flags, i as int);
                Self::lemma_fleet_points_grow(before.fleet(), flags, i + 1, n as int);
            }
            self.score = self.score + bump;
            if keep {
                j = j + 1;
                proof {
                    Self::lemma_wf_kept(prev, *self);
                }
            } else {
                self.aircraft.remove(j);
                proof {
                    self.lemma_craft_dropped(prev, j as int);
                }
            }
            proof {
                out = out.push(gone);
                assert(out =~= flags.subrange(0, i + 1));
                Self::lemma_fleet_prefix(before.fleet(), out, i as int);
                assert(out.subrange(0, i as int) =~= prev_out);
                assert(fleet_kept(before.fleet(), out, i + 1) == fleet_kept(before.fleet(), prev_out, i as int)
                    + if craft_kept(before.fleet()[i as int], gone) {
                    seq![before.fleet()[i as int]]
                } else {
                    Seq::<EnemyAircraft>::empty()
                });
                assert(fleet_points(before.fleet(), out, i + 1) == fleet_points(before.fleet(), prev_out, i as int)
                    + craft_points(before.fleet()[i as int], gone));
                if keep {
                    assert(self.fleet().subrange(0, j as int) =~= prev.fleet().subrange(0, prev_j).push(craft));
                } else {
                    assert(self.fleet().subrange(0, j as int) =~= prev.fleet().subrange(0, prev_j));
                }
                seen = seen + 1;
            }
            i = i + 1;
        }
        assert(self.fleet().subrange(0, j as int) =~= self.fleet());
        assert(out =~= flags);
        outcomes
    }

    /// One more aircraft passed over: its seat is given back exactly when it is alive and has left
    /// the play.
    proof fn lemma_escaped_step(fleet: Seq<EnemyAircraft>, world: Sky, n: int)
        requires
            0 <= n < fleet.len(),
        ensures
            escaped_seats(fleet, world, n + 1) == (if fleet[n].living() && left_play(
                seat_bounds(world, fleet[n].seat()),
            ) {
                escaped_seats(fleet, world, n).insert(fleet[n].seat())
            } else {
                escaped_seats(fleet, world, n)
            }),
    {
        let next = escaped_seats(fleet, world, n + 1);
        let prev = escaped_seats(fleet, world, n);
        let hit = fleet[n].living() && left_play(seat_bounds(world, fleet[n].seat()));
        let want = if hit {
            prev.insert(fleet[n].seat())
        } else {
            prev
        };
        assert forall|id: MemberId| next.contains(id) == want.contains(id) by {
            if next.contains(id) {
                let k = choose|k: int|
                    0 <= k < n + 1 && #[trigger] fleet[k].living() && fleet[k].seat() == id && left_play(
                        seat_bounds(world, id),
                    );
                if k < n {
                    assert(prev.contains(id));
                }
            }
            if prev.contains(id) {
                let k = choose|k: int|
                    0 <= k < n && #[trigger] fleet[k].living() && fleet[k].seat() == id && left_play(
                        seat_bounds(world, id),
                    );
                assert(fleet[k].living());
                assert(next.contains(id));
            }
            if hit && id == fleet[n].seat() {
                assert(fleet[n].living());
                assert(next.contains(id));
            }
        }
        assert(next =~= want);
    }

    /// One more shot on the end of `shots` adds its seat to those from `from` on.
    proof fn lemma_shot_seats_push(shots: Seq<Bullet>, from: int, b: Bullet)
        requires
            0 <= from <= shots.len(),
        ensures
            shot_seats(shots.push(b), from) == shot_seats(shots, from).insert(b.seat()),
    {
        let next = shots.push(b);
        assert forall|id: MemberId| shot_seats(next, from).contains(id) == shot_seats(shots, from).insert(
            b.seat(),
        ).contains(id) by {
            if shot_seats(next, from).contains(id) {
                let k = choose|k: int| #![trigger next[k]] from <= k < next.len() && next[k].seat() == id;
                if k < shots.len() {
                    assert(next[k] == shots[k]);
                    assert(shot_seats(shots, from).contains(id));
                }
            }
            if shot_seats(shots, from).contains(id) {
                let k = choose|k: int| #![trigger shots[k]] from <= k < shots.len() && shots[k].seat() == id;
                assert(next[k] == shots[k]);
                assert(shot_seats(next, from).contains(id));
            }
            if id == b.seat() {
                assert(next[shots.len() as int] == b);
                assert(shot_seats(next, from).contains(id));
            }
        }
        assert(shot_seats(next, from) =~= shot_seats(shots, from).insert(b.seat()));
    }

    /// Fires `craft`'s shot, as `due` describes it, if this is a game, it is alive and its shot is
    /// due: [`fires`], for a shooter on the enemy's side.
    fn volley(&mut self, craft: &EnemyAircraft, in_game: bool, due: Option<MemberBuilder>) -> (outcome: Seating)
        requires
            old(self).wf(),
        ensures
            final(self).wf(),
            outcome != Seating::Held <==> in_game && fires(craft.living(), due is Some, true, false),
            outcome == Seating::Seated ==> {
                &&& final(self).shots() == old(self).shots().push(final(self).shots().last())
                &&& final(self).shots().last().living()
                &&& final(self).shots().last().kind() == Type::EnemyBullet
            },
            outcome == Seating::Seated ==> final(self).seats() == old(self).seats().insert(
                final(self).shots().last().seat(),
            ),
            outcome != Seating::Seated ==> final(self).shots() == old(self).shots(),
            outcome != Seating::Seated ==> final(self).seats() == old(self).seats(),
            forall|id: MemberId|
                #![trigger touched_in(final(self).sky(), id)]
                #![trigger pos_in(final(self).sky(), id)]
                #![trigger bounds_in(final(self).sky(), id)]
                #![trigger velocity_in(final(self).sky(), id)]
                old(self).seats().contains(id) ==> reads_alike(old(self).sky(), final(self).sky(), id),
            outcome == Seating::Held || outcome == Seating::NoSeat ==> final(self).sky() == old(self).sky(),
            final(self).fleet() == old(self).fleet(),
            final(self).heroine() == old(self).heroine(),
            final(self).points() == old(self).points(),
            final(self).best() == old(self).best(),
    {
        if in_game && craft.wants_to_fire(due.is_some(), false) {
            match due {
                Some(description) => self.seat_shot(Type::EnemyBullet, description),
                None => Seating::Held,
            }
        } else {
            Seating::Held
        }
    }

    /// Shots appended after the first `keep` stay behind them, live and the enemy's.
    proof fn lemma_tail_shots(keep: int, pre: Seq<Bullet>, post: Seq<Bullet>)
        requires
            0 <= keep <= pre.len(),
            forall|k: int| #![trigger pre[k]] keep <= k && k < pre.len() ==> pre[k].living() && pre[k].kind() == Type::EnemyBullet,
            post == pre || (post == pre.push(post.last()) && post.last().living() && post.last().kind()
                == Type::EnemyBullet),
        ensures
            post.len() >= pre.len(),
            post.subrange(0, keep) == pre.subrange(0, keep),
            forall|k: int| #![trigger post[k]] keep <= k && k < post.len() ==> post[k].living() && post[k].kind() == Type::EnemyBullet,
    {
        assert(post.subrange(0, keep) =~= pre.subrange(0, keep));
        assert forall|k: int| #![trigger post[k]] keep <= k && k < post.len() implies post[k].living() && post[k].kind()
            == Type::EnemyBullet by {
            if post == pre {
                assert(pre[k].living());
            } else if k < pre.len() {
                assert(post[k] == pre[k]);
                assert(pre[k].living());
            } else {
                assert(k == pre.len());
                assert(post[k] == post.last());
            }
        }
    }

    /// [`fleet_points`] over the first `n` reads only the first `n` verdicts.
    proof fn lemma_fleet_points_agree(fleet: Seq<EnemyAircraft>, a: Seq<bool>, b: Seq<bool>, n: int)
        requires
            0 <= n,
            forall|k: int| 0 <= k < n ==> a[k] == b[k],
        ensures
            fleet_points(fleet, a, n) == fleet_points(fleet, b, n),
        decreases n,
    {
        if n > 0 {
            Self::lemma_fleet_points_agree(fleet, a, b, n - 1);
            assert(a[n - 1] == b[n - 1]);
        }
    }

    /// [`fleet_points`] never falls as more of the fleet is counted.
    proof fn lemma_fleet_points_grow(fleet: Seq<EnemyAircraft>, out: Seq<bool>, i: int, n: int)
        requires
            0 <= i <= n,
        ensures
            0 <= fleet_points(fleet, out, i) <= fleet_points(fleet, out, n),
        decreases n,
    {
        if n > 0 {
            if i < n {
                Self::lemma_fleet_points_grow(fleet, out, i, n - 1);
            } else {
                Self::lemma_fleet_points_grow(fleet, out, n - 1, n - 1);
            }
            assert(craft_points(fleet[n - 1], out[n - 1]) >= 0);
        }
    }

    /// The shots' sweep and then the pass over the aircraft, as an update runs them: afterwards
    /// every shot and every aircraft on the lists is alive, and the seats the world holds are
    /// exactly theirs and the lady's while she is alive and seated — no dead record is kept and no
    /// seat is orphaned, refused shots included. The aircraft kept, the points earned and what
    /// became of each aircraft's shot are the pass's, judged in the world as it stood.
    pub fn sweep_and_pass(&mut self, in_game: bool, volleys: &Vec<Option<MemberBuilder>>) -> (outcomes: Vec<
        Seating,
    >)
        requires
            old(self).wf(),
            volleys@.len() == old(self).fleet().len(),
            old(self).points() + fleet_points(
                old(self).fleet(),
                escapes(old(self).fleet(), old(self).sky()),
                old(self).fleet().len() as int,
            ) <= u32::MAX,
        ensures
            final(self).wf(),
            forall|i: int| 0 <= i < final(self).shots().len() ==> #[trigger] final(self).shots()[i].living(),
            forall|j: int| 0 <= j < final(self).fleet().len() ==> #[trigger] final(self).fleet()[j].living(),
            forall|id: MemberId| #[trigger] final(self).seats().contains(id) <==> {
                ||| final(self).heroine().living() && final(self).heroine().seat() == id && !unseatable(id)
                ||| exists|i: int| 0 <= i < final(self).shots().len() && #[trigger] final(self).shots()[i].seat() == id
                ||| exists|j: int| 0 <= j < final(self).fleet().len() && #[trigger] final(self).fleet()[j].seat() == id
            },
            final(self).fleet() == fleet_kept(
                old(self).fleet(),
                escapes(old(self).fleet(), old(self).sky()),
                old(self).fleet().len() as int,
            ),
            final(self).points() == old(self).points() + fleet_points(
                old(self).fleet(),
                escapes(old(self).fleet(), old(self).sky()),
                old(self).fleet().len() as int,
            ),
            outcomes@.len() == old(self).fleet().len(),
            forall|k: int| 0 <= k < outcomes@.len() ==> (#[trigger] outcomes@[k] != Seating::Held <==> (in_game
                && old(self).fleet()[k].living() && volleys@[k] is Some)),
            final(self).shots().len() == old(self).sweep_keeps().len() + seated_count(outcomes@),
            final(self).shots().subrange(0, old(self).sweep_keeps().len() as int) == old(self).sweep_keeps(),
            forall|k: int| #![trigger final(self).shots()[k]] old(self).sweep_keeps().len() <= k
                < final(self).shots().len() ==> final(self).shots()[k].kind() == Type::EnemyBullet,
            final(self).seats() == old(self).seats().difference(
                swept_seats(old(self).shots(), old(self).sky(), old(self).shots().len() as int),
            ).difference(
                escaped_seats(old(self).fleet(), old(self).sky(), old(self).fleet().len() as int),
            ).union(shot_seats(final(self).shots(), old(self).sweep_keeps().len() as int)),
            forall|id: MemberId|
                #![trigger touched_in(final(self).sky(), id)]
                #![trigger pos_in(final(self).sky(), id)]
                #![trigger bounds_in(final(self).sky(), id)]
                #![trigger velocity_in(final(self).sky(), id)]
                old(self).seats().contains(id) && !swept_seats(
                    old(self).shots(),
                    old(self).sky(),
                    old(self).shots().len() as int,
                ).contains(id) && !escaped_seats(
                    old(self).fleet(),
                    old(self).sky(),
                    old(self).fleet().len() as int,
                ).contains(id) ==> reads_alike(old(self).sky(), final(self).sky(), id),
            (forall|k: int| 0 <= k < outcomes@.len() ==> #[trigger] outcomes@[k] == Seating::Held
                || outcomes@[k] == Seating::NoSeat) && swept_seats(
                old(self).shots(),
                old(self).sky(),
                old(self).shots().len() as int,
            ) == Set::<MemberId>::empty() && escaped_seats(
                old(self).fleet(),
                old(self).sky(),
                old(self).fleet().len() as int,
            ) == Set::<MemberId>::empty() ==> final(self).sky() == old(self).sky(),
            final(self).heroine() == old(self).heroine(),
            final(self).best() == old(self).best(),
    {
        let ghost before = *self;
        self.sweep_bullets();
        let ghost swept = *self;
        proof {
            assert forall|k: int| 0 <= k < before.fleet().len() && #[trigger] before.fleet()[k].living()
                implies bounds_in(swept.sky(), before.fleet()[k].seat()) == bounds_in(
                before.sky(),
                before.fleet()[k].seat(),
            ) by {
                let id = before.fleet()[k].seat();
                assert(before.seats().contains(id));
                if swept_seats(before.shots(), before.sky(), before.shots().len() as int).contains(id) {
                    let i = choose|i: int|
                        0 <= i < before.shots().len() && #[trigger] before.shots()[i].living()
                            && before.shots()[i].seat() == id && !seat_bounds(before.sky(), id).on_screen_spec();
                    assert(before.shots()[i].seat() != before.fleet()[k].seat());
                }
                assert(swept.seats().contains(id));
                assert(reads_alike(before.sky(), swept.sky(), id));
            }
            assert(escapes(swept.fleet(), swept.sky()) =~= escapes(before.fleet(), before.sky())) by {
                assert forall|k: int| 0 <= k < before.fleet().len() implies #[trigger] escapes(
                    swept.fleet(),
                    swept.sky(),
                )[k] == escapes(before.fleet(), before.sky())[k] by {
                    if before.fleet()[k].living() {
                        assert(bounds_in(swept.sky(), before.fleet()[k].seat()) == bounds_in(
                            before.sky(),
                            before.fleet()[k].seat(),
                        ));
                    }
                }
            }
            let m = before.fleet().len() as int;
            assert(escaped_seats(swept.fleet(), swept.sky(), m) =~= escaped_seats(before.fleet(), before.sky(), m)) by {
                assert forall|id: MemberId| escaped_seats(swept.fleet(), swept.sky(), m).contains(id)
                    == escaped_seats(before.fleet(), before.sky(), m).contains(id) by {
                    if escaped_seats(swept.fleet(), swept.sky(), m).contains(id) {
                        let k = choose|k: int|
                            0 <= k < m && #[trigger] swept.fleet()[k].living() && swept.fleet()[k].seat() == id
                                && left_play(seat_bounds(swept.sky(), id));
                        assert(before.fleet()[k].living());
                        assert(bounds_in(swept.sky(), before.fleet()[k].seat()) == bounds_in(
                            before.sky(),
                            before.fleet()[k].seat(),
                        ));
                    }
                    if escaped_seats(before.fleet(), before.sky(), m).contains(id) {
                        let k = choose|k: int|
                            0 <= k < m && #[trigger] before.fleet()[k].living() && before.fleet()[k].seat() == id
                                && left_play(seat_bounds(before.sky(), id));
                        assert(bounds_in(swept.sky(), before.fleet()[k].seat()) == bounds_in(
                            before.sky(),
                            before.fleet()[k].seat(),
                        ));
                        assert(swept.fleet()[k].living());
                    }
                }
            }
            assert(swept.shots() == before.sweep_keeps());
        }
        let outcomes = self.aircraft_pass(in_game, volleys);
        proof {
            assert forall|i: int| 0 <= i < self.shots().len() implies #[trigger] self.shots()[i].living() by {
                if i < swept.shots().len() {
                    assert(self.shots().subrange(0, swept.shots().len() as int)[i] == swept.shots()[i]);
                }
            }
            self.lemma_seats_are_the_living();
            assert forall|id: MemberId| #[trigger] self.seats().contains(id) <==> {
                ||| self.heroine().living() && self.heroine().seat() == id && !unseatable(id)
                ||| exists|i: int| 0 <= i < self.shots().len() && #[trigger] self.shots()[i].seat() == id
                ||| exists|j: int| 0 <= j < self.fleet().len() && #[trigger] self.fleet()[j].seat() == id
            } by {
                if exists|i: int| 0 <= i < self.shots().len() && #[trigger] self.shots()[i].seat() == id {
                    let i = choose|i: int| 0 <= i < self.shots().len() && #[trigger] self.shots()[i].seat() == id;
                    assert(self.shots()[i].living());
                }
                if exists|j: int| 0 <= j < self.fleet().len() && #[trigger] self.fleet()[j].seat() == id {
                    let j = choose|j: int| 0 <= j < self.fleet().len() && #[trigger] self.fleet()[j].seat() == id;
                    assert(self.fleet()[j].living());
                }
            }
        }
        outcomes
    }

    /// The whole of an update's bookkeeping, in the order an update runs it: the shots' sweep and
    /// the pass over the aircraft ([`Cast::sweep_and_pass`]), then the lady's shot if she fires
    /// (`lady_shot` describing it), then a new aircraft if one is due (`arrival` describing it).
    /// Afterwards every shot and every aircraft on the lists is alive, and the seats the world
    /// holds are exactly theirs and the lady's while she is alive and seated: no dead record is
    /// kept and no seat is orphaned, refused shots and refused arrivals included. Hands back what
    /// became of each aircraft's shot, of the lady's shot and of the arrival.
    pub fn running_update(
        &mut self,
        in_game: bool,
        volleys: &Vec<Option<MemberBuilder>>,
        lady_shot: Option<MemberBuilder>,
        arrival: Option<MemberBuilder>,
    ) -> (r: (Vec<Seating>, Seating, Seating))
        requires
            old(self).wf(),
            volleys@.len() == old(self).fleet().len(),
            old(self).points() + fleet_points(
                old(self).fleet(),
                escapes(old(self).fleet(), old(self).sky()),
                old(self).fleet().len() as int,
            ) <= u32::MAX,
        ensures
            final(self).wf(),
            forall|i: int| 0 <= i < final(self).shots().len() ==> #[trigger] final(self).shots()[i].living(),
            forall|j: int| 0 <= j < final(self).fleet().len() ==> #[trigger] final(self).fleet()[j].living(),
            forall|id: MemberId| #[trigger] final(self).seats().contains(id) <==> {
                ||| final(self).heroine().living() && final(self).heroine().seat() == id && !unseatable(id)
                ||| exists|i: int| 0 <= i < final(self).shots().len() && #[trigger] final(self).shots()[i].seat() == id
                ||| exists|j: int| 0 <= j < final(self).fleet().len() && #[trigger] final(self).fleet()[j].seat() == id
            },
            r.0@.len() == old(self).fleet().len(),
            forall|k: int| 0 <= k < r.0@.len() ==> (#[trigger] r.0@[k] != Seating::Held <==> (in_game
                && old(self).fleet()[k].living() && volleys@[k] is Some)),
            r.1 == Seating::Held <==> lady_shot is None,
            r.2 == Seating::Held <==> arrival is None,
            final(self).shots().len() == old(self).sweep_keeps().len() + seated_count(r.0@) + if r.1
                == Seating::Seated {
                1int
            } else {
                0int
            },
            final(self).shots().subrange(0, old(self).sweep_keeps().len() as int) == old(self).sweep_keeps(),
            r.1 == Seating::Seated ==> final(self).shots().last().kind() == Type::FriendlyBullet,
            r.2 == Seating::Seated ==> final(self).fleet() == fleet_kept(
                old(self).fleet(),
                escapes(old(self).fleet(), old(self).sky()),
                old(self).fleet().len() as int,
            ).push(final(self).fleet().last()),
            r.2 != Seating::Seated ==> final(self).fleet() == fleet_kept(
                old(self).fleet(),
                escapes(old(self).fleet(), old(self).sky()),
                old(self).fleet().len() as int,
            ),
            final(self).points() == old(self).points() + fleet_points(
                old(self).fleet(),
                escapes(old(self).fleet(), old(self).sky()),
                old(self).fleet().len() as int,
            ),
            final(self).heroine() == old(self).heroine(),
            final(self).best() == old(self).best(),
    {
        let ghost before = *self;
        let outcomes = self.sweep_and_pass(in_game, volleys);
        let ghost passed = *self;
        let fired = match lady_shot {
            Some(description) => self.seat_shot(Type::FriendlyBullet, description),
            None => Seating::Held,
        };
        let ghost shot = *self;
        let spawned = match arrival {
            Some(description) => self.spawn_aircraft(description),
            None => Seating::Held,
        };
        proof {
            let kk = before.sweep_keeps().len() as int;
            assert(self.shots() == shot.shots());
            lemma_seated_count_nonneg(outcomes@);
            if fired == Seating::Seated {
                assert forall|k: int| 0 <= k < kk implies shot.shots()[k] == passed.shots()[k] by {
                    assert(shot.shots() == passed.shots().push(shot.shots().last()));
                }
                assert(shot.shots().subrange(0, kk) =~= passed.shots().subrange(0, kk));
                assert(shot.shots().last() == shot.shots()[passed.shots().len() as int]);
            }
            assert forall|i: int| 0 <= i < self.shots().len() implies #[trigger] self.shots()[i].living() by {
                if i < passed.shots().len() {
                    assert(self.shots()[i] == passed.shots()[i]);
                }
            }
            assert forall|j: int| 0 <= j < self.fleet().len() implies #[trigger] self.fleet()[j].living() by {
                if j < passed.fleet().len() {
                    assert(self.fleet()[j] == passed.fleet()[j]);
                }
            }
            self.lemma_seats_are_the_living();
            assert forall|id: MemberId| #[trigger] self.seats().contains(id) <==> {
                ||| self.heroine().living() && self.heroine().seat() == id && !unseatable(id)
                ||| exists|i: int| 0 <= i < self.shots().len() && #[trigger] self.shots()[i].seat() == id
                ||| exists|j: int| 0 <= j < self.fleet().len() && #[trigger] self.fleet()[j].seat() == id
            } by {
                if exists|i: int| 0 <= i < self.shots().len() && #[trigger] self.shots()[i].seat() == id {
                    let i = choose|i: int| 0 <= i < self.shots().len() && #[trigger] self.shots()[i].seat() == id;
                    assert(self.shots()[i].living());
                }
                if exists|j: int| 0 <= j < self.fleet().len() && #[trigger] self.fleet()[j].seat() == id {
                    let j = choose|j: int| 0 <= j < self.fleet().len() && #[trigger] self.fleet()[j].seat() == id;
                    assert(self.fleet()[j].living());
                }
            }
        }
        (outcomes, fired, spawned)
    }

    /// The points the pass over the aircraft would earn, the fight standing as it does: for each
    /// aircraft, [`craft_points`] with whether it has escaped ([`escapes`]). What the score must
    /// have room for before the pass.
    pub fn pass_points(&self) -> (p: u64)
        requires
            self.wf(),
        ensures
            p == fleet_points(self.fleet(), escapes(self.fleet(), self.sky()), self.fleet().len() as int),
    {
        let ghost flags = escapes(self.fleet(), self.sky());
        let n = self.aircraft.len();
        let mut total: u64 = 0;
        let mut k: usize = 0;
        while k < n
            invariant
                self.wf(),
                n == self.fleet().len(),
                flags == escapes(self.fleet(), self.sky()),
                0 <= k <= n,
                total == fleet_points(self.fleet(), flags, k as int),
                total <= 30 * k,
            decreases n - k,
        {
            let craft = self.aircraft.get(k);
            let gone = if craft.alive() {
                assert(self.fleet()[k as int].living());
                let b = bounds(&self.world, craft.member());
                assert(b == seat_bounds(self.sky(), craft.seat()));
                EnemyAircraft::outside(b)
            } else {
                false
            };
            assert(gone == flags[k as int]);
            let (_, bump) = Self::verdict(&craft, gone);
            total = total + bump as u64;
            k = k + 1;
        }
        total
    }

    /// [`fleet_kept`] and [`fleet_points`] over a prefix only read that prefix of the verdicts.
    proof fn lemma_fleet_prefix(fleet: Seq<EnemyAircraft>, out: Seq<bool>, n: int)
        requires
            0 <= n < out.len(),
        ensures
            fleet_kept(fleet, out, n) == fleet_kept(fleet, out.subrange(0, n), n),
            fleet_points(fleet, out, n) == fleet_points(fleet, out.subrange(0, n), n),
        decreases n,
    {
        if n > 0 {
            Self::lemma_fleet_prefix(fleet, out, n - 1);
            Self::lemma_fleet_prefix(fleet, out.subrange(0, n), n - 1);
            assert(out.subrange(0, n).subrange(0, n - 1) =~= out.subrange(0, n - 1));
        }
    }

    /// Where the lady's shot leaves from this update, if she fires: she is alive and seated, her
    /// cooldown has run out and the fire button is held. `None` when she holds her fire.
    pub fn lady_shot_origin(&self, cooled_down: bool, fire_held: bool) -> (origin: Option<(i32, i32)>)
        requires
            self.wf(),
        ensures
            origin is Some <==> fires(self.heroine().living(), cooled_down, false, fire_held)
                && self.seats().contains(self.heroine().seat()),
            origin matches Some(o) ==> o.0 == muzzle_of(
                pos_in(self.sky(), self.heroine().seat()),
                self.heroine().props(),
            ).0 && o.1 == muzzle_of(pos_in(self.sky(), self.heroine().seat()), self.heroine().props()).1,
    {
        if self.lady.wants_to_fire(cooled_down, fire_held) && seated(&self.world, self.lady.member()) {
            let pos = draw_pos(&self.world, self.lady.member());
            let o = self.lady.muzzle(pos);
            assert(o.0 == muzzle_of(pos, self.heroine().props()).0);
            Some(o)
        } else {
            None
        }
    }

    /// Where the `j`th aircraft's shot leaves from this update, if it fires: it is alive and its
    /// cooldown has run out (an aircraft fires whenever it can). `None` when it holds its fire.
    pub fn aircraft_shot_origin(&self, j: usize, cooled_down: bool) -> (origin: Option<(i32, i32)>)
        requires
            self.wf(),
            j < self.fleet().len(),
        ensures
            origin is Some <==> fires(self.fleet()[j as int].living(), cooled_down, true, false),
            origin matches Some(o) ==> o.0 == muzzle_of(
                pos_in(self.sky(), self.fleet()[j as int].seat()),
                self.fleet()[j as int].props(),
            ).0 && o.1 == muzzle_of(
                pos_in(self.sky(), self.fleet()[j as int].seat()),
                self.fleet()[j as int].props(),
            ).1,
    {
        let craft = self.aircraft.get(j);
        if craft.wants_to_fire(cooled_down, false) {
            let pos = draw_pos(&self.world, craft.member());
            let o = craft.muzzle(pos);
            assert(o.0 == muzzle_of(pos, craft.props()).0);
            Some(o)
        } else {
            None
        }
    }

    /// Where the lady draws: her seat's position while she is seated, where she died once she is
    /// dead. The position every aircraft chases.
    pub fn protagonist_pos(&self) -> (p: Position)
        ensures
            !(self.heroine().living() && self.seats().contains(self.heroine().seat())) ==> p.x
                == self.heroine().spot().0 && p.y == self.heroine().spot().1,
            self.heroine().living() && self.seats().contains(self.heroine().seat()) ==> p.x == pos_in(
                self.sky(),
                self.heroine().seat(),
            ).0 && p.y == pos_in(self.sky(), self.heroine().seat()).1,
    {
        Position::from(self.lady.draw_pos(&self.world))
    }

    /// Which way the lady is flown this update (see [`TheLady::heading`]), or `None` when she is
    /// dead or not seated, and nothing about her is to be touched.
    pub fn lady_heading(&self, in_game: bool, buttons: u8) -> (d: Option<(i8, i8)>)
        ensures
            d is Some ==> self.heroine().living() && self.seats().contains(self.heroine().seat()),
            self.heroine().living() && self.seats().contains(self.heroine().seat()) && !in_game ==> d
                == Some((0i8, 0i8)),
            self.heroine().living() && self.seats().contains(self.heroine().seat()) && in_game ==> (d matches Some(h)
                && h.0 == flight_of(buttons, seat_bounds(self.sky(), self.heroine().seat())).0 && h.1
                == flight_of(buttons, seat_bounds(self.sky(), self.heroine().seat())).1),
            !self.heroine().living() ==> d is None,
    {
        if self.lady.alive() && seated(&self.world, self.lady.member()) {
            let b = bounds(&self.world, self.lady.member());
            let d = self.lady.heading(in_game, buttons, b);
            assert(in_game ==> flight_of(buttons, b).0 == d.unwrap().0);
            d
        } else {
            None
        }
    }

    /// Writes what the lady means to travel at this update into her seat, if she is alive and
    /// holds one: she then travels at `velocity`, and everybody else the world holds keeps their
    /// own. Steering moves nobody: every member still draws where it did, covers the rectangle it
    /// did and keeps what its last step met. A dead or unseated lady is not steered at all.
    pub fn steer_lady(&mut self, velocity: Velocity)
        requires
            old(self).wf(),
        ensures
            final(self).wf(),
            old(self).heroine().living() && old(self).seats().contains(old(self).heroine().seat())
                ==> final(self).velocity_of(old(self).heroine().seat()) == velocity,
            forall|id: MemberId|
                #![trigger final(self).velocity_of(id)]
                old(self).seats().contains(id) && id != old(self).heroine().seat() ==> final(self).velocity_of(id)
                    == old(self).velocity_of(id),
            forall|id: MemberId|
                #![trigger pos_in(final(self).sky(), id)]
                #![trigger bounds_in(final(self).sky(), id)]
                #![trigger touched_in(final(self).sky(), id)]
                old(self).seats().contains(id) ==> pos_in(final(self).sky(), id) == pos_in(old(self).sky(), id)
                    && bounds_in(final(self).sky(), id) == bounds_in(old(self).sky(), id)
                    && touched_in(final(self).sky(), id) == touched_in(old(self).sky(), id),
            !(old(self).heroine().living() && old(self).seats().contains(old(self).heroine().seat()))
                ==> final(self).sky() == old(self).sky(),
            final(self).seats() == old(self).seats(),
            final(self).shots() == old(self).shots(),
            final(self).fleet() == old(self).fleet(),
            final(self).heroine() == old(self).heroine(),
            final(self).points() == old(self).points(),
            final(self).best() == old(self).best(),
    {
        let ghost before = *self;
        if self.lady.alive() && seated(&self.world, self.lady.member()) {
            set_velocity(&mut self.world, self.lady.member(), velocity);
        }
        proof {
            Self::lemma_wf_kept(before, *self);
        }
    }

    /// Which way the `j`th aircraft heads this update, chasing the lady at `lady_x` (see
    /// [`EnemyAircraft::heading`]), or `None` when it is dead.
    pub fn aircraft_heading(&self, j: usize, in_game: bool, lady_x: i16) -> (d: Option<(i8, i8)>)
        requires
            self.wf(),
            j < self.fleet().len(),
        ensures
            d is Some <==> self.fleet()[j as int].living(),
            d matches Some(h) ==> h.0 == heading_of(
                in_game,
                pos_in(self.sky(), self.fleet()[j as int].seat()).0,
                lady_x,
            ).0 && h.1 == heading_of(in_game, pos_in(self.sky(), self.fleet()[j as int].seat()).0, lady_x).1,
    {
        let craft = self.aircraft.get(j);
        if craft.alive() {
            let (x, _) = draw_pos(&self.world, craft.member());
            let h = EnemyAircraft::heading(in_game, x, lady_x);
            assert(h.0 == heading_of(in_game, x, lady_x).0);
            Some(h)
        } else {
            None
        }
    }

    /// Writes what the `j`th aircraft means to travel at this update into its seat, if it is
    /// alive: it then travels at `velocity`, and everybody else the world holds keeps their own.
    /// Steering moves nobody: every member still draws where it did, covers the rectangle it did
    /// and keeps what its last step met. A dead aircraft is not steered at all.
    pub fn steer_aircraft(&mut self, j: usize, velocity: Velocity)
        requires
            old(self).wf(),
            j < old(self).fleet().len(),
        ensures
            final(self).wf(),
            old(self).fleet()[j as int].living() ==> final(self).velocity_of(
                old(self).fleet()[j as int].seat(),
            ) == velocity,
            forall|id: MemberId|
                #![trigger final(self).velocity_of(id)]
                old(self).seats().contains(id) && id != old(self).fleet()[j as int].seat() ==> final(self).velocity_of(id)
                    == old(self).velocity_of(id),
            forall|id: MemberId|
                #![trigger pos_in(final(self).sky(), id)]
                #![trigger bounds_in(final(self).sky(), id)]
                #![trigger touched_in(final(self).sky(), id)]
                old(self).seats().contains(id) ==> pos_in(final(self).sky(), id) == pos_in(old(self).sky(), id)
                    && bounds_in(final(self).sky(), id) == bounds_in(old(self).sky(), id)
                    && touched_in(final(self).sky(), id) == touched_in(old(self).sky(), id),
            !old(self).fleet()[j as int].living() ==> final(self).sky() == old(self).sky(),
            final(self).seats() == old(self).seats(),
            final(self).shots() == old(self).shots(),
            final(self).fleet() == old(self).fleet(),
            final(self).heroine() == old(self).heroine(),
            final(self).points() == old(self).points(),
            final(self).best() == old(self).best(),
    {
        let ghost before = *self;
        let craft = self.aircraft.get(j);
        if craft.alive() {
            set_velocity(&mut self.world, craft.member(), velocity);
        }
        proof {
            Self::lemma_wf_kept(before, *self);
        }
    }

    /// Moves the whole cast one update: the world takes everybody where they meant to go and
    /// writes down what each of them met. Nobody is seated or retired by it. Where everybody ends
    /// up and what each meets is the console's physics over its own map and sprite sheet, which
    /// the arguments do not settle, and is not stated.
    pub fn step(&mut self, ctx: &Context)
        requires
            old(self).wf(),
        ensures
            final(self).wf(),
            final(self).seats() == old(self).seats(),
            final(self).shots() == old(self).shots(),
            final(self).fleet() == old(self).fleet(),
            final(self).heroine() == old(self).heroine(),
            final(self).points() == old(self).points(),
            final(self).best() == old(self).best(),
    {
        let ghost before = *self;
        step(&mut self.world, ctx);
        proof {
            Self::lemma_wf_kept(before, *self);
        }
    }

    /// The lady.
    pub fn lady(&self) -> (l: TheLady)
        ensures
            l == self.heroine(),
    {
        self.lady
    }

    /// How many shots are on the list.
    pub fn bullet_count(&self) -> (n: usize)
        ensures
            n == self.shots().len(),
    {
        self.bullets.len()
    }

    /// The `i`th shot on the list.
    pub fn bullet(&self, i: usize) -> (b: Bullet)
        requires
            i < self.shots().len(),
        ensures
            b == self.shots()[i as int],
    {
        self.bullets.get(i)
    }

    /// How many aircraft are on the list.
    pub fn aircraft_count(&self) -> (n: usize)
        ensures
            n == self.fleet().len(),
    {
        self.aircraft.len()
    }

    /// The `j`th aircraft on the list.
    pub fn aircraft(&self, j: usize) -> (a: EnemyAircraft)
        requires
            j < self.fleet().len(),
        ensures
            a == self.fleet()[j as int],
    {
        self.aircraft.get(j)
    }

    /// The rectangle `id` covers, if the world holds it: what it is drawn into.
    pub fn bounds_of(&self, id: MemberId) -> (b: Option<Bounds>)
        ensures
            b is Some <==> self.seats().contains(id),
            b matches Some(r) ==> r == seat_bounds(self.sky(), id),
    {
        if seated(&self.world, id) {
            Some(bounds(&self.world, id))
        } else {
            None
        }
    }

    /// The seats the world holds are exactly the seats of the living: of every live shot and
    /// every live aircraft on the lists, and of the lady while she is alive and has been seated —
    /// no seat is orphaned, and nobody alive is without one.
    pub proof fn lemma_seats_are_the_living(self)
        requires
            self.wf(),
        ensures
            forall|id: MemberId| #[trigger] self.seats().contains(id) <==> {
                ||| self.heroine().living() && self.heroine().seat() == id && !unseatable(id)
                ||| exists|i: int| 0 <= i < self.shots().len() && #[trigger] self.shots()[i].living()
                    && self.shots()[i].seat() == id
                ||| exists|j: int| 0 <= j < self.fleet().len() && #[trigger] self.fleet()[j].living()
                    && self.fleet()[j].seat() == id
            },
    {
        assert forall|id: MemberId| #[trigger] self.seats().contains(id) implies !unseatable(id) by {
            assert(!(forall|w: Sky| !cast_of(w).contains(id)) ) by {
                assert(cast_of(self.world).contains(id));
            }
        }
    }

    /// The sky is sized for the lists: the world never holds more members than the lady, the
    /// shots on the list and the aircraft on the list, so while either list has room there is a
    /// seat for one more on it.
    pub proof fn lemma_seats_within_lists(self)
        requires
            self.wf(),
        ensures
            self.seats().len() <= 1 + self.shots().len() + self.fleet().len(),
            self.shots().len() < MAX_BULLETS ==> self.seats().len() < MAX_CAST,
            self.fleet().len() < MAX_ENEMY_AIRCRAFTS ==> self.seats().len() < MAX_CAST,
    {
        let shot_seats = self.shots().map_values(|b: Bullet| b.seat()).to_set();
        let craft_seats = self.fleet().map_values(|a: EnemyAircraft| a.seat()).to_set();
        let lady_seat = Set::<MemberId>::empty().insert(self.heroine().seat());
        self.shots().map_values(|b: Bullet| b.seat()).lemma_cardinality_of_set();
        self.fleet().map_values(|a: EnemyAircraft| a.seat()).lemma_cardinality_of_set();
        vstd::seq_lib::seq_to_set_is_finite(self.shots().map_values(|b: Bullet| b.seat()));
        vstd::seq_lib::seq_to_set_is_finite(self.fleet().map_values(|a: EnemyAircraft| a.seat()));
        vstd::set_lib::lemma_len_union(lady_seat, shot_seats);
        vstd::set_lib::lemma_len_union(lady_seat.union(shot_seats), craft_seats);
        let all = lady_seat.union(shot_seats).union(craft_seats);
        assert forall|id: MemberId| #[trigger] self.seats().contains(id) implies all.contains(id) by {
            assert(self.owned(id));
            if exists|i: int| 0 <= i < self.shots().len() && #[trigger] self.shots()[i].living()
                && self.shots()[i].seat() == id {
                let i = choose|i: int| 0 <= i < self.shots().len() && #[trigger] self.shots()[i].living()
                    && self.shots()[i].seat() == id;
                assert(self.shots().map_values(|b: Bullet| b.seat())[i] == id);
                assert(shot_seats.contains(id));
            } else if exists|j: int| 0 <= j < self.fleet().len() && #[trigger] self.fleet()[j].living()
                && self.fleet()[j].seat() == id {
                let j = choose|j: int| 0 <= j < self.fleet().len() && #[trigger] self.fleet()[j].living()
                    && self.fleet()[j].seat() == id;
                assert(self.fleet().map_values(|a: EnemyAircraft| a.seat())[j] == id);
                assert(craft_seats.contains(id));
            }
        }
        vstd::set_lib::lemma_len_subset(self.seats(), all);
    }

    /// An attempt to start a game: with the O button down, a new run ([`Cast::restart`], the
    /// lady seated as `lady` describes her); otherwise nothing happens. Says whether a run started.
    pub fn start(&mut self, o_down: bool, lady: MemberBuilder) -> (started: bool)
        requires
            old(self).wf(),
        ensures
            final(self).wf(),
            started == o_down,
            !o_down ==> *final(self) == *old(self),
            o_down ==> {
                &&& final(self).seats() == Set::<MemberId>::empty().insert(final(self).heroine().seat())
                &&& final(self).heroine().living()
                &&& final(self).shots() == Seq::<Bullet>::empty()
                &&& final(self).fleet() == Seq::<EnemyAircraft>::empty()
                &&& final(self).points() == 0
                &&& final(self).best() == old(self).best()
            },
    {
        if !o_down {
            return false;
        }
        self.restart(lady);
        true
    }

    /// The score so far.
    pub fn score(&self) -> (s: u32)
        ensures
            s == self.points(),
    {
        self.score
    }

    /// The best score seen.
    pub fn high_score(&self) -> (s: u32)
        ensures
            s == self.best(),
    {
        self.high_score
    }

    /// The game is over: the best score becomes this run's, if this run beat it. Says whether it
    /// did, which is when the best score is worth storing.
    pub fn end_game(&mut self) -> (beaten: bool)
        requires
            old(self).wf(),
        ensures
            final(self).wf(),
            beaten == (old(self).points() > old(self).best()),
            final(self).best() == if beaten { old(self).points() } else { old(self).best() },
            final(self).points() == old(self).points(),
            final(self).seats() == old(self).seats(),
            final(self).shots() == old(self).shots(),
            final(self).fleet() == old(self).fleet(),
            final(self).heroine() == old(self).heroine(),
    {
        if self.score > self.high_score {
            self.high_score = self.score;
            proof {
                Self::lemma_wf_kept(*old(self), *self);
            }
            true
        } else {
            false
        }
    }
}

} // verus!
