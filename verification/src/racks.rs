//! The fixed-capacity lists the game keeps its shots and its aircraft in: `heapless` vectors,
//! each held privately and reached through the trusted items below. What is modelled of each is
//! the sequence it holds, in order.

use vstd::prelude::*;

use crate::bullet::Bullet;
use crate::enemy_aircraft::EnemyAircraft;
use crate::explosion::{burned, Spark, MAX_SPARKS};
use crate::{MAX_BULLETS, MAX_ENEMY_AIRCRAFTS};

verus! {

/// Every shot either side has in flight: a `heapless::Vec` of [`MAX_BULLETS`].
#[verifier::external_body]
pub struct Bullets {
    rack: heapless::Vec<Bullet, MAX_BULLETS>,
}

/// The shots a [`Bullets`] holds, in order.
pub uninterp spec fn bullets_in(rack: Bullets) -> Seq<Bullet>;

impl Bullets {
    /// `heapless::Vec::new`. Claimed: it holds nothing.
    #[verifier::external_body]
    pub(crate) fn new() -> (r: Self)
        ensures
            bullets_in(r) == Seq::<Bullet>::empty(),
    {
        Bullets { rack: heapless::Vec::new() }
    }

    /// `heapless::Vec::len`. Claimed: how many it holds, never more than its capacity.
    #[verifier::external_body]
    pub(crate) fn len(&self) -> (n: usize)
        ensures
            n == bullets_in(*self).len(),
            n <= MAX_BULLETS,
    {
        self.rack.len()
    }

    /// Indexing (through the slice it derefs to). Claimed: the shot at `i`.
    #[verifier::external_body]
    pub(crate) fn get(&self, i: usize) -> (b: Bullet)
        requires
            i < bullets_in(*self).len(),
        ensures
            b == bullets_in(*self)[i as int],
    {
        self.rack[i]
    }

    /// Index assignment (through the slice it derefs to). Claimed: the shot at `i` is replaced
    /// and nothing else changes.
    #[verifier::external_body]
    pub(crate) fn set(&mut self, i: usize, b: Bullet)
        requires
            i < bullets_in(*old(self)).len(),
        ensures
            bullets_in(*final(self)) == bullets_in(*old(self)).update(i as int, b),
    {
        self.rack[i] = b;
    }

    /// `heapless::Vec::push`. Claimed: appended when there is room, handed back untouched when it
    /// is full.
    #[verifier::external_body]
    pub(crate) fn push(&mut self, b: Bullet) -> (r: Result<(), Bullet>)
        ensures
            bullets_in(*old(self)).len() < MAX_BULLETS ==> r is Ok && bullets_in(*final(self))
                == bullets_in(*old(self)).push(b),
            bullets_in(*old(self)).len() >= MAX_BULLETS ==> (r matches Err(back) && back == b),
            bullets_in(*old(self)).len() >= MAX_BULLETS ==> bullets_in(*final(self)) == bullets_in(
                *old(self),
            ),
    {
        self.rack.push(b)
    }

    /// `heapless::Vec::remove`. Claimed: the shot at `i` is taken out and handed back, the ones
    /// after it closing up in order.
    #[verifier::external_body]
    pub(crate) fn remove(&mut self, i: usize) -> (b: Bullet)
        requires
            i < bullets_in(*old(self)).len(),
        ensures
            b == bullets_in(*old(self))[i as int],
            bullets_in(*final(self)) == bullets_in(*old(self)).remove(i as int),
    {
        self.rack.remove(i)
    }

    /// `heapless::Vec::clear`. Claimed: it holds nothing afterwards.
    #[verifier::external_body]
    pub(crate) fn clear(&mut self)
        ensures
            bullets_in(*final(self)) == Seq::<Bullet>::empty(),
    {
        self.rack.clear()
    }
}

/// Every enemy aircraft in the air: a `heapless::Vec` of [`MAX_ENEMY_AIRCRAFTS`].
#[verifier::external_body]
pub struct Squadron {
    rack: heapless::Vec<EnemyAircraft, MAX_ENEMY_AIRCRAFTS>,
}

/// The aircraft a [`Squadron`] holds, in order.
pub uninterp spec fn aircraft_in(rack: Squadron) -> Seq<EnemyAircraft>;

impl Squadron {
    /// `heapless::Vec::new`. Claimed: it holds nothing.
    #[verifier::external_body]
    pub(crate) fn new() -> (r: Self)
        ensures
            aircraft_in(r) == Seq::<EnemyAircraft>::empty(),
    {
        Squadron { rack: heapless::Vec::new() }
    }

    /// `heapless::Vec::len`. Claimed: how many it holds, never more than its capacity.
    #[verifier::external_body]
    pub(crate) fn len(&self) -> (n: usize)
        ensures
            n == aircraft_in(*self).len(),
            n <= MAX_ENEMY_AIRCRAFTS,
    {
        self.rack.len()
    }

    /// Indexing (through the slice it derefs to). Claimed: the aircraft at `i`.
    #[verifier::external_body]
    pub(crate) fn get(&self, i: usize) -> (a: EnemyAircraft)
        requires
            i < aircraft_in(*self).len(),
        ensures
            a == aircraft_in(*self)[i as int],
    {
        self.rack[i]
    }

    /// Index assignment (through the slice it derefs to). Claimed: the aircraft at `i` is
    /// replaced and nothing else changes.
    #[verifier::external_body]
    pub(crate) fn set(&mut self, i: usize, a: EnemyAircraft)
        requires
            i < aircraft_in(*old(self)).len(),
        ensures
            aircraft_in(*final(self)) == aircraft_in(*old(self)).update(i as int, a),
    {
        self.rack[i] = a;
    }

    /// `heapless::Vec::push`. Claimed: appended when there is room, handed back untouched when it
    /// is full.
    #[verifier::external_body]
    pub(crate) fn push(&mut self, a: EnemyAircraft) -> (r: Result<(), EnemyAircraft>)
        ensures
            aircraft_in(*old(self)).len() < MAX_ENEMY_AIRCRAFTS ==> r is Ok && aircraft_in(
                *final(self),
            ) == aircraft_in(*old(self)).push(a),
            aircraft_in(*old(self)).len() >= MAX_ENEMY_AIRCRAFTS ==> (r matches Err(back) && back
                == a),
            aircraft_in(*old(self)).len() >= MAX_ENEMY_AIRCRAFTS ==> aircraft_in(*final(self))
                == aircraft_in(*old(self)),
    {
        self.rack.push(a)
    }

    /// `heapless::Vec::remove`. Claimed: the aircraft at `i` is taken out and handed back, the
    /// ones after it closing up in order.
    #[verifier::external_body]
    pub(crate) fn remove(&mut self, i: usize) -> (a: EnemyAircraft)
        requires
            i < aircraft_in(*old(self)).len(),
        ensures
            a == aircraft_in(*old(self))[i as int],
            aircraft_in(*final(self)) == aircraft_in(*old(self)).remove(i as int),
    {
        self.rack.remove(i)
    }

    /// `heapless::Vec::clear`. Claimed: it holds nothing afterwards.
    #[verifier::external_body]
    pub(crate) fn clear(&mut self)
        ensures
            aircraft_in(*final(self)) == Seq::<EnemyAircraft>::empty(),
    {
        self.rack.clear()
    }
}

/// The sparks of one explosion: a `heapless::Vec` of [`MAX_SPARKS`].
#[verifier::external_body]
pub struct Sparks {
    rack: heapless::Vec<Spark, MAX_SPARKS>,
}

/// The sparks a [`Sparks`] holds, in order.
pub uninterp spec fn sparks_in(rack: Sparks) -> Seq<Spark>;

impl Sparks {
    /// `heapless::Vec::new`. Claimed: it holds nothing.
    #[verifier::external_body]
    pub(crate) fn new() -> (r: Self)
        ensures
            sparks_in(r) == Seq::<Spark>::empty(),
    {
        Sparks { rack: heapless::Vec::new() }
    }

    /// `heapless::Vec::len`. Claimed: how many it holds, never more than its capacity.
    #[verifier::external_body]
    pub(crate) fn len(&self) -> (n: usize)
        ensures
            n == sparks_in(*self).len(),
            n <= MAX_SPARKS,
    {
        self.rack.len()
    }

    /// Indexing (through the slice it derefs to). Claimed: the spark at `i`.
    #[verifier::external_body]
    pub(crate) fn get(&self, i: usize) -> (s: Spark)
        requires
            i < sparks_in(*self).len(),
        ensures
            s == sparks_in(*self)[i as int],
    {
        self.rack[i]
    }

    /// `heapless::Vec::push`. Claimed: appended when there is room, handed back untouched when it
    /// is full.
    #[verifier::external_body]
    pub(crate) fn push(&mut self, s: Spark) -> (r: Result<(), Spark>)
        ensures
            sparks_in(*old(self)).len() < MAX_SPARKS ==> r is Ok && sparks_in(*final(self)) == sparks_in(
                *old(self),
            ).push(s),
            sparks_in(*old(self)).len() >= MAX_SPARKS ==> (r matches Err(back) && back == s),
            sparks_in(*old(self)).len() >= MAX_SPARKS ==> sparks_in(*final(self)) == sparks_in(
                *old(self),
            ),
    {
        self.rack.push(s)
    }

    /// `heapless::Vec::retain_mut`, handed [`Spark::advance`]: every spark is visited once, in
    /// order, advanced, and kept only if it still shows. Claimed: what is left is [`burned`] of
    /// what was there (the vector keeps the order of what it retains).
    #[verifier::external_body]
    pub(crate) fn burn(&mut self)
        requires
            forall|k: int| 0 <= k < sparks_in(*old(self)).len() ==> #[trigger] sparks_in(*old(self))[k].wf(),
        ensures
            sparks_in(*final(self)) == burned(sparks_in(*old(self))),
    {
        self.rack.retain_mut(|spark| spark.advance())
    }
}

} // verus!
