//! A burst of sparks where something died: fifty of them flung out from one point, each drifting
//! at its own pace and shrinking until it is gone.
//!
//! All spatial values are fixed-point sub-pixel units, [`SUBPIXELS`] to the pixel: most sparks
//! move less than a pixel an update, so whole-pixel positions would truncate their movement to
//! nothing and they would never leave the centre.

use vstd::prelude::*;
use pixel8::Context;

use crate::common::Position;
use crate::console::random_integer;
use crate::racks::{sparks_in, Sparks};

verus! {

/// How many sparks one explosion throws.
pub const MAX_SPARKS: usize = 50;

/// Sub-pixel units to the pixel.
pub const SUBPIXELS: i32 = 32;

/// A spark's mass lies in `[MIN_MASS, MAX_MASS)` and its starting radius in
/// `[MIN_RADIUS, MAX_RADIUS)`, both in sub-pixel units; its radius shrinks by
/// `RADIUS_SHRINK_SPEED` an update.
/// (Half a pixel, two and a half, half a pixel and one and a half.)
pub const MIN_MASS: i32 = 16;
pub const MAX_MASS: i32 = 80;
pub const MIN_RADIUS: i32 = 16;
pub const MAX_RADIUS: i32 = 48;
pub const RADIUS_SHRINK_SPEED: u8 = 3;

/// The most a spark can move on either axis in one update, in sub-pixel units.
pub const MAX_STEP: i32 = 64;

/// The most updates a spark can live: one spawned at the largest radius.
pub const MAX_LIFE: u8 = 16;

/// The furthest from the origin, on either axis and in pixels, that an explosion can be centred
/// and have every spark stay inside the range its sub-pixel position is kept in for all the
/// updates it lives, whatever steps it drew.
pub const MAX_CENTRE: i16 = 991;

/// The most a spark may be flung from on either axis, in pixels: the furthest point whose
/// sub-pixel position still fits the range the position is kept in. A spark flung from beyond
/// [`MAX_CENTRE`] may be carried out of that range by the updates it has left.
pub const MAX_ORIGIN: i16 = 1023;

/// A single spark: where it is, what it moves by each update, and how big it still is.
#[derive(Debug, Clone, Copy, PartialEq, Eq, Structural)]
pub struct Spark {
    pub x: i16,
    pub y: i16,
    pub x_step: i8,
    pub y_step: i8,
    pub radius: u8,
}

/// How many more updates a spark of `radius` stays alive, shrinking by [`RADIUS_SHRINK_SPEED`]
/// each: until its radius reaches nothing.
pub open spec fn life(radius: int) -> int {
    (radius + 2) / 3
}

pub open spec fn abs(v: int) -> int {
    if v < 0 {
        -v
    } else {
        v
    }
}

/// What an update makes of a spark: moved by its steps, and shrunk (never below nothing).
pub open spec fn advanced(s: Spark) -> Spark {
    Spark {
        x: (s.x + s.x_step) as i16,
        y: (s.y + s.y_step) as i16,
        x_step: s.x_step,
        y_step: s.y_step,
        radius: if s.radius >= RADIUS_SHRINK_SPEED {
            (s.radius - RADIUS_SHRINK_SPEED) as u8
        } else {
            0
        },
    }
}

/// Whether a spark is still showing.
pub open spec fn glowing(s: Spark) -> bool {
    s.radius > 0
}

/// What an update makes of a list of sparks: every one advanced, and the ones that shrank to
/// nothing dropped, the rest in order.
pub open spec fn burned(sparks: Seq<Spark>) -> Seq<Spark> {
    sparks.map_values(|s: Spark| advanced(s)).filter(|s: Spark| glowing(s))
}

impl Spark {
    /// A spark that is still showing, whose steps are within [`MAX_STEP`], and which every update
    /// left in its life (each moving it by its steps, the last one included) keeps inside the
    /// range of its coordinates.
    pub open spec fn wf(self) -> bool {
        &&& self.radius > 0
        &&& -MAX_STEP <= self.x_step <= MAX_STEP
        &&& -MAX_STEP <= self.y_step <= MAX_STEP
        &&& i16::MIN <= self.x + life(self.radius as int) * self.x_step <= i16::MAX
        &&& i16::MIN <= self.y + life(self.radius as int) * self.y_step <= i16::MAX
    }

    /// Whether this spark can keep burning: [`Spark::wf`], computed.
    pub fn fits(&self) -> (r: bool)
        ensures
            r == self.wf(),
    {
        if self.radius == 0 || (self.x_step as i32) < -MAX_STEP || (self.x_step as i32) > MAX_STEP
            || (self.y_step as i32) < -MAX_STEP || (self.y_step as i32) > MAX_STEP {
            return false;
        }
        let l: i32 = (self.radius as i32 + 2) / 3;
        assert(l == life(self.radius as int));
        assert(0 <= l <= 86);
        proof {
            lemma_bounded_product(l as int, self.x_step as int);
            lemma_bounded_product(l as int, self.y_step as int);
        }
        let dx: i32 = l * (self.x_step as i32);
        let dy: i32 = l * (self.y_step as i32);
        let ex: i32 = self.x as i32 + dx;
        let ey: i32 = self.y as i32 + dy;
        ex >= i16::MIN as i32 && ex <= i16::MAX as i32 && ey >= i16::MIN as i32 && ey <= i16::MAX as i32
    }

    /// A spark flung from `pos` with `x_step`, `y_step` and `radius` drawn for it.
    pub fn from_draws(pos: Position, x_step: i8, y_step: i8, radius: u8) -> (s: Self)
        requires
            -MAX_ORIGIN <= pos.x <= MAX_ORIGIN,
            -MAX_ORIGIN <= pos.y <= MAX_ORIGIN,
            -MAX_STEP <= x_step <= MAX_STEP,
            -MAX_STEP <= y_step <= MAX_STEP,
            MIN_RADIUS <= radius < MAX_RADIUS,
        ensures
            s == (Spark {
                x: (pos.x * SUBPIXELS) as i16,
                y: (pos.y * SUBPIXELS) as i16,
                x_step,
                y_step,
                radius,
            }),
            -MAX_CENTRE <= pos.x <= MAX_CENTRE && -MAX_CENTRE <= pos.y <= MAX_CENTRE ==> s.wf(),
            life(s.radius as int) <= MAX_LIFE,
    {
        let s = Spark {
            x: pos.x * (SUBPIXELS as i16),
            y: pos.y * (SUBPIXELS as i16),
            x_step,
            y_step,
            radius,
        };
        proof {
            let l = life(radius as int);
            assert(1 <= l <= MAX_LIFE);
            lemma_path_within(l, x_step as int);
            lemma_path_within(l, y_step as int);
        }
        s
    }

    /// A spark flung from `pos`, its steps and its radius drawn from the console's random
    /// sequence.
    pub fn new(pos: Position, ctx: &mut Context) -> (s: Self)
        requires
            -MAX_ORIGIN <= pos.x <= MAX_ORIGIN,
            -MAX_ORIGIN <= pos.y <= MAX_ORIGIN,
        ensures
            -MAX_CENTRE <= pos.x <= MAX_CENTRE && -MAX_CENTRE <= pos.y <= MAX_CENTRE ==> s.wf(),
            s.x == pos.x * SUBPIXELS,
            s.y == pos.y * SUBPIXELS,
            MIN_RADIUS <= s.radius < MAX_RADIUS,
            drawn_step(s.x_step as int),
            drawn_step(s.y_step as int),
            life(s.radius as int) <= MAX_LIFE,
    {
        let x_step = random_step(ctx);
        let y_step = random_step(ctx);
        let radius = random_integer(ctx, MIN_RADIUS, MAX_RADIUS) as u8;
        Self::from_draws(pos, x_step, y_step, radius)
    }

    /// One update of the spark: it moves by its steps and shrinks. Whether it is still showing.
    pub fn advance(&mut self) -> (showing: bool)
        requires
            old(self).wf(),
        ensures
            *final(self) == advanced(*old(self)),
            showing == glowing(*final(self)),
            showing ==> final(self).wf(),
            showing ==> life(final(self).radius as int) == life(old(self).radius as int) - 1,
    {
        proof {
            lemma_advance_keeps(*self);
        }
        self.x = self.x + self.x_step as i16;
        self.y = self.y + self.y_step as i16;
        self.radius = self.radius.saturating_sub(RADIUS_SHRINK_SPEED);
        self.radius > 0
    }

    /// Where the spark is drawn, in whole pixels, and how big: a filled circle.
    pub fn circle(&self) -> (c: (i16, i16, u16))
        ensures
            c.0 == trunc_div(self.x as int, SUBPIXELS as int),
            c.1 == trunc_div(self.y as int, SUBPIXELS as int),
            c.2 == self.radius / 32,
    {
        let x = self.x / (SUBPIXELS as i16);
        let y = self.y / (SUBPIXELS as i16);
        let radius = (self.radius / (SUBPIXELS as u8)) as u16;
        (x, y, radius)
    }
}

/// Division rounding towards zero, as the machine does it.
pub open spec fn trunc_div(a: int, b: int) -> int {
    if a >= 0 {
        a / b
    } else {
        -((-a) / b)
    }
}

/// The step one spark takes per update for a velocity of `velocity` and a mass of `mass`, both
/// in sub-pixel units: `velocity / mass` pixels, in sub-pixel units, rounded towards zero.
pub open spec fn step_of(velocity: int, mass: int) -> int {
    trunc_div(velocity * SUBPIXELS, mass)
}

/// [`step_of`], computed, for a velocity in `[-SUBPIXELS, SUBPIXELS)` and a mass in
/// `[MIN_MASS, MAX_MASS)`: never more than [`MAX_STEP`] either way.
pub fn step_from_draws(velocity: i32, mass: i32) -> (step: i8)
    requires
        -SUBPIXELS <= velocity < SUBPIXELS,
        MIN_MASS <= mass < MAX_MASS,
    ensures
        step == step_of(velocity as int, mass as int),
        -MAX_STEP <= step <= MAX_STEP,
{
    let scaled = velocity * SUBPIXELS;
    assert(-1024 <= scaled <= 1024);
    let q: i32 = if scaled >= 0 {
        let q = scaled / mass;
        assert(q <= 64) by (nonlinear_arith)
            requires
                0 <= scaled <= 1024,
                16 <= mass,
                q == scaled / mass,
        ;
        q
    } else {
        let neg: i32 = 0 - scaled;
        let q = neg / mass;
        assert(q <= 64) by (nonlinear_arith)
            requires
                0 <= neg <= 1024,
                16 <= mass,
                q == neg / mass,
        ;
        0 - q
    };
    q as i8
}

/// Whether `step` is one a spark can draw: [`step_of`] a velocity in `[-SUBPIXELS, SUBPIXELS)`
/// and a mass in `[MIN_MASS, MAX_MASS)`.
pub open spec fn drawn_step(step: int) -> bool {
    exists|velocity: int, mass: int|
        -SUBPIXELS <= velocity < SUBPIXELS && MIN_MASS <= mass < MAX_MASS && step == #[trigger] step_of(
            velocity,
            mass,
        )
}

/// A random per-update step: a velocity drawn from `[-1, 1)` pixels and a mass from
/// `[0.5, 2.5)`, both in sub-pixel units, and [`step_of`] them. Which velocity and mass are
/// drawn is chance; the step is [`step_of`] some pair in those ranges.
pub fn random_step(ctx: &mut Context) -> (step: i8)
    ensures
        drawn_step(step as int),
        -MAX_STEP <= step <= MAX_STEP,
{
    let velocity = random_integer(ctx, -SUBPIXELS, SUBPIXELS);
    let mass = random_integer(ctx, MIN_MASS, MAX_MASS);
    let step = step_from_draws(velocity, mass);
    assert(step == step_of(velocity as int, mass as int));
    step
}

/// A burst of sparks.
pub struct Explosion {
    sparks: Sparks,
}

impl Explosion {
    /// The sparks still showing, in order.
    pub closed spec fn sparks(self) -> Seq<Spark> {
        sparks_in(self.sparks)
    }

    /// Every spark is one [`Spark::wf`] says can keep burning, and there are no more than
    /// [`MAX_SPARKS`] of them.
    pub open spec fn wf(self) -> bool {
        &&& self.sparks().len() <= MAX_SPARKS
        &&& forall|k: int| 0 <= k < self.sparks().len() ==> #[trigger] self.sparks()[k].wf()
    }

    /// Every spark has at most `updates` updates left to live.
    pub open spec fn lives_within(self, updates: int) -> bool {
        forall|k: int| 0 <= k < self.sparks().len() ==> life(#[trigger] self.sparks()[k].radius as int) <= updates
    }

    /// An explosion at `pos` whose `k`th spark has the steps and radius `draws[k]`.
    pub fn from_draws(pos: Position, draws: &Vec<(i8, i8, u8)>) -> (e: Self)
        requires
            -MAX_ORIGIN <= pos.x <= MAX_ORIGIN,
            -MAX_ORIGIN <= pos.y <= MAX_ORIGIN,
            draws@.len() == MAX_SPARKS,
            forall|k: int| 0 <= k < draws@.len() ==> {
                &&& -MAX_STEP <= #[trigger] draws@[k].0 <= MAX_STEP
                &&& -MAX_STEP <= draws@[k].1 <= MAX_STEP
                &&& MIN_RADIUS <= draws@[k].2 < MAX_RADIUS
            },
        ensures
            e.wf() <==> forall|k: int| 0 <= k < MAX_SPARKS ==> #[trigger] e.sparks()[k].wf(),
            -MAX_CENTRE <= pos.x <= MAX_CENTRE && -MAX_CENTRE <= pos.y <= MAX_CENTRE ==> e.wf(),
            e.lives_within(MAX_LIFE as int),
            e.sparks().len() == MAX_SPARKS,
            forall|k: int| 0 <= k < MAX_SPARKS ==> #[trigger] e.sparks()[k] == (Spark {
                x: (pos.x * SUBPIXELS) as i16,
                y: (pos.y * SUBPIXELS) as i16,
                x_step: draws@[k].0,
                y_step: draws@[k].1,
                radius: draws@[k].2,
            }),
    {
        let mut sparks = Sparks::new();
        let mut k: usize = 0;
        while k < MAX_SPARKS
            invariant
                0 <= k <= MAX_SPARKS,
                draws@.len() == MAX_SPARKS,
                -MAX_ORIGIN <= pos.x <= MAX_ORIGIN,
                -MAX_ORIGIN <= pos.y <= MAX_ORIGIN,
                forall|k: int| 0 <= k < draws@.len() ==> {
                    &&& -MAX_STEP <= #[trigger] draws@[k].0 <= MAX_STEP
                    &&& -MAX_STEP <= draws@[k].1 <= MAX_STEP
                    &&& MIN_RADIUS <= draws@[k].2 < MAX_RADIUS
                },
                sparks_in(sparks).len() == k,
                forall|j: int| 0 <= j < k ==> #[trigger] sparks_in(sparks)[j] == (Spark {
                    x: (pos.x * SUBPIXELS) as i16,
                    y: (pos.y * SUBPIXELS) as i16,
                    x_step: draws@[j].0,
                    y_step: draws@[j].1,
                    radius: draws@[j].2,
                }),
                -MAX_CENTRE <= pos.x <= MAX_CENTRE && -MAX_CENTRE <= pos.y <= MAX_CENTRE ==> forall|j: int|
                    0 <= j < k ==> #[trigger] sparks_in(sparks)[j].wf(),
                forall|j: int| 0 <= j < k ==> life(#[trigger] sparks_in(sparks)[j].radius as int) <= MAX_LIFE,
            decreases MAX_SPARKS - k,
        {
            let (x_step, y_step, radius) = draws[k];
            let spark = Spark::from_draws(pos, x_step, y_step, radius);
            // Exactly `MAX_SPARKS` are added, so this is never refused.
            let _ = sparks.push(spark);
            k = k + 1;
        }
        Explosion { sparks }
    }

    /// An explosion at `pos`, each of its sparks' steps and radius drawn from the console's random
    /// sequence in turn. Centred within [`MAX_CENTRE`] it can be updated until it disappears;
    /// further out that depends on the draws, which [`Explosion::fits`] tells.
    pub fn new(pos: Position, ctx: &mut Context) -> (e: Self)
        requires
            -MAX_ORIGIN <= pos.x <= MAX_ORIGIN,
            -MAX_ORIGIN <= pos.y <= MAX_ORIGIN,
        ensures
            e.wf() <==> forall|k: int| 0 <= k < MAX_SPARKS ==> #[trigger] e.sparks()[k].wf(),
            -MAX_CENTRE <= pos.x <= MAX_CENTRE && -MAX_CENTRE <= pos.y <= MAX_CENTRE ==> e.wf(),
            e.lives_within(MAX_LIFE as int),
            e.sparks().len() == MAX_SPARKS,
            forall|k: int| 0 <= k < MAX_SPARKS ==> {
                &&& #[trigger] e.sparks()[k].x == pos.x * SUBPIXELS
                &&& e.sparks()[k].y == pos.y * SUBPIXELS
                &&& drawn_step(e.sparks()[k].x_step as int)
                &&& drawn_step(e.sparks()[k].y_step as int)
                &&& MIN_RADIUS <= e.sparks()[k].radius < MAX_RADIUS
                &&& life(e.sparks()[k].radius as int) > 5
            },
    {
        let mut draws: Vec<(i8, i8, u8)> = Vec::new();
        let mut k: usize = 0;
        while k < MAX_SPARKS
            invariant
                0 <= k <= MAX_SPARKS,
                draws@.len() == k,
                forall|j: int| 0 <= j < k ==> {
                    &&& -MAX_STEP <= #[trigger] draws@[j].0 <= MAX_STEP
                    &&& -MAX_STEP <= draws@[j].1 <= MAX_STEP
                    &&& MIN_RADIUS <= draws@[j].2 < MAX_RADIUS
                    &&& drawn_step(draws@[j].0 as int)
                    &&& drawn_step(draws@[j].1 as int)
                },
            decreases MAX_SPARKS - k,
        {
            let x_step = random_step(ctx);
            let y_step = random_step(ctx);
            let radius = random_integer(ctx, MIN_RADIUS, MAX_RADIUS) as u8;
            draws.push((x_step, y_step, radius));
            k = k + 1;
        }
        let e = Self::from_draws(pos, &draws);
        assert forall|k: int| 0 <= k < MAX_SPARKS implies #[trigger] e.sparks()[k].x == pos.x * SUBPIXELS
            && e.sparks()[k].y == pos.y * SUBPIXELS && drawn_step(e.sparks()[k].x_step as int)
            && drawn_step(e.sparks()[k].y_step as int) && MIN_RADIUS <= e.sparks()[k].radius < MAX_RADIUS
            && life(e.sparks()[k].radius as int) > 5 by {
            assert(e.sparks()[k].x_step == draws@[k].0);
        }
        e
    }

    /// One update: every spark moves by its steps and shrinks, and the ones shrunk to nothing are
    /// dropped. No spark is ever added, and every one left has one update less to live.
    pub fn update(&mut self, _ctx: &mut Context)
        requires
            old(self).wf(),
        ensures
            final(self).wf(),
            final(self).sparks() == burned(old(self).sparks()),
            final(self).sparks().len() <= old(self).sparks().len(),
            forall|updates: int| #[trigger] old(self).lives_within(updates) ==> final(self).lives_within(updates - 1),
    {
        self.burn();
    }

    /// [`Explosion::update`]'s whole work, which asks nothing of the console.
    pub fn burn(&mut self)
        requires
            old(self).wf(),
        ensures
            final(self).wf(),
            final(self).sparks() == burned(old(self).sparks()),
            final(self).sparks().len() <= old(self).sparks().len(),
            forall|updates: int| #[trigger] old(self).lives_within(updates) ==> final(self).lives_within(updates - 1),
    {
        let ghost before = *self;
        self.sparks.burn();
        proof {
            lemma_burned(before.sparks());
            assert forall|updates: int| #[trigger] before.lives_within(updates) implies self.lives_within(updates - 1) by {
                assert forall|k: int| 0 <= k < self.sparks().len() implies life(#[trigger] self.sparks()[k].radius as int) <= updates - 1 by {
                    assert(self.sparks()[k] == burned(before.sparks())[k]);
                    assert(burned(before.sparks())[k].wf());
                    let j = choose|j: int| 0 <= j < before.sparks().len() && life(burned(before.sparks())[k].radius as int) == life(#[trigger] before.sparks()[j].radius as int) - 1;
                    assert(life(before.sparks()[j].radius as int) <= updates);
                }
            }
        }
    }

    /// Whether this explosion can be updated until it disappears: [`Explosion::wf`], computed.
    /// Every explosion centred within [`MAX_CENTRE`] can; one centred further out can only if the
    /// steps its sparks drew keep them inside their coordinates' range.
    pub fn fits(&self) -> (r: bool)
        ensures
            r == self.wf(),
    {
        let n = self.sparks.len();
        if n > MAX_SPARKS {
            return false;
        }
        let mut k: usize = 0;
        while k < n
            invariant
                n == self.sparks().len(),
                n <= MAX_SPARKS,
                0 <= k <= n,
                forall|j: int| 0 <= j < k ==> #[trigger] self.sparks()[j].wf(),
            decreases n - k,
        {
            let spark = self.sparks.get(k);
            if !spark.fits() {
                return false;
            }
            k = k + 1;
        }
        true
    }

    /// Whether every spark has gone out.
    pub fn disappeared(&self) -> (r: bool)
        ensures
            r == (self.sparks().len() == 0),
    {
        self.sparks.len() == 0
    }

    /// Where each spark is drawn, in whole pixels, and how big, in order: one filled circle each.
    pub fn circles(&self) -> (cs: Vec<(i16, i16, u16)>)
        ensures
            cs@.len() == self.sparks().len(),
            forall|k: int| 0 <= k < cs@.len() ==> {
                &&& #[trigger] cs@[k].0 == trunc_div(self.sparks()[k].x as int, SUBPIXELS as int)
                &&& cs@[k].1 == trunc_div(self.sparks()[k].y as int, SUBPIXELS as int)
                &&& cs@[k].2 == self.sparks()[k].radius / 32
            },
    {
        let mut cs: Vec<(i16, i16, u16)> = Vec::new();
        let n = self.sparks.len();
        let mut k: usize = 0;
        while k < n
            invariant
                n == self.sparks().len(),
                0 <= k <= n,
                cs@.len() == k,
                forall|j: int| 0 <= j < k ==> {
                    &&& #[trigger] cs@[j].0 == trunc_div(self.sparks()[j].x as int, SUBPIXELS as int)
                    &&& cs@[j].1 == trunc_div(self.sparks()[j].y as int, SUBPIXELS as int)
                    &&& cs@[j].2 == self.sparks()[j].radius / 32
                },
            decreases n - k,
        {
            let spark = self.sparks.get(k);
            cs.push(spark.circle());
            k = k + 1;
        }
        cs
    }
}

/// An update keeps only sparks that were there and still show, each one update shorter-lived.
proof fn lemma_burned(before: Seq<Spark>)
    requires
        forall|k: int| 0 <= k < before.len() ==> #[trigger] before[k].wf(),
    ensures
        burned(before).len() <= before.len(),
        forall|k: int| 0 <= k < burned(before).len() ==> {
            &&& #[trigger] burned(before)[k].wf()
            &&& exists|j: int| 0 <= j < before.len() && life(burned(before)[k].radius as int) == life(#[trigger] before[j].radius as int) - 1
        },
{
    let moved = before.map_values(|s: Spark| advanced(s));
    let kept = moved.filter(|s: Spark| glowing(s));
    moved.lemma_filter_len(|s: Spark| glowing(s));
    assert forall|k: int| 0 <= k < kept.len() implies {
        &&& #[trigger] kept[k].wf()
        &&& exists|j: int| 0 <= j < before.len() && life(kept[k].radius as int) == life(#[trigger] before[j].radius as int) - 1
    } by {
        moved.lemma_filter_pred(|s: Spark| glowing(s), k);
        assert(kept.contains(kept[k]));
        moved.lemma_filter_contains_rev(|s: Spark| glowing(s), kept[k]);
        let j = choose|j: int| 0 <= j < moved.len() && moved[j] == kept[k];
        assert(moved[j] == advanced(before[j]));
        lemma_advance_keeps(before[j]);
    }
}

/// An explosion none of whose sparks has an update left to live has disappeared: every spark
/// still showing has at least one. So one born with every spark within [`MAX_LIFE`] updates —
/// every one [`Explosion::new`] makes — has disappeared after that many updates.
pub proof fn lemma_burns_out(e: Explosion)
    requires
        e.wf(),
        e.lives_within(0),
    ensures
        e.sparks().len() == 0,
{
    if e.sparks().len() > 0 {
        assert(e.sparks()[0].wf());
        assert(life(e.sparks()[0].radius as int) <= 0);
    }
}

/// What `k` updates in a row make of a list of sparks.
pub open spec fn burned_times(sparks: Seq<Spark>, k: nat) -> Seq<Spark>
    decreases k,
{
    if k == 0 {
        sparks
    } else {
        burned(burned_times(sparks, (k - 1) as nat))
    }
}

/// Sparks each with between `lo` and `hi` updates to live (as [`life`] counts them) all still
/// show after any fewer than `lo` updates, and have all gone out after `hi`. So an explosion
/// [`Explosion::new`] makes — every spark with a radius in `[MIN_RADIUS, MAX_RADIUS)`, so between
/// 6 and [`MAX_LIFE`] updates to live — keeps all its sparks through its first 5 updates and has
/// disappeared after [`MAX_LIFE`] ([`Explosion::update`] takes the sparks to [`burned`] of them).
pub proof fn lemma_lasts_then_burns_out(sparks: Seq<Spark>, lo: int, hi: int, k: nat)
    requires
        forall|i: int| 0 <= i < sparks.len() ==> #[trigger] sparks[i].wf() && lo <= life(sparks[i].radius as int) <= hi,
    ensures
        forall|i: int| 0 <= i < burned_times(sparks, k).len() ==> #[trigger] burned_times(sparks, k)[i].wf()
            && life(burned_times(sparks, k)[i].radius as int) <= hi - k,
        k < lo ==> burned_times(sparks, k).len() == sparks.len(),
        k < lo ==> forall|i: int| 0 <= i < burned_times(sparks, k).len() ==> lo - k <= life(
            #[trigger] burned_times(sparks, k)[i].radius as int,
        ),
        k >= hi ==> burned_times(sparks, k).len() == 0,
    decreases k,
{
    if k > 0 {
        let j = (k - 1) as nat;
        lemma_lasts_then_burns_out(sparks, lo, hi, j);
        let prev = burned_times(sparks, j);
        assert(burned_times(sparks, k) == burned(prev));
        lemma_burned(prev);
        assert forall|i: int| 0 <= i < burned(prev).len() implies #[trigger] burned(prev)[i].wf() && life(
            burned(prev)[i].radius as int,
        ) <= hi - k by {
            assert(burned(prev)[i].wf());
            let m = choose|m: int| 0 <= m < prev.len() && life(burned(prev)[i].radius as int) == life(
                #[trigger] prev[m].radius as int,
            ) - 1;
            assert(burned_times(sparks, j)[m].wf());
            assert(life(burned_times(sparks, j)[m].radius as int) <= hi - j);
        }
        if k < lo {
            assert forall|i: int| 0 <= i < prev.len() implies #[trigger] prev[i].wf() && lo - j <= life(
                prev[i].radius as int,
            ) by {
                assert(burned_times(sparks, j)[i].wf());
                assert(lo - j <= life(burned_times(sparks, j)[i].radius as int));
            }
            lemma_burn_keeps_all(prev, lo - j);
            assert(prev.len() == sparks.len());
            assert(burned_times(sparks, k).len() == sparks.len());
            assert forall|i: int| 0 <= i < burned_times(sparks, k).len() implies lo - k <= life(
                #[trigger] burned_times(sparks, k)[i].radius as int,
            ) by {
                assert(burned_times(sparks, k)[i] == burned(prev)[i]);
                assert(lo - j - 1 <= life(burned(prev)[i].radius as int));
            }
        }
        if k >= hi && burned(prev).len() > 0 {
            assert(burned(prev)[0].wf());
            assert(life(burned(prev)[0].radius as int) <= hi - k);
            assert(burned(prev)[0].radius > 0);
        }
    } else {
        assert(burned_times(sparks, 0) == sparks);
        assert forall|i: int| 0 <= i < sparks.len() implies lo <= life(#[trigger] sparks[i].radius as int)
            && life(sparks[i].radius as int) <= hi by {
            assert(sparks[i].wf());
        }
        if sparks.len() > 0 {
            assert(sparks[0].wf());
        }
    }
}

/// An explosion as [`Explosion::new`] makes one — sparks each with a radius of at least
/// [`MIN_RADIUS`] and at most [`MAX_LIFE`] updates to live — has not disappeared after any of its
/// first 5 updates (every spark still shows), and has disappeared after [`MAX_LIFE`] or more.
pub proof fn lemma_explosion_timeline(e: Explosion, k: nat)
    requires
        e.wf(),
        e.lives_within(MAX_LIFE as int),
        e.sparks().len() > 0,
        forall|i: int| 0 <= i < e.sparks().len() ==> MIN_RADIUS <= #[trigger] e.sparks()[i].radius,
    ensures
        k <= 5 ==> burned_times(e.sparks(), k).len() == e.sparks().len() > 0,
        k >= MAX_LIFE ==> burned_times(e.sparks(), k).len() == 0,
{
    assert forall|i: int| 0 <= i < e.sparks().len() implies #[trigger] e.sparks()[i].wf() && 6 <= life(
        e.sparks()[i].radius as int,
    ) <= MAX_LIFE by {
        assert(e.sparks()[i].wf());
        assert(MIN_RADIUS <= e.sparks()[i].radius);
        assert(life(e.sparks()[i].radius as int) <= MAX_LIFE);
    }
    lemma_lasts_then_burns_out(e.sparks(), 6, MAX_LIFE as int, k);
}

/// An update of sparks each with at least `lo >= 2` updates to live keeps every one of them,
/// each with one less.
proof fn lemma_burn_keeps_all(sparks: Seq<Spark>, lo: int)
    requires
        lo >= 2,
        forall|i: int| 0 <= i < sparks.len() ==> #[trigger] sparks[i].wf() && lo <= life(sparks[i].radius as int),
    ensures
        burned(sparks).len() == sparks.len(),
        forall|i: int| 0 <= i < sparks.len() ==> #[trigger] burned(sparks)[i] == advanced(sparks[i]),
        forall|i: int| 0 <= i < burned(sparks).len() ==> lo - 1 <= life(#[trigger] burned(sparks)[i].radius as int),
{
    let moved = sparks.map_values(|s: Spark| advanced(s));
    assert forall|i: int| 0 <= i < moved.len() implies glowing(#[trigger] moved[i]) by {
        assert(moved[i] == advanced(sparks[i]));
        assert(sparks[i].wf());
    }
    lemma_filter_keeps_all(moved, |s: Spark| glowing(s));
    assert forall|i: int| 0 <= i < sparks.len() implies lo - 1 <= life(#[trigger] burned(sparks)[i].radius as int) by {
        assert(burned(sparks)[i] == advanced(sparks[i]));
        assert(sparks[i].wf());
        lemma_advance_keeps(sparks[i]);
    }
}

/// Filtering a list by what all of it satisfies keeps it whole.
proof fn lemma_filter_keeps_all(s: Seq<Spark>, pred: spec_fn(Spark) -> bool)
    requires
        forall|i: int| 0 <= i < s.len() ==> pred(#[trigger] s[i]),
    ensures
        s.filter(pred) == s,
    decreases s.len(),
{
    reveal(Seq::filter);
    if s.len() > 0 {
        lemma_filter_keeps_all(s.drop_last(), pred);
        assert(pred(s[s.len() - 1]));
        assert(s.drop_last().push(s.last()) =~= s);
    }
}

/// A spark that can keep burning moves within its coordinates' range at its next update, and if it
/// still shows afterwards it is still one that can keep burning, with one update less to live.
proof fn lemma_advance_keeps(s: Spark)
    requires
        s.wf(),
    ensures
        i16::MIN <= s.x + s.x_step <= i16::MAX,
        i16::MIN <= s.y + s.y_step <= i16::MAX,
        glowing(advanced(s)) ==> advanced(s).wf() && life(advanced(s).radius as int) == life(s.radius as int) - 1,
{
    let l = life(s.radius as int);
    assert(l >= 1);
    lemma_first_step_fits(s.x as int, s.x_step as int, l);
    lemma_first_step_fits(s.y as int, s.y_step as int, l);
    if glowing(advanced(s)) {
        assert(s.radius >= RADIUS_SHRINK_SPEED);
        assert(life(advanced(s).radius as int) == l - 1);
        assert((s.x + s.x_step) + (l - 1) * s.x_step == s.x + l * s.x_step) by (nonlinear_arith);
        assert((s.y + s.y_step) + (l - 1) * s.y_step == s.y + l * s.y_step) by (nonlinear_arith);
    }
}

/// At most [`MAX_LIFE`] steps of at most [`MAX_STEP`] each carry a spark no further than
/// `MAX_LIFE * MAX_STEP` either way.
proof fn lemma_path_within(l: int, step: int)
    requires
        0 <= l <= MAX_LIFE,
        -MAX_STEP <= step <= MAX_STEP,
    ensures
        -1024 <= l * step <= 1024,
{
    assert(-1024 <= l * step <= 1024) by (nonlinear_arith)
        requires
            0 <= l <= 16,
            -64 <= step <= 64,
    ;
}

/// A life of at most 86 updates times a step of at most [`MAX_STEP`] is well inside an `i32`.
proof fn lemma_bounded_product(l: int, step: int)
    requires
        0 <= l <= 86,
        -MAX_STEP <= step <= MAX_STEP,
    ensures
        -5504 <= l * step <= 5504,
{
    assert(-5504 <= l * step <= 5504) by (nonlinear_arith)
        requires
            0 <= l <= 86,
            -64 <= step <= 64,
    ;
}

/// A path from `x` that ends `l >= 1` steps of `step` later inside `[i16::MIN, i16::MAX]`, having
/// started there, is inside it after its first step too.
proof fn lemma_first_step_fits(x: int, step: int, l: int)
    requires
        l >= 1,
        i16::MIN <= x <= i16::MAX,
        i16::MIN <= x + l * step <= i16::MAX,
    ensures
        i16::MIN <= x + step <= i16::MAX,
{
    if step >= 0 {
        assert(l * step >= step) by (nonlinear_arith)
            requires
                l >= 1,
                step >= 0,
        ;
    } else {
        assert(l * step <= step) by (nonlinear_arith)
            requires
                l >= 1,
                step < 0,
        ;
    }
}

} // verus!
