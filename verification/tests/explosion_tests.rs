use airwolf::common::Position;
use airwolf::explosion::{step_from_draws, Explosion, Spark, MAX_SPARKS};

fn draws(x_step: i8, y_step: i8, radius: u8) -> Vec<(i8, i8, u8)> {
    vec![(x_step, y_step, radius); MAX_SPARKS]
}

#[test]
fn steps_round_towards_zero() {
    assert_eq!(step_from_draws(-32, 16), -64);
    assert_eq!(step_from_draws(31, 16), 62);
    assert_eq!(step_from_draws(5, 80 - 1), 2);
    assert_eq!(step_from_draws(-5, 79), -2);
    assert_eq!(step_from_draws(-1, 33), 0);
    assert_eq!(step_from_draws(1, 33), 0);
    assert_eq!(step_from_draws(0, 16), 0);
}

#[test]
fn a_spark_starts_at_the_centre_in_subpixels() {
    let s = Spark::from_draws(Position { x: 10, y: -3 }, 5, -7, 20);
    assert_eq!(s, Spark { x: 320, y: -96, x_step: 5, y_step: -7, radius: 20 });
}

#[test]
fn a_spark_moves_and_shrinks() {
    let mut s = Spark::from_draws(Position { x: 10, y: 10 }, 5, -7, 20);
    assert!(s.advance());
    assert_eq!(s, Spark { x: 325, y: 313, x_step: 5, y_step: -7, radius: 17 });
    let mut small = Spark::from_draws(Position { x: 0, y: 0 }, 1, 1, 16);
    for _ in 0..5 {
        assert!(small.advance());
    }
    assert_eq!(small.radius, 1);
    assert!(!small.advance());
    assert_eq!(small.radius, 0);
}

#[test]
fn circles_are_whole_pixels() {
    let s = Spark { x: -65, y: 65, x_step: 0, y_step: 0, radius: 40 };
    assert_eq!(s.circle(), (-2, 2, 1));
    let e = Explosion::from_draws(Position { x: 4, y: 5 }, &draws(0, 0, 16));
    let cs = e.circles();
    assert_eq!(cs.len(), MAX_SPARKS);
    assert!(cs.iter().all(|c| *c == (4, 5, 0)));
}

#[test]
fn an_explosion_throws_fifty_sparks() {
    let e = Explosion::from_draws(Position { x: 64, y: 64 }, &draws(1, -1, 47));
    assert!(!e.disappeared());
    assert_eq!(e.circles().len(), MAX_SPARKS);
}

#[test]
fn an_explosion_is_gone_within_sixteen_updates() {
    let mut e = Explosion::from_draws(Position { x: 991, y: -991 }, &draws(64, -64, 47));
    for _ in 0..15 {
        e.burn();
        assert!(!e.disappeared());
    }
    e.burn();
    assert!(e.disappeared());
}

#[test]
fn small_sparks_go_out_first() {
    let mut d = draws(0, 0, 47);
    d[0] = (0, 0, 16);
    d[1] = (0, 0, 19);
    let mut e = Explosion::from_draws(Position { x: 0, y: 0 }, &d);
    for _ in 0..6 {
        e.burn();
    }
    assert_eq!(e.circles().len(), MAX_SPARKS - 1);
    e.burn();
    assert_eq!(e.circles().len(), MAX_SPARKS - 2);
}

#[test]
fn a_spark_can_be_flung_from_the_far_corner() {
    let s = Spark::from_draws(Position { x: 1023, y: -1023 }, 5, -5, 20);
    assert_eq!(s.x, 32736);
    assert_eq!(s.y, -32736);
    assert_eq!(s.radius, 20);
}

#[test]
fn an_explosion_at_the_far_corner_fits_only_with_small_steps() {
    let calm = Explosion::from_draws(Position { x: 1023, y: 1023 }, &draws(1, 1, 16));
    assert!(calm.fits());
    let wild = Explosion::from_draws(Position { x: 1023, y: 0 }, &draws(62, 0, 47));
    assert!(!wild.fits());
    let centred = Explosion::from_draws(Position { x: 991, y: -991 }, &draws(64, -64, 47));
    assert!(centred.fits());
}
