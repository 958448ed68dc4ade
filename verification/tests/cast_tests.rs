use airwolf::cast::{Cast, Seating};
use airwolf::common::Position;
use airwolf::entity::{Entity, Type};
use airwolf::shooter::Shooter;
use airwolf::the_lady::{BUTTON_LEFT, BUTTON_RIGHT};
use airwolf::{MAX_BULLETS, MAX_ENEMY_AIRCRAFTS};
use pixel8::physics::{Member, MemberBuilder};

fn lady_at_start() -> MemberBuilder {
    Member::builder(63.0, 111.0, 8, 8)
}

fn shot_at(x: f32, y: f32) -> MemberBuilder {
    Member::builder(x, y, 8, 8)
}

fn craft_at(x: f32, y: f32) -> MemberBuilder {
    Member::builder(x, y, 6, 8)
}

fn booted() -> Cast {
    let mut cast = Cast::new();
    cast.boot(None, lady_at_start());
    cast
}

#[test]
fn a_new_cast_is_empty() {
    let cast = Cast::new();
    assert_eq!(cast.bullet_count(), 0);
    assert_eq!(cast.aircraft_count(), 0);
    assert_eq!(cast.score(), 0);
    assert_eq!(cast.high_score(), 0);
    assert!(cast.lady().alive());
}

#[test]
fn boot_reads_the_stored_best_and_seats_the_lady() {
    let mut cast = Cast::new();
    cast.boot(Some(1234), lady_at_start());
    assert_eq!(cast.high_score(), 1234);
    assert!(cast.bounds_of(cast.lady().member()).is_some());
    let pos = cast.protagonist_pos();
    assert_eq!(pos, Position { x: 63, y: 111 });
}

#[test]
fn boot_without_a_stored_best_starts_from_nothing() {
    let mut cast = Cast::new();
    cast.boot(None, lady_at_start());
    assert_eq!(cast.high_score(), 0);
}

#[test]
fn boot_truncates_a_stored_best_to_32_bits() {
    let mut cast = Cast::new();
    cast.boot(Some(-1), lady_at_start());
    assert_eq!(cast.high_score(), u32::MAX);
    let mut cast = Cast::new();
    cast.boot(Some((1i64 << 32) + 7), lady_at_start());
    assert_eq!(cast.high_score(), 7);
}

#[test]
fn a_shot_is_seated_and_listed() {
    let mut cast = booted();
    let outcome = cast.seat_shot(Type::FriendlyBullet, shot_at(63.0, 110.0));
    assert_eq!(outcome, Seating::Seated);
    assert_eq!(cast.bullet_count(), 1);
    let shot = cast.bullet(0);
    assert!(shot.alive());
    assert_eq!(shot.entity_type(), Type::FriendlyBullet);
    assert!(!shot.is_enemy());
    assert!(cast.bounds_of(shot.member()).is_some());
}

#[test]
fn a_shot_refused_for_a_full_list_gives_its_seat_back() {
    let mut cast = booted();
    for k in 0..MAX_BULLETS {
        let outcome = cast.seat_shot(Type::EnemyBullet, shot_at(k as f32, 10.0));
        assert_eq!(outcome, Seating::Seated);
    }
    assert_eq!(cast.seat_shot(Type::EnemyBullet, shot_at(5.0, 5.0)), Seating::NoRoom);
    assert_eq!(cast.bullet_count(), MAX_BULLETS);
    // Had the refused shot kept its seat, the last of these would find the world full.
    for k in 0..MAX_ENEMY_AIRCRAFTS {
        assert_eq!(cast.spawn_aircraft(craft_at(k as f32 * 7.0, -8.0)), Seating::Seated);
    }
    assert_eq!(cast.aircraft_count(), MAX_ENEMY_AIRCRAFTS);
    // Now every one of the sixty-four seats is taken.
    assert_eq!(cast.seat_shot(Type::FriendlyBullet, shot_at(1.0, 1.0)), Seating::NoSeat);
    assert_eq!(cast.spawn_aircraft(craft_at(1.0, 1.0)), Seating::NoSeat);
}

#[test]
fn an_aircraft_refused_for_a_full_list_gives_its_seat_back() {
    let mut cast = booted();
    for k in 0..MAX_ENEMY_AIRCRAFTS {
        assert_eq!(cast.spawn_aircraft(craft_at(k as f32, -8.0)), Seating::Seated);
    }
    assert_eq!(cast.spawn_aircraft(craft_at(3.0, -8.0)), Seating::NoRoom);
    for k in 0..MAX_BULLETS {
        assert_eq!(cast.seat_shot(Type::FriendlyBullet, shot_at(k as f32, 50.0)), Seating::Seated);
    }
}

#[test]
fn a_restart_seats_the_lady_and_nobody_else() {
    let mut cast = booted();
    for k in 0..MAX_BULLETS {
        cast.seat_shot(Type::EnemyBullet, shot_at(k as f32, 10.0));
    }
    for k in 0..MAX_ENEMY_AIRCRAFTS {
        cast.spawn_aircraft(craft_at(k as f32, -8.0));
    }
    assert!(cast.start(true, lady_at_start()));
    assert_eq!(cast.bullet_count(), 0);
    assert_eq!(cast.aircraft_count(), 0);
    assert_eq!(cast.score(), 0);
    assert!(cast.lady().alive());
    // Every seat but the lady's is free again.
    for k in 0..MAX_BULLETS {
        assert_eq!(cast.seat_shot(Type::EnemyBullet, shot_at(k as f32, 10.0)), Seating::Seated);
    }
    for k in 0..MAX_ENEMY_AIRCRAFTS {
        assert_eq!(cast.spawn_aircraft(craft_at(k as f32, -8.0)), Seating::Seated);
    }
}

#[test]
fn start_without_the_button_does_nothing() {
    let mut cast = booted();
    cast.seat_shot(Type::FriendlyBullet, shot_at(10.0, 10.0));
    assert!(!cast.start(false, lady_at_start()));
    assert_eq!(cast.bullet_count(), 1);
}

#[test]
fn a_restart_keeps_the_best_score() {
    let mut cast = Cast::new();
    cast.boot(Some(99), lady_at_start());
    cast.restart(lady_at_start());
    assert_eq!(cast.high_score(), 99);
}

#[test]
fn the_sweep_drops_shots_that_left_the_screen() {
    let mut cast = booted();
    cast.seat_shot(Type::FriendlyBullet, shot_at(10.0, 10.0));
    cast.seat_shot(Type::FriendlyBullet, shot_at(-100.0, -100.0));
    cast.seat_shot(Type::EnemyBullet, shot_at(20.0, 130.0));
    cast.seat_shot(Type::EnemyBullet, shot_at(40.0, 100.0));
    let gone = cast.bullet(1).member();
    cast.sweep_bullets();
    assert_eq!(cast.bullet_count(), 2);
    assert_eq!(cast.bullet(0).entity_type(), Type::FriendlyBullet);
    assert_eq!(cast.bullet(1).entity_type(), Type::EnemyBullet);
    assert!(cast.bounds_of(gone).is_none());
}

#[test]
fn a_shot_just_on_the_edge_is_kept() {
    let mut cast = booted();
    // Eight wide at -7: its last column is column 0.
    cast.seat_shot(Type::FriendlyBullet, shot_at(-7.0, 0.0));
    cast.sweep_bullets();
    assert_eq!(cast.bullet_count(), 1);
    let mut cast = booted();
    cast.seat_shot(Type::FriendlyBullet, shot_at(-8.0, 0.0));
    cast.sweep_bullets();
    assert_eq!(cast.bullet_count(), 0);
}

#[test]
fn an_escaped_aircraft_is_worth_the_let_go_points() {
    let mut cast = booted();
    cast.spawn_aircraft(craft_at(10.0, -8.0));
    cast.spawn_aircraft(craft_at(30.0, 130.0));
    cast.spawn_aircraft(craft_at(130.0, 40.0));
    let volleys = vec![None, None, None];
    let outcomes = cast.aircraft_pass(true, &volleys);
    assert_eq!(outcomes, vec![Seating::Held, Seating::Held, Seating::Held]);
    // The one above the screen is where aircraft come from, and stays.
    assert_eq!(cast.aircraft_count(), 1);
    assert_eq!(cast.score(), 40);
}

#[test]
fn aircraft_fire_only_in_a_game_and_when_due() {
    let mut cast = booted();
    cast.spawn_aircraft(craft_at(10.0, 20.0));
    cast.spawn_aircraft(craft_at(50.0, 20.0));
    let volleys = vec![Some(shot_at(13.0, 24.0)), None];
    let outcomes = cast.aircraft_pass(true, &volleys);
    assert_eq!(outcomes, vec![Seating::Seated, Seating::Held]);
    assert_eq!(cast.bullet_count(), 1);
    assert_eq!(cast.bullet(0).entity_type(), Type::EnemyBullet);
    let volleys = vec![Some(shot_at(13.0, 24.0)), Some(shot_at(53.0, 24.0))];
    let outcomes = cast.aircraft_pass(false, &volleys);
    assert_eq!(outcomes, vec![Seating::Held, Seating::Held]);
    assert_eq!(cast.bullet_count(), 1);
    assert_eq!(cast.score(), 0);
}

#[test]
fn without_a_step_nobody_dies() {
    let mut cast = booted();
    cast.seat_shot(Type::FriendlyBullet, shot_at(63.0, 60.0));
    cast.spawn_aircraft(craft_at(63.0, 60.0));
    let wrecks = cast.react();
    assert!(wrecks.is_empty());
    assert!(cast.lady().alive());
    assert!(cast.bullet(0).alive());
    assert!(cast.aircraft(0).alive());
    assert!(!cast.aircraft(0).died_to_shot());
}

#[test]
fn end_game_keeps_the_better_score() {
    let mut cast = Cast::new();
    cast.boot(Some(30), lady_at_start());
    cast.spawn_aircraft(craft_at(30.0, 130.0));
    cast.spawn_aircraft(craft_at(60.0, 130.0));
    cast.aircraft_pass(true, &vec![None, None]);
    assert_eq!(cast.score(), 40);
    assert!(cast.end_game());
    assert_eq!(cast.high_score(), 40);
    cast.restart(lady_at_start());
    assert!(!cast.end_game());
    assert_eq!(cast.high_score(), 40);
}

#[test]
fn the_lady_fires_from_her_nose_when_the_button_is_held() {
    let cast = booted();
    assert_eq!(cast.lady_shot_origin(true, true), Some((63, 110)));
    assert_eq!(cast.lady_shot_origin(true, false), None);
    assert_eq!(cast.lady_shot_origin(false, true), None);
    assert_eq!(cast.lady().bullet_props().x_offset, 0);
    assert_eq!(cast.lady().bullet_props().y_offset, -1);
}

#[test]
fn a_waiting_lady_neither_fires_nor_flies() {
    let cast = Cast::new();
    assert_eq!(cast.lady_shot_origin(true, true), None);
    assert_eq!(cast.lady_heading(true, BUTTON_LEFT), None);
}

#[test]
fn the_lady_is_flown_by_the_buttons_only_in_a_game() {
    let cast = booted();
    assert_eq!(cast.lady_heading(true, BUTTON_LEFT), Some((-1, 0)));
    assert_eq!(cast.lady_heading(true, BUTTON_LEFT | BUTTON_RIGHT), Some((0, 0)));
    assert_eq!(cast.lady_heading(false, BUTTON_LEFT), Some((0, 0)));
}

#[test]
fn an_aircraft_heads_for_the_lady() {
    let mut cast = booted();
    cast.spawn_aircraft(craft_at(10.0, 20.0));
    cast.spawn_aircraft(craft_at(100.0, 20.0));
    cast.spawn_aircraft(craft_at(63.0, 20.0));
    assert_eq!(cast.aircraft_heading(0, true, 63), Some((1, 1)));
    assert_eq!(cast.aircraft_heading(1, true, 63), Some((-1, 1)));
    assert_eq!(cast.aircraft_heading(2, true, 63), Some((0, 1)));
    assert_eq!(cast.aircraft_heading(0, false, 63), Some((0, 0)));
    assert_eq!(cast.aircraft(0).bullet_props().x_offset, 3);
    assert_eq!(cast.aircraft(0).bullet_props().y_offset, 4);
}

#[test]
fn the_pass_points_count_only_escapes() {
    let mut cast = booted();
    assert_eq!(cast.pass_points(), 0);
    assert_eq!(cast.spawn_aircraft(craft_at(60.0, 40.0)), Seating::Seated);
    assert_eq!(cast.pass_points(), 0);
    assert_eq!(cast.spawn_aircraft(craft_at(200.0, 40.0)), Seating::Seated);
    assert_eq!(cast.pass_points(), 20);
    cast.aircraft_pass(false, &vec![None, None]);
    assert_eq!(cast.score(), 20);
    assert_eq!(cast.aircraft_count(), 1);
    assert_eq!(cast.pass_points(), 0);
}

#[test]
fn a_seat_reads_back_the_rectangle_it_was_given() {
    let mut cast = booted();
    assert_eq!(cast.spawn_aircraft(craft_at(40.0, 20.0)), Seating::Seated);
    let craft = cast.aircraft(0);
    let b = cast.bounds_of(craft.member()).unwrap();
    assert_eq!((b.x, b.y, b.width, b.height), (40, 20, 6, 8));
}

#[test]
fn the_sweep_and_the_pass_leave_only_the_living() {
    let mut cast = booted();
    assert_eq!(cast.seat_shot(Type::FriendlyBullet, shot_at(60.0, 200.0)), Seating::Seated);
    assert_eq!(cast.seat_shot(Type::FriendlyBullet, shot_at(60.0, 60.0)), Seating::Seated);
    assert_eq!(cast.spawn_aircraft(craft_at(200.0, 40.0)), Seating::Seated);
    assert_eq!(cast.spawn_aircraft(craft_at(40.0, 40.0)), Seating::Seated);
    let outcomes = cast.sweep_and_pass(false, &vec![None, None]);
    assert_eq!(outcomes, vec![Seating::Held, Seating::Held]);
    assert_eq!(cast.bullet_count(), 1);
    assert_eq!(cast.aircraft_count(), 1);
    assert_eq!(cast.score(), 20);
    assert!(cast.bullet(0).alive());
    assert!(cast.aircraft(0).alive());
}

#[test]
fn a_running_update_keeps_only_the_living_and_seats_arrivals() {
    let mut cast = booted();
    assert_eq!(cast.seat_shot(Type::FriendlyBullet, shot_at(60.0, 200.0)), Seating::Seated);
    assert_eq!(cast.spawn_aircraft(craft_at(200.0, 40.0)), Seating::Seated);
    let (outcomes, fired, spawned) = cast.running_update(
        true,
        &vec![None],
        Some(shot_at(63.0, 100.0)),
        Some(craft_at(30.0, -8.0)),
    );
    assert_eq!(outcomes, vec![Seating::Held]);
    assert_eq!(fired, Seating::Seated);
    assert_eq!(spawned, Seating::Seated);
    assert_eq!(cast.score(), 20);
    assert_eq!(cast.bullet_count(), 1);
    assert_eq!(cast.bullet(0).entity_type(), Type::FriendlyBullet);
    assert_eq!(cast.aircraft_count(), 1);
    let (_, fired, spawned) = cast.running_update(true, &vec![None], None, None);
    assert_eq!(fired, Seating::Held);
    assert_eq!(spawned, Seating::Held);
}
