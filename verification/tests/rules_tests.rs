use airwolf::bullet::{Bullet, ShotLook, ENEMY_SPRITE_ID, FRIENDLY_SPRITE_ID};
use airwolf::cast::{Cast, Seating};
use airwolf::common::{touches, Position, AIRCRAFT, ENEMY_SHOT, FRIENDLY_SHOT, LADY};
use airwolf::enemy_aircraft::{EnemyAircraft, Fate};
use airwolf::entity::Type;
use airwolf::scene::{Plan, Prompt, Scene};
use airwolf::sky::Bounds;
use airwolf::the_lady::{TheLady, BUTTON_DOWN, BUTTON_LEFT, BUTTON_O, BUTTON_RIGHT, BUTTON_UP};
use airwolf::{LET_GO_SCORE_BUMP, MAX_BULLETS, MAX_CAST, MAX_ENEMY_AIRCRAFTS, MAX_EXPLOSIONS};
use pixel8::physics::Member;

#[test]
fn the_sky_seats_exactly_the_whole_cast() {
    assert_eq!(MAX_CAST, 64);
    assert_eq!(MAX_CAST, 1 + MAX_ENEMY_AIRCRAFTS + MAX_BULLETS);
    assert_eq!(MAX_EXPLOSIONS, 24);
}

#[test]
fn position_from_a_pair() {
    let p = Position::from((3i16, -4i16));
    assert_eq!(p, Position { x: 3, y: -4 });
}

#[test]
fn enemy_side() {
    assert!(Type::Enemy.is_enemy());
    assert!(Type::EnemyBullet.is_enemy());
    assert!(!Type::FriendlyBullet.is_enemy());
    assert!(!Type::Protoganist.is_enemy());
}

#[test]
fn touching_is_any_flag_in_common() {
    assert!(touches(LADY | ENEMY_SHOT, ENEMY_SHOT));
    assert!(!touches(LADY | ENEMY_SHOT, AIRCRAFT | FRIENDLY_SHOT));
    assert!(!touches(0xff, 0));
}

#[test]
fn how_shots_look() {
    assert_eq!(
        Bullet::look(Type::FriendlyBullet),
        ShotLook { dy: -2, width: 8, height: 8, sprite: FRIENDLY_SPRITE_ID, heeds: AIRCRAFT }
    );
    assert_eq!(
        Bullet::look(Type::EnemyBullet),
        ShotLook { dy: 2, width: 1, height: 7, sprite: ENEMY_SPRITE_ID, heeds: LADY }
    );
    assert_eq!(FRIENDLY_SPRITE_ID, 64);
    assert_eq!(ENEMY_SPRITE_ID, 65);
}

#[test]
fn a_shot_is_spent_only_on_the_other_side() {
    let mut cast = Cast::new();
    cast.boot(None, Member::builder(63.0, 111.0, 8, 8));
    assert_eq!(cast.seat_shot(Type::FriendlyBullet, Member::builder(1.0, 1.0, 8, 8)), Seating::Seated);
    assert_eq!(cast.seat_shot(Type::EnemyBullet, Member::builder(9.0, 1.0, 1, 7)), Seating::Seated);
    let ours = cast.bullet(0);
    let theirs = cast.bullet(1);
    assert!(ours.is_hit(AIRCRAFT));
    assert!(!ours.is_hit(LADY | FRIENDLY_SHOT | ENEMY_SHOT));
    assert!(theirs.is_hit(LADY | AIRCRAFT));
    assert!(!theirs.is_hit(AIRCRAFT | ENEMY_SHOT | FRIENDLY_SHOT));
}

#[test]
fn bounds_edges_hold_at_the_end_of_the_coordinates() {
    let b = Bounds { x: 10, y: 20, width: 8, height: 6 };
    assert_eq!(b.right(), 18);
    assert_eq!(b.bottom(), 26);
    let far = Bounds { x: i16::MAX - 2, y: i16::MAX, width: 8, height: 1 };
    assert_eq!(far.right(), i16::MAX);
    assert_eq!(far.bottom(), i16::MAX);
}

#[test]
fn what_is_on_the_screen() {
    assert!(Bounds { x: 0, y: 0, width: 1, height: 1 }.on_screen());
    assert!(Bounds { x: 127, y: 127, width: 1, height: 1 }.on_screen());
    assert!(Bounds { x: -7, y: -6, width: 8, height: 7 }.on_screen());
    assert!(!Bounds { x: 128, y: 0, width: 8, height: 8 }.on_screen());
    assert!(!Bounds { x: 0, y: 128, width: 8, height: 8 }.on_screen());
    assert!(!Bounds { x: -8, y: 0, width: 8, height: 8 }.on_screen());
    assert!(!Bounds { x: 0, y: -8, width: 8, height: 8 }.on_screen());
    assert!(!Bounds { x: 10, y: 10, width: 0, height: 8 }.on_screen());
    assert!(!Bounds { x: 10, y: 10, width: 8, height: 0 }.on_screen());
}

#[test]
fn an_aircraft_leaves_play_below_and_to_the_sides_only() {
    assert!(EnemyAircraft::outside(Bounds { x: 128, y: 10, width: 6, height: 8 }));
    assert!(EnemyAircraft::outside(Bounds { x: -6, y: 10, width: 6, height: 8 }));
    assert!(EnemyAircraft::outside(Bounds { x: 10, y: 128, width: 6, height: 8 }));
    assert!(!EnemyAircraft::outside(Bounds { x: 10, y: -200, width: 6, height: 8 }));
    assert!(!EnemyAircraft::outside(Bounds { x: -5, y: 10, width: 6, height: 8 }));
    assert!(!EnemyAircraft::outside(Bounds { x: 127, y: 127, width: 6, height: 8 }));
}

#[test]
fn an_aircraft_chases_across_and_comes_down() {
    assert_eq!(EnemyAircraft::heading(true, 10, 63), (1, 1));
    assert_eq!(EnemyAircraft::heading(true, 90, 63), (-1, 1));
    assert_eq!(EnemyAircraft::heading(true, 63, 63), (0, 1));
    assert_eq!(EnemyAircraft::heading(false, 10, 63), (0, 0));
}

#[test]
fn a_shot_of_ours_outranks_the_ram() {
    assert_eq!(EnemyAircraft::fate(FRIENDLY_SHOT), Fate::ShotDown);
    assert_eq!(EnemyAircraft::fate(LADY), Fate::Rammed);
    assert_eq!(EnemyAircraft::fate(LADY | FRIENDLY_SHOT), Fate::ShotDown);
    assert_eq!(EnemyAircraft::fate(ENEMY_SHOT | AIRCRAFT), Fate::Unhurt);
    assert_eq!(EnemyAircraft::fate(0), Fate::Unhurt);
}

#[test]
fn the_pass_scores_escapes_and_keeps_the_rest() {
    let mut cast = Cast::new();
    cast.boot(None, Member::builder(63.0, 111.0, 8, 8));
    cast.spawn_aircraft(Member::builder(10.0, 10.0, 6, 8));
    let craft = cast.aircraft(0);
    assert_eq!(Cast::verdict(&craft, false), (true, 0));
    assert_eq!(Cast::verdict(&craft, true), (false, LET_GO_SCORE_BUMP));
}

#[test]
fn the_lady_is_ended_by_a_ram_or_a_shot_only() {
    assert!(TheLady::is_hit(AIRCRAFT));
    assert!(TheLady::is_hit(ENEMY_SHOT));
    assert!(!TheLady::is_hit(FRIENDLY_SHOT | LADY));
    assert!(!TheLady::is_hit(0));
}

#[test]
fn the_lady_keeps_to_the_screen() {
    let middle = Bounds { x: 60, y: 60, width: 8, height: 8 };
    assert_eq!(TheLady::flight(BUTTON_LEFT, middle), (-1, 0));
    assert_eq!(TheLady::flight(BUTTON_RIGHT, middle), (1, 0));
    assert_eq!(TheLady::flight(BUTTON_UP, middle), (0, -1));
    assert_eq!(TheLady::flight(BUTTON_DOWN, middle), (0, 1));
    assert_eq!(TheLady::flight(BUTTON_O, middle), (0, 0));
    assert_eq!(TheLady::flight(BUTTON_UP | BUTTON_RIGHT, middle), (1, -1));
    // At the left edge she can still go to the edge's last column, not past it.
    assert_eq!(TheLady::flight(BUTTON_LEFT, Bounds { x: 0, y: 60, width: 8, height: 8 }), (-1, 0));
    assert_eq!(TheLady::flight(BUTTON_LEFT, Bounds { x: -1, y: 60, width: 8, height: 8 }), (0, 0));
    assert_eq!(TheLady::flight(BUTTON_RIGHT, Bounds { x: 118, y: 60, width: 8, height: 8 }), (0, 0));
    assert_eq!(TheLady::flight(BUTTON_RIGHT, Bounds { x: 117, y: 60, width: 8, height: 8 }), (1, 0));
    assert_eq!(TheLady::flight(BUTTON_UP, Bounds { x: 60, y: 0, width: 8, height: 8 }), (0, 0));
    assert_eq!(TheLady::flight(BUTTON_DOWN, Bounds { x: 60, y: 120, width: 8, height: 8 }), (0, 0));
    // A diagonal held into an edge carries on along it.
    assert_eq!(
        TheLady::flight(BUTTON_LEFT | BUTTON_DOWN, Bounds { x: -1, y: 60, width: 8, height: 8 }),
        (0, 1)
    );
}

#[test]
fn a_dead_or_unseated_lady_is_not_flown() {
    let waiting = TheLady::waiting();
    let middle = Bounds { x: 60, y: 60, width: 8, height: 8 };
    assert_eq!(waiting.heading(true, BUTTON_LEFT, middle), Some((-1, 0)));
    assert_eq!(waiting.heading(false, BUTTON_LEFT, middle), Some((0, 0)));
}

#[test]
fn scene_plans() {
    assert_eq!(Scene::Start.plan(false), Plan { scene: Scene::Start, run: false, try_start: true });
    assert_eq!(Scene::Game.plan(true), Plan { scene: Scene::Game, run: true, try_start: false });
    let waiting = Scene::GameOver { waiting: true };
    assert_eq!(waiting.plan(false), Plan { scene: waiting, run: true, try_start: false });
    assert_eq!(
        waiting.plan(true),
        Plan { scene: Scene::GameOver { waiting: false }, run: false, try_start: true }
    );
    let over = Scene::GameOver { waiting: false };
    assert_eq!(over.plan(false), Plan { scene: over, run: true, try_start: true });
}

#[test]
fn scenes_move_on() {
    assert_eq!(Scene::Start.after_start(true), Scene::Game);
    assert_eq!(Scene::Start.after_start(false), Scene::Start);
    assert_eq!(Scene::Game.after_game(false), Scene::GameOver { waiting: true });
    assert_eq!(Scene::Game.after_game(true), Scene::Game);
    assert_eq!(Scene::Start.after_game(false), Scene::Start);
    assert!(Scene::Game.in_game());
    assert!(!Scene::GameOver { waiting: true }.in_game());
}

#[test]
fn what_the_screen_says() {
    assert_eq!(Scene::Start.prompt(), Prompt::PressToStart);
    assert_eq!(Scene::GameOver { waiting: false }.prompt(), Prompt::PressToRestart);
    assert_eq!(Scene::GameOver { waiting: true }.prompt(), Prompt::Nothing);
    assert_eq!(Scene::Game.prompt(), Prompt::Nothing);
    assert!(!Scene::Start.shows_score());
    assert!(Scene::Game.shows_score());
    assert!(Scene::GameOver { waiting: true }.shows_score());
}
