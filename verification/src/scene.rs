//! Which part of the game the cart is in, and how an update moves it on.
//!
//! How long the cart has been in a part is the console clock's business, read in fractions of a
//! second; here it arrives as the one answer the rules ask of it — whether the game-over pause is
//! up.

use vstd::prelude::*;

verus! {

/// Which part of the game the cart is in.
#[derive(Debug, Clone, Copy, PartialEq, Eq, Structural)]
pub enum Scene {
    /// Before the first game.
    Start,
    /// A game is on.
    Game,
    /// The lady is dead. While `waiting`, the game-over pause is not up yet; after it, the cart
    /// offers a restart.
    GameOver { waiting: bool },
}

/// What an update does in a scene, once the scene has been told whether the game-over pause is
/// up.
#[derive(Debug, Clone, Copy, PartialEq, Eq, Structural)]
pub struct Plan {
    /// The scene the update runs in.
    pub scene: Scene,
    /// Whether everything in the air is updated: bullets, aircraft, explosions, the lady's gun.
    pub run: bool,
    /// Whether the update ends by trying to start a game, which happens if the O button is down.
    pub try_start: bool,
}

/// What the prompt on the screen says.
#[derive(Debug, Clone, Copy, PartialEq, Eq, Structural)]
pub enum Prompt {
    Nothing,
    PressToStart,
    PressToRestart,
}

/// What an update does in `scene`, `timed_out` saying whether the game-over pause is up.
pub open spec fn plan_of(scene: Scene, timed_out: bool) -> Plan {
    match scene {
        Scene::Start => Plan { scene, run: false, try_start: true },
        Scene::GameOver { waiting: true } => if timed_out {
            // The pause is over: from now on the cart offers a restart, and tries one at once.
            Plan { scene: Scene::GameOver { waiting: false }, run: false, try_start: true }
        } else {
            Plan { scene, run: true, try_start: false }
        },
        // The game has been over and the pause is up: everything keeps moving, and every update
        // tries to start a game.
        Scene::GameOver { waiting: false } => Plan { scene, run: true, try_start: true },
        Scene::Game => Plan { scene, run: true, try_start: false },
    }
}

impl Scene {
    /// Whether a game is on: what the aircraft chase the lady in, shoot in and are spawned in.
    pub open spec fn in_game_spec(self) -> bool {
        self == Scene::Game
    }

    pub fn in_game(self) -> (r: bool)
        ensures
            r == self.in_game_spec(),
    {
        matches!(self, Scene::Game)
    }

    /// [`plan_of`], computed.
    pub fn plan(self, timed_out: bool) -> (p: Plan)
        ensures
            p == plan_of(self, timed_out),
    {
        match self {
            Scene::Start => Plan { scene: self, run: false, try_start: true },
            Scene::GameOver { waiting: true } => if timed_out {
                Plan { scene: Scene::GameOver { waiting: false }, run: false, try_start: true }
            } else {
                Plan { scene: self, run: true, try_start: false }
            },
            Scene::GameOver { waiting: false } => Plan { scene: self, run: true, try_start: true },
            Scene::Game => Plan { scene: self, run: true, try_start: false },
        }
    }

    /// The scene after an attempt to start a game: a game, if the O button is down; otherwise as
    /// it was.
    pub fn after_start(self, o_down: bool) -> (s: Scene)
        ensures
            s == if o_down { Scene::Game } else { self },
    {
        if o_down {
            Scene::Game
        } else {
            self
        }
    }

    /// The scene once a game's update is done: over, the moment the lady is dead, with the
    /// game-over pause starting.
    pub fn after_game(self, lady_alive: bool) -> (s: Scene)
        ensures
            s == if self == Scene::Game && !lady_alive {
                Scene::GameOver { waiting: true }
            } else {
                self
            },
    {
        if matches!(self, Scene::Game) && !lady_alive {
            Scene::GameOver { waiting: true }
        } else {
            self
        }
    }

    /// What the prompt says: how to start, before the first game; how to restart, once the
    /// game-over pause is up; nothing otherwise.
    pub fn prompt(self) -> (p: Prompt)
        ensures
            p == match self {
                Scene::Start => Prompt::PressToStart,
                Scene::GameOver { waiting: false } => Prompt::PressToRestart,
                _ => Prompt::Nothing,
            },
    {
        match self {
            Scene::Start => Prompt::PressToStart,
            Scene::GameOver { waiting: false } => Prompt::PressToRestart,
            _ => Prompt::Nothing,
        }
    }

    /// Whether the score is on the screen: during a game and after it.
    pub fn shows_score(self) -> (r: bool)
        ensures
            r == (self != Scene::Start),
    {
        !matches!(self, Scene::Start)
    }
}

/// A game on never tries to start another: every update of it runs everything, stays in the game
/// and tries no start, whether or not a pause would be up.
pub proof fn lemma_a_game_never_restarts_itself(timed_out: bool)
    ensures
        plan_of(Scene::Game, timed_out) == (Plan { scene: Scene::Game, run: true, try_start: false }),
{
}

/// An update tries to start a game only before the first one or once the game-over pause is up,
/// and every update but the very first screen's and the one the pause runs out in runs everything.
pub proof fn lemma_starts_only_when_offered(scene: Scene, timed_out: bool)
    ensures
        plan_of(scene, timed_out).try_start ==> scene == Scene::Start || scene == (Scene::GameOver {
            waiting: false,
        }) || (scene == (Scene::GameOver { waiting: true }) && timed_out),
        !plan_of(scene, timed_out).run ==> scene == Scene::Start || (scene == (Scene::GameOver {
            waiting: true,
        }) && timed_out),
        plan_of(scene, timed_out).scene == scene || (scene == (Scene::GameOver { waiting: true })
            && plan_of(scene, timed_out).scene == (Scene::GameOver { waiting: false })),
{
}

/// A game never starts during the game-over pause: an update in it runs and tries no start,
/// whatever the buttons, until the pause is up.
pub proof fn lemma_no_restart_before_timeout(timed_out: bool)
    ensures
        !timed_out ==> !plan_of(Scene::GameOver { waiting: true }, timed_out).try_start,
        timed_out ==> plan_of(Scene::GameOver { waiting: true }, timed_out).scene == (Scene::GameOver {
            waiting: false,
        }),
{
}

} // verus!
