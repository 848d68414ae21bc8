use vstd::prelude::*;
use crate::leaderboard::LeaderboardEntry;

verus! {

/// How the three-life game is reset: a new game, or the next wave.
#[derive(PartialEq, Eq, Structural, Clone, Copy, Debug)]
pub enum ResetType {
    New,
    Next,
}

/// The phase of the three-life game. `Death`, `Win` and `GameOver` run a
/// timer that the application keeps.
#[derive(PartialEq, Eq, Structural, Clone, Copy, Debug)]
pub enum GameState {
    Intro,
    Playing,
    Death,
    Win,
    GameOver,
}

/// Where the swarm stands after a frame of play: its lowest enemy has come
/// down to the player's height, every enemy is dead, or neither.
#[derive(PartialEq, Eq, Structural, Clone, Copy, Debug)]
pub enum SwarmOutcome {
    Landed,
    Cleared,
    Holding,
}

/// What a frame brings in: whether the phase's timer had time left before
/// the frame and has any after it, whether a key was pressed, and, for a
/// frame of play, whether the ship survived and where the swarm stands.
#[derive(PartialEq, Eq, Structural, Clone, Copy, Debug)]
pub struct StateTick {
    pub timer_left: bool,
    pub timer_left_after: bool,
    pub any: bool,
    pub player_alive: bool,
    pub swarm: SwarmOutcome,
}

/// What the application must do after a frame: rebuild the shields (each
/// frame of the intro), play the frame out (move, shoot, collide, fly the
/// saucer), run the timer down, put the player back after a death, reset
/// the world, and start the timer of the phase just entered.
#[derive(PartialEq, Eq, Structural, Clone, Copy, Debug)]
pub struct StateEffects {
    pub rebuild_shields: bool,
    pub count_down: bool,
    pub post_death_reset: bool,
    pub reset: Option<ResetType>,
    pub start_timer: bool,
}

/// No effect at all.
pub open spec fn no_state_effects() -> StateEffects {
    StateEffects { rebuild_shields: false, count_down: false, post_death_reset: false, reset: None, start_timer: false }
}

fn quiet() -> (e: StateEffects)
    ensures
        e == no_state_effects(),
{
    StateEffects { rebuild_shields: false, count_down: false, post_death_reset: false, reset: None, start_timer: false }
}

/// The three-life game: score, lives, wave, phase, and the leaderboard.
pub struct State {
    pub score: i32,
    pub lives: i32,
    pub wave: i32,
    pub game_state: GameState,
    pub leaderboard: Vec<LeaderboardEntry>,
}

impl State {
    /// The player has lives left while the game is on.
    pub open spec fn wf(&self) -> bool {
        &&& self.lives >= 0
        &&& self.game_state != GameState::GameOver ==> self.lives >= 1
    }

    /// A reset of this kind can be made without overflow.
    pub open spec fn can_reset(&self, reset_type: ResetType) -> bool {
        reset_type == ResetType::Next ==> self.wave < i32::MAX
    }

    /// A new game: score 0, three lives, wave 1, in the intro, with an
    /// empty leaderboard.
    pub fn new() -> (s: State)
        ensures
            s.wf(),
            s.score == 0,
            s.lives == 3,
            s.wave == 1,
            s.game_state == GameState::Intro,
            s.leaderboard@.len() == 0,
    {
        State { score: 0, lives: 3, wave: 1, game_state: GameState::Intro, leaderboard: Vec::new() }
    }

    /// Resets the score, lives and wave: a new game starts at score 0 with
    /// three lives at wave 0; the next wave counts one more. The world is
    /// reset by the application.
    pub fn reset(&mut self, reset_type: ResetType)
        requires
            old(self).can_reset(reset_type),
        ensures
            final(self).score == if reset_type == ResetType::New { 0 } else { old(self).score },
            final(self).lives == if reset_type == ResetType::New { 3 } else { old(self).lives },
            final(self).wave == if reset_type == ResetType::New { 0 } else { old(self).wave + 1 },
            final(self).game_state == old(self).game_state,
            final(self).leaderboard == old(self).leaderboard,
    {
        if reset_type == ResetType::New {
            self.score = 0;
            self.lives = 3;
            self.wave = 0;
        }
        if reset_type == ResetType::Next {
            self.wave = self.wave + 1;
        }
    }

    /// Decides one frame of the three-life game and says what the
    /// application must do.
    pub fn step(&mut self, t: StateTick) -> (e: StateEffects)
        requires
            old(self).wf(),
            old(self).game_state == GameState::Win ==> old(self).can_reset(ResetType::Next),
        ensures
            final(self).wf(),
            final(self).leaderboard == old(self).leaderboard,
            final(self).score == if old(self).game_state == GameState::GameOver && !t.timer_left && t.any { 0 } else { old(self).score },
            match old(self).game_state {
                GameState::Intro => {
                    &&& final(self).game_state == if t.any { GameState::Playing } else { GameState::Intro }
                    &&& final(self).lives == old(self).lives && final(self).wave == old(self).wave
                    &&& e == StateEffects { rebuild_shields: true, ..no_state_effects() }
                },
                GameState::Playing => {
                    let after_swarm = if t.swarm == SwarmOutcome::Landed {
                        GameState::GameOver
                    } else if t.swarm == SwarmOutcome::Cleared {
                        GameState::Win
                    } else {
                        GameState::Playing
                    };
                    let lives = if t.player_alive { old(self).lives as int } else { old(self).lives - 1 };
                    let phase = if t.player_alive { after_swarm } else if lives == 0 { GameState::GameOver } else { GameState::Death };
                    &&& final(self).lives == lives && final(self).wave == old(self).wave
                    &&& final(self).game_state == phase
                    &&& e == StateEffects { start_timer: phase != GameState::Playing, ..no_state_effects() }
                },
                GameState::Death => {
                    &&& final(self).lives == old(self).lives && final(self).wave == old(self).wave
                    &&& final(self).game_state == if t.timer_left_after { GameState::Death } else { GameState::Playing }
                    &&& e == StateEffects { count_down: true, post_death_reset: !t.timer_left_after, ..no_state_effects() }
                },
                GameState::Win => {
                    &&& final(self).lives == old(self).lives
                    &&& final(self).wave == if t.timer_left { old(self).wave as int } else { old(self).wave + 1 }
                    &&& final(self).game_state == if t.timer_left { GameState::Win } else { GameState::Playing }
                    &&& e == if t.timer_left {
                        StateEffects { count_down: true, ..no_state_effects() }
                    } else {
                        StateEffects { reset: Some(ResetType::Next), ..no_state_effects() }
                    }
                },
                GameState::GameOver => {
                    let restart = !t.timer_left && t.any;
                    &&& final(self).lives == if restart { 3 } else { old(self).lives }
                    &&& final(self).wave == if restart { 0 } else { old(self).wave }
                    &&& final(self).game_state == if restart { GameState::Intro } else { GameState::GameOver }
                    &&& e == if t.timer_left {
                        StateEffects { count_down: true, ..no_state_effects() }
                    } else if t.any {
                        StateEffects { reset: Some(ResetType::New), ..no_state_effects() }
                    } else {
                        no_state_effects()
                    }
                },
            },
    {
        match self.game_state {
            GameState::Intro => {
                if t.any {
                    self.game_state = GameState::Playing;
                }
                StateEffects { rebuild_shields: true, ..quiet() }
            },
            GameState::Playing => {
                if t.swarm == SwarmOutcome::Landed {
                    self.game_state = GameState::GameOver;
                } else if t.swarm == SwarmOutcome::Cleared {
                    self.game_state = GameState::Win;
                }
                if !t.player_alive {
                    self.lives = self.lives - 1;
                    if self.lives == 0 {
                        self.game_state = GameState::GameOver;
                    } else {
                        self.game_state = GameState::Death;
                    }
                }
                let entered = self.game_state != GameState::Playing;
                StateEffects { start_timer: entered, ..quiet() }
            },
            GameState::Death => {
                if !t.timer_left_after {
                    self.game_state = GameState::Playing;
                    StateEffects { count_down: true, post_death_reset: true, ..quiet() }
                } else {
                    StateEffects { count_down: true, ..quiet() }
                }
            },
            GameState::Win => {
                if t.timer_left {
                    StateEffects { count_down: true, ..quiet() }
                } else {
                    self.reset(ResetType::Next);
                    self.game_state = GameState::Playing;
                    StateEffects { reset: Some(ResetType::Next), ..quiet() }
                }
            },
            GameState::GameOver => {
                if t.timer_left {
                    StateEffects { count_down: true, ..quiet() }
                } else if t.any {
                    self.reset(ResetType::New);
                    self.game_state = GameState::Intro;
                    StateEffects { reset: Some(ResetType::New), ..quiet() }
                } else {
                    quiet()
                }
            },
        }
    }
}

} // verus!
