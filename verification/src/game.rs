use vstd::prelude::*;

verus! {

/// How the game is being reset: a brand new game, the next wave after a
/// cleared one, or a respawn after the player lost a life.
#[derive(PartialEq, Eq, Structural, Clone, Copy, Debug)]
pub enum ResetType {
    New,
    Next,
    Respawn,
}

/// The colour in which an explosion is drawn.
#[derive(PartialEq, Eq, Structural, Clone, Copy, Debug)]
pub enum ColourIndex {
    WHITE,
    BLUE,
}

impl ColourIndex {
    /// The number by which the renderer knows the colour.
    pub open spec fn spec_code(self) -> i32 {
        match self {
            ColourIndex::BLUE => 1,
            ColourIndex::WHITE => 0,
        }
    }

    /// The number by which the renderer knows the colour: white is 0, blue is 1.
    pub fn code(&self) -> (c: i32)
        ensures
            c == self.spec_code(),
    {
        match self {
            ColourIndex::BLUE => 1,
            ColourIndex::WHITE => 0,
        }
    }
}

/// The phase the game is in. The timed phases (`Intro`, `Death`, `_Win`,
/// `GameOverFastlyTreatment` and `GameOver`) run a timer that the
/// application keeps; `ShowHighScore` remembers which of fire, left and
/// right were held on the previous frame.
#[derive(PartialEq, Eq, Structural, Clone, Copy, Debug)]
pub enum GameState {
    Intro,
    Playing,
    Death,
    _Win,
    GameOverFastlyTreatment,
    CheckHighScore,
    WaitHighScore,
    ShowHighScore(bool, bool, bool),
    GameOver,
}

/// What the screen shows in a phase, besides the background, the particles
/// and the score line: the intro; the playing field, with or without the
/// bullets and with or without the game-over treatment over it; the
/// treatment being cleared away; the name picker; or nothing more.
#[derive(PartialEq, Eq, Structural, Clone, Copy, Debug)]
pub enum Scene {
    Intro,
    Field { bullets: bool, treatment: bool },
    ClearTreatment,
    NamePicker,
    Blank,
}

impl GameState {
    /// The scene drawn in this phase: the field is drawn while playing,
    /// after a death, after a cleared wave and during the game-over
    /// treatment, whose frames show the treatment instead of the bullets.
    pub open spec fn spec_scene(self) -> Scene {
        match self {
            GameState::Intro => Scene::Intro,
            GameState::Playing | GameState::Death | GameState::_Win => Scene::Field { bullets: true, treatment: false },
            GameState::GameOverFastlyTreatment => Scene::Field { bullets: false, treatment: true },
            GameState::CheckHighScore => Scene::ClearTreatment,
            GameState::ShowHighScore(_, _, _) => Scene::NamePicker,
            GameState::WaitHighScore | GameState::GameOver => Scene::Blank,
        }
    }

    /// The scene drawn in this phase.
    pub fn scene(&self) -> (s: Scene)
        ensures
            s == self.spec_scene(),
    {
        match self {
            GameState::Intro => Scene::Intro,
            GameState::Playing | GameState::Death | GameState::_Win => Scene::Field { bullets: true, treatment: false },
            GameState::GameOverFastlyTreatment => Scene::Field { bullets: false, treatment: true },
            GameState::CheckHighScore => Scene::ClearTreatment,
            GameState::ShowHighScore(_, _, _) => Scene::NamePicker,
            GameState::WaitHighScore | GameState::GameOver => Scene::Blank,
        }
    }
}

/// What the application must find out before a frame of the game can be
/// decided: the outcome of the frame's play, the answer of the high-score
/// check, or whether the outro has finished.
#[derive(PartialEq, Eq, Structural, Clone, Copy, Debug)]
pub enum Work {
    Nothing,
    Simulate,
    AskHighScore,
    AskOutro,
}

/// What a frame brings in: whether the phase's timer had time left before
/// the frame and has any after it, the keys held, whether the player's ship
/// survived the frame's play, and the answer the application got for the
/// frame's `Work`.
#[derive(PartialEq, Eq, Structural, Clone, Copy, Debug)]
pub struct Tick {
    pub timer_left: bool,
    pub timer_left_after: bool,
    pub any: bool,
    pub fire: bool,
    pub left: bool,
    pub right: bool,
    pub player_alive: bool,
    pub reply: i32,
}

/// What the application must do after a frame has been decided, in this
/// order: run the timer down, kill off the swarm, put the player back after
/// a death, report the end of the game, reset the world (and report the
/// score after a cleared wave), start a session, ask for the high-score
/// check, and start the timer of the phase just entered.
#[derive(PartialEq, Eq, Structural, Clone, Copy, Debug)]
pub struct Effects {
    pub count_down: bool,
    pub force_kill: bool,
    pub post_death_reset: bool,
    pub game_over: bool,
    pub reset: Option<ResetType>,
    pub report_score: bool,
    pub new_session: bool,
    pub check_high_score: bool,
    pub start_timer: bool,
}

/// No effect at all.
pub open spec fn no_effects() -> Effects {
    Effects {
        count_down: false,
        force_kill: false,
        post_death_reset: false,
        game_over: false,
        reset: None,
        report_score: false,
        new_session: false,
        check_high_score: false,
        start_timer: false,
    }
}

fn quiet() -> (e: Effects)
    ensures
        e == no_effects(),
{
    Effects {
        count_down: false,
        force_kill: false,
        post_death_reset: false,
        game_over: false,
        reset: None,
        report_score: false,
        new_session: false,
        check_high_score: false,
        start_timer: false,
    }
}

/// The score, lives and wave of a game, the phase it is in, and the state
/// of the name picker. The world the game is played in is kept by the
/// application.
#[derive(PartialEq, Eq, Structural, Clone, Copy, Debug)]
pub struct Game {
    pub score: i32,
    pub lives: i32,
    pub wave: i32,
    pub game_state: GameState,
    pub letter_index: i32,
    pub cur_letter: i32,
}

/// The letter under the picker after one step back: `A` wraps round to `Z`.
pub open spec fn letter_back(c: int) -> int {
    if c - 1 < 0 { 25 } else { c - 1 }
}

/// The letter under the picker after one step on: `Z` wraps round to `A`.
pub open spec fn letter_on(c: int) -> int {
    if c + 1 > 25 { 0 } else { c + 1 }
}

impl Game {
    /// The name picker is on one of three letters and shows one of 26; the
    /// player has lives left while the game is on.
    pub open spec fn wf(&self) -> bool {
        &&& 0 <= self.letter_index <= 2
        &&& 0 <= self.cur_letter <= 25
        &&& self.lives >= 0
        &&& (self.game_state == GameState::Intro || self.game_state == GameState::Playing || self.game_state == GameState::Death
            || self.game_state == GameState::_Win) ==> self.lives >= 1
    }

    /// The game after a reset of the given kind: a new game starts at score
    /// 0 with one life at wave 1; the next wave adds 700 to the score; any
    /// reset puts the name picker back on its first letter.
    pub open spec fn spec_reset(self, reset_type: ResetType) -> Game {
        let g = if reset_type == ResetType::New {
            Game { score: 0, lives: 1, wave: 1, ..self }
        } else if reset_type == ResetType::Next {
            Game { score: (self.score + 700) as i32, wave: (self.wave + 1) as i32, ..self }
        } else {
            self
        };
        Game { letter_index: 0, cur_letter: 0, ..g }
    }

    /// A reset of this kind can be made without overflow.
    pub open spec fn can_reset(self, reset_type: ResetType) -> bool {
        reset_type == ResetType::Next ==> self.score <= i32::MAX - 700 && self.wave < i32::MAX
    }

    /// What the application must find out before deciding a frame in this
    /// phase, given whether the timer has time left.
    pub open spec fn spec_work(self, timer_left: bool) -> Work {
        match self.game_state {
            GameState::Playing => Work::Simulate,
            GameState::WaitHighScore => Work::AskHighScore,
            GameState::GameOver => if timer_left { Work::Nothing } else { Work::AskOutro },
            _ => Work::Nothing,
        }
    }

    /// The game and the effects after one frame.
    pub open spec fn spec_step(self, t: Tick) -> (Game, Effects) {
        match self.game_state {
            GameState::Intro => if t.timer_left {
                (self, Effects { count_down: true, ..no_effects() })
            } else if t.any {
                (Game { game_state: GameState::Playing, ..self }, Effects { new_session: true, ..no_effects() })
            } else {
                (self, no_effects())
            },
            GameState::Playing => if !t.player_alive {
                let lives = self.lives - 1;
                let phase = if lives == 0 { GameState::GameOverFastlyTreatment } else { GameState::Death };
                (Game { lives: lives as i32, game_state: phase, ..self }, Effects { start_timer: true, ..no_effects() })
            } else {
                (self, no_effects())
            },
            GameState::Death => if !t.timer_left_after {
                (Game { game_state: GameState::Playing, ..self }, Effects { count_down: true, post_death_reset: true, ..no_effects() })
            } else {
                (self, Effects { count_down: true, ..no_effects() })
            },
            GameState::_Win => if t.timer_left {
                (self, Effects { count_down: true, ..no_effects() })
            } else {
                (Game { game_state: GameState::Playing, ..self.spec_reset(ResetType::Next) },
                 Effects { reset: Some(ResetType::Next), report_score: true, ..no_effects() })
            },
            GameState::GameOverFastlyTreatment => if t.timer_left {
                (self, Effects { count_down: true, force_kill: true, ..no_effects() })
            } else {
                (Game { game_state: GameState::GameOver, ..self }, Effects { start_timer: true, ..no_effects() })
            },
            GameState::CheckHighScore => (Game { game_state: GameState::WaitHighScore, ..self }, Effects { check_high_score: true, ..no_effects() }),
            GameState::WaitHighScore => if t.reply == 1 {
                (Game { game_state: GameState::Intro, ..self.spec_reset(ResetType::New) },
                 Effects { reset: Some(ResetType::New), start_timer: true, ..no_effects() })
            } else if t.reply == 2 {
                (Game { game_state: GameState::ShowHighScore(false, false, false), ..self }, no_effects())
            } else {
                (self, no_effects())
            },
            GameState::ShowHighScore(was_fire, was_left, was_right) => {
                let released_fire = !t.fire && was_fire;
                let advance = released_fire && self.letter_index == 2;
                let letter_index = if released_fire && self.letter_index != 2 { self.letter_index + 1 } else { self.letter_index as int };
                let c0 = if released_fire && self.letter_index != 2 { 0 } else { self.cur_letter as int };
                let c1 = if !t.left && was_left { letter_back(c0) } else { c0 };
                let c2 = if !t.right && was_right { letter_on(c1) } else { c1 };
                let picked = Game {
                    letter_index: letter_index as i32,
                    cur_letter: c2 as i32,
                    game_state: GameState::ShowHighScore(t.fire, t.left, t.right),
                    ..self
                };
                if advance {
                    (Game { game_state: GameState::Intro, ..picked.spec_reset(ResetType::New) },
                     Effects { game_over: true, reset: Some(ResetType::New), start_timer: true, ..no_effects() })
                } else {
                    (picked, no_effects())
                }
            },
            GameState::GameOver => if t.timer_left {
                (self, Effects { count_down: true, ..no_effects() })
            } else if t.reply == 1 {
                (Game { game_state: GameState::CheckHighScore, ..self }, no_effects())
            } else {
                (self, no_effects())
            },
        }
    }

    /// A new game: score 0, one life, wave 1, in the intro, with the name
    /// picker on its first letter.
    pub fn new() -> (g: Game)
        ensures
            g.wf(),
            g == (Game { score: 0, lives: 1, wave: 1, game_state: GameState::Intro, letter_index: 0, cur_letter: 0 }),
    {
        Game { score: 0, lives: 1, wave: 1, game_state: GameState::Intro, letter_index: 0, cur_letter: 0 }
    }

    /// Resets the score, lives and wave as `reset_type` says, and returns
    /// whether the new score must be reported (after a cleared wave). The
    /// world is reset by the application.
    pub fn reset(&mut self, reset_type: ResetType) -> (report: bool)
        requires
            old(self).wf(),
            old(self).can_reset(reset_type),
        ensures
            final(self).wf(),
            *final(self) == old(self).spec_reset(reset_type),
            report == (reset_type == ResetType::Next),
    {
        if reset_type == ResetType::New {
            self.score = 0;
            self.lives = 1;
            self.wave = 1;
        }
        if reset_type == ResetType::Next {
            self.wave = self.wave + 1;
            self.score = self.score + 700;
        }
        self.letter_index = 0;
        self.cur_letter = 0;
        reset_type == ResetType::Next
    }

    /// What the application must find out before this frame is decided.
    pub fn pending_work(&self, timer_left: bool) -> (w: Work)
        ensures
            w == self.spec_work(timer_left),
    {
        match self.game_state {
            GameState::Playing => Work::Simulate,
            GameState::WaitHighScore => Work::AskHighScore,
            GameState::GameOver => if timer_left { Work::Nothing } else { Work::AskOutro },
            _ => Work::Nothing,
        }
    }

    /// Decides one frame of the game: moves it between phases, takes a life
    /// when the ship was destroyed, drives the name picker, and says what
    /// the application must do.
    pub fn step(&mut self, t: Tick) -> (e: Effects)
        requires
            old(self).wf(),
            old(self).game_state == GameState::_Win ==> old(self).can_reset(ResetType::Next),
        ensures
            final(self).wf(),
            (*final(self), e) == old(self).spec_step(t),
    {
        match self.game_state {
            GameState::Intro => {
                if t.timer_left {
                    Effects { count_down: true, ..quiet() }
                } else if t.any {
                    self.game_state = GameState::Playing;
                    Effects { new_session: true, ..quiet() }
                } else {
                    quiet()
                }
            },
            GameState::Playing => {
                if !t.player_alive {
                    self.lives = self.lives - 1;
                    if self.lives == 0 {
                        self.game_state = GameState::GameOverFastlyTreatment;
                    } else {
                        self.game_state = GameState::Death;
                    }
                    Effects { start_timer: true, ..quiet() }
                } else {
                    quiet()
                }
            },
            GameState::Death => {
                if !t.timer_left_after {
                    self.game_state = GameState::Playing;
                    Effects { count_down: true, post_death_reset: true, ..quiet() }
                } else {
                    Effects { count_down: true, ..quiet() }
                }
            },
            GameState::_Win => {
                if t.timer_left {
                    Effects { count_down: true, ..quiet() }
                } else {
                    let report = self.reset(ResetType::Next);
                    self.game_state = GameState::Playing;
                    Effects { reset: Some(ResetType::Next), report_score: report, ..quiet() }
                }
            },
            GameState::GameOverFastlyTreatment => {
                if t.timer_left {
                    Effects { count_down: true, force_kill: true, ..quiet() }
                } else {
                    self.game_state = GameState::GameOver;
                    Effects { start_timer: true, ..quiet() }
                }
            },
            GameState::CheckHighScore => {
                self.game_state = GameState::WaitHighScore;
                Effects { check_high_score: true, ..quiet() }
            },
            GameState::WaitHighScore => {
                if t.reply == 1 {
                    self.reset(ResetType::New);
                    self.game_state = GameState::Intro;
                    Effects { reset: Some(ResetType::New), start_timer: true, ..quiet() }
                } else if t.reply == 2 {
                    self.game_state = GameState::ShowHighScore(false, false, false);
                    quiet()
                } else {
                    quiet()
                }
            },
            GameState::ShowHighScore(was_fire, was_left, was_right) => {
                let mut advance = false;
                if !t.fire && was_fire {
                    if self.letter_index == 2 {
                        advance = true;
                    } else {
                        self.letter_index = self.letter_index + 1;
                        self.cur_letter = 0;
                    }
                }
                if !t.left && was_left {
                    self.cur_letter = self.cur_letter - 1;
                    if self.cur_letter < 0 {
                        self.cur_letter = 25;
                    }
                }
                if !t.right && was_right {
                    self.cur_letter = self.cur_letter + 1;
                    if self.cur_letter > 25 {
                        self.cur_letter = 0;
                    }
                }
                self.game_state = GameState::ShowHighScore(t.fire, t.left, t.right);
                if advance {
                    self.reset(ResetType::New);
                    self.game_state = GameState::Intro;
                    Effects { game_over: true, reset: Some(ResetType::New), start_timer: true, ..quiet() }
                } else {
                    quiet()
                }
            },
            GameState::GameOver => {
                if t.timer_left {
                    Effects { count_down: true, ..quiet() }
                } else if t.reply == 1 {
                    self.game_state = GameState::CheckHighScore;
                    quiet()
                } else {
                    quiet()
                }
            },
        }
    }
}

/// A destroyed ship costs exactly one life, and the game is over exactly
/// when that was the last one; otherwise the player waits to respawn.
pub proof fn lemma_death_costs_one_life(g: Game, t: Tick)
    requires
        g.wf(),
        g.game_state == GameState::Playing,
        !t.player_alive,
    ensures
        g.spec_step(t).0.lives == g.lives - 1,
        g.spec_step(t).0.game_state == GameState::GameOverFastlyTreatment <==> g.lives == 1,
        g.spec_step(t).0.game_state == GameState::Death <==> g.lives > 1,
        g.spec_step(t).0.score == g.score,
{
}

/// Every way back to the intro starts a new game: score 0, one life,
/// wave 1, and the name picker on its first letter.
pub proof fn lemma_back_to_intro_is_new_game(g: Game, t: Tick)
    requires
        g.wf(),
        g.game_state != GameState::Intro,
        g.spec_step(t).0.game_state == GameState::Intro,
    ensures
        g.spec_step(t).0.score == 0,
        g.spec_step(t).0.lives == 1,
        g.spec_step(t).0.wave == 1,
        g.spec_step(t).0.letter_index == 0,
        g.spec_step(t).0.cur_letter == 0,
        g.spec_step(t).1.reset == Some(ResetType::New),
{
}

/// The name picker never leaves the alphabet: whatever keys are released,
/// the letter shown stays between `A` (0) and `Z` (25) and the picker on
/// one of the three letters of the name.
pub proof fn lemma_picker_stays_in_alphabet(g: Game, t: Tick)
    requires
        g.wf(),
        g.game_state is ShowHighScore,
    ensures
        0 <= g.spec_step(t).0.cur_letter <= 25,
        0 <= g.spec_step(t).0.letter_index <= 2,
{
}

/// A timed phase with time left on its timer only runs the timer down: the
/// game stays as it is, in the same phase, and the application is asked to
/// count down (and, in the game-over treatment, to keep killing off the
/// swarm) and nothing else. After a death the timer runs down every frame.
pub proof fn lemma_timers_run_down(g: Game, t: Tick)
    requires
        g.wf(),
    ensures
        t.timer_left && (g.game_state == GameState::Intro || g.game_state == GameState::_Win
            || g.game_state == GameState::GameOverFastlyTreatment || g.game_state == GameState::GameOver) ==> {
            &&& g.spec_step(t).0 == g
            &&& g.spec_step(t).1.count_down
            &&& g.spec_step(t).1.force_kill == (g.game_state == GameState::GameOverFastlyTreatment)
            &&& !g.spec_step(t).1.post_death_reset && !g.spec_step(t).1.game_over
            &&& g.spec_step(t).1.reset is None && !g.spec_step(t).1.report_score
            &&& !g.spec_step(t).1.new_session && !g.spec_step(t).1.check_high_score
            &&& !g.spec_step(t).1.start_timer
        },
        g.game_state == GameState::Death ==> g.spec_step(t).1.count_down,
        !t.timer_left && g.game_state != GameState::Death ==> !g.spec_step(t).1.count_down,
{
}

/// Game over waits for its timer, then for the outro: while the timer has
/// time left the phase stays; once it has run out the game moves on to the
/// high-score check exactly when the outro reports it has finished (1).
pub proof fn lemma_game_over_waits_for_outro(g: Game, t: Tick)
    requires
        g.wf(),
        g.game_state == GameState::GameOver,
    ensures
        t.timer_left ==> g.spec_step(t).0.game_state == GameState::GameOver && g.spec_step(t).1.count_down,
        !t.timer_left ==> (g.spec_step(t).0.game_state == GameState::CheckHighScore <==> t.reply == 1),
        !t.timer_left && t.reply != 1 ==> g.spec_step(t).0 == g,
        g.spec_step(t).0.score == g.score && g.spec_step(t).0.lives == g.lives,
{
}

/// Whether a key was released on this frame: held on the last, not on this.
pub open spec fn released(was: bool, now: bool) -> bool {
    was && !now
}

/// The name picker moves one letter per released key, round the 26 letters:
/// releasing left steps back one (from `A` to `Z`), releasing right steps on
/// one (from `Z` to `A`); releasing fire moves to the next of the three
/// letters and starts it at `A`, or, on the last letter, ends the entry.
pub proof fn lemma_picker_steps_one_letter(g: Game, t: Tick, was_fire: bool, was_left: bool, was_right: bool)
    requires
        g.wf(),
        g.game_state == GameState::ShowHighScore(was_fire, was_left, was_right),
    ensures
        ({
            let next_field = released(was_fire, t.fire) && g.letter_index < 2;
            let start = if next_field { 0 } else { g.cur_letter as int };
            let back: int = if released(was_left, t.left) { 1 } else { 0 };
            let on: int = if released(was_right, t.right) { 1 } else { 0 };
            !(released(was_fire, t.fire) && g.letter_index == 2) ==> {
                &&& g.spec_step(t).0.cur_letter == (start - back + on + 26) % 26
                &&& g.spec_step(t).0.letter_index == g.letter_index + if next_field { 1int } else { 0int }
                &&& g.spec_step(t).0.game_state == GameState::ShowHighScore(t.fire, t.left, t.right)
            }
        }),
        released(was_fire, t.fire) && g.letter_index == 2 ==> g.spec_step(t).0.game_state == GameState::Intro
            && g.spec_step(t).1.game_over,
{
}

/// Only a frame of play is played out: the application simulates the frame
/// exactly when the game is in play. It asks the high-score service exactly
/// while waiting for it, asks for the outro exactly when the game-over
/// timer has run out, and otherwise has nothing to find out.
pub proof fn lemma_work_by_phase(g: Game, timer_left: bool)
    ensures
        g.spec_work(timer_left) == Work::Simulate <==> g.game_state == GameState::Playing,
        g.spec_work(timer_left) == Work::AskHighScore <==> g.game_state == GameState::WaitHighScore,
        g.spec_work(timer_left) == Work::AskOutro <==> (g.game_state == GameState::GameOver && !timer_left),
        g.game_state == GameState::GameOverFastlyTreatment ==> g.spec_work(timer_left) == Work::Nothing,
{
}

} // verus!
