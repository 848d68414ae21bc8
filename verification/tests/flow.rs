use invaders::game::Scene;
use invaders::game::{Effects, Game, GameState, ResetType, Tick, Work};

fn tick() -> Tick {
    Tick {
        timer_left: false,
        timer_left_after: false,
        any: false,
        fire: false,
        left: false,
        right: false,
        player_alive: true,
        reply: 0,
    }
}

fn none() -> Effects {
    Effects {
        count_down: false,
        force_kill: false,
        post_death_reset: false,
        game_over: false,
        reset: None,
        report_score: false,
        new_session: false,
        check_high_score: false,
        start_timer: false,
    }
}

#[test]
fn game_starts_in_intro() {
    let g = Game::new();
    assert_eq!(g.score, 0);
    assert_eq!(g.lives, 1);
    assert_eq!(g.wave, 1);
    assert_eq!(g.game_state, GameState::Intro);
    assert_eq!(g.pending_work(true), Work::Nothing);
}

#[test]
fn intro_waits_for_timer_then_key() {
    let mut g = Game::new();
    let e = g.step(Tick { timer_left: true, any: true, ..tick() });
    assert_eq!(e, Effects { count_down: true, ..none() });
    assert_eq!(g.game_state, GameState::Intro);
    assert_eq!(g.step(tick()), none());
    assert_eq!(g.game_state, GameState::Intro);
    let e = g.step(Tick { any: true, ..tick() });
    assert_eq!(e, Effects { new_session: true, ..none() });
    assert_eq!(g.game_state, GameState::Playing);
    assert_eq!(g.pending_work(false), Work::Simulate);
}

#[test]
fn last_life_lost_ends_game() {
    let mut g = Game::new();
    g.game_state = GameState::Playing;
    assert_eq!(g.step(tick()), none());
    let e = g.step(Tick { player_alive: false, ..tick() });
    assert_eq!(e, Effects { start_timer: true, ..none() });
    assert_eq!(g.lives, 0);
    assert_eq!(g.game_state, GameState::GameOverFastlyTreatment);
    let e = g.step(Tick { timer_left: true, ..tick() });
    assert_eq!(e, Effects { count_down: true, force_kill: true, ..none() });
    let e = g.step(tick());
    assert_eq!(e, Effects { start_timer: true, ..none() });
    assert_eq!(g.game_state, GameState::GameOver);
    assert_eq!(g.pending_work(true), Work::Nothing);
    assert_eq!(g.pending_work(false), Work::AskOutro);
    assert_eq!(g.step(Tick { reply: 0, ..tick() }), none());
    assert_eq!(g.game_state, GameState::GameOver);
    g.step(Tick { reply: 1, ..tick() });
    assert_eq!(g.game_state, GameState::CheckHighScore);
    let e = g.step(tick());
    assert_eq!(e, Effects { check_high_score: true, ..none() });
    assert_eq!(g.game_state, GameState::WaitHighScore);
    assert_eq!(g.pending_work(false), Work::AskHighScore);
}

#[test]
fn death_with_lives_left_respawns() {
    let mut g = Game::new();
    g.lives = 2;
    g.game_state = GameState::Playing;
    g.step(Tick { player_alive: false, ..tick() });
    assert_eq!(g.lives, 1);
    assert_eq!(g.game_state, GameState::Death);
    let e = g.step(Tick { timer_left_after: true, ..tick() });
    assert_eq!(e, Effects { count_down: true, ..none() });
    let e = g.step(tick());
    assert_eq!(e, Effects { count_down: true, post_death_reset: true, ..none() });
    assert_eq!(g.game_state, GameState::Playing);
}

#[test]
fn high_score_reply_decides() {
    let mut g = Game::new();
    g.lives = 0;
    g.score = 1234;
    g.game_state = GameState::WaitHighScore;
    assert_eq!(g.step(Tick { reply: 0, ..tick() }), none());
    assert_eq!(g.game_state, GameState::WaitHighScore);
    g.step(Tick { reply: 2, ..tick() });
    assert_eq!(g.game_state, GameState::ShowHighScore(false, false, false));
    let mut h = Game::new();
    h.lives = 0;
    h.score = 1234;
    h.game_state = GameState::WaitHighScore;
    let e = h.step(Tick { reply: 1, ..tick() });
    assert_eq!(e, Effects { reset: Some(ResetType::New), start_timer: true, ..none() });
    assert_eq!(h.game_state, GameState::Intro);
    assert_eq!((h.score, h.lives, h.wave), (0, 1, 1));
}

#[test]
fn name_picker_wraps_and_advances() {
    let mut g = Game::new();
    g.lives = 0;
    g.score = 500;
    g.game_state = GameState::ShowHighScore(false, false, false);
    g.step(Tick { left: true, ..tick() });
    assert_eq!(g.game_state, GameState::ShowHighScore(false, true, false));
    g.step(tick());
    assert_eq!(g.cur_letter, 25);
    g.step(Tick { right: true, ..tick() });
    g.step(tick());
    assert_eq!(g.cur_letter, 0);
    g.step(Tick { right: true, ..tick() });
    g.step(tick());
    assert_eq!(g.cur_letter, 1);
    g.step(Tick { fire: true, ..tick() });
    g.step(tick());
    assert_eq!((g.letter_index, g.cur_letter), (1, 0));
    g.step(Tick { fire: true, ..tick() });
    g.step(tick());
    assert_eq!(g.letter_index, 2);
    g.step(Tick { fire: true, ..tick() });
    let e = g.step(tick());
    assert_eq!(e, Effects { game_over: true, reset: Some(ResetType::New), start_timer: true, ..none() });
    assert_eq!(g.game_state, GameState::Intro);
    assert_eq!((g.score, g.lives, g.wave, g.letter_index, g.cur_letter), (0, 1, 1, 0, 0));
}

#[test]
fn cleared_wave_adds_points() {
    let mut g = Game::new();
    g.score = 100;
    g.game_state = GameState::_Win;
    let e = g.step(Tick { timer_left: true, ..tick() });
    assert_eq!(e, Effects { count_down: true, ..none() });
    let e = g.step(tick());
    assert_eq!(e, Effects { reset: Some(ResetType::Next), report_score: true, ..none() });
    assert_eq!((g.score, g.wave, g.game_state), (800, 2, GameState::Playing));
}

#[test]
fn game_reset_kinds() {
    let mut g = Game::new();
    g.score = 40;
    g.wave = 3;
    g.cur_letter = 7;
    assert!(!g.reset(ResetType::Respawn));
    assert_eq!((g.score, g.wave, g.cur_letter), (40, 3, 0));
    assert!(g.reset(ResetType::Next));
    assert_eq!((g.score, g.wave), (740, 4));
    assert!(!g.reset(ResetType::New));
    assert_eq!((g.score, g.lives, g.wave), (0, 1, 1));
}

#[test]
fn scenes_by_phase() {
    assert_eq!(GameState::Intro.scene(), Scene::Intro);
    assert_eq!(GameState::Playing.scene(), Scene::Field { bullets: true, treatment: false });
    assert_eq!(GameState::Death.scene(), Scene::Field { bullets: true, treatment: false });
    assert_eq!(GameState::GameOverFastlyTreatment.scene(), Scene::Field { bullets: false, treatment: true });
    assert_eq!(GameState::CheckHighScore.scene(), Scene::ClearTreatment);
    assert_eq!(GameState::ShowHighScore(true, false, false).scene(), Scene::NamePicker);
    assert_eq!(GameState::WaitHighScore.scene(), Scene::Blank);
    assert_eq!(GameState::GameOver.scene(), Scene::Blank);
}
