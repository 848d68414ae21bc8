use invaders::state::{GameState, ResetType as StateReset, State, StateEffects, StateTick, SwarmOutcome};

fn stick() -> StateTick {
    StateTick { timer_left: false, timer_left_after: false, any: false, player_alive: true, swarm: SwarmOutcome::Holding }
}

fn snone() -> StateEffects {
    StateEffects { rebuild_shields: false, count_down: false, post_death_reset: false, reset: None, start_timer: false }
}

#[test]
fn state_new_and_reset() {
    let mut s = State::new();
    assert_eq!((s.score, s.lives, s.wave), (0, 3, 1));
    assert_eq!(s.game_state, GameState::Intro);
    assert!(s.leaderboard.is_empty());
    s.score = 90;
    s.reset(StateReset::Next);
    assert_eq!((s.score, s.lives, s.wave), (90, 3, 2));
    s.reset(StateReset::New);
    assert_eq!((s.score, s.lives, s.wave), (0, 3, 0));
}

#[test]
fn state_flow() {
    let mut s = State::new();
    assert_eq!(s.step(stick()), StateEffects { rebuild_shields: true, ..snone() });
    assert_eq!(s.game_state, GameState::Intro);
    s.step(StateTick { any: true, ..stick() });
    assert_eq!(s.game_state, GameState::Playing);
    assert_eq!(s.step(stick()), snone());
    let e = s.step(StateTick { player_alive: false, ..stick() });
    assert_eq!(e, StateEffects { start_timer: true, ..snone() });
    assert_eq!((s.lives, s.game_state), (2, GameState::Death));
    let e = s.step(stick());
    assert_eq!(e, StateEffects { count_down: true, post_death_reset: true, ..snone() });
    assert_eq!(s.game_state, GameState::Playing);
    s.step(StateTick { swarm: SwarmOutcome::Cleared, ..stick() });
    assert_eq!(s.game_state, GameState::Win);
    let e = s.step(stick());
    assert_eq!(e, StateEffects { reset: Some(StateReset::Next), ..snone() });
    assert_eq!((s.wave, s.game_state), (2, GameState::Playing));
    s.step(StateTick { swarm: SwarmOutcome::Landed, ..stick() });
    assert_eq!(s.game_state, GameState::GameOver);
    assert_eq!(s.lives, 2);
    s.step(StateTick { timer_left: true, any: true, ..stick() });
    assert_eq!(s.game_state, GameState::GameOver);
    let e = s.step(StateTick { any: true, ..stick() });
    assert_eq!(e, StateEffects { reset: Some(StateReset::New), ..snone() });
    assert_eq!((s.score, s.lives, s.wave, s.game_state), (0, 3, 0, GameState::Intro));
}

#[test]
fn state_last_life_overrides_landing() {
    let mut s = State::new();
    s.lives = 1;
    s.game_state = GameState::Playing;
    s.step(StateTick { player_alive: false, swarm: SwarmOutcome::Cleared, ..stick() });
    assert_eq!((s.lives, s.game_state), (0, GameState::GameOver));
    let mut t = State::new();
    t.game_state = GameState::Playing;
    t.step(StateTick { player_alive: false, swarm: SwarmOutcome::Landed, ..stick() });
    assert_eq!((t.lives, t.game_state), (2, GameState::Death));
}
