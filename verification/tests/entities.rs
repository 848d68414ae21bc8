use invaders::player::Player;
use invaders::shield::{damage_shields, BlockState, Shield};
use invaders::swarm::{Ability, Movement, Shift, Swarm};
use invaders::ufo::{StartLocation, Ufo};
use invaders::game::{ColourIndex, ResetType};
use invaders::input::int_to_bool;
use invaders::size::ScreenSize;

fn layout() -> [BlockState; 25] {
    let mut b = [BlockState::Empty; 25];
    for k in 0..5 {
        b[k] = BlockState::Full;
    }
    b[7] = BlockState::Hit;
    b
}

#[test]
fn shield_new_counts_full_blocks() {
    let s = Shield::new(layout());
    assert_eq!(s.num_full, 5);
    assert_eq!(s.num_standing(), 6);
    assert!(s.b == s.def);
}

#[test]
fn shield_full_block_takes_two_hits() {
    let mut s = Shield::new(layout());
    assert_eq!(s.check_hit(Some((1, 0))), Some((1, 0)));
    assert_eq!(s.damage(1, 0), BlockState::Hit);
    assert_eq!(s.check_hit(Some((1, 0))), Some((1, 0)));
    assert_eq!(s.damage(1, 0), BlockState::Empty);
    assert_eq!(s.check_hit(Some((1, 0))), None);
    assert_eq!(s.damage(1, 0), BlockState::Empty);
    assert_eq!(s.num_standing(), 5);
    assert_eq!(s.num_full, 5);
}

#[test]
fn shield_check_hit_misses_outside_and_on_empty() {
    let s = Shield::new(layout());
    assert_eq!(s.check_hit(None), None);
    assert_eq!(s.check_hit(Some((4, 4))), None);
    assert_eq!(s.check_hit(Some((2, 1))), Some((2, 1)));
}

#[test]
fn shield_reset_rebuilds_layout() {
    let mut s = Shield::new(layout());
    s.damage(0, 0);
    s.damage(2, 1);
    s.damage(2, 1);
    assert_eq!(s.num_standing(), 5);
    s.reset();
    assert!(s.b == layout());
    assert_eq!(s.num_standing(), 6);
}

#[test]
fn shield_damage_list_lands_in_order() {
    let mut shields = vec![Shield::new(layout()), Shield::new(layout())];
    let hits = vec![(1, 3, 0), (1, 3, 0), (0, 2, 1), (1, 3, 0)];
    let r = damage_shields(&mut shields, &hits);
    assert_eq!(r, vec![
        (1, 3, BlockState::Hit),
        (1, 3, BlockState::Empty),
        (0, 7, BlockState::Empty),
        (1, 3, BlockState::Empty),
    ]);
    assert_eq!(shields[0].num_standing(), 5);
    assert_eq!(shields[1].num_standing(), 5);
}

#[test]
fn swarm_new_is_full_grid() {
    let s = Swarm::new(10, 5);
    assert_eq!(s.num_alive, 50);
    assert_eq!(s.alive.len(), 50);
    assert!(s.alive.iter().all(|a| *a));
    assert_eq!(s.movement, Movement::RIGHT);
    assert_eq!(s.get_num_drops(), 0);
    assert_eq!(s.level, 0);
}

#[test]
fn swarm_lowest_in_column() {
    let mut s = Swarm::new(10, 5);
    assert_eq!(s.get_lowest_in_column(3), Some(4));
    s.check_hit(Some((3, 4)), Ability::Normal);
    assert_eq!(s.get_lowest_in_column(3), Some(3));
    for row in 0..4 {
        s.check_hit(Some((3, row)), Ability::Normal);
    }
    assert_eq!(s.get_lowest_in_column(3), None);
    assert_eq!(s.num_alive, 45);
}

#[test]
fn swarm_edge_columns() {
    let mut s = Swarm::new(4, 2);
    assert_eq!(s.leftmost_column(), Some(0));
    assert_eq!(s.rightmost_column(), Some(3));
    for row in 0..2 {
        s.check_hit(Some((0, row)), Ability::Bomb);
        s.check_hit(Some((3, row)), Ability::Bomb);
    }
    assert_eq!(s.leftmost_column(), Some(1));
    assert_eq!(s.rightmost_column(), Some(2));
    for row in 0..2 {
        s.check_hit(Some((1, row)), Ability::Bomb);
        s.check_hit(Some((2, row)), Ability::Bomb);
    }
    assert_eq!(s.leftmost_column(), None);
    assert_eq!(s.rightmost_column(), None);
}

#[test]
fn swarm_points_by_row_and_level() {
    let mut s = Swarm::new(10, 5);
    assert_eq!(s.check_hit(Some((0, 0)), Ability::Normal), Some((30, (0, 0))));
    assert_eq!(s.check_hit(Some((0, 1)), Ability::Normal), Some((20, (0, 1))));
    assert_eq!(s.check_hit(Some((0, 3)), Ability::Normal), Some((10, (0, 3))));
    assert_eq!(s.check_hit(Some((0, 3)), Ability::Normal), None);
    s.level = 1;
    assert_eq!(s.check_hit(Some((1, 0)), Ability::Normal), Some((45, (1, 0))));
    assert_eq!(s.check_hit(Some((1, 2)), Ability::Normal), Some((30, (1, 2))));
    assert_eq!(s.check_hit(Some((1, 4)), Ability::Normal), Some((15, (1, 4))));
    s.level = 2;
    assert_eq!(s.check_hit(Some((2, 0)), Ability::Normal), Some((90, (2, 0))));
    assert_eq!(s.check_hit(Some((2, 4)), Ability::Bomb), Some((30, (2, 4))));
    assert_eq!(s.check_hit(None, Ability::Normal), None);
    assert_eq!(s.num_alive, 42);
}

#[test]
fn swarm_turns_at_edges() {
    let mut s = Swarm::new(10, 5);
    assert_eq!(s.move_step(true, true), Some(Shift::Right));
    assert_eq!(s.frame, 1);
    assert_eq!(s.move_step(false, true), None);
    assert_eq!(s.movement, Movement::DOWN(true));
    assert_eq!(s.move_step(false, true), Some(Shift::Down));
    assert_eq!(s.movement, Movement::LEFT);
    assert_eq!(s.get_num_drops(), 1);
    assert_eq!(s.move_step(true, true), Some(Shift::Left));
    assert_eq!(s.move_step(true, false), None);
    assert_eq!(s.movement, Movement::DOWN(false));
    assert_eq!(s.move_step(true, false), Some(Shift::Down));
    assert_eq!(s.movement, Movement::RIGHT);
    assert_eq!(s.get_num_drops(), 2);
    assert_eq!(s.frame, 0);
}

#[test]
fn swarm_fires_in_fixed_order() {
    let mut s = Swarm::new(10, 5);
    assert_eq!(s.fire_volley(), vec![(5, 4), (3, 4), (2, 4), (6, 4)]);
    assert_eq!(s.fire_column, 4);
    assert_eq!(s.fire_volley(), vec![(8, 4), (1, 4), (0, 4), (7, 4)]);
    assert_eq!(s.fire_volley(), vec![(9, 4), (4, 4), (5, 4), (3, 4)]);
    assert_eq!(s.fire_column, 2);
}

#[test]
fn swarm_volley_skips_empty_columns() {
    let mut s = Swarm::new(10, 5);
    for row in 0..5 {
        s.check_hit(Some((3, row)), Ability::Bomb);
    }
    assert_eq!(s.next_spawn_cell(), Some((5, 4)));
    assert_eq!(s.next_spawn_cell(), None);
    s.check_hit(Some((2, 4)), Ability::Bomb);
    assert_eq!(s.next_spawn_cell(), Some((2, 3)));
}

#[test]
fn swarm_kill_last_alive_empties_grid() {
    let mut s = Swarm::new(3, 2);
    assert_eq!(s.get_lowest_alive_cell(), Some((2, 1)));
    assert_eq!(s.kill_last_alive(), Some((2, 1)));
    assert_eq!(s.kill_last_alive(), Some((1, 1)));
    let mut n = 2;
    while s.kill_last_alive().is_some() {
        n += 1;
    }
    assert_eq!(n, 6);
    assert_eq!(s.num_alive, 0);
    assert_eq!(s.get_lowest_alive_cell(), None);
    assert_eq!(s.kill_last_alive(), None);
}

#[test]
fn swarm_reset_kinds() {
    let mut s = Swarm::new(10, 5);
    s.check_hit(Some((0, 0)), Ability::Normal);
    s.move_step(false, false);
    s.fire_volley();
    s.reset(ResetType::Respawn);
    assert_eq!(s.num_alive, 49);
    assert_eq!(s.movement, Movement::DOWN(true));
    s.reset(ResetType::Next);
    assert_eq!(s.level, 1);
    assert_eq!(s.num_alive, 50);
    assert_eq!(s.movement, Movement::RIGHT);
    assert_eq!(s.fire_column, 0);
    s.reset(ResetType::New);
    assert_eq!(s.level, 1);
    assert_eq!(s.num_alive, 50);
}

fn mask() -> [i32; 121] {
    let mut m = [0; 121];
    m[5] = 1;
    m[110] = 1;
    m
}

#[test]
fn player_hit_mask() {
    let mut p = Player::new(mask());
    assert!(p.alive);
    assert!(!p.check_hit(None));
    assert!(!p.check_hit(Some((4, 0))));
    assert!(p.alive);
    assert!(p.check_hit(Some((5, 0))));
    assert!(!p.alive);
    assert!(!p.check_hit(Some((4, 0))));
    assert!(!p.alive);
    let mut q = Player::new(mask());
    assert!(q.check_hit(Some((0, 10))));
}

#[test]
fn ufo_alternates_sides_and_scores() {
    let mut u = Ufo::new();
    assert!(!u.active);
    assert_eq!(u.launch(), StartLocation::RIGHT);
    assert!(u.active);
    assert_eq!(u.check_hit(false, true), None);
    assert_eq!(u.check_hit(true, false), None);
    assert_eq!(u.check_hit(true, true), Some(300));
    assert!(!u.active);
    assert_eq!(u.check_hit(true, true), None);
    assert_eq!(u.launch(), StartLocation::LEFT);
    u.reset(ResetType::Next);
    u.reset(ResetType::Next);
    u.reset(ResetType::Next);
    assert_eq!(u.level, 3);
    assert_eq!(u.launch(), StartLocation::RIGHT);
    assert_eq!(u.check_hit(true, true), Some(1350));
    u.reset(ResetType::Respawn);
    assert_eq!(u.level, 3);
}

#[test]
fn colour_codes_and_flags() {
    assert_eq!(ColourIndex::WHITE.code(), 0);
    assert_eq!(ColourIndex::BLUE.code(), 1);
    assert!(int_to_bool(1));
    assert!(int_to_bool(-7));
    assert!(!int_to_bool(0));
    let s = ScreenSize::default();
    assert_eq!(s, ScreenSize { _width: 0, _height: 0 });
}

#[test]
fn swarm_without_rows_has_no_lowest() {
    let s = Swarm::new(4, 0);
    assert_eq!(s.num_alive, 0);
    assert_eq!(s.get_lowest_in_column(7), None);
    assert_eq!(s.leftmost_column(), None);
    assert_eq!(s.get_lowest_alive_cell(), None);
}

#[test]
fn swarm_firing_checks() {
    let s = Swarm::new(10, 5);
    assert!(s.can_fire());
    assert!(s.can_fire_volley_now());
    let narrow = Swarm::new(4, 5);
    assert!(!narrow.can_fire());
    assert!(!narrow.can_fire_volley_now());
    let nine = Swarm::new(9, 5);
    assert!(nine.can_fire_volley_now());
    let flat = Swarm::new(3, 0);
    assert!(flat.can_fire_volley_now());
}

#[test]
fn swarm_hit_on_dead_enemy_scores_nothing() {
    let mut s = Swarm::new(10, 5);
    assert_eq!(s.check_hit(Some((4, 2)), Ability::Bomb), Some((30, (4, 2))));
    assert_eq!(s.check_hit(Some((4, 2)), Ability::Bomb), None);
    assert_eq!(s.check_hit(Some((4, 2)), Ability::Normal), None);
    assert_eq!(s.num_alive, 49);
}

#[test]
fn swarm_kill_all_empties_grid_from_the_end() {
    let mut s = Swarm::new(3, 2);
    s.check_hit(Some((1, 1)), Ability::Bomb);
    assert_eq!(s.kill_all(), vec![(2, 1), (0, 1), (2, 0), (1, 0), (0, 0)]);
    assert_eq!(s.num_alive, 0);
    assert!(s.alive.iter().all(|a| !*a));
    assert_eq!(s.kill_all(), vec![]);
}

#[test]
fn swarm_points_at_high_levels() {
    let mut s = Swarm::new(10, 5);
    s.level = 10001;
    assert_eq!(s.check_hit(Some((0, 0)), Ability::Normal), Some((450045, (0, 0))));
    s.level = 372828;
    assert_eq!(s.check_hit(Some((1, 0)), Ability::Normal), Some((16777260, (1, 0))));
    s.level = 1118482;
    assert_eq!(s.check_hit(Some((1, 1)), Ability::Normal), Some((33554460, (1, 1))));
    assert_eq!(s.check_hit(Some((1, 4)), Ability::Normal), Some((16777230, (1, 4))));
    s.level = usize::MAX;
    assert_eq!(s.check_hit(Some((2, 0)), Ability::Bomb), Some((30, (2, 0))));
}

#[test]
fn ufo_points_at_high_level() {
    let mut u = Ufo::new();
    u.level = 74566;
    u.launch();
    assert_eq!(u.check_hit(true, true), Some(33554700));
    u.level = i32::MAX;
    assert_eq!(u.check_hit(true, true), None);
}

#[test]
fn swarm_killed_enemy_not_hit_again() {
    let mut s = Swarm::new(10, 5);
    assert_eq!(s.check_hit(Some((6, 3)), Ability::Normal), Some((10, (6, 3))));
    let before = s.alive.clone();
    assert_eq!(s.check_hit(Some((6, 3)), Ability::Normal), None);
    assert_eq!(s.check_hit(Some((6, 3)), Ability::Bomb), None);
    assert!(s.alive == before);
    assert_eq!(s.num_alive, 49);
}
