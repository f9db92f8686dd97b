use tilebound::actors::{Enemy, Player, Stat, Stats, StepTimer};
use tilebound::buttons::{AcitonType, GIState, ToggleButton};
use tilebound::combat::{button_reset_system, run_smack_targets, CombatManager, Phase, Turn};
use tilebound::hex::HexCoord;

fn manager_in(turn: Turn, action: Option<AcitonType>) -> CombatManager {
    let mut m = CombatManager::new();
    m.turn = turn;
    m.player_action = action;
    m
}

#[test]
fn new_manager_starts_in_movement() {
    let m = CombatManager::new();
    assert_eq!(m.turn, Turn::Player(Phase::Movement));
    assert_eq!(m.player_action, None);
    assert!(!m.reset_buttons);
}

#[test]
fn three_end_phases_reach_enemies() {
    let mut m = CombatManager::new();
    let mut enemies = vec![Enemy::new(3, 3, 1, 3, 5, 20)];
    enemies[0].ended_turn = true;
    assert!(m.end_phase(&mut enemies));
    assert_eq!(m.turn, Turn::Player(Phase::Action1));
    assert!(m.end_phase(&mut enemies));
    assert_eq!(m.turn, Turn::Player(Phase::Action2));
    assert!(enemies[0].ended_turn);
    assert!(m.end_phase(&mut enemies));
    assert_eq!(m.turn, Turn::Enemies);
    assert!(!enemies[0].ended_turn);
    enemies[0].ended_turn = true;
    assert!(!m.end_phase(&mut enemies));
    assert_eq!(m.turn, Turn::Enemies);
    assert!(enemies[0].ended_turn);
}

#[test]
fn end_phase_refused_while_targeting() {
    let mut m = manager_in(Turn::Player(Phase::Action1), Some(AcitonType::Smack));
    let mut enemies = vec![];
    assert!(!m.end_phase(&mut enemies));
    assert_eq!(m.turn, Turn::Player(Phase::Action1));
}

#[test]
fn action_button_toggles_selection() {
    let mut m = manager_in(Turn::Player(Phase::Action1), None);
    let mut toggle = ToggleButton::new();
    let mut enemies = vec![];
    assert_eq!(m.press_action_button(AcitonType::Fireball, &mut toggle, &mut enemies), Some(GIState::Unlocked));
    assert!(toggle.is_on);
    assert_eq!(m.player_action, Some(AcitonType::Fireball));
    assert_eq!(m.press_action_button(AcitonType::Fireball, &mut toggle, &mut enemies), Some(GIState::Locked));
    assert!(!toggle.is_on);
    assert_eq!(m.player_action, None);
}

#[test]
fn action_button_ignored_in_movement_phase() {
    let mut m = CombatManager::new();
    let mut toggle = ToggleButton::new();
    let mut enemies = vec![];
    assert_eq!(m.press_action_button(AcitonType::Smack, &mut toggle, &mut enemies), None);
    assert!(!toggle.is_on);
    assert_eq!(m, CombatManager::new());
}

#[test]
fn end_phase_button_locks() {
    let mut m = CombatManager::new();
    let mut toggle = ToggleButton::new();
    let mut enemies = vec![];
    assert_eq!(m.press_action_button(AcitonType::EndPhase, &mut toggle, &mut enemies), Some(GIState::Locked));
    assert_eq!(m.turn, Turn::Player(Phase::Action1));
}

#[test]
fn smack_adjacent_enemy_deals_double_damage() {
    let player = Player::new(2, 2, 400, (4, 3, 5));
    let mut m = manager_in(Turn::Player(Phase::Action1), Some(AcitonType::Smack));
    let mut enemies = vec![Enemy::new(3, 2, 1, 3, 5, 100), Enemy::new(0, 0, 1, 3, 5, 100)];
    assert!(m.commit_action(&player, &HexCoord::new(3, 2), false, &mut enemies));
    assert_eq!(enemies[0].health.hp, 94);
    assert_eq!(enemies[1].health.hp, 100);
    assert_eq!(m.turn, Turn::Player(Phase::Action2));
    assert_eq!(m.player_action, None);
    assert!(m.reset_buttons);
}

#[test]
fn smack_at_distance_two_is_rejected() {
    let player = Player::new(2, 2, 400, (4, 3, 5));
    let mut m = manager_in(Turn::Player(Phase::Action1), Some(AcitonType::Smack));
    let mut enemies = vec![Enemy::new(4, 2, 1, 3, 5, 100)];
    assert!(!m.commit_action(&player, &HexCoord::new(4, 2), false, &mut enemies));
    assert_eq!(enemies[0].health.hp, 100);
    assert_eq!(m.turn, Turn::Player(Phase::Action1));
    assert_eq!(m.player_action, Some(AcitonType::Smack));
    assert!(!m.reset_buttons);
}

#[test]
fn fireball_deals_ten_times_damage_and_ends_player_turn() {
    let player = Player::new(0, 0, 400, (4, 3, 5));
    let mut m = manager_in(Turn::Player(Phase::Action2), Some(AcitonType::Fireball));
    let mut enemies = vec![Enemy::new(6, 5, 1, 3, 5, 100)];
    enemies[0].ended_turn = true;
    assert!(m.commit_action(&player, &HexCoord::new(6, 5), false, &mut enemies));
    assert_eq!(enemies[0].health.hp, 70);
    assert_eq!(m.turn, Turn::Enemies);
    assert!(!enemies[0].ended_turn);
}

#[test]
fn fireball_on_obstructed_tile_is_rejected() {
    let player = Player::new(0, 0, 400, (4, 3, 5));
    let mut m = manager_in(Turn::Player(Phase::Action1), Some(AcitonType::Fireball));
    let mut enemies = vec![Enemy::new(2, 2, 1, 3, 5, 100)];
    assert!(!m.commit_action(&player, &HexCoord::new(2, 2), true, &mut enemies));
    assert_eq!(enemies[0].health.hp, 100);
}

#[test]
fn run_smack_hits_jump_offsets() {
    let player = Player::new(2, 2, 400, (4, 3, 5));
    let targets = run_smack_targets(&HexCoord::new(2, 2));
    assert_eq!(
        targets,
        vec![
            HexCoord::new(4, 2),
            HexCoord::new(0, 2),
            HexCoord::new(3, 4),
            HexCoord::new(3, 0),
            HexCoord::new(1, 4),
            HexCoord::new(1, 0),
        ]
    );
    let mut m = manager_in(Turn::Player(Phase::Action1), Some(AcitonType::RunSmack));
    let mut enemies = vec![Enemy::new(3, 4, 1, 3, 5, 100)];
    assert!(m.commit_action(&player, &HexCoord::new(3, 4), false, &mut enemies));
    assert_eq!(enemies[0].health.hp, 85);
    let mut m = manager_in(Turn::Player(Phase::Action1), Some(AcitonType::RunSmack));
    assert!(!m.commit_action(&player, &HexCoord::new(3, 2), false, &mut enemies));
    assert_eq!(enemies[0].health.hp, 85);
}

#[test]
fn commit_without_selection_does_nothing() {
    let player = Player::new(2, 2, 400, (4, 3, 5));
    let mut m = manager_in(Turn::Player(Phase::Action1), None);
    let mut enemies = vec![Enemy::new(3, 2, 1, 3, 5, 100)];
    assert!(!m.commit_action(&player, &HexCoord::new(3, 2), false, &mut enemies));
    assert_eq!(enemies[0].health.hp, 100);
}

#[test]
fn button_reset_releases_toggles_once() {
    let mut m = CombatManager::new();
    m.reset_buttons = true;
    let mut toggles = vec![ToggleButton { is_on: true }, ToggleButton { is_on: false }];
    assert!(button_reset_system(&mut m, &mut toggles));
    assert!(!m.reset_buttons);
    assert!(toggles.iter().all(|t| !t.is_on));
    toggles[0].is_on = true;
    assert!(!button_reset_system(&mut m, &mut toggles));
    assert!(toggles[0].is_on);
}

#[test]
fn step_timer_fires_and_keeps_remainder() {
    let mut t = StepTimer::new(500);
    assert!(!t.tick(200));
    assert_eq!(t.elapsed_ms, 200);
    assert!(t.tick(300));
    assert_eq!(t.elapsed_ms, 0);
    assert!(t.tick(1200));
    assert_eq!(t.elapsed_ms, 200);
}

#[test]
fn player_new_derives_health_and_speed() {
    let p = Player::new(1, 2, 400, (4, 3, 5));
    assert_eq!(p.hex_coord, HexCoord::new(1, 2));
    assert_eq!(p.health.max_hp, 100);
    assert_eq!(p.health.hp, 100);
    assert_eq!(p.remaining_speed, 4);
    assert_eq!(p.stats.to_tupple(), (4, 3, 5));
    assert_eq!(p.respawn_point.world, "1");
    assert_eq!(p.respawn_point.coord, HexCoord::new(0, 0));
    assert_eq!(p.move_timer.elapsed_ms, 350);
}

#[test]
fn reset_move_timer_sets_almost_finished() {
    let mut p = Player::new(1, 2, 400, (4, 3, 5));
    p.move_timer.elapsed_ms = 0;
    p.reset_move_timer();
    assert_eq!(p.move_timer.elapsed_ms, 350);
}

#[test]
fn stat_points_are_shared() {
    let mut s = Stats { speed: 3, damage: 3, health: 3 };
    assert!(s.modify(Stat::Speed, 1));
    assert_eq!(s.to_tupple(), (4, 3, 3));
    assert!(!s.modify(Stat::Damage, 1));
    assert_eq!(s.to_tupple(), (4, 3, 3));
    assert!(s.modify(Stat::Health, -2));
    assert_eq!(s.to_tupple(), (4, 3, 1));
    assert!(!s.modify(Stat::Health, -1));
    assert_eq!(s.to_tupple(), (4, 3, 1));
}
