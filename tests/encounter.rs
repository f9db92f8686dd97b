use tilebound::actors::{Enemy, Player};
use tilebound::combat::{CombatManager, Phase, Turn};
use tilebound::enemy_ai::{enemy_ai, update_enemy_health, update_player_health};
use tilebound::hex::{hex_distance, HexCoord};
use tilebound::movement::{blockers, move_player, steps_within_budget};

#[test]
fn movement_truncated_to_remaining_speed() {
    let mut player = Player::new(0, 0, 400, (2, 3, 5));
    let goal = HexCoord::new(5, 0);
    assert_eq!(hex_distance(&player.hex_coord, &goal), 5);
    let combat = Some(CombatManager::new());
    assert!(move_player(&mut player, &goal, &vec![], &vec![], &combat));
    let path = player.path.clone().unwrap();
    assert_eq!(path.len(), 2);
    assert_eq!(hex_distance(&HexCoord::new(0, 0), &path[0]), 1);
    assert_eq!(hex_distance(&path[0], &path[1]), 1);
    assert_eq!(player.remaining_speed, 0);
}

#[test]
fn movement_outside_combat_queues_whole_path() {
    let mut player = Player::new(0, 0, 400, (2, 3, 5));
    let goal = HexCoord::new(3, 2);
    assert!(move_player(&mut player, &goal, &vec![], &vec![], &None));
    let path = player.path.clone().unwrap();
    assert_eq!(path.len(), 5);
    assert_eq!(path[0], HexCoord::new(0, 0));
    assert_eq!(path[4], goal);
    assert_eq!(player.remaining_speed, 2);
}

#[test]
fn movement_refused_onto_enemy_or_wall_or_wrong_phase() {
    let mut player = Player::new(0, 0, 400, (2, 3, 5));
    let combat = Some(CombatManager::new());
    assert!(!move_player(&mut player, &HexCoord::new(1, 0), &vec![], &vec![HexCoord::new(1, 0)], &combat));
    assert!(!move_player(&mut player, &HexCoord::new(1, 0), &vec![HexCoord::new(1, 0)], &vec![], &combat));
    let mut later = CombatManager::new();
    later.turn = Turn::Player(Phase::Action1);
    assert!(!move_player(&mut player, &HexCoord::new(1, 0), &vec![], &vec![], &Some(later)));
    assert!(!move_player(&mut player, &HexCoord::new(0, 0), &vec![], &vec![], &None));
    assert!(player.path.is_none());
    assert_eq!(player.remaining_speed, 2);
}

#[test]
fn steps_within_budget_drops_start_and_tail() {
    let w = vec![HexCoord::new(0, 0), HexCoord::new(1, 0), HexCoord::new(2, 0), HexCoord::new(3, 0)];
    assert_eq!(steps_within_budget(&w, 2), vec![HexCoord::new(1, 0), HexCoord::new(2, 0)]);
    assert_eq!(steps_within_budget(&w, 10), vec![HexCoord::new(1, 0), HexCoord::new(2, 0), HexCoord::new(3, 0)]);
    assert_eq!(steps_within_budget(&w, 0), vec![]);
    assert_eq!(steps_within_budget(&w, -3), vec![]);
}

#[test]
fn blockers_leave_out_the_mover() {
    let me = HexCoord::new(1, 1);
    let b = blockers(&vec![HexCoord::new(0, 0)], &vec![HexCoord::new(5, 5), me, HexCoord::new(2, 2)], &me);
    assert_eq!(b, vec![HexCoord::new(0, 0), HexCoord::new(5, 5), HexCoord::new(2, 2)]);
}

#[test]
fn enemy_walks_up_and_strikes() {
    let mut m = CombatManager::new();
    m.turn = Turn::Enemies;
    let mut player = Player::new(0, 0, 400, (4, 3, 5));
    player.remaining_speed = 0;
    let mut enemies = vec![Enemy::new(3, 0, 1, 5, 7, 30)];
    let mut ticks = 0;
    while m.turn == Turn::Enemies && ticks < 20 {
        enemy_ai(&mut m, &mut enemies, &mut player, &vec![], 500);
        ticks += 1;
    }
    assert_eq!(m.turn, Turn::Player(Phase::Movement));
    assert_eq!(enemies[0].hex_coord, HexCoord::new(1, 0));
    assert_eq!(player.health.hp, 93);
    assert_eq!(player.remaining_speed, 4);
    assert!(enemies[0].ended_turn);
    assert!(enemies[0].path.is_none());
}

#[test]
fn enemy_out_of_moves_ends_turn_without_striking() {
    let mut m = CombatManager::new();
    m.turn = Turn::Enemies;
    let mut player = Player::new(0, 0, 400, (4, 3, 5));
    let mut enemies = vec![Enemy::new(6, 0, 1, 2, 7, 30)];
    let mut ticks = 0;
    while m.turn == Turn::Enemies && ticks < 20 {
        enemy_ai(&mut m, &mut enemies, &mut player, &vec![], 500);
        ticks += 1;
    }
    assert_eq!(m.turn, Turn::Player(Phase::Movement));
    assert_eq!(enemies[0].hex_coord, HexCoord::new(4, 0));
    assert_eq!(player.health.hp, 100);
}

#[test]
fn enemy_ai_idle_outside_enemy_phase() {
    let mut m = CombatManager::new();
    let mut player = Player::new(0, 0, 400, (4, 3, 5));
    let mut enemies = vec![Enemy::new(3, 0, 1, 5, 7, 30)];
    assert!(!enemy_ai(&mut m, &mut enemies, &mut player, &vec![], 500));
    assert_eq!(enemies[0].hex_coord, HexCoord::new(3, 0));
    assert!(enemies[0].path.is_none());
}

#[test]
fn walled_in_enemy_ends_its_turn() {
    let mut m = CombatManager::new();
    m.turn = Turn::Enemies;
    let mut player = Player::new(0, 0, 400, (4, 3, 5));
    let mut enemies = vec![Enemy::new(4, 4, 1, 5, 7, 30)];
    let walls = tilebound::hex::get_neighbors(&HexCoord::new(4, 4));
    assert!(enemy_ai(&mut m, &mut enemies, &mut player, &walls, 100));
    assert_eq!(enemies[0].hex_coord, HexCoord::new(4, 4));
    assert_eq!(m.turn, Turn::Player(Phase::Movement));
}

#[test]
fn defeated_enemies_leave_and_last_ends_encounter() {
    let mut combat = Some(CombatManager::new());
    let mut enemies = vec![Enemy::new(1, 0, 1, 3, 5, 10), Enemy::new(2, 0, 1, 3, 5, 0), Enemy::new(3, 0, 1, 3, 5, 4)];
    enemies[2].health.hp = -6;
    assert!(!update_enemy_health(&mut combat, &mut enemies));
    assert_eq!(enemies.len(), 1);
    assert_eq!(enemies[0].hex_coord, HexCoord::new(1, 0));
    assert!(combat.is_some());
    enemies[0].health.hp = 0;
    assert!(update_enemy_health(&mut combat, &mut enemies));
    assert!(enemies.is_empty());
    assert!(combat.is_none());
}

#[test]
fn defeated_player_respawns_and_encounter_ends() {
    let mut combat = Some(CombatManager::new());
    let mut player = Player::new(4, 4, 400, (4, 3, 5));
    player.health.hp = 10;
    assert!(!update_player_health(&mut player, &mut combat));
    assert!(combat.is_some());
    player.health.hp = -2;
    assert!(update_player_health(&mut player, &mut combat));
    assert_eq!(player.health.hp, 100);
    assert_eq!(player.hex_coord, HexCoord::new(0, 0));
    assert!(combat.is_none());
}
