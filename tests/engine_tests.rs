use arena_engine::directory::SessionDirectory;
use arena_engine::engine::{GameAction, GameRules, PhysicsEngine};
use arena_engine::entities::{
    apply_damage, display_name, health_above_floor, movement_impulses, BodyKey, MoveDirection,
    DEFAULT_STARTING_HEALTH, FIRE_COOLDOWN, HEALTH_FLOOR, MAX_BULLET_AGE,
};

fn key(index: u32) -> BodyKey {
    BodyKey { index, generation: 0 }
}

fn rules() -> GameRules {
    GameRules::new(DEFAULT_STARTING_HEALTH, 1000).unwrap()
}

fn idle() -> GameAction {
    GameAction { w: false, a: false, s: false, d: false, dir: 0, click: false }
}

fn joined(conns: &[u64]) -> PhysicsEngine {
    let mut e = PhysicsEngine::new(rules());
    for &c in conns {
        e.connect(c);
        assert_eq!(e.join(c, format!("user{}", c), key(c as u32)), None);
    }
    e
}

#[test]
fn damage_reduces_health_by_the_configured_amount() {
    assert_eq!(apply_damage(10000, 1000), 9000);
    assert_eq!(apply_damage(6000, 1000), 5000);
}

#[test]
fn damage_clamps_at_the_floor() {
    assert_eq!(apply_damage(5500, 1000), HEALTH_FLOOR);
    assert_eq!(apply_damage(5000, 1000), HEALTH_FLOOR);
    assert_eq!(apply_damage(100, 1000), HEALTH_FLOOR);
}

#[test]
fn health_above_floor_is_the_reported_share() {
    assert_eq!(health_above_floor(10000), 5000);
    assert_eq!(health_above_floor(7500), 2500);
    assert_eq!(health_above_floor(5000), 0);
    assert_eq!(health_above_floor(12), 0);
}

#[test]
fn empty_username_becomes_placeholder() {
    assert_eq!(display_name(String::new()), "Unnamed");
    assert_eq!(display_name(String::from("alice")), "alice");
}

#[test]
fn rules_reject_starting_health_at_floor() {
    assert!(GameRules::new(HEALTH_FLOOR, 10).is_none());
    assert!(GameRules::new(0, 10).is_none());
    let r = GameRules::new(HEALTH_FLOOR + 1, 10).unwrap();
    assert_eq!(r.starting_health, HEALTH_FLOOR + 1);
    assert_eq!(r.bullet_damage, 10);
}

#[test]
fn movement_impulses_follow_flags_in_order() {
    assert_eq!(movement_impulses(true, false, false, false), vec![MoveDirection::Up]);
    assert_eq!(
        movement_impulses(true, true, true, true),
        vec![MoveDirection::Up, MoveDirection::Left, MoveDirection::Down, MoveDirection::Right]
    );
    assert!(movement_impulses(false, false, false, false).is_empty());
}

#[test]
fn move_units_are_axis_aligned() {
    assert_eq!(MoveDirection::Up.unit(), (0, -1));
    assert_eq!(MoveDirection::Left.unit(), (-1, 0));
    assert_eq!(MoveDirection::Down.unit(), (0, 1));
    assert_eq!(MoveDirection::Right.unit(), (1, 0));
}

#[test]
fn directory_register_get_update_remove() {
    let mut d = SessionDirectory::new();
    d.register(7);
    let info = d.get(7);
    assert_eq!(info.username, "");
    assert_eq!(info.dir, 0);
    d.set_username(7, String::from("bob"));
    d.set_facing(7, 1.5f32.to_bits());
    let info = d.get(7);
    assert_eq!(info.username, "bob");
    assert_eq!(f32::from_bits(info.dir), 1.5);
    d.remove(7);
    assert_eq!(d.get(7).username, "");
    d.remove(7);
}

#[test]
fn directory_ignores_updates_of_unknown_ids() {
    let mut d = SessionDirectory::new();
    d.set_username(3, String::from("ghost"));
    d.set_facing(3, 9);
    let info = d.get(3);
    assert_eq!(info.username, "");
    assert_eq!(info.dir, 0);
}

#[test]
fn join_and_exit_keep_one_player_per_connection() {
    let mut e = joined(&[1, 2, 3]);
    assert_eq!(e.player_count(), 3);
    assert_eq!(e.exit(2), Some(key(2)));
    assert_eq!(e.player_count(), 2);
    assert_eq!(e.exit(2), None);
    assert_eq!(e.player_count(), 2);
    // joining again respawns with a new body and hands back the old one
    assert_eq!(e.join(1, String::from("again"), key(11)), Some(key(1)));
    assert_eq!(e.player_count(), 2);
    assert_eq!(e.player(1).unwrap().body, key(11));
    assert_eq!(e.join(4, String::new(), key(4)), None);
    assert_eq!(e.player_count(), 3);
}

#[test]
fn join_records_name_and_exit_drops_session() {
    let mut e = joined(&[1]);
    assert_eq!(e.session(1).username, "user1");
    e.connect(2);
    e.join(2, String::new(), key(2));
    assert_eq!(e.session(2).username, "Unnamed");
    e.exit(2);
    assert_eq!(e.session(2).username, "");
}

#[test]
fn actions_of_unknown_connections_are_ignored() {
    let mut e = joined(&[1]);
    let mut act = idle();
    act.click = true;
    act.w = true;
    assert!(e.game_action(99, act).is_none());
    assert_eq!(e.player(1).unwrap().bullet_cooldown, 0);
}

#[test]
fn fire_only_when_cooldown_has_run_out() {
    let mut e = joined(&[1]);
    let mut act = idle();
    act.click = true;
    let plan = e.game_action(1, act).unwrap();
    assert!(plan.fire);
    assert_eq!(e.player(1).unwrap().bullet_cooldown, FIRE_COOLDOWN);
    assert!(!e.game_action(1, act).unwrap().fire);
    e.tick();
    assert_eq!(e.player(1).unwrap().bullet_cooldown, FIRE_COOLDOWN - 1);
    assert!(!e.game_action(1, act).unwrap().fire);
    for _ in 0..(FIRE_COOLDOWN - 1) {
        e.tick();
    }
    assert_eq!(e.player(1).unwrap().bullet_cooldown, 0);
    e.tick();
    assert_eq!(e.player(1).unwrap().bullet_cooldown, 0);
    assert!(e.game_action(1, act).unwrap().fire);
    assert_eq!(e.player(1).unwrap().bullet_cooldown, FIRE_COOLDOWN);
}

#[test]
fn bullet_removed_after_maximum_age() {
    let mut e = joined(&[1]);
    e.register_bullet(key(50));
    for _ in 0..MAX_BULLET_AGE {
        let r = e.tick();
        assert!(r.expired_bullets.is_empty());
        assert_eq!(r.snapshots[0].bullets, vec![key(50)]);
    }
    let r = e.tick();
    assert_eq!(r.expired_bullets, vec![key(50)]);
    assert!(r.snapshots[0].bullets.is_empty());
    assert_eq!(e.bullet_count(), 0);
}

#[test]
fn game_over_is_reported_once_and_player_leaves_snapshots() {
    let mut e = PhysicsEngine::new(GameRules::new(7000, 1000).unwrap());
    e.connect(1);
    e.connect(2);
    e.join(1, String::from("a"), key(1));
    e.join(2, String::from("b"), key(2));
    e.record_collision(key(1));
    let r = e.tick();
    assert!(r.game_over.is_empty());
    assert_eq!(e.player(1).unwrap().health, 6000);
    e.record_collision(key(1));
    e.record_collision(key(1));
    let r = e.tick();
    assert_eq!(r.game_over.len(), 1);
    assert_eq!(r.game_over[0].conn, 1);
    assert_eq!(r.game_over[0].health, HEALTH_FLOOR);
    assert_eq!(r.snapshots.len(), 1);
    assert_eq!(r.snapshots[0].recipient, 2);
    assert!(r.snapshots[0].enemies.is_empty());
    assert!(e.player(1).is_none());
    let r = e.tick();
    assert!(r.game_over.is_empty());
}

#[test]
fn snapshot_enemies_exclude_recipient() {
    let mut e = joined(&[1, 2, 3]);
    let r = e.tick();
    assert_eq!(r.snapshots.len(), 3);
    for s in &r.snapshots {
        assert_eq!(s.enemies.len(), 2);
        assert!(s.enemies.iter().all(|en| en.conn != s.recipient));
    }
    let s = &r.snapshots[0];
    assert_eq!(s.recipient, 1);
    assert_eq!(s.body, key(1));
    assert_eq!(s.health, DEFAULT_STARTING_HEALTH);
    assert_eq!(s.enemies[0].conn, 2);
    assert_eq!(s.enemies[0].username, "user2");
    assert_eq!(s.enemies[1].conn, 3);
    assert_eq!(s.enemies[1].body, key(3));
}

#[test]
fn snapshot_enemy_without_session_has_empty_name() {
    let mut e = PhysicsEngine::new(rules());
    e.join(1, String::from("a"), key(1));
    e.join(2, String::from("b"), key(2));
    let r = e.tick();
    assert_eq!(r.snapshots[0].enemies[0].username, "");
}

#[test]
fn movement_ignores_aim() {
    let mut e = joined(&[1]);
    let mut act = idle();
    act.w = true;
    for dir in [0.0f32, 1.0, 3.14, -2.5] {
        act.dir = dir.to_bits();
        let plan = e.game_action(1, act).unwrap();
        assert_eq!(plan.impulses, vec![MoveDirection::Up]);
        assert_eq!(plan.body, key(1));
        assert_eq!(e.player(1).unwrap().dir, dir.to_bits());
        assert_eq!(f32::from_bits(e.session(1).dir), dir);
    }
}

#[test]
fn two_players_only_mover_gets_impulses() {
    let mut e = joined(&[1, 2]);
    let mut act = idle();
    act.w = true;
    for _ in 0..10 {
        let plan = e.game_action(1, act).unwrap();
        assert_eq!(plan.impulses, vec![MoveDirection::Up]);
        assert_eq!(MoveDirection::Up.unit().1, -1);
        let r = e.tick();
        assert_eq!(r.snapshots.len(), 2);
    }
    let idle_plan = e.game_action(2, idle()).unwrap();
    assert!(idle_plan.impulses.is_empty());
    assert!(!idle_plan.fire);
}

#[test]
fn fired_bullet_appears_in_next_snapshot() {
    let mut e = joined(&[1, 2]);
    let mut act = idle();
    act.click = true;
    act.dir = 0.0f32.to_bits();
    let plan = e.game_action(1, act).unwrap();
    assert!(plan.fire);
    assert_eq!(e.player(1).unwrap().bullet_cooldown, 25);
    e.register_bullet(key(40));
    let r = e.tick();
    for s in &r.snapshots {
        assert_eq!(s.bullets, vec![key(40)]);
    }
}

#[test]
fn collision_damages_once_on_following_tick() {
    let mut e = joined(&[1, 2]);
    e.record_collision(key(1));
    e.record_collision(key(40));
    assert_eq!(e.player(1).unwrap().health, DEFAULT_STARTING_HEALTH);
    let r = e.tick();
    assert_eq!(e.player(1).unwrap().health, DEFAULT_STARTING_HEALTH - 1000);
    assert_eq!(e.player(2).unwrap().health, DEFAULT_STARTING_HEALTH);
    assert_eq!(r.snapshots[1].enemies[0].health, DEFAULT_STARTING_HEALTH - 1000);
    e.tick();
    assert_eq!(e.player(1).unwrap().health, DEFAULT_STARTING_HEALTH - 1000);
}
