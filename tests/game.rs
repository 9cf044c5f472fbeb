use arcade_survival::game::{
    gameover, move_a_player, pending_spawns, shoot_bullets, spawn_enemies, update_enemies, Bullet,
    Enemy, Game,
};
use arcade_survival::geometry::Vec2;

fn v(x: i64, y: i64) -> Vec2 {
    Vec2 { x, y }
}

fn fresh() -> Game {
    Game::create_initial_state(800, 480, 100, 100)
}

fn add_enemy(g: &mut Game, x: i64, y: i64, size: i64) {
    g.max_enemies.push(Enemy { position: v(x, y), size });
    g.enemy_count += 1;
}

fn add_bullet(g: &mut Game, x: i64, y: i64, size: i64) {
    g.max_bullets.push(Bullet {
        position: v(x, y),
        direction: v(0, 0),
        speed: 30_000_000,
        size,
        pierce: 40,
    });
    g.bullet_count += 1;
}

#[test]
fn initial_state_defaults() {
    let g = fresh();
    assert_eq!(g.player_pos, v(400_000_000, 240_000_000));
    assert_eq!(g.game_time, 20);
    assert_eq!(g.player_size, 30_000_000);
    assert_eq!(g.player_speed, 1_000_000_000);
    assert_eq!(g.shoot_delay, 300_000);
    assert_eq!(g.bullet_speed, 30_000_000);
    assert_eq!(g.bullet_size, 15_000_000);
    assert_eq!(g.bullet_pierce, 40);
    assert_eq!(g.shoot_time, 0);
    assert_eq!(g.enemy_spawn_time, 0);
    assert_eq!(g.enemy_count, 0);
    assert_eq!(g.bullet_count, 0);
    assert!(g.max_enemies.is_empty());
    assert!(g.max_bullets.is_empty());
}

#[test]
fn first_shot_on_third_frame() {
    let mut g = fresh();
    let target = v(500_000_000, 240_000_000);
    shoot_bullets(&mut g, true, target, 100_000, 100);
    assert_eq!(g.bullet_count, 0);
    assert_eq!(g.shoot_time, 100_000);
    shoot_bullets(&mut g, true, target, 100_000, 100);
    assert_eq!(g.bullet_count, 0);
    assert_eq!(g.shoot_time, 200_000);
    shoot_bullets(&mut g, true, target, 100_000, 100);
    assert_eq!(g.bullet_count, 1);
    assert_eq!(g.max_bullets.len(), 1);
    assert_eq!(g.shoot_time, 0);
    let b = g.max_bullets[0];
    assert_eq!(b.direction, v(1_000_000, 0));
    assert_eq!(b.size, 5_000_000);
    assert_eq!(b.speed, 30_000_000);
    assert_eq!(b.pierce, 40);
    assert_eq!(b.position, v(403_000_000, 240_000_000));
    shoot_bullets(&mut g, true, target, 100_000, 100);
    assert_eq!(g.bullet_count, 1);
    assert_eq!(g.shoot_time, 100_000);
    assert_eq!(g.max_bullets[0].position, v(406_000_000, 240_000_000));
}

#[test]
fn burst_fires_two_and_keeps_half_a_delay() {
    let mut g = fresh();
    g.shoot_time = 750_000;
    shoot_bullets(&mut g, true, v(400_000_000, 0), 0, 100);
    assert_eq!(g.bullet_count, 2);
    assert_eq!(g.max_bullets.len(), 2);
    assert_eq!(g.shoot_time, 150_000);
    assert_eq!(g.max_bullets[0].direction, v(0, -1_000_000));
}

#[test]
fn capacity_drops_extra_shots() {
    let mut g = fresh();
    g.shoot_time = 750_000;
    shoot_bullets(&mut g, true, v(400_000_000, 0), 0, 1);
    assert_eq!(g.bullet_count, 1);
    assert_eq!(g.max_bullets.len(), 1);
    shoot_bullets(&mut g, true, v(400_000_000, 0), 0, 1);
    assert_eq!(g.bullet_count, 1);
}

#[test]
fn released_fire_keeps_accumulator() {
    let mut g = fresh();
    g.shoot_time = 100_000;
    shoot_bullets(&mut g, false, v(0, 0), 100_000, 100);
    assert_eq!(g.shoot_time, 100_000);
    assert_eq!(g.bullet_count, 0);
    g.shoot_time = 900_000;
    shoot_bullets(&mut g, false, v(0, 0), 100_000, 100);
    assert_eq!(g.shoot_time, 900_000);
    assert_eq!(g.bullet_count, 0);
}

#[test]
fn bullet_removes_only_first_overlapping_enemy() {
    let mut g = fresh();
    add_enemy(&mut g, 100_000_000, 100_000_000, 10_000_000);
    add_enemy(&mut g, 102_000_000, 100_000_000, 10_000_000);
    add_bullet(&mut g, 100_000_000, 100_000_000, 5_000_000);
    shoot_bullets(&mut g, false, v(0, 0), 0, 100);
    assert_eq!(g.enemy_count, 1);
    assert_eq!(g.max_enemies.len(), 1);
    assert_eq!(g.max_enemies[0].position, v(102_000_000, 100_000_000));
    assert_eq!(g.bullet_count, 1);
}

#[test]
fn each_bullet_removes_one_enemy() {
    let mut g = fresh();
    add_enemy(&mut g, 100_000_000, 100_000_000, 10_000_000);
    add_enemy(&mut g, 102_000_000, 100_000_000, 10_000_000);
    add_enemy(&mut g, 300_000_000, 300_000_000, 10_000_000);
    add_bullet(&mut g, 100_000_000, 100_000_000, 5_000_000);
    add_bullet(&mut g, 100_000_000, 100_000_000, 5_000_000);
    shoot_bullets(&mut g, false, v(0, 0), 0, 100);
    assert_eq!(g.enemy_count, 1);
    assert_eq!(g.max_enemies[0].position, v(300_000_000, 300_000_000));
}

#[test]
fn bullet_misses_distant_enemy() {
    let mut g = fresh();
    add_enemy(&mut g, 100_000_000, 100_000_000, 10_000_000);
    add_bullet(&mut g, 116_000_000, 100_000_000, 5_000_000);
    shoot_bullets(&mut g, false, v(0, 0), 0, 100);
    assert_eq!(g.enemy_count, 1);
}

#[test]
fn bullet_touching_enemy_edge_hits() {
    let mut g = fresh();
    add_enemy(&mut g, 100_000_000, 100_000_000, 10_000_000);
    add_bullet(&mut g, 115_000_000, 100_000_000, 5_000_000);
    shoot_bullets(&mut g, false, v(0, 0), 0, 100);
    assert_eq!(g.enemy_count, 0);
}

#[test]
fn gameover_on_contact_hands_back_fresh_state() {
    let mut g = fresh();
    g.shoot_time = 123;
    let e = Enemy { position: v(410_000_000, 240_000_000), size: 8_000_000 };
    let r = gameover(&g, &e, 800, 480, 100, 100);
    let n = r.expect("contact ends the round");
    assert_eq!(n.player_pos, v(400_000_000, 240_000_000));
    assert_eq!(n.shoot_time, 0);
    assert_eq!(n.enemy_count, 0);
    assert_eq!(g.shoot_time, 123);
}

#[test]
fn gameover_without_contact_is_none() {
    let g = fresh();
    let e = Enemy { position: v(800_000_000, 240_000_000), size: 8_000_000 };
    assert!(gameover(&g, &e, 800, 480, 100, 100).is_none());
}

#[test]
fn zero_time_moves_nothing() {
    let mut g = fresh();
    add_enemy(&mut g, 800_000_000, 240_000_000, 8_000_000);
    g.max_bullets.push(Bullet {
        position: v(0, 0),
        direction: v(600_000, 800_000),
        speed: 30_000_000,
        size: 5_000_000,
        pierce: 40,
    });
    g.bullet_count += 1;
    update_enemies(&mut g, 0);
    assert_eq!(g.max_enemies[0].position, v(800_000_000, 240_000_000));
    shoot_bullets(&mut g, false, v(0, 0), 0, 100);
    assert_eq!(g.max_bullets[0].position, v(0, 0));
}

#[test]
fn enemy_homes_on_player() {
    let mut g = fresh();
    add_enemy(&mut g, 800_000_000, 240_000_000, 8_000_000);
    update_enemies(&mut g, 1_000_000);
    assert_eq!(g.max_enemies[0].position, v(758_000_000, 240_000_000));
    assert_eq!(g.max_enemies[0].size, 8_000_000);
}

#[test]
fn enemy_on_player_stays() {
    let mut g = fresh();
    add_enemy(&mut g, 400_000_000, 240_000_000, 8_000_000);
    update_enemies(&mut g, 1_000_000);
    assert_eq!(g.max_enemies[0].position, v(400_000_000, 240_000_000));
}

#[test]
fn bullet_moves_along_direction() {
    let mut g = fresh();
    g.max_bullets.push(Bullet {
        position: v(0, 0),
        direction: v(600_000, 800_000),
        speed: 30_000_000,
        size: 5_000_000,
        pierce: 40,
    });
    g.bullet_count += 1;
    shoot_bullets(&mut g, false, v(0, 0), 1_000_000, 100);
    assert_eq!(g.max_bullets[0].position, v(18_000_000, 24_000_000));
}

#[test]
fn player_moves_on_first_key_only() {
    let mut g = fresh();
    move_a_player(&mut g, true, true, false, false, 100_000);
    assert_eq!(g.player_pos, v(400_000_000, 140_000_000));
    move_a_player(&mut g, false, true, true, true, 100_000);
    assert_eq!(g.player_pos, v(300_000_000, 140_000_000));
    move_a_player(&mut g, false, false, true, true, 100_000);
    assert_eq!(g.player_pos, v(400_000_000, 140_000_000));
    move_a_player(&mut g, false, false, false, true, 100_000);
    assert_eq!(g.player_pos, v(400_000_000, 240_000_000));
    move_a_player(&mut g, false, false, false, false, 100_000);
    assert_eq!(g.player_pos, v(400_000_000, 240_000_000));
}

#[test]
fn spawn_places_enemy_on_ring() {
    let mut g = fresh();
    assert_eq!(pending_spawns(&g, 100, 400_000), 0);
    assert_eq!(pending_spawns(&g, 100, 500_000), 1);
    spawn_enemies(&mut g, 100, 500_000, 800, &vec![0]);
    assert_eq!(g.enemy_count, 1);
    assert_eq!(g.enemy_spawn_time, 0);
    assert_eq!(g.max_enemies[0], Enemy { position: v(800_000_000, 240_000_000), size: 8_000_000 });
    spawn_enemies(&mut g, 100, 500_000, 800, &vec![90]);
    assert_eq!(g.max_enemies[1].position, v(400_000_000, 640_000_000));
    spawn_enemies(&mut g, 100, 500_000, 800, &vec![180]);
    assert_eq!(g.max_enemies[2].position, v(0, 240_000_000));
    assert_eq!(g.enemy_count, 3);
}

#[test]
fn spawn_bursts_and_keeps_remainder() {
    let mut g = fresh();
    assert_eq!(pending_spawns(&g, 100, 1_250_000), 2);
    spawn_enemies(&mut g, 100, 1_250_000, 800, &vec![0, 270]);
    assert_eq!(g.enemy_count, 2);
    assert_eq!(g.max_enemies.len(), 2);
    assert_eq!(g.enemy_spawn_time, 250_000);
    assert_eq!(g.max_enemies[1].position, v(400_000_000, -160_000_000));
}

#[test]
fn spawn_respects_capacity_and_angles() {
    let mut g = fresh();
    assert_eq!(pending_spawns(&g, 1, 1_250_000), 1);
    spawn_enemies(&mut g, 1, 1_250_000, 800, &vec![0, 0]);
    assert_eq!(g.enemy_count, 1);
    assert_eq!(g.enemy_spawn_time, 750_000);
    let mut h = fresh();
    spawn_enemies(&mut h, 100, 1_250_000, 800, &vec![0]);
    assert_eq!(h.enemy_count, 1);
    assert_eq!(h.enemy_spawn_time, 750_000);
}

#[test]
fn diagonal_homing_covers_speed_times_time() {
    let mut g = fresh();
    let (x0, y0) = (400_000_000 + 70_710_678, 240_000_000 + 70_710_678);
    add_enemy(&mut g, x0, y0, 8_000_000);
    update_enemies(&mut g, 1_000_000);
    let p = g.max_enemies[0].position;
    let dx = (p.x - x0) as f64 / 1e6;
    let dy = (p.y - y0) as f64 / 1e6;
    let moved = (dx * dx + dy * dy).sqrt();
    assert!((moved - 42.0).abs() <= 1e-4 * (1.0 + 42.0), "{}", moved);
}

#[test]
fn diagonal_shot_direction_is_unit() {
    let mut g = fresh();
    g.shoot_time = 300_000;
    shoot_bullets(&mut g, true, v(470_710_678, 310_710_678), 0, 100);
    let d = g.max_bullets[0].direction;
    let norm = ((d.x * d.x + d.y * d.y) as f64).sqrt() / 1e6;
    assert!((norm - 1.0).abs() <= 1e-5, "{}", norm);
}

#[test]
fn spawned_enemy_lies_on_ring() {
    for angle in [0u32, 30, 45, 123, 200, 359] {
        let mut g = fresh();
        spawn_enemies(&mut g, 100, 500_000, 800, &vec![angle]);
        let p = g.max_enemies[0].position;
        let dx = (p.x - 400_000_000) as f64 / 1e6;
        let dy = (p.y - 240_000_000) as f64 / 1e6;
        assert!(((dx * dx + dy * dy).sqrt() - 400.0).abs() <= 1e-3, "{}", angle);
    }
}
