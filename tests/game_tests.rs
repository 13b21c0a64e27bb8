use std::collections::HashSet;

use tile_platformer::actor::{Enemy, Input, Player, Velocity};
use tile_platformer::encounter::{classify_contact, resolve_encounters, Contact};
use tile_platformer::game::{load_level, reset_run, spawn_enemies, Game, RunState};
use tile_platformer::grid::{LoadError, MapData, Pos, TileEntry, TileGrid};
use tile_platformer::world::PhysicsWorld;

fn empty_grid(w: usize, h: usize) -> TileGrid {
    let map = MapData {
        width: w as u32,
        height: h as u32,
        tile_width: 16,
        tile_height: 16,
        layer: Some(Vec::new()),
    };
    TileGrid::build(&map, w, h, &HashSet::new()).unwrap()
}

fn points(n: usize) -> Vec<Pos> {
    (0..n).map(|i| Pos { x: 100 + 16 * i as i64, y: 200 }).collect()
}

fn input() -> Input {
    Input { left: false, right: false, jump: false, pause: false, confirm: false }
}

fn confirm() -> Input {
    Input { confirm: true, ..input() }
}

fn pause() -> Input {
    Input { pause: true, ..input() }
}

#[test]
fn stomp_and_fatal_classification() {
    assert_eq!(classify_contact(100, 104, 50), Contact::Stomp);
    assert_eq!(classify_contact(100, 104, -10), Contact::Fatal);
    assert_eq!(classify_contact(110, 104, 50), Contact::Stomp);
    assert_eq!(classify_contact(111, 104, 50), Contact::Fatal);
    assert_eq!(classify_contact(100, 104, 0), Contact::Fatal);
}

fn duel(player_y: i64, vy: i64) -> (PhysicsWorld, Player, Vec<Enemy>) {
    let mut w = PhysicsWorld::new(empty_grid(10, 10));
    let pa = w.add_actor(Pos { x: 100, y: player_y }, 12, 14);
    let ea = w.add_actor(Pos { x: 100, y: 104 }, 12, 14);
    let player = Player { collider: pa, vel: Velocity { x: 0, y: vy } };
    let enemy = Enemy { collider: ea, vel: Velocity { x: 0, y: 0 }, dir: 1, alive: true };
    (w, player, vec![enemy])
}

#[test]
fn stomp_removes_enemy_scores_one_and_bounces() {
    // player bottom at 105, enemy top at 104, falling
    let (w, mut player, mut enemies) = duel(91, 50);
    let mut score = 0u64;
    let over = resolve_encounters(&w, &mut player, &mut enemies, &mut score);
    assert!(!over);
    assert!(enemies.is_empty());
    assert_eq!(score, 1);
    assert_eq!(player.vel.y, -294_000);
    assert!(player.vel.y < 0);
}

#[test]
fn rising_touch_is_fatal() {
    let (w, mut player, mut enemies) = duel(91, -10);
    let mut score = 3u64;
    let over = resolve_encounters(&w, &mut player, &mut enemies, &mut score);
    assert!(over);
    assert_eq!(enemies.len(), 1);
    assert_eq!(score, 3);
    assert_eq!(player.vel.y, -10);
}

#[test]
fn no_touch_no_encounter() {
    // player bottom at 100, enemy top at 104: apart
    let (w, mut player, mut enemies) = duel(86, 50);
    let mut score = 0u64;
    assert!(!resolve_encounters(&w, &mut player, &mut enemies, &mut score));
    assert_eq!(enemies.len(), 1);
    assert_eq!(score, 0);
    assert_eq!(player.vel.y, 50);
}

#[test]
fn bounce_makes_the_next_touch_fatal() {
    let mut w = PhysicsWorld::new(empty_grid(10, 10));
    let pa = w.add_actor(Pos { x: 100, y: 91 }, 12, 14);
    let e1 = w.add_actor(Pos { x: 100, y: 104 }, 12, 14);
    let e2 = w.add_actor(Pos { x: 105, y: 104 }, 12, 14);
    let e3 = w.add_actor(Pos { x: 108, y: 104 }, 12, 14);
    let mut player = Player { collider: pa, vel: Velocity { x: 0, y: 50 } };
    let mk = |a| Enemy { collider: a, vel: Velocity { x: 0, y: 0 }, dir: 1, alive: true };
    let mut enemies = vec![mk(e1), mk(e2), mk(e3)];
    let mut score = 0u64;
    let over = resolve_encounters(&w, &mut player, &mut enemies, &mut score);
    assert!(over);
    assert_eq!(score, 1);
    assert_eq!(enemies.len(), 2);
    assert_eq!(enemies[0].collider, e2);
    assert_eq!(enemies[1].collider, e3);
}

#[test]
fn enemies_sample_every_step_up_to_the_cap() {
    let mut w = PhysicsWorld::new(empty_grid(4, 4));
    let sp = points(65);
    let enemies = spawn_enemies(&mut w, &sp);
    assert_eq!(enemies.len(), 3);
    assert_eq!(w.actor_pos(enemies[0].collider), sp[0]);
    assert_eq!(w.actor_pos(enemies[1].collider), sp[20]);
    assert_eq!(w.actor_pos(enemies[2].collider), sp[40]);
    assert_eq!(enemies[0].dir, 1);
    assert_eq!(enemies[1].dir, -1);
    assert_eq!(enemies[2].dir, 1);

    let mut w = PhysicsWorld::new(empty_grid(4, 4));
    assert_eq!(spawn_enemies(&mut w, &points(45)).len(), 2);
    let mut w = PhysicsWorld::new(empty_grid(4, 4));
    assert_eq!(spawn_enemies(&mut w, &points(19)).len(), 0);
    let mut w = PhysicsWorld::new(empty_grid(4, 4));
    assert_eq!(spawn_enemies(&mut w, &points(20)).len(), 1);
    assert!(enemies.iter().all(|e| e.alive));

    let mut w = PhysicsWorld::new(empty_grid(4, 4));
    assert_eq!(spawn_enemies(&mut w, &points(200)).len(), 6);
    let mut w = PhysicsWorld::new(empty_grid(4, 4));
    assert_eq!(spawn_enemies(&mut w, &points(40)).len(), 2);
    let mut w = PhysicsWorld::new(empty_grid(4, 4));
    assert_eq!(spawn_enemies(&mut w, &points(1)).len(), 0);
    let mut w = PhysicsWorld::new(empty_grid(4, 4));
    assert_eq!(spawn_enemies(&mut w, &Vec::new()).len(), 0);
}

#[test]
fn reset_run_is_fresh() {
    let g = empty_grid(4, 4);
    let (w, player, enemies, score) = reset_run(&g, &points(60));
    assert_eq!(score, 0);
    assert_eq!(w.actor_pos(player.collider), Pos { x: 32, y: 32 });
    assert_eq!(player.vel, Velocity { x: 0, y: 0 });
    assert_eq!(enemies.len(), 3);
    assert_eq!(w.actor_count(), 4);
    let (w, _, enemies, _) = reset_run(&g, &points(1));
    assert!(enemies.is_empty());
    assert_eq!(w.actor_count(), 1);
}

#[test]
fn start_from_menu_gives_a_fresh_run() {
    let mut game = Game::new(empty_grid(30, 20), points(100));
    assert_eq!(game.state(), RunState::MainMenu);
    game.step(&input(), 16);
    assert_eq!(game.state(), RunState::MainMenu);
    game.step(&pause(), 16);
    assert_eq!(game.state(), RunState::MainMenu);
    game.step(&confirm(), 16);
    assert_eq!(game.state(), RunState::Playing);
    assert_eq!(game.score(), 0);
    assert_eq!(game.player_pos(), Pos { x: 32, y: 32 });
    assert_eq!(game.enemy_positions().len(), 5);
}

#[test]
fn pause_and_resume_keep_the_run() {
    let mut game = Game::new(empty_grid(30, 20), points(0));
    game.step(&confirm(), 16);
    game.step(&input(), 100);
    let p = game.player_pos();
    let v = game.player_velocity();
    assert_eq!(p, Pos { x: 32, y: 44 });
    game.step(&pause(), 100);
    assert_eq!(game.state(), RunState::Paused);
    let p = game.player_pos();
    game.step(&input(), 100);
    game.step(&confirm(), 100);
    assert_eq!(game.state(), RunState::Paused);
    assert_eq!(game.player_pos(), p);
    game.step(&pause(), 100);
    assert_eq!(game.state(), RunState::Playing);
    assert_eq!(game.player_pos(), p);
    assert_ne!(game.player_velocity(), v);
}

#[test]
fn fatal_touch_ends_the_run_and_confirm_restarts() {
    // the only enemy spawns on top of the player
    let mut sp = vec![Pos { x: 32, y: 32 }];
    sp.extend(points(19));
    let mut game = Game::new(empty_grid(30, 20), sp);
    game.step(&confirm(), 16);
    assert_eq!(game.enemy_positions().len(), 1);
    game.step(&pause(), 16);
    assert_eq!(game.state(), RunState::GameOver);
    game.step(&input(), 16);
    assert_eq!(game.state(), RunState::GameOver);
    game.step(&confirm(), 16);
    assert_eq!(game.state(), RunState::Playing);
    assert_eq!(game.score(), 0);
    assert_eq!(game.player_pos(), Pos { x: 32, y: 32 });
    assert_eq!(game.enemy_positions(), vec![Pos { x: 32, y: 32 }]);
}

fn level_map(rows: &[&str], layer: bool) -> MapData {
    let mut entries = Vec::new();
    for (y, row) in rows.iter().enumerate() {
        for (x, c) in row.chars().enumerate() {
            let id = match c {
                '#' => Some(7),
                '=' => Some(2),
                _ => None,
            };
            entries.push(TileEntry { x: x as u32, y: y as u32, id });
        }
    }
    MapData {
        width: rows[0].len() as u32,
        height: rows.len() as u32,
        tile_width: 16,
        tile_height: 16,
        layer: if layer { Some(entries) } else { None },
    }
}

#[test]
fn load_level_treats_every_placed_tile_as_solid() {
    let map = level_map(
        &[".....................", ".....................", "#####================"],
        true,
    );
    let mut game = match load_level(&map, 21, 3) {
        Ok(g) => g,
        Err(e) => panic!("level did not load: {:?}", e),
    };
    assert_eq!(game.state(), RunState::MainMenu);
    game.step(&confirm(), 16);
    // twenty-one spawn cells on row 1; one enemy on the first
    assert_eq!(game.enemy_positions(), vec![Pos { x: 2, y: 18 }]);
}

#[test]
fn load_level_reports_load_errors() {
    let map = level_map(&["....", "####"], false);
    assert!(matches!(load_level(&map, 4, 2), Err(LoadError::MissingLayer)));
    let map = level_map(&["....", "####"], true);
    assert!(matches!(load_level(&map, 30, 20), Err(LoadError::DimensionMismatch)));
}

#[test]
fn zero_dt_frame_moves_nothing() {
    // an enemy spawns on top of the player; a frame of no time judges nothing
    let mut sp = vec![Pos { x: 32, y: 32 }];
    sp.extend(points(19));
    let mut game = Game::new(empty_grid(30, 20), sp);
    game.step(&confirm(), 16);
    game.step(&input(), 0);
    assert_eq!(game.state(), RunState::Playing);
    assert_eq!(game.player_pos(), Pos { x: 32, y: 32 });
    assert_eq!(game.player_velocity(), Velocity { x: 0, y: 0 });
    game.step(&pause(), 0);
    assert_eq!(game.state(), RunState::Paused);
}
