use std::collections::HashSet;

use tile_platformer::actor::{
    apply_gravity, enemy_tick, is_grounded, player_tick, Enemy, Input, Player, Velocity,
};
use tile_platformer::grid::{MapData, Pos, TileEntry, TileGrid};
use tile_platformer::world::PhysicsWorld;

fn grid_from(rows: &[&str]) -> TileGrid {
    let mut entries = Vec::new();
    for (y, row) in rows.iter().enumerate() {
        for (x, c) in row.chars().enumerate() {
            let id = if c == '#' { Some(1) } else { None };
            entries.push(TileEntry { x: x as u32, y: y as u32, id });
        }
    }
    let w = rows[0].len();
    let h = rows.len();
    let map = MapData {
        width: w as u32,
        height: h as u32,
        tile_width: 16,
        tile_height: 16,
        layer: Some(entries),
    };
    let mut solid = HashSet::new();
    solid.insert(1);
    TileGrid::build(&map, w, h, &solid).unwrap()
}

// floor on row 3 (y 48..=63), a one-tile wall at cell (4, 2) (x 64..=79)
fn room() -> PhysicsWorld {
    PhysicsWorld::new(grid_from(&["..........", "..........", "....#.....", "##########"]))
}

fn no_input() -> Input {
    Input { left: false, right: false, jump: false, pause: false, confirm: false }
}

#[test]
fn move_h_halts_flush_against_a_wall() {
    let mut w = room();
    let a = w.add_actor(Pos { x: 10, y: 34 }, 12, 14);
    let full = w.move_h(a, 100_000_000);
    assert!(!full);
    assert_eq!(w.actor_pos(a), Pos { x: 52, y: 34 });
}

#[test]
fn large_move_does_not_tunnel_through_a_thin_wall() {
    let mut w = room();
    let a = w.add_actor(Pos { x: 10, y: 34 }, 12, 14);
    w.move_h(a, 5_000_000_000);
    assert_eq!(w.actor_pos(a), Pos { x: 52, y: 34 });
    w.move_v(a, 5_000_000_000);
    assert_eq!(w.actor_pos(a), Pos { x: 52, y: 34 });
    assert!(!w.collide_check(a, w.actor_pos(a)));
}

#[test]
fn move_v_lands_on_the_floor() {
    let mut w = room();
    let a = w.add_actor(Pos { x: 20, y: 0 }, 12, 14);
    assert!(!w.move_v(a, 1_000_000_000));
    assert_eq!(w.actor_pos(a), Pos { x: 20, y: 34 });
    assert!(is_grounded(&w, a));
}

#[test]
fn sub_pixel_motion_accumulates() {
    let mut w = room();
    let a = w.add_actor(Pos { x: 10, y: 34 }, 12, 14);
    assert!(w.move_h(a, 600_000));
    assert_eq!(w.actor_pos(a).x, 11);
    w.move_h(a, 600_000);
    assert_eq!(w.actor_pos(a).x, 11);
    w.move_h(a, 600_000);
    assert_eq!(w.actor_pos(a).x, 12);
    // half a pixel back does not move; one more unit does
    let b = w.add_actor(Pos { x: 30, y: 0 }, 12, 14);
    w.move_h(b, -500_000);
    assert_eq!(w.actor_pos(b).x, 30);
    w.move_h(b, -1);
    assert_eq!(w.actor_pos(b).x, 29);
}

#[test]
fn zero_move_changes_nothing() {
    let mut w = room();
    let a = w.add_actor(Pos { x: 10, y: 34 }, 12, 14);
    assert!(w.move_h(a, 0));
    assert!(w.move_v(a, 0));
    assert_eq!(w.actor_pos(a), Pos { x: 10, y: 34 });
}

#[test]
fn collide_check_probes_without_moving() {
    let mut w = room();
    let a = w.add_actor(Pos { x: 10, y: 34 }, 12, 14);
    assert!(w.collide_check(a, Pos { x: 10, y: 35 }));
    assert!(!w.collide_check(a, Pos { x: 10, y: 34 }));
    assert!(w.collide_check(a, Pos { x: 60, y: 30 }));
    assert_eq!(w.actor_pos(a), Pos { x: 10, y: 34 });
}

#[test]
fn gravity_accumulates_and_caps() {
    assert_eq!(apply_gravity(0, false, 100), 120_000);
    assert_eq!(apply_gravity(-420_000, false, 16), -400_800);
    assert_eq!(apply_gravity(99_999_000, false, 1000), 100_000_000);
    assert_eq!(apply_gravity(50_000, true, 16), 0);
    assert_eq!(apply_gravity(-50_000, true, 16), -50_000);
    assert_eq!(apply_gravity(7, false, 0), 7);
}

#[test]
fn landing_zeroes_velocity_in_the_same_tick() {
    let mut w = room();
    let a = w.add_actor(Pos { x: 20, y: 0 }, 12, 14);
    let mut p = Player { collider: a, vel: Velocity { x: 0, y: 0 } };
    let grounded = player_tick(&mut w, &mut p, &no_input(), 100);
    assert!(!grounded);
    assert_eq!(w.actor_pos(a), Pos { x: 20, y: 12 });
    assert_eq!(p.vel.y, 120_000);
    let grounded = player_tick(&mut w, &mut p, &no_input(), 100);
    assert!(grounded);
    assert_eq!(w.actor_pos(a), Pos { x: 20, y: 34 });
    assert_eq!(p.vel.y, 0);
}

#[test]
fn jump_only_from_the_ground() {
    let mut w = room();
    let a = w.add_actor(Pos { x: 20, y: 34 }, 12, 14);
    let mut p = Player { collider: a, vel: Velocity { x: 0, y: 0 } };
    let mut input = no_input();
    input.jump = true;
    input.right = true;
    let grounded = player_tick(&mut w, &mut p, &input, 100);
    assert!(!grounded);
    assert_eq!(p.vel, Velocity { x: 220_000, y: -420_000 });
    assert_eq!(w.actor_pos(a), Pos { x: 42, y: -8 });
    // in the air a jump is ignored and gravity applies
    player_tick(&mut w, &mut p, &input, 100);
    assert_eq!(p.vel.y, -300_000);
}

#[test]
fn zero_dt_tick_is_a_no_op() {
    let mut w = room();
    let a = w.add_actor(Pos { x: 20, y: 0 }, 12, 14);
    let mut p = Player { collider: a, vel: Velocity { x: 5, y: 7 } };
    let mut input = no_input();
    input.left = true;
    player_tick(&mut w, &mut p, &input, 0);
    assert_eq!(p.vel, Velocity { x: 5, y: 7 });
    assert_eq!(w.actor_pos(a), Pos { x: 20, y: 0 });
    player_tick(&mut w, &mut p, &input, -16);
    assert_eq!(p.vel, Velocity { x: 5, y: 7 });
}

#[test]
fn enemy_turns_at_a_wall_in_the_same_tick() {
    let mut w = room();
    let a = w.add_actor(Pos { x: 47, y: 34 }, 12, 14);
    let mut e = Enemy { collider: a, vel: Velocity { x: 80_000, y: 0 }, dir: 1, alive: true };
    enemy_tick(&mut w, &mut e, 100);
    assert_eq!(e.dir, -1);
    assert_eq!(e.vel, Velocity { x: -80_000, y: 0 });
    assert_eq!(w.actor_pos(a), Pos { x: 39, y: 34 });
}

#[test]
fn enemy_turns_at_a_ledge() {
    let mut w = PhysicsWorld::new(grid_from(&["..........", "..........", "..........", "#####....."]));
    let a = w.add_actor(Pos { x: 74, y: 34 }, 12, 14);
    let mut e = Enemy { collider: a, vel: Velocity { x: 0, y: 0 }, dir: 1, alive: true };
    enemy_tick(&mut w, &mut e, 100);
    assert_eq!(e.dir, -1);
    assert_eq!(w.actor_pos(a), Pos { x: 66, y: 34 });
    // with ground ahead it keeps walking
    let b = w.add_actor(Pos { x: 20, y: 34 }, 12, 14);
    let mut f = Enemy { collider: b, vel: Velocity { x: 0, y: 0 }, dir: 1, alive: true };
    enemy_tick(&mut w, &mut f, 100);
    assert_eq!(f.dir, 1);
    assert_eq!(w.actor_pos(b), Pos { x: 28, y: 34 });
}

#[test]
fn dead_enemy_does_not_move() {
    let mut w = room();
    let a = w.add_actor(Pos { x: 20, y: 0 }, 12, 14);
    let mut e = Enemy { collider: a, vel: Velocity { x: 0, y: 0 }, dir: 1, alive: false };
    enemy_tick(&mut w, &mut e, 100);
    assert_eq!(w.actor_pos(a), Pos { x: 20, y: 0 });
    assert_eq!(e.vel, Velocity { x: 0, y: 0 });
}
