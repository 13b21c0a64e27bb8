use vstd::prelude::*;

use crate::config::{
    ENEMY_SPEED, GRAVITY, JUMP_SPEED, MAX_DELTA, MAX_DT_MS, MAX_SPEED, MOVE_SPEED, PROBE_AHEAD,
    PROBE_DROP,
};
use crate::grid::Pos;
use crate::world::{ActorId, PhysicsWorld, WorldView};

verus! {

/// A velocity in milli-pixels per second; positive `y` points down.
#[derive(Clone, Copy, Debug, PartialEq, Eq, Structural)]
pub struct Velocity {
    pub x: i64,
    pub y: i64,
}

impl Velocity {
    pub open spec fn wf(self) -> bool {
        -MAX_SPEED <= self.x <= MAX_SPEED && -MAX_SPEED <= self.y <= MAX_SPEED
    }
}

/// The logical inputs of one tick: `left` and `right` are held, the others
/// were pressed during the tick.
#[derive(Clone, Copy, Debug, PartialEq, Eq, Structural)]
pub struct Input {
    pub left: bool,
    pub right: bool,
    pub jump: bool,
    pub pause: bool,
    pub confirm: bool,
}

#[derive(Clone, Copy, Debug, PartialEq, Eq, Structural)]
pub struct Player {
    pub collider: ActorId,
    pub vel: Velocity,
}

#[derive(Clone, Copy, Debug, PartialEq, Eq, Structural)]
pub struct Enemy {
    pub collider: ActorId,
    pub vel: Velocity,
    /// Facing: `1` for right, `-1` for left.
    pub dir: i64,
    pub alive: bool,
}

impl Enemy {
    pub open spec fn wf(self) -> bool {
        self.vel.wf() && (self.dir == 1 || self.dir == -1)
    }
}

/// Vertical velocity after gravity: it grows by `GRAVITY * dt` (up to
/// `MAX_SPEED`) while airborne, and a downward velocity is zeroed on the ground.
pub open spec fn fall(vy: int, on_ground: bool, dt_ms: int) -> int {
    if !on_ground {
        let v = vy + GRAVITY * dt_ms / 1000;
        if v > MAX_SPEED {
            MAX_SPEED as int
        } else {
            v
        }
    } else if vy > 0 {
        0
    } else {
        vy
    }
}

/// Vertical velocity after landing: a downward velocity ends when grounded.
pub open spec fn land(vy: int, grounded: bool) -> int {
    if grounded && vy > 0 {
        0
    } else {
        vy
    }
}

/// The actor stands on something: its rectangle one pixel lower overlaps a
/// solid cell.
pub open spec fn grounded(w: WorldView, a: ActorId) -> bool {
    let p = w.pos_of(a);
    w.collides_at(a, Pos { x: p.x, y: (p.y + 1) as i64 })
}

/// `-1`, `0` or `1`: the horizontal direction the held keys ask for.
pub open spec fn input_dir(input: Input) -> int {
    (if input.right {
        1int
    } else {
        0int
    }) - (if input.left {
        1int
    } else {
        0int
    })
}

/// One tick of the player over `dt_ms` milliseconds: the world after it, the
/// player after it, and whether the player ends the tick grounded.
pub open spec fn player_step(w: WorldView, p: Player, input: Input, dt_ms: int) -> (
    WorldView,
    Player,
    bool,
) {
    let a = p.collider;
    if dt_ms <= 0 {
        (w, p, grounded(w, a))
    } else {
        let on_ground = grounded(w, a);
        let vy = if input.jump && on_ground {
            -JUMP_SPEED
        } else {
            fall(p.vel.y as int, on_ground, dt_ms)
        };
        let vx = input_dir(input) * MOVE_SPEED;
        let w2 = w.moved_hv(a, vx * dt_ms, vy * dt_ms);
        let g2 = grounded(w2, a);
        (w2, Player { collider: a, vel: Velocity { x: vx as i64, y: land(vy, g2) as i64 } }, g2)
    }
}

/// The probe point a small distance ahead of an enemy at `pos`, at `drop`
/// pixels below its current height.
pub open spec fn probe_ahead(pos: Pos, dir: int, drop: int) -> Pos {
    Pos { x: (pos.x + dir * PROBE_AHEAD) as i64, y: (pos.y + drop) as i64 }
}

/// The direction an enemy walks this tick: it turns around when a wall is
/// right ahead or when there is no ground ahead.
pub open spec fn patrol_dir(w: WorldView, e: Enemy) -> int {
    let pos = w.pos_of(e.collider);
    let wall = w.collides_at(e.collider, probe_ahead(pos, e.dir as int, 0));
    let ground = w.collides_at(e.collider, probe_ahead(pos, e.dir as int, PROBE_DROP as int));
    if wall || !ground {
        -e.dir
    } else {
        e.dir as int
    }
}

/// One tick of an enemy over `dt_ms` milliseconds. A dead enemy stays as it is.
pub open spec fn enemy_step(w: WorldView, e: Enemy, dt_ms: int) -> (WorldView, Enemy) {
    let a = e.collider;
    if dt_ms <= 0 || !e.alive {
        (w, e)
    } else {
        let vy = fall(e.vel.y as int, grounded(w, a), dt_ms);
        let dir = patrol_dir(w, e);
        let vx = dir * ENEMY_SPEED;
        let w2 = w.moved_hv(a, vx * dt_ms, vy * dt_ms);
        let g2 = grounded(w2, a);
        (
            w2,
            Enemy {
                collider: a,
                vel: Velocity { x: vx as i64, y: land(vy, g2) as i64 },
                dir: dir as i64,
                alive: true,
            },
        )
    }
}

/// A tick in which a falling player comes to rest on a solid cell ends with
/// the player grounded and its vertical velocity exactly zero.
pub proof fn lemma_landing_stops_fall(w: WorldView, p: Player, input: Input, dt_ms: int)
    requires
        dt_ms > 0,
        !grounded(w, p.collider),
        fall(p.vel.y as int, false, dt_ms) > 0,
        grounded(player_step(w, p, input, dt_ms).0, p.collider),
    ensures
        player_step(w, p, input, dt_ms).2,
        player_step(w, p, input, dt_ms).1.vel.y == 0,
{
}

/// An enemy walking right with a wall right ahead turns left in the same tick:
/// its velocity and its move for that tick already point left.
pub proof fn lemma_turn_at_wall(w: WorldView, e: Enemy, dt_ms: int)
    requires
        dt_ms > 0,
        e.alive,
        e.dir == 1,
        w.collides_at(e.collider, probe_ahead(w.pos_of(e.collider), 1, 0)),
    ensures
        enemy_step(w, e, dt_ms).1.dir == -1,
        enemy_step(w, e, dt_ms).1.vel.x == -ENEMY_SPEED,
        enemy_step(w, e, dt_ms).0 == w.moved_hv(
            e.collider,
            -ENEMY_SPEED * dt_ms,
            fall(e.vel.y as int, grounded(w, e.collider), dt_ms) * dt_ms,
        ),
{
}

/// Vertical velocity after gravity over `dt_ms` milliseconds.
pub fn apply_gravity(vy: i64, on_ground: bool, dt_ms: i64) -> (r: i64)
    requires
        -MAX_SPEED <= vy <= MAX_SPEED,
        0 <= dt_ms <= MAX_DT_MS,
    ensures
        r == fall(vy as int, on_ground, dt_ms as int),
        -MAX_SPEED <= r <= MAX_SPEED,
{
    if !on_ground {
        let v = vy + GRAVITY * dt_ms / 1000;
        if v > MAX_SPEED {
            MAX_SPEED
        } else {
            v
        }
    } else if vy > 0 {
        0
    } else {
        vy
    }
}

/// Vertical velocity after landing.
pub fn land_velocity(vy: i64, grounded: bool) -> (r: i64)
    ensures
        r == land(vy as int, grounded),
{
    if grounded && vy > 0 {
        0
    } else {
        vy
    }
}

/// Whether the actor stands on a solid cell: its rectangle one pixel lower
/// would overlap one.
pub fn is_grounded(world: &PhysicsWorld, a: ActorId) -> (r: bool)
    requires
        world@.wf(),
        world@.valid_actor(a),
    ensures
        r == grounded(world@, a),
{
    let p = world.actor_pos(a);
    assert(world@.bodies[a.index as int].wf());
    world.collide_check(a, Pos { x: p.x, y: p.y + 1 })
}

/// Moves an actor by `vel` over `dt_ms` milliseconds: first along X, then
/// along Y.
fn move_by(world: &mut PhysicsWorld, a: ActorId, vel: Velocity, dt_ms: i64)
    requires
        old(world)@.wf(),
        old(world)@.valid_actor(a),
        vel.wf(),
        0 <= dt_ms <= MAX_DT_MS,
    ensures
        final(world)@ == old(world)@.moved_hv(a, vel.x * dt_ms, vel.y * dt_ms),
        final(world)@.wf(),
{
    assert(-MAX_DELTA <= vel.x * dt_ms <= MAX_DELTA) by (nonlinear_arith)
        requires
            -MAX_SPEED <= vel.x <= MAX_SPEED,
            0 <= dt_ms <= MAX_DT_MS,
    ;
    assert(-MAX_DELTA <= vel.y * dt_ms <= MAX_DELTA) by (nonlinear_arith)
        requires
            -MAX_SPEED <= vel.y <= MAX_SPEED,
            0 <= dt_ms <= MAX_DT_MS,
    ;
    world.move_h(a, vel.x * dt_ms);
    world.move_v(a, vel.y * dt_ms);
}

/// Runs one tick of the player: gravity or landing from where it stands, run
/// speed from the held keys, a jump only from the ground, then the move along
/// X and along Y, and landing where the move ended on the ground. Returns
/// whether the player ends the tick grounded. A tick of no time changes nothing.
pub fn player_tick(world: &mut PhysicsWorld, player: &mut Player, input: &Input, dt_ms: i64) -> (on_ground: bool)
    requires
        old(world)@.wf(),
        old(world)@.valid_actor(old(player).collider),
        old(player).vel.wf(),
        dt_ms <= MAX_DT_MS,
    ensures
        (final(world)@, *final(player), on_ground) == player_step(
            old(world)@,
            *old(player),
            *input,
            dt_ms as int,
        ),
        final(world)@.wf(),
        final(player).vel.wf(),
        final(world)@.bodies.len() == old(world)@.bodies.len(),
{
    let a = player.collider;
    if dt_ms <= 0 {
        return is_grounded(world, a);
    }
    let on_ground = is_grounded(world, a);
    let vy = if input.jump && on_ground {
        -JUMP_SPEED
    } else {
        apply_gravity(player.vel.y, on_ground, dt_ms)
    };
    let dir: i64 = (if input.right {
        1
    } else {
        0
    }) - (if input.left {
        1
    } else {
        0
    });
    let vx = dir * MOVE_SPEED;
    move_by(world, a, Velocity { x: vx, y: vy }, dt_ms);
    let g2 = is_grounded(world, a);
    *player = Player { collider: a, vel: Velocity { x: vx, y: land_velocity(vy, g2) } };
    g2
}

/// Runs one tick of a living enemy: gravity or landing as for the player, a
/// turn where a wall is right ahead or the ground ahead ends, walk speed in
/// the direction it now faces, then the move and landing. The turn takes
/// effect in the tick it is found. A dead enemy, or a tick of no time,
/// changes nothing.
pub fn enemy_tick(world: &mut PhysicsWorld, enemy: &mut Enemy, dt_ms: i64)
    requires
        old(world)@.wf(),
        old(world)@.valid_actor(old(enemy).collider),
        old(enemy).wf(),
        dt_ms <= MAX_DT_MS,
    ensures
        (final(world)@, *final(enemy)) == enemy_step(old(world)@, *old(enemy), dt_ms as int),
        final(world)@.wf(),
        final(enemy).wf(),
        final(world)@.bodies.len() == old(world)@.bodies.len(),
{
    let a = enemy.collider;
    if dt_ms <= 0 || !enemy.alive {
        return ;
    }
    let on_ground = is_grounded(world, a);
    let vy = apply_gravity(enemy.vel.y, on_ground, dt_ms);
    let pos = world.actor_pos(a);
    assert(world@.bodies[a.index as int].wf());
    let ahead_x = pos.x + enemy.dir * PROBE_AHEAD;
    let wall = world.collide_check(a, Pos { x: ahead_x, y: pos.y });
    let ground = world.collide_check(a, Pos { x: ahead_x, y: pos.y + PROBE_DROP });
    let dir = if wall || !ground {
        -enemy.dir
    } else {
        enemy.dir
    };
    let vx = dir * ENEMY_SPEED;
    move_by(world, a, Velocity { x: vx, y: vy }, dt_ms);
    let g2 = is_grounded(world, a);
    *enemy = Enemy { collider: a, vel: Velocity { x: vx, y: land_velocity(vy, g2) }, dir, alive: true };
}

} // verus!
