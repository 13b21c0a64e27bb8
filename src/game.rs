use std::collections::HashSet;
use vstd::prelude::*;

use crate::actor::{enemy_step, player_step, player_tick, enemy_tick, Enemy, Input, Player, Velocity};
use crate::config::{
    ENEMY_H, ENEMY_W, MAX_DT_MS, MAX_ENEMIES, PLAYER_H, PLAYER_SPAWN_X, PLAYER_SPAWN_Y, PLAYER_W,
    POS_LIMIT, SPAWN_STEP,
};
use crate::encounter::{colliders_valid, encounters, living, resolve_encounters};
use crate::grid::{
    built_from, load_error, used_ids, GridView, LoadError, MapData, Pos, TileEntry, TileGrid,
};
use crate::spawn::{find_spawn_points, spawn_points};
use crate::world::{ActorId, Body, PhysicsWorld, WorldView};

verus! {

broadcast use vstd::std_specs::hash::group_hash_axioms;

/// Where the game is: exactly one of these at any time.
#[derive(Clone, Copy, Debug, PartialEq, Eq, Structural)]
pub enum RunState {
    MainMenu,
    Playing,
    Paused,
    GameOver,
}

/// Number of enemies placed from `n` spawn points: one for every whole
/// `SPAWN_STEP` points, at most `MAX_ENEMIES`.
pub open spec fn enemy_count(n: nat) -> nat {
    let sampled = n as int / SPAWN_STEP as int;
    if sampled > MAX_ENEMIES {
        MAX_ENEMIES as nat
    } else {
        sampled as nat
    }
}

/// The `k`-th enemy placed, whose actor is registered right after the first
/// `base` ones. Enemies face right and left in turn, starting right.
pub open spec fn placed_enemy(base: nat, k: int) -> Enemy {
    Enemy {
        collider: ActorId { index: (base + k) as usize },
        vel: Velocity { x: 0, y: 0 },
        dir: if k % 2 == 0 {
            1i64
        } else {
            -1i64
        },
        alive: true,
    }
}

/// The body of the `k`-th enemy placed: an enemy-sized actor on spawn point
/// `k * SPAWN_STEP`.
pub open spec fn placed_body(sp: Seq<Pos>, k: int) -> Body {
    let p = sp[k * SPAWN_STEP];
    Body { x: p.x, y: p.y, w: ENEMY_W, h: ENEMY_H, rem_x: 0, rem_y: 0 }
}

pub open spec fn player_spawn_body() -> Body {
    Body { x: PLAYER_SPAWN_X, y: PLAYER_SPAWN_Y, w: PLAYER_W, h: PLAYER_H, rem_x: 0, rem_y: 0 }
}

/// Every spawn point lies inside the world bounds.
pub open spec fn spawns_in_bounds(sp: Seq<Pos>) -> bool {
    forall|i: int|
        0 <= i < sp.len() ==> -POS_LIMIT <= (#[trigger] sp[i]).x <= POS_LIMIT && -POS_LIMIT
            <= sp[i].y <= POS_LIMIT
}

/// The world, player and enemies at the start of a run: the player first at
/// its fixed spawn, at rest, then the placed enemies; the score starts at 0.
pub open spec fn fresh_run(g: GridView, sp: Seq<Pos>) -> (WorldView, Player, Seq<Enemy>) {
    let n = enemy_count(sp.len());
    (
        WorldView {
            grid: g,
            bodies: seq![player_spawn_body()] + Seq::new(n, |k: int| placed_body(sp, k)),
        },
        Player { collider: ActorId { index: 0 }, vel: Velocity { x: 0, y: 0 } },
        Seq::new(n, |k: int| placed_enemy(1, k)),
    )
}

/// Every enemy tick of one frame over the first `k` enemies, in order.
pub open spec fn enemies_step(w: WorldView, es: Seq<Enemy>, dt_ms: int, k: nat) -> (
    WorldView,
    Seq<Enemy>,
)
    decreases k,
{
    if k == 0 {
        (w, es)
    } else {
        let prev = enemies_step(w, es, dt_ms, (k - 1) as nat);
        let next = enemy_step(prev.0, prev.1[k - 1], dt_ms);
        (next.0, prev.1.update(k - 1, next.1))
    }
}

/// The mathematical content of a `Game`.
pub struct GameView {
    pub grid: GridView,
    pub spawn_points: Seq<Pos>,
    pub state: RunState,
    pub world: WorldView,
    pub player: Player,
    pub enemies: Seq<Enemy>,
    pub score: int,
}

impl GameView {
    pub open spec fn wf(self) -> bool {
        &&& self.grid.wf()
        &&& spawns_in_bounds(self.spawn_points)
        &&& self.world.wf()
        &&& self.world.valid_actor(self.player.collider)
        &&& self.player.vel.wf()
        &&& colliders_valid(self.world, self.enemies)
        &&& forall|i: int| 0 <= i < self.enemies.len() ==> (#[trigger] self.enemies[i]).wf()
        &&& 0 <= self.score
        &&& self.score + self.enemies.len() <= MAX_ENEMIES
    }

    /// The same level with a fresh run in `state`.
    pub open spec fn restarted(self, state: RunState) -> GameView {
        let run = fresh_run(self.grid, self.spawn_points);
        GameView { state, world: run.0, player: run.1, enemies: run.2, score: 0, ..self }
    }

    pub open spec fn in_state(self, state: RunState) -> GameView {
        GameView { state, ..self }
    }
}

/// One frame of play: the player's tick, then each enemy's, then the
/// encounters, then the state change that they or the input call for. A
/// fatal touch ends the run even when pause was pressed in the same frame.
/// A frame of no time moves and judges nothing; only pause is taken.
pub open spec fn playing_step(v: GameView, input: Input, dt_ms: int) -> GameView {
    if dt_ms <= 0 {
        if input.pause {
            v.in_state(RunState::Paused)
        } else {
            v
        }
    } else {
        let p = player_step(v.world, v.player, input, dt_ms);
        let es = enemies_step(p.0, v.enemies, dt_ms, v.enemies.len());
        let r = encounters(
            es.0,
            es.0.bodies[v.player.collider.index as int].rect(),
            p.1.vel.y as int,
            es.1,
            v.score,
            v.enemies.len(),
        );
        GameView {
            state: if r.over {
                RunState::GameOver
            } else if input.pause {
                RunState::Paused
            } else {
                RunState::Playing
            },
            world: es.0,
            player: Player { vel: Velocity { y: r.vy as i64, ..p.1.vel }, ..p.1 },
            enemies: living(r.enemies),
            score: r.score,
            ..v
        }
    }
}

/// One frame of the game in each state. Confirm starts a fresh run from the
/// main menu or after a game over; pause toggles between playing and paused;
/// every other input is ignored.
pub open spec fn game_step(v: GameView, input: Input, dt_ms: int) -> GameView {
    match v.state {
        RunState::MainMenu => if input.confirm {
            v.restarted(RunState::Playing)
        } else {
            v
        },
        RunState::Playing => playing_step(v, input, dt_ms),
        RunState::Paused => if input.pause {
            v.in_state(RunState::Playing)
        } else {
            v
        },
        RunState::GameOver => if input.confirm {
            v.restarted(RunState::Playing)
        } else {
            v
        },
    }
}

pub open spec fn min_int(a: int, b: int) -> int {
    if a < b {
        a
    } else {
        b
    }
}

/// Starting a run, from the main menu or after a game over, always gives a
/// score of 0, the player at its fixed spawn and
/// `min(MAX_ENEMIES, len / SPAWN_STEP)` enemies for `len` spawn points.
pub proof fn lemma_restart_is_fresh(v: GameView, input: Input, dt_ms: int)
    requires
        v.state == RunState::MainMenu || v.state == RunState::GameOver,
        input.confirm,
    ensures
        game_step(v, input, dt_ms).state == RunState::Playing,
        game_step(v, input, dt_ms).score == 0,
        game_step(v, input, dt_ms).world.pos_of(game_step(v, input, dt_ms).player.collider)
            == (Pos { x: PLAYER_SPAWN_X, y: PLAYER_SPAWN_Y }),
        game_step(v, input, dt_ms).enemies.len() == min_int(
            v.spawn_points.len() as int / SPAWN_STEP as int,
            MAX_ENEMIES as int,
        ),
{
}

/// Registers the enemies of a run: one for every whole `SPAWN_STEP` spawn
/// points, on point `0`, `SPAWN_STEP`, `2 * SPAWN_STEP`, ..., at most
/// `MAX_ENEMIES`, facing right and left in turn.
pub fn spawn_enemies(world: &mut PhysicsWorld, spawn_points: &Vec<Pos>) -> (enemies: Vec<Enemy>)
    requires
        old(world)@.wf(),
        spawns_in_bounds(spawn_points@),
    ensures
        final(world)@.wf(),
        final(world)@.grid == old(world)@.grid,
        final(world)@.bodies == old(world)@.bodies + Seq::new(
            enemy_count(spawn_points@.len()),
            |k: int| placed_body(spawn_points@, k),
        ),
        enemies@ == Seq::new(
            enemy_count(spawn_points@.len()),
            |k: int| placed_enemy(old(world)@.bodies.len(), k),
        ),
{
    let ghost w0 = world@;
    let ghost sp = spawn_points@;
    let base = world.actor_count();
    let mut enemies: Vec<Enemy> = Vec::new();
    let mut k: usize = 0;
    while k < MAX_ENEMIES && (k + 1) * SPAWN_STEP <= spawn_points.len()
        invariant
            world@.wf(),
            world@.grid == w0.grid,
            sp == spawn_points@,
            spawns_in_bounds(sp),
            base == w0.bodies.len(),
            k <= MAX_ENEMIES,
            k * SPAWN_STEP <= sp.len(),
            world@.bodies == w0.bodies + Seq::new(k as nat, |j: int| placed_body(sp, j)),
            enemies@ == Seq::new(k as nat, |j: int| placed_enemy(base as nat, j)),
        decreases MAX_ENEMIES - k,
    {
        let p = spawn_points[k * SPAWN_STEP];
        let a = world.add_actor(p, ENEMY_W, ENEMY_H);
        let dir: i64 = if k % 2 == 0 {
            1
        } else {
            -1
        };
        enemies.push(Enemy { collider: a, vel: Velocity { x: 0, y: 0 }, dir, alive: true });
        proof {
            assert(world@.bodies =~= w0.bodies + Seq::new((k + 1) as nat, |j: int| placed_body(sp, j)));
            assert(enemies@ =~= Seq::new((k + 1) as nat, |j: int| placed_enemy(base as nat, j)));
        }
        k = k + 1;
    }
    proof {
        let n = sp.len() as int;
        if (k + 1) * SPAWN_STEP > n {
            vstd::arithmetic::div_mod::lemma_fundamental_div_mod_converse(
                n,
                SPAWN_STEP as int,
                k as int,
                n - k * SPAWN_STEP,
            );
        } else {
            vstd::arithmetic::div_mod::lemma_fundamental_div_mod_converse(
                k * SPAWN_STEP,
                SPAWN_STEP as int,
                k as int,
                0,
            );
            vstd::arithmetic::div_mod::lemma_div_is_ordered(k * SPAWN_STEP, n, SPAWN_STEP as int);
        }
    }
    enemies
}

/// A fresh run over `grid` and `spawn_points`: a new world holding a copy of
/// the grid, the player at its fixed spawn, the placed enemies and a score of 0.
pub fn reset_run(grid: &TileGrid, spawn_points: &Vec<Pos>) -> (run: (PhysicsWorld, Player, Vec<Enemy>, u64))
    requires
        grid@.wf(),
        spawns_in_bounds(spawn_points@),
    ensures
        run.0@ == fresh_run(grid@, spawn_points@).0,
        run.1 == fresh_run(grid@, spawn_points@).1,
        run.2@ == fresh_run(grid@, spawn_points@).2,
        run.3 == 0,
        run.0@.wf(),
{
    let mut world = PhysicsWorld::new(grid.duplicate());
    let a = world.add_actor(Pos { x: PLAYER_SPAWN_X, y: PLAYER_SPAWN_Y }, PLAYER_W, PLAYER_H);
    let player = Player { collider: a, vel: Velocity { x: 0, y: 0 } };
    let enemies = spawn_enemies(&mut world, spawn_points);
    proof {
        assert(world@.bodies =~= fresh_run(grid@, spawn_points@).0.bodies);
        assert(enemies@ =~= fresh_run(grid@, spawn_points@).2);
    }
    (world, player, enemies, 0)
}

/// A level and the run being played on it.
pub struct Game {
    grid: TileGrid,
    spawn_points: Vec<Pos>,
    state: RunState,
    world: PhysicsWorld,
    player: Player,
    enemies: Vec<Enemy>,
    score: u64,
}

impl View for Game {
    type V = GameView;

    closed spec fn view(&self) -> GameView {
        GameView {
            grid: self.grid@,
            spawn_points: self.spawn_points@,
            state: self.state,
            world: self.world@,
            player: self.player,
            enemies: self.enemies@,
            score: self.score as int,
        }
    }
}

/// The run that `fresh_run` describes meets the game's invariant.
proof fn lemma_fresh_run_wf(g: GridView, sp: Seq<Pos>)
    requires
        g.wf(),
        spawns_in_bounds(sp),
        fresh_run(g, sp).0.wf(),
    ensures
        ({
            let run = fresh_run(g, sp);
            &&& run.0.valid_actor(run.1.collider)
            &&& colliders_valid(run.0, run.2)
            &&& forall|i: int| 0 <= i < run.2.len() ==> (#[trigger] run.2[i]).wf()
            &&& run.2.len() <= MAX_ENEMIES
        }),
{
    let run = fresh_run(g, sp);
    assert forall|i: int| 0 <= i < run.2.len() implies run.0.valid_actor(#[trigger] run.2[i].collider) by {
        assert(run.2[i] == placed_enemy(1, i));
    }
}

impl Game {
    /// A game over a level, in the main menu, with a fresh run ready.
    pub fn new(grid: TileGrid, spawn_points: Vec<Pos>) -> (game: Game)
        requires
            grid@.wf(),
            spawns_in_bounds(spawn_points@),
        ensures
            game@ == (GameView {
                grid: grid@,
                spawn_points: spawn_points@,
                state: RunState::MainMenu,
                world: WorldView { grid: grid@, bodies: Seq::empty() },
                player: Player { collider: ActorId { index: 0 }, vel: Velocity { x: 0, y: 0 } },
                enemies: Seq::empty(),
                score: 0,
            }).restarted(RunState::MainMenu),
            game@.wf(),
    {
        let (world, player, enemies, score) = reset_run(&grid, &spawn_points);
        proof {
            lemma_fresh_run_wf(grid@, spawn_points@);
        }
        Game { grid, spawn_points, state: RunState::MainMenu, world, player, enemies, score }
    }

    pub fn state(&self) -> (s: RunState)
        ensures
            s == self@.state,
    {
        self.state
    }

    pub fn score(&self) -> (s: u64)
        ensures
            s == self@.score,
    {
        self.score
    }

    /// Top-left corner of the player.
    pub fn player_pos(&self) -> (p: Pos)
        requires
            self@.wf(),
        ensures
            p == self@.world.pos_of(self@.player.collider),
    {
        self.world.actor_pos(self.player.collider)
    }

    pub fn player_velocity(&self) -> (v: Velocity)
        ensures
            v == self@.player.vel,
    {
        self.player.vel
    }

    /// Top-left corners of the enemies still in play, in their order.
    pub fn enemy_positions(&self) -> (ps: Vec<Pos>)
        requires
            self@.wf(),
        ensures
            ps@.len() == self@.enemies.len(),
            forall|i: int|
                0 <= i < ps@.len() ==> ps@[i] == self@.world.pos_of(
                    #[trigger] self@.enemies[i].collider,
                ),
    {
        let mut ps: Vec<Pos> = Vec::new();
        let mut i: usize = 0;
        while i < self.enemies.len()
            invariant
                self@.wf(),
                i <= self.enemies.len(),
                ps@.len() == i,
                forall|j: int|
                    0 <= j < i ==> ps@[j] == self@.world.pos_of(#[trigger] self@.enemies[j].collider),
            decreases self.enemies.len() - i,
        {
            assert(self@.world.valid_actor(self@.enemies[i as int].collider));
            ps.push(self.world.actor_pos(self.enemies[i].collider));
            i = i + 1;
        }
        ps
    }

    /// Replaces the current run with a fresh one.
    fn restart(&mut self)
        requires
            old(self)@.grid.wf(),
            spawns_in_bounds(old(self)@.spawn_points),
        ensures
            final(self)@ == old(self)@.restarted(RunState::Playing),
            final(self)@.wf(),
    {
        let (world, player, enemies, score) = reset_run(&self.grid, &self.spawn_points);
        proof {
            lemma_fresh_run_wf(self.grid@, self.spawn_points@);
        }
        self.world = world;
        self.player = player;
        self.enemies = enemies;
        self.score = score;
        self.state = RunState::Playing;
    }

    /// One frame of play.
    fn play(&mut self, input: &Input, dt_ms: i64)
        requires
            old(self)@.wf(),
            old(self)@.state == RunState::Playing,
            dt_ms <= MAX_DT_MS,
        ensures
            final(self)@ == playing_step(old(self)@, *input, dt_ms as int),
            final(self)@.wf(),
    {
        if dt_ms <= 0 {
            if input.pause {
                self.state = RunState::Paused;
            }
            return ;
        }
        let ghost v = self@;
        player_tick(&mut self.world, &mut self.player, input, dt_ms);
        let ghost p = player_step(v.world, v.player, *input, dt_ms as int);
        assert(self.world@ == p.0 && self.player == p.1);
        let n = self.enemies.len();
        let mut i: usize = 0;
        while i < n
            invariant
                i <= n,
                n == v.enemies.len(),
                self.enemies@.len() == n,
                self.world@.wf(),
                self.world@.bodies.len() == v.world.bodies.len(),
                colliders_valid(v.world, v.enemies),
                forall|j: int| 0 <= j < n ==> (#[trigger] v.enemies[j]).wf(),
                forall|j: int| 0 <= j < n ==> (#[trigger] self.enemies@[j]).wf(),
                forall|j: int| 0 <= j < n ==> (#[trigger] self.enemies@[j]).collider == v.enemies[j].collider,
                (self.world@, self.enemies@) == enemies_step(p.0, v.enemies, dt_ms as int, i as nat),
                self.player == p.1,
                self.player.vel.wf(),
                self.grid == old(self).grid,
                self.spawn_points == old(self).spawn_points,
                self.state == old(self).state,
                self.score == old(self).score,
                dt_ms <= MAX_DT_MS,
            decreases n - i,
        {
            let mut e = self.enemies[i];
            assert(v.world.valid_actor(v.enemies[i as int].collider));
            enemy_tick(&mut self.world, &mut e, dt_ms);
            self.enemies.set(i, e);
            i = i + 1;
        }
        assert(colliders_valid(self.world@, self.enemies@)) by {
            assert forall|j: int| 0 <= j < self.enemies@.len() implies self.world@.valid_actor(
                #[trigger] self.enemies@[j].collider,
            ) by {
                assert(v.world.valid_actor(v.enemies[j].collider));
            }
        }
        proof {
            crate::encounter::lemma_living_le(self.enemies@);
        }
        let over = resolve_encounters(&self.world, &mut self.player, &mut self.enemies, &mut self.score);
        proof {
            crate::encounter::lemma_living_wf(self.enemies@);
        }
        if over {
            self.state = RunState::GameOver;
        } else if input.pause {
            self.state = RunState::Paused;
        }
        proof {
            assert(self@.enemies == playing_step(v, *input, dt_ms as int).enemies);
        }
    }

    /// Advances the game by one frame of `dt_ms` milliseconds with `input`.
    /// A frame of no time still takes the state changes that the input asks
    /// for, but moves nothing.
    pub fn step(&mut self, input: &Input, dt_ms: i64)
        requires
            old(self)@.wf(),
            dt_ms <= MAX_DT_MS,
        ensures
            final(self)@ == game_step(old(self)@, *input, dt_ms as int),
            final(self)@.wf(),
    {
        match self.state {
            RunState::MainMenu => {
                if input.confirm {
                    self.restart();
                }
            },
            RunState::Playing => {
                self.play(input, dt_ms);
            },
            RunState::Paused => {
                if input.pause {
                    self.state = RunState::Playing;
                }
            },
            RunState::GameOver => {
                if input.confirm {
                    self.restart();
                }
            },
        }
    }
}

/// The ids of every tile placed in a layer, as a set to test against.
fn placed_ids(entries: &Vec<TileEntry>) -> (ids: HashSet<u32>)
    ensures
        ids@ == used_ids(entries@),
{
    let mut ids: HashSet<u32> = HashSet::new();
    let mut i: usize = 0;
    while i < entries.len()
        invariant
            i <= entries.len(),
            ids@ == used_ids(entries@.take(i as int)),
        decreases entries.len() - i,
    {
        if let Some(id) = entries[i].id {
            ids.insert(id);
        }
        proof {
            let prev = entries@.take(i as int);
            let next = entries@.take(i + 1);
            assert forall|k: u32| ids@.contains(k) == used_ids(next).contains(k) by {
                if used_ids(next).contains(k) {
                    let j = choose|j: int| 0 <= j < next.len() && #[trigger] next[j].id == Some(k);
                    if j < i {
                        assert(prev[j].id == Some(k));
                    }
                }
                if used_ids(prev).contains(k) {
                    let j = choose|j: int| 0 <= j < i && #[trigger] prev[j].id == Some(k);
                    assert(next[j].id == Some(k));
                }
                if entries@[i as int].id == Some(k) {
                    assert(next[i as int].id == Some(k));
                }
            }
            assert(ids@ =~= used_ids(next));
        }
        i = i + 1;
    }
    assert(entries@.take(entries.len() as int) == entries@);
    ids
}

/// Loads a level from `map`, treating every tile placed in its collision
/// layer as solid, and opens a game on it in the main menu. Fails as
/// `TileGrid::build` does.
pub fn load_level(map: &MapData, expected_w: usize, expected_h: usize) -> (r: Result<Game, LoadError>)
    requires
        expected_w <= crate::config::MAX_GRID_DIM,
        expected_h <= crate::config::MAX_GRID_DIM,
    ensures
        match load_error(*map, expected_w as nat, expected_h as nat) {
            Some(e) => r == Err::<Game, LoadError>(e),
            None => {
                &&& r is Ok
                &&& built_from(r->Ok_0@.grid, *map, used_ids(map.layer->Some_0@))
                &&& r->Ok_0@.spawn_points == spawn_points(r->Ok_0@.grid)
                &&& r->Ok_0@.state == RunState::MainMenu
                &&& r->Ok_0@ == r->Ok_0@.restarted(RunState::MainMenu)
                &&& r->Ok_0@.wf()
            },
        },
{
    let entries = match &map.layer {
        None => {
            return Err(LoadError::MissingLayer);
        },
        Some(v) => v,
    };
    let solid = placed_ids(entries);
    let grid = match TileGrid::build(map, expected_w, expected_h, &solid) {
        Ok(g) => g,
        Err(e) => {
            return Err(e);
        },
    };
    let sp = find_spawn_points(&grid);
    let game = Game::new(grid, sp);
    Ok(game)
}

} // verus!
