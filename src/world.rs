use vstd::prelude::*;

use crate::config::{COORD_LIMIT, HALF_PX, MAX_ACTOR_PX, MAX_DELTA, POS_LIMIT, SUBPX};
use crate::grid::{GridView, Pos, Rect, TileGrid};

verus! {

/// Handle of an actor registered with a `PhysicsWorld`.
#[derive(Clone, Copy, Debug, PartialEq, Eq, Structural)]
pub struct ActorId {
    pub index: usize,
}

/// An actor's rectangle and the sub-pixel motion not yet turned into whole
/// pixels, per axis.
#[derive(Clone, Copy, Debug, PartialEq, Eq, Structural)]
pub struct Body {
    pub x: i64,
    pub y: i64,
    pub w: i64,
    pub h: i64,
    pub rem_x: i64,
    pub rem_y: i64,
}

impl Body {
    pub open spec fn wf(self) -> bool {
        &&& 1 <= self.w <= MAX_ACTOR_PX
        &&& 1 <= self.h <= MAX_ACTOR_PX
        &&& -POS_LIMIT <= self.x <= POS_LIMIT
        &&& -POS_LIMIT <= self.y <= POS_LIMIT
        &&& -HALF_PX <= self.rem_x < HALF_PX
        &&& -HALF_PX <= self.rem_y < HALF_PX
    }

    pub open spec fn rect(self) -> Rect {
        Rect { x: self.x, y: self.y, w: self.w, h: self.h }
    }

    /// The body's rectangle moved to top-left corner `(x, y)`.
    pub open spec fn rect_at(self, x: int, y: int) -> Rect {
        Rect { x: x as i64, y: y as i64, w: self.w, h: self.h }
    }
}

pub open spec fn sign(n: int) -> int {
    if n > 0 {
        1
    } else if n < 0 {
        -1
    } else {
        0
    }
}

pub open spec fn abs(n: int) -> int {
    if n >= 0 {
        n
    } else {
        -n
    }
}

/// Whole pixels in `r` sub-pixel units, rounded to the nearest (halves up).
pub open spec fn round_steps(r: int) -> int {
    (r + HALF_PX) / (SUBPX as int)
}

/// The body may stand with its top-left corner at `(x, y)`: inside the world
/// bounds and overlapping no solid cell.
pub open spec fn free_at(g: GridView, b: Body, x: int, y: int) -> bool {
    &&& -POS_LIMIT <= x <= POS_LIMIT
    &&& -POS_LIMIT <= y <= POS_LIMIT
    &&& !g.collides(b.rect_at(x, y))
}

/// Where a body at column `x` ends after trying `n` one-pixel steps along X:
/// it stops before the first step that would not be free.
pub open spec fn slide_x(g: GridView, b: Body, x: int, n: int) -> int
    decreases abs(n),
{
    if n == 0 {
        x
    } else if !free_at(g, b, x + sign(n), b.y as int) {
        x
    } else {
        slide_x(g, b, x + sign(n), n - sign(n))
    }
}

/// Where a body at row `y` ends after trying `n` one-pixel steps along Y.
pub open spec fn slide_y(g: GridView, b: Body, y: int, n: int) -> int
    decreases abs(n),
{
    if n == 0 {
        y
    } else if !free_at(g, b, b.x as int, y + sign(n)) {
        y
    } else {
        slide_y(g, b, y + sign(n), n - sign(n))
    }
}

/// A slide that starts where the body is clear of solids ends clear of them,
/// inside the world bounds.
pub proof fn lemma_slide_x_clear(g: GridView, b: Body, x: int, n: int)
    requires
        -POS_LIMIT <= x <= POS_LIMIT,
        !g.collides(b.rect_at(x, b.y as int)),
    ensures
        -POS_LIMIT <= slide_x(g, b, x, n) <= POS_LIMIT,
        !g.collides(b.rect_at(slide_x(g, b, x, n), b.y as int)),
    decreases abs(n),
{
    if n != 0 && free_at(g, b, x + sign(n), b.y as int) {
        lemma_slide_x_clear(g, b, x + sign(n), n - sign(n));
    }
}

/// The vertical counterpart of `lemma_slide_x_clear`.
pub proof fn lemma_slide_y_clear(g: GridView, b: Body, y: int, n: int)
    requires
        -POS_LIMIT <= y <= POS_LIMIT,
        !g.collides(b.rect_at(b.x as int, y)),
    ensures
        -POS_LIMIT <= slide_y(g, b, y, n) <= POS_LIMIT,
        !g.collides(b.rect_at(b.x as int, slide_y(g, b, y, n))),
    decreases abs(n),
{
    if n != 0 && free_at(g, b, b.x as int, y + sign(n)) {
        lemma_slide_y_clear(g, b, y + sign(n), n - sign(n));
    }
}

/// `t` lies between `a` and `b`, both included.
pub open spec fn between(a: int, t: int, b: int) -> bool {
    (a <= t <= b) || (b <= t <= a)
}

/// A slide along X never passes through a solid cell: every column between
/// the start and the end, both included, is clear of solids, however many
/// pixels the move asked for.
pub proof fn lemma_slide_x_path_clear(g: GridView, b: Body, x: int, n: int)
    requires
        !g.collides(b.rect_at(x, b.y as int)),
    ensures
        forall|t: int|
            between(x, t, slide_x(g, b, x, n)) ==> !g.collides(#[trigger] b.rect_at(t, b.y as int)),
    decreases abs(n),
{
    if n != 0 && free_at(g, b, x + sign(n), b.y as int) {
        lemma_slide_x_path_clear(g, b, x + sign(n), n - sign(n));
        let e = slide_x(g, b, x, n);
        assert forall|t: int| between(x, t, e) implies !g.collides(#[trigger] b.rect_at(t, b.y as int)) by {
            if t != x {
                assert(between(x + sign(n), t, e)) by {
                    lemma_slide_x_direction(g, b, x + sign(n), n - sign(n));
                }
            }
        }
    }
}

/// A slide along X moves only in the direction of `n`, and at most `|n|` pixels.
proof fn lemma_slide_x_direction(g: GridView, b: Body, x: int, n: int)
    ensures
        n >= 0 ==> x <= slide_x(g, b, x, n) <= x + n,
        n <= 0 ==> x + n <= slide_x(g, b, x, n) <= x,
    decreases abs(n),
{
    if n != 0 && free_at(g, b, x + sign(n), b.y as int) {
        lemma_slide_x_direction(g, b, x + sign(n), n - sign(n));
    }
}

/// A slide along Y never passes through a solid cell: every row between the
/// start and the end, both included, is clear of solids, however many pixels
/// the move asked for. A falling actor thus stops on top of the first solid
/// row in its way, even a row one tile thick.
pub proof fn lemma_slide_y_path_clear(g: GridView, b: Body, y: int, n: int)
    requires
        !g.collides(b.rect_at(b.x as int, y)),
    ensures
        forall|t: int|
            between(y, t, slide_y(g, b, y, n)) ==> !g.collides(#[trigger] b.rect_at(b.x as int, t)),
    decreases abs(n),
{
    if n != 0 && free_at(g, b, b.x as int, y + sign(n)) {
        lemma_slide_y_path_clear(g, b, y + sign(n), n - sign(n));
        let e = slide_y(g, b, y, n);
        assert forall|t: int| between(y, t, e) implies !g.collides(#[trigger] b.rect_at(b.x as int, t)) by {
            if t != y {
                assert(between(y + sign(n), t, e)) by {
                    lemma_slide_y_direction(g, b, y + sign(n), n - sign(n));
                }
            }
        }
    }
}

/// A slide along Y moves only in the direction of `n`, and at most `|n|` pixels.
proof fn lemma_slide_y_direction(g: GridView, b: Body, y: int, n: int)
    ensures
        n >= 0 ==> y <= slide_y(g, b, y, n) <= y + n,
        n <= 0 ==> y + n <= slide_y(g, b, y, n) <= y,
    decreases abs(n),
{
    if n != 0 && free_at(g, b, b.x as int, y + sign(n)) {
        lemma_slide_y_direction(g, b, y + sign(n), n - sign(n));
    }
}

/// The mathematical content of a `PhysicsWorld`: its grid and the bodies of
/// its actors, indexed by handle.
pub struct WorldView {
    pub grid: GridView,
    pub bodies: Seq<Body>,
}

impl WorldView {
    pub open spec fn wf(self) -> bool {
        &&& self.grid.wf()
        &&& forall|i: int| 0 <= i < self.bodies.len() ==> (#[trigger] self.bodies[i]).wf()
    }

    pub open spec fn valid_actor(self, a: ActorId) -> bool {
        a.index < self.bodies.len()
    }

    pub open spec fn pos_of(self, a: ActorId) -> Pos {
        Pos { x: self.bodies[a.index as int].x, y: self.bodies[a.index as int].y }
    }

    /// The actor's rectangle overlaps no solid cell.
    pub open spec fn clear(self, a: ActorId) -> bool {
        !self.grid.collides(self.bodies[a.index as int].rect())
    }

    /// The actor's rectangle placed at `p` overlaps a solid cell.
    pub open spec fn collides_at(self, a: ActorId, p: Pos) -> bool {
        self.grid.collides(self.bodies[a.index as int].rect_at(p.x as int, p.y as int))
    }

    /// The world after `move_h(a, dx)`.
    pub open spec fn moved_h(self, a: ActorId, dx: int) -> WorldView {
        let b = self.bodies[a.index as int];
        let r = b.rem_x + dx;
        let n = round_steps(r);
        WorldView {
            grid: self.grid,
            bodies: self.bodies.update(
                a.index as int,
                Body { x: slide_x(self.grid, b, b.x as int, n) as i64, rem_x: (r - n * SUBPX) as i64, ..b },
            ),
        }
    }

    /// The world after `move_v(a, dy)`.
    pub open spec fn moved_v(self, a: ActorId, dy: int) -> WorldView {
        let b = self.bodies[a.index as int];
        let r = b.rem_y + dy;
        let n = round_steps(r);
        WorldView {
            grid: self.grid,
            bodies: self.bodies.update(
                a.index as int,
                Body { y: slide_y(self.grid, b, b.y as int, n) as i64, rem_y: (r - n * SUBPX) as i64, ..b },
            ),
        }
    }

    /// `move_h(a, dx)` covers all the whole pixels it was asked for.
    pub open spec fn h_unblocked(self, a: ActorId, dx: int) -> bool {
        let b = self.bodies[a.index as int];
        let n = round_steps(b.rem_x + dx);
        slide_x(self.grid, b, b.x as int, n) == b.x + n
    }

    /// `move_v(a, dy)` covers all the whole pixels it was asked for.
    pub open spec fn v_unblocked(self, a: ActorId, dy: int) -> bool {
        let b = self.bodies[a.index as int];
        let n = round_steps(b.rem_y + dy);
        slide_y(self.grid, b, b.y as int, n) == b.y + n
    }

    /// The world after `move_h(a, dx)` and then `move_v(a, dy)`.
    pub open spec fn moved_hv(self, a: ActorId, dx: int, dy: int) -> WorldView {
        self.moved_h(a, dx).moved_v(a, dy)
    }

    /// The world after one horizontal and one vertical move per pair of
    /// `deltas`, in order.
    pub open spec fn moved_seq(self, a: ActorId, deltas: Seq<(int, int)>) -> WorldView
        decreases deltas.len(),
    {
        if deltas.len() == 0 {
            self
        } else {
            self.moved_hv(a, deltas[0].0, deltas[0].1).moved_seq(a, deltas.drop_first())
        }
    }
}

/// `r + HALF_PX`, split into whole pixels and what is left, keeps the
/// remainder within half a pixel.
proof fn lemma_round_steps(r: int)
    ensures
        r == round_steps(r) * SUBPX + (r - round_steps(r) * SUBPX),
        -HALF_PX <= r - round_steps(r) * SUBPX < HALF_PX,
{
    vstd::arithmetic::div_mod::lemma_fundamental_div_mod(r + HALF_PX, SUBPX as int);
}

/// Rounding keeps the number of steps within the size of the displacement.
proof fn lemma_round_steps_bound(r: int)
    requires
        -(MAX_DELTA + HALF_PX) <= r <= MAX_DELTA + HALF_PX,
    ensures
        -(MAX_DELTA / SUBPX + 2) <= round_steps(r) <= MAX_DELTA / SUBPX + 2,
{
    lemma_round_steps(r);
}

/// A move keeps the moved actor clear of solids and inside the world bounds,
/// and leaves the other actors and the grid as they were.
pub proof fn lemma_move_keeps_clear(w: WorldView, a: ActorId, dx: int, dy: int)
    requires
        w.wf(),
        w.valid_actor(a),
        w.clear(a),
    ensures
        w.moved_h(a, dx).clear(a),
        w.moved_v(a, dy).clear(a),
        w.moved_h(a, dx).grid == w.grid,
        w.moved_v(a, dy).grid == w.grid,
        w.moved_h(a, dx).bodies.len() == w.bodies.len(),
        w.moved_v(a, dy).bodies.len() == w.bodies.len(),
        -POS_LIMIT <= w.moved_h(a, dx).bodies[a.index as int].x <= POS_LIMIT,
        -POS_LIMIT <= w.moved_v(a, dy).bodies[a.index as int].y <= POS_LIMIT,
{
    let b = w.bodies[a.index as int];
    assert(b.wf());
    assert(b.rect_at(b.x as int, b.y as int) == b.rect());
    lemma_slide_x_clear(w.grid, b, b.x as int, round_steps(b.rem_x + dx));
    lemma_slide_y_clear(w.grid, b, b.y as int, round_steps(b.rem_y + dy));
    let bx = w.moved_h(a, dx).bodies[a.index as int];
    assert(bx.rect() == b.rect_at(slide_x(w.grid, b, b.x as int, round_steps(b.rem_x + dx)), b.y as int));
    let by = w.moved_v(a, dy).bodies[a.index as int];
    assert(by.rect() == b.rect_at(b.x as int, slide_y(w.grid, b, b.y as int, round_steps(b.rem_y + dy))));
}

/// One move of a clear actor passes only through clear positions: every
/// position between where it started and where it ended, on the moved axis,
/// overlaps no solid cell. A large delta cannot carry it across a solid cell.
pub proof fn lemma_move_passes_no_solid(w: WorldView, a: ActorId, dx: int, dy: int)
    requires
        w.wf(),
        w.valid_actor(a),
        w.clear(a),
    ensures
        forall|t: int|
            between(w.bodies[a.index as int].x as int, t, w.moved_h(a, dx).bodies[a.index as int].x as int)
                ==> !w.grid.collides(#[trigger] w.bodies[a.index as int].rect_at(t, w.bodies[a.index as int].y as int)),
        forall|t: int|
            between(w.bodies[a.index as int].y as int, t, w.moved_v(a, dy).bodies[a.index as int].y as int)
                ==> !w.grid.collides(#[trigger] w.bodies[a.index as int].rect_at(w.bodies[a.index as int].x as int, t)),
{
    let b = w.bodies[a.index as int];
    assert(b.wf());
    assert(b.rect_at(b.x as int, b.y as int) == b.rect());
    let nx = round_steps(b.rem_x + dx);
    let ny = round_steps(b.rem_y + dy);
    lemma_slide_x_clear(w.grid, b, b.x as int, nx);
    lemma_slide_y_clear(w.grid, b, b.y as int, ny);
    lemma_slide_x_path_clear(w.grid, b, b.x as int, nx);
    lemma_slide_y_path_clear(w.grid, b, b.y as int, ny);
}

/// Moving an actor horizontally and then vertically, any number of times and
/// by any deltas, never leaves its rectangle overlapping a solid cell, if it
/// started clear of them.
pub proof fn lemma_moves_never_enter_solids(w: WorldView, a: ActorId, deltas: Seq<(int, int)>)
    requires
        w.wf(),
        w.valid_actor(a),
        w.clear(a),
    ensures
        w.moved_seq(a, deltas).clear(a),
        w.moved_seq(a, deltas).grid == w.grid,
        w.moved_seq(a, deltas).bodies.len() == w.bodies.len(),
    decreases deltas.len(),
{
    if deltas.len() > 0 {
        let (dx, dy) = deltas[0];
        lemma_move_keeps_clear(w, a, dx, dy);
        let w1 = w.moved_h(a, dx);
        assert(w1.wf()) by {
            lemma_round_steps(w.bodies[a.index as int].rem_x + dx);
            assert forall|i: int| 0 <= i < w1.bodies.len() implies (#[trigger] w1.bodies[i]).wf() by {
                if i != a.index {
                    assert(w1.bodies[i] == w.bodies[i]);
                }
            }
        }
        lemma_move_keeps_clear(w1, a, dx, dy);
        let w2 = w1.moved_v(a, dy);
        assert(w2.wf()) by {
            lemma_round_steps(w1.bodies[a.index as int].rem_y + dy);
            assert forall|i: int| 0 <= i < w2.bodies.len() implies (#[trigger] w2.bodies[i]).wf() by {
                if i != a.index {
                    assert(w2.bodies[i] == w1.bodies[i]);
                }
            }
        }
        lemma_moves_never_enter_solids(w2, a, deltas.drop_first());
    }
}

/// Whole pixels in `r` sub-pixel units, rounded to the nearest (halves up).
fn round_steps_exec(r: i64) -> (n: i64)
    requires
        -(MAX_DELTA + HALF_PX) <= r <= MAX_DELTA + HALF_PX,
    ensures
        n == round_steps(r as int),
        -(MAX_DELTA / SUBPX + 2) <= n <= MAX_DELTA / SUBPX + 2,
{
    let bias: i64 = 100_000_000;
    let t: i64 = r + HALF_PX + bias * SUBPX;
    let q: u64 = (t as u64) / (SUBPX as u64);
    proof {
        vstd::arithmetic::div_mod::lemma_fundamental_div_mod(t as int, SUBPX as int);
        let m = (t as int) % (SUBPX as int);
        vstd::arithmetic::div_mod::lemma_fundamental_div_mod_converse(
            r + HALF_PX,
            SUBPX as int,
            q - bias,
            m,
        );
        lemma_round_steps_bound(r as int);
    }
    q as i64 - bias
}

/// The geometry service of a level: a tile grid that never changes and the
/// actors that move against it.
pub struct PhysicsWorld {
    grid: TileGrid,
    bodies: Vec<Body>,
}

impl View for PhysicsWorld {
    type V = WorldView;

    closed spec fn view(&self) -> WorldView {
        WorldView { grid: self.grid@, bodies: self.bodies@ }
    }
}

impl PhysicsWorld {
    /// A world over `grid` with no actors.
    pub fn new(grid: TileGrid) -> (w: PhysicsWorld)
        requires
            grid@.wf(),
        ensures
            w@.grid == grid@,
            w@.bodies == Seq::<Body>::empty(),
            w@.wf(),
    {
        PhysicsWorld { grid, bodies: Vec::new() }
    }

    /// Registers an actor of `w` by `h` pixels with its top-left corner at
    /// `pos`. No check is made against the grid.
    pub fn add_actor(&mut self, pos: Pos, w: i64, h: i64) -> (a: ActorId)
        requires
            old(self)@.wf(),
            -POS_LIMIT <= pos.x <= POS_LIMIT,
            -POS_LIMIT <= pos.y <= POS_LIMIT,
            1 <= w <= MAX_ACTOR_PX,
            1 <= h <= MAX_ACTOR_PX,
        ensures
            a.index == old(self)@.bodies.len(),
            final(self)@.grid == old(self)@.grid,
            final(self)@.bodies == old(self)@.bodies.push(
                Body { x: pos.x, y: pos.y, w, h, rem_x: 0, rem_y: 0 },
            ),
            final(self)@.wf(),
    {
        let a = ActorId { index: self.bodies.len() };
        self.bodies.push(Body { x: pos.x, y: pos.y, w, h, rem_x: 0, rem_y: 0 });
        a
    }

    /// Current top-left corner of an actor.
    pub fn actor_pos(&self, a: ActorId) -> (p: Pos)
        requires
            self@.valid_actor(a),
        ensures
            p == self@.pos_of(a),
    {
        let b = self.bodies[a.index];
        Pos { x: b.x, y: b.y }
    }

    /// Number of actors registered.
    pub fn actor_count(&self) -> (n: usize)
        ensures
            n == self@.bodies.len(),
    {
        self.bodies.len()
    }

    /// Width and height of an actor.
    pub fn actor_size(&self, a: ActorId) -> (r: (i64, i64))
        requires
            self@.valid_actor(a),
        ensures
            r.0 == self@.bodies[a.index as int].w,
            r.1 == self@.bodies[a.index as int].h,
    {
        let b = self.bodies[a.index];
        (b.w, b.h)
    }

    /// Whether the actor's rectangle, placed with its top-left corner at
    /// `probe` rather than where it is, would overlap a solid cell.
    pub fn collide_check(&self, a: ActorId, probe: Pos) -> (r: bool)
        requires
            self@.wf(),
            self@.valid_actor(a),
            -COORD_LIMIT <= probe.x <= COORD_LIMIT,
            -COORD_LIMIT <= probe.y <= COORD_LIMIT,
        ensures
            r == self@.collides_at(a, probe),
    {
        let b = self.bodies[a.index];
        assert(self@.bodies[a.index as int].wf());
        self.grid.collides(&Rect { x: probe.x, y: probe.y, w: b.w, h: b.h })
    }

    /// Whether body `b` may stand at `(x, y)`.
    fn free_at_exec(&self, b: Body, x: i64, y: i64) -> (r: bool)
        requires
            self@.wf(),
            b.wf(),
            -POS_LIMIT - 1 <= x <= POS_LIMIT + 1,
            -POS_LIMIT - 1 <= y <= POS_LIMIT + 1,
        ensures
            r == free_at(self@.grid, b, x as int, y as int),
    {
        if x < -POS_LIMIT || x > POS_LIMIT || y < -POS_LIMIT || y > POS_LIMIT {
            return false;
        }
        !self.grid.collides(&Rect { x, y, w: b.w, h: b.h })
    }

    /// Moves an actor `dx` sub-pixel units along X. The displacement is added
    /// to the actor's sub-pixel remainder and the nearest whole number of
    /// pixels is walked one pixel at a time; the actor halts just before the
    /// first pixel that would overlap a solid cell or leave the world bounds.
    /// Returns whether the whole distance was covered.
    pub fn move_h(&mut self, a: ActorId, dx: i64) -> (unblocked: bool)
        requires
            old(self)@.wf(),
            old(self)@.valid_actor(a),
            -MAX_DELTA <= dx <= MAX_DELTA,
        ensures
            final(self)@ == old(self)@.moved_h(a, dx as int),
            final(self)@.wf(),
            unblocked == old(self)@.h_unblocked(a, dx as int),
    {
        let ghost g = self@.grid;
        let b = self.bodies[a.index];
        assert(self@.bodies[a.index as int].wf());
        let r: i64 = b.rem_x + dx;
        let n = round_steps_exec(r);
        let s: i64 = if n > 0 {
            1
        } else {
            -1
        };
        let mut x: i64 = b.x;
        let mut left: i64 = n;
        let mut going = true;
        while going && left != 0
            invariant
                self@.wf(),
                g == self@.grid,
                b.wf(),
                -POS_LIMIT <= x <= POS_LIMIT,
                x == b.x + (n - left),
                left == 0 || sign(left as int) == s,
                s == 1 || s == -1,
                -(MAX_DELTA / SUBPX + 2) <= left <= MAX_DELTA / SUBPX + 2,
                slide_x(g, b, x as int, left as int) == slide_x(g, b, b.x as int, n as int),
                !going ==> left != 0 && !free_at(g, b, x + s, b.y as int),
            decreases abs(left as int) + if going { 1int } else { 0 },
        {
            if self.free_at_exec(b, x + s, b.y) {
                x = x + s;
                left = left - s;
            } else {
                going = false;
            }
        }
        let rem: i64 = r - n * SUBPX;
        proof {
            lemma_round_steps(r as int);
        }
        let nb = Body { x, rem_x: rem, ..b };
        self.bodies.set(a.index, nb);
        proof {
            assert(self@.bodies =~= old(self)@.moved_h(a, dx as int).bodies);
            assert forall|i: int| 0 <= i < self@.bodies.len() implies (#[trigger] self@.bodies[i]).wf() by {
                if i != a.index {
                    assert(self@.bodies[i] == old(self)@.bodies[i]);
                }
            }
        }
        left == 0
    }

    /// Moves an actor `dy` sub-pixel units along Y, by the same rule as
    /// `move_h`.
    pub fn move_v(&mut self, a: ActorId, dy: i64) -> (unblocked: bool)
        requires
            old(self)@.wf(),
            old(self)@.valid_actor(a),
            -MAX_DELTA <= dy <= MAX_DELTA,
        ensures
            final(self)@ == old(self)@.moved_v(a, dy as int),
            final(self)@.wf(),
            unblocked == old(self)@.v_unblocked(a, dy as int),
    {
        let ghost g = self@.grid;
        let b = self.bodies[a.index];
        assert(self@.bodies[a.index as int].wf());
        let r: i64 = b.rem_y + dy;
        let n = round_steps_exec(r);
        let s: i64 = if n > 0 {
            1
        } else {
            -1
        };
        let mut y: i64 = b.y;
        let mut left: i64 = n;
        let mut going = true;
        while going && left != 0
            invariant
                self@.wf(),
                g == self@.grid,
                b.wf(),
                -POS_LIMIT <= y <= POS_LIMIT,
                y == b.y + (n - left),
                left == 0 || sign(left as int) == s,
                s == 1 || s == -1,
                -(MAX_DELTA / SUBPX + 2) <= left <= MAX_DELTA / SUBPX + 2,
                slide_y(g, b, y as int, left as int) == slide_y(g, b, b.y as int, n as int),
                !going ==> left != 0 && !free_at(g, b, b.x as int, y + s),
            decreases abs(left as int) + if going { 1int } else { 0 },
        {
            if self.free_at_exec(b, b.x, y + s) {
                y = y + s;
                left = left - s;
            } else {
                going = false;
            }
        }
        let rem: i64 = r - n * SUBPX;
        proof {
            lemma_round_steps(r as int);
        }
        let nb = Body { y, rem_y: rem, ..b };
        self.bodies.set(a.index, nb);
        proof {
            assert(self@.bodies =~= old(self)@.moved_v(a, dy as int).bodies);
            assert forall|i: int| 0 <= i < self@.bodies.len() implies (#[trigger] self@.bodies[i]).wf() by {
                if i != a.index {
                    assert(self@.bodies[i] == old(self)@.bodies[i]);
                }
            }
        }
        left == 0
    }
}

} // verus!
