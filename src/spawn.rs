use vstd::prelude::*;

use crate::config::{ENEMY_H, ENEMY_W, MAX_GRID_DIM, MAX_TILE_PX, POS_LIMIT};
use crate::grid::{GridView, Pos, Tile, TileGrid};

verus! {

/// An enemy may stand in cell `(x, y)`: it is empty and the cell below is solid.
pub open spec fn is_spawn_cell(g: GridView, x: int, y: int) -> bool {
    g.tile_at(x, y) == Tile::Empty && g.tile_at(x, y + 1) == Tile::Solid
}

/// Top-left corner of an enemy standing in cell `(x, y)`: horizontally
/// centred in the tile (rounded down), its bottom edge on the top edge of the
/// cell below.
pub open spec fn spawn_pos(g: GridView, x: int, y: int) -> Pos {
    Pos {
        x: (x * g.tile_w + (g.tile_w - ENEMY_W) / 2) as i64,
        y: ((y + 1) * g.tile_h - ENEMY_H) as i64,
    }
}

/// Spawn positions in the first `n` cells of row `y`, left to right.
pub open spec fn row_spawns(g: GridView, y: int, n: nat) -> Seq<Pos>
    decreases n,
{
    if n == 0 {
        Seq::empty()
    } else {
        row_spawns(g, y, (n - 1) as nat) + if is_spawn_cell(g, n - 1, y) {
            seq![spawn_pos(g, n - 1, y)]
        } else {
            Seq::empty()
        }
    }
}

/// Spawn positions in the first `rows` rows, top to bottom.
pub open spec fn rows_spawns(g: GridView, rows: nat) -> Seq<Pos>
    decreases rows,
{
    if rows == 0 {
        Seq::empty()
    } else {
        rows_spawns(g, (rows - 1) as nat) + row_spawns(g, rows - 1, g.width)
    }
}

/// All spawn positions of a grid in row-major order. The bottom row has no
/// row below it and is never a spawn row.
pub open spec fn spawn_points(g: GridView) -> Seq<Pos> {
    if g.height == 0 {
        Seq::empty()
    } else {
        rows_spawns(g, (g.height - 1) as nat)
    }
}

/// Spawn points depend on the grid alone: equal grids give equal lists, in
/// the same order.
pub proof fn lemma_spawn_points_deterministic(g1: GridView, g2: GridView)
    requires
        g1 == g2,
    ensures
        spawn_points(g1) == spawn_points(g2),
{
}

/// Half of `d`, rounded down.
fn half_floor(d: i64) -> (r: i64)
    requires
        -MAX_TILE_PX <= d <= MAX_TILE_PX,
    ensures
        r == d / 2,
{
    if d >= 0 {
        d / 2
    } else {
        let p: i64 = (-d + 1) / 2;
        proof {
            let e = -d;
            vstd::arithmetic::div_mod::lemma_fundamental_div_mod(e + 1, 2);
            let m = (e + 1) % 2;
            vstd::arithmetic::div_mod::lemma_fundamental_div_mod_converse(d as int, 2, -p, 1 - m);
        }
        -p
    }
}

/// The enemy spawn positions of `grid`, scanning rows top to bottom and each
/// row left to right.
pub fn find_spawn_points(grid: &TileGrid) -> (spawns: Vec<Pos>)
    requires
        grid@.wf(),
    ensures
        spawns@ == spawn_points(grid@),
        forall|i: int|
            0 <= i < spawns@.len() ==> -POS_LIMIT <= (#[trigger] spawns@[i]).x <= POS_LIMIT
                && -POS_LIMIT <= spawns@[i].y <= POS_LIMIT,
{
    let ghost g = grid@;
    let w = grid.width();
    let h = grid.height();
    let tw = grid.tile_width() as i64;
    let th = grid.tile_height() as i64;
    let off = half_floor(tw - ENEMY_W);
    let rows: usize = if h == 0 {
        0
    } else {
        h - 1
    };
    let mut spawns: Vec<Pos> = Vec::new();
    let mut y: usize = 0;
    while y < rows
        invariant
            g == grid@,
            g.wf(),
            w == g.width,
            h == g.height,
            tw == g.tile_w,
            th == g.tile_h,
            off == (g.tile_w - ENEMY_W) / 2,
            rows == if h == 0 { 0 } else { h - 1 },
            y <= rows,
            spawns@ == rows_spawns(g, y as nat),
            forall|i: int|
                0 <= i < spawns@.len() ==> -POS_LIMIT <= (#[trigger] spawns@[i]).x <= POS_LIMIT
                    && -POS_LIMIT <= spawns@[i].y <= POS_LIMIT,
        decreases rows - y,
    {
        let mut x: usize = 0;
        while x < w
            invariant
                g == grid@,
                g.wf(),
                w == g.width,
                h == g.height,
                tw == g.tile_w,
                th == g.tile_h,
                off == (g.tile_w - ENEMY_W) / 2,
                rows == if h == 0 { 0 } else { h - 1 },
                y < rows,
                x <= w,
                spawns@ == rows_spawns(g, y as nat) + row_spawns(g, y as int, x as nat),
                forall|i: int|
                    0 <= i < spawns@.len() ==> -POS_LIMIT <= (#[trigger] spawns@[i]).x <= POS_LIMIT
                        && -POS_LIMIT <= spawns@[i].y <= POS_LIMIT,
            decreases w - x,
        {
            let here = grid.tile(x, y);
            let below = grid.tile(x, y + 1);
            let ghost before = spawns@;
            if here == Tile::Empty && below == Tile::Solid {
                assert(x * tw <= MAX_GRID_DIM * MAX_TILE_PX) by (nonlinear_arith)
                    requires
                        x <= MAX_GRID_DIM,
                        0 <= tw <= MAX_TILE_PX,
                ;
                assert((y + 1) * th <= MAX_GRID_DIM * MAX_TILE_PX) by (nonlinear_arith)
                    requires
                        y + 1 <= MAX_GRID_DIM,
                        0 <= th <= MAX_TILE_PX,
                ;
                let px: i64 = (x as i64) * tw + off;
                let py: i64 = (y as i64 + 1) * th - ENEMY_H;
                spawns.push(Pos { x: px, y: py });
                assert(spawns@ == before + seq![spawn_pos(g, x as int, y as int)]);
            }
            proof {
                assert(rows_spawns(g, y as nat) + row_spawns(g, y as int, (x + 1) as nat) =~= spawns@);
            }
            x = x + 1;
        }
        proof {
            assert(rows_spawns(g, (y + 1) as nat) =~= spawns@);
        }
        y = y + 1;
    }
    spawns
}

} // verus!
