use std::collections::{BTreeSet, HashSet};
use vstd::prelude::*;

use crate::config::{COORD_LIMIT, MAX_ACTOR_PX, MAX_GRID_DIM, MAX_TILE_PX};

verus! {

broadcast use vstd::std_specs::hash::group_hash_axioms, vstd::std_specs::btree::group_btree_axioms, vstd::laws_cmp::group_laws_cmp;

/// What one cell of the static collision map holds.
#[derive(Clone, Copy, Debug, PartialEq, Eq, Structural)]
pub enum Tile {
    Empty,
    Solid,
}

/// A point in pixels; for an actor, its top-left corner.
#[derive(Clone, Copy, Debug, PartialEq, Eq, Structural)]
pub struct Pos {
    pub x: i64,
    pub y: i64,
}

/// An axis-aligned rectangle in pixels: top-left corner and size.
/// It covers the pixels `x .. x + w - 1` and `y .. y + h - 1`.
#[derive(Clone, Copy, Debug, PartialEq, Eq, Structural)]
pub struct Rect {
    pub x: i64,
    pub y: i64,
    pub w: i64,
    pub h: i64,
}

impl Rect {
    /// A rectangle that collision queries accept: a positive size and
    /// coordinates far from the limits of `i64`.
    pub open spec fn valid(self) -> bool {
        &&& 1 <= self.w <= MAX_ACTOR_PX
        &&& 1 <= self.h <= MAX_ACTOR_PX
        &&& -COORD_LIMIT <= self.x <= COORD_LIMIT
        &&& -COORD_LIMIT <= self.y <= COORD_LIMIT
    }

    /// Overlap with closed edges: rectangles that touch count as overlapping.
    pub open spec fn spec_overlaps(self, o: Rect) -> bool {
        &&& self.x <= o.x + o.w
        &&& self.x + self.w >= o.x
        &&& self.y <= o.y + o.h
        &&& self.y + self.h >= o.y
    }

    pub fn overlaps(&self, o: &Rect) -> (r: bool)
        requires
            self.valid(),
            o.valid(),
        ensures
            r == self.spec_overlaps(*o),
    {
        self.x <= o.x + o.w && self.x + self.w >= o.x && self.y <= o.y + o.h && self.y + self.h
            >= o.y
    }
}

/// The mathematical content of a `TileGrid`.
pub struct GridView {
    pub width: nat,
    pub height: nat,
    pub tile_w: int,
    pub tile_h: int,
    pub cells: Seq<Tile>,
}

impl GridView {
    pub open spec fn wf(self) -> bool {
        &&& self.width <= MAX_GRID_DIM
        &&& self.height <= MAX_GRID_DIM
        &&& 1 <= self.tile_w <= MAX_TILE_PX
        &&& 1 <= self.tile_h <= MAX_TILE_PX
        &&& self.cells.len() == self.width * self.height
    }

    pub open spec fn in_grid(self, x: int, y: int) -> bool {
        0 <= x < self.width && 0 <= y < self.height
    }

    /// The tile at cell `(x, y)`; every cell outside the grid is empty.
    pub open spec fn tile_at(self, x: int, y: int) -> Tile {
        if self.in_grid(x, y) {
            self.cells[y * self.width + x]
        } else {
            Tile::Empty
        }
    }

    pub open spec fn is_solid(self, x: int, y: int) -> bool {
        self.tile_at(x, y) == Tile::Solid
    }

    /// Whether cell `(cx, cy)` shares at least one pixel with `r`.
    pub open spec fn cell_overlaps(self, cx: int, cy: int, r: Rect) -> bool {
        &&& axis_covers(cx, r.x as int, r.w as int, self.tile_w)
        &&& axis_covers(cy, r.y as int, r.h as int, self.tile_h)
    }

    /// `r` overlaps at least one solid cell.
    pub open spec fn collides(self, r: Rect) -> bool {
        exists|cx: int, cy: int| #[trigger] self.is_solid(cx, cy) && self.cell_overlaps(cx, cy, r)
    }
}

/// One cell of a map layer as the map loader reports it: its coordinates and
/// the id of the tile placed there, if any.
#[derive(Clone, Copy, Debug, PartialEq, Eq, Structural)]
pub struct TileEntry {
    pub x: u32,
    pub y: u32,
    pub id: Option<u32>,
}

/// A loaded map: its declared size in tiles, its tile size in pixels, and the
/// cells of the collision layer, or `None` where the map has no such layer.
pub struct MapData {
    pub width: u32,
    pub height: u32,
    pub tile_width: u32,
    pub tile_height: u32,
    pub layer: Option<Vec<TileEntry>>,
}

/// Why a map cannot become a `TileGrid`.
#[derive(Clone, Copy, Debug, PartialEq, Eq, Structural)]
pub enum LoadError {
    /// The map has no collision layer.
    MissingLayer,
    /// The map's declared width or height differs from the expected one.
    DimensionMismatch,
    /// A tile side is zero or larger than `MAX_TILE_PX`.
    BadTileSize,
    /// The layer reports a cell outside the declared width and height.
    TileOutOfRange,
}

/// The tile that one layer entry stands for.
pub open spec fn entry_tile(e: TileEntry, solid_ids: Set<u32>) -> Tile {
    match e.id {
        Some(id) => if solid_ids.contains(id) {
            Tile::Solid
        } else {
            Tile::Empty
        },
        None => Tile::Empty,
    }
}

/// The tile at `(x, y)` after the entries have been applied in order: the last
/// entry for that cell decides, and a cell with no entry is empty.
pub open spec fn layer_tile(entries: Seq<TileEntry>, solid_ids: Set<u32>, x: int, y: int) -> Tile
    decreases entries.len(),
{
    if entries.len() == 0 {
        Tile::Empty
    } else if entries.last().x == x && entries.last().y == y {
        entry_tile(entries.last(), solid_ids)
    } else {
        layer_tile(entries.drop_last(), solid_ids, x, y)
    }
}

/// The first reason, if any, why `map` cannot be loaded as an
/// `expected_w` by `expected_h` grid.
pub open spec fn load_error(map: MapData, expected_w: nat, expected_h: nat) -> Option<LoadError> {
    match map.layer {
        None => Some(LoadError::MissingLayer),
        Some(entries) => if map.width != expected_w || map.height != expected_h {
            Some(LoadError::DimensionMismatch)
        } else if !(1 <= map.tile_width <= MAX_TILE_PX && 1 <= map.tile_height <= MAX_TILE_PX) {
            Some(LoadError::BadTileSize)
        } else if exists|i: int|
            0 <= i < entries@.len() && (#[trigger] entries@[i].x >= map.width || entries@[i].y
                >= map.height) {
            Some(LoadError::TileOutOfRange)
        } else {
            None
        },
    }
}

/// `g` is the grid that `map` yields when the ids in `solid_ids` are solid.
pub open spec fn built_from(g: GridView, map: MapData, solid_ids: Set<u32>) -> bool {
    &&& g.wf()
    &&& g.width == map.width
    &&& g.height == map.height
    &&& g.tile_w == map.tile_width
    &&& g.tile_h == map.tile_height
    &&& forall|x: int, y: int|
        #![trigger g.tile_at(x, y)]
        g.in_grid(x, y) ==> g.tile_at(x, y) == layer_tile(map.layer->Some_0@, solid_ids, x, y)
}

/// The ids of the tiles placed in a layer.
pub open spec fn used_ids(entries: Seq<TileEntry>) -> Set<u32> {
    Set::new(|id: u32| exists|i: int| 0 <= i < entries.len() && #[trigger] entries[i].id == Some(id))
}

/// The ids of all tiles placed in a layer, in ascending order.
pub fn collect_used_tile_ids(entries: &Vec<TileEntry>) -> (used: BTreeSet<u32>)
    ensures
        used@ == used_ids(entries@),
{
    let mut used: BTreeSet<u32> = BTreeSet::new();
    let mut i: usize = 0;
    while i < entries.len()
        invariant
            i <= entries.len(),
            used@ == used_ids(entries@.take(i as int)),
        decreases entries.len() - i,
    {
        if let Some(id) = entries[i].id {
            used.insert(id);
        }
        proof {
            let next = entries@.take(i + 1);
            assert(next.drop_last() == entries@.take(i as int));
            assert forall|k: u32| used@.contains(k) == used_ids(next).contains(k) by {
                if used_ids(next).contains(k) {
                    let j = choose|j: int| 0 <= j < next.len() && #[trigger] next[j].id == Some(k);
                    if j < i {
                        assert(entries@.take(i as int)[j].id == Some(k));
                    }
                }
                if used_ids(entries@.take(i as int)).contains(k) {
                    let j = choose|j: int|
                        0 <= j < i && #[trigger] entries@.take(i as int)[j].id == Some(k);
                    assert(next[j].id == Some(k));
                }
                if entries@[i as int].id == Some(k) {
                    assert(next[i as int].id == Some(k));
                }
            }
            assert(used@ =~= used_ids(next));
        }
        i = i + 1;
    }
    assert(entries@.take(entries.len() as int) == entries@);
    used
}

/// Distinct cells have distinct row-major positions.
proof fn lemma_cell_index_unique(x1: int, y1: int, x2: int, y2: int, w: int)
    requires
        0 <= x1 < w,
        0 <= x2 < w,
        0 <= y1,
        0 <= y2,
        y1 * w + x1 == y2 * w + x2,
    ensures
        x1 == x2,
        y1 == y2,
{
    if y1 < y2 {
        assert(y1 * w + x1 < y2 * w + x2) by (nonlinear_arith)
            requires
                y1 < y2,
                0 <= x1 < w,
                0 <= x2,
        ;
    } else if y2 < y1 {
        assert(y2 * w + x2 < y1 * w + x1) by (nonlinear_arith)
            requires
                y2 < y1,
                0 <= x2 < w,
                0 <= x1,
        ;
    }
}

/// The static collision map of a level: `width * height` tiles stored row by
/// row, each `tile_w * tile_h` pixels.
pub struct TileGrid {
    width: usize,
    height: usize,
    tile_w: u32,
    tile_h: u32,
    cells: Vec<Tile>,
}

impl View for TileGrid {
    type V = GridView;

    closed spec fn view(&self) -> GridView {
        GridView {
            width: self.width as nat,
            height: self.height as nat,
            tile_w: self.tile_w as int,
            tile_h: self.tile_h as int,
            cells: self.cells@,
        }
    }
}

/// For a non-negative `d` and a positive `t`: `c * t <= d` exactly when `c <= d / t`.
proof fn lemma_mul_le_iff_le_div(c: int, d: int, t: int)
    requires
        c >= 0,
        d >= 0,
        t > 0,
    ensures
        (c * t <= d) == (c <= d / t),
{
    let q = d / t;
    let m = d % t;
    vstd::arithmetic::div_mod::lemma_fundamental_div_mod(d, t);
    if c <= q {
        assert(c * t <= d) by (nonlinear_arith)
            requires
                c <= q,
                t > 0,
                d == t * q + m,
                m >= 0,
        ;
    } else {
        assert(c * t > d) by (nonlinear_arith)
            requires
                c >= q + 1,
                t > 0,
                d == t * q + m,
                m < t,
        ;
    }
}

/// Row-major position of cell `(x, y)` lies inside the cell sequence.
proof fn lemma_cell_index(x: int, y: int, w: int, h: int)
    requires
        0 <= x < w,
        0 <= y < h,
        h <= MAX_GRID_DIM,
        w <= MAX_GRID_DIM,
    ensures
        0 <= y * w + x < w * h <= MAX_GRID_DIM * MAX_GRID_DIM,
{
    assert(0 <= y * w + x < w * h) by (nonlinear_arith)
        requires
            0 <= x < w,
            0 <= y < h,
    ;
    assert(w * h <= MAX_GRID_DIM * MAX_GRID_DIM) by (nonlinear_arith)
        requires
            0 <= w <= MAX_GRID_DIM,
            0 <= h <= MAX_GRID_DIM,
    ;
}

/// Cell `c` of side `tile` shares a pixel with the span `lo .. lo + len - 1`.
pub open spec fn axis_covers(c: int, lo: int, len: int, tile: int) -> bool {
    c * tile < lo + len && lo < (c + 1) * tile
}

/// The cells along one axis that share a pixel with the span `lo .. lo + len - 1`:
/// exactly those with index in `first .. last`.
fn covered_cells(lo: i64, len: i64, tile: u32, count: usize) -> (res: (usize, usize))
    requires
        -COORD_LIMIT <= lo <= COORD_LIMIT,
        1 <= len <= MAX_ACTOR_PX,
        1 <= tile <= MAX_TILE_PX,
        count <= MAX_GRID_DIM,
    ensures
        res.0 <= res.1 <= count,
        forall|c: int| 0 <= c < count ==> ((res.0 <= c < res.1) == #[trigger] axis_covers(c, lo as int, len as int, tile as int)),
{
    let hi: i64 = lo + len - 1;
    if hi < 0 {
        assert forall|c: int| 0 <= c < count implies !#[trigger] axis_covers(c, lo as int, len as int, tile as int) by {
            assert(c * tile >= 0) by (nonlinear_arith)
                requires
                    c >= 0,
                    tile >= 1,
            ;
        }
        return (0, 0);
    }
    let hi_q: u64 = (hi as u64) / (tile as u64);
    let last: usize = if hi_q >= count as u64 {
        count
    } else {
        (hi_q + 1) as usize
    };
    let first: usize = if lo < 0 {
        0
    } else {
        let lo_q: u64 = (lo as u64) / (tile as u64);
        proof {
            vstd::arithmetic::div_mod::lemma_div_is_ordered(lo as int, hi as int, tile as int);
        }
        if lo_q >= count as u64 {
            count
        } else {
            lo_q as usize
        }
    };
    assert forall|c: int| 0 <= c < count implies ((first <= c < last) == #[trigger] axis_covers(c, lo as int, len as int, tile as int)) by {
        lemma_mul_le_iff_le_div(c, hi as int, tile as int);
        if lo >= 0 {
            lemma_mul_le_iff_le_div(c + 1, lo as int, tile as int);
        } else {
            assert((c + 1) * tile >= 0) by (nonlinear_arith)
                requires
                    c >= 0,
                    tile >= 1,
            ;
        }
    }
    (first, last)
}

impl TileGrid {
    pub fn width(&self) -> (r: usize)
        ensures
            r == self@.width,
    {
        self.width
    }

    pub fn height(&self) -> (r: usize)
        ensures
            r == self@.height,
    {
        self.height
    }

    pub fn tile_width(&self) -> (r: u32)
        ensures
            r == self@.tile_w,
    {
        self.tile_w
    }

    pub fn tile_height(&self) -> (r: u32)
        ensures
            r == self@.tile_h,
    {
        self.tile_h
    }

    /// A copy of the grid.
    pub fn duplicate(&self) -> (r: TileGrid)
        ensures
            r@ == self@,
    {
        let mut cells: Vec<Tile> = Vec::new();
        let mut i: usize = 0;
        while i < self.cells.len()
            invariant
                i <= self.cells.len(),
                cells@ == self.cells@.take(i as int),
            decreases self.cells.len() - i,
        {
            cells.push(self.cells[i]);
            proof {
                assert(self.cells@.take(i + 1) == self.cells@.take(i as int).push(self.cells@[i as int]));
            }
            i = i + 1;
        }
        assert(self.cells@.take(self.cells.len() as int) == self.cells@);
        TileGrid { width: self.width, height: self.height, tile_w: self.tile_w, tile_h: self.tile_h, cells }
    }

    /// The tile at `(x, y)`, or `Empty` outside the grid.
    pub fn tile(&self, x: usize, y: usize) -> (t: Tile)
        requires
            self@.wf(),
        ensures
            t == self@.tile_at(x as int, y as int),
    {
        if x < self.width && y < self.height {
            proof {
                lemma_cell_index(x as int, y as int, self.width as int, self.height as int);
            }
            self.cells[y * self.width + x]
        } else {
            Tile::Empty
        }
    }

    /// Builds the collision grid of `map`: a cell is solid where the tile
    /// placed there has an id in `solid_ids`, and empty where it has another
    /// id or none. The map must declare exactly `expected_w` by `expected_h`
    /// tiles and report no cell outside them.
    pub fn build(map: &MapData, expected_w: usize, expected_h: usize, solid_ids: &HashSet<u32>) -> (r: Result<TileGrid, LoadError>)
        requires
            expected_w <= MAX_GRID_DIM,
            expected_h <= MAX_GRID_DIM,
        ensures
            match load_error(*map, expected_w as nat, expected_h as nat) {
                Some(e) => r == Err::<TileGrid, LoadError>(e),
                None => r is Ok && built_from(r->Ok_0@, *map, solid_ids@),
            },
    {
        let entries = match &map.layer {
            None => {
                return Err(LoadError::MissingLayer);
            },
            Some(v) => v,
        };
        if map.width as u64 != expected_w as u64 || map.height as u64 != expected_h as u64 {
            return Err(LoadError::DimensionMismatch);
        }
        if map.tile_width < 1 || map.tile_width > MAX_TILE_PX || map.tile_height < 1
            || map.tile_height > MAX_TILE_PX {
            return Err(LoadError::BadTileSize);
        }
        let mut i: usize = 0;
        while i < entries.len()
            invariant
                i <= entries.len(),
                map.layer is Some && map.layer->Some_0@ == entries@,
                map.width == expected_w,
                map.height == expected_h,
                1 <= map.tile_width <= MAX_TILE_PX,
                1 <= map.tile_height <= MAX_TILE_PX,
                forall|j: int|
                    0 <= j < i ==> #[trigger] entries@[j].x < map.width && entries@[j].y
                        < map.height,
            decreases entries.len() - i,
        {
            if entries[i].x >= map.width || entries[i].y >= map.height {
                assert(entries@[i as int].x >= map.width || entries@[i as int].y >= map.height);
                return Err(LoadError::TileOutOfRange);
            }
            i = i + 1;
        }
        let w = expected_w;
        let h = expected_h;
        proof {
            lemma_cell_index(0, 0, MAX_GRID_DIM as int, MAX_GRID_DIM as int);
            assert(w * h <= MAX_GRID_DIM * MAX_GRID_DIM) by (nonlinear_arith)
                requires
                    w <= MAX_GRID_DIM,
                    h <= MAX_GRID_DIM,
            ;
        }
        let n: usize = w * h;
        let mut cells: Vec<Tile> = Vec::new();
        while cells.len() < n
            invariant
                map.layer is Some && map.layer->Some_0@ == entries@,
                cells.len() <= n,
                forall|k: int| 0 <= k < cells.len() ==> cells@[k] == Tile::Empty,
            decreases n - cells.len(),
        {
            cells.push(Tile::Empty);
        }
        let ghost solid = solid_ids@;
        proof {
            assert forall|x: int, y: int| 0 <= x < w && 0 <= y < h implies cells@[y * w + x]
                == #[trigger] layer_tile(entries@.take(0), solid, x, y) by {
                lemma_cell_index(x, y, w as int, h as int);
                assert(entries@.take(0).len() == 0);
            }
        }
        let mut i: usize = 0;
        while i < entries.len()
            invariant
                i <= entries.len(),
                map.layer is Some && map.layer->Some_0@ == entries@,
                cells.len() == n == w * h,
                w <= MAX_GRID_DIM,
                h <= MAX_GRID_DIM,
                w == map.width,
                h == map.height,
                solid == solid_ids@,
                forall|j: int|
                    0 <= j < entries.len() ==> #[trigger] entries@[j].x < map.width && entries@[j].y
                        < map.height,
                forall|x: int, y: int|
                    0 <= x < w && 0 <= y < h ==> cells@[y * w + x] == #[trigger] layer_tile(
                        entries@.take(i as int),
                        solid,
                        x,
                        y,
                    ),
            decreases entries.len() - i,
        {
            let e = entries[i];
            let t = match e.id {
                Some(id) => if solid_ids.contains(&id) {
                    Tile::Solid
                } else {
                    Tile::Empty
                },
                None => Tile::Empty,
            };
            assert(entries@[i as int].x < map.width && entries@[i as int].y < map.height);
            proof {
                lemma_cell_index(e.x as int, e.y as int, w as int, h as int);
            }
            let k: usize = (e.y as usize) * w + (e.x as usize);
            let ghost old_cells = cells@;
            cells.set(k, t);
            proof {
                let next = entries@.take(i + 1);
                assert(next.drop_last() == entries@.take(i as int));
                assert(next.last() == e);
                assert forall|x: int, y: int| 0 <= x < w && 0 <= y < h implies cells@[y * w + x]
                    == #[trigger] layer_tile(next, solid, x, y) by {
                    lemma_cell_index(x, y, w as int, h as int);
                    if x == e.x && y == e.y {
                    } else {
                        if y * w + x == k {
                            lemma_cell_index_unique(x, y, e.x as int, e.y as int, w as int);
                        }
                        assert(old_cells[y * w + x] == layer_tile(entries@.take(i as int), solid, x, y));
                    }
                }
            }
            i = i + 1;
        }
        let g = TileGrid {
            width: w,
            height: h,
            tile_w: map.tile_width,
            tile_h: map.tile_height,
            cells,
        };
        proof {
            assert(entries@.take(entries.len() as int) == entries@);
            assert forall|x: int, y: int| #![trigger g@.tile_at(x, y)] g@.in_grid(x, y) implies g@.tile_at(x, y)
                == layer_tile(entries@, solid, x, y) by {
                assert(cells@[y * w + x] == layer_tile(entries@.take(entries.len() as int), solid, x, y));
            }
        }
        Ok(g)
    }

    /// Whether `r` overlaps a solid cell. Only the cells that `r` spans are
    /// read: the range of columns and rows that its edges fall into.
    pub fn collides(&self, r: &Rect) -> (res: bool)
        requires
            self@.wf(),
            r.valid(),
        ensures
            res == self@.collides(*r),
    {
        let (c0, c1) = covered_cells(r.x, r.w, self.tile_w, self.width);
        let (r0, r1) = covered_cells(r.y, r.h, self.tile_h, self.height);
        let mut cy: usize = r0;
        while cy < r1
            invariant
                self@.wf(),
                r0 <= cy <= r1 <= self.height,
                c0 <= c1 <= self.width,
                forall|c: int| 0 <= c < self.width ==> ((c0 <= c < c1) == #[trigger] axis_covers(c, r.x as int, r.w as int, self.tile_w as int)),
                forall|c: int| 0 <= c < self.height ==> ((r0 <= c < r1) == #[trigger] axis_covers(c, r.y as int, r.h as int, self.tile_h as int)),
                forall|yy: int, xx: int|
                    r0 <= yy < cy && c0 <= xx < c1 ==> !#[trigger] self@.is_solid(xx, yy),
            decreases r1 - cy,
        {
            let mut cx: usize = c0;
            while cx < c1
                invariant
                    self@.wf(),
                    r0 <= cy < r1 <= self.height,
                    c0 <= cx <= c1 <= self.width,
                    forall|c: int| 0 <= c < self.width ==> ((c0 <= c < c1) == #[trigger] axis_covers(c, r.x as int, r.w as int, self.tile_w as int)),
                    forall|c: int| 0 <= c < self.height ==> ((r0 <= c < r1) == #[trigger] axis_covers(c, r.y as int, r.h as int, self.tile_h as int)),
                    forall|yy: int, xx: int|
                        r0 <= yy < cy && c0 <= xx < c1 ==> !#[trigger] self@.is_solid(xx, yy),
                    forall|xx: int| c0 <= xx < cx ==> !#[trigger] self@.is_solid(xx, cy as int),
                decreases c1 - cx,
            {
                proof {
                    lemma_cell_index(cx as int, cy as int, self.width as int, self.height as int);
                }
                if self.cells[cy * self.width + cx] == Tile::Solid {
                    assert(self@.cell_overlaps(cx as int, cy as int, *r));
                    assert(self@.is_solid(cx as int, cy as int));
                    return true;
                }
                cx = cx + 1;
            }
            cy = cy + 1;
        }
        assert(!self@.collides(*r)) by {
            if self@.collides(*r) {
                let (xx, yy) = choose|xx: int, yy: int|
                    #[trigger] self@.is_solid(xx, yy) && self@.cell_overlaps(xx, yy, *r);
                assert(self@.in_grid(xx, yy));
                assert(c0 <= xx < c1);
                assert(r0 <= yy < r1);
            }
        }
        false
    }
}

} // verus!
