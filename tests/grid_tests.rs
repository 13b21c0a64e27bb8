use std::collections::HashSet;

use tile_platformer::grid::{
    collect_used_tile_ids, LoadError, MapData, Rect, Tile, TileEntry, TileGrid,
};
use tile_platformer::spawn::find_spawn_points;

fn entries_from(rows: &[&str]) -> Vec<TileEntry> {
    let mut entries = Vec::new();
    for (y, row) in rows.iter().enumerate() {
        for (x, c) in row.chars().enumerate() {
            let id = if c == '#' { Some(1) } else { None };
            entries.push(TileEntry { x: x as u32, y: y as u32, id });
        }
    }
    entries
}

fn solid_one() -> HashSet<u32> {
    let mut solid = HashSet::new();
    solid.insert(1);
    solid
}

fn grid_from(rows: &[&str]) -> TileGrid {
    let w = rows[0].len();
    let h = rows.len();
    let map = MapData {
        width: w as u32,
        height: h as u32,
        tile_width: 16,
        tile_height: 16,
        layer: Some(entries_from(rows)),
    };
    match TileGrid::build(&map, w, h, &solid_one()) {
        Ok(g) => g,
        Err(e) => panic!("grid did not build: {:?}", e),
    }
}

fn map_of(width: u32, height: u32, tile: u32, layer: Option<Vec<TileEntry>>) -> MapData {
    MapData { width, height, tile_width: tile, tile_height: tile, layer }
}

#[test]
fn build_marks_solid_ids_and_defaults_to_empty() {
    let mut entries = Vec::new();
    entries.push(TileEntry { x: 0, y: 0, id: Some(1) });
    entries.push(TileEntry { x: 1, y: 0, id: Some(2) });
    entries.push(TileEntry { x: 2, y: 0, id: None });
    let map = map_of(3, 2, 16, Some(entries));
    let g = TileGrid::build(&map, 3, 2, &solid_one()).unwrap();
    assert_eq!(g.width(), 3);
    assert_eq!(g.height(), 2);
    assert_eq!(g.tile(0, 0), Tile::Solid);
    assert_eq!(g.tile(1, 0), Tile::Empty);
    assert_eq!(g.tile(2, 0), Tile::Empty);
    // cells the layer does not report are empty
    assert_eq!(g.tile(0, 1), Tile::Empty);
    // outside the grid
    assert_eq!(g.tile(7, 7), Tile::Empty);
}

#[test]
fn build_last_entry_for_a_cell_wins() {
    let mut entries = Vec::new();
    entries.push(TileEntry { x: 0, y: 0, id: Some(1) });
    entries.push(TileEntry { x: 0, y: 0, id: None });
    entries.push(TileEntry { x: 1, y: 0, id: None });
    entries.push(TileEntry { x: 1, y: 0, id: Some(1) });
    let g = TileGrid::build(&map_of(2, 1, 16, Some(entries)), 2, 1, &solid_one()).unwrap();
    assert_eq!(g.tile(0, 0), Tile::Empty);
    assert_eq!(g.tile(1, 0), Tile::Solid);
}

#[test]
fn build_missing_layer() {
    let r = TileGrid::build(&map_of(3, 2, 16, None), 3, 2, &solid_one());
    assert_eq!(r.err(), Some(LoadError::MissingLayer));
}

#[test]
fn build_dimension_mismatch() {
    let r = TileGrid::build(&map_of(3, 2, 16, Some(Vec::new())), 30, 20, &solid_one());
    assert_eq!(r.err(), Some(LoadError::DimensionMismatch));
    let r = TileGrid::build(&map_of(3, 2, 16, Some(Vec::new())), 3, 3, &solid_one());
    assert_eq!(r.err(), Some(LoadError::DimensionMismatch));
}

#[test]
fn build_bad_tile_size() {
    let r = TileGrid::build(&map_of(3, 2, 0, Some(Vec::new())), 3, 2, &solid_one());
    assert_eq!(r.err(), Some(LoadError::BadTileSize));
}

#[test]
fn build_tile_out_of_range() {
    let mut entries = Vec::new();
    entries.push(TileEntry { x: 0, y: 0, id: Some(1) });
    entries.push(TileEntry { x: 3, y: 0, id: Some(1) });
    let r = TileGrid::build(&map_of(3, 2, 16, Some(entries)), 3, 2, &solid_one());
    assert_eq!(r.err(), Some(LoadError::TileOutOfRange));
}

#[test]
fn used_tile_ids_are_sorted_and_unique() {
    let mut entries = Vec::new();
    for (i, id) in [Some(5), None, Some(3), Some(5), Some(9)].iter().enumerate() {
        entries.push(TileEntry { x: i as u32, y: 0, id: *id });
    }
    let used: Vec<u32> = collect_used_tile_ids(&entries).into_iter().collect();
    assert_eq!(used, vec![3, 5, 9]);
    assert!(collect_used_tile_ids(&Vec::new()).is_empty());
}

#[test]
fn collides_spans_every_covered_cell() {
    // one solid cell at (2, 1): pixels x 32..=47, y 16..=31
    let g = grid_from(&["....", "..#.", "...."]);
    // touches the cell's corner from outside: no overlap
    assert!(!g.collides(&Rect { x: 20, y: 10, w: 12, h: 6 }));
    // one pixel further on both axes: overlaps the corner pixel (32, 16)
    assert!(g.collides(&Rect { x: 20, y: 10, w: 13, h: 7 }));
    // fully inside
    assert!(g.collides(&Rect { x: 40, y: 20, w: 1, h: 1 }));
    // larger than the whole grid
    assert!(g.collides(&Rect { x: -10, y: -10, w: 100, h: 100 }));
    // right of the cell, sharing its edge only
    assert!(!g.collides(&Rect { x: 48, y: 16, w: 10, h: 10 }));
}

#[test]
fn collides_is_false_outside_the_grid() {
    let g = grid_from(&["##", "##"]);
    assert!(!g.collides(&Rect { x: -100, y: -100, w: 5, h: 5 }));
    assert!(!g.collides(&Rect { x: 32, y: 0, w: 5, h: 5 }));
    assert!(!g.collides(&Rect { x: 0, y: 32, w: 5, h: 5 }));
    assert!(g.collides(&Rect { x: -4, y: -4, w: 5, h: 5 }));
}

#[test]
fn spawn_points_row_major_standing_on_solid() {
    let g = grid_from(&["....", ".#..", "####"]);
    let spawns = find_spawn_points(&g);
    let got: Vec<(i64, i64)> = spawns.iter().map(|p| (p.x, p.y)).collect();
    assert_eq!(got, vec![(18, 2), (2, 18), (34, 18), (50, 18)]);
}

#[test]
fn spawn_points_are_deterministic() {
    let g = grid_from(&["......", ".#..#.", "######"]);
    let a = find_spawn_points(&g);
    let b = find_spawn_points(&g);
    assert_eq!(a, b);
    let copy = g.duplicate();
    assert_eq!(find_spawn_points(&copy), a);
}

#[test]
fn spawn_points_empty_without_ground() {
    let g = grid_from(&["....", "...."]);
    assert!(find_spawn_points(&g).is_empty());
    // a solid bottom row with nothing scanned below it
    let g = grid_from(&["####"]);
    assert!(find_spawn_points(&g).is_empty());
}
