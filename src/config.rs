use vstd::prelude::*;

verus! {

/// Largest grid side, in tiles.
pub const MAX_GRID_DIM: usize = 4096;

/// Largest tile side, in pixels.
pub const MAX_TILE_PX: u32 = 65536;

/// Largest actor side, in pixels.
pub const MAX_ACTOR_PX: i64 = 1048576;

/// World bounds: an actor's top-left corner never leaves `[-POS_LIMIT, POS_LIMIT]`
/// on either axis through movement.
pub const POS_LIMIT: i64 = 1_000_000_000_000;

/// Bound on the coordinates of a rectangle handed to a collision query.
pub const COORD_LIMIT: i64 = 2_000_000_000_000;

/// Sub-pixel units (micro-pixels) per pixel.
pub const SUBPX: i64 = 1_000_000;

/// Half a pixel in sub-pixel units.
pub const HALF_PX: i64 = 500_000;

/// Largest displacement, in sub-pixel units, that one move accepts.
pub const MAX_DELTA: i64 = 10_000_000_000_000;

/// Player size in pixels.
pub const PLAYER_W: i64 = 12;
pub const PLAYER_H: i64 = 14;

/// Enemy size in pixels.
pub const ENEMY_W: i64 = 12;
pub const ENEMY_H: i64 = 14;

/// Top-left corner of the player at the start of every run, in pixels.
pub const PLAYER_SPAWN_X: i64 = 32;
pub const PLAYER_SPAWN_Y: i64 = 32;

/// Downward acceleration, in milli-pixels per second per second.
pub const GRAVITY: i64 = 1_200_000;

/// Player run speed, in milli-pixels per second.
pub const MOVE_SPEED: i64 = 220_000;

/// Upward speed given by a jump, in milli-pixels per second.
pub const JUMP_SPEED: i64 = 420_000;

/// Upward speed given by a stomp: seven tenths of a jump.
pub const BOUNCE_SPEED: i64 = 294_000;

/// Enemy walk speed, in milli-pixels per second.
pub const ENEMY_SPEED: i64 = 80_000;

/// Speed bound on either axis, in milli-pixels per second; a fall does not
/// speed up past it.
pub const MAX_SPEED: i64 = 100_000_000;

/// Longest tick, in milliseconds, that callers may hand in.
pub const MAX_DT_MS: i64 = 60_000;

/// How far ahead, in pixels, an enemy probes for a wall or a ledge.
pub const PROBE_AHEAD: i64 = 6;

/// How far below its feet, in pixels, an enemy probes for ground ahead.
pub const PROBE_DROP: i64 = 2;

/// A player whose bottom edge is at most this many pixels below an enemy's
/// top edge, while falling, stomps it.
pub const STOMP_TOLERANCE: i64 = 6;

/// Every how many spawn points an enemy is placed.
pub const SPAWN_STEP: usize = 20;

/// Most enemies placed in one run.
pub const MAX_ENEMIES: usize = 6;

} // verus!
