//! Authoritative world-state core for a 2-D multiplayer survival game.
//!
//! The server's relational store is modeled here as plain tables (`Vec`s of
//! row structs) so that every mutation the game performs — moving, merging,
//! splitting and dropping item stacks, harvesting resource nodes, repairing
//! structures, tracking connections, placing spawns — is a verified function
//! over that state.  Positions are kept in whole pixels and timestamps in
//! microseconds, so all arithmetic is exact.
//!
//! The host process binds these functions to its transport and storage; the
//! randomness a few operations need (yield rolls, respawn windows, spawn
//! sampling) enters through one trusted wrapper around the `rand` crate.

use vstd::prelude::*;

pub mod errors;
pub mod items;
pub mod inventory;
pub mod structures;
pub mod player;
pub mod equipment;
pub mod campfire;
pub mod transfer;
pub mod repair;
pub mod resources;
pub mod rolls;
pub mod lifecycle;
pub mod spatial_grid;
pub mod laws;

verus! {

/// Width and height of one square world tile, in pixels.
pub const TILE_SIZE_PX: u32 = 48;
/// Player collision radius in pixels.
pub const PLAYER_RADIUS: u32 = 32;
/// World extent in tiles along each axis.
pub const WORLD_WIDTH_TILES: u32 = 500;
pub const WORLD_HEIGHT_TILES: u32 = 500;
/// World extent in pixels along each axis.
pub const WORLD_WIDTH_PX: u32 = WORLD_WIDTH_TILES * TILE_SIZE_PX;
pub const WORLD_HEIGHT_PX: u32 = WORLD_HEIGHT_TILES * TILE_SIZE_PX;

/// Base walking speed, pixels per second.
pub const PLAYER_SPEED_PX_PER_SEC: u32 = 600;
/// Sprinting speed as a percentage of the base speed.
pub const SPRINT_SPEED_PERCENT: u32 = 160;
/// Speed while on water as a percentage of the base speed.
pub const WATER_SPEED_PERCENT: u32 = 50;

/// How long a jump keeps the player airborne, in milliseconds.
pub const JUMP_DURATION_MS: u64 = 500;

/// The collision radius of a crouching player is half the standing radius.
///
/// Returns the effective radius in pixels for the given stance.
pub fn get_effective_player_radius(is_crouching: bool) -> (r: u32)
    ensures
        is_crouching ==> r == PLAYER_RADIUS / 2,
        !is_crouching ==> r == PLAYER_RADIUS,
{
    if is_crouching {
        PLAYER_RADIUS / 2
    } else {
        PLAYER_RADIUS
    }
}

/// Converts a world position in pixels to the coordinates of the tile
/// containing it.
pub fn world_pos_to_tile_coords(world_x: u32, world_y: u32) -> (r: (u32, u32))
    ensures
        r.0 == world_x / TILE_SIZE_PX,
        r.1 == world_y / TILE_SIZE_PX,
{
    (world_x / TILE_SIZE_PX, world_y / TILE_SIZE_PX)
}

/// Whether a player who started a jump at `jump_start_time_ms` is still in
/// the air at `current_time_ms`.  A start time of zero means no jump is in
/// progress.
pub fn is_player_jumping(jump_start_time_ms: u64, current_time_ms: u64) -> (r: bool)
    ensures
        r <==> (jump_start_time_ms != 0 && current_time_ms >= jump_start_time_ms
            && current_time_ms - jump_start_time_ms < JUMP_DURATION_MS)
            || (jump_start_time_ms != 0 && current_time_ms < jump_start_time_ms),
{
    if jump_start_time_ms == 0 {
        return false;
    }
    let elapsed_ms: u64 = if current_time_ms >= jump_start_time_ms {
        current_time_ms - jump_start_time_ms
    } else {
        0
    };
    elapsed_ms < JUMP_DURATION_MS
}

} // verus!
