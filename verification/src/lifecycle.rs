//! Connection lifecycle, registration and spawn placement.
//!
//! Connection state guards against the stale-disconnect race: a
//! disconnect only clears state when its connection id still matches the
//! live one, so a fast reconnect is never knocked offline by a late
//! disconnect.  A new player spawns on a coastal beach tile in the
//! southern half of the world, sampled with a bounded number of
//! collision-checked attempts and forced on the last sample after that.

use vstd::prelude::*;

use crate::errors::ErrorCode;
use crate::player::{
    Player, players_wf, has_player, player_index, find_player_index, username_taken,
    PLAYER_INITIAL_HEALTH, PLAYER_INITIAL_STAMINA, PLAYER_INITIAL_THIRST, PLAYER_INITIAL_HUNGER,
    PLAYER_INITIAL_WARMTH,
};
use crate::resources::{Tree, Stone, dist_sq};
use crate::items::ItemCatalog;
use crate::inventory::{ItemStore, player_qty_sum, add_item_to_player_inventory};
use crate::structures::{Campfire, WoodenStorageBox};
use crate::rolls::roll_inclusive;
use crate::{TILE_SIZE_PX, WORLD_WIDTH_TILES, WORLD_HEIGHT_TILES};

verus! {

/// Cooldown of the self-kill command, in seconds.
pub const KILL_COMMAND_COOLDOWN_SECONDS: u64 = 300;

/// How many sampled beach tiles a spawn tries before forcing the last.
pub const MAX_SPAWN_ATTEMPTS: u32 = 50;

/// Squared spacing required between a fresh spawn and a living player.
pub const SPAWN_PLAYER_DISTANCE_SQ: u64 = 2048;
/// Squared player collision ranges per entity class, and the vertical
/// offsets of their collision centers.
pub const PLAYER_TREE_COLLISION_DISTANCE_SQUARED: u64 = 3600;
pub const PLAYER_STONE_COLLISION_DISTANCE_SQUARED: u64 = 3025;
pub const PLAYER_CAMPFIRE_COLLISION_DISTANCE_SQUARED: u64 = 2916;
pub const PLAYER_BOX_COLLISION_DISTANCE_SQUARED: u64 = 2500;
pub const TREE_COLLISION_Y_OFFSET: u32 = 20;
pub const STONE_COLLISION_Y_OFFSET: u32 = 10;
pub const CAMPFIRE_COLLISION_Y_OFFSET: u32 = 10;
pub const BOX_COLLISION_Y_OFFSET: u32 = 10;

/// When the player last used the self-kill command.
#[derive(Clone, Copy, Debug, PartialEq, Eq, Structural)]
pub struct PlayerKillCommandCooldown {
    pub player_id: u64,
    pub last_kill_command_at: u64,
}

/// A private system message to one player.
#[derive(Debug)]
pub struct PrivateMessage {
    pub id: u64,
    pub recipient_identity: u64,
    pub sender_display_name: String,
    pub text: String,
    pub sent: u64,
}

/// When the player last swung, for rate-limiting attacks.
#[derive(Clone, Copy, Debug, PartialEq, Eq, Structural)]
pub struct PlayerLastAttackTimestamp {
    pub player_id: u64,
    pub last_attack_timestamp: u64,
}

/// The live connection of an identity.
#[derive(Clone, Copy, Debug, PartialEq, Eq, Structural)]
pub struct ActiveConnection {
    pub identity: u64,
    pub connection_id: u64,
    pub timestamp: u64,
}

/// The world-space rectangle a client currently watches.
#[derive(Clone, Copy, Debug, PartialEq, Eq, Structural)]
pub struct ClientViewport {
    pub client_identity: u64,
    pub min_x: i32,
    pub min_y: i32,
    pub max_x: i32,
    pub max_y: i32,
    pub last_update: u64,
}

/// Terrain class of one world tile.
#[derive(Clone, Copy, Debug, PartialEq, Eq, Hash, Structural)]
pub enum TileType {
    Grass,
    Dirt,
    DirtRoad,
    Sea,
    Beach,
    Sand,
}

/// Tuning knobs of terrain generation; frequencies in percent.
#[derive(Clone, Copy, Debug, PartialEq, Eq, Structural)]
pub struct WorldGenConfig {
    pub seed: u64,
    pub world_width_tiles: u32,
    pub world_height_tiles: u32,
    pub chunk_size: u32,
    pub island_border_width: u32,
    pub beach_width: u32,
    pub river_frequency_percent: u32,
    pub dirt_patch_frequency_percent: u32,
    pub road_density_percent: u32,
}

/// One terrain tile of the world grid.
#[derive(Debug)]
pub struct WorldTile {
    pub id: u64,
    pub chunk_x: i32,
    pub chunk_y: i32,
    pub tile_x: i32,
    pub tile_y: i32,
    pub world_x: i32,
    pub world_y: i32,
    pub tile_type: TileType,
    pub variant: u8,
    pub biome_data: Option<String>,
}

impl Clone for WorldTile {
    /// A clone keeps every field, so contracts can speak of the copy.
    fn clone(&self) -> (r: Self)
        ensures
            r == *self,
    {
        WorldTile {
            id: self.id,
            chunk_x: self.chunk_x,
            chunk_y: self.chunk_y,
            tile_x: self.tile_x,
            tile_y: self.tile_y,
            world_x: self.world_x,
            world_y: self.world_y,
            tile_type: self.tile_type,
            variant: self.variant,
            biome_data: match &self.biome_data {
                Some(s) => Some(s.clone()),
                None => None,
            },
        }
    }
}

/// The cached minimap rendering of the generated world.
#[derive(Debug)]
pub struct MinimapCache {
    pub id: u64,
    pub width: u32,
    pub height: u32,
    pub data: Vec<u8>,
    pub generated_at: u64,
}

/// Tile coordinates are unique keys and lie inside the world grid.
pub open spec fn tiles_wf(s: Seq<WorldTile>) -> bool {
    &&& forall|i: int, j: int|
        0 <= i < j < s.len() ==> !((#[trigger] s[i]).world_x == (#[trigger] s[j]).world_x
            && s[i].world_y == s[j].world_y)
    &&& forall|i: int|
        0 <= i < s.len() ==> 0 <= (#[trigger] s[i]).world_x < WORLD_WIDTH_TILES && 0
            <= s[i].world_y < WORLD_HEIGHT_TILES
}

/// Whether some tile sits at these world coordinates.
pub open spec fn has_tile(s: Seq<WorldTile>, x: int, y: int) -> bool {
    exists|i: int| 0 <= i < s.len() && (#[trigger] s[i]).world_x == x && s[i].world_y == y
}

/// The index of the tile at these world coordinates.
pub open spec fn tile_index(s: Seq<WorldTile>, x: int, y: int) -> int {
    choose|i: int| 0 <= i < s.len() && (#[trigger] s[i]).world_x == x && s[i].world_y == y
}

/// Finds the index of the tile at these world coordinates.
pub fn find_tile_index(tiles: &Vec<WorldTile>, x: i64, y: i64) -> (r: Option<usize>)
    requires
        tiles_wf(tiles@),
    ensures
        r is Some <==> has_tile(tiles@, x as int, y as int),
        r is Some ==> r->Some_0 < tiles@.len() && tiles@[r->Some_0 as int].world_x == x
            && tiles@[r->Some_0 as int].world_y == y,
{
    let n: usize = tiles.len();
    let mut i: usize = 0;
    while i < n
        invariant
            n == tiles@.len(),
            i <= n,
            forall|k: int|
                0 <= k < i ==> !((#[trigger] tiles@[k]).world_x == x && tiles@[k].world_y == y),
        decreases n - i,
    {
        if tiles[i].world_x as i64 == x && tiles[i].world_y as i64 == y {
            return Some(i);
        }
        i = i + 1;
    }
    None
}

/// Whether a world position lies on a sea tile; positions off the tile
/// grid count as land.
pub fn is_player_on_water(tiles: &Vec<WorldTile>, player_x: u32, player_y: u32) -> (r: bool)
    requires
        tiles_wf(tiles@),
    ensures
        r <==> has_tile(
            tiles@,
            (player_x / TILE_SIZE_PX) as int,
            (player_y / TILE_SIZE_PX) as int,
        ) && tiles@[tile_index(
            tiles@,
            (player_x / TILE_SIZE_PX) as int,
            (player_y / TILE_SIZE_PX) as int,
        )].tile_type == TileType::Sea,
{
    let (tx, ty): (u32, u32) = crate::world_pos_to_tile_coords(player_x, player_y);
    match find_tile_index(tiles, tx as i64, ty as i64) {
        Some(i) => {
            proof {
                let j = tile_index(tiles@, tx as int, ty as int);
                if j != i as int {
                    assert(tiles@[j].world_x == tx as int && tiles@[j].world_y == ty as int);
                    assert(false);
                }
            }
            matches!(tiles[i].tile_type, TileType::Sea)
        },
        None => false,
    }
}

/// Connection identities are unique keys.
pub open spec fn conns_wf(s: Seq<ActiveConnection>) -> bool {
    forall|i: int, j: int|
        0 <= i < j < s.len() ==> (#[trigger] s[i]).identity != (#[trigger] s[j]).identity
}

/// Whether a connection row for this identity exists.
pub open spec fn has_conn(s: Seq<ActiveConnection>, identity: u64) -> bool {
    exists|i: int| 0 <= i < s.len() && (#[trigger] s[i]).identity == identity
}

/// The index of the connection row for this identity.
pub open spec fn conn_index(s: Seq<ActiveConnection>, identity: u64) -> int {
    choose|i: int| 0 <= i < s.len() && (#[trigger] s[i]).identity == identity
}

/// Finds the index of the connection row for this identity.
pub fn find_conn_index(conns: &Vec<ActiveConnection>, identity: u64) -> (r: Option<usize>)
    requires
        conns_wf(conns@),
    ensures
        r is Some <==> has_conn(conns@, identity),
        r is Some ==> r->Some_0 < conns@.len() && r->Some_0 == conn_index(conns@, identity)
            && conns@[r->Some_0 as int].identity == identity,
{
    let n: usize = conns.len();
    let mut i: usize = 0;
    while i < n
        invariant
            n == conns@.len(),
            i <= n,
            conns_wf(conns@),
            forall|k: int| 0 <= k < i ==> (#[trigger] conns@[k]).identity != identity,
        decreases n - i,
    {
        if conns[i].identity == identity {
            proof {
                let j = conn_index(conns@, identity);
                if j != i as int {
                    assert(conns@[j].identity == identity);
                    assert(false);
                }
            }
            return Some(i);
        }
        i = i + 1;
    }
    None
}

/// Inserts or replaces the connection row of an identity.
pub fn upsert_connection(
    conns: &mut Vec<ActiveConnection>,
    identity: u64,
    connection_id: u64,
    now: u64,
)
    requires
        conns_wf(old(conns)@),
    ensures
        conns_wf(final(conns)@),
        has_conn(final(conns)@, identity),
        final(conns)@[conn_index(final(conns)@, identity)] == (ActiveConnection {
            identity,
            connection_id,
            timestamp: now,
        }),
        forall|k: int|
            0 <= k < old(conns)@.len() && (#[trigger] old(conns)@[k]).identity != identity
                ==> final(conns)@.contains(old(conns)@[k]),
        !has_conn(old(conns)@, identity) ==> final(conns)@ == old(conns)@.push(
            (ActiveConnection { identity, connection_id, timestamp: now }),
        ),
        has_conn(old(conns)@, identity) ==> final(conns)@ == old(conns)@.update(
            conn_index(old(conns)@, identity),
            (ActiveConnection { identity, connection_id, timestamp: now }),
        ),
{
    let row = ActiveConnection { identity, connection_id, timestamp: now };
    match find_conn_index(conns, identity) {
        Some(i) => {
            let ghost pre = conns@;
            conns[i] = row;
            proof {
                assert forall|p: int, q: int|
                    0 <= p < q < conns@.len() implies (#[trigger] conns@[p]).identity != (
                #[trigger] conns@[q]).identity by {
                    assert(pre[p].identity != pre[q].identity);
                }
                let j = conn_index(conns@, identity);
                if j != i as int {
                    assert(conns@[j].identity == identity);
                    assert(false);
                }
                assert forall|k: int|
                    0 <= k < pre.len() && (#[trigger] pre[k]).identity != identity implies conns@
                    .contains(pre[k]) by {
                    assert(conns@[k] == pre[k]);
                }
            }
        },
        None => {
            let ghost pre = conns@;
            conns.push(row);
            proof {
                assert forall|p: int, q: int|
                    0 <= p < q < conns@.len() implies (#[trigger] conns@[p]).identity != (
                #[trigger] conns@[q]).identity by {
                    if q == conns@.len() - 1 {
                        if pre[p].identity == identity {
                            assert(has_conn(pre, identity));
                        }
                    } else {
                        assert(pre[p].identity != pre[q].identity);
                    }
                }
                assert(conns@[conns@.len() - 1].identity == identity);
                let j = conn_index(conns@, identity);
                if j != conns@.len() - 1 {
                    assert(conns@[j].identity == identity);
                    if pre[j].identity == identity {
                        assert(has_conn(pre, identity));
                    }
                    assert(false);
                }
                assert forall|k: int|
                    0 <= k < pre.len() && (#[trigger] pre[k]).identity != identity implies conns@
                    .contains(pre[k]) by {
                    assert(conns@[k] == pre[k]);
                }
            }
        },
    }
}

/// Handles a client connecting: the identity's connection row is
/// inserted or replaced with the new connection, and its player row, if
/// registered, is marked online.  A connect without a connection id is an
/// internal error and changes nothing.
pub fn identity_connected(
    players: &mut Vec<Player>,
    conns: &mut Vec<ActiveConnection>,
    sender: u64,
    connection_id: Option<u64>,
    now: u64,
) -> (r: Result<(), ErrorCode>)
    requires
        players_wf(old(players)@),
        conns_wf(old(conns)@),
    ensures
        players_wf(final(players)@),
        conns_wf(final(conns)@),
        r is Err <==> connection_id is None,
        r is Err ==> r->Err_0 == ErrorCode::Internal && *final(players) == *old(players)
            && *final(conns) == *old(conns),
        r is Ok ==> {
            &&& has_conn(final(conns)@, sender)
            &&& final(conns)@[conn_index(final(conns)@, sender)] == (ActiveConnection {
                identity: sender,
                connection_id: connection_id->Some_0,
                timestamp: now,
            })
            &&& forall|k: int|
                0 <= k < old(conns)@.len() && (#[trigger] old(conns)@[k]).identity != sender
                    ==> final(conns)@.contains(old(conns)@[k])
            &&& final(players)@.len() == old(players)@.len()
            &&& forall|k: int|
                0 <= k < old(players)@.len() && (#[trigger] old(players)@[k]).identity != sender
                    ==> final(players)@[k] == old(players)@[k]
            &&& has_player(old(players)@, sender) ==> final(players)@[player_index(
                old(players)@,
                sender,
            )] == (Player { is_online: true, ..old(players)@[player_index(old(players)@, sender)] })
        },
{
    let cid: u64 = match connection_id {
        None => { return Err(ErrorCode::Internal); },
        Some(c) => c,
    };
    upsert_connection(conns, sender, cid, now);
    match find_player_index(players, sender) {
        Some(i) => {
            let ghost pre = players@;
            let mut p = players[i].clone();
            p.is_online = true;
            players[i] = p;
            proof {
                assert forall|a: int, b: int|
                    0 <= a < b < players@.len() implies (#[trigger] players@[a]).identity != (
                #[trigger] players@[b]).identity by {
                    assert(pre[a].identity != pre[b].identity);
                }
                assert forall|a: int, b: int|
                    0 <= a < b < players@.len() implies (#[trigger] players@[a]).username@ != (
                #[trigger] players@[b]).username@ by {
                    assert(pre[a].username@ != pre[b].username@);
                }
            }
        },
        None => {},
    }
    Ok(())
}

/// Handles a client disconnecting: state is cleared only when the
/// disconnecting connection id still matches the identity's live
/// connection row; a stale disconnect after a fast reconnect changes
/// nothing, and neither does one without a connection id.
pub fn identity_disconnected(
    players: &mut Vec<Player>,
    conns: &mut Vec<ActiveConnection>,
    sender: u64,
    connection_id: Option<u64>,
)
    requires
        players_wf(old(players)@),
        conns_wf(old(conns)@),
    ensures
        players_wf(final(players)@),
        conns_wf(final(conns)@),
        connection_id is None ==> *final(players) == *old(players) && *final(conns) == *old(conns),
        connection_id is Some && !(has_conn(old(conns)@, sender) && old(conns)@[conn_index(
            old(conns)@,
            sender,
        )].connection_id == connection_id->Some_0) ==> *final(players) == *old(players)
            && *final(conns) == *old(conns),
        connection_id is Some && has_conn(old(conns)@, sender) && old(conns)@[conn_index(
            old(conns)@,
            sender,
        )].connection_id == connection_id->Some_0 ==> {
            &&& final(conns)@ == old(conns)@.remove(conn_index(old(conns)@, sender))
            &&& final(players)@.len() == old(players)@.len()
            &&& forall|k: int|
                0 <= k < old(players)@.len() && (#[trigger] old(players)@[k]).identity != sender
                    ==> final(players)@[k] == old(players)@[k]
            &&& has_player(old(players)@, sender) ==> final(players)@[player_index(
                old(players)@,
                sender,
            )] == (Player {
                is_online: false,
                ..old(players)@[player_index(old(players)@, sender)]
            })
        },
{
    let cid: u64 = match connection_id {
        None => { return ; },
        Some(c) => c,
    };
    let i: usize = match find_conn_index(conns, sender) {
        None => { return ; },
        Some(i) => i,
    };
    if conns[i].connection_id != cid {
        // The client already reconnected: the live connection is newer
        // than the one going away, so nothing may change.
        return ;
    }
    let ghost pre_conns = conns@;
    conns.remove(i);
    proof {
        assert forall|p: int, q: int|
            0 <= p < q < conns@.len() implies (#[trigger] conns@[p]).identity != (
        #[trigger] conns@[q]).identity by {
            let p0 = if p < i as int {
                p
            } else {
                p + 1
            };
            let q0 = if q < i as int {
                q
            } else {
                q + 1
            };
            assert(conns@[p] == pre_conns[p0]);
            assert(conns@[q] == pre_conns[q0]);
        }
    }
    match find_player_index(players, sender) {
        Some(pi) => {
            let ghost pre = players@;
            let mut p = players[pi].clone();
            p.is_online = false;
            players[pi] = p;
            proof {
                assert forall|a: int, b: int|
                    0 <= a < b < players@.len() implies (#[trigger] players@[a]).identity != (
                #[trigger] players@[b]).identity by {
                    assert(pre[a].identity != pre[b].identity);
                }
                assert forall|a: int, b: int|
                    0 <= a < b < players@.len() implies (#[trigger] players@[a]).username@ != (
                #[trigger] players@[b]).username@ by {
                    assert(pre[a].username@ != pre[b].username@);
                }
            }
        },
        None => {},
    }
}

/// Whether a map position is open water for coastal purposes: off the
/// map, or a sea tile.
pub open spec fn spec_tile_open_to_sea(tiles: Seq<WorldTile>, x: int, y: int) -> bool {
    !has_tile(tiles, x, y) || tiles[tile_index(tiles, x, y)].tile_type == TileType::Sea
}

/// Whether a map position is open water for coastal purposes.
pub fn tile_open_to_sea(tiles: &Vec<WorldTile>, x: i64, y: i64) -> (r: bool)
    requires
        tiles_wf(tiles@),
    ensures
        r == spec_tile_open_to_sea(tiles@, x as int, y as int),
{
    match find_tile_index(tiles, x, y) {
        None => true,
        Some(i) => {
            proof {
                let j = tile_index(tiles@, x as int, y as int);
                if j != i as int {
                    assert(tiles@[j].world_x == x as int && tiles@[j].world_y == y as int);
                    assert(false);
                }
            }
            matches!(tiles[i].tile_type, TileType::Sea)
        },
    }
}

/// Whether the tile at index `t` can host an initial spawn: a beach tile
/// in the southern half of the map whose 8-neighborhood touches sea or
/// the map edge.
pub open spec fn spec_is_coastal_spawn_tile(tiles: Seq<WorldTile>, t: int) -> bool {
    &&& 0 <= t < tiles.len()
    &&& tiles[t].tile_type == TileType::Beach
    &&& tiles[t].world_y >= WORLD_HEIGHT_TILES / 2
    &&& exists|dx: int, dy: int|
        -1 <= dx <= 1 && -1 <= dy <= 1 && !(dx == 0 && dy == 0) && #[trigger] spec_tile_open_to_sea(
            tiles,
            tiles[t].world_x + dx,
            tiles[t].world_y + dy,
        )
}

/// Whether the tile at index `t` can host an initial spawn.
pub fn is_coastal_spawn_tile(tiles: &Vec<WorldTile>, t: usize) -> (r: bool)
    requires
        tiles_wf(tiles@),
        t < tiles@.len(),
    ensures
        r == spec_is_coastal_spawn_tile(tiles@, t as int),
{
    let tile = &tiles[t];
    if !matches!(tile.tile_type, TileType::Beach) {
        return false;
    }
    if tile.world_y < (WORLD_HEIGHT_TILES / 2) as i32 {
        return false;
    }
    let wx: i64 = tile.world_x as i64;
    let wy: i64 = tile.world_y as i64;
    let o1: bool = tile_open_to_sea(tiles, wx - 1, wy - 1);
    let o2: bool = tile_open_to_sea(tiles, wx, wy - 1);
    let o3: bool = tile_open_to_sea(tiles, wx + 1, wy - 1);
    let o4: bool = tile_open_to_sea(tiles, wx - 1, wy);
    let o5: bool = tile_open_to_sea(tiles, wx + 1, wy);
    let o6: bool = tile_open_to_sea(tiles, wx - 1, wy + 1);
    let o7: bool = tile_open_to_sea(tiles, wx, wy + 1);
    let o8: bool = tile_open_to_sea(tiles, wx + 1, wy + 1);
    let open: bool = o1 || o2 || o3 || o4 || o5 || o6 || o7 || o8;
    proof {
        let ghost gx = tiles@[t as int].world_x as int;
        let ghost gy = tiles@[t as int].world_y as int;
        if open {
            if o1 {
                assert(spec_tile_open_to_sea(tiles@, gx + (-1), gy + (-1)));
            } else if o2 {
                assert(spec_tile_open_to_sea(tiles@, gx + 0, gy + (-1)));
            } else if o3 {
                assert(spec_tile_open_to_sea(tiles@, gx + 1, gy + (-1)));
            } else if o4 {
                assert(spec_tile_open_to_sea(tiles@, gx + (-1), gy + 0));
            } else if o5 {
                assert(spec_tile_open_to_sea(tiles@, gx + 1, gy + 0));
            } else if o6 {
                assert(spec_tile_open_to_sea(tiles@, gx + (-1), gy + 1));
            } else if o7 {
                assert(spec_tile_open_to_sea(tiles@, gx + 0, gy + 1));
            } else {
                assert(spec_tile_open_to_sea(tiles@, gx + 1, gy + 1));
            }
            assert(spec_is_coastal_spawn_tile(tiles@, t as int));
        } else {
            if spec_is_coastal_spawn_tile(tiles@, t as int) {
                let (dx, dy): (int, int) = choose|dx: int, dy: int|
                    -1 <= dx <= 1 && -1 <= dy <= 1 && !(dx == 0 && dy == 0)
                        && #[trigger] spec_tile_open_to_sea(
                        tiles@,
                        tiles@[t as int].world_x + dx,
                        tiles@[t as int].world_y + dy,
                    );
                assert(false);
            }
        }
    }
    open
}

/// The vertical collision center of an entity anchored at `pos_y`,
/// clamped at the world's top edge.
pub open spec fn spec_collision_center_y(pos_y: u32, offset: u32) -> u32 {
    if pos_y >= offset {
        (pos_y - offset) as u32
    } else {
        0u32
    }
}

/// Whether a fresh spawn at this position collides with a living player,
/// a living tree or stone, a campfire or a storage box, at the relaxed
/// spawn radii (80 percent of the squared collision ranges; double the
/// squared player radius for player spacing).
pub open spec fn spec_spawn_blocked(
    players: Seq<Player>,
    trees: Seq<Tree>,
    stones: Seq<Stone>,
    campfires: Seq<Campfire>,
    boxes: Seq<WoodenStorageBox>,
    x: u32,
    y: u32,
) -> bool {
    ||| exists|k: int|
        0 <= k < players.len() && !(#[trigger] players[k]).is_dead && crate::resources::spec_dist_sq(
            x,
            y,
            players[k].position_x,
            players[k].position_y,
        ) < SPAWN_PLAYER_DISTANCE_SQ
    ||| exists|k: int|
        0 <= k < trees.len() && (#[trigger] trees[k]).health > 0 && crate::resources::spec_dist_sq(
            x,
            y,
            trees[k].pos_x,
            spec_collision_center_y(trees[k].pos_y, TREE_COLLISION_Y_OFFSET),
        ) < PLAYER_TREE_COLLISION_DISTANCE_SQUARED * 8 / 10
    ||| exists|k: int|
        0 <= k < stones.len() && (#[trigger] stones[k]).health > 0
            && crate::resources::spec_dist_sq(
            x,
            y,
            stones[k].pos_x,
            spec_collision_center_y(stones[k].pos_y, STONE_COLLISION_Y_OFFSET),
        ) < PLAYER_STONE_COLLISION_DISTANCE_SQUARED * 8 / 10
    ||| exists|k: int|
        0 <= k < campfires.len() && crate::resources::spec_dist_sq(
            x,
            y,
            (#[trigger] campfires[k]).pos_x,
            spec_collision_center_y(campfires[k].pos_y, CAMPFIRE_COLLISION_Y_OFFSET),
        ) < PLAYER_CAMPFIRE_COLLISION_DISTANCE_SQUARED * 8 / 10
    ||| exists|k: int|
        0 <= k < boxes.len() && crate::resources::spec_dist_sq(
            x,
            y,
            (#[trigger] boxes[k]).pos_x,
            spec_collision_center_y(boxes[k].pos_y, BOX_COLLISION_Y_OFFSET),
        ) < PLAYER_BOX_COLLISION_DISTANCE_SQUARED * 8 / 10
}

/// Whether a fresh spawn at this position collides with a living player,
/// a living tree or stone, a campfire or a storage box, at the relaxed
/// spawn radii, as [`spec_spawn_blocked`] lays down.
fn spawn_blocked(
    players: &Vec<Player>,
    trees: &Vec<Tree>,
    stones: &Vec<Stone>,
    campfires: &Vec<Campfire>,
    boxes: &Vec<WoodenStorageBox>,
    x: u32,
    y: u32,
) -> (r: bool)
    ensures
        r == spec_spawn_blocked(players@, trees@, stones@, campfires@, boxes@, x, y),
{
    let mut i: usize = 0;
    while i < players.len()
        invariant
            forall|k: int|
                0 <= k < i ==> !(!(#[trigger] players@[k]).is_dead
                    && crate::resources::spec_dist_sq(
                    x,
                    y,
                    players@[k].position_x,
                    players@[k].position_y,
                ) < SPAWN_PLAYER_DISTANCE_SQ),
        decreases players.len() - i,
    {
        let p = &players[i];
        if !p.is_dead {
            if dist_sq(x, y, p.position_x, p.position_y) < SPAWN_PLAYER_DISTANCE_SQ as u128 {
                return true;
            }
        }
        i = i + 1;
    }
    let mut i2: usize = 0;
    while i2 < trees.len()
        invariant
            forall|k: int|
                0 <= k < i2 ==> !((#[trigger] trees@[k]).health > 0
                    && crate::resources::spec_dist_sq(
                    x,
                    y,
                    trees@[k].pos_x,
                    spec_collision_center_y(trees@[k].pos_y, TREE_COLLISION_Y_OFFSET),
                ) < PLAYER_TREE_COLLISION_DISTANCE_SQUARED * 8 / 10),
        decreases trees.len() - i2,
    {
        let tr = &trees[i2];
        if tr.health > 0 {
            let cy: u32 = if tr.pos_y >= TREE_COLLISION_Y_OFFSET {
                tr.pos_y - TREE_COLLISION_Y_OFFSET
            } else {
                0
            };
            if dist_sq(x, y, tr.pos_x, cy) < (PLAYER_TREE_COLLISION_DISTANCE_SQUARED * 8 / 10) as u128 {
                return true;
            }
        }
        i2 = i2 + 1;
    }
    let mut i3: usize = 0;
    while i3 < stones.len()
        invariant
            forall|k: int|
                0 <= k < i3 ==> !((#[trigger] stones@[k]).health > 0
                    && crate::resources::spec_dist_sq(
                    x,
                    y,
                    stones@[k].pos_x,
                    spec_collision_center_y(stones@[k].pos_y, STONE_COLLISION_Y_OFFSET),
                ) < PLAYER_STONE_COLLISION_DISTANCE_SQUARED * 8 / 10),
        decreases stones.len() - i3,
    {
        let st = &stones[i3];
        if st.health > 0 {
            let cy: u32 = if st.pos_y >= STONE_COLLISION_Y_OFFSET {
                st.pos_y - STONE_COLLISION_Y_OFFSET
            } else {
                0
            };
            if dist_sq(x, y, st.pos_x, cy) < (PLAYER_STONE_COLLISION_DISTANCE_SQUARED * 8 / 10) as u128 {
                return true;
            }
        }
        i3 = i3 + 1;
    }
    let mut i4: usize = 0;
    while i4 < campfires.len()
        invariant
            forall|k: int|
                0 <= k < i4 ==> !(crate::resources::spec_dist_sq(
                    x,
                    y,
                    (#[trigger] campfires@[k]).pos_x,
                    spec_collision_center_y(campfires@[k].pos_y, CAMPFIRE_COLLISION_Y_OFFSET),
                ) < PLAYER_CAMPFIRE_COLLISION_DISTANCE_SQUARED * 8 / 10),
        decreases campfires.len() - i4,
    {
        let c = &campfires[i4];
        let cy: u32 = if c.pos_y >= CAMPFIRE_COLLISION_Y_OFFSET {
            c.pos_y - CAMPFIRE_COLLISION_Y_OFFSET
        } else {
            0
        };
        if dist_sq(x, y, c.pos_x, cy) < (PLAYER_CAMPFIRE_COLLISION_DISTANCE_SQUARED * 8 / 10) as u128 {
            return true;
        }
        i4 = i4 + 1;
    }
    let mut i5: usize = 0;
    while i5 < boxes.len()
        invariant
            forall|k: int|
                0 <= k < i5 ==> !(crate::resources::spec_dist_sq(
                    x,
                    y,
                    (#[trigger] boxes@[k]).pos_x,
                    spec_collision_center_y(boxes@[k].pos_y, BOX_COLLISION_Y_OFFSET),
                ) < PLAYER_BOX_COLLISION_DISTANCE_SQUARED * 8 / 10),
        decreases boxes.len() - i5,
    {
        let b = &boxes[i5];
        let cy: u32 = if b.pos_y >= BOX_COLLISION_Y_OFFSET {
            b.pos_y - BOX_COLLISION_Y_OFFSET
        } else {
            0
        };
        if dist_sq(x, y, b.pos_x, cy) < (PLAYER_BOX_COLLISION_DISTANCE_SQUARED * 8 / 10) as u128 {
            return true;
        }
        i5 = i5 + 1;
    }
    false
}

/// Total quantity a starting-grant list hands out, for id headroom.
pub open spec fn spec_grant_total(s: Seq<(u64, u32)>) -> int
    decreases s.len(),
{
    if s.len() == 0 {
        0
    } else {
        s[0].1 + spec_grant_total(s.subrange(1, s.len() as int))
    }
}

/// The grant total splits at any index: head quantity plus tail total.
proof fn lemma_grant_total_head(s: Seq<(u64, u32)>, i: int)
    requires
        0 <= i < s.len(),
    ensures
        spec_grant_total(s.subrange(i, s.len() as int)) == s[i].1 + spec_grant_total(
            s.subrange(i + 1, s.len() as int),
        ),
        spec_grant_total(s.subrange(i + 1, s.len() as int)) >= 0,
{
    let suffix = s.subrange(i, s.len() as int);
    assert(suffix[0] == s[i]);
    assert(suffix.subrange(1, suffix.len() as int) =~= s.subrange(i + 1, s.len() as int));
    lemma_grant_total_nonneg(s.subrange(i + 1, s.len() as int));
}

/// A grant total is never negative.
proof fn lemma_grant_total_nonneg(s: Seq<(u64, u32)>)
    ensures
        spec_grant_total(s) >= 0,
    decreases s.len(),
{
    if s.len() > 0 {
        lemma_grant_total_nonneg(s.subrange(1, s.len() as int));
    }
}

/// Registers the sender, or refreshes an existing registration.
///
/// A known identity only gets its timestamps and connection row
/// refreshed.  A new identity must bring an unclaimed username, is
/// spawned at the pixel center of a coastal south-half beach tile,
/// sampled at most [`MAX_SPAWN_ATTEMPTS`] times against the relaxed
/// collision radii and forced on the last sample after that — so
/// registration fails only when the world has no coastal beach at all —
/// and then receives the configured starting items through the gather
/// path, tolerating a full inventory as the original grant does.
#[verifier::loop_isolation(false)]
pub fn register_player(
    players: &mut Vec<Player>,
    conns: &mut Vec<ActiveConnection>,
    store: &mut ItemStore,
    cat: &ItemCatalog,
    tiles: &Vec<WorldTile>,
    trees: &Vec<Tree>,
    stones: &Vec<Stone>,
    campfires: &Vec<Campfire>,
    boxes: &Vec<WoodenStorageBox>,
    starting_items: &Vec<(u64, u32)>,
    sender: u64,
    connection_id: Option<u64>,
    username: String,
    now: u64,
) -> (r: Result<(), ErrorCode>)
    requires
        players_wf(old(players)@),
        conns_wf(old(conns)@),
        tiles_wf(tiles@),
        old(store).wf(*cat),
        cat.wf(),
        old(store).next_instance_id + spec_grant_total(starting_items@) < u64::MAX,
    ensures
        players_wf(final(players)@),
        conns_wf(final(conns)@),
        final(store).wf(*cat),
        r is Err ==> *final(players) == *old(players) && *final(conns) == *old(conns),
        r is Err ==> final(store).items@ == old(store).items@ && final(store).next_instance_id
            == old(store).next_instance_id,
        connection_id is Some && has_player(old(players)@, sender) ==> final(store).items@ == old(
            store,
        ).items@ && final(store).next_instance_id == old(store).next_instance_id,
        forall|p: u64, d: u64|
            p != sender ==> #[trigger] player_qty_sum(final(store).items@, p, d) == player_qty_sum(
                old(store).items@,
                p,
                d,
            ),
        starting_items@.len() == 0 ==> final(store).items@ == old(store).items@,
        connection_id is Some && !has_player(old(players)@, sender) && !(exists|k: int|
            0 <= k < old(players)@.len() && (#[trigger] old(players)@[k]).username@ == username@)
            && (exists|t: int| #[trigger] spec_is_coastal_spawn_tile(tiles@, t)) ==> r is Ok,
        connection_id is None ==> r == Result::<(), ErrorCode>::Err(ErrorCode::Internal),
        connection_id is Some && has_player(old(players)@, sender) ==> r is Ok && final(players)@
            == old(players)@.update(
            player_index(old(players)@, sender),
            (Player {
                last_update: now,
                ..old(players)@[player_index(old(players)@, sender)]
            }),
        ),
        connection_id is Some && !has_player(old(players)@, sender) ==> {
            &&& (exists|k: int|
                0 <= k < old(players)@.len() && (#[trigger] old(players)@[k]).username@
                    == username@) ==> r == Result::<(), ErrorCode>::Err(ErrorCode::Occupied)
            &&& !(exists|k: int|
                0 <= k < old(players)@.len() && (#[trigger] old(players)@[k]).username@
                    == username@) && !(exists|t: int|
                #[trigger] spec_is_coastal_spawn_tile(tiles@, t)) ==> r == Result::<
                (),
                ErrorCode,
            >::Err(ErrorCode::Internal)
            &&& r is Ok ==> {
                &&& final(players)@.len() == old(players)@.len() + 1
                &&& forall|k: int|
                    0 <= k < old(players)@.len() ==> final(players)@[k] == old(players)@[k]
                &&& final(players)@.last().identity == sender
                &&& final(players)@.last().username == username
                &&& final(players)@.last().is_online
                &&& !final(players)@.last().is_dead
                &&& final(players)@.last().health == PLAYER_INITIAL_HEALTH
                &&& final(players)@.last().stamina == PLAYER_INITIAL_STAMINA
                &&& final(players)@.last().thirst == PLAYER_INITIAL_THIRST
                &&& final(players)@.last().hunger == PLAYER_INITIAL_HUNGER
                &&& final(players)@.last().warmth == PLAYER_INITIAL_WARMTH
                &&& final(players)@.last().direction@ == "down"@
                &&& final(players)@.last().last_update == now
                &&& final(players)@.last().last_stat_update == now
                &&& final(players)@.last().jump_start_time_ms == 0
                &&& !final(players)@.last().is_sprinting
                &&& !final(players)@.last().is_crouching
                &&& !final(players)@.last().is_knocked_out
                &&& !final(players)@.last().is_torch_lit
                &&& !final(players)@.last().is_on_water
                &&& final(players)@.last().death_timestamp is None
                &&& final(players)@.last().last_hit_time is None
                &&& final(players)@.last().last_consumed_at is None
                &&& final(players)@.last().knocked_out_at is None
                &&& exists|t: int|
                    #[trigger] spec_is_coastal_spawn_tile(tiles@, t)
                        && final(players)@.last().position_x == tiles@[t].world_x * TILE_SIZE_PX
                        + TILE_SIZE_PX / 2
                        && final(players)@.last().position_y == tiles@[t].world_y * TILE_SIZE_PX
                        + TILE_SIZE_PX / 2
            }
        },
        connection_id is Some && r is Ok ==> has_conn(final(conns)@, sender)
            && final(conns)@[conn_index(final(conns)@, sender)] == (ActiveConnection {
            identity: sender,
            connection_id: connection_id->Some_0,
            timestamp: now,
        }) && forall|k: int|
            0 <= k < old(conns)@.len() && (#[trigger] old(conns)@[k]).identity != sender
                ==> final(conns)@.contains(old(conns)@[k]),
{
    let cid: u64 = match connection_id {
        None => { return Err(ErrorCode::Internal); },
        Some(c) => c,
    };
    match find_player_index(players, sender) {
        Some(pi) => {
            // Known identity: refresh the timestamps and the connection.
            let ghost pre = players@;
            let mut p = players[pi].clone();
            p.last_update = now;
            players[pi] = p;
            proof {
                assert forall|a: int, b: int|
                    0 <= a < b < players@.len() implies (#[trigger] players@[a]).identity != (
                #[trigger] players@[b]).identity by {
                    assert(pre[a].identity != pre[b].identity);
                }
                assert forall|a: int, b: int|
                    0 <= a < b < players@.len() implies (#[trigger] players@[a]).username@ != (
                #[trigger] players@[b]).username@ by {
                    assert(pre[a].username@ != pre[b].username@);
                }
            }
            upsert_connection(conns, sender, cid, now);
            return Ok(());
        },
        None => {},
    }
    if username_taken(players, &username) {
        return Err(ErrorCode::Occupied);
    }

    // Enumerate the coastal south-half beach tiles the spawn may use.
    let mut coastal: Vec<usize> = Vec::new();
    let n: usize = tiles.len();
    let mut t: usize = 0;
    while t < n
        invariant
            t <= n,
            forall|k: int|
                0 <= k < coastal@.len() ==> spec_is_coastal_spawn_tile(
                    tiles@,
                    (#[trigger] coastal@[k]) as int,
                ) && coastal@[k] < n,
            forall|t2: int|
                0 <= t2 < t && #[trigger] spec_is_coastal_spawn_tile(tiles@, t2) ==> exists|k: int|
                    0 <= k < coastal@.len() && (#[trigger] coastal@[k]) as int == t2,
        decreases n - t,
    {
        if is_coastal_spawn_tile(tiles, t) {
            let ghost pre = coastal@;
            coastal.push(t);
            proof {
                assert(coastal@[coastal@.len() - 1] == t);
                assert forall|t2: int|
                    0 <= t2 < t + 1 && #[trigger] spec_is_coastal_spawn_tile(tiles@, t2)
                    implies exists|k: int|
                    0 <= k < coastal@.len() && (#[trigger] coastal@[k]) as int == t2 by {
                    if t2 < t {
                        let k0 = choose|k: int|
                            0 <= k < pre.len() && (#[trigger] pre[k]) as int == t2;
                        assert(coastal@[k0] as int == t2);
                    } else {
                        assert(coastal@[coastal@.len() - 1] as int == t2);
                    }
                }
            }
        }
        t = t + 1;
    }
    if coastal.len() == 0 {
        proof {
            if exists|t2: int| #[trigger] spec_is_coastal_spawn_tile(tiles@, t2) {
                let t2 = choose|t2: int| #[trigger] spec_is_coastal_spawn_tile(tiles@, t2);
                assert(0 <= t2 < n);
                assert(false);
            }
        }
        return Err(ErrorCode::Internal);
    }

    // Sample coastal tiles until one is free of collisions, forcing the
    // last sample after the attempt budget.
    let mut chosen: usize = coastal[0];
    let mut attempt: u32 = 0;
    let mut placed: bool = false;
    while attempt < MAX_SPAWN_ATTEMPTS && !placed
        invariant
            coastal@.len() > 0,
            spec_is_coastal_spawn_tile(tiles@, chosen as int),
            chosen < tiles@.len(),
        decreases MAX_SPAWN_ATTEMPTS - attempt, (if placed { 0int } else { 1int }),
    {
        let ri: usize = roll_inclusive(0, (coastal.len() - 1) as u64) as usize;
        chosen = coastal[ri];
        proof {
            assert(spec_is_coastal_spawn_tile(tiles@, coastal@[ri as int] as int));
        }
        let tile = &tiles[chosen];
        let sx: u32 = (tile.world_x as u32) * TILE_SIZE_PX + TILE_SIZE_PX / 2;
        let sy: u32 = (tile.world_y as u32) * TILE_SIZE_PX + TILE_SIZE_PX / 2;
        if !spawn_blocked(players, trees, stones, campfires, boxes, sx, sy) {
            placed = true;
        } else {
            attempt = attempt + 1;
        }
    }
    let spawn_tile = &tiles[chosen];
    let spawn_x: u32 = (spawn_tile.world_x as u32) * TILE_SIZE_PX + TILE_SIZE_PX / 2;
    let spawn_y: u32 = (spawn_tile.world_y as u32) * TILE_SIZE_PX + TILE_SIZE_PX / 2;

    let new_player = Player {
        identity: sender,
        username,
        position_x: spawn_x,
        position_y: spawn_y,
        direction: "down".to_owned(),
        last_update: now,
        last_stat_update: now,
        jump_start_time_ms: 0,
        health: PLAYER_INITIAL_HEALTH,
        stamina: PLAYER_INITIAL_STAMINA,
        thirst: PLAYER_INITIAL_THIRST,
        hunger: PLAYER_INITIAL_HUNGER,
        warmth: PLAYER_INITIAL_WARMTH,
        is_sprinting: false,
        is_dead: false,
        death_timestamp: None,
        last_hit_time: None,
        is_online: true,
        is_torch_lit: false,
        last_consumed_at: None,
        is_crouching: false,
        is_knocked_out: false,
        knocked_out_at: None,
        is_on_water: false,
    };
    let ghost pre = players@;
    players.push(new_player);
    proof {
        assert forall|a: int, b: int|
            0 <= a < b < players@.len() implies (#[trigger] players@[a]).identity != (
        #[trigger] players@[b]).identity by {
            if b == players@.len() - 1 {
                if pre[a].identity == sender {
                    assert(has_player(pre, sender));
                }
            } else {
                assert(pre[a].identity != pre[b].identity);
            }
        }
        assert forall|a: int, b: int|
            0 <= a < b < players@.len() implies (#[trigger] players@[a]).username@ != (
        #[trigger] players@[b]).username@ by {
            if b != players@.len() - 1 {
                assert(pre[a].username@ != pre[b].username@);
            }
        }
        assert(players@.last().position_x == tiles@[chosen as int].world_x * TILE_SIZE_PX
            + TILE_SIZE_PX / 2);
        assert(spec_is_coastal_spawn_tile(tiles@, chosen as int));
    }
    upsert_connection(conns, sender, cid, now);

    // Grant the configured starting items through the gather path; a full
    // inventory never fails the registration itself.
    let ghost store0 = *store;
    let gn: usize = starting_items.len();
    proof {
        assert(starting_items@.subrange(0, gn as int) =~= starting_items@);
    }
    let mut g: usize = 0;
    while g < gn
        invariant
            gn == starting_items@.len(),
            g <= gn,
            store.wf(*cat),
            store.next_instance_id + spec_grant_total(
                starting_items@.subrange(g as int, gn as int),
            ) < u64::MAX,
            forall|p: u64, d: u64|
                p != sender ==> #[trigger] player_qty_sum(store.items@, p, d) == player_qty_sum(
                    store0.items@,
                    p,
                    d,
                ),
            gn == 0 ==> store.items@ == store0.items@ && store.next_instance_id
                == store0.next_instance_id,
        decreases gn - g,
    {
        proof {
            lemma_grant_total_head(starting_items@, g as int);
        }
        let (def_id, qty): (u64, u32) = starting_items[g];
        match add_item_to_player_inventory(store, cat, sender, def_id, qty) {
            Ok(()) => {},
            Err(_) => {},
        }
        g = g + 1;
    }
    Ok(())
}

/// Records or replaces the viewport rectangle a client watches.
#[verifier::loop_isolation(false)]
pub fn update_viewport(
    viewports: &mut Vec<ClientViewport>,
    client: u64,
    min_x: i32,
    min_y: i32,
    max_x: i32,
    max_y: i32,
    now: u64,
) -> (r: Result<(), ErrorCode>)
    requires
        forall|i: int, j: int|
            0 <= i < j < old(viewports)@.len() ==> (#[trigger] old(viewports)@[i]).client_identity
                != (#[trigger] old(viewports)@[j]).client_identity,
    ensures
        r is Ok,
        forall|i: int, j: int|
            0 <= i < j < final(viewports)@.len() ==> (#[trigger] final(viewports)@[i]).client_identity
                != (#[trigger] final(viewports)@[j]).client_identity,
        exists|i: int|
            0 <= i < final(viewports)@.len() && #[trigger] final(viewports)@[i] == (ClientViewport {
                client_identity: client,
                min_x,
                min_y,
                max_x,
                max_y,
                last_update: now,
            }),
        forall|k: int|
            0 <= k < old(viewports)@.len() && (#[trigger] old(viewports)@[k]).client_identity
                != client ==> final(viewports)@.contains(old(viewports)@[k]),
{
    let row = ClientViewport { client_identity: client, min_x, min_y, max_x, max_y, last_update: now };
    let n: usize = viewports.len();
    let mut i: usize = 0;
    while i < n
        invariant
            n == viewports@.len(),
            i <= n,
            viewports@ == old(viewports)@,
            forall|k: int| 0 <= k < i ==> (#[trigger] viewports@[k]).client_identity != client,
        decreases n - i,
    {
        if viewports[i].client_identity == client {
            let ghost pre = viewports@;
            viewports[i] = row;
            proof {
                assert forall|a: int, b: int|
                    0 <= a < b < viewports@.len() implies (#[trigger] viewports@[a]).client_identity
                    != (#[trigger] viewports@[b]).client_identity by {
                    assert(pre[a].client_identity != pre[b].client_identity);
                }
                assert(viewports@[i as int] == row);
                assert forall|k: int|
                    0 <= k < pre.len() && (#[trigger] pre[k]).client_identity != client
                    implies viewports@.contains(pre[k]) by {
                    assert(viewports@[k] == pre[k]);
                }
            }
            return Ok(());
        }
        i = i + 1;
    }
    let ghost pre = viewports@;
    viewports.push(row);
    proof {
        assert forall|a: int, b: int|
            0 <= a < b < viewports@.len() implies (#[trigger] viewports@[a]).client_identity != (
        #[trigger] viewports@[b]).client_identity by {
            if b == viewports@.len() - 1 {
                assert(pre[a].client_identity != client);
            } else {
                assert(pre[a].client_identity != pre[b].client_identity);
            }
        }
        assert(viewports@[viewports@.len() - 1] == row);
        assert forall|k: int|
            0 <= k < pre.len() && (#[trigger] pre[k]).client_identity != client implies viewports@
            .contains(pre[k]) by {
            assert(viewports@[k] == pre[k]);
        }
    }
    Ok(())
}

} // verus!
