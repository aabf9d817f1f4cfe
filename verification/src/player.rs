//! The player table: one persistent row per identity.
//!
//! Positions are whole pixels, stats whole points, timestamps microseconds
//! and milliseconds as each field says.  Rows persist across disconnects;
//! only `is_online` and the connection table change on connect and
//! disconnect.

use vstd::prelude::*;

use crate::{WORLD_WIDTH_PX, WORLD_HEIGHT_PX};

verus! {

/// Starting health of a fresh player.
pub const PLAYER_INITIAL_HEALTH: u32 = 100;
/// Starting stamina of a fresh player.
pub const PLAYER_INITIAL_STAMINA: u32 = 100;
/// Starting thirst of a fresh player.
pub const PLAYER_INITIAL_THIRST: u32 = 250;
/// Starting hunger of a fresh player.
pub const PLAYER_INITIAL_HUNGER: u32 = 250;
/// Starting warmth of a fresh player.
pub const PLAYER_INITIAL_WARMTH: u32 = 100;
/// How far in front of the player a dropped stack lands, in pixels.
pub const DROP_OFFSET_PX: u32 = 48;

/// One player, keyed by identity.
#[derive(Debug)]
pub struct Player {
    pub identity: u64,
    pub username: String,
    pub position_x: u32,
    pub position_y: u32,
    pub direction: String,
    pub last_update: u64,
    pub last_stat_update: u64,
    pub jump_start_time_ms: u64,
    pub health: u32,
    pub stamina: u32,
    pub thirst: u32,
    pub hunger: u32,
    pub warmth: u32,
    pub is_sprinting: bool,
    pub is_dead: bool,
    pub death_timestamp: Option<u64>,
    pub last_hit_time: Option<u64>,
    pub is_online: bool,
    pub is_torch_lit: bool,
    pub last_consumed_at: Option<u64>,
    pub is_crouching: bool,
    pub is_knocked_out: bool,
    pub knocked_out_at: Option<u64>,
    pub is_on_water: bool,
}

impl Clone for Player {
    /// A clone keeps every field, so contracts can speak of the copy.
    fn clone(&self) -> (r: Self)
        ensures
            r == *self,
    {
        Player {
            identity: self.identity,
            username: self.username.clone(),
            position_x: self.position_x,
            position_y: self.position_y,
            direction: self.direction.clone(),
            last_update: self.last_update,
            last_stat_update: self.last_stat_update,
            jump_start_time_ms: self.jump_start_time_ms,
            health: self.health,
            stamina: self.stamina,
            thirst: self.thirst,
            hunger: self.hunger,
            warmth: self.warmth,
            is_sprinting: self.is_sprinting,
            is_dead: self.is_dead,
            death_timestamp: self.death_timestamp,
            last_hit_time: self.last_hit_time,
            is_online: self.is_online,
            is_torch_lit: self.is_torch_lit,
            last_consumed_at: self.last_consumed_at,
            is_crouching: self.is_crouching,
            is_knocked_out: self.is_knocked_out,
            knocked_out_at: self.knocked_out_at,
            is_on_water: self.is_on_water,
        }
    }
}

/// Identities and usernames are unique keys of the player table.
pub open spec fn players_wf(s: Seq<Player>) -> bool {
    &&& forall|i: int, j: int|
        0 <= i < j < s.len() ==> (#[trigger] s[i]).identity != (#[trigger] s[j]).identity
    &&& forall|i: int, j: int|
        0 <= i < j < s.len() ==> (#[trigger] s[i]).username@ != (#[trigger] s[j]).username@
}

/// Whether a player with this identity exists.
pub open spec fn has_player(s: Seq<Player>, identity: u64) -> bool {
    exists|i: int| 0 <= i < s.len() && (#[trigger] s[i]).identity == identity
}

/// The index of the player with this identity.
pub open spec fn player_index(s: Seq<Player>, identity: u64) -> int {
    choose|i: int| 0 <= i < s.len() && (#[trigger] s[i]).identity == identity
}

/// Finds the index of the player with this identity.
pub fn find_player_index(players: &Vec<Player>, identity: u64) -> (r: Option<usize>)
    requires
        players_wf(players@),
    ensures
        r is Some <==> has_player(players@, identity),
        r is Some ==> r->Some_0 < players@.len() && r->Some_0 == player_index(players@, identity)
            && players@[r->Some_0 as int].identity == identity,
{
    let n: usize = players.len();
    let mut i: usize = 0;
    while i < n
        invariant
            n == players@.len(),
            i <= n,
            players_wf(players@),
            forall|k: int| 0 <= k < i ==> (#[trigger] players@[k]).identity != identity,
        decreases n - i,
    {
        if players[i].identity == identity {
            proof {
                let j = player_index(players@, identity);
                if j != i as int {
                    assert(players@[j].identity == identity);
                    assert(false);
                }
            }
            return Some(i);
        }
        i = i + 1;
    }
    None
}

/// Whether some player already claims this username.
pub fn username_taken(players: &Vec<Player>, username: &String) -> (r: bool)
    ensures
        r <==> exists|i: int|
            0 <= i < players@.len() && (#[trigger] players@[i]).username@ == username@,
{
    let n: usize = players.len();
    let mut i: usize = 0;
    while i < n
        invariant
            n == players@.len(),
            i <= n,
            forall|k: int| 0 <= k < i ==> (#[trigger] players@[k]).username@ != username@,
        decreases n - i,
    {
        if players[i].username == *username {
            return true;
        }
        i = i + 1;
    }
    false
}

/// Where a stack dropped by this player lands: one tile ahead of the
/// facing direction, clamped to the world's pixel bounds.
pub open spec fn spec_drop_position(player: Player) -> (u32, u32) {
    let x = if player.position_x < WORLD_WIDTH_PX {
        player.position_x
    } else {
        (WORLD_WIDTH_PX - 1) as u32
    };
    let y = if player.position_y < WORLD_HEIGHT_PX {
        player.position_y
    } else {
        (WORLD_HEIGHT_PX - 1) as u32
    };
    if player.direction@ == "up"@ {
        (
            x,
            if y >= DROP_OFFSET_PX {
                (y - DROP_OFFSET_PX) as u32
            } else {
                0u32
            },
        )
    } else if player.direction@ == "left"@ {
        (
            if x >= DROP_OFFSET_PX {
                (x - DROP_OFFSET_PX) as u32
            } else {
                0u32
            },
            y,
        )
    } else if player.direction@ == "right"@ {
        (
            if x + DROP_OFFSET_PX < WORLD_WIDTH_PX {
                (x + DROP_OFFSET_PX) as u32
            } else {
                (WORLD_WIDTH_PX - 1) as u32
            },
            y,
        )
    } else {
        (
            x,
            if y + DROP_OFFSET_PX < WORLD_HEIGHT_PX {
                (y + DROP_OFFSET_PX) as u32
            } else {
                (WORLD_HEIGHT_PX - 1) as u32
            },
        )
    }
}

/// Where a stack dropped by this player lands, as
/// [`spec_drop_position`] lays down.
pub fn calculate_drop_position(player: &Player) -> (r: (u32, u32))
    ensures
        r == spec_drop_position(*player),
        r.0 < WORLD_WIDTH_PX,
        r.1 < WORLD_HEIGHT_PX,
{
    let x: u32 = if player.position_x < WORLD_WIDTH_PX {
        player.position_x
    } else {
        WORLD_WIDTH_PX - 1
    };
    let y: u32 = if player.position_y < WORLD_HEIGHT_PX {
        player.position_y
    } else {
        WORLD_HEIGHT_PX - 1
    };
    let up: String = "up".to_owned();
    let left: String = "left".to_owned();
    let right: String = "right".to_owned();
    proof {
        reveal_strlit("up");
        reveal_strlit("left");
        reveal_strlit("right");
        reveal_strlit("down");
        assert("up"@.len() == 2);
        assert("left"@.len() == 4);
        assert("right"@.len() == 5);
        assert("down"@.len() == 4);
        assert("left"@[0] == 'l');
        assert("down"@[0] == 'd');
    }
    if player.direction == up {
        (x, if y >= DROP_OFFSET_PX {
            y - DROP_OFFSET_PX
        } else {
            0
        })
    } else if player.direction == left {
        (
            if x >= DROP_OFFSET_PX {
                x - DROP_OFFSET_PX
            } else {
                0
            },
            y,
        )
    } else if player.direction == right {
        (
            if x + DROP_OFFSET_PX < WORLD_WIDTH_PX {
                x + DROP_OFFSET_PX
            } else {
                WORLD_WIDTH_PX - 1
            },
            y,
        )
    } else {
        (
            x,
            if y + DROP_OFFSET_PX < WORLD_HEIGHT_PX {
                y + DROP_OFFSET_PX
            } else {
                WORLD_HEIGHT_PX - 1
            },
        )
    }
}

} // verus!
