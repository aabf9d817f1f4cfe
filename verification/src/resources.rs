//! Harvestable resource nodes and their lifecycle.
//!
//! A node is `Available` while `respawn_at` is `None` and `Respawning`
//! once a harvest set it; only the respawn tick clears it again, so the
//! timer never moves backwards.  Harvest yields go through the same
//! gather path as everything the player picks up.

use vstd::prelude::*;

use crate::errors::ErrorCode;
use crate::items::{ItemCatalog, ItemLocation};
use crate::inventory::{
    ItemStore, qty_sum, player_qty_sum, add_item_to_player_inventory, add_delta,
    spec_slot_taken, spec_first_free_player_slot, lemma_first_free_from_occupancy,
};
use crate::player::Player;
use crate::repair::{spec_def_id_named, lemma_def_id_named_unique};
use crate::rolls::roll_inclusive;

verus! {

/// Squared distance within which a player can interact with a resource
/// node, shared by every resource kind.
pub const PLAYER_RESOURCE_INTERACTION_DISTANCE_SQUARED: u64 = 4096;

/// Corn respawns after a random delay in this window, in seconds.
pub const MIN_CORN_RESPAWN_TIME_SECS: u64 = 900;
pub const MAX_CORN_RESPAWN_TIME_SECS: u64 = 1500;

/// Primary corn yield range, ears per harvest.
pub const CORN_PRIMARY_YIELD_MIN_AMOUNT: u32 = 1;
pub const CORN_PRIMARY_YIELD_MAX_AMOUNT: u32 = 2;
/// Secondary plant-fiber yield range and its percent chance.
pub const CORN_SECONDARY_YIELD_MIN_AMOUNT: u32 = 2;
pub const CORN_SECONDARY_YIELD_MAX_AMOUNT: u32 = 4;
pub const CORN_SECONDARY_YIELD_CHANCE_PERCENT: u64 = 90;

/// Minimum squared spacing between corn plants, and from trees and
/// stones, used by the spawn placement.
pub const MIN_CORN_DISTANCE_SQ: u64 = 1600;
pub const MIN_CORN_TREE_DISTANCE_SQ: u64 = 400;
pub const MIN_CORN_STONE_DISTANCE_SQ: u64 = 625;

/// A corn plant in the world.
#[derive(Clone, Copy, Debug, PartialEq, Eq, Structural)]
pub struct Corn {
    pub id: u64,
    pub pos_x: u32,
    pub pos_y: u32,
    pub chunk_index: u32,
    pub respawn_at: Option<u64>,
}

impl Corn {
    /// The node's id.
    pub fn id(&self) -> (r: u64)
        ensures
            r == self.id,
    {
        self.id
    }

    /// The node's pixel position.
    pub fn pos_x(&self) -> (r: u32)
        ensures
            r == self.pos_x,
    {
        self.pos_x
    }

    /// The node's pixel position.
    pub fn pos_y(&self) -> (r: u32)
        ensures
            r == self.pos_y,
    {
        self.pos_y
    }

    /// When the node respawns, if it was harvested.
    pub fn respawn_at(&self) -> (r: Option<u64>)
        ensures
            r == self.respawn_at,
    {
        self.respawn_at
    }

    /// Reschedules or clears the node's respawn.
    pub fn set_respawn_at(&mut self, time: Option<u64>)
        ensures
            *final(self) == (Corn { respawn_at: time, ..*old(self) }),
    {
        self.respawn_at = time;
    }
}

/// A tree; fellable while its health is positive.
#[derive(Clone, Copy, Debug, PartialEq, Eq, Structural)]
pub struct Tree {
    pub id: u64,
    pub pos_x: u32,
    pub pos_y: u32,
    pub chunk_index: u32,
    pub health: u32,
    pub respawn_at: Option<u64>,
}

/// A stone node; minable while its health is positive.
#[derive(Clone, Copy, Debug, PartialEq, Eq, Structural)]
pub struct Stone {
    pub id: u64,
    pub pos_x: u32,
    pub pos_y: u32,
    pub chunk_index: u32,
    pub health: u32,
    pub respawn_at: Option<u64>,
}

/// A mushroom; picked whole like corn.
#[derive(Clone, Copy, Debug, PartialEq, Eq, Structural)]
pub struct Mushroom {
    pub id: u32,
    pub pos_x: u32,
    pub pos_y: u32,
    pub chunk_index: u32,
    pub respawn_at: Option<u64>,
}

/// A lootable corpse left by a dead player.
#[derive(Clone, Copy, Debug, PartialEq, Eq, Structural)]
pub struct PlayerCorpse {
    pub id: u32,
    pub pos_x: u32,
    pub pos_y: u32,
    pub owner_identity: u64,
    pub despawn_at: u64,
}

/// Corn ids are unique keys of the corn table.
pub open spec fn corns_wf(s: Seq<Corn>) -> bool {
    forall|i: int, j: int| 0 <= i < j < s.len() ==> (#[trigger] s[i]).id != (#[trigger] s[j]).id
}

/// Whether a corn node with this id exists.
pub open spec fn has_corn(s: Seq<Corn>, id: u64) -> bool {
    exists|i: int| 0 <= i < s.len() && (#[trigger] s[i]).id == id
}

/// The index of the corn node with this id.
pub open spec fn corn_index(s: Seq<Corn>, id: u64) -> int {
    choose|i: int| 0 <= i < s.len() && (#[trigger] s[i]).id == id
}

/// Finds the index of the corn node with this id.
pub fn find_corn_index(corns: &Vec<Corn>, id: u64) -> (r: Option<usize>)
    requires
        corns_wf(corns@),
    ensures
        r is Some <==> has_corn(corns@, id),
        r is Some ==> r->Some_0 < corns@.len() && r->Some_0 == corn_index(corns@, id)
            && corns@[r->Some_0 as int].id == id,
{
    let n: usize = corns.len();
    let mut i: usize = 0;
    while i < n
        invariant
            n == corns@.len(),
            i <= n,
            corns_wf(corns@),
            forall|k: int| 0 <= k < i ==> (#[trigger] corns@[k]).id != id,
        decreases n - i,
    {
        if corns[i].id == id {
            proof {
                let j = corn_index(corns@, id);
                if j != i as int {
                    assert(corns@[j].id == id);
                    assert(false);
                }
            }
            return Some(i);
        }
        i = i + 1;
    }
    None
}

/// The squared pixel distance between two points.
pub open spec fn spec_dist_sq(ax: u32, ay: u32, bx: u32, by: u32) -> int {
    (ax - bx) * (ax - bx) + (ay - by) * (ay - by)
}

/// The squared pixel distance between two points.
pub fn dist_sq(ax: u32, ay: u32, bx: u32, by: u32) -> (r: u128)
    ensures
        r == spec_dist_sq(ax, ay, bx, by),
{
    let dx: u128 = if ax >= bx {
        (ax - bx) as u128
    } else {
        (bx - ax) as u128
    };
    let dy: u128 = if ay >= by {
        (ay - by) as u128
    } else {
        (by - ay) as u128
    };
    proof {
        assert(dx * dx + dy * dy == spec_dist_sq(ax, ay, bx, by)) by (nonlinear_arith)
            requires
                dx == if ax >= bx {
                    ax - bx
                } else {
                    bx - ax
                } && dy == if ay >= by {
                    ay - by
                } else {
                    by - ay
                },
        ;
        assert(dx < 0x1_0000_0000 && dy < 0x1_0000_0000);
        assert(dx * dx <= 0xFFFF_FFFE_0000_0001 && dy * dy <= 0xFFFF_FFFE_0000_0001)
            by (nonlinear_arith)
            requires
                dx < 0x1_0000_0000 && dy < 0x1_0000_0000,
        ;
    }
    dx * dx + dy * dy
}

/// Whether the player stands close enough to interact with a resource at
/// this position: the squared distance is within the shared interaction
/// range.
pub fn validate_player_resource_interaction(player: &Player, pos_x: u32, pos_y: u32) -> (r:
    Result<(), ErrorCode>)
    ensures
        r is Ok <==> spec_dist_sq(player.position_x, player.position_y, pos_x, pos_y)
            <= PLAYER_RESOURCE_INTERACTION_DISTANCE_SQUARED,
        r is Err ==> r->Err_0 == ErrorCode::TooFar,
{
    let d = dist_sq(player.position_x, player.position_y, pos_x, pos_y);
    if d <= PLAYER_RESOURCE_INTERACTION_DISTANCE_SQUARED as u128 {
        Ok(())
    } else {
        Err(ErrorCode::TooFar)
    }
}

/// Harvests a corn node with the rolls already drawn: the primary yield,
/// the secondary plant-fiber yield if its chance came up, and the respawn
/// delay.
///
/// The node must be available and the player in range.  The primary
/// yield must fit the inventory or the harvest aborts with
/// `InventoryFull` and the node stays available; a full inventory during
/// the secondary yield never aborts the harvest.  On success the node is
/// scheduled to respawn at `now` plus the delay.
#[verifier::loop_isolation(false)]
pub fn collect_corn_with_rolls(
    store: &mut ItemStore,
    cat: &ItemCatalog,
    corns: &mut Vec<Corn>,
    player: &Player,
    corn_id: u64,
    now: u64,
    primary_amount: u32,
    secondary_amount: Option<u32>,
    respawn_delay_secs: u64,
) -> (r: Result<(), ErrorCode>)
    requires
        old(store).wf(*cat),
        cat.wf(),
        corns_wf(old(corns)@),
        CORN_PRIMARY_YIELD_MIN_AMOUNT <= primary_amount <= CORN_PRIMARY_YIELD_MAX_AMOUNT,
        secondary_amount is Some ==> CORN_SECONDARY_YIELD_MIN_AMOUNT <= secondary_amount->Some_0
            <= CORN_SECONDARY_YIELD_MAX_AMOUNT,
        MIN_CORN_RESPAWN_TIME_SECS <= respawn_delay_secs <= MAX_CORN_RESPAWN_TIME_SECS,
        now + 2000000000 < u64::MAX,
        old(store).next_instance_id + 10 < u64::MAX,
    ensures
        final(store).wf(*cat),
        corns_wf(final(corns)@),
        final(corns)@.len() == old(corns)@.len(),
        forall|k: int|
            0 <= k < old(corns)@.len() && (#[trigger] old(corns)@[k]).id != corn_id
                ==> final(corns)@[k] == old(corns)@[k],
        !has_corn(old(corns)@, corn_id) ==> r == Result::<(), ErrorCode>::Err(ErrorCode::NotFound)
            && *final(corns) == *old(corns) && *final(store) == *old(store),
        r is Ok ==> has_corn(old(corns)@, corn_id) && final(corns)@ == old(corns)@.update(
            corn_index(old(corns)@, corn_id),
            (Corn {
                respawn_at: Some((now + respawn_delay_secs * 1000000) as u64),
                ..old(corns)@[corn_index(old(corns)@, corn_id)]
            }),
        ),
        has_corn(old(corns)@, corn_id) ==> {
            let ci = corn_index(old(corns)@, corn_id);
            let node = old(corns)@[ci];
            &&& node.respawn_at is Some ==> r == Result::<(), ErrorCode>::Err(
                ErrorCode::AlreadyHarvested,
            ) && *final(corns) == *old(corns) && *final(store) == *old(store)
            &&& node.respawn_at is None && spec_dist_sq(
                player.position_x,
                player.position_y,
                node.pos_x,
                node.pos_y,
            ) > PLAYER_RESOURCE_INTERACTION_DISTANCE_SQUARED ==> r == Result::<(), ErrorCode>::Err(
                ErrorCode::TooFar,
            ) && *final(corns) == *old(corns) && *final(store) == *old(store)
            &&& node.respawn_at is None && spec_dist_sq(
                player.position_x,
                player.position_y,
                node.pos_x,
                node.pos_y,
            ) <= PLAYER_RESOURCE_INTERACTION_DISTANCE_SQUARED && cat.has_def_named("Corn"@)
                && cat.has_def_named("Plant Fiber"@) ==> {
                let corn_def = spec_def_id_named(*cat, "Corn"@);
                let fiber_def = spec_def_id_named(*cat, "Plant Fiber"@);
                &&& r is Err ==> {
                    // The harvest fails only on a genuinely full
                    // inventory: every slot of the player is occupied
                    // when the primary yield could not be placed.
                    &&& r->Err_0 == ErrorCode::InventoryFull
                    &&& *final(corns) == *old(corns)
                    &&& final(store).player_slots_full(player.identity)
                    &&& forall|d: u64|
                        d != corn_def ==> #[trigger] qty_sum(final(store).items@, d) == qty_sum(
                            old(store).items@,
                            d,
                        )
                    &&& 0 <= qty_sum(final(store).items@, corn_def) - qty_sum(
                        old(store).items@,
                        corn_def,
                    ) < primary_amount
                }
                &&& r is Ok ==> {
                    &&& final(corns)@ == old(corns)@.update(
                        ci,
                        (Corn {
                            respawn_at: Some((now + respawn_delay_secs * 1000000) as u64),
                            ..node
                        }),
                    )
                    &&& cat.def_of(corn_def).is_stackable ==> player_qty_sum(
                        final(store).items@,
                        player.identity,
                        corn_def,
                    ) == player_qty_sum(old(store).items@, player.identity, corn_def)
                        + primary_amount
                    &&& secondary_amount is None ==> player_qty_sum(
                        final(store).items@,
                        player.identity,
                        fiber_def,
                    ) == player_qty_sum(old(store).items@, player.identity, fiber_def)
                    &&& secondary_amount is Some && cat.def_of(fiber_def).is_stackable ==> {
                        // The fiber is granted in full, or tolerated as
                        // lost only against a provably full inventory.
                        ||| player_qty_sum(final(store).items@, player.identity, fiber_def)
                            == player_qty_sum(old(store).items@, player.identity, fiber_def)
                            + secondary_amount->Some_0
                        ||| (final(store).player_slots_full(player.identity) && player_qty_sum(
                            old(store).items@,
                            player.identity,
                            fiber_def,
                        ) <= player_qty_sum(final(store).items@, player.identity, fiber_def)
                            < player_qty_sum(old(store).items@, player.identity, fiber_def)
                            + secondary_amount->Some_0)
                    }
                    &&& secondary_amount is Some ==> player_qty_sum(
                        old(store).items@,
                        player.identity,
                        fiber_def,
                    ) <= player_qty_sum(final(store).items@, player.identity, fiber_def)
                        <= player_qty_sum(old(store).items@, player.identity, fiber_def)
                        + secondary_amount->Some_0
                }
                &&& {
                    // With no partial stack of a yield to grow, each yield
                    // lands whole as a fresh stack on the player's first
                    // free slot, hotbar before inventory: the corn on the
                    // first free slot of the store as it was, the fiber on
                    // the next one, unless a full inventory lost it.
                    let n = old(store).items@.len() as int;
                    let no_corn_stack = (forall|j: int|
                        0 <= j < old(store).items@.len() ==> !((#[trigger] old(
                            store,
                        ).items@[j]).item_def_id == corn_def && old(
                            store,
                        ).items@[j].location.spec_player_bound() == Some(player.identity) && old(
                            store,
                        ).items@[j].quantity < cat.def_of(corn_def).stack_size));
                    let no_fiber_stack = (forall|j: int|
                        0 <= j < old(store).items@.len() ==> !((#[trigger] old(
                            store,
                        ).items@[j]).item_def_id == fiber_def && old(
                            store,
                        ).items@[j].location.spec_player_bound() == Some(player.identity) && old(
                            store,
                        ).items@[j].quantity < cat.def_of(fiber_def).stack_size));
                    r is Ok && cat.def_of(corn_def).is_stackable && primary_amount <= cat.def_of(
                        corn_def,
                    ).stack_size && no_corn_stack ==> {
                        &&& final(store).items@.len() > n
                        &&& final(store).items@[n].instance_id == old(store).next_instance_id
                        &&& final(store).items@[n].owner_identity == player.identity
                        &&& final(store).items@[n].item_def_id == corn_def
                        &&& final(store).items@[n].quantity == primary_amount
                        &&& spec_first_free_player_slot(
                            *old(store),
                            None,
                            player.identity,
                            final(store).items@[n].location,
                        )
                        &&& secondary_amount is None ==> final(store).items@.len() == n + 1 && (
                        forall|j: int|
                            0 <= j < n ==> final(store).items@[j] == #[trigger] old(
                                store,
                            ).items@[j])
                        &&& secondary_amount is Some && cat.def_of(fiber_def).is_stackable
                            && secondary_amount->Some_0 <= cat.def_of(fiber_def).stack_size
                            && no_fiber_stack ==> {
                            &&& forall|j: int|
                                0 <= j < n ==> final(store).items@[j] == #[trigger] old(
                                    store,
                                ).items@[j]
                            &&& {
                                ||| (final(store).items@.len() == n + 2 && final(store).items@[n
                                    + 1].owner_identity == player.identity && final(store).items@[n
                                    + 1].item_def_id == fiber_def && final(store).items@[n
                                    + 1].quantity == secondary_amount->Some_0
                                    && spec_first_free_player_slot(
                                    *old(store),
                                    Some(final(store).items@[n].location),
                                    player.identity,
                                    final(store).items@[n + 1].location,
                                ))
                                ||| final(store).player_slots_full(player.identity)
                            }
                        }
                    }
                }
            }
        },
{
    let ci: usize = match find_corn_index(corns, corn_id) {
        None => { return Err(ErrorCode::NotFound); },
        Some(ci) => ci,
    };
    let node = corns[ci];
    if node.respawn_at.is_some() {
        return Err(ErrorCode::AlreadyHarvested);
    }
    match validate_player_resource_interaction(player, node.pos_x, node.pos_y) {
        Ok(()) => {},
        Err(e) => { return Err(e); },
    }
    let corn_name: String = "Corn".to_owned();
    let fiber_name: String = "Plant Fiber".to_owned();
    let corn_def_id: u64 = match cat.find_def_id_by_name(&corn_name) {
        None => { return Err(ErrorCode::NotFound); },
        Some(id) => id,
    };
    let fiber_def_id: u64 = match cat.find_def_id_by_name(&fiber_name) {
        None => { return Err(ErrorCode::NotFound); },
        Some(id) => id,
    };
    proof {
        lemma_def_id_named_unique(*cat, "Corn"@, corn_def_id);
        lemma_def_id_named_unique(*cat, "Plant Fiber"@, fiber_def_id);
        reveal_strlit("Corn");
        reveal_strlit("Plant Fiber");
        assert("Corn"@.len() == 4);
        assert("Plant Fiber"@.len() == 11);
        if corn_def_id == fiber_def_id {
            let i = cat.def_index(corn_def_id);
            assert(false);
        }
    }
    // The primary yield must fit; otherwise abort without scheduling the
    // respawn, so the node can be harvested again later.
    let ghost before_primary = *store;
    let ghost nostack_corn = cat.def_of(corn_def_id).is_stackable && primary_amount <= cat.def_of(
        corn_def_id,
    ).stack_size && (forall|j: int|
        0 <= j < before_primary.items@.len() ==> !((#[trigger] before_primary.items@[j]).item_def_id
            == corn_def_id && before_primary.items@[j].location.spec_player_bound() == Some(
            player.identity,
        ) && before_primary.items@[j].quantity < cat.def_of(corn_def_id).stack_size));
    match add_item_to_player_inventory(store, cat, player.identity, corn_def_id, primary_amount) {
        Ok(()) => {},
        Err(ErrorCode::InventoryFull) => { return Err(ErrorCode::InventoryFull); },
        Err(e) => { return Err(e); },
    }
    // The secondary yield is attempted and a full inventory is tolerated.
    let ghost after_primary = *store;
    let ghost n = before_primary.items@.len() as int;
    proof {
        if nostack_corn {
            assert(after_primary.items@.len() == n + 1);
            lemma_first_free_from_occupancy(
                before_primary,
                before_primary,
                None,
                player.identity,
                after_primary.items@.last().location,
            );
        }
    }
    match secondary_amount {
        Some(amount) => {
            let res = add_item_to_player_inventory(
                store,
                cat,
                player.identity,
                fiber_def_id,
                amount,
            );
            proof {
                assert(player_qty_sum(store.items@, player.identity, fiber_def_id)
                    >= player_qty_sum(after_primary.items@, player.identity, fiber_def_id));
                assert(player_qty_sum(store.items@, player.identity, fiber_def_id)
                    <= player_qty_sum(after_primary.items@, player.identity, fiber_def_id)
                    + amount);
                let fdef = cat.def_of(fiber_def_id);
                let nostack_fiber = fdef.is_stackable && amount <= fdef.stack_size && (forall|
                    j: int,
                |
                    0 <= j < before_primary.items@.len() ==> !((
                    #[trigger] before_primary.items@[j]).item_def_id == fiber_def_id
                        && before_primary.items@[j].location.spec_player_bound() == Some(
                        player.identity,
                    ) && before_primary.items@[j].quantity < fdef.stack_size));
                if nostack_corn && nostack_fiber {
                    let cloc = after_primary.items@[n].location;
                    assert forall|j: int| 0 <= j < n implies store.items@[j]
                        == before_primary.items@[j] by {
                        assert(after_primary.items@[j] == before_primary.items@[j]);
                        assert(store.row_wf(*cat, j));
                        let a = after_primary.items@[j];
                        let b = store.items@[j];
                        if b.quantity != a.quantity {
                            assert(a.item_def_id == fiber_def_id);
                            assert(b.quantity <= fdef.stack_size);
                            assert(false);
                        }
                    }
                    assert forall|j: int| 0 <= j < after_primary.items@.len() implies !((
                    #[trigger] after_primary.items@[j]).item_def_id == fiber_def_id
                        && after_primary.items@[j].location.spec_player_bound() == Some(
                        player.identity,
                    ) && after_primary.items@[j].quantity < fdef.stack_size) by {
                        if j < n {
                            assert(after_primary.items@[j] == before_primary.items@[j]);
                        } else {
                            assert(after_primary.items@[j].item_def_id == corn_def_id);
                        }
                    }
                    if res is Ok {
                        assert(store.items@.len() == n + 2);
                        assert forall|l: ItemLocation| #[trigger] after_primary.location_occupied(l)
                            == spec_slot_taken(before_primary, Some(cloc), l) by {
                            if after_primary.location_occupied(l) {
                                let k = choose|k: int|
                                    0 <= k < after_primary.items@.len() && (
                                    #[trigger] after_primary.items@[k]).location == l;
                                if k < n {
                                    assert(before_primary.items@[k].location == l);
                                    assert(before_primary.location_occupied(l));
                                } else {
                                    assert(after_primary.items@[k] == after_primary.items@[n]);
                                }
                            }
                            if spec_slot_taken(before_primary, Some(cloc), l) {
                                if before_primary.location_occupied(l) {
                                    let k = choose|k: int|
                                        0 <= k < before_primary.items@.len() && (
                                        #[trigger] before_primary.items@[k]).location == l;
                                    assert(after_primary.items@[k].location == l);
                                    assert(after_primary.location_occupied(l));
                                } else {
                                    assert(after_primary.items@[n].location == cloc);
                                    assert(after_primary.location_occupied(cloc));
                                }
                            }
                        }
                        lemma_first_free_from_occupancy(
                            before_primary,
                            after_primary,
                            Some(cloc),
                            player.identity,
                            store.items@.last().location,
                        );
                        assert(store.items@[n] == after_primary.items@[n]);
                    }
                }
            }
        },
        None => {},
    }
    let updated = Corn {
        id: node.id,
        pos_x: node.pos_x,
        pos_y: node.pos_y,
        chunk_index: node.chunk_index,
        respawn_at: Some(now + respawn_delay_secs * 1000000),
    };
    corns[ci] = updated;
    proof {
        assert forall|p: int, q: int|
            0 <= p < q < corns@.len() implies (#[trigger] corns@[p]).id != (
        #[trigger] corns@[q]).id by {
            assert(old(corns)@[p].id != old(corns)@[q].id);
        }
    }
    Ok(())
}

/// Harvests a corn node, drawing the yield rolls and the respawn window.
///
/// The primary yield is uniform in its range; the secondary plant-fiber
/// yield comes up with its configured chance and is then uniform in its
/// range; the respawn delay is uniform in its window.  Everything else is
/// as [`collect_corn_with_rolls`] lays down for every outcome of the
/// rolls.
pub fn interact_with_corn(
    store: &mut ItemStore,
    cat: &ItemCatalog,
    corns: &mut Vec<Corn>,
    player: &Player,
    corn_id: u64,
    now: u64,
) -> (r: Result<(), ErrorCode>)
    requires
        old(store).wf(*cat),
        cat.wf(),
        corns_wf(old(corns)@),
        now + 2000000000 < u64::MAX,
        old(store).next_instance_id + 10 < u64::MAX,
    ensures
        final(store).wf(*cat),
        corns_wf(final(corns)@),
        final(corns)@.len() == old(corns)@.len(),
        forall|k: int|
            0 <= k < old(corns)@.len() && (#[trigger] old(corns)@[k]).id != corn_id
                ==> final(corns)@[k] == old(corns)@[k],
        !has_corn(old(corns)@, corn_id) ==> r == Result::<(), ErrorCode>::Err(ErrorCode::NotFound),
        has_corn(old(corns)@, corn_id) ==> {
            let ci = corn_index(old(corns)@, corn_id);
            let node = old(corns)@[ci];
            &&& node.respawn_at is Some ==> r == Result::<(), ErrorCode>::Err(
                ErrorCode::AlreadyHarvested,
            ) && *final(corns) == *old(corns) && *final(store) == *old(store)
            &&& node.respawn_at is None && spec_dist_sq(
                player.position_x,
                player.position_y,
                node.pos_x,
                node.pos_y,
            ) > PLAYER_RESOURCE_INTERACTION_DISTANCE_SQUARED ==> r == Result::<(), ErrorCode>::Err(
                ErrorCode::TooFar,
            ) && *final(corns) == *old(corns) && *final(store) == *old(store)
            &&& node.respawn_at is None && spec_dist_sq(
                player.position_x,
                player.position_y,
                node.pos_x,
                node.pos_y,
            ) <= PLAYER_RESOURCE_INTERACTION_DISTANCE_SQUARED && cat.has_def_named("Corn"@)
                && cat.has_def_named("Plant Fiber"@) && r is Err ==> {
                // For every outcome of the rolls, an available node in
                // range fails only against a provably full inventory.
                &&& r->Err_0 == ErrorCode::InventoryFull
                &&& final(store).player_slots_full(player.identity)
                &&& *final(corns) == *old(corns)
            }
            &&& r is Ok ==> (final(corns)@[ci].respawn_at matches Some(t) && now
                + MIN_CORN_RESPAWN_TIME_SECS * 1000000 <= t <= now + MAX_CORN_RESPAWN_TIME_SECS
                * 1000000)
        },
{
    let primary_amount: u32 = roll_inclusive(
        CORN_PRIMARY_YIELD_MIN_AMOUNT as u64,
        CORN_PRIMARY_YIELD_MAX_AMOUNT as u64,
    ) as u32;
    let chance_roll: u64 = roll_inclusive(0, 99);
    let secondary_amount: Option<u32> = if chance_roll < CORN_SECONDARY_YIELD_CHANCE_PERCENT {
        Some(
            roll_inclusive(
                CORN_SECONDARY_YIELD_MIN_AMOUNT as u64,
                CORN_SECONDARY_YIELD_MAX_AMOUNT as u64,
            ) as u32,
        )
    } else {
        None
    };
    let respawn_delay_secs: u64 = roll_inclusive(
        MIN_CORN_RESPAWN_TIME_SECS,
        MAX_CORN_RESPAWN_TIME_SECS,
    );
    collect_corn_with_rolls(
        store,
        cat,
        corns,
        player,
        corn_id,
        now,
        primary_amount,
        secondary_amount,
        respawn_delay_secs,
    )
}

/// The scheduled respawn tick for corn: every node whose respawn time has
/// come is made available again; no other node changes.
pub fn process_corn_respawns(corns: &mut Vec<Corn>, now: u64)
    requires
        corns_wf(old(corns)@),
    ensures
        corns_wf(final(corns)@),
        final(corns)@.len() == old(corns)@.len(),
        forall|k: int|
            0 <= k < old(corns)@.len() ==> final(corns)@[k] == (if old(
                corns,
            )@[k].respawn_at matches Some(t) && t <= now {
                Corn { respawn_at: None, ..#[trigger] old(corns)@[k] }
            } else {
                old(corns)@[k]
            }),
{
    let n: usize = corns.len();
    let mut i: usize = 0;
    while i < n
        invariant
            n == corns@.len(),
            n == old(corns)@.len(),
            i <= n,
            corns_wf(corns@),
            forall|k: int|
                0 <= k < i ==> corns@[k] == (if old(corns)@[k].respawn_at matches Some(t) && t
                    <= now {
                    Corn { respawn_at: None, ..#[trigger] old(corns)@[k] }
                } else {
                    old(corns)@[k]
                }),
            forall|k: int| i <= k < n ==> #[trigger] corns@[k] == old(corns)@[k],
        decreases n - i,
    {
        let node = corns[i];
        let due: bool = match node.respawn_at {
            Some(t) => t <= now,
            None => false,
        };
        if due {
            let ghost pre = corns@;
            corns[i] = Corn {
                id: node.id,
                pos_x: node.pos_x,
                pos_y: node.pos_y,
                chunk_index: node.chunk_index,
                respawn_at: None,
            };
            proof {
                assert forall|p: int, q: int|
                    0 <= p < q < corns@.len() implies (#[trigger] corns@[p]).id != (
                #[trigger] corns@[q]).id by {
                    assert(pre[p].id != pre[q].id);
                }
            }
        }
        i = i + 1;
    }
}

} // verus!
