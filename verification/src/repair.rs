//! Structure repair: the owner-gated combat cooldown, per-structure
//! repair amounts and resource costs, and the repair entry points for
//! campfires, storage boxes and shelters.
//!
//! Damage and repair share one cooldown rule: after damage by someone
//! other than the owner, only the owner may repair, and only once the
//! combat window has passed; self-damage by the owner bypasses the wait.

use vstd::prelude::*;

use crate::errors::ErrorCode;
use crate::items::{ItemCatalog, InventoryItem};
use crate::inventory::{
    ItemStore, qty_sum, player_qty_sum, row_qty, player_row_qty, same_totals,
    lemma_wf_after_row_update, lemma_wf_after_remove, lemma_qty_sum_update, lemma_qty_sum_remove,
    lemma_player_qty_sum_update, lemma_player_qty_sum_remove, lemma_player_qty_sum_head,
};
use crate::structures::{
    Campfire, WoodenStorageBox, Shelter, campfires_wf, has_campfire, campfire_index,
    find_campfire_index,
};

verus! {

/// A structure damaged by someone other than its owner cannot be repaired
/// for this long, in seconds.
pub const REPAIR_COMBAT_COOLDOWN_SECONDS: u64 = 300;
/// The same combat window in microseconds, the unit of timestamps.
pub const REPAIR_COMBAT_COOLDOWN_MICROS: u64 = 300000000;

/// What an attack or repair swing resolved against.
#[derive(Clone, Copy, Debug, PartialEq, Eq, Hash, Structural)]
pub enum TargetType {
    Player,
    Tree,
    Stone,
    Campfire,
    WoodenStorageBox,
    Shelter,
}

/// The outcome of a resolved swing.
#[derive(Clone, Copy, Debug, PartialEq, Eq, Structural)]
pub struct AttackResult {
    pub hit: bool,
    pub target_type: Option<TargetType>,
    /// The item definition granted by a resource hit, if any.
    pub resource_granted: Option<u64>,
}

/// Whether the combat-cooldown gate lets `repairer_id` repair now.
///
/// With no damage history the repair is free; with one, only the owner
/// may repair at all, immediately after damaging the structure themselves
/// and otherwise only once the combat window since the last hit passed.
pub open spec fn spec_repair_allowed(
    last_hit_time: Option<u64>,
    last_damaged_by: Option<u64>,
    repairer_id: u64,
    structure_owner_id: u64,
    current_time: u64,
) -> bool {
    if last_hit_time is None || last_damaged_by is None {
        true
    } else if repairer_id != structure_owner_id {
        false
    } else if last_damaged_by->Some_0 == structure_owner_id {
        true
    } else {
        current_time >= last_hit_time->Some_0 + REPAIR_COMBAT_COOLDOWN_MICROS
    }
}

/// Checks the combat-cooldown gate for a repair, as
/// [`spec_repair_allowed`] lays down: `NotOwned` for anyone but the owner
/// once a damage history exists, `Cooldown` inside the combat window.
pub fn can_structure_be_repaired(
    last_hit_time: Option<u64>,
    last_damaged_by: Option<u64>,
    repairer_id: u64,
    structure_owner_id: u64,
    current_time: u64,
) -> (r: Result<(), ErrorCode>)
    ensures
        r is Ok <==> spec_repair_allowed(
            last_hit_time,
            last_damaged_by,
            repairer_id,
            structure_owner_id,
            current_time,
        ),
        r is Err ==> (r->Err_0 == ErrorCode::NotOwned <==> repairer_id != structure_owner_id),
        r is Err ==> (r->Err_0 == ErrorCode::NotOwned || r->Err_0 == ErrorCode::Cooldown),
{
    let (last_time, damager): (u64, u64) = match (last_hit_time, last_damaged_by) {
        (Some(t), Some(d)) => (t, d),
        _ => { return Ok(()); },
    };
    if repairer_id != structure_owner_id {
        return Err(ErrorCode::NotOwned);
    }
    if damager == structure_owner_id {
        return Ok(());
    }
    let elapsed: u64 = if current_time >= last_time {
        current_time - last_time
    } else {
        0
    };
    if elapsed < REPAIR_COMBAT_COOLDOWN_MICROS {
        Err(ErrorCode::Cooldown)
    } else {
        Ok(())
    }
}

/// How much health one repair hit restores, by structure type.
pub fn get_repair_amount_for_structure(target_type: TargetType) -> (r: u32)
    ensures
        target_type == TargetType::Campfire ==> r == 25,
        target_type == TargetType::WoodenStorageBox ==> r == 75,
        target_type == TargetType::Shelter ==> r == 5000,
        !(target_type == TargetType::Campfire || target_type == TargetType::WoodenStorageBox
            || target_type == TargetType::Shelter) ==> r == 5,
{
    match target_type {
        TargetType::Campfire => 25,
        TargetType::WoodenStorageBox => 75,
        TargetType::Shelter => 5000,
        _ => 5,
    }
}

/// The ceiling of `base * amount / max`, the share of a full-repair cost
/// one hit costs.
pub open spec fn spec_cost_share(base: int, amount: int, max: int) -> int {
    (base * amount + max - 1) / max
}

/// The wood and stone one repair hit costs, by structure type: a campfire
/// costs shares of 25 wood and 10 stone, a storage box 100 wood, a
/// shelter 3200 wood, each proportional to the restored share of the
/// structure's full health and rounded up.
pub fn calculate_repair_resources(
    target_type: TargetType,
    repair_amount: u32,
    max_health: u32,
) -> (r: (u32, u32))
    requires
        max_health >= 1,
        repair_amount <= max_health,
    ensures
        target_type == TargetType::Campfire ==> r.0 == spec_cost_share(
            25,
            repair_amount as int,
            max_health as int,
        ) && r.1 == spec_cost_share(10, repair_amount as int, max_health as int),
        target_type == TargetType::WoodenStorageBox ==> r.0 == spec_cost_share(
            100,
            repair_amount as int,
            max_health as int,
        ) && r.1 == 0,
        target_type == TargetType::Shelter ==> r.0 == spec_cost_share(
            3200,
            repair_amount as int,
            max_health as int,
        ) && r.1 == 0,
        !(target_type == TargetType::Campfire || target_type == TargetType::WoodenStorageBox
            || target_type == TargetType::Shelter) ==> r == (0u32, 0u32),
        r.0 <= 3200 && r.1 <= 10,
{
    let amount: u64 = repair_amount as u64;
    let max: u64 = max_health as u64;
    match target_type {
        TargetType::Campfire => {
            let wood: u64 = (25 * amount + max - 1) / max;
            let stone: u64 = (10 * amount + max - 1) / max;
            proof {
                assert(25 * (amount as int) <= 25 * (max as int)) by (nonlinear_arith)
                    requires
                        amount <= max,
                ;
                assert((25 * (amount as int) + (max as int) - 1) / (max as int) <= 25) by (nonlinear_arith)
                    requires
                        max >= 1 && 25 * (amount as int) <= 25 * (max as int),
                ;
                assert(10 * (amount as int) <= 10 * (max as int)) by (nonlinear_arith)
                    requires
                        amount <= max,
                ;
                assert((10 * (amount as int) + (max as int) - 1) / (max as int) <= 10) by (nonlinear_arith)
                    requires
                        max >= 1 && 10 * (amount as int) <= 10 * (max as int),
                ;
            }
            (wood as u32, stone as u32)
        },
        TargetType::WoodenStorageBox => {
            let wood: u64 = (100 * amount + max - 1) / max;
            proof {
                assert(100 * (amount as int) <= 100 * (max as int)) by (nonlinear_arith)
                    requires
                        amount <= max,
                ;
                assert((100 * (amount as int) + (max as int) - 1) / (max as int) <= 100) by (nonlinear_arith)
                    requires
                        max >= 1 && 100 * (amount as int) <= 100 * (max as int),
                ;
            }
            (wood as u32, 0)
        },
        TargetType::Shelter => {
            let wood: u64 = (3200 * amount + max - 1) / max;
            proof {
                assert(3200 * (amount as int) <= 3200 * (max as int)) by (nonlinear_arith)
                    requires
                        amount <= max,
                ;
                assert((3200 * (amount as int) + (max as int) - 1) / (max as int) <= 3200) by (nonlinear_arith)
                    requires
                        max >= 1 && 3200 * (amount as int) <= 3200 * (max as int),
                ;
            }
            (wood as u32, 0)
        },
        _ => (0, 0),
    }
}

/// Whether the player's inventory and hotbar together hold at least
/// `needed` units of the definition.
pub fn player_has_resource(
    store: &ItemStore,
    player_id: u64,
    resource_def_id: u64,
    needed: u32,
) -> (r: bool)
    ensures
        r <==> player_qty_sum(store.items@, player_id, resource_def_id) >= needed,
{
    let n: usize = store.items.len();
    let mut i: usize = 0;
    let mut have: u64 = 0;
    proof {
        assert(store.items@.subrange(0, 0).len() == 0);
    }
    while i < n
        invariant
            n == store.items@.len(),
            i <= n,
            have == {
                let prefix = player_qty_sum(
                    store.items@.subrange(0, i as int),
                    player_id,
                    resource_def_id,
                );
                if prefix >= needed {
                    needed as int
                } else {
                    prefix
                }
            },
        decreases n - i,
    {
        let ghost prefix = store.items@.subrange(0, i as int);
        let it = &store.items[i];
        let bound: bool = match it.location.is_player_bound() {
            Some(p) => p == player_id,
            None => false,
        };
        let add_amt: u64 = if bound && it.item_def_id == resource_def_id {
            it.quantity as u64
        } else {
            0
        };
        proof {
            assert(store.items@.subrange(0, i as int + 1) =~= prefix.push(
                store.items@[i as int],
            ));
            crate::inventory::lemma_player_qty_sum_push(
                prefix,
                store.items@[i as int],
                player_id,
                resource_def_id,
            );
            crate::inventory::lemma_player_qty_sum_le(prefix, player_id, resource_def_id);
        }
        have = if have + add_amt > needed as u64 {
            needed as u64
        } else {
            have + add_amt
        };
        i = i + 1;
    }
    proof {
        assert(store.items@.subrange(0, n as int) =~= store.items@);
    }
    have >= needed as u64
}

/// Consumes exactly `amount_needed` units of the definition from the
/// player's inventory and hotbar rows, draining rows in table order and
/// deleting the ones that reach zero.
#[verifier::loop_isolation(false)]
pub fn consume_resource_from_inventory(
    store: &mut ItemStore,
    cat: &ItemCatalog,
    player_id: u64,
    resource_def_id: u64,
    amount_needed: u32,
) -> (r: Result<(), ErrorCode>)
    requires
        old(store).wf(*cat),
        cat.wf(),
        player_qty_sum(old(store).items@, player_id, resource_def_id) >= amount_needed,
    ensures
        final(store).wf(*cat),
        final(store).next_instance_id == old(store).next_instance_id,
        r is Ok,
        forall|d: u64|
            #[trigger] qty_sum(final(store).items@, d) == qty_sum(old(store).items@, d) - if d
                == resource_def_id {
                amount_needed as int
            } else {
                0int
            },
        forall|p: u64, d: u64|
            #[trigger] player_qty_sum(final(store).items@, p, d) == player_qty_sum(
                old(store).items@,
                p,
                d,
            ) - if p == player_id && d == resource_def_id {
                amount_needed as int
            } else {
                0int
            },
{
    let ghost orig = *store;
    let mut i: usize = 0;
    let mut remaining: u32 = amount_needed;
    proof {
        assert(store.items@.subrange(0, store.items@.len() as int) =~= store.items@);
    }
    while i < store.items.len() && remaining > 0
        invariant
            store.wf(*cat),
            i <= store.items@.len(),
            store.next_instance_id == orig.next_instance_id,
            remaining <= amount_needed,
            forall|d: u64|
                #[trigger] qty_sum(store.items@, d) == qty_sum(orig.items@, d) - if d
                    == resource_def_id {
                    amount_needed - remaining
                } else {
                    0int
                },
            forall|p: u64, d: u64|
                #[trigger] player_qty_sum(store.items@, p, d) == player_qty_sum(
                    orig.items@,
                    p,
                    d,
                ) - if p == player_id && d == resource_def_id {
                    amount_needed - remaining
                } else {
                    0int
                },
            player_qty_sum(
                store.items@.subrange(i as int, store.items@.len() as int),
                player_id,
                resource_def_id,
            ) >= remaining,
        decreases store.items@.len() - i, remaining,
    {
        let ghost pre_store = *store;
        let ghost cur = store.items@;
        let ghost n = cur.len() as int;
        proof {
            lemma_player_qty_sum_head(cur, i as int, player_id, resource_def_id);
            assert(pre_store.row_wf(*cat, i as int));
        }
        let it = store.items[i];
        let bound: bool = match it.location.is_player_bound() {
            Some(p) => p == player_id,
            None => false,
        };
        if bound && it.item_def_id == resource_def_id {
            if it.quantity <= remaining {
                store.items.remove(i);
                proof {
                    lemma_wf_after_remove(pre_store, *store, *cat, i as int);
                    let post = store.items@;
                    assert forall|d: u64| #[trigger] qty_sum(post, d) == qty_sum(cur, d) - if d
                        == resource_def_id {
                        it.quantity as int
                    } else {
                        0int
                    } by {
                        lemma_qty_sum_remove(cur, i as int, d);
                    }
                    assert forall|p: u64, d: u64| #[trigger] player_qty_sum(post, p, d)
                        == player_qty_sum(cur, p, d) - if p == player_id && d == resource_def_id {
                        it.quantity as int
                    } else {
                        0int
                    } by {
                        lemma_player_qty_sum_remove(cur, i as int, p, d);
                    }
                    assert(post.subrange(i as int, post.len() as int) =~= cur.subrange(
                        i as int + 1,
                        n,
                    ));
                }
                remaining = remaining - it.quantity;
            } else {
                let it2 = InventoryItem {
                    instance_id: it.instance_id,
                    owner_identity: it.owner_identity,
                    item_def_id: it.item_def_id,
                    quantity: it.quantity - remaining,
                    location: it.location,
                };
                store.items[i] = it2;
                proof {
                    lemma_wf_after_row_update(pre_store, *store, *cat, i as int, it2);
                    let post = store.items@;
                    assert forall|d: u64| #[trigger] qty_sum(post, d) == qty_sum(cur, d) - if d
                        == resource_def_id {
                        remaining as int
                    } else {
                        0int
                    } by {
                        lemma_qty_sum_update(cur, i as int, it2, d);
                    }
                    assert forall|p: u64, d: u64| #[trigger] player_qty_sum(post, p, d)
                        == player_qty_sum(cur, p, d) - if p == player_id && d == resource_def_id {
                        remaining as int
                    } else {
                        0int
                    } by {
                        lemma_player_qty_sum_update(cur, i as int, it2, p, d);
                    }
                }
                remaining = 0;
                proof {
                    crate::inventory::lemma_player_qty_sum_le(
                        store.items@.subrange(i as int, store.items@.len() as int),
                        player_id,
                        resource_def_id,
                    );
                }
            }
        } else {
            i = i + 1;
            proof {
                assert(store.items@.subrange(i as int, store.items@.len() as int) =~= cur.subrange(
                    i as int,
                    n,
                ));
            }
        }
    }
    proof {
        if remaining > 0 {
            assert(store.items@.subrange(i as int, store.items@.len() as int).len() == 0);
        }
    }
    Ok(())
}

/// Verifies the player can pay a repair cost in wood and stone, and
/// consumes it; on any shortage nothing is consumed.
pub fn consume_repair_resources(
    store: &mut ItemStore,
    cat: &ItemCatalog,
    player_id: u64,
    wood_needed: u32,
    stone_needed: u32,
) -> (r: Result<(), ErrorCode>)
    requires
        old(store).wf(*cat),
        cat.wf(),
    ensures
        final(store).wf(*cat),
        final(store).next_instance_id == old(store).next_instance_id,
        r is Err ==> *final(store) == *old(store),
        !(cat.has_def_named("Wood"@) && cat.has_def_named("Stone"@)) ==> r == Result::<
            (),
            ErrorCode,
        >::Err(ErrorCode::NotFound),
        cat.has_def_named("Wood"@) && cat.has_def_named("Stone"@) ==> {
            let wood_def = spec_def_id_named(*cat, "Wood"@);
            let stone_def = spec_def_id_named(*cat, "Stone"@);
            &&& wood_def != stone_def
            &&& player_qty_sum(old(store).items@, player_id, wood_def) >= 0
            &&& player_qty_sum(old(store).items@, player_id, stone_def) >= 0
            &&& r is Ok <==> player_qty_sum(old(store).items@, player_id, wood_def) >= wood_needed
                && player_qty_sum(old(store).items@, player_id, stone_def) >= stone_needed
            &&& r is Err ==> r->Err_0 == ErrorCode::InsufficientResources
            &&& r is Ok ==> forall|d: u64|
                #[trigger] qty_sum(final(store).items@, d) == qty_sum(old(store).items@, d) - if d
                    == wood_def {
                    wood_needed as int
                } else {
                    0int
                } - if d == stone_def {
                    stone_needed as int
                } else {
                    0int
                }
            &&& r is Ok ==> forall|p: u64, d: u64|
                #[trigger] player_qty_sum(final(store).items@, p, d) == player_qty_sum(
                    old(store).items@,
                    p,
                    d,
                ) - if p == player_id && d == wood_def {
                    wood_needed as int
                } else {
                    0int
                } - if p == player_id && d == stone_def {
                    stone_needed as int
                } else {
                    0int
                }
        },
{
    let wood_name: String = "Wood".to_owned();
    let stone_name: String = "Stone".to_owned();
    let wood_def_id: u64 = match cat.find_def_id_by_name(&wood_name) {
        None => { return Err(ErrorCode::NotFound); },
        Some(id) => id,
    };
    let stone_def_id: u64 = match cat.find_def_id_by_name(&stone_name) {
        None => { return Err(ErrorCode::NotFound); },
        Some(id) => id,
    };
    proof {
        lemma_def_id_named_unique(*cat, "Wood"@, wood_def_id);
        lemma_def_id_named_unique(*cat, "Stone"@, stone_def_id);
        reveal_strlit("Wood");
        reveal_strlit("Stone");
        assert("Wood"@.len() == 4);
        assert("Stone"@.len() == 5);
        if wood_def_id == stone_def_id {
            let i = cat.def_index(wood_def_id);
            assert(false);
        }
        crate::inventory::lemma_player_qty_sum_le(store.items@, player_id, wood_def_id);
        crate::inventory::lemma_player_qty_sum_le(store.items@, player_id, stone_def_id);
    }
    if !player_has_resource(store, player_id, wood_def_id, wood_needed) {
        return Err(ErrorCode::InsufficientResources);
    }
    if !player_has_resource(store, player_id, stone_def_id, stone_needed) {
        return Err(ErrorCode::InsufficientResources);
    }
    let ghost mid0 = *store;
    if wood_needed > 0 {
        let rr = consume_resource_from_inventory(store, cat, player_id, wood_def_id, wood_needed);
        match rr {
            Ok(()) => {},
            Err(e) => { return Err(e); },
        }
    }
    if stone_needed > 0 {
        let rr = consume_resource_from_inventory(
            store,
            cat,
            player_id,
            stone_def_id,
            stone_needed,
        );
        match rr {
            Ok(()) => {},
            Err(e) => { return Err(e); },
        }
    }
    Ok(())
}

/// Repairs a campfire with a repair-hammer hit: one hit restores 25
/// health (capped at full) and costs the matching shares of 25 wood and
/// 10 stone, consumed from the repairer's inventory.
///
/// Refused for a destroyed campfire, for anyone but the owner once a
/// damage history exists, inside the combat window after damage by
/// another player, and when the resources cannot be paid; every refusal
/// leaves all state unchanged.  A successful repair stamps the hit time
/// and repairer, so successive repairs share the cooldown gate.
pub fn repair_campfire(
    store: &mut ItemStore,
    cat: &ItemCatalog,
    campfires: &mut Vec<Campfire>,
    repairer_id: u64,
    campfire_id: u32,
    timestamp: u64,
) -> (r: Result<AttackResult, ErrorCode>)
    requires
        old(store).wf(*cat),
        cat.wf(),
        campfires_wf(old(campfires)@),
        forall|k: int|
            0 <= k < old(campfires)@.len() ==> (#[trigger] old(campfires)@[k]).max_health >= 1,
    ensures
        final(store).wf(*cat),
        campfires_wf(final(campfires)@),
        final(store).next_instance_id == old(store).next_instance_id,
        r is Err ==> *final(store) == *old(store) && *final(campfires) == *old(campfires),
        !has_campfire(old(campfires)@, campfire_id) ==> r == Result::<
            AttackResult,
            ErrorCode,
        >::Err(ErrorCode::NotFound),
        has_campfire(old(campfires)@, campfire_id) ==> {
            let ci = campfire_index(old(campfires)@, campfire_id);
            let c = old(campfires)@[ci];
            let amount: u32 = if c.max_health < 25 {
                c.max_health
            } else {
                25u32
            };
            &&& c.is_destroyed ==> r == Result::<AttackResult, ErrorCode>::Err(
                ErrorCode::Destroyed,
            )
            &&& !c.is_destroyed && !spec_repair_allowed(
                c.last_hit_time,
                c.last_damaged_by,
                repairer_id,
                c.placed_by,
                timestamp,
            ) ==> r is Err && (r->Err_0 == ErrorCode::NotOwned || r->Err_0 == ErrorCode::Cooldown)
                && (r->Err_0 == ErrorCode::NotOwned <==> repairer_id != c.placed_by)
            &&& !c.is_destroyed && spec_repair_allowed(
                c.last_hit_time,
                c.last_damaged_by,
                repairer_id,
                c.placed_by,
                timestamp,
            ) && cat.has_def_named("Wood"@) && cat.has_def_named("Stone"@) ==> {
                let wood_def = spec_def_id_named(*cat, "Wood"@);
                let stone_def = spec_def_id_named(*cat, "Stone"@);
                let wood_needed = spec_cost_share(25, amount as int, c.max_health as int);
                let stone_needed = spec_cost_share(10, amount as int, c.max_health as int);
                &&& r is Ok <==> player_qty_sum(old(store).items@, repairer_id, wood_def)
                    >= wood_needed && player_qty_sum(old(store).items@, repairer_id, stone_def)
                    >= stone_needed
                &&& r is Err ==> r->Err_0 == ErrorCode::InsufficientResources
                &&& r is Ok ==> {
                    &&& r->Ok_0 == (AttackResult {
                        hit: true,
                        target_type: Some(TargetType::Campfire),
                        resource_granted: None,
                    })
                    &&& final(campfires)@ == old(campfires)@.update(
                        ci,
                        (Campfire {
                            health: if c.health + amount > c.max_health {
                                c.max_health
                            } else {
                                (c.health + amount) as u32
                            },
                            last_hit_time: Some(timestamp),
                            last_damaged_by: Some(repairer_id),
                            ..c
                        }),
                    )
                    &&& player_qty_sum(final(store).items@, repairer_id, wood_def)
                        == player_qty_sum(old(store).items@, repairer_id, wood_def) - wood_needed
                    &&& player_qty_sum(final(store).items@, repairer_id, stone_def)
                        == player_qty_sum(old(store).items@, repairer_id, stone_def) - stone_needed
                    &&& forall|d: u64|
                        d != wood_def && d != stone_def ==> #[trigger] qty_sum(
                            final(store).items@,
                            d,
                        ) == qty_sum(old(store).items@, d)
                }
            }
        },
{
    let ci: usize = match find_campfire_index(campfires, campfire_id) {
        None => { return Err(ErrorCode::NotFound); },
        Some(ci) => ci,
    };
    let c = campfires[ci];
    if c.is_destroyed {
        return Err(ErrorCode::Destroyed);
    }
    match can_structure_be_repaired(
        c.last_hit_time,
        c.last_damaged_by,
        repairer_id,
        c.placed_by,
        timestamp,
    ) {
        Ok(()) => {},
        Err(e) => { return Err(e); },
    }
    let base_amount: u32 = get_repair_amount_for_structure(TargetType::Campfire);
    let amount: u32 = if c.max_health < base_amount {
        c.max_health
    } else {
        base_amount
    };
    let (wood_needed, stone_needed): (u32, u32) = calculate_repair_resources(
        TargetType::Campfire,
        amount,
        c.max_health,
    );
    match consume_repair_resources(store, cat, repairer_id, wood_needed, stone_needed) {
        Ok(()) => {},
        Err(e) => { return Err(e); },
    }
    let healed: u64 = c.health as u64 + amount as u64;
    let new_health: u32 = if healed > c.max_health as u64 {
        c.max_health
    } else {
        healed as u32
    };
    let updated = Campfire {
        id: c.id,
        pos_x: c.pos_x,
        pos_y: c.pos_y,
        placed_by: c.placed_by,
        health: new_health,
        max_health: c.max_health,
        is_destroyed: c.is_destroyed,
        last_hit_time: Some(timestamp),
        last_damaged_by: Some(repairer_id),
        is_burning: c.is_burning,
        next_fuel_consume_at: c.next_fuel_consume_at,
    };
    campfires[ci] = updated;
    proof {
        assert forall|p: int, q: int|
            0 <= p < q < campfires@.len() implies (#[trigger] campfires@[p]).id != (
        #[trigger] campfires@[q]).id by {
            assert(old(campfires)@[p].id != old(campfires)@[q].id);
        }
    }
    Ok(AttackResult { hit: true, target_type: Some(TargetType::Campfire), resource_granted: None })
}

/// Repairs a wooden storage box: one hit restores 75 health (capped at
/// full) and costs the matching share of 100 wood, under the same combat
/// gate as every structure repair.
pub fn repair_wooden_storage_box(
    store: &mut ItemStore,
    cat: &ItemCatalog,
    boxes: &mut Vec<crate::structures::WoodenStorageBox>,
    repairer_id: u64,
    box_id: u32,
    timestamp: u64,
) -> (r: Result<AttackResult, ErrorCode>)
    requires
        old(store).wf(*cat),
        cat.wf(),
        crate::structures::boxes_wf(old(boxes)@),
        forall|k: int| 0 <= k < old(boxes)@.len() ==> (#[trigger] old(boxes)@[k]).max_health >= 1,
    ensures
        final(store).wf(*cat),
        crate::structures::boxes_wf(final(boxes)@),
        final(store).next_instance_id == old(store).next_instance_id,
        r is Err ==> *final(store) == *old(store) && *final(boxes) == *old(boxes),
        !crate::structures::has_box(old(boxes)@, box_id) ==> r == Result::<
            AttackResult,
            ErrorCode,
        >::Err(ErrorCode::NotFound),
        crate::structures::has_box(old(boxes)@, box_id) ==> {
            let ci = crate::structures::box_index(old(boxes)@, box_id);
            let c = old(boxes)@[ci];
            let amount: u32 = if c.max_health < 75 {
                c.max_health
            } else {
                75u32
            };
            &&& c.is_destroyed ==> r == Result::<AttackResult, ErrorCode>::Err(
                ErrorCode::Destroyed,
            )
            &&& !c.is_destroyed && !spec_repair_allowed(
                c.last_hit_time,
                c.last_damaged_by,
                repairer_id,
                c.placed_by,
                timestamp,
            ) ==> r is Err && (r->Err_0 == ErrorCode::NotOwned || r->Err_0 == ErrorCode::Cooldown)
                && (r->Err_0 == ErrorCode::NotOwned <==> repairer_id != c.placed_by)
            &&& !c.is_destroyed && spec_repair_allowed(
                c.last_hit_time,
                c.last_damaged_by,
                repairer_id,
                c.placed_by,
                timestamp,
            ) && cat.has_def_named("Wood"@) && cat.has_def_named("Stone"@) ==> {
                let wood_def = spec_def_id_named(*cat, "Wood"@);
                let wood_needed = spec_cost_share(100, amount as int, c.max_health as int);
                &&& r is Ok <==> player_qty_sum(old(store).items@, repairer_id, wood_def)
                    >= wood_needed
                &&& r is Err ==> r->Err_0 == ErrorCode::InsufficientResources
                &&& r is Ok ==> {
                    &&& r->Ok_0 == (AttackResult {
                        hit: true,
                        target_type: Some(TargetType::WoodenStorageBox),
                        resource_granted: None,
                    })
                    &&& final(boxes)@ == old(boxes)@.update(
                        ci,
                        (crate::structures::WoodenStorageBox {
                            health: if c.health + amount > c.max_health {
                                c.max_health
                            } else {
                                (c.health + amount) as u32
                            },
                            last_hit_time: Some(timestamp),
                            last_damaged_by: Some(repairer_id),
                            ..c
                        }),
                    )
                    &&& player_qty_sum(final(store).items@, repairer_id, wood_def)
                        == player_qty_sum(old(store).items@, repairer_id, wood_def) - wood_needed
                    &&& forall|d: u64|
                        d != wood_def ==> #[trigger] qty_sum(final(store).items@, d) == qty_sum(
                            old(store).items@,
                            d,
                        )
                }
            }
        },
{
    let ci: usize = match crate::structures::find_box_index(boxes, box_id) {
        None => { return Err(ErrorCode::NotFound); },
        Some(ci) => ci,
    };
    let c = boxes[ci];
    if c.is_destroyed {
        return Err(ErrorCode::Destroyed);
    }
    match can_structure_be_repaired(
        c.last_hit_time,
        c.last_damaged_by,
        repairer_id,
        c.placed_by,
        timestamp,
    ) {
        Ok(()) => {},
        Err(e) => { return Err(e); },
    }
    let base_amount: u32 = get_repair_amount_for_structure(TargetType::WoodenStorageBox);
    let amount: u32 = if c.max_health < base_amount {
        c.max_health
    } else {
        base_amount
    };
    let (wood_needed, stone_needed): (u32, u32) = calculate_repair_resources(
        TargetType::WoodenStorageBox,
        amount,
        c.max_health,
    );
    match consume_repair_resources(store, cat, repairer_id, wood_needed, stone_needed) {
        Ok(()) => {},
        Err(e) => { return Err(e); },
    }
    let healed: u64 = c.health as u64 + amount as u64;
    let new_health: u32 = if healed > c.max_health as u64 {
        c.max_health
    } else {
        healed as u32
    };
    let updated = crate::structures::WoodenStorageBox {
        id: c.id,
        pos_x: c.pos_x,
        pos_y: c.pos_y,
        placed_by: c.placed_by,
        health: new_health,
        max_health: c.max_health,
        is_destroyed: c.is_destroyed,
        last_hit_time: Some(timestamp),
        last_damaged_by: Some(repairer_id),
    };
    boxes[ci] = updated;
    proof {
        assert forall|p: int, q: int|
            0 <= p < q < boxes@.len() implies (#[trigger] boxes@[p]).id != (
        #[trigger] boxes@[q]).id by {
            assert(old(boxes)@[p].id != old(boxes)@[q].id);
        }
    }
    Ok(
        AttackResult {
            hit: true,
            target_type: Some(TargetType::WoodenStorageBox),
            resource_granted: None,
        },
    )
}

/// Repairs a shelter: one hit restores 5000 health (capped at full) and
/// costs the matching share of 3200 wood, under the same combat gate as
/// every structure repair.
pub fn repair_shelter(
    store: &mut ItemStore,
    cat: &ItemCatalog,
    shelters: &mut Vec<crate::structures::Shelter>,
    repairer_id: u64,
    shelter_id: u32,
    timestamp: u64,
) -> (r: Result<AttackResult, ErrorCode>)
    requires
        old(store).wf(*cat),
        cat.wf(),
        crate::structures::shelters_wf(old(shelters)@),
        forall|k: int|
            0 <= k < old(shelters)@.len() ==> (#[trigger] old(shelters)@[k]).max_health >= 1,
    ensures
        final(store).wf(*cat),
        crate::structures::shelters_wf(final(shelters)@),
        final(store).next_instance_id == old(store).next_instance_id,
        r is Err ==> *final(store) == *old(store) && *final(shelters) == *old(shelters),
        !crate::structures::has_shelter(old(shelters)@, shelter_id) ==> r == Result::<
            AttackResult,
            ErrorCode,
        >::Err(ErrorCode::NotFound),
        crate::structures::has_shelter(old(shelters)@, shelter_id) ==> {
            let ci = crate::structures::shelter_index(old(shelters)@, shelter_id);
            let c = old(shelters)@[ci];
            let amount: u32 = if c.max_health < 5000 {
                c.max_health
            } else {
                5000u32
            };
            &&& c.is_destroyed ==> r == Result::<AttackResult, ErrorCode>::Err(
                ErrorCode::Destroyed,
            )
            &&& !c.is_destroyed && !spec_repair_allowed(
                c.last_hit_time,
                c.last_damaged_by,
                repairer_id,
                c.placed_by,
                timestamp,
            ) ==> r is Err && (r->Err_0 == ErrorCode::NotOwned || r->Err_0 == ErrorCode::Cooldown)
                && (r->Err_0 == ErrorCode::NotOwned <==> repairer_id != c.placed_by)
            &&& !c.is_destroyed && spec_repair_allowed(
                c.last_hit_time,
                c.last_damaged_by,
                repairer_id,
                c.placed_by,
                timestamp,
            ) && cat.has_def_named("Wood"@) && cat.has_def_named("Stone"@) ==> {
                let wood_def = spec_def_id_named(*cat, "Wood"@);
                let wood_needed = spec_cost_share(3200, amount as int, c.max_health as int);
                &&& r is Ok <==> player_qty_sum(old(store).items@, repairer_id, wood_def)
                    >= wood_needed
                &&& r is Err ==> r->Err_0 == ErrorCode::InsufficientResources
                &&& r is Ok ==> {
                    &&& r->Ok_0 == (AttackResult {
                        hit: true,
                        target_type: Some(TargetType::Shelter),
                        resource_granted: None,
                    })
                    &&& final(shelters)@ == old(shelters)@.update(
                        ci,
                        (crate::structures::Shelter {
                            health: if c.health + amount > c.max_health {
                                c.max_health
                            } else {
                                (c.health + amount) as u32
                            },
                            last_hit_time: Some(timestamp),
                            last_damaged_by: Some(repairer_id),
                            ..c
                        }),
                    )
                    &&& player_qty_sum(final(store).items@, repairer_id, wood_def)
                        == player_qty_sum(old(store).items@, repairer_id, wood_def) - wood_needed
                    &&& forall|d: u64|
                        d != wood_def ==> #[trigger] qty_sum(final(store).items@, d) == qty_sum(
                            old(store).items@,
                            d,
                        )
                }
            }
        },
{
    let ci: usize = match crate::structures::find_shelter_index(shelters, shelter_id) {
        None => { return Err(ErrorCode::NotFound); },
        Some(ci) => ci,
    };
    let c = shelters[ci];
    if c.is_destroyed {
        return Err(ErrorCode::Destroyed);
    }
    match can_structure_be_repaired(
        c.last_hit_time,
        c.last_damaged_by,
        repairer_id,
        c.placed_by,
        timestamp,
    ) {
        Ok(()) => {},
        Err(e) => { return Err(e); },
    }
    let base_amount: u32 = get_repair_amount_for_structure(TargetType::Shelter);
    let amount: u32 = if c.max_health < base_amount {
        c.max_health
    } else {
        base_amount
    };
    let (wood_needed, stone_needed): (u32, u32) = calculate_repair_resources(
        TargetType::Shelter,
        amount,
        c.max_health,
    );
    match consume_repair_resources(store, cat, repairer_id, wood_needed, stone_needed) {
        Ok(()) => {},
        Err(e) => { return Err(e); },
    }
    let healed: u64 = c.health as u64 + amount as u64;
    let new_health: u32 = if healed > c.max_health as u64 {
        c.max_health
    } else {
        healed as u32
    };
    let updated = crate::structures::Shelter {
        id: c.id,
        pos_x: c.pos_x,
        pos_y: c.pos_y,
        placed_by: c.placed_by,
        health: new_health,
        max_health: c.max_health,
        is_destroyed: c.is_destroyed,
        last_hit_time: Some(timestamp),
        last_damaged_by: Some(repairer_id),
    };
    shelters[ci] = updated;
    proof {
        assert forall|p: int, q: int|
            0 <= p < q < shelters@.len() implies (#[trigger] shelters@[p]).id != (
        #[trigger] shelters@[q]).id by {
            assert(old(shelters)@[p].id != old(shelters)@[q].id);
        }
    }
    Ok(AttackResult { hit: true, target_type: Some(TargetType::Shelter), resource_granted: None })
}

/// The id of the unique definition with this name.
pub open spec fn spec_def_id_named(cat: ItemCatalog, name: Seq<char>) -> u64 {
    cat.defs@[choose|i: int| 0 <= i < cat.defs@.len() && (#[trigger] cat.defs@[i]).name@ == name].id
}

/// A definition id found by name is the id the catalog's name key gives.
pub proof fn lemma_def_id_named_unique(cat: ItemCatalog, name: Seq<char>, id: u64)
    requires
        cat.wf(),
        cat.has_def(id),
        cat.def_of(id).name@ == name,
    ensures
        spec_def_id_named(cat, name) == id,
{
    let i = choose|i: int| 0 <= i < cat.defs@.len() && (#[trigger] cat.defs@[i]).name@ == name;
    let j = cat.def_index(id);
    assert(cat.defs@[j].id == id);
    assert(cat.defs@[j].name@ == name);
    if i != j {
        assert(cat.defs@[i].name@ != cat.defs@[j].name@);
        assert(false);
    }
}

} // verus!
