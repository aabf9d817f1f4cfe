//! Equipping armor and clearing equipment references.
//!
//! Armor occupancy is the armor row's own `Equipment` location; the
//! per-player [`ActiveEquipment`] row only tracks the main-hand item and
//! its swing timer.  Equipping into an occupied body slot first unequips
//! the occupant into the player's first empty inventory slot, and the
//! whole operation fails untouched when the inventory is full.

use vstd::prelude::*;

use crate::errors::ErrorCode;
use crate::items::{
    ItemCatalog, ItemCategory, ItemLocation, EquipmentSlot, InventoryItem, ContainerType,
    INVENTORY_SLOT_COUNT,
};
use crate::inventory::{
    ItemStore, qty_sum, same_totals, spec_relocated, lemma_wf_after_row_update,
    lemma_qty_sum_update,
};
use crate::structures::{
    ActiveEquipment, Campfire, campfires_wf, reevaluate_campfire_burning, spec_campfire_has_fuel,
};

verus! {

/// Equipment-row player ids are unique keys.
pub open spec fn equips_wf(s: Seq<ActiveEquipment>) -> bool {
    forall|i: int, j: int|
        0 <= i < j < s.len() ==> (#[trigger] s[i]).player_identity != (
        #[trigger] s[j]).player_identity
}

/// Whether an equipment row for this player exists.
pub open spec fn has_equip(s: Seq<ActiveEquipment>, player: u64) -> bool {
    exists|i: int| 0 <= i < s.len() && (#[trigger] s[i]).player_identity == player
}

/// The index of the equipment row for this player.
pub open spec fn equip_index(s: Seq<ActiveEquipment>, player: u64) -> int {
    choose|i: int| 0 <= i < s.len() && (#[trigger] s[i]).player_identity == player
}

/// Finds the index of the equipment row for this player.
pub fn find_equip_index(equips: &Vec<ActiveEquipment>, player: u64) -> (r: Option<usize>)
    requires
        equips_wf(equips@),
    ensures
        r is Some <==> has_equip(equips@, player),
        r is Some ==> r->Some_0 < equips@.len() && r->Some_0 == equip_index(equips@, player)
            && equips@[r->Some_0 as int].player_identity == player,
{
    let n: usize = equips.len();
    let mut i: usize = 0;
    while i < n
        invariant
            n == equips@.len(),
            i <= n,
            equips_wf(equips@),
            forall|k: int| 0 <= k < i ==> (#[trigger] equips@[k]).player_identity != player,
        decreases n - i,
    {
        if equips[i].player_identity == player {
            proof {
                let j = equip_index(equips@, player);
                if j != i as int {
                    assert(equips@[j].player_identity == player);
                    assert(false);
                }
            }
            return Some(i);
        }
        i = i + 1;
    }
    None
}

/// Clears the main-hand reference and swing timer of the player's
/// equipment row wherever it names this item instance.  Armor worn on the
/// body is tracked by the rows' own locations, so nothing else changes.
pub fn clear_specific_item_from_equipment_slots(
    equips: &mut Vec<ActiveEquipment>,
    player_id: u64,
    item_instance_id_to_clear: u64,
) -> (cleared: bool)
    requires
        equips_wf(old(equips)@),
    ensures
        equips_wf(final(equips)@),
        final(equips)@.len() == old(equips)@.len(),
        forall|k: int|
            0 <= k < old(equips)@.len() && (#[trigger] old(equips)@[k]).player_identity
                != player_id ==> final(equips)@[k] == old(equips)@[k],
        has_equip(old(equips)@, player_id) ==> {
            let i = equip_index(old(equips)@, player_id);
            let row = old(equips)@[i];
            &&& row.equipped_item_instance_id == Some(item_instance_id_to_clear) ==> cleared
                && final(equips)@[i] == (ActiveEquipment {
                player_identity: row.player_identity,
                equipped_item_instance_id: None,
                equipped_item_def_id: None,
                swing_start_time_ms: 0,
            })
            &&& row.equipped_item_instance_id != Some(item_instance_id_to_clear) ==> !cleared
                && final(equips)@[i] == row
        },
        !has_equip(old(equips)@, player_id) ==> *final(equips) == *old(equips) && !cleared,
{
    let i: usize = match find_equip_index(equips, player_id) {
        None => { return false; },
        Some(i) => i,
    };
    let row = equips[i];
    if row.equipped_item_instance_id == Some(item_instance_id_to_clear) {
        let cleared_row = ActiveEquipment {
            player_identity: row.player_identity,
            equipped_item_instance_id: None,
            equipped_item_def_id: None,
            swing_start_time_ms: 0,
        };
        equips[i] = cleared_row;
        proof {
            assert forall|p: int, q: int|
                0 <= p < q < equips@.len() implies (#[trigger] equips@[p]).player_identity != (
            #[trigger] equips@[q]).player_identity by {
                assert(old(equips)@[p].player_identity != old(equips)@[q].player_identity);
            }
        }
        true
    } else {
        false
    }
}

/// The body slot named by a drag target, if the name is one of the six.
pub open spec fn spec_equipment_slot_name(name: Seq<char>) -> Option<EquipmentSlot> {
    if name == "Head"@ {
        Some(EquipmentSlot::Head)
    } else if name == "Chest"@ {
        Some(EquipmentSlot::Chest)
    } else if name == "Legs"@ {
        Some(EquipmentSlot::Legs)
    } else if name == "Feet"@ {
        Some(EquipmentSlot::Feet)
    } else if name == "Hands"@ {
        Some(EquipmentSlot::Hands)
    } else if name == "Back"@ {
        Some(EquipmentSlot::Back)
    } else {
        None
    }
}

/// Resolves a textual body-slot name to its [`EquipmentSlot`].
pub fn parse_equipment_slot_name(name: &String) -> (r: Option<EquipmentSlot>)
    ensures
        r == spec_equipment_slot_name(name@),
{
    proof {
        reveal_strlit("Head");
        reveal_strlit("Chest");
        reveal_strlit("Legs");
        reveal_strlit("Feet");
        reveal_strlit("Hands");
        reveal_strlit("Back");
        assert("Head"@.len() == 4);
        assert("Chest"@.len() == 5);
        assert("Legs"@.len() == 4);
        assert("Feet"@.len() == 4);
        assert("Hands"@.len() == 5);
        assert("Back"@.len() == 4);
        assert("Head"@[0] == 'H');
        assert("Legs"@[0] == 'L');
        assert("Feet"@[0] == 'F');
        assert("Back"@[0] == 'B');
        assert("Chest"@[0] == 'C');
        assert("Hands"@[0] == 'H');
        assert("Chest"@[1] == 'h');
        assert("Hands"@[1] == 'a');
    }
    if *name == "Head".to_owned() {
        Some(EquipmentSlot::Head)
    } else if *name == "Chest".to_owned() {
        Some(EquipmentSlot::Chest)
    } else if *name == "Legs".to_owned() {
        Some(EquipmentSlot::Legs)
    } else if *name == "Feet".to_owned() {
        Some(EquipmentSlot::Feet)
    } else if *name == "Hands".to_owned() {
        Some(EquipmentSlot::Hands)
    } else if *name == "Back".to_owned() {
        Some(EquipmentSlot::Back)
    } else {
        None
    }
}

/// Equips the armor item `item_instance_id`, which must sit in the
/// caller's inventory or hotbar, into the body slot its definition names.
///
/// An occupant of that body slot is first moved to the caller's first
/// empty inventory slot; with no free slot the whole operation fails with
/// `InventoryFull` and both items stay where they were.
pub fn equip_armor_from_inventory(
    store: &mut ItemStore,
    cat: &ItemCatalog,
    actor: u64,
    item_instance_id: u64,
) -> (r: Result<(), ErrorCode>)
    requires
        old(store).wf(*cat),
        cat.wf(),
    ensures
        final(store).wf(*cat),
        final(store).next_instance_id == old(store).next_instance_id,
        same_totals(final(store).items@, old(store).items@),
        r is Err ==> *final(store) == *old(store),
        r == Result::<(), ErrorCode>::Err(ErrorCode::NotFound) <==> !old(store).has_instance(
            item_instance_id,
        ),
        old(store).has_instance(item_instance_id) ==> {
            let i = old(store).index_of(item_instance_id);
            let item = old(store).items@[i];
            let def = cat.def_of(item.item_def_id);
            &&& item.owner_identity != actor ==> r == Result::<(), ErrorCode>::Err(
                ErrorCode::NotOwned,
            )
            &&& item.owner_identity == actor && !(def.category == ItemCategory::Armor
                && def.equipment_slot is Some && (item.location is PlayerInventory
                || item.location is PlayerHotbar)) ==> r == Result::<(), ErrorCode>::Err(
                ErrorCode::InvalidSlot,
            )
            &&& item.owner_identity == actor && def.category == ItemCategory::Armor
                && def.equipment_slot is Some && (item.location is PlayerInventory
                || item.location is PlayerHotbar) ==> {
                let target = (ItemLocation::Equipment {
                    owner_identity: actor,
                    slot: def.equipment_slot->Some_0,
                });
                &&& !old(store).location_occupied(target) ==> r is Ok && final(store).items@ == old(
                    store,
                ).items@.update(i, spec_relocated(item, target, actor))
                &&& old(store).location_occupied(target) ==> {
                    let j = old(store).index_at(target);
                    let occ = old(store).items@[j];
                    &&& r is Err <==> forall|s: u16|
                        s < INVENTORY_SLOT_COUNT ==> #[trigger] old(store).location_occupied(
                            ItemLocation::PlayerInventory { owner_identity: actor, slot: s },
                        )
                    &&& r is Err ==> r == Result::<(), ErrorCode>::Err(ErrorCode::InventoryFull)
                    &&& r is Ok ==> exists|e: u16|
                        e < INVENTORY_SLOT_COUNT && !#[trigger] old(store).location_occupied(
                            ItemLocation::PlayerInventory { owner_identity: actor, slot: e },
                        ) && (forall|s: u16|
                            s < e ==> #[trigger] old(store).location_occupied(
                                ItemLocation::PlayerInventory { owner_identity: actor, slot: s },
                            )) && final(store).items@ == old(store).items@.update(
                            j,
                            spec_relocated(
                                occ,
                                ItemLocation::PlayerInventory { owner_identity: actor, slot: e },
                                actor,
                            ),
                        ).update(i, spec_relocated(item, target, actor))
                }
            }
        },
{
    let ghost pre = *store;
    let i: usize = match store.find_index(item_instance_id) {
        None => { return Err(ErrorCode::NotFound); },
        Some(i) => i,
    };
    proof {
        assert(pre.index_of(item_instance_id) == i as int);
        assert(pre.row_wf(*cat, i as int));
    }
    let item = store.items[i];
    if item.owner_identity != actor {
        return Err(ErrorCode::NotOwned);
    }
    let (is_armor, slot_opt): (bool, Option<EquipmentSlot>) = match cat.find_def(
        item.item_def_id,
    ) {
        Some(def) => (matches!(def.category, ItemCategory::Armor), def.equipment_slot),
        None => { return Err(ErrorCode::Internal); },
    };
    let in_player_slots: bool = match item.location {
        ItemLocation::PlayerInventory { .. } => true,
        ItemLocation::PlayerHotbar { .. } => true,
        _ => false,
    };
    if !is_armor || !in_player_slots {
        return Err(ErrorCode::InvalidSlot);
    }
    let slot: EquipmentSlot = match slot_opt {
        Some(s) => s,
        None => { return Err(ErrorCode::InvalidSlot); },
    };
    let target = ItemLocation::Equipment { owner_identity: actor, slot };
    let j_opt = store.find_index_at(target);
    match j_opt {
        None => {
            let item2 = InventoryItem {
                instance_id: item.instance_id,
                owner_identity: actor,
                item_def_id: item.item_def_id,
                quantity: item.quantity,
                location: target,
            };
            store.items[i] = item2;
            proof {
                assert forall|k: int|
                    0 <= k < pre.items@.len() && k != i implies (#[trigger] pre.items@[k]).location
                    != target by {
                    if pre.items@[k].location == target {
                        assert(pre.location_occupied(target));
                    }
                }
                lemma_wf_after_row_update(pre, *store, *cat, i as int, item2);
                assert forall|d: u64| #[trigger] qty_sum(store.items@, d) == qty_sum(
                    pre.items@,
                    d,
                ) by {
                    lemma_qty_sum_update(pre.items@, i as int, item2, d);
                }
            }
            Ok(())
        },
        Some(j) => {
            proof {
                assert(pre.location_occupied(target));
                if pre.index_at(target) != j as int {
                    let j2 = pre.index_at(target);
                    assert(pre.items@[j2].location == target);
                    assert(false);
                }
                assert(pre.row_wf(*cat, j as int));
                if i == j {
                    assert(pre.items@[i as int].location == target);
                    assert(false);
                }
            }
            let empty_slot: u16 = match store.find_first_empty_inventory_slot(actor) {
                None => { return Err(ErrorCode::InventoryFull); },
                Some(e) => e,
            };
            let occ = store.items[j];
            let inv_loc = ItemLocation::PlayerInventory { owner_identity: actor, slot: empty_slot };
            let occ2 = InventoryItem {
                instance_id: occ.instance_id,
                owner_identity: actor,
                item_def_id: occ.item_def_id,
                quantity: occ.quantity,
                location: inv_loc,
            };
            store.items[j] = occ2;
            let ghost mid = *store;
            let item2 = InventoryItem {
                instance_id: item.instance_id,
                owner_identity: actor,
                item_def_id: item.item_def_id,
                quantity: item.quantity,
                location: target,
            };
            store.items[i] = item2;
            proof {
                assert forall|k: int|
                    0 <= k < pre.items@.len() && k != j implies (#[trigger] pre.items@[k]).location
                    != inv_loc by {
                    if pre.items@[k].location == inv_loc {
                        assert(pre.location_occupied(inv_loc));
                    }
                }
                assert(occ.owner_identity == actor);
                lemma_wf_after_row_update(pre, mid, *cat, j as int, occ2);
                assert(mid.items@[i as int] == pre.items@[i as int]);
                assert(mid.row_wf(*cat, i as int));
                assert forall|k: int|
                    0 <= k < mid.items@.len() && k != i implies (#[trigger] mid.items@[k]).location
                    != target by {
                    if k == j as int {
                        assert(mid.items@[k] == occ2);
                    } else {
                        assert(mid.items@[k] == pre.items@[k]);
                        assert(pre.items@[j as int].location == target);
                        if pre.items@[k].location == target {
                            assert(false);
                        }
                    }
                }
                lemma_wf_after_row_update(mid, *store, *cat, i as int, item2);
                assert forall|d: u64| #[trigger] qty_sum(store.items@, d) == qty_sum(
                    pre.items@,
                    d,
                ) by {
                    lemma_qty_sum_update(pre.items@, j as int, occ2, d);
                    lemma_qty_sum_update(mid.items@, i as int, item2, d);
                    assert(mid.items@[i as int] == pre.items@[i as int]);
                }
            }
            Ok(())
        },
    }
}

/// Equips an armor item dragged onto the named body slot.
///
/// The slot name must be one of the six body slots and must match the
/// item's own definition.  The item may come from the caller's slots, a
/// freshly split stack, or a campfire's fuel slots; ownership is checked
/// only for player-bound sources, and an emptied campfire is re-evaluated
/// so a fire without fuel goes out.  An occupant of the body slot is
/// unequipped into the first empty inventory slot, and the operation
/// fails whole with `InventoryFull` when none is free.
pub fn equip_armor_from_drag(
    store: &mut ItemStore,
    cat: &ItemCatalog,
    campfires: &mut Vec<Campfire>,
    actor: u64,
    item_instance_id: u64,
    target_slot_name: String,
) -> (r: Result<(), ErrorCode>)
    requires
        old(store).wf(*cat),
        cat.wf(),
        campfires_wf(old(campfires)@),
    ensures
        final(store).wf(*cat),
        campfires_wf(final(campfires)@),
        final(campfires)@.len() == old(campfires)@.len(),
        forall|k: int|
            0 <= k < old(campfires)@.len() ==> final(campfires)@[k] == old(campfires)@[k]
                || final(campfires)@[k] == (Campfire {
                is_burning: false,
                next_fuel_consume_at: None,
                ..#[trigger] old(campfires)@[k]
            }),
        final(store).next_instance_id == old(store).next_instance_id,
        same_totals(final(store).items@, old(store).items@),
        r is Err ==> *final(store) == *old(store) && *final(campfires) == *old(campfires),
        spec_equipment_slot_name(target_slot_name@) is None ==> r == Result::<(), ErrorCode>::Err(
            ErrorCode::InvalidSlot,
        ),
        spec_equipment_slot_name(target_slot_name@) is Some && !old(store).has_instance(
            item_instance_id,
        ) ==> r == Result::<(), ErrorCode>::Err(ErrorCode::NotFound),
        spec_equipment_slot_name(target_slot_name@) is Some && old(store).has_instance(
            item_instance_id,
        ) ==> {
            let want = spec_equipment_slot_name(target_slot_name@)->Some_0;
            let i = old(store).index_of(item_instance_id);
            let item = old(store).items@[i];
            let def = cat.def_of(item.item_def_id);
            let target = (ItemLocation::Equipment { owner_identity: actor, slot: want });
            &&& (item.location is PlayerInventory || item.location is PlayerHotbar)
                && item.owner_identity != actor ==> r == Result::<(), ErrorCode>::Err(
                ErrorCode::NotOwned,
            )
            &&& item.location is Ground ==> r == Result::<(), ErrorCode>::Err(
                ErrorCode::InvalidSlot,
            )
            &&& item.location == target ==> r is Ok && final(store).items@ == old(store).items@
            &&& !(item.location is Ground) && !((item.location is PlayerInventory
                || item.location is PlayerHotbar) && item.owner_identity != actor) && !(def.category
                == ItemCategory::Armor && def.equipment_slot == Some(want)) ==> r == Result::<
                (),
                ErrorCode,
            >::Err(ErrorCode::InvalidSlot)
            &&& !(item.location is Ground) && !((item.location is PlayerInventory
                || item.location is PlayerHotbar) && item.owner_identity != actor) && def.category
                == ItemCategory::Armor && def.equipment_slot == Some(want) && item.location
                != target ==> {
                &&& !old(store).location_occupied(target) ==> r is Ok && final(store).items@
                    == old(store).items@.update(i, spec_relocated(item, target, actor))
                &&& old(store).location_occupied(target) ==> {
                    let j = old(store).index_at(target);
                    let occ = old(store).items@[j];
                    &&& r is Err <==> forall|s: u16|
                        s < INVENTORY_SLOT_COUNT ==> #[trigger] old(store).location_occupied(
                            ItemLocation::PlayerInventory { owner_identity: actor, slot: s },
                        )
                    &&& r is Err ==> r == Result::<(), ErrorCode>::Err(ErrorCode::InventoryFull)
                    &&& r is Ok ==> exists|e: u16|
                        e < INVENTORY_SLOT_COUNT && !#[trigger] old(store).location_occupied(
                            ItemLocation::PlayerInventory { owner_identity: actor, slot: e },
                        ) && (forall|s: u16|
                            s < e ==> #[trigger] old(store).location_occupied(
                                ItemLocation::PlayerInventory { owner_identity: actor, slot: s },
                            )) && final(store).items@ == old(store).items@.update(
                            j,
                            spec_relocated(
                                occ,
                                ItemLocation::PlayerInventory { owner_identity: actor, slot: e },
                                actor,
                            ),
                        ).update(i, spec_relocated(item, target, actor))
                }
            }
            &&& r is Ok ==> forall|k: int|
                0 <= k < old(campfires)@.len() ==> #[trigger] final(campfires)@[k] == (
                if crate::structures::spec_fuel_source(item.location) == Some(
                    old(campfires)@[k].id as u64,
                ) {
                    crate::structures::spec_reevaluated_campfire(
                        *final(store),
                        old(campfires)@[k],
                    )
                } else {
                    old(campfires)@[k]
                })
        },
{
    let ghost pre = *store;
    let want: EquipmentSlot = match parse_equipment_slot_name(&target_slot_name) {
        None => { return Err(ErrorCode::InvalidSlot); },
        Some(w) => w,
    };
    let i: usize = match store.find_index(item_instance_id) {
        None => { return Err(ErrorCode::NotFound); },
        Some(i) => i,
    };
    proof {
        assert(pre.index_of(item_instance_id) == i as int);
        assert(pre.row_wf(*cat, i as int));
    }
    let item = store.items[i];
    let player_bound: bool = match item.location {
        ItemLocation::PlayerInventory { .. } => true,
        ItemLocation::PlayerHotbar { .. } => true,
        _ => false,
    };
    if player_bound && item.owner_identity != actor {
        return Err(ErrorCode::NotOwned);
    }
    let grounded: bool = match item.location {
        ItemLocation::Ground { .. } => true,
        _ => false,
    };
    if grounded {
        return Err(ErrorCode::InvalidSlot);
    }
    let target = ItemLocation::Equipment { owner_identity: actor, slot: want };
    if item.location == target {
        return Ok(());
    }
    let (is_armor, slot_opt): (bool, Option<EquipmentSlot>) = match cat.find_def(
        item.item_def_id,
    ) {
        Some(def) => (matches!(def.category, ItemCategory::Armor), def.equipment_slot),
        None => { return Err(ErrorCode::Internal); },
    };
    let slot_matches: bool = match slot_opt {
        Some(s) => s == want,
        None => false,
    };
    if !is_armor || !slot_matches {
        return Err(ErrorCode::InvalidSlot);
    }
    // Unequip any occupant of the body slot into the first free inventory
    // slot, then take the slot.
    let j_opt = store.find_index_at(target);
    match j_opt {
        None => {
            let item2 = InventoryItem {
                instance_id: item.instance_id,
                owner_identity: actor,
                item_def_id: item.item_def_id,
                quantity: item.quantity,
                location: target,
            };
            store.items[i] = item2;
            proof {
                assert forall|k: int|
                    0 <= k < pre.items@.len() && k != i implies (#[trigger] pre.items@[k]).location
                    != target by {
                    if pre.items@[k].location == target {
                        assert(pre.location_occupied(target));
                    }
                }
                lemma_wf_after_row_update(pre, *store, *cat, i as int, item2);
                assert forall|d: u64| #[trigger] qty_sum(store.items@, d) == qty_sum(
                    pre.items@,
                    d,
                ) by {
                    lemma_qty_sum_update(pre.items@, i as int, item2, d);
                }
                assert(store.items@ == pre.items@.update(
                    i as int,
                    spec_relocated(item, target, actor),
                ));
            }
        },
        Some(j) => {
            proof {
                assert(pre.location_occupied(target));
                if pre.index_at(target) != j as int {
                    let j2 = pre.index_at(target);
                    assert(pre.items@[j2].location == target);
                    assert(false);
                }
                assert(pre.row_wf(*cat, j as int));
                if i == j {
                    assert(pre.items@[i as int].location == target);
                    assert(false);
                }
            }
            let empty_slot: u16 = match store.find_first_empty_inventory_slot(actor) {
                None => { return Err(ErrorCode::InventoryFull); },
                Some(e) => e,
            };
            let occ = store.items[j];
            let inv_loc = ItemLocation::PlayerInventory { owner_identity: actor, slot: empty_slot };
            let occ2 = InventoryItem {
                instance_id: occ.instance_id,
                owner_identity: actor,
                item_def_id: occ.item_def_id,
                quantity: occ.quantity,
                location: inv_loc,
            };
            store.items[j] = occ2;
            let ghost mid = *store;
            let item2 = InventoryItem {
                instance_id: item.instance_id,
                owner_identity: actor,
                item_def_id: item.item_def_id,
                quantity: item.quantity,
                location: target,
            };
            store.items[i] = item2;
            proof {
                assert forall|k: int|
                    0 <= k < pre.items@.len() && k != j implies (#[trigger] pre.items@[k]).location
                    != inv_loc by {
                    if pre.items@[k].location == inv_loc {
                        assert(pre.location_occupied(inv_loc));
                    }
                }
                assert(occ.owner_identity == actor);
                lemma_wf_after_row_update(pre, mid, *cat, j as int, occ2);
                assert(mid.items@[i as int] == pre.items@[i as int]);
                assert(mid.row_wf(*cat, i as int));
                assert forall|k: int|
                    0 <= k < mid.items@.len() && k != i implies (#[trigger] mid.items@[k]).location
                    != target by {
                    if k == j as int {
                        assert(mid.items@[k] == occ2);
                    } else {
                        assert(mid.items@[k] == pre.items@[k]);
                        assert(pre.items@[j as int].location == target);
                        if pre.items@[k].location == target {
                            assert(false);
                        }
                    }
                }
                lemma_wf_after_row_update(mid, *store, *cat, i as int, item2);
                assert forall|d: u64| #[trigger] qty_sum(store.items@, d) == qty_sum(
                    pre.items@,
                    d,
                ) by {
                    lemma_qty_sum_update(pre.items@, j as int, occ2, d);
                    lemma_qty_sum_update(mid.items@, i as int, item2, d);
                    assert(mid.items@[i as int] == pre.items@[i as int]);
                }
                assert(inv_loc == crate::inventory::spec_player_inv_slot(actor, empty_slot));
                assert(store.items@ == pre.items@.update(
                    j as int,
                    spec_relocated(pre.items@[j as int], crate::inventory::spec_player_inv_slot(actor, empty_slot), actor),
                ).update(i as int, spec_relocated(item, target, actor)));
            }
        },
    }
    // The item may have been campfire fuel: the fire goes out if its last
    // fuel just left.
    match item.location {
        ItemLocation::Container { container_type: ContainerType::Campfire, container_id, .. } => {
            if container_id <= u32::MAX as u64 {
                match crate::structures::find_campfire_index(campfires, container_id as u32) {
                    Some(ci) => {
                        let mut fire = campfires[ci];
                        reevaluate_campfire_burning(store, &mut fire);
                        campfires[ci] = fire;
                        proof {
                            assert forall|p: int, q: int|
                                0 <= p < q < campfires@.len() implies (
                            #[trigger] campfires@[p]).id != (#[trigger] campfires@[q]).id by {
                                assert(old(campfires)@[p].id != old(campfires)@[q].id);
                            }
                        }
                    },
                    None => {},
                }
            }
        },
        _ => {},
    }
    Ok(())
}

} // verus!
