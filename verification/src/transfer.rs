//! Compound item transfers: split-and-place in one call, and dropping
//! stacks to the ground.
//!
//! A split that cannot be placed is rolled back whole, so an error never
//! leaves an unplaced orphan stack behind.

use vstd::prelude::*;

use crate::errors::ErrorCode;
use crate::items::{ItemCatalog, ItemLocation, ContainerType, InventoryItem, HOTBAR_SLOT_COUNT, INVENTORY_SLOT_COUNT, CAMPFIRE_FUEL_SLOT_COUNT};
use crate::inventory::{
    ItemStore, qty_sum, same_totals, spec_relocated, spec_with_quantity,
    move_item_to_player_slot, spec_move_to_player_slot, lemma_wf_after_row_update,
    lemma_qty_sum_update, lemma_qty_sum_push, lemma_wf_after_push,
};
use crate::structures::{Campfire, campfires_wf, has_campfire, spec_fuel_slot, spec_fuel_source, spec_reevaluated_campfire, reevaluate_campfire_burning, ActiveEquipment};
use crate::equipment::{equips_wf, has_equip, equip_index, clear_specific_item_from_equipment_slots};
use crate::campfire::{add_fuel_to_campfire, clear_item_from_campfire_fuel_slots, fuel_slot_location};
use crate::player::{Player, players_wf, has_player, player_index, find_player_index, calculate_drop_position, spec_drop_position};

verus! {

/// The ground location at a pixel position.
pub open spec fn spec_ground_loc(x: u32, y: u32) -> ItemLocation {
    ItemLocation::Ground { x, y }
}

/// The compound target a split-and-move call names.
pub open spec fn spec_compound_target(
    actor: u64,
    kind: Seq<char>,
    index: u32,
    campfire_id: Option<u32>,
) -> Option<ItemLocation> {
    if kind == "inventory"@ {
        if index < INVENTORY_SLOT_COUNT as u32 {
            Some(ItemLocation::PlayerInventory { owner_identity: actor, slot: index as u16 })
        } else {
            None
        }
    } else if kind == "hotbar"@ {
        if index < HOTBAR_SLOT_COUNT as u32 {
            Some(ItemLocation::PlayerHotbar { owner_identity: actor, slot: index as u8 })
        } else {
            None
        }
    } else if kind == "campfire_fuel"@ {
        if index < CAMPFIRE_FUEL_SLOT_COUNT as u32 && campfire_id is Some {
            Some(spec_fuel_slot(campfire_id->Some_0, index as u8))
        } else {
            None
        }
    } else {
        None
    }
}

/// Resolves the textual target of a split-and-move call.
pub fn resolve_compound_target(
    actor: u64,
    kind: &String,
    index: u32,
    campfire_id: Option<u32>,
) -> (r: Option<ItemLocation>)
    ensures
        r == spec_compound_target(actor, kind@, index, campfire_id),
{
    proof {
        reveal_strlit("inventory");
        reveal_strlit("hotbar");
        reveal_strlit("campfire_fuel");
        assert("inventory"@.len() == 9);
        assert("hotbar"@.len() == 6);
        assert("campfire_fuel"@.len() == 13);
    }
    if *kind == "inventory".to_owned() {
        if index < INVENTORY_SLOT_COUNT as u32 {
            Some(ItemLocation::PlayerInventory { owner_identity: actor, slot: index as u16 })
        } else {
            None
        }
    } else if *kind == "hotbar".to_owned() {
        if index < HOTBAR_SLOT_COUNT as u32 {
            Some(ItemLocation::PlayerHotbar { owner_identity: actor, slot: index as u8 })
        } else {
            None
        }
    } else if *kind == "campfire_fuel".to_owned() {
        match campfire_id {
            Some(cid) if index < CAMPFIRE_FUEL_SLOT_COUNT as u32 => {
                Some(fuel_slot_location(cid, index as u8))
            },
            _ => None,
        }
    } else {
        None
    }
}

/// Splits `quantity_to_split` off the caller's stack and moves the new
/// stack onto the named target, merging with an occupant where the target
/// allows it.  On any placement failure the split is rolled back whole,
/// so an error leaves the store exactly as it was.
///
/// When the target is an empty player slot the result is the same as
/// [`crate::inventory::spec_split_stack`] describes: the source keeps the
/// remainder and a fresh stack sits on the target.
pub fn split_and_move(
    store: &mut ItemStore,
    cat: &ItemCatalog,
    campfires: &mut Vec<Campfire>,
    actor: u64,
    source_item_instance_id: u64,
    quantity_to_split: u32,
    target_slot_type: String,
    target_slot_index: u32,
    target_campfire_id: Option<u32>,
) -> (r: Result<(), ErrorCode>)
    requires
        old(store).wf(*cat),
        cat.wf(),
        campfires_wf(old(campfires)@),
        old(store).next_instance_id < u64::MAX,
    ensures
        final(store).wf(*cat),
        campfires_wf(final(campfires)@),
        final(campfires)@ == old(campfires)@,
        same_totals(final(store).items@, old(store).items@),
        r is Err ==> final(store).items@ == old(store).items@ && final(store).next_instance_id
            == old(store).next_instance_id,
        !old(store).has_instance(source_item_instance_id) ==> r == Result::<(), ErrorCode>::Err(
            ErrorCode::NotFound,
        ),
        old(store).has_instance(source_item_instance_id) ==> {
            let i = old(store).index_of(source_item_instance_id);
            let item = old(store).items@[i];
            let target = spec_compound_target(
                actor,
                target_slot_type@,
                target_slot_index,
                target_campfire_id,
            );
            &&& item.owner_identity != actor ==> r == Result::<(), ErrorCode>::Err(
                ErrorCode::NotOwned,
            )
            &&& item.owner_identity == actor && !(item.location is PlayerInventory
                || item.location is PlayerHotbar) ==> r == Result::<(), ErrorCode>::Err(
                ErrorCode::InvalidSlot,
            )
            &&& item.owner_identity == actor && (item.location is PlayerInventory
                || item.location is PlayerHotbar) && !cat.def_of(item.item_def_id).is_stackable
                ==> r == Result::<(), ErrorCode>::Err(ErrorCode::NotStackable)
            &&& item.owner_identity == actor && (item.location is PlayerInventory
                || item.location is PlayerHotbar) && cat.def_of(item.item_def_id).is_stackable
                && (quantity_to_split == 0 || quantity_to_split >= item.quantity) ==> r
                == Result::<(), ErrorCode>::Err(ErrorCode::CannotMerge)
            &&& item.owner_identity == actor && (item.location is PlayerInventory
                || item.location is PlayerHotbar) && cat.def_of(item.item_def_id).is_stackable
                && 0 < quantity_to_split < item.quantity && target is None ==> r == Result::<
                (),
                ErrorCode,
            >::Err(ErrorCode::InvalidSlot)
            &&& item.owner_identity == actor && (item.location is PlayerInventory
                || item.location is PlayerHotbar) && cat.def_of(item.item_def_id).is_stackable
                && 0 < quantity_to_split < item.quantity && target is Some && !old(
                store,
            ).location_occupied(target->Some_0) && (target->Some_0 is PlayerInventory
                || target->Some_0 is PlayerHotbar) ==> r is Ok && final(store).items@ == old(
                store,
            ).items@.update(
                i,
                spec_with_quantity(item, (item.quantity - quantity_to_split) as u32),
            ).push(
                InventoryItem {
                    instance_id: old(store).next_instance_id,
                    owner_identity: actor,
                    item_def_id: item.item_def_id,
                    quantity: quantity_to_split,
                    location: target->Some_0,
                },
            ) && final(store).next_instance_id == old(store).next_instance_id + 1
            &&& item.owner_identity == actor && (item.location is PlayerInventory
                || item.location is PlayerHotbar) && cat.def_of(item.item_def_id).is_stackable
                && 0 < quantity_to_split < item.quantity && target is Some
                && (target->Some_0 is PlayerInventory || target->Some_0 is PlayerHotbar)
                && old(store).location_occupied(target->Some_0) && item.location
                != target->Some_0 ==> {
                let j = old(store).index_at(target->Some_0);
                let occ = old(store).items@[j];
                // Onto an occupied slot the split merges whole or is
                // rolled back: a freshly split stack never swaps and
                // never strands a remainder.
                &&& occ.item_def_id == item.item_def_id && occ.quantity + quantity_to_split
                    <= cat.def_of(item.item_def_id).stack_size ==> r is Ok && final(store).items@
                    == old(store).items@.update(
                    i,
                    spec_with_quantity(item, (item.quantity - quantity_to_split) as u32),
                ).update(
                    j,
                    spec_with_quantity(occ, (occ.quantity + quantity_to_split) as u32),
                ) && final(store).next_instance_id == old(store).next_instance_id + 1
                &&& !(occ.item_def_id == item.item_def_id && occ.quantity + quantity_to_split
                    <= cat.def_of(item.item_def_id).stack_size) ==> r == Result::<
                    (),
                    ErrorCode,
                >::Err(ErrorCode::Occupied)
            }
            &&& item.owner_identity == actor && (item.location is PlayerInventory
                || item.location is PlayerHotbar) && cat.def_of(item.item_def_id).is_stackable
                && 0 < quantity_to_split < item.quantity && target is Some
                && target->Some_0 is Container && target_campfire_id is Some && has_campfire(
                old(campfires)@,
                target_campfire_id->Some_0,
            ) && cat.def_of(item.item_def_id).name@ == "Wood"@ && !old(store).location_occupied(
                target->Some_0,
            ) ==> r is Ok && final(store).items@ == old(store).items@.update(
                i,
                spec_with_quantity(item, (item.quantity - quantity_to_split) as u32),
            ).push(
                InventoryItem {
                    instance_id: old(store).next_instance_id,
                    owner_identity: actor,
                    item_def_id: item.item_def_id,
                    quantity: quantity_to_split,
                    location: target->Some_0,
                },
            ) && final(store).next_instance_id == old(store).next_instance_id + 1
            &&& item.owner_identity == actor && (item.location is PlayerInventory
                || item.location is PlayerHotbar) && cat.def_of(item.item_def_id).is_stackable
                && 0 < quantity_to_split < item.quantity && target is Some
                && target->Some_0 is Container && target_campfire_id is Some && has_campfire(
                old(campfires)@,
                target_campfire_id->Some_0,
            ) && cat.def_of(item.item_def_id).name@ == "Wood"@ && old(store).location_occupied(
                target->Some_0,
            ) ==> {
                let j = old(store).index_at(target->Some_0);
                let occ = old(store).items@[j];
                // A fresh split onto an occupied fuel slot merges whole or
                // is rolled back: no partial merge and no swap, so an
                // error leaves the store exactly as it was.
                &&& occ.item_def_id == item.item_def_id && occ.quantity + quantity_to_split
                    <= cat.def_of(item.item_def_id).stack_size ==> r is Ok && final(store).items@
                    == old(store).items@.update(
                    i,
                    spec_with_quantity(item, (item.quantity - quantity_to_split) as u32),
                ).update(
                    j,
                    spec_with_quantity(occ, (occ.quantity + quantity_to_split) as u32),
                ) && final(store).next_instance_id == old(store).next_instance_id + 1
                &&& !(occ.item_def_id == item.item_def_id && occ.quantity + quantity_to_split
                    <= cat.def_of(item.item_def_id).stack_size) ==> r == Result::<
                    (),
                    ErrorCode,
                >::Err(ErrorCode::Occupied)
            }
        },
{
    let ghost pre = *store;
    let i: usize = match store.find_index(source_item_instance_id) {
        None => { return Err(ErrorCode::NotFound); },
        Some(i) => i,
    };
    proof {
        assert(pre.index_of(source_item_instance_id) == i as int);
        assert(pre.row_wf(*cat, i as int));
    }
    let item = store.items[i];
    if item.owner_identity != actor {
        return Err(ErrorCode::NotOwned);
    }
    let in_player_slots: bool = match item.location {
        ItemLocation::PlayerInventory { .. } => true,
        ItemLocation::PlayerHotbar { .. } => true,
        _ => false,
    };
    if !in_player_slots {
        return Err(ErrorCode::InvalidSlot);
    }
    let stackable: bool = match cat.find_def(item.item_def_id) {
        Some(def) => def.is_stackable,
        None => { return Err(ErrorCode::Internal); },
    };
    if !stackable {
        return Err(ErrorCode::NotStackable);
    }
    if quantity_to_split == 0 || quantity_to_split >= item.quantity {
        return Err(ErrorCode::CannotMerge);
    }
    let target: ItemLocation = match resolve_compound_target(
        actor,
        &target_slot_type,
        target_slot_index,
        target_campfire_id,
    ) {
        None => { return Err(ErrorCode::InvalidSlot); },
        Some(t) => t,
    };

    // Split first, as the stack protocol does, then place the new stack.
    let saved_next: u64 = store.next_instance_id;
    let new_id: u64 = match store.split_stack_helper(cat, source_item_instance_id, quantity_to_split) {
        Ok(id) => id,
        Err(e) => { return Err(e); },
    };
    let ghost split_state = *store;
    let placed: Result<(), ErrorCode> = match target {
        ItemLocation::Container { container_id, .. } => {
            let cid: u32 = if container_id <= u32::MAX as u64 {
                container_id as u32
            } else {
                0
            };
            let res = add_fuel_to_campfire(
                store,
                cat,
                campfires,
                actor,
                cid,
                target_slot_index as u8,
                new_id,
            );
            proof {
                let def = cat.def_of(item.item_def_id);
                if has_campfire(campfires@, cid) && pre.location_occupied(target)
                    && def.name@ == "Wood"@ && def.is_stackable {
                    let j = pre.index_at(target);
                    assert(0 <= j < pre.items@.len() && pre.items@[j].location == target);
                    let occ = pre.items@[j];
                    assert(j != i as int);
                    assert(split_state.items@[j] == pre.items@[j]);
                    assert(split_state.location_occupied(target));
                    let j2 = split_state.index_at(target);
                    assert(0 <= j2 < split_state.items@.len() && split_state.items@[j2].location
                        == target);
                    assert(split_state.items@[j].location.is_slotted());
                    assert(j2 == j);
                    assert(split_state.index_of(new_id) == split_state.items@.len() - 1);
                    if occ.item_def_id == item.item_def_id && occ.quantity + quantity_to_split
                        <= def.stack_size {
                        assert(res is Ok);
                        assert(store.items@ =~= pre.items@.update(
                            i as int,
                            spec_with_quantity(item, (item.quantity - quantity_to_split) as u32),
                        ).update(
                            j,
                            spec_with_quantity(occ, (occ.quantity + quantity_to_split) as u32),
                        ));
                    } else {
                        assert(res == Result::<(), ErrorCode>::Err(ErrorCode::Occupied));
                    }
                }
            }
            res
        },
        _ => { move_item_to_player_slot(store, cat, campfires, actor, new_id, target) },
    };
    match placed {
        Ok(()) => {
            proof {
                if target is PlayerInventory || target is PlayerHotbar {
                    if !pre.location_occupied(target) {
                        assert(!split_state.location_occupied(target)) by {
                            if split_state.location_occupied(target) {
                                let k = choose|k: int|
                                    0 <= k < split_state.items@.len() && (
                                    #[trigger] split_state.items@[k]).location == target;
                                if k < pre.items@.len() {
                                    if k == i as int {
                                        assert(split_state.items@[k].location == item.location);
                                    } else {
                                        assert(split_state.items@[k] == pre.items@[k]);
                                    }
                                    assert(pre.location_occupied(target));
                                    assert(false);
                                } else {
                                    assert(split_state.items@[k].location
                                        == ItemLocation::Unplaced);
                                    assert(false);
                                }
                            }
                        }
                        assert(split_state.index_of(new_id) == split_state.items@.len() - 1);
                        assert(store.items@ == split_state.items@.update(
                            split_state.items@.len() - 1,
                            spec_relocated(split_state.items@[split_state.items@.len() - 1], target, actor),
                        ));
                        assert(store.items@ =~= pre.items@.update(
                            i as int,
                            spec_with_quantity(item, (item.quantity - quantity_to_split) as u32),
                        ).push(
                            InventoryItem {
                                instance_id: pre.next_instance_id,
                                owner_identity: actor,
                                item_def_id: item.item_def_id,
                                quantity: quantity_to_split,
                                location: target,
                            },
                        ));
                    }
                }
            }
            Ok(())
        },
        Err(e) => {
            // Roll the split back: restore the source quantity and drop
            // the orphan stack, leaving the store exactly as it was.
            let ghost before_undo = *store;
            store.items.pop();
            store.items[i] = item;
            store.next_instance_id = saved_next;
            proof {
                assert(before_undo.items@ == split_state.items@);
                assert(store.items@ =~= pre.items@);
                assert(store.next_instance_id == pre.next_instance_id);
                crate::inventory::lemma_wf_same_state(pre, *store, *cat);
            }
            Err(e)
        },
    }
}

/// Splits a quantity off a campfire fuel stack and moves the new stack
/// onto the named target: a player slot, or another fuel slot of the same
/// campfire.  On any placement failure the split is rolled back whole.
pub fn split_and_move_from_campfire(
    store: &mut ItemStore,
    cat: &ItemCatalog,
    campfires: &mut Vec<Campfire>,
    actor: u64,
    source_campfire_id: u32,
    source_slot_index: u8,
    quantity_to_split: u32,
    target_slot_type: String,
    target_slot_index: u32,
) -> (r: Result<(), ErrorCode>)
    requires
        old(store).wf(*cat),
        cat.wf(),
        campfires_wf(old(campfires)@),
        old(store).next_instance_id < u64::MAX,
    ensures
        final(store).wf(*cat),
        campfires_wf(final(campfires)@),
        final(campfires)@ == old(campfires)@,
        same_totals(final(store).items@, old(store).items@),
        r is Err ==> final(store).items@ == old(store).items@ && final(store).next_instance_id
            == old(store).next_instance_id,
        source_slot_index >= CAMPFIRE_FUEL_SLOT_COUNT ==> r == Result::<(), ErrorCode>::Err(
            ErrorCode::InvalidSlot,
        ),
        source_slot_index < CAMPFIRE_FUEL_SLOT_COUNT && !has_campfire(
            old(campfires)@,
            source_campfire_id,
        ) ==> r == Result::<(), ErrorCode>::Err(ErrorCode::NotFound),
        source_slot_index < CAMPFIRE_FUEL_SLOT_COUNT && has_campfire(
            old(campfires)@,
            source_campfire_id,
        ) && !old(store).location_occupied(spec_fuel_slot(source_campfire_id, source_slot_index))
            ==> r == Result::<(), ErrorCode>::Err(ErrorCode::NotFound),
        source_slot_index < CAMPFIRE_FUEL_SLOT_COUNT && has_campfire(
            old(campfires)@,
            source_campfire_id,
        ) && old(store).location_occupied(spec_fuel_slot(source_campfire_id, source_slot_index))
            ==> {
            let i = old(store).index_at(spec_fuel_slot(source_campfire_id, source_slot_index));
            let item = old(store).items@[i];
            let target = spec_compound_target(
                actor,
                target_slot_type@,
                target_slot_index,
                Some(source_campfire_id),
            );
            &&& !cat.def_of(item.item_def_id).is_stackable ==> r == Result::<(), ErrorCode>::Err(
                ErrorCode::NotStackable,
            )
            &&& cat.def_of(item.item_def_id).is_stackable && (quantity_to_split == 0
                || quantity_to_split >= item.quantity) ==> r == Result::<(), ErrorCode>::Err(
                ErrorCode::CannotMerge,
            )
            &&& cat.def_of(item.item_def_id).is_stackable && 0 < quantity_to_split
                < item.quantity && target is None ==> r == Result::<(), ErrorCode>::Err(
                ErrorCode::InvalidSlot,
            )
            &&& cat.def_of(item.item_def_id).is_stackable && 0 < quantity_to_split
                < item.quantity && target is Some
                && (target->Some_0 is PlayerInventory || target->Some_0 is PlayerHotbar)
                && old(store).location_occupied(target->Some_0) ==> {
                let j = old(store).index_at(target->Some_0);
                let occ = old(store).items@[j];
                // Onto an occupied player slot the split merges whole or
                // is rolled back, as every freshly split stack is.
                &&& occ.item_def_id == item.item_def_id && occ.quantity + quantity_to_split
                    <= cat.def_of(item.item_def_id).stack_size ==> r is Ok && final(store).items@
                    == old(store).items@.update(
                    i,
                    spec_with_quantity(item, (item.quantity - quantity_to_split) as u32),
                ).update(
                    j,
                    spec_with_quantity(occ, (occ.quantity + quantity_to_split) as u32),
                ) && final(store).next_instance_id == old(store).next_instance_id + 1
                &&& !(occ.item_def_id == item.item_def_id && occ.quantity + quantity_to_split
                    <= cat.def_of(item.item_def_id).stack_size) ==> r == Result::<
                    (),
                    ErrorCode,
                >::Err(ErrorCode::Occupied)
            }
            &&& cat.def_of(item.item_def_id).is_stackable && 0 < quantity_to_split
                < item.quantity && target is Some && !old(store).location_occupied(target->Some_0)
                && (target->Some_0 is PlayerInventory || target->Some_0 is PlayerHotbar) ==> r
                is Ok && final(store).items@ == old(store).items@.update(
                i,
                spec_with_quantity(item, (item.quantity - quantity_to_split) as u32),
            ).push(
                InventoryItem {
                    instance_id: old(store).next_instance_id,
                    owner_identity: actor,
                    item_def_id: item.item_def_id,
                    quantity: quantity_to_split,
                    location: target->Some_0,
                },
            ) && final(store).next_instance_id == old(store).next_instance_id + 1
            &&& cat.def_of(item.item_def_id).is_stackable && 0 < quantity_to_split
                < item.quantity && target is Some && target->Some_0 is Container && cat.def_of(
                item.item_def_id,
            ).name@ == "Wood"@ && !old(store).location_occupied(target->Some_0) && item.location
                != target->Some_0 ==> r is Ok && final(store).items@ == old(
                store,
            ).items@.update(
                i,
                spec_with_quantity(item, (item.quantity - quantity_to_split) as u32),
            ).push(
                InventoryItem {
                    instance_id: old(store).next_instance_id,
                    // A stack split within the fire keeps the fuel
                    // row's owner, as fuel placement does not rebind it.
                    owner_identity: item.owner_identity,
                    item_def_id: item.item_def_id,
                    quantity: quantity_to_split,
                    location: target->Some_0,
                },
            ) && final(store).next_instance_id == old(store).next_instance_id + 1
        },
{
    let ghost pre = *store;
    if source_slot_index >= CAMPFIRE_FUEL_SLOT_COUNT {
        return Err(ErrorCode::InvalidSlot);
    }
    if crate::structures::find_campfire_index(campfires, source_campfire_id).is_none() {
        return Err(ErrorCode::NotFound);
    }
    let src_loc = fuel_slot_location(source_campfire_id, source_slot_index);
    let i: usize = match store.find_index_at(src_loc) {
        None => { return Err(ErrorCode::NotFound); },
        Some(i) => i,
    };
    proof {
        assert(pre.location_occupied(src_loc));
        assert(pre.row_wf(*cat, i as int));
    }
    let item = store.items[i];
    let stackable: bool = match cat.find_def(item.item_def_id) {
        Some(def) => def.is_stackable,
        None => { return Err(ErrorCode::Internal); },
    };
    if !stackable {
        return Err(ErrorCode::NotStackable);
    }
    if quantity_to_split == 0 || quantity_to_split >= item.quantity {
        return Err(ErrorCode::CannotMerge);
    }
    let target: ItemLocation = match resolve_compound_target(
        actor,
        &target_slot_type,
        target_slot_index,
        Some(source_campfire_id),
    ) {
        None => { return Err(ErrorCode::InvalidSlot); },
        Some(t) => t,
    };
    let saved_next: u64 = store.next_instance_id;
    let new_id: u64 = match store.split_stack_helper(cat, item.instance_id, quantity_to_split) {
        Ok(id) => id,
        Err(e) => { return Err(e); },
    };
    proof {
        if pre.index_of(item.instance_id) != i as int {
            let k = pre.index_of(item.instance_id);
            assert(pre.items@[k].instance_id == item.instance_id);
            assert(false);
        }
    }
    let ghost split_state = *store;
    let placed: Result<(), ErrorCode> = match target {
        ItemLocation::Container { .. } => {
            add_fuel_to_campfire(
                store,
                cat,
                campfires,
                actor,
                source_campfire_id,
                target_slot_index as u8,
                new_id,
            )
        },
        _ => { move_item_to_player_slot(store, cat, campfires, actor, new_id, target) },
    };
    match placed {
        Ok(()) => {
            proof {
                if target is PlayerInventory || target is PlayerHotbar || target is Container {
                    if !pre.location_occupied(target) && item.location != target {
                        assert(!split_state.location_occupied(target)) by {
                            if split_state.location_occupied(target) {
                                let k = choose|k: int|
                                    0 <= k < split_state.items@.len() && (
                                    #[trigger] split_state.items@[k]).location == target;
                                if k < pre.items@.len() {
                                    if k == i as int {
                                        assert(split_state.items@[k].location == item.location);
                                    } else {
                                        assert(split_state.items@[k] == pre.items@[k]);
                                    }
                                    assert(pre.location_occupied(target));
                                    assert(false);
                                } else {
                                    assert(split_state.items@[k].location
                                        == ItemLocation::Unplaced);
                                    assert(false);
                                }
                            }
                        }
                        assert(split_state.index_of(new_id) == split_state.items@.len() - 1);
                        if target is Container {
                            assert(store.items@ == split_state.items@.update(
                                split_state.items@.len() - 1,
                                spec_relocated(
                                    split_state.items@[split_state.items@.len() - 1],
                                    target,
                                    item.owner_identity,
                                ),
                            ));
                            assert(store.items@ =~= pre.items@.update(
                                i as int,
                                spec_with_quantity(
                                    item,
                                    (item.quantity - quantity_to_split) as u32,
                                ),
                            ).push(
                                InventoryItem {
                                    instance_id: pre.next_instance_id,
                                    owner_identity: item.owner_identity,
                                    item_def_id: item.item_def_id,
                                    quantity: quantity_to_split,
                                    location: target,
                                },
                            ));
                        } else {
                            assert(store.items@ == split_state.items@.update(
                                split_state.items@.len() - 1,
                                spec_relocated(
                                    split_state.items@[split_state.items@.len() - 1],
                                    target,
                                    actor,
                                ),
                            ));
                            assert(store.items@ =~= pre.items@.update(
                                i as int,
                                spec_with_quantity(
                                    item,
                                    (item.quantity - quantity_to_split) as u32,
                                ),
                            ).push(
                                InventoryItem {
                                    instance_id: pre.next_instance_id,
                                    owner_identity: actor,
                                    item_def_id: item.item_def_id,
                                    quantity: quantity_to_split,
                                    location: target,
                                },
                            ));
                        }
                    }
                }
            }
            Ok(())
        },
        Err(e) => {
            store.items.pop();
            store.items[i] = item;
            store.next_instance_id = saved_next;
            proof {
                assert(store.items@ =~= pre.items@);
                crate::inventory::lemma_wf_same_state(pre, *store, *cat);
            }
            Err(e)
        },
    }
}

/// Drops a quantity of an item to the ground in front of the player.
///
/// The whole stack relocates to the ground; a partial drop splits a new
/// ground stack off and needs a stackable definition.  A dropped item
/// that was the caller's main-hand item is unequipped, and a campfire
/// whose last fuel was dropped goes out.
pub fn drop_item(
    store: &mut ItemStore,
    cat: &ItemCatalog,
    equips: &mut Vec<ActiveEquipment>,
    campfires: &mut Vec<Campfire>,
    players: &Vec<Player>,
    actor: u64,
    item_instance_id: u64,
    quantity_to_drop: u32,
) -> (r: Result<(), ErrorCode>)
    requires
        old(store).wf(*cat),
        cat.wf(),
        equips_wf(old(equips)@),
        campfires_wf(old(campfires)@),
        players_wf(players@),
        old(store).next_instance_id < u64::MAX,
    ensures
        final(store).wf(*cat),
        equips_wf(final(equips)@),
        campfires_wf(final(campfires)@),
        same_totals(final(store).items@, old(store).items@),
        r is Err ==> final(store).items@ == old(store).items@ && final(store).next_instance_id
            == old(store).next_instance_id && *final(equips) == *old(equips) && *final(campfires)
            == *old(campfires),
        final(campfires)@.len() == old(campfires)@.len(),
        forall|k: int|
            0 <= k < old(campfires)@.len() ==> final(campfires)@[k] == old(campfires)@[k]
                || final(campfires)@[k] == (Campfire {
                is_burning: false,
                next_fuel_consume_at: None,
                ..#[trigger] old(campfires)@[k]
            }),
        !has_player(players@, actor) ==> r == Result::<(), ErrorCode>::Err(ErrorCode::NotFound),
        has_player(players@, actor) && !old(store).has_instance(item_instance_id) ==> r
            == Result::<(), ErrorCode>::Err(ErrorCode::NotFound),
        has_player(players@, actor) && old(store).has_instance(item_instance_id) ==> {
            let i = old(store).index_of(item_instance_id);
            let item = old(store).items@[i];
            &&& (item.location is PlayerInventory || item.location is PlayerHotbar)
                && item.owner_identity != actor ==> r == Result::<(), ErrorCode>::Err(
                ErrorCode::NotOwned,
            )
            &&& item.location is Ground ==> r == Result::<(), ErrorCode>::Err(
                ErrorCode::InvalidSlot,
            )
            &&& !(item.location is Ground) && !((item.location is PlayerInventory
                || item.location is PlayerHotbar) && item.owner_identity != actor) ==> {
                &&& quantity_to_drop == 0 || quantity_to_drop > item.quantity ==> r == Result::<
                    (),
                    ErrorCode,
                >::Err(ErrorCode::CannotMerge)
                &&& 0 < quantity_to_drop < item.quantity && !cat.def_of(
                    item.item_def_id,
                ).is_stackable ==> r == Result::<(), ErrorCode>::Err(ErrorCode::NotStackable)
                &&& quantity_to_drop == item.quantity ==> r is Ok && final(store).items@ == old(
                    store,
                ).items@.update(
                    i,
                    spec_relocated(
                        item,
                        spec_ground_loc(
                            spec_drop_position(players@[player_index(players@, actor)]).0,
                            spec_drop_position(players@[player_index(players@, actor)]).1,
                        ),
                        actor,
                    ),
                )
                &&& 0 < quantity_to_drop < item.quantity && cat.def_of(
                    item.item_def_id,
                ).is_stackable ==> r is Ok && final(store).items@ == old(store).items@.update(
                    i,
                    (InventoryItem {
                        instance_id: item.instance_id,
                        owner_identity: if item.location is Container || item.location
                            is Unplaced {
                            actor
                        } else {
                            // The remainder stays in its slot; for a worn or
                            // slotted stack its owner is the slot's player,
                            // which well-formedness fixes.
                            item.owner_identity
                        },
                        item_def_id: item.item_def_id,
                        quantity: (item.quantity - quantity_to_drop) as u32,
                        location: item.location,
                    }),
                ).push(
                    InventoryItem {
                        instance_id: old(store).next_instance_id,
                        owner_identity: actor,
                        item_def_id: item.item_def_id,
                        quantity: quantity_to_drop,
                        location: spec_ground_loc(
                            spec_drop_position(players@[player_index(players@, actor)]).0,
                            spec_drop_position(players@[player_index(players@, actor)]).1,
                        ),
                    },
                )
                &&& r is Ok ==> {
                    // A dropped main-hand item leaves the hand with its
                    // swing timer reset; other equipment rows never change.
                    &&& final(equips)@.len() == old(equips)@.len()
                    &&& forall|k: int|
                        0 <= k < old(equips)@.len() && (#[trigger] old(equips)@[k]).player_identity
                            != actor ==> final(equips)@[k] == old(equips)@[k]
                    &&& has_equip(old(equips)@, actor) ==> {
                        let e = equip_index(old(equips)@, actor);
                        let row = old(equips)@[e];
                        &&& row.equipped_item_instance_id == Some(item_instance_id)
                            ==> final(equips)@[e] == (ActiveEquipment {
                            player_identity: row.player_identity,
                            equipped_item_instance_id: None,
                            equipped_item_def_id: None,
                            swing_start_time_ms: 0,
                        })
                        &&& row.equipped_item_instance_id != Some(item_instance_id)
                            ==> final(equips)@[e] == row
                    }
                    &&& !has_equip(old(equips)@, actor) ==> *final(equips) == *old(equips)
                }
                &&& r is Ok ==> forall|k: int|
                    0 <= k < old(campfires)@.len() ==> #[trigger] final(campfires)@[k] == (
                    if spec_fuel_source(item.location) == Some(old(campfires)@[k].id as u64) {
                        spec_reevaluated_campfire(*final(store), old(campfires)@[k])
                    } else {
                        old(campfires)@[k]
                    })
            }
        },
{
    let ghost pre = *store;
    let pidx: usize = match find_player_index(players, actor) {
        None => { return Err(ErrorCode::NotFound); },
        Some(p) => p,
    };
    let i: usize = match store.find_index(item_instance_id) {
        None => { return Err(ErrorCode::NotFound); },
        Some(i) => i,
    };
    proof {
        assert(pre.index_of(item_instance_id) == i as int);
        assert(pre.row_wf(*cat, i as int));
    }
    let item = store.items[i];
    let player_bound: bool = match item.location {
        ItemLocation::PlayerInventory { .. } => true,
        ItemLocation::PlayerHotbar { .. } => true,
        _ => false,
    };
    if player_bound && item.owner_identity != actor {
        return Err(ErrorCode::NotOwned);
    }
    let grounded: bool = match item.location {
        ItemLocation::Ground { .. } => true,
        _ => false,
    };
    if grounded {
        return Err(ErrorCode::InvalidSlot);
    }
    if quantity_to_drop == 0 || quantity_to_drop > item.quantity {
        return Err(ErrorCode::CannotMerge);
    }
    let stackable: bool = match cat.find_def(item.item_def_id) {
        Some(def) => def.is_stackable,
        None => { return Err(ErrorCode::Internal); },
    };
    if quantity_to_drop < item.quantity && !stackable {
        return Err(ErrorCode::NotStackable);
    }

    let (drop_x, drop_y): (u32, u32) = calculate_drop_position(&players[pidx]);
    let ground = ItemLocation::Ground { x: drop_x, y: drop_y };

    // A dropped main-hand item is unequipped as it leaves the hand.
    clear_specific_item_from_equipment_slots(equips, actor, item_instance_id);

    let source_campfire: Option<u64> = match item.location {
        ItemLocation::Container { container_type: ContainerType::Campfire, container_id, .. } => {
            Some(container_id)
        },
        _ => None,
    };

    if quantity_to_drop == item.quantity {
        let item2 = InventoryItem {
            instance_id: item.instance_id,
            owner_identity: actor,
            item_def_id: item.item_def_id,
            quantity: item.quantity,
            location: ground,
        };
        store.items[i] = item2;
        proof {
            lemma_wf_after_row_update(pre, *store, *cat, i as int, item2);
            assert forall|d: u64| #[trigger] qty_sum(store.items@, d) == qty_sum(
                pre.items@,
                d,
            ) by {
                lemma_qty_sum_update(pre.items@, i as int, item2, d);
            }
            assert(item2 == spec_relocated(item, spec_ground_loc(drop_x, drop_y), actor));
        }
    } else {
        let keep_owner: u64 = match item.location {
            ItemLocation::Container { .. } => actor,
            ItemLocation::Unplaced => actor,
            _ => item.owner_identity,
        };
        let item2 = InventoryItem {
            instance_id: item.instance_id,
            owner_identity: keep_owner,
            item_def_id: item.item_def_id,
            quantity: item.quantity - quantity_to_drop,
            location: item.location,
        };
        let fresh = InventoryItem {
            instance_id: store.next_instance_id,
            owner_identity: actor,
            item_def_id: item.item_def_id,
            quantity: quantity_to_drop,
            location: ground,
        };
        store.items[i] = item2;
        let ghost mid = *store;
        store.items.push(fresh);
        store.next_instance_id = store.next_instance_id + 1;
        proof {
            lemma_wf_after_row_update(pre, mid, *cat, i as int, item2);
            lemma_wf_after_push(mid, *store, *cat, fresh);
            assert forall|d: u64| #[trigger] qty_sum(store.items@, d) == qty_sum(
                pre.items@,
                d,
            ) by {
                lemma_qty_sum_update(pre.items@, i as int, item2, d);
                lemma_qty_sum_push(mid.items@, fresh, d);
            }
            assert(fresh.location == spec_ground_loc(drop_x, drop_y));
        }
    }

    // The stack may have been campfire fuel: the fire goes out if its
    // last fuel just left.
    match source_campfire {
        Some(cid) => {
            if cid <= u32::MAX as u64 {
                match crate::structures::find_campfire_index(campfires, cid as u32) {
                    Some(ci) => {
                        let mut fire = campfires[ci];
                        reevaluate_campfire_burning(store, &mut fire);
                        campfires[ci] = fire;
                        proof {
                            assert forall|p: int, q: int|
                                0 <= p < q < campfires@.len() implies (
                            #[trigger] campfires@[p]).id != (#[trigger] campfires@[q]).id by {
                                assert(old(campfires)@[p].id != old(campfires)@[q].id);
                            }
                        }
                    },
                    None => {},
                }
            }
        },
        None => {},
    }
    Ok(())
}

/// Clears an item that is about to leave a non-player location: the
/// main-hand reference of the caller's equipment row, and any campfire
/// fuel slot it sat in, letting an emptied fire go out.  An item sitting
/// in the caller's inventory or hotbar needs no clearing.
pub fn clear_item_from_source_location(
    store: &mut ItemStore,
    cat: &ItemCatalog,
    equips: &mut Vec<ActiveEquipment>,
    campfires: &mut Vec<Campfire>,
    actor: u64,
    item_instance_id: u64,
) -> (r: Result<(), ErrorCode>)
    requires
        old(store).wf(*cat),
        cat.wf(),
        equips_wf(old(equips)@),
        campfires_wf(old(campfires)@),
    ensures
        final(store).wf(*cat),
        equips_wf(final(equips)@),
        campfires_wf(final(campfires)@),
        same_totals(final(store).items@, old(store).items@),
        final(store).next_instance_id == old(store).next_instance_id,
        r is Ok,
        !old(store).has_instance(item_instance_id) ==> final(store).items@ == old(store).items@,
        old(store).has_instance(item_instance_id) && (old(store).row_of(
            item_instance_id,
        ).location is PlayerInventory || old(store).row_of(item_instance_id).location
            is PlayerHotbar) ==> final(store).items@ == old(store).items@ && *final(equips)
            == *old(equips) && *final(campfires) == *old(campfires),
{
    let i: usize = match store.find_index(item_instance_id) {
        None => { return Ok(()); },
        Some(i) => i,
    };
    let in_player_slots: bool = match store.items[i].location {
        ItemLocation::PlayerInventory { .. } => true,
        ItemLocation::PlayerHotbar { .. } => true,
        _ => false,
    };
    if in_player_slots {
        return Ok(());
    }
    clear_specific_item_from_equipment_slots(equips, actor, item_instance_id);
    clear_item_from_campfire_fuel_slots(store, cat, campfires, item_instance_id);
    Ok(())
}

} // verus!
