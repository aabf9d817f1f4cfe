//! Campfire fuel handling: adding wood, splitting stacks out of fuel
//! slots, and the duty shared by every removal — a fire whose last fuel
//! left goes out.
//!
//! Fuel lives in item rows located in the campfire's five container
//! slots; the campfire row itself only carries the burn state.

use vstd::prelude::*;

use crate::errors::ErrorCode;
use crate::items::{
    ItemCatalog, ItemLocation, ContainerType, InventoryItem, CAMPFIRE_FUEL_SLOT_COUNT,
};
use crate::inventory::{
    ItemStore, qty_sum, player_qty_sum, same_totals, spec_relocated, spec_with_quantity, spec_split_target,
    resolve_split_target, lemma_wf_after_row_update, lemma_wf_after_remove, lemma_wf_after_push,
    lemma_qty_sum_update, lemma_qty_sum_remove, lemma_qty_sum_push,
};
use crate::structures::{
    Campfire, campfires_wf, has_campfire, find_campfire_index, reevaluate_campfire_burning,
    spec_campfire_has_fuel, spec_fuel_slot,
};

verus! {

/// The container location of one fuel slot of a campfire.
pub fn fuel_slot_location(campfire_id: u32, slot: u8) -> (r: ItemLocation)
    ensures
        r == spec_fuel_slot(campfire_id, slot),
{
    ItemLocation::Container {
        container_type: ContainerType::Campfire,
        container_id: campfire_id as u64,
        slot,
    }
}

/// Takes a fuel-slot item out of the campfire's slot into limbo, leaving
/// its placement to the caller, and lets the fire go out if that was the
/// last fuel.  An item not sitting in any fuel slot changes nothing.
pub fn clear_item_from_campfire_fuel_slots(
    store: &mut ItemStore,
    cat: &ItemCatalog,
    campfires: &mut Vec<Campfire>,
    item_instance_id: u64,
) -> (r: bool)
    requires
        old(store).wf(*cat),
        cat.wf(),
        campfires_wf(old(campfires)@),
    ensures
        final(store).wf(*cat),
        campfires_wf(final(campfires)@),
        final(store).next_instance_id == old(store).next_instance_id,
        same_totals(final(store).items@, old(store).items@),
        final(campfires)@.len() == old(campfires)@.len(),
        !old(store).has_instance(item_instance_id) ==> !r && *final(store) == *old(store)
            && *final(campfires) == *old(campfires),
        old(store).has_instance(item_instance_id) ==> {
            let i = old(store).index_of(item_instance_id);
            let item = old(store).items@[i];
            &&& !(item.location matches ItemLocation::Container {
                container_type: ContainerType::Campfire,
                ..
            }) ==> !r && *final(store) == *old(store) && *final(campfires) == *old(campfires)
            &&& (item.location matches ItemLocation::Container {
                container_type: ContainerType::Campfire,
                ..
            }) ==> r && final(store).items@ == old(store).items@.update(
                i,
                spec_relocated(item, ItemLocation::Unplaced, item.owner_identity),
            ) && forall|k: int|
                0 <= k < old(campfires)@.len() ==> #[trigger] final(campfires)@[k] == (
                if crate::structures::spec_fuel_source(item.location) == Some(
                    old(campfires)@[k].id as u64,
                ) {
                    crate::structures::spec_reevaluated_campfire(
                        *final(store),
                        old(campfires)@[k],
                    )
                } else {
                    old(campfires)@[k]
                })
        },
{
    let ghost pre = *store;
    let i: usize = match store.find_index(item_instance_id) {
        None => { return false; },
        Some(i) => i,
    };
    proof {
        assert(pre.index_of(item_instance_id) == i as int);
        assert(pre.row_wf(*cat, i as int));
    }
    let item = store.items[i];
    let source_campfire: Option<u64> = match item.location {
        ItemLocation::Container { container_type: ContainerType::Campfire, container_id, .. } => {
            Some(container_id)
        },
        _ => None,
    };
    let cid: u64 = match source_campfire {
        None => { return false; },
        Some(c) => c,
    };
    let item2 = InventoryItem {
        instance_id: item.instance_id,
        owner_identity: item.owner_identity,
        item_def_id: item.item_def_id,
        quantity: item.quantity,
        location: ItemLocation::Unplaced,
    };
    store.items[i] = item2;
    proof {
        lemma_wf_after_row_update(pre, *store, *cat, i as int, item2);
        assert forall|d: u64| #[trigger] qty_sum(store.items@, d) == qty_sum(pre.items@, d) by {
            lemma_qty_sum_update(pre.items@, i as int, item2, d);
        }
    }
    if cid <= u32::MAX as u64 {
        match find_campfire_index(campfires, cid as u32) {
            Some(ci) => {
                let mut fire = campfires[ci];
                reevaluate_campfire_burning(store, &mut fire);
                campfires[ci] = fire;
                proof {
                    assert forall|p: int, q: int|
                        0 <= p < q < campfires@.len() implies (#[trigger] campfires@[p]).id != (
                    #[trigger] campfires@[q]).id by {
                        assert(old(campfires)@[p].id != old(campfires)@[q].id);
                    }
                }
            },
            None => {},
        }
    }
    true
}

/// The exact outcome of splitting a quantity off a campfire fuel stack
/// onto an empty player slot of the actor.
pub open spec fn spec_split_from_campfire(
    pre: ItemStore,
    cat: ItemCatalog,
    actor: u64,
    campfire_id: u32,
    source_slot: u8,
    quantity_to_split: u32,
    target: Option<ItemLocation>,
) -> (Result<(), ErrorCode>, Seq<InventoryItem>, u64) {
    let src_loc = spec_fuel_slot(campfire_id, source_slot);
    if !pre.location_occupied(src_loc) {
        (Err(ErrorCode::NotFound), pre.items@, pre.next_instance_id)
    } else {
        let i = pre.index_at(src_loc);
        let item = pre.items@[i];
        if !cat.def_of(item.item_def_id).is_stackable {
            (Err(ErrorCode::NotStackable), pre.items@, pre.next_instance_id)
        } else if quantity_to_split == 0 || quantity_to_split >= item.quantity {
            (Err(ErrorCode::CannotMerge), pre.items@, pre.next_instance_id)
        } else if target is None {
            (Err(ErrorCode::InvalidSlot), pre.items@, pre.next_instance_id)
        } else if pre.location_occupied(target->Some_0) {
            (Err(ErrorCode::Occupied), pre.items@, pre.next_instance_id)
        } else {
            (
                Ok(()),
                pre.items@.update(
                    i,
                    spec_with_quantity(item, (item.quantity - quantity_to_split) as u32),
                ).push(
                    InventoryItem {
                        instance_id: pre.next_instance_id,
                        owner_identity: actor,
                        item_def_id: item.item_def_id,
                        quantity: quantity_to_split,
                        location: target->Some_0,
                    },
                ),
                (pre.next_instance_id + 1) as u64,
            )
        }
    }
}

/// Splits `quantity_to_split` off the stack in a campfire fuel slot into a
/// new stack owned by the caller, placed directly on the named empty
/// inventory or hotbar slot.  The remainder stays in the fuel slot, so the
/// fire's state is untouched.
pub fn split_stack_from_campfire(
    store: &mut ItemStore,
    cat: &ItemCatalog,
    campfires: &Vec<Campfire>,
    actor: u64,
    source_campfire_id: u32,
    source_slot_index: u8,
    quantity_to_split: u32,
    target_slot_type: String,
    target_slot_index: u32,
) -> (r: Result<(), ErrorCode>)
    requires
        old(store).wf(*cat),
        cat.wf(),
        campfires_wf(campfires@),
        old(store).next_instance_id < u64::MAX,
    ensures
        final(store).wf(*cat),
        same_totals(final(store).items@, old(store).items@),
        source_slot_index >= CAMPFIRE_FUEL_SLOT_COUNT || !has_campfire(
            campfires@,
            source_campfire_id,
        ) ==> *final(store) == *old(store) && r is Err,
        source_slot_index >= CAMPFIRE_FUEL_SLOT_COUNT ==> r == Result::<(), ErrorCode>::Err(
            ErrorCode::InvalidSlot,
        ),
        source_slot_index < CAMPFIRE_FUEL_SLOT_COUNT && !has_campfire(
            campfires@,
            source_campfire_id,
        ) ==> r == Result::<(), ErrorCode>::Err(ErrorCode::NotFound),
        source_slot_index < CAMPFIRE_FUEL_SLOT_COUNT && has_campfire(
            campfires@,
            source_campfire_id,
        ) ==> {
            let out = spec_split_from_campfire(
                *old(store),
                *cat,
                actor,
                source_campfire_id,
                source_slot_index,
                quantity_to_split,
                spec_split_target(actor, target_slot_type@, target_slot_index),
            );
            &&& r == out.0
            &&& final(store).items@ == out.1
            &&& final(store).next_instance_id == out.2
        },
{
    let ghost pre = *store;
    if source_slot_index >= CAMPFIRE_FUEL_SLOT_COUNT {
        return Err(ErrorCode::InvalidSlot);
    }
    if find_campfire_index(campfires, source_campfire_id).is_none() {
        return Err(ErrorCode::NotFound);
    }
    let src_loc = fuel_slot_location(source_campfire_id, source_slot_index);
    let i: usize = match store.find_index_at(src_loc) {
        None => { return Err(ErrorCode::NotFound); },
        Some(i) => i,
    };
    proof {
        assert(pre.location_occupied(src_loc));
        if pre.index_at(src_loc) != i as int {
            let j2 = pre.index_at(src_loc);
            assert(pre.items@[j2].location == src_loc);
            assert(src_loc.is_slotted());
            assert(false);
        }
        assert(pre.row_wf(*cat, i as int));
    }
    let item = store.items[i];
    let stackable: bool = match cat.find_def(item.item_def_id) {
        Some(def) => def.is_stackable,
        None => { return Err(ErrorCode::Internal); },
    };
    if !stackable {
        return Err(ErrorCode::NotStackable);
    }
    if quantity_to_split == 0 || quantity_to_split >= item.quantity {
        return Err(ErrorCode::CannotMerge);
    }
    let target: ItemLocation = match resolve_split_target(
        actor,
        &target_slot_type,
        target_slot_index,
    ) {
        None => { return Err(ErrorCode::InvalidSlot); },
        Some(t) => t,
    };
    if store.find_index_at(target).is_some() {
        proof {
            assert(pre.location_occupied(target));
        }
        return Err(ErrorCode::Occupied);
    }
    let updated = InventoryItem {
        instance_id: item.instance_id,
        owner_identity: item.owner_identity,
        item_def_id: item.item_def_id,
        quantity: item.quantity - quantity_to_split,
        location: item.location,
    };
    let fresh = InventoryItem {
        instance_id: store.next_instance_id,
        owner_identity: actor,
        item_def_id: item.item_def_id,
        quantity: quantity_to_split,
        location: target,
    };
    store.items[i] = updated;
    let ghost mid = *store;
    store.items.push(fresh);
    store.next_instance_id = store.next_instance_id + 1;
    proof {
        lemma_wf_after_row_update(pre, mid, *cat, i as int, updated);
        assert forall|j: int|
            0 <= j < mid.items@.len() implies (#[trigger] mid.items@[j]).location != target by {
            if j != i as int && pre.items@[j].location == target {
                assert(pre.location_occupied(target));
            }
        }
        lemma_wf_after_push(mid, *store, *cat, fresh);
        assert forall|d: u64| #[trigger] qty_sum(store.items@, d) == qty_sum(pre.items@, d) by {
            lemma_qty_sum_update(pre.items@, i as int, updated, d);
            lemma_qty_sum_push(mid.items@, fresh, d);
        }
        assert(updated == spec_with_quantity(item, (item.quantity - quantity_to_split) as u32));
    }
    Ok(())
}

/// The exact outcome of placing the stack `instance_id` into the fuel
/// slot `slot` of a campfire: the result and the row table after.
///
/// Only Wood fuels a fire.  The source must be the caller's inventory or
/// hotbar row or a freshly split stack; an occupied slot merges when it
/// has space, a partial merge is refused for an unplaced source, and no
/// swap happens in fuel slots.
pub open spec fn spec_add_fuel(
    pre: ItemStore,
    cat: ItemCatalog,
    actor: u64,
    campfire_id: u32,
    slot: u8,
    instance_id: u64,
) -> (Result<(), ErrorCode>, Seq<InventoryItem>) {
    if slot >= CAMPFIRE_FUEL_SLOT_COUNT {
        (Err(ErrorCode::InvalidSlot), pre.items@)
    } else if !pre.has_instance(instance_id) {
        (Err(ErrorCode::NotFound), pre.items@)
    } else {
        let i = pre.index_of(instance_id);
        let item = pre.items@[i];
        let def = cat.def_of(item.item_def_id);
        let target = spec_fuel_slot(campfire_id, slot);
        if (item.location is PlayerInventory || item.location is PlayerHotbar)
            && item.owner_identity != actor {
            (Err(ErrorCode::NotOwned), pre.items@)
        } else if !(item.location is PlayerInventory || item.location is PlayerHotbar
            || item.location is Unplaced || item.location == target) {
            (Err(ErrorCode::InvalidSlot), pre.items@)
        } else if !(def.name@ == "Wood"@ && def.is_stackable) {
            (Err(ErrorCode::CannotMerge), pre.items@)
        } else if item.location == target {
            (Ok(()), pre.items@)
        } else if !pre.location_occupied(target) {
            (Ok(()), pre.items@.update(i, spec_relocated(item, target, item.owner_identity)))
        } else {
            let j = pre.index_at(target);
            let occ = pre.items@[j];
            if occ.item_def_id == item.item_def_id && occ.quantity < def.stack_size {
                let space = def.stack_size - occ.quantity;
                if item.quantity <= space {
                    (
                        Ok(()),
                        pre.items@.update(
                            j,
                            spec_with_quantity(occ, (occ.quantity + item.quantity) as u32),
                        ).remove(i),
                    )
                } else if item.location is Unplaced {
                    (Err(ErrorCode::Occupied), pre.items@)
                } else {
                    (
                        Ok(()),
                        pre.items@.update(j, spec_with_quantity(occ, def.stack_size)).update(
                            i,
                            spec_with_quantity(item, (item.quantity - space) as u32),
                        ),
                    )
                }
            } else {
                (Err(ErrorCode::Occupied), pre.items@)
            }
        }
    }
}

/// Places a wood stack into the named fuel slot of a campfire, merging
/// with the wood already there, as [`spec_add_fuel`] lays down.
pub fn add_fuel_to_campfire(
    store: &mut ItemStore,
    cat: &ItemCatalog,
    campfires: &Vec<Campfire>,
    actor: u64,
    campfire_id: u32,
    target_slot_index: u8,
    item_instance_id: u64,
) -> (r: Result<(), ErrorCode>)
    requires
        old(store).wf(*cat),
        cat.wf(),
        campfires_wf(campfires@),
    ensures
        final(store).wf(*cat),
        final(store).next_instance_id == old(store).next_instance_id,
        same_totals(final(store).items@, old(store).items@),
        !has_campfire(campfires@, campfire_id) ==> r == Result::<(), ErrorCode>::Err(
            ErrorCode::NotFound,
        ) && *final(store) == *old(store),
        has_campfire(campfires@, campfire_id) ==> {
            let out = spec_add_fuel(
                *old(store),
                *cat,
                actor,
                campfire_id,
                target_slot_index,
                item_instance_id,
            );
            &&& r == out.0
            &&& final(store).items@ == out.1
        },
{
    let ghost pre = *store;
    if find_campfire_index(campfires, campfire_id).is_none() {
        return Err(ErrorCode::NotFound);
    }
    if target_slot_index >= CAMPFIRE_FUEL_SLOT_COUNT {
        return Err(ErrorCode::InvalidSlot);
    }
    let i: usize = match store.find_index(item_instance_id) {
        None => { return Err(ErrorCode::NotFound); },
        Some(i) => i,
    };
    proof {
        assert(pre.index_of(item_instance_id) == i as int);
        assert(pre.row_wf(*cat, i as int));
    }
    let item = store.items[i];
    let target = fuel_slot_location(campfire_id, target_slot_index);
    let player_bound: bool = match item.location {
        ItemLocation::PlayerInventory { .. } => true,
        ItemLocation::PlayerHotbar { .. } => true,
        _ => false,
    };
    if player_bound && item.owner_identity != actor {
        return Err(ErrorCode::NotOwned);
    }
    let unplaced: bool = match item.location {
        ItemLocation::Unplaced => true,
        _ => false,
    };
    if !player_bound && !unplaced && item.location != target {
        return Err(ErrorCode::InvalidSlot);
    }
    let (is_wood, stackable, stack_size): (bool, bool, u32) = match cat.find_def(
        item.item_def_id,
    ) {
        Some(def) => {
            let wood: String = "Wood".to_owned();
            (def.name == wood, def.is_stackable, def.stack_size)
        },
        None => { return Err(ErrorCode::Internal); },
    };
    if !is_wood || !stackable {
        return Err(ErrorCode::CannotMerge);
    }
    if item.location == target {
        return Ok(());
    }
    let j: usize = match store.find_index_at(target) {
        None => {
            let item2 = InventoryItem {
                instance_id: item.instance_id,
                owner_identity: item.owner_identity,
                item_def_id: item.item_def_id,
                quantity: item.quantity,
                location: target,
            };
            store.items[i] = item2;
            proof {
                assert forall|k: int|
                    0 <= k < pre.items@.len() && k != i implies (#[trigger] pre.items@[k]).location
                    != target by {
                    if pre.items@[k].location == target {
                        assert(pre.location_occupied(target));
                    }
                }
                lemma_wf_after_row_update(pre, *store, *cat, i as int, item2);
                assert forall|d: u64| #[trigger] qty_sum(store.items@, d) == qty_sum(
                    pre.items@,
                    d,
                ) by {
                    lemma_qty_sum_update(pre.items@, i as int, item2, d);
                }
                assert(item2 == spec_relocated(item, target, item.owner_identity));
            }
            return Ok(());
        },
        Some(j) => j,
    };
    proof {
        assert(pre.location_occupied(target));
        if pre.index_at(target) != j as int {
            let j2 = pre.index_at(target);
            assert(pre.items@[j2].location == target);
            assert(false);
        }
        if i == j {
            assert(pre.items@[i as int].location == target);
            assert(false);
        }
        assert(pre.row_wf(*cat, j as int));
    }
    let occ = store.items[j];
    if !(occ.item_def_id == item.item_def_id && occ.quantity < stack_size) {
        return Err(ErrorCode::Occupied);
    }
    let space: u32 = stack_size - occ.quantity;
    if item.quantity <= space {
        let occ2 = InventoryItem {
            instance_id: occ.instance_id,
            owner_identity: occ.owner_identity,
            item_def_id: occ.item_def_id,
            quantity: occ.quantity + item.quantity,
            location: occ.location,
        };
        store.items[j] = occ2;
        let ghost mid = *store;
        store.items.remove(i);
        proof {
            lemma_wf_after_row_update(pre, mid, *cat, j as int, occ2);
            lemma_wf_after_remove(mid, *store, *cat, i as int);
            assert forall|d: u64| #[trigger] qty_sum(store.items@, d) == qty_sum(
                pre.items@,
                d,
            ) by {
                lemma_qty_sum_update(pre.items@, j as int, occ2, d);
                lemma_qty_sum_remove(mid.items@, i as int, d);
                assert(mid.items@[i as int] == pre.items@[i as int]);
            }
            assert(occ2 == spec_with_quantity(occ, (occ.quantity + item.quantity) as u32));
        }
        Ok(())
    } else if unplaced {
        Err(ErrorCode::Occupied)
    } else {
        let occ2 = InventoryItem {
            instance_id: occ.instance_id,
            owner_identity: occ.owner_identity,
            item_def_id: occ.item_def_id,
            quantity: stack_size,
            location: occ.location,
        };
        let item2 = InventoryItem {
            instance_id: item.instance_id,
            owner_identity: item.owner_identity,
            item_def_id: item.item_def_id,
            quantity: item.quantity - space,
            location: item.location,
        };
        store.items[j] = occ2;
        let ghost mid = *store;
        store.items[i] = item2;
        proof {
            lemma_wf_after_row_update(pre, mid, *cat, j as int, occ2);
            assert(mid.items@[i as int] == pre.items@[i as int]);
            assert(mid.row_wf(*cat, i as int));
            lemma_wf_after_row_update(mid, *store, *cat, i as int, item2);
            assert forall|d: u64| #[trigger] qty_sum(store.items@, d) == qty_sum(
                pre.items@,
                d,
            ) by {
                lemma_qty_sum_update(pre.items@, j as int, occ2, d);
                lemma_qty_sum_update(mid.items@, i as int, item2, d);
            }
            assert(occ2 == spec_with_quantity(occ, stack_size));
            assert(item2 == spec_with_quantity(item, (item.quantity - space) as u32));
        }
        Ok(())
    }
}

/// Adds a wood stack of the caller to a campfire: merge onto the wood
/// already in the fuel slots in slot order, then place any remainder into
/// the first empty fuel slot.
///
/// The item must be the caller's, sit in inventory or hotbar, and be Wood.
/// With every slot full and no space to merge the rest, the call fails
/// with `InventoryFull`; stacks already merged remain, as the
/// transactional host decides whether to keep them.
#[verifier::loop_isolation(false)]
pub fn auto_add_wood_to_campfire(
    store: &mut ItemStore,
    cat: &ItemCatalog,
    campfires: &Vec<Campfire>,
    actor: u64,
    campfire_id: u32,
    item_instance_id: u64,
) -> (r: Result<(), ErrorCode>)
    requires
        old(store).wf(*cat),
        cat.wf(),
        campfires_wf(campfires@),
    ensures
        final(store).wf(*cat),
        final(store).next_instance_id == old(store).next_instance_id,
        same_totals(final(store).items@, old(store).items@),
        !has_campfire(campfires@, campfire_id) ==> r == Result::<(), ErrorCode>::Err(
            ErrorCode::NotFound,
        ) && *final(store) == *old(store),
        has_campfire(campfires@, campfire_id) && !old(store).has_instance(item_instance_id) ==> r
            == Result::<(), ErrorCode>::Err(ErrorCode::NotFound) && *final(store) == *old(store),
        has_campfire(campfires@, campfire_id) && old(store).has_instance(item_instance_id) ==> {
            let i = old(store).index_of(item_instance_id);
            let item = old(store).items@[i];
            let def = cat.def_of(item.item_def_id);
            &&& item.owner_identity != actor ==> r == Result::<(), ErrorCode>::Err(
                ErrorCode::NotOwned,
            ) && *final(store) == *old(store)
            &&& item.owner_identity == actor && !(item.location is PlayerInventory
                || item.location is PlayerHotbar) ==> r == Result::<(), ErrorCode>::Err(
                ErrorCode::InvalidSlot,
            ) && *final(store) == *old(store)
            &&& item.owner_identity == actor && (item.location is PlayerInventory
                || item.location is PlayerHotbar) && !(def.name@ == "Wood"@ && def.is_stackable)
                ==> r == Result::<(), ErrorCode>::Err(ErrorCode::CannotMerge) && *final(store)
                == *old(store)
            &&& r is Ok ==> (!final(store).has_instance(item_instance_id)
                || (final(store).row_of(item_instance_id).location matches ItemLocation::Container {
                container_type: ContainerType::Campfire,
                container_id,
                ..
            } && container_id == campfire_id as u64))
            &&& item.owner_identity == actor && (item.location is PlayerInventory
                || item.location is PlayerHotbar) && def.name@ == "Wood"@ && def.is_stackable
                ==> {
                &&& (exists|s: u8|
                    s < CAMPFIRE_FUEL_SLOT_COUNT && !#[trigger] old(store).location_occupied(
                        spec_fuel_slot(campfire_id, s),
                    )) ==> r is Ok
                &&& r is Ok ==> player_qty_sum(final(store).items@, actor, item.item_def_id)
                    == player_qty_sum(old(store).items@, actor, item.item_def_id) - item.quantity
                &&& forall|p: u64, d: u64|
                    p != actor || d != item.item_def_id ==> #[trigger] player_qty_sum(
                        final(store).items@,
                        p,
                        d,
                    ) == player_qty_sum(old(store).items@, p, d)
                &&& r is Err ==> {
                    &&& final(store).has_instance(item_instance_id)
                    &&& final(store).row_of(item_instance_id).location == item.location
                    &&& final(store).row_of(item_instance_id).quantity <= item.quantity
                    &&& player_qty_sum(final(store).items@, actor, item.item_def_id)
                        == player_qty_sum(old(store).items@, actor, item.item_def_id) - (
                    item.quantity - final(store).row_of(item_instance_id).quantity)
                }
                // With no partial wood stack in the fuel slots to grow,
                // the stack moves whole into the lowest empty fuel slot.
                &&& (forall|s: u8|
                    s < CAMPFIRE_FUEL_SLOT_COUNT ==> !#[trigger] old(store).location_occupied(
                        spec_fuel_slot(campfire_id, s),
                    ) || old(store).items@[old(store).index_at(
                        spec_fuel_slot(campfire_id, s),
                    )].item_def_id != item.item_def_id || old(store).items@[old(store).index_at(
                        spec_fuel_slot(campfire_id, s),
                    )].quantity >= def.stack_size) && (exists|s: u8|
                    s < CAMPFIRE_FUEL_SLOT_COUNT && !#[trigger] old(store).location_occupied(
                        spec_fuel_slot(campfire_id, s),
                    )) ==> r is Ok && (exists|h: u8|
                    h < CAMPFIRE_FUEL_SLOT_COUNT && !#[trigger] old(store).location_occupied(
                        spec_fuel_slot(campfire_id, h),
                    ) && (forall|s: u8|
                        s < h ==> #[trigger] old(store).location_occupied(
                            spec_fuel_slot(campfire_id, s),
                        )) && final(store).items@ == old(store).items@.update(
                        i,
                        (InventoryItem {
                            instance_id: item.instance_id,
                            owner_identity: item.owner_identity,
                            item_def_id: item.item_def_id,
                            quantity: item.quantity,
                            location: spec_fuel_slot(campfire_id, h),
                        }),
                    ))
            }
        },
        r is Err ==> (r->Err_0 == ErrorCode::NotFound || r->Err_0 == ErrorCode::NotOwned
            || r->Err_0 == ErrorCode::InvalidSlot || r->Err_0 == ErrorCode::CannotMerge
            || r->Err_0 == ErrorCode::InventoryFull),
        r is Err && r->Err_0 == ErrorCode::InventoryFull ==> forall|s: u8|
            s < CAMPFIRE_FUEL_SLOT_COUNT ==> #[trigger] final(store).location_occupied(
                spec_fuel_slot(campfire_id, s),
            ),
{
    let ghost orig = *store;
    if find_campfire_index(campfires, campfire_id).is_none() {
        return Err(ErrorCode::NotFound);
    }
    let i: usize = match store.find_index(item_instance_id) {
        None => { return Err(ErrorCode::NotFound); },
        Some(i) => i,
    };
    proof {
        assert(orig.index_of(item_instance_id) == i as int);
        assert(orig.row_wf(*cat, i as int));
    }
    let item0 = store.items[i];
    if item0.owner_identity != actor {
        return Err(ErrorCode::NotOwned);
    }
    let in_player_slots: bool = match item0.location {
        ItemLocation::PlayerInventory { .. } => true,
        ItemLocation::PlayerHotbar { .. } => true,
        _ => false,
    };
    if !in_player_slots {
        return Err(ErrorCode::InvalidSlot);
    }
    let (is_wood, stackable, stack_size): (bool, bool, u32) = match cat.find_def(
        item0.item_def_id,
    ) {
        Some(def) => {
            let wood: String = "Wood".to_owned();
            (def.name == wood, def.is_stackable, def.stack_size)
        },
        None => { return Err(ErrorCode::Internal); },
    };
    if !is_wood || !stackable {
        return Err(ErrorCode::CannotMerge);
    }
    let wood_def_id: u64 = item0.item_def_id;
    let ghost merge_free = forall|s: u8|
        s < CAMPFIRE_FUEL_SLOT_COUNT ==> !#[trigger] orig.location_occupied(
            spec_fuel_slot(campfire_id, s),
        ) || orig.items@[orig.index_at(spec_fuel_slot(campfire_id, s))].item_def_id != wood_def_id
            || orig.items@[orig.index_at(spec_fuel_slot(campfire_id, s))].quantity >= stack_size;

    // Merge onto the wood already sitting in the fuel slots, slot by slot.
    let mut slot: u8 = 0;
    let mut depleted: bool = false;
    while slot < CAMPFIRE_FUEL_SLOT_COUNT && !depleted
        invariant
            store.wf(*cat),
            cat.wf(),
            cat.has_def(wood_def_id),
            cat.def_of(wood_def_id).is_stackable,
            cat.def_of(wood_def_id).stack_size == stack_size,
            slot <= CAMPFIRE_FUEL_SLOT_COUNT,
            store.next_instance_id == orig.next_instance_id,
            forall|d: u64| #[trigger] qty_sum(store.items@, d) == qty_sum(orig.items@, d),
            !depleted ==> store.has_instance(item_instance_id) && store.index_of(item_instance_id)
                == i as int && i < store.items@.len() && store.items@[i as int].instance_id
                == item_instance_id && store.items@[i as int].item_def_id == wood_def_id
                && store.items@[i as int].location == orig.items@[i as int].location
                && store.items@[i as int].owner_identity == actor
                && store.items@[i as int].quantity <= orig.items@[i as int].quantity,
            depleted ==> !store.has_instance(item_instance_id),
            player_qty_sum(store.items@, actor, wood_def_id) == player_qty_sum(
                orig.items@,
                actor,
                wood_def_id,
            ) - orig.items@[i as int].quantity + (if depleted {
                0int
            } else {
                store.items@[i as int].quantity as int
            }),
            forall|p: u64, d: u64|
                p != actor || d != wood_def_id ==> #[trigger] player_qty_sum(store.items@, p, d)
                    == player_qty_sum(orig.items@, p, d),
            forall|loc: ItemLocation|
                #[trigger] store.location_occupied(loc) ==> orig.location_occupied(loc),
            merge_free ==> *store == orig && !depleted,
        decreases CAMPFIRE_FUEL_SLOT_COUNT - slot,
    {
        let ghost pre = *store;
        let fuel_loc = fuel_slot_location(campfire_id, slot);
        match store.find_index_at(fuel_loc) {
            Some(j) => {
                proof {
                    assert(pre.row_wf(*cat, j as int));
                    if i == j {
                        assert(pre.items@[i as int].location == fuel_loc);
                        assert(false);
                    }
                    if merge_free {
                        assert(orig.items@[j as int].location == fuel_loc);
                        assert(orig.location_occupied(fuel_loc));
                        let k = orig.index_at(fuel_loc);
                        assert(orig.items@[k].location == fuel_loc);
                        if k != j as int {
                            assert(orig.items@[k].location.is_slotted());
                            assert(false);
                        }
                    }
                }
                let occ = store.items[j];
                if occ.item_def_id == wood_def_id && occ.quantity < stack_size {
                    let item = store.items[i];
                    let space: u32 = stack_size - occ.quantity;
                    let transfer: u32 = if item.quantity < space {
                        item.quantity
                    } else {
                        space
                    };
                    let occ2 = InventoryItem {
                        instance_id: occ.instance_id,
                        owner_identity: occ.owner_identity,
                        item_def_id: occ.item_def_id,
                        quantity: occ.quantity + transfer,
                        location: occ.location,
                    };
                    store.items[j] = occ2;
                    let ghost mid = *store;
                    proof {
                        lemma_wf_after_row_update(pre, mid, *cat, j as int, occ2);
                    }
                    if transfer == item.quantity {
                        store.items.remove(i);
                        depleted = true;
                        proof {
                            lemma_wf_after_remove(mid, *store, *cat, i as int);
                            assert forall|d: u64| #[trigger] qty_sum(store.items@, d) == qty_sum(
                                pre.items@,
                                d,
                            ) by {
                                lemma_qty_sum_update(pre.items@, j as int, occ2, d);
                                lemma_qty_sum_remove(mid.items@, i as int, d);
                                assert(mid.items@[i as int] == pre.items@[i as int]);
                            }
                            assert forall|p: u64, d: u64|
                                #[trigger] player_qty_sum(store.items@, p, d) == player_qty_sum(
                                pre.items@,
                                p,
                                d,
                            ) - (if p == actor && d == wood_def_id {
                                item.quantity as int
                            } else {
                                0int
                            }) by {
                                crate::inventory::lemma_player_qty_sum_update(
                                    pre.items@,
                                    j as int,
                                    occ2,
                                    p,
                                    d,
                                );
                                crate::inventory::lemma_player_qty_sum_remove(
                                    mid.items@,
                                    i as int,
                                    p,
                                    d,
                                );
                                assert(mid.items@[i as int] == pre.items@[i as int]);
                            }
                            assert forall|k: int|
                                0 <= k < store.items@.len() implies (
                            #[trigger] store.items@[k]).instance_id != item_instance_id by {
                                let k0 = if k < i as int {
                                    k
                                } else {
                                    k + 1
                                };
                                assert(store.items@[k] == mid.items@[k0]);
                                if k0 != i as int && mid.items@[k0].instance_id
                                    == item_instance_id {
                                    assert(mid.items@[i as int].instance_id == item_instance_id);
                                    assert(false);
                                }
                            }
                            assert forall|loc: ItemLocation|
                                #[trigger] store.location_occupied(loc) implies pre
                                .location_occupied(loc) by {
                                let k = choose|k: int|
                                    0 <= k < store.items@.len() && (
                                    #[trigger] store.items@[k]).location == loc;
                                let k0 = if k < i as int {
                                    k
                                } else {
                                    k + 1
                                };
                                assert(store.items@[k] == mid.items@[k0]);
                                assert(pre.items@[k0].location == loc || k0 == j as int);
                                assert(pre.location_occupied(loc));
                            }
                        }
                    } else {
                        let item2 = InventoryItem {
                            instance_id: item.instance_id,
                            owner_identity: item.owner_identity,
                            item_def_id: item.item_def_id,
                            quantity: item.quantity - transfer,
                            location: item.location,
                        };
                        store.items[i] = item2;
                        proof {
                            assert(mid.items@[i as int] == pre.items@[i as int]);
                            assert(mid.row_wf(*cat, i as int));
                            lemma_wf_after_row_update(mid, *store, *cat, i as int, item2);
                            assert forall|d: u64| #[trigger] qty_sum(store.items@, d) == qty_sum(
                                pre.items@,
                                d,
                            ) by {
                                lemma_qty_sum_update(pre.items@, j as int, occ2, d);
                                lemma_qty_sum_update(mid.items@, i as int, item2, d);
                            }
                            assert forall|p: u64, d: u64|
                                #[trigger] player_qty_sum(store.items@, p, d) == player_qty_sum(
                                pre.items@,
                                p,
                                d,
                            ) - (if p == actor && d == wood_def_id {
                                transfer as int
                            } else {
                                0int
                            }) by {
                                crate::inventory::lemma_player_qty_sum_update(
                                    pre.items@,
                                    j as int,
                                    occ2,
                                    p,
                                    d,
                                );
                                crate::inventory::lemma_player_qty_sum_update(
                                    mid.items@,
                                    i as int,
                                    item2,
                                    p,
                                    d,
                                );
                                assert(mid.items@[i as int] == pre.items@[i as int]);
                            }
                            if store.index_of(item_instance_id) != i as int {
                                let k = store.index_of(item_instance_id);
                                assert(store.items@[k].instance_id == item_instance_id);
                                assert(false);
                            }
                            assert forall|loc: ItemLocation|
                                #[trigger] store.location_occupied(loc) implies pre
                                .location_occupied(loc) by {
                                let k = choose|k: int|
                                    0 <= k < store.items@.len() && (
                                    #[trigger] store.items@[k]).location == loc;
                                assert(pre.items@[k].location == loc || k == j as int || k
                                    == i as int);
                                assert(pre.location_occupied(loc));
                            }
                        }
                    }
                }
            },
            None => {},
        }
        slot = slot + 1;
    }

    if depleted {
        return Ok(());
    }

    // Quantity remains: place the stack itself into the first empty fuel
    // slot.
    let mut empty_slot: u8 = 0;
    let mut found: bool = false;
    while empty_slot < CAMPFIRE_FUEL_SLOT_COUNT && !found
        invariant
            empty_slot <= CAMPFIRE_FUEL_SLOT_COUNT,
            found ==> empty_slot < CAMPFIRE_FUEL_SLOT_COUNT && !store.location_occupied(
                spec_fuel_slot(campfire_id, empty_slot),
            ),
            forall|s: u8|
                s < empty_slot ==> #[trigger] store.location_occupied(
                    spec_fuel_slot(campfire_id, s),
                ),
        decreases CAMPFIRE_FUEL_SLOT_COUNT - empty_slot, (if found { 0int } else { 1int }),
    {
        if store.find_index_at(fuel_slot_location(campfire_id, empty_slot)).is_none() {
            found = true;
        } else {
            empty_slot = empty_slot + 1;
        }
    }
    if !found {
        proof {
            // Every fuel slot is occupied now, and nothing in the merge
            // phase occupied a new location, so none was free before.
            assert forall|s: u8|
                s < CAMPFIRE_FUEL_SLOT_COUNT implies #[trigger] orig.location_occupied(
                spec_fuel_slot(campfire_id, s),
            ) by {
                assert(store.location_occupied(spec_fuel_slot(campfire_id, s)));
            }
        }
        return Err(ErrorCode::InventoryFull);
    }
    let ghost pre = *store;
    let item = store.items[i];
    let fuel_loc = fuel_slot_location(campfire_id, empty_slot);
    let item2 = InventoryItem {
        instance_id: item.instance_id,
        owner_identity: item.owner_identity,
        item_def_id: item.item_def_id,
        quantity: item.quantity,
        location: fuel_loc,
    };
    store.items[i] = item2;
    proof {
        assert(pre.row_wf(*cat, i as int));
        assert forall|k: int|
            0 <= k < pre.items@.len() && k != i implies (#[trigger] pre.items@[k]).location
            != fuel_loc by {
            if pre.items@[k].location == fuel_loc {
                assert(pre.location_occupied(fuel_loc));
            }
        }
        lemma_wf_after_row_update(pre, *store, *cat, i as int, item2);
        assert forall|d: u64| #[trigger] qty_sum(store.items@, d) == qty_sum(pre.items@, d) by {
            lemma_qty_sum_update(pre.items@, i as int, item2, d);
        }
        assert forall|p: u64, d: u64|
            #[trigger] player_qty_sum(store.items@, p, d) == player_qty_sum(pre.items@, p, d) - (
            if p == actor && d == wood_def_id {
                item.quantity as int
            } else {
                0int
            }) by {
            crate::inventory::lemma_player_qty_sum_update(pre.items@, i as int, item2, p, d);
        }
        if store.index_of(item_instance_id) != i as int {
            let k = store.index_of(item_instance_id);
            assert(store.items@[k].instance_id == item_instance_id);
            assert(false);
        }
        if merge_free {
            assert(pre == orig);
            assert(!orig.location_occupied(spec_fuel_slot(campfire_id, empty_slot)));
            assert(forall|s: u8|
                s < empty_slot ==> #[trigger] orig.location_occupied(
                    spec_fuel_slot(campfire_id, s),
                ));
            assert(store.items@ == orig.items@.update(i as int, item2));
        }
    }
    Ok(())
}

} // verus!
