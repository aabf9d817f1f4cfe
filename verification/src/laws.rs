//! The library-wide laws, stated and proved once.
//!
//! Each law here holds of every well-formed state the verified mutations
//! can produce; the mutations' own contracts establish and preserve the
//! premises.

use vstd::prelude::*;

use crate::items::{ItemCatalog, ItemCategory, ItemLocation, InventoryItem};
use crate::inventory::{
    ItemStore, qty_sum, same_totals, spec_move_to_player_slot, spec_split_stack,
    spec_with_quantity, spec_movable_source,
};

verus! {

/// Conservation composes: two mutations that each preserve every
/// definition's total preserve it in sequence, so any chain of moves,
/// merges, splits and drops conserves the total per definition.
pub proof fn lemma_conservation_composes(
    a: Seq<InventoryItem>,
    b: Seq<InventoryItem>,
    c: Seq<InventoryItem>,
)
    requires
        same_totals(b, a),
        same_totals(c, b),
    ensures
        same_totals(c, a),
{
    assert forall|d: u64| #[trigger] qty_sum(c, d) == qty_sum(a, d) by {
        assert(qty_sum(b, d) == qty_sum(a, d));
        assert(qty_sum(c, d) == qty_sum(b, d));
    }
}

/// Slot uniqueness: in a well-formed store no two rows share a slotted
/// location.
pub proof fn lemma_slot_uniqueness(store: ItemStore, cat: ItemCatalog, i: int, j: int)
    requires
        store.wf(cat),
        0 <= i < store.items@.len(),
        0 <= j < store.items@.len(),
        i != j,
        store.items@[i].location.is_slotted(),
    ensures
        store.items@[i].location != store.items@[j].location,
{
}

/// Stack bounds: in a well-formed store every row's quantity lies in
/// `[1, stack_size]` of its definition.
pub proof fn lemma_stack_bounds(store: ItemStore, cat: ItemCatalog, i: int)
    requires
        store.wf(cat),
        0 <= i < store.items@.len(),
    ensures
        1 <= store.items@[i].quantity,
        store.items@[i].quantity <= cat.def_of(store.items@[i].item_def_id).stack_size,
{
    assert(store.row_wf(cat, i));
}

/// Equipment type safety: in a well-formed store every row worn in a
/// body slot is armor whose definition names exactly that slot.
pub proof fn lemma_equipment_type_safety(store: ItemStore, cat: ItemCatalog, i: int)
    requires
        store.wf(cat),
        0 <= i < store.items@.len(),
        store.items@[i].location is Equipment,
    ensures
        cat.def_of(store.items@[i].item_def_id).category == ItemCategory::Armor,
        (match store.items@[i].location {
            ItemLocation::Equipment { owner_identity, slot } => cat.def_of(
                store.items@[i].item_def_id,
            ).equipment_slot == Some(slot) && store.items@[i].owner_identity == owner_identity,
            _ => true,
        }),
{
    assert(store.row_wf(cat, i));
}

/// The merge law: moving stack A onto an occupied player slot holding
/// stack B of the same stackable definition combines them when their sum
/// fits the stack cap — B then holds the sum and A is gone — and
/// otherwise fills B to the cap while A keeps exactly the excess.
pub proof fn lemma_merge_law(
    pre: ItemStore,
    cat: ItemCatalog,
    actor: u64,
    instance_id: u64,
    target: ItemLocation,
)
    requires
        pre.wf(cat),
        cat.wf(),
        pre.has_instance(instance_id),
        spec_movable_source(pre.row_of(instance_id).location),
        pre.row_of(instance_id).location != target,
        pre.location_occupied(target),
        target.is_slotted(),
        pre.items@[pre.index_at(target)].item_def_id == pre.row_of(instance_id).item_def_id,
        cat.def_of(pre.row_of(instance_id).item_def_id).is_stackable,
        pre.items@[pre.index_at(target)].quantity < cat.def_of(
            pre.row_of(instance_id).item_def_id,
        ).stack_size,
        !(pre.row_of(instance_id).location is Unplaced) || pre.row_of(instance_id).quantity
            <= cat.def_of(pre.row_of(instance_id).item_def_id).stack_size - pre.items@[
            pre.index_at(target)
        ].quantity,
    ensures
        spec_move_to_player_slot(pre, cat, actor, instance_id, target).0 is Ok,
        ({
            let i = pre.index_of(instance_id);
            let j = pre.index_at(target);
            let item = pre.items@[i];
            let occ = pre.items@[j];
            let cap = cat.def_of(item.item_def_id).stack_size;
            let out = spec_move_to_player_slot(pre, cat, actor, instance_id, target).1;
            &&& item.quantity + occ.quantity <= cap ==> out.len() == pre.items@.len() - 1
                && out[if j < i {
                j
            } else {
                j - 1
            }].quantity == item.quantity + occ.quantity
            &&& item.quantity + occ.quantity > cap ==> out.len() == pre.items@.len() && out[
            j].quantity == cap && out[i].quantity == item.quantity + occ.quantity - cap
        }),
{
    let i = pre.index_of(instance_id);
    let j = pre.index_at(target);
    let item = pre.items@[i];
    let occ = pre.items@[j];
    let cap = cat.def_of(item.item_def_id).stack_size;
    if i == j {
        assert(item.location == target);
        assert(false);
    }
    assert(pre.row_wf(cat, i));
    assert(pre.row_wf(cat, j));
    let out = spec_move_to_player_slot(pre, cat, actor, instance_id, target);
    if item.quantity + occ.quantity <= cap {
        assert(item.quantity <= cap - occ.quantity);
        assert(out.1 == pre.items@.update(
            j,
            spec_with_quantity(occ, (occ.quantity + item.quantity) as u32),
        ).remove(i));
    }
}

/// The split round trip: splitting a quantity off a stack onto an empty
/// slot and then moving the new stack back onto the source's slot
/// restores the source's original quantity, deletes the new stack, and
/// conserves every definition's total throughout.
pub proof fn lemma_split_round_trip(
    pre: ItemStore,
    mid: ItemStore,
    cat: ItemCatalog,
    actor: u64,
    instance_id: u64,
    quantity_to_split: u32,
    target: ItemLocation,
)
    requires
        pre.wf(cat),
        cat.wf(),
        mid.wf(cat),
        pre.has_instance(instance_id),
        pre.row_of(instance_id).owner_identity == actor,
        cat.def_of(pre.row_of(instance_id).item_def_id).is_stackable,
        0 < quantity_to_split < pre.row_of(instance_id).quantity,
        !pre.location_occupied(target),
        target is PlayerInventory || target is PlayerHotbar,
        pre.row_of(instance_id).location is PlayerInventory || pre.row_of(
            instance_id,
        ).location is PlayerHotbar,
        pre.row_of(instance_id).location != target,
        pre.next_instance_id < u64::MAX,
        mid.items@ == spec_split_stack(
            pre,
            cat,
            actor,
            instance_id,
            quantity_to_split,
            Some(target),
        ).1,
        mid.next_instance_id == spec_split_stack(
            pre,
            cat,
            actor,
            instance_id,
            quantity_to_split,
            Some(target),
        ).2,
    ensures
        spec_split_stack(pre, cat, actor, instance_id, quantity_to_split, Some(target)).0 is Ok,
        ({
            let back = spec_move_to_player_slot(
                mid,
                cat,
                actor,
                pre.next_instance_id,
                pre.row_of(instance_id).location,
            );
            &&& back.0 is Ok
            &&& back.1.len() == pre.items@.len()
            &&& back.1[pre.index_of(instance_id)].quantity == pre.row_of(instance_id).quantity
            &&& back.1[pre.index_of(instance_id)].instance_id == instance_id
            &&& forall|d: u64| #[trigger] qty_sum(back.1, d) == qty_sum(pre.items@, d)
        }),
{
    let i = pre.index_of(instance_id);
    let item = pre.items@[i];
    let loc0 = item.location;
    assert(pre.row_wf(cat, i));
    let out = spec_split_stack(pre, cat, actor, instance_id, quantity_to_split, Some(target));
    assert(out.0 is Ok);
    let reduced = spec_with_quantity(item, (item.quantity - quantity_to_split) as u32);
    let fresh = InventoryItem {
        instance_id: pre.next_instance_id,
        owner_identity: actor,
        item_def_id: item.item_def_id,
        quantity: quantity_to_split,
        location: target,
    };
    assert(mid.items@ == pre.items@.update(i, reduced).push(fresh));
    let n = pre.items@.len() as int;
    // The fresh stack is the last row of the split state and the source
    // keeps its slot, so the move back finds both.
    assert(mid.items@[n] == fresh);
    assert(mid.has_instance(pre.next_instance_id));
    let f = mid.index_of(pre.next_instance_id);
    if f != n {
        assert(mid.items@[f].instance_id == pre.next_instance_id);
        if f < n {
            if f == i {
                assert(mid.items@[f] == reduced);
                assert(reduced.instance_id == instance_id);
                assert(pre.next_instance_id != instance_id) by {
                    assert(pre.row_wf(cat, i));
                }
            } else {
                assert(mid.items@[f] == pre.items@[f]);
                assert(pre.row_wf(cat, f));
            }
        }
        assert(false);
    }
    assert(mid.location_occupied(loc0)) by {
        assert(mid.items@[i] == reduced);
        assert(reduced.location == loc0);
    }
    let j = mid.index_at(loc0);
    if j != i {
        assert(mid.items@[j].location == loc0);
        assert(loc0.is_slotted());
        if j < n {
            if mid.items@[j] == pre.items@[j] {
                assert(pre.items@[j].location != pre.items@[i].location);
            }
        } else {
            assert(mid.items@[j] == fresh);
        }
        assert(false);
    }
    let back = spec_move_to_player_slot(mid, cat, actor, pre.next_instance_id, loc0);
    assert(fresh.location == target);
    assert(fresh.location != loc0);
    assert(spec_movable_source(fresh.location));
    assert(cat.def_of(fresh.item_def_id).is_stackable);
    assert(reduced.quantity < cat.def_of(item.item_def_id).stack_size) by {
        assert(item.quantity <= cat.def_of(item.item_def_id).stack_size);
    }
    assert(fresh.quantity <= cat.def_of(item.item_def_id).stack_size - reduced.quantity);
    assert(back.0 is Ok);
    let merged = spec_with_quantity(reduced, (reduced.quantity + fresh.quantity) as u32);
    assert(back.1 == mid.items@.update(i, merged).remove(n));
    assert(back.1.len() == n);
    assert(back.1[i] == merged);
    assert(merged.quantity == item.quantity);
    assert forall|d: u64| #[trigger] qty_sum(back.1, d) == qty_sum(pre.items@, d) by {
        crate::inventory::lemma_qty_sum_update(pre.items@, i, reduced, d);
        crate::inventory::lemma_qty_sum_push(pre.items@.update(i, reduced), fresh, d);
        crate::inventory::lemma_qty_sum_update(mid.items@, i, merged, d);
        crate::inventory::lemma_qty_sum_remove(mid.items@.update(i, merged), n, d);
        assert(mid.items@.update(i, merged)[n] == fresh);
    }
}

} // verus!
