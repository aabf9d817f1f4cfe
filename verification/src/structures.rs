//! Placeable structures and the per-player equipment row.
//!
//! A structure carries the shared damage/repair surface: health against a
//! maximum, a destroyed flag, and the stamp of the last hit, which gates
//! repairs.  A campfire additionally burns fuel held in its container
//! slots; whether it keeps burning is re-evaluated whenever fuel leaves.

use vstd::prelude::*;

use crate::items::{ContainerType, ItemLocation, CAMPFIRE_FUEL_SLOT_COUNT};
use crate::inventory::ItemStore;

verus! {

/// Full health of a campfire.
pub const CAMPFIRE_MAX_HEALTH: u32 = 100;
/// Full health of a wooden storage box.
pub const WOODEN_STORAGE_BOX_MAX_HEALTH: u32 = 750;
/// Full health of a shelter.
pub const SHELTER_INITIAL_MAX_HEALTH: u32 = 100000;

/// A placed campfire with its burn state; its fuel lives in item rows
/// located in the campfire's container slots.
#[derive(Clone, Copy, Debug, PartialEq, Eq, Structural)]
pub struct Campfire {
    pub id: u32,
    pub pos_x: u32,
    pub pos_y: u32,
    pub placed_by: u64,
    pub health: u32,
    pub max_health: u32,
    pub is_destroyed: bool,
    pub last_hit_time: Option<u64>,
    pub last_damaged_by: Option<u64>,
    pub is_burning: bool,
    pub next_fuel_consume_at: Option<u64>,
}

/// A placed wooden storage box; its contents live in item rows located in
/// the box's container slots.
#[derive(Clone, Copy, Debug, PartialEq, Eq, Structural)]
pub struct WoodenStorageBox {
    pub id: u32,
    pub pos_x: u32,
    pub pos_y: u32,
    pub placed_by: u64,
    pub health: u32,
    pub max_health: u32,
    pub is_destroyed: bool,
    pub last_hit_time: Option<u64>,
    pub last_damaged_by: Option<u64>,
}

/// A placed shelter, an axis-aligned box larger than one grid cell.
#[derive(Clone, Copy, Debug, PartialEq, Eq, Structural)]
pub struct Shelter {
    pub id: u32,
    pub pos_x: u32,
    pub pos_y: u32,
    pub placed_by: u64,
    pub health: u32,
    pub max_health: u32,
    pub is_destroyed: bool,
    pub last_hit_time: Option<u64>,
    pub last_damaged_by: Option<u64>,
}

/// The per-player equipment row: the item swung with the main hand and its
/// swing timer.  Armor worn on the body is tracked by the armor rows'
/// own `Equipment` locations.
#[derive(Clone, Copy, Debug, PartialEq, Eq, Structural)]
pub struct ActiveEquipment {
    pub player_identity: u64,
    pub equipped_item_instance_id: Option<u64>,
    pub equipped_item_def_id: Option<u64>,
    pub swing_start_time_ms: u64,
}

/// Campfire ids are unique keys of the campfire table.
pub open spec fn campfires_wf(s: Seq<Campfire>) -> bool {
    forall|i: int, j: int| 0 <= i < j < s.len() ==> (#[trigger] s[i]).id != (#[trigger] s[j]).id
}

/// Whether a campfire with this id exists.
pub open spec fn has_campfire(s: Seq<Campfire>, id: u32) -> bool {
    exists|i: int| 0 <= i < s.len() && (#[trigger] s[i]).id == id
}

/// The index of the campfire with this id.
pub open spec fn campfire_index(s: Seq<Campfire>, id: u32) -> int {
    choose|i: int| 0 <= i < s.len() && (#[trigger] s[i]).id == id
}

/// Finds the index of the campfire with this id.
pub fn find_campfire_index(campfires: &Vec<Campfire>, id: u32) -> (r: Option<usize>)
    requires
        campfires_wf(campfires@),
    ensures
        r is Some <==> has_campfire(campfires@, id),
        r is Some ==> r->Some_0 < campfires@.len() && r->Some_0 == campfire_index(campfires@, id)
            && campfires@[r->Some_0 as int].id == id,
{
    let n: usize = campfires.len();
    let mut i: usize = 0;
    while i < n
        invariant
            n == campfires@.len(),
            i <= n,
            campfires_wf(campfires@),
            forall|k: int| 0 <= k < i ==> (#[trigger] campfires@[k]).id != id,
        decreases n - i,
    {
        if campfires[i].id == id {
            proof {
                let j = campfire_index(campfires@, id);
                if j != i as int {
                    assert(campfires@[j].id == id);
                    assert(false);
                }
            }
            return Some(i);
        }
        i = i + 1;
    }
    None
}

/// Storage-box ids are unique keys of the box table.
pub open spec fn boxes_wf(s: Seq<WoodenStorageBox>) -> bool {
    forall|i: int, j: int| 0 <= i < j < s.len() ==> (#[trigger] s[i]).id != (#[trigger] s[j]).id
}

/// Whether a storage box with this id exists.
pub open spec fn has_box(s: Seq<WoodenStorageBox>, id: u32) -> bool {
    exists|i: int| 0 <= i < s.len() && (#[trigger] s[i]).id == id
}

/// The index of the storage box with this id.
pub open spec fn box_index(s: Seq<WoodenStorageBox>, id: u32) -> int {
    choose|i: int| 0 <= i < s.len() && (#[trigger] s[i]).id == id
}

/// Finds the index of the storage box with this id.
pub fn find_box_index(boxes: &Vec<WoodenStorageBox>, id: u32) -> (r: Option<usize>)
    requires
        boxes_wf(boxes@),
    ensures
        r is Some <==> has_box(boxes@, id),
        r is Some ==> r->Some_0 < boxes@.len() && r->Some_0 == box_index(boxes@, id)
            && boxes@[r->Some_0 as int].id == id,
{
    let n: usize = boxes.len();
    let mut i: usize = 0;
    while i < n
        invariant
            n == boxes@.len(),
            i <= n,
            boxes_wf(boxes@),
            forall|k: int| 0 <= k < i ==> (#[trigger] boxes@[k]).id != id,
        decreases n - i,
    {
        if boxes[i].id == id {
            proof {
                let j = box_index(boxes@, id);
                if j != i as int {
                    assert(boxes@[j].id == id);
                    assert(false);
                }
            }
            return Some(i);
        }
        i = i + 1;
    }
    None
}

/// Shelter ids are unique keys of the shelter table.
pub open spec fn shelters_wf(s: Seq<Shelter>) -> bool {
    forall|i: int, j: int| 0 <= i < j < s.len() ==> (#[trigger] s[i]).id != (#[trigger] s[j]).id
}

/// Whether a shelter with this id exists.
pub open spec fn has_shelter(s: Seq<Shelter>, id: u32) -> bool {
    exists|i: int| 0 <= i < s.len() && (#[trigger] s[i]).id == id
}

/// The index of the shelter with this id.
pub open spec fn shelter_index(s: Seq<Shelter>, id: u32) -> int {
    choose|i: int| 0 <= i < s.len() && (#[trigger] s[i]).id == id
}

/// Finds the index of the shelter with this id.
pub fn find_shelter_index(shelters: &Vec<Shelter>, id: u32) -> (r: Option<usize>)
    requires
        shelters_wf(shelters@),
    ensures
        r is Some <==> has_shelter(shelters@, id),
        r is Some ==> r->Some_0 < shelters@.len() && r->Some_0 == shelter_index(shelters@, id)
            && shelters@[r->Some_0 as int].id == id,
{
    let n: usize = shelters.len();
    let mut i: usize = 0;
    while i < n
        invariant
            n == shelters@.len(),
            i <= n,
            shelters_wf(shelters@),
            forall|k: int| 0 <= k < i ==> (#[trigger] shelters@[k]).id != id,
        decreases n - i,
    {
        if shelters[i].id == id {
            proof {
                let j = shelter_index(shelters@, id);
                if j != i as int {
                    assert(shelters@[j].id == id);
                    assert(false);
                }
            }
            return Some(i);
        }
        i = i + 1;
    }
    None
}

/// The campfire a fuel-slot location belongs to, if it is one.
pub open spec fn spec_fuel_source(loc: ItemLocation) -> Option<u64> {
    match loc {
        ItemLocation::Container {
            container_type: ContainerType::Campfire,
            container_id,
            ..
        } => Some(container_id),
        _ => None,
    }
}

/// The row a campfire becomes when its fuel state is re-evaluated against
/// the store: a burning fire with no fuel left goes out, everything else
/// stays as it was.
pub open spec fn spec_reevaluated_campfire(store: ItemStore, c: Campfire) -> Campfire {
    if spec_campfire_has_fuel(store, c.id) {
        c
    } else if c.is_burning {
        Campfire { is_burning: false, next_fuel_consume_at: None, ..c }
    } else {
        c
    }
}

/// The fuel slot location of a campfire.
pub open spec fn spec_fuel_slot(campfire_id: u32, slot: u8) -> ItemLocation {
    ItemLocation::Container {
        container_type: ContainerType::Campfire,
        container_id: campfire_id as u64,
        slot,
    }
}

/// Whether any fuel slot of the campfire holds an item.
pub open spec fn spec_campfire_has_fuel(store: ItemStore, campfire_id: u32) -> bool {
    exists|s: u8|
        s < CAMPFIRE_FUEL_SLOT_COUNT && #[trigger] store.location_occupied(
            spec_fuel_slot(campfire_id, s),
        )
}

/// Whether any fuel slot of the campfire holds an item.
pub fn check_if_campfire_has_fuel(store: &ItemStore, campfire_id: u32) -> (r: bool)
    ensures
        r == spec_campfire_has_fuel(*store, campfire_id),
{
    let mut slot: u8 = 0;
    while slot < CAMPFIRE_FUEL_SLOT_COUNT
        invariant
            slot <= CAMPFIRE_FUEL_SLOT_COUNT,
            forall|s: u8|
                s < slot ==> !#[trigger] store.location_occupied(spec_fuel_slot(campfire_id, s)),
        decreases CAMPFIRE_FUEL_SLOT_COUNT - slot,
    {
        match store.find_index_at(
            crate::items::ItemLocation::Container {
                container_type: ContainerType::Campfire,
                container_id: campfire_id as u64,
                slot,
            },
        ) {
            Some(i) => {
                proof {
                    assert(store.items@[i as int].location == spec_fuel_slot(campfire_id, slot));
                    assert(store.location_occupied(spec_fuel_slot(campfire_id, slot)));
                }
                return true;
            },
            None => {},
        }
        slot = slot + 1;
    }
    false
}

/// Re-evaluates whether the campfire keeps burning: with no fuel left in
/// any slot, the fire goes out and the scheduled fuel consumption is
/// cancelled.  A fire with fuel, or one already out, is untouched.
pub fn reevaluate_campfire_burning(store: &ItemStore, campfire: &mut Campfire) -> (changed: bool)
    ensures
        final(campfire).id == old(campfire).id,
        spec_campfire_has_fuel(*store, old(campfire).id) ==> *final(campfire) == *old(campfire)
            && !changed,
        !spec_campfire_has_fuel(*store, old(campfire).id) && old(campfire).is_burning ==> changed
            && *final(campfire) == (Campfire {
            is_burning: false,
            next_fuel_consume_at: None,
            ..*old(campfire)
        }),
        !spec_campfire_has_fuel(*store, old(campfire).id) && !old(campfire).is_burning ==> *final(campfire) == *old(campfire) && !changed,
{
    let has_fuel = check_if_campfire_has_fuel(store, campfire.id);
    if !has_fuel && campfire.is_burning {
        campfire.is_burning = false;
        campfire.next_fuel_consume_at = None;
        true
    } else {
        false
    }
}

} // verus!
