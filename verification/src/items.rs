//! The static item catalog and the item-instance model.
//!
//! Every physical quantity of an item in the world is exactly one
//! [`InventoryItem`] row, bound to one [`ItemLocation`].  The stacking
//! algebra ([`calculate_merge_result`]) is the single source of truth for
//! how two stacks of the same definition combine.

use vstd::prelude::*;

use crate::errors::ErrorCode;

verus! {

/// Number of main inventory slots per player.
pub const INVENTORY_SLOT_COUNT: u16 = 24;
/// Number of hotbar slots per player.
pub const HOTBAR_SLOT_COUNT: u8 = 6;
/// Number of fuel slots of a campfire.
pub const CAMPFIRE_FUEL_SLOT_COUNT: u8 = 5;
/// Number of content slots of a wooden storage box.
pub const STORAGE_BOX_SLOT_COUNT: u8 = 18;
/// Number of content slots of a player corpse.
pub const CORPSE_SLOT_COUNT: u8 = 24;

/// Broad gameplay category of an item definition.
#[derive(Clone, Copy, Debug, PartialEq, Eq, Hash, Structural)]
pub enum ItemCategory {
    Tool,
    Material,
    Placeable,
    Armor,
    Consumable,
}

/// Body slot an equippable armor piece occupies.
#[derive(Clone, Copy, Debug, PartialEq, Eq, Hash, Structural)]
pub enum EquipmentSlot {
    Head,
    Chest,
    Legs,
    Feet,
    Hands,
    Back,
}

/// Which kind of world container a slotted item sits in.
#[derive(Clone, Copy, Debug, PartialEq, Eq, Hash, Structural)]
pub enum ContainerType {
    Campfire,
    StorageBox,
    Corpse,
}

/// The one location an item instance occupies.
///
/// A freshly split stack is `Unplaced` until its caller places it; a dropped
/// stack lies on the `Ground` at a pixel position.
#[derive(Clone, Copy, Debug, PartialEq, Eq, Structural)]
pub enum ItemLocation {
    PlayerInventory { owner_identity: u64, slot: u16 },
    PlayerHotbar { owner_identity: u64, slot: u8 },
    Equipment { owner_identity: u64, slot: EquipmentSlot },
    Container { container_type: ContainerType, container_id: u64, slot: u8 },
    Ground { x: u32, y: u32 },
    Unplaced,
}

impl ItemLocation {
    /// A slotted location admits at most one occupant; ground and unplaced
    /// stacks are unconstrained.
    pub open spec fn is_slotted(self) -> bool {
        match self {
            ItemLocation::PlayerInventory { .. } => true,
            ItemLocation::PlayerHotbar { .. } => true,
            ItemLocation::Equipment { .. } => true,
            ItemLocation::Container { .. } => true,
            ItemLocation::Ground { .. } => false,
            ItemLocation::Unplaced => false,
        }
    }

    /// The player whose inventory or hotbar holds this location, if any.
    pub open spec fn spec_player_bound(self) -> Option<u64> {
        match self {
            ItemLocation::PlayerInventory { owner_identity, .. } => Some(owner_identity),
            ItemLocation::PlayerHotbar { owner_identity, .. } => Some(owner_identity),
            _ => None,
        }
    }

    /// Executable form of [`Self::spec_player_bound`].
    pub fn is_player_bound(&self) -> (r: Option<u64>)
        ensures
            r == self.spec_player_bound(),
    {
        match self {
            ItemLocation::PlayerInventory { owner_identity, .. } => Some(*owner_identity),
            ItemLocation::PlayerHotbar { owner_identity, .. } => Some(*owner_identity),
            _ => None,
        }
    }

    /// Slot indices stay inside their container's capacity.
    pub open spec fn slot_in_bounds(self) -> bool {
        match self {
            ItemLocation::PlayerInventory { slot, .. } => slot < INVENTORY_SLOT_COUNT,
            ItemLocation::PlayerHotbar { slot, .. } => slot < HOTBAR_SLOT_COUNT,
            ItemLocation::Equipment { .. } => true,
            ItemLocation::Container { container_type, slot, .. } => match container_type {
                ContainerType::Campfire => slot < CAMPFIRE_FUEL_SLOT_COUNT,
                ContainerType::StorageBox => slot < STORAGE_BOX_SLOT_COUNT,
                ContainerType::Corpse => slot < CORPSE_SLOT_COUNT,
            },
            ItemLocation::Ground { .. } => true,
            ItemLocation::Unplaced => true,
        }
    }
}

/// One row of the static item catalog, seeded at init and immutable after.
#[derive(Debug)]
pub struct ItemDefinition {
    pub id: u64,
    pub name: String,
    pub description: String,
    pub category: ItemCategory,
    pub icon_asset_name: String,
    pub damage: Option<u32>,
    pub is_stackable: bool,
    pub stack_size: u32,
    pub is_equippable: bool,
    pub equipment_slot: Option<EquipmentSlot>,
}

impl ItemDefinition {
    /// Catalog-level soundness of one definition: a positive stack cap, and
    /// exactly 1 for non-stackables.
    pub open spec fn wf(self) -> bool {
        &&& self.stack_size >= 1
        &&& !self.is_stackable ==> self.stack_size == 1
    }
}

impl Clone for ItemDefinition {
    /// A clone keeps every field, so contracts can speak of the copy.
    fn clone(&self) -> (r: Self)
        ensures
            r == *self,
    {
        ItemDefinition {
            id: self.id,
            name: self.name.clone(),
            description: self.description.clone(),
            category: self.category,
            icon_asset_name: self.icon_asset_name.clone(),
            damage: self.damage,
            is_stackable: self.is_stackable,
            stack_size: self.stack_size,
            is_equippable: self.is_equippable,
            equipment_slot: self.equipment_slot,
        }
    }
}

/// One physical stack of an item, at exactly one location.
#[derive(Clone, Copy, Debug, PartialEq, Eq, Structural)]
pub struct InventoryItem {
    pub instance_id: u64,
    pub owner_identity: u64,
    pub item_def_id: u64,
    pub quantity: u32,
    pub location: ItemLocation,
}

/// The immutable catalog of item definitions.
#[derive(Debug)]
pub struct ItemCatalog {
    pub defs: Vec<ItemDefinition>,
}

impl ItemCatalog {
    /// Ids and names are unique keys, and every row is sound.
    pub open spec fn wf(self) -> bool {
        &&& forall|i: int, j: int|
            0 <= i < j < self.defs@.len() ==> self.defs@[i].id != self.defs@[j].id
        &&& forall|i: int, j: int|
            0 <= i < j < self.defs@.len() ==> self.defs@[i].name@ != self.defs@[j].name@
        &&& forall|i: int| 0 <= i < self.defs@.len() ==> (#[trigger] self.defs@[i]).wf()
    }

    /// Whether a definition with this id exists.
    pub open spec fn has_def(self, id: u64) -> bool {
        exists|i: int| 0 <= i < self.defs@.len() && (#[trigger] self.defs@[i]).id == id
    }

    /// The index of the definition with this id.
    pub open spec fn def_index(self, id: u64) -> int {
        choose|i: int| 0 <= i < self.defs@.len() && (#[trigger] self.defs@[i]).id == id
    }

    /// The definition with this id.
    pub open spec fn def_of(self, id: u64) -> ItemDefinition {
        self.defs@[self.def_index(id)]
    }

    /// An empty catalog, before seeding.
    pub fn new() -> (r: ItemCatalog)
        ensures
            r.wf(),
            r.defs@.len() == 0,
    {
        ItemCatalog { defs: Vec::new() }
    }

    /// Looks a definition up by id.
    pub fn find_def(&self, id: u64) -> (r: Option<&ItemDefinition>)
        requires
            self.wf(),
        ensures
            r is Some <==> self.has_def(id),
            r is Some ==> *r->Some_0 == self.def_of(id) && self.def_of(id).id == id
                && self.def_of(id).wf(),
    {
        let n: usize = self.defs.len();
        let mut i: usize = 0;
        while i < n
            invariant
                n == self.defs@.len(),
                i <= n,
                self.wf(),
                forall|k: int| 0 <= k < i ==> (#[trigger] self.defs@[k]).id != id,
            decreases n - i,
        {
            if self.defs[i].id == id {
                proof {
                    let j = self.def_index(id);
                    if j != i as int {
                        assert(self.defs@[j].id == id);
                        assert(false);
                    }
                }
                return Some(&self.defs[i]);
            }
            i = i + 1;
        }
        None
    }

    /// Whether a definition with this name exists.
    pub open spec fn has_def_named(self, name: Seq<char>) -> bool {
        exists|i: int| 0 <= i < self.defs@.len() && (#[trigger] self.defs@[i]).name@ == name
    }

    /// Looks a definition's id up by its unique name.
    pub fn find_def_id_by_name(&self, name: &String) -> (r: Option<u64>)
        requires
            self.wf(),
        ensures
            r is Some <==> self.has_def_named(name@),
            r is Some ==> self.has_def(r->Some_0) && self.def_of(r->Some_0).name@ == name@,
    {
        let n: usize = self.defs.len();
        let mut i: usize = 0;
        while i < n
            invariant
                n == self.defs@.len(),
                i <= n,
                self.wf(),
                forall|k: int| 0 <= k < i ==> (#[trigger] self.defs@[k]).name@ != name@,
            decreases n - i,
        {
            if self.defs[i].name == *name {
                let id: u64 = self.defs[i].id;
                proof {
                    assert(self.defs@[i as int].id == id);
                    let j = self.def_index(id);
                    if j != i as int {
                        assert(self.defs@[j].id == id);
                        assert(false);
                    }
                }
                return Some(id);
            }
            i = i + 1;
        }
        None
    }
}

/// Whether the row at index `k` collides with no other input row on
/// either catalog key.
pub open spec fn spec_unique_keyed(defs: Seq<ItemDefinition>, k: int) -> bool {
    forall|j: int|
        0 <= j < defs.len() && j != k ==> (#[trigger] defs[j]).id != defs[k].id && defs[j].name@
            != defs[k].name@
}

/// Every catalog row is one of the first `bound` input rows.
pub open spec fn spec_rows_from_inputs(
    cat_defs: Seq<ItemDefinition>,
    inputs: Seq<ItemDefinition>,
    bound: int,
) -> bool {
    forall|p: int|
        0 <= p < cat_defs.len() ==> exists|j: int|
            0 <= j < bound && inputs[j] == #[trigger] cat_defs[p]
}

/// Every sound input row among the first `bound` that collides with no
/// other input row is in the catalog.
pub open spec fn spec_unique_inputs_kept(
    cat_defs: Seq<ItemDefinition>,
    inputs: Seq<ItemDefinition>,
    bound: int,
) -> bool {
    forall|k: int|
        0 <= k < bound && (#[trigger] inputs[k]).wf() && spec_unique_keyed(inputs, k) ==> exists|
            p: int,
        | 0 <= p < cat_defs.len() && #[trigger] cat_defs[p] == inputs[k]
}

/// Seeds the catalog with the given initial definitions.
///
/// A second call on a non-empty catalog changes nothing, so seeding is
/// idempotent across reconnects.  Rows that would break the catalog's keys
/// (duplicate id or name) or its per-row soundness are skipped; on an
/// empty catalog every row the catalog ends up with comes from the input,
/// every sound input row that collides with no other input row is
/// guaranteed in, and the returned count is the catalog's size.
pub fn seed_items(catalog: &mut ItemCatalog, initial: Vec<ItemDefinition>) -> (r: Result<
    usize,
    ErrorCode,
>)
    requires
        old(catalog).wf(),
    ensures
        final(catalog).wf(),
        r is Ok,
        old(catalog).defs@.len() > 0 ==> *final(catalog) == *old(catalog),
        old(catalog).defs@.len() == 0 ==> {
            &&& r->Ok_0 == final(catalog).defs@.len()
            &&& spec_rows_from_inputs(final(catalog).defs@, initial@, initial@.len() as int)
            &&& spec_unique_inputs_kept(final(catalog).defs@, initial@, initial@.len() as int)
        },
{
    if catalog.defs.len() > 0 {
        return Ok(0);
    }
    let n: usize = initial.len();
    let mut i: usize = 0;
    while i < n
        invariant
            n == initial@.len(),
            i <= n,
            catalog.wf(),
            spec_rows_from_inputs(catalog.defs@, initial@, i as int),
            spec_unique_inputs_kept(catalog.defs@, initial@, i as int),
        decreases n - i,
    {
        let def = &initial[i];
        let mut ok: bool = def.stack_size >= 1 && (def.is_stackable || def.stack_size == 1);
        if ok && catalog.find_def(def.id).is_some() {
            ok = false;
        }
        if ok && catalog.find_def_id_by_name(&def.name).is_some() {
            ok = false;
        }
        if ok {
            let ghost before = *catalog;
            catalog.defs.push(def.clone());
            proof {
                assert forall|p: int, q: int|
                    0 <= p < q < catalog.defs@.len() implies catalog.defs@[p].id
                    != catalog.defs@[q].id by {
                    if q == catalog.defs@.len() - 1 && before.defs@[p].id == def.id {
                        assert(before.has_def(def.id));
                    }
                }
                assert forall|p: int, q: int|
                    0 <= p < q < catalog.defs@.len() implies catalog.defs@[p].name@
                    != catalog.defs@[q].name@ by {
                    if q == catalog.defs@.len() - 1 && before.defs@[p].name@ == def.name@ {
                        assert(before.has_def_named(def.name@));
                    }
                }
                assert(catalog.defs@[catalog.defs@.len() - 1] == initial@[i as int]);
                assert forall|p: int|
                    0 <= p < catalog.defs@.len() implies exists|j: int|
                    0 <= j < i + 1 && initial@[j] == #[trigger] catalog.defs@[p] by {
                    if p < catalog.defs@.len() - 1 {
                        assert(catalog.defs@[p] == before.defs@[p]);
                        let j0 = choose|j: int|
                            0 <= j < i && initial@[j] == #[trigger] before.defs@[p];
                        assert(initial@[j0] == catalog.defs@[p]);
                    } else {
                        assert(initial@[i as int] == catalog.defs@[p]);
                    }
                }
                assert(spec_rows_from_inputs(catalog.defs@, initial@, i + 1));
                assert forall|k: int|
                    0 <= k < i + 1 && (#[trigger] initial@[k]).wf() && spec_unique_keyed(
                        initial@,
                        k,
                    ) implies exists|p: int|
                    0 <= p < catalog.defs@.len() && #[trigger] catalog.defs@[p]
                        == initial@[k] by {
                    if k < i {
                        let p0 = choose|p: int|
                            0 <= p < before.defs@.len() && #[trigger] before.defs@[p]
                                == initial@[k];
                        assert(catalog.defs@[p0] == initial@[k]);
                    } else {
                        assert(catalog.defs@[catalog.defs@.len() - 1] == initial@[k]);
                    }
                }
                assert(spec_unique_inputs_kept(catalog.defs@, initial@, i + 1));
            }
        } else {
            proof {
                // A sound, unique-keyed row cannot have been skipped: any
                // colliding catalog row came from an earlier input row
                // with the same key, which uniqueness rules out.
                if initial@[i as int].wf() && spec_unique_keyed(initial@, i as int) {
                    if catalog.has_def(initial@[i as int].id) {
                        let p0 = catalog.def_index(initial@[i as int].id);
                        assert(0 <= p0 < catalog.defs@.len());
                        let j0 = choose|j: int|
                            0 <= j < i && initial@[j] == #[trigger] catalog.defs@[p0];
                        assert(initial@[j0].id == initial@[i as int].id);
                        assert(false);
                    }
                    if catalog.has_def_named(initial@[i as int].name@) {
                        let p0 = choose|p: int|
                            0 <= p < catalog.defs@.len() && (#[trigger] catalog.defs@[p]).name@
                                == initial@[i as int].name@;
                        let j0 = choose|j: int|
                            0 <= j < i && initial@[j] == #[trigger] catalog.defs@[p0];
                        assert(initial@[j0].name@ == initial@[i as int].name@);
                        assert(false);
                    }
                    assert(false);
                }
            }
        }
        i = i + 1;
    }
    Ok(catalog.defs.len())
}

/// Whether an item definition is the repair hammer tool.
pub fn is_repair_hammer(item_def: &ItemDefinition) -> (r: bool)
    ensures
        r <==> item_def.name@ == "Repair Hammer"@,
{
    let hammer: String = "Repair Hammer".to_owned();
    item_def.name == hammer
}

/// The stacking algebra: the result of merging `source_item` onto
/// `target_item`, both of definition `item_def`.
///
/// Succeeds exactly when the definition stacks, the two stacks are of the
/// same definition, and the target has space; the transfer is then the
/// largest amount the target can absorb.  Returns
/// `(qty_to_transfer, source_new_qty, target_new_qty, delete_source)`.
pub fn calculate_merge_result(
    source_item: &InventoryItem,
    target_item: &InventoryItem,
    item_def: &ItemDefinition,
) -> (r: Result<(u32, u32, u32, bool), ErrorCode>)
    requires
        item_def.id == source_item.item_def_id,
        source_item.quantity >= 1,
    ensures
        r is Ok <==> item_def.is_stackable && source_item.item_def_id == target_item.item_def_id
            && target_item.quantity < item_def.stack_size,
        r is Ok ==> {
            &&& r->Ok_0.0 == if source_item.quantity <= item_def.stack_size
                - target_item.quantity {
                source_item.quantity as int
            } else {
                item_def.stack_size - target_item.quantity
            }
            &&& r->Ok_0.1 == source_item.quantity - r->Ok_0.0
            &&& r->Ok_0.2 == target_item.quantity + r->Ok_0.0
            &&& r->Ok_0.2 <= item_def.stack_size
            &&& (r->Ok_0.3 <==> r->Ok_0.1 == 0)
        },
        r is Err ==> (r->Err_0 == ErrorCode::CannotMerge || r->Err_0 == ErrorCode::Occupied),
{
    if !item_def.is_stackable || source_item.item_def_id != target_item.item_def_id {
        return Err(ErrorCode::CannotMerge);
    }
    let space_available: u32 = if target_item.quantity < item_def.stack_size {
        item_def.stack_size - target_item.quantity
    } else {
        0
    };
    if space_available == 0 {
        return Err(ErrorCode::Occupied);
    }
    let qty_to_transfer: u32 = if source_item.quantity < space_available {
        source_item.quantity
    } else {
        space_available
    };
    let source_new_qty: u32 = source_item.quantity - qty_to_transfer;
    let target_new_qty: u32 = target_item.quantity + qty_to_transfer;
    let delete_source: bool = source_new_qty == 0;
    Ok((qty_to_transfer, source_new_qty, target_new_qty, delete_source))
}

} // verus!
