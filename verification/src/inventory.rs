//! The live table of item instances and the conservation algebra over it.
//!
//! Every mutation of the world's items goes through [`ItemStore`] methods.
//! The store's well-formedness ([`ItemStore::wf`]) packages the inventory
//! invariants: unique instance ids, at most one occupant per slotted
//! location, quantities within `[1, stack_size]`, equipment slots holding
//! only matching armor, and player-bound rows owned by the player whose
//! slots hold them.  [`qty_sum`] is the conserved measure: the total
//! quantity per item definition over all rows, wherever they sit.

use vstd::prelude::*;

use crate::errors::ErrorCode;
use crate::items::{
    ItemCatalog, ItemCategory, ItemLocation, ContainerType, InventoryItem,
    INVENTORY_SLOT_COUNT, HOTBAR_SLOT_COUNT,
};
use crate::structures::{
    Campfire, campfires_wf, find_campfire_index, reevaluate_campfire_burning, spec_fuel_source,
    spec_reevaluated_campfire,
};

verus! {

/// The quantity a single row contributes to the total of definition `d`.
pub open spec fn row_qty(it: InventoryItem, d: u64) -> int {
    if it.item_def_id == d {
        it.quantity as int
    } else {
        0
    }
}

/// Total quantity of definition `d` over all rows, the conserved measure.
pub open spec fn qty_sum(s: Seq<InventoryItem>, d: u64) -> int
    decreases s.len(),
{
    if s.len() == 0 {
        0
    } else {
        row_qty(s[0], d) + qty_sum(s.drop_first(), d)
    }
}

/// The quantity a row contributes to what `player` can spend: rows in the
/// player's own inventory or hotbar.
pub open spec fn player_row_qty(it: InventoryItem, player: u64, d: u64) -> int {
    if it.item_def_id == d && it.location.spec_player_bound() == Some(player) {
        it.quantity as int
    } else {
        0
    }
}

/// Total quantity of definition `d` the player holds in inventory + hotbar.
pub open spec fn player_qty_sum(s: Seq<InventoryItem>, player: u64, d: u64) -> int
    decreases s.len(),
{
    if s.len() == 0 {
        0
    } else {
        player_row_qty(s[0], player, d) + player_qty_sum(s.drop_first(), player, d)
    }
}

/// Both totals of every definition agree between two row tables.
pub open spec fn same_totals(a: Seq<InventoryItem>, b: Seq<InventoryItem>) -> bool {
    forall|d: u64| #[trigger] qty_sum(a, d) == qty_sum(b, d)
}

/// Appending a row adds its contribution to the total.
pub proof fn lemma_qty_sum_push(s: Seq<InventoryItem>, it: InventoryItem, d: u64)
    ensures
        qty_sum(s.push(it), d) == qty_sum(s, d) + row_qty(it, d),
    decreases s.len(),
{
    if s.len() == 0 {
        assert(s.push(it)[0] == it);
        assert(s.push(it).drop_first() =~= Seq::<InventoryItem>::empty());
        assert(qty_sum(s.push(it), d) == row_qty(it, d) + qty_sum(
            Seq::<InventoryItem>::empty(),
            d,
        ));
    } else {
        assert(s.push(it)[0] == s[0]);
        assert(s.push(it).drop_first() =~= s.drop_first().push(it));
        lemma_qty_sum_push(s.drop_first(), it, d);
        assert(qty_sum(s.push(it), d) == row_qty(s[0], d) + qty_sum(
            s.drop_first().push(it),
            d,
        ));
    }
}

/// Replacing the row at `i` shifts the total by the difference in
/// contributions.
pub proof fn lemma_qty_sum_update(s: Seq<InventoryItem>, i: int, it: InventoryItem, d: u64)
    requires
        0 <= i < s.len(),
    ensures
        qty_sum(s.update(i, it), d) == qty_sum(s, d) - row_qty(s[i], d) + row_qty(it, d),
    decreases s.len(),
{
    if i == 0 {
        assert(s.update(0, it).drop_first() =~= s.drop_first());
    } else {
        assert(s.update(i, it).drop_first() =~= s.drop_first().update(i - 1, it));
        lemma_qty_sum_update(s.drop_first(), i - 1, it, d);
        assert(s.update(i, it)[0] == s[0]);
    }
}

/// Removing the row at `i` subtracts its contribution from the total.
pub proof fn lemma_qty_sum_remove(s: Seq<InventoryItem>, i: int, d: u64)
    requires
        0 <= i < s.len(),
    ensures
        qty_sum(s.remove(i), d) == qty_sum(s, d) - row_qty(s[i], d),
    decreases s.len(),
{
    if i == 0 {
        assert(s.remove(0) =~= s.drop_first());
    } else {
        assert(s.remove(i).drop_first() =~= s.drop_first().remove(i - 1));
        lemma_qty_sum_remove(s.drop_first(), i - 1, d);
        assert(s.remove(i)[0] == s[0]);
    }
}

/// The player-bound total splits at any index, as the full total does.
pub proof fn lemma_player_qty_sum_head(s: Seq<InventoryItem>, i: int, player: u64, d: u64)
    requires
        0 <= i < s.len(),
    ensures
        player_qty_sum(s.subrange(i, s.len() as int), player, d) == player_row_qty(s[i], player, d)
            + player_qty_sum(s.subrange(i + 1, s.len() as int), player, d),
{
    let suffix = s.subrange(i, s.len() as int);
    assert(suffix[0] == s[i]);
    assert(suffix.drop_first() =~= s.subrange(i + 1, s.len() as int));
}

/// Appending a row adds its contribution to the player-bound total.
pub proof fn lemma_player_qty_sum_push(
    s: Seq<InventoryItem>,
    it: InventoryItem,
    player: u64,
    d: u64,
)
    ensures
        player_qty_sum(s.push(it), player, d) == player_qty_sum(s, player, d) + player_row_qty(
            it,
            player,
            d,
        ),
    decreases s.len(),
{
    if s.len() == 0 {
        assert(s.push(it)[0] == it);
        assert(s.push(it).drop_first() =~= Seq::<InventoryItem>::empty());
        assert(player_qty_sum(s.push(it), player, d) == player_row_qty(it, player, d)
            + player_qty_sum(Seq::<InventoryItem>::empty(), player, d));
    } else {
        assert(s.push(it)[0] == s[0]);
        assert(s.push(it).drop_first() =~= s.drop_first().push(it));
        lemma_player_qty_sum_push(s.drop_first(), it, player, d);
        assert(player_qty_sum(s.push(it), player, d) == player_row_qty(s[0], player, d)
            + player_qty_sum(s.drop_first().push(it), player, d));
    }
}

/// Replacing the row at `i` shifts the player-bound total accordingly.
pub proof fn lemma_player_qty_sum_update(
    s: Seq<InventoryItem>,
    i: int,
    it: InventoryItem,
    player: u64,
    d: u64,
)
    requires
        0 <= i < s.len(),
    ensures
        player_qty_sum(s.update(i, it), player, d) == player_qty_sum(s, player, d)
            - player_row_qty(s[i], player, d) + player_row_qty(it, player, d),
    decreases s.len(),
{
    if i == 0 {
        assert(s.update(0, it).drop_first() =~= s.drop_first());
    } else {
        assert(s.update(i, it).drop_first() =~= s.drop_first().update(i - 1, it));
        lemma_player_qty_sum_update(s.drop_first(), i - 1, it, player, d);
        assert(s.update(i, it)[0] == s[0]);
    }
}

/// Removing the row at `i` subtracts its contribution from the player-bound
/// total.
pub proof fn lemma_player_qty_sum_remove(s: Seq<InventoryItem>, i: int, player: u64, d: u64)
    requires
        0 <= i < s.len(),
    ensures
        player_qty_sum(s.remove(i), player, d) == player_qty_sum(s, player, d) - player_row_qty(
            s[i],
            player,
            d,
        ),
    decreases s.len(),
{
    if i == 0 {
        assert(s.remove(0) =~= s.drop_first());
    } else {
        assert(s.remove(i).drop_first() =~= s.drop_first().remove(i - 1));
        lemma_player_qty_sum_remove(s.drop_first(), i - 1, player, d);
        assert(s.remove(i)[0] == s[0]);
    }
}

/// The player-bound total never exceeds the full total of the definition.
pub proof fn lemma_player_qty_sum_le(s: Seq<InventoryItem>, player: u64, d: u64)
    ensures
        0 <= player_qty_sum(s, player, d) <= qty_sum(s, d),
    decreases s.len(),
{
    if s.len() > 0 {
        lemma_player_qty_sum_le(s.drop_first(), player, d);
    }
}

/// Replacing a row in place (same instance id, sound fields, and a free or
/// unslotted target location) preserves the store invariants.
pub proof fn lemma_wf_after_row_update(
    pre: ItemStore,
    post: ItemStore,
    cat: ItemCatalog,
    i: int,
    it: InventoryItem,
)
    requires
        pre.wf(cat),
        0 <= i < pre.items@.len(),
        post.items@ == pre.items@.update(i, it),
        post.next_instance_id == pre.next_instance_id,
        it.instance_id == pre.items@[i].instance_id,
        cat.has_def(it.item_def_id),
        1 <= it.quantity <= cat.def_of(it.item_def_id).stack_size,
        it.location.slot_in_bounds(),
        (match it.location {
            ItemLocation::Equipment { owner_identity, slot } => {
                &&& cat.def_of(it.item_def_id).category == ItemCategory::Armor
                &&& cat.def_of(it.item_def_id).equipment_slot == Some(slot)
                &&& it.owner_identity == owner_identity
            },
            ItemLocation::PlayerInventory { owner_identity, .. } => it.owner_identity
                == owner_identity,
            ItemLocation::PlayerHotbar { owner_identity, .. } => it.owner_identity
                == owner_identity,
            _ => true,
        }),
        it.location.is_slotted() ==> forall|j: int|
            0 <= j < pre.items@.len() && j != i ==> (#[trigger] pre.items@[j]).location
                != it.location,
    ensures
        post.wf(cat),
{
    assert forall|k: int| 0 <= k < post.items@.len() implies #[trigger] post.row_wf(cat, k) by {
        assert(pre.row_wf(cat, k));
    }
    assert forall|p: int, q: int|
        0 <= p < q < post.items@.len() implies (#[trigger] post.items@[p]).instance_id
        != (#[trigger] post.items@[q]).instance_id by {
        assert(pre.items@[p].instance_id != pre.items@[q].instance_id);
    }
    assert forall|p: int, q: int|
        0 <= p < post.items@.len() && 0 <= q < post.items@.len() && p != q
            && (#[trigger] post.items@[p]).location.is_slotted() implies post.items@[p].location
        != (#[trigger] post.items@[q]).location by {
        if p != i && q != i {
            assert(pre.items@[p].location != pre.items@[q].location);
        } else {
            assert(post.items@[p] == if p == i { it } else { pre.items@[p] });
            assert(post.items@[q] == if q == i { it } else { pre.items@[q] });
        }
    }
}

/// A store with the same rows and watermark as a well-formed one is
/// well-formed.
pub proof fn lemma_wf_same_state(pre: ItemStore, post: ItemStore, cat: ItemCatalog)
    requires
        pre.wf(cat),
        post.items@ == pre.items@,
        post.next_instance_id == pre.next_instance_id,
    ensures
        post.wf(cat),
{
    assert forall|k: int| 0 <= k < post.items@.len() implies #[trigger] post.row_wf(cat, k) by {
        assert(pre.row_wf(cat, k));
    }
}

/// Removing a row preserves the store invariants.
pub proof fn lemma_wf_after_remove(pre: ItemStore, post: ItemStore, cat: ItemCatalog, i: int)
    requires
        pre.wf(cat),
        0 <= i < pre.items@.len(),
        post.items@ == pre.items@.remove(i),
        post.next_instance_id == pre.next_instance_id,
    ensures
        post.wf(cat),
{
    assert forall|k: int| 0 <= k < post.items@.len() implies #[trigger] post.row_wf(cat, k) by {
        if k < i {
            assert(post.items@[k] == pre.items@[k]);
            assert(pre.row_wf(cat, k));
        } else {
            assert(post.items@[k] == pre.items@[k + 1]);
            assert(pre.row_wf(cat, k + 1));
        }
    }
    assert forall|p: int, q: int|
        0 <= p < q < post.items@.len() implies (#[trigger] post.items@[p]).instance_id
        != (#[trigger] post.items@[q]).instance_id by {
        let p0 = if p < i {
            p
        } else {
            p + 1
        };
        let q0 = if q < i {
            q
        } else {
            q + 1
        };
        assert(post.items@[p] == pre.items@[p0]);
        assert(post.items@[q] == pre.items@[q0]);
    }
    assert forall|p: int, q: int|
        0 <= p < post.items@.len() && 0 <= q < post.items@.len() && p != q
            && (#[trigger] post.items@[p]).location.is_slotted() implies post.items@[p].location
        != (#[trigger] post.items@[q]).location by {
        let p0 = if p < i {
            p
        } else {
            p + 1
        };
        let q0 = if q < i {
            q
        } else {
            q + 1
        };
        assert(post.items@[p] == pre.items@[p0]);
        assert(post.items@[q] == pre.items@[q0]);
    }
}

/// Appending a fresh row (a new instance id at or above the watermark, a
/// sound definition and quantity, and a free or unslotted location)
/// preserves the store invariants.
pub proof fn lemma_wf_after_push(pre: ItemStore, post: ItemStore, cat: ItemCatalog, it: InventoryItem)
    requires
        pre.wf(cat),
        post.items@ == pre.items@.push(it),
        post.next_instance_id >= pre.next_instance_id,
        pre.next_instance_id <= it.instance_id < post.next_instance_id,
        cat.has_def(it.item_def_id),
        1 <= it.quantity <= cat.def_of(it.item_def_id).stack_size,
        it.location.slot_in_bounds(),
        (match it.location {
            ItemLocation::Equipment { owner_identity, slot } => {
                &&& cat.def_of(it.item_def_id).category == ItemCategory::Armor
                &&& cat.def_of(it.item_def_id).equipment_slot == Some(slot)
                &&& it.owner_identity == owner_identity
            },
            ItemLocation::PlayerInventory { owner_identity, .. } => it.owner_identity
                == owner_identity,
            ItemLocation::PlayerHotbar { owner_identity, .. } => it.owner_identity
                == owner_identity,
            _ => true,
        }),
        it.location.is_slotted() ==> forall|j: int|
            0 <= j < pre.items@.len() ==> (#[trigger] pre.items@[j]).location != it.location,
    ensures
        post.wf(cat),
{
    let n = pre.items@.len() as int;
    assert forall|k: int| 0 <= k < post.items@.len() implies #[trigger] post.row_wf(cat, k) by {
        if k < n {
            assert(post.items@[k] == pre.items@[k]);
            assert(pre.row_wf(cat, k));
        } else {
            assert(post.items@[k] == it);
        }
    }
    assert forall|p: int, q: int|
        0 <= p < q < post.items@.len() implies (#[trigger] post.items@[p]).instance_id
        != (#[trigger] post.items@[q]).instance_id by {
        assert(post.items@[p] == pre.items@[p]);
        assert(pre.row_wf(cat, p));
        if q < n {
            assert(post.items@[q] == pre.items@[q]);
        } else {
            assert(post.items@[q] == it);
        }
    }
    assert forall|p: int, q: int|
        0 <= p < post.items@.len() && 0 <= q < post.items@.len() && p != q
            && (#[trigger] post.items@[p]).location.is_slotted() implies post.items@[p].location
        != (#[trigger] post.items@[q]).location by {
        if p < n {
            assert(post.items@[p] == pre.items@[p]);
        } else {
            assert(post.items@[p] == it);
        }
        if q < n {
            assert(post.items@[q] == pre.items@[q]);
        } else {
            assert(post.items@[q] == it);
        }
    }
}

/// The live table of every item instance in the world.
#[derive(Debug)]
pub struct ItemStore {
    pub items: Vec<InventoryItem>,
    /// The next instance id the store will assign; ids are never reused.
    pub next_instance_id: u64,
}

impl ItemStore {
    /// Soundness of the single row at index `i` against the catalog.
    pub open spec fn row_wf(self, cat: ItemCatalog, i: int) -> bool {
        let it = self.items@[i];
        &&& cat.has_def(it.item_def_id)
        &&& 1 <= it.quantity <= cat.def_of(it.item_def_id).stack_size
        &&& 1 <= it.instance_id < self.next_instance_id
        &&& it.location.slot_in_bounds()
        &&& match it.location {
            ItemLocation::Equipment { owner_identity, slot } => {
                &&& cat.def_of(it.item_def_id).category == ItemCategory::Armor
                &&& cat.def_of(it.item_def_id).equipment_slot == Some(slot)
                &&& it.owner_identity == owner_identity
            },
            ItemLocation::PlayerInventory { owner_identity, .. } => it.owner_identity
                == owner_identity,
            ItemLocation::PlayerHotbar { owner_identity, .. } => it.owner_identity
                == owner_identity,
            _ => true,
        }
    }

    /// The inventory invariants, relative to the item catalog.
    pub open spec fn wf(self, cat: ItemCatalog) -> bool {
        &&& self.next_instance_id >= 1
        &&& forall|i: int| 0 <= i < self.items@.len() ==> #[trigger] self.row_wf(cat, i)
        &&& forall|i: int, j: int|
            0 <= i < j < self.items@.len() ==> (#[trigger] self.items@[i]).instance_id
                != (#[trigger] self.items@[j]).instance_id
        &&& forall|i: int, j: int|
            0 <= i < self.items@.len() && 0 <= j < self.items@.len() && i != j
                && (#[trigger] self.items@[i]).location.is_slotted() ==> self.items@[i].location
                != (#[trigger] self.items@[j]).location
    }

    /// Whether a row with this instance id exists.
    pub open spec fn has_instance(self, instance_id: u64) -> bool {
        exists|i: int|
            0 <= i < self.items@.len() && (#[trigger] self.items@[i]).instance_id == instance_id
    }

    /// The index of the row with this instance id.
    pub open spec fn index_of(self, instance_id: u64) -> int {
        choose|i: int|
            0 <= i < self.items@.len() && (#[trigger] self.items@[i]).instance_id == instance_id
    }

    /// The row with this instance id.
    pub open spec fn row_of(self, instance_id: u64) -> InventoryItem {
        self.items@[self.index_of(instance_id)]
    }

    /// Whether some row occupies this location.
    pub open spec fn location_occupied(self, loc: ItemLocation) -> bool {
        exists|i: int| 0 <= i < self.items@.len() && (#[trigger] self.items@[i]).location == loc
    }

    /// An empty store; instance ids start at 1.
    pub fn new() -> (r: ItemStore)
        ensures
            r.items@.len() == 0,
            r.next_instance_id == 1,
            forall|cat: ItemCatalog| r.wf(cat),
    {
        ItemStore { items: Vec::new(), next_instance_id: 1 }
    }

    /// Finds the index of the row with this instance id.
    pub fn find_index(&self, instance_id: u64) -> (r: Option<usize>)
        requires
            forall|i: int, j: int|
                0 <= i < j < self.items@.len() ==> (#[trigger] self.items@[i]).instance_id
                    != (#[trigger] self.items@[j]).instance_id,
        ensures
            r is Some <==> self.has_instance(instance_id),
            r is Some ==> r->Some_0 < self.items@.len() && r->Some_0 == self.index_of(instance_id)
                && self.items@[r->Some_0 as int].instance_id == instance_id,
    {
        let n: usize = self.items.len();
        let mut i: usize = 0;
        while i < n
            invariant
                n == self.items@.len(),
                i <= n,
                forall|p: int, q: int|
                    0 <= p < q < self.items@.len() ==> (#[trigger] self.items@[p]).instance_id
                        != (#[trigger] self.items@[q]).instance_id,
                forall|k: int| 0 <= k < i ==> (#[trigger] self.items@[k]).instance_id != instance_id,
            decreases n - i,
        {
            if self.items[i].instance_id == instance_id {
                proof {
                    let j = self.index_of(instance_id);
                    if j != i as int {
                        assert(self.items@[j].instance_id == instance_id);
                        assert(false);
                    }
                }
                return Some(i);
            }
            i = i + 1;
        }
        None
    }

    /// Finds the index of the row occupying this location, if any.
    pub fn find_index_at(&self, loc: ItemLocation) -> (r: Option<usize>)
        ensures
            r is Some ==> r->Some_0 < self.items@.len() && self.items@[r->Some_0 as int].location
                == loc,
            r is None ==> !self.location_occupied(loc),
    {
        let n: usize = self.items.len();
        let mut i: usize = 0;
        while i < n
            invariant
                n == self.items@.len(),
                i <= n,
                forall|k: int| 0 <= k < i ==> (#[trigger] self.items@[k]).location != loc,
            decreases n - i,
        {
            if self.items[i].location == loc {
                return Some(i);
            }
            i = i + 1;
        }
        None
    }

    /// Finds the item instance `instance_id` if the caller owns it.
    ///
    /// Succeeds exactly when the row exists and its owner is `actor`.
    pub fn get_player_item(&self, actor: u64, instance_id: u64) -> (r: Result<
        InventoryItem,
        ErrorCode,
    >)
        requires
            forall|i: int, j: int|
                0 <= i < j < self.items@.len() ==> (#[trigger] self.items@[i]).instance_id
                    != (#[trigger] self.items@[j]).instance_id,
        ensures
            r is Ok <==> self.has_instance(instance_id) && self.row_of(
                instance_id,
            ).owner_identity == actor,
            r is Ok ==> r->Ok_0 == self.row_of(instance_id),
            r is Err ==> (r->Err_0 == ErrorCode::NotFound <==> !self.has_instance(instance_id)),
            r is Err ==> (r->Err_0 == ErrorCode::NotFound || r->Err_0 == ErrorCode::NotOwned),
    {
        match self.find_index(instance_id) {
            None => Err(ErrorCode::NotFound),
            Some(i) => {
                let it = self.items[i];
                if it.owner_identity == actor {
                    Ok(it)
                } else {
                    Err(ErrorCode::NotOwned)
                }
            },
        }
    }

    /// The item occupying the caller's main inventory slot, if any.
    pub fn find_item_in_inventory_slot(&self, owner: u64, slot: u16) -> (r: Option<InventoryItem>)
        ensures
            r is Some ==> self.has_instance(r->Some_0.instance_id) && r->Some_0.location == (
            ItemLocation::PlayerInventory { owner_identity: owner, slot }),
            r is Some ==> exists|i: int|
                0 <= i < self.items@.len() && self.items@[i] == r->Some_0,
            r is None ==> !self.location_occupied(
                ItemLocation::PlayerInventory { owner_identity: owner, slot },
            ),
    {
        match self.find_index_at(ItemLocation::PlayerInventory { owner_identity: owner, slot }) {
            None => None,
            Some(i) => Some(self.items[i]),
        }
    }

    /// The item occupying the caller's hotbar slot, if any.
    pub fn find_item_in_hotbar_slot(&self, owner: u64, slot: u8) -> (r: Option<InventoryItem>)
        ensures
            r is Some ==> self.has_instance(r->Some_0.instance_id) && r->Some_0.location == (
            ItemLocation::PlayerHotbar { owner_identity: owner, slot }),
            r is Some ==> exists|i: int|
                0 <= i < self.items@.len() && self.items@[i] == r->Some_0,
            r is None ==> !self.location_occupied(
                ItemLocation::PlayerHotbar { owner_identity: owner, slot },
            ),
    {
        match self.find_index_at(ItemLocation::PlayerHotbar { owner_identity: owner, slot }) {
            None => None,
            Some(i) => Some(self.items[i]),
        }
    }

    /// The lowest free main inventory slot of the player, scanning left to
    /// right, or `None` when all are occupied.
    pub fn find_first_empty_inventory_slot(&self, owner: u64) -> (r: Option<u16>)
        ensures
            r is Some ==> r->Some_0 < INVENTORY_SLOT_COUNT && !self.location_occupied(
                ItemLocation::PlayerInventory { owner_identity: owner, slot: r->Some_0 },
            ) && forall|s: u16|
                s < r->Some_0 ==> #[trigger] self.location_occupied(
                    ItemLocation::PlayerInventory { owner_identity: owner, slot: s },
                ),
            r is None ==> forall|s: u16|
                s < INVENTORY_SLOT_COUNT ==> #[trigger] self.location_occupied(
                    ItemLocation::PlayerInventory { owner_identity: owner, slot: s },
                ),
    {
        let mut slot: u16 = 0;
        while slot < INVENTORY_SLOT_COUNT
            invariant
                slot <= INVENTORY_SLOT_COUNT,
                forall|s: u16|
                    s < slot ==> #[trigger] self.location_occupied(
                        ItemLocation::PlayerInventory { owner_identity: owner, slot: s },
                    ),
            decreases INVENTORY_SLOT_COUNT - slot,
        {
            if self.find_index_at(
                ItemLocation::PlayerInventory { owner_identity: owner, slot },
            ).is_none() {
                return Some(slot);
            }
            slot = slot + 1;
        }
        None
    }

    /// The lowest free hotbar slot of the player, or `None` when all are
    /// occupied.
    pub fn find_first_empty_hotbar_slot(&self, owner: u64) -> (r: Option<u8>)
        ensures
            r is Some ==> r->Some_0 < HOTBAR_SLOT_COUNT && !self.location_occupied(
                ItemLocation::PlayerHotbar { owner_identity: owner, slot: r->Some_0 },
            ) && forall|s: u8|
                s < r->Some_0 ==> #[trigger] self.location_occupied(
                    ItemLocation::PlayerHotbar { owner_identity: owner, slot: s },
                ),
            r is None ==> forall|s: u8|
                s < HOTBAR_SLOT_COUNT ==> #[trigger] self.location_occupied(
                    ItemLocation::PlayerHotbar { owner_identity: owner, slot: s },
                ),
    {
        let mut slot: u8 = 0;
        while slot < HOTBAR_SLOT_COUNT
            invariant
                slot <= HOTBAR_SLOT_COUNT,
                forall|s: u8|
                    s < slot ==> #[trigger] self.location_occupied(
                        ItemLocation::PlayerHotbar { owner_identity: owner, slot: s },
                    ),
            decreases HOTBAR_SLOT_COUNT - slot,
        {
            if self.find_index_at(
                ItemLocation::PlayerHotbar { owner_identity: owner, slot },
            ).is_none() {
                return Some(slot);
            }
            slot = slot + 1;
        }
        None
    }

    /// The index of the row occupying `loc`; unique for slotted locations
    /// by well-formedness.
    pub open spec fn index_at(self, loc: ItemLocation) -> int {
        choose|i: int| 0 <= i < self.items@.len() && (#[trigger] self.items@[i]).location == loc
    }

    /// Every inventory and hotbar slot of the player holds an item.
    pub open spec fn player_slots_full(self, player: u64) -> bool {
        &&& forall|s: u16|
            s < INVENTORY_SLOT_COUNT ==> #[trigger] self.location_occupied(
                ItemLocation::PlayerInventory { owner_identity: player, slot: s },
            )
        &&& forall|s: u8|
            s < HOTBAR_SLOT_COUNT ==> #[trigger] self.location_occupied(
                ItemLocation::PlayerHotbar { owner_identity: player, slot: s },
            )
    }

    /// Splits `quantity_to_split` off the stack `source_instance_id` into a
    /// fresh, unplaced row that the caller must place.
    ///
    /// The source keeps the remainder in its slot and is written first, so
    /// the new row never aliases a location.  Succeeds exactly when the
    /// split leaves at least one unit on each side.
    pub fn split_stack_helper(&mut self, cat: &ItemCatalog, source_instance_id: u64, quantity_to_split: u32) -> (r: Result<u64, ErrorCode>)
        requires
            old(self).wf(*cat),
            cat.wf(),
            old(self).has_instance(source_instance_id),
            cat.def_of(old(self).row_of(source_instance_id).item_def_id).is_stackable,
            old(self).next_instance_id < u64::MAX,
        ensures
            final(self).wf(*cat),
            same_totals(final(self).items@, old(self).items@),
            r is Ok <==> 0 < quantity_to_split < old(self).row_of(source_instance_id).quantity,
            r is Err ==> *final(self) == *old(self) && r->Err_0 == ErrorCode::CannotMerge,
            r is Ok ==> {
                let idx = old(self).index_of(source_instance_id);
                let src = old(self).items@[idx];
                &&& r->Ok_0 == old(self).next_instance_id
                &&& final(self).next_instance_id == old(self).next_instance_id + 1
                &&& final(self).items@.len() == old(self).items@.len() + 1
                &&& final(self).items@[idx] == (InventoryItem {
                    instance_id: src.instance_id,
                    owner_identity: src.owner_identity,
                    item_def_id: src.item_def_id,
                    quantity: (src.quantity - quantity_to_split) as u32,
                    location: src.location,
                })
                &&& forall|j: int| 0 <= j < old(self).items@.len() && j != idx
                    ==> final(self).items@[j] == old(self).items@[j]
                &&& final(self).items@.last() == (InventoryItem {
                    instance_id: old(self).next_instance_id,
                    owner_identity: src.owner_identity,
                    item_def_id: src.item_def_id,
                    quantity: quantity_to_split,
                    location: ItemLocation::Unplaced,
                })
                &&& final(self).has_instance(r->Ok_0)
                &&& final(self).row_of(r->Ok_0) == final(self).items@.last()
            },
    {
        let i: usize = match self.find_index(source_instance_id) {
            Some(i) => i,
            None => { return Err(ErrorCode::CannotMerge); },
        };
        let src = self.items[i];
        if quantity_to_split == 0 || quantity_to_split >= src.quantity {
            return Err(ErrorCode::CannotMerge);
        }
        let new_id: u64 = self.next_instance_id;
        let updated = InventoryItem {
            instance_id: src.instance_id,
            owner_identity: src.owner_identity,
            item_def_id: src.item_def_id,
            quantity: src.quantity - quantity_to_split,
            location: src.location,
        };
        let fresh = InventoryItem {
            instance_id: new_id,
            owner_identity: src.owner_identity,
            item_def_id: src.item_def_id,
            quantity: quantity_to_split,
            location: ItemLocation::Unplaced,
        };
        let ghost pre = *self;
        self.items[i] = updated;
        let ghost mid = *self;
        self.items.push(fresh);
        self.next_instance_id = new_id + 1;
        proof {
            assert(pre.row_wf(*cat, i as int));
            lemma_wf_after_row_update(pre, mid, *cat, i as int, updated);
            lemma_wf_after_push(mid, *self, *cat, fresh);
            assert forall|d: u64| #[trigger] qty_sum(self.items@, d) == qty_sum(pre.items@, d) by {
                lemma_qty_sum_update(pre.items@, i as int, updated, d);
                lemma_qty_sum_push(mid.items@, fresh, d);
            }
            let idx = pre.index_of(source_instance_id);
            if idx != i as int {
                assert(pre.items@[idx].instance_id == source_instance_id);
                assert(false);
            }
            assert(self.items@.last() == fresh);
            assert(self.items@[self.items@.len() - 1].instance_id == new_id);
            let j = self.index_of(new_id);
            if j != self.items@.len() - 1 {
                assert(self.items@[j].instance_id == new_id);
                if j < mid.items@.len() {
                    assert(mid.row_wf(*cat, j));
                    assert(false);
                }
            }
        }
        Ok(new_id)
    }
}

/// Whether the slot `loc` is unavailable for a fresh stack: some row of
/// `pre` sits on it, or it is the `extra` slot a row was just placed on.
pub open spec fn spec_slot_taken(pre: ItemStore, extra: Option<ItemLocation>, loc: ItemLocation) -> bool {
    pre.location_occupied(loc) || extra == Some(loc)
}

/// Whether `loc` is the first slot of the player, hotbar left to right and
/// then inventory left to right, that is neither occupied in `pre` nor the
/// `extra` slot: where gathering places a fresh stack.
pub open spec fn spec_first_free_player_slot(
    pre: ItemStore,
    extra: Option<ItemLocation>,
    player: u64,
    loc: ItemLocation,
) -> bool {
    ||| exists|h: u8|
        h < HOTBAR_SLOT_COUNT && !#[trigger] spec_slot_taken(
            pre,
            extra,
            ItemLocation::PlayerHotbar { owner_identity: player, slot: h },
        ) && (forall|s: u8|
            s < h ==> #[trigger] spec_slot_taken(
                pre,
                extra,
                ItemLocation::PlayerHotbar { owner_identity: player, slot: s },
            )) && loc == (ItemLocation::PlayerHotbar { owner_identity: player, slot: h })
    ||| (forall|s: u8|
        s < HOTBAR_SLOT_COUNT ==> #[trigger] spec_slot_taken(
            pre,
            extra,
            ItemLocation::PlayerHotbar { owner_identity: player, slot: s },
        )) && exists|v: u16|
        v < INVENTORY_SLOT_COUNT && !#[trigger] spec_slot_taken(
            pre,
            extra,
            ItemLocation::PlayerInventory { owner_identity: player, slot: v },
        ) && (forall|s: u16|
            s < v ==> #[trigger] spec_slot_taken(
                pre,
                extra,
                ItemLocation::PlayerInventory { owner_identity: player, slot: s },
            )) && loc == (ItemLocation::PlayerInventory { owner_identity: player, slot: v })
}

/// A row the stacking pass tops up first: the player's own hotbar stack
/// of the definition with room left.
pub open spec fn spec_growable_hotbar_row(
    s: ItemStore,
    cat: ItemCatalog,
    player: u64,
    d: u64,
    j: int,
) -> bool {
    &&& 0 <= j < s.items@.len()
    &&& s.items@[j].item_def_id == d
    &&& s.items@[j].location matches ItemLocation::PlayerHotbar { owner_identity, .. }
        && owner_identity == player
    &&& s.items@[j].quantity < cat.def_of(d).stack_size
}

/// When the occupancy of `mid` is exactly `pre`'s plus the slot `extra`,
/// the first free slot of the player over `mid` is the first free slot
/// over `pre` with `extra` set aside: how the slot a second gathered
/// stack landed on reads against the store before the first one.
pub proof fn lemma_first_free_from_occupancy(
    pre: ItemStore,
    mid: ItemStore,
    extra: Option<ItemLocation>,
    player: u64,
    loc: ItemLocation,
)
    requires
        forall|l: ItemLocation| #[trigger] mid.location_occupied(l) == spec_slot_taken(
            pre,
            extra,
            l,
        ),
        ({
            ||| exists|h: u8|
                h < HOTBAR_SLOT_COUNT && !#[trigger] mid.location_occupied(
                    ItemLocation::PlayerHotbar { owner_identity: player, slot: h },
                ) && (forall|s: u8|
                    s < h ==> #[trigger] mid.location_occupied(
                        ItemLocation::PlayerHotbar { owner_identity: player, slot: s },
                    )) && loc == (ItemLocation::PlayerHotbar { owner_identity: player, slot: h })
            ||| (forall|s: u8|
                s < HOTBAR_SLOT_COUNT ==> #[trigger] mid.location_occupied(
                    ItemLocation::PlayerHotbar { owner_identity: player, slot: s },
                )) && exists|v: u16|
                v < INVENTORY_SLOT_COUNT && !#[trigger] mid.location_occupied(
                    ItemLocation::PlayerInventory { owner_identity: player, slot: v },
                ) && (forall|s: u16|
                    s < v ==> #[trigger] mid.location_occupied(
                        ItemLocation::PlayerInventory { owner_identity: player, slot: s },
                    )) && loc == (ItemLocation::PlayerInventory { owner_identity: player, slot: v })
        }),
    ensures
        spec_first_free_player_slot(pre, extra, player, loc),
{
    if exists|h: u8|
        h < HOTBAR_SLOT_COUNT && !#[trigger] mid.location_occupied(
            ItemLocation::PlayerHotbar { owner_identity: player, slot: h },
        ) && (forall|s: u8|
            s < h ==> #[trigger] mid.location_occupied(
                ItemLocation::PlayerHotbar { owner_identity: player, slot: s },
            )) && loc == (ItemLocation::PlayerHotbar { owner_identity: player, slot: h }) {
        let h = choose|h: u8|
            h < HOTBAR_SLOT_COUNT && !#[trigger] mid.location_occupied(
                ItemLocation::PlayerHotbar { owner_identity: player, slot: h },
            ) && (forall|s: u8|
                s < h ==> #[trigger] mid.location_occupied(
                    ItemLocation::PlayerHotbar { owner_identity: player, slot: s },
                )) && loc == (ItemLocation::PlayerHotbar { owner_identity: player, slot: h });
        assert(!spec_slot_taken(
            pre,
            extra,
            ItemLocation::PlayerHotbar { owner_identity: player, slot: h },
        ));
        assert forall|s: u8| s < h implies #[trigger] spec_slot_taken(
            pre,
            extra,
            ItemLocation::PlayerHotbar { owner_identity: player, slot: s },
        ) by {
            assert(mid.location_occupied(
                ItemLocation::PlayerHotbar { owner_identity: player, slot: s },
            ));
        }
    } else {
        assert forall|s: u8| s < HOTBAR_SLOT_COUNT implies #[trigger] spec_slot_taken(
            pre,
            extra,
            ItemLocation::PlayerHotbar { owner_identity: player, slot: s },
        ) by {
            assert(mid.location_occupied(
                ItemLocation::PlayerHotbar { owner_identity: player, slot: s },
            ));
        }
        let v = choose|v: u16|
            v < INVENTORY_SLOT_COUNT && !#[trigger] mid.location_occupied(
                ItemLocation::PlayerInventory { owner_identity: player, slot: v },
            ) && (forall|s: u16|
                s < v ==> #[trigger] mid.location_occupied(
                    ItemLocation::PlayerInventory { owner_identity: player, slot: s },
                )) && loc == (ItemLocation::PlayerInventory { owner_identity: player, slot: v });
        assert(!spec_slot_taken(
            pre,
            extra,
            ItemLocation::PlayerInventory { owner_identity: player, slot: v },
        ));
        assert forall|s: u16| s < v implies #[trigger] spec_slot_taken(
            pre,
            extra,
            ItemLocation::PlayerInventory { owner_identity: player, slot: s },
        ) by {
            assert(mid.location_occupied(
                ItemLocation::PlayerInventory { owner_identity: player, slot: s },
            ));
        }
    }
}

/// How much one call of [`add_item_to_player_inventory`] adds to the total
/// of definition `d` when it succeeds: the full quantity for a stackable
/// definition, exactly one unit for a non-stackable one.
pub open spec fn add_delta(stackable: bool, item_def_id: u64, quantity: u32, d: u64) -> int {
    if d != item_def_id {
        0
    } else if stackable {
        quantity as int
    } else if quantity >= 1 {
        1
    } else {
        0
    }
}

/// Adds `quantity` units of `item_def_id` to the player, as harvesting and
/// looting do: stack onto the player's hotbar rows left to right, then onto
/// inventory rows, then place the remainder into free hotbar slots and
/// finally free inventory slots, each new stack capped at the stack size.
///
/// Fails with `NotFound` (and no change) when the definition does not
/// exist, and with `InventoryFull` when quantity remains and every slot of
/// the player is occupied; stacks committed before a full inventory was
/// discovered remain, as the transactional host decides whether to keep
/// them.  A non-stackable definition adds exactly one unit per call.
#[verifier::loop_isolation(false)]
pub fn add_item_to_player_inventory(
    store: &mut ItemStore,
    cat: &ItemCatalog,
    player_id: u64,
    item_def_id: u64,
    quantity: u32,
) -> (r: Result<(), ErrorCode>)
    requires
        old(store).wf(*cat),
        cat.wf(),
        old(store).next_instance_id + quantity < u64::MAX,
    ensures
        final(store).wf(*cat),
        final(store).next_instance_id >= old(store).next_instance_id,
        final(store).next_instance_id <= old(store).next_instance_id + quantity,
        r is Err ==> r->Err_0 == ErrorCode::NotFound || r->Err_0 == ErrorCode::InventoryFull,
        r is Err && r->Err_0 == ErrorCode::NotFound ==> !cat.has_def(item_def_id) && *final(store)
            == *old(store),
        !cat.has_def(item_def_id) ==> r == Result::<(), ErrorCode>::Err(ErrorCode::NotFound),
        forall|p: u64, d: u64|
            p != player_id ==> #[trigger] player_qty_sum(final(store).items@, p, d)
                == player_qty_sum(old(store).items@, p, d),
        r is Ok ==> forall|d: u64|
            #[trigger] qty_sum(final(store).items@, d) == qty_sum(old(store).items@, d)
                + add_delta(cat.def_of(item_def_id).is_stackable, item_def_id, quantity, d),
        r is Ok ==> forall|d: u64|
            #[trigger] player_qty_sum(final(store).items@, player_id, d) == player_qty_sum(
                old(store).items@,
                player_id,
                d,
            ) + add_delta(cat.def_of(item_def_id).is_stackable, item_def_id, quantity, d),
        cat.has_def(item_def_id) ==> {
            // Existing rows never move or change hands: at most their
            // quantity grows, and only on the player's own stacks of the
            // gathered definition.
            &&& final(store).items@.len() >= old(store).items@.len()
            &&& forall|j: int|
                0 <= j < old(store).items@.len() ==> {
                    let a = #[trigger] old(store).items@[j];
                    let b = final(store).items@[j];
                    &&& b.instance_id == a.instance_id
                    &&& b.item_def_id == a.item_def_id
                    &&& b.owner_identity == a.owner_identity
                    &&& b.location == a.location
                    &&& b.quantity >= a.quantity
                    &&& b.quantity != a.quantity ==> a.item_def_id == item_def_id
                        && a.location.spec_player_bound() == Some(player_id) && cat.def_of(
                        item_def_id,
                    ).is_stackable
                }
            // New rows are the player's own stacks of the gathered
            // definition, each placed on a player slot that was free.
            &&& forall|j: int|
                old(store).items@.len() <= j < final(store).items@.len() ==> {
                    let b = #[trigger] final(store).items@[j];
                    &&& b.item_def_id == item_def_id
                    &&& b.owner_identity == player_id
                    &&& b.location.spec_player_bound() == Some(player_id)
                    &&& !old(store).location_occupied(b.location)
                }
        },
        cat.has_def(item_def_id) && !cat.def_of(item_def_id).is_stackable && quantity >= 1 && r
            is Ok ==> {
            // A non-stackable gather is exactly one new unit row on the
            // first free hotbar slot, or the first free inventory slot
            // once the hotbar is full.
            &&& final(store).items@.len() == old(store).items@.len() + 1
            &&& forall|j: int|
                0 <= j < old(store).items@.len() ==> final(store).items@[j] == #[trigger] old(
                    store,
                ).items@[j]
            &&& final(store).items@.last().quantity == 1
            &&& final(store).items@.last().instance_id == old(store).next_instance_id
            &&& {
                ||| exists|h: u8|
                    h < HOTBAR_SLOT_COUNT && !#[trigger] old(store).location_occupied(
                        ItemLocation::PlayerHotbar { owner_identity: player_id, slot: h },
                    ) && (forall|s: u8|
                        s < h ==> #[trigger] old(store).location_occupied(
                            ItemLocation::PlayerHotbar { owner_identity: player_id, slot: s },
                        )) && final(store).items@.last().location == (ItemLocation::PlayerHotbar {
                        owner_identity: player_id,
                        slot: h,
                    })
                ||| (forall|s: u8|
                    s < HOTBAR_SLOT_COUNT ==> #[trigger] old(store).location_occupied(
                        ItemLocation::PlayerHotbar { owner_identity: player_id, slot: s },
                    )) && exists|v: u16|
                    v < INVENTORY_SLOT_COUNT && !#[trigger] old(store).location_occupied(
                        ItemLocation::PlayerInventory { owner_identity: player_id, slot: v },
                    ) && (forall|s: u16|
                        s < v ==> #[trigger] old(store).location_occupied(
                            ItemLocation::PlayerInventory { owner_identity: player_id, slot: s },
                        )) && final(store).items@.last().location
                    == (ItemLocation::PlayerInventory { owner_identity: player_id, slot: v })
            }
        },
        cat.has_def(item_def_id) && cat.def_of(item_def_id).is_stackable && 1 <= quantity
            <= cat.def_of(item_def_id).stack_size && (forall|j: int|
            0 <= j < old(store).items@.len() ==> !((#[trigger] old(store).items@[j]).item_def_id
                == item_def_id && old(store).items@[j].location.spec_player_bound() == Some(
                player_id,
            ) && old(store).items@[j].quantity < cat.def_of(item_def_id).stack_size)) && r
            is Ok ==> {
            // With no stack of this definition to grow, one fitting
            // quantity becomes a single new stack on the first free
            // hotbar slot, else the first free inventory slot.
            &&& final(store).items@.len() == old(store).items@.len() + 1
            &&& forall|j: int|
                0 <= j < old(store).items@.len() ==> final(store).items@[j] == #[trigger] old(
                    store,
                ).items@[j]
            &&& final(store).items@.last().quantity == quantity
            &&& final(store).items@.last().instance_id == old(store).next_instance_id
            &&& {
                ||| exists|h: u8|
                    h < HOTBAR_SLOT_COUNT && !#[trigger] old(store).location_occupied(
                        ItemLocation::PlayerHotbar { owner_identity: player_id, slot: h },
                    ) && (forall|s: u8|
                        s < h ==> #[trigger] old(store).location_occupied(
                            ItemLocation::PlayerHotbar { owner_identity: player_id, slot: s },
                        )) && final(store).items@.last().location == (ItemLocation::PlayerHotbar {
                        owner_identity: player_id,
                        slot: h,
                    })
                ||| (forall|s: u8|
                    s < HOTBAR_SLOT_COUNT ==> #[trigger] old(store).location_occupied(
                        ItemLocation::PlayerHotbar { owner_identity: player_id, slot: s },
                    )) && exists|v: u16|
                    v < INVENTORY_SLOT_COUNT && !#[trigger] old(store).location_occupied(
                        ItemLocation::PlayerInventory { owner_identity: player_id, slot: v },
                    ) && (forall|s: u16|
                        s < v ==> #[trigger] old(store).location_occupied(
                            ItemLocation::PlayerInventory { owner_identity: player_id, slot: s },
                        )) && final(store).items@.last().location
                    == (ItemLocation::PlayerInventory { owner_identity: player_id, slot: v })
            }
        },
        // The hotbar is topped up before anything else: when a single
        // hotbar stack can grow and the whole quantity fits in it, that
        // stack alone receives, whatever partial stacks the main
        // inventory holds.
        cat.has_def(item_def_id) && cat.def_of(item_def_id).is_stackable && quantity >= 1
            ==> forall|j: int|
            #[trigger] spec_growable_hotbar_row(*old(store), *cat, player_id, item_def_id, j)
                && old(store).items@[j].quantity + quantity <= cat.def_of(item_def_id).stack_size
                && (forall|j2: int|
                j2 != j ==> !#[trigger] spec_growable_hotbar_row(
                    *old(store),
                    *cat,
                    player_id,
                    item_def_id,
                    j2,
                )) ==> r is Ok && final(store).items@ == old(store).items@.update(
                j,
                (InventoryItem {
                    instance_id: old(store).items@[j].instance_id,
                    owner_identity: old(store).items@[j].owner_identity,
                    item_def_id: old(store).items@[j].item_def_id,
                    quantity: (old(store).items@[j].quantity + quantity) as u32,
                    location: old(store).items@[j].location,
                }),
            ),
        r is Err && r->Err_0 == ErrorCode::InventoryFull ==> {
            &&& final(store).player_slots_full(player_id)
            &&& forall|d: u64|
                d != item_def_id ==> #[trigger] qty_sum(final(store).items@, d) == qty_sum(
                    old(store).items@,
                    d,
                )
            &&& forall|d: u64|
                d != item_def_id ==> #[trigger] player_qty_sum(final(store).items@, player_id, d)
                    == player_qty_sum(old(store).items@, player_id, d)
            &&& 0 <= qty_sum(final(store).items@, item_def_id) - qty_sum(
                old(store).items@,
                item_def_id,
            ) < quantity
            &&& player_qty_sum(final(store).items@, player_id, item_def_id) - player_qty_sum(
                old(store).items@,
                player_id,
                item_def_id,
            ) == qty_sum(final(store).items@, item_def_id) - qty_sum(
                old(store).items@,
                item_def_id,
            )
            &&& !cat.def_of(item_def_id).is_stackable ==> *final(store) == *old(store)
        },
{
    let (is_stackable, stack_size): (bool, u32) = match cat.find_def(item_def_id) {
        None => { return Err(ErrorCode::NotFound); },
        Some(def) => (def.is_stackable, def.stack_size),
    };
    let mut remaining: u32 = quantity;
    let ghost orig = *store;
    let ghost nostack = cat.def_of(item_def_id).is_stackable && 1 <= quantity <= cat.def_of(
        item_def_id,
    ).stack_size && (forall|j: int|
        0 <= j < orig.items@.len() ==> !((#[trigger] orig.items@[j]).item_def_id == item_def_id
            && orig.items@[j].location.spec_player_bound() == Some(player_id)
            && orig.items@[j].quantity < cat.def_of(item_def_id).stack_size));
    let ghost hot_single = cat.def_of(item_def_id).is_stackable && quantity >= 1 && (exists|j: int|
        #[trigger] spec_growable_hotbar_row(orig, *cat, player_id, item_def_id, j)
            && orig.items@[j].quantity + quantity <= cat.def_of(item_def_id).stack_size && (forall|
            j2: int,
        |
            j2 != j ==> !#[trigger] spec_growable_hotbar_row(
                orig,
                *cat,
                player_id,
                item_def_id,
                j2,
            )));
    let ghost jj: int = choose|j: int|
        #[trigger] spec_growable_hotbar_row(orig, *cat, player_id, item_def_id, j)
            && orig.items@[j].quantity + quantity <= cat.def_of(item_def_id).stack_size && (forall|
            j2: int,
        |
            j2 != j ==> !#[trigger] spec_growable_hotbar_row(
                orig,
                *cat,
                player_id,
                item_def_id,
                j2,
            ));
    let ghost grown = InventoryItem {
        instance_id: orig.items@[jj].instance_id,
        owner_identity: orig.items@[jj].owner_identity,
        item_def_id: orig.items@[jj].item_def_id,
        quantity: (orig.items@[jj].quantity + quantity) as u32,
        location: orig.items@[jj].location,
    };

    if is_stackable && remaining > 0 {
        // Stack onto existing hotbar rows first, in table order.
        let n: usize = store.items.len();
        let mut i: usize = 0;
        while i < n && remaining > 0
            invariant
                store.wf(*cat),
                cat.wf(),
                cat.has_def(item_def_id),
                cat.def_of(item_def_id).is_stackable == is_stackable,
                cat.def_of(item_def_id).stack_size == stack_size,
                is_stackable,
                n == store.items@.len(),
                n == orig.items@.len(),
                i <= n,
                store.next_instance_id == orig.next_instance_id,
                remaining <= quantity,
                forall|d: u64|
                    #[trigger] qty_sum(store.items@, d) == qty_sum(orig.items@, d) + if d
                        == item_def_id {
                        quantity - remaining
                    } else {
                        0int
                    },
                forall|d: u64|
                    #[trigger] player_qty_sum(store.items@, player_id, d) == player_qty_sum(
                        orig.items@,
                        player_id,
                        d,
                    ) + if d == item_def_id {
                        quantity - remaining
                    } else {
                        0int
                    },
                forall|p: u64, d: u64|
                    p != player_id ==> #[trigger] player_qty_sum(store.items@, p, d)
                        == player_qty_sum(orig.items@, p, d),
                forall|j: int|
                    0 <= j < orig.items@.len() ==> {
                        let a = #[trigger] orig.items@[j];
                        let b = store.items@[j];
                        &&& b.instance_id == a.instance_id
                        &&& b.item_def_id == a.item_def_id
                        &&& b.owner_identity == a.owner_identity
                        &&& b.location == a.location
                        &&& b.quantity >= a.quantity
                        &&& b.quantity != a.quantity ==> a.item_def_id == item_def_id
                            && a.location.spec_player_bound() == Some(player_id) && cat.def_of(
                            item_def_id,
                        ).is_stackable
                    },
                store.items@.len() >= orig.items@.len(),
                forall|j: int|
                    orig.items@.len() <= j < store.items@.len() ==> {
                        let b = #[trigger] store.items@[j];
                        &&& b.item_def_id == item_def_id
                        &&& b.owner_identity == player_id
                        &&& b.location.spec_player_bound() == Some(player_id)
                        &&& !orig.location_occupied(b.location)
                    },
                hot_single ==> 0 <= jj < n && spec_growable_hotbar_row(
                    orig,
                    *cat,
                    player_id,
                    item_def_id,
                    jj,
                ) && orig.items@[jj].quantity + quantity <= stack_size && (forall|j2: int|
                    j2 != jj ==> !#[trigger] spec_growable_hotbar_row(
                        orig,
                        *cat,
                        player_id,
                        item_def_id,
                        j2,
                    )),
                hot_single ==> (i <= jj && *store == orig && remaining == quantity) || (i > jj
                    && remaining == 0 && store.items@ == orig.items@.update(jj, grown)),
            decreases n - i,
        {
            proof {
                assert(store.row_wf(*cat, i as int));
                if hot_single && i as int <= jj {
                    assert(store.items@[jj] == orig.items@[jj]);
                }
            }
            let it = store.items[i];
            let in_hotbar: bool = match it.location {
                ItemLocation::PlayerHotbar { owner_identity, .. } => owner_identity == player_id,
                _ => false,
            };
            if in_hotbar && it.item_def_id == item_def_id && it.quantity < stack_size {
                let space: u32 = stack_size - it.quantity;
                let transfer: u32 = if remaining < space {
                    remaining
                } else {
                    space
                };
                let updated = InventoryItem {
                    instance_id: it.instance_id,
                    owner_identity: it.owner_identity,
                    item_def_id: it.item_def_id,
                    quantity: it.quantity + transfer,
                    location: it.location,
                };
                let ghost pre = *store;
                store.items[i] = updated;
                proof {
                    lemma_wf_after_row_update(pre, *store, *cat, i as int, updated);
                    assert forall|d: u64|
                        #[trigger] qty_sum(store.items@, d) == qty_sum(pre.items@, d) + if d
                            == item_def_id {
                            transfer as int
                        } else {
                            0int
                        } by {
                        lemma_qty_sum_update(pre.items@, i as int, updated, d);
                    }
                    assert forall|p: u64, d: u64|
                        #[trigger] player_qty_sum(store.items@, p, d) == player_qty_sum(
                            pre.items@,
                            p,
                            d,
                        ) + if p == player_id && d == item_def_id {
                            transfer as int
                        } else {
                            0int
                        } by {
                        lemma_player_qty_sum_update(pre.items@, i as int, updated, p, d);
                    }
                    if hot_single {
                        assert(spec_growable_hotbar_row(
                            orig,
                            *cat,
                            player_id,
                            item_def_id,
                            i as int,
                        ));
                        assert(i as int == jj);
                        assert(updated == grown);
                    }
                }
                remaining = remaining - transfer;
            }
            i = i + 1;
        }
        // Then stack onto existing main-inventory rows.
        let mut i2: usize = 0;
        while i2 < n && remaining > 0
            invariant
                store.wf(*cat),
                cat.wf(),
                cat.has_def(item_def_id),
                cat.def_of(item_def_id).is_stackable == is_stackable,
                cat.def_of(item_def_id).stack_size == stack_size,
                is_stackable,
                n == store.items@.len(),
                n == orig.items@.len(),
                i2 <= n,
                store.next_instance_id == orig.next_instance_id,
                remaining <= quantity,
                forall|d: u64|
                    #[trigger] qty_sum(store.items@, d) == qty_sum(orig.items@, d) + if d
                        == item_def_id {
                        quantity - remaining
                    } else {
                        0int
                    },
                forall|d: u64|
                    #[trigger] player_qty_sum(store.items@, player_id, d) == player_qty_sum(
                        orig.items@,
                        player_id,
                        d,
                    ) + if d == item_def_id {
                        quantity - remaining
                    } else {
                        0int
                    },
                forall|p: u64, d: u64|
                    p != player_id ==> #[trigger] player_qty_sum(store.items@, p, d)
                        == player_qty_sum(orig.items@, p, d),
                forall|j: int|
                    0 <= j < orig.items@.len() ==> {
                        let a = #[trigger] orig.items@[j];
                        let b = store.items@[j];
                        &&& b.instance_id == a.instance_id
                        &&& b.item_def_id == a.item_def_id
                        &&& b.owner_identity == a.owner_identity
                        &&& b.location == a.location
                        &&& b.quantity >= a.quantity
                        &&& b.quantity != a.quantity ==> a.item_def_id == item_def_id
                            && a.location.spec_player_bound() == Some(player_id) && cat.def_of(
                            item_def_id,
                        ).is_stackable
                    },
                store.items@.len() >= orig.items@.len(),
                forall|j: int|
                    orig.items@.len() <= j < store.items@.len() ==> {
                        let b = #[trigger] store.items@[j];
                        &&& b.item_def_id == item_def_id
                        &&& b.owner_identity == player_id
                        &&& b.location.spec_player_bound() == Some(player_id)
                        &&& !orig.location_occupied(b.location)
                    },
                hot_single ==> remaining == 0 && store.items@ == orig.items@.update(jj, grown),
            decreases n - i2,
        {
            proof {
                assert(store.row_wf(*cat, i2 as int));
            }
            let it = store.items[i2];
            let in_inventory: bool = match it.location {
                ItemLocation::PlayerInventory { owner_identity, .. } => owner_identity
                    == player_id,
                _ => false,
            };
            if in_inventory && it.item_def_id == item_def_id && it.quantity < stack_size {
                let space: u32 = stack_size - it.quantity;
                let transfer: u32 = if remaining < space {
                    remaining
                } else {
                    space
                };
                let updated = InventoryItem {
                    instance_id: it.instance_id,
                    owner_identity: it.owner_identity,
                    item_def_id: it.item_def_id,
                    quantity: it.quantity + transfer,
                    location: it.location,
                };
                let ghost pre = *store;
                store.items[i2] = updated;
                proof {
                    lemma_wf_after_row_update(pre, *store, *cat, i2 as int, updated);
                    assert forall|d: u64|
                        #[trigger] qty_sum(store.items@, d) == qty_sum(pre.items@, d) + if d
                            == item_def_id {
                            transfer as int
                        } else {
                            0int
                        } by {
                        lemma_qty_sum_update(pre.items@, i2 as int, updated, d);
                    }
                    assert forall|p: u64, d: u64|
                        #[trigger] player_qty_sum(store.items@, p, d) == player_qty_sum(
                            pre.items@,
                            p,
                            d,
                        ) + if p == player_id && d == item_def_id {
                            transfer as int
                        } else {
                            0int
                        } by {
                        lemma_player_qty_sum_update(pre.items@, i2 as int, updated, p, d);
                    }
                }
                remaining = remaining - transfer;
            }
            i2 = i2 + 1;
        }
    }

    proof {
        // With nothing to stack onto, the passes changed no row and the
        // whole quantity still awaits placement.
        if nostack {
            assert forall|j: int|
                0 <= j < orig.items@.len() implies store.items@[j] == #[trigger] orig.items@[
            j] by {
                assert(store.row_wf(*cat, j));
                if store.items@[j].quantity != orig.items@[j].quantity {
                    assert(orig.items@[j].quantity < cat.def_of(item_def_id).stack_size);
                }
            }
            assert(store.items@ =~= orig.items@);
            assert(qty_sum(store.items@, item_def_id) == qty_sum(orig.items@, item_def_id));
            assert(remaining == quantity);
        }
    }
    if remaining == 0 {
        return Ok(());
    }

    if !is_stackable {
        // Non-stackable definitions place exactly one unit per call.
        let loc: ItemLocation = match store.find_first_empty_hotbar_slot(player_id) {
            Some(slot) => ItemLocation::PlayerHotbar { owner_identity: player_id, slot },
            None => match store.find_first_empty_inventory_slot(player_id) {
                Some(slot) => ItemLocation::PlayerInventory { owner_identity: player_id, slot },
                None => { return Err(ErrorCode::InventoryFull); },
            },
        };
        let fresh = InventoryItem {
            instance_id: store.next_instance_id,
            owner_identity: player_id,
            item_def_id,
            quantity: 1,
            location: loc,
        };
        let ghost pre = *store;
        store.items.push(fresh);
        store.next_instance_id = store.next_instance_id + 1;
        proof {
            assert forall|j: int|
                0 <= j < pre.items@.len() implies (#[trigger] pre.items@[j]).location != loc by {
                if pre.items@[j].location == loc {
                    assert(pre.location_occupied(loc));
                }
            }
            lemma_wf_after_push(pre, *store, *cat, fresh);
            assert forall|d: u64|
                #[trigger] qty_sum(store.items@, d) == qty_sum(pre.items@, d) + if d
                    == item_def_id {
                    1int
                } else {
                    0int
                } by {
                lemma_qty_sum_push(pre.items@, fresh, d);
            }
            assert forall|p: u64, d: u64|
                #[trigger] player_qty_sum(store.items@, p, d) == player_qty_sum(pre.items@, p, d)
                    + if p == player_id && d == item_def_id {
                    1int
                } else {
                    0int
                } by {
                lemma_player_qty_sum_push(pre.items@, fresh, p, d);
            }
        }
        return Ok(());
    }

    // Place the stackable remainder into free slots, hotbar first, capping
    // each new stack at the stack size.
    while remaining > 0
        invariant
            !hot_single,
            store.wf(*cat),
            cat.wf(),
            cat.has_def(item_def_id),
            nostack ==> {
                ||| (remaining == quantity && store.items@ == orig.items@
                    && store.next_instance_id == orig.next_instance_id)
                ||| (remaining == 0 && store.items@.len() == orig.items@.len() + 1 && (forall|
                    j: int,
                |
                    0 <= j < orig.items@.len() ==> store.items@[j] == #[trigger] orig.items@[j])
                    && store.items@.last().quantity == quantity
                    && store.items@.last().instance_id == orig.next_instance_id
                    && store.next_instance_id == orig.next_instance_id + 1 && ({
                    ||| exists|h: u8|
                        h < HOTBAR_SLOT_COUNT && !#[trigger] orig.location_occupied(
                            ItemLocation::PlayerHotbar { owner_identity: player_id, slot: h },
                        ) && (forall|s2: u8|
                            s2 < h ==> #[trigger] orig.location_occupied(
                                ItemLocation::PlayerHotbar {
                                    owner_identity: player_id,
                                    slot: s2,
                                },
                            )) && store.items@.last().location == (ItemLocation::PlayerHotbar {
                            owner_identity: player_id,
                            slot: h,
                        })
                    ||| (forall|s2: u8|
                        s2 < HOTBAR_SLOT_COUNT ==> #[trigger] orig.location_occupied(
                            ItemLocation::PlayerHotbar { owner_identity: player_id, slot: s2 },
                        )) && exists|v: u16|
                        v < INVENTORY_SLOT_COUNT && !#[trigger] orig.location_occupied(
                            ItemLocation::PlayerInventory { owner_identity: player_id, slot: v },
                        ) && (forall|s2: u16|
                            s2 < v ==> #[trigger] orig.location_occupied(
                                ItemLocation::PlayerInventory {
                                    owner_identity: player_id,
                                    slot: s2,
                                },
                            )) && store.items@.last().location
                        == (ItemLocation::PlayerInventory {
                            owner_identity: player_id,
                            slot: v,
                        })
                }))
            },
            cat.def_of(item_def_id).is_stackable == is_stackable,
            cat.def_of(item_def_id).stack_size == stack_size,
            is_stackable,
            stack_size >= 1,
            remaining <= quantity,
            store.next_instance_id >= orig.next_instance_id,
            store.next_instance_id - orig.next_instance_id <= quantity - remaining,
            orig.next_instance_id + quantity < u64::MAX,
            forall|d: u64|
                #[trigger] qty_sum(store.items@, d) == qty_sum(orig.items@, d) + if d
                    == item_def_id {
                    quantity - remaining
                } else {
                    0int
                },
            forall|d: u64|
                #[trigger] player_qty_sum(store.items@, player_id, d) == player_qty_sum(
                    orig.items@,
                    player_id,
                    d,
                ) + if d == item_def_id {
                    quantity - remaining
                } else {
                    0int
                },
            forall|p: u64, d: u64|
                p != player_id ==> #[trigger] player_qty_sum(store.items@, p, d)
                    == player_qty_sum(orig.items@, p, d),
            forall|j: int|
                0 <= j < orig.items@.len() ==> {
                    let a = #[trigger] orig.items@[j];
                    let b = store.items@[j];
                    &&& b.instance_id == a.instance_id
                    &&& b.item_def_id == a.item_def_id
                    &&& b.owner_identity == a.owner_identity
                    &&& b.location == a.location
                    &&& b.quantity >= a.quantity
                    &&& b.quantity != a.quantity ==> a.item_def_id == item_def_id
                        && a.location.spec_player_bound() == Some(player_id) && cat.def_of(
                        item_def_id,
                    ).is_stackable
                },
            store.items@.len() >= orig.items@.len(),
            forall|j: int|
                orig.items@.len() <= j < store.items@.len() ==> {
                    let b = #[trigger] store.items@[j];
                    &&& b.item_def_id == item_def_id
                    &&& b.owner_identity == player_id
                    &&& b.location.spec_player_bound() == Some(player_id)
                    &&& !orig.location_occupied(b.location)
                },
        decreases remaining,
    {
        let loc: ItemLocation = match store.find_first_empty_hotbar_slot(player_id) {
            Some(slot) => ItemLocation::PlayerHotbar { owner_identity: player_id, slot },
            None => match store.find_first_empty_inventory_slot(player_id) {
                Some(slot) => ItemLocation::PlayerInventory { owner_identity: player_id, slot },
                None => { return Err(ErrorCode::InventoryFull); },
            },
        };
        let amount: u32 = if remaining < stack_size {
            remaining
        } else {
            stack_size
        };
        let fresh = InventoryItem {
            instance_id: store.next_instance_id,
            owner_identity: player_id,
            item_def_id,
            quantity: amount,
            location: loc,
        };
        let ghost pre = *store;
        store.items.push(fresh);
        store.next_instance_id = store.next_instance_id + 1;
        proof {
            assert forall|j: int|
                0 <= j < pre.items@.len() implies (#[trigger] pre.items@[j]).location != loc by {
                if pre.items@[j].location == loc {
                    assert(pre.location_occupied(loc));
                }
            }
            assert(!orig.location_occupied(loc)) by {
                if orig.location_occupied(loc) {
                    let k = choose|k: int|
                        0 <= k < orig.items@.len() && (#[trigger] orig.items@[k]).location == loc;
                    assert(pre.items@[k].location == loc);
                    assert(pre.location_occupied(loc));
                }
            }
            lemma_wf_after_push(pre, *store, *cat, fresh);
            assert forall|d: u64|
                #[trigger] qty_sum(store.items@, d) == qty_sum(pre.items@, d) + if d
                    == item_def_id {
                    amount as int
                } else {
                    0int
                } by {
                lemma_qty_sum_push(pre.items@, fresh, d);
            }
            assert forall|p: u64, d: u64|
                #[trigger] player_qty_sum(store.items@, p, d) == player_qty_sum(pre.items@, p, d)
                    + if p == player_id && d == item_def_id {
                    amount as int
                } else {
                    0int
                } by {
                lemma_player_qty_sum_push(pre.items@, fresh, p, d);
            }
            if nostack {
                // With nothing stacked, this is the first and only
                // placement: it lands on the first free slot the store
                // had at entry.
                assert forall|l2: ItemLocation| #[trigger] pre.location_occupied(l2)
                    implies orig.location_occupied(l2) by {
                    let k = choose|k: int|
                        0 <= k < pre.items@.len() && (#[trigger] pre.items@[k]).location == l2;
                    assert(orig.items@[k].location == l2);
                }
                assert forall|l2: ItemLocation| #[trigger] orig.location_occupied(l2)
                    implies pre.location_occupied(l2) by {
                    let k = choose|k: int|
                        0 <= k < orig.items@.len() && (#[trigger] orig.items@[k]).location == l2;
                    assert(pre.items@[k].location == l2);
                }
                assert(amount == quantity);
                match loc {
                    ItemLocation::PlayerHotbar { slot: hs, .. } => {
                        assert(!orig.location_occupied(
                            ItemLocation::PlayerHotbar { owner_identity: player_id, slot: hs },
                        ));
                        assert forall|s2: u8| s2 < hs implies #[trigger] orig.location_occupied(
                            ItemLocation::PlayerHotbar { owner_identity: player_id, slot: s2 },
                        ) by {
                            assert(pre.location_occupied(
                                ItemLocation::PlayerHotbar {
                                    owner_identity: player_id,
                                    slot: s2,
                                },
                            ));
                        }
                    },
                    ItemLocation::PlayerInventory { slot: vs, .. } => {
                        assert forall|s2: u8|
                            s2 < HOTBAR_SLOT_COUNT implies #[trigger] orig.location_occupied(
                            ItemLocation::PlayerHotbar { owner_identity: player_id, slot: s2 },
                        ) by {
                            assert(pre.location_occupied(
                                ItemLocation::PlayerHotbar {
                                    owner_identity: player_id,
                                    slot: s2,
                                },
                            ));
                        }
                        assert(!orig.location_occupied(
                            ItemLocation::PlayerInventory {
                                owner_identity: player_id,
                                slot: vs,
                            },
                        ));
                        assert forall|s2: u16| s2 < vs implies #[trigger] orig.location_occupied(
                            ItemLocation::PlayerInventory { owner_identity: player_id, slot: s2 },
                        ) by {
                            assert(pre.location_occupied(
                                ItemLocation::PlayerInventory {
                                    owner_identity: player_id,
                                    slot: s2,
                                },
                            ));
                        }
                    },
                    _ => {},
                }
                assert(store.items@ =~= orig.items@.push(fresh));
                assert(store.items@.last() == fresh);
            }
        }
        remaining = remaining - amount;
    }
    Ok(())
}

/// The main inventory slot location of a player.
pub open spec fn spec_player_inv_slot(owner: u64, slot: u16) -> ItemLocation {
    ItemLocation::PlayerInventory { owner_identity: owner, slot }
}

/// The row with its location and owner replaced.
pub open spec fn spec_relocated(it: InventoryItem, loc: ItemLocation, owner: u64) -> InventoryItem {
    InventoryItem {
        instance_id: it.instance_id,
        owner_identity: owner,
        item_def_id: it.item_def_id,
        quantity: it.quantity,
        location: loc,
    }
}

/// The row with its quantity replaced.
pub open spec fn spec_with_quantity(it: InventoryItem, q: u32) -> InventoryItem {
    InventoryItem {
        instance_id: it.instance_id,
        owner_identity: it.owner_identity,
        item_def_id: it.item_def_id,
        quantity: q,
        location: it.location,
    }
}

/// Whether a source at this location may take part in a swap: only rows
/// already sitting in a player inventory or hotbar slot have a prior slot
/// the displaced occupant can move into.
pub open spec fn spec_swappable_source(loc: ItemLocation) -> bool {
    match loc {
        ItemLocation::PlayerInventory { .. } => true,
        ItemLocation::PlayerHotbar { .. } => true,
        _ => false,
    }
}

/// Whether a row at this location may be moved into a player slot by the
/// plain move reducers: anything but a ground stack, which is picked up
/// through its own entry point.  A container-located source is taken out
/// of its slot by the move itself; the campfire side effect (a fire whose
/// last fuel left goes out) is settled by the callers that carry the
/// campfire table.
pub open spec fn spec_movable_source(loc: ItemLocation) -> bool {
    match loc {
        ItemLocation::Ground { .. } => false,
        _ => true,
    }
}

/// The exact outcome of moving the stack `instance_id` onto the player
/// slot `target`: the result and the full row table after the call.
///
/// The placement protocol: a missing row is `NotFound`; a ground source
/// is `InvalidSlot`; moving a row onto its own slot changes nothing; an
/// empty target takes the row, reassigning ownership to the actor; an
/// occupied target merges when the definitions stack and the occupant
/// has space (a partial merge leaves the remainder in the source's prior
/// slot — equipment, container or player slot — and is refused for a
/// freshly split, unplaced source); otherwise the two rows swap slots,
/// which is refused when the source has no prior player slot.
pub open spec fn spec_move_to_player_slot(
    pre: ItemStore,
    cat: ItemCatalog,
    actor: u64,
    instance_id: u64,
    target: ItemLocation,
) -> (Result<(), ErrorCode>, Seq<InventoryItem>) {
    if !pre.has_instance(instance_id) {
        (Err(ErrorCode::NotFound), pre.items@)
    } else {
        let i = pre.index_of(instance_id);
        let item = pre.items@[i];
        if !spec_movable_source(item.location) {
            (Err(ErrorCode::InvalidSlot), pre.items@)
        } else if item.location == target {
            (Ok(()), pre.items@)
        } else if !pre.location_occupied(target) {
            (Ok(()), pre.items@.update(i, spec_relocated(item, target, actor)))
        } else {
            let j = pre.index_at(target);
            let occ = pre.items@[j];
            let def = cat.def_of(item.item_def_id);
            if def.is_stackable && occ.item_def_id == item.item_def_id && occ.quantity
                < def.stack_size {
                let space = def.stack_size - occ.quantity;
                if item.quantity <= space {
                    (
                        Ok(()),
                        pre.items@.update(
                            j,
                            spec_with_quantity(occ, (occ.quantity + item.quantity) as u32),
                        ).remove(i),
                    )
                } else if item.location is Unplaced {
                    (Err(ErrorCode::Occupied), pre.items@)
                } else {
                    (
                        Ok(()),
                        pre.items@.update(j, spec_with_quantity(occ, def.stack_size)).update(
                            i,
                            spec_with_quantity(item, (item.quantity - space) as u32),
                        ),
                    )
                }
            } else {
                if spec_swappable_source(item.location) {
                    (
                        Ok(()),
                        pre.items@.update(
                            j,
                            spec_relocated(occ, item.location, item.owner_identity),
                        ).update(i, spec_relocated(item, target, actor)),
                    )
                } else {
                    (Err(ErrorCode::Occupied), pre.items@)
                }
            }
        }
    }
}

/// Moves the stack `instance_id` onto the player slot `target`, following
/// the placement protocol of [`spec_move_to_player_slot`], which pins both
/// the result and the row table after the call.  The campfire side effect
/// of a fuel-slot source belongs to [`move_item_to_player_slot`].
fn place_item_in_player_slot(
    store: &mut ItemStore,
    cat: &ItemCatalog,
    actor: u64,
    instance_id: u64,
    target: ItemLocation,
) -> (r: Result<(), ErrorCode>)
    requires
        old(store).wf(*cat),
        cat.wf(),
        target.slot_in_bounds(),
        (match target {
            ItemLocation::PlayerInventory { owner_identity, .. } => owner_identity == actor,
            ItemLocation::PlayerHotbar { owner_identity, .. } => owner_identity == actor,
            _ => false,
        }),
    ensures
        final(store).wf(*cat),
        final(store).next_instance_id == old(store).next_instance_id,
        same_totals(final(store).items@, old(store).items@),
        r == spec_move_to_player_slot(*old(store), *cat, actor, instance_id, target).0,
        final(store).items@ == spec_move_to_player_slot(
            *old(store),
            *cat,
            actor,
            instance_id,
            target,
        ).1,
{
    let ghost pre = *store;
    let i: usize = match store.find_index(instance_id) {
        None => { return Err(ErrorCode::NotFound); },
        Some(i) => i,
    };
    proof {
        assert(pre.index_of(instance_id) == i as int);
        assert(pre.row_wf(*cat, i as int));
    }
    let item = store.items[i];
    let movable: bool = match item.location {
        ItemLocation::Ground { .. } => false,
        _ => true,
    };
    if !movable {
        return Err(ErrorCode::InvalidSlot);
    }
    if item.location == target {
        return Ok(());
    }
    let j: usize = match store.find_index_at(target) {
        None => {
            // The target slot is empty: place the row there.
            let item2 = InventoryItem {
                instance_id: item.instance_id,
                owner_identity: actor,
                item_def_id: item.item_def_id,
                quantity: item.quantity,
                location: target,
            };
            store.items[i] = item2;
            proof {
                assert forall|k: int|
                    0 <= k < pre.items@.len() && k != i implies (#[trigger] pre.items@[k]).location
                    != target by {
                    if pre.items@[k].location == target {
                        assert(pre.location_occupied(target));
                    }
                }
                lemma_wf_after_row_update(pre, *store, *cat, i as int, item2);
                assert forall|d: u64| #[trigger] qty_sum(store.items@, d) == qty_sum(
                    pre.items@,
                    d,
                ) by {
                    lemma_qty_sum_update(pre.items@, i as int, item2, d);
                }
                assert(item2 == spec_relocated(item, target, actor));
            }
            return Ok(());
        },
        Some(j) => j,
    };
    proof {
        assert(pre.location_occupied(target));
        if pre.index_at(target) != j as int {
            let j2 = pre.index_at(target);
            assert(pre.items@[j2].location == target);
            assert(target.is_slotted());
            assert(false);
        }
    }
    if store.items[j].instance_id == instance_id {
        proof {
            assert(pre.items@[j as int].instance_id == pre.items@[i as int].instance_id);
            if i != j {
                assert(false);
            }
        }
        return Ok(());
    }
    proof {
        assert(i != j);
        assert(pre.row_wf(*cat, j as int));
    }
    let occ = store.items[j];
    let def = match cat.find_def(item.item_def_id) {
        Some(def) => def,
        None => { return Err(ErrorCode::Internal); },
    };
    match crate::items::calculate_merge_result(&item, &occ, def) {
        Ok((transfer, source_new, target_new, delete_source)) => {
            let source_unplaced: bool = match item.location {
                ItemLocation::Unplaced => true,
                _ => false,
            };
            if !delete_source && source_unplaced {
                // A freshly split stack may not leave a remainder with no
                // slot to stay in: refuse before any write.
                return Err(ErrorCode::Occupied);
            }
            let occ2 = InventoryItem {
                instance_id: occ.instance_id,
                owner_identity: occ.owner_identity,
                item_def_id: occ.item_def_id,
                quantity: target_new,
                location: occ.location,
            };
            store.items[j] = occ2;
            let ghost mid = *store;
            proof {
                lemma_wf_after_row_update(pre, mid, *cat, j as int, occ2);
            }
            if delete_source {
                store.items.remove(i);
                proof {
                    lemma_wf_after_remove(mid, *store, *cat, i as int);
                    assert forall|d: u64| #[trigger] qty_sum(store.items@, d) == qty_sum(
                        pre.items@,
                        d,
                    ) by {
                        lemma_qty_sum_update(pre.items@, j as int, occ2, d);
                        lemma_qty_sum_remove(mid.items@, i as int, d);
                        assert(mid.items@[i as int] == pre.items@[i as int]);
                    }
                    assert(occ2 == spec_with_quantity(occ, (occ.quantity + item.quantity) as u32));
                }
                Ok(())
            } else {
                let item2 = InventoryItem {
                    instance_id: item.instance_id,
                    owner_identity: item.owner_identity,
                    item_def_id: item.item_def_id,
                    quantity: source_new,
                    location: item.location,
                };
                store.items[i] = item2;
                proof {
                    assert(mid.items@[i as int] == pre.items@[i as int]);
                    assert(mid.row_wf(*cat, i as int));
                    lemma_wf_after_row_update(mid, *store, *cat, i as int, item2);
                    assert forall|d: u64| #[trigger] qty_sum(store.items@, d) == qty_sum(
                        pre.items@,
                        d,
                    ) by {
                        lemma_qty_sum_update(pre.items@, j as int, occ2, d);
                        lemma_qty_sum_update(mid.items@, i as int, item2, d);
                    }
                    assert(occ2 == spec_with_quantity(occ, def.stack_size));
                    assert(item2 == spec_with_quantity(
                        item,
                        (item.quantity - (def.stack_size - occ.quantity)) as u32,
                    ));
                }
                Ok(())
            }
        },
        Err(_) => {
            let swappable: bool = match item.location {
                ItemLocation::PlayerInventory { .. } => true,
                ItemLocation::PlayerHotbar { .. } => true,
                _ => false,
            };
            if !swappable {
                return Err(ErrorCode::Occupied);
            }
            let occ2 = InventoryItem {
                instance_id: occ.instance_id,
                owner_identity: item.owner_identity,
                item_def_id: occ.item_def_id,
                quantity: occ.quantity,
                location: item.location,
            };
            let item2 = InventoryItem {
                instance_id: item.instance_id,
                owner_identity: actor,
                item_def_id: item.item_def_id,
                quantity: item.quantity,
                location: target,
            };
            store.items[j] = occ2;
            store.items[i] = item2;
            proof {
                let post = *store;
                assert(post.items@ == pre.items@.update(j as int, occ2).update(i as int, item2));
                assert forall|k: int|
                    0 <= k < post.items@.len() implies #[trigger] post.row_wf(*cat, k) by {
                    assert(pre.row_wf(*cat, k));
                    if k == i as int {
                        assert(post.items@[k] == item2);
                    } else if k == j as int {
                        assert(post.items@[k] == occ2);
                    } else {
                        assert(post.items@[k] == pre.items@[k]);
                    }
                }
                assert forall|p: int, q: int|
                    0 <= p < q < post.items@.len() implies (#[trigger] post.items@[p]).instance_id
                    != (#[trigger] post.items@[q]).instance_id by {
                    assert(pre.items@[p].instance_id != pre.items@[q].instance_id);
                }
                assert forall|p: int, q: int|
                    0 <= p < post.items@.len() && 0 <= q < post.items@.len() && p != q
                        && (#[trigger] post.items@[p]).location.is_slotted()
                    implies post.items@[p].location != (#[trigger] post.items@[q]).location by {
                    assert(pre.items@[p].location == pre.items@[p].location);
                    assert(pre.items@[q].location == pre.items@[q].location);
                    if p != i as int && p != j as int && q != i as int && q != j as int {
                        assert(pre.items@[p].location != pre.items@[q].location);
                    } else {
                        // Within the swap, the two rows exchange the slots
                        // the pair held before, which no third row shares.
                        assert(item.location.is_slotted());
                        assert(target.is_slotted());
                        if p == i as int {
                            if q != j as int {
                                assert(pre.items@[q].location != pre.items@[j as int].location);
                            }
                        } else if p == j as int {
                            if q != i as int {
                                assert(pre.items@[q].location != pre.items@[i as int].location);
                            }
                        } else if q == i as int {
                            assert(pre.items@[p].location != pre.items@[j as int].location);
                        } else {
                            assert(pre.items@[p].location != pre.items@[i as int].location);
                        }
                    }
                }
                assert(post.wf(*cat));
                assert forall|d: u64| #[trigger] qty_sum(post.items@, d) == qty_sum(
                    pre.items@,
                    d,
                ) by {
                    lemma_qty_sum_update(pre.items@, j as int, occ2, d);
                    lemma_qty_sum_update(pre.items@.update(j as int, occ2), i as int, item2, d);
                    assert(pre.items@.update(j as int, occ2)[i as int] == pre.items@[i as int]);
                }
                assert(occ2 == spec_relocated(occ, item.location, item.owner_identity));
                assert(item2 == spec_relocated(item, target, actor));
            }
            Ok(())
        },
    }
}

/// The player slot a split's textual target names, if the kind is known
/// and the index in bounds.
pub open spec fn spec_split_target(actor: u64, kind: Seq<char>, index: u32) -> Option<
    ItemLocation,
> {
    if kind == "inventory"@ {
        if index < INVENTORY_SLOT_COUNT as u32 {
            Some(ItemLocation::PlayerInventory { owner_identity: actor, slot: index as u16 })
        } else {
            None
        }
    } else if kind == "hotbar"@ {
        if index < HOTBAR_SLOT_COUNT as u32 {
            Some(ItemLocation::PlayerHotbar { owner_identity: actor, slot: index as u8 })
        } else {
            None
        }
    } else {
        None
    }
}

/// Resolves a textual slot kind and index to a player slot of the actor.
pub fn resolve_split_target(actor: u64, kind: &String, index: u32) -> (r: Option<ItemLocation>)
    ensures
        r == spec_split_target(actor, kind@, index),
{
    let inventory_kind: String = "inventory".to_owned();
    let hotbar_kind: String = "hotbar".to_owned();
    proof {
        reveal_strlit("inventory");
        reveal_strlit("hotbar");
        assert("inventory"@.len() == 9);
        assert("hotbar"@.len() == 6);
    }
    if *kind == inventory_kind {
        if index < INVENTORY_SLOT_COUNT as u32 {
            Some(ItemLocation::PlayerInventory { owner_identity: actor, slot: index as u16 })
        } else {
            None
        }
    } else if *kind == hotbar_kind {
        if index < HOTBAR_SLOT_COUNT as u32 {
            Some(ItemLocation::PlayerHotbar { owner_identity: actor, slot: index as u8 })
        } else {
            None
        }
    } else {
        None
    }
}

/// The exact outcome of splitting `quantity_to_split` off the caller's
/// stack onto an empty player slot: the result, the row table after the
/// call, and the next instance id.
///
/// The source must exist, belong to the actor, stack, and keep at least
/// one unit on each side; the target must name a valid empty slot.
pub open spec fn spec_split_stack(
    pre: ItemStore,
    cat: ItemCatalog,
    actor: u64,
    source_instance_id: u64,
    quantity_to_split: u32,
    target: Option<ItemLocation>,
) -> (Result<(), ErrorCode>, Seq<InventoryItem>, u64) {
    if !pre.has_instance(source_instance_id) {
        (Err(ErrorCode::NotFound), pre.items@, pre.next_instance_id)
    } else {
        let i = pre.index_of(source_instance_id);
        let item = pre.items@[i];
        if item.owner_identity != actor {
            (Err(ErrorCode::NotOwned), pre.items@, pre.next_instance_id)
        } else if !cat.def_of(item.item_def_id).is_stackable {
            (Err(ErrorCode::NotStackable), pre.items@, pre.next_instance_id)
        } else if quantity_to_split == 0 || quantity_to_split >= item.quantity {
            (Err(ErrorCode::CannotMerge), pre.items@, pre.next_instance_id)
        } else if target is None {
            (Err(ErrorCode::InvalidSlot), pre.items@, pre.next_instance_id)
        } else if pre.location_occupied(target->Some_0) {
            (Err(ErrorCode::Occupied), pre.items@, pre.next_instance_id)
        } else {
            (
                Ok(()),
                pre.items@.update(
                    i,
                    spec_with_quantity(item, (item.quantity - quantity_to_split) as u32),
                ).push(
                    InventoryItem {
                        instance_id: pre.next_instance_id,
                        owner_identity: actor,
                        item_def_id: item.item_def_id,
                        quantity: quantity_to_split,
                        location: target->Some_0,
                    },
                ),
                (pre.next_instance_id + 1) as u64,
            )
        }
    }
}

/// Splits `quantity_to_split` off the caller's stack into a new stack
/// placed directly on the named empty inventory or hotbar slot, as
/// [`spec_split_stack`] lays down.
pub fn split_stack(
    store: &mut ItemStore,
    cat: &ItemCatalog,
    actor: u64,
    source_item_instance_id: u64,
    quantity_to_split: u32,
    target_slot_type: String,
    target_slot_index: u32,
) -> (r: Result<(), ErrorCode>)
    requires
        old(store).wf(*cat),
        cat.wf(),
        old(store).next_instance_id < u64::MAX,
    ensures
        final(store).wf(*cat),
        same_totals(final(store).items@, old(store).items@),
        ({
            let out = spec_split_stack(
                *old(store),
                *cat,
                actor,
                source_item_instance_id,
                quantity_to_split,
                spec_split_target(actor, target_slot_type@, target_slot_index),
            );
            &&& r == out.0
            &&& final(store).items@ == out.1
            &&& final(store).next_instance_id == out.2
        }),
{
    let ghost pre = *store;
    let i: usize = match store.find_index(source_item_instance_id) {
        None => { return Err(ErrorCode::NotFound); },
        Some(i) => i,
    };
    proof {
        assert(pre.index_of(source_item_instance_id) == i as int);
        assert(pre.row_wf(*cat, i as int));
    }
    let item = store.items[i];
    if item.owner_identity != actor {
        return Err(ErrorCode::NotOwned);
    }
    let stackable: bool = match cat.find_def(item.item_def_id) {
        Some(def) => def.is_stackable,
        None => { return Err(ErrorCode::Internal); },
    };
    if !stackable {
        return Err(ErrorCode::NotStackable);
    }
    if quantity_to_split == 0 || quantity_to_split >= item.quantity {
        return Err(ErrorCode::CannotMerge);
    }
    let target: ItemLocation = match resolve_split_target(
        actor,
        &target_slot_type,
        target_slot_index,
    ) {
        None => { return Err(ErrorCode::InvalidSlot); },
        Some(t) => t,
    };
    if store.find_index_at(target).is_some() {
        proof {
            assert(pre.location_occupied(target));
        }
        return Err(ErrorCode::Occupied);
    }
    let updated = InventoryItem {
        instance_id: item.instance_id,
        owner_identity: item.owner_identity,
        item_def_id: item.item_def_id,
        quantity: item.quantity - quantity_to_split,
        location: item.location,
    };
    let fresh = InventoryItem {
        instance_id: store.next_instance_id,
        owner_identity: actor,
        item_def_id: item.item_def_id,
        quantity: quantity_to_split,
        location: target,
    };
    store.items[i] = updated;
    let ghost mid = *store;
    store.items.push(fresh);
    store.next_instance_id = store.next_instance_id + 1;
    proof {
        lemma_wf_after_row_update(pre, mid, *cat, i as int, updated);
        assert forall|j: int|
            0 <= j < mid.items@.len() implies (#[trigger] mid.items@[j]).location != target by {
            if j != i as int && pre.items@[j].location == target {
                assert(pre.location_occupied(target));
            }
        }
        lemma_wf_after_push(mid, *store, *cat, fresh);
        assert forall|d: u64| #[trigger] qty_sum(store.items@, d) == qty_sum(pre.items@, d) by {
            lemma_qty_sum_update(pre.items@, i as int, updated, d);
            lemma_qty_sum_push(mid.items@, fresh, d);
        }
        assert(updated == spec_with_quantity(item, (item.quantity - quantity_to_split) as u32));
    }
    Ok(())
}

/// Moves an inventory item of the caller to the lowest free hotbar slot.
///
/// The item must sit in the caller's main inventory; with no free hotbar
/// slot the move fails with `InventoryFull` and nothing changes.
pub fn move_to_first_available_hotbar_slot(
    store: &mut ItemStore,
    cat: &ItemCatalog,
    campfires: &mut Vec<Campfire>,
    actor: u64,
    item_instance_id: u64,
) -> (r: Result<(), ErrorCode>)
    requires
        old(store).wf(*cat),
        cat.wf(),
        campfires_wf(old(campfires)@),
    ensures
        final(store).wf(*cat),
        campfires_wf(final(campfires)@),
        final(campfires)@ == old(campfires)@,
        final(store).next_instance_id == old(store).next_instance_id,
        same_totals(final(store).items@, old(store).items@),
        r is Err ==> *final(store) == *old(store),
        r == Result::<(), ErrorCode>::Err(ErrorCode::NotFound) <==> !old(store).has_instance(
            item_instance_id,
        ),
        old(store).has_instance(item_instance_id) ==> {
            let i = old(store).index_of(item_instance_id);
            let item = old(store).items@[i];
            &&& item.owner_identity != actor ==> r == Result::<(), ErrorCode>::Err(
                ErrorCode::NotOwned,
            )
            &&& item.owner_identity == actor && !(item.location is PlayerInventory) ==> r
                == Result::<(), ErrorCode>::Err(ErrorCode::InvalidSlot)
            &&& item.owner_identity == actor && item.location is PlayerInventory ==> {
                &&& r is Ok <==> exists|s: u8|
                    s < HOTBAR_SLOT_COUNT && !#[trigger] old(store).location_occupied(
                        ItemLocation::PlayerHotbar { owner_identity: actor, slot: s },
                    )
                &&& r is Err && r->Err_0 == ErrorCode::InventoryFull <==> forall|s: u8|
                    s < HOTBAR_SLOT_COUNT ==> #[trigger] old(store).location_occupied(
                        ItemLocation::PlayerHotbar { owner_identity: actor, slot: s },
                    )
                &&& r is Ok ==> exists|s: u8|
                    s < HOTBAR_SLOT_COUNT && !#[trigger] old(store).location_occupied(
                        ItemLocation::PlayerHotbar { owner_identity: actor, slot: s },
                    ) && final(store).items@ == old(store).items@.update(
                        i,
                        spec_relocated(
                            item,
                            ItemLocation::PlayerHotbar { owner_identity: actor, slot: s },
                            actor,
                        ),
                    )
            }
        },
{
    let ghost pre = *store;
    let i: usize = match store.find_index(item_instance_id) {
        None => { return Err(ErrorCode::NotFound); },
        Some(i) => i,
    };
    proof {
        assert(pre.index_of(item_instance_id) == i as int);
        assert(pre.row_wf(*cat, i as int));
    }
    let item = store.items[i];
    if item.owner_identity != actor {
        return Err(ErrorCode::NotOwned);
    }
    let in_inventory: bool = match item.location {
        ItemLocation::PlayerInventory { .. } => true,
        _ => false,
    };
    if !in_inventory {
        return Err(ErrorCode::InvalidSlot);
    }
    let slot: u8 = match store.find_first_empty_hotbar_slot(actor) {
        None => { return Err(ErrorCode::InventoryFull); },
        Some(s) => s,
    };
    let r = move_item_to_hotbar(store, cat, campfires, actor, item_instance_id, slot);
    proof {
        let target = ItemLocation::PlayerHotbar { owner_identity: actor, slot };
        assert(!pre.location_occupied(target));
        assert(item.location != target);
        assert(r is Ok);
        assert(store.items@ == pre.items@.update(i as int, spec_relocated(item, target, actor)));
        // An inventory-located source is no campfire fuel, so the
        // campfire table is untouched.
        assert(campfires@ =~= old(campfires)@);
    }
    r
}

/// Moves the stack `instance_id` onto the player slot `target`, as
/// [`spec_move_to_player_slot`] lays down, and settles the campfire side
/// effect: a stack taken out of a fuel slot is cleared from its campfire,
/// and a burning fire whose last fuel just left goes out.
pub fn move_item_to_player_slot(
    store: &mut ItemStore,
    cat: &ItemCatalog,
    campfires: &mut Vec<Campfire>,
    actor: u64,
    instance_id: u64,
    target: ItemLocation,
) -> (r: Result<(), ErrorCode>)
    requires
        old(store).wf(*cat),
        cat.wf(),
        campfires_wf(old(campfires)@),
        target.slot_in_bounds(),
        (match target {
            ItemLocation::PlayerInventory { owner_identity, .. } => owner_identity == actor,
            ItemLocation::PlayerHotbar { owner_identity, .. } => owner_identity == actor,
            _ => false,
        }),
    ensures
        final(store).wf(*cat),
        campfires_wf(final(campfires)@),
        final(campfires)@.len() == old(campfires)@.len(),
        final(store).next_instance_id == old(store).next_instance_id,
        same_totals(final(store).items@, old(store).items@),
        r == spec_move_to_player_slot(*old(store), *cat, actor, instance_id, target).0,
        final(store).items@ == spec_move_to_player_slot(
            *old(store),
            *cat,
            actor,
            instance_id,
            target,
        ).1,
        r is Err ==> *final(campfires) == *old(campfires),
        r is Ok ==> forall|k: int|
            0 <= k < old(campfires)@.len() ==> #[trigger] final(campfires)@[k] == (
            if old(store).has_instance(instance_id) && spec_fuel_source(
                old(store).row_of(instance_id).location,
            ) == Some(old(campfires)@[k].id as u64) {
                spec_reevaluated_campfire(*final(store), old(campfires)@[k])
            } else {
                old(campfires)@[k]
            }),
{
    let ghost pre = *store;
    let src_campfire: Option<u64> = match store.find_index(instance_id) {
        Some(i) => {
            proof {
                assert(pre.index_of(instance_id) == i as int);
            }
            match store.items[i].location {
                ItemLocation::Container {
                    container_type: ContainerType::Campfire,
                    container_id,
                    ..
                } => Some(container_id),
                _ => None,
            }
        },
        None => None,
    };
    let r = place_item_in_player_slot(store, cat, actor, instance_id, target);
    if r.is_ok() {
        match src_campfire {
            Some(cid) => {
                if cid <= u32::MAX as u64 {
                    match find_campfire_index(campfires, cid as u32) {
                        Some(ci) => {
                            let mut fire = campfires[ci];
                            reevaluate_campfire_burning(store, &mut fire);
                            campfires[ci] = fire;
                            proof {
                                assert forall|p: int, q: int|
                                    0 <= p < q < campfires@.len() implies (
                                #[trigger] campfires@[p]).id != (#[trigger] campfires@[q]).id by {
                                    assert(old(campfires)@[p].id != old(campfires)@[q].id);
                                }
                            }
                        },
                        None => {},
                    }
                }
            },
            None => {},
        }
    }
    r
}

/// Moves an item onto a main inventory slot of the caller, merging or
/// swapping with the occupant as [`spec_move_to_player_slot`] lays down,
/// with the campfire side effect of a fuel-slot source settled.
pub fn move_item_to_inventory(
    store: &mut ItemStore,
    cat: &ItemCatalog,
    campfires: &mut Vec<Campfire>,
    actor: u64,
    item_instance_id: u64,
    target_inventory_slot: u16,
) -> (r: Result<(), ErrorCode>)
    requires
        old(store).wf(*cat),
        cat.wf(),
        campfires_wf(old(campfires)@),
    ensures
        final(store).wf(*cat),
        campfires_wf(final(campfires)@),
        final(campfires)@.len() == old(campfires)@.len(),
        final(store).next_instance_id == old(store).next_instance_id,
        same_totals(final(store).items@, old(store).items@),
        r is Err ==> *final(campfires) == *old(campfires),
        target_inventory_slot >= INVENTORY_SLOT_COUNT ==> r == Result::<(), ErrorCode>::Err(
            ErrorCode::InvalidSlot,
        ) && *final(store) == *old(store),
        target_inventory_slot < INVENTORY_SLOT_COUNT ==> {
            let target = (ItemLocation::PlayerInventory {
                owner_identity: actor,
                slot: target_inventory_slot,
            });
            &&& r == spec_move_to_player_slot(*old(store), *cat, actor, item_instance_id, target).0
            &&& final(store).items@ == spec_move_to_player_slot(
                *old(store),
                *cat,
                actor,
                item_instance_id,
                target,
            ).1
            &&& r is Ok ==> forall|k: int|
                0 <= k < old(campfires)@.len() ==> #[trigger] final(campfires)@[k] == (
                if old(store).has_instance(item_instance_id) && spec_fuel_source(
                    old(store).row_of(item_instance_id).location,
                ) == Some(old(campfires)@[k].id as u64) {
                    spec_reevaluated_campfire(*final(store), old(campfires)@[k])
                } else {
                    old(campfires)@[k]
                })
        },
{
    if target_inventory_slot >= INVENTORY_SLOT_COUNT {
        return Err(ErrorCode::InvalidSlot);
    }
    move_item_to_player_slot(
        store,
        cat,
        campfires,
        actor,
        item_instance_id,
        ItemLocation::PlayerInventory { owner_identity: actor, slot: target_inventory_slot },
    )
}

/// Moves an item onto a hotbar slot of the caller, merging or swapping
/// with the occupant as [`spec_move_to_player_slot`] lays down.
pub fn move_item_to_hotbar(
    store: &mut ItemStore,
    cat: &ItemCatalog,
    campfires: &mut Vec<Campfire>,
    actor: u64,
    item_instance_id: u64,
    target_hotbar_slot: u8,
) -> (r: Result<(), ErrorCode>)
    requires
        old(store).wf(*cat),
        cat.wf(),
        campfires_wf(old(campfires)@),
    ensures
        final(store).wf(*cat),
        campfires_wf(final(campfires)@),
        final(campfires)@.len() == old(campfires)@.len(),
        final(store).next_instance_id == old(store).next_instance_id,
        same_totals(final(store).items@, old(store).items@),
        r is Err ==> *final(campfires) == *old(campfires),
        target_hotbar_slot >= HOTBAR_SLOT_COUNT ==> r == Result::<(), ErrorCode>::Err(
            ErrorCode::InvalidSlot,
        ) && *final(store) == *old(store),
        target_hotbar_slot < HOTBAR_SLOT_COUNT ==> {
            let target = (ItemLocation::PlayerHotbar {
                owner_identity: actor,
                slot: target_hotbar_slot,
            });
            &&& r == spec_move_to_player_slot(*old(store), *cat, actor, item_instance_id, target).0
            &&& final(store).items@ == spec_move_to_player_slot(
                *old(store),
                *cat,
                actor,
                item_instance_id,
                target,
            ).1
            &&& r is Ok ==> forall|k: int|
                0 <= k < old(campfires)@.len() ==> #[trigger] final(campfires)@[k] == (
                if old(store).has_instance(item_instance_id) && spec_fuel_source(
                    old(store).row_of(item_instance_id).location,
                ) == Some(old(campfires)@[k].id as u64) {
                    spec_reevaluated_campfire(*final(store), old(campfires)@[k])
                } else {
                    old(campfires)@[k]
                })
        },
{
    if target_hotbar_slot >= HOTBAR_SLOT_COUNT {
        return Err(ErrorCode::InvalidSlot);
    }
    move_item_to_player_slot(
        store,
        cat,
        campfires,
        actor,
        item_instance_id,
        ItemLocation::PlayerHotbar { owner_identity: actor, slot: target_hotbar_slot },
    )
}

} // verus!
