//! Item-stack operations: moving, merging, splitting, dropping, and the
//! gather path, checked on concrete stores.

use survival_core::errors::ErrorCode;
use survival_core::items::{
    seed_items, ItemCatalog, ItemCategory, ItemDefinition, ItemLocation, InventoryItem,
    ContainerType, calculate_merge_result, is_repair_hammer,
};
use survival_core::inventory::{
    add_item_to_player_inventory, move_item_to_hotbar, move_item_to_inventory, split_stack,
    move_to_first_available_hotbar_slot, ItemStore,
};
use survival_core::transfer::{split_and_move, drop_item};
use survival_core::structures::Campfire;
use survival_core::player::Player;

fn def(id: u64, name: &str, category: ItemCategory, stackable: bool, stack: u32) -> ItemDefinition {
    ItemDefinition {
        id,
        name: name.to_owned(),
        description: String::new(),
        category,
        icon_asset_name: String::new(),
        damage: None,
        is_stackable: stackable,
        stack_size: stack,
        is_equippable: false,
        equipment_slot: None,
    }
}

fn catalog() -> ItemCatalog {
    let mut cat = ItemCatalog::new();
    let defs = vec![
        def(1, "Wood", ItemCategory::Material, true, 100),
        def(2, "Stone", ItemCategory::Material, true, 100),
        def(3, "Repair Hammer", ItemCategory::Tool, false, 1),
    ];
    let seeded = seed_items(&mut cat, defs).unwrap();
    assert_eq!(seeded, 3);
    cat
}

fn inv(owner: u64, slot: u16) -> ItemLocation {
    ItemLocation::PlayerInventory { owner_identity: owner, slot }
}

fn hotbar(owner: u64, slot: u8) -> ItemLocation {
    ItemLocation::PlayerHotbar { owner_identity: owner, slot }
}

fn row(id: u64, owner: u64, def_id: u64, qty: u32, location: ItemLocation) -> InventoryItem {
    InventoryItem { instance_id: id, owner_identity: owner, item_def_id: def_id, quantity: qty, location }
}

fn store_with(rows: Vec<InventoryItem>, next: u64) -> ItemStore {
    let mut s = ItemStore::new();
    for r in rows {
        s.items.push(r);
    }
    s.next_instance_id = next;
    s
}

fn total(s: &ItemStore, def_id: u64) -> u64 {
    s.items.iter().filter(|i| i.item_def_id == def_id).map(|i| i.quantity as u64).sum()
}

fn player_at(identity: u64, x: u32, y: u32) -> Player {
    Player {
        identity,
        username: format!("player{}", identity),
        position_x: x,
        position_y: y,
        direction: "down".to_owned(),
        last_update: 0,
        last_stat_update: 0,
        jump_start_time_ms: 0,
        health: 100,
        stamina: 100,
        thirst: 250,
        hunger: 250,
        warmth: 100,
        is_sprinting: false,
        is_dead: false,
        death_timestamp: None,
        last_hit_time: None,
        is_online: true,
        is_torch_lit: false,
        last_consumed_at: None,
        is_crouching: false,
        is_knocked_out: false,
        knocked_out_at: None,
        is_on_water: false,
    }
}

#[test]
fn split_and_merge_conservation() {
    // One Wood stack of 50 in inventory slot 0; split 30 onto hotbar 3,
    // then move the source onto the same hotbar slot to merge back.
    let cat = catalog();
    let mut store = store_with(vec![row(10, 7, 1, 50, inv(7, 0))], 11);
    let mut campfires: Vec<Campfire> = Vec::new();
    let r = split_and_move(&mut store, &cat, &mut campfires, 7, 10, 30, "hotbar".to_owned(), 3, None);
    assert!(r.is_ok());
    assert_eq!(store.items.len(), 2);
    assert_eq!(store.items[0].quantity, 20);
    assert_eq!(store.items[0].location, inv(7, 0));
    assert_eq!(store.items[1].quantity, 30);
    assert_eq!(store.items[1].location, hotbar(7, 3));
    assert_eq!(total(&store, 1), 50);

    let mut campfires2: Vec<Campfire> = Vec::new();
    let r2 = move_item_to_hotbar(&mut store, &cat, &mut campfires2, 7, 10, 3);
    assert!(r2.is_ok());
    assert_eq!(store.items.len(), 1);
    assert_eq!(store.items[0].quantity, 50);
    assert_eq!(store.items[0].location, hotbar(7, 3));
    assert_eq!(total(&store, 1), 50);
}

#[test]
fn merge_partial_leaves_excess_in_place() {
    // 80 + 50 wood: the target fills to 100 and the source keeps 30.
    let cat = catalog();
    let mut store = store_with(
        vec![row(1, 7, 1, 50, inv(7, 0)), row(2, 7, 1, 80, inv(7, 1))],
        3,
    );
    let mut campfires: Vec<Campfire> = Vec::new();
    let r = move_item_to_inventory(&mut store, &cat, &mut campfires, 7, 1, 1);
    assert!(r.is_ok());
    assert_eq!(store.items[1].quantity, 100);
    assert_eq!(store.items[0].quantity, 30);
    assert_eq!(store.items[0].location, inv(7, 0));
    assert_eq!(total(&store, 1), 130);
}

#[test]
fn move_swaps_incompatible_occupant() {
    let cat = catalog();
    let mut store = store_with(
        vec![row(1, 7, 1, 10, inv(7, 0)), row(2, 7, 2, 5, inv(7, 1))],
        3,
    );
    let mut campfires: Vec<Campfire> = Vec::new();
    let r = move_item_to_inventory(&mut store, &cat, &mut campfires, 7, 1, 1);
    assert!(r.is_ok());
    assert_eq!(store.items[0].location, inv(7, 1));
    assert_eq!(store.items[1].location, inv(7, 0));
}

#[test]
fn move_errors() {
    let cat = catalog();
    let mut store = store_with(vec![row(1, 7, 1, 10, inv(7, 0))], 2);
    let mut campfires: Vec<Campfire> = Vec::new();
    assert_eq!(
        move_item_to_inventory(&mut store, &cat, &mut campfires, 7, 99, 1),
        Err(ErrorCode::NotFound)
    );
    assert_eq!(
        move_item_to_inventory(&mut store, &cat, &mut campfires, 7, 1, 24),
        Err(ErrorCode::InvalidSlot)
    );
    assert_eq!(
        move_item_to_hotbar(&mut store, &cat, &mut campfires, 7, 1, 6),
        Err(ErrorCode::InvalidSlot)
    );
}

#[test]
fn split_stack_places_new_stack() {
    let cat = catalog();
    let mut store = store_with(vec![row(1, 7, 1, 40, inv(7, 2))], 2);
    let r = split_stack(&mut store, &cat, 7, 1, 15, "inventory".to_owned(), 4);
    assert!(r.is_ok());
    assert_eq!(store.items[0].quantity, 25);
    assert_eq!(store.items[1].quantity, 15);
    assert_eq!(store.items[1].location, inv(7, 4));
    assert_eq!(store.items[1].instance_id, 2);
    assert_eq!(store.next_instance_id, 3);
    assert_eq!(total(&store, 1), 40);
}

#[test]
fn split_stack_errors() {
    let cat = catalog();
    let mut store = store_with(
        vec![
            row(1, 7, 1, 40, inv(7, 0)),
            row(2, 7, 3, 1, inv(7, 1)),
            row(3, 9, 1, 10, inv(9, 0)),
        ],
        4,
    );
    // Unknown instance, foreign owner, non-stackable, zero and oversized
    // quantities, a bad slot kind, and an occupied target.
    assert_eq!(
        split_stack(&mut store, &cat, 7, 99, 5, "inventory".to_owned(), 3),
        Err(ErrorCode::NotFound)
    );
    assert_eq!(
        split_stack(&mut store, &cat, 7, 3, 5, "inventory".to_owned(), 3),
        Err(ErrorCode::NotOwned)
    );
    assert_eq!(
        split_stack(&mut store, &cat, 7, 2, 1, "inventory".to_owned(), 3),
        Err(ErrorCode::NotStackable)
    );
    assert_eq!(
        split_stack(&mut store, &cat, 7, 1, 0, "inventory".to_owned(), 3),
        Err(ErrorCode::CannotMerge)
    );
    assert_eq!(
        split_stack(&mut store, &cat, 7, 1, 40, "inventory".to_owned(), 3),
        Err(ErrorCode::CannotMerge)
    );
    assert_eq!(
        split_stack(&mut store, &cat, 7, 1, 5, "backpack".to_owned(), 3),
        Err(ErrorCode::InvalidSlot)
    );
    assert_eq!(
        split_stack(&mut store, &cat, 7, 1, 5, "inventory".to_owned(), 1),
        Err(ErrorCode::Occupied)
    );
    // Nothing changed across all those refusals.
    assert_eq!(store.items.len(), 3);
    assert_eq!(total(&store, 1), 50);
}

#[test]
fn gather_stacks_hotbar_first_then_inventory() {
    let cat = catalog();
    // A wood stack with space in hotbar slot 2 takes the yield first.
    let mut store = store_with(vec![row(1, 7, 1, 95, hotbar(7, 2))], 2);
    let r = add_item_to_player_inventory(&mut store, &cat, 7, 1, 20);
    assert!(r.is_ok());
    assert_eq!(store.items[0].quantity, 100);
    // The remainder lands in the first empty hotbar slot.
    assert_eq!(store.items[1].quantity, 15);
    assert_eq!(store.items[1].location, hotbar(7, 0));
    assert_eq!(total(&store, 1), 115);
}

#[test]
fn gather_fails_when_full() {
    let cat = catalog();
    let mut rows: Vec<InventoryItem> = Vec::new();
    let mut id: u64 = 1;
    for s in 0..6u8 {
        rows.push(row(id, 7, 3, 1, hotbar(7, s)));
        id += 1;
    }
    for s in 0..24u16 {
        rows.push(row(id, 7, 3, 1, inv(7, s)));
        id += 1;
    }
    let mut store = store_with(rows, 100);
    let r = add_item_to_player_inventory(&mut store, &cat, 7, 1, 5);
    assert_eq!(r, Err(ErrorCode::InventoryFull));
    // A missing definition is refused up front.
    let r2 = add_item_to_player_inventory(&mut store, &cat, 7, 99, 5);
    assert_eq!(r2, Err(ErrorCode::NotFound));
}

#[test]
fn move_to_first_available_hotbar_slot_works() {
    let cat = catalog();
    let mut store = store_with(
        vec![row(1, 7, 1, 10, inv(7, 3)), row(2, 7, 2, 4, hotbar(7, 0))],
        3,
    );
    let mut campfires: Vec<Campfire> = Vec::new();
    let r = move_to_first_available_hotbar_slot(&mut store, &cat, &mut campfires, 7, 1);
    assert!(r.is_ok());
    assert_eq!(store.items[0].location, hotbar(7, 1));
}

#[test]
fn drop_item_full_and_partial() {
    let cat = catalog();
    let players = vec![player_at(7, 1000, 1000)];
    let mut equips = Vec::new();
    let mut campfires: Vec<Campfire> = Vec::new();
    let mut store = store_with(vec![row(1, 7, 1, 50, inv(7, 0))], 2);

    // Partial drop: the source keeps 30 and a 20-stack lands one tile
    // ahead of the facing direction ("down": y + 48).
    let r = drop_item(&mut store, &cat, &mut equips, &mut campfires, &players, 7, 1, 20);
    assert!(r.is_ok());
    assert_eq!(store.items.len(), 2);
    assert_eq!(store.items[0].quantity, 30);
    assert_eq!(
        store.items[1].location,
        ItemLocation::Ground { x: 1000, y: 1048 }
    );
    assert_eq!(total(&store, 1), 50);

    // Full drop relocates the row itself.
    let r2 = drop_item(&mut store, &cat, &mut equips, &mut campfires, &players, 7, 1, 30);
    assert!(r2.is_ok());
    assert_eq!(store.items[0].location, ItemLocation::Ground { x: 1000, y: 1048 });
    assert_eq!(total(&store, 1), 50);

    // A stack already on the ground cannot be dropped again.
    assert_eq!(
        drop_item(&mut store, &cat, &mut equips, &mut campfires, &players, 7, 2, 5),
        Err(ErrorCode::InvalidSlot)
    );
    // A zero quantity is refused without changes.
    store.items.push(row(9, 7, 2, 8, inv(7, 4)));
    store.next_instance_id = 10;
    assert_eq!(
        drop_item(&mut store, &cat, &mut equips, &mut campfires, &players, 7, 9, 0),
        Err(ErrorCode::CannotMerge)
    );
}

#[test]
fn merge_algebra_is_exact() {
    let cat = catalog();
    let wood = cat.find_def(1).unwrap().clone();
    let a = row(1, 7, 1, 30, inv(7, 0));
    let b = row(2, 7, 1, 90, inv(7, 1));
    // 30 onto 90 with cap 100: transfer 10, source keeps 20.
    let (transfer, source_new, target_new, delete_source) =
        calculate_merge_result(&a, &b, &wood).unwrap();
    assert_eq!((transfer, source_new, target_new, delete_source), (10, 20, 100, false));
    // 30 onto 60: the whole stack moves and the source is deleted.
    let c = row(3, 7, 1, 60, inv(7, 2));
    let (t2, s2, n2, d2) = calculate_merge_result(&a, &c, &wood).unwrap();
    assert_eq!((t2, s2, n2, d2), (30, 0, 90, true));
    // A full target refuses the merge.
    let full = row(4, 7, 1, 100, inv(7, 3));
    assert_eq!(calculate_merge_result(&a, &full, &wood), Err(ErrorCode::Occupied));
    // Different definitions never merge.
    let stone = row(5, 7, 2, 10, inv(7, 4));
    assert_eq!(calculate_merge_result(&a, &stone, &wood), Err(ErrorCode::CannotMerge));
}

#[test]
fn repair_hammer_is_recognized() {
    let cat = catalog();
    assert!(is_repair_hammer(cat.find_def(3).unwrap()));
    assert!(!is_repair_hammer(cat.find_def(1).unwrap()));
}

#[test]
fn seeding_is_idempotent() {
    let mut cat = catalog();
    // A second seeding call on a non-empty catalog changes nothing.
    let again = seed_items(&mut cat, vec![def(9, "Charcoal", ItemCategory::Material, true, 100)]);
    assert_eq!(again, Ok(0));
    assert!(cat.find_def(9).is_none());
    // Rows that would break the catalog's keys are skipped.
    let mut cat2 = ItemCatalog::new();
    let n = seed_items(
        &mut cat2,
        vec![
            def(1, "Wood", ItemCategory::Material, true, 100),
            def(1, "Twig", ItemCategory::Material, true, 100),
            def(2, "Wood", ItemCategory::Material, true, 50),
        ],
    );
    assert_eq!(n, Ok(1));
}

#[test]
fn split_and_move_rolls_back_on_failed_placement() {
    // Splitting onto a slot occupied by an incompatible stack fails and
    // leaves the store exactly as it was.
    let cat = catalog();
    let mut campfires: Vec<Campfire> = Vec::new();
    let mut store = store_with(
        vec![row(1, 7, 1, 50, inv(7, 0)), row(2, 7, 3, 1, inv(7, 5))],
        3,
    );
    let r = split_and_move(&mut store, &cat, &mut campfires, 7, 1, 20, "inventory".to_owned(), 5, None);
    assert_eq!(r, Err(ErrorCode::Occupied));
    assert_eq!(store.items.len(), 2);
    assert_eq!(store.items[0].quantity, 50);
    assert_eq!(store.next_instance_id, 3);
}

#[test]
fn unplaced_stack_never_swaps_or_strands() {
    // A freshly split, unplaced stack may fill an empty slot or merge
    // whole, but never swap or leave a remainder with nowhere to stay.
    let cat = catalog();
    let mut store = store_with(
        vec![row(1, 7, 1, 30, ItemLocation::Unplaced), row(2, 7, 3, 1, inv(7, 0))],
        3,
    );
    let mut campfires: Vec<Campfire> = Vec::new();
    assert_eq!(
        move_item_to_inventory(&mut store, &cat, &mut campfires, 7, 1, 0),
        Err(ErrorCode::Occupied)
    );
    assert_eq!(store.items[0].location, ItemLocation::Unplaced);
    // A partial merge would strand the remainder: refused too.
    store.items.push(row(3, 7, 1, 90, inv(7, 1)));
    store.next_instance_id = 4;
    assert_eq!(
        move_item_to_inventory(&mut store, &cat, &mut campfires, 7, 1, 1),
        Err(ErrorCode::Occupied)
    );
    // Placement into an empty slot is fine.
    assert!(move_item_to_inventory(&mut store, &cat, &mut campfires, 7, 1, 9).is_ok());
    assert_eq!(store.items[0].location, inv(7, 9));
}

#[test]
fn error_labels_are_stable() {
    assert_eq!(ErrorCode::InventoryFull.label(), "InventoryFull");
    assert_eq!(ErrorCode::TooFar.label(), "TooFar");
    assert_eq!(ErrorCode::Cooldown.label(), "Cooldown");
}

#[test]
fn split_and_move_merges_onto_occupied_target() {
    // Splitting 20 onto a same-def stack with room merges whole; onto a
    // full or foreign stack the split is rolled back.
    let cat = catalog();
    let mut campfires: Vec<Campfire> = Vec::new();
    let mut store = store_with(
        vec![row(1, 7, 1, 50, inv(7, 0)), row(2, 7, 1, 30, hotbar(7, 2))],
        3,
    );
    let r = split_and_move(&mut store, &cat, &mut campfires, 7, 1, 20, "hotbar".to_owned(), 2, None);
    assert!(r.is_ok());
    assert_eq!(store.items.len(), 2);
    assert_eq!(store.items[0].quantity, 30);
    assert_eq!(store.items[1].quantity, 50);
    assert_eq!(total(&store, 1), 80);

    store.items.push(row(3, 7, 2, 4, hotbar(7, 4)));
    store.next_instance_id = 4;
    let r2 = split_and_move(&mut store, &cat, &mut campfires, 7, 1, 10, "hotbar".to_owned(), 4, None);
    assert_eq!(r2, Err(ErrorCode::Occupied));
    assert_eq!(store.items[0].quantity, 30);
    assert_eq!(total(&store, 1), 80);
}

#[test]
fn move_extracts_whole_stack_from_campfire() {
    // Moving a fuel stack into the inventory takes it out of the fire,
    // reassigns ownership, and puts a fire without fuel out.
    let cat = catalog();
    let mut campfires = vec![Campfire {
        id: 4,
        pos_x: 900,
        pos_y: 900,
        placed_by: 9,
        health: 100,
        max_health: 100,
        is_destroyed: false,
        last_hit_time: None,
        last_damaged_by: None,
        is_burning: true,
        next_fuel_consume_at: Some(55),
    }];
    let mut store = store_with(
        vec![InventoryItem {
            instance_id: 1,
            owner_identity: 9,
            item_def_id: 1,
            quantity: 7,
            location: ItemLocation::Container {
                container_type: ContainerType::Campfire,
                container_id: 4,
                slot: 2,
            },
        }],
        2,
    );
    let r = move_item_to_inventory(&mut store, &cat, &mut campfires, 7, 1, 3);
    assert!(r.is_ok());
    assert_eq!(store.items[0].location, inv(7, 3));
    assert_eq!(store.items[0].owner_identity, 7);
    assert_eq!(store.items[0].quantity, 7);
    assert!(!campfires[0].is_burning);
    assert_eq!(campfires[0].next_fuel_consume_at, None);

    // Merging fuel onto an existing hotbar stack also empties the fire.
    campfires[0].is_burning = true;
    store.items.push(InventoryItem {
        instance_id: 2,
        owner_identity: 7,
        item_def_id: 1,
        quantity: 5,
        location: ItemLocation::Container {
            container_type: ContainerType::Campfire,
            container_id: 4,
            slot: 0,
        },
    });
    store.next_instance_id = 3;
    let r2 = move_item_to_hotbar(&mut store, &cat, &mut campfires, 7, 2, 0);
    assert!(r2.is_ok());
    assert_eq!(store.items[0].location, inv(7, 3));
    assert_eq!(store.items[1].location, hotbar(7, 0));
    assert_eq!(store.items[1].quantity, 5);
    assert!(!campfires[0].is_burning);
    assert_eq!(total(&store, 1), 12);
}

#[test]
fn split_onto_occupied_fuel_slot_merges_or_rolls_back() {
    // A split onto an occupied fuel slot merges whole when the wood
    // there has room, and otherwise rolls the split back untouched.
    let cat = catalog();
    let mut campfires = vec![Campfire {
        id: 4,
        pos_x: 900,
        pos_y: 900,
        placed_by: 7,
        health: 100,
        max_health: 100,
        is_destroyed: false,
        last_hit_time: None,
        last_damaged_by: None,
        is_burning: true,
        next_fuel_consume_at: Some(55),
    }];
    let mut store = store_with(
        vec![
            row(1, 7, 1, 60, hotbar(7, 0)),
            InventoryItem {
                instance_id: 2,
                owner_identity: 7,
                item_def_id: 1,
                quantity: 90,
                location: ItemLocation::Container {
                    container_type: ContainerType::Campfire,
                    container_id: 4,
                    slot: 2,
                },
            },
        ],
        3,
    );
    // 90 + 10 fits the stack size of 100: the split merges whole.
    let r = split_and_move(&mut store, &cat, &mut campfires, 7, 1, 10, "campfire_fuel".to_owned(), 2, Some(4));
    assert!(r.is_ok());
    assert_eq!(store.items.len(), 2);
    assert_eq!(store.items[0].quantity, 50);
    assert_eq!(store.items[1].quantity, 100);
    assert_eq!(store.next_instance_id, 4);
    assert_eq!(total(&store, 1), 150);

    // 100 + 10 does not fit: refused, and the source keeps its 50.
    let r2 = split_and_move(&mut store, &cat, &mut campfires, 7, 1, 10, "campfire_fuel".to_owned(), 2, Some(4));
    assert_eq!(r2, Err(ErrorCode::Occupied));
    assert_eq!(store.items.len(), 2);
    assert_eq!(store.items[0].quantity, 50);
    assert_eq!(store.items[1].quantity, 100);
    assert_eq!(store.next_instance_id, 4);
}

#[test]
fn gather_tops_up_hotbar_before_inventory() {
    // A partial hotbar stack receives the whole gathered quantity while
    // the partial stack in the main inventory is left alone.
    let cat = catalog();
    let mut store = store_with(
        vec![row(1, 7, 1, 50, inv(7, 0)), row(2, 7, 1, 40, hotbar(7, 4))],
        3,
    );
    let r = add_item_to_player_inventory(&mut store, &cat, 7, 1, 20);
    assert!(r.is_ok());
    assert_eq!(store.items.len(), 2);
    assert_eq!(store.items[0].quantity, 50);
    assert_eq!(store.items[1].quantity, 60);
    assert_eq!(store.items[1].location, hotbar(7, 4));
    assert_eq!(total(&store, 1), 110);
}
