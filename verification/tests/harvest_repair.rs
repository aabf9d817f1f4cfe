//! Resource harvesting, the respawn schedule, and structure repair under
//! the combat-cooldown gate.

use survival_core::errors::ErrorCode;
use survival_core::items::{
    seed_items, ItemCatalog, ItemCategory, ItemDefinition, ItemLocation, InventoryItem,
};
use survival_core::inventory::ItemStore;
use survival_core::player::Player;
use survival_core::resources::{
    collect_corn_with_rolls, interact_with_corn, process_corn_respawns, Corn,
    validate_player_resource_interaction,
};
use survival_core::repair::{
    can_structure_be_repaired, get_repair_amount_for_structure, calculate_repair_resources,
    repair_wooden_storage_box, repair_campfire, TargetType, REPAIR_COMBAT_COOLDOWN_MICROS,
};
use survival_core::structures::{Campfire, WoodenStorageBox};

fn def(id: u64, name: &str, category: ItemCategory, stackable: bool, stack: u32) -> ItemDefinition {
    ItemDefinition {
        id,
        name: name.to_owned(),
        description: String::new(),
        category,
        icon_asset_name: String::new(),
        damage: None,
        is_stackable: stackable,
        stack_size: stack,
        is_equippable: false,
        equipment_slot: None,
    }
}

fn catalog() -> ItemCatalog {
    let mut cat = ItemCatalog::new();
    let defs = vec![
        def(1, "Wood", ItemCategory::Material, true, 100),
        def(2, "Stone", ItemCategory::Material, true, 100),
        def(3, "Corn", ItemCategory::Consumable, true, 50),
        def(4, "Plant Fiber", ItemCategory::Material, true, 100),
    ];
    seed_items(&mut cat, defs).unwrap();
    cat
}

fn player_at(identity: u64, x: u32, y: u32) -> Player {
    Player {
        identity,
        username: format!("player{}", identity),
        position_x: x,
        position_y: y,
        direction: "down".to_owned(),
        last_update: 0,
        last_stat_update: 0,
        jump_start_time_ms: 0,
        health: 100,
        stamina: 100,
        thirst: 250,
        hunger: 250,
        warmth: 100,
        is_sprinting: false,
        is_dead: false,
        death_timestamp: None,
        last_hit_time: None,
        is_online: true,
        is_torch_lit: false,
        last_consumed_at: None,
        is_crouching: false,
        is_knocked_out: false,
        knocked_out_at: None,
        is_on_water: false,
    }
}

fn wood_row(id: u64, owner: u64, qty: u32, slot: u16) -> InventoryItem {
    InventoryItem {
        instance_id: id,
        owner_identity: owner,
        item_def_id: 1,
        quantity: qty,
        location: ItemLocation::PlayerInventory { owner_identity: owner, slot },
    }
}

fn total(s: &ItemStore, def_id: u64) -> u64 {
    s.items.iter().filter(|i| i.item_def_id == def_id).map(|i| i.quantity as u64).sum()
}

#[test]
fn harvest_and_respawn_corn() {
    // A corn node at (1000, 1000), the player close by with an empty
    // inventory, rolls fixed: primary 2, secondary fiber 3, delay 900 s.
    let cat = catalog();
    let mut store = ItemStore::new();
    let mut corns = vec![Corn { id: 5, pos_x: 1000, pos_y: 1000, chunk_index: 0, respawn_at: None }];
    let player = player_at(7, 1010, 1005);
    let now: u64 = 1_000_000;
    let r = collect_corn_with_rolls(&mut store, &cat, &mut corns, &player, 5, now, 2, Some(3), 900);
    assert!(r.is_ok());
    assert_eq!(store.items.len(), 2);
    assert_eq!(store.items[0].item_def_id, 3);
    assert_eq!(store.items[0].quantity, 2);
    assert_eq!(
        store.items[0].location,
        ItemLocation::PlayerHotbar { owner_identity: 7, slot: 0 }
    );
    assert_eq!(store.items[1].item_def_id, 4);
    assert_eq!(store.items[1].quantity, 3);
    assert_eq!(
        store.items[1].location,
        ItemLocation::PlayerHotbar { owner_identity: 7, slot: 1 }
    );
    assert_eq!(corns[0].respawn_at, Some(now + 900 * 1_000_000));

    // A second interaction a moment later finds the node respawning.
    let r2 = collect_corn_with_rolls(
        &mut store, &cat, &mut corns, &player, 5, now + 1_000_000, 1, None, 900,
    );
    assert_eq!(r2, Err(ErrorCode::AlreadyHarvested));

    // The respawn tick clears the timer once it is due, and not before.
    process_corn_respawns(&mut corns, now + 899 * 1_000_000);
    assert!(corns[0].respawn_at.is_some());
    process_corn_respawns(&mut corns, now + 900 * 1_000_000 + 1);
    assert_eq!(corns[0].respawn_at, None);
}

#[test]
fn harvest_distance_and_lookup_errors() {
    let cat = catalog();
    let mut store = ItemStore::new();
    let mut corns = vec![Corn { id: 5, pos_x: 1000, pos_y: 1000, chunk_index: 0, respawn_at: None }];
    let far_player = player_at(7, 2000, 2000);
    let r = collect_corn_with_rolls(&mut store, &cat, &mut corns, &far_player, 5, 0, 1, None, 900);
    assert_eq!(r, Err(ErrorCode::TooFar));
    let near = player_at(7, 1010, 1005);
    let r2 = collect_corn_with_rolls(&mut store, &cat, &mut corns, &near, 99, 0, 1, None, 900);
    assert_eq!(r2, Err(ErrorCode::NotFound));
    assert!(validate_player_resource_interaction(&near, 1000, 1000).is_ok());
    assert_eq!(
        validate_player_resource_interaction(&far_player, 1000, 1000),
        Err(ErrorCode::TooFar)
    );
}

#[test]
fn harvest_with_real_rolls_stays_in_ranges() {
    let cat = catalog();
    let mut store = ItemStore::new();
    let mut corns = vec![Corn { id: 5, pos_x: 1000, pos_y: 1000, chunk_index: 0, respawn_at: None }];
    let player = player_at(7, 1010, 1005);
    let now: u64 = 1_000_000;
    let r = interact_with_corn(&mut store, &cat, &mut corns, &player, 5, now);
    assert!(r.is_ok());
    let corn_total = total(&store, 3);
    assert!(corn_total >= 1 && corn_total <= 2);
    let fiber_total = total(&store, 4);
    assert!(fiber_total == 0 || (fiber_total >= 2 && fiber_total <= 4));
    let t = corns[0].respawn_at.unwrap();
    assert!(t >= now + 900 * 1_000_000 && t <= now + 1500 * 1_000_000);
}

#[test]
fn repair_gate_is_exact() {
    let owner: u64 = 1;
    let attacker: u64 = 2;
    // No damage history: free to repair.
    assert!(can_structure_be_repaired(None, None, attacker, owner, 0).is_ok());
    // History + wrong repairer: refused as not the owner.
    assert_eq!(
        can_structure_be_repaired(Some(0), Some(attacker), attacker, owner, u64::MAX),
        Err(ErrorCode::NotOwned)
    );
    // Self-damage by the owner: immediate repair.
    assert!(can_structure_be_repaired(Some(0), Some(owner), owner, owner, 1).is_ok());
    // Damage by another player: the owner waits out the window.
    assert_eq!(
        can_structure_be_repaired(Some(0), Some(attacker), owner, owner, REPAIR_COMBAT_COOLDOWN_MICROS - 1),
        Err(ErrorCode::Cooldown)
    );
    assert!(
        can_structure_be_repaired(Some(0), Some(attacker), owner, owner, REPAIR_COMBAT_COOLDOWN_MICROS)
            .is_ok()
    );
}

#[test]
fn repair_costs_are_ceiled_shares() {
    assert_eq!(calculate_repair_resources(TargetType::Campfire, 25, 100), (7, 3));
    assert_eq!(calculate_repair_resources(TargetType::WoodenStorageBox, 75, 750), (10, 0));
    assert_eq!(calculate_repair_resources(TargetType::Shelter, 5000, 100000), (160, 0));
    assert_eq!(get_repair_amount_for_structure(TargetType::Campfire), 25);
    assert_eq!(get_repair_amount_for_structure(TargetType::WoodenStorageBox), 75);
    assert_eq!(get_repair_amount_for_structure(TargetType::Shelter), 5000);
    assert_eq!(get_repair_amount_for_structure(TargetType::Tree), 5);
}

#[test]
fn storage_box_repair_cooldown_scenario() {
    // A box owned by player 1 at 400/750 after an attack by player 2 at
    // time zero: a repair during the combat window is refused, one after
    // it succeeds, costs 10 wood, and heals 75.
    let cat = catalog();
    let owner: u64 = 1;
    let attacker: u64 = 2;
    let mut boxes = vec![WoodenStorageBox {
        id: 3,
        pos_x: 500,
        pos_y: 500,
        placed_by: owner,
        health: 400,
        max_health: 750,
        is_destroyed: false,
        last_hit_time: Some(0),
        last_damaged_by: Some(attacker),
    }];
    let mut store = ItemStore::new();
    store.items.push(wood_row(1, owner, 20, 0));
    store.next_instance_id = 2;

    let t100: u64 = 100 * 1_000_000;
    let r = repair_wooden_storage_box(&mut store, &cat, &mut boxes, owner, 3, t100);
    assert_eq!(r, Err(ErrorCode::Cooldown));
    assert_eq!(boxes[0].health, 400);
    assert_eq!(total(&store, 1), 20);

    let t301: u64 = 301 * 1_000_000;
    let r2 = repair_wooden_storage_box(&mut store, &cat, &mut boxes, owner, 3, t301);
    assert!(r2.is_ok());
    assert_eq!(boxes[0].health, 475);
    assert_eq!(boxes[0].last_hit_time, Some(t301));
    assert_eq!(boxes[0].last_damaged_by, Some(owner));
    assert_eq!(total(&store, 1), 10);

    // The remaining 10 wood pay for exactly one more hit; the one after
    // that fails with no state change.
    let t400: u64 = 400 * 1_000_000;
    let r3 = repair_wooden_storage_box(&mut store, &cat, &mut boxes, owner, 3, t400);
    assert!(r3.is_ok());
    assert_eq!(boxes[0].health, 550);
    assert_eq!(total(&store, 1), 0);
    let t500: u64 = 500 * 1_000_000;
    let r4 = repair_wooden_storage_box(&mut store, &cat, &mut boxes, owner, 3, t500);
    assert_eq!(r4, Err(ErrorCode::InsufficientResources));
    assert_eq!(boxes[0].health, 550);
}

#[test]
fn campfire_repair_and_refusals() {
    let cat = catalog();
    let owner: u64 = 1;
    let mut campfires = vec![Campfire {
        id: 9,
        pos_x: 100,
        pos_y: 100,
        placed_by: owner,
        health: 40,
        max_health: 100,
        is_destroyed: false,
        last_hit_time: None,
        last_damaged_by: None,
        is_burning: false,
        next_fuel_consume_at: None,
    }];
    let mut store = ItemStore::new();
    store.items.push(wood_row(1, owner, 25, 0));
    store.items.push(InventoryItem {
        instance_id: 2,
        owner_identity: owner,
        item_def_id: 2,
        quantity: 10,
        location: ItemLocation::PlayerInventory { owner_identity: owner, slot: 1 },
    });
    store.next_instance_id = 3;

    let r = repair_campfire(&mut store, &cat, &mut campfires, owner, 9, 5);
    assert!(r.is_ok());
    // One hit: +25 health, costing 7 wood and 3 stone.
    assert_eq!(campfires[0].health, 65);
    assert_eq!(total(&store, 1), 18);
    assert_eq!(total(&store, 2), 7);

    assert_eq!(
        repair_campfire(&mut store, &cat, &mut campfires, owner, 99, 5),
        Err(ErrorCode::NotFound)
    );
    campfires[0].is_destroyed = true;
    assert_eq!(
        repair_campfire(&mut store, &cat, &mut campfires, owner, 9, 5),
        Err(ErrorCode::Destroyed)
    );
}
