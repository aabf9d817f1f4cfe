//! Connection lifecycle, registration and spawn placement, equipping,
//! campfire fuel, and the spatial index.

use survival_core::errors::ErrorCode;
use survival_core::items::{
    seed_items, ItemCatalog, ItemCategory, ItemDefinition, ItemLocation, InventoryItem,
    EquipmentSlot, ContainerType,
};
use survival_core::inventory::ItemStore;
use survival_core::player::{Player, calculate_drop_position};
use survival_core::lifecycle::{
    identity_connected, identity_disconnected, register_player, update_viewport, is_player_on_water,
    ActiveConnection, ClientViewport, WorldTile, TileType,
};
use survival_core::equipment::{
    equip_armor_from_inventory, equip_armor_from_drag, clear_specific_item_from_equipment_slots,
};
use survival_core::campfire::{auto_add_wood_to_campfire, add_fuel_to_campfire, split_stack_from_campfire};
use survival_core::transfer::drop_item;
use survival_core::structures::{Campfire, ActiveEquipment, check_if_campfire_has_fuel};
use survival_core::resources::{Tree, Stone};
use survival_core::spatial_grid::{SpatialGrid, EntityType, grid_width, grid_height};
use survival_core::{is_player_jumping, get_effective_player_radius, world_pos_to_tile_coords};

fn def_armor(id: u64, name: &str, slot: EquipmentSlot) -> ItemDefinition {
    ItemDefinition {
        id,
        name: name.to_owned(),
        description: String::new(),
        category: ItemCategory::Armor,
        icon_asset_name: String::new(),
        damage: None,
        is_stackable: false,
        stack_size: 1,
        is_equippable: true,
        equipment_slot: Some(slot),
    }
}

fn def_mat(id: u64, name: &str, stack: u32) -> ItemDefinition {
    ItemDefinition {
        id,
        name: name.to_owned(),
        description: String::new(),
        category: ItemCategory::Material,
        icon_asset_name: String::new(),
        damage: None,
        is_stackable: true,
        stack_size: stack,
        is_equippable: false,
        equipment_slot: None,
    }
}

fn catalog() -> ItemCatalog {
    let mut cat = ItemCatalog::new();
    let defs = vec![
        def_mat(1, "Wood", 100),
        def_mat(2, "Stone", 100),
        def_armor(5, "Leather Chest", EquipmentSlot::Chest),
        def_armor(6, "Cloth Chest", EquipmentSlot::Chest),
    ];
    seed_items(&mut cat, defs).unwrap();
    cat
}

fn player_at(identity: u64, x: u32, y: u32) -> Player {
    Player {
        identity,
        username: format!("player{}", identity),
        position_x: x,
        position_y: y,
        direction: "down".to_owned(),
        last_update: 0,
        last_stat_update: 0,
        jump_start_time_ms: 0,
        health: 100,
        stamina: 100,
        thirst: 250,
        hunger: 250,
        warmth: 100,
        is_sprinting: false,
        is_dead: false,
        death_timestamp: None,
        last_hit_time: None,
        is_online: true,
        is_torch_lit: false,
        last_consumed_at: None,
        is_crouching: false,
        is_knocked_out: false,
        knocked_out_at: None,
        is_on_water: false,
    }
}

fn tile(id: u64, x: i32, y: i32, t: TileType) -> WorldTile {
    WorldTile {
        id,
        chunk_x: x / 10,
        chunk_y: y / 10,
        tile_x: x % 10,
        tile_y: y % 10,
        world_x: x,
        world_y: y,
        tile_type: t,
        variant: 0,
        biome_data: None,
    }
}

#[test]
fn fast_reconnect_survives_stale_disconnect() {
    // Connection C1 for identity I, then a reconnect as C2; a late
    // disconnect naming C1 must change nothing.
    let ident: u64 = 42;
    let mut players = vec![player_at(ident, 100, 100)];
    let mut conns: Vec<ActiveConnection> = Vec::new();
    assert!(identity_connected(&mut players, &mut conns, ident, Some(1), 10).is_ok());
    assert!(identity_connected(&mut players, &mut conns, ident, Some(2), 20).is_ok());
    assert_eq!(conns.len(), 1);
    assert_eq!(conns[0].connection_id, 2);

    identity_disconnected(&mut players, &mut conns, ident, Some(1));
    assert_eq!(conns.len(), 1);
    assert_eq!(conns[0].connection_id, 2);
    assert!(players[0].is_online);

    // The matching disconnect clears the connection and marks offline.
    identity_disconnected(&mut players, &mut conns, ident, Some(2));
    assert!(conns.is_empty());
    assert!(!players[0].is_online);

    // A connect without a connection id is an internal error.
    assert_eq!(
        identity_connected(&mut players, &mut conns, ident, None, 30),
        Err(ErrorCode::Internal)
    );
}

#[test]
fn register_spawns_on_coastal_beach() {
    // A tiny world: one south-half beach tile adjacent to sea.
    let tiles = vec![
        tile(1, 5, 300, TileType::Beach),
        tile(2, 5, 301, TileType::Sea),
        tile(3, 6, 300, TileType::Grass),
    ];
    let mut players: Vec<Player> = Vec::new();
    let mut conns: Vec<ActiveConnection> = Vec::new();
    let trees: Vec<Tree> = Vec::new();
    let stones: Vec<Stone> = Vec::new();
    let campfires: Vec<Campfire> = Vec::new();
    let boxes = Vec::new();
    let mut store = ItemStore::new();
    let cat = catalog();
    // Two starting grants: wood and stone into the fresh hotbar.
    let starting = vec![(1u64, 10u32), (2u64, 5u32)];
    let r = register_player(
        &mut players, &mut conns, &mut store, &cat, &tiles, &trees, &stones, &campfires, &boxes,
        &starting, 9, Some(77), "newcomer".to_owned(), 1000,
    );
    assert!(r.is_ok());
    assert_eq!(players.len(), 1);
    let p = &players[0];
    assert_eq!(p.identity, 9);
    assert!(p.is_online);
    assert_eq!(p.health, 100);
    // The spawn is the pixel center of the coastal beach tile.
    assert_eq!((p.position_x, p.position_y), (5 * 48 + 24, 300 * 48 + 24));
    // The starting grant landed in the first hotbar slots.
    assert_eq!(store.items.len(), 2);
    assert_eq!((store.items[0].item_def_id, store.items[0].quantity), (1, 10));
    assert_eq!((store.items[1].item_def_id, store.items[1].quantity), (2, 5));
    assert_eq!(store.items[0].owner_identity, 9);
    let (tx, ty) = world_pos_to_tile_coords(p.position_x, p.position_y);
    assert_eq!((tx, ty), (5, 300));
    assert_eq!(conns.len(), 1);
    assert_eq!(conns[0].connection_id, 77);

    // A second registration with the same identity only refreshes.
    let r2 = register_player(
        &mut players, &mut conns, &mut store, &cat, &tiles, &trees, &stones, &campfires, &boxes,
        &starting, 9, Some(78), "othername".to_owned(), 2000,
    );
    assert!(r2.is_ok());
    assert_eq!(players.len(), 1);
    assert_eq!(players[0].last_update, 2000);
    assert_eq!(conns[0].connection_id, 78);
    // A reconnect grants nothing.
    assert_eq!(store.items.len(), 2);

    // A taken username blocks a different identity.
    let r3 = register_player(
        &mut players, &mut conns, &mut store, &cat, &tiles, &trees, &stones, &campfires, &boxes,
        &starting, 10, Some(79), "newcomer".to_owned(), 3000,
    );
    assert_eq!(r3, Err(ErrorCode::Occupied));

    // A world without a coastal south-half beach cannot spawn anyone.
    let landlocked = vec![tile(1, 5, 300, TileType::Grass)];
    let r4 = register_player(
        &mut players, &mut conns, &mut store, &cat, &landlocked, &trees, &stones, &campfires,
        &boxes, &starting, 10, Some(79), "someone".to_owned(), 3000,
    );
    assert_eq!(r4, Err(ErrorCode::Internal));
}

#[test]
fn water_lookup_and_viewports() {
    let tiles = vec![tile(1, 2, 2, TileType::Sea), tile(2, 3, 2, TileType::Grass)];
    assert!(is_player_on_water(&tiles, 2 * 48 + 5, 2 * 48 + 5));
    assert!(!is_player_on_water(&tiles, 3 * 48 + 5, 2 * 48 + 5));
    assert!(!is_player_on_water(&tiles, 4000, 4000));

    let mut viewports: Vec<ClientViewport> = Vec::new();
    assert!(update_viewport(&mut viewports, 7, 0, 0, 100, 100, 5).is_ok());
    assert!(update_viewport(&mut viewports, 7, 10, 10, 200, 200, 6).is_ok());
    assert_eq!(viewports.len(), 1);
    assert_eq!(viewports[0].min_x, 10);
    assert_eq!(viewports[0].last_update, 6);
}

#[test]
fn equip_swaps_occupant_to_first_free_slot() {
    // Leather Chest in inventory slot 5, Cloth Chest worn: equipping the
    // leather moves the cloth to inventory slot 0.
    let cat = catalog();
    let mut store = ItemStore::new();
    store.items.push(InventoryItem {
        instance_id: 1,
        owner_identity: 7,
        item_def_id: 5,
        quantity: 1,
        location: ItemLocation::PlayerInventory { owner_identity: 7, slot: 5 },
    });
    store.items.push(InventoryItem {
        instance_id: 2,
        owner_identity: 7,
        item_def_id: 6,
        quantity: 1,
        location: ItemLocation::Equipment { owner_identity: 7, slot: EquipmentSlot::Chest },
    });
    store.next_instance_id = 3;
    let r = equip_armor_from_inventory(&mut store, &cat, 7, 1);
    assert!(r.is_ok());
    assert_eq!(
        store.items[0].location,
        ItemLocation::Equipment { owner_identity: 7, slot: EquipmentSlot::Chest }
    );
    assert_eq!(
        store.items[1].location,
        ItemLocation::PlayerInventory { owner_identity: 7, slot: 0 }
    );

    // Equipping something that is not armor is refused.
    store.items.push(InventoryItem {
        instance_id: 3,
        owner_identity: 7,
        item_def_id: 1,
        quantity: 5,
        location: ItemLocation::PlayerInventory { owner_identity: 7, slot: 9 },
    });
    store.next_instance_id = 4;
    assert_eq!(equip_armor_from_inventory(&mut store, &cat, 7, 3), Err(ErrorCode::InvalidSlot));
}

#[test]
fn equip_fails_whole_when_inventory_full() {
    let cat = catalog();
    let mut store = ItemStore::new();
    // Fill all 24 inventory slots except the one holding the new armor.
    for s in 0..24u16 {
        store.items.push(InventoryItem {
            instance_id: 100 + s as u64,
            owner_identity: 7,
            item_def_id: 1,
            quantity: 1,
            location: ItemLocation::PlayerInventory { owner_identity: 7, slot: s },
        });
    }
    store.items.push(InventoryItem {
        instance_id: 1,
        owner_identity: 7,
        item_def_id: 5,
        quantity: 1,
        location: ItemLocation::PlayerHotbar { owner_identity: 7, slot: 0 },
    });
    store.items.push(InventoryItem {
        instance_id: 2,
        owner_identity: 7,
        item_def_id: 6,
        quantity: 1,
        location: ItemLocation::Equipment { owner_identity: 7, slot: EquipmentSlot::Chest },
    });
    store.next_instance_id = 200;
    let before = store.items.clone();
    assert_eq!(equip_armor_from_inventory(&mut store, &cat, 7, 1), Err(ErrorCode::InventoryFull));
    assert_eq!(store.items, before);
}

#[test]
fn equip_from_drag_validates_slot_name() {
    let cat = catalog();
    let mut campfires: Vec<Campfire> = Vec::new();
    let mut store = ItemStore::new();
    store.items.push(InventoryItem {
        instance_id: 1,
        owner_identity: 7,
        item_def_id: 5,
        quantity: 1,
        location: ItemLocation::PlayerInventory { owner_identity: 7, slot: 0 },
    });
    store.next_instance_id = 2;
    assert_eq!(
        equip_armor_from_drag(&mut store, &cat, &mut campfires, 7, 1, "Helmet".to_owned()),
        Err(ErrorCode::InvalidSlot)
    );
    assert_eq!(
        equip_armor_from_drag(&mut store, &cat, &mut campfires, 7, 1, "Head".to_owned()),
        Err(ErrorCode::InvalidSlot)
    );
    assert!(
        equip_armor_from_drag(&mut store, &cat, &mut campfires, 7, 1, "Chest".to_owned()).is_ok()
    );
    assert_eq!(
        store.items[0].location,
        ItemLocation::Equipment { owner_identity: 7, slot: EquipmentSlot::Chest }
    );
}

#[test]
fn campfire_fuel_cycle() {
    // Wood merges onto the fuel already burning, the remainder takes an
    // empty slot, and dropping the last fuel puts the fire out.
    let cat = catalog();
    let mut campfires = vec![Campfire {
        id: 4,
        pos_x: 900,
        pos_y: 900,
        placed_by: 7,
        health: 100,
        max_health: 100,
        is_destroyed: false,
        last_hit_time: None,
        last_damaged_by: None,
        is_burning: true,
        next_fuel_consume_at: Some(123),
    }];
    let mut store = ItemStore::new();
    store.items.push(InventoryItem {
        instance_id: 1,
        owner_identity: 7,
        item_def_id: 1,
        quantity: 95,
        location: ItemLocation::Container {
            container_type: ContainerType::Campfire,
            container_id: 4,
            slot: 0,
        },
    });
    store.items.push(InventoryItem {
        instance_id: 2,
        owner_identity: 7,
        item_def_id: 1,
        quantity: 30,
        location: ItemLocation::PlayerHotbar { owner_identity: 7, slot: 0 },
    });
    store.next_instance_id = 3;
    assert!(check_if_campfire_has_fuel(&store, 4));

    let r = auto_add_wood_to_campfire(&mut store, &cat, &campfires, 7, 4, 2);
    assert!(r.is_ok());
    // 5 merged into the burning stack, 25 placed into fuel slot 1.
    assert_eq!(store.items[0].quantity, 100);
    assert_eq!(store.items[1].quantity, 25);
    assert_eq!(
        store.items[1].location,
        ItemLocation::Container { container_type: ContainerType::Campfire, container_id: 4, slot: 1 }
    );

    // Splitting ten back out leaves the remainder as fuel.
    let r2 = split_stack_from_campfire(
        &mut store, &cat, &campfires, 7, 4, 1, 10, "hotbar".to_owned(), 2,
    );
    assert!(r2.is_ok());
    assert_eq!(store.items[1].quantity, 15);
    assert_eq!(store.items[2].quantity, 10);
    assert_eq!(
        store.items[2].location,
        ItemLocation::PlayerHotbar { owner_identity: 7, slot: 2 }
    );

    // Dropping both fuel stacks lets the fire go out.
    let players = vec![player_at(7, 900, 900)];
    let mut equips: Vec<ActiveEquipment> = Vec::new();
    assert!(drop_item(&mut store, &cat, &mut equips, &mut campfires, &players, 7, 1, 100).is_ok());
    assert!(campfires[0].is_burning);
    assert!(drop_item(&mut store, &cat, &mut equips, &mut campfires, &players, 7, 2, 15).is_ok());
    assert!(!campfires[0].is_burning);
    assert_eq!(campfires[0].next_fuel_consume_at, None);

    // Non-wood is refused as fuel.
    store.items.push(InventoryItem {
        instance_id: 50,
        owner_identity: 7,
        item_def_id: 2,
        quantity: 3,
        location: ItemLocation::PlayerHotbar { owner_identity: 7, slot: 5 },
    });
    store.next_instance_id = 51;
    assert_eq!(
        add_fuel_to_campfire(&mut store, &cat, &campfires, 7, 4, 0, 50),
        Err(ErrorCode::CannotMerge)
    );
}

#[test]
fn main_hand_clears_on_drop() {
    let cat = catalog();
    let players = vec![player_at(7, 500, 500)];
    let mut campfires: Vec<Campfire> = Vec::new();
    let mut equips = vec![ActiveEquipment {
        player_identity: 7,
        equipped_item_instance_id: Some(1),
        equipped_item_def_id: Some(1),
        swing_start_time_ms: 42,
    }];
    let mut store = ItemStore::new();
    store.items.push(InventoryItem {
        instance_id: 1,
        owner_identity: 7,
        item_def_id: 1,
        quantity: 5,
        location: ItemLocation::PlayerHotbar { owner_identity: 7, slot: 0 },
    });
    store.next_instance_id = 2;
    assert!(drop_item(&mut store, &cat, &mut equips, &mut campfires, &players, 7, 1, 5).is_ok());
    assert_eq!(equips[0].equipped_item_instance_id, None);
    assert_eq!(equips[0].swing_start_time_ms, 0);

    // Clearing an unrelated instance changes nothing.
    let cleared = clear_specific_item_from_equipment_slots(&mut equips, 7, 99);
    assert!(!cleared);
}

#[test]
fn spatial_grid_finds_nearby_entities() {
    let mut grid = SpatialGrid::new();
    assert_eq!(grid_width(), 188);
    assert_eq!(grid_height(), 188);

    let players = vec![player_at(7, 1000, 1000)];
    let trees = vec![Tree { id: 3, pos_x: 1100, pos_y: 1000, chunk_index: 0, health: 50, respawn_at: None }];
    let dead_trees = vec![Tree { id: 4, pos_x: 1000, pos_y: 1000, chunk_index: 0, health: 0, respawn_at: None }];
    let stones = Vec::new();
    let campfires = Vec::new();
    let boxes = Vec::new();
    let mushrooms = Vec::new();
    let corpses = Vec::new();
    let shelters = Vec::new();
    let mut store = ItemStore::new();
    store.items.push(InventoryItem {
        instance_id: 8,
        owner_identity: 0,
        item_def_id: 1,
        quantity: 5,
        location: ItemLocation::Ground { x: 1010, y: 1010 },
    });
    store.next_instance_id = 9;

    grid.populate_from_world(
        &players, &trees, &stones, &campfires, &boxes, &mushrooms, &corpses, &shelters, &store,
    );
    let here = grid.get_entities_at(1000, 1000);
    assert!(here.contains(&EntityType::Player(7)));
    // The felled tree was skipped.
    assert!(!here.contains(&EntityType::Tree(4)));

    // The ranged query sees the player, the ground stack in the same
    // cell, and the tree one cell over.
    let near = grid.get_entities_in_range(1000, 1000);
    assert!(near.contains(&EntityType::Player(7)));
    assert!(near.contains(&EntityType::DroppedItem(8)));
    assert!(near.contains(&EntityType::Tree(3)));

    grid.clear();
    assert!(grid.get_entities_at(1000, 1000).is_empty());
}

#[test]
fn movement_helpers() {
    assert_eq!(get_effective_player_radius(false), 32);
    assert_eq!(get_effective_player_radius(true), 16);
    assert!(is_player_jumping(1000, 1400));
    assert!(!is_player_jumping(1000, 1500));
    assert!(!is_player_jumping(0, 1400));
    assert_eq!(world_pos_to_tile_coords(100, 200), (2, 4));

    let mut p = player_at(7, 100, 100);
    p.direction = "up".to_owned();
    assert_eq!(calculate_drop_position(&p), (100, 52));
    p.direction = "left".to_owned();
    assert_eq!(calculate_drop_position(&p), (52, 100));
    p.direction = "right".to_owned();
    assert_eq!(calculate_drop_position(&p), (148, 100));
    p.direction = "down".to_owned();
    assert_eq!(calculate_drop_position(&p), (100, 148));
}

#[test]
fn shelter_spans_multiple_grid_cells() {
    // A standing shelter is indexed into every cell its collision box
    // overlaps, so a query one cell away from its anchor still sees it.
    let mut grid = SpatialGrid::new();
    let players: Vec<Player> = Vec::new();
    let trees: Vec<Tree> = Vec::new();
    let stones = Vec::new();
    let campfires = Vec::new();
    let boxes = Vec::new();
    let mushrooms = Vec::new();
    let corpses = Vec::new();
    // Anchor near a cell boundary: the box [1936..2064] x [1840..1968]
    // overlaps cells 15 and 16 horizontally.
    let shelters = vec![survival_core::structures::Shelter {
        id: 11,
        pos_x: 2000,
        pos_y: 1936,
        placed_by: 7,
        health: 100000,
        max_health: 100000,
        is_destroyed: false,
        last_hit_time: None,
        last_damaged_by: None,
    }];
    let store = ItemStore::new();
    grid.populate_from_world(
        &players, &trees, &stones, &campfires, &boxes, &mushrooms, &corpses, &shelters, &store,
    );
    // The anchor-centered cell and the neighbor to the left both hold it.
    assert!(grid.get_entities_at(2000, 1904).contains(&EntityType::Shelter(11)));
    assert!(grid.get_entities_at(1950, 1904).contains(&EntityType::Shelter(11)));
    // A destroyed shelter is skipped.
    let mut grid2 = SpatialGrid::new();
    let mut downed = shelters.clone();
    downed[0].is_destroyed = true;
    grid2.populate_from_world(
        &players, &trees, &stones, &campfires, &boxes, &mushrooms, &corpses, &downed, &store,
    );
    assert!(grid2.get_entities_at(2000, 1904).is_empty());
}

#[test]
fn auto_wood_takes_lowest_empty_slot_when_nothing_merges() {
    // With the only wood in the fuel slots already full, the stack moves
    // whole into the lowest empty slot, here slot 1.
    let cat = catalog();
    let campfires = vec![Campfire {
        id: 4,
        pos_x: 900,
        pos_y: 900,
        placed_by: 7,
        health: 100,
        max_health: 100,
        is_destroyed: false,
        last_hit_time: None,
        last_damaged_by: None,
        is_burning: true,
        next_fuel_consume_at: Some(123),
    }];
    let mut store = ItemStore::new();
    store.items.push(InventoryItem {
        instance_id: 1,
        owner_identity: 7,
        item_def_id: 1,
        quantity: 100,
        location: ItemLocation::Container {
            container_type: ContainerType::Campfire,
            container_id: 4,
            slot: 0,
        },
    });
    store.items.push(InventoryItem {
        instance_id: 2,
        owner_identity: 7,
        item_def_id: 1,
        quantity: 30,
        location: ItemLocation::PlayerHotbar { owner_identity: 7, slot: 0 },
    });
    store.next_instance_id = 3;

    let r = auto_add_wood_to_campfire(&mut store, &cat, &campfires, 7, 4, 2);
    assert!(r.is_ok());
    assert_eq!(store.items[0].quantity, 100);
    assert_eq!(store.items[1].quantity, 30);
    assert_eq!(
        store.items[1].location,
        ItemLocation::Container { container_type: ContainerType::Campfire, container_id: 4, slot: 1 }
    );
}
