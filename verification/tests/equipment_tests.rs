use arq::container::{Container, ContainerType};
use arq::equipment::EquipmentSlot::{HEAD, PRIMARY};
use arq::equipment::{all_equipment_slots, equip_items, get_potential_slots, Equipment, EquipmentSlot, WeaponSlot};
use arq::items::{BladedWeaponType, Item, ItemForm, ItemType, MaterialType, Weapon};
use arq::tile::Colour;
use uuid::Uuid;

fn build_test_weapon() -> Item {
    Item::weapon(Uuid::new_v4().as_u128(), "".to_owned(), ItemForm::BLADED(BladedWeaponType::ARMING), MaterialType::STEEL, 'X', 3000, 50, Weapon { damage: 20 })
}

#[test]
pub fn test_is_slot_filled_defaults() {
    // GIVEN a default Equipment
    let equipment = Equipment::new();
    // AND any given inventory slot
    for es in all_equipment_slots() {
        // WHEN we check is_slot_filled
        // THEN we we expect everything to be false
        assert!(!equipment.is_slot_filled(es));
    }
}

#[test]
pub fn test_is_slot_filled() {
    let mut equipment = Equipment::new();
    let steel_sword = Container::wrap(Item::weapon(Uuid::new_v4().as_u128(), "".to_owned(), ItemForm::BLADED(BladedWeaponType::ARMING), MaterialType::STEEL, 'X', 3000, 50, Weapon { damage: 20 }));

    let equip_result = equipment.equip(steel_sword, PRIMARY);
    assert!(equip_result.is_ok());

    for es in all_equipment_slots() {
        let expected = if es == PRIMARY { true } else { false };
        assert_eq!(expected, equipment.is_slot_filled(es));
    }
}

#[test]
pub fn test_equip() {
    let mut equipment = Equipment::new();
    let weapon = build_test_weapon();
    let wrapped = Container::wrap(weapon.clone());

    let equip_result = equipment.equip(wrapped, PRIMARY);
    assert!(equip_result.is_ok());
    assert!(equipment.is_slot_filled(EquipmentSlot::PRIMARY));
    assert_eq!(weapon.get_id(), equipment.get_item(EquipmentSlot::PRIMARY).unwrap().get_id());
}

#[test]
pub fn test_equip_bad_container_type() {
    let mut equipment = Equipment::new();

    // AND an OBJECT type container i.e a Bag
    let wrapped = Container::new(Uuid::new_v4().as_u128(), "Bag".to_owned(), '$', 5000, 50, ContainerType::OBJECT, 50);

    let equip_result = equipment.equip(wrapped, PRIMARY);
    assert!(equip_result.is_err());
    assert_eq!("Unsupported container_type: OBJECT".to_string(), equip_result.err().unwrap().to_string())
}

#[test]
pub fn test_equip_slot_taken() {
    let mut equipment = Equipment::new();
    let weapon1 = build_test_weapon();
    let wrapped = Container::wrap(weapon1.clone());

    let mut equip_result = equipment.equip(wrapped, PRIMARY);
    assert!(equip_result.is_ok());
    assert!(equipment.is_slot_filled(EquipmentSlot::PRIMARY));
    assert_eq!(weapon1.get_id(), equipment.get_item(EquipmentSlot::PRIMARY).unwrap().get_id());

    let _weapon2 = build_test_weapon();
    let wrapped_other = Container::wrap(weapon1.clone());
    equip_result = equipment.equip(wrapped_other, PRIMARY);
    assert!(equip_result.is_err());
    assert_eq!("Cannot equip. Equipment slot: PRIMARY is already taken.".to_string(), equip_result.err().unwrap().to_string())
}

#[test]
pub fn test_unequip() {
    let mut equipment = Equipment::new();
    let weapon = build_test_weapon();
    let wrapped = Container::wrap(weapon.clone());

    let equip_result = equipment.equip(wrapped.clone(), PRIMARY);
    assert!(equip_result.is_ok());
    assert!(equipment.is_slot_filled(EquipmentSlot::PRIMARY));
    assert_eq!(weapon.get_id(), equipment.get_item(EquipmentSlot::PRIMARY).unwrap().get_id());

    let unequip_result = equipment.unequip(PRIMARY);
    assert!(unequip_result.is_ok());
    assert_eq!(wrapped.get_self_item().get_id(), unequip_result.unwrap().get_self_item().get_id());
    assert_eq!(false, equipment.is_slot_filled(PRIMARY))
}

#[test]
pub fn test_unequip_unfilled_slot() {
    let mut equipment = Equipment::new();

    let unequip_result = equipment.unequip(HEAD);
    assert!(unequip_result.is_err());
    assert_eq!("Cannot un-equip. Equipment slot: HEAD is empty.".to_string(), unequip_result.err().unwrap().to_string())
}

#[test]
fn equipment_slots_lists_filled_slots() {
    let mut equipment = Equipment::new();
    assert!(equipment.get_slots().is_empty());
    equipment.equip(Container::wrap(build_test_weapon()), EquipmentSlot::SECONDARY).unwrap();
    equipment.equip(Container::wrap(Item::with_defaults("Hat".to_owned(), 100, 1)), HEAD).unwrap();
    let slots = equipment.get_slots();
    assert_eq!(2, slots.len());
    assert_eq!(HEAD, slots[0].0);
    assert_eq!(EquipmentSlot::SECONDARY, slots[1].0);
}

#[test]
fn potential_slots_by_item_type() {
    assert_eq!(vec![EquipmentSlot::PRIMARY, EquipmentSlot::SECONDARY], get_potential_slots(ItemType::WEAPON(Weapon { damage: 1 })));
    assert_eq!(vec![HEAD], get_potential_slots(ItemType::HEADGEAR));
    assert_eq!(vec![EquipmentSlot::TORSO], get_potential_slots(ItemType::TORSO));
    assert_eq!(vec![EquipmentSlot::LEGS], get_potential_slots(ItemType::LEGS));
    assert!(get_potential_slots(ItemType::ITEM).is_empty());
    assert!(get_potential_slots(ItemType::CONTAINER).is_empty());
    assert_eq!(EquipmentSlot::PRIMARY, WeaponSlot::PRIMARY.to_equipment_slot());
    assert_eq!(EquipmentSlot::SECONDARY, WeaponSlot::SECONDARY.to_equipment_slot());
    assert_eq!(6, all_equipment_slots().len());
    assert_eq!("SECONDARY", EquipmentSlot::SECONDARY.name());
}

#[test]
fn test_build_item() {
    let id = Uuid::new_v4().as_u128();
    let item = Item::new(id, "Test Item".to_owned(), MaterialType::UNKNOWN, 'X', 1000, 1);
    assert_eq!(id, item.get_id());
    assert_eq!(ItemType::ITEM, item.item_type);
    assert_eq!("Test Item", item.get_name());
    assert_eq!('X', item.symbol.character);
    assert_eq!(Colour::White, item.symbol.colour);
    assert_eq!(1000, item.weight);
    assert_eq!(1, item.value);
}

#[test]
fn test_build_container() {
    let id = Uuid::new_v4().as_u128();
    let item = Item::container_item(id, "Test Container".to_owned(), 'X', 1000, 1);

    assert_eq!(id, item.get_id());
    assert_eq!(ItemType::CONTAINER, item.item_type);
    assert_eq!("Test Container", item.get_name());
    assert_eq!('X', item.symbol.character);
    assert_eq!(Colour::White, item.symbol.colour);
    assert_eq!(1000, item.weight);
    assert_eq!(1, item.value);
}

#[test]
fn item_names_and_materials() {
    let sword = build_test_weapon();
    assert_eq!("Steel Sword", sword.get_name());
    assert_eq!("Steel Sword", sword.get_default_name());
    let mut bar = Item::new_with_form(1, "".to_owned(), MaterialType::GOLD, ItemForm::BAR, 'b', 500, 100);
    assert_eq!("Gold Bar", bar.get_name());
    bar.set_name("Shiny".to_owned());
    assert_eq!("Shiny", bar.get_name());
    assert_eq!(19, MaterialType::GOLD.density_grams_cm3());
    assert_eq!(1, MaterialType::WOOD.density_grams_cm3());
    assert_eq!("Leather", MaterialType::LEATHER.name());
    assert_eq!("Coin", ItemForm::COIN.name());
    assert_eq!("Scroll", ItemForm::OTHER("Scroll".to_owned()).name());
}

#[test]
fn item_equipment_slot_and_identity() {
    let mut a = Item::with_defaults("Rope".to_owned(), 2000, 3);
    let b = Item::with_defaults("Rope".to_owned(), 2000, 3);
    assert!(!a.id_equals(&b));
    assert!(a.id_equals(&a.clone()));
    assert_eq!(4, (a.get_id() >> 76) & 0xf);
    assert!(!a.is_equipped());
    a.set_equipment_slot(Some(HEAD));
    assert!(a.is_equipped());
    assert_eq!(Some(HEAD), a.get_equipment_slot());
    a.unequip();
    assert!(!a.is_equipped());
    assert!(!a.is_container());
    assert_eq!(2000, a.get_weight());
    assert_eq!(3, a.get_value());
}

fn build_player_inventory() -> Container {
    Container::new(Uuid::new_v4().as_u128(), "Player".to_owned(), '@', 0, 0, ContainerType::OBJECT, 100)
}

fn build_player_equipment() -> Equipment {
    // A player who starts out holding a weapon in the PRIMARY slot
    let mut equipment = Equipment::new();
    equipment.equip(Container::wrap(build_test_weapon()), PRIMARY).expect("Failed to equip");
    equipment
}

#[test]
fn test_equip_callback() {
    let mut equipment = build_player_equipment();
    let mut inventory = build_player_inventory();
    // AND the player has nothing equipped in the PRIMARY slot
    equipment.unequip(PRIMARY).expect("Failed to un-equip");

    // AND an item that can be equipped that's inside the player's inventory
    let steel_sword = Item::weapon(Uuid::new_v4().as_u128(), "".to_owned(), ItemForm::BLADED(BladedWeaponType::ARMING), MaterialType::STEEL, 'X', 3000, 50, Weapon { damage: 10 });
    // AND this item should have no equipment slot set so far
    assert_eq!(None, steel_sword.get_equipment_slot());

    let to_equip = steel_sword.clone();
    let expected_id = to_equip.get_id().clone();
    inventory.add(Container::wrap(steel_sword)).expect("Failed to add item!");

    // WHEN we equip that item (Steel Sword)
    let result = equip_items(&vec![to_equip], &mut inventory, &mut equipment);

    match result {
        // THEN we expect a valid result with the item returned
        Some(modified) => {
            assert_eq!(1, modified.len());
            let item1 = modified.get(0).unwrap();
            assert_eq!(expected_id, item1.get_id());
            assert_eq!("Steel Sword".to_owned(), item1.get_name());
            // AND the item should have the PRIMARY EquipmentSlot set against it
            assert_eq!(Some(PRIMARY), item1.get_equipment_slot());
        },
        _ => {
            assert!(false, "Expected a valid Some(EquipItems(m) to return!");
        }
    }
}

#[test]
fn test_equip_items() {
    let mut equipment = build_player_equipment();
    let mut inventory = build_player_inventory();
    // AND the player has nothing equipped in the PRIMARY slot
    equipment.unequip(PRIMARY).expect("Failed to un-equip");

    // AND an item that can be equipped that's inside the player's inventory
    let steel_sword = Item::weapon(Uuid::new_v4().as_u128(), "".to_owned(), ItemForm::BLADED(BladedWeaponType::ARMING), MaterialType::STEEL, 'X', 3000, 50, Weapon { damage: 20 });
    // AND this item should have no equipment slot set so far
    assert_eq!(None, steel_sword.get_equipment_slot());

    let to_equip = steel_sword.clone();
    let expected_id = to_equip.get_id().clone();

    inventory.add(Container::wrap(steel_sword)).expect("Failed to add item!");

    // WHEN we call to equip that item (Steel Sword)
    let modified = equip_items(&vec![to_equip], &mut inventory, &mut equipment);

    // THEN we expect a valid result with the item returned
    // AND the item should have the PRIMARY EquipmentSlot set against it
    if let Some(modified) = modified {
        assert_eq!(1, modified.len());
        let item1 = modified.get(0).unwrap();
        assert_eq!(expected_id, item1.get_id());
        assert_eq!("Steel Sword".to_owned(), item1.get_name());
        assert_eq!(Some(PRIMARY), item1.get_equipment_slot());
    } else {
       assert!(false, "Expected a valid Some(EquipItems(m) to return!");
    }
}

#[test]
fn equip_items_records_slot_in_inventory_and_equipment() {
    let mut equipment = Equipment::new();
    let mut inventory = build_player_inventory();
    let sword = build_test_weapon();
    inventory.add(Container::wrap(sword.clone())).unwrap();

    let modified = equip_items(&vec![sword.clone()], &mut inventory, &mut equipment).unwrap();
    assert_eq!(1, modified.len());
    assert_eq!(Some(PRIMARY), inventory.find(&sword).unwrap().get_self_item().get_equipment_slot());
    assert_eq!(sword.get_id(), equipment.get_item(PRIMARY).unwrap().get_id());
    assert!(!equipment.is_slot_filled(EquipmentSlot::SECONDARY));
}

#[test]
fn equip_items_second_weapon_takes_secondary_slot() {
    let mut equipment = build_player_equipment();
    let mut inventory = build_player_inventory();
    let sword = build_test_weapon();
    inventory.add(Container::wrap(sword.clone())).unwrap();

    let modified = equip_items(&vec![sword.clone()], &mut inventory, &mut equipment).unwrap();
    assert_eq!(Some(EquipmentSlot::SECONDARY), modified[0].get_equipment_slot());
    assert_eq!(sword.get_id(), equipment.get_item(EquipmentSlot::SECONDARY).unwrap().get_id());
}

#[test]
fn equip_items_unequips_an_equipped_item() {
    let mut equipment = Equipment::new();
    let mut inventory = build_player_inventory();
    let sword = build_test_weapon();
    inventory.add(Container::wrap(sword.clone())).unwrap();
    equip_items(&vec![sword.clone()], &mut inventory, &mut equipment).unwrap();
    assert!(equipment.is_slot_filled(PRIMARY));

    // Equipping it again takes it off
    let modified = equip_items(&vec![sword.clone()], &mut inventory, &mut equipment).unwrap();
    assert_eq!(1, modified.len());
    assert_eq!(None, modified[0].get_equipment_slot());
    assert!(!equipment.is_slot_filled(PRIMARY));
    assert_eq!(None, inventory.find(&sword).unwrap().get_self_item().get_equipment_slot());
}

#[test]
fn equip_items_without_a_free_slot_changes_nothing() {
    let mut equipment = Equipment::new();
    equipment.equip(Container::wrap(build_test_weapon()), PRIMARY).unwrap();
    equipment.equip(Container::wrap(build_test_weapon()), EquipmentSlot::SECONDARY).unwrap();
    let mut inventory = build_player_inventory();
    let sword = build_test_weapon();
    let rope = Item::with_defaults("Rope".to_owned(), 2000, 3);
    inventory.add(Container::wrap(sword.clone())).unwrap();
    inventory.add(Container::wrap(rope.clone())).unwrap();

    // Neither the sword (both hands full) nor the rope (no slot) can be equipped
    let modified = equip_items(&vec![sword.clone(), rope.clone()], &mut inventory, &mut equipment).unwrap();
    assert!(modified.is_empty());
    assert_eq!(None, inventory.find(&sword).unwrap().get_self_item().get_equipment_slot());
    assert_ne!(sword.get_id(), equipment.get_item(PRIMARY).unwrap().get_id());
}

#[test]
fn equip_items_ignores_items_not_in_inventory_and_empty_requests() {
    let mut equipment = Equipment::new();
    let mut inventory = build_player_inventory();
    let sword = build_test_weapon();
    assert!(equip_items(&vec![], &mut inventory, &mut equipment).is_none());
    let modified = equip_items(&vec![sword], &mut inventory, &mut equipment).unwrap();
    assert!(modified.is_empty());
    assert!(!equipment.is_slot_filled(PRIMARY));
}
