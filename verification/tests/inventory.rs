use dungeon_crawler_world::inventory::{Inventory, Item, ItemType};

fn item(name: &str, quantity: u32, item_type: ItemType) -> Item {
    Item {
        name: name.to_string(),
        quantity,
        item_type,
    }
}

#[test]
fn test_inventory_creation() {
    let inventory = Inventory::new(10);
    assert_eq!(inventory.capacity(), 10);
    assert_eq!(inventory.len(), 0);
    assert!(inventory.is_empty());
}

#[test]
fn test_add_item() {
    let mut inventory = Inventory::new(5);
    let item = Item {
        name: "Sword".to_string(),
        quantity: 1,
        item_type: ItemType::Weapon,
    };

    assert!(inventory.add_item(item.clone()));
    assert_eq!(inventory.len(), 1);
    assert!(!inventory.is_empty());
    assert!(inventory.has_item("Sword"));
    assert_eq!(inventory.get_quantity("Sword"), 1);
}

#[test]
fn test_stack_items() {
    let mut inventory = Inventory::new(5);
    let item1 = Item {
        name: "Potion".to_string(),
        quantity: 3,
        item_type: ItemType::Consumable,
    };
    let item2 = Item {
        name: "Potion".to_string(),
        quantity: 2,
        item_type: ItemType::Consumable,
    };

    assert!(inventory.add_item(item1));
    assert!(inventory.add_item(item2));

    // Should still be 1 slot but with 5 quantity
    assert_eq!(inventory.len(), 1);
    assert_eq!(inventory.get_quantity("Potion"), 5);
}

#[test]
fn test_remove_item() {
    let mut inventory = Inventory::new(5);
    let item = Item {
        name: "Arrow".to_string(),
        quantity: 10,
        item_type: ItemType::Weapon,
    };

    inventory.add_item(item);

    // Remove some arrows
    let removed = inventory.remove_item("Arrow", 3);
    assert!(removed.is_some());
    assert_eq!(removed.unwrap().quantity, 3);
    assert_eq!(inventory.get_quantity("Arrow"), 7);

    // Remove all remaining arrows
    let removed = inventory.remove_item("Arrow", 7);
    assert!(removed.is_some());
    assert!(!inventory.has_item("Arrow"));
    assert_eq!(inventory.len(), 0);
}

#[test]
fn test_remove_too_many_items() {
    let mut inventory = Inventory::new(5);
    let item = Item {
        name: "Stone".to_string(),
        quantity: 5,
        item_type: ItemType::Material,
    };

    inventory.add_item(item);

    // Try to remove more than available
    let removed = inventory.remove_item("Stone", 10);
    assert!(removed.is_none());
    assert_eq!(inventory.get_quantity("Stone"), 5);
}

#[test]
fn test_inventory_capacity() {
    let mut inventory = Inventory::new(2);

    let item1 = Item {
        name: "Item1".to_string(),
        quantity: 1,
        item_type: ItemType::Material,
    };
    let item2 = Item {
        name: "Item2".to_string(),
        quantity: 1,
        item_type: ItemType::Material,
    };
    let item3 = Item {
        name: "Item3".to_string(),
        quantity: 1,
        item_type: ItemType::Material,
    };

    assert!(inventory.add_item(item1));
    assert!(inventory.add_item(item2));
    assert!(!inventory.add_item(item3)); // Should fail - capacity reached

    assert_eq!(inventory.len(), 2);
}

#[test]
fn test_item_types() {
    let weapon = Item {
        name: "Sword".to_string(),
        quantity: 1,
        item_type: ItemType::Weapon,
    };
    let armor = Item {
        name: "Shield".to_string(),
        quantity: 1,
        item_type: ItemType::Armor,
    };

    assert_eq!(weapon.item_type, ItemType::Weapon);
    assert_eq!(armor.item_type, ItemType::Armor);
    assert_ne!(weapon.item_type, armor.item_type);
}

#[test]
fn test_default_inventory() {
    let inventory = Inventory::default();
    assert_eq!(inventory.capacity(), 50);
    assert!(inventory.is_empty());
}

#[test]
fn test_item_clone() {
    let item1 = Item {
        name: "Test".to_string(),
        quantity: 5,
        item_type: ItemType::Quest,
    };
    let item2 = item1.clone();

    assert_eq!(item1, item2);
    assert_eq!(item1.name, item2.name);
    assert_eq!(item1.quantity, item2.quantity);
}

#[test]
fn full_inventory_refuses_even_a_stacking_item() {
    let mut inventory = Inventory::new(1);
    assert!(inventory.add_item(item("Potion", 2, ItemType::Consumable)));
    assert!(!inventory.add_item(item("Potion", 3, ItemType::Consumable)));
    assert_eq!(inventory.get_quantity("Potion"), 2);
    assert_eq!(inventory.len(), 1);
}

#[test]
fn same_name_of_another_kind_takes_its_own_slot() {
    let mut inventory = Inventory::new(5);
    assert!(inventory.add_item(item("Bow", 1, ItemType::Weapon)));
    assert!(inventory.add_item(item("Bow", 4, ItemType::Material)));
    assert_eq!(inventory.len(), 2);
    // The first slot with the name answers.
    assert_eq!(inventory.get_quantity("Bow"), 1);
    assert_eq!(inventory.items()[1].quantity, 4);
    assert_eq!(inventory.items()[1].item_type, ItemType::Material);
}

#[test]
fn removing_an_unknown_name_changes_nothing() {
    let mut inventory = Inventory::new(3);
    assert!(inventory.add_item(item("Rope", 2, ItemType::Material)));
    assert!(inventory.remove_item("Torch", 1).is_none());
    assert_eq!(inventory.len(), 1);
    assert_eq!(inventory.get_quantity("Rope"), 2);
    assert_eq!(inventory.get_quantity("Torch"), 0);
    assert!(!inventory.has_item("Torch"));
}

#[test]
fn removed_part_keeps_name_and_kind() {
    let mut inventory = Inventory::new(3);
    assert!(inventory.add_item(item("Gem", 9, ItemType::Quest)));
    let removed = inventory.remove_item("Gem", 4).unwrap();
    assert_eq!(removed, item("Gem", 4, ItemType::Quest));
    assert_eq!(inventory.items()[0], item("Gem", 5, ItemType::Quest));
}

#[test]
fn remove_undoes_add_of_a_new_name() {
    let mut inventory = Inventory::new(4);
    assert!(inventory.add_item(item("Key", 1, ItemType::Quest)));
    let before: Vec<Item> = inventory.items().to_vec();
    assert!(inventory.add_item(item("Map", 3, ItemType::Quest)));
    assert!(inventory.remove_item("Map", 3).is_some());
    assert_eq!(inventory.items().to_vec(), before);
}

#[test]
fn stacking_adds_to_the_reported_quantity() {
    let mut inventory = Inventory::new(4);
    assert!(inventory.add_item(item("Coin", 7, ItemType::Material)));
    let before = inventory.get_quantity("Coin");
    assert!(inventory.add_item(item("Coin", 5, ItemType::Material)));
    assert_eq!(inventory.get_quantity("Coin"), before + 5);
}

#[test]
fn slots_never_exceed_capacity() {
    let mut inventory = Inventory::new(3);
    for i in 0..10 {
        let _ = inventory.add_item(item(&format!("Thing{}", i), 1, ItemType::Material));
        assert!(inventory.len() <= inventory.capacity());
    }
    assert_eq!(inventory.len(), 3);
}

#[test]
fn zero_capacity_refuses_everything() {
    let mut inventory = Inventory::new(0);
    assert!(!inventory.add_item(item("Feather", 1, ItemType::Material)));
    assert!(inventory.is_empty());
}
