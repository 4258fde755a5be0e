use smart_recipe_backend::inventory::Inventory;
use smart_recipe_backend::types::{Error, IngredientPayload};

fn pay(name: &str, quantity: u64, unit: &str) -> IngredientPayload {
    IngredientPayload { name: name.to_string(), quantity, unit: unit.to_string() }
}

#[test]
fn merge_sums_quantities() {
    let mut inv = Inventory::new();
    let first = inv.add_ingredient_to_inventory(pay("Flour", 2, "kg")).unwrap();
    assert_eq!(first.quantity, 2);
    assert_eq!(first.id, 1);
    let merged = inv.add_ingredient_to_inventory(pay("Flour", 3, "kg")).unwrap();
    assert_eq!(merged.quantity, 5);
    assert_eq!(merged.name, "Flour");
    // The merged entry keeps its original identifier and unit.
    assert_eq!(merged.id, 1);
    assert_eq!(merged.unit, "kg");
    let all = inv.view_inventory();
    assert_eq!(all.len(), 1);
    assert_eq!(all[0].quantity, 5);
    assert_eq!(inv.quantity_of(&"Flour".to_string()), 5);
}

#[test]
fn names_are_case_sensitive_keys() {
    let mut inv = Inventory::new();
    inv.add_ingredient_to_inventory(pay("Salt", 1, "g")).unwrap();
    inv.add_ingredient_to_inventory(pay("salt", 2, "g")).unwrap();
    let all = inv.view_inventory();
    assert_eq!(all.len(), 2);
    assert_eq!(inv.quantity_of(&"Salt".to_string()), 1);
    assert_eq!(inv.quantity_of(&"salt".to_string()), 2);
}

#[test]
fn fresh_entries_get_increasing_identifiers() {
    let mut inv = Inventory::new();
    let a = inv.add_ingredient_to_inventory(pay("Rice", 1, "kg")).unwrap();
    let b = inv.add_ingredient_to_inventory(pay("Beans", 1, "kg")).unwrap();
    assert_eq!(a.id, 1);
    assert_eq!(b.id, 2);
}

#[test]
fn merge_overflow_is_refused() {
    let mut inv = Inventory::new();
    inv.add_ingredient_to_inventory(pay("Honey", u64::MAX - 1, "l")).unwrap();
    assert!(inv.add_ingredient_to_inventory(pay("Honey", 2, "l")).is_none());
    // The failed call left the stored quantity untouched.
    assert_eq!(inv.quantity_of(&"Honey".to_string()), u64::MAX - 1);
}

#[test]
fn insufficient_removal_rejected() {
    let mut inv = Inventory::new();
    inv.add_ingredient_to_inventory(pay("Sugar", 1, "kg")).unwrap();
    let r = inv.remove_ingredient_from_inventory("Sugar".to_string(), 5);
    assert!(matches!(r, Err(Error::NotFound { .. })));
    assert_eq!(inv.quantity_of(&"Sugar".to_string()), 1);
}

#[test]
fn removal_deducts_and_returns_the_removed_amount() {
    let mut inv = Inventory::new();
    inv.add_ingredient_to_inventory(pay("Milk", 7, "l")).unwrap();
    let removed = inv.remove_ingredient_from_inventory("Milk".to_string(), 4).unwrap();
    assert_eq!(removed.name, "Milk");
    assert_eq!(removed.quantity, 4);
    assert_eq!(removed.unit, "l");
    assert_eq!(inv.quantity_of(&"Milk".to_string()), 3);
}

#[test]
fn removal_to_zero_keeps_the_entry() {
    let mut inv = Inventory::new();
    inv.add_ingredient_to_inventory(pay("Oats", 2, "kg")).unwrap();
    inv.remove_ingredient_from_inventory("Oats".to_string(), 2).unwrap();
    let all = inv.view_inventory();
    assert_eq!(all.len(), 1);
    assert_eq!(all[0].quantity, 0);
}

#[test]
fn touching_one_name_leaves_the_others_alone() {
    let mut inv = Inventory::new();
    inv.add_ingredient_to_inventory(pay("Flour", 2, "kg")).unwrap();
    inv.add_ingredient_to_inventory(pay("Sugar", 3, "kg")).unwrap();
    inv.add_ingredient_to_inventory(pay("Flour", 1, "kg")).unwrap();
    assert_eq!(inv.quantity_of(&"Sugar".to_string()), 3);
    inv.remove_ingredient_from_inventory("Sugar".to_string(), 1).unwrap();
    assert_eq!(inv.quantity_of(&"Flour".to_string()), 3);
    assert_eq!(inv.quantity_of(&"Sugar".to_string()), 2);
}

#[test]
fn removal_of_missing_name_fails() {
    let mut inv = Inventory::new();
    let r = inv.remove_ingredient_from_inventory("Pepper".to_string(), 1);
    assert!(matches!(r, Err(Error::NotFound { .. })));
    assert!(inv.view_inventory().is_empty());
}
