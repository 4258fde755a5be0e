use smart_recipe_backend::inventory::Inventory;
use smart_recipe_backend::recipes::RecipeStore;
use smart_recipe_backend::shopping::generate_shopping_list;
use smart_recipe_backend::types::{Error, Ingredient, IngredientPayload, MealType, RecipePayload};

fn ing(name: &str, quantity: u64) -> Ingredient {
    Ingredient { id: 0, name: name.to_string(), quantity, unit: "g".to_string() }
}

fn recipe_with(name: &str, ingredients: Vec<Ingredient>) -> RecipePayload {
    RecipePayload {
        name: name.to_string(),
        ingredients,
        instructions: vec![],
        nutritional_info: vec![],
        meal_type: MealType::Dinner,
    }
}

fn stock(inv: &mut Inventory, name: &str, quantity: u64) {
    inv.add_ingredient_to_inventory(IngredientPayload {
        name: name.to_string(),
        quantity,
        unit: "g".to_string(),
    })
    .unwrap();
}

#[test]
fn shortfall_is_reported_exactly() {
    let mut store = RecipeStore::new();
    let a = store
        .add_recipe(recipe_with("A", vec![ing("Flour", 5), ing("Sugar", 2)]), 1)
        .unwrap();
    let mut inv = Inventory::new();
    stock(&mut inv, "Flour", 3);
    stock(&mut inv, "Sugar", 10);
    let list = generate_shopping_list(&store, &inv, vec![a.id]).unwrap();
    assert_eq!(list.len(), 1);
    assert_eq!(list[0].name, "Flour");
    assert_eq!(list[0].quantity, 2);
    assert_eq!(list[0].id, 0);
    assert_eq!(list[0].unit, "");
}

#[test]
fn sufficiency_yields_an_empty_list() {
    let mut store = RecipeStore::new();
    let a = store
        .add_recipe(recipe_with("A", vec![ing("Flour", 5), ing("Sugar", 2)]), 1)
        .unwrap();
    let mut inv = Inventory::new();
    stock(&mut inv, "Flour", 5);
    stock(&mut inv, "Sugar", 2);
    let list = generate_shopping_list(&store, &inv, vec![a.id]).unwrap();
    assert!(list.is_empty());
}

#[test]
fn absent_inventory_counts_as_zero() {
    let mut store = RecipeStore::new();
    let a = store.add_recipe(recipe_with("A", vec![ing("Yeast", 4)]), 1).unwrap();
    let inv = Inventory::new();
    let list = generate_shopping_list(&store, &inv, vec![a.id]).unwrap();
    assert_eq!(list.len(), 1);
    assert_eq!(list[0].name, "Yeast");
    assert_eq!(list[0].quantity, 4);
}

#[test]
fn duplicate_identifiers_count_twice() {
    let mut store = RecipeStore::new();
    let a = store.add_recipe(recipe_with("A", vec![ing("Flour", 5)]), 1).unwrap();
    let mut inv = Inventory::new();
    stock(&mut inv, "Flour", 7);
    let list = generate_shopping_list(&store, &inv, vec![a.id, a.id]).unwrap();
    assert_eq!(list.len(), 1);
    assert_eq!(list[0].name, "Flour");
    assert_eq!(list[0].quantity, 3);
}

#[test]
fn quantities_merge_across_recipes() {
    let mut store = RecipeStore::new();
    let a = store.add_recipe(recipe_with("A", vec![ing("Flour", 2), ing("Salt", 1)]), 1).unwrap();
    let b = store.add_recipe(recipe_with("B", vec![ing("Flour", 4)]), 2).unwrap();
    let mut inv = Inventory::new();
    stock(&mut inv, "Flour", 5);
    let list = generate_shopping_list(&store, &inv, vec![a.id, b.id]).unwrap();
    assert_eq!(list.len(), 2);
    assert_eq!(list[0].name, "Flour");
    assert_eq!(list[0].quantity, 1);
    assert_eq!(list[1].name, "Salt");
    assert_eq!(list[1].quantity, 1);
}

#[test]
fn missing_recipe_fails_and_names_it() {
    let mut store = RecipeStore::new();
    let a = store.add_recipe(recipe_with("A", vec![ing("Flour", 1)]), 1).unwrap();
    let inv = Inventory::new();
    let r = generate_shopping_list(&store, &inv, vec![a.id, 999]);
    match r {
        Err(Error::NotFound { msg }) => assert!(msg.contains("999")),
        _ => panic!("a missing recipe must fail the whole batch"),
    }
}

#[test]
fn overflowing_requirement_is_refused() {
    let mut store = RecipeStore::new();
    let a = store
        .add_recipe(recipe_with("A", vec![ing("Flour", u64::MAX), ing("Flour", 1)]), 1)
        .unwrap();
    let inv = Inventory::new();
    assert!(matches!(
        generate_shopping_list(&store, &inv, vec![a.id]),
        Err(Error::NotFound { .. })
    ));
}

#[test]
fn empty_batch_needs_nothing() {
    let store = RecipeStore::new();
    let inv = Inventory::new();
    let list = generate_shopping_list(&store, &inv, vec![]).unwrap();
    assert!(list.is_empty());
}
