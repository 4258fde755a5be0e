use smart_recipe_backend::recipes::RecipeStore;
use smart_recipe_backend::types::{Error, Ingredient, MealType, Recipe, RecipePayload};

fn ing(id: u64, name: &str, quantity: u64, unit: &str) -> Ingredient {
    Ingredient { id, name: name.to_string(), quantity, unit: unit.to_string() }
}

fn payload(name: &str, meal_type: MealType, ingredients: Vec<Ingredient>) -> RecipePayload {
    RecipePayload {
        name: name.to_string(),
        ingredients,
        instructions: vec!["mix".to_string(), "bake".to_string()],
        nutritional_info: vec!["350 kcal".to_string()],
        meal_type,
    }
}

#[test]
fn identifiers_increase_and_never_repeat() {
    let mut store = RecipeStore::new();
    let a = store.add_recipe(payload("Pancakes", MealType::Breakfast, vec![]), 10).unwrap();
    let b = store.add_recipe(payload("Soup", MealType::Lunch, vec![]), 20).unwrap();
    let c = store.add_recipe(payload("Cake", MealType::Desserts, vec![]), 30).unwrap();
    assert_eq!(a.id, 0);
    assert_eq!(b.id, 1);
    assert_eq!(c.id, 2);
    assert!(a.id < b.id && b.id < c.id);
    // A deleted identifier is not handed out again.
    store.delete_recipe(c.id).unwrap();
    let d = store.add_recipe(payload("Toast", MealType::Snack, vec![]), 40).unwrap();
    assert_eq!(d.id, 3);
}

#[test]
fn add_then_search_round_trip() {
    let mut store = RecipeStore::new();
    let added = store
        .add_recipe(payload("Omelette", MealType::Breakfast, vec![ing(7, "Egg", 3, "pcs")]), 111)
        .unwrap();
    assert_eq!(added.created_at, 111);
    assert_eq!(added.updated_at, None);
    let found = store.search_recipe(added.id).unwrap();
    assert_eq!(found, added);
}

#[test]
fn update_preserves_identity() {
    let mut store = RecipeStore::new();
    let added = store.add_recipe(payload("Stew", MealType::Dinner, vec![]), 50).unwrap();
    let updated = store
        .update_recipe(added.id, payload("Rich stew", MealType::Dinner, vec![ing(1, "Beef", 1, "kg")]), 80)
        .unwrap();
    assert_eq!(updated.id, added.id);
    assert_eq!(updated.created_at, 50);
    assert_eq!(updated.updated_at, Some(80));
    assert!(updated.updated_at.unwrap() >= updated.created_at);
    assert_eq!(updated.name, "Rich stew");
    assert_eq!(updated.ingredients.len(), 1);
    assert_eq!(updated.ingredients[0].name, "Beef");
    let found = store.search_recipe(added.id).unwrap();
    assert_eq!(found, updated);
}

#[test]
fn update_missing_fails() {
    let mut store = RecipeStore::new();
    let r = store.update_recipe(42, payload("Ghostly", MealType::Snack, vec![]), 5);
    assert!(matches!(r, Err(Error::NotFound { .. })));
}

#[test]
fn delete_is_final() {
    let mut store = RecipeStore::new();
    let added = store.add_recipe(payload("Salad", MealType::Lunch, vec![]), 1).unwrap();
    let removed = store.delete_recipe(added.id).unwrap();
    assert_eq!(removed, added);
    assert!(matches!(store.search_recipe(added.id), Err(Error::NotFound { .. })));
    assert!(matches!(store.delete_recipe(added.id), Err(Error::NotFound { .. })));
}

#[test]
fn search_missing_fails() {
    let store = RecipeStore::new();
    assert!(matches!(store.search_recipe(0), Err(Error::NotFound { .. })));
}

#[test]
fn meal_type_filter_is_exact() {
    let mut store = RecipeStore::new();
    let a = store.add_recipe(payload("Porridge", MealType::Breakfast, vec![]), 1).unwrap();
    let _b = store.add_recipe(payload("Burger", MealType::Lunch, vec![]), 2).unwrap();
    let c = store.add_recipe(payload("Waffles", MealType::Breakfast, vec![]), 3).unwrap();
    let breakfasts: Vec<Recipe> = store.search_recipe_by_meal_type(MealType::Breakfast);
    assert_eq!(breakfasts.len(), 2);
    assert_eq!(breakfasts[0], a);
    assert_eq!(breakfasts[1], c);
    let desserts = store.search_recipe_by_meal_type(MealType::Desserts);
    assert!(desserts.is_empty());
}

#[test]
fn get_and_insert_helpers() {
    let mut store = RecipeStore::new();
    let added = store.add_recipe(payload("Pie", MealType::Desserts, vec![]), 9).unwrap();
    assert_eq!(store._get_recipe(&added.id), Some(added.clone()));
    assert_eq!(store._get_recipe(&99), None);
    let mut changed = added.clone();
    changed.name = "Plum pie".to_string();
    store.do_insert_recipe(&changed);
    assert_eq!(store.search_recipe(added.id).unwrap().name, "Plum pie");
}
