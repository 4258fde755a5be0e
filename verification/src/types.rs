//! The record types of the catalog: recipes, ingredients, the payloads
//! that callers hand in, and the error kind, together with their
//! mathematical views.
use vstd::prelude::*;

verus! {

/// The meal occasion a recipe is meant for.
#[derive(Clone, Copy, Debug, PartialEq, Eq, Structural)]
pub enum MealType {
    Breakfast,
    Lunch,
    Dinner,
    Snack,
    Desserts,
}

/// An ingredient: a named quantity with a unit of measure.
///
/// Inside a recipe an ingredient list is a snapshot taken when the recipe
/// was written; in the inventory the name is the key.
#[derive(Debug, PartialEq, Eq)]
pub struct Ingredient {
    pub id: u64,
    pub name: String,
    pub quantity: u64,
    pub unit: String,
}

/// The mathematical view of an [`Ingredient`].
#[verifier::ext_equal]
pub ghost struct IngredientV {
    pub id: u64,
    pub name: Seq<char>,
    pub quantity: u64,
    pub unit: Seq<char>,
}

impl View for Ingredient {
    type V = IngredientV;

    open spec fn view(&self) -> IngredientV {
        IngredientV {
            id: self.id,
            name: self.name@,
            quantity: self.quantity,
            unit: self.unit@,
        }
    }
}

impl Clone for Ingredient {
    fn clone(&self) -> (r: Ingredient)
        ensures
            r == *self,
    {
        Ingredient {
            id: self.id,
            name: self.name.clone(),
            quantity: self.quantity,
            unit: self.unit.clone(),
        }
    }
}

/// A stored recipe.  The identifier and the creation timestamp are set
/// once when the recipe is added and never change; every other field is
/// replaced on update, which also stamps `updated_at`.
#[derive(Debug, PartialEq, Eq)]
pub struct Recipe {
    pub id: u64,
    pub name: String,
    pub ingredients: Vec<Ingredient>,
    pub instructions: Vec<String>,
    pub nutritional_info: Vec<String>,
    pub meal_type: MealType,
    pub created_at: u64,
    pub updated_at: Option<u64>,
}

/// The mathematical view of a [`Recipe`].
#[verifier::ext_equal]
pub ghost struct RecipeV {
    pub id: u64,
    pub name: Seq<char>,
    pub ingredients: Seq<IngredientV>,
    pub instructions: Seq<Seq<char>>,
    pub nutritional_info: Seq<Seq<char>>,
    pub meal_type: MealType,
    pub created_at: u64,
    pub updated_at: Option<u64>,
}

impl View for Recipe {
    type V = RecipeV;

    open spec fn view(&self) -> RecipeV {
        RecipeV {
            id: self.id,
            name: self.name@,
            ingredients: self.ingredients@.map_values(|i: Ingredient| i@),
            instructions: self.instructions@.map_values(|s: String| s@),
            nutritional_info: self.nutritional_info@.map_values(|s: String| s@),
            meal_type: self.meal_type,
            created_at: self.created_at,
            updated_at: self.updated_at,
        }
    }
}

/// Clones a vector of strings, keeping every element equal.
fn clone_strings(v: &Vec<String>) -> (r: Vec<String>)
    ensures
        r@ =~= v@,
{
    let r = v.clone();
    proof {
        assert forall|i: int| 0 <= i < v@.len() implies r@[i] == v@[i] by {
            assert(cloned::<String>(v@[i], r@[i]));
        }
    }
    r
}

impl Clone for Recipe {
    fn clone(&self) -> (r: Recipe)
        ensures
            r@ == self@,
            r.id == self.id,
            r.created_at == self.created_at,
            r.updated_at == self.updated_at,
            r.meal_type == self.meal_type,
    {
        let ingredients = self.ingredients.clone();
        proof {
            assert forall|i: int| 0 <= i < self.ingredients@.len()
                implies ingredients@[i] == self.ingredients@[i] by {
                assert(cloned::<Ingredient>(self.ingredients@[i], ingredients@[i]));
            }
            assert(ingredients@ =~= self.ingredients@);
        }
        let r = Recipe {
            id: self.id,
            name: self.name.clone(),
            ingredients,
            instructions: clone_strings(&self.instructions),
            nutritional_info: clone_strings(&self.nutritional_info),
            meal_type: self.meal_type,
            created_at: self.created_at,
            updated_at: self.updated_at,
        };
        proof {
            assert(r@ =~= self@);
        }
        r
    }
}

/// What a caller supplies to create or update a recipe: everything but
/// the identifier and the timestamps, which the store assigns itself.
#[derive(Debug)]
pub struct RecipePayload {
    pub name: String,
    pub ingredients: Vec<Ingredient>,
    pub instructions: Vec<String>,
    pub nutritional_info: Vec<String>,
    pub meal_type: MealType,
}

/// The mathematical view of a [`RecipePayload`].
#[verifier::ext_equal]
pub ghost struct RecipePayloadV {
    pub name: Seq<char>,
    pub ingredients: Seq<IngredientV>,
    pub instructions: Seq<Seq<char>>,
    pub nutritional_info: Seq<Seq<char>>,
    pub meal_type: MealType,
}

impl View for RecipePayload {
    type V = RecipePayloadV;

    open spec fn view(&self) -> RecipePayloadV {
        RecipePayloadV {
            name: self.name@,
            ingredients: self.ingredients@.map_values(|i: Ingredient| i@),
            instructions: self.instructions@.map_values(|s: String| s@),
            nutritional_info: self.nutritional_info@.map_values(|s: String| s@),
            meal_type: self.meal_type,
        }
    }
}

/// What a caller supplies to stock an ingredient: the inventory assigns
/// the identifier itself.
#[derive(Debug)]
pub struct IngredientPayload {
    pub name: String,
    pub quantity: u64,
    pub unit: String,
}

/// The record a freshly added recipe holds: the payload's fields with the
/// assigned identifier and creation time stamped in, and no update time.
pub open spec fn stamped(p: RecipePayloadV, id: u64, now: u64) -> RecipeV {
    RecipeV {
        id,
        name: p.name,
        ingredients: p.ingredients,
        instructions: p.instructions,
        nutritional_info: p.nutritional_info,
        meal_type: p.meal_type,
        created_at: now,
        updated_at: None,
    }
}

/// The record an update leaves behind: the payload's fields, the previous
/// record's identifier and creation time, and the update time stamped in.
pub open spec fn restamped(prev: RecipeV, p: RecipePayloadV, now: u64) -> RecipeV {
    RecipeV {
        id: prev.id,
        name: p.name,
        ingredients: p.ingredients,
        instructions: p.instructions,
        nutritional_info: p.nutritional_info,
        meal_type: p.meal_type,
        created_at: prev.created_at,
        updated_at: Some(now),
    }
}

/// The one error kind of the catalog.  Absent records and insufficient
/// inventory are both reported through it; the message tells them apart.
#[derive(Debug, PartialEq, Eq)]
pub enum Error {
    NotFound { msg: String },
}

} // verus!
