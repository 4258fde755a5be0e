//! The human-readable messages that ride inside [`crate::types::Error`].
//! Contracts never pin the wording; each helper only formats its
//! arguments into a sentence.
use vstd::prelude::*;

verus! {

/// Relies on `format!` of std to render the identifier as decimal text.
#[verifier::external_body]
pub(crate) fn msg_recipe_missing(id: u64) -> String {
    format!("A recipe with id={} not found", id)
}

/// Relies on `format!` of std to render the identifier as decimal text.
#[verifier::external_body]
pub(crate) fn msg_update_missing(id: u64) -> String {
    format!("Couldn't update a recipe with id={}. Recipe not found", id)
}

/// Relies on `format!` of std to render the identifier as decimal text.
#[verifier::external_body]
pub(crate) fn msg_delete_missing(id: u64) -> String {
    format!("Couldn't delete a recipe with id={}. Recipe not found", id)
}

/// Relies on `format!` of std to splice the name into the sentence.
#[verifier::external_body]
pub(crate) fn msg_ingredient_missing(name: &String) -> String {
    format!("Ingredient '{}' not found in inventory", name)
}

/// Relies on `format!` of std to splice the name into the sentence.
#[verifier::external_body]
pub(crate) fn msg_insufficient(name: &String) -> String {
    format!("Insufficient quantity of '{}' in inventory", name)
}

/// Relies on `format!` of std to splice the name into the sentence.
#[verifier::external_body]
pub(crate) fn msg_required_overflow(name: &String) -> String {
    format!("Required quantity of '{}' does not fit in 64 bits", name)
}

} // verus!
