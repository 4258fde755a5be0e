//! A catalog of recipes with an ingredient inventory.
//!
//! Recipes live in an ordered store keyed by unique 64-bit identifiers.
//! The identifier counter sits in a stable-memory cell that persists
//! every write, so an identifier, once handed out, is never handed out
//! again — even when the cell's memory region is carried across a
//! restart; the records themselves are process state, rebuilt by
//! whatever embeds the store.  The inventory maps ingredient names to
//! on-hand quantities.  A reconciler compares the ingredients required
//! by a batch of recipes against the inventory and reports the
//! shortfall as a shopping list.
pub mod counter;
pub mod inventory;
pub mod recipes;
pub mod shopping;
pub mod text;
pub mod types;
