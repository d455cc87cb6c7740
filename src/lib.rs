//! Household grocery planning: turning recipes and a household's buying
//! history into a consolidated shopping list, and scoring how well a recipe
//! fits the household. Every function here is verified against its contract.

use vstd::prelude::*;

pub mod chat;
pub mod collection;
pub mod consolidator;
pub mod context;
pub mod formatter;
pub mod generator;
pub mod plan;
pub mod household;
pub mod item;
pub mod recipe;
pub mod scorer;
pub mod scoring;
pub mod text;
pub mod types;

verus! {

} // verus!
