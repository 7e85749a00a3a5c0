//! Resource-conversion core of a tile-based factory game.
//!
//! Entities hold typed item stacks in inventories; a crafter consumes input
//! stacks according to a recipe, accumulates timed progress, and emits output
//! stacks, optionally repeating indefinitely. Time is measured in abstract
//! integer units; one simulation tick advances every crafter by the tick's
//! elapsed time.

pub mod crafting;
pub mod inventory;
pub mod items;
pub mod recipes;
pub mod registry;
pub mod transfer;
