use fae_factory::crafting::{Crafter, CrafterState};
use fae_factory::inventory::Inventory;
use fae_factory::items::{ItemAmount, ItemType};
use fae_factory::recipes::{Recipe, RecipeType};
use fae_factory::registry::{CoreError, Registry};

fn stack(item: ItemType, amount: u32) -> ItemAmount {
    ItemAmount { item, amount }
}

fn seeded(stacks: Vec<ItemAmount>) -> Inventory {
    Inventory::new(10, stacks)
}

fn assembling(recipe_type: RecipeType, progress: u64, repeat: bool) -> Crafter {
    Crafter {
        recipe: Some(Recipe::lookup(recipe_type)),
        progress,
        state: CrafterState::Assembling(repeat),
    }
}

#[test]
fn lookups_are_fallible() {
    let mut registry = Registry::new();
    assert_eq!(registry.len(), 0);
    assert_eq!(registry.inventory_of(0).unwrap_err(), CoreError::NotFound);
    assert_eq!(registry.crafter_of(3).unwrap_err(), CoreError::NotFound);
    let id = registry.spawn(seeded(vec![stack(ItemType::Stone, 7)]), None, 1);
    assert_eq!(id, 0);
    assert_eq!(registry.len(), 1);
    assert_eq!(registry.inventory_of(0).unwrap().count_of(ItemType::Stone), 7);
    assert!(registry.crafter_of(0).unwrap().is_none());
}

#[test]
fn tick_advances_every_crafter_and_queues_events_in_order() {
    let mut registry = Registry::new();
    // Entity 0: a chest without a crafter.
    registry.spawn(seeded(vec![stack(ItemType::Stone, 1)]), None, 1);
    // Entity 1: one time unit away from completing.
    registry.spawn(seeded(vec![]), Some(assembling(RecipeType::WoodToToy, 4, false)), 1);
    // Entity 2: mid-assembly, not completing this tick.
    registry.spawn(seeded(vec![]), Some(assembling(RecipeType::CrystalToToy, 2, false)), 1);
    // Entity 3: also completing this tick.
    registry.spawn(seeded(vec![]), Some(assembling(RecipeType::CrystalToToy, 9, true)), 1);
    registry.tick(1);
    let events = registry.drain_events();
    assert_eq!(events.len(), 2);
    assert_eq!(events[0].entity, 1);
    assert_eq!(events[0].recipe.recipe_type, RecipeType::WoodToToy);
    assert_eq!(events[1].entity, 3);
    assert_eq!(events[1].recipe.recipe_type, RecipeType::CrystalToToy);
    // The queue is drained once, not replayed.
    assert_eq!(registry.drain_events().len(), 0);
    // The outputs landed in the completing entities' inventories.
    assert_eq!(registry.inventory_of(1).unwrap().count_of(ItemType::Toy), 1);
    assert_eq!(registry.inventory_of(2).unwrap().count_of(ItemType::Toy), 0);
    assert_eq!(registry.inventory_of(3).unwrap().count_of(ItemType::Toy), 1);
    // The non-completing crafter accumulated the tick.
    match registry.crafter_of(2).unwrap() {
        Some(c) => assert_eq!(c.progress, 3),
        None => panic!("entity 2 lost its crafter"),
    }
    // The chest was untouched.
    assert_eq!(registry.inventory_of(0).unwrap().count_of(ItemType::Stone), 1);
}

#[test]
fn speed_multiplier_scales_the_tick() {
    let mut registry = Registry::new();
    // Cost 5 at speed 5: one tick of one time unit completes the craft.
    registry.spawn(seeded(vec![]), Some(assembling(RecipeType::WoodToToy, 0, false)), 5);
    registry.tick(1);
    let events = registry.drain_events();
    assert_eq!(events.len(), 1);
    assert_eq!(events[0].entity, 0);
}

#[test]
fn one_giant_tick_gives_one_event_per_crossing() {
    let mut registry = Registry::new();
    registry.spawn(seeded(vec![]), Some(assembling(RecipeType::WoodToToy, 0, true)), 1);
    registry.tick(u64::MAX);
    // However large the tick, a crossing yields exactly one notification.
    assert_eq!(registry.drain_events().len(), 1);
}

#[test]
fn oversized_tick_under_a_multiplier_still_completes_once() {
    let mut registry = Registry::new();
    // The scaled elapsed time saturates instead of wrapping around.
    registry.spawn(seeded(vec![]), Some(assembling(RecipeType::CrystalToToy, 0, false)), 3);
    registry.tick(u64::MAX);
    assert_eq!(registry.drain_events().len(), 1);
    assert_eq!(registry.inventory_of(0).unwrap().count_of(ItemType::Toy), 1);
}

#[test]
fn events_accumulate_across_ticks_until_drained() {
    let mut registry = Registry::new();
    registry.spawn(seeded(vec![stack(ItemType::Wood, 6)]), Some(Crafter {
        recipe: Some(Recipe::lookup(RecipeType::WoodToToy)),
        progress: 0,
        state: CrafterState::Pending(true),
    }), 1);
    registry.tick(1); // consume
    registry.tick(5); // complete, re-enter pending
    registry.tick(1); // consume again
    registry.tick(5); // complete again
    let events = registry.drain_events();
    assert_eq!(events.len(), 2);
    assert_eq!(events[0].entity, 0);
    assert_eq!(events[1].entity, 0);
    assert_eq!(registry.inventory_of(0).unwrap().count_of(ItemType::Toy), 2);
    assert_eq!(registry.inventory_of(0).unwrap().count_of(ItemType::Wood), 0);
}

#[test]
fn transfer_between_guards_against_self_transfer() {
    let mut registry = Registry::new();
    registry.spawn(seeded(vec![stack(ItemType::Toy, 2)]), None, 1);
    assert_eq!(registry.transfer_between(0, 0, true).unwrap_err(), CoreError::InvariantViolated);
    assert_eq!(registry.transfer_between(0, 5, false).unwrap_err(), CoreError::NotFound);
    assert_eq!(registry.transfer_between(7, 0, true).unwrap_err(), CoreError::NotFound);
    assert_eq!(registry.inventory_of(0).unwrap().count_of(ItemType::Toy), 2);
}

#[test]
fn transfer_between_moves_contents() {
    let mut registry = Registry::new();
    let mut structure = seeded(vec![stack(ItemType::Wood, 2), stack(ItemType::Toy, 3)]);
    structure.filtered_for(Some(&Recipe::lookup(RecipeType::WoodToToy)));
    registry.spawn(structure, None, 1);
    registry.spawn(seeded(vec![]), None, 1);
    // Filtered transfer: the recipe input Wood stays behind.
    registry.transfer_between(0, 1, false).unwrap();
    assert_eq!(registry.inventory_of(0).unwrap().count_of(ItemType::Wood), 2);
    assert_eq!(registry.inventory_of(1).unwrap().count_of(ItemType::Toy), 3);
    // Forced transfer on structure removal: nothing is silently lost.
    registry.transfer_between(0, 1, true).unwrap();
    assert_eq!(registry.inventory_of(0).unwrap().count_of(ItemType::Wood), 0);
    assert_eq!(registry.inventory_of(1).unwrap().count_of(ItemType::Wood), 2);
    assert_eq!(registry.inventory_of(1).unwrap().count_of(ItemType::Toy), 3);
}
