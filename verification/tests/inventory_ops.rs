use fae_factory::inventory::{Inventory, InventoryFilter};
use fae_factory::items::{ItemAmount, ItemType};

fn stack(item: ItemType, amount: u32) -> ItemAmount {
    ItemAmount { item, amount }
}

fn seeded(stacks: Vec<ItemAmount>) -> Inventory {
    Inventory::new(10, stacks)
}

#[test]
fn new_inventory_counts_and_open_filters() {
    let inv = seeded(vec![stack(ItemType::Wood, 5), stack(ItemType::Toy, 2)]);
    assert_eq!(inv.count_of(ItemType::Wood), 5);
    assert_eq!(inv.count_of(ItemType::Toy), 2);
    assert_eq!(inv.count_of(ItemType::Stone), 0);
    assert_eq!(inv.slots, 10);
    assert!(matches!(inv.input_filter, InventoryFilter::All));
    assert!(matches!(inv.output_filter, InventoryFilter::All));
}

#[test]
fn has_item_compares_stock_to_amount() {
    let inv = seeded(vec![stack(ItemType::Wood, 5)]);
    assert!(inv.has_item(&stack(ItemType::Wood, 5)));
    assert!(inv.has_item(&stack(ItemType::Wood, 3)));
    assert!(!inv.has_item(&stack(ItemType::Wood, 6)));
    // Zero of an absent type is covered: stock 0 >= 0.
    assert!(inv.has_item(&stack(ItemType::Crystal, 0)));
    assert!(!inv.has_item(&stack(ItemType::Crystal, 1)));
}

#[test]
fn has_items_is_a_conjunction_without_side_effects() {
    let inv = seeded(vec![stack(ItemType::Wood, 5), stack(ItemType::Stone, 1)]);
    assert!(inv.has_items(&vec![stack(ItemType::Wood, 3), stack(ItemType::Stone, 1)]));
    assert!(!inv.has_items(&vec![stack(ItemType::Wood, 3), stack(ItemType::Stone, 2)]));
    assert_eq!(inv.count_of(ItemType::Wood), 5);
    assert_eq!(inv.count_of(ItemType::Stone), 1);
}

#[test]
fn add_items_accumulates_and_merges_types() {
    let mut inv = seeded(vec![stack(ItemType::Wood, 1)]);
    inv.add_items(&vec![stack(ItemType::Wood, 2), stack(ItemType::Toy, 4)]);
    inv.add_items(&vec![stack(ItemType::Toy, 1)]);
    assert_eq!(inv.count_of(ItemType::Wood), 3);
    assert_eq!(inv.count_of(ItemType::Toy), 5);
    // One merged entry per item type.
    assert_eq!(inv.items.len(), 2);
}

#[test]
fn remove_items_removes_all_when_covered() {
    let mut inv = seeded(vec![stack(ItemType::Wood, 5), stack(ItemType::Toy, 2)]);
    let removed = inv.remove_items(&vec![stack(ItemType::Wood, 3), stack(ItemType::Toy, 2)]);
    assert!(removed);
    assert_eq!(inv.count_of(ItemType::Wood), 2);
    assert_eq!(inv.count_of(ItemType::Toy), 0);
    // Entries that reach zero disappear from the stack list.
    assert_eq!(inv.items.len(), 1);
}

#[test]
fn remove_items_is_atomic_on_failure() {
    let mut inv = seeded(vec![stack(ItemType::Wood, 5), stack(ItemType::Toy, 2)]);
    let before = inv.items.clone();
    // Toy 3 is not covered, so nothing at all may change.
    let removed = inv.remove_items(&vec![stack(ItemType::Wood, 3), stack(ItemType::Toy, 3)]);
    assert!(!removed);
    assert_eq!(inv.items, before);
    assert_eq!(inv.count_of(ItemType::Wood), 5);
    assert_eq!(inv.count_of(ItemType::Toy), 2);
}

#[test]
fn remove_item_single_type() {
    let mut inv = seeded(vec![stack(ItemType::Crystal, 2)]);
    assert!(!inv.remove_item(ItemType::Crystal, 3));
    assert_eq!(inv.count_of(ItemType::Crystal), 2);
    assert!(inv.remove_item(ItemType::Crystal, 2));
    assert_eq!(inv.count_of(ItemType::Crystal), 0);
    assert!(!inv.remove_item(ItemType::Crystal, 1));
}

#[test]
fn remove_if_possible_is_partial_and_per_stack() {
    let mut inv = seeded(vec![stack(ItemType::Wood, 2), stack(ItemType::Toy, 4)]);
    let removed = inv.remove_if_possible(&vec![
        stack(ItemType::Wood, 5),
        stack(ItemType::Toy, 3),
        stack(ItemType::Stone, 1),
    ]);
    // Wood: only 2 available of 5 requested; Toy: the full 3; Stone: absent,
    // so no entry at all.
    assert_eq!(removed, vec![stack(ItemType::Wood, 2), stack(ItemType::Toy, 3)]);
    assert_eq!(inv.count_of(ItemType::Wood), 0);
    assert_eq!(inv.count_of(ItemType::Toy), 1);
    assert_eq!(inv.count_of(ItemType::Stone), 0);
}

#[test]
fn can_add_items_follows_the_input_filter() {
    let mut inv = seeded(vec![]);
    inv.input_filter = InventoryFilter::All;
    assert!(inv.can_add_items(&[ItemType::Wood, ItemType::Toy]));
    inv.input_filter = InventoryFilter::Only(vec![ItemType::Wood]);
    assert!(inv.can_add_items(&[ItemType::Wood]));
    assert!(!inv.can_add_items(&[ItemType::Wood, ItemType::Toy]));
    inv.input_filter = InventoryFilter::Except(vec![ItemType::Wood]);
    assert!(!inv.can_add_items(&[ItemType::Wood]));
    assert!(inv.can_add_items(&[ItemType::Toy, ItemType::Stone]));
    inv.input_filter = InventoryFilter::Nothing;
    assert!(!inv.can_add_items(&[ItemType::Wood]));
    // An empty request passes every filter.
    assert!(inv.can_add_items(&[]));
}

#[test]
fn pullable_items_follows_the_output_filter() {
    let mut inv = seeded(vec![]);
    let offer = vec![stack(ItemType::Wood, 1), stack(ItemType::Toy, 2)];
    inv.output_filter = InventoryFilter::All;
    assert_eq!(inv.pullable_items(offer.clone()), offer);
    inv.output_filter = InventoryFilter::Only(vec![ItemType::Toy]);
    assert_eq!(inv.pullable_items(offer.clone()), vec![stack(ItemType::Toy, 2)]);
    inv.output_filter = InventoryFilter::Except(vec![ItemType::Toy]);
    assert_eq!(inv.pullable_items(offer.clone()), vec![stack(ItemType::Wood, 1)]);
    inv.output_filter = InventoryFilter::Nothing;
    assert_eq!(inv.pullable_items(offer), vec![]);
}

#[test]
fn filtered_for_a_recipe_gates_inputs_and_byproducts() {
    let recipe = fae_factory::recipes::Recipe::lookup(fae_factory::recipes::RecipeType::WoodToToy);
    let mut inv = seeded(vec![]);
    inv.filtered_for(Some(&recipe));
    // Only the recipe input may be inserted externally.
    assert!(inv.can_add_items(&[ItemType::Wood]));
    assert!(!inv.can_add_items(&[ItemType::Toy]));
    // Only non-input byproducts may be pulled out.
    let offer = vec![stack(ItemType::Wood, 1), stack(ItemType::Toy, 1)];
    assert_eq!(inv.pullable_items(offer), vec![stack(ItemType::Toy, 1)]);
}

#[test]
fn filtered_for_no_recipe_blocks_insertion() {
    let mut inv = seeded(vec![]);
    inv.filtered_for(None);
    assert!(!inv.can_add_items(&[ItemType::Wood]));
    let offer = vec![stack(ItemType::Wood, 1)];
    assert_eq!(inv.pullable_items(offer.clone()), offer);
}

#[test]
fn filter_presets() {
    let storage = seeded(vec![]).clear_filters();
    assert!(matches!(storage.input_filter, InventoryFilter::All));
    assert!(matches!(storage.output_filter, InventoryFilter::All));
    let mut gatherer = seeded(vec![]);
    gatherer.filtered_only_remove();
    assert!(matches!(gatherer.input_filter, InventoryFilter::Nothing));
    assert!(matches!(gatherer.output_filter, InventoryFilter::All));
    let fresh = Inventory::default();
    assert_eq!(fresh.items.len(), 0);
    assert_eq!(fresh.slots, 10);
    assert!(matches!(fresh.input_filter, InventoryFilter::Nothing));
    assert!(matches!(fresh.output_filter, InventoryFilter::All));
}

#[test]
fn item_names() {
    assert_eq!(ItemType::Wood.name(), "wood");
    assert_eq!(ItemType::Crystal.name(), "crystal");
    assert_eq!(ItemType::Stone.name(), "stone");
    assert_eq!(ItemType::Toy.name(), "toy");
}
