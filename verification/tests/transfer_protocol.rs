use fae_factory::inventory::{Inventory, InventoryFilter};
use fae_factory::items::{ItemAmount, ItemType};

fn stack(item: ItemType, amount: u32) -> ItemAmount {
    ItemAmount { item, amount }
}

fn seeded(stacks: Vec<ItemAmount>) -> Inventory {
    Inventory::new(10, stacks)
}

#[test]
fn try_empty_honors_the_source_output_filter() {
    // A crafter's inventory mid-recipe: Wood is the recipe input and must not
    // be pulled out; the Toy byproduct may.
    let mut src = seeded(vec![stack(ItemType::Wood, 2), stack(ItemType::Toy, 3)]);
    src.output_filter = InventoryFilter::Except(vec![ItemType::Wood]);
    let mut dst = seeded(vec![stack(ItemType::Toy, 1)]);
    src.try_empty_into_other(&mut dst);
    assert_eq!(src.count_of(ItemType::Wood), 2);
    assert_eq!(src.count_of(ItemType::Toy), 0);
    assert_eq!(dst.count_of(ItemType::Wood), 0);
    assert_eq!(dst.count_of(ItemType::Toy), 4);
}

#[test]
fn try_empty_with_blocked_output_moves_nothing() {
    let mut src = seeded(vec![stack(ItemType::Stone, 4)]);
    src.output_filter = InventoryFilter::Nothing;
    let mut dst = seeded(vec![]);
    src.try_empty_into_other(&mut dst);
    assert_eq!(src.count_of(ItemType::Stone), 4);
    assert_eq!(dst.count_of(ItemType::Stone), 0);
}

#[test]
fn try_empty_does_not_consult_the_destination_input_filter() {
    // The emptying transfer is gated by the source's output filter alone:
    // whatever the source lets out, the destination accepts, even past a
    // closed input filter (single-item inserts are the gated path).
    let mut src = seeded(vec![stack(ItemType::Wood, 2)]);
    let mut dst = seeded(vec![]);
    dst.input_filter = InventoryFilter::Nothing;
    src.try_empty_into_other(&mut dst);
    assert_eq!(src.count_of(ItemType::Wood), 0);
    assert_eq!(dst.count_of(ItemType::Wood), 2);
}

#[test]
fn force_empty_bypasses_both_filters() {
    let mut src = seeded(vec![stack(ItemType::Wood, 2), stack(ItemType::Toy, 3)]);
    src.output_filter = InventoryFilter::Nothing;
    let mut dst = seeded(vec![stack(ItemType::Wood, 1)]);
    dst.input_filter = InventoryFilter::Nothing;
    src.force_empty_into_other(&mut dst);
    assert_eq!(src.count_of(ItemType::Wood), 0);
    assert_eq!(src.count_of(ItemType::Toy), 0);
    assert_eq!(dst.count_of(ItemType::Wood), 3);
    assert_eq!(dst.count_of(ItemType::Toy), 3);
}

#[test]
fn move_items_into_other_moves_whole_stacks_by_type() {
    let mut src = seeded(vec![stack(ItemType::Wood, 2), stack(ItemType::Toy, 3)]);
    let mut dst = seeded(vec![]);
    src.move_items_into_other(&mut dst, vec![stack(ItemType::Toy, 1), stack(ItemType::Stone, 1)]);
    // The whole Toy stack moves regardless of the amount named; Stone is
    // absent and Wood was not named.
    assert_eq!(src.count_of(ItemType::Wood), 2);
    assert_eq!(src.count_of(ItemType::Toy), 0);
    assert_eq!(dst.count_of(ItemType::Toy), 3);
    assert_eq!(dst.count_of(ItemType::Stone), 0);
}

#[test]
fn insert_item_is_gated_by_the_destination_input_filter() {
    let mut player = seeded(vec![stack(ItemType::Wood, 2)]);
    let mut structure = seeded(vec![]);
    structure.input_filter = InventoryFilter::Only(vec![ItemType::Wood]);
    assert!(player.try_insert_item(&mut structure, ItemType::Wood));
    assert_eq!(player.count_of(ItemType::Wood), 1);
    assert_eq!(structure.count_of(ItemType::Wood), 1);
    // A type the destination refuses does not move, even though the player
    // holds it.
    structure.input_filter = InventoryFilter::Only(vec![ItemType::Crystal]);
    assert!(!player.try_insert_item(&mut structure, ItemType::Wood));
    assert_eq!(player.count_of(ItemType::Wood), 1);
    assert_eq!(structure.count_of(ItemType::Wood), 1);
}

#[test]
fn insert_item_fails_without_stock() {
    let mut player = seeded(vec![]);
    let mut structure = seeded(vec![]);
    assert!(!player.try_insert_item(&mut structure, ItemType::Toy));
    assert_eq!(structure.count_of(ItemType::Toy), 0);
}

#[test]
fn withdraw_item_is_gated_by_both_filters() {
    let mut structure = seeded(vec![stack(ItemType::Toy, 2), stack(ItemType::Wood, 1)]);
    structure.output_filter = InventoryFilter::Except(vec![ItemType::Wood]);
    let mut player = seeded(vec![]);
    assert!(structure.try_withdraw_item(&mut player, ItemType::Toy));
    assert_eq!(structure.count_of(ItemType::Toy), 1);
    assert_eq!(player.count_of(ItemType::Toy), 1);
    // The source's output filter refuses Wood.
    assert!(!structure.try_withdraw_item(&mut player, ItemType::Wood));
    assert_eq!(structure.count_of(ItemType::Wood), 1);
    assert_eq!(player.count_of(ItemType::Wood), 0);
    // The destination's input filter refuses Toy.
    player.input_filter = InventoryFilter::Nothing;
    assert!(!structure.try_withdraw_item(&mut player, ItemType::Toy));
    assert_eq!(structure.count_of(ItemType::Toy), 1);
    assert_eq!(player.count_of(ItemType::Toy), 1);
}
