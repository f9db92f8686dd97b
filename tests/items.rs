use tilebound::chest::Chest;
use tilebound::hex::HexCoord;
use tilebound::inventory::{stepped_quantity, Inventory, ItemStack};

#[test]
fn item_stack_names_items() {
    let s = ItemStack::new(0, 3);
    assert_eq!(s.item_name, "XP Drop");
    assert_eq!(s.quantity, 3);
    let s = ItemStack::new(4, 1);
    assert_eq!(s.item_name, "Medium Health Potato");
    assert_eq!(s.description, "Made of defeated capsules and scorpion blood.\nGrants the player 25% MAX HP.");
}

#[test]
fn item_stack_add_up_to_limit() {
    let mut s = ItemStack::new(1, 30);
    s.add(2);
    assert_eq!(s.quantity, 32);
}

#[test]
fn inventory_starts_empty() {
    let inv = Inventory::default();
    for i in 0..30 {
        assert_eq!(inv.slot(i), None);
    }
}

#[test]
fn add_item_fills_stacks_then_empty_slots() {
    let mut inv = Inventory::default();
    assert_eq!(inv.add_item(1, 40), 0);
    assert_eq!(inv.slot(0), Some((1, 32)));
    assert_eq!(inv.slot(1), Some((1, 8)));
    assert_eq!(inv.add_item(3, 5), 0);
    assert_eq!(inv.slot(2), Some((3, 5)));
    assert_eq!(inv.add_item(1, 30), 0);
    assert_eq!(inv.slot(1), Some((1, 32)));
    assert_eq!(inv.slot(3), Some((1, 6)));
    assert_eq!(inv.slot(4), None);
}

#[test]
fn add_item_drops_what_does_not_fit() {
    let mut inv = Inventory::default();
    assert_eq!(inv.add_item(2, 32 * 30 + 7), 7);
    for i in 0..30 {
        assert_eq!(inv.slot(i), Some((2, 32)));
    }
    assert_eq!(inv.add_item(0, 1), 1);
}

#[test]
fn chest_holds_contents() {
    let c = Chest { hex_coord: HexCoord::new(2, 3), contents: vec![(0, 5), (3, 1)] };
    assert_eq!(c.contents.len(), 2);
    assert_eq!(Chest::default().contents.len(), 0);
}

#[test]
fn quantity_picker_steps_within_stack() {
    assert_eq!(stepped_quantity(3, 1, 10), 4);
    assert_eq!(stepped_quantity(9, 5, 10), 10);
    assert_eq!(stepped_quantity(5, -2, 10), 3);
    assert_eq!(stepped_quantity(2, -5, 10), 1);
    assert_eq!(stepped_quantity(2, -2, 10), 1);
}
