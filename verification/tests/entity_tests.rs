use rusterix::attrs::AttrValue;
use rusterix::entity::{Entity, Item, DIRTY_EQUIPPED, DIRTY_INVENTORY, DIRTY_POSITION, DIRTY_STATIC};
use rusterix::message::EntityAction;
use rusterix::server::Server;

#[test]
fn new_entity_is_clean() {
    let e = Entity::new();
    assert_eq!(e.id, 0);
    assert_eq!(e.position_bits, [0.0f32.to_bits(), 1.0f32.to_bits(), 0.0f32.to_bits()]);
    assert_eq!(e.orientation_bits, [1.0f32.to_bits(), 0.0f32.to_bits()]);
    assert_eq!(e.action, EntityAction::Off);
    assert!(!e.is_dirty());
}

#[test]
fn add_then_remove_item_tracks_changes() {
    let mut e = Entity::new();
    e.add_item(Item::new(7));
    assert!(e.get_item(7).is_some());
    assert!(e.inventory_additions.contains_key(&7));
    assert_eq!(e.dirty_flags & DIRTY_INVENTORY, DIRTY_INVENTORY);
    let removed = e.remove_item(7);
    assert_eq!(removed.map(|i| i.id), Some(7));
    assert!(e.get_item(7).is_none());
    assert!(!e.inventory_additions.contains_key(&7));
    assert!(e.inventory_removals.contains(&7));
    assert!(e.remove_item(7).is_none());
}

#[test]
fn equip_requires_inventory_item() {
    let mut e = Entity::new();
    assert_eq!(e.equip_item(3, "main_hand"), Err("Item not found in inventory.".to_string()));
    e.add_item(Item::new(3));
    e.add_item(Item::new(4));
    assert_eq!(e.equip_item(3, "main_hand"), Ok(()));
    assert_eq!(e.get_equipped_item("main_hand"), Some(3));
    assert_eq!(e.equip_item(4, "main_hand"), Ok(()));
    assert_eq!(e.get_equipped_item("main_hand"), Some(4));
    assert_eq!(e.equipped.len(), 1);
    assert_eq!(e.dirty_flags & DIRTY_EQUIPPED, DIRTY_EQUIPPED);
}

#[test]
fn unequip_empties_slot() {
    let mut e = Entity::new();
    e.add_item(Item::new(1));
    e.equip_item(1, "head").unwrap();
    e.equip_item(1, "feet").unwrap();
    assert_eq!(e.unequip_item("head"), Ok(()));
    assert_eq!(e.get_equipped_item("head"), None);
    assert_eq!(e.get_equipped_item("feet"), Some(1));
    assert_eq!(e.unequip_item("head"), Err("No item equipped in the given slot.".to_string()));
}

#[test]
fn dirty_flags_and_clear() {
    let mut e = Entity::new();
    e.set_pos_xz(2.0f32.to_bits(), 3.0f32.to_bits());
    assert_eq!(e.position_bits, [2.0f32.to_bits(), 1.0f32.to_bits(), 3.0f32.to_bits()]);
    assert_eq!(e.dirty_flags, DIRTY_POSITION);
    e.mark_dirty_attribute("health");
    e.mark_dirty_attribute("health");
    assert_eq!(e.dirty_attributes, vec!["health".to_string()]);
    e.set_static_dirty();
    assert_eq!(e.dirty_flags, DIRTY_STATIC);
    assert!(e.dirty_attributes.is_empty());
    e.add_item(Item::new(2));
    e.clear_dirty();
    assert!(!e.is_dirty());
    assert!(e.inventory_additions.is_empty());
    assert!(e.get_item(2).is_some());
}

#[test]
fn update_round_trip_syncs_copy() {
    let mut server_side = Entity::new();
    server_side.id = 5;
    let mut client_side = Entity::new();
    client_side.id = 5;
    client_side.add_item(Item::new(9));
    server_side.add_item(Item::new(9));
    server_side.clear_dirty();
    client_side.clear_dirty();

    server_side.set_pos_xz(4.0f32.to_bits(), 6.0f32.to_bits());
    server_side.add_item(Item::new(1));
    server_side.remove_item(9);
    server_side.equip_item(1, "hand").unwrap();

    let update = server_side.get_update();
    assert_eq!(update.id, 5);
    assert!(update.orientation_bits.is_none());
    client_side.apply_update(update);
    assert_eq!(client_side.position_bits, server_side.position_bits);
    assert!(client_side.get_item(1).is_some());
    assert!(client_side.get_item(9).is_none());
    assert_eq!(client_side.get_equipped_item("hand"), Some(1));
    // Applying does not mark the copy as changed.
    assert_eq!(client_side.dirty_flags, 0);
}

#[test]
fn update_for_other_entity_is_ignored() {
    let mut a = Entity::new();
    a.id = 1;
    a.set_pos_xz(9.0f32.to_bits(), 9.0f32.to_bits());
    let mut b = Entity::new();
    b.id = 2;
    b.apply_update(a.get_update());
    assert_eq!(b.position_bits, Entity::new().position_bits);
}

#[test]
fn process_entity_updates_adds_and_updates() {
    let mut a = Entity::new();
    a.id = 3;
    a.set_pos_xz(1.0f32.to_bits(), 2.0f32.to_bits());
    let mut b = Entity::new();
    b.id = 4;
    b.add_item(Item::new(11));
    let mut list: Vec<Entity> = Vec::new();
    Server::process_entity_updates(&mut list, vec![a.get_update(), b.get_update()]);
    assert_eq!(list.len(), 2);
    assert_eq!(list[0].id, 3);
    assert_eq!(list[0].position_bits, a.position_bits);
    assert!(list[1].get_item(11).is_some());
    a.set_pos_xz(5.0f32.to_bits(), 5.0f32.to_bits());
    Server::process_entity_updates(&mut list, vec![a.get_update()]);
    assert_eq!(list.len(), 2);
    assert_eq!(list[0].position_bits, a.position_bits);
}

#[test]
fn new_update_ids_are_appended_once_in_order() {
    let mut list: Vec<Entity> = Vec::new();
    let mut e = Entity::new();
    e.id = 7;
    list.push(e);
    let mut updates = Vec::new();
    for id in [9u32, 7, 2, 9, 2, 5] {
        let mut u = Entity::new();
        u.id = id;
        updates.push(u.get_update());
    }
    Server::process_entity_updates(&mut list, updates);
    let ids: Vec<u32> = list.iter().map(|e| e.id).collect();
    assert_eq!(ids, vec![7, 9, 2, 5]);
}

#[test]
fn changed_attributes_travel_with_the_update() {
    let mut a = Entity::new();
    a.id = 8;
    a.set_attribute("HP", AttrValue::Int(12));
    a.set_attribute("mode", AttrValue::Text("active".to_string()));
    a.set_attribute("HP", AttrValue::Int(9));
    let u = a.get_update();
    assert_eq!(u.attributes.len(), 2);
    let mut b = Entity::new();
    b.id = 8;
    b.set_attribute("mode", AttrValue::Text("idle".to_string()));
    b.clear_dirty();
    b.apply_update(u);
    assert!(matches!(b.get_attribute("HP"), Some(AttrValue::Int(9))));
    assert!(matches!(b.get_attribute("mode"), Some(AttrValue::Text(s)) if s == "active"));
    assert!(b.is_dirty());
    a.clear_dirty();
    assert!(a.get_update().attributes.is_empty());
}
