use std::collections::HashMap;

use rusterix::attrs::AttrValue;
use rusterix::entity::{Entity, Item};
use rusterix::message::EntityAction;
use rusterix::region::{
    gate_command, host_call, is_entity_dead, region_settings, set_entity_action, set_entity_intent, startup_commands, take_due_entity_notifications, took_damage, redraw_bookkeeping, redraw_item_bookkeeping, take_due_notifications, CommandGate,
    HostArg, HostCtx,
};

fn num(v: i32) -> HostArg {
    HostArg { int: v, uint: if v < 0 { 0 } else { v as u32 }, bits: (v as f32).to_bits(), truthy: v != 0, text: None }
}

fn text(s: &str) -> HostArg {
    HostArg { int: 0, uint: 0, bits: 0, truthy: !s.is_empty(), text: Some(s.to_string()) }
}

fn ctx() -> HostCtx {
    let mut a = Entity::new();
    a.id = 5;
    let mut b = Entity::new();
    b.id = 6;
    HostCtx {
        entities: vec![a, b],
        items: vec![Item::new(30), Item::new(31)],
        curr_entity_id: 6,
        curr_item_id: None,
        ticks: 100,
        ticks_per_minute: 4,
        notifications_entities: vec![],
        notifications_items: vec![],
        entity_alerts: HashMap::new(),
        item_alerts: HashMap::new(),
        health_attr: "HP".to_string(),
        commands: vec![],
    }
}

#[test]
fn host_action_and_id() {
    let mut c = ctx();
    assert_eq!(host_call(&mut c, "action", &vec![text("forward")]), Some(None));
    assert_eq!(c.entities[1].action, EntityAction::Forward);
    assert_eq!(c.entities[0].action, EntityAction::Off);
    assert_eq!(host_call(&mut c, "action", &vec![text("fly")]), Some(None));
    assert_eq!(c.entities[1].action, EntityAction::Forward);
    assert_eq!(host_call(&mut c, "id", &vec![]), Some(Some(6)));
    assert_eq!(host_call(&mut c, "teleport", &vec![]), None);
}

#[test]
fn host_notify_in_targets_entity_or_item() {
    let mut c = ctx();
    host_call(&mut c, "notify_in", &vec![num(3), text("wake")]);
    assert_eq!(c.notifications_entities, vec![(6, 112, "wake".to_string())]);
    c.curr_item_id = Some(31);
    host_call(&mut c, "notify_in", &vec![num(1), text("ring")]);
    assert_eq!(c.notifications_items, vec![(31, 104, "ring".to_string())]);
}

#[test]
fn host_proximity_tracking() {
    let mut c = ctx();
    host_call(&mut c, "set_proximity_tracking", &vec![num(1)]);
    assert_eq!(c.entity_alerts.get(&6), Some(&5.0f32.to_bits()));
    assert_eq!(c.entity_alerts.len(), 1);
    host_call(&mut c, "set_proximity_tracking", &vec![num(1), num(2)]);
    assert_eq!(c.entity_alerts.get(&6), Some(&2.0f32.to_bits()));
    assert_eq!(c.entity_alerts.len(), 1);
    host_call(&mut c, "set_proximity_tracking", &vec![num(0)]);
    assert!(c.entity_alerts.is_empty());
}

#[test]
fn host_take_moves_item_into_inventory() {
    let mut c = ctx();
    host_call(&mut c, "take", &vec![num(31)]);
    assert_eq!(c.items.len(), 1);
    assert_eq!(c.items[0].id, 30);
    assert!(c.entities[1].get_item(31).is_some());
    host_call(&mut c, "take", &vec![num(99)]);
    assert_eq!(c.items.len(), 1);
}

#[test]
fn host_random_in_range() {
    let mut c = ctx();
    for _ in 0..20 {
        match host_call(&mut c, "random", &vec![num(9), num(3)]) {
            Some(Some(v)) => assert!((3..=9).contains(&v)),
            _ => panic!("random gave no number"),
        }
    }
}

#[test]
fn due_notifications_fire_and_leave() {
    let mut list = vec![(1, 10, "a".to_string()), (2, 20, "b".to_string()), (3, 5, "c".to_string())];
    let fired = take_due_notifications(&mut list, 10);
    assert_eq!(fired, vec![(1, 10, "a".to_string()), (3, 5, "c".to_string())]);
    assert_eq!(list, vec![(2, 20, "b".to_string())]);
}

#[test]
fn redraw_wakes_sleepers_and_collects_updates() {
    let mut a = Entity::new();
    a.id = 1;
    a.action = EntityAction::SleepAndSwitch(50, Box::new(EntityAction::Left));
    let mut b = Entity::new();
    b.id = 2;
    b.action = EntityAction::SleepAndSwitch(80, Box::new(EntityAction::Right));
    b.set_pos_xz(3.0f32.to_bits(), 4.0f32.to_bits());
    let mut es = vec![a, b];
    let updates = redraw_bookkeeping(&mut es, 60);
    assert_eq!(es[0].action, EntityAction::Left);
    assert_eq!(es[1].action, EntityAction::SleepAndSwitch(80, Box::new(EntityAction::Right)));
    assert_eq!(updates.len(), 1);
    assert_eq!(updates[0].id, 2);
    assert!(!es[1].is_dirty());
}

#[test]
fn commands_run_once_per_tick() {
    let mut log: Vec<(u32, String, i64)> = vec![];
    assert_eq!(gate_command(&mut log, 4, "intent", 7, true), CommandGate::Run);
    assert_eq!(gate_command(&mut log, 4, "intent", 7, true), CommandGate::SkipWithWarning);
    assert_eq!(gate_command(&mut log, 4, "death", 7, true), CommandGate::Run);
    assert_eq!(gate_command(&mut log, 4, "intent", 8, true), CommandGate::Run);
    assert_eq!(log, vec![(4, "intent".to_string(), 8), (4, "death".to_string(), 7)]);
    let mut blocked = vec![(9, "take_damage".to_string(), 20i64)];
    assert_eq!(gate_command(&mut blocked, 9, "take_damage", 12, false), CommandGate::Skip);
}

#[test]
fn redraw_collects_item_updates() {
    let mut a = Item::new(1);
    a.set_position([1, 2, 3]);
    let b = Item::new(2);
    let mut items = vec![a, b];
    let updates = redraw_item_bookkeeping(&mut items);
    assert_eq!(updates.len(), 1);
    assert_eq!(updates[0].id, 1);
    assert_eq!(updates[0].position_bits, Some([1, 2, 3]));
    assert!(!items[0].is_dirty());
    assert_eq!(items[0].position_bits, [1, 2, 3]);
    assert!(redraw_item_bookkeeping(&mut items).is_empty());
}

#[test]
fn item_updates_reach_the_server_copy() {
    let mut a = Item::new(4);
    a.set_position([7, 8, 9]);
    let mut list: Vec<Item> = vec![Item::new(3)];
    rusterix::server::Server::process_item_updates(&mut list, vec![a.get_update(), Item::new(3).get_update()]);
    assert_eq!(list.len(), 2);
    assert_eq!(list[1].id, 4);
    assert_eq!(list[1].position_bits, [7, 8, 9]);
    assert_eq!(list[0].position_bits, [0, 0, 0]);
}

#[test]
fn damage_kills_and_tells_the_attacker() {
    let mut c = ctx();
    c.entities[0].set_attribute("class_name", AttrValue::Text("Orc".to_string()));
    c.entities[1].set_attribute("class_name", AttrValue::Text("Hero".to_string()));
    c.entities[1].set_attribute("HP", AttrValue::Int(5));
    c.entity_alerts.insert(6, 1);
    took_damage(&mut c, 5, 0);
    assert!(c.commands.is_empty());
    took_damage(&mut c, 5, 3);
    assert!(matches!(c.entities[1].get_attribute("HP"), Some(AttrValue::Int(2))));
    assert!(c.commands.is_empty());
    c.entities[1].action = EntityAction::Forward;
    took_damage(&mut c, 5, 4);
    assert!(matches!(c.entities[1].get_attribute("HP"), Some(AttrValue::Int(0))));
    assert!(is_entity_dead(&c.entities, 6));
    assert_eq!(c.entities[1].action, EntityAction::Off);
    assert!(c.entity_alerts.is_empty());
    assert_eq!(
        c.commands,
        vec![
            (6, "death".to_string(), "Hero.event(\"death\", \"\")".to_string()),
            (5, "kill".to_string(), "Orc.event(\"kill\", 6)".to_string()),
        ]
    );
    took_damage(&mut c, 5, 1);
    assert_eq!(c.commands.len(), 2);
}

#[test]
fn host_deal_damage() {
    let mut c = ctx();
    c.entities[0].set_attribute("HP", AttrValue::Int(3));
    host_call(&mut c, "deal_damage", &vec![num(5), num(2)]);
    assert!(matches!(c.entities[0].get_attribute("HP"), Some(AttrValue::Int(1))));
    assert!(!is_entity_dead(&c.entities, 5));
    host_call(&mut c, "deal_damage", &vec![num(5), num(7)]);
    assert!(matches!(c.entities[0].get_attribute("HP"), Some(AttrValue::Int(0))));
    assert!(is_entity_dead(&c.entities, 5));
    assert_eq!(host_call(&mut c, "took_damage", &vec![]), Some(None));
}

#[test]
fn settings_come_from_the_configuration() {
    let cfg = rusterix::config::load_config("[game]\nticks_per_minute = 8\nhealth = \"LP\"\nentity_block_mode = \"never\"\n");
    let s = region_settings(&cfg);
    assert_eq!(s.ticks_per_minute, 8);
    assert_eq!(s.game_tick_ms, 250);
    assert_eq!(s.health_attr, "LP");
    assert_eq!(s.entity_block_mode, 0);
    let d = region_settings(&Vec::new());
    assert_eq!((d.ticks_per_minute, d.health_attr.as_str(), d.entity_block_mode), (4, "HP", 1));
}

#[test]
fn startup_events_for_scripted_entities() {
    let mut c = ctx();
    c.entities[1].set_attribute("class_name", AttrValue::Text("Hero".to_string()));
    let cmds = startup_commands(&c.entities);
    assert_eq!(cmds, vec![(6, "Hero.event(\"startup\", \"\")".to_string())]);
}

#[test]
fn player_actions_and_intents() {
    let mut c = ctx();
    set_entity_action(&mut c.entities, 5, EntityAction::Backward);
    assert_eq!(c.entities[0].action, EntityAction::Backward);
    set_entity_intent(&mut c.entities, 6, "talk");
    assert!(matches!(c.entities[1].get_attribute("intent"), Some(AttrValue::Text(s)) if s == "talk"));
    set_entity_action(&mut c.entities, 77, EntityAction::Left);
    assert_eq!(c.entities[0].action, EntityAction::Backward);
}

#[test]
fn notifications_of_dead_entities_are_dropped() {
    let mut c = ctx();
    c.entities[0].set_attribute("mode", AttrValue::Text("dead".to_string()));
    let mut list = vec![(5, 1, "a".to_string()), (6, 2, "b".to_string()), (6, 900, "c".to_string())];
    let fired = take_due_entity_notifications(&mut list, &c.entities, 100);
    assert_eq!(fired, vec![(6, 2, "b".to_string())]);
    assert_eq!(list, vec![(6, 900, "c".to_string())]);
}
