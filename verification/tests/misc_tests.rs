use rusterix::color::{hex_to_rgb, parse_hex_color, HexColorError};
use rusterix::map::MapCamera;
use rusterix::message::EntityAction;
use rusterix::parser::ParseError;
use rusterix::rusterix::{player_camera_named, ClientDrawMode, PlayerCamera, Rusterix, SceneBuild};
use rusterix::script_host::{
    contains_text, filter_items, item_passes_filter, sector_display_name,
    article_for, clamp_list_index, make_event_command, notify_target_tick, random_between,
    section_change,
};
use rusterix::server::{Server, ServerState};
use rusterix::state::{InterpolationType, VertexAnimationSystem, VertexState, ONE_BITS};

#[test]
fn parse_hex_color_reads_rgb() {
    assert_eq!(parse_hex_color("#87CEEB"), Ok([135, 206, 235]));
    assert_eq!(parse_hex_color("ff0000"), Ok([255, 0, 0]));
    assert_eq!(parse_hex_color("##00ff7f"), Ok([0, 255, 127]));
}

#[test]
fn parse_hex_color_errors() {
    assert_eq!(parse_hex_color("#fff"), Err(HexColorError::InvalidLength(3)));
    assert_eq!(parse_hex_color(""), Err(HexColorError::InvalidLength(0)));
    assert_eq!(parse_hex_color("#zz0000"), Err(HexColorError::InvalidDigit));
}

#[test]
fn hex_to_rgb_falls_back_to_white() {
    assert_eq!(hex_to_rgb("#102030"), [16, 32, 48]);
    assert_eq!(hex_to_rgb("nothex"), [255, 255, 255]);
}

#[test]
fn entity_action_names_and_codes() {
    assert_eq!(EntityAction::from_name("forward"), Ok(EntityAction::Forward));
    assert_eq!(EntityAction::from_name("none"), Ok(EntityAction::Off));
    assert!(EntityAction::from_name("jump").is_err());
    assert_eq!("left".parse::<EntityAction>(), Ok(EntityAction::Left));
    assert_eq!(EntityAction::from_code(3), Ok(EntityAction::Backward));
    assert_eq!(EntityAction::from_code(0), Ok(EntityAction::Left));
    assert_eq!(EntityAction::from_code(7), Err("Invalid value for EntityAction"));
    assert_eq!(
        EntityAction::sleep_and_switch(100, 4, 10, EntityAction::Forward),
        EntityAction::SleepAndSwitch(140, Box::new(EntityAction::Forward))
    );
}

#[test]
fn parse_error_keeps_fields() {
    let e = ParseError::new("map.py".to_string(), "unexpected".to_string(), 12);
    assert_eq!(e.file_name, "map.py");
    assert_eq!(e.description, "unexpected");
    assert_eq!(e.line, 12);
}

#[test]
fn server_ids_and_log() {
    let mut s = Server::new();
    assert_eq!(s.get_next_id(), 0);
    assert_eq!(s.get_next_id(), 1);
    s.set_state(ServerState::Running);
    s.log_message("first");
    s.log_message("second");
    assert_eq!(s.get_log(), "first\nsecond");
    assert!(!s.log_changed);
    s.clear();
    assert_eq!(s.id_gen, 0);
    assert_eq!(s.state, ServerState::Off);
    assert_eq!(s.log, "");
}

#[test]
fn script_host_arithmetic() {
    for _ in 0..50 {
        let r = random_between(5, -3);
        assert!((-3..=5).contains(&r));
    }
    assert_eq!(random_between(4, 4), 4);
    assert_eq!(notify_target_tick(1000, 4, 30), 1120);
    assert_eq!(clamp_list_index(-2, 5), 0);
    assert_eq!(clamp_list_index(9, 5), 4);
    assert_eq!(clamp_list_index(2, 5), 2);
}

#[test]
fn articles() {
    assert_eq!(article_for("Boots"), "a pair of");
    assert_eq!(article_for("water"), "some");
    assert_eq!(article_for("apple"), "an");
    assert_eq!(article_for("sword"), "a");
    assert_eq!(article_for(""), "a");
}

#[test]
fn sector_change_events() {
    assert_eq!(make_event_command("Orc", "entered", "Hall"), "Orc.event(\"entered\", \"Hall\")");
    let (cmds, rec) = section_change(Some("Hall"), Some("Yard"), Some("Orc"));
    assert_eq!(cmds, vec!["Orc.event(\"entered\", \"Hall\")", "Orc.event(\"left\", \"Yard\")"]);
    assert_eq!(rec, Some("Hall".to_string()));
    let (cmds, rec) = section_change(Some("Hall"), Some("Hall"), Some("Orc"));
    assert!(cmds.is_empty());
    assert_eq!(rec, None);
    let (cmds, rec) = section_change(None, Some("Yard"), Some("Orc"));
    assert_eq!(cmds, vec!["Orc.event(\"left\", \"Yard\")"]);
    assert_eq!(rec, Some(String::new()));
    let (cmds, rec) = section_change(Some("Hall"), Some(""), None);
    assert!(cmds.is_empty());
    assert_eq!(rec, Some("Hall".to_string()));
    let (cmds, rec) = section_change(Some("Hall"), None, Some("Orc"));
    assert!(cmds.is_empty());
    assert_eq!(rec, None);
}

#[test]
fn scene_building_decisions() {
    let mut r = Rusterix::new();
    assert_eq!(r.draw_mode, ClientDrawMode::D3);
    assert_eq!(r.build_scene(MapCamera::TwoD, false), SceneBuild::D2);
    assert_eq!(r.draw_mode, ClientDrawMode::D2);
    assert_eq!(r.build_scene(MapCamera::TwoD, false), SceneBuild::Nothing);
    assert_eq!(r.build_scene(MapCamera::ThreeDIso, false), SceneBuild::D3);
    r.set_dirty();
    assert_eq!(r.apply_player_camera(PlayerCamera::D3Iso), Some(PlayerCamera::D3Iso));
    assert_eq!(r.apply_player_camera(PlayerCamera::D3Iso), None);
    assert_eq!(r.build_scene(MapCamera::TwoD, true), SceneBuild::D3);
    assert!(r.build_scene_d3() == false);
    r.set_d2();
    assert_eq!(r.draw_mode, ClientDrawMode::D2);
}

#[test]
fn player_camera_names() {
    assert_eq!(player_camera_named("iso"), PlayerCamera::D3Iso);
    assert_eq!(player_camera_named("firstp"), PlayerCamera::D3FirstP);
    assert_eq!(player_camera_named("2d"), PlayerCamera::D2);
}

#[test]
fn animation_states_and_loop() {
    let mut a = VertexAnimationSystem::new();
    assert_eq!(a.loop_duration_bits, ONE_BITS);
    let idle = a.add_state("idle", vec![VertexState { id: 1, x_bits: 0, y_bits: 0 }], InterpolationType::Linear);
    let walk = a.add_state("walk", vec![], InterpolationType::EaseIn);
    assert_eq!((idle, walk), (0, 1));
    a.update_or_add_to_state("walk", 1, 5, 6);
    a.update_or_add_to_state("walk", 1, 7, 8);
    assert_eq!(a.states[1].vertices.len(), 1);
    assert_eq!(a.states[1].vertices[0].x_bits, 7);
    a.set_loop(&["walk", "missing", "idle"], 2.0f32.to_bits());
    assert_eq!(a.loop_states, vec![1, 0]);
    assert_eq!(a.current_state, Some(1));
    a.advance_loop();
    assert_eq!(a.current_state, Some(0));
    a.advance_loop();
    assert_eq!(a.current_state, Some(1));
    a.transition_to_state("idle", 0.5f32.to_bits());
    assert_eq!(a.next_state, Some(0));
    a.transition_to_state("nope", 0);
    assert_eq!(a.next_state, Some(0));
}

#[test]
fn inventory_filters() {
    assert!(contains_text("Healing Potion", "Potion"));
    assert!(contains_text("abc", ""));
    assert!(!contains_text("ab", "abc"));
    assert!(!contains_text("Sword", "sword"));
    assert!(item_passes_filter("", "x", "y"));
    assert!(item_passes_filter("Pot", "Potion", "Item"));
    assert!(item_passes_filter("Wea", "Axe", "Weapon"));
    assert!(!item_passes_filter("Gold", "Axe", "Weapon"));
    let items = vec![
        (1, "Axe".to_string(), "Weapon".to_string()),
        (2, "Potion".to_string(), "Consumable".to_string()),
        (3, "Sword".to_string(), "Weapon".to_string()),
    ];
    assert_eq!(filter_items(&items, "Weapon"), vec![1, 3]);
    assert_eq!(filter_items(&items, ""), vec![1, 2, 3]);
    assert!(filter_items(&items, "Shield").is_empty());
}

#[test]
fn sector_names_for_scripts() {
    assert_eq!(sector_display_name(Some("Hall")), "Hall");
    assert_eq!(sector_display_name(Some("")), "Unnamed Sector");
    assert_eq!(sector_display_name(None), "Not inside any sector");
}
