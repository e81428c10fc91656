use rusterix::config::{
    config_value, get_config_bool_default, get_config_i32_default, get_config_string_default, ConfigScalar,
    ConfigSection,
};

fn sample() -> Vec<(String, ConfigSection)> {
    vec![
        (
            "game".to_string(),
            ConfigSection::Table(vec![
                ("ticks_per_minute".to_string(), ConfigScalar::Integer(4)),
                ("big".to_string(), ConfigScalar::Integer(0x1_0000_0005)),
                ("auto_walk".to_string(), ConfigScalar::Boolean(true)),
                ("name".to_string(), ConfigScalar::Text("Eldiron".to_string())),
                ("speed".to_string(), ConfigScalar::Float(1.5f64.to_bits())),
            ]),
        ),
        ("title".to_string(), ConfigSection::Other),
    ]
}

#[test]
fn config_integers() {
    let cfg = sample();
    assert_eq!(get_config_i32_default(&cfg, "game", "ticks_per_minute", 10), 4);
    assert_eq!(get_config_i32_default(&cfg, "game", "big", 0), 5);
    assert_eq!(get_config_i32_default(&cfg, "game", "name", 10), 10);
    assert_eq!(get_config_i32_default(&cfg, "world", "ticks_per_minute", 10), 10);
    assert_eq!(get_config_i32_default(&cfg, "title", "x", -1), -1);
}

#[test]
fn config_bools_and_strings() {
    let cfg = sample();
    assert!(get_config_bool_default(&cfg, "game", "auto_walk", false));
    assert!(!get_config_bool_default(&cfg, "game", "missing", false));
    assert_eq!(get_config_string_default(&cfg, "game", "name", "x"), "Eldiron");
    assert_eq!(get_config_string_default(&cfg, "game", "speed", "fallback"), "fallback");
}

#[test]
fn config_lookup() {
    let cfg = sample();
    assert!(matches!(config_value(&cfg, "game", "speed"), Some(ConfigScalar::Float(b)) if *b == 1.5f64.to_bits()));
    assert!(config_value(&cfg, "nothing", "speed").is_none());
}

#[test]
fn config_read_from_toml_text() {
    let cfg = rusterix::config::load_config("[game]\nticks_per_minute = 8\nhealth = \"HP\"\nauto = true\n");
    assert_eq!(get_config_i32_default(&cfg, "game", "ticks_per_minute", 4), 8);
    assert_eq!(get_config_string_default(&cfg, "game", "health", "X"), "HP");
    assert!(get_config_bool_default(&cfg, "game", "auto", false));
    let bad = rusterix::config::load_config("[game\nx = ");
    assert!(bad.is_empty());
    assert_eq!(get_config_i32_default(&bad, "game", "ticks_per_minute", 4), 4);
}
