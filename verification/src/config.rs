use vstd::prelude::*;

use toml::Value;

use crate::text::{from_literal, str_eq};

verus! {

/// A value of a game configuration table, as far as the game reads it.
/// Floats are kept as the bit patterns of their `f64` values.
#[derive(Clone, Debug)]
pub enum ConfigScalar {
    Integer(i64),
    Float(u64),
    Boolean(bool),
    Text(String),
    /// Any other value (an array, a date, a nested table).
    Other,
}

/// A top level entry of the game configuration: a table of named values, or
/// anything else.
#[derive(Clone, Debug)]
pub enum ConfigSection {
    Table(Vec<(String, ConfigScalar)>),
    Other,
}

/// The position of the first entry named `name`, or -1.
pub open spec fn first_named<T>(entries: Seq<(String, T)>, name: Seq<char>) -> int {
    if exists|i: int| 0 <= i < entries.len() && entries[i].0@ == name {
        choose|i: int|
            0 <= i < entries.len() && entries[i].0@ == name && forall|j: int| 0 <= j < i ==> entries[j].0@ != name
    } else {
        -1
    }
}

/// The value stored under `key` in table `table` of the configuration, if
/// `table` names a table and it holds the key.
pub open spec fn config_entry(cfg: Seq<(String, ConfigSection)>, table: Seq<char>, key: Seq<char>) -> Option<
    ConfigScalar,
> {
    let t = first_named(cfg, table);
    if t < 0 {
        None
    } else {
        match cfg[t].1 {
            ConfigSection::Table(entries) => {
                let k = first_named(entries@, key);
                if k < 0 {
                    None
                } else {
                    Some(entries@[k].1)
                }
            },
            ConfigSection::Other => None,
        }
    }
}

proof fn lemma_first_named_at<T>(entries: Seq<(String, T)>, name: Seq<char>, k: int)
    requires
        0 <= k < entries.len(),
        entries[k].0@ == name,
        forall|j: int| 0 <= j < k ==> entries[j].0@ != name,
    ensures
        first_named(entries, name) == k,
{
    let c = first_named(entries, name);
    assert(0 <= c < entries.len() && entries[c].0@ == name && forall|j: int| 0 <= j < c ==> entries[j].0@ != name);
    if c < k {
        assert(entries[c].0@ != name);
    }
    if k < c {
        assert(entries[k].0@ != name);
    }
}

/// The position of the first entry named `name`.
fn find_named<T>(entries: &Vec<(String, T)>, name: &str) -> (r: Option<usize>)
    ensures
        match r {
            Some(i) => i < entries@.len() && i as int == first_named(entries@, name@),
            None => first_named(entries@, name@) == -1,
        },
{
    let mut i: usize = 0;
    while i < entries.len()
        invariant
            i <= entries@.len(),
            forall|j: int| 0 <= j < i ==> entries@[j].0@ != name@,
        decreases entries@.len() - i,
    {
        if str_eq(entries[i].0.as_str(), name) {
            proof {
                lemma_first_named_at(entries@, name@, i as int);
            }
            return Some(i);
        }
        i += 1;
    }
    None
}

/// The value stored under `key` in table `table`, if there is one.
pub fn config_value<'a>(cfg: &'a Vec<(String, ConfigSection)>, table: &str, key: &str) -> (r: Option<
    &'a ConfigScalar,
>)
    ensures
        match r {
            Some(v) => config_entry(cfg@, table@, key@) == Some(*v),
            None => config_entry(cfg@, table@, key@) is None,
        },
{
    match find_named(cfg, table) {
        Some(t) => match &cfg[t].1 {
            ConfigSection::Table(entries) => match find_named(entries, key) {
                Some(k) => Some(&entries[k].1),
                None => None,
            },
            ConfigSection::Other => None,
        },
        None => None,
    }
}

/// The integer under `key` in table `table`, truncated to `i32`, or `default`
/// when there is no integer there.
pub fn get_config_i32_default(cfg: &Vec<(String, ConfigSection)>, table: &str, key: &str, default: i32) -> (r: i32)
    ensures
        r == match config_entry(cfg@, table@, key@) {
            Some(ConfigScalar::Integer(v)) => v as i32,
            _ => default,
        },
{
    match config_value(cfg, table, key) {
        Some(ConfigScalar::Integer(v)) => *v as i32,
        _ => default,
    }
}

/// The boolean under `key` in table `table`, or `default` when there is none.
pub fn get_config_bool_default(cfg: &Vec<(String, ConfigSection)>, table: &str, key: &str, default: bool) -> (r: bool)
    ensures
        r == match config_entry(cfg@, table@, key@) {
            Some(ConfigScalar::Boolean(b)) => b,
            _ => default,
        },
{
    match config_value(cfg, table, key) {
        Some(ConfigScalar::Boolean(b)) => *b,
        _ => default,
    }
}

/// The text under `key` in table `table`, or `default` when there is none.
pub fn get_config_string_default(cfg: &Vec<(String, ConfigSection)>, table: &str, key: &str, default: &str) -> (r: String)
    ensures
        r@ == match config_entry(cfg@, table@, key@) {
            Some(ConfigScalar::Text(s)) => s@,
            _ => default@,
        },
{
    match config_value(cfg, table, key) {
        Some(ConfigScalar::Text(s)) => from_literal(s.as_str()),
        _ => from_literal(default),
    }
}

/// The plain form of a configuration: each entry's name as text with its section.
pub open spec fn config_view(cfg: Seq<(String, ConfigSection)>) -> Seq<(Seq<char>, ConfigSection)> {
    cfg.map_values(|e: (String, ConfigSection)| (e.0@, e.1))
}

/// What the `toml` crate reads from a configuration text: its top level
/// entries in the crate's order, each table with its values, or `None` when
/// the text is not a valid TOML document.
pub uninterp spec fn toml_config(source: Seq<char>) -> Option<Seq<(Seq<char>, ConfigSection)>>;

/// Calls `toml::from_str` to read `source` into a `toml::Table` and converts
/// each top level entry one for one: a table becomes a `ConfigSection::Table`
/// of its entries (integers, floats as `f64` bit patterns, booleans and
/// strings kept, anything else `Other`), any other value `ConfigSection::Other`.
/// The contract claims only that the result is a function of the text
/// (named `toml_config`) and that a refused text gives `None`.
#[verifier::external_body]
fn parse_config_toml(source: &str) -> (r: Option<Vec<(String, ConfigSection)>>)
    ensures
        r matches Some(v) ==> toml_config(source@) == Some(config_view(v@)),
        r is None ==> toml_config(source@) is None,
{
    let table: toml::Table = toml::from_str(source).ok()?;
    Some(table.into_iter().map(|(name, value)| (name, match value {
        Value::Table(t) => ConfigSection::Table(t.into_iter().map(|(k, v)| (k, match v {
            Value::Integer(i) => ConfigScalar::Integer(i),
            Value::Float(f) => ConfigScalar::Float(f.to_bits()),
            Value::Boolean(b) => ConfigScalar::Boolean(b),
            Value::String(s) => ConfigScalar::Text(s),
            Value::Datetime(_) => ConfigScalar::Other,
            Value::Array(_) => ConfigScalar::Other,
            Value::Table(_) => ConfigScalar::Other,
        })).collect()),
        _ => ConfigSection::Other,
    })).collect())
}

/// The game configuration read from its TOML text; an empty configuration
/// (every lookup then gives its default) when the text is not valid TOML.
pub fn load_config(source: &str) -> (r: Vec<(String, ConfigSection)>)
    ensures
        match toml_config(source@) {
            Some(c) => config_view(r@) == c,
            None => r@.len() == 0,
        },
{
    match parse_config_toml(source) {
        Some(v) => v,
        None => Vec::new(),
    }
}

} // verus!
