use rand::Rng;
use vstd::prelude::*;
use vstd::string::StrSliceExecFns;

use crate::text::{from_literal, push_char, push_str, str_eq};

verus! {

/// Calls `rand::rng().random_range(lo..=hi)`, which draws a number from the
/// thread-local generator; rand documents that it lies in the inclusive range
/// and panics on an empty range, which the `requires` rules out. Which number
/// comes out is left open.
#[verifier::external_body]
fn random_i32_inclusive(lo: i32, hi: i32) -> (r: i32)
    requires
        lo <= hi,
    ensures
        lo <= r <= hi,
{
    rand::rng().random_range(lo..=hi)
}

/// A random whole number between the two bounds, inclusive, in either order.
pub fn random_between(a: i32, b: i32) -> (r: i32)
    ensures
        (if a <= b { a } else { b }) <= r <= (if a <= b { b } else { a }),
{
    let mut lo = a;
    let mut hi = b;
    if lo > hi {
        let t = lo;
        lo = hi;
        hi = t;
    }
    random_i32_inclusive(lo, hi)
}

/// The tick at which a notification asked for `minutes` game minutes from now
/// fires; the ticks per minute are read as an `i32`, as the script host does.
pub fn notify_target_tick(ticks: i64, ticks_per_minute: u32, minutes: i32) -> (r: i64)
    requires
        i32::MIN <= (ticks_per_minute as i32) * minutes <= i32::MAX,
        i64::MIN <= ticks + (ticks_per_minute as i32) * minutes <= i64::MAX,
    ensures
        r == ticks + (ticks_per_minute as i32) * minutes,
{
    let per = ticks_per_minute as i32;
    ticks + (per * minutes) as i64
}

/// The index a script list lookup uses: negative indices read the first
/// element, indices past the end read the last one.
pub fn clamp_list_index(idx: i32, len: usize) -> (r: usize)
    requires
        len > 0,
    ensures
        r == (if idx < 0 {
            0
        } else if idx >= len {
            (len - 1) as usize
        } else {
            idx as usize
        }),
        r < len,
{
    if idx < 0 {
        0
    } else if (idx as usize) >= len {
        len - 1
    } else {
        idx as usize
    }
}

/// A character with ASCII upper case letters mapped to lower case.
pub open spec fn ascii_lower(c: char) -> char {
    if 'A' <= c <= 'Z' {
        ((c as u32) + 32) as char
    } else {
        c
    }
}

/// The article for an item name when the player takes it: "a pair of" for
/// pair items, "some" for mass items, "an" before a vowel, else "a"
/// (compared with ASCII case ignored).
pub open spec fn article_of(name: Seq<char>) -> Seq<char> {
    let n = name.map_values(|c: char| ascii_lower(c));
    if n == "trousers"@ || n == "pants"@ || n == "gloves"@ || n == "boots"@ || n == "scissors"@ {
        "a pair of"@
    } else if n == "armor"@ || n == "cloth"@ || n == "water"@ || n == "meat"@ {
        "some"@
    } else if n.len() > 0 && (n[0] == 'a' || n[0] == 'e' || n[0] == 'i' || n[0] == 'o' || n[0] == 'u') {
        "an"@
    } else {
        "a"@
    }
}

fn lower_char(c: char) -> (r: char)
    ensures
        r == ascii_lower(c),
{
    if 'A' <= c && c <= 'Z' {
        ((c as u8) + 32) as char
    } else {
        c
    }
}

/// The article used in "You take <article> <name>".
pub fn article_for(item_name: &str) -> (r: &'static str)
    ensures
        r@ == article_of(item_name@),
{
    let n = item_name.unicode_len();
    let mut lowered = String::new();
    let mut i: usize = 0;
    while i < n
        invariant
            i <= n,
            n == item_name@.len(),
            lowered@ == item_name@.take(i as int).map_values(|c: char| ascii_lower(c)),
        decreases n - i,
    {
        let c = item_name.get_char(i);
        push_char(&mut lowered, lower_char(c));
        assert(item_name@.take(i + 1) == item_name@.take(i as int).push(c));
        i += 1;
    }
    assert(item_name@.take(n as int) == item_name@);
    let low = lowered.as_str();
    proof {
        reveal_strlit("a pair of");
        reveal_strlit("some");
        reveal_strlit("an");
        reveal_strlit("a");
    }
    if str_eq(low, "trousers") || str_eq(low, "pants") || str_eq(low, "gloves") || str_eq(low, "boots")
        || str_eq(low, "scissors") {
        "a pair of"
    } else if str_eq(low, "armor") || str_eq(low, "cloth") || str_eq(low, "water") || str_eq(low, "meat") {
        "some"
    } else if n > 0 {
        let first = low.get_char(0);
        if first == 'a' || first == 'e' || first == 'i' || first == 'o' || first == 'u' {
            "an"
        } else {
            "a"
        }
    } else {
        "a"
    }
}

} // verus!

verus! {

/// The script command that raises event `event` with text argument `arg` on
/// the script class `class`: `class.event("event", "arg")`.
pub open spec fn event_command(class: Seq<char>, event: Seq<char>, arg: Seq<char>) -> Seq<char> {
    class + ".event(\""@ + event + "\", \""@ + arg + "\")"@
}

/// Builds `class.event("event", "arg")`.
pub fn make_event_command(class: &str, event: &str, arg: &str) -> (r: String)
    ensures
        r@ == event_command(class@, event@, arg@),
{
    let mut s = from_literal(class);
    push_str(&mut s, ".event(\"");
    push_str(&mut s, event);
    push_str(&mut s, "\", \"");
    push_str(&mut s, arg);
    push_str(&mut s, "\")");
    proof {
        reveal_strlit(".event(\"");
        reveal_strlit("\", \"");
        reveal_strlit("\")");
        assert(s@ =~= event_command(class@, event@, arg@));
    }
    s
}

/// What moving an entity means for the sector it is in, given the sector now
/// under it (`current`), the sector recorded for it (`recorded`, when it has
/// one as text) and its script class (`class`): the event commands to run
/// ("entered" the new sector, then "left" the old one, each only with a
/// non-empty name and a script class) and the name to record from now on
/// (`None`: keep the record).
pub open spec fn section_change_spec(current: Option<Seq<char>>, recorded: Option<Seq<char>>, class: Option<Seq<char>>) -> (Seq<Seq<char>>, Option<Seq<char>>) {
    match (current, recorded) {
        (Some(name), Some(old)) => {
            if name == old {
                (Seq::empty(), None)
            } else {
                let entered: Seq<Seq<char>> = match class {
                    Some(c) => if name.len() > 0 { seq![event_command(c, "entered"@, name)] } else { Seq::empty() },
                    None => Seq::empty(),
                };
                let left: Seq<Seq<char>> = match class {
                    Some(c) => if old.len() > 0 { seq![event_command(c, "left"@, old)] } else { Seq::empty() },
                    None => Seq::empty(),
                };
                (entered + left, Some(name))
            }
        },
        (Some(_), None) => (Seq::empty(), None),
        (None, Some(old)) => {
            let left: Seq<Seq<char>> = match class {
                Some(c) => if old.len() > 0 { seq![event_command(c, "left"@, old)] } else { Seq::empty() },
                None => Seq::empty(),
            };
            (left, Some(Seq::empty()))
        },
        (None, None) => (Seq::empty(), None),
    }
}

/// When an entity with a script class moves into a sector with another name
/// than the one recorded, it gets an "entered" event for a non-empty new name
/// whatever the recorded name was (an empty one included), then a "left"
/// event for a non-empty recorded name, and the new name is recorded. A move
/// within the same sector, or an entity without a class, raises no event.
pub proof fn lemma_sector_events(name: Seq<char>, old: Seq<char>, c: Seq<char>)
    ensures
        name != old && name.len() > 0 ==> section_change_spec(Some(name), Some(old), Some(c)).0[0]
            == event_command(c, "entered"@, name),
        name != old && old.len() > 0 ==> section_change_spec(Some(name), Some(old), Some(c)).0.last()
            == event_command(c, "left"@, old),
        name != old ==> section_change_spec(Some(name), Some(old), Some(c)).0.len() == (if name.len() > 0 { 1int } else { 0int }) + (if old.len() > 0 { 1int } else { 0int }),
        name != old ==> section_change_spec(Some(name), Some(old), Some(c)).1 == Some(name),
        section_change_spec(Some(name), Some(name), Some(c)).0.len() == 0,
        section_change_spec(Some(name), Some(old), None).0.len() == 0,
{
}

/// The views of a list of strings.
pub open spec fn string_views(v: Seq<String>) -> Seq<Seq<char>> {
    v.map_values(|s: String| s@)
}

/// Decides the sector events of a moved entity (see `section_change_spec`).
pub fn section_change(current: Option<&str>, recorded: Option<&str>, class: Option<&str>) -> (r: (
    Vec<String>,
    Option<String>,
))
    ensures
        ({
            let spec = section_change_spec(
                match current { Some(c) => Some(c@), None => None },
                match recorded { Some(c) => Some(c@), None => None },
                match class { Some(c) => Some(c@), None => None },
            );
            &&& string_views(r.0@) == spec.0
            &&& match r.1 { Some(s) => spec.1 == Some(s@), None => spec.1 is None }
        }),
{
    let mut cmds: Vec<String> = Vec::new();
    proof {
        reveal_strlit("entered");
        reveal_strlit("left");
    }
    match (current, recorded) {
        (Some(name), Some(old)) => {
            if str_eq(name, old) {
                assert(string_views(cmds@) =~= Seq::<Seq<char>>::empty());
                (cmds, None)
            } else {
                match class {
                    Some(c) => {
                        if name.unicode_len() > 0 {
                            cmds.push(make_event_command(c, "entered", name));
                        }
                        if old.unicode_len() > 0 {
                            cmds.push(make_event_command(c, "left", old));
                        }
                    },
                    None => {},
                }
                proof {
                    let spec = section_change_spec(Some(name@), Some(old@), match class { Some(c) => Some(c@), None => None });
                    assert(string_views(cmds@) =~= spec.0);
                }
                (cmds, Some(from_literal(name)))
            }
        },
        (Some(_), None) => {
            assert(string_views(cmds@) =~= Seq::<Seq<char>>::empty());
            (cmds, None)
        },
        (None, Some(old)) => {
            match class {
                Some(c) => {
                    if old.unicode_len() > 0 {
                        cmds.push(make_event_command(c, "left", old));
                    }
                },
                None => {},
            }
            proof {
                let spec = section_change_spec(None, Some(old@), match class { Some(c) => Some(c@), None => None });
                assert(string_views(cmds@) =~= spec.0);
            }
            (cmds, Some(String::new()))
        },
        (None, None) => {
            assert(string_views(cmds@) =~= Seq::<Seq<char>>::empty());
            (cmds, None)
        },
    }
}

} // verus!

verus! {

/// Whether `part` occurs in `text` as a contiguous piece.
pub open spec fn occurs_in(part: Seq<char>, text: Seq<char>) -> bool {
    exists|i: int| 0 <= i <= text.len() - part.len() && #[trigger] text.subrange(i, i + part.len()) == part
}

/// Whether `part` occurs in `text` at position `i`.
fn occurs_at(part: &str, text: &str, i: usize) -> (r: bool)
    requires
        i + part@.len() <= text@.len(),
    ensures
        r == (text@.subrange(i as int, i + part@.len()) == part@),
{
    let n = part.unicode_len();
    let tn = text.unicode_len();
    let mut j: usize = 0;
    while j < n
        invariant
            n == part@.len(),
            tn == text@.len(),
            i + n <= text@.len(),
            j <= n,
            forall|q: int| 0 <= q < j ==> text@[i + q] == part@[q],
        decreases n - j,
    {
        if text.get_char(i + j) != part.get_char(j) {
            assert(text@.subrange(i as int, i + n)[j as int] != part@[j as int]);
            return false;
        }
        j += 1;
    }
    assert(text@.subrange(i as int, i + n) =~= part@);
    true
}

/// Whether `part` occurs in `text`.
pub fn contains_text(text: &str, part: &str) -> (r: bool)
    ensures
        r == occurs_in(part@, text@),
{
    let n = text.unicode_len();
    let m = part.unicode_len();
    if m > n {
        return false;
    }
    if m == 0 {
        assert(text@.subrange(0int, 0int + part@.len()) =~= part@);
        return true;
    }
    let mut i: usize = 0;
    while i <= n - m
        invariant
            n == text@.len(),
            m == part@.len(),
            1 <= m <= n,
            i <= n - m + 1,
            forall|q: int| 0 <= q < i ==> #[trigger] text@.subrange(q, q + m) != part@,
        decreases n - m + 1 - i,
    {
        if occurs_at(part, text, i) {
            return true;
        }
        i += 1;
    }
    false
}

/// Whether an inventory item passes a script's filter: every item passes the
/// empty filter, otherwise the filter must occur in its name or class name.
pub fn item_passes_filter(filter: &str, name: &str, class_name: &str) -> (r: bool)
    ensures
        r == (filter@.len() == 0 || occurs_in(filter@, name@) || occurs_in(filter@, class_name@)),
{
    filter.unicode_len() == 0 || contains_text(name, filter) || contains_text(class_name, filter)
}

/// The ids of the items (id, name, class name) that pass the filter, in order.
pub fn filter_items(items: &Vec<(u32, String, String)>, filter: &str) -> (r: Vec<u32>)
    ensures
        r@ == items@.filter(
            |it: (u32, String, String)|
                filter@.len() == 0 || occurs_in(filter@, it.1@) || occurs_in(filter@, it.2@),
        ).map_values(|it: (u32, String, String)| it.0),
{
    let ghost pred = |it: (u32, String, String)|
        filter@.len() == 0 || occurs_in(filter@, it.1@) || occurs_in(filter@, it.2@);
    let mut out: Vec<u32> = Vec::new();
    let mut k: usize = 0;
    while k < items.len()
        invariant
            k <= items@.len(),
            pred == (|it: (u32, String, String)|
                filter@.len() == 0 || occurs_in(filter@, it.1@) || occurs_in(filter@, it.2@)),
            out@ == items@.take(k as int).filter(pred).map_values(|it: (u32, String, String)| it.0),
        decreases items@.len() - k,
    {
        proof {
            assert(items@.take(k + 1) =~= items@.take(k as int).push(items@[k as int]));
            items@.take(k as int).lemma_filter_push(items@[k as int], pred);
        }
        let ghost before = out@;
        if item_passes_filter(filter, items[k].1.as_str(), items[k].2.as_str()) {
            out.push(items[k].0);
            proof {
                assert(out@ =~= items@.take(k + 1).filter(pred).map_values(|it: (u32, String, String)| it.0));
            }
        }
        k += 1;
    }
    assert(items@.take(k as int) =~= items@);
    out
}

/// The sector name reported to scripts: the name of the sector the entity
/// or item stands in ("Unnamed Sector" for an empty name), or "Not inside
/// any sector".
pub fn sector_display_name(sector_name: Option<&str>) -> (r: String)
    ensures
        r@ == match sector_name {
            Some(n) => if n@.len() == 0 { "Unnamed Sector"@ } else { n@ },
            None => "Not inside any sector"@,
        },
{
    match sector_name {
        Some(n) => {
            if n.unicode_len() == 0 {
                from_literal("Unnamed Sector")
            } else {
                from_literal(n)
            }
        },
        None => from_literal("Not inside any sector"),
    }
}

} // verus!
