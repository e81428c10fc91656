use vstd::prelude::*;

use crate::text::str_eq;

verus! {

/// What an entity is doing. The random walk variants, whose parameters are
/// floating point, are handled outside the verified core.
#[derive(PartialEq, Eq, Debug)]
pub enum EntityAction {
    Off,
    Left,
    Forward,
    Right,
    Backward,
    /// Sleep until the given tick, then switch back to the given action.
    SleepAndSwitch(i64, Box<EntityAction>),
}

/// The action named by a script: "none", "left", "forward", "right" or "backward".
pub open spec fn action_named(value: Seq<char>) -> Option<EntityAction> {
    if value == "none"@ {
        Some(EntityAction::Off)
    } else if value == "left"@ {
        Some(EntityAction::Left)
    } else if value == "forward"@ {
        Some(EntityAction::Forward)
    } else if value == "right"@ {
        Some(EntityAction::Right)
    } else if value == "backward"@ {
        Some(EntityAction::Backward)
    } else {
        None
    }
}

/// The name under which scripts ask for an action ("none" for `Off`); a
/// timed sleep has no name.
pub open spec fn action_name(a: EntityAction) -> Option<Seq<char>> {
    match a {
        EntityAction::Off => Some("none"@),
        EntityAction::Left => Some("left"@),
        EntityAction::Forward => Some("forward"@),
        EntityAction::Right => Some("right"@),
        EntityAction::Backward => Some("backward"@),
        EntityAction::SleepAndSwitch(_, _) => None,
    }
}

/// Reading a name gives the action of that very name, and every named
/// action is read back from its name: "right" gives `Right`, "backward"
/// gives `Backward`, and so on; no other text names an action.
pub proof fn lemma_action_names(s: Seq<char>, a: EntityAction)
    ensures
        action_named(s) matches Some(b) ==> action_name(b) == Some(s),
        action_name(a) matches Some(n) ==> action_named(n) == Some(a),
{
    reveal_strlit("none");
    reveal_strlit("left");
    reveal_strlit("forward");
    reveal_strlit("right");
    reveal_strlit("backward");
    assert("none"@ != "left"@) by {
        assert("none"@[0] != "left"@[0]);
    }
    assert("forward"@.len() != "none"@.len());
    assert("right"@.len() != "none"@.len() && "right"@.len() != "left"@.len() && "right"@.len() != "forward"@.len());
    assert("backward"@.len() != "none"@.len() && "backward"@.len() != "left"@.len() && "backward"@.len()
        != "forward"@.len() && "backward"@.len() != "right"@.len());
}

/// The movement action with this code: 0 left, 1 forward, 2 right, 3 backward.
pub open spec fn action_coded(value: i32) -> Option<EntityAction> {
    if value == 0 {
        Some(EntityAction::Left)
    } else if value == 1 {
        Some(EntityAction::Forward)
    } else if value == 2 {
        Some(EntityAction::Right)
    } else if value == 3 {
        Some(EntityAction::Backward)
    } else {
        None
    }
}

/// The movement code of an action: 0 left, 1 forward, 2 right, 3 backward.
pub open spec fn action_code(a: EntityAction) -> Option<i32> {
    match a {
        EntityAction::Left => Some(0i32),
        EntityAction::Forward => Some(1i32),
        EntityAction::Right => Some(2i32),
        EntityAction::Backward => Some(3i32),
        _ => None,
    }
}

/// Reading a movement code gives the action with that very code, and every
/// movement action is read back from its code; no other number is a code.
pub proof fn lemma_action_codes(c: i32, a: EntityAction)
    ensures
        action_coded(c) matches Some(b) ==> action_code(b) == Some(c),
        action_code(a) matches Some(n) ==> action_coded(n) == Some(a),
        action_coded(c) is Some <==> 0 <= c <= 3,
{
}

impl EntityAction {
    /// Reads an action name; any other text is refused.
    pub fn from_name(value: &str) -> (r: Result<EntityAction, ()>)
        ensures
            match action_named(value@) {
                Some(a) => r == Ok::<EntityAction, ()>(a),
                None => r is Err,
            },
    {
        if str_eq(value, "none") {
            Ok(EntityAction::Off)
        } else if str_eq(value, "left") {
            Ok(EntityAction::Left)
        } else if str_eq(value, "forward") {
            Ok(EntityAction::Forward)
        } else if str_eq(value, "right") {
            Ok(EntityAction::Right)
        } else if str_eq(value, "backward") {
            Ok(EntityAction::Backward)
        } else {
            Err(())
        }
    }

    /// Reads a movement code; any other number is refused with
    /// "Invalid value for EntityAction".
    pub fn from_code(value: i32) -> (r: Result<EntityAction, &'static str>)
        ensures
            match action_coded(value) {
                Some(a) => r == Ok::<EntityAction, &'static str>(a),
                None => r is Err && r->Err_0@ == "Invalid value for EntityAction"@,
            },
    {
        match value {
            0 => Ok(EntityAction::Left),
            1 => Ok(EntityAction::Forward),
            2 => Ok(EntityAction::Right),
            3 => Ok(EntityAction::Backward),
            _ => Err("Invalid value for EntityAction"),
        }
    }

    /// An action that sleeps `minutes` of game time from `ticks`, then switches
    /// back to `switchback`.
    pub fn sleep_and_switch(ticks: i64, ticks_per_minute: u32, minutes: u32, switchback: EntityAction) -> (r: EntityAction)
        requires
            minutes * ticks_per_minute <= u32::MAX,
            i64::MIN <= ticks + minutes * ticks_per_minute <= i64::MAX,
        ensures
            r == EntityAction::SleepAndSwitch((ticks + minutes * ticks_per_minute) as i64, Box::new(switchback)),
    {
        let tick = ticks + (minutes * ticks_per_minute) as i64;
        EntityAction::SleepAndSwitch(tick, Box::new(switchback))
    }
}

impl Clone for EntityAction {
    fn clone(&self) -> (r: Self)
        ensures
            r == *self,
        decreases self,
    {
        match self {
            EntityAction::Off => EntityAction::Off,
            EntityAction::Left => EntityAction::Left,
            EntityAction::Forward => EntityAction::Forward,
            EntityAction::Right => EntityAction::Right,
            EntityAction::Backward => EntityAction::Backward,
            EntityAction::SleepAndSwitch(tick, next) => {
                let inner: &EntityAction = &**next;
                EntityAction::SleepAndSwitch(*tick, Box::new(inner.clone()))
            },
        }
    }
}

impl std::str::FromStr for EntityAction {
    type Err = ();

    /// Converts a `&str` to an `EntityAction` (see `from_name`).
    fn from_str(value: &str) -> (r: Result<Self, Self::Err>)
        ensures
            match action_named(value@) {
                Some(a) => r == Ok::<EntityAction, ()>(a),
                None => r is Err,
            },
    {
        EntityAction::from_name(value)
    }
}

} // verus!
