use std::collections::HashMap;
use vstd::prelude::*;

use crate::entity::{is_item_update_of, Entity, Item, ItemUpdate, DIRTY_INVENTORY};
use crate::map::{first_id_index, lemma_first_id_index, lemma_first_id_index_contains};
use crate::message::{action_named, EntityAction};
use crate::script_host::{notify_target_tick, random_between};
use crate::attrs::{attr_map, AttrValue};
use crate::config::{config_entry, get_config_i32_default, get_config_string_default, ConfigScalar, ConfigSection};
use crate::entity::dirty_names;
use crate::script_host::{event_command, make_event_command};
use crate::text::{decimal, from_literal, push_decimal, push_str, str_eq};

verus! {

broadcast use {vstd::seq_lib::group_seq_properties, vstd::std_specs::hash::group_hash_axioms};

/// One argument of a script host call, in each of the forms the calls read.
pub struct HostArg {
    /// The number cut to an `i32` (as a cast of the `f32` value does).
    pub int: i32,
    /// The number cut to a `u32` (as a cast of the `f32` value does).
    pub uint: u32,
    /// The bit pattern of the number as an `f32`.
    pub bits: u32,
    /// Whether the value counts as true.
    pub truthy: bool,
    /// The text, when the value is a string.
    pub text: Option<String>,
}

/// The region state that script host calls read and change.
pub struct HostCtx {
    pub entities: Vec<Entity>,
    pub items: Vec<Item>,
    pub curr_entity_id: u32,
    pub curr_item_id: Option<u32>,
    pub ticks: i64,
    pub ticks_per_minute: u32,
    /// Pending notifications of entities: (entity id, tick, notification).
    pub notifications_entities: Vec<(u32, i64, String)>,
    /// Pending notifications of items: (item id, tick, notification).
    pub notifications_items: Vec<(u32, i64, String)>,
    /// Entities that track their proximity: entity id to radius (as `f32` bits).
    pub entity_alerts: HashMap<u32, u32>,
    /// Items that track their proximity: item id to radius (as `f32` bits).
    pub item_alerts: HashMap<u32, u32>,
    /// The name of the attribute that holds an entity's health.
    pub health_attr: String,
    /// Script commands of entities waiting to run: (entity id, event, command).
    pub commands: Vec<(u32, String, String)>,
}

/// The bit pattern of `5.0f32`, the default proximity radius.
pub const DEFAULT_ALERT_RADIUS_BITS: u32 = 0x40a0_0000u32;

/// A list of notifications with their texts as character sequences.
pub open spec fn notes(v: Seq<(u32, i64, String)>) -> Seq<(u32, i64, Seq<char>)> {
    v.map_values(|t: (u32, i64, String)| (t.0, t.1, t.2@))
}

/// The first position of an entity with this id, or -1.
pub open spec fn entity_at(es: Seq<Entity>, id: u32) -> int {
    first_id_index(es.map_values(|e: Entity| e.id), id)
}

/// The first position of an item with this id, or -1.
pub open spec fn item_at(items: Seq<Item>, id: u32) -> int {
    first_id_index(items.map_values(|it: Item| it.id), id)
}

proof fn lemma_entity_at(es: Seq<Entity>, id: u32)
    ensures
        -1 <= entity_at(es, id) < es.len(),
        entity_at(es, id) >= 0 ==> es[entity_at(es, id)].id == id,
{
    let ids = es.map_values(|e: Entity| e.id);
    lemma_first_id_index_contains(ids, id);
}

/// The first position of an entity with this id.
fn find_entity(es: &Vec<Entity>, id: u32) -> (r: Option<usize>)
    ensures
        match r {
            Some(i) => i as int == entity_at(es@, id) && i < es@.len(),
            None => entity_at(es@, id) == -1,
        },
{
    let ghost ids = es@.map_values(|e: Entity| e.id);
    let mut i: usize = 0;
    while i < es.len()
        invariant
            i <= es@.len(),
            ids == es@.map_values(|e: Entity| e.id),
            forall|j: int| 0 <= j < i ==> ids[j] != id,
        decreases es@.len() - i,
    {
        if es[i].id == id {
            proof {
                assert(ids[i as int] == id);
                lemma_first_id_index(ids, id, i as int);
            }
            return Some(i);
        }
        i += 1;
    }
    assert(!ids.contains(id));
    None
}

/// The first position of an item with this id.
fn find_item(items: &Vec<Item>, id: u32) -> (r: Option<usize>)
    ensures
        match r {
            Some(i) => i as int == item_at(items@, id) && i < items@.len(),
            None => item_at(items@, id) == -1,
        },
{
    let ghost ids = items@.map_values(|it: Item| it.id);
    let mut i: usize = 0;
    while i < items.len()
        invariant
            i <= items@.len(),
            ids == items@.map_values(|it: Item| it.id),
            forall|j: int| 0 <= j < i ==> ids[j] != id,
        decreases items@.len() - i,
    {
        if items[i].id == id {
            proof {
                assert(ids[i as int] == id);
                lemma_first_id_index(ids, id, i as int);
            }
            return Some(i);
        }
        i += 1;
    }
    assert(!ids.contains(id));
    None
}

/// Entity `e2` is `e` after `add_item(item)`.
pub open spec fn item_added(e: Entity, item: Item, e2: Entity) -> bool {
    &&& e2.inventory@ == e.inventory@.insert(item.id, item)
    &&& e2.inventory_additions@ == e.inventory_additions@.insert(item.id, item)
    &&& e2.inventory_removals@ == e.inventory_removals@.remove(item.id)
    &&& e2.dirty_flags == e.dirty_flags | DIRTY_INVENTORY
    &&& e2.equipped == e.equipped
    &&& e2.dirty_attributes == e.dirty_attributes
    &&& e2.id == e.id
    &&& e2.creator_id == e.creator_id
    &&& e2.action == e.action
    &&& e2.position_bits == e.position_bits
    &&& e2.orientation_bits == e.orientation_bits
    &&& e2.tilt_bits == e.tilt_bits
    &&& e2.attributes == e.attributes
}

/// The entities after `e2` replaced the entity at position `i`.
pub open spec fn entity_replaced(es: Seq<Entity>, i: int, es2: Seq<Entity>) -> bool {
    &&& es2.len() == es.len()
    &&& forall|j: int| 0 <= j < es.len() && j != i ==> es2[j] == es[j]
}

/// Everything of `c2` but the entities is as in `c`.
pub open spec fn same_but_entities(c: HostCtx, c2: HostCtx) -> bool {
    &&& c2.items@ == c.items@
    &&& notes(c2.notifications_entities@) == notes(c.notifications_entities@)
    &&& notes(c2.notifications_items@) == notes(c.notifications_items@)
    &&& c2.entity_alerts@ == c.entity_alerts@
    &&& c2.item_alerts@ == c.item_alerts@
}

/// The scalars and the waiting commands of the context are kept.
pub open spec fn same_scalars(c: HostCtx, c2: HostCtx) -> bool {
    &&& c2.health_attr == c.health_attr
    &&& c2.commands == c.commands
    &&& c2.curr_entity_id == c.curr_entity_id
    &&& c2.curr_item_id == c.curr_item_id
    &&& c2.ticks == c.ticks
    &&& c2.ticks_per_minute == c.ticks_per_minute
}

/// Nothing of the context changed.
pub open spec fn unchanged(c: HostCtx, c2: HostCtx) -> bool {
    &&& same_but_entities(c, c2)
    &&& c2.entities@ == c.entities@
}

/// The text of argument `k`, if there is one.
pub open spec fn arg_text(args: Seq<HostArg>, k: int) -> Option<Seq<char>> {
    if 0 <= k < args.len() {
        match args[k].text {
            Some(s) => Some(s@),
            None => None,
        }
    } else {
        None
    }
}

/// The tick at which a notification asked for in `minutes` fires.
pub open spec fn notify_tick(c: HostCtx, minutes: i32) -> int {
    c.ticks + (c.ticks_per_minute as i32) * minutes
}

/// Whether the arguments of a `notify_in` call keep its tick arithmetic in range.
pub open spec fn notify_in_range(c: HostCtx, args: Seq<HostArg>) -> bool {
    args.len() >= 2 ==> {
        &&& i32::MIN <= (c.ticks_per_minute as i32) * args[0].int <= i32::MAX
        &&& i64::MIN <= notify_tick(c, args[0].int) <= i64::MAX
    }
}

/// The position and health of the target of a `deal_damage` call (the first
/// entity with the id of the first argument), when there are two arguments
/// and the target's health attribute holds a whole number.
pub open spec fn damage_target(c: HostCtx, args: Seq<HostArg>) -> Option<(int, int)> {
    if args.len() >= 2 {
        let t = entity_at(c.entities@, args[0].uint);
        if t >= 0 {
            match entity_int(c.entities@[t], c.health_attr@) {
                Some(h) => Some((t, h)),
                None => None,
            }
        } else {
            None
        }
    } else {
        None
    }
}

/// Whether a `deal_damage` call keeps its health arithmetic in range.
pub open spec fn deal_damage_in_range(c: HostCtx, args: Seq<HostArg>) -> bool {
    damage_target(c, args) matches Some((t, h)) ==> i32::MIN <= h - args[1].int <= i32::MAX
}

/// What the script host call `name` with `args` does to the region state `c`
/// (giving `c2`) and returns (`r`): `None` for a call this library does not
/// handle (nothing changes), else `Some` of the call's numeric result, if any.
/// - `action(name)`: the current entity (the first with its id) takes the
///   named action, when the name is known and the entity exists.
/// - `id()`: the current entity's id.
/// - `notify_in(minutes, text)`: a notification for the current item, or else
///   the current entity, at `ticks + ticks_per_minute * minutes`.
/// - `set_proximity_tracking(on, radius = 5.0)`: the current item's, or else
///   the current entity's, proximity alert is set to the radius or removed.
/// - `take(item)`: the first item with that id leaves the region's items and,
///   when the current entity exists, goes into its inventory.
/// - `deal_damage(target, amount)`: the target's health drops by the amount
///   (not below zero); at zero its mode becomes "dead" and its action `Off`.
/// - `took_damage()`: nothing (the damage was applied already).
/// - `random(a, b)`: a random whole number between `a` and `b`, inclusive.
pub open spec fn host_call_spec(c: HostCtx, name: Seq<char>, args: Seq<HostArg>, c2: HostCtx, r: Option<Option<i64>>) -> bool {
    let cur = entity_at(c.entities@, c.curr_entity_id);
    &&& same_scalars(c, c2)
    &&& if name == "action"@ {
        &&& r == Some(None::<i64>)
        &&& same_but_entities(c, c2)
        &&& match arg_text(args, 0) {
            Some(s) => match action_named(s) {
                Some(a) => if cur >= 0 {
                    c2.entities@ == c.entities@.update(cur, Entity { action: a, ..c.entities@[cur] })
                } else {
                    c2.entities@ == c.entities@
                },
                None => c2.entities@ == c.entities@,
            },
            None => c2.entities@ == c.entities@,
        }
    } else if name == "id"@ {
        &&& r == Some(Some(c.curr_entity_id as i64))
        &&& unchanged(c, c2)
    } else if name == "notify_in"@ {
        &&& r == Some(None::<i64>)
        &&& c2.entities@ == c.entities@
        &&& c2.items@ == c.items@
        &&& c2.entity_alerts@ == c.entity_alerts@
        &&& c2.item_alerts@ == c.item_alerts@
        &&& if args.len() >= 2 && arg_text(args, 1) is Some {
            let note = (notify_tick(c, args[0].int) as i64, arg_text(args, 1)->0);
            match c.curr_item_id {
                Some(item) => {
                    &&& notes(c2.notifications_items@) == notes(c.notifications_items@).push((item, note.0, note.1))
                    &&& notes(c2.notifications_entities@) == notes(c.notifications_entities@)
                },
                None => {
                    &&& notes(c2.notifications_entities@) == notes(c.notifications_entities@).push(
                        (c.curr_entity_id, note.0, note.1),
                    )
                    &&& notes(c2.notifications_items@) == notes(c.notifications_items@)
                },
            }
        } else {
            &&& notes(c2.notifications_entities@) == notes(c.notifications_entities@)
            &&& notes(c2.notifications_items@) == notes(c.notifications_items@)
        }
    } else if name == "set_proximity_tracking"@ {
        let on = args.len() >= 1 && args[0].truthy;
        let radius = if args.len() >= 2 { args[1].bits } else { DEFAULT_ALERT_RADIUS_BITS };
        &&& r == Some(None::<i64>)
        &&& c2.entities@ == c.entities@
        &&& c2.items@ == c.items@
        &&& notes(c2.notifications_entities@) == notes(c.notifications_entities@)
        &&& notes(c2.notifications_items@) == notes(c.notifications_items@)
        &&& match c.curr_item_id {
            Some(item) => {
                &&& c2.item_alerts@ == if on { c.item_alerts@.insert(item, radius) } else { c.item_alerts@.remove(item) }
                &&& c2.entity_alerts@ == c.entity_alerts@
            },
            None => {
                &&& c2.entity_alerts@ == if on {
                    c.entity_alerts@.insert(c.curr_entity_id, radius)
                } else {
                    c.entity_alerts@.remove(c.curr_entity_id)
                }
                &&& c2.item_alerts@ == c.item_alerts@
            },
        }
    } else if name == "take"@ {
        &&& r == Some(None::<i64>)
        &&& notes(c2.notifications_entities@) == notes(c.notifications_entities@)
        &&& notes(c2.notifications_items@) == notes(c.notifications_items@)
        &&& c2.entity_alerts@ == c.entity_alerts@
        &&& c2.item_alerts@ == c.item_alerts@
        &&& if args.len() >= 1 && item_at(c.items@, args[0].uint) >= 0 {
            let p = item_at(c.items@, args[0].uint);
            &&& c2.items@ == c.items@.remove(p)
            &&& if cur >= 0 {
                &&& entity_replaced(c.entities@, cur, c2.entities@)
                &&& item_added(c.entities@[cur], c.items@[p], c2.entities@[cur])
            } else {
                c2.entities@ == c.entities@
            }
        } else {
            &&& c2.items@ == c.items@
            &&& c2.entities@ == c.entities@
        }
    } else if name == "deal_damage"@ {
        &&& r == Some(None::<i64>)
        &&& same_but_entities(c, c2)
        &&& match damage_target(c, args) {
            Some((t, h)) => {
                let nh = health_after(h, args[1].int as int);
                &&& entity_replaced(c.entities@, t, c2.entities@)
                &&& damaged(c.entities@[t], c.health_attr@, nh, nh == 0, c2.entities@[t])
            },
            None => c2.entities@ == c.entities@,
        }
    } else if name == "took_damage"@ {
        &&& r == Some(None::<i64>)
        &&& unchanged(c, c2)
    } else if name == "random"@ && args.len() >= 2 {
        let lo = if args[0].int <= args[1].int { args[0].int } else { args[1].int };
        let hi = if args[0].int <= args[1].int { args[1].int } else { args[0].int };
        &&& r matches Some(Some(v)) && lo <= v <= hi
        &&& unchanged(c, c2)
    } else {
        &&& r is None
        &&& unchanged(c, c2)
    }
}

/// Runs the script host call `name` with `args` on the region state (see
/// `host_call_spec`): `None` when the library does not handle the call.
pub fn host_call(ctx: &mut HostCtx, name: &str, args: &Vec<HostArg>) -> (r: Option<Option<i64>>)
    requires
        name@ == "notify_in"@ ==> notify_in_range(*old(ctx), args@),
        name@ == "deal_damage"@ ==> deal_damage_in_range(*old(ctx), args@),
    ensures
        host_call_spec(*old(ctx), name@, args@, *final(ctx), r),
{
    if str_eq(name, "action") {
        if args.len() >= 1 {
            match &args[0].text {
                Some(s) => {
                    match EntityAction::from_name(s.as_str()) {
                        Ok(a) => {
                            match find_entity(&ctx.entities, ctx.curr_entity_id) {
                                Some(i) => {
                                    let ghost es = ctx.entities@;
                                    proof {
                                        lemma_entity_at(es, ctx.curr_entity_id);
                                    }
                                    let mut e = ctx.entities.remove(i);
                                    e.action = a;
                                    ctx.entities.insert(i, e);
                                    assert(ctx.entities@ =~= es.update(i as int, Entity { action: a, ..es[i as int] }));
                                },
                                None => {},
                            }
                        },
                        Err(_) => {},
                    }
                },
                None => {},
            }
        }
        Some(None)
    } else if str_eq(name, "id") {
        Some(Some(ctx.curr_entity_id as i64))
    } else if str_eq(name, "notify_in") {
        if args.len() >= 2 {
            match &args[1].text {
                Some(s) => {
                    let minutes = args[0].int;
                    let target = notify_target_tick(ctx.ticks, ctx.ticks_per_minute, minutes);
                    let note = from_literal(s.as_str());
                    match ctx.curr_item_id {
                        Some(item) => {
                            let ghost before = ctx.notifications_items@;
                            ctx.notifications_items.push((item, target, note));
                            assert(notes(ctx.notifications_items@) =~= notes(before).push((item, target, note@)));
                        },
                        None => {
                            let ghost before = ctx.notifications_entities@;
                            ctx.notifications_entities.push((ctx.curr_entity_id, target, note));
                            assert(notes(ctx.notifications_entities@) =~= notes(before).push(
                                (ctx.curr_entity_id, target, note@),
                            ));
                        },
                    }
                },
                None => {},
            }
        }
        Some(None)
    } else if str_eq(name, "set_proximity_tracking") {
        let on = args.len() >= 1 && args[0].truthy;
        let radius = if args.len() >= 2 {
            args[1].bits
        } else {
            DEFAULT_ALERT_RADIUS_BITS
        };
        match ctx.curr_item_id {
            Some(item) => {
                if on {
                    ctx.item_alerts.insert(item, radius);
                } else {
                    ctx.item_alerts.remove(&item);
                }
            },
            None => {
                let id = ctx.curr_entity_id;
                if on {
                    ctx.entity_alerts.insert(id, radius);
                } else {
                    ctx.entity_alerts.remove(&id);
                }
            },
        }
        Some(None)
    } else if str_eq(name, "take") {
        if args.len() >= 1 {
            match find_item(&ctx.items, args[0].uint) {
                Some(p) => {
                    let item = ctx.items.remove(p);
                    match find_entity(&ctx.entities, ctx.curr_entity_id) {
                        Some(i) => {
                            let ghost es = ctx.entities@;
                            let mut e = ctx.entities.remove(i);
                            e.add_item(item);
                            ctx.entities.insert(i, e);
                            assert(entity_replaced(es, i as int, ctx.entities@));
                        },
                        None => {},
                    }
                },
                None => {},
            }
        }
        Some(None)
    } else if str_eq(name, "deal_damage") {
        if args.len() >= 2 {
            match find_entity(&ctx.entities, args[0].uint) {
                Some(t) => {
                    proof {
                        lemma_entity_at(ctx.entities@, args@[0].uint);
                    }
                    let h = match ctx.entities[t].get_attribute(ctx.health_attr.as_str()) {
                        Some(AttrValue::Int(h)) => Some(*h),
                        _ => None,
                    };
                    match h {
                        Some(h) => {
                            let d = h - args[1].int;
                            let nh = if d > 0 { d } else { 0 };
                            let key = from_literal(ctx.health_attr.as_str());
                            damage_entity(&mut ctx.entities, t, key.as_str(), nh, nh == 0);
                        },
                        None => {},
                    }
                },
                None => {},
            }
        }
        Some(None)
    } else if str_eq(name, "took_damage") {
        Some(None)
    } else if str_eq(name, "random") && args.len() >= 2 {
        let v = random_between(args[0].int, args[1].int);
        Some(Some(v as i64))
    } else {
        None
    }
}

/// Whether a notification is due at `ticks`.
pub open spec fn is_due(ticks: i64) -> spec_fn((u32, i64, Seq<char>)) -> bool {
    |t: (u32, i64, Seq<char>)| t.1 <= ticks
}

/// Whether a notification is still pending at `ticks`.
pub open spec fn is_pending(ticks: i64) -> spec_fn((u32, i64, Seq<char>)) -> bool {
    |t: (u32, i64, Seq<char>)| t.1 > ticks
}

/// Takes the notifications that are due at `ticks` out of the list and
/// returns them in order; those still pending stay, in order.
pub fn take_due_notifications(list: &mut Vec<(u32, i64, String)>, ticks: i64) -> (fired: Vec<(u32, i64, String)>)
    ensures
        notes(fired@) == notes(old(list)@).filter(is_due(ticks)),
        notes(final(list)@) == notes(old(list)@).filter(is_pending(ticks)),
{
    let ghost due = is_due(ticks);
    let ghost pending = is_pending(ticks);
    let mut fired: Vec<(u32, i64, String)> = Vec::new();
    let mut rest: Vec<(u32, i64, String)> = Vec::new();
    let mut i: usize = 0;
    while i < list.len()
        invariant
            i <= list@.len(),
            list@ == old(list)@,
            due == is_due(ticks),
            pending == is_pending(ticks),
            notes(fired@) == notes(list@).take(i as int).filter(due),
            notes(rest@) == notes(list@).take(i as int).filter(pending),
        decreases list@.len() - i,
    {
        let ghost n = notes(list@);
        assert(n.take(i + 1) =~= n.take(i as int).push(n[i as int]));
        proof {
            n.take(i as int).lemma_filter_push(n[i as int], due);
            n.take(i as int).lemma_filter_push(n[i as int], pending);
        }
        let entry = (list[i].0, list[i].1, from_literal(list[i].2.as_str()));
        let ghost fb = fired@;
        let ghost rb = rest@;
        if list[i].1 <= ticks {
            fired.push(entry);
            assert(notes(fired@) =~= notes(fb).push(n[i as int]));
        } else {
            rest.push(entry);
            assert(notes(rest@) =~= notes(rb).push(n[i as int]));
        }
        i += 1;
    }
    assert(notes(list@).take(list@.len() as int) =~= notes(list@));
    *list = rest;
    fired
}

/// The action of an entity after the wake-up check at `ticks`: a sleep that
/// has run out switches to the action it holds; any other action stays.
pub open spec fn woken(a: EntityAction, ticks: i64) -> EntityAction {
    match a {
        EntityAction::SleepAndSwitch(t, next) => if t <= ticks { *next } else { a },
        _ => a,
    }
}

/// Whether an entity has changes to send.
pub open spec fn entity_dirty(e: Entity) -> bool {
    e.dirty_flags != 0 || e.dirty_attributes@.len() > 0
}

/// Entity `e` as it is after the bookkeeping of a redraw tick: woken up, its
/// changes cleared when it had any.
pub open spec fn ticked(e: Entity, ticks: i64, e2: Entity) -> bool {
    let w = Entity { action: woken(e.action, ticks), ..e };
    if entity_dirty(e) {
        &&& e2.dirty_flags == 0
        &&& e2.dirty_attributes@.len() == 0
        &&& e2.inventory_additions@ == Map::<u32, Item>::empty()
        &&& e2.inventory_removals@ == Set::<u32>::empty()
        &&& e2.inventory@ == e.inventory@
        &&& e2.equipped == e.equipped
        &&& e2.id == e.id
        &&& e2.creator_id == e.creator_id
        &&& e2.action == w.action
        &&& e2.position_bits == e.position_bits
        &&& e2.orientation_bits == e.orientation_bits
        &&& e2.tilt_bits == e.tilt_bits
        &&& e2.attributes == e.attributes
    } else {
        e2 == w
    }
}

/// `us` holds, in order, one update for each entity of `es` that has
/// changes, describing the entity after its wake-up check.
pub open spec fn updates_sent(es: Seq<Entity>, ticks: i64, us: Seq<crate::entity::EntityUpdate>) -> bool
    decreases es.len(),
{
    if es.len() == 0 {
        us.len() == 0
    } else if entity_dirty(es.last()) {
        &&& us.len() > 0
        &&& updates_sent(es.drop_last(), ticks, us.drop_last())
        &&& crate::entity::is_update_of(us.last(), Entity { action: woken(es.last().action, ticks), ..es.last() })
    } else {
        updates_sent(es.drop_last(), ticks, us)
    }
}

/// The entity bookkeeping of a redraw tick: every sleeping entity whose time
/// has come switches to its next action, and every entity with changes has
/// them collected into an update (in entity order) and cleared.
pub fn redraw_bookkeeping(entities: &mut Vec<Entity>, ticks: i64) -> (updates: Vec<crate::entity::EntityUpdate>)
    ensures
        final(entities)@.len() == old(entities)@.len(),
        forall|k: int| 0 <= k < old(entities)@.len() ==> ticked(old(entities)@[k], ticks, #[trigger] final(entities)@[k]),
        updates_sent(old(entities)@, ticks, updates@),
{
    let ghost es = entities@;
    let mut updates: Vec<crate::entity::EntityUpdate> = Vec::new();
    let mut k: usize = 0;
    while k < entities.len()
        invariant
            k <= entities@.len(),
            entities@.len() == es.len(),
            forall|j: int| k <= j < es.len() ==> #[trigger] entities@[j] == es[j],
            forall|j: int| 0 <= j < k ==> ticked(es[j], ticks, #[trigger] entities@[j]),
            updates_sent(es.take(k as int), ticks, updates@),
        decreases entities@.len() - k,
    {
        let ghost cur = entities@;
        let mut e = entities.remove(k);
        let wake = match &e.action {
            EntityAction::SleepAndSwitch(t, next) => {
                if *t <= ticks {
                    let n: &EntityAction = &**next;
                    Some(n.clone())
                } else {
                    None
                }
            },
            _ => None,
        };
        match wake {
            Some(a) => {
                e.action = a;
            },
            None => {},
        }
        let ghost w = e;
        assert(w == Entity { action: woken(es[k as int].action, ticks), ..es[k as int] });
        let ghost ub = updates@;
        if e.is_dirty() {
            let u = e.get_update();
            updates.push(u);
            e.clear_dirty();
            assert(updates@.drop_last() =~= ub);
        }
        entities.insert(k, e);
        proof {
            assert(es.take(k + 1).drop_last() =~= es.take(k as int));
            assert(es.take(k + 1).last() == es[k as int]);
            assert forall|j: int| 0 <= j < k + 1 implies ticked(es[j], ticks, #[trigger] entities@[j]) by {
                if j < k {
                    assert(entities@[j] == cur[j]);
                }
            }
            assert forall|j: int| k + 1 <= j < es.len() implies #[trigger] entities@[j] == es[j] by {
                assert(entities@[j] == cur[j]);
            }
        }
        k += 1;
    }
    assert(es.take(es.len() as int) =~= es);
    updates
}

/// What to do with a queued script command.
#[derive(PartialEq, Eq, Debug, Structural)]
pub enum CommandGate {
    /// Run it (its tick is recorded).
    Run,
    /// Drop it: the event already ran in this tick, or is blocked until later.
    Skip,
    /// Drop it and tell the player that the intent cannot be done yet.
    SkipWithWarning,
}

/// The execution log with its event names as character sequences.
pub open spec fn log_view(v: Seq<(u32, String, i64)>) -> Seq<(u32, Seq<char>, i64)> {
    v.map_values(|t: (u32, String, i64)| (t.0, t.1@, t.2))
}

/// The first position of the entry for event `event` of `id`, or -1.
pub open spec fn log_at(v: Seq<(u32, Seq<char>, i64)>, id: u32, event: Seq<char>) -> int
    decreases v.len(),
{
    if v.len() == 0 {
        -1
    } else {
        let p = log_at(v.drop_last(), id, event);
        if p >= 0 {
            p
        } else if v.last().0 == id && v.last().1 == event {
            v.len() - 1
        } else {
            -1
        }
    }
}

proof fn lemma_log_at_prefix(v: Seq<(u32, Seq<char>, i64)>, id: u32, event: Seq<char>, n: int)
    requires
        0 <= n <= v.len(),
        log_at(v.take(n), id, event) >= 0,
    ensures
        log_at(v, id, event) == log_at(v.take(n), id, event),
    decreases v.len() - n,
{
    if n < v.len() {
        assert(v.take(n + 1).drop_last() =~= v.take(n));
        lemma_log_at_prefix(v, id, event, n + 1);
    } else {
        assert(v.take(n) =~= v);
    }
}

/// Item `it` as it is after the bookkeeping of a redraw tick: its changes
/// cleared when it had any, otherwise unchanged.
pub open spec fn item_ticked(it: Item, it2: Item) -> bool {
    if it.dirty_flags != 0 {
        it2 == Item { dirty_flags: 0, ..it }
    } else {
        it2 == it
    }
}

/// `us` holds, in order, one update for each item of `items` that has changes.
pub open spec fn item_updates_sent(items: Seq<Item>, us: Seq<ItemUpdate>) -> bool
    decreases items.len(),
{
    if items.len() == 0 {
        us.len() == 0
    } else if items.last().dirty_flags != 0 {
        &&& us.len() > 0
        &&& item_updates_sent(items.drop_last(), us.drop_last())
        &&& is_item_update_of(us.last(), items.last())
    } else {
        item_updates_sent(items.drop_last(), us)
    }
}

/// The item bookkeeping of a redraw tick: every item with changes has them
/// collected into an update (in item order) and cleared.
pub fn redraw_item_bookkeeping(items: &mut Vec<Item>) -> (updates: Vec<ItemUpdate>)
    ensures
        final(items)@.len() == old(items)@.len(),
        forall|k: int| 0 <= k < old(items)@.len() ==> item_ticked(old(items)@[k], #[trigger] final(items)@[k]),
        item_updates_sent(old(items)@, updates@),
{
    let ghost its = items@;
    let mut updates: Vec<ItemUpdate> = Vec::new();
    let mut k: usize = 0;
    while k < items.len()
        invariant
            k <= items@.len(),
            items@.len() == its.len(),
            forall|j: int| k <= j < its.len() ==> #[trigger] items@[j] == its[j],
            forall|j: int| 0 <= j < k ==> item_ticked(its[j], #[trigger] items@[j]),
            item_updates_sent(its.take(k as int), updates@),
        decreases items@.len() - k,
    {
        let mut it = items[k];
        let ghost ub = updates@;
        if it.is_dirty() {
            updates.push(it.get_update());
            it.clear_dirty();
            assert(updates@.drop_last() =~= ub);
        }
        items.set(k, it);
        proof {
            assert(its.take(k + 1).drop_last() =~= its.take(k as int));
            assert(its.take(k + 1).last() == its[k as int]);
        }
        k += 1;
    }
    assert(its.take(its.len() as int) =~= its);
    updates
}

/// The whole number held by attribute `key` of an entity, if it holds one.
pub open spec fn entity_int(e: Entity, key: Seq<char>) -> Option<int> {
    let m = attr_map(e.attributes@);
    if m.contains_key(key) && m[key].0 == 1 {
        Some(m[key].1)
    } else {
        None
    }
}

/// The text held by attribute `key` of an entity, if it holds one.
pub open spec fn entity_text(e: Entity, key: Seq<char>) -> Option<Seq<char>> {
    let m = attr_map(e.attributes@);
    if m.contains_key(key) && m[key].0 == 4 {
        Some(m[key].2)
    } else {
        None
    }
}

/// Entity `e2` is `e` with its health attribute `key` set to `health` and,
/// when `dead`, its mode set to "dead" and its action to `Off`; both
/// attributes are marked as changed and nothing else changes.
pub open spec fn damaged(e: Entity, key: Seq<char>, health: int, dead: bool, e2: Entity) -> bool {
    let m1 = attr_map(e.attributes@).insert(key, (1, health, Seq::empty()));
    &&& attr_map(e2.attributes@) == if dead { m1.insert("mode"@, (4, 0, "dead"@)) } else { m1 }
    &&& dirty_names(e2) == if dead { dirty_names(e).insert(key).insert("mode"@) } else { dirty_names(e).insert(key) }
    &&& e2.action == if dead { EntityAction::Off } else { e.action }
    &&& e2.id == e.id
    &&& e2.creator_id == e.creator_id
    &&& e2.dirty_flags == e.dirty_flags
    &&& e2.inventory@ == e.inventory@
    &&& e2.inventory_additions@ == e.inventory_additions@
    &&& e2.inventory_removals@ == e.inventory_removals@
    &&& e2.equipped == e.equipped
    &&& e2.position_bits == e.position_bits
    &&& e2.orientation_bits == e.orientation_bits
    &&& e2.tilt_bits == e.tilt_bits
}

/// Health after `damage` (never below zero).
pub open spec fn health_after(health: int, damage: int) -> int {
    if health - damage > 0 { health - damage } else { 0 }
}

/// The commands with their event and command texts as character sequences.
pub open spec fn cmds(v: Seq<(u32, String, String)>) -> Seq<(u32, Seq<char>, Seq<char>)> {
    v.map_values(|t: (u32, String, String)| (t.0, t.1@, t.2@))
}

/// The script command that tells an attacker of class `class` that it
/// killed entity `id`: `class.event("kill", id)`.
pub open spec fn kill_command(class: Seq<char>, id: u32) -> Seq<char> {
    class + ".event(\"kill\", "@ + decimal(id as nat) + ")"@
}

/// The current entity's position and health, when the entity exists and its
/// health attribute holds a whole number.
pub open spec fn current_health(c: HostCtx) -> Option<(int, int)> {
    let i = entity_at(c.entities@, c.curr_entity_id);
    if i >= 0 {
        match entity_int(c.entities@[i], c.health_attr@) {
            Some(h) => Some((i, h)),
            None => None,
        }
    } else {
        None
    }
}

/// Whether taking `amount` damage keeps the health arithmetic in range.
pub open spec fn damage_in_range(c: HostCtx, amount: i32) -> bool {
    current_health(c) matches Some((i, h)) ==> i32::MIN <= h - amount
}

/// What the current entity taking `amount` damage from entity `from` does:
/// nothing when `amount` is not positive or the entity has no whole number
/// health. Otherwise the health drops (not below zero); when it reaches zero
/// while the entity is not already dead and has a script class, the entity
/// dies: mode "dead", action `Off`, its proximity alert removed, a "death"
/// command for it and, when the attacker has a script class, a "kill"
/// command for the attacker.
pub open spec fn took_damage_spec(c: HostCtx, from: u32, amount: i32, c2: HostCtx) -> bool {
    &&& c2.health_attr == c.health_attr
    &&& c2.curr_entity_id == c.curr_entity_id
    &&& c2.curr_item_id == c.curr_item_id
    &&& c2.ticks == c.ticks
    &&& c2.ticks_per_minute == c.ticks_per_minute
    &&& c2.items@ == c.items@
    &&& notes(c2.notifications_entities@) == notes(c.notifications_entities@)
    &&& notes(c2.notifications_items@) == notes(c.notifications_items@)
    &&& c2.item_alerts@ == c.item_alerts@
    &&& if amount <= 0 || current_health(c) is None {
        &&& c2.entities@ == c.entities@
        &&& c2.entity_alerts@ == c.entity_alerts@
        &&& cmds(c2.commands@) == cmds(c.commands@)
    } else {
        let (i, h) = current_health(c)->0;
        let e = c.entities@[i];
        let nh = health_after(h, amount as int);
        let dead = nh <= 0 && entity_text(e, "mode"@) != Some("dead"@) && entity_text(e, "class_name"@) is Some;
        let death = (c.curr_entity_id, "death"@, event_command(entity_text(e, "class_name"@)->0, "death"@, ""@));
        let a = entity_at(c2.entities@, from);
        let with_death = cmds(c.commands@).push(death);
        &&& entity_replaced(c.entities@, i, c2.entities@)
        &&& damaged(e, c.health_attr@, nh, dead, c2.entities@[i])
        &&& c2.entity_alerts@ == if dead { c.entity_alerts@.remove(c.curr_entity_id) } else { c.entity_alerts@ }
        &&& cmds(c2.commands@) == if !dead {
            cmds(c.commands@)
        } else if a >= 0 && entity_text(c2.entities@[a], "class_name"@) is Some {
            with_death.push((from, "kill"@, kill_command(entity_text(c2.entities@[a], "class_name"@)->0, c.curr_entity_id)))
        } else {
            with_death
        }
    }
}

/// The text of an entity's attribute, if it holds one.
fn text_attr<'a>(e: &'a Entity, key: &str) -> (r: Option<&'a str>)
    ensures
        match r {
            Some(t) => entity_text(*e, key@) == Some(t@),
            None => entity_text(*e, key@) is None,
        },
{
    match e.get_attribute(key) {
        Some(AttrValue::Text(t)) => Some(t.as_str()),
        _ => None,
    }
}

/// Builds `class.event("kill", id)`.
fn make_kill_command(class: &str, id: u32) -> (r: String)
    ensures
        r@ == kill_command(class@, id),
{
    let mut s = from_literal(class);
    push_str(&mut s, ".event(\"kill\", ");
    push_decimal(&mut s, id as usize);
    push_str(&mut s, ")");
    s
}

/// Sets the health of the entity at position `i` and, when `dead`, its mode
/// to "dead" and its action to `Off`.
fn damage_entity(entities: &mut Vec<Entity>, i: usize, key: &str, health: i32, dead: bool)
    requires
        i < old(entities)@.len(),
    ensures
        entity_replaced(old(entities)@, i as int, final(entities)@),
        damaged(old(entities)@[i as int], key@, health as int, dead, final(entities)@[i as int]),
{
    let ghost es = entities@;
    let mut e = entities.remove(i);
    e.set_attribute(key, AttrValue::Int(health));
    if dead {
        e.set_attribute("mode", AttrValue::Text(from_literal("dead")));
        e.action = EntityAction::Off;
    }
    entities.insert(i, e);
    proof {
        assert forall|j: int| 0 <= j < es.len() && j != i implies entities@[j] == es[j] by {
            if j < i {
                assert(entities@[j] == es[j]);
            } else {
                assert(entities@[j] == es[j]);
            }
        }
    }
}

/// The current entity takes `amount` damage from entity `from` (see `took_damage_spec`).
pub fn took_damage(ctx: &mut HostCtx, from: u32, amount: i32)
    requires
        damage_in_range(*old(ctx), amount),
    ensures
        took_damage_spec(*old(ctx), from, amount, *final(ctx)),
{
    if amount <= 0 {
        return;
    }
    let id = ctx.curr_entity_id;
    let i = match find_entity(&ctx.entities, id) {
        Some(i) => i,
        None => return,
    };
    proof {
        lemma_entity_at(ctx.entities@, id);
    }
    let h = match ctx.entities[i].get_attribute(ctx.health_attr.as_str()) {
        Some(AttrValue::Int(h)) => *h,
        _ => return,
    };
    let nh = if h - amount > 0 { h - amount } else { 0 };
    let mode_dead = match text_attr(&ctx.entities[i], "mode") {
        Some(m) => str_eq(m, "dead"),
        None => false,
    };
    let death = match text_attr(&ctx.entities[i], "class_name") {
        Some(class) => {
            if nh <= 0 && !mode_dead {
                Some(make_event_command(class, "death", ""))
            } else {
                None
            }
        },
        None => None,
    };
    let dead = death.is_some();
    let key = from_literal(ctx.health_attr.as_str());
    damage_entity(&mut ctx.entities, i, key.as_str(), nh, dead);
    match death {
        Some(cmd) => {
            let ghost before = ctx.commands@;
            let ev = from_literal("death");
            let ghost death_view = (id, ev@, cmd@);
            ctx.commands.push((id, ev, cmd));
            assert(cmds(ctx.commands@) =~= cmds(before).push(death_view));
            let ghost with_death = ctx.commands@;
            ctx.entity_alerts.remove(&id);
            match find_entity(&ctx.entities, from) {
                Some(a) => {
                    proof {
                        lemma_entity_at(ctx.entities@, from);
                    }
                    match text_attr(&ctx.entities[a], "class_name") {
                        Some(class) => {
                            let kill = make_kill_command(class, id);
                            let kev = from_literal("kill");
                            let ghost kill_view = (from, kev@, kill@);
                            ctx.commands.push((from, kev, kill));
                            assert(cmds(ctx.commands@) =~= cmds(with_death).push(kill_view));
                        },
                        None => {},
                    }
                },
                None => {},
            }
        },
        None => {},
    }
}

/// Whether the first entity with this id is dead: its mode attribute reads
/// "dead" (an entity without one, or an unknown id, is not dead).
pub open spec fn entity_is_dead(es: Seq<Entity>, id: u32) -> bool {
    let i = entity_at(es, id);
    i >= 0 && entity_text(es[i], "mode"@) == Some("dead"@)
}

/// Whether the entity with this id is dead (see `entity_is_dead`).
pub fn is_entity_dead(entities: &Vec<Entity>, id: u32) -> (r: bool)
    ensures
        r == entity_is_dead(entities@, id),
{
    match find_entity(entities, id) {
        Some(i) => {
            match text_attr(&entities[i], "mode") {
                Some(m) => str_eq(m, "dead"),
                None => false,
            }
        },
        None => false,
    }
}


/// The region settings that come from the game configuration.
pub struct RegionSettings {
    /// Game ticks per game minute.
    pub ticks_per_minute: u32,
    /// Milliseconds between two game ticks.
    pub game_tick_ms: u64,
    /// The name of the attribute that holds an entity's health.
    pub health_attr: String,
    /// 1 when entities block each other always, else 0.
    pub entity_block_mode: i32,
}

/// The whole number under `key` in table "game", cut to `i32`, or `default`.
pub open spec fn game_int(cfg: Seq<(String, ConfigSection)>, key: Seq<char>, default: i32) -> i32 {
    match config_entry(cfg, "game"@, key) {
        Some(ConfigScalar::Integer(v)) => v as i32,
        _ => default,
    }
}

/// The text under `key` in table "game", or `default`.
pub open spec fn game_text(cfg: Seq<(String, ConfigSection)>, key: Seq<char>, default: Seq<char>) -> Seq<char> {
    match config_entry(cfg, "game"@, key) {
        Some(ConfigScalar::Text(s)) => s@,
        _ => default,
    }
}

/// Reads the region settings from the game configuration: ticks per minute
/// (default 4), the game tick in milliseconds (default 250), the health
/// attribute (default "HP") and the entity block mode ("always", the
/// default, gives 1, anything else 0).
pub fn region_settings(cfg: &Vec<(String, ConfigSection)>) -> (r: RegionSettings)
    ensures
        r.ticks_per_minute == game_int(cfg@, "ticks_per_minute"@, 4) as u32,
        r.game_tick_ms == game_int(cfg@, "game_tick_ms"@, 250) as u64,
        r.health_attr@ == game_text(cfg@, "health"@, "HP"@),
        r.entity_block_mode == if game_text(cfg@, "entity_block_mode"@, "always"@) == "always"@ { 1i32 } else { 0i32 },
{
    let tpm = get_config_i32_default(cfg, "game", "ticks_per_minute", 4);
    let tick_ms = get_config_i32_default(cfg, "game", "game_tick_ms", 250);
    let health_attr = get_config_string_default(cfg, "game", "health", "HP");
    let mode = get_config_string_default(cfg, "game", "entity_block_mode", "always");
    let entity_block_mode = if str_eq(mode.as_str(), "always") { 1 } else { 0 };
    RegionSettings { ticks_per_minute: tpm as u32, game_tick_ms: tick_ms as u64, health_attr, entity_block_mode }
}

/// The "startup" commands of a region's entities: for each entity with a
/// script class, in order, `class.event("startup", "")`.
pub open spec fn startup_commands_spec(es: Seq<Entity>) -> Seq<(u32, Seq<char>)>
    decreases es.len(),
{
    if es.len() == 0 {
        Seq::empty()
    } else {
        let prev = startup_commands_spec(es.drop_last());
        match entity_text(es.last(), "class_name"@) {
            Some(c) => prev.push((es.last().id, event_command(c, "startup"@, ""@))),
            None => prev,
        }
    }
}

/// The "startup" commands of the region's entities (see `startup_commands_spec`).
pub fn startup_commands(entities: &Vec<Entity>) -> (r: Vec<(u32, String)>)
    ensures
        r@.map_values(|t: (u32, String)| (t.0, t.1@)) == startup_commands_spec(entities@),
{
    let mut r: Vec<(u32, String)> = Vec::new();
    let mut k: usize = 0;
    while k < entities.len()
        invariant
            k <= entities@.len(),
            r@.map_values(|t: (u32, String)| (t.0, t.1@)) == startup_commands_spec(entities@.take(k as int)),
        decreases entities@.len() - k,
    {
        proof {
            assert(entities@.take(k + 1).drop_last() =~= entities@.take(k as int));
            assert(entities@.take(k + 1).last() == entities@[k as int]);
        }
        match text_attr(&entities[k], "class_name") {
            Some(class) => {
                let ghost before = r@;
                let cmd = make_event_command(class, "startup", "");
                r.push((entities[k].id, cmd));
                assert(r@.map_values(|t: (u32, String)| (t.0, t.1@)) =~= before.map_values(
                    |t: (u32, String)| (t.0, t.1@),
                ).push((entities@[k as int].id, cmd@)));
            },
            None => {},
        }
        k += 1;
    }
    assert(entities@.take(entities@.len() as int) =~= entities@);
    r
}


/// A player's action for entity `id`: the first entity with that id takes
/// it (nothing changes when there is none).
pub fn set_entity_action(entities: &mut Vec<Entity>, id: u32, action: EntityAction)
    ensures
        ({
            let i = entity_at(old(entities)@, id);
            if i >= 0 {
                final(entities)@ == old(entities)@.update(i, Entity { action: action, ..old(entities)@[i] })
            } else {
                final(entities)@ == old(entities)@
            }
        }),
{
    match find_entity(entities, id) {
        Some(i) => {
            let ghost es = entities@;
            proof {
                lemma_entity_at(es, id);
            }
            let ghost a = action;
            let mut e = entities.remove(i);
            e.action = action;
            entities.insert(i, e);
            assert(entities@ =~= es.update(i as int, Entity { action: a, ..es[i as int] }));
        },
        None => {},
    }
}

/// A player's intent for entity `id`: the first entity with that id has its
/// "intent" attribute set to the text (nothing changes when there is none).
pub fn set_entity_intent(entities: &mut Vec<Entity>, id: u32, intent: &str)
    ensures
        ({
            let i = entity_at(old(entities)@, id);
            if i >= 0 {
                &&& entity_replaced(old(entities)@, i, final(entities)@)
                &&& attr_map(final(entities)@[i].attributes@) == attr_map(old(entities)@[i].attributes@).insert(
                    "intent"@,
                    (4, 0, intent@),
                )
                &&& dirty_names(final(entities)@[i]) == dirty_names(old(entities)@[i]).insert("intent"@)
                &&& final(entities)@[i].id == id
                &&& final(entities)@[i].action == old(entities)@[i].action
            } else {
                final(entities)@ == old(entities)@
            }
        }),
{
    match find_entity(entities, id) {
        Some(i) => {
            let ghost es = entities@;
            proof {
                lemma_entity_at(es, id);
            }
            let mut e = entities.remove(i);
            e.set_attribute("intent", AttrValue::Text(from_literal(intent)));
            entities.insert(i, e);
            proof {
                assert forall|j: int| 0 <= j < es.len() && j != i implies entities@[j] == es[j] by {
                    assert(entities@[j] == es[j]);
                }
            }
        },
        None => {},
    }
}


/// Whether the entity of a notification is alive in `es`.
pub open spec fn notified_alive(es: Seq<Entity>) -> spec_fn((u32, i64, Seq<char>)) -> bool {
    |t: (u32, i64, Seq<char>)| !entity_is_dead(es, t.0)
}

/// Takes the entity notifications that are due at `ticks` out of the list
/// and returns those whose entity is not dead, in order; the dead entities'
/// due notifications are dropped, and those still pending stay.
pub fn take_due_entity_notifications(list: &mut Vec<(u32, i64, String)>, entities: &Vec<Entity>, ticks: i64) -> (fired: Vec<(u32, i64, String)>)
    ensures
        notes(fired@) == notes(old(list)@).filter(is_due(ticks)).filter(notified_alive(entities@)),
        notes(final(list)@) == notes(old(list)@).filter(is_pending(ticks)),
{
    let due = take_due_notifications(list, ticks);
    let ghost alive = notified_alive(entities@);
    let mut out: Vec<(u32, i64, String)> = Vec::new();
    let mut i: usize = 0;
    while i < due.len()
        invariant
            i <= due@.len(),
            alive == notified_alive(entities@),
            notes(out@) == notes(due@).take(i as int).filter(alive),
        decreases due@.len() - i,
    {
        let ghost n = notes(due@);
        assert(n.take(i + 1) =~= n.take(i as int).push(n[i as int]));
        proof {
            n.take(i as int).lemma_filter_push(n[i as int], alive);
        }
        if !is_entity_dead(entities, due[i].0) {
            let ghost ob = out@;
            out.push((due[i].0, due[i].1, from_literal(due[i].2.as_str())));
            assert(notes(out@) =~= notes(ob).push(n[i as int]));
        }
        i += 1;
    }
    assert(notes(due@).take(due@.len() as int) =~= notes(due@));
    out
}

/// Whether a waiting script command of `id` for event `event` runs at
/// `ticks`: when the log holds a tick for that event at or after `ticks`, it is
/// dropped (with a warning for an entity's "intent" when `warn` is set) and
/// the log stays; otherwise it runs and the log records `ticks` for the event.
pub open spec fn command_gate_spec(log: Seq<(u32, Seq<char>, i64)>, id: u32, event: Seq<char>, ticks: i64, warn: bool, log2: Seq<(u32, Seq<char>, i64)>, r: CommandGate) -> bool {
    let k = log_at(log, id, event);
    if k >= 0 && log[k].2 >= ticks {
        &&& r == if warn && event == "intent"@ { CommandGate::SkipWithWarning } else { CommandGate::Skip }
        &&& log2 == log
    } else {
        &&& r == CommandGate::Run
        &&& log2 == if k >= 0 { log.update(k, (id, event, ticks)) } else { log.push((id, event, ticks)) }
    }
}

/// Decides whether a queued script command runs in this tick (see
/// `command_gate_spec`), updating the execution log.
pub fn gate_command(log: &mut Vec<(u32, String, i64)>, id: u32, event: &str, ticks: i64, warn: bool) -> (r: CommandGate)
    ensures
        command_gate_spec(log_view(old(log)@), id, event@, ticks, warn, log_view(final(log)@), r),
{
    let ghost lv = log_view(log@);
    let mut i: usize = 0;
    while i < log.len()
        invariant
            i <= log@.len(),
            log@ == old(log)@,
            lv == log_view(log@),
            log_at(lv.take(i as int), id, event@) == -1,
        decreases log@.len() - i,
    {
        assert(lv.take(i + 1).drop_last() =~= lv.take(i as int));
        if log[i].0 == id && str_eq(log[i].1.as_str(), event) {
            proof {
                lemma_log_at_prefix(lv, id, event@, i as int + 1);
            }
            if log[i].2 >= ticks {
                if warn && str_eq(event, "intent") {
                    return CommandGate::SkipWithWarning;
                }
                return CommandGate::Skip;
            }
            let name = from_literal(event);
            log.set(i, (id, name, ticks));
            assert(log_view(log@) =~= lv.update(i as int, (id, event@, ticks)));
            return CommandGate::Run;
        }
        i += 1;
    }
    assert(lv.take(lv.len() as int) =~= lv);
    let name = from_literal(event);
    log.push((id, name, ticks));
    assert(log_view(log@) =~= lv.push((id, event@, ticks)));
    CommandGate::Run
}

} // verus!
