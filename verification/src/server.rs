use vstd::prelude::*;

use crate::attrs::{attr_map, attr_names, attrs_applied};
use crate::entity::{dirty_names, applied_item_update, applied_update, updated_inventory, Entity, EntityUpdate, Item, ItemUpdate};
use crate::message::EntityAction;
use crate::text::{push_char, push_str};

verus! {

/// Whether the game server runs.
#[derive(PartialEq, Eq, Structural, Clone, Copy, Debug)]
pub enum ServerState {
    Off,
    Running,
    Paused,
}

/// The server's own bookkeeping: the region id generator, its state and the
/// log collected from the regions. The region threads and channels live outside.
#[derive(Clone, Debug)]
pub struct Server {
    pub id_gen: u32,
    pub state: ServerState,
    pub log: String,
    pub log_changed: bool,
}

/// The log after message `m` arrived: `m` alone when the log was empty, else
/// the log, a line break and `m`.
pub open spec fn appended_log(log: Seq<char>, m: Seq<char>) -> Seq<char> {
    if log.len() == 0 {
        m
    } else {
        log.push('\n') + m
    }
}

impl Server {
    /// A stopped server with an empty (but changed) log.
    pub fn new() -> (s: Self)
        ensures
            s.id_gen == 0,
            s.state == ServerState::Off,
            s.log@ == Seq::<char>::empty(),
            s.log_changed,
    {
        Server { id_gen: 0, state: ServerState::Off, log: String::new(), log_changed: true }
    }

    /// Clears the log.
    pub fn clear_log(&mut self)
        ensures
            final(self).log@ == Seq::<char>::empty(),
            final(self).log_changed == old(self).log_changed,
            final(self).id_gen == old(self).id_gen,
            final(self).state == old(self).state,
    {
        self.log = String::new();
    }

    /// Returns the log and marks it as read.
    pub fn get_log(&mut self) -> (r: String)
        ensures
            r@ == old(self).log@,
            final(self).log@ == old(self).log@,
            !final(self).log_changed,
            final(self).id_gen == old(self).id_gen,
            final(self).state == old(self).state,
    {
        self.log_changed = false;
        self.log.clone()
    }

    /// Sets the server state.
    pub fn set_state(&mut self, state: ServerState)
        ensures
            final(self).state == state,
            final(self).id_gen == old(self).id_gen,
            final(self).log == old(self).log,
            final(self).log_changed == old(self).log_changed,
    {
        self.state = state;
    }

    /// Hands out the next region id.
    pub fn get_next_id(&mut self) -> (id: u32)
        requires
            old(self).id_gen < u32::MAX,
        ensures
            id == old(self).id_gen,
            final(self).id_gen == old(self).id_gen + 1,
            final(self).state == old(self).state,
            final(self).log == old(self).log,
            final(self).log_changed == old(self).log_changed,
    {
        let id = self.id_gen;
        self.id_gen = self.id_gen + 1;
        id
    }

    /// Adds a log message sent by a region and marks the log as changed.
    pub fn log_message(&mut self, message: &str)
        ensures
            final(self).log@ == appended_log(old(self).log@, message@),
            final(self).log_changed,
            final(self).id_gen == old(self).id_gen,
            final(self).state == old(self).state,
    {
        if self.log.as_str().is_empty() {
            self.log = crate::text::from_literal(message);
        } else {
            push_char(&mut self.log, '\n');
            push_str(&mut self.log, message);
        }
        self.log_changed = true;
    }

    /// Resets the server: no ids handed out, stopped, empty log.
    pub fn clear(&mut self)
        ensures
            final(self).id_gen == 0,
            final(self).state == ServerState::Off,
            final(self).log@ == Seq::<char>::empty(),
            final(self).log_changed == old(self).log_changed,
    {
        self.id_gen = 0;
        self.state = ServerState::Off;
        self.clear_log();
    }
}


/// The last position of an entity with this id, or -1.
pub open spec fn last_entity_index(es: Seq<Entity>, id: u32) -> int {
    if exists|i: int| 0 <= i < es.len() && es[i].id == id {
        choose|i: int| 0 <= i < es.len() && es[i].id == id && forall|j: int| i < j < es.len() ==> es[j].id != id
    } else {
        -1
    }
}

/// `e` is a new entity with the update's id after the update was applied to it.
pub open spec fn new_entity_from(u: EntityUpdate, e: Entity) -> bool {
    &&& e.id == u.id
    &&& e.dirty_flags == 0
    &&& dirty_names(e) == attr_names(u.attributes@).to_set()
    &&& attr_map(e.attributes@) == attrs_applied(Map::empty(), u.attributes@)
    &&& e.inventory_additions@ == Map::<u32, crate::entity::Item>::empty()
    &&& e.inventory_removals@ == Set::<u32>::empty()
    &&& e.action == EntityAction::Off
    &&& e.position_bits == match u.position_bits { Some(p) => p, None => [0u32, 0x3f80_0000u32, 0u32] }
    &&& e.orientation_bits == match u.orientation_bits { Some(o) => o, None => [0x3f80_0000u32, 0u32] }
    &&& e.tilt_bits == match u.tilt_bits { Some(t) => t, None => 0u32 }
    &&& e.inventory@ == updated_inventory(Map::empty(), u)
    &&& e.equipped@ == match u.equipped_updates { Some(v) => v@, None => Seq::empty() }
}

/// Entity list `es2` is `es` after update `u`: the update goes to the last
/// entity with its id, or, when there is none, to a new entity with that id
/// appended to the list.
pub open spec fn entity_update_step(es: Seq<Entity>, u: EntityUpdate, es2: Seq<Entity>) -> bool {
    let i = last_entity_index(es, u.id);
    if i >= 0 {
        &&& es2.len() == es.len()
        &&& forall|j: int| 0 <= j < es.len() && j != i ==> es2[j] == es[j]
        &&& applied_update(es[i], u, es2[i])
    } else {
        &&& es2.len() == es.len() + 1
        &&& es2.drop_last() == es
        &&& new_entity_from(u, es2.last())
    }
}


/// Entity list `es2` is `es` after the updates, applied one after the other.
pub open spec fn entity_updates_applied(es: Seq<Entity>, us: Seq<EntityUpdate>, es2: Seq<Entity>) -> bool
    decreases us.len(),
{
    if us.len() == 0 {
        es2 == es
    } else {
        exists|mid: Seq<Entity>|
            entity_updates_applied(es, us.drop_last(), mid) && #[trigger] entity_update_step(mid, us.last(), es2)
    }
}


/// The ids of a list of entities, in order.
pub open spec fn entity_ids(es: Seq<Entity>) -> Seq<u32> {
    es.map_values(|e: Entity| e.id)
}

/// The ids of a list of updates, in order.
pub open spec fn update_ids(us: Seq<EntityUpdate>) -> Seq<u32> {
    us.map_values(|u: EntityUpdate| u.id)
}

/// `ids` followed by each id of `uids` that is not already there, in order
/// of first appearance.
pub open spec fn appended_ids(ids: Seq<u32>, uids: Seq<u32>) -> Seq<u32>
    decreases uids.len(),
{
    if uids.len() == 0 {
        ids
    } else {
        let prev = appended_ids(ids, uids.drop_last());
        if prev.contains(uids.last()) {
            prev
        } else {
            prev.push(uids.last())
        }
    }
}

/// One update step keeps the ids of the list, adding the update's id at the
/// end when no entity had it.
proof fn lemma_update_step_ids(es: Seq<Entity>, u: EntityUpdate, es2: Seq<Entity>)
    requires
        entity_update_step(es, u, es2),
    ensures
        entity_ids(es2) == if entity_ids(es).contains(u.id) {
            entity_ids(es)
        } else {
            entity_ids(es).push(u.id)
        },
{
    let i = last_entity_index(es, u.id);
    if entity_ids(es).contains(u.id) {
        let k = choose|k: int| 0 <= k < entity_ids(es).len() && entity_ids(es)[k] == u.id;
        assert(es[k].id == u.id);
        lemma_last_index_exists(es, u.id, k);
        assert(entity_ids(es2) =~= entity_ids(es));
    } else {
        assert(!exists|j: int| 0 <= j < es.len() && es[j].id == u.id) by {
            if exists|j: int| 0 <= j < es.len() && es[j].id == u.id {
                let j = choose|j: int| 0 <= j < es.len() && es[j].id == u.id;
                assert(entity_ids(es)[j] == u.id);
            }
        }
        assert(entity_ids(es2) =~= entity_ids(es).push(u.id));
    }
}

/// When some entity has the id, `last_entity_index` names the last one.
proof fn lemma_last_index_exists(es: Seq<Entity>, id: u32, k: int)
    requires
        0 <= k < es.len(),
        es[k].id == id,
    ensures
        0 <= last_entity_index(es, id) < es.len(),
        es[last_entity_index(es, id)].id == id,
        forall|j: int| last_entity_index(es, id) < j < es.len() ==> es[j].id != id,
    decreases es.len() - k,
{
    if exists|j: int| k < j < es.len() && es[j].id == id {
        let j = choose|j: int| k < j < es.len() && es[j].id == id;
        lemma_last_index_exists(es, id, j);
    } else {
        assert(exists|i: int| 0 <= i < es.len() && es[i].id == id && forall|j: int| i < j < es.len() ==> es[j].id != id) by {
            assert(forall|j: int| k < j < es.len() ==> es[j].id != id);
        }
    }
}

/// `appended_ids` keeps `ids` in front, holds every id of `uids`, holds
/// nothing else, and has no duplicates when `ids` has none.
proof fn lemma_appended_ids(ids: Seq<u32>, uids: Seq<u32>)
    ensures
        appended_ids(ids, uids).len() >= ids.len(),
        appended_ids(ids, uids).take(ids.len() as int) == ids,
        forall|k: int| 0 <= k < uids.len() ==> appended_ids(ids, uids).contains(#[trigger] uids[k]),
        forall|x: u32| #[trigger] appended_ids(ids, uids).contains(x) ==> ids.contains(x) || uids.contains(x),
        ids.no_duplicates() ==> appended_ids(ids, uids).no_duplicates(),
    decreases uids.len(),
{
    if uids.len() > 0 {
        let pre = uids.drop_last();
        lemma_appended_ids(ids, pre);
        let prev = appended_ids(ids, pre);
        let cur = appended_ids(ids, uids);
        if !prev.contains(uids.last()) {
            assert(cur.take(ids.len() as int) =~= prev.take(ids.len() as int));
            if ids.no_duplicates() {
                assert forall|a: int, b: int| 0 <= a < cur.len() && 0 <= b < cur.len() && a != b implies cur[a] != cur[b] by {
                    if a == prev.len() {
                        assert(prev.contains(cur[b]));
                    } else if b == prev.len() {
                        assert(prev.contains(cur[a]));
                    }
                }
            }
            assert(cur[prev.len() as int] == uids.last());
            assert(cur.contains(uids.last()));
        }
        assert forall|k: int| 0 <= k < uids.len() implies cur.contains(#[trigger] uids[k]) by {
            if k < pre.len() {
                assert(pre[k] == uids[k]);
                assert(prev.contains(pre[k]));
                let p = choose|p: int| 0 <= p < prev.len() && prev[p] == pre[k];
                assert(cur[p] == prev[p]);
            }
        }
        assert forall|x: u32| #[trigger] cur.contains(x) implies ids.contains(x) || uids.contains(x) by {
            if prev.contains(x) {
                if pre.contains(x) {
                    let p = choose|p: int| 0 <= p < pre.len() && pre[p] == x;
                    assert(uids[p] == x);
                }
            } else {
                assert(x == uids.last());
                assert(uids[uids.len() - 1] == x);
            }
        }
    }
}

/// Processing a list of updates keeps every entity where it was with its id,
/// appends one new entity for each update id that no entity had, in order of
/// first appearance, and keeps entity ids distinct: afterwards every update's
/// id belongs to exactly one entity.
pub proof fn lemma_process_updates_ids(es: Seq<Entity>, us: Seq<EntityUpdate>, es2: Seq<Entity>)
    requires
        entity_updates_applied(es, us, es2),
    ensures
        entity_ids(es2) == appended_ids(entity_ids(es), update_ids(us)),
        es2.len() >= es.len(),
        forall|i: int| 0 <= i < es.len() ==> #[trigger] es2[i].id == es[i].id,
        forall|k: int| 0 <= k < us.len() ==> entity_ids(es2).contains(#[trigger] us[k].id),
        entity_ids(es).no_duplicates() ==> entity_ids(es2).no_duplicates(),
    decreases us.len(),
{
    if us.len() == 0 {
    } else {
        let mid = choose|mid: Seq<Entity>|
            entity_updates_applied(es, us.drop_last(), mid) && #[trigger] entity_update_step(mid, us.last(), es2);
        lemma_process_updates_ids(es, us.drop_last(), mid);
        lemma_update_step_ids(mid, us.last(), es2);
        assert(update_ids(us.drop_last()) =~= update_ids(us).drop_last());
        assert(update_ids(us).last() == us.last().id);
    }
    lemma_appended_ids(entity_ids(es), update_ids(us));
    assert forall|i: int| 0 <= i < es.len() implies #[trigger] es2[i].id == es[i].id by {
        assert(entity_ids(es2).take(entity_ids(es).len() as int)[i] == entity_ids(es)[i]);
    }
    assert forall|k: int| 0 <= k < us.len() implies entity_ids(es2).contains(#[trigger] us[k].id) by {
        assert(update_ids(us)[k] == us[k].id);
    }
}


/// The last position of an item with this id, or -1.
pub open spec fn last_item_index(items: Seq<Item>, id: u32) -> int {
    if exists|i: int| 0 <= i < items.len() && items[i].id == id {
        choose|i: int| 0 <= i < items.len() && items[i].id == id && forall|j: int| i < j < items.len() ==> items[j].id != id
    } else {
        -1
    }
}

/// Item list `items2` is `items` after update `u`: the update goes to the
/// last item with its id, or, when there is none, to a new item with that id
/// appended to the list.
pub open spec fn item_update_step(items: Seq<Item>, u: ItemUpdate, items2: Seq<Item>) -> bool {
    let i = last_item_index(items, u.id);
    if i >= 0 {
        &&& items2.len() == items.len()
        &&& forall|j: int| 0 <= j < items.len() && j != i ==> items2[j] == items[j]
        &&& applied_item_update(items[i], u, items2[i])
    } else {
        &&& items2.len() == items.len() + 1
        &&& items2.drop_last() == items
        &&& items2.last() == Item {
            id: u.id,
            position_bits: match u.position_bits { Some(p) => p, None => [0u32, 0u32, 0u32] },
            dirty_flags: 0,
        }
    }
}

/// Item list `items2` is `items` after the updates, applied one after the other.
pub open spec fn item_updates_applied(items: Seq<Item>, us: Seq<ItemUpdate>, items2: Seq<Item>) -> bool
    decreases us.len(),
{
    if us.len() == 0 {
        items2 == items
    } else {
        exists|mid: Seq<Item>|
            item_updates_applied(items, us.drop_last(), mid) && #[trigger] item_update_step(mid, us.last(), items2)
    }
}

impl Server {
    /// Applies one entity update to a list of entities: to the last entity
    /// with the update's id, or to a new entity appended to the list.
    pub fn process_entity_update(entities: &mut Vec<Entity>, update: EntityUpdate)
        ensures
            entity_update_step(old(entities)@, update, final(entities)@),
    {
        let ghost es = entities@;
        let mut i: usize = entities.len();
        while i > 0 && entities[i - 1].id != update.id
            invariant
                i <= entities@.len(),
                entities@ == es,
                forall|j: int| i <= j < es.len() ==> es[j].id != update.id,
            decreases i,
        {
            i -= 1;
        }
        if i > 0 {
            let k = i - 1;
            proof {
                let c = last_entity_index(es, update.id);
                assert(es[k as int].id == update.id);
                assert(0 <= c < es.len() && es[c].id == update.id && forall|j: int| c < j < es.len() ==> es[j].id != update.id);
                if c < k {
                    assert(es[k as int].id != update.id);
                }
                if k < c {
                    assert(es[c].id != update.id);
                }
            }
            let mut e = entities.remove(k);
            e.apply_update(update);
            entities.insert(k, e);
            proof {
                assert forall|j: int| 0 <= j < es.len() && j != k implies entities@[j] == es[j] by {}
            }
        } else {
            let mut e = Entity::new();
            e.id = update.id;
            let ghost e0 = e;
            e.apply_update(update);
            entities.push(e);
            proof {
                assert(entities@.drop_last() =~= es);
                assert(updated_inventory(e0.inventory@, update) =~= updated_inventory(Map::empty(), update));
                assert(e0.equipped@ =~= Seq::<(String, u32)>::empty());
                assert(dirty_names(e0) =~= Set::<Seq<char>>::empty());
                assert(attr_map(e0.attributes@) =~= Map::empty());
                assert(Set::<Seq<char>>::empty() + attr_names(update.attributes@).to_set() =~= attr_names(update.attributes@).to_set());
            }
        }
    }

    /// Applies the entity updates one after the other (see `process_entity_update`).
    #[verifier::rlimit(40)]
    pub fn process_entity_updates(entities: &mut Vec<Entity>, updates: Vec<EntityUpdate>)
        ensures
            entity_updates_applied(old(entities)@, updates@, final(entities)@),
    {
        let ghost us = updates@;
        let ghost es0 = entities@;
        let mut rest = updates;
        let ghost mut k: int = 0;
        proof {
            assert(us.take(0) =~= Seq::<EntityUpdate>::empty());
        }
        while rest.len() > 0
            invariant
                0 <= k <= us.len(),
                rest@ == us.skip(k),
                entity_updates_applied(es0, us.take(k), entities@),
            decreases rest@.len(),
        {
            let u = rest.remove(0);
            let ghost mid = entities@;
            Self::process_entity_update(entities, u);
            proof {
                assert(u == us[k]);
                assert(us.take(k + 1).drop_last() =~= us.take(k));
                assert(us.take(k + 1).last() == us[k]);
                assert(entity_update_step(mid, us.take(k + 1).last(), entities@));
                k = k + 1;
                assert(rest@ =~= us.skip(k));
            }
        }
        proof {
            assert(us.take(k) =~= us);
        }
    }
    /// Applies one item update to a list of items: to the last item with the
    /// update's id, or to a new item appended to the list.
    pub fn process_item_update(items: &mut Vec<Item>, update: ItemUpdate)
        ensures
            item_update_step(old(items)@, update, final(items)@),
    {
        let ghost its = items@;
        let mut i: usize = items.len();
        while i > 0 && items[i - 1].id != update.id
            invariant
                i <= items@.len(),
                items@ == its,
                forall|j: int| i <= j < its.len() ==> its[j].id != update.id,
            decreases i,
        {
            i -= 1;
        }
        if i > 0 {
            let k = i - 1;
            proof {
                let c = last_item_index(its, update.id);
                assert(its[k as int].id == update.id);
                assert(0 <= c < its.len() && its[c].id == update.id && forall|j: int| c < j < its.len() ==> its[j].id != update.id);
                if c < k {
                    assert(its[k as int].id != update.id);
                }
                if k < c {
                    assert(its[c].id != update.id);
                }
            }
            let mut it = items[k];
            it.apply_update(update);
            items.set(k, it);
        } else {
            let mut it = Item::new(update.id);
            it.apply_update(update);
            items.push(it);
            proof {
                assert(items@.drop_last() =~= its);
            }
        }
    }

    /// Applies the item updates one after the other (see `process_item_update`).
    pub fn process_item_updates(items: &mut Vec<Item>, updates: Vec<ItemUpdate>)
        ensures
            item_updates_applied(old(items)@, updates@, final(items)@),
    {
        let ghost us = updates@;
        let ghost its0 = items@;
        let mut k: usize = 0;
        proof {
            assert(us.take(0) =~= Seq::<ItemUpdate>::empty());
        }
        while k < updates.len()
            invariant
                k <= us.len(),
                updates@ == us,
                item_updates_applied(its0, us.take(k as int), items@),
            decreases us.len() - k,
        {
            let ghost mid = items@;
            Self::process_item_update(items, updates[k]);
            proof {
                assert(us.take(k + 1).drop_last() =~= us.take(k as int));
                assert(us.take(k + 1).last() == us[k as int]);
                assert(item_update_step(mid, us.take(k + 1).last(), items@));
            }
            k += 1;
        }
        proof {
            assert(us.take(k as int) =~= us);
        }
    }
}

} // verus!
