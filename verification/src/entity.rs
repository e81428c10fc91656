use std::collections::{HashMap, HashSet};
use vstd::prelude::*;

use crate::attrs::{attr_map, attr_names, attr_view, attrs_applied, copy_attr, get_attr, AttrValue};
use crate::message::EntityAction;
use crate::slots::{equipped_in, first_slot, slot_set};
use crate::text::{from_literal, str_eq};

verus! {

broadcast use vstd::std_specs::hash::group_hash_axioms;

/// An item: its id, its position (the bit patterns of its `f32` coordinates)
/// and the markers of its changes that are not sent yet. Its attribute values
/// and contents are kept outside the verified core.
#[derive(Clone, Copy, Debug)]
pub struct Item {
    pub id: u32,
    pub position_bits: [u32; 3],
    /// Bitmask of changed fields (see the `DIRTY_` constants).
    pub dirty_flags: u8,
}

/// The changes of an item that are sent to clients.
#[derive(Clone, Copy, Debug)]
pub struct ItemUpdate {
    pub id: u32,
    pub position_bits: Option<[u32; 3]>,
}

/// `u` holds exactly the changes of item `it`: its id, and its position when
/// the position is flagged as changed.
pub open spec fn is_item_update_of(u: ItemUpdate, it: Item) -> bool {
    &&& u.id == it.id
    &&& u.position_bits == if it.dirty_flags & DIRTY_POSITION != 0 { Some(it.position_bits) } else { None }
}

/// Item `it2` is item `it` after update `u`: nothing changes when the ids
/// differ; otherwise the position is taken over when `u` carries one.
pub open spec fn applied_item_update(it: Item, u: ItemUpdate, it2: Item) -> bool {
    &&& it2.id == it.id
    &&& it2.dirty_flags == it.dirty_flags
    &&& it2.position_bits == if u.id == it.id {
        match u.position_bits { Some(p) => p, None => it.position_bits }
    } else {
        it.position_bits
    }
}

impl Item {
    /// A new item with the given id at the origin, with no changes.
    pub fn new(id: u32) -> (it: Self)
        ensures
            it.id == id,
            it.position_bits == [0u32, 0u32, 0u32],
            it.dirty_flags == 0,
    {
        Item { id, position_bits: [0, 0, 0], dirty_flags: 0 }
    }

    /// Moves the item (coordinates as `f32` bit patterns) and marks the position as changed.
    pub fn set_position(&mut self, position_bits: [u32; 3])
        ensures
            final(self).id == old(self).id,
            final(self).position_bits == position_bits,
            final(self).dirty_flags == old(self).dirty_flags | DIRTY_POSITION,
    {
        self.position_bits = position_bits;
        self.dirty_flags = self.dirty_flags | DIRTY_POSITION;
    }

    /// Whether the item has changes that are not sent yet.
    pub fn is_dirty(&self) -> (r: bool)
        ensures
            r == (self.dirty_flags != 0),
    {
        self.dirty_flags != 0
    }

    /// The changes of the item since the last clear.
    pub fn get_update(&self) -> (u: ItemUpdate)
        ensures
            is_item_update_of(u, *self),
    {
        ItemUpdate {
            id: self.id,
            position_bits: if self.dirty_flags & DIRTY_POSITION != 0 { Some(self.position_bits) } else { None },
        }
    }

    /// Forgets the item's changes.
    pub fn clear_dirty(&mut self)
        ensures
            final(self).dirty_flags == 0,
            final(self).id == old(self).id,
            final(self).position_bits == old(self).position_bits,
    {
        self.dirty_flags = 0;
    }

    /// Takes over the changes of an update for this item; an update for
    /// another id changes nothing.
    pub fn apply_update(&mut self, update: ItemUpdate)
        ensures
            applied_item_update(*old(self), update, *final(self)),
    {
        if update.id == self.id {
            match update.position_bits {
                Some(p) => {
                    self.position_bits = p;
                },
                None => {},
            }
        }
    }
}

/// Dirty flag: position changed.
pub const DIRTY_POSITION: u8 = 0b1u8;
/// Dirty flag: orientation changed.
pub const DIRTY_ORIENTATION: u8 = 0b10u8;
/// Dirty flag: tilt changed.
pub const DIRTY_TILT: u8 = 0b100u8;
/// Dirty flag: inventory changed.
pub const DIRTY_INVENTORY: u8 = 0b1000u8;
/// Dirty flag: equipped items changed.
pub const DIRTY_EQUIPPED: u8 = 0b10000u8;
/// Dirty flag: wallet changed.
pub const DIRTY_WALLET: u8 = 0b100000u8;
/// All static fields dirty.
pub const DIRTY_STATIC: u8 = 0b11111u8;


/// The server side state of an entity that is synchronised with clients:
/// position, orientation and tilt (as the raw bit patterns of their `f32`
/// values), the current action, its named attributes, the dirty markers,
/// the inventory and the equipped slots.
#[derive(Debug)]
pub struct Entity {
    pub id: u32,
    pub creator_id: uuid::Uuid,
    pub orientation_bits: [u32; 2],
    pub position_bits: [u32; 3],
    pub tilt_bits: u32,
    pub action: EntityAction,
    /// Named attribute values (the first entry of a name counts).
    pub attributes: Vec<(String, AttrValue)>,
    /// Bitmask of changed static fields (see the `DIRTY_` constants).
    pub dirty_flags: u8,
    /// Names of changed attributes, each once.
    pub dirty_attributes: Vec<String>,
    pub inventory: HashMap<u32, Item>,
    pub inventory_additions: HashMap<u32, Item>,
    pub inventory_removals: HashSet<u32>,
    /// Slot name to item id, each slot once.
    pub equipped: Vec<(String, u32)>,
}

/// A copy of a set of ids.
pub fn copy_id_set(s: &HashSet<u32>) -> (r: HashSet<u32>)
    ensures
        r@ == s@,
{
    let mut r: HashSet<u32> = HashSet::new();
    for x in it: s.iter()
        invariant
            r@ == it.seq().take(it.index()).unref().to_set(),
            it.seq().unref().to_set() == s@,
            it.index() == it.seq().len() ==> r@ == s@,
    {
        proof {
            assert(it.seq().take(it.index() + 1).unref() =~= it.seq().take(it.index()).unref().push(*x));
            crate::util::lemma_push_to_set(it.seq().take(it.index()).unref(), *x);
            assert(it.seq().take(it.seq().len() as int) =~= it.seq());
        }
        r.insert(*x);
    }
    r
}

/// A copy of the equipped slots.
pub fn copy_slots(v: &Vec<(String, u32)>) -> (r: Vec<(String, u32)>)
    ensures
        r@ == v@,
{
    let mut r: Vec<(String, u32)> = Vec::new();
    let mut i: usize = 0;
    while i < v.len()
        invariant
            i <= v@.len(),
            r@ == v@.take(i as int),
        decreases v@.len() - i,
    {
        let name = v[i].0.clone();
        r.push((name, v[i].1));
        i += 1;
        assert(r@ =~= v@.take(i as int));
    }
    assert(v@.take(i as int) =~= v@);
    r
}

/// The changes of an entity that are sent to the other side: the entity's id
/// and, for each part that changed, its new value.
#[derive(Debug)]
pub struct EntityUpdate {
    pub id: u32,
    pub position_bits: Option<[u32; 3]>,
    pub orientation_bits: Option<[u32; 2]>,
    pub tilt_bits: Option<u32>,
    /// The changed attributes with their values.
    pub attributes: Vec<(String, AttrValue)>,
    pub inventory_additions: Option<HashMap<u32, Item>>,
    pub inventory_removals: Option<HashSet<u32>>,
    pub equipped_updates: Option<Vec<(String, u32)>>,
}

/// The names of the changed attributes of an entity.
pub open spec fn dirty_names(e: Entity) -> Set<Seq<char>> {
    e.dirty_attributes@.map_values(|s: String| s@).to_set()
}

/// `u` holds exactly the changes of entity `a`: its id, each static field
/// whose dirty flag is set, each changed attribute that has a value (with
/// that value), the recorded inventory additions and removals when there are
/// any, and the equipped slots when they changed.
pub open spec fn is_update_of(u: EntityUpdate, a: Entity) -> bool {
    &&& u.id == a.id
    &&& forall|j: int|
        0 <= j < u.attributes@.len() ==> {
            &&& dirty_names(a).contains(#[trigger] u.attributes@[j].0@)
            &&& attr_map(a.attributes@).contains_key(u.attributes@[j].0@)
            &&& attr_view(u.attributes@[j].1) == attr_map(a.attributes@)[u.attributes@[j].0@]
        }
    &&& forall|k: Seq<char>|
        dirty_names(a).contains(k) && #[trigger] attr_map(a.attributes@).contains_key(k) ==> attr_names(
            u.attributes@,
        ).contains(k)
    &&& u.position_bits == if a.dirty_flags & DIRTY_POSITION != 0 { Some(a.position_bits) } else { None }
    &&& u.orientation_bits == if a.dirty_flags & DIRTY_ORIENTATION != 0 { Some(a.orientation_bits) } else { None }
    &&& u.tilt_bits == if a.dirty_flags & DIRTY_TILT != 0 { Some(a.tilt_bits) } else { None }
    &&& match u.inventory_additions {
        Some(m) => m@ == a.inventory_additions@ && !a.inventory_additions@.is_empty(),
        None => a.inventory_additions@.is_empty(),
    }
    &&& match u.inventory_removals {
        Some(r) => r@ == a.inventory_removals@ && !a.inventory_removals@.is_empty(),
        None => a.inventory_removals@.is_empty(),
    }
    &&& match u.equipped_updates {
        Some(v) => v@ == a.equipped@ && a.dirty_flags & DIRTY_EQUIPPED != 0,
        None => a.dirty_flags & DIRTY_EQUIPPED == 0,
    }
}

/// The inventory after an update: its additions inserted (replacing items
/// with the same id), then its removals taken out.
pub open spec fn updated_inventory(inv: Map<u32, Item>, u: EntityUpdate) -> Map<u32, Item> {
    let added = match u.inventory_additions {
        Some(m) => inv.union_prefer_right(m@),
        None => inv,
    };
    match u.inventory_removals {
        Some(r) => added.remove_keys(r@),
        None => added,
    }
}

/// Entity `b2` is entity `b` after applying update `u`: nothing changes when
/// the ids differ; otherwise each part that `u` carries is taken over, and
/// the attributes it carries are set and marked as changed.
pub open spec fn applied_update(b: Entity, u: EntityUpdate, b2: Entity) -> bool {
    &&& b2.id == b.id
    &&& b2.dirty_flags == b.dirty_flags
    &&& if u.id != b.id {
        &&& b2.dirty_attributes == b.dirty_attributes
        &&& b2.attributes == b.attributes
    } else {
        &&& dirty_names(b2) == dirty_names(b) + attr_names(u.attributes@).to_set()
        &&& attr_map(b2.attributes@) == attrs_applied(attr_map(b.attributes@), u.attributes@)
    }
    &&& b2.inventory_additions@ == b.inventory_additions@
    &&& b2.inventory_removals@ == b.inventory_removals@
    &&& b2.action == b.action
    &&& if u.id != b.id {
        &&& b2.position_bits == b.position_bits
        &&& b2.orientation_bits == b.orientation_bits
        &&& b2.tilt_bits == b.tilt_bits
        &&& b2.inventory@ == b.inventory@
        &&& b2.equipped@ == b.equipped@
    } else {
        &&& b2.position_bits == match u.position_bits { Some(p) => p, None => b.position_bits }
        &&& b2.orientation_bits == match u.orientation_bits { Some(o) => o, None => b.orientation_bits }
        &&& b2.tilt_bits == match u.tilt_bits { Some(t) => t, None => b.tilt_bits }
        &&& b2.inventory@ == updated_inventory(b.inventory@, u)
        &&& b2.equipped@ == match u.equipped_updates { Some(v) => v@, None => b.equipped@ }
    }
}


/// Inserting all pairs of `m` into `start` gives `start` updated by `m`.
proof fn lemma_inserted_pairs(start: Map<u32, Item>, m: Map<u32, Item>, inv: Map<u32, Item>, pairs: Seq<(&u32, &Item)>, n: int)
    requires
        0 <= n <= pairs.len(),
        forall|key: u32|
            #[trigger] inv.contains_key(key) <==> start.contains_key(key) || (exists|i: int|
                0 <= i < n && *pairs[i].0 == key),
        forall|key: u32|
            #[trigger] inv.contains_key(key) ==> inv[key] == if exists|i: int| 0 <= i < n && *pairs[i].0 == key {
                m[key]
            } else {
                start[key]
            },
        forall|i: int| 0 <= i < pairs.len() ==> m.contains_key(*(#[trigger] pairs[i]).0) && m[*pairs[i].0] == *pairs[i].1,
        forall|key: u32| #[trigger] m.contains_key(key) ==> pairs.contains((&key, &m[key])),
    ensures
        n == pairs.len() ==> inv == start.union_prefer_right(m),
{
    if n == pairs.len() {
        assert forall|key: u32| #[trigger] m.contains_key(key) implies exists|i: int| 0 <= i < n && *pairs[i].0 == key by {
            assert(pairs.contains((&key, &m[key])));
            let i = choose|i: int| 0 <= i < pairs.len() && pairs[i] == (&key, &m[key]);
            assert(*pairs[i].0 == key);
        }
        assert forall|key: u32| (exists|i: int| 0 <= i < n && *pairs[i].0 == key) implies #[trigger] m.contains_key(key) by {
            let i = choose|i: int| 0 <= i < n && *pairs[i].0 == key;
            assert(m.contains_key(*pairs[i].0));
        }
        assert(inv =~= start.union_prefer_right(m));
    }
}

/// The recorded inventory changes agree with the inventory: every recorded
/// addition is in it with the same item, no recorded removal is.
pub open spec fn changes_consistent(e: Entity) -> bool {
    &&& forall|k: u32|
        #[trigger] e.inventory_additions@.contains_key(k) ==> e.inventory@.contains_key(k)
            && e.inventory@[k] == e.inventory_additions@[k]
    &&& forall|k: u32| #[trigger] e.inventory_removals@.contains(k) ==> !e.inventory@.contains_key(k)
}

/// Sending an entity's changes to a copy of it brings the copy in line: when
/// the copy agreed with the entity on every item that the recorded changes do
/// not touch, it afterwards has the same inventory, it has the entity's
/// position, orientation, tilt and equipped slots wherever those were flagged,
/// and every changed attribute of the entity has the entity's value.
pub proof fn lemma_update_syncs(a: Entity, u: EntityUpdate, b: Entity, b2: Entity)
    requires
        changes_consistent(a),
        is_update_of(u, a),
        applied_update(b, u, b2),
        b.id == a.id,
        forall|k: u32|
            !a.inventory_additions@.contains_key(k) && !a.inventory_removals@.contains(k) ==> (
            #[trigger] b.inventory@.contains_key(k) == a.inventory@.contains_key(k)) && (a.inventory@.contains_key(k)
                ==> b.inventory@[k] == a.inventory@[k]),
    ensures
        b2.inventory@ == a.inventory@,
        a.dirty_flags & DIRTY_POSITION != 0 ==> b2.position_bits == a.position_bits,
        a.dirty_flags & DIRTY_ORIENTATION != 0 ==> b2.orientation_bits == a.orientation_bits,
        a.dirty_flags & DIRTY_TILT != 0 ==> b2.tilt_bits == a.tilt_bits,
        a.dirty_flags & DIRTY_EQUIPPED != 0 ==> b2.equipped@ == a.equipped@,
        forall|k: Seq<char>|
            dirty_names(a).contains(k) && #[trigger] attr_map(a.attributes@).contains_key(k) ==> attr_map(
                b2.attributes@,
            ).contains_key(k) && attr_map(b2.attributes@)[k] == attr_map(a.attributes@)[k],
{
    crate::attrs::lemma_attrs_applied(attr_map(b.attributes@), u.attributes@, attr_map(a.attributes@));
    let added = match u.inventory_additions {
        Some(m) => b.inventory@.union_prefer_right(m@),
        None => b.inventory@,
    };
    assert forall|k: u32| #[trigger] b2.inventory@.contains_key(k) == a.inventory@.contains_key(k) by {
        if a.inventory_additions@.contains_key(k) {
            assert(!a.inventory_removals@.contains(k));
        }
    }
    assert forall|k: u32| #[trigger] b2.inventory@.contains_key(k) implies b2.inventory@[k] == a.inventory@[k] by {
        if a.inventory_additions@.contains_key(k) {
            assert(!a.inventory_removals@.contains(k));
        }
    }
    assert(b2.inventory@ =~= a.inventory@);
}

impl Entity {
    /// A new entity with id 0 at (0, 1, 0) facing +x, doing nothing, clean,
    /// with an empty inventory.
    pub fn new() -> (e: Self)
        ensures
            e.id == 0,
            e.orientation_bits == [0x3f80_0000u32, 0u32],
            e.position_bits == [0u32, 0x3f80_0000u32, 0u32],
            e.tilt_bits == 0,
            e.action == EntityAction::Off,
            e.dirty_flags == 0,
            e.dirty_attributes@.len() == 0,
            e.attributes@.len() == 0,
            e.inventory@ == Map::<u32, Item>::empty(),
            e.inventory_additions@ == Map::<u32, Item>::empty(),
            e.inventory_removals@ == Set::<u32>::empty(),
            e.equipped@.len() == 0,
            changes_consistent(e),
    {
        Entity {
            id: 0,
            creator_id: crate::ids::new_uuid(),
            orientation_bits: [0x3f80_0000, 0],
            position_bits: [0, 0x3f80_0000, 0],
            tilt_bits: 0,
            action: EntityAction::Off,
            attributes: Vec::new(),
            dirty_flags: 0,
            dirty_attributes: Vec::new(),
            inventory: HashMap::new(),
            inventory_additions: HashMap::new(),
            inventory_removals: HashSet::new(),
            equipped: Vec::new(),
        }
    }

    /// Marks static fields as changed.
    pub fn mark_dirty_field(&mut self, field: u8)
        ensures
            final(self).dirty_flags == old(self).dirty_flags | field,
            final(self).dirty_attributes == old(self).dirty_attributes,
            final(self).inventory@ == old(self).inventory@,
            final(self).inventory_additions@ == old(self).inventory_additions@,
            final(self).inventory_removals@ == old(self).inventory_removals@,
            final(self).equipped == old(self).equipped,
            final(self).position_bits == old(self).position_bits,
            final(self).orientation_bits == old(self).orientation_bits,
            final(self).tilt_bits == old(self).tilt_bits,
            final(self).id == old(self).id,
            final(self).creator_id == old(self).creator_id,
            final(self).action == old(self).action,
            final(self).attributes == old(self).attributes,
    {
        self.dirty_flags = self.dirty_flags | field;
    }

    /// Marks an attribute as changed.
    pub fn mark_dirty_attribute(&mut self, key: &str)
        ensures
            (exists|k: int| 0 <= k < old(self).dirty_attributes@.len() && old(self).dirty_attributes@[k]@ == key@)
                ==> final(self).dirty_attributes@ == old(self).dirty_attributes@,
            !(exists|k: int| 0 <= k < old(self).dirty_attributes@.len() && old(self).dirty_attributes@[k]@ == key@)
                ==> final(self).dirty_attributes@.len() == old(self).dirty_attributes@.len() + 1
                && final(self).dirty_attributes@.drop_last() == old(self).dirty_attributes@
                && final(self).dirty_attributes@.last()@ == key@,
            final(self).dirty_flags == old(self).dirty_flags,
            final(self).inventory@ == old(self).inventory@,
            final(self).equipped == old(self).equipped,
            final(self).attributes == old(self).attributes,
            final(self).inventory_additions@ == old(self).inventory_additions@,
            final(self).inventory_removals@ == old(self).inventory_removals@,
            final(self).id == old(self).id,
            final(self).creator_id == old(self).creator_id,
            final(self).action == old(self).action,
            final(self).position_bits == old(self).position_bits,
            final(self).orientation_bits == old(self).orientation_bits,
            final(self).tilt_bits == old(self).tilt_bits,
            dirty_names(*final(self)) == dirty_names(*old(self)).insert(key@),
    {
        let mut i: usize = 0;
        while i < self.dirty_attributes.len()
            invariant
                i <= self.dirty_attributes.len(),
                self.dirty_attributes == old(self).dirty_attributes,
                forall|k: int| 0 <= k < i ==> self.dirty_attributes@[k]@ != key@,
            decreases self.dirty_attributes.len() - i,
        {
            if str_eq(self.dirty_attributes[i].as_str(), key) {
                proof {
                    let names = self.dirty_attributes@.map_values(|s: String| s@);
                    assert(names[i as int] == key@);
                    assert(dirty_names(*self).insert(key@) =~= dirty_names(*self));
                }
                return;
            }
            i += 1;
        }
        let ghost before = self.dirty_attributes@;
        self.dirty_attributes.push(from_literal(key));
        assert(self.dirty_attributes@.drop_last() =~= old(self).dirty_attributes@);
        proof {
            assert(self.dirty_attributes@.map_values(|s: String| s@) =~= before.map_values(|s: String| s@).push(key@));
            crate::util::lemma_push_to_set(before.map_values(|s: String| s@), key@);
        }
    }

    /// Sets the XZ position (as `f32` bit patterns) and marks the position as changed.
    pub fn set_pos_xz(&mut self, x_bits: u32, z_bits: u32)
        ensures
            final(self).position_bits == [x_bits, old(self).position_bits[1], z_bits],
            final(self).dirty_flags == old(self).dirty_flags | DIRTY_POSITION,
            final(self).inventory@ == old(self).inventory@,
            final(self).orientation_bits == old(self).orientation_bits,
    {
        self.position_bits = [x_bits, self.position_bits[1], z_bits];
        self.mark_dirty_field(DIRTY_POSITION);
    }

    /// Adds an item to the inventory, records the addition (undoing an earlier
    /// removal of the same id) and marks the inventory as changed.
    pub fn add_item(&mut self, item: Item)
        ensures
            final(self).inventory@ == old(self).inventory@.insert(item.id, item),
            final(self).inventory_additions@ == old(self).inventory_additions@.insert(item.id, item),
            final(self).inventory_removals@ == old(self).inventory_removals@.remove(item.id),
            final(self).dirty_flags == old(self).dirty_flags | DIRTY_INVENTORY,
            changes_consistent(*old(self)) ==> changes_consistent(*final(self)),
            final(self).equipped == old(self).equipped,
            final(self).dirty_attributes == old(self).dirty_attributes,
            final(self).id == old(self).id,
            final(self).creator_id == old(self).creator_id,
            final(self).action == old(self).action,
            final(self).position_bits == old(self).position_bits,
            final(self).orientation_bits == old(self).orientation_bits,
            final(self).tilt_bits == old(self).tilt_bits,
            final(self).attributes == old(self).attributes,
    {
        self.inventory.insert(item.id, item);
        self.inventory_removals.remove(&item.id);
        self.inventory_additions.insert(item.id, item);
        self.mark_dirty_field(DIRTY_INVENTORY);
    }

    /// Removes an item from the inventory and returns it, recording the removal
    /// (undoing an earlier addition) and marking the inventory as changed;
    /// `None` and no change when there is no such item.
    pub fn remove_item(&mut self, item_id: u32) -> (r: Option<Item>)
        ensures
            old(self).inventory@.contains_key(item_id) ==> {
                &&& r == Some(old(self).inventory@[item_id])
                &&& final(self).inventory@ == old(self).inventory@.remove(item_id)
                &&& final(self).inventory_removals@ == old(self).inventory_removals@.insert(item_id)
                &&& final(self).inventory_additions@ == old(self).inventory_additions@.remove(item_id)
                &&& final(self).dirty_flags == old(self).dirty_flags | DIRTY_INVENTORY
            },
            !old(self).inventory@.contains_key(item_id) ==> {
                &&& r is None
                &&& final(self).inventory@ == old(self).inventory@
                &&& final(self).inventory_removals@ == old(self).inventory_removals@
                &&& final(self).inventory_additions@ == old(self).inventory_additions@
                &&& final(self).dirty_flags == old(self).dirty_flags
            },
            final(self).equipped == old(self).equipped,
            final(self).dirty_attributes == old(self).dirty_attributes,
            changes_consistent(*old(self)) ==> changes_consistent(*final(self)),
    {
        match self.inventory.remove(&item_id) {
            Some(item) => {
                self.inventory_removals.insert(item_id);
                self.inventory_additions.remove(&item_id);
                self.mark_dirty_field(DIRTY_INVENTORY);
                Some(item)
            },
            None => None,
        }
    }

    /// The inventory item with this id.
    pub fn get_item(&self, item_id: u32) -> (r: Option<&Item>)
        ensures
            match r {
                Some(i) => self.inventory@.contains_key(item_id) && *i == self.inventory@[item_id],
                None => !self.inventory@.contains_key(item_id),
            },
    {
        self.inventory.get(&item_id)
    }

    /// The position of the entry for this slot.
    fn slot_index(&self, slot: &str) -> (r: Option<usize>)
        ensures
            match r {
                Some(k) => k as int == first_slot(self.equipped@, slot@) && k < self.equipped@.len()
                    && self.equipped@[k as int].0@ == slot@,
                None => first_slot(self.equipped@, slot@) == -1,
            },
    {
        let mut k: usize = 0;
        while k < self.equipped.len()
            invariant
                k <= self.equipped.len(),
                forall|j: int| 0 <= j < k ==> self.equipped@[j].0@ != slot@,
            decreases self.equipped.len() - k,
        {
            if str_eq(self.equipped[k].0.as_str(), slot) {
                proof {
                    crate::slots::lemma_first_slot_at(self.equipped@, slot@, k as int);
                }
                return Some(k);
            }
            k += 1;
        }
        proof {
            crate::slots::lemma_first_slot(self.equipped@, slot@);
            if first_slot(self.equipped@, slot@) >= 0 {
                let c = first_slot(self.equipped@, slot@);
                assert(self.equipped@[c].0@ == slot@);
            }
        }
        None
    }

    /// Equips an inventory item in a slot (replacing what was there) and marks
    /// the equipped slots as changed; refused when the item is not in the inventory.
    #[verifier::rlimit(30)]
    pub fn equip_item(&mut self, item_id: u32, slot: &str) -> (r: Result<(), String>)
        ensures
            old(self).inventory@.contains_key(item_id) ==> {
                &&& r is Ok
                &&& final(self).dirty_flags == old(self).dirty_flags | DIRTY_EQUIPPED
                &&& slot_set(old(self).equipped@, final(self).equipped@, slot@, item_id)
            },
            !old(self).inventory@.contains_key(item_id) ==> {
                &&& r is Err
                &&& r->Err_0@ == "Item not found in inventory."@
                &&& final(self).equipped == old(self).equipped
                &&& final(self).dirty_flags == old(self).dirty_flags
            },
            final(self).inventory@ == old(self).inventory@,
    {
        if self.inventory.contains_key(&item_id) {
            match self.slot_index(slot) {
                Some(k) => {
                    let (name, _previous) = self.equipped.remove(k);
                    self.equipped.insert(k, (name, item_id));
                    assert(self.equipped@ =~= old(self).equipped@.update(k as int, (old(self).equipped@[k as int].0, item_id)));
                },
                None => {
                    self.equipped.push((from_literal(slot), item_id));
                },
            }
            self.dirty_flags = self.dirty_flags | DIRTY_EQUIPPED;
            Ok(())
        } else {
            Err(from_literal("Item not found in inventory."))
        }
    }

    /// Empties a slot and marks the equipped slots as changed; refused when the slot is empty.
    pub fn unequip_item(&mut self, slot: &str) -> (r: Result<(), String>)
        ensures
            ({
                let k = first_slot(old(self).equipped@, slot@);
                if k >= 0 {
                    &&& r is Ok
                    &&& final(self).equipped@ == old(self).equipped@.remove(k)
                    &&& final(self).dirty_flags == old(self).dirty_flags | DIRTY_EQUIPPED
                } else {
                    &&& r is Err
                    &&& r->Err_0@ == "No item equipped in the given slot."@
                    &&& final(self).equipped == old(self).equipped
                    &&& final(self).dirty_flags == old(self).dirty_flags
                }
            }),
            final(self).inventory@ == old(self).inventory@,
    {
        match self.slot_index(slot) {
            Some(k) => {
                self.equipped.remove(k);
                self.dirty_flags = self.dirty_flags | DIRTY_EQUIPPED;
                Ok(())
            },
            None => Err(from_literal("No item equipped in the given slot.")),
        }
    }

    /// The item equipped in a slot.
    pub fn get_equipped_item(&self, slot: &str) -> (r: Option<u32>)
        ensures
            r == equipped_in(self.equipped@, slot@),
    {
        match self.slot_index(slot) {
            Some(k) => Some(self.equipped[k].1),
            None => None,
        }
    }

    /// Whether anything changed since the last clear.
    pub fn is_dirty(&self) -> (r: bool)
        ensures
            r == (self.dirty_flags != 0 || self.dirty_attributes@.len() > 0),
    {
        self.dirty_flags != 0 || self.dirty_attributes.len() > 0
    }

    /// Marks all static fields as changed and forgets changed attributes.
    pub fn set_static_dirty(&mut self)
        ensures
            final(self).dirty_flags == DIRTY_STATIC,
            final(self).dirty_attributes@.len() == 0,
            final(self).inventory@ == old(self).inventory@,
            final(self).equipped == old(self).equipped,
    {
        self.dirty_flags = DIRTY_STATIC;
        self.dirty_attributes = Vec::new();
    }

    /// Forgets all changes: flags, attributes, inventory additions and removals.
    pub fn clear_dirty(&mut self)
        ensures
            final(self).dirty_flags == 0,
            final(self).dirty_attributes@.len() == 0,
            final(self).inventory_additions@ == Map::<u32, Item>::empty(),
            final(self).inventory_removals@ == Set::<u32>::empty(),
            final(self).inventory@ == old(self).inventory@,
            final(self).equipped == old(self).equipped,
            changes_consistent(*final(self)),
            final(self).id == old(self).id,
            final(self).creator_id == old(self).creator_id,
            final(self).action == old(self).action,
            final(self).position_bits == old(self).position_bits,
            final(self).orientation_bits == old(self).orientation_bits,
            final(self).tilt_bits == old(self).tilt_bits,
            final(self).attributes == old(self).attributes,
    {
        self.dirty_flags = 0;
        self.dirty_attributes = Vec::new();
        self.inventory_additions.clear();
        self.inventory_removals.clear();
    }

    /// The changed attributes that have a value, with their values, in the
    /// order in which they were first changed.
    fn changed_attributes(&self) -> (r: Vec<(String, AttrValue)>)
        ensures
            forall|j: int|
                0 <= j < r@.len() ==> {
                    &&& dirty_names(*self).contains(#[trigger] r@[j].0@)
                    &&& attr_map(self.attributes@).contains_key(r@[j].0@)
                    &&& attr_view(r@[j].1) == attr_map(self.attributes@)[r@[j].0@]
                },
            forall|k: Seq<char>|
                dirty_names(*self).contains(k) && #[trigger] attr_map(self.attributes@).contains_key(k) ==> attr_names(
                    r@,
                ).contains(k),
    {
        let ghost names = self.dirty_attributes@.map_values(|s: String| s@);
        let ghost m = attr_map(self.attributes@);
        let mut r: Vec<(String, AttrValue)> = Vec::new();
        let mut i: usize = 0;
        while i < self.dirty_attributes.len()
            invariant
                i <= self.dirty_attributes@.len(),
                names == self.dirty_attributes@.map_values(|s: String| s@),
                m == attr_map(self.attributes@),
                forall|j: int|
                    0 <= j < r@.len() ==> {
                        &&& dirty_names(*self).contains(#[trigger] r@[j].0@)
                        &&& m.contains_key(r@[j].0@)
                        &&& attr_view(r@[j].1) == m[r@[j].0@]
                    },
                forall|t: int| 0 <= t < i && m.contains_key(#[trigger] names[t]) ==> attr_names(r@).contains(names[t]),
            decreases self.dirty_attributes@.len() - i,
        {
            let key = self.dirty_attributes[i].as_str();
            proof {
                assert(names[i as int] == key@);
                assert(names.contains(names[i as int]));
            }
            match get_attr(&self.attributes, key) {
                Some(v) => {
                    let ghost before = r@;
                    r.push((from_literal(key), copy_attr(v)));
                    proof {
                        assert(dirty_names(*self).contains(key@));
                        assert forall|j: int| 0 <= j < r@.len() implies {
                            &&& dirty_names(*self).contains(#[trigger] r@[j].0@)
                            &&& m.contains_key(r@[j].0@)
                            &&& attr_view(r@[j].1) == m[r@[j].0@]
                        } by {
                            if j < before.len() {
                                assert(r@[j] == before[j]);
                            }
                        }
                        assert(attr_names(r@) =~= attr_names(before).push(key@));
                        assert forall|t: int| 0 <= t < i + 1 && m.contains_key(#[trigger] names[t]) implies attr_names(
                            r@,
                        ).contains(names[t]) by {
                            if t < i {
                                let p = choose|p: int| 0 <= p < attr_names(before).len() && attr_names(before)[p] == names[t];
                                assert(attr_names(r@)[p] == names[t]);
                            } else {
                                assert(attr_names(r@)[before.len() as int] == key@);
                            }
                        }
                    }
                },
                None => {},
            }
            i += 1;
        }
        proof {
            assert forall|k: Seq<char>|
                dirty_names(*self).contains(k) && #[trigger] m.contains_key(k) implies attr_names(r@).contains(k) by {
                let t = choose|t: int| 0 <= t < names.len() && names[t] == k;
            }
        }
        r
    }

    /// Sets a named attribute and marks it as changed.
    pub fn set_attribute(&mut self, key: &str, value: AttrValue)
        ensures
            attr_map(final(self).attributes@) == attr_map(old(self).attributes@).insert(key@, attr_view(value)),
            dirty_names(*final(self)) == dirty_names(*old(self)).insert(key@),
            final(self).dirty_flags == old(self).dirty_flags,
            final(self).inventory@ == old(self).inventory@,
            final(self).inventory_additions@ == old(self).inventory_additions@,
            final(self).inventory_removals@ == old(self).inventory_removals@,
            final(self).equipped == old(self).equipped,
            final(self).id == old(self).id,
            final(self).creator_id == old(self).creator_id,
            final(self).action == old(self).action,
            final(self).position_bits == old(self).position_bits,
            final(self).orientation_bits == old(self).orientation_bits,
            final(self).tilt_bits == old(self).tilt_bits,
    {
        crate::attrs::set_attr(&mut self.attributes, key, value);
        self.mark_dirty_attribute(key);
    }

    /// The value of a named attribute, if it has one.
    pub fn get_attribute(&self, key: &str) -> (r: Option<&AttrValue>)
        ensures
            match r {
                Some(v) => attr_map(self.attributes@).contains_key(key@) && attr_map(self.attributes@)[key@] == attr_view(*v),
                None => !attr_map(self.attributes@).contains_key(key@),
            },
    {
        crate::attrs::get_attr(&self.attributes, key)
    }

    /// The changes since the last clear: the position, orientation and tilt
    /// when flagged, the inventory additions and removals when there are any,
    /// and the equipped slots when flagged.
    pub fn get_update(&self) -> (u: EntityUpdate)
        ensures
            is_update_of(u, *self),
    {
        EntityUpdate {
            id: self.id,
            position_bits: if self.dirty_flags & DIRTY_POSITION != 0 {
                Some(self.position_bits)
            } else {
                None
            },
            orientation_bits: if self.dirty_flags & DIRTY_ORIENTATION != 0 {
                Some(self.orientation_bits)
            } else {
                None
            },
            tilt_bits: if self.dirty_flags & DIRTY_TILT != 0 {
                Some(self.tilt_bits)
            } else {
                None
            },
            attributes: self.changed_attributes(),
            inventory_additions: if !self.inventory_additions.is_empty() {
                Some(self.inventory_additions.clone())
            } else {
                None
            },
            inventory_removals: if !self.inventory_removals.is_empty() {
                Some(copy_id_set(&self.inventory_removals))
            } else {
                None
            },
            equipped_updates: if self.dirty_flags & DIRTY_EQUIPPED != 0 {
                Some(copy_slots(&self.equipped))
            } else {
                None
            },
        }
    }

    /// Takes over the parts that an update of this entity carries: static
    /// fields, inventory additions then removals, and the equipped slots. An
    /// update for another entity id changes nothing.
    pub fn apply_update(&mut self, update: EntityUpdate)
        ensures
            applied_update(*old(self), update, *final(self)),
    {
        if self.id != update.id {
            return;
        }
        match update.position_bits {
            Some(p) => {
                self.position_bits = p;
            },
            None => {},
        }
        match update.orientation_bits {
            Some(o) => {
                self.orientation_bits = o;
            },
            None => {},
        }
        match update.tilt_bits {
            Some(t) => {
                self.tilt_bits = t;
            },
            None => {},
        }
        let ghost start = self.inventory@;
        match &update.inventory_additions {
            Some(m) => {
                for (k, v) in it: m.iter()
                    invariant
                        forall|key: u32|
                            #[trigger] self.inventory@.contains_key(key) <==> start.contains_key(key) || (
                            exists|i: int| 0 <= i < it.index() && *it.seq()[i].0 == key),
                        forall|key: u32|
                            #[trigger] self.inventory@.contains_key(key) ==> self.inventory@[key] == if exists|i: int|
                                0 <= i < it.index() && *it.seq()[i].0 == key {
                                m@[key]
                            } else {
                                start[key]
                            },
                        forall|i: int|
                            0 <= i < it.seq().len() ==> m@.contains_key(*(#[trigger] it.seq()[i]).0) && m@[*it.seq()[i].0]
                                == *it.seq()[i].1,
                        forall|key: u32| #[trigger] m@.contains_key(key) ==> it.seq().contains((&key, &m@[key])),
                        self.id == old(self).id,
                        self.dirty_flags == old(self).dirty_flags,
                        self.dirty_attributes == old(self).dirty_attributes,
                        self.attributes == old(self).attributes,
                        self.inventory_additions@ == old(self).inventory_additions@,
                        self.inventory_removals@ == old(self).inventory_removals@,
                        self.action == old(self).action,
                        self.equipped == old(self).equipped,
                        self.position_bits == match update.position_bits { Some(p) => p, None => old(self).position_bits },
                        self.orientation_bits == match update.orientation_bits { Some(o) => o, None => old(self).orientation_bits },
                        self.tilt_bits == match update.tilt_bits { Some(t) => t, None => old(self).tilt_bits },
                        it.index() == it.seq().len() ==> self.inventory@ == start.union_prefer_right(m@),
                {
                    self.inventory.insert(*k, *v);
                    proof {
                        lemma_inserted_pairs(start, m@, self.inventory@, it.seq(), it.index() + 1);
                    }
                }

            },
            None => {},
        }
        let ghost added = self.inventory@;
        match &update.inventory_removals {
            Some(r) => {
                for x in it: r.iter()
                    invariant
                        self.inventory@ == added.remove_keys(it.seq().take(it.index()).unref().to_set()),
                        it.seq().unref().to_set() == r@,
                        it.index() == it.seq().len() ==> self.inventory@ == added.remove_keys(r@),
                        self.id == old(self).id,
                        self.dirty_flags == old(self).dirty_flags,
                        self.dirty_attributes == old(self).dirty_attributes,
                        self.attributes == old(self).attributes,
                        self.inventory_additions@ == old(self).inventory_additions@,
                        self.inventory_removals@ == old(self).inventory_removals@,
                        self.action == old(self).action,
                        self.equipped == old(self).equipped,
                        self.position_bits == match update.position_bits { Some(p) => p, None => old(self).position_bits },
                        self.orientation_bits == match update.orientation_bits { Some(o) => o, None => old(self).orientation_bits },
                        self.tilt_bits == match update.tilt_bits { Some(t) => t, None => old(self).tilt_bits },
                {
                    proof {
                        assert(it.seq().take(it.index() + 1).unref() =~= it.seq().take(it.index()).unref().push(*x));
                        crate::util::lemma_push_to_set(it.seq().take(it.index()).unref(), *x);
                        assert(it.seq().take(it.seq().len() as int) =~= it.seq());
                        assert(added.remove_keys(it.seq().take(it.index()).unref().to_set().insert(*x)) =~= added.remove_keys(
                            it.seq().take(it.index()).unref().to_set(),
                        ).remove(*x));
                    }
                    self.inventory.remove(x);
                }
            },
            None => {},
        }
        match update.equipped_updates {
            Some(v) => {
                self.equipped = v;
            },
            None => {},
        }
        let ghost pre = *self;
        let attrs = update.attributes;
        let mut i: usize = 0;
        proof {
            assert(attrs@.take(0) =~= Seq::<(String, AttrValue)>::empty());
            assert(attr_names(attrs@.take(0)).to_set() =~= Set::<Seq<char>>::empty());
            assert(dirty_names(*self) + Set::<Seq<char>>::empty() =~= dirty_names(*self));
        }
        while i < attrs.len()
            invariant
                i <= attrs@.len(),
                attrs@ == update.attributes@,
                attr_map(self.attributes@) == attrs_applied(attr_map(pre.attributes@), attrs@.take(i as int)),
                dirty_names(*self) == dirty_names(pre) + attr_names(attrs@.take(i as int)).to_set(),
                self.id == pre.id,
                self.dirty_flags == pre.dirty_flags,
                self.inventory@ == pre.inventory@,
                self.inventory_additions@ == pre.inventory_additions@,
                self.inventory_removals@ == pre.inventory_removals@,
                self.action == pre.action,
                self.equipped == pre.equipped,
                self.position_bits == pre.position_bits,
                self.orientation_bits == pre.orientation_bits,
                self.tilt_bits == pre.tilt_bits,
            decreases attrs@.len() - i,
        {
            let ghost dn = dirty_names(*self);
            self.set_attribute(attrs[i].0.as_str(), copy_attr(&attrs[i].1));
            proof {
                let t = attrs@.take(i as int);
                assert(attrs@.take(i + 1) =~= t.push(attrs@[i as int]));
                assert(attrs@.take(i + 1).drop_last() =~= t);
                assert(attr_names(attrs@.take(i + 1)) =~= attr_names(t).push(attrs@[i as int].0@));
                crate::util::lemma_push_to_set(attr_names(t), attrs@[i as int].0@);
                assert(dirty_names(*self) =~= dirty_names(pre) + attr_names(attrs@.take(i + 1)).to_set());
            }
            i += 1;
        }
        proof {
            assert(attrs@.take(attrs@.len() as int) =~= attrs@);
        }
        proof {
            match update.inventory_additions {
                Some(m) => {},
                None => {
                    assert(added == start);
                },
            }
        }
    }
}

} // verus!

