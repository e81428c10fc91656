use vstd::prelude::*;

verus! {

/// The first slot entry named `slot`, or -1.
#[verifier::opaque]
pub open spec fn first_slot(eq: Seq<(String, u32)>, slot: Seq<char>) -> int {
    if exists|k: int| 0 <= k < eq.len() && eq[k].0@ == slot {
        choose|k: int|
            0 <= k < eq.len() && eq[k].0@ == slot && forall|j: int| 0 <= j < k ==> eq[j].0@ != slot
    } else {
        -1
    }
}

/// `first_slot` names the first entry of the slot, or is -1 when the slot has none.
pub proof fn lemma_first_slot(eq: Seq<(String, u32)>, slot: Seq<char>)
    ensures
        first_slot(eq, slot) >= 0 ==> {
            &&& first_slot(eq, slot) < eq.len()
            &&& eq[first_slot(eq, slot)].0@ == slot
            &&& forall|j: int| 0 <= j < first_slot(eq, slot) ==> eq[j].0@ != slot
        },
        first_slot(eq, slot) < 0 ==> first_slot(eq, slot) == -1 && forall|j: int| 0 <= j < eq.len() ==> eq[j].0@ != slot,
{
    reveal(first_slot);
    if exists|k: int| 0 <= k < eq.len() && eq[k].0@ == slot {
        let k = choose|k: int| 0 <= k < eq.len() && eq[k].0@ == slot;
        lemma_first_slot_exists(eq, slot, k);
    }
}

proof fn lemma_first_slot_exists(eq: Seq<(String, u32)>, slot: Seq<char>, k: int)
    requires
        0 <= k < eq.len(),
        eq[k].0@ == slot,
    ensures
        exists|c: int| 0 <= c < eq.len() && eq[c].0@ == slot && forall|j: int| 0 <= j < c ==> eq[j].0@ != slot,
    decreases k,
{
    if exists|j: int| 0 <= j < k && eq[j].0@ == slot {
        let j = choose|j: int| 0 <= j < k && eq[j].0@ == slot;
        lemma_first_slot_exists(eq, slot, j);
    } else {
        assert(0 <= k < eq.len() && eq[k].0@ == slot && forall|j: int| 0 <= j < k ==> eq[j].0@ != slot);
    }
}

/// What slot `slot` holds: the item of its first entry, if it has one.
pub open spec fn equipped_in(eq: Seq<(String, u32)>, slot: Seq<char>) -> Option<u32> {
    let k = first_slot(eq, slot);
    if k >= 0 {
        Some(eq[k].1)
    } else {
        None
    }
}

/// No slot has two entries.
pub open spec fn slots_distinct(eq: Seq<(String, u32)>) -> bool {
    forall|i: int, j: int| 0 <= i < j < eq.len() ==> eq[i].0@ != eq[j].0@
}

/// `eq2` is `eq` with `item` put into `slot`: the slot's first entry gets the
/// item, or, when the slot has none, an entry for it is appended.
pub open spec fn slot_set(eq: Seq<(String, u32)>, eq2: Seq<(String, u32)>, slot: Seq<char>, item: u32) -> bool {
    let k = first_slot(eq, slot);
    let p = set_position(eq, slot);
    &&& eq2.len() == if k >= 0 { eq.len() } else { eq.len() + 1 }
    &&& forall|j: int| 0 <= j < eq.len() && j != k ==> eq2[j] == eq[j]
    &&& eq2[p].0@ == slot
    &&& eq2[p].1 == item
}

/// `k` is the first entry of `slot`.
pub proof fn lemma_first_slot_at(eq: Seq<(String, u32)>, slot: Seq<char>, k: int)
    requires
        0 <= k < eq.len(),
        eq[k].0@ == slot,
        forall|j: int| 0 <= j < k ==> eq[j].0@ != slot,
    ensures
        first_slot(eq, slot) == k,
{
    lemma_first_slot(eq, slot);
    let c = first_slot(eq, slot);
    if c < k {
        assert(eq[c].0@ != slot);
    }
    if k < c {
        assert(eq[k].0@ != slot);
    }
}

/// Where `slot_set` put the item: the slot's first entry, or the appended one.
pub open spec fn set_position(eq: Seq<(String, u32)>, slot: Seq<char>) -> int {
    let k = first_slot(eq, slot);
    if k >= 0 {
        k
    } else {
        eq.len() as int
    }
}

proof fn lemma_slot_set_slot(eq: Seq<(String, u32)>, eq2: Seq<(String, u32)>, slot: Seq<char>, item: u32)
    requires
        slot_set(eq, eq2, slot, item),
    ensures
        equipped_in(eq2, slot) == Some(item),
{
    let k = first_slot(eq, slot);
    let p = set_position(eq, slot);
    lemma_first_slot(eq, slot);
    assert forall|j: int| 0 <= j < p implies eq2[j].0@ != slot by {
        assert(eq2[j] == eq[j]);
    }
    lemma_first_slot_at(eq2, slot, p);
}

proof fn lemma_slot_set_other(eq: Seq<(String, u32)>, eq2: Seq<(String, u32)>, slot: Seq<char>, item: u32, other: Seq<char>)
    requires
        slot_set(eq, eq2, slot, item),
        other != slot,
    ensures
        equipped_in(eq2, other) == equipped_in(eq, other),
{
    let k = first_slot(eq, slot);
    let p = set_position(eq, slot);
    let q = first_slot(eq, other);
    lemma_first_slot(eq, slot);
    lemma_first_slot(eq, other);
    lemma_first_slot(eq2, other);
    if q >= 0 {
        assert(q != k);
        assert forall|j: int| 0 <= j < q implies eq2[j].0@ != other by {
            if j != k {
                assert(eq2[j] == eq[j]);
            }
        }
        assert(eq2[q] == eq[q]);
        lemma_first_slot_at(eq2, other, q);
    } else {
        assert forall|j: int| 0 <= j < eq2.len() implies eq2[j].0@ != other by {
            if j != p {
                assert(eq2[j] == eq[j]);
            }
        }
    }
}

proof fn lemma_slot_set_distinct(eq: Seq<(String, u32)>, eq2: Seq<(String, u32)>, slot: Seq<char>, item: u32)
    requires
        slot_set(eq, eq2, slot, item),
        slots_distinct(eq),
    ensures
        slots_distinct(eq2),
{
    let k = first_slot(eq, slot);
    let p = set_position(eq, slot);
    lemma_first_slot(eq, slot);
    assert forall|i: int, j: int| 0 <= i < j < eq2.len() implies eq2[i].0@ != eq2[j].0@ by {
        if i != p && j != p {
            assert(eq2[i] == eq[i] && eq2[j] == eq[j]);
        } else if i == p {
            assert(eq2[j] == eq[j]);
        } else {
            assert(eq2[i] == eq[i]);
        }
    }
}

/// After an item is put into a slot, the slot holds it and every other slot
/// holds what it held; slots stay distinct.
pub proof fn lemma_slot_set_then_get(eq: Seq<(String, u32)>, eq2: Seq<(String, u32)>, slot: Seq<char>, item: u32, other: Seq<char>)
    requires
        slot_set(eq, eq2, slot, item),
    ensures
        equipped_in(eq2, slot) == Some(item),
        other != slot ==> equipped_in(eq2, other) == equipped_in(eq, other),
        slots_distinct(eq) ==> slots_distinct(eq2),
{
    lemma_slot_set_slot(eq, eq2, slot, item);
    if other != slot {
        lemma_slot_set_other(eq, eq2, slot, item, other);
    }
    if slots_distinct(eq) {
        lemma_slot_set_distinct(eq, eq2, slot, item);
    }
}

/// After a slot's first entry is removed from distinct slots, the slot holds
/// nothing and every other slot holds what it held.
pub proof fn lemma_slot_cleared_then_get(eq: Seq<(String, u32)>, slot: Seq<char>, other: Seq<char>)
    requires
        slots_distinct(eq),
        first_slot(eq, slot) >= 0,
    ensures
        equipped_in(eq.remove(first_slot(eq, slot)), slot) is None,
        other != slot ==> equipped_in(eq.remove(first_slot(eq, slot)), other) == equipped_in(eq, other),
        slots_distinct(eq.remove(first_slot(eq, slot))),
{
    let k = first_slot(eq, slot);
    let eq2 = eq.remove(k);
    lemma_first_slot(eq, slot);
    lemma_first_slot(eq2, slot);
    assert(!(exists|j: int| 0 <= j < eq2.len() && eq2[j].0@ == slot)) by {
        if exists|j: int| 0 <= j < eq2.len() && eq2[j].0@ == slot {
            let j = choose|j: int| 0 <= j < eq2.len() && eq2[j].0@ == slot;
            if j < k {
                assert(eq2[j] == eq[j]);
            } else {
                assert(eq2[j] == eq[j + 1]);
            }
        }
    }
    if other != slot {
        let q = first_slot(eq, other);
        lemma_first_slot(eq, other);
        lemma_first_slot(eq2, other);
        if q >= 0 {
            let q2 = if q < k { q } else { q - 1 };
            assert(eq2[q2] == eq[q]);
            assert forall|j: int| 0 <= j < q2 implies eq2[j].0@ != other by {
                if j < k {
                    assert(eq2[j] == eq[j]);
                } else {
                    assert(eq2[j] == eq[j + 1]);
                }
            }
            lemma_first_slot_at(eq2, other, q2);
        } else {
            assert(!(exists|j: int| 0 <= j < eq2.len() && eq2[j].0@ == other)) by {
                if exists|j: int| 0 <= j < eq2.len() && eq2[j].0@ == other {
                    let j = choose|j: int| 0 <= j < eq2.len() && eq2[j].0@ == other;
                    if j < k {
                        assert(eq2[j] == eq[j]);
                    } else {
                        assert(eq2[j] == eq[j + 1]);
                    }
                }
            }
        }
    }
    assert forall|i: int, j: int| 0 <= i < j < eq2.len() implies eq2[i].0@ != eq2[j].0@ by {
        let i0 = if i < k { i } else { i + 1 };
        let j0 = if j < k { j } else { j + 1 };
        assert(eq2[i] == eq[i0] && eq2[j] == eq[j0]);
    }
}

} // verus!
