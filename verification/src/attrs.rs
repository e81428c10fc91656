use vstd::prelude::*;

use crate::text::{from_literal, str_eq};

verus! {

broadcast use vstd::seq_lib::group_seq_properties;

/// A value of a named attribute of an entity, as far as the verified core
/// reads it: a flag, a whole number, a floating point number (as the bit
/// pattern of its `f32` value) or a text.
#[derive(Debug)]
pub enum AttrValue {
    Bool(bool),
    Int(i32),
    Int64(i64),
    Bits(u32),
    Text(String),
}

/// The plain content of an attribute value: a tag, a number and a text.
pub open spec fn attr_view(v: AttrValue) -> (int, int, Seq<char>) {
    match v {
        AttrValue::Bool(b) => (0, if b { 1int } else { 0int }, Seq::empty()),
        AttrValue::Int(i) => (1, i as int, Seq::empty()),
        AttrValue::Int64(i) => (2, i as int, Seq::empty()),
        AttrValue::Bits(b) => (3, b as int, Seq::empty()),
        AttrValue::Text(s) => (4, 0, s@),
    }
}

/// The attribute names of a list of attributes, as text.
pub open spec fn attr_names(attrs: Seq<(String, AttrValue)>) -> Seq<Seq<char>> {
    attrs.map_values(|e: (String, AttrValue)| e.0@)
}

/// The attributes as a map from name to value; the first entry of a name counts.
pub open spec fn attr_map(attrs: Seq<(String, AttrValue)>) -> Map<Seq<char>, (int, int, Seq<char>)>
    decreases attrs.len(),
{
    if attrs.len() == 0 {
        Map::empty()
    } else {
        let m = attr_map(attrs.drop_last());
        if m.contains_key(attrs.last().0@) {
            m
        } else {
            m.insert(attrs.last().0@, attr_view(attrs.last().1))
        }
    }
}

/// `m` after setting the attributes of `s` one after the other (a later
/// entry of a name overrides an earlier one).
pub open spec fn attrs_applied(m: Map<Seq<char>, (int, int, Seq<char>)>, s: Seq<(String, AttrValue)>) -> Map<
    Seq<char>,
    (int, int, Seq<char>),
>
    decreases s.len(),
{
    if s.len() == 0 {
        m
    } else {
        attrs_applied(m, s.drop_last()).insert(s.last().0@, attr_view(s.last().1))
    }
}

/// A name is in the map exactly when some entry has it.
pub proof fn lemma_attr_map_dom(attrs: Seq<(String, AttrValue)>)
    ensures
        attr_map(attrs).dom() == attr_names(attrs).to_set(),
    decreases attrs.len(),
{
    if attrs.len() > 0 {
        let pre = attrs.drop_last();
        lemma_attr_map_dom(pre);
        assert(attr_names(attrs) =~= attr_names(pre).push(attrs.last().0@));
        crate::util::lemma_push_to_set(attr_names(pre), attrs.last().0@);
        assert(attr_map(attrs).dom() =~= attr_names(attrs).to_set());
    } else {
        assert(attr_names(attrs).to_set() =~= Set::empty());
        assert(attr_map(attrs).dom() =~= Set::empty());
    }
}

/// Changing the value of the first entry of a name sets that name in the map.
proof fn lemma_attr_map_update(attrs: Seq<(String, AttrValue)>, i: int, e: (String, AttrValue))
    requires
        0 <= i < attrs.len(),
        attrs[i].0@ == e.0@,
        forall|j: int| 0 <= j < i ==> attrs[j].0@ != e.0@,
    ensures
        attr_map(attrs.update(i, e)) == attr_map(attrs).insert(e.0@, attr_view(e.1)),
    decreases attrs.len(),
{
    let pre = attrs.drop_last();
    let new = attrs.update(i, e);
    if i == attrs.len() - 1 {
        assert(new.drop_last() =~= pre);
        lemma_attr_map_dom(pre);
        assert(!attr_names(pre).contains(e.0@)) by {
            if attr_names(pre).contains(e.0@) {
                let j = choose|j: int| 0 <= j < attr_names(pre).len() && attr_names(pre)[j] == e.0@;
                assert(attrs[j].0@ == e.0@);
            }
        }
        assert(attr_map(new) =~= attr_map(attrs).insert(e.0@, attr_view(e.1)));
    } else {
        assert(new.drop_last() =~= pre.update(i, e));
        lemma_attr_map_update(pre, i, e);
        lemma_attr_map_dom(pre);
        assert(attr_names(pre).contains(e.0@)) by {
            assert(attr_names(pre)[i] == e.0@);
        }
        assert(attr_map(new) =~= attr_map(attrs).insert(e.0@, attr_view(e.1)));
    }
}

/// Applying entries that each carry a name's value in `m` gives `start`
/// overridden by `m` on the names of the entries.
pub proof fn lemma_attrs_applied(start: Map<Seq<char>, (int, int, Seq<char>)>, s: Seq<(String, AttrValue)>, m: Map<Seq<char>, (int, int, Seq<char>)>)
    requires
        forall|j: int| 0 <= j < s.len() ==> m.contains_key(#[trigger] s[j].0@) && attr_view(s[j].1) == m[s[j].0@],
    ensures
        attrs_applied(start, s) == start.union_prefer_right(m.restrict(attr_names(s).to_set())),
    decreases s.len(),
{
    if s.len() == 0 {
        assert(attr_names(s).to_set() =~= Set::empty());
        assert(start.union_prefer_right(m.restrict(Set::empty())) =~= start);
    } else {
        let pre = s.drop_last();
        assert forall|j: int| 0 <= j < pre.len() implies m.contains_key(#[trigger] pre[j].0@) && attr_view(pre[j].1) == m[pre[j].0@] by {
            assert(pre[j] == s[j]);
        }
        lemma_attrs_applied(start, pre, m);
        assert(attr_names(s) =~= attr_names(pre).push(s.last().0@));
        crate::util::lemma_push_to_set(attr_names(pre), s.last().0@);
        assert(s.last() == s[s.len() - 1]);
        assert(attrs_applied(start, s) =~= start.union_prefer_right(m.restrict(attr_names(s).to_set())));
    }
}

/// A copy of an attribute value.
pub fn copy_attr(v: &AttrValue) -> (r: AttrValue)
    ensures
        attr_view(r) == attr_view(*v),
{
    match v {
        AttrValue::Bool(b) => AttrValue::Bool(*b),
        AttrValue::Int(i) => AttrValue::Int(*i),
        AttrValue::Int64(i) => AttrValue::Int64(*i),
        AttrValue::Bits(b) => AttrValue::Bits(*b),
        AttrValue::Text(s) => AttrValue::Text(from_literal(s.as_str())),
    }
}

/// The position of the first attribute with this name.
pub fn find_attr(attrs: &Vec<(String, AttrValue)>, key: &str) -> (r: Option<usize>)
    ensures
        match r {
            Some(i) => i < attrs@.len() && attrs@[i as int].0@ == key@ && forall|j: int|
                0 <= j < i ==> attrs@[j].0@ != key@,
            None => forall|j: int| 0 <= j < attrs@.len() ==> attrs@[j].0@ != key@,
        },
{
    let mut i: usize = 0;
    while i < attrs.len()
        invariant
            i <= attrs@.len(),
            forall|j: int| 0 <= j < i ==> attrs@[j].0@ != key@,
        decreases attrs@.len() - i,
    {
        if str_eq(attrs[i].0.as_str(), key) {
            return Some(i);
        }
        i += 1;
    }
    None
}

/// The value of the attribute with this name, if there is one.
pub fn get_attr<'a>(attrs: &'a Vec<(String, AttrValue)>, key: &str) -> (r: Option<&'a AttrValue>)
    ensures
        match r {
            Some(v) => attr_map(attrs@).contains_key(key@) && attr_map(attrs@)[key@] == attr_view(*v),
            None => !attr_map(attrs@).contains_key(key@),
        },
{
    proof {
        lemma_attr_map_dom(attrs@);
    }
    match find_attr(attrs, key) {
        Some(i) => {
            proof {
                let e = attrs@[i as int];
                lemma_attr_map_update(attrs@, i as int, e);
                assert(attrs@.update(i as int, e) =~= attrs@);
                assert(attr_names(attrs@)[i as int] == key@);
            }
            Some(&attrs[i].1)
        },
        None => {
            proof {
                if attr_names(attrs@).contains(key@) {
                    let j = choose|j: int| 0 <= j < attr_names(attrs@).len() && attr_names(attrs@)[j] == key@;
                    assert(attrs@[j].0@ == key@);
                }
            }
            None
        },
    }
}

/// Sets the attribute with this name (its first entry, or a new one at the end).
pub fn set_attr(attrs: &mut Vec<(String, AttrValue)>, key: &str, value: AttrValue)
    ensures
        attr_map(final(attrs)@) == attr_map(old(attrs)@).insert(key@, attr_view(value)),
{
    let ghost v = attr_view(value);
    match find_attr(attrs, key) {
        Some(i) => {
            let e = (from_literal(key), value);
            proof {
                lemma_attr_map_update(attrs@, i as int, e);
            }
            attrs.set(i, e);
        },
        None => {
            let ghost before = attrs@;
            proof {
                lemma_attr_map_dom(before);
                if attr_names(before).contains(key@) {
                    let j = choose|j: int| 0 <= j < attr_names(before).len() && attr_names(before)[j] == key@;
                    assert(before[j].0@ == key@);
                }
            }
            attrs.push((from_literal(key), value));
            assert(attrs@.drop_last() =~= before);
        },
    }
}

} // verus!
