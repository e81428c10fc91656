use vstd::prelude::*;

use crate::map::{add_unique, remove_all};

verus! {

broadcast use vstd::seq_lib::group_seq_properties;

/// Appending an element adds it to the sequence's set of elements.
pub proof fn lemma_push_to_set<A>(s: Seq<A>, a: A)
    ensures
        s.push(a).to_set() == s.to_set().insert(a),
{
    assert forall|x: A| s.push(a).contains(x) <==> s.contains(x) || x == a by {
        if s.push(a).contains(x) {
            let k = choose|k: int| 0 <= k < s.push(a).len() && s.push(a)[k] == x;
            if k < s.len() {
                assert(s[k] == x);
            }
        }
        if s.contains(x) {
            let k = choose|k: int| 0 <= k < s.len() && s[k] == x;
            assert(s.push(a)[k] == x);
        }
        if x == a {
            assert(s.push(a)[s.len() as int] == x);
        }
    }
    assert(s.push(a).to_set() =~= s.to_set().insert(a));
}

/// Whether `x` occurs in `v`.
pub fn contains_u32(v: &Vec<u32>, x: u32) -> (r: bool)
    ensures
        r == v@.contains(x),
{
    let mut i: usize = 0;
    while i < v.len()
        invariant
            i <= v.len(),
            forall|j: int| 0 <= j < i ==> v@[j] != x,
        decreases v.len() - i,
    {
        if v[i] == x {
            return true;
        }
        i += 1;
    }
    false
}

/// Appends each element of `add` that `sel` does not hold yet, in order.
pub fn extend_unique(sel: &mut Vec<u32>, add: &Vec<u32>)
    ensures
        final(sel)@ == add_unique(old(sel)@, add@),
{
    let mut k: usize = 0;
    while k < add.len()
        invariant
            k <= add.len(),
            sel@ == add_unique(old(sel)@, add@.take(k as int)),
        decreases add.len() - k,
    {
        assert(add@.take(k + 1).drop_last() == add@.take(k as int));
        let x = add[k];
        if !contains_u32(sel, x) {
            sel.push(x);
        }
        k += 1;
    }
    assert(add@.take(add@.len() as int) == add@);
}

/// The elements of `v` that do not occur in `remove`, order kept.
pub fn retain_not_in(v: &Vec<u32>, remove: &Vec<u32>) -> (r: Vec<u32>)
    ensures
        r@ == remove_all(v@, remove@),
{
    let mut out: Vec<u32> = Vec::new();
    let ghost pred = |x: u32| !remove@.contains(x);
    let mut i: usize = 0;
    while i < v.len()
        invariant
            i <= v.len(),
            out@ == v@.take(i as int).filter(pred),
            pred == (|x: u32| !remove@.contains(x)),
        decreases v.len() - i,
    {
        assert(v@.take(i + 1) == v@.take(i as int).push(v@[i as int]));
        proof {
            v@.take(i as int).lemma_filter_push(v@[i as int], pred);
        }
        if !contains_u32(remove, v[i]) {
            out.push(v[i]);
        }
        i += 1;
    }
    assert(v@.take(v@.len() as int) == v@);
    out
}

} // verus!
