use vstd::prelude::*;

use super::delete::sector_view;
use super::linedef::Linedef;
use super::query::copy_sector;
use super::sector::Sector;
use super::clipboard::{lemma_min_free, min_free};
use super::{first_id_index, is_first_id, lemma_first_id_index_contains, linedef_ids, vertex_ids, GameMap};

verus! {

broadcast use vstd::seq_lib::group_seq_properties;

/// `s` with its first `x` replaced by the sequence `rep` (unchanged without an `x`).
pub open spec fn replace_first(s: Seq<u32>, x: u32, rep: Seq<u32>) -> Seq<u32> {
    let i = first_id_index(s, x);
    if i < 0 {
        s
    } else {
        s.take(i) + rep + s.skip(i + 1)
    }
}

/// A sector whose first reference to linedef `lid` became `lid` followed by `nid`.
pub open spec fn split_sector(s: Sector, lid: u32, nid: u32) -> (u32, Seq<char>, Seq<u32>, Seq<u32>, Option<u8>) {
    (s.id, s.name@, replace_first(s.linedefs@, lid, seq![lid, nid]), s.neighbours@, s.layer)
}

/// A linedef created by a split: the given id and ends, no name, no sectors.
pub open spec fn fresh_linedef(l: Linedef, id: u32, start: u32, end: u32) -> bool {
    &&& l.id == id
    &&& l.start_vertex == start
    &&& l.end_vertex == end
    &&& l.name@ == Seq::<char>::empty()
    &&& l.front_sector is None
    &&& l.back_sector is None
}

/// `v` with its first `x` replaced by `a, b`.
pub fn replace_first_id(v: &Vec<u32>, x: u32, a: u32, b: u32) -> (r: Vec<u32>)
    ensures
        r@ == replace_first(v@, x, seq![a, b]),
{
    let mut i: usize = 0;
    while i < v.len() && v[i] != x
        invariant
            i <= v@.len(),
            forall|j: int| 0 <= j < i ==> v@[j] != x,
        decreases v@.len() - i,
    {
        i += 1;
    }
    proof {
        lemma_first_id_index_contains(v@, x);
        if i < v@.len() {
            assert(is_first_id(v@, x, i as int));
            assert(v@.contains(x));
            assert(first_id_index(v@, x) == i);
        } else {
            assert(!v@.contains(x));
        }
    }
    if i == v.len() {
        let mut r: Vec<u32> = Vec::new();
        let mut k: usize = 0;
        while k < v.len()
            invariant
                k <= v@.len(),
                r@ == v@.take(k as int),
            decreases v@.len() - k,
        {
            r.push(v[k]);
            k += 1;
            assert(r@ =~= v@.take(k as int));
        }
        assert(v@.take(v@.len() as int) =~= v@);
        return r;
    }
    let mut r: Vec<u32> = Vec::new();
    let mut k: usize = 0;
    while k < v.len()
        invariant
            i < v@.len(),
            k <= v@.len(),
            r@ == if k <= i { v@.take(k as int) } else { v@.take(i as int) + seq![a, b] + v@.subrange(
                i + 1,
                k as int,
            ) },
        decreases v@.len() - k,
    {
        if k == i {
            r.push(a);
            r.push(b);
            assert(r@ =~= v@.take(i as int) + seq![a, b] + v@.subrange(i + 1, k + 1));
        } else {
            r.push(v[k]);
            if k < i {
                assert(r@ =~= v@.take(k + 1));
            } else {
                assert(r@ =~= v@.take(i as int) + seq![a, b] + v@.subrange(i + 1, k + 1));
            }
        }
        k += 1;
    }
    assert(v@.subrange(i + 1, v@.len() as int) =~= v@.skip(i + 1));
    r
}

/// Appending an id that does not occur keeps a list of ids free of duplicates.
proof fn lemma_push_fresh_distinct(ids: Seq<u32>, x: u32)
    requires
        !ids.contains(x),
    ensures
        ids.no_duplicates() ==> ids.push(x).no_duplicates(),
{
    let n = ids.push(x);
    if ids.no_duplicates() {
        assert forall|a: int, b: int| 0 <= a < n.len() && 0 <= b < n.len() && a != b implies n[a] != n[b] by {
            if a == ids.len() {
                assert(n[b] == ids[b]);
            } else if b == ids.len() {
                assert(n[a] == ids[a]);
            } else {
                assert(n[a] == ids[a] && n[b] == ids[b]);
            }
        }
    }
}

impl GameMap {
    /// Splits linedef `linedef_id` at vertex `vertex_id` (the new midpoint): the
    /// linedef keeps its id and now ends at the vertex, a new linedef with a
    /// new unique id (the smallest id no linedef uses) runs from the vertex to
    /// the old end, and in every sector the first reference to the linedef is
    /// followed by one to the new linedef. Refused (`None`, nothing changed)
    /// when the linedef or one of its end vertices does not exist, or when no
    /// linedef id is free. Linedef ids that were distinct stay distinct.
    #[verifier::rlimit(40)]
    pub fn split_linedef(&mut self, linedef_id: u32, vertex_id: u32) -> (r: Option<u32>)
        ensures
            ({
                let li = first_id_index(linedef_ids(old(self).linedefs@), linedef_id);
                let l = old(self).linedefs@[li];
                let nid = min_free(linedef_ids(old(self).linedefs@));
                if old(self).has_linedef(linedef_id) && old(self).has_vertex(l.start_vertex)
                    && old(self).has_vertex(l.end_vertex) && exists|j: u32| !old(self).has_linedef(j) {
                    &&& r == Some(vertex_id)
                    &&& !old(self).has_linedef(nid)
                    &&& forall|j: u32| j < nid ==> old(self).has_linedef(j)
                    &&& final(self).linedefs@.len() == old(self).linedefs@.len() + 1
                    &&& forall|j: int|
                        0 <= j < old(self).linedefs@.len() && j != li ==> #[trigger] final(self).linedefs@[j]
                            == old(self).linedefs@[j]
                    &&& fresh_linedef(final(self).linedefs@[li], linedef_id, l.start_vertex, vertex_id)
                    &&& fresh_linedef(
                        final(self).linedefs@[old(self).linedefs@.len() as int],
                        nid,
                        vertex_id,
                        l.end_vertex,
                    )
                    &&& final(self).sectors@.map_values(|s: Sector| sector_view(s))
                        == old(self).sectors@.map_values(|s: Sector| split_sector(s, linedef_id, nid))
                } else {
                    &&& r is None
                    &&& final(self).linedefs == old(self).linedefs
                    &&& final(self).sectors == old(self).sectors
                }
            }),
            linedef_ids(old(self).linedefs@).no_duplicates() ==> linedef_ids(final(self).linedefs@).no_duplicates(),
            final(self).vertices == old(self).vertices,
            final(self).possible_polygon == old(self).possible_polygon,
            super::same_settings(*old(self), *final(self)),
    {
        let li = match self.linedef_index(linedef_id) {
            Some(i) => i,
            None => return None,
        };
        let start = self.linedefs[li].start_vertex;
        let end = self.linedefs[li].end_vertex;
        if self.vertex_index(start).is_none() || self.vertex_index(end).is_none() {
            return None;
        }
        let nid = match self.find_free_linedef_id() {
            Some(id) => id,
            None => return None,
        };
        proof {
            assert(!linedef_ids(self.linedefs@).contains(nid));
            assert forall|j: u32| j < nid implies linedef_ids(self.linedefs@).contains(j) by {
                assert(self.has_linedef(j));
            }
            lemma_min_free(linedef_ids(self.linedefs@), nid);
        }
        let first = Linedef::new(linedef_id, start, vertex_id);
        let second = Linedef::new(nid, vertex_id, end);
        let ghost m = *self;
        let ghost split = |s: Sector| split_sector(s, linedef_id, nid);
        let mut new_sectors: Vec<Sector> = Vec::new();
        let mut k: usize = 0;
        while k < self.sectors.len()
            invariant
                k <= self.sectors@.len(),
                m == *self,
                split == (|s: Sector| split_sector(s, linedef_id, nid)),
                new_sectors@.map_values(|s: Sector| sector_view(s)) == self.sectors@.take(
                    k as int,
                ).map_values(split),
            decreases self.sectors@.len() - k,
        {
            let s = &self.sectors[k];
            let mut c = copy_sector(s);
            c.linedefs = replace_first_id(&s.linedefs, linedef_id, linedef_id, nid);
            let ghost before = new_sectors@;
            new_sectors.push(c);
            proof {
                assert(sector_view(c) == split(self.sectors@[k as int]));
                assert(self.sectors@.take(k + 1) =~= self.sectors@.take(k as int).push(
                    self.sectors@[k as int],
                ));
                assert(new_sectors@.map_values(|s: Sector| sector_view(s)) =~= before.map_values(
                    |s: Sector| sector_view(s),
                ).push(sector_view(c)));
                assert(self.sectors@.take(k + 1).map_values(split) =~= self.sectors@.take(
                    k as int,
                ).map_values(split).push(split(self.sectors@[k as int])));
            }
            k += 1;
        }
        proof {
            assert(self.sectors@.take(self.sectors@.len() as int) =~= self.sectors@);
        }
        self.sectors = new_sectors;
        let ghost old_ids = linedef_ids(self.linedefs@);
        self.linedefs.set(li, first);
        self.linedefs.push(second);
        proof {
            assert(linedef_ids(self.linedefs@) =~= old_ids.push(nid));
            lemma_push_fresh_distinct(old_ids, nid);
        }
        Some(vertex_id)
    }
}

} // verus!
